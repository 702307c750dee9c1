//! Splitting a payment and its change so that the outputs look alike.

use crate::amounts::{lemma_sum_one, sum};
use crate::coin_selector::FeeRate;
use crate::error::WalletErrorView;
use crate::spend::{
    available_regular, available_swap, is_available, is_coin_selection, is_payable, is_selectable,
};
use crate::spend_laws::{
    distinct_coins, law_selected_coins_are_available, law_selected_coins_pay, lemma_selection_value,
};
use crate::splits::{
    ct_harmony_split, fee_score, is_change_pair, is_harmony_split, is_pair, kept_change,
    law_chunks_are_not_dust, law_harmony_split_keeps_the_amounts, lemma_change_pair, lemma_pair,
    scores_no_worse, simple_fee_optimization, split_change_in_two, vary_in_two, DUST_LIMIT,
    MAX_SPLITS,
};
use crate::store::StoreView;
use crate::types::OutPoint;
use crate::utxo::{
    clone_coin, coins_value, coins_view, lemma_coins_value_concat, total_value, Coin, CoinView,
};
use crate::wallet::Wallet;
use vstd::prelude::*;

verus! {

/// The inputs and the output amounts of a payment.
#[derive(Debug)]
pub struct DynamicSplits {
    pub inputs: Vec<Coin>,
    pub target_chunks: Vec<u64>,
    pub change_chunks: Vec<u64>,
    /// The coins that were selected beside the initial ones and are to be locked.
    pub to_lock: Vec<OutPoint>,
}

#[verifier::ext_equal]
pub struct DynamicSplitsView {
    pub inputs: Seq<CoinView>,
    pub target_chunks: Seq<u64>,
    pub change_chunks: Seq<u64>,
    pub to_lock: Seq<OutPoint>,
}

impl View for DynamicSplits {
    type V = DynamicSplitsView;

    open spec fn view(&self) -> DynamicSplitsView {
        DynamicSplitsView {
            inputs: coins_view(self.inputs@),
            target_chunks: self.target_chunks@,
            change_chunks: self.change_chunks@,
            to_lock: self.to_lock@,
        }
    }
}

/// What the coins are worth beyond the target.
pub open spec fn change_of(coins: Seq<CoinView>, target: u64) -> int {
    if coins_value(coins) >= target {
        coins_value(coins) - target
    } else {
        0
    }
}

/// Change within 10 % of the target.
pub open spec fn is_ideal_change(change: int, target: u64) -> bool {
    9 * target / 10 <= change <= 11 * target / 10
}

/// The outpoints of a list of coins.
pub open spec fn outpoints_of(coins: Seq<CoinView>) -> Seq<OutPoint> {
    coins.map_values(|coin: CoinView| coin.0.outpoint())
}

/// The amounts are varied over two chunks each, or kept in one piece where that spares a chunk of
/// dust.
pub open spec fn in_two_chunks(
    inputs: Seq<CoinView>,
    target: u64,
    change: u64,
    splits: DynamicSplitsView,
) -> bool {
    &&& splits.inputs == inputs
    &&& is_pair(target, splits.target_chunks)
    &&& is_change_pair(change, splits.change_chunks)
}

/// The amounts are split into like-sized chunks.
pub open spec fn in_harmony(
    inputs: Seq<CoinView>,
    target: u64,
    change: u64,
    splits: DynamicSplitsView,
) -> bool {
    &&& splits.inputs == inputs
    &&& is_harmony_split(
        target,
        change,
        MAX_SPLITS as int,
        splits.target_chunks,
        splits.change_chunks,
    )
}

/// The split of the smaller score, the first one where both score the same.
pub open spec fn is_cheaper_of(
    first: DynamicSplitsView,
    second: DynamicSplitsView,
    splits: DynamicSplitsView,
) -> bool {
    let score = |s: DynamicSplitsView|
        fee_score(s.inputs.len(), s.target_chunks, s.change_chunks);
    if scores_no_worse(score(first), score(second)) {
        splits == first
    } else {
        splits == second
    }
}

/// What splitting with further coins may come to.
pub open spec fn is_split_with_more(
    coins: Seq<CoinView>,
    more: Seq<CoinView>,
    target: u64,
    splits: DynamicSplitsView,
) -> bool {
    let change = change_of(coins, target);
    let larger = change + coins_value(more);
    &&& splits.to_lock == outpoints_of(more)
    &&& if larger > target && is_ideal_change(larger, target) {
        in_two_chunks(coins + more, target, larger as u64, splits)
    } else {
        exists|first: DynamicSplitsView, second: DynamicSplitsView| #[trigger]
            in_harmony(coins, target, change as u64, first) && #[trigger] in_harmony(
                coins + more,
                target,
                larger as u64,
                second,
            ) && first.to_lock == splits.to_lock && second.to_lock == splits.to_lock
                && is_cheaper_of(first, second, splits)
    }
}

/// What splitting a payment with too little change may come to, by what the selection of further
/// coins came to.
pub open spec fn is_split_after(
    coins: Seq<CoinView>,
    target: u64,
    second: Result<Seq<CoinView>, WalletErrorView>,
    splits: DynamicSplitsView,
) -> bool {
    match second {
        Ok(more) => is_split_with_more(coins, more, target, splits),
        Err(_) => in_harmony(coins, target, change_of(coins, target) as u64, splits)
            && splits.to_lock == Seq::<OutPoint>::empty(),
    }
}

/// No output is tiny: a change chunk is empty or reaches the dust limit, and so does every target
/// chunk where the target does and the coins are worth as much.
pub open spec fn has_no_tiny_chunk(
    coins: Seq<CoinView>,
    target: u64,
    splits: DynamicSplitsView,
) -> bool {
    &&& forall|k: int|
        0 <= k < splits.change_chunks.len() ==> #[trigger] splits.change_chunks[k] == 0
            || splits.change_chunks[k] >= DUST_LIMIT
    &&& target >= DUST_LIMIT && coins_value(coins) >= DUST_LIMIT ==> forall|k: int|
        0 <= k < splits.target_chunks.len() ==> #[trigger] splits.target_chunks[k] >= DUST_LIMIT
}

/// What splitting a payment may come to. Change below the dust limit gets no output: its chunk is
/// empty, and it is left to the fee.
///
/// - Without change there is one chunk of all that the coins are worth.
/// - Change within 10 % of the target: two chunks each.
/// - Change below that: further coins are selected for what is missing. Where change then is within
///   10 % of the target there are two chunks each; otherwise the cheaper one of the like-sized
///   splits with and without the further coins. Where there are no further coins, a like-sized
///   split.
/// - Change above that: a like-sized split.
pub open spec fn is_dynamic_split(
    store: StoreView,
    locked: Seq<OutPoint>,
    coins: Seq<CoinView>,
    target: u64,
    feerate: FeeRate,
    splits: DynamicSplitsView,
) -> bool {
    let change = change_of(coins, target);
    if change == 0 {
        &&& splits.inputs == coins
        &&& splits.target_chunks == seq![coins_value(coins) as u64]
        &&& splits.change_chunks == seq![0u64]
        &&& splits.to_lock == Seq::<OutPoint>::empty()
    } else if is_ideal_change(change, target) {
        &&& in_two_chunks(coins, target, change as u64, splits)
        &&& splits.to_lock == Seq::<OutPoint>::empty()
    } else if change < 9 * target / 10 {
        exists|second: Result<Seq<CoinView>, WalletErrorView>| #[trigger]
            is_coin_selection(
                available_regular(store, locked, Seq::empty()),
                available_swap(store, locked, Seq::empty()),
                Seq::empty(),
                (target - change) as u64,
                feerate,
                second,
            ) && is_split_after(coins, target, second, splits)
    } else {
        &&& in_harmony(coins, target, change as u64, splits)
        &&& splits.to_lock == Seq::<OutPoint>::empty()
    }
}

fn clone_coins(coins: &Vec<Coin>) -> (r: Vec<Coin>)
    ensures
        coins_view(r@) == coins_view(coins@),
{
    let mut r: Vec<Coin> = Vec::new();
    let mut i: usize = 0;
    while i < coins.len()
        invariant
            i <= coins.len(),
            r.len() == i,
            forall|k: int|
                0 <= k < i ==> #[trigger] coins_view(r@)[k] == coins_view(coins@)[k],
        decreases coins.len() - i,
    {
        let ghost before = coins_view(r@);
        r.push(clone_coin(&coins[i]));
        assert(coins_view(r@) =~= before.push(coins_view(coins@)[i as int]));
        i += 1;
    }
    assert(coins_view(r@) =~= coins_view(coins@));
    r
}

fn join_coins(a: &Vec<Coin>, b: &Vec<Coin>) -> (r: Vec<Coin>)
    ensures
        coins_view(r@) == coins_view(a@) + coins_view(b@),
{
    let mut r = clone_coins(a);
    let mut tail = clone_coins(b);
    let ghost (front, back) = (r@, tail@);
    r.append(&mut tail);
    assert(coins_view(r@) =~= coins_view(front) + coins_view(back));
    r
}

fn list_outpoints(coins: &Vec<Coin>) -> (r: Vec<OutPoint>)
    ensures
        r@ == outpoints_of(coins_view(coins@)),
{
    let mut r: Vec<OutPoint> = Vec::new();
    let mut i: usize = 0;
    while i < coins.len()
        invariant
            i <= coins.len(),
            r.len() == i,
            forall|k: int|
                0 <= k < i ==> #[trigger] r@[k] == outpoints_of(coins_view(coins@))[k],
        decreases coins.len() - i,
    {
        r.push(coins[i].0.outpoint());
        i += 1;
    }
    assert(r@ =~= outpoints_of(coins_view(coins@)));
    r
}

/// Whether the first score is no worse than the second.
fn no_worse(first: Option<u128>, second: Option<u128>) -> (r: bool)
    ensures
        r == scores_no_worse(score_view(first), score_view(second)),
{
    match (first, second) {
        (_, None) => true,
        (None, Some(_)) => false,
        (Some(a), Some(b)) => a <= b,
    }
}

spec fn score_view(score: Option<u128>) -> Option<nat> {
    match score {
        Some(s) => Some(s as nat),
        None => None,
    }
}

/// Splits into like-sized chunks.
fn harmonise(inputs: Vec<Coin>, target: u64, change: u64, to_lock: Vec<OutPoint>) -> (r:
    DynamicSplits)
    ensures
        in_harmony(coins_view(inputs@), target, change, r@),
        r@.to_lock == to_lock@,
{
    let (target_chunks, change_chunks) = ct_harmony_split(target, change, MAX_SPLITS);
    DynamicSplits { inputs, target_chunks, change_chunks, to_lock }
}

/// Splits a payment where further coins were selected.
pub fn split_with_more(coins: Vec<Coin>, more: Vec<Coin>, target: u64) -> (r: DynamicSplits)
    requires
        coins_value(coins_view(coins@)) + coins_value(coins_view(more@)) <= u64::MAX,
        target <= coins_value(coins_view(coins@)),
    ensures
        is_split_with_more(coins_view(coins@), coins_view(more@), target, r@),
        has_no_tiny_chunk(coins_view(coins@), target, r@),
{
    let ghost (first_coins, more_coins) = (coins_view(coins@), coins_view(more@));
    let change: u64 = total_value(&coins) - target;
    let larger: u64 = change + total_value(&more);
    let to_lock = list_outpoints(&more);
    let lower: u128 = 9 * target as u128 / 10;
    let upper: u128 = 11 * target as u128 / 10;
    let joined = join_coins(&coins, &more);
    if larger > target && lower <= larger as u128 && larger as u128 <= upper {
        let r = DynamicSplits {
            inputs: joined,
            target_chunks: vary_in_two(target),
            change_chunks: split_change_in_two(larger),
            to_lock,
        };
        proof {
            lemma_split_with_more_not_tiny(first_coins, more_coins, target, r@);
        }
        return r;
    }
    let ghost lock_view = to_lock@;
    let lock_again = list_outpoints(&more);
    let first = harmonise(coins, target, change, to_lock);
    let second = harmonise(joined, target, larger, lock_again);
    proof {
        law_harmony_split_keeps_the_amounts(
            target,
            change,
            MAX_SPLITS as int,
            first@.target_chunks,
            first@.change_chunks,
        );
        law_harmony_split_keeps_the_amounts(
            target,
            larger,
            MAX_SPLITS as int,
            second@.target_chunks,
            second@.change_chunks,
        );
        assert(first@.inputs.len() == first.inputs@.len());
        assert(second@.inputs.len() == second.inputs@.len());
        assert(in_harmony(first_coins, target, change, first@));
        assert(in_harmony(first_coins + more_coins, target, larger, second@));
    }
    let first_score = simple_fee_optimization(
        first.inputs.len(),
        &first.target_chunks,
        &first.change_chunks,
    );
    let second_score = simple_fee_optimization(
        second.inputs.len(),
        &second.target_chunks,
        &second.change_chunks,
    );
    let ghost (f, s) = (first@, second@);
    let r = if no_worse(first_score, second_score) {
        first
    } else {
        second
    };
    proof {
        assert(is_cheaper_of(f, s, r@));
        lemma_split_with_more_not_tiny(first_coins, more_coins, target, r@);
    }
    r
}

impl Wallet {
    /// Splits a payment and its change into outputs that look alike, at a low fee. Where the
    /// change is small, further coins may be selected. No tiny output is made.
    pub fn create_dynamic_splits(
        &self,
        selected_inputs: Vec<Coin>,
        target: u64,
        fee_rate: FeeRate,
        locked_utxos: &Vec<OutPoint>,
    ) -> (r: DynamicSplits)
        requires
            self@.well_formed(),
            is_selectable(self@),
            is_payable(target, fee_rate),
            coins_value(coins_view(selected_inputs@)) <= 0x8000_0000_0000_0000,
        ensures
            is_dynamic_split(
                self@,
                locked_utxos@,
                coins_view(selected_inputs@),
                target,
                fee_rate,
                r@,
            ),
            has_no_tiny_chunk(coins_view(selected_inputs@), target, r@),
    {
        let r = self.split_payment(selected_inputs, target, fee_rate, locked_utxos);
        proof {
            law_no_output_is_tiny(
                self@,
                locked_utxos@,
                coins_view(selected_inputs@),
                target,
                fee_rate,
                r@,
            );
        }
        r
    }

    fn split_payment(
        &self,
        selected_inputs: Vec<Coin>,
        target: u64,
        fee_rate: FeeRate,
        locked_utxos: &Vec<OutPoint>,
    ) -> (r: DynamicSplits)
        requires
            self@.well_formed(),
            is_selectable(self@),
            is_payable(target, fee_rate),
            coins_value(coins_view(selected_inputs@)) <= 0x8000_0000_0000_0000,
        ensures
            is_dynamic_split(
                self@,
                locked_utxos@,
                coins_view(selected_inputs@),
                target,
                fee_rate,
                r@,
            ),
    {
        let ghost coins = coins_view(selected_inputs@);
        let total: u64 = total_value(&selected_inputs);
        let change: u64 = if total >= target {
            total - target
        } else {
            0
        };
        if change == 0 {
            let mut target_chunks: Vec<u64> = Vec::new();
            target_chunks.push(total);
            let mut change_chunks: Vec<u64> = Vec::new();
            change_chunks.push(0);
            assert(target_chunks@ =~= seq![total]);
            assert(change_chunks@ =~= seq![0u64]);
            return DynamicSplits {
                inputs: selected_inputs,
                target_chunks,
                change_chunks,
                to_lock: Vec::new(),
            };
        }
        let lower: u128 = 9 * target as u128 / 10;
        let upper: u128 = 11 * target as u128 / 10;
        if lower <= change as u128 && change as u128 <= upper {
            return DynamicSplits {
                inputs: selected_inputs,
                target_chunks: vary_in_two(target),
                change_chunks: split_change_in_two(change),
                to_lock: Vec::new(),
            };
        }
        if change as u128 > upper {
            return harmonise(selected_inputs, target, change, Vec::new());
        }
        let missing: u64 = target - change;
        proof {
            lemma_less_is_payable(missing, target, fee_rate);
        }
        match self.coin_select(missing, fee_rate, None, None, locked_utxos) {
            Ok(more) => {
                proof {
                    lemma_selection_value(
                        self@,
                        locked_utxos@,
                        Seq::empty(),
                        Seq::empty(),
                        missing,
                        fee_rate,
                        coins_view(more@),
                    );
                }
                let ghost second = Ok::<Seq<CoinView>, WalletErrorView>(coins_view(more@));
                let r = split_with_more(selected_inputs, more, target);
                assert(is_split_after(coins, target, second, r@));
                r
            },
            Err(e) => {
                let ghost second = Err::<Seq<CoinView>, WalletErrorView>(e@);
                let r = harmonise(selected_inputs, target, change, Vec::new());
                assert(is_split_after(coins, target, second, r@));
                r
            },
        }
    }
}

/// A smaller amount is payable too.
pub(crate) proof fn lemma_less_is_payable(less: u64, amount: u64, feerate: FeeRate)
    requires
        less <= amount,
        is_payable(amount, feerate),
    ensures
        is_payable(less, feerate),
{
    assert(17 * feerate.vbytes * less <= 17 * feerate.vbytes * amount) by (nonlinear_arith)
        requires
            less <= amount,
    ;
}

/// Nothing is added and no more than dust is lost: the chunks sum up to what the inputs are worth,
/// except that change below the dust limit has no output.
pub proof fn law_splits_keep_the_value(
    store: StoreView,
    locked: Seq<OutPoint>,
    coins: Seq<CoinView>,
    target: u64,
    feerate: FeeRate,
    splits: DynamicSplitsView,
)
    requires
        store.well_formed(),
        is_selectable(store),
        is_payable(target, feerate),
        coins_value(coins) <= 0x8000_0000_0000_0000,
        is_dynamic_split(store, locked, coins, target, feerate, splits),
    ensures
        is_kept(splits),
{
    let change = change_of(coins, target);
    if change == 0 {
        lemma_sum_one(coins_value(coins) as u64);
        lemma_sum_one(0);
    } else if is_ideal_change(change, target) {
        lemma_two_chunks_value(target, change as u64, splits);
    } else if change < 9 * target / 10 {
        let missing = (target - change) as u64;
        let second = choose|second: Result<Seq<CoinView>, WalletErrorView>| #[trigger]
            is_coin_selection(
                available_regular(store, locked, Seq::empty()),
                available_swap(store, locked, Seq::empty()),
                Seq::empty(),
                missing,
                feerate,
                second,
            ) && is_split_after(coins, target, second, splits);
        match second {
            Ok(more) => {
                lemma_less_is_payable(missing, target, feerate);
                lemma_selection_value(
                    store,
                    locked,
                    Seq::empty(),
                    Seq::empty(),
                    missing,
                    feerate,
                    more,
                );
                lemma_split_with_more_value(coins, more, target, splits);
            },
            Err(_) => {
                lemma_harmony_value(target, change as u64, splits);
            },
        }
    } else {
        lemma_harmony_value(target, change as u64, splits);
    }
}

/// The chunks sum up to what the inputs are worth, or to less by an amount below the dust limit
/// where there is no change output.
pub open spec fn is_kept(splits: DynamicSplitsView) -> bool {
    let rest = coins_value(splits.inputs) - sum(splits.target_chunks) - sum(splits.change_chunks);
    rest == 0 || (0 < rest < DUST_LIMIT && sum(splits.change_chunks) == 0)
}

proof fn lemma_harmony_value(target: u64, change: u64, splits: DynamicSplitsView)
    requires
        in_harmony(splits.inputs, target, change, splits),
    ensures
        sum(splits.target_chunks) == target,
        sum(splits.change_chunks) == kept_change(change),
{
    law_harmony_split_keeps_the_amounts(
        target,
        change,
        MAX_SPLITS as int,
        splits.target_chunks,
        splits.change_chunks,
    );
}

proof fn lemma_two_chunks_value(target: u64, change: u64, splits: DynamicSplitsView)
    requires
        in_two_chunks(splits.inputs, target, change, splits),
    ensures
        sum(splits.target_chunks) == target,
        sum(splits.change_chunks) == kept_change(change),
{
    lemma_pair(target, splits.target_chunks);
    lemma_change_pair(change, splits.change_chunks);
}

proof fn lemma_split_with_more_value(
    coins: Seq<CoinView>,
    more: Seq<CoinView>,
    target: u64,
    splits: DynamicSplitsView,
)
    requires
        coins_value(coins) + coins_value(more) <= u64::MAX,
        target <= coins_value(coins),
        is_split_with_more(coins, more, target, splits),
    ensures
        is_kept(splits),
{
    lemma_coins_value_concat(coins, more);
    let change = change_of(coins, target);
    let larger = change + coins_value(more);
    if larger > target && is_ideal_change(larger, target) {
        lemma_two_chunks_value(target, larger as u64, splits);
    } else {
        let (first, second) = choose|first: DynamicSplitsView, second: DynamicSplitsView| #[trigger]
            in_harmony(coins, target, change as u64, first) && #[trigger] in_harmony(
                coins + more,
                target,
                larger as u64,
                second,
            ) && first.to_lock == splits.to_lock && second.to_lock == splits.to_lock
                && is_cheaper_of(first, second, splits);
        lemma_harmony_value(target, change as u64, first);
        lemma_harmony_value(target, larger as u64, second);
    }
}

/// No split makes a tiny output, which would tell it apart.
pub proof fn law_no_output_is_tiny(
    store: StoreView,
    locked: Seq<OutPoint>,
    coins: Seq<CoinView>,
    target: u64,
    feerate: FeeRate,
    splits: DynamicSplitsView,
)
    requires
        coins_value(coins) <= u64::MAX,
        is_dynamic_split(store, locked, coins, target, feerate, splits),
    ensures
        has_no_tiny_chunk(coins, target, splits),
{
    let change = change_of(coins, target);
    if change == 0 {
    } else if is_ideal_change(change, target) {
        lemma_two_chunks_not_tiny(coins, target, change as u64, splits);
    } else if change < 9 * target / 10 {
        let second = choose|second: Result<Seq<CoinView>, WalletErrorView>| #[trigger]
            is_coin_selection(
                available_regular(store, locked, Seq::empty()),
                available_swap(store, locked, Seq::empty()),
                Seq::empty(),
                (target - change) as u64,
                feerate,
                second,
            ) && is_split_after(coins, target, second, splits);
        match second {
            Ok(more) => {
                lemma_split_with_more_not_tiny(coins, more, target, splits);
            },
            Err(_) => {
                lemma_harmony_not_tiny(coins, target, change as u64, splits);
            },
        }
    } else {
        lemma_harmony_not_tiny(coins, target, change as u64, splits);
    }
}

proof fn lemma_two_chunks_not_tiny(
    coins: Seq<CoinView>,
    target: u64,
    change: u64,
    splits: DynamicSplitsView,
)
    requires
        in_two_chunks(splits.inputs, target, change, splits),
    ensures
        has_no_tiny_chunk(coins, target, splits),
{
    lemma_pair(target, splits.target_chunks);
    lemma_change_pair(change, splits.change_chunks);
    assert(target >= DUST_LIMIT ==> forall|k: int|
        0 <= k < splits.target_chunks.len() ==> !(#[trigger] splits.target_chunks[k] < DUST_LIMIT));
}

proof fn lemma_harmony_not_tiny(
    coins: Seq<CoinView>,
    target: u64,
    change: u64,
    splits: DynamicSplitsView,
)
    requires
        in_harmony(splits.inputs, target, change, splits),
    ensures
        has_no_tiny_chunk(coins, target, splits),
{
    law_chunks_are_not_dust(
        target,
        change,
        MAX_SPLITS as int,
        splits.target_chunks,
        splits.change_chunks,
    );
}

proof fn lemma_split_with_more_not_tiny(
    coins: Seq<CoinView>,
    more: Seq<CoinView>,
    target: u64,
    splits: DynamicSplitsView,
)
    requires
        is_split_with_more(coins, more, target, splits),
    ensures
        has_no_tiny_chunk(coins, target, splits),
{
    let change = change_of(coins, target);
    let larger = change + coins_value(more);
    if larger > target && is_ideal_change(larger, target) {
        lemma_two_chunks_not_tiny(coins, target, larger as u64, splits);
    } else {
        let (first, second) = choose|first: DynamicSplitsView, second: DynamicSplitsView| #[trigger]
            in_harmony(coins, target, change as u64, first) && #[trigger] in_harmony(
                coins + more,
                target,
                larger as u64,
                second,
            ) && first.to_lock == splits.to_lock && second.to_lock == splits.to_lock
                && is_cheaper_of(first, second, splits);
        lemma_harmony_not_tiny(coins, target, change as u64, first);
        lemma_harmony_not_tiny(coins, target, larger as u64, second);
    }
}

/// Coins that may be drawn beside the initial ones: different coins that the wallet tracks, each a
/// coin of the seed or a swept one, confirmed and not locked before.
pub open spec fn are_further_coins(
    store: StoreView,
    locked: Seq<OutPoint>,
    more: Seq<CoinView>,
) -> bool {
    &&& distinct_coins(more)
    &&& forall|i: int|
        0 <= i < more.len() ==> {
            &&& is_available(#[trigger] more[i], locked, Seq::empty())
            &&& more[i].1 is SeedCoin || more[i].1 is SweptCoin
            &&& store.utxo_cache.contains((more[i].0.outpoint(), more[i]))
        }
}

/// The inputs are the initial coins, or these and the further coins that are to be locked. The
/// further coins are different coins of the wallet that may be spent and were not locked before.
/// Where the initial coins are locked, as they are to be, no further coin is one of them: no coin is
/// an input twice.
pub proof fn law_further_inputs_are_locked(
    store: StoreView,
    locked: Seq<OutPoint>,
    coins: Seq<CoinView>,
    target: u64,
    feerate: FeeRate,
    splits: DynamicSplitsView,
)
    requires
        store.well_formed(),
        is_selectable(store),
        is_payable(target, feerate),
        is_dynamic_split(store, locked, coins, target, feerate, splits),
    ensures
        exists|more: Seq<CoinView>|
            splits.to_lock == #[trigger] outpoints_of(more) && are_further_coins(
                store,
                locked,
                more,
            ) && (splits.inputs == coins || splits.inputs == coins + more),
        forall|k: int|
            0 <= k < splits.to_lock.len() ==> !locked.contains(#[trigger] splits.to_lock[k]),
        are_all_locked(coins, locked) ==> forall|i: int, k: int|
            0 <= i < coins.len() && 0 <= k < splits.to_lock.len() ==> (
            #[trigger] coins[i]).0.outpoint() != #[trigger] splits.to_lock[k],
        are_all_locked(coins, locked) && distinct_coins(coins) ==> distinct_coins(splits.inputs),
{
    let change = change_of(coins, target);
    let none = Seq::<CoinView>::empty();
    assert(outpoints_of(none) =~= Seq::<OutPoint>::empty());
    let more = if change != 0 && !is_ideal_change(change, target) && change < 9 * target / 10 {
        let missing = (target - change) as u64;
        let second = choose|second: Result<Seq<CoinView>, WalletErrorView>| #[trigger]
            is_coin_selection(
                available_regular(store, locked, Seq::empty()),
                available_swap(store, locked, Seq::empty()),
                Seq::empty(),
                missing,
                feerate,
                second,
            ) && is_split_after(coins, target, second, splits);
        match second {
            Ok(more) => {
                lemma_less_is_payable(missing, target, feerate);
                lemma_selection_is_further(store, locked, missing, feerate, more);
                more
            },
            Err(_) => none,
        }
    } else {
        none
    };
    assert(splits.to_lock == outpoints_of(more) && are_further_coins(store, locked, more));
    assert forall|k: int| 0 <= k < splits.to_lock.len() implies !locked.contains(
        #[trigger] splits.to_lock[k],
    ) by {
        assert(splits.to_lock[k] == more[k].0.outpoint());
    }
    assert(splits.inputs == coins || splits.inputs == coins + more);
    if are_all_locked(coins, locked) && distinct_coins(coins) && splits.inputs == coins + more {
        let inputs = splits.inputs;
        assert forall|i: int, j: int| 0 <= i < j < inputs.len() implies (
        #[trigger] inputs[i]).0.outpoint() != (#[trigger] inputs[j]).0.outpoint() by {
            let n = coins.len() as int;
            if j < n {
                assert(inputs[i] == coins[i] && inputs[j] == coins[j]);
            } else if i < n {
                assert(inputs[i] == coins[i] && inputs[j] == more[j - n]);
                assert(locked.contains(coins[i].0.outpoint()));
            } else {
                assert(inputs[i] == more[i - n] && inputs[j] == more[j - n]);
            }
        }
    }
}

/// The outpoint of every coin is locked.
pub open spec fn are_all_locked(coins: Seq<CoinView>, locked: Seq<OutPoint>) -> bool {
    forall|i: int| 0 <= i < coins.len() ==> locked.contains((#[trigger] coins[i]).0.outpoint())
}

proof fn lemma_selection_is_further(
    store: StoreView,
    locked: Seq<OutPoint>,
    amount: u64,
    feerate: FeeRate,
    more: Seq<CoinView>,
)
    requires
        store.well_formed(),
        is_selectable(store),
        is_payable(amount, feerate),
        is_coin_selection(
            available_regular(store, locked, Seq::empty()),
            available_swap(store, locked, Seq::empty()),
            Seq::empty(),
            amount,
            feerate,
            Ok(more),
        ),
    ensures
        are_further_coins(store, locked, more),
{
    let none = Seq::<OutPoint>::empty();
    law_selected_coins_pay(store, locked, none, none, amount, feerate, more);
    assert forall|i: int| 0 <= i < more.len() implies {
        &&& is_available(#[trigger] more[i], locked, Seq::empty())
        &&& more[i].1 is SeedCoin || more[i].1 is SweptCoin
        &&& store.utxo_cache.contains((more[i].0.outpoint(), more[i]))
    } by {
        law_selected_coins_are_available(store, locked, none, none, amount, feerate, more, i);
    }
}

} // verus!
