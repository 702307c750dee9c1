//! Choosing the coins of a wallet that pay for an amount.

use crate::coin_selector::{
    base_weight, change_waste, fund_outputs, in_range, min_value_and_waste, rate_in_range,
    search_in_range, selected_inputs, selected_value, selected_weight, tr_keyspend_txin_weight,
    tr_spk_weight, txout_base_weight, values_sum, weights_sum, FeeRate, Target,
};
use crate::error::{WalletError, WalletErrorView};
use crate::keys::{display_script, script_text};
use crate::listing::{coins_of_kind, value_of_kind, CoinKind};
use crate::pile::{
    coin_value, coin_weight, is_pile_outcome, pile_in_range, prefix_sum, select_from_pile, PileUtxo,
};
use crate::pile_laws::law_spends_only_the_pile;
use crate::splits::MAX_SPLITS;
use crate::store::StoreView;
use crate::table::Rows;
use crate::text::concat_texts;
use crate::types::{contains_outpoint, OutPoint};
use crate::utxo::{
    clone_coin, coins_value, coins_view, lemma_coins_value_step, total_value, Coin, CoinView,
};
use crate::wallet::Wallet;
use bdk_coin_select::{ChangePolicy, DrainWeights, TargetOutputs};
use vstd::prelude::*;

verus! {

/// The fee rate at which change is expected to be spent: 10 sat/vB.
pub open spec fn long_term_feerate() -> FeeRate {
    FeeRate { sats: 10, vbytes: 1 }
}

/// The dust limit of a P2WPKH output. Change is always P2TR, whose limit is 330.
pub const MIN_CHANGE_VALUE: u64 = 294;

/// The most coins that a wallet may cache for selection to stay within the selector's weights.
pub const MAX_COINS: usize = 10_000_000;

/// A coin that may be spent: confirmed, not locked and not excluded.
pub open spec fn is_available(coin: CoinView, locked: Seq<OutPoint>, excluded: Seq<OutPoint>) -> bool {
    &&& coin.0.confirmations > 0
    &&& !locked.contains(coin.0.outpoint())
    &&& !excluded.contains(coin.0.outpoint())
}

/// The coins of a list that may be spent.
pub open spec fn available(coins: Seq<CoinView>, locked: Seq<OutPoint>, excluded: Seq<OutPoint>) -> Seq<
    CoinView,
>
    decreases coins.len(),
{
    if coins.len() == 0 {
        Seq::empty()
    } else {
        let rest = available(coins.drop_last(), locked, excluded);
        if is_available(coins.last(), locked, excluded) {
            rest.push(coins.last())
        } else {
            rest
        }
    }
}

/// Some coin of the list was asked for.
pub open spec fn any_manual(coins: Seq<CoinView>, manual: Seq<OutPoint>) -> bool {
    exists|i: int| 0 <= i < coins.len() && manual.contains((#[trigger] coins[i]).0.outpoint())
}

/// What makes a coin share an address with others: the address, or the script where there is
/// none.
pub open spec fn address_key(coin: CoinView) -> Seq<char> {
    match coin.0.address {
        Some(address) => address,
        None => "script_"@ + script_text(coin.0.script_pub_key),
    }
}

/// `pile` describes `coins` for selection.
pub open spec fn is_pile_of(pile: Seq<PileUtxo>, coins: Seq<CoinView>, manual: Seq<OutPoint>) -> bool {
    &&& pile.len() == coins.len()
    &&& forall|i: int|
        0 <= i < pile.len() ==> is_pile_coin(#[trigger] pile[i], coins[i], manual)
}

pub open spec fn is_pile_coin(pile_coin: PileUtxo, coin: CoinView, manual: Seq<OutPoint>) -> bool {
    &&& pile_coin.outpoint == coin.0.outpoint()
    &&& pile_coin.value == coin.0.amount
    &&& pile_coin.witness_size == coin.1.witness_size()
    &&& pile_coin.address_key@ == address_key(coin)
    &&& pile_coin.is_manual == manual.contains(coin.0.outpoint())
}

/// The outputs to pay for: the amount, and the weight of `MAX_SPLITS` taproot outputs.
pub open spec fn selection_target(amount: u64, feerate: FeeRate) -> Target {
    Target {
        feerate,
        outputs: TargetOutputs { value_sum: amount, weight_sum: 860, n_outputs: 5 },
    }
}

/// The weights of `MAX_SPLITS` taproot change outputs.
pub open spec fn change_weights() -> DrainWeights {
    DrainWeights { output_weight: 860, spend_weight: 1150, n_outputs: 5 }
}

/// Change is added where it is worth more than dust and than what it costs.
pub open spec fn selection_policy(feerate: FeeRate) -> ChangePolicy {
    let waste = change_waste(change_weights(), feerate, long_term_feerate());
    ChangePolicy {
        min_value: if waste >= MIN_CHANGE_VALUE {
            waste
        } else {
            MIN_CHANGE_VALUE
        },
        drain_weights: change_weights(),
    }
}

/// An amount and a rate that selection can compute with.
///
/// The amount must not be so large beside the fee that single precision loses the fee of the
/// outputs: at 1 sat/vB that is close to nine bitcoins.
pub open spec fn is_payable(amount: u64, feerate: FeeRate) -> bool {
    &&& rate_in_range(feerate)
    &&& amount < 0x4000_0000_0000_0000
    &&& 900 * feerate.sats * 0x100_0000 >= 17 * feerate.vbytes * amount
}

/// A wallet whose coins selection can compute with.
pub open spec fn is_selectable(store: StoreView) -> bool {
    &&& store.utxo_cache.len() <= MAX_COINS
    &&& value_of_kind(store, CoinKind::Descriptor) < 0x4000_0000_0000_0000
    &&& value_of_kind(store, CoinKind::Swept) < 0x4000_0000_0000_0000
}

/// What selection from a list of coins may come to.
pub open spec fn is_outcome(
    coins: Seq<CoinView>,
    manual: Seq<OutPoint>,
    amount: u64,
    feerate: FeeRate,
    outcome: Result<Seq<OutPoint>, int>,
) -> bool {
    exists|pile: Seq<PileUtxo>| #[trigger]
        is_pile_of(pile, coins, manual) && is_pile_outcome(
            pile,
            selection_target(amount, feerate),
            long_term_feerate(),
            selection_policy(feerate),
            outcome,
        )
}

/// `selected` are the coins of `coins` with these outpoints.
pub open spec fn are_coins_at(
    coins: Seq<CoinView>,
    outpoints: Seq<OutPoint>,
    selected: Seq<CoinView>,
) -> bool {
    &&& selected.len() == outpoints.len()
    &&& forall|i: int|
        0 <= i < selected.len() ==> coins.contains(#[trigger] selected[i])
            && selected[i].0.outpoint() == outpoints[i]
}

/// Selection from a list of coins succeeds with `selected`.
pub open spec fn selects(
    coins: Seq<CoinView>,
    manual: Seq<OutPoint>,
    amount: u64,
    feerate: FeeRate,
    selected: Seq<CoinView>,
) -> bool {
    exists|outpoints: Seq<OutPoint>| #[trigger]
        is_outcome(coins, manual, amount, feerate, Ok(outpoints)) && are_coins_at(
            coins,
            outpoints,
            selected,
        )
}

/// Selection from a list of coins falls short by `missing` satoshis.
pub open spec fn falls_short(
    coins: Seq<CoinView>,
    manual: Seq<OutPoint>,
    amount: u64,
    feerate: FeeRate,
    missing: int,
) -> bool {
    is_outcome(coins, manual, amount, feerate, Err(missing))
}

/// The error where a list of coins falls short by `missing` satoshis.
pub open spec fn shortage(coins: Seq<CoinView>, amount: u64, missing: int) -> WalletErrorView {
    WalletErrorView::InsufficientFund {
        available: coins_value(coins) as u64,
        required: (amount + missing) as u64,
    }
}

/// What coin selection may come to: regular and swap coins are never mixed. The kind of the coins
/// that were asked for is the one to spend; where none was asked for, the regular coins are tried
/// first and the swap coins only if those fall short.
pub open spec fn is_coin_selection(
    regular: Seq<CoinView>,
    swap: Seq<CoinView>,
    manual: Seq<OutPoint>,
    amount: u64,
    feerate: FeeRate,
    result: Result<Seq<CoinView>, WalletErrorView>,
) -> bool {
    if regular.len() == 0 && swap.len() == 0 {
        result == Err::<Seq<CoinView>, _>(
            WalletErrorView::InsufficientFund { available: 0, required: amount },
        )
    } else if any_manual(regular, manual) && any_manual(swap, manual) {
        result == Err::<Seq<CoinView>, _>(
            WalletErrorView::General("Cannot mix regular and swap UTXOs in manual selection"@),
        )
    } else if any_manual(regular, manual) {
        match result {
            Ok(selected) => selects(regular, manual, amount, feerate, selected),
            Err(e) => exists|missing: int| #[trigger]
                falls_short(regular, manual, amount, feerate, missing) && e == shortage(
                    regular,
                    amount,
                    missing,
                ),
        }
    } else if any_manual(swap, manual) {
        match result {
            Ok(selected) => selects(swap, manual, amount, feerate, selected),
            Err(e) => exists|missing: int| #[trigger]
                falls_short(swap, manual, amount, feerate, missing) && e == shortage(
                    swap,
                    amount,
                    missing,
                ),
        }
    } else {
        match result {
            Ok(selected) => selects(regular, manual, amount, feerate, selected) || (exists|
                missing: int,
            | #[trigger]
                falls_short(regular, manual, amount, feerate, missing)) && selects(
                swap,
                manual,
                amount,
                feerate,
                selected,
            ),
            Err(e) => (exists|missing: int| #[trigger]
                falls_short(regular, manual, amount, feerate, missing)) && exists|missing: int|
                #[trigger] falls_short(swap, manual, amount, feerate, missing) && e == shortage(
                    swap,
                    amount,
                    missing,
                ),
        }
    }
}

/// The regular coins that may be spent.
pub open spec fn available_regular(
    store: StoreView,
    locked: Seq<OutPoint>,
    excluded: Seq<OutPoint>,
) -> Seq<CoinView> {
    available(coins_of_kind(store.utxo_cache, CoinKind::Descriptor), locked, excluded)
}

/// The swap coins that may be spent.
pub open spec fn available_swap(
    store: StoreView,
    locked: Seq<OutPoint>,
    excluded: Seq<OutPoint>,
) -> Seq<CoinView> {
    available(coins_of_kind(store.utxo_cache, CoinKind::Swept), locked, excluded)
}

/// The outpoints of an optional list.
pub open spec fn outpoints_or_none(outpoints: Option<Vec<OutPoint>>) -> Seq<OutPoint> {
    match outpoints {
        Some(list) => list@,
        None => Seq::empty(),
    }
}

// ---------------------------------------------------------------------------------------------
// Preparing selection
// ---------------------------------------------------------------------------------------------

pub proof fn lemma_available_value(coins: Seq<CoinView>, locked: Seq<OutPoint>, excluded: Seq<OutPoint>)
    ensures
        coins_value(available(coins, locked, excluded)) <= coins_value(coins),
        available(coins, locked, excluded).len() <= coins.len(),
    decreases coins.len(),
{
    if coins.len() > 0 {
        lemma_available_value(coins.drop_last(), locked, excluded);
        let rest = available(coins.drop_last(), locked, excluded);
        if is_available(coins.last(), locked, excluded) {
            assert(rest.push(coins.last()).drop_last() =~= rest);
        }
    }
}

pub proof fn lemma_kind_count(cache: Rows<OutPoint, CoinView>, kind: CoinKind)
    ensures
        coins_of_kind(cache, kind).len() <= cache.len(),
    decreases cache.len(),
{
    if cache.len() > 0 {
        lemma_kind_count(cache.drop_last(), kind);
    }
}

/// The coins of a list that may be spent.
fn filter_locked(coins: Vec<Coin>, locked: &Vec<OutPoint>, excluded: &Vec<OutPoint>) -> (r: Vec<Coin>)
    ensures
        coins_view(r@) == available(coins_view(coins@), locked@, excluded@),
{
    let ghost views = coins_view(coins@);
    let mut r: Vec<Coin> = Vec::new();
    let mut i: usize = 0;
    assert(views.take(0) =~= Seq::<CoinView>::empty());
    assert(coins_view(r@) =~= Seq::<CoinView>::empty());
    while i < coins.len()
        invariant
            i <= coins.len(),
            views == coins_view(coins@),
            coins_view(r@) == available(views.take(i as int), locked@, excluded@),
        decreases coins.len() - i,
    {
        let ghost before = coins_view(r@);
        let outpoint = coins[i].0.outpoint();
        proof {
            assert(views.take(i + 1).drop_last() =~= views.take(i as int));
        }
        if coins[i].0.confirmations > 0 && !contains_outpoint(locked, &outpoint)
            && !contains_outpoint(excluded, &outpoint) {
            r.push(clone_coin(&coins[i]));
            assert(coins_view(r@) =~= before.push(views[i as int]));
        }
        i += 1;
    }
    assert(views.take(views.len() as int) =~= views);
    r
}

/// Whether some coin of the list was asked for.
fn holds_manual(coins: &Vec<Coin>, manual: &Vec<OutPoint>) -> (r: bool)
    ensures
        r == any_manual(coins_view(coins@), manual@),
{
    let ghost views = coins_view(coins@);
    let mut i: usize = 0;
    while i < coins.len()
        invariant
            i <= coins.len(),
            views == coins_view(coins@),
            forall|k: int| 0 <= k < i ==> !manual@.contains((#[trigger] views[k]).0.outpoint()),
        decreases coins.len() - i,
    {
        if contains_outpoint(manual, &coins[i].0.outpoint()) {
            assert(manual@.contains(views[i as int].0.outpoint()));
            return true;
        }
        assert(!manual@.contains(views[i as int].0.outpoint()));
        i += 1;
    }
    false
}

/// Describes coins for selection.
fn build_pile(coins: &Vec<Coin>, manual: &Vec<OutPoint>) -> (pile: Vec<PileUtxo>)
    ensures
        is_pile_of(pile@, coins_view(coins@), manual@),
{
    let ghost views = coins_view(coins@);
    let mut pile: Vec<PileUtxo> = Vec::new();
    let mut i: usize = 0;
    while i < coins.len()
        invariant
            i <= coins.len(),
            views == coins_view(coins@),
            pile.len() == i,
            forall|k: int| 0 <= k < i ==> is_pile_coin(#[trigger] pile@[k], views[k], manual@),
        decreases coins.len() - i,
    {
        let coin = &coins[i];
        let outpoint = coin.0.outpoint();
        let address_key = match &coin.0.address {
            Some(address) => address.clone(),
            None => concat_texts("script_", display_script(&coin.0.script_pub_key).as_str()),
        };
        let witness_size: u64 = coin.1.estimate_witness_size() as u64;
        let is_manual: bool = contains_outpoint(manual, &outpoint);
        pile.push(
            PileUtxo { outpoint, value: coin.0.amount, witness_size, address_key, is_manual },
        );
        assert(is_pile_coin(pile@[i as int], views[i as int], manual@));
        i += 1;
    }
    pile
}

proof fn lemma_pile_sums(pile: Seq<PileUtxo>, coins: Seq<CoinView>, manual: Seq<OutPoint>, n: nat)
    requires
        is_pile_of(pile, coins, manual),
        n <= pile.len() <= usize::MAX,
    ensures
        prefix_sum(coin_value(pile), n) == coins_value(coins.take(n as int)),
        prefix_sum(coin_weight(pile), n) <= 400 * n,
    decreases n,
{
    if n > 0 {
        let m = (n - 1) as nat;
        lemma_pile_sums(pile, coins, manual, m);
        lemma_coins_value_step(coins, m as int);
        assert(is_pile_coin(pile[m as int], coins[m as int], manual));
        assert(coins[m as int].1.witness_size() <= 222);
    } else {
        assert(coins.take(0) =~= Seq::<CoinView>::empty());
    }
}

/// The pile of such coins is in the selector's range.
pub proof fn lemma_pile_in_range(
    pile: Seq<PileUtxo>,
    coins: Seq<CoinView>,
    manual: Seq<OutPoint>,
    amount: u64,
    feerate: FeeRate,
)
    requires
        is_pile_of(pile, coins, manual),
        is_payable(amount, feerate),
        coins.len() <= MAX_COINS,
        coins_value(coins) < 0x4000_0000_0000_0000,
    ensures
        pile_in_range(pile, selection_target(amount, feerate)),
{
    let target = selection_target(amount, feerate);
    lemma_pile_sums(pile, coins, manual, pile.len());
    assert(coins.take(coins.len() as int) =~= coins);
    assert(selected_value(Seq::empty(), Set::full()) == 0);
    assert(selected_weight(Seq::empty(), Set::full()) == 0);
    assert(selected_inputs(Seq::empty(), Set::full()) == 0);
    assert(in_range(Seq::empty(), target));
}

/// The target of selection.
fn build_target(amount: u64, feerate: FeeRate) -> (r: Target)
    ensures
        r == selection_target(amount, feerate),
{
    let weight: u64 = txout_base_weight() + tr_spk_weight();
    let mut outputs: Vec<(u64, u64)> = Vec::new();
    outputs.push((weight, amount));
    proof {
        assert(outputs@.drop_last() =~= Seq::<(u64, u64)>::empty());
        assert(weights_sum(outputs@.drop_last()) == 0);
        assert(values_sum(outputs@.drop_last()) == 0);
    }
    let mut i: usize = 1;
    while i < MAX_SPLITS
        invariant
            1 <= i <= MAX_SPLITS,
            weight == 172,
            outputs.len() == i,
            weights_sum(outputs@) == 172 * i,
            values_sum(outputs@) == amount,
        decreases MAX_SPLITS - i,
    {
        let ghost before = outputs@;
        outputs.push((weight, 0));
        proof {
            assert(outputs@.drop_last() =~= before);
        }
        i += 1;
    }
    Target { feerate, outputs: fund_outputs(outputs) }
}

/// The change policy of selection.
fn build_policy(feerate: FeeRate) -> (r: ChangePolicy)
    requires
        rate_in_range(feerate),
    ensures
        r == selection_policy(feerate),
        r.min_value < 0x1000_0000_0000_0000,
{
    let weight: u64 = txout_base_weight() + tr_spk_weight();
    let weights = DrainWeights {
        output_weight: weight * MAX_SPLITS as u64,
        spend_weight: tr_keyspend_txin_weight() * MAX_SPLITS as u64,
        n_outputs: MAX_SPLITS,
    };
    min_value_and_waste(weights, MIN_CHANGE_VALUE, feerate, FeeRate { sats: 10, vbytes: 1 })
}

/// The coin with this outpoint.
fn coin_at(coins: &Vec<Coin>, outpoint: &OutPoint) -> (r: Coin)
    requires
        exists|i: int|
            0 <= i < coins@.len() && (#[trigger] coins_view(coins@)[i]).0.outpoint() == *outpoint,
    ensures
        coins_view(coins@).contains((r.0@, r.1@)),
        r.0@.outpoint() == *outpoint,
{
    let ghost views = coins_view(coins@);
    let mut i: usize = 0;
    while i < coins.len()
        invariant
            i <= coins.len(),
            views == coins_view(coins@),
            exists|k: int|
                i <= k < coins@.len() && (#[trigger] views[k]).0.outpoint() == *outpoint,
        decreases coins.len() - i,
    {
        if coins[i].0.outpoint() == *outpoint {
            assert(views.contains(views[i as int]));
            return clone_coin(&coins[i]);
        }
        assert(views[i as int].0.outpoint() != *outpoint);
        i += 1;
    }
    proof {
        assert(false);
    }
    clone_coin(&coins[0])
}

/// Runs selection over a list of coins.
fn select_coins(coins: &Vec<Coin>, manual: &Vec<OutPoint>, amount: u64, feerate: FeeRate) -> (r:
    Result<Vec<Coin>, u64>)
    requires
        is_payable(amount, feerate),
        coins@.len() <= MAX_COINS,
        coins_value(coins_view(coins@)) < 0x4000_0000_0000_0000,
    ensures
        match r {
            Ok(selected) => selects(
                coins_view(coins@),
                manual@,
                amount,
                feerate,
                coins_view(selected@),
            ),
            Err(missing) => missing <= 0x8000_0000_0000_0000 && falls_short(
                coins_view(coins@),
                manual@,
                amount,
                feerate,
                missing as int,
            ),
        },
{
    let ghost views = coins_view(coins@);
    let pile = build_pile(coins, manual);
    let ghost pile_view = pile@;
    let target = build_target(amount, feerate);
    let policy = build_policy(feerate);
    proof {
        lemma_pile_in_range(pile_view, views, manual@, amount, feerate);
        assert(base_weight(target.outputs) == 900);
        assert(search_in_range(target, long_term_feerate(), policy));
    }
    match select_from_pile(pile, target, FeeRate { sats: 10, vbytes: 1 }, policy) {
        Ok(outpoints) => {
            assert(is_outcome(views, manual@, amount, feerate, Ok(outpoints@)));
            let mut selected: Vec<Coin> = Vec::new();
            let mut i: usize = 0;
            while i < outpoints.len()
                invariant
                    i <= outpoints.len(),
                    views == coins_view(coins@),
                    is_pile_of(pile_view, views, manual@),
                    pile_view.len() <= usize::MAX,
                    is_pile_outcome(
                        pile_view,
                        target,
                        long_term_feerate(),
                        policy,
                        Ok(outpoints@),
                    ),
                    selected.len() == i,
                    forall|k: int|
                        0 <= k < i ==> views.contains(#[trigger] coins_view(selected@)[k])
                            && coins_view(selected@)[k].0.outpoint() == outpoints@[k],
                decreases outpoints.len() - i,
            {
                let outpoint = outpoints[i];
                proof {
                    assert(outpoints@.contains(outpoint));
                    law_spends_only_the_pile(
                        pile_view,
                        target,
                        long_term_feerate(),
                        policy,
                        outpoints@,
                        outpoint,
                    );
                    let j = choose|j: int|
                        0 <= j < pile_view.len() && (#[trigger] pile_view[j]).outpoint == outpoint;
                    assert(is_pile_coin(pile_view[j], views[j], manual@));
                    assert(views[j].0.outpoint() == outpoint);
                }
                let ghost before = coins_view(selected@);
                let coin = coin_at(coins, &outpoint);
                selected.push(coin);
                assert(coins_view(selected@) =~= before.push((coin.0@, coin.1@)));
                i += 1;
            }
            assert(are_coins_at(views, outpoints@, coins_view(selected@)));
            Ok(selected)
        },
        Err(missing) => {
            assert(is_outcome(views, manual@, amount, feerate, Err(missing as int)));
            Err(missing)
        },
    }
}

fn list_or_none(outpoints: Option<Vec<OutPoint>>) -> (r: Vec<OutPoint>)
    ensures
        r@ == outpoints_or_none(outpoints),
{
    match outpoints {
        Some(list) => list,
        None => Vec::new(),
    }
}

impl Wallet {
    /// Chooses coins that pay for an amount at a fee rate.
    ///
    /// Coins on a reused address are spent together, and before others. Regular coins and coins
    /// received in swaps are never mixed: the regular ones are tried first, the swap coins only
    /// if those fall short. Coins that were asked for are spent in any case and decide the kind.
    ///
    /// Fidelity bonds, contracts, locked, excluded and unconfirmed coins are left alone.
    pub fn coin_select(
        &self,
        amount: u64,
        feerate: FeeRate,
        manually_selected_outpoints: Option<Vec<OutPoint>>,
        excluded_outpoints: Option<Vec<OutPoint>>,
        locked_utxos: &Vec<OutPoint>,
    ) -> (r: Result<Vec<Coin>, WalletError>)
        requires
            self@.well_formed(),
            is_selectable(self@),
            is_payable(amount, feerate),
        ensures
            is_coin_selection(
                available_regular(
                    self@,
                    locked_utxos@,
                    outpoints_or_none(excluded_outpoints),
                ),
                available_swap(self@, locked_utxos@, outpoints_or_none(excluded_outpoints)),
                outpoints_or_none(manually_selected_outpoints),
                amount,
                feerate,
                match r {
                    Ok(selected) => Ok(coins_view(selected@)),
                    Err(e) => Err(e@),
                },
            ),
    {
        let excluded = list_or_none(excluded_outpoints);
        let manual = list_or_none(manually_selected_outpoints);
        let regular = filter_locked(
            self.list_descriptor_utxo_spend_info(),
            locked_utxos,
            &excluded,
        );
        let swap = filter_locked(self.list_swept_incoming_swap_utxos(), locked_utxos, &excluded);
        proof {
            let all_regular = coins_of_kind(self@.utxo_cache, CoinKind::Descriptor);
            let all_swap = coins_of_kind(self@.utxo_cache, CoinKind::Swept);
            lemma_available_value(all_regular, locked_utxos@, excluded@);
            lemma_available_value(all_swap, locked_utxos@, excluded@);
            lemma_kind_count(self@.utxo_cache, CoinKind::Descriptor);
            lemma_kind_count(self@.utxo_cache, CoinKind::Swept);
            assert(coins_view(regular@).len() == regular@.len());
            assert(coins_view(swap@).len() == swap@.len());
        }
        let regular_total: u64 = total_value(&regular);
        let swap_total: u64 = total_value(&swap);
        if regular.len() == 0 && swap.len() == 0 {
            return Err(WalletError::InsufficientFund { available: 0, required: amount });
        }
        let manual_in_regular: bool = holds_manual(&regular, &manual);
        let manual_in_swap: bool = holds_manual(&swap, &manual);
        if manual_in_regular && manual_in_swap {
            return Err(
                WalletError::General(
                    "Cannot mix regular and swap UTXOs in manual selection".to_string(),
                ),
            );
        }
        if !manual_in_swap {
            match select_coins(&regular, &manual, amount, feerate) {
                Ok(selected) => {
                    return Ok(selected);
                },
                Err(missing) => {
                    assert(falls_short(
                        coins_view(regular@),
                        manual@,
                        amount,
                        feerate,
                        missing as int,
                    ));
                    if manual_in_regular {
                        return Err(
                            WalletError::InsufficientFund {
                                available: regular_total,
                                required: amount + missing,
                            },
                        );
                    }
                },
            }
        }
        match select_coins(&swap, &manual, amount, feerate) {
            Ok(selected) => Ok(selected),
            Err(missing) => {
                assert(falls_short(coins_view(swap@), manual@, amount, feerate, missing as int));
                Err(
                    WalletError::InsufficientFund {
                        available: swap_total,
                        required: amount + missing,
                    },
                )
            },
        }
    }
}

} // verus!
