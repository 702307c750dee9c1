//! What splitting a payment promises, by the outputs that come of it.

use crate::amounts::{law_variation_is_even, law_variation_keeps_the_total, sum};
use crate::coin_selector::{implied_fee, FeeRate};
use crate::error::WalletErrorView;
use crate::funding::{
    change_of, in_harmony, is_cheaper_of, is_ideal_change, is_split_after, lemma_less_is_payable,
    outpoints_of, split_with_more, DynamicSplits, DynamicSplitsView,
};
use crate::spend::{
    available_regular, available_swap, is_coin_selection, is_payable, is_selectable,
};
use crate::spend_laws::{
    lemma_poor_wallet_selects_nothing, lemma_seed_coins_are_selected, spendable, weight_of_spending,
};
use crate::splits::{
    comes_before, ct_harmony_split, fee_score, is_best_split, is_candidate, is_close, is_close_split,
    is_closer, is_contender, is_harmony_split, is_split_over, is_viable,
    law_harmony_split_keeps_the_amounts, law_pairs_come_in_two, lemma_change_pair, lemma_pair, means, simple_fee_optimization,
};
use crate::types::OutPoint;
use crate::utxo::{coins_value, coins_view, Coin, CoinView};
use crate::wallet::Wallet;
use vstd::prelude::*;

verus! {

/// Two chunk sizes of which each is at least 85 % of the other, one of them more than nothing.
pub open spec fn are_alike(a: int, b: int) -> bool {
    17 * a <= 20 * b && 17 * b <= 20 * a && (a > 0 || b > 0)
}

/// Outputs that do not tell the payment from the change: there are more than one of each, and their
/// mean sizes differ by no more than 15 %.
pub open spec fn look_alike(targets: Seq<u64>, changes: Seq<u64>) -> bool {
    let (a, b) = (sum(targets) as int / targets.len() as int, sum(changes) as int
        / changes.len() as int);
    targets.len() + changes.len() > 2 && 17 * a <= 20 * b && 17 * b <= 20 * a
}

/// What a transaction costs, in quarters of an output: eight for an input, four for an output of the
/// payment, three for one of the change.
pub open spec fn cost(inputs: nat, targets: Seq<u64>, changes: Seq<u64>) -> nat {
    8 * inputs + 4 * targets.len() + 3 * changes.len()
}

/// A split has a score exactly where its outputs look alike, and the score is what it costs.
pub proof fn law_score_is_the_cost(
    inputs: usize,
    targets: Vec<u64>,
    changes: Vec<u64>,
    r: Option<u128>,
)
    requires
        targets@.len() > 0,
        changes@.len() > 0,
        sum(targets@) <= u64::MAX,
        sum(changes@) <= u64::MAX,
        call_ensures(simple_fee_optimization, (inputs, &targets, &changes), r),
    ensures
        r is Some <==> look_alike(targets@, changes@),
        r matches Some(score) ==> score == cost(inputs as nat, targets@, changes@),
{
}

/// Where some numbers of chunks make the sizes alike, with change chunks of 600 satoshis at least,
/// the sizes are alike.
pub proof fn law_chunks_are_alike_where_they_can_be(
    target: u64,
    change: u64,
    max_splits: usize,
    r: (Vec<u64>, Vec<u64>),
    p: int,
    q: int,
)
    requires
        max_splits <= 5,
        call_ensures(ct_harmony_split, (target, change, max_splits), r),
        1 <= p <= max_splits,
        1 <= q <= max_splits,
        change as int / q >= 600,
        are_alike(target as int / p, change as int / q),
    ensures
        1 <= r.0@.len() <= max_splits,
        1 <= r.1@.len() <= max_splits,
        sum(r.0@) == target,
        sum(r.1@) == change,
        are_alike(target as int / r.0@.len() as int, change as int / r.1@.len() as int),
        change as int / r.1@.len() as int >= 600,
{
    let max = max_splits as int;
    let best = lemma_best(target, change, max, r.0@, r.1@);
    assert(is_close_split(target, change, (p, q)));
    let fewest = lemma_fewest_close(target, change, max, p, q);
    assert(is_contender(target, change, max, (p, fewest)));
    lemma_viable_is_positive(change, q);
    lemma_as_close(target, change, (p, fewest), best);
    law_harmony_split_keeps_the_amounts(target, change, max, r.0@, r.1@);
    lemma_lengths(target, change, best, r.0@, r.1@);
}

/// Of the numbers of chunks that make the sizes alike, those are taken that make them most alike:
/// no other numbers make the difference smaller, relative to the larger size, unless fewer change
/// chunks were alike already; of those that make it as small the first are taken, by the target
/// chunks and then by the change chunks. And fewer change chunks would not be alike.
pub proof fn law_no_chunks_are_more_alike(
    target: u64,
    change: u64,
    max_splits: usize,
    r: (Vec<u64>, Vec<u64>),
    p: int,
    q: int,
)
    requires
        max_splits <= 5,
        call_ensures(ct_harmony_split, (target, change, max_splits), r),
        1 <= p <= max_splits,
        1 <= q <= max_splits,
        change as int / q >= 600,
        are_alike(target as int / p, change as int / q),
        forall|fewer: int|
            1 <= fewer < q ==> !are_alike(target as int / p, #[trigger] (change as int / fewer)),
    ensures
        ({
            let (a, b) = (target as int / r.0@.len() as int, change as int / r.1@.len() as int);
            let (c, d) = (target as int / p, change as int / q);
            let (near, far) = (if a >= b {
                a - b
            } else {
                b - a
            }, if c >= d {
                c - d
            } else {
                d - c
            });
            let (here, there) = (near * (if c >= d {
                c
            } else {
                d
            }), far * (if a >= b {
                a
            } else {
                b
            }));
            here <= there && (p < r.0@.len() || (p == r.0@.len() && q < r.1@.len()) ==> here < there)
        }),
        forall|fewer: int|
            1 <= fewer < r.1@.len() ==> !are_alike(
                target as int / r.0@.len() as int,
                #[trigger] (change as int / fewer),
            ),
{
    let max = max_splits as int;
    law_chunks_are_alike_where_they_can_be(target, change, max_splits, r, p, q);
    let best = lemma_best(target, change, max, r.0@, r.1@);
    assert(is_close_split(target, change, (p, q)));
    let fewest = lemma_fewest_close(target, change, max, p, q);
    assert(is_contender(target, change, max, (p, fewest)));
    lemma_as_close(target, change, (p, fewest), best);
    lemma_lengths(target, change, best, r.0@, r.1@);
    assert forall|fewer: int| 1 <= fewer < q implies !#[trigger] is_close_split(
        target,
        change,
        (p, fewer),
    ) by {
        let size = change as int / fewer;
        assert(!are_alike(target as int / p, size));
    }
    assert(is_contender(target, change, max, (p, q)));
    assert forall|fewer: int| 1 <= fewer < r.1@.len() implies !are_alike(
        target as int / r.0@.len() as int,
        #[trigger] (change as int / fewer),
    ) by {
        assert(best.1 > 1);
        assert(is_candidate(target, change, max, best));
        assert(!is_close_split(target, change, (best.0, fewer)));
        vstd::arithmetic::div_mod::lemma_div_is_ordered_by_denominator(
            change as int,
            fewer,
            best.1,
        );
    }
}

/// Where no numbers of chunks make the sizes alike, the change stays in one piece, or is left out
/// where it is dust, and from 655 satoshis on the target is in two chunks, neither above 55 % of it
/// by more than two satoshis.
pub proof fn law_target_is_halved_otherwise(
    target: u64,
    change: u64,
    max_splits: usize,
    r: (Vec<u64>, Vec<u64>),
)
    requires
        call_ensures(ct_harmony_split, (target, change, max_splits), r),
        !are_alike(target as int, change as int),
        forall|p: int, q: int|
            1 <= p <= max_splits && 1 <= q <= max_splits && change as int / q >= 600
                ==> !are_alike(#[trigger] (target as int / p), #[trigger] (change as int / q)),
    ensures
        r.1@ == seq![
            if change < 294 {
                0
            } else {
                change
            },
        ],
        sum(r.0@) == target,
        target >= 655 ==> r.0@.len() == 2 && 100 * r.0@[0] <= 55 * target + 200 && 100 * r.0@[1]
            <= 55 * target + 200,
{
    let max = max_splits as int;
    let best = lemma_best(target, change, max, r.0@, r.1@);
    let (a, b) = (target as int / best.0, change as int / best.1);
    assert(!are_alike(a, b)) by {
        assert(target as int / 1 == target && change as int / 1 == change);
    }
    law_harmony_split_keeps_the_amounts(target, change, max, r.0@, r.1@);
    if target >= 655 {
        law_pairs_come_in_two(target, r.0@);
        law_variation_is_even(target, 2, r.0@, 0);
        law_variation_is_even(target, 2, r.0@, 1);
    }
}

/// Further coins are only drawn for the better: where change stays outside of 10 % of the target
/// with them, the split is either that of the initial coins or that of all of them, and it is the
/// one that looks alike and costs less.
///
/// Whatever like-sized split is made of the initial coins, and whatever one of all of them: where
/// either looks alike, so does the result, and it costs no more than any of them that does. Where
/// neither looks alike, and where both cost the same, no further coin is an input.
pub proof fn law_cheaper_split_is_taken(
    coins: Vec<Coin>,
    more: Vec<Coin>,
    target: u64,
    r: DynamicSplits,
    change: u64,
    larger: u64,
    alone: (Vec<u64>, Vec<u64>),
    joined: (Vec<u64>, Vec<u64>),
)
    requires
        coins_value(coins_view(coins@)) + coins_value(coins_view(more@)) <= u64::MAX,
        change == coins_value(coins_view(coins@)) - target,
        larger == change + coins_value(coins_view(more@)),
        larger <= target || 10 * larger < 9 * target - 9 || 10 * larger > 11 * target,
        target < 294 || target >= 655,
        call_ensures(split_with_more, (coins, more, target), r),
        call_ensures(ct_harmony_split, (target, change, 5usize), alone),
        call_ensures(ct_harmony_split, (target, larger, 5usize), joined),
    ensures
        ({
            let (few, all) = (coins@.len(), coins@.len() + more@.len());
            let paid = cost(r.inputs@.len(), r.target_chunks@, r.change_chunks@);
            let alike = look_alike(r.target_chunks@, r.change_chunks@);
            let first = cost(few, alone.0@, alone.1@);
            let second = cost(all, joined.0@, joined.1@);
            let is_first = coins_view(r.inputs@) == coins_view(coins@);
            &&& is_first || coins_view(r.inputs@) == coins_view(coins@) + coins_view(more@)
            &&& look_alike(alone.0@, alone.1@) ==> alike && paid <= first
            &&& look_alike(joined.0@, joined.1@) ==> alike && paid <= second
            &&& !look_alike(joined.0@, joined.1@) ==> is_first
            &&& look_alike(alone.0@, alone.1@) && first <= second ==> is_first
        }),
        r.to_lock@.len() == more@.len(),
        forall|i: int|
            0 <= i < more@.len() ==> #[trigger] r.to_lock@[i] == coins_view(more@)[i].0.outpoint(),
{
    let (few, further) = (coins_view(coins@), coins_view(more@));
    let all = few + further;
    assert(change == change_of(few, target));
    assert(!(larger > target && is_ideal_change(larger as int, target)));
    let (first, second) = choose|first: DynamicSplitsView, second: DynamicSplitsView| #[trigger]
        in_harmony(few, target, change, first) && #[trigger] in_harmony(
            all,
            target,
            larger,
            second,
        ) && first.to_lock == r@.to_lock && second.to_lock == r@.to_lock && is_cheaper_of(
            first,
            second,
            r@,
        );
    lemma_same_lengths(
        target,
        change,
        5,
        first.target_chunks,
        first.change_chunks,
        alone.0@,
        alone.1@,
    );
    lemma_same_lengths(
        target,
        larger,
        5,
        second.target_chunks,
        second.change_chunks,
        joined.0@,
        joined.1@,
    );
    lemma_cheaper_of(first, second, r@);
    assert(r@.inputs.len() == r.inputs@.len());
    assert(first.inputs.len() == coins@.len());
    assert(second.inputs.len() == coins@.len() + more@.len());
    assert(r@.to_lock == outpoints_of(further));
}

/// The cheaper one of two splits, by what each looks like and costs.
proof fn lemma_cheaper_of(
    first: DynamicSplitsView,
    second: DynamicSplitsView,
    splits: DynamicSplitsView,
)
    requires
        first.target_chunks.len() > 0,
        first.change_chunks.len() > 0,
        second.target_chunks.len() > 0,
        second.change_chunks.len() > 0,
        is_cheaper_of(first, second, splits),
    ensures
        ({
            let alike = |s: DynamicSplitsView| look_alike(s.target_chunks, s.change_chunks);
            let price = |s: DynamicSplitsView|
                cost(s.inputs.len(), s.target_chunks, s.change_chunks);
            &&& splits == first || splits == second
            &&& alike(first) ==> alike(splits) && price(splits) <= price(first)
            &&& alike(second) ==> alike(splits) && price(splits) <= price(second)
            &&& !alike(second) ==> splits == first
            &&& alike(first) && price(first) <= price(second) ==> splits == first
        }),
{
    lemma_score(first.inputs.len(), first.target_chunks, first.change_chunks);
    lemma_score(second.inputs.len(), second.target_chunks, second.change_chunks);
}

proof fn lemma_score(inputs: nat, targets: Seq<u64>, changes: Seq<u64>)
    requires
        targets.len() > 0,
        changes.len() > 0,
    ensures
        fee_score(inputs, targets, changes) == if look_alike(targets, changes) {
            Some(cost(inputs, targets, changes))
        } else {
            None
        },
{
}

/// Coins that are worth no more than the target go into one output, whatever the rate.
pub proof fn law_no_change_no_split(
    wallet: Wallet,
    coins: Vec<Coin>,
    target: u64,
    feerate: FeeRate,
    locked: Vec<OutPoint>,
    r: DynamicSplits,
)
    requires
        coins_value(coins_view(coins@)) <= target,
        call_ensures(
            Wallet::create_dynamic_splits,
            (&wallet, coins, target, feerate, &locked),
            r,
        ),
    ensures
        coins_view(r.inputs@) == coins_view(coins@),
        r.target_chunks@.len() == 1,
        r.target_chunks@[0] == coins_value(coins_view(coins@)),
        r.change_chunks@.len() == 1,
        r.change_chunks@[0] == 0,
        r.to_lock@.len() == 0,
{
}

/// Change within 10 % of the target takes no further coin, and payment and change are in two chunks
/// each, from 655 satoshis on.
pub proof fn law_balanced_change_is_halved(
    wallet: Wallet,
    coins: Vec<Coin>,
    target: u64,
    feerate: FeeRate,
    locked: Vec<OutPoint>,
    r: DynamicSplits,
    change: u64,
)
    requires
        change == coins_value(coins_view(coins@)) - target,
        change > 0,
        9 * target <= 10 * change <= 11 * target,
        call_ensures(
            Wallet::create_dynamic_splits,
            (&wallet, coins, target, feerate, &locked),
            r,
        ),
    ensures
        coins_view(r.inputs@) == coins_view(coins@),
        r.to_lock@.len() == 0,
        sum(r.target_chunks@) == target,
        sum(r.change_chunks@) == if change < 294 {
            0
        } else {
            change
        },
        target >= 655 ==> r.target_chunks@.len() == 2,
        change >= 655 ==> r.change_chunks@.len() == 2,
{
    lemma_pair(target, r@.target_chunks);
    lemma_change_pair(change, r@.change_chunks);
    if target >= 655 {
        law_pairs_come_in_two(target, r@.target_chunks);
    }
    if change >= 655 {
        law_pairs_come_in_two(change, r@.change_chunks);
    }
}

/// Change above that takes no further coin either: payment and change are split as alike as a
/// like-sized split of both makes them.
pub proof fn law_large_change_takes_no_coin(
    wallet: Wallet,
    coins: Vec<Coin>,
    target: u64,
    feerate: FeeRate,
    locked: Vec<OutPoint>,
    r: DynamicSplits,
    change: u64,
    alone: (Vec<u64>, Vec<u64>),
)
    requires
        change == coins_value(coins_view(coins@)) - target,
        10 * change > 11 * target,
        target < 294 || target >= 655,
        call_ensures(
            Wallet::create_dynamic_splits,
            (&wallet, coins, target, feerate, &locked),
            r,
        ),
        call_ensures(ct_harmony_split, (target, change, 5usize), alone),
    ensures
        coins_view(r.inputs@) == coins_view(coins@),
        r.to_lock@.len() == 0,
        sum(r.target_chunks@) == target,
        r.target_chunks@.len() == alone.0@.len(),
        r.change_chunks@.len() == alone.1@.len(),
{
    assert(change == change_of(coins_view(coins@), target));
    assert(!is_ideal_change(change as int, target));
    law_harmony_split_keeps_the_amounts(target, change, 5, r@.target_chunks, r@.change_chunks);
    lemma_same_lengths(
        target,
        change,
        5,
        r@.target_chunks,
        r@.change_chunks,
        alone.0@,
        alone.1@,
    );
}

/// Change that is too small draws on the other coins: where those of the seed that may be spent are
/// worth what is missing and the fee of spending them all, some are drawn and to be locked. They are
/// inputs where change with them is within 10 % of the target and above it.
pub proof fn law_small_change_draws_on_other_coins(
    wallet: Wallet,
    coins: Vec<Coin>,
    target: u64,
    feerate: FeeRate,
    locked: Vec<OutPoint>,
    r: DynamicSplits,
    change: u64,
)
    requires
        wallet@.well_formed(),
        is_selectable(wallet@),
        is_payable(target, feerate),
        coins_value(coins_view(coins@)) <= 0x8000_0000_0000_0000,
        change == coins_value(coins_view(coins@)) - target,
        change > 0,
        10 * change + 10 <= 9 * target,
        call_ensures(
            Wallet::create_dynamic_splits,
            (&wallet, coins, target, feerate, &locked),
            r,
        ),
        ({
            let seed = spendable(wallet@.utxo_cache, false, locked@, Seq::empty());
            coins_value(seed) >= target - change + implied_fee(
                feerate.sats,
                feerate.vbytes,
                weight_of_spending(seed) as u64,
            )
        }),
    ensures
        r.to_lock@.len() > 0,
        exists|more: Seq<CoinView>| #[trigger]
            are_seed_coins_at(more, r.to_lock@) && coins_value(more) >= target - change && ((
            coins_value(more) + change > target && 10 * (coins_value(more) + change) <= 11 * target)
                ==> coins_view(r.inputs@) == coins_view(coins@) + more),
{
    let (few, held) = (coins_view(coins@), locked@);
    let missing = (target - change) as u64;
    let none = Seq::<OutPoint>::empty();
    let second = choose|second: Result<Seq<CoinView>, WalletErrorView>| #[trigger]
        is_coin_selection(
            available_regular(wallet@, held, none),
            available_swap(wallet@, held, none),
            none,
            missing,
            feerate,
            second,
        ) && is_split_after(few, target, second, r@);
    lemma_less_is_payable(missing, target, feerate);
    lemma_seed_coins_are_selected(wallet@, held, none, none, missing, feerate, second);
    let more = second->Ok_0;
    assert(are_seed_coins_at(more, r.to_lock@));
}

/// Coins of the seed with these outpoints.
pub open spec fn are_seed_coins_at(coins: Seq<CoinView>, outpoints: Seq<OutPoint>) -> bool {
    &&& coins.len() == outpoints.len()
    &&& forall|i: int|
        0 <= i < coins.len() ==> (#[trigger] coins[i]).1 is SeedCoin && coins[i].0.outpoint()
            == outpoints[i]
}

// ---------------------------------------------------------------------------------------------
// The search
// ---------------------------------------------------------------------------------------------

/// The split that was searched for.
proof fn lemma_best(
    target: u64,
    change: u64,
    max_splits: int,
    targets: Seq<u64>,
    changes: Seq<u64>,
) -> (best: (int, int))
    requires
        is_harmony_split(target, change, max_splits, targets, changes),
    ensures
        is_best_split(target, change, max_splits, best),
        is_split_over(target, change, best, targets, changes),
        best.0 >= 1,
        best.1 >= 1,
        best == (1int, 1int) || (best.0 <= max_splits && best.1 <= max_splits),
        is_close(target as int / best.0, change as int / best.1) == are_alike(
            target as int / best.0,
            change as int / best.1,
        ),
{
    let best = choose|best: (int, int)| #[trigger]
        is_best_split(target, change, max_splits, best) && is_split_over(
            target,
            change,
            best,
            targets,
            changes,
        );
    best
}

/// The fewest change chunks that are close beside some number of target chunks.
proof fn lemma_fewest_close(target: u64, change: u64, max_splits: int, p: int, q: int) -> (fewest:
    int)
    requires
        1 <= p <= max_splits,
        1 <= q <= max_splits,
        is_close_split(target, change, (p, q)),
    ensures
        is_candidate(target, change, max_splits, (p, fewest)),
        is_close_split(target, change, (p, fewest)),
        1 <= fewest <= q,
    decreases q,
{
    if exists|fewer: int| 1 <= fewer < q && #[trigger] is_close_split(target, change, (p, fewer)) {
        let fewer = choose|fewer: int|
            1 <= fewer < q && #[trigger] is_close_split(target, change, (p, fewer));
        lemma_fewest_close(target, change, max_splits, p, fewer)
    } else {
        q
    }
}

proof fn lemma_viable_is_positive(change: u64, q: int)
    requires
        1 <= q,
        is_viable(change, q),
    ensures
        change >= 600,
{
    vstd::arithmetic::div_mod::lemma_div_is_ordered_by_denominator(change as int, 1, q);
}

/// What is no less close than a close split is close.
proof fn lemma_as_close(target: u64, change: u64, split: (int, int), best: (int, int))
    requires
        split.0 >= 1,
        split.1 >= 1,
        best.0 >= 1,
        best.1 >= 1,
        is_close_split(target, change, split),
        !is_closer(means(target, change, split), means(target, change, best)),
        best == (1int, 1int) || is_viable(change, best.1),
    ensures
        is_close_split(target, change, best),
{
    lemma_viable_is_positive(change, split.1);
    let (s, b) = (means(target, change, split), means(target, change, best));
    vstd::arithmetic::div_mod::lemma_div_pos_is_pos(target as int, split.0);
    vstd::arithmetic::div_mod::lemma_div_pos_is_pos(target as int, best.0);
    if best == (1int, 1int) {
        assert(change as int / 1 == change);
        assert(is_viable(change, best.1));
    }
    let (ds, ms) = (crate::splits::abs_diff(s.0, s.1), crate::splits::max(s.0, s.1));
    let (db, mb) = (crate::splits::abs_diff(b.0, b.1), crate::splits::max(b.0, b.1));
    assert(20 * db <= 3 * mb) by (nonlinear_arith)
        requires
            ds >= 0,
            db >= 0,
            mb > 0,
            ms > 0,
            20 * ds <= 3 * ms,
            ds * mb >= db * ms,
    {
        assert((20 * ds) * mb <= (3 * ms) * mb);
        assert((20 * db) * ms <= (3 * mb) * ms);
    }
}

/// A split that is alike has as many chunks as were searched for.
proof fn lemma_lengths(
    target: u64,
    change: u64,
    best: (int, int),
    targets: Seq<u64>,
    changes: Seq<u64>,
)
    requires
        1 <= best.0 <= 5,
        1 <= best.1 <= 5,
        is_close(means(target, change, best).0, means(target, change, best).1),
        is_split_over(target, change, best, targets, changes),
    ensures
        targets.len() == best.0,
        changes.len() == best.1,
{
    law_variation_keeps_the_total(target, best.0 as nat, targets);
    if best.1 > 1 {
        law_variation_keeps_the_total(change, best.1 as nat, changes);
    }
}

/// The numbers of chunks do not rest on chance.
proof fn lemma_same_lengths(
    target: u64,
    change: u64,
    max_splits: int,
    targets: Seq<u64>,
    changes: Seq<u64>,
    other_targets: Seq<u64>,
    other_changes: Seq<u64>,
)
    requires
        target < 294 || target >= 655,
        max_splits <= 5,
        is_harmony_split(target, change, max_splits, targets, changes),
        is_harmony_split(target, change, max_splits, other_targets, other_changes),
    ensures
        targets.len() == other_targets.len() > 0,
        changes.len() == other_changes.len() > 0,
        sum(targets) == sum(other_targets),
        sum(changes) == sum(other_changes),
{
    let best = lemma_best(target, change, max_splits, targets, changes);
    let other = lemma_best(target, change, max_splits, other_targets, other_changes);
    assert(best == other) by {
        assert(is_contender(target, change, max_splits, best));
        assert(is_contender(target, change, max_splits, other));
        if best != other {
            assert(comes_before(best, other) || comes_before(other, best));
        }
    }
    law_harmony_split_keeps_the_amounts(target, change, max_splits, targets, changes);
    law_harmony_split_keeps_the_amounts(target, change, max_splits, other_targets, other_changes);
    if is_close(means(target, change, best).0, means(target, change, best).1) {
        lemma_lengths(target, change, best, targets, changes);
        lemma_lengths(target, change, best, other_targets, other_changes);
    } else {
        law_pairs_come_in_two(target, targets);
        law_pairs_come_in_two(target, other_targets);
    }
}

/// Change that further coins bring within 10 % of the target, and above it, is split in two like the
/// payment, from 655 satoshis on, and all coins are inputs.
pub proof fn law_completed_change_is_halved(
    coins: Vec<Coin>,
    more: Vec<Coin>,
    target: u64,
    r: DynamicSplits,
    larger: u64,
)
    requires
        coins_value(coins_view(coins@)) + coins_value(coins_view(more@)) <= u64::MAX,
        target <= coins_value(coins_view(coins@)),
        larger == coins_value(coins_view(coins@)) + coins_value(coins_view(more@)) - target,
        larger > target,
        10 * larger <= 11 * target,
        call_ensures(split_with_more, (coins, more, target), r),
    ensures
        coins_view(r.inputs@) == coins_view(coins@) + coins_view(more@),
        sum(r.target_chunks@) == target,
        larger >= 294 ==> sum(r.change_chunks@) == larger,
        target >= 655 ==> r.target_chunks@.len() == 2 && r.change_chunks@.len() == 2,
        r.to_lock@.len() == more@.len(),
{
    assert(is_ideal_change(larger as int, target));
    lemma_pair(target, r@.target_chunks);
    lemma_change_pair(larger, r@.change_chunks);
    if target >= 655 {
        law_pairs_come_in_two(target, r@.target_chunks);
        law_pairs_come_in_two(larger, r@.change_chunks);
    }
    assert(r@.to_lock == outpoints_of(coins_view(more@)));
}

/// Change that is too small stays as it is where no other coins are worth what is missing: the
/// payment is split as alike as a like-sized split makes it, and no coin is to be locked.
pub proof fn law_no_other_coins_no_more_inputs(
    wallet: Wallet,
    coins: Vec<Coin>,
    target: u64,
    feerate: FeeRate,
    locked: Vec<OutPoint>,
    r: DynamicSplits,
    change: u64,
    alone: (Vec<u64>, Vec<u64>),
)
    requires
        wallet@.well_formed(),
        is_selectable(wallet@),
        is_payable(target, feerate),
        coins_value(coins_view(coins@)) <= 0x8000_0000_0000_0000,
        change == coins_value(coins_view(coins@)) - target,
        change > 0,
        10 * change + 10 <= 9 * target,
        target < 294 || target >= 655,
        call_ensures(
            Wallet::create_dynamic_splits,
            (&wallet, coins, target, feerate, &locked),
            r,
        ),
        call_ensures(ct_harmony_split, (target, change, 5usize), alone),
        coins_value(spendable(wallet@.utxo_cache, false, locked@, Seq::empty())) < target - change,
        coins_value(spendable(wallet@.utxo_cache, true, locked@, Seq::empty())) < target - change,
    ensures
        coins_view(r.inputs@) == coins_view(coins@),
        r.to_lock@.len() == 0,
        sum(r.target_chunks@) == target,
        r.target_chunks@.len() == alone.0@.len(),
        r.change_chunks@.len() == alone.1@.len(),
{
    let (few, held) = (coins_view(coins@), locked@);
    let missing = (target - change) as u64;
    let none = Seq::<OutPoint>::empty();
    let second = choose|second: Result<Seq<CoinView>, WalletErrorView>| #[trigger]
        is_coin_selection(
            available_regular(wallet@, held, none),
            available_swap(wallet@, held, none),
            none,
            missing,
            feerate,
            second,
        ) && is_split_after(few, target, second, r@);
    lemma_less_is_payable(missing, target, feerate);
    lemma_poor_wallet_selects_nothing(wallet@, held, none, none, missing, feerate, second);
    law_harmony_split_keeps_the_amounts(target, change, 5, r@.target_chunks, r@.change_chunks);
    lemma_same_lengths(
        target,
        change,
        5,
        r@.target_chunks,
        r@.change_chunks,
        alone.0@,
        alone.1@,
    );
}

/// Change that is too small for a chunk of its own and like the target in size leaves both in one
/// piece.
pub proof fn law_small_amounts_stay_whole(
    target: u64,
    change: u64,
    max_splits: usize,
    r: (Vec<u64>, Vec<u64>),
)
    requires
        call_ensures(ct_harmony_split, (target, change, max_splits), r),
        change < 600,
        are_alike(target as int, change as int),
    ensures
        r.0@ == seq![target],
        r.1@ == seq![
            if change < 294 {
                0
            } else {
                change
            },
        ],
{
    let best = lemma_best(target, change, max_splits as int, r.0@, r.1@);
    if best != (1int, 1int) {
        lemma_viable_is_positive(change, best.1);
    }
    assert(target as int / 1 == target && change as int / 1 == change);
}

} // verus!
