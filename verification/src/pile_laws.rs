//! What holds of every selection from a pile.

use crate::coin_selector::{
    ascending, excess, implied_fee, lowest_fee_selection, search_in_range, selected_inputs, selected_value, selected_weight, target_met, tx_weight,
    varint_size, FeeRate, Target,
};
use crate::pile::{
    coin_count, coin_value, coin_weight, group_candidate, group_candidates, group_outpoints,
    group_sum, grouped, groups_sum, has_manual, holds_each_once, is_group, is_grouping,
    is_outcome_for, is_pile_outcome, lemma_group_count, lemma_prefix_count, pile_in_range,
    prefix_sum, select_from_pile, spent_outpoints, together, PileUtxo,
};
use crate::selection::{
    first_indices, grouped_selection, is_sound_selection, lemma_failure_is_shortage,
    lemma_fill_in_order, lemma_taken_first, preselect_count,
};
use crate::types::OutPoint;
use bdk_coin_select::{Candidate, ChangePolicy, TargetOutputs};
use vstd::prelude::*;

verus! {

/// No outpoint occurs twice in the pile.
pub open spec fn distinct_outpoints(pile: Seq<PileUtxo>) -> bool {
    forall|i: int, j: int|
        0 <= i < j < pile.len() ==> (#[trigger] pile[i]).outpoint != (#[trigger] pile[j]).outpoint
}

/// The coin `i` is spent.
pub open spec fn is_spent(pile: Seq<PileUtxo>, spent: Seq<OutPoint>, i: int) -> bool {
    spent.contains(pile[i].outpoint)
}

/// The coin `i` was not asked for and shares its address with another coin that was not.
pub open spec fn is_reused(pile: Seq<PileUtxo>, i: int) -> bool {
    &&& !pile[i].is_manual
    &&& exists|j: int|
        0 <= j < pile.len() && j != i && !(#[trigger] pile[j]).is_manual && pile[j].address_key@
            == pile[i].address_key@
}

/// The value of the coins on the address of coin `i` that were not asked for.
pub open spec fn address_value(pile: Seq<PileUtxo>, i: int) -> nat {
    prefix_sum(
        |j: usize|
            if !pile[j as int].is_manual && pile[j as int].address_key@ == pile[i].address_key@ {
                pile[j as int].value as nat
            } else {
                0
            },
        pile.len(),
    )
}

/// `f` on the coins that satisfy `keep`, zero on the others.
pub open spec fn masked(
    f: spec_fn(usize) -> nat,
    keep: spec_fn(usize) -> bool,
) -> spec_fn(usize) -> nat {
    |j: usize|
        if keep(j) {
            f(j)
        } else {
            0
        }
}

/// The coins of the pile that are spent.
pub open spec fn spent_coins(pile: Seq<PileUtxo>, spent: Seq<OutPoint>) -> spec_fn(usize) -> bool {
    |j: usize| spent.contains(pile[j as int].outpoint)
}

/// The value of the coins that are spent.
pub open spec fn spent_value(pile: Seq<PileUtxo>, spent: Seq<OutPoint>) -> nat {
    prefix_sum(masked(coin_value(pile), spent_coins(pile, spent)), pile.len())
}

/// The weight of a transaction with this number and weight of inputs.
pub open spec fn weight_with_inputs(count: nat, weight: nat, outputs: TargetOutputs) -> nat {
    32 + 4 * varint_size(count) + weight + (if count > 0 {
        2nat
    } else {
        0
    }) + 4 * varint_size(outputs.n_outputs as nat) + outputs.weight_sum as nat
}

/// The weight of the transaction that spends the coins.
pub open spec fn spending_weight(
    pile: Seq<PileUtxo>,
    spent: Seq<OutPoint>,
    outputs: TargetOutputs,
) -> nat {
    weight_with_inputs(
        prefix_sum(masked(coin_count(), spent_coins(pile, spent)), pile.len()),
        prefix_sum(masked(coin_weight(pile), spent_coins(pile, spent)), pile.len()),
        outputs,
    )
}

/// The weight of the transaction that spends the whole pile.
pub open spec fn whole_weight(pile: Seq<PileUtxo>, outputs: TargetOutputs) -> nat {
    weight_with_inputs(pile.len(), prefix_sum(coin_weight(pile), pile.len()), outputs)
}

// ---------------------------------------------------------------------------------------------
// Groups and outpoints
// ---------------------------------------------------------------------------------------------

proof fn lemma_spent_contains(
    pile: Seq<PileUtxo>,
    groups: Seq<Seq<usize>>,
    selected: Set<usize>,
    g: int,
    i: usize,
)
    requires
        0 <= g < groups.len() <= usize::MAX,
        groups[g].contains(i),
        selected.contains(g as usize),
    ensures
        spent_outpoints(pile, groups, selected).contains(pile[i as int].outpoint),
    decreases groups.len(),
{
    let rest = spent_outpoints(pile, groups.drop_last(), selected);
    let whole = spent_outpoints(pile, groups, selected);
    if g == groups.len() - 1 {
        let k = choose|k: int| 0 <= k < groups[g].len() && groups[g][k] == i;
        assert(group_outpoints(pile, groups.last())[k] == pile[i as int].outpoint);
        assert(whole[rest.len() + k] == pile[i as int].outpoint);
    } else {
        assert(groups.drop_last()[g] == groups[g]);
        lemma_spent_contains(pile, groups.drop_last(), selected, g, i);
        let k = choose|k: int| 0 <= k < rest.len() && rest[k] == pile[i as int].outpoint;
        assert(whole[k] == rest[k]);
    }
}

proof fn lemma_spent_origin(
    pile: Seq<PileUtxo>,
    groups: Seq<Seq<usize>>,
    selected: Set<usize>,
    o: OutPoint,
) -> (r: (int, usize))
    requires
        groups.len() <= usize::MAX,
        spent_outpoints(pile, groups, selected).contains(o),
    ensures
        0 <= r.0 < groups.len(),
        selected.contains(r.0 as usize),
        groups[r.0].contains(r.1),
        pile[r.1 as int].outpoint == o,
    decreases groups.len(),
{
    let rest = spent_outpoints(pile, groups.drop_last(), selected);
    let whole = spent_outpoints(pile, groups, selected);
    let k = choose|k: int| 0 <= k < whole.len() && whole[k] == o;
    if groups.len() == 0 {
        (0, 0)
    } else if k < rest.len() {
        assert(rest[k] == o);
        let r = lemma_spent_origin(pile, groups.drop_last(), selected, o);
        assert(groups.drop_last()[r.0] == groups[r.0]);
        r
    } else {
        let last = groups.last();
        assert(group_outpoints(pile, last)[k - rest.len()] == o);
        let i = last[k - rest.len()];
        assert(last.contains(i));
        (groups.len() - 1, i)
    }
}

proof fn lemma_spent_distinct(pile: Seq<PileUtxo>, groups: Seq<Seq<usize>>, selected: Set<usize>)
    requires
        groups.len() <= usize::MAX,
        distinct_outpoints(pile),
        forall|g: int| 0 <= g < groups.len() ==> is_group(pile, #[trigger] groups[g]),
        forall|g: int, h: int, i: usize|
            0 <= g < h < groups.len() && #[trigger] groups[g].contains(i)
                ==> !#[trigger] groups[h].contains(i),
    ensures
        spent_outpoints(pile, groups, selected).no_duplicates(),
    decreases groups.len(),
{
    if groups.len() > 0 {
        let front = groups.drop_last();
        let rest = spent_outpoints(pile, front, selected);
        let whole = spent_outpoints(pile, groups, selected);
        let last = groups.last();
        assert forall|g: int| 0 <= g < front.len() implies is_group(pile, #[trigger] front[g]) by {
            assert(front[g] == groups[g]);
        }
        assert forall|g: int, h: int, i: usize|
            0 <= g < h < front.len() && #[trigger] front[g].contains(i)
                implies !#[trigger] front[h].contains(i) by {
            assert(front[g] == groups[g] && front[h] == groups[h]);
        }
        lemma_spent_distinct(pile, front, selected);
        assert(is_group(pile, groups[groups.len() - 1]));
        assert forall|a: int, b: int| 0 <= a < b < whole.len() implies whole[a] != whole[b] by {
            if b < rest.len() {
                assert(rest[a] == whole[a] && rest[b] == whole[b]);
            } else {
                let kb = b - rest.len();
                assert(whole[b] == group_outpoints(pile, last)[kb]);
                if a >= rest.len() {
                    let ka = a - rest.len();
                    assert(whole[a] == group_outpoints(pile, last)[ka]);
                    assert(last[ka] < last[kb]);
                    assert(pile[last[ka] as int].outpoint != pile[last[kb] as int].outpoint);
                } else {
                    assert(rest[a] == whole[a]);
                    assert(rest.contains(whole[a]));
                    let (g, i) = lemma_spent_origin(pile, front, selected, whole[a]);
                    assert(front[g] == groups[g]);
                    assert(is_group(pile, groups[g]));
                    if whole[a] == whole[b] {
                        let j = last[kb];
                        assert(groups[g].contains(i));
                        let ki = choose|ki: int| 0 <= ki < groups[g].len() && groups[g][ki] == i;
                        assert(i < pile.len() && j < pile.len());
                        if i != j {
                            if i < j {
                                assert(pile[i as int].outpoint != pile[j as int].outpoint);
                            } else {
                                assert(pile[j as int].outpoint != pile[i as int].outpoint);
                            }
                        }
                        assert(groups[groups.len() - 1].contains(j));
                    }
                }
            }
        }
    }
}

/// The group that holds the coin `i`.
proof fn lemma_group_of(pile: Seq<PileUtxo>, groups: Seq<Seq<usize>>, pre: nat, i: int) -> (g: int)
    requires
        0 <= i < pile.len() <= usize::MAX,
        is_grouping(pile, groups, pre),
    ensures
        0 <= g < groups.len(),
        groups[g].contains(i as usize),
{
    assert(grouped(groups, i as usize));
    choose|g: int| 0 <= g < groups.len() && (#[trigger] groups[g]).contains(i as usize)
}

/// With distinct outpoints a coin is spent exactly if its group is selected.
proof fn lemma_spent_iff(
    pile: Seq<PileUtxo>,
    groups: Seq<Seq<usize>>,
    pre: nat,
    selected: Set<usize>,
    g: int,
    i: int,
)
    requires
        groups.len() <= usize::MAX,
        pile.len() <= usize::MAX,
        distinct_outpoints(pile),
        is_grouping(pile, groups, pre),
        0 <= g < groups.len(),
        0 <= i < pile.len(),
        groups[g].contains(i as usize),
    ensures
        is_spent(pile, spent_outpoints(pile, groups, selected), i) <==> selected.contains(
            g as usize,
        ),
{
    let spent = spent_outpoints(pile, groups, selected);
    if selected.contains(g as usize) {
        lemma_spent_contains(pile, groups, selected, g, i as usize);
    }
    if spent.contains(pile[i].outpoint) {
        let (h, j) = lemma_spent_origin(pile, groups, selected, pile[i].outpoint);
        assert(is_group(pile, groups[h]));
        let k = choose|k: int| 0 <= k < groups[h].len() && groups[h][k] == j;
        assert(j < pile.len());
        if j != i {
            if j < i {
                assert(pile[j as int].outpoint != pile[i].outpoint);
            } else {
                assert(pile[i].outpoint != pile[j as int].outpoint);
            }
        }
        assert(groups[h].contains(i as usize) && groups[g].contains(i as usize));
        assert(together(pile, i as usize, i as usize));
        assert(g == h);
    }
}

/// The grouping and the selection behind a success.
proof fn lemma_success(
    pile: Seq<PileUtxo>,
    target: Target,
    long_term_feerate: FeeRate,
    change_policy: ChangePolicy,
    spent: Seq<OutPoint>,
) -> (r: (Seq<Seq<usize>>, nat, Set<usize>))
    requires
        is_pile_outcome(pile, target, long_term_feerate, change_policy, Ok(spent)),
    ensures
        is_grouping(pile, r.0, r.1),
        is_outcome_for(pile, r.0, r.1, target, long_term_feerate, change_policy, Ok(spent)),
        grouped_selection(
            group_candidates(pile, r.0),
            r.1,
            target,
            long_term_feerate,
            change_policy,
        ) == Ok::<Set<usize>, int>(r.2),
        is_sound_selection(group_candidates(pile, r.0), r.1, target, r.2),
        spent == spent_outpoints(pile, r.0, r.2),
        r.0.len() < 0x1_0000_0000,
{
    let (groups, pre) = choose|groups: Seq<Seq<usize>>, pre: nat| #[trigger]
        is_grouping(pile, groups, pre) && is_outcome_for(
            pile,
            groups,
            pre,
            target,
            long_term_feerate,
            change_policy,
            Ok(spent),
        );
    let selected = grouped_selection(
        group_candidates(pile, groups),
        pre,
        target,
        long_term_feerate,
        change_policy,
    )->Ok_0;
    assert(group_candidates(pile, groups).len() == groups.len());
    (groups, pre, selected)
}

/// The selected candidates are worth, weigh and count what the coins in the selected groups do.
proof fn lemma_selected_sums(
    pile: Seq<PileUtxo>,
    groups: Seq<Seq<usize>>,
    selected: Set<usize>,
    keep: spec_fn(usize) -> bool,
)
    requires
        groups.len() <= usize::MAX,
        groups_sum(groups, coin_value(pile)) <= u64::MAX,
        groups_sum(groups, coin_weight(pile)) <= u64::MAX,
        groups_sum(groups, coin_count()) <= usize::MAX,
        forall|g: int, i: usize|
            0 <= g < groups.len() && #[trigger] groups[g].contains(i) ==> keep(i)
                == selected.contains(g as usize),
        forall|g: int| 0 <= g < groups.len() ==> (#[trigger] groups[g]).len() > 0,
    ensures
        selected_value(group_candidates(pile, groups), selected) == groups_sum(
            groups,
            masked(coin_value(pile), keep),
        ),
        selected_weight(group_candidates(pile, groups), selected) == groups_sum(
            groups,
            masked(coin_weight(pile), keep),
        ),
        selected_inputs(group_candidates(pile, groups), selected) == groups_sum(
            groups,
            masked(coin_count(), keep),
        ),
        (exists|i: usize| i < groups.len() && selected.contains(i)) <==> selected_inputs(
            group_candidates(pile, groups),
            selected,
        ) > 0,
    decreases groups.len(),
{
    if groups.len() > 0 {
        let front = groups.drop_last();
        let cands = group_candidates(pile, groups);
        assert(cands.drop_last() =~= group_candidates(pile, front));
        assert forall|g: int, i: usize|
            0 <= g < front.len() && #[trigger] front[g].contains(i) implies keep(i)
            == selected.contains(g as usize) by {
            assert(front[g] == groups[g]);
        }
        assert forall|g: int| 0 <= g < front.len() implies (#[trigger] front[g]).len() > 0 by {
            assert(front[g] == groups[g]);
        }
        lemma_selected_sums(pile, front, selected, keep);
        let last = groups.len() - 1;
        let group = groups[last];
        let taken = selected.contains(last as usize);
        assert(cands.last() == group_candidate(pile, group));
        assert forall|k: int| 0 <= k < group.len() implies keep(#[trigger] group[k]) == taken by {
            assert(group.contains(group[k]));
        }
        lemma_group_sum_masked(group, masked(coin_value(pile), keep), coin_value(pile), taken);
        lemma_group_sum_masked(group, masked(coin_weight(pile), keep), coin_weight(pile), taken);
        lemma_group_sum_masked(group, masked(coin_count(), keep), coin_count(), taken);
        lemma_group_count(group);
        assert(group == groups.last());
        if exists|i: usize| i < groups.len() && selected.contains(i) {
            let i = choose|i: usize| i < groups.len() && selected.contains(i);
            if i < front.len() {
                assert(exists|i: usize| i < front.len() && selected.contains(i));
            }
        }
        if exists|i: usize| i < front.len() && selected.contains(i) {
            let i = choose|i: usize| i < front.len() && selected.contains(i);
            assert(i < groups.len() && selected.contains(i));
        }
        if taken {
            assert((last as usize) < groups.len() && selected.contains(last as usize));
        }
    }
}

proof fn lemma_group_sum_masked(
    group: Seq<usize>,
    f: spec_fn(usize) -> nat,
    v: spec_fn(usize) -> nat,
    keep: bool,
)
    requires
        forall|k: int|
            0 <= k < group.len() ==> f(#[trigger] group[k]) == (if keep {
                v(group[k])
            } else {
                0
            }),
    ensures
        group_sum(group, f) == (if keep {
            group_sum(group, v)
        } else {
            0
        }),
    decreases group.len(),
{
    if group.len() > 0 {
        let front = group.drop_last();
        assert forall|k: int| 0 <= k < front.len() implies f(#[trigger] front[k]) == (if keep {
            v(front[k])
        } else {
            0
        }) by {
            assert(front[k] == group[k]);
        }
        lemma_group_sum_masked(front, f, v, keep);
        assert(group[group.len() - 1] == group.last());
    }
}

/// The value of the address of a coin is the value of its group.
proof fn lemma_address_value(
    pile: Seq<PileUtxo>,
    groups: Seq<Seq<usize>>,
    pre: nat,
    g: int,
    i: int,
)
    requires
        pile.len() <= usize::MAX,
        is_grouping(pile, groups, pre),
        holds_each_once(pile, groups),
        0 <= g < groups.len(),
        0 <= i < pile.len(),
        groups[g].contains(i as usize),
        !pile[i].is_manual,
    ensures
        address_value(pile, i) == group_sum(groups[g], coin_value(pile)),
{
    let f = |j: usize|
        if !pile[j as int].is_manual && pile[j as int].address_key@ == pile[i].address_key@ {
            pile[j as int].value as nat
        } else {
            0
        };
    assert(groups_sum(groups, f) == prefix_sum(f, pile.len()));
    assert forall|h: int, j: usize|
        0 <= h < groups.len() && #[trigger] groups[h].contains(j) implies f(j) == (if h == g {
        coin_value(pile)(j)
    } else {
        0
    }) by {
        assert(groups[g].contains(i as usize));
        assert(g == h <==> together(pile, i as usize, j));
    }
    lemma_groups_sum_only(groups, g, f, coin_value(pile));
}

proof fn lemma_groups_sum_only(
    groups: Seq<Seq<usize>>,
    g: int,
    f: spec_fn(usize) -> nat,
    v: spec_fn(usize) -> nat,
)
    requires
        0 <= g,
        forall|h: int, j: usize|
            0 <= h < groups.len() && #[trigger] groups[h].contains(j) ==> f(j) == (if h == g {
                v(j)
            } else {
                0
            }),
    ensures
        groups_sum(groups, f) == (if g < groups.len() {
            group_sum(groups[g], v)
        } else {
            0
        }),
    decreases groups.len(),
{
    if groups.len() > 0 {
        let front = groups.drop_last();
        let last = groups.len() - 1;
        assert forall|h: int, j: usize|
            0 <= h < front.len() && #[trigger] front[h].contains(j) implies f(j) == (if h == g {
            v(j)
        } else {
            0
        }) by {
            assert(front[h] == groups[h]);
        }
        lemma_groups_sum_only(front, g, f, v);
        assert forall|k: int| 0 <= k < groups[last].len() implies f(#[trigger] groups[last][k]) == (
        if last == g {
            v(groups[last][k])
        } else {
            0
        }) by {
            assert(groups[last].contains(groups[last][k]));
        }
        lemma_group_sum_masked(groups[last], f, v, last == g);
        if g < last {
            assert(front[g] == groups[g]);
        }
    }
}

// ---------------------------------------------------------------------------------------------
// The laws
// ---------------------------------------------------------------------------------------------

/// Only coins of the pile are spent.
pub proof fn law_spends_only_the_pile(
    pile: Seq<PileUtxo>,
    target: Target,
    long_term_feerate: FeeRate,
    change_policy: ChangePolicy,
    spent: Seq<OutPoint>,
    o: OutPoint,
)
    requires
        pile.len() <= usize::MAX,
        is_pile_outcome(pile, target, long_term_feerate, change_policy, Ok(spent)),
        spent.contains(o),
    ensures
        exists|i: int| 0 <= i < pile.len() && (#[trigger] pile[i]).outpoint == o,
{
    let (groups, pre, selected) = lemma_success(
        pile,
        target,
        long_term_feerate,
        change_policy,
        spent,
    );
    let (g, i) = lemma_spent_origin(pile, groups, selected, o);
    assert(is_group(pile, groups[g]));
    let k = choose|k: int| 0 <= k < groups[g].len() && groups[g][k] == i;
    assert(pile[i as int].outpoint == o);
}

/// No coin is spent twice.
pub proof fn law_spends_nothing_twice(
    pile: Seq<PileUtxo>,
    target: Target,
    long_term_feerate: FeeRate,
    change_policy: ChangePolicy,
    spent: Seq<OutPoint>,
)
    requires
        pile.len() <= usize::MAX,
        distinct_outpoints(pile),
        is_pile_outcome(pile, target, long_term_feerate, change_policy, Ok(spent)),
    ensures
        spent.no_duplicates(),
{
    let (groups, pre, selected) = lemma_success(
        pile,
        target,
        long_term_feerate,
        change_policy,
        spent,
    );
    assert forall|g: int, h: int, i: usize|
        0 <= g < h < groups.len() && #[trigger] groups[g].contains(i)
            implies !#[trigger] groups[h].contains(i) by {
        if groups[h].contains(i) {
            assert(together(pile, i, i));
        }
    }
    lemma_spent_distinct(pile, groups, selected);
}

/// A coin that was asked for is always spent.
pub proof fn law_manual_coins_are_spent(
    pile: Seq<PileUtxo>,
    target: Target,
    long_term_feerate: FeeRate,
    change_policy: ChangePolicy,
    spent: Seq<OutPoint>,
    i: int,
)
    requires
        0 <= i < pile.len() <= usize::MAX,
        pile[i].is_manual,
        is_pile_outcome(pile, target, long_term_feerate, change_policy, Ok(spent)),
    ensures
        is_spent(pile, spent, i),
{
    let (groups, pre, selected) = lemma_success(
        pile,
        target,
        long_term_feerate,
        change_policy,
        spent,
    );
    lemma_taken_first(group_candidates(pile, groups), target, pre);
    let g = lemma_group_of(pile, groups, pre, i);
    let first = groups[0][0];
    assert(is_group(pile, groups[0]));
    assert(groups[0].contains(first));
    assert(together(pile, i as usize, first));
    assert(g == 0);
    assert(first_indices(
        preselect_count(group_candidates(pile, groups), target, 0, pre),
    ).contains(0usize));
    lemma_spent_contains(pile, groups, selected, 0, i as usize);
}

/// Coins on one address that were not asked for are spent together or not at all.
pub proof fn law_address_mates_are_spent_together(
    pile: Seq<PileUtxo>,
    target: Target,
    long_term_feerate: FeeRate,
    change_policy: ChangePolicy,
    spent: Seq<OutPoint>,
    i: int,
    j: int,
)
    requires
        0 <= i < pile.len() <= usize::MAX,
        0 <= j < pile.len(),
        distinct_outpoints(pile),
        !pile[i].is_manual,
        !pile[j].is_manual,
        pile[i].address_key@ == pile[j].address_key@,
        is_pile_outcome(pile, target, long_term_feerate, change_policy, Ok(spent)),
    ensures
        is_spent(pile, spent, i) <==> is_spent(pile, spent, j),
{
    let (groups, pre, selected) = lemma_success(
        pile,
        target,
        long_term_feerate,
        change_policy,
        spent,
    );
    let g = lemma_group_of(pile, groups, pre, i);
    let h = lemma_group_of(pile, groups, pre, j);
    assert(together(pile, i as usize, j as usize));
    assert(g == h);
    lemma_spent_iff(pile, groups, pre, selected, g, i);
    lemma_spent_iff(pile, groups, pre, selected, h, j);
}

/// A coin that shares its address stands in a group of several.
proof fn lemma_reused_group(pile: Seq<PileUtxo>, groups: Seq<Seq<usize>>, pre: nat, g: int, i: int)
    requires
        0 <= i < pile.len() <= usize::MAX,
        is_grouping(pile, groups, pre),
        0 <= g < groups.len(),
        groups[g].contains(i as usize),
        !pile[i].is_manual,
    ensures
        is_reused(pile, i) <==> g < pre,
{
    assert(is_group(pile, groups[g]));
    let k = choose|k: int| 0 <= k < groups[g].len() && groups[g][k] == i;
    if has_manual(pile) {
        assert(is_group(pile, groups[0]));
        assert(groups[0].contains(groups[0][0]));
        assert(!together(pile, i as usize, groups[0][0]));
        assert(g != 0);
    }
    if is_reused(pile, i) {
        let j = choose|j: int|
            0 <= j < pile.len() && j != i && !(#[trigger] pile[j]).is_manual
                && pile[j].address_key@ == pile[i].address_key@;
        let h = lemma_group_of(pile, groups, pre, j);
        assert(together(pile, i as usize, j as usize));
        assert(g == h);
        let l = choose|l: int| 0 <= l < groups[g].len() && groups[g][l] == j;
        assert(l != k);
        assert(groups[g].len() > 1);
    }
    if g < pre {
        assert(groups[g].len() > 1);
        let l: int = if k == 0 {
            1
        } else {
            0
        };
        let j = groups[g][l];
        assert(j != i);
        assert(groups[g].contains(j));
        assert(together(pile, i as usize, j));
        assert(pile[j as int].address_key@ == pile[i].address_key@);
    }
}

/// A coin that is alone on its address is only spent along with every coin that was asked for or
/// shares its address.
pub proof fn law_linked_coins_are_spent_first(
    pile: Seq<PileUtxo>,
    target: Target,
    long_term_feerate: FeeRate,
    change_policy: ChangePolicy,
    spent: Seq<OutPoint>,
    single: int,
    linked: int,
)
    requires
        0 <= single < pile.len() <= usize::MAX,
        0 <= linked < pile.len(),
        distinct_outpoints(pile),
        !pile[single].is_manual,
        !is_reused(pile, single),
        pile[linked].is_manual || is_reused(pile, linked),
        is_pile_outcome(pile, target, long_term_feerate, change_policy, Ok(spent)),
        is_spent(pile, spent, single),
    ensures
        is_spent(pile, spent, linked),
{
    if pile[linked].is_manual {
        law_manual_coins_are_spent(
            pile,
            target,
            long_term_feerate,
            change_policy,
            spent,
            linked,
        );
    } else {
        let (groups, pre, selected) = lemma_success(
            pile,
            target,
            long_term_feerate,
            change_policy,
            spent,
        );
        let cands = group_candidates(pile, groups);
        lemma_taken_first(cands, target, pre);
        let g = lemma_group_of(pile, groups, pre, single);
        let h = lemma_group_of(pile, groups, pre, linked);
        lemma_reused_group(pile, groups, pre, g, single);
        lemma_reused_group(pile, groups, pre, h, linked);
        lemma_spent_iff(pile, groups, pre, selected, g, single);
        lemma_spent_iff(pile, groups, pre, selected, h, linked);
        let count = preselect_count(cands, target, 0, pre);
        assert(selected.contains(g as usize));
        if count < pre {
            assert(selected == first_indices(count));
            assert(false);
        }
        assert(first_indices(count).contains(h as usize));
    }
}

/// Of two reused addresses the one of smaller value is spent first.
pub proof fn law_smaller_addresses_are_spent_first(
    pile: Seq<PileUtxo>,
    target: Target,
    long_term_feerate: FeeRate,
    change_policy: ChangePolicy,
    spent: Seq<OutPoint>,
    larger: int,
    smaller: int,
)
    requires
        0 <= larger < pile.len() <= usize::MAX,
        0 <= smaller < pile.len(),
        distinct_outpoints(pile),
        is_reused(pile, larger),
        is_reused(pile, smaller),
        address_value(pile, smaller) < address_value(pile, larger),
        is_pile_outcome(pile, target, long_term_feerate, change_policy, Ok(spent)),
        is_spent(pile, spent, larger),
    ensures
        is_spent(pile, spent, smaller),
{
    let (groups, pre, selected) = lemma_success(
        pile,
        target,
        long_term_feerate,
        change_policy,
        spent,
    );
    let cands = group_candidates(pile, groups);
    lemma_taken_first(cands, target, pre);
    let g = lemma_group_of(pile, groups, pre, larger);
    let h = lemma_group_of(pile, groups, pre, smaller);
    lemma_reused_group(pile, groups, pre, g, larger);
    lemma_reused_group(pile, groups, pre, h, smaller);
    lemma_address_value(pile, groups, pre, g, larger);
    lemma_address_value(pile, groups, pre, h, smaller);
    lemma_spent_iff(pile, groups, pre, selected, g, larger);
    lemma_spent_iff(pile, groups, pre, selected, h, smaller);
    let count = preselect_count(cands, target, 0, pre);
    assert(selected.contains(g as usize));
    assert(has_manual(pile) ==> g != 0 && h != 0) by {
        if has_manual(pile) {
            assert(is_group(pile, groups[0]));
            assert(groups[0].contains(groups[0][0]));
            assert(!together(pile, larger as usize, groups[0][0]));
            assert(!together(pile, smaller as usize, groups[0][0]));
        }
    }
    if g < h {
        assert(group_sum(groups[g], coin_value(pile)) <= group_sum(groups[h], coin_value(pile)));
    }
    assert(h < g);
    if count < pre {
        assert(selected == first_indices(count));
    }
    assert(first_indices(count).contains(h as usize));
}

/// Nothing beyond the coins that come first is spent if they meet the target.
pub proof fn law_no_more_than_needed_first(
    pile: Seq<PileUtxo>,
    groups: Seq<Seq<usize>>,
    pre: nat,
    target: Target,
    long_term_feerate: FeeRate,
    change_policy: ChangePolicy,
    spent: Seq<OutPoint>,
    enough: nat,
)
    requires
        0 < enough <= pre,
        is_grouping(pile, groups, pre),
        is_outcome_for(pile, groups, pre, target, long_term_feerate, change_policy, Ok(spent)),
        target_met(group_candidates(pile, groups), first_indices(enough), target),
    ensures
        exists|count: nat|
            count <= enough && spent == #[trigger] spent_outpoints(
                pile,
                groups,
                first_indices(count),
            ),
{
    let cands = group_candidates(pile, groups);
    lemma_count_bound(cands, target, 0, pre, enough);
    lemma_taken_first(cands, target, pre);
    let count = preselect_count(cands, target, 0, pre);
    assert(spent == spent_outpoints(pile, groups, first_indices(count)));
}

proof fn lemma_count_bound(
    candidates: Seq<Candidate>,
    target: Target,
    taken: nat,
    end: nat,
    enough: nat,
)
    requires
        taken < enough <= end,
        target_met(candidates, first_indices(enough), target),
    ensures
        preselect_count(candidates, target, taken, end) <= enough,
        target_met(
            candidates,
            first_indices(preselect_count(candidates, target, taken, end)),
            target,
        ),
    decreases end - taken,
{
    if !target_met(candidates, first_indices(taken + 1), target) {
        lemma_count_bound(candidates, target, taken + 1, end, enough);
    }
}

/// The coins that are spent pay for the target value and for the fee of the transaction that
/// spends them.
pub proof fn law_selection_covers_the_target(
    pile: Seq<PileUtxo>,
    target: Target,
    long_term_feerate: FeeRate,
    change_policy: ChangePolicy,
    spent: Seq<OutPoint>,
)
    requires
        pile.len() <= usize::MAX,
        pile_in_range(pile, target),
        distinct_outpoints(pile),
        is_pile_outcome(pile, target, long_term_feerate, change_policy, Ok(spent)),
    ensures
        spent_value(pile, spent) >= target.outputs.value_sum + implied_fee(
            target.feerate.sats,
            target.feerate.vbytes,
            spending_weight(pile, spent, target.outputs) as u64,
        ),
{
    let (groups, pre, selected) = lemma_success(
        pile,
        target,
        long_term_feerate,
        change_policy,
        spent,
    );
    let cands = group_candidates(pile, groups);
    let keep = spent_coins(pile, spent);
    lemma_group_totals(pile, groups, pre, target);
    assert forall|g: int, i: usize|
        0 <= g < groups.len() && #[trigger] groups[g].contains(i) implies keep(i)
        == selected.contains(g as usize) by {
        assert(is_group(pile, groups[g]));
        let k = choose|k: int| 0 <= k < groups[g].len() && groups[g][k] == i;
        lemma_spent_iff(pile, groups, pre, selected, g, i as int);
    }
    lemma_selected_sums(pile, groups, selected, keep);
    assert(groups_sum(groups, masked(coin_value(pile), keep)) == spent_value(pile, spent));
    assert(groups_sum(groups, masked(coin_weight(pile), keep)) == prefix_sum(
        masked(coin_weight(pile), keep),
        pile.len(),
    ));
    assert(groups_sum(groups, masked(coin_count(), keep)) == prefix_sum(
        masked(coin_count(), keep),
        pile.len(),
    ));
    assert(cands.len() == groups.len());
    assert(tx_weight(cands, selected, target.outputs) == spending_weight(
        pile,
        spent,
        target.outputs,
    ));
    assert(excess(cands, selected, target) >= 0);
}

proof fn lemma_group_totals(
    pile: Seq<PileUtxo>,
    groups: Seq<Seq<usize>>,
    pre: nat,
    target: Target,
)
    requires
        pile.len() <= usize::MAX,
        pile_in_range(pile, target),
        is_grouping(pile, groups, pre),
        holds_each_once(pile, groups),
    ensures
        groups_sum(groups, coin_value(pile)) == prefix_sum(coin_value(pile), pile.len()),
        groups_sum(groups, coin_weight(pile)) == prefix_sum(coin_weight(pile), pile.len()),
        groups_sum(groups, coin_count()) == pile.len(),
        forall|g: int| 0 <= g < groups.len() ==> (#[trigger] groups[g]).len() > 0,
{
    lemma_prefix_count(pile.len());
    assert(prefix_sum(coin_value(pile), pile.len()) == groups_sum(groups, coin_value(pile)));
    assert(prefix_sum(coin_weight(pile), pile.len()) == groups_sum(groups, coin_weight(pile)));
    assert(prefix_sum(coin_count(), pile.len()) == groups_sum(groups, coin_count()));
    assert forall|g: int| 0 <= g < groups.len() implies (#[trigger] groups[g]).len() > 0 by {
        assert(is_group(pile, groups[g]));
    }
}

/// A failure means that all coins together fall short of the target value and the fee of spending
/// them all, by the amount of the error.
pub proof fn law_failure_means_shortage(
    pile: Seq<PileUtxo>,
    target: Target,
    long_term_feerate: FeeRate,
    change_policy: ChangePolicy,
    short: int,
)
    requires
        pile.len() <= usize::MAX,
        pile_in_range(pile, target),
        is_pile_outcome(pile, target, long_term_feerate, change_policy, Err(short)),
    ensures
        short > 0,
        prefix_sum(coin_value(pile), pile.len()) + short == target.outputs.value_sum + implied_fee(
            target.feerate.sats,
            target.feerate.vbytes,
            whole_weight(pile, target.outputs) as u64,
        ),
{
    let (groups, pre) = choose|groups: Seq<Seq<usize>>, pre: nat| #[trigger]
        is_grouping(pile, groups, pre) && is_outcome_for(
            pile,
            groups,
            pre,
            target,
            long_term_feerate,
            change_policy,
            Err(short),
        );
    let cands = group_candidates(pile, groups);
    assert(cands.len() == groups.len());
    lemma_failure_is_shortage(cands, pre, target, long_term_feerate, change_policy);
    let all = first_indices(cands.len());
    let keep = |i: usize| true;
    lemma_group_totals(pile, groups, pre, target);
    assert forall|g: int, i: usize|
        0 <= g < groups.len() && #[trigger] groups[g].contains(i) implies keep(i) == all.contains(
        g as usize,
    ) by {}
    lemma_selected_sums(pile, groups, all, keep);
    assert(masked(coin_value(pile), keep) =~= coin_value(pile));
    assert(masked(coin_weight(pile), keep) =~= coin_weight(pile));
    assert(masked(coin_count(), keep) =~= coin_count());
    assert(tx_weight(cands, all, target.outputs) == whole_weight(pile, target.outputs));
}

/// Coins that pay for the target and for the fee of spending them all are enough: selection does
/// not fail.
pub proof fn law_enough_coins_suffice(
    pile: Seq<PileUtxo>,
    target: Target,
    long_term_feerate: FeeRate,
    change_policy: ChangePolicy,
    outcome: Result<Seq<OutPoint>, int>,
)
    requires
        pile.len() <= usize::MAX,
        pile_in_range(pile, target),
        is_pile_outcome(pile, target, long_term_feerate, change_policy, outcome),
        prefix_sum(coin_value(pile), pile.len()) >= target.outputs.value_sum + implied_fee(
            target.feerate.sats,
            target.feerate.vbytes,
            whole_weight(pile, target.outputs) as u64,
        ),
    ensures
        outcome is Ok,
{
    if outcome is Err {
        law_failure_means_shortage(
            pile,
            target,
            long_term_feerate,
            change_policy,
            outcome->Err_0,
        );
    }
}

/// The coins of the pile, each once, the poorest first.
pub open spec fn are_poorest_first(pile: Seq<PileUtxo>, order: Seq<usize>) -> bool {
    &&& forall|k: int| 0 <= k < order.len() ==> #[trigger] order[k] < pile.len()
    &&& forall|k: int, l: int|
        0 <= k < l < order.len() ==> order[k] != order[l] && pile[#[trigger] order[k] as int].value
            <= pile[#[trigger] order[l] as int].value
    &&& forall|i: usize| i < pile.len() ==> #[trigger] order.contains(i)
}

/// Each coin as a candidate of its own: an input takes 164 weight units and its witness.
pub open spec fn single_candidates(pile: Seq<PileUtxo>, order: Seq<usize>) -> Seq<Candidate> {
    Seq::new(
        order.len(),
        |k: int|
            Candidate {
                value: pile[order[k] as int].value,
                weight: (164 + pile[order[k] as int].witness_size) as u64,
                input_count: 1,
                is_segwit: true,
            },
    )
}

/// Where no coin was asked for and none shares its address, the lowest-fee search over the single
/// coins decides which of them are spent. Where it finds nothing, the poorest coins are spent, or
/// selection fails.
pub proof fn law_search_chooses_single_coins(
    pile: Vec<PileUtxo>,
    target: Target,
    long_term_feerate: FeeRate,
    change_policy: ChangePolicy,
    r: Result<Vec<OutPoint>, u64>,
) -> (order: Seq<usize>)
    requires
        pile_in_range(pile@, target),
        search_in_range(target, long_term_feerate, change_policy),
        call_ensures(select_from_pile, (pile, target, long_term_feerate, change_policy), r),
        target.outputs.value_sum > 0,
        distinct_outpoints(pile@),
        forall|i: int| 0 <= i < pile@.len() ==> !(#[trigger] pile@[i]).is_manual,
        forall|i: int, j: int|
            0 <= i < j < pile@.len() ==> (#[trigger] pile@[i]).address_key@ != (
            #[trigger] pile@[j]).address_key@,
    ensures
        are_poorest_first(pile@, order),
        match lowest_fee_selection(
            single_candidates(pile@, order),
            Set::empty(),
            target,
            long_term_feerate,
            change_policy,
            1_000_000,
        ) {
            Some(found) => r is Ok && forall|k: int|
                0 <= k < order.len() ==> (r->Ok_0@.contains(
                    pile@[#[trigger] order[k] as int].outpoint,
                ) <==> found.contains(k as usize)),
            None => r matches Ok(spent) ==> forall|k: int, l: int|
                0 <= k < l < order.len() && spent@.contains(
                    pile@[#[trigger] order[l] as int].outpoint,
                ) ==> spent@.contains(pile@[#[trigger] order[k] as int].outpoint),
        },
{
    let outcome = match r {
        Ok(spent) => Ok(spent@),
        Err(sats) => Err(sats as int),
    };
    lemma_search_chooses(pile@, target, long_term_feerate, change_policy, outcome)
}

pub(crate) proof fn lemma_search_chooses(
    pile: Seq<PileUtxo>,
    target: Target,
    long_term_feerate: FeeRate,
    change_policy: ChangePolicy,
    outcome: Result<Seq<OutPoint>, int>,
) -> (order: Seq<usize>)
    requires
        pile.len() <= usize::MAX,
        pile_in_range(pile, target),
        is_pile_outcome(pile, target, long_term_feerate, change_policy, outcome),
        target.outputs.value_sum > 0,
        distinct_outpoints(pile),
        forall|i: int| 0 <= i < pile.len() ==> !(#[trigger] pile[i]).is_manual,
        forall|i: int, j: int|
            0 <= i < j < pile.len() ==> (#[trigger] pile[i]).address_key@ != (
            #[trigger] pile[j]).address_key@,
    ensures
        are_poorest_first(pile, order),
        match lowest_fee_selection(
            single_candidates(pile, order),
            Set::empty(),
            target,
            long_term_feerate,
            change_policy,
            1_000_000,
        ) {
            Some(found) => outcome is Ok && forall|k: int|
                0 <= k < order.len() ==> (outcome->Ok_0.contains(
                    pile[#[trigger] order[k] as int].outpoint,
                ) <==> found.contains(k as usize)),
            None => outcome matches Ok(spent) ==> forall|k: int, l: int|
                0 <= k < l < order.len() && spent.contains(
                    pile[#[trigger] order[l] as int].outpoint,
                ) ==> spent.contains(pile[#[trigger] order[k] as int].outpoint),
        },
{
    let (groups, pre) = choose|groups: Seq<Seq<usize>>, pre: nat| #[trigger]
        is_grouping(pile, groups, pre) && is_outcome_for(
            pile,
            groups,
            pre,
            target,
            long_term_feerate,
            change_policy,
            outcome,
        );
    let cands = group_candidates(pile, groups);
    assert(cands.len() == groups.len());
    assert forall|g: int| 0 <= g < groups.len() implies (#[trigger] groups[g]).len() == 1 by {
        assert(is_group(pile, groups[g]));
        if groups[g].len() > 1 {
            let (i, j) = (groups[g][0], groups[g][1]);
            assert(groups[g].contains(i) && groups[g].contains(j));
            assert(together(pile, i, j));
            assert(pile[i as int].address_key@ != pile[j as int].address_key@);
        }
    }
    if pre > 0 {
        assert(groups[0].len() > 1);
    }
    let order = Seq::new(groups.len(), |g: int| groups[g][0]);
    assert forall|g: int| 0 <= g < groups.len() implies groups[g] == seq![order[g]]
        && groups[g].contains(#[trigger] order[g]) && group_sum(groups[g], coin_value(pile))
        == pile[order[g] as int].value && group_sum(groups[g], coin_weight(pile)) == 164
        + pile[order[g] as int].witness_size by {
        assert(groups[g] =~= seq![order[g]]);
        assert(groups[g].drop_last() =~= Seq::<usize>::empty());
        assert(group_sum(groups[g].drop_last(), coin_value(pile)) == 0);
        assert(group_sum(groups[g].drop_last(), coin_weight(pile)) == 0);
    }
    assert forall|g: int| 0 <= g < order.len() implies #[trigger] order[g] < pile.len() by {
        assert(is_group(pile, groups[g]));
    }
    assert(cands =~= single_candidates(pile, order));
    assert forall|k: int, l: int| 0 <= k < l < order.len() implies order[k] != order[l]
        && pile[#[trigger] order[k] as int].value <= pile[#[trigger] order[l] as int].value by {
        assert(groups[k].contains(order[k]) && groups[l].contains(order[l]));
        assert(group_sum(groups[k], coin_value(pile)) <= group_sum(groups[l], coin_value(pile)));
        assert(together(pile, order[k], order[k]));
    }
    assert forall|i: usize| i < pile.len() implies #[trigger] order.contains(i) by {
        let g = lemma_group_of(pile, groups, pre, i as int);
        assert(order[g] == i);
    }
    let none = first_indices(0);
    assert(none =~= Set::<usize>::empty());
    lemma_nothing_is_worth_nothing(cands, none);
    if outcome is Ok {
        let selected = grouped_selection(
            cands,
            pre,
            target,
            long_term_feerate,
            change_policy,
        )->Ok_0;
        assert forall|k: int| 0 <= k < order.len() implies (outcome->Ok_0.contains(
            pile[#[trigger] order[k] as int].outpoint,
        ) <==> selected.contains(k as usize)) by {
            assert(groups[k].contains(order[k]));
            lemma_spent_iff(pile, groups, pre, selected, k, order[k] as int);
        }
        if lowest_fee_selection(
            cands,
            none,
            target,
            long_term_feerate,
            change_policy,
            1_000_000,
        ) is None {
            assert(ascending(cands.len()).skip(0) =~= ascending(cands.len()));
            let n = lemma_fill_in_order(cands, target, 0, 0);
            assert(selected == first_indices(n));
        }
    }
    order
}

proof fn lemma_nothing_is_worth_nothing(candidates: Seq<Candidate>, selected: Set<usize>)
    requires
        forall|i: usize| !selected.contains(i),
    ensures
        selected_value(candidates, selected) == 0,
    decreases candidates.len(),
{
    if candidates.len() > 0 {
        lemma_nothing_is_worth_nothing(candidates.drop_last(), selected);
    }
}

} // verus!
