//! Selection among candidates of which some come first.

use crate::coin_selector::{
    ascending, excess, fill, in_range, is_target_met, lowest_fee_selection, missing,
    run_lowest_fee_bnb, search_in_range, select_until_target_met, selected_indices,
    selector_candidates, selector_order, selector_selected, target_met, FeeRate, Target,
};
use bdk_coin_select::{Candidate, ChangePolicy, CoinSelector};
use vstd::prelude::*;

verus! {

/// The bound on the rounds of the lowest-fee search. It is generous: the search converges long
/// before, and the bound only keeps it from running away.
pub const BNB_MAX_ROUNDS: usize = 1_000_000;

/// The indices below `n`.
pub open spec fn first_indices(n: nat) -> Set<usize> {
    Set::new(|i: usize| i < n)
}

/// How many of the first `end` candidates are selected when they are taken one by one, having
/// taken `taken` of them, until the target is met.
pub open spec fn preselect_count(
    candidates: Seq<Candidate>,
    target: Target,
    taken: nat,
    end: nat,
) -> nat
    decreases end - taken,
{
    if taken >= end {
        taken
    } else if target_met(candidates, first_indices(taken + 1), target) {
        taken + 1
    } else {
        preselect_count(candidates, target, taken + 1, end)
    }
}

/// The outcome of a selection in which the first `pre_select_end` candidates come first.
///
/// They are taken one by one until the target is met. If it is not met, the lowest-fee search
/// extends the selection; failing that, the remaining candidates are added in order. The error is
/// the amount that is missing then.
pub open spec fn grouped_selection(
    candidates: Seq<Candidate>,
    pre_select_end: nat,
    target: Target,
    long_term_feerate: FeeRate,
    change_policy: ChangePolicy,
) -> Result<Set<usize>, int> {
    let first = first_indices(preselect_count(candidates, target, 0, pre_select_end));
    if target_met(candidates, first, target) {
        Ok(first)
    } else {
        match lowest_fee_selection(
            candidates,
            first,
            target,
            long_term_feerate,
            change_policy,
            BNB_MAX_ROUNDS,
        ) {
            Some(selected) => Ok(selected),
            None => {
                let (selected, met) = fill(candidates, first, ascending(candidates.len()), target);
                if met {
                    Ok(selected)
                } else {
                    Err(-excess(candidates, selected, target))
                }
            },
        }
    }
}

/// The selection stays within the candidates, holds those that were taken first and meets the
/// target.
pub open spec fn is_sound_selection(
    candidates: Seq<Candidate>,
    pre_select_end: nat,
    target: Target,
    selected: Set<usize>,
) -> bool {
    &&& selected.subset_of(first_indices(candidates.len()))
    &&& first_indices(preselect_count(candidates, target, 0, pre_select_end)).subset_of(selected)
    &&& target_met(candidates, selected, target)
}

/// `indices` lists the elements of `set` in ascending order.
pub open spec fn lists_ascending(indices: Seq<usize>, set: Set<usize>) -> bool {
    &&& forall|i: int, j: int| 0 <= i < j < indices.len() ==> indices[i] < indices[j]
    &&& forall|i: usize| indices.contains(i) <==> set.contains(i)
}

proof fn lemma_preselect_bounds(
    candidates: Seq<Candidate>,
    target: Target,
    taken: nat,
    end: nat,
)
    requires
        taken <= end,
    ensures
        taken <= preselect_count(candidates, target, taken, end) <= end,
        preselect_count(candidates, target, taken, end) < end ==> target_met(
            candidates,
            first_indices(preselect_count(candidates, target, taken, end)),
            target,
        ),
    decreases end - taken,
{
    if taken < end && !target_met(candidates, first_indices(taken + 1), target) {
        lemma_preselect_bounds(candidates, target, taken + 1, end);
    }
}

proof fn lemma_fill(
    candidates: Seq<Candidate>,
    selected: Set<usize>,
    order: Seq<usize>,
    target: Target,
)
    ensures
        ({
            let (s, met) = fill(candidates, selected, order, target);
            &&& selected.subset_of(s)
            &&& met <==> target_met(candidates, s, target)
            &&& forall|i: usize| #[trigger]
                s.contains(i) ==> selected.contains(i) || order.contains(i)
            &&& !met ==> forall|k: int| 0 <= k < order.len() ==> s.contains(#[trigger] order[k])
        }),
    decreases order.len(),
{
    if !target_met(candidates, selected, target) && order.len() > 0 {
        let rest = order.drop_first();
        lemma_fill(candidates, selected.insert(order[0]), rest, target);
        let (s, met) = fill(candidates, selected.insert(order[0]), rest, target);
        assert forall|i: usize| #[trigger] s.contains(i) implies selected.contains(i)
            || order.contains(i) by {
            if !selected.contains(i) {
                if i == order[0] {
                } else {
                    let k = choose|k: int| 0 <= k < rest.len() && rest[k] == i;
                    assert(order[k + 1] == i);
                }
            }
        }
        if !met {
            assert forall|k: int| 0 <= k < order.len() implies s.contains(#[trigger] order[k]) by {
                if k > 0 {
                    assert(rest[k - 1] == order[k]);
                }
            }
        }
    }
}

/// At least one candidate is taken first if there is one, no more than there are, and all of them
/// unless fewer meet the target.
pub proof fn lemma_taken_first(candidates: Seq<Candidate>, target: Target, pre_select_end: nat)
    ensures
        ({
            let count = preselect_count(candidates, target, 0, pre_select_end);
            &&& count <= pre_select_end
            &&& pre_select_end > 0 ==> count > 0
            &&& count < pre_select_end ==> target_met(candidates, first_indices(count), target)
        }),
{
    lemma_preselect_bounds(candidates, target, 0, pre_select_end);
    if pre_select_end > 0 {
        lemma_preselect_bounds(candidates, target, 1, pre_select_end);
    }
}

/// A selection fails only if everything together falls short, by the amount of the error.
pub proof fn lemma_failure_is_shortage(
    candidates: Seq<Candidate>,
    pre_select_end: nat,
    target: Target,
    long_term_feerate: FeeRate,
    change_policy: ChangePolicy,
)
    requires
        pre_select_end <= candidates.len() <= usize::MAX,
    ensures
        grouped_selection(
            candidates,
            pre_select_end,
            target,
            long_term_feerate,
            change_policy,
        ) matches Err(short) ==> {
            &&& short > 0
            &&& short == -excess(candidates, first_indices(candidates.len()), target)
        },
{
    lemma_preselect_bounds(candidates, target, 0, pre_select_end);
    let first = first_indices(preselect_count(candidates, target, 0, pre_select_end));
    let order = ascending(candidates.len());
    lemma_fill(candidates, first, order, target);
    let (s, met) = fill(candidates, first, order, target);
    if !met {
        assert forall|i: usize| s.contains(i) <==> first_indices(candidates.len()).contains(i) by {
            if s.contains(i) && !first.contains(i) {
                assert(order.contains(i));
            }
            if i < candidates.len() {
                assert(order[i as int] == i);
            }
        }
        assert(s =~= first_indices(candidates.len()));
    }
}

/// Selects among `candidates`, taking the first `pre_select_end` of them before any other.
///
/// Returns the indices of the selected candidates in ascending order, or the missing satoshis.
pub fn select_grouped(
    candidates: &Vec<Candidate>,
    pre_select_end: usize,
    target: Target,
    long_term_feerate: FeeRate,
    change_policy: ChangePolicy,
) -> (r: Result<Vec<usize>, u64>)
    requires
        pre_select_end <= candidates.len(),
        in_range(candidates@, target),
        search_in_range(target, long_term_feerate, change_policy),
    ensures
        match (
            r,
            grouped_selection(
                candidates@,
                pre_select_end as nat,
                target,
                long_term_feerate,
                change_policy,
            ),
        ) {
            (Ok(indices), Ok(selected)) => {
                &&& lists_ascending(indices@, selected)
                &&& is_sound_selection(candidates@, pre_select_end as nat, target, selected)
            },
            (Err(sats), Err(short)) => sats == short && sats <= 0x8000_0000_0000_0000,
            _ => false,
        },
{
    let mut selector = CoinSelector::new(candidates.as_slice());
    let mut i: usize = 0;
    proof {
        assert(selector_selected(selector) =~= first_indices(0));
    }
    while i < pre_select_end
        invariant_except_break
            selector_selected(selector) == first_indices(i as nat),
            preselect_count(candidates@, target, 0, pre_select_end as nat) == preselect_count(
                candidates@,
                target,
                i as nat,
                pre_select_end as nat,
            ),
        invariant
            i <= pre_select_end <= candidates.len(),
            in_range(candidates@, target),
            selector_candidates(selector) == candidates@,
            selector_order(selector) == ascending(candidates@.len()),
        ensures
            selector_selected(selector) == first_indices(
                preselect_count(candidates@, target, 0, pre_select_end as nat),
            ),
        decreases pre_select_end - i,
    {
        let _ = selector.select(i);
        proof {
            assert(first_indices(i as nat).insert(i) =~= first_indices((i + 1) as nat));
        }
        if is_target_met(&selector, target) {
            break;
        }
        i += 1;
    }
    let ghost first = selector_selected(selector);
    proof {
        lemma_preselect_bounds(candidates@, target, 0, pre_select_end as nat);
        lemma_fill(candidates@, first, ascending(candidates@.len()), target);
    }
    if !is_target_met(&selector, target) {
        let found = run_lowest_fee_bnb(
            &mut selector,
            target,
            long_term_feerate,
            change_policy,
            BNB_MAX_ROUNDS,
        );
        if !found {
            let met = select_until_target_met(&mut selector, target);
            if !met {
                return Err(missing(&selector, target));
            }
            proof {
                let order = ascending(candidates@.len());
                assert forall|k: usize| order.contains(k) implies k < candidates@.len() by {
                    let j = choose|j: int| 0 <= j < order.len() && order[j] == k;
                }
            }
        }
    }
    Ok(selected_indices(&selector))
}

// ---------------------------------------------------------------------------------------------
// Laws
// ---------------------------------------------------------------------------------------------

/// The first `n` candidates pay for the target.
pub open spec fn first_ones_pay(candidates: Seq<Candidate>, target: Target, n: nat) -> bool {
    target_met(candidates, Set::new(|i: usize| i < n), target)
}

/// None of the leading parts of what comes first pays for the target; where nothing comes first, an
/// empty selection does not.
pub open spec fn first_ones_fall_short(
    candidates: Seq<Candidate>,
    target: Target,
    pre_select_end: nat,
) -> bool {
    &&& pre_select_end == 0 ==> !first_ones_pay(candidates, target, 0)
    &&& forall|n: nat| 1 <= n <= pre_select_end ==> !#[trigger] first_ones_pay(candidates, target, n)
}

/// Where the candidates that come first pay for the target, as few of them as do are selected, in
/// their order, and nothing else.
pub proof fn law_no_more_than_the_first_ones(
    candidates: Vec<Candidate>,
    pre_select_end: usize,
    target: Target,
    long_term_feerate: FeeRate,
    change_policy: ChangePolicy,
    r: Result<Vec<usize>, u64>,
    n: nat,
    i: usize,
)
    requires
        pre_select_end <= candidates@.len(),
        in_range(candidates@, target),
        search_in_range(target, long_term_feerate, change_policy),
        call_ensures(
            select_grouped,
            (&candidates, pre_select_end, target, long_term_feerate, change_policy),
            r,
        ),
        n <= pre_select_end,
        n == 0 ==> pre_select_end == 0,
        first_ones_pay(candidates@, target, n),
        forall|m: nat| 1 <= m < n ==> !#[trigger] first_ones_pay(candidates@, target, m),
    ensures
        r is Ok,
        r->Ok_0@.contains(i) <==> i < n,
{
    let cands = candidates@;
    assert(first_indices(n) == Set::new(|i: usize| i < n));
    lemma_count_is_first(cands, target, 0, pre_select_end as nat, n);
}

proof fn lemma_count_is_first(
    candidates: Seq<Candidate>,
    target: Target,
    taken: nat,
    end: nat,
    n: nat,
)
    requires
        taken <= n <= end,
        taken == n ==> n == end,
        first_ones_pay(candidates, target, n),
        forall|m: nat| taken < m < n ==> !#[trigger] first_ones_pay(candidates, target, m),
    ensures
        preselect_count(candidates, target, taken, end) == n,
    decreases end - taken,
{
    if taken < end {
        assert(first_indices(taken + 1) == Set::new(|i: usize| i < taken + 1));
        assert(first_ones_pay(candidates, target, taken + 1) == target_met(
            candidates,
            first_indices(taken + 1),
            target,
        ));
        if taken + 1 < n {
            lemma_count_is_first(candidates, target, taken + 1, end, n);
        }
    }
}

proof fn lemma_count_is_all(candidates: Seq<Candidate>, target: Target, taken: nat, end: nat)
    requires
        taken <= end,
        forall|m: nat| taken < m <= end ==> !#[trigger] first_ones_pay(candidates, target, m),
    ensures
        preselect_count(candidates, target, taken, end) == end,
    decreases end - taken,
{
    if taken < end {
        assert(first_indices(taken + 1) == Set::new(|i: usize| i < taken + 1));
        assert(!first_ones_pay(candidates, target, taken + 1));
        lemma_count_is_all(candidates, target, taken + 1, end);
    }
}

/// Where the candidates that come first do not pay for the target, the lowest-fee search decides: if
/// it finds a selection that extends them, that one is selected, whatever adding the candidates in
/// order would come to.
pub proof fn law_lowest_fee_search_decides(
    candidates: Vec<Candidate>,
    pre_select_end: usize,
    target: Target,
    long_term_feerate: FeeRate,
    change_policy: ChangePolicy,
    r: Result<Vec<usize>, u64>,
    found: Set<usize>,
    i: usize,
)
    requires
        pre_select_end <= candidates@.len(),
        in_range(candidates@, target),
        search_in_range(target, long_term_feerate, change_policy),
        call_ensures(
            select_grouped,
            (&candidates, pre_select_end, target, long_term_feerate, change_policy),
            r,
        ),
        first_ones_fall_short(candidates@, target, pre_select_end as nat),
        lowest_fee_selection(
            candidates@,
            Set::new(|i: usize| i < pre_select_end),
            target,
            long_term_feerate,
            change_policy,
            1_000_000,
        ) == Some(found),
    ensures
        r is Ok,
        r->Ok_0@.contains(i) <==> found.contains(i),
{
    let (cands, pre) = (candidates@, pre_select_end as nat);
    lemma_count_is_all(cands, target, 0, pre);
    assert(first_indices(pre) =~= Set::new(|i: usize| i < pre_select_end));
    assert(first_indices(pre) == Set::new(|i: usize| i < pre));
    assert(!first_ones_pay(cands, target, pre));
}

/// Where neither the candidates that come first nor the lowest-fee search meet the target, the
/// candidates are added in order, no more of them than it takes; where all of them fall short the
/// error is what is missing to the value and the fee of all.
pub proof fn law_candidates_are_added_in_order(
    candidates: Vec<Candidate>,
    pre_select_end: usize,
    target: Target,
    long_term_feerate: FeeRate,
    change_policy: ChangePolicy,
    r: Result<Vec<usize>, u64>,
)
    requires
        pre_select_end <= candidates@.len(),
        in_range(candidates@, target),
        search_in_range(target, long_term_feerate, change_policy),
        call_ensures(
            select_grouped,
            (&candidates, pre_select_end, target, long_term_feerate, change_policy),
            r,
        ),
        first_ones_fall_short(candidates@, target, pre_select_end as nat),
        lowest_fee_selection(
            candidates@,
            Set::new(|i: usize| i < pre_select_end),
            target,
            long_term_feerate,
            change_policy,
            1_000_000,
        ) is None,
    ensures
        match r {
            Ok(indices) => exists|n: nat|
                pre_select_end < n <= candidates@.len() && #[trigger] first_ones_pay(
                    candidates@,
                    target,
                    n,
                ) && (forall|i: usize| indices@.contains(i) <==> i < n) && (forall|m: nat|
                    pre_select_end <= m < n ==> !#[trigger] first_ones_pay(candidates@, target, m)),
            Err(short) => short > 0 && (forall|m: nat|
                pre_select_end <= m <= candidates@.len() ==> !#[trigger] first_ones_pay(
                    candidates@,
                    target,
                    m,
                )) && short == -excess(
                candidates@,
                Set::new(|i: usize| i < candidates@.len()),
                target,
            ),
        },
{
    let (cands, pre) = (candidates@, pre_select_end as nat);
    lemma_count_is_all(cands, target, 0, pre);
    assert(first_indices(pre) =~= Set::new(|i: usize| i < pre_select_end));
    assert(first_indices(pre) == Set::new(|i: usize| i < pre));
    assert(!first_ones_pay(cands, target, pre));
    let order = ascending(cands.len());
    assert(order.skip(0) =~= order);
    let n = lemma_fill_in_order(cands, target, pre, 0);
    lemma_failure_is_shortage(cands, pre, target, long_term_feerate, change_policy);
    assert(first_indices(n) == Set::new(|i: usize| i < n));
    assert(first_indices(cands.len()) =~= Set::new(|i: usize| i < cands.len()));
    match r {
        Ok(indices) => {
            assert(first_ones_pay(cands, target, n));
        },
        Err(short) => {},
    }
}

/// Adding the candidates from `j` on, where `pre` of them are selected already and all before `j`.
pub(crate) proof fn lemma_fill_in_order(
    candidates: Seq<Candidate>,
    target: Target,
    pre: nat,
    j: nat,
) -> (n: nat)
    requires
        pre <= candidates.len() <= usize::MAX,
        j <= candidates.len(),
    ensures
        ({
            let from = if pre >= j {
                pre
            } else {
                j
            };
            let (s, met) = fill(
                candidates,
                first_indices(from),
                ascending(candidates.len()).skip(j as int),
                target,
            );
            &&& from <= n <= candidates.len()
            &&& s == first_indices(n)
            &&& met == first_ones_pay(candidates, target, n)
            &&& forall|m: nat| from <= m < n ==> !#[trigger] first_ones_pay(candidates, target, m)
            &&& !met ==> n == candidates.len()
        }),
    decreases candidates.len() - j,
{
    let from = if pre >= j {
        pre
    } else {
        j
    };
    let order = ascending(candidates.len()).skip(j as int);
    assert(first_indices(from) == Set::new(|i: usize| i < from));
    if target_met(candidates, first_indices(from), target) {
        assert(first_ones_pay(candidates, target, from));
        from
    } else if j == candidates.len() {
        from
    } else {
        assert(order[0] == j as usize);
        assert(order.drop_first() =~= ascending(candidates.len()).skip(j as int + 1));
        let next = if pre >= j + 1 {
            pre
        } else {
            j + 1
        };
        assert(first_indices(from).insert(j as usize) =~= first_indices(next));
        assert(!first_ones_pay(candidates, target, from));
        lemma_fill_in_order(candidates, target, pre, j + 1)
    }
}

/// The selected candidates are listed once each, in ascending order, and none that is not there.
pub proof fn law_selection_is_listed_in_order(
    candidates: Vec<Candidate>,
    pre_select_end: usize,
    target: Target,
    long_term_feerate: FeeRate,
    change_policy: ChangePolicy,
    r: Vec<usize>,
    i: int,
    j: int,
)
    requires
        pre_select_end <= candidates@.len(),
        in_range(candidates@, target),
        search_in_range(target, long_term_feerate, change_policy),
        call_ensures(
            select_grouped,
            (&candidates, pre_select_end, target, long_term_feerate, change_policy),
            Ok(r),
        ),
        0 <= i < j < r@.len(),
    ensures
        r@[i] < r@[j] < candidates@.len(),
{
    assert(r@.contains(r@[j]));
}

} // verus!
