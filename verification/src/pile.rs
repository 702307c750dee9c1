//! Coin selection over one pile of coins.
//!
//! Coins that were received on the same address are already linked in public, so they are spent
//! together and before any other coin. The rest is left to the lowest-fee search.

use crate::coin_selector::{
    in_range, search_in_range, selected_inputs, selected_value, selected_weight, txin_base_weight,
    FeeRate, Target, INPUT_BASE_WEIGHT,
};
use crate::selection::{grouped_selection, is_sound_selection, lists_ascending, select_grouped};
use crate::types::OutPoint;
use bdk_coin_select::{Candidate, ChangePolicy};
use vstd::prelude::*;

verus! {


/// What selection needs to know of one coin.
#[derive(Debug)]
pub struct PileUtxo {
    pub outpoint: OutPoint,
    /// Value in satoshis.
    pub value: u64,
    /// Weight of the witness, on top of the weight of an input without one.
    pub witness_size: u64,
    /// Equal for coins that were received on the same address.
    pub address_key: String,
    /// Whether the caller asked for this coin.
    pub is_manual: bool,
}

/// `f(0) + ... + f(n - 1)`.
pub open spec fn prefix_sum(f: spec_fn(usize) -> nat, n: nat) -> nat
    decreases n,
{
    if n == 0 {
        0
    } else {
        prefix_sum(f, (n - 1) as nat) + f((n - 1) as usize)
    }
}

/// The sum of `f` over the members of one group.
pub open spec fn group_sum(group: Seq<usize>, f: spec_fn(usize) -> nat) -> nat
    decreases group.len(),
{
    if group.len() == 0 {
        0
    } else {
        group_sum(group.drop_last(), f) + f(group.last())
    }
}

/// The sum of `f` over the members of all groups.
pub open spec fn groups_sum(groups: Seq<Seq<usize>>, f: spec_fn(usize) -> nat) -> nat
    decreases groups.len(),
{
    if groups.len() == 0 {
        0
    } else {
        groups_sum(groups.drop_last(), f) + group_sum(groups.last(), f)
    }
}

/// The value of each coin of a pile.
pub open spec fn coin_value(pile: Seq<PileUtxo>) -> spec_fn(usize) -> nat {
    |i: usize| pile[i as int].value as nat
}

/// The weight of each coin of a pile, spent as an input.
pub open spec fn coin_weight(pile: Seq<PileUtxo>) -> spec_fn(usize) -> nat {
    |i: usize| (INPUT_BASE_WEIGHT + pile[i as int].witness_size) as nat
}

/// One for each coin of a pile.
pub open spec fn coin_count() -> spec_fn(usize) -> nat {
    |i: usize| 1nat
}

/// The coins `i` and `j` belong to one group: both were asked for, or neither was and they share
/// an address.
pub open spec fn together(pile: Seq<PileUtxo>, i: usize, j: usize) -> bool {
    if pile[i as int].is_manual || pile[j as int].is_manual {
        pile[i as int].is_manual && pile[j as int].is_manual
    } else {
        pile[i as int].address_key@ == pile[j as int].address_key@
    }
}

/// Whether any coin of the pile was asked for.
pub open spec fn has_manual(pile: Seq<PileUtxo>) -> bool {
    exists|i: int| 0 <= i < pile.len() && (#[trigger] pile[i]).is_manual
}

/// A group lists coins of the pile, at least one, in the order of the pile.
pub open spec fn is_group(pile: Seq<PileUtxo>, group: Seq<usize>) -> bool {
    &&& group.len() > 0
    &&& forall|k: int| 0 <= k < group.len() ==> #[trigger] group[k] < pile.len()
    &&& forall|k: int, l: int| 0 <= k < l < group.len() ==> group[k] < group[l]
}

/// Some group holds the coin `i`.
pub open spec fn grouped(groups: Seq<Seq<usize>>, i: usize) -> bool {
    exists|g: int| 0 <= g < groups.len() && (#[trigger] groups[g]).contains(i)
}

/// The groups of a pile, of which the first `pre` are to be spent before the others.
///
/// The coins that were asked for form the first group, if there are any. Then come the addresses
/// with several coins, the poorest first; then the addresses with a single coin, again the poorest
/// first.
pub open spec fn is_grouping(pile: Seq<PileUtxo>, groups: Seq<Seq<usize>>, pre: nat) -> bool {
    let manual: int = if has_manual(pile) {
        1
    } else {
        0
    };
    &&& manual <= pre <= groups.len()
    &&& forall|g: int| 0 <= g < groups.len() ==> is_group(pile, #[trigger] groups[g])
    &&& forall|i: usize| i < pile.len() ==> #[trigger] grouped(groups, i)
    &&& forall|g: int, h: int, i: usize, j: usize|
        0 <= g < groups.len() && 0 <= h < groups.len() && #[trigger] groups[g].contains(i)
            && #[trigger] groups[h].contains(j) ==> (g == h <==> together(pile, i, j))
    &&& has_manual(pile) ==> pile[groups[0][0] as int].is_manual
    &&& forall|g: int| manual <= g < pre ==> (#[trigger] groups[g]).len() > 1
    &&& forall|g: int| pre <= g < groups.len() ==> (#[trigger] groups[g]).len() == 1
    &&& forall|g: int, h: int|
        manual <= g < h < pre ==> group_sum(#[trigger] groups[g], coin_value(pile)) <= group_sum(
            #[trigger] groups[h],
            coin_value(pile),
        )
    &&& forall|g: int, h: int|
        pre <= g < h < groups.len() ==> group_sum(#[trigger] groups[g], coin_value(pile))
            <= group_sum(#[trigger] groups[h], coin_value(pile))
}

/// The groups hold every coin of the pile once: any sum over the groups is the sum over the pile.
pub open spec fn holds_each_once(pile: Seq<PileUtxo>, groups: Seq<Seq<usize>>) -> bool {
    forall|f: spec_fn(usize) -> nat|
        groups_sum(groups, f) == #[trigger] prefix_sum(f, pile.len())
}

/// The candidate that stands for one group.
pub open spec fn group_candidate(pile: Seq<PileUtxo>, group: Seq<usize>) -> Candidate {
    Candidate {
        value: group_sum(group, coin_value(pile)) as u64,
        weight: group_sum(group, coin_weight(pile)) as u64,
        input_count: group.len() as usize,
        is_segwit: true,
    }
}

/// One candidate for each group.
pub open spec fn group_candidates(pile: Seq<PileUtxo>, groups: Seq<Seq<usize>>) -> Seq<Candidate> {
    groups.map_values(|group: Seq<usize>| group_candidate(pile, group))
}

/// The outpoints of one group.
pub open spec fn group_outpoints(pile: Seq<PileUtxo>, group: Seq<usize>) -> Seq<OutPoint> {
    group.map_values(|i: usize| pile[i as int].outpoint)
}

/// The outpoints of the selected groups, group by group.
pub open spec fn spent_outpoints(
    pile: Seq<PileUtxo>,
    groups: Seq<Seq<usize>>,
    selected: Set<usize>,
) -> Seq<OutPoint>
    decreases groups.len(),
{
    if groups.len() == 0 {
        Seq::empty()
    } else {
        spent_outpoints(pile, groups.drop_last(), selected) + if selected.contains(
            (groups.len() - 1) as usize,
        ) {
            group_outpoints(pile, groups.last())
        } else {
            Seq::empty()
        }
    }
}

/// What selection over the given groups comes to.
pub open spec fn grouping_outcome(
    pile: Seq<PileUtxo>,
    groups: Seq<Seq<usize>>,
    pre: nat,
    target: Target,
    long_term_feerate: FeeRate,
    change_policy: ChangePolicy,
) -> Result<Seq<OutPoint>, int> {
    match grouped_selection(
        group_candidates(pile, groups),
        pre,
        target,
        long_term_feerate,
        change_policy,
    ) {
        Ok(selected) => Ok(spent_outpoints(pile, groups, selected)),
        Err(short) => Err(short),
    }
}

/// A pile whose totals stay in the range of the selector.
pub open spec fn pile_in_range(pile: Seq<PileUtxo>, target: Target) -> bool {
    &&& in_range(Seq::empty(), target)
    &&& pile.len() < 0x1_0000_0000
    &&& prefix_sum(coin_value(pile), pile.len()) < 0x4000_0000_0000_0000
    &&& prefix_sum(coin_weight(pile), pile.len()) < 0x1_0000_0000
}

// ---------------------------------------------------------------------------------------------
// Sums over groups
// ---------------------------------------------------------------------------------------------

proof fn lemma_group_sum_push(group: Seq<usize>, i: usize, f: spec_fn(usize) -> nat)
    ensures
        group_sum(group.push(i), f) == group_sum(group, f) + f(i),
{
    assert(group.push(i).drop_last() =~= group);
}

proof fn lemma_group_sum_one(i: usize, f: spec_fn(usize) -> nat)
    ensures
        group_sum(seq![i], f) == f(i),
{
    assert(seq![i].drop_last() =~= Seq::<usize>::empty());
    assert(group_sum(seq![i].drop_last(), f) == 0);
}

proof fn lemma_groups_sum_push(groups: Seq<Seq<usize>>, group: Seq<usize>, f: spec_fn(usize) -> nat)
    ensures
        groups_sum(groups.push(group), f) == groups_sum(groups, f) + group_sum(group, f),
{
    assert(groups.push(group).drop_last() =~= groups);
}

proof fn lemma_groups_sum_update(
    groups: Seq<Seq<usize>>,
    k: int,
    group: Seq<usize>,
    f: spec_fn(usize) -> nat,
)
    requires
        0 <= k < groups.len(),
    ensures
        groups_sum(groups.update(k, group), f) + group_sum(groups[k], f) == groups_sum(groups, f)
            + group_sum(group, f),
    decreases groups.len(),
{
    if k == groups.len() - 1 {
        assert(groups.update(k, group).drop_last() =~= groups.drop_last());
    } else {
        assert(groups.update(k, group).drop_last() =~= groups.drop_last().update(k, group));
        lemma_groups_sum_update(groups.drop_last(), k, group, f);
    }
}

proof fn lemma_groups_sum_insert(
    groups: Seq<Seq<usize>>,
    k: int,
    group: Seq<usize>,
    f: spec_fn(usize) -> nat,
)
    requires
        0 <= k <= groups.len(),
    ensures
        groups_sum(groups.insert(k, group), f) == groups_sum(groups, f) + group_sum(group, f),
    decreases groups.len(),
{
    if k == groups.len() {
        assert(groups.insert(k, group) =~= groups.push(group));
        lemma_groups_sum_push(groups, group, f);
    } else {
        assert(groups.insert(k, group).drop_last() =~= groups.drop_last().insert(k, group));
        assert(groups.insert(k, group).last() == groups.last());
        lemma_groups_sum_insert(groups.drop_last(), k, group, f);
    }
}

proof fn lemma_groups_sum_concat(
    a: Seq<Seq<usize>>,
    b: Seq<Seq<usize>>,
    f: spec_fn(usize) -> nat,
)
    ensures
        groups_sum(a + b, f) == groups_sum(a, f) + groups_sum(b, f),
    decreases b.len(),
{
    if b.len() == 0 {
        assert(a + b =~= a);
    } else {
        assert((a + b).drop_last() =~= a + b.drop_last());
        lemma_groups_sum_concat(a, b.drop_last(), f);
    }
}

/// One group sums up to no more than all of them.
proof fn lemma_group_in_groups(groups: Seq<Seq<usize>>, k: int, f: spec_fn(usize) -> nat)
    requires
        0 <= k < groups.len(),
    ensures
        group_sum(groups[k], f) <= groups_sum(groups, f),
    decreases groups.len(),
{
    if k < groups.len() - 1 {
        lemma_group_in_groups(groups.drop_last(), k, f);
        assert(groups.drop_last()[k] == groups[k]);
    }
}

pub proof fn lemma_group_count(group: Seq<usize>)
    ensures
        group_sum(group, coin_count()) == group.len(),
    decreases group.len(),
{
    if group.len() > 0 {
        lemma_group_count(group.drop_last());
    }
}

pub proof fn lemma_prefix_count(n: nat)
    ensures
        prefix_sum(coin_count(), n) == n,
    decreases n,
{
    if n > 0 {
        lemma_prefix_count((n - 1) as nat);
    }
}

proof fn lemma_push_contains(group: Seq<usize>, i: usize)
    ensures
        forall|j: usize| #[trigger] group.push(i).contains(j) <==> group.contains(j) || j == i,
{
    let pushed = group.push(i);
    assert forall|j: usize| #[trigger] pushed.contains(j) <==> group.contains(j) || j == i by {
        if group.contains(j) {
            let k = choose|k: int| 0 <= k < group.len() && group[k] == j;
            assert(pushed[k] == j);
        }
        if j == i {
            assert(pushed[group.len() as int] == j);
        }
    }
}

// ---------------------------------------------------------------------------------------------
// Building the groups
// ---------------------------------------------------------------------------------------------

/// Lists of indices as sequences.
pub open spec fn index_lists(lists: Seq<Vec<usize>>) -> Seq<Seq<usize>> {
    lists.map_values(|list: Vec<usize>| list@)
}

/// The address of the first coin of a group.
spec fn group_key(pile: Seq<PileUtxo>, group: Seq<usize>) -> Seq<char> {
    pile[group[0] as int].address_key@
}

/// A group of all coins among the first `n` that were not asked for and share one address.
spec fn is_address_group(pile: Seq<PileUtxo>, n: nat, group: Seq<usize>) -> bool {
    &&& n <= pile.len()
    &&& is_group(pile, group)
    &&& forall|i: usize| #[trigger]
        group.contains(i) <==> i < n && !pile[i as int].is_manual && pile[i as int].address_key@
            == group_key(pile, group)
}

/// Groups by address of the first `n` coins, one for each address.
spec fn are_address_groups(pile: Seq<PileUtxo>, n: nat, groups: Seq<Seq<usize>>) -> bool {
    &&& forall|g: int| 0 <= g < groups.len() ==> is_address_group(pile, n, #[trigger] groups[g])
    &&& forall|g: int, h: int|
        0 <= g < h < groups.len() ==> group_key(pile, #[trigger] groups[g]) != group_key(
            pile,
            #[trigger] groups[h],
        )
}

/// The coins among the first `n` that were asked for.
spec fn is_manual_group(pile: Seq<PileUtxo>, n: nat, group: Seq<usize>) -> bool {
    &&& n <= pile.len()
    &&& forall|k: int| 0 <= k < group.len() ==> #[trigger] group[k] < n
    &&& forall|k: int, l: int| 0 <= k < l < group.len() ==> group[k] < group[l]
    &&& forall|i: usize| #[trigger] group.contains(i) <==> i < n && pile[i as int].is_manual
}

/// Every coin among the first `n` that was not asked for is in a group.
spec fn cover_addresses(pile: Seq<PileUtxo>, n: nat, groups: Seq<Seq<usize>>) -> bool {
    forall|i: usize| i < n && !pile[i as int].is_manual ==> #[trigger] grouped(groups, i)
}

/// The position of the group with the address of coin `i`, or the number of groups.
fn find_address(pile: &Vec<PileUtxo>, groups: &Vec<Vec<usize>>, i: usize) -> (g: usize)
    requires
        i < pile.len(),
        are_address_groups(pile@, i as nat, index_lists(groups@)),
    ensures
        g <= groups.len(),
        g < groups.len() ==> group_key(pile@, index_lists(groups@)[g as int])
            == pile@[i as int].address_key@,
        forall|h: int|
            0 <= h < g ==> group_key(pile@, #[trigger] index_lists(groups@)[h])
                != pile@[i as int].address_key@,
{
    let mut g: usize = 0;
    while g < groups.len()
        invariant
            i < pile.len(),
            g <= groups.len(),
            are_address_groups(pile@, i as nat, index_lists(groups@)),
            forall|h: int|
                0 <= h < g ==> group_key(pile@, #[trigger] index_lists(groups@)[h])
                    != pile@[i as int].address_key@,
        decreases groups.len() - g,
    {
        assert(is_address_group(pile@, i as nat, index_lists(groups@)[g as int]));
        let first = groups[g][0];
        if pile[first].address_key == pile[i].address_key {
            return g;
        }
        g += 1;
    }
    g
}

/// Sorts the coins of a pile by address. The coins that were asked for stand apart.
fn group_by_address(pile: &Vec<PileUtxo>) -> (r: (Vec<usize>, Vec<Vec<usize>>))
    ensures
        is_manual_group(pile@, pile@.len(), r.0@),
        are_address_groups(pile@, pile@.len(), index_lists(r.1@)),
        cover_addresses(pile@, pile@.len(), index_lists(r.1@)),
        forall|f: spec_fn(usize) -> nat|
            group_sum(r.0@, f) + groups_sum(index_lists(r.1@), f) == #[trigger] prefix_sum(
                f,
                pile@.len(),
            ),
{
    let mut manual: Vec<usize> = Vec::new();
    let mut groups: Vec<Vec<usize>> = Vec::new();
    let mut i: usize = 0;
    proof {
        assert(index_lists(groups@) =~= Seq::<Seq<usize>>::empty());
    }
    while i < pile.len()
        invariant
            i <= pile.len(),
            is_manual_group(pile@, i as nat, manual@),
            are_address_groups(pile@, i as nat, index_lists(groups@)),
            cover_addresses(pile@, i as nat, index_lists(groups@)),
            forall|f: spec_fn(usize) -> nat|
                group_sum(manual@, f) + groups_sum(index_lists(groups@), f)
                    == #[trigger] prefix_sum(f, i as nat),
        decreases pile.len() - i,
    {
        let ghost before = index_lists(groups@);
        let ghost manual_before = manual@;
        if pile[i].is_manual {
            manual.push(i);
            proof {
                lemma_push_contains(manual_before, i);
                assert forall|f: spec_fn(usize) -> nat|
                    group_sum(manual@, f) + groups_sum(before, f) == #[trigger] prefix_sum(
                        f,
                        (i + 1) as nat,
                    ) by {
                    lemma_group_sum_push(manual_before, i, f);
                    assert(prefix_sum(f, i as nat) + f(i) == prefix_sum(f, (i + 1) as nat));
                }
                assert forall|g: int| 0 <= g < before.len() implies is_address_group(
                    pile@,
                    (i + 1) as nat,
                    #[trigger] before[g],
                ) by {
                    assert(is_address_group(pile@, i as nat, before[g]));
                }
            }
        } else {
            let g = find_address(pile, &groups, i);
            if g < groups.len() {
                assert(is_address_group(pile@, i as nat, before[g as int]));
                groups[g].push(i);
                proof {
                    let grown = before[g as int].push(i);
                    assert(index_lists(groups@) =~= before.update(g as int, grown));
                    lemma_grow_group(pile@, i, before, g as int);
                    assert forall|f: spec_fn(usize) -> nat|
                        group_sum(manual@, f) + groups_sum(index_lists(groups@), f)
                            == #[trigger] prefix_sum(f, (i + 1) as nat) by {
                        lemma_groups_sum_update(before, g as int, grown, f);
                        lemma_group_sum_push(before[g as int], i, f);
                        assert(prefix_sum(f, i as nat) + f(i) == prefix_sum(f, (i + 1) as nat));
                    }
                }
            } else {
                let mut fresh: Vec<usize> = Vec::new();
                fresh.push(i);
                groups.push(fresh);
                proof {
                    assert(index_lists(groups@) =~= before.push(seq![i]));
                    lemma_new_group(pile@, i, before);
                    assert forall|f: spec_fn(usize) -> nat|
                        group_sum(manual@, f) + groups_sum(index_lists(groups@), f)
                            == #[trigger] prefix_sum(f, (i + 1) as nat) by {
                        lemma_groups_sum_push(before, seq![i], f);
                        lemma_group_sum_one(i, f);
                        assert(prefix_sum(f, i as nat) + f(i) == prefix_sum(f, (i + 1) as nat));
                    }
                }
            }
        }
        i += 1;
    }
    (manual, groups)
}

proof fn lemma_grow_group(pile: Seq<PileUtxo>, i: usize, groups: Seq<Seq<usize>>, g: int)
    requires
        i < pile.len(),
        0 <= g < groups.len(),
        !pile[i as int].is_manual,
        are_address_groups(pile, i as nat, groups),
        cover_addresses(pile, i as nat, groups),
        group_key(pile, groups[g]) == pile[i as int].address_key@,
    ensures
        are_address_groups(pile, (i + 1) as nat, groups.update(g, groups[g].push(i))),
        cover_addresses(pile, (i + 1) as nat, groups.update(g, groups[g].push(i))),
{
    let grown = groups.update(g, groups[g].push(i));
    lemma_push_contains(groups[g], i);
    assert forall|h: int| 0 <= h < grown.len() implies is_address_group(
        pile,
        (i + 1) as nat,
        #[trigger] grown[h],
    ) && group_key(pile, grown[h]) == group_key(pile, groups[h]) by {
        assert(is_address_group(pile, i as nat, groups[h]));
        if h == g {
            assert(grown[h][0] == groups[g][0]);
            assert forall|k: int| 0 <= k < groups[g].len() implies #[trigger] groups[g][k] < i by {
                assert(groups[g].contains(groups[g][k]));
            }
        } else {
            assert(group_key(pile, groups[h]) != group_key(pile, groups[g]));
        }
    }
    assert forall|j: usize| j < i + 1 && !pile[j as int].is_manual implies #[trigger] grouped(
        grown,
        j,
    ) by {
        if j == i {
            assert(grown[g].contains(i));
        } else {
            assert(grouped(groups, j));
            let h = choose|h: int| 0 <= h < groups.len() && (#[trigger] groups[h]).contains(j);
            assert(grown[h].contains(j));
        }
    }
}

proof fn lemma_new_group(pile: Seq<PileUtxo>, i: usize, groups: Seq<Seq<usize>>)
    requires
        i < pile.len(),
        !pile[i as int].is_manual,
        are_address_groups(pile, i as nat, groups),
        cover_addresses(pile, i as nat, groups),
        forall|g: int|
            0 <= g < groups.len() ==> group_key(pile, #[trigger] groups[g])
                != pile[i as int].address_key@,
    ensures
        are_address_groups(pile, (i + 1) as nat, groups.push(seq![i])),
        cover_addresses(pile, (i + 1) as nat, groups.push(seq![i])),
{
    let grown = groups.push(seq![i]);
    assert forall|h: int| 0 <= h < grown.len() implies is_address_group(
        pile,
        (i + 1) as nat,
        #[trigger] grown[h],
    ) by {
        if h < groups.len() {
            assert(is_address_group(pile, i as nat, groups[h]));
            assert(grown[h] == groups[h]);
        } else {
            let one = seq![i];
            assert(grown[h] == one);
            assert forall|j: usize| #[trigger] one.contains(j) <==> j < i + 1
                && !pile[j as int].is_manual && pile[j as int].address_key@ == group_key(
                pile,
                one,
            ) by {
                if j == i {
                    assert(one[0] == j);
                } else if j < i && !pile[j as int].is_manual {
                    assert(grouped(groups, j));
                    let g = choose|g: int| 0 <= g < groups.len() && (#[trigger] groups[g]).contains(
                        j,
                    );
                    assert(is_address_group(pile, i as nat, groups[g]));
                }
            }
        }
    }
    assert forall|j: usize| j < i + 1 && !pile[j as int].is_manual implies #[trigger] grouped(
        grown,
        j,
    ) by {
        if j == i {
            assert(grown[groups.len() as int][0] == i);
            assert(grown[groups.len() as int].contains(i));
        } else {
            assert(grouped(groups, j));
            let h = choose|h: int| 0 <= h < groups.len() && (#[trigger] groups[h]).contains(j);
            assert(grown[h].contains(j));
        }
    }
}

/// The value of one group.
fn group_value(pile: &Vec<PileUtxo>, group: &Vec<usize>) -> (sats: u64)
    requires
        is_group(pile@, group@),
        group_sum(group@, coin_value(pile@)) <= u64::MAX,
    ensures
        sats == group_sum(group@, coin_value(pile@)),
{
    let mut sum: u64 = 0;
    let mut k: usize = 0;
    proof {
        assert(group@.take(0) =~= Seq::<usize>::empty());
    }
    while k < group.len()
        invariant
            k <= group.len(),
            is_group(pile@, group@),
            sum == group_sum(group@.take(k as int), coin_value(pile@)),
            group_sum(group@, coin_value(pile@)) <= u64::MAX,
        decreases group.len() - k,
    {
        let member = group[k];
        proof {
            lemma_group_sum_step(group@, k as int, coin_value(pile@));
        }
        sum = sum + pile[member].value;
        k += 1;
    }
    proof {
        assert(group@.take(group@.len() as int) =~= group@);
    }
    sum
}

/// The weight of one group.
fn group_weight(pile: &Vec<PileUtxo>, group: &Vec<usize>) -> (weight: u64)
    requires
        is_group(pile@, group@),
        group_sum(group@, coin_weight(pile@)) <= u64::MAX,
    ensures
        weight == group_sum(group@, coin_weight(pile@)),
{
    let mut sum: u64 = 0;
    let mut k: usize = 0;
    proof {
        assert(group@.take(0) =~= Seq::<usize>::empty());
    }
    while k < group.len()
        invariant
            k <= group.len(),
            is_group(pile@, group@),
            sum == group_sum(group@.take(k as int), coin_weight(pile@)),
            group_sum(group@, coin_weight(pile@)) <= u64::MAX,
        decreases group.len() - k,
    {
        let member = group[k];
        proof {
            lemma_group_sum_step(group@, k as int, coin_weight(pile@));
        }
        sum = sum + (txin_base_weight() + pile[member].witness_size);
        k += 1;
    }
    proof {
        assert(group@.take(group@.len() as int) =~= group@);
    }
    sum
}

proof fn lemma_group_sum_step(group: Seq<usize>, k: int, f: spec_fn(usize) -> nat)
    requires
        0 <= k < group.len(),
    ensures
        group_sum(group.take(k + 1), f) == group_sum(group.take(k), f) + f(group[k]),
        group_sum(group.take(k + 1), f) <= group_sum(group, f),
    decreases group.len(),
{
    assert(group.take(k + 1).drop_last() =~= group.take(k));
    if k + 1 < group.len() {
        lemma_group_sum_step(group.drop_last(), k, f);
        assert(group.drop_last().take(k + 1) =~= group.take(k + 1));
        assert(group.drop_last().take(k) =~= group.take(k));
    } else {
        assert(group.take(k + 1) =~= group);
    }
}

/// Groups in ascending order of value.
spec fn by_value(pile: Seq<PileUtxo>, groups: Seq<Seq<usize>>) -> bool {
    forall|g: int, h: int|
        0 <= g < h < groups.len() ==> group_sum(#[trigger] groups[g], coin_value(pile))
            <= group_sum(#[trigger] groups[h], coin_value(pile))
}

/// Inserts a group behind the groups of no greater value.
fn insert_by_value(
    pile: &Vec<PileUtxo>,
    groups: &mut Vec<Vec<usize>>,
    group: Vec<usize>,
) -> (position: usize)
    requires
        is_group(pile@, group@),
        group_sum(group@, coin_value(pile@)) <= u64::MAX,
        forall|g: int|
            0 <= g < old(groups)@.len() ==> is_group(pile@, #[trigger] index_lists(old(groups)@)[g])
                && group_sum(index_lists(old(groups)@)[g], coin_value(pile@)) <= u64::MAX,
        by_value(pile@, index_lists(old(groups)@)),
    ensures
        position <= old(groups)@.len(),
        index_lists(final(groups)@) == index_lists(old(groups)@).insert(position as int, group@),
        by_value(pile@, index_lists(final(groups)@)),
{
    let value: u64 = group_value(pile, &group);
    let mut position: usize = 0;
    while position < groups.len()
        invariant_except_break
            forall|g: int|
                0 <= g < position ==> group_sum(
                    #[trigger] index_lists(groups@)[g],
                    coin_value(pile@),
                ) <= value,
        invariant
            position <= groups.len(),
            groups@ == old(groups)@,
            forall|g: int|
                0 <= g < groups@.len() ==> is_group(pile@, #[trigger] index_lists(groups@)[g])
                    && group_sum(index_lists(groups@)[g], coin_value(pile@)) <= u64::MAX,
        ensures
            forall|g: int|
                0 <= g < position ==> group_sum(
                    #[trigger] index_lists(groups@)[g],
                    coin_value(pile@),
                ) <= value,
            position < groups.len() ==> group_sum(
                index_lists(groups@)[position as int],
                coin_value(pile@),
            ) > value,
        decreases groups.len() - position,
    {
        assert(is_group(pile@, index_lists(groups@)[position as int]));
        if group_value(pile, &groups[position]) > value {
            break;
        }
        position += 1;
    }
    let ghost before = index_lists(groups@);
    let ghost inserted = group@;
    groups.insert(position, group);
    proof {
        let after = index_lists(groups@);
        assert(after =~= before.insert(position as int, inserted));
        assert forall|g: int, h: int| 0 <= g < h < after.len() implies group_sum(
            #[trigger] after[g],
            coin_value(pile@),
        ) <= group_sum(#[trigger] after[h], coin_value(pile@)) by {
            let p = position as int;
            if h < p {
                assert(after[g] == before[g] && after[h] == before[h]);
            } else if h == p {
                assert(after[g] == before[g]);
            } else {
                assert(after[h] == before[h - 1]);
                if g < p {
                    assert(after[g] == before[g]);
                } else if g == p {
                    if h - 1 > p {
                        assert(group_sum(before[p], coin_value(pile@)) <= group_sum(
                            before[h - 1],
                            coin_value(pile@),
                        ));
                    }
                } else {
                    assert(after[g] == before[g - 1]);
                }
            }
        }
    }
    position
}

/// `done` holds the first `k` groups, each once, in some order.
spec fn rearranges(
    pile: Seq<PileUtxo>,
    groups: Seq<Seq<usize>>,
    k: int,
    done: Seq<Seq<usize>>,
) -> bool {
    &&& are_address_groups_any_order(pile, done)
    &&& forall|d: int|
        0 <= d < done.len() ==> exists|j: int| 0 <= j < k && groups[j] == #[trigger] done[d]
    &&& forall|j: int|
        0 <= j < k ==> exists|d: int| 0 <= d < done.len() && done[d] == #[trigger] groups[j]
    &&& forall|f: spec_fn(usize) -> nat| #[trigger]
        groups_sum(done, f) == groups_sum(groups.take(k), f)
}

/// Groups by address of the whole pile, no two of them with the same address.
spec fn are_address_groups_any_order(pile: Seq<PileUtxo>, groups: Seq<Seq<usize>>) -> bool {
    &&& forall|g: int|
        0 <= g < groups.len() ==> is_address_group(pile, pile.len(), #[trigger] groups[g])
    &&& forall|g: int, h: int|
        0 <= g < groups.len() && 0 <= h < groups.len() && g != h ==> group_key(
            pile,
            #[trigger] groups[g],
        ) != group_key(pile, #[trigger] groups[h])
}

proof fn lemma_rearrange_insert(
    pile: Seq<PileUtxo>,
    groups: Seq<Seq<usize>>,
    k: int,
    done: Seq<Seq<usize>>,
    p: int,
)
    requires
        are_address_groups(pile, pile.len(), groups),
        0 <= k < groups.len(),
        0 <= p <= done.len(),
        rearranges(pile, groups, k, done),
    ensures
        rearranges(pile, groups, k + 1, done.insert(p, groups[k])),
{
    let more = done.insert(p, groups[k]);
    assert forall|d: int| 0 <= d < more.len() implies exists|j: int|
        0 <= j < k + 1 && groups[j] == #[trigger] more[d] by {
        if d < p {
            assert(more[d] == done[d]);
        } else if d == p {
            assert(more[d] == groups[k]);
        } else {
            assert(more[d] == done[d - 1]);
        }
    }
    assert forall|d: int| 0 <= d < done.len() implies group_key(pile, #[trigger] done[d])
        != group_key(pile, groups[k]) by {
        let j = choose|j: int| 0 <= j < k && groups[j] == done[d];
        assert(group_key(pile, groups[j]) != group_key(pile, groups[k]));
    }
    assert forall|g: int| 0 <= g < more.len() implies is_address_group(
        pile,
        pile.len(),
        #[trigger] more[g],
    ) by {
        let j = choose|j: int| 0 <= j < k + 1 && groups[j] == more[g];
        assert(is_address_group(pile, pile.len(), groups[j]));
    }
    assert forall|g: int, h: int|
        0 <= g < more.len() && 0 <= h < more.len() && g != h implies group_key(
        pile,
        #[trigger] more[g],
    ) != group_key(pile, #[trigger] more[h]) by {
        let g2 = if g < p {
            g
        } else {
            g - 1
        };
        let h2 = if h < p {
            h
        } else {
            h - 1
        };
        if g != p {
            assert(more[g] == done[g2]);
        }
        if h != p {
            assert(more[h] == done[h2]);
        }
    }
    assert forall|j: int| 0 <= j < k + 1 implies exists|d: int|
        0 <= d < more.len() && more[d] == #[trigger] groups[j] by {
        if j == k {
            assert(more[p] == groups[j]);
        } else {
            let d = choose|d: int| 0 <= d < done.len() && done[d] == groups[j];
            if d < p {
                assert(more[d] == groups[j]);
            } else {
                assert(more[d + 1] == groups[j]);
            }
        }
    }
    assert forall|f: spec_fn(usize) -> nat| #[trigger]
        groups_sum(more, f) == groups_sum(groups.take(k + 1), f) by {
        lemma_groups_sum_insert(done, p, groups[k], f);
        assert(groups.take(k + 1) =~= groups.take(k).push(groups[k]));
        lemma_groups_sum_push(groups.take(k), groups[k], f);
    }
}

/// Parts the addresses with several coins from those with one, each part in ascending order of
/// value.
#[verifier::rlimit(40)]
#[verifier::spinoff_prover]
fn part_by_reuse(pile: &Vec<PileUtxo>, groups: &Vec<Vec<usize>>) -> (r: (
    Vec<Vec<usize>>,
    Vec<Vec<usize>>,
))
    requires
        are_address_groups(pile@, pile@.len(), index_lists(groups@)),
        groups_sum(index_lists(groups@), coin_value(pile@)) <= u64::MAX,
    ensures
        rearranges(
            pile@,
            index_lists(groups@),
            groups@.len() as int,
            index_lists(r.0@) + index_lists(r.1@),
        ),
        by_value(pile@, index_lists(r.0@)),
        by_value(pile@, index_lists(r.1@)),
        forall|g: int| 0 <= g < r.0@.len() ==> (#[trigger] index_lists(r.0@)[g]).len() > 1,
        forall|g: int| 0 <= g < r.1@.len() ==> (#[trigger] index_lists(r.1@)[g]).len() == 1,
{
    let mut reused: Vec<Vec<usize>> = Vec::new();
    let mut singles: Vec<Vec<usize>> = Vec::new();
    let ghost all = index_lists(groups@);
    let mut k: usize = 0;
    proof {
        assert(index_lists(reused@) + index_lists(singles@) =~= Seq::<Seq<usize>>::empty());
        assert(all.take(0) =~= Seq::<Seq<usize>>::empty());
    }
    while k < groups.len()
        invariant
            k <= groups.len(),
            all == index_lists(groups@),
            are_address_groups(pile@, pile@.len(), all),
            groups_sum(all, coin_value(pile@)) <= u64::MAX,
            rearranges(pile@, all, k as int, index_lists(reused@) + index_lists(singles@)),
            by_value(pile@, index_lists(reused@)),
            by_value(pile@, index_lists(singles@)),
            forall|g: int| 0 <= g < reused@.len() ==> (#[trigger] index_lists(reused@)[g]).len() > 1,
            forall|g: int|
                0 <= g < singles@.len() ==> (#[trigger] index_lists(singles@)[g]).len() == 1,
        decreases groups.len() - k,
    {
        let ghost before_reused = index_lists(reused@);
        let ghost before_singles = index_lists(singles@);
        let ghost done = before_reused + before_singles;
        let group: Vec<usize> = groups[k].clone();
        assert(group@ =~= all[k as int]);
        proof {
            assert(is_address_group(pile@, pile@.len(), all[k as int]));
            lemma_group_in_groups(all, k as int, coin_value(pile@));
            assert forall|d: int| 0 <= d < done.len() implies is_group(pile@, #[trigger] done[d])
                && group_sum(done[d], coin_value(pile@)) <= u64::MAX by {
                let j = choose|j: int| 0 <= j < k && all[j] == done[d];
                lemma_group_in_groups(all, j, coin_value(pile@));
                assert(is_address_group(pile@, pile@.len(), all[j]));
            }
            assert forall|g: int| 0 <= g < before_reused.len() implies is_group(
                pile@,
                #[trigger] before_reused[g],
            ) && group_sum(before_reused[g], coin_value(pile@)) <= u64::MAX by {
                assert(done[g] == before_reused[g]);
            }
            assert forall|g: int| 0 <= g < before_singles.len() implies is_group(
                pile@,
                #[trigger] before_singles[g],
            ) && group_sum(before_singles[g], coin_value(pile@)) <= u64::MAX by {
                assert(done[before_reused.len() + g] == before_singles[g]);
            }
        }
        if group.len() > 1 {
            let p = insert_by_value(pile, &mut reused, group);
            proof {
                lemma_rearrange_insert(pile@, all, k as int, done, p as int);
                assert(index_lists(reused@) + before_singles =~= done.insert(
                    p as int,
                    all[k as int],
                ));
                assert forall|g: int| 0 <= g < reused@.len() implies (#[trigger] index_lists(
                    reused@,
                )[g]).len() > 1 by {
                    if g < p {
                        assert(index_lists(reused@)[g] == before_reused[g]);
                    } else if g > p {
                        assert(index_lists(reused@)[g] == before_reused[g - 1]);
                    }
                }
            }
        } else {
            let p = insert_by_value(pile, &mut singles, group);
            proof {
                lemma_rearrange_insert(pile@, all, k as int, done, before_reused.len() + p);
                assert(before_reused + index_lists(singles@) =~= done.insert(
                    before_reused.len() + p,
                    all[k as int],
                ));
                assert forall|g: int| 0 <= g < singles@.len() implies (#[trigger] index_lists(
                    singles@,
                )[g]).len() == 1 by {
                    if g < p {
                        assert(index_lists(singles@)[g] == before_singles[g]);
                    } else if g > p {
                        assert(index_lists(singles@)[g] == before_singles[g - 1]);
                    }
                }
            }
        }
        k += 1;
    }
    (reused, singles)
}

/// The coins that were asked for, followed by the rearranged addresses, are a grouping.
proof fn lemma_grouping(
    pile: Seq<PileUtxo>,
    manual: Seq<usize>,
    addresses: Seq<Seq<usize>>,
    reused: Seq<Seq<usize>>,
    singles: Seq<Seq<usize>>,
    groups: Seq<Seq<usize>>,
    pre: nat,
)
    requires
        pile.len() <= usize::MAX,
        is_manual_group(pile, pile.len(), manual),
        are_address_groups(pile, pile.len(), addresses),
        cover_addresses(pile, pile.len(), addresses),
        rearranges(pile, addresses, addresses.len() as int, reused + singles),
        by_value(pile, reused),
        by_value(pile, singles),
        forall|g: int| 0 <= g < reused.len() ==> (#[trigger] reused[g]).len() > 1,
        forall|g: int| 0 <= g < singles.len() ==> (#[trigger] singles[g]).len() == 1,
        groups == (if manual.len() > 0 {
            seq![manual]
        } else {
            Seq::empty()
        }) + (reused + singles),
        pre == (if manual.len() > 0 {
            1nat
        } else {
            0
        }) + reused.len(),
    ensures
        is_grouping(pile, groups, pre),
{
    let m: int = if manual.len() > 0 {
        1
    } else {
        0
    };
    let rest = reused + singles;
    if manual.len() > 0 {
        assert(manual.contains(manual[0]));
        assert(pile[manual[0] as int].is_manual);
        assert(has_manual(pile));
        assert(groups[0] == manual);
    }
    if has_manual(pile) {
        let i = choose|i: int| 0 <= i < pile.len() && (#[trigger] pile[i]).is_manual;
        assert(manual.contains(i as usize));
        assert(manual.len() > 0);
    }
    assert forall|g: int| m <= g < groups.len() implies #[trigger] groups[g] == rest[g - m] by {}
    assert forall|g: int| 0 <= g < groups.len() implies is_group(pile, #[trigger] groups[g]) by {
        if g >= m {
            assert(is_address_group(pile, pile.len(), rest[g - m]));
        }
    }
    assert forall|i: usize| i < pile.len() implies #[trigger] grouped(groups, i) by {
        if pile[i as int].is_manual {
            assert(manual.contains(i));
            assert(groups[0].contains(i));
        } else {
            assert(grouped(addresses, i));
            let j = choose|j: int| 0 <= j < addresses.len() && (#[trigger] addresses[j]).contains(i);
            let d = choose|d: int| 0 <= d < rest.len() && rest[d] == addresses[j];
            assert(groups[d + m] == rest[d]);
            assert(groups[d + m].contains(i));
        }
    }
    assert forall|g: int, h: int, i: usize, j: usize|
        0 <= g < groups.len() && 0 <= h < groups.len() && #[trigger] groups[g].contains(i)
            && #[trigger] groups[h].contains(j) implies (g == h <==> together(pile, i, j)) by {
        if g >= m {
            assert(is_address_group(pile, pile.len(), rest[g - m]));
        }
        if h >= m {
            assert(is_address_group(pile, pile.len(), rest[h - m]));
        }
        if g >= m && h >= m && g != h {
            assert(group_key(pile, rest[g - m]) != group_key(pile, rest[h - m]));
        }
    }
    assert forall|g: int| m <= g < pre implies (#[trigger] groups[g]).len() > 1 by {
        assert(groups[g] == reused[g - m]);
    }
    assert forall|g: int| pre <= g < groups.len() implies (#[trigger] groups[g]).len() == 1 by {
        assert(groups[g] == singles[g - pre]);
    }
    assert forall|g: int, h: int| m <= g < h < pre implies group_sum(
        #[trigger] groups[g],
        coin_value(pile),
    ) <= group_sum(#[trigger] groups[h], coin_value(pile)) by {
        assert(groups[g] == reused[g - m] && groups[h] == reused[h - m]);
    }
    assert forall|g: int, h: int| pre <= g < h < groups.len() implies group_sum(
        #[trigger] groups[g],
        coin_value(pile),
    ) <= group_sum(#[trigger] groups[h], coin_value(pile)) by {
        assert(groups[g] == singles[g - pre] && groups[h] == singles[h - pre]);
    }
}

/// Groups a pile. Returns the groups and how many of them are to be spent first.
fn group_pile(pile: &Vec<PileUtxo>) -> (r: (Vec<Vec<usize>>, usize))
    requires
        prefix_sum(coin_value(pile@), pile@.len()) <= u64::MAX,
    ensures
        is_grouping(pile@, index_lists(r.0@), r.1 as nat),
        holds_each_once(pile@, index_lists(r.0@)),
{
    let count = pile.len();
    let (manual, addresses) = group_by_address(pile);
    proof {
        assert(count == pile@.len());
        assert(prefix_sum(coin_value(pile@), pile@.len()) <= u64::MAX);
    }
    let (mut reused, mut singles) = part_by_reuse(pile, &addresses);
    let ghost manual_view = manual@;
    let ghost reused_view = index_lists(reused@);
    let ghost singles_view = index_lists(singles@);
    let ghost head = if manual_view.len() > 0 {
        seq![manual_view]
    } else {
        Seq::empty()
    };
    let mut groups: Vec<Vec<usize>> = Vec::new();
    if manual.len() > 0 {
        groups.push(manual);
    }
    assert(index_lists(groups@) =~= head);
    let singles_len = singles.len();
    groups.append(&mut reused);
    groups.append(&mut singles);
    proof {
        let view = index_lists(groups@);
        assert(view =~= head + (reused_view + singles_view));
        assert forall|f: spec_fn(usize) -> nat|
            groups_sum(view, f) == #[trigger] prefix_sum(f, pile@.len()) by {
            let all = index_lists(addresses@);
            lemma_groups_sum_concat(head, reused_view + singles_view, f);
            assert(all.take(all.len() as int) =~= all);
            assert(groups_sum(reused_view + singles_view, f) == groups_sum(all, f));
            if manual_view.len() > 0 {
                assert(head =~= Seq::<Seq<usize>>::empty().push(manual_view));
                lemma_groups_sum_push(Seq::empty(), manual_view, f);
            }
            assert(group_sum(manual_view, f) + groups_sum(all, f) == prefix_sum(f, pile@.len()));
        }
        lemma_grouping(
            pile@,
            manual_view,
            index_lists(addresses@),
            reused_view,
            singles_view,
            view,
            (head.len() + reused_view.len()) as nat,
        );
    }
    let pre: usize = groups.len() - singles_len;
    (groups, pre)
}

// ---------------------------------------------------------------------------------------------
// Selecting from a pile
// ---------------------------------------------------------------------------------------------

/// The totals of the candidates are the totals of the groups.
proof fn lemma_candidate_totals(pile: Seq<PileUtxo>, groups: Seq<Seq<usize>>)
    requires
        groups_sum(groups, coin_value(pile)) <= u64::MAX,
        groups_sum(groups, coin_weight(pile)) <= u64::MAX,
        groups_sum(groups, coin_count()) <= usize::MAX,
    ensures
        selected_value(group_candidates(pile, groups), Set::full()) == groups_sum(
            groups,
            coin_value(pile),
        ),
        selected_weight(group_candidates(pile, groups), Set::full()) == groups_sum(
            groups,
            coin_weight(pile),
        ),
        selected_inputs(group_candidates(pile, groups), Set::full()) == groups_sum(
            groups,
            coin_count(),
        ),
    decreases groups.len(),
{
    if groups.len() > 0 {
        let cands = group_candidates(pile, groups);
        assert(cands.drop_last() =~= group_candidates(pile, groups.drop_last()));
        lemma_candidate_totals(pile, groups.drop_last());
        lemma_group_count(groups.last());
        assert(cands.last() == group_candidate(pile, groups.last()));
    }
}

/// Every group counts at least one coin.
proof fn lemma_groups_count(pile: Seq<PileUtxo>, groups: Seq<Seq<usize>>)
    requires
        forall|g: int| 0 <= g < groups.len() ==> is_group(pile, #[trigger] groups[g]),
    ensures
        groups.len() <= groups_sum(groups, coin_count()),
    decreases groups.len(),
{
    if groups.len() > 0 {
        let rest = groups.drop_last();
        assert forall|g: int| 0 <= g < rest.len() implies is_group(pile, #[trigger] rest[g]) by {
            assert(rest[g] == groups[g]);
        }
        lemma_groups_count(pile, rest);
        assert(is_group(pile, groups[groups.len() - 1]));
        lemma_group_count(groups.last());
    }
}

/// The candidates of a grouping stay in range.
proof fn lemma_candidates_in_range(
    pile: Seq<PileUtxo>,
    groups: Seq<Seq<usize>>,
    pre: nat,
    target: Target,
)
    requires
        pile_in_range(pile, target),
        is_grouping(pile, groups, pre),
        holds_each_once(pile, groups),
        pile.len() <= usize::MAX,
    ensures
        in_range(group_candidates(pile, groups), target),
        groups_sum(groups, coin_value(pile)) <= u64::MAX,
        groups_sum(groups, coin_weight(pile)) <= u64::MAX,
{
    lemma_prefix_count(pile.len());
    assert(prefix_sum(coin_value(pile), pile.len()) == groups_sum(groups, coin_value(pile)));
    assert(prefix_sum(coin_weight(pile), pile.len()) == groups_sum(groups, coin_weight(pile)));
    assert(prefix_sum(coin_count(), pile.len()) == groups_sum(groups, coin_count()));
    lemma_candidate_totals(pile, groups);
    lemma_groups_count(pile, groups);
}

/// One candidate for each group.
fn build_candidates(pile: &Vec<PileUtxo>, groups: &Vec<Vec<usize>>) -> (r: Vec<Candidate>)
    requires
        forall|g: int|
            0 <= g < groups@.len() ==> is_group(pile@, #[trigger] index_lists(groups@)[g]),
        groups_sum(index_lists(groups@), coin_value(pile@)) <= u64::MAX,
        groups_sum(index_lists(groups@), coin_weight(pile@)) <= u64::MAX,
    ensures
        r@ == group_candidates(pile@, index_lists(groups@)),
{
    let ghost view = index_lists(groups@);
    let mut candidates: Vec<Candidate> = Vec::new();
    let mut g: usize = 0;
    while g < groups.len()
        invariant
            g <= groups.len(),
            view == index_lists(groups@),
            forall|h: int| 0 <= h < view.len() ==> is_group(pile@, #[trigger] view[h]),
            groups_sum(view, coin_value(pile@)) <= u64::MAX,
            groups_sum(view, coin_weight(pile@)) <= u64::MAX,
            candidates@ == group_candidates(pile@, view.take(g as int)),
        decreases groups.len() - g,
    {
        proof {
            assert(is_group(pile@, view[g as int]));
            lemma_group_in_groups(view, g as int, coin_value(pile@));
            lemma_group_in_groups(view, g as int, coin_weight(pile@));
        }
        let value: u64 = group_value(pile, &groups[g]);
        let weight: u64 = group_weight(pile, &groups[g]);
        candidates.push(
            Candidate { value, weight, input_count: groups[g].len(), is_segwit: true },
        );
        proof {
            assert(view.take(g + 1) =~= view.take(g as int).push(view[g as int]));
            assert(candidates@ =~= group_candidates(pile@, view.take(g + 1)));
        }
        g += 1;
    }
    proof {
        assert(view.take(view.len() as int) =~= view);
    }
    candidates
}

/// The outpoints of the selected groups, group by group.
fn collect_outpoints(pile: &Vec<PileUtxo>, groups: &Vec<Vec<usize>>, indices: &Vec<usize>, Ghost(
    selected,
): Ghost<Set<usize>>) -> (r: Vec<OutPoint>)
    requires
        forall|g: int|
            0 <= g < groups@.len() ==> is_group(pile@, #[trigger] index_lists(groups@)[g]),
        lists_ascending(indices@, selected),
    ensures
        r@ == spent_outpoints(pile@, index_lists(groups@), selected),
{
    let ghost view = index_lists(groups@);
    let mut r: Vec<OutPoint> = Vec::new();
    let mut g: usize = 0;
    let mut next: usize = 0;
    while g < groups.len()
        invariant
            g <= groups.len(),
            next <= indices.len(),
            view == index_lists(groups@),
            forall|h: int| 0 <= h < view.len() ==> is_group(pile@, #[trigger] view[h]),
            lists_ascending(indices@, selected),
            forall|k: int| 0 <= k < next ==> indices@[k] < g,
            forall|k: int| next <= k < indices@.len() ==> indices@[k] >= g,
            r@ == spent_outpoints(pile@, view.take(g as int), selected),
        decreases groups.len() - g,
    {
        let ghost before = r@;
        proof {
            assert(view.take(g + 1).drop_last() =~= view.take(g as int));
            assert(view.take(g + 1).last() == view[g as int]);
            assert(is_group(pile@, view[g as int]));
        }
        if next < indices.len() && indices[next] == g {
            proof {
                assert(indices@.contains(g));
            }
            let mut k: usize = 0;
            while k < groups[g].len()
                invariant
                    g < groups.len(),
                    k <= groups@[g as int].len(),
                    view == index_lists(groups@),
                    is_group(pile@, view[g as int]),
                    r@ == before + group_outpoints(pile@, view[g as int].take(k as int)),
                decreases groups@[g as int].len() - k,
            {
                let member = groups[g][k];
                r.push(pile[member].outpoint);
                proof {
                    let group = view[g as int];
                    assert(group.take(k + 1) =~= group.take(k as int).push(group[k as int]));
                    assert(r@ =~= before + group_outpoints(pile@, group.take(k + 1)));
                }
                k += 1;
            }
            proof {
                let group = view[g as int];
                assert(group.take(group.len() as int) =~= group);
            }
            next += 1;
        } else {
            proof {
                if indices@.contains(g) {
                    let k = choose|k: int| 0 <= k < indices@.len() && indices@[k] == g;
                    assert(k >= next);
                    if k > next {
                        assert(indices@[next as int] < indices@[k]);
                    }
                }
                assert(!selected.contains(g));
                assert(before + Seq::<OutPoint>::empty() =~= before);
            }
        }
        g += 1;
    }
    proof {
        assert(view.take(view.len() as int) =~= view);
    }
    r
}

/// What selection from a pile may come to: the outcome for one of its groupings.
///
/// A pile has several groupings only where addresses hold the same value.
pub open spec fn is_pile_outcome(
    pile: Seq<PileUtxo>,
    target: Target,
    long_term_feerate: FeeRate,
    change_policy: ChangePolicy,
    outcome: Result<Seq<OutPoint>, int>,
) -> bool {
    exists|groups: Seq<Seq<usize>>, pre: nat| #[trigger]
        is_grouping(pile, groups, pre) && is_outcome_for(
            pile,
            groups,
            pre,
            target,
            long_term_feerate,
            change_policy,
            outcome,
        )
}

/// `outcome` is what selection over the given groups comes to, and a success is sound.
pub open spec fn is_outcome_for(
    pile: Seq<PileUtxo>,
    groups: Seq<Seq<usize>>,
    pre: nat,
    target: Target,
    long_term_feerate: FeeRate,
    change_policy: ChangePolicy,
    outcome: Result<Seq<OutPoint>, int>,
) -> bool {
    let candidates = group_candidates(pile, groups);
    &&& holds_each_once(pile, groups)
    &&& in_range(candidates, target)
    &&& outcome == grouping_outcome(pile, groups, pre, target, long_term_feerate, change_policy)
    &&& grouped_selection(candidates, pre, target, long_term_feerate, change_policy) matches Ok(
        selected,
    ) ==> is_sound_selection(candidates, pre, target, selected)
}

/// Runs coin selection over one pile of coins.
///
/// 1. The coins that were asked for form one group that is selected first.
/// 2. The others are grouped by address. Addresses with several coins are selected next, in
///    ascending order of value, so that coins which are linked already are spent first.
/// 3. If that meets the target, nothing else is selected.
/// 4. Otherwise the lowest-fee search adds addresses with a single coin.
///
/// Returns the selected outpoints group by group, or the missing satoshis.
pub fn select_from_pile(
    pile: Vec<PileUtxo>,
    target: Target,
    long_term_feerate: FeeRate,
    change_policy: ChangePolicy,
) -> (r: Result<Vec<OutPoint>, u64>)
    requires
        pile_in_range(pile@, target),
        search_in_range(target, long_term_feerate, change_policy),
    ensures
        r matches Ok(outpoints) ==> is_pile_outcome(
            pile@,
            target,
            long_term_feerate,
            change_policy,
            Ok(outpoints@),
        ),
        r matches Err(sats) ==> sats <= 0x8000_0000_0000_0000 && is_pile_outcome(
            pile@,
            target,
            long_term_feerate,
            change_policy,
            Err(sats as int),
        ),
{
    let count = pile.len();
    let (groups, pre) = group_pile(&pile);
    let ghost view = index_lists(groups@);
    proof {
        assert(count == pile@.len());
        lemma_candidates_in_range(pile@, view, pre as nat, target);
    }
    let candidates = build_candidates(&pile, &groups);
    let selection = select_grouped(&candidates, pre, target, long_term_feerate, change_policy);
    match selection {
        Ok(indices) => {
            let ghost selected = grouped_selection(
                candidates@,
                pre as nat,
                target,
                long_term_feerate,
                change_policy,
            )->Ok_0;
            let outpoints = collect_outpoints(&pile, &groups, &indices, Ghost(selected));
            Ok(outpoints)
        },
        Err(sats) => Err(sats),
    }
}

} // verus!
