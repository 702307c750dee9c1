//! Splitting a target amount and its change into chunks of like size.

use crate::amounts::{
    add_up, is_variation, law_variation_is_even, law_variation_keeps_the_total, lemma_sum_one, sum,
    vary_amounts,
};
use vstd::prelude::*;

verus! {

/// The number of target chunks where no like-sized split is found.
pub const MIN_TARGET_CHUNKS: usize = 2;

/// The largest number of chunks that an amount is split into.
pub const MAX_SPLITS: usize = 5;

/// The smallest change chunk, in satoshis: below it a chunk may fall under the dust limit once
/// its fee is paid. The dust limit of a P2WPKH output is 294, the fee per chunk about 300.
pub const MIN_CHANGE_CHUNK: u64 = 600;

/// The dust limit of a P2WPKH output, in satoshis: no amount that reaches it is split below it, and
/// no output below it is made of the change.
pub const DUST_LIMIT: u64 = 294;

pub open spec fn max(a: int, b: int) -> int {
    if a >= b {
        a
    } else {
        b
    }
}

pub open spec fn abs_diff(a: int, b: int) -> int {
    if a >= b {
        a - b
    } else {
        b - a
    }
}

/// Two chunk sizes differ by at most 15 % of the larger one.
pub open spec fn is_close(a: int, b: int) -> bool {
    max(a, b) > 0 && 20 * abs_diff(a, b) <= 3 * max(a, b)
}

/// The pair `p` of chunk sizes differs by less than the pair `q` does, each difference taken
/// relative to the larger size of its pair.
pub open spec fn is_closer(p: (int, int), q: (int, int)) -> bool {
    abs_diff(p.0, p.1) * max(q.0, q.1) < abs_diff(q.0, q.1) * max(p.0, p.1)
}

/// The mean chunk sizes for a number of target chunks and a number of change chunks.
pub open spec fn means(target: u64, change: u64, split: (int, int)) -> (int, int) {
    (target as int / split.0, change as int / split.1)
}

/// Change chunks of this number are large enough.
pub open spec fn is_viable(change: u64, num_change_chunks: int) -> bool {
    change as int / num_change_chunks >= MIN_CHANGE_CHUNK
}

/// Some chunk is below the dust limit.
pub open spec fn has_dust(chunks: Seq<u64>) -> bool {
    exists|k: int| 0 <= k < chunks.len() && #[trigger] chunks[k] < DUST_LIMIT
}

/// The chunks of an amount, or the amount in one piece where that spares a chunk of dust.
pub open spec fn unless_dust(amount: u64, chunks: Seq<u64>) -> Seq<u64> {
    if amount >= DUST_LIMIT && has_dust(chunks) {
        seq![amount]
    } else {
        chunks
    }
}

/// The amount varied over two chunks, or in one piece where that spares a chunk of dust.
pub open spec fn is_pair(amount: u64, chunks: Seq<u64>) -> bool {
    exists|varied: Seq<u64>| #[trigger]
        is_variation(amount, MIN_TARGET_CHUNKS as nat, varied) && chunks == unless_dust(
            amount,
            varied,
        )
}

/// The change that gets an output: change below the dust limit is left to the fee.
pub open spec fn kept_change(change: u64) -> u64 {
    if change < DUST_LIMIT {
        0
    } else {
        change
    }
}

/// The change in one piece, where that is no dust, or varied over several chunks.
pub open spec fn is_change_split(change: u64, num_chunks: nat, chunks: Seq<u64>) -> bool {
    if num_chunks == 1 {
        chunks == seq![kept_change(change)]
    } else {
        is_variation(change, num_chunks, chunks)
    }
}

/// A split whose change chunks are large enough and whose chunks are close.
pub open spec fn is_close_split(target: u64, change: u64, split: (int, int)) -> bool {
    is_viable(change, split.1) && is_close(
        means(target, change, split).0,
        means(target, change, split).1,
    )
}

/// The splits that compete: those whose change chunks are large enough, except where fewer
/// change chunks are close for the same number of target chunks.
pub open spec fn is_candidate(target: u64, change: u64, max_splits: int, split: (int, int)) -> bool {
    &&& 1 <= split.0 <= max_splits
    &&& 1 <= split.1 <= max_splits
    &&& is_viable(change, split.1)
    &&& forall|fewer: int|
        1 <= fewer < split.1 ==> !#[trigger] is_close_split(target, change, (split.0, fewer))
}

/// One chunk each, where the search starts, and the candidates.
pub open spec fn is_contender(target: u64, change: u64, max_splits: int, split: (int, int)) -> bool {
    split == (1int, 1int) || is_candidate(target, change, max_splits, split)
}

pub open spec fn comes_before(p: (int, int), q: (int, int)) -> bool {
    p.0 < q.0 || (p.0 == q.0 && p.1 < q.1)
}

/// The first split of those with the smallest relative difference.
pub open spec fn is_best_split(
    target: u64,
    change: u64,
    max_splits: int,
    best: (int, int),
) -> bool {
    &&& is_contender(target, change, max_splits, best)
    &&& forall|p: (int, int)| #[trigger]
        is_contender(target, change, max_splits, p) ==> !is_closer(
            means(target, change, p),
            means(target, change, best),
        )
    &&& forall|p: (int, int)|
        #[trigger] is_contender(target, change, max_splits, p) && comes_before(p, best) ==> is_closer(
            means(target, change, best),
            means(target, change, p),
        )
}

/// The change varied over two chunks, or in one piece where that spares a chunk of dust.
pub open spec fn is_change_pair(change: u64, chunks: Seq<u64>) -> bool {
    if change < DUST_LIMIT {
        chunks == seq![0u64]
    } else {
        is_pair(change, chunks)
    }
}

/// The amounts are varied over the best split where its chunks are close. Where not, the target
/// is in two chunks beside the change in one piece.
pub open spec fn is_split_over(
    target: u64,
    change: u64,
    best: (int, int),
    target_chunks: Seq<u64>,
    change_chunks: Seq<u64>,
) -> bool {
    if is_close(means(target, change, best).0, means(target, change, best).1) {
        is_variation(target, best.0 as nat, target_chunks) && is_change_split(
            change,
            best.1 as nat,
            change_chunks,
        )
    } else {
        is_pair(target, target_chunks) && is_change_split(change, 1, change_chunks)
    }
}

/// What the search for like-sized chunks may come to.
pub open spec fn is_harmony_split(
    target: u64,
    change: u64,
    max_splits: int,
    target_chunks: Seq<u64>,
    change_chunks: Seq<u64>,
) -> bool {
    exists|best: (int, int)| #[trigger]
        is_best_split(target, change, max_splits, best) && is_split_over(
            target,
            change,
            best,
            target_chunks,
            change_chunks,
        )
}

/// The mean of a list of amounts, rounded down.
pub open spec fn mean(amounts: Seq<u64>) -> int {
    sum(amounts) as int / amounts.len() as int
}

/// The score of a transaction by its inputs and outputs, in quarters: two for an input, one for
/// a target output, three quarters for a change output. No score is given to a single target
/// beside a single change, nor where the mean sizes differ by more than 15 % of the larger one.
pub open spec fn fee_score(
    num_inputs: nat,
    target_chunks: Seq<u64>,
    change_chunks: Seq<u64>,
) -> Option<nat> {
    let (mean_target, mean_change) = (mean(target_chunks), mean(change_chunks));
    if target_chunks.len() == 1 && change_chunks.len() == 1 {
        None
    } else if 20 * abs_diff(mean_target, mean_change) > 3 * max(mean_target, mean_change) {
        None
    } else {
        Some(8 * num_inputs + 4 * target_chunks.len() + 3 * change_chunks.len())
    }
}

/// The first score is at most the second, no score being worse than any.
pub open spec fn scores_no_worse(first: Option<nat>, second: Option<nat>) -> bool {
    match (first, second) {
        (_, None) => true,
        (None, Some(_)) => false,
        (Some(a), Some(b)) => a <= b,
    }
}

// ---------------------------------------------------------------------------------------------
// The search
// ---------------------------------------------------------------------------------------------

fn distance(a: u64, b: u64) -> (r: (u64, u64))
    ensures
        r.0 == abs_diff(a as int, b as int),
        r.1 == max(a as int, b as int),
{
    if a >= b {
        (a - b, a)
    } else {
        (b - a, b)
    }
}

fn close(a: u64, b: u64) -> (r: bool)
    ensures
        r == is_close(a as int, b as int),
{
    let (diff, larger) = distance(a, b);
    larger > 0 && 20 * diff as u128 <= 3 * larger as u128
}

fn closer(p: (u64, u64), q: (u64, u64)) -> (r: bool)
    ensures
        r == is_closer((p.0 as int, p.1 as int), (q.0 as int, q.1 as int)),
{
    let (p_diff, p_larger) = distance(p.0, p.1);
    let (q_diff, q_larger) = distance(q.0, q.1);
    assert(p_diff * q_larger <= 0xffff_ffff_ffff_ffff * 0xffff_ffff_ffff_ffff
        && q_diff * p_larger <= 0xffff_ffff_ffff_ffff * 0xffff_ffff_ffff_ffff)
        by (nonlinear_arith)
        requires
            p_diff <= 0xffff_ffff_ffff_ffff,
            q_diff <= 0xffff_ffff_ffff_ffff,
            p_larger <= 0xffff_ffff_ffff_ffff,
            q_larger <= 0xffff_ffff_ffff_ffff,
    ;
    (p_diff as u128) * (q_larger as u128) < (q_diff as u128) * (p_larger as u128)
}

proof fn lemma_closer_than_no_closer(a: (int, int), b: (int, int), p: (int, int))
    requires
        0 <= a.0,
        0 <= a.1,
        0 <= b.0,
        0 <= b.1,
        0 <= p.0,
        0 <= p.1,
        is_closer(a, b),
        !is_closer(p, b),
        max(p.0, p.1) > 0,
    ensures
        is_closer(a, p),
        !is_closer(p, a),
{
    let (da, ma) = (abs_diff(a.0, a.1), max(a.0, a.1));
    let (db, mb) = (abs_diff(b.0, b.1), max(b.0, b.1));
    let (dp, mp) = (abs_diff(p.0, p.1), max(p.0, p.1));
    assert(da * mp < dp * ma) by (nonlinear_arith)
        requires
            0 <= da <= ma,
            0 <= db <= mb,
            0 <= dp <= mp,
            mp > 0,
            da * mb < db * ma,
            db * mp <= dp * mb,
    {
        assert(mb > 0);
        assert(ma > 0);
        assert((da * mb) * mp < (db * ma) * mp);
        assert((db * mp) * ma <= (dp * mb) * ma);
        assert((db * ma) * mp == (db * mp) * ma);
        assert((da * mp) * mb == (da * mb) * mp);
        assert((dp * ma) * mb == (dp * mb) * ma);
        assert((da * mp) * mb < (dp * ma) * mb);
    }
}

proof fn lemma_search_step(
    target: u64,
    change: u64,
    max_splits: int,
    best: (int, int),
    next: (int, int),
)
    requires
        best == (1int, 1int) || (is_candidate(target, change, max_splits, best) && comes_before(
            best,
            next,
        )),
        is_candidate(target, change, max_splits, next),
        forall|p: (int, int)| #[trigger]
            is_contender(target, change, max_splits, p) && comes_before(p, next) ==> !is_closer(
                means(target, change, p),
                means(target, change, best),
            ),
        is_closer(means(target, change, next), means(target, change, best)),
    ensures
        next != (1int, 1int),
        forall|p: (int, int)|
            #[trigger] is_contender(target, change, max_splits, p)
                && comes_before(p, next) ==> is_closer(
                means(target, change, next),
                means(target, change, p),
            ) && !is_closer(means(target, change, p), means(target, change, next)),
{
    let a = means(target, change, next);
    let b = means(target, change, best);
    lemma_means_not_negative(target, change, next);
    lemma_means_not_negative(target, change, best);
    if next == (1int, 1int) {
        assert(best == (1int, 1int));
        assert(false);
    }
    assert forall|p: (int, int)|
        #[trigger] is_contender(target, change, max_splits, p)
            && comes_before(p, next) implies is_closer(a, means(target, change, p)) && !is_closer(
        means(target, change, p),
        a,
    ) by {
        let q = means(target, change, p);
        lemma_means_not_negative(target, change, p);
        if p == best {
            assert(q == b);
        } else if is_candidate(target, change, max_splits, p) {
            lemma_closer_than_no_closer(a, b, q);
        } else {
            // The start is either viable, hence a candidate, or smaller than every split.
            assert(p == (1int, 1int));
            assert(is_candidate(target, change, max_splits, best));
            lemma_viable_for_one(change, best.1);
            assert(false);
        }
    }
}

proof fn lemma_means_not_negative(target: u64, change: u64, split: (int, int))
    requires
        1 <= split.0,
        1 <= split.1,
    ensures
        0 <= means(target, change, split).0 <= target,
        0 <= means(target, change, split).1 <= change,
{
    vstd::arithmetic::div_mod::lemma_div_pos_is_pos(target as int, split.0);
    vstd::arithmetic::div_mod::lemma_div_pos_is_pos(change as int, split.1);
    vstd::arithmetic::div_mod::lemma_div_is_ordered_by_denominator(target as int, 1, split.0);
    vstd::arithmetic::div_mod::lemma_div_is_ordered_by_denominator(change as int, 1, split.1);
}

proof fn lemma_viable_for_one(change: u64, n: int)
    requires
        1 <= n,
        is_viable(change, n),
    ensures
        is_viable(change, 1),
{
    vstd::arithmetic::div_mod::lemma_div_is_ordered_by_denominator(change as int, 1, n);
}

/// Searches for the best split.
fn find_split(target: u64, change: u64, max_splits: usize) -> (best: (usize, usize))
    ensures
        is_best_split(target, change, max_splits as int, (best.0 as int, best.1 as int)),
        1 <= best.0,
        1 <= best.1,
{
    let mut best: (usize, usize) = (1, 1);
    let mut best_means: (u64, u64) = (target, change);
    let mut num_target: usize = 0;
    while num_target < max_splits
        invariant
            num_target <= max_splits,
            1 <= best.0,
            1 <= best.1,
            (best_means.0 as int, best_means.1 as int) == means(
                target,
                change,
                (best.0 as int, best.1 as int),
            ),
            best == (1usize, 1usize) || (is_candidate(
                target,
                change,
                max_splits as int,
                (best.0 as int, best.1 as int),
            ) && best.0 <= num_target),
            forall|p: (int, int)| #[trigger]
                is_contender(target, change, max_splits as int, p) && (p.0 <= num_target || p == (
                1int,
                1int,
            ))
                    ==> !is_closer(
                    means(target, change, p),
                    means(target, change, (best.0 as int, best.1 as int)),
                ),
            forall|p: (int, int)|
                #[trigger] is_contender(target, change, max_splits as int, p) && comes_before(
                    p,
                    (best.0 as int, best.1 as int),
                ) ==> is_closer(
                    means(target, change, (best.0 as int, best.1 as int)),
                    means(target, change, p),
                ),
        decreases max_splits - num_target,
    {
        num_target = num_target + 1;
        let mut num_change: usize = 0;
        let mut found_close: bool = false;
        while num_change < max_splits && !found_close
            invariant
                1 <= num_target <= max_splits,
                num_change <= max_splits,
                1 <= best.0,
                1 <= best.1,
                (best_means.0 as int, best_means.1 as int) == means(
                    target,
                    change,
                    (best.0 as int, best.1 as int),
                ),
                best == (1usize, 1usize) || (is_candidate(
                    target,
                    change,
                    max_splits as int,
                    (best.0 as int, best.1 as int),
                ) && (best.0 < num_target || (best.0 == num_target && best.1 <= num_change))),
                found_close ==> 1 <= num_change && is_close_split(
                    target,
                    change,
                    (num_target as int, num_change as int),
                ),
                !found_close ==> forall|fewer: int|
                    1 <= fewer <= num_change ==> !#[trigger] is_close_split(
                        target,
                        change,
                        (num_target as int, fewer),
                    ),
                forall|p: (int, int)| #[trigger]
                    is_contender(target, change, max_splits as int, p) && (p == (1int, 1int)
                        || comes_before(p, (num_target as int, num_change + 1))) ==> !is_closer(
                        means(target, change, p),
                        means(target, change, (best.0 as int, best.1 as int)),
                    ),
                forall|p: (int, int)|
                    #[trigger] is_contender(target, change, max_splits as int, p) && comes_before(
                        p,
                        (best.0 as int, best.1 as int),
                    ) ==> is_closer(
                        means(target, change, (best.0 as int, best.1 as int)),
                        means(target, change, p),
                    ),
            decreases max_splits - num_change,
        {
            num_change = num_change + 1;
            let ghost next = (num_target as int, num_change as int);
            let mean_target: u64 = target / num_target as u64;
            let mean_change: u64 = change / num_change as u64;
            if mean_change >= MIN_CHANGE_CHUNK {
                assert(is_candidate(target, change, max_splits as int, next));
                if closer((mean_target, mean_change), best_means) {
                    proof {
                        lemma_search_step(
                            target,
                            change,
                            max_splits as int,
                            (best.0 as int, best.1 as int),
                            next,
                        );
                    }
                    best = (num_target, num_change);
                    best_means = (mean_target, mean_change);
                }
                if close(mean_target, mean_change) {
                    found_close = true;
                    assert(is_close_split(target, change, next));
                }
            }
            assert(!found_close ==> !is_close_split(target, change, next));
            assert forall|p: (int, int)| #[trigger]
                is_contender(target, change, max_splits as int, p) && (p == (1int, 1int)
                    || comes_before(p, (num_target as int, num_change + 1))) implies !is_closer(
                means(target, change, p),
                means(target, change, (best.0 as int, best.1 as int)),
            ) by {
                if !comes_before(p, next) {
                    assert(p == next);
                }
            }
        }
        assert forall|p: (int, int)| #[trigger]
            is_contender(target, change, max_splits as int, p) && (p.0 <= num_target || p == (
                1int,
                1int,
            )) implies !is_closer(
            means(target, change, p),
            means(target, change, (best.0 as int, best.1 as int)),
        ) by {
            if p != (1int, 1int) && !comes_before(p, (num_target as int, num_change + 1)) {
                assert(p.0 == num_target && p.1 > num_change);
                assert(found_close);
                assert(is_close_split(target, change, (p.0, num_change as int)));
                assert(false);
            }
        }
    }
    best
}

/// Varies an amount over two chunks, or keeps it in one piece where that spares a chunk of dust.
pub fn vary_in_two(amount: u64) -> (chunks: Vec<u64>)
    ensures
        is_pair(amount, chunks@),
{
    let varied = vary_amounts(amount, MIN_TARGET_CHUNKS);
    if amount < DUST_LIMIT || !any_dust(&varied) {
        return varied;
    }
    let mut whole: Vec<u64> = Vec::new();
    whole.push(amount);
    assert(whole@ =~= unless_dust(amount, varied@));
    whole
}

fn any_dust(chunks: &Vec<u64>) -> (r: bool)
    ensures
        r == has_dust(chunks@),
{
    let mut i: usize = 0;
    while i < chunks.len()
        invariant
            i <= chunks.len(),
            forall|k: int| 0 <= k < i ==> #[trigger] chunks@[k] >= DUST_LIMIT,
        decreases chunks.len() - i,
    {
        if chunks[i] < DUST_LIMIT {
            return true;
        }
        i += 1;
    }
    false
}

/// Varies the change over a number of chunks. Change below the dust limit gets no output.
pub fn split_change(change: u64, num_chunks: usize) -> (chunks: Vec<u64>)
    ensures
        is_change_split(change, num_chunks as nat, chunks@),
{
    if num_chunks != 1 {
        return vary_amounts(change, num_chunks);
    }
    let mut chunks: Vec<u64> = Vec::new();
    chunks.push(
        if change < DUST_LIMIT {
            0
        } else {
            change
        },
    );
    assert(chunks@ =~= seq![kept_change(change)]);
    chunks
}

/// Varies the change over two chunks, or keeps it in one piece where that spares a chunk of dust.
/// Change below the dust limit gets no output.
pub fn split_change_in_two(change: u64) -> (chunks: Vec<u64>)
    ensures
        is_change_pair(change, chunks@),
{
    if change < DUST_LIMIT {
        split_change(change, 1)
    } else {
        vary_in_two(change)
    }
}

/// Splits a target amount and its change into chunks of like size.
///
/// Of all numbers of chunks up to `max_splits` those with the smallest relative difference
/// between the mean sizes win; more change chunks than a close split needs are not looked at.
/// No chunk is dust, but for those of a target that is dust itself: change below the dust limit is
/// left out, and the target stays in one piece where one of two chunks would be dust.
pub fn ct_harmony_split(target: u64, target_change: u64, max_splits: usize) -> (r: (
    Vec<u64>,
    Vec<u64>,
))
    ensures
        is_harmony_split(target, target_change, max_splits as int, r.0@, r.1@),
{
    let best = find_split(target, target_change, max_splits);
    let mean_target: u64 = target / best.0 as u64;
    let mean_change: u64 = target_change / best.1 as u64;
    let ghost split = (best.0 as int, best.1 as int);
    assert(is_best_split(target, target_change, max_splits as int, split));
    let (targets, changes) = if close(mean_target, mean_change) {
        (vary_amounts(target, best.0), split_change(target_change, best.1))
    } else {
        (vary_in_two(target), split_change(target_change, 1))
    };
    assert(is_split_over(target, target_change, split, targets@, changes@));
    (targets, changes)
}

/// Scores a split by the size of its transaction.
pub fn simple_fee_optimization(
    num_inputs: usize,
    target_chunks: &Vec<u64>,
    change_chunks: &Vec<u64>,
) -> (score: Option<u128>)
    requires
        target_chunks.len() > 0,
        change_chunks.len() > 0,
        sum(target_chunks@) <= u64::MAX,
        sum(change_chunks@) <= u64::MAX,
    ensures
        match score {
            Some(s) => fee_score(num_inputs as nat, target_chunks@, change_chunks@) == Some(
                s as nat,
            ),
            None => fee_score(num_inputs as nat, target_chunks@, change_chunks@) is None,
        },
{
    if target_chunks.len() == 1 && change_chunks.len() == 1 {
        return None;
    }
    let mean_target: u64 = add_up(target_chunks) / target_chunks.len() as u64;
    let mean_change: u64 = add_up(change_chunks) / change_chunks.len() as u64;
    let (diff, larger) = distance(mean_target, mean_change);
    if 20 * diff as u128 > 3 * larger as u128 {
        return None;
    }
    Some(
        8 * num_inputs as u128 + 4 * target_chunks.len() as u128 + 3 * change_chunks.len() as u128,
    )
}

// ---------------------------------------------------------------------------------------------
// Laws
// ---------------------------------------------------------------------------------------------

/// The change chunks sum up to the change that is kept.
proof fn lemma_change_split_sum(change: u64, num_chunks: nat, chunks: Seq<u64>)
    requires
        num_chunks > 0,
        num_chunks == 1 || is_viable(change, num_chunks as int),
        is_change_split(change, num_chunks, chunks),
    ensures
        sum(chunks) == kept_change(change),
        chunks.len() > 0,
{
    if num_chunks == 1 {
        lemma_sum_one(kept_change(change));
    } else {
        law_variation_keeps_the_total(change, num_chunks, chunks);
        lemma_viable_for_one(change, num_chunks as int);
    }
}

/// The chunks of an amount are no dust where they are not much smaller than the smallest change
/// chunk in the mean.
proof fn lemma_chunk_is_not_dust(amount: u64, num_chunks: nat, chunks: Seq<u64>, k: int)
    requires
        2 <= num_chunks <= 5,
        20 * (amount as int / num_chunks as int) >= 17 * MIN_CHANGE_CHUNK,
        is_variation(amount, num_chunks, chunks),
        0 <= k < chunks.len(),
    ensures
        chunks[k] >= DUST_LIMIT,
{
    law_variation_is_even(amount, num_chunks, chunks, k);
    let (a, n, c) = (amount as int, num_chunks as int, chunks[k] as int);
    assert(c >= 294) by (nonlinear_arith)
        requires
            n > 0,
            a / n >= 510,
            285 * a <= 344 * (n * c) + 860 * n,
    {
        assert(a >= n * (a / n));
        assert(n * (a / n) >= n * 510);
        if c < 294 {
            assert(n * c <= n * 293);
        }
    }
}

/// The chunks of a pair sum up to the amount, and are no dust unless the amount is.
pub proof fn lemma_pair(amount: u64, chunks: Seq<u64>)
    requires
        is_pair(amount, chunks),
    ensures
        sum(chunks) == amount,
        1 <= chunks.len() <= 2,
        amount >= DUST_LIMIT ==> !has_dust(chunks),
{
    let varied = choose|varied: Seq<u64>| #[trigger]
        is_variation(amount, MIN_TARGET_CHUNKS as nat, varied) && chunks == unless_dust(
            amount,
            varied,
        );
    law_variation_keeps_the_total(amount, MIN_TARGET_CHUNKS as nat, varied);
    lemma_sum_one(amount);
}

/// The chunks of the change in two sum up to the change that is kept, and none of them is dust.
pub proof fn lemma_change_pair(change: u64, chunks: Seq<u64>)
    requires
        is_change_pair(change, chunks),
    ensures
        sum(chunks) == kept_change(change),
        chunks.len() > 0,
        forall|k: int|
            0 <= k < chunks.len() ==> #[trigger] chunks[k] == 0 || chunks[k] >= DUST_LIMIT,
{
    if change < DUST_LIMIT {
        lemma_sum_one(0);
    } else {
        lemma_pair(change, chunks);
        assert forall|k: int| 0 <= k < chunks.len() implies #[trigger] chunks[k] == 0 || chunks[k]
            >= DUST_LIMIT by {
            assert(!(chunks[k] < DUST_LIMIT));
        }
    }
}

/// An amount comes in one piece only where two chunks could be dust: from 655 satoshis on it comes
/// in two.
pub proof fn law_pairs_come_in_two(amount: u64, chunks: Seq<u64>)
    requires
        is_pair(amount, chunks),
        amount < DUST_LIMIT || amount >= 655,
    ensures
        is_variation(amount, MIN_TARGET_CHUNKS as nat, chunks),
        chunks.len() == 2,
{
    let varied = choose|varied: Seq<u64>| #[trigger]
        is_variation(amount, MIN_TARGET_CHUNKS as nat, varied) && chunks == unless_dust(
            amount,
            varied,
        );
    law_variation_keeps_the_total(amount, MIN_TARGET_CHUNKS as nat, varied);
    if amount >= 655 {
        assert forall|k: int| 0 <= k < varied.len() implies #[trigger] varied[k] >= DUST_LIMIT by {
            law_variation_is_even(amount, MIN_TARGET_CHUNKS as nat, varied, k);
        }
    }
}

/// The change chunks are no dust: each is empty or reaches the dust limit.
proof fn lemma_change_is_not_dust(change: u64, num_chunks: nat, chunks: Seq<u64>)
    requires
        num_chunks > 0,
        num_chunks == 1 || is_viable(change, num_chunks as int),
        is_change_split(change, num_chunks, chunks),
    ensures
        forall|k: int|
            0 <= k < chunks.len() ==> #[trigger] chunks[k] == 0 || chunks[k] >= DUST_LIMIT,
{
    if 2 <= num_chunks <= 5 {
        assert forall|k: int| 0 <= k < chunks.len() implies #[trigger] chunks[k] == 0 || chunks[k]
            >= DUST_LIMIT by {
            lemma_chunk_is_not_dust(change, num_chunks, chunks, k);
        }
    } else if num_chunks > 5 {
        lemma_viable_for_one(change, num_chunks as int);
    }
}

/// A split loses nothing and adds nothing: the target chunks sum up to the target, the change
/// chunks to the change that is no dust, and there is at least one of each.
pub proof fn law_harmony_split_keeps_the_amounts(
    target: u64,
    change: u64,
    max_splits: int,
    target_chunks: Seq<u64>,
    change_chunks: Seq<u64>,
)
    requires
        is_harmony_split(target, change, max_splits, target_chunks, change_chunks),
    ensures
        sum(target_chunks) == target,
        sum(change_chunks) == kept_change(change),
        target_chunks.len() > 0,
        change_chunks.len() > 0,
{
    let best = choose|best: (int, int)| #[trigger]
        is_best_split(target, change, max_splits, best) && is_split_over(
            target,
            change,
            best,
            target_chunks,
            change_chunks,
        );
    if is_close(means(target, change, best).0, means(target, change, best).1) {
        law_variation_keeps_the_total(target, best.0 as nat, target_chunks);
        lemma_change_split_sum(change, best.1 as nat, change_chunks);
    } else {
        lemma_pair(target, target_chunks);
        lemma_change_split_sum(change, 1, change_chunks);
    }
}

/// No chunk of a split is tiny: a change chunk is empty or reaches the dust limit, and so does
/// every target chunk unless the whole target is below it. Change that is split into several
/// chunks has chunks of `MIN_CHANGE_CHUNK` at least, in the mean.
pub proof fn law_chunks_are_not_dust(
    target: u64,
    change: u64,
    max_splits: int,
    target_chunks: Seq<u64>,
    change_chunks: Seq<u64>,
)
    requires
        is_harmony_split(target, change, max_splits, target_chunks, change_chunks),
    ensures
        change_chunks.len() > 1 ==> mean(change_chunks) >= MIN_CHANGE_CHUNK,
        forall|k: int|
            0 <= k < change_chunks.len() ==> #[trigger] change_chunks[k] == 0 || change_chunks[k]
                >= DUST_LIMIT,
        target >= DUST_LIMIT ==> forall|k: int|
            0 <= k < target_chunks.len() ==> #[trigger] target_chunks[k] >= DUST_LIMIT,
{
    law_harmony_split_keeps_the_amounts(target, change, max_splits, target_chunks, change_chunks);
    let best = choose|best: (int, int)| #[trigger]
        is_best_split(target, change, max_splits, best) && is_split_over(
            target,
            change,
            best,
            target_chunks,
            change_chunks,
        );
    if is_close(means(target, change, best).0, means(target, change, best).1) {
        law_variation_keeps_the_total(target, best.0 as nat, target_chunks);
        lemma_change_is_not_dust(change, best.1 as nat, change_chunks);
        if best.1 > 1 {
            law_variation_keeps_the_total(change, best.1 as nat, change_chunks);
        }
        if 2 <= best.0 <= 5 {
            assert forall|k: int| 0 <= k < target_chunks.len() implies #[trigger] target_chunks[k]
                >= DUST_LIMIT by {
                lemma_chunk_is_not_dust(target, best.0 as nat, target_chunks, k);
            }
        }
    } else {
        lemma_pair(target, target_chunks);
        assert(target >= DUST_LIMIT ==> forall|k: int|
            0 <= k < target_chunks.len() ==> !(#[trigger] target_chunks[k] < DUST_LIMIT));
        lemma_change_is_not_dust(change, 1, change_chunks);
    }
}

/// An amount is varied in two, or kept in one piece where a chunk could be dust; change that is dust
/// itself is left out.
pub proof fn law_pieces_of_an_amount(
    amount: u64,
    pair: Vec<u64>,
    change: Vec<u64>,
    whole: Vec<u64>,
)
    requires
        call_ensures(vary_in_two, (amount,), pair),
        call_ensures(split_change_in_two, (amount,), change),
        call_ensures(split_change, (amount, 1usize), whole),
    ensures
        sum(pair@) == amount,
        1 <= pair@.len() <= 2,
        amount >= 655 ==> pair@.len() == 2 && change@.len() == 2,
        amount >= 294 ==> forall|k: int| 0 <= k < pair@.len() ==> #[trigger] pair@[k] >= 294,
        amount >= 294 ==> forall|k: int| 0 <= k < change@.len() ==> #[trigger] change@[k] >= 294,
        amount >= 294 ==> sum(change@) == amount && whole@ == seq![amount],
        amount < 294 ==> change@ == seq![0u64] && whole@ == seq![0u64],
{
    lemma_pair(amount, pair@);
    lemma_change_pair(amount, change@);
    if amount >= 294 {
        lemma_pair(amount, change@);
        assert forall|k: int| 0 <= k < pair@.len() implies #[trigger] pair@[k] >= 294 by {
            assert(!(pair@[k] < DUST_LIMIT));
        }
        assert forall|k: int| 0 <= k < change@.len() implies #[trigger] change@[k] >= 294 by {
            assert(!(change@[k] < DUST_LIMIT));
        }
    }
    if amount >= 655 {
        law_pairs_come_in_two(amount, pair@);
        law_pairs_come_in_two(amount, change@);
    }
}

/// Change in several chunks is kept whole: there are as many chunks as asked for, up to five, and
/// they sum up to the change.
pub proof fn law_change_in_chunks(change: u64, num_chunks: usize, r: Vec<u64>)
    requires
        2 <= num_chunks <= 5,
        call_ensures(split_change, (change, num_chunks), r),
    ensures
        r@.len() == num_chunks,
        sum(r@) == change,
{
    law_variation_keeps_the_total(change, num_chunks as nat, r@);
}

} // verus!
