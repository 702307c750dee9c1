//! Splitting an amount into chunks of similar size.

use bip39::rand::Rng;
use vstd::prelude::*;

verus! {

/// The sum of a list of amounts.
pub open spec fn sum(amounts: Seq<u64>) -> nat
    decreases amounts.len(),
{
    if amounts.len() == 0 {
        0
    } else {
        sum(amounts.drop_last()) + amounts.last() as nat
    }
}

/// `Rng::gen_range` on the thread's generator: some number of the range, the upper end excluded.
#[verifier::external_body]
pub(crate) fn random_in_range(low: u64, high: u64) -> (n: u64)
    requires
        low < high,
    ensures
        low <= n < high,
{
    bip39::rand::thread_rng().gen_range(low..high)
}

/// The unit of the random factors.
pub const FACTOR_UNIT: u64 = 1_000_000_000_000;

/// The smallest random factor: 95 %.
pub const FACTOR_LOW: u64 = 950_000_000_000;

/// The bound on the random factors: 105 %.
pub const FACTOR_HIGH: u64 = 1_050_000_000_000;

/// The pattern that chunks are spread by, in percent of an even chunk.
pub open spec fn pattern(num_chunks: nat) -> Seq<u64> {
    if num_chunks == 2 {
        seq![105, 95]
    } else if num_chunks == 3 {
        seq![100, 105, 95]
    } else if num_chunks == 4 {
        seq![110, 90, 105, 95]
    } else if num_chunks == 5 {
        seq![100, 110, 90, 105, 95]
    } else {
        Seq::empty()
    }
}

/// One random factor for each chunk, within 5 % of one.
pub open spec fn are_factors(num_chunks: nat, factors: Seq<u64>) -> bool {
    &&& factors.len() == num_chunks
    &&& forall|i: int|
        0 <= i < factors.len() ==> FACTOR_LOW <= #[trigger] factors[i] < FACTOR_HIGH
}

/// The pattern with a random factor on each ratio.
pub open spec fn shares(num_chunks: nat, factors: Seq<u64>) -> Seq<u64> {
    Seq::new(num_chunks, |i: int| (pattern(num_chunks)[i] * factors[i]) as u64)
}

/// `total * share / whole`, rounded to the nearest integer.
pub open spec fn proportional(total: nat, share: nat, whole: nat) -> nat {
    (2 * total * share + whole) / (2 * whole)
}

/// `total` spread in proportion to `shares`.
pub open spec fn spread(total: u64, shares: Seq<u64>) -> Seq<u64> {
    Seq::new(
        shares.len(),
        |i: int| proportional(total as nat, shares[i] as nat, sum(shares)) as u64,
    )
}

/// `settled` sums up to `total` and differs from `amounts` in one direction only: it adds what
/// `amounts` lacks, or takes what it has too much.
pub open spec fn is_settled(total: u64, amounts: Seq<u64>, settled: Seq<u64>) -> bool {
    &&& settled.len() == amounts.len()
    &&& sum(settled) == total
    &&& sum(amounts) <= total ==> forall|i: int|
        0 <= i < amounts.len() ==> amounts[i] <= #[trigger] settled[i]
    &&& sum(amounts) >= total ==> forall|i: int|
        0 <= i < amounts.len() ==> amounts[i] >= #[trigger] settled[i]
}

/// `chunks` is what varying `total` over `num_chunks` chunks may come to.
///
/// Two to five chunks follow the pattern for their number, each ratio moved by up to 5 %, scaled
/// to the total, corrected for rounding and put in random order. No chunk is asked for, there is
/// none; for any other number the total stays in one piece.
pub open spec fn is_variation(total: u64, num_chunks: nat, chunks: Seq<u64>) -> bool {
    if num_chunks == 0 {
        chunks == Seq::<u64>::empty()
    } else if 2 <= num_chunks <= 5 {
        exists|factors: Seq<u64>, settled: Seq<u64>| #[trigger]
            are_factors(num_chunks, factors) && #[trigger] is_settled(
                total,
                spread(total, shares(num_chunks, factors)),
                settled,
            ) && chunks.to_multiset() == settled.to_multiset()
    } else {
        chunks == seq![total]
    }
}

// ---------------------------------------------------------------------------------------------
// Sums
// ---------------------------------------------------------------------------------------------

pub proof fn lemma_sum_push(amounts: Seq<u64>, x: u64)
    ensures
        sum(amounts.push(x)) == sum(amounts) + x,
{
    assert(amounts.push(x).drop_last() =~= amounts);
}

pub proof fn lemma_sum_update(amounts: Seq<u64>, k: int, x: u64)
    requires
        0 <= k < amounts.len(),
    ensures
        sum(amounts.update(k, x)) + amounts[k] == sum(amounts) + x,
    decreases amounts.len(),
{
    if k == amounts.len() - 1 {
        assert(amounts.update(k, x).drop_last() =~= amounts.drop_last());
    } else {
        assert(amounts.update(k, x).drop_last() =~= amounts.drop_last().update(k, x));
        lemma_sum_update(amounts.drop_last(), k, x);
    }
}

pub proof fn lemma_sum_bounds(amounts: Seq<u64>, k: int)
    requires
        0 <= k < amounts.len(),
    ensures
        amounts[k] <= sum(amounts),
    decreases amounts.len(),
{
    if k < amounts.len() - 1 {
        assert(amounts.drop_last()[k] == amounts[k]);
        lemma_sum_bounds(amounts.drop_last(), k);
    }
}

/// The sum of one amount.
pub proof fn lemma_sum_one(x: u64)
    ensures
        sum(seq![x]) == x,
{
    assert(seq![x] =~= Seq::<u64>::empty().push(x));
    lemma_sum_push(Seq::empty(), x);
}

/// Amounts that are the same up to order have the same sum.
pub proof fn lemma_sum_multiset(a: Seq<u64>, b: Seq<u64>)
    requires
        a.to_multiset() == b.to_multiset(),
    ensures
        sum(a) == sum(b),
        a.len() == b.len(),
    decreases a.len(),
{
    broadcast use vstd::seq_lib::group_to_multiset_ensures;

    assert(a.len() == a.to_multiset().len());
    assert(b.len() == b.to_multiset().len());
    if a.len() > 0 {
        let x = a.last();
        assert(a.to_multiset().contains(x)) by {
            assert(a.contains(x));
        }
        assert(b.contains(x));
        let k = choose|k: int| 0 <= k < b.len() && b[k] == x;
        let b2 = b.remove(k);
        assert(b2.to_multiset() =~= b.to_multiset().remove(x));
        assert(a.drop_last() =~= a.remove(a.len() - 1));
        assert(a.drop_last().to_multiset() =~= a.to_multiset().remove(x));
        lemma_sum_multiset(a.drop_last(), b2);
        lemma_sum_remove(b, k);
    }
}

proof fn lemma_sum_remove(amounts: Seq<u64>, k: int)
    requires
        0 <= k < amounts.len(),
    ensures
        sum(amounts.remove(k)) + amounts[k] == sum(amounts),
    decreases amounts.len(),
{
    if k == amounts.len() - 1 {
        assert(amounts.remove(k) =~= amounts.drop_last());
    } else {
        assert(amounts.remove(k).drop_last() =~= amounts.drop_last().remove(k));
        lemma_sum_remove(amounts.drop_last(), k);
    }
}

// ---------------------------------------------------------------------------------------------
// Varying an amount
// ---------------------------------------------------------------------------------------------

proof fn lemma_proportional_bound(total: nat, share: nat, whole: nat)
    requires
        share <= whole,
        whole > 0,
    ensures
        proportional(total, share, whole) <= total,
{
    let n = 2 * total * share + whole;
    let d = 2 * whole;
    assert(2 * total * share <= 2 * total * whole) by (nonlinear_arith)
        requires
            share <= whole,
    ;
    assert(n < d * (total + 1)) by (nonlinear_arith)
        requires
            n == 2 * total * share + whole,
            2 * total * share <= 2 * total * whole,
            d == 2 * whole,
            whole > 0,
    ;
    assert(n / d <= total) by (nonlinear_arith)
        requires
            n < d * (total + 1),
            d > 0,
    ;
}

/// The pattern for two to five chunks.
fn ratios(num_chunks: usize) -> (r: Vec<u64>)
    requires
        2 <= num_chunks <= 5,
    ensures
        r@ == pattern(num_chunks as nat),
        r.len() == num_chunks,
        forall|i: int| 0 <= i < r.len() ==> 90 <= #[trigger] r@[i] <= 110,
{
    let mut r: Vec<u64> = Vec::new();
    if num_chunks == 2 {
        r.push(105);
        r.push(95);
    } else if num_chunks == 3 {
        r.push(100);
        r.push(105);
        r.push(95);
    } else if num_chunks == 4 {
        r.push(110);
        r.push(90);
        r.push(105);
        r.push(95);
    } else {
        r.push(100);
        r.push(110);
        r.push(90);
        r.push(105);
        r.push(95);
    }
    assert(r@ =~= pattern(num_chunks as nat));
    r
}

/// Puts a factor on each ratio of the pattern.
fn weigh(num_chunks: usize, factors: &Vec<u64>) -> (r: Vec<u64>)
    requires
        2 <= num_chunks <= 5,
        are_factors(num_chunks as nat, factors@),
    ensures
        r@ == shares(num_chunks as nat, factors@),
        r.len() == num_chunks,
        forall|i: int|
            0 <= i < r.len() ==> 90 * FACTOR_LOW <= #[trigger] r@[i] <= 110 * FACTOR_HIGH,
{
    let pattern = ratios(num_chunks);
    let mut r: Vec<u64> = Vec::new();
    let mut i: usize = 0;
    while i < num_chunks
        invariant
            i <= num_chunks,
            r.len() == i,
            pattern.len() == num_chunks,
            pattern@ == crate::amounts::pattern(num_chunks as nat),
            are_factors(num_chunks as nat, factors@),
            forall|k: int| 0 <= k < num_chunks ==> 90 <= #[trigger] pattern@[k] <= 110,
            forall|k: int|
                0 <= k < i ==> #[trigger] r@[k] == pattern@[k] * factors@[k] && 90 * FACTOR_LOW
                    <= r@[k] <= 110 * FACTOR_HIGH,
        decreases num_chunks - i,
    {
        let ratio: u64 = pattern[i];
        let factor: u64 = factors[i];
        assert(90 * FACTOR_LOW <= ratio * factor <= 110 * FACTOR_HIGH) by (nonlinear_arith)
            requires
                90 <= ratio <= 110,
                FACTOR_LOW <= factor < FACTOR_HIGH,
        ;
        r.push(ratio * factor);
        i += 1;
    }
    assert(r@ =~= shares(num_chunks as nat, factors@));
    r
}

/// Adds up a list of amounts.
pub fn add_up(amounts: &Vec<u64>) -> (r: u64)
    requires
        sum(amounts@) <= u64::MAX,
    ensures
        r == sum(amounts@),
{
    let mut total: u64 = 0;
    let mut i: usize = 0;
    assert(amounts@.take(0) =~= Seq::<u64>::empty());
    while i < amounts.len()
        invariant
            i <= amounts.len(),
            total == sum(amounts@.take(i as int)),
            sum(amounts@) <= u64::MAX,
        decreases amounts.len() - i,
    {
        proof {
            lemma_sum_step(amounts@, i as int);
        }
        total = total + amounts[i];
        i += 1;
    }
    assert(amounts@.take(amounts@.len() as int) =~= amounts@);
    total
}

pub proof fn lemma_sum_step(amounts: Seq<u64>, k: int)
    requires
        0 <= k < amounts.len(),
    ensures
        sum(amounts.take(k + 1)) == sum(amounts.take(k)) + amounts[k],
        sum(amounts.take(k + 1)) <= sum(amounts),
    decreases amounts.len(),
{
    assert(amounts.take(k + 1).drop_last() =~= amounts.take(k));
    if k + 1 < amounts.len() {
        lemma_sum_step(amounts.drop_last(), k);
        assert(amounts.drop_last().take(k + 1) =~= amounts.take(k + 1));
        assert(amounts.drop_last().take(k) =~= amounts.take(k));
    } else {
        assert(amounts.take(k + 1) =~= amounts);
    }
}

proof fn lemma_sum_of_at_most(amounts: Seq<u64>, bound: nat)
    requires
        forall|i: int| 0 <= i < amounts.len() ==> #[trigger] amounts[i] <= bound,
    ensures
        sum(amounts) <= amounts.len() * bound,
    decreases amounts.len(),
{
    if amounts.len() > 0 {
        lemma_sum_of_at_most(amounts.drop_last(), bound);
        assert((amounts.len() - 1) * bound + bound == amounts.len() * bound) by (nonlinear_arith);
    }
}

/// Spreads `total` in proportion to `shares`.
pub fn spread_amounts(total: u64, shares: &Vec<u64>) -> (r: Vec<u64>)
    requires
        0 < sum(shares@) <= 0x1000_0000_0000_0000,
    ensures
        r@ == spread(total, shares@),
        forall|i: int| 0 <= i < r.len() ==> #[trigger] r@[i] <= total,
{
    let whole: u128 = add_up(shares) as u128;
    let mut r: Vec<u64> = Vec::new();
    let mut i: usize = 0;
    while i < shares.len()
        invariant
            i <= shares.len(),
            r.len() == i,
            whole == sum(shares@),
            0 < whole <= 0x1000_0000_0000_0000,
            forall|k: int|
                0 <= k < i ==> #[trigger] r@[k] == proportional(
                    total as nat,
                    shares@[k] as nat,
                    sum(shares@),
                ) && r@[k] <= total,
        decreases shares.len() - i,
    {
        let share: u128 = shares[i] as u128;
        proof {
            lemma_sum_bounds(shares@, i as int);
            lemma_proportional_bound(total as nat, share as nat, whole as nat);
        }
        let t: u128 = total as u128;
        assert(2 * t * share <= 2 * 0xffff_ffff_ffff_ffff * 0x1000_0000_0000_0000)
            by (nonlinear_arith)
            requires
                t <= 0xffff_ffff_ffff_ffff,
                share <= 0x1000_0000_0000_0000,
        ;
        assert(2 * t <= 2 * 0xffff_ffff_ffff_ffff);
        let amount: u128 = (2 * t * share + whole) / (2 * whole);
        assert(amount == proportional(total as nat, share as nat, whole as nat));
        r.push(amount as u64);
        i += 1;
    }
    assert(r@ =~= spread(total, shares@));
    r
}

/// The position of some amount that is not zero.
fn some_positive(amounts: &Vec<u64>) -> (k: usize)
    requires
        sum(amounts@) > 0,
    ensures
        k < amounts.len(),
        amounts@[k as int] > 0,
{
    let mut k: usize = 0;
    while k < amounts.len()
        invariant
            k <= amounts.len(),
            forall|j: int| 0 <= j < k ==> amounts@[j] == 0,
            sum(amounts@) > 0,
        decreases amounts.len() - k,
    {
        if amounts[k] > 0 {
            return k;
        }
        k += 1;
    }
    proof {
        lemma_sum_of_at_most(amounts@, 0);
        assert(false);
    }
    0
}

/// Corrects amounts by single satoshis at random places until they sum up to `total`.
fn settle(total: u64, amounts: Vec<u64>) -> (r: Vec<u64>)
    requires
        0 < amounts.len() <= 5,
        forall|i: int| 0 <= i < amounts.len() ==> #[trigger] amounts@[i] <= total,
    ensures
        is_settled(total, amounts@, r@),
{
    let mut settled: Vec<u64> = amounts;
    let mut sum_check: u128 = 0;
    let mut i: usize = 0;
    assert(settled@.take(0) =~= Seq::<u64>::empty());
    while i < settled.len()
        invariant
            i <= settled.len() <= 5,
            sum_check == sum(settled@.take(i as int)),
            sum_check <= i * u64::MAX,
        decreases settled.len() - i,
    {
        proof {
            lemma_sum_step(settled@, i as int);
        }
        sum_check = sum_check + settled[i] as u128;
        i += 1;
    }
    assert(settled@.take(settled@.len() as int) =~= settled@);
    while sum_check < total as u128
        invariant
            0 < settled.len() <= 5,
            settled.len() == amounts@.len(),
            sum_check == sum(settled@),
            sum(amounts@) >= total ==> settled@ == amounts@,
            sum(amounts@) <= total ==> sum_check <= total && forall|i: int|
                0 <= i < amounts@.len() ==> amounts@[i] <= #[trigger] settled@[i],
        decreases total - sum_check,
    {
        let k: usize = random_in_range(0, settled.len() as u64) as usize;
        let amount: u64 = settled[k];
        proof {
            lemma_sum_bounds(settled@, k as int);
            lemma_sum_update(settled@, k as int, (amount + 1) as u64);
        }
        settled.set(k, amount + 1);
        sum_check = sum_check + 1;
    }
    while sum_check > total as u128
        invariant
            0 < settled.len() <= 5,
            settled.len() == amounts@.len(),
            sum_check == sum(settled@),
            sum_check >= total,
            sum(amounts@) <= total ==> sum_check == total && forall|i: int|
                0 <= i < amounts@.len() ==> amounts@[i] <= #[trigger] settled@[i],
            sum(amounts@) >= total ==> forall|i: int|
                0 <= i < amounts@.len() ==> amounts@[i] >= #[trigger] settled@[i],
        decreases sum_check,
    {
        let drawn: usize = random_in_range(0, settled.len() as u64) as usize;
        let k: usize = if settled[drawn] > 0 {
            drawn
        } else {
            some_positive(&settled)
        };
        let amount: u64 = settled[k];
        proof {
            lemma_sum_update(settled@, k as int, (amount - 1) as u64);
        }
        settled.set(k, amount - 1);
        sum_check = sum_check - 1;
    }
    settled
}

/// Puts amounts in random order: each place is swapped with a place that is drawn for it.
fn shuffle(amounts: Vec<u64>) -> (r: Vec<u64>)
    ensures
        exists|draws: Seq<usize>| #[trigger]
            are_draws(amounts@.len(), draws) && r@ == swapped(amounts@, draws),
        r@.to_multiset() == amounts@.to_multiset(),
{
    let count: usize = amounts.len();
    let mut draws: Vec<usize> = Vec::new();
    while draws.len() < count
        invariant
            draws.len() <= count,
            forall|k: int| 0 <= k < draws.len() ==> #[trigger] draws@[k] < count,
        decreases count - draws.len(),
    {
        draws.push(random_in_range(0, count as u64) as usize);
    }
    assert(are_draws(amounts@.len(), draws@));
    reorder(amounts, &draws)
}

/// One place for each of `count` places.
pub open spec fn are_draws(count: nat, draws: Seq<usize>) -> bool {
    &&& draws.len() == count
    &&& forall|k: int| 0 <= k < draws.len() ==> #[trigger] draws[k] < count
}

/// The amounts after each of the first places, in turn, was swapped with the place drawn for it.
pub open spec fn swapped(amounts: Seq<u64>, draws: Seq<usize>) -> Seq<u64>
    decreases draws.len(),
{
    if draws.len() == 0 {
        amounts
    } else {
        let before = swapped(amounts, draws.drop_last());
        let (i, j) = (draws.len() - 1, draws.last() as int);
        before.update(i, before[j]).update(j, before[i])
    }
}

/// Swaps each place, in turn, with the place drawn for it.
pub fn reorder(amounts: Vec<u64>, draws: &Vec<usize>) -> (r: Vec<u64>)
    requires
        are_draws(amounts@.len(), draws@),
    ensures
        r@ == swapped(amounts@, draws@),
        r@.to_multiset() == amounts@.to_multiset(),
{
    let mut r: Vec<u64> = amounts;
    let mut i: usize = 0;
    assert(draws@.take(0) =~= Seq::<usize>::empty());
    while i < r.len()
        invariant
            i <= r.len(),
            r.len() == amounts@.len(),
            are_draws(amounts@.len(), draws@),
            r@ == swapped(amounts@, draws@.take(i as int)),
            r@.to_multiset() == amounts@.to_multiset(),
        decreases r.len() - i,
    {
        let j: usize = draws[i];
        let a: u64 = r[i];
        let b: u64 = r[j];
        let ghost before = r@;
        r.set(i, b);
        r.set(j, a);
        proof {
            assert(draws@.take(i + 1).drop_last() =~= draws@.take(i as int));
            lemma_swap_multiset(before, i as int, j as int);
        }
        i += 1;
    }
    assert(draws@.take(draws@.len() as int) =~= draws@);
    r
}

proof fn lemma_swap_multiset(amounts: Seq<u64>, i: int, j: int)
    requires
        0 <= i < amounts.len(),
        0 <= j < amounts.len(),
    ensures
        amounts.update(i, amounts[j]).update(j, amounts[i]).to_multiset() == amounts.to_multiset(),
{
    broadcast use vstd::seq_lib::group_to_multiset_ensures;

    let once = amounts.update(i, amounts[j]);
    let twice = once.update(j, amounts[i]);
    assert(once.to_multiset() =~= amounts.to_multiset().insert(amounts[j]).remove(amounts[i]));
    assert(twice.to_multiset() =~= once.to_multiset().insert(amounts[i]).remove(once[j]));
    assert(twice.to_multiset() =~= amounts.to_multiset());
}

/// Splits `total` into `num_chunks` chunks of similar, random size.
///
/// The total stays in one piece for more than five chunks.
pub fn vary_amounts(total: u64, num_chunks: usize) -> (chunks: Vec<u64>)
    ensures
        is_variation(total, num_chunks as nat, chunks@),
{
    let mut chunks: Vec<u64> = Vec::new();
    if num_chunks == 0 {
        return chunks;
    }
    if num_chunks == 1 || num_chunks > 5 {
        chunks.push(total);
        assert(chunks@ =~= seq![total]);
        return chunks;
    }
    let mut factors: Vec<u64> = Vec::new();
    let mut i: usize = 0;
    while i < num_chunks
        invariant
            i <= num_chunks,
            factors.len() == i,
            forall|k: int| 0 <= k < i ==> FACTOR_LOW <= #[trigger] factors@[k] < FACTOR_HIGH,
        decreases num_chunks - i,
    {
        factors.push(random_in_range(FACTOR_LOW, FACTOR_HIGH));
        i += 1;
    }
    let weighed = weigh(num_chunks, &factors);
    proof {
        lemma_sum_of_at_most(weighed@, (110 * FACTOR_HIGH) as nat);
        lemma_sum_bounds(weighed@, 0);
        assert(weighed@.len() * (110 * FACTOR_HIGH) <= 5 * (110 * FACTOR_HIGH))
            by (nonlinear_arith)
            requires
                weighed@.len() <= 5,
        ;
    }
    let amounts = spread_amounts(total, &weighed);
    let settled = settle(total, amounts);
    assert(is_settled(total, spread(total, shares(num_chunks as nat, factors@)), settled@));
    let varied = shuffle(settled);
    assert(are_factors(num_chunks as nat, factors@));
    varied
}

// ---------------------------------------------------------------------------------------------
// Laws
// ---------------------------------------------------------------------------------------------

/// The chunks of a variation sum up to the total, and there are as many as asked for, up to
/// five.
pub proof fn law_variation_keeps_the_total(total: u64, num_chunks: nat, chunks: Seq<u64>)
    requires
        num_chunks > 0,
        is_variation(total, num_chunks, chunks),
    ensures
        sum(chunks) == total,
        chunks.len() == if num_chunks <= 5 {
            num_chunks
        } else {
            1
        },
{
    if 2 <= num_chunks <= 5 {
        let (factors, settled) = choose|factors: Seq<u64>, settled: Seq<u64>| #[trigger]
            are_factors(num_chunks, factors) && #[trigger] is_settled(
                total,
                spread(total, shares(num_chunks, factors)),
                settled,
            ) && chunks.to_multiset() == settled.to_multiset();
        lemma_sum_multiset(chunks, settled);
        chunks.to_multiset_ensures();
        settled.to_multiset_ensures();
    } else {
        lemma_sum_one(total);
    }
}

/// Each chunk of a variation is close to an even share of the total: in exact numbers it would
/// lie between 285/344 and 385/324 of an even share, and rounding moves it by at most two and a
/// half satoshis. From 10,000 satoshis on it lies between 82 % and 119 % of an even share.
///
/// Of two chunks each would lie between 361/802 and 441/802 of the total, which is between 45 % and
/// 55 %, and rounding moves it by at most one and a half satoshis.
pub proof fn law_variation_is_even(total: u64, num_chunks: nat, chunks: Seq<u64>, k: int)
    requires
        2 <= num_chunks <= 5,
        is_variation(total, num_chunks, chunks),
        0 <= k < chunks.len(),
    ensures
        285 * total <= 344 * (num_chunks * chunks[k]) + 860 * num_chunks,
        324 * (num_chunks * chunks[k]) <= 385 * total + 810 * num_chunks,
        total >= 10_000 ==> 82 * total <= 100 * (num_chunks * chunks[k]) <= 119 * total,
        num_chunks == 2 ==> 361 * total <= 802 * chunks[k] + 1203,
        num_chunks == 2 ==> 802 * chunks[k] <= 441 * total + 1203,
        num_chunks == 2 ==> 45 * total <= 100 * chunks[k] + 200,
        num_chunks == 2 ==> 100 * chunks[k] <= 55 * total + 200,
{
    broadcast use vstd::seq_lib::group_to_multiset_ensures;

    let (factors, settled) = choose|factors: Seq<u64>, settled: Seq<u64>| #[trigger]
        are_factors(num_chunks, factors) && #[trigger] is_settled(
            total,
            spread(total, shares(num_chunks, factors)),
            settled,
        ) && chunks.to_multiset() == settled.to_multiset();
    assert(chunks.contains(chunks[k]));
    assert(settled.to_multiset().count(chunks[k]) > 0);
    assert(settled.contains(chunks[k]));
    let j = choose|j: int| 0 <= j < settled.len() && settled[j] == chunks[k];
    let parts = shares(num_chunks, factors);
    lemma_shares(num_chunks, factors);
    lemma_settled_term(total, num_chunks, factors, settled, j);
    let (t, n, w, s, c) = (
        total as int,
        num_chunks as int,
        sum(parts) as int,
        parts[j] as int,
        settled[j] as int,
    );
    lemma_even_bounds(t, n, w, s, c);
    if num_chunks == 2 {
        lemma_pair_bounds(t, w, s, c);
    }
}

spec fn abs_difference(a: int, b: int) -> int {
    if a >= b {
        a - b
    } else {
        b - a
    }
}

proof fn lemma_even_bounds(t: int, n: int, w: int, s: int, c: int)
    requires
        0 <= t,
        2 <= n <= 5,
        0 <= c,
        w > 0,
        324 * (n * s) <= 385 * w,
        285 * w <= 344 * (n * s),
        2 * w * c <= 2 * t * s + 5 * w,
        2 * t * s <= 2 * w * c + 5 * w,
    ensures
        285 * t <= 344 * (n * c) + 860 * n,
        324 * (n * c) <= 385 * t + 810 * n,
{
    assert(285 * t <= 344 * (n * c) + 860 * n) by (nonlinear_arith)
        requires
            0 <= t,
            0 <= n,
            w > 0,
            285 * w <= 344 * (n * s),
            2 * t * s <= 2 * w * c + 5 * w,
    {
        assert(2 * t * (285 * w) <= 2 * t * (344 * (n * s)));
        assert(2 * t * (344 * (n * s)) == 344 * n * (2 * t * s));
        assert(344 * n * (2 * t * s) <= 344 * n * (2 * w * c + 5 * w));
        assert(344 * n * (2 * w * c + 5 * w) == 2 * w * (344 * (n * c) + 860 * n));
        assert(2 * t * (285 * w) == 2 * w * (285 * t));
        assert(2 * w * (285 * t) <= 2 * w * (344 * (n * c) + 860 * n));
    }
    assert(324 * (n * c) <= 385 * t + 810 * n) by (nonlinear_arith)
        requires
            0 <= t,
            0 <= n,
            w > 0,
            324 * (n * s) <= 385 * w,
            2 * w * c <= 2 * t * s + 5 * w,
    {
        assert(2 * t * (324 * (n * s)) <= 2 * t * (385 * w));
        assert(2 * t * (324 * (n * s)) == 324 * n * (2 * t * s));
        assert(324 * n * (2 * w * c) <= 324 * n * (2 * t * s + 5 * w));
        assert(324 * n * (2 * t * s + 5 * w) == 324 * n * (2 * t * s) + 1620 * n * w);
        assert(324 * n * (2 * w * c) == 2 * w * (324 * (n * c)));
        assert(2 * t * (385 * w) + 1620 * n * w == 2 * w * (385 * t + 810 * n));
        assert(2 * w * (324 * (n * c)) <= 2 * w * (385 * t + 810 * n));
    }
}

proof fn lemma_pair_bounds(t: int, w: int, s: int, c: int)
    requires
        0 <= t,
        w > 0,
        802 * s <= 441 * w,
        361 * w <= 802 * s,
        2 * w * c <= 2 * t * s + 3 * w,
        2 * t * s <= 2 * w * c + 3 * w,
    ensures
        361 * t <= 802 * c + 1203,
        802 * c <= 441 * t + 1203,
{
    assert(361 * t <= 802 * c + 1203) by (nonlinear_arith)
        requires
            0 <= t,
            w > 0,
            361 * w <= 802 * s,
            2 * t * s <= 2 * w * c + 3 * w,
    {
        assert(2 * t * (361 * w) <= 2 * t * (802 * s));
        assert(2 * t * (802 * s) == 802 * (2 * t * s));
        assert(802 * (2 * w * c + 3 * w) == 2 * w * (802 * c + 1203));
        assert(2 * t * (361 * w) == 2 * w * (361 * t));
        assert(2 * w * (361 * t) <= 2 * w * (802 * c + 1203));
    }
    assert(802 * c <= 441 * t + 1203) by (nonlinear_arith)
        requires
            0 <= t,
            w > 0,
            802 * s <= 441 * w,
            2 * w * c <= 2 * t * s + 3 * w,
    {
        assert(2 * t * (802 * s) <= 2 * t * (441 * w));
        assert(2 * t * (802 * s) == 802 * (2 * t * s));
        assert(802 * (2 * w * c) == 2 * w * (802 * c));
        assert(2 * t * (441 * w) + 2406 * w == 2 * w * (441 * t + 1203));
        assert(2 * w * (802 * c) <= 2 * w * (441 * t + 1203));
    }
}

/// Every share of the pattern is close to an even share of the whole.
proof fn lemma_shares(num_chunks: nat, factors: Seq<u64>)
    requires
        2 <= num_chunks <= 5,
        are_factors(num_chunks, factors),
    ensures
        sum(shares(num_chunks, factors)) > 0,
        forall|i: int|
            0 <= i < num_chunks ==> 324 * (num_chunks * #[trigger] shares(num_chunks, factors)[i])
                <= 385 * sum(shares(num_chunks, factors)) && 285 * sum(shares(num_chunks, factors))
                <= 344 * (num_chunks * shares(num_chunks, factors)[i]),
        num_chunks == 2 ==> forall|i: int|
            0 <= i < 2 ==> 802 * #[trigger] shares(num_chunks, factors)[i] <= 441 * sum(
                shares(num_chunks, factors),
            ) && 361 * sum(shares(num_chunks, factors)) <= 802 * shares(num_chunks, factors)[i],
{
    let parts = shares(num_chunks, factors);
    let whole = sum(parts);
    reveal_with_fuel(sum, 6);
    assert(parts.len() == num_chunks);
    assert forall|i: int| 0 <= i < num_chunks implies whole > 0 && 324 * (num_chunks
        * #[trigger] parts[i]) <= 385 * whole && 285 * whole <= 344 * (num_chunks * parts[i]) by {
        let part = parts[i];
        if num_chunks == 2 {
            assert(parts[0] == 105 * factors[0] && parts[1] == 95 * factors[1]);
            assert(whole == parts[0] + parts[1]);
            assert(324 * (2 * part) <= 385 * whole && 285 * whole <= 344 * (2 * part));
        } else if num_chunks == 3 {
            assert(parts[0] == 100 * factors[0] && parts[1] == 105 * factors[1] && parts[2] == 95
                * factors[2]);
            assert(whole == parts[0] + parts[1] + parts[2]);
            assert(324 * (3 * part) <= 385 * whole && 285 * whole <= 344 * (3 * part));
        } else if num_chunks == 4 {
            assert(parts[0] == 110 * factors[0] && parts[1] == 90 * factors[1] && parts[2] == 105
                * factors[2] && parts[3] == 95 * factors[3]);
            assert(whole == parts[0] + parts[1] + parts[2] + parts[3]);
            assert(324 * (4 * part) <= 385 * whole && 285 * whole <= 344 * (4 * part));
        } else {
            assert(parts[0] == 100 * factors[0] && parts[1] == 110 * factors[1] && parts[2] == 90
                * factors[2] && parts[3] == 105 * factors[3] && parts[4] == 95 * factors[4]);
            assert(whole == parts[0] + parts[1] + parts[2] + parts[3] + parts[4]);
            assert(324 * (5 * part) <= 385 * whole && 285 * whole <= 344 * (5 * part));
        }
    }
    assert(324 * (num_chunks * parts[0]) <= 385 * whole);
    if num_chunks == 2 {
        assert(parts[0] == 105 * factors[0] && parts[1] == 95 * factors[1]);
        assert(whole == parts[0] + parts[1]);
    }
}

proof fn lemma_spread_term(total: u64, parts: Seq<u64>, i: int)
    requires
        0 <= i < parts.len(),
        sum(parts) > 0,
    ensures
        2 * sum(parts) * spread(total, parts)[i] <= 2 * total * parts[i] + sum(parts),
        2 * total * parts[i] <= 2 * sum(parts) * spread(total, parts)[i] + sum(parts),
{
    lemma_sum_bounds(parts, i);
    lemma_proportional_bound(total as nat, parts[i] as nat, sum(parts));
    let (t, s, w) = (total as int, parts[i] as int, sum(parts) as int);
    let n = 2 * t * s + w;
    let d = 2 * w;
    let q = n / d;
    assert(0 <= n) by (nonlinear_arith)
        requires
            n == 2 * t * s + w,
            0 <= t,
            0 <= s,
            0 <= w,
    ;
    vstd::arithmetic::div_mod::lemma_fundamental_div_mod(n, d);
    vstd::arithmetic::div_mod::lemma_mod_bound(n, d);
    assert(2 * w * q == d * q) by (nonlinear_arith)
        requires
            d == 2 * w,
    ;
}

proof fn lemma_spread_sum(total: u64, parts: Seq<u64>, k: int)
    requires
        0 <= k <= parts.len(),
        sum(parts) > 0,
    ensures
        2 * sum(parts) * sum(spread(total, parts).take(k)) <= 2 * total * sum(parts.take(k)) + k
            * sum(parts),
        2 * total * sum(parts.take(k)) <= 2 * sum(parts) * sum(spread(total, parts).take(k)) + k
            * sum(parts),
    decreases k,
{
    let amounts = spread(total, parts);
    if k == 0 {
        assert(parts.take(0) =~= Seq::<u64>::empty());
        assert(amounts.take(0) =~= Seq::<u64>::empty());
        assert(2 * sum(parts) * 0 == 0 && 2 * total * 0 == 0 && 0 * sum(parts) == 0)
            by (nonlinear_arith);
    } else {
        lemma_spread_sum(total, parts, k - 1);
        lemma_spread_term(total, parts, k - 1);
        lemma_sum_step(parts, k - 1);
        lemma_sum_step(amounts, k - 1);
        let (t, w) = (total as int, sum(parts) as int);
        let (s0, a0) = (sum(parts.take(k - 1)) as int, sum(amounts.take(k - 1)) as int);
        let (s, a) = (parts[k - 1] as int, amounts[k - 1] as int);
        assert(2 * w * (a0 + a) == 2 * w * a0 + 2 * w * a) by (nonlinear_arith);
        assert(2 * t * (s0 + s) == 2 * t * s0 + 2 * t * s) by (nonlinear_arith);
        assert((k - 1) * w + w == k * w) by (nonlinear_arith);
    }
}

proof fn lemma_settled_by_little(total: u64, amounts: Seq<u64>, settled: Seq<u64>, j: int)
    requires
        is_settled(total, amounts, settled),
        0 <= j < amounts.len(),
    ensures
        abs_difference(settled[j] as int, amounts[j] as int) <= abs_difference(
            sum(amounts) as int,
            total as int,
        ),
{
    if sum(amounts) <= total {
        lemma_growth_at(amounts, settled, j);
    } else {
        lemma_growth_at(settled, amounts, j);
    }
}

proof fn lemma_growth_at(less: Seq<u64>, more: Seq<u64>, j: int)
    requires
        less.len() == more.len(),
        forall|i: int| 0 <= i < less.len() ==> #[trigger] less[i] <= #[trigger] more[i],
        0 <= j < less.len(),
    ensures
        more[j] - less[j] <= sum(more) - sum(less),
        sum(less) <= sum(more),
    decreases less.len(),
{
    if less.len() > 1 {
        if j < less.len() - 1 {
            lemma_growth_at(less.drop_last(), more.drop_last(), j);
            assert(less.drop_last()[j] == less[j] && more.drop_last()[j] == more[j]);
        } else {
            lemma_growth_at(less.drop_last(), more.drop_last(), 0);
        }
    } else {
        assert(less.drop_last() =~= Seq::<u64>::empty());
        assert(more.drop_last() =~= Seq::<u64>::empty());
    }
}

/// How far a chunk is off its exact share of the total: two and a half satoshis at most, and one and
/// a half of two.
proof fn lemma_settled_term(total: u64, num_chunks: nat, factors: Seq<u64>, settled: Seq<u64>, j: int)
    requires
        2 <= num_chunks <= 5,
        are_factors(num_chunks, factors),
        is_settled(total, spread(total, shares(num_chunks, factors)), settled),
        0 <= j < num_chunks,
    ensures
        ({
            let (t, w, s, c) = (
                total as int,
                sum(shares(num_chunks, factors)) as int,
                shares(num_chunks, factors)[j] as int,
                settled[j] as int,
            );
            &&& w > 0
            &&& 2 * w * c <= 2 * t * s + 5 * w && 2 * t * s <= 2 * w * c + 5 * w
            &&& num_chunks == 2 ==> 2 * w * c <= 2 * t * s + 3 * w && 2 * t * s <= 2 * w * c + 3 * w
        }),
{
    let parts = shares(num_chunks, factors);
    let amounts = spread(total, parts);
    lemma_shares(num_chunks, factors);
    lemma_spread_sum(total, parts, num_chunks as int);
    assert(parts.take(num_chunks as int) =~= parts);
    assert(amounts.take(num_chunks as int) =~= amounts);
    lemma_settled_by_little(total, amounts, settled, j);
    lemma_spread_term(total, parts, j);
    let (t, n, w, s, a, c) = (
        total as int,
        num_chunks as int,
        sum(parts) as int,
        parts[j] as int,
        amounts[j] as int,
        settled[j] as int,
    );
    let x = sum(amounts) as int;
    let off = abs_difference(x, t);
    assert(2 * off <= n) by (nonlinear_arith)
        requires
            2 * w * x <= 2 * t * w + n * w,
            2 * t * w <= 2 * w * x + n * w,
            off == abs_difference(x, t),
            w > 0,
    {
        assert(2 * w * (x - t) == 2 * w * x - 2 * t * w);
        assert(2 * w * (t - x) == 2 * t * w - 2 * w * x);
        assert(w * (2 * off) <= w * n);
    }
    assert(2 * w * c <= 2 * t * s + 5 * w && 2 * t * s <= 2 * w * c + 5 * w) by (nonlinear_arith)
        requires
            2 * w * a <= 2 * t * s + w,
            2 * t * s <= 2 * w * a + w,
            a - 2 <= c <= a + 2,
            w > 0,
    {
        assert(2 * w * c <= 2 * w * (a + 2) == 2 * w * a + 4 * w);
        assert(2 * w * c >= 2 * w * (a - 2) == 2 * w * a - 4 * w);
    }
    if num_chunks == 2 {
        assert(2 * w * c <= 2 * t * s + 3 * w && 2 * t * s <= 2 * w * c + 3 * w)
            by (nonlinear_arith)
            requires
                2 * w * a <= 2 * t * s + w,
                2 * t * s <= 2 * w * a + w,
                a - 1 <= c <= a + 1,
                w > 0,
        {
            assert(2 * w * c <= 2 * w * (a + 1) == 2 * w * a + 2 * w);
            assert(2 * w * c >= 2 * w * (a - 1) == 2 * w * a - 2 * w);
        }
    }
}

/// Four or five chunks are never all alike: from 10,000 satoshis on, one of them is larger than
/// another by a tenth at least.
pub proof fn law_many_chunks_differ(total: u64, num_chunks: usize, r: Vec<u64>)
    requires
        4 <= num_chunks <= 5,
        total >= 10_000,
        call_ensures(vary_amounts, (total, num_chunks), r),
    ensures
        r@.len() == num_chunks,
        exists|i: int, j: int|
            0 <= i < r@.len() && 0 <= j < r@.len() && 10 * #[trigger] r@[i] >= 11
                * #[trigger] r@[j],
{
    broadcast use vstd::seq_lib::group_to_multiset_ensures;

    let n = num_chunks as nat;
    law_variation_keeps_the_total(total, n, r@);
    let (factors, settled) = choose|factors: Seq<u64>, settled: Seq<u64>| #[trigger]
        are_factors(n, factors) && #[trigger] is_settled(
            total,
            spread(total, shares(n, factors)),
            settled,
        ) && r@.to_multiset() == settled.to_multiset();
    let parts = shares(n, factors);
    let (p, q) = if n == 4 {
        (0int, 1int)
    } else {
        (1int, 2int)
    };
    lemma_settled_term(total, n, factors, settled, p);
    lemma_settled_term(total, n, factors, settled, q);
    reveal_with_fuel(sum, 6);
    assert(FACTOR_LOW <= factors[p] < FACTOR_HIGH && FACTOR_LOW <= factors[q] < FACTOR_HIGH);
    assert(parts[p] == 110 * factors[p] && parts[q] == 90 * factors[q]);
    lemma_sum_of_at_most(parts, (110 * FACTOR_HIGH) as nat);
    let (t, w, x, y, c, d) = (
        total as int,
        sum(parts) as int,
        parts[p] as int,
        parts[q] as int,
        settled[p] as int,
        settled[q] as int,
    );
    assert(w <= 5 * (110 * FACTOR_HIGH)) by (nonlinear_arith)
        requires
            w <= n * (110 * FACTOR_HIGH),
            n <= 5,
    ;
    assert(10 * c >= 11 * d) by (nonlinear_arith)
        requires
            t >= 10_000,
            0 < w <= 577_500_000_000_000,
            x >= 104_500_000_000_000,
            y <= 94_500_000_000_000,
            2 * w * d <= 2 * t * y + 5 * w,
            2 * t * x <= 2 * w * c + 5 * w,
    {
        assert(10 * x - 11 * y >= 5_500_000_000_000);
        assert(2 * t * (10 * x - 11 * y) >= 2 * 10_000 * 5_500_000_000_000);
        assert(2 * t * (10 * x - 11 * y) == 10 * (2 * t * x) - 11 * (2 * t * y));
        assert(10 * (2 * w * c) - 11 * (2 * w * d) == 2 * w * (10 * c - 11 * d));
        assert(2 * w * (10 * c - 11 * d) > 0);
    }
    assert(settled.contains(settled[p]) && settled.contains(settled[q]));
    assert(r@.to_multiset().count(settled[p]) > 0 && r@.to_multiset().count(settled[q]) > 0);
    assert(r@.contains(settled[p]) && r@.contains(settled[q]));
    let i = choose|i: int| 0 <= i < r@.len() && r@[i] == settled[p];
    let j = choose|j: int| 0 <= j < r@.len() && r@[j] == settled[q];
    assert(10 * r@[i] >= 11 * r@[j]);
}

/// An amount that is varied is neither lost nor grown: for up to five chunks there are as many as
/// asked for, for more there is one, and they sum up to the amount.
pub proof fn law_varied_amounts_are_kept(total: u64, num_chunks: usize, r: Vec<u64>)
    requires
        num_chunks > 0,
        call_ensures(vary_amounts, (total, num_chunks), r),
    ensures
        sum(r@) == total,
        num_chunks <= 5 ==> r@.len() == num_chunks,
        num_chunks > 5 ==> r@.len() == 1,
{
    law_variation_keeps_the_total(total, num_chunks as nat, r@);
}

/// An amount that is spread gives each share what is due to it: its part of the amount, off by half a
/// satoshi at most.
pub proof fn law_shares_get_their_due(total: u64, parts: Vec<u64>, r: Vec<u64>, i: int)
    requires
        0 < sum(parts@) <= 0x1000_0000_0000_0000,
        call_ensures(spread_amounts, (total, &parts), r),
        0 <= i < parts@.len(),
    ensures
        r@.len() == parts@.len(),
        2 * sum(parts@) * r@[i] <= 2 * total * parts@[i] + sum(parts@),
        2 * total * parts@[i] <= 2 * sum(parts@) * r@[i] + sum(parts@),
{
    lemma_spread_term(total, parts@, i);
}

/// Where one place is drawn for another and every other place for itself, the two change places and
/// nothing else does.
pub proof fn law_drawn_places_are_swapped(
    amounts: Vec<u64>,
    draws: Vec<usize>,
    r: Vec<u64>,
    i: int,
    j: int,
)
    requires
        are_draws(amounts@.len(), draws@),
        call_ensures(reorder, (amounts, &draws), r),
        0 <= i < draws@.len(),
        draws@[i] == j,
        forall|k: int| 0 <= k < draws@.len() && k != i ==> #[trigger] draws@[k] == k,
    ensures
        r@ == amounts@.update(i, amounts@[j]).update(j, amounts@[i]),
{
    lemma_one_swap(amounts@, draws@, i, draws@.len() as int);
    assert(draws@.take(draws@.len() as int) =~= draws@);
}

proof fn lemma_one_swap(amounts: Seq<u64>, draws: Seq<usize>, i: int, n: int)
    requires
        are_draws(amounts.len(), draws),
        0 <= i < draws.len(),
        0 <= n <= draws.len(),
        forall|k: int| 0 <= k < draws.len() && k != i ==> #[trigger] draws[k] == k,
    ensures
        swapped(amounts, draws.take(n)) == if n <= i {
            amounts
        } else {
            amounts.update(i, amounts[draws[i] as int]).update(draws[i] as int, amounts[i])
        },
    decreases n,
{
    if n > 0 {
        lemma_one_swap(amounts, draws, i, n - 1);
        assert(draws.take(n).drop_last() =~= draws.take(n - 1));
        let before = swapped(amounts, draws.take(n - 1));
        if n - 1 != i {
            assert(draws.take(n).last() == n - 1);
            assert(before.update(n - 1, before[n - 1]).update(n - 1, before[n - 1]) =~= before);
        }
    }
}

} // verus!
