//! Coin selection over weighted candidates, as done by the `bdk_coin_select` crate.
//!
//! The crate's selector is kept and driven through the items below. Its arithmetic on transaction
//! weights and values is stated here; the fee that a rate implies for a weight, which the crate
//! computes in single precision, and the outcome of its branch-and-bound search only have a name.

use bdk_coin_select::{Candidate, ChangePolicy, CoinSelector, DrainWeights, TargetOutputs};
use vstd::prelude::*;

verus! {

/// A group of inputs that are selected together or not at all.
#[verifier::external_type_specification]
pub struct ExCandidate(Candidate);

/// The number, weight and value of the outputs to fund.
#[verifier::external_type_specification]
pub struct ExTargetOutputs(TargetOutputs);

/// The weights of the change outputs.
#[verifier::external_type_specification]
pub struct ExDrainWeights(DrainWeights);

/// When change is added, and the weights it has.
#[verifier::external_type_specification]
pub struct ExChangePolicy(ChangePolicy);

/// The selector: candidates, a selection among them, and the order in which they are tried.
#[verifier::external_type_specification]
#[verifier::external_body]
pub struct ExCoinSelector<'a>(CoinSelector<'a>);

/// The weight of an input without its witness.
pub const INPUT_BASE_WEIGHT: u64 = 164;

/// The constant `TXIN_BASE_WEIGHT`: outpoint, sequence and an empty script, at four units a byte.
#[verifier::external_body]
pub(crate) fn txin_base_weight() -> (weight: u64)
    ensures
        weight == INPUT_BASE_WEIGHT,
{
    bdk_coin_select::TXIN_BASE_WEIGHT
}

/// The constant `TXOUT_BASE_WEIGHT`: the value and the length of the script, at four units a byte.
#[verifier::external_body]
pub(crate) fn txout_base_weight() -> (weight: u64)
    ensures
        weight == 36,
{
    bdk_coin_select::TXOUT_BASE_WEIGHT
}

/// The constant `TR_SPK_WEIGHT`: the 34 bytes of a taproot script, at four units a byte.
#[verifier::external_body]
pub(crate) fn tr_spk_weight() -> (weight: u64)
    ensures
        weight == 136,
{
    bdk_coin_select::TR_SPK_WEIGHT
}

/// The constant `TR_KEYSPEND_TXIN_WEIGHT`: an input and 66 units for its witness with one
/// signature.
#[verifier::external_body]
pub(crate) fn tr_keyspend_txin_weight() -> (weight: u64)
    ensures
        weight == 230,
{
    bdk_coin_select::TR_KEYSPEND_TXIN_WEIGHT
}

/// A fee rate: `sats` satoshis for every `vbytes` virtual bytes.
#[derive(Debug, Clone, Copy, PartialEq, Eq, Structural)]
pub struct FeeRate {
    pub sats: u64,
    pub vbytes: usize,
}

/// What a selection has to pay for: outputs, and a fee rate for the whole transaction.
#[derive(Debug, Clone, Copy)]
pub struct Target {
    pub feerate: FeeRate,
    pub outputs: TargetOutputs,
}

// ---------------------------------------------------------------------------------------------
// What a selection weighs and is worth
// ---------------------------------------------------------------------------------------------

/// The value of the candidates whose index is in `selected`.
pub open spec fn selected_value(candidates: Seq<Candidate>, selected: Set<usize>) -> nat
    decreases candidates.len(),
{
    if candidates.len() == 0 {
        0
    } else {
        selected_value(candidates.drop_last(), selected) + if selected.contains(
            (candidates.len() - 1) as usize,
        ) {
            candidates.last().value as nat
        } else {
            0
        }
    }
}

/// The weight of the candidates whose index is in `selected`.
pub open spec fn selected_weight(candidates: Seq<Candidate>, selected: Set<usize>) -> nat
    decreases candidates.len(),
{
    if candidates.len() == 0 {
        0
    } else {
        selected_weight(candidates.drop_last(), selected) + if selected.contains(
            (candidates.len() - 1) as usize,
        ) {
            candidates.last().weight as nat
        } else {
            0
        }
    }
}

/// The number of inputs of the candidates whose index is in `selected`.
pub open spec fn selected_inputs(candidates: Seq<Candidate>, selected: Set<usize>) -> nat
    decreases candidates.len(),
{
    if candidates.len() == 0 {
        0
    } else {
        selected_inputs(candidates.drop_last(), selected) + if selected.contains(
            (candidates.len() - 1) as usize,
        ) {
            candidates.last().input_count as nat
        } else {
            0
        }
    }
}

/// The bytes that a length takes in front of a list.
pub open spec fn varint_size(n: nat) -> nat {
    if n <= 0xfc {
        1
    } else if n <= 0xffff {
        3
    } else if n <= 0xffff_ffff {
        5
    } else {
        9
    }
}

/// The weight of a transaction without inputs that pays `outputs`.
pub open spec fn base_weight(outputs: TargetOutputs) -> nat {
    32 + 4 + 4 * varint_size(outputs.n_outputs as nat) + outputs.weight_sum as nat
}

/// The weight of the transaction that spends the selected candidates and pays `outputs`: the
/// version and lock time, the two list lengths, the inputs, the witness marker and flag, and the
/// outputs.
pub open spec fn tx_weight(
    candidates: Seq<Candidate>,
    selected: Set<usize>,
    outputs: TargetOutputs,
) -> nat {
    32 + 4 * varint_size(selected_inputs(candidates, selected)) + selected_weight(
        candidates,
        selected,
    ) + (if exists|i: usize| i < candidates.len() && selected.contains(i) {
        2nat
    } else {
        0
    }) + 4 * varint_size(outputs.n_outputs as nat) + outputs.weight_sum as nat
}

/// The fee that `FeeRate::from_vb(sats, vbytes)` implies for a transaction of `tx_weight` weight
/// units, as `FeeRate::implied_fee` rounds it.
pub uninterp spec fn implied_fee(sats: u64, vbytes: usize, tx_weight: u64) -> u64;

/// How far the selected value exceeds the target value and the fee; negative if it falls short.
pub open spec fn excess(
    candidates: Seq<Candidate>,
    selected: Set<usize>,
    target: Target,
) -> int {
    selected_value(candidates, selected) - target.outputs.value_sum - implied_fee(
        target.feerate.sats,
        target.feerate.vbytes,
        tx_weight(candidates, selected, target.outputs) as u64,
    )
}

/// Whether the selected candidates pay for the target.
pub open spec fn target_met(
    candidates: Seq<Candidate>,
    selected: Set<usize>,
    target: Target,
) -> bool {
    excess(candidates, selected, target) >= 0
}

/// A rate that the selector can compute with: not a division by zero, and below 2^28 sat/vB.
pub open spec fn rate_in_range(rate: FeeRate) -> bool {
    rate.vbytes > 0 && rate.sats < 0x1000_0000 * rate.vbytes
}

/// Numbers for which the selector's 64-bit arithmetic is exact: below 2^62 satoshis and below
/// 2^32 weight units, inputs and outputs, with every input a segwit input.
pub open spec fn in_range(candidates: Seq<Candidate>, target: Target) -> bool {
    &&& rate_in_range(target.feerate)
    &&& candidates.len() < 0x1_0000_0000
    &&& selected_value(candidates, Set::full()) < 0x4000_0000_0000_0000
    &&& selected_weight(candidates, Set::full()) < 0x1_0000_0000
    &&& selected_inputs(candidates, Set::full()) < 0x1_0000_0000
    &&& target.outputs.value_sum < 0x4000_0000_0000_0000
    &&& target.outputs.weight_sum < 0x1_0000_0000
    &&& target.outputs.n_outputs < 0x1_0000_0000
    &&& forall|i: int| 0 <= i < candidates.len() ==> (#[trigger] candidates[i]).is_segwit
}

/// Parameters for which the branch-and-bound search is defined.
///
/// The search scores selections in single precision and insists that the fee of a perfect
/// selection is not negative. Four roundings can count against that fee: of the missing value, of a
/// quotient, of a product and of the target value, each by at most a 2^24th part. The fee of the
/// outputs alone, a quarter of their weight times the rate, makes up for them, with a little to
/// spare for its own roundings.
pub open spec fn search_in_range(
    target: Target,
    long_term_feerate: FeeRate,
    change_policy: ChangePolicy,
) -> bool {
    &&& rate_in_range(long_term_feerate)
    &&& change_policy.min_value < 0x4000_0000_0000_0000
    &&& change_policy.drain_weights.output_weight < 0x1_0000_0000
    &&& change_policy.drain_weights.spend_weight < 0x1_0000_0000
    &&& change_policy.drain_weights.n_outputs < 0x1_0000_0000
    &&& base_weight(target.outputs) * target.feerate.sats * 0x100_0000 >= 17
        * target.feerate.vbytes * target.outputs.value_sum
}

/// The selection that results from adding the candidates of `order` one by one until the target
/// is met, and whether it is met.
pub open spec fn fill(
    candidates: Seq<Candidate>,
    selected: Set<usize>,
    order: Seq<usize>,
    target: Target,
) -> (Set<usize>, bool)
    decreases order.len(),
{
    if target_met(candidates, selected, target) {
        (selected, true)
    } else if order.len() == 0 {
        (selected, false)
    } else {
        fill(candidates, selected.insert(order[0]), order.drop_first(), target)
    }
}

/// The indices `0..n` in ascending order.
pub open spec fn ascending(n: nat) -> Seq<usize> {
    Seq::new(n, |i: int| i as usize)
}

// ---------------------------------------------------------------------------------------------
// The selector
// ---------------------------------------------------------------------------------------------

/// The candidates that a selector was made over.
pub uninterp spec fn selector_candidates(selector: CoinSelector<'_>) -> Seq<Candidate>;

/// The indices that a selector has selected.
pub uninterp spec fn selector_selected(selector: CoinSelector<'_>) -> Set<usize>;

/// The indices that a selector may select by itself, in the order in which it tries them.
pub uninterp spec fn selector_order(selector: CoinSelector<'_>) -> Seq<usize>;

/// The selection that the branch-and-bound search for the lowest fee finds, if it finds one.
pub uninterp spec fn lowest_fee_selection(
    candidates: Seq<Candidate>,
    selected: Set<usize>,
    target: Target,
    long_term_feerate: FeeRate,
    change_policy: ChangePolicy,
    max_rounds: usize,
) -> Option<Set<usize>>;

/// `CoinSelector::new` starts with nothing selected and tries the candidates in their own order.
pub assume_specification<'a>[ CoinSelector::<'a>::new ](
    candidates: &'a [Candidate],
) -> (selector: CoinSelector<'a>)
    ensures
        selector_candidates(selector) == candidates@,
        selector_selected(selector) == Set::<usize>::empty(),
        selector_order(selector) == ascending(candidates@.len()),
;

/// `CoinSelector::select` adds one index to the selection and says whether it was new.
pub assume_specification<'a>[ CoinSelector::<'a>::select ](
    selector: &mut CoinSelector<'a>,
    index: usize,
) -> (added: bool)
    requires
        index < selector_candidates(*old(selector)).len(),
    ensures
        selector_candidates(*final(selector)) == selector_candidates(*old(selector)),
        selector_selected(*final(selector)) == selector_selected(*old(selector)).insert(index),
        selector_order(*final(selector)) == selector_order(*old(selector)),
        added == !selector_selected(*old(selector)).contains(index),
;

/// `CoinSelector::is_target_met`, for a target that replaces no earlier transaction: whether the
/// selected value reaches the target value and the implied fee.
#[verifier::external_body]
pub(crate) fn is_target_met(selector: &CoinSelector<'_>, target: Target) -> (met: bool)
    requires
        in_range(selector_candidates(*selector), target),
    ensures
        met == (selected_value(selector_candidates(*selector), selector_selected(*selector))
            >= target.outputs.value_sum + implied_fee(
            target.feerate.sats,
            target.feerate.vbytes,
            tx_weight(
                selector_candidates(*selector),
                selector_selected(*selector),
                target.outputs,
            ) as u64,
        )),
{
    selector.is_target_met(bdk_coin_select::Target {
        fee: bdk_coin_select::TargetFee::from_feerate(
            bdk_coin_select::FeeRate::from_vb(target.feerate.sats, target.feerate.vbytes),
        ),
        outputs: target.outputs,
    })
}

/// `CoinSelector::missing`: by how much the selection falls short of the target, a magnitude of
/// a signed 64-bit number.
#[verifier::external_body]
pub(crate) fn missing(selector: &CoinSelector<'_>, target: Target) -> (sats: u64)
    requires
        in_range(selector_candidates(*selector), target),
    ensures
        sats <= 0x8000_0000_0000_0000,
        sats == (if target_met(
            selector_candidates(*selector),
            selector_selected(*selector),
            target,
        ) {
            0
        } else {
            -excess(selector_candidates(*selector), selector_selected(*selector), target)
        }),
{
    selector.missing(bdk_coin_select::Target {
        fee: bdk_coin_select::TargetFee::from_feerate(
            bdk_coin_select::FeeRate::from_vb(target.feerate.sats, target.feerate.vbytes),
        ),
        outputs: target.outputs,
    })
}

/// `CoinSelector::select_until_target_met` adds candidates in the selector's order until the
/// target is met, and succeeds if it is.
#[verifier::external_body]
pub(crate) fn select_until_target_met(selector: &mut CoinSelector<'_>, target: Target) -> (met: bool)
    requires
        in_range(selector_candidates(*old(selector)), target),
    ensures
        selector_candidates(*final(selector)) == selector_candidates(*old(selector)),
        selector_order(*final(selector)) == selector_order(*old(selector)),
        (selector_selected(*final(selector)), met) == fill(
            selector_candidates(*old(selector)),
            selector_selected(*old(selector)),
            selector_order(*old(selector)),
            target,
        ),
{
    selector.select_until_target_met(bdk_coin_select::Target {
        fee: bdk_coin_select::TargetFee::from_feerate(
            bdk_coin_select::FeeRate::from_vb(target.feerate.sats, target.feerate.vbytes),
        ),
        outputs: target.outputs,
    }).is_ok()
}

/// `CoinSelector::run_bnb` with the `LowestFee` metric, on a selector whose order is untouched.
///
/// When the search finds a solution the selector takes it over. A solution extends the selection
/// that the search started from, stays within the candidates and meets the target, since the
/// metric scores no other selection. When the search finds none, the selector is as before.
#[verifier::external_body]
pub(crate) fn run_lowest_fee_bnb(
    selector: &mut CoinSelector<'_>,
    target: Target,
    long_term_feerate: FeeRate,
    change_policy: ChangePolicy,
    max_rounds: usize,
) -> (found: bool)
    requires
        in_range(selector_candidates(*old(selector)), target),
        search_in_range(target, long_term_feerate, change_policy),
        selector_order(*old(selector)) == ascending(selector_candidates(*old(selector)).len()),
    ensures
        selector_candidates(*final(selector)) == selector_candidates(*old(selector)),
        ({
            let solution = lowest_fee_selection(
                selector_candidates(*old(selector)),
                selector_selected(*old(selector)),
                target,
                long_term_feerate,
                change_policy,
                max_rounds,
            );
            &&& found == (solution is Some)
            &&& found ==> selector_selected(*final(selector)) == solution->0
        }),
        found ==> {
            &&& selector_selected(*old(selector)).subset_of(selector_selected(*final(selector)))
            &&& forall|i: usize| #[trigger]
                selector_selected(*final(selector)).contains(i) ==> selector_selected(
                    *old(selector),
                ).contains(i) || i < selector_candidates(*old(selector)).len()
            &&& target_met(
                selector_candidates(*old(selector)),
                selector_selected(*final(selector)),
                target,
            )
        },
        !found ==> {
            &&& selector_selected(*final(selector)) == selector_selected(*old(selector))
            &&& selector_order(*final(selector)) == selector_order(*old(selector))
        },
{
    let metric = bdk_coin_select::metrics::LowestFee {
        target: bdk_coin_select::Target {
            fee: bdk_coin_select::TargetFee::from_feerate(
                bdk_coin_select::FeeRate::from_vb(target.feerate.sats, target.feerate.vbytes),
            ),
            outputs: target.outputs,
        },
        long_term_feerate: bdk_coin_select::FeeRate::from_vb(
            long_term_feerate.sats,
            long_term_feerate.vbytes,
        ),
        change_policy,
    };
    selector.run_bnb(metric, max_rounds).is_ok()
}

/// `CoinSelector::selected_indices`: the selection as a list in ascending order.
#[verifier::external_body]
pub(crate) fn selected_indices(selector: &CoinSelector<'_>) -> (indices: Vec<usize>)
    ensures
        forall|i: int, j: int| 0 <= i < j < indices@.len() ==> indices@[i] < indices@[j],
        forall|i: usize| indices@.contains(i) <==> selector_selected(*selector).contains(i),
{
    selector.selected_indices().iter().copied().collect()
}

/// The sum of the weights of a list of outputs.
pub open spec fn weights_sum(outputs: Seq<(u64, u64)>) -> nat
    decreases outputs.len(),
{
    if outputs.len() == 0 {
        0
    } else {
        weights_sum(outputs.drop_last()) + outputs.last().0 as nat
    }
}

/// The sum of the values of a list of outputs.
pub open spec fn values_sum(outputs: Seq<(u64, u64)>) -> nat
    decreases outputs.len(),
{
    if outputs.len() == 0 {
        0
    } else {
        values_sum(outputs.drop_last()) + outputs.last().1 as nat
    }
}

/// `TargetOutputs::fund_outputs`: counts a list of weights and values, and adds it up.
#[verifier::external_body]
pub(crate) fn fund_outputs(outputs: Vec<(u64, u64)>) -> (r: TargetOutputs)
    requires
        weights_sum(outputs@) <= u64::MAX,
        values_sum(outputs@) <= u64::MAX,
    ensures
        r.n_outputs == outputs@.len(),
        r.weight_sum == weights_sum(outputs@),
        r.value_sum == values_sum(outputs@),
{
    TargetOutputs::fund_outputs(outputs)
}

/// What change costs, now and when it is spent, as `DrainWeights::waste` adds it up for a
/// transaction without other outputs, rounded up to satoshis.
pub uninterp spec fn change_waste(
    drain_weights: DrainWeights,
    feerate: FeeRate,
    long_term_feerate: FeeRate,
) -> u64;

/// `ChangePolicy::min_value_and_waste`: change is worth it from `min_value` on, or from what it
/// costs if that is more. With weights below 2^32 units and rates below 2^28 sat/vB the cost is
/// below 2^60 satoshis.
#[verifier::external_body]
pub(crate) fn min_value_and_waste(
    drain_weights: DrainWeights,
    min_value: u64,
    feerate: FeeRate,
    long_term_feerate: FeeRate,
) -> (r: ChangePolicy)
    requires
        rate_in_range(feerate),
        rate_in_range(long_term_feerate),
        drain_weights.output_weight < 0x1_0000_0000,
        drain_weights.spend_weight < 0x1_0000_0000,
        drain_weights.n_outputs < 0x1_0000_0000,
    ensures
        r.drain_weights == drain_weights,
        r.min_value == if change_waste(drain_weights, feerate, long_term_feerate) >= min_value {
            change_waste(drain_weights, feerate, long_term_feerate)
        } else {
            min_value
        },
        r.min_value == min_value || r.min_value < 0x1000_0000_0000_0000,
{
    ChangePolicy::min_value_and_waste(
        drain_weights,
        min_value,
        bdk_coin_select::FeeRate::from_vb(feerate.sats, feerate.vbytes),
        bdk_coin_select::FeeRate::from_vb(long_term_feerate.sats, long_term_feerate.vbytes),
    )
}

} // verus!
