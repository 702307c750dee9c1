//! The policy of coin selection from one pile: grouping by address, pinned coins, linked coins first,
//! and the outpoints that come back.

use bdk_coin_select::{
    ChangePolicy, DrainWeights, FeeRate as SelectorFeeRate, TargetOutputs,
    TR_KEYSPEND_SATISFACTION_WEIGHT, TR_SPK_WEIGHT, TXOUT_BASE_WEIGHT,
};
use coinswap_wallet::coin_selector::{FeeRate, Target};
use coinswap_wallet::pile::{select_from_pile, PileUtxo};
use coinswap_wallet::types::{OutPoint, Txid};
use std::collections::HashSet;

fn op(n: u8) -> OutPoint {
    // Deterministic distinct outpoints: txid bytes = [n; 32], vout = 0.
    OutPoint::new(Txid { bytes: [n; 32] }, 0)
}

fn pile_utxo(n: u8, value: u64, address: &str, is_manual: bool) -> PileUtxo {
    PileUtxo {
        outpoint: op(n),
        value,
        witness_size: TR_KEYSPEND_SATISFACTION_WEIGHT,
        address_key: address.to_string(),
        is_manual,
    }
}

fn standard_target(value_sat: u64) -> Target {
    let p2tr_txout_weight = TXOUT_BASE_WEIGHT + TR_SPK_WEIGHT;
    Target {
        feerate: FeeRate { sats: 10, vbytes: 1 },
        outputs: TargetOutputs::fund_outputs([(p2tr_txout_weight, value_sat)]),
    }
}

fn change_policy() -> ChangePolicy {
    let ltf = SelectorFeeRate::from_sat_per_vb(10.0);
    ChangePolicy::min_value_and_waste(
        DrainWeights::TR_KEYSPEND,
        294,
        SelectorFeeRate::from_sat_per_vb(10.0),
        ltf,
    )
}

fn ltf() -> FeeRate {
    FeeRate { sats: 10, vbytes: 1 }
}

#[test]
fn reused_address_group_is_spent_together() {
    // Two UTXOs at address "A" (8k + 9k = 17k), one UTXO at "B" (50k).
    // Target 15k can be met by either A-group OR B alone. The reused-first
    // policy must pick A's *both* UTXOs (not just one of them, since they
    // are an atomic group).
    let pile = vec![
        pile_utxo(1, 8_000, "A", false),
        pile_utxo(2, 9_000, "A", false),
        pile_utxo(3, 50_000, "B", false),
    ];
    let out = select_from_pile(pile, standard_target(15_000), ltf(), change_policy())
        .expect("selection should succeed");
    let set: HashSet<_> = out.iter().copied().collect();
    // Both A-UTXOs must be present (atomic group).
    assert!(set.contains(&op(1)), "A's first UTXO must be selected");
    assert!(set.contains(&op(2)), "A's second UTXO must be selected");
    // B must NOT be selected; the reused A-group alone covers the target.
    assert!(!set.contains(&op(3)), "B should not be touched");
}

#[test]
fn smaller_reused_group_is_preferred() {
    // Two reused groups: smallA = 10k+10k = 20k; bigB = 100k+100k = 200k.
    // Target 15k; both groups individually meet it. Smallest-first means
    // smallA wins; bigB stays put.
    let pile = vec![
        pile_utxo(1, 10_000, "smallA", false),
        pile_utxo(2, 10_000, "smallA", false),
        pile_utxo(3, 100_000, "bigB", false),
        pile_utxo(4, 100_000, "bigB", false),
    ];
    let out = select_from_pile(pile, standard_target(15_000), ltf(), change_policy())
        .expect("selection should succeed");
    let set: HashSet<_> = out.iter().copied().collect();
    assert!(
        set.contains(&op(1)) && set.contains(&op(2)),
        "smallA picked"
    );
    assert!(
        !set.contains(&op(3)) && !set.contains(&op(4)),
        "bigB skipped"
    );
}

#[test]
fn manual_at_reused_address_splits_correctly() {
    // Address A has 3 UTXOs; one is manual.
    // The 2 non-manual A-UTXOs form a reused group (size 2).
    // The 1 manual A-UTXO sits alone in the manual pinned group.
    // Target chosen so we can verify both the manual and the reused mates
    // get selected (not just one or the other).
    let pile = vec![
        pile_utxo(1, 5_000, "A", true), // manual
        pile_utxo(2, 6_000, "A", false),
        pile_utxo(3, 7_000, "A", false),
        pile_utxo(4, 100_000, "B", false), // unrelated single
    ];
    // Target 14k: manual (5k) + reused mates (6k + 7k = 13k) = 18k. Both groups
    // are needed; B never gets touched.
    let out = select_from_pile(pile, standard_target(14_000), ltf(), change_policy())
        .expect("selection should succeed");
    let set: HashSet<_> = out.iter().copied().collect();
    assert!(set.contains(&op(1)), "manual A-UTXO must be selected");
    assert!(
        set.contains(&op(2)) && set.contains(&op(3)),
        "non-manual A-mates form their own reused group and both get selected"
    );
    assert!(
        !set.contains(&op(4)),
        "B should not be selected — manual + reused-A cover the target"
    );
}

#[test]
fn manual_utxo_is_always_in_result_even_if_unnecessary() {
    let pile = vec![
        pile_utxo(1, 1_000, "manual_addr", true),
        pile_utxo(2, 1_000_000, "big_single", false),
    ];
    // Target 500k; the big single alone could cover it, but manual must still
    // be included.
    let out = select_from_pile(pile, standard_target(500_000), ltf(), change_policy())
        .expect("selection should succeed");
    let set: HashSet<_> = out.iter().copied().collect();
    assert!(set.contains(&op(1)), "manual must be honored");
    assert!(set.contains(&op(2)), "big single needed to cover target");
}

#[test]
fn insufficient_funds_returns_err() {
    let pile = vec![
        pile_utxo(1, 5_000, "manual_addr", true),
        pile_utxo(2, 5_000, "X", false),
    ];
    let res = select_from_pile(pile, standard_target(100_000), ltf(), change_policy());
    match res {
        Err(missing) => assert!(missing > 0, "missing must be positive"),
        Ok(s) => panic!("expected Err, got Ok({:?})", s),
    }
}

#[test]
fn all_singles_bnb_drives_selection() {
    // All addresses distinct so no reused groups, no manuals. BnB picks a
    // subset that covers the target.
    let pile = (1u8..=8)
        .map(|n| pile_utxo(n, 10_000, &format!("addr_{n}"), false))
        .collect();
    let out = select_from_pile(pile, standard_target(45_000), ltf(), change_policy())
        .expect("selection should succeed");
    // Sum of selected must cover the target.
    let total: u64 = out.len() as u64 * 10_000;
    assert!(
        total >= 45_000,
        "selected value {} must cover target",
        total
    );
    // BnB shouldn't pick everything when fewer suffice.
    assert!(
        out.len() < 8,
        "BnB shouldn't select all 8 when a subset works"
    );
}

#[test]
fn distinct_address_keys_do_not_bundle() {
    // 4 UTXOs, all 100k sats, all at distinct addresses so 4 single groups,
    // no reused. Target 90k so BnB picks exactly one.
    let pile = (1u8..=4)
        .map(|n| pile_utxo(n, 100_000, &format!("a{n}"), false))
        .collect();
    let out = select_from_pile(pile, standard_target(90_000), ltf(), change_policy())
        .expect("selection should succeed");
    assert_eq!(out.len(), 1, "no reused grouping → BnB picks one single");
}

#[test]
fn returned_outpoints_are_a_subset_of_input() {
    let pile = vec![
        pile_utxo(1, 8_000, "A", false),
        pile_utxo(2, 9_000, "A", false),
        pile_utxo(3, 100_000, "B", true),
        pile_utxo(4, 50_000, "C", false),
    ];
    let input_ops: HashSet<_> = pile.iter().map(|u| u.outpoint).collect();
    let out = select_from_pile(pile, standard_target(50_000), ltf(), change_policy())
        .expect("selection should succeed");
    for o in &out {
        assert!(
            input_ops.contains(o),
            "outpoint {:?} fabricated or misindexed",
            o
        );
    }
}

#[test]
fn no_outpoint_appears_twice() {
    let pile = vec![
        pile_utxo(1, 10_000, "A", false),
        pile_utxo(2, 10_000, "A", false),
        pile_utxo(3, 10_000, "B", true),
        pile_utxo(4, 10_000, "C", false),
        pile_utxo(5, 10_000, "C", false),
    ];
    let out = select_from_pile(pile, standard_target(35_000), ltf(), change_policy())
        .expect("selection should succeed");
    let unique: HashSet<_> = out.iter().copied().collect();
    assert_eq!(out.len(), unique.len(), "duplicate outpoint in result");
}
