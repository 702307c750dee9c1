//! Spreading amounts over chunks, and splitting a payment and its change.

use coinswap_wallet::amounts::{add_up, reorder, spread_amounts, vary_amounts};
use coinswap_wallet::splits::{
    ct_harmony_split, simple_fee_optimization, split_change, split_change_in_two, vary_in_two,
    DUST_LIMIT, MAX_SPLITS, MIN_CHANGE_CHUNK,
};

#[test]
fn amounts_add_up() {
    assert_eq!(add_up(&vec![]), 0);
    assert_eq!(add_up(&vec![1, 2, 39]), 42);
    assert_eq!(add_up(&vec![u64::MAX - 1, 1]), u64::MAX);
}

#[test]
fn amounts_are_spread_in_proportion_and_rounded() {
    assert_eq!(spread_amounts(1_000, &vec![105, 95]), vec![525, 475]);
    assert_eq!(spread_amounts(10, &vec![1, 1, 1]), vec![3, 3, 3]);
    assert_eq!(spread_amounts(11, &vec![1, 1, 1]), vec![4, 4, 4]);
    // One half is rounded up.
    assert_eq!(spread_amounts(1, &vec![1, 1]), vec![1, 1]);
    assert_eq!(spread_amounts(0, &vec![3, 4]), vec![0, 0]);
    assert_eq!(spread_amounts(7, &vec![0, 5]), vec![0, 7]);
}

#[test]
fn amounts_are_reordered_along_the_draws() {
    assert_eq!(reorder(vec![1, 2, 3], &vec![0, 1, 2]), vec![1, 2, 3]);
    // 3 2 1, then 2 3 1, then 2 1 3.
    assert_eq!(reorder(vec![1, 2, 3], &vec![2, 0, 1]), vec![2, 1, 3]);
    assert_eq!(reorder(vec![7, 7, 4], &vec![2, 2, 2]), vec![4, 7, 7]);
    assert_eq!(reorder(vec![], &vec![]), Vec::<u64>::new());
}

#[test]
fn varied_amounts_keep_the_total() {
    for total in [0u64, 1, 2, 9, 10_000, 1_234_567, 2_100_000_000_000_000] {
        for num_chunks in 2usize..=5 {
            for _ in 0..20 {
                let chunks = vary_amounts(total, num_chunks);
                assert_eq!(chunks.len(), num_chunks);
                assert_eq!(chunks.iter().sum::<u64>(), total);
            }
        }
    }
}

#[test]
fn varied_amounts_are_even() {
    // The largest ratio is 1.1 * 1.05 where the others are at 0.95, the smallest 0.9 * 0.95 where
    // they are at 1.05.
    for num_chunks in 2usize..=5 {
        let mean = 1_000_000 / num_chunks as u64;
        for _ in 0..50 {
            for chunk in vary_amounts(1_000_000, num_chunks) {
                assert!(chunk >= mean * 82 / 100 && chunk <= mean * 119 / 100);
            }
        }
    }
}

#[test]
fn varied_amounts_differ_between_calls() {
    let first = vary_amounts(1_000_000_000, 5);
    assert!((0..20).any(|_| vary_amounts(1_000_000_000, 5) != first));
}

#[test]
fn other_numbers_of_chunks_are_not_varied() {
    assert_eq!(vary_amounts(5_000, 0), Vec::<u64>::new());
    assert_eq!(vary_amounts(5_000, 1), vec![5_000]);
    assert_eq!(vary_amounts(5_000, 6), vec![5_000]);
    assert_eq!(vary_amounts(5_000, usize::MAX), vec![5_000]);
}

#[test]
fn like_amounts_stay_in_one_chunk_each() {
    // 1 % apart: one chunk each is close, and no other split comes closer.
    let (target, change) = ct_harmony_split(100_000, 100_000, MAX_SPLITS);
    assert_eq!((target, change), (vec![100_000], vec![100_000]));
}

#[test]
fn change_twice_the_target_is_split_in_two() {
    let (target, change) = ct_harmony_split(100_000, 200_000, MAX_SPLITS);
    assert_eq!(target.len(), 1);
    assert_eq!(change.len(), 2);
    assert_eq!(target.iter().sum::<u64>(), 100_000);
    assert_eq!(change.iter().sum::<u64>(), 200_000);
}

#[test]
fn target_and_change_find_common_chunks() {
    // 3 : 5 is met exactly by three target chunks beside five change chunks.
    let (target, change) = ct_harmony_split(300_000, 500_000, MAX_SPLITS);
    assert_eq!((target.len(), change.len()), (3, 5));
    assert_eq!(target.iter().sum::<u64>(), 300_000);
    assert_eq!(change.iter().sum::<u64>(), 500_000);
}

#[test]
fn far_apart_amounts_split_only_the_target() {
    let (target, change) = ct_harmony_split(100_000, 10_000_000, MAX_SPLITS);
    assert_eq!(target.len(), 2);
    assert_eq!(target.iter().sum::<u64>(), 100_000);
    assert_eq!(change, vec![10_000_000]);
}

#[test]
fn dust_change_is_not_split() {
    // Two change chunks of 599 would be close to one target chunk of 600 but too small.
    let change_amount = 2 * MIN_CHANGE_CHUNK - 2;
    let (target, change) = ct_harmony_split(600, change_amount, MAX_SPLITS);
    assert_eq!(target.iter().sum::<u64>(), 600);
    assert_eq!(change, vec![change_amount]);
}

#[test]
fn splits_of_nothing() {
    let (target, change) = ct_harmony_split(0, 0, MAX_SPLITS);
    assert_eq!(target, vec![0, 0]);
    assert_eq!(change, vec![0]);
    let (target, change) = ct_harmony_split(1_000, 5_000, 0);
    assert_eq!(target.len(), 2);
    assert_eq!(target.iter().sum::<u64>(), 1_000);
    assert_eq!(change, vec![5_000]);
}

#[test]
fn change_below_the_dust_limit_has_no_output() {
    assert_eq!(split_change(DUST_LIMIT - 1, 1), vec![0]);
    assert_eq!(split_change(DUST_LIMIT, 1), vec![DUST_LIMIT]);
    assert_eq!(split_change(10_000, 3).iter().sum::<u64>(), 10_000);
    assert_eq!(split_change_in_two(293), vec![0]);
    assert_eq!(split_change_in_two(500), vec![500]);
    assert_eq!(split_change_in_two(655).len(), 2);
    let (target, change) = ct_harmony_split(100_000, 100, MAX_SPLITS);
    assert_eq!(target.len(), 2);
    assert_eq!(target.iter().sum::<u64>(), 100_000);
    assert_eq!(change, vec![0]);
    // Close to the target, and dust all the same.
    let (target, change) = ct_harmony_split(290, 290, MAX_SPLITS);
    assert_eq!((target, change), (vec![290], vec![0]));
}

#[test]
fn two_chunks_are_made_unless_one_would_be_dust() {
    // Two chunks of less than twice the limit cannot both reach it.
    for amount in [DUST_LIMIT, 400, 500, 587] {
        assert_eq!(vary_in_two(amount), vec![amount]);
    }
    // In between the draw decides.
    for amount in 588..655 {
        let chunks = vary_in_two(amount);
        assert!(chunks == vec![amount] || chunks.len() == 2);
        assert!(chunks.iter().all(|chunk| *chunk >= DUST_LIMIT));
        assert_eq!(chunks.iter().sum::<u64>(), amount);
    }
    for amount in [655, 1_000, 1_199, 100_000] {
        for _ in 0..50 {
            let chunks = vary_in_two(amount);
            assert_eq!(chunks.len(), 2);
            assert!(chunks.iter().all(|chunk| *chunk >= DUST_LIMIT));
        }
    }
    // An amount that is dust itself is split as ever.
    for amount in [0, 1, 293] {
        let chunks = vary_in_two(amount);
        assert_eq!((chunks.len(), chunks.iter().sum::<u64>()), (2, amount));
    }
    let (target, change) = ct_harmony_split(500, 50_000, MAX_SPLITS);
    assert_eq!((target, change), (vec![500], vec![50_000]));
}

#[test]
fn two_chunks_are_nearly_halves() {
    for total in [1_000u64, 54_321, 1_000_000_000] {
        for _ in 0..50 {
            for chunk in vary_amounts(total, 2) {
                assert!(100 * chunk + 200 >= 45 * total && 100 * chunk <= 55 * total + 200);
            }
        }
    }
}

#[test]
fn no_chunk_is_dust() {
    for target in (DUST_LIMIT..6_000).step_by(37) {
        for change in (0..9_000).step_by(111) {
            let (targets, changes) = ct_harmony_split(target, change, MAX_SPLITS);
            assert!(targets.iter().all(|chunk| *chunk >= DUST_LIMIT));
            assert!(changes.iter().all(|chunk| *chunk == 0 || *chunk >= DUST_LIMIT));
            let kept = if change < DUST_LIMIT { 0 } else { change };
            assert_eq!(targets.iter().sum::<u64>(), target);
            assert_eq!(changes.iter().sum::<u64>(), kept);
        }
    }
}

#[test]
fn fee_score_counts_inputs_and_outputs() {
    // Quarters: 8 for an input, 4 for a target output, 3 for a change output.
    assert_eq!(
        simple_fee_optimization(3, &vec![50_000, 50_000], &vec![49_000]),
        Some(3 * 8 + 2 * 4 + 3)
    );
    assert_eq!(simple_fee_optimization(0, &vec![0, 0], &vec![0]), Some(11));
}

#[test]
fn fee_score_is_refused_to_unlike_outputs() {
    assert_eq!(simple_fee_optimization(1, &vec![70_000], &vec![70_000]), None);
    assert_eq!(simple_fee_optimization(1, &vec![100_000, 100_000], &vec![84_999]), None);
    // 15 % is still close enough.
    assert_eq!(
        simple_fee_optimization(1, &vec![100_000, 100_000], &vec![85_000]),
        Some(8 + 8 + 3)
    );
}
