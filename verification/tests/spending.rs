//! Choosing coins, splitting payments and listing incoming transactions.

use coinswap_wallet::coin_selector::FeeRate;
use coinswap_wallet::error::WalletError;
use coinswap_wallet::funding::split_with_more;
use coinswap_wallet::splits::DUST_LIMIT;
use coinswap_wallet::transactions::IncomingOutput;
use coinswap_wallet::types::{AddressType, Network, OutPoint, Script, Txid};
use coinswap_wallet::utxo::{Coin, UTXOSpendInfo, Utxo};
use coinswap_wallet::wallet::Wallet;
use std::collections::HashSet;

const RATE: FeeRate = FeeRate { sats: 2, vbytes: 1 };

fn op(n: u8) -> OutPoint {
    OutPoint::new(Txid { bytes: [n; 32] }, n as u32)
}

fn coin(n: u8, amount: u64, is_swap: bool) -> Coin {
    let utxo = Utxo {
        txid: op(n).txid,
        vout: op(n).vout,
        address: Some(format!("address{}", n)),
        label: None,
        redeem_script: None,
        witness_script: None,
        script_pub_key: Script { bytes: vec![0x51, n] },
        amount,
        confirmations: n as u32,
        spendable: true,
        solvable: true,
        descriptor: None,
        safe: true,
    };
    let (path, input_value, address_type) = ("m/0/0".to_string(), amount, AddressType::P2TR);
    if is_swap {
        (utxo, UTXOSpendInfo::SweptCoin { path, input_value, address_type })
    } else {
        (utxo, UTXOSpendInfo::SeedCoin { path, input_value, address_type })
    }
}

fn wallet(coins: Vec<Coin>) -> Wallet {
    let mut wallet =
        Wallet::from_seed("spend-test".to_string(), Network::Regtest, &vec![3; 16], 0).unwrap();
    for coin in coins {
        wallet.store.utxo_cache.insert(coin.0.outpoint(), coin);
    }
    assert!(wallet.can_select());
    wallet
}

fn outpoints(coins: &[Coin]) -> HashSet<OutPoint> {
    coins.iter().map(|c| c.0.outpoint()).collect()
}

fn sum(coins: &[Coin]) -> u64 {
    coins.iter().map(|c| c.0.amount).sum()
}

#[test]
fn regular_coins_are_preferred() {
    let wallet = wallet(vec![coin(1, 90_000, false), coin(2, 90_000, true)]);
    let selected = wallet.coin_select(50_000, RATE, None, None, &vec![]).unwrap();
    assert_eq!(outpoints(&selected), HashSet::from([op(1)]));
}

#[test]
fn swap_coins_step_in_where_regular_coins_fall_short() {
    let wallet = wallet(vec![coin(1, 10_000, false), coin(2, 90_000, true)]);
    let selected = wallet.coin_select(50_000, RATE, None, None, &vec![]).unwrap();
    assert_eq!(outpoints(&selected), HashSet::from([op(2)]));
}

#[test]
fn kinds_are_not_mixed_even_if_both_together_would_do() {
    let wallet = wallet(vec![coin(1, 40_000, false), coin(2, 40_000, true)]);
    match wallet.coin_select(60_000, RATE, None, None, &vec![]) {
        Err(WalletError::InsufficientFund { available, required }) => {
            assert_eq!(available, 40_000);
            assert!(required > 80_000);
        }
        other => panic!("{:?}", other),
    }
}

#[test]
fn asked_coins_are_spent() {
    let wallet =
        wallet(vec![coin(1, 90_000, false), coin(2, 80_000, false), coin(3, 90_000, true)]);
    let selected = wallet.coin_select(50_000, RATE, Some(vec![op(2)]), None, &vec![]).unwrap();
    assert!(outpoints(&selected).contains(&op(2)));
    let selected = wallet.coin_select(50_000, RATE, Some(vec![op(3)]), None, &vec![]).unwrap();
    assert_eq!(outpoints(&selected), HashSet::from([op(3)]));
}

#[test]
fn asked_coins_of_both_kinds_are_refused() {
    let wallet = wallet(vec![coin(1, 90_000, false), coin(2, 90_000, true)]);
    match wallet.coin_select(50_000, RATE, Some(vec![op(1), op(2)]), None, &vec![]) {
        Err(WalletError::General(text)) => {
            assert_eq!(text, "Cannot mix regular and swap UTXOs in manual selection")
        }
        other => panic!("{:?}", other),
    }
}

#[test]
fn locked_excluded_and_unconfirmed_coins_are_left() {
    // The coin number zero has no confirmation.
    let coins = vec![
        coin(0, 900_000, false),
        coin(1, 90_000, false),
        coin(2, 80_000, false),
        coin(3, 70_000, false),
    ];
    let wallet = wallet(coins);
    let selected =
        wallet.coin_select(50_000, RATE, None, Some(vec![op(2)]), &vec![op(1)]).unwrap();
    assert_eq!(outpoints(&selected), HashSet::from([op(3)]));
}

#[test]
fn nothing_to_spend_is_told() {
    let wallet = wallet(vec![coin(0, 900_000, false)]);
    match wallet.coin_select(50_000, RATE, None, None, &vec![]) {
        Err(WalletError::InsufficientFund { available, required }) => {
            assert_eq!((available, required), (0, 50_000))
        }
        other => panic!("{:?}", other),
    }
}

#[test]
fn coins_without_an_address_share_their_script() {
    let mut coins = vec![coin(1, 30_000, false), coin(2, 31_000, false), coin(3, 90_000, false)];
    coins[0].0.address = None;
    coins[1].0.address = None;
    coins[1].0.script_pub_key = coins[0].0.script_pub_key.clone();
    let selected = wallet(coins).coin_select(50_000, RATE, None, None, &vec![]).unwrap();
    assert_eq!(outpoints(&selected), HashSet::from([op(1), op(2)]));
}

#[test]
fn selected_coins_pay_for_the_amount_and_more() {
    let coins: Vec<Coin> = (1..=20).map(|n| coin(n, 7_000 * n as u64, false)).collect();
    let wallet = wallet(coins);
    for amount in [1_000u64, 50_000, 300_000, 1_000_000] {
        let selected = wallet.coin_select(amount, RATE, None, None, &vec![]).unwrap();
        assert_eq!(outpoints(&selected).len(), selected.len());
        assert!(sum(&selected) > amount);
    }
    assert!(wallet.coin_select(1_470_000, RATE, None, None, &vec![]).is_err());
}

#[test]
fn a_payment_is_planned_for_a_valid_address() {
    let wallet = wallet(vec![coin(1, 90_000, false)]);
    let script = bitcoin::ScriptBuf::new_p2wsh(&bitcoin::hashes::Hash::from_byte_array([4; 32]));
    let address = bitcoin::Address::from_script(&script, bitcoin::Network::Regtest).unwrap();
    let (to, coins) =
        wallet.plan_payment(50_000, &address.to_string(), RATE, None, &vec![]).unwrap();
    assert_eq!(to.bytes, script.into_bytes());
    assert_eq!(outpoints(&coins), HashSet::from([op(1)]));
    // The address is looked at first.
    match wallet.plan_payment(500_000, "nowhere", RATE, None, &vec![]) {
        Err(WalletError::General(text)) => {
            assert_eq!(text, "Invalid address for the current wallet network")
        }
        other => panic!("{:?}", other),
    }
    let short = wallet.plan_payment(500_000, &address.to_string(), RATE, None, &vec![]);
    assert!(matches!(short, Err(WalletError::InsufficientFund { .. })));
}

#[test]
fn without_change_there_is_one_chunk() {
    let wallet = wallet(vec![]);
    let splits =
        wallet.create_dynamic_splits(vec![coin(1, 40_000, false)], 40_000, RATE, &vec![]);
    assert_eq!((splits.target_chunks, splits.change_chunks), (vec![40_000], vec![0]));
    // What the coins are worth, not what was asked for.
    let splits =
        wallet.create_dynamic_splits(vec![coin(1, 40_000, false)], 50_000, RATE, &vec![]);
    assert_eq!((splits.target_chunks, splits.change_chunks), (vec![40_000], vec![0]));
    assert!(splits.to_lock.is_empty());
}

#[test]
fn change_like_the_target_is_split_in_two_and_two() {
    let wallet = wallet(vec![]);
    for value in [190_000, 200_000, 210_000] {
        let splits =
            wallet.create_dynamic_splits(vec![coin(1, value, false)], 100_000, RATE, &vec![]);
        assert_eq!((splits.target_chunks.len(), splits.change_chunks.len()), (2, 2));
        assert_eq!(splits.target_chunks.iter().sum::<u64>(), 100_000);
        assert_eq!(splits.change_chunks.iter().sum::<u64>(), value - 100_000);
    }
}

#[test]
fn small_change_draws_further_coins() {
    // 30 000 of change; 70 000 more are missing, and the further coin brings it to 105 000.
    let wallet = wallet(vec![coin(1, 130_000, false), coin(2, 75_000, false)]);
    let splits = wallet.create_dynamic_splits(
        vec![coin(1, 130_000, false)],
        100_000,
        RATE,
        &vec![op(1)],
    );
    assert_eq!(outpoints(&splits.inputs), HashSet::from([op(1), op(2)]));
    assert_eq!(splits.to_lock, vec![op(2)]);
    assert_eq!((splits.target_chunks.len(), splits.change_chunks.len()), (2, 2));
    assert_eq!(splits.change_chunks.iter().sum::<u64>(), 105_000);
}

#[test]
fn small_change_without_further_coins_is_split_as_it_is() {
    let wallet = wallet(vec![coin(1, 150_000, false)]);
    let splits = wallet.create_dynamic_splits(
        vec![coin(1, 150_000, false)],
        100_000,
        RATE,
        &vec![op(1)],
    );
    assert_eq!(outpoints(&splits.inputs), HashSet::from([op(1)]));
    assert!(splits.to_lock.is_empty());
    // Two target chunks beside one change chunk of the same size.
    assert_eq!((splits.target_chunks.len(), splits.change_chunks.len()), (2, 1));
}

#[test]
fn large_change_is_split_like_the_target() {
    let wallet = wallet(vec![]);
    let splits =
        wallet.create_dynamic_splits(vec![coin(1, 400_000, false)], 100_000, RATE, &vec![]);
    assert_eq!((splits.target_chunks.len(), splits.change_chunks.len()), (1, 3));
    assert_eq!(splits.change_chunks.iter().sum::<u64>(), 300_000);
}

#[test]
fn a_costly_further_coin_is_not_spent() {
    // With 50 000 of change the split is 2 : 1 from one input; with 5 050 000 nothing is close.
    let splits =
        split_with_more(vec![coin(1, 150_000, false)], vec![coin(2, 5_000_000, false)], 100_000);
    assert_eq!(outpoints(&splits.inputs), HashSet::from([op(1)]));
    assert_eq!(splits.to_lock, vec![op(2)]);
    assert_eq!((splits.target_chunks.len(), splits.change_chunks.len()), (2, 1));
}

#[test]
fn splits_keep_the_value_of_their_inputs() {
    let coins: Vec<Coin> = (1..=9).map(|n| coin(n, 13_000 * n as u64, false)).collect();
    let wallet = wallet(coins);
    for target in [5_000u64, 20_000, 60_000, 100_000] {
        let first = wallet.coin_select(target, RATE, None, None, &vec![]).unwrap();
        let locked: Vec<OutPoint> = first.iter().map(|c| c.0.outpoint()).collect();
        let splits = wallet.create_dynamic_splits(first, target, RATE, &locked);
        let outputs = splits.target_chunks.iter().sum::<u64>()
            + splits.change_chunks.iter().sum::<u64>();
        assert_eq!(outputs, sum(&splits.inputs));
    }
}

#[test]
fn varied_distributions_are_selected_and_split() {
    let pool: [u64; 21] = [
        107_831, 91_379, 712_971, 432_441, 301_909, 38_012, 298_092, 9_091, 109_831, 3_919,
        1_946_436, 1_000_000, 1_992_436, 70_000, 800_000, 900_000, 100_000, 46_824, 53_245, 65_658,
        35_892,
    ];
    let total: u64 = pool.iter().sum();
    let coins: Vec<Coin> =
        pool.iter().enumerate().map(|(n, value)| coin(n as u8 + 1, *value, false)).collect();
    let wallet = wallet(coins);
    let targets: [u64; 14] = [
        54_082, 102_980, 708_742, 500_000, 654_321, 90_000, 10_000, 1_000_000, 999_999, 123_456,
        250_000, 500, 1_500, 2_500,
    ];
    for target in targets {
        let selected = wallet.coin_select(target, RATE, None, None, &vec![]).unwrap();
        let locked: Vec<OutPoint> = selected.iter().map(|c| c.0.outpoint()).collect();
        let splits = wallet.create_dynamic_splits(selected, target, RATE, &locked);
        // No input twice, none from elsewhere, and the inputs cover the target.
        assert_eq!(outpoints(&splits.inputs).len(), splits.inputs.len());
        assert!(splits.inputs.iter().all(|c| pool.contains(&c.0.amount)));
        assert!(sum(&splits.inputs) > target && sum(&splits.inputs) <= total);
        assert_eq!(splits.target_chunks.iter().sum::<u64>(), target);
        let change = splits.change_chunks.iter().sum::<u64>();
        let rest = sum(&splits.inputs) - target - change;
        assert!(rest == 0 || rest < DUST_LIMIT && change == 0);
        // No output is tiny.
        assert!(splits.target_chunks.iter().all(|chunk| *chunk >= DUST_LIMIT));
        assert!(splits.change_chunks.iter().all(|chunk| *chunk == 0 || *chunk >= DUST_LIMIT));
    }
}

#[test]
fn tiny_change_is_left_to_the_fee() {
    let only = coin(1, 100_100, false);
    let wallet = wallet(vec![coin(1, 100_100, false)]);
    let splits = wallet.create_dynamic_splits(vec![only], 100_000, RATE, &vec![op(1)]);
    assert_eq!(splits.change_chunks, vec![0]);
    assert_eq!(splits.target_chunks.len(), 2);
    assert_eq!(splits.target_chunks.iter().sum::<u64>(), 100_000);
    assert!(splits.target_chunks.iter().all(|chunk| *chunk >= DUST_LIMIT));
    // At the dust limit it has an output.
    let (other, all) = (coin(1, 100_294, false), vec![op(1)]);
    let splits = wallet.create_dynamic_splits(vec![other], 100_000, RATE, &all);
    assert_eq!(splits.change_chunks, vec![294]);
}

#[test]
fn small_payments_are_split_unless_a_chunk_would_be_dust() {
    let wallet = wallet(vec![]);
    let split = |value, target| {
        let splits =
            wallet.create_dynamic_splits(vec![coin(1, value, false)], target, RATE, &vec![]);
        (splits.target_chunks, splits.change_chunks)
    };
    // Change like the target, but two chunks of either would be dust.
    assert_eq!(split(1_000, 500), (vec![500], vec![500]));
    // Two chunks of either are none.
    let (targets, changes) = split(2_000, 1_000);
    assert_eq!((targets.len(), changes.len()), (2, 2));
    assert_eq!((targets.iter().sum::<u64>(), changes.iter().sum::<u64>()), (1_000, 1_000));
    // The change is dust as a whole.
    let (targets, changes) = split(600, 310);
    assert_eq!((targets, changes), (vec![310], vec![0]));
}

#[test]
fn further_inputs_were_neither_locked_nor_chosen() {
    let coins = || (1..=9).map(|n| coin(n, 13_000 * n as u64, false)).collect::<Vec<Coin>>();
    let wallet = wallet(coins());
    let first: Vec<Coin> = coins().into_iter().take(2).collect();
    let locked = vec![op(1), op(2), op(9)];
    let splits = wallet.create_dynamic_splits(first, 30_000, RATE, &locked);
    assert!(!splits.to_lock.is_empty());
    assert!(splits.to_lock.iter().all(|outpoint| !locked.contains(outpoint)));
    assert_eq!(outpoints(&splits.inputs).len(), splits.inputs.len());
}

#[test]
fn incoming_transactions_are_summed_up() {
    let mut coins = vec![coin(5, 500, false), coin(3, 300, true), coin(9, 900, false)];
    // A second output of the first transaction, with fewer confirmations.
    let mut second = coin(5, 50, true);
    second.0.vout = 77;
    second.0.confirmations = 2;
    coins.push(second);
    let mut contract = coin(1, 1_000, false);
    contract.1 = UTXOSpendInfo::FidelityBondCoin { index: 0, input_value: 1_000 };
    coins.push(contract);
    let wallet = wallet(coins);
    assert!(wallet.can_sum_transactions(&vec![]));
    let rows = wallet.get_transactions(&vec![], None, None);
    let seen: Vec<(u8, u64, u32)> =
        rows.iter().map(|r| (r.txid.bytes[0], r.amount, r.confirmations)).collect();
    assert_eq!(seen, vec![(5, 550, 2), (3, 300, 3), (9, 900, 9)]);
}

#[test]
fn incoming_transactions_come_in_pages() {
    let coins: Vec<Coin> = (1..=15).rev().map(|n| coin(n, n as u64, false)).collect();
    let wallet = wallet(coins);
    let ids = |count, skip| -> Vec<u8> {
        wallet.get_transactions(&vec![], count, skip).iter().map(|r| r.txid.bytes[0]).collect()
    };
    assert_eq!(ids(None, None), (1..=10).collect::<Vec<u8>>());
    assert_eq!(ids(None, Some(10)), (11..=15).collect::<Vec<u8>>());
    assert_eq!(ids(Some(3), Some(4)), vec![5, 6, 7]);
    assert_eq!(ids(Some(usize::MAX), Some(13)), vec![14, 15]);
    assert_eq!(ids(Some(0), None), Vec::<u8>::new());
    assert_eq!(ids(None, Some(usize::MAX)), Vec::<u8>::new());
}

#[test]
fn transactions_of_one_block_are_ordered_by_id() {
    let mut coins = vec![coin(7, 1, false), coin(2, 1, false), coin(4, 1, false)];
    for coin in &mut coins {
        coin.0.confirmations = 6;
    }
    let rows = wallet(coins).get_transactions(&vec![], None, None);
    assert_eq!(rows.iter().map(|r| r.txid.bytes[0]).collect::<Vec<_>>(), vec![2, 4, 7]);
}

#[test]
fn spent_transactions_stay_in_the_list() {
    let wallet = wallet(vec![coin(3, 300, false)]);
    let output = |n: u8, vout, amount, confirmations| IncomingOutput {
        outpoint: OutPoint::new(op(n).txid, vout),
        amount,
        confirmations,
    };
    // Two outputs of one transaction, both spent, one more beside the coin, and the coin itself.
    let past = vec![
        output(8, 0, 7_000, 5),
        output(8, 4, 500, 5),
        output(3, 77, 20, 3),
        output(3, 3, 300, 3),
        output(8, 0, 7_000, 5),
    ];
    assert_eq!(wallet.known_outputs(&past).len(), 4);
    let rows = wallet.get_transactions(&past, Some(usize::MAX), None);
    let seen: Vec<(u8, u64, u32)> =
        rows.iter().map(|r| (r.txid.bytes[0], r.amount, r.confirmations)).collect();
    assert_eq!(seen, vec![(3, 320, 3), (8, 7_500, 5)]);
}
