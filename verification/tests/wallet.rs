//! The state of a wallet: swap coins, cached coins and what is read from them.

use coinswap_wallet::checks::can_pay;
use coinswap_wallet::coin_selector::FeeRate;
use coinswap_wallet::error::WalletError;
use coinswap_wallet::requests::{ends_signing, must_ask, SigningRequest};
use coinswap_wallet::signing::Signer;
use coinswap_wallet::store::{FidelityBond, WalletStore};
use coinswap_wallet::swapcoin::{
    create_multisig_redeemscript, write_txid, SwapCoin, WatchOnlySwapCoin,
};
use coinswap_wallet::transactions::{count_confirmations, IncomingOutput};
use coinswap_wallet::types::{
    AddressType, KeychainKind, Network, OutPoint, ProtocolVersion, Script, Transaction, TxIn, TxOut,
    Txid,
};
use coinswap_wallet::utxo::{
    checked_total_value, total_value, Balances, Coin, RecoveryOutcome, UTXOSpendInfo, Utxo,
};
use coinswap_wallet::wallet::Wallet;
use coinswap_wallet::watch::WatchKey;

fn wallet() -> Wallet {
    Wallet::from_seed("wallet-test".to_string(), Network::Regtest, &vec![9; 16], 5).unwrap()
}

fn script(n: u8) -> Script {
    Script { bytes: vec![0x51, n] }
}

fn txid(n: u8) -> Txid {
    Txid { bytes: [n; 32] }
}

fn swap_coin(n: u8) -> SwapCoin {
    SwapCoin {
        swap_id: Some(format!("swap{}", n % 2)),
        protocol: ProtocolVersion::Legacy,
        contract_tx: Transaction {
            version: 2,
            lock_time: 0,
            input: vec![TxIn {
                previous_output: OutPoint::new(txid(n), 1),
                script_sig: Script { bytes: vec![] },
                sequence: 0,
                witness: vec![],
            }],
            output: vec![TxOut { value: 10_000 + n as u64, script_pubkey: script(n) }],
        },
        contract_vout: 0,
        contract_redeemscript: Some(script(n)),
        my_pubkey: Some([2; 33]),
        other_pubkey: Some([n; 33]),
        my_privkey: Some([1; 32]),
        other_privkey: None,
        hash_preimage: None,
        others_contract_sig: None,
        funding_amount: 20_000,
        timelock: Some(20),
    }
}

fn utxo(n: u8, amount: u64) -> Utxo {
    Utxo {
        txid: txid(n),
        vout: 0,
        address: Some(format!("address{}", n)),
        label: None,
        redeem_script: None,
        witness_script: None,
        script_pub_key: script(n),
        amount,
        confirmations: 3,
        spendable: true,
        solvable: true,
        descriptor: None,
        safe: true,
    }
}

fn seed_info(amount: u64) -> UTXOSpendInfo {
    UTXOSpendInfo::SeedCoin {
        path: "m/0/0".to_string(),
        input_value: amount,
        address_type: AddressType::P2TR,
    }
}

fn swept_info(amount: u64) -> UTXOSpendInfo {
    UTXOSpendInfo::SweptCoin {
        path: "m/1/0".to_string(),
        input_value: amount,
        address_type: AddressType::P2TR,
    }
}

fn fingerprint(wallet: &Wallet, address_type: AddressType) -> String {
    let key =
        coinswap_wallet::chain::derive_account_key(&wallet.store.master_key, address_type).unwrap();
    let key = bitcoin::bip32::Xpriv::decode(&key.bytes).unwrap();
    key.fingerprint(&bitcoin::secp256k1::Secp256k1::new()).to_string()
}

fn put(wallet: &mut Wallet, n: u8, amount: u64, info: UTXOSpendInfo) {
    let coin: Coin = (utxo(n, amount), info);
    wallet.store.utxo_cache.insert(coin.0.outpoint(), coin);
}

#[test]
fn a_new_wallet_is_empty() {
    let wallet = wallet();
    assert_eq!(wallet.get_name(), "wallet-test");
    assert_eq!(*wallet.get_external_index(), 0);
    assert_eq!(wallet.get_incoming_swapcoins_count(), 0);
    assert_eq!(wallet.get_outgoing_swapcoins_count(), 0);
    assert!(wallet.list_all_utxo().is_empty());
    assert!(wallet.is_well_formed());
    assert_eq!(wallet.store.wallet_birthday, Some(5));
}

#[test]
fn a_stored_wallet_is_loaded_under_its_own_name() {
    let store = wallet().store;
    let loaded = Wallet::load(store, &"wallet-test".to_string(), Network::Regtest).unwrap();
    assert_eq!(loaded.get_name(), "wallet-test");
    match Wallet::load(loaded.store, &"other".to_string(), Network::Regtest) {
        Err(WalletError::General(text)) => assert_eq!(
            text,
            "Wallet name of database file and core mismatch, expected other, found wallet-test"
        ),
        result => panic!("{:?}", result),
    }
    match Wallet::load(wallet().store, &"wallet-test".to_string(), Network::Signet) {
        Err(WalletError::General(text)) => assert_eq!(text, "Wrong Bitcoin Network"),
        result => panic!("{:?}", result),
    }
}

#[test]
fn added_swapcoins_are_found_until_removed() {
    let mut wallet = wallet();
    let coin = swap_coin(4);
    let key = write_txid(&coin.contract_txid());
    wallet.add_incoming_swapcoin(&coin);
    wallet.add_incoming_swapcoin(&coin);
    wallet.add_incoming_swapcoin(&swap_coin(5));
    assert_eq!(wallet.get_incoming_swapcoins_count(), 2);
    assert_eq!(wallet.find_incoming_swapcoin(&key).unwrap().funding_amount, 20_000);
    assert!(wallet.find_incoming_swapcoin("nothing").is_none());
    wallet.find_incoming_swapcoin_mut(&key).unwrap().hash_preimage = Some([8; 32]);
    assert_eq!(wallet.find_incoming_swapcoin(&key).unwrap().hash_preimage, Some([8; 32]));
    assert!(wallet.find_incoming_swapcoin_mut("nothing").is_none());
    let removed = wallet.remove_incoming_swapcoin(&key).unwrap();
    assert_eq!(removed.contract_txid(), coin.contract_txid());
    assert!(wallet.find_incoming_swapcoin(&key).is_none());
    assert!(wallet.remove_incoming_swapcoin(&key).is_none());
    assert_eq!(wallet.get_incoming_swapcoins_count(), 1);
}

#[test]
fn outgoing_swapcoins_are_kept_apart() {
    let mut wallet = wallet();
    for n in [4, 5, 6] {
        wallet.add_outgoing_swapcoin(&swap_coin(n));
    }
    assert_eq!(wallet.get_outgoing_swapcoins_count(), 3);
    assert_eq!(wallet.get_incoming_swapcoins_count(), 0);
    let key = |n| write_txid(&swap_coin(n).contract_txid());
    assert_eq!(wallet.outgoing_keys_for_swap("swap0"), vec![key(4), key(6)]);
    assert_eq!(wallet.outgoing_keys_for_swap("swap9"), Vec::<String>::new());
    assert_eq!(
        wallet.outgoing_contract_outpoints()[1],
        OutPoint::new(swap_coin(5).contract_txid(), 0)
    );
    assert!(wallet.incoming_contract_outpoints().is_empty());
    wallet.remove_outgoing_swapcoin(&key(5));
    wallet.remove_outgoing_swapcoin("nothing");
    assert_eq!(wallet.get_outgoing_swapcoins_count(), 2);
}

#[test]
fn swapcoins_are_found_by_their_multisig() {
    let mut wallet = wallet();
    wallet.add_incoming_swapcoin(&swap_coin(4));
    wallet.add_outgoing_swapcoin(&swap_coin(5));
    let multisig = |n: u8| create_multisig_redeemscript(&[2; 33], &[n; 33]);
    assert!(wallet.find_incoming_swapcoin_by_multisig(&multisig(4)).is_some());
    assert!(wallet.find_incoming_swapcoin_by_multisig(&multisig(5)).is_none());
    assert!(wallet.find_outgoing_swapcoin_by_multisig(&multisig(5)).is_some());
    assert!(wallet.find_outgoing_swapcoin_by_multisig(&multisig(4)).is_none());
}

#[test]
fn watched_swapcoins_are_kept_by_swap() {
    let mut wallet = wallet();
    let coin = |n: u8| WatchOnlySwapCoin { bytes: vec![n] };
    wallet.add_watchonly_swapcoins("a", vec![coin(1), coin(2)]);
    wallet.add_watchonly_swapcoins("b", vec![]);
    let coins = wallet.remove_watchonly_swapcoins("a").unwrap();
    assert_eq!(coins.iter().map(|c| c.bytes[0]).collect::<Vec<_>>(), vec![1, 2]);
    assert!(wallet.remove_watchonly_swapcoins("a").is_none());
    assert!(wallet.remove_watchonly_swapcoins("b").unwrap().is_empty());
}

#[test]
fn an_output_is_promised_to_one_contract() {
    let mut wallet = wallet();
    let op = OutPoint::new(txid(1), 7);
    assert!(wallet.does_prevout_match_cached_contract(&op, &script(1)).unwrap());
    wallet.cache_prevout_to_contract(op, script(1)).unwrap();
    assert!(wallet.does_prevout_match_cached_contract(&op, &script(1)).unwrap());
    assert!(!wallet.does_prevout_match_cached_contract(&op, &script(2)).unwrap());
    wallet.cache_prevout_to_contract(op, script(2)).unwrap();
    assert!(wallet.does_prevout_match_cached_contract(&op, &script(2)).unwrap());
    assert!(!wallet.does_prevout_match_cached_contract(&op, &script(1)).unwrap());
    let other = OutPoint::new(txid(1), 8);
    assert!(wallet.does_prevout_match_cached_contract(&other, &script(2)).unwrap());
}

#[test]
fn equality_ignores_files_and_swaps() {
    let a = wallet();
    let mut b = wallet();
    b.store.file_name = "elsewhere".to_string();
    b.store.last_synced_height = Some(77);
    b.add_incoming_swapcoin(&swap_coin(4));
    assert!(a == b);
    b.store.external_index = 1;
    assert!(a != b);
}

#[test]
fn equality_is_symmetric() {
    let (mut a, b) = (full_wallet(), full_wallet());
    assert!(a == a && a == b && b == a);
    a.store.offer_maxsize = 1;
    assert!(a != b && b != a);
}

#[test]
fn a_second_update_changes_nothing() {
    let mut wallet = wallet();
    let own = fingerprint(&wallet, AddressType::P2TR);
    let listed = || -> Vec<Utxo> {
        (1..4u8)
            .map(|n| Utxo {
                descriptor: Some(format!("tr([{}/0/{}]k)", own, n)),
                ..utxo(n, 100 * n as u64)
            })
            .collect()
    };
    wallet.update_utxo_cache(listed());
    let before: Vec<OutPoint> = wallet.list_all_utxo().iter().map(|u| u.outpoint()).collect();
    wallet.update_utxo_cache(listed());
    let after: Vec<OutPoint> = wallet.list_all_utxo().iter().map(|u| u.outpoint()).collect();
    assert_eq!(before, after);
    assert_eq!(after.len(), 3);
}

#[test]
fn equality_ignores_the_order_of_the_cache() {
    let (mut a, mut b) = (wallet(), wallet());
    put(&mut a, 1, 100, seed_info(100));
    put(&mut a, 2, 200, seed_info(200));
    put(&mut b, 2, 200, seed_info(200));
    assert!(a != b);
    put(&mut b, 1, 100, seed_info(100));
    assert!(a == b);
    put(&mut b, 1, 101, seed_info(100));
    assert!(a != b);
}

#[test]
fn bonds_are_recognised_by_script_and_amount() {
    let mut wallet = wallet();
    wallet.store.fidelity_bond.insert(
        3,
        FidelityBond { script_pub_key: script(1), amount: 500, record: vec![] },
    );
    match wallet.check_if_fidelity(&utxo(1, 500)) {
        Some(UTXOSpendInfo::FidelityBondCoin { index, input_value }) => {
            assert_eq!((index, input_value), (3, 500))
        }
        info => panic!("{:?}", info),
    }
    assert!(wallet.check_if_fidelity(&utxo(1, 501)).is_none());
    assert!(wallet.check_if_fidelity(&utxo(2, 500)).is_none());
}

#[test]
fn live_contracts_are_recognised() {
    let mut wallet = wallet();
    wallet.add_outgoing_swapcoin(&swap_coin(4));
    let mut incoming = swap_coin(5);
    wallet.add_incoming_swapcoin(&incoming);
    let at = |coin: &SwapCoin| Utxo { txid: coin.contract_txid(), ..utxo(1, 900) };
    match wallet.check_and_derive_live_contract_spend_info(&at(&swap_coin(4))).unwrap() {
        Some(UTXOSpendInfo::TimelockContract { swapcoin_multisig_redeemscript, input_value }) => {
            assert_eq!((swapcoin_multisig_redeemscript.bytes, input_value), (script(4).bytes, 900))
        }
        info => panic!("{:?}", info),
    }
    // The preimage of the incoming coin is not known yet.
    let info = wallet.check_and_derive_live_contract_spend_info(&at(&incoming)).unwrap();
    assert!(info.is_none());
    incoming.hash_preimage = Some([7; 32]);
    wallet.add_incoming_swapcoin(&incoming);
    let info = wallet.check_and_derive_live_contract_spend_info(&at(&incoming)).unwrap();
    assert!(matches!(info, Some(UTXOSpendInfo::HashlockContract { .. })));
}

#[test]
fn seed_coins_are_recognised_by_fingerprint() {
    let wallet = wallet();
    let own = fingerprint(&wallet, AddressType::P2TR);
    let mut coin = utxo(1, 700);
    coin.descriptor = Some(format!("tr([{}/1/42]abcd)#sum", own));
    match wallet.derive_spend_info(&coin).unwrap() {
        Some(UTXOSpendInfo::SeedCoin { path, input_value, address_type }) => {
            assert_eq!((path.as_str(), input_value), ("m/1/42", 700));
            assert_eq!(address_type, AddressType::P2TR);
        }
        info => panic!("{:?}", info),
    }
    // The same fingerprint does not stand for the other account.
    coin.descriptor = Some(format!("wpkh([{}/1/42]abcd)#sum", own));
    assert!(wallet.derive_spend_info(&coin).unwrap().is_none());
    coin.descriptor = None;
    assert!(wallet.derive_spend_info(&coin).unwrap().is_none());
}

#[test]
fn swept_coins_are_recognised_by_script() {
    let mut wallet = wallet();
    let own = fingerprint(&wallet, AddressType::P2WPKH);
    let mut coin = utxo(6, 700);
    coin.descriptor = Some(format!("wpkh([{}/1/2]abcd)", own));
    assert!(matches!(
        wallet.derive_spend_info(&coin).unwrap(),
        Some(UTXOSpendInfo::SeedCoin { .. })
    ));
    wallet.note_swept_swapcoin("gone", script(6));
    assert!(matches!(
        wallet.derive_spend_info(&coin).unwrap(),
        Some(UTXOSpendInfo::SweptCoin { .. })
    ));
    assert!(wallet.check_if_swept_incoming_swapcoin(&utxo(6, 700)).is_none());
}

#[test]
fn swap_multisigs_are_recognised_by_witness_script() {
    let mut wallet = wallet();
    let mut incoming = swap_coin(4);
    incoming.other_privkey = Some([1; 32]);
    wallet.add_incoming_swapcoin(&incoming);
    let mut outgoing = swap_coin(5);
    outgoing.hash_preimage = Some([1; 32]);
    wallet.add_outgoing_swapcoin(&outgoing);
    wallet.add_outgoing_swapcoin(&swap_coin(6));
    let mut coin = utxo(1, 700);
    coin.descriptor = Some("wsh(multi)".to_string());
    for (n, label) in [(4u8, Some("incoming-swap")), (5, Some("outgoing-swap")), (6, None)] {
        coin.witness_script = Some(create_multisig_redeemscript(&[2; 33], &[n; 33]));
        let info = wallet.check_and_derive_descriptor_utxo_or_swap_coin(&coin).unwrap();
        assert_eq!(info.map(|i| i.label()).as_deref(), label);
    }
}

#[test]
fn the_cache_follows_the_listed_outputs() {
    let mut wallet = wallet();
    let own = fingerprint(&wallet, AddressType::P2TR);
    let listed = |n: u8| Utxo {
        descriptor: Some(format!("tr([{}/0/{}]k)", own, n)),
        ..utxo(n, 100 * n as u64)
    };
    let foreign = Utxo { descriptor: Some("tr([ffffffff/0/0]k)".to_string()), ..utxo(9, 1) };
    wallet.update_utxo_cache(vec![listed(1), listed(2), foreign.clone()]);
    assert_eq!(wallet.store.utxo_cache.len(), 2);
    assert!(wallet.is_well_formed());
    // The first one was spent, the second one stays as it was cached, a third one is new.
    let mut changed = listed(2);
    changed.confirmations = 50;
    wallet.refresh_utxo_cache(vec![listed(3), changed, foreign]).unwrap();
    let coins = wallet.list_all_utxo();
    assert_eq!(coins.iter().map(|u| u.amount).collect::<Vec<_>>(), vec![200, 300]);
    assert_eq!(coins[0].confirmations, 3);
    wallet.update_utxo_cache(vec![]);
    assert!(wallet.list_all_utxo().is_empty());
}

fn full_wallet() -> Wallet {
    let mut wallet = wallet();
    put(&mut wallet, 1, 1_000, seed_info(1_000));
    put(&mut wallet, 2, 2_000, swept_info(2_000));
    let s = script(0);
    let contract = s.clone();
    put(
        &mut wallet,
        3,
        4_000,
        UTXOSpendInfo::TimelockContract {
            swapcoin_multisig_redeemscript: contract.clone(),
            input_value: 4_000,
        },
    );
    put(
        &mut wallet,
        4,
        8_000,
        UTXOSpendInfo::HashlockContract {
            swapcoin_multisig_redeemscript: contract,
            input_value: 8_000,
        },
    );
    put(
        &mut wallet,
        5,
        16_000,
        UTXOSpendInfo::FidelityBondCoin { index: 0, input_value: 16_000 },
    );
    put(
        &mut wallet,
        6,
        32_000,
        UTXOSpendInfo::IncomingSwapCoin { multisig_redeemscript: s.clone() },
    );
    put(&mut wallet, 7, 64_000, UTXOSpendInfo::OutgoingSwapCoin { multisig_redeemscript: s });
    wallet
}

#[test]
fn coins_are_listed_by_kind() {
    let wallet = full_wallet();
    let sum = |coins: Vec<Coin>| total_value(&coins);
    assert_eq!(sum(wallet.list_all_utxo_spend_info()), 127_000);
    assert_eq!(sum(wallet.list_descriptor_utxo_spend_info()), 1_000);
    assert_eq!(sum(wallet.list_swept_incoming_swap_utxos()), 2_000);
    assert_eq!(sum(wallet.list_live_timelock_contract_spend_info()), 4_000);
    assert_eq!(sum(wallet.list_live_hashlock_contract_spend_info()), 8_000);
    assert_eq!(sum(wallet.list_live_contract_spend_info()), 12_000);
    assert_eq!(sum(wallet.list_fidelity_spend_info()), 16_000);
    assert_eq!(sum(wallet.list_incoming_swap_coin_utxo_spend_info()), 32_000);
    assert_eq!(sum(wallet.list_swap_coin_utxo_spend_info()), 96_000);
    assert_eq!(wallet.list_all_utxo().len(), 7);
}

#[test]
fn balances_count_each_category() {
    let mut wallet = full_wallet();
    assert!(wallet.can_balance());
    assert_eq!(
        wallet.get_balances().unwrap(),
        Balances {
            regular: 1_000,
            swap: 2_000,
            contract: 4_000,
            fidelity: 16_000,
            spendable: 3_000,
        }
    );
    wallet.refresh_offer_maxsize_cache().unwrap();
    assert_eq!(wallet.store.offer_maxsize, 2_000);
    put(&mut wallet, 8, 5_000, seed_info(5_000));
    wallet.refresh_offer_maxsize_cache().unwrap();
    assert_eq!(wallet.store.offer_maxsize, 6_000);
}

#[test]
fn spend_infos_have_sizes_and_labels() {
    let mut found: Vec<(String, usize)> = full_wallet()
        .list_all_utxo_spend_info()
        .iter()
        .map(|coin| (coin.1.label(), coin.1.estimate_witness_size()))
        .collect();
    found.sort();
    let sizes: Vec<usize> = found.iter().map(|pair| pair.1).collect();
    let mut sorted = sizes.clone();
    sorted.sort();
    assert_eq!(sorted, vec![65, 65, 115, 179, 211, 222, 222]);
    let wpkh = UTXOSpendInfo::SeedCoin {
        path: String::new(),
        input_value: 0,
        address_type: AddressType::P2WPKH,
    };
    assert_eq!((wpkh.label().as_str(), wpkh.estimate_witness_size()), ("regular", 107));
}

#[test]
fn next_index_follows_the_highest_used_one() {
    let mut wallet = wallet();
    assert_eq!(wallet.find_hd_next_index(KeychainKind::Internal).unwrap(), 0);
    for (n, branch, index) in [(1u8, 1, 4), (2, 1, 9), (3, 0, 30), (4, 1, 2)] {
        put(&mut wallet, n, 10, if n == 2 { swept_info(10) } else { seed_info(10) });
        let row = wallet.store.utxo_cache.rows.len() - 1;
        wallet.store.utxo_cache.rows[row].1 .0.descriptor =
            Some(format!("tr([abcd/{}/{}]k)", branch, index));
    }
    assert_eq!(wallet.highest_used_index(KeychainKind::Internal), 9);
    assert_eq!(wallet.find_hd_next_index(KeychainKind::Internal).unwrap(), 10);
    assert_eq!(wallet.find_hd_next_index(KeychainKind::External).unwrap(), 31);
    assert!(wallet.has_indexes_left(KeychainKind::Internal, None, 1_000));
    assert!(wallet.has_indexes_left(KeychainKind::Internal, None, u32::MAX - 10));
    assert!(!wallet.has_indexes_left(KeychainKind::Internal, None, u32::MAX - 9));
    assert!(!wallet.has_indexes_left(KeychainKind::Internal, Some(u32::MAX), 0));
    // Not below what was ever used, whether or not its coins are spent.
    assert_eq!(wallet.find_unused_index(KeychainKind::Internal, None), 10);
    assert_eq!(wallet.find_unused_index(KeychainKind::Internal, Some(4)), 10);
    assert_eq!(wallet.find_unused_index(KeychainKind::Internal, Some(9)), 10);
    assert_eq!(wallet.find_unused_index(KeychainKind::Internal, Some(12)), 13);
}

#[test]
fn unfinished_swapcoins_are_listed() {
    let mut wallet = wallet();
    wallet.add_incoming_swapcoin(&swap_coin(4));
    let mut done = swap_coin(5);
    done.other_privkey = Some([1; 32]);
    done.hash_preimage = Some([1; 32]);
    wallet.add_incoming_swapcoin(&done);
    wallet.add_outgoing_swapcoin(&swap_coin(6));
    let (incoming, outgoing) = wallet.find_unfinished_swapcoins();
    assert_eq!(incoming.len(), 1);
    assert_eq!(incoming[0].contract_txid(), swap_coin(4).contract_txid());
    assert_eq!(outgoing.len(), 1);
}

#[test]
fn foreign_outputs_are_locked() {
    let mut wallet = wallet();
    let own = fingerprint(&wallet, AddressType::P2TR);
    wallet.store.fidelity_bond.insert(
        0,
        FidelityBond { script_pub_key: script(2), amount: 5, record: vec![] },
    );
    let mine = Utxo { descriptor: Some(format!("tr([{}/0/0]k)", own)), ..utxo(1, 5) };
    let locked = wallet.lock_unspendable_utxos(&vec![mine, utxo(2, 5), utxo(3, 5)]).unwrap();
    assert_eq!(locked, vec![utxo(2, 5).outpoint(), utxo(3, 5).outpoint()]);
}

#[test]
fn totals_are_checked() {
    let coins = |a, b| vec![(utxo(1, a), seed_info(a)), (utxo(2, b), seed_info(b))];
    assert_eq!(checked_total_value(&coins(3, 4)), Some(7));
    assert_eq!(checked_total_value(&coins(u64::MAX, 0)), Some(u64::MAX));
    assert_eq!(checked_total_value(&coins(u64::MAX, 1)), None);
    let mut wallet = wallet();
    put(&mut wallet, 1, u64::MAX, seed_info(0));
    let past = IncomingOutput { outpoint: utxo(7, 1).outpoint(), amount: 1, confirmations: 1 };
    assert!(wallet.can_balance() && wallet.can_sum_transactions(&vec![]));
    assert!(!wallet.can_sum_transactions(&vec![past]));
    assert!(!wallet.can_select());
    put(&mut wallet, 2, 1, swept_info(0));
    assert!(!wallet.can_balance() && !wallet.can_sum_transactions(&vec![]));
}

#[test]
fn payable_amounts_are_bounded_by_the_rate() {
    let rate = |sats, vbytes| FeeRate { sats, vbytes };
    assert!(can_pay(0, rate(0, 1)));
    assert!(!can_pay(1, rate(0, 1)));
    assert!(!can_pay(0, rate(1, 0)));
    // 900 * 2^24 / 17 satoshis for every sat/vB.
    assert!(can_pay(888_205_552, rate(1, 1)));
    assert!(!can_pay(888_205_553, rate(1, 1)));
    assert!(can_pay(8_882_055_529, rate(10, 1)));
    assert!(!can_pay(0x4000_0000_0000_0000, rate(1_000, 1)));
    assert!(!can_pay(0, rate(0x1000_0000, 1)));
    assert!(!can_pay(u64::MAX / 4, rate(1, usize::MAX)));
}

#[test]
fn malformed_stores_are_told() {
    let mut wallet = full_wallet();
    assert!(wallet.is_well_formed() && wallet.can_select());
    wallet.store.swept_incoming_swapcoins = vec![script(1), script(2), script(1)];
    assert!(!wallet.is_well_formed());
    wallet.store.swept_incoming_swapcoins = vec![script(1), script(2)];
    assert!(wallet.is_well_formed());
    wallet.store.utxo_cache.rows[0].0 = OutPoint::new(txid(99), 0);
    assert!(!wallet.is_well_formed());
}

#[test]
fn fixed_scripts_are_watched() {
    let mut wallet = wallet();
    wallet.add_incoming_swapcoin(&swap_coin(4));
    let mut taproot = swap_coin(5);
    taproot.protocol = ProtocolVersion::Taproot;
    wallet.add_outgoing_swapcoin(&taproot);
    wallet.store.fidelity_bond.insert(
        3,
        FidelityBond { script_pub_key: script(8), amount: 5, record: vec![] },
    );
    wallet.note_swept_swapcoin("gone", script(9));
    let p2wsh = |s: &Script| bitcoin::Script::from_bytes(&s.bytes).to_p2wsh().into_bytes();
    let multisig = create_multisig_redeemscript(&[2; 33], &[4; 33]);
    let watched = wallet.watched_scripts();
    let scripts: Vec<Vec<u8>> = watched.iter().map(|w| w.1.bytes.clone()).collect();
    assert_eq!(
        scripts,
        vec![
            p2wsh(&multisig),
            p2wsh(&script(4)),
            p2wsh(&script(5)),
            script(8).bytes,
            script(9).bytes
        ]
    );
    assert!(matches!(watched[0].0, WatchKey::Swap(id) if id == swap_coin(4).contract_txid()));
    assert!(matches!(watched[1].0, WatchKey::Contract(id) if id == swap_coin(4).contract_txid()));
    assert!(matches!(watched[2].0, WatchKey::Contract(id) if id == taproot.contract_txid()));
    assert!(matches!(watched[3].0, WatchKey::Fidelity(3)));
    assert!(matches!(&watched[4].0, WatchKey::Sweep(s) if *s == script(9)));
}

#[test]
fn outcomes_are_counted() {
    let mut outcome = RecoveryOutcome::default();
    assert!(outcome.is_empty());
    assert_eq!(outcome.len(), 0);
    outcome.resolved.push((txid(1), txid(2)));
    outcome.discarded.push(txid(3));
    outcome.discarded.push(txid(4));
    let copy = outcome.clone();
    assert!(!copy.is_empty());
    assert_eq!(copy.len(), 3);
    assert_eq!((copy.resolved, copy.discarded), (outcome.resolved, outcome.discarded));
}

#[test]
fn a_fresh_store_keeps_its_arguments() {
    let key = wallet().store.master_key;
    let store = WalletStore::new("s".to_string(), Network::Signet, key, None);
    assert_eq!((store.file_name.as_str(), store.network), ("s", Network::Signet));
    assert!(store.master_key == key && store.wallet_birthday.is_none());
    assert!(!store.was_swept_to(&script(1)));
}

#[test]
fn swap_inputs_are_asked_for() {
    let mut wallet = wallet();
    let (incoming, outgoing) = (swap_coin(3), swap_coin(4));
    let multisig = |coin: &SwapCoin| {
        create_multisig_redeemscript(&coin.my_pubkey.unwrap(), &coin.other_pubkey.unwrap())
    };
    let (in_script, out_script) = (multisig(&incoming), multisig(&outgoing));
    wallet.add_incoming_swapcoin(&incoming);
    wallet.add_outgoing_swapcoin(&outgoing);
    let tx = outgoing.contract_tx.clone();
    let spends = [
        UTXOSpendInfo::IncomingSwapCoin { multisig_redeemscript: in_script.clone() },
        UTXOSpendInfo::HashlockContract {
            swapcoin_multisig_redeemscript: in_script,
            input_value: 1,
        },
    ];
    for info in spends {
        match wallet.signing_request(&tx, &info) {
            Some(SigningRequest::Spend { coin, value, to, feerate }) => {
                assert_eq!(coin.contract_txid(), incoming.contract_txid());
                assert_eq!((value, to), (20_000, script(4)));
                assert_eq!(feerate, FeeRate { sats: 1, vbytes: 1 });
            }
            other => panic!("{:?}", other),
        }
        // There is nothing to spend it to.
        let empty = Transaction { output: vec![], ..tx.clone() };
        assert!(wallet.signing_request(&empty, &info).is_none());
    }
    let info = UTXOSpendInfo::TimelockContract {
        swapcoin_multisig_redeemscript: out_script.clone(),
        input_value: 1,
    };
    match wallet.signing_request(&tx, &info) {
        Some(SigningRequest::Recovery { coin, tx: given }) => {
            assert_eq!(coin.contract_txid(), outgoing.contract_txid());
            assert_eq!(given.output.len(), tx.output.len());
        }
        other => panic!("{:?}", other),
    }
    let unknown = UTXOSpendInfo::IncomingSwapCoin { multisig_redeemscript: out_script };
    assert!(wallet.signing_request(&tx, &unknown).is_none());
    let bond = UTXOSpendInfo::FidelityBondCoin { index: 6, input_value: 1 };
    assert!(matches!(
        wallet.signing_request(&tx, &bond),
        Some(SigningRequest::Bond { index: 6 })
    ));
    assert!(matches!(
        wallet.signing_request(&tx, &seed_info(1)),
        Some(SigningRequest::Nothing)
    ));
}

#[test]
fn only_what_can_be_signed_is_asked_for() {
    let bond = UTXOSpendInfo::FidelityBondCoin { index: 0, input_value: 1 };
    let swap = UTXOSpendInfo::IncomingSwapCoin { multisig_redeemscript: script(1) };
    let outgoing = UTXOSpendInfo::OutgoingSwapCoin { multisig_redeemscript: script(1) };
    assert!(must_ask(&swap, true, false));
    assert!(!must_ask(&swap, false, false) && !must_ask(&swap, true, true));
    assert!(must_ask(&bond, false, false) && must_ask(&bond, true, true));
    assert!(ends_signing(&outgoing, &Signer::Seed));
    assert!(ends_signing(&swap, &Signer::Failed(WalletError::General("no".to_string()))));
    assert!(!ends_signing(&swap, &Signer::Contract(vec![])));
}

#[test]
fn confirmations_count_from_the_last_block() {
    assert_eq!(count_confirmations(100, Some(100)), 1);
    assert_eq!(count_confirmations(100, Some(91)), 10);
    assert_eq!(count_confirmations(100, Some(101)), 0);
    assert_eq!(count_confirmations(100, None), 0);
}
