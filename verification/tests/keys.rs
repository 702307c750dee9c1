//! Keys, descriptors and signatures, held against the Bitcoin library itself.

use bdk_chain::miniscript::{Descriptor, DescriptorPublicKey};
use bitcoin::bip32::{DerivationPath, Xpriv, Xpub};
use bitcoin::hashes;
use bitcoin::key::{Keypair, TapTweak};
use bitcoin::secp256k1::{ecdsa, schnorr, Message, Secp256k1};
use bitcoin::sighash::{EcdsaSighashType, Prevouts, SighashCache, TapSighashType};
use bitcoin::{NetworkKind, ScriptBuf};
use coinswap_wallet::chain::{derive_account_key, derive_by_path, SeedKeychain};
use coinswap_wallet::descriptors::{describe_multisig, ImportStatus};
use coinswap_wallet::error::WalletError;
use coinswap_wallet::signing::Signer;
use coinswap_wallet::store::FidelityBond;
use coinswap_wallet::swapcoin::{IncomingSwapCoin, SwapCoin};
use coinswap_wallet::types::{
    AddressType, Network, OutPoint, ProtocolVersion, Script, Transaction, TxIn, TxOut, Txid,
};
use coinswap_wallet::utxo::UTXOSpendInfo;
use coinswap_wallet::wallet::Wallet;
use std::str::FromStr;

const SEED: [u8; 16] = [0, 1, 2, 3, 4, 5, 6, 7, 8, 9, 10, 11, 12, 13, 14, 15];

fn seeded(network: Network) -> Wallet {
    Wallet::from_seed("keys-test".to_string(), network, &SEED.to_vec(), 5).unwrap()
}

fn master() -> Xpriv {
    Xpriv::new_master(NetworkKind::Test, &SEED).unwrap()
}

fn account(path: &str) -> Xpriv {
    let path = DerivationPath::from_str(path).unwrap();
    master().derive_priv(&Secp256k1::new(), &path).unwrap()
}

fn input(n: u8, vout: u32) -> TxIn {
    TxIn {
        previous_output: OutPoint::new(Txid { bytes: [n; 32] }, vout),
        script_sig: Script { bytes: vec![] },
        sequence: 0xffff_fffd,
        witness: vec![],
    }
}

fn transaction(inputs: Vec<TxIn>) -> Transaction {
    Transaction {
        version: 2,
        lock_time: 101,
        input: inputs,
        output: vec![TxOut { value: 90_000, script_pubkey: Script { bytes: vec![0x51] } }],
    }
}

fn raw(tx: &Transaction) -> bitcoin::Transaction {
    bitcoin::Transaction {
        version: bitcoin::transaction::Version(tx.version),
        lock_time: bitcoin::absolute::LockTime::from_consensus(tx.lock_time),
        input: tx
            .input
            .iter()
            .map(|i| bitcoin::TxIn {
                previous_output: bitcoin::OutPoint {
                    txid: hashes::Hash::from_byte_array(i.previous_output.txid.bytes),
                    vout: i.previous_output.vout,
                },
                script_sig: ScriptBuf::from_bytes(i.script_sig.bytes.clone()),
                sequence: bitcoin::Sequence(i.sequence),
                witness: bitcoin::Witness::from_slice(&i.witness),
            })
            .collect(),
        output: tx
            .output
            .iter()
            .map(|o| bitcoin::TxOut {
                value: bitcoin::Amount::from_sat(o.value),
                script_pubkey: ScriptBuf::from_bytes(o.script_pubkey.bytes.clone()),
            })
            .collect(),
    }
}

fn seed_coin(path: &str, value: u64, address_type: AddressType) -> UTXOSpendInfo {
    UTXOSpendInfo::SeedCoin { path: path.to_string(), input_value: value, address_type }
}

#[test]
fn master_key_comes_from_the_seed() {
    assert_eq!(seeded(Network::Regtest).store.master_key.bytes, master().encode());
    let main = Xpriv::new_master(NetworkKind::Main, &SEED).unwrap();
    assert_eq!(seeded(Network::Bitcoin).store.master_key.bytes, main.encode());
    assert_eq!(seeded(Network::Bitcoin).store.master_key.private_key(), main.private_key.secret_bytes());
}

#[test]
fn fingerprints_match_the_published_vectors() {
    let wallet = seeded(Network::Bitcoin);
    assert_eq!(wallet.get_core_wallet_label().unwrap(), "3442193e");
    let child = derive_by_path(&wallet.store.master_key, "m/0'").unwrap();
    let child = Xpriv::decode(&child.bytes).unwrap();
    assert_eq!(child.fingerprint(&Secp256k1::new()).to_string(), "5c1bd648");
}

#[test]
fn bad_paths_are_refused() {
    let wallet = seeded(Network::Regtest);
    assert!(matches!(
        derive_by_path(&wallet.store.master_key, "m/x"),
        Err(WalletError::Key(_))
    ));
}

#[test]
fn account_keys_are_derived() {
    let wallet = seeded(Network::Regtest);
    for (address_type, path) in
        [(AddressType::P2WPKH, "m/84'/1'/0'"), (AddressType::P2TR, "m/86'/1'/0'")]
    {
        let key = derive_account_key(&wallet.store.master_key, address_type).unwrap();
        assert_eq!(key.bytes, account(path).encode());
    }
}

#[test]
fn keychains_are_listed_once() {
    let all = SeedKeychain::all();
    assert_eq!(all.len(), 4);
    for (i, a) in all.iter().enumerate() {
        for b in &all[i + 1..] {
            assert_ne!(a, b);
        }
    }
    assert_eq!(all[0].account_path(), "m/84'/1'/0'");
    assert_eq!(all[3].account_path(), "m/86'/1'/0'");
    assert_eq!((all[0].branch_index(), all[1].branch_index()), (0, 1));
}

#[test]
fn keychain_descriptor_is_a_valid_public_descriptor() {
    let wallet = seeded(Network::Regtest);
    for keychain in SeedKeychain::all() {
        let text = keychain.descriptor(&wallet.store.master_key).unwrap();
        let xpub = Xpub::from_priv(&Secp256k1::new(), &account(keychain.account_path()));
        let name = match keychain.address_type {
            AddressType::P2WPKH => "wpkh",
            AddressType::P2TR => "tr",
        };
        let body = format!("{}({}/{}/*)", name, xpub, keychain.branch_index());
        let parsed = Descriptor::<DescriptorPublicKey>::from_str(&body).unwrap();
        assert_eq!(text, parsed.to_string());
    }
}

#[test]
fn wallet_descriptors_carry_checksums() {
    let wallet = seeded(Network::Regtest);
    let both = wallet.get_wallet_descriptors(AddressType::P2TR).unwrap();
    for (text, kind) in [(both.external, 0), (both.internal, 1)] {
        let xpub = Xpub::from_priv(&Secp256k1::new(), &account("m/86'/1'/0'"));
        assert!(text.starts_with(&format!("tr({}/{}/*)#", xpub, kind)));
        assert!(Descriptor::<DescriptorPublicKey>::from_str(&text).is_ok());
    }
}

#[test]
fn only_unknown_descriptors_are_imported() {
    let wallet = seeded(Network::Regtest);
    let both = wallet.get_wallet_descriptors(AddressType::P2WPKH).unwrap();
    let known = ImportStatus { first_address: Some(true), last_address: Some(true) };
    let half = ImportStatus { first_address: Some(true), last_address: Some(false) };
    let silent = ImportStatus { first_address: None, last_address: Some(true) };
    let list = |a, b| wallet.get_unimported_wallet_desc(AddressType::P2WPKH, a, b).unwrap();
    assert!(list(known, known).is_empty());
    assert_eq!(list(known, half), vec![both.internal.clone()]);
    assert_eq!(list(silent, known), vec![both.external.clone()]);
    assert_eq!(list(half, silent), vec![both.external, both.internal]);
}

#[test]
fn tweakable_key_is_the_first_hardened_child() {
    let (secret, public) = seeded(Network::Regtest).get_tweakable_keypair().unwrap();
    let child = account("m/0'");
    assert_eq!(secret, child.private_key.secret_bytes());
    assert_eq!(public, child.private_key.public_key(&Secp256k1::new()).serialize());
}

#[test]
fn address_requests_name_descriptor_and_range() {
    let mut wallet = seeded(Network::Regtest);
    wallet.store.external_index = 9;
    let both = wallet.get_wallet_descriptors(AddressType::P2TR).unwrap();
    let request = wallet.external_address_request(AddressType::P2TR).unwrap();
    assert_eq!((request.descriptor, request.start, request.end), (both.external, 9, 9));
    let address = wallet.get_next_external_address(vec!["bcrt1first".to_string()]);
    assert_eq!((address.as_str(), *wallet.get_external_index()), ("bcrt1first", 10));
    let request = wallet.get_next_internal_addresses(3, AddressType::P2TR, None).unwrap();
    assert_eq!((request.descriptor, request.start, request.end), (both.internal, 0, 3));
    // Behind what was ever used.
    let request = wallet.get_next_internal_addresses(2, AddressType::P2WPKH, Some(6)).unwrap();
    assert_eq!((request.start, request.end), (7, 9));
}

#[test]
fn multisig_descriptor_names_both_keys() {
    assert_eq!(
        describe_multisig(&[2; 33], &[3; 33]),
        format!("wsh(sortedmulti(2,{},{}))", "02".repeat(33), "03".repeat(33))
    );
}

fn swap_coin(n: u8) -> IncomingSwapCoin {
    SwapCoin {
        swap_id: Some("swap".to_string()),
        protocol: ProtocolVersion::Legacy,
        contract_tx: transaction(vec![input(n, 0)]),
        contract_vout: 0,
        contract_redeemscript: Some(Script { bytes: vec![0x51, n] }),
        my_pubkey: Some([2; 33]),
        other_pubkey: Some([3; 33]),
        my_privkey: Some([1; 32]),
        other_privkey: None,
        hash_preimage: None,
        others_contract_sig: None,
        funding_amount: 90_000,
        timelock: Some(20),
    }
}

#[test]
fn swap_coins_and_bonds_are_imported_too() {
    let mut wallet = seeded(Network::Regtest);
    wallet.add_incoming_swapcoin(&swap_coin(1));
    let bond_script = Script { bytes: vec![0x00, 0x20, 0xab] };
    wallet.store.fidelity_bond.insert(
        0,
        FidelityBond { script_pub_key: bond_script, amount: 5_000, record: vec![] },
    );
    let list = wallet
        .descriptors_to_import(vec!["first".to_string()], vec!["second".to_string()])
        .unwrap();
    assert_eq!(&list[..2], ["first", "second"]);
    // The key of the other party comes first.
    assert!(list[2].starts_with(&describe_multisig(&[3; 33], &[2; 33])));
    let contract = ScriptBuf::from_bytes(vec![0x51, 1]).to_p2wsh();
    assert!(list[3].starts_with(&format!("raw({:x})#", contract)));
    assert!(list.iter().any(|text| text.starts_with("raw(0020ab)#")));
    for text in &list[2..] {
        assert_eq!(text.len() - text.find('#').unwrap(), 9);
    }
}

#[test]
fn contract_transaction_id_ignores_witnesses() {
    let mut coin = swap_coin(4);
    let txid = coin.contract_txid();
    let expected: [u8; 32] = hashes::Hash::to_byte_array(raw(&coin.contract_tx).compute_txid());
    assert_eq!(txid.bytes, expected);
    coin.contract_tx.input[0].witness = vec![vec![1, 2, 3]];
    assert_eq!(coin.contract_txid(), txid);
}

#[test]
fn taproot_and_segwit_inputs_are_signed() {
    let wallet = seeded(Network::Regtest);
    let secp = Secp256k1::new();
    let mut tx = transaction(vec![input(1, 0), input(2, 3)]);
    let infos = vec![
        seed_coin("m/0/3", 50_000, AddressType::P2TR),
        UTXOSpendInfo::SweptCoin {
            path: "m/1/4".to_string(),
            input_value: 60_000,
            address_type: AddressType::P2WPKH,
        },
    ];
    wallet.sign_transaction(&mut tx, infos, vec![Signer::Seed, Signer::Seed]).unwrap();

    let path = |text: &str| DerivationPath::from_str(text).unwrap();
    let tap = account("m/86'/1'/0'").derive_priv(&secp, &path("m/0/3")).unwrap().private_key;
    let wpkh = account("m/84'/1'/0'").derive_priv(&secp, &path("m/1/4")).unwrap().private_key;
    let pair = Keypair::from_secret_key(&secp, &tap);
    let wpkh_public = bitcoin::PublicKey::new(wpkh.public_key(&secp));
    let wpkh_script = ScriptBuf::new_p2wpkh(&wpkh_public.wpubkey_hash().unwrap());
    let prevouts = [
        bitcoin::TxOut {
            value: bitcoin::Amount::from_sat(50_000),
            script_pubkey: ScriptBuf::new_p2tr(&secp, pair.x_only_public_key().0, None),
        },
        bitcoin::TxOut {
            value: bitcoin::Amount::from_sat(60_000),
            script_pubkey: wpkh_script.clone(),
        },
    ];
    let signed = raw(&tx);

    let digest = SighashCache::new(&signed)
        .taproot_key_spend_signature_hash(0, &Prevouts::All(&prevouts), TapSighashType::Default)
        .unwrap();
    assert_eq!(tx.input[0].witness.len(), 1);
    let signature = schnorr::Signature::from_slice(&tx.input[0].witness[0]).unwrap();
    let output_key = pair.tap_tweak(&secp, None).to_keypair().x_only_public_key().0;
    assert!(secp.verify_schnorr(&signature, &Message::from(digest), &output_key).is_ok());

    let digest = SighashCache::new(&signed)
        .p2wpkh_signature_hash(
            1,
            &wpkh_script,
            bitcoin::Amount::from_sat(60_000),
            EcdsaSighashType::All,
        )
        .unwrap();
    assert_eq!(tx.input[1].witness.len(), 2);
    let (der, flag) = tx.input[1].witness[0].split_at(tx.input[1].witness[0].len() - 1);
    assert_eq!(flag, [1]);
    let expected = secp.sign_ecdsa_low_r(&Message::from(digest), &wpkh);
    assert_eq!(ecdsa::Signature::from_der(der).unwrap(), expected);
    assert_eq!(tx.input[1].witness[1], wpkh_public.to_bytes());
}

#[test]
fn bonds_are_signed_with_their_key() {
    let wallet = seeded(Network::Regtest);
    let secp = Secp256k1::new();
    let secret = [7u8; 32];
    let redeemscript = Script { bytes: vec![0x51, 0x52] };
    let mut tx = transaction(vec![input(1, 0)]);
    wallet
        .sign_transaction(
            &mut tx,
            vec![UTXOSpendInfo::FidelityBondCoin { index: 0, input_value: 40_000 }],
            vec![Signer::Bond { secret, redeemscript: redeemscript.clone() }],
        )
        .unwrap();
    let digest = SighashCache::new(raw(&tx))
        .p2wsh_signature_hash(
            0,
            &ScriptBuf::from_bytes(redeemscript.bytes.clone()),
            bitcoin::Amount::from_sat(40_000),
            EcdsaSighashType::All,
        )
        .unwrap();
    let key = bitcoin::secp256k1::SecretKey::from_slice(&secret).unwrap();
    let mut expected =
        secp.sign_ecdsa_low_r(&Message::from(digest), &key).serialize_der().to_vec();
    expected.push(1);
    assert_eq!(tx.input[0].witness, vec![expected, redeemscript.bytes]);
}

#[test]
fn contract_inputs_take_the_witness_of_the_swap_coin() {
    let wallet = seeded(Network::Regtest);
    let mut tx = transaction(vec![input(1, 0), input(2, 0)]);
    let script = Script { bytes: vec![0x51] };
    let witness = vec![vec![1, 2], vec![3]];
    wallet
        .sign_transaction(
            &mut tx,
            vec![
                UTXOSpendInfo::TimelockContract {
                    swapcoin_multisig_redeemscript: script.clone(),
                    input_value: 1,
                },
                UTXOSpendInfo::IncomingSwapCoin { multisig_redeemscript: script },
            ],
            vec![Signer::Contract(witness.clone()), Signer::Contract(vec![])],
        )
        .unwrap();
    assert_eq!(tx.input[0].witness, witness);
    assert!(tx.input[1].witness.is_empty());
}

#[test]
fn unsignable_inputs_are_refused() {
    let wallet = seeded(Network::Regtest);
    let mut tx = transaction(vec![input(1, 0), input(2, 0)]);
    let script = Script { bytes: vec![0x51] };
    // The first input is signed, the second cannot be.
    let result = wallet.sign_transaction(
        &mut tx,
        vec![
            seed_coin("m/0/0", 1_000, AddressType::P2WPKH),
            UTXOSpendInfo::OutgoingSwapCoin { multisig_redeemscript: script.clone() },
        ],
        vec![Signer::Seed, Signer::Seed],
    );
    match result {
        Err(WalletError::General(text)) => assert_eq!(text, "Can't sign for outgoing swapcoins"),
        other => panic!("{:?}", other),
    }
    assert_eq!(tx.input[0].witness.len(), 2);
    assert!(tx.input[1].witness.is_empty());

    let mut tx = transaction(vec![input(1, 0)]);
    let result = wallet.sign_transaction(
        &mut tx,
        vec![UTXOSpendInfo::HashlockContract {
            swapcoin_multisig_redeemscript: script,
            input_value: 1,
        }],
        vec![Signer::Failed(WalletError::General("no preimage".to_string()))],
    );
    assert!(matches!(result, Err(WalletError::General(text)) if text == "no preimage"));

    let result = wallet.sign_transaction(
        &mut tx,
        vec![seed_coin("m/nowhere", 1_000, AddressType::P2TR)],
        vec![Signer::Seed],
    );
    assert!(matches!(result, Err(WalletError::Key(_))));
    assert!(tx.input[0].witness.is_empty());
}

#[test]
fn signer_count_must_match_inputs() {
    let wallet = seeded(Network::Regtest);
    let mut tx = transaction(vec![input(1, 0), input(2, 0)]);
    let result = wallet.sign_transaction(
        &mut tx,
        vec![seed_coin("m/0/0", 1_000, AddressType::P2WPKH)],
        vec![Signer::Seed],
    );
    match result {
        Err(WalletError::General(text)) => assert_eq!(
            text,
            "Mismatched signer/input counts: tx has 2 inputs but signer metadata has 1 entries"
        ),
        other => panic!("{:?}", other),
    }
}

#[test]
fn signing_keeps_the_transaction_id() {
    let wallet = seeded(Network::Regtest);
    let mut tx = transaction(vec![input(1, 0)]);
    let before = raw(&tx).compute_txid();
    wallet
        .sign_transaction(
            &mut tx,
            vec![seed_coin("m/0/0", 1_000, AddressType::P2TR)],
            vec![Signer::Seed],
        )
        .unwrap();
    assert_eq!(raw(&tx).compute_txid(), before);
}

#[test]
fn new_wallets_have_different_seeds() {
    let (a, words) = Wallet::init("a".to_string(), Network::Regtest, 7).unwrap();
    let (b, _) = Wallet::init("a".to_string(), Network::Regtest, 7).unwrap();
    assert_eq!(words.split_whitespace().count(), 12);
    assert!(a.store.master_key != b.store.master_key);
    let entropy = bip39::Mnemonic::parse(&words).unwrap().to_entropy();
    let restored = Wallet::from_seed("a".to_string(), Network::Regtest, &entropy, 7).unwrap();
    assert!(a.store.master_key == restored.store.master_key);
    assert_eq!((a.get_name(), a.store.wallet_birthday), ("a", Some(7)));
}

#[test]
fn addresses_are_checked_for_the_network() {
    let wallet = seeded(Network::Regtest);
    let script = ScriptBuf::new_p2wsh(&hashes::Hash::from_byte_array([5; 32]));
    let regtest = bitcoin::Address::from_script(&script, bitcoin::Network::Regtest).unwrap();
    let main = bitcoin::Address::from_script(&script, bitcoin::Network::Bitcoin).unwrap();
    let read = wallet.checked_address(&regtest.to_string()).unwrap();
    assert_eq!(read.bytes, script.into_bytes());
    for text in [main.to_string(), "nonsense".to_string(), String::new()] {
        match wallet.checked_address(&text) {
            Err(WalletError::General(e)) => {
                assert_eq!(e, "Invalid address for the current wallet network")
            }
            other => panic!("{:?}", other),
        }
    }
    assert!(seeded(Network::Bitcoin).checked_address(&main.to_string()).is_ok());
}
