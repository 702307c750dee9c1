//! Taking swap coins back, sweeping them, and waiting for the chain.

use coinswap_wallet::coin_selector::FeeRate;
use coinswap_wallet::confirm::{
    backoff_seconds, check_interruption, evaluate_round, next_attempt, nothing_to_wait_for,
};
use coinswap_wallet::error::WalletError;
use coinswap_wallet::requests::contract_signer;
use coinswap_wallet::recovery::{BroadcastReply, RecoveryEvent, RecoveryStep, RecoveryVerdict};
use coinswap_wallet::rpc::{RPCConfig, RpcAuth};
use coinswap_wallet::signing::Signer;
use coinswap_wallet::swapcoin::{write_txid, SwapCoin};
use coinswap_wallet::sweep::{SweepEvent, SweepStep};
use coinswap_wallet::sync::{count_block, verify_tx_out_proof};
use coinswap_wallet::types::{
    Network, OutPoint, ProtocolVersion, Script, Transaction, TxIn, TxOut, Txid,
};
use coinswap_wallet::utxo::RecoveryOutcome;
use coinswap_wallet::wallet::Wallet;

fn txid(n: u8) -> Txid {
    Txid { bytes: [n; 32] }
}

fn swap_coin(n: u8, protocol: ProtocolVersion, timelock: Option<u32>) -> SwapCoin {
    SwapCoin {
        swap_id: None,
        protocol,
        contract_tx: Transaction {
            version: 2,
            lock_time: 0,
            input: vec![TxIn {
                previous_output: OutPoint::new(txid(n), 1),
                script_sig: Script { bytes: vec![] },
                sequence: 0,
                witness: vec![],
            }],
            output: vec![
                TxOut { value: 1_000, script_pubkey: Script { bytes: vec![] } },
                TxOut { value: 20_000, script_pubkey: Script { bytes: vec![0x51] } },
            ],
        },
        contract_vout: 1,
        contract_redeemscript: None,
        my_pubkey: None,
        other_pubkey: None,
        my_privkey: Some([1; 32]),
        other_privkey: None,
        hash_preimage: None,
        others_contract_sig: None,
        funding_amount: 20_000,
        timelock,
    }
}

fn wallet() -> Wallet {
    Wallet::from_seed("recover-test".to_string(), Network::Regtest, &vec![3; 16], 42).unwrap()
}

fn key(coin: &SwapCoin) -> String {
    write_txid(&coin.contract_txid())
}

#[test]
fn taproot_coins_are_due_from_their_height_on() {
    let mut wallet = wallet();
    let taproot = swap_coin(1, ProtocolVersion::Taproot, Some(100));
    let legacy = swap_coin(2, ProtocolVersion::Legacy, Some(100));
    let mut keyless = swap_coin(3, ProtocolVersion::Legacy, Some(1));
    keyless.my_privkey = None;
    for coin in [&taproot, &legacy, &keyless, &swap_coin(4, ProtocolVersion::Legacy, None)] {
        wallet.add_outgoing_swapcoin(coin);
    }
    assert_eq!(wallet.due_swapcoins(99), vec![key(&legacy)]);
    assert_eq!(wallet.due_swapcoins(100), vec![key(&taproot), key(&legacy)]);
}

#[test]
fn recovery_goes_step_by_step() {
    let coin = swap_coin(1, ProtocolVersion::Legacy, Some(20));
    let taproot = swap_coin(1, ProtocolVersion::Taproot, Some(20));
    let unspent = |step: RecoveryStep, coin: &SwapCoin, is_unspent| {
        step.advance(coin, &RecoveryEvent::Unspent(is_unspent))
    };
    let confirmed = |step: RecoveryStep, coin: &SwapCoin, confirmations| {
        step.advance(coin, &RecoveryEvent::Confirmations(confirmations))
    };
    let start = RecoveryStep::start();
    assert!(matches!(start, RecoveryStep::ContractOutput));
    assert!(matches!(unspent(start, &coin, true), RecoveryStep::ContractDepth));
    assert!(matches!(unspent(start, &coin, false), RecoveryStep::ContractConfirmations));
    assert!(matches!(
        confirmed(RecoveryStep::ContractConfirmations, &coin, Some(1)),
        RecoveryStep::Done(RecoveryVerdict::Discarded)
    ));
    for unconfirmed in [Some(0), None] {
        assert!(matches!(
            confirmed(RecoveryStep::ContractConfirmations, &coin, unconfirmed),
            RecoveryStep::ContractInput
        ));
    }
    assert!(matches!(
        unspent(RecoveryStep::ContractInput, &taproot, true),
        RecoveryStep::Done(RecoveryVerdict::Discarded)
    ));
    for (coin, is_unspent) in [(&coin, true), (&coin, false), (&taproot, false)] {
        assert!(matches!(
            unspent(RecoveryStep::ContractInput, coin, is_unspent),
            RecoveryStep::BroadcastContract
        ));
    }
    for (coin, depth) in [(&coin, Some(20)), (&taproot, Some(1))] {
        assert!(matches!(
            confirmed(RecoveryStep::ContractDepth, coin, depth),
            RecoveryStep::BroadcastRecovery
        ));
    }
    for (coin, depth) in [(&coin, Some(19)), (&coin, None), (&taproot, Some(0))] {
        assert!(matches!(
            confirmed(RecoveryStep::ContractDepth, coin, depth),
            RecoveryStep::Done(RecoveryVerdict::Skipped)
        ));
    }
    let last = RecoveryStep::BroadcastRecovery;
    let done = last.advance(&coin, &RecoveryEvent::Recovered(Some(txid(9))));
    assert!(matches!(
        done,
        RecoveryStep::Done(RecoveryVerdict::Resolved(id)) if id == txid(9)
    ));
    assert!(matches!(
        last.advance(&coin, &RecoveryEvent::Recovered(None)),
        RecoveryStep::Done(RecoveryVerdict::Skipped)
    ));
    // What does not answer the step changes nothing, and nothing follows the end.
    assert!(matches!(confirmed(start, &coin, Some(5)), RecoveryStep::ContractOutput));
    assert!(matches!(
        unspent(done, &coin, false),
        RecoveryStep::Done(RecoveryVerdict::Resolved(id)) if id == txid(9)
    ));
}

#[test]
fn broadcast_replies_decide_on_the_contract() {
    let coin = swap_coin(1, ProtocolVersion::Legacy, Some(20));
    let after = |reply: BroadcastReply| {
        RecoveryStep::BroadcastContract.advance(&coin, &RecoveryEvent::Broadcast(reply))
    };
    let reply = |text: &str| after(BroadcastReply::Rejected(text.to_string()));
    assert!(matches!(after(BroadcastReply::Sent), RecoveryStep::ContractDepth));
    assert!(matches!(
        after(BroadcastReply::SigningFailed),
        RecoveryStep::Done(RecoveryVerdict::Skipped)
    ));
    for known in ["code: -27", "Transaction outputs already in utxo set", "-27 and -25"] {
        assert!(matches!(reply(known), RecoveryStep::ContractDepth));
    }
    for missing in ["code: -25", "bad-txns-inputs-missingorspent"] {
        assert!(matches!(reply(missing), RecoveryStep::Done(RecoveryVerdict::Discarded)));
    }
    assert!(matches!(reply("timeout"), RecoveryStep::Done(RecoveryVerdict::Skipped)));
}

#[test]
fn finished_coins_are_dropped() {
    let mut wallet = wallet();
    let coins: Vec<SwapCoin> =
        (1..=3).map(|n| swap_coin(n, ProtocolVersion::Legacy, Some(20))).collect();
    for coin in &coins {
        wallet.add_outgoing_swapcoin(coin);
    }
    let (outcome, changed) = wallet.apply_recovery(vec![
        (key(&coins[0]), RecoveryVerdict::Resolved(txid(7))),
        (key(&coins[1]), RecoveryVerdict::Skipped),
        (key(&coins[2]), RecoveryVerdict::Discarded),
    ]);
    assert!(changed);
    assert_eq!(outcome.resolved, vec![(coins[0].contract_txid(), txid(7))]);
    assert_eq!(outcome.discarded, vec![coins[2].contract_txid()]);
    assert_eq!(wallet.get_outgoing_swapcoins_count(), 1);
    assert_eq!(wallet.due_swapcoins(0), vec![key(&coins[1])]);
    let (outcome, changed) =
        wallet.apply_recovery(vec![(key(&coins[1]), RecoveryVerdict::Skipped)]);
    assert!(outcome.is_empty() && !changed);
}

#[test]
fn recovery_pays_all_but_the_fee() {
    let to = Script { bytes: vec![0x52] };
    let rate = FeeRate { sats: 3, vbytes: 2 };
    let coin = swap_coin(1, ProtocolVersion::Legacy, Some(0x1_0014));
    let tx = coin.create_timelock_recovery_tx(rate, to.clone()).unwrap();
    assert_eq!((tx.version, tx.lock_time), (2, 0));
    assert_eq!(tx.input.len(), 1);
    assert_eq!(tx.input[0].previous_output, OutPoint::new(coin.contract_txid(), 1));
    // Only the lower half of the timelock counts in blocks.
    assert_eq!(tx.input[0].sequence, 0x14);
    assert_eq!(tx.output.len(), 1);
    assert_eq!(tx.output[0].value, 20_000 - 225);
    assert_eq!(tx.output[0].script_pubkey.bytes, vec![0x52]);

    let coin = swap_coin(1, ProtocolVersion::Taproot, Some(700_000));
    let tx = coin.create_timelock_recovery_tx(rate, to.clone()).unwrap();
    assert_eq!((tx.lock_time, tx.input[0].sequence), (700_000, 0xffff_fffe));
    // A time is no height.
    let coin = swap_coin(1, ProtocolVersion::Taproot, Some(500_000_000));
    assert_eq!(coin.create_timelock_recovery_tx(rate, to).unwrap().lock_time, 0);
}

#[test]
fn recovery_that_cannot_be_made_is_told() {
    let rate = FeeRate { sats: 1, vbytes: 1 };
    let text = |coin: &SwapCoin, rate| match coin.recovery_amount(rate) {
        Err(WalletError::General(text)) => text,
        other => panic!("{:?}", other),
    };
    let mut coin = swap_coin(1, ProtocolVersion::Legacy, None);
    assert_eq!(text(&coin, rate), "Could not extract timelock from swapcoin");
    coin.timelock = Some(1);
    assert_eq!(coin.recovery_amount(rate).unwrap(), 19_850);
    assert_eq!(
        text(&coin, FeeRate { sats: 134, vbytes: 1 }),
        "Insufficient funds for recovery fee"
    );
    coin.contract_vout = 2;
    assert_eq!(text(&coin, rate), "No output in contract tx");
}

#[test]
fn only_completed_coins_are_swept() {
    let mut wallet = wallet();
    let mut by_key = swap_coin(1, ProtocolVersion::Legacy, None);
    by_key.other_privkey = Some([1; 32]);
    let mut by_preimage = swap_coin(2, ProtocolVersion::Legacy, None);
    by_preimage.hash_preimage = Some([1; 32]);
    for coin in [&by_key, &swap_coin(3, ProtocolVersion::Legacy, None), &by_preimage] {
        wallet.add_incoming_swapcoin(coin);
    }
    let keys: Vec<String> = wallet.completed_swapcoins().into_iter().map(|c| c.0).collect();
    assert_eq!(keys, vec![key(&by_key), key(&by_preimage)]);
}

#[test]
fn the_output_to_sweep_depends_on_the_protocol() {
    let mut coin = swap_coin(6, ProtocolVersion::Legacy, None);
    let source = coin.sweep_source().unwrap();
    assert_eq!((source.outpoint, source.value), (OutPoint::new(coin.contract_txid(), 0), 1_000));
    coin.other_privkey = Some([1; 32]);
    let source = coin.sweep_source().unwrap();
    assert_eq!((source.outpoint, source.value), (OutPoint::new(txid(6), 1), 20_000));
    coin.protocol = ProtocolVersion::Taproot;
    let source = coin.sweep_source().unwrap();
    assert_eq!((source.outpoint, source.value), (OutPoint::new(coin.contract_txid(), 1), 20_000));
    coin.funding_amount = 5;
    assert_eq!(coin.sweep_source().unwrap().outpoint.vout, 0);

    let mut bare = swap_coin(6, ProtocolVersion::Legacy, None);
    bare.contract_tx.output.clear();
    assert!(bare.sweep_source().is_none());
    bare.other_privkey = Some([1; 32]);
    bare.contract_tx.input.clear();
    assert!(bare.sweep_source().is_none());
}

#[test]
fn sweeping_goes_step_by_step() {
    let mut coin = swap_coin(1, ProtocolVersion::Legacy, None);
    let unspent = |step: SweepStep, coin: &SwapCoin, is_unspent| {
        step.advance(coin, &SweepEvent::Unspent(is_unspent))
    };
    let start = SweepStep::start();
    assert!(matches!(start, SweepStep::ConfirmedOutput));
    assert!(matches!(unspent(start, &coin, true), SweepStep::Spend));
    assert!(matches!(unspent(start, &coin, false), SweepStep::MempoolOutput));
    let mempool = SweepStep::MempoolOutput;
    assert!(matches!(unspent(mempool, &coin, true), SweepStep::PollOutput { waited: 0 }));
    assert!(matches!(unspent(mempool, &coin, false), SweepStep::Skipped));
    coin.others_contract_sig = Some(vec![1]);
    assert!(matches!(unspent(mempool, &coin, false), SweepStep::BroadcastContract));
    coin.other_privkey = Some([1; 32]);
    assert!(matches!(unspent(mempool, &coin, false), SweepStep::Skipped));
    let broadcast = |reply| {
        SweepStep::BroadcastContract.advance(&coin, &SweepEvent::Broadcast(reply))
    };
    assert!(matches!(broadcast(BroadcastReply::Sent), SweepStep::AvailableOutput));
    assert!(matches!(broadcast(BroadcastReply::SigningFailed), SweepStep::Skipped));
    assert!(matches!(
        broadcast(BroadcastReply::Rejected("-27".to_string())),
        SweepStep::Skipped
    ));
    assert!(matches!(unspent(SweepStep::AvailableOutput, &coin, true), SweepStep::Spend));
    assert!(matches!(unspent(SweepStep::AvailableOutput, &coin, false), SweepStep::Skipped));
    let sent = SweepStep::Spend.advance(&coin, &SweepEvent::Spent(Some(txid(2))));
    assert!(matches!(sent, SweepStep::Confirm(id) if id == txid(2)));
    assert!(matches!(
        SweepStep::Spend.advance(&coin, &SweepEvent::Spent(None)),
        SweepStep::Skipped
    ));
    let swept = sent.advance(&coin, &SweepEvent::Confirmed);
    assert!(matches!(swept, SweepStep::Swept(id) if id == txid(2)));
    // What does not answer the step changes nothing, and nothing follows the end.
    assert!(matches!(unspent(SweepStep::Spend, &coin, true), SweepStep::Spend));
    assert!(matches!(unspent(swept, &coin, false), SweepStep::Swept(id) if id == txid(2)));
}

#[test]
fn waiting_for_a_confirmation_ends() {
    let coin = swap_coin(1, ProtocolVersion::Legacy, None);
    let after = |waited, is_confirmed| {
        SweepStep::PollOutput { waited }.advance(&coin, &SweepEvent::Unspent(is_confirmed))
    };
    let mut polls = 0;
    let mut step = SweepStep::PollOutput { waited: 0 };
    while let SweepStep::PollOutput { waited } = step {
        polls += 1;
        step = after(waited, false);
    }
    assert!(matches!(step, SweepStep::Spend));
    assert_eq!(polls, 61);
    assert!(matches!(after(0, true), SweepStep::Spend));
    assert!(matches!(after(u64::MAX, false), SweepStep::Spend));
}

#[test]
fn a_swept_coin_leaves_its_script_behind() {
    let mut wallet = wallet();
    let coin = swap_coin(1, ProtocolVersion::Legacy, None);
    wallet.add_incoming_swapcoin(&coin);
    let script = Script { bytes: vec![0x51, 9] };
    wallet.note_swept_swapcoin(&key(&coin), script.clone());
    assert_eq!(wallet.get_incoming_swapcoins_count(), 0);
    assert!(wallet.store.was_swept_to(&script));
    wallet.note_swept_swapcoin(&key(&coin), script);
    assert_eq!(wallet.store.swept_incoming_swapcoins.len(), 1);
    assert!(wallet.is_well_formed());
}

#[test]
fn a_round_of_confirmations_is_evaluated() {
    let rounds = |list: Vec<Option<u32>>, required| evaluate_round(1_000, &list, required);
    assert_eq!(rounds(vec![Some(1), Some(10)], 1), Some(1_000));
    assert_eq!(rounds(vec![Some(5), Some(10)], 2), Some(996));
    assert_eq!(rounds(vec![Some(5), Some(1)], 2), None);
    assert_eq!(rounds(vec![Some(5), None], 2), None);
    assert_eq!(rounds(vec![Some(u32::MAX)], 2), Some(1));
    assert_eq!(rounds(vec![], 1), Some(0));
}

#[test]
fn nothing_is_waited_for_without_need() {
    assert_eq!(nothing_to_wait_for(0, 3), Some(0));
    assert_eq!(nothing_to_wait_for(2, 0), Some(0));
    assert_eq!(nothing_to_wait_for(2, 3), None);
}

#[test]
fn waits_grow_up_to_ten_minutes() {
    let waits: Vec<u64> = [0, 1, 2, 59, 60, 61, u64::MAX].map(backoff_seconds).to_vec();
    assert_eq!(waits, vec![0, 10, 20, 590, 600, 600, 600]);
    assert_eq!(next_attempt(0), 1);
    assert_eq!(next_attempt(u64::MAX), u64::MAX);
}

#[test]
fn waits_can_be_broken_off() {
    let text = |shutdown, abort| match check_interruption(shutdown, abort) {
        Err(WalletError::Interrupted(text)) => text,
        other => panic!("{:?}", other),
    };
    assert!(check_interruption(false, false).is_ok());
    assert_eq!(text(true, false), "Shutdown requested");
    assert_eq!(text(true, true), "Shutdown requested");
    assert_eq!(text(false, true), "Abort requested");
}

#[test]
fn sync_starts_at_the_birthday_of_a_fresh_wallet() {
    let mut wallet = wallet();
    assert_eq!(wallet.sync_start_height(0), 42);
    assert_eq!(wallet.sync_start_height(1), 0);
    wallet.store.wallet_birthday = None;
    assert_eq!(wallet.sync_start_height(0), 0);
    wallet.store.wallet_birthday = Some(0x1_0000_0005);
    assert_eq!(wallet.sync_start_height(0), 5);
}

#[test]
fn the_wallet_is_saved_every_so_many_blocks() {
    let (mut count, mut saves) = (0, 0);
    for _ in 0..1_250 {
        let (save, next) = count_block(count);
        saves += save as u32;
        count = next;
    }
    assert_eq!((saves, count), (2, 250));
}

#[test]
fn a_proof_names_the_expected_transaction_alone() {
    assert!(verify_tx_out_proof(txid(1), vec![txid(1)]).is_ok());
    for got in [vec![], vec![txid(2)], vec![txid(1), txid(2)], vec![txid(1), txid(1)]] {
        match verify_tx_out_proof(txid(1), got.clone()) {
            Err(WalletError::MerkleProofInvalid { expected, got: named }) => {
                assert_eq!((expected, named), (txid(1), got))
            }
            other => panic!("{:?}", other),
        }
    }
}

#[test]
fn the_default_node_is_local() {
    let config = RPCConfig::default();
    assert_eq!(config.node_url(), "http://localhost:18443");
    assert_eq!(config.wallet_name, "random-wallet-name");
    match config.clone().auth {
        RpcAuth::UserPass(user, pass) => {
            assert_eq!((user.as_str(), pass.as_str()), ("regtestrpcuser", "regtestrpcpass"))
        }
        other => panic!("{:?}", other),
    }
}

#[test]
fn a_finished_sweep_is_reported() {
    let mut wallet = wallet();
    let coin = swap_coin(5, ProtocolVersion::Legacy, None);
    wallet.add_incoming_swapcoin(&coin);
    let mut outcome = RecoveryOutcome::default();
    outcome.discarded.push(txid(1));
    let to = Script { bytes: vec![0x51, 0x20] };
    wallet.finish_sweep(&mut outcome, &key(&coin), &coin, txid(9), to.clone());
    assert_eq!(outcome.resolved, vec![(coin.contract_txid(), txid(9))]);
    assert_eq!(outcome.discarded, vec![txid(1)]);
    assert!(wallet.find_incoming_swapcoin(&key(&coin)).is_none());
    assert!(wallet.store.was_swept_to(&to));
}

#[test]
fn a_swap_coin_answers_with_its_first_witness() {
    let mut tx = swap_coin(6, ProtocolVersion::Legacy, None).contract_tx;
    tx.input[0].witness = vec![vec![1, 2], vec![3]];
    match contract_signer(Ok(tx)) {
        Signer::Contract(witness) => assert_eq!(witness, vec![vec![1, 2], vec![3]]),
        other => panic!("{:?}", other),
    }
    match contract_signer(Err(WalletError::General("no".to_string()))) {
        Signer::Failed(WalletError::General(text)) => assert_eq!(text, "no"),
        other => panic!("{:?}", other),
    }
}
