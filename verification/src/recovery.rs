//! Taking back outgoing swap coins once their timelock is over.

use crate::coin_selector::FeeRate;
use crate::error::{WalletError, WalletErrorView};
use crate::store::StoreView;
use crate::swapcoin::{OutgoingSwapCoin, SwapCoinView};
use crate::table::{has_key, keys_distinct, law_take_then_get, value_of, without_row, Rows};
use crate::text::{contains_text, text_contains};
use crate::types::{
    OutPoint, ProtocolVersion, Script, Transaction, TransactionView, TxIn, TxInView, TxOut,
    TxOutView, Txid,
};
use crate::utxo::RecoveryOutcome;
use crate::wallet::{texts_view, Wallet};
use vstd::prelude::*;

verus! {

// ---------------------------------------------------------------------------------------------
// Which coins, and what became of them
// ---------------------------------------------------------------------------------------------

/// A coin that may be taken back at this height. A taproot contract is locked until a height; how
/// long a legacy contract is locked depends on the confirmations of its transaction, which are
/// looked at later.
pub open spec fn is_due(coin: SwapCoinView, height: u32) -> bool {
    &&& coin.my_privkey is Some
    &&& match coin.timelock {
        Some(timelock) => coin.protocol == ProtocolVersion::Legacy || height >= timelock,
        None => false,
    }
}

/// The keys of the coins that may be taken back.
pub open spec fn due_keys(rows: Rows<Seq<char>, SwapCoinView>, height: u32) -> Seq<Seq<char>>
    decreases rows.len(),
{
    if rows.len() == 0 {
        Seq::empty()
    } else {
        let rest = due_keys(rows.drop_last(), height);
        if is_due(rows.last().1, height) {
            rest.push(rows.last().0)
        } else {
            rest
        }
    }
}

/// The confirmations that the contract output needs: those of the relative timelock, or one for
/// an absolute timelock.
pub open spec fn required_confirmations(coin: SwapCoinView) -> u32 {
    match coin.protocol {
        ProtocolVersion::Taproot => 1,
        ProtocolVersion::Legacy => match coin.timelock {
            Some(timelock) => timelock,
            None => 0,
        },
    }
}

/// What became of an attempt to take a coin back.
#[derive(Debug, Clone, Copy)]
pub enum RecoveryVerdict {
    /// The coin was spent by this transaction.
    Resolved(Txid),
    /// There is nothing to take back: the contract was spent or can never be on the chain.
    Discarded,
    /// Not yet; the coin stays.
    Skipped,
}

/// What to find out or to do next.
#[derive(Debug, Clone, Copy)]
pub enum RecoveryStep {
    /// Is the contract output confirmed and unspent?
    ContractOutput,
    /// How many confirmations does the contract transaction have?
    ContractConfirmations,
    /// Is the output that the contract transaction spends still unspent, mempool included?
    ContractInput,
    /// Sign and broadcast the contract transaction.
    BroadcastContract,
    /// How many confirmations does the contract output have?
    ContractDepth,
    /// Make, sign and broadcast the transaction that takes the coin back.
    BroadcastRecovery,
    /// Done.
    Done(RecoveryVerdict),
}

/// What came of signing and broadcasting a transaction.
#[derive(Debug)]
pub enum BroadcastReply {
    Sent,
    SigningFailed,
    /// The node refused, with this text.
    Rejected(String),
}

#[verifier::ext_equal]
pub enum BroadcastReplyView {
    Sent,
    SigningFailed,
    Rejected(Seq<char>),
}

impl View for BroadcastReply {
    type V = BroadcastReplyView;

    open spec fn view(&self) -> BroadcastReplyView {
        match self {
            BroadcastReply::Sent => BroadcastReplyView::Sent,
            BroadcastReply::SigningFailed => BroadcastReplyView::SigningFailed,
            BroadcastReply::Rejected(text) => BroadcastReplyView::Rejected(text@),
        }
    }
}

/// What the chain and the node answer to a step.
#[derive(Debug)]
pub enum RecoveryEvent {
    /// Whether the output is there and unspent.
    Unspent(bool),
    /// The confirmations, where the transaction or the output is known.
    Confirmations(Option<u32>),
    /// What came of broadcasting the contract transaction.
    Broadcast(BroadcastReply),
    /// The transaction that takes the coin back, where it could be made and broadcast.
    Recovered(Option<Txid>),
}

#[verifier::ext_equal]
pub enum RecoveryEventView {
    Unspent(bool),
    Confirmations(Option<u32>),
    Broadcast(BroadcastReplyView),
    Recovered(Option<Txid>),
}

impl View for RecoveryEvent {
    type V = RecoveryEventView;

    open spec fn view(&self) -> RecoveryEventView {
        match self {
            RecoveryEvent::Unspent(unspent) => RecoveryEventView::Unspent(*unspent),
            RecoveryEvent::Confirmations(confirmations) => RecoveryEventView::Confirmations(
                *confirmations,
            ),
            RecoveryEvent::Broadcast(reply) => RecoveryEventView::Broadcast(reply@),
            RecoveryEvent::Recovered(sent) => RecoveryEventView::Recovered(*sent),
        }
    }
}

/// The node says that the transaction is on the chain already.
pub open spec fn says_already_in_chain(text: Seq<char>) -> bool {
    contains_text(text, "-27"@) || contains_text(text, "already in utxo set"@)
}

/// The node says that what the transaction spends is missing or spent.
pub open spec fn says_inputs_missing(text: Seq<char>) -> bool {
    contains_text(text, "-25"@) || contains_text(text, "bad-txns-inputs-missingorspent"@)
}

/// After looking for the contract output.
pub open spec fn after_contract_output(unspent: bool) -> RecoveryStep {
    if unspent {
        RecoveryStep::ContractDepth
    } else {
        RecoveryStep::ContractConfirmations
    }
}

/// After asking for the confirmations of the contract transaction: an output that is gone while
/// its transaction is on the chain was spent.
pub open spec fn after_contract_confirmations(confirmations: Option<u32>) -> RecoveryStep {
    if confirmations is Some && confirmations->0 > 0 {
        RecoveryStep::Done(RecoveryVerdict::Discarded)
    } else {
        RecoveryStep::ContractInput
    }
}

/// After looking for what the contract transaction spends. A taproot contract is funded from the
/// wallet: where that coin is unspent, the contract was never broadcast. A legacy contract spends
/// the multisig, so its transaction has to be broadcast first.
pub open spec fn after_contract_input(protocol: ProtocolVersion, unspent: bool) -> RecoveryStep {
    if unspent && protocol == ProtocolVersion::Taproot {
        RecoveryStep::Done(RecoveryVerdict::Discarded)
    } else {
        RecoveryStep::BroadcastContract
    }
}

/// After broadcasting the contract transaction.
pub open spec fn after_contract_broadcast(reply: BroadcastReplyView) -> RecoveryStep {
    match reply {
        BroadcastReplyView::Sent => RecoveryStep::ContractDepth,
        BroadcastReplyView::SigningFailed => RecoveryStep::Done(RecoveryVerdict::Skipped),
        BroadcastReplyView::Rejected(text) => if says_already_in_chain(text) {
            RecoveryStep::ContractDepth
        } else if says_inputs_missing(text) {
            RecoveryStep::Done(RecoveryVerdict::Discarded)
        } else {
            RecoveryStep::Done(RecoveryVerdict::Skipped)
        },
    }
}

/// After asking for the confirmations of the contract output.
pub open spec fn after_contract_depth(coin: SwapCoinView, confirmations: Option<u32>) -> RecoveryStep {
    if confirmations is Some && confirmations->0 >= required_confirmations(coin) {
        RecoveryStep::BroadcastRecovery
    } else {
        RecoveryStep::Done(RecoveryVerdict::Skipped)
    }
}

/// After broadcasting the transaction that takes the coin back.
pub open spec fn after_recovery_broadcast(sent: Option<Txid>) -> RecoveryStep {
    match sent {
        Some(txid) => RecoveryStep::Done(RecoveryVerdict::Resolved(txid)),
        None => RecoveryStep::Done(RecoveryVerdict::Skipped),
    }
}

/// The step after an event. An event that does not answer the step changes nothing, and nothing
/// follows the end.
pub open spec fn next_step(
    coin: SwapCoinView,
    step: RecoveryStep,
    event: RecoveryEventView,
) -> RecoveryStep {
    match (step, event) {
        (
            RecoveryStep::ContractOutput,
            RecoveryEventView::Unspent(unspent),
        ) => after_contract_output(unspent),
        (
            RecoveryStep::ContractConfirmations,
            RecoveryEventView::Confirmations(confirmations),
        ) => after_contract_confirmations(confirmations),
        (
            RecoveryStep::ContractInput,
            RecoveryEventView::Unspent(unspent),
        ) => after_contract_input(coin.protocol, unspent),
        (
            RecoveryStep::BroadcastContract,
            RecoveryEventView::Broadcast(reply),
        ) => after_contract_broadcast(reply),
        (
            RecoveryStep::ContractDepth,
            RecoveryEventView::Confirmations(confirmations),
        ) => after_contract_depth(coin, confirmations),
        (
            RecoveryStep::BroadcastRecovery,
            RecoveryEventView::Recovered(sent),
        ) => after_recovery_broadcast(sent),
        _ => step,
    }
}

impl RecoveryStep {
    /// The step after an event.
    pub fn advance(self, coin: &OutgoingSwapCoin, event: &RecoveryEvent) -> (r: Self)
        ensures
            r == next_step(coin@, self, event@),
    {
        match (self, event) {
            (RecoveryStep::ContractOutput, RecoveryEvent::Unspent(unspent)) =>
                Self::on_contract_output(*unspent),
            (
                RecoveryStep::ContractConfirmations,
                RecoveryEvent::Confirmations(confirmations),
            ) => Self::on_contract_confirmations(*confirmations),
            (RecoveryStep::ContractInput, RecoveryEvent::Unspent(unspent)) =>
                Self::on_contract_input(coin, *unspent),
            (RecoveryStep::BroadcastContract, RecoveryEvent::Broadcast(reply)) =>
                Self::on_contract_broadcast(reply),
            (RecoveryStep::ContractDepth, RecoveryEvent::Confirmations(confirmations)) =>
                Self::on_contract_depth(coin, *confirmations),
            (RecoveryStep::BroadcastRecovery, RecoveryEvent::Recovered(sent)) =>
                Self::on_recovery_broadcast(*sent),
            _ => self,
        }
    }

    /// The first step for every coin.
    pub fn start() -> (r: Self)
        ensures
            r == RecoveryStep::ContractOutput,
    {
        RecoveryStep::ContractOutput
    }

    /// The step after looking for the contract output.
    fn on_contract_output(unspent: bool) -> (r: Self)
        ensures
            r == after_contract_output(unspent),
    {
        if unspent {
            RecoveryStep::ContractDepth
        } else {
            RecoveryStep::ContractConfirmations
        }
    }

    /// The step after asking for the confirmations of the contract transaction.
    fn on_contract_confirmations(confirmations: Option<u32>) -> (r: Self)
        ensures
            r == after_contract_confirmations(confirmations),
    {
        match confirmations {
            Some(n) => if n > 0 {
                RecoveryStep::Done(RecoveryVerdict::Discarded)
            } else {
                RecoveryStep::ContractInput
            },
            None => RecoveryStep::ContractInput,
        }
    }

    /// The step after looking for what the contract transaction spends.
    fn on_contract_input(coin: &OutgoingSwapCoin, unspent: bool) -> (r: Self)
        ensures
            r == after_contract_input(coin@.protocol, unspent),
    {
        if unspent && coin.protocol == ProtocolVersion::Taproot {
            RecoveryStep::Done(RecoveryVerdict::Discarded)
        } else {
            RecoveryStep::BroadcastContract
        }
    }

    /// The step after broadcasting the contract transaction.
    fn on_contract_broadcast(reply: &BroadcastReply) -> (r: Self)
        ensures
            r == after_contract_broadcast(reply@),
    {
        match reply {
            BroadcastReply::Sent => RecoveryStep::ContractDepth,
            BroadcastReply::SigningFailed => RecoveryStep::Done(RecoveryVerdict::Skipped),
            BroadcastReply::Rejected(text) => {
                let text = text.as_str();
                if text_contains(text, "-27") || text_contains(text, "already in utxo set") {
                    RecoveryStep::ContractDepth
                } else if text_contains(text, "-25") || text_contains(
                    text,
                    "bad-txns-inputs-missingorspent",
                ) {
                    RecoveryStep::Done(RecoveryVerdict::Discarded)
                } else {
                    RecoveryStep::Done(RecoveryVerdict::Skipped)
                }
            },
        }
    }

    /// The step after asking for the confirmations of the contract output.
    fn on_contract_depth(coin: &OutgoingSwapCoin, confirmations: Option<u32>) -> (r: Self)
        ensures
            r == after_contract_depth(coin@, confirmations),
    {
        let required: u32 = match coin.protocol {
            ProtocolVersion::Taproot => 1,
            ProtocolVersion::Legacy => match coin.timelock {
                Some(timelock) => timelock,
                None => 0,
            },
        };
        match confirmations {
            Some(n) => if n >= required {
                RecoveryStep::BroadcastRecovery
            } else {
                RecoveryStep::Done(RecoveryVerdict::Skipped)
            },
            None => RecoveryStep::Done(RecoveryVerdict::Skipped),
        }
    }

    /// The step after broadcasting the transaction that takes the coin back.
    fn on_recovery_broadcast(sent: Option<Txid>) -> (r: Self)
        ensures
            r == after_recovery_broadcast(sent),
    {
        match sent {
            Some(txid) => RecoveryStep::Done(RecoveryVerdict::Resolved(txid)),
            None => RecoveryStep::Done(RecoveryVerdict::Skipped),
        }
    }
}

impl Wallet {
    /// The keys of the outgoing swap coins that may be taken back at this height.
    pub fn due_swapcoins(&self, current_height: u32) -> (r: Vec<String>)
        ensures
            texts_view(r@) == due_keys(self@.outgoing_swapcoins, current_height),
    {
        let coins = &self.store.outgoing_swapcoins;
        let mut r: Vec<String> = Vec::new();
        let mut i: usize = 0;
        assert(coins@.take(0) =~= Seq::<(Seq<char>, SwapCoinView)>::empty());
        assert(texts_view(r@) =~= Seq::<Seq<char>>::empty());
        while i < coins.rows.len()
            invariant
                coins == self.store.outgoing_swapcoins,
                i <= coins.rows.len(),
                texts_view(r@) == due_keys(coins@.take(i as int), current_height),
            decreases coins.rows.len() - i,
        {
            let ghost before = texts_view(r@);
            let coin = &coins.rows[i].1;
            proof {
                assert(coins@.take(i + 1).drop_last() =~= coins@.take(i as int));
                assert(coins@[i as int].1 == coin@);
            }
            let due: bool = coin.my_privkey.is_some() && match coin.timelock {
                Some(timelock) => coin.protocol == ProtocolVersion::Legacy || current_height
                    >= timelock,
                None => false,
            };
            if due {
                r.push(coins.rows[i].0.clone());
                assert(texts_view(r@) =~= before.push(coins@[i as int].0));
            }
            i += 1;
        }
        assert(coins@.take(coins@.len() as int) =~= coins@);
        r
    }
}

// ---------------------------------------------------------------------------------------------
// Noting what became of the coins
// ---------------------------------------------------------------------------------------------

/// The verdicts on coins, by key.
pub open spec fn verdicts_view(verdicts: Seq<(String, RecoveryVerdict)>) -> Seq<
    (Seq<char>, RecoveryVerdict),
> {
    verdicts.map_values(|v: (String, RecoveryVerdict)| (v.0@, v.1))
}

/// The verdicts are on different coins of the wallet.
pub open spec fn are_verdicts_on(
    rows: Rows<Seq<char>, SwapCoinView>,
    verdicts: Seq<(Seq<char>, RecoveryVerdict)>,
) -> bool {
    &&& forall|i: int| 0 <= i < verdicts.len() ==> has_key(rows, (#[trigger] verdicts[i]).0)
    &&& forall|i: int, j: int|
        0 <= i < j < verdicts.len() ==> (#[trigger] verdicts[i]).0 != (#[trigger] verdicts[j]).0
}

/// The contracts that were spent, each with the transaction that spent it.
pub open spec fn resolved_contracts(
    rows: Rows<Seq<char>, SwapCoinView>,
    verdicts: Seq<(Seq<char>, RecoveryVerdict)>,
) -> Seq<(Txid, Txid)>
    decreases verdicts.len(),
{
    if verdicts.len() == 0 {
        Seq::empty()
    } else {
        let rest = resolved_contracts(rows, verdicts.drop_last());
        match verdicts.last().1 {
            RecoveryVerdict::Resolved(txid) => rest.push(
                (value_of(rows, verdicts.last().0).contract_txid(), txid),
            ),
            _ => rest,
        }
    }
}

/// The contracts that were discarded.
pub open spec fn discarded_contracts(
    rows: Rows<Seq<char>, SwapCoinView>,
    verdicts: Seq<(Seq<char>, RecoveryVerdict)>,
) -> Seq<Txid>
    decreases verdicts.len(),
{
    if verdicts.len() == 0 {
        Seq::empty()
    } else {
        let rest = discarded_contracts(rows, verdicts.drop_last());
        match verdicts.last().1 {
            RecoveryVerdict::Discarded => rest.push(
                value_of(rows, verdicts.last().0).contract_txid(),
            ),
            _ => rest,
        }
    }
}

/// The coins that are left.
pub open spec fn left_coins(
    rows: Rows<Seq<char>, SwapCoinView>,
    verdicts: Seq<(Seq<char>, RecoveryVerdict)>,
) -> Rows<Seq<char>, SwapCoinView>
    decreases verdicts.len(),
{
    if verdicts.len() == 0 {
        rows
    } else {
        let rest = left_coins(rows, verdicts.drop_last());
        match verdicts.last().1 {
            RecoveryVerdict::Skipped => rest,
            _ => without_row(rest, verdicts.last().0),
        }
    }
}

proof fn lemma_left_coins(
    rows: Rows<Seq<char>, SwapCoinView>,
    verdicts: Seq<(Seq<char>, RecoveryVerdict)>,
    key: Seq<char>,
)
    requires
        keys_distinct(rows),
        forall|i: int| 0 <= i < verdicts.len() ==> (#[trigger] verdicts[i]).0 != key,
    ensures
        keys_distinct(left_coins(rows, verdicts)),
        has_key(left_coins(rows, verdicts), key) == has_key(rows, key),
        has_key(rows, key) ==> value_of(left_coins(rows, verdicts), key) == value_of(rows, key),
    decreases verdicts.len(),
{
    if verdicts.len() > 0 {
        let less = verdicts.drop_last();
        assert forall|i: int| 0 <= i < less.len() implies (#[trigger] less[i]).0 != key by {
            assert(less[i] == verdicts[i]);
        }
        lemma_left_coins(rows, less, key);
        assert(verdicts[verdicts.len() - 1].0 != key);
        law_take_then_get(left_coins(rows, less), verdicts.last().0, key);
    }
}

impl Wallet {
    /// Notes what became of the attempts to take coins back: drops the coins that are resolved or
    /// discarded, and reports them. The flag says whether the wallet has changed.
    pub fn apply_recovery(&mut self, verdicts: Vec<(String, RecoveryVerdict)>) -> (r: (
        RecoveryOutcome,
        bool,
    ))
        requires
            old(self)@.well_formed(),
            are_verdicts_on(old(self)@.outgoing_swapcoins, verdicts_view(verdicts@)),
        ensures
            final(self)@.well_formed(),
            final(self)@ == (StoreView {
                outgoing_swapcoins: left_coins(
                    old(self)@.outgoing_swapcoins,
                    verdicts_view(verdicts@),
                ),
                ..old(self)@
            }),
            r.0.resolved@ == resolved_contracts(
                old(self)@.outgoing_swapcoins,
                verdicts_view(verdicts@),
            ),
            r.0.discarded@ == discarded_contracts(
                old(self)@.outgoing_swapcoins,
                verdicts_view(verdicts@),
            ),
            r.1 == (r.0.resolved@.len() > 0 || r.0.discarded@.len() > 0),
    {
        let ghost store = self@;
        let ghost rows = store.outgoing_swapcoins;
        let ghost views = verdicts_view(verdicts@);
        let mut outcome = RecoveryOutcome::default();
        let mut i: usize = 0;
        assert(views.take(0) =~= Seq::<(Seq<char>, RecoveryVerdict)>::empty());
        while i < verdicts.len()
            invariant
                i <= verdicts.len(),
                store.well_formed(),
                rows == store.outgoing_swapcoins,
                views == verdicts_view(verdicts@),
                are_verdicts_on(rows, views),
                self@.well_formed(),
                self@ == (StoreView {
                    outgoing_swapcoins: left_coins(rows, views.take(i as int)),
                    ..store
                }),
                outcome.resolved@ == resolved_contracts(rows, views.take(i as int)),
                outcome.discarded@ == discarded_contracts(rows, views.take(i as int)),
            decreases verdicts.len() - i,
        {
            let key = &verdicts[i].0;
            proof {
                let done = views.take(i as int);
                assert(views.take(i + 1).drop_last() =~= done);
                assert(views[i as int] == (key@, verdicts@[i as int].1));
                assert forall|k: int| 0 <= k < done.len() implies (#[trigger] done[k]).0
                    != key@ by {
                    assert(done[k] == views[k]);
                    assert(views[k].0 != views[i as int].0);
                }
                lemma_left_coins(rows, done, key@);
            }
            match verdicts[i].1 {
                RecoveryVerdict::Resolved(txid) => {
                    if let Some(coin) = self.store.outgoing_swapcoins.remove(key) {
                        outcome.resolved.push((coin.contract_txid(), txid));
                    }
                },
                RecoveryVerdict::Discarded => {
                    if let Some(coin) = self.store.outgoing_swapcoins.remove(key) {
                        outcome.discarded.push(coin.contract_txid());
                    }
                },
                RecoveryVerdict::Skipped => {},
            }
            i += 1;
        }
        assert(views.take(views.len() as int) =~= views);
        let changed: bool = !outcome.is_empty();
        (outcome, changed)
    }
}

// ---------------------------------------------------------------------------------------------
// The transaction that takes a coin back
// ---------------------------------------------------------------------------------------------

/// The size of the transaction that the fee is paid for, in virtual bytes.
pub const RECOVERY_VBYTES: u64 = 150;

/// Lock times from here on are times, not heights.
pub const LOCK_TIME_THRESHOLD: u32 = 500_000_000;

/// The fee of the transaction at a rate, rounded down.
pub open spec fn recovery_fee(feerate: FeeRate) -> u64 {
    let fee = RECOVERY_VBYTES * feerate.sats / feerate.vbytes as int;
    if fee <= u64::MAX {
        fee as u64
    } else {
        u64::MAX
    }
}

/// What is left of the contract output after the fee.
pub open spec fn recovery_amount(coin: SwapCoinView, feerate: FeeRate) -> Result<u64, Seq<char>> {
    if coin.timelock is None {
        Err("Could not extract timelock from swapcoin"@)
    } else if coin.contract_vout >= coin.contract_tx.output.len() {
        Err("No output in contract tx"@)
    } else if coin.contract_tx.output[coin.contract_vout as int].value < recovery_fee(feerate) {
        Err("Insufficient funds for recovery fee"@)
    } else {
        Ok(
            (coin.contract_tx.output[coin.contract_vout as int].value - recovery_fee(
                feerate,
            )) as u64,
        )
    }
}

/// The lock time: the height of an absolute timelock, zero where that is no height or the timelock
/// is relative.
pub open spec fn recovery_lock_time(protocol: ProtocolVersion, timelock: u32) -> u32 {
    if protocol == ProtocolVersion::Taproot && timelock < LOCK_TIME_THRESHOLD {
        timelock
    } else {
        0
    }
}

/// The sequence: the blocks of a relative timelock, of which there are 16 bits, or the number that
/// lets the lock time count.
pub open spec fn recovery_sequence(protocol: ProtocolVersion, timelock: u32) -> u32 {
    if protocol == ProtocolVersion::Taproot {
        0xffff_fffe
    } else {
        timelock % 0x1_0000
    }
}

/// The transaction that takes a coin back, not yet signed.
pub open spec fn recovery_tx(coin: SwapCoinView, amount: u64, script: Seq<u8>) -> TransactionView {
    TransactionView {
        version: 2,
        lock_time: recovery_lock_time(coin.protocol, coin.timelock->0),
        input: seq![
            TxInView {
                previous_output: coin.contract_outpoint(),
                script_sig: Seq::empty(),
                sequence: recovery_sequence(coin.protocol, coin.timelock->0),
                witness: Seq::empty(),
            },
        ],
        output: seq![TxOutView { value: amount, script_pubkey: script }],
    }
}

fn compute_recovery_fee(feerate: FeeRate) -> (r: u64)
    requires
        feerate.vbytes > 0,
    ensures
        r == recovery_fee(feerate),
{
    let fee: u128 = RECOVERY_VBYTES as u128 * feerate.sats as u128 / feerate.vbytes as u128;
    if fee <= u64::MAX as u128 {
        fee as u64
    } else {
        u64::MAX
    }
}

impl OutgoingSwapCoin {
    /// What is left of the contract output after the fee.
    pub fn recovery_amount(&self, fee_rate: FeeRate) -> (r: Result<u64, WalletError>)
        requires
            fee_rate.vbytes > 0,
        ensures
            match r {
                Ok(amount) => recovery_amount(self@, fee_rate) == Ok::<u64, Seq<char>>(amount),
                Err(e) => recovery_amount(self@, fee_rate) is Err && e@ == WalletErrorView::General(
                    recovery_amount(self@, fee_rate)->Err_0,
                ),
            },
    {
        if self.timelock.is_none() {
            return Err(
                WalletError::General("Could not extract timelock from swapcoin".to_string()),
            );
        }
        if self.contract_vout as usize >= self.contract_tx.output.len() {
            return Err(WalletError::General("No output in contract tx".to_string()));
        }
        let fee: u64 = compute_recovery_fee(fee_rate);
        let value: u64 = self.contract_tx.output[self.contract_vout as usize].value;
        assert(value == self@.contract_tx.output[self.contract_vout as int].value);
        if value < fee {
            return Err(WalletError::General("Insufficient funds for recovery fee".to_string()));
        }
        Ok(value - fee)
    }

    /// Makes the transaction that takes a coin back to a script of the wallet, not yet signed.
    pub fn create_timelock_recovery_tx(&self, fee_rate: FeeRate, recovery_script: Script) -> (r:
        Result<Transaction, WalletError>)
        requires
            fee_rate.vbytes > 0,
        ensures
            match r {
                Ok(tx) => recovery_amount(self@, fee_rate) is Ok && tx@ == recovery_tx(
                    self@,
                    recovery_amount(self@, fee_rate)->Ok_0,
                    recovery_script@,
                ),
                Err(e) => recovery_amount(self@, fee_rate) is Err && e@ == WalletErrorView::General(
                    recovery_amount(self@, fee_rate)->Err_0,
                ),
            },
    {
        let amount: u64 = match self.recovery_amount(fee_rate) {
            Ok(amount) => amount,
            Err(e) => {
                return Err(e);
            },
        };
        let timelock: u32 = match self.timelock {
            Some(timelock) => timelock,
            None => 0,
        };
        let is_taproot: bool = self.protocol == ProtocolVersion::Taproot;
        let lock_time: u32 = if is_taproot && timelock < LOCK_TIME_THRESHOLD {
            timelock
        } else {
            0
        };
        let sequence: u32 = if is_taproot {
            0xffff_fffe
        } else {
            timelock % 0x1_0000
        };
        let mut input: Vec<TxIn> = Vec::new();
        input.push(
            TxIn {
                previous_output: OutPoint::new(self.contract_txid(), self.contract_vout),
                script_sig: Script::new(),
                sequence,
                witness: Vec::new(),
            },
        );
        let mut output: Vec<TxOut> = Vec::new();
        output.push(TxOut { value: amount, script_pubkey: recovery_script });
        let tx = Transaction { version: 2, lock_time, input, output };
        proof {
            let expected = recovery_tx(self@, amount, recovery_script@);
            assert(tx@.input[0].witness =~= Seq::<Seq<u8>>::empty());
            assert(tx@.input =~= expected.input);
            assert(tx@.output =~= expected.output);
        }
        Ok(tx)
    }
}

// ---------------------------------------------------------------------------------------------
// Laws
// ---------------------------------------------------------------------------------------------

/// What the chain and the node answer about one coin.
pub struct RecoveryFacts {
    pub output_unspent: bool,
    pub confirmations: Option<u32>,
    pub input_unspent: bool,
    pub broadcast: BroadcastReplyView,
    pub depth: Option<u32>,
    pub sent: Option<Txid>,
}

/// The answer to a step.
pub open spec fn answer(facts: RecoveryFacts, step: RecoveryStep) -> RecoveryEventView {
    match step {
        RecoveryStep::ContractOutput => RecoveryEventView::Unspent(facts.output_unspent),
        RecoveryStep::ContractConfirmations => RecoveryEventView::Confirmations(
            facts.confirmations,
        ),
        RecoveryStep::ContractInput => RecoveryEventView::Unspent(facts.input_unspent),
        RecoveryStep::BroadcastContract => RecoveryEventView::Broadcast(facts.broadcast),
        RecoveryStep::ContractDepth => RecoveryEventView::Confirmations(facts.depth),
        RecoveryStep::BroadcastRecovery => RecoveryEventView::Recovered(facts.sent),
        RecoveryStep::Done(_) => RecoveryEventView::Unspent(facts.output_unspent),
    }
}

/// The step after `n` answers.
pub open spec fn step_after(coin: SwapCoinView, facts: RecoveryFacts, n: nat) -> RecoveryStep
    decreases n,
{
    if n == 0 {
        RecoveryStep::ContractOutput
    } else {
        let step = step_after(coin, facts, (n - 1) as nat);
        next_step(coin, step, answer(facts, step))
    }
}

/// The contract is on the chain, or comes to be.
pub open spec fn reaches_chain(facts: RecoveryFacts) -> bool {
    facts.output_unspent || facts.broadcast is Sent || (facts.broadcast matches
        BroadcastReplyView::Rejected(text) && says_already_in_chain(text))
}

/// There is nothing left to take back: the contract was spent, or it was never broadcast and
/// cannot be any more.
pub open spec fn is_lost(coin: SwapCoinView, facts: RecoveryFacts) -> bool {
    &&& !facts.output_unspent
    &&& {
        ||| facts.confirmations is Some && facts.confirmations->0 > 0
        ||| facts.input_unspent && coin.protocol == ProtocolVersion::Taproot
        ||| (facts.broadcast matches BroadcastReplyView::Rejected(text) && says_inputs_missing(text)
            && !says_already_in_chain(text))
    }
}

/// An attempt ends after six answers at most: a coin is discarded exactly where it is lost, it is
/// taken back exactly where it is not lost, its contract reaches the chain with enough
/// confirmations and the transaction is accepted, and it stays otherwise.
pub proof fn law_recovery_verdict(coin: SwapCoinView, facts: RecoveryFacts, txid: Txid)
    ensures
        step_after(coin, facts, 6) is Done,
        step_after(coin, facts, 6) == RecoveryStep::Done(RecoveryVerdict::Discarded) <==> is_lost(
            coin,
            facts,
        ),
        step_after(coin, facts, 6) == RecoveryStep::Done(RecoveryVerdict::Resolved(txid))
            <==> !is_lost(coin, facts) && reaches_chain(facts) && facts.depth is Some
            && facts.depth->0 >= required_confirmations(coin) && facts.sent == Some(txid),
{
    reveal_with_fuel(step_after, 7);
}

/// Coins that are resolved or discarded are gone, all others stay as they were.
pub proof fn law_recovery_drops_only_finished_coins(
    rows: Rows<Seq<char>, SwapCoinView>,
    verdicts: Seq<(Seq<char>, RecoveryVerdict)>,
    key: Seq<char>,
)
    requires
        keys_distinct(rows),
        are_verdicts_on(rows, verdicts),
        has_key(rows, key),
    ensures
        has_key(left_coins(rows, verdicts), key) <==> !(exists|i: int|
            0 <= i < verdicts.len() && (#[trigger] verdicts[i]).0 == key && !(
            verdicts[i].1 is Skipped)),
        has_key(left_coins(rows, verdicts), key) ==> value_of(left_coins(rows, verdicts), key)
            == value_of(rows, key),
        keys_distinct(left_coins(rows, verdicts)),
    decreases verdicts.len(),
{
    if verdicts.len() > 0 {
        let (less, last) = (verdicts.drop_last(), verdicts.last());
        assert forall|i: int| 0 <= i < less.len() implies #[trigger] less[i] == verdicts[i] by {}
        assert(verdicts[verdicts.len() - 1] == last);
        law_recovery_drops_only_finished_coins(rows, less, key);
        let rest = left_coins(rows, less);
        law_take_then_get(rest, last.0, key);
        let dropped = |v: Seq<(Seq<char>, RecoveryVerdict)>|
            exists|i: int| 0 <= i < v.len() && (#[trigger] v[i]).0 == key && !(v[i].1 is Skipped);
        assert(dropped(verdicts) <==> dropped(less) || (last.0 == key && !(last.1 is Skipped))) by {
            if dropped(less) {
                let i = choose|i: int|
                    0 <= i < less.len() && (#[trigger] less[i]).0 == key && !(less[i].1 is Skipped);
                assert(verdicts[i] == less[i]);
            }
            if dropped(verdicts) {
                let i = choose|i: int|
                    0 <= i < verdicts.len() && (#[trigger] verdicts[i]).0 == key && !(
                    verdicts[i].1 is Skipped);
                if i < less.len() {
                    assert(less[i] == verdicts[i]);
                }
            }
        }
    }
}

/// The transaction pays the contract output, less the fee, to one output.
pub proof fn law_recovery_pays_all_but_the_fee(coin: SwapCoinView, feerate: FeeRate, script: Seq<u8>)
    requires
        recovery_amount(coin, feerate) is Ok,
    ensures
        recovery_tx(coin, recovery_amount(coin, feerate)->Ok_0, script).output[0].value
            + recovery_fee(feerate) == coin.contract_tx.output[coin.contract_vout as int].value,
{
}

/// A coin is due exactly where it has a timelock and the private key is known, and where it is a
/// legacy coin or the height is not below the timelock.
pub proof fn law_due_coins(wallet: Wallet, height: u32, r: Vec<String>, key: Seq<char>)
    requires
        call_ensures(Wallet::due_swapcoins, (&wallet, height), r),
    ensures
        texts_view(r@).contains(key) <==> exists|i: int| {
            let row = #[trigger] wallet@.outgoing_swapcoins[i];
            &&& 0 <= i < wallet@.outgoing_swapcoins.len()
            &&& row.0 == key
            &&& row.1.my_privkey is Some
            &&& row.1.timelock matches Some(timelock) && (row.1.protocol == ProtocolVersion::Legacy
                || timelock <= height)
        },
        r@.len() <= wallet@.outgoing_swapcoins.len(),
{
    lemma_due_keys(wallet@.outgoing_swapcoins, height, key);
    assert(texts_view(r@).len() == r@.len());
}

proof fn lemma_due_keys(rows: Rows<Seq<char>, SwapCoinView>, height: u32, key: Seq<char>)
    ensures
        due_keys(rows, height).contains(key) <==> exists|i: int|
            0 <= i < rows.len() && (#[trigger] rows[i]).0 == key && is_due(rows[i].1, height),
        due_keys(rows, height).len() <= rows.len(),
    decreases rows.len(),
{
    if rows.len() > 0 {
        let (less, last) = (rows.drop_last(), rows.last());
        let (rest, all) = (due_keys(less, height), due_keys(rows, height));
        lemma_due_keys(less, height, key);
        assert(rows[rows.len() - 1] == last);
        if rest.contains(key) {
            let k = choose|k: int| 0 <= k < rest.len() && rest[k] == key;
            assert(all[k] == key);
            let i = choose|i: int|
                0 <= i < less.len() && (#[trigger] less[i]).0 == key && is_due(less[i].1, height);
            assert(rows[i] == less[i]);
        }
        if last.0 == key && is_due(last.1, height) {
            assert(all[rest.len() as int] == key);
        }
        if all.contains(key) {
            let k = choose|k: int| 0 <= k < all.len() && all[k] == key;
            if k < rest.len() {
                assert(rest[k] == key);
            }
        }
        if exists|i: int|
            0 <= i < rows.len() && (#[trigger] rows[i]).0 == key && is_due(rows[i].1, height) {
            let i = choose|i: int|
                0 <= i < rows.len() && (#[trigger] rows[i]).0 == key && is_due(rows[i].1, height);
            if i < less.len() {
                assert(less[i] == rows[i]);
            }
        }
    }
}

/// A coin that is due stays due at every later height.
pub proof fn law_due_coins_stay_due(
    wallet: Wallet,
    height: u32,
    later: u32,
    r: Vec<String>,
    s: Vec<String>,
    key: Seq<char>,
)
    requires
        height <= later,
        call_ensures(Wallet::due_swapcoins, (&wallet, height), r),
        call_ensures(Wallet::due_swapcoins, (&wallet, later), s),
        texts_view(r@).contains(key),
    ensures
        texts_view(s@).contains(key),
{
    lemma_due_keys(wallet@.outgoing_swapcoins, height, key);
    lemma_due_keys(wallet@.outgoing_swapcoins, later, key);
}

} // verus!
