//! Sweeping finished incoming swap coins to addresses of the wallet.

use crate::coins::{descriptor_type, swept_info, wallet_info};
use crate::recovery::{BroadcastReply, BroadcastReplyView};
use crate::store::StoreView;
use crate::swapcoin::{IncomingSwapCoin, SwapCoin, SwapCoinView};
use crate::table::{without_row, Rows};
use crate::text::{hd_path, key_path};
use crate::types::{OutPoint, ProtocolVersion, Script, TxOutView, Txid};
use crate::utxo::{RecoveryOutcome, SpendInfoView, UtxoView};
use crate::wallet::Wallet;
use vstd::prelude::*;

verus! {

/// The seconds between two looks for a confirmation.
pub const POLL_SECONDS: u64 = 10;

/// The seconds after which waiting for a confirmation ends.
pub const POLL_LIMIT_SECONDS: u64 = 600;

/// A coin that the wallet can spend: the other private key or the preimage is known.
pub open spec fn is_completed(coin: SwapCoinView) -> bool {
    coin.other_privkey is Some || coin.hash_preimage is Some
}

/// The completed coins with their keys.
pub open spec fn completed_coins(rows: Rows<Seq<char>, SwapCoinView>) -> Rows<Seq<char>, SwapCoinView>
    decreases rows.len(),
{
    if rows.len() == 0 {
        Seq::empty()
    } else {
        let rest = completed_coins(rows.drop_last());
        if is_completed(rows.last().1) {
            rest.push(rows.last())
        } else {
            rest
        }
    }
}

/// The first output of this value, the first one of all where there is none.
pub open spec fn output_of_value(outputs: Seq<TxOutView>, value: u64, vout: int) -> bool {
    if exists|i: int| 0 <= i < outputs.len() && (#[trigger] outputs[i]).value == value {
        &&& 0 <= vout < outputs.len()
        &&& outputs[vout].value == value
        &&& forall|i: int| 0 <= i < vout ==> (#[trigger] outputs[i]).value != value
    } else {
        vout == 0
    }
}

/// The output to spend, and its value in satoshis.
#[derive(Debug, Clone, Copy)]
pub struct SweepSource {
    pub outpoint: OutPoint,
    pub value: u64,
}

/// The output that a sweep of the coin spends.
///
/// A legacy coin is swept from the funding output where both keys are known, else from the contract
/// output. The contract transaction of a taproot coin is its funding transaction; the output is
/// the one of the funding amount.
pub open spec fn is_sweep_source(coin: SwapCoinView, source: Option<SweepSource>) -> bool {
    match coin.protocol {
        ProtocolVersion::Legacy => if coin.other_privkey is Some {
            source == if coin.contract_tx.input.len() > 0 {
                Some(
                    SweepSource {
                        outpoint: coin.contract_tx.input[0].previous_output,
                        value: coin.funding_amount,
                    },
                )
            } else {
                None
            }
        } else {
            source == if coin.contract_tx.output.len() > 0 {
                Some(
                    SweepSource {
                        outpoint: OutPoint { txid: coin.contract_txid(), vout: 0 },
                        value: coin.contract_tx.output[0].value,
                    },
                )
            } else {
                None
            }
        },
        ProtocolVersion::Taproot => source is Some && source->0.outpoint.txid
            == coin.contract_txid() && source->0.value == coin.funding_amount && output_of_value(
            coin.contract_tx.output,
            coin.funding_amount,
            source->0.outpoint.vout as int,
        ),
    }
}

/// What to find out or to do next.
#[derive(Debug, Clone, Copy)]
pub enum SweepStep {
    /// Is the output confirmed and unspent?
    ConfirmedOutput,
    /// Is the output unspent, mempool included?
    MempoolOutput,
    /// Is the output confirmed by now? The time waited so far is in seconds; `POLL_SECONDS` are to
    /// be waited before every look but the first.
    PollOutput { waited: u64 },
    /// Sign and broadcast the contract transaction.
    BroadcastContract,
    /// Is the output there, mempool included, after the contract was broadcast?
    AvailableOutput,
    /// Sign and broadcast the transaction that spends the output to an address of the wallet.
    Spend,
    /// Wait until the transaction has one confirmation.
    Confirm(Txid),
    /// The coin was swept by this transaction.
    Swept(Txid),
    /// Not yet; the coin stays.
    Skipped,
}

/// What the chain and the node answer to a step.
#[derive(Debug)]
pub enum SweepEvent {
    /// Whether the output is there and unspent.
    Unspent(bool),
    /// What came of broadcasting the contract transaction.
    Broadcast(BroadcastReply),
    /// The transaction that spends the output, where it could be signed and broadcast.
    Spent(Option<Txid>),
    /// The transaction has its confirmation.
    Confirmed,
}

#[verifier::ext_equal]
pub enum SweepEventView {
    Unspent(bool),
    Broadcast(BroadcastReplyView),
    Spent(Option<Txid>),
    Confirmed,
}

impl View for SweepEvent {
    type V = SweepEventView;

    open spec fn view(&self) -> SweepEventView {
        match self {
            SweepEvent::Unspent(unspent) => SweepEventView::Unspent(*unspent),
            SweepEvent::Broadcast(reply) => SweepEventView::Broadcast(reply@),
            SweepEvent::Spent(sent) => SweepEventView::Spent(*sent),
            SweepEvent::Confirmed => SweepEventView::Confirmed,
        }
    }
}

/// After looking for the confirmed output.
pub open spec fn after_confirmed_output(unspent: bool) -> SweepStep {
    if unspent {
        SweepStep::Spend
    } else {
        SweepStep::MempoolOutput
    }
}

/// After looking for the output in the mempool: where it is not there, the contract can be
/// broadcast if the other party signed it and its private key is not known.
pub open spec fn after_mempool_output(coin: SwapCoinView, unspent: bool) -> SweepStep {
    if unspent {
        SweepStep::PollOutput { waited: 0 }
    } else if coin.other_privkey is None && coin.others_contract_sig is Some {
        SweepStep::BroadcastContract
    } else {
        SweepStep::Skipped
    }
}

/// After looking for the confirmation. When the time is over the output is spent all the same.
pub open spec fn after_poll(waited: u64, confirmed: bool) -> SweepStep {
    if confirmed || waited + POLL_SECONDS > POLL_LIMIT_SECONDS {
        SweepStep::Spend
    } else {
        SweepStep::PollOutput { waited: (waited + POLL_SECONDS) as u64 }
    }
}

/// After broadcasting the contract transaction.
pub open spec fn after_sweep_broadcast(sent: bool) -> SweepStep {
    if sent {
        SweepStep::AvailableOutput
    } else {
        SweepStep::Skipped
    }
}

/// After looking for the output once the contract was broadcast.
pub open spec fn after_available_output(available: bool) -> SweepStep {
    if available {
        SweepStep::Spend
    } else {
        SweepStep::Skipped
    }
}

/// After broadcasting the transaction that spends the output.
pub open spec fn after_spend(sent: Option<Txid>) -> SweepStep {
    match sent {
        Some(txid) => SweepStep::Confirm(txid),
        None => SweepStep::Skipped,
    }
}

/// The step after an event. An event that does not answer the step changes nothing, and nothing
/// follows the end.
pub open spec fn next_step(
    coin: SwapCoinView,
    step: SweepStep,
    event: SweepEventView,
) -> SweepStep {
    match (step, event) {
        (SweepStep::ConfirmedOutput, SweepEventView::Unspent(unspent)) => after_confirmed_output(
            unspent,
        ),
        (SweepStep::MempoolOutput, SweepEventView::Unspent(unspent)) => after_mempool_output(
            coin,
            unspent,
        ),
        (SweepStep::PollOutput { waited }, SweepEventView::Unspent(unspent)) => after_poll(
            waited,
            unspent,
        ),
        (SweepStep::BroadcastContract, SweepEventView::Broadcast(reply)) => after_sweep_broadcast(
            reply is Sent,
        ),
        (SweepStep::AvailableOutput, SweepEventView::Unspent(unspent)) => after_available_output(
            unspent,
        ),
        (SweepStep::Spend, SweepEventView::Spent(sent)) => after_spend(sent),
        (SweepStep::Confirm(txid), SweepEventView::Confirmed) => SweepStep::Swept(txid),
        _ => step,
    }
}

impl SweepStep {
    /// The step after an event.
    pub fn advance(self, coin: &IncomingSwapCoin, event: &SweepEvent) -> (r: Self)
        ensures
            r == next_step(coin@, self, event@),
    {
        match (self, event) {
            (SweepStep::ConfirmedOutput, SweepEvent::Unspent(unspent)) =>
                Self::on_confirmed_output(*unspent),
            (SweepStep::MempoolOutput, SweepEvent::Unspent(unspent)) =>
                Self::on_mempool_output(coin, *unspent),
            (SweepStep::PollOutput { waited }, SweepEvent::Unspent(unspent)) =>
                Self::on_poll(waited, *unspent),
            (SweepStep::BroadcastContract, SweepEvent::Broadcast(reply)) => match reply {
                BroadcastReply::Sent => Self::on_broadcast(true),
                _ => Self::on_broadcast(false),
            },
            (SweepStep::AvailableOutput, SweepEvent::Unspent(unspent)) =>
                Self::on_available_output(*unspent),
            (SweepStep::Spend, SweepEvent::Spent(sent)) => Self::on_spend(*sent),
            (SweepStep::Confirm(txid), SweepEvent::Confirmed) => SweepStep::Swept(txid),
            _ => self,
        }
    }

    /// The first step for every coin.
    pub fn start() -> (r: Self)
        ensures
            r == SweepStep::ConfirmedOutput,
    {
        SweepStep::ConfirmedOutput
    }

    /// The step after looking for the confirmed output.
    fn on_confirmed_output(unspent: bool) -> (r: Self)
        ensures
            r == after_confirmed_output(unspent),
    {
        if unspent {
            SweepStep::Spend
        } else {
            SweepStep::MempoolOutput
        }
    }

    /// The step after looking for the output in the mempool.
    fn on_mempool_output(coin: &IncomingSwapCoin, unspent: bool) -> (r: Self)
        ensures
            r == after_mempool_output(coin@, unspent),
    {
        if unspent {
            SweepStep::PollOutput { waited: 0 }
        } else if coin.other_privkey.is_none() && coin.others_contract_sig.is_some() {
            SweepStep::BroadcastContract
        } else {
            SweepStep::Skipped
        }
    }

    /// The step after looking for the confirmation.
    fn on_poll(waited: u64, confirmed: bool) -> (r: Self)
        ensures
            r == after_poll(waited, confirmed),
    {
        if confirmed || waited > POLL_LIMIT_SECONDS - POLL_SECONDS {
            SweepStep::Spend
        } else {
            SweepStep::PollOutput { waited: waited + POLL_SECONDS }
        }
    }

    /// The step after broadcasting the contract transaction.
    fn on_broadcast(sent: bool) -> (r: Self)
        ensures
            r == after_sweep_broadcast(sent),
    {
        if sent {
            SweepStep::AvailableOutput
        } else {
            SweepStep::Skipped
        }
    }

    /// The step after looking for the output once the contract was broadcast.
    fn on_available_output(available: bool) -> (r: Self)
        ensures
            r == after_available_output(available),
    {
        if available {
            SweepStep::Spend
        } else {
            SweepStep::Skipped
        }
    }

    /// The step after broadcasting the transaction that spends the output.
    fn on_spend(sent: Option<Txid>) -> (r: Self)
        ensures
            r == after_spend(sent),
    {
        match sent {
            Some(txid) => SweepStep::Confirm(txid),
            None => SweepStep::Skipped,
        }
    }
}

/// The views of a list of coins with their keys.
pub open spec fn keyed_coins_view(coins: Seq<(String, SwapCoin)>) -> Rows<Seq<char>, SwapCoinView> {
    coins.map_values(|row: (String, SwapCoin)| (row.0@, row.1@))
}

impl IncomingSwapCoin {
    /// The output that a sweep of the coin spends.
    pub fn sweep_source(&self) -> (r: Option<SweepSource>)
        requires
            self.contract_tx.output@.len() <= u32::MAX,
        ensures
            is_sweep_source(self@, r),
    {
        match self.protocol {
            ProtocolVersion::Legacy => {
                if self.other_privkey.is_some() {
                    if self.contract_tx.input.len() == 0 {
                        return None;
                    }
                    let outpoint = self.contract_tx.input[0].previous_output;
                    assert(self@.contract_tx.input[0].previous_output == outpoint);
                    Some(SweepSource { outpoint, value: self.funding_amount })
                } else {
                    if self.contract_tx.output.len() == 0 {
                        return None;
                    }
                    let value: u64 = self.contract_tx.output[0].value;
                    assert(self@.contract_tx.output[0].value == value);
                    Some(
                        SweepSource { outpoint: OutPoint::new(self.contract_txid(), 0), value },
                    )
                }
            },
            ProtocolVersion::Taproot => {
                let outputs = &self.contract_tx.output;
                let mut i: usize = 0;
                while i < outputs.len()
                    invariant
                        self.protocol == ProtocolVersion::Taproot,
                        outputs == self.contract_tx.output,
                        outputs@.len() <= u32::MAX,
                        i <= outputs.len(),
                        forall|k: int|
                            0 <= k < i ==> (#[trigger] self@.contract_tx.output[k]).value
                                != self.funding_amount,
                    decreases outputs.len() - i,
                {
                    assert(self@.contract_tx.output[i as int].value == outputs@[i as int].value);
                    if outputs[i].value == self.funding_amount {
                        return Some(
                            SweepSource {
                                outpoint: OutPoint::new(self.contract_txid(), i as u32),
                                value: self.funding_amount,
                            },
                        );
                    }
                    i += 1;
                }
                Some(
                    SweepSource {
                        outpoint: OutPoint::new(self.contract_txid(), 0),
                        value: self.funding_amount,
                    },
                )
            },
        }
    }
}

impl Wallet {
    /// The incoming swap coins that can be swept, with their keys.
    pub fn completed_swapcoins(&self) -> (r: Vec<(String, IncomingSwapCoin)>)
        ensures
            keyed_coins_view(r@) == completed_coins(self@.incoming_swapcoins),
    {
        let coins = &self.store.incoming_swapcoins;
        let mut r: Vec<(String, IncomingSwapCoin)> = Vec::new();
        let mut i: usize = 0;
        assert(coins@.take(0) =~= Seq::<(Seq<char>, SwapCoinView)>::empty());
        assert(keyed_coins_view(r@) =~= Seq::<(Seq<char>, SwapCoinView)>::empty());
        while i < coins.rows.len()
            invariant
                coins == self.store.incoming_swapcoins,
                i <= coins.rows.len(),
                keyed_coins_view(r@) == completed_coins(coins@.take(i as int)),
            decreases coins.rows.len() - i,
        {
            let ghost before = keyed_coins_view(r@);
            let row = &coins.rows[i];
            proof {
                assert(coins@.take(i + 1).drop_last() =~= coins@.take(i as int));
                assert(coins@[i as int] == (row.0@, row.1@));
            }
            if row.1.other_privkey.is_some() || row.1.hash_preimage.is_some() {
                r.push((row.0.clone(), row.1.clone()));
                assert(keyed_coins_view(r@) =~= before.push(coins@[i as int]));
            }
            i += 1;
        }
        assert(coins@.take(coins@.len() as int) =~= coins@);
        r
    }

    /// Notes that a coin was swept to a script of the wallet: drops the coin and remembers the
    /// script, so that what it holds is not mixed with regular coins.
    pub fn note_swept_swapcoin(&mut self, contract_txid: &str, output_script: Script)
        requires
            old(self)@.well_formed(),
        ensures
            final(self)@.well_formed(),
            final(self)@ == swept_store(old(self)@, contract_txid@, output_script@),
    {
        let _ = self.remove_incoming_swapcoin(contract_txid);
        if !self.store.was_swept_to(&output_script) {
            let ghost before = self@.swept_incoming_swapcoins;
            let ghost script = output_script@;
            self.store.swept_incoming_swapcoins.push(output_script);
            proof {
                let after = self@.swept_incoming_swapcoins;
                assert(after =~= before.push(script));
                assert(after.no_duplicates()) by {
                    assert forall|i: int, j: int|
                        0 <= i < after.len() && 0 <= j < after.len() && i != j implies after[i]
                        != after[j] by {
                        if i < before.len() {
                            assert(after[i] == before[i]);
                            assert(before.contains(before[i]));
                        }
                        if j < before.len() {
                            assert(after[j] == before[j]);
                            assert(before.contains(before[j]));
                        }
                    }
                }
            }
        }
    }

    /// Notes that a transaction swept a coin to a script of the wallet, and reports the contract of
    /// the coin as resolved by that transaction.
    pub fn finish_sweep(
        &mut self,
        outcome: &mut RecoveryOutcome,
        key: &str,
        coin: &IncomingSwapCoin,
        spent_by: Txid,
        to: Script,
    )
        requires
            old(self)@.well_formed(),
        ensures
            final(self)@.well_formed(),
            final(self)@ == swept_store(old(self)@, key@, to@),
            final(outcome).resolved@ == old(outcome).resolved@.push(
                (coin@.contract_txid(), spent_by),
            ),
            final(outcome).discarded@ == old(outcome).discarded@,
    {
        outcome.resolved.push((coin.contract_txid(), spent_by));
        self.note_swept_swapcoin(key, to);
    }
}

/// The state after a coin was swept to a script.
pub open spec fn swept_store(store: StoreView, key: Seq<char>, script: Seq<u8>) -> StoreView {
    StoreView {
        incoming_swapcoins: without_row(store.incoming_swapcoins, key),
        swept_incoming_swapcoins: if store.swept_incoming_swapcoins.contains(script) {
            store.swept_incoming_swapcoins
        } else {
            store.swept_incoming_swapcoins.push(script)
        },
        ..store
    }
}

// ---------------------------------------------------------------------------------------------
// Laws
// ---------------------------------------------------------------------------------------------

/// Waiting for a confirmation ends: every look that finds none moves the time on, up to the limit.
pub proof fn law_waiting_ends(waited: u64)
    requires
        waited <= POLL_LIMIT_SECONDS,
    ensures
        after_poll(waited, false) matches SweepStep::PollOutput { waited: later } ==> waited < later
            <= POLL_LIMIT_SECONDS,
        waited == POLL_LIMIT_SECONDS ==> after_poll(waited, false) == SweepStep::Spend,
        after_poll(waited, true) == SweepStep::Spend,
{
}

/// A coin is not swept before its output was seen: confirmed, in the mempool, or after its
/// contract was broadcast.
pub proof fn law_output_is_seen_before_it_is_spent(
    coin: SwapCoinView,
    confirmed: bool,
    in_mempool: bool,
    sent: bool,
    available: bool,
)
    ensures
        after_confirmed_output(confirmed) == SweepStep::Spend <==> confirmed,
        after_mempool_output(coin, in_mempool) is PollOutput <==> in_mempool,
        after_mempool_output(coin, in_mempool) != SweepStep::Spend,
        after_sweep_broadcast(sent) != SweepStep::Spend,
        after_available_output(available) == SweepStep::Spend <==> available,
{
}

/// What the node says of a coin, and what comes of the broadcasts.
pub struct SweepFacts {
    /// The output is confirmed and unspent.
    pub confirmed: bool,
    /// The output is unspent, mempool included.
    pub in_mempool: bool,
    /// Whether the output is confirmed after these seconds.
    pub confirmed_after: spec_fn(u64) -> bool,
    /// What came of broadcasting the contract transaction.
    pub broadcast: BroadcastReplyView,
    /// The output is there after the contract was broadcast.
    pub available: bool,
    /// The transaction that spends the output, where it could be signed and broadcast.
    pub spent: Option<Txid>,
}

/// The answer to a step.
pub open spec fn answer(facts: SweepFacts, step: SweepStep) -> SweepEventView {
    match step {
        SweepStep::MempoolOutput => SweepEventView::Unspent(facts.in_mempool),
        SweepStep::PollOutput { waited } => SweepEventView::Unspent((facts.confirmed_after)(waited)),
        SweepStep::BroadcastContract => SweepEventView::Broadcast(facts.broadcast),
        SweepStep::AvailableOutput => SweepEventView::Unspent(facts.available),
        SweepStep::Spend => SweepEventView::Spent(facts.spent),
        SweepStep::Confirm(_) => SweepEventView::Confirmed,
        _ => SweepEventView::Unspent(facts.confirmed),
    }
}

/// The step after `n` more answers.
pub open spec fn step_after(
    coin: SwapCoinView,
    facts: SweepFacts,
    step: SweepStep,
    n: nat,
) -> SweepStep
    decreases n,
{
    if n == 0 {
        step
    } else {
        step_after(coin, facts, next_step(coin, step, answer(facts, step)), (n - 1) as nat)
    }
}

proof fn lemma_nothing_follows_the_end(coin: SwapCoinView, facts: SweepFacts, step: SweepStep, n: nat)
    requires
        step is Swept || step is Skipped,
    ensures
        step_after(coin, facts, step, n) == step,
    decreases n,
{
    if n > 0 {
        lemma_nothing_follows_the_end(coin, facts, step, (n - 1) as nat);
    }
}

/// Where a coin whose output is to be spent comes to.
spec fn spend_end(facts: SweepFacts) -> SweepStep {
    match facts.spent {
        Some(txid) => SweepStep::Swept(txid),
        None => SweepStep::Skipped,
    }
}

proof fn lemma_spend_ends(coin: SwapCoinView, facts: SweepFacts, n: nat)
    requires
        n >= 2,
    ensures
        step_after(coin, facts, SweepStep::Spend, n) == spend_end(facts),
{
    reveal_with_fuel(step_after, 3);
    let rest = (n - 2) as nat;
    lemma_nothing_follows_the_end(coin, facts, spend_end(facts), rest);
    lemma_nothing_follows_the_end(coin, facts, SweepStep::Skipped, rest + 1);
}

proof fn lemma_polls_end(coin: SwapCoinView, facts: SweepFacts, waited: u64, n: nat)
    requires
        n >= 3,
        waited + POLL_SECONDS * (n - 3) >= POLL_LIMIT_SECONDS,
    ensures
        step_after(coin, facts, SweepStep::PollOutput { waited }, n) == spend_end(facts),
    decreases n,
{
    let rest = (n - 1) as nat;
    match after_poll(waited, (facts.confirmed_after)(waited)) {
        SweepStep::PollOutput { waited: later } => {
            lemma_polls_end(coin, facts, later, rest);
        },
        _ => {
            lemma_spend_ends(coin, facts, rest);
        },
    }
}

/// Sweeping a coin ends after sixty-five answers at most. The coin is swept where its output is
/// confirmed, or in the mempool however long the confirmation takes, or appears once the contract
/// that the other party signed was broadcast, and the transaction that spends it could be broadcast.
/// Otherwise it is left alone.
pub proof fn law_sweep_end(coin: SwapCoinView, facts: SweepFacts, n: nat)
    requires
        n >= 65,
    ensures
        step_after(coin, facts, SweepStep::ConfirmedOutput, n) == {
            let located = facts.confirmed || facts.in_mempool || (coin.other_privkey is None
                && coin.others_contract_sig is Some && facts.broadcast is Sent && facts.available);
            match facts.spent {
                Some(txid) => if located {
                    SweepStep::Swept(txid)
                } else {
                    SweepStep::Skipped
                },
                None => SweepStep::Skipped,
            }
        },
{
    reveal_with_fuel(step_after, 5);
    lemma_spend_ends(coin, facts, (n - 1) as nat);
    lemma_polls_end(coin, facts, 0, (n - 2) as nat);
    lemma_spend_ends(coin, facts, (n - 4) as nat);
    lemma_nothing_follows_the_end(coin, facts, SweepStep::Skipped, (n - 2) as nat);
    lemma_nothing_follows_the_end(coin, facts, SweepStep::Skipped, (n - 3) as nat);
    lemma_nothing_follows_the_end(coin, facts, SweepStep::Skipped, (n - 4) as nat);
}

/// What is received on a script that a coin was swept to counts as a swept coin, never as a regular
/// one.
pub proof fn law_swept_output_is_no_regular_coin(
    store: StoreView,
    key: Seq<char>,
    utxo: UtxoView,
)
    requires
        utxo.descriptor is Some,
        hd_path(utxo.descriptor->0) is Some,
    ensures
        ({
            let path = hd_path(utxo.descriptor->0)->0;
            wallet_info(swept_store(store, key, utxo.script_pub_key), utxo) == Ok::<_, ()>(
                Some(
                    SpendInfoView::SweptCoin {
                        path: key_path(path.branch, path.index),
                        input_value: utxo.amount,
                        address_type: descriptor_type(utxo.descriptor->0),
                    },
                ),
            )
        }),
{
    let after = swept_store(store, key, utxo.script_pub_key);
    if !store.swept_incoming_swapcoins.contains(utxo.script_pub_key) {
        assert(after.swept_incoming_swapcoins[store.swept_incoming_swapcoins.len() as int]
            == utxo.script_pub_key);
    }
    assert(after.swept_incoming_swapcoins.contains(utxo.script_pub_key));
    assert(swept_info(after, utxo) is Some);
}

} // verus!
