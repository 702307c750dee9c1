//! What sweeping incoming swap coins promises.

use crate::keys::{transaction_id, without_witnesses};
use crate::swapcoin::{IncomingSwapCoin, SwapCoinView};
use crate::sweep::{
    completed_coins, is_completed, keyed_coins_view, SweepEvent, SweepEventView, SweepSource,
    SweepStep,
};
use crate::table::{has_key, law_take_then_get, value_of, Rows};
use crate::types::{ProtocolVersion, Script, Txid};
use crate::utxo::RecoveryOutcome;
use crate::wallet::Wallet;
use vstd::prelude::*;

verus! {

/// A coin is completed, and listed under its key, exactly where the private key of the other party
/// or the preimage is known; either is enough.
pub proof fn law_completed_coins(
    wallet: Wallet,
    r: Vec<(String, IncomingSwapCoin)>,
    key: Seq<char>,
    coin: SwapCoinView,
)
    requires
        call_ensures(Wallet::completed_swapcoins, (&wallet,), r),
    ensures
        keyed_coins_view(r@).contains((key, coin)) <==> wallet@.incoming_swapcoins.contains(
            (key, coin),
        ) && !(coin.other_privkey is None && coin.hash_preimage is None),
{
    lemma_completed(wallet@.incoming_swapcoins, (key, coin));
}

proof fn lemma_completed(rows: Rows<Seq<char>, SwapCoinView>, row: (Seq<char>, SwapCoinView))
    ensures
        completed_coins(rows).contains(row) <==> rows.contains(row) && is_completed(row.1),
    decreases rows.len(),
{
    if rows.len() > 0 {
        let (less, last) = (rows.drop_last(), rows.last());
        let (rest, all) = (completed_coins(less), completed_coins(rows));
        lemma_completed(less, row);
        assert(rows[rows.len() - 1] == last);
        if rest.contains(row) {
            let k = choose|k: int| 0 <= k < rest.len() && rest[k] == row;
            assert(all[k] == row);
            let i = choose|i: int| 0 <= i < less.len() && less[i] == row;
            assert(rows[i] == row);
        }
        if last == row && is_completed(row.1) {
            assert(all[rest.len() as int] == row);
        }
        if all.contains(row) {
            let k = choose|k: int| 0 <= k < all.len() && all[k] == row;
            if k < rest.len() {
                assert(rest[k] == row);
            }
        }
        if rows.contains(row) {
            let i = choose|i: int| 0 <= i < rows.len() && rows[i] == row;
            if i < less.len() {
                assert(less[i] == row);
            }
        }
    }
}

/// What a sweep spends is worth what the source says.
///
/// - A legacy coin whose other private key is known is swept from the output that its contract
///   transaction spends first, which holds the funding amount.
/// - A legacy coin whose other private key is not known is swept from the first output of its
///   contract transaction.
/// - A taproot coin is swept from the first output of its contract transaction that holds the funding
///   amount, if any does.
pub proof fn law_sweep_source(coin: IncomingSwapCoin, r: Option<SweepSource>)
    requires
        coin.contract_tx.output@.len() <= u32::MAX,
        call_ensures(IncomingSwapCoin::sweep_source, (&coin,), r),
    ensures
        ({
            let tx = coin@.contract_tx;
            let contract = transaction_id(without_witnesses(tx));
            let by_key = coin@.protocol == ProtocolVersion::Legacy && coin@.other_privkey is Some;
            let by_hash = coin@.protocol == ProtocolVersion::Legacy && coin@.other_privkey is None;
            let by_value = coin@.protocol == ProtocolVersion::Taproot;
            &&& r is None <==> (by_key && tx.input.len() == 0) || (by_hash && tx.output.len() == 0)
            &&& by_key && r is Some ==> r->0.outpoint == tx.input[0].previous_output && r->0.value
                == coin@.funding_amount
            &&& by_hash && r is Some ==> r->0.outpoint.txid == contract && r->0.outpoint.vout == 0
                && r->0.value == tx.output[0].value
            &&& by_value ==> r->0.outpoint.txid == contract && r->0.value == coin@.funding_amount
            &&& by_value ==> forall|i: int|
                0 <= i < tx.output.len() && (#[trigger] tx.output[i]).value == coin@.funding_amount
                    ==> r->0.outpoint.vout <= i
            &&& by_value && (exists|i: int|
                0 <= i < tx.output.len() && (#[trigger] tx.output[i]).value
                    == coin@.funding_amount) ==> r->0.outpoint.vout < tx.output.len()
                && tx.output[r->0.outpoint.vout as int].value == coin@.funding_amount
        }),
{
}

/// An output that is in the mempool is looked for every ten seconds, for ten minutes; it is spent as
/// soon as it is confirmed, and when the time is over.
pub proof fn law_output_is_waited_for(coin: IncomingSwapCoin, waited: u64, confirmed: bool, r: SweepStep)
    requires
        call_ensures(
            SweepStep::advance,
            (SweepStep::PollOutput { waited }, &coin, &SweepEvent::Unspent(confirmed)),
            r,
        ),
    ensures
        confirmed ==> r == SweepStep::Spend,
        !confirmed && waited <= 590 ==> r == (SweepStep::PollOutput { waited: (waited + 10) as u64 }),
        !confirmed && waited > 590 ==> r == SweepStep::Spend,
{
    assert(SweepEvent::Unspent(confirmed)@ == SweepEventView::Unspent(confirmed));
}

/// A coin that was swept is gone, the script that it was swept to is remembered and no other, and
/// the contract is reported as resolved by the transaction. All else stays as it was.
pub proof fn law_swept_coin_is_noted(
    wallet: &mut Wallet,
    outcome: &mut RecoveryOutcome,
    key: &str,
    coin: IncomingSwapCoin,
    spent_by: Txid,
    to: Script,
    other: Seq<char>,
    script: Seq<u8>,
)
    requires
        old(wallet)@.well_formed(),
        call_ensures(Wallet::finish_sweep, (wallet, outcome, key, &coin, spent_by, to), ()),
    ensures
        !has_key(final(wallet)@.incoming_swapcoins, key@),
        other != key@ && has_key(old(wallet)@.incoming_swapcoins, other) ==> has_key(
            final(wallet)@.incoming_swapcoins,
            other,
        ) && value_of(final(wallet)@.incoming_swapcoins, other) == value_of(
            old(wallet)@.incoming_swapcoins,
            other,
        ),
        final(wallet)@.swept_incoming_swapcoins.contains(script) <==> script == to@ || old(
            wallet,
        )@.swept_incoming_swapcoins.contains(script),
        final(outcome).resolved@.len() == old(outcome).resolved@.len() + 1,
        final(outcome).resolved@.last() == (
            transaction_id(without_witnesses(coin@.contract_tx)),
            spent_by,
        ),
        final(outcome).discarded@ == old(outcome).discarded@,
        final(wallet)@.outgoing_swapcoins == old(wallet)@.outgoing_swapcoins,
        final(wallet)@.utxo_cache == old(wallet)@.utxo_cache,
        final(wallet)@.external_index == old(wallet)@.external_index,
{
    law_take_then_get(old(wallet)@.incoming_swapcoins, key@, key@);
    law_take_then_get(old(wallet)@.incoming_swapcoins, key@, other);
    let (before, after) = (
        old(wallet)@.swept_incoming_swapcoins,
        final(wallet)@.swept_incoming_swapcoins,
    );
    if before.contains(script) {
        let i = choose|i: int| 0 <= i < before.len() && before[i] == script;
        assert(after[i] == script);
    }
    if !before.contains(to@) {
        assert(after[before.len() as int] == to@);
    }
    if after.contains(script) {
        let i = choose|i: int| 0 <= i < after.len() && after[i] == script;
        if i < before.len() {
            assert(before[i] == script);
        }
    }
}

/// A sweep starts with the confirmed output. An answer to another question changes nothing, and
/// nothing follows the end.
pub proof fn law_stray_answers_change_nothing(
    coin: IncomingSwapCoin,
    step: SweepStep,
    event: SweepEvent,
    first: SweepStep,
    r: SweepStep,
)
    requires
        call_ensures(SweepStep::start, (), first),
        call_ensures(SweepStep::advance, (step, &coin, &event), r),
    ensures
        first is ConfirmedOutput,
        step is Swept || step is Skipped ==> r == step,
        (step is ConfirmedOutput || step is MempoolOutput || step is PollOutput
            || step is AvailableOutput) && !(event@ is Unspent) ==> r == step,
        step is BroadcastContract && !(event@ is Broadcast) ==> r == step,
        step is Spend && !(event@ is Spent) ==> r == step,
        step is Confirm && !(event@ is Confirmed) ==> r == step,
{
}

} // verus!
