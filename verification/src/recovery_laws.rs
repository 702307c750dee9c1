//! What taking swap coins back promises, by what the chain and the node say.

use crate::coin_selector::FeeRate;
use crate::error::WalletError;
use crate::keys::{transaction_id, without_witnesses};
use crate::recovery::{
    are_verdicts_on, discarded_contracts, law_recovery_drops_only_finished_coins, left_coins,
    resolved_contracts, step_after, verdicts_view, BroadcastReplyView, RecoveryEvent, RecoveryFacts,
    RecoveryStep, RecoveryVerdict,
};
use crate::swapcoin::{OutgoingSwapCoin, SwapCoinView};
use crate::table::{has_key, row_of, value_of, Rows};
use crate::text::contains_text;
use crate::types::{ProtocolVersion, Script, Transaction, Txid};
use crate::utxo::RecoveryOutcome;
use crate::wallet::Wallet;
use vstd::prelude::*;

verus! {

/// The contract transaction gets, or is, on the chain: its output is there, the node takes the
/// transaction, or says that it has it.
pub open spec fn contract_is_out(facts: RecoveryFacts) -> bool {
    ||| facts.output_unspent
    ||| facts.broadcast is Sent
    ||| (facts.broadcast matches BroadcastReplyView::Rejected(text) && (contains_text(
        text,
        "-27"@,
    ) || contains_text(text, "already in utxo set"@)))
}

/// The contract transaction can never be on the chain: the node says that what it spends is gone,
/// and not that it has it.
pub open spec fn contract_is_void(facts: RecoveryFacts) -> bool {
    &&& facts.broadcast matches BroadcastReplyView::Rejected(text) && (contains_text(text, "-25"@)
        || contains_text(text, "bad-txns-inputs-missingorspent"@))
    &&& !contract_is_out(facts)
}

/// A coin whose contract output is there is taken back once the output is deep enough: one
/// confirmation for a taproot contract, as many as the timelock says for a legacy one.
pub proof fn law_coin_is_taken_back(coin: SwapCoinView, facts: RecoveryFacts, txid: Txid)
    requires
        facts.output_unspent,
    ensures
        ({
            let depth = match coin.protocol {
                ProtocolVersion::Taproot => 1,
                ProtocolVersion::Legacy => match coin.timelock {
                    Some(timelock) => timelock,
                    None => 0,
                },
            };
            let end = step_after(coin, facts, 6);
            &&& end == RecoveryStep::Done(RecoveryVerdict::Resolved(txid)) <==> (
            facts.depth matches Some(n) && n >= depth) && facts.sent == Some(txid)
            &&& end == RecoveryStep::Done(RecoveryVerdict::Skipped) <==> !(
            facts.depth matches Some(n) && n >= depth) || facts.sent is None
        }),
{
    reveal_with_fuel(step_after, 7);
}

/// A coin whose contract output is not there is given up where the contract transaction is confirmed
/// all the same, where a taproot contract was never broadcast, and where the contract transaction can
/// never be on the chain. Otherwise it is kept, or taken back, as far as the node lets it.
pub proof fn law_coin_is_given_up(coin: SwapCoinView, facts: RecoveryFacts)
    requires
        !facts.output_unspent,
    ensures
        step_after(coin, facts, 6) == RecoveryStep::Done(RecoveryVerdict::Discarded) <==> {
            ||| (facts.confirmations matches Some(n) && n >= 1)
            ||| (facts.input_unspent && coin.protocol == ProtocolVersion::Taproot)
            ||| contract_is_void(facts)
        },
        !contract_is_out(facts) ==> !(step_after(coin, facts, 6) matches RecoveryStep::Done(
            RecoveryVerdict::Resolved(_),
        )),
{
    reveal_with_fuel(step_after, 7);
}

/// What is noted of the attempts: every contract that was taken back, with the transaction, every
/// one that was given up, and nothing else; these coins are gone from the wallet, every other stays,
/// and so does all else in the wallet. The flag says whether any is gone.
pub proof fn law_attempts_are_noted(
    wallet: &mut Wallet,
    verdicts: Vec<(String, RecoveryVerdict)>,
    r: (RecoveryOutcome, bool),
    i: int,
    txid: Txid,
)
    requires
        old(wallet)@.well_formed(),
        are_verdicts_on(old(wallet)@.outgoing_swapcoins, verdicts_view(verdicts@)),
        call_ensures(Wallet::apply_recovery, (wallet, verdicts), r),
        0 <= i < old(wallet)@.outgoing_swapcoins.len(),
    ensures
        ({
            let (key, coin) = old(wallet)@.outgoing_swapcoins[i];
            let contract = transaction_id(without_witnesses(coin.contract_tx));
            let taken = verdicts_view(verdicts@).contains((key, RecoveryVerdict::Resolved(txid)));
            let given_up = verdicts_view(verdicts@).contains((key, RecoveryVerdict::Discarded));
            &&& taken ==> r.0.resolved@.contains((contract, txid)) && r.1
            &&& given_up ==> r.0.discarded@.contains(contract) && r.1
            &&& taken || given_up ==> !has_key(final(wallet)@.outgoing_swapcoins, key)
            &&& (forall|j: int|
                0 <= j < verdicts@.len() && (#[trigger] verdicts@[j]).0@ == key
                    ==> verdicts@[j].1 is Skipped) ==> final(wallet)@.outgoing_swapcoins.contains(
                (key, coin),
            )
        }),
        r.1 <==> exists|j: int|
            0 <= j < verdicts@.len() && !((#[trigger] verdicts@[j]).1 is Skipped),
        r.0.resolved@.len() + r.0.discarded@.len() <= verdicts@.len(),
        final(wallet)@.incoming_swapcoins == old(wallet)@.incoming_swapcoins,
        final(wallet)@.utxo_cache == old(wallet)@.utxo_cache,
        final(wallet)@.swept_incoming_swapcoins == old(wallet)@.swept_incoming_swapcoins,
        final(wallet)@.external_index == old(wallet)@.external_index,
        final(wallet)@.fidelity_bond == old(wallet)@.fidelity_bond,
{
    let rows = old(wallet)@.outgoing_swapcoins;
    let views = verdicts_view(verdicts@);
    let (key, coin) = rows[i];
    let left = left_coins(rows, views);
    assert(has_key(rows, key));
    assert(value_of(rows, key) == coin) by {
        let k = row_of(rows, key);
        assert(rows[k].0 == key);
    }
    law_recovery_drops_only_finished_coins(rows, views, key);
    lemma_noted(rows, views, key, txid);
    lemma_noted_count(rows, views);
    if views.contains((key, RecoveryVerdict::Resolved(txid))) {
        let j = choose|j: int| 0 <= j < views.len() && views[j] == (key, RecoveryVerdict::Resolved(txid));
        assert(views[j].0 == key);
    }
    if views.contains((key, RecoveryVerdict::Discarded)) {
        let j = choose|j: int| 0 <= j < views.len() && views[j] == (key, RecoveryVerdict::Discarded);
        assert(views[j].0 == key);
    }
    if forall|j: int|
        0 <= j < verdicts@.len() && (#[trigger] verdicts@[j]).0@ == key ==> verdicts@[j].1 is Skipped {
        assert forall|j: int| 0 <= j < views.len() && (
        #[trigger] views[j]).0 == key implies views[j].1 is Skipped by {
            assert(verdicts@[j].0@ == key);
        }
        assert(has_key(left, key));
        let k = row_of(left, key);
        assert(left[k] == (key, coin));
    }
    if exists|j: int| 0 <= j < views.len() && !((#[trigger] views[j]).1 is Skipped) {
        let j = choose|j: int| 0 <= j < views.len() && !((#[trigger] views[j]).1 is Skipped);
        assert(!(verdicts@[j].1 is Skipped));
    }
    if exists|j: int| 0 <= j < verdicts@.len() && !((#[trigger] verdicts@[j]).1 is Skipped) {
        let j = choose|j: int|
            0 <= j < verdicts@.len() && !((#[trigger] verdicts@[j]).1 is Skipped);
        assert(!(views[j].1 is Skipped));
    }
}

proof fn lemma_noted(
    rows: Rows<Seq<char>, SwapCoinView>,
    verdicts: Seq<(Seq<char>, RecoveryVerdict)>,
    key: Seq<char>,
    txid: Txid,
)
    ensures
        verdicts.contains((key, RecoveryVerdict::Resolved(txid))) ==> resolved_contracts(
            rows,
            verdicts,
        ).contains((value_of(rows, key).contract_txid(), txid)),
        verdicts.contains((key, RecoveryVerdict::Discarded)) ==> discarded_contracts(
            rows,
            verdicts,
        ).contains(value_of(rows, key).contract_txid()),
    decreases verdicts.len(),
{
    if verdicts.len() > 0 {
        let less = verdicts.drop_last();
        lemma_noted(rows, less, key, txid);
        let (a, b) = (resolved_contracts(rows, less), resolved_contracts(rows, verdicts));
        let (c, d) = (discarded_contracts(rows, less), discarded_contracts(rows, verdicts));
        if verdicts.contains((key, RecoveryVerdict::Resolved(txid))) {
            let row = (value_of(rows, key).contract_txid(), txid);
            let j = choose|j: int|
                0 <= j < verdicts.len() && verdicts[j] == (key, RecoveryVerdict::Resolved(txid));
            if j < less.len() {
                assert(less[j] == verdicts[j]);
                let k = choose|k: int| 0 <= k < a.len() && a[k] == row;
                assert(b[k] == row);
            } else {
                assert(b[a.len() as int] == row);
            }
        }
        if verdicts.contains((key, RecoveryVerdict::Discarded)) {
            let row = value_of(rows, key).contract_txid();
            let j = choose|j: int|
                0 <= j < verdicts.len() && verdicts[j] == (key, RecoveryVerdict::Discarded);
            if j < less.len() {
                assert(less[j] == verdicts[j]);
                let k = choose|k: int| 0 <= k < c.len() && c[k] == row;
                assert(d[k] == row);
            } else {
                assert(d[c.len() as int] == row);
            }
        }
    }
}

proof fn lemma_noted_count(
    rows: Rows<Seq<char>, SwapCoinView>,
    verdicts: Seq<(Seq<char>, RecoveryVerdict)>,
)
    ensures
        resolved_contracts(rows, verdicts).len() + discarded_contracts(rows, verdicts).len()
            <= verdicts.len(),
        resolved_contracts(rows, verdicts).len() + discarded_contracts(rows, verdicts).len() > 0
            <==> exists|j: int| 0 <= j < verdicts.len() && !((#[trigger] verdicts[j]).1 is Skipped),
    decreases verdicts.len(),
{
    if verdicts.len() > 0 {
        let less = verdicts.drop_last();
        lemma_noted_count(rows, less);
        assert(verdicts[verdicts.len() - 1] == verdicts.last());
        if exists|j: int| 0 <= j < less.len() && !((#[trigger] less[j]).1 is Skipped) {
            let j = choose|j: int| 0 <= j < less.len() && !((#[trigger] less[j]).1 is Skipped);
            assert(verdicts[j] == less[j]);
        }
        if exists|j: int| 0 <= j < verdicts.len() && !((#[trigger] verdicts[j]).1 is Skipped) {
            let j = choose|j: int|
                0 <= j < verdicts.len() && !((#[trigger] verdicts[j]).1 is Skipped);
            if j < less.len() {
                assert(less[j] == verdicts[j]);
            }
        }
    }
}

/// The transaction that takes a coin back has one input, the contract output, and one output, the
/// script, which gets what the contract output holds less the fee of 150 virtual bytes at the rate,
/// rounded down. A taproot contract is spent with its timelock as the lock time, where that is a
/// height, and a sequence that lets it count, a legacy one with the lower half of its timelock as the
/// sequence.
pub proof fn law_coin_is_taken_back_whole(
    coin: OutgoingSwapCoin,
    feerate: FeeRate,
    script: Script,
    r: Transaction,
)
    requires
        feerate.vbytes > 0,
        call_ensures(
            OutgoingSwapCoin::create_timelock_recovery_tx,
            (&coin, feerate, script),
            Ok(r),
        ),
    ensures
        r@.input.len() == 1,
        r@.output.len() == 1,
        r@.input[0].previous_output.txid == transaction_id(without_witnesses(coin@.contract_tx)),
        r@.input[0].previous_output.vout == coin@.contract_vout,
        r@.input[0].script_sig.len() == 0,
        r@.input[0].witness.len() == 0,
        r@.output[0].script_pubkey == script@,
        coin@.contract_vout < coin@.contract_tx.output.len(),
        ({
            let held = coin@.contract_tx.output[coin@.contract_vout as int].value;
            let fee = held - r@.output[0].value;
            held < u64::MAX ==> fee >= 0 && fee * feerate.vbytes <= 150 * feerate.sats && 150 * feerate.sats < (fee + 1)
                * feerate.vbytes
        }),
        coin@.timelock matches Some(timelock) && match coin@.protocol {
            ProtocolVersion::Taproot => r@.input[0].sequence == 0xffff_fffe && (timelock
                < 500_000_000 ==> r@.lock_time == timelock) && (timelock >= 500_000_000
                ==> r@.lock_time == 0),
            ProtocolVersion::Legacy => r@.lock_time == 0 && r@.input[0].sequence < 0x1_0000 && (
            timelock - r@.input[0].sequence) % 0x1_0000 == 0,
        },
        r@.version == 2,
{
    let (n, d) = (150 * feerate.sats, feerate.vbytes as int);
    vstd::arithmetic::div_mod::lemma_fundamental_div_mod(n, d);
    vstd::arithmetic::div_mod::lemma_mod_bound(n, d);
    let q = n / d;
    assert(q * d <= n && n < (q + 1) * d) by (nonlinear_arith)
        requires
            d > 0,
            n == d * q + n % d,
            0 <= n % d < d,
    ;
}

/// A coin is taken back wherever its timelock is known and its contract output can pay the fee.
pub proof fn law_payable_coin_can_be_taken_back(
    coin: OutgoingSwapCoin,
    feerate: FeeRate,
    script: Script,
    r: Result<Transaction, WalletError>,
)
    requires
        feerate.vbytes > 0,
        call_ensures(
            OutgoingSwapCoin::create_timelock_recovery_tx,
            (&coin, feerate, script),
            r,
        ),
    ensures
        coin@.timelock is Some && coin@.contract_vout < coin@.contract_tx.output.len()
            && coin@.contract_tx.output[coin@.contract_vout as int].value * feerate.vbytes >= 150
            * feerate.sats ==> r is Ok,
        coin@.timelock is None || coin@.contract_vout >= coin@.contract_tx.output.len() ==> r is Err,
        coin@.contract_vout < coin@.contract_tx.output.len()
            && coin@.contract_tx.output[coin@.contract_vout as int].value < u64::MAX && (
        coin@.contract_tx.output[coin@.contract_vout as int].value + 1) * feerate.vbytes <= 150
            * feerate.sats ==> r is Err,
{
    let (n, d) = (150 * feerate.sats, feerate.vbytes as int);
    vstd::arithmetic::div_mod::lemma_fundamental_div_mod(n, d);
    vstd::arithmetic::div_mod::lemma_mod_bound(n, d);
    let q = n / d;
    if coin@.contract_vout < coin@.contract_tx.output.len() {
        let v = coin@.contract_tx.output[coin@.contract_vout as int].value as int;
        assert((v * d >= n ==> v >= q) && ((v + 1) * d <= n ==> v < q)) by (nonlinear_arith)
            requires
                d > 0,
                n == d * q + n % d,
                0 <= n % d < d,
        ;
    }
}

/// An attempt starts with the contract output. An answer to another question changes nothing, and
/// nothing follows the end.
pub proof fn law_stray_answers_change_nothing(
    coin: OutgoingSwapCoin,
    step: RecoveryStep,
    event: RecoveryEvent,
    first: RecoveryStep,
    r: RecoveryStep,
)
    requires
        call_ensures(RecoveryStep::start, (), first),
        call_ensures(RecoveryStep::advance, (step, &coin, &event), r),
    ensures
        first is ContractOutput,
        step is Done ==> r == step,
        (step is ContractOutput || step is ContractInput) && !(event@ is Unspent) ==> r == step,
        (step is ContractConfirmations || step is ContractDepth) && !(event@ is Confirmations) ==> r
            == step,
        step is BroadcastContract && !(event@ is Broadcast) ==> r == step,
        step is BroadcastRecovery && !(event@ is Recovered) ==> r == step,
{
}

} // verus!
