//! What the list of incoming transactions promises.

use crate::listing::{coins_of_kind, CoinKind};
use crate::swapcoin::{bytes_before, lemma_bytes_before, lemma_not_before_itself};
use crate::table::Rows;
use crate::transactions::{
    count_confirmations, holds_outpoint, incoming_outputs, is_history, is_summary, known_outputs,
    law_history_is_unique, law_no_output_counts_twice, law_pages_follow_each_other,
    lowest_confirmations, page, received, received_fits, row_before, with_past, IncomingOutput,
    IncomingTx,
};
use crate::types::{OutPoint, Txid};
use crate::utxo::CoinView;
use crate::wallet::Wallet;
use crate::wallet_laws::{differ_first, lemma_first_difference};
use vstd::prelude::*;

verus! {

/// A transaction in the last block has one confirmation, one in the block before two, and so on; one
/// in no block has none.
pub proof fn law_confirmations_count_blocks(tip: u32, height: Option<u32>, r: u32)
    requires
        tip < u32::MAX,
        call_ensures(count_confirmations, (tip, height), r),
    ensures
        height is None ==> r == 0,
        height matches Some(block) ==> block <= tip ==> r + block == tip + 1,
        height matches Some(block) ==> block > tip ==> r == 0,
{
}

/// The output of a cached coin of the seed, or of one that a swap was swept to.
pub open spec fn is_output_of(coin: CoinView, output: IncomingOutput) -> bool {
    &&& coin.1 is SeedCoin || coin.1 is SweptCoin
    &&& output.outpoint == coin.0.outpoint()
    &&& output.amount == coin.0.amount
    &&& output.confirmations == coin.0.confirmations
}

/// The incoming outputs: those of the cached coins as they are cached, those of the past that no
/// cached coin and no earlier one has, and no other; none of them twice.
pub proof fn law_incoming_outputs(
    wallet: Wallet,
    past: Vec<IncomingOutput>,
    r: Vec<IncomingOutput>,
    i: int,
    k: int,
)
    requires
        wallet@.well_formed(),
        call_ensures(Wallet::known_outputs, (&wallet, &past), r),
    ensures
        0 <= i < wallet@.utxo_cache.len() && (wallet@.utxo_cache[i].1.1 is SeedCoin
            || wallet@.utxo_cache[i].1.1 is SweptCoin) ==> exists|j: int|
            0 <= j < r@.len() && is_output_of(wallet@.utxo_cache[i].1, #[trigger] r@[j]),
        0 <= k < past@.len() ==> exists|j: int|
            0 <= j < r@.len() && (#[trigger] r@[j]).outpoint == past@[k].outpoint,
        forall|j: int|
            0 <= j < r@.len() ==> past@.contains(#[trigger] r@[j]) || exists|n: int|
                0 <= n < wallet@.utxo_cache.len() && is_output_of(
                    (#[trigger] wallet@.utxo_cache[n]).1,
                    r@[j],
                ),
        forall|a: int, b: int|
            0 <= a < b < r@.len() ==> (#[trigger] r@[a]).outpoint != (#[trigger] r@[b]).outpoint,
{
    let cache = wallet@.utxo_cache;
    let own = incoming_outputs(coins_of_kind(cache, CoinKind::All));
    law_no_output_counts_twice(wallet@, past@);
    if 0 <= i < cache.len() && (cache[i].1.1 is SeedCoin || cache[i].1.1 is SweptCoin) {
        let j = lemma_own_output(cache, i);
        lemma_with_past(own, past@, j);
        assert(is_output_of(cache[i].1, r@[j]));
    }
    if 0 <= k < past@.len() {
        lemma_past_output(own, past@, k);
    }
    assert forall|j: int| 0 <= j < r@.len() implies past@.contains(#[trigger] r@[j]) || exists|
        n: int,
    |
        0 <= n < cache.len() && is_output_of((#[trigger] cache[n]).1, r@[j]) by {
        lemma_output_origin(own, past@, j);
        if j < own.len() {
            lemma_own_origin(cache, j);
        }
    }
}

proof fn lemma_own_output(cache: Rows<OutPoint, CoinView>, i: int) -> (j: int)
    requires
        0 <= i < cache.len(),
        cache[i].1.1 is SeedCoin || cache[i].1.1 is SweptCoin,
    ensures
        ({
            let own = incoming_outputs(coins_of_kind(cache, CoinKind::All));
            0 <= j < own.len() && is_output_of(cache[i].1, own[j])
        }),
    decreases cache.len(),
{
    let less = cache.drop_last();
    let all = coins_of_kind(cache, CoinKind::All);
    let rest = incoming_outputs(coins_of_kind(less, CoinKind::All));
    assert(all.drop_last() =~= coins_of_kind(less, CoinKind::All));
    if i == cache.len() - 1 {
        rest.len() as int
    } else {
        assert(less[i] == cache[i]);
        lemma_own_output(less, i)
    }
}

proof fn lemma_own_origin(cache: Rows<OutPoint, CoinView>, j: int)
    requires
        0 <= j < incoming_outputs(coins_of_kind(cache, CoinKind::All)).len(),
    ensures
        exists|n: int|
            0 <= n < cache.len() && is_output_of(
                (#[trigger] cache[n]).1,
                incoming_outputs(coins_of_kind(cache, CoinKind::All))[j],
            ),
    decreases cache.len(),
{
    if cache.len() > 0 {
        let less = cache.drop_last();
        let all = coins_of_kind(cache, CoinKind::All);
        let rest = incoming_outputs(coins_of_kind(less, CoinKind::All));
        assert(all.drop_last() =~= coins_of_kind(less, CoinKind::All));
        if j < rest.len() {
            lemma_own_origin(less, j);
            let n = choose|n: int|
                0 <= n < less.len() && is_output_of((#[trigger] less[n]).1, rest[j]);
            assert(cache[n] == less[n]);
        } else {
            assert(is_output_of(
                cache[cache.len() - 1].1,
                incoming_outputs(coins_of_kind(cache, CoinKind::All))[j],
            ));
        }
    }
}

proof fn lemma_with_past(outputs: Seq<IncomingOutput>, past: Seq<IncomingOutput>, j: int)
    requires
        0 <= j < outputs.len(),
    ensures
        j < with_past(outputs, past).len(),
        with_past(outputs, past)[j] == outputs[j],
    decreases past.len(),
{
    if past.len() > 0 {
        lemma_with_past(outputs, past.drop_last(), j);
    }
}

proof fn lemma_past_output(outputs: Seq<IncomingOutput>, past: Seq<IncomingOutput>, k: int)
    requires
        0 <= k < past.len(),
    ensures
        exists|j: int|
            0 <= j < with_past(outputs, past).len() && (
            #[trigger] with_past(outputs, past)[j]).outpoint == past[k].outpoint,
    decreases past.len(),
{
    let less = past.drop_last();
    let (rest, all) = (with_past(outputs, less), with_past(outputs, past));
    if k < less.len() {
        assert(less[k] == past[k]);
        lemma_past_output(outputs, less, k);
        let j = choose|j: int| 0 <= j < rest.len() && (#[trigger] rest[j]).outpoint
            == past[k].outpoint;
        assert(all[j].outpoint == past[k].outpoint);
    } else if holds_outpoint(rest, past[k].outpoint) {
        let j = choose|j: int| 0 <= j < rest.len() && (#[trigger] rest[j]).outpoint
            == past[k].outpoint;
        assert(all[j].outpoint == past[k].outpoint);
    } else {
        assert(all[rest.len() as int].outpoint == past[k].outpoint);
    }
}

proof fn lemma_output_origin(outputs: Seq<IncomingOutput>, past: Seq<IncomingOutput>, j: int)
    requires
        0 <= j < with_past(outputs, past).len(),
    ensures
        j < outputs.len() ==> with_past(outputs, past)[j] == outputs[j],
        j >= outputs.len() ==> past.contains(with_past(outputs, past)[j]),
    decreases past.len(),
{
    if past.len() > 0 {
        let less = past.drop_last();
        let (rest, all) = (with_past(outputs, less), with_past(outputs, past));
        if j < rest.len() {
            lemma_output_origin(outputs, less, j);
            if j >= outputs.len() {
                let k = choose|k: int| 0 <= k < less.len() && less[k] == rest[j];
                assert(past[k] == rest[j]);
            }
        } else {
            assert(all[j] == past[past.len() - 1]);
            if j < outputs.len() {
                lemma_with_past(outputs, less, j);
            }
        }
    }
}

/// What the outputs of a transaction are worth, from the first on.
pub open spec fn paid_by(outputs: Seq<IncomingOutput>, txid: Txid) -> nat
    decreases outputs.len(),
{
    if outputs.len() == 0 {
        0
    } else {
        (if outputs[0].outpoint.txid == txid {
            outputs[0].amount as nat
        } else {
            0
        }) + paid_by(outputs.skip(1), txid)
    }
}

proof fn lemma_paid_push(outputs: Seq<IncomingOutput>, last: IncomingOutput, txid: Txid)
    ensures
        paid_by(outputs.push(last), txid) == paid_by(outputs, txid) + (if last.outpoint.txid
            == txid {
            last.amount as nat
        } else {
            0
        }),
    decreases outputs.len(),
{
    if outputs.len() == 0 {
        assert(outputs.push(last).skip(1) =~= Seq::<IncomingOutput>::empty());
        assert(paid_by(outputs.push(last).skip(1), txid) == 0);
    } else {
        lemma_paid_push(outputs.skip(1), last, txid);
        assert(outputs.push(last).skip(1) =~= outputs.skip(1).push(last));
    }
}

proof fn lemma_paid(outputs: Seq<IncomingOutput>, txid: Txid)
    ensures
        received(outputs, txid) == paid_by(outputs, txid),
    decreases outputs.len(),
{
    if outputs.len() > 0 {
        lemma_paid(outputs.drop_last(), txid);
        lemma_paid_push(outputs.drop_last(), outputs.last(), txid);
        assert(outputs.drop_last().push(outputs.last()) =~= outputs);
    }
}

proof fn lemma_lowest(outputs: Seq<IncomingOutput>, txid: Txid)
    ensures
        forall|k: int|
            0 <= k < outputs.len() && (#[trigger] outputs[k]).outpoint.txid == txid ==> (
            lowest_confirmations(outputs, txid) matches Some(n) && n <= outputs[k].confirmations),
        lowest_confirmations(outputs, txid) matches Some(n) ==> exists|k: int|
            0 <= k < outputs.len() && (#[trigger] outputs[k]).outpoint.txid == txid
                && outputs[k].confirmations == n,
    decreases outputs.len(),
{
    if outputs.len() > 0 {
        let less = outputs.drop_last();
        lemma_lowest(less, txid);
        assert(outputs[outputs.len() - 1] == outputs.last());
        assert forall|k: int|
            0 <= k < outputs.len() && (#[trigger] outputs[k]).outpoint.txid == txid implies (
        lowest_confirmations(outputs, txid) matches Some(n) && n <= outputs[k].confirmations) by {
            if k < less.len() {
                assert(less[k] == outputs[k]);
            }
        }
        if let Some(n) = lowest_confirmations(outputs, txid) {
            if lowest_confirmations(less, txid) == Some(n) {
                let k = choose|k: int|
                    0 <= k < less.len() && (#[trigger] less[k]).outpoint.txid == txid
                        && less[k].confirmations == n;
                assert(outputs[k] == less[k]);
            }
        }
    }
}

/// The id is the smaller one: at the first byte that differs, its byte is.
pub open spec fn is_smaller(a: Txid, b: Txid) -> bool {
    exists|i: int| #[trigger] differ_first(a.bytes@, b.bytes@, i) && a.bytes@[i] < b.bytes@[i]
}

proof fn lemma_smaller(a: Txid, b: Txid)
    requires
        bytes_before(a.bytes@, b.bytes@),
    ensures
        is_smaller(a, b),
{
    if a.bytes@ == b.bytes@ {
        lemma_not_before_itself(a.bytes@);
    }
    let i = lemma_first_difference(a.bytes@, b.bytes@, 0);
    lemma_bytes_before(a.bytes@, b.bytes@, i);
}

/// Each row of the list stands for a transaction that paid the wallet: the sum of what it paid, and
/// the lowest confirmations of what it paid. The most recent row comes first, of two that are as
/// recent the one with the smaller id, no transaction has two rows, there are no more rows than asked for, ten where no number was given, and where there are
/// fewer than that from the start, every transaction has one.
pub proof fn law_transactions_are_summed_up(
    wallet: Wallet,
    past: Vec<IncomingOutput>,
    count: Option<usize>,
    outputs: Vec<IncomingOutput>,
    r: Vec<IncomingTx>,
    k: int,
)
    requires
        received_fits(known_outputs(wallet@.utxo_cache, past@)),
        call_ensures(Wallet::known_outputs, (&wallet, &past), outputs),
        call_ensures(Wallet::get_transactions, (&wallet, &past, count, None::<usize>), r),
        0 <= k < outputs@.len(),
    ensures
        forall|i: int|
            0 <= i < r@.len() ==> {
                let row = #[trigger] r@[i];
                &&& row.amount == paid_by(outputs@, row.txid)
                &&& exists|n: int|
                    0 <= n < outputs@.len() && (#[trigger] outputs@[n]).outpoint.txid == row.txid
                        && outputs@[n].confirmations == row.confirmations
                &&& outputs@[k].outpoint.txid == row.txid ==> row.confirmations
                    <= outputs@[k].confirmations
            },
        forall|i: int, j: int|
            0 <= i < j < r@.len() ==> (#[trigger] r@[i]).confirmations <= (
            #[trigger] r@[j]).confirmations && r@[i].txid != r@[j].txid,
        forall|i: int, j: int|
            0 <= i < j < r@.len() && (#[trigger] r@[i]).confirmations == (
            #[trigger] r@[j]).confirmations ==> is_smaller(r@[i].txid, r@[j].txid),
        r@.len() <= (match count {
            Some(most) => most,
            None => 10,
        }),
        r@.len() < (match count {
            Some(most) => most,
            None => 10,
        }) ==> exists|i: int| 0 <= i < r@.len() && (#[trigger] r@[i]).txid == outputs@[k].outpoint.txid,
{
    let rows = choose|rows: Seq<IncomingTx>| #[trigger]
        is_history(outputs@, rows) && r@ == page(
            rows,
            0,
            (match count {
                Some(most) => most,
                None => 10,
            }) as nat,
        );
    assert forall|i: int| 0 <= i < r@.len() implies {
        let row = #[trigger] r@[i];
        &&& row.amount == paid_by(outputs@, row.txid)
        &&& exists|n: int|
            0 <= n < outputs@.len() && (#[trigger] outputs@[n]).outpoint.txid == row.txid
                && outputs@[n].confirmations == row.confirmations
        &&& outputs@[k].outpoint.txid == row.txid ==> row.confirmations <= outputs@[k].confirmations
    } by {
        let row = r@[i];
        assert(row == rows[i]);
        assert(rows.contains(row));
        lemma_paid(outputs@, row.txid);
        lemma_lowest(outputs@, row.txid);
    }
    assert forall|i: int, j: int| 0 <= i < j < r@.len() implies (#[trigger] r@[i]).confirmations
        <= (#[trigger] r@[j]).confirmations && r@[i].txid != r@[j].txid by {
        assert(r@[i] == rows[i] && r@[j] == rows[j]);
        assert(row_before(rows[i], rows[j]));
        assert(rows.contains(rows[i]) && rows.contains(rows[j]));
        if r@[i].txid == r@[j].txid {
            lemma_not_before_itself(rows[i].txid.bytes@);
        }
    }
    assert forall|i: int, j: int|
        0 <= i < j < r@.len() && (#[trigger] r@[i]).confirmations == (
        #[trigger] r@[j]).confirmations implies is_smaller(r@[i].txid, r@[j].txid) by {
        assert(r@[i] == rows[i] && r@[j] == rows[j]);
        assert(row_before(rows[i], rows[j]));
        lemma_smaller(rows[i].txid, rows[j].txid);
    }
    let txid = outputs@[k].outpoint.txid;
    lemma_lowest(outputs@, txid);
    assert(received(outputs@, txid) <= u64::MAX);
    let row = IncomingTx {
        txid,
        amount: received(outputs@, txid) as u64,
        confirmations: lowest_confirmations(outputs@, txid)->0,
    };
    assert(is_summary(outputs@, row));
    assert(rows.contains(row));
    let n = choose|n: int| 0 <= n < rows.len() && rows[n] == row;
    if n < r@.len() {
        assert(r@[n] == rows[n]);
    }
}

/// Leafing through the list leaves nothing out and shows nothing twice: the first rows and the rows
/// behind them are the rows of one longer look.
pub proof fn law_leafing_through_transactions(
    wallet: Wallet,
    past: Vec<IncomingOutput>,
    count: usize,
    more: usize,
    first: Vec<IncomingTx>,
    second: Vec<IncomingTx>,
    both: Vec<IncomingTx>,
)
    requires
        received_fits(known_outputs(wallet@.utxo_cache, past@)),
        count + more <= usize::MAX,
        call_ensures(Wallet::get_transactions, (&wallet, &past, Some(count), None::<usize>), first),
        call_ensures(Wallet::get_transactions, (&wallet, &past, Some(more), Some(count)), second),
        call_ensures(
            Wallet::get_transactions,
            (&wallet, &past, Some((count + more) as usize), Some(0usize)),
            both,
        ),
    ensures
        first@ + second@ == both@,
{
    let outputs = known_outputs(wallet@.utxo_cache, past@);
    let a = choose|rows: Seq<IncomingTx>| #[trigger]
        is_history(outputs, rows) && first@ == page(rows, 0, count as nat);
    let b = choose|rows: Seq<IncomingTx>| #[trigger]
        is_history(outputs, rows) && second@ == page(rows, count as nat, more as nat);
    let c = choose|rows: Seq<IncomingTx>| #[trigger]
        is_history(outputs, rows) && both@ == page(rows, 0, (count + more) as nat);
    law_history_is_unique(outputs, a, b);
    law_history_is_unique(outputs, a, c);
    law_pages_follow_each_other(a, 0, count as nat, more as nat);
}

} // verus!
