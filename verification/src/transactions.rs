//! The incoming transactions of a wallet.

use crate::listing::{coins_of_kind, CoinKind};
use crate::store::StoreView;
use crate::swapcoin::{
    bytes_before, lemma_before_is_total, lemma_bytes_before, lemma_not_before_itself,
};
use crate::table::{has_key, keys_distinct, Rows};
use crate::types::{OutPoint, Txid};
use crate::utxo::{coins_view, Coin, CoinView, SpendInfoView, UTXOSpendInfo};
use crate::wallet::Wallet;
use vstd::prelude::*;

verus! {

/// How many transactions are listed where no number is given.
pub const DEFAULT_COUNT: usize = 10;

/// What a transaction paid to the wallet.
#[derive(Debug, Clone, Copy)]
pub struct IncomingTx {
    pub txid: Txid,
    /// The sum of the values paid to scripts of the wallet, in satoshis.
    pub amount: u64,
    /// The confirmations, zero where there are none.
    pub confirmations: u32,
}

/// An output on a script of the seed, spent or not.
#[derive(Debug, Clone, Copy)]
pub struct IncomingOutput {
    pub outpoint: OutPoint,
    /// The value in satoshis.
    pub amount: u64,
    /// The confirmations of its transaction, zero where there are none.
    pub confirmations: u32,
}

/// The confirmations of a transaction by the height of its block: one for the last block, none where
/// it is in no block.
pub open spec fn confirmations_at(tip: u32, height: Option<u32>) -> int {
    match height {
        Some(height) => if height <= tip {
            tip - height + 1
        } else {
            0
        },
        None => 0,
    }
}

/// Counts the confirmations of a transaction.
pub fn count_confirmations(tip: u32, height: Option<u32>) -> (r: u32)
    requires
        tip < u32::MAX,
    ensures
        r == confirmations_at(tip, height),
{
    match height {
        Some(height) => if height <= tip {
            tip - height + 1
        } else {
            0
        },
        None => 0,
    }
}

/// A coin on an address of the seed, or one that was swept to such an address.
pub open spec fn is_incoming(info: SpendInfoView) -> bool {
    info is SeedCoin || info is SweptCoin
}

/// The outputs of the incoming coins.
pub open spec fn incoming_outputs(coins: Seq<CoinView>) -> Seq<IncomingOutput>
    decreases coins.len(),
{
    if coins.len() == 0 {
        Seq::empty()
    } else {
        let rest = incoming_outputs(coins.drop_last());
        let utxo = coins.last().0;
        if is_incoming(coins.last().1) {
            rest.push(
                IncomingOutput {
                    outpoint: utxo.outpoint(),
                    amount: utxo.amount,
                    confirmations: utxo.confirmations,
                },
            )
        } else {
            rest
        }
    }
}

pub open spec fn holds_outpoint(outputs: Seq<IncomingOutput>, outpoint: OutPoint) -> bool {
    exists|i: int| 0 <= i < outputs.len() && (#[trigger] outputs[i]).outpoint == outpoint
}

/// The outputs, and behind them those of the past that are not among them yet.
pub open spec fn with_past(outputs: Seq<IncomingOutput>, past: Seq<IncomingOutput>) -> Seq<
    IncomingOutput,
>
    decreases past.len(),
{
    if past.len() == 0 {
        outputs
    } else {
        let rest = with_past(outputs, past.drop_last());
        if holds_outpoint(rest, past.last().outpoint) {
            rest
        } else {
            rest.push(past.last())
        }
    }
}

/// All incoming outputs: those of the tracked coins, and those of the past.
pub open spec fn known_outputs(
    cache: Rows<OutPoint, CoinView>,
    past: Seq<IncomingOutput>,
) -> Seq<IncomingOutput> {
    with_past(incoming_outputs(coins_of_kind(cache, CoinKind::All)), past)
}

/// What the outputs are worth together.
pub open spec fn outputs_value(outputs: Seq<IncomingOutput>) -> nat
    decreases outputs.len(),
{
    if outputs.len() == 0 {
        0
    } else {
        outputs_value(outputs.drop_last()) + outputs.last().amount as nat
    }
}

/// What a transaction paid to the wallet.
pub open spec fn received(outputs: Seq<IncomingOutput>, txid: Txid) -> nat
    decreases outputs.len(),
{
    if outputs.len() == 0 {
        0
    } else {
        let rest = received(outputs.drop_last(), txid);
        if outputs.last().outpoint.txid == txid {
            rest + outputs.last().amount as nat
        } else {
            rest
        }
    }
}

/// The lowest confirmations of the incoming outputs of a transaction, none where it has no such
/// output.
pub open spec fn lowest_confirmations(outputs: Seq<IncomingOutput>, txid: Txid) -> Option<u32>
    decreases outputs.len(),
{
    if outputs.len() == 0 {
        None
    } else {
        let rest = lowest_confirmations(outputs.drop_last(), txid);
        if outputs.last().outpoint.txid == txid && (rest is None || outputs.last().confirmations
            < rest->0) {
            Some(outputs.last().confirmations)
        } else {
            rest
        }
    }
}

/// The row sums a transaction up.
pub open spec fn is_summary(outputs: Seq<IncomingOutput>, row: IncomingTx) -> bool {
    &&& lowest_confirmations(outputs, row.txid) == Some(row.confirmations)
    &&& received(outputs, row.txid) == row.amount
}

/// What each transaction paid fits into 64 bits.
pub open spec fn received_fits(outputs: Seq<IncomingOutput>) -> bool {
    forall|txid: Txid| #[trigger] received(outputs, txid) <= u64::MAX
}

/// The more recent transaction comes first; of two in the same block, the one with the smaller id.
pub open spec fn row_before(a: IncomingTx, b: IncomingTx) -> bool {
    a.confirmations < b.confirmations || a.confirmations == b.confirmations && bytes_before(
        a.txid.bytes@,
        b.txid.bytes@,
    )
}

pub open spec fn is_ordered(rows: Seq<IncomingTx>) -> bool {
    forall|i: int, j: int|
        0 <= i < j < rows.len() ==> row_before(#[trigger] rows[i], #[trigger] rows[j])
}

/// The rows sum up every incoming transaction, in order.
pub open spec fn is_history(outputs: Seq<IncomingOutput>, rows: Seq<IncomingTx>) -> bool {
    &&& is_ordered(rows)
    &&& forall|row: IncomingTx| #[trigger] rows.contains(row) <==> is_summary(outputs, row)
}

/// The rows from `skip` on, at most `count` of them.
pub open spec fn page(rows: Seq<IncomingTx>, skip: nat, count: nat) -> Seq<IncomingTx> {
    if skip >= rows.len() {
        Seq::empty()
    } else if rows.len() - skip <= count {
        rows.skip(skip as int)
    } else {
        rows.subrange(skip as int, (skip + count) as int)
    }
}

proof fn lemma_before_is_transitive(a: Seq<u8>, b: Seq<u8>, c: Seq<u8>)
    requires
        bytes_before(a, b),
        bytes_before(b, c),
    ensures
        bytes_before(a, c),
    decreases a.len(),
{
    if a.len() > 0 && a[0] == b[0] && b[0] == c[0] {
        lemma_before_is_transitive(a.skip(1), b.skip(1), c.skip(1));
    }
}

proof fn lemma_before_is_asymmetric(a: Seq<u8>, b: Seq<u8>)
    requires
        bytes_before(a, b),
    ensures
        !bytes_before(b, a),
{
    if bytes_before(b, a) {
        lemma_before_is_transitive(a, b, a);
        lemma_not_before_itself(a);
    }
}

proof fn lemma_row_before(a: IncomingTx, b: IncomingTx, c: IncomingTx)
    ensures
        row_before(a, b) && row_before(b, c) ==> row_before(a, c),
        a.txid != b.txid ==> row_before(a, b) || row_before(b, a),
        row_before(a, b) ==> !row_before(b, a),
{
    let (x, y, z) = (a.txid.bytes@, b.txid.bytes@, c.txid.bytes@);
    if bytes_before(x, y) && bytes_before(y, z) {
        lemma_before_is_transitive(x, y, z);
    }
    if a.txid != b.txid {
        if x == y {
            assert(a.txid.bytes =~= b.txid.bytes);
        }
        lemma_before_is_total(x, y);
    }
    if bytes_before(x, y) {
        lemma_before_is_asymmetric(x, y);
    }
}

proof fn lemma_received_grows(outputs: Seq<IncomingOutput>, k: int, txid: Txid)
    requires
        0 <= k <= outputs.len(),
    ensures
        received(outputs.take(k), txid) <= received(outputs, txid),
    decreases outputs.len(),
{
    if k < outputs.len() {
        lemma_received_grows(outputs.drop_last(), k, txid);
        assert(outputs.drop_last().take(k) =~= outputs.take(k));
    } else {
        assert(outputs.take(k) =~= outputs);
    }
}

/// Whether one transaction id comes before another.
fn txid_before(a: &Txid, b: &Txid) -> (r: bool)
    ensures
        r == bytes_before(a.bytes@, b.bytes@),
{
    let mut i: usize = 0;
    while i < 32
        invariant
            i <= 32,
            forall|k: int| 0 <= k < i ==> a.bytes@[k] == b.bytes@[k],
        decreases 32 - i,
    {
        if a.bytes[i] != b.bytes[i] {
            proof {
                lemma_bytes_before(a.bytes@, b.bytes@, i as int);
            }
            return a.bytes[i] < b.bytes[i];
        }
        i += 1;
    }
    proof {
        assert(a.bytes@ =~= b.bytes@);
        lemma_not_before_itself(a.bytes@);
    }
    false
}

/// Puts a row in its place among ordered rows.
fn insert_row(rows: &mut Vec<IncomingTx>, row: IncomingTx)
    requires
        is_ordered(old(rows)@),
        forall|i: int| 0 <= i < old(rows)@.len() ==> (#[trigger] old(rows)@[i]).txid != row.txid,
    ensures
        is_ordered(final(rows)@),
        forall|other: IncomingTx| #[trigger]
            final(rows)@.contains(other) <==> old(rows)@.contains(other) || other == row,
{
    let ghost before = rows@;
    let mut at: usize = 0;
    while at < rows.len()
        invariant_except_break
            at <= rows.len(),
        invariant
            rows@ == before,
            forall|k: int| 0 <= k < before.len() ==> (#[trigger] before[k]).txid != row.txid,
            forall|k: int| 0 <= k < at ==> row_before(#[trigger] before[k], row),
        ensures
            at <= before.len(),
            at < before.len() ==> row_before(row, before[at as int]),
        decreases rows.len() - at,
    {
        let other = rows[at];
        if row.confirmations < other.confirmations || row.confirmations == other.confirmations
            && txid_before(&row.txid, &other.txid) {
            break;
        }
        proof {
            lemma_row_before(row, other, row);
        }
        at += 1;
    }
    rows.insert(at, row);
    proof {
        let after = rows@;
        assert(after == before.insert(at as int, row));
        assert forall|i: int, j: int| 0 <= i < j < after.len() implies row_before(
            #[trigger] after[i],
            #[trigger] after[j],
        ) by {
            let x = if i < at {
                i
            } else {
                i - 1
            };
            let y = if j < at {
                j
            } else {
                j - 1
            };
            if i == at {
                assert(after[j] == before[y]);
                lemma_row_before(row, before[at as int], before[y]);
            } else if j == at {
                assert(after[i] == before[x]);
            } else {
                assert(after[i] == before[x] && after[j] == before[y]);
            }
        }
        assert forall|other: IncomingTx| #[trigger]
            after.contains(other) <==> before.contains(other) || other == row by {
            if after.contains(other) {
                let i = choose|i: int| 0 <= i < after.len() && after[i] == other;
                if i < at {
                    assert(before[i] == other);
                } else if i > at {
                    assert(before[i - 1] == other);
                }
            }
            if before.contains(other) {
                let i = choose|i: int| 0 <= i < before.len() && before[i] == other;
                if i < at {
                    assert(after[i] == other);
                } else {
                    assert(after[i + 1] == other);
                }
            }
            assert(after[at as int] == row);
        }
    }
}

/// The rows name each transaction once and sum up all that there are.
spec fn is_grouping(outputs: Seq<IncomingOutput>, rows: Seq<IncomingTx>) -> bool {
    &&& forall|i: int, j: int|
        0 <= i < rows.len() && 0 <= j < rows.len() && i != j ==> (#[trigger] rows[i]).txid != (
        #[trigger] rows[j]).txid
    &&& forall|row: IncomingTx| #[trigger] rows.contains(row) <==> is_summary(outputs, row)
}

proof fn lemma_other_output(outputs: Seq<IncomingOutput>, output: IncomingOutput)
    ensures
        forall|txid: Txid|
            output.outpoint.txid != txid ==> #[trigger] received(outputs.push(output), txid) == received(
                outputs,
                txid,
            ),
        forall|txid: Txid|
            output.outpoint.txid != txid ==> #[trigger] lowest_confirmations(outputs.push(output), txid)
                == lowest_confirmations(outputs, txid),
{
    assert(outputs.push(output).drop_last() =~= outputs);
}

proof fn lemma_first_output(outputs: Seq<IncomingOutput>, output: IncomingOutput, rows: Seq<IncomingTx>, row: IncomingTx)
    requires
        is_grouping(outputs, rows),
        output.outpoint.txid == row.txid,
        row.amount == output.amount,
        row.confirmations == output.confirmations,
        forall|i: int| 0 <= i < rows.len() ==> (#[trigger] rows[i]).txid != row.txid,
        received(outputs, row.txid) <= u64::MAX,
    ensures
        is_grouping(outputs.push(output), rows.push(row)),
{
    let (more, after) = (outputs.push(output), rows.push(row));
    lemma_other_output(outputs, output);
    assert(more.drop_last() =~= outputs);
    if let Some(confirmations) = lowest_confirmations(outputs, row.txid) {
        let old_row = IncomingTx {
            txid: row.txid,
            amount: received(outputs, row.txid) as u64,
            confirmations,
        };
        assert(is_summary(outputs, old_row));
        assert(rows.contains(old_row));
        assert(false);
    }
    lemma_no_output(outputs, row.txid);
    assert forall|other: IncomingTx| #[trigger]
        after.contains(other) <==> is_summary(more, other) by {
        if other.txid != row.txid {
            if rows.contains(other) {
                let i = choose|i: int| 0 <= i < rows.len() && rows[i] == other;
                assert(after[i] == other);
            }
            if after.contains(other) {
                let i = choose|i: int| 0 <= i < after.len() && after[i] == other;
                assert(i < rows.len());
                assert(rows[i] == other);
            }
            assert(rows.contains(other) <==> is_summary(outputs, other));
        } else {
            assert(after[rows.len() as int] == row);
            if after.contains(other) {
                let i = choose|i: int| 0 <= i < after.len() && after[i] == other;
                assert(i == rows.len());
            }
        }
    }
}

proof fn lemma_no_output(outputs: Seq<IncomingOutput>, txid: Txid)
    requires
        lowest_confirmations(outputs, txid) is None,
    ensures
        received(outputs, txid) == 0,
    decreases outputs.len(),
{
    if outputs.len() > 0 {
        lemma_no_output(outputs.drop_last(), txid);
    }
}

proof fn lemma_further_output(
    outputs: Seq<IncomingOutput>,
    output: IncomingOutput,
    rows: Seq<IncomingTx>,
    at: int,
    row: IncomingTx,
)
    requires
        is_grouping(outputs, rows),
        0 <= at < rows.len(),
        rows[at].txid == row.txid,
        output.outpoint.txid == row.txid,
        row.amount == rows[at].amount + output.amount,
        row.confirmations == if output.confirmations < rows[at].confirmations {
            output.confirmations
        } else {
            rows[at].confirmations
        },
    ensures
        is_grouping(outputs.push(output), rows.update(at, row)),
{
    let (more, after) = (outputs.push(output), rows.update(at, row));
    lemma_other_output(outputs, output);
    assert(more.drop_last() =~= outputs);
    assert(rows.contains(rows[at]));
    assert(is_summary(outputs, rows[at]));
    assert(is_summary(more, row));
    assert forall|other: IncomingTx| #[trigger]
        after.contains(other) <==> is_summary(more, other) by {
        if other.txid != row.txid {
            if rows.contains(other) {
                let i = choose|i: int| 0 <= i < rows.len() && rows[i] == other;
                assert(after[i] == other);
            }
            if after.contains(other) {
                let i = choose|i: int| 0 <= i < after.len() && after[i] == other;
                assert(rows[i] == other);
            }
            assert(rows.contains(other) <==> is_summary(outputs, other));
        } else {
            assert(after[at] == row);
            if after.contains(other) {
                let i = choose|i: int| 0 <= i < after.len() && after[i] == other;
                assert(i == at);
            }
        }
    }
}

/// Adds an output to the row of its transaction.
fn add_output(
    rows: &mut Vec<IncomingTx>,
    output: IncomingOutput,
    Ghost(outputs): Ghost<Seq<IncomingOutput>>,
)
    requires
        is_grouping(outputs, old(rows)@),
        received(outputs, output.outpoint.txid) + output.amount <= u64::MAX,
    ensures
        is_grouping(outputs.push(output), final(rows)@),
{
    let ghost before = rows@;
    let txid = output.outpoint.txid;
    let mut i: usize = 0;
    while i < rows.len()
        invariant
            i <= rows.len(),
            rows@ == before,
            txid == output.outpoint.txid,
            is_grouping(outputs, before),
            received(outputs, txid) + output.amount <= u64::MAX,
            forall|k: int| 0 <= k < i ==> (#[trigger] before[k]).txid != txid,
        decreases rows.len() - i,
    {
        if rows[i].txid == txid {
            assert(before.contains(before[i as int]));
            let confirmations: u32 = if output.confirmations < rows[i].confirmations {
                output.confirmations
            } else {
                rows[i].confirmations
            };
            let row = IncomingTx { txid, amount: rows[i].amount + output.amount, confirmations };
            rows.set(i, row);
            proof {
                lemma_further_output(outputs, output, before, i as int, row);
            }
            return ;
        }
        i += 1;
    }
    let row = IncomingTx { txid, amount: output.amount, confirmations: output.confirmations };
    rows.push(row);
    proof {
        lemma_first_output(outputs, output, before, row);
    }
}

/// Lists the outputs of the incoming coins.
fn list_incoming(coins: &Vec<Coin>) -> (r: Vec<IncomingOutput>)
    ensures
        r@ == incoming_outputs(coins_view(coins@)),
{
    let ghost views = coins_view(coins@);
    let mut r: Vec<IncomingOutput> = Vec::new();
    let mut i: usize = 0;
    assert(views.take(0) =~= Seq::<CoinView>::empty());
    while i < coins.len()
        invariant
            i <= coins.len(),
            views == coins_view(coins@),
            r@ == incoming_outputs(views.take(i as int)),
        decreases coins.len() - i,
    {
        let coin = &coins[i];
        proof {
            assert(views.take(i + 1).drop_last() =~= views.take(i as int));
            assert(views.take(i + 1).last() == (coin.0@, coin.1@));
        }
        match &coin.1 {
            UTXOSpendInfo::SeedCoin { .. } | UTXOSpendInfo::SweptCoin { .. } => {
                r.push(
                    IncomingOutput {
                        outpoint: coin.0.outpoint(),
                        amount: coin.0.amount,
                        confirmations: coin.0.confirmations,
                    },
                );
            },
            _ => {},
        }
        i += 1;
    }
    assert(views.take(views.len() as int) =~= views);
    r
}

fn has_outpoint(outputs: &Vec<IncomingOutput>, outpoint: OutPoint) -> (r: bool)
    ensures
        r == holds_outpoint(outputs@, outpoint),
{
    let mut i: usize = 0;
    while i < outputs.len()
        invariant
            i <= outputs.len(),
            forall|k: int| 0 <= k < i ==> (#[trigger] outputs@[k]).outpoint != outpoint,
        decreases outputs.len() - i,
    {
        if outputs[i].outpoint == outpoint {
            return true;
        }
        i += 1;
    }
    false
}

/// Sums the incoming transactions up, in order.
fn summarize(outputs: &Vec<IncomingOutput>) -> (r: Vec<IncomingTx>)
    requires
        received_fits(outputs@),
    ensures
        is_history(outputs@, r@),
{
    let ghost views = outputs@;
    let mut rows: Vec<IncomingTx> = Vec::new();
    let mut i: usize = 0;
    assert(views.take(0) =~= Seq::<IncomingOutput>::empty());
    while i < outputs.len()
        invariant
            i <= outputs.len(),
            views == outputs@,
            received_fits(views),
            is_grouping(views.take(i as int), rows@),
        decreases outputs.len() - i,
    {
        let output = outputs[i];
        let ghost seen = views.take(i as int);
        proof {
            assert(views.take(i + 1) =~= seen.push(output));
            assert(views.take(i + 1).drop_last() =~= seen);
            lemma_received_grows(views, i + 1, output.outpoint.txid);
            assert(received(views, output.outpoint.txid) <= u64::MAX);
        }
        add_output(&mut rows, output, Ghost(seen));
        i += 1;
    }
    assert(views.take(views.len() as int) =~= views);
    let mut sorted: Vec<IncomingTx> = Vec::new();
    let mut k: usize = 0;
    while k < rows.len()
        invariant
            k <= rows.len(),
            is_grouping(views, rows@),
            is_ordered(sorted@),
            forall|row: IncomingTx| #[trigger]
                sorted@.contains(row) <==> rows@.take(k as int).contains(row),
        decreases rows.len() - k,
    {
        let row = rows[k];
        let ghost before = sorted@;
        proof {
            assert forall|j: int| 0 <= j < before.len() implies (#[trigger] before[j]).txid
                != row.txid by {
                assert(before.contains(before[j]));
                let seen = rows@.take(k as int);
                let m = choose|m: int| 0 <= m < seen.len() && seen[m] == before[j];
                assert(rows@[m] == before[j]);
            }
        }
        insert_row(&mut sorted, row);
        proof {
            let (seen, more) = (rows@.take(k as int), rows@.take(k + 1));
            assert(more =~= seen.push(row));
            assert forall|other: IncomingTx| #[trigger]
                sorted@.contains(other) <==> more.contains(other) by {
                assert(more[k as int] == row);
                if seen.contains(other) {
                    let m = choose|m: int| 0 <= m < seen.len() && seen[m] == other;
                    assert(more[m] == other);
                }
                if more.contains(other) {
                    let m = choose|m: int| 0 <= m < more.len() && more[m] == other;
                    if m < k {
                        assert(seen[m] == other);
                    }
                }
                assert(before.contains(other) <==> seen.contains(other));
            }
        }
        k += 1;
    }
    proof {
        assert(rows@.take(rows@.len() as int) =~= rows@);
        assert forall|row: IncomingTx| #[trigger]
            sorted@.contains(row) <==> is_summary(views, row) by {
            assert(rows@.contains(row) <==> is_summary(views, row));
        }
    }
    sorted
}

impl Wallet {
    /// All incoming outputs: those of the tracked coins, and those of `past` that are not among
    /// them.
    pub fn known_outputs(&self, past: &Vec<IncomingOutput>) -> (r: Vec<IncomingOutput>)
        ensures
            r@ == known_outputs(self@.utxo_cache, past@),
    {
        let coins = self.list_all_utxo_spend_info();
        let mut r = list_incoming(&coins);
        let ghost own = r@;
        let mut i: usize = 0;
        assert(past@.take(0) =~= Seq::<IncomingOutput>::empty());
        while i < past.len()
            invariant
                i <= past.len(),
                r@ == with_past(own, past@.take(i as int)),
            decreases past.len() - i,
        {
            assert(past@.take(i + 1).drop_last() =~= past@.take(i as int));
            if !has_outpoint(&r, past[i].outpoint) {
                r.push(past[i]);
            }
            i += 1;
        }
        assert(past@.take(past@.len() as int) =~= past@);
        r
    }

    /// The incoming transactions, the most recent first: after `skip` of them, zero where none is
    /// given, the next `count`, `DEFAULT_COUNT` where none is given.
    ///
    /// `past` lists the outputs on scripts of the seed that the chain knows of, spent or not. With
    /// all of them a transaction stays in the list when what it paid has been spent.
    pub fn get_transactions(
        &self,
        past: &Vec<IncomingOutput>,
        count: Option<usize>,
        skip: Option<usize>,
    ) -> (r: Vec<IncomingTx>)
        requires
            received_fits(known_outputs(self@.utxo_cache, past@)),
        ensures
            exists|rows: Seq<IncomingTx>| #[trigger]
                is_history(known_outputs(self@.utxo_cache, past@), rows) && r@ == page(
                    rows,
                    skip.unwrap_or(0) as nat,
                    count.unwrap_or(DEFAULT_COUNT) as nat,
                ),
    {
        let count: usize = count.unwrap_or(DEFAULT_COUNT);
        let skip: usize = skip.unwrap_or(0);
        let outputs = self.known_outputs(past);
        let rows = summarize(&outputs);
        let mut r: Vec<IncomingTx> = Vec::new();
        if skip < rows.len() {
            let last: usize = if rows.len() - skip <= count {
                rows.len()
            } else {
                skip + count
            };
            let mut i: usize = skip;
            while i < last
                invariant
                    skip <= i <= last <= rows.len(),
                    r@ == rows@.subrange(skip as int, i as int),
                decreases last - i,
            {
                r.push(rows[i]);
                assert(r@ =~= rows@.subrange(skip as int, i + 1));
                i += 1;
            }
            assert(rows@.subrange(skip as int, rows@.len() as int) =~= rows@.skip(skip as int));
        }
        r
    }
}

// ---------------------------------------------------------------------------------------------
// Laws
// ---------------------------------------------------------------------------------------------

proof fn lemma_ordered_rows_are_unique(a: Seq<IncomingTx>, b: Seq<IncomingTx>)
    requires
        is_ordered(a),
        is_ordered(b),
        forall|row: IncomingTx| #[trigger] a.contains(row) <==> b.contains(row),
    ensures
        a == b,
    decreases a.len(),
{
    if a.len() == 0 {
        if b.len() > 0 {
            assert(b.contains(b[0]));
            assert(a.contains(b[0]));
        }
        assert(a =~= b);
    } else {
        assert(a.contains(a[0]));
        let j = choose|j: int| 0 <= j < b.len() && b[j] == a[0];
        assert(b.contains(b[0]));
        assert(a.contains(b[0]));
        let i = choose|i: int| 0 <= i < a.len() && a[i] == b[0];
        if j > 0 {
            assert(row_before(b[0], b[j]));
            if i > 0 {
                assert(row_before(a[0], a[i]));
            }
            lemma_row_before(b[0], a[0], a[0]);
            assert(false);
        }
        let (x, y) = (a.skip(1), b.skip(1));
        assert forall|p: int, q: int| 0 <= p < q < x.len() implies row_before(
            #[trigger] x[p],
            #[trigger] x[q],
        ) by {
            assert(x[p] == a[p + 1] && x[q] == a[q + 1]);
        }
        assert forall|p: int, q: int| 0 <= p < q < y.len() implies row_before(
            #[trigger] y[p],
            #[trigger] y[q],
        ) by {
            assert(y[p] == b[p + 1] && y[q] == b[q + 1]);
        }
        assert forall|row: IncomingTx| #[trigger] x.contains(row) <==> y.contains(row) by {
            if x.contains(row) {
                let p = choose|p: int| 0 <= p < x.len() && x[p] == row;
                assert(a[p + 1] == row);
                assert(a.contains(row));
                let q = choose|q: int| 0 <= q < b.len() && b[q] == row;
                if q == 0 {
                    assert(row_before(a[0], a[p + 1]));
                    lemma_row_before(a[0], a[0], a[0]);
                }
                assert(y[q - 1] == row);
            }
            if y.contains(row) {
                let p = choose|p: int| 0 <= p < y.len() && y[p] == row;
                assert(b[p + 1] == row);
                assert(b.contains(row));
                assert(a.contains(row));
                let q = choose|q: int| 0 <= q < a.len() && a[q] == row;
                if q == 0 {
                    assert(row_before(b[0], b[p + 1]));
                    lemma_row_before(b[0], b[0], b[0]);
                }
                assert(x[q - 1] == row);
            }
        }
        lemma_ordered_rows_are_unique(x, y);
        assert forall|k: int| 0 <= k < a.len() implies k < b.len() && a[k] == b[k] by {
            if k > 0 {
                assert(x[k - 1] == a[k] && y[k - 1] == b[k]);
            }
        }
        assert(a =~= b);
    }
}

/// The outputs alone decide the list of incoming transactions.
pub proof fn law_history_is_unique(outputs: Seq<IncomingOutput>, a: Seq<IncomingTx>, b: Seq<IncomingTx>)
    requires
        is_history(outputs, a),
        is_history(outputs, b),
    ensures
        a == b,
{
    lemma_ordered_rows_are_unique(a, b);
}

/// Pages do not overlap and leave nothing out: a page and the next one are the longer page.
pub proof fn law_pages_follow_each_other(rows: Seq<IncomingTx>, skip: nat, count: nat, more: nat)
    ensures
        page(rows, skip, count) + page(rows, skip + count, more) == page(rows, skip, count + more),
{
    assert(page(rows, skip, count) + page(rows, skip + count, more) =~= page(
        rows,
        skip,
        count + more,
    ));
}

/// A transaction is listed whatever became of its outputs: one that paid an output of the past has
/// a row, and the row counts that output.
pub proof fn law_spent_outputs_are_listed(
    cache: Rows<OutPoint, CoinView>,
    past: Seq<IncomingOutput>,
    rows: Seq<IncomingTx>,
    k: int,
)
    requires
        received_fits(known_outputs(cache, past)),
        is_history(known_outputs(cache, past), rows),
        0 <= k < past.len(),
    ensures
        exists|row: IncomingTx| #[trigger]
            rows.contains(row) && row.txid == past[k].outpoint.txid && row.amount == received(
                known_outputs(cache, past),
                row.txid,
            ),
        holds_outpoint(known_outputs(cache, past), past[k].outpoint),
{
    let outputs = known_outputs(cache, past);
    let own = incoming_outputs(coins_of_kind(cache, CoinKind::All));
    let txid = past[k].outpoint.txid;
    lemma_past_is_held(own, past, k);
    lemma_held_is_listed(outputs, past[k].outpoint);
    let row = IncomingTx {
        txid,
        amount: received(outputs, txid) as u64,
        confirmations: lowest_confirmations(outputs, txid)->0,
    };
    assert(received(outputs, txid) <= u64::MAX);
    assert(is_summary(outputs, row));
    assert(rows.contains(row));
}

proof fn lemma_past_is_held(outputs: Seq<IncomingOutput>, past: Seq<IncomingOutput>, k: int)
    requires
        0 <= k < past.len(),
    ensures
        holds_outpoint(with_past(outputs, past), past[k].outpoint),
    decreases past.len(),
{
    let rest = with_past(outputs, past.drop_last());
    if k < past.len() - 1 {
        lemma_past_is_held(outputs, past.drop_last(), k);
        let i = choose|i: int|
            0 <= i < rest.len() && (#[trigger] rest[i]).outpoint == past[k].outpoint;
        assert(with_past(outputs, past)[i] == rest[i]);
    } else if !holds_outpoint(rest, past[k].outpoint) {
        assert(with_past(outputs, past)[rest.len() as int] == past[k]);
    }
}

proof fn lemma_held_is_listed(outputs: Seq<IncomingOutput>, outpoint: OutPoint)
    requires
        holds_outpoint(outputs, outpoint),
    ensures
        lowest_confirmations(outputs, outpoint.txid) is Some,
    decreases outputs.len(),
{
    if outputs.last().outpoint.txid != outpoint.txid {
        let i = choose|i: int|
            0 <= i < outputs.len() && (#[trigger] outputs[i]).outpoint == outpoint;
        assert(outputs.drop_last()[i] == outputs[i]);
        lemma_held_is_listed(outputs.drop_last(), outpoint);
    }
}

pub open spec fn names_each_once(outputs: Seq<IncomingOutput>) -> bool {
    forall|i: int, j: int|
        0 <= i < j < outputs.len() ==> (#[trigger] outputs[i]).outpoint != (
        #[trigger] outputs[j]).outpoint
}

/// No output counts twice, however often the past names it.
pub proof fn law_no_output_counts_twice(store: StoreView, past: Seq<IncomingOutput>)
    requires
        store.well_formed(),
    ensures
        names_each_once(known_outputs(store.utxo_cache, past)),
{
    lemma_tracked_are_distinct(store.utxo_cache);
    lemma_with_past_is_distinct(
        incoming_outputs(coins_of_kind(store.utxo_cache, CoinKind::All)),
        past,
    );
}

proof fn lemma_with_past_is_distinct(outputs: Seq<IncomingOutput>, past: Seq<IncomingOutput>)
    requires
        names_each_once(outputs),
    ensures
        names_each_once(with_past(outputs, past)),
    decreases past.len(),
{
    if past.len() > 0 {
        lemma_with_past_is_distinct(outputs, past.drop_last());
    }
}

proof fn lemma_tracked_are_distinct(cache: Rows<OutPoint, CoinView>)
    requires
        keys_distinct(cache),
        forall|i: int| 0 <= i < cache.len() ==> (#[trigger] cache[i]).1.0.outpoint() == cache[i].0,
    ensures
        names_each_once(incoming_outputs(coins_of_kind(cache, CoinKind::All))),
        forall|k: int|
            0 <= k < incoming_outputs(coins_of_kind(cache, CoinKind::All)).len() ==> has_key(
                cache,
                (#[trigger] incoming_outputs(coins_of_kind(cache, CoinKind::All))[k]).outpoint,
            ),
    decreases cache.len(),
{
    if cache.len() > 0 {
        let less = cache.drop_last();
        let before = incoming_outputs(coins_of_kind(less, CoinKind::All));
        let after = incoming_outputs(coins_of_kind(cache, CoinKind::All));
        assert forall|i: int| 0 <= i < less.len() implies (#[trigger] less[i]).1.0.outpoint()
            == less[i].0 by {
            assert(less[i] == cache[i]);
        }
        assert(keys_distinct(less)) by {
            assert forall|i: int, j: int|
                0 <= i < less.len() && 0 <= j < less.len() && i != j implies (
            #[trigger] less[i]).0 != (#[trigger] less[j]).0 by {
                assert(less[i] == cache[i] && less[j] == cache[j]);
            }
        }
        lemma_tracked_are_distinct(less);
        assert(coins_of_kind(cache, CoinKind::All).drop_last() =~= coins_of_kind(
            less,
            CoinKind::All,
        ));
        let last = cache.len() - 1;
        assert forall|k: int| 0 <= k < before.len() implies has_key(
            cache,
            (#[trigger] before[k]).outpoint,
        ) && before[k].outpoint != cache[last].0 by {
            let i = choose|i: int|
                0 <= i < less.len() && (#[trigger] less[i]).0 == before[k].outpoint;
            assert(cache[i].0 == before[k].outpoint);
        }
        assert forall|k: int| 0 <= k < after.len() implies has_key(
            cache,
            (#[trigger] after[k]).outpoint,
        ) by {
            if k < before.len() {
                assert(after[k] == before[k]);
            } else {
                assert(cache[last].0 == after[k].outpoint);
            }
        }
        assert forall|i: int, j: int| 0 <= i < j < after.len() implies (
        #[trigger] after[i]).outpoint != (#[trigger] after[j]).outpoint by {
            assert(after[i] == before[i]);
            if j < before.len() {
                assert(after[j] == before[j]);
            }
        }
    }
}

/// The most recent transaction comes first.
pub proof fn law_most_recent_first(outputs: Seq<IncomingOutput>, rows: Seq<IncomingTx>, i: int, j: int)
    requires
        is_history(outputs, rows),
        0 <= i <= j < rows.len(),
    ensures
        rows[i].confirmations <= rows[j].confirmations,
{
}

} // verus!
