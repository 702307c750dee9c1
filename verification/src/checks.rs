//! Whether a wallet and a request are in the range that the operations compute in.

use crate::coin_selector::FeeRate;
use crate::listing::{balances_fit, unused_index};
use crate::spend::{is_payable, is_selectable, MAX_COINS};
use crate::transactions::{known_outputs, outputs_value, received, received_fits, IncomingOutput};
use crate::types::{KeychainKind, Txid};
use crate::utxo::checked_total_value;
use crate::wallet::Wallet;
use vstd::prelude::*;

verus! {

/// Whether selection can compute with an amount and a rate.
pub fn can_pay(amount: u64, feerate: FeeRate) -> (r: bool)
    ensures
        r == is_payable(amount, feerate),
{
    let (sats, vbytes): (u128, u128) = (feerate.sats as u128, feerate.vbytes as u128);
    if vbytes == 0 || sats >= 0x1000_0000 * vbytes || amount >= 0x4000_0000_0000_0000 {
        return false;
    }
    let value: u128 = amount as u128;
    assert(vbytes * value <= 0xffff_ffff_ffff_ffff * 0x4000_0000_0000_0000) by (nonlinear_arith)
        requires
            0 <= vbytes <= 0xffff_ffff_ffff_ffff,
            0 <= value <= 0x4000_0000_0000_0000,
    ;
    assert(17 * feerate.vbytes * amount == 17 * (vbytes * value)) by (nonlinear_arith)
        requires
            vbytes == feerate.vbytes,
            value == amount,
    ;
    let product: u128 = vbytes * value;
    let limit: u128 = 900 * sats * 0x100_0000;
    product <= limit && 17 * product <= limit
}

proof fn lemma_received_is_part(outputs: Seq<IncomingOutput>, txid: Txid)
    ensures
        received(outputs, txid) <= outputs_value(outputs),
    decreases outputs.len(),
{
    if outputs.len() > 0 {
        lemma_received_is_part(outputs.drop_last(), txid);
    }
}

impl Wallet {
    /// Whether no key is there twice in any table and each cached coin stands under its own
    /// outpoint.
    pub fn is_well_formed(&self) -> (r: bool)
        ensures
            r == self@.well_formed(),
    {
        let store = &self.store;
        if !(store.incoming_swapcoins.has_distinct_keys()
            && store.outgoing_swapcoins.has_distinct_keys()
            && store.watchonly_swapcoins.has_distinct_keys()
            && store.prevout_to_contract_map.has_distinct_keys()
            && store.fidelity_bond.has_distinct_keys() && store.utxo_cache.has_distinct_keys()) {
            return false;
        }
        let scripts = &store.swept_incoming_swapcoins;
        let mut i: usize = 0;
        while i < scripts.len()
            invariant
                scripts == self.store.swept_incoming_swapcoins,
                i <= scripts.len(),
                forall|a: int, b: int|
                    0 <= a < b < i ==> #[trigger] self@.swept_incoming_swapcoins[a]
                        != #[trigger] self@.swept_incoming_swapcoins[b],
            decreases scripts.len() - i,
        {
            let mut j: usize = 0;
            while j < i
                invariant
                    scripts == self.store.swept_incoming_swapcoins,
                    j <= i < scripts.len(),
                    forall|a: int|
                        0 <= a < j ==> #[trigger] self@.swept_incoming_swapcoins[a]
                            != self@.swept_incoming_swapcoins[i as int],
                decreases i - j,
            {
                if scripts[j] == scripts[i] {
                    assert(self@.swept_incoming_swapcoins[j as int]
                        == self@.swept_incoming_swapcoins[i as int]);
                    return false;
                }
                j += 1;
            }
            i += 1;
        }
        let cache = &store.utxo_cache;
        let mut k: usize = 0;
        while k < cache.rows.len()
            invariant
                cache == self.store.utxo_cache,
                k <= cache.rows.len(),
                forall|a: int|
                    0 <= a < k ==> (#[trigger] self@.utxo_cache[a]).1.0.outpoint()
                        == self@.utxo_cache[a].0,
            decreases cache.rows.len() - k,
        {
            if cache.rows[k].1.0.outpoint() != cache.rows[k].0 {
                assert(self@.utxo_cache[k as int].1.0.outpoint() != self@.utxo_cache[k as int].0);
                return false;
            }
            k += 1;
        }
        true
    }

    /// Whether the balances fit into 64 bits.
    pub fn can_balance(&self) -> (r: bool)
        ensures
            r == balances_fit(self@),
    {
        let regular = checked_total_value(&self.list_descriptor_utxo_spend_info());
        let swap = checked_total_value(&self.list_swept_incoming_swap_utxos());
        let contract = checked_total_value(&self.list_live_timelock_contract_spend_info());
        let fidelity = checked_total_value(&self.list_fidelity_spend_info());
        match (regular, swap) {
            (Some(a), Some(b)) => a <= u64::MAX - b && contract.is_some() && fidelity.is_some(),
            _ => false,
        }
    }

    /// Whether selection can compute with the wallet's coins.
    pub fn can_select(&self) -> (r: bool)
        ensures
            r == is_selectable(self@),
    {
        let regular = checked_total_value(&self.list_descriptor_utxo_spend_info());
        let swap = checked_total_value(&self.list_swept_incoming_swap_utxos());
        match (regular, swap) {
            (Some(a), Some(b)) => self.store.utxo_cache.len() <= MAX_COINS && a
                < 0x4000_0000_0000_0000 && b < 0x4000_0000_0000_0000,
            _ => false,
        }
    }

    /// Whether `count` more indexes are left on a branch.
    pub fn has_indexes_left(
        &self,
        keychain: KeychainKind,
        last_used: Option<u32>,
        count: u32,
    ) -> (r: bool)
        ensures
            r == (unused_index(self@.utxo_cache, keychain.spec_index_num(), last_used) + count
                <= u32::MAX),
    {
        let behind_coins: u64 = (self.highest_used_index(keychain) as i64 + 1) as u64;
        let behind_used: u64 = match last_used {
            Some(last) => last as u64 + 1,
            None => 0,
        };
        behind_coins + count as u64 <= u32::MAX as u64 && behind_used + count as u64
            <= u32::MAX as u64
    }

    /// Whether all incoming outputs together fit into 64 bits; then what any transaction paid does.
    pub fn can_sum_transactions(&self, past: &Vec<IncomingOutput>) -> (r: bool)
        ensures
            r == (outputs_value(known_outputs(self@.utxo_cache, past@)) <= u64::MAX),
            r ==> received_fits(known_outputs(self@.utxo_cache, past@)),
    {
        let outputs = self.known_outputs(past);
        proof {
            if outputs_value(outputs@) <= u64::MAX {
                assert forall|txid: Txid| #[trigger] received(outputs@, txid) <= u64::MAX by {
                    lemma_received_is_part(outputs@, txid);
                }
            }
        }
        let mut total: u64 = 0;
        let mut i: usize = 0;
        assert(outputs@.take(0) =~= Seq::<IncomingOutput>::empty());
        while i < outputs.len()
            invariant
                i <= outputs.len(),
                outputs@ == known_outputs(self@.utxo_cache, past@),
                total == outputs_value(outputs@.take(i as int)),
            decreases outputs.len() - i,
        {
            proof {
                assert(outputs@.take(i + 1).drop_last() =~= outputs@.take(i as int));
                lemma_outputs_value_grows(outputs@, i + 1);
            }
            if outputs[i].amount > u64::MAX - total {
                return false;
            }
            total = total + outputs[i].amount;
            i += 1;
        }
        assert(outputs@.take(outputs@.len() as int) =~= outputs@);
        true
    }
}

proof fn lemma_outputs_value_grows(outputs: Seq<IncomingOutput>, k: int)
    requires
        0 <= k <= outputs.len(),
    ensures
        outputs_value(outputs.take(k)) <= outputs_value(outputs),
    decreases outputs.len(),
{
    if k < outputs.len() {
        lemma_outputs_value_grows(outputs.drop_last(), k);
        assert(outputs.drop_last().take(k) =~= outputs.take(k));
    } else {
        assert(outputs.take(k) =~= outputs);
    }
}

/// Amounts of an ordinary size can be paid for at any ordinary rate: up to 8.8 bitcoins at one
/// satoshi a byte, and in proportion to the rate. What can be paid for, a smaller amount can too.
pub proof fn law_ordinary_amounts_can_be_paid(
    amount: u64,
    less: u64,
    feerate: FeeRate,
    r: bool,
    s: bool,
)
    requires
        less <= amount,
        call_ensures(can_pay, (amount, feerate), r),
        call_ensures(can_pay, (less, feerate), s),
    ensures
        feerate.vbytes == 1 && feerate.sats < 0x1000_0000 && amount <= 880_000_000 * feerate.sats
            ==> r,
        r ==> s,
        feerate.vbytes == 0 ==> !r,
{
    assert(17 * feerate.vbytes * less <= 17 * feerate.vbytes * amount) by (nonlinear_arith)
        requires
            less <= amount,
    ;
    if feerate.vbytes == 1 {
        assert(17 * feerate.vbytes * amount == 17 * amount) by (nonlinear_arith)
            requires
                feerate.vbytes == 1,
        ;
    }
}

/// Indexes are left on a branch as long as the next unused one and as many as asked for behind it are
/// numbers that an index can have.
pub proof fn law_indexes_run_out(
    wallet: Wallet,
    keychain: KeychainKind,
    last_used: Option<u32>,
    count: u32,
    next: u32,
    r: bool,
)
    requires
        unused_index(wallet@.utxo_cache, keychain.spec_index_num(), last_used) <= u32::MAX,
        call_ensures(Wallet::find_unused_index, (&wallet, keychain, last_used), next),
        call_ensures(Wallet::has_indexes_left, (&wallet, keychain, last_used, count), r),
    ensures
        r <==> next <= u32::MAX - count,
{
}

} // verus!
