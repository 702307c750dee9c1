//! Unspent outputs and what it takes to spend them.

use crate::types::{
    clone_script_option, script_option, text_option, AddressType, OutPoint, Script, Txid,
};
use vstd::prelude::*;

verus! {

/// An unspent output as the node lists it.
#[derive(Debug)]
pub struct Utxo {
    pub txid: Txid,
    pub vout: u32,
    pub address: Option<String>,
    pub label: Option<String>,
    pub redeem_script: Option<Script>,
    pub witness_script: Option<Script>,
    pub script_pub_key: Script,
    /// The value in satoshis.
    pub amount: u64,
    pub confirmations: u32,
    pub spendable: bool,
    pub solvable: bool,
    pub descriptor: Option<String>,
    pub safe: bool,
}

#[verifier::ext_equal]
pub struct UtxoView {
    pub txid: Txid,
    pub vout: u32,
    pub address: Option<Seq<char>>,
    pub label: Option<Seq<char>>,
    pub redeem_script: Option<Seq<u8>>,
    pub witness_script: Option<Seq<u8>>,
    pub script_pub_key: Seq<u8>,
    pub amount: u64,
    pub confirmations: u32,
    pub spendable: bool,
    pub solvable: bool,
    pub descriptor: Option<Seq<char>>,
    pub safe: bool,
}

impl View for Utxo {
    type V = UtxoView;

    open spec fn view(&self) -> UtxoView {
        UtxoView {
            txid: self.txid,
            vout: self.vout,
            address: text_option(self.address),
            label: text_option(self.label),
            redeem_script: script_option(self.redeem_script),
            witness_script: script_option(self.witness_script),
            script_pub_key: self.script_pub_key@,
            amount: self.amount,
            confirmations: self.confirmations,
            spendable: self.spendable,
            solvable: self.solvable,
            descriptor: text_option(self.descriptor),
            safe: self.safe,
        }
    }
}

impl UtxoView {
    pub open spec fn outpoint(self) -> OutPoint {
        OutPoint { txid: self.txid, vout: self.vout }
    }
}

impl Clone for Utxo {
    fn clone(&self) -> (r: Self)
        ensures
            r@ == self@,
    {
        Utxo {
            txid: self.txid,
            vout: self.vout,
            address: self.address.clone(),
            label: self.label.clone(),
            redeem_script: clone_script_option(&self.redeem_script),
            witness_script: clone_script_option(&self.witness_script),
            script_pub_key: self.script_pub_key.clone(),
            amount: self.amount,
            confirmations: self.confirmations,
            spendable: self.spendable,
            solvable: self.solvable,
            descriptor: self.descriptor.clone(),
            safe: self.safe,
        }
    }
}

/// Compares two optional texts.
pub fn text_options_equal(a: &Option<String>, b: &Option<String>) -> (r: bool)
    ensures
        r == (text_option(*a) == text_option(*b)),
{
    match (a, b) {
        (Some(x), Some(y)) => *x == *y,
        (None, None) => true,
        _ => false,
    }
}

/// Compares two optional scripts.
pub fn script_options_equal(a: &Option<Script>, b: &Option<Script>) -> (r: bool)
    ensures
        r == (script_option(*a) == script_option(*b)),
{
    match (a, b) {
        (Some(x), Some(y)) => *x == *y,
        (None, None) => true,
        _ => false,
    }
}

impl PartialEq for Utxo {
    fn eq(&self, other: &Self) -> (r: bool) {
        self.txid == other.txid && self.vout == other.vout && text_options_equal(
            &self.address,
            &other.address,
        ) && text_options_equal(&self.label, &other.label) && script_options_equal(
            &self.redeem_script,
            &other.redeem_script,
        ) && script_options_equal(&self.witness_script, &other.witness_script)
            && self.script_pub_key == other.script_pub_key && self.amount == other.amount
            && self.confirmations == other.confirmations && self.spendable == other.spendable
            && self.solvable == other.solvable && text_options_equal(
            &self.descriptor,
            &other.descriptor,
        ) && self.safe == other.safe
    }
}

impl vstd::std_specs::cmp::PartialEqSpecImpl for Utxo {
    open spec fn obeys_eq_spec() -> bool {
        true
    }

    open spec fn eq_spec(&self, other: &Self) -> bool {
        self@ == other@
    }
}

impl Utxo {
    pub fn outpoint(&self) -> (r: OutPoint)
        ensures
            r == self@.outpoint(),
    {
        OutPoint::new(self.txid, self.vout)
    }
}

/// What it takes to spend an unspent output, beside the output itself.
#[derive(Debug)]
pub enum UTXOSpendInfo {
    /// A regular wallet coin, derived from the seed.
    SeedCoin {
        /// The derivation path of the private key, below the account.
        path: String,
        /// The value in satoshis.
        input_value: u64,
        address_type: AddressType,
    },
    /// A coin received in a swap, in a 2-of-2 multisig.
    IncomingSwapCoin { multisig_redeemscript: Script },
    /// A coin sent in a swap, in a 2-of-2 multisig.
    OutgoingSwapCoin { multisig_redeemscript: Script },
    /// A contract output that can be claimed once its timelock is over.
    TimelockContract { swapcoin_multisig_redeemscript: Script, input_value: u64 },
    /// A contract output that can be claimed with the hash preimage.
    HashlockContract { swapcoin_multisig_redeemscript: Script, input_value: u64 },
    /// A coin locked in a fidelity bond.
    FidelityBondCoin {
        /// The index of the bond in the wallet's list.
        index: u32,
        input_value: u64,
    },
    /// A received swap coin that was swept to a wallet address at the end of the swap.
    SweptCoin { path: String, input_value: u64, address_type: AddressType },
}

#[verifier::ext_equal]
pub enum SpendInfoView {
    SeedCoin { path: Seq<char>, input_value: u64, address_type: AddressType },
    IncomingSwapCoin { multisig_redeemscript: Seq<u8> },
    OutgoingSwapCoin { multisig_redeemscript: Seq<u8> },
    TimelockContract { swapcoin_multisig_redeemscript: Seq<u8>, input_value: u64 },
    HashlockContract { swapcoin_multisig_redeemscript: Seq<u8>, input_value: u64 },
    FidelityBondCoin { index: u32, input_value: u64 },
    SweptCoin { path: Seq<char>, input_value: u64, address_type: AddressType },
}

impl View for UTXOSpendInfo {
    type V = SpendInfoView;

    open spec fn view(&self) -> SpendInfoView {
        match self {
            UTXOSpendInfo::SeedCoin { path, input_value, address_type } => SpendInfoView::SeedCoin {
                path: path@,
                input_value: *input_value,
                address_type: *address_type,
            },
            UTXOSpendInfo::IncomingSwapCoin { multisig_redeemscript } =>
                SpendInfoView::IncomingSwapCoin { multisig_redeemscript: multisig_redeemscript@ },
            UTXOSpendInfo::OutgoingSwapCoin { multisig_redeemscript } =>
                SpendInfoView::OutgoingSwapCoin { multisig_redeemscript: multisig_redeemscript@ },
            UTXOSpendInfo::TimelockContract { swapcoin_multisig_redeemscript, input_value } =>
                SpendInfoView::TimelockContract {
                swapcoin_multisig_redeemscript: swapcoin_multisig_redeemscript@,
                input_value: *input_value,
            },
            UTXOSpendInfo::HashlockContract { swapcoin_multisig_redeemscript, input_value } =>
                SpendInfoView::HashlockContract {
                swapcoin_multisig_redeemscript: swapcoin_multisig_redeemscript@,
                input_value: *input_value,
            },
            UTXOSpendInfo::FidelityBondCoin { index, input_value } =>
                SpendInfoView::FidelityBondCoin { index: *index, input_value: *input_value },
            UTXOSpendInfo::SweptCoin { path, input_value, address_type } =>
                SpendInfoView::SweptCoin {
                path: path@,
                input_value: *input_value,
                address_type: *address_type,
            },
        }
    }
}

impl Clone for UTXOSpendInfo {
    fn clone(&self) -> (r: Self)
        ensures
            r@ == self@,
    {
        match self {
            UTXOSpendInfo::SeedCoin { path, input_value, address_type } => UTXOSpendInfo::SeedCoin {
                path: path.clone(),
                input_value: *input_value,
                address_type: *address_type,
            },
            UTXOSpendInfo::IncomingSwapCoin { multisig_redeemscript } =>
                UTXOSpendInfo::IncomingSwapCoin {
                multisig_redeemscript: multisig_redeemscript.clone(),
            },
            UTXOSpendInfo::OutgoingSwapCoin { multisig_redeemscript } =>
                UTXOSpendInfo::OutgoingSwapCoin {
                multisig_redeemscript: multisig_redeemscript.clone(),
            },
            UTXOSpendInfo::TimelockContract { swapcoin_multisig_redeemscript, input_value } =>
                UTXOSpendInfo::TimelockContract {
                swapcoin_multisig_redeemscript: swapcoin_multisig_redeemscript.clone(),
                input_value: *input_value,
            },
            UTXOSpendInfo::HashlockContract { swapcoin_multisig_redeemscript, input_value } =>
                UTXOSpendInfo::HashlockContract {
                swapcoin_multisig_redeemscript: swapcoin_multisig_redeemscript.clone(),
                input_value: *input_value,
            },
            UTXOSpendInfo::FidelityBondCoin { index, input_value } =>
                UTXOSpendInfo::FidelityBondCoin { index: *index, input_value: *input_value },
            UTXOSpendInfo::SweptCoin { path, input_value, address_type } =>
                UTXOSpendInfo::SweptCoin {
                path: path.clone(),
                input_value: *input_value,
                address_type: *address_type,
            },
        }
    }
}

impl PartialEq for UTXOSpendInfo {
    fn eq(&self, other: &Self) -> (r: bool) {
        match (self, other) {
            (
                UTXOSpendInfo::SeedCoin { path, input_value, address_type },
                UTXOSpendInfo::SeedCoin { path: p, input_value: v, address_type: t },
            ) => *path == *p && *input_value == *v && *address_type == *t,
            (
                UTXOSpendInfo::IncomingSwapCoin { multisig_redeemscript },
                UTXOSpendInfo::IncomingSwapCoin { multisig_redeemscript: s },
            ) => *multisig_redeemscript == *s,
            (
                UTXOSpendInfo::OutgoingSwapCoin { multisig_redeemscript },
                UTXOSpendInfo::OutgoingSwapCoin { multisig_redeemscript: s },
            ) => *multisig_redeemscript == *s,
            (
                UTXOSpendInfo::TimelockContract { swapcoin_multisig_redeemscript, input_value },
                UTXOSpendInfo::TimelockContract {
                    swapcoin_multisig_redeemscript: s,
                    input_value: v,
                },
            ) => *swapcoin_multisig_redeemscript == *s && *input_value == *v,
            (
                UTXOSpendInfo::HashlockContract { swapcoin_multisig_redeemscript, input_value },
                UTXOSpendInfo::HashlockContract {
                    swapcoin_multisig_redeemscript: s,
                    input_value: v,
                },
            ) => *swapcoin_multisig_redeemscript == *s && *input_value == *v,
            (
                UTXOSpendInfo::FidelityBondCoin { index, input_value },
                UTXOSpendInfo::FidelityBondCoin { index: i, input_value: v },
            ) => *index == *i && *input_value == *v,
            (
                UTXOSpendInfo::SweptCoin { path, input_value, address_type },
                UTXOSpendInfo::SweptCoin { path: p, input_value: v, address_type: t },
            ) => *path == *p && *input_value == *v && *address_type == *t,
            _ => false,
        }
    }
}

impl vstd::std_specs::cmp::PartialEqSpecImpl for UTXOSpendInfo {
    open spec fn obeys_eq_spec() -> bool {
        true
    }

    open spec fn eq_spec(&self, other: &Self) -> bool {
        self@ == other@
    }
}

impl SpendInfoView {
    /// The size of the witness that spends the coin.
    pub open spec fn witness_size(self) -> usize {
        match self {
            SpendInfoView::SeedCoin { address_type: AddressType::P2WPKH, .. } => 107,
            SpendInfoView::SeedCoin { address_type: AddressType::P2TR, .. } => 65,
            SpendInfoView::SweptCoin { address_type: AddressType::P2WPKH, .. } => 107,
            SpendInfoView::SweptCoin { address_type: AddressType::P2TR, .. } => 65,
            SpendInfoView::IncomingSwapCoin { .. } => 222,
            SpendInfoView::OutgoingSwapCoin { .. } => 222,
            SpendInfoView::TimelockContract { .. } => 179,
            SpendInfoView::HashlockContract { .. } => 211,
            SpendInfoView::FidelityBondCoin { .. } => 115,
        }
    }

    /// The name of the kind of coin.
    pub open spec fn label(self) -> Seq<char> {
        match self {
            SpendInfoView::SeedCoin { .. } => "regular"@,
            SpendInfoView::SweptCoin { .. } => "swept-incoming-swap"@,
            SpendInfoView::FidelityBondCoin { .. } => "fidelity-bond"@,
            SpendInfoView::HashlockContract { .. } => "hashlock-contract"@,
            SpendInfoView::TimelockContract { .. } => "timelock-contract"@,
            SpendInfoView::IncomingSwapCoin { .. } => "incoming-swap"@,
            SpendInfoView::OutgoingSwapCoin { .. } => "outgoing-swap"@,
        }
    }
}

/// Signature, public key and their lengths.
pub const P2WPKH_WITNESS_SIZE: usize = 107;

/// A Schnorr signature and its length.
pub const P2TR_WITNESS_SIZE: usize = 65;

pub const P2WSH_MULTISIG_2OF2_WITNESS_SIZE: usize = 222;

pub const FIDELITY_BOND_WITNESS_SIZE: usize = 115;

pub const TIME_LOCK_CONTRACT_TX_WITNESS_SIZE: usize = 179;

pub const HASH_LOCK_CONTRACT_TX_WITNESS_SIZE: usize = 211;

impl UTXOSpendInfo {
    /// Estimates the size of the witness that spends the coin.
    pub fn estimate_witness_size(&self) -> (r: usize)
        ensures
            r == self@.witness_size(),
    {
        match self {
            UTXOSpendInfo::SeedCoin { address_type, .. } | UTXOSpendInfo::SweptCoin {
                address_type,
                ..
            } => match address_type {
                AddressType::P2WPKH => P2WPKH_WITNESS_SIZE,
                AddressType::P2TR => P2TR_WITNESS_SIZE,
            },
            UTXOSpendInfo::IncomingSwapCoin { .. } | UTXOSpendInfo::OutgoingSwapCoin { .. } =>
                P2WSH_MULTISIG_2OF2_WITNESS_SIZE,
            UTXOSpendInfo::TimelockContract { .. } => TIME_LOCK_CONTRACT_TX_WITNESS_SIZE,
            UTXOSpendInfo::HashlockContract { .. } => HASH_LOCK_CONTRACT_TX_WITNESS_SIZE,
            UTXOSpendInfo::FidelityBondCoin { .. } => FIDELITY_BOND_WITNESS_SIZE,
        }
    }

    /// The name of the kind of coin.
    pub fn label(&self) -> (r: String)
        ensures
            r@ == self@.label(),
    {
        match self {
            UTXOSpendInfo::SeedCoin { .. } => "regular".to_string(),
            UTXOSpendInfo::SweptCoin { .. } => "swept-incoming-swap".to_string(),
            UTXOSpendInfo::FidelityBondCoin { .. } => "fidelity-bond".to_string(),
            UTXOSpendInfo::HashlockContract { .. } => "hashlock-contract".to_string(),
            UTXOSpendInfo::TimelockContract { .. } => "timelock-contract".to_string(),
            UTXOSpendInfo::IncomingSwapCoin { .. } => "incoming-swap".to_string(),
            UTXOSpendInfo::OutgoingSwapCoin { .. } => "outgoing-swap".to_string(),
        }
    }
}

/// An unspent output together with what it takes to spend it.
pub type Coin = (Utxo, UTXOSpendInfo);

pub type CoinView = (UtxoView, SpendInfoView);

/// The views of a list of coins.
pub open spec fn coins_view(coins: Seq<Coin>) -> Seq<CoinView> {
    coins.map_values(|coin: Coin| (coin.0@, coin.1@))
}

/// A copy of a coin.
pub fn clone_coin(coin: &Coin) -> (r: Coin)
    ensures
        r.0@ == coin.0@,
        r.1@ == coin.1@,
{
    (coin.0.clone(), coin.1.clone())
}

/// The total value of a list of coins, in satoshis.
pub open spec fn coins_value(coins: Seq<CoinView>) -> nat
    decreases coins.len(),
{
    if coins.len() == 0 {
        0
    } else {
        coins_value(coins.drop_last()) + coins.last().0.amount as nat
    }
}

/// The value of the first coins grows by the next coin and stays within the total.
pub proof fn lemma_coins_value_step(coins: Seq<CoinView>, k: int)
    requires
        0 <= k < coins.len(),
    ensures
        coins_value(coins.take(k + 1)) == coins_value(coins.take(k)) + coins[k].0.amount,
        coins_value(coins.take(k + 1)) <= coins_value(coins),
    decreases coins.len(),
{
    assert(coins.take(k + 1).drop_last() =~= coins.take(k));
    if k + 1 < coins.len() {
        lemma_coins_value_step(coins.drop_last(), k);
        assert(coins.drop_last().take(k + 1) =~= coins.take(k + 1));
        assert(coins.drop_last().take(k) =~= coins.take(k));
    } else {
        assert(coins.take(k + 1) =~= coins);
    }
}

pub proof fn lemma_coins_value_concat(a: Seq<CoinView>, b: Seq<CoinView>)
    ensures
        coins_value(a + b) == coins_value(a) + coins_value(b),
    decreases b.len(),
{
    if b.len() == 0 {
        assert(a + b =~= a);
    } else {
        assert((a + b).drop_last() =~= a + b.drop_last());
        lemma_coins_value_concat(a, b.drop_last());
    }
}

/// Adds up the values of a list of coins, where that fits into 64 bits.
pub fn checked_total_value(coins: &Vec<Coin>) -> (r: Option<u64>)
    ensures
        match r {
            Some(sats) => sats == coins_value(coins_view(coins@)),
            None => coins_value(coins_view(coins@)) > u64::MAX,
        },
{
    let ghost views = coins_view(coins@);
    let mut sats: u64 = 0;
    let mut i: usize = 0;
    assert(views.take(0) =~= Seq::<CoinView>::empty());
    while i < coins.len()
        invariant
            i <= coins.len(),
            views == coins_view(coins@),
            sats == coins_value(views.take(i as int)),
        decreases coins.len() - i,
    {
        proof {
            lemma_coins_value_step(views, i as int);
        }
        if coins[i].0.amount > u64::MAX - sats {
            return None;
        }
        sats = sats + coins[i].0.amount;
        i += 1;
    }
    assert(views.take(views.len() as int) =~= views);
    Some(sats)
}

/// Adds up the values of a list of coins.
pub fn total_value(coins: &Vec<Coin>) -> (sats: u64)
    requires
        coins_value(coins_view(coins@)) <= u64::MAX,
    ensures
        sats == coins_value(coins_view(coins@)),
{
    let ghost views = coins_view(coins@);
    let mut sats: u64 = 0;
    let mut i: usize = 0;
    assert(views.take(0) =~= Seq::<CoinView>::empty());
    while i < coins.len()
        invariant
            i <= coins.len(),
            views == coins_view(coins@),
            coins_value(views) <= u64::MAX,
            sats == coins_value(views.take(i as int)),
        decreases coins.len() - i,
    {
        proof {
            lemma_coins_value_step(views, i as int);
        }
        sats = sats + coins[i].0.amount;
        i += 1;
    }
    assert(views.take(views.len() as int) =~= views);
    sats
}

/// What a sweep or a recovery did, contract by contract.
#[derive(Debug)]
pub struct RecoveryOutcome {
    /// The contracts that were spent, each with the transaction that spent it.
    pub resolved: Vec<(Txid, Txid)>,
    /// The contracts that were dropped: spent by someone else, or never broadcast.
    pub discarded: Vec<Txid>,
}

impl Default for RecoveryOutcome {
    fn default() -> (r: Self)
        ensures
            r.resolved@ == Seq::<(Txid, Txid)>::empty(),
            r.discarded@ == Seq::<Txid>::empty(),
    {
        RecoveryOutcome { resolved: Vec::new(), discarded: Vec::new() }
    }
}

impl Clone for RecoveryOutcome {
    fn clone(&self) -> (r: Self)
        ensures
            r.resolved@ == self.resolved@,
            r.discarded@ == self.discarded@,
    {
        let mut resolved: Vec<(Txid, Txid)> = Vec::new();
        let mut i: usize = 0;
        while i < self.resolved.len()
            invariant
                i <= self.resolved.len(),
                resolved.len() == i,
                forall|k: int| 0 <= k < i ==> #[trigger] resolved@[k] == self.resolved@[k],
            decreases self.resolved.len() - i,
        {
            resolved.push((self.resolved[i].0, self.resolved[i].1));
            i += 1;
        }
        let mut discarded: Vec<Txid> = Vec::new();
        let mut j: usize = 0;
        while j < self.discarded.len()
            invariant
                j <= self.discarded.len(),
                discarded.len() == j,
                forall|k: int| 0 <= k < j ==> #[trigger] discarded@[k] == self.discarded@[k],
            decreases self.discarded.len() - j,
        {
            discarded.push(self.discarded[j]);
            j += 1;
        }
        assert(resolved@ =~= self.resolved@);
        assert(discarded@ =~= self.discarded@);
        RecoveryOutcome { resolved, discarded }
    }
}

impl RecoveryOutcome {
    /// Whether no contract was resolved or discarded.
    pub fn is_empty(&self) -> (r: bool)
        ensures
            r == (self.resolved@.len() == 0 && self.discarded@.len() == 0),
    {
        self.resolved.len() == 0 && self.discarded.len() == 0
    }

    /// The number of contracts that were resolved or discarded.
    pub fn len(&self) -> (r: usize)
        requires
            self.resolved@.len() + self.discarded@.len() <= usize::MAX,
        ensures
            r == self.resolved@.len() + self.discarded@.len(),
    {
        self.resolved.len() + self.discarded.len()
    }
}

/// An outcome is empty exactly when it handled no contract.
pub proof fn law_empty_outcome_has_no_length(outcome: RecoveryOutcome)
    ensures
        (outcome.resolved@.len() == 0 && outcome.discarded@.len() == 0) <==> outcome.resolved@.len()
            + outcome.discarded@.len() == 0,
{
}

/// The balances of a wallet by category, in satoshis.
#[derive(Debug, Clone, Copy, PartialEq, Eq, Structural)]
pub struct Balances {
    /// The regular coins, derived from the seed.
    pub regular: u64,
    /// The coins received in swaps.
    pub swap: u64,
    /// The coins locked in live contracts, until their timelock is over.
    pub contract: u64,
    /// The coins locked in fidelity bonds.
    pub fidelity: u64,
    /// What can be spent: regular and swap coins.
    pub spendable: u64,
}

/// Coins are worth what each of them is worth: the value of two lists of coins is that of the one and
/// of the other, and the value of one coin is its amount.
pub proof fn law_values_add_up(
    first: Vec<Coin>,
    second: Vec<Coin>,
    both: Vec<Coin>,
    a: u64,
    b: u64,
    c: u64,
)
    requires
        coins_view(both@) == coins_view(first@) + coins_view(second@),
        coins_value(coins_view(both@)) <= u64::MAX,
        call_ensures(total_value, (&first,), a),
        call_ensures(total_value, (&second,), b),
        call_ensures(total_value, (&both,), c),
    ensures
        c == a + b,
        first@.len() == 0 ==> a == 0,
        first@.len() == 1 ==> a == first@[0].0@.amount,
{
    lemma_coins_value_concat(coins_view(first@), coins_view(second@));
    if first@.len() == 1 {
        assert(coins_view(first@).drop_last() =~= Seq::<CoinView>::empty());
        assert(coins_value(coins_view(first@).drop_last()) == 0);
    }
}

/// Adding up with a check gives the value wherever it fits, and nothing where it does not.
pub proof fn law_checked_values_fit(coins: Vec<Coin>, a: u64, r: Option<u64>)
    requires
        call_ensures(checked_total_value, (&coins,), r),
        coins_value(coins_view(coins@)) <= u64::MAX,
        call_ensures(total_value, (&coins,), a),
    ensures
        r == Some(a),
{
}

/// The name of a coin tells its kind: coins of different kinds have different names, and a regular
/// coin is the one of the seed.
pub proof fn law_names_tell_kinds_apart(a: UTXOSpendInfo, b: UTXOSpendInfo, r: String, s: String)
    requires
        call_ensures(UTXOSpendInfo::label, (&a,), r),
        call_ensures(UTXOSpendInfo::label, (&b,), s),
    ensures
        r@ == s@ <==> {
            &&& a@ is SeedCoin <==> b@ is SeedCoin
            &&& a@ is SweptCoin <==> b@ is SweptCoin
            &&& a@ is FidelityBondCoin <==> b@ is FidelityBondCoin
            &&& a@ is HashlockContract <==> b@ is HashlockContract
            &&& a@ is TimelockContract <==> b@ is TimelockContract
            &&& a@ is IncomingSwapCoin <==> b@ is IncomingSwapCoin
        },
        r@ == "regular"@ <==> a@ is SeedCoin,
        r@ == "swept-incoming-swap"@ <==> a@ is SweptCoin,
        r@ == "fidelity-bond"@ <==> a@ is FidelityBondCoin,
        r@ == "timelock-contract"@ <==> a@ is TimelockContract,
        r@ == "hashlock-contract"@ <==> a@ is HashlockContract,
        r@ == "incoming-swap"@ <==> a@ is IncomingSwapCoin,
        r@ == "outgoing-swap"@ <==> a@ is OutgoingSwapCoin,
{
    reveal_strlit("regular");
    reveal_strlit("swept-incoming-swap");
    reveal_strlit("fidelity-bond");
    reveal_strlit("hashlock-contract");
    reveal_strlit("timelock-contract");
    reveal_strlit("incoming-swap");
    reveal_strlit("outgoing-swap");
    assert(r@ == s@ ==> r@.len() == s@.len() && r@[0] == s@[0]);
    assert("regular"@.len() == 7 && "swept-incoming-swap"@.len() == 19);
    assert("hashlock-contract"@.len() == 17 && "timelock-contract"@.len() == 17);
    assert("fidelity-bond"@.len() == 13 && "incoming-swap"@.len() == 13);
    assert("outgoing-swap"@.len() == 13);
    assert("hashlock-contract"@[0] != "timelock-contract"@[0]);
    assert("fidelity-bond"@[0] != "incoming-swap"@[0]);
    assert("fidelity-bond"@[0] != "outgoing-swap"@[0]);
    assert("incoming-swap"@[0] != "outgoing-swap"@[0]);
}

/// A coin of the seed and a swept coin on the same kind of address take the same witness, a taproot
/// witness is the smaller one, and a contract takes a larger witness with a preimage than without.
pub proof fn law_witness_sizes(
    seed: UTXOSpendInfo,
    swept: UTXOSpendInfo,
    timelock: UTXOSpendInfo,
    hashlock: UTXOSpendInfo,
    a: usize,
    b: usize,
    c: usize,
    d: usize,
)
    requires
        seed@ is SeedCoin,
        swept@ is SweptCoin,
        timelock@ is TimelockContract,
        hashlock@ is HashlockContract,
        call_ensures(UTXOSpendInfo::estimate_witness_size, (&seed,), a),
        call_ensures(UTXOSpendInfo::estimate_witness_size, (&swept,), b),
        call_ensures(UTXOSpendInfo::estimate_witness_size, (&timelock,), c),
        call_ensures(UTXOSpendInfo::estimate_witness_size, (&hashlock,), d),
    ensures
        a == b <==> seed@->SeedCoin_address_type == swept@->SweptCoin_address_type,
        seed@->SeedCoin_address_type is P2TR && swept@->SweptCoin_address_type is P2WPKH ==> a < b,
        a < c < d,
        b < c,
{
}

} // verus!
