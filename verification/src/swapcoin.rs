//! The coins of a swap.

use crate::keys::{compute_txid, transaction_id, without_witnesses};
use crate::text::{hex, hex_text};
use crate::types::{
    clone_script_option, script_option, text_option, OutPoint, ProtocolVersion, Script, Transaction,
    TransactionView, Txid,
};
use vstd::prelude::*;

verus! {

/// A coin of a swap: the contract transaction, the keys and what is known of the hashlock.
#[derive(Debug)]
pub struct SwapCoin {
    pub swap_id: Option<String>,
    pub protocol: ProtocolVersion,
    pub contract_tx: Transaction,
    /// The output of the contract transaction that holds the contract.
    pub contract_vout: u32,
    pub contract_redeemscript: Option<Script>,
    pub my_pubkey: Option<[u8; 33]>,
    pub other_pubkey: Option<[u8; 33]>,
    pub my_privkey: Option<[u8; 32]>,
    pub other_privkey: Option<[u8; 32]>,
    pub hash_preimage: Option<[u8; 32]>,
    pub others_contract_sig: Option<Vec<u8>>,
    /// The value of the funding output in satoshis.
    pub funding_amount: u64,
    /// The timelock of the contract: blocks for a legacy contract, a height for a taproot one.
    pub timelock: Option<u32>,
}

/// A swap coin that is paid to the wallet.
pub type IncomingSwapCoin = SwapCoin;

/// A swap coin that the wallet pays.
pub type OutgoingSwapCoin = SwapCoin;

#[verifier::ext_equal]
pub struct SwapCoinView {
    pub swap_id: Option<Seq<char>>,
    pub protocol: ProtocolVersion,
    pub contract_tx: TransactionView,
    pub contract_vout: u32,
    pub contract_redeemscript: Option<Seq<u8>>,
    pub my_pubkey: Option<[u8; 33]>,
    pub other_pubkey: Option<[u8; 33]>,
    pub my_privkey: Option<[u8; 32]>,
    pub other_privkey: Option<[u8; 32]>,
    pub hash_preimage: Option<[u8; 32]>,
    pub others_contract_sig: Option<Seq<u8>>,
    pub funding_amount: u64,
    pub timelock: Option<u32>,
}

pub open spec fn bytes_option(bytes: Option<Vec<u8>>) -> Option<Seq<u8>> {
    match bytes {
        Some(b) => Some(b@),
        None => None,
    }
}

impl View for SwapCoin {
    type V = SwapCoinView;

    open spec fn view(&self) -> SwapCoinView {
        SwapCoinView {
            swap_id: text_option(self.swap_id),
            protocol: self.protocol,
            contract_tx: self.contract_tx@,
            contract_vout: self.contract_vout,
            contract_redeemscript: script_option(self.contract_redeemscript),
            my_pubkey: self.my_pubkey,
            other_pubkey: self.other_pubkey,
            my_privkey: self.my_privkey,
            other_privkey: self.other_privkey,
            hash_preimage: self.hash_preimage,
            others_contract_sig: bytes_option(self.others_contract_sig),
            funding_amount: self.funding_amount,
            timelock: self.timelock,
        }
    }
}

impl Clone for SwapCoin {
    fn clone(&self) -> (r: Self)
        ensures
            r@ == self@,
    {
        SwapCoin {
            swap_id: self.swap_id.clone(),
            protocol: self.protocol,
            contract_tx: self.contract_tx.clone(),
            contract_vout: self.contract_vout,
            contract_redeemscript: clone_script_option(&self.contract_redeemscript),
            my_pubkey: self.my_pubkey,
            other_pubkey: self.other_pubkey,
            my_privkey: self.my_privkey,
            other_privkey: self.other_privkey,
            hash_preimage: self.hash_preimage,
            others_contract_sig: match &self.others_contract_sig {
                Some(sig) => Some(sig.clone()),
                None => None,
            },
            funding_amount: self.funding_amount,
            timelock: self.timelock,
        }
    }
}

/// The text of a transaction id: its bytes backwards, in hexadecimal.
pub open spec fn txid_text(txid: Txid) -> Seq<char> {
    hex(txid.bytes@.reverse())
}

/// Writes a transaction id.
pub fn write_txid(txid: &Txid) -> (r: String)
    ensures
        r@ == txid_text(*txid),
{
    let mut backwards: Vec<u8> = Vec::new();
    let mut i: usize = 0;
    while i < 32
        invariant
            i <= 32,
            backwards.len() == i,
            forall|k: int| 0 <= k < i ==> backwards@[k] == txid.bytes@[31 - k],
        decreases 32 - i,
    {
        backwards.push(txid.bytes[31 - i]);
        i += 1;
    }
    assert(backwards@ =~= txid.bytes@.reverse());
    hex_text(&backwards)
}

/// The bytes `a` come before the bytes `b` in lexicographic order.
pub open spec fn bytes_before(a: Seq<u8>, b: Seq<u8>) -> bool
    decreases a.len(),
{
    if b.len() == 0 {
        false
    } else if a.len() == 0 {
        true
    } else if a[0] != b[0] {
        a[0] < b[0]
    } else {
        bytes_before(a.skip(1), b.skip(1))
    }
}

/// The 2-of-2 multisig script of two keys, the smaller key first.
pub open spec fn multisig_script(a: Seq<u8>, b: Seq<u8>) -> Seq<u8> {
    let (first, second) = if bytes_before(b, a) {
        (b, a)
    } else {
        (a, b)
    };
    seq![0x52u8, 33u8] + first + seq![33u8] + second + seq![0x52u8, 0xaeu8]
}

pub proof fn lemma_bytes_before(a: Seq<u8>, b: Seq<u8>, i: int)
    requires
        a.len() == b.len(),
        0 <= i < a.len(),
        forall|k: int| 0 <= k < i ==> a[k] == b[k],
        a[i] != b[i],
    ensures
        bytes_before(a, b) == (a[i] < b[i]),
    decreases i,
{
    if i > 0 {
        let (x, y) = (a.skip(1), b.skip(1));
        assert forall|k: int| 0 <= k < i - 1 implies x[k] == y[k] by {
            assert(x[k] == a[k + 1] && y[k] == b[k + 1]);
        }
        lemma_bytes_before(x, y, i - 1);
    }
}

pub proof fn lemma_not_before_itself(a: Seq<u8>)
    ensures
        !bytes_before(a, a),
    decreases a.len(),
{
    if a.len() > 0 {
        lemma_not_before_itself(a.skip(1));
    }
}

/// Whether key `a` comes before key `b`.
fn key_before(a: &[u8; 33], b: &[u8; 33]) -> (r: bool)
    ensures
        r == bytes_before(a@, b@),
{
    let mut i: usize = 0;
    while i < 33
        invariant
            i <= 33,
            forall|k: int| 0 <= k < i ==> a@[k] == b@[k],
        decreases 33 - i,
    {
        if a[i] != b[i] {
            proof {
                lemma_bytes_before(a@, b@, i as int);
            }
            return a[i] < b[i];
        }
        i += 1;
    }
    proof {
        assert(a@ =~= b@);
        lemma_not_before_itself(a@);
    }
    false
}

fn push_key(bytes: &mut Vec<u8>, key: &[u8; 33])
    ensures
        final(bytes)@ == old(bytes)@ + key@,
{
    let ghost before = bytes@;
    let mut i: usize = 0;
    while i < 33
        invariant
            i <= 33,
            bytes@ == before + key@.take(i as int),
        decreases 33 - i,
    {
        bytes.push(key[i]);
        proof {
            assert(key@.take(i + 1) =~= key@.take(i as int).push(key@[i as int]));
            assert(bytes@ =~= before + key@.take(i + 1));
        }
        i += 1;
    }
    assert(key@.take(33) =~= key@);
}

/// Builds the 2-of-2 multisig script of two keys.
pub fn create_multisig_redeemscript(a: &[u8; 33], b: &[u8; 33]) -> (r: Script)
    ensures
        r@ == multisig_script(a@, b@),
{
    let (first, second) = if key_before(b, a) {
        (b, a)
    } else {
        (a, b)
    };
    let mut bytes: Vec<u8> = Vec::new();
    bytes.push(0x52);
    bytes.push(33);
    assert(bytes@ =~= seq![0x52u8, 33u8]);
    push_key(&mut bytes, first);
    bytes.push(33);
    push_key(&mut bytes, second);
    bytes.push(0x52);
    bytes.push(0xae);
    assert(bytes@ =~= multisig_script(a@, b@));
    Script { bytes }
}

impl SwapCoinView {
    /// The id of the contract transaction.
    pub open spec fn contract_txid(self) -> Txid {
        transaction_id(without_witnesses(self.contract_tx))
    }

    /// The key under which the wallet keeps the coin.
    pub open spec fn key(self) -> Seq<char> {
        txid_text(self.contract_txid())
    }

    /// The output that holds the contract.
    pub open spec fn contract_outpoint(self) -> OutPoint {
        OutPoint { txid: self.contract_txid(), vout: self.contract_vout }
    }

    /// The funding multisig script of a legacy coin, where both keys are known.
    pub open spec fn multisig(self) -> Option<Seq<u8>> {
        match (self.protocol, self.my_pubkey, self.other_pubkey) {
            (ProtocolVersion::Legacy, Some(mine), Some(other)) => Some(
                multisig_script(mine@, other@),
            ),
            _ => None,
        }
    }

    pub open spec fn is_preimage_known(self) -> bool {
        self.hash_preimage is Some
    }
}

impl SwapCoin {
    /// The id of the contract transaction.
    pub fn contract_txid(&self) -> (r: Txid)
        ensures
            r == self@.contract_txid(),
    {
        compute_txid(&self.contract_tx)
    }

    /// Whether the hash preimage is known.
    pub fn is_preimage_known(&self) -> (r: bool)
        ensures
            r == self@.is_preimage_known(),
    {
        self.hash_preimage.is_some()
    }

    /// Whether the coin is a legacy coin funded by this multisig script.
    pub fn has_multisig(&self, script: &Script) -> (r: bool)
        ensures
            r == (self@.multisig() == Some(script@)),
    {
        if self.protocol != ProtocolVersion::Legacy {
            return false;
        }
        match (self.my_pubkey, self.other_pubkey) {
            (Some(mine), Some(other)) => create_multisig_redeemscript(&mine, &other) == *script,
            _ => false,
        }
    }
}

/// A swap coin of others that is only watched: the bytes it is stored as.
#[derive(Debug)]
pub struct WatchOnlySwapCoin {
    pub bytes: Vec<u8>,
}

/// The order of the keys makes no difference to a multisig script.
pub proof fn law_multisig_ignores_key_order(a: [u8; 33], b: [u8; 33])
    ensures
        multisig_script(a@, b@) == multisig_script(b@, a@),
{
    if a@ != b@ {
        lemma_before_is_total(a@, b@);
    }
}

pub proof fn lemma_before_is_total(a: Seq<u8>, b: Seq<u8>)
    requires
        a.len() == b.len(),
        a != b,
    ensures
        bytes_before(a, b) != bytes_before(b, a),
    decreases a.len(),
{
    if a.len() == 0 {
        assert(a =~= b);
    } else if a[0] == b[0] {
        if a.skip(1) == b.skip(1) {
            assert(a =~= seq![a[0]] + a.skip(1));
            assert(b =~= seq![b[0]] + b.skip(1));
        }
        lemma_before_is_total(a.skip(1), b.skip(1));
    }
}

} // verus!
