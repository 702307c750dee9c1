//! Bitcoin data as plain values: identifiers, scripts and transactions.

use vstd::prelude::*;

verus! {

/// A transaction id: the 32 hash bytes in the order in which they are serialised.
#[derive(Debug, Clone, Copy, Eq, Hash)]
pub struct Txid {
    pub bytes: [u8; 32],
}

impl PartialEq for Txid {
    fn eq(&self, other: &Self) -> (r: bool) {
        let mut i: usize = 0;
        while i < 32
            invariant
                i <= 32,
                forall|k: int| 0 <= k < i ==> self.bytes@[k] == other.bytes@[k],
            decreases 32 - i,
        {
            if self.bytes[i] != other.bytes[i] {
                return false;
            }
            i += 1;
        }
        assert(self.bytes@ =~= other.bytes@);
        assert(self.bytes =~= other.bytes);
        true
    }
}

impl vstd::std_specs::cmp::PartialEqSpecImpl for Txid {
    open spec fn obeys_eq_spec() -> bool {
        true
    }

    open spec fn eq_spec(&self, other: &Self) -> bool {
        *self == *other
    }
}

/// One output of one transaction.
#[derive(Debug, Clone, Copy, Eq, Hash)]
pub struct OutPoint {
    pub txid: Txid,
    pub vout: u32,
}

impl PartialEq for OutPoint {
    fn eq(&self, other: &Self) -> (r: bool) {
        self.txid == other.txid && self.vout == other.vout
    }
}

impl vstd::std_specs::cmp::PartialEqSpecImpl for OutPoint {
    open spec fn obeys_eq_spec() -> bool {
        true
    }

    open spec fn eq_spec(&self, other: &Self) -> bool {
        *self == *other
    }
}

impl OutPoint {
    pub fn new(txid: Txid, vout: u32) -> (r: Self)
        ensures
            r == (OutPoint { txid, vout }),
    {
        OutPoint { txid, vout }
    }
}

/// Whether `outpoint` is one of `list`.
pub fn contains_outpoint(list: &Vec<OutPoint>, outpoint: &OutPoint) -> (r: bool)
    ensures
        r == list@.contains(*outpoint),
{
    let mut i: usize = 0;
    while i < list.len()
        invariant
            i <= list.len(),
            forall|k: int| 0 <= k < i ==> list@[k] != *outpoint,
        decreases list.len() - i,
    {
        if list[i] == *outpoint {
            return true;
        }
        i += 1;
    }
    false
}

/// Compares two byte strings.
pub fn bytes_equal(a: &Vec<u8>, b: &Vec<u8>) -> (r: bool)
    ensures
        r == (a@ == b@),
{
    if a.len() != b.len() {
        return false;
    }
    let mut i: usize = 0;
    while i < a.len()
        invariant
            a.len() == b.len(),
            i <= a.len(),
            forall|k: int| 0 <= k < i ==> a@[k] == b@[k],
        decreases a.len() - i,
    {
        if a[i] != b[i] {
            return false;
        }
        i += 1;
    }
    assert(a@ =~= b@);
    true
}

/// A script as serialised bytes.
#[derive(Debug, Eq, Hash)]
pub struct Script {
    pub bytes: Vec<u8>,
}

impl View for Script {
    type V = Seq<u8>;

    open spec fn view(&self) -> Seq<u8> {
        self.bytes@
    }
}

impl Clone for Script {
    fn clone(&self) -> (r: Self)
        ensures
            r@ == self@,
    {
        Script { bytes: self.bytes.clone() }
    }
}

impl PartialEq for Script {
    fn eq(&self, other: &Self) -> (r: bool) {
        bytes_equal(&self.bytes, &other.bytes)
    }
}

impl vstd::std_specs::cmp::PartialEqSpecImpl for Script {
    open spec fn obeys_eq_spec() -> bool {
        true
    }

    open spec fn eq_spec(&self, other: &Self) -> bool {
        self@ == other@
    }
}

impl Script {
    /// The empty script.
    pub fn new() -> (r: Self)
        ensures
            r@ == Seq::<u8>::empty(),
    {
        Script { bytes: Vec::new() }
    }
}

impl Default for Script {
    fn default() -> (r: Self)
        ensures
            r@ == Seq::<u8>::empty(),
    {
        Script::new()
    }
}

/// The script inside an option, as bytes.
pub open spec fn script_option(s: Option<Script>) -> Option<Seq<u8>> {
    match s {
        Some(script) => Some(script@),
        None => None,
    }
}

/// The text inside an option.
pub open spec fn text_option(s: Option<String>) -> Option<Seq<char>> {
    match s {
        Some(text) => Some(text@),
        None => None,
    }
}

/// A copy of an optional script.
pub fn clone_script_option(s: &Option<Script>) -> (r: Option<Script>)
    ensures
        script_option(r) == script_option(*s),
{
    match s {
        Some(script) => Some(script.clone()),
        None => None,
    }
}

/// The views of a list of byte strings.
pub open spec fn byte_strings(list: Seq<Vec<u8>>) -> Seq<Seq<u8>> {
    list.map_values(|b: Vec<u8>| b@)
}

/// A copy of a list of byte strings.
pub fn clone_byte_strings(list: &Vec<Vec<u8>>) -> (r: Vec<Vec<u8>>)
    ensures
        byte_strings(r@) == byte_strings(list@),
{
    let mut r: Vec<Vec<u8>> = Vec::new();
    let mut i: usize = 0;
    while i < list.len()
        invariant
            i <= list.len(),
            r.len() == i,
            forall|k: int| 0 <= k < i ==> (#[trigger] r@[k])@ == list@[k]@,
        decreases list.len() - i,
    {
        r.push(list[i].clone());
        i += 1;
    }
    assert(byte_strings(r@) =~= byte_strings(list@));
    r
}

/// A transaction output.
#[derive(Debug)]
pub struct TxOut {
    /// The value in satoshis.
    pub value: u64,
    pub script_pubkey: Script,
}

#[verifier::ext_equal]
pub struct TxOutView {
    pub value: u64,
    pub script_pubkey: Seq<u8>,
}

impl View for TxOut {
    type V = TxOutView;

    open spec fn view(&self) -> TxOutView {
        TxOutView { value: self.value, script_pubkey: self.script_pubkey@ }
    }
}

impl Clone for TxOut {
    fn clone(&self) -> (r: Self)
        ensures
            r@ == self@,
    {
        TxOut { value: self.value, script_pubkey: self.script_pubkey.clone() }
    }
}

/// A transaction input.
#[derive(Debug)]
pub struct TxIn {
    pub previous_output: OutPoint,
    pub script_sig: Script,
    pub sequence: u32,
    pub witness: Vec<Vec<u8>>,
}

#[verifier::ext_equal]
pub struct TxInView {
    pub previous_output: OutPoint,
    pub script_sig: Seq<u8>,
    pub sequence: u32,
    pub witness: Seq<Seq<u8>>,
}

impl View for TxIn {
    type V = TxInView;

    open spec fn view(&self) -> TxInView {
        TxInView {
            previous_output: self.previous_output,
            script_sig: self.script_sig@,
            sequence: self.sequence,
            witness: byte_strings(self.witness@),
        }
    }
}

impl Clone for TxIn {
    fn clone(&self) -> (r: Self)
        ensures
            r@ == self@,
    {
        TxIn {
            previous_output: self.previous_output,
            script_sig: self.script_sig.clone(),
            sequence: self.sequence,
            witness: clone_byte_strings(&self.witness),
        }
    }
}

/// A transaction.
#[derive(Debug)]
pub struct Transaction {
    pub version: i32,
    pub lock_time: u32,
    pub input: Vec<TxIn>,
    pub output: Vec<TxOut>,
}

#[verifier::ext_equal]
pub struct TransactionView {
    pub version: i32,
    pub lock_time: u32,
    pub input: Seq<TxInView>,
    pub output: Seq<TxOutView>,
}

pub open spec fn inputs_view(input: Seq<TxIn>) -> Seq<TxInView> {
    input.map_values(|i: TxIn| i@)
}

pub open spec fn outputs_view(output: Seq<TxOut>) -> Seq<TxOutView> {
    output.map_values(|o: TxOut| o@)
}

impl View for Transaction {
    type V = TransactionView;

    open spec fn view(&self) -> TransactionView {
        TransactionView {
            version: self.version,
            lock_time: self.lock_time,
            input: inputs_view(self.input@),
            output: outputs_view(self.output@),
        }
    }
}

impl Clone for Transaction {
    fn clone(&self) -> (r: Self)
        ensures
            r@ == self@,
    {
        let mut input: Vec<TxIn> = Vec::new();
        let mut i: usize = 0;
        while i < self.input.len()
            invariant
                i <= self.input.len(),
                input.len() == i,
                forall|k: int| 0 <= k < i ==> (#[trigger] input@[k])@ == self.input@[k]@,
            decreases self.input.len() - i,
        {
            input.push(self.input[i].clone());
            i += 1;
        }
        let mut output: Vec<TxOut> = Vec::new();
        let mut j: usize = 0;
        while j < self.output.len()
            invariant
                j <= self.output.len(),
                output.len() == j,
                forall|k: int| 0 <= k < j ==> (#[trigger] output@[k])@ == self.output@[k]@,
            decreases self.output.len() - j,
        {
            output.push(self.output[j].clone());
            j += 1;
        }
        assert(inputs_view(input@) =~= inputs_view(self.input@));
        assert(outputs_view(output@) =~= outputs_view(self.output@));
        Transaction { version: self.version, lock_time: self.lock_time, input, output }
    }
}

/// The kind of address that a wallet coin pays to.
#[derive(Debug, Clone, Copy, PartialEq, Eq, PartialOrd, Ord, Hash, Structural)]
pub enum AddressType {
    P2WPKH,
    P2TR,
}

/// The swap protocol that a swap coin belongs to.
#[derive(Debug, Clone, Copy, PartialEq, Eq, Structural)]
pub enum ProtocolVersion {
    /// ECDSA contracts with a relative timelock.
    Legacy,
    /// Taproot contracts with an absolute timelock.
    Taproot,
}

/// The Bitcoin network that a wallet lives on.
#[derive(Debug, Clone, Copy, PartialEq, Eq, Structural)]
pub enum Network {
    Bitcoin,
    Testnet,
    Testnet4,
    Signet,
    Regtest,
}

/// The branch of an account that a key is derived on.
///
/// Each kind stands for an unhardened index, starting with `External` at 0.
#[derive(Debug, Clone, Copy, PartialEq, Eq, PartialOrd, Ord, Hash, Structural)]
pub enum KeychainKind {
    External,
    Internal,
}

impl KeychainKind {
    pub open spec fn spec_index_num(&self) -> u32 {
        match self {
            KeychainKind::External => 0,
            KeychainKind::Internal => 1,
        }
    }

    /// The unhardened derivation index of the branch.
    pub fn index_num(&self) -> (r: u32)
        ensures
            r == self.spec_index_num(),
    {
        match self {
            KeychainKind::External => 0,
            KeychainKind::Internal => 1,
        }
    }
}

} // verus!
