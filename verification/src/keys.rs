//! Keys, scripts and signatures: the calls into the Bitcoin library.

use crate::types::{
    inputs_view, outputs_view, Network, Script, Transaction, TransactionView, TxIn, TxInView, TxOut,
    TxOutView, Txid,
};
use bdk_chain::miniscript::descriptor::checksum::desc_checksum;
use bdk_chain::miniscript::{Descriptor, DescriptorPublicKey};
use bip39::{Language, Mnemonic};
use bitcoin::absolute::LockTime;
use bitcoin::bip32::{ChildNumber, DerivationPath, Xpriv, Xpub};
use bitcoin::hashes;
use bitcoin::key::{Keypair, TapTweak, XOnlyPublicKey};
use bitcoin::secp256k1::{Message, Secp256k1, SecretKey};
use bitcoin::sighash::{EcdsaSighashType, Prevouts, SighashCache, TapSighashType};
use bitcoin::transaction::Version;
use bitcoin::{
    Address, Amount, Network as RawNetwork, NetworkKind, OutPoint as RawOutPoint, PublicKey,
    Script as RawScript, ScriptBuf, Sequence, Transaction as RawTransaction, TxIn as RawTxIn,
    TxOut as RawTxOut, Witness,
};
use std::str::FromStr;
use vstd::prelude::*;

verus! {

/// An extended private key in its serialised form: version, depth, parent fingerprint, child
/// number, chain code and, in the last 32 bytes, the private key.
#[derive(Debug, Clone, Copy)]
pub struct ExtendedKey {
    pub bytes: [u8; 78],
}

/// The private key inside a serialised extended key.
pub open spec fn private_key(key: ExtendedKey) -> Seq<u8> {
    key.bytes@.subrange(46, 78)
}

impl ExtendedKey {
    /// The private key inside.
    pub fn private_key(&self) -> (r: [u8; 32])
        ensures
            r@ == private_key(*self),
    {
        let mut r: [u8; 32] = [0; 32];
        let mut i: usize = 0;
        while i < 32
            invariant
                i <= 32,
                forall|k: int| 0 <= k < i ==> r@[k] == self.bytes@[k + 46],
            decreases 32 - i,
        {
            r[i] = self.bytes[i + 46];
            i += 1;
        }
        assert(r@ =~= private_key(*self));
        r
    }
}

impl PartialEq for ExtendedKey {
    fn eq(&self, other: &Self) -> (r: bool) {
        let mut i: usize = 0;
        while i < 78
            invariant
                i <= 78,
                forall|k: int| 0 <= k < i ==> self.bytes@[k] == other.bytes@[k],
            decreases 78 - i,
        {
            if self.bytes[i] != other.bytes[i] {
                return false;
            }
            i += 1;
        }
        assert(self.bytes@ =~= other.bytes@);
        assert(self.bytes =~= other.bytes);
        true
    }
}

impl vstd::std_specs::cmp::PartialEqSpecImpl for ExtendedKey {
    open spec fn obeys_eq_spec() -> bool {
        true
    }

    open spec fn eq_spec(&self, other: &Self) -> bool {
        *self == *other
    }
}

/// What `Xpriv::new_master` makes of a seed, for the main network or for a test network.
pub uninterp spec fn master_key(is_main: bool, seed: Seq<u8>) -> Option<ExtendedKey>;

/// The entropy that English words stand for, by `Mnemonic::to_entropy`.
pub uninterp spec fn mnemonic_entropy(words: Seq<char>) -> Option<Seq<u8>>;

/// The child numbers that `DerivationPath::from_str` reads from a path.
pub uninterp spec fn path_steps(path: Seq<char>) -> Option<Seq<u32>>;

/// The key that `Xpriv::derive_priv` derives along a list of child numbers.
pub uninterp spec fn derived_key(key: ExtendedKey, steps: Seq<u32>) -> Option<ExtendedKey>;

/// The fingerprint of `Xpriv::fingerprint`, in hexadecimal.
pub uninterp spec fn key_fingerprint(key: ExtendedKey) -> Option<Seq<char>>;

/// The text of the extended public key that `Xpub::from_priv` makes.
pub uninterp spec fn public_key_text(key: ExtendedKey) -> Option<Seq<char>>;

/// The compressed public key of a private key, by `SecretKey::public_key`.
pub uninterp spec fn public_key(secret: Seq<u8>) -> Option<Seq<u8>>;

/// The x-only public key of a private key, by `Keypair::x_only_public_key`.
pub uninterp spec fn x_only_key(secret: Seq<u8>) -> Option<Seq<u8>>;

/// The private key that `Keypair::tap_tweak` makes for spending without a script tree.
pub uninterp spec fn tweaked_key(secret: Seq<u8>) -> Option<Seq<u8>>;

/// The output script of `ScriptBuf::new_p2wpkh` for the hash of a compressed public key.
pub uninterp spec fn p2wpkh_script(public_key: Seq<u8>) -> Option<Seq<u8>>;

/// The output script of `ScriptBuf::new_p2tr` for an internal key without a script tree.
pub uninterp spec fn p2tr_script(x_only_key: Seq<u8>) -> Option<Seq<u8>>;

/// The output script of `Script::to_p2wsh`.
pub uninterp spec fn p2wsh_script(witness_script: Seq<u8>) -> Seq<u8>;

/// The text of a script: its opcodes, as `Display` writes them.
pub uninterp spec fn script_text(script: Seq<u8>) -> Seq<char>;

/// The output script of the address that `Address::from_str` reads, where `require_network` accepts
/// it for the network.
pub uninterp spec fn address_script(address: Seq<char>, network: Network) -> Option<Seq<u8>>;

/// The checksum of `desc_checksum`.
pub uninterp spec fn descriptor_checksum(descriptor: Seq<char>) -> Option<Seq<char>>;

/// The text of the public descriptor that `Descriptor::from_str` reads, as `Display` writes it.
pub uninterp spec fn parsed_descriptor(descriptor: Seq<char>) -> Option<Seq<char>>;

/// The id of `Transaction::compute_txid`.
pub uninterp spec fn transaction_id(tx: TransactionView) -> Txid;

/// The digest of `SighashCache::p2wpkh_signature_hash` with `SIGHASH_ALL`.
pub uninterp spec fn p2wpkh_sighash(
    tx: TransactionView,
    index: usize,
    script_pubkey: Seq<u8>,
    value: u64,
) -> Option<Seq<u8>>;

/// The digest of `SighashCache::p2wsh_signature_hash` with `SIGHASH_ALL`.
pub uninterp spec fn p2wsh_sighash(
    tx: TransactionView,
    index: usize,
    witness_script: Seq<u8>,
    value: u64,
) -> Option<Seq<u8>>;

/// The digest of `SighashCache::taproot_key_spend_signature_hash` with the default type.
pub uninterp spec fn taproot_sighash(
    tx: TransactionView,
    index: usize,
    prevouts: Seq<TxOutView>,
) -> Option<Seq<u8>>;

/// The signature of `Secp256k1::sign_ecdsa_low_r`, DER-encoded.
pub uninterp spec fn ecdsa_signature(digest: Seq<u8>, secret: Seq<u8>) -> Option<Seq<u8>>;

/// `Secp256k1::verify_schnorr` accepts a signature.
pub uninterp spec fn schnorr_verifies(
    signature: Seq<u8>,
    digest: Seq<u8>,
    x_only_key: Seq<u8>,
) -> bool;

/// A transaction without the witnesses of its inputs.
pub open spec fn without_witnesses(tx: TransactionView) -> TransactionView {
    TransactionView {
        input: tx.input.map_values(
            |i: TxInView| TxInView { witness: Seq::empty(), ..i },
        ),
        ..tx
    }
}

/// A transaction without the witnesses and the script signatures of its inputs.
pub open spec fn unsigned(tx: TransactionView) -> TransactionView {
    TransactionView {
        input: tx.input.map_values(
            |i: TxInView| TxInView { witness: Seq::empty(), script_sig: Seq::empty(), ..i },
        ),
        ..tx
    }
}

/// The transaction made of these parts.
pub open spec fn transaction_view(
    version: i32,
    lock_time: u32,
    input: Seq<TxIn>,
    output: Seq<TxOut>,
) -> TransactionView {
    TransactionView {
        version,
        lock_time,
        input: inputs_view(input),
        output: outputs_view(output),
    }
}

/// `Xpriv::new_master`. Fails where the seed leads to no valid key.
#[verifier::external_body]
pub(crate) fn new_master_key(is_main: bool, seed: &Vec<u8>) -> (r: Result<ExtendedKey, String>)
    ensures
        match r {
            Ok(key) => master_key(is_main, seed@) == Some(key),
            Err(_) => master_key(is_main, seed@) is None,
        },
{
    let network = if is_main { NetworkKind::Main } else { NetworkKind::Test };
    match Xpriv::new_master(network, seed) {
        Ok(key) => Ok(ExtendedKey { bytes: key.encode() }),
        Err(e) => Err(e.to_string()),
    }
}

/// `Mnemonic::generate` with twelve words, as text. The words are random; they can be read back and
/// stand for sixteen bytes of entropy. It fails only for a number of words other than twelve,
/// fifteen, eighteen, twenty-one and twenty-four.
#[verifier::external_body]
pub(crate) fn generate_mnemonic() -> (r: Result<String, String>)
    ensures
        r is Ok,
        mnemonic_entropy(r->Ok_0@) is Some,
        mnemonic_entropy(r->Ok_0@)->0.len() == 16,
{
    match Mnemonic::generate(12) {
        Ok(mnemonic) => Ok(mnemonic.to_string()),
        Err(e) => Err(e.to_string()),
    }
}

/// `Mnemonic::parse_in_normalized` in English, and `Mnemonic::to_entropy` of what it read. Fails
/// where a word is unknown, or their number or their checksum is wrong.
#[verifier::external_body]
pub(crate) fn entropy_of_mnemonic(words: &str) -> (r: Result<Vec<u8>, String>)
    ensures
        match r {
            Ok(entropy) => mnemonic_entropy(words@) == Some(entropy@),
            Err(_) => mnemonic_entropy(words@) is None,
        },
{
    match Mnemonic::parse_in_normalized(Language::English, words) {
        Ok(mnemonic) => Ok(mnemonic.to_entropy()),
        Err(e) => Err(e.to_string()),
    }
}

/// `DerivationPath::from_str`. Fails where a part of the path is no child number.
#[verifier::external_body]
pub(crate) fn parse_path(path: &str) -> (r: Result<Vec<u32>, String>)
    ensures
        match r {
            Ok(steps) => path_steps(path@) == Some(steps@),
            Err(_) => path_steps(path@) is None,
        },
{
    match DerivationPath::from_str(path) {
        Ok(steps) => Ok(steps.to_u32_vec()),
        Err(e) => Err(e.to_string()),
    }
}

/// `Xpriv::derive_priv`. Fails where the bytes are no extended private key or the depth would
/// exceed its byte. It would panic on a hash that is no valid key, which its source calls
/// statistically impossible.
#[verifier::external_body]
pub(crate) fn derive_key(key: &ExtendedKey, steps: &Vec<u32>) -> (r: Result<ExtendedKey, String>)
    ensures
        match r {
            Ok(child) => derived_key(*key, steps@) == Some(child),
            Err(_) => derived_key(*key, steps@) is None,
        },
{
    let path: Vec<ChildNumber> = steps.iter().map(|s| ChildNumber::from(*s)).collect();
    match Xpriv::decode(&key.bytes).and_then(|k| k.derive_priv(&Secp256k1::new(), &path)) {
        Ok(child) => Ok(ExtendedKey { bytes: child.encode() }),
        Err(e) => Err(e.to_string()),
    }
}

/// `Xpriv::fingerprint`. Fails where the bytes are no extended private key.
#[verifier::external_body]
pub(crate) fn fingerprint(key: &ExtendedKey) -> (r: Result<String, String>)
    ensures
        match r {
            Ok(text) => key_fingerprint(*key) == Some(text@),
            Err(_) => key_fingerprint(*key) is None,
        },
{
    match Xpriv::decode(&key.bytes) {
        Ok(k) => Ok(k.fingerprint(&Secp256k1::new()).to_string()),
        Err(e) => Err(e.to_string()),
    }
}

/// `Xpub::from_priv`. Fails where the bytes are no extended private key.
#[verifier::external_body]
pub(crate) fn extended_public_key(key: &ExtendedKey) -> (r: Result<String, String>)
    ensures
        match r {
            Ok(text) => public_key_text(*key) == Some(text@),
            Err(_) => public_key_text(*key) is None,
        },
{
    match Xpriv::decode(&key.bytes) {
        Ok(k) => Ok(Xpub::from_priv(&Secp256k1::new(), &k).to_string()),
        Err(e) => Err(e.to_string()),
    }
}

/// `SecretKey::public_key`, in its compressed form of 33 bytes. Fails where the bytes are no valid
/// private key.
#[verifier::external_body]
pub(crate) fn compressed_public_key(secret: &[u8; 32]) -> (r: Result<Vec<u8>, String>)
    ensures
        match r {
            Ok(key) => public_key(secret@) == Some(key@) && key@.len() == 33,
            Err(_) => public_key(secret@) is None,
        },
{
    match SecretKey::from_slice(secret) {
        Ok(key) => Ok(PublicKey::new(key.public_key(&Secp256k1::new())).to_bytes()),
        Err(e) => Err(e.to_string()),
    }
}

/// `Keypair::x_only_public_key`. Fails where the bytes are no valid private key.
#[verifier::external_body]
pub(crate) fn x_only_public_key(secret: &[u8; 32]) -> (r: Result<Vec<u8>, String>)
    ensures
        match r {
            Ok(key) => x_only_key(secret@) == Some(key@),
            Err(_) => x_only_key(secret@) is None,
        },
{
    match SecretKey::from_slice(secret) {
        Ok(key) => {
            let pair = Keypair::from_secret_key(&Secp256k1::new(), &key);
            Ok(pair.x_only_public_key().0.serialize().to_vec())
        },
        Err(e) => Err(e.to_string()),
    }
}

/// `Keypair::tap_tweak` without a script tree. Fails where the bytes are no valid private key.
/// It would panic where the tweak leads to no valid key, which takes a hash collision.
#[verifier::external_body]
pub(crate) fn tap_tweak(secret: &[u8; 32]) -> (r: Result<[u8; 32], String>)
    ensures
        match r {
            Ok(key) => tweaked_key(secret@) == Some(key@),
            Err(_) => tweaked_key(secret@) is None,
        },
{
    match SecretKey::from_slice(secret) {
        Ok(key) => {
            let secp = Secp256k1::new();
            let pair = Keypair::from_secret_key(&secp, &key).tap_tweak(&secp, None);
            Ok(pair.to_keypair().secret_bytes())
        },
        Err(e) => Err(e.to_string()),
    }
}

/// `ScriptBuf::new_p2wpkh` of the key that `CompressedPublicKey::from_slice` reads. Fails where
/// the bytes are no public key; one that is not compressed is read too, and compressed.
#[verifier::external_body]
pub(crate) fn new_p2wpkh(public_key: &Vec<u8>) -> (r: Result<Script, String>)
    ensures
        match r {
            Ok(script) => p2wpkh_script(public_key@) == Some(script@),
            Err(_) => p2wpkh_script(public_key@) is None,
        },
{
    match bitcoin::CompressedPublicKey::from_slice(public_key) {
        Ok(key) => Ok(Script { bytes: ScriptBuf::new_p2wpkh(&key.wpubkey_hash()).into_bytes() }),
        Err(e) => Err(e.to_string()),
    }
}

/// `ScriptBuf::new_p2tr` without a script tree. Fails where the bytes are no x-only public key.
#[verifier::external_body]
pub(crate) fn new_p2tr(x_only_key: &Vec<u8>) -> (r: Result<Script, String>)
    ensures
        match r {
            Ok(script) => p2tr_script(x_only_key@) == Some(script@),
            Err(_) => p2tr_script(x_only_key@) is None,
        },
{
    match XOnlyPublicKey::from_slice(x_only_key) {
        Ok(key) => {
            let script = ScriptBuf::new_p2tr(&Secp256k1::new(), key, None);
            Ok(Script { bytes: script.into_bytes() })
        },
        Err(e) => Err(e.to_string()),
    }
}

/// `Script::to_p2wsh`.
#[verifier::external_body]
pub(crate) fn to_p2wsh(witness_script: &Script) -> (r: Script)
    ensures
        r@ == p2wsh_script(witness_script@),
{
    let script = RawScript::from_bytes(&witness_script.bytes);
    Script { bytes: script.to_p2wsh().into_bytes() }
}

/// `Display` of `Script`.
#[verifier::external_body]
pub(crate) fn display_script(script: &Script) -> (r: String)
    ensures
        r@ == script_text(script@),
{
    RawScript::from_bytes(&script.bytes).to_string()
}

/// `Address::from_str`, then `Address::require_network`. Fails where the text is no address of the
/// network.
#[verifier::external_body]
pub(crate) fn parse_address(address: &str, network: Network) -> (r: Result<Script, String>)
    ensures
        match r {
            Ok(script) => address_script(address@, network) == Some(script@),
            Err(_) => address_script(address@, network) is None,
        },
{
    let network = match network {
        Network::Bitcoin => RawNetwork::Bitcoin,
        Network::Testnet => RawNetwork::Testnet,
        Network::Testnet4 => RawNetwork::Testnet4,
        Network::Signet => RawNetwork::Signet,
        Network::Regtest => RawNetwork::Regtest,
    };
    match Address::from_str(address).and_then(|a| a.require_network(network)) {
        Ok(a) => Ok(Script { bytes: a.script_pubkey().into_bytes() }),
        Err(e) => Err(e.to_string()),
    }
}

/// `desc_checksum`. Fails where the text holds a character that no descriptor has.
#[verifier::external_body]
pub(crate) fn checksum(descriptor: &str) -> (r: Result<String, String>)
    ensures
        match r {
            Ok(sum) => descriptor_checksum(descriptor@) == Some(sum@),
            Err(_) => descriptor_checksum(descriptor@) is None,
        },
{
    match desc_checksum(descriptor) {
        Ok(sum) => Ok(sum),
        Err(e) => Err(e.to_string()),
    }
}

/// `Descriptor::from_str` for a descriptor of public keys, written out again. Fails where the text
/// is no such descriptor.
#[verifier::external_body]
pub(crate) fn parse_descriptor(descriptor: &str) -> (r: Result<String, String>)
    ensures
        match r {
            Ok(text) => parsed_descriptor(descriptor@) == Some(text@),
            Err(_) => parsed_descriptor(descriptor@) is None,
        },
{
    match Descriptor::<DescriptorPublicKey>::from_str(descriptor) {
        Ok(parsed) => Ok(parsed.to_string()),
        Err(e) => Err(e.to_string()),
    }
}

/// `Transaction::compute_txid`. The id does not cover the witnesses.
#[verifier::external_body]
pub(crate) fn compute_txid(tx: &Transaction) -> (r: Txid)
    ensures
        r == transaction_id(without_witnesses(tx@)),
{
    let input = tx.input.iter().map(|i| RawTxIn {
        previous_output: RawOutPoint::new(
            hashes::Hash::from_byte_array(i.previous_output.txid.bytes), i.previous_output.vout),
        script_sig: ScriptBuf::from_bytes(i.script_sig.bytes.clone()),
        sequence: Sequence(i.sequence),
        witness: Witness::default(),
    }).collect();
    let output = tx.output.iter().map(|o| RawTxOut {
        value: Amount::from_sat(o.value),
        script_pubkey: ScriptBuf::from_bytes(o.script_pubkey.bytes.clone()),
    }).collect();
    let lock_time = LockTime::from_consensus(tx.lock_time);
    let raw = RawTransaction { version: Version(tx.version), lock_time, input, output };
    Txid { bytes: hashes::Hash::to_byte_array(raw.compute_txid()) }
}

/// `SighashCache::p2wpkh_signature_hash` with `SIGHASH_ALL`. Fails where there is no such input
/// or the script is no P2WPKH script. The digest covers neither witnesses nor script signatures.
#[verifier::external_body]
pub(crate) fn p2wpkh_digest(tx: &Transaction, index: usize, script: &Script, value: u64) -> (r:
    Option<[u8; 32]>)
    ensures
        match r {
            Some(digest) => p2wpkh_sighash(unsigned(tx@), index, script@, value) == Some(digest@),
            None => p2wpkh_sighash(unsigned(tx@), index, script@, value) is None,
        },
{
    SighashCache::new(RawTransaction {
        version: Version(tx.version),
        lock_time: LockTime::from_consensus(tx.lock_time),
        input: tx.input.iter().map(|i| RawTxIn { previous_output: RawOutPoint::new(
            hashes::Hash::from_byte_array(i.previous_output.txid.bytes), i.previous_output.vout),
            sequence: Sequence(i.sequence), ..RawTxIn::default() }).collect(),
        output: tx.output.iter().map(|o| RawTxOut { value: Amount::from_sat(o.value),
            script_pubkey: ScriptBuf::from_bytes(o.script_pubkey.bytes.clone()) }).collect(),
    }).p2wpkh_signature_hash(index, RawScript::from_bytes(&script.bytes),
        Amount::from_sat(value), EcdsaSighashType::All)
        .ok().map(hashes::Hash::to_byte_array)
}

/// `SighashCache::p2wsh_signature_hash` with `SIGHASH_ALL`. Fails where there is no such input.
/// The digest covers neither witnesses nor script signatures.
#[verifier::external_body]
pub(crate) fn p2wsh_digest(tx: &Transaction, index: usize, script: &Script, value: u64) -> (r:
    Option<[u8; 32]>)
    ensures
        match r {
            Some(digest) => p2wsh_sighash(unsigned(tx@), index, script@, value) == Some(digest@),
            None => p2wsh_sighash(unsigned(tx@), index, script@, value) is None,
        },
{
    SighashCache::new(RawTransaction {
        version: Version(tx.version),
        lock_time: LockTime::from_consensus(tx.lock_time),
        input: tx.input.iter().map(|i| RawTxIn { previous_output: RawOutPoint::new(
            hashes::Hash::from_byte_array(i.previous_output.txid.bytes), i.previous_output.vout),
            sequence: Sequence(i.sequence), ..RawTxIn::default() }).collect(),
        output: tx.output.iter().map(|o| RawTxOut { value: Amount::from_sat(o.value),
            script_pubkey: ScriptBuf::from_bytes(o.script_pubkey.bytes.clone()) }).collect(),
    }).p2wsh_signature_hash(index, RawScript::from_bytes(&script.bytes),
        Amount::from_sat(value), EcdsaSighashType::All)
        .ok().map(hashes::Hash::to_byte_array)
}

/// `SighashCache::taproot_key_spend_signature_hash` over all spent outputs, with the default
/// type. Fails where the number of spent outputs is not that of the inputs; with this type an
/// index beyond the inputs is hashed like any other. The digest covers neither witnesses nor
/// script signatures.
#[verifier::external_body]
pub(crate) fn taproot_digest(
    version: i32,
    lock_time: u32,
    input: &Vec<TxIn>,
    output: &Vec<TxOut>,
    index: usize,
    prevouts: &Vec<TxOut>,
) -> (r: Option<[u8; 32]>)
    ensures
        match r {
            Some(digest) => taproot_sighash(
                unsigned(transaction_view(version, lock_time, input@, output@)),
                index,
                outputs_view(prevouts@),
            ) == Some(digest@),
            None => taproot_sighash(
                unsigned(transaction_view(version, lock_time, input@, output@)),
                index,
                outputs_view(prevouts@),
            ) is None,
        },
{
    let out = |o: &TxOut| RawTxOut { value: Amount::from_sat(o.value),
        script_pubkey: ScriptBuf::from_bytes(o.script_pubkey.bytes.clone()) };
    let spent: Vec<_> = prevouts.iter().map(out).collect();
    SighashCache::new(RawTransaction {
        version: Version(version),
        lock_time: LockTime::from_consensus(lock_time),
        input: input.iter().map(|i| RawTxIn { previous_output: RawOutPoint::new(
            hashes::Hash::from_byte_array(i.previous_output.txid.bytes), i.previous_output.vout),
            sequence: Sequence(i.sequence), ..RawTxIn::default() }).collect(),
        output: output.iter().map(out).collect()
    }).taproot_key_spend_signature_hash(
        index, &Prevouts::All(&spent), TapSighashType::Default)
        .ok().map(hashes::Hash::to_byte_array)
}

/// `Secp256k1::sign_ecdsa_low_r`: deterministic, by RFC 6979 with a counter. Fails where the
/// bytes are no valid private key.
#[verifier::external_body]
pub(crate) fn sign_ecdsa(digest: &[u8; 32], secret: &[u8; 32]) -> (r: Result<Vec<u8>, String>)
    ensures
        match r {
            Ok(signature) => ecdsa_signature(digest@, secret@) == Some(signature@),
            Err(_) => ecdsa_signature(digest@, secret@) is None,
        },
{
    match SecretKey::from_slice(secret) {
        Ok(key) => {
            let signature = Secp256k1::new().sign_ecdsa_low_r(&Message::from_digest(*digest), &key);
            Ok(signature.serialize_der().to_vec())
        },
        Err(e) => Err(e.to_string()),
    }
}

/// `Secp256k1::sign_schnorr`: draws random data, so that two signatures of the same digest
/// differ. Each has 64 bytes and passes `verify_schnorr` for the public key of the private key.
/// Fails where the bytes are no valid private key.
#[verifier::external_body]
pub(crate) fn sign_schnorr(digest: &[u8; 32], secret: &[u8; 32]) -> (r: Result<Vec<u8>, String>)
    ensures
        match r {
            Ok(signature) => signature@.len() == 64 && x_only_key(secret@) is Some
                && schnorr_verifies(signature@, digest@, x_only_key(secret@)->0),
            Err(_) => x_only_key(secret@) is None,
        },
{
    match SecretKey::from_slice(secret) {
        Ok(key) => {
            let secp = Secp256k1::new();
            let pair = Keypair::from_secret_key(&secp, &key);
            Ok(secp.sign_schnorr(&Message::from_digest(*digest), &pair).as_ref().to_vec())
        },
        Err(e) => Err(e.to_string()),
    }
}

} // verus!
