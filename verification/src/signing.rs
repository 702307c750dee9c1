//! Signing transactions that spend coins of the wallet.

use crate::chain::{account_key, derive_account_key, derive_by_path, key_at};
use crate::error::{WalletError, WalletErrorView};
use crate::keys::{
    compressed_public_key, ecdsa_signature, new_p2tr, new_p2wpkh, p2tr_script, p2wpkh_digest,
    p2wpkh_script, p2wpkh_sighash, p2wsh_digest, p2wsh_script, p2wsh_sighash, private_key,
    public_key, schnorr_verifies, sign_ecdsa, sign_schnorr, tap_tweak, taproot_digest,
    taproot_sighash, to_p2wsh, transaction_id, tweaked_key, unsigned, without_witnesses, x_only_key,
    x_only_public_key, ExtendedKey,
};
use crate::text::{decimal, decimal_text};
use crate::types::{
    byte_strings, clone_byte_strings, outputs_view, AddressType, Script, Transaction,
    TransactionView, TxInView, TxOut, TxOutView,
};
use crate::utxo::{SpendInfoView, UTXOSpendInfo};
use crate::wallet::Wallet;
use vstd::prelude::*;
use vstd::string::StringExecFns;

verus! {

/// What an input is signed with where the wallet's seed is not enough.
#[derive(Debug)]
pub enum Signer {
    /// The seed of the wallet.
    Seed,
    /// The key and the script of a fidelity bond.
    Bond { secret: [u8; 32], redeemscript: Script },
    /// The witness that the swap coin itself made.
    Contract(Vec<Vec<u8>>),
    /// The swap coin could not make a witness.
    Failed(WalletError),
}

#[verifier::ext_equal]
pub enum SignerView {
    Seed,
    Bond { secret: Seq<u8>, redeemscript: Seq<u8> },
    Contract(Seq<Seq<u8>>),
    Failed(WalletErrorView),
}

impl View for Signer {
    type V = SignerView;

    open spec fn view(&self) -> SignerView {
        match self {
            Signer::Seed => SignerView::Seed,
            Signer::Bond { secret, redeemscript } => SignerView::Bond {
                secret: secret@,
                redeemscript: redeemscript@,
            },
            Signer::Contract(witness) => SignerView::Contract(byte_strings(witness@)),
            Signer::Failed(e) => SignerView::Failed(e@),
        }
    }
}

/// The signer is of the kind that the coin needs.
pub open spec fn signer_fits(info: SpendInfoView, signer: SignerView) -> bool {
    match info {
        SpendInfoView::FidelityBondCoin { .. } => signer is Bond,
        SpendInfoView::IncomingSwapCoin { .. } => signer is Contract || signer is Failed,
        SpendInfoView::TimelockContract { .. } => signer is Contract || signer is Failed,
        SpendInfoView::HashlockContract { .. } => signer is Contract || signer is Failed,
        _ => true,
    }
}

/// The private key of a coin of the seed.
pub open spec fn seed_secret(master: ExtendedKey, path: Seq<char>, address_type: AddressType) -> Option<
    Seq<u8>,
> {
    match account_key(master, address_type) {
        Some(account) => match key_at(account, path) {
            Some(key) => Some(private_key(key)),
            None => None,
        },
        None => None,
    }
}

/// The output script of a private key.
pub open spec fn script_of(secret: Seq<u8>, address_type: AddressType) -> Option<Seq<u8>> {
    match address_type {
        AddressType::P2WPKH => match public_key(secret) {
            Some(key) => p2wpkh_script(key),
            None => None,
        },
        AddressType::P2TR => match x_only_key(secret) {
            Some(key) => p2tr_script(key),
            None => None,
        },
    }
}

/// The output that a coin of the seed spends.
pub open spec fn seed_prevout(
    master: ExtendedKey,
    path: Seq<char>,
    value: u64,
    address_type: AddressType,
) -> Option<TxOutView> {
    match seed_secret(master, path, address_type) {
        Some(secret) => match script_of(secret, address_type) {
            Some(script_pubkey) => Some(TxOutView { value, script_pubkey }),
            None => None,
        },
        None => None,
    }
}

/// The output that a coin spends, as far as taproot digests need it: swap coins stand in with an
/// empty output. `None` where the key cannot be derived.
pub open spec fn prevout_of(
    master: ExtendedKey,
    info: SpendInfoView,
    signer: SignerView,
) -> Option<TxOutView> {
    match info {
        SpendInfoView::SeedCoin { path, input_value, address_type } => seed_prevout(
            master,
            path,
            input_value,
            address_type,
        ),
        SpendInfoView::SweptCoin { path, input_value, address_type } => seed_prevout(
            master,
            path,
            input_value,
            address_type,
        ),
        SpendInfoView::FidelityBondCoin { input_value, .. } => Some(
            TxOutView {
                value: input_value,
                script_pubkey: p2wsh_script(signer->redeemscript),
            },
        ),
        _ => Some(TxOutView { value: 0, script_pubkey: Seq::empty() }),
    }
}

/// The outputs that all coins spend can be derived.
pub open spec fn has_prevouts(
    master: ExtendedKey,
    infos: Seq<SpendInfoView>,
    signers: Seq<SignerView>,
) -> bool {
    forall|i: int|
        0 <= i < infos.len() ==> prevout_of(master, #[trigger] infos[i], signers[i]) is Some
}

/// The outputs that all coins spend.
pub open spec fn prevouts_of(
    master: ExtendedKey,
    infos: Seq<SpendInfoView>,
    signers: Seq<SignerView>,
) -> Seq<TxOutView> {
    Seq::new(infos.len(), |i: int| prevout_of(master, infos[i], signers[i])->0)
}

/// A signature with the flag for signing all inputs and outputs behind it.
pub open spec fn with_sighash_all(signature: Seq<u8>) -> Seq<u8> {
    signature.push(1u8)
}

/// The witness of a P2WPKH input: the signature of the input's digest and the public key.
pub open spec fn p2wpkh_witness(
    tx: TransactionView,
    index: int,
    secret: Seq<u8>,
    value: u64,
) -> Option<Seq<Seq<u8>>> {
    match public_key(secret) {
        Some(key) => match p2wpkh_script(key) {
            Some(script) => match p2wpkh_sighash(unsigned(tx), index as usize, script, value) {
                Some(digest) => match ecdsa_signature(digest, secret) {
                    Some(signature) => Some(seq![with_sighash_all(signature), key]),
                    None => None,
                },
                None => None,
            },
            None => None,
        },
        None => None,
    }
}

/// The witness of a bond: the signature of the input's digest and the script.
pub open spec fn bond_witness(
    tx: TransactionView,
    index: int,
    secret: Seq<u8>,
    redeemscript: Seq<u8>,
    value: u64,
) -> Option<Seq<Seq<u8>>> {
    match p2wsh_sighash(unsigned(tx), index as usize, redeemscript, value) {
        Some(digest) => match ecdsa_signature(digest, secret) {
            Some(signature) => Some(seq![with_sighash_all(signature), redeemscript]),
            None => None,
        },
        None => None,
    }
}

/// The digest and the public key of a taproot key spend.
pub open spec fn taproot_spend(
    tx: TransactionView,
    index: int,
    prevouts: Seq<TxOutView>,
    secret: Seq<u8>,
) -> Option<(Seq<u8>, Seq<u8>)> {
    match (taproot_sighash(unsigned(tx), index as usize, prevouts), tweaked_key(secret)) {
        (Some(digest), Some(tweaked)) => match x_only_key(tweaked) {
            Some(key) => Some((digest, key)),
            None => None,
        },
        _ => None,
    }
}

/// What is added to the witness of a coin of the seed: for P2TR some signature that verifies.
pub open spec fn is_seed_witness(
    tx: TransactionView,
    index: int,
    prevouts: Seq<TxOutView>,
    secret: Seq<u8>,
    value: u64,
    address_type: AddressType,
    added: Seq<Seq<u8>>,
) -> bool {
    match address_type {
        AddressType::P2WPKH => p2wpkh_witness(tx, index, secret, value) == Some(added),
        AddressType::P2TR => taproot_spend(tx, index, prevouts, secret) matches Some(
            (digest, key),
        ) && added.len() == 1 && added[0].len() == 64 && schnorr_verifies(added[0], digest, key),
    }
}

/// A coin of the seed can be signed for.
pub open spec fn can_sign_seed(
    tx: TransactionView,
    index: int,
    prevouts: Seq<TxOutView>,
    secret: Option<Seq<u8>>,
    value: u64,
    address_type: AddressType,
) -> bool {
    match secret {
        Some(secret) => match address_type {
            AddressType::P2WPKH => p2wpkh_witness(tx, index, secret, value) is Some,
            AddressType::P2TR => taproot_spend(tx, index, prevouts, secret) is Some,
        },
        None => false,
    }
}

/// The witness of an input after signing.
pub open spec fn is_signed(
    master: ExtendedKey,
    tx: TransactionView,
    prevouts: Seq<TxOutView>,
    index: int,
    info: SpendInfoView,
    signer: SignerView,
    before: Seq<Seq<u8>>,
    after: Seq<Seq<u8>>,
) -> bool {
    match info {
        SpendInfoView::OutgoingSwapCoin { .. } => false,
        SpendInfoView::SeedCoin { path, input_value, address_type } => is_seed_signed(
            master,
            tx,
            prevouts,
            index,
            path,
            input_value,
            address_type,
            before,
            after,
        ),
        SpendInfoView::SweptCoin { path, input_value, address_type } => is_seed_signed(
            master,
            tx,
            prevouts,
            index,
            path,
            input_value,
            address_type,
            before,
            after,
        ),
        SpendInfoView::FidelityBondCoin { input_value, .. } => bond_witness(
            tx,
            index,
            signer->secret,
            signer->redeemscript,
            input_value,
        ) matches Some(added) && after == before + added,
        _ => signer matches SignerView::Contract(witness) && after == witness,
    }
}

pub open spec fn is_seed_signed(
    master: ExtendedKey,
    tx: TransactionView,
    prevouts: Seq<TxOutView>,
    index: int,
    path: Seq<char>,
    value: u64,
    address_type: AddressType,
    before: Seq<Seq<u8>>,
    after: Seq<Seq<u8>>,
) -> bool {
    &&& seed_secret(master, path, address_type) is Some
    &&& exists|added: Seq<Seq<u8>>|
        #![trigger before + added]
        after == before + added && is_seed_witness(
            tx,
            index,
            prevouts,
            seed_secret(master, path, address_type)->0,
            value,
            address_type,
            added,
        )
}

/// An input cannot be signed, for this reason.
pub open spec fn is_refusal(
    master: ExtendedKey,
    tx: TransactionView,
    prevouts: Seq<TxOutView>,
    index: int,
    info: SpendInfoView,
    signer: SignerView,
    e: WalletErrorView,
) -> bool {
    match info {
        SpendInfoView::OutgoingSwapCoin { .. } => e == WalletErrorView::General(
            "Can't sign for outgoing swapcoins"@,
        ),
        SpendInfoView::SeedCoin { path, input_value, address_type } => !can_sign_seed(
            tx,
            index,
            prevouts,
            seed_secret(master, path, address_type),
            input_value,
            address_type,
        ) && e is Key,
        SpendInfoView::SweptCoin { path, input_value, address_type } => !can_sign_seed(
            tx,
            index,
            prevouts,
            seed_secret(master, path, address_type),
            input_value,
            address_type,
        ) && e is Key,
        SpendInfoView::FidelityBondCoin { input_value, .. } => bond_witness(
            tx,
            index,
            signer->secret,
            signer->redeemscript,
            input_value,
        ) is None && e is Key,
        _ => signer == SignerView::Failed(e),
    }
}

/// The text for a wrong number of signers.
pub open spec fn count_mismatch(inputs: nat, signers: nat) -> Seq<char> {
    "Mismatched signer/input counts: tx has "@ + decimal(inputs)
        + " inputs but signer metadata has "@ + decimal(signers) + " entries"@
}

/// The first `n` inputs are signed, the others and everything else are as before.
pub open spec fn is_signed_up_to(
    master: ExtendedKey,
    before: TransactionView,
    after: TransactionView,
    infos: Seq<SpendInfoView>,
    signers: Seq<SignerView>,
    n: int,
) -> bool {
    &&& after.version == before.version
    &&& after.lock_time == before.lock_time
    &&& after.output == before.output
    &&& after.input.len() == before.input.len()
    &&& forall|i: int|
        0 <= i < before.input.len() ==> #[trigger] after.input[i] == (TxInView {
            witness: after.input[i].witness,
            ..before.input[i]
        })
    &&& forall|i: int|
        n <= i < before.input.len() ==> #[trigger] after.input[i] == before.input[i]
    &&& forall|i: int|
        0 <= i < n ==> is_signed(
            master,
            before,
            prevouts_of(master, infos, signers),
            i,
            infos[i],
            signers[i],
            before.input[i].witness,
            (#[trigger] after.input[i]).witness,
        )
}

/// The views of a list of spend infos.
pub open spec fn infos_view(infos: Seq<UTXOSpendInfo>) -> Seq<SpendInfoView> {
    infos.map_values(|i: UTXOSpendInfo| i@)
}

/// The views of a list of signers.
pub open spec fn signers_view(signers: Seq<Signer>) -> Seq<SignerView> {
    signers.map_values(|s: Signer| s@)
}

// ---------------------------------------------------------------------------------------------
// Keys and outputs
// ---------------------------------------------------------------------------------------------

fn key_error(text: String) -> (r: WalletError)
    ensures
        r@ == WalletErrorView::Key(text@),
{
    WalletError::Key(text)
}

fn derive_secret(master: &ExtendedKey, path: &String, address_type: AddressType) -> (r: Result<
    [u8; 32],
    WalletError,
>)
    ensures
        match r {
            Ok(secret) => seed_secret(*master, path@, address_type) == Some(secret@),
            Err(e) => seed_secret(*master, path@, address_type) is None && e is Key,
        },
{
    match derive_account_key(master, address_type) {
        Ok(account) => match derive_by_path(&account, path.as_str()) {
            Ok(key) => Ok(key.private_key()),
            Err(e) => Err(e),
        },
        Err(e) => Err(e),
    }
}

fn derive_script(secret: &[u8; 32], address_type: AddressType) -> (r: Result<Script, WalletError>)
    ensures
        match r {
            Ok(script) => script_of(secret@, address_type) == Some(script@),
            Err(e) => script_of(secret@, address_type) is None && e is Key,
        },
{
    match address_type {
        AddressType::P2WPKH => match compressed_public_key(secret) {
            Ok(key) => match new_p2wpkh(&key) {
                Ok(script) => Ok(script),
                Err(text) => Err(key_error(text)),
            },
            Err(text) => Err(key_error(text)),
        },
        AddressType::P2TR => match x_only_public_key(secret) {
            Ok(key) => match new_p2tr(&key) {
                Ok(script) => Ok(script),
                Err(text) => Err(key_error(text)),
            },
            Err(text) => Err(key_error(text)),
        },
    }
}

fn derive_seed_prevout(
    master: &ExtendedKey,
    path: &String,
    value: u64,
    address_type: AddressType,
) -> (r: Result<TxOut, WalletError>)
    ensures
        match r {
            Ok(out) => seed_prevout(*master, path@, value, address_type) == Some(out@),
            Err(e) => seed_prevout(*master, path@, value, address_type) is None && e is Key,
        },
{
    match derive_secret(master, path, address_type) {
        Ok(secret) => match derive_script(&secret, address_type) {
            Ok(script_pubkey) => Ok(TxOut { value, script_pubkey }),
            Err(e) => Err(e),
        },
        Err(e) => Err(e),
    }
}

fn derive_prevout(master: &ExtendedKey, info: &UTXOSpendInfo, signer: &Signer) -> (r: Result<
    TxOut,
    WalletError,
>)
    requires
        signer_fits(info@, signer@),
    ensures
        match r {
            Ok(out) => prevout_of(*master, info@, signer@) == Some(out@),
            Err(e) => prevout_of(*master, info@, signer@) is None && e is Key,
        },
{
    match info {
        UTXOSpendInfo::SeedCoin { path, input_value, address_type }
        | UTXOSpendInfo::SweptCoin { path, input_value, address_type } => derive_seed_prevout(
            master,
            path,
            *input_value,
            *address_type,
        ),
        UTXOSpendInfo::FidelityBondCoin { input_value, .. } => match signer {
            Signer::Bond { redeemscript, .. } => Ok(
                TxOut { value: *input_value, script_pubkey: to_p2wsh(redeemscript) },
            ),
            _ => Ok(TxOut { value: 0, script_pubkey: Script::new() }),
        },
        _ => Ok(TxOut { value: 0, script_pubkey: Script::new() }),
    }
}

fn derive_prevouts(
    master: &ExtendedKey,
    infos: &Vec<UTXOSpendInfo>,
    signers: &Vec<Signer>,
) -> (r: Result<Vec<TxOut>, WalletError>)
    requires
        infos@.len() == signers@.len(),
        forall|i: int|
            0 <= i < infos@.len() ==> signer_fits(
                (#[trigger] infos_view(infos@)[i]),
                signers_view(signers@)[i],
            ),
    ensures
        match r {
            Ok(outs) => has_prevouts(*master, infos_view(infos@), signers_view(signers@))
                && outputs_view(outs@) == prevouts_of(
                *master,
                infos_view(infos@),
                signers_view(signers@),
            ),
            Err(e) => !has_prevouts(*master, infos_view(infos@), signers_view(signers@))
                && e is Key,
        },
{
    let ghost (iv, sv) = (infos_view(infos@), signers_view(signers@));
    let mut outs: Vec<TxOut> = Vec::new();
    let mut i: usize = 0;
    while i < infos.len()
        invariant
            i <= infos.len() == signers.len(),
            iv == infos_view(infos@),
            sv == signers_view(signers@),
            forall|k: int| 0 <= k < iv.len() ==> signer_fits(#[trigger] iv[k], sv[k]),
            outs.len() == i,
            forall|k: int|
                0 <= k < i ==> prevout_of(*master, #[trigger] iv[k], sv[k]) == Some(outs@[k]@),
        decreases infos.len() - i,
    {
        assert(iv[i as int] == infos@[i as int]@ && sv[i as int] == signers@[i as int]@);
        match derive_prevout(master, &infos[i], &signers[i]) {
            Ok(out) => {
                outs.push(out);
            },
            Err(e) => {
                assert(prevout_of(*master, iv[i as int], sv[i as int]) is None);
                return Err(e);
            },
        }
        i += 1;
    }
    assert(outputs_view(outs@) =~= prevouts_of(*master, iv, sv));
    Ok(outs)
}

// ---------------------------------------------------------------------------------------------
// Witnesses
// ---------------------------------------------------------------------------------------------

fn append_flag(signature: Vec<u8>) -> (r: Vec<u8>)
    ensures
        r@ == with_sighash_all(signature@),
{
    let mut r = signature;
    r.push(1);
    r
}

/// A witness of two items.
fn two_items(first: Vec<u8>, second: Vec<u8>) -> (r: Vec<Vec<u8>>)
    ensures
        byte_strings(r@) == seq![first@, second@],
{
    let mut r: Vec<Vec<u8>> = Vec::new();
    r.push(first);
    r.push(second);
    assert(byte_strings(r@) =~= seq![first@, second@]);
    r
}

fn no_digest() -> (r: WalletError)
    ensures
        r@ == WalletErrorView::Key("Could not compute the signature hash"@),
{
    WalletError::Key("Could not compute the signature hash".to_string())
}

fn sign_p2wpkh(tx: &Transaction, index: usize, secret: &[u8; 32], value: u64) -> (r: Result<
    Vec<Vec<u8>>,
    WalletError,
>)
    ensures
        match r {
            Ok(added) => p2wpkh_witness(tx@, index as int, secret@, value) == Some(
                byte_strings(added@),
            ),
            Err(e) => p2wpkh_witness(tx@, index as int, secret@, value) is None && e is Key,
        },
{
    let key = match compressed_public_key(secret) {
        Ok(key) => key,
        Err(text) => {
            return Err(key_error(text));
        },
    };
    let script = match new_p2wpkh(&key) {
        Ok(script) => script,
        Err(text) => {
            return Err(key_error(text));
        },
    };
    let digest = match p2wpkh_digest(tx, index, &script, value) {
        Some(digest) => digest,
        None => {
            return Err(no_digest());
        },
    };
    match sign_ecdsa(&digest, secret) {
        Ok(signature) => Ok(two_items(append_flag(signature), key)),
        Err(text) => Err(key_error(text)),
    }
}

fn sign_bond(
    tx: &Transaction,
    index: usize,
    secret: &[u8; 32],
    redeemscript: &Script,
    value: u64,
) -> (r: Result<Vec<Vec<u8>>, WalletError>)
    ensures
        match r {
            Ok(added) => bond_witness(tx@, index as int, secret@, redeemscript@, value) == Some(
                byte_strings(added@),
            ),
            Err(e) => bond_witness(tx@, index as int, secret@, redeemscript@, value) is None
                && e is Key,
        },
{
    let digest = match p2wsh_digest(tx, index, redeemscript, value) {
        Some(digest) => digest,
        None => {
            return Err(no_digest());
        },
    };
    match sign_ecdsa(&digest, secret) {
        Ok(signature) => Ok(two_items(append_flag(signature), redeemscript.bytes.clone())),
        Err(text) => Err(key_error(text)),
    }
}

fn sign_taproot(tx: &Transaction, index: usize, prevouts: &Vec<TxOut>, secret: &[u8; 32]) -> (r:
    Result<Vec<Vec<u8>>, WalletError>)
    ensures
        match r {
            Ok(added) => is_seed_witness(
                tx@,
                index as int,
                outputs_view(prevouts@),
                secret@,
                0,
                AddressType::P2TR,
                byte_strings(added@),
            ),
            Err(e) => taproot_spend(tx@, index as int, outputs_view(prevouts@), secret@) is None
                && e is Key,
        },
{
    let digest = match taproot_digest(
        tx.version,
        tx.lock_time,
        &tx.input,
        &tx.output,
        index,
        prevouts,
    ) {
        Some(digest) => digest,
        None => {
            return Err(no_digest());
        },
    };
    let tweaked = match tap_tweak(secret) {
        Ok(tweaked) => tweaked,
        Err(text) => {
            return Err(key_error(text));
        },
    };
    match sign_schnorr(&digest, &tweaked) {
        Ok(signature) => {
            let mut added: Vec<Vec<u8>> = Vec::new();
            added.push(signature);
            assert(byte_strings(added@) =~= seq![signature@]);
            Ok(added)
        },
        Err(text) => Err(key_error(text)),
    }
}

fn sign_seed(
    master: &ExtendedKey,
    tx: &Transaction,
    prevouts: &Vec<TxOut>,
    index: usize,
    path: &String,
    value: u64,
    address_type: AddressType,
    before: &Vec<Vec<u8>>,
) -> (r: Result<Vec<Vec<u8>>, WalletError>)
    ensures
        match r {
            Ok(after) => is_seed_signed(
                *master,
                tx@,
                outputs_view(prevouts@),
                index as int,
                path@,
                value,
                address_type,
                byte_strings(before@),
                byte_strings(after@),
            ),
            Err(e) => !can_sign_seed(
                tx@,
                index as int,
                outputs_view(prevouts@),
                seed_secret(*master, path@, address_type),
                value,
                address_type,
            ) && e is Key,
        },
{
    let secret = match derive_secret(master, path, address_type) {
        Ok(secret) => secret,
        Err(e) => {
            return Err(e);
        },
    };
    let signed = match address_type {
        AddressType::P2WPKH => sign_p2wpkh(tx, index, &secret, value),
        AddressType::P2TR => sign_taproot(tx, index, prevouts, &secret),
    };
    match signed {
        Ok(added) => {
            assert(is_seed_witness(
                tx@,
                index as int,
                outputs_view(prevouts@),
                secret@,
                value,
                address_type,
                byte_strings(added@),
            ));
            let ghost items = byte_strings(added@);
            let after = append_items(before, added);
            assert(byte_strings(after@) == byte_strings(before@) + items);
            Ok(after)
        },
        Err(e) => Err(e),
    }
}

/// A witness with further items behind it.
fn append_items(before: &Vec<Vec<u8>>, added: Vec<Vec<u8>>) -> (r: Vec<Vec<u8>>)
    ensures
        byte_strings(r@) == byte_strings(before@) + byte_strings(added@),
{
    let mut added = added;
    let mut r = clone_byte_strings(before);
    let ghost (front, back) = (r@, added@);
    r.append(&mut added);
    assert(byte_strings(r@) =~= byte_strings(front) + byte_strings(back));
    r
}

/// Makes the witness of one input.
fn sign_input(
    master: &ExtendedKey,
    tx: &Transaction,
    prevouts: &Vec<TxOut>,
    index: usize,
    info: &UTXOSpendInfo,
    signer: Signer,
    before: &Vec<Vec<u8>>,
) -> (r: Result<Vec<Vec<u8>>, WalletError>)
    requires
        signer_fits(info@, signer@),
    ensures
        match r {
            Ok(after) => is_signed(
                *master,
                tx@,
                outputs_view(prevouts@),
                index as int,
                info@,
                signer@,
                byte_strings(before@),
                byte_strings(after@),
            ),
            Err(e) => is_refusal(
                *master,
                tx@,
                outputs_view(prevouts@),
                index as int,
                info@,
                signer@,
                e@,
            ),
        },
{
    match info {
        UTXOSpendInfo::OutgoingSwapCoin { .. } => Err(
            WalletError::General("Can't sign for outgoing swapcoins".to_string()),
        ),
        UTXOSpendInfo::SeedCoin { path, input_value, address_type }
        | UTXOSpendInfo::SweptCoin { path, input_value, address_type } => sign_seed(
            master,
            tx,
            prevouts,
            index,
            path,
            *input_value,
            *address_type,
            before,
        ),
        UTXOSpendInfo::FidelityBondCoin { input_value, .. } => match signer {
            Signer::Bond { secret, redeemscript } => match sign_bond(
                tx,
                index,
                &secret,
                &redeemscript,
                *input_value,
            ) {
                Ok(added) => Ok(append_items(before, added)),
                Err(e) => Err(e),
            },
            _ => Err(no_digest()),
        },
        _ => match signer {
            Signer::Contract(witness) => Ok(witness),
            Signer::Failed(e) => Err(e),
            _ => Err(no_digest()),
        },
    }
}

impl Wallet {
    /// Signs a transaction, input by input.
    ///
    /// Coins of the seed are signed with keys of the wallet, bonds with theirs; the inputs of
    /// swap contracts get the witness that the swap coin made. The first input that cannot be
    /// signed ends it.
    pub fn sign_transaction(
        &self,
        tx: &mut Transaction,
        inputs_info: Vec<UTXOSpendInfo>,
        signers: Vec<Signer>,
    ) -> (r: Result<(), WalletError>)
        requires
            inputs_info@.len() == signers@.len(),
            forall|i: int|
                0 <= i < inputs_info@.len() ==> signer_fits(
                    (#[trigger] infos_view(inputs_info@)[i]),
                    signers_view(signers@)[i],
                ),
        ensures
            match r {
                Ok(()) => {
                    &&& has_prevouts(
                        self@.master_key,
                        infos_view(inputs_info@),
                        signers_view(signers@),
                    )
                    &&& old(tx)@.input.len() == inputs_info@.len()
                    &&& is_signed_up_to(
                        self@.master_key,
                        old(tx)@,
                        final(tx)@,
                        infos_view(inputs_info@),
                        signers_view(signers@),
                        inputs_info@.len() as int,
                    )
                },
                Err(e) => if !has_prevouts(
                    self@.master_key,
                    infos_view(inputs_info@),
                    signers_view(signers@),
                ) {
                    final(tx)@ == old(tx)@ && e is Key
                } else if old(tx)@.input.len() != inputs_info@.len() {
                    final(tx)@ == old(tx)@ && e@ == WalletErrorView::General(
                        count_mismatch(old(tx)@.input.len(), inputs_info@.len()),
                    )
                } else {
                    exists|n: int|
                        0 <= n < inputs_info@.len() && #[trigger] is_signed_up_to(
                            self@.master_key,
                            old(tx)@,
                            final(tx)@,
                            infos_view(inputs_info@),
                            signers_view(signers@),
                            n,
                        ) && is_refusal(
                            self@.master_key,
                            old(tx)@,
                            prevouts_of(
                                self@.master_key,
                                infos_view(inputs_info@),
                                signers_view(signers@),
                            ),
                            n,
                            infos_view(inputs_info@)[n],
                            signers_view(signers@)[n],
                            e@,
                        )
                },
            },
    {
        let ghost (iv, sv) = (infos_view(inputs_info@), signers_view(signers@));
        let ghost given = tx@;
        let master = &self.store.master_key;
        let tx_clone = tx.clone();
        let prevouts = match derive_prevouts(master, &inputs_info, &signers) {
            Ok(prevouts) => prevouts,
            Err(e) => {
                return Err(e);
            },
        };
        if tx.input.len() != inputs_info.len() {
            let mut text = String::new();
            text.append("Mismatched signer/input counts: tx has ");
            text.append(decimal_text(tx.input.len() as u64).as_str());
            text.append(" inputs but signer metadata has ");
            text.append(decimal_text(inputs_info.len() as u64).as_str());
            text.append(" entries");
            assert(text@ =~= count_mismatch(given.input.len(), inputs_info@.len()));
            return Err(WalletError::General(text));
        }
        let count: usize = inputs_info.len();
        let mut remaining = signers;
        let mut i: usize = 0;
        while i < count
            invariant
                count == inputs_info@.len() == iv.len() == sv.len() == given.input.len(),
                i <= count,
                iv == infos_view(inputs_info@),
                sv == signers_view(signers@),
                has_prevouts(*master, iv, sv),
                old(tx)@ == given,
                remaining@.len() == count - i,
                forall|k: int| 0 <= k < count - i ==> (#[trigger] remaining@[k])@ == sv[k + i],
                forall|k: int| 0 <= k < count ==> signer_fits(#[trigger] iv[k], sv[k]),
                *master == self@.master_key,
                tx_clone@ == given,
                outputs_view(prevouts@) == prevouts_of(*master, iv, sv),
                tx.input@.len() == count,
                is_signed_up_to(*master, given, tx@, iv, sv, i as int),
            decreases count - i,
        {
            let signer = remaining.remove(0);
            let ghost before = tx@;
            assert(signer@ == sv[i as int]);
            assert(iv[i as int] == inputs_info@[i as int]@);
            assert(before.input[i as int] == given.input[i as int]);
            match sign_input(
                master,
                &tx_clone,
                &prevouts,
                i,
                &inputs_info[i],
                signer,
                &tx.input[i].witness,
            ) {
                Ok(witness) => {
                    let ghost items = byte_strings(witness@);
                    tx.input[i].witness = witness;
                    proof {
                        assert(tx@.input =~= before.input.update(
                            i as int,
                            TxInView { witness: items, ..before.input[i as int] },
                        ));
                        assert(tx@.output == before.output);
                    }
                },
                Err(e) => {
                    assert(is_signed_up_to(*master, given, tx@, iv, sv, i as int));
                    return Err(e);
                },
            }
            i += 1;
        }
        Ok(())
    }
}

/// Signing does not change the id of a transaction.
pub proof fn law_signing_keeps_the_txid(
    master: ExtendedKey,
    before: TransactionView,
    after: TransactionView,
    infos: Seq<SpendInfoView>,
    signers: Seq<SignerView>,
    n: int,
)
    requires
        is_signed_up_to(master, before, after, infos, signers, n),
    ensures
        transaction_id(without_witnesses(after)) == transaction_id(without_witnesses(before)),
        unsigned(after) == unsigned(before),
{
    assert forall|i: int| 0 <= i < before.input.len() implies #[trigger] without_witnesses(
        after,
    ).input[i] == without_witnesses(before).input[i] && unsigned(after).input[i] == unsigned(
        before,
    ).input[i] by {
        assert(after.input[i] == (TxInView {
            witness: after.input[i].witness,
            ..before.input[i]
        }));
    }
    assert(without_witnesses(after).input =~= without_witnesses(before).input);
    assert(unsigned(after).input =~= unsigned(before).input);
}

} // verus!
