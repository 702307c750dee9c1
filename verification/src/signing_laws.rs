//! What holds of every transaction that a wallet signs.

use crate::chain::key_at;
use crate::error::WalletError;
use crate::keys::{
    ecdsa_signature, p2tr_script, p2wpkh_script, p2wpkh_sighash, p2wsh_script, p2wsh_sighash,
    private_key, public_key, schnorr_verifies, taproot_sighash, tweaked_key, unsigned, x_only_key,
    ExtendedKey,
};
use crate::signing::{
    infos_view, is_seed_witness, is_signed, prevout_of, prevouts_of, seed_secret, signer_fits,
    signers_view, Signer, SignerView,
};
use crate::types::{AddressType, Transaction, TransactionView, TxOutView};
use crate::utxo::{SpendInfoView, UTXOSpendInfo};
use crate::wallet::Wallet;
use vstd::prelude::*;

verus! {

/// The private key under a path of the account for an address type: purpose 86 for P2TR, 84 for
/// P2WPKH.
pub open spec fn secret_at(
    master: ExtendedKey,
    path: Seq<char>,
    address_type: AddressType,
) -> Option<Seq<u8>> {
    let account = key_at(
        master,
        if address_type == AddressType::P2TR {
            "m/86'/1'/0'"@
        } else {
            "m/84'/1'/0'"@
        },
    );
    if account is Some && key_at(account->0, path) is Some {
        Some(private_key(key_at(account->0, path)->0))
    } else {
        None
    }
}

/// The output is one that the private key spends.
pub open spec fn is_output_of(secret: Seq<u8>, address_type: AddressType, script: Seq<u8>) -> bool {
    if address_type == AddressType::P2TR {
        x_only_key(secret) matches Some(key) && p2tr_script(key) == Some(script)
    } else {
        public_key(secret) matches Some(key) && p2wpkh_script(key) == Some(script)
    }
}

/// A coin of the seed, regular or swept: its path, its value and its address type.
pub open spec fn seed_parts(info: SpendInfoView) -> Option<(Seq<char>, u64, AddressType)> {
    if info is SeedCoin {
        Some(
            (info->SeedCoin_path, info->SeedCoin_input_value, info->SeedCoin_address_type),
        )
    } else if info is SweptCoin {
        Some(
            (info->SweptCoin_path, info->SweptCoin_input_value, info->SweptCoin_address_type),
        )
    } else {
        None
    }
}

/// The output that an input spends: of the value of its coin, on the script of its key or of its
/// bond. The coin of a swap stands in with an empty output.
pub open spec fn is_spent_output(
    master: ExtendedKey,
    info: SpendInfoView,
    signer: SignerView,
    output: TxOutView,
) -> bool {
    if let Some((path, value, address_type)) = seed_parts(info) {
        &&& output.value == value
        &&& secret_at(master, path, address_type) matches Some(secret) && is_output_of(
            secret,
            address_type,
            output.script_pubkey,
        )
    } else if info is FidelityBondCoin {
        &&& output.value == info->FidelityBondCoin_input_value
        &&& output.script_pubkey == p2wsh_script(signer->redeemscript)
    } else {
        output.value == 0 && output.script_pubkey.len() == 0
    }
}

/// The outputs that all inputs spend.
pub open spec fn are_spent_outputs(
    master: ExtendedKey,
    infos: Seq<SpendInfoView>,
    signers: Seq<SignerView>,
    outputs: Seq<TxOutView>,
) -> bool {
    &&& outputs.len() == infos.len()
    &&& forall|k: int|
        0 <= k < infos.len() ==> is_spent_output(
            master,
            infos[k],
            signers[k],
            #[trigger] outputs[k],
        )
}

/// The items unlock the output that the input spends: for P2TR one signature of the taproot digest,
/// under the tweaked key; for P2WPKH a signature of the digest over the script and the value of that
/// output, and the key that the script holds.
pub open spec fn unlocks(
    tx: TransactionView,
    i: int,
    outputs: Seq<TxOutView>,
    secret: Seq<u8>,
    address_type: AddressType,
    items: Seq<Seq<u8>>,
) -> bool {
    if address_type == AddressType::P2TR {
        &&& items.len() == 1
        &&& items[0].len() == 64
        &&& taproot_sighash(unsigned(tx), i as usize, outputs) matches Some(digest) && tweaked_key(
            secret,
        ) matches Some(tweaked) && x_only_key(tweaked) matches Some(key) && schnorr_verifies(
            items[0],
            digest,
            key,
        )
    } else {
        &&& items.len() == 2
        &&& public_key(secret) == Some(items[1])
        &&& p2wpkh_script(items[1]) == Some(outputs[i].script_pubkey)
        &&& p2wpkh_sighash(
            unsigned(tx),
            i as usize,
            outputs[i].script_pubkey,
            outputs[i].value,
        ) matches Some(digest) && ecdsa_signature(digest, secret) matches Some(signature) && items[0]
            == signature + seq![1u8]
    }
}

/// The items unlock the bond that the input spends: a signature of the digest over the script of the
/// bond and the value of the output, and the script.
pub open spec fn unlocks_bond(
    tx: TransactionView,
    i: int,
    output: TxOutView,
    secret: Seq<u8>,
    redeemscript: Seq<u8>,
    items: Seq<Seq<u8>>,
) -> bool {
    &&& items.len() == 2
    &&& items[1] == redeemscript
    &&& p2wsh_script(items[1]) == output.script_pubkey
    &&& p2wsh_sighash(unsigned(tx), i as usize, items[1], output.value) matches Some(digest)
        && ecdsa_signature(digest, secret) matches Some(signature) && items[0] == signature + seq![
        1u8,
    ]
}

proof fn lemma_spent_outputs(
    master: ExtendedKey,
    infos: Seq<SpendInfoView>,
    signers: Seq<SignerView>,
)
    requires
        infos.len() == signers.len(),
        crate::signing::has_prevouts(master, infos, signers),
    ensures
        are_spent_outputs(master, infos, signers, prevouts_of(master, infos, signers)),
{
    let outputs = prevouts_of(master, infos, signers);
    assert forall|k: int| 0 <= k < infos.len() implies is_spent_output(
        master,
        infos[k],
        signers[k],
        #[trigger] outputs[k],
    ) by {
        assert(prevout_of(master, infos[k], signers[k]) is Some);
    }
}

/// Every input of a signed transaction unlocks the output that it spends.
///
/// A coin of the seed, regular or swept alike, gets items behind its witness that fit the script of
/// its output, made with the key under its path. A bond gets the signature of its key and its script.
/// An input of a swap has the witness that the swap coin made. No input spends an outgoing swap coin.
pub proof fn law_signed_inputs_unlock_their_outputs(
    wallet: Wallet,
    tx: &mut Transaction,
    infos: Vec<UTXOSpendInfo>,
    signers: Vec<Signer>,
    i: int,
)
    requires
        infos@.len() == signers@.len(),
        forall|k: int|
            0 <= k < infos@.len() ==> signer_fits(
                (#[trigger] infos_view(infos@)[k]),
                signers_view(signers@)[k],
            ),
        call_ensures(
            Wallet::sign_transaction,
            (&wallet, tx, infos, signers),
            Ok::<(), WalletError>(()),
        ),
        0 <= i < infos@.len(),
    ensures
        exists|outputs: Seq<TxOutView>| #[trigger]
            are_spent_outputs(
                wallet@.master_key,
                infos_view(infos@),
                signers_view(signers@),
                outputs,
            ) && {
                let info = infos@[i]@;
                let signer = signers@[i]@;
                let before = old(tx)@.input[i].witness;
                let after = final(tx)@.input[i].witness;
                if let Some((path, value, address_type)) = seed_parts(info) {
                    &&& after.len() >= before.len()
                    &&& after.take(before.len() as int) == before
                    &&& unlocks(
                        old(tx)@,
                        i,
                        outputs,
                        secret_at(wallet@.master_key, path, address_type)->0,
                        address_type,
                        after.skip(before.len() as int),
                    )
                } else if info is FidelityBondCoin {
                    &&& after.len() >= before.len()
                    &&& after.take(before.len() as int) == before
                    &&& unlocks_bond(
                        old(tx)@,
                        i,
                        outputs[i],
                        signer->secret,
                        signer->redeemscript,
                        after.skip(before.len() as int),
                    )
                } else {
                    &&& info !is OutgoingSwapCoin
                    &&& signer is Contract
                    &&& after == signer->Contract_0
                }
            },
{
    let master = wallet@.master_key;
    let (iv, sv) = (infos_view(infos@), signers_view(signers@));
    let outputs = prevouts_of(master, iv, sv);
    lemma_spent_outputs(master, iv, sv);
    let (info, signer) = (iv[i], sv[i]);
    assert(info == infos@[i]@ && signer == signers@[i]@);
    let before = old(tx)@.input[i].witness;
    let after = final(tx)@.input[i].witness;
    let n = before.len() as int;
    assert(is_signed(master, old(tx)@, outputs, i, info, signer, before, after)) by {
        assert(final(tx)@.input[i] == final(tx)@.input[i]);
    }
    assert(is_spent_output(master, info, signer, outputs[i]));
    if let Some((path, value, address_type)) = seed_parts(info) {
        let secret = seed_secret(master, path, address_type)->0;
        let added = choose|added: Seq<Seq<u8>>|
            #![trigger before + added]
            after == before + added && is_seed_witness(
                old(tx)@,
                i,
                outputs,
                secret,
                value,
                address_type,
                added,
            );
        assert(after.take(n) =~= before);
        assert(after.skip(n) =~= added);
        if address_type != AddressType::P2TR {
            let key = public_key(secret)->0;
            let digest = p2wpkh_sighash(
                unsigned(old(tx)@),
                i as usize,
                p2wpkh_script(key)->0,
                value,
            )->0;
            assert(added[1] == key);
            assert(added[0] =~= ecdsa_signature(digest, secret)->0 + seq![1u8]);
        }
    } else if info is FidelityBondCoin {
        let script = signer->redeemscript;
        let digest = p2wsh_sighash(
            unsigned(old(tx)@),
            i as usize,
            script,
            info->FidelityBondCoin_input_value,
        )->0;
        let signature = ecdsa_signature(digest, signer->secret)->0;
        assert(after.take(n) =~= before);
        assert(after.skip(n)[0] =~= signature + seq![1u8]);
        assert(after.skip(n)[1] == script);
    }
}

/// The input can be signed: its key and its digest are there, or the swap coin has made a witness.
pub open spec fn is_signable(
    master: ExtendedKey,
    tx: TransactionView,
    i: int,
    outputs: Seq<TxOutView>,
    info: SpendInfoView,
    signer: SignerView,
) -> bool {
    if let Some((path, value, address_type)) = seed_parts(info) {
        secret_at(master, path, address_type) matches Some(secret) && if address_type
            == AddressType::P2TR {
            taproot_sighash(unsigned(tx), i as usize, outputs) is Some && (tweaked_key(
                secret,
            ) matches Some(tweaked) && x_only_key(tweaked) is Some)
        } else {
            p2wpkh_sighash(
                unsigned(tx),
                i as usize,
                outputs[i].script_pubkey,
                outputs[i].value,
            ) matches Some(digest) && ecdsa_signature(digest, secret) is Some
        }
    } else if info is FidelityBondCoin {
        p2wsh_sighash(
            unsigned(tx),
            i as usize,
            signer->redeemscript,
            outputs[i].value,
        ) matches Some(digest) && ecdsa_signature(digest, signer->secret) is Some
    } else {
        info !is OutgoingSwapCoin && signer is Contract
    }
}

/// A transaction is signed where every input has its coin, the outputs that are spent can be derived
/// and each input can be signed. Where the numbers differ, or an input spends an outgoing swap coin,
/// it is not.
pub proof fn law_signable_transactions_are_signed(
    wallet: Wallet,
    tx: &mut Transaction,
    infos: Vec<UTXOSpendInfo>,
    signers: Vec<Signer>,
    outputs: Seq<TxOutView>,
    r: Result<(), WalletError>,
)
    requires
        infos@.len() == signers@.len(),
        forall|k: int|
            0 <= k < infos@.len() ==> signer_fits(
                (#[trigger] infos_view(infos@)[k]),
                signers_view(signers@)[k],
            ),
        call_ensures(Wallet::sign_transaction, (&wallet, tx, infos, signers), r),
        are_spent_outputs(
            wallet@.master_key,
            infos_view(infos@),
            signers_view(signers@),
            outputs,
        ),
    ensures
        old(tx)@.input.len() != infos@.len() ==> r is Err && final(tx)@ == old(tx)@,
        (exists|i: int| 0 <= i < infos@.len() && (#[trigger] infos@[i])@ is OutgoingSwapCoin)
            ==> r is Err,
        old(tx)@.input.len() == infos@.len() && (forall|i: int|
            0 <= i < infos@.len() ==> is_signable(
                wallet@.master_key,
                old(tx)@,
                i,
                outputs,
                infos@[i]@,
                (#[trigger] signers@[i])@,
            )) ==> r is Ok,
{
    let master = wallet@.master_key;
    let (iv, sv) = (infos_view(infos@), signers_view(signers@));
    assert forall|k: int| 0 <= k < iv.len() implies prevout_of(
        master,
        #[trigger] iv[k],
        sv[k],
    ) == Some(outputs[k]) by {
        assert(is_spent_output(master, iv[k], sv[k], outputs[k]));
        assert(outputs[k] == (TxOutView {
            value: outputs[k].value,
            script_pubkey: outputs[k].script_pubkey,
        }));
        if seed_parts(iv[k]) is None && iv[k] !is FidelityBondCoin {
            assert(outputs[k].script_pubkey =~= Seq::<u8>::empty());
        }
    }
    assert(prevouts_of(master, iv, sv) =~= outputs);
    if exists|i: int| 0 <= i < infos@.len() && (#[trigger] infos@[i])@ is OutgoingSwapCoin {
        let i = choose|i: int| 0 <= i < infos@.len() && (#[trigger] infos@[i])@ is OutgoingSwapCoin;
        if r is Ok {
            assert(is_signed(
                master,
                old(tx)@,
                outputs,
                i,
                iv[i],
                sv[i],
                old(tx)@.input[i].witness,
                final(tx)@.input[i].witness,
            ));
            assert(iv[i] is OutgoingSwapCoin);
            assert(false);
        }
    }
    if old(tx)@.input.len() == infos@.len() && r is Err && (forall|i: int|
        0 <= i < infos@.len() ==> is_signable(
            master,
            old(tx)@,
            i,
            outputs,
            infos@[i]@,
            (#[trigger] signers@[i])@,
        )) {
        let e = r->Err_0;
        let n = choose|n: int|
            0 <= n < infos@.len() && #[trigger] crate::signing::is_signed_up_to(
                master,
                old(tx)@,
                final(tx)@,
                iv,
                sv,
                n,
            ) && crate::signing::is_refusal(
                master,
                old(tx)@,
                outputs,
                n,
                iv[n],
                sv[n],
                e@,
            );
        assert(is_signable(master, old(tx)@, n, outputs, infos@[n]@, signers@[n]@));
        assert(iv[n] == infos@[n]@ && sv[n] == signers@[n]@);
        assert(is_spent_output(master, iv[n], sv[n], outputs[n]));
        assert(false);
    }
}

/// What does not belong to the witnesses stays as it is, and so does every input from the one on
/// that could not be signed.
pub proof fn law_signing_changes_witnesses_alone(
    wallet: Wallet,
    tx: &mut Transaction,
    infos: Vec<UTXOSpendInfo>,
    signers: Vec<Signer>,
    r: Result<(), WalletError>,
    i: int,
)
    requires
        infos@.len() == signers@.len(),
        forall|k: int|
            0 <= k < infos@.len() ==> signer_fits(
                (#[trigger] infos_view(infos@)[k]),
                signers_view(signers@)[k],
            ),
        call_ensures(Wallet::sign_transaction, (&wallet, tx, infos, signers), r),
    ensures
        final(tx)@.version == old(tx)@.version,
        final(tx)@.lock_time == old(tx)@.lock_time,
        final(tx)@.output == old(tx)@.output,
        final(tx)@.input.len() == old(tx)@.input.len(),
        0 <= i < old(tx)@.input.len() ==> {
            &&& final(tx)@.input[i].previous_output == old(tx)@.input[i].previous_output
            &&& final(tx)@.input[i].script_sig == old(tx)@.input[i].script_sig
            &&& final(tx)@.input[i].sequence == old(tx)@.input[i].sequence
        },
        r is Err && 0 <= i < old(tx)@.input.len() && i == infos@.len() - 1 ==> final(tx)@.input[i]
            == old(tx)@.input[i],
{
    if 0 <= i < old(tx)@.input.len() {
        assert(final(tx)@.input[i] == final(tx)@.input[i]);
    }
}

/// Where every input has its coin and signing fails for a reason other than a key, it is an outgoing
/// coin that it fails at, or a swap coin that could not sign, and that coin's own failure is told.
pub proof fn law_failures_are_handed_on(
    wallet: Wallet,
    tx: &mut Transaction,
    infos: Vec<UTXOSpendInfo>,
    signers: Vec<Signer>,
    e: WalletError,
)
    requires
        infos@.len() == signers@.len(),
        forall|k: int|
            0 <= k < infos@.len() ==> signer_fits(
                (#[trigger] infos_view(infos@)[k]),
                signers_view(signers@)[k],
            ),
        call_ensures(Wallet::sign_transaction, (&wallet, tx, infos, signers), Err(e)),
        old(tx)@.input.len() == infos@.len(),
        !(e@ is Key),
    ensures
        exists|n: int|
            0 <= n < infos@.len() && (infos@[n]@ is OutgoingSwapCoin || (
            #[trigger] signers@[n])@ == SignerView::Failed(e@)),
{
    let master = wallet@.master_key;
    let (iv, sv) = (infos_view(infos@), signers_view(signers@));
    let n = choose|n: int|
        0 <= n < infos@.len() && #[trigger] crate::signing::is_signed_up_to(
            master,
            old(tx)@,
            final(tx)@,
            iv,
            sv,
            n,
        ) && crate::signing::is_refusal(
            master,
            old(tx)@,
            prevouts_of(master, iv, sv),
            n,
            iv[n],
            sv[n],
            e@,
        );
    assert(iv[n] == infos@[n]@ && sv[n] == signers@[n]@);
}

} // verus!
