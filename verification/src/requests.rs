//! What swap coins and bonds are asked for before a transaction is signed.

use crate::coin_selector::FeeRate;
use crate::error::WalletError;
use crate::signing::{signer_fits, Signer, SignerView};
use crate::store::StoreView;
use crate::swapcoin::{IncomingSwapCoin, OutgoingSwapCoin, SwapCoinView};
use crate::types::{Script, Transaction, TransactionView};
use crate::utxo::{SpendInfoView, UTXOSpendInfo};
use crate::wallet::{has_multisig, multisig_coin, Wallet};
use crate::wallet_laws::{is_found, lemma_found};
use vstd::prelude::*;

verus! {

/// What an input needs beside the seed of the wallet.
#[derive(Debug)]
pub enum SigningRequest {
    /// Nothing: the seed is enough, or the input cannot be signed at all.
    Nothing,
    /// The key and the script of this bond.
    Bond { index: u32 },
    /// The transaction that spends the incoming coin to the script, signed.
    Spend { coin: IncomingSwapCoin, value: u64, to: Script, feerate: FeeRate },
    /// The transaction, signed as the one that takes the outgoing coin back.
    Recovery { coin: OutgoingSwapCoin, tx: Transaction },
}

#[verifier::ext_equal]
pub enum SigningRequestView {
    Nothing,
    Bond { index: u32 },
    Spend { coin: SwapCoinView, value: u64, to: Seq<u8>, feerate: FeeRate },
    Recovery { coin: SwapCoinView, tx: TransactionView },
}

impl View for SigningRequest {
    type V = SigningRequestView;

    open spec fn view(&self) -> SigningRequestView {
        match self {
            SigningRequest::Nothing => SigningRequestView::Nothing,
            SigningRequest::Bond { index } => SigningRequestView::Bond { index: *index },
            SigningRequest::Spend { coin, value, to, feerate } => SigningRequestView::Spend {
                coin: coin@,
                value: *value,
                to: to@,
                feerate: *feerate,
            },
            SigningRequest::Recovery { coin, tx } => SigningRequestView::Recovery {
                coin: coin@,
                tx: tx@,
            },
        }
    }
}

/// An incoming coin is spent as a whole, to the first output of the transaction, at one satoshi per
/// virtual byte.
pub open spec fn spend_request(
    store: StoreView,
    tx: TransactionView,
    multisig_redeemscript: Seq<u8>,
) -> Option<SigningRequestView> {
    if has_multisig(store.incoming_swapcoins, multisig_redeemscript) && tx.output.len() > 0 {
        let coin = multisig_coin(store.incoming_swapcoins, multisig_redeemscript);
        Some(
            SigningRequestView::Spend {
                coin,
                value: coin.funding_amount,
                to: tx.output[0].script_pubkey,
                feerate: FeeRate { sats: 1, vbytes: 1 },
            },
        )
    } else {
        None
    }
}

/// What an input needs, by the coin that it spends. None where the swap coin is not there, or where
/// there is no output to spend it to.
pub open spec fn signing_request(
    store: StoreView,
    tx: TransactionView,
    info: SpendInfoView,
) -> Option<SigningRequestView> {
    match info {
        SpendInfoView::SeedCoin { .. } => Some(SigningRequestView::Nothing),
        SpendInfoView::SweptCoin { .. } => Some(SigningRequestView::Nothing),
        SpendInfoView::OutgoingSwapCoin { .. } => Some(SigningRequestView::Nothing),
        SpendInfoView::FidelityBondCoin { index, .. } => Some(SigningRequestView::Bond { index }),
        SpendInfoView::IncomingSwapCoin { multisig_redeemscript } => spend_request(
            store,
            tx,
            multisig_redeemscript,
        ),
        SpendInfoView::HashlockContract { swapcoin_multisig_redeemscript, .. } => spend_request(
            store,
            tx,
            swapcoin_multisig_redeemscript,
        ),
        SpendInfoView::TimelockContract { swapcoin_multisig_redeemscript, .. } => if has_multisig(
            store.outgoing_swapcoins,
            swapcoin_multisig_redeemscript,
        ) {
            Some(
                SigningRequestView::Recovery {
                    coin: multisig_coin(store.outgoing_swapcoins, swapcoin_multisig_redeemscript),
                    tx,
                },
            )
        } else {
            None
        },
    }
}

pub open spec fn request_option(request: Option<SigningRequest>) -> Option<SigningRequestView> {
    match request {
        Some(request) => Some(request@),
        None => None,
    }
}

/// What a swap coin answered makes the signer of its input: the witness of the first input of the
/// transaction that it signed, or its failure.
pub fn contract_signer(answer: Result<Transaction, WalletError>) -> (r: Signer)
    requires
        answer is Ok ==> answer->Ok_0@.input.len() > 0,
    ensures
        r@ == match answer {
            Ok(tx) => SignerView::Contract(tx@.input[0].witness),
            Err(e) => SignerView::Failed(e@),
        },
{
    match answer {
        Ok(tx) => {
            let mut tx = tx;
            assert(tx@.input[0] == tx.input@[0]@);
            let first = tx.input.remove(0);
            Signer::Contract(first.witness)
        },
        Err(e) => Signer::Failed(e),
    }
}

/// Whether the request of an input is made. The script of a bond is always needed, for the outputs
/// that are spent; a swap coin is asked only where every input has its coin and no input before this
/// one ends the signing.
pub open spec fn is_asked(info: SpendInfoView, is_counted: bool, has_ended: bool) -> bool {
    info is FidelityBondCoin || (is_counted && !has_ended)
}

/// Whether the request of an input is made.
pub fn must_ask(info: &UTXOSpendInfo, is_counted: bool, has_ended: bool) -> (r: bool)
    ensures
        r == is_asked(info@, is_counted, has_ended),
{
    match info {
        UTXOSpendInfo::FidelityBondCoin { .. } => true,
        _ => is_counted && !has_ended,
    }
}

/// Whether an input ends the signing: outgoing swap coins cannot be signed for, and a swap coin may
/// have failed.
pub fn ends_signing(info: &UTXOSpendInfo, signer: &Signer) -> (r: bool)
    ensures
        r == (info@ is OutgoingSwapCoin || signer@ is Failed),
{
    match (info, signer) {
        (UTXOSpendInfo::OutgoingSwapCoin { .. }, _) => true,
        (_, Signer::Failed(_)) => true,
        _ => false,
    }
}

/// Who answers a request as asked signs the input: a bond with its key and script, a swap coin with
/// a witness or a failure.
pub proof fn law_answers_fit(
    store: StoreView,
    tx: TransactionView,
    info: SpendInfoView,
    signer: SignerView,
)
    requires
        signing_request(store, tx, info) is Some,
        signing_request(store, tx, info)->0 is Bond ==> signer is Bond,
        signing_request(store, tx, info)->0 is Spend ==> signer is Contract || signer is Failed,
        signing_request(store, tx, info)->0 is Recovery ==> signer is Contract || signer is Failed,
    ensures
        signer_fits(info, signer),
{
}

impl Wallet {
    fn request_spend(&self, tx: &Transaction, multisig_redeemscript: &Script) -> (r: Option<
        SigningRequest,
    >)
        ensures
            request_option(r) == spend_request(self@, tx@, multisig_redeemscript@),
    {
        if tx.output.len() == 0 {
            return None;
        }
        assert(tx@.output[0] == tx.output@[0]@);
        match self.find_incoming_swapcoin_by_multisig(multisig_redeemscript) {
            Some(coin) => Some(
                SigningRequest::Spend {
                    value: coin.funding_amount,
                    coin: coin.clone(),
                    to: tx.output[0].script_pubkey.clone(),
                    feerate: FeeRate { sats: 1, vbytes: 1 },
                },
            ),
            None => None,
        }
    }

    /// What the input of a transaction needs that spends a coin.
    pub fn signing_request(&self, tx: &Transaction, info: &UTXOSpendInfo) -> (r: Option<
        SigningRequest,
    >)
        ensures
            request_option(r) == signing_request(self@, tx@, info@),
    {
        match info {
            UTXOSpendInfo::SeedCoin { .. }
            | UTXOSpendInfo::SweptCoin { .. }
            | UTXOSpendInfo::OutgoingSwapCoin { .. } => Some(SigningRequest::Nothing),
            UTXOSpendInfo::FidelityBondCoin { index, .. } => Some(
                SigningRequest::Bond { index: *index },
            ),
            UTXOSpendInfo::IncomingSwapCoin { multisig_redeemscript } => self.request_spend(
                tx,
                multisig_redeemscript,
            ),
            UTXOSpendInfo::HashlockContract { swapcoin_multisig_redeemscript, .. } =>
                self.request_spend(tx, swapcoin_multisig_redeemscript),
            UTXOSpendInfo::TimelockContract { swapcoin_multisig_redeemscript, .. } => {
                match self.find_outgoing_swapcoin_by_multisig(swapcoin_multisig_redeemscript) {
                    Some(coin) => Some(
                        SigningRequest::Recovery { coin: coin.clone(), tx: tx.clone() },
                    ),
                    None => None,
                }
            },
        }
    }
}

/// The request for a coin of the wallet on a multisig script: the first incoming coin on it, whole,
/// to the first output of the transaction, at one satoshi a byte.
pub open spec fn asks_to_spend(
    store: StoreView,
    tx: TransactionView,
    script: Seq<u8>,
    request: Option<SigningRequestView>,
) -> bool {
    match request {
        Some(SigningRequestView::Spend { coin, value, to, feerate }) => {
            &&& is_found(store.incoming_swapcoins, script, Some(coin))
            &&& value == coin.funding_amount
            &&& tx.output.len() > 0 && to == tx.output[0].script_pubkey
            &&& feerate.sats == 1 && feerate.vbytes == 1
        },
        None => tx.output.len() == 0 || is_found(store.incoming_swapcoins, script, None),
        _ => false,
    }
}

/// What each kind of coin needs: a bond its own key, a coin in a multisig or in a hashlocked contract
/// the incoming coin on its multisig, a coin in a timelocked contract the outgoing coin on its
/// multisig, for this very transaction. The coins of the seed need nothing.
pub proof fn law_requests_by_kind(
    wallet: Wallet,
    tx: Transaction,
    info: UTXOSpendInfo,
    r: Option<SigningRequest>,
)
    requires
        call_ensures(Wallet::signing_request, (&wallet, &tx, &info), r),
    ensures
        match info@ {
            SpendInfoView::SeedCoin { .. } => request_option(r) == Some(
                SigningRequestView::Nothing,
            ),
            SpendInfoView::SweptCoin { .. } => request_option(r) == Some(
                SigningRequestView::Nothing,
            ),
            SpendInfoView::OutgoingSwapCoin { .. } => request_option(r) == Some(
                SigningRequestView::Nothing,
            ),
            SpendInfoView::FidelityBondCoin { index: bond, .. } => request_option(r) matches Some(
                SigningRequestView::Bond { index },
            ) && index == bond,
            SpendInfoView::IncomingSwapCoin { multisig_redeemscript: script } => asks_to_spend(
                wallet@,
                tx@,
                script,
                request_option(r),
            ),
            SpendInfoView::HashlockContract {
                swapcoin_multisig_redeemscript: script,
                ..
            } => asks_to_spend(wallet@, tx@, script, request_option(r)),
            SpendInfoView::TimelockContract {
                swapcoin_multisig_redeemscript: script,
                ..
            } => match request_option(r) {
                Some(SigningRequestView::Recovery { coin, tx: asked }) => asked == tx@ && is_found(
                    wallet@.outgoing_swapcoins,
                    script,
                    Some(coin),
                ),
                None => is_found(wallet@.outgoing_swapcoins, script, None),
                _ => false,
            },
        },
{
    match info@ {
        SpendInfoView::IncomingSwapCoin { multisig_redeemscript: script } => {
            lemma_found(wallet@.incoming_swapcoins, script);
        },
        SpendInfoView::HashlockContract { swapcoin_multisig_redeemscript: script, .. } => {
            lemma_found(wallet@.incoming_swapcoins, script);
        },
        SpendInfoView::TimelockContract { swapcoin_multisig_redeemscript: script, .. } => {
            lemma_found(wallet@.outgoing_swapcoins, script);
        },
        _ => {},
    }
}

/// A swap coin that signed gives the witness of its first input, one that failed its failure.
pub proof fn law_answers_are_handed_on(answer: Result<Transaction, WalletError>, r: Signer)
    requires
        answer is Ok ==> answer->Ok_0@.input.len() > 0,
        call_ensures(contract_signer, (answer,), r),
    ensures
        answer matches Ok(tx) ==> (r@ matches SignerView::Contract(witness) && witness
            == tx@.input[0].witness),
        answer matches Err(e) ==> (r@ matches SignerView::Failed(failure) && failure == e@),
{
}

/// A bond is always asked for its script. Whoever else is asked is asked before the signing has
/// ended and only where every input has its coin; an outgoing coin and a failure end it, nothing
/// else does.
pub proof fn law_who_is_asked(
    info: UTXOSpendInfo,
    signer: Signer,
    is_counted: bool,
    has_ended: bool,
    asked: bool,
    ends: bool,
)
    requires
        call_ensures(must_ask, (&info, is_counted, has_ended), asked),
        call_ensures(ends_signing, (&info, &signer), ends),
    ensures
        info@ is FidelityBondCoin ==> asked,
        !(info@ is FidelityBondCoin) ==> (asked <==> is_counted && !has_ended),
        ends <==> info@ is OutgoingSwapCoin || signer@ is Failed,
{
}

} // verus!
