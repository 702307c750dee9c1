//! What can go wrong in the wallet.

use crate::text::concat_texts;
use crate::types::Txid;
use vstd::prelude::*;

verus! {

/// An error of the wallet.
#[derive(Debug)]
pub enum WalletError {
    /// The coins do not cover the amount and its fee, in satoshis.
    InsufficientFund { available: u64, required: u64 },
    /// A proof of inclusion names other transactions than the one expected.
    MerkleProofInvalid { expected: Txid, got: Vec<Txid> },
    /// A wait was broken off.
    Interrupted(String),
    /// A key, a path or a signature could not be made.
    Key(String),
    /// Anything else.
    General(String),
}

#[verifier::ext_equal]
pub enum WalletErrorView {
    InsufficientFund { available: u64, required: u64 },
    MerkleProofInvalid { expected: Txid, got: Seq<Txid> },
    Interrupted(Seq<char>),
    Key(Seq<char>),
    General(Seq<char>),
}

impl View for WalletError {
    type V = WalletErrorView;

    open spec fn view(&self) -> WalletErrorView {
        match self {
            WalletError::InsufficientFund { available, required } =>
                WalletErrorView::InsufficientFund { available: *available, required: *required },
            WalletError::MerkleProofInvalid { expected, got } =>
                WalletErrorView::MerkleProofInvalid { expected: *expected, got: got@ },
            WalletError::Interrupted(text) => WalletErrorView::Interrupted(text@),
            WalletError::Key(text) => WalletErrorView::Key(text@),
            WalletError::General(text) => WalletErrorView::General(text@),
        }
    }
}

/// An error with a text behind what it is about.
pub fn general_error(about: &str, text: &str) -> (r: WalletError)
    ensures
        r@ == WalletErrorView::General(about@ + text@),
{
    WalletError::General(concat_texts(about, text))
}

} // verus!
