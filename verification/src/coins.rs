//! The coins of a wallet: what they are, and which of them are where.

use crate::chain::{account_key, derive_account_key};
use crate::error::WalletError;
use crate::keys::{fingerprint, key_fingerprint};
use crate::store::{FidelityBondView, StoreView};
use crate::swapcoin::SwapCoinView;
use crate::table::{first_where, lemma_first_where};
use crate::text::{
    get_hd_path_from_descriptor, hd_path, key_path, key_path_text, starts_with, text_starts_with,
};
use crate::types::{script_option, AddressType, Script};
use crate::utxo::{SpendInfoView, UTXOSpendInfo, Utxo, UtxoView};
use crate::wallet::{has_multisig, multisig_coin, Wallet};
use vstd::prelude::*;

verus! {

/// The address type that a descriptor stands for.
pub open spec fn descriptor_type(descriptor: Seq<char>) -> AddressType {
    if starts_with(descriptor, "tr("@) {
        AddressType::P2TR
    } else {
        AddressType::P2WPKH
    }
}

/// A bond pays this amount to this script.
pub open spec fn bond_of(utxo: UtxoView) -> spec_fn(FidelityBondView) -> bool {
    |bond: FidelityBondView|
        bond.script_pub_key == utxo.script_pub_key && bond.amount == utxo.amount
}

/// What it takes to spend a fidelity bond.
pub open spec fn fidelity_info(store: StoreView, utxo: UtxoView) -> Option<SpendInfoView> {
    let i = first_where(store.fidelity_bond, bond_of(utxo));
    if i < store.fidelity_bond.len() {
        Some(
            SpendInfoView::FidelityBondCoin {
                index: store.fidelity_bond[i].0,
                input_value: utxo.amount,
            },
        )
    } else {
        None
    }
}

/// What it takes to spend a coin that a swap coin was swept to.
pub open spec fn swept_info(store: StoreView, utxo: UtxoView) -> Option<SpendInfoView> {
    match utxo.descriptor {
        Some(descriptor) => match hd_path(descriptor) {
            Some(path) => if store.swept_incoming_swapcoins.contains(utxo.script_pub_key) {
                Some(
                    SpendInfoView::SweptCoin {
                        path: key_path(path.branch, path.index),
                        input_value: utxo.amount,
                        address_type: descriptor_type(descriptor),
                    },
                )
            } else {
                None
            },
            None => None,
        },
        None => None,
    }
}

/// A swap coin whose contract is this output.
pub open spec fn contract_of(utxo: UtxoView) -> spec_fn(SwapCoinView) -> bool {
    |coin: SwapCoinView| coin.contract_outpoint() == utxo.outpoint()
}

/// A swap coin whose contract is this output and whose preimage is known.
pub open spec fn open_contract_of(utxo: UtxoView) -> spec_fn(SwapCoinView) -> bool {
    |coin: SwapCoinView| coin.contract_outpoint() == utxo.outpoint() && coin.is_preimage_known()
}

pub open spec fn script_or_empty(script: Option<Seq<u8>>) -> Seq<u8> {
    match script {
        Some(s) => s,
        None => Seq::empty(),
    }
}

/// What it takes to spend the output of a live contract: the timelock of an outgoing one, the
/// preimage of an incoming one.
pub open spec fn contract_info(store: StoreView, utxo: UtxoView) -> Option<SpendInfoView> {
    let outgoing = first_where(store.outgoing_swapcoins, contract_of(utxo));
    let incoming = first_where(store.incoming_swapcoins, open_contract_of(utxo));
    if outgoing < store.outgoing_swapcoins.len() {
        Some(
            SpendInfoView::TimelockContract {
                swapcoin_multisig_redeemscript: script_or_empty(
                    store.outgoing_swapcoins[outgoing].1.contract_redeemscript,
                ),
                input_value: utxo.amount,
            },
        )
    } else if incoming < store.incoming_swapcoins.len() {
        Some(
            SpendInfoView::HashlockContract {
                swapcoin_multisig_redeemscript: script_or_empty(
                    store.incoming_swapcoins[incoming].1.contract_redeemscript,
                ),
                input_value: utxo.amount,
            },
        )
    } else {
        None
    }
}

/// The fingerprint of the account key for an address type.
pub open spec fn account_fingerprint(store: StoreView, address_type: AddressType) -> Option<
    Seq<char>,
> {
    match account_key(store.master_key, address_type) {
        Some(key) => key_fingerprint(key),
        None => None,
    }
}

/// What it takes to spend a coin in a swap multisig.
pub open spec fn swap_info(store: StoreView, utxo: UtxoView) -> Option<SpendInfoView> {
    let script = script_or_empty(utxo.witness_script);
    if has_multisig(store.incoming_swapcoins, script) && multisig_coin(
        store.incoming_swapcoins,
        script,
    ).other_privkey is Some {
        Some(SpendInfoView::IncomingSwapCoin { multisig_redeemscript: script })
    } else if has_multisig(store.outgoing_swapcoins, script) && multisig_coin(
        store.outgoing_swapcoins,
        script,
    ).hash_preimage is Some {
        Some(SpendInfoView::OutgoingSwapCoin { multisig_redeemscript: script })
    } else {
        None
    }
}

/// What it takes to spend a swept coin, a coin of the seed or a coin in a swap multisig. `Err`
/// where the account key could not be derived.
pub open spec fn wallet_info(store: StoreView, utxo: UtxoView) -> Result<Option<SpendInfoView>, ()> {
    if swept_info(store, utxo) is Some {
        Ok(swept_info(store, utxo))
    } else {
        match utxo.descriptor {
            None => Ok(None),
            Some(descriptor) => match hd_path(descriptor) {
                Some(path) => match account_fingerprint(store, descriptor_type(descriptor)) {
                    Some(own) => if path.fingerprint == own {
                        Ok(
                            Some(
                                SpendInfoView::SeedCoin {
                                    path: key_path(path.branch, path.index),
                                    input_value: utxo.amount,
                                    address_type: descriptor_type(descriptor),
                                },
                            ),
                        )
                    } else {
                        Ok(None)
                    },
                    None => Err(()),
                },
                None => Ok(swap_info(store, utxo)),
            },
        }
    }
}

/// What it takes to spend an output: a bond, a live contract, or a coin of the wallet.
pub open spec fn spend_info(store: StoreView, utxo: UtxoView) -> Result<Option<SpendInfoView>, ()> {
    if fidelity_info(store, utxo) is Some {
        Ok(fidelity_info(store, utxo))
    } else if contract_info(store, utxo) is Some {
        Ok(contract_info(store, utxo))
    } else {
        wallet_info(store, utxo)
    }
}

/// The view of optional spend info.
pub open spec fn info_option(info: Option<UTXOSpendInfo>) -> Option<SpendInfoView> {
    match info {
        Some(i) => Some(i@),
        None => None,
    }
}

/// The address type that a descriptor stands for.
fn type_of_descriptor(descriptor: &String) -> (r: AddressType)
    ensures
        r == descriptor_type(descriptor@),
{
    if text_starts_with(descriptor.as_str(), "tr(") {
        AddressType::P2TR
    } else {
        AddressType::P2WPKH
    }
}

fn clone_or_empty(script: &Option<Script>) -> (r: Script)
    ensures
        r@ == script_or_empty(script_option(*script)),
{
    match script {
        Some(s) => s.clone(),
        None => Script::new(),
    }
}

impl Wallet {
    /// Whether an output is a fidelity bond of the wallet.
    pub fn check_if_fidelity(&self, utxo: &Utxo) -> (r: Option<UTXOSpendInfo>)
        ensures
            info_option(r) == fidelity_info(self@, utxo@),
    {
        let bonds = &self.store.fidelity_bond;
        let mut i: usize = 0;
        while i < bonds.rows.len()
            invariant
                bonds == self.store.fidelity_bond,
                i <= bonds.rows.len(),
                forall|k: int| 0 <= k < i ==> !bond_of(utxo@)((#[trigger] bonds@[k]).1),
            decreases bonds.rows.len() - i,
        {
            let bond = &bonds.rows[i].1;
            assert(bonds@[i as int] == (bonds.rows@[i as int].0, bond@));
            if bond.script_pub_key == utxo.script_pub_key && bond.amount == utxo.amount {
                proof {
                    lemma_first_where(bonds@, bond_of(utxo@), i as int);
                }
                return Some(
                    UTXOSpendInfo::FidelityBondCoin {
                        index: bonds.rows[i].0,
                        input_value: bond.amount,
                    },
                );
            }
            i += 1;
        }
        proof {
            lemma_first_where(bonds@, bond_of(utxo@), i as int);
        }
        None
    }

    /// Whether a swap coin was swept to an output.
    pub fn check_if_swept_incoming_swapcoin(&self, utxo: &Utxo) -> (r: Option<UTXOSpendInfo>)
        ensures
            info_option(r) == swept_info(self@, utxo@),
    {
        if !self.store.was_swept_to(&utxo.script_pub_key) {
            return None;
        }
        match &utxo.descriptor {
            Some(descriptor) => match get_hd_path_from_descriptor(descriptor.as_str()) {
                Some(path) => Some(
                    UTXOSpendInfo::SweptCoin {
                        path: key_path_text(path.branch, path.index),
                        input_value: utxo.amount,
                        address_type: type_of_descriptor(descriptor),
                    },
                ),
                None => None,
            },
            None => None,
        }
    }

    /// Whether an output belongs to a live contract.
    pub fn check_and_derive_live_contract_spend_info(&self, utxo: &Utxo) -> (r: Result<
        Option<UTXOSpendInfo>,
        WalletError,
    >)
        ensures
            r is Ok,
            info_option(r->Ok_0) == contract_info(self@, utxo@),
    {
        let outgoing = &self.store.outgoing_swapcoins;
        let mut i: usize = 0;
        while i < outgoing.rows.len()
            invariant
                outgoing == self.store.outgoing_swapcoins,
                i <= outgoing.rows.len(),
                forall|k: int| 0 <= k < i ==> !contract_of(utxo@)((#[trigger] outgoing@[k]).1),
            decreases outgoing.rows.len() - i,
        {
            let coin = &outgoing.rows[i].1;
            assert(outgoing@[i as int] == (outgoing.rows@[i as int].0@, coin@));
            if utxo.txid == coin.contract_txid() && utxo.vout == coin.contract_vout {
                proof {
                    lemma_first_where(outgoing@, contract_of(utxo@), i as int);
                }
                return Ok(
                    Some(
                        UTXOSpendInfo::TimelockContract {
                            swapcoin_multisig_redeemscript: clone_or_empty(
                                &coin.contract_redeemscript,
                            ),
                            input_value: utxo.amount,
                        },
                    ),
                );
            }
            i += 1;
        }
        proof {
            lemma_first_where(outgoing@, contract_of(utxo@), i as int);
        }
        let incoming = &self.store.incoming_swapcoins;
        let mut j: usize = 0;
        while j < incoming.rows.len()
            invariant
                incoming == self.store.incoming_swapcoins,
                first_where(self@.outgoing_swapcoins, contract_of(utxo@))
                    == self@.outgoing_swapcoins.len(),
                j <= incoming.rows.len(),
                forall|k: int|
                    0 <= k < j ==> !open_contract_of(utxo@)((#[trigger] incoming@[k]).1),
            decreases incoming.rows.len() - j,
        {
            let coin = &incoming.rows[j].1;
            assert(incoming@[j as int] == (incoming.rows@[j as int].0@, coin@));
            if utxo.txid == coin.contract_txid() && utxo.vout == coin.contract_vout
                && coin.is_preimage_known() {
                proof {
                    lemma_first_where(incoming@, open_contract_of(utxo@), j as int);
                }
                return Ok(
                    Some(
                        UTXOSpendInfo::HashlockContract {
                            swapcoin_multisig_redeemscript: clone_or_empty(
                                &coin.contract_redeemscript,
                            ),
                            input_value: utxo.amount,
                        },
                    ),
                );
            }
            j += 1;
        }
        proof {
            lemma_first_where(incoming@, open_contract_of(utxo@), j as int);
        }
        Ok(None)
    }

    /// Whether an output is a coin of the wallet: swept, of the seed, or in a swap multisig.
    pub fn check_and_derive_descriptor_utxo_or_swap_coin(&self, utxo: &Utxo) -> (r: Result<
        Option<UTXOSpendInfo>,
        WalletError,
    >)
        ensures
            match r {
                Ok(info) => wallet_info(self@, utxo@) == Ok::<_, ()>(info_option(info)),
                Err(e) => wallet_info(self@, utxo@) is Err && e is Key,
            },
    {
        if let Some(info) = self.check_if_swept_incoming_swapcoin(utxo) {
            return Ok(Some(info));
        }
        let descriptor = match &utxo.descriptor {
            Some(descriptor) => descriptor,
            None => {
                return Ok(None);
            },
        };
        match get_hd_path_from_descriptor(descriptor.as_str()) {
            Some(path) => {
                let address_type = type_of_descriptor(descriptor);
                let account = match derive_account_key(&self.store.master_key, address_type) {
                    Ok(account) => account,
                    Err(e) => {
                        return Err(e);
                    },
                };
                let own = match fingerprint(&account) {
                    Ok(own) => own,
                    Err(text) => {
                        return Err(WalletError::Key(text));
                    },
                };
                if path.fingerprint == own {
                    Ok(
                        Some(
                            UTXOSpendInfo::SeedCoin {
                                path: key_path_text(path.branch, path.index),
                                input_value: utxo.amount,
                                address_type,
                            },
                        ),
                    )
                } else {
                    Ok(None)
                }
            },
            None => {
                let script = clone_or_empty(&utxo.witness_script);
                if let Some(coin) = self.find_incoming_swapcoin_by_multisig(&script) {
                    if coin.other_privkey.is_some() {
                        return Ok(
                            Some(UTXOSpendInfo::IncomingSwapCoin { multisig_redeemscript: script }),
                        );
                    }
                }
                if let Some(coin) = self.find_outgoing_swapcoin_by_multisig(&script) {
                    if coin.hash_preimage.is_some() {
                        return Ok(
                            Some(UTXOSpendInfo::OutgoingSwapCoin { multisig_redeemscript: script }),
                        );
                    }
                }
                Ok(None)
            },
        }
    }

    /// What it takes to spend an output, where the wallet can.
    pub fn derive_spend_info(&self, utxo: &Utxo) -> (r: Result<Option<UTXOSpendInfo>, WalletError>)
        ensures
            match r {
                Ok(info) => spend_info(self@, utxo@) == Ok::<_, ()>(info_option(info)),
                Err(e) => spend_info(self@, utxo@) is Err && e is Key,
            },
    {
        if let Some(info) = self.check_if_fidelity(utxo) {
            return Ok(Some(info));
        }
        match self.check_and_derive_live_contract_spend_info(utxo) {
            Ok(Some(info)) => {
                return Ok(Some(info));
            },
            Ok(None) => {},
            Err(e) => {
                return Err(e);
            },
        }
        self.check_and_derive_descriptor_utxo_or_swap_coin(utxo)
    }
}

} // verus!
