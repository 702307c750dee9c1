//! What a wallet keeps.

use crate::keys::ExtendedKey;
use crate::swapcoin::{IncomingSwapCoin, OutgoingSwapCoin, SwapCoinView, WatchOnlySwapCoin};
use crate::table::{keys_distinct, Rows, Same, Table};
use crate::types::{bytes_equal, Network, OutPoint, Script};
use crate::utxo::{Coin, CoinView};
use vstd::prelude::*;

verus! {

/// A coin locked up until a time, as a pledge of good conduct.
#[derive(Debug)]
pub struct FidelityBond {
    /// The output script of the bond.
    pub script_pub_key: Script,
    /// The value in satoshis.
    pub amount: u64,
    /// The rest of the bond, as it is stored.
    pub record: Vec<u8>,
}

#[verifier::ext_equal]
pub struct FidelityBondView {
    pub script_pub_key: Seq<u8>,
    pub amount: u64,
    pub record: Seq<u8>,
}

impl View for FidelityBond {
    type V = FidelityBondView;

    open spec fn view(&self) -> FidelityBondView {
        FidelityBondView {
            script_pub_key: self.script_pub_key@,
            amount: self.amount,
            record: self.record@,
        }
    }
}

impl Same for FidelityBond {
    fn same(&self, other: &Self) -> (r: bool) {
        self.script_pub_key == other.script_pub_key && self.amount == other.amount && bytes_equal(
            &self.record,
            &other.record,
        )
    }
}

impl Same for Coin {
    fn same(&self, other: &Self) -> (r: bool) {
        self.0 == other.0 && self.1 == other.1
    }
}

/// The persistent state of a wallet.
#[derive(Debug)]
pub struct WalletStore {
    pub file_name: String,
    pub network: Network,
    pub master_key: ExtendedKey,
    /// The next index on the external branch.
    pub external_index: u32,
    /// The largest swap that can be offered, in satoshis.
    pub offer_maxsize: u64,
    /// Swap coins by the id of their contract transaction.
    pub incoming_swapcoins: Table<String, IncomingSwapCoin>,
    pub outgoing_swapcoins: Table<String, OutgoingSwapCoin>,
    /// Watched swap coins by swap.
    pub watchonly_swapcoins: Table<String, Vec<WatchOnlySwapCoin>>,
    /// The contract that each output was promised to.
    pub prevout_to_contract_map: Table<OutPoint, Script>,
    pub fidelity_bond: Table<u32, FidelityBond>,
    pub last_synced_height: Option<u64>,
    pub wallet_birthday: Option<u64>,
    /// The unspent outputs that the wallet knows how to spend.
    pub utxo_cache: Table<OutPoint, Coin>,
    /// The output scripts that swap coins were swept to.
    pub swept_incoming_swapcoins: Vec<Script>,
}

#[verifier::ext_equal]
pub struct StoreView {
    pub file_name: Seq<char>,
    pub network: Network,
    pub master_key: ExtendedKey,
    pub external_index: u32,
    pub offer_maxsize: u64,
    pub incoming_swapcoins: Rows<Seq<char>, SwapCoinView>,
    pub outgoing_swapcoins: Rows<Seq<char>, SwapCoinView>,
    pub watchonly_swapcoins: Rows<Seq<char>, Seq<WatchOnlySwapCoin>>,
    pub prevout_to_contract_map: Rows<OutPoint, Seq<u8>>,
    pub fidelity_bond: Rows<u32, FidelityBondView>,
    pub last_synced_height: Option<u64>,
    pub wallet_birthday: Option<u64>,
    pub utxo_cache: Rows<OutPoint, CoinView>,
    pub swept_incoming_swapcoins: Seq<Seq<u8>>,
}

/// The views of a list of scripts.
pub open spec fn scripts_view(scripts: Seq<Script>) -> Seq<Seq<u8>> {
    scripts.map_values(|s: Script| s@)
}

impl View for WalletStore {
    type V = StoreView;

    open spec fn view(&self) -> StoreView {
        StoreView {
            file_name: self.file_name@,
            network: self.network,
            master_key: self.master_key,
            external_index: self.external_index,
            offer_maxsize: self.offer_maxsize,
            incoming_swapcoins: self.incoming_swapcoins@,
            outgoing_swapcoins: self.outgoing_swapcoins@,
            watchonly_swapcoins: self.watchonly_swapcoins@,
            prevout_to_contract_map: self.prevout_to_contract_map@,
            fidelity_bond: self.fidelity_bond@,
            last_synced_height: self.last_synced_height,
            wallet_birthday: self.wallet_birthday,
            utxo_cache: self.utxo_cache@,
            swept_incoming_swapcoins: scripts_view(self.swept_incoming_swapcoins@),
        }
    }
}

impl StoreView {
    /// No key is there twice in any table, and each cached coin stands under its own outpoint.
    pub open spec fn well_formed(self) -> bool {
        &&& keys_distinct(self.incoming_swapcoins)
        &&& keys_distinct(self.outgoing_swapcoins)
        &&& keys_distinct(self.watchonly_swapcoins)
        &&& keys_distinct(self.prevout_to_contract_map)
        &&& keys_distinct(self.fidelity_bond)
        &&& keys_distinct(self.utxo_cache)
        &&& self.swept_incoming_swapcoins.no_duplicates()
        &&& forall|i: int|
            0 <= i < self.utxo_cache.len() ==> (#[trigger] self.utxo_cache[i]).1.0.outpoint()
                == self.utxo_cache[i].0
    }

    /// The state of a wallet that has just been made.
    pub open spec fn fresh(
        file_name: Seq<char>,
        network: Network,
        master_key: ExtendedKey,
        wallet_birthday: Option<u64>,
    ) -> StoreView {
        StoreView {
            file_name,
            network,
            master_key,
            external_index: 0,
            offer_maxsize: 0,
            incoming_swapcoins: Seq::empty(),
            outgoing_swapcoins: Seq::empty(),
            watchonly_swapcoins: Seq::empty(),
            prevout_to_contract_map: Seq::empty(),
            fidelity_bond: Seq::empty(),
            last_synced_height: None,
            wallet_birthday,
            utxo_cache: Seq::empty(),
            swept_incoming_swapcoins: Seq::empty(),
        }
    }
}

impl WalletStore {
    /// The state of a new wallet.
    pub fn new(
        file_name: String,
        network: Network,
        master_key: ExtendedKey,
        wallet_birthday: Option<u64>,
    ) -> (r: Self)
        ensures
            r@ == StoreView::fresh(file_name@, network, master_key, wallet_birthday),
            r@.well_formed(),
    {
        let r = WalletStore {
            file_name,
            network,
            master_key,
            external_index: 0,
            offer_maxsize: 0,
            incoming_swapcoins: Table::new(),
            outgoing_swapcoins: Table::new(),
            watchonly_swapcoins: Table::new(),
            prevout_to_contract_map: Table::new(),
            fidelity_bond: Table::new(),
            last_synced_height: None,
            wallet_birthday,
            utxo_cache: Table::new(),
            swept_incoming_swapcoins: Vec::new(),
        };
        assert(r@ =~= StoreView::fresh(file_name@, network, master_key, wallet_birthday));
        r
    }

    /// Whether a swap coin was swept to this script.
    pub fn was_swept_to(&self, script: &Script) -> (r: bool)
        ensures
            r == self@.swept_incoming_swapcoins.contains(script@),
    {
        let mut i: usize = 0;
        while i < self.swept_incoming_swapcoins.len()
            invariant
                i <= self.swept_incoming_swapcoins.len(),
                forall|k: int|
                    0 <= k < i ==> #[trigger] self@.swept_incoming_swapcoins[k] != script@,
            decreases self.swept_incoming_swapcoins.len() - i,
        {
            if self.swept_incoming_swapcoins[i] == *script {
                assert(self@.swept_incoming_swapcoins[i as int] == script@);
                return true;
            }
            assert(self@.swept_incoming_swapcoins[i as int] != script@);
            i += 1;
        }
        false
    }
}

} // verus!
