//! The wallet and its swap coins.

use crate::error::{WalletError, WalletErrorView};
use crate::keys::{
    entropy_of_mnemonic, generate_mnemonic, master_key, mnemonic_entropy, new_master_key, ExtendedKey,
};
use crate::store::{StoreView, WalletStore};
use crate::swapcoin::{
    write_txid, IncomingSwapCoin, OutgoingSwapCoin, SwapCoin, SwapCoinView, WatchOnlySwapCoin,
};
use crate::table::{
    has_key, keys_distinct, law_put_then_get, law_put_then_take, law_take_then_get, same_contents,
    value_of, with_row, without_row, Rows, Table,
};
use crate::types::{Network, OutPoint, Script};
use vstd::prelude::*;
use vstd::string::StringExecFns;

verus! {

/// A wallet.
#[derive(Debug)]
pub struct Wallet {
    pub store: WalletStore,
}

impl View for Wallet {
    type V = StoreView;

    open spec fn view(&self) -> StoreView {
        self.store@
    }
}

/// Two wallets are equal where they agree on what matters for keys and coins: the network, the
/// master key, the external index, the offer size, the fidelity bonds, the birthday and the
/// cached coins. File name, swap coins, contract cache and sync height make no difference.
impl PartialEq for Wallet {
    fn eq(&self, other: &Self) -> (r: bool) {
        self.store.network == other.store.network && self.store.master_key
            == other.store.master_key && self.store.external_index == other.store.external_index
            && self.store.offer_maxsize == other.store.offer_maxsize
            && self.store.fidelity_bond.same_rows(&other.store.fidelity_bond)
            && self.store.wallet_birthday == other.store.wallet_birthday
            && self.store.utxo_cache.same_rows(&other.store.utxo_cache)
    }
}

impl vstd::std_specs::cmp::PartialEqSpecImpl for Wallet {
    open spec fn obeys_eq_spec() -> bool {
        true
    }

    open spec fn eq_spec(&self, other: &Self) -> bool {
        same_wallet(self@, other@)
    }
}

/// The two states agree on what matters for keys and coins.
pub open spec fn same_wallet(a: StoreView, b: StoreView) -> bool {
    &&& a.network == b.network
    &&& a.master_key == b.master_key
    &&& a.external_index == b.external_index
    &&& a.offer_maxsize == b.offer_maxsize
    &&& same_contents(a.fidelity_bond, b.fidelity_bond)
    &&& a.wallet_birthday == b.wallet_birthday
    &&& same_contents(a.utxo_cache, b.utxo_cache)
}

/// The master key that a seed leads to on a network.
pub open spec fn seed_key(network: Network, seed: Seq<u8>) -> Option<ExtendedKey> {
    master_key(network == Network::Bitcoin, seed)
}

/// The name mismatch between a wallet file and the configuration.
pub open spec fn name_mismatch(expected: Seq<char>, found: Seq<char>) -> Seq<char> {
    "Wallet name of database file and core mismatch, expected "@ + expected + ", found "@ + found
}

/// The first coin of a list with this multisig script.
pub open spec fn first_with_multisig(
    rows: Rows<Seq<char>, SwapCoinView>,
    script: Seq<u8>,
    i: int,
) -> bool {
    &&& 0 <= i < rows.len()
    &&& rows[i].1.multisig() == Some(script)
    &&& forall|k: int| 0 <= k < i ==> (#[trigger] rows[k]).1.multisig() != Some(script)
}

/// Some coin has this multisig script.
pub open spec fn has_multisig(rows: Rows<Seq<char>, SwapCoinView>, script: Seq<u8>) -> bool {
    exists|i: int| 0 <= i < rows.len() && (#[trigger] rows[i]).1.multisig() == Some(script)
}

/// The first coin with this multisig script.
pub open spec fn multisig_coin(rows: Rows<Seq<char>, SwapCoinView>, script: Seq<u8>) -> SwapCoinView {
    rows[choose|i: int| first_with_multisig(rows, script, i)].1
}

/// The outputs number zero of the contract transactions.
pub open spec fn contract_outpoints(rows: Rows<Seq<char>, SwapCoinView>) -> Seq<OutPoint> {
    rows.map_values(
        |row: (Seq<char>, SwapCoinView)| OutPoint { txid: row.1.contract_txid(), vout: 0 },
    )
}

/// The keys of the coins of a swap, in the order of the rows.
pub open spec fn keys_for_swap(rows: Rows<Seq<char>, SwapCoinView>, swap_id: Seq<char>) -> Seq<
    Seq<char>,
>
    decreases rows.len(),
{
    if rows.len() == 0 {
        Seq::empty()
    } else {
        let rest = keys_for_swap(rows.drop_last(), swap_id);
        if rows.last().1.swap_id == Some(swap_id) {
            rest.push(rows.last().0)
        } else {
            rest
        }
    }
}

/// The views of a list of texts.
pub open spec fn texts_view(texts: Seq<String>) -> Seq<Seq<char>> {
    texts.map_values(|t: String| t@)
}

fn find_by_multisig<'a>(coins: &'a Table<String, SwapCoin>, script: &Script) -> (r: Option<
    &'a SwapCoin,
>)
    ensures
        match r {
            Some(coin) => has_multisig(coins@, script@) && coin@ == multisig_coin(
                coins@,
                script@,
            ),
            None => !has_multisig(coins@, script@),
        },
{
    let mut i: usize = 0;
    while i < coins.rows.len()
        invariant
            i <= coins.rows.len(),
            forall|k: int| 0 <= k < i ==> (#[trigger] coins@[k]).1.multisig() != Some(script@),
        decreases coins.rows.len() - i,
    {
        if coins.rows[i].1.has_multisig(script) {
            proof {
                assert(coins@[i as int].1.multisig() == Some(script@));
                assert(first_with_multisig(coins@, script@, i as int));
                let j = choose|j: int| first_with_multisig(coins@, script@, j);
                assert(j == i) by {
                    if j < i {
                        assert(coins@[j].1.multisig() != Some(script@));
                    }
                    if i < j {
                        assert(coins@[i as int].1.multisig() != Some(script@));
                    }
                }
            }
            return Some(&coins.rows[i].1);
        }
        assert(coins@[i as int].1.multisig() != Some(script@));
        i += 1;
    }
    None
}

fn list_contract_outpoints(coins: &Table<String, SwapCoin>) -> (r: Vec<OutPoint>)
    ensures
        r@ == contract_outpoints(coins@),
{
    let mut r: Vec<OutPoint> = Vec::new();
    let mut i: usize = 0;
    while i < coins.rows.len()
        invariant
            i <= coins.rows.len(),
            r.len() == i,
            forall|k: int| 0 <= k < i ==> #[trigger] r@[k] == contract_outpoints(coins@)[k],
        decreases coins.rows.len() - i,
    {
        r.push(OutPoint::new(coins.rows[i].1.contract_txid(), 0));
        i += 1;
    }
    assert(r@ =~= contract_outpoints(coins@));
    r
}

impl Wallet {
    /// Makes a new wallet with a random seed. Hands back the words that stand for the seed. Fails
    /// only where the seed leads to no valid key.
    pub fn init(file_name: String, network: Network, wallet_birthday: u64) -> (r: Result<
        (Self, String),
        WalletError,
    >)
        ensures
            match r {
                Ok((wallet, words)) => {
                    &&& wallet@.well_formed()
                    &&& mnemonic_entropy(words@) is Some
                    &&& mnemonic_entropy(words@)->0.len() == 16
                    &&& seed_key(network, mnemonic_entropy(words@)->0) == Some(wallet@.master_key)
                    &&& wallet@ == StoreView::fresh(
                        file_name@,
                        network,
                        wallet@.master_key,
                        Some(wallet_birthday),
                    )
                },
                Err(e) => e is Key && exists|seed: Seq<u8>|
                    seed.len() == 16 && #[trigger] seed_key(network, seed) is None,
            },
    {
        let words = match generate_mnemonic() {
            Ok(words) => words,
            Err(text) => {
                return Err(WalletError::Key(text));
            },
        };
        match entropy_of_mnemonic(words.as_str()) {
            Ok(seed) => match Wallet::from_seed(file_name, network, &seed, wallet_birthday) {
                Ok(wallet) => Ok((wallet, words)),
                Err(e) => Err(e),
            },
            Err(text) => Err(WalletError::Key(text)),
        }
    }

    /// Makes a new wallet with this seed.
    pub fn from_seed(
        file_name: String,
        network: Network,
        seed: &Vec<u8>,
        wallet_birthday: u64,
    ) -> (r: Result<Self, WalletError>)
        ensures
            match r {
                Ok(wallet) => wallet@.well_formed() && seed_key(network, seed@) == Some(
                    wallet@.master_key,
                ) && wallet@ == StoreView::fresh(
                    file_name@,
                    network,
                    wallet@.master_key,
                    Some(wallet_birthday),
                ),
                Err(e) => seed_key(network, seed@) is None && e is Key,
            },
    {
        match new_master_key(network == Network::Bitcoin, seed) {
            Ok(key) => Ok(
                Wallet { store: WalletStore::new(file_name, network, key, Some(wallet_birthday)) },
            ),
            Err(text) => Err(WalletError::Key(text)),
        }
    }

    /// Takes up the state of a wallet file, if it is the wallet of this name and of the network
    /// that the node runs on.
    pub fn load(store: WalletStore, wallet_name: &String, network: Network) -> (r: Result<
        Self,
        WalletError,
    >)
        ensures
            match r {
                Ok(wallet) => wallet@ == store@ && wallet_name@ == store@.file_name && network
                    == store@.network,
                Err(e) => if wallet_name@ != store@.file_name {
                    e@ == WalletErrorView::General(
                        name_mismatch(wallet_name@, store@.file_name),
                    )
                } else {
                    network != store@.network && e@ == WalletErrorView::General(
                        "Wrong Bitcoin Network"@,
                    )
                },
            },
    {
        if *wallet_name != store.file_name {
            let mut text = String::new();
            text.append("Wallet name of database file and core mismatch, expected ");
            text.append(wallet_name.as_str());
            text.append(", found ");
            text.append(store.file_name.as_str());
            assert(text@ =~= name_mismatch(wallet_name@, store@.file_name));
            return Err(WalletError::General(text));
        }
        if store.network != network {
            return Err(WalletError::General("Wrong Bitcoin Network".to_string()));
        }
        Ok(Wallet { store })
    }

    /// The name of the wallet.
    pub fn get_name(&self) -> (r: &str)
        ensures
            r@ == self@.file_name,
    {
        self.store.file_name.as_str()
    }

    /// The next index on the external branch.
    pub fn get_external_index(&self) -> (r: &u32)
        ensures
            *r == self@.external_index,
    {
        &self.store.external_index
    }

    /// Adds an incoming swap coin, under the id of its contract transaction: several coins of
    /// one swap have an entry each.
    pub fn add_incoming_swapcoin(&mut self, coin: &IncomingSwapCoin)
        requires
            old(self)@.well_formed(),
        ensures
            final(self)@.well_formed(),
            final(self)@ == (StoreView {
                incoming_swapcoins: with_row(
                    old(self)@.incoming_swapcoins,
                    coin@.key(),
                    coin@,
                ),
                ..old(self)@
            }),
    {
        let key = write_txid(&coin.contract_txid());
        let _ = self.store.incoming_swapcoins.insert(key, coin.clone());
    }

    /// Adds an outgoing swap coin, under the id of its contract transaction.
    pub fn add_outgoing_swapcoin(&mut self, coin: &OutgoingSwapCoin)
        requires
            old(self)@.well_formed(),
        ensures
            final(self)@.well_formed(),
            final(self)@ == (StoreView {
                outgoing_swapcoins: with_row(
                    old(self)@.outgoing_swapcoins,
                    coin@.key(),
                    coin@,
                ),
                ..old(self)@
            }),
    {
        let key = write_txid(&coin.contract_txid());
        let _ = self.store.outgoing_swapcoins.insert(key, coin.clone());
    }

    /// Finds an incoming swap coin by the id of its contract transaction.
    pub fn find_incoming_swapcoin(&self, contract_txid: &str) -> (r: Option<&IncomingSwapCoin>)
        requires
            self@.well_formed(),
        ensures
            match r {
                Some(coin) => has_key(self@.incoming_swapcoins, contract_txid@) && coin@
                    == value_of(self@.incoming_swapcoins, contract_txid@),
                None => !has_key(self@.incoming_swapcoins, contract_txid@),
            },
    {
        self.store.incoming_swapcoins.get(&contract_txid.to_string())
    }

    /// Finds an outgoing swap coin by its multisig script.
    pub fn find_outgoing_swapcoin_by_multisig(&self, multisig_redeemscript: &Script) -> (r: Option<
        &OutgoingSwapCoin,
    >)
        ensures
            match r {
                Some(coin) => has_multisig(self@.outgoing_swapcoins, multisig_redeemscript@)
                    && coin@ == multisig_coin(self@.outgoing_swapcoins, multisig_redeemscript@),
                None => !has_multisig(self@.outgoing_swapcoins, multisig_redeemscript@),
            },
    {
        find_by_multisig(&self.store.outgoing_swapcoins, multisig_redeemscript)
    }

    /// Finds an incoming swap coin by its multisig script.
    pub fn find_incoming_swapcoin_by_multisig(&self, multisig_redeemscript: &Script) -> (r: Option<
        &IncomingSwapCoin,
    >)
        ensures
            match r {
                Some(coin) => has_multisig(self@.incoming_swapcoins, multisig_redeemscript@)
                    && coin@ == multisig_coin(self@.incoming_swapcoins, multisig_redeemscript@),
                None => !has_multisig(self@.incoming_swapcoins, multisig_redeemscript@),
            },
    {
        find_by_multisig(&self.store.incoming_swapcoins, multisig_redeemscript)
    }

    /// Removes an incoming swap coin by the id of its contract transaction.
    pub fn remove_incoming_swapcoin(&mut self, contract_txid: &str) -> (r: Option<
        IncomingSwapCoin,
    >)
        requires
            old(self)@.well_formed(),
        ensures
            final(self)@.well_formed(),
            final(self)@ == (StoreView {
                incoming_swapcoins: without_row(old(self)@.incoming_swapcoins, contract_txid@),
                ..old(self)@
            }),
            match r {
                Some(coin) => has_key(old(self)@.incoming_swapcoins, contract_txid@) && coin@
                    == value_of(old(self)@.incoming_swapcoins, contract_txid@),
                None => !has_key(old(self)@.incoming_swapcoins, contract_txid@),
            },
    {
        self.store.incoming_swapcoins.remove(&contract_txid.to_string())
    }

    /// Removes an outgoing swap coin by the id of its contract transaction.
    pub fn remove_outgoing_swapcoin(&mut self, contract_txid: &str)
        requires
            old(self)@.well_formed(),
        ensures
            final(self)@.well_formed(),
            final(self)@ == (StoreView {
                outgoing_swapcoins: without_row(old(self)@.outgoing_swapcoins, contract_txid@),
                ..old(self)@
            }),
    {
        let _ = self.store.outgoing_swapcoins.remove(&contract_txid.to_string());
    }

    /// Adds watched coins to those of a swap.
    pub fn add_watchonly_swapcoins(&mut self, swap_id: &str, coins: Vec<WatchOnlySwapCoin>)
        requires
            old(self)@.well_formed(),
        ensures
            final(self)@.well_formed(),
            final(self)@ == (StoreView {
                watchonly_swapcoins: with_row(
                    old(self)@.watchonly_swapcoins,
                    swap_id@,
                    watched(old(self)@.watchonly_swapcoins, swap_id@) + coins@,
                ),
                ..old(self)@
            }),
    {
        let mut coins = coins;
        match self.store.watchonly_swapcoins.position(&swap_id.to_string()) {
            Some(i) => {
                let ghost before = self.store.watchonly_swapcoins@;
                let ghost added = coins@;
                self.store.watchonly_swapcoins.rows[i].1.append(&mut coins);
                proof {
                    let after = self.store.watchonly_swapcoins@;
                    assert(after =~= before.update(
                        i as int,
                        (swap_id@, value_of(before, swap_id@) + added),
                    ));
                    law_put_then_get(
                        before,
                        swap_id@,
                        value_of(before, swap_id@) + added,
                        swap_id@,
                    );
                }
            },
            None => {
                assert(Seq::<WatchOnlySwapCoin>::empty() + coins@ =~= coins@);
                let _ = self.store.watchonly_swapcoins.insert(swap_id.to_string(), coins);
            },
        }
    }

    /// Removes the watched coins of a swap.
    pub fn remove_watchonly_swapcoins(&mut self, swap_id: &str) -> (r: Option<
        Vec<WatchOnlySwapCoin>,
    >)
        requires
            old(self)@.well_formed(),
        ensures
            final(self)@.well_formed(),
            final(self)@ == (StoreView {
                watchonly_swapcoins: without_row(old(self)@.watchonly_swapcoins, swap_id@),
                ..old(self)@
            }),
            match r {
                Some(coins) => has_key(old(self)@.watchonly_swapcoins, swap_id@) && coins@
                    == value_of(old(self)@.watchonly_swapcoins, swap_id@),
                None => !has_key(old(self)@.watchonly_swapcoins, swap_id@),
            },
    {
        self.store.watchonly_swapcoins.remove(&swap_id.to_string())
    }

    /// Finds an incoming swap coin by the id of its contract transaction, to change it.
    pub fn find_incoming_swapcoin_mut(&mut self, contract_txid: &str) -> (r: Option<
        &mut IncomingSwapCoin,
    >)
        requires
            old(self)@.well_formed(),
        ensures
            match r {
                Some(coin) => {
                    &&& has_key(old(self)@.incoming_swapcoins, contract_txid@)
                    &&& coin@ == value_of(old(self)@.incoming_swapcoins, contract_txid@)
                    &&& final(self)@ == (StoreView {
                        incoming_swapcoins: with_row(
                            old(self)@.incoming_swapcoins,
                            contract_txid@,
                            final(coin)@,
                        ),
                        ..old(self)@
                    })
                },
                None => !has_key(old(self)@.incoming_swapcoins, contract_txid@) && final(self)@
                    == old(self)@,
            },
    {
        match self.store.incoming_swapcoins.position(&contract_txid.to_string()) {
            Some(i) => Some(&mut self.store.incoming_swapcoins.rows[i].1),
            None => None,
        }
    }

    /// The number of incoming swap coins.
    pub fn get_incoming_swapcoins_count(&self) -> (r: usize)
        ensures
            r == self@.incoming_swapcoins.len(),
    {
        self.store.incoming_swapcoins.len()
    }

    /// The number of outgoing swap coins.
    pub fn get_outgoing_swapcoins_count(&self) -> (r: usize)
        ensures
            r == self@.outgoing_swapcoins.len(),
    {
        self.store.outgoing_swapcoins.len()
    }

    /// The contract outpoints of all outgoing swap coins.
    pub fn outgoing_contract_outpoints(&self) -> (r: Vec<OutPoint>)
        ensures
            r@ == contract_outpoints(self@.outgoing_swapcoins),
    {
        list_contract_outpoints(&self.store.outgoing_swapcoins)
    }

    /// The contract outpoints of all incoming swap coins.
    pub fn incoming_contract_outpoints(&self) -> (r: Vec<OutPoint>)
        ensures
            r@ == contract_outpoints(self@.incoming_swapcoins),
    {
        list_contract_outpoints(&self.store.incoming_swapcoins)
    }

    /// The keys of the outgoing swap coins of a swap.
    pub fn outgoing_keys_for_swap(&self, swap_id: &str) -> (r: Vec<String>)
        ensures
            texts_view(r@) == keys_for_swap(self@.outgoing_swapcoins, swap_id@),
    {
        let coins = &self.store.outgoing_swapcoins;
        let wanted = swap_id.to_string();
        let mut r: Vec<String> = Vec::new();
        let mut i: usize = 0;
        assert(coins@.take(0) =~= Seq::<(Seq<char>, SwapCoinView)>::empty());
        assert(texts_view(r@) =~= Seq::<Seq<char>>::empty());
        while i < coins.rows.len()
            invariant
                i <= coins.rows.len(),
                wanted@ == swap_id@,
                texts_view(r@) == keys_for_swap(coins@.take(i as int), swap_id@),
            decreases coins.rows.len() - i,
        {
            let ghost before = texts_view(r@);
            proof {
                assert(coins@.take(i + 1).drop_last() =~= coins@.take(i as int));
            }
            let matching: bool = match &coins.rows[i].1.swap_id {
                Some(id) => *id == wanted,
                None => false,
            };
            assert(matching == (coins@[i as int].1.swap_id == Some(swap_id@)));
            if matching {
                r.push(coins.rows[i].0.clone());
                assert(texts_view(r@) =~= before.push(coins@[i as int].0));
            }
            i += 1;
        }
        assert(coins@.take(coins@.len() as int) =~= coins@);
        r
    }

    /// Whether an output was promised to no other contract than this one.
    ///
    /// An output that was promised to none matches every contract.
    pub fn does_prevout_match_cached_contract(
        &self,
        prevout: &OutPoint,
        contract_scriptpubkey: &Script,
    ) -> (r: Result<bool, WalletError>)
        requires
            self@.well_formed(),
        ensures
            r is Ok,
            r->Ok_0 == matches_contract(
                self@.prevout_to_contract_map,
                *prevout,
                contract_scriptpubkey@,
            ),
    {
        Ok(
            match self.store.prevout_to_contract_map.get(prevout) {
                Some(contract) => *contract == *contract_scriptpubkey,
                None => true,
            },
        )
    }

    /// Notes the contract that an output is promised to, in place of an earlier one.
    pub fn cache_prevout_to_contract(&mut self, prevout: OutPoint, contract: Script) -> (r: Result<
        (),
        WalletError,
    >)
        requires
            old(self)@.well_formed(),
        ensures
            r is Ok,
            final(self)@.well_formed(),
            final(self)@ == (StoreView {
                prevout_to_contract_map: with_row(
                    old(self)@.prevout_to_contract_map,
                    prevout,
                    contract@,
                ),
                ..old(self)@
            }),
    {
        let _ = self.store.prevout_to_contract_map.insert(prevout, contract);
        Ok(())
    }
}

/// The watched coins of a swap.
pub open spec fn watched(rows: Rows<Seq<char>, Seq<WatchOnlySwapCoin>>, swap_id: Seq<char>) -> Seq<
    WatchOnlySwapCoin,
> {
    if has_key(rows, swap_id) {
        value_of(rows, swap_id)
    } else {
        Seq::empty()
    }
}

/// An output is promised to no other contract than this one.
pub open spec fn matches_contract(
    promised: Rows<OutPoint, Seq<u8>>,
    prevout: OutPoint,
    contract: Seq<u8>,
) -> bool {
    has_key(promised, prevout) ==> value_of(promised, prevout) == contract
}

// ---------------------------------------------------------------------------------------------
// Laws
// ---------------------------------------------------------------------------------------------

/// Equality of wallets is an equivalence.
pub proof fn law_equality_is_an_equivalence(a: StoreView, b: StoreView, c: StoreView)
    ensures
        same_wallet(a, a),
        same_wallet(a, b) ==> same_wallet(b, a),
        same_wallet(a, b) && same_wallet(b, c) ==> same_wallet(a, c),
{
}

/// File name, swap coins, contract cache and sync height make no difference to equality.
pub proof fn law_equality_ignores_files_and_swaps(a: StoreView, b: StoreView)
    ensures
        same_wallet(
            a,
            (StoreView {
                file_name: b.file_name,
                incoming_swapcoins: b.incoming_swapcoins,
                outgoing_swapcoins: b.outgoing_swapcoins,
                watchonly_swapcoins: b.watchonly_swapcoins,
                prevout_to_contract_map: b.prevout_to_contract_map,
                last_synced_height: b.last_synced_height,
                swept_incoming_swapcoins: b.swept_incoming_swapcoins,
                ..a
            }),
        ),
{
}

/// A swap coin that was added is found under the id of its contract transaction, and the coins of
/// other contracts stay as they were.
pub proof fn law_added_swapcoin_is_found(
    rows: Rows<Seq<char>, SwapCoinView>,
    coin: SwapCoinView,
    other: Seq<char>,
)
    requires
        keys_distinct(rows),
    ensures
        has_key(with_row(rows, coin.key(), coin), coin.key()),
        value_of(with_row(rows, coin.key(), coin), coin.key()) == coin,
        other != coin.key() ==> has_key(with_row(rows, coin.key(), coin), other) == has_key(
            rows,
            other,
        ),
        other != coin.key() && has_key(rows, other) ==> value_of(
            with_row(rows, coin.key(), coin),
            other,
        ) == value_of(rows, other),
{
    law_put_then_get(rows, coin.key(), coin, other);
}

/// A swap coin that was removed is gone, the coins of other contracts stay; and removing what was
/// added to a wallet that did not have it leaves the wallet's coins as they were.
pub proof fn law_removed_swapcoin_is_gone(
    rows: Rows<Seq<char>, SwapCoinView>,
    coin: SwapCoinView,
    other: Seq<char>,
)
    requires
        keys_distinct(rows),
    ensures
        !has_key(without_row(rows, coin.key()), coin.key()),
        other != coin.key() ==> has_key(without_row(rows, coin.key()), other) == has_key(
            rows,
            other,
        ),
        other != coin.key() && has_key(rows, other) ==> value_of(
            without_row(rows, coin.key()),
            other,
        ) == value_of(rows, other),
        !has_key(rows, coin.key()) ==> without_row(
            with_row(rows, coin.key(), coin),
            coin.key(),
        ) == rows,
{
    law_take_then_get(rows, coin.key(), other);
    if !has_key(rows, coin.key()) {
        law_put_then_take(rows, coin.key(), coin);
    }
}

/// An output matches every contract until it is promised to one; from then on it matches that one
/// alone, and the promises of other outputs stay.
pub proof fn law_promised_output_matches_its_contract_alone(
    promised: Rows<OutPoint, Seq<u8>>,
    prevout: OutPoint,
    contract: Seq<u8>,
    other_prevout: OutPoint,
    other_contract: Seq<u8>,
)
    requires
        keys_distinct(promised),
    ensures
        !has_key(promised, prevout) ==> matches_contract(promised, prevout, other_contract),
        matches_contract(with_row(promised, prevout, contract), prevout, other_contract) <==> (
        other_contract == contract),
        other_prevout != prevout ==> matches_contract(
            with_row(promised, prevout, contract),
            other_prevout,
            other_contract,
        ) == matches_contract(promised, other_prevout, other_contract),
{
    law_put_then_get(promised, prevout, contract, other_prevout);
}

} // verus!
