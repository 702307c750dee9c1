//! Listing the cached coins of a wallet and adding them up.

use crate::error::WalletError;
use crate::store::StoreView;
use crate::swapcoin::{IncomingSwapCoin, OutgoingSwapCoin, SwapCoin, SwapCoinView};
use crate::table::{Rows, Table};
use crate::text::{get_hd_path_from_descriptor, hd_path};
use crate::types::{KeychainKind, OutPoint};
use crate::utxo::{
    clone_coin, coins_value, coins_view, total_value, Balances, Coin, CoinView, SpendInfoView,
    UTXOSpendInfo, Utxo,
};
use crate::wallet::Wallet;
use vstd::prelude::*;

verus! {

/// Which coins to list.
#[derive(Debug, Clone, Copy, PartialEq, Eq, Structural)]
pub enum CoinKind {
    All,
    LiveContract,
    LiveTimelock,
    LiveHashlock,
    Fidelity,
    Descriptor,
    SwapCoin,
    IncomingSwapCoin,
    Swept,
}

/// A coin is of the kind.
pub open spec fn is_of_kind(info: SpendInfoView, kind: CoinKind) -> bool {
    match kind {
        CoinKind::All => true,
        CoinKind::LiveContract => info is HashlockContract || info is TimelockContract,
        CoinKind::LiveTimelock => info is TimelockContract,
        CoinKind::LiveHashlock => info is HashlockContract,
        CoinKind::Fidelity => info is FidelityBondCoin,
        CoinKind::Descriptor => info is SeedCoin,
        CoinKind::SwapCoin => info is IncomingSwapCoin || info is OutgoingSwapCoin,
        CoinKind::IncomingSwapCoin => info is IncomingSwapCoin,
        CoinKind::Swept => info is SweptCoin,
    }
}

/// The cached coins of a kind, in the order of the cache.
pub open spec fn coins_of_kind(cache: Rows<OutPoint, CoinView>, kind: CoinKind) -> Seq<CoinView>
    decreases cache.len(),
{
    if cache.len() == 0 {
        Seq::empty()
    } else {
        let rest = coins_of_kind(cache.drop_last(), kind);
        if is_of_kind(cache.last().1.1, kind) {
            rest.push(cache.last().1)
        } else {
            rest
        }
    }
}

/// The total value of the cached coins of a kind.
pub open spec fn value_of_kind(store: StoreView, kind: CoinKind) -> nat {
    coins_value(coins_of_kind(store.utxo_cache, kind))
}

/// The balances fit into 64 bits.
pub open spec fn balances_fit(store: StoreView) -> bool {
    &&& value_of_kind(store, CoinKind::Descriptor) + value_of_kind(store, CoinKind::Swept)
        <= u64::MAX
    &&& value_of_kind(store, CoinKind::LiveTimelock) <= u64::MAX
    &&& value_of_kind(store, CoinKind::Fidelity) <= u64::MAX
}

/// The balances of a wallet.
pub open spec fn balances(store: StoreView) -> Balances {
    Balances {
        regular: value_of_kind(store, CoinKind::Descriptor) as u64,
        swap: value_of_kind(store, CoinKind::Swept) as u64,
        contract: value_of_kind(store, CoinKind::LiveTimelock) as u64,
        fidelity: value_of_kind(store, CoinKind::Fidelity) as u64,
        spendable: (value_of_kind(store, CoinKind::Descriptor) + value_of_kind(
            store,
            CoinKind::Swept,
        )) as u64,
    }
}

/// A coin is of a kind that stands on an address of the seed.
pub open spec fn may_use_seed_address(info: SpendInfoView) -> bool {
    info is SeedCoin || info is SweptCoin || info is IncomingSwapCoin || info is OutgoingSwapCoin
}

/// The index that a coin uses on a branch, `-1` where it uses none.
pub open spec fn used_index(coin: CoinView, branch: u32) -> int {
    if may_use_seed_address(coin.1) {
        match coin.0.descriptor {
            Some(descriptor) => match hd_path(descriptor) {
                Some(path) => if path.branch == branch {
                    path.index as int
                } else {
                    -1
                },
                None => -1,
            },
            None => -1,
        }
    } else {
        -1
    }
}

/// The highest index that any coin uses on a branch, `-1` where none does.
pub open spec fn highest_index(cache: Rows<OutPoint, CoinView>, branch: u32) -> int
    decreases cache.len(),
{
    if cache.len() == 0 {
        -1
    } else {
        let rest = highest_index(cache.drop_last(), branch);
        let index = used_index(cache.last().1, branch);
        if index > rest {
            index
        } else {
            rest
        }
    }
}

/// The lowest index behind all that were used on a branch: by the coins, and by any transaction
/// that the chain knows of, the last of which used `last_used`.
pub open spec fn unused_index(
    cache: Rows<OutPoint, CoinView>,
    branch: u32,
    last_used: Option<u32>,
) -> int {
    let behind_coins = highest_index(cache, branch) + 1;
    match last_used {
        Some(last) => if last + 1 > behind_coins {
            last + 1
        } else {
            behind_coins
        },
        None => behind_coins,
    }
}

fn has_kind(info: &UTXOSpendInfo, kind: CoinKind) -> (r: bool)
    ensures
        r == is_of_kind(info@, kind),
{
    match kind {
        CoinKind::All => true,
        CoinKind::LiveContract => match info {
            UTXOSpendInfo::HashlockContract { .. } | UTXOSpendInfo::TimelockContract { .. } => true,
            _ => false,
        },
        CoinKind::LiveTimelock => match info {
            UTXOSpendInfo::TimelockContract { .. } => true,
            _ => false,
        },
        CoinKind::LiveHashlock => match info {
            UTXOSpendInfo::HashlockContract { .. } => true,
            _ => false,
        },
        CoinKind::Fidelity => match info {
            UTXOSpendInfo::FidelityBondCoin { .. } => true,
            _ => false,
        },
        CoinKind::Descriptor => match info {
            UTXOSpendInfo::SeedCoin { .. } => true,
            _ => false,
        },
        CoinKind::SwapCoin => match info {
            UTXOSpendInfo::IncomingSwapCoin { .. } | UTXOSpendInfo::OutgoingSwapCoin { .. } => true,
            _ => false,
        },
        CoinKind::IncomingSwapCoin => match info {
            UTXOSpendInfo::IncomingSwapCoin { .. } => true,
            _ => false,
        },
        CoinKind::Swept => match info {
            UTXOSpendInfo::SweptCoin { .. } => true,
            _ => false,
        },
    }
}

impl Wallet {
    /// The cached coins of a kind.
    fn list_coins(&self, kind: CoinKind) -> (r: Vec<Coin>)
        ensures
            coins_view(r@) == coins_of_kind(self@.utxo_cache, kind),
    {
        let cache = &self.store.utxo_cache;
        let mut r: Vec<Coin> = Vec::new();
        let mut i: usize = 0;
        assert(cache@.take(0) =~= Seq::<(OutPoint, CoinView)>::empty());
        assert(coins_view(r@) =~= Seq::<CoinView>::empty());
        while i < cache.rows.len()
            invariant
                cache == self.store.utxo_cache,
                i <= cache.rows.len(),
                coins_view(r@) == coins_of_kind(cache@.take(i as int), kind),
            decreases cache.rows.len() - i,
        {
            let ghost before = coins_view(r@);
            let coin = &cache.rows[i].1;
            proof {
                assert(cache@.take(i + 1).drop_last() =~= cache@.take(i as int));
                assert(cache@[i as int].1 == (coin.0@, coin.1@));
            }
            if has_kind(&coin.1, kind) {
                r.push(clone_coin(coin));
                assert(coins_view(r@) =~= before.push((coin.0@, coin.1@)));
            }
            i += 1;
        }
        assert(cache@.take(cache@.len() as int) =~= cache@);
        r
    }

    /// All unspent outputs that the wallet tracks.
    pub fn list_all_utxo(&self) -> (r: Vec<Utxo>)
        ensures
            r@.map_values(|u: Utxo| u@) == coins_of_kind(
                self@.utxo_cache,
                CoinKind::All,
            ).map_values(|coin: CoinView| coin.0),
    {
        let coins = self.list_coins(CoinKind::All);
        let mut r: Vec<Utxo> = Vec::new();
        let mut i: usize = 0;
        while i < coins.len()
            invariant
                i <= coins.len(),
                r.len() == i,
                forall|k: int| 0 <= k < i ==> (#[trigger] r@[k])@ == coins@[k].0@,
            decreases coins.len() - i,
        {
            r.push(coins[i].0.clone());
            i += 1;
        }
        assert(r@.map_values(|u: Utxo| u@) =~= coins_view(coins@).map_values(
            |coin: CoinView| coin.0,
        ));
        r
    }

    /// All coins that the wallet tracks, with what it takes to spend them.
    pub fn list_all_utxo_spend_info(&self) -> (r: Vec<Coin>)
        ensures
            coins_view(r@) == coins_of_kind(self@.utxo_cache, CoinKind::All),
    {
        self.list_coins(CoinKind::All)
    }

    /// The outputs of live contracts.
    pub fn list_live_contract_spend_info(&self) -> (r: Vec<Coin>)
        ensures
            coins_view(r@) == coins_of_kind(self@.utxo_cache, CoinKind::LiveContract),
    {
        self.list_coins(CoinKind::LiveContract)
    }

    /// The outputs of live contracts that wait for their timelock.
    pub fn list_live_timelock_contract_spend_info(&self) -> (r: Vec<Coin>)
        ensures
            coins_view(r@) == coins_of_kind(self@.utxo_cache, CoinKind::LiveTimelock),
    {
        self.list_coins(CoinKind::LiveTimelock)
    }

    /// The outputs of live contracts that the preimage opens.
    pub fn list_live_hashlock_contract_spend_info(&self) -> (r: Vec<Coin>)
        ensures
            coins_view(r@) == coins_of_kind(self@.utxo_cache, CoinKind::LiveHashlock),
    {
        self.list_coins(CoinKind::LiveHashlock)
    }

    /// The coins in fidelity bonds.
    pub fn list_fidelity_spend_info(&self) -> (r: Vec<Coin>)
        ensures
            coins_view(r@) == coins_of_kind(self@.utxo_cache, CoinKind::Fidelity),
    {
        self.list_coins(CoinKind::Fidelity)
    }

    /// The regular coins, derived from the seed.
    pub fn list_descriptor_utxo_spend_info(&self) -> (r: Vec<Coin>)
        ensures
            coins_view(r@) == coins_of_kind(self@.utxo_cache, CoinKind::Descriptor),
    {
        self.list_coins(CoinKind::Descriptor)
    }

    /// The coins in swap multisigs.
    pub fn list_swap_coin_utxo_spend_info(&self) -> (r: Vec<Coin>)
        ensures
            coins_view(r@) == coins_of_kind(self@.utxo_cache, CoinKind::SwapCoin),
    {
        self.list_coins(CoinKind::SwapCoin)
    }

    /// The coins in swap multisigs that are paid to the wallet.
    pub fn list_incoming_swap_coin_utxo_spend_info(&self) -> (r: Vec<Coin>)
        ensures
            coins_view(r@) == coins_of_kind(self@.utxo_cache, CoinKind::IncomingSwapCoin),
    {
        self.list_coins(CoinKind::IncomingSwapCoin)
    }

    /// The coins that swap coins were swept to.
    pub fn list_swept_incoming_swap_utxos(&self) -> (r: Vec<Coin>)
        ensures
            coins_view(r@) == coins_of_kind(self@.utxo_cache, CoinKind::Swept),
    {
        self.list_coins(CoinKind::Swept)
    }

    /// The balances of the wallet.
    pub fn get_balances(&self) -> (r: Result<Balances, WalletError>)
        requires
            balances_fit(self@),
        ensures
            r == Ok::<Balances, WalletError>(balances(self@)),
    {
        let regular: u64 = total_value(&self.list_descriptor_utxo_spend_info());
        let contract: u64 = total_value(&self.list_live_timelock_contract_spend_info());
        let swap: u64 = total_value(&self.list_swept_incoming_swap_utxos());
        let fidelity: u64 = total_value(&self.list_fidelity_spend_info());
        let spendable: u64 = regular + swap;
        Ok(Balances { regular, swap, contract, fidelity, spendable })
    }

    /// Sets the largest swap that can be offered to the larger one of the regular and the swap
    /// balance.
    pub fn refresh_offer_maxsize_cache(&mut self) -> (r: Result<(), WalletError>)
        requires
            balances_fit(old(self)@),
        ensures
            r is Ok,
            final(self)@ == (StoreView {
                offer_maxsize: if balances(old(self)@).swap >= balances(old(self)@).regular {
                    balances(old(self)@).swap
                } else {
                    balances(old(self)@).regular
                },
                ..old(self)@
            }),
    {
        match self.get_balances() {
            Ok(b) => {
                self.store.offer_maxsize = if b.swap >= b.regular {
                    b.swap
                } else {
                    b.regular
                };
                Ok(())
            },
            Err(e) => Err(e),
        }
    }

    /// The highest index that any coin of the wallet uses on a branch, `-1` where none does.
    pub fn highest_used_index(&self, keychain: KeychainKind) -> (r: i32)
        ensures
            r == highest_index(self@.utxo_cache, keychain.spec_index_num()),
            r >= -1,
    {
        let cache = &self.store.utxo_cache;
        let branch: u32 = keychain.index_num();
        let mut max_index: i32 = -1;
        let mut i: usize = 0;
        assert(cache@.take(0) =~= Seq::<(OutPoint, CoinView)>::empty());
        while i < cache.rows.len()
            invariant
                cache == self.store.utxo_cache,
                i <= cache.rows.len(),
                -1 <= max_index,
                max_index == highest_index(cache@.take(i as int), branch),
            decreases cache.rows.len() - i,
        {
            let coin = &cache.rows[i].1;
            proof {
                assert(cache@.take(i + 1).drop_last() =~= cache@.take(i as int));
                assert(cache@[i as int].1 == (coin.0@, coin.1@));
            }
            if has_kind(&coin.1, CoinKind::Descriptor) || has_kind(&coin.1, CoinKind::SwapCoin)
                || has_kind(&coin.1, CoinKind::Swept) {
                if let Some(descriptor) = &coin.0.descriptor {
                    if let Some(path) = get_hd_path_from_descriptor(descriptor.as_str()) {
                        if path.branch == branch && path.index > max_index {
                            max_index = path.index;
                        }
                    }
                }
            }
            i += 1;
        }
        assert(cache@.take(cache@.len() as int) =~= cache@);
        max_index
    }

    /// The next index on a branch: the one behind the highest index that any coin of the wallet
    /// uses there. Coins that were spent do not count; `find_unused_index` minds them too.
    pub fn find_hd_next_index(&self, keychain: KeychainKind) -> (r: Result<u32, WalletError>)
        requires
            highest_index(self@.utxo_cache, keychain.spec_index_num()) < i32::MAX,
        ensures
            r is Ok,
            r->Ok_0 == highest_index(self@.utxo_cache, keychain.spec_index_num()) + 1,
    {
        Ok((self.highest_used_index(keychain) + 1) as u32)
    }

    /// The next index on a branch that no transaction has used: it lies behind every index that a
    /// coin of the wallet uses there, and behind the last one that was ever used.
    pub fn find_unused_index(&self, keychain: KeychainKind, last_used: Option<u32>) -> (r: u32)
        requires
            unused_index(self@.utxo_cache, keychain.spec_index_num(), last_used) <= u32::MAX,
        ensures
            r == unused_index(self@.utxo_cache, keychain.spec_index_num(), last_used),
    {
        let behind_coins: u32 = (self.highest_used_index(keychain) as i64 + 1) as u32;
        match last_used {
            Some(last) => if last >= behind_coins {
                last + 1
            } else {
                behind_coins
            },
            None => behind_coins,
        }
    }
}

// ---------------------------------------------------------------------------------------------
// Unfinished swaps
// ---------------------------------------------------------------------------------------------

/// The swap coins with a property, in the order of the rows.
pub open spec fn swapcoins_where(
    rows: Rows<Seq<char>, SwapCoinView>,
    pred: spec_fn(SwapCoinView) -> bool,
) -> Seq<SwapCoinView>
    decreases rows.len(),
{
    if rows.len() == 0 {
        Seq::empty()
    } else {
        let rest = swapcoins_where(rows.drop_last(), pred);
        if pred(rows.last().1) {
            rest.push(rows.last().1)
        } else {
            rest
        }
    }
}

/// An incoming coin whose other private key has not been handed over.
pub open spec fn is_unfinished_incoming() -> spec_fn(SwapCoinView) -> bool {
    |coin: SwapCoinView| coin.other_privkey is None
}

/// An outgoing coin whose preimage is not known.
pub open spec fn is_unfinished_outgoing() -> spec_fn(SwapCoinView) -> bool {
    |coin: SwapCoinView| coin.hash_preimage is None
}

/// The views of a list of swap coins.
pub open spec fn swapcoins_view(coins: Seq<SwapCoin>) -> Seq<SwapCoinView> {
    coins.map_values(|coin: SwapCoin| coin@)
}

fn list_unfinished(coins: &Table<String, SwapCoin>, incoming: bool) -> (r: Vec<SwapCoin>)
    ensures
        swapcoins_view(r@) == swapcoins_where(
            coins@,
            if incoming {
                is_unfinished_incoming()
            } else {
                is_unfinished_outgoing()
            },
        ),
{
    let ghost pred = if incoming {
        is_unfinished_incoming()
    } else {
        is_unfinished_outgoing()
    };
    let mut r: Vec<SwapCoin> = Vec::new();
    let mut i: usize = 0;
    assert(coins@.take(0) =~= Seq::<(Seq<char>, SwapCoinView)>::empty());
    assert(swapcoins_view(r@) =~= Seq::<SwapCoinView>::empty());
    while i < coins.rows.len()
        invariant
            i <= coins.rows.len(),
            pred == if incoming {
                is_unfinished_incoming()
            } else {
                is_unfinished_outgoing()
            },
            swapcoins_view(r@) == swapcoins_where(coins@.take(i as int), pred),
        decreases coins.rows.len() - i,
    {
        let ghost before = swapcoins_view(r@);
        let coin = &coins.rows[i].1;
        proof {
            assert(coins@.take(i + 1).drop_last() =~= coins@.take(i as int));
            assert(coins@[i as int].1 == coin@);
        }
        let unfinished: bool = if incoming {
            coin.other_privkey.is_none()
        } else {
            coin.hash_preimage.is_none()
        };
        if unfinished {
            r.push(coin.clone());
            assert(swapcoins_view(r@) =~= before.push(coin@));
        }
        i += 1;
    }
    assert(coins@.take(coins@.len() as int) =~= coins@);
    r
}

impl Wallet {
    /// The swap coins of swaps that are not finished: incoming ones without the other private
    /// key, outgoing ones without the preimage.
    pub fn find_unfinished_swapcoins(&self) -> (r: (Vec<IncomingSwapCoin>, Vec<OutgoingSwapCoin>))
        ensures
            swapcoins_view(r.0@) == swapcoins_where(
                self@.incoming_swapcoins,
                is_unfinished_incoming(),
            ),
            swapcoins_view(r.1@) == swapcoins_where(
                self@.outgoing_swapcoins,
                is_unfinished_outgoing(),
            ),
    {
        (
            list_unfinished(&self.store.incoming_swapcoins, true),
            list_unfinished(&self.store.outgoing_swapcoins, false),
        )
    }
}

// ---------------------------------------------------------------------------------------------
// Laws
// ---------------------------------------------------------------------------------------------

/// What can be spent is the regular and the swap balance.
pub proof fn law_spendable_is_regular_and_swap(store: StoreView)
    requires
        balances_fit(store),
    ensures
        balances(store).spendable == balances(store).regular + balances(store).swap,
{
}

/// The next index is higher than every index in use on the branch.
pub proof fn law_next_index_is_unused(cache: Rows<OutPoint, CoinView>, branch: u32, i: int)
    requires
        0 <= i < cache.len(),
    ensures
        used_index(cache[i].1, branch) < highest_index(cache, branch) + 1,
        0 <= highest_index(cache, branch) + 1,
    decreases cache.len(),
{
    if i < cache.len() - 1 {
        assert(cache.drop_last()[i] == cache[i]);
        law_next_index_is_unused(cache.drop_last(), branch, i);
    } else if cache.len() > 1 {
        law_next_index_is_unused(cache.drop_last(), branch, 0);
    } else {
        assert(cache.drop_last() =~= Seq::<(OutPoint, CoinView)>::empty());
        assert(highest_index(cache.drop_last(), branch) == -1);
    }
}

/// An index that is handed out is fresh: it lies behind every index in use on the branch and behind
/// the last one that was ever used, and it does not fall where the coins are spent.
pub proof fn law_unused_index_is_fresh(
    cache: Rows<OutPoint, CoinView>,
    branch: u32,
    last_used: Option<u32>,
)
    ensures
        forall|i: int|
            0 <= i < cache.len() ==> used_index((#[trigger] cache[i]).1, branch) < unused_index(
                cache,
                branch,
                last_used,
            ),
        last_used is Some ==> last_used->0 < unused_index(cache, branch, last_used),
        unused_index(Seq::empty(), branch, last_used) <= unused_index(cache, branch, last_used),
        unused_index(cache, branch, last_used) == highest_index(cache, branch) + 1 || (last_used
            is Some && unused_index(cache, branch, last_used) == last_used->0 + 1),
{
    assert forall|i: int| 0 <= i < cache.len() implies used_index((#[trigger] cache[i]).1, branch)
        < unused_index(cache, branch, last_used) by {
        law_next_index_is_unused(cache, branch, i);
    }
    if cache.len() > 0 {
        law_next_index_is_unused(cache, branch, 0);
    } else {
        assert(cache =~= Seq::<(OutPoint, CoinView)>::empty());
    }
}

/// No index is skipped without need: the next index is zero, or the one before it is in use.
pub proof fn law_next_index_follows_a_used_one(cache: Rows<OutPoint, CoinView>, branch: u32)
    ensures
        highest_index(cache, branch) == -1 || exists|i: int|
            0 <= i < cache.len() && used_index((#[trigger] cache[i]).1, branch) == highest_index(
                cache,
                branch,
            ),
    decreases cache.len(),
{
    if cache.len() > 0 {
        let less = cache.drop_last();
        law_next_index_follows_a_used_one(less, branch);
        if highest_index(cache, branch) == highest_index(less, branch) {
            if highest_index(less, branch) != -1 {
                let i = choose|i: int|
                    0 <= i < less.len() && used_index((#[trigger] less[i]).1, branch)
                        == highest_index(less, branch);
                assert(cache[i] == less[i]);
            }
        } else {
            assert(used_index(cache[cache.len() - 1].1, branch) == highest_index(cache, branch));
        }
    }
}

/// The contract balance, the fidelity balance, the regular and the swap balance count different
/// coins: no coin is of two of these kinds.
pub proof fn law_balances_count_no_coin_twice(info: SpendInfoView)
    ensures
        !(is_of_kind(info, CoinKind::Descriptor) && is_of_kind(info, CoinKind::Swept)),
        !(is_of_kind(info, CoinKind::Descriptor) && is_of_kind(info, CoinKind::LiveTimelock)),
        !(is_of_kind(info, CoinKind::Descriptor) && is_of_kind(info, CoinKind::Fidelity)),
        !(is_of_kind(info, CoinKind::Swept) && is_of_kind(info, CoinKind::LiveTimelock)),
        !(is_of_kind(info, CoinKind::Swept) && is_of_kind(info, CoinKind::Fidelity)),
        !(is_of_kind(info, CoinKind::LiveTimelock) && is_of_kind(info, CoinKind::Fidelity)),
{
}

/// Live contracts are those with a timelock and those with a hashlock.
pub proof fn law_live_contracts_are_timelocks_and_hashlocks(info: SpendInfoView)
    ensures
        is_of_kind(info, CoinKind::LiveContract) <==> is_of_kind(info, CoinKind::LiveTimelock)
            || is_of_kind(info, CoinKind::LiveHashlock),
{
}

} // verus!
