//! What the lists, balances and indices of a wallet promise, by the coins that it caches.

use crate::cache::{
    is_listed, law_cache_holds_only_listed_coins, law_cached_coin_stays, lemma_new_entry,
    utxos_view,
};
use crate::error::WalletError;
use crate::listing::{
    balances_fit, coins_of_kind, highest_index, is_of_kind, is_unfinished_incoming,
    is_unfinished_outgoing, law_next_index_follows_a_used_one, law_next_index_is_unused,
    swapcoins_view, swapcoins_where, used_index, CoinKind,
};
use crate::swapcoin::{IncomingSwapCoin, OutgoingSwapCoin, SwapCoinView};
use crate::table::{has_key, Rows};
use crate::text::hd_path;
use crate::types::{KeychainKind, OutPoint};
use crate::utxo::{
    coins_value, coins_view, Balances, Coin, CoinView, SpendInfoView, UTXOSpendInfo, Utxo,
};
use crate::wallet::Wallet;
use vstd::prelude::*;

verus! {

/// The wallet caches the coin.
pub open spec fn caches(wallet: Wallet, coin: CoinView) -> bool {
    exists|i: int| 0 <= i < wallet@.utxo_cache.len() && (#[trigger] wallet@.utxo_cache[i]).1 == coin
}

proof fn lemma_kind_contains(cache: Rows<OutPoint, CoinView>, kind: CoinKind, coin: CoinView)
    ensures
        coins_of_kind(cache, kind).contains(coin) <==> is_of_kind(coin.1, kind) && exists|i: int|
            0 <= i < cache.len() && (#[trigger] cache[i]).1 == coin,
        kind is All ==> coins_of_kind(cache, kind).len() == cache.len(),
    decreases cache.len(),
{
    if cache.len() > 0 {
        let (less, last) = (cache.drop_last(), cache.last().1);
        let (rest, all) = (coins_of_kind(less, kind), coins_of_kind(cache, kind));
        lemma_kind_contains(less, kind, coin);
        assert(cache[cache.len() - 1].1 == last);
        if rest.contains(coin) {
            let k = choose|k: int| 0 <= k < rest.len() && rest[k] == coin;
            assert(all[k] == coin);
            let i = choose|i: int| 0 <= i < less.len() && (#[trigger] less[i]).1 == coin;
            assert(cache[i].1 == coin);
        }
        if last == coin && is_of_kind(coin.1, kind) {
            assert(all[rest.len() as int] == coin);
        }
        if all.contains(coin) {
            let k = choose|k: int| 0 <= k < all.len() && all[k] == coin;
            if k < rest.len() {
                assert(rest[k] == coin);
            }
        }
        if exists|i: int| 0 <= i < cache.len() && (#[trigger] cache[i]).1 == coin {
            let i = choose|i: int| 0 <= i < cache.len() && (#[trigger] cache[i]).1 == coin;
            if i < less.len() {
                assert(less[i].1 == coin);
            }
        }
    }
}

/// Every list holds the cached coins of its kind and no other coin.
pub proof fn law_coins_are_listed_by_kind(
    wallet: Wallet,
    all: Vec<Coin>,
    contracts: Vec<Coin>,
    timelocks: Vec<Coin>,
    hashlocks: Vec<Coin>,
    bonds: Vec<Coin>,
    coin: CoinView,
)
    requires
        call_ensures(Wallet::list_all_utxo_spend_info, (&wallet,), all),
        call_ensures(Wallet::list_live_contract_spend_info, (&wallet,), contracts),
        call_ensures(Wallet::list_live_timelock_contract_spend_info, (&wallet,), timelocks),
        call_ensures(Wallet::list_live_hashlock_contract_spend_info, (&wallet,), hashlocks),
        call_ensures(Wallet::list_fidelity_spend_info, (&wallet,), bonds),
    ensures
        coins_view(all@).contains(coin) <==> caches(wallet, coin),
        all@.len() == wallet@.utxo_cache.len(),
        coins_view(contracts@).contains(coin) <==> caches(wallet, coin) && (
        coin.1 is TimelockContract || coin.1 is HashlockContract),
        coins_view(timelocks@).contains(coin) <==> caches(wallet, coin)
            && coin.1 is TimelockContract,
        coins_view(hashlocks@).contains(coin) <==> caches(wallet, coin)
            && coin.1 is HashlockContract,
        coins_view(bonds@).contains(coin) <==> caches(wallet, coin) && coin.1 is FidelityBondCoin,
{
    let cache = wallet@.utxo_cache;
    lemma_kind_contains(cache, CoinKind::All, coin);
    lemma_kind_contains(cache, CoinKind::LiveContract, coin);
    lemma_kind_contains(cache, CoinKind::LiveTimelock, coin);
    lemma_kind_contains(cache, CoinKind::LiveHashlock, coin);
    lemma_kind_contains(cache, CoinKind::Fidelity, coin);
    assert(coins_view(all@).len() == all@.len());
}

/// The same for the coins of the seed and those of swaps.
pub proof fn law_own_coins_are_listed_by_kind(
    wallet: Wallet,
    regular: Vec<Coin>,
    swap: Vec<Coin>,
    incoming: Vec<Coin>,
    swept: Vec<Coin>,
    outputs: Vec<Utxo>,
    coin: CoinView,
)
    requires
        call_ensures(Wallet::list_descriptor_utxo_spend_info, (&wallet,), regular),
        call_ensures(Wallet::list_swap_coin_utxo_spend_info, (&wallet,), swap),
        call_ensures(Wallet::list_incoming_swap_coin_utxo_spend_info, (&wallet,), incoming),
        call_ensures(Wallet::list_swept_incoming_swap_utxos, (&wallet,), swept),
        call_ensures(Wallet::list_all_utxo, (&wallet,), outputs),
    ensures
        coins_view(regular@).contains(coin) <==> caches(wallet, coin) && coin.1 is SeedCoin,
        coins_view(swap@).contains(coin) <==> caches(wallet, coin) && (coin.1 is IncomingSwapCoin
            || coin.1 is OutgoingSwapCoin),
        coins_view(incoming@).contains(coin) <==> caches(wallet, coin)
            && coin.1 is IncomingSwapCoin,
        coins_view(swept@).contains(coin) <==> caches(wallet, coin) && coin.1 is SweptCoin,
        caches(wallet, coin) ==> exists|i: int|
            0 <= i < outputs@.len() && (#[trigger] outputs@[i])@ == coin.0,
        outputs@.len() == wallet@.utxo_cache.len(),
{
    let cache = wallet@.utxo_cache;
    lemma_kind_contains(cache, CoinKind::All, coin);
    lemma_kind_contains(cache, CoinKind::Descriptor, coin);
    lemma_kind_contains(cache, CoinKind::SwapCoin, coin);
    lemma_kind_contains(cache, CoinKind::IncomingSwapCoin, coin);
    lemma_kind_contains(cache, CoinKind::Swept, coin);
    let all = coins_of_kind(cache, CoinKind::All);
    let listed = outputs@.map_values(|u: Utxo| u@);
    assert(listed.len() == all.map_values(|coin: CoinView| coin.0).len());
    if caches(wallet, coin) {
        let k = choose|k: int| 0 <= k < all.len() && all[k] == coin;
        assert(listed[k] == all.map_values(|coin: CoinView| coin.0)[k]);
        assert(outputs@[k]@ == coin.0);
    }
}

/// What the cached coins with a property are worth.
pub open spec fn worth(
    cache: Rows<OutPoint, CoinView>,
    counts: spec_fn(SpendInfoView) -> bool,
) -> nat
    decreases cache.len(),
{
    if cache.len() == 0 {
        0
    } else {
        worth(cache.drop_last(), counts) + if counts(cache.last().1.1) {
            cache.last().1.0.amount as nat
        } else {
            0
        }
    }
}

proof fn lemma_worth(
    cache: Rows<OutPoint, CoinView>,
    kind: CoinKind,
    counts: spec_fn(SpendInfoView) -> bool,
)
    requires
        forall|info: SpendInfoView| #[trigger] counts(info) == is_of_kind(info, kind),
    ensures
        coins_value(coins_of_kind(cache, kind)) == worth(cache, counts),
    decreases cache.len(),
{
    if cache.len() > 0 {
        lemma_worth(cache.drop_last(), kind, counts);
        let rest = coins_of_kind(cache.drop_last(), kind);
        assert(counts(cache.last().1.1) == is_of_kind(cache.last().1.1, kind));
        assert(rest.push(cache.last().1).drop_last() =~= rest);
    }
}

/// The balances add up the amounts of the cached coins: those of the seed, those that swaps were
/// swept to, those in contracts that wait for their timelock, and those in bonds. What can be spent
/// is the first two together.
pub proof fn law_balances_add_up(wallet: Wallet, r: Result<Balances, WalletError>)
    requires
        balances_fit(wallet@),
        call_ensures(Wallet::get_balances, (&wallet,), r),
    ensures
        r matches Ok(b) && {
            let cache = wallet@.utxo_cache;
            &&& b.regular == worth(cache, |info: SpendInfoView| info is SeedCoin)
            &&& b.swap == worth(cache, |info: SpendInfoView| info is SweptCoin)
            &&& b.contract == worth(cache, |info: SpendInfoView| info is TimelockContract)
            &&& b.fidelity == worth(cache, |info: SpendInfoView| info is FidelityBondCoin)
            &&& b.spendable == b.regular + b.swap
        },
{
    let cache = wallet@.utxo_cache;
    lemma_worth(cache, CoinKind::Descriptor, |info: SpendInfoView| info is SeedCoin);
    lemma_worth(cache, CoinKind::Swept, |info: SpendInfoView| info is SweptCoin);
    lemma_worth(cache, CoinKind::LiveTimelock, |info: SpendInfoView| info is TimelockContract);
    lemma_worth(cache, CoinKind::Fidelity, |info: SpendInfoView| info is FidelityBondCoin);
}

/// The largest swap that can be offered is the larger one of the regular and the swap balance: the
/// two are never spent together. Nothing else changes.
pub proof fn law_offers_never_exceed_one_kind(
    wallet: &mut Wallet,
    before: Wallet,
    b: Balances,
    r: Result<(), WalletError>,
)
    requires
        balances_fit(old(wallet)@),
        before@ == old(wallet)@,
        call_ensures(Wallet::get_balances, (&before,), Ok(b)),
        call_ensures(Wallet::refresh_offer_maxsize_cache, (wallet,), r),
    ensures
        r is Ok,
        final(wallet)@.offer_maxsize >= b.regular,
        final(wallet)@.offer_maxsize >= b.swap,
        final(wallet)@.offer_maxsize == b.regular || final(wallet)@.offer_maxsize == b.swap,
        final(wallet)@.utxo_cache == old(wallet)@.utxo_cache,
        final(wallet)@.external_index == old(wallet)@.external_index,
        final(wallet)@.incoming_swapcoins == old(wallet)@.incoming_swapcoins,
        final(wallet)@.outgoing_swapcoins == old(wallet)@.outgoing_swapcoins,
        final(wallet)@.fidelity_bond == old(wallet)@.fidelity_bond,
{
}

proof fn lemma_where_contains(
    rows: Rows<Seq<char>, SwapCoinView>,
    pred: spec_fn(SwapCoinView) -> bool,
    coin: SwapCoinView,
)
    ensures
        swapcoins_where(rows, pred).contains(coin) <==> pred(coin) && exists|i: int|
            0 <= i < rows.len() && (#[trigger] rows[i]).1 == coin,
    decreases rows.len(),
{
    if rows.len() > 0 {
        let (less, last) = (rows.drop_last(), rows.last().1);
        let (rest, all) = (swapcoins_where(less, pred), swapcoins_where(rows, pred));
        lemma_where_contains(less, pred, coin);
        assert(rows[rows.len() - 1].1 == last);
        if rest.contains(coin) {
            let k = choose|k: int| 0 <= k < rest.len() && rest[k] == coin;
            assert(all[k] == coin);
            let i = choose|i: int| 0 <= i < less.len() && (#[trigger] less[i]).1 == coin;
            assert(rows[i].1 == coin);
        }
        if last == coin && pred(coin) {
            assert(all[rest.len() as int] == coin);
        }
        if all.contains(coin) {
            let k = choose|k: int| 0 <= k < all.len() && all[k] == coin;
            if k < rest.len() {
                assert(rest[k] == coin);
            }
        }
        if exists|i: int| 0 <= i < rows.len() && (#[trigger] rows[i]).1 == coin {
            let i = choose|i: int| 0 <= i < rows.len() && (#[trigger] rows[i]).1 == coin;
            if i < less.len() {
                assert(less[i].1 == coin);
            }
        }
    }
}

/// An incoming coin is unfinished exactly where the other private key was not handed over, an
/// outgoing one exactly where the preimage is not known.
pub proof fn law_unfinished_swapcoins(
    wallet: Wallet,
    r: (Vec<IncomingSwapCoin>, Vec<OutgoingSwapCoin>),
    coin: SwapCoinView,
)
    requires
        call_ensures(Wallet::find_unfinished_swapcoins, (&wallet,), r),
    ensures
        swapcoins_view(r.0@).contains(coin) <==> coin.other_privkey is None && exists|i: int|
            0 <= i < wallet@.incoming_swapcoins.len() && (
            #[trigger] wallet@.incoming_swapcoins[i]).1 == coin,
        swapcoins_view(r.1@).contains(coin) <==> coin.hash_preimage is None && exists|i: int|
            0 <= i < wallet@.outgoing_swapcoins.len() && (
            #[trigger] wallet@.outgoing_swapcoins[i]).1 == coin,
{
    lemma_where_contains(wallet@.incoming_swapcoins, is_unfinished_incoming(), coin);
    lemma_where_contains(wallet@.outgoing_swapcoins, is_unfinished_outgoing(), coin);
}

/// The coin stands on this index of a branch of the seed.
pub open spec fn stands_on(coin: CoinView, branch: u32, index: int) -> bool {
    &&& coin.1 is SeedCoin || coin.1 is SweptCoin || coin.1 is IncomingSwapCoin
        || coin.1 is OutgoingSwapCoin
    &&& coin.0.descriptor matches Some(descriptor) && (hd_path(descriptor) matches Some(path)
        && path.branch == branch && path.index == index)
}

/// The next index on a branch, 0 for the external and 1 for the internal one, lies behind every
/// index that a cached coin stands on, and right behind one of them or at zero.
pub proof fn law_next_index(
    wallet: Wallet,
    keychain: KeychainKind,
    r: Result<u32, WalletError>,
    i: int,
    index: int,
)
    requires
        highest_index(wallet@.utxo_cache, keychain.spec_index_num()) < i32::MAX,
        call_ensures(Wallet::find_hd_next_index, (&wallet, keychain), r),
        0 <= i < wallet@.utxo_cache.len(),
    ensures
        ({
            let branch = if keychain is External {
                0u32
            } else {
                1
            };
            &&& r is Ok
            &&& stands_on(wallet@.utxo_cache[i].1, branch, index) ==> index < r->Ok_0
            &&& r->Ok_0 == 0 || exists|j: int|
                0 <= j < wallet@.utxo_cache.len() && stands_on(
                    (#[trigger] wallet@.utxo_cache[j]).1,
                    branch,
                    r->Ok_0 - 1,
                )
        }),
{
    let (cache, branch) = (wallet@.utxo_cache, keychain.spec_index_num());
    law_next_index_is_unused(cache, branch, i);
    law_next_index_follows_a_used_one(cache, branch);
    if r->Ok_0 != 0 {
        let j = choose|j: int|
            0 <= j < cache.len() && used_index((#[trigger] cache[j]).1, branch) == highest_index(
                cache,
                branch,
            );
        assert(stands_on(cache[j].1, branch, r->Ok_0 - 1));
    }
}

/// An index that no transaction has used lies behind every index that a cached coin stands on and
/// behind the last one that was ever used, and no further behind than that.
pub proof fn law_unused_index(
    wallet: Wallet,
    keychain: KeychainKind,
    last_used: Option<u32>,
    r: u32,
    i: int,
    index: int,
)
    requires
        crate::listing::unused_index(
            wallet@.utxo_cache,
            keychain.spec_index_num(),
            last_used,
        ) <= u32::MAX,
        call_ensures(Wallet::find_unused_index, (&wallet, keychain, last_used), r),
        0 <= i < wallet@.utxo_cache.len(),
    ensures
        ({
            let branch = if keychain is External {
                0u32
            } else {
                1
            };
            &&& stands_on(wallet@.utxo_cache[i].1, branch, index) ==> index < r
            &&& last_used matches Some(last) ==> last < r
            &&& r == 0 || last_used == Some((r - 1) as u32) || exists|j: int|
                0 <= j < wallet@.utxo_cache.len() && stands_on(
                    (#[trigger] wallet@.utxo_cache[j]).1,
                    branch,
                    r - 1,
                )
        }),
{
    let (cache, branch) = (wallet@.utxo_cache, keychain.spec_index_num());
    law_next_index_is_unused(cache, branch, i);
    law_next_index_follows_a_used_one(cache, branch);
    if r != 0 && r == highest_index(cache, branch) + 1 {
        let j = choose|j: int|
            0 <= j < cache.len() && used_index((#[trigger] cache[j]).1, branch) == highest_index(
                cache,
                branch,
            );
        assert(stands_on(cache[j].1, branch, r - 1));
    }
}

/// An update of the cache.
///
/// - A coin that the node does not list any more is gone, and one that it lists still stays as it was.
/// - An output that was not cached is cached as it is listed, with what it takes to spend it, where
///   the wallet can spend it; where the wallet cannot, it is not cached.
/// - Nothing but the cache changes.
pub proof fn law_cache_follows_the_list(
    wallet: &mut Wallet,
    before: Wallet,
    utxos: Vec<Utxo>,
    i: int,
    info: Option<UTXOSpendInfo>,
    key: OutPoint,
    coin: CoinView,
)
    requires
        old(wallet)@.well_formed(),
        before@ == old(wallet)@,
        call_ensures(Wallet::refresh_utxo_cache, (wallet, utxos), Ok(())),
        0 <= i < utxos@.len(),
        call_ensures(Wallet::derive_spend_info, (&before, &utxos@[i]), Ok(info)),
        !has_key(old(wallet)@.utxo_cache, utxos@[i]@.outpoint()),
        forall|j: int|
            0 <= j < utxos@.len() && j != i ==> (#[trigger] utxos@[j])@.outpoint()
                != utxos@[i]@.outpoint(),
    ensures
        info matches Some(found) ==> final(wallet)@.utxo_cache.contains(
            (utxos@[i]@.outpoint(), (utxos@[i]@, found@)),
        ),
        info is None ==> !has_key(final(wallet)@.utxo_cache, utxos@[i]@.outpoint()),
        (forall|j: int| 0 <= j < utxos@.len() ==> (#[trigger] utxos@[j])@.outpoint() != key)
            ==> !has_key(final(wallet)@.utxo_cache, key),
        (exists|j: int| 0 <= j < utxos@.len() && (#[trigger] utxos@[j])@.outpoint() == key) && old(
            wallet,
        )@.utxo_cache.contains((key, coin)) ==> final(wallet)@.utxo_cache.contains((key, coin)),
        final(wallet)@.incoming_swapcoins == old(wallet)@.incoming_swapcoins,
        final(wallet)@.outgoing_swapcoins == old(wallet)@.outgoing_swapcoins,
        final(wallet)@.external_index == old(wallet)@.external_index,
        final(wallet)@.swept_incoming_swapcoins == old(wallet)@.swept_incoming_swapcoins,
        final(wallet)@.last_synced_height == old(wallet)@.last_synced_height,
{
    let views = utxos_view(utxos@);
    let store = old(wallet)@;
    let outpoint = utxos@[i]@.outpoint();
    assert(views[i] == utxos@[i]@);
    assert forall|j: int| 0 <= j < views.len() && j != i implies (#[trigger] views[j]).outpoint()
        != outpoint by {
        assert(utxos@[j]@.outpoint() != outpoint);
    }
    lemma_new_entry(store, views, i);
    law_cache_holds_only_listed_coins(store, views, key);
    if is_listed(views, key) {
        let j = choose|j: int| 0 <= j < views.len() && (#[trigger] views[j]).outpoint() == key;
        assert(utxos@[j]@.outpoint() == key);
    }
    if (exists|j: int| 0 <= j < utxos@.len() && (#[trigger] utxos@[j])@.outpoint() == key)
        && store.utxo_cache.contains((key, coin)) {
        let j = choose|j: int| 0 <= j < utxos@.len() && (#[trigger] utxos@[j])@.outpoint() == key;
        assert(views[j].outpoint() == key);
        let k = choose|k: int| 0 <= k < store.utxo_cache.len() && store.utxo_cache[k] == (key, coin);
        assert(store.utxo_cache[k].0 == key);
        let m = crate::table::row_of(store.utxo_cache, key);
        assert(store.utxo_cache[m].0 == key);
        law_cached_coin_stays(store, views, key);
        let after = final(wallet)@.utxo_cache;
        let n = crate::table::row_of(after, key);
        assert(after[n].0 == key);
        assert(after[n] == (key, coin));
    }
}

/// An update fails only where what it takes to spend some new output cannot be told, and changes
/// nothing then; where it can be told of every new output, it does not fail.
pub proof fn law_failed_update_changes_nothing(
    wallet: &mut Wallet,
    before: Wallet,
    utxos: Vec<Utxo>,
    infos: Seq<Option<UTXOSpendInfo>>,
    r: Result<(), WalletError>,
)
    requires
        old(wallet)@.well_formed(),
        before@ == old(wallet)@,
        call_ensures(Wallet::refresh_utxo_cache, (wallet, utxos), r),
    ensures
        r is Err ==> final(wallet)@ == old(wallet)@,
        (forall|i: int|
            0 <= i < utxos@.len() && !has_key(
                old(wallet)@.utxo_cache,
                (#[trigger] utxos@[i])@.outpoint(),
            ) ==> call_ensures(Wallet::derive_spend_info, (&before, &utxos@[i]), Ok(infos[i])))
            ==> r is Ok,
{
    let views = utxos_view(utxos@);
    if forall|i: int|
        0 <= i < utxos@.len() && !has_key(
            old(wallet)@.utxo_cache,
            (#[trigger] utxos@[i])@.outpoint(),
        ) ==> call_ensures(Wallet::derive_spend_info, (&before, &utxos@[i]), Ok(infos[i])) {
        assert forall|i: int|
            0 <= i < views.len() && !has_key(
                old(wallet)@.utxo_cache,
                views[i].outpoint(),
            ) implies crate::coins::spend_info(old(wallet)@, #[trigger] views[i]) is Ok by {
            assert(views[i] == utxos@[i]@);
            assert(call_ensures(Wallet::derive_spend_info, (&before, &utxos@[i]), Ok(infos[i])));
        }
    }
}

} // verus!
