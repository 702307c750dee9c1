//! What keeping a wallet promises, from call to call.

use crate::error::WalletError;
use crate::keys::{master_key, mnemonic_entropy, transaction_id, without_witnesses};
use crate::store::WalletStore;
use crate::swapcoin::{
    bytes_before, create_multisig_redeemscript, lemma_bytes_before, multisig_script,
    write_txid, IncomingSwapCoin, OutgoingSwapCoin, SwapCoinView, WatchOnlySwapCoin,
};
use crate::table::{has_key, law_put_then_get, law_take_then_get, value_of, Rows};
use crate::text::hex;
use crate::types::{Network, OutPoint, ProtocolVersion, Script, Txid};
use crate::wallet::{first_with_multisig, has_multisig, keys_for_swap, texts_view, Wallet};
use vstd::prelude::*;

verus! {

/// A wallet file is taken up exactly where it has the name and the network that were asked for, and
/// as it stands.
pub proof fn law_only_the_right_wallet_is_loaded(
    store: WalletStore,
    name: String,
    network: Network,
    r: Result<Wallet, WalletError>,
)
    requires
        call_ensures(Wallet::load, (store, &name, network), r),
    ensures
        r is Ok <==> name@ == store.file_name@ && network == store.network,
        r matches Ok(wallet) ==> wallet@ == store@,
{
}

/// A wallet that was made of a seed has the key of the seed, for the main network or for all others,
/// starts at the first address and holds nothing.
pub proof fn law_new_wallet_is_empty(
    name: String,
    network: Network,
    seed: Vec<u8>,
    birthday: u64,
    r: Result<Wallet, WalletError>,
)
    requires
        call_ensures(Wallet::from_seed, (name, network, &seed, birthday), r),
    ensures
        r is Ok <==> master_key(network == Network::Bitcoin, seed@) is Some,
        r matches Ok(wallet) ==> {
            &&& Some(wallet@.master_key) == master_key(network == Network::Bitcoin, seed@)
            &&& wallet@.file_name == name@
            &&& wallet@.network == network
            &&& wallet@.external_index == 0
            &&& wallet@.offer_maxsize == 0
            &&& wallet@.wallet_birthday == Some(birthday)
            &&& wallet@.last_synced_height is None
            &&& wallet@.incoming_swapcoins.len() == 0
            &&& wallet@.outgoing_swapcoins.len() == 0
            &&& wallet@.watchonly_swapcoins.len() == 0
            &&& wallet@.prevout_to_contract_map.len() == 0
            &&& wallet@.fidelity_bond.len() == 0
            &&& wallet@.utxo_cache.len() == 0
            &&& wallet@.swept_incoming_swapcoins.len() == 0
        },
{
}

/// Wallets are equal only where they agree on network, key, external index, offer size and birthday,
/// and have the same bonds and the same cached coins; and wherever they do.
pub proof fn law_equal_wallets_agree(a: Wallet, b: Wallet, r: bool)
    requires
        call_ensures(Wallet::eq, (&a, &b), r),
    ensures
        r <==> {
            &&& a@.network == b@.network
            &&& a@.master_key == b@.master_key
            &&& a@.external_index == b@.external_index
            &&& a@.offer_maxsize == b@.offer_maxsize
            &&& a@.wallet_birthday == b@.wallet_birthday
            &&& forall|bond|
                a@.fidelity_bond.contains(bond) <==> #[trigger] b@.fidelity_bond.contains(bond)
            &&& forall|coin|
                a@.utxo_cache.contains(coin) <==> #[trigger] b@.utxo_cache.contains(coin)
        },
{
    if r {
        assert forall|bond| a@.fidelity_bond.contains(
            bond,
        ) <==> #[trigger] b@.fidelity_bond.contains(bond) by {
            assert(bond == (bond.0, bond.1));
        }
        assert forall|coin| a@.utxo_cache.contains(coin) <==> #[trigger] b@.utxo_cache.contains(
            coin,
        ) by {
            assert(coin == (coin.0, coin.1));
        }
    }
}

/// The text of a transaction id: its bytes from the last to the first, in hexadecimal.
pub open spec fn id_text(txid: Txid) -> Seq<char> {
    hex(Seq::new(32, |i: int| txid.bytes@[31 - i]))
}

/// The id of the transaction that holds the contract of a coin.
pub open spec fn contract_id(coin: SwapCoinView) -> Txid {
    transaction_id(without_witnesses(coin.contract_tx))
}

proof fn lemma_key(coin: SwapCoinView)
    ensures
        coin.key() == id_text(contract_id(coin)),
{
    let bytes = contract_id(coin).bytes@;
    assert(bytes.reverse() =~= Seq::new(32, |i: int| bytes[31 - i]));
}

/// An incoming coin that was added is found under the text of the id of its contract transaction,
/// and every other coin is found as before. Nothing else changes.
pub proof fn law_added_incoming_coin_is_found(
    wallet: &mut Wallet,
    coin: IncomingSwapCoin,
    after: Wallet,
    before: Wallet,
    key: &str,
    r: Option<&IncomingSwapCoin>,
    s: Option<&IncomingSwapCoin>,
)
    requires
        old(wallet)@.well_formed(),
        before@ == old(wallet)@,
        after@ == final(wallet)@,
        call_ensures(Wallet::add_incoming_swapcoin, (wallet, &coin), ()),
        call_ensures(Wallet::find_incoming_swapcoin, (&after, key), r),
        call_ensures(Wallet::find_incoming_swapcoin, (&before, key), s),
    ensures
        key@ == id_text(contract_id(coin@)) ==> (r matches Some(found) && found@ == coin@),
        key@ != id_text(contract_id(coin@)) ==> match (r, s) {
            (Some(a), Some(b)) => a@ == b@,
            (None, None) => true,
            _ => false,
        },
        final(wallet)@.outgoing_swapcoins == old(wallet)@.outgoing_swapcoins,
        final(wallet)@.utxo_cache == old(wallet)@.utxo_cache,
        final(wallet)@.external_index == old(wallet)@.external_index,
        final(wallet)@.swept_incoming_swapcoins == old(wallet)@.swept_incoming_swapcoins,
{
    lemma_key(coin@);
    law_put_then_get(old(wallet)@.incoming_swapcoins, coin@.key(), coin@, key@);
}

/// An outgoing coin that was added stands under the text of the id of its contract transaction, and
/// every other coin stands as before. Nothing else changes.
pub proof fn law_added_outgoing_coin_is_kept(
    wallet: &mut Wallet,
    coin: OutgoingSwapCoin,
    other: Seq<char>,
)
    requires
        old(wallet)@.well_formed(),
        call_ensures(Wallet::add_outgoing_swapcoin, (wallet, &coin), ()),
    ensures
        ({
            let (rows, earlier) = (
                final(wallet)@.outgoing_swapcoins,
                old(wallet)@.outgoing_swapcoins,
            );
            &&& has_key(rows, id_text(contract_id(coin@)))
            &&& value_of(rows, id_text(contract_id(coin@))) == coin@
            &&& other != id_text(contract_id(coin@)) ==> has_key(rows, other) == has_key(
                earlier,
                other,
            )
            &&& other != id_text(contract_id(coin@)) && has_key(earlier, other) ==> value_of(
                rows,
                other,
            ) == value_of(earlier, other)
        }),
        final(wallet)@.incoming_swapcoins == old(wallet)@.incoming_swapcoins,
        final(wallet)@.utxo_cache == old(wallet)@.utxo_cache,
        final(wallet)@.external_index == old(wallet)@.external_index,
{
    lemma_key(coin@);
    law_put_then_get(old(wallet)@.outgoing_swapcoins, coin@.key(), coin@, other);
}

/// A coin that was removed is handed back and gone, every other coin stays.
pub proof fn law_removed_coins_are_gone(
    wallet: &mut Wallet,
    key: &str,
    r: Option<IncomingSwapCoin>,
    other: Seq<char>,
)
    requires
        old(wallet)@.well_formed(),
        call_ensures(Wallet::remove_incoming_swapcoin, (wallet, key), r),
    ensures
        ({
            let (rows, earlier) = (
                final(wallet)@.incoming_swapcoins,
                old(wallet)@.incoming_swapcoins,
            );
            &&& !has_key(rows, key@)
            &&& r is Some <==> has_key(earlier, key@)
            &&& r matches Some(coin) ==> coin@ == value_of(earlier, key@)
            &&& other != key@ ==> has_key(rows, other) == has_key(earlier, other)
            &&& other != key@ && has_key(earlier, other) ==> value_of(rows, other) == value_of(
                earlier,
                other,
            )
        }),
        final(wallet)@.outgoing_swapcoins == old(wallet)@.outgoing_swapcoins,
        final(wallet)@.utxo_cache == old(wallet)@.utxo_cache,
{
    law_take_then_get(old(wallet)@.incoming_swapcoins, key@, other);
}

/// The same for an outgoing coin.
pub proof fn law_removed_outgoing_coins_are_gone(wallet: &mut Wallet, key: &str, other: Seq<char>)
    requires
        old(wallet)@.well_formed(),
        call_ensures(Wallet::remove_outgoing_swapcoin, (wallet, key), ()),
    ensures
        ({
            let (rows, earlier) = (
                final(wallet)@.outgoing_swapcoins,
                old(wallet)@.outgoing_swapcoins,
            );
            &&& !has_key(rows, key@)
            &&& other != key@ ==> has_key(rows, other) == has_key(earlier, other)
            &&& other != key@ && has_key(earlier, other) ==> value_of(rows, other) == value_of(
                earlier,
                other,
            )
        }),
        final(wallet)@.incoming_swapcoins == old(wallet)@.incoming_swapcoins,
        final(wallet)@.utxo_cache == old(wallet)@.utxo_cache,
{
    law_take_then_get(old(wallet)@.outgoing_swapcoins, key@, other);
}

/// Watched coins pile up under their swap, in the order in which they were added, and are handed
/// back together.
pub proof fn law_watched_coins_pile_up(
    wallet: &mut Wallet,
    swap_id: &str,
    coins: Vec<WatchOnlySwapCoin>,
    other: Seq<char>,
)
    requires
        old(wallet)@.well_formed(),
        call_ensures(Wallet::add_watchonly_swapcoins, (wallet, swap_id, coins), ()),
    ensures
        ({
            let (rows, earlier) = (
                final(wallet)@.watchonly_swapcoins,
                old(wallet)@.watchonly_swapcoins,
            );
            &&& has_key(rows, swap_id@)
            &&& has_key(earlier, swap_id@) ==> value_of(rows, swap_id@) == value_of(
                earlier,
                swap_id@,
            ) + coins@
            &&& !has_key(earlier, swap_id@) ==> value_of(rows, swap_id@) == coins@
            &&& other != swap_id@ ==> has_key(rows, other) == has_key(earlier, other)
            &&& other != swap_id@ && has_key(earlier, other) ==> value_of(rows, other) == value_of(
                earlier,
                other,
            )
        }),
{
    let earlier = old(wallet)@.watchonly_swapcoins;
    let all = crate::wallet::watched(earlier, swap_id@) + coins@;
    law_put_then_get(earlier, swap_id@, all, other);
    if !has_key(earlier, swap_id@) {
        assert(all =~= coins@);
    }
}

/// The watched coins of a swap that were removed are handed back, all of them, and are gone.
pub proof fn law_removed_watched_coins_are_gone(
    wallet: &mut Wallet,
    swap_id: &str,
    r: Option<Vec<WatchOnlySwapCoin>>,
    other: Seq<char>,
)
    requires
        old(wallet)@.well_formed(),
        call_ensures(Wallet::remove_watchonly_swapcoins, (wallet, swap_id), r),
    ensures
        ({
            let (rows, earlier) = (
                final(wallet)@.watchonly_swapcoins,
                old(wallet)@.watchonly_swapcoins,
            );
            &&& !has_key(rows, swap_id@)
            &&& r is Some <==> has_key(earlier, swap_id@)
            &&& r matches Some(coins) ==> coins@ == value_of(earlier, swap_id@)
            &&& other != swap_id@ ==> has_key(rows, other) == has_key(earlier, other)
        }),
{
    law_take_then_get(old(wallet)@.watchonly_swapcoins, swap_id@, other);
}

/// The coin is a legacy coin whose two keys are those of the script, the smaller one first: `2`, both
/// keys behind their length, `2` and the check.
pub open spec fn is_on_multisig(coin: SwapCoinView, script: Seq<u8>) -> bool {
    &&& coin.protocol == ProtocolVersion::Legacy
    &&& coin.my_pubkey matches Some(mine) && (coin.other_pubkey matches Some(other)
        && is_two_of_two(script, mine@, other@))
}

/// The script asks for the signatures of both keys, which are in ascending order.
pub open spec fn is_two_of_two(script: Seq<u8>, a: Seq<u8>, b: Seq<u8>) -> bool {
    let (first, second) = (script.subrange(2, 35), script.subrange(36, 69));
    &&& script.len() == 71
    &&& script[0] == 0x52 && script[1] == 33 && script[35] == 33
    &&& script[69] == 0x52 && script[70] == 0xae
    &&& (first == a && second == b) || (first == b && second == a)
    &&& first == second || exists|i: int| #[trigger] differ_first(first, second, i) && first[i]
        < second[i]
}

/// The first difference of two keys.
pub open spec fn differ_first(a: Seq<u8>, b: Seq<u8>, i: int) -> bool {
    &&& 0 <= i < a.len()
    &&& a[i] != b[i]
    &&& forall|k: int| 0 <= k < i ==> #[trigger] a[k] == b[k]
}

/// The multisig script of two keys: both keys, in ascending order, each behind its length.
pub proof fn law_multisig_layout(a: [u8; 33], b: [u8; 33], r: Script)
    requires
        call_ensures(create_multisig_redeemscript, (&a, &b), r),
    ensures
        is_two_of_two(r@, a@, b@),
{
    lemma_two_of_two(a@, b@);
}

pub(crate) proof fn lemma_first_difference(a: Seq<u8>, b: Seq<u8>, n: int) -> (i: int)
    requires
        a.len() == b.len(),
        0 <= n <= a.len(),
        forall|k: int| 0 <= k < n ==> #[trigger] a[k] == b[k],
        a != b,
    ensures
        differ_first(a, b, i),
    decreases a.len() - n,
{
    if n == a.len() {
        assert(a =~= b);
        0
    } else if a[n] != b[n] {
        n
    } else {
        lemma_first_difference(a, b, n + 1)
    }
}

proof fn lemma_two_of_two(a: Seq<u8>, b: Seq<u8>)
    requires
        a.len() == 33,
        b.len() == 33,
    ensures
        is_two_of_two(multisig_script(a, b), a, b),
{
    let (first, second) = if bytes_before(b, a) {
        (b, a)
    } else {
        (a, b)
    };
    let script = multisig_script(a, b);
    assert(script.subrange(2, 35) =~= first);
    assert(script.subrange(36, 69) =~= second);
    if a != b {
        let i = lemma_first_difference(first, second, 0);
        assert forall|k: int| 0 <= k < i implies second[k] == first[k] by {
            assert(first[k] == second[k]);
        }
        lemma_bytes_before(first, second, i);
        lemma_bytes_before(second, first, i);
    }
}

/// A script names the keys that it asks for in one way only.
proof fn lemma_two_of_two_is_unique(script: Seq<u8>, a: Seq<u8>, b: Seq<u8>)
    requires
        a.len() == 33,
        b.len() == 33,
        is_two_of_two(script, a, b),
    ensures
        script == multisig_script(a, b),
{
    let made = multisig_script(a, b);
    lemma_two_of_two(a, b);
    let (first, second) = (script.subrange(2, 35), script.subrange(36, 69));
    let (f, s) = (made.subrange(2, 35), made.subrange(36, 69));
    if first != f {
        assert(first == s && second == f);
        let i = choose|i: int| #[trigger] differ_first(first, second, i) && first[i] < second[i];
        let j = choose|j: int| #[trigger] differ_first(f, s, j) && f[j] < s[j];
        if i < j {
            assert(f[i] == s[i]);
        } else if j < i {
            assert(first[j] == second[j]);
        }
    }
    assert(first == f && second == s);
    assert forall|k: int| 0 <= k < 71 implies script[k] == made[k] by {
        if 2 <= k < 35 {
            assert(script[k] == first[k - 2] && made[k] == f[k - 2]);
        } else if 36 <= k < 69 {
            assert(script[k] == second[k - 36] && made[k] == s[k - 36]);
        }
    }
    assert(script =~= made);
}

/// A coin that is found by a multisig script is the first one of the wallet on that script; none is
/// found exactly where none is on it.
pub proof fn law_coins_are_found_by_multisig(
    wallet: Wallet,
    script: Script,
    r: Option<&OutgoingSwapCoin>,
    s: Option<&IncomingSwapCoin>,
)
    requires
        call_ensures(Wallet::find_outgoing_swapcoin_by_multisig, (&wallet, &script), r),
        call_ensures(Wallet::find_incoming_swapcoin_by_multisig, (&wallet, &script), s),
    ensures
        is_found(
            wallet@.outgoing_swapcoins,
            script@,
            match r {
                Some(coin) => Some(coin@),
                None => None,
            },
        ),
        is_found(
            wallet@.incoming_swapcoins,
            script@,
            match s {
                Some(coin) => Some(coin@),
                None => None,
            },
        ),
{
    lemma_found(wallet@.outgoing_swapcoins, script@);
    lemma_found(wallet@.incoming_swapcoins, script@);
}

/// The first coin on a multisig script, where there is one.
pub open spec fn is_found(
    rows: Rows<Seq<char>, SwapCoinView>,
    script: Seq<u8>,
    found: Option<SwapCoinView>,
) -> bool {
    match found {
        Some(coin) => exists|i: int|
            0 <= i < rows.len() && #[trigger] is_on_multisig(rows[i].1, script) && rows[i].1 == coin
                && forall|k: int|
                0 <= k < i ==> !is_on_multisig((#[trigger] rows[k]).1, script),
        None => forall|k: int|
            0 <= k < rows.len() ==> !is_on_multisig((#[trigger] rows[k]).1, script),
    }
}

proof fn lemma_on_multisig(coin: SwapCoinView, script: Seq<u8>)
    ensures
        is_on_multisig(coin, script) <==> coin.multisig() == Some(script),
{
    if let (Some(mine), Some(other)) = (coin.my_pubkey, coin.other_pubkey) {
        lemma_two_of_two(mine@, other@);
        if is_two_of_two(script, mine@, other@) {
            lemma_two_of_two_is_unique(script, mine@, other@);
        }
    }
}

pub(crate) proof fn lemma_found(rows: Rows<Seq<char>, SwapCoinView>, script: Seq<u8>)
    ensures
        is_found(
            rows,
            script,
            if has_multisig(rows, script) {
                Some(crate::wallet::multisig_coin(rows, script))
            } else {
                None
            },
        ),
{
    assert forall|k: int| 0 <= k < rows.len() implies is_on_multisig(
        (#[trigger] rows[k]).1,
        script,
    ) == (rows[k].1.multisig() == Some(script)) by {
        lemma_on_multisig(rows[k].1, script);
    }
    if has_multisig(rows, script) {
        let some = choose|i: int|
            0 <= i < rows.len() && (#[trigger] rows[i]).1.multisig() == Some(script);
        lemma_first_exists(rows, script, some);
        let i = choose|i: int| first_with_multisig(rows, script, i);
        assert(is_on_multisig(rows[i].1, script));
    }
}

proof fn lemma_first_exists(rows: Rows<Seq<char>, SwapCoinView>, script: Seq<u8>, i: int)
    requires
        0 <= i < rows.len(),
        rows[i].1.multisig() == Some(script),
    ensures
        exists|j: int| first_with_multisig(rows, script, j),
    decreases i,
{
    if exists|k: int| 0 <= k < i && (#[trigger] rows[k]).1.multisig() == Some(script) {
        let k = choose|k: int| 0 <= k < i && (#[trigger] rows[k]).1.multisig() == Some(script);
        lemma_first_exists(rows, script, k);
    } else {
        assert(first_with_multisig(rows, script, i));
    }
}

/// The keys of a swap are those of the outgoing coins that belong to it, and of no other coin.
pub proof fn law_keys_of_a_swap(wallet: Wallet, swap_id: &str, r: Vec<String>, key: Seq<char>)
    requires
        call_ensures(Wallet::outgoing_keys_for_swap, (&wallet, swap_id), r),
    ensures
        texts_view(r@).contains(key) <==> exists|i: int|
            0 <= i < wallet@.outgoing_swapcoins.len() && (
            #[trigger] wallet@.outgoing_swapcoins[i]).0 == key
                && wallet@.outgoing_swapcoins[i].1.swap_id == Some(swap_id@),
{
    lemma_keys_for_swap(wallet@.outgoing_swapcoins, swap_id@, key);
}

proof fn lemma_keys_for_swap(rows: Rows<Seq<char>, SwapCoinView>, swap_id: Seq<char>, key: Seq<char>)
    ensures
        keys_for_swap(rows, swap_id).contains(key) <==> exists|i: int|
            0 <= i < rows.len() && (#[trigger] rows[i]).0 == key && rows[i].1.swap_id == Some(
                swap_id,
            ),
    decreases rows.len(),
{
    if rows.len() > 0 {
        let (less, last) = (rows.drop_last(), rows.last());
        let (rest, all) = (keys_for_swap(less, swap_id), keys_for_swap(rows, swap_id));
        lemma_keys_for_swap(less, swap_id, key);
        assert(rows[rows.len() - 1] == last);
        if rest.contains(key) {
            let k = choose|k: int| 0 <= k < rest.len() && rest[k] == key;
            assert(all[k] == key);
            let i = choose|i: int|
                0 <= i < less.len() && (#[trigger] less[i]).0 == key && less[i].1.swap_id == Some(
                    swap_id,
                );
            assert(rows[i] == less[i]);
        }
        if last.0 == key && last.1.swap_id == Some(swap_id) {
            assert(all[rest.len() as int] == key);
        }
        if all.contains(key) {
            let k = choose|k: int| 0 <= k < all.len() && all[k] == key;
            if k < rest.len() {
                assert(rest[k] == key);
            }
        }
        if exists|i: int|
            0 <= i < rows.len() && (#[trigger] rows[i]).0 == key && rows[i].1.swap_id == Some(
                swap_id,
            ) {
            let i = choose|i: int|
                0 <= i < rows.len() && (#[trigger] rows[i]).0 == key && rows[i].1.swap_id == Some(
                    swap_id,
                );
            if i < less.len() {
                assert(less[i] == rows[i]);
            }
        }
    }
}

/// Each coin has one contract outpoint: the first output of its contract transaction.
pub proof fn law_contract_outpoints(
    wallet: Wallet,
    outgoing: Vec<OutPoint>,
    incoming: Vec<OutPoint>,
    i: int,
)
    requires
        call_ensures(Wallet::outgoing_contract_outpoints, (&wallet,), outgoing),
        call_ensures(Wallet::incoming_contract_outpoints, (&wallet,), incoming),
    ensures
        outgoing@.len() == wallet@.outgoing_swapcoins.len(),
        incoming@.len() == wallet@.incoming_swapcoins.len(),
        0 <= i < outgoing@.len() ==> outgoing@[i].txid == contract_id(
            wallet@.outgoing_swapcoins[i].1,
        ) && outgoing@[i].vout == 0,
        0 <= i < incoming@.len() ==> incoming@[i].txid == contract_id(
            wallet@.incoming_swapcoins[i].1,
        ) && incoming@[i].vout == 0,
{
}

/// Whether an output may be used for a contract: it may where it was promised to none, and for the
/// contract that it was promised to last, but for no other.
pub proof fn law_promise_is_kept(
    wallet: &mut Wallet,
    after: Wallet,
    before: Wallet,
    prevout: OutPoint,
    contract: Script,
    other: Script,
    p: Result<(), WalletError>,
    r: Result<bool, WalletError>,
    s: Result<bool, WalletError>,
)
    requires
        old(wallet)@.well_formed(),
        before@ == old(wallet)@,
        after@ == final(wallet)@,
        call_ensures(Wallet::cache_prevout_to_contract, (wallet, prevout, contract), p),
        call_ensures(Wallet::does_prevout_match_cached_contract, (&after, &prevout, &other), r),
        call_ensures(Wallet::does_prevout_match_cached_contract, (&before, &prevout, &other), s),
    ensures
        p is Ok,
        r == Ok::<bool, WalletError>(other@ == contract@),
        !has_key(old(wallet)@.prevout_to_contract_map, prevout) ==> s == Ok::<bool, WalletError>(
            true,
        ),
{
    law_put_then_get(old(wallet)@.prevout_to_contract_map, prevout, contract@, prevout);
}

/// The words that a new wallet hands back stand for sixteen bytes, and a wallet that is made of those
/// bytes has the same key.
pub proof fn law_words_lead_back_to_the_wallet(
    name: String,
    network: Network,
    birthday: u64,
    r: (Wallet, String),
    seed: Vec<u8>,
    again: Result<Wallet, WalletError>,
)
    requires
        call_ensures(Wallet::init, (name, network, birthday), Ok(r)),
        mnemonic_entropy(r.1@) == Some(seed@),
        call_ensures(Wallet::from_seed, (name, network, &seed, birthday), again),
    ensures
        seed@.len() == 16,
        again matches Ok(wallet) && wallet@ == r.0@,
{
}

/// A coin that is found to be changed is the one under the key, what it is changed to stands under
/// the key afterwards, and nothing else changes. Where there is none, nothing is found.
pub proof fn law_found_coin_can_be_changed(
    wallet: &mut Wallet,
    key: &str,
    r: Option<&mut IncomingSwapCoin>,
    other: Seq<char>,
)
    requires
        old(wallet)@.well_formed(),
        call_ensures(Wallet::find_incoming_swapcoin_mut, (wallet, key), r),
    ensures
        r is Some <==> has_key(old(wallet)@.incoming_swapcoins, key@),
        r matches Some(coin) ==> {
            let (rows, earlier) = (
                final(wallet)@.incoming_swapcoins,
                old(wallet)@.incoming_swapcoins,
            );
            &&& coin@ == value_of(earlier, key@)
            &&& has_key(rows, key@) && value_of(rows, key@) == final(coin)@
            &&& other != key@ ==> has_key(rows, other) == has_key(earlier, other)
            &&& other != key@ && has_key(earlier, other) ==> value_of(rows, other) == value_of(
                earlier,
                other,
            )
            &&& final(wallet)@.outgoing_swapcoins == old(wallet)@.outgoing_swapcoins
            &&& final(wallet)@.utxo_cache == old(wallet)@.utxo_cache
        },
        r is None ==> final(wallet)@ == old(wallet)@,
{
    if let Some(coin) = r {
        law_put_then_get(old(wallet)@.incoming_swapcoins, key@, final(coin)@, other);
    }
}

/// The coins that are counted are those of the direction that was asked for, and each of them has one
/// contract outpoint.
pub proof fn law_coins_are_counted(
    wallet: Wallet,
    ins: usize,
    outs: usize,
    incoming: Vec<OutPoint>,
    outgoing: Vec<OutPoint>,
)
    requires
        call_ensures(Wallet::get_incoming_swapcoins_count, (&wallet,), ins),
        call_ensures(Wallet::get_outgoing_swapcoins_count, (&wallet,), outs),
        call_ensures(Wallet::incoming_contract_outpoints, (&wallet,), incoming),
        call_ensures(Wallet::outgoing_contract_outpoints, (&wallet,), outgoing),
    ensures
        ins == wallet@.incoming_swapcoins.len() == incoming@.len(),
        outs == wallet@.outgoing_swapcoins.len() == outgoing@.len(),
{
}

/// A wallet that was loaded goes by the name that was asked for, and goes on with the index that it
/// was left at.
pub proof fn law_loaded_wallet_keeps_its_name(
    store: WalletStore,
    name: String,
    network: Network,
    wallet: Wallet,
    r: &str,
    index: &u32,
)
    requires
        call_ensures(Wallet::load, (store, &name, network), Ok(wallet)),
        call_ensures(Wallet::get_name, (&wallet,), r),
        call_ensures(Wallet::get_external_index, (&wallet,), index),
    ensures
        r@ == name@,
        *index == store.external_index,
{
}

/// The text of a transaction id is its bytes from the last to the first, in hexadecimal.
pub proof fn law_ids_are_written_backwards(txid: Txid, r: String)
    requires
        call_ensures(write_txid, (&txid,), r),
    ensures
        r@ == id_text(txid),
{
    assert(txid.bytes@.reverse() =~= Seq::new(32, |i: int| txid.bytes@[31 - i]));
}

} // verus!
