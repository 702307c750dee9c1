//! The fixed scripts that are watched beside the keychains of the seed.

use crate::keys::{p2wsh_script, to_p2wsh, transaction_id, without_witnesses};
use crate::store::{FidelityBond, FidelityBondView, StoreView};
use crate::swapcoin::{create_multisig_redeemscript, multisig_script, SwapCoin, SwapCoinView};
use crate::table::{Rows, Table};
use crate::types::{ProtocolVersion, Script, Txid};
use crate::wallet::Wallet;
use vstd::prelude::*;

verus! {

/// What a watched script belongs to.
#[derive(Debug)]
pub enum WatchKey {
    /// The multisig of the swap coin with this contract transaction.
    Swap(Txid),
    /// The contract of the swap coin with this contract transaction.
    Contract(Txid),
    /// The fidelity bond with this index.
    Fidelity(u32),
    /// A script of the seed that a swap coin was swept to.
    Sweep(Script),
}

#[verifier::ext_equal]
pub enum WatchKeyView {
    Swap(Txid),
    Contract(Txid),
    Fidelity(u32),
    Sweep(Seq<u8>),
}

impl View for WatchKey {
    type V = WatchKeyView;

    open spec fn view(&self) -> WatchKeyView {
        match self {
            WatchKey::Swap(txid) => WatchKeyView::Swap(*txid),
            WatchKey::Contract(txid) => WatchKeyView::Contract(*txid),
            WatchKey::Fidelity(index) => WatchKeyView::Fidelity(*index),
            WatchKey::Sweep(script) => WatchKeyView::Sweep(script@),
        }
    }
}

/// The views of a list of watched scripts.
pub open spec fn watches_view(list: Seq<(WatchKey, Script)>) -> Rows<WatchKeyView, Seq<u8>> {
    list.map_values(|w: (WatchKey, Script)| (w.0@, w.1@))
}

/// The output scripts of a swap coin: of its multisig and of its contract.
pub open spec fn coin_watches(coin: SwapCoinView) -> Rows<WatchKeyView, Seq<u8>> {
    (match coin.multisig() {
        Some(script) => seq![(WatchKeyView::Swap(coin.contract_txid()), p2wsh_script(script))],
        None => Seq::empty(),
    }) + (match coin.contract_redeemscript {
        Some(script) => seq![(WatchKeyView::Contract(coin.contract_txid()), p2wsh_script(script))],
        None => Seq::empty(),
    })
}

/// The output scripts of all swap coins.
pub open spec fn swap_watches(rows: Rows<Seq<char>, SwapCoinView>) -> Rows<WatchKeyView, Seq<u8>>
    decreases rows.len(),
{
    if rows.len() == 0 {
        Seq::empty()
    } else {
        swap_watches(rows.drop_last()) + coin_watches(rows.last().1)
    }
}

/// The output scripts of all fidelity bonds.
pub open spec fn bond_watches(rows: Rows<u32, FidelityBondView>) -> Rows<WatchKeyView, Seq<u8>> {
    rows.map_values(
        |row: (u32, FidelityBondView)| (WatchKeyView::Fidelity(row.0), row.1.script_pub_key),
    )
}

/// The scripts that swap coins were swept to.
pub open spec fn sweep_watches(scripts: Seq<Seq<u8>>) -> Rows<WatchKeyView, Seq<u8>> {
    scripts.map_values(|script: Seq<u8>| (WatchKeyView::Sweep(script), script))
}

/// All scripts to watch.
pub open spec fn watched_scripts(store: StoreView) -> Rows<WatchKeyView, Seq<u8>> {
    swap_watches(store.incoming_swapcoins) + swap_watches(store.outgoing_swapcoins) + bond_watches(
        store.fidelity_bond,
    ) + sweep_watches(store.swept_incoming_swapcoins)
}

fn watch_coin(coin: &SwapCoin) -> (r: Vec<(WatchKey, Script)>)
    ensures
        watches_view(r@) == coin_watches(coin@),
{
    let mut r: Vec<(WatchKey, Script)> = Vec::new();
    let txid = coin.contract_txid();
    if coin.protocol == ProtocolVersion::Legacy {
        match (&coin.my_pubkey, &coin.other_pubkey) {
            (Some(mine), Some(other)) => {
                let script = create_multisig_redeemscript(mine, other);
                r.push((WatchKey::Swap(txid), to_p2wsh(&script)));
            },
            _ => {},
        }
    }
    match &coin.contract_redeemscript {
        Some(script) => {
            r.push((WatchKey::Contract(txid), to_p2wsh(script)));
        },
        None => {},
    }
    assert(watches_view(r@) =~= coin_watches(coin@));
    r
}

fn watch_swaps(coins: &Table<String, SwapCoin>) -> (r: Vec<(WatchKey, Script)>)
    ensures
        watches_view(r@) == swap_watches(coins@),
{
    let mut r: Vec<(WatchKey, Script)> = Vec::new();
    let mut i: usize = 0;
    assert(coins@.take(0) =~= Seq::<(Seq<char>, SwapCoinView)>::empty());
    assert(watches_view(r@) =~= Seq::<(WatchKeyView, Seq<u8>)>::empty());
    while i < coins.rows.len()
        invariant
            i <= coins.rows.len(),
            watches_view(r@) == swap_watches(coins@.take(i as int)),
        decreases coins.rows.len() - i,
    {
        let mut more = watch_coin(&coins.rows[i].1);
        let ghost (front, back) = (r@, more@);
        r.append(&mut more);
        proof {
            assert(coins@.take(i + 1).drop_last() =~= coins@.take(i as int));
            assert(coins@[i as int].1 == coins.rows@[i as int].1@);
            assert(watches_view(r@) =~= watches_view(front) + watches_view(back));
        }
        i += 1;
    }
    assert(coins@.take(coins@.len() as int) =~= coins@);
    r
}

fn watch_bonds(bonds: &Table<u32, FidelityBond>) -> (r: Vec<(WatchKey, Script)>)
    ensures
        watches_view(r@) == bond_watches(bonds@),
{
    let mut r: Vec<(WatchKey, Script)> = Vec::new();
    let mut i: usize = 0;
    while i < bonds.rows.len()
        invariant
            i <= bonds.rows.len(),
            r.len() == i,
            forall|k: int|
                0 <= k < i ==> #[trigger] watches_view(r@)[k] == bond_watches(bonds@)[k],
        decreases bonds.rows.len() - i,
    {
        let ghost before = watches_view(r@);
        let row = &bonds.rows[i];
        r.push((WatchKey::Fidelity(row.0), row.1.script_pub_key.clone()));
        assert(watches_view(r@) =~= before.push(bond_watches(bonds@)[i as int]));
        i += 1;
    }
    assert(watches_view(r@) =~= bond_watches(bonds@));
    r
}

fn watch_sweeps(scripts: &Vec<Script>) -> (r: Vec<(WatchKey, Script)>)
    ensures
        watches_view(r@) == sweep_watches(crate::store::scripts_view(scripts@)),
{
    let ghost watches = sweep_watches(crate::store::scripts_view(scripts@));
    let mut r: Vec<(WatchKey, Script)> = Vec::new();
    let mut i: usize = 0;
    while i < scripts.len()
        invariant
            i <= scripts.len(),
            r.len() == i,
            watches == sweep_watches(crate::store::scripts_view(scripts@)),
            forall|k: int| 0 <= k < i ==> #[trigger] watches_view(r@)[k] == watches[k],
        decreases scripts.len() - i,
    {
        let ghost before = watches_view(r@);
        r.push((WatchKey::Sweep(scripts[i].clone()), scripts[i].clone()));
        assert(watches_view(r@) =~= before.push(watches[i as int]));
        i += 1;
    }
    assert(watches_view(r@) =~= watches);
    r
}

impl Wallet {
    /// All scripts to watch, each with what it belongs to.
    pub fn watched_scripts(&self) -> (r: Vec<(WatchKey, Script)>)
        ensures
            watches_view(r@) == watched_scripts(self@),
    {
        let mut r = watch_swaps(&self.store.incoming_swapcoins);
        let mut outgoing = watch_swaps(&self.store.outgoing_swapcoins);
        let mut bonds = watch_bonds(&self.store.fidelity_bond);
        let mut sweeps = watch_sweeps(&self.store.swept_incoming_swapcoins);
        let ghost (a, b, c, d) = (r@, outgoing@, bonds@, sweeps@);
        r.append(&mut outgoing);
        r.append(&mut bonds);
        r.append(&mut sweeps);
        assert(watches_view(r@) =~= watches_view(a) + watches_view(b) + watches_view(c)
            + watches_view(d));
        r
    }
}

// ---------------------------------------------------------------------------------------------
// Laws
// ---------------------------------------------------------------------------------------------

proof fn lemma_swap_watches(
    rows: Rows<Seq<char>, SwapCoinView>,
    i: int,
    watch: (WatchKeyView, Seq<u8>),
)
    requires
        0 <= i < rows.len(),
        coin_watches(rows[i].1).contains(watch),
    ensures
        swap_watches(rows).contains(watch),
    decreases rows.len(),
{
    let (rest, last) = (swap_watches(rows.drop_last()), coin_watches(rows.last().1));
    if i < rows.len() - 1 {
        assert(rows.drop_last()[i] == rows[i]);
        lemma_swap_watches(rows.drop_last(), i, watch);
        let k = choose|k: int| 0 <= k < rest.len() && rest[k] == watch;
        assert((rest + last)[k] == watch);
    } else {
        let k = choose|k: int| 0 <= k < last.len() && last[k] == watch;
        assert((rest + last)[rest.len() + k] == watch);
    }
}

proof fn lemma_part_is_contained<A>(a: Seq<A>, b: Seq<A>, c: Seq<A>, x: A)
    requires
        b.contains(x),
    ensures
        (a + b + c).contains(x),
{
    let k = choose|k: int| 0 <= k < b.len() && b[k] == x;
    assert((a + b + c)[a.len() + k] == x);
}

/// The multisig and the contract of every swap coin are watched.
pub proof fn law_swap_coins_are_watched(store: StoreView, i: int, is_incoming: bool)
    requires
        is_incoming ==> 0 <= i < store.incoming_swapcoins.len(),
        !is_incoming ==> 0 <= i < store.outgoing_swapcoins.len(),
    ensures
        ({
            let coin = if is_incoming {
                store.incoming_swapcoins[i].1
            } else {
                store.outgoing_swapcoins[i].1
            };
            &&& coin.multisig() matches Some(script) ==> watched_scripts(store).contains(
                (WatchKeyView::Swap(coin.contract_txid()), p2wsh_script(script)),
            )
            &&& coin.contract_redeemscript matches Some(script) ==> watched_scripts(store).contains(
                (WatchKeyView::Contract(coin.contract_txid()), p2wsh_script(script)),
            )
        }),
{
    let rows = if is_incoming {
        store.incoming_swapcoins
    } else {
        store.outgoing_swapcoins
    };
    let coin = rows[i].1;
    let watches = coin_watches(coin);
    let (a, b, c, d) = (
        swap_watches(store.incoming_swapcoins),
        swap_watches(store.outgoing_swapcoins),
        bond_watches(store.fidelity_bond),
        sweep_watches(store.swept_incoming_swapcoins),
    );
    assert forall|k: int| 0 <= k < watches.len() implies watched_scripts(store).contains(
        #[trigger] watches[k],
    ) by {
        assert(watches.contains(watches[k]));
        lemma_swap_watches(rows, i, watches[k]);
        if is_incoming {
            lemma_part_is_contained(Seq::empty(), a, b + c + d, watches[k]);
            assert(Seq::<(WatchKeyView, Seq<u8>)>::empty() + a + (b + c + d) =~= watched_scripts(
                store,
            ));
        } else {
            lemma_part_is_contained(a, b, c + d, watches[k]);
            assert(a + b + (c + d) =~= watched_scripts(store));
        }
    }
    if let Some(script) = coin.multisig() {
        assert(watches[0] == (
            WatchKeyView::Swap(coin.contract_txid()),
            p2wsh_script(script),
        ));
    }
    if let Some(script) = coin.contract_redeemscript {
        assert(watches.last() == (
            WatchKeyView::Contract(coin.contract_txid()),
            p2wsh_script(script),
        ));
    }
}

/// What is watched, and for what: the multisig of a legacy coin whose keys are known and the contract
/// of any coin, both as pay-to-script outputs under the id of the contract transaction, the script of
/// every bond under its index, and every script that a coin was swept to.
pub open spec fn belongs_to(store: StoreView, key: WatchKeyView, script: Seq<u8>) -> bool {
    match key {
        WatchKeyView::Swap(txid) => {
            ||| exists|i: int|
                0 <= i < store.incoming_swapcoins.len() && #[trigger] is_multisig_of(
                    store.incoming_swapcoins[i].1,
                    txid,
                    script,
                )
            ||| exists|i: int|
                0 <= i < store.outgoing_swapcoins.len() && #[trigger] is_multisig_of(
                    store.outgoing_swapcoins[i].1,
                    txid,
                    script,
                )
        },
        WatchKeyView::Contract(txid) => {
            ||| exists|i: int|
                0 <= i < store.incoming_swapcoins.len() && #[trigger] is_contract_of(
                    store.incoming_swapcoins[i].1,
                    txid,
                    script,
                )
            ||| exists|i: int|
                0 <= i < store.outgoing_swapcoins.len() && #[trigger] is_contract_of(
                    store.outgoing_swapcoins[i].1,
                    txid,
                    script,
                )
        },
        WatchKeyView::Fidelity(index) => exists|i: int|
            0 <= i < store.fidelity_bond.len() && (#[trigger] store.fidelity_bond[i]).0 == index
                && store.fidelity_bond[i].1.script_pub_key == script,
        WatchKeyView::Sweep(swept) => swept == script && store.swept_incoming_swapcoins.contains(
            script,
        ),
    }
}

/// The output script of the multisig of a coin.
pub open spec fn is_multisig_of(coin: SwapCoinView, txid: Txid, script: Seq<u8>) -> bool {
    &&& txid == transaction_id(without_witnesses(coin.contract_tx))
    &&& coin.protocol == ProtocolVersion::Legacy
    &&& coin.my_pubkey matches Some(mine) && (coin.other_pubkey matches Some(other) && script
        == p2wsh_script(multisig_script(mine@, other@)))
}

/// The output script of the contract of a coin.
pub open spec fn is_contract_of(coin: SwapCoinView, txid: Txid, script: Seq<u8>) -> bool {
    &&& txid == transaction_id(without_witnesses(coin.contract_tx))
    &&& coin.contract_redeemscript matches Some(contract) && script == p2wsh_script(contract)
}

proof fn lemma_swap_watch_origin(
    rows: Rows<Seq<char>, SwapCoinView>,
    watch: (WatchKeyView, Seq<u8>),
) -> (i: int)
    requires
        swap_watches(rows).contains(watch),
    ensures
        0 <= i < rows.len(),
        coin_watches(rows[i].1).contains(watch),
    decreases rows.len(),
{
    let (rest, last) = (swap_watches(rows.drop_last()), coin_watches(rows.last().1));
    let k = choose|k: int| 0 <= k < swap_watches(rows).len() && swap_watches(rows)[k] == watch;
    if k < rest.len() {
        assert(rest[k] == watch);
        let i = lemma_swap_watch_origin(rows.drop_last(), watch);
        assert(rows.drop_last()[i] == rows[i]);
        i
    } else {
        assert(last[k - rest.len()] == watch);
        rows.len() - 1
    }
}

proof fn lemma_coin_watch(coin: SwapCoinView, txid: Txid, script: Seq<u8>)
    ensures
        coin_watches(coin).contains((WatchKeyView::Swap(txid), script)) <==> is_multisig_of(
            coin,
            txid,
            script,
        ),
        coin_watches(coin).contains((WatchKeyView::Contract(txid), script)) <==> is_contract_of(
            coin,
            txid,
            script,
        ),
{
    let watches = coin_watches(coin);
    if is_multisig_of(coin, txid, script) {
        assert(watches[0] == (WatchKeyView::Swap(txid), script));
    }
    if is_contract_of(coin, txid, script) {
        assert(watches[watches.len() - 1] == (WatchKeyView::Contract(txid), script));
    }
}

/// Everything that belongs to the wallet in this way is watched, and nothing else is.
pub proof fn law_what_is_watched(
    wallet: Wallet,
    r: Vec<(WatchKey, Script)>,
    key: WatchKeyView,
    script: Seq<u8>,
)
    requires
        call_ensures(Wallet::watched_scripts, (&wallet,), r),
    ensures
        watches_view(r@).contains((key, script)) <==> belongs_to(wallet@, key, script),
{
    let store = wallet@;
    let watch = (key, script);
    let (ins, outs) = (store.incoming_swapcoins, store.outgoing_swapcoins);
    let (a, b, c, d) = (
        swap_watches(ins),
        swap_watches(outs),
        bond_watches(store.fidelity_bond),
        sweep_watches(store.swept_incoming_swapcoins),
    );
    let all = watched_scripts(store);
    if all.contains(watch) {
        let k = choose|k: int| 0 <= k < all.len() && all[k] == watch;
        if k < a.len() {
            assert(a[k] == watch);
            let i = lemma_swap_watch_origin(ins, watch);
            lemma_watch_kind(ins[i].1, key, script);
        } else if k < a.len() + b.len() {
            assert(b[k - a.len()] == watch);
            let i = lemma_swap_watch_origin(outs, watch);
            lemma_watch_kind(outs[i].1, key, script);
        } else if k < a.len() + b.len() + c.len() {
            let i = k - a.len() - b.len();
            assert(c[i] == watch);
            assert(store.fidelity_bond[i].1.script_pub_key == script);
        } else {
            let i = k - a.len() - b.len() - c.len();
            assert(d[i] == watch);
            assert(store.swept_incoming_swapcoins[i] == script);
        }
    }
    if belongs_to(store, key, script) {
        match key {
            WatchKeyView::Swap(txid) => {
                if exists|i: int|
                    0 <= i < ins.len() && #[trigger] is_multisig_of(ins[i].1, txid, script) {
                    let i = choose|i: int|
                        0 <= i < ins.len() && #[trigger] is_multisig_of(ins[i].1, txid, script);
                    lemma_coin_watch(ins[i].1, txid, script);
                    lemma_swap_watches(ins, i, watch);
                    lemma_part_is_contained(Seq::empty(), a, b + c + d, watch);
                } else {
                    let i = choose|i: int|
                        0 <= i < outs.len() && #[trigger] is_multisig_of(outs[i].1, txid, script);
                    lemma_coin_watch(outs[i].1, txid, script);
                    lemma_swap_watches(outs, i, watch);
                    lemma_part_is_contained(a, b, c + d, watch);
                }
            },
            WatchKeyView::Contract(txid) => {
                if exists|i: int|
                    0 <= i < ins.len() && #[trigger] is_contract_of(ins[i].1, txid, script) {
                    let i = choose|i: int|
                        0 <= i < ins.len() && #[trigger] is_contract_of(ins[i].1, txid, script);
                    lemma_coin_watch(ins[i].1, txid, script);
                    lemma_swap_watches(ins, i, watch);
                    lemma_part_is_contained(Seq::empty(), a, b + c + d, watch);
                } else {
                    let i = choose|i: int|
                        0 <= i < outs.len() && #[trigger] is_contract_of(outs[i].1, txid, script);
                    lemma_coin_watch(outs[i].1, txid, script);
                    lemma_swap_watches(outs, i, watch);
                    lemma_part_is_contained(a, b, c + d, watch);
                }
            },
            WatchKeyView::Fidelity(index) => {
                let i = choose|i: int|
                    0 <= i < store.fidelity_bond.len() && (#[trigger] store.fidelity_bond[i]).0
                        == index && store.fidelity_bond[i].1.script_pub_key == script;
                assert(c[i] == watch);
                lemma_part_is_contained(a + b, c, d, watch);
            },
            WatchKeyView::Sweep(_) => {
                let swept = store.swept_incoming_swapcoins;
                let i = choose|i: int| 0 <= i < swept.len() && swept[i] == script;
                assert(d[i] == watch);
                lemma_part_is_contained(a + b + c, d, Seq::empty(), watch);
            },
        }
        let none = Seq::<(WatchKeyView, Seq<u8>)>::empty();
        assert(none + a + (b + c + d) =~= all);
        assert(a + b + (c + d) =~= all);
        assert(a + b + c + d + none =~= all);
    }
}

proof fn lemma_watch_kind(coin: SwapCoinView, key: WatchKeyView, script: Seq<u8>)
    requires
        coin_watches(coin).contains((key, script)),
    ensures
        match key {
            WatchKeyView::Swap(txid) => is_multisig_of(coin, txid, script),
            WatchKeyView::Contract(txid) => is_contract_of(coin, txid, script),
            _ => false,
        },
{
    match key {
        WatchKeyView::Swap(txid) => {
            lemma_coin_watch(coin, txid, script);
        },
        WatchKeyView::Contract(txid) => {
            lemma_coin_watch(coin, txid, script);
        },
        _ => {},
    }
}

} // verus!
