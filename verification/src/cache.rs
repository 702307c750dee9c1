//! Keeping the cached coins of a wallet up to date.

use crate::coins::spend_info;
use crate::error::WalletError;
use crate::store::StoreView;
use crate::table::{has_key, keys_distinct, law_put_then_get, row_of, value_of, with_row, Rows};
use crate::types::OutPoint;
use crate::utxo::{clone_coin, Coin, CoinView, Utxo, UtxoView};
use crate::wallet::Wallet;
use vstd::prelude::*;

verus! {

/// The views of a list of outputs.
pub open spec fn utxos_view(utxos: Seq<Utxo>) -> Seq<UtxoView> {
    utxos.map_values(|u: Utxo| u@)
}

/// Some output of the list has this outpoint.
pub open spec fn is_listed(utxos: Seq<UtxoView>, outpoint: OutPoint) -> bool {
    exists|i: int| 0 <= i < utxos.len() && (#[trigger] utxos[i]).outpoint() == outpoint
}

/// The cached coins that are still listed.
pub open spec fn still_listed(cache: Rows<OutPoint, CoinView>, utxos: Seq<UtxoView>) -> Rows<
    OutPoint,
    CoinView,
>
    decreases cache.len(),
{
    if cache.len() == 0 {
        Seq::empty()
    } else {
        let rest = still_listed(cache.drop_last(), utxos);
        if is_listed(utxos, cache.last().0) {
            rest.push(cache.last())
        } else {
            rest
        }
    }
}

/// The listed outputs that are not cached yet and that the wallet can spend.
pub open spec fn new_entries(
    store: StoreView,
    kept: Rows<OutPoint, CoinView>,
    utxos: Seq<UtxoView>,
) -> Rows<OutPoint, CoinView>
    decreases utxos.len(),
{
    if utxos.len() == 0 {
        Seq::empty()
    } else {
        let rest = new_entries(store, kept, utxos.drop_last());
        let utxo = utxos.last();
        match spend_info(store, utxo) {
            Ok(Some(info)) => if has_key(kept, utxo.outpoint()) {
                rest
            } else {
                rest.push((utxo.outpoint(), (utxo, info)))
            },
            _ => rest,
        }
    }
}

/// Rows with further rows put in, one after the other.
pub open spec fn with_rows(
    cache: Rows<OutPoint, CoinView>,
    entries: Rows<OutPoint, CoinView>,
) -> Rows<OutPoint, CoinView>
    decreases entries.len(),
{
    if entries.len() == 0 {
        cache
    } else {
        with_row(with_rows(cache, entries.drop_last()), entries.last().0, entries.last().1)
    }
}

/// The cache after an update: coins that are no longer listed are gone, the others stay as they
/// are, and new ones that the wallet can spend come in.
pub open spec fn updated_cache(store: StoreView, utxos: Seq<UtxoView>) -> Rows<OutPoint, CoinView> {
    let kept = still_listed(store.utxo_cache, utxos);
    with_rows(kept, new_entries(store, kept, utxos))
}

/// The spend info of every output that is not cached yet can be derived.
pub open spec fn can_update(store: StoreView, utxos: Seq<UtxoView>) -> bool {
    forall|i: int|
        0 <= i < utxos.len() && !has_key(store.utxo_cache, utxos[i].outpoint()) ==> spend_info(
            store,
            #[trigger] utxos[i],
        ) is Ok
}

/// Each row stands under the outpoint of its coin.
pub open spec fn keyed_by_outpoint(rows: Rows<OutPoint, CoinView>) -> bool {
    forall|i: int| 0 <= i < rows.len() ==> (#[trigger] rows[i]).1.0.outpoint() == rows[i].0
}

fn lists_outpoint(utxos: &Vec<Utxo>, outpoint: &OutPoint) -> (r: bool)
    ensures
        r == is_listed(utxos_view(utxos@), *outpoint),
{
    let mut i: usize = 0;
    while i < utxos.len()
        invariant
            i <= utxos.len(),
            forall|k: int|
                0 <= k < i ==> (#[trigger] utxos_view(utxos@)[k]).outpoint() != *outpoint,
        decreases utxos.len() - i,
    {
        if utxos[i].outpoint() == *outpoint {
            assert(utxos_view(utxos@)[i as int].outpoint() == *outpoint);
            return true;
        }
        assert(utxos_view(utxos@)[i as int].outpoint() != *outpoint);
        i += 1;
    }
    false
}

proof fn lemma_still_listed_has(
    cache: Rows<OutPoint, CoinView>,
    utxos: Seq<UtxoView>,
    row: (OutPoint, CoinView),
)
    ensures
        still_listed(cache, utxos).contains(row) <==> cache.contains(row) && is_listed(
            utxos,
            row.0,
        ),
    decreases cache.len(),
{
    let kept = still_listed(cache, utxos);
    if cache.len() > 0 {
        let (less, last) = (cache.drop_last(), cache.last());
        let rest = still_listed(less, utxos);
        lemma_still_listed_has(less, utxos, row);
        assert(cache =~= less.push(last));
        assert(cache.contains(row) <==> less.contains(row) || row == last) by {
            if less.contains(row) {
                let i = choose|i: int| 0 <= i < less.len() && less[i] == row;
                assert(cache[i] == row);
            }
            if row == last {
                assert(cache[cache.len() - 1] == row);
            }
        }
        if is_listed(utxos, last.0) {
            assert(kept.contains(row) <==> rest.contains(row) || row == last) by {
                if rest.contains(row) {
                    let i = choose|i: int| 0 <= i < rest.len() && rest[i] == row;
                    assert(kept[i] == row);
                }
                if row == last {
                    assert(kept[rest.len() as int] == row);
                }
            }
        }
    }
}

proof fn lemma_has_key_contains(rows: Rows<OutPoint, CoinView>, key: OutPoint)
    ensures
        has_key(rows, key) ==> rows.contains((key, value_of(rows, key))),
        keys_distinct(rows) ==> forall|value: CoinView|
            #[trigger] rows.contains((key, value)) ==> has_key(rows, key) && value_of(rows, key)
                == value,
{
    if has_key(rows, key) {
        let i = row_of(rows, key);
        assert(rows[i].0 == key);
        assert(rows[i] == (key, value_of(rows, key)));
    }
    if keys_distinct(rows) {
        assert forall|value: CoinView| #[trigger] rows.contains((key, value)) implies has_key(
            rows,
            key,
        ) && value_of(rows, key) == value by {
            let i = choose|i: int| 0 <= i < rows.len() && rows[i] == (key, value);
            assert(rows[i].0 == key);
            let j = row_of(rows, key);
            assert(rows[j].0 == key);
            assert(i == j);
        }
    }
}

proof fn lemma_still_listed_rows(cache: Rows<OutPoint, CoinView>, utxos: Seq<UtxoView>)
    requires
        keys_distinct(cache),
        keyed_by_outpoint(cache),
    ensures
        keys_distinct(still_listed(cache, utxos)),
        keyed_by_outpoint(still_listed(cache, utxos)),
    decreases cache.len(),
{
    if cache.len() > 0 {
        let (less, last) = (cache.drop_last(), cache.last());
        let rest = still_listed(less, utxos);
        assert forall|i: int| 0 <= i < less.len() implies #[trigger] less[i] == cache[i] by {}
        lemma_still_listed_rows(less, utxos);
        let kept = still_listed(cache, utxos);
        if is_listed(utxos, last.0) {
            assert forall|i: int| 0 <= i < rest.len() implies (#[trigger] rest[i]).0 != last.0 by {
                lemma_still_listed_has(less, utxos, rest[i]);
                assert(rest.contains(rest[i]));
                let j = choose|j: int| 0 <= j < less.len() && less[j] == rest[i];
                assert(cache[j] == rest[i]);
            }
            assert forall|i: int, j: int|
                0 <= i < kept.len() && 0 <= j < kept.len() && i != j implies (#[trigger] kept[i]).0
                != (#[trigger] kept[j]).0 by {
                if i < rest.len() {
                    assert(kept[i] == rest[i]);
                }
                if j < rest.len() {
                    assert(kept[j] == rest[j]);
                }
            }
            assert forall|i: int| 0 <= i < kept.len() implies (#[trigger] kept[i]).1.0.outpoint()
                == kept[i].0 by {
                if i < rest.len() {
                    assert(kept[i] == rest[i]);
                } else {
                    assert(kept[i] == cache[cache.len() - 1]);
                }
            }
        }
    }
}

proof fn lemma_with_row_keyed(rows: Rows<OutPoint, CoinView>, coin: CoinView)
    requires
        keys_distinct(rows),
        keyed_by_outpoint(rows),
    ensures
        keys_distinct(with_row(rows, coin.0.outpoint(), coin)),
        keyed_by_outpoint(with_row(rows, coin.0.outpoint(), coin)),
{
    let key = coin.0.outpoint();
    law_put_then_get(rows, key, coin, key);
    let after = with_row(rows, key, coin);
    assert forall|i: int| 0 <= i < after.len() implies (#[trigger] after[i]).1.0.outpoint()
        == after[i].0 by {
        if has_key(rows, key) {
            if i != row_of(rows, key) {
                assert(after[i] == rows[i]);
            }
        } else if i < rows.len() {
            assert(after[i] == rows[i]);
        }
    }
}

impl Wallet {
    /// Brings the cache up to date with the outputs that the node lists: takes out coins that are
    /// gone, keeps those that are known, adds those that are new.
    pub fn update_utxo_cache(&mut self, utxos: Vec<Utxo>)
        requires
            old(self)@.well_formed(),
            can_update(old(self)@, utxos_view(utxos@)),
        ensures
            final(self)@.well_formed(),
            final(self)@ == (StoreView {
                utxo_cache: updated_cache(old(self)@, utxos_view(utxos@)),
                ..old(self)@
            }),
    {
        let ghost store = self@;
        let ghost views = utxos_view(utxos@);
        let ghost kept = still_listed(store.utxo_cache, views);
        self.drop_unlisted(&utxos);
        proof {
            lemma_still_listed_rows(store.utxo_cache, views);
        }
        let mut entries: Vec<(OutPoint, Coin)> = Vec::new();
        let mut i: usize = 0;
        assert(views.take(0) =~= Seq::<UtxoView>::empty());
        assert(entries_view(entries@) =~= Seq::empty());
        while i < utxos.len()
            invariant
                i <= utxos.len(),
                store.well_formed(),
                views == utxos_view(utxos@),
                can_update(store, views),
                kept == still_listed(store.utxo_cache, views),
                self@ == (StoreView { utxo_cache: kept, ..store }),
                self@.well_formed(),
                entries_view(entries@) == new_entries(store, kept, views.take(i as int)),
                keyed_by_outpoint(entries_view(entries@)),
            decreases utxos.len() - i,
        {
            let ghost before = entries_view(entries@);
            let utxo = &utxos[i];
            let outpoint = utxo.outpoint();
            proof {
                assert(views.take(i + 1).drop_last() =~= views.take(i as int));
                assert(views.take(i + 1).last() == utxo@);
                assert(views[i as int] == utxo@);
                lemma_info_ignores_cache(store, self@, utxo@);
                assert(is_listed(views, outpoint));
                if !has_key(kept, outpoint) && has_key(store.utxo_cache, outpoint) {
                    lemma_has_key_contains(store.utxo_cache, outpoint);
                    lemma_still_listed_has(
                        store.utxo_cache,
                        views,
                        (outpoint, value_of(store.utxo_cache, outpoint)),
                    );
                    lemma_has_key_contains(kept, outpoint);
                }
            }
            if !self.store.utxo_cache.contains_key(&outpoint) {
                match self.derive_spend_info(utxo) {
                    Ok(Some(info)) => {
                        entries.push((outpoint, (utxo.clone(), info)));
                        assert(entries_view(entries@) =~= before.push(
                            (outpoint, (utxo@, info@)),
                        ));
                    },
                    _ => {},
                }
            }
            i += 1;
        }
        assert(views.take(views.len() as int) =~= views);
        self.put_entries(entries);
    }

    /// Takes out the coins that are no longer listed.
    fn drop_unlisted(&mut self, utxos: &Vec<Utxo>)
        requires
            old(self)@.well_formed(),
        ensures
            final(self)@.well_formed(),
            final(self)@ == (StoreView {
                utxo_cache: still_listed(old(self)@.utxo_cache, utxos_view(utxos@)),
                ..old(self)@
            }),
    {
        let ghost store = self@;
        let ghost views = utxos_view(utxos@);
        let mut kept: Vec<(OutPoint, Coin)> = Vec::new();
        let mut i: usize = 0;
        assert(store.utxo_cache.take(0) =~= Seq::empty());
        assert(entries_view(kept@) =~= Seq::empty());
        while i < self.store.utxo_cache.rows.len()
            invariant
                i <= self.store.utxo_cache.rows.len(),
                self@ == store,
                views == utxos_view(utxos@),
                entries_view(kept@) == still_listed(store.utxo_cache.take(i as int), views),
            decreases self.store.utxo_cache.rows.len() - i,
        {
            let ghost before = entries_view(kept@);
            let row = &self.store.utxo_cache.rows[i];
            proof {
                assert(store.utxo_cache.take(i + 1).drop_last() =~= store.utxo_cache.take(
                    i as int,
                ));
                assert(store.utxo_cache[i as int] == (row.0, (row.1.0@, row.1.1@)));
            }
            if lists_outpoint(utxos, &row.0) {
                kept.push((row.0, clone_coin(&row.1)));
                assert(entries_view(kept@) =~= before.push(store.utxo_cache[i as int]));
            }
            i += 1;
        }
        assert(store.utxo_cache.take(store.utxo_cache.len() as int) =~= store.utxo_cache);
        proof {
            lemma_still_listed_rows(store.utxo_cache, views);
        }
        self.store.utxo_cache.rows = kept;
        assert(self@.utxo_cache =~= entries_view(kept@));
    }

    /// Puts coins into the cache.
    fn put_entries(&mut self, entries: Vec<(OutPoint, Coin)>)
        requires
            old(self)@.well_formed(),
            keyed_by_outpoint(entries_view(entries@)),
        ensures
            final(self)@.well_formed(),
            final(self)@ == (StoreView {
                utxo_cache: with_rows(old(self)@.utxo_cache, entries_view(entries@)),
                ..old(self)@
            }),
    {
        let ghost store = self@;
        let ghost views = entries_view(entries@);
        let mut i: usize = 0;
        assert(views.take(0) =~= Seq::empty());
        while i < entries.len()
            invariant
                i <= entries.len(),
                views == entries_view(entries@),
                keyed_by_outpoint(views),
                self@.well_formed(),
                self@ == (StoreView {
                    utxo_cache: with_rows(store.utxo_cache, views.take(i as int)),
                    ..store
                }),
            decreases entries.len() - i,
        {
            let entry = &entries[i];
            let ghost before = self@.utxo_cache;
            let ghost coin = (entry.1.0@, entry.1.1@);
            proof {
                assert(views.take(i + 1).drop_last() =~= views.take(i as int));
                assert(views[i as int] == (entry.0, coin));
                lemma_with_row_keyed(before, coin);
            }
            let _ = self.store.utxo_cache.insert(entry.0, clone_coin(&entry.1));
            i += 1;
        }
        assert(views.take(views.len() as int) =~= views);
    }

    /// Brings the cache up to date where the spend info of every new output can be derived, and
    /// leaves it as it is where not.
    pub fn refresh_utxo_cache(&mut self, utxos: Vec<Utxo>) -> (r: Result<(), WalletError>)
        requires
            old(self)@.well_formed(),
        ensures
            final(self)@.well_formed(),
            match r {
                Ok(()) => can_update(old(self)@, utxos_view(utxos@)) && final(self)@ == (
                StoreView {
                    utxo_cache: updated_cache(old(self)@, utxos_view(utxos@)),
                    ..old(self)@
                }),
                Err(e) => !can_update(old(self)@, utxos_view(utxos@)) && final(self)@ == old(
                    self,
                )@ && e is Key,
            },
    {
        let ghost views = utxos_view(utxos@);
        let mut i: usize = 0;
        while i < utxos.len()
            invariant
                i <= utxos.len(),
                self@ == old(self)@,
                self@.well_formed(),
                views == utxos_view(utxos@),
                forall|k: int|
                    0 <= k < i && !has_key(self@.utxo_cache, views[k].outpoint()) ==> spend_info(
                        self@,
                        #[trigger] views[k],
                    ) is Ok,
            decreases utxos.len() - i,
        {
            let outpoint = utxos[i].outpoint();
            assert(views[i as int] == utxos@[i as int]@);
            if !self.store.utxo_cache.contains_key(&outpoint) {
                match self.derive_spend_info(&utxos[i]) {
                    Ok(_) => {},
                    Err(e) => {
                        assert(spend_info(self@, views[i as int]) is Err);
                        return Err(e);
                    },
                }
            }
            i += 1;
        }
        self.update_utxo_cache(utxos);
        Ok(())
    }
}

/// The views of a list of rows.
pub open spec fn entries_view(entries: Seq<(OutPoint, Coin)>) -> Rows<OutPoint, CoinView> {
    entries.map_values(|row: (OutPoint, Coin)| (row.0, (row.1.0@, row.1.1@)))
}

/// What it takes to spend an output does not depend on the cache.
proof fn lemma_info_ignores_cache(a: StoreView, b: StoreView, utxo: UtxoView)
    requires
        b == (StoreView { utxo_cache: b.utxo_cache, ..a }),
    ensures
        spend_info(a, utxo) == spend_info(b, utxo),
{
}

// ---------------------------------------------------------------------------------------------
// Laws of the update
// ---------------------------------------------------------------------------------------------

proof fn lemma_with_rows(
    cache: Rows<OutPoint, CoinView>,
    entries: Rows<OutPoint, CoinView>,
    key: OutPoint,
)
    requires
        keys_distinct(cache),
    ensures
        keys_distinct(with_rows(cache, entries)),
        has_key(with_rows(cache, entries), key) <==> has_key(cache, key) || has_key(entries, key),
        !has_key(entries, key) && has_key(cache, key) ==> value_of(with_rows(cache, entries), key)
            == value_of(cache, key),
    decreases entries.len(),
{
    if entries.len() > 0 {
        let (less, last) = (entries.drop_last(), entries.last());
        let before = with_rows(cache, less);
        lemma_with_rows(cache, less, key);
        law_put_then_get(before, last.0, last.1, key);
        assert(has_key(entries, key) <==> has_key(less, key) || last.0 == key) by {
            if has_key(less, key) {
                let i = row_of(less, key);
                assert(less[i].0 == key);
                assert(entries[i].0 == key);
            }
            if last.0 == key {
                assert(entries[entries.len() - 1].0 == key);
            }
            if has_key(entries, key) {
                let i = row_of(entries, key);
                assert(entries[i].0 == key);
                if i < less.len() {
                    assert(less[i].0 == key);
                }
            }
        }
    }
}

proof fn lemma_new_entries(
    store: StoreView,
    kept: Rows<OutPoint, CoinView>,
    utxos: Seq<UtxoView>,
    key: OutPoint,
)
    ensures
        has_key(new_entries(store, kept, utxos), key) <==> !has_key(kept, key) && exists|i: int|
            0 <= i < utxos.len() && (#[trigger] utxos[i]).outpoint() == key && can_spend(
                store,
                utxos[i],
            ),
    decreases utxos.len(),
{
    let entries = new_entries(store, kept, utxos);
    if utxos.len() > 0 {
        let (less, last) = (utxos.drop_last(), utxos.last());
        let rest = new_entries(store, kept, less);
        lemma_new_entries(store, kept, less, key);
        let comes_in = can_spend(store, last) && !has_key(kept, last.outpoint());
        if comes_in {
            assert(has_key(entries, key) <==> has_key(rest, key) || last.outpoint() == key) by {
                if has_key(rest, key) {
                    let i = row_of(rest, key);
                    assert(rest[i].0 == key);
                    assert(entries[i].0 == key);
                }
                if last.outpoint() == key {
                    assert(entries[rest.len() as int].0 == key);
                }
                if has_key(entries, key) {
                    let i = row_of(entries, key);
                    assert(entries[i].0 == key);
                    if i < rest.len() {
                        assert(rest[i].0 == key);
                    }
                }
            }
        }
        if exists|i: int|
            0 <= i < utxos.len() && (#[trigger] utxos[i]).outpoint() == key && can_spend(
                store,
                utxos[i],
            ) {
            let i = choose|i: int|
                0 <= i < utxos.len() && (#[trigger] utxos[i]).outpoint() == key && can_spend(
                    store,
                    utxos[i],
                );
            if i < less.len() {
                assert(less[i] == utxos[i]);
            }
        }
        if exists|i: int|
            0 <= i < less.len() && (#[trigger] less[i]).outpoint() == key && can_spend(
                store,
                less[i],
            ) {
            let i = choose|i: int|
                0 <= i < less.len() && (#[trigger] less[i]).outpoint() == key && can_spend(
                    store,
                    less[i],
                );
            assert(utxos[i] == less[i]);
        }
        assert(utxos[utxos.len() - 1] == last);
    }
}

/// The wallet can spend an output.
pub open spec fn can_spend(store: StoreView, utxo: UtxoView) -> bool {
    spend_info(store, utxo) matches Ok(Some(_))
}

/// The cache holds no coin that the node does not list.
pub proof fn law_cache_holds_only_listed_coins(store: StoreView, utxos: Seq<UtxoView>, key: OutPoint)
    requires
        store.well_formed(),
    ensures
        has_key(updated_cache(store, utxos), key) ==> is_listed(utxos, key),
{
    let kept = still_listed(store.utxo_cache, utxos);
    lemma_still_listed_rows(store.utxo_cache, utxos);
    lemma_with_rows(kept, new_entries(store, kept, utxos), key);
    lemma_new_entries(store, kept, utxos, key);
    if has_key(kept, key) {
        lemma_has_key_contains(kept, key);
        lemma_still_listed_has(store.utxo_cache, utxos, (key, value_of(kept, key)));
    }
}

/// A cached coin that is still listed stays in the cache as it is.
pub proof fn law_cached_coin_stays(store: StoreView, utxos: Seq<UtxoView>, key: OutPoint)
    requires
        store.well_formed(),
        has_key(store.utxo_cache, key),
        is_listed(utxos, key),
    ensures
        has_key(updated_cache(store, utxos), key),
        value_of(updated_cache(store, utxos), key) == value_of(store.utxo_cache, key),
{
    let kept = still_listed(store.utxo_cache, utxos);
    let value = value_of(store.utxo_cache, key);
    lemma_still_listed_rows(store.utxo_cache, utxos);
    lemma_has_key_contains(store.utxo_cache, key);
    lemma_still_listed_has(store.utxo_cache, utxos, (key, value));
    lemma_has_key_contains(kept, key);
    lemma_with_rows(kept, new_entries(store, kept, utxos), key);
    lemma_new_entries(store, kept, utxos, key);
}

/// A listed output that the wallet can spend is in the cache after an update.
pub proof fn law_spendable_output_is_cached(store: StoreView, utxos: Seq<UtxoView>, i: int)
    requires
        store.well_formed(),
        0 <= i < utxos.len(),
        can_spend(store, utxos[i]),
    ensures
        has_key(updated_cache(store, utxos), utxos[i].outpoint()),
{
    let kept = still_listed(store.utxo_cache, utxos);
    let key = utxos[i].outpoint();
    lemma_still_listed_rows(store.utxo_cache, utxos);
    lemma_with_rows(kept, new_entries(store, kept, utxos), key);
    lemma_new_entries(store, kept, utxos, key);
}

proof fn lemma_all_listed_stay(cache: Rows<OutPoint, CoinView>, utxos: Seq<UtxoView>)
    requires
        forall|i: int| 0 <= i < cache.len() ==> is_listed(utxos, (#[trigger] cache[i]).0),
    ensures
        still_listed(cache, utxos) == cache,
    decreases cache.len(),
{
    if cache.len() > 0 {
        let less = cache.drop_last();
        assert forall|i: int| 0 <= i < less.len() implies is_listed(
            utxos,
            (#[trigger] less[i]).0,
        ) by {
            assert(less[i] == cache[i]);
        }
        lemma_all_listed_stay(less, utxos);
        assert(is_listed(utxos, cache[cache.len() - 1].0));
        assert(less.push(cache.last()) =~= cache);
    }
}

proof fn lemma_nothing_new(store: StoreView, kept: Rows<OutPoint, CoinView>, utxos: Seq<UtxoView>)
    requires
        forall|i: int|
            0 <= i < utxos.len() && can_spend(store, #[trigger] utxos[i]) ==> has_key(
                kept,
                utxos[i].outpoint(),
            ),
    ensures
        new_entries(store, kept, utxos) == Seq::<(OutPoint, CoinView)>::empty(),
    decreases utxos.len(),
{
    if utxos.len() > 0 {
        let less = utxos.drop_last();
        assert forall|i: int|
            0 <= i < less.len() && can_spend(store, #[trigger] less[i]) implies has_key(
            kept,
            less[i].outpoint(),
        ) by {
            assert(less[i] == utxos[i]);
        }
        lemma_nothing_new(store, kept, less);
        assert(utxos[utxos.len() - 1] == utxos.last());
    }
}

/// A second update with the same list changes nothing.
pub proof fn law_second_update_changes_nothing(store: StoreView, utxos: Seq<UtxoView>)
    requires
        store.well_formed(),
    ensures
        updated_cache(
            (StoreView { utxo_cache: updated_cache(store, utxos), ..store }),
            utxos,
        ) == updated_cache(store, utxos),
{
    let cache = updated_cache(store, utxos);
    let after = StoreView { utxo_cache: cache, ..store };
    assert forall|i: int| 0 <= i < cache.len() implies is_listed(
        utxos,
        (#[trigger] cache[i]).0,
    ) by {
        assert(has_key(cache, cache[i].0));
        law_cache_holds_only_listed_coins(store, utxos, cache[i].0);
    }
    lemma_all_listed_stay(cache, utxos);
    assert forall|i: int|
        0 <= i < utxos.len() && can_spend(after, #[trigger] utxos[i]) implies has_key(
        cache,
        utxos[i].outpoint(),
    ) by {
        lemma_info_ignores_cache(store, after, utxos[i]);
        law_spendable_output_is_cached(store, utxos, i);
    }
    lemma_nothing_new(after, cache, utxos);
}

/// An output that was not cached and is listed once is cached as it is, where the wallet can spend
/// it, and is not cached otherwise.
pub(crate) proof fn lemma_new_entry(store: StoreView, utxos: Seq<UtxoView>, i: int)
    requires
        store.well_formed(),
        0 <= i < utxos.len(),
        !has_key(store.utxo_cache, utxos[i].outpoint()),
        forall|j: int|
            0 <= j < utxos.len() && j != i ==> (#[trigger] utxos[j]).outpoint()
                != utxos[i].outpoint(),
    ensures
        spend_info(store, utxos[i]) matches Ok(Some(info)) ==> updated_cache(store, utxos).contains(
            (utxos[i].outpoint(), (utxos[i], info)),
        ),
        !can_spend(store, utxos[i]) ==> !has_key(updated_cache(store, utxos), utxos[i].outpoint()),
{
    let key = utxos[i].outpoint();
    let kept = still_listed(store.utxo_cache, utxos);
    let entries = new_entries(store, kept, utxos);
    lemma_still_listed_rows(store.utxo_cache, utxos);
    if has_key(kept, key) {
        lemma_has_key_contains(kept, key);
        lemma_still_listed_has(store.utxo_cache, utxos, (key, value_of(kept, key)));
        lemma_has_key_contains(store.utxo_cache, key);
    }
    lemma_with_rows(kept, entries, key);
    lemma_new_entries(store, kept, utxos, key);
    if can_spend(store, utxos[i]) {
        let coin = (utxos[i], spend_info(store, utxos[i])->Ok_0->0);
        lemma_only_entry(store, kept, utxos, i, utxos.len());
        assert(utxos.take(utxos.len() as int) =~= utxos);
        lemma_with_only_entry(kept, entries, key, coin);
        lemma_has_key_contains(updated_cache(store, utxos), key);
    }
}

proof fn lemma_only_entry(
    store: StoreView,
    kept: Rows<OutPoint, CoinView>,
    utxos: Seq<UtxoView>,
    i: int,
    n: nat,
)
    requires
        0 <= i < utxos.len(),
        n <= utxos.len(),
        !has_key(kept, utxos[i].outpoint()),
        can_spend(store, utxos[i]),
        forall|j: int|
            0 <= j < utxos.len() && j != i ==> (#[trigger] utxos[j]).outpoint()
                != utxos[i].outpoint(),
    ensures
        forall|k: int|
            0 <= k < new_entries(store, kept, utxos.take(n as int)).len() && (
            #[trigger] new_entries(store, kept, utxos.take(n as int))[k]).0 == utxos[i].outpoint()
                ==> new_entries(store, kept, utxos.take(n as int))[k].1 == (
                utxos[i],
                spend_info(store, utxos[i])->Ok_0->0,
            ),
    decreases n,
{
    if n > 0 {
        let (now, less) = (utxos.take(n as int), utxos.take(n - 1));
        assert(now.drop_last() =~= less);
        lemma_only_entry(store, kept, utxos, i, (n - 1) as nat);
        let (rest, all) = (new_entries(store, kept, less), new_entries(store, kept, now));
        assert(now.last() == utxos[n - 1]);
        assert forall|k: int| 0 <= k < all.len() && (
        #[trigger] all[k]).0 == utxos[i].outpoint() implies all[k].1 == (
            utxos[i],
            spend_info(store, utxos[i])->Ok_0->0,
        ) by {
            if k < rest.len() {
                assert(all[k] == rest[k]);
            } else {
                assert(all[k].0 == utxos[n - 1].outpoint());
            }
        }
    }
}

proof fn lemma_with_only_entry(
    cache: Rows<OutPoint, CoinView>,
    entries: Rows<OutPoint, CoinView>,
    key: OutPoint,
    coin: CoinView,
)
    requires
        keys_distinct(cache),
        forall|k: int|
            0 <= k < entries.len() && (#[trigger] entries[k]).0 == key ==> entries[k].1 == coin,
    ensures
        has_key(entries, key) ==> value_of(with_rows(cache, entries), key) == coin,
    decreases entries.len(),
{
    if entries.len() > 0 {
        let (less, last) = (entries.drop_last(), entries.last());
        assert forall|k: int|
            0 <= k < less.len() && (#[trigger] less[k]).0 == key implies less[k].1 == coin by {
            assert(less[k] == entries[k]);
        }
        lemma_with_only_entry(cache, less, key, coin);
        lemma_with_rows(cache, less, key);
        law_put_then_get(with_rows(cache, less), last.0, last.1, key);
        assert(entries[entries.len() - 1] == last);
        if has_key(entries, key) && last.0 != key {
            let k = row_of(entries, key);
            assert(entries[k].0 == key);
            assert(less[k].0 == key);
        }
    }
}

} // verus!
