//! A table: values under keys, in the order in which the keys were first put in.

use crate::types::{OutPoint, Script};
use vstd::prelude::*;

verus! {

/// A type whose values can be compared by what they stand for.
pub trait Same: View + Sized {
    /// Whether two values stand for the same.
    fn same(&self, other: &Self) -> (r: bool)
        ensures
            r == (self@ == other@),
    ;
}

impl View for OutPoint {
    type V = OutPoint;

    open spec fn view(&self) -> OutPoint {
        *self
    }
}

impl Same for OutPoint {
    fn same(&self, other: &Self) -> (r: bool) {
        *self == *other
    }
}

impl Same for Script {
    fn same(&self, other: &Self) -> (r: bool) {
        *self == *other
    }
}

impl Same for String {
    fn same(&self, other: &Self) -> (r: bool) {
        *self == *other
    }
}

impl Same for u32 {
    fn same(&self, other: &Self) -> (r: bool) {
        *self == *other
    }
}

/// The rows of a table.
pub type Rows<K, V> = Seq<(K, V)>;

/// Some row holds `key`.
pub open spec fn has_key<K, V>(rows: Rows<K, V>, key: K) -> bool {
    exists|i: int| 0 <= i < rows.len() && (#[trigger] rows[i]).0 == key
}

/// The row that holds `key`.
pub open spec fn row_of<K, V>(rows: Rows<K, V>, key: K) -> int {
    choose|i: int| 0 <= i < rows.len() && (#[trigger] rows[i]).0 == key
}

/// The value under `key`.
pub open spec fn value_of<K, V>(rows: Rows<K, V>, key: K) -> V {
    rows[row_of(rows, key)].1
}

/// No two rows hold the same key.
pub open spec fn keys_distinct<K, V>(rows: Rows<K, V>) -> bool {
    forall|i: int, j: int|
        0 <= i < rows.len() && 0 <= j < rows.len() && i != j ==> (#[trigger] rows[i]).0 != (
        #[trigger] rows[j]).0
}

/// `rows` with `value` under `key`: in the row of the key where there is one, else in a new last
/// row.
pub open spec fn with_row<K, V>(rows: Rows<K, V>, key: K, value: V) -> Rows<K, V> {
    if has_key(rows, key) {
        rows.update(row_of(rows, key), (key, value))
    } else {
        rows.push((key, value))
    }
}

/// `rows` without the row of `key`.
pub open spec fn without_row<K, V>(rows: Rows<K, V>, key: K) -> Rows<K, V> {
    if has_key(rows, key) {
        rows.remove(row_of(rows, key))
    } else {
        rows
    }
}

/// The same keys with the same values, in whatever order.
pub open spec fn same_contents<K, V>(a: Rows<K, V>, b: Rows<K, V>) -> bool {
    forall|key: K, value: V| a.contains((key, value)) <==> #[trigger] b.contains((key, value))
}

/// The first row whose value satisfies `pred`, the number of rows where there is none.
pub open spec fn first_where<K, V>(rows: Rows<K, V>, pred: spec_fn(V) -> bool) -> int
    decreases rows.len(),
{
    if rows.len() == 0 {
        0
    } else {
        let before = first_where(rows.drop_last(), pred);
        if before < rows.len() - 1 {
            before
        } else if pred(rows.last().1) {
            rows.len() - 1
        } else {
            rows.len() as int
        }
    }
}

pub proof fn lemma_first_where<K, V>(rows: Rows<K, V>, pred: spec_fn(V) -> bool, i: int)
    requires
        0 <= i <= rows.len(),
        forall|k: int| 0 <= k < i ==> !pred((#[trigger] rows[k]).1),
        i < rows.len() ==> pred(rows[i].1),
    ensures
        first_where(rows, pred) == i,
    decreases rows.len(),
{
    if rows.len() > 0 {
        let less = rows.drop_last();
        assert forall|k: int| 0 <= k < i && k < less.len() implies !pred(
            (#[trigger] less[k]).1,
        ) by {
            assert(less[k] == rows[k]);
        }
        if i < rows.len() {
            if i < less.len() {
                assert(less[i] == rows[i]);
            }
            lemma_first_where(less, pred, i);
        } else {
            lemma_first_where(less, pred, less.len() as int);
            assert(!pred(rows[rows.len() - 1].1));
        }
    }
}

/// Values under keys.
#[derive(Debug)]
pub struct Table<K, V> {
    pub rows: Vec<(K, V)>,
}

impl<K: View, V: View> View for Table<K, V> {
    type V = Seq<(K::V, V::V)>;

    open spec fn view(&self) -> Seq<(K::V, V::V)> {
        self.rows@.map_values(|row: (K, V)| (row.0@, row.1@))
    }
}

impl<K: Same, V: Same> Table<K, V> {
    /// Whether some row holds this key with this value.
    fn has_row(&self, row: &(K, V)) -> (r: bool)
        ensures
            r == self@.contains((row.0@, row.1@)),
    {
        let mut i: usize = 0;
        while i < self.rows.len()
            invariant
                i <= self.rows.len(),
                forall|k: int| 0 <= k < i ==> #[trigger] self@[k] != (row.0@, row.1@),
            decreases self.rows.len() - i,
        {
            if self.rows[i].0.same(&row.0) && self.rows[i].1.same(&row.1) {
                assert(self@[i as int] == (row.0@, row.1@));
                return true;
            }
            assert(self@[i as int] != (row.0@, row.1@));
            i += 1;
        }
        false
    }

    /// Whether every row of this table is in the other one.
    fn is_part_of(&self, other: &Self) -> (r: bool)
        ensures
            r == (forall|key: K::V, value: V::V|
                self@.contains((key, value)) ==> #[trigger] other@.contains((key, value))),
    {
        let mut i: usize = 0;
        while i < self.rows.len()
            invariant
                i <= self.rows.len(),
                forall|k: int| 0 <= k < i ==> other@.contains(#[trigger] self@[k]),
            decreases self.rows.len() - i,
        {
            assert(self@[i as int] == (self.rows@[i as int].0@, self.rows@[i as int].1@));
            if !other.has_row(&self.rows[i]) {
                assert(self@.contains(self@[i as int]));
                return false;
            }
            i += 1;
        }
        true
    }

    /// Whether two tables hold the same values under the same keys.
    pub fn same_rows(&self, other: &Self) -> (r: bool)
        ensures
            r == same_contents(self@, other@),
    {
        self.is_part_of(other) && other.is_part_of(self)
    }
}

impl<K: Same, V: View> Table<K, V> {
    /// No key is there twice.
    pub open spec fn well_formed(&self) -> bool {
        keys_distinct(self@)
    }

    pub fn new() -> (r: Self)
        ensures
            r@ == Seq::<(K::V, V::V)>::empty(),
            r.well_formed(),
    {
        let r = Table { rows: Vec::new() };
        assert(r@ =~= Seq::<(K::V, V::V)>::empty());
        r
    }

    pub fn len(&self) -> (r: usize)
        ensures
            r == self@.len(),
    {
        self.rows.len()
    }

    /// Whether no two rows hold the same key.
    pub fn has_distinct_keys(&self) -> (r: bool)
        ensures
            r == self.well_formed(),
    {
        let mut i: usize = 0;
        while i < self.rows.len()
            invariant
                i <= self.rows.len(),
                forall|a: int, b: int|
                    0 <= a < b < i ==> (#[trigger] self@[a]).0 != (#[trigger] self@[b]).0,
            decreases self.rows.len() - i,
        {
            let mut j: usize = 0;
            while j < i
                invariant
                    j <= i < self.rows.len(),
                    forall|a: int| 0 <= a < j ==> (#[trigger] self@[a]).0 != self@[i as int].0,
                decreases i - j,
            {
                if self.rows[j].0.same(&self.rows[i].0) {
                    assert(self@[j as int].0 == self@[i as int].0);
                    return false;
                }
                assert(self@[j as int].0 != self@[i as int].0);
                j += 1;
            }
            i += 1;
        }
        true
    }

    /// The row that holds a key.
    pub fn position(&self, key: &K) -> (r: Option<usize>)
        requires
            self.well_formed(),
        ensures
            match r {
                Some(i) => i < self@.len() && has_key(self@, key@) && i == row_of(self@, key@)
                    && self@[i as int].0 == key@,
                None => !has_key(self@, key@),
            },
    {
        let mut i: usize = 0;
        while i < self.rows.len()
            invariant
                self.well_formed(),
                i <= self.rows.len(),
                forall|k: int| 0 <= k < i ==> (#[trigger] self@[k]).0 != key@,
            decreases self.rows.len() - i,
        {
            if self.rows[i].0.same(key) {
                assert(self@[i as int].0 == key@);
                assert(has_key(self@, key@));
                let ghost j = row_of(self@, key@);
                assert(self@[j].0 == key@);
                assert(i == j);
                return Some(i);
            }
            assert(self@[i as int].0 != key@);
            i += 1;
        }
        None
    }

    pub fn contains_key(&self, key: &K) -> (r: bool)
        requires
            self.well_formed(),
        ensures
            r == has_key(self@, key@),
    {
        self.position(key).is_some()
    }

    pub fn get(&self, key: &K) -> (r: Option<&V>)
        requires
            self.well_formed(),
        ensures
            match r {
                Some(v) => has_key(self@, key@) && v@ == value_of(self@, key@),
                None => !has_key(self@, key@),
            },
    {
        match self.position(key) {
            Some(i) => Some(&self.rows[i].1),
            None => None,
        }
    }

    /// Puts a value under a key and hands back what was there.
    pub fn insert(&mut self, key: K, value: V) -> (r: Option<V>)
        requires
            old(self).well_formed(),
        ensures
            final(self).well_formed(),
            final(self)@ == with_row(old(self)@, key@, value@),
            match r {
                Some(v) => has_key(old(self)@, key@) && v@ == value_of(old(self)@, key@),
                None => !has_key(old(self)@, key@),
            },
    {
        let ghost before = self@;
        match self.position(&key) {
            Some(i) => {
                let mut row = (key, value);
                std::mem::swap(&mut self.rows[i], &mut row);
                proof {
                    assert(self@ =~= before.update(i as int, (key@, value@)));
                    assert(with_row(before, key@, value@) == self@);
                }
                Some(row.1)
            },
            None => {
                self.rows.push((key, value));
                proof {
                    assert(self@ =~= before.push((key@, value@)));
                    assert forall|i: int, j: int|
                        0 <= i < self@.len() && 0 <= j < self@.len() && i != j implies (
                    #[trigger] self@[i]).0 != (#[trigger] self@[j]).0 by {
                        if i < before.len() {
                            assert(self@[i] == before[i]);
                        }
                        if j < before.len() {
                            assert(self@[j] == before[j]);
                        }
                    }
                }
                None
            },
        }
    }

    /// Takes out the value under a key.
    pub fn remove(&mut self, key: &K) -> (r: Option<V>)
        requires
            old(self).well_formed(),
        ensures
            final(self).well_formed(),
            final(self)@ == without_row(old(self)@, key@),
            match r {
                Some(v) => has_key(old(self)@, key@) && v@ == value_of(old(self)@, key@),
                None => !has_key(old(self)@, key@),
            },
    {
        let ghost before = self@;
        match self.position(key) {
            Some(i) => {
                let row = self.rows.remove(i);
                proof {
                    assert(self@ =~= before.remove(i as int));
                    assert forall|a: int, b: int|
                        0 <= a < self@.len() && 0 <= b < self@.len() && a != b implies (
                    #[trigger] self@[a]).0 != (#[trigger] self@[b]).0 by {
                        let a0 = if a < i {
                            a
                        } else {
                            a + 1
                        };
                        let b0 = if b < i {
                            b
                        } else {
                            b + 1
                        };
                        assert(self@[a] == before[a0]);
                        assert(self@[b] == before[b0]);
                    }
                }
                Some(row.1)
            },
            None => None,
        }
    }
}

// ---------------------------------------------------------------------------------------------
// Laws
// ---------------------------------------------------------------------------------------------

/// What was put under a key is found there, and every other key keeps its value.
pub proof fn law_put_then_get<K, V>(rows: Rows<K, V>, key: K, value: V, other: K)
    requires
        keys_distinct(rows),
    ensures
        keys_distinct(with_row(rows, key, value)),
        has_key(with_row(rows, key, value), key),
        value_of(with_row(rows, key, value), key) == value,
        other != key ==> has_key(with_row(rows, key, value), other) == has_key(rows, other),
        other != key && has_key(rows, other) ==> value_of(with_row(rows, key, value), other) == value_of(
            rows,
            other,
        ),
{
    let after = with_row(rows, key, value);
    let at = if has_key(rows, key) {
        row_of(rows, key)
    } else {
        rows.len() as int
    };
    assert(after[at].0 == key);
    assert forall|i: int, j: int|
        0 <= i < after.len() && 0 <= j < after.len() && i != j implies (#[trigger] after[i]).0 != (
    #[trigger] after[j]).0 by {
        if i < rows.len() && i != at {
            assert(after[i] == rows[i]);
        }
        if j < rows.len() && j != at {
            assert(after[j] == rows[j]);
        }
        if has_key(rows, key) {
            assert(rows[at].0 == key);
        }
    }
    assert(row_of(after, key) == at);
    if other != key && has_key(rows, other) {
        let j = row_of(rows, other);
        assert(rows[j].0 == other);
        assert(after[j] == rows[j]);
        assert(row_of(after, other) == j);
    }
    if other != key && has_key(after, other) {
        let j = row_of(after, other);
        assert(j != at);
        assert(rows[j] == after[j]);
    }
}

/// A key that was taken out is gone, and every other key keeps its value.
pub proof fn law_take_then_get<K, V>(rows: Rows<K, V>, key: K, other: K)
    requires
        keys_distinct(rows),
    ensures
        keys_distinct(without_row(rows, key)),
        !has_key(without_row(rows, key), key),
        other != key ==> has_key(without_row(rows, key), other) == has_key(rows, other),
        other != key && has_key(rows, other) ==> value_of(without_row(rows, key), other)
            == value_of(rows, other),
{
    let after = without_row(rows, key);
    if has_key(rows, key) {
        let at = row_of(rows, key);
        assert(rows[at].0 == key);
        let origin = |i: int|
            if i < at {
                i
            } else {
                i + 1
            };
        assert forall|i: int| 0 <= i < after.len() implies #[trigger] after[i] == rows[origin(
            i,
        )] by {}
        assert forall|i: int, j: int|
            0 <= i < after.len() && 0 <= j < after.len() && i != j implies (#[trigger] after[i]).0
            != (#[trigger] after[j]).0 by {
            assert(after[i] == rows[origin(i)] && after[j] == rows[origin(j)]);
        }
        if has_key(after, key) {
            let j = row_of(after, key);
            assert(after[j] == rows[origin(j)]);
            assert(false);
        }
        if other != key && has_key(rows, other) {
            let j = row_of(rows, other);
            assert(rows[j].0 == other);
            let k = if j < at {
                j
            } else {
                j - 1
            };
            assert(after[k] == rows[j]);
            assert(row_of(after, other) == k);
        }
        if other != key && has_key(after, other) {
            let j = row_of(after, other);
            assert(after[j] == rows[origin(j)]);
        }
    }
}

/// Putting in a new key and taking it out again leaves the table as it was.
pub proof fn law_put_then_take<K, V>(rows: Rows<K, V>, key: K, value: V)
    requires
        keys_distinct(rows),
        !has_key(rows, key),
    ensures
        without_row(with_row(rows, key, value), key) == rows,
{
    let after = with_row(rows, key, value);
    assert(after[rows.len() as int].0 == key);
    assert forall|i: int| 0 <= i < rows.len() implies (#[trigger] after[i]).0 != key by {
        assert(after[i] == rows[i]);
    }
    assert(row_of(after, key) == rows.len());
    assert(after.remove(rows.len() as int) =~= rows);
}

} // verus!
