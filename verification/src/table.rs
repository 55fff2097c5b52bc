//! Ordered tables keyed by 128-bit identities.
use vstd::prelude::*;

use crate::errors::Error;
use crate::first_refusal;

verus! {

/// A table of plain records, kept in ascending order of their keys.
pub struct Table<V> {
    entries: Vec<(u128, V)>,
}

/// Keys ascend strictly, so that no key stands twice.
pub open spec fn ascending<V>(rows: Seq<(u128, V)>) -> bool {
    forall|i: int, j: int| 0 <= i < j < rows.len() ==> (#[trigger] rows[i]).0 < (#[trigger] rows[j]).0
}

/// What stands under `key`, if anything does.
pub open spec fn find<V>(rows: Seq<(u128, V)>, key: u128) -> Option<V>
    decreases rows.len(),
{
    if rows.len() == 0 {
        None
    } else if rows.last().0 == key {
        Some(rows.last().1)
    } else {
        find(rows.drop_last(), key)
    }
}

pub proof fn lemma_find<V>(rows: Seq<(u128, V)>, key: u128)
    requires
        ascending(rows),
    ensures
        forall|i: int|
            0 <= i < rows.len() && (#[trigger] rows[i]).0 == key ==> find(rows, key) == Some(rows[i].1),
        (forall|i: int| 0 <= i < rows.len() ==> (#[trigger] rows[i]).0 != key) ==> find(rows, key)
            is None,
        find(rows, key) is Some ==> exists|i: int|
            0 <= i < rows.len() && (#[trigger] rows[i]).0 == key && find(rows, key) == Some(rows[i].1),
    decreases rows.len(),
{
    if rows.len() > 0 {
        let front = rows.drop_last();
        lemma_find(front, key);
        if rows.last().0 == key {
            assert(rows[rows.len() - 1].0 == key);
        } else {
            assert forall|i: int| 0 <= i < rows.len() && (#[trigger] rows[i]).0 == key implies find(
                rows,
                key,
            ) == Some(rows[i].1) by {
                assert(front[i] == rows[i]);
            }
            if forall|i: int| 0 <= i < rows.len() ==> (#[trigger] rows[i]).0 != key {
                assert forall|i: int| 0 <= i < front.len() implies (#[trigger] front[i]).0 != key by {
                    assert(rows[i].0 != key);
                }
            }
            if find(rows, key) is Some {
                let i = choose|i: int|
                    0 <= i < front.len() && (#[trigger] front[i]).0 == key && find(front, key) == Some(
                        front[i].1,
                    );
                assert(rows[i] == front[i]);
            }
        }
    }
}

impl<V> Table<V> {
    #[verifier::type_invariant]
    spec fn ordered(self) -> bool {
        ascending(self.entries@)
    }

    /// The rows in ascending order of their keys.
    pub closed spec fn rows(self) -> Seq<(u128, V)> {
        self.entries@
    }

    closed spec fn find(self, key: u128) -> Option<V> {
        find(self.rows(), key)
    }
}

impl<V> View for Table<V> {
    type V = Map<u128, V>;

    closed spec fn view(&self) -> Map<u128, V> {
        Map::new(|key: u128| self.find(key) is Some, |key: u128| self.find(key)->0)
    }
}

/// Every key of the map stands in one of the rows.
pub open spec fn covers<V>(rows: Seq<(u128, V)>, map: Map<u128, V>) -> bool {
    forall|key: u128| #[trigger]
        map.dom().contains(key) ==> exists|i: int|
            0 <= i < rows.len() && (#[trigger] rows[i]).0 == key
}

/// Whether the check passes the first `n` rows.
pub open spec fn passed<V>(
    rows: Seq<(u128, V)>,
    map: Map<u128, V>,
    check: spec_fn(u128, V) -> Result<(), Error>,
    n: int,
) -> bool {
    forall|i: int| 0 <= i < n ==> check((#[trigger] rows[i]).0, map[rows[i].0]) is Ok
}

/// A refusal behind rows that pass is the first.
pub proof fn lemma_refused<V>(
    rows: Seq<(u128, V)>,
    map: Map<u128, V>,
    check: spec_fn(u128, V) -> Result<(), Error>,
    n: int,
)
    requires
        ascending(rows),
        covers(rows, map),
        0 <= n < rows.len(),
        passed(rows, map, check, n),
        map.dom().contains(rows[n].0),
        check(rows[n].0, map[rows[n].0]) is Err,
    ensures
        first_refusal::every(map, check) == check(rows[n].0, map[rows[n].0]),
{
    let key = rows[n].0;
    assert(first_refusal::refused(map, check, key));
    assert forall|other: u128| #[trigger] first_refusal::refused(map, check, other) implies key
        <= other by {
        let i = choose|i: int| 0 <= i < rows.len() && (#[trigger] rows[i]).0 == other;
        if i < n {
            assert(check(rows[i].0, map[rows[i].0]) is Ok);
        } else if i > n {
            assert(rows[n].0 < rows[i].0);
        }
    }
    first_refusal::lemma_first(map, check, key);
}

pub proof fn lemma_passed<V>(
    rows: Seq<(u128, V)>,
    map: Map<u128, V>,
    check: spec_fn(u128, V) -> Result<(), Error>,
)
    requires
        covers(rows, map),
        passed(rows, map, check, rows.len() as int),
    ensures
        first_refusal::every(map, check) == Ok::<(), Error>(()),
{
    assert forall|key: u128| map.dom().contains(key) implies check(key, #[trigger] map[key])
        is Ok by {
        let i = choose|i: int| 0 <= i < rows.len() && (#[trigger] rows[i]).0 == key;
        assert(check(rows[i].0, map[rows[i].0]) is Ok);
    }
    first_refusal::lemma_none(map, check);
}

/// Ascending rows are as many as the keys that they hold.
proof fn lemma_count<V>(rows: Seq<(u128, V)>)
    requires
        ascending(rows),
    ensures
        ({
            let map = Map::new(|key: u128| find(rows, key) is Some, |key: u128| find(rows, key)->0);
            map.dom().finite() && map.dom().len() == rows.len()
        }),
    decreases rows.len(),
{
    let map = Map::new(|key: u128| find(rows, key) is Some, |key: u128| find(rows, key)->0);
    if rows.len() == 0 {
        assert(map.dom() =~= Set::<u128>::empty());
    } else {
        let front = rows.drop_last();
        let last = rows.last().0;
        lemma_count(front);
        lemma_find(front, last);
        let before = Map::new(
            |key: u128| find(front, key) is Some,
            |key: u128| find(front, key)->0,
        );
        assert forall|i: int| 0 <= i < front.len() implies (#[trigger] front[i]).0 != last by {
            assert(rows[i].0 < rows[rows.len() - 1].0);
        }
        assert(map.dom() =~= before.dom().insert(last));
    }
}

impl<V: Copy> Table<V> {
    pub fn new() -> (table: Self)
        ensures
            table@ == Map::<u128, V>::empty(),
    {
        let table = Table { entries: Vec::new() };
        assert(table@ =~= Map::<u128, V>::empty());
        table
    }

    pub fn len(&self) -> (n: usize)
        ensures
            n == self.rows().len(),
            n == self@.dom().len(),
            self@.dom().finite(),
            ascending(self.rows()),
            covers(self.rows(), self@),
    {
        proof {
            use_type_invariant(self);
            lemma_count(self.rows());
            assert(self@ =~= Map::new(
                |key: u128| find(self.rows(), key) is Some,
                |key: u128| find(self.rows(), key)->0,
            ));
            assert forall|key: u128| #[trigger] self@.dom().contains(key) implies exists|i: int|
                0 <= i < self.rows().len() && (#[trigger] self.rows()[i]).0 == key by {
                lemma_find(self.rows(), key);
            }
        }
        self.entries.len()
    }

    pub fn row(&self, i: usize) -> (row: (u128, V))
        requires
            i < self.rows().len(),
        ensures
            row == self.rows()[i as int],
            self@.get(row.0) == Some(row.1),
    {
        proof {
            use_type_invariant(self);
            lemma_find(self.rows(), self.rows()[i as int].0);
        }
        self.entries[i]
    }

    /// Where `key` stands, or where it would.
    fn place(&self, key: u128) -> (at: usize)
        ensures
            at <= self.rows().len(),
            forall|i: int| 0 <= i < at ==> (#[trigger] self.rows()[i]).0 < key,
            forall|i: int| at <= i < self.rows().len() ==> (#[trigger] self.rows()[i]).0 >= key,
    {
        proof {
            use_type_invariant(self);
        }
        let mut low: usize = 0;
        let mut high: usize = self.entries.len();
        while low < high
            invariant
                low <= high <= self.rows().len(),
                ascending(self.rows()),
                self.rows() == self.entries@,
                forall|i: int| 0 <= i < low ==> (#[trigger] self.rows()[i]).0 < key,
                forall|i: int| high <= i < self.rows().len() ==> (#[trigger] self.rows()[i]).0 >= key,
            decreases high - low,
        {
            let middle: usize = low + (high - low) / 2;
            if self.entries[middle].0 < key {
                low = middle + 1;
            } else {
                high = middle;
            }
        }
        low
    }

    pub fn get(&self, key: u128) -> (value: Option<V>)
        ensures
            value == self@.get(key),
    {
        proof {
            use_type_invariant(self);
            lemma_find(self.rows(), key);
        }
        let at: usize = self.place(key);
        if at < self.entries.len() && self.entries[at].0 == key {
            Some(self.entries[at].1)
        } else {
            assert forall|i: int| 0 <= i < self.rows().len() implies (#[trigger] self.rows()[i]).0
                != key by {
                if i > at {
                    assert(self.rows()[at as int].0 < self.rows()[i].0);
                }
            }
            None
        }
    }

    pub fn contains(&self, key: u128) -> (found: bool)
        ensures
            found == self@.dom().contains(key),
    {
        self.get(key).is_some()
    }

    /// Puts `value` under `key`, in place of what stood there.
    pub fn insert(&mut self, key: u128, value: V)
        ensures
            final(self)@ == old(self)@.insert(key, value),
    {
        let at: usize = self.place(key);
        proof {
            use_type_invariant(&*self);
        }
        let ghost before = self.rows();
        let present: bool = at < self.entries.len() && self.entries[at].0 == key;
        let mut entries: Vec<(u128, V)> = Vec::new();
        std::mem::swap(&mut entries, &mut self.entries);
        if present {
            entries.set(at, (key, value));
        } else {
            entries.insert(at, (key, value));
        }
        let ghost after = entries@;
        proof {
            lemma_replaced(before, after, at as int, key, value, present);
        }
        self.entries = entries;
        assert forall|k: u128| k != key implies #[trigger] self.find(k) == find(before, k) by {
            assert(find(after, k) == find(before, k));
        }
        assert(self@ =~= old(self)@.insert(key, value));
    }

    /// The same rows once more.
    pub fn copy(&self) -> (table: Self)
        ensures
            table@ == self@,
    {
        let mut entries: Vec<(u128, V)> = Vec::new();
        let mut i: usize = 0;
        while i < self.entries.len()
            invariant
                i <= self.entries.len(),
                entries@ == self.entries@.subrange(0, i as int),
            decreases self.entries.len() - i,
        {
            entries.push(self.entries[i]);
            i = i + 1;
        }
        proof {
            use_type_invariant(self);
            assert(entries@ =~= self.entries@);
        }
        let table = Table { entries };
        assert(table@ =~= self@);
        table
    }
}

proof fn lemma_replaced<V>(
    before: Seq<(u128, V)>,
    after: Seq<(u128, V)>,
    at: int,
    key: u128,
    value: V,
    present: bool,
)
    requires
        ascending(before),
        0 <= at <= before.len(),
        forall|i: int| 0 <= i < at ==> (#[trigger] before[i]).0 < key,
        forall|i: int| at <= i < before.len() ==> (#[trigger] before[i]).0 >= key,
        present == (at < before.len() && before[at].0 == key),
        after == (if present {
            before.update(at, (key, value))
        } else {
            before.insert(at, (key, value))
        }),
    ensures
        ascending(after),
        find(after, key) == Some(value),
        forall|k: u128| k != key ==> #[trigger] find(after, k) == find(before, k),
        (find(before, key) is Some) == present,
{
    assert forall|i: int, j: int| 0 <= i < j < after.len() implies (#[trigger] after[i]).0 < (
    #[trigger] after[j]).0 by {
        if !present && at < before.len() {
            assert(before[at].0 > key);
            if j > at + 1 {
                assert(before[at].0 < before[j - 1].0);
            }
        }
        if present {
            if i > at {
                assert(before[i].0 < before[j].0);
            }
        }
    }
    lemma_find(after, key);
    assert(after[at].0 == key);
    assert forall|k: u128| k != key implies #[trigger] find(after, k) == find(before, k) by {
        lemma_find(after, k);
        lemma_find(before, k);
        if find(before, k) is Some {
            let i = choose|i: int|
                0 <= i < before.len() && (#[trigger] before[i]).0 == k && find(before, k) == Some(
                    before[i].1,
                );
            if present || i < at {
                assert(after[i] == before[i]);
            } else {
                assert(after[i + 1] == before[i]);
            }
        } else {
            assert forall|i: int| 0 <= i < after.len() implies (#[trigger] after[i]).0 != k by {
                if i != at {
                    if present || i < at {
                        assert(after[i] == before[i]);
                    } else {
                        assert(after[i] == before[i - 1]);
                    }
                }
            }
        }
    }
    lemma_find(before, key);
    if !present {
        assert forall|i: int| 0 <= i < before.len() implies (#[trigger] before[i]).0 != key by {
            if i > at {
                assert(before[at].0 < before[i].0);
            }
        }
    }
}

} // verus!
