//! Persistent ordered maps from document identities to the versions they hold. A
//! version is known by the number of the allocation that holds it.
use vstd::prelude::*;

verus! {

/// An `imbl::OrdMap` from identities to versions.
#[verifier::external_body]
pub struct VersionMap {
    map: imbl::OrdMap<u128, u64>,
}

/// The entries that an ordered map of versions holds.
pub uninterp spec fn entries(map: VersionMap) -> Map<u128, u64>;

pub open spec fn no_entries() -> Map<u128, u64> {
    Map::empty()
}

/// Whether the keys ascend, each once.
pub open spec fn ascending(keys: Seq<u128>) -> bool {
    forall|i: int, j: int| 0 <= i < j < keys.len() ==> #[trigger] keys[i] < #[trigger] keys[j]
}

/// Whether the keys are those under which two maps differ, in ascending order.
pub open spec fn are_differences(keys: Seq<u128>, old: Map<u128, u64>, new: Map<u128, u64>) -> bool {
    ascending(keys) && forall|k: u128| #[trigger]
        keys.contains(k) == (old.get(k) != new.get(k))
}

/// The keys under which two maps differ, in ascending order.
pub open spec fn differences(old: Map<u128, u64>, new: Map<u128, u64>) -> Seq<u128> {
    choose|keys: Seq<u128>| are_differences(keys, old, new)
}

/// `imbl::OrdMap::new`: a map without entries.
#[verifier::external_body]
fn imbl_new() -> (made: VersionMap)
    ensures
        entries(made) == no_entries(),
{
    VersionMap { map: imbl::OrdMap::new() }
}

/// `imbl::OrdMap::insert`: the entry under the key is put or replaced, and no other
/// changes. Nothing is said of the value that it hands back.
#[verifier::external_body]
fn imbl_insert(map: &mut VersionMap, key: u128, value: u64)
    ensures
        entries(*final(map)) == entries(*old(map)).insert(key, value),
{
    let _ = map.map.insert(key, value);
}

/// `imbl::OrdMap::remove`: there is no entry under the key, and no other changes.
/// Nothing is said of the value that it hands back.
#[verifier::external_body]
fn imbl_remove(map: &mut VersionMap, key: u128)
    ensures
        entries(*final(map)) == entries(*old(map)).remove(key),
{
    let _ = map.map.remove(&key);
}

/// `imbl::OrdMap::get`: the value under the key, if there is one.
#[verifier::external_body]
fn imbl_get(map: &VersionMap, key: u128) -> (value: Option<u64>)
    ensures
        value == entries(*map).get(key),
{
    map.map.get(&key).copied()
}

/// `imbl::OrdMap::len`: how many entries there are.
#[verifier::external_body]
fn imbl_len(map: &VersionMap) -> (n: usize)
    ensures
        n == entries(*map).dom().len(),
{
    map.map.len()
}

/// `imbl::OrdMap::diff`: the key of each difference, which come in ascending order:
/// each key that only one of the maps has, and each under which their values differ.
#[verifier::external_body]
fn imbl_diff(old: &VersionMap, new: &VersionMap) -> (keys: Vec<u128>)
    ensures
        are_differences(keys@, entries(*old), entries(*new)),
{
    old.map
        .diff(&new.map)
        .map(|item| match item {
            imbl::ordmap::DiffItem::Add(key, _) => *key,
            imbl::ordmap::DiffItem::Remove(key, _) => *key,
            imbl::ordmap::DiffItem::Update { old: (key, _), .. } => *key,
        })
        .collect()
}

/// The version that each document identity holds.
pub struct Versions {
    map: VersionMap,
}

impl View for Versions {
    type V = Map<u128, u64>;

    closed spec fn view(&self) -> Map<u128, u64> {
        entries(self.map)
    }
}

/// Ascending sequences of the same keys are the same.
pub proof fn lemma_same_keys(a: Seq<u128>, b: Seq<u128>)
    requires
        ascending(a),
        ascending(b),
        forall|k: u128| #[trigger] a.contains(k) == b.contains(k),
    ensures
        a == b,
    decreases a.len(),
{
    if a.len() == 0 {
        if b.len() > 0 {
            assert(b.contains(b[0]));
            assert(a.contains(b[0]));
        }
        assert(a =~= b);
    } else {
        let last = a.last();
        assert(a.contains(last));
        let j = choose|j: int| 0 <= j < b.len() && b[j] == last;
        if j < b.len() - 1 {
            assert(b.contains(b.last()));
            assert(a.contains(b.last()));
            let i = choose|i: int| 0 <= i < a.len() && a[i] == b.last();
            assert(b[j] < b[b.len() - 1]);
            if i < a.len() - 1 {
                assert(a[i] < a[a.len() - 1]);
            }
        }
        assert(b.last() == last);
        let front = a.drop_last();
        let other = b.drop_last();
        assert forall|k: u128| #[trigger] front.contains(k) == other.contains(k) by {
            if front.contains(k) {
                let i = choose|i: int| 0 <= i < front.len() && front[i] == k;
                assert(a[i] == k && a[i] < a[a.len() - 1]);
                assert(a.contains(k));
                let m = choose|m: int| 0 <= m < b.len() && b[m] == k;
                assert(other[m] == k);
            }
            if other.contains(k) {
                let i = choose|i: int| 0 <= i < other.len() && other[i] == k;
                assert(b[i] == k && b[i] < b[b.len() - 1]);
                assert(b.contains(k));
                assert(a.contains(k));
                let m = choose|m: int| 0 <= m < a.len() && a[m] == k;
                assert(front[m] == k);
            }
        }
        lemma_same_keys(front, other);
        assert(a =~= front.push(last));
        assert(b =~= other.push(last));
    }
}

impl Versions {
    pub fn new() -> (versions: Self)
        ensures
            versions@ == no_entries(),
    {
        Versions { map: imbl_new() }
    }

    pub fn insert(&mut self, id: u128, version: u64)
        ensures
            final(self)@ == old(self)@.insert(id, version),
    {
        imbl_insert(&mut self.map, id, version);
    }

    pub fn remove(&mut self, id: u128)
        ensures
            final(self)@ == old(self)@.remove(id),
    {
        imbl_remove(&mut self.map, id);
    }

    pub fn get(&self, id: u128) -> (version: Option<u64>)
        ensures
            version == self@.get(id),
    {
        imbl_get(&self.map, id)
    }

    pub fn contains(&self, id: u128) -> (b: bool)
        ensures
            b == self@.dom().contains(id),
    {
        imbl_get(&self.map, id).is_some()
    }

    pub fn len(&self) -> (n: usize)
        ensures
            n == self@.dom().len(),
    {
        imbl_len(&self.map)
    }

    /// The identities under which the other map holds another version, or only one
    /// of the two holds any, in ascending order.
    pub fn diff(&self, other: &Versions) -> (ids: Vec<u128>)
        ensures
            ids@ == differences(self@, other@),
            are_differences(ids@, self@, other@),
    {
        let ids = imbl_diff(&self.map, &other.map);
        proof {
            let chosen = differences(self@, other@);
            assert(are_differences(chosen, self@, other@));
            assert forall|k: u128| #[trigger] ids@.contains(k) == chosen.contains(k) by {}
            lemma_same_keys(ids@, chosen);
        }
        ids
    }
}

} // verus!
