//! Coherent roots of a snapshot lease, and what they retain as the state moves on.
//! Payload costs are counted only when a version first diverges; whole values live
//! solely in the original shared roots.
use vstd::prelude::*;

use crate::digest::Name;
use crate::errors;
use crate::errors::{error, Error, ErrorCode};
use crate::heap_accounting;
use crate::heap_accounting::{charge, path_bytes, quota};
use crate::table::Table;
use crate::versions;
use crate::versions::Versions;

verus! {

/// What is charged for each retained payload besides the payload.
pub const RETAINED_ENTRY_BYTES: u64 = 1024;

/// A version that a root holds: what retaining it costs, how many bytes its document
/// is encoded in, and, of an archived one, its archive.
#[derive(Clone, Copy, Debug, PartialEq, Eq, Structural)]
pub struct HeldVersion {
    pub version: u64,
    pub heap: u64,
    pub document_bytes: u64,
    pub archive: u128,
}

/// A collection as a lease's root holds it.
pub struct RootCollection {
    pub name: u128,
    pub documents: Table<HeldVersion>,
    pub archived: Table<HeldVersion>,
}

pub struct RootCollectionView {
    pub name: u128,
    pub documents: Map<u128, HeldVersion>,
    pub archived: Map<u128, HeldVersion>,
}

impl View for RootCollection {
    type V = RootCollectionView;

    open spec fn view(&self) -> RootCollectionView {
        RootCollectionView {
            name: self.name,
            documents: self.documents@,
            archived: self.archived@,
        }
    }
}

pub open spec fn roots_view(collections: Seq<RootCollection>) -> Seq<RootCollectionView> {
    Seq::new(collections.len(), |i: int| collections[i]@)
}

/// A collection of a published generation.
pub struct GenerationCollection {
    pub name: u128,
    pub documents: Versions,
    pub archived: Versions,
}

pub struct GenerationCollectionView {
    pub name: u128,
    pub documents: Map<u128, u64>,
    pub archived: Map<u128, u64>,
}

impl View for GenerationCollection {
    type V = GenerationCollectionView;

    open spec fn view(&self) -> GenerationCollectionView {
        GenerationCollectionView {
            name: self.name,
            documents: self.documents@,
            archived: self.archived@,
        }
    }
}

/// A published generation of a tenant's state.
pub struct GenerationState {
    pub incarnation: u128,
    pub policy_epoch: u64,
    pub schema_epoch: u64,
    pub suspended: bool,
    pub retired: bool,
    pub max_lease_bytes: u64,
    pub max_leases: u64,
    pub collections: Vec<GenerationCollection>,
    pub archives: Versions,
}

pub struct GenerationView {
    pub incarnation: u128,
    pub policy_epoch: u64,
    pub schema_epoch: u64,
    pub suspended: bool,
    pub retired: bool,
    pub max_lease_bytes: u64,
    pub max_leases: u64,
    pub collections: Seq<GenerationCollectionView>,
    pub archives: Map<u128, u64>,
}

pub open spec fn generations_view(collections: Seq<GenerationCollection>) -> Seq<
    GenerationCollectionView,
> {
    Seq::new(collections.len(), |i: int| collections[i]@)
}

impl View for GenerationState {
    type V = GenerationView;

    open spec fn view(&self) -> GenerationView {
        GenerationView {
            incarnation: self.incarnation,
            policy_epoch: self.policy_epoch,
            schema_epoch: self.schema_epoch,
            suspended: self.suspended,
            retired: self.retired,
            max_lease_bytes: self.max_lease_bytes,
            max_leases: self.max_leases,
            collections: generations_view(self.collections@),
            archives: self.archives@,
        }
    }
}

/// What a lease was opened as.
#[derive(Clone, Copy, Debug, PartialEq, Eq, Structural)]
pub struct LeaseHeader {
    pub lease_id: u128,
    pub revision: u64,
    pub incarnation: u128,
    pub policy_epoch: u64,
    pub schema_epoch: u64,
    pub ttl_ms: u64,
    pub principal: Name,
    pub term: u64,
    pub strict_read_audit: bool,
    /// When it was opened, in nanoseconds of the lease clock.
    pub created_ns: u128,
}

/// Whether a lease that was not dropped still lasts.
pub open spec fn lasts(header: LeaseHeader, now_ns: u128) -> bool {
    (if now_ns < header.created_ns {
        0
    } else {
        now_ns - header.created_ns
    }) < header.ttl_ms * 1_000_000
}

pub fn live(header: &LeaseHeader, now_ns: u128) -> (b: bool)
    ensures
        b == lasts(*header, now_ns),
{
    let age: u128 = now_ns.saturating_sub(header.created_ns);
    age < header.ttl_ms as u128 * 1_000_000
}

/// How many tree paths of a collection were touched since the lease was opened.
#[derive(Clone, Copy, Debug, PartialEq, Eq, Structural)]
pub struct Paths {
    pub documents: u64,
    pub archived: u64,
    pub ids: u64,
}

/// What a lease has been charged for.
pub struct LedgerView {
    pub paths: Seq<Paths>,
    pub archive_paths: u64,
    pub payloads: Set<(u8, u128, u128)>,
    pub payload_bytes: u64,
}

pub open spec fn expired_error() -> Error {
    errors::refusal(
        ErrorCode::CursorExpired,
        "snapshot lease expired or retention budget exhausted",
    )
}

pub fn expired() -> (e: Error)
    ensures
        e == expired_error(),
{
    error(ErrorCode::CursorExpired, "snapshot lease expired or retention budget exhausted")
}

// ---------------------------------------------------------------------
// What one difference costs
// ---------------------------------------------------------------------

/// One more, but no more than the bound.
pub open spec fn one_more(n: u64, bound: u64) -> u64 {
    if heap_accounting::plus(n, 1) < bound {
        heap_accounting::plus(n, 1)
    } else {
        bound
    }
}

fn bump(n: u64, bound: u64) -> (m: u64)
    ensures
        m == one_more(n, bound),
{
    let next: u64 = n.saturating_add(1);
    if next < bound {
        next
    } else {
        bound
    }
}

/// A payload is charged once.
pub open spec fn accounted(ledger: LedgerView, key: (u8, u128, u128), heap: u64, budget: u64) -> Result<
    LedgerView,
    Error,
> {
    if ledger.payloads.contains(key) {
        Ok(ledger)
    } else if heap > budget || heap + RETAINED_ENTRY_BYTES > u64::MAX {
        Err(heap_accounting::exhausted())
    } else {
        match heap_accounting::added(
            ledger.payload_bytes,
            (heap + RETAINED_ENTRY_BYTES) as u64,
            budget,
        ) {
            Err(e) => Err(e),
            Ok(bytes) => Ok(
                LedgerView {
                    payloads: ledger.payloads.insert(key),
                    payload_bytes: bytes,
                    ..ledger
                },
            ),
        }
    }
}

pub open spec fn holds(c: GenerationCollectionView, id: u128) -> bool {
    c.documents.dom().contains(id) || c.archived.dom().contains(id)
}

pub open spec fn sizes(root: RootCollectionView) -> (u64, u64) {
    (root.documents.dom().len() as u64, root.archived.dom().len() as u64)
}

/// The paths behind a difference in the hot documents.
pub open spec fn document_paths(
    paths: Paths,
    root: RootCollectionView,
    old: GenerationCollectionView,
    new: GenerationCollectionView,
    id: u128,
) -> Paths {
    Paths {
        documents: one_more(paths.documents, sizes(root).0),
        ids: if holds(old, id) != holds(new, id) {
            one_more(paths.ids, heap_accounting::plus(sizes(root).0, sizes(root).1))
        } else {
            paths.ids
        },
        ..paths
    }
}

/// The ledger behind a difference in the hot documents of a collection. A version
/// of the root that the new generation no longer shares is charged.
pub open spec fn document_changed(
    ledger: LedgerView,
    at: int,
    root: RootCollectionView,
    old: GenerationCollectionView,
    new: GenerationCollectionView,
    id: u128,
    budget: u64,
) -> Result<LedgerView, Error> {
    let touched = LedgerView {
        paths: ledger.paths.update(at, document_paths(ledger.paths[at], root, old, new, id)),
        ..ledger
    };
    match root.documents.get(id) {
        None => Ok(touched),
        Some(held) => if new.documents.get(id) == Some(held.version) {
            Ok(touched)
        } else {
            accounted(touched, (0, root.name, id), held.heap, budget)
        },
    }
}

/// The paths behind a difference in the references. An archive-only removal also
/// changes the primary identities; a hot difference has counted its own path.
pub open spec fn reference_paths(
    paths: Paths,
    root: RootCollectionView,
    old: GenerationCollectionView,
    new: GenerationCollectionView,
    id: u128,
) -> Paths {
    Paths {
        archived: one_more(paths.archived, sizes(root).1),
        ids: if old.documents.get(id) == new.documents.get(id) && holds(old, id) != holds(new, id) {
            one_more(paths.ids, heap_accounting::plus(sizes(root).0, sizes(root).1))
        } else {
            paths.ids
        },
        ..paths
    }
}

pub open spec fn reference_changed(
    ledger: LedgerView,
    at: int,
    root: RootCollectionView,
    old: GenerationCollectionView,
    new: GenerationCollectionView,
    id: u128,
    budget: u64,
) -> Result<LedgerView, Error> {
    let touched = LedgerView {
        paths: ledger.paths.update(at, reference_paths(ledger.paths[at], root, old, new, id)),
        ..ledger
    };
    match root.archived.get(id) {
        None => Ok(touched),
        Some(held) => if new.archived.get(id) == Some(held.version) {
            Ok(touched)
        } else {
            accounted(touched, (1, root.name, id), held.heap, budget)
        },
    }
}

pub open spec fn archive_changed(
    ledger: LedgerView,
    archives: Map<u128, u64>,
    id: u128,
    budget: u64,
) -> Result<LedgerView, Error> {
    let touched = LedgerView {
        archive_paths: one_more(ledger.archive_paths, archives.dom().len() as u64),
        ..ledger
    };
    match archives.get(id) {
        None => Ok(touched),
        Some(heap) => accounted(touched, (2, 0, id), heap, budget),
    }
}

// ---------------------------------------------------------------------
// What a publication costs
// ---------------------------------------------------------------------

pub open spec fn documents_changed(
    ledger: LedgerView,
    at: int,
    root: RootCollectionView,
    old: GenerationCollectionView,
    new: GenerationCollectionView,
    ids: Seq<u128>,
    i: int,
    budget: u64,
) -> Result<LedgerView, Error>
    decreases ids.len() - i,
{
    if i < 0 || i >= ids.len() {
        Ok(ledger)
    } else {
        match document_changed(ledger, at, root, old, new, ids[i], budget) {
            Err(e) => Err(e),
            Ok(ledger) => documents_changed(ledger, at, root, old, new, ids, i + 1, budget),
        }
    }
}

pub open spec fn references_changed(
    ledger: LedgerView,
    at: int,
    root: RootCollectionView,
    old: GenerationCollectionView,
    new: GenerationCollectionView,
    ids: Seq<u128>,
    i: int,
    budget: u64,
) -> Result<LedgerView, Error>
    decreases ids.len() - i,
{
    if i < 0 || i >= ids.len() {
        Ok(ledger)
    } else {
        match reference_changed(ledger, at, root, old, new, ids[i], budget) {
            Err(e) => Err(e),
            Ok(ledger) => references_changed(ledger, at, root, old, new, ids, i + 1, budget),
        }
    }
}

pub open spec fn archives_changed(
    ledger: LedgerView,
    archives: Map<u128, u64>,
    ids: Seq<u128>,
    i: int,
    budget: u64,
) -> Result<LedgerView, Error>
    decreases ids.len() - i,
{
    if i < 0 || i >= ids.len() {
        Ok(ledger)
    } else {
        match archive_changed(ledger, archives, ids[i], budget) {
            Err(e) => Err(e),
            Ok(ledger) => archives_changed(ledger, archives, ids, i + 1, budget),
        }
    }
}

pub open spec fn generation_at(collections: Seq<GenerationCollectionView>, name: u128, i: int) -> Option<
    int,
>
    decreases collections.len() - i,
{
    if i < 0 || i >= collections.len() {
        None
    } else if collections[i].name == name {
        Some(i)
    } else {
        generation_at(collections, name, i + 1)
    }
}

pub open spec fn root_at(collections: Seq<RootCollectionView>, name: u128, i: int) -> Option<int>
    decreases collections.len() - i,
{
    if i < 0 || i >= collections.len() {
        None
    } else if collections[i].name == name {
        Some(i)
    } else {
        root_at(collections, name, i + 1)
    }
}

/// The ledger behind what a publication changed in one collection.
pub open spec fn collection_changed(
    ledger: LedgerView,
    roots: Seq<RootCollectionView>,
    old: GenerationCollectionView,
    next: GenerationView,
) -> Result<LedgerView, Error> {
    match generation_at(next.collections, old.name, 0) {
        None => Err(expired_error()),
        Some(k) => match root_at(roots, old.name, 0) {
            None => Ok(ledger),
            Some(at) => {
                let new = next.collections[k];
                match documents_changed(
                    ledger,
                    at,
                    roots[at],
                    old,
                    new,
                    versions::differences(old.documents, new.documents),
                    0,
                    next.max_lease_bytes,
                ) {
                    Err(e) => Err(e),
                    Ok(ledger) => references_changed(
                        ledger,
                        at,
                        roots[at],
                        old,
                        new,
                        versions::differences(old.archived, new.archived),
                        0,
                        next.max_lease_bytes,
                    ),
                }
            },
        },
    }
}

pub open spec fn collections_changed(
    ledger: LedgerView,
    roots: Seq<RootCollectionView>,
    previous: Seq<GenerationCollectionView>,
    next: GenerationView,
    i: int,
) -> Result<LedgerView, Error>
    decreases previous.len() - i,
{
    if i < 0 || i >= previous.len() {
        Ok(ledger)
    } else {
        match collection_changed(ledger, roots, previous[i], next) {
            Err(e) => Err(e),
            Ok(ledger) => collections_changed(ledger, roots, previous, next, i + 1),
        }
    }
}

/// The charge of a collection's touched paths.
pub open spec fn paths_total(root: RootCollectionView, paths: Paths, total: u64, budget: u64) -> Result<
    u64,
    Error,
> {
    match heap_accounting::added(
        total,
        heap_accounting::path_total(sizes(root).0, paths.documents),
        budget,
    ) {
        Err(e) => Err(e),
        Ok(total) => match heap_accounting::added(
            total,
            heap_accounting::path_total(sizes(root).1, paths.archived),
            budget,
        ) {
            Err(e) => Err(e),
            Ok(total) => heap_accounting::added(
                total,
                heap_accounting::path_total(
                    heap_accounting::plus(sizes(root).0, sizes(root).1),
                    paths.ids,
                ),
                budget,
            ),
        },
    }
}

pub open spec fn all_paths_total(
    roots: Seq<RootCollectionView>,
    paths: Seq<Paths>,
    i: int,
    total: u64,
    budget: u64,
) -> Result<u64, Error>
    decreases roots.len() - i,
{
    if i < 0 || i >= roots.len() {
        Ok(total)
    } else {
        match paths_total(roots[i], paths[i], total, budget) {
            Err(e) => Err(e),
            Ok(total) => all_paths_total(roots, paths, i + 1, total, budget),
        }
    }
}

/// Everything that a lease retains.
pub open spec fn retained_bytes(
    metadata_bytes: u64,
    ledger: LedgerView,
    roots: Seq<RootCollectionView>,
    archives: Map<u128, u64>,
    budget: u64,
) -> Result<u64, Error> {
    match heap_accounting::added(metadata_bytes, ledger.payload_bytes, budget) {
        Err(e) => Err(e),
        Ok(total) => match all_paths_total(roots, ledger.paths, 0, total, budget) {
            Err(e) => Err(e),
            Ok(total) => heap_accounting::added(
                total,
                heap_accounting::path_total(archives.dom().len() as u64, ledger.archive_paths),
                budget,
            ),
        },
    }
}

/// The roots of one lease, and what it has been charged for.
pub struct RootsView {
    pub header: LeaseHeader,
    pub collections: Seq<RootCollectionView>,
    pub archives: Map<u128, u64>,
    pub ledger: LedgerView,
    pub metadata_bytes: u64,
    pub bytes: u64,
}

/// Whether the lease can go on into the next generation.
pub open spec fn continues(header: LeaseHeader, next: GenerationView, now_ns: u128) -> bool {
    &&& lasts(header, now_ns)
    &&& header.incarnation == next.incarnation
    &&& header.policy_epoch == next.policy_epoch
    &&& header.schema_epoch == next.schema_epoch
    &&& !next.suspended
    &&& !next.retired
}

/// The roots behind a publication, charged for what it made diverge.
pub open spec fn refreshed(
    roots: RootsView,
    previous: GenerationView,
    next: GenerationView,
    now_ns: u128,
) -> Result<RootsView, Error> {
    if !continues(roots.header, next, now_ns) {
        Err(expired_error())
    } else {
        match collections_changed(roots.ledger, roots.collections, previous.collections, next, 0) {
            Err(e) => Err(e),
            Ok(ledger) => match archives_changed(
                ledger,
                roots.archives,
                versions::differences(previous.archives, next.archives),
                0,
                next.max_lease_bytes,
            ) {
                Err(e) => Err(e),
                Ok(ledger) => match retained_bytes(
                    roots.metadata_bytes,
                    ledger,
                    roots.collections,
                    roots.archives,
                    next.max_lease_bytes,
                ) {
                    Err(e) => Err(e),
                    Ok(bytes) => Ok(RootsView { ledger, bytes, ..roots }),
                },
            },
        }
    }
}

// ---------------------------------------------------------------------
// The roots
// ---------------------------------------------------------------------

struct Ledger {
    paths: Vec<Paths>,
    archive_paths: u64,
    payloads: Vec<(u8, u128, u128)>,
    payload_bytes: u64,
}

impl View for Ledger {
    type V = LedgerView;

    closed spec fn view(&self) -> LedgerView {
        LedgerView {
            paths: self.paths@,
            archive_paths: self.archive_paths,
            payloads: self.payloads@.to_set(),
            payload_bytes: self.payload_bytes,
        }
    }
}

impl Ledger {
    fn copy(&self) -> (ledger: Ledger)
        ensures
            ledger@ == self@,
            ledger.paths.len() == self.paths.len(),
    {
        let mut paths: Vec<Paths> = Vec::new();
        let mut i: usize = 0;
        while i < self.paths.len()
            invariant
                i <= self.paths.len(),
                paths@ == self.paths@.subrange(0, i as int),
            decreases self.paths.len() - i,
        {
            paths.push(self.paths[i]);
            assert(self.paths@.subrange(0, i + 1) =~= self.paths@.subrange(0, i as int).push(
                self.paths@[i as int],
            ));
            i = i + 1;
        }
        let mut payloads: Vec<(u8, u128, u128)> = Vec::new();
        let mut k: usize = 0;
        while k < self.payloads.len()
            invariant
                k <= self.payloads.len(),
                payloads@ == self.payloads@.subrange(0, k as int),
            decreases self.payloads.len() - k,
        {
            payloads.push(self.payloads[k]);
            assert(self.payloads@.subrange(0, k + 1) =~= self.payloads@.subrange(
                0,
                k as int,
            ).push(self.payloads@[k as int]));
            k = k + 1;
        }
        assert(self.paths@.subrange(0, self.paths@.len() as int) =~= self.paths@);
        assert(self.payloads@.subrange(0, self.payloads@.len() as int) =~= self.payloads@);
        Ledger {
            paths,
            archive_paths: self.archive_paths,
            payloads,
            payload_bytes: self.payload_bytes,
        }
    }

    fn charged(&self, key: (u8, u128, u128)) -> (b: bool)
        ensures
            b == self@.payloads.contains(key),
    {
        let mut i: usize = 0;
        while i < self.payloads.len()
            invariant
                i <= self.payloads.len(),
                forall|j: int| 0 <= j < i ==> self.payloads@[j] != key,
            decreases self.payloads.len() - i,
        {
            let row = self.payloads[i];
            if row.0 == key.0 && row.1 == key.1 && row.2 == key.2 {
                assert(self.payloads@[i as int] == key);
                return true;
            }
            i = i + 1;
        }
        false
    }

    fn account(&mut self, key: (u8, u128, u128), heap: u64, budget: u64) -> (r: Result<(), Error>)
        ensures
            final(self).paths@ == old(self).paths@,
            match accounted(old(self)@, key, heap, budget) {
                Err(e) => r == Err::<(), Error>(e),
                Ok(ledger) => r is Ok && final(self)@ == ledger,
            },
    {
        if self.charged(key) {
            return Ok(());
        }
        if heap > budget {
            return Err(quota());
        }
        let bytes: u64 = match heap.checked_add(RETAINED_ENTRY_BYTES) {
            None => return Err(quota()),
            Some(bytes) => bytes,
        };
        let total: u64 = charge(self.payload_bytes, bytes, budget)?;
        let ghost held = self.payloads@;
        self.payload_bytes = total;
        self.payloads.push(key);
        proof {
            let pushed = self.payloads@;
            assert forall|k: (u8, u128, u128)| pushed.to_set().contains(k)
                == held.to_set().insert(key).contains(k) by {
                if held.contains(k) {
                    let i = choose|i: int| 0 <= i < held.len() && held[i] == k;
                    assert(pushed[i] == k);
                }
                assert(pushed[held.len() as int] == key);
                if pushed.contains(k) {
                    let i = choose|i: int| 0 <= i < pushed.len() && pushed[i] == k;
                    if i < held.len() {
                        assert(held[i] == k);
                    }
                }
            }
            assert(pushed.to_set() =~= held.to_set().insert(key));
        }
        Ok(())
    }
}

fn document_difference(
    ledger: &mut Ledger,
    at: usize,
    root: &RootCollection,
    old_one: &GenerationCollection,
    new_one: &GenerationCollection,
    id: u128,
    budget: u64,
) -> (r: Result<(), Error>)
    requires
        at < old(ledger).paths.len(),
    ensures
        final(ledger).paths.len() == old(ledger).paths.len(),
        match document_changed(old(ledger)@, at as int, root@, old_one@, new_one@, id, budget) {
            Err(e) => r == Err::<(), Error>(e),
            Ok(next) => r is Ok && final(ledger)@ == next,
        },
{
    let documents: u64 = root.documents.len() as u64;
    let archived: u64 = root.archived.len() as u64;
    let mut paths = ledger.paths[at];
    paths.documents = bump(paths.documents, documents);
    let before: bool = old_one.documents.contains(id) || old_one.archived.contains(id);
    let after: bool = new_one.documents.contains(id) || new_one.archived.contains(id);
    if before != after {
        paths.ids = bump(paths.ids, documents.saturating_add(archived));
    }
    ledger.paths.set(at, paths);
    let ghost touched = LedgerView {
        paths: old(ledger)@.paths.update(
            at as int,
            document_paths(old(ledger)@.paths[at as int], root@, old_one@, new_one@, id),
        ),
        ..old(ledger)@
    };
    assert(ledger@.paths =~= touched.paths);
    assert(ledger@ == touched);
    match root.documents.get(id) {
        None => Ok(()),
        Some(held) => {
            if new_one.documents.get(id) == Some(held.version) {
                return Ok(());
            }
            ledger.account((0, root.name, id), held.heap, budget)
        },
    }
}

fn reference_difference(
    ledger: &mut Ledger,
    at: usize,
    root: &RootCollection,
    old_one: &GenerationCollection,
    new_one: &GenerationCollection,
    id: u128,
    budget: u64,
) -> (r: Result<(), Error>)
    requires
        at < old(ledger).paths.len(),
    ensures
        final(ledger).paths.len() == old(ledger).paths.len(),
        match reference_changed(old(ledger)@, at as int, root@, old_one@, new_one@, id, budget) {
            Err(e) => r == Err::<(), Error>(e),
            Ok(next) => r is Ok && final(ledger)@ == next,
        },
{
    let documents: u64 = root.documents.len() as u64;
    let archived: u64 = root.archived.len() as u64;
    let mut paths = ledger.paths[at];
    paths.archived = bump(paths.archived, archived);
    let before: bool = old_one.documents.contains(id) || old_one.archived.contains(id);
    let after: bool = new_one.documents.contains(id) || new_one.archived.contains(id);
    if old_one.documents.get(id) == new_one.documents.get(id) && before != after {
        paths.ids = bump(paths.ids, documents.saturating_add(archived));
    }
    ledger.paths.set(at, paths);
    let ghost touched = LedgerView {
        paths: old(ledger)@.paths.update(
            at as int,
            reference_paths(old(ledger)@.paths[at as int], root@, old_one@, new_one@, id),
        ),
        ..old(ledger)@
    };
    assert(ledger@.paths =~= touched.paths);
    assert(ledger@ == touched);
    match root.archived.get(id) {
        None => Ok(()),
        Some(held) => {
            if new_one.archived.get(id) == Some(held.version) {
                return Ok(());
            }
            ledger.account((1, root.name, id), held.heap, budget)
        },
    }
}

fn archive_difference(ledger: &mut Ledger, archives: &Table<u64>, id: u128, budget: u64) -> (r: Result<
    (),
    Error,
>)
    ensures
        final(ledger).paths.len() == old(ledger).paths.len(),
        match archive_changed(old(ledger)@, archives@, id, budget) {
            Err(e) => r == Err::<(), Error>(e),
            Ok(next) => r is Ok && final(ledger)@ == next,
        },
{
    ledger.archive_paths = bump(ledger.archive_paths, archives.len() as u64);
    match archives.get(id) {
        None => Ok(()),
        Some(heap) => ledger.account((2, 0, id), heap, budget),
    }
}

fn collection_difference(
    ledger: &mut Ledger,
    roots: &Vec<RootCollection>,
    old_one: &GenerationCollection,
    next: &GenerationState,
) -> (r: Result<(), Error>)
    requires
        old(ledger).paths.len() == roots.len(),
    ensures
        final(ledger).paths.len() == old(ledger).paths.len(),
        match collection_changed(old(ledger)@, roots_view(roots@), old_one@, next@) {
            Err(e) => r == Err::<(), Error>(e),
            Ok(after) => r is Ok && final(ledger)@ == after,
        },
{
    let ghost start = ledger@;
    let ghost generations = next@.collections;
    let ghost view = roots_view(roots@);
    let mut k: usize = 0;
    while k < next.collections.len() && next.collections[k].name != old_one.name
        invariant
            k <= next.collections.len(),
            generations == next@.collections,
            generation_at(generations, old_one.name, 0) == generation_at(
                generations,
                old_one.name,
                k as int,
            ),
        decreases next.collections.len() - k,
    {
        assert(generations[k as int].name == next.collections@[k as int].name);
        k = k + 1;
    }
    if k == next.collections.len() {
        return Err(expired());
    }
    assert(generations[k as int] == next.collections@[k as int]@);
    let mut at: usize = 0;
    while at < roots.len() && roots[at].name != old_one.name
        invariant
            at <= roots.len(),
            view == roots_view(roots@),
            root_at(view, old_one.name, 0) == root_at(view, old_one.name, at as int),
        decreases roots.len() - at,
    {
        assert(view[at as int].name == roots@[at as int].name);
        at = at + 1;
    }
    if at == roots.len() {
        return Ok(());
    }
    let root = &roots[at];
    assert(view[at as int] == root@);
    let new_one = &next.collections[k];
    let budget: u64 = next.max_lease_bytes;
    let ids = old_one.documents.diff(&new_one.documents);
    let mut i: usize = 0;
    while i < ids.len()
        invariant
            i <= ids.len(),
            at < ledger.paths.len(),
            ledger.paths.len() == old(ledger).paths.len(),
            documents_changed(start, at as int, root@, old_one@, new_one@, ids@, 0, budget)
                == documents_changed(
                ledger@,
                at as int,
                root@,
                old_one@,
                new_one@,
                ids@,
                i as int,
                budget,
            ),
            collection_changed(start, view, old_one@, next@) == match documents_changed(
                start,
                at as int,
                root@,
                old_one@,
                new_one@,
                ids@,
                0,
                budget,
            ) {
                Err(e) => Err(e),
                Ok(after) => references_changed(
                    after,
                    at as int,
                    root@,
                    old_one@,
                    new_one@,
                    versions::differences(old_one@.archived, new_one@.archived),
                    0,
                    budget,
                ),
            },
            start == old(ledger)@,
            view == roots_view(roots@),
        decreases ids.len() - i,
    {
        document_difference(ledger, at, root, old_one, new_one, ids[i], budget)?;
        i = i + 1;
    }
    let ghost middle = ledger@;
    let moved = old_one.archived.diff(&new_one.archived);
    let mut j: usize = 0;
    while j < moved.len()
        invariant
            j <= moved.len(),
            at < ledger.paths.len(),
            ledger.paths.len() == old(ledger).paths.len(),
            references_changed(middle, at as int, root@, old_one@, new_one@, moved@, 0, budget)
                == references_changed(
                ledger@,
                at as int,
                root@,
                old_one@,
                new_one@,
                moved@,
                j as int,
                budget,
            ),
            collection_changed(start, view, old_one@, next@) == references_changed(
                middle,
                at as int,
                root@,
                old_one@,
                new_one@,
                moved@,
                0,
                budget,
            ),
            start == old(ledger)@,
            view == roots_view(roots@),
        decreases moved.len() - j,
    {
        reference_difference(ledger, at, root, old_one, new_one, moved[j], budget)?;
        j = j + 1;
    }
    Ok(())
}

/// The coherent roots of one lease.
pub struct Roots {
    header: LeaseHeader,
    collections: Vec<RootCollection>,
    archives: Table<u64>,
    ledger: Ledger,
    metadata_bytes: u64,
    bytes: u64,
}

impl View for Roots {
    type V = RootsView;

    closed spec fn view(&self) -> RootsView {
        RootsView {
            header: self.header,
            collections: roots_view(self.collections@),
            archives: self.archives@,
            ledger: self.ledger@,
            metadata_bytes: self.metadata_bytes,
            bytes: self.bytes,
        }
    }
}

/// A ledger of nothing, over so many collections.
pub open spec fn blank(collections: nat) -> LedgerView {
    LedgerView {
        paths: Seq::new(collections, |i: int| Paths { documents: 0, archived: 0, ids: 0 }),
        archive_paths: 0,
        payloads: Set::empty(),
        payload_bytes: 0,
    }
}

impl Roots {
    /// There are paths for every collection.
    #[verifier::type_invariant]
    spec fn tracked_paths(self) -> bool {
        self.ledger.paths@.len() == self.collections@.len()
    }

    /// Roots that nothing has diverged from yet.
    pub fn new(
        header: LeaseHeader,
        collections: Vec<RootCollection>,
        archives: Table<u64>,
        metadata_bytes: u64,
    ) -> (roots: Self)
        ensures
            roots@ == (RootsView {
                header,
                collections: roots_view(collections@),
                archives: archives@,
                ledger: blank(collections@.len()),
                metadata_bytes,
                bytes: metadata_bytes,
            }),
    {
        let mut paths: Vec<Paths> = Vec::new();
        let mut i: usize = 0;
        while i < collections.len()
            invariant
                i <= collections.len(),
                paths@ == Seq::new(
                    i as nat,
                    |k: int| Paths { documents: 0, archived: 0, ids: 0 },
                ),
            decreases collections.len() - i,
        {
            paths.push(Paths { documents: 0, archived: 0, ids: 0 });
            assert(paths@ =~= Seq::new(
                (i + 1) as nat,
                |k: int| Paths { documents: 0, archived: 0, ids: 0 },
            ));
            i = i + 1;
        }
        let payloads: Vec<(u8, u128, u128)> = Vec::new();
        assert(payloads@.to_set() =~= Set::empty());
        Roots {
            header,
            collections,
            archives,
            ledger: Ledger { paths, archive_paths: 0, payloads, payload_bytes: 0 },
            metadata_bytes,
            bytes: metadata_bytes,
        }
    }

    pub fn header(&self) -> (header: LeaseHeader)
        ensures
            header == self@.header,
    {
        self.header
    }

    pub fn collections(&self) -> (collections: &Vec<RootCollection>)
        ensures
            roots_view(collections@) == self@.collections,
    {
        &self.collections
    }

    pub fn archives(&self) -> (archives: &Table<u64>)
        ensures
            archives@ == self@.archives,
    {
        &self.archives
    }

    pub fn bytes(&self) -> (bytes: u64)
        ensures
            bytes == self@.bytes,
    {
        self.bytes
    }

    pub fn metadata_bytes(&self) -> (bytes: u64)
        ensures
            bytes == self@.metadata_bytes,
    {
        self.metadata_bytes
    }

    /// The paths that diverged in the collection at an index.
    pub fn paths(&self, at: usize) -> (paths: Paths)
        requires
            at < self@.collections.len(),
        ensures
            paths == self@.ledger.paths[at as int],
    {
        proof {
            use_type_invariant(self);
        }
        self.ledger.paths[at]
    }

    fn paths_charge(&self, ledger: &Ledger, total: u64, budget: u64) -> (r: Result<u64, Error>)
        requires
            ledger.paths.len() == self.collections.len(),
        ensures
            r == all_paths_total(self@.collections, ledger@.paths, 0, total, budget),
    {
        let ghost view = self@.collections;
        let mut sum: u64 = total;
        let mut i: usize = 0;
        while i < self.collections.len()
            invariant
                i <= self.collections.len(),
                ledger.paths.len() == self.collections.len(),
                view == self@.collections,
                all_paths_total(view, ledger@.paths, 0, total, budget) == all_paths_total(
                    view,
                    ledger@.paths,
                    i as int,
                    sum,
                    budget,
                ),
            decreases self.collections.len() - i,
        {
            let root = &self.collections[i];
            assert(view[i as int] == root@);
            let documents: u64 = root.documents.len() as u64;
            let archived: u64 = root.archived.len() as u64;
            let paths = ledger.paths[i];
            let hot: u64 = charge(sum, path_bytes(documents, paths.documents), budget)?;
            let cold: u64 = charge(hot, path_bytes(archived, paths.archived), budget)?;
            sum = charge(
                cold,
                path_bytes(documents.saturating_add(archived), paths.ids),
                budget,
            )?;
            i = i + 1;
        }
        Ok(sum)
    }

    /// Charges the lease for what a publication made diverge from its roots, and
    /// answers how many bytes more are to be reserved for it. A lease that is
    /// refused is dropped.
    pub fn refresh(&mut self, previous: &GenerationState, next: &GenerationState, now_ns: u128) -> (r:
        Result<u64, Error>)
        ensures
            match refreshed(old(self)@, previous@, next@, now_ns) {
                Err(e) => r == Err::<u64, Error>(e) && final(self)@ == old(self)@,
                Ok(roots) => final(self)@ == roots && r == Ok::<u64, Error>(
                    if roots.bytes > old(self)@.bytes {
                        (roots.bytes - old(self)@.bytes) as u64
                    } else {
                        0
                    },
                ),
            },
    {
        proof {
            use_type_invariant(&*self);
        }
        if !live(&self.header, now_ns) || self.header.incarnation != next.incarnation
            || self.header.policy_epoch != next.policy_epoch || self.header.schema_epoch
            != next.schema_epoch || next.suspended || next.retired {
            return Err(expired());
        }
        let ghost start = self@;
        let ghost view = self@.collections;
        let ghost generations = previous@.collections;
        let mut ledger = self.ledger.copy();
        let mut i: usize = 0;
        while i < previous.collections.len()
            invariant
                i <= previous.collections.len(),
                ledger.paths.len() == self.collections.len(),
                self@ == old(self)@,
                start == self@,
                view == roots_view(self.collections@),
                view == start.collections,
                generations == previous@.collections,
                continues(start.header, next@, now_ns),
                collections_changed(start.ledger, view, generations, next@, 0)
                    == collections_changed(ledger@, view, generations, next@, i as int),
            decreases previous.collections.len() - i,
        {
            assert(generations[i as int] == previous.collections@[i as int]@);
            collection_difference(&mut ledger, &self.collections, &previous.collections[i], next)?;
            i = i + 1;
        }
        let ghost middle = ledger@;
        let budget: u64 = next.max_lease_bytes;
        let ids = previous.archives.diff(&next.archives);
        let mut k: usize = 0;
        while k < ids.len()
            invariant
                k <= ids.len(),
                ledger.paths.len() == self.collections.len(),
                self@ == old(self)@,
                start == self@,
                view == roots_view(self.collections@),
                view == start.collections,
                start.archives == self.archives@,
                generations == previous@.collections,
                continues(start.header, next@, now_ns),
                budget == next@.max_lease_bytes,
                ids@ == versions::differences(previous@.archives, next@.archives),
                collections_changed(start.ledger, view, generations, next@, 0) == Ok::<
                    LedgerView,
                    Error,
                >(middle),
                archives_changed(middle, start.archives, ids@, 0, budget) == archives_changed(
                    ledger@,
                    start.archives,
                    ids@,
                    k as int,
                    budget,
                ),
            decreases ids.len() - k,
        {
            archive_difference(&mut ledger, &self.archives, ids[k], budget)?;
            k = k + 1;
        }
        let total: u64 = charge(self.metadata_bytes, ledger.payload_bytes, budget)?;
        let total: u64 = self.paths_charge(&ledger, total, budget)?;
        let total: u64 = charge(
            total,
            path_bytes(self.archives.len() as u64, ledger.archive_paths),
            budget,
        )?;
        let additional: u64 = total.saturating_sub(self.bytes);
        self.ledger = ledger;
        self.bytes = total;
        Ok(additional)
    }
}

} // verus!
