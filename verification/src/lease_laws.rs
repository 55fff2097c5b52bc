//! What leases promise while later generations are published: a lease that goes on holds
//! the very roots that it was opened over, is charged for what it alone retains, and goes
//! only for a reason.
use vstd::prelude::*;

use crate::errors::{Error, ErrorCode};
use crate::heap_accounting;
use crate::lease_manager;
use crate::lease_manager::{LeaseCaller, OpenLease};
use crate::lease_roots;
use crate::lease_roots::{
    GenerationCollectionView, GenerationView, LeaseHeader, LedgerView, RootCollectionView,
    RootsView,
};
use crate::lease_selection;
use crate::lease_selection::{PageAccess, PageSelection, SelectedView};
use crate::page_laws;
use crate::page_laws::{is_lease, is_root};
use crate::versions;

verus! {

/// Whether both are one lease over the same roots, whatever each is charged.
pub open spec fn same_lease(a: RootsView, b: RootsView) -> bool {
    &&& a.header == b.header
    &&& a.collections == b.collections
    &&& a.archives == b.archives
    &&& a.metadata_bytes == b.metadata_bytes
}

/// Whether a lease that was opened then still lasts now.
pub open spec fn in_time(header: LeaseHeader, now_ns: u128) -> bool {
    header.ttl_ms > 0 && now_ns < header.created_ns + header.ttl_ms * 1_000_000
}

/// Whether the lease can go on: it lasts, and the next generation is of the same tenant,
/// under the same policy and schema, and serves reads.
pub open spec fn goes_on(header: LeaseHeader, next: GenerationView, now_ns: u128) -> bool {
    &&& in_time(header, now_ns)
    &&& header.incarnation == next.incarnation
    &&& header.policy_epoch == next.policy_epoch
    &&& header.schema_epoch == next.schema_epoch
    &&& !next.suspended
    &&& !next.retired
}

// ---------------------------------------------------------------------
// One lease
// ---------------------------------------------------------------------

/// A lease that goes into the next generation holds what it held, within the budget of the
/// next generation.
pub proof fn lemma_refreshed(
    roots: RootsView,
    previous: GenerationView,
    next: GenerationView,
    now_ns: u128,
)
    ensures
        match lease_roots::refreshed(roots, previous, next, now_ns) {
            Ok(after) => {
                &&& same_lease(roots, after)
                &&& goes_on(roots.header, next, now_ns)
                &&& after.bytes <= next.max_lease_bytes
                &&& after.bytes >= roots.metadata_bytes + after.ledger.payload_bytes
            },
            Err(e) => {
                ||| !goes_on(roots.header, next, now_ns)
                ||| e == heap_accounting::exhausted()
                ||| exists|i: int|
                    0 <= i < previous.collections.len() && lacks(
                        next,
                        (#[trigger] previous.collections[i]).name,
                    )
            },
        },
        !goes_on(roots.header, next, now_ns) ==> lease_roots::refreshed(
            roots,
            previous,
            next,
            now_ns,
        ) is Err,
{
    if goes_on(roots.header, next, now_ns) {
        lemma_collections_err(roots.ledger, roots.collections, previous.collections, next, 0);
        match lease_roots::collections_changed(
            roots.ledger,
            roots.collections,
            previous.collections,
            next,
            0,
        ) {
            Err(_) => {},
            Ok(ledger) => {
                let ids = versions::differences(previous.archives, next.archives);
                lemma_archives_err(ledger, roots.archives, ids, 0, next.max_lease_bytes);
                match lease_roots::archives_changed(
                    ledger,
                    roots.archives,
                    ids,
                    0,
                    next.max_lease_bytes,
                ) {
                    Err(_) => {},
                    Ok(ledger) => {
                        match heap_accounting::added(
                            roots.metadata_bytes,
                            ledger.payload_bytes,
                            next.max_lease_bytes,
                        ) {
                            Err(_) => {},
                            Ok(total) => {
                                lemma_paths_err(
                                    roots.collections,
                                    ledger.paths,
                                    0,
                                    total,
                                    next.max_lease_bytes,
                                );
                            },
                        }
                    },
                }
            },
        }
    }
}

/// Whether the generation has no collection of the name.
pub open spec fn lacks(next: GenerationView, name: u128) -> bool {
    forall|i: int| 0 <= i < next.collections.len() ==> (#[trigger] next.collections[i]).name != name
}

proof fn lemma_generation(collections: Seq<GenerationCollectionView>, name: u128, i: int)
    requires
        0 <= i <= collections.len(),
    ensures
        match lease_roots::generation_at(collections, name, i) {
            None => forall|j: int| i <= j < collections.len() ==> (#[trigger] collections[j]).name
                != name,
            Some(at) => {
                &&& i <= at < collections.len()
                &&& collections[at].name == name
                &&& forall|j: int| i <= j < at ==> (#[trigger] collections[j]).name != name
            },
        },
    decreases collections.len() - i,
{
    if i < collections.len() {
        lemma_generation(collections, name, i + 1);
    }
}

proof fn lemma_documents_err(
    ledger: LedgerView,
    at: int,
    root: RootCollectionView,
    old: GenerationCollectionView,
    new: GenerationCollectionView,
    ids: Seq<u128>,
    i: int,
    budget: u64,
)
    requires
        0 <= i <= ids.len(),
    ensures
        match lease_roots::documents_changed(ledger, at, root, old, new, ids, i, budget) {
            Err(e) => e == heap_accounting::exhausted(),
            Ok(after) => {
                &&& ledger.payloads.subset_of(after.payloads)
                &&& ledger.payload_bytes <= after.payload_bytes
                &&& forall|k: int|
                    #![trigger ids[k]]
                    i <= k < ids.len() && root.documents.dom().contains(ids[k])
                        && new.documents.get(ids[k]) != Some(root.documents[ids[k]].version)
                        ==> after.payloads.contains((0u8, root.name, ids[k]))
            },
        },
    decreases ids.len() - i,
{
    if i < ids.len() {
        match lease_roots::document_changed(ledger, at, root, old, new, ids[i], budget) {
            Err(_) => {},
            Ok(next) => {
                lemma_documents_err(next, at, root, old, new, ids, i + 1, budget);
            },
        }
    }
}

proof fn lemma_references_err(
    ledger: LedgerView,
    at: int,
    root: RootCollectionView,
    old: GenerationCollectionView,
    new: GenerationCollectionView,
    ids: Seq<u128>,
    i: int,
    budget: u64,
)
    requires
        0 <= i <= ids.len(),
    ensures
        match lease_roots::references_changed(ledger, at, root, old, new, ids, i, budget) {
            Err(e) => e == heap_accounting::exhausted(),
            Ok(after) => {
                &&& ledger.payloads.subset_of(after.payloads)
                &&& ledger.payload_bytes <= after.payload_bytes
                &&& forall|k: int|
                    #![trigger ids[k]]
                    i <= k < ids.len() && root.archived.dom().contains(ids[k]) && new.archived.get(
                        ids[k],
                    ) != Some(root.archived[ids[k]].version) ==> after.payloads.contains(
                        (1u8, root.name, ids[k]),
                    )
            },
        },
    decreases ids.len() - i,
{
    if i < ids.len() {
        match lease_roots::reference_changed(ledger, at, root, old, new, ids[i], budget) {
            Err(_) => {},
            Ok(next) => {
                lemma_references_err(next, at, root, old, new, ids, i + 1, budget);
            },
        }
    }
}

proof fn lemma_archives_err(
    ledger: LedgerView,
    archives: Map<u128, u64>,
    ids: Seq<u128>,
    i: int,
    budget: u64,
)
    requires
        0 <= i <= ids.len(),
    ensures
        match lease_roots::archives_changed(ledger, archives, ids, i, budget) {
            Err(e) => e == heap_accounting::exhausted(),
            Ok(after) => {
                &&& ledger.payloads.subset_of(after.payloads)
                &&& ledger.payload_bytes <= after.payload_bytes
                &&& forall|k: int|
                    #![trigger ids[k]]
                    i <= k < ids.len() && archives.dom().contains(ids[k])
                        ==> after.payloads.contains((2u8, 0u128, ids[k]))
            },
        },
    decreases ids.len() - i,
{
    if i < ids.len() {
        match lease_roots::archive_changed(ledger, archives, ids[i], budget) {
            Err(_) => {},
            Ok(next) => {
                lemma_archives_err(next, archives, ids, i + 1, budget);
            },
        }
    }
}

proof fn lemma_collection_err(
    ledger: LedgerView,
    roots: Seq<RootCollectionView>,
    old: GenerationCollectionView,
    next: GenerationView,
)
    ensures
        match lease_roots::collection_changed(ledger, roots, old, next) {
            Err(e) => e == heap_accounting::exhausted() || lacks(next, old.name),
            Ok(after) => {
                &&& !lacks(next, old.name)
                &&& ledger.payloads.subset_of(after.payloads)
                &&& ledger.payload_bytes <= after.payload_bytes
            },
        },
{
    lemma_generation(next.collections, old.name, 0);
    match lease_roots::generation_at(next.collections, old.name, 0) {
        None => {},
        Some(k) => {
            assert(next.collections[k].name == old.name);
            match lease_roots::root_at(roots, old.name, 0) {
                None => {},
                Some(at) => {
                    let new = next.collections[k];
                    let hot = versions::differences(old.documents, new.documents);
                    let cold = versions::differences(old.archived, new.archived);
                    let budget = next.max_lease_bytes;
                    lemma_documents_err(ledger, at, roots[at], old, new, hot, 0, budget);
                    match lease_roots::documents_changed(
                        ledger,
                        at,
                        roots[at],
                        old,
                        new,
                        hot,
                        0,
                        budget,
                    ) {
                        Err(_) => {},
                        Ok(between) => {
                            lemma_references_err(
                                between,
                                at,
                                roots[at],
                                old,
                                new,
                                cold,
                                0,
                                budget,
                            );
                        },
                    }
                },
            }
        },
    }
}

proof fn lemma_collections_err(
    ledger: LedgerView,
    roots: Seq<RootCollectionView>,
    previous: Seq<GenerationCollectionView>,
    next: GenerationView,
    i: int,
)
    requires
        0 <= i <= previous.len(),
    ensures
        match lease_roots::collections_changed(ledger, roots, previous, next, i) {
            Err(e) => e == heap_accounting::exhausted() || exists|k: int|
                i <= k < previous.len() && lacks(next, (#[trigger] previous[k]).name),
            Ok(after) => {
                &&& ledger.payloads.subset_of(after.payloads)
                &&& ledger.payload_bytes <= after.payload_bytes
                &&& forall|k: int|
                    i <= k < previous.len() ==> !lacks(next, (#[trigger] previous[k]).name)
            },
        },
    decreases previous.len() - i,
{
    if i < previous.len() {
        lemma_collection_err(ledger, roots, previous[i], next);
        match lease_roots::collection_changed(ledger, roots, previous[i], next) {
            Err(_) => {
                assert(previous[i].name == previous[i].name);
            },
            Ok(between) => {
                lemma_collections_err(between, roots, previous, next, i + 1);
            },
        }
    }
}

proof fn lemma_paths_err(
    roots: Seq<RootCollectionView>,
    paths: Seq<crate::lease_roots::Paths>,
    i: int,
    total: u64,
    budget: u64,
)
    requires
        0 <= i <= roots.len(),
    ensures
        match lease_roots::all_paths_total(roots, paths, i, total, budget) {
            Err(e) => e == heap_accounting::exhausted(),
            Ok(after) => total <= after,
        },
    decreases roots.len() - i,
{
    if i < roots.len() {
        match lease_roots::paths_total(roots[i], paths[i], total, budget) {
            Err(_) => {},
            Ok(more) => {
                lemma_paths_err(roots, paths, i + 1, more, budget);
            },
        }
    }
}

/// What a lease alone retains is charged to it: a document or a reference of its roots
/// that a publication changes, and that the new generation no longer shares, is among its
/// charged payloads from then on. What was charged stays charged.
pub proof fn lemma_diverged_charged(
    roots: RootsView,
    previous: GenerationView,
    next: GenerationView,
    now_ns: u128,
    i: int,
    at: int,
    k: int,
    hot: Seq<u128>,
    cold: Seq<u128>,
    id: u128,
)
    requires
        lease_roots::refreshed(roots, previous, next, now_ns) is Ok,
        0 <= i < previous.collections.len(),
        is_root(roots, previous.collections[i].name, at),
        0 <= k < next.collections.len(),
        next.collections[k].name == previous.collections[i].name,
        forall|j: int| 0 <= j < k ==> (#[trigger] next.collections[j]).name
            != previous.collections[i].name,
        versions::are_differences(
            hot,
            previous.collections[i].documents,
            next.collections[k].documents,
        ),
        versions::are_differences(
            cold,
            previous.collections[i].archived,
            next.collections[k].archived,
        ),
    ensures
        ({
            let after = lease_roots::refreshed(roots, previous, next, now_ns)->Ok_0.ledger;
            let old = previous.collections[i];
            let new = next.collections[k];
            let root = roots.collections[at];
            &&& roots.ledger.payloads.subset_of(after.payloads)
            &&& roots.ledger.payload_bytes <= after.payload_bytes
            &&& old.documents.get(id) != new.documents.get(id) && root.documents.dom().contains(id)
                && new.documents.get(id) != Some(root.documents[id].version)
                ==> after.payloads.contains((0u8, root.name, id))
            &&& old.archived.get(id) != new.archived.get(id) && root.archived.dom().contains(id)
                && new.archived.get(id) != Some(root.archived[id].version)
                ==> after.payloads.contains((1u8, root.name, id))
        }),
{
    let old = previous.collections[i];
    let new = next.collections[k];
    assert(versions::are_differences(
        versions::differences(old.documents, new.documents),
        old.documents,
        new.documents,
    ));
    assert(versions::are_differences(
        versions::differences(old.archived, new.archived),
        old.archived,
        new.archived,
    ));
    lemma_diverged_from(
        roots.ledger,
        roots.collections,
        previous.collections,
        next,
        0,
        i,
        at,
        k,
        id,
    );
    let ledger = lease_roots::collections_changed(
        roots.ledger,
        roots.collections,
        previous.collections,
        next,
        0,
    )->Ok_0;
    lemma_archives_err(
        ledger,
        roots.archives,
        versions::differences(previous.archives, next.archives),
        0,
        next.max_lease_bytes,
    );
}

/// Whether what the collection's roots alone hold of the document is charged.
pub open spec fn document_charged(
    root: RootCollectionView,
    old: GenerationCollectionView,
    new: GenerationCollectionView,
    id: u128,
    ledger: LedgerView,
) -> bool {
    &&& old.documents.get(id) != new.documents.get(id) && root.documents.dom().contains(id)
        && new.documents.get(id) != Some(root.documents[id].version) ==> ledger.payloads.contains(
        (0u8, root.name, id),
    )
    &&& old.archived.get(id) != new.archived.get(id) && root.archived.dom().contains(id)
        && new.archived.get(id) != Some(root.archived[id].version) ==> ledger.payloads.contains(
        (1u8, root.name, id),
    )
}

proof fn lemma_diverged_one(
    ledger: LedgerView,
    roots: Seq<RootCollectionView>,
    old: GenerationCollectionView,
    next: GenerationView,
    at: int,
    k: int,
    id: u128,
)
    requires
        lease_roots::generation_at(next.collections, old.name, 0) == Some(k),
        lease_roots::root_at(roots, old.name, 0) == Some(at),
        lease_roots::collection_changed(ledger, roots, old, next) is Ok,
        versions::are_differences(
            versions::differences(old.documents, next.collections[k].documents),
            old.documents,
            next.collections[k].documents,
        ),
        versions::are_differences(
            versions::differences(old.archived, next.collections[k].archived),
            old.archived,
            next.collections[k].archived,
        ),
    ensures
        document_charged(
            roots[at],
            old,
            next.collections[k],
            id,
            lease_roots::collection_changed(ledger, roots, old, next)->Ok_0,
        ),
{
    let new = next.collections[k];
    let budget = next.max_lease_bytes;
    let hot = versions::differences(old.documents, new.documents);
    let cold = versions::differences(old.archived, new.archived);
    lemma_documents_err(ledger, at, roots[at], old, new, hot, 0, budget);
    let between = lease_roots::documents_changed(
        ledger,
        at,
        roots[at],
        old,
        new,
        hot,
        0,
        budget,
    )->Ok_0;
    lemma_references_err(between, at, roots[at], old, new, cold, 0, budget);
    if old.documents.get(id) != new.documents.get(id) {
        assert(hot.contains(id));
        let n = choose|n: int| 0 <= n < hot.len() && hot[n] == id;
        assert(hot[n] == id);
    }
    if old.archived.get(id) != new.archived.get(id) {
        assert(cold.contains(id));
        let n = choose|n: int| 0 <= n < cold.len() && cold[n] == id;
        assert(cold[n] == id);
    }
}

proof fn lemma_diverged_from(
    ledger: LedgerView,
    roots: Seq<RootCollectionView>,
    previous: Seq<GenerationCollectionView>,
    next: GenerationView,
    from: int,
    i: int,
    at: int,
    k: int,
    id: u128,
)
    requires
        0 <= from <= i < previous.len(),
        lease_roots::collections_changed(ledger, roots, previous, next, from) is Ok,
        0 <= at < roots.len(),
        roots[at].name == previous[i].name,
        forall|j: int| 0 <= j < at ==> (#[trigger] roots[j]).name != previous[i].name,
        0 <= k < next.collections.len(),
        next.collections[k].name == previous[i].name,
        forall|j: int| 0 <= j < k ==> (#[trigger] next.collections[j]).name != previous[i].name,
        versions::are_differences(
            versions::differences(previous[i].documents, next.collections[k].documents),
            previous[i].documents,
            next.collections[k].documents,
        ),
        versions::are_differences(
            versions::differences(previous[i].archived, next.collections[k].archived),
            previous[i].archived,
            next.collections[k].archived,
        ),
    ensures
        ({
            let after = lease_roots::collections_changed(ledger, roots, previous, next, from)->Ok_0;
            &&& ledger.payloads.subset_of(after.payloads)
            &&& ledger.payload_bytes <= after.payload_bytes
            &&& document_charged(roots[at], previous[i], next.collections[k], id, after)
        }),
    decreases i - from,
{
    lemma_collection_err(ledger, roots, previous[from], next);
    let between = lease_roots::collection_changed(ledger, roots, previous[from], next)->Ok_0;
    if from < i {
        lemma_diverged_from(between, roots, previous, next, from + 1, i, at, k, id);
    } else {
        lemma_generation(next.collections, previous[i].name, 0);
        let found = lease_roots::generation_at(next.collections, previous[i].name, 0)->0;
        assert(next.collections[found].name == previous[i].name);
        assert(next.collections[k].name == previous[i].name);
        assert(found == k);
        page_laws::lemma_root(roots, previous[i].name, 0);
        let root = lease_roots::root_at(roots, previous[i].name, 0)->0;
        assert(roots[at].name == previous[i].name);
        assert(roots[root].name == previous[i].name);
        assert(root == at);
        lemma_diverged_one(ledger, roots, previous[i], next, at, k, id);
        lemma_collections_err(between, roots, previous, next, from + 1);
    }
}

// ---------------------------------------------------------------------
// All leases
// ---------------------------------------------------------------------

/// Whether the lease is one of the leases.
pub open spec fn among(entries: Seq<RootsView>, roots: RootsView) -> bool {
    exists|i: int| 0 <= i < entries.len() && same_lease(#[trigger] entries[i], roots)
}

proof fn lemma_survivors(
    entries: Seq<RootsView>,
    previous: GenerationView,
    next: GenerationView,
    now_ns: u128,
    n: int,
)
    requires
        0 <= n <= entries.len(),
    ensures
        ({
            let kept = lease_manager::survivors(entries, previous, next, now_ns, n);
            &&& kept.len() <= n
            &&& forall|j: int|
                0 <= j < kept.len() ==> among(entries, #[trigger] kept[j]) && goes_on(
                    kept[j].header,
                    next,
                    now_ns,
                ) && kept[j].bytes <= next.max_lease_bytes
            &&& forall|i: int|
                0 <= i < n && lease_roots::refreshed(
                    #[trigger] entries[i],
                    previous,
                    next,
                    now_ns,
                ) is Ok ==> kept.contains(
                    lease_roots::refreshed(entries[i], previous, next, now_ns)->Ok_0,
                )
        }),
    decreases n,
{
    if n > 0 {
        lemma_survivors(entries, previous, next, now_ns, n - 1);
        lemma_refreshed(entries[n - 1], previous, next, now_ns);
        let before = lease_manager::survivors(entries, previous, next, now_ns, n - 1);
        let kept = lease_manager::survivors(entries, previous, next, now_ns, n);
        match lease_roots::refreshed(entries[n - 1], previous, next, now_ns) {
            Err(_) => {},
            Ok(roots) => {
                assert(same_lease(entries[n - 1], roots));
                assert forall|j: int| 0 <= j < kept.len() implies among(entries, #[trigger] kept[j])
                    && goes_on(kept[j].header, next, now_ns) && kept[j].bytes
                    <= next.max_lease_bytes by {
                    if j < before.len() {
                        assert(kept[j] == before[j]);
                    }
                }
                assert forall|i: int|
                    0 <= i < n && lease_roots::refreshed(
                        #[trigger] entries[i],
                        previous,
                        next,
                        now_ns,
                    ) is Ok implies kept.contains(
                    lease_roots::refreshed(entries[i], previous, next, now_ns)->Ok_0,
                ) by {
                    let one = lease_roots::refreshed(entries[i], previous, next, now_ns)->Ok_0;
                    if i < n - 1 {
                        assert(before.contains(one));
                        let m = choose|m: int| 0 <= m < before.len() && before[m] == one;
                        assert(kept[m] == one);
                    } else {
                        assert(kept[before.len() as int] == one);
                    }
                }
            },
        }
    }
}

proof fn lemma_oldest(entries: Seq<RootsView>, n: int)
    requires
        1 <= n <= entries.len(),
    ensures
        0 <= lease_manager::oldest(entries, n) < n,
        forall|i: int|
            0 <= i < n ==> entries[lease_manager::oldest(entries, n)].header.created_ns <= (
            #[trigger] entries[i]).header.created_ns,
    decreases n,
{
    if n > 1 {
        lemma_oldest(entries, n - 1);
    }
}

/// The leases that are dropped for want of room are the oldest: none that stays was opened
/// before one that goes. Where there is room for all, all stay.
pub proof fn lemma_oldest_go(entries: Seq<RootsView>, total: u64, budget: u64, max_leases: u64)
    ensures
        ({
            let kept = lease_manager::bounded(entries, total, budget, max_leases);
            &&& forall|j: int|
                0 <= j < kept.len() ==> entries.contains(#[trigger] kept[j])
            &&& forall|i: int, j: int|
                0 <= i < entries.len() && 0 <= j < kept.len() && !kept.contains(
                    #[trigger] entries[i],
                ) ==> entries[i].header.created_ns <= (#[trigger] kept[j]).header.created_ns
            &&& total <= budget && entries.len() <= max_leases ==> kept == entries
        }),
    decreases entries.len(),
{
    if !(entries.len() == 0 || (total <= budget && entries.len() <= max_leases)) {
        let at = lease_manager::oldest(entries, entries.len() as int);
        lemma_oldest(entries, entries.len() as int);
        let rest = entries.remove(at);
        let less = lease_manager::minus(total, lease_manager::lease_bytes(entries[at]));
        lemma_oldest_go(rest, less, budget, max_leases);
        let kept = lease_manager::bounded(rest, less, budget, max_leases);
        assert(lease_manager::bounded(entries, total, budget, max_leases) == kept);
        assert forall|j: int| 0 <= j < rest.len() implies entries.contains(#[trigger] rest[j]) by {
            assert(rest[j] == entries[if j < at {
                j
            } else {
                j + 1
            }]);
        }
        assert forall|j: int| 0 <= j < kept.len() implies entries.contains(#[trigger] kept[j]) by {
            assert(rest.contains(kept[j]));
            let m = choose|m: int| 0 <= m < rest.len() && rest[m] == kept[j];
            assert(entries.contains(rest[m]));
        }
        assert forall|i: int, j: int|
            0 <= i < entries.len() && 0 <= j < kept.len() && !kept.contains(
                #[trigger] entries[i],
            ) implies entries[i].header.created_ns <= (
        #[trigger] kept[j]).header.created_ns by {
            if i == at {
                assert(entries.contains(kept[j]));
                let m = choose|m: int| 0 <= m < entries.len() && entries[m] == kept[j];
                assert(entries[at].header.created_ns <= entries[m].header.created_ns);
            } else {
                let n = if i < at {
                    i
                } else {
                    i - 1
                };
                assert(rest[n] == entries[i]);
            }
        }
    } else {
        let kept = lease_manager::bounded(entries, total, budget, max_leases);
        assert(kept == entries);
        assert forall|j: int| 0 <= j < kept.len() implies entries.contains(#[trigger] kept[j]) by {
            assert(entries[j] == kept[j]);
        }
        assert forall|i: int, j: int|
            0 <= i < entries.len() && 0 <= j < kept.len() && !kept.contains(
                #[trigger] entries[i],
            ) implies entries[i].header.created_ns <= (
        #[trigger] kept[j]).header.created_ns by {
            assert(kept[i] == entries[i]);
        }
    }
}

/// Behind a publication every lease is one that was there, over the very roots that it
/// was opened over, can go on, and was not refused its reservation. No more are left than
/// there may be.
pub proof fn lemma_published(
    entries: Seq<RootsView>,
    previous: GenerationView,
    next: GenerationView,
    now_ns: u128,
    refused: Seq<u128>,
)
    ensures
        ({
            let kept = lease_manager::unrefused(
                lease_manager::survivors(
                    entries,
                    previous,
                    next,
                    now_ns,
                    entries.len() as int,
                ),
                refused,
            );
            let after = lease_manager::bounded(
                kept,
                lease_manager::charged(kept, kept.len() as int, 0),
                next.max_lease_bytes,
                next.max_leases,
            );
            &&& after.len() <= next.max_leases
            &&& forall|j: int|
                0 <= j < after.len() ==> among(entries, #[trigger] after[j]) && goes_on(
                    after[j].header,
                    next,
                    now_ns,
                ) && !refused.contains(after[j].header.lease_id) && after[j].bytes
                    <= next.max_lease_bytes
        }),
{
    let n = entries.len() as int;
    lemma_survivors(entries, previous, next, now_ns, n);
    let through = lease_manager::survivors(entries, previous, next, now_ns, n);
    let keep = |roots: RootsView| !refused.contains(roots.header.lease_id);
    let kept = lease_manager::unrefused(through, refused);
    let total = lease_manager::charged(kept, kept.len() as int, 0);
    lease_manager::lemma_bounded(kept, total, next.max_lease_bytes, next.max_leases);
    lemma_oldest_go(kept, total, next.max_lease_bytes, next.max_leases);
    let after = lease_manager::bounded(kept, total, next.max_lease_bytes, next.max_leases);
    assert forall|j: int| 0 <= j < after.len() implies among(entries, #[trigger] after[j])
        && goes_on(after[j].header, next, now_ns) && !refused.contains(after[j].header.lease_id)
        && after[j].bytes <= next.max_lease_bytes by {
        broadcast use Seq::lemma_filter_pred, Seq::lemma_filter_contains_rev;

        assert(kept.contains(after[j]));
        let m = choose|m: int| 0 <= m < kept.len() && kept[m] == after[j];
        assert(keep(through.filter(keep)[m]));
        assert(through.filter(keep).contains(after[j]));
        assert(through.contains(after[j]));
        let x = choose|x: int| 0 <= x < through.len() && through[x] == after[j];
        assert(among(entries, through[x]));
    }
}

/// A lease that can go on, and is not refused its reservation, stays where there is room
/// for all.
pub proof fn lemma_stays_where_there_is_room(
    entries: Seq<RootsView>,
    previous: GenerationView,
    next: GenerationView,
    now_ns: u128,
    refused: Seq<u128>,
    i: int,
)
    requires
        0 <= i < entries.len(),
        lease_roots::refreshed(entries[i], previous, next, now_ns) is Ok,
        !refused.contains(entries[i].header.lease_id),
        ({
            let kept = lease_manager::unrefused(
                lease_manager::survivors(
                    entries,
                    previous,
                    next,
                    now_ns,
                    entries.len() as int,
                ),
                refused,
            );
            lease_manager::whole_charge(kept) <= next.max_lease_bytes
        }),
        entries.len() <= next.max_leases,
    ensures
        ({
            let kept = lease_manager::unrefused(
                lease_manager::survivors(
                    entries,
                    previous,
                    next,
                    now_ns,
                    entries.len() as int,
                ),
                refused,
            );
            let after = lease_manager::bounded(
                kept,
                lease_manager::charged(kept, kept.len() as int, 0),
                next.max_lease_bytes,
                next.max_leases,
            );
            among(after, entries[i])
        }),
{
    broadcast use Seq::lemma_filter_contains, Seq::lemma_filter_len;

    let n = entries.len() as int;
    lemma_survivors(entries, previous, next, now_ns, n);
    lemma_refreshed(entries[i], previous, next, now_ns);
    let through = lease_manager::survivors(entries, previous, next, now_ns, n);
    let keep = |roots: RootsView| !refused.contains(roots.header.lease_id);
    let kept = lease_manager::unrefused(through, refused);
    let one = lease_roots::refreshed(entries[i], previous, next, now_ns)->Ok_0;
    assert(through.contains(one));
    let x = choose|x: int| 0 <= x < through.len() && through[x] == one;
    assert(keep(through[x]));
    assert(through.filter(keep).contains(through[x]));
    assert(kept.contains(one));
    lemma_charge(kept, kept.len() as int);
    assert(kept.take(kept.len() as int) =~= kept);
    let m = choose|m: int| 0 <= m < kept.len() && kept[m] == one;
    assert(same_lease(kept[m], entries[i]));
}

proof fn lemma_charge(entries: Seq<RootsView>, n: int)
    requires
        0 <= n <= entries.len(),
    ensures
        lease_manager::charged(entries, n, 0) <= lease_manager::whole_charge(entries.take(n)),
        lease_manager::whole_charge(entries.take(n)) >= 0,
    decreases n,
{
    if n > 0 {
        assert(entries.take(n).drop_last() =~= entries.take(n - 1));
        assert(entries.take(n).last() == entries[n - 1]);
        lemma_charge(entries, n - 1);
    }
}

/// A lease's pages are the same for as long as it goes on: whatever is published
/// meanwhile, the same request under the same access selects the same page.
pub proof fn lemma_page_stands(
    before: Seq<RootsView>,
    after: Seq<RootsView>,
    caller: LeaseCaller,
    id: u128,
    request: PageSelection,
    a: PageAccess,
    i: int,
    j: int,
)
    requires
        is_lease(before, id, i),
        is_lease(after, id, j),
        same_lease(before[i], after[j]),
    ensures
        lease_selection::selected(before, caller, id, request, a) == lease_selection::selected(
            after,
            caller,
            id,
            request,
            a,
        ),
{
    page_laws::lemma_lease_used(before, caller, id, i);
    page_laws::lemma_lease_used(after, caller, id, j);
    lemma_select_stands(before[i], after[j], id, request, a);
    page_laws::lemma_lease(before, id, 0);
    page_laws::lemma_lease(after, id, 0);
}

proof fn lemma_carry_stands(
    x: RootsView,
    y: RootsView,
    carried: crate::lease_selection::CarriedView,
    points: Seq<crate::lease_selection::Point>,
    i: int,
    refusals: Seq<crate::lease_selection::ReadRefusal>,
    node_bytes: u64,
    node_refusal: Error,
)
    requires
        same_lease(x, y),
    ensures
        lease_selection::carry_all(x, carried, points, i, refusals, node_bytes, node_refusal)
            == lease_selection::carry_all(
            y,
            carried,
            points,
            i,
            refusals,
            node_bytes,
            node_refusal,
        ),
    decreases points.len() - i,
{
    if 0 <= i < points.len() {
        match lease_selection::carry(x, carried, points[i], refusals, node_bytes, node_refusal) {
            Err(_) => {},
            Ok(next) => {
                lemma_carry_stands(
                    x,
                    y,
                    next,
                    points,
                    i + 1,
                    refusals,
                    node_bytes,
                    node_refusal,
                );
            },
        }
    }
}

proof fn lemma_select_stands(
    x: RootsView,
    y: RootsView,
    id: u128,
    request: PageSelection,
    a: PageAccess,
)
    requires
        same_lease(x, y),
    ensures
        lease_selection::selected_from(x, id, request, a) == lease_selection::selected_from(
            y,
            id,
            request,
            a,
        ),
{
    assert forall|points: Seq<crate::lease_selection::Point>, scan: crate::lease_selection::ScannedView|
        #[trigger] lease_selection::page_of(x, points, scan, a) == lease_selection::page_of(
        y,
        points,
        scan,
        a,
    ) by {
        let start = crate::lease_selection::CarriedView {
            collections: Seq::empty(),
            documents: Seq::empty(),
            archived: Seq::empty(),
            archives: Seq::empty(),
            retained: x.metadata_bytes,
            reserved: lease_selection::initial_bytes(x, a.max_result_bytes),
        };
        lemma_carry_stands(
            x,
            y,
            start,
            points,
            0,
            a.read_refusals@,
            a.node_bytes,
            a.node_refusal,
        );
    }
}

// ---------------------------------------------------------------------
// Opening
// ---------------------------------------------------------------------

/// A lease is left to stand exactly while memory is not short, it lasts, and its term is the
/// current one; and no other lease comes in.
pub proof fn lemma_left(
    entries: Seq<RootsView>,
    pressured: bool,
    term: u64,
    now_ns: u128,
    roots: RootsView,
)
    ensures
        lease_manager::idle(entries, pressured, term, now_ns).contains(roots) <==> {
            &&& entries.contains(roots)
            &&& !pressured
            &&& in_time(roots.header, now_ns)
            &&& roots.header.term == term
        },
        pressured ==> lease_manager::idle(entries, pressured, term, now_ns).len() == 0,
{
    let keep = |roots: RootsView| lease_manager::stays(roots, pressured, term, now_ns);
    crate::history_laws::lemma_filter_holds(entries, keep, roots);
    if pressured {
        let kept = entries.filter(keep);
        if kept.len() > 0 {
            crate::history_laws::lemma_filter_holds(entries, keep, kept[0]);
            assert(kept.contains(kept[0]));
        }
    }
}

/// Whether the lease stays beside one that is opened: it lasts, and is of the same term.
pub open spec fn remains(roots: RootsView, request: OpenLease) -> bool {
    in_time(roots.header, request.caller.now_ns) && roots.header.term == request.caller.term
}

/// A lease is opened over the very roots that were handed in, under its own identity, for
/// the caller who asked and for as long as it asked, and nothing refuses it. Every other
/// lease that remains is left as it is; what is opened or refused brings in no other.
pub proof fn lemma_opened(
    before: Seq<RootsView>,
    after: Seq<RootsView>,
    request: OpenLease,
    metadata: Result<u64, Error>,
    collections: Seq<RootCollectionView>,
    archives: Map<u128, u64>,
    id: u128,
    r: Result<LeaseHeader, Error>,
)
    requires
        lease_manager::ascend(before),
        lease_manager::opened_as(
            before,
            after,
            request,
            metadata,
            collections,
            archives,
            id,
            r,
        ),
    ensures
        r matches Ok(header) ==> {
            &&& request.caller.discovery_refusal is None
            &&& 0 < request.ttl_ms <= request.max_ttl_ms
            &&& request.node_refusal is None
            &&& request.live_refusal is None
            &&& metadata is Ok
            &&& header.lease_id == id
            &&& header.revision == request.revision
            &&& header.incarnation == request.caller.incarnation
            &&& header.policy_epoch == request.caller.policy_epoch
            &&& header.schema_epoch == request.caller.schema_epoch
            &&& header.principal == request.caller.principal
            &&& header.term == request.caller.term
            &&& header.ttl_ms == request.ttl_ms
            &&& header.created_ns == request.caller.now_ns
            &&& header.strict_read_audit == request.strict_read_audit
            &&& exists|at: int| #[trigger]
                is_lease(after, id, at) && after[at].header == header && after[at].collections
                    == collections && after[at].archives == archives
            &&& after.len() <= request.max_leases
        },
        r is Ok || lease_manager::open_refusal(request) is None ==> forall|i: int|
            0 <= i < before.len() && remains(#[trigger] before[i], request)
                && before[i].header.lease_id != id ==> after.contains(before[i]),
        forall|j: int|
            0 <= j < after.len() && (#[trigger] after[j]).header.lease_id != id ==> before.contains(
                after[j],
            ),
        r is Err ==> forall|j: int| 0 <= j < after.len() ==> before.contains(#[trigger] after[j]),
        lease_manager::open_refusal(request) is Some ==> after == before,
{
    broadcast use Seq::lemma_filter_pred, Seq::lemma_filter_contains_rev, Seq::lemma_filter_contains;

    if lease_manager::open_refusal(request) is None {
        let now = request.caller.now_ns;
        let term = request.caller.term;
        let keep = |roots: RootsView| lease_manager::stays(roots, false, term, now);
        let stay = lease_manager::idle(before, false, term, now);
        lease_manager::lemma_leases_ascend(
            before,
            arbitrary(),
            arbitrary(),
            now,
            Seq::empty(),
            arbitrary(),
            false,
            term,
            0,
        );
        assert forall|i: int|
            0 <= i < before.len() && remains(#[trigger] before[i], request) implies stay.contains(
            before[i],
        ) by {
            assert(keep(before[i]));
            assert(before.filter(keep).contains(before[i]));
        }
        assert forall|j: int| 0 <= j < stay.len() implies before.contains(#[trigger] stay[j]) by {
            assert(before.filter(keep).contains(stay[j]));
        }
        if r is Ok {
            let bytes = lease_manager::open_admitted(stay, request, metadata)->Ok_0;
            let roots = RootsView {
                header: lease_manager::header_of(request, id),
                collections,
                archives,
                ledger: lease_roots::blank(collections.len()),
                metadata_bytes: bytes,
                bytes,
            };
            lemma_entered(stay, roots);
            let at = choose|at: int|
                0 <= at < after.len() && after[at] == roots && forall|i: int|
                    0 <= i < at ==> (#[trigger] after[i]).header.lease_id != id;
            assert(is_lease(after, id, at));
            assert forall|i: int|
                0 <= i < before.len() && remains(#[trigger] before[i], request)
                    && before[i].header.lease_id != id implies after.contains(before[i]) by {
                assert(stay.contains(before[i]));
            }
            assert forall|j: int|
                0 <= j < after.len() && (#[trigger] after[j]).header.lease_id
                    != id implies before.contains(after[j]) by {
                assert(after.contains(after[j]));
                assert(stay.contains(after[j]));
                let m = choose|m: int| 0 <= m < stay.len() && stay[m] == after[j];
                assert(before.contains(stay[m]));
            }
        } else {
            assert forall|j: int| 0 <= j < after.len() implies before.contains(
                #[trigger] after[j],
            ) by {
                assert(stay[j] == after[j]);
            }
        }
    } else {
        assert forall|j: int| 0 <= j < after.len() implies before.contains(#[trigger] after[j]) by {
            assert(before[j] == after[j]);
        }
    }
}

/// What entering a lease makes of ascending leases.
proof fn lemma_entered(entries: Seq<RootsView>, roots: RootsView)
    requires
        lease_manager::ascend(entries),
    ensures
        ({
            let after = lease_manager::entered(entries, roots);
            &&& exists|at: int|
                0 <= at < after.len() && after[at] == roots && forall|i: int|
                    0 <= i < at ==> (#[trigger] after[i]).header.lease_id != roots.header.lease_id
            &&& after.len() <= entries.len() + 1
            &&& forall|x: RootsView| #[trigger]
                after.contains(x) <==> x == roots || (entries.contains(x) && x.header.lease_id
                    != roots.header.lease_id)
        }),
    decreases entries.len(),
{
    let after = lease_manager::entered(entries, roots);
    let id = roots.header.lease_id;
    if entries.len() == 0 {
        assert(after[0] == roots);
    } else {
        let rest = entries.drop_first();
        assert(lease_manager::ascend(rest)) by {
            assert forall|i: int, j: int| 0 <= i < j < rest.len() implies (
            #[trigger] rest[i]).header.lease_id < (#[trigger] rest[j]).header.lease_id by {
                assert(rest[i] == entries[i + 1] && rest[j] == entries[j + 1]);
            }
        }
        if entries[0].header.lease_id == id || id < entries[0].header.lease_id {
            let tail = if entries[0].header.lease_id == id {
                rest
            } else {
                entries
            };
            assert(after =~= seq![roots] + tail);
            assert(after[0] == roots);
            assert forall|x: RootsView| #[trigger] after.contains(x) <==> x == roots || (
            entries.contains(x) && x.header.lease_id != id) by {
                if after.contains(x) {
                    let m = choose|m: int| 0 <= m < after.len() && after[m] == x;
                    if m > 0 {
                        assert(tail[m - 1] == x);
                        if entries[0].header.lease_id == id {
                            assert(entries[m] == x);
                            assert(entries[0].header.lease_id < entries[m].header.lease_id);
                        } else {
                            assert(entries[m - 1] == x);
                            if m > 1 {
                                assert(entries[0].header.lease_id
                                    < entries[m - 1].header.lease_id);
                            }
                        }
                    }
                }
                if entries.contains(x) && x.header.lease_id != id {
                    let m = choose|m: int| 0 <= m < entries.len() && entries[m] == x;
                    if entries[0].header.lease_id == id {
                        assert(after[m] == x);
                    } else {
                        assert(after[m + 1] == x);
                    }
                }
            }
        } else {
            lemma_entered(rest, roots);
            let placed = lease_manager::entered(rest, roots);
            assert(after =~= seq![entries[0]] + placed);
            let at = choose|at: int|
                0 <= at < placed.len() && placed[at] == roots && forall|i: int|
                    0 <= i < at ==> (#[trigger] placed[i]).header.lease_id != id;
            assert(after[at + 1] == roots);
            assert forall|i: int| 0 <= i < at + 1 implies (#[trigger] after[i]).header.lease_id
                != id by {
                if i > 0 {
                    assert(after[i] == placed[i - 1]);
                }
            }
            assert forall|x: RootsView| #[trigger] after.contains(x) <==> x == roots || (
            entries.contains(x) && x.header.lease_id != id) by {
                assert(after[0] == entries[0]);
                if after.contains(x) {
                    let m = choose|m: int| 0 <= m < after.len() && after[m] == x;
                    if m > 0 {
                        assert(placed[m - 1] == x);
                        assert(placed.contains(x));
                        if rest.contains(x) {
                            let n = choose|n: int| 0 <= n < rest.len() && rest[n] == x;
                            assert(entries[n + 1] == x);
                        }
                    }
                }
                if placed.contains(x) {
                    let m = choose|m: int| 0 <= m < placed.len() && placed[m] == x;
                    assert(after[m + 1] == x);
                }
                if entries.contains(x) && x.header.lease_id != id {
                    let m = choose|m: int| 0 <= m < entries.len() && entries[m] == x;
                    if m > 0 {
                        assert(rest[m - 1] == x);
                        assert(placed.contains(x));
                    }
                }
                if x == roots {
                    assert(placed.contains(x));
                }
            }
        }
    }
}

/// A lease is owed to a caller who may discover the tenant and asks for a time within
/// bounds, where its metadata is charged, the leases that remain leave room for it, and
/// neither the node nor its credential refuses it.
pub proof fn lemma_open_owed(
    before: Seq<RootsView>,
    after: Seq<RootsView>,
    request: OpenLease,
    bytes: u64,
    collections: Seq<RootCollectionView>,
    archives: Map<u128, u64>,
    id: u128,
    r: Result<LeaseHeader, Error>,
)
    requires
        lease_manager::opened_as(
            before,
            after,
            request,
            Ok(bytes),
            collections,
            archives,
            id,
            r,
        ),
        request.caller.discovery_refusal is None,
        0 < request.ttl_ms <= request.max_ttl_ms,
        request.node_refusal is None,
        request.live_refusal is None,
        before.len() < request.max_leases,
        lease_manager::whole_charge(before) + bytes + 4096 <= request.max_lease_bytes,
    ensures
        r is Ok,
{
    broadcast use Seq::lemma_filter_len;

    let term = request.caller.term;
    let now = request.caller.now_ns;
    let keep = |roots: RootsView| lease_manager::stays(roots, false, term, now);
    let stay = lease_manager::idle(before, false, term, now);
    lemma_filter_charge(before, keep);
    lemma_charge_from(
        stay,
        stay.len() as int,
        heap_accounting::plus(bytes, lease_manager::LEASE_HANDLE_BYTES),
    );
    assert(stay.take(stay.len() as int) =~= stay);
    lemma_charge(before, before.len() as int);
    assert(before.take(before.len() as int) =~= before);
}

proof fn lemma_charge_from(entries: Seq<RootsView>, n: int, start: u64)
    requires
        0 <= n <= entries.len(),
    ensures
        lease_manager::charged(entries, n, start) <= lease_manager::whole_charge(entries.take(n))
            + start,
    decreases n,
{
    if n > 0 {
        assert(entries.take(n).drop_last() =~= entries.take(n - 1));
        assert(entries.take(n).last() == entries[n - 1]);
        lemma_charge_from(entries, n - 1, start);
    }
}

proof fn lemma_filter_charge(entries: Seq<RootsView>, keep: spec_fn(RootsView) -> bool)
    ensures
        lease_manager::whole_charge(entries.filter(keep)) <= lease_manager::whole_charge(entries),
    decreases entries.len(),
{
    reveal(Seq::filter);
    if entries.len() > 0 {
        lemma_filter_charge(entries.drop_last(), keep);
        let kept = entries.drop_last().filter(keep);
        if keep(entries.last()) {
            assert(kept.push(entries.last()).drop_last() =~= kept);
        }
    }
}

} // verus!
