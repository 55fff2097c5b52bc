//! What a page of a snapshot lease promises: it carries exactly what was asked for and the
//! leased generation holds, under an authority that still stands, within its bounds.
use vstd::prelude::*;

use crate::errors::{Error, ErrorCode};
use crate::heap_accounting;
use crate::lease_manager;
use crate::lease_manager::LeaseCaller;
use crate::lease_roots;
use crate::lease_roots::{HeldVersion, RootCollectionView, RootsView};
use crate::lease_selection;
use crate::lease_selection::{
    CarriedView, NameRefusal, PageAccess, PageSelection, Point, ReadRefusal, ScanPage,
    ScannedView, SelectedView,
};

verus! {

/// Whether the lease is the first of its identity.
pub open spec fn is_lease(entries: Seq<RootsView>, id: u128, at: int) -> bool {
    &&& 0 <= at < entries.len()
    &&& entries[at].header.lease_id == id
    &&& forall|i: int| 0 <= i < at ==> (#[trigger] entries[i]).header.lease_id != id
}

/// Whether the collection is the first root of its name.
pub open spec fn is_root(roots: RootsView, name: u128, at: int) -> bool {
    &&& 0 <= at < roots.collections.len()
    &&& roots.collections[at].name == name
    &&& forall|i: int| 0 <= i < at ==> (#[trigger] roots.collections[i]).name != name
}

/// Whether the leased generation holds the document itself.
#[verifier::opaque]
pub open spec fn holds_document(roots: RootsView, point: Point) -> bool {
    exists|at: int| #[trigger]
        is_root(roots, point.collection, at) && roots.collections[at].documents.dom().contains(
            point.id,
        )
}

/// Whether the leased generation holds only a reference to the archived document.
#[verifier::opaque]
pub open spec fn holds_reference(roots: RootsView, point: Point) -> bool {
    exists|at: int| #[trigger]
        is_root(roots, point.collection, at) && !roots.collections[at].documents.dom().contains(
            point.id,
        ) && roots.collections[at].archived.dom().contains(point.id)
}

/// What the leased generation holds of the document, or of the reference to it.
#[verifier::opaque]
pub open spec fn held(roots: RootsView, point: Point) -> HeldVersion {
    let at = choose|at: int| is_root(roots, point.collection, at);
    if roots.collections[at].documents.dom().contains(point.id) {
        roots.collections[at].documents[point.id]
    } else {
        roots.collections[at].archived[point.id]
    }
}

/// Whether the leased generation has the collection.
#[verifier::opaque]
pub open spec fn has_root(roots: RootsView, name: u128) -> bool {
    exists|at: int| is_root(roots, name, at)
}

/// Whether the caller is refused to read the collection.
#[verifier::opaque]
pub open spec fn unreadable(refusals: Seq<ReadRefusal>, collection: u128) -> bool {
    exists|i: int| 0 <= i < refusals.len() && (#[trigger] refusals[i]).collection == collection
}

pub open spec fn distinct(points: Seq<Point>) -> bool {
    forall|i: int, j: int| 0 <= i < j < points.len() ==> #[trigger] points[i] != #[trigger] points[j]
}

pub open spec fn once(items: Seq<u128>) -> bool {
    forall|i: int, j: int| 0 <= i < j < items.len() ==> #[trigger] items[i] != #[trigger] items[j]
}

/// Whether a reference to the document leads into the archive.
pub open spec fn needs(roots: RootsView, point: Point, archive: u128) -> bool {
    holds_reference(roots, point) && held(roots, point).archive == archive
}

/// Whether the page carries exactly those of the points that the leased generation holds,
/// in their order: each document that it holds, a reference where it holds only that, the
/// archive of every such reference once, and the collection of every point once.
pub open spec fn carries(roots: RootsView, points: Seq<Point>, page: SelectedView) -> bool {
    &&& page.documents == points.filter(|p: Point| holds_document(roots, p))
    &&& page.archived == points.filter(|p: Point| holds_reference(roots, p))
    &&& once(page.archives)
    &&& forall|x: u128|
        #![trigger page.archives.contains(x)]
        page.archives.contains(x) <==> exists|i: int|
            0 <= i < points.len() && needs(roots, #[trigger] points[i], x)
    &&& forall|x: u128| page.archives.contains(x) ==> #[trigger] roots.archives.dom().contains(x)
    &&& once(page.collections)
    &&& forall|c: u128|
        #![trigger page.collections.contains(c)]
        page.collections.contains(c) <==> exists|i: int|
            0 <= i < points.len() && (#[trigger] points[i]).collection == c
}

// ---------------------------------------------------------------------
// Lookups
// ---------------------------------------------------------------------

/// The first root of a name is found, where there is one.
pub proof fn lemma_root(collections: Seq<RootCollectionView>, name: u128, i: int)
    requires
        0 <= i <= collections.len(),
    ensures
        match lease_roots::root_at(collections, name, i) {
            None => forall|j: int| i <= j < collections.len() ==> (#[trigger] collections[j]).name
                != name,
            Some(at) => {
                &&& i <= at < collections.len()
                &&& collections[at].name == name
                &&& forall|j: int| i <= j < at ==> (#[trigger] collections[j]).name != name
            },
        },
    decreases collections.len() - i,
{
    if i < collections.len() {
        lemma_root(collections, name, i + 1);
    }
}

proof fn lemma_root_found(roots: RootsView, name: u128)
    ensures
        match lease_roots::root_at(roots.collections, name, 0) {
            None => forall|at: int| !#[trigger] is_root(roots, name, at),
            Some(at) => is_root(roots, name, at) && forall|other: int| #[trigger]
                is_root(roots, name, other) ==> other == at,
        },
{
    lemma_root(roots.collections, name, 0);
    match lease_roots::root_at(roots.collections, name, 0) {
        None => {
            assert forall|at: int| !#[trigger] is_root(roots, name, at) by {
                if is_root(roots, name, at) {
                    assert(roots.collections[at].name == name);
                }
            }
        },
        Some(n) => {
            assert forall|other: int| #[trigger] is_root(roots, name, other) implies other
                == n by {
                assert(roots.collections[other].name == name);
                assert(roots.collections[n].name == name);
            }
        },
    }
}

proof fn lemma_unreadable(refusals: Seq<ReadRefusal>, collection: u128, i: int)
    requires
        0 <= i <= refusals.len(),
    ensures
        lease_selection::read_refusal(refusals, collection, i) is Some <==> exists|j: int|
            i <= j < refusals.len() && (#[trigger] refusals[j]).collection == collection,
    decreases refusals.len() - i,
{
    if i < refusals.len() {
        lemma_unreadable(refusals, collection, i + 1);
        if refusals[i].collection == collection {
            assert(refusals[i].collection == collection);
        } else if exists|j: int|
            i <= j < refusals.len() && (#[trigger] refusals[j]).collection == collection {
            let j = choose|j: int|
                i <= j < refusals.len() && (#[trigger] refusals[j]).collection == collection;
            assert(i + 1 <= j);
        }
    }
}

/// The first lease of an identity is found, where there is one.
pub proof fn lemma_lease(entries: Seq<RootsView>, id: u128, i: int)
    requires
        0 <= i <= entries.len(),
    ensures
        match lease_manager::lease_at(entries, id, i) {
            None => forall|j: int| i <= j < entries.len() ==> (
            #[trigger] entries[j]).header.lease_id != id,
            Some(at) => {
                &&& i <= at < entries.len()
                &&& entries[at].header.lease_id == id
                &&& forall|j: int| i <= j < at ==> (#[trigger] entries[j]).header.lease_id != id
            },
        },
    decreases entries.len() - i,
{
    if i < entries.len() {
        lemma_lease(entries, id, i + 1);
    }
}

/// Whether the caller may use the lease: it may discover the tenant, is the one that the
/// lease was opened for, in the same term and epochs, and the lease still lasts.
pub open spec fn may_use(roots: RootsView, caller: LeaseCaller) -> bool {
    &&& caller.discovery_refusal is None
    &&& roots.header.principal == caller.principal
    &&& roots.header.term == caller.term
    &&& roots.header.incarnation == caller.incarnation
    &&& roots.header.policy_epoch == caller.policy_epoch
    &&& roots.header.schema_epoch == caller.schema_epoch
    &&& caller.now_ns < roots.header.created_ns + roots.header.ttl_ms * 1_000_000
    &&& roots.header.ttl_ms > 0
}

/// A lease is used exactly by a caller who may, while it is there and lasts. Any other
/// caller who may discover the tenant is told that the lease has ended.
pub proof fn lemma_lease_used(entries: Seq<RootsView>, caller: LeaseCaller, id: u128, at: int)
    ensures
        is_lease(entries, id, at) && may_use(entries[at], caller)
            ==> lease_manager::checked_lease(entries, caller, id) == Ok::<int, Error>(at),
        is_lease(entries, id, at) && !may_use(entries[at], caller)
            ==> lease_manager::checked_lease(entries, caller, id) is Err,
        (forall|i: int| 0 <= i < entries.len() ==> (#[trigger] entries[i]).header.lease_id != id)
            ==> lease_manager::checked_lease(entries, caller, id) is Err,
        caller.discovery_refusal is None && lease_manager::checked_lease(entries, caller, id) is Err
            ==> lease_manager::checked_lease(entries, caller, id)->Err_0.code
            == ErrorCode::CursorExpired,
        caller.discovery_refusal matches Some(e) ==> lease_manager::checked_lease(
            entries,
            caller,
            id,
        ) == Err::<int, Error>(e),
{
    lemma_lease(entries, id, 0);
    if is_lease(entries, id, at) {
        assert(entries[at].header.lease_id == id);
        let n = lease_manager::lease_at(entries, id, 0)->0;
        assert(entries[n].header.lease_id == id);
    }
}

// ---------------------------------------------------------------------
// What a page carries
// ---------------------------------------------------------------------

proof fn lemma_listed(items: Seq<u128>, item: u128)
    requires
        once(items),
    ensures
        once(lease_selection::with_collection(items, item)),
        forall|x: u128| #[trigger]
            lease_selection::with_collection(items, item).contains(x) <==> x == item
                || items.contains(x),
{
    let more = lease_selection::with_collection(items, item);
    if !items.contains(item) {
        assert forall|i: int, j: int| 0 <= i < j < more.len() implies #[trigger] more[i]
            != #[trigger] more[j] by {
            assert(more[i] == items[i]);
            if j == items.len() {
                assert(items.contains(items[i]));
            }
        }
        assert forall|x: u128| #[trigger] more.contains(x) <==> x == item || items.contains(x) by {
            assert(more[items.len() as int] == item);
            if items.contains(x) {
                let k = choose|k: int| 0 <= k < items.len() && items[k] == x;
                assert(more[k] == x);
            }
            if more.contains(x) {
                let k = choose|k: int| 0 <= k < more.len() && more[k] == x;
                if k < items.len() {
                    assert(items[k] == x);
                }
            }
        }
    }
}

/// What one point adds.
proof fn lemma_carry(
    roots: RootsView,
    before: CarriedView,
    point: Point,
    refusals: Seq<ReadRefusal>,
    node_bytes: u64,
    node_refusal: Error,
)
    requires
        once(before.archives),
        once(before.collections),
        lease_selection::carry(roots, before, point, refusals, node_bytes, node_refusal) is Ok,
    ensures
        ({
            let after = lease_selection::carry(
                roots,
                before,
                point,
                refusals,
                node_bytes,
                node_refusal,
            )->Ok_0;
            &&& !unreadable(refusals, point.collection)
            &&& has_root(roots, point.collection)
            &&& after.documents == if holds_document(roots, point) {
                before.documents.push(point)
            } else {
                before.documents
            }
            &&& after.archived == if holds_reference(roots, point) {
                before.archived.push(point)
            } else {
                before.archived
            }
            &&& once(after.archives)
            &&& holds_reference(roots, point) ==> roots.archives.dom().contains(
                held(roots, point).archive,
            )
            &&& forall|x: u128| #[trigger]
                after.archives.contains(x) <==> before.archives.contains(x) || (holds_reference(
                    roots,
                    point,
                ) && held(roots, point).archive == x)
            &&& once(after.collections)
            &&& forall|c: u128| #[trigger]
                after.collections.contains(c) <==> before.collections.contains(c) || c
                    == point.collection
            &&& before.reserved <= after.reserved
            &&& before.retained <= after.retained
            &&& before.reserved <= node_bytes ==> after.reserved <= node_bytes
            &&& before.reserved >= before.retained ==> after.reserved >= after.retained
            &&& holds_document(roots, point) ==> after.retained == before.retained
                + heap_accounting::plus(heap_accounting::times(held(roots, point).heap, 3), 1024)
            &&& holds_reference(roots, point) ==> after.retained >= before.retained
                + heap_accounting::plus(held(roots, point).heap, 1024)
        }),
{
    reveal(holds_document);
    reveal(holds_reference);
    reveal(held);
    reveal(unreadable);
    reveal(has_root);
    lemma_unreadable(refusals, point.collection, 0);
    lemma_root_found(roots, point.collection);
    let at = lease_roots::root_at(roots.collections, point.collection, 0)->0;
    assert(is_root(roots, point.collection, at));
    let chosen = choose|n: int| is_root(roots, point.collection, n);
    assert(chosen == at);
    lemma_listed(before.collections, point.collection);
    let root = roots.collections[at];
    assert(holds_document(roots, point) == root.documents.dom().contains(point.id));
    assert(holds_reference(roots, point) == (!root.documents.dom().contains(point.id)
        && root.archived.dom().contains(point.id)));
    if holds_reference(roots, point) {
        lemma_listed(before.archives, held(roots, point).archive);
    }
}

proof fn lemma_carried_points(
    roots: RootsView,
    before: CarriedView,
    points: Seq<Point>,
    i: int,
    refusals: Seq<ReadRefusal>,
    node_bytes: u64,
    node_refusal: Error,
)
    requires
        0 <= i <= points.len(),
        once(before.archives),
        once(before.collections),
        lease_selection::carry_all(
            roots,
            before,
            points,
            i,
            refusals,
            node_bytes,
            node_refusal,
        ) is Ok,
    ensures
        ({
            let after = lease_selection::carry_all(
                roots,
                before,
                points,
                i,
                refusals,
                node_bytes,
                node_refusal,
            )->Ok_0;
            let rest = points.skip(i);
            &&& after.documents == before.documents + rest.filter(
                |p: Point| holds_document(roots, p),
            )
            &&& after.archived == before.archived + rest.filter(
                |p: Point| holds_reference(roots, p),
            )
        }),
    decreases points.len() - i,
{
    broadcast use Seq::lemma_filter_prepend;

    let hot = |p: Point| holds_document(roots, p);
    let cold = |p: Point| holds_reference(roots, p);
    let rest = points.skip(i);
    if i < points.len() {
        lemma_carry(roots, before, points[i], refusals, node_bytes, node_refusal);
        let next = lease_selection::carry(
            roots,
            before,
            points[i],
            refusals,
            node_bytes,
            node_refusal,
        )->Ok_0;
        lemma_carried_points(roots, next, points, i + 1, refusals, node_bytes, node_refusal);
        let after = lease_selection::carry_all(
            roots,
            next,
            points,
            i + 1,
            refusals,
            node_bytes,
            node_refusal,
        )->Ok_0;
        let tail = points.skip(i + 1);
        assert(rest =~= seq![points[i]] + tail);
        assert(rest.filter(hot) =~= if hot(points[i]) {
            seq![points[i]] + tail.filter(hot)
        } else {
            tail.filter(hot)
        });
        assert(rest.filter(cold) =~= if cold(points[i]) {
            seq![points[i]] + tail.filter(cold)
        } else {
            tail.filter(cold)
        });
        assert(after.documents =~= before.documents + rest.filter(hot));
        assert(after.archived =~= before.archived + rest.filter(cold));
    } else {
        assert(rest =~= Seq::<Point>::empty());
        assert(rest.filter(hot) =~= Seq::<Point>::empty()) by {
            reveal(Seq::filter);
        }
        assert(rest.filter(cold) =~= Seq::<Point>::empty()) by {
            reveal(Seq::filter);
        }
        assert(before.documents + rest.filter(hot) =~= before.documents);
        assert(before.archived + rest.filter(cold) =~= before.archived);
    }
}

proof fn lemma_carried_archives(
    roots: RootsView,
    before: CarriedView,
    points: Seq<Point>,
    i: int,
    refusals: Seq<ReadRefusal>,
    node_bytes: u64,
    node_refusal: Error,
)
    requires
        0 <= i <= points.len(),
        once(before.archives),
        once(before.collections),
        lease_selection::carry_all(
            roots,
            before,
            points,
            i,
            refusals,
            node_bytes,
            node_refusal,
        ) is Ok,
    ensures
        ({
            let after = lease_selection::carry_all(
                roots,
                before,
                points,
                i,
                refusals,
                node_bytes,
                node_refusal,
            )->Ok_0;
            &&& once(after.archives)
            &&& forall|x: u128|
                #![trigger after.archives.contains(x)]
                after.archives.contains(x) <==> before.archives.contains(x) || exists|k: int|
                    i <= k < points.len() && needs(roots, #[trigger] points[k], x)
            &&& forall|k: int|
                i <= k < points.len() && holds_reference(roots, #[trigger] points[k])
                    ==> roots.archives.dom().contains(held(roots, points[k]).archive)
        }),
    decreases points.len() - i,
{
    if i < points.len() {
        lemma_carry(roots, before, points[i], refusals, node_bytes, node_refusal);
        let next = lease_selection::carry(
            roots,
            before,
            points[i],
            refusals,
            node_bytes,
            node_refusal,
        )->Ok_0;
        lemma_carried_archives(roots, next, points, i + 1, refusals, node_bytes, node_refusal);
        let after = lease_selection::carry_all(
            roots,
            next,
            points,
            i + 1,
            refusals,
            node_bytes,
            node_refusal,
        )->Ok_0;
        assert forall|x: u128| #![trigger after.archives.contains(x)]
            after.archives.contains(x) <==> before.archives.contains(x) || exists|k: int|
                i <= k < points.len() && needs(roots, #[trigger] points[k], x) by {
            assert(next.archives.contains(x) <==> before.archives.contains(x) || needs(
                roots,
                points[i],
                x,
            ));
            if exists|k: int| i <= k < points.len() && needs(roots, #[trigger] points[k], x) {
                let k = choose|k: int|
                    i <= k < points.len() && needs(roots, #[trigger] points[k], x);
                if k > i {
                    assert(i + 1 <= k && needs(roots, points[k], x));
                }
            }
        }
    }
}

proof fn lemma_carried_collections(
    roots: RootsView,
    before: CarriedView,
    points: Seq<Point>,
    i: int,
    refusals: Seq<ReadRefusal>,
    node_bytes: u64,
    node_refusal: Error,
)
    requires
        0 <= i <= points.len(),
        once(before.archives),
        once(before.collections),
        lease_selection::carry_all(
            roots,
            before,
            points,
            i,
            refusals,
            node_bytes,
            node_refusal,
        ) is Ok,
    ensures
        ({
            let after = lease_selection::carry_all(
                roots,
                before,
                points,
                i,
                refusals,
                node_bytes,
                node_refusal,
            )->Ok_0;
            &&& once(after.collections)
            &&& forall|c: u128|
                #![trigger after.collections.contains(c)]
                after.collections.contains(c) <==> before.collections.contains(c) || exists|k: int|
                    i <= k < points.len() && (#[trigger] points[k]).collection == c
            &&& before.reserved <= after.reserved
            &&& before.reserved <= node_bytes ==> after.reserved <= node_bytes
            &&& before.reserved >= before.retained ==> after.reserved >= after.retained
            &&& before.retained <= after.retained
            &&& forall|k: int|
                i <= k < points.len() ==> !unreadable(refusals, (#[trigger] points[k]).collection)
            &&& forall|k: int|
                i <= k < points.len() ==> has_root(roots, (#[trigger] points[k]).collection)
        }),
    decreases points.len() - i,
{
    if i < points.len() {
        lemma_carry(roots, before, points[i], refusals, node_bytes, node_refusal);
        let next = lease_selection::carry(
            roots,
            before,
            points[i],
            refusals,
            node_bytes,
            node_refusal,
        )->Ok_0;
        lemma_carried_collections(roots, next, points, i + 1, refusals, node_bytes, node_refusal);
        let after = lease_selection::carry_all(
            roots,
            next,
            points,
            i + 1,
            refusals,
            node_bytes,
            node_refusal,
        )->Ok_0;
        assert forall|c: u128| #![trigger after.collections.contains(c)]
            after.collections.contains(c) <==> before.collections.contains(c) || exists|k: int|
                i <= k < points.len() && (#[trigger] points[k]).collection == c by {
            assert(next.collections.contains(c) <==> before.collections.contains(c) || c
                == points[i].collection);
            if exists|k: int| i <= k < points.len() && (#[trigger] points[k]).collection == c {
                let k = choose|k: int|
                    i <= k < points.len() && (#[trigger] points[k]).collection == c;
                if k > i {
                    assert(i + 1 <= k && points[k].collection == c);
                }
            }
        }
    }
}

proof fn lemma_page(roots: RootsView, points: Seq<Point>, scan: ScannedView, a: PageAccess)
    requires
        lease_selection::initial_bytes(roots, a.max_result_bytes) <= a.node_bytes,
        lease_selection::page_of(roots, points, scan, a) is Ok,
    ensures
        ({
            let page = lease_selection::page_of(roots, points, scan, a)->Ok_0;
            &&& carries(roots, points, page)
            &&& page.scan_ids == scan.ids
            &&& page.scan_has_more == scan.has_more
            &&& a.release_refusal is None
            &&& page.reserved_bytes <= a.node_bytes
            &&& page.reserved_bytes >= lease_selection::initial_bytes(roots, a.max_result_bytes)
            &&& forall|k: int|
                0 <= k < points.len() ==> !unreadable(
                    a.read_refusals@,
                    (#[trigger] points[k]).collection,
                )
            &&& forall|k: int|
                0 <= k < points.len() ==> has_root(roots, (#[trigger] points[k]).collection)
        }),
{
    let start = CarriedView {
        collections: Seq::empty(),
        documents: Seq::empty(),
        archived: Seq::empty(),
        archives: Seq::empty(),
        retained: roots.metadata_bytes,
        reserved: lease_selection::initial_bytes(roots, a.max_result_bytes),
    };
    let refusals = a.read_refusals@;
    lemma_carried_points(roots, start, points, 0, refusals, a.node_bytes, a.node_refusal);
    lemma_carried_archives(roots, start, points, 0, refusals, a.node_bytes, a.node_refusal);
    lemma_carried_collections(roots, start, points, 0, refusals, a.node_bytes, a.node_refusal);
    assert(points.skip(0) =~= points);
    let page = lease_selection::page_of(roots, points, scan, a)->Ok_0;
    assert(page.documents =~= points.filter(|p: Point| holds_document(roots, p)));
    assert(page.archived =~= points.filter(|p: Point| holds_reference(roots, p)));
    assert forall|x: u128| page.archives.contains(x) implies
        #[trigger] roots.archives.dom().contains(x) by {
        let k = choose|k: int| 0 <= k < points.len() && needs(roots, #[trigger] points[k], x);
        assert(holds_reference(roots, points[k]));
    }
}

proof fn lemma_points_checked(points: Seq<Point>, names: Option<NameRefusal>, i: int)
    requires
        0 <= i <= points.len(),
        forall|x: int, y: int| 0 <= x < y < i ==> #[trigger] points[x] != #[trigger] points[y],
    ensures
        lease_selection::points_from(points, names, i) is Ok <==> distinct(points) && (
        names matches Some(refused) ==> refused.at < i || refused.at >= points.len()),
    decreases points.len() - i,
{
    if i < points.len() {
        match lease_selection::refused_at(names, i) {
            Some(_) => {},
            None => {
                if lease_selection::repeated(points, i) {
                    let k = choose|k: int| 0 <= k < i && #[trigger] points[k] == points[i];
                    assert(points[k] == points[i]);
                    assert(!distinct(points));
                } else {
                    assert forall|x: int, y: int| 0 <= x < y < i + 1 implies #[trigger] points[x]
                        != #[trigger] points[y] by {
                        if y == i {
                            assert(points[x] != points[i]);
                        }
                    }
                    lemma_points_checked(points, names, i + 1);
                }
            },
        }
    }
}

/// A page of single documents carries exactly those of the points that the leased
/// generation holds: the documents that it holds, in the order asked for, and references
/// to those of which it holds only that. It is selected of the caller's own lease while
/// that lasts, for at most 256 different points of collections that the caller may read,
/// and reserves no more than the node admits.
pub proof fn lemma_points_page(
    entries: Seq<RootsView>,
    caller: LeaseCaller,
    id: u128,
    points: Vec<Point>,
    a: PageAccess,
    at: int,
)
    requires
        is_lease(entries, id, at),
        lease_selection::selected(entries, caller, id, PageSelection::Points(points), a) is Ok,
    ensures
        ({
            let roots = entries[at];
            let page = lease_selection::selected(
                entries,
                caller,
                id,
                PageSelection::Points(points),
                a,
            )->Ok_0;
            &&& may_use(roots, caller)
            &&& a.live_refusal is None
            &&& a.cancelled is None
            &&& a.release_refusal is None
            &&& a.name_refusal matches Some(refused) ==> refused.at >= points@.len()
            &&& 0 < points@.len() <= 256
            &&& distinct(points@)
            &&& carries(roots, points@, page)
            &&& page.scan_ids.len() == 0
            &&& !page.scan_has_more
            &&& page.reserved_bytes <= a.node_bytes
            &&& forall|k: int|
                0 <= k < points@.len() ==> !unreadable(
                    a.read_refusals@,
                    (#[trigger] points@[k]).collection,
                )
            &&& forall|k: int|
                0 <= k < points@.len() ==> page.documents.contains(#[trigger] points@[k])
                    == holds_document(roots, points@[k]) && page.archived.contains(points@[k])
                    == holds_reference(roots, points@[k])
        }),
{
    lemma_lease_used(entries, caller, id, at);
    let roots = entries[at];
    lemma_points_checked(points@, a.name_refusal, 0);
    let scan = ScannedView { ids: Seq::<u128>::empty(), has_more: false };
    lemma_page(roots, points@, scan, a);
    let page = lease_selection::selected(
        entries,
        caller,
        id,
        PageSelection::Points(points),
        a,
    )->Ok_0;
    lemma_carried_each(roots, points@, page);
}

proof fn lemma_carried_each(roots: RootsView, points: Seq<Point>, page: SelectedView)
    requires
        carries(roots, points, page),
    ensures
        forall|k: int|
            0 <= k < points.len() ==> page.documents.contains(#[trigger] points[k])
                == holds_document(roots, points[k]) && page.archived.contains(points[k])
                == holds_reference(roots, points[k]),
{
    let hot = |p: Point| holds_document(roots, p);
    let cold = |p: Point| holds_reference(roots, p);
    assert forall|k: int| 0 <= k < points.len() implies page.documents.contains(
        #[trigger] points[k],
    ) == holds_document(roots, points[k]) && page.archived.contains(points[k])
        == holds_reference(roots, points[k]) by {
        broadcast use Seq::lemma_filter_contains, Seq::lemma_filter_pred;

        if hot(points[k]) {
            assert(points.filter(hot).contains(points[k]));
        }
        if cold(points[k]) {
            assert(points.filter(cold).contains(points[k]));
        }
        if page.documents.contains(points[k]) {
            let n = choose|n: int|
                0 <= n < page.documents.len() && page.documents[n] == points[k];
            assert(hot(points.filter(hot)[n]));
        }
        if page.archived.contains(points[k]) {
            let n = choose|n: int| 0 <= n < page.archived.len() && page.archived[n] == points[k];
            assert(cold(points.filter(cold)[n]));
        }
    }
}

// ---------------------------------------------------------------------
// Scans
// ---------------------------------------------------------------------

/// How many bytes the listed documents take of a page, each with its separator.
pub open spec fn listed_bytes(root: RootCollectionView, ids: Seq<u128>) -> int
    decreases ids.len(),
{
    if ids.len() == 0 {
        0
    } else {
        listed_bytes(root, ids.drop_last()) + size_of(root, ids.last()) + 1
    }
}

/// How many bytes a document that the collection holds is encoded in.
pub open spec fn size_of(root: RootCollectionView, id: u128) -> u64 {
    if root.documents.dom().contains(id) {
        root.documents[id].document_bytes
    } else {
        root.archived[id].document_bytes
    }
}

pub open spec fn holds(root: RootCollectionView, id: u128) -> bool {
    root.documents.dom().contains(id) || root.archived.dom().contains(id)
}

proof fn lemma_scanned(
    root: RootCollectionView,
    candidates: Seq<u128>,
    limit: u64,
    max_result_bytes: u64,
    i: int,
    opening: u64,
    bytes: u64,
    ids: Seq<u128>,
)
    requires
        0 <= i <= candidates.len(),
        ids == candidates.take(i),
        max_result_bytes < u64::MAX,
        opening <= max_result_bytes || i == 0,
        bytes == opening + listed_bytes(root, ids),
        forall|k: int| 0 <= k < i ==> holds(root, #[trigger] candidates[k]),
        i > 0 ==> bytes <= max_result_bytes,
        lease_selection::scanned(
            root,
            candidates,
            limit,
            max_result_bytes,
            i,
            bytes,
            ids,
        ) is Ok,
    ensures
        ({
            let page = lease_selection::scanned(
                root,
                candidates,
                limit,
                max_result_bytes,
                i,
                bytes,
                ids,
            )->Ok_0;
            let n = page.ids.len();
            &&& n <= candidates.len()
            &&& page.ids == candidates.take(n as int)
            &&& page.has_more == (n < candidates.len())
            &&& forall|k: int| 0 <= k < n ==> holds(root, #[trigger] page.ids[k])
            &&& n > 0 ==> opening + listed_bytes(root, page.ids) <= max_result_bytes
            &&& n > 0 && i <= limit ==> n <= limit
            &&& candidates.len() > 0 ==> n > 0
            &&& page.has_more ==> holds(root, candidates[n as int]) && (n >= limit || opening
                + listed_bytes(root, page.ids) + size_of(root, candidates[n as int]) + 1
                > max_result_bytes)
        }),
    decreases candidates.len() - i,
{
    if i < candidates.len() {
        match lease_selection::document_bytes(root, candidates[i]) {
            Err(_) => {},
            Ok(size) => {
                assert(holds(root, candidates[i]));
                assert(size == size_of(root, candidates[i]));
                let next = heap_accounting::plus(bytes, heap_accounting::plus(size, 1));
                if !(ids.len() >= limit || next > max_result_bytes) {
                    let more = ids.push(candidates[i]);
                    assert(more =~= candidates.take(i + 1));
                    assert(more.drop_last() =~= ids);
                    lemma_scanned(
                        root,
                        candidates,
                        limit,
                        max_result_bytes,
                        i + 1,
                        opening,
                        next,
                        more,
                    );
                } else {
                    assert forall|k: int| 0 <= k < ids.len() implies holds(
                        root,
                        #[trigger] ids[k],
                    ) by {
                        assert(ids[k] == candidates[k]);
                    }
                }
            },
        }
    } else {
        assert forall|k: int| 0 <= k < ids.len() implies holds(root, #[trigger] ids[k]) by {
            assert(ids[k] == candidates[k]);
        }
    }
}

/// A page of a scan lists the first of its candidates, and carries every one that it
/// lists: the document, or a reference to it where it is archived. The documents fit the
/// page together, and the page stops in front of a candidate only at its limit or where
/// that would not fit. It is of the caller's own lease, of a collection that the caller
/// may read, and within the page size.
pub proof fn lemma_scan_carried(
    entries: Seq<RootsView>,
    caller: LeaseCaller,
    id: u128,
    page: ScanPage,
    candidates: Vec<u128>,
    page_bytes: u64,
    a: PageAccess,
    at: int,
    c: int,
)
    requires
        is_lease(entries, id, at),
        is_root(entries[at], page.collection, c),
        a.max_result_bytes < u64::MAX,
        page_bytes + 256 <= a.max_result_bytes,
        lease_selection::selected(
            entries,
            caller,
            id,
            PageSelection::Scan { page, candidates: Ok(candidates), page_bytes },
            a,
        ) is Ok,
    ensures
        ({
            let roots = entries[at];
            let root = roots.collections[c];
            let r = lease_selection::selected(
                entries,
                caller,
                id,
                PageSelection::Scan { page, candidates: Ok(candidates), page_bytes },
                a,
            )->Ok_0;
            let n = r.scan_ids.len();
            &&& may_use(roots, caller)
            &&& a.live_refusal is None && a.cancelled is None && a.release_refusal is None
            &&& a.name_refusal is None
            &&& page.lease_id == id
            &&& 0 < page.limit <= a.max_page_size
            &&& !unreadable(a.read_refusals@, page.collection)
            &&& r.reserved_bytes <= a.node_bytes
            &&& r.collections == seq![page.collection]
            &&& n <= page.limit
            &&& n <= candidates@.len()
            &&& r.scan_ids == candidates@.take(n as int)
            &&& candidates@.len() > 0 ==> n > 0
            &&& r.scan_has_more == (n < candidates@.len())
            &&& page_bytes + 256 + listed_bytes(root, r.scan_ids) <= a.max_result_bytes
            &&& r.scan_has_more ==> n == page.limit || page_bytes + 256 + listed_bytes(
                root,
                r.scan_ids,
            ) + size_of(root, candidates@[n as int]) + 1 > a.max_result_bytes
            &&& forall|k: int|
                0 <= k < n ==> {
                    let point = Point { collection: page.collection, id: #[trigger] r.scan_ids[k] };
                    &&& root.documents.dom().contains(point.id) || root.archived.dom().contains(
                        point.id,
                    )
                    &&& r.documents.contains(point) == root.documents.dom().contains(point.id)
                    &&& r.archived.contains(point) == !root.documents.dom().contains(point.id)
                }
            &&& r.documents.len() + r.archived.len() == n
        }),
{
    let roots = entries[at];
    let root = roots.collections[c];
    let r = lease_selection::selected(
        entries,
        caller,
        id,
        PageSelection::Scan { page, candidates: Ok(candidates), page_bytes },
        a,
    )->Ok_0;
    lemma_lease_used(entries, caller, id, at);
    lemma_root_found(roots, page.collection);
    reveal(unreadable);
    lemma_unreadable(a.read_refusals@, page.collection, 0);
    let opening = lease_selection::opening_bytes(page_bytes);
    assert(candidates@.take(0) =~= Seq::<u128>::empty());
    lemma_scanned(
        root,
        candidates@,
        page.limit,
        a.max_result_bytes,
        0,
        opening,
        opening,
        Seq::empty(),
    );
    let scan = lease_selection::scanned(
        root,
        candidates@,
        page.limit,
        a.max_result_bytes,
        0,
        opening,
        Seq::empty(),
    )->Ok_0;
    if scan.ids.len() > 0 {
        let points = lease_selection::points_of(page.collection, scan.ids);
        lemma_page(roots, points, scan, a);
        lemma_carried_each(roots, points, r);
        assert forall|k: int| 0 <= k < scan.ids.len() implies ({
            let point = Point { collection: page.collection, id: #[trigger] r.scan_ids[k] };
            &&& root.documents.dom().contains(point.id) || root.archived.dom().contains(point.id)
            &&& r.documents.contains(point) == root.documents.dom().contains(point.id)
            &&& r.archived.contains(point) == !root.documents.dom().contains(point.id)
        }) by {
            let point = points[k];
            assert(holds(root, scan.ids[k]));
            lemma_holds(roots, c, point);
        }
        assert forall|k: int| 0 <= k < points.len() implies holds_document(
            roots,
            #[trigger] points[k],
        ) != holds_reference(roots, points[k]) by {
            assert(holds(root, scan.ids[k]));
            lemma_holds(roots, c, points[k]);
        }
        lemma_halves(roots, points);
        assert(r.collections =~= seq![page.collection]) by {
            assert(points[0].collection == page.collection);
            assert(r.collections.contains(page.collection));
            let n = choose|n: int|
                0 <= n < r.collections.len() && r.collections[n] == page.collection;
            assert forall|m: int| 0 <= m < r.collections.len() implies #[trigger] r.collections[m]
                == page.collection by {
                assert(r.collections.contains(r.collections[m]));
                let i = choose|i: int|
                    0 <= i < points.len() && (#[trigger] points[i]).collection == r.collections[m];
                assert(points[i].collection == page.collection);
            }
            if r.collections.len() > 1 {
                assert(r.collections[0] != r.collections[1]);
            }
        }
    }
}

proof fn lemma_holds(roots: RootsView, c: int, point: Point)
    requires
        is_root(roots, point.collection, c),
    ensures
        holds_document(roots, point) == roots.collections[c].documents.dom().contains(point.id),
        holds_reference(roots, point) == (!roots.collections[c].documents.dom().contains(point.id)
            && roots.collections[c].archived.dom().contains(point.id)),
{
    reveal(holds_document);
    reveal(holds_reference);
    lemma_root_found(roots, point.collection);
}

proof fn lemma_halves(roots: RootsView, points: Seq<Point>)
    requires
        forall|k: int|
            0 <= k < points.len() ==> holds_document(roots, #[trigger] points[k])
                != holds_reference(roots, points[k]),
    ensures
        points.filter(|p: Point| holds_document(roots, p)).len() + points.filter(
            |p: Point| holds_reference(roots, p),
        ).len() == points.len(),
    decreases points.len(),
{
    reveal(Seq::filter);
    if points.len() > 0 {
        let front = points.drop_last();
        assert forall|k: int| 0 <= k < front.len() implies holds_document(
            roots,
            #[trigger] front[k],
        ) != holds_reference(roots, front[k]) by {
            assert(front[k] == points[k]);
        }
        lemma_halves(roots, front);
        assert(holds_document(roots, points[points.len() - 1]) != holds_reference(
            roots,
            points[points.len() - 1],
        ));
    }
}

} // verus!
