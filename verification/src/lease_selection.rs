//! One bounded page of a snapshot lease. Whole roots never leave the lease; a page
//! carries only what it selects.
use vstd::prelude::*;

use crate::errors;
use crate::errors::{error, Error, ErrorCode};
use crate::heap_accounting;
use crate::heap_accounting::{charge, saturating_times};
use crate::lease_manager;
use crate::lease_manager::{LeaseCaller, LeaseManager};
use crate::lease_roots;
use crate::lease_roots::{HeldVersion, RootCollection, RootCollectionView, Roots, RootsView};

verus! {

/// A document of a collection.
#[derive(Clone, Copy, Debug, PartialEq, Eq, Structural)]
pub struct Point {
    pub collection: u128,
    pub id: u128,
}

/// A request for the next page of a collection.
#[derive(Clone, Copy, Debug, PartialEq, Eq, Structural)]
pub struct ScanPage {
    pub lease_id: u128,
    pub collection: u128,
    pub limit: u64,
}

/// What is asked of a lease: single documents, or a page of a collection, with the
/// identities that the lease's index gives behind the last page, and the bytes of
/// an empty page.
pub enum PageSelection {
    Points(Vec<Point>),
    Scan { page: ScanPage, candidates: Result<Vec<u128>, Error>, page_bytes: u64 },
}

/// The collections that a caller may not read, and why.
#[derive(Clone, Copy, Debug)]
pub struct ReadRefusal {
    pub collection: u128,
    pub refusal: Error,
}

/// The first point of a request whose names are refused, and why. A scan has its own
/// names refused whatever the place.
#[derive(Clone, Copy, Debug)]
pub struct NameRefusal {
    pub at: u64,
    pub refusal: Error,
}

/// Under which authority a page is selected, and within which bounds.
pub struct PageAccess {
    pub name_refusal: Option<NameRefusal>,
    pub live_refusal: Option<Error>,
    pub cancelled: Option<Error>,
    pub release_refusal: Option<Error>,
    pub read_refusals: Vec<ReadRefusal>,
    pub max_result_bytes: u64,
    pub max_page_size: u64,
    /// How many bytes the node still admits, and its refusal of more.
    pub node_bytes: u64,
    pub node_refusal: Error,
}

/// What a page carries.
pub struct Selected {
    pub collections: Vec<u128>,
    pub documents: Vec<Point>,
    pub archived: Vec<Point>,
    pub archives: Vec<u128>,
    pub scan_ids: Vec<u128>,
    pub scan_has_more: bool,
    pub reserved_bytes: u64,
}

pub struct SelectedView {
    pub collections: Seq<u128>,
    pub documents: Seq<Point>,
    pub archived: Seq<Point>,
    pub archives: Seq<u128>,
    pub scan_ids: Seq<u128>,
    pub scan_has_more: bool,
    pub reserved_bytes: u64,
}

impl View for Selected {
    type V = SelectedView;

    open spec fn view(&self) -> SelectedView {
        SelectedView {
            collections: self.collections@,
            documents: self.documents@,
            archived: self.archived@,
            archives: self.archives@,
            scan_ids: self.scan_ids@,
            scan_has_more: self.scan_has_more,
            reserved_bytes: self.reserved_bytes,
        }
    }
}

// ---------------------------------------------------------------------
// What is selected
// ---------------------------------------------------------------------

pub open spec fn invalid(message: &'static str) -> Error {
    errors::refusal(ErrorCode::InvalidArgument, message)
}

/// Whether a point stands before its place already.
pub open spec fn repeated(points: Seq<Point>, j: int) -> bool {
    exists|i: int| 0 <= i < j && #[trigger] points[i] == points[j]
}

/// What refuses the names of a point.
pub open spec fn refused_at(names: Option<NameRefusal>, j: int) -> Option<Error> {
    match names {
        Some(refused) => if refused.at == j {
            Some(refused.refusal)
        } else {
            None
        },
        None => None,
    }
}

/// Whether the points from `j` on are named well, and none stands twice.
pub open spec fn points_from(points: Seq<Point>, names: Option<NameRefusal>, j: int) -> Result<
    (),
    Error,
>
    decreases points.len() - j,
{
    if j < 0 || j >= points.len() {
        Ok(())
    } else {
        match refused_at(names, j) {
            Some(e) => Err(e),
            None => if repeated(points, j) {
                Err(invalid("duplicate snapshot point"))
            } else {
                points_from(points, names, j + 1)
            },
        }
    }
}

pub open spec fn points_checked(points: Seq<Point>, names: Option<NameRefusal>) -> Result<
    (),
    Error,
> {
    if points.len() == 0 || points.len() > 256 {
        Err(invalid("snapshot point page outside bounds"))
    } else {
        points_from(points, names, 0)
    }
}

/// Why the caller may not read the collection, if so, from `i` on.
pub open spec fn read_refusal(refusals: Seq<ReadRefusal>, collection: u128, i: int) -> Option<Error>
    decreases refusals.len() - i,
{
    if i < 0 || i >= refusals.len() {
        None
    } else if refusals[i].collection == collection {
        Some(refusals[i].refusal)
    } else {
        read_refusal(refusals, collection, i + 1)
    }
}

/// How many bytes a document of the collection is encoded in.
pub open spec fn document_bytes(root: RootCollectionView, id: u128) -> Result<u64, Error> {
    match root.documents.get(id) {
        Some(held) => Ok(held.document_bytes),
        None => match root.archived.get(id) {
            Some(held) => Ok(held.document_bytes),
            None => Err(errors::refusal(ErrorCode::Corruption, "snapshot ID reference missing")),
        },
    }
}

/// The identities of a page, and whether more follow it.
pub struct ScannedView {
    pub ids: Seq<u128>,
    pub has_more: bool,
}

/// The page of the candidates from `i` on, behind those taken already.
pub open spec fn scanned(
    root: RootCollectionView,
    candidates: Seq<u128>,
    limit: u64,
    max_result_bytes: u64,
    i: int,
    bytes: u64,
    ids: Seq<u128>,
) -> Result<ScannedView, Error>
    decreases candidates.len() - i,
{
    if i < 0 || i >= candidates.len() {
        Ok(ScannedView { ids, has_more: false })
    } else {
        match document_bytes(root, candidates[i]) {
            Err(e) => Err(e),
            Ok(size) => {
                let next = heap_accounting::plus(bytes, heap_accounting::plus(size, 1));
                if ids.len() >= limit || next > max_result_bytes {
                    if ids.len() == 0 {
                        Err(
                            errors::refusal(
                                ErrorCode::ResourceExhausted,
                                "snapshot document cannot fit page budget",
                            ),
                        )
                    } else {
                        Ok(ScannedView { ids, has_more: true })
                    }
                } else {
                    scanned(
                        root,
                        candidates,
                        limit,
                        max_result_bytes,
                        i + 1,
                        next,
                        ids.push(candidates[i]),
                    )
                }
            },
        }
    }
}

/// The collection that a scan is of.
pub open spec fn scan_collection(
    roots: RootsView,
    page: ScanPage,
    id: u128,
    names: Option<NameRefusal>,
    refusals: Seq<ReadRefusal>,
    max_page_size: u64,
) -> Result<int, Error> {
    if page.lease_id != id {
        Err(invalid("snapshot scan lease identity differs"))
    } else if names is Some {
        Err(names->0.refusal)
    } else if page.limit == 0 || page.limit > max_page_size {
        Err(invalid("snapshot scan limit outside bounds"))
    } else if read_refusal(refusals, page.collection, 0) is Some {
        Err(read_refusal(refusals, page.collection, 0)->0)
    } else {
        match lease_roots::root_at(roots.collections, page.collection, 0) {
            None => Err(errors::refusal(ErrorCode::NotFound, "snapshot collection not found")),
            Some(at) => Ok(at),
        }
    }
}

/// What the page's framing takes at most.
pub open spec fn opening_bytes(page_bytes: u64) -> u64 {
    heap_accounting::plus(page_bytes, 256)
}

pub open spec fn scan_page(
    roots: RootsView,
    page: ScanPage,
    candidates: Result<Seq<u128>, Error>,
    page_bytes: u64,
    id: u128,
    names: Option<NameRefusal>,
    refusals: Seq<ReadRefusal>,
    max_page_size: u64,
    max_result_bytes: u64,
) -> Result<ScannedView, Error> {
    match scan_collection(roots, page, id, names, refusals, max_page_size) {
        Err(e) => Err(e),
        Ok(at) => match candidates {
            Err(e) => Err(e),
            Ok(candidates) => scanned(
                roots.collections[at],
                candidates,
                page.limit,
                max_result_bytes,
                0,
                opening_bytes(page_bytes),
                Seq::empty(),
            ),
        },
    }
}

pub open spec fn points_of(collection: u128, ids: Seq<u128>) -> Seq<Point> {
    Seq::new(ids.len(), |i: int| Point { collection, id: ids[i] })
}

// ---------------------------------------------------------------------
// What the selection carries
// ---------------------------------------------------------------------

/// What a page carries so far, what that retains, and what is reserved for it.
pub struct CarriedView {
    pub collections: Seq<u128>,
    pub documents: Seq<Point>,
    pub archived: Seq<Point>,
    pub archives: Seq<u128>,
    pub retained: u64,
    pub reserved: u64,
}

pub open spec fn with_collection(collections: Seq<u128>, collection: u128) -> Seq<u128> {
    if collections.contains(collection) {
        collections
    } else {
        collections.push(collection)
    }
}

/// What is reserved for so much, if the node admits it.
pub open spec fn reserved(reserved: u64, retained: u64, node_bytes: u64, node_refusal: Error) -> Result<
    u64,
    Error,
> {
    if retained <= reserved {
        Ok(reserved)
    } else if retained > node_bytes {
        Err(node_refusal)
    } else {
        Ok(retained)
    }
}

/// The page with a hot document.
pub open spec fn carry_document(
    carried: CarriedView,
    point: Point,
    held: HeldVersion,
    node_bytes: u64,
    node_refusal: Error,
) -> Result<CarriedView, Error> {
    match heap_accounting::added(
        carried.retained,
        heap_accounting::plus(heap_accounting::times(held.heap, 3), 1024),
        u64::MAX,
    ) {
        Err(e) => Err(e),
        Ok(retained) => match reserved(carried.reserved, retained, node_bytes, node_refusal) {
            Err(e) => Err(e),
            Ok(reserved) => Ok(
                CarriedView {
                    documents: carried.documents.push(point),
                    retained,
                    reserved,
                    ..carried
                },
            ),
        },
    }
}

/// What a reference retains, and its archive with it unless the page carries that.
pub open spec fn reference_retained(
    carried: CarriedView,
    held: HeldVersion,
    archive_heap: u64,
) -> Result<u64, Error> {
    match heap_accounting::added(
        carried.retained,
        heap_accounting::plus(held.heap, 1024),
        u64::MAX,
    ) {
        Err(e) => Err(e),
        Ok(retained) => if carried.archives.contains(held.archive) {
            Ok(retained)
        } else {
            heap_accounting::added(retained, archive_heap, u64::MAX)
        },
    }
}

/// The page with a reference to an archived document, and its archive.
pub open spec fn carry_reference(
    carried: CarriedView,
    archives: Map<u128, u64>,
    point: Point,
    held: HeldVersion,
    node_bytes: u64,
    node_refusal: Error,
) -> Result<CarriedView, Error> {
    match archives.get(held.archive) {
        None => Err(
            errors::refusal(ErrorCode::Corruption, "snapshot archive manifest missing"),
        ),
        Some(heap) => match reference_retained(carried, held, heap) {
            Err(e) => Err(e),
            Ok(retained) => match reserved(carried.reserved, retained, node_bytes, node_refusal) {
                Err(e) => Err(e),
                Ok(reserved) => Ok(
                    CarriedView {
                        archived: carried.archived.push(point),
                        archives: with_collection(carried.archives, held.archive),
                        retained,
                        reserved,
                        ..carried
                    },
                ),
            },
        },
    }
}

/// The page with one more point. That there is no such document is no error.
pub open spec fn carry(
    roots: RootsView,
    carried: CarriedView,
    point: Point,
    refusals: Seq<ReadRefusal>,
    node_bytes: u64,
    node_refusal: Error,
) -> Result<CarriedView, Error> {
    if read_refusal(refusals, point.collection, 0) is Some {
        Err(read_refusal(refusals, point.collection, 0)->0)
    } else {
        match lease_roots::root_at(roots.collections, point.collection, 0) {
            None => Err(errors::refusal(ErrorCode::NotFound, "snapshot collection not found")),
            Some(at) => {
                let listed = CarriedView {
                    collections: with_collection(carried.collections, point.collection),
                    ..carried
                };
                match roots.collections[at].documents.get(point.id) {
                    Some(held) => carry_document(listed, point, held, node_bytes, node_refusal),
                    None => match roots.collections[at].archived.get(point.id) {
                        Some(held) => carry_reference(
                            listed,
                            roots.archives,
                            point,
                            held,
                            node_bytes,
                            node_refusal,
                        ),
                        None => Ok(listed),
                    },
                }
            },
        }
    }
}

pub open spec fn carry_all(
    roots: RootsView,
    carried: CarriedView,
    points: Seq<Point>,
    i: int,
    refusals: Seq<ReadRefusal>,
    node_bytes: u64,
    node_refusal: Error,
) -> Result<CarriedView, Error>
    decreases points.len() - i,
{
    if i < 0 || i >= points.len() {
        Ok(carried)
    } else {
        match carry(roots, carried, points[i], refusals, node_bytes, node_refusal) {
            Err(e) => Err(e),
            Ok(carried) => carry_all(
                roots,
                carried,
                points,
                i + 1,
                refusals,
                node_bytes,
                node_refusal,
            ),
        }
    }
}

/// What is reserved before anything is selected.
pub open spec fn initial_bytes(roots: RootsView, max_result_bytes: u64) -> u64 {
    heap_accounting::plus(
        heap_accounting::plus(
            heap_accounting::times(max_result_bytes, 3),
            roots.metadata_bytes,
        ),
        4096,
    )
}

/// The page of a lease that its points make up.
pub open spec fn page_of(
    roots: RootsView,
    points: Seq<Point>,
    scan: ScannedView,
    a: PageAccess,
) -> Result<SelectedView, Error> {
    match carry_all(
        roots,
        CarriedView {
            collections: Seq::empty(),
            documents: Seq::empty(),
            archived: Seq::empty(),
            archives: Seq::empty(),
            retained: roots.metadata_bytes,
            reserved: initial_bytes(roots, a.max_result_bytes),
        },
        points,
        0,
        a.read_refusals@,
        a.node_bytes,
        a.node_refusal,
    ) {
        Err(e) => Err(e),
        Ok(carried) => if a.release_refusal is Some {
            Err(a.release_refusal->0)
        } else {
            Ok(
                SelectedView {
                    collections: carried.collections,
                    documents: carried.documents,
                    archived: carried.archived,
                    archives: carried.archives,
                    scan_ids: scan.ids,
                    scan_has_more: scan.has_more,
                    reserved_bytes: carried.reserved,
                },
            )
        },
    }
}

/// An empty scan still carries its collection.
pub open spec fn empty_page(roots: RootsView, page: ScanPage, a: PageAccess) -> Result<
    SelectedView,
    Error,
> {
    if a.release_refusal is Some {
        Err(a.release_refusal->0)
    } else {
        Ok(
            SelectedView {
                collections: seq![page.collection],
                documents: Seq::empty(),
                archived: Seq::empty(),
                archives: Seq::empty(),
                scan_ids: Seq::empty(),
                scan_has_more: false,
                reserved_bytes: initial_bytes(roots, a.max_result_bytes),
            },
        )
    }
}

pub open spec fn selected_from(roots: RootsView, id: u128, request: PageSelection, a: PageAccess) -> Result<
    SelectedView,
    Error,
> {
    if initial_bytes(roots, a.max_result_bytes) > a.node_bytes {
        Err(a.node_refusal)
    } else {
        match request {
            PageSelection::Points(points) => match points_checked(points@, a.name_refusal) {
                Err(e) => Err(e),
                Ok(()) => page_of(
                    roots,
                    points@,
                    ScannedView { ids: Seq::empty(), has_more: false },
                    a,
                ),
            },
            PageSelection::Scan { page, candidates, page_bytes } => match scan_page(
                roots,
                page,
                match candidates {
                    Ok(ids) => Ok(ids@),
                    Err(e) => Err(e),
                },
                page_bytes,
                id,
                a.name_refusal,
                a.read_refusals@,
                a.max_page_size,
                a.max_result_bytes,
            ) {
                Err(e) => Err(e),
                Ok(scan) => if scan.ids.len() == 0 {
                    empty_page(roots, page, a)
                } else {
                    page_of(roots, points_of(page.collection, scan.ids), scan, a)
                },
            },
        }
    }
}

/// What a caller gets of a lease.
pub open spec fn selected(
    entries: Seq<RootsView>,
    caller: LeaseCaller,
    id: u128,
    request: PageSelection,
    a: PageAccess,
) -> Result<SelectedView, Error> {
    if a.live_refusal is Some {
        Err(a.live_refusal->0)
    } else if a.cancelled is Some {
        Err(a.cancelled->0)
    } else {
        match lease_manager::checked_lease(entries, caller, id) {
            Err(e) => Err(e),
            Ok(at) => selected_from(entries[at], id, request, a),
        }
    }
}

// ---------------------------------------------------------------------
// The selection
// ---------------------------------------------------------------------

fn check_points(points: &Vec<Point>, names: &Option<NameRefusal>) -> (r: Result<(), Error>)
    ensures
        r == points_checked(points@, *names),
{
    if points.len() == 0 || points.len() > 256 {
        return Err(error(ErrorCode::InvalidArgument, "snapshot point page outside bounds"));
    }
    let mut j: usize = 0;
    while j < points.len()
        invariant
            j <= points.len(),
            1 <= points.len() <= 256,
            points_from(points@, *names, 0) == points_from(points@, *names, j as int),
        decreases points.len() - j,
    {
        match names {
            Some(refused) => {
                if refused.at == j as u64 {
                    return Err(refused.refusal);
                }
            },
            None => {},
        }
        assert(refused_at(*names, j as int) is None);
        let mut i: usize = 0;
        while i < j
            invariant
                i <= j < points.len(),
                1 <= points.len() <= 256,
                refused_at(*names, j as int) is None,
                points_from(points@, *names, 0) == points_from(points@, *names, j as int),
                forall|k: int| 0 <= k < i ==> #[trigger] points@[k] != points@[j as int],
            decreases j - i,
        {
            if points[i] == points[j] {
                assert(points@[i as int] == points@[j as int]);
                assert(repeated(points@, j as int));
                return Err(error(ErrorCode::InvalidArgument, "duplicate snapshot point"));
            }
            i = i + 1;
        }
        assert(!repeated(points@, j as int));
        j = j + 1;
    }
    Ok(())
}

fn refusal_of(refusals: &Vec<ReadRefusal>, collection: u128) -> (r: Option<Error>)
    ensures
        r == read_refusal(refusals@, collection, 0),
{
    let mut i: usize = 0;
    while i < refusals.len()
        invariant
            i <= refusals.len(),
            read_refusal(refusals@, collection, 0) == read_refusal(
                refusals@,
                collection,
                i as int,
            ),
        decreases refusals.len() - i,
    {
        if refusals[i].collection == collection {
            return Some(refusals[i].refusal);
        }
        i = i + 1;
    }
    None
}

fn find_root(collections: &Vec<RootCollection>, name: u128) -> (r: Option<usize>)
    ensures
        match r {
            None => lease_roots::root_at(lease_roots::roots_view(collections@), name, 0) is None,
            Some(at) => at < collections.len() && lease_roots::root_at(
                lease_roots::roots_view(collections@),
                name,
                0,
            ) == Some(at as int),
        },
{
    let ghost view = lease_roots::roots_view(collections@);
    let mut i: usize = 0;
    while i < collections.len()
        invariant
            i <= collections.len(),
            view == lease_roots::roots_view(collections@),
            lease_roots::root_at(view, name, 0) == lease_roots::root_at(view, name, i as int),
        decreases collections.len() - i,
    {
        assert(view[i as int].name == collections@[i as int].name);
        if collections[i].name == name {
            return Some(i);
        }
        i = i + 1;
    }
    None
}

fn size_of_document(root: &RootCollection, id: u128) -> (r: Result<u64, Error>)
    ensures
        r == document_bytes(root@, id),
{
    match root.documents.get(id) {
        Some(held) => return Ok(held.document_bytes),
        None => {},
    }
    match root.archived.get(id) {
        Some(held) => Ok(held.document_bytes),
        None => Err(error(ErrorCode::Corruption, "snapshot ID reference missing")),
    }
}

struct Scanned {
    ids: Vec<u128>,
    has_more: bool,
}

impl View for Scanned {
    type V = ScannedView;

    closed spec fn view(&self) -> ScannedView {
        ScannedView { ids: self.ids@, has_more: self.has_more }
    }
}

fn scan(
    root: &RootCollection,
    candidates: &Vec<u128>,
    limit: u64,
    max_result_bytes: u64,
    opening: u64,
) -> (r: Result<Scanned, Error>)
    ensures
        match r {
            Err(e) => scanned(
                root@,
                candidates@,
                limit,
                max_result_bytes,
                0,
                opening,
                Seq::empty(),
            ) == Err::<ScannedView, Error>(e),
            Ok(page) => scanned(
                root@,
                candidates@,
                limit,
                max_result_bytes,
                0,
                opening,
                Seq::empty(),
            ) == Ok::<ScannedView, Error>(page@),
        },
{
    let mut ids: Vec<u128> = Vec::new();
    let mut bytes: u64 = opening;
    let mut i: usize = 0;
    while i < candidates.len()
        invariant
            i <= candidates.len(),
            ids.len() <= i,
            scanned(root@, candidates@, limit, max_result_bytes, 0, opening, Seq::empty())
                == scanned(
                root@,
                candidates@,
                limit,
                max_result_bytes,
                i as int,
                bytes,
                ids@,
            ),
        decreases candidates.len() - i,
    {
        let size: u64 = size_of_document(root, candidates[i])?;
        let next: u64 = bytes.saturating_add(size.saturating_add(1));
        if ids.len() as u64 >= limit || next > max_result_bytes {
            if ids.len() == 0 {
                return Err(
                    error(
                        ErrorCode::ResourceExhausted,
                        "snapshot document cannot fit page budget",
                    ),
                );
            }
            return Ok(Scanned { ids, has_more: true });
        }
        bytes = next;
        ids.push(candidates[i]);
        i = i + 1;
    }
    Ok(Scanned { ids, has_more: false })
}

struct Carried {
    collections: Vec<u128>,
    documents: Vec<Point>,
    archived: Vec<Point>,
    archives: Vec<u128>,
    retained: u64,
    reserved: u64,
}

impl View for Carried {
    type V = CarriedView;

    closed spec fn view(&self) -> CarriedView {
        CarriedView {
            collections: self.collections@,
            documents: self.documents@,
            archived: self.archived@,
            archives: self.archives@,
            retained: self.retained,
            reserved: self.reserved,
        }
    }
}

fn listed(items: &Vec<u128>, item: u128) -> (b: bool)
    ensures
        b == items@.contains(item),
{
    let mut i: usize = 0;
    while i < items.len()
        invariant
            i <= items.len(),
            forall|j: int| 0 <= j < i ==> items@[j] != item,
        decreases items.len() - i,
    {
        if items[i] == item {
            assert(items@[i as int] == item);
            return true;
        }
        i = i + 1;
    }
    false
}

fn list(items: &mut Vec<u128>, item: u128)
    ensures
        final(items)@ == with_collection(old(items)@, item),
{
    if !listed(items, item) {
        items.push(item);
    }
}

fn reserve(now: u64, retained: u64, access: &PageAccess) -> (r: Result<u64, Error>)
    ensures
        r == reserved(now, retained, access.node_bytes, access.node_refusal),
{
    if retained <= now {
        return Ok(now);
    }
    if retained > access.node_bytes {
        return Err(access.node_refusal);
    }
    Ok(retained)
}

fn take(roots: &Roots, carried: &mut Carried, point: Point, access: &PageAccess) -> (r: Result<
    (),
    Error,
>)
    ensures
        match carry(
            roots@,
            old(carried)@,
            point,
            access.read_refusals@,
            access.node_bytes,
            access.node_refusal,
        ) {
            Err(e) => r == Err::<(), Error>(e),
            Ok(next) => r is Ok && final(carried)@ == next,
        },
{
    match refusal_of(&access.read_refusals, point.collection) {
        Some(refusal) => return Err(refusal),
        None => {},
    }
    let at: usize = match find_root(roots.collections(), point.collection) {
        None => return Err(error(ErrorCode::NotFound, "snapshot collection not found")),
        Some(at) => at,
    };
    let root = &roots.collections()[at];
    assert(roots@.collections[at as int] == root@);
    list(&mut carried.collections, point.collection);
    match root.documents.get(point.id) {
        Some(held) => {
            let retained: u64 = charge(
                carried.retained,
                saturating_times(held.heap, 3).saturating_add(1024),
                u64::MAX,
            )?;
            carried.reserved = reserve(carried.reserved, retained, access)?;
            carried.retained = retained;
            carried.documents.push(point);
            return Ok(());
        },
        None => {},
    }
    match root.archived.get(point.id) {
        Some(held) => {
            let heap: u64 = match roots.archives().get(held.archive) {
                None => return Err(
                    error(ErrorCode::Corruption, "snapshot archive manifest missing"),
                ),
                Some(heap) => heap,
            };
            let mut retained: u64 = charge(
                carried.retained,
                held.heap.saturating_add(1024),
                u64::MAX,
            )?;
            if !listed(&carried.archives, held.archive) {
                retained = charge(retained, heap, u64::MAX)?;
            }
            carried.reserved = reserve(carried.reserved, retained, access)?;
            carried.retained = retained;
            carried.archived.push(point);
            list(&mut carried.archives, held.archive);
            Ok(())
        },
        None => Ok(()),
    }
}

fn build(
    roots: &Roots,
    points: &Vec<Point>,
    scan: Scanned,
    initial: u64,
    access: &PageAccess,
) -> (r: Result<Selected, Error>)
    requires
        initial == initial_bytes(roots@, access.max_result_bytes),
    ensures
        match r {
            Err(e) => page_of(roots@, points@, scan@, *access) == Err::<SelectedView, Error>(e),
            Ok(page) => page_of(roots@, points@, scan@, *access) == Ok::<SelectedView, Error>(
                page@,
            ),
        },
{
    let mut carried = Carried {
        collections: Vec::new(),
        documents: Vec::new(),
        archived: Vec::new(),
        archives: Vec::new(),
        retained: roots.metadata_bytes(),
        reserved: initial,
    };
    let ghost start = carried@;
    let mut i: usize = 0;
    while i < points.len()
        invariant
            i <= points.len(),
            carry_all(
                roots@,
                start,
                points@,
                0,
                access.read_refusals@,
                access.node_bytes,
                access.node_refusal,
            ) == carry_all(
                roots@,
                carried@,
                points@,
                i as int,
                access.read_refusals@,
                access.node_bytes,
                access.node_refusal,
            ),
            start == (CarriedView {
                collections: Seq::empty(),
                documents: Seq::empty(),
                archived: Seq::empty(),
                archives: Seq::empty(),
                retained: roots@.metadata_bytes,
                reserved: initial_bytes(roots@, access.max_result_bytes),
            }),
        decreases points.len() - i,
    {
        take(roots, &mut carried, points[i], access)?;
        i = i + 1;
    }
    match access.release_refusal {
        Some(refusal) => return Err(refusal),
        None => {},
    }
    Ok(
        Selected {
            collections: carried.collections,
            documents: carried.documents,
            archived: carried.archived,
            archives: carried.archives,
            scan_ids: scan.ids,
            scan_has_more: scan.has_more,
            reserved_bytes: carried.reserved,
        },
    )
}

fn points(collection: u128, ids: &Vec<u128>) -> (points: Vec<Point>)
    ensures
        points@ == points_of(collection, ids@),
{
    let mut points: Vec<Point> = Vec::new();
    let mut i: usize = 0;
    while i < ids.len()
        invariant
            i <= ids.len(),
            points.len() == i,
            forall|j: int|
                0 <= j < i ==> #[trigger] points@[j] == (Point { collection, id: ids@[j] }),
        decreases ids.len() - i,
    {
        points.push(Point { collection, id: ids[i] });
        i = i + 1;
    }
    assert(points@ =~= points_of(collection, ids@));
    points
}

fn select_from(roots: &Roots, id: u128, request: &PageSelection, access: &PageAccess) -> (r: Result<
    Selected,
    Error,
>)
    ensures
        match r {
            Err(e) => selected_from(roots@, id, *request, *access) == Err::<SelectedView, Error>(
                e,
            ),
            Ok(page) => selected_from(roots@, id, *request, *access) == Ok::<SelectedView, Error>(
                page@,
            ),
        },
{
    let initial: u64 = saturating_times(access.max_result_bytes, 3).saturating_add(
        roots.metadata_bytes(),
    ).saturating_add(4096);
    if initial > access.node_bytes {
        return Err(access.node_refusal);
    }
    match request {
        PageSelection::Points(points) => {
            check_points(points, &access.name_refusal)?;
            let scan = Scanned { ids: Vec::new(), has_more: false };
            assert(scan@.ids =~= Seq::empty());
            build(roots, points, scan, initial, access)
        },
        PageSelection::Scan { page, candidates, page_bytes } => {
            if page.lease_id != id {
                return Err(
                    error(ErrorCode::InvalidArgument, "snapshot scan lease identity differs"),
                );
            }
            match &access.name_refusal {
                Some(refused) => return Err(refused.refusal),
                None => {},
            }
            if page.limit == 0 || page.limit > access.max_page_size {
                return Err(
                    error(ErrorCode::InvalidArgument, "snapshot scan limit outside bounds"),
                );
            }
            match refusal_of(&access.read_refusals, page.collection) {
                Some(refusal) => return Err(refusal),
                None => {},
            }
            let at: usize = match find_root(roots.collections(), page.collection) {
                None => return Err(error(ErrorCode::NotFound, "snapshot collection not found")),
                Some(at) => at,
            };
            let root = &roots.collections()[at];
            assert(roots@.collections[at as int] == root@);
            let ids = match candidates {
                Err(refusal) => return Err(*refusal),
                Ok(ids) => ids,
            };
            let taken = scan(
                root,
                ids,
                page.limit,
                access.max_result_bytes,
                page_bytes.saturating_add(256),
            )?;
            if taken.ids.len() == 0 {
                match access.release_refusal {
                    Some(refusal) => return Err(refusal),
                    None => {},
                }
                let mut collections: Vec<u128> = Vec::new();
                collections.push(page.collection);
                let empty = Selected {
                    collections,
                    documents: Vec::new(),
                    archived: Vec::new(),
                    archives: Vec::new(),
                    scan_ids: Vec::new(),
                    scan_has_more: false,
                    reserved_bytes: initial,
                };
                assert(empty@.collections =~= seq![page.collection]);
                return Ok(empty);
            }
            let wanted = points(page.collection, &taken.ids);
            build(roots, &wanted, taken, initial, access)
        },
    }
}

impl LeaseManager {
    /// Selects a page of a lease for a caller who may use it. The original roots
    /// decide what is there, the current state who may read it.
    pub fn select(
        &self,
        caller: &LeaseCaller,
        id: u128,
        request: &PageSelection,
        access: &PageAccess,
    ) -> (r: Result<Selected, Error>)
        ensures
            match r {
                Err(e) => selected(self@, *caller, id, *request, *access) == Err::<
                    SelectedView,
                    Error,
                >(e),
                Ok(page) => selected(self@, *caller, id, *request, *access) == Ok::<
                    SelectedView,
                    Error,
                >(page@),
            },
    {
        match access.live_refusal {
            Some(refusal) => return Err(refusal),
            None => {},
        }
        match access.cancelled {
            Some(refusal) => return Err(refusal),
            None => {},
        }
        let at: usize = self.checked(caller, id)?;
        select_from(self.roots(at), id, request, access)
    }
}

} // verus!
