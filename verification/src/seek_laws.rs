//! What a seek promises of its pages: each is answered of the source that was asked
//! for, as of the revision that the seek began with, and goes on exactly where its
//! index page does, so that a seek which is followed to its end lists every row once.
use vstd::prelude::*;

use crate::digest::{Digest, Name};
use crate::errors::{Error, ErrorCode};
use crate::ordered_seek;
use crate::ordered_seek::{
    Continuation, SeekCollection, SeekIndex, SeekPage, SeekRequest, SeekResponse, SeekState,
    SourceIdentity,
};

verus! {

/// Whether the collection is the first of its name.
pub open spec fn is_collection(state: SeekState, name: Name, at: int) -> bool {
    &&& 0 <= at < state.collections@.len()
    &&& state.collections@[at].name == name
    &&& forall|i: int| 0 <= i < at ==> (#[trigger] state.collections@[i]).name != name
}

/// Whether the index is the first unique one of its name.
pub open spec fn is_index(collection: SeekCollection, name: Name, at: int) -> bool {
    &&& 0 <= at < collection.indexes@.len()
    &&& collection.indexes@[at].name == name
    &&& collection.indexes@[at].unique
    &&& forall|i: int|
        0 <= i < at ==> (#[trigger] collection.indexes@[i]).name != name
            || !collection.indexes@[i].unique
}

/// Whether the collection has no unique index of the name.
pub open spec fn lacks_index(collection: SeekCollection, name: Name) -> bool {
    forall|i: int|
        0 <= i < collection.indexes@.len() ==> (#[trigger] collection.indexes@[i]).name != name
            || !collection.indexes@[i].unique
}

proof fn lemma_collection(collections: Seq<SeekCollection>, name: Name, i: int)
    requires
        0 <= i <= collections.len(),
    ensures
        match ordered_seek::collection_at(collections, name, i) {
            None => forall|j: int| i <= j < collections.len() ==> (#[trigger] collections[j]).name
                != name,
            Some(at) => {
                &&& i <= at < collections.len()
                &&& collections[at].name == name
                &&& forall|j: int| i <= j < at ==> (#[trigger] collections[j]).name != name
            },
        },
    decreases collections.len() - i,
{
    if i < collections.len() {
        lemma_collection(collections, name, i + 1);
    }
}

proof fn lemma_index(indexes: Seq<SeekIndex>, name: Name, i: int)
    requires
        0 <= i <= indexes.len(),
    ensures
        match ordered_seek::index_at(indexes, name, i) {
            None => forall|j: int|
                i <= j < indexes.len() ==> (#[trigger] indexes[j]).name != name
                    || !indexes[j].unique,
            Some(index) => exists|at: int|
                {
                    &&& i <= at < indexes.len()
                    &&& #[trigger] indexes[at] == index
                    &&& index.name == name
                    &&& index.unique
                    &&& forall|j: int|
                        i <= j < at ==> (#[trigger] indexes[j]).name != name || !indexes[j].unique
                },
        },
    decreases indexes.len() - i,
{
    if i < indexes.len() {
        if indexes[i].name == name && indexes[i].unique {
            assert(indexes[i] == ordered_seek::index_at(indexes, name, i)->0);
        } else {
            lemma_index(indexes, name, i + 1);
        }
    }
}

/// A response is made of the collection and the unique index that were asked for, and of
/// nothing but rows that were there at its revision. That is the state's own revision on
/// a first page, and on a later page the one of the cursor, which the state, the
/// collection, the index and the request must still match. A response goes on exactly
/// where its index page does, behind the same key, and its cursor names the very source
/// that the response does.
pub proof fn lemma_response(state: SeekState, request: SeekRequest, page: SeekPage, c: int, x: int)
    requires
        is_collection(state, request.collection, c),
        is_index(state.collections@[c], request.index, x),
        ordered_seek::response_of(state, request, page) is Ok,
    ensures
        ({
            let r = ordered_seek::response_of(state, request, page)->Ok_0;
            &&& r.tenant == state.tenant
            &&& r.incarnation == state.incarnation
            &&& r.policy_epoch == state.policy_epoch
            &&& r.schema_epoch == state.schema_epoch
            &&& r.observed_revision == state.revision
            &&& r.collection_epoch == state.collections@[c].data_epoch
            &&& r.index_sha256 == state.collections@[c].indexes@[x].sha256
            &&& r.request_sha256 == request.sha256
            &&& r.index_entries_visited == page.visited
            &&& request.continuation is None ==> r.revision == state.revision
            &&& request.continuation matches Some(cursor) ==> {
                &&& r.revision == cursor.revision
                &&& 0 < cursor.revision <= state.revision
                &&& cursor.tenant == r.tenant
                &&& cursor.incarnation == r.incarnation
                &&& cursor.collection_epoch == r.collection_epoch
                &&& cursor.policy_epoch == r.policy_epoch
                &&& cursor.schema_epoch == r.schema_epoch
                &&& cursor.index_sha256 == r.index_sha256
                &&& cursor.request_sha256 == r.request_sha256
            }
            &&& forall|i: int|
                0 <= i < page.versions@.len() ==> 0 < #[trigger] page.versions@[i] <= r.revision
            &&& r.continuation is Some <==> page.after_key is Some
            &&& r.continuation matches Some(cursor) ==> {
                &&& page.after_key == Some(cursor.after_key)
                &&& cursor.revision == r.revision
                &&& cursor.tenant == r.tenant
                &&& cursor.incarnation == r.incarnation
                &&& cursor.collection_epoch == r.collection_epoch
                &&& cursor.policy_epoch == r.policy_epoch
                &&& cursor.schema_epoch == r.schema_epoch
                &&& cursor.index_sha256 == r.index_sha256
                &&& cursor.request_sha256 == r.request_sha256
            }
        }),
{
    lemma_source(state, request, c, x);
}

/// Whether the cursor names the state's own source of the request, at a revision that the
/// state has reached.
pub open spec fn names_source(
    state: SeekState,
    request: SeekRequest,
    c: int,
    x: int,
    cursor: Continuation,
) -> bool {
    &&& cursor.tenant == state.tenant && cursor.incarnation == state.incarnation
    &&& cursor.policy_epoch == state.policy_epoch && cursor.schema_epoch == state.schema_epoch
    &&& cursor.collection_epoch == state.collections@[c].data_epoch
    &&& cursor.index_sha256 == state.collections@[c].indexes@[x].sha256
    &&& cursor.request_sha256 == request.sha256
    &&& 0 < cursor.revision <= state.revision
}

proof fn lemma_source(state: SeekState, request: SeekRequest, c: int, x: int)
    requires
        is_collection(state, request.collection, c),
        is_index(state.collections@[c], request.index, x),
    ensures
        ordered_seek::collection_at(state.collections@, request.collection, 0) == Some(c),
        ordered_seek::index_at(state.collections@[c].indexes@, request.index, 0) == Some(
            state.collections@[c].indexes@[x],
        ),
{
    lemma_collection(state.collections@, request.collection, 0);
    assert(state.collections@[c].name == request.collection);
    let at = ordered_seek::collection_at(state.collections@, request.collection, 0)->0;
    assert(state.collections@[at].name == request.collection);
    let indexes = state.collections@[c].indexes@;
    lemma_index(indexes, request.index, 0);
    assert(indexes[x].unique);
    let index = ordered_seek::index_at(indexes, request.index, 0)->0;
    let n = choose|n: int|
        {
            &&& 0 <= n < indexes.len()
            &&& #[trigger] indexes[n] == index
            &&& index.name == request.index
            &&& index.unique
            &&& forall|j: int|
                0 <= j < n ==> (#[trigger] indexes[j]).name != request.index || !indexes[j].unique
        };
    assert(indexes[n].unique);
}

/// A page is answered exactly where its cursor, if it has one, names the state's source
/// of the request and every row of it was there at the revision; each of the two has its
/// own refusal.
pub proof fn lemma_answered(state: SeekState, request: SeekRequest, page: SeekPage, c: int, x: int)
    requires
        is_collection(state, request.collection, c),
        is_index(state.collections@[c], request.index, x),
    ensures
        ({
            let r = ordered_seek::response_of(state, request, page);
            let stands = request.continuation matches Some(cursor) ==> names_source(
                state,
                request,
                c,
                x,
                cursor,
            );
            let revision = match request.continuation {
                None => state.revision,
                Some(cursor) => cursor.revision,
            };
            let there = forall|i: int|
                0 <= i < page.versions@.len() ==> 0 < #[trigger] page.versions@[i] <= revision;
            &&& r is Ok <==> stands && there
            &&& r is Err ==> r->Err_0.code == ErrorCode::Conflict
            &&& !stands ==> r->Err_0.message == "ordered seek continuation source changed"
            &&& stands && !there ==> r->Err_0.message
                == "ordered seek source version exceeds original revision"
        }),
{
    lemma_source(state, request, c, x);
}

/// Where no collection has the name, or no unique index of it has, nothing is answered.
pub proof fn lemma_unanswered(state: SeekState, request: SeekRequest, page: SeekPage)
    ensures
        (forall|i: int|
            0 <= i < state.collections@.len() ==> (#[trigger] state.collections@[i]).name
                != request.collection) ==> ordered_seek::response_of(state, request, page) is Err
            && ordered_seek::response_of(state, request, page)->Err_0.code == ErrorCode::NotFound,
        forall|c: int|
            #[trigger] is_collection(state, request.collection, c) && lacks_index(
                state.collections@[c],
                request.index,
            ) ==> ordered_seek::response_of(state, request, page) is Err
                && ordered_seek::response_of(state, request, page)->Err_0.code
                == ErrorCode::IndexRequired,
{
    lemma_collection(state.collections@, request.collection, 0);
    assert forall|c: int|
        #[trigger] is_collection(state, request.collection, c) && lacks_index(
            state.collections@[c],
            request.index,
        ) implies ordered_seek::response_of(state, request, page) is Err
        && ordered_seek::response_of(state, request, page)->Err_0.code
        == ErrorCode::IndexRequired by {
        assert(state.collections@[c].name == request.collection);
        let at = ordered_seek::collection_at(state.collections@, request.collection, 0)->0;
        assert(state.collections@[at].name == request.collection);
        lemma_index(state.collections@[c].indexes@, request.index, 0);
    }
}

/// A row of the index range that a seek runs over: its key, and its version.
pub struct IndexRow {
    pub key: Digest,
    pub version: u64,
}

/// Where the rows behind a cursor begin: at the first row without one, and else behind
/// the row whose key it names.
pub open spec fn begins(rows: Seq<IndexRow>, after: Option<Digest>, at: int) -> bool {
    match after {
        None => at == 0,
        Some(key) => 0 < at <= rows.len() && rows[at - 1].key == key,
    }
}

/// Whether the page is the index's own from `at` to `end`: the versions of those rows,
/// and, where rows are left, the key of its last one.
pub open spec fn index_page(rows: Seq<IndexRow>, page: SeekPage, at: int, end: int) -> bool {
    &&& 0 <= at <= end <= rows.len()
    &&& page.versions@.len() == end - at
    &&& forall|i: int| 0 <= i < end - at ==> #[trigger] page.versions@[i] == rows[at + i].version
    &&& page.after_key == if end < rows.len() && end > 0 {
        Some(rows[end - 1].key)
    } else {
        None
    }
    &&& end < rows.len() ==> end > at
}

/// The key that a request goes on behind.
pub open spec fn after_of(request: SeekRequest) -> Option<Digest> {
    match request.continuation {
        None => None,
        Some(cursor) => Some(cursor.after_key),
    }
}

/// Whether the page is answered, and is the index's own behind the cursor of its request.
pub open spec fn page_answered(
    state: SeekState,
    rows: Seq<IndexRow>,
    request: SeekRequest,
    page: SeekPage,
    bounds: (int, int),
) -> bool {
    &&& ordered_seek::response_of(state, request, page) is Ok
    &&& begins(rows, after_of(request), bounds.0)
    &&& index_page(rows, page, bounds.0, bounds.1)
}

/// Whether the next request is the first one with the cursor that the page before it was
/// answered with.
pub open spec fn goes_on(
    state: SeekState,
    first: SeekRequest,
    request: SeekRequest,
    page: SeekPage,
    next: SeekRequest,
) -> bool {
    let before = ordered_seek::response_of(state, request, page)->Ok_0;
    &&& before.continuation is Some
    &&& next == SeekRequest { continuation: before.continuation, ..first }
}

/// A seek that was followed page by page over one unchanged source: the first request has
/// no cursor, every later one has the cursor of the response before it, and every page is
/// the index's own behind that cursor.
pub open spec fn followed(
    state: SeekState,
    rows: Seq<IndexRow>,
    requests: Seq<SeekRequest>,
    pages: Seq<SeekPage>,
    bounds: Seq<(int, int)>,
) -> bool {
    &&& 0 < requests.len() == pages.len() == bounds.len()
    &&& requests[0].continuation is None
    &&& forall|k: int|
        0 <= k < requests.len() ==> #[trigger] page_answered(
            state,
            rows,
            requests[k],
            pages[k],
            bounds[k],
        )
    &&& forall|k: int|
        0 <= k < requests.len() - 1 ==> #[trigger] goes_on(
            state,
            requests[0],
            requests[k],
            pages[k],
            requests[k + 1],
        )
}

/// What the first `n` pages list, one behind the other.
pub open spec fn versions_listed(pages: Seq<SeekPage>, n: int) -> Seq<u64>
    decreases n,
{
    if n <= 0 {
        Seq::empty()
    } else {
        versions_listed(pages, n - 1) + pages[n - 1].versions@
    }
}

pub open spec fn distinct_keys(rows: Seq<IndexRow>) -> bool {
    forall|i: int, j: int|
        0 <= i < j < rows.len() ==> (#[trigger] rows[i]).key != (#[trigger] rows[j]).key
}

pub open spec fn versions_of(rows: Seq<IndexRow>) -> Seq<u64> {
    Seq::new(rows.len(), |i: int| rows[i].version)
}

proof fn lemma_page_goes_on(state: SeekState, request: SeekRequest, page: SeekPage)
    requires
        ordered_seek::response_of(state, request, page) is Ok,
    ensures
        ({
            let r = ordered_seek::response_of(state, request, page)->Ok_0;
            &&& r.continuation is Some <==> page.after_key is Some
            &&& r.continuation matches Some(cursor) ==> page.after_key == Some(cursor.after_key)
        }),
{
    lemma_collection(state.collections@, request.collection, 0);
    let c = ordered_seek::collection_at(state.collections@, request.collection, 0)->0;
    assert(is_collection(state, request.collection, c));
    let indexes = state.collections@[c].indexes@;
    lemma_index(indexes, request.index, 0);
    let index = ordered_seek::index_at(indexes, request.index, 0)->0;
    let x = choose|n: int|
        {
            &&& 0 <= n < indexes.len()
            &&& #[trigger] indexes[n] == index
            &&& index.name == request.index
            &&& index.unique
            &&& forall|j: int|
                0 <= j < n ==> (#[trigger] indexes[j]).name != request.index || !indexes[j].unique
        };
    assert(is_index(state.collections@[c], request.index, x));
    lemma_response(state, request, page, c, x);
}

proof fn lemma_extends(rows: Seq<IndexRow>, pages: Seq<SeekPage>, n: int, at: int, end: int)
    requires
        0 < n <= pages.len(),
        index_page(rows, pages[n - 1], at, end),
        n > 1 ==> versions_listed(pages, n - 1) == versions_of(rows).take(at),
        n == 1 ==> at == 0,
    ensures
        versions_listed(pages, n) == versions_of(rows).take(end),
{
    if n == 1 {
        assert(versions_listed(pages, 0) =~= versions_of(rows).take(0));
    }
    assert(versions_listed(pages, n) =~= versions_of(rows).take(end));
}

proof fn lemma_followed(
    state: SeekState,
    rows: Seq<IndexRow>,
    requests: Seq<SeekRequest>,
    pages: Seq<SeekPage>,
    bounds: Seq<(int, int)>,
    n: int,
)
    requires
        distinct_keys(rows),
        followed(state, rows, requests, pages, bounds),
        0 < n <= pages.len(),
    ensures
        versions_listed(pages, n) == versions_of(rows).take(bounds[n - 1].1),
        n < pages.len() ==> bounds[n - 1].1 == bounds[n].0,
    decreases n,
{
    let k = n - 1;
    assert(page_answered(state, rows, requests[k], pages[k], bounds[k]));
    let (at, end) = bounds[k];
    if n > 1 {
        lemma_followed(state, rows, requests, pages, bounds, n - 1);
    }
    lemma_extends(rows, pages, n, at, end);
    if n < pages.len() {
        assert(page_answered(state, rows, requests[n], pages[n], bounds[n]));
        assert(goes_on(state, requests[0], requests[k], pages[k], requests[k + 1]));
        lemma_page_goes_on(state, requests[k], pages[k]);
        assert(rows[end - 1].key == rows[bounds[n].0 - 1].key);
    }
}

/// A seek that is followed until a response has no cursor lists every row of the index
/// range once, in the range's own order; and it never ends before.
pub proof fn lemma_seek_lists_each_once(
    state: SeekState,
    rows: Seq<IndexRow>,
    requests: Seq<SeekRequest>,
    pages: Seq<SeekPage>,
    bounds: Seq<(int, int)>,
)
    requires
        distinct_keys(rows),
        followed(state, rows, requests, pages, bounds),
        ordered_seek::response_of(state, requests.last(), pages.last())->Ok_0.continuation is None,
    ensures
        versions_listed(pages, pages.len() as int) == versions_of(rows),
{
    let last = pages.len() - 1;
    lemma_followed(state, rows, requests, pages, bounds, pages.len() as int);
    assert(page_answered(state, rows, requests[last], pages[last], bounds[last]));
    lemma_page_goes_on(state, requests[last], pages[last]);
    assert(versions_of(rows).take(rows.len() as int) =~= versions_of(rows));
}

/// A seek that has not listed every row can go on: the cursor of its last response is
/// accepted on the unchanged source, with any rows that were there when it began.
pub proof fn lemma_seek_goes_on(
    state: SeekState,
    request: SeekRequest,
    page: SeekPage,
    next: SeekPage,
)
    requires
        state.revision > 0,
        ordered_seek::response_of(state, request, page) is Ok,
        ordered_seek::response_of(state, request, page)->Ok_0.continuation is Some,
        forall|i: int|
            0 <= i < next.versions@.len() ==> 0 < #[trigger] next.versions@[i]
                <= ordered_seek::response_of(state, request, page)->Ok_0.revision,
    ensures
        ({
            let first = ordered_seek::response_of(state, request, page)->Ok_0;
            let r = ordered_seek::response_of(
                state,
                SeekRequest { continuation: first.continuation, ..request },
                next,
            );
            &&& r is Ok
            &&& r->Ok_0.revision == first.revision
            &&& r->Ok_0.continuation is Some <==> next.after_key is Some
        }),
{
    let first = ordered_seek::response_of(state, request, page)->Ok_0;
    let following = SeekRequest { continuation: first.continuation, ..request };
    assert(ordered_seek::within(next.versions@, first.revision));
    assert(ordered_seek::response_of(state, following, next) is Ok);
    lemma_page_goes_on(state, following, next);
}

} // verus!
