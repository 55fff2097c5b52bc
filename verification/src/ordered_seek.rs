//! Bounded ordered seeks over a declared unique index, continued by a cursor that
//! names the exact source it was made of.
use vstd::prelude::*;

use crate::digest::{Digest, Name};
use crate::errors;
use crate::errors::{conflict, error, Error, ErrorCode};

verus! {

/// An index of a collection, known by the digest of its definition.
#[derive(Clone, Copy, Debug, PartialEq, Eq, Structural)]
pub struct SeekIndex {
    pub name: Name,
    pub unique: bool,
    pub sha256: Digest,
}

/// A collection that can be sought.
pub struct SeekCollection {
    pub name: Name,
    pub data_epoch: u64,
    pub strict_read_audit: bool,
    pub indexes: Vec<SeekIndex>,
}

/// The state that a seek runs on.
pub struct SeekState {
    pub tenant: Name,
    pub incarnation: u128,
    pub revision: u64,
    pub policy_epoch: u64,
    pub schema_epoch: u64,
    pub collections: Vec<SeekCollection>,
    pub max_result_bytes: u64,
    pub max_document_bytes: u64,
    pub max_page_size: u64,
}

/// Where a seek goes on.
#[derive(Clone, Copy, Debug, PartialEq, Eq, Structural)]
pub struct Continuation {
    pub revision: u64,
    pub tenant: Name,
    pub incarnation: u128,
    pub collection_epoch: u64,
    pub policy_epoch: u64,
    pub schema_epoch: u64,
    pub index_sha256: Digest,
    pub request_sha256: Digest,
    pub after_key: Digest,
}

/// A seek: its collection, its index, the digest of the request without its cursor,
/// its limit, and where it goes on.
#[derive(Clone, Copy, Debug, PartialEq, Eq, Structural)]
pub struct SeekRequest {
    pub collection: Name,
    pub index: Name,
    pub sha256: Digest,
    pub limit: u64,
    pub continuation: Option<Continuation>,
}

/// What a seek is made of.
#[derive(Clone, Copy, Debug, PartialEq, Eq, Structural)]
pub struct SourceIdentity {
    pub collection_epoch: u64,
    pub index_sha256: Digest,
    pub request_sha256: Digest,
}

/// A page of the index: the version of each of its rows, where the next page
/// begins, and how many entries were visited.
pub struct SeekPage {
    pub versions: Vec<u64>,
    pub after_key: Option<Digest>,
    pub visited: u64,
}

/// What a seek is answered, besides the rows of its page.
#[derive(Clone, Copy, Debug, PartialEq, Eq, Structural)]
pub struct SeekResponse {
    pub revision: u64,
    pub observed_revision: u64,
    pub tenant: Name,
    pub incarnation: u128,
    pub collection_epoch: u64,
    pub policy_epoch: u64,
    pub schema_epoch: u64,
    pub index_sha256: Digest,
    pub request_sha256: Digest,
    pub continuation: Option<Continuation>,
    pub index_entries_visited: u64,
}

pub open spec fn collection_at(collections: Seq<SeekCollection>, name: Name, i: int) -> Option<int>
    decreases collections.len() - i,
{
    if i < 0 || i >= collections.len() {
        None
    } else if collections[i].name == name {
        Some(i)
    } else {
        collection_at(collections, name, i + 1)
    }
}

/// The unique index of the name, from `i` on.
pub open spec fn index_at(indexes: Seq<SeekIndex>, name: Name, i: int) -> Option<SeekIndex>
    decreases indexes.len() - i,
{
    if i < 0 || i >= indexes.len() {
        None
    } else if indexes[i].name == name && indexes[i].unique {
        Some(indexes[i])
    } else {
        index_at(indexes, name, i + 1)
    }
}

/// Whether a cursor was made of the current source.
pub open spec fn continues(state: SeekState, source: SourceIdentity, cursor: Continuation) -> bool {
    &&& cursor.revision != 0
    &&& cursor.revision <= state.revision
    &&& cursor.tenant == state.tenant
    &&& cursor.incarnation == state.incarnation
    &&& cursor.collection_epoch == source.collection_epoch
    &&& cursor.policy_epoch == state.policy_epoch
    &&& cursor.schema_epoch == state.schema_epoch
    &&& cursor.index_sha256 == source.index_sha256
    &&& cursor.request_sha256 == source.request_sha256
}

pub open spec fn source_of(state: SeekState, request: SeekRequest) -> Result<SourceIdentity, Error> {
    match collection_at(state.collections@, request.collection, 0) {
        None => Err(errors::refusal(ErrorCode::NotFound, "ordered seek collection absent")),
        Some(at) => match index_at(state.collections@[at].indexes@, request.index, 0) {
            None => Err(
                errors::refusal(
                    ErrorCode::IndexRequired,
                    "ordered seek requires a declared unique tuple index",
                ),
            ),
            Some(index) => {
                let source = SourceIdentity {
                    collection_epoch: state.collections@[at].data_epoch,
                    index_sha256: index.sha256,
                    request_sha256: request.sha256,
                };
                if request.continuation is Some && !continues(
                    state,
                    source,
                    request.continuation->0,
                ) {
                    Err(
                        errors::refusal(
                            ErrorCode::Conflict,
                            "ordered seek continuation source changed",
                        ),
                    )
                } else {
                    Ok(source)
                }
            },
        },
    }
}

fn find_collection(state: &SeekState, name: Name) -> (r: Option<usize>)
    ensures
        match r {
            None => collection_at(state.collections@, name, 0) is None,
            Some(at) => at < state.collections.len() && collection_at(state.collections@, name, 0)
                == Some(at as int),
        },
{
    let mut i: usize = 0;
    while i < state.collections.len()
        invariant
            i <= state.collections.len(),
            collection_at(state.collections@, name, 0) == collection_at(
                state.collections@,
                name,
                i as int,
            ),
        decreases state.collections.len() - i,
    {
        if state.collections[i].name == name {
            return Some(i);
        }
        i = i + 1;
    }
    None
}

fn find_index(indexes: &Vec<SeekIndex>, name: Name) -> (r: Option<SeekIndex>)
    ensures
        r == index_at(indexes@, name, 0),
{
    let mut i: usize = 0;
    while i < indexes.len()
        invariant
            i <= indexes.len(),
            index_at(indexes@, name, 0) == index_at(indexes@, name, i as int),
        decreases indexes.len() - i,
    {
        if indexes[i].name == name && indexes[i].unique {
            return Some(indexes[i]);
        }
        i = i + 1;
    }
    None
}

/// What a seek is made of, if its cursor was made of the same.
pub fn source_identity(state: &SeekState, request: &SeekRequest) -> (r: Result<
    SourceIdentity,
    Error,
>)
    ensures
        r == source_of(*state, *request),
{
    let at: usize = match find_collection(state, request.collection) {
        None => return Err(error(ErrorCode::NotFound, "ordered seek collection absent")),
        Some(at) => at,
    };
    let index = match find_index(&state.collections[at].indexes, request.index) {
        None => return Err(
            error(
                ErrorCode::IndexRequired,
                "ordered seek requires a declared unique tuple index",
            ),
        ),
        Some(index) => index,
    };
    let source = SourceIdentity {
        collection_epoch: state.collections[at].data_epoch,
        index_sha256: index.sha256,
        request_sha256: request.sha256,
    };
    match request.continuation {
        None => {},
        Some(cursor) => {
            if cursor.revision == 0 || cursor.revision > state.revision || cursor.tenant
                != state.tenant || cursor.incarnation != state.incarnation
                || cursor.collection_epoch != source.collection_epoch || cursor.policy_epoch
                != state.policy_epoch || cursor.schema_epoch != state.schema_epoch
                || cursor.index_sha256 != source.index_sha256 || cursor.request_sha256
                != source.request_sha256 {
                return Err(conflict("ordered seek continuation source changed"));
            }
        },
    }
    Ok(source)
}

/// Whether every row was there at the revision.
pub open spec fn within(versions: Seq<u64>, revision: u64) -> bool {
    forall|i: int| 0 <= i < versions.len() ==> 0 < #[trigger] versions[i] <= revision
}

pub open spec fn sought_revision(state: SeekState, request: SeekRequest) -> u64 {
    match request.continuation {
        None => state.revision,
        Some(cursor) => cursor.revision,
    }
}

pub open spec fn continuation_of(
    state: SeekState,
    source: SourceIdentity,
    revision: u64,
    after_key: Option<Digest>,
) -> Option<Continuation> {
    match after_key {
        None => None,
        Some(after_key) => Some(
            Continuation {
                revision,
                tenant: state.tenant,
                incarnation: state.incarnation,
                collection_epoch: source.collection_epoch,
                policy_epoch: state.policy_epoch,
                schema_epoch: state.schema_epoch,
                index_sha256: source.index_sha256,
                request_sha256: source.request_sha256,
                after_key,
            },
        ),
    }
}

/// What a page is answered with.
pub open spec fn response_of(state: SeekState, request: SeekRequest, page: SeekPage) -> Result<
    SeekResponse,
    Error,
> {
    match source_of(state, request) {
        Err(e) => Err(e),
        Ok(source) => {
            let revision = sought_revision(state, request);
            if !within(page.versions@, revision) {
                Err(
                    errors::refusal(
                        ErrorCode::Conflict,
                        "ordered seek source version exceeds original revision",
                    ),
                )
            } else {
                Ok(
                    SeekResponse {
                        revision,
                        observed_revision: state.revision,
                        tenant: state.tenant,
                        incarnation: state.incarnation,
                        collection_epoch: source.collection_epoch,
                        policy_epoch: state.policy_epoch,
                        schema_epoch: state.schema_epoch,
                        index_sha256: source.index_sha256,
                        request_sha256: source.request_sha256,
                        continuation: continuation_of(state, source, revision, page.after_key),
                        index_entries_visited: page.visited,
                    },
                )
            }
        },
    }
}

/// What a page of the index is answered with. A continued seek keeps the revision
/// that it began with.
pub fn respond(state: &SeekState, request: &SeekRequest, page: &SeekPage) -> (r: Result<
    SeekResponse,
    Error,
>)
    ensures
        r == response_of(*state, *request, *page),
{
    let source = source_identity(state, request)?;
    let revision: u64 = match request.continuation {
        None => state.revision,
        Some(cursor) => cursor.revision,
    };
    let mut i: usize = 0;
    while i < page.versions.len()
        invariant
            i <= page.versions.len(),
            source_of(*state, *request) == Ok::<SourceIdentity, Error>(source),
            revision == sought_revision(*state, *request),
            forall|j: int| 0 <= j < i ==> 0 < #[trigger] page.versions@[j] <= revision,
        decreases page.versions.len() - i,
    {
        let version: u64 = page.versions[i];
        if version > revision || version == 0 {
            assert(!within(page.versions@, revision)) by {
                assert(page.versions@[i as int] == version);
            }
            return Err(conflict("ordered seek source version exceeds original revision"));
        }
        i = i + 1;
    }
    let continuation = match page.after_key {
        None => None,
        Some(after_key) => Some(
            Continuation {
                revision,
                tenant: state.tenant,
                incarnation: state.incarnation,
                collection_epoch: source.collection_epoch,
                policy_epoch: state.policy_epoch,
                schema_epoch: state.schema_epoch,
                index_sha256: source.index_sha256,
                request_sha256: source.request_sha256,
                after_key,
            },
        ),
    };
    Ok(
        SeekResponse {
            revision,
            observed_revision: state.revision,
            tenant: state.tenant,
            incarnation: state.incarnation,
            collection_epoch: source.collection_epoch,
            policy_epoch: state.policy_epoch,
            schema_epoch: state.schema_epoch,
            index_sha256: source.index_sha256,
            request_sha256: source.request_sha256,
            continuation,
            index_entries_visited: page.visited,
        },
    )
}

/// Whether an encoded response is within its budget.
pub fn check_result(encoded_bytes: u64, max_result_bytes: u64) -> (r: Result<(), Error>)
    ensures
        r == if encoded_bytes > max_result_bytes {
            Err(
                errors::refusal(
                    ErrorCode::ResourceExhausted,
                    "ordered seek result byte budget exceeded",
                ),
            )
        } else {
            Ok(())
        },
{
    if encoded_bytes > max_result_bytes {
        return Err(
            error(ErrorCode::ResourceExhausted, "ordered seek result byte budget exceeded"),
        );
    }
    Ok(())
}

pub open spec fn plus(a: int, b: int) -> int {
    if a + b > u64::MAX {
        u64::MAX as int
    } else {
        a + b
    }
}

pub open spec fn times(a: int, b: int) -> int {
    if a * b > u64::MAX {
        u64::MAX as int
    } else {
        a * b
    }
}

pub open spec fn workspace_of(state: SeekState, limit: u64) -> int {
    let rows = plus(limit as int, 1);
    let page = plus(state.max_page_size as int, 1);
    plus(
        plus(
            plus(times(state.max_result_bytes as int, 3), times(state.max_document_bytes as int, 4)),
            times(
                if rows < page {
                    rows
                } else {
                    page
                },
                8192,
            ),
        ),
        65536,
    )
}

fn product(a: u64, b: u64) -> (c: u64)
    ensures
        c == times(a as int, b as int),
{
    match a.checked_mul(b) {
        None => u64::MAX,
        Some(c) => c,
    }
}

/// What a seek may take: a bounded page, one row ahead and an encoding copy; no
/// candidate set, sort workspace or index copy.
pub fn workspace(state: &SeekState, limit: u64) -> (bytes: u64)
    ensures
        bytes == workspace_of(*state, limit),
{
    let rows: u64 = limit.saturating_add(1);
    let page: u64 = state.max_page_size.saturating_add(1);
    let bounded: u64 = if rows < page {
        rows
    } else {
        page
    };
    product(state.max_result_bytes, 3).saturating_add(
        product(state.max_document_bytes, 4),
    ).saturating_add(product(bounded, 8192)).saturating_add(65536)
}

/// Whether the source may still be sought within what was admitted before it was
/// current.
pub fn check_admitted(state: &SeekState, limit: u64, admitted: u64) -> (r: Result<(), Error>)
    ensures
        r == if workspace_of(*state, limit) > admitted {
            Err(
                errors::refusal(
                    ErrorCode::ResourceExhausted,
                    "ordered seek limits changed during admission",
                ),
            )
        } else {
            Ok(())
        },
{
    if workspace(state, limit) > admitted {
        return Err(
            error(ErrorCode::ResourceExhausted, "ordered seek limits changed during admission"),
        );
    }
    Ok(())
}

/// Whether a response may still be released.
pub fn check_release(response: &SeekResponse, schema_epoch: u64, incarnation: u128) -> (r: Result<
    (),
    Error,
>)
    ensures
        r == if schema_epoch != response.schema_epoch || incarnation != response.incarnation {
            Err(
                errors::refusal(
                    ErrorCode::Conflict,
                    "ordered seek schema or incarnation changed before release",
                ),
            )
        } else {
            Ok(())
        },
{
    if schema_epoch != response.schema_epoch || incarnation != response.incarnation {
        return Err(conflict("ordered seek schema or incarnation changed before release"));
    }
    Ok(())
}

/// The cursor of a page is accepted by the state that made it, and keeps the
/// revision that the seek began with.
pub proof fn lemma_continued(state: SeekState, request: SeekRequest, page: SeekPage)
    requires
        state.revision > 0,
    ensures
        match response_of(state, request, page) {
            Err(_) => true,
            Ok(response) => response.continuation is Some ==> {
                let next = SeekRequest { continuation: response.continuation, ..request };
                source_of(state, next) is Ok && sought_revision(state, next)
                    == response.revision
            },
        },
{
}

} // verus!
