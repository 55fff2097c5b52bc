//! Administrative prefix export: what is selected, how it is cut into chunks, and
//! what each published object is held to.
use vstd::prelude::*;

use crate::digest;
use crate::digest::{digest, Digest, Name};
use crate::errors;
use crate::errors::{error, Error, ErrorCode};
use crate::history_model;
use crate::history_model::{
    ArchiveBounds, Collection, Descriptor, DescriptorView, Document, DocumentView, HistoryState,
    HistoryView,
};
use crate::history_rules;
use crate::history_state::{archivable, archive_at, collection_at};
use crate::texts::copy_text;

verus! {

/// A request to archive a collection's history up to a revision.
#[derive(Clone, Copy, Debug, PartialEq, Eq, Structural)]
pub struct ArchiveHistory {
    pub archive_id: Name,
    pub collection: Name,
    pub cutoff_revision: u64,
    pub destination: Name,
}

/// What an export request comes to.
#[derive(Clone, Copy, Debug, PartialEq, Eq, Structural)]
pub enum ExportStep {
    /// The archive stands already: answered with the revision of its publication.
    Retained { revision: u64, strict_read_audit: bool },
    /// The collection that is exported.
    Export { collection: usize },
}

pub open spec fn retained_step(s: HistoryView, at: int, request: ArchiveHistory) -> Result<
    ExportStep,
    Error,
> {
    let manifest = s.archives[at].manifest;
    if manifest.collection != request.collection || manifest.cutoff_revision
        != request.cutoff_revision || manifest.destination != request.destination {
        Err(
            errors::refusal(
                ErrorCode::Conflict,
                "archive identity reused for different request",
            ),
        )
    } else {
        let collection = history_rules::collection_at(s.collections, request.collection, 0)->0;
        Ok(
            ExportStep::Retained {
                revision: s.archives[at].published_revision,
                strict_read_audit: s.strict_read_audit
                    || s.collections[collection].strict_read_audit,
            },
        )
    }
}

pub open spec fn export_step(s: HistoryView, request: ArchiveHistory) -> Result<ExportStep, Error> {
    match history_rules::archive_at(s.archives, request.archive_id, 0) {
        Some(at) => retained_step(s, at, request),
        None => if request.cutoff_revision > s.revision || s.archives.len()
            >= s.max_archive_segments {
            Err(
                errors::refusal(
                    ErrorCode::ResourceExhausted,
                    "archive cutoff or catalog capacity outside bounds",
                ),
            )
        } else {
            match history_rules::collection_at(s.collections, request.collection, 0) {
                None => Err(errors::refusal(ErrorCode::NotFound, "archive collection missing")),
                Some(at) => match history_rules::archivable(
                    s.collections[at],
                    "collection is not eligible for archival",
                    "text-indexed history needs supported cold text storage",
                ) {
                    Err(e) => Err(e),
                    Ok(()) => Ok(ExportStep::Export { collection: at as usize }),
                },
            }
        },
    }
}

/// What stands between a caller and an export: what refuses the request's names, the
/// caller's administration of the tenant and of the collection, the reading of the
/// collection, and the access to the node; whether another export may begin; and, behind
/// the quorum's barrier, what the wait came to and what refuses the release.
#[derive(Clone, Copy, Debug)]
pub struct ExportAccess {
    pub name_refusal: Option<Error>,
    pub tenant_refusal: Option<Error>,
    pub collection_refusal: Option<Error>,
    pub read_refusal: Option<Error>,
    pub access_refusal: Option<Error>,
    pub slot_free: bool,
    pub barrier: Result<(), Error>,
    pub release_refusal: Option<Error>,
}

/// What an export is refused with in front of its request, if so.
pub open spec fn access_refused(a: ExportAccess) -> Option<Error> {
    if a.name_refusal is Some {
        a.name_refusal
    } else if a.tenant_refusal is Some {
        a.tenant_refusal
    } else if a.collection_refusal is Some {
        a.collection_refusal
    } else if a.read_refusal is Some {
        a.read_refusal
    } else if a.access_refusal is Some {
        a.access_refusal
    } else if !a.slot_free {
        Some(
            errors::refusal(
                ErrorCode::ResourceExhausted,
                "archive export concurrency limit reached",
            ),
        )
    } else if a.barrier is Err {
        Some(a.barrier->Err_0)
    } else {
        a.release_refusal
    }
}

/// Whether a caller may export, before the request is looked at.
pub fn admit_export(access: &ExportAccess) -> (r: Result<(), Error>)
    ensures
        r == match access_refused(*access) {
            Some(e) => Err::<(), Error>(e),
            None => Ok(()),
        },
{
    match access.name_refusal {
        Some(refusal) => return Err(refusal),
        None => {},
    }
    match access.tenant_refusal {
        Some(refusal) => return Err(refusal),
        None => {},
    }
    match access.collection_refusal {
        Some(refusal) => return Err(refusal),
        None => {},
    }
    match access.read_refusal {
        Some(refusal) => return Err(refusal),
        None => {},
    }
    match access.access_refusal {
        Some(refusal) => return Err(refusal),
        None => {},
    }
    if !access.slot_free {
        return Err(
            error(ErrorCode::ResourceExhausted, "archive export concurrency limit reached"),
        );
    }
    access.barrier?;
    match access.release_refusal {
        Some(refusal) => Err(refusal),
        None => Ok(()),
    }
}

/// Whether the request answers with a retained archive, exports a collection, or is
/// refused. A retained archive's collection stands.
pub fn export_admission(state: &HistoryState, request: &ArchiveHistory) -> (r: Result<
    ExportStep,
    Error,
>)
    requires
        ({
            let at = history_rules::archive_at(state@.archives, request.archive_id, 0);
            at is Some && state@.archives[at->0].manifest.collection == request.collection
                && state@.archives[at->0].manifest.cutoff_revision == request.cutoff_revision
                && state@.archives[at->0].manifest.destination == request.destination
                ==> history_rules::collection_at(state@.collections, request.collection, 0) is Some
        }),
    ensures
        r == export_step(state@, *request),
{
    match archive_at(state, request.archive_id) {
        Some(at) => {
            let existing = &state.archives[at];
            assert(state@.archives[at as int] == existing@);
            if existing.manifest.collection != request.collection
                || existing.manifest.cutoff_revision != request.cutoff_revision
                || existing.manifest.destination != request.destination {
                return Err(
                    error(ErrorCode::Conflict, "archive identity reused for different request"),
                );
            }
            match collection_at(state, request.collection) {
                Some(collection) => {
                    assert(state@.collections[collection as int]
                        == state.collections@[collection as int]@);
                    return Ok(
                        ExportStep::Retained {
                            revision: existing.published_revision,
                            strict_read_audit: state.strict_read_audit
                                || state.collections[collection].strict_read_audit,
                        },
                    );
                },
                None => {},
            }
        },
        None => {},
    }
    if request.cutoff_revision > state.revision || state.archives.len() as u64
        >= state.max_archive_segments {
        return Err(
            error(
                ErrorCode::ResourceExhausted,
                "archive cutoff or catalog capacity outside bounds",
            ),
        );
    }
    let at: usize = match collection_at(state, request.collection) {
        None => return Err(error(ErrorCode::NotFound, "archive collection missing")),
        Some(at) => at,
    };
    assert(state@.collections[at as int] == state.collections@[at as int]@);
    archivable(
        &state.collections[at],
        "collection is not eligible for archival",
        "text-indexed history needs supported cold text storage",
    )?;
    Ok(ExportStep::Export { collection: at })
}

/// The documents up to the cutoff, from `i` on, behind those selected before.
pub open spec fn selected(
    documents: Seq<DocumentView>,
    cutoff: u64,
    b: ArchiveBounds,
    i: int,
    bytes: u64,
    rows: Seq<DocumentView>,
) -> Result<Seq<DocumentView>, Error>
    decreases documents.len() - i,
{
    if i < 0 || i >= documents.len() {
        Ok(rows)
    } else if documents[i].version > cutoff {
        selected(documents, cutoff, b, i + 1, bytes, rows)
    } else if bytes + documents[i].body_bytes > u64::MAX {
        Err(errors::refusal(ErrorCode::ResourceExhausted, "archive source size overflow"))
    } else if bytes + documents[i].body_bytes > b.max_source_bytes || rows.len()
        >= b.max_documents {
        Err(
            errors::refusal(
                ErrorCode::ResourceExhausted,
                "archive prefix exceeds bounded export capacity; choose an earlier cutoff",
            ),
        )
    } else {
        selected(
            documents,
            cutoff,
            b,
            i + 1,
            (bytes + documents[i].body_bytes) as u64,
            rows.push(documents[i]),
        )
    }
}

pub open spec fn selection(documents: Seq<DocumentView>, cutoff: u64, b: ArchiveBounds) -> Result<
    Seq<DocumentView>,
    Error,
> {
    match selected(documents, cutoff, b, 0, 0, Seq::empty()) {
        Err(e) => Err(e),
        Ok(rows) => if rows.len() == 0 {
            Err(
                errors::refusal(
                    ErrorCode::NotFound,
                    "archive prefix has no hot source documents",
                ),
            )
        } else {
            Ok(rows)
        },
    }
}

/// The hot documents up to the cutoff, within the bounds of one export.
pub fn select(collection: &Collection, cutoff: u64, bounds: &ArchiveBounds) -> (r: Result<
    Vec<Document>,
    Error,
>)
    ensures
        match r {
            Err(e) => selection(collection@.documents, cutoff, *bounds) == Err::<
                Seq<DocumentView>,
                Error,
            >(e),
            Ok(rows) => selection(collection@.documents, cutoff, *bounds) == Ok::<
                Seq<DocumentView>,
                Error,
            >(history_model::documents_view(rows@)),
        },
{
    let documents = &collection.documents;
    let ghost view = collection@.documents;
    let mut rows: Vec<Document> = Vec::new();
    let mut bytes: u64 = 0;
    let mut i: usize = 0;
    assert(history_model::documents_view(rows@) =~= Seq::empty());
    while i < documents.len()
        invariant
            i <= documents.len(),
            documents == collection.documents,
            view == history_model::documents_view(documents@),
            view == collection@.documents,
            rows.len() <= i,
            selected(view, cutoff, *bounds, 0, 0, Seq::empty()) == selected(
                view,
                cutoff,
                *bounds,
                i as int,
                bytes,
                history_model::documents_view(rows@),
            ),
        decreases documents.len() - i,
    {
        let document = &documents[i];
        assert(view[i as int] == document@);
        if document.version <= cutoff {
            let sum: u64 = match bytes.checked_add(document.body_bytes) {
                None => return Err(
                    error(ErrorCode::ResourceExhausted, "archive source size overflow"),
                ),
                Some(sum) => sum,
            };
            if sum > bounds.max_source_bytes || rows.len() as u64 >= bounds.max_documents {
                return Err(
                    error(
                        ErrorCode::ResourceExhausted,
                        "archive prefix exceeds bounded export capacity; choose an earlier cutoff",
                    ),
                );
            }
            let ghost held = rows@;
            rows.push(document.copy());
            assert(history_model::documents_view(rows@) =~= history_model::documents_view(
                held,
            ).push(view[i as int]));
            bytes = sum;
        }
        i = i + 1;
    }
    assert(history_model::documents_view(rows@).len() == rows.len());
    if rows.len() == 0 {
        return Err(error(ErrorCode::NotFound, "archive prefix has no hot source documents"));
    }
    Ok(rows)
}

/// What is done with the next document of an export.
#[derive(Clone, Copy, Debug, PartialEq, Eq, Structural)]
pub enum ChunkStep {
    /// It goes into the open chunk, which then takes so many bytes.
    Append { chunk_bytes: u64 },
    /// The open chunk is exported first, and a new one opened.
    Export,
}

pub open spec fn saturating(a: u64, b: int) -> u64 {
    if a + b > u64::MAX {
        u64::MAX
    } else {
        (a + b) as u64
    }
}

/// Where a document of `bytes` goes, with an open chunk of `chunk_bytes` that holds
/// `held` documents.
pub open spec fn chunk_step_of(chunk_bytes: u64, held: u64, bytes: u64, max: u64) -> Result<
    ChunkStep,
    Error,
> {
    let needed = saturating(chunk_bytes, saturating(bytes, 1) as int);
    if needed > max {
        if held > 0 {
            Ok(ChunkStep::Export)
        } else {
            Err(
                errors::refusal(
                    ErrorCode::ResourceExhausted,
                    "history document exceeds chunk limit",
                ),
            )
        }
    } else {
        Ok(ChunkStep::Append { chunk_bytes: needed })
    }
}

/// The bytes of an empty chunk, with room for its framing.
pub fn opened(empty_chunk_bytes: u64) -> (bytes: u64)
    ensures
        bytes == saturating(empty_chunk_bytes, 16),
{
    empty_chunk_bytes.saturating_add(16)
}

pub fn chunk_step(chunk_bytes: u64, held: u64, document_bytes: u64, max_chunk_bytes: u64) -> (r:
    Result<ChunkStep, Error>)
    ensures
        r == chunk_step_of(chunk_bytes, held, document_bytes, max_chunk_bytes),
{
    let needed: u64 = chunk_bytes.saturating_add(document_bytes.saturating_add(1));
    if needed > max_chunk_bytes {
        if held > 0 {
            return Ok(ChunkStep::Export);
        }
        return Err(
            error(ErrorCode::ResourceExhausted, "history document exceeds chunk limit"),
        );
    }
    Ok(ChunkStep::Append { chunk_bytes: needed })
}

/// An open chunk never takes more than a chunk may, and a document that goes into
/// an empty chunk or none is never exported around.
pub proof fn lemma_chunk_step(chunk_bytes: u64, held: u64, bytes: u64, max: u64)
    ensures
        match chunk_step_of(chunk_bytes, held, bytes, max) {
            Ok(ChunkStep::Append { chunk_bytes: next }) => chunk_bytes <= next <= max && next
                >= bytes,
            Ok(ChunkStep::Export) => held > 0,
            Err(e) => held == 0 && chunk_bytes + bytes + 1 > max,
        },
{
}

/// The latest version among the documents, from `n` of them.
pub open spec fn latest(documents: Seq<DocumentView>, n: int) -> u64
    decreases n,
{
    if n <= 0 {
        0
    } else if documents[n - 1].version > latest(documents, n - 1) {
        documents[n - 1].version
    } else {
        latest(documents, n - 1)
    }
}

/// The revision that the chunk of the rows from `first` to before `end` is encrypted
/// under: its latest version.
pub fn chunk_revision(rows: &Vec<Document>, first: usize, end: usize) -> (revision: u64)
    requires
        first <= end <= rows.len(),
    ensures
        revision == latest(
            history_model::documents_view(rows@).subrange(first as int, end as int),
            end - first,
        ),
{
    let ghost part = history_model::documents_view(rows@).subrange(first as int, end as int);
    let mut revision: u64 = 0;
    let mut i: usize = first;
    while i < end
        invariant
            first <= i <= end <= rows.len(),
            part == history_model::documents_view(rows@).subrange(first as int, end as int),
            revision == latest(part, i - first),
        decreases end - i,
    {
        assert(part[i - first] == rows@[i as int]@);
        if rows[i].version > revision {
            revision = rows[i].version;
        }
        i = i + 1;
    }
    revision
}

pub open spec fn described(
    documents: Seq<DocumentView>,
    encoded: Seq<u8>,
    object_id: u128,
    ciphertext_sha256: Digest,
    max: u64,
) -> Result<DescriptorView, Error> {
    if encoded.len() > max {
        Err(
            errors::refusal(
                ErrorCode::ResourceExhausted,
                "archive chunk exceeds encoding bound",
            ),
        )
    } else {
        Ok(
            DescriptorView {
                object_id,
                ciphertext_sha256,
                plaintext_sha256: digest::digest_of(encoded),
                plaintext_bytes: encoded.len() as u64,
                document_count: documents.len() as u64,
                first_id: documents.first().id,
                last_id: documents.last().id,
            },
        )
    }
}

/// The descriptor of the exported chunk of the rows from `first` to before `end`,
/// one row at least.
pub fn describe_chunk(
    rows: &Vec<Document>,
    first: usize,
    end: usize,
    encoded: &Vec<u8>,
    object_id: u128,
    ciphertext_sha256: Digest,
    max_chunk_bytes: u64,
) -> (r: Result<Descriptor, Error>)
    requires
        first < end <= rows.len(),
    ensures
        match described(
            history_model::documents_view(rows@).subrange(first as int, end as int),
            encoded@,
            object_id,
            ciphertext_sha256,
            max_chunk_bytes,
        ) {
            Err(e) => r == Err::<Descriptor, Error>(e),
            Ok(chunk) => r is Ok && r->Ok_0@ == chunk,
        },
{
    if encoded.len() as u64 > max_chunk_bytes {
        return Err(
            error(ErrorCode::ResourceExhausted, "archive chunk exceeds encoding bound"),
        );
    }
    let ghost part = history_model::documents_view(rows@).subrange(first as int, end as int);
    assert(part.first() == rows@[first as int]@);
    assert(part.last() == rows@[end - 1]@);
    Ok(
        Descriptor {
            object_id,
            ciphertext_sha256,
            plaintext_sha256: digest(encoded),
            plaintext_bytes: encoded.len() as u64,
            document_count: (end - first) as u64,
            first_id: copy_text(&rows[first].id),
            last_id: copy_text(&rows[end - 1].id),
        },
    )
}

/// Whether an object that was read back holds what was published. A failed
/// transport may follow a durable creation, so that only this decides.
pub fn check_published(expected: Digest, read_back: &[u8]) -> (r: Result<(), Error>)
    ensures
        r == if digest::digest_of(read_back@) != expected {
            Err(
                errors::refusal(ErrorCode::Corruption, "published history plaintext differs"),
            )
        } else {
            Ok(())
        },
{
    let actual = digest(read_back);
    if actual != expected {
        return Err(error(ErrorCode::Corruption, "published history plaintext differs"));
    }
    Ok(())
}

} // verus!
