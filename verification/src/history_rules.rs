//! What an archive of history is held to, and what its publication moves.
use vstd::prelude::*;

use crate::digest;
use crate::digest::Name;
use crate::errors;
use crate::errors::{Error, ErrorCode};
use crate::history_model;
use crate::history_model::{
    ArchiveBounds, ArchiveForms, ArchivedView, ChunkRefusal, CollectionView, DescriptorView,
    DocumentView, EntrySize, HistoryView, IndexedField, ManifestView, PublishArchiveView,
    RetainedView,
};
use crate::texts;

verus! {

// ---------------------------------------------------------------------
// Rows
// ---------------------------------------------------------------------

/// Identities ascend strictly.
pub open spec fn ascending(documents: Seq<DocumentView>) -> bool {
    forall|i: int, j: int|
        0 <= i < j < documents.len() ==> texts::less(
            (#[trigger] documents[i]).id,
            (#[trigger] documents[j]).id,
        )
}

pub open spec fn ascending_references(rows: Seq<ArchivedView>) -> bool {
    forall|i: int, j: int|
        0 <= i < j < rows.len() ==> texts::less(
            (#[trigger] rows[i]).id,
            (#[trigger] rows[j]).id,
        )
}

/// The documents that a cutoff archives.
pub open spec fn eligible(documents: Seq<DocumentView>, cutoff: u64) -> Seq<DocumentView> {
    documents.filter(|d: DocumentView| d.version <= cutoff)
}

/// The documents of the interval from `first` to `last`.
pub open spec fn interval(documents: Seq<DocumentView>, first: Seq<u8>, last: Seq<u8>) -> Seq<
    DocumentView,
> {
    documents.filter(|d: DocumentView| !texts::less(d.id, first) && !texts::less(last, d.id))
}

/// The documents under any other identity.
pub open spec fn without(documents: Seq<DocumentView>, id: Seq<u8>) -> Seq<DocumentView> {
    documents.filter(|d: DocumentView| d.id != id)
}

pub open spec fn has_reference(rows: Seq<ArchivedView>, id: Seq<u8>) -> bool {
    exists|i: int| 0 <= i < rows.len() && (#[trigger] rows[i]).id == id
}

/// The rows with one more, in its place.
pub open spec fn inserted(rows: Seq<ArchivedView>, row: ArchivedView) -> Seq<ArchivedView>
    decreases rows.len(),
{
    if rows.len() == 0 {
        seq![row]
    } else if texts::less(row.id, rows[0].id) {
        seq![row] + rows
    } else {
        seq![rows[0]] + inserted(rows.drop_first(), row)
    }
}

/// The row goes in before the first row that stands behind it.
pub proof fn lemma_inserted(rows: Seq<ArchivedView>, row: ArchivedView, i: int)
    requires
        0 <= i <= rows.len(),
        forall|j: int| 0 <= j < i ==> !texts::less(row.id, (#[trigger] rows[j]).id),
        i < rows.len() ==> texts::less(row.id, rows[i].id),
    ensures
        inserted(rows, row) == rows.insert(i, row),
    decreases rows.len(),
{
    if rows.len() == 0 {
        assert(rows.insert(i, row) =~= seq![row]);
    } else if texts::less(row.id, rows[0].id) {
        if i > 0 {
            assert(!texts::less(row.id, rows[0].id));
        }
        assert(rows.insert(i, row) =~= seq![row] + rows);
    } else {
        let rest = rows.drop_first();
        assert forall|j: int| 0 <= j < i - 1 implies !texts::less(
            row.id,
            (#[trigger] rest[j]).id,
        ) by {
            assert(rest[j] == rows[j + 1]);
        }
        lemma_inserted(rest, row, i - 1);
        assert(rows.insert(i, row) =~= seq![rows[0]] + rest.insert(i - 1, row));
    }
}

/// What a filter keeps of a sequence with one more item.
pub proof fn lemma_filter_push<A>(items: Seq<A>, item: A, keep: spec_fn(A) -> bool)
    ensures
        items.push(item).filter(keep) == if keep(item) {
            items.filter(keep).push(item)
        } else {
            items.filter(keep)
        },
{
    reveal(Seq::filter);
    assert(items.push(item).drop_last() =~= items);
}

// ---------------------------------------------------------------------
// Manifests
// ---------------------------------------------------------------------

/// How many bytes an entry takes: its key, a separator and its value.
pub open spec fn entry_bytes(size: EntrySize) -> Result<u64, Error> {
    if size.id + 1 + size.value > u64::MAX {
        Err(errors::refusal(ErrorCode::Corruption, "history metadata byte overflow"))
    } else {
        Ok((size.id + 1 + size.value) as u64)
    }
}

pub open spec fn within_bounds(m: ManifestView, b: ArchiveBounds) -> bool {
    &&& m.chunks.len() != 0
    &&& m.chunks.len() <= b.max_chunks
    &&& m.document_count != 0
    &&& m.document_count <= b.max_documents
    &&& m.encoded_bytes <= b.max_manifest_bytes
}

/// Whether the chunk covers a proper interval behind the ones before it, in an
/// object of its own.
pub open spec fn chunk_bounded(chunks: Seq<DescriptorView>, i: int, b: ArchiveBounds) -> bool {
    &&& !texts::less(chunks[i].last_id, chunks[i].first_id)
    &&& i > 0 ==> texts::less(chunks[i - 1].last_id, chunks[i].first_id)
    &&& chunks[i].document_count != 0
    &&& chunks[i].plaintext_bytes != 0
    &&& chunks[i].plaintext_bytes <= b.max_chunk_bytes
    &&& forall|j: int| 0 <= j < i ==> (#[trigger] chunks[j]).object_id != chunks[i].object_id
}

/// What refuses the form of a chunk.
pub open spec fn chunk_refusal(form: Option<ChunkRefusal>, i: int) -> Option<Error> {
    match form {
        Some(refused) => if refused.at == i {
            Some(refused.refusal)
        } else {
            None
        },
        None => None,
    }
}

/// How many documents the chunks hold, behind the first `i` of them.
pub open spec fn chunks_counted(
    chunks: Seq<DescriptorView>,
    b: ArchiveBounds,
    form: Option<ChunkRefusal>,
    i: int,
    count: u64,
) -> Result<u64, Error>
    decreases chunks.len() - i,
{
    if i < 0 || i >= chunks.len() {
        Ok(count)
    } else if chunk_refusal(form, i) is Some {
        Err(chunk_refusal(form, i)->0)
    } else if !chunk_bounded(chunks, i, b) {
        Err(errors::refusal(ErrorCode::InvalidArgument, "invalid archive chunk bounds"))
    } else if count + chunks[i].document_count > u64::MAX {
        Err(errors::refusal(ErrorCode::InvalidArgument, "archive count overflow"))
    } else {
        chunks_counted(chunks, b, form, i + 1, (count + chunks[i].document_count) as u64)
    }
}

pub open spec fn manifest_valid(m: ManifestView, b: ArchiveBounds, forms: ArchiveForms) -> Result<
    (),
    Error,
> {
    if forms.names is Some {
        Err(forms.names->0)
    } else if !within_bounds(m, b) {
        Err(errors::refusal(ErrorCode::InvalidArgument, "archive manifest outside bounds"))
    } else {
        match chunks_counted(m.chunks, b, forms.chunk, 0, 0) {
            Err(e) => Err(e),
            Ok(count) => if count != m.document_count {
                Err(
                    errors::refusal(
                        ErrorCode::InvalidArgument,
                        "archive count differs from manifest",
                    ),
                )
            } else {
                Ok(())
            },
        }
    }
}

// ---------------------------------------------------------------------
// Publication
// ---------------------------------------------------------------------

/// Where a collection stands, from `i` on.
pub open spec fn collection_at(collections: Seq<CollectionView>, name: Name, i: int) -> Option<int>
    decreases collections.len() - i,
{
    if i < 0 || i >= collections.len() {
        None
    } else if collections[i].name == name {
        Some(i)
    } else {
        collection_at(collections, name, i + 1)
    }
}

/// Where an archive stands, from `i` on.
pub open spec fn archive_at(archives: Seq<RetainedView>, id: Name, i: int) -> Option<int>
    decreases archives.len() - i,
{
    if i < 0 || i >= archives.len() {
        None
    } else if archives[i].manifest.archive_id == id {
        Some(i)
    } else {
        archive_at(archives, id, i + 1)
    }
}

/// The first of three refusals.
pub open spec fn first_of(a: Option<Error>, b: Option<Error>, c: Option<Error>) -> Option<Error> {
    if a is Some {
        a
    } else if b is Some {
        b
    } else {
        c
    }
}

/// Whether a retained archive is the one that the request publishes.
pub open spec fn republishes(existing: RetainedView, req: PublishArchiveView) -> bool {
    existing.manifest == req.manifest && existing.manifest_object_id == req.manifest_object_id
        && existing.manifest_ciphertext_sha256 == req.manifest_ciphertext_sha256
}

/// Whether the archive's source and authority are still the current ones.
pub open spec fn fenced(s: HistoryView, req: PublishArchiveView) -> bool {
    &&& req.manifest.tenant == s.tenant
    &&& req.manifest.source_incarnation == s.incarnation
    &&& req.manifest.source_schema_epoch == s.schema_epoch
    &&& req.expected_policy_epoch == s.policy_epoch
    &&& req.manifest.cutoff_revision <= s.revision
}

/// Whether history of the collection can be archived.
pub open spec fn archivable(c: CollectionView, unfit: &'static str, indexed: &'static str) -> Result<
    (),
    Error,
> {
    if !c.archivable || !c.append_only {
        Err(errors::refusal(ErrorCode::Forbidden, unfit))
    } else if c.text_indexed {
        Err(errors::refusal(ErrorCode::Conflict, indexed))
    } else {
        Ok(())
    }
}

/// The collection that a new archive is published from.
pub open spec fn source_collection(s: HistoryView, req: PublishArchiveView) -> Result<int, Error> {
    if !fenced(s, req) {
        Err(errors::refusal(ErrorCode::Conflict, "archive source or authority fence changed"))
    } else if s.archives.len() >= s.max_archive_segments {
        Err(errors::refusal(ErrorCode::QuotaExceeded, "archive manifest quota exhausted"))
    } else {
        match collection_at(s.collections, req.manifest.collection, 0) {
            None => Err(errors::refusal(ErrorCode::NotFound, "archive collection missing")),
            Some(at) => match archivable(
                s.collections[at],
                "collection is not eligible for history archival",
                "text-indexed history requires a supported cold text index",
            ) {
                Err(e) => Err(e),
                Ok(()) => Ok(at),
            },
        }
    }
}

/// The bytes of the bodies, behind the first `i` of them.
pub open spec fn bodies(documents: Seq<DocumentView>, i: int, sum: u64) -> Result<u64, Error>
    decreases documents.len() - i,
{
    if i < 0 || i >= documents.len() {
        Ok(sum)
    } else if sum + documents[i].body_bytes > u64::MAX {
        Err(errors::refusal(ErrorCode::QuotaExceeded, "archive source size overflow"))
    } else {
        bodies(documents, i + 1, (sum + documents[i].body_bytes) as u64)
    }
}

/// The hot rows that the archive covers, within its bounds.
pub open spec fn source_rows(c: CollectionView, m: ManifestView, b: ArchiveBounds) -> Result<
    Seq<DocumentView>,
    Error,
> {
    let rows = eligible(c.documents, m.cutoff_revision);
    if rows.len() != m.document_count {
        Err(errors::refusal(ErrorCode::Conflict, "archive source count changed"))
    } else {
        match bodies(rows, 0, 0) {
            Err(e) => Err(e),
            Ok(bytes) => if bytes > b.max_source_bytes {
                Err(
                    errors::refusal(
                        ErrorCode::ResourceExhausted,
                        "archive prefix exceeds source byte bound",
                    ),
                )
            } else {
                Ok(rows)
            },
        }
    }
}

/// Whether the rows are the whole interval that the chunk describes.
pub open spec fn covers(rows: Seq<DocumentView>, chunk: DescriptorView) -> bool {
    &&& rows.len() == chunk.document_count
    &&& rows.len() > 0
    &&& rows.first().id == chunk.first_id
    &&& rows.last().id == chunk.last_id
}

/// A row that moves, and the chunk it moves to.
pub struct Moved {
    pub document: DocumentView,
    pub chunk: u64,
}

pub open spec fn moved_to(rows: Seq<DocumentView>, chunk: u64) -> Seq<Moved> {
    Seq::new(rows.len(), |i: int| Moved { document: rows[i], chunk })
}

/// The rows that move to the chunks from `i` on, behind those of the chunks
/// before. Each chunk's rows are encoded in the bytes that its object holds.
pub open spec fn moves(
    rows: Seq<DocumentView>,
    chunks: Seq<DescriptorView>,
    encodings: Seq<Vec<u8>>,
    i: int,
    moved: Seq<Moved>,
) -> Result<Seq<Moved>, Error>
    decreases chunks.len() - i,
{
    if i < 0 || i >= chunks.len() {
        Ok(moved)
    } else {
        let covered = interval(rows, chunks[i].first_id, chunks[i].last_id);
        if !covers(covered, chunks[i]) {
            Err(
                errors::refusal(
                    ErrorCode::Conflict,
                    "archive chunk does not cover its source interval",
                ),
            )
        } else if digest::digest_of(encodings[i]@) != chunks[i].plaintext_sha256
            || encodings[i]@.len() != chunks[i].plaintext_bytes {
            Err(
                errors::refusal(
                    ErrorCode::Conflict,
                    "archive source bytes differ from verified chunk",
                ),
            )
        } else {
            moves(rows, chunks, encodings, i + 1, moved + moved_to(covered, i as u64))
        }
    }
}

pub open spec fn all_moves(rows: Seq<DocumentView>, m: ManifestView, encodings: Seq<Vec<u8>>) -> Result<
    Seq<Moved>,
    Error,
> {
    match moves(rows, m.chunks, encodings, 0, Seq::empty()) {
        Err(e) => Err(e),
        Ok(moved) => if moved.len() != rows.len() {
            Err(errors::refusal(ErrorCode::Conflict, "archive intervals omit source rows"))
        } else {
            Ok(moved)
        },
    }
}

/// What a document holds under a path.
pub open spec fn field_at(fields: Seq<IndexedField>, path: Name, i: int) -> Option<IndexedField>
    decreases fields.len() - i,
{
    if i < 0 || i >= fields.len() {
        None
    } else if fields[i].path == path {
        Some(fields[i])
    } else {
        field_at(fields, path, i + 1)
    }
}

/// What a document holds under the first `n` of the definition's paths.
pub open spec fn index_fields(paths: Seq<Name>, fields: Seq<IndexedField>, n: int) -> Seq<IndexedField>
    decreases n,
{
    if n <= 0 {
        Seq::empty()
    } else {
        match field_at(fields, paths[n - 1], 0) {
            None => index_fields(paths, fields, n - 1),
            Some(field) => index_fields(paths, fields, n - 1).push(field),
        }
    }
}

pub open spec fn reference_of(
    paths: Seq<Name>,
    archive_id: Name,
    moved: Moved,
    size: EntrySize,
) -> ArchivedView {
    ArchivedView {
        id: moved.document.id,
        version: moved.document.version,
        archive_id,
        chunk_index: moved.chunk,
        document_sha256: moved.document.sha256,
        document_bytes: moved.document.encoded_bytes,
        indexed_fields: index_fields(paths, moved.document.fields, paths.len() as int),
        size,
        form_refusal: None,
    }
}

/// What a publication makes of a collection and of the tenant's logical bytes.
pub struct Staged {
    pub documents: Seq<DocumentView>,
    pub archived: Seq<ArchivedView>,
    pub archived_bytes: u64,
    pub logical_bytes: u64,
}

/// One row moved out of the hot documents, into the references.
pub open spec fn stage_row(
    paths: Seq<Name>,
    archive_id: Name,
    moved: Moved,
    size: EntrySize,
    staged: Staged,
) -> Result<Staged, Error> {
    if has_reference(staged.archived, moved.document.id) {
        Err(errors::refusal(ErrorCode::Corruption, "history identity already archived"))
    } else {
        match entry_bytes(size) {
            Err(e) => Err(e),
            Ok(bytes) => if staged.archived_bytes + bytes > u64::MAX {
                Err(
                    errors::refusal(ErrorCode::QuotaExceeded, "archive reference size overflow"),
                )
            } else if staged.logical_bytes < moved.document.body_bytes {
                Err(errors::refusal(ErrorCode::Corruption, "archive logical byte underflow"))
            } else {
                Ok(
                    Staged {
                        documents: without(staged.documents, moved.document.id),
                        archived: inserted(
                            staged.archived,
                            reference_of(paths, archive_id, moved, size),
                        ),
                        archived_bytes: (staged.archived_bytes + bytes) as u64,
                        logical_bytes: (staged.logical_bytes - moved.document.body_bytes) as u64,
                    },
                )
            },
        }
    }
}

/// Every row from `i` on, moved.
pub open spec fn stage(
    paths: Seq<Name>,
    archive_id: Name,
    moved: Seq<Moved>,
    sizes: Seq<EntrySize>,
    i: int,
    staged: Staged,
) -> Result<Staged, Error>
    decreases moved.len() - i,
{
    if i < 0 || i >= moved.len() {
        Ok(staged)
    } else {
        match stage_row(paths, archive_id, moved[i], sizes[i], staged) {
            Err(e) => Err(e),
            Ok(staged) => stage(paths, archive_id, moved, sizes, i + 1, staged),
        }
    }
}

pub open spec fn staged_collection(c: CollectionView, staged: Staged) -> CollectionView {
    CollectionView {
        documents: staged.documents,
        archived: staged.archived,
        archived_bytes: staged.archived_bytes,
        ..c
    }
}

pub open spec fn retained_as(req: PublishArchiveView, revision: u64, size: EntrySize) -> RetainedView {
    RetainedView {
        manifest: req.manifest,
        storage_destination: req.manifest.destination,
        storage_backup_session: None,
        manifest_object_id: req.manifest_object_id,
        manifest_ciphertext_sha256: req.manifest_ciphertext_sha256,
        published_revision: revision,
        size,
        forms: history_model::accepted_forms(),
    }
}

/// The state with the archive in its catalog, and its rows moved.
pub open spec fn cataloged(
    s: HistoryView,
    at: int,
    staged: Staged,
    req: PublishArchiveView,
    revision: u64,
    size: EntrySize,
) -> Result<HistoryView, Error> {
    match entry_bytes(size) {
        Err(e) => Err(e),
        Ok(bytes) => if s.archive_bytes + bytes > u64::MAX {
            Err(errors::refusal(ErrorCode::QuotaExceeded, "archive catalog byte overflow"))
        } else {
            Ok(
                HistoryView {
                    logical_bytes: staged.logical_bytes,
                    collections: s.collections.update(
                        at,
                        staged_collection(s.collections[at], staged),
                    ),
                    archives: s.archives.push(retained_as(req, revision, size)),
                    archive_bytes: (s.archive_bytes + bytes) as u64,
                    ..s
                },
            )
        },
    }
}

/// A new archive, published.
pub open spec fn publish_new(
    s: HistoryView,
    req: PublishArchiveView,
    encodings: Seq<Vec<u8>>,
    sizes: Seq<EntrySize>,
    size: EntrySize,
    revision: u64,
    b: ArchiveBounds,
) -> Result<HistoryView, Error> {
    match source_collection(s, req) {
        Err(e) => Err(e),
        Ok(at) => match source_rows(s.collections[at], req.manifest, b) {
            Err(e) => Err(e),
            Ok(rows) => if encodings.len() != req.manifest.chunks.len() || sizes.len()
                != req.manifest.document_count {
                Err(errors::refusal(ErrorCode::Corruption, "archive encodings are incomplete"))
            } else {
                match all_moves(rows, req.manifest, encodings) {
                    Err(e) => Err(e),
                    Ok(moved) => match stage(
                        s.collections[at].paths,
                        req.manifest.archive_id,
                        moved,
                        sizes,
                        0,
                        Staged {
                            documents: s.collections[at].documents,
                            archived: s.collections[at].archived,
                            archived_bytes: s.collections[at].archived_bytes,
                            logical_bytes: s.logical_bytes,
                        },
                    ) {
                        Err(e) => Err(e),
                        Ok(staged) => cataloged(s, at, staged, req, revision, size),
                    },
                }
            },
        },
    }
}

/// What a publication makes of the state, the revision it answers, and whether it
/// changed anything. An archive is published once; the same one again is answered
/// as it was.
pub open spec fn published(
    s: HistoryView,
    refusal: Option<Error>,
    req: PublishArchiveView,
    encodings: Seq<Vec<u8>>,
    sizes: Seq<EntrySize>,
    size: EntrySize,
    revision: u64,
    b: ArchiveBounds,
) -> Result<(HistoryView, u64, bool), Error> {
    if refusal is Some {
        Err(refusal->0)
    } else {
        match manifest_valid(req.manifest, b, req.forms) {
            Err(e) => Err(e),
            Ok(()) => if req.forms.object is Some {
                Err(req.forms.object->0)
            } else {
                match archive_at(s.archives, req.manifest.archive_id, 0) {
                    Some(at) => if !republishes(s.archives[at], req) {
                        Err(
                            errors::refusal(
                                ErrorCode::Conflict,
                                "archive identity reused for different history",
                            ),
                        )
                    } else {
                        Ok((s, s.archives[at].published_revision, false))
                    },
                    None => match publish_new(s, req, encodings, sizes, size, revision, b) {
                        Err(e) => Err(e),
                        Ok(next) => Ok((next, revision, true)),
                    },
                }
            },
        }
    }
}

// ---------------------------------------------------------------------
// Restored state
// ---------------------------------------------------------------------

pub open spec fn corrupt(message: &'static str) -> Error {
    errors::refusal(ErrorCode::Corruption, message)
}

/// Whether the reference's indexed fields are all of the definition's paths.
pub open spec fn fields_known(paths: Seq<Name>, fields: Seq<IndexedField>) -> bool {
    forall|i: int| 0 <= i < fields.len() ==> paths.contains((#[trigger] fields[i]).path)
}

pub open spec fn has_document(documents: Seq<DocumentView>, id: Seq<u8>) -> bool {
    exists|i: int| 0 <= i < documents.len() && (#[trigger] documents[i]).id == id
}

/// Whether a reference lies in the interval of its chunk, of an archive of its
/// collection.
pub open spec fn reference_holds(
    c: CollectionView,
    row: ArchivedView,
    m: ManifestView,
    chunk: DescriptorView,
) -> bool {
    &&& m.collection == c.name
    &&& row.version <= m.cutoff_revision
    &&& row.version <= c.data_epoch
    &&& !has_document(c.documents, row.id)
    &&& !texts::less(row.id, chunk.first_id)
    &&& !texts::less(chunk.last_id, row.id)
    &&& row.document_bytes != 0
    &&& row.document_bytes <= 1052672
    &&& fields_known(c.paths, row.indexed_fields)
}

pub open spec fn reference_checked(s: HistoryView, c: CollectionView, row: ArchivedView) -> Result<
    (),
    Error,
> {
    if row.form_refusal is Some {
        Err(row.form_refusal->0)
    } else {
        match archive_at(s.archives, row.archive_id, 0) {
            None => Err(corrupt("archived identity has no manifest")),
            Some(at) => if row.chunk_index >= s.archives[at].manifest.chunks.len() {
                Err(corrupt("archived identity has no chunk"))
            } else if !reference_holds(
                c,
                row,
                s.archives[at].manifest,
                s.archives[at].manifest.chunks[row.chunk_index as int],
            ) {
                Err(corrupt("invalid archived identity or index metadata"))
            } else {
                Ok(())
            },
        }
    }
}

/// The bytes of the references, each of which holds, behind the first `i`.
pub open spec fn references_checked(s: HistoryView, c: CollectionView, i: int, sum: u64) -> Result<
    u64,
    Error,
>
    decreases c.archived.len() - i,
{
    if i < 0 || i >= c.archived.len() {
        Ok(sum)
    } else {
        match reference_checked(s, c, c.archived[i]) {
            Err(e) => Err(e),
            Ok(()) => match entry_bytes(c.archived[i].size) {
                Err(e) => Err(e),
                Ok(bytes) => if sum + bytes > u64::MAX {
                    Err(corrupt("archive metadata overflow"))
                } else {
                    references_checked(s, c, i + 1, (sum + bytes) as u64)
                },
            },
        }
    }
}

pub open spec fn collection_checked(s: HistoryView, c: CollectionView) -> Result<(), Error> {
    if c.archived.len() > 0 && (!c.archivable || !c.append_only || c.text_indexed) {
        Err(corrupt("ineligible collection has archived history"))
    } else {
        match references_checked(s, c, 0, 0) {
            Err(e) => Err(e),
            Ok(bytes) => if bytes != c.archived_bytes {
                Err(corrupt("archive reference byte accounting mismatch"))
            } else {
                Ok(())
            },
        }
    }
}

pub open spec fn collections_checked(s: HistoryView, i: int) -> Result<(), Error>
    decreases s.collections.len() - i,
{
    if i < 0 || i >= s.collections.len() {
        Ok(())
    } else {
        match collection_checked(s, s.collections[i]) {
            Err(e) => Err(e),
            Ok(()) => collections_checked(s, i + 1),
        }
    }
}

/// The count, the first and the last of the identities that refer to a chunk.
pub struct Extent {
    pub count: nat,
    pub first: Seq<u8>,
    pub last: Seq<u8>,
}

pub open spec fn extended(extent: Option<Extent>, id: Seq<u8>) -> Option<Extent> {
    match extent {
        None => Some(Extent { count: 1, first: id, last: id }),
        Some(e) => Some(
            Extent {
                count: e.count + 1,
                first: if texts::less(id, e.first) {
                    id
                } else {
                    e.first
                },
                last: if texts::less(e.last, id) {
                    id
                } else {
                    e.last
                },
            },
        ),
    }
}

/// The extent behind the first `n` rows.
pub open spec fn extent_of_rows(
    rows: Seq<ArchivedView>,
    archive_id: Name,
    chunk: int,
    n: int,
    extent: Option<Extent>,
) -> Option<Extent>
    decreases n,
{
    if n <= 0 {
        extent
    } else {
        let before = extent_of_rows(rows, archive_id, chunk, n - 1, extent);
        if rows[n - 1].archive_id == archive_id && rows[n - 1].chunk_index == chunk {
            extended(before, rows[n - 1].id)
        } else {
            before
        }
    }
}

/// The extent over the first `n` collections.
pub open spec fn extent_of(
    collections: Seq<CollectionView>,
    archive_id: Name,
    chunk: int,
    n: int,
) -> Option<Extent>
    decreases n,
{
    if n <= 0 {
        None
    } else {
        extent_of_rows(
            collections[n - 1].archived,
            archive_id,
            chunk,
            collections[n - 1].archived.len() as int,
            extent_of(collections, archive_id, chunk, n - 1),
        )
    }
}

/// Whether what refers to the chunk is the interval that it describes.
pub open spec fn chunk_referenced(s: HistoryView, m: ManifestView, i: int) -> Result<(), Error> {
    match extent_of(s.collections, m.archive_id, i, s.collections.len() as int) {
        None => Err(corrupt("archive manifest has no referenced rows")),
        Some(extent) => if extent.count != m.chunks[i].document_count || extent.first
            != m.chunks[i].first_id || extent.last != m.chunks[i].last_id {
            Err(corrupt("archive referenced interval mismatch"))
        } else {
            Ok(())
        },
    }
}

pub open spec fn chunks_referenced(s: HistoryView, m: ManifestView, i: int) -> Result<(), Error>
    decreases m.chunks.len() - i,
{
    if i < 0 || i >= m.chunks.len() {
        Ok(())
    } else {
        match chunk_referenced(s, m, i) {
            Err(e) => Err(e),
            Ok(()) => chunks_referenced(s, m, i + 1),
        }
    }
}

pub open spec fn archive_checked(s: HistoryView, archive: RetainedView, b: ArchiveBounds) -> Result<
    (),
    Error,
> {
    if archive.forms.destination is Some {
        Err(archive.forms.destination->0)
    } else {
        match manifest_valid(archive.manifest, b, archive.forms) {
            Err(e) => Err(e),
            Ok(()) => if archive.forms.object is Some {
                Err(archive.forms.object->0)
            } else if archive.manifest.tenant != s.tenant || archive.published_revision
                > s.revision {
                Err(corrupt("invalid archive manifest identity"))
            } else {
                chunks_referenced(s, archive.manifest, 0)
            },
        }
    }
}

/// A manifest that is accepted with its forms holds in itself.
pub proof fn lemma_manifest_holds(m: ManifestView, b: ArchiveBounds, forms: ArchiveForms)
    requires
        manifest_valid(m, b, forms) is Ok,
    ensures
        manifest_valid(m, b, history_model::accepted_forms()) is Ok,
{
    lemma_chunks_hold(m.chunks, b, forms.chunk, 0, 0);
}

proof fn lemma_chunks_hold(
    chunks: Seq<DescriptorView>,
    b: ArchiveBounds,
    form: Option<ChunkRefusal>,
    i: int,
    count: u64,
)
    requires
        chunks_counted(chunks, b, form, i, count) is Ok,
    ensures
        chunks_counted(chunks, b, None, i, count) == chunks_counted(chunks, b, form, i, count),
    decreases chunks.len() - i,
{
    if 0 <= i < chunks.len() {
        lemma_chunks_hold(chunks, b, form, i + 1, (count + chunks[i].document_count) as u64);
    }
}

/// The bytes of the catalog, each archive of which holds, behind the first `i`.
pub open spec fn archives_checked(s: HistoryView, b: ArchiveBounds, i: int, sum: u64) -> Result<u64, Error>
    decreases s.archives.len() - i,
{
    if i < 0 || i >= s.archives.len() {
        Ok(sum)
    } else {
        match archive_checked(s, s.archives[i], b) {
            Err(e) => Err(e),
            Ok(()) => match entry_bytes(s.archives[i].size) {
                Err(e) => Err(e),
                Ok(bytes) => if sum + bytes > u64::MAX {
                    Err(corrupt("archive catalog accounting overflow"))
                } else {
                    archives_checked(s, b, i + 1, (sum + bytes) as u64)
                },
            },
        }
    }
}

/// What a restored history is held to.
pub open spec fn restored(s: HistoryView, b: ArchiveBounds) -> Result<(), Error> {
    if s.archives.len() > s.max_archive_segments {
        Err(corrupt("archive catalog exceeds quota"))
    } else {
        match collections_checked(s, 0) {
            Err(e) => Err(e),
            Ok(()) => match archives_checked(s, b, 0, 0) {
                Err(e) => Err(e),
                Ok(bytes) => if bytes != s.archive_bytes {
                    Err(corrupt("archive catalog accounting mismatch"))
                } else {
                    Ok(())
                },
            },
        }
    }
}

} // verus!
