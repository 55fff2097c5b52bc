//! Consensus validation of verified history publication. Replicas validate the
//! complete manifest against their own immutable source rows before discarding
//! any hot bodies; archived history remains explicitly required on later reads.
use vstd::prelude::*;

use crate::digest::{digest, Name};
use crate::errors::{error, Error, ErrorCode};
use crate::history_model;
use crate::history_model::{
    ArchiveBounds, ArchiveForms, Archived, Collection, Descriptor, Document, DocumentView,
    EntrySize, HistoryState, HistoryView, IndexedField, Manifest, PublishArchive, Retained,
};
use crate::history_rules;
use crate::history_rules::{Extent, Moved, Staged};
use crate::texts;
use crate::texts::{before, copy_text, same};

verus! {

/// How many bytes an entry takes: its key, a separator and its value.
pub fn metadata_entry(size: &EntrySize) -> (r: Result<u64, Error>)
    ensures
        r == history_rules::entry_bytes(*size),
{
    let overflow = error(ErrorCode::Corruption, "history metadata byte overflow");
    match size.id.checked_add(1) {
        None => Err(overflow),
        Some(bytes) => match bytes.checked_add(size.value) {
            None => Err(overflow),
            Some(bytes) => Ok(bytes),
        },
    }
}

fn field_at(fields: &Vec<IndexedField>, path: Name) -> (r: Option<IndexedField>)
    ensures
        r == history_rules::field_at(fields@, path, 0),
{
    let mut i: usize = 0;
    while i < fields.len()
        invariant
            i <= fields.len(),
            history_rules::field_at(fields@, path, 0) == history_rules::field_at(
                fields@,
                path,
                i as int,
            ),
        decreases fields.len() - i,
    {
        if fields[i].path == path {
            return Some(fields[i]);
        }
        i = i + 1;
    }
    None
}

/// What a document holds under the definition's indexed paths.
pub fn index_fields(paths: &Vec<Name>, document: &Document) -> (r: Vec<IndexedField>)
    ensures
        r@ == history_rules::index_fields(paths@, document.fields@, paths@.len() as int),
{
    let mut found: Vec<IndexedField> = Vec::new();
    let mut i: usize = 0;
    while i < paths.len()
        invariant
            i <= paths.len(),
            found@ == history_rules::index_fields(paths@, document.fields@, i as int),
        decreases paths.len() - i,
    {
        match field_at(&document.fields, paths[i]) {
            None => {},
            Some(field) => {
                found.push(field);
            },
        }
        i = i + 1;
    }
    found
}

fn chunk_bounded(chunks: &Vec<Descriptor>, i: usize, bounds: &ArchiveBounds) -> (b: bool)
    requires
        i < chunks.len(),
    ensures
        b == history_rules::chunk_bounded(
            history_model::descriptors_view(chunks@),
            i as int,
            *bounds,
        ),
{
    let ghost view = history_model::descriptors_view(chunks@);
    let chunk = &chunks[i];
    if before(&chunk.last_id, &chunk.first_id) {
        return false;
    }
    if i > 0 && !before(&chunks[i - 1].last_id, &chunk.first_id) {
        assert(view[i - 1].last_id == chunks@[i - 1].last_id@);
        return false;
    }
    if chunk.document_count == 0 || chunk.plaintext_bytes == 0 || chunk.plaintext_bytes
        > bounds.max_chunk_bytes {
        return false;
    }
    let mut j: usize = 0;
    while j < i
        invariant
            j <= i < chunks.len(),
            view == history_model::descriptors_view(chunks@),
            chunk.object_id == view[i as int].object_id,
            forall|k: int| 0 <= k < j ==> (#[trigger] view[k]).object_id != chunk.object_id,
        decreases i - j,
    {
        if chunks[j].object_id == chunk.object_id {
            assert(view[j as int].object_id == chunk.object_id);
            return false;
        }
        j = j + 1;
    }
    true
}

/// Whether a manifest is within its bounds: its chunks cover ascending intervals,
/// each in an object of its own, and hold as many documents as it counts.
pub fn validate_manifest(manifest: &Manifest, bounds: &ArchiveBounds, forms: &ArchiveForms) -> (r: Result<
    (),
    Error,
>)
    ensures
        r == history_rules::manifest_valid(manifest@, *bounds, *forms),
{
    match forms.names {
        Some(refusal) => return Err(refusal),
        None => {},
    }
    let chunks = &manifest.chunks;
    if chunks.len() == 0 || chunks.len() as u64 > bounds.max_chunks || manifest.document_count == 0
        || manifest.document_count > bounds.max_documents || manifest.encoded_bytes
        > bounds.max_manifest_bytes {
        return Err(error(ErrorCode::InvalidArgument, "archive manifest outside bounds"));
    }
    let ghost view = history_model::descriptors_view(chunks@);
    let mut count: u64 = 0;
    let mut i: usize = 0;
    while i < chunks.len()
        invariant
            i <= chunks.len(),
            view == history_model::descriptors_view(chunks@),
            history_rules::chunks_counted(view, *bounds, forms.chunk, 0, 0)
                == history_rules::chunks_counted(view, *bounds, forms.chunk, i as int, count),
            chunks == manifest.chunks,
            forms.names is None,
            history_rules::within_bounds(manifest@, *bounds),
        decreases chunks.len() - i,
    {
        match forms.chunk {
            Some(refused) => {
                if refused.at == i as u64 {
                    return Err(refused.refusal);
                }
            },
            None => {},
        }
        if !chunk_bounded(chunks, i, bounds) {
            return Err(error(ErrorCode::InvalidArgument, "invalid archive chunk bounds"));
        }
        match count.checked_add(chunks[i].document_count) {
            None => return Err(error(ErrorCode::InvalidArgument, "archive count overflow")),
            Some(sum) => {
                count = sum;
            },
        }
        i = i + 1;
    }
    if count != manifest.document_count {
        return Err(error(ErrorCode::InvalidArgument, "archive count differs from manifest"));
    }
    Ok(())
}

/// Where a collection stands.
pub fn collection_at(state: &HistoryState, name: Name) -> (r: Option<usize>)
    ensures
        match r {
            None => history_rules::collection_at(state@.collections, name, 0) is None,
            Some(at) => at < state.collections.len() && history_rules::collection_at(
                state@.collections,
                name,
                0,
            ) == Some(at as int),
        },
{
    let ghost view = state@.collections;
    let mut i: usize = 0;
    while i < state.collections.len()
        invariant
            i <= state.collections.len(),
            view == state@.collections,
            history_rules::collection_at(view, name, 0) == history_rules::collection_at(
                view,
                name,
                i as int,
            ),
        decreases state.collections.len() - i,
    {
        assert(view[i as int].name == state.collections@[i as int].name);
        if state.collections[i].name == name {
            return Some(i);
        }
        i = i + 1;
    }
    None
}

/// Where an archive stands.
pub fn archive_at(state: &HistoryState, id: Name) -> (r: Option<usize>)
    ensures
        match r {
            None => history_rules::archive_at(state@.archives, id, 0) is None,
            Some(at) => at < state.archives.len() && history_rules::archive_at(
                state@.archives,
                id,
                0,
            ) == Some(at as int),
        },
{
    let ghost view = state@.archives;
    let mut i: usize = 0;
    while i < state.archives.len()
        invariant
            i <= state.archives.len(),
            view == state@.archives,
            history_rules::archive_at(view, id, 0) == history_rules::archive_at(view, id, i as int),
        decreases state.archives.len() - i,
    {
        assert(view[i as int].manifest.archive_id == state.archives@[i as int].manifest.archive_id);
        if state.archives[i].manifest.archive_id == id {
            return Some(i);
        }
        i = i + 1;
    }
    None
}

fn same_descriptor(a: &Descriptor, b: &Descriptor) -> (r: bool)
    ensures
        r == (a@ == b@),
{
    a.object_id == b.object_id && a.ciphertext_sha256 == b.ciphertext_sha256 && a.plaintext_sha256
        == b.plaintext_sha256 && a.plaintext_bytes == b.plaintext_bytes && a.document_count
        == b.document_count && same(&a.first_id, &b.first_id) && same(&a.last_id, &b.last_id)
}

/// Whether two manifests are the same.
pub fn same_manifest(a: &Manifest, b: &Manifest) -> (r: bool)
    ensures
        r == (a@ == b@),
{
    if a.archive_id != b.archive_id || a.tenant != b.tenant || a.source_incarnation
        != b.source_incarnation || a.collection != b.collection || a.cutoff_revision
        != b.cutoff_revision || a.source_schema_epoch != b.source_schema_epoch || a.destination
        != b.destination || a.document_count != b.document_count || a.encoded_bytes
        != b.encoded_bytes || a.chunks.len() != b.chunks.len() {
        assert(a@.chunks.len() != b@.chunks.len() || a.chunks.len() == b.chunks.len());
        return false;
    }
    let mut i: usize = 0;
    while i < a.chunks.len()
        invariant
            i <= a.chunks.len(),
            a.chunks.len() == b.chunks.len(),
            forall|j: int| 0 <= j < i ==> (#[trigger] a.chunks@[j])@ == b.chunks@[j]@,
        decreases a.chunks.len() - i,
    {
        if !same_descriptor(&a.chunks[i], &b.chunks[i]) {
            assert(a@.chunks[i as int] != b@.chunks[i as int]);
            return false;
        }
        i = i + 1;
    }
    assert(a@.chunks =~= b@.chunks);
    true
}

/// The documents that a cutoff archives.
pub fn eligible(documents: &Vec<Document>, cutoff: u64) -> (rows: Vec<Document>)
    ensures
        history_model::documents_view(rows@) == history_rules::eligible(
            history_model::documents_view(documents@),
            cutoff,
        ),
        rows.len() <= documents.len(),
{
    let ghost view = history_model::documents_view(documents@);
    let ghost keep = |d: DocumentView| d.version <= cutoff;
    let mut rows: Vec<Document> = Vec::new();
    let mut i: usize = 0;
    proof {
        reveal(Seq::filter);
        assert(view.take(0) =~= Seq::empty());
    }
    while i < documents.len()
        invariant
            i <= documents.len(),
            view == history_model::documents_view(documents@),
            keep == (|d: DocumentView| d.version <= cutoff),
            history_model::documents_view(rows@) == view.take(i as int).filter(keep),
            rows.len() <= i,
        decreases documents.len() - i,
    {
        proof {
            assert(view.take(i + 1) =~= view.take(i as int).push(view[i as int]));
            history_rules::lemma_filter_push(view.take(i as int), view[i as int], keep);
        }
        if documents[i].version <= cutoff {
            let ghost held = rows@;
            let copy = documents[i].copy();
            rows.push(copy);
            assert(history_model::documents_view(rows@) =~= history_model::documents_view(
                held,
            ).push(view[i as int]));
        }
        i = i + 1;
    }
    assert(view.take(view.len() as int) =~= view);
    rows
}

/// The documents of the interval from `first` to `last`.
pub fn interval(documents: &Vec<Document>, first: &Vec<u8>, last: &Vec<u8>) -> (rows: Vec<Document>)
    ensures
        history_model::documents_view(rows@) == history_rules::interval(
            history_model::documents_view(documents@),
            first@,
            last@,
        ),
{
    let ghost view = history_model::documents_view(documents@);
    let ghost keep = |d: DocumentView| !texts::less(d.id, first@) && !texts::less(last@, d.id);
    let mut rows: Vec<Document> = Vec::new();
    let mut i: usize = 0;
    proof {
        reveal(Seq::filter);
        assert(view.take(0) =~= Seq::empty());
    }
    while i < documents.len()
        invariant
            i <= documents.len(),
            view == history_model::documents_view(documents@),
            keep == (|d: DocumentView|
                !texts::less(d.id, first@) && !texts::less(last@, d.id)),
            history_model::documents_view(rows@) == view.take(i as int).filter(keep),
        decreases documents.len() - i,
    {
        proof {
            assert(view.take(i + 1) =~= view.take(i as int).push(view[i as int]));
            history_rules::lemma_filter_push(view.take(i as int), view[i as int], keep);
        }
        if !before(&documents[i].id, first) && !before(last, &documents[i].id) {
            let ghost held = rows@;
            let copy = documents[i].copy();
            rows.push(copy);
            assert(history_model::documents_view(rows@) =~= history_model::documents_view(
                held,
            ).push(view[i as int]));
        }
        i = i + 1;
    }
    assert(view.take(view.len() as int) =~= view);
    rows
}

fn without(documents: &Vec<Document>, id: &Vec<u8>) -> (rows: Vec<Document>)
    ensures
        history_model::documents_view(rows@) == history_rules::without(
            history_model::documents_view(documents@),
            id@,
        ),
{
    let ghost view = history_model::documents_view(documents@);
    let ghost keep = |d: DocumentView| d.id != id@;
    let mut rows: Vec<Document> = Vec::new();
    let mut i: usize = 0;
    proof {
        reveal(Seq::filter);
        assert(view.take(0) =~= Seq::empty());
    }
    while i < documents.len()
        invariant
            i <= documents.len(),
            view == history_model::documents_view(documents@),
            keep == (|d: DocumentView| d.id != id@),
            history_model::documents_view(rows@) == view.take(i as int).filter(keep),
        decreases documents.len() - i,
    {
        proof {
            assert(view.take(i + 1) =~= view.take(i as int).push(view[i as int]));
            history_rules::lemma_filter_push(view.take(i as int), view[i as int], keep);
        }
        if !same(&documents[i].id, id) {
            let ghost held = rows@;
            let copy = documents[i].copy();
            rows.push(copy);
            assert(history_model::documents_view(rows@) =~= history_model::documents_view(
                held,
            ).push(view[i as int]));
        }
        i = i + 1;
    }
    assert(view.take(view.len() as int) =~= view);
    rows
}

fn has_reference(rows: &Vec<Archived>, id: &Vec<u8>) -> (b: bool)
    ensures
        b == history_rules::has_reference(history_model::archived_view(rows@), id@),
{
    let ghost view = history_model::archived_view(rows@);
    let mut i: usize = 0;
    while i < rows.len()
        invariant
            i <= rows.len(),
            view == history_model::archived_view(rows@),
            forall|j: int| 0 <= j < i ==> (#[trigger] view[j]).id != id@,
        decreases rows.len() - i,
    {
        if same(&rows[i].id, id) {
            assert(view[i as int].id == id@);
            return true;
        }
        i = i + 1;
    }
    false
}

fn insert_reference(rows: &mut Vec<Archived>, row: Archived)
    ensures
        history_model::archived_view(final(rows)@) == history_rules::inserted(
            history_model::archived_view(old(rows)@),
            row@,
        ),
{
    let ghost view = history_model::archived_view(rows@);
    let mut i: usize = 0;
    while i < rows.len() && !before(&row.id, &rows[i].id)
        invariant
            i <= rows.len(),
            view == history_model::archived_view(rows@),
            rows@ == old(rows)@,
            forall|j: int| 0 <= j < i ==> !texts::less(row@.id, (#[trigger] view[j]).id),
        decreases rows.len() - i,
    {
        i = i + 1;
    }
    proof {
        history_rules::lemma_inserted(view, row@, i as int);
    }
    let ghost added = row@;
    rows.insert(i, row);
    assert(history_model::archived_view(rows@) =~= view.insert(i as int, added));
}

/// Whether history of the collection can be archived.
pub fn archivable(collection: &Collection, unfit: &'static str, indexed: &'static str) -> (r: Result<
    (),
    Error,
>)
    ensures
        r == history_rules::archivable(collection@, unfit, indexed),
{
    if !collection.archivable || !collection.append_only {
        return Err(error(ErrorCode::Forbidden, unfit));
    }
    if collection.text_indexed {
        return Err(error(ErrorCode::Conflict, indexed));
    }
    Ok(())
}

fn source_collection(state: &HistoryState, request: &PublishArchive) -> (r: Result<usize, Error>)
    ensures
        match r {
            Err(e) => history_rules::source_collection(state@, request@) == Err::<int, Error>(e),
            Ok(at) => at < state.collections.len() && history_rules::source_collection(
                state@,
                request@,
            ) == Ok::<int, Error>(at as int),
        },
{
    let manifest = &request.manifest;
    if manifest.tenant != state.tenant || manifest.source_incarnation != state.incarnation
        || manifest.source_schema_epoch != state.schema_epoch || request.expected_policy_epoch
        != state.policy_epoch || manifest.cutoff_revision > state.revision {
        return Err(error(ErrorCode::Conflict, "archive source or authority fence changed"));
    }
    if state.archives.len() as u64 >= state.max_archive_segments {
        return Err(error(ErrorCode::QuotaExceeded, "archive manifest quota exhausted"));
    }
    let at: usize = match collection_at(state, manifest.collection) {
        None => return Err(error(ErrorCode::NotFound, "archive collection missing")),
        Some(at) => at,
    };
    archivable(
        &state.collections[at],
        "collection is not eligible for history archival",
        "text-indexed history requires a supported cold text index",
    )?;
    Ok(at)
}

fn bodies(documents: &Vec<Document>) -> (r: Result<u64, Error>)
    ensures
        r == history_rules::bodies(history_model::documents_view(documents@), 0, 0),
{
    let ghost view = history_model::documents_view(documents@);
    let mut sum: u64 = 0;
    let mut i: usize = 0;
    while i < documents.len()
        invariant
            i <= documents.len(),
            view == history_model::documents_view(documents@),
            history_rules::bodies(view, 0, 0) == history_rules::bodies(view, i as int, sum),
        decreases documents.len() - i,
    {
        match sum.checked_add(documents[i].body_bytes) {
            None => return Err(error(ErrorCode::QuotaExceeded, "archive source size overflow")),
            Some(bytes) => {
                sum = bytes;
            },
        }
        i = i + 1;
    }
    Ok(sum)
}

fn source_rows(collection: &Collection, manifest: &Manifest, bounds: &ArchiveBounds) -> (r: Result<
    Vec<Document>,
    Error,
>)
    ensures
        match r {
            Err(e) => history_rules::source_rows(collection@, manifest@, *bounds) == Err::<
                Seq<DocumentView>,
                Error,
            >(e),
            Ok(rows) => history_rules::source_rows(collection@, manifest@, *bounds) == Ok::<
                Seq<DocumentView>,
                Error,
            >(history_model::documents_view(rows@)),
        },
{
    let rows = eligible(&collection.documents, manifest.cutoff_revision);
    assert(history_model::documents_view(rows@).len() == rows.len());
    if rows.len() as u64 != manifest.document_count {
        return Err(error(ErrorCode::Conflict, "archive source count changed"));
    }
    let bytes: u64 = bodies(&rows)?;
    if bytes > bounds.max_source_bytes {
        return Err(
            error(ErrorCode::ResourceExhausted, "archive prefix exceeds source byte bound"),
        );
    }
    Ok(rows)
}

/// A row that moves, and the chunk it moves to.
struct MovedRow {
    document: Document,
    chunk: u64,
}

spec fn moved_view(moved: Seq<MovedRow>) -> Seq<Moved> {
    Seq::new(moved.len(), |i: int| Moved { document: moved[i].document@, chunk: moved[i].chunk })
}

fn covers(rows: &Vec<Document>, chunk: &Descriptor) -> (b: bool)
    ensures
        b == history_rules::covers(history_model::documents_view(rows@), chunk@),
{
    let ghost view = history_model::documents_view(rows@);
    if rows.len() as u64 != chunk.document_count || rows.len() == 0 {
        return false;
    }
    assert(view.first().id == rows@[0].id@);
    assert(view.last().id == rows@[rows@.len() - 1].id@);
    same(&rows[0].id, &chunk.first_id) && same(&rows[rows.len() - 1].id, &chunk.last_id)
}

fn append_moved(moved: &mut Vec<MovedRow>, rows: Vec<Document>, chunk: u64)
    ensures
        moved_view(final(moved)@) == moved_view(old(moved)@) + history_rules::moved_to(
            history_model::documents_view(rows@),
            chunk,
        ),
{
    let ghost start = moved_view(moved@);
    let ghost view = history_model::documents_view(rows@);
    let mut i: usize = 0;
    assert(history_rules::moved_to(view.take(0), chunk) =~= Seq::empty());
    assert(moved_view(moved@) =~= start + history_rules::moved_to(view.take(0), chunk));
    while i < rows.len()
        invariant
            i <= rows.len(),
            view == history_model::documents_view(rows@),
            moved_view(moved@) == start + history_rules::moved_to(view.take(i as int), chunk),
        decreases rows.len() - i,
    {
        let ghost held = moved@;
        let document = rows[i].copy();
        moved.push(MovedRow { document, chunk });
        proof {
            assert(moved_view(moved@) =~= moved_view(held).push(
                Moved { document: view[i as int], chunk },
            ));
            assert(history_rules::moved_to(view.take(i + 1), chunk) =~= history_rules::moved_to(
                view.take(i as int),
                chunk,
            ).push(Moved { document: view[i as int], chunk }));
            assert(moved_view(moved@) =~= start + history_rules::moved_to(view.take(i + 1), chunk));
        }
        i = i + 1;
    }
    assert(view.take(view.len() as int) =~= view);
}

fn all_moves(rows: &Vec<Document>, manifest: &Manifest, encodings: &Vec<Vec<u8>>) -> (r: Result<
    Vec<MovedRow>,
    Error,
>)
    requires
        encodings.len() == manifest.chunks.len(),
    ensures
        match r {
            Err(e) => history_rules::all_moves(
                history_model::documents_view(rows@),
                manifest@,
                encodings@,
            ) == Err::<Seq<Moved>, Error>(e),
            Ok(moved) => history_rules::all_moves(
                history_model::documents_view(rows@),
                manifest@,
                encodings@,
            ) == Ok::<Seq<Moved>, Error>(moved_view(moved@)) && moved.len() == rows.len(),
        },
{
    let ghost view = history_model::documents_view(rows@);
    let ghost chunks = manifest@.chunks;
    let mut moved: Vec<MovedRow> = Vec::new();
    let mut i: usize = 0;
    assert(moved_view(moved@) =~= Seq::empty());
    while i < manifest.chunks.len()
        invariant
            i <= manifest.chunks.len(),
            encodings.len() == manifest.chunks.len(),
            view == history_model::documents_view(rows@),
            chunks == manifest@.chunks,
            history_rules::moves(view, chunks, encodings@, 0, Seq::empty())
                == history_rules::moves(view, chunks, encodings@, i as int, moved_view(moved@)),
        decreases manifest.chunks.len() - i,
    {
        let chunk = &manifest.chunks[i];
        assert(chunks[i as int] == chunk@);
        let covered = interval(rows, &chunk.first_id, &chunk.last_id);
        if !covers(&covered, chunk) {
            return Err(
                error(ErrorCode::Conflict, "archive chunk does not cover its source interval"),
            );
        }
        let actual = digest(&encodings[i]);
        if actual != chunk.plaintext_sha256 || encodings[i].len() as u64
            != chunk.plaintext_bytes {
            return Err(
                error(ErrorCode::Conflict, "archive source bytes differ from verified chunk"),
            );
        }
        append_moved(&mut moved, covered, i as u64);
        i = i + 1;
    }
    assert(moved_view(moved@).len() == moved.len());
    assert(view.len() == rows.len());
    if moved.len() != rows.len() {
        return Err(error(ErrorCode::Conflict, "archive intervals omit source rows"));
    }
    Ok(moved)
}

/// What a publication makes of a collection and of the tenant's logical bytes.
struct StagedRows {
    documents: Vec<Document>,
    archived: Vec<Archived>,
    archived_bytes: u64,
    logical_bytes: u64,
}

impl View for StagedRows {
    type V = Staged;

    closed spec fn view(&self) -> Staged {
        Staged {
            documents: history_model::documents_view(self.documents@),
            archived: history_model::archived_view(self.archived@),
            archived_bytes: self.archived_bytes,
            logical_bytes: self.logical_bytes,
        }
    }
}

fn stage_row(
    paths: &Vec<Name>,
    archive_id: Name,
    moved: &MovedRow,
    size: &EntrySize,
    staged: StagedRows,
) -> (r: Result<StagedRows, Error>)
    ensures
        ({
            let said = history_rules::stage_row(
                paths@,
                archive_id,
                Moved { document: moved.document@, chunk: moved.chunk },
                *size,
                staged@,
            );
            match r {
                Err(e) => said == Err::<Staged, Error>(e),
                Ok(next) => said == Ok::<Staged, Error>(next@),
            }
        }),
{
    if has_reference(&staged.archived, &moved.document.id) {
        return Err(error(ErrorCode::Corruption, "history identity already archived"));
    }
    let entry: u64 = metadata_entry(size)?;
    let archived_bytes: u64 = match staged.archived_bytes.checked_add(entry) {
        None => return Err(error(ErrorCode::QuotaExceeded, "archive reference size overflow")),
        Some(bytes) => bytes,
    };
    let logical_bytes: u64 = match staged.logical_bytes.checked_sub(moved.document.body_bytes) {
        None => return Err(error(ErrorCode::Corruption, "archive logical byte underflow")),
        Some(bytes) => bytes,
    };
    let mut archived = staged.archived;
    let reference = Archived {
        id: copy_text(&moved.document.id),
        version: moved.document.version,
        archive_id,
        chunk_index: moved.chunk,
        document_sha256: moved.document.sha256,
        document_bytes: moved.document.encoded_bytes,
        indexed_fields: index_fields(paths, &moved.document),
        size: *size,
        form_refusal: None,
    };
    insert_reference(&mut archived, reference);
    let documents = without(&staged.documents, &moved.document.id);
    Ok(StagedRows { documents, archived, archived_bytes, logical_bytes })
}

fn copied(collection: &Collection, logical_bytes: u64) -> (staged: StagedRows)
    ensures
        staged@ == (Staged {
            documents: collection@.documents,
            archived: collection@.archived,
            archived_bytes: collection.archived_bytes,
            logical_bytes,
        }),
{
    let mut documents: Vec<Document> = Vec::new();
    let mut i: usize = 0;
    while i < collection.documents.len()
        invariant
            i <= collection.documents.len(),
            documents.len() == i,
            forall|j: int| 0 <= j < i ==> (#[trigger] documents@[j])@ == collection.documents@[j]@,
        decreases collection.documents.len() - i,
    {
        documents.push(collection.documents[i].copy());
        i = i + 1;
    }
    let mut archived: Vec<Archived> = Vec::new();
    let mut k: usize = 0;
    while k < collection.archived.len()
        invariant
            k <= collection.archived.len(),
            archived.len() == k,
            forall|j: int| 0 <= j < k ==> (#[trigger] archived@[j])@ == collection.archived@[j]@,
        decreases collection.archived.len() - k,
    {
        archived.push(collection.archived[k].copy());
        k = k + 1;
    }
    assert(history_model::documents_view(documents@) =~= collection@.documents);
    assert(history_model::archived_view(archived@) =~= collection@.archived);
    StagedRows { documents, archived, archived_bytes: collection.archived_bytes, logical_bytes }
}

fn stage(
    collection: &Collection,
    logical_bytes: u64,
    archive_id: Name,
    moved: &Vec<MovedRow>,
    sizes: &Vec<EntrySize>,
) -> (r: Result<StagedRows, Error>)
    requires
        sizes.len() == moved.len(),
    ensures
        ({
            let said = history_rules::stage(
                collection.paths@,
                archive_id,
                moved_view(moved@),
                sizes@,
                0,
                Staged {
                    documents: collection@.documents,
                    archived: collection@.archived,
                    archived_bytes: collection.archived_bytes,
                    logical_bytes,
                },
            );
            match r {
                Err(e) => said == Err::<Staged, Error>(e),
                Ok(next) => said == Ok::<Staged, Error>(next@),
            }
        }),
{
    let ghost view = moved_view(moved@);
    let ghost start = Staged {
        documents: collection@.documents,
        archived: collection@.archived,
        archived_bytes: collection.archived_bytes,
        logical_bytes,
    };
    let mut staged = copied(collection, logical_bytes);
    let mut i: usize = 0;
    while i < moved.len()
        invariant
            i <= moved.len(),
            sizes.len() == moved.len(),
            view == moved_view(moved@),
            start == (Staged {
                documents: collection@.documents,
                archived: collection@.archived,
                archived_bytes: collection.archived_bytes,
                logical_bytes,
            }),
            history_rules::stage(collection.paths@, archive_id, view, sizes@, 0, start)
                == history_rules::stage(
                collection.paths@,
                archive_id,
                view,
                sizes@,
                i as int,
                staged@,
            ),
        decreases moved.len() - i,
    {
        assert(view[i as int] == (Moved {
            document: moved@[i as int].document@,
            chunk: moved@[i as int].chunk,
        }));
        staged = stage_row(&collection.paths, archive_id, &moved[i], &sizes[i], staged)?;
        i = i + 1;
    }
    Ok(staged)
}

/// The refusals of the three authorities that a publication needs: to administer
/// the tenant, to administer the collection, and to read it.
#[derive(Clone, Copy, Debug)]
pub struct PublishAuthority {
    pub tenant_refusal: Option<Error>,
    pub collection_refusal: Option<Error>,
    pub read_refusal: Option<Error>,
}

impl PublishAuthority {
    pub open spec fn refusal(self) -> Option<Error> {
        history_rules::first_of(self.tenant_refusal, self.collection_refusal, self.read_refusal)
    }

    fn refused(&self) -> (r: Option<Error>)
        ensures
            r == self.refusal(),
    {
        match self.tenant_refusal {
            Some(refusal) => return Some(refusal),
            None => {},
        }
        match self.collection_refusal {
            Some(refusal) => return Some(refusal),
            None => {},
        }
        self.read_refusal
    }
}

/// Whether a publication did to the state what is said of it, and answered so. A
/// refused one leaves the state as it was.
pub open spec fn did(
    before: HistoryView,
    after: HistoryView,
    answer: Result<(u64, bool), Error>,
    said: Result<(HistoryView, u64, bool), Error>,
) -> bool {
    match said {
        Err(e) => answer == Err::<(u64, bool), Error>(e) && after == before,
        Ok((next, revision, changed)) => answer == Ok::<(u64, bool), Error>((revision, changed))
            && after == next,
    }
}

/// Publishes a verified archive: moves the rows that it covers out of the hot
/// documents, and lists it. `encodings` holds the encoded chunks that the replica
/// built from its own rows, `sizes` the entry of each row that moves, in their
/// order, and `size` the entry of the archive itself. Archival changes storage
/// placement, never logical identity or data epoch.
pub fn publish(
    state: &mut HistoryState,
    authority: &PublishAuthority,
    request: &PublishArchive,
    encodings: &Vec<Vec<u8>>,
    sizes: &Vec<EntrySize>,
    size: EntrySize,
    revision: u64,
    bounds: &ArchiveBounds,
) -> (r: Result<(u64, bool), Error>)
    ensures
        did(
            old(state)@,
            final(state)@,
            r,
            history_rules::published(
                old(state)@,
                authority.refusal(),
                request@,
                encodings@,
                sizes@,
                size,
                revision,
                *bounds,
            ),
        ),
{
    match authority.refused() {
        Some(refusal) => return Err(refusal),
        None => {},
    }
    validate_manifest(&request.manifest, bounds, &request.forms)?;
    match request.forms.object {
        Some(refusal) => return Err(refusal),
        None => {},
    }
    match archive_at(state, request.manifest.archive_id) {
        Some(at) => {
            let existing = &state.archives[at];
            assert(state@.archives[at as int] == existing@);
            if !same_manifest(&existing.manifest, &request.manifest) || existing.manifest_object_id
                != request.manifest_object_id || existing.manifest_ciphertext_sha256
                != request.manifest_ciphertext_sha256 {
                return Err(
                    error(ErrorCode::Conflict, "archive identity reused for different history"),
                );
            }
            return Ok((existing.published_revision, false));
        },
        None => {},
    }
    let at: usize = source_collection(state, request)?;
    assert(state@.collections[at as int] == state.collections@[at as int]@);
    let rows = source_rows(&state.collections[at], &request.manifest, bounds)?;
    assert(history_model::documents_view(rows@).len() == rows.len());
    if encodings.len() != request.manifest.chunks.len() || sizes.len() as u64
        != request.manifest.document_count {
        return Err(error(ErrorCode::Corruption, "archive encodings are incomplete"));
    }
    let moved = all_moves(&rows, &request.manifest, encodings)?;
    let staged = stage(
        &state.collections[at],
        state.logical_bytes,
        request.manifest.archive_id,
        &moved,
        sizes,
    )?;
    let entry: u64 = metadata_entry(&size)?;
    let archive_bytes: u64 = match state.archive_bytes.checked_add(entry) {
        None => return Err(error(ErrorCode::QuotaExceeded, "archive catalog byte overflow")),
        Some(bytes) => bytes,
    };
    let collection = &state.collections[at];
    let mut paths: Vec<Name> = Vec::new();
    let mut i: usize = 0;
    while i < collection.paths.len()
        invariant
            i <= collection.paths.len(),
            paths@ == collection.paths@.subrange(0, i as int),
        decreases collection.paths.len() - i,
    {
        paths.push(collection.paths[i]);
        assert(collection.paths@.subrange(0, i + 1) =~= collection.paths@.subrange(
            0,
            i as int,
        ).push(collection.paths@[i as int]));
        i = i + 1;
    }
    assert(collection.paths@.subrange(0, collection.paths@.len() as int) =~= collection.paths@);
    let next = Collection {
        name: collection.name,
        archivable: collection.archivable,
        append_only: collection.append_only,
        text_indexed: collection.text_indexed,
        strict_read_audit: collection.strict_read_audit,
        paths,
        data_epoch: collection.data_epoch,
        documents: staged.documents,
        archived: staged.archived,
        archived_bytes: staged.archived_bytes,
    };
    let ghost placed = next@;
    let ghost collections = state@.collections;
    let ghost archives = state@.archives;
    state.collections.set(at, next);
    assert(state@.collections =~= collections.update(at as int, placed));
    let retained = Retained {
        manifest: request.manifest.copy(),
        storage_destination: request.manifest.destination,
        storage_backup_session: None,
        manifest_object_id: request.manifest_object_id,
        manifest_ciphertext_sha256: request.manifest_ciphertext_sha256,
        published_revision: revision,
        size,
        forms: ArchiveForms::accepted(),
    };
    let ghost listed = retained@;
    state.archives.push(retained);
    assert(state@.archives =~= archives.push(listed));
    state.archive_bytes = archive_bytes;
    state.logical_bytes = staged.logical_bytes;
    Ok((revision, true))
}

/// The identities that a publication takes out of a collection's hot documents.
pub fn changes(state: &HistoryState, collection: Name, cutoff: u64) -> (ids: Vec<Vec<u8>>)
    ensures
        match history_rules::collection_at(state@.collections, collection, 0) {
            None => ids.len() == 0,
            Some(at) => {
                let rows = history_rules::eligible(state@.collections[at].documents, cutoff);
                ids.len() == rows.len() && forall|i: int|
                    0 <= i < ids.len() ==> (#[trigger] ids@[i])@ == rows[i].id
            },
        },
{
    let mut ids: Vec<Vec<u8>> = Vec::new();
    let at: usize = match collection_at(state, collection) {
        None => return ids,
        Some(at) => at,
    };
    assert(state@.collections[at as int] == state.collections@[at as int]@);
    let rows = eligible(&state.collections[at].documents, cutoff);
    let ghost view = history_model::documents_view(rows@);
    let mut i: usize = 0;
    while i < rows.len()
        invariant
            i <= rows.len(),
            ids.len() == i,
            view == history_model::documents_view(rows@),
            forall|j: int| 0 <= j < i ==> (#[trigger] ids@[j])@ == view[j].id,
        decreases rows.len() - i,
    {
        ids.push(copy_text(&rows[i].id));
        i = i + 1;
    }
    ids
}

fn known(paths: &Vec<Name>, path: Name) -> (b: bool)
    ensures
        b == paths@.contains(path),
{
    let mut i: usize = 0;
    while i < paths.len()
        invariant
            i <= paths.len(),
            forall|j: int| 0 <= j < i ==> paths@[j] != path,
        decreases paths.len() - i,
    {
        if paths[i] == path {
            assert(paths@[i as int] == path);
            return true;
        }
        i = i + 1;
    }
    false
}

fn fields_known(paths: &Vec<Name>, fields: &Vec<IndexedField>) -> (b: bool)
    ensures
        b == history_rules::fields_known(paths@, fields@),
{
    let mut i: usize = 0;
    while i < fields.len()
        invariant
            i <= fields.len(),
            forall|j: int| 0 <= j < i ==> paths@.contains((#[trigger] fields@[j]).path),
        decreases fields.len() - i,
    {
        if !known(paths, fields[i].path) {
            assert(!paths@.contains(fields@[i as int].path));
            return false;
        }
        i = i + 1;
    }
    true
}

fn has_document(documents: &Vec<Document>, id: &Vec<u8>) -> (b: bool)
    ensures
        b == history_rules::has_document(history_model::documents_view(documents@), id@),
{
    let ghost view = history_model::documents_view(documents@);
    let mut i: usize = 0;
    while i < documents.len()
        invariant
            i <= documents.len(),
            view == history_model::documents_view(documents@),
            forall|j: int| 0 <= j < i ==> (#[trigger] view[j]).id != id@,
        decreases documents.len() - i,
    {
        if same(&documents[i].id, id) {
            assert(view[i as int].id == id@);
            return true;
        }
        i = i + 1;
    }
    false
}

fn corrupt(message: &'static str) -> (e: Error)
    ensures
        e == history_rules::corrupt(message),
{
    error(ErrorCode::Corruption, message)
}

fn reference_checked(state: &HistoryState, collection: &Collection, row: &Archived) -> (r: Result<
    (),
    Error,
>)
    ensures
        r == history_rules::reference_checked(state@, collection@, row@),
{
    match row.form_refusal {
        Some(refusal) => return Err(refusal),
        None => {},
    }
    let at: usize = match archive_at(state, row.archive_id) {
        None => return Err(corrupt("archived identity has no manifest")),
        Some(at) => at,
    };
    let manifest = &state.archives[at].manifest;
    assert(state@.archives[at as int].manifest == manifest@);
    if row.chunk_index >= manifest.chunks.len() as u64 {
        return Err(corrupt("archived identity has no chunk"));
    }
    let chunk = &manifest.chunks[row.chunk_index as usize];
    assert(manifest@.chunks[row.chunk_index as int] == chunk@);
    if manifest.collection != collection.name || row.version > manifest.cutoff_revision
        || row.version > collection.data_epoch || has_document(&collection.documents, &row.id)
        || before(&row.id, &chunk.first_id) || before(&chunk.last_id, &row.id)
        || row.document_bytes == 0 || row.document_bytes > 1052672 || !fields_known(
        &collection.paths,
        &row.indexed_fields,
    ) {
        return Err(corrupt("invalid archived identity or index metadata"));
    }
    Ok(())
}

fn collection_checked(state: &HistoryState, collection: &Collection) -> (r: Result<(), Error>)
    ensures
        r == history_rules::collection_checked(state@, collection@),
{
    if collection.archived.len() > 0 && (!collection.archivable || !collection.append_only
        || collection.text_indexed) {
        return Err(corrupt("ineligible collection has archived history"));
    }
    let mut sum: u64 = 0;
    let mut i: usize = 0;
    while i < collection.archived.len()
        invariant
            i <= collection.archived.len(),
            !(collection.archived.len() > 0 && (!collection.archivable || !collection.append_only
                || collection.text_indexed)),
            history_rules::references_checked(state@, collection@, 0, 0)
                == history_rules::references_checked(state@, collection@, i as int, sum),
        decreases collection.archived.len() - i,
    {
        assert(collection@.archived[i as int] == collection.archived@[i as int]@);
        reference_checked(state, collection, &collection.archived[i])?;
        let bytes: u64 = metadata_entry(&collection.archived[i].size)?;
        match sum.checked_add(bytes) {
            None => return Err(corrupt("archive metadata overflow")),
            Some(total) => {
                sum = total;
            },
        }
        i = i + 1;
    }
    if sum != collection.archived_bytes {
        return Err(corrupt("archive reference byte accounting mismatch"));
    }
    Ok(())
}

/// The count, the first and the last of the identities that refer to a chunk.
struct Span {
    count: u128,
    first: Vec<u8>,
    last: Vec<u8>,
}

spec fn span_view(span: Option<Span>) -> Option<Extent> {
    match span {
        None => None,
        Some(span) => Some(
            Extent { count: span.count as nat, first: span.first@, last: span.last@ },
        ),
    }
}

spec fn span_count(span: Option<Span>) -> nat {
    match span {
        None => 0,
        Some(span) => span.count as nat,
    }
}

fn extend(span: Option<Span>, id: &Vec<u8>) -> (r: Option<Span>)
    requires
        span_count(span) < u128::MAX,
    ensures
        span_view(r) == history_rules::extended(span_view(span), id@),
        span_count(r) == span_count(span) + 1,
{
    match span {
        None => Some(Span { count: 1, first: copy_text(id), last: copy_text(id) }),
        Some(span) => {
            let mut first = span.first;
            let mut last = span.last;
            if before(id, &first) {
                first = copy_text(id);
            }
            if before(&last, id) {
                last = copy_text(id);
            }
            Some(Span { count: span.count + 1, first, last })
        },
    }
}

fn extent_of_rows(rows: &Vec<Archived>, archive_id: Name, chunk: u64, start: Option<Span>) -> (r:
    Option<Span>)
    requires
        span_count(start) + rows.len() <= u128::MAX,
    ensures
        span_view(r) == history_rules::extent_of_rows(
            history_model::archived_view(rows@),
            archive_id,
            chunk as int,
            rows@.len() as int,
            span_view(start),
        ),
        span_count(r) <= span_count(start) + rows.len(),
{
    let ghost view = history_model::archived_view(rows@);
    let ghost initial = start;
    let mut span = start;
    let mut i: usize = 0;
    while i < rows.len()
        invariant
            i <= rows.len(),
            view == history_model::archived_view(rows@),
            span_count(initial) + rows.len() <= u128::MAX,
            span_count(span) <= span_count(initial) + i,
            span_view(span) == history_rules::extent_of_rows(
                view,
                archive_id,
                chunk as int,
                i as int,
                span_view(initial),
            ),
        decreases rows.len() - i,
    {
        assert(view[i as int] == rows@[i as int]@);
        if rows[i].archive_id == archive_id && rows[i].chunk_index == chunk {
            span = extend(span, &rows[i].id);
        }
        i = i + 1;
    }
    span
}

fn extent_of(state: &HistoryState, archive_id: Name, chunk: u64) -> (r: Option<Span>)
    ensures
        span_view(r) == history_rules::extent_of(
            state@.collections,
            archive_id,
            chunk as int,
            state@.collections.len() as int,
        ),
{
    let mut span: Option<Span> = None;
    let mut i: usize = 0;
    while i < state.collections.len()
        invariant
            i <= state.collections.len(),
            span_count(span) <= i * 0xffff_ffff_ffff_ffff,
            span_view(span) == history_rules::extent_of(
                state@.collections,
                archive_id,
                chunk as int,
                i as int,
            ),
        decreases state.collections.len() - i,
    {
        assert(state@.collections[i as int] == state.collections@[i as int]@);
        span = extent_of_rows(&state.collections[i].archived, archive_id, chunk, span);
        i = i + 1;
    }
    span
}

fn chunk_referenced(state: &HistoryState, manifest: &Manifest, i: usize) -> (r: Result<(), Error>)
    requires
        i < manifest.chunks.len(),
    ensures
        r == history_rules::chunk_referenced(state@, manifest@, i as int),
{
    let chunk = &manifest.chunks[i];
    assert(manifest@.chunks[i as int] == chunk@);
    match extent_of(state, manifest.archive_id, i as u64) {
        None => Err(corrupt("archive manifest has no referenced rows")),
        Some(span) => {
            if span.count != chunk.document_count as u128 || !same(&span.first, &chunk.first_id)
                || !same(&span.last, &chunk.last_id) {
                return Err(corrupt("archive referenced interval mismatch"));
            }
            Ok(())
        },
    }
}

fn archive_checked(state: &HistoryState, archive: &Retained, bounds: &ArchiveBounds) -> (r: Result<
    (),
    Error,
>)
    ensures
        r == history_rules::archive_checked(state@, archive@, *bounds),
{
    match archive.forms.destination {
        Some(refusal) => return Err(refusal),
        None => {},
    }
    validate_manifest(&archive.manifest, bounds, &archive.forms)?;
    match archive.forms.object {
        Some(refusal) => return Err(refusal),
        None => {},
    }
    if archive.manifest.tenant != state.tenant || archive.published_revision > state.revision {
        return Err(corrupt("invalid archive manifest identity"));
    }
    let mut i: usize = 0;
    while i < archive.manifest.chunks.len()
        invariant
            i <= archive.manifest.chunks.len(),
            history_rules::manifest_valid(archive@.manifest, *bounds, archive.forms) is Ok,
            archive.forms.destination is None,
            archive.forms.object is None,
            !(archive.manifest.tenant != state.tenant || archive.published_revision
                > state.revision),
            history_rules::chunks_referenced(state@, archive@.manifest, 0)
                == history_rules::chunks_referenced(state@, archive@.manifest, i as int),
        decreases archive.manifest.chunks.len() - i,
    {
        chunk_referenced(state, &archive.manifest, i)?;
        i = i + 1;
    }
    Ok(())
}

fn collections_checked(state: &HistoryState) -> (r: Result<(), Error>)
    ensures
        r == history_rules::collections_checked(state@, 0),
{
    let mut i: usize = 0;
    while i < state.collections.len()
        invariant
            i <= state.collections.len(),
            history_rules::collections_checked(state@, 0) == history_rules::collections_checked(
                state@,
                i as int,
            ),
        decreases state.collections.len() - i,
    {
        assert(state@.collections[i as int] == state.collections@[i as int]@);
        collection_checked(state, &state.collections[i])?;
        i = i + 1;
    }
    Ok(())
}

/// Whether a restored history is sound: every reference lies in its chunk, every
/// chunk is covered by its references exactly, and the bytes are accounted for.
pub fn validate_restored(state: &HistoryState, bounds: &ArchiveBounds) -> (r: Result<(), Error>)
    ensures
        r == history_rules::restored(state@, *bounds),
{
    if state.archives.len() as u64 > state.max_archive_segments {
        return Err(corrupt("archive catalog exceeds quota"));
    }
    collections_checked(state)?;
    let mut sum: u64 = 0;
    let mut i: usize = 0;
    while i < state.archives.len()
        invariant
            i <= state.archives.len(),
            state.archives.len() <= state.max_archive_segments,
            history_rules::collections_checked(state@, 0) is Ok,
            history_rules::archives_checked(state@, *bounds, 0, 0)
                == history_rules::archives_checked(state@, *bounds, i as int, sum),
        decreases state.archives.len() - i,
    {
        assert(state@.archives[i as int] == state.archives@[i as int]@);
        archive_checked(state, &state.archives[i], bounds)?;
        let bytes: u64 = metadata_entry(&state.archives[i].size)?;
        match sum.checked_add(bytes) {
            None => return Err(corrupt("archive catalog accounting overflow")),
            Some(total) => {
                sum = total;
            },
        }
        i = i + 1;
    }
    if sum != state.archive_bytes {
        return Err(corrupt("archive catalog accounting mismatch"));
    }
    Ok(())
}

} // verus!
