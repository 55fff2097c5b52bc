//! What archival promises of its ends: which rows an export takes, what a publication
//! needs and catalogs, and what a read of history answers.
use vstd::prelude::*;

use crate::digest;
use crate::digest::Name;
use crate::errors::{Error, ErrorCode};
use crate::history_export;
use crate::history_export::{ArchiveHistory, ExportAccess, ExportStep};
use crate::history_model;
use crate::history_model::{
    ArchiveBounds, ArchivedView, CollectionView, DescriptorView, Document, DocumentView,
    EntrySize, HistoryView, ManifestView, PublishArchiveView, RetainedView,
};
use crate::history_point_read;
use crate::history_point_read::ReadStep;
use crate::history_reads;
use crate::history_reads::{Chunk, HistoryReadCache, Located};
use crate::history_rules;
use crate::history_rules::{Moved, Staged};
use crate::hydration_laws;
use crate::hydration_laws::is_collection;
use crate::texts;

verus! {

// ---------------------------------------------------------------------
// Exports
// ---------------------------------------------------------------------

/// How many bytes the bodies take together.
pub open spec fn body_bytes(rows: Seq<DocumentView>) -> int
    decreases rows.len(),
{
    if rows.len() == 0 {
        0
    } else {
        body_bytes(rows.drop_last()) + rows.last().body_bytes
    }
}

/// The documents in front of the cutoff.
pub open spec fn in_front(documents: Seq<DocumentView>, cutoff: u64) -> Seq<DocumentView> {
    documents.filter(|d: DocumentView| d.version <= cutoff)
}

proof fn lemma_bytes_grow(a: Seq<DocumentView>, b: Seq<DocumentView>)
    ensures
        body_bytes(a + b) == body_bytes(a) + body_bytes(b),
        body_bytes(b) >= 0,
    decreases b.len(),
{
    if b.len() == 0 {
        assert(a + b =~= a);
    } else {
        assert((a + b).drop_last() =~= a + b.drop_last());
        lemma_bytes_grow(a, b.drop_last());
    }
}

proof fn lemma_selected(
    documents: Seq<DocumentView>,
    cutoff: u64,
    b: ArchiveBounds,
    i: int,
    bytes: u64,
    rows: Seq<DocumentView>,
)
    requires
        0 <= i <= documents.len(),
        rows == in_front(documents.take(i), cutoff),
        bytes == body_bytes(rows),
        rows.len() <= b.max_documents,
        bytes <= b.max_source_bytes,
    ensures
        ({
            let r = history_export::selected(documents, cutoff, b, i, bytes, rows);
            let all = in_front(documents, cutoff);
            &&& r is Ok <==> all.len() <= b.max_documents && body_bytes(all) <= b.max_source_bytes
            &&& r is Ok ==> r->Ok_0 == all
            &&& r is Err ==> r->Err_0.code == ErrorCode::ResourceExhausted
        }),
    decreases documents.len() - i,
{
    broadcast use Seq::lemma_filter_push;

    let all = in_front(documents, cutoff);
    let keep = |d: DocumentView| d.version <= cutoff;
    if i < documents.len() {
        let d = documents[i];
        assert(documents.take(i + 1) =~= documents.take(i).push(d));
        let next = in_front(documents.take(i + 1), cutoff);
        if d.version > cutoff {
            assert(next =~= rows);
            lemma_selected(documents, cutoff, b, i + 1, bytes, rows);
        } else {
            assert(next =~= rows.push(d));
            assert(next.drop_last() =~= rows);
            let rest = documents.skip(i + 1);
            assert(documents =~= documents.take(i + 1) + rest);
            Seq::filter_distributes_over_add(documents.take(i + 1), rest, keep);
            assert(all =~= next + rest.filter(keep));
            lemma_bytes_grow(next, rest.filter(keep));
            if bytes + d.body_bytes <= u64::MAX && bytes + d.body_bytes <= b.max_source_bytes
                && rows.len() < b.max_documents {
                lemma_selected(
                    documents,
                    cutoff,
                    b,
                    i + 1,
                    (bytes + d.body_bytes) as u64,
                    rows.push(d),
                );
            }
        }
    } else {
        assert(documents.take(i) =~= documents);
    }
}

/// An export takes every hot document in front of its cutoff and no other, in their order.
/// It is made exactly where there is one at least, and they are within the bounds of one
/// export; it never takes a part of them.
pub proof fn lemma_export_takes_all(documents: Seq<DocumentView>, cutoff: u64, b: ArchiveBounds)
    ensures
        ({
            let r = history_export::selection(documents, cutoff, b);
            let all = in_front(documents, cutoff);
            let fits = all.len() <= b.max_documents && body_bytes(all) <= b.max_source_bytes;
            &&& r is Ok <==> fits && all.len() > 0
            &&& r is Ok ==> r->Ok_0 == all
            &&& !fits ==> r->Err_0.code == ErrorCode::ResourceExhausted
            &&& fits && all.len() == 0 ==> r->Err_0.code == ErrorCode::NotFound
        }),
{
    assert(documents.take(0) =~= Seq::<DocumentView>::empty());
    assert(in_front(documents.take(0), cutoff) =~= Seq::<DocumentView>::empty()) by {
        reveal(Seq::filter);
    }
    lemma_selected(documents, cutoff, b, 0, 0, Seq::empty());
}

/// Whether the archive is the first of its identity.
pub open spec fn is_archive(s: HistoryView, id: Name, at: int) -> bool {
    &&& 0 <= at < s.archives.len()
    &&& s.archives[at].manifest.archive_id == id
    &&& forall|i: int| 0 <= i < at ==> (#[trigger] s.archives[i]).manifest.archive_id != id
}

pub open spec fn no_archive(s: HistoryView, id: Name) -> bool {
    forall|i: int|
        0 <= i < s.archives.len() ==> (#[trigger] s.archives[i]).manifest.archive_id != id
}

proof fn lemma_archive(archives: Seq<RetainedView>, id: Name, i: int)
    requires
        0 <= i <= archives.len(),
    ensures
        match history_rules::archive_at(archives, id, i) {
            None => forall|j: int|
                i <= j < archives.len() ==> (#[trigger] archives[j]).manifest.archive_id != id,
            Some(at) => {
                &&& i <= at < archives.len()
                &&& archives[at].manifest.archive_id == id
                &&& forall|j: int|
                    i <= j < at ==> (#[trigger] archives[j]).manifest.archive_id != id
            },
        },
    decreases archives.len() - i,
{
    if i < archives.len() {
        lemma_archive(archives, id, i + 1);
    }
}

proof fn lemma_archive_found(s: HistoryView, id: Name)
    ensures
        match history_rules::archive_at(s.archives, id, 0) {
            None => no_archive(s, id),
            Some(at) => is_archive(s, id, at) && !no_archive(s, id) && forall|other: int| #[trigger]
                is_archive(s, id, other) ==> other == at,
        },
{
    lemma_archive(s.archives, id, 0);
    if let Some(n) = history_rules::archive_at(s.archives, id, 0) {
        assert(s.archives[n].manifest.archive_id == id);
        assert forall|other: int| #[trigger] is_archive(s, id, other) implies other == n by {
            assert(s.archives[other].manifest.archive_id == id);
        }
    }
}

/// Whether history of the collection may be archived: it says so, it is only appended to,
/// and no text index needs its documents.
pub open spec fn may_archive(c: CollectionView) -> bool {
    c.archivable && c.append_only && !c.text_indexed
}

/// An archive that stands is answered with the revision of its publication where the
/// request is the one that it was made for, and refused to any other. A new one is
/// exported exactly where its cutoff is reached, the catalog has room, and the collection
/// is there and may be archived.
pub proof fn lemma_export_step(s: HistoryView, request: ArchiveHistory, at: int, c: int)
    ensures
        is_archive(s, request.archive_id, at) && is_collection(s, request.collection, c) ==> {
            let m = s.archives[at].manifest;
            let r = history_export::export_step(s, request);
            if m.collection == request.collection && m.cutoff_revision == request.cutoff_revision
                && m.destination == request.destination {
                r == Ok::<ExportStep, Error>(
                    ExportStep::Retained {
                        revision: s.archives[at].published_revision,
                        strict_read_audit: s.strict_read_audit
                            || s.collections[c].strict_read_audit,
                    },
                )
            } else {
                r is Err && r->Err_0.code == ErrorCode::Conflict
            }
        },
        no_archive(s, request.archive_id) && is_collection(s, request.collection, c) ==> {
            let r = history_export::export_step(s, request);
            &&& r is Ok <==> request.cutoff_revision <= s.revision && s.archives.len()
                < s.max_archive_segments && may_archive(s.collections[c])
            &&& r is Ok ==> r->Ok_0 == ExportStep::Export { collection: c as usize }
        },
{
    lemma_archive_found(s, request.archive_id);
    hydration_laws::lemma_found(s, request.collection);
}

/// An export is admitted exactly where nothing refuses it: neither its names, nor its
/// caller's authority over the tenant and the collection, nor the node, while another
/// export may begin, behind the quorum's barrier.
pub proof fn lemma_export_admitted(a: ExportAccess)
    ensures
        history_export::access_refused(a) is None <==> {
            &&& a.name_refusal is None
            &&& a.tenant_refusal is None
            &&& a.collection_refusal is None
            &&& a.read_refusal is None
            &&& a.access_refusal is None
            &&& a.slot_free
            &&& a.barrier is Ok
            &&& a.release_refusal is None
        },
{
}

// ---------------------------------------------------------------------
// Publications
// ---------------------------------------------------------------------

/// Whether the moved rows go to chunks whose interval holds them and whose object is of
/// the very bytes that the chunk's rows are encoded in.
pub open spec fn moved_well(
    rows: Seq<DocumentView>,
    chunks: Seq<DescriptorView>,
    encodings: Seq<Vec<u8>>,
    moved: Seq<Moved>,
    n: int,
) -> bool {
    forall|j: int|
        0 <= j < moved.len() ==> {
            let m = #[trigger] moved[j];
            &&& m.chunk < n
            &&& rows.contains(m.document)
            &&& !texts::less(m.document.id, chunks[m.chunk as int].first_id)
            &&& !texts::less(chunks[m.chunk as int].last_id, m.document.id)
        }
}

proof fn lemma_moves(
    rows: Seq<DocumentView>,
    chunks: Seq<DescriptorView>,
    encodings: Seq<Vec<u8>>,
    i: int,
    moved: Seq<Moved>,
)
    requires
        0 <= i <= chunks.len(),
        chunks.len() <= u64::MAX,
        history_rules::moves(rows, chunks, encodings, i, moved) is Ok,
        moved_well(rows, chunks, encodings, moved, i),
    ensures
        moved_well(
            rows,
            chunks,
            encodings,
            history_rules::moves(rows, chunks, encodings, i, moved)->Ok_0,
            chunks.len() as int,
        ),
        forall|k: int|
            i <= k < chunks.len() ==> digest::digest_of(encodings[k]@) == (
            #[trigger] chunks[k]).plaintext_sha256 && encodings[k]@.len()
                == chunks[k].plaintext_bytes,
    decreases chunks.len() - i,
{
    broadcast use Seq::lemma_filter_pred, Seq::lemma_filter_contains_rev;

    if i < chunks.len() {
        let first = chunks[i].first_id;
        let last = chunks[i].last_id;
        let keep = |d: DocumentView| !texts::less(d.id, first) && !texts::less(last, d.id);
        let covered = history_rules::interval(rows, first, last);
        let more = moved + history_rules::moved_to(covered, i as u64);
        assert forall|j: int| 0 <= j < more.len() implies ({
            let m = #[trigger] more[j];
            &&& m.chunk < i + 1
            &&& rows.contains(m.document)
            &&& !texts::less(m.document.id, chunks[m.chunk as int].first_id)
            &&& !texts::less(chunks[m.chunk as int].last_id, m.document.id)
        }) by {
            if j < moved.len() {
                assert(more[j] == moved[j]);
            } else {
                let d = covered[j - moved.len()];
                assert(more[j].document == d);
                assert(keep(rows.filter(keep)[j - moved.len()]));
                assert(rows.filter(keep).contains(d));
                assert(rows.contains(d));
            }
        }
        lemma_moves(rows, chunks, encodings, i + 1, more);
    }
}

/// The references that are new, and what was counted for the moved rows.
pub open spec fn staged_well(
    before: Staged,
    archive_id: Name,
    moved: Seq<Moved>,
    n: int,
    after: Staged,
) -> bool {
    &&& forall|r: ArchivedView| #[trigger]
        after.archived.contains(r) ==> before.archived.contains(r) || exists|j: int|
            0 <= j < n && is_reference(#[trigger] moved[j], archive_id, r)
    &&& after.logical_bytes + moved_bytes(moved, n) == before.logical_bytes
    &&& after.archived_bytes >= before.archived_bytes
}

/// Whether the reference leads to where the row was moved.
pub open spec fn is_reference(m: Moved, archive_id: Name, r: ArchivedView) -> bool {
    &&& r.id == m.document.id
    &&& r.version == m.document.version
    &&& r.archive_id == archive_id
    &&& r.chunk_index == m.chunk
    &&& r.document_sha256 == m.document.sha256
    &&& r.document_bytes == m.document.encoded_bytes
}

/// How many bytes the bodies of the first `n` moved rows take together.
pub open spec fn moved_bytes(moved: Seq<Moved>, n: int) -> int
    decreases n,
{
    if n <= 0 {
        0
    } else {
        moved_bytes(moved, n - 1) + moved[n - 1].document.body_bytes
    }
}

proof fn lemma_inserted(rows: Seq<ArchivedView>, row: ArchivedView)
    ensures
        forall|other: ArchivedView| #[trigger]
            history_rules::inserted(rows, row).contains(other) ==> rows.contains(other) || other
                == row,
    decreases rows.len(),
{
    let out = history_rules::inserted(rows, row);
    if rows.len() > 0 {
        if texts::less(row.id, rows[0].id) {
            assert forall|other: ArchivedView| #[trigger] out.contains(other) implies rows.contains(
                other,
            ) || other == row by {
                let i = choose|i: int| 0 <= i < out.len() && out[i] == other;
                if i > 0 {
                    assert(rows[i - 1] == other);
                }
            }
        } else {
            let rest = rows.drop_first();
            lemma_inserted(rest, row);
            let inner = history_rules::inserted(rest, row);
            assert forall|other: ArchivedView| #[trigger] out.contains(other) implies rows.contains(
                other,
            ) || other == row by {
                let i = choose|i: int| 0 <= i < out.len() && out[i] == other;
                if i == 0 {
                    assert(rows[0] == other);
                } else {
                    assert(inner[i - 1] == other);
                    assert(inner.contains(other));
                    if rest.contains(other) {
                        let k = choose|k: int| 0 <= k < rest.len() && rest[k] == other;
                        assert(rows[k + 1] == other);
                    }
                }
            }
        }
    }
}

proof fn lemma_stage(
    paths: Seq<Name>,
    archive_id: Name,
    moved: Seq<Moved>,
    sizes: Seq<EntrySize>,
    i: int,
    before: Staged,
    staged: Staged,
)
    requires
        0 <= i <= moved.len(),
        staged_well(before, archive_id, moved, i, staged),
        history_rules::stage(paths, archive_id, moved, sizes, i, staged) is Ok,
    ensures
        staged_well(
            before,
            archive_id,
            moved,
            moved.len() as int,
            history_rules::stage(paths, archive_id, moved, sizes, i, staged)->Ok_0,
        ),
    decreases moved.len() - i,
{
    if i < moved.len() {
        let next = history_rules::stage_row(paths, archive_id, moved[i], sizes[i], staged)->Ok_0;
        let row = history_rules::reference_of(paths, archive_id, moved[i], sizes[i]);
        lemma_inserted(staged.archived, row);
        assert forall|r: ArchivedView| #[trigger] next.archived.contains(r) implies (
        before.archived.contains(r) || exists|j: int|
            0 <= j < i + 1 && is_reference(#[trigger] moved[j], archive_id, r)) by {
            if r == row {
                assert(is_reference(moved[i], archive_id, r));
            } else {
                assert(staged.archived.contains(r));
                if !before.archived.contains(r) {
                    let j = choose|j: int|
                        0 <= j < i && is_reference(#[trigger] moved[j], archive_id, r);
                    assert(is_reference(moved[j], archive_id, r));
                }
            }
        }
        lemma_stage(paths, archive_id, moved, sizes, i + 1, before, next);
    }
}

/// Whether the reference leads into the archive, to the chunk whose interval holds it, and
/// stands for a document of the collection in front of the cutoff.
pub open spec fn leads_into(m: ManifestView, c: CollectionView, r: ArchivedView) -> bool {
    &&& r.archive_id == m.archive_id
    &&& r.chunk_index < m.chunks.len()
    &&& !texts::less(r.id, m.chunks[r.chunk_index as int].first_id)
    &&& !texts::less(m.chunks[r.chunk_index as int].last_id, r.id)
    &&& exists|d: DocumentView| #[trigger]
        c.documents.contains(d) && d.id == r.id && d.version == r.version && d.version
            <= m.cutoff_revision && d.sha256 == r.document_sha256 && d.encoded_bytes
            == r.document_bytes
}

/// A new archive is published only where nothing refuses its caller or its form, its
/// source and its authority are still the current ones, the catalog has room, its
/// collection may be archived, and its chunks are the collection's own bytes. It is then
/// cataloged as it is, behind the others, at the command's revision; every new reference
/// leads into it, to the chunk that holds its document; and the tenant's logical bytes
/// shrink by what was moved.
pub proof fn lemma_archive_published(
    s: HistoryView,
    refusal: Option<Error>,
    req: PublishArchiveView,
    encodings: Seq<Vec<u8>>,
    sizes: Seq<EntrySize>,
    size: EntrySize,
    revision: u64,
    b: ArchiveBounds,
    c: int,
)
    requires
        no_archive(s, req.manifest.archive_id),
        is_collection(s, req.manifest.collection, c),
        req.manifest.chunks.len() <= u64::MAX,
        history_rules::published(s, refusal, req, encodings, sizes, size, revision, b) is Ok,
    ensures
        ({
            let (next, answered, changed) = history_rules::published(
                s,
                refusal,
                req,
                encodings,
                sizes,
                size,
                revision,
                b,
            )->Ok_0;
            let m = req.manifest;
            let r = next.archives.last();
            &&& changed
            &&& answered == revision
            &&& refusal is None
            &&& req.forms.object is None
            &&& req.forms.names is None
            &&& m.tenant == s.tenant
            &&& m.source_incarnation == s.incarnation
            &&& m.source_schema_epoch == s.schema_epoch
            &&& req.expected_policy_epoch == s.policy_epoch
            &&& m.cutoff_revision <= s.revision
            &&& s.archives.len() < s.max_archive_segments
            &&& may_archive(s.collections[c])
            &&& m.document_count == in_front(s.collections[c].documents, m.cutoff_revision).len()
            &&& 0 < m.document_count <= b.max_documents
            &&& 0 < m.chunks.len() <= b.max_chunks
            &&& m.encoded_bytes <= b.max_manifest_bytes
            &&& encodings.len() == m.chunks.len()
            &&& forall|k: int|
                0 <= k < m.chunks.len() ==> digest::digest_of(encodings[k]@) == (
                #[trigger] m.chunks[k]).plaintext_sha256 && encodings[k]@.len()
                    == m.chunks[k].plaintext_bytes
            &&& next.archives == s.archives.push(r)
            &&& r.manifest == m
            &&& r.storage_destination == m.destination
            &&& r.storage_backup_session is None
            &&& r.manifest_object_id == req.manifest_object_id
            &&& r.manifest_ciphertext_sha256 == req.manifest_ciphertext_sha256
            &&& r.published_revision == revision
            &&& next.archive_bytes == s.archive_bytes + size.id + 1 + size.value
            &&& next.logical_bytes <= s.logical_bytes
            &&& forall|row: ArchivedView| #[trigger]
                next.collections[c].archived.contains(row) ==> s.collections[c].archived.contains(
                    row,
                ) || leads_into(m, s.collections[c], row)
        }),
{
    broadcast use Seq::lemma_filter_pred, Seq::lemma_filter_contains_rev;

    let m = req.manifest;
    lemma_archive_found(s, m.archive_id);
    hydration_laws::lemma_found(s, m.collection);
    let next = history_rules::publish_new(s, req, encodings, sizes, size, revision, b)->Ok_0;
    let col = s.collections[c];
    let early = |d: DocumentView| d.version <= m.cutoff_revision;
    let rows = history_rules::source_rows(col, m, b)->Ok_0;
    let moved = history_rules::all_moves(rows, m, encodings)->Ok_0;
    lemma_moves(rows, m.chunks, encodings, 0, Seq::empty());
    let staged = Staged {
        documents: col.documents,
        archived: col.archived,
        archived_bytes: col.archived_bytes,
        logical_bytes: s.logical_bytes,
    };
    lemma_stage(col.paths, m.archive_id, moved, sizes, 0, staged, staged);
    lemma_moved_bytes(moved, moved.len() as int);
    let last = history_rules::stage(col.paths, m.archive_id, moved, sizes, 0, staged)->Ok_0;
    assert(next.collections[c].archived == last.archived);
    assert forall|row: ArchivedView| #[trigger] next.collections[c].archived.contains(
        row,
    ) implies col.archived.contains(row) || leads_into(m, col, row) by {
        assert(last.archived.contains(row));
        if !col.archived.contains(row) {
            let j = choose|j: int|
                0 <= j < moved.len() && is_reference(#[trigger] moved[j], m.archive_id, row);
            let d = moved[j].document;
            assert(rows.contains(d));
            let x = choose|x: int| 0 <= x < rows.len() && rows[x] == d;
            assert(early(col.documents.filter(early)[x]));
            assert(col.documents.filter(early).contains(d));
            assert(col.documents.contains(d));
        }
    }
}

proof fn lemma_moved_bytes(moved: Seq<Moved>, n: int)
    ensures
        moved_bytes(moved, n) >= 0,
    decreases n,
{
    if n > 0 {
        lemma_moved_bytes(moved, n - 1);
    }
}

/// An archive whose identity is taken is answered as it was where it is the same, and
/// refused where it is another; nothing changes.
pub proof fn lemma_archive_taken(
    s: HistoryView,
    refusal: Option<Error>,
    req: PublishArchiveView,
    encodings: Seq<Vec<u8>>,
    sizes: Seq<EntrySize>,
    size: EntrySize,
    revision: u64,
    b: ArchiveBounds,
    at: int,
)
    requires
        is_archive(s, req.manifest.archive_id, at),
        refusal is None,
        history_rules::manifest_valid(req.manifest, b, req.forms) is Ok,
        req.forms.object is None,
    ensures
        ({
            let r = history_rules::published(
                s,
                refusal,
                req,
                encodings,
                sizes,
                size,
                revision,
                b,
            );
            if s.archives[at].manifest == req.manifest && s.archives[at].manifest_object_id
                == req.manifest_object_id && s.archives[at].manifest_ciphertext_sha256
                == req.manifest_ciphertext_sha256 {
                r == Ok::<(HistoryView, u64, bool), Error>(
                    (s, s.archives[at].published_revision, false),
                )
            } else {
                r is Err && r->Err_0.code == ErrorCode::Conflict
            }
        }),
{
    lemma_archive_found(s, req.manifest.archive_id);
}

// ---------------------------------------------------------------------
// Reads
// ---------------------------------------------------------------------

/// Whether a hot document has the identity.
pub open spec fn is_hot(c: CollectionView, id: Seq<u8>) -> bool {
    exists|i: int| 0 <= i < c.documents.len() && (#[trigger] c.documents[i]).id == id
}

/// Whether a reference has the identity.
pub open spec fn is_referenced(c: CollectionView, id: Seq<u8>) -> bool {
    exists|i: int| 0 <= i < c.archived.len() && (#[trigger] c.archived[i]).id == id
}

proof fn lemma_document(documents: Seq<DocumentView>, id: Seq<u8>, i: int)
    requires
        0 <= i <= documents.len(),
    ensures
        match history_reads::document_at(documents, id, i) {
            None => forall|j: int| i <= j < documents.len() ==> (#[trigger] documents[j]).id != id,
            Some(at) => i <= at < documents.len() && documents[at].id == id,
        },
    decreases documents.len() - i,
{
    if i < documents.len() {
        lemma_document(documents, id, i + 1);
    }
}

proof fn lemma_reference(rows: Seq<ArchivedView>, id: Seq<u8>, i: int)
    requires
        0 <= i <= rows.len(),
    ensures
        match history_reads::reference_at(rows, id, i) {
            None => forall|j: int| i <= j < rows.len() ==> (#[trigger] rows[j]).id != id,
            Some(at) => i <= at < rows.len() && rows[at].id == id,
        },
    decreases rows.len() - i,
{
    if i < rows.len() {
        lemma_reference(rows, id, i + 1);
    }
}

/// A lookup answers what there is: a hot document of the identity where there is one, and
/// else where its reference leads, into the archive that it names. Only an identity that
/// the collection knows neither hot nor archived is absent.
pub proof fn lemma_located(
    s: HistoryView,
    name: Name,
    id: Seq<u8>,
    c: int,
    r: Result<Located, Error>,
)
    requires
        is_collection(s, name, c),
        history_reads::located(s, name, id, r),
    ensures
        ({
            let col = s.collections[c];
            &&& r matches Ok(Located::Hot(document)) ==> document@.id == id
                && col.documents.contains(document@)
            &&& is_hot(col, id) ==> r is Ok && r->Ok_0 is Hot
            &&& r is Ok && r->Ok_0 is Absent <==> !is_hot(col, id) && !is_referenced(col, id)
            &&& r matches Ok(Located::Cold { collection, reference, archive }) ==> {
                &&& collection == c
                &&& reference < col.archived.len()
                &&& col.archived[reference as int].id == id
                &&& !is_hot(col, id)
                &&& archive < s.archives.len()
                &&& s.archives[archive as int].manifest.archive_id
                    == col.archived[reference as int].archive_id
            }
            &&& r is Err ==> !is_hot(col, id) && is_referenced(col, id) && r->Err_0.code
                == ErrorCode::Corruption
        }),
{
    hydration_laws::lemma_found(s, name);
    let col = s.collections[c];
    lemma_document(col.documents, id, 0);
    lemma_reference(col.archived, id, 0);
    match history_reads::document_at(col.documents, id, 0) {
        Some(i) => {
            assert(col.documents[i].id == id);
        },
        None => {
            if let Some(i) = history_reads::reference_at(col.archived, id, 0) {
                assert(col.archived[i].id == id);
                lemma_archive_found(s, col.archived[i].archive_id);
            }
        },
    }
}

/// A read of one document ends with the document of the asked identity, or with its
/// absence where the collection knows it neither hot nor archived. A hot document is
/// handed out at once; an archived one is handed out only from a chunk that its reference
/// names, of an archive whose manifest was verified, and only as the version and the bytes
/// that the reference was made of. What is not at hand is fetched from where the archive
/// is kept, within the read's budget; it never becomes an absence.
pub proof fn lemma_read(
    s: HistoryView,
    destinations: Map<Name, u128>,
    cache: HistoryReadCache,
    name: Name,
    id: Seq<u8>,
    c: int,
    r: Result<ReadStep, Error>,
)
    requires
        is_collection(s, name, c),
        c <= usize::MAX,
        s.collections[c].archived.len() <= usize::MAX,
        s.archives.len() <= usize::MAX,
        history_point_read::stepped(s, destinations, cache, name, id, r),
    ensures
        ({
            let col = s.collections[c];
            &&& is_hot(col, id) ==> r is Ok && r->Ok_0 is Done && r->Ok_0->Done_0 is Some
                && col.documents.contains(r->Ok_0->Done_0->0@)
            &&& r is Ok && r->Ok_0 is Done && r->Ok_0->Done_0 is Some
                ==> r->Ok_0->Done_0->0@.id == id
            &&& r is Ok && r->Ok_0 is Done && r->Ok_0->Done_0 is None ==> !is_hot(col, id)
                && !is_referenced(col, id)
            &&& !is_hot(col, id) && !is_referenced(col, id) ==> r is Ok && r->Ok_0 is Done
                && r->Ok_0->Done_0 is None
            &&& !is_hot(col, id) && r is Ok && r->Ok_0 is Done && r->Ok_0->Done_0 is Some
                ==> exists|i: int|
                0 <= i < col.archived.len() && answers(
                    cache,
                    #[trigger] col.archived[i],
                    id,
                    r->Ok_0->Done_0->0@,
                )
            &&& r matches Ok(ReadStep::FetchManifest { destination, archive }) ==> {
                &&& archive < s.archives.len()
                &&& destinations.get(s.archives[archive as int].storage_destination) == Some(
                    destination,
                )
                &&& !cache.manifests().contains(s.archives[archive as int].manifest.archive_id)
            }
            &&& r matches Ok(
                ReadStep::FetchChunk { destination, collection, reference, archive, total },
            ) ==> {
                &&& collection == c
                &&& reference < col.archived.len()
                &&& col.archived[reference as int].id == id
                &&& archive < s.archives.len()
                &&& s.archives[archive as int].manifest.archive_id
                    == col.archived[reference as int].archive_id
                &&& destinations.get(s.archives[archive as int].storage_destination) == Some(
                    destination,
                )
                &&& col.archived[reference as int].chunk_index
                    < s.archives[archive as int].manifest.chunks.len()
                &&& total == cache.materialized()
                    + s.archives[archive as int].manifest.chunks[col.archived[reference as int].chunk_index as int].plaintext_bytes
                &&& total <= s.max_cursor_bytes
            }
        }),
{
    hydration_laws::lemma_found(s, name);
    let col = s.collections[c];
    lemma_document(col.documents, id, 0);
    lemma_reference(col.archived, id, 0);
    match history_reads::document_at(col.documents, id, 0) {
        Some(i) => {
            assert(col.documents[i].id == id);
        },
        None => {
            if let Some(i) = history_reads::reference_at(col.archived, id, 0) {
                let row = col.archived[i];
                assert(row.id == id);
                lemma_archive_found(s, row.archive_id);
                lemma_chunk(cache.chunks(), row.archive_id, row.chunk_index, 0);
                if let Some(at) = history_reads::chunk_at(
                    cache.chunks(),
                    row.archive_id,
                    row.chunk_index,
                    0,
                ) {
                    let documents = history_model::documents_view(cache.chunks()[at].documents@);
                    lemma_document(documents, id, 0);
                    if r is Ok && r->Ok_0 is Done && r->Ok_0->Done_0 is Some {
                        assert(answers(cache, row, id, r->Ok_0->Done_0->0@)) by {
                            assert(cache.chunks()[at].index == row.chunk_index);
                        }
                    }
                }
            }
        },
    }
}

/// Whether the document is the one that the reference was made of, out of a chunk that the
/// reference names.
pub open spec fn answers(
    cache: HistoryReadCache,
    row: ArchivedView,
    id: Seq<u8>,
    d: DocumentView,
) -> bool {
    &&& row.id == id
    &&& d.id == id
    &&& d.version == row.version
    &&& d.sha256 == row.document_sha256
    &&& d.encoded_bytes == row.document_bytes
    &&& cache.manifests().contains(row.archive_id)
    &&& exists|at: int|
        0 <= at < cache.chunks().len() && (#[trigger] cache.chunks()[at]).archive_id
            == row.archive_id && cache.chunks()[at].index == row.chunk_index
            && history_model::documents_view(cache.chunks()[at].documents@).contains(d)
}

proof fn lemma_chunk(chunks: Seq<Chunk>, archive_id: Name, index: u64, i: int)
    requires
        0 <= i <= chunks.len(),
    ensures
        match history_reads::chunk_at(chunks, archive_id, index, i) {
            None => true,
            Some(at) => i <= at < chunks.len() && chunks[at].archive_id == archive_id
                && chunks[at].index == index,
        },
    decreases chunks.len() - i,
{
    if i < chunks.len() {
        lemma_chunk(chunks, archive_id, index, i + 1);
    }
}

/// A fetched chunk is taken exactly where it is the one that was published: of the bytes
/// that its descriptor names, of the archive, the collection and the number that the
/// reference names, with ascending documents that fill its interval and are in front of
/// the cutoff.
pub proof fn lemma_chunk_taken(
    name: Name,
    reference: ArchivedView,
    m: ManifestView,
    plaintext: Seq<u8>,
    chunk: Chunk,
)
    requires
        reference.chunk_index < m.chunks.len(),
    ensures
        ({
            let descriptor = m.chunks[reference.chunk_index as int];
            let documents = history_model::documents_view(chunk.documents@);
            let r = HistoryReadCache::chunk_admitted(name, reference, m, plaintext, chunk);
            &&& r is Ok <==> {
                &&& plaintext.len() == descriptor.plaintext_bytes
                &&& digest::digest_of(plaintext) == descriptor.plaintext_sha256
                &&& chunk.archive_id == reference.archive_id
                &&& chunk.collection == name
                &&& chunk.source_incarnation == m.source_incarnation
                &&& chunk.index == reference.chunk_index
                &&& documents.len() > 0
                &&& documents.len() == descriptor.document_count
                &&& documents[0].id == descriptor.first_id
                &&& documents[documents.len() - 1].id == descriptor.last_id
                &&& forall|i: int, j: int|
                    0 <= i < j < documents.len() ==> texts::less(
                        (#[trigger] documents[i]).id,
                        (#[trigger] documents[j]).id,
                    )
                &&& forall|i: int|
                    0 <= i < documents.len() ==> (#[trigger] documents[i]).version
                        <= m.cutoff_revision
            }
            &&& r is Err ==> r->Err_0.code == ErrorCode::Corruption
        }),
{
}

} // verus!
