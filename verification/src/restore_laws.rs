//! What a history that is restored stands for: every archived identity is in an archive
//! that holds it, every archive is referred to as it describes itself, and the bytes of
//! both are accounted for.
use vstd::prelude::*;

use crate::digest::Name;
use crate::errors::Error;
use crate::history_model::{
    ArchiveBounds, ArchiveForms, ArchivedView, ChunkRefusal, CollectionView, DescriptorView,
    HistoryView, ManifestView, RetainedView,
};
use crate::history_rules;
use crate::history_rules::Extent;
use crate::texts;

verus! {

/// How many documents the first `n` chunks hold.
pub open spec fn documents_in(chunks: Seq<DescriptorView>, n: int) -> int
    decreases n,
{
    if n <= 0 {
        0
    } else {
        documents_in(chunks, n - 1) + chunks[n - 1].document_count
    }
}

/// Whether the chunk is an interval of its own, behind the one before it.
pub open spec fn chunk_stands(
    chunks: Seq<DescriptorView>,
    b: ArchiveBounds,
    form: Option<ChunkRefusal>,
    i: int,
) -> bool {
    &&& !(form is Some && form->0.at == i)
    &&& !texts::less(chunks[i].last_id, chunks[i].first_id)
    &&& i > 0 ==> texts::less(chunks[i - 1].last_id, chunks[i].first_id)
    &&& chunks[i].document_count > 0
    &&& 0 < chunks[i].plaintext_bytes <= b.max_chunk_bytes
    &&& forall|j: int| 0 <= j < i ==> (#[trigger] chunks[j]).object_id != chunks[i].object_id
}

proof fn lemma_documents_grow(chunks: Seq<DescriptorView>, m: int, n: int)
    requires
        0 <= m <= n,
    ensures
        0 <= documents_in(chunks, m) <= documents_in(chunks, n),
    decreases n,
{
    if m < n {
        lemma_documents_grow(chunks, m, n - 1);
    } else if n > 0 {
        lemma_documents_grow(chunks, n - 1, n - 1);
    }
}

proof fn lemma_counted(
    chunks: Seq<DescriptorView>,
    b: ArchiveBounds,
    form: Option<ChunkRefusal>,
    i: int,
    count: u64,
)
    requires
        0 <= i <= chunks.len(),
        count == documents_in(chunks, i),
    ensures
        ({
            let r = history_rules::chunks_counted(chunks, b, form, i, count);
            &&& r is Ok <==> documents_in(chunks, chunks.len() as int) <= u64::MAX && forall|k: int|
                i <= k < chunks.len() ==> #[trigger] chunk_stands(chunks, b, form, k)
            &&& r is Ok ==> r->Ok_0 == documents_in(chunks, chunks.len() as int)
        }),
    decreases chunks.len() - i,
{
    if i < chunks.len() {
        lemma_documents_grow(chunks, i + 1, chunks.len() as int);
        assert(documents_in(chunks, i + 1) == documents_in(chunks, i) + chunks[i].document_count);
        assert(chunk_stands(chunks, b, form, i) <==> history_rules::chunk_refusal(form, i) is None
            && history_rules::chunk_bounded(chunks, i, b));
        if count + chunks[i].document_count <= u64::MAX {
            lemma_counted(chunks, b, form, i + 1, (count + chunks[i].document_count) as u64);
        }
    }
}

/// A manifest is valid exactly if its names are not refused, it is within its bounds, each
/// of its chunks is an interval of its own behind the one before it and in an object of its
/// own, and it counts the documents of all of them.
pub proof fn lemma_manifest(m: ManifestView, b: ArchiveBounds, forms: ArchiveForms)
    ensures
        history_rules::manifest_valid(m, b, forms) is Ok <==> {
            &&& forms.names is None
            &&& 1 <= m.chunks.len() <= b.max_chunks
            &&& 1 <= m.document_count <= b.max_documents
            &&& m.encoded_bytes <= b.max_manifest_bytes
            &&& forall|k: int|
                0 <= k < m.chunks.len() ==> #[trigger] chunk_stands(m.chunks, b, forms.chunk, k)
            &&& documents_in(m.chunks, m.chunks.len() as int) == m.document_count
        },
{
    lemma_counted(m.chunks, b, forms.chunk, 0, 0);
}

// ---------------------------------------------------------------------
// References
// ---------------------------------------------------------------------

/// Whether the archived identity is where it is said to be: in an archive of its
/// collection, in the interval of its chunk, no newer than either, and not hot as well.
pub open spec fn reference_stands(s: HistoryView, c: CollectionView, row: ArchivedView) -> bool {
    &&& row.form_refusal is None
    &&& 1 <= row.document_bytes <= 1052672
    &&& row.version <= c.data_epoch
    &&& forall|i: int| 0 <= i < c.documents.len() ==> (#[trigger] c.documents[i]).id != row.id
    &&& forall|i: int|
        0 <= i < row.indexed_fields.len() ==> c.paths.contains(
            (#[trigger] row.indexed_fields[i]).path,
        )
    &&& exists|k: int| #[trigger] holds_row(s, c, row, k)
}

/// Whether the archive is the first of the row's name, and its chunk spans the row.
pub open spec fn holds_row(s: HistoryView, c: CollectionView, row: ArchivedView, k: int) -> bool {
    let m = s.archives[k].manifest;
    let chunk = m.chunks[row.chunk_index as int];
    &&& 0 <= k < s.archives.len()
    &&& m.archive_id == row.archive_id
    &&& forall|j: int|
        0 <= j < k ==> (#[trigger] s.archives[j]).manifest.archive_id != row.archive_id
    &&& row.chunk_index < m.chunks.len()
    &&& m.collection == c.name
    &&& row.version <= m.cutoff_revision
    &&& !texts::less(row.id, chunk.first_id)
    &&& !texts::less(chunk.last_id, row.id)
}

proof fn lemma_archive_at(s: HistoryView, id: Name, i: int)
    requires
        0 <= i <= s.archives.len(),
        forall|j: int| 0 <= j < i ==> (#[trigger] s.archives[j]).manifest.archive_id != id,
    ensures
        match history_rules::archive_at(s.archives, id, i) {
            Some(k) => {
                &&& 0 <= k < s.archives.len()
                &&& s.archives[k].manifest.archive_id == id
                &&& forall|j: int|
                    0 <= j < k ==> (#[trigger] s.archives[j]).manifest.archive_id != id
            },
            None => forall|j: int|
                0 <= j < s.archives.len() ==> (#[trigger] s.archives[j]).manifest.archive_id != id,
        },
    decreases s.archives.len() - i,
{
    if i < s.archives.len() && s.archives[i].manifest.archive_id != id {
        lemma_archive_at(s, id, i + 1);
    }
}

proof fn lemma_reference(s: HistoryView, c: CollectionView, row: ArchivedView)
    ensures
        history_rules::reference_checked(s, c, row) is Ok <==> reference_stands(s, c, row),
{
    lemma_archive_at(s, row.archive_id, 0);
    let at = history_rules::archive_at(s.archives, row.archive_id, 0);
    if reference_stands(s, c, row) {
        let k = choose|k: int| #[trigger] holds_row(s, c, row, k);
        assert(s.archives[k].manifest.archive_id == row.archive_id);
        assert(at is Some);
        assert(at->0 == k);
    }
    if history_rules::reference_checked(s, c, row) is Ok {
        assert(holds_row(s, c, row, at->0));
    }
}

/// The bytes of the first `n` references: of each its key, a separator and its value.
pub open spec fn reference_bytes(rows: Seq<ArchivedView>, n: int) -> int
    decreases n,
{
    if n <= 0 {
        0
    } else {
        reference_bytes(rows, n - 1) + rows[n - 1].size.id + 1 + rows[n - 1].size.value
    }
}

proof fn lemma_references(s: HistoryView, c: CollectionView, i: int, sum: u64)
    requires
        0 <= i <= c.archived.len(),
        sum == reference_bytes(c.archived, i),
        history_rules::references_checked(s, c, i, sum) is Ok,
    ensures
        forall|k: int|
            i <= k < c.archived.len() ==> reference_stands(s, c, #[trigger] c.archived[k]),
        history_rules::references_checked(s, c, i, sum)->Ok_0 == reference_bytes(
            c.archived,
            c.archived.len() as int,
        ),
    decreases c.archived.len() - i,
{
    if i < c.archived.len() {
        lemma_reference(s, c, c.archived[i]);
        let bytes = history_rules::entry_bytes(c.archived[i].size)->Ok_0;
        assert(reference_bytes(c.archived, i + 1) == reference_bytes(c.archived, i) + bytes);
        lemma_references(s, c, i + 1, (sum + bytes) as u64);
    }
}

proof fn lemma_collections(s: HistoryView, i: int, c: int)
    requires
        0 <= i <= c < s.collections.len(),
        history_rules::collections_checked(s, i) is Ok,
    ensures
        history_rules::collection_checked(s, s.collections[c]) is Ok,
    decreases c - i,
{
    if i < c {
        lemma_collections(s, i + 1, c);
    }
}

/// Every collection of a restored history that has archived identities may have them, each
/// of them is where it is said to be, and the bytes of all of them are accounted for.
pub proof fn lemma_collection_restored(s: HistoryView, b: ArchiveBounds, c: int)
    requires
        history_rules::restored(s, b) is Ok,
        0 <= c < s.collections.len(),
    ensures
        ({
            let collection = s.collections[c];
            &&& collection.archived.len() > 0 ==> collection.archivable && collection.append_only
                && !collection.text_indexed
            &&& forall|k: int|
                0 <= k < collection.archived.len() ==> reference_stands(
                    s,
                    collection,
                    #[trigger] collection.archived[k],
                )
            &&& collection.archived_bytes == reference_bytes(
                collection.archived,
                collection.archived.len() as int,
            )
        }),
{
    lemma_collections(s, 0, c);
    lemma_references(s, s.collections[c], 0, 0);
}

// ---------------------------------------------------------------------
// Archives
// ---------------------------------------------------------------------

/// Whether the row refers to the chunk of the archive.
pub open spec fn refers(row: ArchivedView, archive_id: Name, chunk: int) -> bool {
    row.archive_id == archive_id && row.chunk_index == chunk
}

/// How many of the first `n` rows refer to the chunk.
pub open spec fn referring(rows: Seq<ArchivedView>, archive_id: Name, chunk: int, n: int) -> nat {
    rows.take(n).filter(|row: ArchivedView| refers(row, archive_id, chunk)).len()
}

/// How many rows of the first `n` collections refer to the chunk.
pub open spec fn referring_all(
    collections: Seq<CollectionView>,
    archive_id: Name,
    chunk: int,
    n: int,
) -> nat
    decreases n,
{
    if n <= 0 {
        0
    } else {
        referring_all(collections, archive_id, chunk, n - 1) + referring(
            collections[n - 1].archived,
            archive_id,
            chunk,
            collections[n - 1].archived.len() as int,
        )
    }
}

/// Whether the row at `k` of the collection at `c` refers to the chunk.
pub open spec fn refers_at(
    collections: Seq<CollectionView>,
    archive_id: Name,
    chunk: int,
    c: int,
    k: int,
) -> bool {
    &&& 0 <= c < collections.len()
    &&& 0 <= k < collections[c].archived.len()
    &&& refers(collections[c].archived[k], archive_id, chunk)
}

/// Whether the extent spans the identity.
pub open spec fn spans(extent: Extent, id: Seq<u8>) -> bool {
    !texts::less(id, extent.first) && !texts::less(extent.last, id)
}

proof fn lemma_extended(extent: Option<Extent>, id: Seq<u8>, other: Seq<u8>)
    ensures
        ({
            let after = history_rules::extended(extent, id)->0;
            &&& history_rules::extended(extent, id) is Some
            &&& extent is Some && !texts::less(extent->0.last, extent->0.first) ==> !texts::less(
                after.last,
                after.first,
            )
            &&& extent is None ==> !texts::less(after.last, after.first)
            &&& spans(after, id) || (extent is Some && texts::less(
                extent->0.last,
                extent->0.first,
            ))
            &&& extent is Some && spans(extent->0, other) ==> spans(after, other)
        }),
{
    texts::lemma_irreflexive(id);
    if let Some(e) = extent {
        texts::lemma_irreflexive(e.first);
        texts::lemma_irreflexive(e.last);
        texts::lemma_total(id, e.first);
        texts::lemma_total(id, e.last);
        texts::lemma_total(e.first, e.last);
        texts::lemma_total(other, id);
        if texts::less(other, id) && texts::less(id, e.first) {
            texts::lemma_transitive(other, id, e.first);
        }
        if texts::less(e.last, id) && texts::less(id, other) {
            texts::lemma_transitive(e.last, id, other);
        }
        if texts::less(id, e.first) && texts::less(e.last, id) {
            texts::lemma_transitive(e.last, id, e.first);
        }
        if texts::less(e.last, id) && texts::less(id, e.first) {
            texts::lemma_transitive(e.last, id, e.first);
        }
    }
}

proof fn lemma_extent_rows(
    rows: Seq<ArchivedView>,
    archive_id: Name,
    chunk: int,
    n: int,
    start: Option<Extent>,
)
    requires
        0 <= n <= rows.len(),
        start is Some ==> !texts::less(start->0.last, start->0.first),
    ensures
        ({
            let r = history_rules::extent_of_rows(rows, archive_id, chunk, n, start);
            let before = if start is Some {
                start->0.count
            } else {
                0
            };
            &&& r is Some ==> !texts::less(r->0.last, r->0.first) && r->0.count == before
                + referring(rows, archive_id, chunk, n)
            &&& r is None ==> start is None && referring(rows, archive_id, chunk, n) == 0
            &&& start is Some ==> r is Some && forall|id: Seq<u8>| #[trigger]
                spans(start->0, id) ==> spans(r->0, id)
            &&& forall|k: int|
                0 <= k < n && refers(#[trigger] rows[k], archive_id, chunk) ==> r is Some && spans(
                    r->0,
                    rows[k].id,
                )
            &&& r is Some ==> (start is Some && r->0.first == start->0.first) || exists|k: int|
                0 <= k < n && refers(#[trigger] rows[k], archive_id, chunk) && rows[k].id
                    == r->0.first
            &&& r is Some ==> (start is Some && r->0.last == start->0.last) || exists|k: int|
                0 <= k < n && refers(#[trigger] rows[k], archive_id, chunk) && rows[k].id
                    == r->0.last
        }),
    decreases n,
{
    let keep = |row: ArchivedView| refers(row, archive_id, chunk);
    reveal(Seq::filter);
    if n > 0 {
        lemma_extent_rows(rows, archive_id, chunk, n - 1, start);
        let before = history_rules::extent_of_rows(rows, archive_id, chunk, n - 1, start);
        let r = history_rules::extent_of_rows(rows, archive_id, chunk, n, start);
        let row = rows[n - 1];
        assert(rows.take(n).drop_last() =~= rows.take(n - 1));
        assert(rows.take(n).last() == row);
        if refers(row, archive_id, chunk) {
            lemma_extended(before, row.id, row.id);
            assert forall|id: Seq<u8>| before is Some && #[trigger] spans(before->0, id) implies
                spans(r->0, id) by {
                lemma_extended(before, row.id, id);
            }
            assert forall|k: int| 0 <= k < n && refers(#[trigger] rows[k], archive_id, chunk)
                implies r is Some && spans(r->0, rows[k].id) by {
                if k < n - 1 {
                    assert(spans(before->0, rows[k].id));
                }
            }
            assert(rows[n - 1].id == row.id);
        }
    } else {
        assert(rows.take(n) =~= Seq::empty());
    }
}

proof fn lemma_extent(collections: Seq<CollectionView>, archive_id: Name, chunk: int, n: int)
    requires
        0 <= n <= collections.len(),
    ensures
        ({
            let r = history_rules::extent_of(collections, archive_id, chunk, n);
            &&& r is Some ==> !texts::less(r->0.last, r->0.first) && r->0.count == referring_all(
                collections,
                archive_id,
                chunk,
                n,
            )
            &&& r is None ==> referring_all(collections, archive_id, chunk, n) == 0
            &&& forall|c: int, k: int| #[trigger]
                refers_at(collections, archive_id, chunk, c, k) && c < n ==> r is Some && spans(
                    r->0,
                    collections[c].archived[k].id,
                )
            &&& r is Some ==> exists|c: int, k: int| #[trigger]
                refers_at(collections, archive_id, chunk, c, k) && c < n
                    && collections[c].archived[k].id == r->0.first
            &&& r is Some ==> exists|c: int, k: int| #[trigger]
                refers_at(collections, archive_id, chunk, c, k) && c < n
                    && collections[c].archived[k].id == r->0.last
        }),
    decreases n,
{
    if n > 0 {
        lemma_extent(collections, archive_id, chunk, n - 1);
        let before = history_rules::extent_of(collections, archive_id, chunk, n - 1);
        let rows = collections[n - 1].archived;
        let r = history_rules::extent_of(collections, archive_id, chunk, n);
        lemma_extent_rows(rows, archive_id, chunk, rows.len() as int, before);
        assert forall|c: int, k: int| #[trigger]
            refers_at(collections, archive_id, chunk, c, k) && c < n implies r is Some && spans(
            r->0,
            collections[c].archived[k].id,
        ) by {
            if c < n - 1 {
                assert(spans(before->0, collections[c].archived[k].id));
            } else {
                assert(refers(rows[k], archive_id, chunk));
            }
        }
        if r is Some {
            if !(before is Some && r->0.first == before->0.first) {
                let k = choose|k: int|
                    0 <= k < rows.len() && refers(#[trigger] rows[k], archive_id, chunk)
                        && rows[k].id == r->0.first;
                assert(refers_at(collections, archive_id, chunk, n - 1, k));
            }
            if !(before is Some && r->0.last == before->0.last) {
                let k = choose|k: int|
                    0 <= k < rows.len() && refers(#[trigger] rows[k], archive_id, chunk)
                        && rows[k].id == r->0.last;
                assert(refers_at(collections, archive_id, chunk, n - 1, k));
            }
        }
    }
}

proof fn lemma_chunks(s: HistoryView, m: ManifestView, i: int, k: int)
    requires
        0 <= i <= k < m.chunks.len(),
        history_rules::chunks_referenced(s, m, i) is Ok,
    ensures
        history_rules::chunk_referenced(s, m, k) is Ok,
    decreases k - i,
{
    if i < k {
        lemma_chunks(s, m, i + 1, k);
    }
}

/// The bytes of the first `n` archives: of each its key, a separator and its value.
pub open spec fn catalog_bytes(archives: Seq<RetainedView>, n: int) -> int
    decreases n,
{
    if n <= 0 {
        0
    } else {
        catalog_bytes(archives, n - 1) + archives[n - 1].size.id + 1 + archives[n - 1].size.value
    }
}

proof fn lemma_archives(s: HistoryView, b: ArchiveBounds, i: int, sum: u64)
    requires
        0 <= i <= s.archives.len(),
        sum == catalog_bytes(s.archives, i),
        history_rules::archives_checked(s, b, i, sum) is Ok,
    ensures
        forall|k: int|
            i <= k < s.archives.len() ==> history_rules::archive_checked(
                s,
                #[trigger] s.archives[k],
                b,
            ) is Ok,
        history_rules::archives_checked(s, b, i, sum)->Ok_0 == catalog_bytes(
            s.archives,
            s.archives.len() as int,
        ),
    decreases s.archives.len() - i,
{
    if i < s.archives.len() {
        let bytes = history_rules::entry_bytes(s.archives[i].size)->Ok_0;
        assert(catalog_bytes(s.archives, i + 1) == catalog_bytes(s.archives, i) + bytes);
        lemma_archives(s, b, i + 1, (sum + bytes) as u64);
    }
}

/// Every archive of a restored history is the tenant's, no newer than the state, and valid;
/// and each of its chunks is referred to by as many identities as it holds documents, the
/// least of which is its first and the greatest its last.
pub proof fn lemma_archive_restored(s: HistoryView, b: ArchiveBounds, at: int, i: int)
    requires
        history_rules::restored(s, b) is Ok,
        0 <= at < s.archives.len(),
        0 <= i < s.archives[at].manifest.chunks.len(),
    ensures
        ({
            let archive = s.archives[at];
            let m = archive.manifest;
            let n = s.collections.len() as int;
            &&& m.tenant == s.tenant
            &&& archive.published_revision <= s.revision
            &&& archive.forms.destination is None
            &&& archive.forms.object is None
            &&& history_rules::manifest_valid(m, b, archive.forms) is Ok
            &&& referring_all(s.collections, m.archive_id, i, n) == m.chunks[i].document_count
            &&& forall|c: int, k: int| #[trigger]
                refers_at(s.collections, m.archive_id, i, c, k) ==> {
                    let id = s.collections[c].archived[k].id;
                    !texts::less(id, m.chunks[i].first_id) && !texts::less(m.chunks[i].last_id, id)
                }
            &&& exists|c: int, k: int| #[trigger]
                refers_at(s.collections, m.archive_id, i, c, k)
                    && s.collections[c].archived[k].id == m.chunks[i].first_id
            &&& exists|c: int, k: int| #[trigger]
                refers_at(s.collections, m.archive_id, i, c, k)
                    && s.collections[c].archived[k].id == m.chunks[i].last_id
        }),
{
    lemma_archives(s, b, 0, 0);
    let m = s.archives[at].manifest;
    assert(history_rules::archive_checked(s, s.archives[at], b) is Ok);
    lemma_chunks(s, m, 0, i);
    lemma_extent(s.collections, m.archive_id, i, s.collections.len() as int);
}

/// A restored history has no more archives than it may have, and accounts for the bytes of
/// all of them.
pub proof fn lemma_catalog_restored(s: HistoryView, b: ArchiveBounds)
    requires
        history_rules::restored(s, b) is Ok,
    ensures
        s.archives.len() <= s.max_archive_segments,
        s.archive_bytes == catalog_bytes(s.archives, s.archives.len() as int),
{
    lemma_archives(s, b, 0, 0);
}

} // verus!
