//! A history that holds keeps holding: what a publication leaves is what a restored
//! history is held to.
use vstd::prelude::*;

use crate::digest::Name;
use crate::errors::Error;
use crate::history_laws;
use crate::history_model::{
    ArchiveBounds, ArchivedView, CollectionView, DescriptorView, DocumentView, EntrySize,
    HistoryView, IndexedField, ManifestView, PublishArchiveView, RetainedView,
};
use crate::history_rules;
use crate::history_rules::{Extent, Moved, Staged};
use crate::texts;

verus! {

// ---------------------------------------------------------------------
// Bytes
// ---------------------------------------------------------------------

pub open spec fn entry_total(size: EntrySize) -> int {
    size.id + 1 + size.value
}

/// The bytes of the first `n` references.
pub open spec fn references_total(rows: Seq<ArchivedView>, n: int) -> int
    decreases n,
{
    if n <= 0 {
        0
    } else {
        references_total(rows, n - 1) + entry_total(rows[n - 1].size)
    }
}

/// The bytes of the first `n` archives.
pub open spec fn archives_total(archives: Seq<RetainedView>, n: int) -> int
    decreases n,
{
    if n <= 0 {
        0
    } else {
        archives_total(archives, n - 1) + entry_total(archives[n - 1].size)
    }
}

proof fn lemma_references_grow(rows: Seq<ArchivedView>, m: int, n: int)
    requires
        0 <= m <= n,
    ensures
        references_total(rows, m) <= references_total(rows, n),
    decreases n - m,
{
    if m < n {
        lemma_references_grow(rows, m, n - 1);
    }
}

proof fn lemma_archives_grow(archives: Seq<RetainedView>, m: int, n: int)
    requires
        0 <= m <= n,
    ensures
        archives_total(archives, m) <= archives_total(archives, n),
    decreases n - m,
{
    if m < n {
        lemma_archives_grow(archives, m, n - 1);
    }
}

/// References hold where each of them does, and their bytes are a number.
proof fn lemma_references(s: HistoryView, c: CollectionView, i: int, sum: u64)
    requires
        0 <= i <= c.archived.len(),
    ensures
        ({
            let rest = references_total(c.archived, c.archived.len() as int) - references_total(
                c.archived,
                i,
            );
            let r = history_rules::references_checked(s, c, i, sum);
            &&& r is Ok <==> sum + rest <= u64::MAX && forall|j: int|
                i <= j < c.archived.len() ==> history_rules::reference_checked(
                    s,
                    c,
                    #[trigger] c.archived[j],
                ) is Ok
            &&& r is Ok ==> r->Ok_0 == sum + rest
        }),
    decreases c.archived.len() - i,
{
    if i < c.archived.len() {
        let all = c.archived.len() as int;
        lemma_references_grow(c.archived, i + 1, all);
        let size = c.archived[i].size;
        if history_rules::reference_checked(s, c, c.archived[i]) is Ok && sum + entry_total(size)
            <= u64::MAX {
            let more = (sum + entry_total(size)) as u64;
            lemma_references(s, c, i + 1, more);
            assert forall|j: int|
                i <= j < c.archived.len() && (forall|k: int|
                    i + 1 <= k < c.archived.len() ==> history_rules::reference_checked(
                        s,
                        c,
                        #[trigger] c.archived[k],
                    ) is Ok) implies history_rules::reference_checked(
                s,
                c,
                #[trigger] c.archived[j],
            ) is Ok by {}
        }
    }
}

/// Archives hold where each of them does, and their bytes are a number.
proof fn lemma_archives(s: HistoryView, b: ArchiveBounds, i: int, sum: u64)
    requires
        0 <= i <= s.archives.len(),
    ensures
        ({
            let rest = archives_total(s.archives, s.archives.len() as int) - archives_total(
                s.archives,
                i,
            );
            let r = history_rules::archives_checked(s, b, i, sum);
            &&& r is Ok <==> sum + rest <= u64::MAX && forall|j: int|
                i <= j < s.archives.len() ==> history_rules::archive_checked(
                    s,
                    #[trigger] s.archives[j],
                    b,
                ) is Ok
            &&& r is Ok ==> r->Ok_0 == sum + rest
        }),
    decreases s.archives.len() - i,
{
    if i < s.archives.len() {
        let all = s.archives.len() as int;
        lemma_archives_grow(s.archives, i + 1, all);
        let size = s.archives[i].size;
        if history_rules::archive_checked(s, s.archives[i], b) is Ok && sum + entry_total(size)
            <= u64::MAX {
            let more = (sum + entry_total(size)) as u64;
            lemma_archives(s, b, i + 1, more);
            assert forall|j: int|
                i <= j < s.archives.len() && (forall|k: int|
                    i + 1 <= k < s.archives.len() ==> history_rules::archive_checked(
                        s,
                        #[trigger] s.archives[k],
                        b,
                    ) is Ok) implies history_rules::archive_checked(s, #[trigger] s.archives[j], b)
                is Ok by {}
        }
    }
}

/// Collections hold where each of them does.
proof fn lemma_collections(s: HistoryView, i: int)
    requires
        0 <= i <= s.collections.len(),
    ensures
        history_rules::collections_checked(s, i) is Ok <==> forall|j: int|
            i <= j < s.collections.len() ==> history_rules::collection_checked(
                s,
                #[trigger] s.collections[j],
            ) is Ok,
    decreases s.collections.len() - i,
{
    if i < s.collections.len() {
        lemma_collections(s, i + 1);
    }
}

/// Chunks hold where each of them does.
proof fn lemma_chunks(s: HistoryView, m: ManifestView, i: int)
    requires
        0 <= i <= m.chunks.len(),
    ensures
        history_rules::chunks_referenced(s, m, i) is Ok <==> forall|j: int|
            i <= j < m.chunks.len() ==> #[trigger] history_rules::chunk_referenced(s, m, j) is Ok,
    decreases m.chunks.len() - i,
{
    if i < m.chunks.len() {
        lemma_chunks(s, m, i + 1);
        assert forall|j: int|
            i <= j < m.chunks.len() && (forall|k: int|
                i + 1 <= k < m.chunks.len() ==> #[trigger] history_rules::chunk_referenced(s, m, k)
                    is Ok) && history_rules::chunk_referenced(s, m, i) is Ok implies
            #[trigger] history_rules::chunk_referenced(s, m, j) is Ok by {}
    }
}

// ---------------------------------------------------------------------
// Insertion
// ---------------------------------------------------------------------

/// A row goes in at one place.
proof fn lemma_insert_at(rows: Seq<ArchivedView>, row: ArchivedView) -> (at: int)
    ensures
        0 <= at <= rows.len(),
        history_rules::inserted(rows, row) == rows.insert(at, row),
    decreases rows.len(),
{
    if rows.len() == 0 {
        assert(rows.insert(0, row) =~= seq![row]);
        0
    } else if texts::less(row.id, rows[0].id) {
        assert(rows.insert(0, row) =~= seq![row] + rows);
        0
    } else {
        let rest = rows.drop_first();
        let at = lemma_insert_at(rest, row);
        assert(rows.insert(at + 1, row) =~= seq![rows[0]] + rest.insert(at, row));
        at + 1
    }
}

proof fn lemma_total_inserted(rows: Seq<ArchivedView>, row: ArchivedView, at: int, n: int)
    requires
        0 <= at <= rows.len(),
        0 <= n <= rows.len() + 1,
    ensures
        references_total(rows.insert(at, row), n) == if n <= at {
            references_total(rows, n)
        } else {
            references_total(rows, n - 1) + entry_total(row.size)
        },
    decreases n,
{
    if n > 0 {
        lemma_total_inserted(rows, row, at, n - 1);
        let more = rows.insert(at, row);
        if n - 1 < at {
            assert(more[n - 1] == rows[n - 1]);
        } else if n - 1 == at {
            assert(more[n - 1] == row);
        } else {
            assert(more[n - 1] == rows[n - 2]);
        }
    }
}

/// Whether a reference is to the chunk.
pub open spec fn refers(row: ArchivedView, archive_id: Name, chunk: int) -> bool {
    row.archive_id == archive_id && row.chunk_index == chunk
}

/// Of two identities either may be counted first.
proof fn lemma_extended_commutes(e: Option<Extent>, a: Seq<u8>, b: Seq<u8>)
    ensures
        history_rules::extended(history_rules::extended(e, a), b) == history_rules::extended(
            history_rules::extended(e, b),
            a,
        ),
{
    texts::lemma_total(a, b);
    texts::lemma_irreflexive(a);
    texts::lemma_irreflexive(b);
    if texts::less(a, b) && texts::less(b, a) {
        texts::lemma_transitive(a, b, a);
    }
    if let Some(x) = e {
        lemma_least(x.first, a, b);
        lemma_most(x.last, a, b);
    }
}

spec fn lesser(a: Seq<u8>, b: Seq<u8>) -> Seq<u8> {
    if texts::less(b, a) {
        b
    } else {
        a
    }
}

spec fn greater(a: Seq<u8>, b: Seq<u8>) -> Seq<u8> {
    if texts::less(a, b) {
        b
    } else {
        a
    }
}

proof fn lemma_order(x: Seq<u8>, y: Seq<u8>)
    ensures
        !(texts::less(x, y) && texts::less(y, x)),
        texts::less(x, y) || texts::less(y, x) || x == y,
{
    texts::lemma_total(x, y);
    texts::lemma_irreflexive(x);
    if texts::less(x, y) && texts::less(y, x) {
        texts::lemma_transitive(x, y, x);
    }
}

proof fn lemma_least(x: Seq<u8>, a: Seq<u8>, b: Seq<u8>)
    ensures
        lesser(lesser(x, a), b) == lesser(lesser(x, b), a),
{
    lemma_order(x, a);
    lemma_order(x, b);
    lemma_order(a, b);
    if texts::less(a, x) && texts::less(b, a) {
        texts::lemma_transitive(b, a, x);
    }
    if texts::less(b, x) && texts::less(a, b) {
        texts::lemma_transitive(a, b, x);
    }
    if texts::less(x, b) && texts::less(b, a) {
        texts::lemma_transitive(x, b, a);
    }
    if texts::less(x, a) && texts::less(a, b) {
        texts::lemma_transitive(x, a, b);
    }
}

proof fn lemma_most(x: Seq<u8>, a: Seq<u8>, b: Seq<u8>)
    ensures
        greater(greater(x, a), b) == greater(greater(x, b), a),
{
    lemma_order(x, a);
    lemma_order(x, b);
    lemma_order(a, b);
    if texts::less(x, a) && texts::less(a, b) {
        texts::lemma_transitive(x, a, b);
    }
    if texts::less(x, b) && texts::less(b, a) {
        texts::lemma_transitive(x, b, a);
    }
    if texts::less(b, a) && texts::less(a, x) {
        texts::lemma_transitive(b, a, x);
    }
    if texts::less(a, b) && texts::less(b, x) {
        texts::lemma_transitive(a, b, x);
    }
}

/// A row counts the same wherever it goes in.
proof fn lemma_extent_inserted(
    rows: Seq<ArchivedView>,
    row: ArchivedView,
    at: int,
    archive_id: Name,
    chunk: int,
    n: int,
    e: Option<Extent>,
)
    requires
        0 <= at <= rows.len(),
        0 <= n <= rows.len() + 1,
    ensures
        history_rules::extent_of_rows(rows.insert(at, row), archive_id, chunk, n, e) == if n
            <= at {
            history_rules::extent_of_rows(rows, archive_id, chunk, n, e)
        } else if refers(row, archive_id, chunk) {
            history_rules::extended(
                history_rules::extent_of_rows(rows, archive_id, chunk, n - 1, e),
                row.id,
            )
        } else {
            history_rules::extent_of_rows(rows, archive_id, chunk, n - 1, e)
        },
    decreases n,
{
    if n > 0 {
        lemma_extent_inserted(rows, row, at, archive_id, chunk, n - 1, e);
        let more = rows.insert(at, row);
        if n - 1 < at {
            assert(more[n - 1] == rows[n - 1]);
        } else if n - 1 == at {
            assert(more[n - 1] == row);
        } else {
            assert(more[n - 1] == rows[n - 2]);
            lemma_extended_commutes(
                history_rules::extent_of_rows(rows, archive_id, chunk, n - 2, e),
                row.id,
                rows[n - 2].id,
            );
        }
    }
}

// ---------------------------------------------------------------------
// Staging
// ---------------------------------------------------------------------

/// The extent of a chunk behind the moved rows from `i` on.
pub open spec fn moved_extent(moved: Seq<Moved>, chunk: int, i: int, e: Option<Extent>) -> Option<
    Extent,
>
    decreases moved.len() - i,
{
    if i < 0 || i >= moved.len() {
        e
    } else if moved[i].chunk == chunk {
        moved_extent(moved, chunk, i + 1, history_rules::extended(e, moved[i].document.id))
    } else {
        moved_extent(moved, chunk, i + 1, e)
    }
}

/// Whether the row is the reference of a row that moved, from `i` on.
pub open spec fn moved_row(
    paths: Seq<Name>,
    archive_id: Name,
    moved: Seq<Moved>,
    sizes: Seq<EntrySize>,
    i: int,
    row: ArchivedView,
) -> bool {
    exists|j: int|
        i <= j < moved.len() && row == history_rules::reference_of(
            paths,
            archive_id,
            #[trigger] moved[j],
            sizes[j],
        )
}

/// The bytes of the references stay accounted for, and each reference is an old one or
/// of a moved row.
proof fn lemma_staged(
    paths: Seq<Name>,
    archive_id: Name,
    moved: Seq<Moved>,
    sizes: Seq<EntrySize>,
    i: int,
    staged: Staged,
)
    requires
        0 <= i <= moved.len(),
        history_rules::stage(paths, archive_id, moved, sizes, i, staged) is Ok,
        staged.archived_bytes == references_total(staged.archived, staged.archived.len() as int),
    ensures
        ({
            let last = history_rules::stage(paths, archive_id, moved, sizes, i, staged)->Ok_0;
            &&& last.archived_bytes == references_total(last.archived, last.archived.len() as int)
            &&& forall|row: ArchivedView| #[trigger]
                last.archived.contains(row) ==> staged.archived.contains(row) || moved_row(
                    paths,
                    archive_id,
                    moved,
                    sizes,
                    i,
                    row,
                )
        }),
    decreases moved.len() - i,
{
    if i < moved.len() {
        let row = history_rules::reference_of(paths, archive_id, moved[i], sizes[i]);
        let next = history_rules::stage_row(paths, archive_id, moved[i], sizes[i], staged)->Ok_0;
        let at = lemma_insert_at(staged.archived, row);
        let n = staged.archived.len() as int;
        lemma_total_inserted(staged.archived, row, at, n + 1);
        assert(next.archived == staged.archived.insert(at, row));
        lemma_staged(paths, archive_id, moved, sizes, i + 1, next);
        let last = history_rules::stage(paths, archive_id, moved, sizes, i, staged)->Ok_0;
        assert forall|r: ArchivedView| #[trigger]
            last.archived.contains(r) implies staged.archived.contains(r) || moved_row(
            paths,
            archive_id,
            moved,
            sizes,
            i,
            r,
        ) by {
            if next.archived.contains(r) {
                let k = choose|k: int| 0 <= k < next.archived.len() && next.archived[k] == r;
                if k < at {
                    assert(staged.archived[k] == r);
                } else if k == at {
                    assert(r == history_rules::reference_of(paths, archive_id, moved[i], sizes[i]));
                } else {
                    assert(staged.archived[k - 1] == r);
                }
            } else {
                let j = choose|j: int|
                    i + 1 <= j < moved.len() && r == history_rules::reference_of(
                        paths,
                        archive_id,
                        #[trigger] moved[j],
                        sizes[j],
                    );
                assert(r == history_rules::reference_of(paths, archive_id, moved[j], sizes[j]));
            }
        }
    }
}

/// The moved rows count where they are referred to, and nowhere else.
proof fn lemma_staged_extent(
    paths: Seq<Name>,
    archive_id: Name,
    moved: Seq<Moved>,
    sizes: Seq<EntrySize>,
    i: int,
    staged: Staged,
    id: Name,
    chunk: int,
    e: Option<Extent>,
)
    requires
        0 <= i <= moved.len(),
        history_rules::stage(paths, archive_id, moved, sizes, i, staged) is Ok,
    ensures
        ({
            let last = history_rules::stage(paths, archive_id, moved, sizes, i, staged)->Ok_0;
            let before = history_rules::extent_of_rows(
                staged.archived,
                id,
                chunk,
                staged.archived.len() as int,
                e,
            );
            history_rules::extent_of_rows(
                last.archived,
                id,
                chunk,
                last.archived.len() as int,
                e,
            ) == if id == archive_id {
                moved_extent(moved, chunk, i, before)
            } else {
                before
            }
        }),
    decreases moved.len() - i,
{
    if i < moved.len() {
        let row = history_rules::reference_of(paths, archive_id, moved[i], sizes[i]);
        let next = history_rules::stage_row(paths, archive_id, moved[i], sizes[i], staged)->Ok_0;
        let at = lemma_insert_at(staged.archived, row);
        let n = staged.archived.len() as int;
        lemma_extent_inserted(staged.archived, row, at, id, chunk, n + 1, e);
        lemma_staged_extent(paths, archive_id, moved, sizes, i + 1, next, id, chunk, e);
    }
}

// ---------------------------------------------------------------------
// Moves
// ---------------------------------------------------------------------

proof fn lemma_moved_extent_joined(a: Seq<Moved>, b: Seq<Moved>, chunk: int, i: int, e: Option<Extent>)
    requires
        0 <= i <= a.len(),
    ensures
        moved_extent(a + b, chunk, i, e) == moved_extent(b, chunk, 0, moved_extent(a, chunk, i, e)),
    decreases a.len() - i,
{
    let all = a + b;
    if i < a.len() {
        assert(all[i] == a[i]);
        if a[i].chunk == chunk {
            lemma_moved_extent_joined(
                a,
                b,
                chunk,
                i + 1,
                history_rules::extended(e, a[i].document.id),
            );
        } else {
            lemma_moved_extent_joined(a, b, chunk, i + 1, e);
        }
    } else {
        lemma_moved_extent_shift(a, b, chunk, 0, e);
    }
}

proof fn lemma_moved_extent_shift(a: Seq<Moved>, b: Seq<Moved>, chunk: int, i: int, e: Option<Extent>)
    requires
        0 <= i <= b.len(),
    ensures
        moved_extent(a + b, chunk, a.len() + i, e) == moved_extent(b, chunk, i, e),
    decreases b.len() - i,
{
    let all = a + b;
    if i < b.len() {
        assert(all[a.len() + i] == b[i]);
        if b[i].chunk == chunk {
            lemma_moved_extent_shift(
                a,
                b,
                chunk,
                i + 1,
                history_rules::extended(e, b[i].document.id),
            );
        } else {
            lemma_moved_extent_shift(a, b, chunk, i + 1, e);
        }
    }
}

/// Rows of other chunks count nothing.
proof fn lemma_moved_elsewhere(moved: Seq<Moved>, chunk: int, i: int, e: Option<Extent>)
    requires
        0 <= i <= moved.len(),
        forall|j: int| 0 <= j < moved.len() ==> (#[trigger] moved[j]).chunk != chunk,
    ensures
        moved_extent(moved, chunk, i, e) == e,
    decreases moved.len() - i,
{
    if i < moved.len() {
        lemma_moved_elsewhere(moved, chunk, i + 1, e);
    }
}

/// The first `i` of ascending rows have the extent from the first to the last of them.
proof fn lemma_covered_extent(rows: Seq<DocumentView>, chunk: u64, i: int)
    requires
        history_rules::ascending(rows),
        0 < i <= rows.len(),
    ensures
        moved_extent(history_rules::moved_to(rows, chunk), chunk as int, 0, None) == moved_extent(
            history_rules::moved_to(rows, chunk),
            chunk as int,
            i,
            Some(Extent { count: i as nat, first: rows[0].id, last: rows[i - 1].id }),
        ),
    decreases i,
{
    let moved = history_rules::moved_to(rows, chunk);
    if i == 1 {
        assert(moved[0].document == rows[0]);
    } else {
        lemma_covered_extent(rows, chunk, i - 1);
        assert(moved[i - 1].document == rows[i - 1]);
        assert(texts::less(rows[i - 2].id, rows[i - 1].id));
        lemma_order(rows[0].id, rows[i - 1].id);
        assert(texts::less(rows[0].id, rows[i - 1].id));
    }
}

/// Whether a moved row lies in the interval of its chunk.
pub open spec fn in_its_chunk(chunks: Seq<DescriptorView>, m: Moved) -> bool {
    &&& m.chunk < chunks.len()
    &&& !texts::less(m.document.id, chunks[m.chunk as int].first_id)
    &&& !texts::less(chunks[m.chunk as int].last_id, m.document.id)
}

/// What the moves come to: each row lies in its chunk, and each chunk has the extent
/// that it describes.
proof fn lemma_moves_extent(
    rows: Seq<DocumentView>,
    chunks: Seq<DescriptorView>,
    encodings: Seq<Vec<u8>>,
    i: int,
    moved: Seq<Moved>,
    chunk: int,
)
    requires
        history_rules::ascending(rows),
        history_rules::moves(rows, chunks, encodings, i, moved) is Ok,
        0 <= i <= chunks.len() <= u64::MAX,
        0 <= chunk < chunks.len(),
        forall|j: int|
            0 <= j < moved.len() ==> (#[trigger] moved[j]).chunk < i && in_its_chunk(
                chunks,
                moved[j],
            ),
    ensures
        ({
            let all = history_rules::moves(rows, chunks, encodings, i, moved)->Ok_0;
            &&& forall|j: int| 0 <= j < all.len() ==> in_its_chunk(chunks, #[trigger] all[j])
            &&& moved_extent(all, chunk, 0, None) == if chunk < i {
                moved_extent(moved, chunk, 0, None)
            } else {
                Some(
                    Extent {
                        count: chunks[chunk].document_count as nat,
                        first: chunks[chunk].first_id,
                        last: chunks[chunk].last_id,
                    },
                )
            }
        }),
    decreases chunks.len() - i,
{
    if i < chunks.len() {
        let first = chunks[i].first_id;
        let last = chunks[i].last_id;
        let keep = |d: DocumentView| !texts::less(d.id, first) && !texts::less(last, d.id);
        let covered = history_rules::interval(rows, first, last);
        history_laws::lemma_filter_ascends(rows, keep);
        let here = history_rules::moved_to(covered, i as u64);
        let more = moved + here;
        assert forall|j: int| 0 <= j < more.len() implies (#[trigger] more[j]).chunk < i + 1
            && in_its_chunk(chunks, more[j]) by {
            if j >= moved.len() {
                let d = covered[j - moved.len()];
                assert(more[j] == here[j - moved.len()]);
                assert(covered.contains(d));
                history_laws::lemma_filter_holds(rows, keep, d);
            } else {
                assert(more[j] == moved[j]);
            }
        }
        lemma_moves_extent(rows, chunks, encodings, i + 1, more, chunk);
        lemma_moved_extent_joined(moved, here, chunk, 0, None);
        if chunk >= i {
            assert forall|j: int| 0 <= j < moved.len() implies (#[trigger] moved[j]).chunk
                != chunk by {}
            lemma_moved_elsewhere(moved, chunk, 0, None);
        }
        if chunk == i {
            lemma_covered_extent(covered, i as u64, covered.len() as int);
        } else {
            let before = moved_extent(moved, chunk, 0, None);
            assert forall|j: int| 0 <= j < here.len() implies (#[trigger] here[j]).chunk
                != chunk by {}
            lemma_moved_elsewhere(here, chunk, 0, before);
        }
    }
}

// ---------------------------------------------------------------------
// The catalog
// ---------------------------------------------------------------------

/// An archive that was found is found in a longer catalog too.
proof fn lemma_archive_kept(archives: Seq<RetainedView>, more: RetainedView, id: Name, i: int)
    requires
        0 <= i,
    ensures
        history_rules::archive_at(archives, id, i) matches Some(at) ==> i <= at < archives.len()
            && archives[at].manifest.archive_id == id && history_rules::archive_at(
            archives.push(more),
            id,
            i,
        ) == Some(at),
    decreases archives.len() - i,
{
    if i < archives.len() {
        assert(archives.push(more)[i] == archives[i]);
        if archives[i].manifest.archive_id != id {
            lemma_archive_kept(archives, more, id, i + 1);
        }
    }
}

/// An archive that is not found has no entry.
proof fn lemma_archive_absent(archives: Seq<RetainedView>, id: Name, i: int, j: int)
    requires
        history_rules::archive_at(archives, id, i) is None,
        0 <= i <= j < archives.len(),
    ensures
        archives[j].manifest.archive_id != id,
    decreases j - i,
{
    if i < j {
        lemma_archive_absent(archives, id, i + 1, j);
    }
}

/// Without references to an archive there is no extent of its chunks.
proof fn lemma_no_extent(
    rows: Seq<ArchivedView>,
    archive_id: Name,
    chunk: int,
    n: int,
    e: Option<Extent>,
)
    requires
        0 <= n <= rows.len(),
        forall|i: int| 0 <= i < rows.len() ==> (#[trigger] rows[i]).archive_id != archive_id,
    ensures
        history_rules::extent_of_rows(rows, archive_id, chunk, n, e) == e,
    decreases n,
{
    if n > 0 {
        lemma_no_extent(rows, archive_id, chunk, n - 1, e);
    }
}

/// What a document holds under the definition's paths is of those paths.
proof fn lemma_fields_known(paths: Seq<Name>, fields: Seq<IndexedField>, n: int)
    requires
        0 <= n <= paths.len(),
    ensures
        history_rules::fields_known(paths, history_rules::index_fields(paths, fields, n)),
    decreases n,
{
    if n > 0 {
        lemma_fields_known(paths, fields, n - 1);
        lemma_field_at(fields, paths[n - 1], 0);
        let before = history_rules::index_fields(paths, fields, n - 1);
        let all = history_rules::index_fields(paths, fields, n);
        assert forall|i: int| 0 <= i < all.len() implies paths.contains(
            (#[trigger] all[i]).path,
        ) by {
            if i < before.len() {
                assert(all[i] == before[i]);
            } else {
                assert(all[i].path == paths[n - 1]);
            }
        }
    }
}

proof fn lemma_field_at(fields: Seq<IndexedField>, path: Name, i: int)
    ensures
        history_rules::field_at(fields, path, i) matches Some(field) ==> field.path == path,
    decreases fields.len() - i,
{
    if 0 <= i < fields.len() && fields[i].path != path {
        lemma_field_at(fields, path, i + 1);
    }
}

// ---------------------------------------------------------------------
// The publication
// ---------------------------------------------------------------------

/// What the rows of a valid state are: in order, each within what a reference may
/// tell of it.
pub open spec fn rows_valid(c: CollectionView) -> bool {
    &&& history_rules::ascending(c.documents)
    &&& history_rules::ascending_references(c.archived)
    &&& forall|i: int|
        0 <= i < c.documents.len() ==> 0 < (#[trigger] c.documents[i]).encoded_bytes <= 1052672
            && c.documents[i].version <= c.data_epoch
}

/// The parts of a publication of a new archive.
pub struct Publication {
    pub at: int,
    pub rows: Seq<DocumentView>,
    pub moved: Seq<Moved>,
    pub last: Staged,
    pub next: HistoryView,
}

pub open spec fn start_of(s: HistoryView, at: int) -> Staged {
    Staged {
        documents: s.collections[at].documents,
        archived: s.collections[at].archived,
        archived_bytes: s.collections[at].archived_bytes,
        logical_bytes: s.logical_bytes,
    }
}

pub open spec fn parts(
    s: HistoryView,
    req: PublishArchiveView,
    encodings: Seq<Vec<u8>>,
    sizes: Seq<EntrySize>,
    size: EntrySize,
    revision: u64,
    b: ArchiveBounds,
) -> Publication {
    let at = history_rules::source_collection(s, req)->Ok_0;
    let rows = history_rules::eligible(s.collections[at].documents, req.manifest.cutoff_revision);
    let moved = history_rules::all_moves(rows, req.manifest, encodings)->Ok_0;
    let last = history_rules::stage(
        s.collections[at].paths,
        req.manifest.archive_id,
        moved,
        sizes,
        0,
        start_of(s, at),
    )->Ok_0;
    let next = history_rules::publish_new(s, req, encodings, sizes, size, revision, b)->Ok_0;
    Publication { at, rows, moved, last, next: HistoryView { revision, ..next } }
}

/// What a law on a publication starts from.
pub open spec fn publishes(
    s: HistoryView,
    req: PublishArchiveView,
    encodings: Seq<Vec<u8>>,
    sizes: Seq<EntrySize>,
    size: EntrySize,
    revision: u64,
    b: ArchiveBounds,
) -> bool {
    &&& history_rules::restored(s, b) is Ok
    &&& history_rules::manifest_valid(req.manifest, b, req.forms) is Ok
    &&& req.forms.object is None
    &&& history_rules::archive_at(s.archives, req.manifest.archive_id, 0) is None
    &&& history_rules::publish_new(s, req, encodings, sizes, size, revision, b) is Ok
    &&& s.revision <= revision
    &&& forall|i: int| 0 <= i < s.collections.len() ==> rows_valid(#[trigger] s.collections[i])
}

/// No reference of a valid state is to an archive that is not in its catalog.
proof fn lemma_no_references(s: HistoryView, b: ArchiveBounds, id: Name, k: int, j: int)
    requires
        history_rules::restored(s, b) is Ok,
        history_rules::archive_at(s.archives, id, 0) is None,
        0 <= k < s.collections.len(),
        0 <= j < s.collections[k].archived.len(),
    ensures
        s.collections[k].archived[j].archive_id != id,
{
    lemma_collections(s, 0);
    let c = s.collections[k];
    assert(history_rules::collection_checked(s, c) is Ok);
    lemma_references(s, c, 0, 0);
    assert(history_rules::reference_checked(s, c, c.archived[j]) is Ok);
}

/// The extents of the archives that stood, and those of the new archive.
proof fn lemma_extents(
    s: HistoryView,
    req: PublishArchiveView,
    encodings: Seq<Vec<u8>>,
    sizes: Seq<EntrySize>,
    size: EntrySize,
    revision: u64,
    b: ArchiveBounds,
    id: Name,
    chunk: int,
    n: int,
)
    requires
        publishes(s, req, encodings, sizes, size, revision, b),
        0 <= n <= s.collections.len(),
        id == req.manifest.archive_id ==> 0 <= chunk < req.manifest.chunks.len(),
    ensures
        ({
            let p = parts(s, req, encodings, sizes, size, revision, b);
            history_rules::extent_of(p.next.collections, id, chunk, n) == if id
                != req.manifest.archive_id {
                history_rules::extent_of(s.collections, id, chunk, n)
            } else if n <= p.at {
                None
            } else {
                Some(
                    Extent {
                        count: req.manifest.chunks[chunk].document_count as nat,
                        first: req.manifest.chunks[chunk].first_id,
                        last: req.manifest.chunks[chunk].last_id,
                    },
                )
            }
        }),
    decreases n,
{
    let m = req.manifest;
    let p = parts(s, req, encodings, sizes, size, revision, b);
    let c = s.collections[p.at];
    history_laws::lemma_collection_at(s.collections, m.collection, 0);
    assert(p.next.collections == s.collections.update(
        p.at,
        history_rules::staged_collection(c, p.last),
    ));
    if n > 0 {
        lemma_extents(s, req, encodings, sizes, size, revision, b, id, chunk, n - 1);
        if n - 1 == p.at {
            let e = history_rules::extent_of(p.next.collections, id, chunk, n - 1);
            lemma_staged_extent(
                c.paths,
                m.archive_id,
                p.moved,
                sizes,
                0,
                start_of(s, p.at),
                id,
                chunk,
                e,
            );
            if id == m.archive_id {
                assert forall|j: int| 0 <= j < c.archived.len() implies (
                #[trigger] c.archived[j]).archive_id != id by {
                    lemma_no_references(s, b, id, p.at, j);
                }
                lemma_no_extent(c.archived, id, chunk, c.archived.len() as int, e);
                let early = |d: DocumentView| d.version <= m.cutoff_revision;
                assert(rows_valid(c));
                history_laws::lemma_filter_ascends(c.documents, early);
                lemma_moves_extent(p.rows, m.chunks, encodings, 0, Seq::empty(), chunk);
            }
        } else {
            let other = s.collections[n - 1];
            assert(p.next.collections[n - 1] == other);
            if id == m.archive_id {
                assert forall|j: int| 0 <= j < other.archived.len() implies (
                #[trigger] other.archived[j]).archive_id != id by {
                    lemma_no_references(s, b, id, n - 1, j);
                }
                lemma_no_extent(
                    other.archived,
                    id,
                    chunk,
                    other.archived.len() as int,
                    history_rules::extent_of(p.next.collections, id, chunk, n - 1),
                );
            }
        }
    }
}

/// A reference that held still holds.
proof fn lemma_reference_kept(
    s: HistoryView,
    req: PublishArchiveView,
    encodings: Seq<Vec<u8>>,
    sizes: Seq<EntrySize>,
    size: EntrySize,
    revision: u64,
    b: ArchiveBounds,
    k: int,
    row: ArchivedView,
)
    requires
        publishes(s, req, encodings, sizes, size, revision, b),
        0 <= k < s.collections.len(),
        s.collections[k].archived.contains(row),
    ensures
        ({
            let p = parts(s, req, encodings, sizes, size, revision, b);
            history_rules::reference_checked(p.next, p.next.collections[k], row) is Ok
        }),
{
    let p = parts(s, req, encodings, sizes, size, revision, b);
    let c = s.collections[k];
    let j = choose|j: int| 0 <= j < c.archived.len() && c.archived[j] == row;
    lemma_collections(s, 0);
    assert(history_rules::collection_checked(s, c) is Ok);
    lemma_references(s, c, 0, 0);
    assert(history_rules::reference_checked(s, c, c.archived[j]) is Ok);
    lemma_archive_kept(
        s.archives,
        history_rules::retained_as(req, revision, size),
        row.archive_id,
        0,
    );
    history_laws::lemma_collection_at(s.collections, req.manifest.collection, 0);
    let grown = p.next.collections[k];
    assert(!history_rules::has_document(grown.documents, row.id)) by {
        if k == p.at && history_rules::has_document(grown.documents, row.id) {
            assert(rows_valid(c));
            assert forall|i: int| 0 <= i < s.collections.len() implies history_rules::ascending(
                (#[trigger] s.collections[i]).documents,
            ) && history_rules::ascending_references(s.collections[i].archived) by {
                assert(rows_valid(s.collections[i]));
            }
            history_laws::lemma_archival_moves_only(
                s,
                req,
                encodings,
                sizes,
                size,
                revision,
                b,
            );
            let i = choose|i: int|
                0 <= i < grown.documents.len() && (#[trigger] grown.documents[i]).id == row.id;
            assert(grown.documents.contains(grown.documents[i]));
            assert(c.documents.contains(grown.documents[i]));
            let h = choose|h: int| 0 <= h < c.documents.len() && c.documents[h]
                == grown.documents[i];
            assert(c.documents[h].id == row.id);
        }
    }
}

/// The reference of a moved row holds.
proof fn lemma_reference_new(
    s: HistoryView,
    req: PublishArchiveView,
    encodings: Seq<Vec<u8>>,
    sizes: Seq<EntrySize>,
    size: EntrySize,
    revision: u64,
    b: ArchiveBounds,
    j: int,
)
    requires
        publishes(s, req, encodings, sizes, size, revision, b),
        0 <= j < parts(s, req, encodings, sizes, size, revision, b).moved.len(),
    ensures
        ({
            let p = parts(s, req, encodings, sizes, size, revision, b);
            history_rules::reference_checked(
                p.next,
                p.next.collections[p.at],
                history_rules::reference_of(
                    s.collections[p.at].paths,
                    req.manifest.archive_id,
                    p.moved[j],
                    sizes[j],
                ),
            ) is Ok
        }),
{
    let m = req.manifest;
    let p = parts(s, req, encodings, sizes, size, revision, b);
    history_laws::lemma_collection_at(s.collections, m.collection, 0);
    let c = s.collections[p.at];
    assert(rows_valid(c));
    let early = |d: DocumentView| d.version <= m.cutoff_revision;
    history_laws::lemma_filter_ascends(c.documents, early);
    lemma_moves_extent(p.rows, m.chunks, encodings, 0, Seq::empty(), 0);
    assert(in_its_chunk(m.chunks, p.moved[j]));
    history_laws::lemma_moves(p.rows, m.chunks, encodings, 0, Seq::empty());
    let d = p.moved[j].document;
    assert(p.rows.contains(d));
    history_laws::lemma_filter_holds(c.documents, early, d);
    let h = choose|h: int| 0 <= h < c.documents.len() && c.documents[h] == d;
    assert(0 < c.documents[h].encoded_bytes <= 1052672);
    lemma_fields_known(c.paths, d.fields, c.paths.len() as int);
    history_laws::lemma_archive_at_pushed(
        s.archives,
        history_rules::retained_as(req, revision, size),
        0,
    );
    let grown = p.next.collections[p.at];
    assert(!history_rules::has_document(grown.documents, d.id)) by {
        if history_rules::has_document(grown.documents, d.id) {
            assert forall|i: int| 0 <= i < s.collections.len() implies history_rules::ascending(
                (#[trigger] s.collections[i]).documents,
            ) && history_rules::ascending_references(s.collections[i].archived) by {
                assert(rows_valid(s.collections[i]));
            }
            history_laws::lemma_archival_moves_only(
                s,
                req,
                encodings,
                sizes,
                size,
                revision,
                b,
            );
            let i = choose|i: int|
                0 <= i < grown.documents.len() && (#[trigger] grown.documents[i]).id == d.id;
            let other = grown.documents[i];
            assert(grown.documents.contains(other));
            assert(c.documents.contains(other) && other.version > m.cutoff_revision);
            history_laws::lemma_one_identity(c.documents, d, other);
        }
    }
}

/// Every collection holds behind the publication.
proof fn lemma_collections_kept(
    s: HistoryView,
    req: PublishArchiveView,
    encodings: Seq<Vec<u8>>,
    sizes: Seq<EntrySize>,
    size: EntrySize,
    revision: u64,
    b: ArchiveBounds,
)
    requires
        publishes(s, req, encodings, sizes, size, revision, b),
    ensures
        ({
            let p = parts(s, req, encodings, sizes, size, revision, b);
            history_rules::collections_checked(p.next, 0) is Ok
        }),
{
    let m = req.manifest;
    let p = parts(s, req, encodings, sizes, size, revision, b);
    history_laws::lemma_collection_at(s.collections, m.collection, 0);
    lemma_collections(s, 0);
    lemma_collections(p.next, 0);
    assert forall|k: int| 0 <= k < p.next.collections.len() implies
        history_rules::collection_checked(p.next, #[trigger] p.next.collections[k]) is Ok by {
        let c = s.collections[k];
        let grown = p.next.collections[k];
        assert(history_rules::collection_checked(s, c) is Ok);
        lemma_references(s, c, 0, 0);
        lemma_references(p.next, grown, 0, 0);
        if k == p.at {
            lemma_staged(c.paths, m.archive_id, p.moved, sizes, 0, start_of(s, k));
        }
        assert forall|j: int| 0 <= j < grown.archived.len() implies
            history_rules::reference_checked(p.next, grown, #[trigger] grown.archived[j]) is Ok by {
            let row = grown.archived[j];
            assert(grown.archived.contains(row));
            if k != p.at || c.archived.contains(row) {
                lemma_reference_kept(s, req, encodings, sizes, size, revision, b, k, row);
            } else {
                let i = choose|i: int|
                    0 <= i < p.moved.len() && row == history_rules::reference_of(
                        c.paths,
                        m.archive_id,
                        #[trigger] p.moved[i],
                        sizes[i],
                    );
                lemma_reference_new(s, req, encodings, sizes, size, revision, b, i);
            }
        }
    }
}

/// Every archive holds behind the publication.
proof fn lemma_archives_kept(
    s: HistoryView,
    req: PublishArchiveView,
    encodings: Seq<Vec<u8>>,
    sizes: Seq<EntrySize>,
    size: EntrySize,
    revision: u64,
    b: ArchiveBounds,
)
    requires
        publishes(s, req, encodings, sizes, size, revision, b),
    ensures
        ({
            let p = parts(s, req, encodings, sizes, size, revision, b);
            history_rules::archives_checked(p.next, b, 0, 0) == Ok::<u64, Error>(
                p.next.archive_bytes,
            )
        }),
{
    let p = parts(s, req, encodings, sizes, size, revision, b);
    let new = history_rules::retained_as(req, revision, size);
    history_rules::lemma_manifest_holds(req.manifest, b, req.forms);
    history_laws::lemma_collection_at(s.collections, req.manifest.collection, 0);
    lemma_archives(s, b, 0, 0);
    lemma_archives(p.next, b, 0, 0);
    let n = s.archives.len() as int;
    assert(p.next.archives == s.archives.push(new));
    lemma_archives_pushed(s.archives, new, n);
    assert(p.next.archives[n] == new);
    assert forall|i: int| 0 <= i < p.next.archives.len() implies history_rules::archive_checked(
        p.next,
        #[trigger] p.next.archives[i],
        b,
    ) is Ok by {
        let archive = p.next.archives[i];
        let m = archive.manifest;
        lemma_chunks(p.next, m, 0);
        if i < n {
            assert(archive == s.archives[i]);
            assert(history_rules::archive_checked(s, s.archives[i], b) is Ok);
            lemma_chunks(s, m, 0);
            lemma_archive_absent(s.archives, req.manifest.archive_id, 0, i);
        }
        assert forall|j: int| 0 <= j < m.chunks.len() implies
            #[trigger] history_rules::chunk_referenced(p.next, m, j) is Ok by {
            lemma_extents(
                s,
                req,
                encodings,
                sizes,
                size,
                revision,
                b,
                m.archive_id,
                j,
                s.collections.len() as int,
            );
            if i < n {
                assert(history_rules::chunk_referenced(s, m, j) is Ok);
            }
        }
    }
}

proof fn lemma_archives_pushed(archives: Seq<RetainedView>, more: RetainedView, n: int)
    requires
        0 <= n <= archives.len(),
    ensures
        archives_total(archives.push(more), n) == archives_total(archives, n),
    decreases n,
{
    if n > 0 {
        lemma_archives_pushed(archives, more, n - 1);
        assert(archives.push(more)[n - 1] == archives[n - 1]);
    }
}

/// A history that a restored state is held to, and takes a publication, is held to it
/// again: what is published, a restored history is accepted with.
pub proof fn lemma_stays_restorable(
    s: HistoryView,
    req: PublishArchiveView,
    encodings: Seq<Vec<u8>>,
    sizes: Seq<EntrySize>,
    size: EntrySize,
    revision: u64,
    b: ArchiveBounds,
)
    requires
        history_rules::restored(s, b) is Ok,
        history_rules::published(s, None, req, encodings, sizes, size, revision, b) is Ok,
        s.revision <= revision,
        forall|i: int| 0 <= i < s.collections.len() ==> rows_valid(#[trigger] s.collections[i]),
    ensures
        history_rules::restored(
            HistoryView {
                revision,
                ..history_rules::published(
                    s,
                    None,
                    req,
                    encodings,
                    sizes,
                    size,
                    revision,
                    b,
                )->Ok_0.0
            },
            b,
        ) is Ok,
{
    if history_rules::archive_at(s.archives, req.manifest.archive_id, 0) is None {
        assert(publishes(s, req, encodings, sizes, size, revision, b));
        lemma_collections_kept(s, req, encodings, sizes, size, revision, b);
        lemma_archives_kept(s, req, encodings, sizes, size, revision, b);
    } else {
        let next = HistoryView { revision, ..s };
        lemma_collections(s, 0);
        lemma_collections(next, 0);
        assert forall|k: int| 0 <= k < next.collections.len() implies
            history_rules::collection_checked(next, #[trigger] next.collections[k]) is Ok by {
            let c = s.collections[k];
            assert(history_rules::collection_checked(s, c) is Ok);
            lemma_references(s, c, 0, 0);
            lemma_references(next, c, 0, 0);
            assert forall|j: int| 0 <= j < c.archived.len() implies
                history_rules::reference_checked(next, c, #[trigger] c.archived[j]) is Ok by {
                assert(history_rules::reference_checked(s, c, c.archived[j]) is Ok);
            }
        }
        lemma_archives(s, b, 0, 0);
        lemma_archives(next, b, 0, 0);
        assert forall|i: int| 0 <= i < next.archives.len() implies history_rules::archive_checked(
            next,
            #[trigger] next.archives[i],
            b,
        ) is Ok by {
            let m = s.archives[i].manifest;
            assert(history_rules::archive_checked(s, s.archives[i], b) is Ok);
            lemma_chunks(s, m, 0);
            lemma_chunks(next, m, 0);
            assert forall|j: int| 0 <= j < m.chunks.len() implies
                #[trigger] history_rules::chunk_referenced(next, m, j) is Ok by {
                assert(history_rules::chunk_referenced(s, m, j) is Ok);
            }
        }
    }
}

} // verus!
