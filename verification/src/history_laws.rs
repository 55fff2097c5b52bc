//! What holds of archived history: archival moves documents, and neither makes
//! nor loses an identity.
use vstd::prelude::*;

use crate::errors::Error;
use crate::history_model;
use crate::history_model::{
    ArchiveBounds, ArchivedView, CollectionView, Document, DocumentView, EntrySize, HistoryView,
    PublishArchiveView,
};
use crate::history_reads;
use crate::history_reads::HistoryReadCache;
use crate::history_rules;
use crate::history_rules::{Moved, Staged};
use crate::digest::Name;
use crate::texts;

verus! {

/// Whether the identity is known, hot or archived.
pub open spec fn known(
    documents: Seq<DocumentView>,
    archived: Seq<ArchivedView>,
    id: Seq<u8>,
) -> bool {
    history_rules::has_document(documents, id) || history_rules::has_reference(archived, id)
}

/// Whether the reference stands for the document: its identity, its version, its
/// exact bytes and what it holds under the indexed paths.
pub open spec fn stands_for(paths: Seq<Name>, row: ArchivedView, document: DocumentView) -> bool {
    row.id == document.id && history_reads::document_holds(paths, row, document)
}

/// What an insertion holds.
proof fn lemma_inserted_holds(rows: Seq<ArchivedView>, row: ArchivedView, other: ArchivedView)
    ensures
        history_rules::inserted(rows, row).contains(other) <==> rows.contains(other) || other
            == row,
    decreases rows.len(),
{
    let out = history_rules::inserted(rows, row);
    if rows.len() == 0 {
        assert(out[0] == row);
    } else if texts::less(row.id, rows[0].id) {
        assert(out[0] == row);
        if rows.contains(other) {
            let i = choose|i: int| 0 <= i < rows.len() && rows[i] == other;
            assert(out[i + 1] == other);
        }
    } else {
        let rest = rows.drop_first();
        let inner = history_rules::inserted(rest, row);
        lemma_inserted_holds(rest, row, other);
        if rows.contains(other) {
            let i = choose|i: int| 0 <= i < rows.len() && rows[i] == other;
            if i > 0 {
                assert(rest[i - 1] == other);
            } else {
                assert(out[0] == other);
            }
        }
        if rest.contains(other) {
            let i = choose|i: int| 0 <= i < rest.len() && rest[i] == other;
            assert(rows[i + 1] == other);
        }
        if inner.contains(other) {
            let i = choose|i: int| 0 <= i < inner.len() && inner[i] == other;
            assert(out[i + 1] == other);
        }
        if out.contains(other) {
            let i = choose|i: int| 0 <= i < out.len() && out[i] == other;
            if i > 0 {
                assert(inner[i - 1] == other);
            } else {
                assert(rows[0] == other);
            }
        }
    }
}

/// An insertion of a new identity keeps the order.
proof fn lemma_inserted_ascends(rows: Seq<ArchivedView>, row: ArchivedView)
    requires
        history_rules::ascending_references(rows),
        !history_rules::has_reference(rows, row.id),
    ensures
        history_rules::ascending_references(history_rules::inserted(rows, row)),
    decreases rows.len(),
{
    let out = history_rules::inserted(rows, row);
    if rows.len() > 0 {
        if texts::less(row.id, rows[0].id) {
            assert forall|i: int, j: int| 0 <= i < j < out.len() implies texts::less(
                (#[trigger] out[i]).id,
                (#[trigger] out[j]).id,
            ) by {
                if i == 0 && j > 1 {
                    assert(texts::less(rows[0].id, rows[j - 1].id));
                    texts::lemma_transitive(row.id, rows[0].id, rows[j - 1].id);
                }
            }
        } else {
            let rest = rows.drop_first();
            let inner = history_rules::inserted(rest, row);
            assert forall|i: int, j: int| 0 <= i < j < rest.len() implies texts::less(
                (#[trigger] rest[i]).id,
                (#[trigger] rest[j]).id,
            ) by {
                assert(rest[i] == rows[i + 1] && rest[j] == rows[j + 1]);
            }
            assert(!history_rules::has_reference(rest, row.id)) by {
                if history_rules::has_reference(rest, row.id) {
                    let i = choose|i: int| 0 <= i < rest.len() && (#[trigger] rest[i]).id == row.id;
                    assert(rows[i + 1].id == row.id);
                }
            }
            lemma_inserted_ascends(rest, row);
            texts::lemma_total(row.id, rows[0].id);
            assert(rows[0].id != row.id);
            assert forall|i: int, j: int| 0 <= i < j < out.len() implies texts::less(
                (#[trigger] out[i]).id,
                (#[trigger] out[j]).id,
            ) by {
                assert(out[j] == inner[j - 1]);
                if i == 0 {
                    lemma_inserted_holds(rest, row, inner[j - 1]);
                    assert(inner.contains(inner[j - 1]));
                    if inner[j - 1] != row {
                        let k = choose|k: int| 0 <= k < rest.len() && rest[k] == inner[j - 1];
                        assert(rows[k + 1] == inner[j - 1]);
                    }
                } else {
                    assert(out[i] == inner[i - 1]);
                }
            }
        }
    }
}

/// What a filter holds.
pub proof fn lemma_filter_holds<A>(items: Seq<A>, keep: spec_fn(A) -> bool, item: A)
    ensures
        items.filter(keep).contains(item) <==> items.contains(item) && keep(item),
    decreases items.len(),
{
    reveal(Seq::filter);
    if items.len() > 0 {
        let rest = items.drop_last();
        let out = items.filter(keep);
        lemma_filter_holds(rest, keep, item);
        assert(items.contains(item) <==> rest.contains(item) || items.last() == item) by {
            if items.contains(item) {
                let i = choose|i: int| 0 <= i < items.len() && items[i] == item;
                if i < items.len() - 1 {
                    assert(rest[i] == item);
                }
            }
            if rest.contains(item) {
                let i = choose|i: int| 0 <= i < rest.len() && rest[i] == item;
                assert(items[i] == item);
            }
            assert(items[items.len() - 1] == items.last());
        }
        if keep(items.last()) {
            let kept = rest.filter(keep);
            assert(out == kept.push(items.last()));
            assert(out[kept.len() as int] == items.last());
            if kept.contains(item) {
                let i = choose|i: int| 0 <= i < kept.len() && kept[i] == item;
                assert(out[i] == item);
            }
            if out.contains(item) {
                let i = choose|i: int| 0 <= i < out.len() && out[i] == item;
                if i < kept.len() {
                    assert(kept[i] == item);
                }
            }
        }
    }
}

/// A filter keeps the order.
pub proof fn lemma_filter_ascends(documents: Seq<DocumentView>, keep: spec_fn(DocumentView) -> bool)
    requires
        history_rules::ascending(documents),
    ensures
        history_rules::ascending(documents.filter(keep)),
    decreases documents.len(),
{
    reveal(Seq::filter);
    if documents.len() > 0 {
        let rest = documents.drop_last();
        let kept = rest.filter(keep);
        assert forall|i: int, j: int| 0 <= i < j < rest.len() implies texts::less(
            (#[trigger] rest[i]).id,
            (#[trigger] rest[j]).id,
        ) by {
            assert(rest[i] == documents[i] && rest[j] == documents[j]);
        }
        lemma_filter_ascends(rest, keep);
        if keep(documents.last()) {
            let out = documents.filter(keep);
            assert forall|i: int, j: int| 0 <= i < j < out.len() implies texts::less(
                (#[trigger] out[i]).id,
                (#[trigger] out[j]).id,
            ) by {
                assert(out[i] == kept[i]);
                if j == kept.len() {
                    lemma_filter_holds(rest, keep, kept[i]);
                    assert(kept.contains(kept[i]));
                    let k = choose|k: int| 0 <= k < rest.len() && rest[k] == kept[i];
                    assert(documents[k] == kept[i]);
                    assert(documents[documents.len() - 1] == documents.last());
                } else {
                    assert(out[j] == kept[j]);
                }
            }
        }
    }
}

/// Whether one of the first `n` moved documents has the identity.
pub open spec fn moved_before(moved: Seq<Moved>, n: int, id: Seq<u8>) -> bool {
    exists|j: int| 0 <= j < n && (#[trigger] moved[j]).document.id == id
}

pub open spec fn referenced(
    paths: Seq<Name>,
    archived: Seq<ArchivedView>,
    document: DocumentView,
) -> bool {
    exists|i: int|
        0 <= i < archived.len() && stands_for(paths, #[trigger] archived[i], document)
}

/// What a collection has come to once the first `n` documents have moved.
pub open spec fn moved_so_far(
    paths: Seq<Name>,
    documents: Seq<DocumentView>,
    archived: Seq<ArchivedView>,
    moved: Seq<Moved>,
    n: int,
    staged: Staged,
) -> bool {
    &&& history_rules::ascending(staged.documents)
    &&& history_rules::ascending_references(staged.archived)
    &&& forall|d: DocumentView| #[trigger]
        staged.documents.contains(d) <==> documents.contains(d) && !moved_before(moved, n, d.id)
    &&& forall|r: ArchivedView| #[trigger]
        archived.contains(r) ==> staged.archived.contains(r)
    &&& forall|r: ArchivedView| #[trigger]
        staged.archived.contains(r) ==> archived.contains(r) || moved_before(moved, n, r.id)
    &&& forall|j: int|
        0 <= j < n ==> referenced(paths, staged.archived, (#[trigger] moved[j]).document)
    &&& forall|j: int, k: int|
        0 <= j < k < n ==> (#[trigger] moved[j]).document.id != (#[trigger] moved[k]).document.id
}

proof fn lemma_stage_row(
    documents: Seq<DocumentView>,
    archived: Seq<ArchivedView>,
    moved: Seq<Moved>,
    n: int,
    paths: Seq<Name>,
    archive_id: Name,
    size: EntrySize,
    staged: Staged,
)
    requires
        0 <= n < moved.len(),
        moved_so_far(paths, documents, archived, moved, n, staged),
        history_rules::stage_row(paths, archive_id, moved[n], size, staged) is Ok,
    ensures
        moved_so_far(
            paths,
            documents,
            archived,
            moved,
            n + 1,
            history_rules::stage_row(paths, archive_id, moved[n], size, staged)->Ok_0,
        ),
{
    let next = history_rules::stage_row(paths, archive_id, moved[n], size, staged)->Ok_0;
    let id = moved[n].document.id;
    let row = history_rules::reference_of(paths, archive_id, moved[n], size);
    let keep = |d: DocumentView| d.id != id;
    lemma_filter_ascends(staged.documents, keep);
    lemma_inserted_ascends(staged.archived, row);
    assert forall|x: Seq<u8>|
        moved_before(moved, n + 1, x) <==> #[trigger] moved_before(moved, n, x) || x == id by {
        if moved_before(moved, n + 1, x) {
            let j = choose|j: int| 0 <= j < n + 1 && (#[trigger] moved[j]).document.id == x;
            if j < n {
                assert(moved_before(moved, n, x));
            }
        }
        if moved_before(moved, n, x) {
            let j = choose|j: int| 0 <= j < n && (#[trigger] moved[j]).document.id == x;
            assert(moved_before(moved, n + 1, x));
        }
        if x == id {
            assert(moved[n].document.id == x);
        }
    }
    assert forall|d: DocumentView| #[trigger] next.documents.contains(d) <==> documents.contains(d)
        && !moved_before(moved, n + 1, d.id) by {
        lemma_filter_holds(staged.documents, keep, d);
        assert(moved_before(moved, n + 1, d.id) <==> moved_before(moved, n, d.id) || d.id == id);
    }
    assert forall|r: ArchivedView| #[trigger] archived.contains(r) implies next.archived.contains(
        r,
    ) by {
        lemma_inserted_holds(staged.archived, row, r);
    }
    assert forall|r: ArchivedView| #[trigger] next.archived.contains(r) implies archived.contains(
        r,
    ) || moved_before(moved, n + 1, r.id) by {
        lemma_inserted_holds(staged.archived, row, r);
        assert(moved_before(moved, n + 1, r.id) <==> moved_before(moved, n, r.id) || r.id == id);
    }
    assert forall|j: int| 0 <= j < n + 1 implies referenced(
        paths,
        next.archived,
        (#[trigger] moved[j]).document,
    ) by {
        let r = if j < n {
            assert(referenced(paths, staged.archived, moved[j].document));
            let i = choose|i: int|
                0 <= i < staged.archived.len() && stands_for(
                    paths,
                    #[trigger] staged.archived[i],
                    moved[j].document,
                );
            assert(staged.archived.contains(staged.archived[i]));
            staged.archived[i]
        } else {
            row
        };
        lemma_inserted_holds(staged.archived, row, r);
        let at = choose|at: int| 0 <= at < next.archived.len() && next.archived[at] == r;
        assert(stands_for(paths, next.archived[at], moved[j].document));
    }
    assert forall|j: int, k: int| 0 <= j < k < n + 1 implies (#[trigger] moved[j]).document.id != (
    #[trigger] moved[k]).document.id by {
        if k == n && moved[j].document.id == id {
            assert(referenced(paths, staged.archived, moved[j].document));
            let i = choose|i: int|
                0 <= i < staged.archived.len() && stands_for(
                    paths,
                    #[trigger] staged.archived[i],
                    moved[j].document,
                );
            assert(history_rules::has_reference(staged.archived, id));
        }
    }
}

proof fn lemma_stage(
    documents: Seq<DocumentView>,
    archived: Seq<ArchivedView>,
    moved: Seq<Moved>,
    sizes: Seq<EntrySize>,
    n: int,
    paths: Seq<Name>,
    archive_id: Name,
    staged: Staged,
)
    requires
        0 <= n <= moved.len(),
        moved_so_far(paths, documents, archived, moved, n, staged),
        history_rules::stage(paths, archive_id, moved, sizes, n, staged) is Ok,
    ensures
        moved_so_far(
            paths,
            documents,
            archived,
            moved,
            moved.len() as int,
            history_rules::stage(paths, archive_id, moved, sizes, n, staged)->Ok_0,
        ),
    decreases moved.len() - n,
{
    if n < moved.len() {
        lemma_stage_row(documents, archived, moved, n, paths, archive_id, sizes[n], staged);
        let next = history_rules::stage_row(paths, archive_id, moved[n], sizes[n], staged)->Ok_0;
        lemma_stage(documents, archived, moved, sizes, n + 1, paths, archive_id, next);
    }
}

/// Only the rows move.
pub proof fn lemma_moves(
    rows: Seq<DocumentView>,
    chunks: Seq<crate::history_model::DescriptorView>,
    encodings: Seq<Vec<u8>>,
    i: int,
    moved: Seq<Moved>,
)
    requires
        history_rules::moves(rows, chunks, encodings, i, moved) is Ok,
        forall|j: int| 0 <= j < moved.len() ==> rows.contains((#[trigger] moved[j]).document),
    ensures
        ({
            let all = history_rules::moves(rows, chunks, encodings, i, moved)->Ok_0;
            forall|j: int| 0 <= j < all.len() ==> rows.contains((#[trigger] all[j]).document)
        }),
    decreases chunks.len() - i,
{
    if 0 <= i < chunks.len() {
        let first = chunks[i].first_id;
        let last = chunks[i].last_id;
        let covered = history_rules::interval(rows, first, last);
        let keep = |d: DocumentView| !texts::less(d.id, first) && !texts::less(last, d.id);
        let more = moved + history_rules::moved_to(covered, i as u64);
        assert forall|j: int| 0 <= j < more.len() implies rows.contains(
            (#[trigger] more[j]).document,
        ) by {
            if j >= moved.len() {
                let d = covered[j - moved.len()];
                assert(covered.contains(d));
                lemma_filter_holds(rows, keep, d);
                assert(more[j].document == d);
            } else {
                assert(more[j] == moved[j]);
            }
        }
        lemma_moves(rows, chunks, encodings, i + 1, more);
    }
}

pub open spec fn moved_ids(moved: Seq<Moved>) -> Seq<Seq<u8>> {
    Seq::new(moved.len(), |j: int| moved[j].document.id)
}

pub open spec fn document_ids(rows: Seq<DocumentView>) -> Seq<Seq<u8>> {
    Seq::new(rows.len(), |j: int| rows[j].id)
}

/// As many different moved rows as there are rows are all of them.
proof fn lemma_all_moved(rows: Seq<DocumentView>, moved: Seq<Moved>, id: Seq<u8>)
    requires
        history_rules::ascending(rows),
        moved.len() == rows.len(),
        forall|j: int| 0 <= j < moved.len() ==> rows.contains((#[trigger] moved[j]).document),
        forall|j: int, k: int|
            0 <= j < k < moved.len() ==> (#[trigger] moved[j]).document.id != (
            #[trigger] moved[k]).document.id,
        history_rules::has_document(rows, id),
    ensures
        moved_before(moved, moved.len() as int, id),
{
    let from = moved_ids(moved);
    let to = document_ids(rows);
    assert forall|i: int, j: int| 0 <= i < to.len() && 0 <= j < to.len() && i != j implies to[i]
        != to[j] by {
        let (a, b) = if i < j {
            (i, j)
        } else {
            (j, i)
        };
        assert(texts::less(rows[a].id, rows[b].id));
        texts::lemma_irreflexive(rows[a].id);
    }
    assert forall|i: int, j: int| 0 <= i < from.len() && 0 <= j < from.len() && i != j implies
        from[i] != from[j] by {
        let (a, b) = if i < j {
            (i, j)
        } else {
            (j, i)
        };
        assert(moved[a].document.id != moved[b].document.id);
    }
    from.unique_seq_to_set();
    to.unique_seq_to_set();
    vstd::seq_lib::seq_to_set_is_finite(from);
    vstd::seq_lib::seq_to_set_is_finite(to);
    assert forall|x: Seq<u8>| from.to_set().contains(x) implies to.to_set().contains(x) by {
        let j = choose|j: int| 0 <= j < from.len() && from[j] == x;
        assert(rows.contains(moved[j].document));
        let k = choose|k: int| 0 <= k < rows.len() && rows[k] == moved[j].document;
        assert(to[k] == x);
    }
    vstd::set_lib::lemma_subset_equality(from.to_set(), to.to_set());
    let k = choose|k: int| 0 <= k < rows.len() && (#[trigger] rows[k]).id == id;
    assert(to[k] == id);
    assert(to.to_set().contains(id));
    assert(from.to_set().contains(id));
    let j = choose|j: int| 0 <= j < from.len() && from[j] == id;
    assert(moved[j].document.id == id);
}

/// What a publication does to the collection it archives from: a document in
/// front of the cutoff leaves the hot documents, and a reference stands for it;
/// a document behind the cutoff stays; no reference is lost; both sides stay in
/// order; and the identities that the collection knows are the same as before.
pub open spec fn placed_only(c: CollectionView, next: CollectionView, cutoff: u64) -> bool {
    &&& next == (CollectionView {
        documents: next.documents,
        archived: next.archived,
        archived_bytes: next.archived_bytes,
        ..c
    })
    &&& history_rules::ascending(next.documents)
    &&& history_rules::ascending_references(next.archived)
    &&& forall|d: DocumentView| #[trigger]
        next.documents.contains(d) <==> c.documents.contains(d) && d.version > cutoff
    &&& forall|d: DocumentView| #[trigger]
        c.documents.contains(d) && d.version <= cutoff ==> referenced(c.paths, next.archived, d)
    &&& forall|r: ArchivedView| #[trigger]
        c.archived.contains(r) ==> next.archived.contains(r)
    &&& forall|id: Seq<u8>| #[trigger]
        known(next.documents, next.archived, id) <==> known(c.documents, c.archived, id)
}

/// Where the collection of a name stands.
pub proof fn lemma_collection_at(collections: Seq<CollectionView>, name: Name, i: int)
    requires
        0 <= i,
    ensures
        history_rules::collection_at(collections, name, i) matches Some(at) ==> i <= at
            < collections.len() && collections[at].name == name,
    decreases collections.len() - i,
{
    if i < collections.len() && collections[i].name != name {
        lemma_collection_at(collections, name, i + 1);
    }
}

/// Archival changes where history is stored, never which identities there are:
/// a new archive moves the rows in front of its cutoff into references that
/// stand for them, and leaves every other row and every other collection alone.
pub proof fn lemma_archival_moves_only(
    s: HistoryView,
    req: PublishArchiveView,
    encodings: Seq<Vec<u8>>,
    sizes: Seq<EntrySize>,
    size: EntrySize,
    revision: u64,
    b: ArchiveBounds,
)
    requires
        history_rules::publish_new(s, req, encodings, sizes, size, revision, b) is Ok,
        forall|i: int|
            0 <= i < s.collections.len() ==> history_rules::ascending(
                (#[trigger] s.collections[i]).documents,
            ) && history_rules::ascending_references(s.collections[i].archived),
    ensures
        ({
            let next = history_rules::publish_new(
                s,
                req,
                encodings,
                sizes,
                size,
                revision,
                b,
            )->Ok_0;
            let at = history_rules::source_collection(s, req)->Ok_0;
            &&& 0 <= at < s.collections.len()
            &&& s.collections[at].name == req.manifest.collection
            &&& next.collections.len() == s.collections.len()
            &&& forall|i: int|
                0 <= i < s.collections.len() && i != at ==> #[trigger] next.collections[i]
                    == s.collections[i]
            &&& placed_only(
                s.collections[at],
                next.collections[at],
                req.manifest.cutoff_revision,
            )
        }),
{
    let at = history_rules::source_collection(s, req)->Ok_0;
    lemma_collection_at(s.collections, req.manifest.collection, 0);
    let c = s.collections[at];
    let cutoff = req.manifest.cutoff_revision;
    let rows = history_rules::eligible(c.documents, cutoff);
    let early = |d: DocumentView| d.version <= cutoff;
    let moved = history_rules::all_moves(rows, req.manifest, encodings)->Ok_0;
    lemma_moves(rows, req.manifest.chunks, encodings, 0, Seq::empty());
    let staged = Staged {
        documents: c.documents,
        archived: c.archived,
        archived_bytes: c.archived_bytes,
        logical_bytes: s.logical_bytes,
    };
    let n = moved.len() as int;
    lemma_stage(
        c.documents,
        c.archived,
        moved,
        sizes,
        0,
        c.paths,
        req.manifest.archive_id,
        staged,
    );
    let last = history_rules::stage(
        c.paths,
        req.manifest.archive_id,
        moved,
        sizes,
        0,
        staged,
    )->Ok_0;
    let next = history_rules::publish_new(s, req, encodings, sizes, size, revision, b)->Ok_0;
    assert(next.collections[at] == history_rules::staged_collection(c, last));
    lemma_filter_ascends(c.documents, early);
    assert forall|d: DocumentView| c.documents.contains(d) implies (d.version <= cutoff
        <==> #[trigger] moved_before(moved, n, d.id)) by {
        lemma_filter_holds(c.documents, early, d);
        if d.version <= cutoff {
            let k = choose|k: int| 0 <= k < rows.len() && rows[k] == d;
            assert(history_rules::has_document(rows, d.id));
            lemma_all_moved(rows, moved, d.id);
        } else if moved_before(moved, n, d.id) {
            let j = choose|j: int| 0 <= j < n && (#[trigger] moved[j]).document.id == d.id;
            let other = moved[j].document;
            lemma_filter_holds(c.documents, early, other);
            assert(rows.contains(other));
            lemma_one_identity(c.documents, d, other);
        }
    }
    assert forall|d: DocumentView| #[trigger] c.documents.contains(d) && d.version
        <= cutoff implies referenced(c.paths, last.archived, d) by {
        assert(moved_before(moved, n, d.id));
        let j = choose|j: int| 0 <= j < n && (#[trigger] moved[j]).document.id == d.id;
        let other = moved[j].document;
        lemma_filter_holds(c.documents, early, other);
        assert(rows.contains(other));
        lemma_one_identity(c.documents, d, other);
        assert(referenced(c.paths, last.archived, moved[j].document));
    }
    assert forall|d: DocumentView| #[trigger] last.documents.contains(d) <==> c.documents.contains(
        d,
    ) && d.version > cutoff by {
        if c.documents.contains(d) {
            assert(d.version <= cutoff <==> moved_before(moved, n, d.id));
        }
    }
    assert forall|id: Seq<u8>| #[trigger] known(last.documents, last.archived, id) <==> known(
        c.documents,
        c.archived,
        id,
    ) by {
        lemma_known(c.paths, c.documents, c.archived, moved, n, rows, early, last, id);
    }
}

/// In ascending documents one identity is one document.
pub proof fn lemma_one_identity(documents: Seq<DocumentView>, a: DocumentView, b: DocumentView)
    requires
        history_rules::ascending(documents),
        documents.contains(a),
        documents.contains(b),
        a.id == b.id,
    ensures
        a == b,
{
    let i = choose|i: int| 0 <= i < documents.len() && documents[i] == a;
    let j = choose|j: int| 0 <= j < documents.len() && documents[j] == b;
    texts::lemma_irreflexive(a.id);
    if i < j {
        assert(texts::less(documents[i].id, documents[j].id));
    } else if j < i {
        assert(texts::less(documents[j].id, documents[i].id));
    }
}

proof fn lemma_known(
    paths: Seq<Name>,
    documents: Seq<DocumentView>,
    archived: Seq<ArchivedView>,
    moved: Seq<Moved>,
    n: int,
    rows: Seq<DocumentView>,
    early: spec_fn(DocumentView) -> bool,
    last: Staged,
    id: Seq<u8>,
)
    requires
        n == moved.len(),
        rows == documents.filter(early),
        moved_so_far(paths, documents, archived, moved, n, last),
        forall|j: int| 0 <= j < moved.len() ==> rows.contains((#[trigger] moved[j]).document),
    ensures
        known(last.documents, last.archived, id) <==> known(documents, archived, id),
{
    if history_rules::has_document(documents, id) {
        let i = choose|i: int| 0 <= i < documents.len() && (#[trigger] documents[i]).id == id;
        assert(documents.contains(documents[i]));
        if moved_before(moved, n, id) {
            let j = choose|j: int| 0 <= j < n && (#[trigger] moved[j]).document.id == id;
            assert(referenced(paths, last.archived, moved[j].document));
            let k = choose|k: int|
                0 <= k < last.archived.len() && stands_for(
                    paths,
                    #[trigger] last.archived[k],
                    moved[j].document,
                );
            assert(history_rules::has_reference(last.archived, id));
        } else {
            assert(last.documents.contains(documents[i]));
            let k = choose|k: int| 0 <= k < last.documents.len() && last.documents[k]
                == documents[i];
            assert(last.documents[k].id == id);
        }
    }
    if history_rules::has_reference(archived, id) {
        let i = choose|i: int| 0 <= i < archived.len() && (#[trigger] archived[i]).id == id;
        assert(archived.contains(archived[i]));
        assert(last.archived.contains(archived[i]));
        let k = choose|k: int| 0 <= k < last.archived.len() && last.archived[k] == archived[i];
        assert(last.archived[k].id == id);
    }
    if history_rules::has_document(last.documents, id) {
        let i = choose|i: int|
            0 <= i < last.documents.len() && (#[trigger] last.documents[i]).id == id;
        assert(last.documents.contains(last.documents[i]));
        let d = last.documents[i];
        let k = choose|k: int| 0 <= k < documents.len() && documents[k] == d;
        assert(documents[k].id == id);
    }
    if history_rules::has_reference(last.archived, id) {
        let i = choose|i: int|
            0 <= i < last.archived.len() && (#[trigger] last.archived[i]).id == id;
        let r = last.archived[i];
        assert(last.archived.contains(r));
        if archived.contains(r) {
            let k = choose|k: int| 0 <= k < archived.len() && archived[k] == r;
            assert(archived[k].id == id);
        } else {
            let j = choose|j: int| 0 <= j < n && (#[trigger] moved[j]).document.id == id;
            assert(rows.contains(moved[j].document));
            lemma_filter_holds(documents, early, moved[j].document);
            let k = choose|k: int| 0 <= k < documents.len() && documents[k] == moved[j].document;
            assert(documents[k].id == id);
        }
    }
}

/// Where an archive of the identity stands in a catalog with one more.
pub proof fn lemma_archive_at_pushed(
    archives: Seq<crate::history_model::RetainedView>,
    archive: crate::history_model::RetainedView,
    i: int,
)
    requires
        0 <= i <= archives.len(),
        history_rules::archive_at(archives, archive.manifest.archive_id, i) is None,
    ensures
        history_rules::archive_at(archives.push(archive), archive.manifest.archive_id, i) == Some(
            archives.len() as int,
        ),
    decreases archives.len() - i,
{
    if i < archives.len() {
        lemma_archive_at_pushed(archives, archive, i + 1);
    }
}

/// An archive that is published again, as it was, is answered with the revision
/// of the first time and changes nothing.
pub proof fn lemma_republished(
    s: HistoryView,
    req: PublishArchiveView,
    encodings: Seq<Vec<u8>>,
    sizes: Seq<EntrySize>,
    size: EntrySize,
    revision: u64,
    later: u64,
    b: ArchiveBounds,
)
    requires
        history_rules::published(s, None, req, encodings, sizes, size, revision, b) is Ok,
    ensures
        ({
            let (next, answered, _) = history_rules::published(
                s,
                None,
                req,
                encodings,
                sizes,
                size,
                revision,
                b,
            )->Ok_0;
            history_rules::published(next, None, req, encodings, sizes, size, later, b) == Ok::<
                (HistoryView, u64, bool),
                Error,
            >((next, answered, false))
        }),
{
    if history_rules::archive_at(s.archives, req.manifest.archive_id, 0) is None {
        lemma_archive_at_pushed(s.archives, history_rules::retained_as(req, revision, size), 0);
    }
}

/// What was archived is read back as it was: in a chunk that holds the document, the
/// reference that stands for it finds that document, and no other is taken for it.
pub proof fn lemma_read_back(
    cache: HistoryReadCache,
    at: int,
    paths: Seq<Name>,
    reference: ArchivedView,
    document: DocumentView,
    r: Result<Document, Error>,
)
    requires
        0 <= at < cache.chunks().len(),
        ({
            let documents = history_model::documents_view(cache.chunks()[at].documents@);
            history_rules::ascending(documents) && documents.contains(document)
        }),
        stands_for(paths, reference, document),
        cache.resolved(at, paths, reference, reference.id, r),
    ensures
        r is Ok,
        r->Ok_0@ == document,
{
    let documents = history_model::documents_view(cache.chunks()[at].documents@);
    let i = choose|i: int| 0 <= i < documents.len() && documents[i] == document;
    history_reads::lemma_found(documents, reference.id, i, 0);
}

} // verus!
