//! One export of history, from its selected rows to its manifest: which rows go
//! into which chunk, and what the manifest says of them.
use vstd::prelude::*;

use crate::digest;
use crate::digest::Digest;
use crate::errors::Error;
use crate::history_export;
use crate::history_export::{
    chunk_revision, chunk_step, describe_chunk, opened, ArchiveHistory, ChunkStep,
};
use crate::history_laws;
use crate::history_model;
use crate::history_model::{
    ArchiveBounds, ArchiveForms, DescriptorView, Document, DocumentView, HistoryState,
    HistoryView, Manifest, ManifestView,
};
use crate::history_rules;
use crate::history_state::validate_manifest;
use crate::texts;

verus! {

/// Where the chunk that begins at `from` ends, once the rows before `i` are in it
/// and take `bytes`: a chunk takes rows while they fit.
pub open spec fn cut(rows: Seq<DocumentView>, from: int, i: int, bytes: u64, max: u64) -> Result<
    int,
    Error,
>
    decreases rows.len() - i,
{
    if i < 0 || i >= rows.len() {
        Ok(i)
    } else {
        match history_export::chunk_step_of(bytes, (i - from) as u64, rows[i].encoded_bytes, max) {
            Err(e) => Err(e),
            Ok(ChunkStep::Export) => Ok(i),
            Ok(ChunkStep::Append { chunk_bytes }) => cut(rows, from, i + 1, chunk_bytes, max),
        }
    }
}

/// An export: its manifest as far as it is written, the rows, how many of them are
/// exported, and where the open chunk ends.
pub struct Export {
    manifest: Manifest,
    rows: Vec<Document>,
    placed: usize,
    end: usize,
}

pub struct ExportView {
    pub manifest: ManifestView,
    pub rows: Seq<DocumentView>,
    pub placed: int,
    pub end: int,
}

impl View for Export {
    type V = ExportView;

    closed spec fn view(&self) -> ExportView {
        ExportView {
            manifest: self.manifest@,
            rows: history_model::documents_view(self.rows@),
            placed: self.placed as int,
            end: self.end as int,
        }
    }
}

/// What is exported next.
#[derive(Clone, Copy, Debug, PartialEq, Eq, Structural)]
pub enum ExportAction {
    /// The chunk of this number, of the rows from `first` to before `end`, under the
    /// revision of its latest row.
    Chunk { index: u64, first: usize, end: usize, revision: u64 },
    /// Every row is exported: the manifest follows.
    Manifest,
}

pub open spec fn manifest_of(s: HistoryView, request: ArchiveHistory, documents: nat) -> ManifestView {
    ManifestView {
        archive_id: request.archive_id,
        tenant: s.tenant,
        source_incarnation: s.incarnation,
        collection: request.collection,
        cutoff_revision: request.cutoff_revision,
        source_schema_epoch: s.schema_epoch,
        destination: request.destination,
        document_count: documents as u64,
        chunks: Seq::empty(),
        encoded_bytes: 0,
    }
}

/// What opening the next chunk comes to.
pub open spec fn next_action(e: ExportView, empty_chunk_bytes: u64, max: u64) -> Result<
    (ExportView, ExportAction),
    Error,
> {
    if e.placed >= e.rows.len() {
        Ok((ExportView { end: e.placed, ..e }, ExportAction::Manifest))
    } else {
        match cut(
            e.rows,
            e.placed,
            e.placed,
            history_export::saturating(empty_chunk_bytes, 16),
            max,
        ) {
            Err(e) => Err(e),
            Ok(end) => Ok(
                (
                    ExportView { end, ..e },
                    ExportAction::Chunk {
                        index: e.manifest.chunks.len() as u64,
                        first: e.placed as usize,
                        end: end as usize,
                        revision: history_export::latest(
                            e.rows.subrange(e.placed, end),
                            end - e.placed,
                        ),
                    },
                ),
            ),
        }
    }
}

/// What an exported chunk makes of the export.
pub open spec fn with_chunk(e: ExportView, chunk: DescriptorView) -> ExportView {
    ExportView {
        manifest: ManifestView { chunks: e.manifest.chunks.push(chunk), ..e.manifest },
        placed: e.end,
        ..e
    }
}

/// A chunk holds a row at least, and no row beyond the last.
pub proof fn lemma_cut(rows: Seq<DocumentView>, from: int, i: int, bytes: u64, max: u64)
    requires
        0 <= from <= i <= rows.len() <= u64::MAX,
    ensures
        cut(rows, from, i, bytes, max) matches Ok(end) ==> i <= end <= rows.len() && (from
            < rows.len() ==> from < end),
    decreases rows.len() - i,
{
    if i < rows.len() {
        match history_export::chunk_step_of(bytes, (i - from) as u64, rows[i].encoded_bytes, max) {
            Err(_) => {},
            Ok(ChunkStep::Export) => {},
            Ok(ChunkStep::Append { chunk_bytes }) => {
                lemma_cut(rows, from, i + 1, chunk_bytes, max);
            },
        }
    }
}

impl Export {
    /// The open chunk lies behind what is exported, within the rows.
    #[verifier::type_invariant]
    spec fn within(self) -> bool {
        self.placed <= self.end <= self.rows@.len()
    }

    /// An export of the selected rows, of which nothing is exported yet.
    pub fn begin(state: &HistoryState, request: &ArchiveHistory, rows: Vec<Document>) -> (export: Self)
        ensures
            export@ == (ExportView {
                manifest: manifest_of(state@, *request, rows@.len()),
                rows: history_model::documents_view(rows@),
                placed: 0,
                end: 0,
            }),
            exported_in(export@, Seq::empty()),
    {
        let count: usize = rows.len();
        let export = Export {
            manifest: Manifest {
                archive_id: request.archive_id,
                tenant: state.tenant,
                source_incarnation: state.incarnation,
                collection: request.collection,
                cutoff_revision: request.cutoff_revision,
                source_schema_epoch: state.schema_epoch,
                destination: request.destination,
                document_count: count as u64,
                chunks: Vec::new(),
                encoded_bytes: 0,
            },
            rows,
            placed: 0,
            end: 0,
        };
        assert(export.manifest@.chunks =~= Seq::empty());
        export
    }

    /// The row at an index.
    pub fn row(&self, i: usize) -> (row: &Document)
        requires
            i < self@.rows.len(),
        ensures
            row@ == self@.rows[i as int],
    {
        &self.rows[i]
    }

    /// Opens the next chunk, which takes `empty_chunk_bytes` before any row is in it.
    pub fn open(&mut self, empty_chunk_bytes: u64, max_chunk_bytes: u64) -> (r: Result<
        ExportAction,
        Error,
    >)
        ensures
            match next_action(old(self)@, empty_chunk_bytes, max_chunk_bytes) {
                Err(e) => r == Err::<ExportAction, Error>(e) && final(self)@ == old(self)@,
                Ok((next, action)) => r == Ok::<ExportAction, Error>(action) && final(self)@
                    == next,
            },
    {
        proof {
            use_type_invariant(&*self);
        }
        let first: usize = self.placed;
        if first >= self.rows.len() {
            self.end = first;
            return Ok(ExportAction::Manifest);
        }
        let ghost view = history_model::documents_view(self.rows@);
        let mut bytes: u64 = opened(empty_chunk_bytes);
        let start: u64 = bytes;
        let mut i: usize = first;
        let mut full: bool = false;
        while i < self.rows.len() && !full
            invariant
                first <= i <= self.rows@.len(),
                self@ == old(self)@,
                view == history_model::documents_view(self.rows@),
                full ==> cut(view, first as int, first as int, start, max_chunk_bytes) == Ok::<
                    int,
                    Error,
                >(i as int),
                !full ==> cut(view, first as int, first as int, start, max_chunk_bytes) == cut(
                    view,
                    first as int,
                    i as int,
                    bytes,
                    max_chunk_bytes,
                ),
                first < self.rows@.len(),
                old(self)@.rows == view,
                old(self)@.placed == first,
                start == history_export::saturating(empty_chunk_bytes, 16),
            decreases self.rows.len() - i, if full {
                0int
            } else {
                1int
            },
        {
            assert(view[i as int] == self.rows@[i as int]@);
            match chunk_step(
                bytes,
                (i - first) as u64,
                self.rows[i].encoded_bytes,
                max_chunk_bytes,
            ) {
                Err(e) => {
                    return Err(e);
                },
                Ok(ChunkStep::Export) => {
                    full = true;
                },
                Ok(ChunkStep::Append { chunk_bytes }) => {
                    bytes = chunk_bytes;
                    i = i + 1;
                },
            }
        }
        proof {
            lemma_cut(view, first as int, first as int, start, max_chunk_bytes);
        }
        let revision: u64 = chunk_revision(&self.rows, first, i);
        let index: u64 = self.manifest.chunks.len() as u64;
        self.end = i;
        Ok(ExportAction::Chunk { index, first, end: i, revision })
    }

    /// The open chunk was exported: its rows are encoded in `encoded`, and stand
    /// encrypted in an object.
    pub fn exported(
        &mut self,
        encoded: &Vec<u8>,
        object_id: u128,
        ciphertext_sha256: Digest,
        max_chunk_bytes: u64,
    ) -> (r: Result<(), Error>)
        requires
            old(self)@.placed < old(self)@.end,
        ensures
            match history_export::described(
                old(self)@.rows.subrange(old(self)@.placed, old(self)@.end),
                encoded@,
                object_id,
                ciphertext_sha256,
                max_chunk_bytes,
            ) {
                Err(e) => r == Err::<(), Error>(e) && final(self)@ == old(self)@,
                Ok(chunk) => r == Ok::<(), Error>(()) && final(self)@ == with_chunk(
                    old(self)@,
                    chunk,
                ),
            },
    {
        proof {
            use_type_invariant(&*self);
        }
        let chunk = describe_chunk(
            &self.rows,
            self.placed,
            self.end,
            encoded,
            object_id,
            ciphertext_sha256,
            max_chunk_bytes,
        )?;
        let ghost before = self.manifest@.chunks;
        let ghost one = chunk@;
        let mut manifest = self.manifest.copy();
        let ghost held = manifest.chunks@;
        manifest.chunks.push(chunk);
        assert(manifest@.chunks =~= before.push(one)) by {
            assert forall|i: int| 0 <= i < manifest@.chunks.len() implies manifest@.chunks[i]
                == before.push(one)[i] by {
                if i < held.len() {
                    assert(manifest.chunks@[i] == held[i]);
                    assert(before[i] == held[i]@);
                }
            }
        }
        self.manifest = manifest;
        self.placed = self.end;
        Ok(())
    }

    /// The manifest of an export whose rows are all exported, which takes so many
    /// bytes, if it holds.
    pub fn finish(&self, encoded_bytes: u64, bounds: &ArchiveBounds, forms: &ArchiveForms) -> (r: Result<
        Manifest,
        Error,
    >)
        ensures
            ({
                let manifest = ManifestView { encoded_bytes, ..self@.manifest };
                match history_rules::manifest_valid(manifest, *bounds, *forms) {
                    Err(e) => r == Err::<Manifest, Error>(e),
                    Ok(()) => r is Ok && r->Ok_0@ == manifest,
                }
            }),
    {
        let mut manifest = self.manifest.copy();
        manifest.encoded_bytes = encoded_bytes;
        assert(manifest@ == (ManifestView { encoded_bytes, ..self@.manifest }));
        validate_manifest(&manifest, bounds, forms)?;
        Ok(manifest)
    }
}

// ---------------------------------------------------------------------
// What an export comes to
// ---------------------------------------------------------------------

/// Where the first of the rows of the last chunk stands, of chunks that hold the
/// first `placed` rows.
pub open spec fn last_from(chunks: Seq<DescriptorView>, placed: int) -> int {
    placed - chunks.last().document_count
}

/// Whether the chunks hold the first `placed` rows, one chunk behind the other, each
/// chunk's rows encoded in the bytes that its descriptor tells.
pub open spec fn partition(
    rows: Seq<DocumentView>,
    chunks: Seq<DescriptorView>,
    encodings: Seq<Vec<u8>>,
    placed: int,
) -> bool
    decreases chunks.len(),
{
    if chunks.len() == 0 {
        placed == 0 && encodings.len() == 0
    } else {
        let from = last_from(chunks, placed);
        &&& encodings.len() == chunks.len()
        &&& 0 <= from < placed <= rows.len()
        &&& history_rules::covers(rows.subrange(from, placed), chunks.last())
        &&& digest::digest_of(encodings.last()@) == chunks.last().plaintext_sha256
        &&& encodings.last()@.len() == chunks.last().plaintext_bytes
        &&& partition(rows, chunks.drop_last(), encodings.drop_last(), from)
    }
}

/// Whether the export's chunks hold what is exported, in the encodings.
pub open spec fn exported_in(e: ExportView, encodings: Seq<Vec<u8>>) -> bool {
    partition(e.rows, e.manifest.chunks, encodings, e.placed)
}

/// An exported chunk puts its rows behind
/// those that were exported before, none left out and none twice.
pub proof fn lemma_chunk_exported(
    e: ExportView,
    encodings: Seq<Vec<u8>>,
    encoded: Vec<u8>,
    object_id: u128,
    ciphertext_sha256: Digest,
    max: u64,
)
    requires
        exported_in(e, encodings),
        0 <= e.placed < e.end <= e.rows.len() <= u64::MAX,
        encoded@.len() <= u64::MAX,
        history_export::described(
            e.rows.subrange(e.placed, e.end),
            encoded@,
            object_id,
            ciphertext_sha256,
            max,
        ) is Ok,
    ensures
        exported_in(
            with_chunk(
                e,
                history_export::described(
                    e.rows.subrange(e.placed, e.end),
                    encoded@,
                    object_id,
                    ciphertext_sha256,
                    max,
                )->Ok_0,
            ),
            encodings.push(encoded),
        ),
{
    let chunk = history_export::described(
        e.rows.subrange(e.placed, e.end),
        encoded@,
        object_id,
        ciphertext_sha256,
        max,
    )->Ok_0;
    let chunks = e.manifest.chunks.push(chunk);
    assert(chunks.drop_last() =~= e.manifest.chunks);
    assert(encodings.push(encoded).drop_last() =~= encodings);
    assert(encodings.len() == e.manifest.chunks.len());
}

/// An interval of ascending rows is the rows from its first to its last.
proof fn lemma_interval(rows: Seq<DocumentView>, from: int, to: int)
    requires
        history_rules::ascending(rows),
        0 <= from < to <= rows.len(),
    ensures
        history_rules::interval(rows, rows[from].id, rows[to - 1].id) == rows.subrange(from, to),
{
    let first = rows[from].id;
    let last = rows[to - 1].id;
    let keep = |d: DocumentView| !texts::less(d.id, first) && !texts::less(last, d.id);
    assert forall|k: int| 0 <= k < rows.len() implies keep(#[trigger] rows[k]) == (from <= k < to) by {
        let id = rows[k].id;
        texts::lemma_irreflexive(id);
        if k < from {
            assert(texts::less(id, first));
        } else if k >= to {
            assert(texts::less(last, id));
        } else {
            if texts::less(id, first) {
                if from < k {
                    texts::lemma_transitive(id, first, id);
                }
            }
            if texts::less(last, id) {
                if k < to - 1 {
                    texts::lemma_transitive(id, last, id);
                }
            }
        }
    }
    lemma_kept(rows, keep, from, to, rows.len() as int);
    assert(rows.take(rows.len() as int) =~= rows);
}

/// A filter that keeps the rows from `from` to before `to` cuts them out.
proof fn lemma_kept(
    rows: Seq<DocumentView>,
    keep: spec_fn(DocumentView) -> bool,
    from: int,
    to: int,
    n: int,
)
    requires
        0 <= from < to <= rows.len(),
        0 <= n <= rows.len(),
        forall|k: int| 0 <= k < rows.len() ==> keep(#[trigger] rows[k]) == (from <= k < to),
    ensures
        rows.take(n).filter(keep) == if n <= from {
            Seq::empty()
        } else if n <= to {
            rows.subrange(from, n)
        } else {
            rows.subrange(from, to)
        },
    decreases n,
{
    if n == 0 {
        reveal(Seq::filter);
    } else {
        lemma_kept(rows, keep, from, to, n - 1);
        assert(rows.take(n) =~= rows.take(n - 1).push(rows[n - 1]));
        history_rules::lemma_filter_push(rows.take(n - 1), rows[n - 1], keep);
        if n == from + 1 {
            assert(Seq::<DocumentView>::empty().push(rows[n - 1]) =~= rows.subrange(from, n));
        } else if from < n <= to {
            assert(rows.subrange(from, n - 1).push(rows[n - 1]) =~= rows.subrange(from, n));
        }
    }
}

/// How many rows the first `n` chunks hold.
pub open spec fn held_by(chunks: Seq<DescriptorView>, n: int) -> int
    decreases n,
{
    if n <= 0 {
        0
    } else {
        held_by(chunks, n - 1) + chunks[n - 1].document_count
    }
}

proof fn lemma_held_by_prefix(chunks: Seq<DescriptorView>, n: int)
    requires
        0 <= n < chunks.len(),
    ensures
        held_by(chunks.drop_last(), n) == held_by(chunks, n),
    decreases n,
{
    if n > 0 {
        lemma_held_by_prefix(chunks, n - 1);
    }
}

/// Each chunk of a partition holds the rows behind those of the chunks before it.
proof fn lemma_partition(
    rows: Seq<DocumentView>,
    chunks: Seq<DescriptorView>,
    encodings: Seq<Vec<u8>>,
    placed: int,
    i: int,
)
    requires
        partition(rows, chunks, encodings, placed),
        0 <= i < chunks.len(),
    ensures
        encodings.len() == chunks.len(),
        held_by(chunks, chunks.len() as int) == placed,
        0 <= held_by(chunks, i) < held_by(chunks, i + 1) <= placed <= rows.len(),
        history_rules::covers(
            rows.subrange(held_by(chunks, i), held_by(chunks, i + 1)),
            chunks[i],
        ),
        digest::digest_of(encodings[i]@) == chunks[i].plaintext_sha256,
        encodings[i]@.len() == chunks[i].plaintext_bytes,
    decreases chunks.len(),
{
    let last = chunks.len() - 1;
    let from = last_from(chunks, placed);
    let before = chunks.drop_last();
    assert(partition(rows, before, encodings.drop_last(), from));
    lemma_held_by_prefix(chunks, last);
    if last > 0 {
        let k = if i < last {
            i
        } else {
            last - 1
        };
        lemma_partition(rows, before, encodings.drop_last(), from, k);
        lemma_held_by_prefix(chunks, k);
        if i < last {
            lemma_held_by_prefix(chunks, i + 1);
            assert(before[i] == chunks[i]);
            assert(encodings.drop_last()[i] == encodings[i]);
        }
    }
}

proof fn lemma_moves_on(
    rows: Seq<DocumentView>,
    chunks: Seq<DescriptorView>,
    encodings: Seq<Vec<u8>>,
    i: int,
    moved: Seq<history_rules::Moved>,
)
    requires
        history_rules::ascending(rows),
        partition(rows, chunks, encodings, rows.len() as int),
        0 <= i <= chunks.len(),
        moved.len() == held_by(chunks, i),
        chunks.len() > 0,
    ensures
        history_rules::moves(rows, chunks, encodings, i, moved) is Ok,
        history_rules::moves(rows, chunks, encodings, i, moved)->Ok_0.len() == rows.len(),
    decreases chunks.len() - i,
{
    if i < chunks.len() {
        lemma_partition(rows, chunks, encodings, rows.len() as int, i);
        let from = held_by(chunks, i);
        let to = held_by(chunks, i + 1);
        let part = rows.subrange(from, to);
        assert(part.first() == rows[from]);
        assert(part.last() == rows[to - 1]);
        lemma_interval(rows, from, to);
        let more = moved + history_rules::moved_to(part, i as u64);
        lemma_moves_on(rows, chunks, encodings, i + 1, more);
    } else {
        lemma_partition(rows, chunks, encodings, rows.len() as int, 0);
    }
}

/// The bytes of the bodies, with one more.
proof fn lemma_bodies_push(rows: Seq<DocumentView>, row: DocumentView, i: int, sum: u64, all: u64)
    requires
        0 <= i <= rows.len(),
        history_rules::bodies(rows, i, sum) == Ok::<u64, Error>(all),
        all + row.body_bytes <= u64::MAX,
    ensures
        history_rules::bodies(rows.push(row), i, sum) == Ok::<u64, Error>(
            (all + row.body_bytes) as u64,
        ),
    decreases rows.len() - i,
{
    let more = rows.push(row);
    if i < rows.len() {
        assert(more[i] == rows[i]);
        lemma_bodies_push(rows, row, i + 1, (sum + rows[i].body_bytes) as u64, all);
    } else {
        assert(more[i] == row);
        assert(history_rules::bodies(more, i + 1, (sum + row.body_bytes) as u64) == Ok::<
            u64,
            Error,
        >((sum + row.body_bytes) as u64));
    }
}

/// A selection is the rows up to the cutoff, within the bounds.
proof fn lemma_selected(
    documents: Seq<DocumentView>,
    cutoff: u64,
    b: ArchiveBounds,
    i: int,
    bytes: u64,
    rows: Seq<DocumentView>,
)
    requires
        0 <= i <= documents.len(),
        rows == history_rules::eligible(documents.take(i), cutoff),
        history_rules::bodies(rows, 0, 0) == Ok::<u64, Error>(bytes),
        bytes <= b.max_source_bytes,
        history_export::selected(documents, cutoff, b, i, bytes, rows) is Ok,
    ensures
        ({
            let all = history_export::selected(documents, cutoff, b, i, bytes, rows)->Ok_0;
            &&& all == history_rules::eligible(documents, cutoff)
            &&& history_rules::bodies(all, 0, 0) is Ok
            &&& history_rules::bodies(all, 0, 0)->Ok_0 <= b.max_source_bytes
        }),
    decreases documents.len() - i,
{
    if i < documents.len() {
        let early = |d: DocumentView| d.version <= cutoff;
        assert(documents.take(i + 1) =~= documents.take(i).push(documents[i]));
        history_rules::lemma_filter_push(documents.take(i), documents[i], early);
        if documents[i].version <= cutoff {
            lemma_bodies_push(rows, documents[i], 0, 0, bytes);
            lemma_selected(
                documents,
                cutoff,
                b,
                i + 1,
                (bytes + documents[i].body_bytes) as u64,
                rows.push(documents[i]),
            );
        } else {
            lemma_selected(documents, cutoff, b, i + 1, bytes, rows);
        }
    } else {
        assert(documents.take(i) =~= documents);
    }
}

/// What was exported is what its publication accepts: while the collection stands as
/// it was selected from, the manifest of a whole export covers exactly the rows that
/// the publication looks for, in the bytes that it compares them with.
pub proof fn lemma_export_accepted(
    c: history_model::CollectionView,
    m: ManifestView,
    rows: Seq<DocumentView>,
    encodings: Seq<Vec<u8>>,
    b: ArchiveBounds,
)
    requires
        history_rules::ascending(c.documents),
        history_export::selection(c.documents, m.cutoff_revision, b) == Ok::<
            Seq<DocumentView>,
            Error,
        >(rows),
        m.document_count == rows.len(),
        partition(rows, m.chunks, encodings, rows.len() as int),
    ensures
        history_rules::source_rows(c, m, b) == Ok::<Seq<DocumentView>, Error>(rows),
        history_rules::all_moves(rows, m, encodings) is Ok,
{
    let early = |d: DocumentView| d.version <= m.cutoff_revision;
    assert(c.documents.take(0) =~= Seq::empty());
    assert(history_rules::eligible(c.documents.take(0), m.cutoff_revision) =~= Seq::empty()) by {
        reveal(Seq::filter);
    }
    lemma_selected(c.documents, m.cutoff_revision, b, 0, 0, Seq::empty());
    history_laws::lemma_filter_ascends(c.documents, early);
    lemma_moves_on(rows, m.chunks, encodings, 0, Seq::empty());
}

} // verus!
