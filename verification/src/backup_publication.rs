//! One full backup, from its first chunk to its root: the chunks of the resident
//! state are paged, the pages chained, the archives copied, and the root published
//! last.
use vstd::prelude::*;

use crate::backup_copy::{CopyPosition, CopyStep};
use crate::digest;
use crate::digest::{digest, Digest};
use crate::errors;
use crate::errors::{error, Error, ErrorCode};
use crate::full_backup;
use crate::full_backup::{
    BackupChunk, BackupPage, FullManifest, PageRef, Pages, PagesView, PublishedRoot, SessionIntent,
    StateStream,
};
use crate::history_model::{HistoryState, Manifest, RetainedView};

verus! {

/// How far a publication is.
#[derive(Clone, Copy, Debug, PartialEq, Eq, Structural)]
pub enum Phase {
    /// Chunks of the resident state are published.
    Streaming,
    /// A page is full, and published before the next chunk.
    Paging,
    /// The last chunk and the last page are published.
    Paged,
    /// The manifest is made, and the archives are copied.
    Copying(FullManifest, CopyPosition),
}

/// The resident state: a stream of it, or what it came to.
pub enum Resident {
    Open(StateStream),
    Finished(u64, Digest),
}

/// A backup that is being published.
pub struct Publication {
    intent: SessionIntent,
    resident: Resident,
    streamed: Ghost<Seq<u8>>,
    published: Ghost<Seq<Seq<u8>>>,
    waiting: Vec<Vec<u8>>,
    pages: Pages,
    ended: bool,
    phase: Phase,
}

pub struct PublicationView {
    pub intent: SessionIntent,
    /// The bytes of the resident state so far.
    pub streamed: Seq<u8>,
    /// How many bytes it may have, and how many make up a chunk.
    pub limit: u64,
    pub chunk_bytes: nat,
    /// How many bytes the resident state came to, and their digest, once it has ended.
    pub resident: Option<(u64, Digest)>,
    /// The chunks that were published, those that are full, and the open one.
    pub published: Seq<Seq<u8>>,
    pub waiting: Seq<Seq<u8>>,
    pub open: Seq<u8>,
    pub pages: PagesView,
    /// Whether the last page was handed out.
    pub ended: bool,
    pub phase: Phase,
}

impl PublicationView {
    /// Whether the chunks are the resident state: those that were published, behind
    /// them those that wait, behind them the open one. None is left behind the last
    /// page.
    pub open spec fn whole(self) -> bool {
        &&& full_backup::joined(self.published) + full_backup::joined(self.waiting) + self.open
            == self.streamed
        &&& self.pages.chunk_count == self.published.len()
        &&& self.resident matches Some((bytes, sha256)) ==> {
            &&& bytes == self.streamed.len()
            &&& sha256 == digest::digest_of(self.streamed)
            &&& self.open.len() == 0
        }
        &&& self.ended ==> self.resident is Some && self.waiting.len() == 0
        &&& self.phase is Paged ==> self.ended
    }
}

impl View for Publication {
    type V = PublicationView;

    closed spec fn view(&self) -> PublicationView {
        PublicationView {
            intent: self.intent,
            streamed: self.streamed@,
            limit: match self.resident {
                Resident::Open(stream) => stream.bound(),
                Resident::Finished(_, _) => 0,
            },
            chunk_bytes: match self.resident {
                Resident::Open(stream) => stream.size(),
                Resident::Finished(_, _) => 0,
            },
            resident: match self.resident {
                Resident::Open(_) => None,
                Resident::Finished(bytes, sha256) => Some((bytes, sha256)),
            },
            published: self.published@,
            waiting: full_backup::chunks_view(self.waiting@),
            open: match self.resident {
                Resident::Open(stream) => stream.open(),
                Resident::Finished(_, _) => Seq::empty(),
            },
            pages: self.pages@,
            ended: self.ended,
            phase: self.phase,
        }
    }
}

/// The chunk that these bytes were published as.
pub open spec fn chunk_of(bytes: Seq<u8>, object_id: u128, ciphertext_sha256: Digest) -> BackupChunk {
    BackupChunk {
        object_id,
        ciphertext_sha256,
        plaintext_sha256: digest::digest_of(bytes),
        plaintext_bytes: bytes.len() as u64,
    }
}

/// The pages with one more chunk, and whether it filled a page.
pub open spec fn with_chunk(pages: PagesView, chunk: BackupChunk) -> (PagesView, bool) {
    let grown = pages.chunks.push(chunk);
    let full = grown.len() == pages.page_chunks;
    (
        PagesView {
            chunks: if full {
                Seq::empty()
            } else {
                grown
            },
            chunk_count: (pages.chunk_count + 1) as u64,
            ..pages
        },
        full,
    )
}

/// The manifest of what is paged.
pub open spec fn manifest_of(
    intent: SessionIntent,
    pages: PagesView,
    resident_bytes: u64,
    resident_sha256: Digest,
) -> Result<FullManifest, Error> {
    match pages.last_page {
        None => Err(errors::refusal(ErrorCode::Corruption, "backup manifest pages missing")),
        Some(last_page) => Ok(
            FullManifest {
                tenant: intent.tenant,
                source_incarnation: intent.source_incarnation,
                revision: intent.revision,
                resident_bytes,
                resident_sha256,
                chunk_count: pages.chunk_count,
                page_count: pages.page_count,
                last_page,
            },
        ),
    }
}

impl Publication {
    /// Whether the chunks are the resident state so far, and the stream has taken in the
    /// same bytes.
    pub closed spec fn well_formed(self) -> bool {
        &&& self@.whole()
        &&& match self.resident {
            Resident::Open(stream) => stream.streamed() == self.streamed@ && stream.written()
                == self.streamed@.len(),
            Resident::Finished(_, _) => true,
        }
    }

    /// A publication for a session that was read back and is open, of a resident state
    /// of at most `limit` bytes. `read_back` holds the session's intent, and whether it
    /// was resolved; `intent_refusal` is what refuses the intent's form, if anything.
    pub fn begin(
        intent: SessionIntent,
        intent_refusal: Option<Error>,
        read_back: Option<(SessionIntent, bool)>,
        page_chunks: usize,
        limit: u64,
        chunk_bytes: usize,
    ) -> (r: Result<Self, Error>)
        requires
            page_chunks > 0,
            chunk_bytes > 0,
        ensures
            if intent_refusal is Some {
                r == Err::<Self, Error>(intent_refusal->0)
            } else {
                match full_backup::session_checked(intent, read_back) {
                    Err(e) => r == Err::<Self, Error>(e),
                    Ok(()) => r is Ok && r->Ok_0.well_formed() && r->Ok_0@ == (PublicationView {
                        intent,
                        streamed: Seq::empty(),
                        limit,
                        chunk_bytes: chunk_bytes as nat,
                        resident: None,
                        published: Seq::empty(),
                        waiting: Seq::empty(),
                        open: Seq::empty(),
                        pages: PagesView {
                            chunks: Seq::empty(),
                            chunk_count: 0,
                            page_count: 0,
                            last_page: None,
                            page_chunks: page_chunks as nat,
                        },
                        ended: false,
                        phase: Phase::Streaming,
                    }),
                }
            },
    {
        match intent_refusal {
            Some(refusal) => return Err(refusal),
            None => {},
        }
        full_backup::check_session(&intent, read_back)?;
        let waiting: Vec<Vec<u8>> = Vec::new();
        proof {
            assert(full_backup::chunks_view(waiting@) =~= Seq::empty());
            assert(full_backup::joined(Seq::empty()) + full_backup::joined(Seq::empty())
                + Seq::<u8>::empty() =~= Seq::empty());
        }
        Ok(
            Publication {
                intent,
                resident: Resident::Open(StateStream::new(limit, chunk_bytes)),
                streamed: Ghost(Seq::empty()),
                published: Ghost(Seq::empty()),
                waiting,
                pages: Pages::new(page_chunks),
                ended: false,
                phase: Phase::Streaming,
            },
        )
    }

    /// Takes in more of the resident state. The chunks that it fills wait to be
    /// published. Beyond the limit nothing is taken in.
    pub fn write(&mut self, bytes: &Vec<u8>) -> (r: Result<(), Error>)
        requires
            old(self).well_formed(),
            old(self)@.resident is None,
        ensures
            final(self).well_formed(),
            if old(self)@.streamed.len() + bytes.len() > old(self)@.limit {
                r == Err::<(), Error>(
                    errors::refusal(
                        ErrorCode::Unavailable,
                        "backup resident state exceeds format limit",
                    ),
                ) && final(self)@ == old(self)@
            } else {
                &&& r == Ok::<(), Error>(())
                &&& final(self)@ == (PublicationView {
                    streamed: old(self)@.streamed + bytes@,
                    waiting: final(self)@.waiting,
                    open: final(self)@.open,
                    ..old(self)@
                })
                &&& final(self)@.open.len() < final(self)@.chunk_bytes
                &&& exists|filled: Seq<Seq<u8>>|
                    {
                        &&& final(self)@.waiting == old(self)@.waiting + filled
                        &&& #[trigger] full_backup::all_full(filled, final(self)@.chunk_bytes)
                        &&& full_backup::joined(filled) + final(self)@.open == old(self)@.open
                            + bytes@
                    }
            },
    {
        let ghost start = self@;
        let filled: Vec<Vec<u8>> = match &mut self.resident {
            Resident::Open(stream) => match stream.write(bytes) {
                Err(e) => return Err(e),
                Ok(filled) => filled,
            },
            Resident::Finished(_, _) => return Ok(()),
        };
        let ghost chunks = full_backup::chunks_view(filled@);
        let mut filled = filled;
        self.waiting.append(&mut filled);
        self.streamed = Ghost(self.streamed@ + bytes@);
        proof {
            assert(self@.waiting =~= start.waiting + chunks);
            full_backup::lemma_joined_both(start.waiting, chunks);
            let front = full_backup::joined(start.published);
            let held = full_backup::joined(start.waiting);
            assert(front + (held + full_backup::joined(chunks)) + self@.open =~= front + held + (
            full_backup::joined(chunks) + self@.open));
            assert(front + held + (start.open + bytes@) =~= front + held + start.open + bytes@);
            assert(full_backup::all_full(chunks, self@.chunk_bytes));
        }
        Ok(())
    }

    /// The resident state has come to its end. Its last chunk, unless it is empty,
    /// waits to be published too.
    pub fn finish(&mut self)
        requires
            old(self).well_formed(),
            old(self)@.resident is None,
        ensures
            final(self).well_formed(),
            final(self)@ == (PublicationView {
                resident: Some(
                    (
                        old(self)@.streamed.len() as u64,
                        digest::digest_of(old(self)@.streamed),
                    ),
                ),
                limit: 0,
                chunk_bytes: 0,
                waiting: if old(self)@.open.len() == 0 {
                    old(self)@.waiting
                } else {
                    old(self)@.waiting.push(old(self)@.open)
                },
                open: Seq::empty(),
                ..old(self)@
            }),
    {
        let ghost start = self@;
        let mut resident = Resident::Finished(0, Digest { high: 0, low: 0 });
        std::mem::swap(&mut resident, &mut self.resident);
        match resident {
            Resident::Open(stream) => {
                let (bytes, sha256, last) = stream.finish();
                self.resident = Resident::Finished(bytes, sha256);
                match last {
                    None => {
                        assert(self@.waiting =~= start.waiting);
                        assert(start.open =~= Seq::empty());
                    },
                    Some(chunk) => {
                        let ghost held = self.waiting@;
                        self.waiting.push(chunk);
                        proof {
                            assert(self@.waiting =~= start.waiting.push(start.open));
                            assert(self@.waiting.drop_last() =~= start.waiting);
                            let front = full_backup::joined(start.published);
                            let rest = full_backup::joined(start.waiting);
                            assert(front + (rest + start.open) + Seq::<u8>::empty() =~= front
                                + rest + start.open);
                        }
                    },
                }
            },
            Resident::Finished(_, _) => {},
        }
    }

    /// The chunk that is published next, if one waits.
    pub fn next_chunk(&self) -> (chunk: Option<&Vec<u8>>)
        ensures
            match chunk {
                None => self@.waiting.len() == 0,
                Some(bytes) => self@.waiting.len() > 0 && bytes@ == self@.waiting[0],
            },
    {
        if self.waiting.len() == 0 {
            return None;
        }
        assert(self@.waiting[0] == self.waiting@[0]@);
        Some(&self.waiting[0])
    }

    /// The chunk that waited longest was published; the page that it filled is
    /// published next.
    pub fn chunk_published(&mut self, object_id: u128, ciphertext_sha256: Digest) -> (r: Result<
        Option<BackupPage>,
        Error,
    >)
        requires
            old(self).well_formed(),
            old(self)@.phase is Streaming,
            old(self)@.waiting.len() > 0,
        ensures
            final(self).well_formed(),
            ({
                let bytes = old(self)@.waiting[0];
                let chunk = chunk_of(bytes, object_id, ciphertext_sha256);
                let (pages, full) = with_chunk(old(self)@.pages, chunk);
                if old(self)@.pages.chunk_count == u64::MAX {
                    r == Err::<Option<BackupPage>, Error>(
                        errors::refusal(ErrorCode::Corruption, "backup chunk overflow"),
                    ) && final(self)@ == old(self)@
                } else {
                    &&& final(self)@ == (PublicationView {
                        published: old(self)@.published.push(bytes),
                        waiting: old(self)@.waiting.drop_first(),
                        pages,
                        phase: if full {
                            Phase::Paging
                        } else {
                            Phase::Streaming
                        },
                        ..old(self)@
                    })
                    &&& match r {
                        Ok(Some(page)) => full && full_backup::is_open_page(
                            PagesView {
                                chunks: old(self)@.pages.chunks.push(chunk),
                                ..old(self)@.pages
                            },
                            page,
                        ),
                        Ok(None) => !full,
                        Err(_) => false,
                    }
                }
            }),
    {
        let ghost start = self@;
        proof {
            assert(start.waiting[0] == self.waiting@[0]@);
        }
        let chunk = BackupChunk {
            object_id,
            ciphertext_sha256,
            plaintext_sha256: digest(&self.waiting[0]),
            plaintext_bytes: self.waiting[0].len() as u64,
        };
        let added = match self.pages.add(chunk) {
            Err(e) => return Err(e),
            Ok(added) => added,
        };
        let bytes = self.waiting.remove(0);
        self.published = Ghost(self.published@.push(bytes@));
        proof {
            assert(full_backup::chunks_view(self.waiting@) =~= start.waiting.drop_first());
            assert(self.published@.drop_last() =~= start.published);
            let one = seq![start.waiting[0]];
            assert(start.waiting =~= one + start.waiting.drop_first());
            full_backup::lemma_joined_both(one, start.waiting.drop_first());
            assert(one.drop_last() =~= Seq::empty());
            assert(full_backup::joined(one.drop_last()) =~= Seq::empty());
            assert(full_backup::joined(one) == full_backup::joined(one.drop_last()) + one.last());
            assert(full_backup::joined(one) =~= start.waiting[0]);
            let front = full_backup::joined(start.published);
            let rest = full_backup::joined(start.waiting.drop_first());
            assert(front + bytes@ + rest + start.open =~= front + (bytes@ + rest) + start.open);
        }
        match added {
            Some(page) => {
                self.phase = Phase::Paging;
                Ok(Some(page))
            },
            None => Ok(None),
        }
    }

    /// Every chunk of the resident state was published; its last page, if one is open,
    /// is published next.
    pub fn stream_ended(&mut self) -> (page: Option<BackupPage>)
        requires
            old(self).well_formed(),
            old(self)@.phase is Streaming,
            old(self)@.resident is Some,
            old(self)@.waiting.len() == 0,
        ensures
            final(self).well_formed(),
            match page {
                None => old(self)@.pages.chunks.len() == 0 && final(self)@ == (PublicationView {
                    ended: true,
                    phase: Phase::Paged,
                    ..old(self)@
                }),
                Some(page) => old(self)@.pages.chunks.len() > 0 && full_backup::is_open_page(
                    old(self)@.pages,
                    page,
                ) && final(self)@ == (PublicationView {
                    pages: PagesView { chunks: Seq::empty(), ..old(self)@.pages },
                    ended: true,
                    phase: Phase::Paging,
                    ..old(self)@
                }),
            },
    {
        self.ended = true;
        match self.pages.remainder() {
            None => {
                self.phase = Phase::Paged;
                None
            },
            Some(page) => {
                self.phase = Phase::Paging;
                Some(page)
            },
        }
    }

    /// The page was published.
    pub fn page_published(&mut self, page: PageRef)
        requires
            old(self).well_formed(),
            old(self)@.phase is Paging,
            old(self)@.pages.page_count < u64::MAX,
        ensures
            final(self).well_formed(),
            final(self)@ == (PublicationView {
                pages: PagesView {
                    page_count: (old(self)@.pages.page_count + 1) as u64,
                    last_page: Some(page),
                    ..old(self)@.pages
                },
                phase: if old(self)@.ended {
                    Phase::Paged
                } else {
                    Phase::Streaming
                },
                ..old(self)@
            }),
    {
        self.pages.published(page);
        if self.ended {
            self.phase = Phase::Paged;
        } else {
            self.phase = Phase::Streaming;
        }
    }

    /// Makes the manifest of what is paged: of a resident state that is all of the
    /// published chunks, with its length and its digest. `formed` says whether the
    /// manifest is of the form of one.
    pub fn seal(&mut self, formed: bool) -> (r: Result<(), Error>)
        requires
            old(self).well_formed(),
            old(self)@.phase is Paged,
        ensures
            final(self).well_formed(),
            full_backup::joined(old(self)@.published) == old(self)@.streamed,
            old(self)@.pages.chunk_count == old(self)@.published.len(),
            match manifest_of(
                old(self)@.intent,
                old(self)@.pages,
                old(self)@.streamed.len() as u64,
                digest::digest_of(old(self)@.streamed),
            ) {
                Err(e) => r == Err::<(), Error>(e) && final(self)@ == old(self)@,
                Ok(manifest) => if !formed {
                    r == Err::<(), Error>(
                        errors::refusal(ErrorCode::Corruption, "backup manifest invalid"),
                    ) && final(self)@ == old(self)@
                } else {
                    &&& r == Ok::<(), Error>(())
                    &&& final(self)@.phase matches Phase::Copying(sealed, position)
                    &&& sealed == manifest
                    &&& sealed.resident_bytes == old(self)@.streamed.len()
                    &&& position.at() == 0
                    &&& position.done() == 0
                    &&& final(self)@ == (PublicationView {
                        phase: final(self)@.phase,
                        ..old(self)@
                    })
                },
            },
    {
        proof {
            assert(self@.open =~= Seq::empty());
            assert(self@.waiting =~= Seq::empty());
            assert(full_backup::joined(self@.published) + Seq::<u8>::empty() + Seq::<u8>::empty()
                =~= full_backup::joined(self@.published));
        }
        let (resident_bytes, resident_sha256): (u64, Digest) = match &self.resident {
            Resident::Finished(bytes, sha256) => (*bytes, *sha256),
            Resident::Open(_) => return Ok(()),
        };
        match self.pages.manifest(
            self.intent.tenant,
            self.intent.source_incarnation,
            self.intent.revision,
            resident_bytes,
            resident_sha256,
        ) {
            Err(e) => Err(e),
            Ok(manifest) => {
                if !formed {
                    return Err(error(ErrorCode::Corruption, "backup manifest invalid"));
                }
                self.phase = Phase::Copying(manifest, CopyPosition::start());
                Ok(())
            },
        }
    }

    /// What the manifest will say of the resident state, once it has come to its end.
    pub fn resident(&self) -> (r: Option<(u64, Digest)>)
        requires
            self.well_formed(),
        ensures
            r == self@.resident,
            r is Some ==> r == Some(
                (self@.streamed.len() as u64, digest::digest_of(self@.streamed)),
            ),
    {
        match &self.resident {
            Resident::Finished(bytes, sha256) => Some((*bytes, *sha256)),
            Resident::Open(_) => None,
        }
    }

    /// Whether the archives are copied, up to a position among them.
    pub open spec fn copying(self, archives: Seq<RetainedView>) -> bool {
        self@.phase matches Phase::Copying(_, position) && position.within(archives)
    }

    pub open spec fn sealed(self) -> FullManifest {
        self@.phase->Copying_0
    }

    pub open spec fn position(self) -> CopyPosition {
        self@.phase->Copying_1
    }

    /// What is copied next. The root comes when there is nothing left.
    pub fn copy_step(&self, state: &HistoryState, max_manifest_bytes: u64) -> (step: CopyStep)
        requires
            self.copying(state@.archives),
        ensures
            step == self.position().step_at(state@.archives, max_manifest_bytes),
    {
        match self.phase {
            Phase::Copying(_, position) => position.step(state, max_manifest_bytes),
            _ => CopyStep::Root,
        }
    }

    /// The manifest of an archive was copied.
    pub fn manifest_copied(&mut self, state: &HistoryState, stored: &Manifest) -> (r: Result<(), Error>)
        requires
            old(self).copying(state@.archives),
            old(self).position().at() < state@.archives.len(),
            old(self).position().done() == 0,
        ensures
            if stored@ != state@.archives[old(self).position().at()].manifest {
                r == Err::<(), Error>(
                    errors::refusal(ErrorCode::Corruption, "backup history catalog differs"),
                ) && final(self)@ == old(self)@
            } else {
                &&& r == Ok::<(), Error>(())
                &&& final(self).copying(state@.archives)
                &&& final(self).sealed() == old(self).sealed()
                &&& old(self).position().follows(state@.archives, final(self).position())
                &&& final(self)@ == (PublicationView { phase: final(self)@.phase, ..old(self)@ })
            },
            old(self).well_formed() ==> final(self).well_formed(),
    {
        match self.phase {
            Phase::Copying(manifest, position) => {
                let next = position.manifest_copied(state, stored)?;
                self.phase = Phase::Copying(manifest, next);
            },
            _ => {},
        }
        Ok(())
    }

    /// A chunk of an archive was copied.
    pub fn chunk_copied(&mut self, state: &HistoryState, plaintext: &Vec<u8>) -> (r: Result<(), Error>)
        requires
            old(self).copying(state@.archives),
            old(self).position().at() < state@.archives.len(),
            old(self).position().done() > 0,
        ensures
            ({
                let position = old(self).position();
                let chunk = state@.archives[position.at()].manifest.chunks[position.done() - 1];
                if plaintext@.len() != chunk.plaintext_bytes || digest::digest_of(plaintext@)
                    != chunk.plaintext_sha256 {
                    r == Err::<(), Error>(
                        errors::refusal(ErrorCode::Corruption, "backup history plaintext differs"),
                    ) && final(self)@ == old(self)@
                } else {
                    &&& r == Ok::<(), Error>(())
                    &&& final(self).copying(state@.archives)
                    &&& final(self).sealed() == old(self).sealed()
                    &&& position.follows(state@.archives, final(self).position())
                    &&& final(self)@ == (PublicationView {
                        phase: final(self)@.phase,
                        ..old(self)@
                    })
                }
            }),
            old(self).well_formed() ==> final(self).well_formed(),
    {
        match self.phase {
            Phase::Copying(manifest, position) => {
                let next = position.chunk_copied(state, plaintext)?;
                self.phase = Phase::Copying(manifest, next);
            },
            _ => {},
        }
        Ok(())
    }

    pub open spec fn root_of(self, archives: Seq<RetainedView>) -> Option<FullManifest> {
        match self@.phase {
            Phase::Copying(manifest, position) => if position.at() >= archives.len() {
                Some(manifest)
            } else {
                None
            },
            _ => None,
        }
    }

    /// The manifest that the root is published of, once everything is copied.
    pub fn root_manifest(&self, state: &HistoryState) -> (manifest: Option<FullManifest>)
        ensures
            manifest == self.root_of(state@.archives),
    {
        match self.phase {
            Phase::Copying(manifest, position) => {
                if position.finished(state) {
                    Some(manifest)
                } else {
                    None
                }
            },
            _ => None,
        }
    }

    /// What the backup is known by, once its root was published.
    pub fn root_published(
        &self,
        state: &HistoryState,
        backup_id: u128,
        manifest_ciphertext_sha256: Digest,
    ) -> (root: Option<PublishedRoot>)
        ensures
            root == match self.root_of(state@.archives) {
                None => None::<PublishedRoot>,
                Some(manifest) => Some(
                    PublishedRoot {
                        tenant: manifest.tenant,
                        source_incarnation: manifest.source_incarnation,
                        revision: manifest.revision,
                        resident_sha256: manifest.resident_sha256,
                        backup_id,
                        manifest_ciphertext_sha256,
                    },
                ),
            },
    {
        match self.root_manifest(state) {
            None => None,
            Some(manifest) => Some(
                PublishedRoot::of(&manifest, backup_id, manifest_ciphertext_sha256),
            ),
        }
    }
}

// ---------------------------------------------------------------------
// What is paged
// ---------------------------------------------------------------------

/// The chunks of the pages, one page behind the other.
pub open spec fn chunks_of(pages: Seq<BackupPage>) -> Seq<BackupChunk>
    decreases pages.len(),
{
    if pages.len() == 0 {
        Seq::empty()
    } else {
        chunks_of(pages.drop_last()) + pages.last().chunks@
    }
}

/// Whether the pages so far hold every chunk so far, in order: those that are handed
/// out, and behind them the open one.
pub open spec fn paged(chunks: Seq<BackupChunk>, pages: Seq<BackupPage>, open: PagesView) -> bool {
    chunks == chunks_of(pages) + open.chunks && open.chunk_count == chunks.len()
}

/// No chunk is left out of the pages, and none stands in them twice: a chunk that is
/// added stands behind all others, in the open page or in the page that it fills;
/// and the last page holds all that is open.
pub proof fn lemma_every_chunk_paged(
    chunks: Seq<BackupChunk>,
    pages: Seq<BackupPage>,
    open: PagesView,
    chunk: BackupChunk,
    page: BackupPage,
)
    requires
        paged(chunks, pages, open),
        open.chunk_count < u64::MAX,
    ensures
        ({
            let (next, full) = with_chunk(open, chunk);
            if full {
                full_backup::is_open_page(
                    PagesView { chunks: open.chunks.push(chunk), ..open },
                    page,
                ) ==> paged(chunks.push(chunk), pages.push(page), next)
            } else {
                paged(chunks.push(chunk), pages, next)
            }
        }),
        full_backup::is_open_page(open, page) ==> paged(
            chunks,
            pages.push(page),
            PagesView { chunks: Seq::empty(), ..open },
        ),
{
    let (next, full) = with_chunk(open, chunk);
    assert(pages.push(page).drop_last() =~= pages);
    assert(chunks_of(pages.push(page)) == chunks_of(pages) + page.chunks@);
    assert((chunks_of(pages) + open.chunks).push(chunk) =~= chunks_of(pages) + open.chunks.push(
        chunk,
    ));
    assert(chunks_of(pages) + page.chunks@ + Seq::<BackupChunk>::empty() =~= chunks_of(pages)
        + page.chunks@);
}

} // verus!
