//! Streams one coherent resident generation in chunks, pages the chunks that were
//! published, and publishes the manifest of the whole last.
use vstd::prelude::*;

use crate::digest;
use crate::digest::{absorb, digest, finalized, hasher, Digest, Hasher, Name};
use crate::errors;
use crate::errors::{error, Error, ErrorCode};
use crate::history_model::{Descriptor, Manifest, Retained};
use crate::history_state::same_manifest;
use crate::texts::same;

verus! {

// ---------------------------------------------------------------------
// The stream
// ---------------------------------------------------------------------

/// The bytes of the chunks, one behind the other.
pub open spec fn joined(chunks: Seq<Seq<u8>>) -> Seq<u8>
    decreases chunks.len(),
{
    if chunks.len() == 0 {
        Seq::empty()
    } else {
        joined(chunks.drop_last()) + chunks.last()
    }
}

pub open spec fn chunks_view(chunks: Seq<Vec<u8>>) -> Seq<Seq<u8>> {
    Seq::new(chunks.len(), |i: int| chunks[i]@)
}

/// Whether every chunk is full.
pub open spec fn all_full(chunks: Seq<Seq<u8>>, chunk_bytes: nat) -> bool {
    forall|i: int| 0 <= i < chunks.len() ==> (#[trigger] chunks[i]).len() == chunk_bytes
}

proof fn lemma_joined_push(chunks: Seq<Seq<u8>>, chunk: Seq<u8>)
    ensures
        joined(chunks.push(chunk)) == joined(chunks) + chunk,
{
    assert(chunks.push(chunk).drop_last() =~= chunks);
}

/// The chunks of both, one behind the other, are those of the first and then those of
/// the second.
pub proof fn lemma_joined_both(front: Seq<Seq<u8>>, back: Seq<Seq<u8>>)
    ensures
        joined(front + back) == joined(front) + joined(back),
    decreases back.len(),
{
    if back.len() == 0 {
        assert(front + back =~= front);
        assert(joined(front) + joined(back) =~= joined(front));
    } else {
        lemma_joined_both(front, back.drop_last());
        assert((front + back).drop_last() =~= front + back.drop_last());
        assert(joined(front) + joined(back) =~= joined(front) + joined(back.drop_last())
            + back.last());
    }
}

/// A stream of a state's bytes, hashed on its way and cut into chunks of one size.
pub struct StateStream {
    buffer: Vec<u8>,
    hash: Hasher,
    total: u64,
    limit: u64,
    chunk_bytes: usize,
}

impl StateStream {
    /// The open chunk is never full.
    #[verifier::type_invariant]
    spec fn open_chunk(self) -> bool {
        self.chunk_bytes > 0 && self.buffer@.len() < self.chunk_bytes
    }

    /// What stands in the open chunk.
    pub closed spec fn open(self) -> Seq<u8> {
        self.buffer@
    }

    /// What was written, from the first byte on.
    pub closed spec fn streamed(self) -> Seq<u8> {
        digest::absorbed(self.hash)
    }

    /// How many bytes were written.
    pub closed spec fn written(self) -> u64 {
        self.total
    }

    pub closed spec fn bound(self) -> u64 {
        self.limit
    }

    pub closed spec fn size(self) -> nat {
        self.chunk_bytes as nat
    }

    /// A stream of at most `limit` bytes, in chunks of `chunk_bytes`.
    pub fn new(limit: u64, chunk_bytes: usize) -> (stream: Self)
        requires
            chunk_bytes > 0,
        ensures
            stream.open() == Seq::<u8>::empty(),
            stream.streamed() == Seq::<u8>::empty(),
            stream.written() == 0,
            stream.bound() == limit,
            stream.size() == chunk_bytes,
    {
        StateStream { buffer: Vec::new(), hash: hasher(), total: 0, limit, chunk_bytes }
    }

    /// Writes bytes, and answers the chunks that they filled, in order. A write
    /// beyond the limit writes nothing.
    pub fn write(&mut self, bytes: &Vec<u8>) -> (r: Result<Vec<Vec<u8>>, Error>)
        ensures
            final(self).bound() == old(self).bound(),
            final(self).size() == old(self).size(),
            if old(self).written() + bytes.len() > old(self).bound() {
                r == Err::<Vec<Vec<u8>>, Error>(
                    errors::refusal(
                        ErrorCode::Unavailable,
                        "backup resident state exceeds format limit",
                    ),
                ) && final(self).open() == old(self).open() && final(self).written() == old(
                    self,
                ).written() && final(self).streamed() == old(self).streamed()
            } else {
                &&& r is Ok
                &&& final(self).streamed() == old(self).streamed() + bytes@
                &&& final(self).written() == old(self).written() + bytes.len()
                &&& all_full(chunks_view(r->Ok_0@), final(self).size())
                &&& final(self).open().len() < final(self).size()
                &&& joined(chunks_view(r->Ok_0@)) + final(self).open() == old(self).open() + bytes@
            },
    {
        proof {
            use_type_invariant(&*self);
        }
        let total: u64 = match self.total.checked_add(bytes.len() as u64) {
            None => return Err(
                error(ErrorCode::Unavailable, "backup resident state exceeds format limit"),
            ),
            Some(total) => total,
        };
        if total > self.limit {
            return Err(
                error(ErrorCode::Unavailable, "backup resident state exceeds format limit"),
            );
        }
        let size: usize = self.chunk_bytes;
        let limit: u64 = self.limit;
        let ghost start = self.buffer@;
        let mut hash = hasher();
        std::mem::swap(&mut hash, &mut self.hash);
        absorb(&mut hash, bytes);
        let mut open: Vec<u8> = Vec::new();
        std::mem::swap(&mut open, &mut self.buffer);
        let mut chunks: Vec<Vec<u8>> = Vec::new();
        let mut i: usize = 0;
        proof {
            assert(chunks_view(chunks@) =~= Seq::empty());
            assert(joined(chunks_view(chunks@)) + open@ =~= start + bytes@.take(0));
        }
        while i < bytes.len()
            invariant
                i <= bytes.len(),
                size > 0,
                open@.len() < size,
                all_full(chunks_view(chunks@), size as nat),
                joined(chunks_view(chunks@)) + open@ == start + bytes@.take(i as int),
            decreases bytes.len() - i,
        {
            let ghost held = open@;
            open.push(bytes[i]);
            assert(bytes@.take(i + 1) =~= bytes@.take(i as int).push(bytes@[i as int]));
            proof {
                let front = joined(chunks_view(chunks@));
                assert(front + open@ =~= (front + held).push(bytes@[i as int]));
                assert((start + bytes@.take(i as int)).push(bytes@[i as int]) =~= start
                    + bytes@.take(i + 1));
            }
            if open.len() == size {
                let mut full: Vec<u8> = Vec::new();
                std::mem::swap(&mut open, &mut full);
                let ghost before = chunks@;
                let ghost filled = full@;
                chunks.push(full);
                proof {
                    assert(chunks_view(chunks@) =~= chunks_view(before).push(filled));
                    lemma_joined_push(chunks_view(before), filled);
                    assert(joined(chunks_view(chunks@)) + open@ =~= start + bytes@.take(i + 1));
                    assert forall|k: int| 0 <= k < chunks_view(chunks@).len() implies (
                    #[trigger] chunks_view(chunks@)[k]).len() == size by {
                        if k < before.len() {
                            assert(chunks_view(before)[k].len() == size);
                        }
                    }
                }
            }
            i = i + 1;
        }
        assert(bytes@.take(bytes@.len() as int) =~= bytes@);
        *self = StateStream { buffer: open, hash, total, limit, chunk_bytes: size };
        Ok(chunks)
    }

    /// How many bytes were written in all, the digest of all of them, and the last
    /// chunk unless it is empty.
    pub fn finish(self) -> (r: (u64, Digest, Option<Vec<u8>>))
        ensures
            r.0 == self.written(),
            r.1 == digest::digest_of(self.streamed()),
            match r.2 {
                None => self.open().len() == 0,
                Some(chunk) => chunk@ == self.open() && chunk@.len() > 0,
            },
    {
        let StateStream { buffer, hash, total, limit: _, chunk_bytes: _ } = self;
        let halves = finalized(hash);
        let sha256 = Digest { high: halves.0, low: halves.1 };
        if buffer.len() == 0 {
            return (total, sha256, None);
        }
        (total, sha256, Some(buffer))
    }
}

// ---------------------------------------------------------------------
// Pages
// ---------------------------------------------------------------------

/// A published chunk.
#[derive(Clone, Copy, Debug, PartialEq, Eq, Structural)]
pub struct BackupChunk {
    pub object_id: u128,
    pub ciphertext_sha256: Digest,
    pub plaintext_sha256: Digest,
    pub plaintext_bytes: u64,
}

/// A published page.
#[derive(Clone, Copy, Debug, PartialEq, Eq, Structural)]
pub struct PageRef {
    pub object_id: u128,
    pub ciphertext_sha256: Digest,
}

/// A page of chunks, chained to the page before it.
pub struct BackupPage {
    pub index: u64,
    pub previous: Option<PageRef>,
    pub chunks: Vec<BackupChunk>,
}

/// What is paged so far. A page that is full is published before the next chunk.
pub struct Pages {
    chunks: Vec<BackupChunk>,
    chunk_count: u64,
    page_count: u64,
    last_page: Option<PageRef>,
    page_chunks: usize,
}

pub struct PagesView {
    pub chunks: Seq<BackupChunk>,
    pub chunk_count: u64,
    pub page_count: u64,
    pub last_page: Option<PageRef>,
    pub page_chunks: nat,
}

impl View for Pages {
    type V = PagesView;

    closed spec fn view(&self) -> PagesView {
        PagesView {
            chunks: self.chunks@,
            chunk_count: self.chunk_count,
            page_count: self.page_count,
            last_page: self.last_page,
            page_chunks: self.page_chunks as nat,
        }
    }
}

/// The page that the open chunks make up.
pub open spec fn is_open_page(pages: PagesView, page: BackupPage) -> bool {
    page.index == pages.page_count && page.previous == pages.last_page && page.chunks@
        == pages.chunks
}

impl Pages {
    #[verifier::type_invariant]
    spec fn open_page(self) -> bool {
        self.page_chunks > 0 && self.chunks@.len() < self.page_chunks
    }

    /// No pages yet, of `page_chunks` chunks each.
    pub fn new(page_chunks: usize) -> (pages: Self)
        requires
            page_chunks > 0,
        ensures
            pages@ == (PagesView {
                chunks: Seq::empty(),
                chunk_count: 0,
                page_count: 0,
                last_page: None,
                page_chunks: page_chunks as nat,
            }),
    {
        let pages = Pages {
            chunks: Vec::new(),
            chunk_count: 0,
            page_count: 0,
            last_page: None,
            page_chunks,
        };
        assert(pages@.chunks =~= Seq::empty());
        pages
    }

    /// Adds a published chunk, and answers the page that it fills, which is then to
    /// be published and noted.
    pub fn add(&mut self, chunk: BackupChunk) -> (r: Result<Option<BackupPage>, Error>)
        ensures
            final(self)@.page_chunks == old(self)@.page_chunks,
            final(self)@.last_page == old(self)@.last_page,
            final(self)@.page_count == old(self)@.page_count,
            if old(self)@.chunk_count == u64::MAX {
                r == Err::<Option<BackupPage>, Error>(
                    errors::refusal(ErrorCode::Corruption, "backup chunk overflow"),
                ) && final(self)@ == old(self)@
            } else {
                let grown = old(self)@.chunks.push(chunk);
                &&& final(self)@.chunk_count == old(self)@.chunk_count + 1
                &&& if grown.len() == old(self)@.page_chunks {
                    &&& final(self)@.chunks == Seq::<BackupChunk>::empty()
                    &&& r matches Ok(Some(page)) && is_open_page(
                        PagesView { chunks: grown, ..old(self)@ },
                        page,
                    )
                } else {
                    &&& final(self)@.chunks == grown
                    &&& r matches Ok(None)
                }
            },
    {
        proof {
            use_type_invariant(&*self);
        }
        let chunk_count: u64 = match self.chunk_count.checked_add(1) {
            None => return Err(error(ErrorCode::Corruption, "backup chunk overflow")),
            Some(count) => count,
        };
        let mut chunks: Vec<BackupChunk> = Vec::new();
        std::mem::swap(&mut chunks, &mut self.chunks);
        chunks.push(chunk);
        self.chunk_count = chunk_count;
        if chunks.len() == self.page_chunks {
            assert(self@.chunks =~= Seq::<BackupChunk>::empty());
            return Ok(
                Some(BackupPage { index: self.page_count, previous: self.last_page, chunks }),
            );
        }
        self.chunks = chunks;
        Ok(None)
    }

    /// Notes the page that was published last.
    pub fn published(&mut self, page: PageRef)
        requires
            old(self)@.page_count < u64::MAX,
        ensures
            final(self)@ == (PagesView {
                page_count: (old(self)@.page_count + 1) as u64,
                last_page: Some(page),
                ..old(self)@
            }),
    {
        proof {
            use_type_invariant(&*self);
        }
        self.page_count = self.page_count + 1;
        self.last_page = Some(page);
    }

    /// The last page, unless no chunk is open.
    pub fn remainder(&mut self) -> (page: Option<BackupPage>)
        ensures
            match page {
                None => old(self)@.chunks.len() == 0 && final(self)@ == old(self)@,
                Some(page) => old(self)@.chunks.len() > 0 && is_open_page(old(self)@, page)
                    && final(self)@ == (PagesView { chunks: Seq::empty(), ..old(self)@ }),
            },
    {
        proof {
            use_type_invariant(&*self);
        }
        if self.chunks.len() == 0 {
            return None;
        }
        let mut chunks: Vec<BackupChunk> = Vec::new();
        std::mem::swap(&mut chunks, &mut self.chunks);
        assert(self@.chunks =~= Seq::<BackupChunk>::empty());
        Some(BackupPage { index: self.page_count, previous: self.last_page, chunks })
    }

    /// The manifest of the whole, whose pages are published.
    pub fn manifest(
        &self,
        tenant: Name,
        source_incarnation: u128,
        revision: u64,
        resident_bytes: u64,
        resident_sha256: Digest,
    ) -> (r: Result<FullManifest, Error>)
        ensures
            r == match self@.last_page {
                None => Err(
                    errors::refusal(ErrorCode::Corruption, "backup manifest pages missing"),
                ),
                Some(last_page) => Ok(
                    FullManifest {
                        tenant,
                        source_incarnation,
                        revision,
                        resident_bytes,
                        resident_sha256,
                        chunk_count: self@.chunk_count,
                        page_count: self@.page_count,
                        last_page,
                    },
                ),
            },
    {
        match self.last_page {
            None => Err(error(ErrorCode::Corruption, "backup manifest pages missing")),
            Some(last_page) => Ok(
                FullManifest {
                    tenant,
                    source_incarnation,
                    revision,
                    resident_bytes,
                    resident_sha256,
                    chunk_count: self.chunk_count,
                    page_count: self.page_count,
                    last_page,
                },
            ),
        }
    }
}

/// The manifest of a full backup.
#[derive(Clone, Copy, Debug, PartialEq, Eq, Structural)]
pub struct FullManifest {
    pub tenant: Name,
    pub source_incarnation: u128,
    pub revision: u64,
    pub resident_bytes: u64,
    pub resident_sha256: Digest,
    pub chunk_count: u64,
    pub page_count: u64,
    pub last_page: PageRef,
}

// ---------------------------------------------------------------------
// Publication
// ---------------------------------------------------------------------

/// What a backup session is opened for.
#[derive(Clone, Copy, Debug, PartialEq, Eq, Structural)]
pub struct SessionIntent {
    pub session_id: u128,
    pub tenant: Name,
    pub source_incarnation: u128,
    pub revision: u64,
    pub principal: Name,
    pub request_id: Name,
}

/// Whether a session that was read back is the intended one, and still open.
pub open spec fn session_checked(
    intent: SessionIntent,
    read_back: Option<(SessionIntent, bool)>,
) -> Result<(), Error> {
    match read_back {
        None => Err(
            errors::refusal(ErrorCode::UnknownOutcome, "backup intent readback unavailable"),
        ),
        Some((session, resolved)) => if session != intent || resolved {
            Err(
                errors::refusal(
                    ErrorCode::Conflict,
                    "backup session was concurrently resolved or names another capture",
                ),
            )
        } else {
            Ok(())
        },
    }
}

/// Whether a session that was read back is this one, and still open. `read_back`
/// holds its intent, and whether it was resolved.
pub fn check_session(intent: &SessionIntent, read_back: Option<(SessionIntent, bool)>) -> (r: Result<
    (),
    Error,
>)
    ensures
        r == session_checked(*intent, read_back),
{
    match read_back {
        None => Err(error(ErrorCode::UnknownOutcome, "backup intent readback unavailable")),
        Some((session, resolved)) => {
            if session != *intent || resolved {
                return Err(
                    error(
                        ErrorCode::Conflict,
                        "backup session was concurrently resolved or names another capture",
                    ),
                );
            }
            Ok(())
        },
    }
}

/// Whether the manifest of an archive that was copied is the committed one.
pub fn check_archive(archive: &Retained, stored: &Manifest) -> (r: Result<(), Error>)
    ensures
        r == if stored@ != archive@.manifest {
            Err(errors::refusal(ErrorCode::Corruption, "backup history catalog differs"))
        } else {
            Ok(())
        },
{
    if !same_manifest(stored, &archive.manifest) {
        return Err(error(ErrorCode::Corruption, "backup history catalog differs"));
    }
    Ok(())
}

/// Whether the plaintext of a chunk that was copied is the described one.
pub fn check_archive_chunk(descriptor: &Descriptor, plaintext: &Vec<u8>) -> (r: Result<(), Error>)
    ensures
        r == if plaintext@.len() != descriptor.plaintext_bytes || digest::digest_of(plaintext@)
            != descriptor.plaintext_sha256 {
            Err(errors::refusal(ErrorCode::Corruption, "backup history plaintext differs"))
        } else {
            Ok(())
        },
{
    let actual = digest(plaintext);
    if plaintext.len() as u64 != descriptor.plaintext_bytes || actual
        != descriptor.plaintext_sha256 {
        return Err(error(ErrorCode::Corruption, "backup history plaintext differs"));
    }
    Ok(())
}

/// Whether the source of a copy still holds the published object.
pub fn check_source(ciphertext: &Vec<u8>, ciphertext_sha256: Digest) -> (r: Result<(), Error>)
    ensures
        r == if digest::digest_of(ciphertext@) != ciphertext_sha256 {
            Err(errors::refusal(ErrorCode::Corruption, "backup history source changed"))
        } else {
            Ok(())
        },
{
    let actual = digest(ciphertext);
    if actual != ciphertext_sha256 {
        return Err(error(ErrorCode::Corruption, "backup history source changed"));
    }
    Ok(())
}

/// Whether a copy holds what its source does.
pub fn check_copied(verified: &Vec<u8>, copied: &Vec<u8>) -> (r: Result<(), Error>)
    ensures
        r == if copied@ != verified@ {
            Err(errors::refusal(ErrorCode::Corruption, "backup history destination differs"))
        } else {
            Ok(())
        },
{
    if !same(copied, verified) {
        return Err(error(ErrorCode::Corruption, "backup history destination differs"));
    }
    Ok(())
}

/// What was published. It proves nothing: only the complete authenticated readback
/// of the graph can make a checkpoint.
#[derive(Clone, Copy, Debug, PartialEq, Eq, Structural)]
pub struct PublishedRoot {
    pub tenant: Name,
    pub source_incarnation: u128,
    pub revision: u64,
    pub resident_sha256: Digest,
    pub backup_id: u128,
    pub manifest_ciphertext_sha256: Digest,
}

/// A verified checkpoint of a full backup.
#[derive(Clone, Copy, Debug, PartialEq, Eq, Structural)]
pub struct FullCheckpoint {
    pub root: PublishedRoot,
    /// The checkpoint's own digest.
    pub sha256: Digest,
}

impl PublishedRoot {
    /// What a published manifest is known by.
    pub fn of(manifest: &FullManifest, backup_id: u128, manifest_ciphertext_sha256: Digest) -> (root:
        Self)
        ensures
            root == (PublishedRoot {
                tenant: manifest.tenant,
                source_incarnation: manifest.source_incarnation,
                revision: manifest.revision,
                resident_sha256: manifest.resident_sha256,
                backup_id,
                manifest_ciphertext_sha256,
            }),
    {
        PublishedRoot {
            tenant: manifest.tenant,
            source_incarnation: manifest.source_incarnation,
            revision: manifest.revision,
            resident_sha256: manifest.resident_sha256,
            backup_id,
            manifest_ciphertext_sha256,
        }
    }

    /// Whether a checkpoint is of this publication.
    pub fn matches(&self, checkpoint: &FullCheckpoint) -> (b: bool)
        ensures
            b == (*self == checkpoint.root),
    {
        *self == checkpoint.root
    }
}

} // verus!
