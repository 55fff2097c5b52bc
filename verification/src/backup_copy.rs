//! The archives that a full backup depends on: every manifest and every chunk is
//! copied and compared, one after the other, before the backup's root is published.
use vstd::prelude::*;

use crate::digest;
use crate::digest::{Digest, Name};
use crate::errors;
use crate::errors::{Error, ErrorCode};
use crate::full_backup::{check_archive, check_archive_chunk};
use crate::history_model::{HistoryState, Manifest, RetainedView};

verus! {

/// How far the copy is: the archive, and of it the manifest or the chunk behind so
/// many.
#[derive(Clone, Copy, Debug, PartialEq, Eq, Structural)]
pub struct CopyPosition {
    archive: usize,
    item: usize,
}

/// An object that is copied as it stands.
#[derive(Clone, Copy, Debug, PartialEq, Eq, Structural)]
pub struct Dependency {
    pub source: Name,
    /// The backup session whose objects the source is narrowed to, if any.
    pub session: Option<u128>,
    pub object_id: u128,
    pub ciphertext_sha256: Digest,
    pub max_plaintext_bytes: u64,
}

/// What is copied next.
#[derive(Clone, Copy, Debug, PartialEq, Eq, Structural)]
pub enum CopyStep {
    Manifest(Dependency),
    Chunk(Dependency),
    /// Everything is copied: the root is published.
    Root,
}

pub open spec fn manifest_of(archive: RetainedView, max_manifest_bytes: u64) -> CopyStep {
    CopyStep::Manifest(
        Dependency {
            source: archive.storage_destination,
            session: archive.storage_backup_session,
            object_id: archive.manifest_object_id,
            ciphertext_sha256: archive.manifest_ciphertext_sha256,
            max_plaintext_bytes: max_manifest_bytes,
        },
    )
}

pub open spec fn chunk_of(archive: RetainedView, i: int) -> CopyStep {
    CopyStep::Chunk(
        Dependency {
            source: archive.storage_destination,
            session: archive.storage_backup_session,
            object_id: archive.manifest.chunks[i].object_id,
            ciphertext_sha256: archive.manifest.chunks[i].ciphertext_sha256,
            max_plaintext_bytes: archive.manifest.chunks[i].plaintext_bytes,
        },
    )
}

/// What is copied of one archive: its manifest, and then its chunks.
pub open spec fn copies_of(archive: RetainedView, max_manifest_bytes: u64) -> Seq<CopyStep> {
    Seq::new(
        archive.manifest.chunks.len() + 1,
        |i: int|
            if i == 0 {
                manifest_of(archive, max_manifest_bytes)
            } else {
                chunk_of(archive, i - 1)
            },
    )
}

/// What is copied of the first `n` archives.
pub open spec fn copies(archives: Seq<RetainedView>, max_manifest_bytes: u64, n: int) -> Seq<CopyStep>
    decreases n,
{
    if n <= 0 {
        Seq::empty()
    } else {
        copies(archives, max_manifest_bytes, n - 1) + copies_of(archives[n - 1], max_manifest_bytes)
    }
}

impl CopyPosition {
    pub closed spec fn at(self) -> int {
        self.archive as int
    }

    /// How many of the archive's objects are copied.
    pub closed spec fn done(self) -> int {
        self.item as int
    }

    /// Whether the position stands before an object of the archives, or behind all of
    /// them.
    pub open spec fn within(self, archives: Seq<RetainedView>) -> bool {
        if self.at() < archives.len() {
            0 <= self.at() && 0 <= self.done() <= archives[self.at()].manifest.chunks.len()
        } else {
            self.at() == archives.len() && self.done() == 0
        }
    }

    /// How many objects are copied in all.
    pub open spec fn copied(self, archives: Seq<RetainedView>, max_manifest_bytes: u64) -> int {
        copies(archives, max_manifest_bytes, self.at()).len() + self.done()
    }

    pub open spec fn step_at(self, archives: Seq<RetainedView>, max_manifest_bytes: u64) -> CopyStep {
        if self.at() >= archives.len() {
            CopyStep::Root
        } else if self.done() == 0 {
            manifest_of(archives[self.at()], max_manifest_bytes)
        } else {
            chunk_of(archives[self.at()], self.done() - 1)
        }
    }

    /// The position behind the object that this one stands before.
    pub open spec fn follows(self, archives: Seq<RetainedView>, next: CopyPosition) -> bool {
        if self.done() < archives[self.at()].manifest.chunks.len() {
            next.at() == self.at() && next.done() == self.done() + 1
        } else {
            next.at() == self.at() + 1 && next.done() == 0
        }
    }

    /// Before the first object.
    pub fn start() -> (position: Self)
        ensures
            position.at() == 0,
            position.done() == 0,
    {
        CopyPosition { archive: 0, item: 0 }
    }

    /// What is copied next.
    pub fn step(&self, state: &HistoryState, max_manifest_bytes: u64) -> (step: CopyStep)
        requires
            self.within(state@.archives),
        ensures
            step == self.step_at(state@.archives, max_manifest_bytes),
    {
        if self.archive >= state.archives.len() {
            return CopyStep::Root;
        }
        let archive = &state.archives[self.archive];
        assert(state@.archives[self.archive as int] == archive@);
        if self.item == 0 {
            return CopyStep::Manifest(
                Dependency {
                    source: archive.storage_destination,
                    session: archive.storage_backup_session,
                    object_id: archive.manifest_object_id,
                    ciphertext_sha256: archive.manifest_ciphertext_sha256,
                    max_plaintext_bytes: max_manifest_bytes,
                },
            );
        }
        let descriptor = &archive.manifest.chunks[self.item - 1];
        assert(archive@.manifest.chunks[self.item - 1] == descriptor@);
        CopyStep::Chunk(
            Dependency {
                source: archive.storage_destination,
                session: archive.storage_backup_session,
                object_id: descriptor.object_id,
                ciphertext_sha256: descriptor.ciphertext_sha256,
                max_plaintext_bytes: descriptor.plaintext_bytes,
            },
        )
    }

    /// Whether everything is copied.
    pub fn finished(&self, state: &HistoryState) -> (b: bool)
        ensures
            b == (self.at() >= state@.archives.len()),
    {
        self.archive >= state.archives.len()
    }

    fn advanced(&self, state: &HistoryState) -> (next: Self)
        requires
            self.within(state@.archives),
            self.at() < state@.archives.len(),
        ensures
            next.within(state@.archives),
            self.follows(state@.archives, next),
    {
        assert(state@.archives[self.archive as int] == state.archives@[self.archive as int]@);
        let archives: usize = state.archives.len();
        assert(self.archive < archives);
        let chunks: usize = state.archives[self.archive].manifest.chunks.len();
        if self.item < chunks {
            CopyPosition { archive: self.archive, item: self.item + 1 }
        } else {
            CopyPosition { archive: self.archive + 1, item: 0 }
        }
    }

    /// The manifest was copied, and `stored` is what the copy holds.
    pub fn manifest_copied(&self, state: &HistoryState, stored: &Manifest) -> (r: Result<Self, Error>)
        requires
            self.within(state@.archives),
            self.at() < state@.archives.len(),
            self.done() == 0,
        ensures
            if stored@ != state@.archives[self.at()].manifest {
                r == Err::<Self, Error>(
                    errors::refusal(ErrorCode::Corruption, "backup history catalog differs"),
                )
            } else {
                r is Ok && r->Ok_0.within(state@.archives) && self.follows(
                    state@.archives,
                    r->Ok_0,
                )
            },
    {
        assert(state@.archives[self.archive as int] == state.archives@[self.archive as int]@);
        check_archive(&state.archives[self.archive], stored)?;
        Ok(self.advanced(state))
    }

    /// The chunk was copied, and `plaintext` is what the copy holds.
    pub fn chunk_copied(&self, state: &HistoryState, plaintext: &Vec<u8>) -> (r: Result<Self, Error>)
        requires
            self.within(state@.archives),
            self.at() < state@.archives.len(),
            self.done() > 0,
        ensures
            ({
                let chunk = state@.archives[self.at()].manifest.chunks[self.done() - 1];
                if plaintext@.len() != chunk.plaintext_bytes || digest::digest_of(plaintext@)
                    != chunk.plaintext_sha256 {
                    r == Err::<Self, Error>(
                        errors::refusal(ErrorCode::Corruption, "backup history plaintext differs"),
                    )
                } else {
                    r is Ok && r->Ok_0.within(state@.archives) && self.follows(
                        state@.archives,
                        r->Ok_0,
                    )
                }
            }),
    {
        let archive = &state.archives[self.archive];
        assert(state@.archives[self.archive as int] == archive@);
        let descriptor = &archive.manifest.chunks[self.item - 1];
        assert(archive@.manifest.chunks[self.item - 1] == descriptor@);
        check_archive_chunk(descriptor, plaintext)?;
        Ok(self.advanced(state))
    }
}

proof fn lemma_copies_before(archives: Seq<RetainedView>, max: u64, n: int, all: int, i: int)
    requires
        0 <= n <= all,
        0 <= i < copies(archives, max, n).len(),
    ensures
        copies(archives, max, n).len() <= copies(archives, max, all).len(),
        copies(archives, max, all)[i] == copies(archives, max, n)[i],
    decreases all - n,
{
    if n < all {
        let more = copies(archives, max, n) + copies_of(archives[n], max);
        assert(copies(archives, max, n + 1) == more);
        assert(more[i] == copies(archives, max, n)[i]);
        lemma_copies_before(archives, max, n + 1, all, i);
    }
}

/// The root is published behind every object of every archive, each of them copied
/// once and in order: a position stands before the object that the list of all of
/// them holds there, what follows it stands one further, and only behind the last
/// object comes the root.
pub proof fn lemma_root_last(
    archives: Seq<RetainedView>,
    max_manifest_bytes: u64,
    position: CopyPosition,
    next: CopyPosition,
)
    requires
        position.within(archives),
    ensures
        ({
            let all = copies(archives, max_manifest_bytes, archives.len() as int);
            let done = position.copied(archives, max_manifest_bytes);
            &&& 0 <= done <= all.len()
            &&& position.step_at(archives, max_manifest_bytes) is Root <==> done == all.len()
            &&& done < all.len() ==> position.step_at(archives, max_manifest_bytes) == all[done]
            &&& done < all.len() && position.follows(archives, next) ==> next.within(archives)
                && next.copied(archives, max_manifest_bytes) == done + 1
        }),
{
    let max = max_manifest_bytes;
    let all = copies(archives, max, archives.len() as int);
    let done = position.copied(archives, max);
    if position.at() < archives.len() {
        let at = position.at();
        let here = copies_of(archives[at], max);
        let upto = copies(archives, max, at + 1);
        assert(upto == copies(archives, max, at) + here);
        assert(upto[done] == here[position.done()]);
        lemma_copies_before(archives, max, at + 1, archives.len() as int, done);
    }
}

} // verus!
