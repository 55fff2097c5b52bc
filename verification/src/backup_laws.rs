//! What a full backup is made of: a session that is its own, pages that hold every chunk in
//! order, a manifest of all of them, and every object of every archive.
use vstd::prelude::*;

use crate::backup_copy;
use crate::backup_copy::{CopyPosition, CopyStep};
use crate::backup_publication;
use crate::digest;
use crate::digest::Digest;
use crate::errors;
use crate::errors::{Error, ErrorCode};
use crate::full_backup;
use crate::full_backup::{BackupChunk, FullManifest, PagesView, SessionIntent};
use crate::history_model::RetainedView;

verus! {

/// A session is taken exactly if it is read back, is the very one that was intended, and is
/// still open. One that cannot be read is unknown, never refused.
pub proof fn lemma_session(intent: SessionIntent, read_back: Option<(SessionIntent, bool)>)
    ensures
        full_backup::session_checked(intent, read_back) is Ok <==> read_back == Some(
            (intent, false),
        ),
        match full_backup::session_checked(intent, read_back) {
            Ok(()) => true,
            Err(e) => if read_back is None {
                e.code == ErrorCode::UnknownOutcome
            } else {
                e.code == ErrorCode::Conflict
            },
        },
{
}

/// A published chunk is known by where it was published and by what it holds.
pub proof fn lemma_chunk(bytes: Seq<u8>, object_id: u128, sha256: Digest)
    requires
        bytes.len() <= u64::MAX,
    ensures
        ({
            let chunk = backup_publication::chunk_of(bytes, object_id, sha256);
            &&& chunk.object_id == object_id
            &&& chunk.ciphertext_sha256 == sha256
            &&& chunk.plaintext_sha256 == digest::digest_of(bytes)
            &&& chunk.plaintext_bytes == bytes.len()
        }),
{
}

/// A chunk that is paged is counted, and stands last in the open page, or has filled it and
/// left it empty; a page is handed out exactly when it is full. What is published already
/// stays as it is.
pub proof fn lemma_paged(pages: PagesView, chunk: BackupChunk)
    requires
        pages.chunk_count < u64::MAX,
        pages.chunks.len() < pages.page_chunks,
    ensures
        ({
            let (after, full) = backup_publication::with_chunk(pages, chunk);
            &&& after.chunk_count == pages.chunk_count + 1
            &&& after.page_count == pages.page_count
            &&& after.last_page == pages.last_page
            &&& after.page_chunks == pages.page_chunks
            &&& full <==> pages.chunks.len() + 1 == pages.page_chunks
            &&& full ==> after.chunks.len() == 0
            &&& !full ==> {
                &&& after.chunks.len() == pages.chunks.len() + 1
                &&& after.chunks.last() == chunk
                &&& forall|i: int|
                    0 <= i < pages.chunks.len() ==> #[trigger] after.chunks[i] == pages.chunks[i]
            }
            &&& after.chunks.len() < after.page_chunks
        }),
{
}

/// A manifest is made exactly where a page was published, of the session's own tenant,
/// source and revision, with all that was paged and what the resident state came to.
pub proof fn lemma_manifest(
    intent: SessionIntent,
    pages: PagesView,
    resident_bytes: u64,
    resident_sha256: Digest,
)
    ensures
        match backup_publication::manifest_of(intent, pages, resident_bytes, resident_sha256) {
            Ok(m) => {
                &&& pages.last_page == Some(m.last_page)
                &&& m.tenant == intent.tenant
                &&& m.source_incarnation == intent.source_incarnation
                &&& m.revision == intent.revision
                &&& m.resident_bytes == resident_bytes
                &&& m.resident_sha256 == resident_sha256
                &&& m.chunk_count == pages.chunk_count
                &&& m.page_count == pages.page_count
            },
            Err(e) => pages.last_page is None && e.code == ErrorCode::Corruption,
        },
{
}

/// The chunks that a stream was cut into, joined, are as long as all of them together, and
/// each stands in what they come to behind those before it.
pub proof fn lemma_joined(chunks: Seq<Seq<u8>>, i: int)
    requires
        0 <= i < chunks.len(),
    ensures
        ({
            let before = full_backup::joined(chunks.take(i)).len() as int;
            let all = full_backup::joined(chunks);
            &&& before + chunks[i].len() <= all.len()
            &&& all.subrange(before, before + chunks[i].len()) == chunks[i]
        }),
{
    let front = chunks.take(i);
    let rest = chunks.skip(i + 1);
    let one = seq![chunks[i]];
    assert(chunks =~= (front + one) + rest);
    full_backup::lemma_joined_both(front + one, rest);
    full_backup::lemma_joined_both(front, one);
    assert(one.drop_last() =~= Seq::empty());
    assert(full_backup::joined(one.drop_last()) =~= Seq::empty());
    assert(full_backup::joined(one) =~= chunks[i]);
    let before = full_backup::joined(front).len() as int;
    assert(full_backup::joined(chunks).subrange(before, before + chunks[i].len()) =~= chunks[i]);
}

/// What is copied of the archives: of each its manifest and then each of its chunks, from
/// where the archive is stored, under the digest that is committed for it.
pub proof fn lemma_copied(archives: Seq<RetainedView>, max_manifest_bytes: u64, p: CopyPosition)
    requires
        p.within(archives),
    ensures
        ({
            let archive = archives[p.at()];
            match p.step_at(archives, max_manifest_bytes) {
                CopyStep::Root => p.at() == archives.len(),
                CopyStep::Manifest(d) => {
                    &&& 0 <= p.at() < archives.len()
                    &&& p.done() == 0
                    &&& d.source == archive.storage_destination
                    &&& d.session == archive.storage_backup_session
                    &&& d.object_id == archive.manifest_object_id
                    &&& d.ciphertext_sha256 == archive.manifest_ciphertext_sha256
                    &&& d.max_plaintext_bytes == max_manifest_bytes
                },
                CopyStep::Chunk(d) => {
                    let chunk = archive.manifest.chunks[p.done() - 1];
                    &&& 0 <= p.at() < archives.len()
                    &&& 1 <= p.done() <= archive.manifest.chunks.len()
                    &&& d.source == archive.storage_destination
                    &&& d.session == archive.storage_backup_session
                    &&& d.object_id == chunk.object_id
                    &&& d.ciphertext_sha256 == chunk.ciphertext_sha256
                    &&& d.max_plaintext_bytes == chunk.plaintext_bytes
                },
            }
        }),
{
}

/// How many objects the first `n` archives have.
pub open spec fn objects(archives: Seq<RetainedView>, n: int) -> int
    decreases n,
{
    if n <= 0 {
        0
    } else {
        objects(archives, n - 1) + 1 + archives[n - 1].manifest.chunks.len()
    }
}

/// As many objects are copied as the archives have, their manifests and their chunks.
pub proof fn lemma_copies(archives: Seq<RetainedView>, max_manifest_bytes: u64, n: int)
    requires
        0 <= n <= archives.len(),
    ensures
        backup_copy::copies(archives, max_manifest_bytes, n).len() == objects(archives, n),
    decreases n,
{
    if n > 0 {
        lemma_copies(archives, max_manifest_bytes, n - 1);
    }
}

} // verus!
