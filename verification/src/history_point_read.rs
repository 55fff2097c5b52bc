//! One point read of history, hot or cold, as it goes from what is known to what is
//! fetched next.
use vstd::prelude::*;

use crate::digest::Name;
use crate::errors;
use crate::errors::{Error, ErrorCode};
use crate::history_model::{Document, HistoryState, HistoryView};
use crate::history_reads;
use crate::history_reads::{locate, Chunk, Database, HistoryReadCache, Located};
use crate::history_rules;

verus! {

/// What a read does next.
pub enum ReadStep {
    /// The document, or its absence.
    Done(Option<Document>),
    /// The archive's manifest is fetched and admitted.
    FetchManifest { destination: u128, archive: usize },
    /// The chunk that the reference names is fetched and admitted, with which the
    /// cache comes to `total`.
    FetchChunk {
        destination: u128,
        collection: usize,
        reference: usize,
        archive: usize,
        total: u64,
    },
}

/// What the read of an archived document does next.
pub open spec fn cold_stepped(
    s: HistoryView,
    destinations: Map<Name, u128>,
    cache: HistoryReadCache,
    collection: int,
    reference: int,
    archive: int,
    id: Seq<u8>,
    r: Result<ReadStep, Error>,
) -> bool {
    let row = s.collections[collection].archived[reference];
    match destinations.get(s.archives[archive].storage_destination) {
        None => r == Err::<ReadStep, Error>(
            errors::refusal(
                ErrorCode::Unavailable,
                "required history destination is unavailable",
            ),
        ),
        Some(destination) => if !cache.manifests().contains(row.archive_id) {
            r == Ok::<ReadStep, Error>(
                ReadStep::FetchManifest { destination, archive: archive as usize },
            )
        } else {
            match history_reads::chunk_at(cache.chunks(), row.archive_id, row.chunk_index, 0) {
                None => r == match cache.budgeted(
                    s.archives[archive].manifest,
                    row.chunk_index,
                    s.max_cursor_bytes,
                ) {
                    Err(e) => Err::<ReadStep, Error>(e),
                    Ok(total) => Ok(
                        ReadStep::FetchChunk {
                            destination,
                            collection: collection as usize,
                            reference: reference as usize,
                            archive: archive as usize,
                            total,
                        },
                    ),
                },
                Some(at) => match r {
                    Ok(ReadStep::Done(Some(document))) => cache.resolved(
                        at,
                        s.collections[collection].paths,
                        row,
                        id,
                        Ok(document),
                    ),
                    Err(e) => cache.resolved(at, s.collections[collection].paths, row, id, Err(e)),
                    _ => false,
                },
            }
        },
    }
}

/// What a read does next. A hot document is handed out; only an identity that the
/// collection does not know is absent.
pub open spec fn stepped(
    s: HistoryView,
    destinations: Map<Name, u128>,
    cache: HistoryReadCache,
    name: Name,
    id: Seq<u8>,
    r: Result<ReadStep, Error>,
) -> bool {
    match history_rules::collection_at(s.collections, name, 0) {
        None => r == Err::<ReadStep, Error>(
            errors::refusal(ErrorCode::NotFound, "history collection missing"),
        ),
        Some(at) => match history_reads::document_at(s.collections[at].documents, id, 0) {
            Some(i) => match r {
                Ok(ReadStep::Done(Some(document))) => document@ == s.collections[at].documents[i],
                _ => false,
            },
            None => match history_reads::reference_at(s.collections[at].archived, id, 0) {
                None => match r {
                    Ok(ReadStep::Done(None)) => true,
                    _ => false,
                },
                Some(i) => match history_rules::archive_at(
                    s.archives,
                    s.collections[at].archived[i].archive_id,
                    0,
                ) {
                    None => r == Err::<ReadStep, Error>(
                        errors::refusal(
                            ErrorCode::Corruption,
                            "history manifest reference missing",
                        ),
                    ),
                    Some(k) => cold_stepped(s, destinations, cache, at, i, k, id, r),
                },
            },
        },
    }
}

/// What the read of a document does next, with what the cache has verified so far.
pub fn read_step(
    state: &HistoryState,
    destinations: &Database,
    cache: &HistoryReadCache,
    name: Name,
    id: &Vec<u8>,
) -> (r: Result<ReadStep, Error>)
    ensures
        stepped(state@, destinations@, *cache, name, id@, r),
{
    let (collection, reference, archive): (usize, usize, usize) = match locate(state, name, id) {
        Err(e) => return Err(e),
        Ok(Located::Hot(document)) => return Ok(ReadStep::Done(Some(document))),
        Ok(Located::Absent) => return Ok(ReadStep::Done(None)),
        Ok(Located::Cold { collection, reference, archive }) => (collection, reference, archive),
    };
    proof {
        history_reads::lemma_located_within(state@, name, id@);
    }
    let from = &state.collections[collection];
    let row = &from.archived[reference];
    let retained = &state.archives[archive];
    assert(state@.collections[collection as int] == from@);
    assert(from@.archived[reference as int] == row@);
    assert(state@.archives[archive as int] == retained@);
    let destination: u128 = match destinations.archive_destination(retained.storage_destination) {
        Err(e) => return Err(e),
        Ok(destination) => destination,
    };
    if !cache.has_manifest(row.archive_id) {
        return Ok(ReadStep::FetchManifest { destination, archive });
    }
    match cache.find_chunk(row.archive_id, row.chunk_index) {
        Some(at) => match cache.resolve(at, from, row, id) {
            Err(e) => Err(e),
            Ok(document) => Ok(ReadStep::Done(Some(document))),
        },
        None => match cache.budget(&retained.manifest, row.chunk_index, state.max_cursor_bytes) {
            Err(e) => Err(e),
            Ok(total) => Ok(
                ReadStep::FetchChunk { destination, collection, reference, archive, total },
            ),
        },
    }
}

proof fn lemma_chunk_at_pushed(chunks: Seq<Chunk>, chunk: Chunk, i: int)
    requires
        0 <= i <= chunks.len(),
    ensures
        history_reads::chunk_at(chunks.push(chunk), chunk.archive_id, chunk.index, i) is Some,
    decreases chunks.len() - i,
{
    if i < chunks.len() {
        lemma_chunk_at_pushed(chunks, chunk, i + 1);
    }
}

/// A read fetches no manifest twice and no chunk twice: once the one that it asked
/// for is admitted, its next step asks for another thing, or is the last.
pub proof fn lemma_fetched_once(
    s: HistoryView,
    destinations: Map<Name, u128>,
    before: HistoryReadCache,
    after: HistoryReadCache,
    name: Name,
    id: Seq<u8>,
    r: Result<ReadStep, Error>,
    next: Result<ReadStep, Error>,
    chunk: Chunk,
)
    requires
        stepped(s, destinations, before, name, id, r),
        stepped(s, destinations, after, name, id, next),
        s.collections.len() <= usize::MAX,
        s.archives.len() <= usize::MAX,
        forall|i: int|
            0 <= i < s.collections.len() ==> (#[trigger] s.collections[i]).archived.len()
                <= usize::MAX,
    ensures
        r matches Ok(ReadStep::FetchManifest { archive, .. }) && after.manifests()
            == before.manifests().push(s.archives[archive as int].manifest.archive_id)
            ==> !(next matches Ok(ReadStep::FetchManifest { .. })),
        r matches Ok(ReadStep::FetchChunk { collection, reference, .. }) && after.manifests()
            == before.manifests() && after.chunks() == before.chunks().push(chunk)
            && chunk.archive_id
            == s.collections[collection as int].archived[reference as int].archive_id
            && chunk.index
            == s.collections[collection as int].archived[reference as int].chunk_index ==> !(
        next matches Ok(ReadStep::FetchManifest { .. })) && !(
        next matches Ok(ReadStep::FetchChunk { .. })),
{
    history_reads::lemma_located_within(s, name, id);
    lemma_chunk_at_pushed(before.chunks(), chunk, 0);
    if let Some(at) = history_rules::collection_at(s.collections, name, 0) {
        if let Some(i) = history_reads::reference_at(s.collections[at].archived, id, 0) {
            let row = s.collections[at].archived[i];
            let manifests = before.manifests().push(row.archive_id);
            assert(manifests[before.manifests().len() as int] == row.archive_id);
        }
    }
}

} // verus!
