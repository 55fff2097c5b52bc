//! Verified, bounded cold-body resolution for ordinary point, query and snapshot
//! reads. A missing destination, object, key or digest never becomes absence.
use vstd::prelude::*;

use crate::digest;
use crate::digest::{digest, Digest, Name};
use crate::errors;
use crate::errors::{error, Error, ErrorCode};
use crate::history_model;
use crate::history_model::{
    Archived, ArchivedView, Collection, Descriptor, DescriptorView, Document, DocumentView,
    HistoryState, HistoryView, IndexedField, Manifest, ManifestView, Retained,
};
use crate::history_rules;
use crate::history_state::{archive_at, collection_at, index_fields, same_manifest};
use crate::texts;
use crate::texts::{before, same};

verus! {

// ---------------------------------------------------------------------
// Destinations
// ---------------------------------------------------------------------

/// The destinations that archives can be kept at, each under its alias.
pub struct Database {
    destinations: Vec<(Name, u128)>,
}

impl Database {
    /// No alias stands twice.
    #[verifier::type_invariant]
    spec fn distinct(self) -> bool {
        forall|i: int, j: int|
            0 <= i < j < self.destinations@.len() ==> (#[trigger] self.destinations@[i]).0 != (
            #[trigger] self.destinations@[j]).0
    }
}

impl View for Database {
    type V = Map<Name, u128>;

    closed spec fn view(&self) -> Map<Name, u128> {
        Map::new(
            |alias: Name|
                exists|i: int|
                    0 <= i < self.destinations@.len() && (#[trigger] self.destinations@[i]).0
                        == alias,
            |alias: Name|
                self.destinations@[choose|i: int|
                    0 <= i < self.destinations@.len() && (#[trigger] self.destinations@[i]).0
                        == alias].1,
        )
    }
}

impl Database {
    pub fn new() -> (database: Self)
        ensures
            database@ == Map::<Name, u128>::empty(),
    {
        let database = Database { destinations: Vec::new() };
        assert(database@ =~= Map::<Name, u128>::empty());
        database
    }

    fn find(&self, alias: Name) -> (r: Option<u128>)
        ensures
            r == self@.get(alias),
    {
        proof {
            use_type_invariant(self);
        }
        let mut i: usize = 0;
        while i < self.destinations.len()
            invariant
                i <= self.destinations.len(),
                self.distinct(),
                forall|j: int| 0 <= j < i ==> (#[trigger] self.destinations@[j]).0 != alias,
            decreases self.destinations.len() - i,
        {
            if self.destinations[i].0 == alias {
                proof {
                    let k = choose|k: int|
                        0 <= k < self.destinations@.len() && (#[trigger] self.destinations@[k]).0
                            == alias;
                    assert(self.destinations@[i as int].0 == alias);
                    assert(k == i);
                }
                return Some(self.destinations[i].1);
            }
            i = i + 1;
        }
        assert(!self@.dom().contains(alias));
        None
    }

    /// Operator-only dependency installation; data requests select only an
    /// already installed alias. A duplicate alias can never change its target.
    /// `alias_refusal` is what refuses the alias as a name, if anything does.
    pub fn install_archive_destination(
        &mut self,
        alias: &str,
        alias_refusal: Option<Error>,
        destination: u128,
    ) -> (r: Result<(), Error>)
        ensures
            if alias_refusal is Some {
                r == Err::<(), Error>(alias_refusal->0) && final(self)@ == old(self)@
            } else {
                match old(self)@.get(digest::name_of(alias@)) {
                    Some(existing) => final(self)@ == old(self)@ && r == if existing
                        == destination {
                        Ok::<(), Error>(())
                    } else {
                        Err(
                            errors::refusal(
                                ErrorCode::Conflict,
                                "archive destination alias already installed",
                            ),
                        )
                    },
                    None => r == Ok::<(), Error>(()) && final(self)@ == old(self)@.insert(
                        digest::name_of(alias@),
                        destination,
                    ),
                }
            },
    {
        match alias_refusal {
            Some(refusal) => return Err(refusal),
            None => {},
        }
        let name = Name::of(alias);
        match self.find(name) {
            Some(existing) => {
                if existing == destination {
                    return Ok(());
                }
                return Err(
                    error(ErrorCode::Conflict, "archive destination alias already installed"),
                );
            },
            None => {},
        }
        let ghost before = self@;
        let ghost rows = self.destinations@;
        proof {
            use_type_invariant(&*self);
            assert forall|i: int| 0 <= i < rows.len() implies (#[trigger] rows[i]).0 != name by {
                if rows[i].0 == name {
                    assert(before.dom().contains(name));
                }
            }
        }
        let mut destinations: Vec<(Name, u128)> = Vec::new();
        std::mem::swap(&mut destinations, &mut self.destinations);
        destinations.push((name, destination));
        let ghost pushed = destinations@;
        assert(pushed == rows.push((name, destination)));
        self.destinations = destinations;
        proof {
            let after = self@;
            assert(before.insert(name, destination) =~= after) by {
                assert(pushed[rows.len() as int].0 == name);
                assert forall|alias: Name| after.dom().contains(alias) == before.insert(
                    name,
                    destination,
                ).dom().contains(alias) by {
                    if after.dom().contains(alias) && alias != name {
                        let i = choose|i: int|
                            0 <= i < pushed.len() && (#[trigger] pushed[i]).0 == alias;
                        assert(rows[i].0 == alias);
                    }
                    if before.dom().contains(alias) {
                        let i = choose|i: int|
                            0 <= i < rows.len() && (#[trigger] rows[i]).0 == alias;
                        assert(pushed[i].0 == alias);
                    }
                }
                assert forall|alias: Name| after.dom().contains(alias) implies after[alias]
                    == before.insert(name, destination)[alias] by {
                    let i = choose|i: int|
                        0 <= i < pushed.len() && (#[trigger] pushed[i]).0 == alias;
                    if alias == name {
                        if i < rows.len() {
                            assert(rows[i].0 == name);
                        }
                    } else {
                        assert(rows[i].0 == alias);
                        let k = choose|k: int|
                            0 <= k < rows.len() && (#[trigger] rows[k]).0 == alias;
                        assert(pushed[k].0 == alias);
                        assert(k == i);
                    }
                }
            }
        }
        Ok(())
    }

    /// The destination under an alias. That none is installed is no absence.
    pub fn archive_destination(&self, alias: Name) -> (r: Result<u128, Error>)
        ensures
            r == match self@.get(alias) {
                Some(destination) => Ok(destination),
                None => Err(
                    errors::refusal(
                        ErrorCode::Unavailable,
                        "required history destination is unavailable",
                    ),
                ),
            },
    {
        match self.find(alias) {
            Some(destination) => Ok(destination),
            None => Err(
                error(ErrorCode::Unavailable, "required history destination is unavailable"),
            ),
        }
    }
}

// ---------------------------------------------------------------------
// Point reads
// ---------------------------------------------------------------------

/// Where a document is to be found.
pub enum Located {
    Hot(Document),
    Absent,
    /// Archived: its collection, its reference there, and its archive.
    Cold { collection: usize, reference: usize, archive: usize },
}

/// Where the document stands, from `i` on.
pub open spec fn document_at(documents: Seq<DocumentView>, id: Seq<u8>, i: int) -> Option<int>
    decreases documents.len() - i,
{
    if i < 0 || i >= documents.len() {
        None
    } else if documents[i].id == id {
        Some(i)
    } else {
        document_at(documents, id, i + 1)
    }
}

/// Where the reference stands, from `i` on.
pub open spec fn reference_at(rows: Seq<ArchivedView>, id: Seq<u8>, i: int) -> Option<int>
    decreases rows.len() - i,
{
    if i < 0 || i >= rows.len() {
        None
    } else if rows[i].id == id {
        Some(i)
    } else {
        reference_at(rows, id, i + 1)
    }
}

/// Whether a lookup found what there is.
pub open spec fn located(s: HistoryView, name: Name, id: Seq<u8>, r: Result<Located, Error>) -> bool {
    match history_rules::collection_at(s.collections, name, 0) {
        None => r == Err::<Located, Error>(
            errors::refusal(ErrorCode::NotFound, "history collection missing"),
        ),
        Some(at) => match document_at(s.collections[at].documents, id, 0) {
            Some(i) => match r {
                Ok(Located::Hot(document)) => document@ == s.collections[at].documents[i],
                _ => false,
            },
            None => match reference_at(s.collections[at].archived, id, 0) {
                None => match r {
                    Ok(Located::Absent) => true,
                    _ => false,
                },
                Some(i) => match history_rules::archive_at(
                    s.archives,
                    s.collections[at].archived[i].archive_id,
                    0,
                ) {
                    None => r == Err::<Located, Error>(
                        errors::refusal(
                            ErrorCode::Corruption,
                            "history manifest reference missing",
                        ),
                    ),
                    Some(k) => match r {
                        Ok(Located::Cold { collection, reference, archive }) => collection == at
                            && reference == i && archive == k,
                        _ => false,
                    },
                },
            },
        },
    }
}

proof fn lemma_collection_within(s: HistoryView, name: Name, i: int)
    requires
        0 <= i,
    ensures
        history_rules::collection_at(s.collections, name, i) matches Some(at) ==> i <= at
            < s.collections.len(),
    decreases s.collections.len() - i,
{
    if i < s.collections.len() && s.collections[i].name != name {
        lemma_collection_within(s, name, i + 1);
    }
}

proof fn lemma_reference_within(rows: Seq<ArchivedView>, id: Seq<u8>, i: int)
    requires
        0 <= i,
    ensures
        reference_at(rows, id, i) matches Some(at) ==> i <= at < rows.len(),
    decreases rows.len() - i,
{
    if i < rows.len() && rows[i].id != id {
        lemma_reference_within(rows, id, i + 1);
    }
}

proof fn lemma_archive_within(s: HistoryView, id: Name, i: int)
    requires
        0 <= i,
    ensures
        history_rules::archive_at(s.archives, id, i) matches Some(at) ==> i <= at
            < s.archives.len() && s.archives[at].manifest.archive_id == id,
    decreases s.archives.len() - i,
{
    if i < s.archives.len() && s.archives[i].manifest.archive_id != id {
        lemma_archive_within(s, id, i + 1);
    }
}

/// What a lookup finds stands where it is found.
pub proof fn lemma_located_within(s: HistoryView, name: Name, id: Seq<u8>)
    ensures
        history_rules::collection_at(s.collections, name, 0) matches Some(at) ==> 0 <= at
            < s.collections.len() && (reference_at(s.collections[at].archived, id, 0) matches Some(
            i,
        ) ==> 0 <= i < s.collections[at].archived.len() && (history_rules::archive_at(
            s.archives,
            s.collections[at].archived[i].archive_id,
            0,
        ) matches Some(k) ==> 0 <= k < s.archives.len() && s.archives[k].manifest.archive_id
            == s.collections[at].archived[i].archive_id)),
{
    lemma_collection_within(s, name, 0);
    if let Some(at) = history_rules::collection_at(s.collections, name, 0) {
        lemma_reference_within(s.collections[at].archived, id, 0);
        if let Some(i) = reference_at(s.collections[at].archived, id, 0) {
            lemma_archive_within(s, s.collections[at].archived[i].archive_id, 0);
        }
    }
}

fn find_document(documents: &Vec<Document>, id: &Vec<u8>) -> (r: Option<usize>)
    ensures
        match r {
            None => document_at(history_model::documents_view(documents@), id@, 0) is None,
            Some(i) => i < documents.len() && document_at(
                history_model::documents_view(documents@),
                id@,
                0,
            ) == Some(i as int),
        },
{
    let ghost view = history_model::documents_view(documents@);
    let mut i: usize = 0;
    while i < documents.len()
        invariant
            i <= documents.len(),
            view == history_model::documents_view(documents@),
            document_at(view, id@, 0) == document_at(view, id@, i as int),
        decreases documents.len() - i,
    {
        assert(view[i as int].id == documents@[i as int].id@);
        if same(&documents[i].id, id) {
            return Some(i);
        }
        i = i + 1;
    }
    None
}

fn find_reference(rows: &Vec<Archived>, id: &Vec<u8>) -> (r: Option<usize>)
    ensures
        match r {
            None => reference_at(history_model::archived_view(rows@), id@, 0) is None,
            Some(i) => i < rows.len() && reference_at(history_model::archived_view(rows@), id@, 0)
                == Some(i as int),
        },
{
    let ghost view = history_model::archived_view(rows@);
    let mut i: usize = 0;
    while i < rows.len()
        invariant
            i <= rows.len(),
            view == history_model::archived_view(rows@),
            reference_at(view, id@, 0) == reference_at(view, id@, i as int),
        decreases rows.len() - i,
    {
        assert(view[i as int].id == rows@[i as int].id@);
        if same(&rows[i].id, id) {
            return Some(i);
        }
        i = i + 1;
    }
    None
}

/// Where a document of a collection is to be found: a hot one is handed out, and
/// an archived one is found in its archive.
pub fn locate(state: &HistoryState, name: Name, id: &Vec<u8>) -> (r: Result<Located, Error>)
    ensures
        located(state@, name, id@, r),
{
    let at: usize = match collection_at(state, name) {
        None => return Err(error(ErrorCode::NotFound, "history collection missing")),
        Some(at) => at,
    };
    let collection = &state.collections[at];
    assert(state@.collections[at as int] == collection@);
    match find_document(&collection.documents, id) {
        Some(i) => {
            assert(collection@.documents[i as int] == collection.documents@[i as int]@);
            return Ok(Located::Hot(collection.documents[i].copy()));
        },
        None => {},
    }
    let reference: usize = match find_reference(&collection.archived, id) {
        None => return Ok(Located::Absent),
        Some(i) => i,
    };
    assert(collection@.archived[reference as int] == collection.archived@[reference as int]@);
    match archive_at(state, collection.archived[reference].archive_id) {
        None => Err(error(ErrorCode::Corruption, "history manifest reference missing")),
        Some(archive) => Ok(Located::Cold { collection: at, reference, archive }),
    }
}

/// How many bytes of an encrypted object may be fetched for so much plaintext.
pub fn object_limit(max_plaintext_bytes: u64) -> (limit: u64)
    ensures
        limit == if max_plaintext_bytes + 2097236 > u64::MAX {
            u64::MAX as int
        } else {
            max_plaintext_bytes + 2097236
        },
{
    max_plaintext_bytes.saturating_add(2097236)
}

/// Whether a fetched object is the one that was published.
pub fn check_object(ciphertext: &[u8], ciphertext_sha256: Digest) -> (r: Result<(), Error>)
    ensures
        r == if digest::digest_of(ciphertext@) != ciphertext_sha256 {
            Err(errors::refusal(ErrorCode::Corruption, "history ciphertext digest differs"))
        } else {
            Ok(())
        },
{
    let actual = digest(ciphertext);
    if actual != ciphertext_sha256 {
        return Err(error(ErrorCode::Corruption, "history ciphertext digest differs"));
    }
    Ok(())
}

// ---------------------------------------------------------------------
// The read cache
// ---------------------------------------------------------------------

/// A chunk as it was decoded.
pub struct Chunk {
    pub archive_id: Name,
    pub source_incarnation: u128,
    pub collection: Name,
    pub index: u64,
    pub documents: Vec<Document>,
}

/// Where the chunk with these numbers stands, from `i` on.
pub open spec fn chunk_at(chunks: Seq<Chunk>, archive_id: Name, index: u64, i: int) -> Option<int>
    decreases chunks.len() - i,
{
    if i < 0 || i >= chunks.len() {
        None
    } else if chunks[i].archive_id == archive_id && chunks[i].index == index {
        Some(i)
    } else {
        chunk_at(chunks, archive_id, index, i + 1)
    }
}

/// What one read has verified so far: manifests, and chunks within a budget.
pub struct HistoryReadCache {
    chunks: Vec<Chunk>,
    manifests: Vec<Name>,
    bytes: u64,
}

pub open spec fn chunk_holds(
    name: Name,
    reference: ArchivedView,
    m: ManifestView,
    descriptor: DescriptorView,
    chunk: Chunk,
) -> bool {
    let documents = history_model::documents_view(chunk.documents@);
    &&& chunk.archive_id == reference.archive_id
    &&& chunk.collection == name
    &&& chunk.source_incarnation == m.source_incarnation
    &&& chunk.index == reference.chunk_index
    &&& history_rules::covers(documents, descriptor)
    &&& history_rules::ascending(documents)
    &&& forall|i: int|
        0 <= i < documents.len() ==> (#[trigger] documents[i]).version <= m.cutoff_revision
}

/// Whether each document stands before the next.
pub open spec fn steps_up(documents: Seq<DocumentView>, n: int) -> bool {
    forall|i: int|
        0 < i < n ==> texts::less(documents[i - 1].id, (#[trigger] documents[i]).id)
}

proof fn lemma_ascending(documents: Seq<DocumentView>, i: int, j: int)
    requires
        steps_up(documents, documents.len() as int),
        0 <= i < j < documents.len(),
    ensures
        texts::less(documents[i].id, documents[j].id),
    decreases j - i,
{
    assert(texts::less(documents[j - 1].id, documents[j].id));
    if i < j - 1 {
        lemma_ascending(documents, i, j - 1);
        texts::lemma_transitive(documents[i].id, documents[j - 1].id, documents[j].id);
    }
}

fn ascending(documents: &Vec<Document>) -> (b: bool)
    ensures
        b == history_rules::ascending(history_model::documents_view(documents@)),
{
    let ghost view = history_model::documents_view(documents@);
    let mut i: usize = 1;
    while i < documents.len()
        invariant
            1 <= i,
            i <= documents.len() || documents.len() == 0,
            view == history_model::documents_view(documents@),
            steps_up(view, i as int),
        decreases documents.len() - i,
    {
        assert(view[i as int].id == documents@[i as int].id@);
        assert(view[i - 1].id == documents@[i - 1].id@);
        if !before(&documents[i - 1].id, &documents[i].id) {
            return false;
        }
        i = i + 1;
    }
    proof {
        assert forall|a: int, b: int| 0 <= a < b < view.len() implies texts::less(
            (#[trigger] view[a]).id,
            (#[trigger] view[b]).id,
        ) by {
            lemma_ascending(view, a, b);
        }
    }
    true
}

fn within_cutoff(documents: &Vec<Document>, cutoff: u64) -> (b: bool)
    ensures
        b == forall|i: int|
            0 <= i < history_model::documents_view(documents@).len() ==> (
            #[trigger] history_model::documents_view(documents@)[i]).version <= cutoff,
{
    let ghost view = history_model::documents_view(documents@);
    let mut i: usize = 0;
    while i < documents.len()
        invariant
            i <= documents.len(),
            view == history_model::documents_view(documents@),
            forall|j: int| 0 <= j < i ==> (#[trigger] view[j]).version <= cutoff,
        decreases documents.len() - i,
    {
        if documents[i].version > cutoff {
            assert(view[i as int].version > cutoff);
            return false;
        }
        i = i + 1;
    }
    true
}

fn covers(documents: &Vec<Document>, chunk: &Descriptor) -> (b: bool)
    ensures
        b == history_rules::covers(history_model::documents_view(documents@), chunk@),
{
    let ghost view = history_model::documents_view(documents@);
    if documents.len() as u64 != chunk.document_count || documents.len() == 0 {
        return false;
    }
    assert(view.first().id == documents@[0].id@);
    assert(view.last().id == documents@[documents@.len() - 1].id@);
    same(&documents[0].id, &chunk.first_id) && same(
        &documents[documents.len() - 1].id,
        &chunk.last_id,
    )
}

/// Where the document stands among ascending ones.
fn binary_search(documents: &Vec<Document>, id: &Vec<u8>) -> (r: Option<usize>)
    requires
        history_rules::ascending(history_model::documents_view(documents@)),
    ensures
        match r {
            Some(i) => i < documents.len() && documents@[i as int].id@ == id@,
            None => forall|i: int| 0 <= i < documents.len() ==> (#[trigger] documents@[i]).id@
                != id@,
        },
{
    let ghost view = history_model::documents_view(documents@);
    let mut low: usize = 0;
    let mut high: usize = documents.len();
    while low < high
        invariant
            low <= high <= documents.len(),
            view == history_model::documents_view(documents@),
            history_rules::ascending(view),
            forall|i: int| 0 <= i < low ==> (#[trigger] view[i]).id != id@,
            forall|i: int| high <= i < documents.len() ==> (#[trigger] view[i]).id != id@,
        decreases high - low,
    {
        let middle: usize = low + (high - low) / 2;
        assert(view[middle as int].id == documents@[middle as int].id@);
        if same(&documents[middle].id, id) {
            return Some(middle);
        }
        if before(&documents[middle].id, id) {
            assert forall|i: int| 0 <= i <= middle implies (#[trigger] view[i]).id != id@ by {
                if view[i].id == id@ {
                    if i < middle {
                        texts::lemma_transitive(view[i].id, view[middle as int].id, view[i].id);
                        texts::lemma_irreflexive(id@);
                    }
                }
            }
            low = middle + 1;
        } else {
            assert forall|i: int| middle <= i < documents.len() implies (#[trigger] view[i]).id
                != id@ by {
                if view[i].id == id@ && i > middle {
                    assert(texts::less(view[middle as int].id, id@));
                }
            }
            high = middle;
        }
    }
    assert forall|i: int| 0 <= i < documents.len() implies (#[trigger] documents@[i]).id@ != id@ by {
        assert(view[i].id == documents@[i].id@);
    }
    None
}

fn same_fields(a: &Vec<IndexedField>, b: &Vec<IndexedField>) -> (r: bool)
    ensures
        r == (a@ == b@),
{
    if a.len() != b.len() {
        return false;
    }
    let mut i: usize = 0;
    while i < a.len()
        invariant
            i <= a.len(),
            a.len() == b.len(),
            forall|j: int| 0 <= j < i ==> a@[j] == b@[j],
        decreases a.len() - i,
    {
        if a[i] != b[i] {
            return false;
        }
        i = i + 1;
    }
    assert(a@ =~= b@);
    true
}

/// Whether a cold document is the one that its reference was made of.
pub open spec fn document_holds(paths: Seq<Name>, reference: ArchivedView, d: DocumentView) -> bool {
    &&& d.version == reference.version
    &&& d.sha256 == reference.document_sha256
    &&& d.encoded_bytes == reference.document_bytes
    &&& history_rules::index_fields(paths, d.fields, paths.len() as int)
        == reference.indexed_fields
}

impl HistoryReadCache {
    /// Every chunk's documents ascend.
    #[verifier::type_invariant]
    spec fn ordered(self) -> bool {
        forall|i: int|
            0 <= i < self.chunks@.len() ==> history_rules::ascending(
                history_model::documents_view((#[trigger] self.chunks@[i]).documents@),
            )
    }

    pub closed spec fn chunks(self) -> Seq<Chunk> {
        self.chunks@
    }

    pub closed spec fn manifests(self) -> Seq<Name> {
        self.manifests@
    }

    pub closed spec fn materialized(self) -> u64 {
        self.bytes
    }

    pub fn new() -> (cache: Self)
        ensures
            cache.chunks() == Seq::<Chunk>::empty(),
            cache.manifests() == Seq::<Name>::empty(),
            cache.materialized() == 0,
    {
        HistoryReadCache { chunks: Vec::new(), manifests: Vec::new(), bytes: 0 }
    }

    /// Whether the archive's manifest was verified.
    pub fn has_manifest(&self, archive_id: Name) -> (b: bool)
        ensures
            b == self.manifests().contains(archive_id),
    {
        let mut i: usize = 0;
        while i < self.manifests.len()
            invariant
                i <= self.manifests.len(),
                forall|j: int| 0 <= j < i ==> self.manifests@[j] != archive_id,
            decreases self.manifests.len() - i,
        {
            if self.manifests[i] == archive_id {
                assert(self.manifests@[i as int] == archive_id);
                return true;
            }
            i = i + 1;
        }
        false
    }

    /// Takes a fetched manifest for verified, if it is the committed one.
    pub fn admit_manifest(&mut self, archive: &Retained, fetched: &Manifest) -> (r: Result<(), Error>)
        ensures
            final(self).chunks() == old(self).chunks(),
            final(self).materialized() == old(self).materialized(),
            if fetched@ != archive@.manifest {
                r == Err::<(), Error>(
                    errors::refusal(
                        ErrorCode::Corruption,
                        "history manifest differs from committed catalog",
                    ),
                ) && final(self).manifests() == old(self).manifests()
            } else {
                r is Ok && final(self).manifests() == old(self).manifests().push(
                    archive.manifest.archive_id,
                )
            },
    {
        if !same_manifest(fetched, &archive.manifest) {
            return Err(
                error(ErrorCode::Corruption, "history manifest differs from committed catalog"),
            );
        }
        proof {
            use_type_invariant(&*self);
        }
        let mut manifests: Vec<Name> = Vec::new();
        std::mem::swap(&mut manifests, &mut self.manifests);
        manifests.push(archive.manifest.archive_id);
        self.manifests = manifests;
        Ok(())
    }

    /// Where a chunk stands in the cache.
    pub fn find_chunk(&self, archive_id: Name, index: u64) -> (r: Option<usize>)
        ensures
            match r {
                None => chunk_at(self.chunks(), archive_id, index, 0) is None,
                Some(i) => chunk_at(self.chunks(), archive_id, index, 0) == Some(i as int) && i
                    < self.chunks().len(),
            },
    {
        let mut i: usize = 0;
        while i < self.chunks.len()
            invariant
                i <= self.chunks.len(),
                chunk_at(self.chunks@, archive_id, index, 0) == chunk_at(
                    self.chunks@,
                    archive_id,
                    index,
                    i as int,
                ),
            decreases self.chunks.len() - i,
        {
            if self.chunks[i].archive_id == archive_id && self.chunks[i].index == index {
                return Some(i);
            }
            i = i + 1;
        }
        None
    }

    pub open spec fn budgeted(self, archive: ManifestView, index: u64, limit: u64) -> Result<u64, Error> {
        if index >= archive.chunks.len() {
            Err(errors::refusal(ErrorCode::Corruption, "history chunk reference missing"))
        } else if self.materialized() + archive.chunks[index as int].plaintext_bytes > u64::MAX {
            Err(errors::refusal(ErrorCode::ResourceExhausted, "history read byte overflow"))
        } else if self.materialized() + archive.chunks[index as int].plaintext_bytes > limit {
            Err(
                errors::refusal(
                    ErrorCode::ResourceExhausted,
                    "history read exceeds bounded materialization budget",
                ),
            )
        } else {
            Ok((self.materialized() + archive.chunks[index as int].plaintext_bytes) as u64)
        }
    }

    /// What the cache comes to with one more chunk, if that is within the budget.
    pub fn budget(&self, archive: &Manifest, index: u64, limit: u64) -> (r: Result<u64, Error>)
        ensures
            r == self.budgeted(archive@, index, limit),
    {
        if index >= archive.chunks.len() as u64 {
            return Err(error(ErrorCode::Corruption, "history chunk reference missing"));
        }
        let descriptor = &archive.chunks[index as usize];
        assert(archive@.chunks[index as int] == descriptor@);
        let total: u64 = match self.bytes.checked_add(descriptor.plaintext_bytes) {
            None => return Err(
                error(ErrorCode::ResourceExhausted, "history read byte overflow"),
            ),
            Some(total) => total,
        };
        if total > limit {
            return Err(
                error(
                    ErrorCode::ResourceExhausted,
                    "history read exceeds bounded materialization budget",
                ),
            );
        }
        Ok(total)
    }

    pub open spec fn chunk_admitted(
        name: Name,
        reference: ArchivedView,
        m: ManifestView,
        plaintext: Seq<u8>,
        chunk: Chunk,
    ) -> Result<(), Error> {
        let descriptor = m.chunks[reference.chunk_index as int];
        if plaintext.len() != descriptor.plaintext_bytes || digest::digest_of(plaintext)
            != descriptor.plaintext_sha256 {
            Err(
                errors::refusal(
                    ErrorCode::Corruption,
                    "history plaintext digest or byte count differs",
                ),
            )
        } else if !chunk_holds(name, reference, m, descriptor, chunk) {
            Err(
                errors::refusal(
                    ErrorCode::Corruption,
                    "history chunk identity or interval differs",
                ),
            )
        } else {
            Ok(())
        }
    }

    /// Takes a chunk that was decoded from `plaintext` into the cache, which then
    /// comes to `total`, if the chunk is exactly the one referred to.
    pub fn admit_chunk(
        &mut self,
        name: Name,
        reference: &Archived,
        manifest: &Manifest,
        plaintext: &Vec<u8>,
        chunk: Chunk,
        total: u64,
    ) -> (r: Result<(), Error>)
        requires
            reference.chunk_index < manifest.chunks.len(),
        ensures
            r == Self::chunk_admitted(name, reference@, manifest@, plaintext@, chunk),
            final(self).manifests() == old(self).manifests(),
            r is Ok ==> final(self).chunks() == old(self).chunks().push(chunk)
                && final(self).materialized() == total,
            r is Err ==> final(self).chunks() == old(self).chunks() && final(self).materialized()
                == old(self).materialized(),
    {
        let descriptor = &manifest.chunks[reference.chunk_index as usize];
        assert(manifest@.chunks[reference.chunk_index as int] == descriptor@);
        let actual = digest(plaintext);
        if plaintext.len() as u64 != descriptor.plaintext_bytes || actual
            != descriptor.plaintext_sha256 {
            return Err(
                error(ErrorCode::Corruption, "history plaintext digest or byte count differs"),
            );
        }
        if chunk.archive_id != reference.archive_id || chunk.collection != name
            || chunk.source_incarnation != manifest.source_incarnation || chunk.index
            != reference.chunk_index || !covers(&chunk.documents, descriptor) || !ascending(
            &chunk.documents,
        ) || !within_cutoff(&chunk.documents, manifest.cutoff_revision) {
            return Err(
                error(ErrorCode::Corruption, "history chunk identity or interval differs"),
            );
        }
        proof {
            use_type_invariant(&*self);
        }
        let mut chunks: Vec<Chunk> = Vec::new();
        std::mem::swap(&mut chunks, &mut self.chunks);
        chunks.push(chunk);
        self.chunks = chunks;
        self.bytes = total;
        Ok(())
    }

    pub open spec fn resolved(
        self,
        at: int,
        paths: Seq<Name>,
        reference: ArchivedView,
        id: Seq<u8>,
        r: Result<Document, Error>,
    ) -> bool {
        let documents = history_model::documents_view(self.chunks()[at].documents@);
        match document_at(documents, id, 0) {
            None => r == Err::<Document, Error>(
                errors::refusal(
                    ErrorCode::Corruption,
                    "archived document is missing from its chunk",
                ),
            ),
            Some(i) => if !document_holds(paths, reference, documents[i]) {
                r == Err::<Document, Error>(
                    errors::refusal(
                        ErrorCode::Corruption,
                        "archived document identity/hash/index differs",
                    ),
                )
            } else {
                r is Ok && r->Ok_0@ == documents[i]
            },
        }
    }

    /// The document under an identity in a cached chunk, if it is the one that its
    /// reference was made of.
    pub fn resolve(
        &self,
        at: usize,
        collection: &Collection,
        reference: &Archived,
        id: &Vec<u8>,
    ) -> (r: Result<Document, Error>)
        requires
            at < self.chunks().len(),
        ensures
            self.resolved(at as int, collection@.paths, reference@, id@, r),
    {
        proof {
            use_type_invariant(self);
        }
        let documents = &self.chunks[at].documents;
        let ghost view = history_model::documents_view(documents@);
        match binary_search(documents, id) {
            None => {
                proof {
                    lemma_absent(view, id@, 0);
                }
                Err(error(ErrorCode::Corruption, "archived document is missing from its chunk"))
            },
            Some(i) => {
                proof {
                    assert(view[i as int].id == id@);
                    lemma_found(view, id@, i as int, 0);
                }
                let document = &documents[i];
                let fields = index_fields(&collection.paths, document);
                if document.version != reference.version || document.sha256
                    != reference.document_sha256 || document.encoded_bytes
                    != reference.document_bytes || !same_fields(
                    &fields,
                    &reference.indexed_fields,
                ) {
                    return Err(
                        error(
                            ErrorCode::Corruption,
                            "archived document identity/hash/index differs",
                        ),
                    );
                }
                Ok(document.copy())
            },
        }
    }
}

proof fn lemma_absent(documents: Seq<DocumentView>, id: Seq<u8>, i: int)
    requires
        0 <= i <= documents.len(),
        forall|j: int| 0 <= j < documents.len() ==> (#[trigger] documents[j]).id != id,
    ensures
        document_at(documents, id, i) is None,
    decreases documents.len() - i,
{
    if i < documents.len() {
        lemma_absent(documents, id, i + 1);
    }
}

/// Among ascending documents a lookup finds the one under the identity.
pub proof fn lemma_found(documents: Seq<DocumentView>, id: Seq<u8>, at: int, i: int)
    requires
        0 <= i <= at < documents.len(),
        documents[at].id == id,
        history_rules::ascending(documents),
    ensures
        document_at(documents, id, i) == Some(at),
    decreases at - i,
{
    if i < at {
        assert(texts::less(documents[i].id, documents[at].id));
        texts::lemma_irreflexive(id);
        lemma_found(documents, id, at, i + 1);
    }
}

} // verus!
