//! What a read over archived history promises: whatever it can match is hot, or is brought
//! back before it is answered, and nothing else is.
use vstd::prelude::*;

use crate::digest::Name;
use crate::errors::{Error, ErrorCode};
use crate::history_hydration;
use crate::history_hydration::{Candidates, QueryTargets, Target};
use crate::history_model::{ArchivedView, CollectionView, DocumentView, HistoryView};
use crate::history_rules;
use crate::texts;

verus! {

/// Whether the collection is the first of its name.
pub open spec fn is_collection(s: HistoryView, name: Name, at: int) -> bool {
    &&& 0 <= at < s.collections.len()
    &&& s.collections[at].name == name
    &&& forall|i: int| 0 <= i < at ==> (#[trigger] s.collections[i]).name != name
}

/// Whether the document is archived.
pub open spec fn is_archived(s: HistoryView, name: Name, id: Seq<u8>) -> bool {
    exists|at: int, i: int|
        #[trigger] is_collection(s, name, at) && 0 <= i < s.collections[at].archived.len() && (
        #[trigger] s.collections[at].archived[i]).id == id
}

/// Whether a read asks for the document by its key.
pub open spec fn is_key(keys: Seq<Target>, name: Name, id: Seq<u8>) -> bool {
    exists|i: int|
        0 <= i < keys.len() && (#[trigger] keys[i]).collection == name && keys[i].id@ == id
}

/// Whether a query has to scan, and may: no index answers it, and it is no text search.
pub open spec fn scans(query: QueryTargets) -> bool {
    &&& query.allow_scan
    &&& !query.has_text
    &&& query.candidates matches Candidates::Refused(refusal) && refusal.code
        == ErrorCode::IndexRequired
}

/// Whether the query can match the document, as far as its indexes say: the document is
/// among their candidates, or none of them answers and the whole collection is scanned.
pub open spec fn can_match(query: QueryTargets, name: Name, id: Seq<u8>) -> bool {
    &&& query.collection == name
    &&& match query.candidates {
        Candidates::Ids(ids) => exists|i: int| 0 <= i < ids@.len() && (#[trigger] ids@[i])@ == id,
        Candidates::Refused(_) => scans(query),
    }
}

/// Whether a query is answered: its collection is there, and, if any of its documents is
/// archived, an index answers it or it may scan within the budget of candidates.
pub open spec fn answerable(s: HistoryView, query: QueryTargets) -> bool {
    exists|at: int| #[trigger]
        is_collection(s, query.collection, at) && (s.collections[at].archived.len() == 0
            || query.candidates is Ids || (scans(query) && s.collections[at].documents.len()
            + s.collections[at].archived.len() <= s.max_query_candidates))
}

proof fn lemma_collection(collections: Seq<CollectionView>, name: Name, i: int)
    requires
        0 <= i <= collections.len(),
    ensures
        match history_rules::collection_at(collections, name, i) {
            None => forall|j: int| i <= j < collections.len() ==> (#[trigger] collections[j]).name
                != name,
            Some(at) => {
                &&& i <= at < collections.len()
                &&& collections[at].name == name
                &&& forall|j: int| i <= j < at ==> (#[trigger] collections[j]).name != name
            },
        },
    decreases collections.len() - i,
{
    if i < collections.len() {
        lemma_collection(collections, name, i + 1);
    }
}

/// The collection of a name is found, where there is one.
pub proof fn lemma_found(s: HistoryView, name: Name)
    ensures
        match history_rules::collection_at(s.collections, name, 0) {
            None => forall|at: int| !#[trigger] is_collection(s, name, at),
            Some(at) => is_collection(s, name, at) && forall|other: int| #[trigger]
                is_collection(s, name, other) ==> other == at,
        },
{
    lemma_collection(s.collections, name, 0);
    let found = history_rules::collection_at(s.collections, name, 0);
    match found {
        None => {
            assert forall|at: int| !#[trigger] is_collection(s, name, at) by {
                if is_collection(s, name, at) {
                    assert(s.collections[at].name == name);
                }
            }
        },
        Some(n) => {
            assert forall|other: int| #[trigger] is_collection(s, name, other) implies other
                == n by {
                assert(s.collections[other].name == name);
                assert(s.collections[n].name == name);
            }
        },
    }
}

proof fn lemma_cold(s: HistoryView, name: Name, id: Seq<u8>)
    ensures
        history_hydration::is_cold(s, (name, id)) == is_archived(s, name, id),
{
    lemma_found(s, name);
    match history_rules::collection_at(s.collections, name, 0) {
        None => {},
        Some(n) => {
            if history_rules::has_reference(s.collections[n].archived, id) {
                let i = choose|i: int|
                    0 <= i < s.collections[n].archived.len() && (
                    #[trigger] s.collections[n].archived[i]).id == id;
                assert(is_collection(s, name, n) && s.collections[n].archived[i].id == id);
            }
            if is_archived(s, name, id) {
                let (at, i) = choose|at: int, i: int|
                    #[trigger] is_collection(s, name, at) && 0 <= i
                        < s.collections[at].archived.len() && (
                    #[trigger] s.collections[at].archived[i]).id == id;
                assert(at == n);
                assert(s.collections[n].archived[i].id == id);
            }
        },
    }
}

/// What one query brings back of what is archived: exactly what it can match.
proof fn lemma_query(s: HistoryView, query: QueryTargets, name: Name, id: Seq<u8>)
    ensures
        history_hydration::query_wants(s, query) is Ok <==> answerable(s, query),
        history_hydration::query_wants(s, query) is Ok && is_archived(s, name, id)
            ==> history_hydration::query_wants(s, query)->Ok_0.contains((name, id)) == can_match(
            query,
            name,
            id,
        ),
{
    lemma_found(s, query.collection);
    lemma_cold(s, name, id);
    let wants = history_hydration::query_wants(s, query);
    if wants is Ok {
        let n = history_rules::collection_at(s.collections, query.collection, 0)->0;
        assert(is_collection(s, query.collection, n));
    }
    if answerable(s, query) {
        let at = choose|at: int| #[trigger]
            is_collection(s, query.collection, at) && (s.collections[at].archived.len() == 0
                || query.candidates is Ids || (scans(query) && s.collections[at].documents.len()
                + s.collections[at].archived.len() <= s.max_query_candidates));
        assert(history_rules::collection_at(s.collections, query.collection, 0) == Some(at));
    }
    if wants is Ok && is_archived(s, name, id) && query.collection == name {
        let (at, i) = choose|at: int, i: int|
            #[trigger] is_collection(s, name, at) && 0 <= i < s.collections[at].archived.len() && (
            #[trigger] s.collections[at].archived[i]).id == id;
        let n = history_rules::collection_at(s.collections, query.collection, 0)->0;
        assert(at == n);
        let rows = s.collections[n].archived;
        assert(rows[i].id == id);
        assert(history_hydration::references_of(name, rows).contains((name, id)));
        match query.candidates {
            Candidates::Ids(ids) => {
                assert(history_hydration::ids_of(name, ids@).contains((name, id)) == exists|k: int|
                    0 <= k < ids@.len() && (#[trigger] ids@[k])@ == id);
            },
            Candidates::Refused(refusal) => {},
        }
    }
}

proof fn lemma_wanted(
    s: HistoryView,
    queries: Seq<QueryTargets>,
    i: int,
    targets: Set<(Name, Seq<u8>)>,
    name: Name,
    id: Seq<u8>,
)
    requires
        0 <= i <= queries.len(),
        is_archived(s, name, id),
    ensures
        history_hydration::wanted(s, queries, i, targets) is Ok
            ==> history_hydration::wanted(s, queries, i, targets)->Ok_0.contains((name, id)) == (
        targets.contains((name, id)) || exists|k: int|
            i <= k < queries.len() && can_match(#[trigger] queries[k], name, id)),
    decreases queries.len() - i,
{
    if i < queries.len() {
        lemma_query(s, queries[i], name, id);
        match history_hydration::query_wants(s, queries[i]) {
            Err(_) => {},
            Ok(more) => {
                lemma_wanted(s, queries, i + 1, targets.union(more), name, id);
                if can_match(queries[i], name, id) {
                    assert(can_match(queries[i], name, id));
                }
                if exists|k: int|
                    i <= k < queries.len() && can_match(#[trigger] queries[k], name, id) {
                    let k = choose|k: int|
                        i <= k < queries.len() && can_match(#[trigger] queries[k], name, id);
                    if k > i {
                        assert(i + 1 <= k && can_match(queries[k], name, id));
                    }
                }
            },
        }
    }
}

proof fn lemma_all_answerable(
    s: HistoryView,
    queries: Seq<QueryTargets>,
    i: int,
    targets: Set<(Name, Seq<u8>)>,
)
    requires
        0 <= i <= queries.len(),
    ensures
        history_hydration::wanted(s, queries, i, targets) is Ok <==> forall|k: int|
            i <= k < queries.len() ==> answerable(s, #[trigger] queries[k]),
    decreases queries.len() - i,
{
    if i < queries.len() {
        lemma_query(s, queries[i], queries[i].collection, Seq::empty());
        match history_hydration::query_wants(s, queries[i]) {
            Err(_) => {
                assert(!answerable(s, queries[i]));
            },
            Ok(more) => {
                lemma_all_answerable(s, queries, i + 1, targets.union(more));
                assert(answerable(s, queries[i]));
            },
        }
    }
}

/// A read brings back exactly the archived documents that it can match: those that it asks
/// for by key, and those that one of its queries can match, be it through an index or by a
/// scan. Hot documents make no difference to that.
pub proof fn lemma_brings_back(
    s: HistoryView,
    keys: Seq<Target>,
    queries: Seq<QueryTargets>,
    name: Name,
    id: Seq<u8>,
)
    requires
        history_hydration::cold_wanted(s, keys, queries) is Ok,
    ensures
        history_hydration::cold_wanted(s, keys, queries)->Ok_0.contains((name, id)) == (is_archived(
            s,
            name,
            id,
        ) && (is_key(keys, name, id) || exists|k: int|
            0 <= k < queries.len() && can_match(#[trigger] queries[k], name, id))),
{
    lemma_cold(s, name, id);
    if is_archived(s, name, id) {
        lemma_wanted(s, queries, 0, history_hydration::targets_of(keys), name, id);
        assert(history_hydration::targets_of(keys).contains((name, id)) == is_key(keys, name, id));
    }
}

/// A read is planned exactly where every one of its queries is answerable.
pub proof fn lemma_planned(s: HistoryView, keys: Seq<Target>, queries: Seq<QueryTargets>)
    ensures
        history_hydration::cold_wanted(s, keys, queries) is Ok <==> forall|k: int|
            0 <= k < queries.len() ==> answerable(s, #[trigger] queries[k]),
{
    lemma_all_answerable(s, queries, 0, history_hydration::targets_of(keys));
}

/// What an unanswerable query is refused with: the collection is missing, its indexes
/// refuse it and it may not scan, or its scan has more candidates than a query may.
pub proof fn lemma_query_refused(s: HistoryView, query: QueryTargets, at: int)
    ensures
        (forall|i: int| 0 <= i < s.collections.len() ==> (#[trigger] s.collections[i]).name
            != query.collection) ==> history_hydration::query_wants(s, query) is Err
            && history_hydration::query_wants(s, query)->Err_0.code == ErrorCode::NotFound,
        is_collection(s, query.collection, at) && !answerable(s, query) ==> {
            &&& history_hydration::query_wants(s, query) is Err
            &&& scans(query) ==> history_hydration::query_wants(s, query)->Err_0.code
                == ErrorCode::ResourceExhausted
            &&& !scans(query) ==> query.candidates is Refused && history_hydration::query_wants(
                s,
                query,
            )->Err_0 == query.candidates->Refused_0
        },
{
    lemma_collection(s.collections, query.collection, 0);
    lemma_found(s, query.collection);
    lemma_query(s, query, query.collection, Seq::empty());
    if is_collection(s, query.collection, at) && !answerable(s, query) {
        assert(history_rules::collection_at(s.collections, query.collection, 0) == Some(at));
    }
}

/// A query that scans sees its whole collection: every archived document of it is brought
/// back, whatever hot documents stand beside them and whatever else the read asks for.
pub proof fn lemma_scan_is_whole(
    s: HistoryView,
    keys: Seq<Target>,
    queries: Seq<QueryTargets>,
    k: int,
    at: int,
    i: int,
)
    requires
        history_hydration::cold_wanted(s, keys, queries) is Ok,
        0 <= k < queries.len(),
        scans(queries[k]),
        is_collection(s, queries[k].collection, at),
        0 <= i < s.collections[at].archived.len(),
    ensures
        history_hydration::cold_wanted(s, keys, queries)->Ok_0.contains(
            (queries[k].collection, s.collections[at].archived[i].id),
        ),
{
    let name = queries[k].collection;
    let id = s.collections[at].archived[i].id;
    lemma_brings_back(s, keys, queries, name, id);
    assert(is_collection(s, name, at) && s.collections[at].archived[i].id == id);
    assert(can_match(queries[k], name, id));
}

/// The documents ascend by their identities.
pub open spec fn ascend(documents: Seq<DocumentView>) -> bool {
    forall|i: int|
        0 < i < documents.len() ==> texts::less(documents[i - 1].id, (#[trigger] documents[i]).id)
}

/// A document that is brought back stands among the hot ones in its place, once; every
/// document of another identity stays, and no other comes in.
pub proof fn lemma_hydrated(documents: Seq<DocumentView>, document: DocumentView)
    requires
        ascend(documents),
    ensures
        ascend(history_hydration::placed(documents, document)),
        forall|other: DocumentView| #[trigger]
            history_hydration::placed(documents, document).contains(other) <==> other == document
                || (documents.contains(other) && other.id != document.id),
        history_hydration::placed(documents, document).len() > 0,
        history_hydration::placed(documents, document)[0] == document || (documents.len() > 0
            && history_hydration::placed(documents, document)[0] == documents[0]),
    decreases documents.len(),
{
    let more = history_hydration::placed(documents, document);
    if documents.len() == 0 {
        assert(more[0] == document);
    } else {
        let rest = documents.drop_first();
        assert(ascend(rest)) by {
            assert forall|i: int| 0 < i < rest.len() implies texts::less(
                rest[i - 1].id,
                (#[trigger] rest[i]).id,
            ) by {
                assert(rest[i - 1] == documents[i] && rest[i] == documents[i + 1]);
            }
        }
        lemma_behind(documents, documents[0].id);
        if documents[0].id == document.id || texts::less(document.id, documents[0].id) {
            let tail = if documents[0].id == document.id {
                rest
            } else {
                documents
            };
            assert(more =~= seq![document] + tail);
            assert(tail.len() > 0 ==> texts::less(document.id, tail[0].id)) by {
                if tail.len() > 0 && documents[0].id == document.id {
                    assert(tail[0] == documents[1]);
                }
            }
            assert forall|i: int| 0 < i < more.len() implies texts::less(
                more[i - 1].id,
                (#[trigger] more[i]).id,
            ) by {
                if i > 1 {
                    assert(more[i - 1] == tail[i - 2] && more[i] == tail[i - 1]);
                }
            }
            assert forall|other: DocumentView| #[trigger] more.contains(other) <==> other
                == document || (documents.contains(other) && other.id != document.id) by {
                assert(more[0] == document);
                if more.contains(other) {
                    let m = choose|m: int| 0 <= m < more.len() && more[m] == other;
                    if m > 0 {
                        assert(tail[m - 1] == other);
                        if documents[0].id == document.id {
                            assert(documents[m] == other);
                            texts::lemma_irreflexive(document.id);
                        } else {
                            assert(documents[m - 1] == other);
                            if m > 1 {
                                texts::lemma_transitive(
                                    document.id,
                                    documents[0].id,
                                    other.id,
                                );
                            }
                            texts::lemma_irreflexive(document.id);
                        }
                    }
                }
                if documents.contains(other) && other.id != document.id {
                    let m = choose|m: int| 0 <= m < documents.len() && documents[m] == other;
                    if documents[0].id == document.id {
                        assert(more[m] == other);
                    } else {
                        assert(more[m + 1] == other);
                    }
                }
            }
        } else {
            lemma_hydrated(rest, document);
            let placed = history_hydration::placed(rest, document);
            assert(more =~= seq![documents[0]] + placed);
            texts::lemma_total(document.id, documents[0].id);
            assert(texts::less(documents[0].id, placed[0].id)) by {
                if placed[0] != document {
                    assert(placed[0] == documents[1]);
                }
            }
            assert forall|i: int| 0 < i < more.len() implies texts::less(
                more[i - 1].id,
                (#[trigger] more[i]).id,
            ) by {
                if i > 1 {
                    assert(more[i - 1] == placed[i - 2] && more[i] == placed[i - 1]);
                }
            }
            assert forall|other: DocumentView| #[trigger] more.contains(other) <==> other
                == document || (documents.contains(other) && other.id != document.id) by {
                assert(more[0] == documents[0]);
                if more.contains(other) {
                    let m = choose|m: int| 0 <= m < more.len() && more[m] == other;
                    if m > 0 {
                        assert(placed[m - 1] == other);
                        assert(placed.contains(other));
                        if rest.contains(other) {
                            let n = choose|n: int| 0 <= n < rest.len() && rest[n] == other;
                            assert(documents[n + 1] == other);
                        }
                    }
                }
                if placed.contains(other) {
                    let m = choose|m: int| 0 <= m < placed.len() && placed[m] == other;
                    assert(more[m + 1] == other);
                }
                if documents.contains(other) && other.id != document.id {
                    let m = choose|m: int| 0 <= m < documents.len() && documents[m] == other;
                    if m > 0 {
                        assert(rest[m - 1] == other);
                        assert(placed.contains(other));
                    }
                }
                if other == document {
                    assert(placed.contains(other));
                }
            }
        }
    }
}

/// Every document behind the first stands behind its identity.
proof fn lemma_behind(documents: Seq<DocumentView>, id: Seq<u8>)
    requires
        documents.len() > 0,
        documents[0].id == id,
        ascend(documents),
    ensures
        forall|i: int| 0 < i < documents.len() ==> texts::less(id, (#[trigger] documents[i]).id),
{
    assert forall|i: int| 0 < i < documents.len() implies texts::less(
        id,
        (#[trigger] documents[i]).id,
    ) by {
        lemma_behind_at(documents, id, i);
    }
}

proof fn lemma_behind_at(documents: Seq<DocumentView>, id: Seq<u8>, i: int)
    requires
        0 < i < documents.len(),
        documents[0].id == id,
        ascend(documents),
    ensures
        texts::less(id, documents[i].id),
    decreases i,
{
    assert(texts::less(documents[i - 1].id, documents[i].id));
    if i > 1 {
        lemma_behind_at(documents, id, i - 1);
        texts::lemma_transitive(id, documents[i - 1].id, documents[i].id);
    }
}

} // verus!
