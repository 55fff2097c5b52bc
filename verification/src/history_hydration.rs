//! Which archived documents a read has to bring back before it can be answered.
use vstd::prelude::*;

use crate::digest::Name;
use crate::errors;
use crate::errors::{error, Error, ErrorCode};
use crate::history_model;
use crate::history_model::{
    Archived, ArchivedView, Document, DocumentView, HistoryState, HistoryView,
};
use crate::history_rules;
use crate::history_state::collection_at;
use crate::texts;
use crate::texts::{before, copy_text, same};

verus! {

/// A document of a collection.
pub struct Target {
    pub collection: Name,
    pub id: Vec<u8>,
}

/// What the indexes answer of a query: the identities it can match, or a refusal.
pub enum Candidates {
    Ids(Vec<Vec<u8>>),
    Refused(Error),
}

/// A query over a collection.
pub struct QueryTargets {
    pub collection: Name,
    pub allow_scan: bool,
    pub has_text: bool,
    pub candidates: Candidates,
}

pub open spec fn targets_of(targets: Seq<Target>) -> Set<(Name, Seq<u8>)> {
    Set::new(
        |t: (Name, Seq<u8>)|
            exists|i: int|
                0 <= i < targets.len() && (#[trigger] targets[i]).collection == t.0
                    && targets[i].id@ == t.1,
    )
}

pub open spec fn ids_of(name: Name, ids: Seq<Vec<u8>>) -> Set<(Name, Seq<u8>)> {
    Set::new(
        |t: (Name, Seq<u8>)|
            t.0 == name && exists|i: int| 0 <= i < ids.len() && (#[trigger] ids[i])@ == t.1,
    )
}

pub open spec fn references_of(name: Name, rows: Seq<ArchivedView>) -> Set<(Name, Seq<u8>)> {
    Set::new(
        |t: (Name, Seq<u8>)|
            t.0 == name && exists|i: int| 0 <= i < rows.len() && (#[trigger] rows[i]).id == t.1,
    )
}

/// What one query adds: the candidates of its indexes, or, where it may scan, every
/// archived document of its collection.
pub open spec fn query_wants(s: HistoryView, query: QueryTargets) -> Result<
    Set<(Name, Seq<u8>)>,
    Error,
> {
    match history_rules::collection_at(s.collections, query.collection, 0) {
        None => Err(errors::refusal(ErrorCode::NotFound, "query collection missing")),
        Some(at) => if s.collections[at].archived.len() == 0 {
            Ok(Set::empty())
        } else {
            match query.candidates {
                Candidates::Ids(ids) => Ok(ids_of(query.collection, ids@)),
                Candidates::Refused(refusal) => if refusal.code == ErrorCode::IndexRequired
                    && query.allow_scan && !query.has_text {
                    if s.collections[at].documents.len() + s.collections[at].archived.len()
                        > s.max_query_candidates {
                        Err(
                            errors::refusal(
                                ErrorCode::ResourceExhausted,
                                "historical scan candidate budget exceeded",
                            ),
                        )
                    } else {
                        Ok(references_of(query.collection, s.collections[at].archived))
                    }
                } else {
                    Err(refusal)
                },
            }
        },
    }
}

/// What the queries from `i` on add to what is wanted already.
pub open spec fn wanted(
    s: HistoryView,
    queries: Seq<QueryTargets>,
    i: int,
    targets: Set<(Name, Seq<u8>)>,
) -> Result<Set<(Name, Seq<u8>)>, Error>
    decreases queries.len() - i,
{
    if i < 0 || i >= queries.len() {
        Ok(targets)
    } else {
        match query_wants(s, queries[i]) {
            Err(e) => Err(e),
            Ok(more) => wanted(s, queries, i + 1, targets.union(more)),
        }
    }
}

/// Whether the target is an archived document.
pub open spec fn is_cold(s: HistoryView, target: (Name, Seq<u8>)) -> bool {
    match history_rules::collection_at(s.collections, target.0, 0) {
        None => false,
        Some(at) => history_rules::has_reference(s.collections[at].archived, target.1),
    }
}

/// The archived documents among what the keys and queries want.
pub open spec fn cold_wanted(s: HistoryView, keys: Seq<Target>, queries: Seq<QueryTargets>) -> Result<
    Set<(Name, Seq<u8>)>,
    Error,
> {
    match wanted(s, queries, 0, targets_of(keys)) {
        Err(e) => Err(e),
        Ok(targets) => Ok(targets.filter(|t: (Name, Seq<u8>)| is_cold(s, t))),
    }
}

/// No target stands twice.
pub open spec fn distinct(targets: Seq<Target>) -> bool {
    forall|i: int, j: int|
        0 <= i < j < targets.len() ==> (#[trigger] targets[i]).collection != (
        #[trigger] targets[j]).collection || targets[i].id@ != targets[j].id@
}

fn add_target(targets: &mut Vec<Target>, collection: Name, id: &Vec<u8>)
    requires
        distinct(old(targets)@),
    ensures
        distinct(final(targets)@),
        targets_of(final(targets)@) == targets_of(old(targets)@).insert((collection, id@)),
{
    let ghost held = targets@;
    let mut i: usize = 0;
    while i < targets.len()
        invariant
            i <= targets.len(),
            targets@ == held,
            distinct(held),
            forall|j: int|
                0 <= j < i ==> (#[trigger] held[j]).collection != collection || held[j].id@ != id@,
        decreases targets.len() - i,
    {
        if targets[i].collection == collection && same(&targets[i].id, id) {
            proof {
                assert(targets_of(held).contains((collection, id@)));
                assert(targets_of(held) =~= targets_of(held).insert((collection, id@)));
            }
            return;
        }
        i = i + 1;
    }
    targets.push(Target { collection, id: copy_text(id) });
    proof {
        let pushed = targets@;
        assert forall|t: (Name, Seq<u8>)| targets_of(pushed).contains(t) == targets_of(held).insert(
            (collection, id@),
        ).contains(t) by {
            if targets_of(pushed).contains(t) {
                let k = choose|k: int|
                    0 <= k < pushed.len() && (#[trigger] pushed[k]).collection == t.0
                        && pushed[k].id@ == t.1;
                if k < held.len() {
                    assert(held[k].collection == t.0);
                }
            }
            if targets_of(held).contains(t) {
                let k = choose|k: int|
                    0 <= k < held.len() && (#[trigger] held[k]).collection == t.0 && held[k].id@
                        == t.1;
                assert(pushed[k].collection == t.0);
            }
            assert(pushed[held.len() as int].collection == collection);
        }
        assert(targets_of(pushed) =~= targets_of(held).insert((collection, id@)));
    }
}

fn add_ids(targets: &mut Vec<Target>, collection: Name, ids: &Vec<Vec<u8>>)
    requires
        distinct(old(targets)@),
    ensures
        distinct(final(targets)@),
        targets_of(final(targets)@) == targets_of(old(targets)@).union(ids_of(collection, ids@)),
{
    let ghost held = targets_of(targets@);
    let mut i: usize = 0;
    assert(held =~= held.union(ids_of(collection, ids@.take(0))));
    while i < ids.len()
        invariant
            i <= ids.len(),
            distinct(targets@),
            targets_of(targets@) == held.union(ids_of(collection, ids@.take(i as int))),
        decreases ids.len() - i,
    {
        add_target(targets, collection, &ids[i]);
        proof {
            let more = ids@.take(i + 1);
            let less = ids@.take(i as int);
            assert forall|t: (Name, Seq<u8>)| ids_of(collection, more).contains(t) == ids_of(
                collection,
                less,
            ).insert((collection, ids@[i as int]@)).contains(t) by {
                if ids_of(collection, more).contains(t) {
                    let k = choose|k: int| 0 <= k < more.len() && (#[trigger] more[k])@ == t.1;
                    if k < i {
                        assert(less[k]@ == t.1);
                    }
                }
                if ids_of(collection, less).contains(t) {
                    let k = choose|k: int| 0 <= k < less.len() && (#[trigger] less[k])@ == t.1;
                    assert(more[k]@ == t.1);
                }
                assert(more[i as int]@ == ids@[i as int]@);
            }
            assert(targets_of(targets@) =~= held.union(ids_of(collection, more)));
        }
        i = i + 1;
    }
    assert(ids@.take(ids@.len() as int) =~= ids@);
}

fn add_references(targets: &mut Vec<Target>, collection: Name, rows: &Vec<Archived>)
    requires
        distinct(old(targets)@),
    ensures
        distinct(final(targets)@),
        targets_of(final(targets)@) == targets_of(old(targets)@).union(
            references_of(collection, history_model::archived_view(rows@)),
        ),
{
    let ghost held = targets_of(targets@);
    let ghost view = history_model::archived_view(rows@);
    let mut i: usize = 0;
    assert(held =~= held.union(references_of(collection, view.take(0))));
    while i < rows.len()
        invariant
            i <= rows.len(),
            view == history_model::archived_view(rows@),
            distinct(targets@),
            targets_of(targets@) == held.union(references_of(collection, view.take(i as int))),
        decreases rows.len() - i,
    {
        add_target(targets, collection, &rows[i].id);
        proof {
            let more = view.take(i + 1);
            let less = view.take(i as int);
            assert forall|t: (Name, Seq<u8>)| references_of(collection, more).contains(t)
                == references_of(collection, less).insert(
                (collection, view[i as int].id),
            ).contains(t) by {
                if references_of(collection, more).contains(t) {
                    let k = choose|k: int| 0 <= k < more.len() && (#[trigger] more[k]).id == t.1;
                    if k < i {
                        assert(less[k].id == t.1);
                    }
                }
                if references_of(collection, less).contains(t) {
                    let k = choose|k: int| 0 <= k < less.len() && (#[trigger] less[k]).id == t.1;
                    assert(more[k].id == t.1);
                }
                assert(more[i as int].id == view[i as int].id);
            }
            assert(targets_of(targets@) =~= held.union(references_of(collection, more)));
        }
        i = i + 1;
    }
    assert(view.take(view.len() as int) =~= view);
}

fn add_query(targets: &mut Vec<Target>, state: &HistoryState, query: &QueryTargets) -> (r: Result<
    (),
    Error,
>)
    requires
        distinct(old(targets)@),
    ensures
        distinct(final(targets)@),
        match query_wants(state@, *query) {
            Err(e) => r == Err::<(), Error>(e),
            Ok(more) => r is Ok && targets_of(final(targets)@) == targets_of(
                old(targets)@,
            ).union(more),
        },
{
    let at: usize = match collection_at(state, query.collection) {
        None => return Err(error(ErrorCode::NotFound, "query collection missing")),
        Some(at) => at,
    };
    let collection = &state.collections[at];
    assert(state@.collections[at as int] == collection@);
    assert(collection@.archived.len() == collection.archived.len());
    assert(collection@.documents.len() == collection.documents.len());
    if collection.archived.len() == 0 {
        assert(targets_of(targets@) =~= targets_of(targets@).union(Set::empty()));
        return Ok(());
    }
    match &query.candidates {
        Candidates::Ids(ids) => {
            add_ids(targets, query.collection, ids);
            Ok(())
        },
        Candidates::Refused(refusal) => {
            if refusal.code == ErrorCode::IndexRequired && query.allow_scan && !query.has_text {
                let total: u128 = collection.documents.len() as u128 + collection.archived.len() as u128;
                if total > state.max_query_candidates as u128 {
                    return Err(
                        error(
                            ErrorCode::ResourceExhausted,
                            "historical scan candidate budget exceeded",
                        ),
                    );
                }
                add_references(targets, query.collection, &collection.archived);
                return Ok(());
            }
            Err(*refusal)
        },
    }
}

fn has_reference(rows: &Vec<Archived>, id: &Vec<u8>) -> (b: bool)
    ensures
        b == history_rules::has_reference(history_model::archived_view(rows@), id@),
{
    let ghost view = history_model::archived_view(rows@);
    let mut i: usize = 0;
    while i < rows.len()
        invariant
            i <= rows.len(),
            view == history_model::archived_view(rows@),
            forall|j: int| 0 <= j < i ==> (#[trigger] view[j]).id != id@,
        decreases rows.len() - i,
    {
        if same(&rows[i].id, id) {
            assert(view[i as int].id == id@);
            return true;
        }
        i = i + 1;
    }
    false
}

fn target_is_cold(state: &HistoryState, target: &Target) -> (b: bool)
    ensures
        b == is_cold(state@, (target.collection, target.id@)),
{
    match collection_at(state, target.collection) {
        None => false,
        Some(at) => {
            assert(state@.collections[at as int] == state.collections@[at as int]@);
            has_reference(&state.collections[at].archived, &target.id)
        },
    }
}

/// The archived documents that a read has to bring back, each once. With none of
/// them the read is answered from the hot state alone.
pub fn cold_targets(state: &HistoryState, keys: &Vec<Target>, queries: &Vec<QueryTargets>) -> (r:
    Result<Vec<Target>, Error>)
    ensures
        match cold_wanted(state@, keys@, queries@) {
            Err(e) => r == Err::<Vec<Target>, Error>(e),
            Ok(targets) => r is Ok && targets_of(r->Ok_0@) == targets && distinct(r->Ok_0@),
        },
{
    let mut targets: Vec<Target> = Vec::new();
    let mut k: usize = 0;
    assert(targets_of(targets@) =~= targets_of(keys@.take(0)));
    while k < keys.len()
        invariant
            k <= keys.len(),
            distinct(targets@),
            targets_of(targets@) == targets_of(keys@.take(k as int)),
        decreases keys.len() - k,
    {
        add_target(&mut targets, keys[k].collection, &keys[k].id);
        proof {
            let more = keys@.take(k + 1);
            let less = keys@.take(k as int);
            let key = keys@[k as int];
            assert forall|t: (Name, Seq<u8>)| targets_of(more).contains(t) == targets_of(
                less,
            ).insert((key.collection, key.id@)).contains(t) by {
                if targets_of(more).contains(t) {
                    let j = choose|j: int|
                        0 <= j < more.len() && (#[trigger] more[j]).collection == t.0 && more[j].id@
                            == t.1;
                    if j < k {
                        assert(less[j].collection == t.0);
                    }
                }
                if targets_of(less).contains(t) {
                    let j = choose|j: int|
                        0 <= j < less.len() && (#[trigger] less[j]).collection == t.0 && less[j].id@
                            == t.1;
                    assert(more[j].collection == t.0);
                }
                assert(more[k as int].collection == key.collection);
            }
            assert(targets_of(targets@) =~= targets_of(more));
        }
        k = k + 1;
    }
    assert(keys@.take(keys@.len() as int) =~= keys@);
    let ghost start = targets_of(keys@);
    let mut i: usize = 0;
    while i < queries.len()
        invariant
            i <= queries.len(),
            distinct(targets@),
            start == targets_of(keys@),
            wanted(state@, queries@, 0, start) == wanted(
                state@,
                queries@,
                i as int,
                targets_of(targets@),
            ),
        decreases queries.len() - i,
    {
        add_query(&mut targets, state, &queries[i])?;
        i = i + 1;
    }
    let ghost all = targets_of(targets@);
    let mut cold: Vec<Target> = Vec::new();
    let mut j: usize = 0;
    let ghost keep = |t: (Name, Seq<u8>)| is_cold(state@, t);
    assert(targets_of(cold@) =~= targets_of(targets@.take(0)).filter(keep));
    while j < targets.len()
        invariant
            j <= targets.len(),
            distinct(cold@),
            keep == (|t: (Name, Seq<u8>)| is_cold(state@, t)),
            targets_of(cold@) == targets_of(targets@.take(j as int)).filter(keep),
        decreases targets.len() - j,
    {
        let ghost held = targets_of(cold@);
        let cold_one: bool = target_is_cold(state, &targets[j]);
        if cold_one {
            add_target(&mut cold, targets[j].collection, &targets[j].id);
        }
        proof {
            let more = targets@.take(j + 1);
            let less = targets@.take(j as int);
            let one = (targets@[j as int].collection, targets@[j as int].id@);
            assert forall|t: (Name, Seq<u8>)| targets_of(more).contains(t) == targets_of(
                less,
            ).insert(one).contains(t) by {
                if targets_of(more).contains(t) {
                    let n = choose|n: int|
                        0 <= n < more.len() && (#[trigger] more[n]).collection == t.0 && more[n].id@
                            == t.1;
                    if n < j {
                        assert(less[n].collection == t.0);
                    }
                }
                if targets_of(less).contains(t) {
                    let n = choose|n: int|
                        0 <= n < less.len() && (#[trigger] less[n]).collection == t.0 && less[n].id@
                            == t.1;
                    assert(more[n].collection == t.0);
                }
                assert(more[j as int].collection == one.0);
            }
            assert(targets_of(cold@) =~= targets_of(more).filter(keep));
        }
        j = j + 1;
    }
    assert(targets@.take(targets@.len() as int) =~= targets@);
    Ok(cold)
}

/// The documents with one more, in its place, or in place of the one it replaces.
pub open spec fn placed(documents: Seq<DocumentView>, document: DocumentView) -> Seq<DocumentView>
    decreases documents.len(),
{
    if documents.len() == 0 {
        seq![document]
    } else if documents[0].id == document.id {
        seq![document] + documents.drop_first()
    } else if texts::less(document.id, documents[0].id) {
        seq![document] + documents
    } else {
        seq![documents[0]] + placed(documents.drop_first(), document)
    }
}

proof fn lemma_placed(documents: Seq<DocumentView>, document: DocumentView, i: int)
    requires
        0 <= i <= documents.len(),
        forall|j: int|
            0 <= j < i ==> (#[trigger] documents[j]).id != document.id && !texts::less(
                document.id,
                documents[j].id,
            ),
        i < documents.len() ==> documents[i].id == document.id || texts::less(
            document.id,
            documents[i].id,
        ),
    ensures
        placed(documents, document) == if i < documents.len() && documents[i].id == document.id {
            documents.update(i, document)
        } else {
            documents.insert(i, document)
        },
    decreases documents.len(),
{
    if documents.len() == 0 {
        assert(documents.insert(i, document) =~= seq![document]);
    } else if i == 0 {
        if documents[0].id == document.id {
            assert(documents.update(0, document) =~= seq![document] + documents.drop_first());
        } else {
            assert(documents.insert(0, document) =~= seq![document] + documents);
        }
    } else {
        let rest = documents.drop_first();
        assert(documents[0].id != document.id);
        assert forall|j: int| 0 <= j < i - 1 implies (#[trigger] rest[j]).id != document.id
            && !texts::less(document.id, rest[j].id) by {
            assert(rest[j] == documents[j + 1]);
        }
        lemma_placed(rest, document, i - 1);
        if i < documents.len() && documents[i].id == document.id {
            assert(documents.update(i, document) =~= seq![documents[0]] + rest.update(
                i - 1,
                document,
            ));
        } else {
            assert(documents.insert(i, document) =~= seq![documents[0]] + rest.insert(
                i - 1,
                document,
            ));
        }
    }
}

/// Puts a document that was brought back among a read's hot ones.
pub fn hydrate(documents: &mut Vec<Document>, document: Document)
    ensures
        history_model::documents_view(final(documents)@) == placed(
            history_model::documents_view(old(documents)@),
            document@,
        ),
{
    let ghost view = history_model::documents_view(documents@);
    let ghost one = document@;
    let mut i: usize = 0;
    while i < documents.len() && !same(&documents[i].id, &document.id) && !before(
        &document.id,
        &documents[i].id,
    )
        invariant
            i <= documents.len(),
            documents@ == old(documents)@,
            view == history_model::documents_view(documents@),
            one == document@,
            forall|j: int|
                0 <= j < i ==> (#[trigger] view[j]).id != one.id && !texts::less(
                    one.id,
                    view[j].id,
                ),
        decreases documents.len() - i,
    {
        i = i + 1;
    }
    proof {
        lemma_placed(view, one, i as int);
    }
    if i < documents.len() && same(&documents[i].id, &document.id) {
        documents.set(i, document);
        assert(history_model::documents_view(documents@) =~= view.update(i as int, one));
    } else {
        documents.insert(i, document);
        assert(history_model::documents_view(documents@) =~= view.insert(i as int, one));
    }
}

} // verus!
