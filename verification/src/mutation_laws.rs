//! What ordered mutations promise: a batch that anything refuses changes nothing, a batch
//! that nothing refuses is written whole, and its receipt says exactly which.
use vstd::prelude::*;

use crate::digest::Name;
use crate::errors::{Error, ErrorCode};
use crate::mutation_apply;
use crate::mutation_apply::{
    Audited, BatchView, Fits, MutationFacts, PublicationView, RecordSizes, ReleasedView,
    TargetView,
};
use crate::mutation_receipt;
use crate::mutation_receipt::{
    Applied, OutcomeView, ReceiptHead, RowContext, RowView, VersionView,
};
use crate::receipt_chain;
use crate::receipt_chain::{ReceiptState, Stored};
use crate::receipt_paths;
use crate::texts;

verus! {

/// Whether nothing refuses the batch: it is of the tenant, its caller may act, may write
/// the collection of every operation and read what every assertion reads, and it has
/// between one and 256 operations, all of them named well.
pub open spec fn unrefused(batch: BatchView, tenant: Name) -> bool {
    &&& batch.tenant == tenant
    &&& batch.admitted_refusal is None
    &&& batch.resource_refusal is None
    &&& batch.lifecycle_refusal is None
    &&& forall|i: int|
        0 <= i < batch.operations.len() ==> (#[trigger] batch.operations[i]).write_refusal is None
    &&& forall|i: int|
        0 <= i < batch.read_refusals.len() ==> #[trigger] batch.read_refusals[i] is None
    &&& batch.caller_name_refusal is None
    &&& 0 < batch.operations.len() <= 256
    &&& batch.target_name_refusal is None
}

/// Whether the operation is the first that its caller may not write.
pub open spec fn first_unwritable(operations: Seq<TargetView>, at: int) -> bool {
    &&& 0 <= at < operations.len()
    &&& operations[at].write_refusal is Some
    &&& forall|i: int| 0 <= i < at ==> (#[trigger] operations[i]).write_refusal is None
}

/// Whether the read assertion is the first that its caller may not read.
pub open spec fn first_unreadable(refusals: Seq<Option<Error>>, at: int) -> bool {
    &&& 0 <= at < refusals.len()
    &&& refusals[at] is Some
    &&& forall|i: int| 0 <= i < at ==> #[trigger] refusals[i] is None
}

proof fn lemma_writes(operations: Seq<TargetView>, i: int)
    requires
        0 <= i <= operations.len(),
    ensures
        match mutation_apply::write_refusal(operations, i) {
            None => forall|j: int|
                i <= j < operations.len() ==> (#[trigger] operations[j]).write_refusal is None,
            Some(e) => exists|at: int|
                {
                    &&& i <= at < operations.len()
                    &&& (#[trigger] operations[at]).write_refusal == Some(e)
                    &&& forall|j: int|
                        i <= j < at ==> (#[trigger] operations[j]).write_refusal is None
                },
        },
    decreases operations.len() - i,
{
    if i < operations.len() {
        if operations[i].write_refusal is Some {
            assert(operations[i].write_refusal == mutation_apply::write_refusal(operations, i));
        } else {
            lemma_writes(operations, i + 1);
        }
    }
}

proof fn lemma_reads(refusals: Seq<Option<Error>>, i: int)
    requires
        0 <= i <= refusals.len(),
    ensures
        match mutation_apply::read_refusal(refusals, i) {
            None => forall|j: int| i <= j < refusals.len() ==> #[trigger] refusals[j] is None,
            Some(e) => exists|at: int|
                {
                    &&& i <= at < refusals.len()
                    &&& #[trigger] refusals[at] == Some(e)
                    &&& forall|j: int| i <= j < at ==> #[trigger] refusals[j] is None
                },
        },
    decreases refusals.len() - i,
{
    if i < refusals.len() {
        if refusals[i] is Some {
            assert(refusals[i] == mutation_apply::read_refusal(refusals, i));
        } else {
            lemma_reads(refusals, i + 1);
        }
    }
}

/// A batch is refused before its identity is looked at exactly where something refuses
/// it. Where its caller may act at all, the first operation that it may not write decides,
/// and behind the operations the first assertion that it may not read.
pub proof fn lemma_first_refusal(batch: BatchView, tenant: Name)
    ensures
        mutation_apply::batch_refusal(batch, tenant) is None <==> unrefused(batch, tenant),
        batch.tenant != tenant ==> mutation_apply::batch_refusal(batch, tenant) is Some
            && mutation_apply::batch_refusal(batch, tenant)->0.code == ErrorCode::Forbidden,
        batch.tenant == tenant && batch.admitted_refusal is Some ==> mutation_apply::batch_refusal(
            batch,
            tenant,
        ) == batch.admitted_refusal,
        batch.tenant == tenant && batch.admitted_refusal is None && batch.resource_refusal is Some
            ==> mutation_apply::batch_refusal(batch, tenant) == batch.resource_refusal,
        batch.tenant == tenant && batch.admitted_refusal is None && batch.resource_refusal is None
            && batch.lifecycle_refusal is Some ==> mutation_apply::batch_refusal(batch, tenant)
            == batch.lifecycle_refusal,
        batch.tenant == tenant && batch.admitted_refusal is None && batch.resource_refusal is None
            && batch.lifecycle_refusal is None ==> {
            &&& forall|at: int| #[trigger]
                first_unwritable(batch.operations, at) ==> mutation_apply::batch_refusal(
                    batch,
                    tenant,
                ) == batch.operations[at].write_refusal
            &&& (forall|i: int|
                0 <= i < batch.operations.len() ==> (
                #[trigger] batch.operations[i]).write_refusal is None) ==> forall|at: int|
                #[trigger]
                first_unreadable(batch.read_refusals, at) ==> mutation_apply::batch_refusal(
                    batch,
                    tenant,
                ) == batch.read_refusals[at]
        },
{
    lemma_writes(batch.operations, 0);
    lemma_reads(batch.read_refusals, 0);
    let write = mutation_apply::write_refusal(batch.operations, 0);
    let read = mutation_apply::read_refusal(batch.read_refusals, 0);
    if write is Some {
        let n = choose|at: int|
            {
                &&& 0 <= at < batch.operations.len()
                &&& (#[trigger] batch.operations[at]).write_refusal == write
                &&& forall|j: int|
                    0 <= j < at ==> (#[trigger] batch.operations[j]).write_refusal is None
            };
        assert(batch.operations[n].write_refusal is Some);
        assert forall|at: int| #[trigger] first_unwritable(batch.operations, at) implies at
            == n by {
            assert(batch.operations[at].write_refusal is Some);
        }
    } else {
        assert forall|at: int| !#[trigger] first_unwritable(batch.operations, at) by {}
    }
    if read is Some {
        let n = choose|at: int|
            {
                &&& 0 <= at < batch.read_refusals.len()
                &&& #[trigger] batch.read_refusals[at] == read
                &&& forall|j: int| 0 <= j < at ==> #[trigger] batch.read_refusals[j] is None
            };
        assert(batch.read_refusals[n] is Some);
        assert forall|at: int| #[trigger] first_unreadable(batch.read_refusals, at) implies at
            == n by {
            assert(batch.read_refusals[at] is Some);
        }
    } else {
        assert forall|at: int| !#[trigger] first_unreadable(batch.read_refusals, at) by {}
    }
}

/// Whether a state with one more event can be published.
pub open spec fn room(fits: Fits) -> bool {
    fits.audit && fits.snapshot && fits.completion
}

/// A batch that anything refuses changes nothing, whatever stands under its identity: it
/// is answered with a refusal, adds no row, changes no document, and is never audited as
/// committed. Where the event of it fits, the answer is the refusal itself.
pub proof fn lemma_refused_changes_nothing(
    state: ReceiptState,
    batch: BatchView,
    applied: Applied,
    stored: Option<Stored>,
    facts: MutationFacts,
    context: RowContext,
)
    requires
        !unrefused(batch, state.tenant),
    ensures
        ({
            let r = mutation_apply::ordered(state, batch, applied, stored, facts, context);
            let refusal = mutation_apply::batch_refusal(batch, state.tenant);
            &&& r is Ok
            &&& r->Ok_0.released is Refused
            &&& r->Ok_0.head == state.head
            &&& !r->Ok_0.changed
            &&& r->Ok_0.audited != Audited::Committed
            &&& mutation_apply::row_added(state, batch, applied, facts, r->Ok_0) is None
            &&& refusal is Some
            &&& room(facts.observed) ==> r->Ok_0.released == ReleasedView::Refused(refusal->0)
                && r->Ok_0.audited == Audited::Rejected
            &&& !room(facts.observed) ==> r->Ok_0.released->Refused_0.code
                == ErrorCode::AuditUnavailable
        }),
{
    lemma_first_refusal(batch, state.tenant);
}

/// The row that was found.
pub open spec fn found(stored: Option<Stored>) -> RowView {
    stored->0->Decoded_0.row@
}

/// What each answer to an ordered mutation rests on. Documents change exactly where a new
/// row says that they were written: nothing refused the batch, its identity had no row,
/// applying it succeeded and the result fits; every operation then has its version, in its
/// place, at the command's revision. A refusal that a row records is the one that applying
/// the batch came to, or that its result did not fit. A retained outcome is that of the
/// row that was found, for the very same request.
pub proof fn lemma_answer(
    state: ReceiptState,
    batch: BatchView,
    applied: Applied,
    stored: Option<Stored>,
    facts: MutationFacts,
    context: RowContext,
)
    requires
        mutation_apply::ordered(state, batch, applied, stored, facts, context) is Ok,
    ensures
        ({
            let p = mutation_apply::ordered(state, batch, applied, stored, facts, context)->Ok_0;
            let row = mutation_apply::row_added(state, batch, applied, facts, p);
            &&& p.changed == (p.released is Recorded && p.released->Recorded_0 is Written)
            &&& row is Some <==> p.released is Recorded
            &&& p.released matches ReleasedView::Recorded(outcome) ==> {
                &&& unrefused(batch, state.tenant)
                &&& !mutation_apply::has_row(state, batch, stored)
                &&& room(facts.reserved)
                &&& is_next_row(state, batch, applied, outcome, row->0)
                &&& p.head.count == state.head.count + 1
                &&& p.head.origin_incarnation == state.head.origin_incarnation
                &&& p.head.sha256 == mutation_receipt::row_sha256(row->0)
                &&& p.head.last_applied_revision == applied.revision
                &&& applied.revision > state.head.last_applied_revision
                &&& p.head.encoded_bytes == state.head.encoded_bytes + row->0.record_bytes
                    + context.frame_header_bytes
                &&& p.head.encoded_bytes <= state.max_receipt_bytes
            }
            &&& p.released matches ReleasedView::Recorded(
                OutcomeView::Written { revision, versions },
            ) ==> {
                &&& facts.attempt is Ok
                &&& room(facts.committed)
                &&& p.audited == Audited::Committed
                &&& revision == applied.revision
                &&& versions.len() == batch.operations.len()
                &&& forall|i: int|
                    0 <= i < versions.len() ==> (#[trigger] versions[i]).version
                        == applied.revision && versions[i].path == receipt_paths::path_of(
                        batch.operations[i].collection,
                        batch.operations[i].id,
                    )
            }
            &&& p.released matches ReleasedView::Recorded(
                OutcomeView::Refused { code, message },
            ) ==> {
                &&& room(facts.rejected)
                &&& p.audited == Audited::Rejected
                &&& facts.attempt matches Err(e) ==> code == e.code && message
                    == vstd::utf8::encode_utf8(e.message@)
                &&& facts.attempt is Ok ==> !room(facts.committed) && code
                    == ErrorCode::QuotaExceeded
            }
            &&& p.released matches ReleasedView::Retained(outcome) ==> {
                &&& unrefused(batch, state.tenant)
                &&& stored is Some && stored->0 is Decoded
                &&& found(stored).receipt.outcome == outcome
                &&& found(stored).receipt.request_digest == batch.request_digest
                &&& found(stored).key == mutation_receipt::key_of(
                    batch.principal,
                    batch.idempotency_key,
                )
                &&& 0 < found(stored).ordinal <= state.head.count
                &&& room(facts.observed)
                &&& p.audited == if outcome is Written {
                    Audited::Committed
                } else {
                    Audited::Rejected
                }
            }
            &&& p.released !is Recorded ==> p.head == state.head
            &&& p.released is Refused ==> p.audited != Audited::Committed
        }),
{
    lemma_first_refusal(batch, state.tenant);
    let p = mutation_apply::ordered(state, batch, applied, stored, facts, context)->Ok_0;
    if p.released is Recorded {
        let outcome = p.released->Recorded_0;
        lemma_collections(batch.operations, batch.operations.len() as int);
    }
}

/// Whether the row is the next one behind the head, is the batch's own, and records the
/// outcome for exactly the collections that its operations are of.
pub open spec fn is_next_row(
    state: ReceiptState,
    batch: BatchView,
    applied: Applied,
    outcome: OutcomeView,
    row: RowView,
) -> bool {
    &&& row.ordinal == state.head.count + 1
    &&& row.previous_sha256 == state.head.sha256
    &&& row.applied == applied
    &&& row.key == mutation_receipt::key_of(batch.principal, batch.idempotency_key)
    &&& row.receipt.scope.tenant == batch.tenant
    &&& row.receipt.scope.incarnation == state.incarnation
    &&& row.receipt.scope.principal == batch.principal
    &&& row.receipt.idempotency_key == batch.idempotency_key
    &&& row.receipt.recorded_revision == applied.revision
    &&& row.receipt.request_digest == batch.request_digest
    &&& row.receipt.outcome == outcome
    &&& lists_collections(batch.operations, batch.operations.len() as int, row.receipt.collections)
}

/// Whether the names are those of the collections of the first `n` operations, each once
/// and in ascending order.
pub open spec fn lists_collections(operations: Seq<TargetView>, n: int, names: Seq<Seq<u8>>) -> bool {
    &&& mutation_receipt::canonical(names)
    &&& forall|name: Seq<u8>|
        #![trigger names.contains(name)]
        names.contains(name) <==> exists|i: int|
            0 <= i < n && (#[trigger] operations[i]).collection == name
}

proof fn lemma_with_name(names: Seq<Seq<u8>>, name: Seq<u8>)
    requires
        mutation_receipt::canonical(names),
    ensures
        mutation_receipt::canonical(mutation_apply::with_name(names, name)),
        forall|other: Seq<u8>| #[trigger]
            mutation_apply::with_name(names, name).contains(other) <==> other == name
                || names.contains(other),
        mutation_apply::with_name(names, name).len() > 0,
        mutation_apply::with_name(names, name).len() <= names.len() + 1,
        mutation_apply::with_name(names, name)[0] == name || (names.len() > 0
            && mutation_apply::with_name(names, name)[0] == names[0]),
    decreases names.len(),
{
    let more = mutation_apply::with_name(names, name);
    if names.len() == 0 {
        assert(more[0] == name);
    } else if names[0] == name {
    } else if texts::less(name, names[0]) {
        assert(more =~= seq![name] + names);
        assert forall|i: int| 0 < i < more.len() implies texts::less(
            more[i - 1],
            #[trigger] more[i],
        ) by {
            if i > 1 {
                assert(more[i - 1] == names[i - 2] && more[i] == names[i - 1]);
            }
        }
        assert forall|other: Seq<u8>| #[trigger] more.contains(other) <==> other == name
            || names.contains(other) by {
            assert(more[0] == name);
            if names.contains(other) {
                let k = choose|k: int| 0 <= k < names.len() && names[k] == other;
                assert(more[k + 1] == other);
            }
            if more.contains(other) {
                let k = choose|k: int| 0 <= k < more.len() && more[k] == other;
                if k > 0 {
                    assert(names[k - 1] == other);
                }
            }
        }
    } else {
        let rest = names.drop_first();
        assert forall|i: int| 0 < i < rest.len() implies texts::less(
            rest[i - 1],
            #[trigger] rest[i],
        ) by {
            assert(rest[i - 1] == names[i] && rest[i] == names[i + 1]);
        }
        lemma_with_name(rest, name);
        let placed = mutation_apply::with_name(rest, name);
        assert(more =~= seq![names[0]] + placed);
        texts::lemma_total(name, names[0]);
        assert(texts::less(names[0], placed[0])) by {
            if placed[0] != name {
                assert(placed[0] == names[1]);
            }
        }
        assert forall|i: int| 0 < i < more.len() implies texts::less(
            more[i - 1],
            #[trigger] more[i],
        ) by {
            if i > 1 {
                assert(more[i - 1] == placed[i - 2] && more[i] == placed[i - 1]);
            }
        }
        assert forall|other: Seq<u8>| #[trigger] more.contains(other) <==> other == name
            || names.contains(other) by {
            assert(more[0] == names[0]);
            if names.contains(other) {
                let k = choose|k: int| 0 <= k < names.len() && names[k] == other;
                if k > 0 {
                    assert(rest[k - 1] == other);
                    assert(placed.contains(other));
                }
            }
            if other == name {
                assert(placed.contains(other));
            }
            if placed.contains(other) {
                let k = choose|k: int| 0 <= k < placed.len() && placed[k] == other;
                assert(more[k + 1] == other);
            }
            if more.contains(other) {
                let k = choose|k: int| 0 <= k < more.len() && more[k] == other;
                if k > 0 {
                    assert(placed[k - 1] == other);
                    assert(placed.contains(other));
                    if rest.contains(other) {
                        let m = choose|m: int| 0 <= m < rest.len() && rest[m] == other;
                        assert(names[m + 1] == other);
                    }
                }
            }
        }
    }
}

/// The collections of a receipt are exactly those of the batch's operations, each once and
/// in order.
pub proof fn lemma_collections(operations: Seq<TargetView>, n: int)
    requires
        0 <= n <= operations.len(),
    ensures
        lists_collections(operations, n, mutation_apply::collections_of(operations, n)),
        n > 0 ==> mutation_apply::collections_of(operations, n).len() > 0,
        mutation_apply::collections_of(operations, n).len() <= n,
    decreases n,
{
    if n > 0 {
        lemma_collections(operations, n - 1);
        let before = mutation_apply::collections_of(operations, n - 1);
        let last = operations[n - 1].collection;
        lemma_with_name(before, last);
        let names = mutation_apply::collections_of(operations, n);
        assert forall|name: Seq<u8>| #![trigger names.contains(name)]
            names.contains(name) <==> exists|i: int|
                0 <= i < n && (#[trigger] operations[i]).collection == name by {
            assert(names.contains(name) <==> name == last || before.contains(name));
            if name == last {
                assert(operations[n - 1].collection == name);
            }
            if before.contains(name) {
                let i = choose|i: int|
                    0 <= i < n - 1 && (#[trigger] operations[i]).collection == name;
                assert(operations[i].collection == name);
            }
            if exists|i: int| 0 <= i < n && (#[trigger] operations[i]).collection == name {
                let i = choose|i: int| 0 <= i < n && (#[trigger] operations[i]).collection == name;
                if i < n - 1 {
                    assert(before.contains(name));
                }
            }
        }
    }
}

proof fn lemma_versions(
    row: RowView,
    operations: Seq<TargetView>,
    versions: Seq<VersionView>,
    i: int,
    names: Seq<Seq<u8>>,
)
    requires
        0 <= i <= operations.len() == versions.len(),
        names == Seq::new(i as nat, |j: int| operations[j].collection),
        forall|j: int|
            0 <= j < versions.len() ==> (#[trigger] versions[j]).version == row.applied.revision
                && versions[j].path == receipt_paths::path_of(
                operations[j].collection,
                operations[j].id,
            ) && versions[j].path.len() <= 1026,
    ensures
        mutation_receipt::versions_checked(row, versions, None, i, names) == Ok::<
            Seq<Seq<u8>>,
            Error,
        >(Seq::new(operations.len(), |j: int| operations[j].collection)),
    decreases versions.len() - i,
{
    if i < versions.len() {
        receipt_paths::lemma_path(operations[i].collection, operations[i].id);
        assert(versions[i].path.len() <= 1026);
        let more = names.push(operations[i].collection);
        assert(more =~= Seq::new((i + 1) as nat, |j: int| operations[j].collection));
        lemma_versions(row, operations, versions, i + 1, more);
    }
}

proof fn lemma_names_checked(names: Seq<Seq<u8>>, i: int)
    requires
        0 <= i,
        mutation_receipt::canonical(names),
    ensures
        mutation_receipt::collections_checked(names, None, i) is Ok,
    decreases names.len() - i,
{
    if i < names.len() {
        if i > 0 {
            assert(texts::less(names[i - 1], names[i]));
        }
        lemma_names_checked(names, i + 1);
    }
}

/// Whether the paths of the batch's documents are no longer than a path may be.
pub open spec fn paths_fit(operations: Seq<TargetView>) -> bool {
    forall|i: int|
        0 <= i < operations.len() ==> receipt_paths::path_of(
            (#[trigger] operations[i]).collection,
            operations[i].id,
        ).len() <= 1026
}

/// Whether a row of the outcome holds, where nothing refuses its place and its names.
proof fn lemma_row_holds(
    state: ReceiptState,
    batch: BatchView,
    applied: Applied,
    outcome: OutcomeView,
    record_bytes: u64,
    context: RowContext,
)
    requires
        state.head.count < u64::MAX,
        state.incarnation == applied.incarnation,
        0 < batch.operations.len() <= 256,
        paths_fit(batch.operations),
        outcome is Written ==> outcome == mutation_apply::written(batch, applied.revision),
        context.position_refusal is None,
        context.identity_refusal is None,
        context.name_refusal is None,
        record_bytes <= 2097152,
        record_bytes + context.frame_header_bytes <= u64::MAX,
    ensures
        mutation_receipt::row_checked(
            receipt_chain::row_behind(
                state.head,
                mutation_apply::receipt_of(batch, state.incarnation, applied.revision, outcome),
                applied,
                record_bytes,
            ),
            context,
        ) is Ok,
{
    let operations = batch.operations;
    let n = operations.len() as int;
    let row = receipt_chain::row_behind(
        state.head,
        mutation_apply::receipt_of(batch, state.incarnation, applied.revision, outcome),
        applied,
        record_bytes,
    );
    let names = row.receipt.collections;
    lemma_collections(operations, n);
    lemma_names_checked(names, 0);
    if outcome is Written {
        let versions = outcome->versions;
        let all = Seq::new(operations.len(), |j: int| operations[j].collection);
        assert forall|j: int| 0 <= j < versions.len() implies (#[trigger] versions[j]).version
            == row.applied.revision && versions[j].path == receipt_paths::path_of(
            operations[j].collection,
            operations[j].id,
        ) && versions[j].path.len() <= 1026 by {
            assert(operations[j].id == operations[j].id);
        }
        assert(Seq::<Seq<u8>>::empty() =~= Seq::new(0, |j: int| operations[j].collection));
        lemma_versions(row, operations, versions, 0, Seq::empty());
        assert forall|name: Seq<u8>| #[trigger] all.contains(name) == names.contains(name) by {
            if all.contains(name) {
                let j = choose|j: int| 0 <= j < all.len() && all[j] == name;
                assert(operations[j].collection == name);
            }
            if names.contains(name) {
                let j = choose|j: int| 0 <= j < n && (#[trigger] operations[j]).collection == name;
                assert(all[j] == name);
            }
        }
    }
}

/// A batch that nothing refuses and whose identity is new is written: where there is room
/// for its row within the tenant's budget, applying it succeeded and the result can be
/// published, its documents change and its row says so. Where applying it failed, its row
/// records that failure. The room is that of one more row, which is no larger than the
/// widest refusal and the written record.
pub proof fn lemma_admitted(
    state: ReceiptState,
    batch: BatchView,
    applied: Applied,
    stored: Option<Stored>,
    facts: MutationFacts,
    context: RowContext,
)
    requires
        unrefused(batch, state.tenant),
        match stored {
            None => true,
            Some(Stored::Decoded(found)) => found.row@.ordinal > state.head.count,
            _ => false,
        },
        state.incarnation == applied.incarnation,
        applied.revision > state.head.last_applied_revision,
        paths_fit(batch.operations),
        context.position_refusal is None,
        context.identity_refusal is None,
        context.name_refusal is None,
        facts.sizes.written <= 2097152,
        facts.sizes.refusal_frame + 18 + 6 * facts.sizes.max_message_bytes <= 2097152,
        state.head.count < u64::MAX,
        state.head.encoded_bytes + 2097152 + context.frame_header_bytes <= state.max_receipt_bytes,
        room(facts.reserved),
        room(facts.rejected),
        facts.attempt matches Err(e) ==> vstd::utf8::encode_utf8(e.message@).len()
            <= facts.sizes.max_message_bytes,
        facts.attempt is Ok ==> room(facts.committed),
    ensures
        ({
            let r = mutation_apply::ordered(state, batch, applied, stored, facts, context);
            &&& r is Ok
            &&& r->Ok_0.released is Recorded
            &&& r->Ok_0.changed == facts.attempt is Ok
            &&& facts.attempt is Ok ==> r->Ok_0.released->Recorded_0 is Written
            &&& facts.attempt matches Err(e) ==> r->Ok_0.released == ReleasedView::Recorded(
                OutcomeView::Refused {
                    code: e.code,
                    message: vstd::utf8::encode_utf8(e.message@),
                },
            )
        }),
{
    lemma_first_refusal(batch, state.tenant);
    let sizes = facts.sizes;
    let widest = mutation_apply::widest_refusal(sizes.max_message_bytes);
    let written = mutation_apply::written(batch, applied.revision);
    mutation_apply::lemma_widest(sizes, ErrorCode::Conflict, Seq::empty());
    let refused_bytes = mutation_apply::record_bytes_of(sizes, widest);
    lemma_row_holds(state, batch, applied, widest, refused_bytes, context);
    lemma_row_holds(state, batch, applied, written, sizes.written, context);
    let permit = mutation_apply::permitted(state, batch, applied, sizes, context);
    assert(permit is Ok);
    let outcome = match facts.attempt {
        Ok(()) => written,
        Err(e) => mutation_apply::refused(e),
    };
    mutation_apply::lemma_terminal_reserved(state, batch, applied, sizes, context, outcome);
}

} // verus!
