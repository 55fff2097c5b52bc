//! What holds of the recovery journal across its commands: what is written
//! stays, and a command that is told twice changes nothing the second time.
use vstd::prelude::*;

use crate::activation_rules;
use crate::errors::Error;
use crate::first_refusal;
use crate::journal_rules;
use crate::model::{
    CompletionHistory, Dispatch, DispatchOutcome, PhaseRecord, RecoveryAuthorization,
    RecoveryMutation, RecoveryRecord, RecoveryStart, TargetResponse, Voter, Voters,
};
use crate::receiver_rules;
use crate::record_forms;
use crate::record_forms::RecoveryFormsView;
use crate::rules;
use crate::snapshot_rules;
use crate::views::{RecoveryView, StateView};

verus! {

/// Whether the journal is keyed by the identities that its rows hold, and each
/// pending phase is a row of its own operation that has no outcome yet.
pub open spec fn indexed(s: StateView) -> bool {
    &&& forall|k: u128| #[trigger]
        s.recovery.operations.dom().contains(k) ==> s.recovery.operations[k].request.operation_id
            == k && awaiting(s.recovery.phases, k, s.recovery.operations[k].pending_phase)
    &&& forall|k: u128| #[trigger]
        s.recovery.phases.dom().contains(k) ==> s.recovery.phases[k].phase_id == k
}

/// Whether the phase, if any, is an unanswered row of the operation.
pub open spec fn awaiting(
    phases: Map<u128, PhaseRecord>,
    operation: u128,
    pending: Option<u128>,
) -> bool {
    match pending {
        None => true,
        Some(id) => phases.dom().contains(id) && phases[id].operation_id == operation
            && phases[id].outcome is None,
    }
}

/// Whether the second head is of the same recovery: the same request of the
/// same principal since the same revision, with its stop request kept.
pub open spec fn same_recovery(before: RecoveryRecord, after: RecoveryRecord) -> bool {
    &&& after.request == before.request
    &&& after.original_principal == before.original_principal
    &&& after.created_revision == before.created_revision
    &&& before.stop_request is Some ==> after.stop_request == before.stop_request
}

/// Whether the second row is the first one, or the first one answered: what
/// was dispatched is never rewritten, and neither is an outcome.
pub open spec fn same_phase(before: PhaseRecord, after: PhaseRecord) -> bool {
    after == before || (before.outcome is None && after.outcome is Some && after == (PhaseRecord {
        outcome: after.outcome,
        resolved_revision: after.resolved_revision,
        ..before
    }))
}

pub open spec fn phases_kept(
    before: Map<u128, PhaseRecord>,
    after: Map<u128, PhaseRecord>,
) -> bool {
    forall|k: u128| #[trigger]
        before.dom().contains(k) ==> after.dom().contains(k) && same_phase(before[k], after[k])
}

pub open spec fn histories_kept(
    before: Map<u128, CompletionHistory>,
    after: Map<u128, CompletionHistory>,
) -> bool {
    forall|k: u128| #[trigger]
        before.dom().contains(k) ==> after.dom().contains(k) && after[k] == before[k]
}

pub open spec fn heads_kept(
    before: Map<u128, RecoveryRecord>,
    after: Map<u128, RecoveryRecord>,
) -> bool {
    forall|k: u128| #[trigger]
        before.dom().contains(k) ==> after.dom().contains(k) && same_recovery(before[k], after[k])
}

pub open spec fn targets_kept(before: Map<u128, u128>, after: Map<u128, u128>) -> bool {
    forall|k: u128| #[trigger]
        before.dom().contains(k) ==> after.dom().contains(k) && after[k] == before[k]
}

/// Whether all that the first journal holds is in the second one: every
/// recovery, every dispatch and outcome, every closed completion attempt and
/// every binding of a target incarnation.
pub open spec fn retained(before: RecoveryView, after: RecoveryView) -> bool {
    &&& heads_kept(before.operations, after.operations)
    &&& phases_kept(before.phases, after.phases)
    &&& targets_kept(before.targets, after.targets)
    &&& histories_kept(before.completion_history, after.completion_history)
}

/// Nothing is lost over two steps that each lose nothing.
pub proof fn lemma_retained_transitive(a: RecoveryView, b: RecoveryView, c: RecoveryView)
    requires
        retained(a, b),
        retained(b, c),
    ensures
        retained(a, c),
{
    assert forall|k: u128| #[trigger] a.phases.dom().contains(k) implies c.phases.dom().contains(k)
        && same_phase(a.phases[k], c.phases[k]) by {
        assert(b.phases.dom().contains(k));
    }
    assert forall|k: u128| #[trigger] a.operations.dom().contains(k) implies
        c.operations.dom().contains(k) && same_recovery(a.operations[k], c.operations[k]) by {
        assert(b.operations.dom().contains(k));
    }
    assert forall|k: u128| #[trigger] a.targets.dom().contains(k) implies c.targets.dom().contains(
        k,
    ) && c.targets[k] == a.targets[k] by {
        assert(b.targets.dom().contains(k));
    }
    assert forall|k: u128| #[trigger] a.completion_history.dom().contains(k) implies
        c.completion_history.dom().contains(k) && c.completion_history[k]
        == a.completion_history[k] by {
        assert(b.completion_history.dom().contains(k));
    }
}

/// A refusal or an outcome never makes another recovery of the head, and a
/// closed attempt is a new one.
pub proof fn lemma_advance(
    s: StateView,
    op: RecoveryRecord,
    prepared: PhaseRecord,
    outcome: DispatchOutcome,
)
    requires
        journal_rules::advance(s, op, prepared, outcome) is Ok,
    ensures
        ({
            let (head, closed) = journal_rules::advance(s, op, prepared, outcome)->Ok_0;
            &&& same_recovery(op, head)
            &&& head.stop_request == op.stop_request
            &&& closed matches Some(history)
                ==> !s.recovery.completion_history.dom().contains(history.scope.intent)
        }),
{
    reveal(journal_rules::advance);
    reveal(journal_rules::advanced_by_issuer);
    reveal(journal_rules::advanced_by_route);
    reveal(journal_rules::advanced_by_retirement);
    reveal(journal_rules::advanced_by_target);
    reveal(journal_rules::authority_progress);
    reveal(journal_rules::activated_progress);
    reveal(journal_rules::stopped_activation_progress);
    reveal(journal_rules::target_progress);
    reveal(journal_rules::materialized_progress);
    reveal(journal_rules::confirmed_progress);
    reveal(journal_rules::clean_progress);
    reveal(journal_rules::control_progress);
    reveal(rules::install);
    reveal(rules::born);
}

/// What a rewriting of one row keeps.
proof fn lemma_rewritten(s: StateView, id: u128, row: PhaseRecord)
    requires
        !s.recovery.phases.dom().contains(id) || same_phase(s.recovery.phases[id], row),
    ensures
        retained(s.recovery, rules::rewritten(s, Some((id, row))).recovery),
{
}

/// What an optional rewriting keeps, where it answers an unanswered row.
proof fn lemma_answered(s: StateView, change: Option<(u128, PhaseRecord)>)
    requires
        change matches Some(c) ==> s.recovery.phases.dom().contains(c.0) && same_phase(
            s.recovery.phases[c.0],
            c.1,
        ) && c.1.phase_id == s.recovery.phases[c.0].phase_id,
    ensures
        retained(s.recovery, rules::rewritten(s, change).recovery),
        rules::rewritten(s, change).recovery.operations == s.recovery.operations,
        rules::rewritten(s, change).recovery.targets == s.recovery.targets,
        rules::rewritten(s, change).recovery.completion_history == s.recovery.completion_history,
        rules::rewritten(s, change).revision == s.revision,
        rules::rewritten(s, change).recovery.phases.dom() =~= s.recovery.phases.dom(),
{
}

/// Whether the second journal is the first one with some rows of one
/// operation answered.
pub open spec fn answers(before: StateView, after: StateView, operation: u128) -> bool {
    &&& retained(before.recovery, after.recovery)
    &&& after.recovery.operations == before.recovery.operations
    &&& after.recovery.targets == before.recovery.targets
    &&& after.recovery.completion_history == before.recovery.completion_history
    &&& after.recovery.phases.dom() =~= before.recovery.phases.dom()
    &&& forall|k: u128| #[trigger]
        after.recovery.phases.dom().contains(k) ==> after.recovery.phases[k]
            == before.recovery.phases[k] || before.recovery.phases[k].operation_id == operation
}

proof fn lemma_answers_transitive(a: StateView, b: StateView, c: StateView, operation: u128)
    requires
        answers(a, b, operation),
        answers(b, c, operation),
    ensures
        answers(a, c, operation),
{
    lemma_retained_transitive(a.recovery, b.recovery, c.recovery);
    assert forall|k: u128| #[trigger] c.recovery.phases.dom().contains(k) implies
        c.recovery.phases[k] == a.recovery.phases[k] || a.recovery.phases[k].operation_id
        == operation by {
        assert(b.recovery.phases.dom().contains(k));
        assert(a.recovery.phases.dom().contains(k));
        assert(same_phase(a.recovery.phases[k], b.recovery.phases[k]));
    }
}

/// The answers that an observation gives.
proof fn lemma_observed(
    s: StateView,
    op: RecoveryRecord,
    row: PhaseRecord,
    response: TargetResponse,
)
    requires
        journal_rules::observed(s, op, row, response) is Ok,
    ensures
        answers(
            s,
            journal_rules::observed(s, op, row, response)->Ok_0,
            op.request.operation_id,
        ),
{
    reveal(journal_rules::observed);
    reveal(receiver_rules::prior);
    reveal(receiver_rules::linked_row);
    reveal(receiver_rules::resolving);
    reveal(receiver_rules::resolved_resolver);
    reveal(receiver_rules::resolved_original);
    reveal(rules::phase);
    let operation = op.request.operation_id;
    let first = receiver_rules::prior(s, op, row, response)->Ok_0;
    lemma_answered(s, first);
    let next = rules::rewritten(s, first);
    assert(answers(s, next, operation));
    if response.outcome is CompletionTerminalStatus {
        let second = receiver_rules::resolved_resolver(next, op, row.phase_id)->Ok_0;
        lemma_answered(next, second);
        assert(answers(next, rules::rewritten(next, second), operation));
        lemma_answers_transitive(s, next, rules::rewritten(next, second), operation);
    } else if response.outcome is Inspected {
        let second = receiver_rules::resolved_original(next, op, row.phase_id)->Ok_0;
        lemma_answered(next, second);
        assert(answers(next, rules::rewritten(next, second), operation));
        lemma_answers_transitive(s, next, rules::rewritten(next, second), operation);
    }
}

/// The answers that a resolution gives: its own, and those that it implies.
pub proof fn lemma_settled(
    s: StateView,
    op: RecoveryRecord,
    id: u128,
    prepared: PhaseRecord,
    outcome: DispatchOutcome,
)
    requires
        journal_rules::settled_state(s, op, id, prepared, outcome) is Ok,
        s.recovery.phases.dom().contains(id),
        s.recovery.phases[id] == prepared,
        prepared.operation_id == op.request.operation_id,
        prepared.outcome is None,
    ensures
        ({
            let next = journal_rules::settled_state(s, op, id, prepared, outcome)->Ok_0;
            &&& answers(s, next, op.request.operation_id)
            &&& next.recovery.phases[id].outcome == Some(outcome)
            &&& next.revision == s.revision
        }),
{
    reveal(journal_rules::settled_state);
    reveal(journal_rules::stop_resolves);
    reveal(journal_rules::stopped_activation);
    reveal(rules::phase);
    reveal(journal_rules::observed);
    reveal(rules::native);
    let operation = op.request.operation_id;
    let change = journal_rules::stop_resolves(s, op, prepared, outcome)->Ok_0;
    lemma_answered(s, change);
    let stopped = rules::rewritten(s, change);
    let row = journal_rules::settled(prepared, outcome, s.revision);
    let resolved = rules::rewritten(stopped, Some((id, row)));
    assert(answers(s, stopped, operation));
    assert(answers(s, resolved, operation)) by {
        assert forall|k: u128| #[trigger] s.recovery.phases.dom().contains(k) implies
            resolved.recovery.phases.dom().contains(k) && same_phase(
            s.recovery.phases[k],
            resolved.recovery.phases[k],
        ) by {
            if k != id {
                assert(resolved.recovery.phases[k] == stopped.recovery.phases[k]);
            }
        }
    }
    match rules::native(Some(outcome)) {
        None => {},
        Some(response) => {
            lemma_observed(resolved, op, row, response);
            let next = journal_rules::observed(resolved, op, row, response)->Ok_0;
            lemma_answers_transitive(s, resolved, next, operation);
            assert(resolved.recovery.phases.dom().contains(id));
            assert(same_phase(resolved.recovery.phases[id], next.recovery.phases[id]));
        },
    }
}

/// What a head put over answered or added rows keeps.
proof fn lemma_touched(s: StateView, next: StateView, op: RecoveryRecord, head: RecoveryRecord)
    requires
        indexed(s),
        s.recovery.operations.dom().contains(op.request.operation_id),
        same_recovery(s.recovery.operations[op.request.operation_id], head),
        head.request == op.request,
        next.recovery.operations == s.recovery.operations,
        retained(s.recovery, next.recovery),
        forall|k: u128| #[trigger]
            next.recovery.phases.dom().contains(k) ==> next.recovery.phases[k].phase_id == k,
        forall|k: u128| #[trigger]
            s.recovery.phases.dom().contains(k) ==> next.recovery.phases[k]
                == s.recovery.phases[k] || s.recovery.phases[k].operation_id
                == op.request.operation_id,
        awaiting(next.recovery.phases, op.request.operation_id, head.pending_phase),
    ensures
        ({
            let (last, put) = journal_rules::touched(next, head);
            &&& indexed(last)
            &&& retained(s.recovery, last.recovery)
            &&& put.request == op.request
            &&& last.recovery.operations.dom().contains(op.request.operation_id)
            &&& last.recovery.operations[op.request.operation_id] == put
        }),
{
    let id = op.request.operation_id;
    let (last, put) = journal_rules::touched(next, head);
    assert forall|k: u128| #[trigger] last.recovery.operations.dom().contains(k) implies
        last.recovery.operations[k].request.operation_id == k && awaiting(
        last.recovery.phases,
        k,
        last.recovery.operations[k].pending_phase,
    ) by {
        if k != id {
            assert(s.recovery.operations.dom().contains(k));
            match s.recovery.operations[k].pending_phase {
                None => {},
                Some(p) => {
                    assert(s.recovery.phases.dom().contains(p));
                    assert(next.recovery.phases.dom().contains(p));
                },
            }
        }
    }
    assert forall|k: u128| #[trigger] s.recovery.operations.dom().contains(k) implies
        last.recovery.operations.dom().contains(k) && same_recovery(
        s.recovery.operations[k],
        last.recovery.operations[k],
    ) by {}
}

proof fn lemma_start(s: StateView, a: RecoveryAuthorization, request: RecoveryStart)
    requires
        indexed(s),
        journal_rules::start(s, a, request) is Ok,
    ensures
        ({
            let (next, head) = journal_rules::start(s, a, request)->Ok_0;
            &&& indexed(next)
            &&& retained(s.recovery, next.recovery)
            &&& head.request == request
            &&& next.recovery.operations.dom().contains(request.operation_id)
            &&& next.recovery.operations[request.operation_id] == head
        }),
{
    reveal(journal_rules::start);
    reveal(journal_rules::started_head);
    let (next, head) = journal_rules::start(s, a, request)->Ok_0;
    assert forall|k: u128| #[trigger] next.recovery.operations.dom().contains(k) implies
        next.recovery.operations[k].request.operation_id == k && awaiting(
        next.recovery.phases,
        k,
        next.recovery.operations[k].pending_phase,
    ) by {
        if k != request.operation_id {
            assert(s.recovery.operations.dom().contains(k));
        }
    }
}

proof fn lemma_stop(s: StateView, op: RecoveryRecord, command_id: u128)
    requires
        indexed(s),
        s.recovery.operations.dom().contains(op.request.operation_id),
        s.recovery.operations[op.request.operation_id] == op,
        journal_rules::stop(s, op, command_id) is Ok,
    ensures
        ({
            let (next, head) = journal_rules::stop(s, op, command_id)->Ok_0;
            &&& indexed(next)
            &&& retained(s.recovery, next.recovery)
            &&& head.request == op.request
            &&& head.stop_request == Some(command_id)
            &&& next.recovery.operations.dom().contains(op.request.operation_id)
            &&& next.recovery.operations[op.request.operation_id] == head
        }),
{
    reveal(journal_rules::stop);
    reveal(journal_rules::stopping);
    if op.stop_request is None {
        lemma_touched(s, s, op, journal_rules::stopping(op, command_id));
    }
}

proof fn lemma_prepare(
    s: StateView,
    op: RecoveryRecord,
    id: u128,
    sequence: u64,
    pending: Option<u128>,
    input: Dispatch,
    a: RecoveryAuthorization,
)
    requires
        indexed(s),
        s.recovery.operations.dom().contains(op.request.operation_id),
        s.recovery.operations[op.request.operation_id] == op,
        journal_rules::prepare(s, op, id, sequence, pending, input, a) is Ok,
    ensures
        ({
            let (next, head) = journal_rules::prepare(
                s,
                op,
                id,
                sequence,
                pending,
                input,
                a,
            )->Ok_0;
            &&& indexed(next)
            &&& retained(s.recovery, next.recovery)
            &&& head.request == op.request
            &&& next.recovery.operations.dom().contains(op.request.operation_id)
            &&& next.recovery.operations[op.request.operation_id] == head
            &&& next.recovery.phases.dom().contains(id)
            &&& next.recovery.phases[id].operation_id == op.request.operation_id
            &&& next.recovery.phases[id].sequence == sequence
            &&& next.recovery.phases[id].input == input
        }),
{
    reveal(journal_rules::prepare);
    if !s.recovery.phases.dom().contains(id) {
        reveal(journal_rules::displaced);
        reveal(journal_rules::prepare_admitted);
        reveal(journal_rules::prepared_head);
        reveal(journal_rules::prepared_row);
        reveal(journal_rules::marked);
        reveal(journal_rules::marked_target);
        reveal(journal_rules::superseded);
        reveal(rules::phase);
        let now = a.admitted_at_ms;
        let moved = journal_rules::displaced(s, op, input, now)->Ok_0;
        assert(moved.pending_phase == op.pending_phase);
        assert(moved.request == op.request);
        let change = journal_rules::superseded(s, moved, id, input, now)->Ok_0;
        let scope = rules::prepared_scope(s, moved, id, input)->Ok_0;
        let row = journal_rules::prepared_row(s, moved, id, sequence, scope, input, a);
        lemma_answered(s, change);
        let first = rules::rewritten(s, change);
        assert(!first.recovery.phases.dom().contains(id));
        lemma_rewritten(first, id, row);
        let next = rules::rewritten(first, Some((id, row)));
        lemma_retained_transitive(s.recovery, first.recovery, next.recovery);
        let head = journal_rules::prepared_head(moved, id, input);
        assert(same_recovery(op, head));
        assert forall|k: u128| #[trigger] next.recovery.phases.dom().contains(k) implies
            next.recovery.phases[k].phase_id == k by {
            if k != id {
                assert(s.recovery.phases.dom().contains(k));
            }
        }
        lemma_touched(s, next, op, head);
    }
}

proof fn lemma_publish(s: StateView, op: RecoveryRecord, id: u128, now: u64)
    requires
        indexed(s),
        s.recovery.operations.dom().contains(op.request.operation_id),
        s.recovery.operations[op.request.operation_id] == op,
        journal_rules::publish(s, op, id, now) is Ok,
    ensures
        ({
            let (next, head) = journal_rules::publish(s, op, id, now)->Ok_0;
            &&& indexed(next)
            &&& retained(s.recovery, next.recovery)
            &&& head.request == op.request
            &&& next.recovery.operations.dom().contains(op.request.operation_id)
            &&& next.recovery.operations[op.request.operation_id] == head
            &&& next.recovery.phases.dom().contains(id)
            &&& next.recovery.phases[id].operation_id == op.request.operation_id
            &&& next.recovery.phases[id].input is PublishRoute
            &&& next.recovery.phases[id].outcome is Some
        }),
{
    reveal(journal_rules::publish);
    reveal(rules::phase);
    let prepared = s.recovery.phases[id];
    if prepared.outcome is None {
        reveal(journal_rules::publish_pending);
        reveal(activation_rules::rerouted);
        let input = prepared.input->PublishRoute_0;
        let outcome = activation_rules::published(s, op, input)->Ok_0;
        let row = journal_rules::settled(prepared, outcome, s.revision);
        let routed = journal_rules::after_publication(s, op, input, outcome);
        assert(routed.recovery == s.recovery);
        lemma_advance(routed, op, row, outcome);
        let (head, closed) = journal_rules::advance(routed, op, row, outcome)->Ok_0;
        let kept = rules::archived(routed, closed);
        assert(retained(s.recovery, kept.recovery));
        lemma_rewritten(kept, id, row);
        let next = rules::rewritten(kept, Some((id, row)));
        lemma_retained_transitive(s.recovery, kept.recovery, next.recovery);
        assert forall|k: u128| #[trigger] next.recovery.phases.dom().contains(k) implies
            next.recovery.phases[k].phase_id == k by {
            assert(s.recovery.phases.dom().contains(k));
        }
        lemma_touched(s, next, op, RecoveryRecord { pending_phase: None, ..head });
    }
}

proof fn lemma_resolve(s: StateView, op: RecoveryRecord, id: u128, outcome: DispatchOutcome)
    requires
        indexed(s),
        s.recovery.operations.dom().contains(op.request.operation_id),
        s.recovery.operations[op.request.operation_id] == op,
        journal_rules::resolve(s, op, id, outcome) is Ok,
    ensures
        ({
            let (next, head) = journal_rules::resolve(s, op, id, outcome)->Ok_0;
            &&& indexed(next)
            &&& retained(s.recovery, next.recovery)
            &&& head.request == op.request
            &&& next.recovery.operations.dom().contains(op.request.operation_id)
            &&& next.recovery.operations[op.request.operation_id] == head
            &&& next.recovery.phases.dom().contains(id)
            &&& next.recovery.phases[id].operation_id == op.request.operation_id
            &&& next.recovery.phases[id].outcome == Some(outcome)
        }),
{
    reveal(journal_rules::resolve);
    reveal(rules::phase);
    let prepared = s.recovery.phases[id];
    if prepared.outcome is None {
        reveal(journal_rules::resolve_pending);
        lemma_settled(s, op, id, prepared, outcome);
        let settled = journal_rules::settled_state(s, op, id, prepared, outcome)->Ok_0;
        lemma_advance(settled, op, prepared, outcome);
        let (head, closed) = journal_rules::advance(settled, op, prepared, outcome)->Ok_0;
        let next = rules::archived(settled, closed);
        assert(retained(settled.recovery, next.recovery));
        lemma_retained_transitive(s.recovery, settled.recovery, next.recovery);
        assert forall|k: u128| #[trigger] next.recovery.phases.dom().contains(k) implies
            next.recovery.phases[k].phase_id == k by {
            assert(s.recovery.phases.dom().contains(k));
            assert(same_phase(s.recovery.phases[k], next.recovery.phases[k]));
        }
        assert(same_phase(s.recovery.phases[id], next.recovery.phases[id]));
        lemma_touched(s, next, op, RecoveryRecord { pending_phase: None, ..head });
    }
}

/// The operation that a command is about.
pub open spec fn subject(mutation: RecoveryMutation) -> u128 {
    match mutation {
        RecoveryMutation::Start(request) => request.operation_id,
        RecoveryMutation::Stop { operation_id, command_id } => operation_id,
        RecoveryMutation::Prepare {
            operation_id,
            phase_id,
            expected_sequence,
            expected_pending,
            input,
        } => operation_id,
        RecoveryMutation::PublishRoute { operation_id, phase_id } => operation_id,
        RecoveryMutation::Resolve { operation_id, phase_id, outcome } => operation_id,
    }
}

/// Every accepted command keeps the journal indexed and everything in it: no
/// recovery, dispatch, outcome, closed attempt or target binding is ever lost
/// or rewritten. The head that it gives back is the one that it put.
pub proof fn lemma_nothing_lost(
    s: StateView,
    a: RecoveryAuthorization,
    mutation: RecoveryMutation,
)
    requires
        indexed(s),
        journal_rules::transition(s, a, mutation) is Ok,
    ensures
        ({
            let (next, head) = journal_rules::transition(s, a, mutation)->Ok_0;
            &&& indexed(next)
            &&& retained(s.recovery, next.recovery)
            &&& next.recovery.operations.dom().contains(subject(mutation))
            &&& next.recovery.operations[subject(mutation)] == head
        }),
{
    reveal(journal_rules::transition);
    match mutation {
        RecoveryMutation::Start(request) => {
            lemma_start(s, a, request);
        },
        RecoveryMutation::Stop { operation_id, command_id } => {
            lemma_stop(s, s.recovery.operations[operation_id], command_id);
        },
        RecoveryMutation::Prepare {
            operation_id,
            phase_id,
            expected_sequence,
            expected_pending,
            input,
        } => {
            lemma_prepare(
                s,
                s.recovery.operations[operation_id],
                phase_id,
                expected_sequence,
                expected_pending,
                input,
                a,
            );
        },
        RecoveryMutation::PublishRoute { operation_id, phase_id } => {
            lemma_publish(s, s.recovery.operations[operation_id], phase_id, a.admitted_at_ms);
        },
        RecoveryMutation::Resolve { operation_id, phase_id, outcome } => {
            lemma_resolve(s, s.recovery.operations[operation_id], phase_id, outcome);
        },
    }
}

/// A command that is told again, at any later revision and under any
/// authorization, is answered with the same head and changes nothing.
pub proof fn lemma_replay(
    s: StateView,
    a: RecoveryAuthorization,
    mutation: RecoveryMutation,
    revision: u64,
    b: RecoveryAuthorization,
)
    requires
        indexed(s),
        journal_rules::transition(s, a, mutation) is Ok,
    ensures
        ({
            let (next, head) = journal_rules::transition(s, a, mutation)->Ok_0;
            let later = journal_rules::at_revision(next, revision);
            journal_rules::transition(later, b, mutation) == Ok::<(StateView, RecoveryRecord), Error>(
                (later, head),
            )
        }),
{
    lemma_nothing_lost(s, a, mutation);
    reveal(journal_rules::transition);
    let (next, head) = journal_rules::transition(s, a, mutation)->Ok_0;
    match mutation {
        RecoveryMutation::Start(request) => {
            lemma_start(s, a, request);
            reveal(journal_rules::start);
        },
        RecoveryMutation::Stop { operation_id, command_id } => {
            lemma_stop(s, s.recovery.operations[operation_id], command_id);
            reveal(journal_rules::stop);
        },
        RecoveryMutation::Prepare {
            operation_id,
            phase_id,
            expected_sequence,
            expected_pending,
            input,
        } => {
            lemma_prepare(
                s,
                s.recovery.operations[operation_id],
                phase_id,
                expected_sequence,
                expected_pending,
                input,
                a,
            );
            reveal(journal_rules::prepare);
        },
        RecoveryMutation::PublishRoute { operation_id, phase_id } => {
            lemma_publish(s, s.recovery.operations[operation_id], phase_id, a.admitted_at_ms);
            reveal(journal_rules::publish);
            reveal(rules::phase);
        },
        RecoveryMutation::Resolve { operation_id, phase_id, outcome } => {
            lemma_resolve(s, s.recovery.operations[operation_id], phase_id, outcome);
            reveal(journal_rules::resolve);
            reveal(rules::phase);
        },
    }
}

/// A target incarnation that a recovery has bound is refused to every other
/// one, for good: while the binding is retained, no start of another operation
/// on it is accepted.
pub proof fn lemma_target_bound(
    s: StateView,
    later: StateView,
    a: RecoveryAuthorization,
    request: RecoveryStart,
)
    requires
        retained(s.recovery, later.recovery),
        s.recovery.targets.dom().contains(request.target_incarnation),
        !later.recovery.operations.dom().contains(request.operation_id),
    ensures
        journal_rules::transition(later, a, RecoveryMutation::Start(request)) is Err,
{
    reveal(journal_rules::transition);
    reveal(journal_rules::start);
}

/// A journal that passes validation is indexed.
pub proof fn lemma_valid_journal_indexed(s: StateView, forms: RecoveryFormsView)
    requires
        s.recovery.operations.dom().finite(),
        s.recovery.phases.dom().finite(),
        snapshot_rules::journal(s, forms) is Ok,
    ensures
        indexed(s),
{
    reveal(snapshot_rules::journal);
    if snapshot_rules::is_empty(s.recovery) {
        assert(s.recovery.operations.dom() =~= Set::empty());
        assert(s.recovery.phases.dom() =~= Set::empty());
    } else {
        reveal(snapshot_rules::operation_checked);
        reveal(snapshot_rules::head_checked);
        reveal(snapshot_rules::head_bound);
        reveal(snapshot_rules::pending_held);
        reveal(snapshot_rules::phase_checked);
        reveal(snapshot_rules::phase_within);
        reveal(rules::phase);
        let heads = |key: u128, op: RecoveryRecord|
            record_forms::formed(
                forms.operations.get(key),
                snapshot_rules::operation_checked(s, key, op),
            );
        let rows = |key: u128, p: PhaseRecord|
            record_forms::formed(
                forms.phases.get(key),
                snapshot_rules::phase_checked(s, key, p, forms.inputs.get(key)),
            );
        first_refusal::lemma_every(s.recovery.operations, heads);
        first_refusal::lemma_every(s.recovery.phases, rows);
        assert forall|k: u128| #[trigger] s.recovery.operations.dom().contains(k) implies
            s.recovery.operations[k].request.operation_id == k && awaiting(
            s.recovery.phases,
            k,
            s.recovery.operations[k].pending_phase,
        ) by {
            assert(heads(k, s.recovery.operations[k]) is Ok);
        }
        assert forall|k: u128| #[trigger] s.recovery.phases.dom().contains(k) implies
            s.recovery.phases[k].phase_id == k by {
            assert(rows(k, s.recovery.phases[k]) is Ok);
        }
    }
}

/// A later journal that is accepted as the successor of an earlier one has all
/// that is permanent in it: every recovery under its request, every dispatch
/// with the outcome that it had, every target binding and every closed attempt.
pub proof fn lemma_successor_keeps(before: StateView, after: StateView)
    requires
        snapshot_rules::successor(before, after) is Ok,
    ensures
        heads_kept(before.recovery.operations, after.recovery.operations),
        targets_kept(before.recovery.targets, after.recovery.targets),
        histories_kept(before.recovery.completion_history, after.recovery.completion_history),
        forall|k: u128| #[trigger]
            before.recovery.phases.dom().contains(k) ==> after.recovery.phases.dom().contains(k)
                && snapshot_rules::phase_same(before.recovery.phases[k], after.recovery.phases[k]),
{
    reveal(snapshot_rules::successor);
    reveal(snapshot_rules::operation_kept);
    reveal(snapshot_rules::head_kept);
    reveal(snapshot_rules::identity_kept);
    reveal(snapshot_rules::phase_kept);
    reveal(snapshot_rules::target_kept);
    reveal(snapshot_rules::history_kept);
    let heads = |key: u128, old: RecoveryRecord| snapshot_rules::operation_kept(
        before,
        after,
        key,
        old,
    );
    let rows = |key: u128, old: PhaseRecord| snapshot_rules::phase_kept(after, key, old);
    let targets = |key: u128, operation: u128| snapshot_rules::target_kept(after, key, operation);
    let histories = |key: u128, old: CompletionHistory| snapshot_rules::history_kept(
        after,
        key,
        old,
    );
    first_refusal::lemma_every(before.recovery.operations, heads);
    first_refusal::lemma_every(before.recovery.phases, rows);
    first_refusal::lemma_every(before.recovery.targets, targets);
    first_refusal::lemma_every(before.recovery.completion_history, histories);
    assert forall|k: u128| #[trigger] before.recovery.operations.dom().contains(k) implies
        after.recovery.operations.dom().contains(k) && same_recovery(
        before.recovery.operations[k],
        after.recovery.operations[k],
    ) by {
        assert(heads(k, before.recovery.operations[k]) is Ok);
    }
    assert forall|k: u128| #[trigger] before.recovery.phases.dom().contains(k) implies
        after.recovery.phases.dom().contains(k) && snapshot_rules::phase_same(
        before.recovery.phases[k],
        after.recovery.phases[k],
    ) by {
        assert(rows(k, before.recovery.phases[k]) is Ok);
    }
    assert forall|k: u128| #[trigger] before.recovery.targets.dom().contains(k) implies
        after.recovery.targets.dom().contains(k) && after.recovery.targets[k]
        == before.recovery.targets[k] by {
        assert(targets(k, before.recovery.targets[k]) is Ok);
    }
    assert forall|k: u128| #[trigger] before.recovery.completion_history.dom().contains(
        k,
    ) implies after.recovery.completion_history.dom().contains(k)
        && after.recovery.completion_history[k] == before.recovery.completion_history[k] by {
        assert(histories(k, before.recovery.completion_history[k]) is Ok);
    }
}

/// Whether the node is one of the voters, and not ready.
pub open spec fn unready(voters: Voters, ready: Seq<u64>, node: u64) -> bool {
    &&& node == voters.first.node_id || node == voters.second.node_id || node
        == voters.third.node_id
    &&& !ready.contains(node)
}

/// Voters that are started in the order of a request's nodes ascend with them, and keep
/// ascending whichever of them is replaced by what became of it.
pub proof fn lemma_voters_ascend(
    s: StateView,
    a: RecoveryAuthorization,
    request: RecoveryStart,
    voters: Voters,
    v: Voter,
)
    requires
        request.target_nodes.ascend(),
        voters.ascend(),
    ensures
        journal_rules::started_head(s, a, request).voters.ascend(),
        journal_rules::replaced(voters, v.node_id, v).ascend(),
{
    reveal(journal_rules::replaced);
    reveal(journal_rules::started_head);
}

/// A retry goes to the next unready voter behind the last destination, in ascending
/// order, and begins again with the first where none is behind it; it fails only where
/// every voter is ready.
pub proof fn lemma_retry_goes_on(voters: Voters, ready: Seq<u64>, after: Option<u64>)
    requires
        voters.ascend(),
    ensures
        match rules::restart_candidate(voters, ready, after) {
            None => forall|n: u64| !#[trigger] unready(voters, ready, n),
            Some(node) => unready(voters, ready, node) && forall|n: u64| #[trigger]
                unready(voters, ready, n) ==> if rules::behind(after, n) {
                    rules::behind(after, node) && node <= n
                } else {
                    rules::behind(after, node) || node <= n
                },
        },
{
    reveal(rules::restart_candidate);
    reveal(rules::first_of);
}

} // verus!
