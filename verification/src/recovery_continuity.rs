//! What every accepted command leaves of a recovery journal: a journal that
//! validates as the successor of the one before it.
use vstd::prelude::*;

use crate::activation_rules;
use crate::first_refusal;
use crate::journal_rules;
use crate::model::{
    CompletionHistory, Dispatch, DispatchOutcome, LifecyclePhase, PhaseRecord,
    RecoveryAuthorization, RecoveryMutation, RecoveryPhase, RecoveryRecord, RecoveryStart,
    TargetRequest, TargetResponse, Voter, Voters,
};
use crate::recovery_laws;
use crate::recovery_milestones;
use crate::rules;
use crate::snapshot_rules;
use crate::views::StateView;

verus! {

/// Whether the phase is a row of the operation.
pub open spec fn holds(s: StateView, op: RecoveryRecord, id: Option<u128>) -> bool {
    match id {
        None => true,
        Some(id) => s.recovery.phases.dom().contains(id) && s.recovery.phases[id].operation_id
            == op.request.operation_id,
    }
}

/// Whether the three voters are three nodes.
pub open spec fn distinct(voters: Voters) -> bool {
    voters.first.node_id != voters.second.node_id && voters.first.node_id != voters.third.node_id
        && voters.second.node_id != voters.third.node_id
}

/// Whether the active completion cursor is the one that its birth was committed with,
/// and an operation without one has no attempt either.
pub open spec fn scoped(s: StateView, op: RecoveryRecord) -> bool {
    match op.completion_intent {
        Some(id) => holds(s, op, Some(id)) && s.recovery.phases[id].completion_scope
            == rules::scope(op) && s.recovery.phases[id].outcome is Some,
        None => unattempted(op),
    }
}

/// Whether the completion cursor has no attempt behind it.
pub open spec fn unattempted(op: RecoveryRecord) -> bool {
    op.completion_preparation_attempt is None && op.completion_preparation is None
        && op.completion_resolution_attempt is None && op.completion_terminal is None
        && op.completion_attempt is None
}

/// Whether the answer to the dispatch is still to be set in the operation.
pub open spec fn unset(op: RecoveryRecord, input: Dispatch) -> bool {
    match input {
        Dispatch::Target { node_id, request } => {
            &&& op.phase == RecoveryPhase::Complete ==> op.completion_intent is Some
            &&& match rules::voter(op.voters, node_id) {
                None => true,
                Some(v) => {
                    &&& request@.step is Materialize || request@.step is ResumeMaterialization
                        ==> v.materialization is None
                    &&& request@.step is Activate || request@.step is ConfirmActivation
                        ==> v.confirmation is None
                    &&& request@.step is Stop ==> v.cleanup is None
                },
            }
        },
        Dispatch::ControlIntent(request) => request@.phase == LifecyclePhase::Materialize
            ==> op.materialization_intent is None,
        _ => true,
    }
}

/// Whether what is pending is the operation's last row, with its answer still to be set.
pub open spec fn last_pending(s: StateView, op: RecoveryRecord) -> bool {
    match op.pending_phase {
        None => true,
        Some(id) => holds(s, op, Some(id)) && s.recovery.phases[id].sequence + 1
            == op.next_phase_sequence && unset(op, s.recovery.phases[id].input),
    }
}

/// Whether the operation's references are rows of its own, in their order.
pub open spec fn referenced(s: StateView, op: RecoveryRecord) -> bool {
    &&& op.updated_revision <= s.revision
    &&& distinct(op.voters)
    &&& holds(s, op, op.completion_attempt)
    &&& holds(s, op, op.activation_attempt)
    &&& holds(s, op, op.voters.first.started)
    &&& holds(s, op, op.voters.second.started)
    &&& holds(s, op, op.voters.third.started)
    &&& scoped(s, op)
    &&& last_pending(s, op)
}

/// Whether the row is of a recovery of the journal, below its next sequence, and has
/// the revision of an outcome only with the outcome.
pub open spec fn numbered(s: StateView, row: PhaseRecord) -> bool {
    &&& s.recovery.operations.dom().contains(row.operation_id)
    &&& row.sequence < s.recovery.operations[row.operation_id].next_phase_sequence
    &&& row.outcome is None ==> row.resolved_revision is None
}

/// Whether the journal is one that commands have made: indexed, with every milestone
/// in its order, every reference to a row of its own and every row numbered.
pub open spec fn coherent(s: StateView) -> bool {
    &&& recovery_laws::indexed(s)
    &&& recovery_milestones::ordered(s)
    &&& forall|k: u128| #[trigger]
        s.recovery.operations.dom().contains(k) ==> referenced(s, s.recovery.operations[k])
    &&& forall|k: u128| #[trigger]
        s.recovery.phases.dom().contains(k) ==> numbered(s, s.recovery.phases[k])
}

/// Whether a reference stands where it stood, or at a later row.
pub open spec fn onward(
    s: StateView,
    next: StateView,
    op: RecoveryRecord,
    from: Option<u128>,
    to: Option<u128>,
) -> bool {
    match from {
        None => true,
        Some(f) => match to {
            None => false,
            Some(t) => holds(s, op, from) && holds(next, op, to) && s.recovery.phases[f].sequence
                <= next.recovery.phases[t].sequence,
        },
    }
}

/// Whether a voter kept what it had.
pub open spec fn voter_onward(
    s: StateView,
    next: StateView,
    op: RecoveryRecord,
    old: Voter,
    new: Voter,
) -> bool {
    &&& new.node_id == old.node_id
    &&& snapshot_rules::kept(old.materialization, new.materialization)
    &&& snapshot_rules::kept(old.confirmation, new.confirmation)
    &&& snapshot_rules::kept(old.cleanup, new.cleanup)
    &&& onward(s, next, op, old.started, new.started)
}

pub open spec fn voters_onward(
    s: StateView,
    next: StateView,
    op: RecoveryRecord,
    old: Voters,
    new: Voters,
) -> bool {
    &&& voter_onward(s, next, op, old.first, new.first)
    &&& voter_onward(s, next, op, old.second, new.second)
    &&& voter_onward(s, next, op, old.third, new.third)
}

/// Whether the archived attempt is the closed cursor.
pub open spec fn sealed(old: RecoveryRecord, archived: CompletionHistory, successor: u128) -> bool {
    &&& archived.operation_id == old.request.operation_id
    &&& Some(archived.scope) == rules::scope(old)
    &&& snapshot_rules::archive_kept(old, archived)
    &&& archived.attempted_completion == old.completion_attempt
    &&& archived.successor_intent == successor
}

/// Whether the completion cursor stands, is the first one, or follows a sealed one.
pub open spec fn cursor_onward(
    s: StateView,
    next: StateView,
    old: RecoveryRecord,
    new: RecoveryRecord,
) -> bool {
    match old.completion_intent {
        None => unattempted(old),
        Some(original) => if new.completion_intent == old.completion_intent {
            &&& new.completion_predecessor == old.completion_predecessor
            &&& snapshot_rules::kept(
                old.completion_preparation_attempt,
                new.completion_preparation_attempt,
            )
            &&& snapshot_rules::kept(old.completion_preparation, new.completion_preparation)
            &&& snapshot_rules::kept(
                old.completion_resolution_attempt,
                new.completion_resolution_attempt,
            )
            &&& snapshot_rules::kept(old.completion_terminal, new.completion_terminal)
            &&& onward(s, next, old, old.completion_attempt, new.completion_attempt)
        } else {
            &&& new.completion_intent matches Some(born)
            &&& next.recovery.completion_history.dom().contains(original)
            &&& sealed(old, next.recovery.completion_history[original], born)
        },
    }
}

/// Whether the second head is the first one's later state.
pub open spec fn head_onward(
    s: StateView,
    next: StateView,
    old: RecoveryRecord,
    new: RecoveryRecord,
) -> bool {
    &&& recovery_laws::same_recovery(old, new)
    &&& old.updated_revision <= new.updated_revision
    &&& old.next_phase_sequence <= new.next_phase_sequence
    &&& old.completion_intent is None && new.completion_intent is None
        ==> new.completion_predecessor == old.completion_predecessor
    &&& cursor_onward(s, next, old, new)
    &&& onward(s, next, old, old.activation_attempt, new.activation_attempt)
    &&& snapshot_rules::kept(old.materialization_intent, new.materialization_intent)
    &&& recovery_milestones::milestones_kept(old, new)
    &&& voters_onward(s, next, old, old.voters, new.voters)
}

/// A head that is the first one's later state is kept.
proof fn lemma_head_kept(s: StateView, next: StateView, old: RecoveryRecord, new: RecoveryRecord)
    requires
        recovery_laws::phases_kept(s.recovery.phases, next.recovery.phases),
        referenced(s, old),
        referenced(next, new),
        head_onward(s, next, old, new),
    ensures
        snapshot_rules::head_kept(s, next, old, new) is Ok,
{
    reveal(snapshot_rules::head_kept);
    reveal(snapshot_rules::identity_kept);
    reveal(snapshot_rules::cursor_advanced);
    reveal(snapshot_rules::born_as_scoped);
    reveal(snapshot_rules::rotated);
    reveal(snapshot_rules::continues);
    reveal(snapshot_rules::moved_on);
    reveal(snapshot_rules::attempts_kept);
    reveal(snapshot_rules::progress_kept);
    reveal(snapshot_rules::attempt_progress_kept);
    reveal(rules::phase);
    assert(snapshot_rules::voters_kept(s, next, old.voters, new.voters) is Ok) by {
        reveal(snapshot_rules::voters_kept);
        reveal(snapshot_rules::voter_kept);
        reveal(snapshot_rules::started_kept);
        reveal(rules::voter);
    }
}

/// Whether one head was put, and only rows of its operation are new.
pub open spec fn put(s: StateView, next: StateView, head: RecoveryRecord) -> bool {
    &&& recovery_laws::retained(s.recovery, next.recovery)
    &&& next.revision == s.revision
    &&& next.recovery.operations == s.recovery.operations.insert(head.request.operation_id, head)
    &&& forall|k: u128| #[trigger]
        next.recovery.phases.dom().contains(k) && !s.recovery.phases.dom().contains(k)
            ==> next.recovery.phases[k].operation_id == head.request.operation_id
    &&& forall|k: u128| #[trigger]
        next.recovery.phases.dom().contains(k) ==> next.recovery.phases[k].outcome is None
            ==> next.recovery.phases[k].resolved_revision is None
}

/// The heads that a command is not about stay as they were.
proof fn lemma_unmoved(s: StateView, next: StateView, op: RecoveryRecord)
    requires
        recovery_laws::phases_kept(s.recovery.phases, next.recovery.phases),
        next.revision == s.revision,
        referenced(s, op),
    ensures
        referenced(next, op),
        head_onward(s, next, op, op),
{
}

/// A journal in which one head moved on is the successor of the one before.
proof fn lemma_succeeds(s: StateView, next: StateView, head: RecoveryRecord)
    requires
        coherent(s),
        recovery_laws::indexed(next),
        recovery_milestones::ordered(next),
        put(s, next, head),
        referenced(next, head),
        forall|k: u128| #[trigger]
            next.recovery.phases.dom().contains(k) && next.recovery.phases[k].operation_id
                == head.request.operation_id ==> next.recovery.phases[k].sequence
                < head.next_phase_sequence,
        s.recovery.operations.dom().contains(head.request.operation_id) ==> head_onward(
            s,
            next,
            s.recovery.operations[head.request.operation_id],
            head,
        ),
    ensures
        coherent(next),
        snapshot_rules::successor(s, next) is Ok,
{
    let id = head.request.operation_id;
    assert forall|k: u128| #[trigger] s.recovery.operations.dom().contains(k) implies
        snapshot_rules::operation_kept(s, next, k, s.recovery.operations[k]) is Ok && referenced(
        next,
        next.recovery.operations[k],
    ) by {
        reveal(snapshot_rules::operation_kept);
        let old = s.recovery.operations[k];
        if k == id {
            lemma_head_kept(s, next, old, head);
        } else {
            lemma_unmoved(s, next, old);
            lemma_head_kept(s, next, old, old);
        }
    }
    assert forall|k: u128| #[trigger] next.recovery.operations.dom().contains(k) implies referenced(
        next,
        next.recovery.operations[k],
    ) by {
        if k != id {
            assert(s.recovery.operations.dom().contains(k));
        }
    }
    assert forall|k: u128| #[trigger] next.recovery.phases.dom().contains(k) implies numbered(
        next,
        next.recovery.phases[k],
    ) by {
        if s.recovery.phases.dom().contains(k) {
            assert(numbered(s, s.recovery.phases[k]));
        }
    }
    assert forall|k: u128| #[trigger] s.recovery.phases.dom().contains(k) implies
        snapshot_rules::phase_kept(next, k, s.recovery.phases[k]) is Ok by {
        reveal(snapshot_rules::phase_kept);
        reveal(snapshot_rules::phase_same);
        assert(numbered(s, s.recovery.phases[k]));
    }
    reveal(snapshot_rules::successor);
    reveal(snapshot_rules::target_kept);
    reveal(snapshot_rules::history_kept);
    first_refusal::lemma_every(
        s.recovery.operations,
        |key: u128, old: RecoveryRecord| snapshot_rules::operation_kept(s, next, key, old),
    );
    first_refusal::lemma_every(
        s.recovery.phases,
        |key: u128, old: PhaseRecord| snapshot_rules::phase_kept(next, key, old),
    );
    first_refusal::lemma_every(
        s.recovery.targets,
        |key: u128, operation: u128| snapshot_rules::target_kept(next, key, operation),
    );
    first_refusal::lemma_every(
        s.recovery.completion_history,
        |key: u128, old: CompletionHistory| snapshot_rules::history_kept(next, key, old),
    );
}

/// Whether the request names three nodes.
pub open spec fn names_three(request: RecoveryStart) -> bool {
    request.target_nodes.first.node_id != request.target_nodes.second.node_id
        && request.target_nodes.first.node_id != request.target_nodes.third.node_id
        && request.target_nodes.second.node_id != request.target_nodes.third.node_id
}

/// A journal that stays as it was is its own successor.
proof fn lemma_same(s: StateView, op: RecoveryRecord)
    requires
        coherent(s),
        s.recovery.operations.dom().contains(op.request.operation_id),
        s.recovery.operations[op.request.operation_id] == op,
    ensures
        snapshot_rules::successor(s, s) is Ok,
{
    assert(s.recovery.operations =~= s.recovery.operations.insert(op.request.operation_id, op));
    assert forall|k: u128| #[trigger]
        s.recovery.phases.dom().contains(k) && s.recovery.phases[k].operation_id
            == op.request.operation_id implies s.recovery.phases[k].sequence
        < op.next_phase_sequence by {
        assert(numbered(s, s.recovery.phases[k]));
    }
    assert forall|k: u128| #[trigger]
        s.recovery.phases.dom().contains(k) && s.recovery.phases[k].outcome is None implies
        s.recovery.phases[k].resolved_revision is None by {
        assert(numbered(s, s.recovery.phases[k]));
    }
    lemma_unmoved(s, s, op);
    lemma_succeeds(s, s, op);
}

proof fn lemma_started(s: StateView, a: RecoveryAuthorization, request: RecoveryStart)
    requires
        coherent(s),
        names_three(request),
        journal_rules::start(s, a, request) is Ok,
        ({
            let next = journal_rules::start(s, a, request)->Ok_0.0;
            &&& recovery_laws::indexed(next)
            &&& recovery_milestones::ordered(next)
            &&& recovery_laws::retained(s.recovery, next.recovery)
        }),
    ensures
        ({
            let next = journal_rules::start(s, a, request)->Ok_0.0;
            coherent(next) && snapshot_rules::successor(s, next) is Ok
        }),
{
    reveal(journal_rules::start);
    reveal(journal_rules::started_head);
    let (next, head) = journal_rules::start(s, a, request)->Ok_0;
    if s.recovery.operations.dom().contains(request.operation_id) {
        lemma_same(s, head);
    } else {
        assert forall|k: u128| #[trigger] next.recovery.phases.dom().contains(k) implies numbered(
            s,
            next.recovery.phases[k],
        ) by {
            assert(s.recovery.phases.dom().contains(k));
        }
        lemma_succeeds(s, next, head);
    }
}

proof fn lemma_stopped(s: StateView, op: RecoveryRecord, command_id: u128)
    requires
        coherent(s),
        s.recovery.operations.dom().contains(op.request.operation_id),
        s.recovery.operations[op.request.operation_id] == op,
        journal_rules::stop(s, op, command_id) is Ok,
        ({
            let next = journal_rules::stop(s, op, command_id)->Ok_0.0;
            &&& recovery_laws::indexed(next)
            &&& recovery_milestones::ordered(next)
            &&& recovery_laws::retained(s.recovery, next.recovery)
        }),
    ensures
        ({
            let next = journal_rules::stop(s, op, command_id)->Ok_0.0;
            coherent(next) && snapshot_rules::successor(s, next) is Ok
        }),
{
    reveal(journal_rules::stop);
    reveal(journal_rules::stopping);
    reveal(rules::scope);
    let (next, head) = journal_rules::stop(s, op, command_id)->Ok_0;
    if op.stop_request is None {
        assert forall|k: u128| #[trigger] next.recovery.phases.dom().contains(k) implies numbered(
            s,
            next.recovery.phases[k],
        ) by {
            assert(s.recovery.phases.dom().contains(k));
        }
        assert(referenced(s, op));
        lemma_succeeds(s, next, head);
    } else {
        lemma_same(s, op);
    }
}

/// A dispatch that is admitted is answered where nothing is set yet.
proof fn lemma_admitted_unset(
    s: StateView,
    op: RecoveryRecord,
    id: u128,
    input: Dispatch,
    a: RecoveryAuthorization,
)
    requires
        journal_rules::input_admitted(s, op, id, input, a) is Ok,
        rules::prepared_scope(s, op, id, input) is Ok,
    ensures
        unset(op, input),
{
    reveal(journal_rules::input_admitted);
    recovery_milestones::lemma_admitted_fits(s, op, id, input, a);
    match input {
        Dispatch::Target { node_id, request } => {
            reveal(rules::prepared_scope);
            reveal(rules::is_birth);
            reveal(rules::scope);
            reveal(journal_rules::target_input);
            reveal(journal_rules::admitted_target_step);
            reveal(activation_rules::step);
            reveal(activation_rules::first_activation_admitted);
            reveal(activation_rules::local_proof);
            reveal(activation_rules::confirmation_admitted);
            reveal(rules::voter);
        },
        Dispatch::ControlIntent(request) => {
            reveal(journal_rules::control_input);
            reveal(journal_rules::expected_intent);
            reveal(journal_rules::next_control_phase);
            reveal(rules::fresh_phase);
        },
        _ => {},
    }
}

proof fn lemma_prepared(
    s: StateView,
    op: RecoveryRecord,
    id: u128,
    sequence: u64,
    pending: Option<u128>,
    input: Dispatch,
    a: RecoveryAuthorization,
)
    requires
        coherent(s),
        s.recovery.operations.dom().contains(op.request.operation_id),
        s.recovery.operations[op.request.operation_id] == op,
        journal_rules::prepare(s, op, id, sequence, pending, input, a) is Ok,
        ({
            let next = journal_rules::prepare(s, op, id, sequence, pending, input, a)->Ok_0.0;
            &&& recovery_laws::indexed(next)
            &&& recovery_milestones::ordered(next)
            &&& recovery_laws::retained(s.recovery, next.recovery)
        }),
    ensures
        ({
            let next = journal_rules::prepare(s, op, id, sequence, pending, input, a)->Ok_0.0;
            coherent(next) && snapshot_rules::successor(s, next) is Ok
        }),
{
    reveal(journal_rules::prepare);
    if s.recovery.phases.dom().contains(id) {
        lemma_same(s, op);
    } else {
        reveal(journal_rules::displaced);
        reveal(journal_rules::prepare_admitted);
        reveal(journal_rules::superseded);
        reveal(rules::phase);
        let now = a.admitted_at_ms;
        let moved = journal_rules::displaced(s, op, input, now)->Ok_0;
        assert(moved == RecoveryRecord { phase: moved.phase, ..op });
        recovery_milestones::lemma_admitted_fits(s, moved, id, input, a);
        lemma_admitted_unset(s, moved, id, input, a);
        let scope = rules::prepared_scope(s, moved, id, input)->Ok_0;
        let row = journal_rules::prepared_row(s, moved, id, sequence, scope, input, a);
        let change = journal_rules::superseded(s, moved, id, input, now)->Ok_0;
        let first = rules::rewritten(s, change);
        let (next, head) = journal_rules::prepare(s, op, id, sequence, pending, input, a)->Ok_0;
        assert(next.recovery.phases == first.recovery.phases.insert(id, row));
        assert(referenced(s, op));
        assert(row.sequence == op.next_phase_sequence && row.operation_id
            == op.request.operation_id && row.outcome is None && row.resolved_revision is None
            && row.input == input) by {
            reveal(journal_rules::prepared_row);
        }
        assert forall|k: u128| #[trigger] next.recovery.phases.dom().contains(k) && k != id implies
            s.recovery.phases.dom().contains(k) && numbered(s, next.recovery.phases[k]) by {
            assert(s.recovery.phases.dom().contains(k));
            assert(numbered(s, s.recovery.phases[k]));
        }
        lemma_marked(s, next, moved, op, head, id, input);
        lemma_succeeds(s, next, head);
    }
}

/// The head behind a dispatch is the earlier one with its marks moved on.
proof fn lemma_marked(
    s: StateView,
    next: StateView,
    moved: RecoveryRecord,
    op: RecoveryRecord,
    head: RecoveryRecord,
    id: u128,
    input: Dispatch,
)
    requires
        coherent(s),
        referenced(s, op),
        s.recovery.operations.dom().contains(op.request.operation_id),
        s.recovery.operations[op.request.operation_id] == op,
        moved == (RecoveryRecord { phase: moved.phase, ..op }),
        op.next_phase_sequence < u64::MAX,
        head == (RecoveryRecord {
            updated_revision: s.revision,
            ..journal_rules::prepared_head(moved, id, input)
        }),
        recovery_milestones::fits(moved.phase, input),
        unset(moved, input),
        recovery_laws::phases_kept(s.recovery.phases, next.recovery.phases),
        next.revision == s.revision,
        next.recovery.phases.dom().contains(id),
        next.recovery.phases[id].operation_id == op.request.operation_id,
        next.recovery.phases[id].sequence == op.next_phase_sequence,
        next.recovery.phases[id].input == input,
    ensures
        referenced(next, head),
        head_onward(s, next, op, head),
        head.request == op.request,
        head.next_phase_sequence == op.next_phase_sequence + 1,
{
    reveal(journal_rules::prepared_head);
    reveal(journal_rules::marked);
    reveal(journal_rules::marked_target);
    reveal(journal_rules::replaced);
    reveal(rules::voter);
    reveal(rules::scope);
    if let Some(f) = op.completion_attempt {
        assert(numbered(s, s.recovery.phases[f]));
    }
    if let Some(f) = op.activation_attempt {
        assert(numbered(s, s.recovery.phases[f]));
    }
}

/// Whether a step of the completion attempt is answered in that phase alone.
pub open spec fn attempt_answered(prepared: PhaseRecord, outcome: DispatchOutcome) -> bool {
    match outcome {
        DispatchOutcome::Target(response) => {
            response@.outcome is PreparedCompletion || response@.outcome is CompletionAttemptStatus
                || response@.outcome is ResolvedCompletion
                || response@.outcome is CompletionTerminalStatus ==> prepared.phase
                == RecoveryPhase::Complete
        },
        _ => true,
    }
}

/// An acknowledgement of an attempt's step is admitted in its phase alone.
proof fn lemma_attempt_answered(
    s: StateView,
    op: RecoveryRecord,
    prepared: PhaseRecord,
    node: u64,
    request: TargetRequest,
    response: TargetResponse,
)
    requires
        prepared.phase != RecoveryPhase::Complete,
        journal_rules::target_outcome(s, op, prepared, node, request, response) is Ok,
    ensures
        response.outcome !is PreparedCompletion,
        response.outcome !is CompletionAttemptStatus,
        response.outcome !is ResolvedCompletion,
        response.outcome !is CompletionTerminalStatus,
{
    reveal(journal_rules::target_outcome);
    reveal(journal_rules::step_outcome);
    reveal(journal_rules::materialized_outcome);
    reveal(journal_rules::start_outcome);
    reveal(journal_rules::quorum_outcome);
    reveal(journal_rules::completion_start_outcome);
    reveal(journal_rules::inspection_start_outcome);
    reveal(journal_rules::inspected_outcome);
    reveal(journal_rules::completed_outcome);
    reveal(journal_rules::activated_outcome);
    reveal(journal_rules::stopped_outcome);
    reveal(rules::started_by);
    reveal(rules::materialized_by);
    reveal(rules::initialized_by);
    reveal(rules::inspected_by);
    reveal(rules::completed_by);
    reveal(rules::activated_by);
    reveal(rules::stopped_by);
}

/// Whether a voter kept what it had, or was started by the phase.
pub open spec fn voter_stepped(old: Voter, new: Voter, id: u128) -> bool {
    &&& new.node_id == old.node_id
    &&& snapshot_rules::kept(old.materialization, new.materialization)
    &&& snapshot_rules::kept(old.confirmation, new.confirmation)
    &&& snapshot_rules::kept(old.cleanup, new.cleanup)
    &&& new.started == old.started || new.started == Some(id)
}

/// Whether the cursor stands, with what the attempt had.
pub open spec fn cursor_stands(old: RecoveryRecord, new: RecoveryRecord) -> bool {
    &&& new.completion_intent == old.completion_intent
    &&& new.completion_predecessor == old.completion_predecessor
    &&& new.completion_attempt == old.completion_attempt
    &&& snapshot_rules::kept(
        old.completion_preparation_attempt,
        new.completion_preparation_attempt,
    )
    &&& snapshot_rules::kept(old.completion_preparation, new.completion_preparation)
    &&& snapshot_rules::kept(old.completion_resolution_attempt, new.completion_resolution_attempt)
    &&& snapshot_rules::kept(old.completion_terminal, new.completion_terminal)
    &&& old.completion_intent is None && unattempted(old) ==> unattempted(new)
}

/// Whether the cursor is the one that the row gave birth to.
pub open spec fn cursor_born(
    old: RecoveryRecord,
    new: RecoveryRecord,
    prepared: PhaseRecord,
    closed: Option<CompletionHistory>,
) -> bool {
    &&& new.completion_intent == Some(prepared.phase_id)
    &&& unattempted(new)
    &&& prepared.completion_scope == rules::scope(new)
    &&& match old.completion_intent {
        None => closed is None,
        Some(original) => match closed {
            None => false,
            Some(history) => history.scope.intent == original && sealed(
                old,
                history,
                prepared.phase_id,
            ),
        },
    }
}

/// Whether the head is the earlier one behind one outcome.
pub open spec fn head_stepped(
    old: RecoveryRecord,
    new: RecoveryRecord,
    prepared: PhaseRecord,
    closed: Option<CompletionHistory>,
) -> bool {
    &&& new.next_phase_sequence == old.next_phase_sequence
    &&& new.activation_attempt == old.activation_attempt
    &&& snapshot_rules::kept(old.materialization_intent, new.materialization_intent)
    &&& voter_stepped(old.voters.first, new.voters.first, prepared.phase_id)
    &&& voter_stepped(old.voters.second, new.voters.second, prepared.phase_id)
    &&& voter_stepped(old.voters.third, new.voters.third, prepared.phase_id)
    &&& (cursor_stands(old, new) && closed is None) || cursor_born(old, new, prepared, closed)
}

/// What an outcome makes of a head.
proof fn lemma_stepped(
    s: StateView,
    op: RecoveryRecord,
    prepared: PhaseRecord,
    outcome: DispatchOutcome,
)
    requires
        prepared.phase == op.phase,
        unset(op, prepared.input),
        recovery_milestones::answered_in_kind(prepared.input, outcome),
        attempt_answered(prepared, outcome),
        journal_rules::advance(s, op, prepared, outcome) is Ok,
    ensures
        ({
            let (head, closed) = journal_rules::advance(s, op, prepared, outcome)->Ok_0;
            head_stepped(op, head, prepared, closed)
        }),
{
    reveal(journal_rules::advance);
    match outcome {
        DispatchOutcome::Authority(signed) => {
            reveal(journal_rules::advanced_by_issuer);
            reveal(journal_rules::authority_progress);
            reveal(journal_rules::activated_progress);
            reveal(journal_rules::stopped_activation_progress);
        },
        DispatchOutcome::Target(response) => {
            reveal(journal_rules::advanced_by_target);
            reveal(journal_rules::target_progress);
            reveal(journal_rules::materialized_progress);
            reveal(journal_rules::confirmed_progress);
            reveal(journal_rules::clean_progress);
            reveal(journal_rules::replaced);
            reveal(rules::voter);
        },
        DispatchOutcome::ControlIntent(actual) => {
            reveal(journal_rules::control_progress);
            reveal(rules::install);
            reveal(rules::prepared_scope);
            reveal(rules::is_birth);
            reveal(rules::scope);
            reveal(rules::closed_history);
            reveal(snapshot_rules::archive_kept);
        },
        _ => {
            reveal(journal_rules::advanced_by_route);
            reveal(journal_rules::advanced_by_retirement);
        },
    }
}

/// A head behind one outcome is the earlier one's later state.
proof fn lemma_answered(
    s: StateView,
    next: StateView,
    op: RecoveryRecord,
    prepared: PhaseRecord,
    head: RecoveryRecord,
    closed: Option<CompletionHistory>,
    put: RecoveryRecord,
)
    requires
        coherent(s),
        s.recovery.operations.dom().contains(op.request.operation_id),
        s.recovery.operations[op.request.operation_id] == op,
        op.pending_phase == Some(prepared.phase_id),
        s.recovery.phases[prepared.phase_id].completion_scope == prepared.completion_scope,
        head_stepped(op, head, prepared, closed),
        recovery_laws::same_recovery(op, head),
        recovery_milestones::milestones_kept(op, head),
        put == (RecoveryRecord { updated_revision: s.revision, pending_phase: None, ..head }),
        recovery_laws::phases_kept(s.recovery.phases, next.recovery.phases),
        next.revision == s.revision,
        next.recovery.phases[prepared.phase_id].outcome is Some,
        closed matches Some(history) ==> next.recovery.completion_history.dom().contains(
            history.scope.intent,
        ) && next.recovery.completion_history[history.scope.intent] == history,
    ensures
        referenced(next, put),
        head_onward(s, next, op, put),
{
    reveal(rules::scope);
    let id = prepared.phase_id;
    assert(referenced(s, op));
    assert(s.recovery.phases.dom().contains(id));
    assert(recovery_laws::awaiting(s.recovery.phases, op.request.operation_id, op.pending_phase));
    if let Some(f) = op.voters.first.started {
        assert(numbered(s, s.recovery.phases[f]));
    }
    if let Some(f) = op.voters.second.started {
        assert(numbered(s, s.recovery.phases[f]));
    }
    if let Some(f) = op.voters.third.started {
        assert(numbered(s, s.recovery.phases[f]));
    }
}

/// Rows that are answered, and none that is new, stay numbered.
proof fn lemma_rows(s: StateView, next: StateView, op: RecoveryRecord, put: RecoveryRecord)
    requires
        coherent(s),
        s.recovery.operations.dom().contains(op.request.operation_id),
        s.recovery.operations[op.request.operation_id] == op,
        put.request == op.request,
        put.next_phase_sequence == op.next_phase_sequence,
        recovery_laws::indexed(next),
        recovery_milestones::ordered(next),
        recovery_laws::retained(s.recovery, next.recovery),
        next.recovery.phases.dom() =~= s.recovery.phases.dom(),
        next.recovery.operations == s.recovery.operations.insert(op.request.operation_id, put),
        next.revision == s.revision,
        referenced(next, put),
        head_onward(s, next, op, put),
    ensures
        coherent(next),
        snapshot_rules::successor(s, next) is Ok,
{
    assert forall|k: u128| #[trigger] next.recovery.phases.dom().contains(k) implies numbered(
        s,
        next.recovery.phases[k],
    ) by {
        assert(s.recovery.phases.dom().contains(k));
        assert(numbered(s, s.recovery.phases[k]));
    }
    lemma_succeeds(s, next, put);
}

proof fn lemma_published(s: StateView, op: RecoveryRecord, id: u128, now: u64)
    requires
        coherent(s),
        s.recovery.operations.dom().contains(op.request.operation_id),
        s.recovery.operations[op.request.operation_id] == op,
        journal_rules::publish(s, op, id, now) is Ok,
        ({
            let next = journal_rules::publish(s, op, id, now)->Ok_0.0;
            &&& recovery_laws::indexed(next)
            &&& recovery_milestones::ordered(next)
            &&& recovery_laws::retained(s.recovery, next.recovery)
            &&& recovery_milestones::milestones_kept(
                op,
                next.recovery.operations[op.request.operation_id],
            )
        }),
    ensures
        ({
            let next = journal_rules::publish(s, op, id, now)->Ok_0.0;
            coherent(next) && snapshot_rules::successor(s, next) is Ok
        }),
{
    reveal(journal_rules::publish);
    reveal(rules::phase);
    let prepared = s.recovery.phases[id];
    if prepared.outcome is Some {
        lemma_same(s, op);
    } else {
        reveal(journal_rules::publish_pending);
        reveal(journal_rules::publication_eligible);
        reveal(activation_rules::rerouted);
        reveal(activation_rules::published);
        let input = prepared.input->PublishRoute_0;
        let outcome = activation_rules::published(s, op, input)->Ok_0;
        let row = journal_rules::settled(prepared, outcome, s.revision);
        let routed = journal_rules::after_publication(s, op, input, outcome);
        recovery_laws::lemma_advance(routed, op, row, outcome);
        lemma_stepped(routed, op, row, outcome);
        let (head, closed) = journal_rules::advance(routed, op, row, outcome)->Ok_0;
        let (next, put) = journal_rules::publish(s, op, id, now)->Ok_0;
        assert(next.recovery.operations == s.recovery.operations.insert(
            op.request.operation_id,
            put,
        ));
        lemma_answered(s, next, op, row, head, closed, put);
        lemma_rows(s, next, op, put);
    }
}

proof fn lemma_resolved(s: StateView, op: RecoveryRecord, id: u128, outcome: DispatchOutcome)
    requires
        coherent(s),
        s.recovery.operations.dom().contains(op.request.operation_id),
        s.recovery.operations[op.request.operation_id] == op,
        journal_rules::resolve(s, op, id, outcome) is Ok,
        ({
            let next = journal_rules::resolve(s, op, id, outcome)->Ok_0.0;
            &&& recovery_laws::indexed(next)
            &&& recovery_milestones::ordered(next)
            &&& recovery_laws::retained(s.recovery, next.recovery)
            &&& recovery_milestones::milestones_kept(
                op,
                next.recovery.operations[op.request.operation_id],
            )
        }),
    ensures
        ({
            let next = journal_rules::resolve(s, op, id, outcome)->Ok_0.0;
            coherent(next) && snapshot_rules::successor(s, next) is Ok
        }),
{
    reveal(journal_rules::resolve);
    reveal(rules::phase);
    let prepared = s.recovery.phases[id];
    if prepared.outcome is Some {
        lemma_same(s, op);
    } else {
        reveal(journal_rules::resolve_pending);
        reveal(journal_rules::outcome_admitted);
        reveal(journal_rules::target_dispatch_outcome);
        if let Dispatch::Target { node_id, request } = prepared.input {
            if let DispatchOutcome::Target(response) = outcome {
                recovery_milestones::lemma_acknowledged(
                    s,
                    op,
                    prepared,
                    node_id,
                    request@,
                    response@,
                );
                if prepared.phase != RecoveryPhase::Complete {
                    lemma_attempt_answered(s, op, prepared, node_id, request@, response@);
                }
            }
        }
        recovery_laws::lemma_settled(s, op, id, prepared, outcome);
        let settled = journal_rules::settled_state(s, op, id, prepared, outcome)->Ok_0;
        recovery_laws::lemma_advance(settled, op, prepared, outcome);
        reveal(journal_rules::advance);
        reveal(journal_rules::advanced_by_target);
        lemma_stepped(settled, op, prepared, outcome);
        let (head, closed) = journal_rules::advance(settled, op, prepared, outcome)->Ok_0;
        let (next, put) = journal_rules::resolve(s, op, id, outcome)->Ok_0;
        assert(next.recovery.operations == s.recovery.operations.insert(
            op.request.operation_id,
            put,
        ));
        assert(next.recovery.phases == settled.recovery.phases);
        lemma_answered(s, next, op, prepared, head, closed, put);
        lemma_rows(s, next, op, put);
    }
}

/// Every accepted command leaves a journal that validates as the successor of the one
/// before it: what is permanent is kept, every reference stands or moves on, and the
/// completion cursor changes only for the attempt that follows a sealed one. What
/// commands rely on in a journal holds of it again.
pub proof fn lemma_successor(s: StateView, a: RecoveryAuthorization, mutation: RecoveryMutation)
    requires
        coherent(s),
        mutation matches RecoveryMutation::Start(request) ==> names_three(request),
        journal_rules::transition(s, a, mutation) is Ok,
    ensures
        ({
            let next = journal_rules::transition(s, a, mutation)->Ok_0.0;
            coherent(next) && snapshot_rules::successor(s, next) is Ok
        }),
{
    recovery_laws::lemma_nothing_lost(s, a, mutation);
    recovery_milestones::lemma_milestones(s, a, mutation);
    reveal(journal_rules::transition);
    match mutation {
        RecoveryMutation::Start(request) => {
            lemma_started(s, a, request);
        },
        RecoveryMutation::Stop { operation_id, command_id } => {
            lemma_stopped(s, s.recovery.operations[operation_id], command_id);
        },
        RecoveryMutation::Prepare {
            operation_id,
            phase_id,
            expected_sequence,
            expected_pending,
            input,
        } => {
            lemma_prepared(
                s,
                s.recovery.operations[operation_id],
                phase_id,
                expected_sequence,
                expected_pending,
                input,
                a,
            );
        },
        RecoveryMutation::PublishRoute { operation_id, phase_id } => {
            lemma_published(s, s.recovery.operations[operation_id], phase_id, a.admitted_at_ms);
        },
        RecoveryMutation::Resolve { operation_id, phase_id, outcome } => {
            lemma_resolved(s, s.recovery.operations[operation_id], phase_id, outcome);
        },
    }
}

/// The empty journal is coherent, and a coherent one stays so as the revision advances.
pub proof fn lemma_coherent(s: StateView, revision: u64)
    requires
        s.revision <= revision,
    ensures
        s.recovery.operations =~= Map::empty() && s.recovery.phases =~= Map::empty() ==> coherent(
            s,
        ),
        coherent(s) ==> coherent(journal_rules::at_revision(s, revision)),
{
    let later = journal_rules::at_revision(s, revision);
    if coherent(s) {
        assert forall|k: u128| #[trigger] later.recovery.operations.dom().contains(k) implies
            referenced(later, later.recovery.operations[k]) && recovery_milestones::in_order(
            later.recovery.operations[k],
        ) && recovery_milestones::pending_fits(later, later.recovery.operations[k]) by {
            assert(s.recovery.operations.dom().contains(k));
        }
        assert forall|k: u128| #[trigger] later.recovery.phases.dom().contains(k) implies numbered(
            later,
            later.recovery.phases[k],
        ) by {
            assert(numbered(s, s.recovery.phases[k]));
        }
    }
}

} // verus!
