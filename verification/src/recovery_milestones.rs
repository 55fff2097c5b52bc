//! The milestones of a recovery: each is reached in its order, and once.
use vstd::prelude::*;

use crate::activation_rules;
use crate::journal_rules;
use crate::model::{
    Dispatch, DispatchOutcome, PhaseRecord, RecoveryAuthorization, RecoveryMutation, RecoveryPhase,
    RecoveryRecord, RecoveryStart, TargetOutcome, TargetRequest, TargetStep,
};
use crate::receiver_rules;
use crate::recovery_laws;
use crate::rules;
use crate::snapshot_rules;
use crate::views::StateView;

verus! {

/// The phases in front of the target's initialization.
pub open spec fn before_initialization(phase: RecoveryPhase) -> bool {
    phase == RecoveryPhase::Prepare || phase == RecoveryPhase::Materialize || phase
        == RecoveryPhase::Initialize
}

/// The phases in front of the target's completion.
pub open spec fn before_completion(phase: RecoveryPhase) -> bool {
    before_initialization(phase) || phase == RecoveryPhase::Complete
}

/// The phases in front of the source's retirement.
pub open spec fn before_retirement(phase: RecoveryPhase) -> bool {
    before_completion(phase) || phase == RecoveryPhase::RetireSource
}

/// The phases in front of the source's fence.
pub open spec fn before_fence(phase: RecoveryPhase) -> bool {
    before_retirement(phase) || phase == RecoveryPhase::FenceSource
}

/// The phases in front of the activation.
pub open spec fn before_activation(phase: RecoveryPhase) -> bool {
    before_fence(phase) || phase == RecoveryPhase::Activate || phase
        == RecoveryPhase::StopActivation
}

/// The phases between the activation and the publication of the route.
pub open spec fn before_publication(phase: RecoveryPhase) -> bool {
    phase == RecoveryPhase::Confirm || phase == RecoveryPhase::Publish
}

/// The phases of a stopped target.
pub open spec fn stopping(phase: RecoveryPhase) -> bool {
    phase == RecoveryPhase::StopTarget || phase == RecoveryPhase::Cleanup || phase
        == RecoveryPhase::Stopped
}

/// Whether the operation has only the milestones that its phase is behind.
pub open spec fn in_order(op: RecoveryRecord) -> bool {
    &&& op.phase == RecoveryPhase::Prepare ==> op.issuer_preparation is None
    &&& before_initialization(op.phase) ==> op.initialization is None
    &&& before_completion(op.phase) ==> op.completion is None
    &&& before_retirement(op.phase) ==> op.retirement is None
    &&& before_fence(op.phase) ==> op.source_fence is None
    &&& before_activation(op.phase) ==> op.activation is None
    &&& before_publication(op.phase) ==> op.activation is Some && op.route_publication is None
    &&& op.route_publication is Some ==> op.activation is Some
    &&& op.phase != RecoveryPhase::Cleanup && op.phase != RecoveryPhase::Stopped
        ==> op.target_stop is None
    &&& stopping(op.phase) ==> op.stop_request is Some
}

/// Whether the dispatch belongs to the phase.
pub open spec fn fits(phase: RecoveryPhase, input: Dispatch) -> bool {
    match input {
        Dispatch::Target { node_id, request } => step_fits(phase, request@.step),
        Dispatch::PublishRoute(_) => phase == RecoveryPhase::Publish,
        Dispatch::RetireSource(_) => phase == RecoveryPhase::RetireSource,
        _ => true,
    }
}

pub open spec fn step_fits(phase: RecoveryPhase, step: TargetStep) -> bool {
    &&& step is Materialize || step is ResumeMaterialization ==> phase
        == RecoveryPhase::Materialize
    &&& step is Initialize ==> phase == RecoveryPhase::Initialize
    &&& step is Complete || step is Inspect ==> phase == RecoveryPhase::Complete
    &&& step is PrepareComplete || step is ResolveComplete ==> phase == RecoveryPhase::Complete
    &&& step is Activate || step is ConfirmActivation ==> phase == RecoveryPhase::Confirm
    &&& step is Stop ==> phase == RecoveryPhase::Cleanup
}

/// Whether what is pending belongs to the operation's phase.
pub open spec fn pending_fits(s: StateView, op: RecoveryRecord) -> bool {
    match op.pending_phase {
        None => true,
        Some(id) => s.recovery.phases.dom().contains(id) && s.recovery.phases[id].phase == op.phase
            && fits(op.phase, s.recovery.phases[id].input),
    }
}

/// Whether every operation of the journal is in order.
pub open spec fn ordered(s: StateView) -> bool {
    forall|k: u128| #[trigger]
        s.recovery.operations.dom().contains(k) ==> in_order(s.recovery.operations[k])
            && pending_fits(s, s.recovery.operations[k])
}

/// Whether every milestone that the first head has is the same in the second.
pub open spec fn milestones_kept(old: RecoveryRecord, new: RecoveryRecord) -> bool {
    &&& snapshot_rules::kept(old.issuer_preparation, new.issuer_preparation)
    &&& snapshot_rules::kept(old.initialization, new.initialization)
    &&& snapshot_rules::kept(old.completion, new.completion)
    &&& snapshot_rules::kept(old.retirement, new.retirement)
    &&& snapshot_rules::kept(old.source_fence, new.source_fence)
    &&& snapshot_rules::kept(old.activation, new.activation)
    &&& snapshot_rules::kept(old.route_publication, new.route_publication)
    &&& snapshot_rules::kept(old.target_stop, new.target_stop)
}

/// A dispatch that is admitted belongs to the phase.
pub proof fn lemma_admitted_fits(
    s: StateView,
    op: RecoveryRecord,
    id: u128,
    input: Dispatch,
    a: RecoveryAuthorization,
)
    requires
        journal_rules::input_admitted(s, op, id, input, a) is Ok,
    ensures
        fits(op.phase, input),
{
    reveal(journal_rules::input_admitted);
    if let Dispatch::Target { node_id, request } = input {
        reveal(journal_rules::target_input);
        reveal(journal_rules::admitted_target_step);
        reveal(journal_rules::materialize_step);
        reveal(journal_rules::cleanup_step);
        reveal(journal_rules::complete_step);
        reveal(receiver_rules::is_step);
        reveal(receiver_rules::is_inspection);
        reveal(receiver_rules::quorum_step);
        reveal(receiver_rules::initial_quorum_step);
        reveal(receiver_rules::complete_quorum_step);
        reveal(activation_rules::step);
    }
}

/// Whether the acknowledgement is of such a step.
pub open spec fn acknowledges(step: TargetStep, outcome: TargetOutcome) -> bool {
    &&& outcome is Materialized ==> step is Materialize || step is ResumeMaterialization
    &&& outcome is Initialized ==> step is Initialize
    &&& outcome is Completed || outcome is Inspected ==> step is Complete || step is Inspect
    &&& outcome is Activated ==> step is Activate || step is ConfirmActivation
    &&& outcome is Stopped ==> step is Stop
}

/// Whether a target's answer is of the step that it was asked for.
pub open spec fn answered_in_kind(input: Dispatch, outcome: DispatchOutcome) -> bool {
    match input {
        Dispatch::Target { node_id, request } => match outcome {
            DispatchOutcome::Target(response) => acknowledges(request@.step, response@.outcome),
            _ => true,
        },
        _ => true,
    }
}

/// An acknowledgement that is admitted is of its step.
pub proof fn lemma_acknowledged(
    s: StateView,
    op: RecoveryRecord,
    prepared: PhaseRecord,
    node: u64,
    request: TargetRequest,
    response: crate::model::TargetResponse,
)
    requires
        prepared.input matches Dispatch::Target { node_id, request: held } && held@ == request,
        journal_rules::target_outcome(s, op, prepared, node, request, response) is Ok,
    ensures
        acknowledges(request.step, response.outcome),
{
    reveal(journal_rules::target_outcome);
    reveal(rules::started_by);
    if prepared.phase == RecoveryPhase::Complete && receiver_rules::is_step(request.step) {
        reveal(receiver_rules::outcome);
        reveal(receiver_rules::answer);
        reveal(rules::target_request);
        reveal(rules::prepared_by);
        reveal(rules::attempt_status_by);
        reveal(rules::resolved_by);
        reveal(rules::terminal_status_by);
    } else {
        reveal(journal_rules::step_outcome);
        reveal(journal_rules::materialized_outcome);
        reveal(journal_rules::start_outcome);
        reveal(journal_rules::quorum_outcome);
        reveal(journal_rules::completion_start_outcome);
        reveal(journal_rules::inspection_start_outcome);
        reveal(journal_rules::inspected_outcome);
        reveal(journal_rules::completed_outcome);
        reveal(journal_rules::activated_outcome);
        reveal(journal_rules::stopped_outcome);
        reveal(rules::materialized_by);
        reveal(rules::initialized_by);
        reveal(rules::inspected_by);
        reveal(rules::completed_by);
        reveal(rules::activated_by);
        reveal(rules::stopped_by);
    }
}

/// The head behind an outcome is in order, with every milestone that it had.
proof fn lemma_advanced(
    s: StateView,
    op: RecoveryRecord,
    prepared: PhaseRecord,
    outcome: DispatchOutcome,
)
    requires
        in_order(op),
        prepared.phase == op.phase,
        fits(op.phase, prepared.input),
        journal_rules::advance(s, op, prepared, outcome) is Ok,
        answered_in_kind(prepared.input, outcome),
    ensures
        ({
            let (head, _) = journal_rules::advance(s, op, prepared, outcome)->Ok_0;
            in_order(head) && milestones_kept(op, head)
        }),
{
    reveal(journal_rules::advance);
    match outcome {
        DispatchOutcome::Authority(signed) => {
            reveal(journal_rules::advanced_by_issuer);
            reveal(journal_rules::authority_progress);
            reveal(journal_rules::activated_progress);
            reveal(journal_rules::stopped_activation_progress);
        },
        DispatchOutcome::Target(response) => {
            reveal(journal_rules::advanced_by_target);
            reveal(journal_rules::target_progress);
            reveal(journal_rules::materialized_progress);
            reveal(journal_rules::confirmed_progress);
            reveal(journal_rules::clean_progress);
        },
        DispatchOutcome::ControlIntent(actual) => {
            reveal(journal_rules::control_progress);
            reveal(rules::install);
            reveal(rules::born);
        },
        _ => {
            reveal(journal_rules::advanced_by_route);
            reveal(journal_rules::advanced_by_retirement);
        },
    }
}

/// The journal with one more head in order is in order, where the rows that are
/// pending stand.
proof fn lemma_put(s: StateView, next: StateView, id: u128, head: RecoveryRecord)
    requires
        recovery_laws::indexed(s),
        ordered(s),
        recovery_laws::phases_kept(s.recovery.phases, next.recovery.phases),
        next.recovery.operations == s.recovery.operations.insert(id, head),
        in_order(head),
        pending_fits(next, head),
    ensures
        ordered(next),
{
    assert forall|k: u128| #[trigger] next.recovery.operations.dom().contains(k) implies in_order(
        next.recovery.operations[k],
    ) && pending_fits(next, next.recovery.operations[k]) by {
        if k != id {
            assert(s.recovery.operations.dom().contains(k));
            match s.recovery.operations[k].pending_phase {
                None => {},
                Some(p) => {
                    assert(s.recovery.phases.dom().contains(p));
                },
            }
        }
    }
}

/// What a command leaves of one operation and of the others.
pub open spec fn progressed(s: StateView, next: StateView, id: u128) -> bool {
    &&& ordered(next)
    &&& forall|k: u128| #[trigger]
        s.recovery.operations.dom().contains(k) ==> next.recovery.operations.dom().contains(k)
            && milestones_kept(s.recovery.operations[k], next.recovery.operations[k])
}

proof fn lemma_started(s: StateView, a: RecoveryAuthorization, request: RecoveryStart)
    requires
        recovery_laws::indexed(s),
        ordered(s),
        journal_rules::start(s, a, request) is Ok,
    ensures
        progressed(s, journal_rules::start(s, a, request)->Ok_0.0, request.operation_id),
{
    reveal(journal_rules::start);
    reveal(journal_rules::started_head);
    let (next, head) = journal_rules::start(s, a, request)->Ok_0;
    if !s.recovery.operations.dom().contains(request.operation_id) {
        lemma_put(s, next, request.operation_id, head);
    }
}

proof fn lemma_stopped(s: StateView, op: RecoveryRecord, command_id: u128)
    requires
        recovery_laws::indexed(s),
        ordered(s),
        s.recovery.operations.dom().contains(op.request.operation_id),
        s.recovery.operations[op.request.operation_id] == op,
        journal_rules::stop(s, op, command_id) is Ok,
    ensures
        progressed(s, journal_rules::stop(s, op, command_id)->Ok_0.0, op.request.operation_id),
{
    reveal(journal_rules::stop);
    reveal(journal_rules::stopping);
    let (next, head) = journal_rules::stop(s, op, command_id)->Ok_0;
    if op.stop_request is None {
        lemma_put(s, next, op.request.operation_id, head);
    }
}

proof fn lemma_prepared(
    s: StateView,
    op: RecoveryRecord,
    id: u128,
    sequence: u64,
    pending: Option<u128>,
    input: Dispatch,
    a: RecoveryAuthorization,
)
    requires
        recovery_laws::indexed(s),
        ordered(s),
        s.recovery.operations.dom().contains(op.request.operation_id),
        s.recovery.operations[op.request.operation_id] == op,
        journal_rules::prepare(s, op, id, sequence, pending, input, a) is Ok,
        ({
            let next = journal_rules::prepare(s, op, id, sequence, pending, input, a)->Ok_0.0;
            recovery_laws::retained(s.recovery, next.recovery)
        }),
    ensures
        progressed(
            s,
            journal_rules::prepare(s, op, id, sequence, pending, input, a)->Ok_0.0,
            op.request.operation_id,
        ),
{
    reveal(journal_rules::prepare);
    if !s.recovery.phases.dom().contains(id) {
        reveal(journal_rules::displaced);
        reveal(journal_rules::stops_expired);
        reveal(journal_rules::prepare_admitted);
        reveal(journal_rules::prepared_head);
        reveal(journal_rules::prepared_row);
        reveal(journal_rules::marked);
        reveal(journal_rules::marked_target);
        let now = a.admitted_at_ms;
        let moved = journal_rules::displaced(s, op, input, now)->Ok_0;
        assert(in_order(moved) && milestones_kept(op, moved));
        lemma_admitted_fits(s, moved, id, input, a);
        let change = journal_rules::superseded(s, moved, id, input, now)->Ok_0;
        let first = rules::rewritten(s, change);
        let (next, head) = journal_rules::prepare(s, op, id, sequence, pending, input, a)->Ok_0;
        assert(first.recovery.operations == s.recovery.operations);
        assert(next.recovery.phases[id].phase == head.phase);
        lemma_put(s, next, op.request.operation_id, head);
    }
}

proof fn lemma_published(s: StateView, op: RecoveryRecord, id: u128, now: u64)
    requires
        recovery_laws::indexed(s),
        ordered(s),
        s.recovery.operations.dom().contains(op.request.operation_id),
        s.recovery.operations[op.request.operation_id] == op,
        journal_rules::publish(s, op, id, now) is Ok,
        recovery_laws::retained(
            s.recovery,
            journal_rules::publish(s, op, id, now)->Ok_0.0.recovery,
        ),
    ensures
        progressed(s, journal_rules::publish(s, op, id, now)->Ok_0.0, op.request.operation_id),
{
    reveal(journal_rules::publish);
    reveal(rules::phase);
    let prepared = s.recovery.phases[id];
    if prepared.outcome is None {
        reveal(journal_rules::publish_pending);
        reveal(journal_rules::publication_eligible);
        reveal(activation_rules::rerouted);
        let input = prepared.input->PublishRoute_0;
        let outcome = activation_rules::published(s, op, input)->Ok_0;
        let row = journal_rules::settled(prepared, outcome, s.revision);
        let routed = journal_rules::after_publication(s, op, input, outcome);
        lemma_advanced(routed, op, row, outcome);
        recovery_laws::lemma_advance(routed, op, row, outcome);
        let (next, head) = journal_rules::publish(s, op, id, now)->Ok_0;
        assert(next.recovery.operations == s.recovery.operations.insert(
            op.request.operation_id,
            head,
        ));
        lemma_put(s, next, op.request.operation_id, head);
    }
}

proof fn lemma_resolved(s: StateView, op: RecoveryRecord, id: u128, outcome: DispatchOutcome)
    requires
        recovery_laws::indexed(s),
        ordered(s),
        s.recovery.operations.dom().contains(op.request.operation_id),
        s.recovery.operations[op.request.operation_id] == op,
        journal_rules::resolve(s, op, id, outcome) is Ok,
        recovery_laws::retained(
            s.recovery,
            journal_rules::resolve(s, op, id, outcome)->Ok_0.0.recovery,
        ),
    ensures
        progressed(s, journal_rules::resolve(s, op, id, outcome)->Ok_0.0, op.request.operation_id),
{
    reveal(journal_rules::resolve);
    reveal(rules::phase);
    let prepared = s.recovery.phases[id];
    if prepared.outcome is None {
        reveal(journal_rules::resolve_pending);
        reveal(journal_rules::outcome_admitted);
        reveal(journal_rules::target_dispatch_outcome);
        if let Dispatch::Target { node_id, request } = prepared.input {
            if let DispatchOutcome::Target(response) = outcome {
                lemma_acknowledged(s, op, prepared, node_id, request@, response@);
            }
        }
        recovery_laws::lemma_settled(s, op, id, prepared, outcome);
        let settled = journal_rules::settled_state(s, op, id, prepared, outcome)->Ok_0;
        lemma_advanced(settled, op, prepared, outcome);
        recovery_laws::lemma_advance(settled, op, prepared, outcome);
        let (next, head) = journal_rules::resolve(s, op, id, outcome)->Ok_0;
        assert(next.recovery.operations == s.recovery.operations.insert(
            op.request.operation_id,
            head,
        ));
        lemma_put(s, next, op.request.operation_id, head);
    }
}

/// A milestone of a recovery is reached once and for good: no accepted command puts
/// another phase in the place of the issuer's preparation, the initialization, the
/// completion, the retirement, the fence, the activation, the route's publication or
/// the target's stop. An operation has none of them in front of its phase, and what
/// is pending belongs to its phase.
pub proof fn lemma_milestones(s: StateView, a: RecoveryAuthorization, mutation: RecoveryMutation)
    requires
        recovery_laws::indexed(s),
        ordered(s),
        journal_rules::transition(s, a, mutation) is Ok,
    ensures
        progressed(
            s,
            journal_rules::transition(s, a, mutation)->Ok_0.0,
            recovery_laws::subject(mutation),
        ),
{
    recovery_laws::lemma_nothing_lost(s, a, mutation);
    reveal(journal_rules::transition);
    match mutation {
        RecoveryMutation::Start(request) => {
            lemma_started(s, a, request);
        },
        RecoveryMutation::Stop { operation_id, command_id } => {
            lemma_stopped(s, s.recovery.operations[operation_id], command_id);
        },
        RecoveryMutation::Prepare {
            operation_id,
            phase_id,
            expected_sequence,
            expected_pending,
            input,
        } => {
            lemma_prepared(
                s,
                s.recovery.operations[operation_id],
                phase_id,
                expected_sequence,
                expected_pending,
                input,
                a,
            );
        },
        RecoveryMutation::PublishRoute { operation_id, phase_id } => {
            lemma_published(s, s.recovery.operations[operation_id], phase_id, a.admitted_at_ms);
        },
        RecoveryMutation::Resolve { operation_id, phase_id, outcome } => {
            lemma_resolved(s, s.recovery.operations[operation_id], phase_id, outcome);
        },
    }
}

} // verus!
