//! What a completion receiver's answers are taken for, which earlier dispatch an answer
//! settles, and the order in which a completion's evidence came to be.
use vstd::prelude::*;

use crate::errors::Error;
use crate::model::{
    CompletionTerminal, DispatchOutcome, InspectionInput, LifecycleIntent, LifecyclePhase,
    PhaseRecord, RecoveryPhase, RecoveryRecord, SignedInspection, TargetOutcome, TargetResponse,
    TargetStep,
};
use crate::planner_laws::{committed, is_phase};
use crate::receiver_rules;
use crate::rules;
use crate::views::StateView;

verus! {

broadcast use {crate::held::lemma_held, crate::held::lemma_reheld};

/// A receiver's answer is taken only from the voter that was asked, for the command that
/// it was asked under, and of the step: a preparation of the very attempt, under its own
/// deadline; the status of the attempt, or of the resolver, that was asked about; or the
/// resolution of the attempt under the first resolver's intent and deadline. All of it is
/// authentic and the voter's own, and a status comes behind what it tells of.
pub proof fn lemma_receiver_answer(
    s: StateView,
    op: RecoveryRecord,
    prepared: PhaseRecord,
    response: TargetResponse,
)
    requires
        receiver_rules::outcome(s, op, prepared, response) is Ok,
    ensures
        prepared.input is Target,
        prepared.phase == RecoveryPhase::Complete,
        s.lifecycle is Some,
        ({
            let node = prepared.input->Target_node_id;
            let request = prepared.input->Target_request@;
            let current = s.lifecycle->0.intents[request.command_id];
            let outcome = response.outcome;
            &&& s.lifecycle->0.intents.dom().contains(request.command_id)
            &&& response.node_id == node
            &&& response.command_id == request.command_id
            &&& match request.step {
                TargetStep::Start(input) => outcome is Started,
                TargetStep::PrepareComplete(input) => {
                    let signed = outcome->PreparedCompletion_0@;
                    &&& outcome is PreparedCompletion
                    &&& signed.authentic
                    &&& signed.observer_node_id == node
                    &&& signed.attempt.intent == current
                    &&& signed.attempt.input == input@
                    &&& signed.attempt.dispatch_not_after_ms == request.not_after_ms
                    &&& rules::origin(s, op) == Ok::<crate::model::TargetOrigin, Error>(
                        signed.attempt.origin,
                    )
                },
                TargetStep::InspectCompletionAttempt(input) => {
                    let signed = outcome->CompletionAttemptStatus_0@;
                    &&& outcome is CompletionAttemptStatus
                    &&& signed.authentic
                    &&& signed.observer_node_id == node
                    &&& signed.status_intent == current
                    &&& signed.input == input@
                    &&& op.completion_preparation_attempt is Some
                    &&& is_phase(s, op, op.completion_preparation_attempt->0)
                    &&& s.recovery.phases[op.completion_preparation_attempt->0].prepared_revision
                        < prepared.prepared_revision
                },
                TargetStep::InspectCompletionResolution(input) => {
                    let signed = outcome->CompletionTerminalStatus_0@;
                    &&& outcome is CompletionTerminalStatus
                    &&& signed.authentic
                    &&& signed.observer_node_id == node
                    &&& signed.status_intent == current
                    &&& signed.input == input@
                    &&& signed.fact.input == input@.original_input
                    &&& signed.fact.resolution_intent == input@.original_intent
                    &&& signed.fact.dispatch_not_after_ms == input@.original_dispatch_not_after_ms
                    &&& op.completion_resolution_attempt is Some
                    &&& is_phase(s, op, op.completion_resolution_attempt->0)
                    &&& s.recovery.phases[op.completion_resolution_attempt->0].prepared_revision
                        < prepared.prepared_revision
                },
                TargetStep::ResolveComplete(input) => {
                    let signed = outcome->ResolvedCompletion_0@;
                    let first = s.recovery.phases[op.completion_resolution_attempt->0];
                    &&& outcome is ResolvedCompletion
                    &&& signed.authentic
                    &&& signed.observer_node_id == node
                    &&& signed.observation_intent == current
                    &&& signed.fact.input == input@
                    &&& rules::origin(s, op) == Ok::<crate::model::TargetOrigin, Error>(
                        signed.fact.input.attempt.origin,
                    )
                    &&& op.completion_resolution_attempt is Some
                    &&& is_phase(s, op, op.completion_resolution_attempt->0)
                    &&& first.input is Target
                    &&& signed.fact.dispatch_not_after_ms
                        == first.input->Target_request@.not_after_ms
                    &&& s.lifecycle->0.intents.dom().contains(
                        first.input->Target_request@.command_id,
                    )
                    &&& signed.fact.resolution_intent
                        == s.lifecycle->0.intents[first.input->Target_request@.command_id]
                },
                _ => false,
            }
        }),
{
    reveal(receiver_rules::outcome);
    reveal(receiver_rules::frozen_step);
    reveal(receiver_rules::answer);
    reveal(receiver_rules::prepare_answer);
    reveal(receiver_rules::status_answer);
    reveal(receiver_rules::terminal_status_answer);
    reveal(receiver_rules::resolve_answer);
    reveal(receiver_rules::resolver_answer);
    reveal(receiver_rules::attempt_holds);
    reveal(receiver_rules::attempt_status_holds);
    reveal(receiver_rules::resolution_holds);
    reveal(receiver_rules::terminal_status_holds);
    reveal(rules::target_request);
    reveal(rules::retained_intent);
    reveal(rules::original);
    reveal(rules::phase_of);
    reveal(rules::phase);
    reveal(rules::started_by);
    reveal(rules::prepared_by);
    reveal(rules::attempt_status_by);
    reveal(rules::terminal_status_by);
    reveal(rules::resolved_by);
}

/// The attempt that an answer tells of, if it tells of a preparation.
pub open spec fn tells_prepared(outcome: TargetOutcome) -> bool {
    outcome is PreparedCompletion || outcome is CompletionAttemptStatus
}

/// An earlier dispatch is settled by a later answer only if that is positive, was sent
/// behind it and settles in the same revision, and tells of the very dispatch: its input,
/// its command and its deadline.
pub proof fn lemma_linked(
    s: StateView,
    op: RecoveryRecord,
    first: PhaseRecord,
    linked: u128,
    terminal: bool,
)
    requires
        receiver_rules::link(s, op, first, linked, terminal) is Ok,
    ensures
        is_phase(s, op, linked),
        first.input is Target,
        first.phase == RecoveryPhase::Complete,
        ({
            let old = first.input->Target_request@;
            let p = s.recovery.phases[linked];
            &&& p.outcome is Some
            &&& p.outcome->0 is Target
            &&& first.prepared_revision < p.prepared_revision
            &&& first.resolved_revision == p.resolved_revision
            &&& ({
                let outcome = p.outcome->0->Target_0@.outcome;
                if terminal {
                    &&& old.step is Complete
                    &&& outcome is ResolvedCompletion || outcome is CompletionTerminalStatus
                    &&& ({
                        let fact = if outcome is ResolvedCompletion {
                            outcome->ResolvedCompletion_0@.fact
                        } else {
                            outcome->CompletionTerminalStatus_0@.fact
                        };
                        &&& fact.input.attempt.input == old.step->Complete_0@
                        &&& fact.input.attempt.intent.request.command_id == old.command_id
                        &&& fact.input.attempt.dispatch_not_after_ms == old.not_after_ms
                    })
                } else {
                    &&& old.step is PrepareComplete
                    &&& tells_prepared(outcome)
                    &&& ({
                        let attempt = if outcome is PreparedCompletion {
                            outcome->PreparedCompletion_0@.attempt
                        } else {
                            outcome->CompletionAttemptStatus_0@.attempt
                        };
                        &&& attempt.input == old.step->PrepareComplete_0@
                        &&& attempt.intent.request.command_id == old.command_id
                        &&& attempt.dispatch_not_after_ms == old.not_after_ms
                    })
                }
            })
        }),
{
    reveal(receiver_rules::link);
    reveal(rules::phase);
    reveal(rules::target_request);
    reveal(rules::terminal_response);
    reveal(rules::prepared_attempt);
}

/// The resolver is settled by a terminal status only if that was sent behind it, settles
/// in the same revision, and asked about the very resolver.
pub proof fn lemma_resolver_linked(
    s: StateView,
    op: RecoveryRecord,
    first: PhaseRecord,
    status: u128,
)
    requires
        receiver_rules::resolver_link(s, op, first, status) is Ok,
    ensures
        is_phase(s, op, status),
        first.input is Target,
        ({
            let request = first.input->Target_request@;
            let p = s.recovery.phases[status];
            &&& request.step is ResolveComplete
            &&& p.outcome is Some
            &&& p.outcome->0 is Target
            &&& p.outcome->0->Target_0@.outcome is CompletionTerminalStatus
            &&& first.prepared_revision < p.prepared_revision
            &&& first.resolved_revision == p.resolved_revision
            &&& ({
                let asked = p.outcome->0->Target_0@.outcome->CompletionTerminalStatus_0@.input;
                &&& asked.original_input == request.step->ResolveComplete_0@
                &&& asked.original_intent.request.command_id == request.command_id
                &&& asked.original_dispatch_not_after_ms == request.not_after_ms
            })
        }),
{
    reveal(receiver_rules::resolver_link);
    reveal(receiver_rules::resolver_input);
    reveal(receiver_rules::observes_resolver);
    reveal(rules::phase);
    reveal(rules::native);
    reveal(rules::target_request);
    reveal(rules::terminal_status_by);
}

/// A Complete dispatch is settled by an inspection only if that was sent behind it, settles
/// in the same revision, is authentic, and inspected the very completion, which was
/// admitted before the dispatch ended.
pub proof fn lemma_completion_resolved(
    s: StateView,
    op: RecoveryRecord,
    first: PhaseRecord,
    inspection: u128,
)
    requires
        receiver_rules::completion_resolution(s, op, first, inspection) is Ok,
    ensures
        is_phase(s, op, inspection),
        first.input is Target,
        ({
            let old = first.input->Target_request@;
            let p = s.recovery.phases[inspection];
            &&& old.step is Complete
            &&& p.input is Target
            &&& p.input->Target_request@.step is Inspect
            &&& p.outcome is Some
            &&& p.outcome->0 is Target
            &&& first.prepared_revision < p.prepared_revision
            &&& first.resolved_revision == p.resolved_revision
            &&& ({
                let response = p.outcome->0->Target_0@;
                let signed = response.outcome->Inspected_0@;
                &&& response.node_id == p.input->Target_node_id
                &&& response.command_id == p.input->Target_request@.command_id
                &&& response.outcome is Inspected
                &&& signed.authentic
                &&& signed.observer_node_id == p.input->Target_node_id
                &&& signed.input.original_phase.request.command_id == old.command_id
                &&& signed.completion.admitted_at_ms < old.not_after_ms
            })
        }),
{
    reveal(receiver_rules::completion_resolution);
    reveal(receiver_rules::inspection_proof);
    reveal(rules::phase);
    reveal(rules::inspected_by);
}

/// An answer rewrites only an unanswered dispatch that it settles, and gives it its
/// reference and the revision and nothing else: the preparation where it tells of one, and
/// the Complete dispatch where it tells of its end.
pub proof fn lemma_settles(
    s: StateView,
    op: RecoveryRecord,
    observed: PhaseRecord,
    response: TargetResponse,
)
    ensures
        receiver_rules::prior(s, op, observed, response) matches Ok(Some((id, row))) ==> {
            let terminal = !tells_prepared(response.outcome);
            let old = s.recovery.phases[id];
            &&& id != observed.phase_id
            &&& is_phase(s, op, id)
            &&& old.outcome is None
            &&& Some(id) == if terminal {
                op.completion_attempt
            } else {
                op.completion_preparation_attempt
            }
            &&& terminal ==> response.outcome is ResolvedCompletion || response.outcome
                is CompletionTerminalStatus
            &&& row.outcome == Some(
                if terminal {
                    DispatchOutcome::CompletionTerminal { resolution_phase: observed.phase_id }
                } else {
                    DispatchOutcome::PreparationObserved { status_phase: observed.phase_id }
                },
            )
            &&& row.resolved_revision == Some(s.revision)
            &&& row == (PhaseRecord {
                outcome: row.outcome,
                resolved_revision: row.resolved_revision,
                ..old
            })
        },
{
    reveal(receiver_rules::prior);
    reveal(receiver_rules::prior_reference);
    reveal(receiver_rules::resolving);
    reveal(receiver_rules::linked_row);
    reveal(rules::phase);
}

/// The order in which a completion comes about: its preparation is told of by an answer
/// that is settled, to a dispatch no earlier than the first; the resolver and the Complete
/// dispatch are sent behind that; the Complete dispatch keeps the preparation's deadline;
/// and where the attempt was sealed there is neither a completion nor an activation.
pub proof fn lemma_completion_order(s: StateView, op: RecoveryRecord)
    requires
        receiver_rules::progress(s, op) is Ok,
    ensures
        op.completion_preparation is Some ==> {
            &&& is_phase(s, op, op.completion_preparation->0)
            &&& s.recovery.phases[op.completion_preparation->0].resolved_revision is Some
            &&& op.completion_preparation_attempt is Some
            &&& is_phase(s, op, op.completion_preparation_attempt->0)
            &&& s.recovery.phases[op.completion_preparation_attempt->0].prepared_revision
                <= s.recovery.phases[op.completion_preparation->0].prepared_revision
        },
        op.completion_resolution_attempt is Some ==> {
            &&& is_phase(s, op, op.completion_resolution_attempt->0)
            &&& op.completion_preparation is Some
            &&& s.recovery.phases[op.completion_resolution_attempt->0].input is Target
            &&& s.recovery.phases[op.completion_resolution_attempt->0].input->Target_request@.step
                is ResolveComplete
            &&& s.recovery.phases[op.completion_preparation->0].resolved_revision is Some
            &&& s.recovery.phases[op.completion_preparation->0].resolved_revision->0
                < s.recovery.phases[op.completion_resolution_attempt->0].prepared_revision
        },
        op.completion_attempt is Some ==> {
            let sent = s.recovery.phases[op.completion_attempt->0];
            let first = s.recovery.phases[op.completion_preparation_attempt->0];
            &&& is_phase(s, op, op.completion_attempt->0)
            &&& op.completion_preparation is Some
            &&& op.completion_preparation_attempt is Some
            &&& sent.input is Target
            &&& first.input is Target
            &&& sent.input->Target_request@.not_after_ms
                == first.input->Target_request@.not_after_ms
            &&& s.recovery.phases[op.completion_preparation->0].resolved_revision is Some
            &&& s.recovery.phases[op.completion_preparation->0].resolved_revision->0
                < sent.prepared_revision
        },
        op.completion_terminal is Some ==> {
            &&& is_phase(s, op, op.completion_terminal->0)
            &&& rules::terminal(s, op) is Ok
            &&& rules::terminal(s, op)->Ok_0.terminal is Sealed ==> op.completion is None
                && op.activation_attempt is None && op.activation is None
        },
{
    reveal(receiver_rules::progress);
    reveal(receiver_rules::preparation_progress);
    reveal(receiver_rules::resolver_progress);
    reveal(receiver_rules::terminal_progress);
    reveal(receiver_rules::complete_progress);
    reveal(receiver_rules::evidence_before);
    reveal(rules::resolved_before);
    reveal(rules::status_input);
    reveal(rules::original);
    reveal(rules::preparation);
    reveal(rules::terminal);
    reveal(rules::target_request);
    reveal(rules::phase_of);
    reveal(rules::phase);
}

/// An inspection is taken only if it is authentic, the voter's own, under the current intent
/// and of the very input; where the attempt's end is known it must be a commitment of that
/// completion; and where a Complete dispatch was sent, of the same command, the completion
/// was admitted before that ended.
pub proof fn lemma_inspected(
    s: StateView,
    op: RecoveryRecord,
    current: LifecycleIntent,
    node: u64,
    signed: SignedInspection,
)
    requires
        receiver_rules::inspection_proof(s, op, current, node, signed) is Ok,
    ensures
        signed.authentic,
        signed.observer_node_id == node,
        signed.inspection_intent == current,
        receiver_rules::inspection_input(s, op) == Ok::<InspectionInput, Error>(signed.input),
        op.completion_terminal is Some ==> rules::terminal(s, op) is Ok && rules::terminal(
            s,
            op,
        )->Ok_0.terminal == CompletionTerminal::Committed(signed.completion),
        op.completion_attempt is Some ==> {
            let sent = s.recovery.phases[op.completion_attempt->0].input;
            &&& is_phase(s, op, op.completion_attempt->0)
            &&& sent is Target
            &&& sent->Target_request@.step is Complete
            &&& sent->Target_request@.command_id
                == signed.input.original_phase.request.command_id
            &&& signed.completion.admitted_at_ms < sent->Target_request@.not_after_ms
        },
{
    reveal(receiver_rules::inspection_proof);
    reveal(receiver_rules::inspected_terminal);
    reveal(receiver_rules::within_original_cap);
    reveal(rules::phase);
}

/// What is inspected is the completion that the first Complete intent commits, of the quorum
/// and behind the predecessor that it was asked for with.
pub proof fn lemma_inspection_asked(s: StateView, op: RecoveryRecord)
    requires
        receiver_rules::inspection_input(s, op) is Ok,
    ensures
        ({
            let input = receiver_rules::inspection_input(s, op)->Ok_0;
            &&& op.completion_intent is Some
            &&& committed(s, op, op.completion_intent->0, input.original_phase)
            &&& input.original_phase.request.phase == LifecyclePhase::Complete
            &&& rules::completion_input(s, op) is Ok
            &&& input.quorum == rules::completion_input(s, op)->Ok_0.quorum
            &&& input.predecessor == rules::completion_input(s, op)->Ok_0.predecessor
        }),
{
    reveal(receiver_rules::inspection_input);
    reveal(rules::intent_of);
    reveal(rules::intent);
    reveal(rules::phase);
    reveal(rules::accepts_phase);
    reveal(rules::accepts);
}

/// What a status of the preparation asks about is the preparation that was sent first, its
/// intent and its deadline; what a resolution settles is the attempt that an answer to that
/// told of; and what a status of the resolver asks about is the resolver that was sent
/// first.
pub proof fn lemma_asked(s: StateView, op: RecoveryRecord)
    ensures
        rules::status_input(s, op) matches Ok(input) ==> {
            let sent = s.recovery.phases[op.completion_preparation_attempt->0].input;
            &&& op.completion_preparation_attempt is Some
            &&& is_phase(s, op, op.completion_preparation_attempt->0)
            &&& sent is Target
            &&& sent->Target_request@.step is PrepareComplete
            &&& input.original_input == sent->Target_request@.step->PrepareComplete_0@
            &&& input.original_dispatch_not_after_ms == sent->Target_request@.not_after_ms
            &&& op.completion_intent is Some
            &&& committed(s, op, op.completion_intent->0, input.original_intent)
            &&& sent->Target_request@.command_id == input.original_intent.request.command_id
        },
        rules::resolution_input(s, op) matches Ok(input) ==> {
            let told = s.recovery.phases[op.completion_preparation->0].outcome;
            &&& op.completion_preparation is Some
            &&& is_phase(s, op, op.completion_preparation->0)
            &&& told is Some
            &&& told->0 is Target
            &&& match told->0->Target_0@.outcome {
                TargetOutcome::PreparedCompletion(signed) => input.attempt == signed@.attempt,
                TargetOutcome::CompletionAttemptStatus(signed) => input.attempt == signed@.attempt,
                _ => false,
            }
        },
        rules::terminal_status_input(s, op) matches Ok(input) ==> {
            let sent = s.recovery.phases[op.completion_resolution_attempt->0].input;
            &&& op.completion_resolution_attempt is Some
            &&& is_phase(s, op, op.completion_resolution_attempt->0)
            &&& sent is Target
            &&& sent->Target_request@.step is ResolveComplete
            &&& input.original_input == sent->Target_request@.step->ResolveComplete_0@
            &&& input.original_dispatch_not_after_ms == sent->Target_request@.not_after_ms
            &&& s.lifecycle is Some
            &&& s.lifecycle->0.intents.dom().contains(sent->Target_request@.command_id)
            &&& input.original_intent == s.lifecycle->0.intents[sent->Target_request@.command_id]
        },
{
    reveal(rules::status_input);
    reveal(rules::resolution_input);
    reveal(rules::terminal_status_input);
    reveal(rules::preparation);
    reveal(rules::prepared_attempt);
    reveal(rules::original);
    reveal(rules::target_request);
    reveal(rules::retained_intent);
    reveal(rules::intent_of);
    reveal(rules::intent);
    reveal(rules::phase_of);
    reveal(rules::phase);
}

} // verus!
