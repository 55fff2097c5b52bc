//! What a whole recovery journal is held to, and how a later one may differ.
use vstd::prelude::*;

use crate::activation_rules;
use crate::errors::Error;
use crate::first_refusal;
use crate::journal_rules;
use crate::model::{
    AuthorityOutcome, CompletionHistory, CompletionScope, Dispatch, DispatchOutcome,
    LifecycleIntent, LifecyclePhase, PhaseRecord, RecoveryPhase, RecoveryRecord, TargetRequest,
    Voter, Voters,
};
use crate::receiver_rules;
use crate::record_forms;
use crate::record_forms::RecoveryFormsView;
use crate::rules;
use crate::views::{RecoveryView, StateView};

verus! {

// ---------------------------------------------------------------------
// Retained inputs
// ---------------------------------------------------------------------

#[verifier::opaque]
pub open spec fn frozen_authority(
    s: StateView,
    op: RecoveryRecord,
    p: PhaseRecord,
    command: crate::model::AuthorityCommand,
) -> Result<(), Error> {
    let changed = rules::no("retained issuer phase input changed");
    match activation_rules::retained_action(s, op, p, command) {
        Err(e) => Err(e),
        Ok(expected) => if command.command_id != p.phase_id || command.tenant != op.request.tenant
            || command.expected_policy_epoch != op.request.authority_policy_epoch || command.action
            != expected {
            Err(changed)
        } else {
            match rules::dispatch_limit(op, p) {
                Err(e) => Err(e),
                Ok(limit) => if command.not_after_ms > limit || command.not_after_ms
                    <= p.admitted_at_ms {
                    Err(changed)
                } else {
                    Ok(())
                },
            }
        },
    }
}

#[verifier::opaque]
pub open spec fn frozen_route(op: RecoveryRecord, p: PhaseRecord, input: crate::model::RouteChange) -> Result<
    (),
    Error,
> {
    match activation_rules::route_input(op, input) {
        Err(e) => Err(e),
        Ok(()) => if p.phase != RecoveryPhase::Publish || input.expected_topology_version
            >= p.prepared_revision {
            Err(rules::no("retained route publication position differs"))
        } else {
            Ok(())
        },
    }
}

#[verifier::opaque]
pub open spec fn frozen_retirement(
    op: RecoveryRecord,
    p: PhaseRecord,
    request: crate::model::RetireSourceRequest,
) -> Result<(), Error> {
    let differs = rules::no("retained planned retirement input differs");
    if p.phase != RecoveryPhase::RetireSource {
        Err(differs)
    } else {
        match activation_rules::retirement_request(op) {
            Err(e) => Err(e),
            Ok(expected) => if request != expected || request.not_after_ms <= p.admitted_at_ms {
                Err(differs)
            } else {
                match rules::dispatch_limit(op, p) {
                    Err(e) => Err(e),
                    Ok(limit) => if request.not_after_ms > limit {
                        Err(differs)
                    } else {
                        Ok(())
                    },
                }
            },
        }
    }
}

/// Whether a Control phase belongs to the recovery's phase.
pub open spec fn control_phase_of(phase: RecoveryPhase, asked: LifecyclePhase) -> bool {
    match phase {
        RecoveryPhase::Materialize => asked == LifecyclePhase::Materialize || asked
            == LifecyclePhase::ResumeMaterialize,
        RecoveryPhase::Cleanup => asked == LifecyclePhase::StopLocal,
        RecoveryPhase::Initialize => asked == LifecyclePhase::Initialize,
        RecoveryPhase::Complete => asked == LifecyclePhase::Complete || asked
            == LifecyclePhase::InspectCompletionAttempt || asked == LifecyclePhase::ResolveComplete
            || asked == LifecyclePhase::InspectCompletionResolution || asked
            == LifecyclePhase::InspectTarget,
        RecoveryPhase::Activate => asked == LifecyclePhase::Activate,
        RecoveryPhase::Confirm => asked == LifecyclePhase::Activate,
        _ => false,
    }
}

#[verifier::opaque]
pub open spec fn frozen_intent(
    s: StateView,
    op: RecoveryRecord,
    p: PhaseRecord,
    request: crate::model::IntentRequest,
) -> Result<(), Error> {
    let changed = rules::no("retained Control phase input changed");
    if !control_phase_of(p.phase, request.phase) {
        Err(changed)
    } else {
        match journal_rules::expected_intent(
            s,
            op,
            p.phase_id,
            request.expected_policy_epoch,
            request.phase,
            false,
        ) {
            Err(e) => Err(e),
            Ok(expected) => if request != expected {
                Err(changed)
            } else {
                Ok(())
            },
        }
    }
}

#[verifier::opaque]
pub open spec fn frozen_step(
    s: StateView,
    op: RecoveryRecord,
    p: PhaseRecord,
    current: LifecycleIntent,
    node: u64,
    request: TargetRequest,
) -> Result<(), Error> {
    let outside = "retained target dispatch step differs";
    match p.phase {
        RecoveryPhase::Confirm => activation_rules::step(s, op, current, node, request.step, false),
        RecoveryPhase::Complete => journal_rules::complete_step(
            s,
            op,
            current,
            node,
            request,
            false,
        ),
        RecoveryPhase::Initialize => receiver_rules::quorum_step(
            s,
            op,
            current,
            node,
            request.step,
            RecoveryPhase::Initialize,
            false,
        ),
        RecoveryPhase::Materialize => journal_rules::materialize_step(
            s,
            op,
            current,
            request.step,
            "retained materialization input differs",
            "retained fresh materialization input differs",
            outside,
        ),
        RecoveryPhase::Cleanup => journal_rules::cleanup_step(
            s,
            op,
            current,
            request.step,
            "retained target stop input differs",
            outside,
        ),
        _ => Err(rules::no(outside)),
    }
}

#[verifier::opaque]
pub open spec fn frozen_target(
    s: StateView,
    op: RecoveryRecord,
    p: PhaseRecord,
    node: u64,
    request: TargetRequest,
) -> Result<(), Error> {
    let differs = rules::no("retained target dispatch resource differs");
    match rules::retained_intent(s, request.command_id) {
        None => Err(rules::no("retained target dispatch lacks its Control phase")),
        Some(current) => if request.tenant != op.request.tenant || rules::voter(op.voters, node)
            is None || p.admitted_at_ms >= current.original_credential_expires_at_ms
            || request.not_after_ms <= p.admitted_at_ms {
            Err(differs)
        } else {
            match rules::dispatch_limit(op, p) {
                Err(e) => Err(e),
                Ok(limit) => if request.not_after_ms > limit || request.not_after_ms
                    > current.original_credential_expires_at_ms {
                    Err(differs)
                } else {
                    frozen_step(s, op, p, current, node, request)
                },
            }
        },
    }
}

/// Whether a retained phase still holds what was admitted for it, where `form` refuses
/// what was dispatched in it, if anything.
#[verifier::opaque]
pub open spec fn frozen_input(
    s: StateView,
    op: RecoveryRecord,
    p: PhaseRecord,
    form: Option<Error>,
) -> Result<(), Error> {
    match p.input {
        Dispatch::Authority(command) => match activation_rules::retained_action(
            s,
            op,
            p,
            command@,
        ) {
            Err(e) => Err(e),
            Ok(_) => if form is Some {
                Err(rules::no("retained issuer command invalid"))
            } else {
                frozen_authority(s, op, p, command@)
            },
        },
        Dispatch::PublishRoute(input) => frozen_route(op, p, input),
        Dispatch::RetireSource(request) => frozen_retirement(op, p, request),
        Dispatch::ControlIntent(request) => record_forms::formed(
            form,
            frozen_intent(s, op, p, request@),
        ),
        Dispatch::Target { node_id, request } => if form is Some {
            Err(rules::no("retained native target request invalid"))
        } else {
            frozen_target(s, op, p, node_id, request@)
        },
    }
}

// ---------------------------------------------------------------------
// One operation
// ---------------------------------------------------------------------

pub open spec fn past_completion(phase: RecoveryPhase) -> bool {
    phase == RecoveryPhase::RetireSource || phase == RecoveryPhase::FenceSource || past_fence(phase)
}

pub open spec fn past_fence(phase: RecoveryPhase) -> bool {
    phase == RecoveryPhase::Activate || past_activation(phase)
}

pub open spec fn past_activation(phase: RecoveryPhase) -> bool {
    phase == RecoveryPhase::Confirm || past_confirmation(phase)
}

pub open spec fn past_confirmation(phase: RecoveryPhase) -> bool {
    phase == RecoveryPhase::Publish || phase == RecoveryPhase::Finished
}

pub open spec fn past_initialization(phase: RecoveryPhase) -> bool {
    phase == RecoveryPhase::Complete || past_completion(phase)
}

pub open spec fn past_materialization(phase: RecoveryPhase) -> bool {
    phase == RecoveryPhase::Initialize || past_initialization(phase)
}

/// Whether the operation is past a step that it has no record of.
pub open spec fn skipped(op: RecoveryRecord) -> bool {
    ||| (past_materialization(op.phase) || op.phase == RecoveryPhase::Materialize)
        && op.issuer_preparation is None
    ||| past_materialization(op.phase) && !journal_rules::all_materialized(op.voters)
    ||| past_initialization(op.phase) && op.initialization is None
    ||| past_completion(op.phase) && (op.completion is None || op.completion_intent is None)
    ||| (op.phase == RecoveryPhase::Cleanup || op.phase == RecoveryPhase::Stopped)
        && op.target_stop is None
}

/// Whether the head is the state's own, and the target bound to it.
#[verifier::opaque]
pub open spec fn head_bound(s: StateView, key: u128, op: RecoveryRecord) -> bool {
    &&& key == op.request.operation_id
    &&& s.lifecycle is Some
    &&& op.request.installation_sha256 == s.lifecycle->0.installation.sha256
    &&& op.updated_revision <= s.revision
    &&& s.recovery.targets.get(op.request.target_incarnation) == Some(op.request.operation_id)
}

/// The phases that belong to an operation.
pub open spec fn phases_of(phases: Map<u128, PhaseRecord>, operation: u128) -> Set<u128> {
    phases.dom().filter(|id: u128| phases[id].operation_id == operation)
}

/// Follows the phases from the last one back to the first, and the completion
/// attempts with them.
pub open spec fn chain(
    s: StateView,
    op: RecoveryRecord,
    cursor: Option<u128>,
    expected: u64,
    birth: Option<u128>,
) -> Result<(), Error>
    decreases expected,
{
    match cursor {
        None => if expected != 0 {
            Err(rules::no("recovery phase chain is incomplete"))
        } else if birth is Some {
            Err(rules::no("completion attempt chain omitted its committed original"))
        } else {
            Ok(())
        },
        Some(id) => match rules::phase(s, op, id) {
            Err(e) => Err(e),
            Ok(p) => if p.sequence != expected || expected == 0 {
                Err(rules::no("recovery phase chain forked"))
            } else {
                match rules::chain_link(s, op, p, birth) {
                    Err(e) => Err(e),
                    Ok(birth) => chain(s, op, p.previous_phase, (expected - 1) as u64, birth),
                }
            },
        },
    }
}

/// The sequence number behind the last phase.
#[verifier::opaque]
pub open spec fn next_sequence(s: StateView, op: RecoveryRecord) -> Result<u64, Error> {
    match op.last_phase {
        None => Ok(1),
        Some(id) => match rules::phase(s, op, id) {
            Err(e) => Err(e),
            Ok(p) => if p.sequence == u64::MAX {
                Err(rules::no("recovery sequence exhausted"))
            } else {
                Ok((p.sequence + 1) as u64)
            },
        },
    }
}

#[verifier::opaque]
pub open spec fn chained(s: StateView, op: RecoveryRecord) -> Result<(), Error> {
    match next_sequence(s, op) {
        Err(e) => Err(e),
        Ok(sequence) => if sequence != op.next_phase_sequence || phases_of(
            s.recovery.phases,
            op.request.operation_id,
        ).len() != sequence - 1 {
            Err(rules::no("recovery phase chain head differs"))
        } else {
            chain(s, op, op.last_phase, (sequence - 1) as u64, op.completion_intent)
        },
    }
}

#[verifier::opaque]
pub open spec fn pending_held(s: StateView, op: RecoveryRecord) -> Result<(), Error> {
    match op.pending_phase {
        None => Ok(()),
        Some(id) => match rules::phase(s, op, id) {
            Err(e) => Err(e),
            Ok(p) => if op.last_phase != Some(id) || p.outcome is Some || p.phase != op.phase {
                Err(rules::no("recovery pending phase differs"))
            } else {
                Ok(())
            },
        },
    }
}

#[verifier::opaque]
pub open spec fn intent_held(s: StateView, op: RecoveryRecord, id: Option<u128>) -> Result<(), Error> {
    match id {
        None => Ok(()),
        Some(id) => match rules::intent(s, op, id) {
            Err(e) => Err(e),
            Ok(_) => Ok(()),
        },
    }
}

#[verifier::opaque]
pub open spec fn intents_held(s: StateView, op: RecoveryRecord) -> Result<(), Error> {
    match intent_held(s, op, op.current_intent) {
        Err(e) => Err(e),
        Ok(()) => match intent_held(s, op, op.materialization_intent) {
            Err(e) => Err(e),
            Ok(()) => intent_held(s, op, op.completion_intent),
        },
    }
}

/// Whether an attempt's intent commits the attempt's canonical input.
#[verifier::opaque]
pub open spec fn committed_original(s: StateView, op: RecoveryRecord, id: u128) -> Result<(), Error> {
    match rules::origin(s, op) {
        Err(e) => Err(e),
        Ok(o) => match rules::completion_input(s, op) {
            Err(e) => Err(e),
            Ok(input) => match rules::intent(s, op, id) {
                Err(e) => Err(e),
                Ok(original) => rules::validate_original_intent(o, input, original),
            },
        },
    }
}

#[verifier::opaque]
pub open spec fn original_held(s: StateView, op: RecoveryRecord) -> Result<(), Error> {
    match op.completion_intent {
        None => Ok(()),
        Some(id) => committed_original(s, op, id),
    }
}

/// Whether the phase is the attempt's own Complete dispatch.
#[verifier::opaque]
pub open spec fn completes(p: PhaseRecord, original: LifecycleIntent) -> bool {
    p.phase == RecoveryPhase::Complete && match p.input {
        Dispatch::Target { node_id, request } => request@.command_id == original.request.command_id
            && request@.step is Complete,
        _ => false,
    }
}

#[verifier::opaque]
pub open spec fn attempt_held(s: StateView, op: RecoveryRecord) -> Result<(), Error> {
    match op.completion_attempt {
        None => Ok(()),
        Some(id) => match rules::phase(s, op, id) {
            Err(e) => Err(e),
            Ok(p) => match rules::intent_of(
                s,
                op,
                op.completion_intent,
                "original completion identity absent",
            ) {
                Err(e) => Err(e),
                Ok(original) => if completes(p, original) {
                    Ok(())
                } else {
                    Err(rules::no("original completion attempt reference differs"))
                },
            },
        },
    }
}

#[verifier::opaque]
pub open spec fn origin_held(s: StateView, op: RecoveryRecord) -> Result<(), Error> {
    if op.materialization_intent is None {
        Ok(())
    } else {
        match rules::origin(s, op) {
            Err(e) => Err(e),
            Ok(_) => Ok(()),
        }
    }
}

/// Whether a voter's reference is to its own outcome of the right kind.
#[verifier::opaque]
pub open spec fn voter_outcome(
    s: StateView,
    op: RecoveryRecord,
    node: u64,
    id: Option<u128>,
    cleanup: bool,
) -> Result<(), Error> {
    match id {
        None => Ok(()),
        Some(id) => match rules::phase(s, op, id) {
            Err(e) => Err(e),
            Ok(p) => match rules::native(p.outcome) {
                None => Err(rules::no("recovery voter progress lacks a native outcome")),
                Some(response) => if response.node_id != node || (if cleanup {
                    response.outcome !is Stopped
                } else {
                    response.outcome !is Materialized
                }) {
                    Err(rules::no("recovery voter outcome differs"))
                } else {
                    Ok(())
                },
            },
        },
    }
}

#[verifier::opaque]
pub open spec fn voter_held(s: StateView, op: RecoveryRecord, v: Voter) -> Result<(), Error> {
    match voter_outcome(s, op, v.node_id, v.materialization, false) {
        Err(e) => Err(e),
        Ok(()) => voter_outcome(s, op, v.node_id, v.cleanup, true),
    }
}

#[verifier::opaque]
pub open spec fn voters_held(s: StateView, op: RecoveryRecord) -> Result<(), Error> {
    match voter_held(s, op, op.voters.first) {
        Err(e) => Err(e),
        Ok(()) => match voter_held(s, op, op.voters.second) {
            Err(e) => Err(e),
            Ok(()) => voter_held(s, op, op.voters.third),
        },
    }
}

#[verifier::opaque]
pub open spec fn resolved_reference(s: StateView, op: RecoveryRecord, id: Option<u128>) -> Result<
    (),
    Error,
> {
    match id {
        None => Ok(()),
        Some(id) => match rules::phase(s, op, id) {
            Err(e) => Err(e),
            Ok(p) => if p.outcome is None {
                Err(rules::no("recovery progress reference is unresolved"))
            } else {
                Ok(())
            },
        },
    }
}

/// Every step that the head records is resolved.
#[verifier::opaque]
pub open spec fn references_resolved(s: StateView, op: RecoveryRecord) -> Result<(), Error> {
    match resolved_reference(s, op, op.issuer_preparation) {
        Err(e) => Err(e),
        Ok(()) => match resolved_reference(s, op, op.initialization) {
            Err(e) => Err(e),
            Ok(()) => match resolved_reference(s, op, op.completion) {
                Err(e) => Err(e),
                Ok(()) => match resolved_reference(s, op, op.retirement) {
                    Err(e) => Err(e),
                    Ok(()) => later_references_resolved(s, op),
                },
            },
        },
    }
}

#[verifier::opaque]
pub open spec fn later_references_resolved(s: StateView, op: RecoveryRecord) -> Result<(), Error> {
    match resolved_reference(s, op, op.source_fence) {
        Err(e) => Err(e),
        Ok(()) => match resolved_reference(s, op, op.activation) {
            Err(e) => Err(e),
            Ok(()) => match resolved_reference(s, op, op.route_publication) {
                Err(e) => Err(e),
                Ok(()) => resolved_reference(s, op, op.target_stop),
            },
        },
    }
}

/// Whether a phase is the node's own acknowledged start.
#[verifier::opaque]
pub open spec fn acknowledged_start(p: PhaseRecord, node: u64) -> bool {
    match p.input {
        Dispatch::Target { node_id, request } => match rules::native(p.outcome) {
            None => false,
            Some(response) => node_id == node && response.node_id == node && (request@.step is Start
                || request@.step is StartActivation) && response.outcome is Started,
        },
        _ => false,
    }
}

#[verifier::opaque]
pub open spec fn start_held(s: StateView, op: RecoveryRecord, v: Voter) -> Result<(), Error> {
    match v.started {
        None => Ok(()),
        Some(id) => match rules::phase(s, op, id) {
            Err(e) => Err(e),
            Ok(p) => if acknowledged_start(p, v.node_id) {
                Ok(())
            } else {
                Err(rules::no("startup progress lacks exact native voter acknowledgement"))
            },
        },
    }
}

#[verifier::opaque]
pub open spec fn starts_held(s: StateView, op: RecoveryRecord) -> Result<(), Error> {
    match start_held(s, op, op.voters.first) {
        Err(e) => Err(e),
        Ok(()) => match start_held(s, op, op.voters.second) {
            Err(e) => Err(e),
            Ok(()) => start_held(s, op, op.voters.third),
        },
    }
}

/// The outcome of a reference, if there is one.
#[verifier::opaque]
pub open spec fn outcome_of(s: StateView, op: RecoveryRecord, id: u128) -> Option<DispatchOutcome> {
    match rules::phase(s, op, id) {
        Err(_) => None,
        Ok(p) => p.outcome,
    }
}

#[verifier::opaque]
pub open spec fn is_initialization(outcome: Option<DispatchOutcome>) -> bool {
    match rules::native(outcome) {
        None => false,
        Some(response) => response.outcome is Initialized,
    }
}

#[verifier::opaque]
pub open spec fn is_completion(outcome: Option<DispatchOutcome>) -> bool {
    match rules::native(outcome) {
        None => false,
        Some(response) => response.outcome is Completed || response.outcome is Inspected,
    }
}

#[verifier::opaque]
pub open spec fn is_preparation(outcome: Option<DispatchOutcome>) -> bool {
    match outcome {
        Some(DispatchOutcome::Authority(signed)) => signed@.receipt.outcome is TargetPrepared,
        _ => false,
    }
}

#[verifier::opaque]
pub open spec fn kinds_held(s: StateView, op: RecoveryRecord) -> Result<(), Error> {
    if op.initialization is Some && !is_initialization(outcome_of(s, op, op.initialization->0)) {
        Err(rules::no("initialization progress reference differs"))
    } else if op.completion is Some && !is_completion(outcome_of(s, op, op.completion->0)) {
        Err(rules::no("completion progress reference differs"))
    } else if op.issuer_preparation is Some && !is_preparation(
        outcome_of(s, op, op.issuer_preparation->0),
    ) {
        Err(rules::no("recovery preparation reference differs"))
    } else {
        Ok(())
    }
}

#[verifier::opaque]
pub open spec fn retirement_held(s: StateView, op: RecoveryRecord) -> Result<(), Error> {
    match op.retirement {
        None => Ok(()),
        Some(id) => match rules::phase(s, op, id) {
            Err(e) => Err(e),
            Ok(p) => match p.outcome {
                Some(DispatchOutcome::SourceRetired(receipt)) => if p.input !is RetireSource {
                    Err(rules::no("source retirement progress input differs"))
                } else {
                    activation_rules::retirement(op, receipt)
                },
                _ => Err(rules::no("source retirement progress reference differs")),
            },
        },
    }
}

/// Whether an outcome fenced the operation's own source and epoch.
#[verifier::opaque]
pub open spec fn fences(op: RecoveryRecord, outcome: Option<DispatchOutcome>) -> bool {
    match outcome {
        Some(DispatchOutcome::Authority(signed)) => signed@.receipt.outcome
            == (AuthorityOutcome::Fenced {
            incarnation: op.request.source_incarnation,
            authority_epoch: op.request.source_authority_epoch,
        }),
        _ => false,
    }
}

#[verifier::opaque]
pub open spec fn fence_held(s: StateView, op: RecoveryRecord) -> Result<(), Error> {
    match op.source_fence {
        None => if past_fence(op.phase) {
            Err(rules::no("activation progress lacks exact source fence"))
        } else {
            Ok(())
        },
        Some(id) => match rules::phase(s, op, id) {
            Err(e) => Err(e),
            Ok(p) => if fences(op, p.outcome) {
                Ok(())
            } else {
                Err(rules::no("source fence progress reference differs"))
            },
        },
    }
}

#[verifier::opaque]
pub open spec fn planned_retired(op: RecoveryRecord) -> Result<(), Error> {
    if op.request.source_mode is Planned && (op.phase == RecoveryPhase::FenceSource || past_fence(
        op.phase,
    )) && op.retirement is None {
        Err(rules::no("planned source fence lacks verified retirement"))
    } else {
        Ok(())
    }
}

/// Whether a stop that resolved the activation says so itself.
#[verifier::opaque]
pub open spec fn resolution_held(s: StateView, op: RecoveryRecord, id: u128) -> Result<(), Error> {
    match rules::phase(s, op, id) {
        Err(e) => Err(e),
        Ok(p) => match p.outcome {
            Some(DispatchOutcome::AuthorityResolution(signed)) => match rules::phase(
                s,
                op,
                signed@.receipt.command.command_id,
            ) {
                Err(e) => Err(e),
                Ok(stop) => if stop.outcome != Some(DispatchOutcome::Authority(signed)) {
                    Err(rules::no("activation resolution differs from permanent stop outcome"))
                } else {
                    Ok(())
                },
            },
            _ => Ok(()),
        },
    }
}

#[verifier::opaque]
pub open spec fn activation_attempt_held(s: StateView, op: RecoveryRecord) -> Result<(), Error> {
    match op.activation_attempt {
        None => Ok(()),
        Some(id) => match activation_rules::attempt(s, op) {
            Err(e) => Err(e),
            Ok(_) => resolution_held(s, op, id),
        },
    }
}

#[verifier::opaque]
pub open spec fn winner_held(s: StateView, op: RecoveryRecord) -> Result<(), Error> {
    if op.activation is None {
        Ok(())
    } else if op.activation != op.activation_attempt {
        Err(rules::no("committed winner differs from original activation attempt"))
    } else {
        match activation_rules::winner(s, op) {
            Err(e) => Err(e),
            Ok(_) => Ok(()),
        }
    }
}

/// Cleanup has no activation left, and confirmation has one committed.
#[verifier::opaque]
pub open spec fn activation_decided(s: StateView, op: RecoveryRecord) -> Result<(), Error> {
    let stopped = if op.phase == RecoveryPhase::StopTarget || op.phase == RecoveryPhase::Cleanup
        || op.phase == RecoveryPhase::Stopped {
        activation_rules::require_negative_attempt(s, op)
    } else {
        Ok(())
    };
    match stopped {
        Err(e) => Err(e),
        Ok(()) => if past_activation(op.phase) && op.activation is None {
            Err(rules::no("target confirmation precedes committed issuer winner"))
        } else {
            Ok(())
        },
    }
}

#[verifier::opaque]
pub open spec fn confirmation_held(s: StateView, op: RecoveryRecord, v: Voter) -> Result<(), Error> {
    match v.confirmation {
        None => Ok(()),
        Some(id) => match rules::phase(s, op, id) {
            Err(e) => Err(e),
            Ok(p) => match rules::native(p.outcome) {
                None => Err(rules::no("target confirmation lacks native outcome")),
                Some(response) => match rules::activated_by(response.outcome) {
                    None => Err(rules::no("target confirmation proof differs")),
                    Some(signed) => match activation_rules::local_activation(
                        s,
                        op,
                        v.node_id,
                        signed,
                        true,
                    ) {
                        Err(e) => Err(e),
                        Ok(()) => match activation_rules::local_proof(s, op) {
                            Err(e) => Err(e),
                            Ok(None) => Ok(()),
                            Ok(Some(first)) => if activation_rules::same_activation(first, signed) {
                                Ok(())
                            } else {
                                Err(rules::no("target confirmations disagree"))
                            },
                        },
                    },
                },
            },
        },
    }
}

#[verifier::opaque]
pub open spec fn confirmations_held(s: StateView, op: RecoveryRecord) -> Result<(), Error> {
    match confirmation_held(s, op, op.voters.first) {
        Err(e) => Err(e),
        Ok(()) => match confirmation_held(s, op, op.voters.second) {
            Err(e) => Err(e),
            Ok(()) => confirmation_held(s, op, op.voters.third),
        },
    }
}

/// Whether the phase published a route.
#[verifier::opaque]
pub open spec fn is_publication(p: PhaseRecord) -> bool {
    p.input is PublishRoute && match p.outcome {
        Some(DispatchOutcome::RoutePublished { revision }) => true,
        _ => false,
    }
}

#[verifier::opaque]
pub open spec fn publication_held(s: StateView, op: RecoveryRecord) -> Result<(), Error> {
    if past_confirmation(op.phase) && !activation_rules::all_confirmed(op) {
        Err(rules::no("route publication lacks every local activation confirmation"))
    } else {
        match op.route_publication {
            None => Ok(()),
            Some(id) => match rules::phase(s, op, id) {
                Err(e) => Err(e),
                Ok(p) => if is_publication(p) {
                    Ok(())
                } else {
                    Err(rules::no("route publication reference differs"))
                },
            },
        }
    }
}

#[verifier::opaque]
pub open spec fn stop_held(s: StateView, op: RecoveryRecord) -> Result<(), Error> {
    if op.target_stop is None {
        Ok(())
    } else {
        match journal_rules::stop_reference(s, op) {
            Err(e) => Err(e),
            Ok(_) => Ok(()),
        }
    }
}

/// What the head's identity and its phases are held to.
#[verifier::opaque]
pub open spec fn head_checked(s: StateView, key: u128, op: RecoveryRecord) -> Result<(), Error> {
    if skipped(op) {
        Err(rules::no("recovery progress skipped a required committed predecessor"))
    } else if !head_bound(s, key, op) {
        Err(rules::no("recovery head or permanent target binding differs"))
    } else {
        match rules::partition(s, op) {
            Err(e) => Err(e),
            Ok(_) => match chained(s, op) {
                Err(e) => Err(e),
                Ok(()) => pending_held(s, op),
            },
        }
    }
}

/// What the head's completion attempt and voters are held to.
#[verifier::opaque]
pub open spec fn target_checked(s: StateView, op: RecoveryRecord) -> Result<(), Error> {
    match intents_held(s, op) {
        Err(e) => Err(e),
        Ok(()) => match original_held(s, op) {
            Err(e) => Err(e),
            Ok(()) => match attempt_held(s, op) {
                Err(e) => Err(e),
                Ok(()) => match origin_held(s, op) {
                    Err(e) => Err(e),
                    Ok(()) => match voters_held(s, op) {
                        Err(e) => Err(e),
                        Ok(()) => match references_resolved(s, op) {
                            Err(e) => Err(e),
                            Ok(()) => match starts_held(s, op) {
                                Err(e) => Err(e),
                                Ok(()) => kinds_held(s, op),
                            },
                        },
                    },
                },
            },
        },
    }
}

/// What the head's source, activation and route are held to.
#[verifier::opaque]
pub open spec fn activation_checked(s: StateView, op: RecoveryRecord) -> Result<(), Error> {
    match retirement_held(s, op) {
        Err(e) => Err(e),
        Ok(()) => match fence_held(s, op) {
            Err(e) => Err(e),
            Ok(()) => match planned_retired(op) {
                Err(e) => Err(e),
                Ok(()) => match activation_attempt_held(s, op) {
                    Err(e) => Err(e),
                    Ok(()) => match winner_held(s, op) {
                        Err(e) => Err(e),
                        Ok(()) => match activation_decided(s, op) {
                            Err(e) => Err(e),
                            Ok(()) => match confirmations_held(s, op) {
                                Err(e) => Err(e),
                                Ok(()) => match publication_held(s, op) {
                                    Err(e) => Err(e),
                                    Ok(()) => match stop_held(s, op) {
                                        Err(e) => Err(e),
                                        Ok(()) => receiver_rules::progress(s, op),
                                    },
                                },
                            },
                        },
                    },
                },
            },
        },
    }
}

/// What one operation's head is held to.
#[verifier::opaque]
pub open spec fn operation_checked(s: StateView, key: u128, op: RecoveryRecord) -> Result<(), Error> {
    match head_checked(s, key, op) {
        Err(e) => Err(e),
        Ok(()) => match target_checked(s, op) {
            Err(e) => Err(e),
            Ok(()) => activation_checked(s, op),
        },
    }
}

// ---------------------------------------------------------------------
// One phase
// ---------------------------------------------------------------------

/// Whether a phase stands within its operation's life.
#[verifier::opaque]
pub open spec fn phase_within(key: u128, op: RecoveryRecord, p: PhaseRecord) -> bool {
    &&& key == p.phase_id
    &&& p.sequence < op.next_phase_sequence
    &&& op.created_revision <= p.prepared_revision <= op.updated_revision
    &&& match p.resolved_revision {
        None => true,
        Some(revision) => revision <= op.updated_revision,
    }
}

/// Whether a phase follows the one in front of it.
#[verifier::opaque]
pub open spec fn phase_follows(s: StateView, op: RecoveryRecord, p: PhaseRecord) -> Result<(), Error> {
    match p.previous_phase {
        Some(id) => match rules::phase(s, op, id) {
            Err(e) => Err(e),
            Ok(previous) => if previous.sequence + 1 != p.sequence || previous.prepared_revision
                >= p.prepared_revision {
                Err(rules::no("recovery phase chain differs"))
            } else {
                Ok(())
            },
        },
        None => if p.sequence == 1 {
            Ok(())
        } else {
            Err(rules::no("recovery phase chain origin differs"))
        },
    }
}

/// Whether the phase's input and outcome hold in its own attempt's context.
#[verifier::opaque]
pub open spec fn phase_in_context(
    s: StateView,
    op: RecoveryRecord,
    p: PhaseRecord,
    form: Option<Error>,
) -> Result<(), Error> {
    match rules::for_phase(s, op, p) {
        Err(e) => Err(e),
        Ok(context) => match frozen_input(s, context, p, form) {
            Err(e) => Err(e),
            Ok(()) => match p.outcome {
                None => Ok(()),
                Some(outcome) => journal_rules::outcome_admitted(s, context, p, outcome),
            },
        },
    }
}

#[verifier::opaque]
pub open spec fn phase_checked(s: StateView, key: u128, p: PhaseRecord, form: Option<Error>) -> Result<
    (),
    Error,
> {
    match s.recovery.operations.get(p.operation_id) {
        None => Err(rules::no("recovery phase has no operation")),
        Some(op) => if !phase_within(key, op, p) {
            Err(rules::no("recovery retained phase identity differs"))
        } else {
            match phase_follows(s, op, p) {
                Err(e) => Err(e),
                Ok(()) => phase_in_context(s, op, p, form),
            }
        },
    }
}

// ---------------------------------------------------------------------
// Closed attempts
// ---------------------------------------------------------------------

/// Whether the committed birth that follows a closed attempt is the named one.
#[verifier::opaque]
pub open spec fn succeeds(next: PhaseRecord, history: CompletionHistory) -> bool {
    next.completion_scope == Some(
        CompletionScope {
            intent: history.successor_intent,
            predecessor: Some(history.terminal),
        },
    ) && rules::is_committed_birth(next)
}

/// Whether a phase belongs to the closed attempt and stands within it.
#[verifier::opaque]
pub open spec fn closed_row(
    s: StateView,
    op: RecoveryRecord,
    history: CompletionHistory,
    id: u128,
    from: u64,
    until: u64,
) -> Result<(), Error> {
    match rules::phase(s, op, id) {
        Err(e) => Err(e),
        Ok(p) => if p.completion_scope != Some(history.scope) || p.sequence < from || p.sequence
            >= until {
            Err(rules::no("closed completion cursor contains a foreign or later phase"))
        } else {
            Ok(())
        },
    }
}

#[verifier::opaque]
pub open spec fn closed_evidence(
    s: StateView,
    op: RecoveryRecord,
    history: CompletionHistory,
    from: u64,
    until: u64,
) -> Result<(), Error> {
    match closed_row(s, op, history, history.preparation, from, until) {
        Err(e) => Err(e),
        Ok(()) => match closed_row(s, op, history, history.resolution_attempt, from, until) {
            Err(e) => Err(e),
            Ok(()) => match closed_row(s, op, history, history.terminal, from, until) {
                Err(e) => Err(e),
                Ok(()) => match history.attempted_completion {
                    None => Ok(()),
                    Some(id) => closed_row(s, op, history, id, from, until),
                },
            },
        },
    }
}

#[verifier::opaque]
pub open spec fn closed_rows(
    s: StateView,
    op: RecoveryRecord,
    history: CompletionHistory,
    from: u64,
    until: u64,
) -> Result<(), Error> {
    match closed_row(s, op, history, history.scope.intent, from, until) {
        Err(e) => Err(e),
        Ok(()) => match closed_row(s, op, history, history.current_intent, from, until) {
            Err(e) => Err(e),
            Ok(()) => match closed_row(s, op, history, history.preparation_attempt, from, until) {
                Err(e) => Err(e),
                Ok(()) => closed_evidence(s, op, history, from, until),
            },
        },
    }
}

/// Whether the closed attempt was sealed, and its successor prepared behind it.
#[verifier::opaque]
pub open spec fn sealed_before(
    s: StateView,
    op: RecoveryRecord,
    history: CompletionHistory,
    next: PhaseRecord,
) -> Result<(), Error> {
    let view = rules::historical_view(op, history);
    match rules::terminal(s, view) {
        Err(e) => Err(e),
        Ok(fact) => match rules::sealed_reference(fact) {
            Err(e) => Err(e),
            Ok(_) => match rules::phase(s, op, history.terminal) {
                Err(e) => Err(e),
                Ok(p) => match p.resolved_revision {
                    None => Err(rules::no("closed completion terminal is unresolved")),
                    Some(revision) => if next.prepared_revision <= revision {
                        Err(rules::no("successor birth predates durable predecessor resolution"))
                    } else {
                        Ok(())
                    },
                },
            },
        },
    }
}

/// Whether a closed attempt is sound in its own context.
#[verifier::opaque]
pub open spec fn closed_context(
    s: StateView,
    op: RecoveryRecord,
    history: CompletionHistory,
    next: PhaseRecord,
) -> Result<(), Error> {
    let view = rules::historical_view(op, history);
    match rules::origin(s, op) {
        Err(e) => Err(e),
        Ok(o) => match rules::completion_input(s, view) {
            Err(e) => Err(e),
            Ok(input) => match rules::intent(s, op, history.scope.intent) {
                Err(e) => Err(e),
                Ok(original) => match rules::validate_original_intent(o, input, original) {
                    Err(e) => Err(e),
                    Ok(()) => match receiver_rules::progress(s, view) {
                        Err(e) => Err(e),
                        Ok(()) => sealed_before(s, op, history, next),
                    },
                },
            },
        },
    }
}

#[verifier::opaque]
pub open spec fn history_checked(s: StateView, key: u128, history: CompletionHistory) -> Result<
    (),
    Error,
> {
    match s.recovery.operations.get(history.operation_id) {
        None => Err(rules::no("closed completion history has no operation")),
        Some(op) => if key != history.scope.intent || op.completion_intent == Some(
            history.scope.intent,
        ) {
            Err(rules::no("closed completion history substituted its key or active cursor"))
        } else {
            match rules::phase(s, op, history.scope.intent) {
                Err(e) => Err(e),
                Ok(original) => match rules::phase(s, op, history.successor_intent) {
                    Err(e) => Err(e),
                    Ok(next) => if !succeeds(next, history) {
                        Err(rules::no("closed completion lacks its exact committed successor"))
                    } else {
                        match closed_rows(s, op, history, original.sequence, next.sequence) {
                            Err(e) => Err(e),
                            Ok(()) => closed_context(s, op, history, next),
                        }
                    },
                },
            }
        },
    }
}

pub open spec fn histories(s: StateView) -> Result<(), Error> {
    first_refusal::every(
        s.recovery.completion_history,
        |key: u128, history: CompletionHistory| history_checked(s, key, history),
    )
}

// ---------------------------------------------------------------------
// The journal
// ---------------------------------------------------------------------

pub open spec fn is_empty(r: RecoveryView) -> bool {
    &&& r.operations.dom().len() == 0
    &&& r.phases.dom().len() == 0
    &&& r.targets.dom().len() == 0
    &&& r.completion_history.dom().len() == 0
}

/// Whether some phase belongs to no operation.
pub open spec fn orphaned(s: StateView) -> bool {
    exists|id: u128| #[trigger]
        s.recovery.phases.dom().contains(id) && !s.recovery.operations.dom().contains(
            s.recovery.phases[id].operation_id,
        )
}

pub open spec fn operations_checked(s: StateView, forms: RecoveryFormsView) -> Result<(), Error> {
    first_refusal::every(
        s.recovery.operations,
        |key: u128, op: RecoveryRecord|
            record_forms::formed(forms.operations.get(key), operation_checked(s, key, op)),
    )
}

pub open spec fn phases_checked(s: StateView, forms: RecoveryFormsView) -> Result<(), Error> {
    first_refusal::every(
        s.recovery.phases,
        |key: u128, p: PhaseRecord|
            record_forms::formed(
                forms.phases.get(key),
                phase_checked(s, key, p, forms.inputs.get(key)),
            ),
    )
}

/// What a whole journal is held to.
#[verifier::opaque]
pub open spec fn journal(s: StateView, forms: RecoveryFormsView) -> Result<(), Error> {
    if is_empty(s.recovery) {
        Ok(())
    } else if !journal_rules::is_control(s) {
        Err(rules::no("application snapshot contains closed recovery authority"))
    } else if s.lifecycle is None {
        Err(rules::no("recovery history lacks its Control installation"))
    } else if s.recovery.targets.dom().len() != s.recovery.operations.dom().len() {
        Err(rules::no("recovery permanent target index count differs"))
    } else {
        match operations_checked(s, forms) {
            Err(e) => Err(e),
            Ok(()) => if orphaned(s) {
                Err(rules::no("recovery phase belongs to an absent operation"))
            } else {
                match phases_checked(s, forms) {
                    Err(e) => Err(e),
                    Ok(()) => histories(s),
                }
            },
        }
    }
}

// ---------------------------------------------------------------------
// A later journal
// ---------------------------------------------------------------------

#[verifier::opaque]
pub open spec fn identity_kept(old: RecoveryRecord, new: RecoveryRecord) -> bool {
    &&& new.request == old.request
    &&& new.original_principal == old.original_principal
    &&& new.created_revision == old.created_revision
    &&& new.updated_revision >= old.updated_revision
    &&& new.next_phase_sequence >= old.next_phase_sequence
    &&& old.stop_request is Some ==> new.stop_request == old.stop_request
}

/// Whether a reference that was set is still the same.
pub open spec fn kept(old: Option<u128>, new: Option<u128>) -> bool {
    old is Some ==> old == new
}

#[verifier::opaque]
pub open spec fn attempt_progress_kept(old: RecoveryRecord, new: RecoveryRecord) -> bool {
    &&& kept(old.completion_intent, new.completion_intent)
    &&& kept(old.completion_preparation_attempt, new.completion_preparation_attempt)
    &&& kept(old.completion_preparation, new.completion_preparation)
    &&& kept(old.completion_resolution_attempt, new.completion_resolution_attempt)
    &&& kept(old.completion_terminal, new.completion_terminal)
}

#[verifier::opaque]
pub open spec fn progress_kept(old: RecoveryRecord, new: RecoveryRecord, advanced: bool) -> bool {
    &&& kept(old.materialization_intent, new.materialization_intent)
    &&& advanced || attempt_progress_kept(old, new)
    &&& kept(old.issuer_preparation, new.issuer_preparation)
    &&& kept(old.initialization, new.initialization)
    &&& kept(old.completion, new.completion)
    &&& kept(old.retirement, new.retirement)
    &&& kept(old.source_fence, new.source_fence)
    &&& kept(old.activation, new.activation)
    &&& kept(old.route_publication, new.route_publication)
    &&& kept(old.target_stop, new.target_stop)
}

/// Whether a reference moved on along the phases, and did not go back.
#[verifier::opaque]
pub open spec fn moved_on(
    before: StateView,
    after: StateView,
    old: RecoveryRecord,
    new: RecoveryRecord,
    from: Option<u128>,
    to: Option<u128>,
    removed: &'static str,
    regressed: &'static str,
) -> Result<(), Error> {
    match from {
        None => Ok(()),
        Some(from) => match to {
            None => Err(rules::no(removed)),
            Some(to) => match rules::phase(after, new, to) {
                Err(e) => Err(e),
                Ok(later) => match rules::phase(before, old, from) {
                    Err(e) => Err(e),
                    Ok(earlier) => if later.sequence < earlier.sequence {
                        Err(rules::no(regressed))
                    } else {
                        Ok(())
                    },
                },
            },
        },
    }
}

/// Whether the archived attempt kept what its cursor had.
#[verifier::opaque]
pub open spec fn archive_kept(old: RecoveryRecord, archived: CompletionHistory) -> bool {
    &&& kept(old.completion_preparation_attempt, Some(archived.preparation_attempt))
    &&& kept(old.completion_preparation, Some(archived.preparation))
    &&& kept(old.completion_resolution_attempt, Some(archived.resolution_attempt))
    &&& kept(old.completion_terminal, Some(archived.terminal))
}

/// Whether the new cursor is on the chain that the archived attempt began.
#[verifier::opaque]
pub open spec fn continues(
    after: StateView,
    old: RecoveryRecord,
    new: RecoveryRecord,
    next: u128,
    archived: CompletionHistory,
) -> Result<(), Error> {
    let broken = rules::no("snapshot completion continuation is not the original sealed chain");
    if archived.operation_id != old.request.operation_id || Some(archived.scope) != rules::scope(
        old,
    ) {
        Err(broken)
    } else {
        match rules::phase(after, new, next) {
            Err(e) => Err(e),
            Ok(current) => match rules::phase(after, new, archived.successor_intent) {
                Err(e) => Err(e),
                Ok(successor) => if current.sequence < successor.sequence {
                    Err(broken)
                } else {
                    Ok(())
                },
            },
        }
    }
}

#[verifier::opaque]
pub open spec fn rotated(
    before: StateView,
    after: StateView,
    old: RecoveryRecord,
    new: RecoveryRecord,
    original: u128,
) -> Result<(), Error> {
    match new.completion_intent {
        None => Err(rules::no("snapshot removed current completion intent")),
        Some(next) => match after.recovery.completion_history.get(original) {
            None => Err(rules::no("snapshot replaced completion without its sealed history")),
            Some(archived) => match continues(after, old, new, next, archived) {
                Err(e) => Err(e),
                Ok(()) => if !archive_kept(old, archived) {
                    Err(rules::no("snapshot altered closed original completion progress"))
                } else {
                    moved_on(
                        before,
                        after,
                        old,
                        new,
                        old.completion_attempt,
                        archived.attempted_completion,
                        "snapshot erased original Complete dispatch",
                        "snapshot regressed archived original Complete dispatch",
                    )
                },
            },
        },
    }
}

/// Whether the cursor's scope is the one that its birth was committed with.
#[verifier::opaque]
pub open spec fn born_as_scoped(after: StateView, new: RecoveryRecord) -> Result<(), Error> {
    match new.completion_intent {
        None => Ok(()),
        Some(id) => match rules::phase(after, new, id) {
            Err(e) => Err(e),
            Ok(p) => if p.completion_scope != rules::scope(new) {
                Err(
                    rules::no("snapshot current completion scope differs from its committed birth"),
                )
            } else {
                Ok(())
            },
        },
    }
}

/// Whether the active cursor moved to a later attempt. It may only once the
/// earlier one is retained as it was sealed.
#[verifier::opaque]
pub open spec fn cursor_advanced(
    before: StateView,
    after: StateView,
    old: RecoveryRecord,
    new: RecoveryRecord,
) -> Result<bool, Error> {
    match born_as_scoped(after, new) {
        Err(e) => Err(e),
        Ok(()) => if old.completion_intent == new.completion_intent {
            if old.completion_predecessor != new.completion_predecessor {
                Err(rules::no("snapshot substituted original completion predecessor"))
            } else {
                Ok(false)
            }
        } else {
            match old.completion_intent {
                None => Ok(false),
                Some(original) => match rotated(before, after, old, new, original) {
                    Err(e) => Err(e),
                    Ok(()) => Ok(true),
                },
            }
        },
    }
}

/// Whether a voter moved on, and lost nothing.
#[verifier::opaque]
pub open spec fn voter_kept(
    before: StateView,
    after: StateView,
    old: Voter,
    new: Voters,
) -> Result<(), Error> {
    match rules::voter(new, old.node_id) {
        None => Err(rules::no("snapshot removed recovery voter")),
        Some(now) => match started_kept(before, after, old.started, now.started) {
            Err(e) => Err(e),
            Ok(()) => if kept(old.materialization, now.materialization) && kept(
                old.confirmation,
                now.confirmation,
            ) && kept(old.cleanup, now.cleanup) {
                Ok(())
            } else {
                Err(rules::no("snapshot substituted recovery voter progress"))
            },
        },
    }
}

#[verifier::opaque]
pub open spec fn started_kept(
    before: StateView,
    after: StateView,
    from: Option<u128>,
    to: Option<u128>,
) -> Result<(), Error> {
    match from {
        None => Ok(()),
        Some(from) => match to {
            None => Err(rules::no("snapshot removed target startup progress")),
            Some(to) => match before.recovery.phases.get(from) {
                None => Err(rules::no("old startup phase absent")),
                Some(earlier) => match after.recovery.phases.get(to) {
                    None => Err(rules::no("new startup phase absent")),
                    Some(later) => if later.sequence < earlier.sequence {
                        Err(rules::no("snapshot regressed target startup progress"))
                    } else {
                        Ok(())
                    },
                },
            },
        },
    }
}

#[verifier::opaque]
pub open spec fn voters_kept(before: StateView, after: StateView, old: Voters, new: Voters) -> Result<
    (),
    Error,
> {
    match voter_kept(before, after, old.first, new) {
        Err(e) => Err(e),
        Ok(()) => match voter_kept(before, after, old.second, new) {
            Err(e) => Err(e),
            Ok(()) => voter_kept(before, after, old.third, new),
        },
    }
}

/// Whether the attempts that were sent stand where they stood or behind.
#[verifier::opaque]
pub open spec fn attempts_kept(
    before: StateView,
    after: StateView,
    old: RecoveryRecord,
    new: RecoveryRecord,
    advanced: bool,
) -> Result<(), Error> {
    let completion = if advanced {
        Ok(())
    } else {
        moved_on(
            before,
            after,
            old,
            new,
            old.completion_attempt,
            new.completion_attempt,
            "snapshot removed original completion attempt",
            "snapshot regressed original completion attempt",
        )
    };
    match completion {
        Err(e) => Err(e),
        Ok(()) => moved_on(
            before,
            after,
            old,
            new,
            old.activation_attempt,
            new.activation_attempt,
            "snapshot removed original activation attempt",
            "snapshot regressed original activation attempt",
        ),
    }
}

#[verifier::opaque]
pub open spec fn head_kept(
    before: StateView,
    after: StateView,
    old: RecoveryRecord,
    new: RecoveryRecord,
) -> Result<(), Error> {
    if !identity_kept(old, new) {
        Err(rules::no("snapshot substituted recovery operation identity"))
    } else {
        match cursor_advanced(before, after, old, new) {
            Err(e) => Err(e),
            Ok(advanced) => match attempts_kept(before, after, old, new, advanced) {
                Err(e) => Err(e),
                Ok(()) => if !progress_kept(old, new, advanced) {
                    Err(rules::no("snapshot substituted immutable recovery progress"))
                } else {
                    voters_kept(before, after, old.voters, new.voters)
                },
            },
        }
    }
}

#[verifier::opaque]
pub open spec fn operation_kept(before: StateView, after: StateView, key: u128, old: RecoveryRecord) -> Result<
    (),
    Error,
> {
    match after.recovery.operations.get(key) {
        None => Err(rules::no("snapshot removed permanent recovery operation")),
        Some(new) => head_kept(before, after, old, new),
    }
}

/// Whether a phase is the same, up to an outcome that it did not have.
#[verifier::opaque]
pub open spec fn phase_same(old: PhaseRecord, new: PhaseRecord) -> bool {
    &&& old == (PhaseRecord {
        outcome: old.outcome,
        resolved_revision: old.resolved_revision,
        ..new
    })
    &&& old.outcome is Some ==> new.outcome == old.outcome
    &&& old.resolved_revision is Some ==> new.resolved_revision == old.resolved_revision
}

#[verifier::opaque]
pub open spec fn phase_kept(after: StateView, key: u128, old: PhaseRecord) -> Result<(), Error> {
    match after.recovery.phases.get(key) {
        None => Err(rules::no("snapshot removed permanent recovery phase")),
        Some(new) => if phase_same(old, new) {
            Ok(())
        } else {
            Err(rules::no("snapshot substituted permanent recovery phase input or outcome"))
        },
    }
}

#[verifier::opaque]
pub open spec fn target_kept(after: StateView, key: u128, operation: u128) -> Result<(), Error> {
    if after.recovery.targets.get(key) == Some(operation) {
        Ok(())
    } else {
        Err(rules::no("snapshot removed a permanent target recovery binding"))
    }
}

#[verifier::opaque]
pub open spec fn history_kept(after: StateView, key: u128, old: CompletionHistory) -> Result<(), Error> {
    if after.recovery.completion_history.get(key) == Some(old) {
        Ok(())
    } else {
        Err(rules::no("snapshot removed or changed immutable closed completion history"))
    }
}

pub open spec fn histories_kept(before: StateView, after: StateView) -> Result<(), Error> {
    first_refusal::every(
        before.recovery.completion_history,
        |key: u128, old: CompletionHistory| history_kept(after, key, old),
    )
}

pub open spec fn targets_kept(before: StateView, after: StateView) -> Result<(), Error> {
    first_refusal::every(
        before.recovery.targets,
        |key: u128, operation: u128| target_kept(after, key, operation),
    )
}

pub open spec fn operations_kept(before: StateView, after: StateView) -> Result<(), Error> {
    first_refusal::every(
        before.recovery.operations,
        |key: u128, old: RecoveryRecord| operation_kept(before, after, key, old),
    )
}

pub open spec fn phases_kept(before: StateView, after: StateView) -> Result<(), Error> {
    first_refusal::every(
        before.recovery.phases,
        |key: u128, old: PhaseRecord| phase_kept(after, key, old),
    )
}

/// Whether a later journal keeps all that is permanent in an earlier one.
#[verifier::opaque]
pub open spec fn successor(before: StateView, after: StateView) -> Result<(), Error> {
    match targets_kept(before, after) {
        Err(e) => Err(e),
        Ok(()) => match histories_kept(before, after) {
            Err(e) => Err(e),
            Ok(()) => match operations_kept(before, after) {
                Err(e) => Err(e),
                Ok(()) => phases_kept(before, after),
            },
        },
    }
}

} // verus!
