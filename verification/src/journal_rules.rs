//! What the recovery journal admits, and what its commands make of it.
use vstd::prelude::*;

use crate::activation_rules;
use crate::digest::Digest;
use crate::digest;
use crate::encoding;
use crate::encoding::{
    ACTIVATION, ATTEMPT_STATUS, COMPLETION, INSPECTION, QUORUM, RESOLUTION, RESUME, STOP_LOCAL,
    TERMINAL_STATUS,
};
use crate::errors;
use crate::errors::{Error, ErrorCode};
use crate::held::Held;
use crate::model::{
    ActivateCommand, AuthorityAction, AuthorityCommand, AuthorityOutcome, CompletionHistory,
    CompletionScope, Dispatch, DispatchOutcome, IntentRequest, LifecycleIntent, LifecyclePhase,
    MaterializationProof, PhaseRecord, QuorumInput, RecoveryAuthorization, RecoveryMutation,
    RecoveryPhase, RecoveryRecord, RecoveryStart, ReplicaInput, ResumeOrigin, RetireSourceRequest,
    RouteChange, SignedActivation, SignedCleanup, SignedReceipt, SourceMode, StopReference,
    TargetOutcome, TargetRequest, TargetResponse, TargetStep, Voter, Voters,
};
use crate::receiver_rules;
use crate::rules;
use crate::views::{RecoveryView, StateView};

verus! {

/// What the Control tenant is called.
pub open spec fn is_control(s: StateView) -> bool {
    s.tenant == digest::name_of("__kasumi_control"@)
}

/// Whether a command's authority still holds where it is applied, and its request is
/// of the form of one.
#[verifier::opaque]
pub open spec fn authorized(s: StateView, a: RecoveryAuthorization) -> Result<(), Error> {
    if !is_control(s) || a.tenant != s.tenant {
        Err(
            errors::refusal(
                ErrorCode::Forbidden,
                "recovery requires installed Control authority",
            ),
        )
    } else if a.control_refusal is Some {
        Err(a.control_refusal->0)
    } else if a.admin_refusal is Some {
        Err(a.admin_refusal->0)
    } else {
        match s.lifecycle {
            None => Err(rules::no("recovery needs installed lifecycle Control")),
            Some(control) => if control.retired || control.pending_change is Some || s.retired
                || s.suspended || a.policy_epoch != s.policy_epoch || a.admitted_at_ms
                >= a.expires_at_ms || a.credential_expires_at_ms != Some(a.expires_at_ms) {
                Err(
                    errors::refusal(
                        ErrorCode::Unauthorized,
                        "recovery admission authority or original deadline differs",
                    ),
                )
            } else if a.request_refusal is Some {
                Err(a.request_refusal->0)
            } else {
                Ok(())
            },
        }
    }
}

// ---------------------------------------------------------------------
// Inputs
// ---------------------------------------------------------------------

/// The issuer's stop of the target, as cleanup refers to it.
#[verifier::opaque]
pub open spec fn stop_reference(s: StateView, op: RecoveryRecord) -> Result<StopReference, Error> {
    match rules::phase_of(s, op, op.target_stop, "permanent issuer target stop absent") {
        Err(e) => Err(e),
        Ok(p) => match p.outcome {
            Some(DispatchOutcome::Authority(signed)) => if signed@.receipt.outcome is TargetStopped {
                Ok(
                    StopReference {
                        tenant: op.request.tenant,
                        command_id: signed@.receipt.command.command_id,
                        receipt_digest: signed@.receipt.sha256,
                    },
                )
            } else {
                Err(rules::no("issuer did not stop the target"))
            },
            _ => Err(rules::no("issuer target stop outcome absent")),
        },
    }
}

/// What the completion attempt's own intents commit to.
#[verifier::opaque]
pub open spec fn attempt_phase_input(
    s: StateView,
    op: RecoveryRecord,
    phase: LifecyclePhase,
    admission: bool,
) -> Result<Digest, Error> {
    match phase {
        LifecyclePhase::Complete => match if admission {
            rules::next_input(s, op)
        } else {
            rules::completion_input(s, op)
        } {
            Err(e) => Err(e),
            Ok(input) => Ok(encoding::labelled(COMPLETION, input)),
        },
        LifecyclePhase::InspectCompletionAttempt => match rules::status_input(s, op) {
            Err(e) => Err(e),
            Ok(input) => Ok(encoding::labelled(ATTEMPT_STATUS, input)),
        },
        LifecyclePhase::ResolveComplete => match rules::resolution_input(s, op) {
            Err(e) => Err(e),
            Ok(input) => Ok(encoding::labelled(RESOLUTION, input)),
        },
        LifecyclePhase::InspectCompletionResolution => match rules::terminal_status_input(s, op) {
            Err(e) => Err(e),
            Ok(input) => Ok(encoding::labelled(TERMINAL_STATUS, input)),
        },
        _ => match receiver_rules::inspection_input(s, op) {
            Err(e) => Err(e),
            Ok(input) => Ok(encoding::labelled(INSPECTION, input)),
        },
    }
}

/// What an intent of the phase commits to, and the origin that it resumes.
#[verifier::opaque]
pub open spec fn phase_input(
    s: StateView,
    op: RecoveryRecord,
    phase: LifecyclePhase,
    admission: bool,
) -> Result<(Digest, Option<ResumeOrigin>), Error> {
    match phase {
        LifecyclePhase::Materialize => Ok((op.request.materialization.sha256, None)),
        LifecyclePhase::ResumeMaterialize => match rules::origin(s, op) {
            Err(e) => Err(e),
            Ok(o) => Ok((encoding::labelled(RESUME, o), Some(rules::summary(o)))),
        },
        LifecyclePhase::Initialize => match rules::quorum_input(s, op) {
            Err(e) => Err(e),
            Ok(input) => Ok((encoding::labelled(QUORUM, input), None)),
        },
        LifecyclePhase::MaintainTarget => Err(
            rules::no("target terminal coordinator phase is not installed"),
        ),
        LifecyclePhase::Activate => match activation_rules::activation_input(s, op) {
            Err(e) => Err(e),
            Ok(input) => Ok((encoding::labelled(ACTIVATION, input), None)),
        },
        LifecyclePhase::StopLocal => match stop_reference(s, op) {
            Err(e) => Err(e),
            Ok(reference) => Ok((encoding::labelled(STOP_LOCAL, reference), None)),
        },
        _ => match attempt_phase_input(s, op, phase, admission) {
            Err(e) => Err(e),
            Ok(input) => Ok((input, None)),
        },
    }
}

/// The only intent that the operation's phase may ask Control to commit.
#[verifier::opaque]
pub open spec fn expected_intent(
    s: StateView,
    op: RecoveryRecord,
    id: u128,
    epoch: u64,
    phase: LifecyclePhase,
    admission: bool,
) -> Result<IntentRequest, Error> {
    match phase_input(s, op, phase, admission) {
        Err(e) => Err(e),
        Ok((phase_input_sha256, resume_origin)) => Ok(
            IntentRequest {
                command_id: id,
                expected_policy_epoch: epoch,
                installation_sha256: op.request.installation_sha256,
                authority_partition: op.request.authority_partition,
                tenant: op.request.tenant,
                source_incarnation: op.request.source_incarnation,
                source_authority_epoch: op.request.source_authority_epoch,
                target_incarnation: op.request.target_incarnation,
                checkpoint: op.request.checkpoint,
                target_nodes: op.request.target_nodes,
                phase,
                phase_input_sha256,
                resume_origin,
            },
        ),
    }
}

/// What the issuer is asked for in the operation's phase.
#[verifier::opaque]
pub open spec fn expected_action(s: StateView, op: RecoveryRecord) -> Result<AuthorityAction, Error> {
    match op.phase {
        RecoveryPhase::Activate => activation_rules::current_action(s, op),
        RecoveryPhase::StopActivation => activation_rules::stop_action(s, op),
        _ => activation_rules::issuer_action(op, op.phase),
    }
}

/// An activation ends no later than the intent's credential.
#[verifier::opaque]
pub open spec fn within_activation_intent(s: StateView, op: RecoveryRecord, not_after_ms: u64) -> Result<
    (),
    Error,
> {
    if op.phase != RecoveryPhase::Activate {
        Ok(())
    } else {
        match rules::intent_of(s, op, op.current_intent, "activation intent absent") {
            Err(e) => Err(e),
            Ok(current) => if not_after_ms > current.original_credential_expires_at_ms {
                Err(
                    rules::no(
                        "recovery issuer command differs from frozen input or original deadline",
                    ),
                )
            } else {
                Ok(())
            },
        }
    }
}

#[verifier::opaque]
pub open spec fn negative_before(s: StateView, op: RecoveryRecord) -> Result<(), Error> {
    if op.phase == RecoveryPhase::Activate || op.phase == RecoveryPhase::StopTarget {
        activation_rules::require_negative_attempt(s, op)
    } else {
        Ok(())
    }
}

/// Whether the issuer command is the phase's own, within its deadline.
#[verifier::opaque]
pub open spec fn authority_input(
    s: StateView,
    op: RecoveryRecord,
    id: u128,
    command: AuthorityCommand,
    a: RecoveryAuthorization,
) -> Result<(), Error> {
    let differs = rules::no(
        "recovery issuer command differs from frozen input or original deadline",
    );
    match negative_before(s, op) {
        Err(e) => Err(e),
        Ok(()) => match expected_action(s, op) {
            Err(e) => Err(e),
            Ok(action) => if command.tenant != op.request.tenant || command.command_id != id
                || command.expected_policy_epoch != op.request.authority_policy_epoch
                || command.not_after_ms > a.expires_at_ms {
                Err(differs)
            } else if a.admitted_at_ms + op.request.phase_timeout_ms > u64::MAX {
                Err(rules::no("phase deadline overflow"))
            } else if command.not_after_ms > a.admitted_at_ms + op.request.phase_timeout_ms
                || command.not_after_ms <= a.admitted_at_ms || command.action != action {
                Err(differs)
            } else {
                within_activation_intent(s, op, command.not_after_ms)
            },
        },
    }
}

/// The Control phase that the operation may ask for next.
#[verifier::opaque]
pub open spec fn next_control_phase(s: StateView, op: RecoveryRecord) -> Result<LifecyclePhase, Error> {
    match op.phase {
        RecoveryPhase::Activate => Ok(LifecyclePhase::Activate),
        RecoveryPhase::Confirm => Ok(LifecyclePhase::Activate),
        RecoveryPhase::Initialize => Ok(LifecyclePhase::Initialize),
        RecoveryPhase::Complete => if op.completion_intent is Some {
            rules::fresh_phase(s, op)
        } else {
            Ok(LifecyclePhase::Complete)
        },
        RecoveryPhase::Cleanup => Ok(LifecyclePhase::StopLocal),
        _ => if op.materialization_intent is None {
            Ok(LifecyclePhase::Materialize)
        } else {
            Ok(LifecyclePhase::ResumeMaterialize)
        },
    }
}

/// Whether the pending target dispatch has ended.
#[verifier::opaque]
pub open spec fn expired_pending(s: StateView, op: RecoveryRecord, now: u64) -> bool {
    match op.pending_phase {
        None => false,
        Some(id) => match rules::phase(s, op, id) {
            Err(_) => false,
            Ok(p) => match p.input {
                Dispatch::Target { node_id, request } => now >= request@.not_after_ms,
                _ => false,
            },
        },
    }
}

/// A fresh phase waits until the current one has ended.
#[verifier::opaque]
pub open spec fn current_ended(
    s: StateView,
    op: RecoveryRecord,
    now: u64,
    absent: &'static str,
    live: &'static str,
) -> Result<(), Error> {
    match rules::intent_of(s, op, op.current_intent, absent) {
        Err(e) => Err(e),
        Ok(current) => if now < current.original_credential_expires_at_ms && !expired_pending(
            s,
            op,
            now,
        ) {
            Err(rules::no(live))
        } else {
            Ok(())
        },
    }
}

#[verifier::opaque]
pub open spec fn fresh_enough(s: StateView, op: RecoveryRecord, phase: LifecyclePhase, now: u64) -> Result<
    (),
    Error,
> {
    if op.phase == RecoveryPhase::Complete && phase != LifecyclePhase::Complete {
        current_ended(
            s,
            op,
            now,
            "current completion phase absent",
            "resolve the live original completion phase before fresh inspection",
        )
    } else if phase == LifecyclePhase::ResumeMaterialize {
        current_ended(
            s,
            op,
            now,
            "current materialization phase absent",
            "resolve the original live materialization before a fresh phase",
        )
    } else {
        Ok(())
    }
}

#[verifier::opaque]
pub open spec fn control_input(
    s: StateView,
    op: RecoveryRecord,
    id: u128,
    request: IntentRequest,
    a: RecoveryAuthorization,
) -> Result<(), Error> {
    match next_control_phase(s, op) {
        Err(e) => Err(e),
        Ok(phase) => match fresh_enough(s, op, phase, a.admitted_at_ms) {
            Err(e) => Err(e),
            Ok(()) => match expected_intent(s, op, id, a.policy_epoch, phase, true) {
                Err(e) => Err(e),
                Ok(expected) => if request != expected {
                    Err(rules::no("recovery Control phase differs from its exact frozen origin"))
                } else {
                    Ok(())
                },
            },
        },
    }
}

/// Whether a resumed materialization goes back to the very origin.
#[verifier::opaque]
pub open spec fn resumes(
    s: StateView,
    op: RecoveryRecord,
    current: LifecycleIntent,
    retained: crate::model::TargetOrigin,
    message: &'static str,
) -> Result<(), Error> {
    if current.request.phase != LifecyclePhase::ResumeMaterialize || current.request.resume_origin
        != Some(rules::summary(retained)) {
        Err(rules::no(message))
    } else {
        match rules::origin(s, op) {
            Err(e) => Err(e),
            Ok(o) => if retained != o {
                Err(rules::no(message))
            } else {
                Ok(())
            },
        }
    }
}

/// Whether a cleanup refers to the issuer's own stop.
#[verifier::opaque]
pub open spec fn stops(
    s: StateView,
    op: RecoveryRecord,
    current: LifecycleIntent,
    reference: StopReference,
    message: &'static str,
) -> Result<(), Error> {
    if current.request.phase != LifecyclePhase::StopLocal {
        Err(rules::no(message))
    } else {
        match stop_reference(s, op) {
            Err(e) => Err(e),
            Ok(expected) => if reference != expected {
                Err(rules::no(message))
            } else {
                Ok(())
            },
        }
    }
}

#[verifier::opaque]
pub open spec fn materialize_step(
    s: StateView,
    op: RecoveryRecord,
    current: LifecycleIntent,
    step: TargetStep,
    changed: &'static str,
    resumed: &'static str,
    outside: &'static str,
) -> Result<(), Error> {
    match step {
        TargetStep::Materialize(input) => if input != op.request.materialization {
            Err(rules::no(changed))
        } else {
            Ok(())
        },
        TargetStep::ResumeMaterialization(retained) => resumes(s, op, current, retained@, resumed),
        _ => Err(rules::no(outside)),
    }
}

#[verifier::opaque]
pub open spec fn cleanup_step(
    s: StateView,
    op: RecoveryRecord,
    current: LifecycleIntent,
    step: TargetStep,
    stopped: &'static str,
    outside: &'static str,
) -> Result<(), Error> {
    match step {
        TargetStep::Stop(reference) => stops(s, op, current, reference, stopped),
        _ => Err(rules::no(outside)),
    }
}

/// What a step of the Complete phase is held to.
#[verifier::opaque]
pub open spec fn complete_step(
    s: StateView,
    op: RecoveryRecord,
    current: LifecycleIntent,
    node: u64,
    request: TargetRequest,
    admission: bool,
) -> Result<(), Error> {
    if receiver_rules::is_step(request.step) {
        receiver_rules::step(s, op, current, node, request, admission)
    } else if receiver_rules::is_inspection(request.step) {
        receiver_rules::inspection_step(s, op, current, node, request.step, admission)
    } else {
        match receiver_rules::quorum_step(
            s,
            op,
            current,
            node,
            request.step,
            RecoveryPhase::Complete,
            admission,
        ) {
            Err(e) => Err(e),
            Ok(()) => if request.step is Complete {
                receiver_rules::complete_dispatch(s, op, request)
            } else {
                Ok(())
            },
        }
    }
}

/// What a target step is held to when it is admitted in the operation's phase.
#[verifier::opaque]
pub open spec fn admitted_target_step(
    s: StateView,
    op: RecoveryRecord,
    v: Voter,
    current: LifecycleIntent,
    node: u64,
    request: TargetRequest,
) -> Result<(), Error> {
    let outside = "native target step is outside the current recovery phase";
    match op.phase {
        RecoveryPhase::Confirm => activation_rules::step(s, op, current, node, request.step, true),
        RecoveryPhase::Complete => complete_step(s, op, current, node, request, true),
        RecoveryPhase::Initialize => receiver_rules::quorum_step(
            s,
            op,
            current,
            node,
            request.step,
            RecoveryPhase::Initialize,
            true,
        ),
        RecoveryPhase::Materialize => if v.materialization is Some {
            Err(rules::no(outside))
        } else {
            materialize_step(
                s,
                op,
                current,
                request.step,
                "target materialization input changed",
                "target readmission origin changed",
                outside,
            )
        },
        _ => if v.cleanup is Some {
            Err(rules::no(outside))
        } else {
            cleanup_step(s, op, current, request.step, "target cleanup stop changed", outside)
        },
    }
}

/// Whether a target request ends within its admission and its intent.
#[verifier::opaque]
pub open spec fn target_deadline(
    op: RecoveryRecord,
    current: LifecycleIntent,
    request: TargetRequest,
    a: RecoveryAuthorization,
) -> Result<(), Error> {
    let differs = rules::no("native target dispatch differs from current original phase");
    if request.not_after_ms <= a.admitted_at_ms || request.not_after_ms > a.expires_at_ms {
        Err(differs)
    } else if a.admitted_at_ms + op.request.phase_timeout_ms > u64::MAX {
        Err(rules::no("phase deadline overflow"))
    } else if request.not_after_ms > a.admitted_at_ms + op.request.phase_timeout_ms
        || request.not_after_ms > current.original_credential_expires_at_ms || a.admitted_at_ms
        >= current.original_credential_expires_at_ms || request.command_id
        != current.request.command_id || request.tenant != op.request.tenant {
        Err(differs)
    } else {
        Ok(())
    }
}

#[verifier::opaque]
pub open spec fn target_input(
    s: StateView,
    op: RecoveryRecord,
    node: u64,
    request: TargetRequest,
    a: RecoveryAuthorization,
) -> Result<(), Error> {
    match rules::voter(op.voters, node) {
        None => Err(rules::no("target is outside the exact recovery voters")),
        Some(v) => match rules::intent_of(
            s,
            op,
            op.current_intent,
            "native target needs a committed Control phase",
        ) {
            Err(e) => Err(e),
            Ok(current) => match target_deadline(op, current, request, a) {
                Err(e) => Err(e),
                Ok(()) => admitted_target_step(s, op, v, current, node, request),
            },
        },
    }
}

#[verifier::opaque]
pub open spec fn publication_input(s: StateView, op: RecoveryRecord, input: RouteChange) -> Result<
    (),
    Error,
> {
    match activation_rules::route_input(op, input) {
        Err(e) => Err(e),
        Ok(()) => match activation_rules::next_route(s, op) {
            Err(e) => Err(e),
            Ok(expected) => if input != expected {
                Err(rules::no("route publication compare-and-set input changed"))
            } else {
                Ok(())
            },
        },
    }
}

#[verifier::opaque]
pub open spec fn retirement_input(
    op: RecoveryRecord,
    request: RetireSourceRequest,
    a: RecoveryAuthorization,
) -> Result<(), Error> {
    let differs = rules::no("planned retirement input or original phase deadline differs");
    match activation_rules::retirement_request(op) {
        Err(e) => Err(e),
        Ok(expected) => if request != expected || request.not_after_ms <= a.admitted_at_ms
            || request.not_after_ms > a.expires_at_ms {
            Err(differs)
        } else if a.admitted_at_ms + op.request.phase_timeout_ms > u64::MAX {
            Err(rules::no("retirement phase deadline overflow"))
        } else if request.not_after_ms > a.admitted_at_ms + op.request.phase_timeout_ms {
            Err(differs)
        } else {
            Ok(())
        },
    }
}

/// The phases in which the issuer is asked.
pub open spec fn issuer_phase(phase: RecoveryPhase) -> bool {
    phase == RecoveryPhase::Prepare || phase == RecoveryPhase::StopTarget || phase
        == RecoveryPhase::FenceSource || phase == RecoveryPhase::Activate || phase
        == RecoveryPhase::StopActivation
}

/// The phases in which Control is asked.
pub open spec fn control_phase(phase: RecoveryPhase) -> bool {
    phase == RecoveryPhase::Activate || target_phase(phase)
}

/// The phases in which a target replica is asked.
pub open spec fn target_phase(phase: RecoveryPhase) -> bool {
    phase == RecoveryPhase::Materialize || phase == RecoveryPhase::Cleanup || phase
        == RecoveryPhase::Initialize || phase == RecoveryPhase::Complete || phase
        == RecoveryPhase::Confirm
}

/// Whether the operation's phase admits the dispatch.
#[verifier::opaque]
pub open spec fn input_admitted(
    s: StateView,
    op: RecoveryRecord,
    id: u128,
    input: Dispatch,
    a: RecoveryAuthorization,
) -> Result<(), Error> {
    let outside = rules::no("coordinator phase dispatch is not installed");
    if a.input_bytes > a.max_record_bytes / 2 {
        Err(errors::refusal(ErrorCode::ResourceExhausted, "recovery phase input work limit"))
    } else {
        match input {
            Dispatch::Authority(command) => if issuer_phase(op.phase) {
                authority_input(s, op, id, command@, a)
            } else {
                Err(outside)
            },
            Dispatch::ControlIntent(request) => if control_phase(op.phase) {
                control_input(s, op, id, request@, a)
            } else {
                Err(outside)
            },
            Dispatch::Target { node_id, request } => if target_phase(op.phase) {
                target_input(s, op, node_id, request@, a)
            } else {
                Err(outside)
            },
            Dispatch::PublishRoute(input) => if op.phase == RecoveryPhase::Publish {
                publication_input(s, op, input)
            } else {
                Err(outside)
            },
            Dispatch::RetireSource(request) => if op.phase == RecoveryPhase::RetireSource {
                retirement_input(op, request, a)
            } else {
                Err(outside)
            },
        }
    }
}

// ---------------------------------------------------------------------
// Outcomes
// ---------------------------------------------------------------------

/// Whether the issuer did what a preparation, a stop or a fence asked for.
#[verifier::opaque]
pub open spec fn issuer_effect(
    op: RecoveryRecord,
    action: AuthorityAction,
    outcome: AuthorityOutcome,
) -> bool {
    match action {
        AuthorityAction::PrepareTarget { source_incarnation, source_epoch, target } => match outcome {
            AuthorityOutcome::TargetPrepared { target: actual, authority_epoch } => target == actual
                && Some(authority_epoch) == activation_rules::next_epoch(op),
            _ => false,
        },
        AuthorityAction::StopTarget { source_incarnation, source_epoch, target } => outcome
            == (AuthorityOutcome::TargetStopped { source_incarnation, source_epoch, target }),
        AuthorityAction::Fence { incarnation, authority_epoch } => outcome
            == (AuthorityOutcome::Fenced { incarnation, authority_epoch }),
        _ => false,
    }
}

/// What an answer that was not refused is held to.
#[verifier::opaque]
pub open spec fn issuer_answer(
    s: StateView,
    op: RecoveryRecord,
    expected: AuthorityCommand,
    signed: SignedReceipt,
) -> Result<(), Error> {
    match expected.action {
        AuthorityAction::ActivateCommitted(activation) => activation_rules::original_answer(
            s,
            op,
            ActivateCommand {
                tenant: expected.tenant,
                command_id: expected.command_id,
                expected_policy_epoch: expected.expected_policy_epoch,
                not_after_ms: expected.not_after_ms,
                activation: activation@,
            },
            signed.receipt,
        ),
        AuthorityAction::StopActivation { original } => activation_rules::resolution(
            s,
            op,
            activation_rules::command_of(original@),
            signed,
        ),
        _ => if signed.receipt.admitted_at_ms >= expected.not_after_ms {
            Err(rules::no("issuer effect exceeds original phase deadline"))
        } else if issuer_effect(op, expected.action, signed.receipt.outcome) {
            Ok(())
        } else {
            Err(rules::no("issuer returned another recovery outcome"))
        },
    }
}

#[verifier::opaque]
pub open spec fn authority_outcome(
    s: StateView,
    op: RecoveryRecord,
    expected: AuthorityCommand,
    signed: SignedReceipt,
) -> Result<(), Error> {
    match rules::partition(s, op) {
        Err(e) => Err(e),
        Ok(issuer) => if !signed.authentic {
            Err(errors::refusal(ErrorCode::Forbidden, "invalid signed recovery issuer outcome"))
        } else {
            match activation_rules::receipt_identity(issuer, expected, signed.receipt) {
                Err(e) => Err(e),
                Ok(()) => if signed.receipt.outcome is Rejected {
                    Ok(())
                } else {
                    issuer_answer(s, op, expected, signed)
                },
            }
        },
    }
}

/// Whether a later stop resolved the activation command.
#[verifier::opaque]
pub open spec fn authority_resolution(
    s: StateView,
    op: RecoveryRecord,
    prepared: PhaseRecord,
    expected: AuthorityCommand,
    signed: SignedReceipt,
) -> Result<(), Error> {
    match activation_rules::resolution(s, op, expected, signed) {
        Err(e) => Err(e),
        Ok(()) => match rules::phase(s, op, signed.receipt.command.command_id) {
            Err(e) => Err(e),
            Ok(stop) => if stop.sequence <= prepared.sequence || stop.input != Dispatch::Authority(
                Held::of(signed.receipt.command),
            ) {
                Err(rules::no("activation resolution lacks its permanent ordered stop phase"))
            } else {
                Ok(())
            },
        },
    }
}

#[verifier::opaque]
pub open spec fn control_outcome(
    s: StateView,
    op: RecoveryRecord,
    prepared: PhaseRecord,
    request: IntentRequest,
    actual: LifecycleIntent,
) -> Result<(), Error> {
    let differs = rules::no("Control outcome is not the exact replicated phase commitment");
    if actual.request != request || rules::retained_intent(s, request.command_id) != Some(actual) {
        Err(differs)
    } else {
        match rules::dispatch_limit(op, prepared) {
            Err(e) => Err(e),
            Ok(limit) => if actual.original_credential_expires_at_ms > limit
                || actual.accepted_at_ms < prepared.admitted_at_ms || actual.revision
                < prepared.prepared_revision {
                Err(differs)
            } else {
                Ok(())
            },
        }
    }
}

#[verifier::opaque]
pub open spec fn materialized_outcome(
    s: StateView,
    op: RecoveryRecord,
    node: u64,
    outcome: TargetOutcome,
) -> Result<(), Error> {
    match rules::materialized_by(outcome) {
        None => Err(rules::no("target acknowledgement operation differs")),
        Some(proof) => match rules::origin(s, op) {
            Err(e) => Err(e),
            Ok(o) => if rules::materialization_holds(o, node, proof) {
                Ok(())
            } else {
                Err(
                    errors::refusal(
                        ErrorCode::Forbidden,
                        "target materialization signature or immutable origin differs",
                    ),
                )
            },
        },
    }
}

/// Whether a start or an initialization was of the very quorum.
#[verifier::opaque]
pub open spec fn quorum_outcome(
    s: StateView,
    op: RecoveryRecord,
    input: QuorumInput,
    acknowledged: Option<Digest>,
) -> Result<(), Error> {
    match acknowledged {
        None => Err(rules::no("target acknowledgement operation differs")),
        Some(origin_sha256) => if origin_sha256 != input.origin_sha256 {
            Err(rules::no("native target startup origin differs"))
        } else {
            match rules::quorum_input(s, op) {
                Err(e) => Err(e),
                Ok(expected) => if input != expected {
                    Err(rules::no("native target startup origin differs"))
                } else {
                    Ok(())
                },
            }
        },
    }
}

#[verifier::opaque]
pub open spec fn completion_start_outcome(
    s: StateView,
    op: RecoveryRecord,
    input: crate::model::CompletionInput,
    acknowledged: Option<Digest>,
) -> Result<(), Error> {
    match acknowledged {
        None => Err(rules::no("target acknowledgement operation differs")),
        Some(origin_sha256) => match rules::completion_input(s, op) {
            Err(e) => Err(e),
            Ok(expected) => if input != expected || origin_sha256 != input.quorum.origin_sha256 {
                Err(rules::no("completion startup origin differs"))
            } else {
                Ok(())
            },
        },
    }
}

#[verifier::opaque]
pub open spec fn inspection_start_outcome(
    s: StateView,
    op: RecoveryRecord,
    input: crate::model::InspectionInput,
    acknowledged: Option<Digest>,
) -> Result<(), Error> {
    match acknowledged {
        None => Err(rules::no("target acknowledgement operation differs")),
        Some(origin_sha256) => match receiver_rules::inspection_input(s, op) {
            Err(e) => Err(e),
            Ok(expected) => if input != expected || origin_sha256 != input.quorum.origin_sha256 {
                Err(rules::no("inspection startup origin differs"))
            } else {
                Ok(())
            },
        },
    }
}

#[verifier::opaque]
pub open spec fn start_outcome(
    s: StateView,
    op: RecoveryRecord,
    input: ReplicaInput,
    outcome: TargetOutcome,
) -> Result<(), Error> {
    match input {
        ReplicaInput::Quorum(input) => quorum_outcome(s, op, input@, rules::started_by(outcome)),
        ReplicaInput::Completion(input) => completion_start_outcome(
            s,
            op,
            input@,
            rules::started_by(outcome),
        ),
        ReplicaInput::Inspection(input) => inspection_start_outcome(
            s,
            op,
            input@,
            rules::started_by(outcome),
        ),
        _ => Err(rules::no("target acknowledgement operation differs")),
    }
}

#[verifier::opaque]
pub open spec fn inspected_outcome(
    s: StateView,
    op: RecoveryRecord,
    current: LifecycleIntent,
    node: u64,
    input: crate::model::InspectionInput,
    outcome: TargetOutcome,
) -> Result<(), Error> {
    match rules::inspected_by(outcome) {
        None => Err(rules::no("target acknowledgement operation differs")),
        Some(signed) => match receiver_rules::inspection_input(s, op) {
            Err(e) => Err(e),
            Ok(expected) => if input != expected {
                Err(rules::no("inspection acknowledgement input differs"))
            } else {
                receiver_rules::inspection_proof(s, op, current, node, signed)
            },
        },
    }
}

#[verifier::opaque]
pub open spec fn completed_outcome(
    s: StateView,
    op: RecoveryRecord,
    current: LifecycleIntent,
    node: u64,
    not_after_ms: u64,
    input: crate::model::CompletionInput,
    outcome: TargetOutcome,
) -> Result<(), Error> {
    let differs = rules::no("target completion differs from exact retained phase or voter");
    match rules::completed_by(outcome) {
        None => Err(rules::no("target acknowledgement operation differs")),
        Some(signed) => if signed.fact.completion_intent != current || signed.fact.admitted_at_ms
            >= not_after_ms || signed.observer_node_id != node {
            Err(differs)
        } else {
            match rules::completion_input(s, op) {
                Err(e) => Err(e),
                Ok(expected) => if input != expected || signed.fact.predecessor
                    != input.predecessor {
                    Err(differs)
                } else {
                    match rules::origin(s, op) {
                        Err(e) => Err(e),
                        Ok(_) => if !signed.authentic {
                            Err(
                                errors::refusal(
                                    ErrorCode::Forbidden,
                                    "target completion signature or quorum differs",
                                ),
                            )
                        } else {
                            Ok(())
                        },
                    }
                },
            }
        },
    }
}

/// Whether an activation was the committed one, and repeats `expected` if that
/// is given.
#[verifier::opaque]
pub open spec fn activated_outcome(
    s: StateView,
    op: RecoveryRecord,
    node: u64,
    expected: Option<SignedActivation>,
    outcome: TargetOutcome,
) -> Result<(), Error> {
    match rules::activated_by(outcome) {
        None => Err(rules::no("target acknowledgement operation differs")),
        Some(signed) => match activation_rules::local_activation(s, op, node, signed, true) {
            Err(e) => Err(e),
            Ok(()) => match expected {
                None => Ok(()),
                Some(expected) => if activation_rules::same_activation(signed, expected) {
                    Ok(())
                } else {
                    Err(rules::no("target confirmation changed exact committed activation"))
                },
            },
        },
    }
}

/// Whether a node's cleanup is of the issuer's stop, under the current intent.
pub open spec fn cleanup_holds(
    current: LifecycleIntent,
    node: u64,
    reference: StopReference,
    signed: SignedCleanup,
) -> bool {
    signed.authentic && signed.node_id == node && signed.reference == reference && signed.intent
        == current
}

#[verifier::opaque]
pub open spec fn stopped_outcome(
    s: StateView,
    op: RecoveryRecord,
    current: LifecycleIntent,
    node: u64,
    reference: StopReference,
    outcome: TargetOutcome,
) -> Result<(), Error> {
    match rules::stopped_by(outcome) {
        None => Err(rules::no("target acknowledgement operation differs")),
        Some(signed) => match rules::partition(s, op) {
            Err(e) => Err(e),
            Ok(_) => if cleanup_holds(current, node, reference, signed) {
                Ok(())
            } else {
                Err(
                    errors::refusal(
                        ErrorCode::Forbidden,
                        "target cleanup lacks exact issuer drain and physical cleanup evidence",
                    ),
                )
            },
        },
    }
}

/// Whether the acknowledgement is of the step.
#[verifier::opaque]
pub open spec fn step_outcome(
    s: StateView,
    op: RecoveryRecord,
    current: LifecycleIntent,
    node: u64,
    request: TargetRequest,
    outcome: TargetOutcome,
) -> Result<(), Error> {
    match request.step {
        TargetStep::Materialize(_) => materialized_outcome(s, op, node, outcome),
        TargetStep::ResumeMaterialization(_) => materialized_outcome(s, op, node, outcome),
        TargetStep::Start(input) => start_outcome(s, op, input, outcome),
        TargetStep::StartActivation { quorum, issuer_command_id } => quorum_outcome(
            s,
            op,
            quorum@,
            rules::started_by(outcome),
        ),
        TargetStep::Initialize(input) => quorum_outcome(
            s,
            op,
            input@,
            rules::initialized_by(outcome),
        ),
        TargetStep::Inspect(input) => inspected_outcome(s, op, current, node, input@, outcome),
        TargetStep::Complete(input) => completed_outcome(
            s,
            op,
            current,
            node,
            request.not_after_ms,
            input@,
            outcome,
        ),
        TargetStep::Activate { quorum, issuer_command_id } => activated_outcome(
            s,
            op,
            node,
            None,
            outcome,
        ),
        TargetStep::ConfirmActivation(expected) => activated_outcome(
            s,
            op,
            node,
            Some(expected@),
            outcome,
        ),
        TargetStep::Stop(reference) => stopped_outcome(s, op, current, node, reference, outcome),
        _ => Err(rules::no("target acknowledgement operation differs")),
    }
}

#[verifier::opaque]
pub open spec fn target_outcome(
    s: StateView,
    op: RecoveryRecord,
    prepared: PhaseRecord,
    node: u64,
    request: TargetRequest,
    response: TargetResponse,
) -> Result<(), Error> {
    if response.command_id != request.command_id || response.node_id != node {
        Err(rules::no("target acknowledgement route differs"))
    } else {
        match rules::retained_intent(s, request.command_id) {
            None => Err(rules::no("target acknowledgement Control phase absent")),
            Some(current) => if prepared.phase == RecoveryPhase::Complete
                && receiver_rules::is_step(request.step) {
                receiver_rules::outcome(s, op, prepared, response)
            } else {
                step_outcome(s, op, current, node, request, response.outcome)
            },
        }
    }
}

/// Whether a superseded publication was followed by its replacement.
#[verifier::opaque]
pub open spec fn superseded_by(
    s: StateView,
    op: RecoveryRecord,
    prepared: PhaseRecord,
    replacement_phase: u128,
) -> Result<(), Error> {
    let lacks = rules::no("local publication supersession lacks its exact fresh phase");
    match rules::phase(s, op, replacement_phase) {
        Err(e) => Err(e),
        Ok(replacement) => if replacement.previous_phase != Some(prepared.phase_id) || Some(
            replacement.prepared_revision,
        ) != prepared.resolved_revision {
            Err(lacks)
        } else {
            match rules::dispatch_limit(op, prepared) {
                Err(e) => Err(e),
                Ok(limit) => if replacement.admitted_at_ms < limit || replacement.input
                    !is PublishRoute {
                    Err(lacks)
                } else {
                    Ok(())
                },
            }
        },
    }
}

#[verifier::opaque]
pub open spec fn publication_outcome(
    s: StateView,
    op: RecoveryRecord,
    prepared: PhaseRecord,
    input: RouteChange,
    outcome: DispatchOutcome,
) -> Result<(), Error> {
    match activation_rules::route_outcome(prepared, input, outcome) {
        Err(e) => Err(e),
        Ok(()) => match outcome {
            DispatchOutcome::RouteSuperseded { replacement_phase } => superseded_by(
                s,
                op,
                prepared,
                replacement_phase,
            ),
            _ => Ok(()),
        },
    }
}

#[verifier::opaque]
pub open spec fn authority_dispatch_outcome(
    s: StateView,
    op: RecoveryRecord,
    prepared: PhaseRecord,
    expected: AuthorityCommand,
    outcome: DispatchOutcome,
) -> Result<(), Error> {
    match outcome {
        DispatchOutcome::Authority(signed) => authority_outcome(s, op, expected, signed@),
        DispatchOutcome::AuthorityResolution(signed) => authority_resolution(
            s,
            op,
            prepared,
            expected,
            signed@,
        ),
        _ => Err(rules::no("recovery outcome kind differs from durable dispatch")),
    }
}

#[verifier::opaque]
pub open spec fn target_dispatch_outcome(
    s: StateView,
    op: RecoveryRecord,
    prepared: PhaseRecord,
    node: u64,
    request: TargetRequest,
    outcome: DispatchOutcome,
) -> Result<(), Error> {
    match outcome {
        DispatchOutcome::CompletionResolution {
            inspection_phase,
        } => receiver_rules::completion_resolution(s, op, prepared, inspection_phase),
        DispatchOutcome::CompletionTerminal { resolution_phase } => receiver_rules::link(
            s,
            op,
            prepared,
            resolution_phase,
            true,
        ),
        DispatchOutcome::PreparationObserved { status_phase } => receiver_rules::link(
            s,
            op,
            prepared,
            status_phase,
            false,
        ),
        DispatchOutcome::TerminalObserved { status_phase } => receiver_rules::resolver_link(
            s,
            op,
            prepared,
            status_phase,
        ),
        DispatchOutcome::Target(response) => target_outcome(
            s,
            op,
            prepared,
            node,
            request,
            response@,
        ),
        _ => Err(rules::no("recovery outcome kind differs from durable dispatch")),
    }
}

/// Whether the outcome resolves the prepared phase.
#[verifier::opaque]
pub open spec fn outcome_admitted(
    s: StateView,
    op: RecoveryRecord,
    prepared: PhaseRecord,
    outcome: DispatchOutcome,
) -> Result<(), Error> {
    let kind = rules::no("recovery outcome kind differs from durable dispatch");
    match prepared.input {
        Dispatch::Authority(expected) => authority_dispatch_outcome(
            s,
            op,
            prepared,
            expected@,
            outcome,
        ),
        Dispatch::ControlIntent(request) => match outcome {
            DispatchOutcome::ControlIntent(actual) => control_outcome(
                s,
                op,
                prepared,
                request@,
                actual@,
            ),
            _ => Err(kind),
        },
        Dispatch::Target { node_id, request } => target_dispatch_outcome(
            s,
            op,
            prepared,
            node_id,
            request@,
            outcome,
        ),
        Dispatch::PublishRoute(input) => publication_outcome(s, op, prepared, input, outcome),
        Dispatch::RetireSource(request) => match outcome {
            DispatchOutcome::SourceRetired(receipt) => activation_rules::retirement(op, receipt),
            _ => Err(kind),
        },
    }
}

// ---------------------------------------------------------------------
// Progress
// ---------------------------------------------------------------------

/// The voters with the node's voter replaced.
#[verifier::opaque]
pub open spec fn replaced(voters: Voters, node: u64, v: Voter) -> Voters {
    if voters.first.node_id == node {
        Voters { first: v, ..voters }
    } else if voters.second.node_id == node {
        Voters { second: v, ..voters }
    } else if voters.third.node_id == node {
        Voters { third: v, ..voters }
    } else {
        voters
    }
}

pub open spec fn all_materialized(voters: Voters) -> bool {
    voters.first.materialization is Some && voters.second.materialization is Some
        && voters.third.materialization is Some
}

pub open spec fn all_clean(voters: Voters) -> bool {
    voters.first.cleanup is Some && voters.second.cleanup is Some && voters.third.cleanup is Some
}

/// The proof of a voter that materialized: the new one, or the retained one.
#[verifier::opaque]
pub open spec fn voter_proof(
    s: StateView,
    op: RecoveryRecord,
    v: Voter,
    node: u64,
    proof: MaterializationProof,
) -> Result<MaterializationProof, Error> {
    if v.node_id == node {
        Ok(proof)
    } else {
        match rules::phase_of(
            s,
            op,
            v.materialization,
            "target materialization quorum incomplete",
        ) {
            Err(e) => Err(e),
            Ok(p) => match rules::native(p.outcome) {
                None => Err(rules::no("retained voter materialization absent")),
                Some(response) => match rules::materialized_by(response.outcome) {
                    None => Err(rules::no("retained voter materialization differs")),
                    Some(proof) => Ok(proof),
                },
            },
        }
    }
}

/// Whether the last proof completes a quorum that speaks of one image.
#[verifier::opaque]
pub open spec fn quorum_agrees(
    s: StateView,
    op: RecoveryRecord,
    node: u64,
    proof: MaterializationProof,
) -> Result<(), Error> {
    match voter_proof(s, op, op.voters.first, node, proof) {
        Err(e) => Err(e),
        Ok(first) => match voter_proof(s, op, op.voters.second, node, proof) {
            Err(e) => Err(e),
            Ok(second) => match voter_proof(s, op, op.voters.third, node, proof) {
                Err(e) => Err(e),
                Ok(third) => match rules::origin(s, op) {
                    Err(e) => Err(e),
                    Ok(o) => if rules::materializations_agree(
                        o,
                        op.voters,
                        first,
                        second,
                        third,
                    ) {
                        Ok(())
                    } else {
                        Err(
                            rules::no("target voters disagree about the exact materialized image"),
                        )
                    },
                },
            },
        },
    }
}

#[verifier::opaque]
pub open spec fn materialized_progress(
    s: StateView,
    op: RecoveryRecord,
    id: u128,
    v: Voter,
    proof: MaterializationProof,
) -> Result<RecoveryRecord, Error> {
    let head = RecoveryRecord {
        voters: replaced(op.voters, v.node_id, Voter { materialization: Some(id), ..v }),
        ..op
    };
    if !all_materialized(head.voters) {
        Ok(head)
    } else {
        match quorum_agrees(s, head, v.node_id, proof) {
            Err(e) => Err(e),
            Ok(()) => Ok(
                RecoveryRecord { current_intent: None, phase: RecoveryPhase::Initialize, ..head },
            ),
        }
    }
}

/// What comes behind a completion.
pub open spec fn after_completion(mode: SourceMode) -> RecoveryPhase {
    match mode {
        SourceMode::Planned { retirement } => RecoveryPhase::RetireSource,
        SourceMode::SourceUnavailable => RecoveryPhase::FenceSource,
    }
}

#[verifier::opaque]
pub open spec fn confirmed_progress(op: RecoveryRecord, id: u128, v: Voter) -> RecoveryRecord {
    let voters = replaced(op.voters, v.node_id, Voter { confirmation: Some(id), ..v });
    RecoveryRecord {
        voters,
        phase: if voters.first.confirmation is Some && voters.second.confirmation is Some
            && voters.third.confirmation is Some {
            RecoveryPhase::Publish
        } else {
            op.phase
        },
        ..op
    }
}

#[verifier::opaque]
pub open spec fn clean_progress(op: RecoveryRecord, id: u128, v: Voter) -> RecoveryRecord {
    let voters = replaced(op.voters, v.node_id, Voter { cleanup: Some(id), ..v });
    RecoveryRecord {
        voters,
        phase: if all_clean(voters) {
            RecoveryPhase::Stopped
        } else {
            op.phase
        },
        ..op
    }
}

pub open spec fn first_set(current: Option<u128>, id: u128) -> Option<u128> {
    match current {
        Some(first) => Some(first),
        None => Some(id),
    }
}

/// The head behind a target's acknowledgement.
#[verifier::opaque]
pub open spec fn target_progress(
    s: StateView,
    op: RecoveryRecord,
    id: u128,
    v: Voter,
    outcome: TargetOutcome,
) -> Result<RecoveryRecord, Error> {
    match outcome {
        TargetOutcome::Materialized(proof) => materialized_progress(s, op, id, v, proof),
        TargetOutcome::Started { origin_sha256 } => Ok(
            RecoveryRecord {
                voters: replaced(op.voters, v.node_id, Voter { started: Some(id), ..v }),
                ..op
            },
        ),
        TargetOutcome::Initialized { origin_sha256 } => Ok(
            RecoveryRecord {
                initialization: Some(id),
                current_intent: None,
                phase: RecoveryPhase::Complete,
                ..op
            },
        ),
        TargetOutcome::PreparedCompletion(_) => Ok(
            RecoveryRecord {
                completion_preparation: first_set(op.completion_preparation, id),
                ..op
            },
        ),
        TargetOutcome::CompletionAttemptStatus(_) => Ok(
            RecoveryRecord {
                completion_preparation: first_set(op.completion_preparation, id),
                ..op
            },
        ),
        TargetOutcome::ResolvedCompletion(_) => Ok(
            RecoveryRecord { completion_terminal: first_set(op.completion_terminal, id), ..op },
        ),
        TargetOutcome::CompletionTerminalStatus(_) => Ok(
            RecoveryRecord { completion_terminal: first_set(op.completion_terminal, id), ..op },
        ),
        TargetOutcome::Completed(_) => Ok(
            RecoveryRecord {
                completion: Some(id),
                current_intent: None,
                phase: after_completion(op.request.source_mode),
                ..op
            },
        ),
        TargetOutcome::Inspected(_) => Ok(
            RecoveryRecord {
                completion: Some(id),
                current_intent: None,
                phase: after_completion(op.request.source_mode),
                ..op
            },
        ),
        TargetOutcome::Activated(_) => Ok(confirmed_progress(op, id, v)),
        TargetOutcome::Stopped(_) => Ok(clean_progress(op, id, v)),
    }
}

#[verifier::opaque]
pub open spec fn activated_progress(
    op: RecoveryRecord,
    id: u128,
    command: AuthorityCommand,
    outcome: AuthorityOutcome,
) -> Result<RecoveryRecord, Error> {
    if outcome is Activated {
        Ok(
            RecoveryRecord {
                activation: Some(id),
                current_intent: None,
                phase: RecoveryPhase::Confirm,
                ..op
            },
        )
    } else if command.action is ActivateCommitted && outcome is ActivationStopped {
        Ok(RecoveryRecord { current_intent: None, ..op })
    } else {
        Err(rules::no("unsupported issuer activation progress"))
    }
}

#[verifier::opaque]
pub open spec fn stopped_activation_progress(
    op: RecoveryRecord,
    command: AuthorityCommand,
    outcome: AuthorityOutcome,
) -> Result<RecoveryRecord, Error> {
    match command.action {
        AuthorityAction::StopActivation { original } => match outcome {
            AuthorityOutcome::ActivationResolved { original: resolved } => if resolved@.outcome
                is Activated {
                Ok(
                    RecoveryRecord {
                        current_intent: None,
                        activation: Some(original@.command_id),
                        phase: RecoveryPhase::Confirm,
                        ..op
                    },
                )
            } else {
                Ok(
                    RecoveryRecord {
                        current_intent: None,
                        phase: if op.stop_request is Some {
                            RecoveryPhase::StopTarget
                        } else {
                            RecoveryPhase::Activate
                        },
                        ..op
                    },
                )
            },
            _ => Err(rules::no("activation stop did not resolve original command")),
        },
        _ => Err(rules::no("activation stop input differs")),
    }
}

/// The head behind an issuer's answer that was not a refusal.
#[verifier::opaque]
pub open spec fn authority_progress(
    op: RecoveryRecord,
    prepared: PhaseRecord,
    command: AuthorityCommand,
    outcome: AuthorityOutcome,
) -> Result<RecoveryRecord, Error> {
    match prepared.phase {
        RecoveryPhase::Prepare => Ok(
            RecoveryRecord {
                issuer_preparation: Some(prepared.phase_id),
                phase: RecoveryPhase::Materialize,
                ..op
            },
        ),
        RecoveryPhase::StopTarget => Ok(
            RecoveryRecord {
                target_stop: Some(prepared.phase_id),
                current_intent: None,
                phase: RecoveryPhase::Cleanup,
                ..op
            },
        ),
        RecoveryPhase::FenceSource => Ok(
            RecoveryRecord {
                source_fence: Some(prepared.phase_id),
                current_intent: None,
                phase: RecoveryPhase::Activate,
                ..op
            },
        ),
        RecoveryPhase::Activate => activated_progress(op, prepared.phase_id, command, outcome),
        RecoveryPhase::StopActivation => stopped_activation_progress(op, command, outcome),
        _ => Err(rules::no("unsupported recovery progress transition")),
    }
}

/// The head behind a committed intent, and the attempt that it closes.
#[verifier::opaque]
pub open spec fn control_progress(
    s: StateView,
    op: RecoveryRecord,
    prepared: PhaseRecord,
    request: IntentRequest,
) -> Result<(RecoveryRecord, Option<CompletionHistory>), Error> {
    if request.phase == LifecyclePhase::Complete {
        rules::install(s, op, prepared)
    } else {
        Ok(
            (
                RecoveryRecord {
                    current_intent: Some(prepared.phase_id),
                    materialization_intent: if request.phase == LifecyclePhase::Materialize {
                        Some(prepared.phase_id)
                    } else {
                        op.materialization_intent
                    },
                    ..op
                },
                None,
            ),
        )
    }
}

pub open spec fn unclosed(head: Result<RecoveryRecord, Error>) -> Result<
    (RecoveryRecord, Option<CompletionHistory>),
    Error,
> {
    match head {
        Err(e) => Err(e),
        Ok(head) => Ok((head, None)),
    }
}

#[verifier::opaque]
pub open spec fn advanced_by_issuer(
    op: RecoveryRecord,
    prepared: PhaseRecord,
    signed: SignedReceipt,
) -> Result<RecoveryRecord, Error> {
    if signed.receipt.outcome is Rejected {
        Ok(op)
    } else {
        match prepared.input {
            Dispatch::Authority(command) => authority_progress(
                op,
                prepared,
                command@,
                signed.receipt.outcome,
            ),
            _ => Err(rules::no("unsupported recovery progress transition")),
        }
    }
}

#[verifier::opaque]
pub open spec fn advanced_by_target(
    s: StateView,
    op: RecoveryRecord,
    prepared: PhaseRecord,
    response: TargetResponse,
) -> Result<RecoveryRecord, Error> {
    match prepared.input {
        Dispatch::Target { node_id, request } => match rules::voter(op.voters, node_id) {
            None => Err(rules::no("target voter missing")),
            Some(v) => target_progress(s, op, prepared.phase_id, v, response.outcome),
        },
        _ => Err(rules::no("unsupported recovery progress transition")),
    }
}

#[verifier::opaque]
pub open spec fn advanced_by_route(
    op: RecoveryRecord,
    prepared: PhaseRecord,
    published: bool,
) -> Result<RecoveryRecord, Error> {
    if prepared.input !is PublishRoute {
        Err(rules::no("unsupported recovery progress transition"))
    } else if published {
        Ok(
            RecoveryRecord {
                route_publication: Some(prepared.phase_id),
                phase: RecoveryPhase::Finished,
                ..op
            },
        )
    } else {
        Ok(op)
    }
}

#[verifier::opaque]
pub open spec fn advanced_by_retirement(op: RecoveryRecord, prepared: PhaseRecord) -> Result<
    RecoveryRecord,
    Error,
> {
    if prepared.input !is RetireSource {
        Err(rules::no("unsupported recovery progress transition"))
    } else {
        Ok(
            RecoveryRecord {
                retirement: Some(prepared.phase_id),
                phase: RecoveryPhase::FenceSource,
                ..op
            },
        )
    }
}

/// The head behind the outcome of a prepared phase, and the attempt it closes.
#[verifier::opaque]
pub open spec fn advance(
    s: StateView,
    op: RecoveryRecord,
    prepared: PhaseRecord,
    outcome: DispatchOutcome,
) -> Result<(RecoveryRecord, Option<CompletionHistory>), Error> {
    match outcome {
        DispatchOutcome::Authority(signed) => unclosed(advanced_by_issuer(op, prepared, signed@)),
        DispatchOutcome::RoutePublished { revision } => unclosed(
            advanced_by_route(op, prepared, true),
        ),
        DispatchOutcome::RouteRejected { observed_topology_version } => unclosed(
            advanced_by_route(op, prepared, false),
        ),
        DispatchOutcome::SourceRetired(receipt) => unclosed(advanced_by_retirement(op, prepared)),
        DispatchOutcome::ControlIntent(actual) => match prepared.input {
            Dispatch::ControlIntent(request) => control_progress(s, op, prepared, request@),
            _ => Err(rules::no("unsupported recovery progress transition")),
        },
        DispatchOutcome::Target(response) => unclosed(
            advanced_by_target(s, op, prepared, response@),
        ),
        _ => Err(rules::no("unsupported recovery progress transition")),
    }
}

// ---------------------------------------------------------------------
// Commands
// ---------------------------------------------------------------------

/// A voter that has done nothing yet.
pub open spec fn fresh_voter(node_id: u64) -> Voter {
    Voter {
        node_id,
        materialization: None,
        start_attempt: None,
        started: None,
        confirmation: None,
        cleanup: None,
    }
}

/// The head of a recovery that has just started.
#[verifier::opaque]
pub open spec fn started_head(s: StateView, a: RecoveryAuthorization, request: RecoveryStart) -> RecoveryRecord {
    RecoveryRecord {
        request,
        request_sha256: request.sha256,
        original_principal: a.principal,
        created_revision: s.revision,
        updated_revision: s.revision,
        phase: RecoveryPhase::Prepare,
        next_phase_sequence: 1,
        pending_phase: None,
        last_phase: None,
        issuer_preparation: None,
        current_intent: None,
        materialization_intent: None,
        initialization: None,
        completion_intent: None,
        completion_predecessor: None,
        completion_preparation_attempt: None,
        completion_preparation: None,
        completion_resolution_attempt: None,
        completion_terminal: None,
        completion_attempt: None,
        completion: None,
        retirement: None,
        source_fence: None,
        activation_attempt: None,
        activation: None,
        route_publication: None,
        stop_request: None,
        target_stop: None,
        voters: Voters {
            first: fresh_voter(request.target_nodes.first.node_id),
            second: fresh_voter(request.target_nodes.second.node_id),
            third: fresh_voter(request.target_nodes.third.node_id),
        },
    }
}

/// The state with the head put.
pub open spec fn put_head(s: StateView, head: RecoveryRecord) -> StateView {
    StateView {
        recovery: RecoveryView {
            operations: s.recovery.operations.insert(head.request.operation_id, head),
            ..s.recovery
        },
        ..s
    }
}

/// The state with the target bound to its recovery for good.
pub open spec fn bind_target(s: StateView, request: RecoveryStart) -> StateView {
    StateView {
        recovery: RecoveryView {
            targets: s.recovery.targets.insert(request.target_incarnation, request.operation_id),
            ..s.recovery
        },
        ..s
    }
}

#[verifier::opaque]
pub open spec fn start(s: StateView, a: RecoveryAuthorization, request: RecoveryStart) -> Result<
    (StateView, RecoveryRecord),
    Error,
> {
    match s.recovery.operations.get(request.operation_id) {
        Some(existing) => if existing.request != request {
            Err(rules::no("permanent recovery operation identity differs"))
        } else {
            Ok((s, existing))
        },
        None => match s.lifecycle {
            None => Err(rules::no("Control installation absent")),
            Some(control) => if request.expected_policy_epoch != s.policy_epoch
                || request.installation_sha256 != control.installation.sha256
                || rules::partition_named(
                control.installation.partitions,
                request.authority_partition,
                0,
            ) is None {
                Err(rules::no("recovery Control installation or admission epoch differs"))
            } else if s.recovery.targets.get(request.target_incarnation) is Some {
                Err(rules::no("target incarnation is permanently bound to another recovery"))
            } else {
                let head = started_head(s, a, request);
                Ok((put_head(bind_target(s, request), head), head))
            },
        },
    }
}

/// The head of an operation that is asked to stop.
#[verifier::opaque]
pub open spec fn stopping(op: RecoveryRecord, command_id: u128) -> RecoveryRecord {
    if op.activation is None {
        RecoveryRecord {
            stop_request: Some(command_id),
            pending_phase: None,
            phase: if op.activation_attempt is Some {
                RecoveryPhase::StopActivation
            } else {
                RecoveryPhase::StopTarget
            },
            ..op
        }
    } else {
        RecoveryRecord { stop_request: Some(command_id), ..op }
    }
}

/// The head as of the state's revision, put.
pub open spec fn touched(s: StateView, head: RecoveryRecord) -> (StateView, RecoveryRecord) {
    let head = RecoveryRecord { updated_revision: s.revision, ..head };
    (put_head(s, head), head)
}

#[verifier::opaque]
pub open spec fn stop(s: StateView, op: RecoveryRecord, command_id: u128) -> Result<
    (StateView, RecoveryRecord),
    Error,
> {
    if command_id == 0 {
        Err(rules::no("nil recovery stop identity"))
    } else {
        match op.stop_request {
            Some(existing) => if existing != command_id {
                Err(rules::no("permanent recovery stop identity differs"))
            } else {
                Ok((s, op))
            },
            None => Ok(touched(s, stopping(op, command_id))),
        }
    }
}

pub open spec fn is_terminal(phase: RecoveryPhase) -> bool {
    phase == RecoveryPhase::Finished || phase == RecoveryPhase::Stopped
}

/// The Control phase that may displace a target dispatch that has ended.
#[verifier::opaque]
pub open spec fn displacing_phase(s: StateView, op: RecoveryRecord, step: TargetStep) -> Result<
    Option<LifecyclePhase>,
    Error,
> {
    if step is Materialize || step is ResumeMaterialization {
        Ok(Some(LifecyclePhase::ResumeMaterialize))
    } else if step is Stop {
        Ok(Some(LifecyclePhase::StopLocal))
    } else if op.phase == RecoveryPhase::Initialize && (step is Initialize || (step is Start
        && !rules::established_start(step))) {
        Ok(Some(LifecyclePhase::Initialize))
    } else if op.phase == RecoveryPhase::Complete && (step is Start || rules::established_effect(
        step,
    )) {
        match rules::fresh_phase(s, op) {
            Err(e) => Err(e),
            Ok(phase) => Ok(Some(phase)),
        }
    } else if op.phase == RecoveryPhase::Confirm && (step is StartActivation || step is Activate
        || step is ConfirmActivation) {
        Ok(Some(LifecyclePhase::Activate))
    } else {
        Ok(None)
    }
}

/// The Control phase that a pending phase waits for, once it has ended.
#[verifier::opaque]
pub open spec fn awaited_phase(s: StateView, op: RecoveryRecord, pending: PhaseRecord, now: u64) -> Result<
    Option<LifecyclePhase>,
    Error,
> {
    match pending.input {
        Dispatch::Target { node_id, request } => if now >= request@.not_after_ms {
            displacing_phase(s, op, request@.step)
        } else {
            Ok(None)
        },
        _ => Ok(None),
    }
}

/// Whether the dispatch stops an activation that has ended unanswered.
#[verifier::opaque]
pub open spec fn stops_expired(op: RecoveryRecord, pending: PhaseRecord, input: Dispatch, now: u64) -> bool {
    match activation_rules::activate_command(pending.input) {
        None => false,
        Some(original) => op.phase == RecoveryPhase::Activate && now >= original.not_after_ms
            && match input {
            Dispatch::Authority(stop) => match stop@.action {
                AuthorityAction::StopActivation { original: stopped } => stopped@ == original,
                _ => false,
            },
            _ => false,
        },
    }
}

/// Whether both are publications, and the first has ended.
#[verifier::opaque]
pub open spec fn expired_route(op: RecoveryRecord, pending: PhaseRecord, input: Dispatch, now: u64) -> Result<
    bool,
    Error,
> {
    if pending.input is PublishRoute && input is PublishRoute && op.phase
        == RecoveryPhase::Publish {
        match rules::dispatch_limit(op, pending) {
            Err(e) => Err(e),
            Ok(limit) => Ok(now >= limit),
        }
    } else {
        Ok(false)
    }
}

#[verifier::opaque]
pub open spec fn asks_for(input: Dispatch, phase: Option<LifecyclePhase>) -> bool {
    match input {
        Dispatch::ControlIntent(request) => Some(request@.phase) == phase,
        _ => false,
    }
}

/// The head, once the dispatch may take the place of what is pending.
#[verifier::opaque]
pub open spec fn displaced(s: StateView, op: RecoveryRecord, input: Dispatch, now: u64) -> Result<
    RecoveryRecord,
    Error,
> {
    match op.pending_phase {
        None => Ok(op),
        Some(id) => match rules::phase(s, op, id) {
            Err(e) => Err(e),
            Ok(pending) => match awaited_phase(s, op, pending, now) {
                Err(e) => Err(e),
                Ok(awaited) => match expired_route(op, pending, input, now) {
                    Err(e) => Err(e),
                    Ok(expired) => if stops_expired(op, pending, input, now) {
                        Ok(RecoveryRecord { phase: RecoveryPhase::StopActivation, ..op })
                    } else if rules::completion_route_retry(pending, input, now) || expired
                        || asks_for(input, awaited) {
                        Ok(op)
                    } else {
                        Err(
                            rules::no(
                                "resolve the exact pending recovery phase before another dispatch",
                            ),
                        )
                    },
                },
            },
        },
    }
}

/// The publication that a later one supersedes, as it is then retained.
#[verifier::opaque]
pub open spec fn superseded(
    s: StateView,
    op: RecoveryRecord,
    id: u128,
    input: Dispatch,
    now: u64,
) -> Result<Option<(u128, PhaseRecord)>, Error> {
    let refused = rules::no("local publication supersession requires its expired original phase");
    match op.pending_phase {
        None => Ok(None),
        Some(pending) => if input !is PublishRoute {
            Ok(None)
        } else {
            match rules::phase(s, op, pending) {
                Err(e) => Err(e),
                Ok(prior) => if prior.input !is PublishRoute {
                    Err(refused)
                } else {
                    match rules::dispatch_limit(op, prior) {
                        Err(e) => Err(e),
                        Ok(limit) => if now < limit {
                            Err(refused)
                        } else {
                            Ok(
                                Some(
                                    (
                                        pending,
                                        settled(
                                            prior,
                                            DispatchOutcome::RouteSuperseded {
                                                replacement_phase: id,
                                            },
                                            s.revision,
                                        ),
                                    ),
                                ),
                            )
                        },
                    }
                },
            }
        },
    }
}

/// The phase row with its outcome, as of a revision.
pub open spec fn settled(p: PhaseRecord, outcome: DispatchOutcome, revision: u64) -> PhaseRecord {
    PhaseRecord { outcome: Some(outcome), resolved_revision: Some(revision), ..p }
}

/// The row of a phase that is prepared now.
#[verifier::opaque]
pub open spec fn prepared_row(
    s: StateView,
    op: RecoveryRecord,
    id: u128,
    sequence: u64,
    scope: Option<CompletionScope>,
    input: Dispatch,
    a: RecoveryAuthorization,
) -> PhaseRecord {
    PhaseRecord {
        operation_id: op.request.operation_id,
        phase_id: id,
        sequence,
        phase: op.phase,
        completion_scope: scope,
        previous_phase: op.last_phase,
        input,
        principal: a.principal,
        admitted_at_ms: a.admitted_at_ms,
        original_credential_expires_at_ms: a.expires_at_ms,
        prepared_revision: s.revision,
        outcome: None,
        resolved_revision: None,
    }
}

/// The head with what a target dispatch marks.
#[verifier::opaque]
pub open spec fn marked_target(op: RecoveryRecord, id: u128, node: u64, step: TargetStep) -> RecoveryRecord {
    if step is Start {
        match rules::voter(op.voters, node) {
            None => op,
            Some(v) => RecoveryRecord {
                voters: replaced(op.voters, node, Voter { start_attempt: Some(id), ..v }),
                ..op
            },
        }
    } else if step is PrepareComplete {
        RecoveryRecord {
            completion_preparation_attempt: first_set(op.completion_preparation_attempt, id),
            ..op
        }
    } else if step is ResolveComplete {
        RecoveryRecord {
            completion_resolution_attempt: first_set(op.completion_resolution_attempt, id),
            ..op
        }
    } else if step is Complete {
        RecoveryRecord { completion_attempt: Some(id), ..op }
    } else {
        op
    }
}

/// The head with what a dispatch marks.
#[verifier::opaque]
pub open spec fn marked(op: RecoveryRecord, id: u128, input: Dispatch) -> RecoveryRecord {
    match input {
        Dispatch::Authority(command) => if command@.action is ActivateCommitted {
            RecoveryRecord { activation_attempt: Some(id), ..op }
        } else {
            op
        },
        Dispatch::Target { node_id, request } => marked_target(op, id, node_id, request@.step),
        _ => op,
    }
}

#[verifier::opaque]
pub open spec fn prepared_head(op: RecoveryRecord, id: u128, input: Dispatch) -> RecoveryRecord {
    RecoveryRecord {
        pending_phase: Some(id),
        last_phase: Some(id),
        next_phase_sequence: (op.next_phase_sequence + 1) as u64,
        ..marked(op, id, input)
    }
}

/// A dispatch that is admitted, prepared.
#[verifier::opaque]
pub open spec fn prepare_admitted(
    s: StateView,
    op: RecoveryRecord,
    id: u128,
    sequence: u64,
    input: Dispatch,
    a: RecoveryAuthorization,
) -> Result<(StateView, RecoveryRecord), Error> {
    match input_admitted(s, op, id, input, a) {
        Err(e) => Err(e),
        Ok(()) => match superseded(s, op, id, input, a.admitted_at_ms) {
            Err(e) => Err(e),
            Ok(change) => match rules::prepared_scope(s, op, id, input) {
                Err(e) => Err(e),
                Ok(scope) => if op.next_phase_sequence == u64::MAX {
                    Err(rules::no("recovery phase sequence exhausted"))
                } else {
                    Ok(
                        touched(
                            rules::rewritten(
                                rules::rewritten(s, change),
                                Some((id, prepared_row(s, op, id, sequence, scope, input, a))),
                            ),
                            prepared_head(op, id, input),
                        ),
                    )
                },
            },
        },
    }
}

#[verifier::opaque]
pub open spec fn prepare(
    s: StateView,
    op: RecoveryRecord,
    id: u128,
    sequence: u64,
    pending: Option<u128>,
    input: Dispatch,
    a: RecoveryAuthorization,
) -> Result<(StateView, RecoveryRecord), Error> {
    match s.recovery.phases.get(id) {
        Some(existing) => if existing.operation_id != op.request.operation_id || existing.sequence
            != sequence || existing.input != input {
            Err(rules::no("permanent recovery phase input differs"))
        } else {
            Ok((s, op))
        },
        None => if id == 0 || is_terminal(op.phase) || op.next_phase_sequence != sequence
            || op.pending_phase != pending {
            Err(rules::no("recovery phase compare-and-set differs"))
        } else {
            match displaced(s, op, input, a.admitted_at_ms) {
                Err(e) => Err(e),
                Ok(op) => prepare_admitted(s, op, id, sequence, input, a),
            }
        },
    }
}

/// The state with the route published, or as it was.
pub open spec fn after_publication(
    s: StateView,
    op: RecoveryRecord,
    input: RouteChange,
    outcome: DispatchOutcome,
) -> StateView {
    if outcome is RoutePublished {
        activation_rules::rerouted(s, op, input)
    } else {
        s
    }
}

/// A publication that is still pending, done.
#[verifier::opaque]
pub open spec fn publish_pending(
    s: StateView,
    op: RecoveryRecord,
    id: u128,
    prepared: PhaseRecord,
    input: RouteChange,
) -> Result<(StateView, RecoveryRecord), Error> {
    match activation_rules::published(s, op, input) {
        Err(e) => Err(e),
        Ok(outcome) => {
            let row = settled(prepared, outcome, s.revision);
            match activation_rules::route_outcome(row, input, outcome) {
                Err(e) => Err(e),
                Ok(()) => match advance(
                    after_publication(s, op, input, outcome),
                    op,
                    row,
                    outcome,
                ) {
                    Err(e) => Err(e),
                    Ok((head, closed)) => Ok(
                        touched(
                            rules::rewritten(
                                rules::archived(after_publication(s, op, input, outcome), closed),
                                Some((id, row)),
                            ),
                            RecoveryRecord { pending_phase: None, ..head },
                        ),
                    ),
                },
            }
        },
    }
}

/// Whether the publication may still take effect.
#[verifier::opaque]
pub open spec fn publication_eligible(
    op: RecoveryRecord,
    prepared: PhaseRecord,
    id: u128,
    now: u64,
) -> Result<(), Error> {
    let ended = rules::no("original route publication is no longer eligible");
    if op.phase != RecoveryPhase::Publish || op.pending_phase != Some(id) {
        Err(ended)
    } else {
        match rules::dispatch_limit(op, prepared) {
            Err(e) => Err(e),
            Ok(limit) => if now >= limit {
                Err(ended)
            } else {
                Ok(())
            },
        }
    }
}

#[verifier::opaque]
pub open spec fn publish(s: StateView, op: RecoveryRecord, id: u128, now: u64) -> Result<
    (StateView, RecoveryRecord),
    Error,
> {
    match rules::phase(s, op, id) {
        Err(e) => Err(e),
        Ok(prepared) => match prepared.input {
            Dispatch::PublishRoute(input) => if prepared.outcome is Some {
                Ok((s, op))
            } else {
                match publication_eligible(op, prepared, id, now) {
                    Err(e) => Err(e),
                    Ok(()) => publish_pending(s, op, id, prepared, input),
                }
            },
            _ => Err(rules::no("route publication phase input differs")),
        },
    }
}

/// The activation command that an outcome of a stop resolves.
#[verifier::opaque]
pub open spec fn resolved_command(prepared: PhaseRecord, outcome: DispatchOutcome) -> Option<
    (u128, SignedReceipt),
> {
    match outcome {
        DispatchOutcome::Authority(signed) => if signed@.receipt.outcome is ActivationResolved {
            match prepared.input {
                Dispatch::Authority(command) => match command@.action {
                    AuthorityAction::StopActivation { original } => Some(
                        (original@.command_id, signed@),
                    ),
                    _ => None,
                },
                _ => None,
            }
        } else {
            None
        },
        _ => None,
    }
}

/// The activation's row that a stop resolves, if it is unresolved.
#[verifier::opaque]
pub open spec fn stopped_activation(
    s: StateView,
    op: RecoveryRecord,
    id: u128,
    signed: SignedReceipt,
) -> Result<Option<(u128, PhaseRecord)>, Error> {
    let resolved = DispatchOutcome::AuthorityResolution(Held::of(signed));
    match rules::phase(s, op, id) {
        Err(e) => Err(e),
        Ok(original) => match original.outcome {
            Some(existing) => match activation_rules::original_receipt(existing) {
                Err(e) => Err(e),
                Ok(retained) => match activation_rules::original_receipt(resolved) {
                    Err(e) => Err(e),
                    Ok(receipt) => if retained != receipt {
                        Err(rules::no("activation stop changed permanent original outcome"))
                    } else {
                        Ok(None)
                    },
                },
            },
            None => match outcome_admitted(s, op, original, resolved) {
                Err(e) => Err(e),
                Ok(()) => Ok(Some((id, settled(original, resolved, s.revision)))),
            },
        },
    }
}

/// The activation's row that the outcome resolves, if any.
#[verifier::opaque]
pub open spec fn stop_resolves(
    s: StateView,
    op: RecoveryRecord,
    prepared: PhaseRecord,
    outcome: DispatchOutcome,
) -> Result<Option<(u128, PhaseRecord)>, Error> {
    match resolved_command(prepared, outcome) {
        None => Ok(None),
        Some((id, signed)) => stopped_activation(s, op, id, signed),
    }
}

pub open spec fn then_rewritten(
    s: StateView,
    change: Result<Option<(u128, PhaseRecord)>, Error>,
) -> Result<StateView, Error> {
    match change {
        Err(e) => Err(e),
        Ok(change) => Ok(rules::rewritten(s, change)),
    }
}

/// The state once an observation has resolved what it is of.
#[verifier::opaque]
pub open spec fn observed(
    s: StateView,
    op: RecoveryRecord,
    row: PhaseRecord,
    response: TargetResponse,
) -> Result<StateView, Error> {
    match then_rewritten(s, receiver_rules::prior(s, op, row, response)) {
        Err(e) => Err(e),
        Ok(s) => if response.outcome is CompletionTerminalStatus {
            then_rewritten(s, receiver_rules::resolved_resolver(s, op, row.phase_id))
        } else if response.outcome is Inspected {
            then_rewritten(s, receiver_rules::resolved_original(s, op, row.phase_id))
        } else {
            Ok(s)
        },
    }
}

/// The state once the phase and all that it resolves are resolved.
#[verifier::opaque]
pub open spec fn settled_state(
    s: StateView,
    op: RecoveryRecord,
    id: u128,
    prepared: PhaseRecord,
    outcome: DispatchOutcome,
) -> Result<StateView, Error> {
    match then_rewritten(s, stop_resolves(s, op, prepared, outcome)) {
        Err(e) => Err(e),
        Ok(stopped) => {
            let row = settled(prepared, outcome, s.revision);
            let resolved = rules::rewritten(stopped, Some((id, row)));
            match rules::native(Some(outcome)) {
                None => Ok(resolved),
                Some(response) => observed(resolved, op, row, response),
            }
        },
    }
}

/// The pending phase, resolved.
#[verifier::opaque]
pub open spec fn resolve_pending(
    s: StateView,
    op: RecoveryRecord,
    id: u128,
    prepared: PhaseRecord,
    outcome: DispatchOutcome,
) -> Result<(StateView, RecoveryRecord), Error> {
    match outcome_admitted(s, op, prepared, outcome) {
        Err(e) => Err(e),
        Ok(()) => match settled_state(s, op, id, prepared, outcome) {
            Err(e) => Err(e),
            Ok(next) => match advance(next, op, prepared, outcome) {
                Err(e) => Err(e),
                Ok((head, closed)) => Ok(
                    touched(
                        rules::archived(next, closed),
                        RecoveryRecord { pending_phase: None, ..head },
                    ),
                ),
            },
        },
    }
}

#[verifier::opaque]
pub open spec fn resolve(
    s: StateView,
    op: RecoveryRecord,
    id: u128,
    outcome: DispatchOutcome,
) -> Result<(StateView, RecoveryRecord), Error> {
    match rules::phase(s, op, id) {
        Err(e) => Err(e),
        Ok(prepared) => match prepared.outcome {
            Some(existing) => if existing != outcome {
                Err(rules::no("permanent recovery phase outcome differs"))
            } else {
                Ok((s, op))
            },
            None => if prepared.input is PublishRoute {
                Err(
                    rules::no("route outcome must be committed atomically with its topology update"),
                )
            } else if op.pending_phase != Some(id) {
                Err(rules::no("recovery phase was superseded; retain its original history"))
            } else {
                resolve_pending(s, op, id, prepared, outcome)
            },
        },
    }
}

pub open spec fn operation(s: StateView, id: u128) -> Result<RecoveryRecord, Error> {
    match s.recovery.operations.get(id) {
        None => Err(errors::refusal(ErrorCode::NotFound, "recovery operation absent")),
        Some(op) => Ok(op),
    }
}

/// What a command makes of the journal: the next state and the operation's
/// head, or the first refusal.
#[verifier::opaque]
pub open spec fn transition(s: StateView, a: RecoveryAuthorization, mutation: RecoveryMutation) -> Result<
    (StateView, RecoveryRecord),
    Error,
> {
    match mutation {
        RecoveryMutation::Start(request) => start(s, a, request),
        RecoveryMutation::Stop { operation_id, command_id } => match operation(s, operation_id) {
            Err(e) => Err(e),
            Ok(op) => stop(s, op, command_id),
        },
        RecoveryMutation::Prepare {
            operation_id,
            phase_id,
            expected_sequence,
            expected_pending,
            input,
        } => match operation(s, operation_id) {
            Err(e) => Err(e),
            Ok(op) => prepare(s, op, phase_id, expected_sequence, expected_pending, input, a),
        },
        RecoveryMutation::PublishRoute { operation_id, phase_id } => match operation(
            s,
            operation_id,
        ) {
            Err(e) => Err(e),
            Ok(op) => publish(s, op, phase_id, a.admitted_at_ms),
        },
        RecoveryMutation::Resolve { operation_id, phase_id, outcome } => match operation(
            s,
            operation_id,
        ) {
            Err(e) => Err(e),
            Ok(op) => resolve(s, op, phase_id, outcome),
        },
    }
}

/// What the audit trail calls a command.
pub open spec fn action_name(mutation: RecoveryMutation) -> &'static str {
    match mutation {
        RecoveryMutation::Start(_) => "recovery_start",
        RecoveryMutation::Stop { operation_id, command_id } => "recovery_stop",
        RecoveryMutation::Prepare {
            operation_id,
            phase_id,
            expected_sequence,
            expected_pending,
            input,
        } => "recovery_phase_prepare",
        RecoveryMutation::Resolve { operation_id, phase_id, outcome } => "recovery_phase_resolve",
        RecoveryMutation::PublishRoute { operation_id, phase_id } => "recovery_route_publish",
    }
}

/// The revision of an applied entry.
pub open spec fn entry_revision(base: u64, index: u64, previous: u64) -> Result<u64, Error> {
    if base + index > u64::MAX {
        Err(rules::no("recovery revision exhausted"))
    } else if base + index <= previous {
        Err(rules::no("recovery applied position did not advance"))
    } else {
        Ok((base + index) as u64)
    }
}

pub open spec fn at_revision(s: StateView, revision: u64) -> StateView {
    StateView { revision, ..s }
}

/// What an applied command leaves: its transition, or nothing but the revision.
pub open spec fn applied(
    s: StateView,
    revision: u64,
    a: RecoveryAuthorization,
    mutation: RecoveryMutation,
) -> Result<(StateView, RecoveryRecord), Error> {
    let next = at_revision(s, revision);
    match authorized(next, a) {
        Err(e) => Err(e),
        Ok(()) => transition(next, a, mutation),
    }
}

// ---------------------------------------------------------------------
// The next activation dispatch
// ---------------------------------------------------------------------

/// The current intent, while its credential lasts.
#[verifier::opaque]
pub open spec fn live_intent(s: StateView, op: RecoveryRecord, now: u64) -> Result<
    Option<LifecycleIntent>,
    Error,
> {
    match op.current_intent {
        None => Ok(None),
        Some(id) => match rules::intent(s, op, id) {
            Err(e) => Err(e),
            Ok(current) => if now < current.original_credential_expires_at_ms {
                Ok(Some(current))
            } else {
                Ok(None)
            },
        },
    }
}

/// The first voter that has not confirmed.
#[verifier::opaque]
pub open spec fn first_unconfirmed(voters: Voters) -> Option<u64> {
    if voters.first.confirmation is None {
        Some(voters.first.node_id)
    } else if voters.second.confirmation is None {
        Some(voters.second.node_id)
    } else if voters.third.confirmation is None {
        Some(voters.third.node_id)
    } else {
        None
    }
}

/// What a started voter is asked: to confirm what another has activated, or to
/// activate first.
#[verifier::opaque]
pub open spec fn started_step(
    s: StateView,
    op: RecoveryRecord,
    quorum: QuorumInput,
    issuer_command_id: u128,
) -> Result<(u64, TargetStep), Error> {
    match activation_rules::local_proof(s, op) {
        Err(e) => Err(e),
        Ok(None) => Ok(
            (
                op.voters.first.node_id,
                TargetStep::Activate { quorum: Held::of(quorum), issuer_command_id },
            ),
        ),
        Ok(Some(signed)) => match first_unconfirmed(op.voters) {
            None => Err(rules::no("unfinished activation confirmation absent")),
            Some(node) => Ok((node, TargetStep::ConfirmActivation(Held::of(signed)))),
        },
    }
}

/// The next voter to ask, and what it is asked.
#[verifier::opaque]
pub open spec fn confirm_step(s: StateView, op: RecoveryRecord, current: LifecycleIntent) -> Result<
    (u64, TargetStep),
    Error,
> {
    match rules::quorum_input(s, op) {
        Err(e) => Err(e),
        Ok(quorum) => match activation_rules::winner(s, op) {
            Err(e) => Err(e),
            Ok(winner) => match receiver_rules::first_unstarted(
                s,
                op,
                current.request.command_id,
            ) {
                Err(e) => Err(e),
                Ok(Some(node)) => Ok(
                    (
                        node,
                        TargetStep::StartActivation {
                            quorum: Held::of(quorum),
                            issuer_command_id: winner.command.command_id,
                        },
                    ),
                ),
                Ok(None) => started_step(s, op, quorum, winner.command.command_id),
            },
        },
    }
}

#[verifier::opaque]
pub open spec fn live_dispatch(
    s: StateView,
    op: RecoveryRecord,
    id: u128,
    current: LifecycleIntent,
    now: u64,
    expires: u64,
) -> Result<Dispatch, Error> {
    if op.phase == RecoveryPhase::Activate {
        match activation_rules::action_for_intent(s, op, current) {
            Err(e) => Err(e),
            Ok(action) => activation_rules::authority_command(
                op,
                id,
                action,
                now,
                receiver_rules::least(expires, current.original_credential_expires_at_ms),
            ),
        }
    } else if op.phase != RecoveryPhase::Confirm {
        Err(rules::no("activation planner phase differs"))
    } else {
        match confirm_step(s, op, current) {
            Err(e) => Err(e),
            Ok((node, step)) => receiver_rules::dispatched(
                op,
                current,
                node,
                step,
                now,
                expires,
                "activation dispatch deadline overflow",
            ),
        }
    }
}

/// What activation dispatches next.
#[verifier::opaque]
pub open spec fn next_dispatch(s: StateView, op: RecoveryRecord, id: u128, now: u64, expires: u64) -> Result<
    Dispatch,
    Error,
> {
    if op.phase == RecoveryPhase::StopActivation {
        match activation_rules::stop_action(s, op) {
            Err(e) => Err(e),
            Ok(action) => activation_rules::authority_command(op, id, action, now, expires),
        }
    } else {
        match live_intent(s, op, now) {
            Err(e) => Err(e),
            Ok(None) => match expected_intent(
                s,
                op,
                id,
                s.policy_epoch,
                LifecyclePhase::Activate,
                true,
            ) {
                Err(e) => Err(e),
                Ok(request) => Ok(Dispatch::ControlIntent(Held::of(request))),
            },
            Ok(Some(current)) => live_dispatch(s, op, id, current, now, expires),
        }
    }
}

} // verus!
