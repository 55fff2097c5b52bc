//! What resolves a prepared phase. Every outcome is held to the exact dispatch
//! that it answers and to the proofs that it carries.
use vstd::prelude::*;

use crate::digest::Digest;
use crate::errors::{conflict, error, Error, ErrorCode};
use crate::held::hold;
use crate::journal_rules;
use crate::model::{
    ActivateCommand, AuthorityAction, AuthorityCommand, AuthorityOutcome, CompletionInput,
    Dispatch, DispatchOutcome, InspectionInput, IntentRequest, LifecycleIntent, PhaseRecord,
    QuorumInput, RecoveryPhase, RecoveryRecord, ReplicaInput, RouteChange, SignedActivation,
    SignedCleanup, SignedReceipt, State, StopReference, TargetOutcome, TargetRequest,
    TargetResponse, TargetStep,
};
use crate::recovery_activation::{
    command_of, next_epoch, receipt_identity, same_activation, validate_local_proof,
    validate_original,
};
use crate::recovery_activation;
use crate::recovery_attempts::completion_input;
use crate::recovery_completion::{inspection_input, validate_proof};
use crate::recovery_completion;
use crate::recovery_lookup::{dispatch_limit, origin, partition, phase, retained_intent};
use crate::recovery_outcomes::{
    activated_by, completed_by, initialized_by, inspected_by, materialized_by, started_by,
    stopped_by,
};
use crate::recovery_quorum::{materialization_holds, quorum_input};
use crate::recovery_receiver::{is_step, validate_link, validate_resolver_link};
use crate::recovery_receiver;
use crate::recovery_route;
use crate::recovery_source::validate_retirement;

verus! {

fn issuer_effect(operation: &RecoveryRecord, action: &AuthorityAction, outcome: &AuthorityOutcome) -> (b:
    bool)
    ensures
        b == journal_rules::issuer_effect(*operation, *action, *outcome),
{
    proof {
        reveal(journal_rules::issuer_effect);
    }
    match action {
        AuthorityAction::PrepareTarget {
            source_incarnation: _,
            source_epoch: _,
            target,
        } => match outcome {
            AuthorityOutcome::TargetPrepared { target: actual, authority_epoch } => *target
                == *actual && Some(*authority_epoch) == next_epoch(operation),
            _ => false,
        },
        AuthorityAction::StopTarget { source_incarnation, source_epoch, target } => *outcome
            == AuthorityOutcome::TargetStopped {
            source_incarnation: *source_incarnation,
            source_epoch: *source_epoch,
            target: *target,
        },
        AuthorityAction::Fence { incarnation, authority_epoch } => *outcome
            == AuthorityOutcome::Fenced {
            incarnation: *incarnation,
            authority_epoch: *authority_epoch,
        },
        _ => false,
    }
}

fn issuer_answer(
    state: &State,
    operation: &RecoveryRecord,
    expected: &AuthorityCommand,
    signed: &SignedReceipt,
) -> (r: Result<(), Error>)
    ensures
        r == journal_rules::issuer_answer(state@, *operation, *expected, *signed),
{
    proof {
        reveal(journal_rules::issuer_answer);
    }
    match &expected.action {
        AuthorityAction::ActivateCommitted(activation) => validate_original(
            state,
            operation,
            &ActivateCommand {
                tenant: expected.tenant,
                command_id: expected.command_id,
                expected_policy_epoch: expected.expected_policy_epoch,
                not_after_ms: expected.not_after_ms,
                activation: activation.open(),
            },
            &signed.receipt,
        ),
        AuthorityAction::StopActivation { original } => recovery_activation::validate_resolution(
            state,
            operation,
            &command_of(&original.open()),
            signed,
        ),
        _ => {
            if signed.receipt.admitted_at_ms >= expected.not_after_ms {
                return Err(conflict("issuer effect exceeds original phase deadline"));
            }
            if !issuer_effect(operation, &expected.action, &signed.receipt.outcome) {
                return Err(conflict("issuer returned another recovery outcome"));
            }
            Ok(())
        },
    }
}

fn authority_outcome(
    state: &State,
    operation: &RecoveryRecord,
    expected: &AuthorityCommand,
    signed: &SignedReceipt,
) -> (r: Result<(), Error>)
    ensures
        r == journal_rules::authority_outcome(state@, *operation, *expected, *signed),
{
    proof {
        reveal(journal_rules::authority_outcome);
    }
    let issuer = partition(state, operation)?;
    if !signed.authentic {
        return Err(error(ErrorCode::Forbidden, "invalid signed recovery issuer outcome"));
    }
    receipt_identity(&issuer, expected, &signed.receipt)?;
    match signed.receipt.outcome {
        AuthorityOutcome::Rejected => Ok(()),
        _ => issuer_answer(state, operation, expected, signed),
    }
}

fn authority_resolution(
    state: &State,
    operation: &RecoveryRecord,
    prepared: &PhaseRecord,
    expected: &AuthorityCommand,
    signed: &SignedReceipt,
) -> (r: Result<(), Error>)
    ensures
        r == journal_rules::authority_resolution(
            state@,
            *operation,
            *prepared,
            *expected,
            *signed,
        ),
{
    proof {
        reveal(journal_rules::authority_resolution);
    }
    recovery_activation::validate_resolution(state, operation, expected, signed)?;
    let stop = phase(state, operation, signed.receipt.command.command_id)?;
    if stop.sequence <= prepared.sequence || stop.input != Dispatch::Authority(
        hold(signed.receipt.command),
    ) {
        return Err(conflict("activation resolution lacks its permanent ordered stop phase"));
    }
    Ok(())
}

fn control_outcome(
    state: &State,
    operation: &RecoveryRecord,
    prepared: &PhaseRecord,
    request: &IntentRequest,
    actual: &LifecycleIntent,
) -> (r: Result<(), Error>)
    ensures
        r == journal_rules::control_outcome(state@, *operation, *prepared, *request, *actual),
{
    proof {
        reveal(journal_rules::control_outcome);
    }
    if actual.request != *request || retained_intent(state, request.command_id) != Some(*actual) {
        return Err(conflict("Control outcome is not the exact replicated phase commitment"));
    }
    let limit: u64 = dispatch_limit(operation, prepared)?;
    if actual.original_credential_expires_at_ms > limit || actual.accepted_at_ms
        < prepared.admitted_at_ms || actual.revision < prepared.prepared_revision {
        return Err(conflict("Control outcome is not the exact replicated phase commitment"));
    }
    Ok(())
}

fn materialized_outcome(
    state: &State,
    operation: &RecoveryRecord,
    node: u64,
    outcome: &TargetOutcome,
) -> (r: Result<(), Error>)
    ensures
        r == journal_rules::materialized_outcome(state@, *operation, node, *outcome),
{
    proof {
        reveal(journal_rules::materialized_outcome);
    }
    let proof_of = match materialized_by(outcome) {
        None => return Err(conflict("target acknowledgement operation differs")),
        Some(signed) => signed,
    };
    let origin = origin(state, operation)?;
    if !materialization_holds(&origin, node, &proof_of) {
        return Err(
            error(
                ErrorCode::Forbidden,
                "target materialization signature or immutable origin differs",
            ),
        );
    }
    Ok(())
}

fn quorum_outcome(
    state: &State,
    operation: &RecoveryRecord,
    input: &QuorumInput,
    acknowledged: Option<Digest>,
) -> (r: Result<(), Error>)
    ensures
        r == journal_rules::quorum_outcome(state@, *operation, *input, acknowledged),
{
    proof {
        reveal(journal_rules::quorum_outcome);
    }
    let origin_sha256 = match acknowledged {
        None => return Err(conflict("target acknowledgement operation differs")),
        Some(origin_sha256) => origin_sha256,
    };
    if origin_sha256 != input.origin_sha256 {
        return Err(conflict("native target startup origin differs"));
    }
    let expected = quorum_input(state, operation)?;
    if *input != expected {
        return Err(conflict("native target startup origin differs"));
    }
    Ok(())
}

fn completion_start_outcome(
    state: &State,
    operation: &RecoveryRecord,
    input: &CompletionInput,
    acknowledged: Option<Digest>,
) -> (r: Result<(), Error>)
    ensures
        r == journal_rules::completion_start_outcome(state@, *operation, *input, acknowledged),
{
    proof {
        reveal(journal_rules::completion_start_outcome);
    }
    let origin_sha256 = match acknowledged {
        None => return Err(conflict("target acknowledgement operation differs")),
        Some(origin_sha256) => origin_sha256,
    };
    let expected = completion_input(state, operation)?;
    if *input != expected || origin_sha256 != input.quorum.origin_sha256 {
        return Err(conflict("completion startup origin differs"));
    }
    Ok(())
}

fn inspection_start_outcome(
    state: &State,
    operation: &RecoveryRecord,
    input: &InspectionInput,
    acknowledged: Option<Digest>,
) -> (r: Result<(), Error>)
    ensures
        r == journal_rules::inspection_start_outcome(state@, *operation, *input, acknowledged),
{
    proof {
        reveal(journal_rules::inspection_start_outcome);
    }
    let origin_sha256 = match acknowledged {
        None => return Err(conflict("target acknowledgement operation differs")),
        Some(origin_sha256) => origin_sha256,
    };
    let expected = inspection_input(state, operation)?;
    if *input != expected || origin_sha256 != input.quorum.origin_sha256 {
        return Err(conflict("inspection startup origin differs"));
    }
    Ok(())
}

fn start_outcome(
    state: &State,
    operation: &RecoveryRecord,
    input: &ReplicaInput,
    outcome: &TargetOutcome,
) -> (r: Result<(), Error>)
    ensures
        r == journal_rules::start_outcome(state@, *operation, *input, *outcome),
{
    proof {
        reveal(journal_rules::start_outcome);
    }
    match input {
        ReplicaInput::Quorum(input) => quorum_outcome(
            state,
            operation,
            &input.open(),
            started_by(outcome),
        ),
        ReplicaInput::Completion(input) => completion_start_outcome(
            state,
            operation,
            &input.open(),
            started_by(outcome),
        ),
        ReplicaInput::Inspection(input) => inspection_start_outcome(
            state,
            operation,
            &input.open(),
            started_by(outcome),
        ),
        _ => Err(conflict("target acknowledgement operation differs")),
    }
}

fn inspected_outcome(
    state: &State,
    operation: &RecoveryRecord,
    current: &LifecycleIntent,
    node: u64,
    input: &InspectionInput,
    outcome: &TargetOutcome,
) -> (r: Result<(), Error>)
    ensures
        r == journal_rules::inspected_outcome(
            state@,
            *operation,
            *current,
            node,
            *input,
            *outcome,
        ),
{
    proof {
        reveal(journal_rules::inspected_outcome);
    }
    let signed = match inspected_by(outcome) {
        None => return Err(conflict("target acknowledgement operation differs")),
        Some(signed) => signed,
    };
    let expected = inspection_input(state, operation)?;
    if *input != expected {
        return Err(conflict("inspection acknowledgement input differs"));
    }
    validate_proof(state, operation, current, node, &signed)
}

fn completed_outcome(
    state: &State,
    operation: &RecoveryRecord,
    current: &LifecycleIntent,
    node: u64,
    not_after_ms: u64,
    input: &CompletionInput,
    outcome: &TargetOutcome,
) -> (r: Result<(), Error>)
    ensures
        r == journal_rules::completed_outcome(
            state@,
            *operation,
            *current,
            node,
            not_after_ms,
            *input,
            *outcome,
        ),
{
    proof {
        reveal(journal_rules::completed_outcome);
    }
    let signed = match completed_by(outcome) {
        None => return Err(conflict("target acknowledgement operation differs")),
        Some(signed) => signed,
    };
    if signed.fact.completion_intent != *current || signed.fact.admitted_at_ms >= not_after_ms
        || signed.observer_node_id != node {
        return Err(conflict("target completion differs from exact retained phase or voter"));
    }
    let expected = completion_input(state, operation)?;
    if *input != expected || signed.fact.predecessor != input.predecessor {
        return Err(conflict("target completion differs from exact retained phase or voter"));
    }
    origin(state, operation)?;
    if !signed.authentic {
        return Err(
            error(ErrorCode::Forbidden, "target completion signature or quorum differs"),
        );
    }
    Ok(())
}

fn activated_outcome(
    state: &State,
    operation: &RecoveryRecord,
    node: u64,
    expected: Option<SignedActivation>,
    outcome: &TargetOutcome,
) -> (r: Result<(), Error>)
    ensures
        r == journal_rules::activated_outcome(state@, *operation, node, expected, *outcome),
{
    proof {
        reveal(journal_rules::activated_outcome);
    }
    let signed = match activated_by(outcome) {
        None => return Err(conflict("target acknowledgement operation differs")),
        Some(signed) => signed,
    };
    validate_local_proof(state, operation, node, &signed, true)?;
    match expected {
        None => Ok(()),
        Some(expected) => if same_activation(&signed, &expected) {
            Ok(())
        } else {
            Err(conflict("target confirmation changed exact committed activation"))
        },
    }
}

fn cleanup_holds(
    current: &LifecycleIntent,
    node: u64,
    reference: &StopReference,
    signed: &SignedCleanup,
) -> (b: bool)
    ensures
        b == journal_rules::cleanup_holds(*current, node, *reference, *signed),
{
    signed.authentic && signed.node_id == node && signed.reference == *reference && signed.intent
        == *current
}

fn stopped_outcome(
    state: &State,
    operation: &RecoveryRecord,
    current: &LifecycleIntent,
    node: u64,
    reference: &StopReference,
    outcome: &TargetOutcome,
) -> (r: Result<(), Error>)
    ensures
        r == journal_rules::stopped_outcome(
            state@,
            *operation,
            *current,
            node,
            *reference,
            *outcome,
        ),
{
    proof {
        reveal(journal_rules::stopped_outcome);
    }
    let signed = match stopped_by(outcome) {
        None => return Err(conflict("target acknowledgement operation differs")),
        Some(signed) => signed,
    };
    partition(state, operation)?;
    if !cleanup_holds(current, node, reference, &signed) {
        return Err(
            error(
                ErrorCode::Forbidden,
                "target cleanup lacks exact issuer drain and physical cleanup evidence",
            ),
        );
    }
    Ok(())
}

fn step_outcome(
    state: &State,
    operation: &RecoveryRecord,
    current: &LifecycleIntent,
    node: u64,
    request: &TargetRequest,
    outcome: &TargetOutcome,
) -> (r: Result<(), Error>)
    ensures
        r == journal_rules::step_outcome(
            state@,
            *operation,
            *current,
            node,
            *request,
            *outcome,
        ),
{
    proof {
        reveal(journal_rules::step_outcome);
    }
    match &request.step {
        TargetStep::Materialize(_) => materialized_outcome(state, operation, node, outcome),
        TargetStep::ResumeMaterialization(_) => materialized_outcome(
            state,
            operation,
            node,
            outcome,
        ),
        TargetStep::Start(input) => start_outcome(state, operation, input, outcome),
        TargetStep::StartActivation { quorum, issuer_command_id: _ } => quorum_outcome(
            state,
            operation,
            &quorum.open(),
            started_by(outcome),
        ),
        TargetStep::Initialize(input) => quorum_outcome(
            state,
            operation,
            &input.open(),
            initialized_by(outcome),
        ),
        TargetStep::Inspect(input) => inspected_outcome(
            state,
            operation,
            current,
            node,
            &input.open(),
            outcome,
        ),
        TargetStep::Complete(input) => completed_outcome(
            state,
            operation,
            current,
            node,
            request.not_after_ms,
            &input.open(),
            outcome,
        ),
        TargetStep::Activate { quorum: _, issuer_command_id: _ } => activated_outcome(
            state,
            operation,
            node,
            None,
            outcome,
        ),
        TargetStep::ConfirmActivation(expected) => activated_outcome(
            state,
            operation,
            node,
            Some(expected.open()),
            outcome,
        ),
        TargetStep::Stop(reference) => stopped_outcome(
            state,
            operation,
            current,
            node,
            reference,
            outcome,
        ),
        _ => Err(conflict("target acknowledgement operation differs")),
    }
}

fn target_outcome(
    state: &State,
    operation: &RecoveryRecord,
    prepared: &PhaseRecord,
    node: u64,
    request: &TargetRequest,
    response: &TargetResponse,
) -> (r: Result<(), Error>)
    ensures
        r == journal_rules::target_outcome(
            state@,
            *operation,
            *prepared,
            node,
            *request,
            *response,
        ),
{
    proof {
        reveal(journal_rules::target_outcome);
    }
    if response.command_id != request.command_id || response.node_id != node {
        return Err(conflict("target acknowledgement route differs"));
    }
    let current = match retained_intent(state, request.command_id) {
        None => return Err(conflict("target acknowledgement Control phase absent")),
        Some(current) => current,
    };
    if prepared.phase == RecoveryPhase::Complete && is_step(&request.step) {
        return recovery_receiver::validate_outcome(state, operation, prepared, response);
    }
    step_outcome(state, operation, &current, node, request, &response.outcome)
}

fn superseded_by(
    state: &State,
    operation: &RecoveryRecord,
    prepared: &PhaseRecord,
    replacement_phase: u128,
) -> (r: Result<(), Error>)
    ensures
        r == journal_rules::superseded_by(state@, *operation, *prepared, replacement_phase),
{
    proof {
        reveal(journal_rules::superseded_by);
    }
    let replacement = phase(state, operation, replacement_phase)?;
    if replacement.previous_phase != Some(prepared.phase_id) || Some(replacement.prepared_revision)
        != prepared.resolved_revision {
        return Err(conflict("local publication supersession lacks its exact fresh phase"));
    }
    let limit: u64 = dispatch_limit(operation, prepared)?;
    let route: bool = match replacement.input {
        Dispatch::PublishRoute(_) => true,
        _ => false,
    };
    if replacement.admitted_at_ms < limit || !route {
        return Err(conflict("local publication supersession lacks its exact fresh phase"));
    }
    Ok(())
}

fn publication_outcome(
    state: &State,
    operation: &RecoveryRecord,
    prepared: &PhaseRecord,
    input: &RouteChange,
    outcome: &DispatchOutcome,
) -> (r: Result<(), Error>)
    ensures
        r == journal_rules::publication_outcome(
            state@,
            *operation,
            *prepared,
            *input,
            *outcome,
        ),
{
    proof {
        reveal(journal_rules::publication_outcome);
    }
    recovery_route::validate_outcome(prepared, input, outcome)?;
    match outcome {
        DispatchOutcome::RouteSuperseded { replacement_phase } => superseded_by(
            state,
            operation,
            prepared,
            *replacement_phase,
        ),
        _ => Ok(()),
    }
}

fn authority_dispatch_outcome(
    state: &State,
    operation: &RecoveryRecord,
    prepared: &PhaseRecord,
    expected: &AuthorityCommand,
    outcome: &DispatchOutcome,
) -> (r: Result<(), Error>)
    ensures
        r == journal_rules::authority_dispatch_outcome(
            state@,
            *operation,
            *prepared,
            *expected,
            *outcome,
        ),
{
    proof {
        reveal(journal_rules::authority_dispatch_outcome);
    }
    match outcome {
        DispatchOutcome::Authority(signed) => authority_outcome(
            state,
            operation,
            expected,
            &signed.open(),
        ),
        DispatchOutcome::AuthorityResolution(signed) => authority_resolution(
            state,
            operation,
            prepared,
            expected,
            &signed.open(),
        ),
        _ => Err(conflict("recovery outcome kind differs from durable dispatch")),
    }
}

fn target_dispatch_outcome(
    state: &State,
    operation: &RecoveryRecord,
    prepared: &PhaseRecord,
    node: u64,
    request: &TargetRequest,
    outcome: &DispatchOutcome,
) -> (r: Result<(), Error>)
    ensures
        r == journal_rules::target_dispatch_outcome(
            state@,
            *operation,
            *prepared,
            node,
            *request,
            *outcome,
        ),
{
    proof {
        reveal(journal_rules::target_dispatch_outcome);
    }
    match outcome {
        DispatchOutcome::CompletionResolution {
            inspection_phase,
        } => recovery_completion::validate_resolution(
            state,
            operation,
            prepared,
            *inspection_phase,
        ),
        DispatchOutcome::CompletionTerminal { resolution_phase } => validate_link(
            state,
            operation,
            prepared,
            *resolution_phase,
            true,
        ),
        DispatchOutcome::PreparationObserved { status_phase } => validate_link(
            state,
            operation,
            prepared,
            *status_phase,
            false,
        ),
        DispatchOutcome::TerminalObserved { status_phase } => validate_resolver_link(
            state,
            operation,
            prepared,
            *status_phase,
        ),
        DispatchOutcome::Target(response) => target_outcome(
            state,
            operation,
            prepared,
            node,
            request,
            &response.open(),
        ),
        _ => Err(conflict("recovery outcome kind differs from durable dispatch")),
    }
}

/// Whether the outcome resolves the prepared phase.
pub fn validate_outcome(
    state: &State,
    operation: &RecoveryRecord,
    prepared: &PhaseRecord,
    outcome: &DispatchOutcome,
) -> (r: Result<(), Error>)
    ensures
        r == journal_rules::outcome_admitted(state@, *operation, *prepared, *outcome),
{
    proof {
        reveal(journal_rules::outcome_admitted);
    }
    match &prepared.input {
        Dispatch::Authority(expected) => authority_dispatch_outcome(
            state,
            operation,
            prepared,
            &expected.open(),
            outcome,
        ),
        Dispatch::ControlIntent(request) => match outcome {
            DispatchOutcome::ControlIntent(actual) => control_outcome(
                state,
                operation,
                prepared,
                &request.open(),
                &actual.open(),
            ),
            _ => Err(conflict("recovery outcome kind differs from durable dispatch")),
        },
        Dispatch::Target { node_id, request } => target_dispatch_outcome(
            state,
            operation,
            prepared,
            *node_id,
            &request.open(),
            outcome,
        ),
        Dispatch::PublishRoute(input) => publication_outcome(
            state,
            operation,
            prepared,
            input,
            outcome,
        ),
        Dispatch::RetireSource(_) => match outcome {
            DispatchOutcome::SourceRetired(receipt) => validate_retirement(operation, receipt),
            _ => Err(conflict("recovery outcome kind differs from durable dispatch")),
        },
    }
}

} // verus!
