//! What the recovery journal admits for dispatch. Every remote effect has an
//! exact durable phase before it is sent.
use vstd::prelude::*;

use crate::digest::{Digest, Name};
use crate::encoding::{
    labelled_digest, ACTIVATION, ATTEMPT_STATUS, COMPLETION, INSPECTION, QUORUM, RESOLUTION,
    RESUME, STOP_LOCAL, TERMINAL_STATUS,
};
use crate::errors::{conflict, error, Error, ErrorCode};
use crate::journal_rules;
use crate::model::{
    AuthorityAction, AuthorityCommand, AuthorityOutcome, Dispatch, DispatchOutcome, IntentRequest,
    LifecycleIntent, LifecyclePhase, RecoveryAuthorization, RecoveryPhase, RecoveryRecord,
    ResumeOrigin, RetireSourceRequest, RouteChange, State, StopReference, TargetOrigin,
    TargetRequest, TargetStep, Voter,
};
use crate::recovery_activation::{
    activation_input, current_action, require_negative_attempt, stop_action,
};
use crate::recovery_activation;
use crate::recovery_attempts::{
    completion_input, fresh_phase, next_input, resolution_input, status_input,
    terminal_status_input,
};
use crate::recovery_completion::{inspection_input, is_inspection};
use crate::recovery_completion;
use crate::recovery_lookup::{intent_of, origin, phase, phase_of, summary, voter};
use crate::recovery_quorum::quorum_input;
use crate::recovery_receiver::{is_step, validate_complete_dispatch, validate_quorum_step};
use crate::recovery_receiver;
use crate::recovery_route;
use crate::recovery_source::{issuer_action, retirement_request};

verus! {

pub fn is_control(state: &State) -> (b: bool)
    ensures
        b == journal_rules::is_control(state@),
{
    state.tenant == Name::of("__kasumi_control")
}

/// Whether a command's authority still holds where it is applied, and its request is
/// of the form of one.
pub fn authorize(state: &State, authorization: &RecoveryAuthorization) -> (r: Result<(), Error>)
    ensures
        r == journal_rules::authorized(state@, *authorization),
{
    proof {
        reveal(journal_rules::authorized);
    }
    if !is_control(state) || authorization.tenant != state.tenant {
        return Err(
            error(ErrorCode::Forbidden, "recovery requires installed Control authority"),
        );
    }
    match authorization.control_refusal {
        Some(refusal) => return Err(refusal),
        None => {},
    }
    match authorization.admin_refusal {
        Some(refusal) => return Err(refusal),
        None => {},
    }
    let control = match &state.lifecycle {
        None => return Err(conflict("recovery needs installed lifecycle Control")),
        Some(control) => control,
    };
    if control.retired || control.pending_change.is_some() || state.retired || state.suspended
        || authorization.policy_epoch != state.policy_epoch || authorization.admitted_at_ms
        >= authorization.expires_at_ms || authorization.credential_expires_at_ms != Some(
        authorization.expires_at_ms,
    ) {
        return Err(
            error(
                ErrorCode::Unauthorized,
                "recovery admission authority or original deadline differs",
            ),
        );
    }
    match authorization.request_refusal {
        Some(refusal) => Err(refusal),
        None => Ok(()),
    }
}

pub fn stop_reference(state: &State, operation: &RecoveryRecord) -> (r: Result<StopReference, Error>)
    ensures
        r == journal_rules::stop_reference(state@, *operation),
{
    proof {
        reveal(journal_rules::stop_reference);
    }
    let retained = phase_of(
        state,
        operation,
        operation.target_stop,
        "permanent issuer target stop absent",
    )?;
    match retained.outcome {
        Some(DispatchOutcome::Authority(signed)) => {
            let signed = signed.open();
            match signed.receipt.outcome {
                AuthorityOutcome::TargetStopped { .. } => Ok(
                    StopReference {
                        tenant: operation.request.tenant,
                        command_id: signed.receipt.command.command_id,
                        receipt_digest: signed.receipt.sha256,
                    },
                ),
                _ => Err(conflict("issuer did not stop the target")),
            }
        },
        _ => Err(conflict("issuer target stop outcome absent")),
    }
}

fn attempt_phase_input(
    state: &State,
    operation: &RecoveryRecord,
    phase: LifecyclePhase,
    admission: bool,
) -> (r: Result<Digest, Error>)
    ensures
        r == journal_rules::attempt_phase_input(state@, *operation, phase, admission),
{
    proof {
        reveal(journal_rules::attempt_phase_input);
    }
    match phase {
        LifecyclePhase::Complete => {
            let input = if admission {
                next_input(state, operation)?
            } else {
                completion_input(state, operation)?
            };
            Ok(labelled_digest(COMPLETION, &input))
        },
        LifecyclePhase::InspectCompletionAttempt => {
            let input = status_input(state, operation)?;
            Ok(labelled_digest(ATTEMPT_STATUS, &input))
        },
        LifecyclePhase::ResolveComplete => {
            let input = resolution_input(state, operation)?;
            Ok(labelled_digest(RESOLUTION, &input))
        },
        LifecyclePhase::InspectCompletionResolution => {
            let input = terminal_status_input(state, operation)?;
            Ok(labelled_digest(TERMINAL_STATUS, &input))
        },
        _ => {
            let input = inspection_input(state, operation)?;
            Ok(labelled_digest(INSPECTION, &input))
        },
    }
}

fn phase_input(
    state: &State,
    operation: &RecoveryRecord,
    phase: LifecyclePhase,
    admission: bool,
) -> (r: Result<(Digest, Option<ResumeOrigin>), Error>)
    ensures
        r == journal_rules::phase_input(state@, *operation, phase, admission),
{
    proof {
        reveal(journal_rules::phase_input);
    }
    match phase {
        LifecyclePhase::Materialize => Ok((operation.request.materialization.sha256, None)),
        LifecyclePhase::ResumeMaterialize => {
            let origin = origin(state, operation)?;
            Ok((labelled_digest(RESUME, &origin), Some(summary(&origin))))
        },
        LifecyclePhase::Initialize => {
            let input = quorum_input(state, operation)?;
            Ok((labelled_digest(QUORUM, &input), None))
        },
        LifecyclePhase::MaintainTarget => Err(
            conflict("target terminal coordinator phase is not installed"),
        ),
        LifecyclePhase::Activate => {
            let input = activation_input(state, operation)?;
            Ok((labelled_digest(ACTIVATION, &input), None))
        },
        LifecyclePhase::StopLocal => {
            let reference = stop_reference(state, operation)?;
            Ok((labelled_digest(STOP_LOCAL, &reference), None))
        },
        _ => {
            let input = attempt_phase_input(state, operation, phase, admission)?;
            Ok((input, None))
        },
    }
}

/// The only intent that the operation may ask Control to commit for the phase:
/// when it is admitted, or as it was retained.
pub fn expected_intent(
    state: &State,
    operation: &RecoveryRecord,
    phase_id: u128,
    policy_epoch: u64,
    phase: LifecyclePhase,
    admission: bool,
) -> (r: Result<IntentRequest, Error>)
    ensures
        r == journal_rules::expected_intent(
            state@,
            *operation,
            phase_id,
            policy_epoch,
            phase,
            admission,
        ),
{
    proof {
        reveal(journal_rules::expected_intent);
    }
    let (phase_input_sha256, resume_origin) = phase_input(state, operation, phase, admission)?;
    let original = &operation.request;
    Ok(
        IntentRequest {
            command_id: phase_id,
            expected_policy_epoch: policy_epoch,
            installation_sha256: original.installation_sha256,
            authority_partition: original.authority_partition,
            tenant: original.tenant,
            source_incarnation: original.source_incarnation,
            source_authority_epoch: original.source_authority_epoch,
            target_incarnation: original.target_incarnation,
            checkpoint: original.checkpoint,
            target_nodes: original.target_nodes,
            phase,
            phase_input_sha256,
            resume_origin,
        },
    )
}

fn expected_action(state: &State, operation: &RecoveryRecord) -> (r: Result<AuthorityAction, Error>)
    ensures
        r == journal_rules::expected_action(state@, *operation),
{
    proof {
        reveal(journal_rules::expected_action);
    }
    match operation.phase {
        RecoveryPhase::Activate => current_action(state, operation),
        RecoveryPhase::StopActivation => stop_action(state, operation),
        _ => issuer_action(operation, operation.phase),
    }
}

fn within_activation_intent(state: &State, operation: &RecoveryRecord, not_after_ms: u64) -> (r:
    Result<(), Error>)
    ensures
        r == journal_rules::within_activation_intent(state@, *operation, not_after_ms),
{
    proof {
        reveal(journal_rules::within_activation_intent);
    }
    if operation.phase != RecoveryPhase::Activate {
        return Ok(());
    }
    let current = intent_of(
        state,
        operation,
        operation.current_intent,
        "activation intent absent",
    )?;
    if not_after_ms > current.original_credential_expires_at_ms {
        return Err(
            conflict("recovery issuer command differs from frozen input or original deadline"),
        );
    }
    Ok(())
}

fn negative_before(state: &State, operation: &RecoveryRecord) -> (r: Result<(), Error>)
    ensures
        r == journal_rules::negative_before(state@, *operation),
{
    proof {
        reveal(journal_rules::negative_before);
    }
    if operation.phase == RecoveryPhase::Activate || operation.phase == RecoveryPhase::StopTarget {
        require_negative_attempt(state, operation)
    } else {
        Ok(())
    }
}

fn authority_input(
    state: &State,
    operation: &RecoveryRecord,
    phase_id: u128,
    command: &AuthorityCommand,
    authorization: &RecoveryAuthorization,
) -> (r: Result<(), Error>)
    ensures
        r == journal_rules::authority_input(
            state@,
            *operation,
            phase_id,
            *command,
            *authorization,
        ),
{
    proof {
        reveal(journal_rules::authority_input);
    }
    negative_before(state, operation)?;
    let action = expected_action(state, operation)?;
    if command.tenant != operation.request.tenant || command.command_id != phase_id
        || command.expected_policy_epoch != operation.request.authority_policy_epoch
        || command.not_after_ms > authorization.expires_at_ms {
        return Err(
            conflict("recovery issuer command differs from frozen input or original deadline"),
        );
    }
    let limit: u64 = match authorization.admitted_at_ms.checked_add(
        operation.request.phase_timeout_ms,
    ) {
        None => return Err(conflict("phase deadline overflow")),
        Some(limit) => limit,
    };
    if command.not_after_ms > limit || command.not_after_ms <= authorization.admitted_at_ms
        || command.action != action {
        return Err(
            conflict("recovery issuer command differs from frozen input or original deadline"),
        );
    }
    within_activation_intent(state, operation, command.not_after_ms)
}

fn next_control_phase(state: &State, operation: &RecoveryRecord) -> (r: Result<
    LifecyclePhase,
    Error,
>)
    ensures
        r == journal_rules::next_control_phase(state@, *operation),
{
    proof {
        reveal(journal_rules::next_control_phase);
    }
    match operation.phase {
        RecoveryPhase::Activate => Ok(LifecyclePhase::Activate),
        RecoveryPhase::Confirm => Ok(LifecyclePhase::Activate),
        RecoveryPhase::Initialize => Ok(LifecyclePhase::Initialize),
        RecoveryPhase::Complete => if operation.completion_intent.is_some() {
            fresh_phase(state, operation)
        } else {
            Ok(LifecyclePhase::Complete)
        },
        RecoveryPhase::Cleanup => Ok(LifecyclePhase::StopLocal),
        _ => if operation.materialization_intent.is_none() {
            Ok(LifecyclePhase::Materialize)
        } else {
            Ok(LifecyclePhase::ResumeMaterialize)
        },
    }
}

fn expired_pending(state: &State, operation: &RecoveryRecord, now: u64) -> (b: bool)
    ensures
        b == journal_rules::expired_pending(state@, *operation, now),
{
    proof {
        reveal(journal_rules::expired_pending);
    }
    match operation.pending_phase {
        None => false,
        Some(id) => match phase(state, operation, id) {
            Err(_) => false,
            Ok(pending) => match pending.input {
                Dispatch::Target { node_id: _, request } => now >= request.open().not_after_ms,
                _ => false,
            },
        },
    }
}

fn current_ended(
    state: &State,
    operation: &RecoveryRecord,
    now: u64,
    absent: &'static str,
    live: &'static str,
) -> (r: Result<(), Error>)
    ensures
        r == journal_rules::current_ended(state@, *operation, now, absent, live),
{
    proof {
        reveal(journal_rules::current_ended);
    }
    let current = intent_of(state, operation, operation.current_intent, absent)?;
    if now < current.original_credential_expires_at_ms && !expired_pending(state, operation, now) {
        return Err(conflict(live));
    }
    Ok(())
}

fn fresh_enough(state: &State, operation: &RecoveryRecord, phase: LifecyclePhase, now: u64) -> (r:
    Result<(), Error>)
    ensures
        r == journal_rules::fresh_enough(state@, *operation, phase, now),
{
    proof {
        reveal(journal_rules::fresh_enough);
    }
    if operation.phase == RecoveryPhase::Complete && phase != LifecyclePhase::Complete {
        current_ended(
            state,
            operation,
            now,
            "current completion phase absent",
            "resolve the live original completion phase before fresh inspection",
        )
    } else if phase == LifecyclePhase::ResumeMaterialize {
        current_ended(
            state,
            operation,
            now,
            "current materialization phase absent",
            "resolve the original live materialization before a fresh phase",
        )
    } else {
        Ok(())
    }
}

fn control_input(
    state: &State,
    operation: &RecoveryRecord,
    phase_id: u128,
    request: &IntentRequest,
    authorization: &RecoveryAuthorization,
) -> (r: Result<(), Error>)
    ensures
        r == journal_rules::control_input(state@, *operation, phase_id, *request, *authorization),
{
    proof {
        reveal(journal_rules::control_input);
    }
    let phase = next_control_phase(state, operation)?;
    fresh_enough(state, operation, phase, authorization.admitted_at_ms)?;
    let expected = expected_intent(
        state,
        operation,
        phase_id,
        authorization.policy_epoch,
        phase,
        true,
    )?;
    if *request != expected {
        return Err(conflict("recovery Control phase differs from its exact frozen origin"));
    }
    Ok(())
}

fn resumes(
    state: &State,
    operation: &RecoveryRecord,
    current: &LifecycleIntent,
    retained: &TargetOrigin,
    message: &'static str,
) -> (r: Result<(), Error>)
    ensures
        r == journal_rules::resumes(state@, *operation, *current, *retained, message),
{
    proof {
        reveal(journal_rules::resumes);
    }
    if current.request.phase != LifecyclePhase::ResumeMaterialize || current.request.resume_origin
        != Some(summary(retained)) {
        return Err(conflict(message));
    }
    let expected = origin(state, operation)?;
    if *retained != expected {
        return Err(conflict(message));
    }
    Ok(())
}

fn stops(
    state: &State,
    operation: &RecoveryRecord,
    current: &LifecycleIntent,
    reference: &StopReference,
    message: &'static str,
) -> (r: Result<(), Error>)
    ensures
        r == journal_rules::stops(state@, *operation, *current, *reference, message),
{
    proof {
        reveal(journal_rules::stops);
    }
    if current.request.phase != LifecyclePhase::StopLocal {
        return Err(conflict(message));
    }
    let expected = stop_reference(state, operation)?;
    if *reference != expected {
        return Err(conflict(message));
    }
    Ok(())
}

pub fn materialize_step(
    state: &State,
    operation: &RecoveryRecord,
    current: &LifecycleIntent,
    step: &TargetStep,
    changed: &'static str,
    resumed: &'static str,
    outside: &'static str,
) -> (r: Result<(), Error>)
    ensures
        r == journal_rules::materialize_step(
            state@,
            *operation,
            *current,
            *step,
            changed,
            resumed,
            outside,
        ),
{
    proof {
        reveal(journal_rules::materialize_step);
    }
    match step {
        TargetStep::Materialize(input) => if *input != operation.request.materialization {
            Err(conflict(changed))
        } else {
            Ok(())
        },
        TargetStep::ResumeMaterialization(retained) => resumes(
            state,
            operation,
            current,
            &retained.open(),
            resumed,
        ),
        _ => Err(conflict(outside)),
    }
}

pub fn cleanup_step(
    state: &State,
    operation: &RecoveryRecord,
    current: &LifecycleIntent,
    step: &TargetStep,
    stopped: &'static str,
    outside: &'static str,
) -> (r: Result<(), Error>)
    ensures
        r == journal_rules::cleanup_step(state@, *operation, *current, *step, stopped, outside),
{
    proof {
        reveal(journal_rules::cleanup_step);
    }
    match step {
        TargetStep::Stop(reference) => stops(state, operation, current, reference, stopped),
        _ => Err(conflict(outside)),
    }
}

/// What a step of the Complete phase is held to.
pub fn complete_step(
    state: &State,
    operation: &RecoveryRecord,
    current: &LifecycleIntent,
    node: u64,
    request: &TargetRequest,
    admission: bool,
) -> (r: Result<(), Error>)
    ensures
        r == journal_rules::complete_step(
            state@,
            *operation,
            *current,
            node,
            *request,
            admission,
        ),
{
    proof {
        reveal(journal_rules::complete_step);
    }
    if is_step(&request.step) {
        return recovery_receiver::validate_step(
            state,
            operation,
            current,
            node,
            request,
            admission,
        );
    }
    if is_inspection(&request.step) {
        return recovery_completion::validate_step(
            state,
            operation,
            current,
            node,
            &request.step,
            admission,
        );
    }
    validate_quorum_step(
        state,
        operation,
        current,
        node,
        &request.step,
        RecoveryPhase::Complete,
        admission,
    )?;
    match request.step {
        TargetStep::Complete(_) => validate_complete_dispatch(state, operation, request),
        _ => Ok(()),
    }
}

fn admitted_target_step(
    state: &State,
    operation: &RecoveryRecord,
    voter: &Voter,
    current: &LifecycleIntent,
    node: u64,
    request: &TargetRequest,
) -> (r: Result<(), Error>)
    ensures
        r == journal_rules::admitted_target_step(
            state@,
            *operation,
            *voter,
            *current,
            node,
            *request,
        ),
{
    proof {
        reveal(journal_rules::admitted_target_step);
    }
    match operation.phase {
        RecoveryPhase::Confirm => recovery_activation::validate_step(
            state,
            operation,
            current,
            node,
            &request.step,
            true,
        ),
        RecoveryPhase::Complete => complete_step(state, operation, current, node, request, true),
        RecoveryPhase::Initialize => validate_quorum_step(
            state,
            operation,
            current,
            node,
            &request.step,
            RecoveryPhase::Initialize,
            true,
        ),
        RecoveryPhase::Materialize => {
            if voter.materialization.is_some() {
                return Err(conflict("native target step is outside the current recovery phase"));
            }
            materialize_step(
                state,
                operation,
                current,
                &request.step,
                "target materialization input changed",
                "target readmission origin changed",
                "native target step is outside the current recovery phase",
            )
        },
        _ => {
            if voter.cleanup.is_some() {
                return Err(conflict("native target step is outside the current recovery phase"));
            }
            cleanup_step(
                state,
                operation,
                current,
                &request.step,
                "target cleanup stop changed",
                "native target step is outside the current recovery phase",
            )
        },
    }
}

fn target_deadline(
    operation: &RecoveryRecord,
    current: &LifecycleIntent,
    request: &TargetRequest,
    authorization: &RecoveryAuthorization,
) -> (r: Result<(), Error>)
    ensures
        r == journal_rules::target_deadline(*operation, *current, *request, *authorization),
{
    proof {
        reveal(journal_rules::target_deadline);
    }
    if request.not_after_ms <= authorization.admitted_at_ms || request.not_after_ms
        > authorization.expires_at_ms {
        return Err(conflict("native target dispatch differs from current original phase"));
    }
    let limit: u64 = match authorization.admitted_at_ms.checked_add(
        operation.request.phase_timeout_ms,
    ) {
        None => return Err(conflict("phase deadline overflow")),
        Some(limit) => limit,
    };
    if request.not_after_ms > limit || request.not_after_ms
        > current.original_credential_expires_at_ms || authorization.admitted_at_ms
        >= current.original_credential_expires_at_ms || request.command_id
        != current.request.command_id || request.tenant != operation.request.tenant {
        return Err(conflict("native target dispatch differs from current original phase"));
    }
    Ok(())
}

fn target_input(
    state: &State,
    operation: &RecoveryRecord,
    node: u64,
    request: &TargetRequest,
    authorization: &RecoveryAuthorization,
) -> (r: Result<(), Error>)
    ensures
        r == journal_rules::target_input(state@, *operation, node, *request, *authorization),
{
    proof {
        reveal(journal_rules::target_input);
    }
    let voter = match voter(&operation.voters, node) {
        None => return Err(conflict("target is outside the exact recovery voters")),
        Some(voter) => voter,
    };
    let current = intent_of(
        state,
        operation,
        operation.current_intent,
        "native target needs a committed Control phase",
    )?;
    target_deadline(operation, &current, request, authorization)?;
    admitted_target_step(state, operation, &voter, &current, node, request)
}

fn publication_input(state: &State, operation: &RecoveryRecord, input: &RouteChange) -> (r: Result<
    (),
    Error,
>)
    ensures
        r == journal_rules::publication_input(state@, *operation, *input),
{
    proof {
        reveal(journal_rules::publication_input);
    }
    recovery_route::validate_input(operation, input)?;
    let expected = recovery_route::next_input(state, operation)?;
    if *input != expected {
        return Err(conflict("route publication compare-and-set input changed"));
    }
    Ok(())
}

fn retirement_input(
    operation: &RecoveryRecord,
    request: &RetireSourceRequest,
    authorization: &RecoveryAuthorization,
) -> (r: Result<(), Error>)
    ensures
        r == journal_rules::retirement_input(*operation, *request, *authorization),
{
    proof {
        reveal(journal_rules::retirement_input);
    }
    let expected = retirement_request(operation)?;
    if *request != expected || request.not_after_ms <= authorization.admitted_at_ms
        || request.not_after_ms > authorization.expires_at_ms {
        return Err(conflict("planned retirement input or original phase deadline differs"));
    }
    let limit: u64 = match authorization.admitted_at_ms.checked_add(
        operation.request.phase_timeout_ms,
    ) {
        None => return Err(conflict("retirement phase deadline overflow")),
        Some(limit) => limit,
    };
    if request.not_after_ms > limit {
        return Err(conflict("planned retirement input or original phase deadline differs"));
    }
    Ok(())
}

fn issuer_phase(phase: RecoveryPhase) -> (b: bool)
    ensures
        b == journal_rules::issuer_phase(phase),
{
    phase == RecoveryPhase::Prepare || phase == RecoveryPhase::StopTarget || phase
        == RecoveryPhase::FenceSource || phase == RecoveryPhase::Activate || phase
        == RecoveryPhase::StopActivation
}

fn target_phase(phase: RecoveryPhase) -> (b: bool)
    ensures
        b == journal_rules::target_phase(phase),
{
    phase == RecoveryPhase::Materialize || phase == RecoveryPhase::Cleanup || phase
        == RecoveryPhase::Initialize || phase == RecoveryPhase::Complete || phase
        == RecoveryPhase::Confirm
}

/// Whether the operation's phase admits the dispatch.
pub fn validate_input(
    state: &State,
    operation: &RecoveryRecord,
    phase_id: u128,
    input: &Dispatch,
    authorization: &RecoveryAuthorization,
) -> (r: Result<(), Error>)
    ensures
        r == journal_rules::input_admitted(state@, *operation, phase_id, *input, *authorization),
{
    proof {
        reveal(journal_rules::input_admitted);
    }
    if authorization.input_bytes > authorization.max_record_bytes / 2 {
        return Err(error(ErrorCode::ResourceExhausted, "recovery phase input work limit"));
    }
    match input {
        Dispatch::Authority(command) => {
            if !issuer_phase(operation.phase) {
                return Err(conflict("coordinator phase dispatch is not installed"));
            }
            authority_input(state, operation, phase_id, &command.open(), authorization)
        },
        Dispatch::ControlIntent(request) => {
            if operation.phase != RecoveryPhase::Activate && !target_phase(operation.phase) {
                return Err(conflict("coordinator phase dispatch is not installed"));
            }
            control_input(state, operation, phase_id, &request.open(), authorization)
        },
        Dispatch::Target { node_id, request } => {
            if !target_phase(operation.phase) {
                return Err(conflict("coordinator phase dispatch is not installed"));
            }
            target_input(state, operation, *node_id, &request.open(), authorization)
        },
        Dispatch::PublishRoute(input) => {
            if operation.phase != RecoveryPhase::Publish {
                return Err(conflict("coordinator phase dispatch is not installed"));
            }
            publication_input(state, operation, input)
        },
        Dispatch::RetireSource(request) => {
            if operation.phase != RecoveryPhase::RetireSource {
                return Err(conflict("coordinator phase dispatch is not installed"));
            }
            retirement_input(operation, request, authorization)
        },
    }
}

} // verus!
