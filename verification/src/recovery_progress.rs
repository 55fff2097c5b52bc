//! How far a resolved phase brings its operation.
use vstd::prelude::*;

use crate::errors::{conflict, Error};
use crate::journal_rules;
use crate::model::{
    ActivationOutcome, AuthorityAction, AuthorityCommand, AuthorityOutcome, Dispatch,
    DispatchOutcome, IntentRequest, LifecyclePhase, MaterializationProof, PhaseRecord,
    RecoveryPhase, RecoveryRecord, SignedReceipt, SourceMode, State, TargetOutcome, TargetResponse,
    Voter, Voters,
};
use crate::recovery_attempts::install;
use crate::recovery_lookup::{origin, phase_of, voter};
use crate::recovery_outcomes::{materialized_by, native};
use crate::recovery_quorum::materializations_agree;
use crate::rules;

verus! {

pub fn replaced(voters: &Voters, node: u64, v: Voter) -> (r: Voters)
    ensures
        r == journal_rules::replaced(*voters, node, v),
{
    proof {
        reveal(journal_rules::replaced);
    }
    if voters.first.node_id == node {
        Voters { first: v, ..*voters }
    } else if voters.second.node_id == node {
        Voters { second: v, ..*voters }
    } else if voters.third.node_id == node {
        Voters { third: v, ..*voters }
    } else {
        *voters
    }
}

fn voter_proof(
    state: &State,
    operation: &RecoveryRecord,
    v: &Voter,
    node: u64,
    new: &MaterializationProof,
) -> (r: Result<MaterializationProof, Error>)
    ensures
        r == journal_rules::voter_proof(state@, *operation, *v, node, *new),
{
    proof {
        reveal(journal_rules::voter_proof);
    }
    if v.node_id == node {
        return Ok(*new);
    }
    let retained = phase_of(
        state,
        operation,
        v.materialization,
        "target materialization quorum incomplete",
    )?;
    let response = match native(&retained.outcome) {
        None => return Err(conflict("retained voter materialization absent")),
        Some(response) => response,
    };
    match materialized_by(&response.outcome) {
        None => Err(conflict("retained voter materialization differs")),
        Some(signed) => Ok(signed),
    }
}

fn quorum_agrees(
    state: &State,
    operation: &RecoveryRecord,
    node: u64,
    new: &MaterializationProof,
) -> (r: Result<(), Error>)
    ensures
        r == journal_rules::quorum_agrees(state@, *operation, node, *new),
{
    proof {
        reveal(journal_rules::quorum_agrees);
    }
    let first = voter_proof(state, operation, &operation.voters.first, node, new)?;
    let second = voter_proof(state, operation, &operation.voters.second, node, new)?;
    let third = voter_proof(state, operation, &operation.voters.third, node, new)?;
    let origin = origin(state, operation)?;
    if !materializations_agree(&origin, &operation.voters, &first, &second, &third) {
        return Err(conflict("target voters disagree about the exact materialized image"));
    }
    Ok(())
}

fn materialized_progress(
    state: &State,
    operation: &RecoveryRecord,
    id: u128,
    v: &Voter,
    new: &MaterializationProof,
) -> (r: Result<RecoveryRecord, Error>)
    ensures
        r == journal_rules::materialized_progress(state@, *operation, id, *v, *new),
{
    proof {
        reveal(journal_rules::materialized_progress);
    }
    let voters = replaced(
        &operation.voters,
        v.node_id,
        Voter { materialization: Some(id), ..*v },
    );
    let head = RecoveryRecord { voters, ..*operation };
    if head.voters.first.materialization.is_none() || head.voters.second.materialization.is_none()
        || head.voters.third.materialization.is_none() {
        return Ok(head);
    }
    quorum_agrees(state, &head, v.node_id, new)?;
    Ok(RecoveryRecord { current_intent: None, phase: RecoveryPhase::Initialize, ..head })
}

fn after_completion(mode: &SourceMode) -> (p: RecoveryPhase)
    ensures
        p == journal_rules::after_completion(*mode),
{
    match mode {
        SourceMode::Planned { retirement: _ } => RecoveryPhase::RetireSource,
        SourceMode::SourceUnavailable => RecoveryPhase::FenceSource,
    }
}

fn confirmed_progress(operation: &RecoveryRecord, id: u128, v: &Voter) -> (r: RecoveryRecord)
    ensures
        r == journal_rules::confirmed_progress(*operation, id, *v),
{
    proof {
        reveal(journal_rules::confirmed_progress);
    }
    let voters = replaced(&operation.voters, v.node_id, Voter { confirmation: Some(id), ..*v });
    let phase = if voters.first.confirmation.is_some() && voters.second.confirmation.is_some()
        && voters.third.confirmation.is_some() {
        RecoveryPhase::Publish
    } else {
        operation.phase
    };
    RecoveryRecord { voters, phase, ..*operation }
}

fn clean_progress(operation: &RecoveryRecord, id: u128, v: &Voter) -> (r: RecoveryRecord)
    ensures
        r == journal_rules::clean_progress(*operation, id, *v),
{
    proof {
        reveal(journal_rules::clean_progress);
    }
    let voters = replaced(&operation.voters, v.node_id, Voter { cleanup: Some(id), ..*v });
    let phase = if voters.first.cleanup.is_some() && voters.second.cleanup.is_some()
        && voters.third.cleanup.is_some() {
        RecoveryPhase::Stopped
    } else {
        operation.phase
    };
    RecoveryRecord { voters, phase, ..*operation }
}

pub fn first_set(current: Option<u128>, id: u128) -> (r: Option<u128>)
    ensures
        r == journal_rules::first_set(current, id),
{
    match current {
        Some(first) => Some(first),
        None => Some(id),
    }
}

fn target_progress(
    state: &State,
    operation: &RecoveryRecord,
    id: u128,
    v: &Voter,
    outcome: &TargetOutcome,
) -> (r: Result<RecoveryRecord, Error>)
    ensures
        r == journal_rules::target_progress(state@, *operation, id, *v, *outcome),
{
    proof {
        reveal(journal_rules::target_progress);
    }
    match outcome {
        TargetOutcome::Materialized(new) => materialized_progress(state, operation, id, v, new),
        TargetOutcome::Started { .. } => Ok(
            RecoveryRecord {
                voters: replaced(&operation.voters, v.node_id, Voter { started: Some(id), ..*v }),
                ..*operation
            },
        ),
        TargetOutcome::Initialized { .. } => Ok(
            RecoveryRecord {
                initialization: Some(id),
                current_intent: None,
                phase: RecoveryPhase::Complete,
                ..*operation
            },
        ),
        TargetOutcome::PreparedCompletion(_) => Ok(
            RecoveryRecord {
                completion_preparation: first_set(operation.completion_preparation, id),
                ..*operation
            },
        ),
        TargetOutcome::CompletionAttemptStatus(_) => Ok(
            RecoveryRecord {
                completion_preparation: first_set(operation.completion_preparation, id),
                ..*operation
            },
        ),
        TargetOutcome::ResolvedCompletion(_) => Ok(
            RecoveryRecord {
                completion_terminal: first_set(operation.completion_terminal, id),
                ..*operation
            },
        ),
        TargetOutcome::CompletionTerminalStatus(_) => Ok(
            RecoveryRecord {
                completion_terminal: first_set(operation.completion_terminal, id),
                ..*operation
            },
        ),
        TargetOutcome::Completed(_) => Ok(
            RecoveryRecord {
                completion: Some(id),
                current_intent: None,
                phase: after_completion(&operation.request.source_mode),
                ..*operation
            },
        ),
        TargetOutcome::Inspected(_) => Ok(
            RecoveryRecord {
                completion: Some(id),
                current_intent: None,
                phase: after_completion(&operation.request.source_mode),
                ..*operation
            },
        ),
        TargetOutcome::Activated(_) => Ok(confirmed_progress(operation, id, v)),
        TargetOutcome::Stopped(_) => Ok(clean_progress(operation, id, v)),
    }
}

fn activated_progress(
    operation: &RecoveryRecord,
    id: u128,
    command: &AuthorityCommand,
    outcome: &AuthorityOutcome,
) -> (r: Result<RecoveryRecord, Error>)
    ensures
        r == journal_rules::activated_progress(*operation, id, *command, *outcome),
{
    proof {
        reveal(journal_rules::activated_progress);
    }
    let committed: bool = match command.action {
        AuthorityAction::ActivateCommitted(_) => true,
        _ => false,
    };
    match outcome {
        AuthorityOutcome::Activated { .. } => Ok(
            RecoveryRecord {
                activation: Some(id),
                current_intent: None,
                phase: RecoveryPhase::Confirm,
                ..*operation
            },
        ),
        AuthorityOutcome::ActivationStopped { .. } => if committed {
            Ok(RecoveryRecord { current_intent: None, ..*operation })
        } else {
            Err(conflict("unsupported issuer activation progress"))
        },
        _ => Err(conflict("unsupported issuer activation progress")),
    }
}

fn stopped_activation_progress(
    operation: &RecoveryRecord,
    command: &AuthorityCommand,
    outcome: &AuthorityOutcome,
) -> (r: Result<RecoveryRecord, Error>)
    ensures
        r == journal_rules::stopped_activation_progress(*operation, *command, *outcome),
{
    proof {
        reveal(journal_rules::stopped_activation_progress);
    }
    let original = match command.action {
        AuthorityAction::StopActivation { original } => original.open(),
        _ => return Err(conflict("activation stop input differs")),
    };
    let resolved = match outcome {
        AuthorityOutcome::ActivationResolved { original } => original.open(),
        _ => return Err(conflict("activation stop did not resolve original command")),
    };
    match resolved.outcome {
        ActivationOutcome::Activated { .. } => Ok(
            RecoveryRecord {
                current_intent: None,
                activation: Some(original.command_id),
                phase: RecoveryPhase::Confirm,
                ..*operation
            },
        ),
        _ => {
            let phase = if operation.stop_request.is_some() {
                RecoveryPhase::StopTarget
            } else {
                RecoveryPhase::Activate
            };
            Ok(RecoveryRecord { current_intent: None, phase, ..*operation })
        },
    }
}

fn authority_progress(
    operation: &RecoveryRecord,
    prepared: &PhaseRecord,
    command: &AuthorityCommand,
    outcome: &AuthorityOutcome,
) -> (r: Result<RecoveryRecord, Error>)
    ensures
        r == journal_rules::authority_progress(*operation, *prepared, *command, *outcome),
{
    proof {
        reveal(journal_rules::authority_progress);
    }
    match prepared.phase {
        RecoveryPhase::Prepare => Ok(
            RecoveryRecord {
                issuer_preparation: Some(prepared.phase_id),
                phase: RecoveryPhase::Materialize,
                ..*operation
            },
        ),
        RecoveryPhase::StopTarget => Ok(
            RecoveryRecord {
                target_stop: Some(prepared.phase_id),
                current_intent: None,
                phase: RecoveryPhase::Cleanup,
                ..*operation
            },
        ),
        RecoveryPhase::FenceSource => Ok(
            RecoveryRecord {
                source_fence: Some(prepared.phase_id),
                current_intent: None,
                phase: RecoveryPhase::Activate,
                ..*operation
            },
        ),
        RecoveryPhase::Activate => activated_progress(
            operation,
            prepared.phase_id,
            command,
            outcome,
        ),
        RecoveryPhase::StopActivation => stopped_activation_progress(operation, command, outcome),
        _ => Err(conflict("unsupported recovery progress transition")),
    }
}

fn advanced_by_issuer(operation: &RecoveryRecord, prepared: &PhaseRecord, signed: &SignedReceipt) -> (r:
    Result<RecoveryRecord, Error>)
    ensures
        r == journal_rules::advanced_by_issuer(*operation, *prepared, *signed),
{
    proof {
        reveal(journal_rules::advanced_by_issuer);
    }
    match signed.receipt.outcome {
        AuthorityOutcome::Rejected => return Ok(*operation),
        _ => {},
    }
    match &prepared.input {
        Dispatch::Authority(command) => authority_progress(
            operation,
            prepared,
            &command.open(),
            &signed.receipt.outcome,
        ),
        _ => Err(conflict("unsupported recovery progress transition")),
    }
}

fn advanced_by_target(
    state: &State,
    operation: &RecoveryRecord,
    prepared: &PhaseRecord,
    response: &TargetResponse,
) -> (r: Result<RecoveryRecord, Error>)
    ensures
        r == journal_rules::advanced_by_target(state@, *operation, *prepared, *response),
{
    proof {
        reveal(journal_rules::advanced_by_target);
    }
    match prepared.input {
        Dispatch::Target { node_id, request: _ } => match voter(&operation.voters, node_id) {
            None => Err(conflict("target voter missing")),
            Some(v) => target_progress(
                state,
                operation,
                prepared.phase_id,
                &v,
                &response.outcome,
            ),
        },
        _ => Err(conflict("unsupported recovery progress transition")),
    }
}

fn advanced_by_route(operation: &RecoveryRecord, prepared: &PhaseRecord, published: bool) -> (r:
    Result<RecoveryRecord, Error>)
    ensures
        r == journal_rules::advanced_by_route(*operation, *prepared, published),
{
    proof {
        reveal(journal_rules::advanced_by_route);
    }
    match prepared.input {
        Dispatch::PublishRoute(_) => if published {
            Ok(
                RecoveryRecord {
                    route_publication: Some(prepared.phase_id),
                    phase: RecoveryPhase::Finished,
                    ..*operation
                },
            )
        } else {
            Ok(*operation)
        },
        _ => Err(conflict("unsupported recovery progress transition")),
    }
}

fn advanced_by_retirement(operation: &RecoveryRecord, prepared: &PhaseRecord) -> (r: Result<
    RecoveryRecord,
    Error,
>)
    ensures
        r == journal_rules::advanced_by_retirement(*operation, *prepared),
{
    proof {
        reveal(journal_rules::advanced_by_retirement);
    }
    match prepared.input {
        Dispatch::RetireSource(_) => Ok(
            RecoveryRecord {
                retirement: Some(prepared.phase_id),
                phase: RecoveryPhase::FenceSource,
                ..*operation
            },
        ),
        _ => Err(conflict("unsupported recovery progress transition")),
    }
}

/// Advances the head by a committed intent. A committed Complete intent closes
/// the sealed attempt that it follows.
fn advance_by_control(
    state: &mut State,
    operation: &mut RecoveryRecord,
    prepared: &PhaseRecord,
    request: &IntentRequest,
) -> (r: Result<(), Error>)
    ensures
        match (
            r,
            journal_rules::control_progress(old(state)@, *old(operation), *prepared, *request),
        ) {
            (Err(e), Err(said)) => e == said && final(state)@ == old(state)@,
            (Ok(()), Ok((head, closed))) => *final(operation) == head && final(state)@
                == rules::archived(old(state)@, closed),
            _ => false,
        },
{
    proof {
        reveal(journal_rules::control_progress);
    }
    if request.phase == LifecyclePhase::Complete {
        return install(state, operation, prepared);
    }
    operation.current_intent = Some(prepared.phase_id);
    if request.phase == LifecyclePhase::Materialize {
        operation.materialization_intent = Some(prepared.phase_id);
    }
    Ok(())
}

/// Advances the head by the outcome of a prepared phase.
pub fn advance(
    state: &mut State,
    operation: &mut RecoveryRecord,
    prepared: &PhaseRecord,
    outcome: &DispatchOutcome,
) -> (r: Result<(), Error>)
    ensures
        match (r, journal_rules::advance(old(state)@, *old(operation), *prepared, *outcome)) {
            (Err(e), Err(said)) => e == said && final(state)@ == old(state)@,
            (Ok(()), Ok((head, closed))) => *final(operation) == head && final(state)@
                == rules::archived(old(state)@, closed),
            _ => false,
        },
{
    proof {
        reveal(journal_rules::advance);
    }
    match outcome {
        DispatchOutcome::Authority(signed) => {
            *operation = advanced_by_issuer(operation, prepared, &signed.open())?;
            Ok(())
        },
        DispatchOutcome::RoutePublished { .. } => {
            *operation = advanced_by_route(operation, prepared, true)?;
            Ok(())
        },
        DispatchOutcome::RouteRejected { .. } => {
            *operation = advanced_by_route(operation, prepared, false)?;
            Ok(())
        },
        DispatchOutcome::SourceRetired(_) => {
            *operation = advanced_by_retirement(operation, prepared)?;
            Ok(())
        },
        DispatchOutcome::ControlIntent(_) => match &prepared.input {
            Dispatch::ControlIntent(request) => advance_by_control(
                state,
                operation,
                prepared,
                &request.open(),
            ),
            _ => Err(conflict("unsupported recovery progress transition")),
        },
        DispatchOutcome::Target(response) => {
            *operation = advanced_by_target(state, operation, prepared, &response.open())?;
            Ok(())
        },
        _ => Err(conflict("unsupported recovery progress transition")),
    }
}

} // verus!
