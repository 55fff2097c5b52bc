//! Fresh observation of the exact original Complete identity. A positive fact
//! may resolve it; absence never becomes a negative outcome or new mutation.
use vstd::prelude::*;

use crate::encoding::{labelled_digest, INSPECTION};
use crate::held::hold;
use crate::errors::{conflict, Error};
use crate::model::{
    CompletionFact, Dispatch, DispatchOutcome, InspectionInput, LifecycleIntent, LifecyclePhase,
    PhaseRecord, RecoveryRecord, ReplicaInput, SignedInspection, State, TargetStep,
};
use crate::receiver_rules;
use crate::recovery_attempts::completion_input;
use crate::recovery_lookup::{accepts_phase, commits, intent_of, origin, phase, retained_intent};
use crate::recovery_quorum::{all_started, started_for};
use crate::recovery_receiver::{dispatched, validate_inspected_terminal};
use crate::recovery_outcomes::inspected_by;
use crate::rules;

verus! {

pub fn inspection_input(state: &State, operation: &RecoveryRecord) -> (r: Result<
    InspectionInput,
    Error,
>)
    ensures
        r == receiver_rules::inspection_input(state@, *operation),
{
    proof {
        reveal(receiver_rules::inspection_input);
    }
    let original_phase = intent_of(
        state,
        operation,
        operation.completion_intent,
        "original completion intent absent",
    )?;
    let origin = origin(state, operation)?;
    accepts_phase(&origin, &original_phase, LifecyclePhase::Complete)?;
    let input = completion_input(state, operation)?;
    Ok(
        InspectionInput { quorum: input.quorum, original_phase, predecessor: input.predecessor },
    )
}

pub fn is_inspection(step: &TargetStep) -> (b: bool)
    ensures
        b == receiver_rules::is_inspection(*step),
{
    proof {
        reveal(receiver_rules::is_inspection);
    }
    match step {
        TargetStep::Start(ReplicaInput::Inspection(_)) => true,
        TargetStep::Inspect(_) => true,
        _ => false,
    }
}

fn committed_inspection(state: &State, operation: &RecoveryRecord, current: &LifecycleIntent) -> (r:
    Result<InspectionInput, Error>)
    ensures
        r == receiver_rules::committed_inspection(state@, *operation, *current),
{
    proof {
        reveal(receiver_rules::committed_inspection);
    }
    let input = inspection_input(state, operation)?;
    let origin = origin(state, operation)?;
    commits(
        &origin,
        current,
        LifecyclePhase::InspectTarget,
        labelled_digest(INSPECTION, &input),
    )?;
    Ok(input)
}

/// Whether an inspection step may be sent, or, without `admission`, was one.
pub fn validate_step(
    state: &State,
    operation: &RecoveryRecord,
    current: &LifecycleIntent,
    node: u64,
    step: &TargetStep,
    admission: bool,
) -> (r: Result<(), Error>)
    ensures
        r == receiver_rules::inspection_step(state@, *operation, *current, node, *step, admission),
{
    proof {
        reveal(receiver_rules::inspection_step);
    }
    let input = committed_inspection(state, operation, current)?;
    match step {
        TargetStep::Start(ReplicaInput::Inspection(actual)) => {
            if actual.open() != input {
                return Err(conflict("completion inspection input differs"));
            }
            if admission && started_for(state, operation, node, current.request.command_id)? {
                return Err(conflict("target already started under this exact inspection"));
            }
        },
        TargetStep::Inspect(actual) => {
            if actual.open() != input {
                return Err(conflict("completion inspection input differs"));
            }
            if admission && !all_started(state, operation, current.request.command_id)? {
                return Err(
                    conflict("inspection requires every target started under its exact phase"),
                );
            }
        },
        _ => return Err(conflict("completion inspection input differs")),
    }
    Ok(())
}

fn within_original_cap(
    state: &State,
    operation: &RecoveryRecord,
    input: &InspectionInput,
    completion: &CompletionFact,
) -> (r: Result<(), Error>)
    ensures
        r == receiver_rules::within_original_cap(state@, *operation, *input, *completion),
{
    proof {
        reveal(receiver_rules::within_original_cap);
    }
    let id: u128 = match operation.completion_attempt {
        None => return Ok(()),
        Some(id) => id,
    };
    let original = phase(state, operation, id)?;
    match original.input {
        Dispatch::Target { node_id: _, request } => {
            let complete: bool = match request.open().step {
                TargetStep::Complete(_) => true,
                _ => false,
            };
            if !complete || request.open().command_id != input.original_phase.request.command_id
                || completion.admitted_at_ms >= request.open().not_after_ms {
                return Err(
                    conflict("inspected completion exceeded its unchanged original dispatch cap"),
                );
            }
            Ok(())
        },
        _ => Err(conflict("original completion dispatch differs")),
    }
}

/// Whether a signed inspection proves the original completion.
pub fn validate_proof(
    state: &State,
    operation: &RecoveryRecord,
    current: &LifecycleIntent,
    node: u64,
    signed: &SignedInspection,
) -> (r: Result<(), Error>)
    ensures
        r == receiver_rules::inspection_proof(state@, *operation, *current, node, *signed),
{
    proof {
        reveal(receiver_rules::inspection_proof);
    }
    let input = inspection_input(state, operation)?;
    if signed.inspection_intent != *current || signed.observer_node_id != node {
        return Err(conflict("completion inspection phase or observer differs"));
    }
    if !signed.authentic || signed.input != input {
        return Err(conflict("completion inspection lacks its exact positive signature"));
    }
    validate_inspected_terminal(state, operation, &signed.completion)?;
    within_original_cap(state, operation, &input, &signed.completion)
}

/// Whether a positive inspection resolves the original Complete dispatch.
pub fn validate_resolution(
    state: &State,
    operation: &RecoveryRecord,
    original: &PhaseRecord,
    inspection_phase: u128,
) -> (r: Result<(), Error>)
    ensures
        r == receiver_rules::completion_resolution(
            state@,
            *operation,
            *original,
            inspection_phase,
        ),
{
    proof {
        reveal(receiver_rules::completion_resolution);
    }
    let inspection = phase(state, operation, inspection_phase)?;
    match (original.input, inspection.input, inspection.outcome) {
        (
            Dispatch::Target { node_id: _, request: old },
            Dispatch::Target { node_id, request },
            Some(DispatchOutcome::Target(response)),
        ) => {
            let signed = match inspected_by(&response.open().outcome) {
                Some(signed) => signed,
                None => return Err(
                    conflict("completion resolution lacks a retained positive inspection"),
                ),
            };
            let complete: bool = match old.open().step {
                TargetStep::Complete(_) => true,
                _ => false,
            };
            let inspect: bool = match request.open().step {
                TargetStep::Inspect(_) => true,
                _ => false,
            };
            if !complete || !inspect || old.open().command_id
                != signed.input.original_phase.request.command_id
                || signed.completion.admitted_at_ms >= old.open().not_after_ms
                || inspection.prepared_revision <= original.prepared_revision
                || inspection.resolved_revision != original.resolved_revision
                || response.open().command_id != request.open().command_id || response.open().node_id != node_id {
                return Err(conflict("resolved completion changed its original command or cap"));
            }
            match retained_intent(state, request.open().command_id) {
                None => Err(conflict("completion inspection Control intent absent")),
                Some(current) => validate_proof(state, operation, &current, node_id, &signed),
            }
        },
        _ => Err(conflict("completion resolution phase references differ")),
    }
}

/// Lets a positive inspection resolve the original Complete dispatch.
pub fn resolve_original(state: &mut State, operation: &RecoveryRecord, inspection_phase: u128) -> (r:
    Result<(), Error>)
    ensures
        match (
            r,
            receiver_rules::resolved_original(old(state)@, *operation, inspection_phase),
        ) {
            (Err(e), Err(said)) => e == said && final(state)@ == old(state)@,
            (Ok(()), Ok(change)) => final(state)@ == rules::rewritten(
                old(state)@,
                change,
            ),
            _ => false,
        },
{
    proof {
        reveal(receiver_rules::resolved_original);
    }
    let id: u128 = match operation.completion_attempt {
        None => return Ok(()),
        Some(id) => id,
    };
    let mut original = phase(state, operation, id)?;
    match original.outcome {
        // Its exact positive terminal was validated against the inspection;
        // preserve the earlier permanent terminal reference and resolution time.
        Some(DispatchOutcome::CompletionTerminal { .. }) => return Ok(()),
        Some(_) => return Err(conflict("original completion already has a permanent outcome")),
        None => {},
    }
    original.resolved_revision = Some(state.revision);
    validate_resolution(state, operation, &original, inspection_phase)?;
    original.outcome = Some(DispatchOutcome::CompletionResolution { inspection_phase });
    state.recovery.phases.insert(id, original);
    Ok(())
}

/// The first voter that has not started under the intent.
pub fn first_unstarted(state: &State, operation: &RecoveryRecord, command: u128) -> (r: Result<
    Option<u64>,
    Error,
>)
    ensures
        r == receiver_rules::first_unstarted(state@, *operation, command),
{
    proof {
        reveal(receiver_rules::first_unstarted);
    }
    if !started_for(state, operation, operation.voters.first.node_id, command)? {
        return Ok(Some(operation.voters.first.node_id));
    }
    if !started_for(state, operation, operation.voters.second.node_id, command)? {
        return Ok(Some(operation.voters.second.node_id));
    }
    if !started_for(state, operation, operation.voters.third.node_id, command)? {
        return Ok(Some(operation.voters.third.node_id));
    }
    Ok(None)
}

/// The next dispatch of a fresh inspection.
pub fn next_inspection(
    state: &State,
    operation: &RecoveryRecord,
    current: &LifecycleIntent,
    now: u64,
    expires: u64,
) -> (r: Result<Dispatch, Error>)
    ensures
        r == receiver_rules::next_inspection(state@, *operation, *current, now, expires),
{
    proof {
        reveal(receiver_rules::next_inspection);
    }
    let input = committed_inspection(state, operation, current)?;
    let missing = first_unstarted(state, operation, current.request.command_id)?;
    let (node_id, step): (u64, TargetStep) = match missing {
        Some(node) => (node, TargetStep::Start(ReplicaInput::Inspection(hold(input)))),
        None => (operation.voters.first.node_id, TargetStep::Inspect(hold(input))),
    };
    dispatched(
        operation,
        current,
        node_id,
        step,
        now,
        expires,
        "inspection dispatch deadline overflow",
    )
}

} // verus!
