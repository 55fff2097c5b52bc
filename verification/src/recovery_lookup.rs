//! References of the recovery journal, and what an intent commits to.
use vstd::prelude::*;

use crate::digest::{Digest, Name};
use crate::encoding::{labelled_digest, COMPLETION, INTENT, ORIGIN};
use crate::errors::{conflict, error, Error, ErrorCode};
use crate::model::{
    CompletionInput, DispatchOutcome, IntentRequest, LifecycleIntent, LifecyclePhase, Partition,
    PhaseRecord, RecoveryRecord, RecoveryStart, RecoveryTarget, ResumeOrigin, State, TargetOrigin,
    Voter, Voters,
};
use crate::rules;

verus! {

pub fn phase(state: &State, operation: &RecoveryRecord, id: u128) -> (r: Result<PhaseRecord, Error>)
    ensures
        r == rules::phase(state@, *operation, id),
{
    proof {
        reveal(rules::phase);
    }
    match state.recovery.phases.get(id) {
        Some(p) => if p.operation_id == operation.request.operation_id {
            Ok(p)
        } else {
            Err(error(ErrorCode::Corruption, "recovery phase reference missing"))
        },
        None => Err(error(ErrorCode::Corruption, "recovery phase reference missing")),
    }
}

pub fn phase_of(
    state: &State,
    operation: &RecoveryRecord,
    id: Option<u128>,
    message: &'static str,
) -> (r: Result<PhaseRecord, Error>)
    ensures
        r == rules::phase_of(state@, *operation, id, message),
{
    proof {
        reveal(rules::phase_of);
    }
    match id {
        None => Err(conflict(message)),
        Some(id) => phase(state, operation, id),
    }
}

pub fn intent(state: &State, operation: &RecoveryRecord, id: u128) -> (r: Result<
    LifecycleIntent,
    Error,
>)
    ensures
        r == rules::intent(state@, *operation, id),
{
    proof {
        reveal(rules::intent);
    }
    match phase(state, operation, id)?.outcome {
        Some(DispatchOutcome::ControlIntent(value)) => Ok(value.open()),
        _ => Err(
            error(
                ErrorCode::Corruption,
                "recovery intent reference is not a committed intent",
            ),
        ),
    }
}

pub fn intent_of(
    state: &State,
    operation: &RecoveryRecord,
    id: Option<u128>,
    message: &'static str,
) -> (r: Result<LifecycleIntent, Error>)
    ensures
        r == rules::intent_of(state@, *operation, id, message),
{
    proof {
        reveal(rules::intent_of);
    }
    match id {
        None => Err(conflict(message)),
        Some(id) => intent(state, operation, id),
    }
}

pub fn partition_named(partitions: &Vec<Partition>, name: Name) -> (r: Option<Partition>)
    ensures
        r == rules::partition_named(partitions@, name, 0),
{
    let mut i: usize = 0;
    while i < partitions.len()
        invariant
            i <= partitions.len(),
            rules::partition_named(partitions@, name, 0) == rules::partition_named(
                partitions@,
                name,
                i as int,
            ),
        decreases partitions.len() - i,
    {
        if partitions[i].name == name {
            return Some(partitions[i]);
        }
        i = i + 1;
    }
    None
}

pub fn partition(state: &State, operation: &RecoveryRecord) -> (r: Result<Partition, Error>)
    ensures
        r == rules::partition(state@, *operation),
{
    proof {
        reveal(rules::partition);
    }
    match &state.lifecycle {
        None => Err(conflict("recovery issuer installation absent")),
        Some(control) => match partition_named(
            &control.installation.partitions,
            operation.request.authority_partition,
        ) {
            None => Err(conflict("recovery issuer installation absent")),
            Some(p) => Ok(p),
        },
    }
}

pub fn retained_intent(state: &State, command: u128) -> (r: Option<LifecycleIntent>)
    ensures
        r == rules::retained_intent(state@, command),
{
    proof {
        reveal(rules::retained_intent);
    }
    match &state.lifecycle {
        None => None,
        Some(control) => control.intents.get(command),
    }
}

pub fn origin(state: &State, operation: &RecoveryRecord) -> (r: Result<TargetOrigin, Error>)
    ensures
        r == rules::origin(state@, *operation),
{
    proof {
        reveal(rules::origin);
    }
    let original = intent_of(
        state,
        operation,
        operation.materialization_intent,
        "original materialization intent absent",
    )?;
    let issuer = partition(state, operation)?;
    Ok(
        TargetOrigin {
            authority_manifest_sha256: issuer.manifest_sha256,
            materialization: original,
            input: operation.request.materialization,
        },
    )
}

pub fn voter(voters: &Voters, node: u64) -> (r: Option<Voter>)
    ensures
        r == rules::voter(*voters, node),
{
    proof {
        reveal(rules::voter);
    }
    if voters.first.node_id == node {
        Some(voters.first)
    } else if voters.second.node_id == node {
        Some(voters.second)
    } else if voters.third.node_id == node {
        Some(voters.third)
    } else {
        None
    }
}

/// The end of an effect that starts now.
pub fn deadline(
    now: u64,
    operation: &RecoveryRecord,
    expires: u64,
    message: &'static str,
) -> (r: Result<u64, Error>)
    ensures
        r == rules::deadline(now, *operation, expires, message),
{
    match now.checked_add(operation.request.phase_timeout_ms) {
        None => Err(conflict(message)),
        Some(end) => if end < expires {
            Ok(end)
        } else {
            Ok(expires)
        },
    }
}

pub fn dispatch_limit(operation: &RecoveryRecord, phase: &PhaseRecord) -> (r: Result<u64, Error>)
    ensures
        r == rules::dispatch_limit(*operation, *phase),
{
    proof {
        reveal(rules::dispatch_limit);
    }
    deadline(
        phase.admitted_at_ms,
        operation,
        phase.original_credential_expires_at_ms,
        "recovery phase deadline overflow",
    )
}

pub fn target(request: &RecoveryStart) -> (r: RecoveryTarget)
    ensures
        r == rules::target(*request),
{
    proof {
        reveal(rules::target);
    }
    RecoveryTarget {
        incarnation: request.target_incarnation,
        checkpoint: request.checkpoint,
        nodes: request.target_nodes,
    }
}

pub fn origin_sha256(origin: &TargetOrigin) -> (d: Digest)
    ensures
        d == rules::origin_sha256(*origin),
{
    proof {
        reveal(rules::origin_sha256);
    }
    labelled_digest(ORIGIN, origin)
}

/// What a resumption request carries of the origin.
pub fn summary(origin: &TargetOrigin) -> (r: ResumeOrigin)
    ensures
        r == rules::summary(*origin),
{
    proof {
        reveal(rules::summary);
    }
    ResumeOrigin {
        command_id: origin.materialization.request.command_id,
        revision: origin.materialization.revision,
        intent_sha256: labelled_digest(INTENT, &origin.materialization),
        authority_manifest_sha256: origin.authority_manifest_sha256,
        input_sha256: origin.input.sha256,
    }
}

fn same_resource(a: &IntentRequest, b: &IntentRequest) -> (same: bool)
    ensures
        same == rules::same_resource(*a, *b),
{
    proof {
        reveal(rules::same_resource);
    }
    a.installation_sha256 == b.installation_sha256 && a.authority_partition == b.authority_partition
        && a.tenant == b.tenant && a.source_incarnation == b.source_incarnation
        && a.source_authority_epoch == b.source_authority_epoch && a.target_incarnation
        == b.target_incarnation && a.checkpoint == b.checkpoint && a.target_nodes == b.target_nodes
}

fn accepts(origin: &TargetOrigin, current: &LifecycleIntent, phase: LifecyclePhase) -> (ok: bool)
    ensures
        ok == rules::accepts(*origin, *current, phase),
{
    proof {
        reveal(rules::accepts);
    }
    current.request.phase == phase && current.control_incarnation
        == origin.materialization.control_incarnation && same_resource(
        &origin.materialization.request,
        &current.request,
    )
}

pub fn accepts_phase(
    origin: &TargetOrigin,
    current: &LifecycleIntent,
    phase: LifecyclePhase,
) -> (r: Result<(), Error>)
    ensures
        r == rules::accepts_phase(*origin, *current, phase),
{
    proof {
        reveal(rules::accepts_phase);
    }
    if accepts(origin, current, phase) {
        Ok(())
    } else {
        Err(conflict("Control intent differs from the target's original resource or phase"))
    }
}

pub fn commits(
    origin: &TargetOrigin,
    current: &LifecycleIntent,
    phase: LifecyclePhase,
    input: Digest,
) -> (r: Result<(), Error>)
    ensures
        r == rules::commits(*origin, *current, phase, input),
{
    proof {
        reveal(rules::commits);
    }
    accepts_phase(origin, current, phase)?;
    if current.request.phase_input_sha256 == input {
        Ok(())
    } else {
        Err(conflict("Control intent commits another phase input"))
    }
}

/// Whether the retained Complete identity commits exactly this input.
pub fn validate_original_intent(
    origin: &TargetOrigin,
    expected: &CompletionInput,
    original: &LifecycleIntent,
) -> (r: Result<(), Error>)
    ensures
        r == rules::validate_original_intent(*origin, *expected, *original),
{
    proof {
        reveal(rules::validate_original_intent);
    }
    if accepts(origin, original, LifecyclePhase::Complete) && original.request.phase_input_sha256
        == labelled_digest(COMPLETION, expected) && expected.quorum.origin_sha256 == origin_sha256(
        origin,
    ) {
        Ok(())
    } else {
        Err(conflict("original completion identity input differs"))
    }
}

} // verus!
