//! Validation of a whole recovery journal, as a snapshot or a restart finds it.
use vstd::prelude::*;

use crate::errors::{conflict, Error};
use crate::model::{
    AuthorityCommand, AuthorityOutcome, CompletionHistory, CompletionScope, Dispatch,
    DispatchOutcome, IntentRequest, LifecycleIntent, LifecyclePhase, PhaseRecord, RecoveryPhase,
    RecoveryRecord, RetireSourceRequest, RouteChange, SourceMode, State, TargetOutcome,
    TargetRequest, TargetStep, Voter,
};
use crate::record_forms;
use crate::record_forms::RecoveryForms;
use crate::recovery_activation::{
    attempt, local_proof, require_negative_attempt, retained_action, same_activation,
    validate_local_proof, winner,
};
use crate::recovery_activation;
use crate::recovery_attempts::{
    completion_input, for_phase, historical_view, is_committed_birth, sealed_reference, terminal,
    validate_chain_link,
};
use crate::recovery_inputs::{
    cleanup_step, complete_step, expected_intent, is_control, materialize_step, stop_reference,
};
use crate::recovery_lookup::{
    dispatch_limit, intent, intent_of, origin, partition, phase, retained_intent, voter,
};
use crate::recovery_lookup::validate_original_intent;
use crate::recovery_outcomes::{activated_by, native};
use crate::recovery_receiver::{validate_progress, validate_quorum_step};
use crate::recovery_results::validate_outcome;
use crate::recovery_route;
use crate::recovery_source::{retirement_request, validate_retirement};
use crate::snapshot_rules;
use crate::table;
use crate::table::Table;

verus! {

fn frozen_authority(
    state: &State,
    operation: &RecoveryRecord,
    retained: &PhaseRecord,
    command: &AuthorityCommand,
) -> (r: Result<(), Error>)
    ensures
        r == snapshot_rules::frozen_authority(state@, *operation, *retained, *command),
{
    proof {
        reveal(snapshot_rules::frozen_authority);
    }
    let expected = retained_action(state, operation, retained, command)?;
    if command.command_id != retained.phase_id || command.tenant != operation.request.tenant
        || command.expected_policy_epoch != operation.request.authority_policy_epoch
        || command.action != expected {
        return Err(conflict("retained issuer phase input changed"));
    }
    let limit: u64 = dispatch_limit(operation, retained)?;
    if command.not_after_ms > limit || command.not_after_ms <= retained.admitted_at_ms {
        return Err(conflict("retained issuer phase input changed"));
    }
    Ok(())
}

fn frozen_route(operation: &RecoveryRecord, retained: &PhaseRecord, input: &RouteChange) -> (r: Result<
    (),
    Error,
>)
    ensures
        r == snapshot_rules::frozen_route(*operation, *retained, *input),
{
    proof {
        reveal(snapshot_rules::frozen_route);
    }
    recovery_route::validate_input(operation, input)?;
    if retained.phase != RecoveryPhase::Publish || input.expected_topology_version
        >= retained.prepared_revision {
        return Err(conflict("retained route publication position differs"));
    }
    Ok(())
}

fn frozen_retirement(
    operation: &RecoveryRecord,
    retained: &PhaseRecord,
    request: &RetireSourceRequest,
) -> (r: Result<(), Error>)
    ensures
        r == snapshot_rules::frozen_retirement(*operation, *retained, *request),
{
    proof {
        reveal(snapshot_rules::frozen_retirement);
    }
    if retained.phase != RecoveryPhase::RetireSource {
        return Err(conflict("retained planned retirement input differs"));
    }
    let expected = retirement_request(operation)?;
    if *request != expected || request.not_after_ms <= retained.admitted_at_ms {
        return Err(conflict("retained planned retirement input differs"));
    }
    let limit: u64 = dispatch_limit(operation, retained)?;
    if request.not_after_ms > limit {
        return Err(conflict("retained planned retirement input differs"));
    }
    Ok(())
}

fn control_phase_of(phase: RecoveryPhase, asked: LifecyclePhase) -> (b: bool)
    ensures
        b == snapshot_rules::control_phase_of(phase, asked),
{
    match phase {
        RecoveryPhase::Materialize => asked == LifecyclePhase::Materialize || asked
            == LifecyclePhase::ResumeMaterialize,
        RecoveryPhase::Cleanup => asked == LifecyclePhase::StopLocal,
        RecoveryPhase::Initialize => asked == LifecyclePhase::Initialize,
        RecoveryPhase::Complete => asked == LifecyclePhase::Complete || asked
            == LifecyclePhase::InspectCompletionAttempt || asked == LifecyclePhase::ResolveComplete
            || asked == LifecyclePhase::InspectCompletionResolution || asked
            == LifecyclePhase::InspectTarget,
        RecoveryPhase::Activate => asked == LifecyclePhase::Activate,
        RecoveryPhase::Confirm => asked == LifecyclePhase::Activate,
        _ => false,
    }
}

fn frozen_intent(
    state: &State,
    operation: &RecoveryRecord,
    retained: &PhaseRecord,
    request: &IntentRequest,
) -> (r: Result<(), Error>)
    ensures
        r == snapshot_rules::frozen_intent(state@, *operation, *retained, *request),
{
    proof {
        reveal(snapshot_rules::frozen_intent);
    }
    if !control_phase_of(retained.phase, request.phase) {
        return Err(conflict("retained Control phase input changed"));
    }
    let expected = expected_intent(
        state,
        operation,
        retained.phase_id,
        request.expected_policy_epoch,
        request.phase,
        false,
    )?;
    if *request != expected {
        return Err(conflict("retained Control phase input changed"));
    }
    Ok(())
}

fn frozen_step(
    state: &State,
    operation: &RecoveryRecord,
    retained: &PhaseRecord,
    current: &LifecycleIntent,
    node: u64,
    request: &TargetRequest,
) -> (r: Result<(), Error>)
    ensures
        r == snapshot_rules::frozen_step(
            state@,
            *operation,
            *retained,
            *current,
            node,
            *request,
        ),
{
    proof {
        reveal(snapshot_rules::frozen_step);
    }
    match retained.phase {
        RecoveryPhase::Confirm => recovery_activation::validate_step(
            state,
            operation,
            current,
            node,
            &request.step,
            false,
        ),
        RecoveryPhase::Complete => complete_step(state, operation, current, node, request, false),
        RecoveryPhase::Initialize => validate_quorum_step(
            state,
            operation,
            current,
            node,
            &request.step,
            RecoveryPhase::Initialize,
            false,
        ),
        RecoveryPhase::Materialize => materialize_step(
            state,
            operation,
            current,
            &request.step,
            "retained materialization input differs",
            "retained fresh materialization input differs",
            "retained target dispatch step differs",
        ),
        RecoveryPhase::Cleanup => cleanup_step(
            state,
            operation,
            current,
            &request.step,
            "retained target stop input differs",
            "retained target dispatch step differs",
        ),
        _ => Err(conflict("retained target dispatch step differs")),
    }
}

fn frozen_target(
    state: &State,
    operation: &RecoveryRecord,
    retained: &PhaseRecord,
    node: u64,
    request: &TargetRequest,
) -> (r: Result<(), Error>)
    ensures
        r == snapshot_rules::frozen_target(state@, *operation, *retained, node, *request),
{
    proof {
        reveal(snapshot_rules::frozen_target);
    }
    let current = match retained_intent(state, request.command_id) {
        None => return Err(conflict("retained target dispatch lacks its Control phase")),
        Some(current) => current,
    };
    if request.tenant != operation.request.tenant || voter(&operation.voters, node).is_none()
        || retained.admitted_at_ms >= current.original_credential_expires_at_ms
        || request.not_after_ms <= retained.admitted_at_ms {
        return Err(conflict("retained target dispatch resource differs"));
    }
    let limit: u64 = dispatch_limit(operation, retained)?;
    if request.not_after_ms > limit || request.not_after_ms
        > current.original_credential_expires_at_ms {
        return Err(conflict("retained target dispatch resource differs"));
    }
    frozen_step(state, operation, retained, &current, node, request)
}

/// Whether a retained phase still holds what was admitted for it, where `form` refuses
/// what was dispatched in it, if anything.
pub fn validate_frozen_input(
    state: &State,
    operation: &RecoveryRecord,
    retained: &PhaseRecord,
    form: Option<Error>,
) -> (r: Result<(), Error>)
    ensures
        r == snapshot_rules::frozen_input(state@, *operation, *retained, form),
{
    proof {
        reveal(snapshot_rules::frozen_input);
    }
    match &retained.input {
        Dispatch::Authority(command) => {
            retained_action(state, operation, retained, &command.open())?;
            if form.is_some() {
                return Err(conflict("retained issuer command invalid"));
            }
            frozen_authority(state, operation, retained, &command.open())
        },
        Dispatch::PublishRoute(input) => frozen_route(operation, retained, input),
        Dispatch::RetireSource(request) => frozen_retirement(operation, retained, request),
        Dispatch::ControlIntent(request) => match form {
            Some(refusal) => Err(refusal),
            None => frozen_intent(state, operation, retained, &request.open()),
        },
        Dispatch::Target { node_id, request } => {
            if form.is_some() {
                return Err(conflict("retained native target request invalid"));
            }
            frozen_target(state, operation, retained, *node_id, &request.open())
        },
    }
}

fn past_confirmation(phase: RecoveryPhase) -> (b: bool)
    ensures
        b == snapshot_rules::past_confirmation(phase),
{
    phase == RecoveryPhase::Publish || phase == RecoveryPhase::Finished
}

fn past_activation(phase: RecoveryPhase) -> (b: bool)
    ensures
        b == snapshot_rules::past_activation(phase),
{
    phase == RecoveryPhase::Confirm || past_confirmation(phase)
}

fn past_fence(phase: RecoveryPhase) -> (b: bool)
    ensures
        b == snapshot_rules::past_fence(phase),
{
    phase == RecoveryPhase::Activate || past_activation(phase)
}

fn past_completion(phase: RecoveryPhase) -> (b: bool)
    ensures
        b == snapshot_rules::past_completion(phase),
{
    phase == RecoveryPhase::RetireSource || phase == RecoveryPhase::FenceSource || past_fence(phase)
}

fn past_initialization(phase: RecoveryPhase) -> (b: bool)
    ensures
        b == snapshot_rules::past_initialization(phase),
{
    phase == RecoveryPhase::Complete || past_completion(phase)
}

fn past_materialization(phase: RecoveryPhase) -> (b: bool)
    ensures
        b == snapshot_rules::past_materialization(phase),
{
    phase == RecoveryPhase::Initialize || past_initialization(phase)
}

fn skipped(operation: &RecoveryRecord) -> (b: bool)
    ensures
        b == snapshot_rules::skipped(*operation),
{
    let materialized: bool = operation.voters.first.materialization.is_some()
        && operation.voters.second.materialization.is_some()
        && operation.voters.third.materialization.is_some();
    ((past_materialization(operation.phase) || operation.phase == RecoveryPhase::Materialize)
        && operation.issuer_preparation.is_none()) || (past_materialization(operation.phase)
        && !materialized) || (past_initialization(operation.phase)
        && operation.initialization.is_none()) || (past_completion(operation.phase) && (
    operation.completion.is_none() || operation.completion_intent.is_none())) || ((operation.phase
        == RecoveryPhase::Cleanup || operation.phase == RecoveryPhase::Stopped)
        && operation.target_stop.is_none())
}

fn head_bound(state: &State, key: u128, operation: &RecoveryRecord) -> (b: bool)
    ensures
        b == snapshot_rules::head_bound(state@, key, *operation),
{
    proof {
        reveal(snapshot_rules::head_bound);
    }
    let control = match &state.lifecycle {
        None => return false,
        Some(control) => control,
    };
    key == operation.request.operation_id && operation.request.installation_sha256
        == control.installation.sha256 && operation.updated_revision <= state.revision
        && state.recovery.targets.get(operation.request.target_incarnation) == Some(
        operation.request.operation_id,
    )
}

/// How many of the rows belong to the operation.
spec fn counted(rows: Seq<(u128, PhaseRecord)>, operation: u128) -> nat
    decreases rows.len(),
{
    if rows.len() == 0 {
        0
    } else if rows.last().1.operation_id == operation {
        counted(rows.drop_last(), operation) + 1
    } else {
        counted(rows.drop_last(), operation)
    }
}

/// The keys of the rows that belong to the operation.
spec fn keys_of(rows: Seq<(u128, PhaseRecord)>, operation: u128) -> Set<u128> {
    Set::new(
        |key: u128|
            exists|i: int|
                0 <= i < rows.len() && (#[trigger] rows[i]).0 == key && rows[i].1.operation_id
                    == operation,
    )
}

proof fn lemma_counted(rows: Seq<(u128, PhaseRecord)>, operation: u128)
    requires
        table::ascending(rows),
    ensures
        keys_of(rows, operation).finite(),
        keys_of(rows, operation).len() == counted(rows, operation),
    decreases rows.len(),
{
    let all = keys_of(rows, operation);
    if rows.len() == 0 {
        assert(all =~= Set::<u128>::empty());
    } else {
        let front = rows.drop_last();
        let last = rows.last();
        let before = keys_of(front, operation);
        lemma_counted(front, operation);
        assert forall|key: u128| before.contains(key) implies all.contains(key) && key
            != last.0 by {
            let i = choose|i: int|
                0 <= i < front.len() && (#[trigger] front[i]).0 == key && front[i].1.operation_id
                    == operation;
            assert(rows[i] == front[i]);
            assert(rows[i].0 < rows[rows.len() - 1].0);
        }
        assert forall|key: u128| all.contains(key) && key != last.0 implies before.contains(
            key,
        ) by {
            let i = choose|i: int|
                0 <= i < rows.len() && (#[trigger] rows[i]).0 == key && rows[i].1.operation_id
                    == operation;
            assert(front[i] == rows[i]);
        }
        if last.1.operation_id == operation {
            assert(rows[rows.len() - 1].0 == last.0);
            assert(all =~= before.insert(last.0));
        } else {
            assert(!all.contains(last.0)) by {
                if all.contains(last.0) {
                    let i = choose|i: int|
                        0 <= i < rows.len() && (#[trigger] rows[i]).0 == last.0
                            && rows[i].1.operation_id == operation;
                    if i < rows.len() - 1 {
                        assert(rows[i].0 < rows[rows.len() - 1].0);
                    }
                }
            }
            assert(all =~= before);
        }
    }
}

/// The number of phases that belong to the operation.
fn phase_count(phases: &Table<PhaseRecord>, operation: u128) -> (n: usize)
    ensures
        n == snapshot_rules::phases_of(phases@, operation).len(),
{
    let rows: usize = phases.len();
    let ghost all = phases.rows();
    let mut n: usize = 0;
    let mut i: usize = 0;
    proof {
        assert(all.subrange(0, 0) =~= Seq::<(u128, PhaseRecord)>::empty());
    }
    while i < rows
        invariant
            i <= rows,
            rows == all.len(),
            all == phases.rows(),
            n <= i,
            n == counted(all.subrange(0, i as int), operation),
            forall|j: int| 0 <= j < i ==> phases@.get((#[trigger] all[j]).0) == Some(all[j].1),
        decreases rows - i,
    {
        let (_, row) = phases.row(i);
        proof {
            assert(all.subrange(0, i + 1).drop_last() =~= all.subrange(0, i as int));
            assert(all.subrange(0, i + 1).last() == all[i as int]);
        }
        if row.operation_id == operation {
            n = n + 1;
        }
        i = i + 1;
    }
    proof {
        assert(all.subrange(0, all.len() as int) =~= all);
        lemma_counted(all, operation);
        let set = snapshot_rules::phases_of(phases@, operation);
        assert forall|key: u128| set.contains(key) implies keys_of(all, operation).contains(
            key,
        ) by {
            let j = choose|j: int| 0 <= j < all.len() && (#[trigger] all[j]).0 == key;
            assert(phases@.get(all[j].0) == Some(all[j].1));
        }
        assert forall|key: u128| keys_of(all, operation).contains(key) implies set.contains(
            key,
        ) by {
            let j = choose|j: int|
                0 <= j < all.len() && (#[trigger] all[j]).0 == key && all[j].1.operation_id
                    == operation;
            assert(phases@.get(all[j].0) == Some(all[j].1));
        }
        assert(set =~= keys_of(all, operation));
    }
    n
}

fn next_sequence(state: &State, operation: &RecoveryRecord) -> (r: Result<u64, Error>)
    ensures
        r == snapshot_rules::next_sequence(state@, *operation),
{
    proof {
        reveal(snapshot_rules::next_sequence);
    }
    match operation.last_phase {
        None => Ok(1),
        Some(id) => {
            let last = phase(state, operation, id)?;
            match last.sequence.checked_add(1) {
                None => Err(conflict("recovery sequence exhausted")),
                Some(sequence) => Ok(sequence),
            }
        },
    }
}

fn chain(
    state: &State,
    operation: &RecoveryRecord,
    last: Option<u128>,
    sequence: u64,
    birth: Option<u128>,
) -> (r: Result<(), Error>)
    ensures
        r == snapshot_rules::chain(state@, *operation, last, sequence, birth),
{
    let mut cursor: Option<u128> = last;
    let mut expected: u64 = sequence;
    let mut births: Option<u128> = birth;
    loop
        invariant
            snapshot_rules::chain(state@, *operation, last, sequence, birth)
                == snapshot_rules::chain(state@, *operation, cursor, expected, births),
        decreases expected,
    {
        let id: u128 = match cursor {
            None => {
                if expected != 0 {
                    return Err(conflict("recovery phase chain is incomplete"));
                }
                if births.is_some() {
                    return Err(conflict("completion attempt chain omitted its committed original"));
                }
                return Ok(());
            },
            Some(id) => id,
        };
        let record = phase(state, operation, id)?;
        if record.sequence != expected || expected == 0 {
            return Err(conflict("recovery phase chain forked"));
        }
        validate_chain_link(state, operation, &record, &mut births)?;
        expected = expected - 1;
        cursor = record.previous_phase;
    }
}

fn chained(state: &State, operation: &RecoveryRecord) -> (r: Result<(), Error>)
    ensures
        r == snapshot_rules::chained(state@, *operation),
{
    proof {
        reveal(snapshot_rules::chained);
    }
    let sequence: u64 = next_sequence(state, operation)?;
    assert(sequence >= 1) by {
        reveal(snapshot_rules::next_sequence);
    }
    let count: usize = phase_count(&state.recovery.phases, operation.request.operation_id);
    if sequence != operation.next_phase_sequence || count as u64 != sequence - 1 {
        return Err(conflict("recovery phase chain head differs"));
    }
    chain(state, operation, operation.last_phase, sequence - 1, operation.completion_intent)
}

fn pending_held(state: &State, operation: &RecoveryRecord) -> (r: Result<(), Error>)
    ensures
        r == snapshot_rules::pending_held(state@, *operation),
{
    proof {
        reveal(snapshot_rules::pending_held);
    }
    let id: u128 = match operation.pending_phase {
        None => return Ok(()),
        Some(id) => id,
    };
    let pending = phase(state, operation, id)?;
    if operation.last_phase != Some(id) || pending.outcome.is_some() || pending.phase
        != operation.phase {
        return Err(conflict("recovery pending phase differs"));
    }
    Ok(())
}

fn intent_held(state: &State, operation: &RecoveryRecord, id: Option<u128>) -> (r: Result<(), Error>)
    ensures
        r == snapshot_rules::intent_held(state@, *operation, id),
{
    proof {
        reveal(snapshot_rules::intent_held);
    }
    match id {
        None => Ok(()),
        Some(id) => {
            intent(state, operation, id)?;
            Ok(())
        },
    }
}

fn intents_held(state: &State, operation: &RecoveryRecord) -> (r: Result<(), Error>)
    ensures
        r == snapshot_rules::intents_held(state@, *operation),
{
    proof {
        reveal(snapshot_rules::intents_held);
    }
    intent_held(state, operation, operation.current_intent)?;
    intent_held(state, operation, operation.materialization_intent)?;
    intent_held(state, operation, operation.completion_intent)
}

fn committed_original(state: &State, operation: &RecoveryRecord, id: u128) -> (r: Result<(), Error>)
    ensures
        r == snapshot_rules::committed_original(state@, *operation, id),
{
    proof {
        reveal(snapshot_rules::committed_original);
    }
    let origin = origin(state, operation)?;
    let input = completion_input(state, operation)?;
    let original = intent(state, operation, id)?;
    validate_original_intent(&origin, &input, &original)
}

fn original_held(state: &State, operation: &RecoveryRecord) -> (r: Result<(), Error>)
    ensures
        r == snapshot_rules::original_held(state@, *operation),
{
    proof {
        reveal(snapshot_rules::original_held);
    }
    match operation.completion_intent {
        None => Ok(()),
        Some(id) => committed_original(state, operation, id),
    }
}

fn completes(retained: &PhaseRecord, original: &LifecycleIntent) -> (b: bool)
    ensures
        b == snapshot_rules::completes(*retained, *original),
{
    proof {
        reveal(snapshot_rules::completes);
    }
    if retained.phase != RecoveryPhase::Complete {
        return false;
    }
    match retained.input {
        Dispatch::Target { node_id: _, request } => {
            let request = request.open();
            let complete: bool = match request.step {
                TargetStep::Complete(_) => true,
                _ => false,
            };
            request.command_id == original.request.command_id && complete
        },
        _ => false,
    }
}

fn attempt_held(state: &State, operation: &RecoveryRecord) -> (r: Result<(), Error>)
    ensures
        r == snapshot_rules::attempt_held(state@, *operation),
{
    proof {
        reveal(snapshot_rules::attempt_held);
    }
    let id: u128 = match operation.completion_attempt {
        None => return Ok(()),
        Some(id) => id,
    };
    let retained = phase(state, operation, id)?;
    let original = intent_of(
        state,
        operation,
        operation.completion_intent,
        "original completion identity absent",
    )?;
    if !completes(&retained, &original) {
        return Err(conflict("original completion attempt reference differs"));
    }
    Ok(())
}

fn origin_held(state: &State, operation: &RecoveryRecord) -> (r: Result<(), Error>)
    ensures
        r == snapshot_rules::origin_held(state@, *operation),
{
    proof {
        reveal(snapshot_rules::origin_held);
    }
    if operation.materialization_intent.is_some() {
        origin(state, operation)?;
    }
    Ok(())
}

fn voter_outcome(
    state: &State,
    operation: &RecoveryRecord,
    node: u64,
    id: Option<u128>,
    cleanup: bool,
) -> (r: Result<(), Error>)
    ensures
        r == snapshot_rules::voter_outcome(state@, *operation, node, id, cleanup),
{
    proof {
        reveal(snapshot_rules::voter_outcome);
    }
    let id: u128 = match id {
        None => return Ok(()),
        Some(id) => id,
    };
    let retained = phase(state, operation, id)?;
    let response = match native(&retained.outcome) {
        None => return Err(conflict("recovery voter progress lacks a native outcome")),
        Some(response) => response,
    };
    let kind: bool = match response.outcome {
        TargetOutcome::Stopped(_) => cleanup,
        TargetOutcome::Materialized(_) => !cleanup,
        _ => false,
    };
    if response.node_id != node || !kind {
        return Err(conflict("recovery voter outcome differs"));
    }
    Ok(())
}

fn voter_held(state: &State, operation: &RecoveryRecord, v: &Voter) -> (r: Result<(), Error>)
    ensures
        r == snapshot_rules::voter_held(state@, *operation, *v),
{
    proof {
        reveal(snapshot_rules::voter_held);
    }
    voter_outcome(state, operation, v.node_id, v.materialization, false)?;
    voter_outcome(state, operation, v.node_id, v.cleanup, true)
}

fn voters_held(state: &State, operation: &RecoveryRecord) -> (r: Result<(), Error>)
    ensures
        r == snapshot_rules::voters_held(state@, *operation),
{
    proof {
        reveal(snapshot_rules::voters_held);
    }
    voter_held(state, operation, &operation.voters.first)?;
    voter_held(state, operation, &operation.voters.second)?;
    voter_held(state, operation, &operation.voters.third)
}

fn resolved_reference(state: &State, operation: &RecoveryRecord, id: Option<u128>) -> (r: Result<
    (),
    Error,
>)
    ensures
        r == snapshot_rules::resolved_reference(state@, *operation, id),
{
    proof {
        reveal(snapshot_rules::resolved_reference);
    }
    let id: u128 = match id {
        None => return Ok(()),
        Some(id) => id,
    };
    let retained = phase(state, operation, id)?;
    if retained.outcome.is_none() {
        return Err(conflict("recovery progress reference is unresolved"));
    }
    Ok(())
}

fn later_references_resolved(state: &State, operation: &RecoveryRecord) -> (r: Result<(), Error>)
    ensures
        r == snapshot_rules::later_references_resolved(state@, *operation),
{
    proof {
        reveal(snapshot_rules::later_references_resolved);
    }
    resolved_reference(state, operation, operation.source_fence)?;
    resolved_reference(state, operation, operation.activation)?;
    resolved_reference(state, operation, operation.route_publication)?;
    resolved_reference(state, operation, operation.target_stop)
}

fn references_resolved(state: &State, operation: &RecoveryRecord) -> (r: Result<(), Error>)
    ensures
        r == snapshot_rules::references_resolved(state@, *operation),
{
    proof {
        reveal(snapshot_rules::references_resolved);
    }
    resolved_reference(state, operation, operation.issuer_preparation)?;
    resolved_reference(state, operation, operation.initialization)?;
    resolved_reference(state, operation, operation.completion)?;
    resolved_reference(state, operation, operation.retirement)?;
    later_references_resolved(state, operation)
}

fn acknowledged_start(retained: &PhaseRecord, node: u64) -> (b: bool)
    ensures
        b == snapshot_rules::acknowledged_start(*retained, node),
{
    proof {
        reveal(snapshot_rules::acknowledged_start);
    }
    match retained.input {
        Dispatch::Target { node_id, request } => {
            let response = match native(&retained.outcome) {
                None => return false,
                Some(response) => response,
            };
            let start: bool = match request.open().step {
                TargetStep::Start(_) => true,
                TargetStep::StartActivation { .. } => true,
                _ => false,
            };
            let started: bool = match response.outcome {
                TargetOutcome::Started { .. } => true,
                _ => false,
            };
            node_id == node && response.node_id == node && start && started
        },
        _ => false,
    }
}

fn start_held(state: &State, operation: &RecoveryRecord, v: &Voter) -> (r: Result<(), Error>)
    ensures
        r == snapshot_rules::start_held(state@, *operation, *v),
{
    proof {
        reveal(snapshot_rules::start_held);
    }
    let id: u128 = match v.started {
        None => return Ok(()),
        Some(id) => id,
    };
    let retained = phase(state, operation, id)?;
    if !acknowledged_start(&retained, v.node_id) {
        return Err(conflict("startup progress lacks exact native voter acknowledgement"));
    }
    Ok(())
}

fn starts_held(state: &State, operation: &RecoveryRecord) -> (r: Result<(), Error>)
    ensures
        r == snapshot_rules::starts_held(state@, *operation),
{
    proof {
        reveal(snapshot_rules::starts_held);
    }
    start_held(state, operation, &operation.voters.first)?;
    start_held(state, operation, &operation.voters.second)?;
    start_held(state, operation, &operation.voters.third)
}

fn outcome_of(state: &State, operation: &RecoveryRecord, id: u128) -> (r: Option<DispatchOutcome>)
    ensures
        r == snapshot_rules::outcome_of(state@, *operation, id),
{
    proof {
        reveal(snapshot_rules::outcome_of);
    }
    match phase(state, operation, id) {
        Err(_) => None,
        Ok(retained) => retained.outcome,
    }
}

fn is_initialization(outcome: &Option<DispatchOutcome>) -> (b: bool)
    ensures
        b == snapshot_rules::is_initialization(*outcome),
{
    proof {
        reveal(snapshot_rules::is_initialization);
    }
    match native(outcome) {
        None => false,
        Some(response) => match response.outcome {
            TargetOutcome::Initialized { .. } => true,
            _ => false,
        },
    }
}

fn is_completion(outcome: &Option<DispatchOutcome>) -> (b: bool)
    ensures
        b == snapshot_rules::is_completion(*outcome),
{
    proof {
        reveal(snapshot_rules::is_completion);
    }
    match native(outcome) {
        None => false,
        Some(response) => match response.outcome {
            TargetOutcome::Completed(_) => true,
            TargetOutcome::Inspected(_) => true,
            _ => false,
        },
    }
}

fn is_preparation(outcome: &Option<DispatchOutcome>) -> (b: bool)
    ensures
        b == snapshot_rules::is_preparation(*outcome),
{
    proof {
        reveal(snapshot_rules::is_preparation);
    }
    match outcome {
        Some(DispatchOutcome::Authority(signed)) => match signed.open().receipt.outcome {
            AuthorityOutcome::TargetPrepared { .. } => true,
            _ => false,
        },
        _ => false,
    }
}

fn kinds_held(state: &State, operation: &RecoveryRecord) -> (r: Result<(), Error>)
    ensures
        r == snapshot_rules::kinds_held(state@, *operation),
{
    proof {
        reveal(snapshot_rules::kinds_held);
    }
    match operation.initialization {
        Some(id) => {
            if !is_initialization(&outcome_of(state, operation, id)) {
                return Err(conflict("initialization progress reference differs"));
            }
        },
        None => {},
    }
    match operation.completion {
        Some(id) => {
            if !is_completion(&outcome_of(state, operation, id)) {
                return Err(conflict("completion progress reference differs"));
            }
        },
        None => {},
    }
    match operation.issuer_preparation {
        Some(id) => {
            if !is_preparation(&outcome_of(state, operation, id)) {
                return Err(conflict("recovery preparation reference differs"));
            }
        },
        None => {},
    }
    Ok(())
}

fn retirement_held(state: &State, operation: &RecoveryRecord) -> (r: Result<(), Error>)
    ensures
        r == snapshot_rules::retirement_held(state@, *operation),
{
    proof {
        reveal(snapshot_rules::retirement_held);
    }
    let id: u128 = match operation.retirement {
        None => return Ok(()),
        Some(id) => id,
    };
    let retained = phase(state, operation, id)?;
    let receipt = match retained.outcome {
        Some(DispatchOutcome::SourceRetired(receipt)) => receipt,
        _ => return Err(conflict("source retirement progress reference differs")),
    };
    match retained.input {
        Dispatch::RetireSource(_) => validate_retirement(operation, &receipt),
        _ => Err(conflict("source retirement progress input differs")),
    }
}

fn fences(operation: &RecoveryRecord, outcome: &Option<DispatchOutcome>) -> (b: bool)
    ensures
        b == snapshot_rules::fences(*operation, *outcome),
{
    proof {
        reveal(snapshot_rules::fences);
    }
    match outcome {
        Some(DispatchOutcome::Authority(signed)) => signed.open().receipt.outcome
            == AuthorityOutcome::Fenced {
            incarnation: operation.request.source_incarnation,
            authority_epoch: operation.request.source_authority_epoch,
        },
        _ => false,
    }
}

fn fence_held(state: &State, operation: &RecoveryRecord) -> (r: Result<(), Error>)
    ensures
        r == snapshot_rules::fence_held(state@, *operation),
{
    proof {
        reveal(snapshot_rules::fence_held);
    }
    match operation.source_fence {
        None => if past_fence(operation.phase) {
            Err(conflict("activation progress lacks exact source fence"))
        } else {
            Ok(())
        },
        Some(id) => {
            let retained = phase(state, operation, id)?;
            if !fences(operation, &retained.outcome) {
                return Err(conflict("source fence progress reference differs"));
            }
            Ok(())
        },
    }
}

fn planned_retired(operation: &RecoveryRecord) -> (r: Result<(), Error>)
    ensures
        r == snapshot_rules::planned_retired(*operation),
{
    proof {
        reveal(snapshot_rules::planned_retired);
    }
    let planned: bool = match operation.request.source_mode {
        SourceMode::Planned { .. } => true,
        SourceMode::SourceUnavailable => false,
    };
    if planned && (operation.phase == RecoveryPhase::FenceSource || past_fence(operation.phase))
        && operation.retirement.is_none() {
        return Err(conflict("planned source fence lacks verified retirement"));
    }
    Ok(())
}

fn resolution_held(state: &State, operation: &RecoveryRecord, id: u128) -> (r: Result<(), Error>)
    ensures
        r == snapshot_rules::resolution_held(state@, *operation, id),
{
    proof {
        reveal(snapshot_rules::resolution_held);
    }
    let retained = phase(state, operation, id)?;
    match retained.outcome {
        Some(DispatchOutcome::AuthorityResolution(signed)) => {
            let stop = phase(state, operation, signed.open().receipt.command.command_id)?;
            if stop.outcome != Some(DispatchOutcome::Authority(signed)) {
                return Err(conflict("activation resolution differs from permanent stop outcome"));
            }
            Ok(())
        },
        _ => Ok(()),
    }
}

fn activation_attempt_held(state: &State, operation: &RecoveryRecord) -> (r: Result<(), Error>)
    ensures
        r == snapshot_rules::activation_attempt_held(state@, *operation),
{
    proof {
        reveal(snapshot_rules::activation_attempt_held);
    }
    match operation.activation_attempt {
        None => Ok(()),
        Some(id) => {
            attempt(state, operation)?;
            resolution_held(state, operation, id)
        },
    }
}

fn winner_held(state: &State, operation: &RecoveryRecord) -> (r: Result<(), Error>)
    ensures
        r == snapshot_rules::winner_held(state@, *operation),
{
    proof {
        reveal(snapshot_rules::winner_held);
    }
    if operation.activation.is_none() {
        return Ok(());
    }
    if operation.activation != operation.activation_attempt {
        return Err(conflict("committed winner differs from original activation attempt"));
    }
    winner(state, operation)?;
    Ok(())
}

fn activation_decided(state: &State, operation: &RecoveryRecord) -> (r: Result<(), Error>)
    ensures
        r == snapshot_rules::activation_decided(state@, *operation),
{
    proof {
        reveal(snapshot_rules::activation_decided);
    }
    if operation.phase == RecoveryPhase::StopTarget || operation.phase == RecoveryPhase::Cleanup
        || operation.phase == RecoveryPhase::Stopped {
        require_negative_attempt(state, operation)?;
    }
    if past_activation(operation.phase) && operation.activation.is_none() {
        return Err(conflict("target confirmation precedes committed issuer winner"));
    }
    Ok(())
}

fn confirmation_held(state: &State, operation: &RecoveryRecord, v: &Voter) -> (r: Result<(), Error>)
    ensures
        r == snapshot_rules::confirmation_held(state@, *operation, *v),
{
    proof {
        reveal(snapshot_rules::confirmation_held);
    }
    let id: u128 = match v.confirmation {
        None => return Ok(()),
        Some(id) => id,
    };
    let retained = phase(state, operation, id)?;
    let response = match native(&retained.outcome) {
        None => return Err(conflict("target confirmation lacks native outcome")),
        Some(response) => response,
    };
    let signed = match activated_by(&response.outcome) {
        None => return Err(conflict("target confirmation proof differs")),
        Some(signed) => signed,
    };
    validate_local_proof(state, operation, v.node_id, &signed, true)?;
    match local_proof(state, operation)? {
        None => Ok(()),
        Some(first) => if same_activation(&first, &signed) {
            Ok(())
        } else {
            Err(conflict("target confirmations disagree"))
        },
    }
}

fn confirmations_held(state: &State, operation: &RecoveryRecord) -> (r: Result<(), Error>)
    ensures
        r == snapshot_rules::confirmations_held(state@, *operation),
{
    proof {
        reveal(snapshot_rules::confirmations_held);
    }
    confirmation_held(state, operation, &operation.voters.first)?;
    confirmation_held(state, operation, &operation.voters.second)?;
    confirmation_held(state, operation, &operation.voters.third)
}

fn is_publication(retained: &PhaseRecord) -> (b: bool)
    ensures
        b == snapshot_rules::is_publication(*retained),
{
    proof {
        reveal(snapshot_rules::is_publication);
    }
    let route: bool = match retained.input {
        Dispatch::PublishRoute(_) => true,
        _ => false,
    };
    let published: bool = match retained.outcome {
        Some(DispatchOutcome::RoutePublished { .. }) => true,
        _ => false,
    };
    route && published
}

fn publication_held(state: &State, operation: &RecoveryRecord) -> (r: Result<(), Error>)
    ensures
        r == snapshot_rules::publication_held(state@, *operation),
{
    proof {
        reveal(snapshot_rules::publication_held);
    }
    if past_confirmation(operation.phase) && (operation.voters.first.confirmation.is_none()
        || operation.voters.second.confirmation.is_none()
        || operation.voters.third.confirmation.is_none()) {
        return Err(conflict("route publication lacks every local activation confirmation"));
    }
    let id: u128 = match operation.route_publication {
        None => return Ok(()),
        Some(id) => id,
    };
    let retained = phase(state, operation, id)?;
    if !is_publication(&retained) {
        return Err(conflict("route publication reference differs"));
    }
    Ok(())
}

fn stop_held(state: &State, operation: &RecoveryRecord) -> (r: Result<(), Error>)
    ensures
        r == snapshot_rules::stop_held(state@, *operation),
{
    proof {
        reveal(snapshot_rules::stop_held);
    }
    if operation.target_stop.is_some() {
        stop_reference(state, operation)?;
    }
    Ok(())
}

fn head_checked(state: &State, key: u128, operation: &RecoveryRecord) -> (r: Result<(), Error>)
    ensures
        r == snapshot_rules::head_checked(state@, key, *operation),
{
    proof {
        reveal(snapshot_rules::head_checked);
    }
    if skipped(operation) {
        return Err(conflict("recovery progress skipped a required committed predecessor"));
    }
    if !head_bound(state, key, operation) {
        return Err(conflict("recovery head or permanent target binding differs"));
    }
    partition(state, operation)?;
    chained(state, operation)?;
    pending_held(state, operation)
}

fn target_checked(state: &State, operation: &RecoveryRecord) -> (r: Result<(), Error>)
    ensures
        r == snapshot_rules::target_checked(state@, *operation),
{
    proof {
        reveal(snapshot_rules::target_checked);
    }
    intents_held(state, operation)?;
    original_held(state, operation)?;
    attempt_held(state, operation)?;
    origin_held(state, operation)?;
    voters_held(state, operation)?;
    references_resolved(state, operation)?;
    starts_held(state, operation)?;
    kinds_held(state, operation)
}

fn activation_checked(state: &State, operation: &RecoveryRecord) -> (r: Result<(), Error>)
    ensures
        r == snapshot_rules::activation_checked(state@, *operation),
{
    proof {
        reveal(snapshot_rules::activation_checked);
    }
    retirement_held(state, operation)?;
    fence_held(state, operation)?;
    planned_retired(operation)?;
    activation_attempt_held(state, operation)?;
    winner_held(state, operation)?;
    activation_decided(state, operation)?;
    confirmations_held(state, operation)?;
    publication_held(state, operation)?;
    stop_held(state, operation)?;
    validate_progress(state, operation)
}

fn operation_checked(state: &State, key: u128, operation: &RecoveryRecord) -> (r: Result<(), Error>)
    ensures
        r == snapshot_rules::operation_checked(state@, key, *operation),
{
    proof {
        reveal(snapshot_rules::operation_checked);
    }
    head_checked(state, key, operation)?;
    target_checked(state, operation)?;
    activation_checked(state, operation)
}

fn phase_within(key: u128, operation: &RecoveryRecord, retained: &PhaseRecord) -> (b: bool)
    ensures
        b == snapshot_rules::phase_within(key, *operation, *retained),
{
    proof {
        reveal(snapshot_rules::phase_within);
    }
    let resolved: bool = match retained.resolved_revision {
        None => true,
        Some(revision) => revision <= operation.updated_revision,
    };
    key == retained.phase_id && retained.sequence < operation.next_phase_sequence
        && operation.created_revision <= retained.prepared_revision && retained.prepared_revision
        <= operation.updated_revision && resolved
}

fn phase_follows(state: &State, operation: &RecoveryRecord, retained: &PhaseRecord) -> (r: Result<
    (),
    Error,
>)
    ensures
        r == snapshot_rules::phase_follows(state@, *operation, *retained),
{
    proof {
        reveal(snapshot_rules::phase_follows);
    }
    match retained.previous_phase {
        Some(id) => {
            let previous = phase(state, operation, id)?;
            if previous.sequence.checked_add(1) != Some(retained.sequence)
                || previous.prepared_revision >= retained.prepared_revision {
                return Err(conflict("recovery phase chain differs"));
            }
            Ok(())
        },
        None => if retained.sequence == 1 {
            Ok(())
        } else {
            Err(conflict("recovery phase chain origin differs"))
        },
    }
}

fn phase_in_context(
    state: &State,
    operation: &RecoveryRecord,
    retained: &PhaseRecord,
    form: Option<Error>,
) -> (r: Result<(), Error>)
    ensures
        r == snapshot_rules::phase_in_context(state@, *operation, *retained, form),
{
    proof {
        reveal(snapshot_rules::phase_in_context);
    }
    let context = for_phase(state, operation, retained)?;
    validate_frozen_input(state, &context, retained, form)?;
    match retained.outcome {
        None => Ok(()),
        Some(outcome) => validate_outcome(state, &context, retained, &outcome),
    }
}

fn phase_checked(state: &State, key: u128, retained: &PhaseRecord, form: Option<Error>) -> (r: Result<
    (),
    Error,
>)
    ensures
        r == snapshot_rules::phase_checked(state@, key, *retained, form),
{
    proof {
        reveal(snapshot_rules::phase_checked);
    }
    let operation = match state.recovery.operations.get(retained.operation_id) {
        None => return Err(conflict("recovery phase has no operation")),
        Some(operation) => operation,
    };
    if !phase_within(key, &operation, retained) {
        return Err(conflict("recovery retained phase identity differs"));
    }
    phase_follows(state, &operation, retained)?;
    phase_in_context(state, &operation, retained, form)
}

fn succeeds(next: &PhaseRecord, history: &CompletionHistory) -> (b: bool)
    ensures
        b == snapshot_rules::succeeds(*next, *history),
{
    proof {
        reveal(snapshot_rules::succeeds);
    }
    next.completion_scope == Some(
        CompletionScope {
            intent: history.successor_intent,
            predecessor: Some(history.terminal),
        },
    ) && is_committed_birth(next)
}

fn closed_row(
    state: &State,
    operation: &RecoveryRecord,
    history: &CompletionHistory,
    id: u128,
    from: u64,
    until: u64,
) -> (r: Result<(), Error>)
    ensures
        r == snapshot_rules::closed_row(state@, *operation, *history, id, from, until),
{
    proof {
        reveal(snapshot_rules::closed_row);
    }
    let row = phase(state, operation, id)?;
    if row.completion_scope != Some(history.scope) || row.sequence < from || row.sequence
        >= until {
        return Err(conflict("closed completion cursor contains a foreign or later phase"));
    }
    Ok(())
}

fn closed_evidence(
    state: &State,
    operation: &RecoveryRecord,
    history: &CompletionHistory,
    from: u64,
    until: u64,
) -> (r: Result<(), Error>)
    ensures
        r == snapshot_rules::closed_evidence(state@, *operation, *history, from, until),
{
    proof {
        reveal(snapshot_rules::closed_evidence);
    }
    closed_row(state, operation, history, history.preparation, from, until)?;
    closed_row(state, operation, history, history.resolution_attempt, from, until)?;
    closed_row(state, operation, history, history.terminal, from, until)?;
    match history.attempted_completion {
        None => Ok(()),
        Some(id) => closed_row(state, operation, history, id, from, until),
    }
}

fn closed_rows(
    state: &State,
    operation: &RecoveryRecord,
    history: &CompletionHistory,
    from: u64,
    until: u64,
) -> (r: Result<(), Error>)
    ensures
        r == snapshot_rules::closed_rows(state@, *operation, *history, from, until),
{
    proof {
        reveal(snapshot_rules::closed_rows);
    }
    closed_row(state, operation, history, history.scope.intent, from, until)?;
    closed_row(state, operation, history, history.current_intent, from, until)?;
    closed_row(state, operation, history, history.preparation_attempt, from, until)?;
    closed_evidence(state, operation, history, from, until)
}

fn sealed_before(
    state: &State,
    operation: &RecoveryRecord,
    history: &CompletionHistory,
    next: &PhaseRecord,
) -> (r: Result<(), Error>)
    ensures
        r == snapshot_rules::sealed_before(state@, *operation, *history, *next),
{
    proof {
        reveal(snapshot_rules::sealed_before);
    }
    let view = historical_view(operation, history);
    let fact = terminal(state, &view)?;
    sealed_reference(&fact)?;
    let closed = phase(state, operation, history.terminal)?;
    let revision: u64 = match closed.resolved_revision {
        None => return Err(conflict("closed completion terminal is unresolved")),
        Some(revision) => revision,
    };
    if next.prepared_revision <= revision {
        return Err(conflict("successor birth predates durable predecessor resolution"));
    }
    Ok(())
}

fn closed_context(
    state: &State,
    operation: &RecoveryRecord,
    history: &CompletionHistory,
    next: &PhaseRecord,
) -> (r: Result<(), Error>)
    ensures
        r == snapshot_rules::closed_context(state@, *operation, *history, *next),
{
    proof {
        reveal(snapshot_rules::closed_context);
    }
    let view = historical_view(operation, history);
    let origin = origin(state, operation)?;
    let input = completion_input(state, &view)?;
    let original = intent(state, operation, history.scope.intent)?;
    validate_original_intent(&origin, &input, &original)?;
    validate_progress(state, &view)?;
    sealed_before(state, operation, history, next)
}

fn history_checked(state: &State, key: u128, history: &CompletionHistory) -> (r: Result<(), Error>)
    ensures
        r == snapshot_rules::history_checked(state@, key, *history),
{
    proof {
        reveal(snapshot_rules::history_checked);
    }
    let operation = match state.recovery.operations.get(history.operation_id) {
        None => return Err(conflict("closed completion history has no operation")),
        Some(operation) => operation,
    };
    if key != history.scope.intent || operation.completion_intent == Some(history.scope.intent) {
        return Err(
            conflict("closed completion history substituted its key or active cursor"),
        );
    }
    let original = phase(state, &operation, history.scope.intent)?;
    let next = phase(state, &operation, history.successor_intent)?;
    if !succeeds(&next, history) {
        return Err(conflict("closed completion lacks its exact committed successor"));
    }
    closed_rows(state, &operation, history, original.sequence, next.sequence)?;
    closed_context(state, &operation, history, &next)
}

/// Whether every closed attempt is sound.
pub fn validate_history(state: &State) -> (r: Result<(), Error>)
    ensures
        r == snapshot_rules::histories(state@),
{
    let ghost check = |key: u128, history: CompletionHistory|
        snapshot_rules::history_checked(state@, key, history);
    let rows: usize = state.recovery.completion_history.len();
    let mut i: usize = 0;
    while i < rows
        invariant
            i <= rows,
            rows == state.recovery.completion_history.rows().len(),
            table::ascending(state.recovery.completion_history.rows()),
            table::covers(
                state.recovery.completion_history.rows(),
                state.recovery.completion_history@,
            ),
            check == (|key: u128, history: CompletionHistory|
                snapshot_rules::history_checked(state@, key, history)),
            table::passed(
                state.recovery.completion_history.rows(),
                state.recovery.completion_history@,
                check,
                i as int,
            ),
        decreases rows - i,
    {
        let (key, history) = state.recovery.completion_history.row(i);
        match history_checked(state, key, &history) {
            Err(e) => {
                proof {
                    table::lemma_refused(
                        state.recovery.completion_history.rows(),
                        state.recovery.completion_history@,
                        check,
                        i as int,
                    );
                }
                return Err(e);
            },
            Ok(()) => {},
        }
        i = i + 1;
    }
    proof {
        table::lemma_passed(
            state.recovery.completion_history.rows(),
            state.recovery.completion_history@,
            check,
        );
    }
    Ok(())
}

fn operation_formed(state: &State, forms: &RecoveryForms, key: u128, operation: &RecoveryRecord) -> (r:
    Result<(), Error>)
    ensures
        r == record_forms::formed(
            forms@.operations.get(key),
            snapshot_rules::operation_checked(state@, key, *operation),
        ),
{
    match forms.operations.get(key) {
        Some(refusal) => Err(refusal),
        None => operation_checked(state, key, operation),
    }
}

fn operations_checked(state: &State, forms: &RecoveryForms) -> (r: Result<(), Error>)
    ensures
        r == snapshot_rules::operations_checked(state@, forms@),
{
    let ghost check = |key: u128, op: RecoveryRecord|
        record_forms::formed(
            forms@.operations.get(key),
            snapshot_rules::operation_checked(state@, key, op),
        );
    let rows: usize = state.recovery.operations.len();
    let mut i: usize = 0;
    while i < rows
        invariant
            i <= rows,
            rows == state.recovery.operations.rows().len(),
            table::ascending(state.recovery.operations.rows()),
            table::covers(state.recovery.operations.rows(), state.recovery.operations@),
            check == (|key: u128, op: RecoveryRecord|
                record_forms::formed(
                    forms@.operations.get(key),
                    snapshot_rules::operation_checked(state@, key, op),
                )),
            table::passed(
                state.recovery.operations.rows(),
                state.recovery.operations@,
                check,
                i as int,
            ),
        decreases rows - i,
    {
        let (key, operation) = state.recovery.operations.row(i);
        match operation_formed(state, forms, key, &operation) {
            Err(e) => {
                proof {
                    table::lemma_refused(
                        state.recovery.operations.rows(),
                        state.recovery.operations@,
                        check,
                        i as int,
                    );
                }
                return Err(e);
            },
            Ok(()) => {},
        }
        i = i + 1;
    }
    proof {
        table::lemma_passed(
            state.recovery.operations.rows(),
            state.recovery.operations@,
            check,
        );
    }
    Ok(())
}

fn phase_formed(state: &State, forms: &RecoveryForms, key: u128, retained: &PhaseRecord) -> (r: Result<
    (),
    Error,
>)
    ensures
        r == record_forms::formed(
            forms@.phases.get(key),
            snapshot_rules::phase_checked(state@, key, *retained, forms@.inputs.get(key)),
        ),
{
    match forms.phases.get(key) {
        Some(refusal) => Err(refusal),
        None => phase_checked(state, key, retained, forms.inputs.get(key)),
    }
}

fn phases_checked(state: &State, forms: &RecoveryForms) -> (r: Result<(), Error>)
    ensures
        r == snapshot_rules::phases_checked(state@, forms@),
{
    let ghost check = |key: u128, p: PhaseRecord|
        record_forms::formed(
            forms@.phases.get(key),
            snapshot_rules::phase_checked(state@, key, p, forms@.inputs.get(key)),
        );
    let rows: usize = state.recovery.phases.len();
    let mut i: usize = 0;
    while i < rows
        invariant
            i <= rows,
            rows == state.recovery.phases.rows().len(),
            table::ascending(state.recovery.phases.rows()),
            table::covers(state.recovery.phases.rows(), state.recovery.phases@),
            check == (|key: u128, p: PhaseRecord|
                record_forms::formed(
                    forms@.phases.get(key),
                    snapshot_rules::phase_checked(state@, key, p, forms@.inputs.get(key)),
                )),
            table::passed(state.recovery.phases.rows(), state.recovery.phases@, check, i as int),
        decreases rows - i,
    {
        let (key, retained) = state.recovery.phases.row(i);
        match phase_formed(state, forms, key, &retained) {
            Err(e) => {
                proof {
                    table::lemma_refused(
                        state.recovery.phases.rows(),
                        state.recovery.phases@,
                        check,
                        i as int,
                    );
                }
                return Err(e);
            },
            Ok(()) => {},
        }
        i = i + 1;
    }
    proof {
        table::lemma_passed(state.recovery.phases.rows(), state.recovery.phases@, check);
    }
    Ok(())
}

fn orphaned(state: &State) -> (b: bool)
    ensures
        b == snapshot_rules::orphaned(state@),
{
    let rows: usize = state.recovery.phases.len();
    let mut i: usize = 0;
    while i < rows
        invariant
            i <= rows,
            rows == state.recovery.phases.rows().len(),
            table::covers(state.recovery.phases.rows(), state.recovery.phases@),
            forall|j: int|
                0 <= j < i ==> state@.recovery.operations.dom().contains(
                    state@.recovery.phases[(#[trigger] state.recovery.phases.rows()[j]).0].operation_id,
                ),
        decreases rows - i,
    {
        let (key, retained) = state.recovery.phases.row(i);
        assert(state@.recovery.phases.dom().contains(key));
        if !state.recovery.operations.contains(retained.operation_id) {
            return true;
        }
        i = i + 1;
    }
    proof {
        assert forall|id: u128| #[trigger]
            state@.recovery.phases.dom().contains(
                id,
            ) implies state@.recovery.operations.dom().contains(
            state@.recovery.phases[id].operation_id,
        ) by {
            let rows = state.recovery.phases.rows();
            let j = choose|j: int| 0 <= j < rows.len() && (#[trigger] rows[j]).0 == id;
            assert(rows[j].0 == id);
        }
    }
    false
}

/// Whether the journal is sound: every head, every phase in its own context,
/// and every closed attempt. `forms` holds what refuses the forms of its records.
pub fn validate(state: &State, forms: &RecoveryForms) -> (r: Result<(), Error>)
    ensures
        r == snapshot_rules::journal(state@, forms@),
{
    proof {
        reveal(snapshot_rules::journal);
    }
    let recovery = &state.recovery;
    if recovery.operations.len() == 0 && recovery.phases.len() == 0 && recovery.targets.len() == 0
        && recovery.completion_history.len() == 0 {
        return Ok(());
    }
    if !is_control(state) {
        return Err(conflict("application snapshot contains closed recovery authority"));
    }
    if state.lifecycle.is_none() {
        return Err(conflict("recovery history lacks its Control installation"));
    }
    if recovery.targets.len() != recovery.operations.len() {
        return Err(conflict("recovery permanent target index count differs"));
    }
    operations_checked(state, forms)?;
    if orphaned(state) {
        return Err(conflict("recovery phase belongs to an absent operation"));
    }
    phases_checked(state, forms)?;
    validate_history(state)
}

} // verus!
