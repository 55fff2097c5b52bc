//! Positive preparation and terminal resolution are separate durable Control
//! phases. No missing receiver fact authorizes another completion attempt.
use vstd::prelude::*;

use crate::encoding::{
    labelled_digest, ATTEMPT_STATUS, COMPLETION, QUORUM, RESOLUTION, TERMINAL_STATUS,
};
use crate::held::hold;
use crate::errors::{conflict, Error};
use crate::model::{
    AttemptStatusInput, CompletionFact, CompletionInput, CompletionTerminal, Dispatch,
    DispatchOutcome, LifecycleIntent, LifecyclePhase, PhaseRecord, QuorumInput, RecoveryPhase,
    RecoveryRecord, ReplicaInput, ResolutionInput, SignedAttempt, SignedAttemptStatus,
    SignedResolution, SignedTerminalStatus, State, TargetOrigin, TargetOutcome, TargetRequest,
    TargetResponse, TargetStep, TerminalStatusInput,
};
use crate::receiver_rules;
use crate::recovery_attempts::{
    completion_input, matches_attempt, original, preparation, prepared_attempt, resolution_input,
    resolved_before, status_input, target_request, terminal, terminal_response,
    terminal_status_input,
};
use crate::recovery_lookup::{
    accepts_phase, commits, deadline, origin, phase, phase_of, retained_intent,
    validate_original_intent,
};
use crate::recovery_quorum::{
    all_started, established_destination, quorum_input, require_eligible_observer,
    require_initialized_mutation_observer, started_for,
};
use crate::recovery_outcomes::{
    attempt_status_by, native, prepared_by, resolved_by, started_by, terminal_status_by,
};
use crate::rules;

verus! {

pub fn quorum_of(input: &ReplicaInput) -> (r: QuorumInput)
    ensures
        r == receiver_rules::quorum_of(*input),
{
    proof {
        reveal(receiver_rules::quorum_of);
    }
    match input {
        ReplicaInput::Quorum(quorum) => quorum.open(),
        ReplicaInput::Completion(input) => input.open().quorum,
        ReplicaInput::CompletionAttemptStatus(input) => input.open().original_input.quorum,
        ReplicaInput::CompletionTerminalStatus(input) => input.open().original_input.attempt.input.quorum,
        ReplicaInput::CompletionResolution(input) => input.open().attempt.input.quorum,
        ReplicaInput::Inspection(input) => input.open().quorum,
    }
}

pub fn validate_complete_dispatch(
    state: &State,
    operation: &RecoveryRecord,
    request: &TargetRequest,
) -> (r: Result<(), Error>)
    ensures
        r == receiver_rules::complete_dispatch(state@, *operation, *request),
{
    proof {
        reveal(receiver_rules::complete_dispatch);
    }
    let attempt = preparation(state, operation)?;
    let input = match request.step {
        TargetStep::Complete(input) => input.open(),
        _ => return Err(conflict("original completion dispatch kind differs")),
    };
    if request.command_id != attempt.intent.request.command_id || input != attempt.input
        || request.not_after_ms != attempt.dispatch_not_after_ms {
        return Err(
            conflict("Complete dispatch changed its exact prepared input or original deadline"),
        );
    }
    Ok(())
}

pub fn is_step(step: &TargetStep) -> (b: bool)
    ensures
        b == receiver_rules::is_step(*step),
{
    proof {
        reveal(receiver_rules::is_step);
    }
    match step {
        TargetStep::PrepareComplete(_) => true,
        TargetStep::InspectCompletionAttempt(_) => true,
        TargetStep::ResolveComplete(_) => true,
        TargetStep::InspectCompletionResolution(_) => true,
        TargetStep::Start(ReplicaInput::CompletionTerminalStatus(_)) => true,
        TargetStep::Start(ReplicaInput::CompletionAttemptStatus(_)) => true,
        TargetStep::Start(ReplicaInput::CompletionResolution(_)) => true,
        _ => false,
    }
}

fn prepare_step(
    state: &State,
    operation: &RecoveryRecord,
    current: &LifecycleIntent,
    request: &TargetRequest,
    input: &CompletionInput,
) -> (r: Result<(), Error>)
    ensures
        r == receiver_rules::prepare_step(state@, *operation, *current, *request, *input),
{
    proof {
        reveal(receiver_rules::prepare_step);
    }
    let origin = origin(state, operation)?;
    let expected = completion_input(state, operation)?;
    validate_original_intent(&origin, &expected, current)?;
    if *input != expected {
        return Err(conflict("preparation dispatch canonical input differs"));
    }
    match operation.completion_preparation_attempt {
        None => Ok(()),
        Some(id) => {
            let retained = phase(state, operation, id)?;
            let (_, first) = target_request(&retained)?;
            if first != *request {
                return Err(conflict("preparation retry changed its original dispatch"));
            }
            Ok(())
        },
    }
}

fn status_step(
    state: &State,
    operation: &RecoveryRecord,
    current: &LifecycleIntent,
    input: &AttemptStatusInput,
) -> (r: Result<(), Error>)
    ensures
        r == receiver_rules::status_step(state@, *operation, *current, *input),
{
    proof {
        reveal(receiver_rules::status_step);
    }
    let expected = status_input(state, operation)?;
    if *input != expected {
        return Err(conflict("preparation status input differs"));
    }
    let origin = origin(state, operation)?;
    commits(
        &origin,
        current,
        LifecyclePhase::InspectCompletionAttempt,
        labelled_digest(ATTEMPT_STATUS, input),
    )
}

fn terminal_status_step(
    state: &State,
    operation: &RecoveryRecord,
    current: &LifecycleIntent,
    input: &TerminalStatusInput,
) -> (r: Result<(), Error>)
    ensures
        r == receiver_rules::terminal_status_step(state@, *operation, *current, *input),
{
    proof {
        reveal(receiver_rules::terminal_status_step);
    }
    let expected = terminal_status_input(state, operation)?;
    if *input != expected {
        return Err(conflict("terminal status changed its original resolver"));
    }
    let origin = origin(state, operation)?;
    commits(
        &origin,
        current,
        LifecyclePhase::InspectCompletionResolution,
        labelled_digest(TERMINAL_STATUS, input),
    )
}

fn resolution_step(
    state: &State,
    operation: &RecoveryRecord,
    current: &LifecycleIntent,
    input: &ResolutionInput,
) -> (r: Result<(), Error>)
    ensures
        r == receiver_rules::resolution_step(state@, *operation, *current, *input),
{
    proof {
        reveal(receiver_rules::resolution_step);
    }
    let expected = resolution_input(state, operation)?;
    if *input != expected {
        return Err(conflict("terminal resolution lacks the retained exact preparation"));
    }
    let origin = origin(state, operation)?;
    commits(
        &origin,
        current,
        LifecyclePhase::ResolveComplete,
        labelled_digest(RESOLUTION, input),
    )?;
    let evidence = phase_of(
        state,
        operation,
        operation.completion_preparation,
        "positive preparation evidence absent",
    )?;
    if !resolved_before(&evidence, current.revision) {
        return Err(
            conflict("resolution Control intent precedes durable preparation evidence"),
        );
    }
    Ok(())
}

fn frozen_step(
    state: &State,
    operation: &RecoveryRecord,
    current: &LifecycleIntent,
    request: &TargetRequest,
) -> (r: Result<(), Error>)
    ensures
        r == receiver_rules::frozen_step(state@, *operation, *current, *request),
{
    proof {
        reveal(receiver_rules::frozen_step);
    }
    match &request.step {
        TargetStep::PrepareComplete(input) => prepare_step(
            state,
            operation,
            current,
            request,
            &input.open(),
        ),
        TargetStep::Start(ReplicaInput::CompletionAttemptStatus(input)) => status_step(
            state,
            operation,
            current,
            &input.open(),
        ),
        TargetStep::InspectCompletionAttempt(input) => status_step(
            state,
            operation,
            current,
            &input.open(),
        ),
        TargetStep::Start(
            ReplicaInput::CompletionTerminalStatus(input),
        ) => terminal_status_step(state, operation, current, &input.open()),
        TargetStep::InspectCompletionResolution(input) => terminal_status_step(
            state,
            operation,
            current,
            &input.open(),
        ),
        TargetStep::Start(ReplicaInput::CompletionResolution(input)) => resolution_step(
            state,
            operation,
            current,
            &input.open(),
        ),
        TargetStep::ResolveComplete(input) => resolution_step(state, operation, current, &input.open()),
        _ => Err(conflict("completion receiver operation differs")),
    }
}

/// Whether a receiver step may be sent, or, without `admission`, was one.
pub fn validate_step(
    state: &State,
    operation: &RecoveryRecord,
    current: &LifecycleIntent,
    node: u64,
    request: &TargetRequest,
    admission: bool,
) -> (r: Result<(), Error>)
    ensures
        r == receiver_rules::step(state@, *operation, *current, node, *request, admission),
{
    proof {
        reveal(receiver_rules::step);
    }
    frozen_step(state, operation, current, request)?;
    if !admission {
        return Ok(());
    }
    match request.step {
        TargetStep::Start(_) => {
            if started_for(state, operation, node, current.request.command_id)? {
                return Err(conflict("receiver voter already started under this exact phase"));
            }
            Ok(())
        },
        TargetStep::PrepareComplete(_) => require_initialized_mutation_observer(
            state,
            operation,
            node,
        ),
        _ => require_eligible_observer(state, operation, current.request.command_id, node),
    }
}

pub fn attempt_holds(origin: &TargetOrigin, signed: &SignedAttempt) -> (b: bool)
    ensures
        b == receiver_rules::attempt_holds(*origin, *signed),
{
    proof {
        reveal(receiver_rules::attempt_holds);
    }
    signed.authentic && signed.attempt.origin == *origin
}

pub fn attempt_status_holds(input: &AttemptStatusInput, signed: &SignedAttemptStatus) -> (b: bool)
    ensures
        b == receiver_rules::attempt_status_holds(*input, *signed),
{
    proof {
        reveal(receiver_rules::attempt_status_holds);
    }
    signed.authentic && signed.input == *input && matches_attempt(input, &signed.attempt)
}

pub fn resolution_holds(origin: &TargetOrigin, signed: &SignedResolution) -> (b: bool)
    ensures
        b == receiver_rules::resolution_holds(*origin, *signed),
{
    proof {
        reveal(receiver_rules::resolution_holds);
    }
    signed.authentic && signed.fact.input.attempt.origin == *origin
}

pub fn terminal_status_holds(input: &TerminalStatusInput, signed: &SignedTerminalStatus) -> (b: bool)
    ensures
        b == receiver_rules::terminal_status_holds(*input, *signed),
{
    proof {
        reveal(receiver_rules::terminal_status_holds);
    }
    signed.authentic && signed.input == *input && signed.fact.input == input.original_input
        && signed.fact.resolution_intent == input.original_intent
        && signed.fact.dispatch_not_after_ms == input.original_dispatch_not_after_ms
}

fn resolver_answer(state: &State, operation: &RecoveryRecord, signed: &SignedResolution) -> (r:
    Result<(), Error>)
    ensures
        r == receiver_rules::resolver_answer(state@, *operation, *signed),
{
    proof {
        reveal(receiver_rules::resolver_answer);
    }
    let first = phase_of(
        state,
        operation,
        operation.completion_resolution_attempt,
        "original terminal dispatch absent",
    )?;
    let (_, request) = target_request(&first)?;
    let original_intent = match retained_intent(state, request.command_id) {
        None => return Err(conflict("original terminal Control intent absent")),
        Some(intent) => intent,
    };
    if signed.fact.resolution_intent != original_intent || signed.fact.dispatch_not_after_ms
        != request.not_after_ms {
        return Err(conflict("terminal resolution changed its original admitted deadline"));
    }
    Ok(())
}

fn prepare_answer(
    state: &State,
    operation: &RecoveryRecord,
    current: &LifecycleIntent,
    node: u64,
    request: &TargetRequest,
    input: &CompletionInput,
    signed: &SignedAttempt,
) -> (r: Result<(), Error>)
    ensures
        r == receiver_rules::prepare_answer(
            state@,
            *operation,
            *current,
            node,
            *request,
            *input,
            *signed,
        ),
{
    proof {
        reveal(receiver_rules::prepare_answer);
    }
    let origin = origin(state, operation)?;
    if !attempt_holds(&origin, signed) {
        return Err(conflict("preparation signature or quorum differs"));
    }
    if signed.attempt.intent != *current || signed.attempt.input != *input
        || signed.observer_node_id != node || signed.attempt.dispatch_not_after_ms
        != request.not_after_ms {
        return Err(conflict("preparation changed the original intent, cap or observer"));
    }
    Ok(())
}

fn status_answer(
    state: &State,
    operation: &RecoveryRecord,
    prepared: &PhaseRecord,
    current: &LifecycleIntent,
    node: u64,
    input: &AttemptStatusInput,
    signed: &SignedAttemptStatus,
) -> (r: Result<(), Error>)
    ensures
        r == receiver_rules::status_answer(
            state@,
            *operation,
            *prepared,
            *current,
            node,
            *input,
            *signed,
        ),
{
    proof {
        reveal(receiver_rules::status_answer);
    }
    if !attempt_status_holds(input, signed) {
        return Err(conflict("preparation status signature or quorum differs"));
    }
    if signed.status_intent != *current || signed.observer_node_id != node {
        return Err(conflict("preparation status current identity differs"));
    }
    let first = original(state, operation)?;
    if first.prepared_revision >= prepared.prepared_revision {
        return Err(conflict("status precedes its original preparation dispatch"));
    }
    Ok(())
}

fn terminal_status_answer(
    state: &State,
    operation: &RecoveryRecord,
    prepared: &PhaseRecord,
    current: &LifecycleIntent,
    node: u64,
    input: &TerminalStatusInput,
    signed: &SignedTerminalStatus,
) -> (r: Result<(), Error>)
    ensures
        r == receiver_rules::terminal_status_answer(
            state@,
            *operation,
            *prepared,
            *current,
            node,
            *input,
            *signed,
        ),
{
    proof {
        reveal(receiver_rules::terminal_status_answer);
    }
    if !terminal_status_holds(input, signed) {
        return Err(conflict("terminal-only status signature or quorum differs"));
    }
    if signed.status_intent != *current || signed.observer_node_id != node {
        return Err(conflict("terminal-only status current identity differs"));
    }
    let first = phase_of(
        state,
        operation,
        operation.completion_resolution_attempt,
        "original resolver dispatch absent",
    )?;
    if first.prepared_revision >= prepared.prepared_revision {
        return Err(conflict("terminal-only status precedes original resolver"));
    }
    Ok(())
}

fn resolve_answer(
    state: &State,
    operation: &RecoveryRecord,
    current: &LifecycleIntent,
    node: u64,
    input: &ResolutionInput,
    signed: &SignedResolution,
) -> (r: Result<(), Error>)
    ensures
        r == receiver_rules::resolve_answer(state@, *operation, *current, node, *input, *signed),
{
    proof {
        reveal(receiver_rules::resolve_answer);
    }
    let origin = origin(state, operation)?;
    if !resolution_holds(&origin, signed) {
        return Err(conflict("terminal resolution signature or quorum differs"));
    }
    if signed.observation_intent != *current || signed.fact.input != *input
        || signed.observer_node_id != node {
        return Err(conflict("terminal resolution current identity differs"));
    }
    resolver_answer(state, operation, signed)
}

fn answer(
    state: &State,
    operation: &RecoveryRecord,
    prepared: &PhaseRecord,
    current: &LifecycleIntent,
    node: u64,
    request: &TargetRequest,
    response: &TargetResponse,
) -> (r: Result<(), Error>)
    ensures
        r == receiver_rules::answer(
            state@,
            *operation,
            *prepared,
            *current,
            node,
            *request,
            *response,
        ),
{
    proof {
        reveal(receiver_rules::answer);
    }
    match &request.step {
        TargetStep::Start(input) => if started_by(&response.outcome) == Some(
            quorum_of(input).origin_sha256,
        ) {
            Ok(())
        } else {
            Err(conflict("completion receiver response kind differs"))
        },
        TargetStep::PrepareComplete(input) => match prepared_by(&response.outcome) {
            Some(signed) => prepare_answer(state, operation, current, node, request, &input.open(), &signed),
            None => Err(conflict("completion receiver response kind differs")),
        },
        TargetStep::InspectCompletionAttempt(input) => match attempt_status_by(&response.outcome) {
            Some(signed) => status_answer(state, operation, prepared, current, node, &input.open(), &signed),
            None => Err(conflict("completion receiver response kind differs")),
        },
        TargetStep::InspectCompletionResolution(input) => match terminal_status_by(&response.outcome) {
            Some(signed) => terminal_status_answer(state, operation, prepared, current, node, &input.open(), &signed),
            None => Err(conflict("completion receiver response kind differs")),
        },
        TargetStep::ResolveComplete(input) => match resolved_by(&response.outcome) {
            Some(signed) => resolve_answer(state, operation, current, node, &input.open(), &signed),
            None => Err(conflict("completion receiver response kind differs")),
        },
        _ => Err(conflict("completion receiver response kind differs")),
    }
}

/// Whether a receiver's response resolves its phase.
pub fn validate_outcome(
    state: &State,
    operation: &RecoveryRecord,
    prepared: &PhaseRecord,
    response: &TargetResponse,
) -> (r: Result<(), Error>)
    ensures
        r == receiver_rules::outcome(state@, *operation, *prepared, *response),
{
    proof {
        reveal(receiver_rules::outcome);
    }
    let (node, request) = target_request(prepared)?;
    let current = match retained_intent(state, request.command_id) {
        None => return Err(conflict("completion receiver Control identity absent")),
        Some(current) => current,
    };
    frozen_step(state, operation, &current, &request)?;
    if response.command_id != request.command_id || response.node_id != node {
        return Err(conflict("completion receiver response route differs"));
    }
    answer(state, operation, prepared, &current, node, &request, response)
}

/// A target dispatch under the current intent, from now on.
pub fn dispatched(
    operation: &RecoveryRecord,
    current: &LifecycleIntent,
    node_id: u64,
    step: TargetStep,
    now: u64,
    expires: u64,
    message: &'static str,
) -> (r: Result<Dispatch, Error>)
    ensures
        r == receiver_rules::dispatched(*operation, *current, node_id, step, now, expires, message),
{
    proof {
        reveal(receiver_rules::dispatched);
    }
    let end: u64 = if expires < current.original_credential_expires_at_ms {
        expires
    } else {
        current.original_credential_expires_at_ms
    };
    let not_after_ms: u64 = deadline(now, operation, end, message)?;
    Ok(
        Dispatch::Target {
            node_id,
            request: hold(
                TargetRequest {
                    tenant: operation.request.tenant,
                    command_id: current.request.command_id,
                    not_after_ms,
                    step,
                },
            ),
        },
    )
}

/// The receiver's next dispatch under the current intent.
pub fn next(
    state: &State,
    operation: &RecoveryRecord,
    current: &LifecycleIntent,
    now: u64,
    expires: u64,
) -> (r: Result<Dispatch, Error>)
    ensures
        r == receiver_rules::next(state@, *operation, *current, now, expires),
{
    proof {
        reveal(receiver_rules::next);
    }
    let input = match current.request.phase {
        LifecyclePhase::InspectCompletionAttempt => ReplicaInput::CompletionAttemptStatus(
            hold(status_input(state, operation)?),
        ),
        LifecyclePhase::ResolveComplete => ReplicaInput::CompletionResolution(
            hold(resolution_input(state, operation)?),
        ),
        LifecyclePhase::InspectCompletionResolution => ReplicaInput::CompletionTerminalStatus(
            hold(terminal_status_input(state, operation)?),
        ),
        _ => return Err(conflict("current receiver phase differs")),
    };
    let (node_id, startup) = established_destination(
        state,
        operation,
        current.request.command_id,
    )?;
    let step = if startup {
        TargetStep::Start(input)
    } else {
        match input {
            ReplicaInput::CompletionAttemptStatus(input) => TargetStep::InspectCompletionAttempt(
                input,
            ),
            ReplicaInput::CompletionResolution(input) => TargetStep::ResolveComplete(input),
            ReplicaInput::CompletionTerminalStatus(
                input,
            ) => TargetStep::InspectCompletionResolution(input),
            _ => TargetStep::Start(input),
        }
    };
    dispatched(operation, current, node_id, step, now, expires, "receiver deadline overflow")
}

/// Whether the positive observation `linked_id` resolves the original dispatch.
pub fn validate_link(
    state: &State,
    operation: &RecoveryRecord,
    original: &PhaseRecord,
    linked_id: u128,
    terminal_link: bool,
) -> (r: Result<(), Error>)
    ensures
        r == receiver_rules::link(state@, *operation, *original, linked_id, terminal_link),
{
    proof {
        reveal(receiver_rules::link);
    }
    let linked = phase(state, operation, linked_id)?;
    let (_, old_request) = target_request(original)?;
    let response = match linked.outcome {
        Some(DispatchOutcome::Target(response)) => response.open(),
        _ => return Err(conflict("receiver resolution lacks its retained positive observation")),
    };
    if linked.prepared_revision <= original.prepared_revision || linked.resolved_revision
        != original.resolved_revision {
        return Err(conflict("receiver resolution phase is not causally later"));
    }
    validate_outcome(state, operation, &linked, &response)?;
    if terminal_link {
        let input = match old_request.step {
            TargetStep::Complete(input) => input.open(),
            _ => return Err(conflict("terminal link original operation differs")),
        };
        let fact = terminal_response(&response)?;
        if fact.input.attempt.input != input || fact.input.attempt.intent.request.command_id
            != old_request.command_id || fact.input.attempt.dispatch_not_after_ms
            != old_request.not_after_ms {
            return Err(conflict("terminal link changed original Complete dispatch"));
        }
    } else {
        let input = match old_request.step {
            TargetStep::PrepareComplete(input) => input.open(),
            _ => return Err(conflict("preparation link original operation differs")),
        };
        let attempt = match prepared_attempt(&response) {
            None => return Err(conflict("preparation link outcome is not positive evidence")),
            Some(attempt) => attempt,
        };
        if attempt.input != input || attempt.intent.request.command_id != old_request.command_id
            || attempt.dispatch_not_after_ms != old_request.not_after_ms {
            return Err(conflict("preparation link changed original dispatch"));
        }
    }
    Ok(())
}

/// The phase row, as it is being resolved.
pub fn resolving(record: &PhaseRecord, revision: u64) -> (row: PhaseRecord)
    ensures
        row == receiver_rules::resolving(*record, revision),
{
    proof {
        reveal(receiver_rules::resolving);
    }
    PhaseRecord { resolved_revision: Some(revision), ..*record }
}

fn linked_row(record: &PhaseRecord, revision: u64, observed: u128, terminal_link: bool) -> (row:
    PhaseRecord)
    ensures
        row == receiver_rules::linked_row(*record, revision, observed, terminal_link),
{
    proof {
        reveal(receiver_rules::linked_row);
    }
    let outcome = if terminal_link {
        DispatchOutcome::CompletionTerminal { resolution_phase: observed }
    } else {
        DispatchOutcome::PreparationObserved { status_phase: observed }
    };
    PhaseRecord { outcome: Some(outcome), ..resolving(record, revision) }
}

fn prior_reference(operation: &RecoveryRecord, response: &TargetResponse) -> (r: Option<
    (u128, bool),
>)
    ensures
        r == receiver_rules::prior_reference(*operation, *response),
{
    proof {
        reveal(receiver_rules::prior_reference);
    }
    let (id, terminal_link): (Option<u128>, bool) = match response.outcome {
        TargetOutcome::CompletionAttemptStatus(_) => (
            operation.completion_preparation_attempt,
            false,
        ),
        TargetOutcome::PreparedCompletion(_) => (operation.completion_preparation_attempt, false),
        TargetOutcome::ResolvedCompletion(_) => (operation.completion_attempt, true),
        TargetOutcome::CompletionTerminalStatus(_) => (operation.completion_attempt, true),
        _ => return None,
    };
    match id {
        None => None,
        Some(id) => Some((id, terminal_link)),
    }
}

/// Lets a positive observation resolve the earlier dispatch that it is of.
pub fn resolve_prior(
    state: &mut State,
    operation: &RecoveryRecord,
    observed: &PhaseRecord,
    response: &TargetResponse,
) -> (r: Result<(), Error>)
    ensures
        match (r, receiver_rules::prior(old(state)@, *operation, *observed, *response)) {
            (Err(e), Err(said)) => e == said && final(state)@ == old(state)@,
            (Ok(()), Ok(change)) => final(state)@ == rules::rewritten(
                old(state)@,
                change,
            ),
            _ => false,
        },
{
    proof {
        reveal(receiver_rules::prior);
    }
    let (id, terminal_link): (u128, bool) = match prior_reference(operation, response) {
        None => return Ok(()),
        Some(found) => found,
    };
    if id == observed.phase_id {
        return Ok(());
    }
    let previous = phase(state, operation, id)?;
    if previous.outcome.is_some() {
        return Ok(());
    }
    let revision: u64 = state.revision;
    validate_link(
        state,
        operation,
        &resolving(&previous, revision),
        observed.phase_id,
        terminal_link,
    )?;
    let row = linked_row(&previous, revision, observed.phase_id, terminal_link);
    state.recovery.phases.insert(id, row);
    Ok(())
}

fn evidence_before(
    state: &State,
    operation: &RecoveryRecord,
    revision: u64,
    message: &'static str,
) -> (r: Result<(), Error>)
    ensures
        r == receiver_rules::evidence_before(state@, *operation, revision, message),
{
    proof {
        reveal(receiver_rules::evidence_before);
    }
    let evidence = phase_of(
        state,
        operation,
        operation.completion_preparation,
        "positive preparation evidence absent",
    )?;
    if !resolved_before(&evidence, revision) {
        return Err(conflict(message));
    }
    Ok(())
}

fn preparation_progress(state: &State, operation: &RecoveryRecord) -> (r: Result<(), Error>)
    ensures
        r == receiver_rules::preparation_progress(state@, *operation),
{
    proof {
        reveal(receiver_rules::preparation_progress);
    }
    let id: u128 = match operation.completion_preparation {
        None => return Ok(()),
        Some(id) => id,
    };
    let evidence = phase(state, operation, id)?;
    if evidence.resolved_revision.is_none() {
        return Err(conflict("preparation progress precedes its original dispatch"));
    }
    let first = original(state, operation)?;
    if evidence.prepared_revision < first.prepared_revision {
        return Err(conflict("preparation progress precedes its original dispatch"));
    }
    preparation(state, operation)?;
    Ok(())
}

fn resolver_progress(state: &State, operation: &RecoveryRecord) -> (r: Result<(), Error>)
    ensures
        r == receiver_rules::resolver_progress(state@, *operation),
{
    proof {
        reveal(receiver_rules::resolver_progress);
    }
    let id: u128 = match operation.completion_resolution_attempt {
        None => return Ok(()),
        Some(id) => id,
    };
    let retained = phase(state, operation, id)?;
    let (_, request) = target_request(&retained)?;
    let input = match request.step {
        TargetStep::ResolveComplete(input) => input.open(),
        _ => return Err(conflict("original terminal resolution step differs")),
    };
    let expected = resolution_input(state, operation)?;
    if input != expected {
        return Err(conflict("terminal resolution input changed"));
    }
    evidence_before(
        state,
        operation,
        retained.prepared_revision,
        "terminal dispatch precedes persisted preparation evidence",
    )
}

fn terminal_progress(state: &State, operation: &RecoveryRecord) -> (r: Result<(), Error>)
    ensures
        r == receiver_rules::terminal_progress(state@, *operation),
{
    proof {
        reveal(receiver_rules::terminal_progress);
    }
    if operation.completion_terminal.is_none() {
        return Ok(());
    }
    match terminal(state, operation)?.terminal {
        CompletionTerminal::Sealed => {
            if operation.completion.is_some() || operation.activation_attempt.is_some()
                || operation.activation.is_some() {
                return Err(conflict("sealed completion cannot reach activation"));
            }
            Ok(())
        },
        CompletionTerminal::Committed(_) => Ok(()),
    }
}

fn complete_progress(state: &State, operation: &RecoveryRecord) -> (r: Result<(), Error>)
    ensures
        r == receiver_rules::complete_progress(state@, *operation),
{
    proof {
        reveal(receiver_rules::complete_progress);
    }
    let id: u128 = match operation.completion_attempt {
        None => return Ok(()),
        Some(id) => id,
    };
    let dispatch = phase(state, operation, id)?;
    let (_, request) = target_request(&dispatch)?;
    let first = status_input(state, operation)?;
    if request.not_after_ms != first.original_dispatch_not_after_ms {
        return Err(conflict("Complete changed its preparation dispatch cap"));
    }
    preparation(state, operation)?;
    evidence_before(
        state,
        operation,
        dispatch.prepared_revision,
        "Complete dispatch precedes persisted preparation evidence",
    )
}

/// Whether the completion cursor is in causal order.
pub fn validate_progress(state: &State, operation: &RecoveryRecord) -> (r: Result<(), Error>)
    ensures
        r == receiver_rules::progress(state@, *operation),
{
    proof {
        reveal(receiver_rules::progress);
    }
    if operation.completion_preparation_attempt.is_some() {
        status_input(state, operation)?;
    }
    preparation_progress(state, operation)?;
    resolver_progress(state, operation)?;
    terminal_progress(state, operation)?;
    complete_progress(state, operation)
}

/// A separately verified positive terminal must match the later activation
/// inspection exactly. A seal can never enter the existing activation path.
pub fn validate_inspected_terminal(
    state: &State,
    operation: &RecoveryRecord,
    completion: &CompletionFact,
) -> (r: Result<(), Error>)
    ensures
        r == receiver_rules::inspected_terminal(state@, *operation, *completion),
{
    proof {
        reveal(receiver_rules::inspected_terminal);
    }
    if operation.completion_terminal.is_none() {
        return Ok(());
    }
    match terminal(state, operation)?.terminal {
        CompletionTerminal::Committed(expected) => if expected == *completion {
            Ok(())
        } else {
            Err(conflict("positive completion inspection disagrees with its permanent terminal"))
        },
        CompletionTerminal::Sealed => Err(
            conflict("positive completion inspection disagrees with its permanent terminal"),
        ),
    }
}

fn resolver_input(request: &TargetRequest) -> (r: Option<ResolutionInput>)
    ensures
        r == receiver_rules::resolver_input(*request),
{
    proof {
        reveal(receiver_rules::resolver_input);
    }
    match &request.step {
        TargetStep::ResolveComplete(input) => Some(input.open()),
        _ => None,
    }
}

fn observes_resolver(
    linked: &PhaseRecord,
    original: &PhaseRecord,
    request: &TargetRequest,
    input: &ResolutionInput,
    signed: &SignedTerminalStatus,
) -> (b: bool)
    ensures
        b == receiver_rules::observes_resolver(*linked, *original, *request, *input, *signed),
{
    proof {
        reveal(receiver_rules::observes_resolver);
    }
    linked.prepared_revision > original.prepared_revision && linked.resolved_revision
        == original.resolved_revision && signed.input.original_input == *input
        && signed.input.original_intent.request.command_id == request.command_id
        && signed.input.original_dispatch_not_after_ms == request.not_after_ms
}

/// Whether a terminal status resolves the original resolver.
pub fn validate_resolver_link(
    state: &State,
    operation: &RecoveryRecord,
    original: &PhaseRecord,
    status_phase: u128,
) -> (r: Result<(), Error>)
    ensures
        r == receiver_rules::resolver_link(state@, *operation, *original, status_phase),
{
    proof {
        reveal(receiver_rules::resolver_link);
    }
    let linked = phase(state, operation, status_phase)?;
    let (_, request) = target_request(original)?;
    let input = match resolver_input(&request) {
        None => return Err(conflict("terminal observation original resolver differs")),
        Some(input) => input,
    };
    let response = match native(&linked.outcome) {
        None => return Err(conflict("positive terminal observation absent")),
        Some(response) => response,
    };
    let signed = match terminal_status_by(&response.outcome) {
        None => return Err(conflict("terminal observation kind differs")),
        Some(signed) => signed,
    };
    if !observes_resolver(&linked, original, &request, &input, &signed) {
        return Err(conflict("terminal observation changed original resolver or causal order"));
    }
    validate_outcome(state, operation, &linked, &response)
}

/// Lets a terminal status resolve the resolver that it is of.
pub fn resolve_resolver(state: &mut State, operation: &RecoveryRecord, observed: &PhaseRecord) -> (r:
    Result<(), Error>)
    ensures
        match (
            r,
            receiver_rules::resolved_resolver(old(state)@, *operation, observed.phase_id),
        ) {
            (Err(e), Err(said)) => e == said && final(state)@ == old(state)@,
            (Ok(()), Ok(change)) => final(state)@ == rules::rewritten(
                old(state)@,
                change,
            ),
            _ => false,
        },
{
    proof {
        reveal(receiver_rules::resolved_resolver);
    }
    let id: u128 = match operation.completion_resolution_attempt {
        None => return Err(conflict("original resolver absent")),
        Some(id) => id,
    };
    let mut original = phase(state, operation, id)?;
    if original.outcome.is_some() {
        return Ok(());
    }
    original.resolved_revision = Some(state.revision);
    validate_resolver_link(state, operation, &original, observed.phase_id)?;
    original.outcome = Some(
        DispatchOutcome::TerminalObserved { status_phase: observed.phase_id },
    );
    state.recovery.phases.insert(id, original);
    Ok(())
}

/// Whether a step is one of the initialization or of the Complete dispatch.
pub fn validate_quorum_step(
    state: &State,
    operation: &RecoveryRecord,
    current: &LifecycleIntent,
    node_id: u64,
    step: &TargetStep,
    phase_kind: RecoveryPhase,
    admission: bool,
) -> (r: Result<(), Error>)
    ensures
        r == receiver_rules::quorum_step(
            state@,
            *operation,
            *current,
            node_id,
            *step,
            phase_kind,
            admission,
        ),
{
    proof {
        reveal(receiver_rules::quorum_step);
    }
    let complete: bool = phase_kind == RecoveryPhase::Complete;
    if phase_kind != RecoveryPhase::Initialize && !complete {
        return Err(conflict("quorum recovery phase differs"));
    }
    let expected = if complete {
        LifecyclePhase::Complete
    } else {
        LifecyclePhase::Initialize
    };
    let origin = origin(state, operation)?;
    accepts_phase(&origin, current, expected)?;
    let input = quorum_input(state, operation)?;
    let complete_input = completion_input(state, operation)?;
    let digest = if complete {
        labelled_digest(COMPLETION, &complete_input)
    } else {
        labelled_digest(QUORUM, &input)
    };
    if current.request.phase_input_sha256 != digest {
        return Err(conflict("committed quorum input differs"));
    }
    match step {
        TargetStep::Start(ReplicaInput::Quorum(actual)) => {
            if complete || actual.open() != input {
                return Err(conflict("target quorum operation differs from committed input"));
            }
            if admission && started_for(state, operation, node_id, current.request.command_id)? {
                return Err(conflict("target already started under this exact Control phase"));
            }
        },
        TargetStep::Start(ReplicaInput::Completion(actual)) => {
            if !complete || actual.open() != complete_input {
                return Err(conflict("target quorum operation differs from committed input"));
            }
            if admission && started_for(state, operation, node_id, current.request.command_id)? {
                return Err(conflict("target already started under this exact Complete phase"));
            }
        },
        TargetStep::Initialize(actual) => {
            if complete || actual.open() != input || operation.voters.first.node_id != node_id {
                return Err(conflict("target quorum operation differs from committed input"));
            }
            if admission && !all_started(state, operation, current.request.command_id)? {
                return Err(
                    conflict("initialization requires every target started under this exact phase"),
                );
            }
        },
        TargetStep::Complete(actual) => {
            if !complete || actual.open() != complete_input {
                return Err(conflict("target quorum operation differs from committed input"));
            }
            if admission {
                require_initialized_mutation_observer(state, operation, node_id)?;
            }
            preparation(state, operation)?;
        },
        _ => return Err(conflict("target quorum operation differs from committed input")),
    }
    Ok(())
}

} // verus!
