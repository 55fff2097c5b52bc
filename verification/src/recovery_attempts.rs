//! Bounded current completion cursor and exact historical attempt scopes.
//! Only a positive sealed receiver fact permits a different logical Complete.
use vstd::prelude::*;

use crate::errors::{conflict, Error};
use crate::model::{
    AttemptStatusInput, CompletionAttempt, CompletionHistory, CompletionInput, CompletionScope,
    CompletionTerminal, Dispatch, DispatchOutcome, LifecyclePhase, PhaseRecord, RecoveryPhase,
    RecoveryRecord, ResolutionFact, ResolutionInput, ResolutionReference, State, TargetOutcome,
    TargetRequest, TargetResponse, TargetStep, TerminalStatusInput,
};
use crate::recovery_lookup::{
    intent_of, origin, origin_sha256, phase, phase_of, retained_intent,
};
use crate::recovery_quorum::quorum_input;
use crate::rules;

verus! {

pub fn scope(operation: &RecoveryRecord) -> (r: Option<CompletionScope>)
    ensures
        r == rules::scope(*operation),
{
    proof {
        reveal(rules::scope);
    }
    match operation.completion_intent {
        None => None,
        Some(intent) => Some(
            CompletionScope { intent, predecessor: operation.completion_predecessor },
        ),
    }
}

/// The reference of a sealed fact; a committed one has none.
pub fn sealed_reference(fact: &ResolutionFact) -> (r: Result<ResolutionReference, Error>)
    ensures
        r == rules::sealed_reference(*fact),
{
    proof {
        reveal(rules::sealed_reference);
    }
    match fact.terminal {
        CompletionTerminal::Sealed => Ok(
            ResolutionReference {
                origin_sha256: origin_sha256(&fact.input.attempt.origin),
                control_incarnation: fact.resolution_intent.control_incarnation,
                original_command_id: fact.input.attempt.intent.request.command_id,
                resolution_command_id: fact.resolution_intent.request.command_id,
                resolution_control_revision: fact.resolution_intent.revision,
                fact_sha256: fact.sha256,
            },
        ),
        CompletionTerminal::Committed(_) => Err(conflict("completion was committed, not sealed")),
    }
}

pub fn terminal_response(response: &TargetResponse) -> (r: Result<ResolutionFact, Error>)
    ensures
        r == rules::terminal_response(*response),
{
    proof {
        reveal(rules::terminal_response);
    }
    match response.outcome {
        TargetOutcome::ResolvedCompletion(signed) => Ok(signed.open().fact),
        TargetOutcome::CompletionTerminalStatus(signed) => Ok(signed.open().fact),
        _ => Err(conflict("terminal evidence response kind differs")),
    }
}

fn sealed_fact(state: &State, operation: &RecoveryRecord, id: u128) -> (r: Result<
    ResolutionFact,
    Error,
>)
    ensures
        r == rules::sealed_fact(state@, *operation, id),
{
    proof {
        reveal(rules::sealed_fact);
    }
    let retained = phase(state, operation, id)?;
    let response = match retained.outcome {
        Some(DispatchOutcome::Target(response)) => response.open(),
        _ => return Err(conflict("completion predecessor lacks a positive native outcome")),
    };
    let fact = terminal_response(&response)?;
    let selected = match retained.completion_scope {
        None => return Err(conflict("completion predecessor lacks its exact attempt scope")),
        Some(selected) => selected,
    };
    if retained.phase != RecoveryPhase::Complete || retained.resolved_revision.is_none() {
        return Err(conflict("completion predecessor changed target, scope or durable identity"));
    }
    let original = origin(state, operation)?;
    if fact.input.attempt.origin != original || fact.input.attempt.intent.request.command_id
        != selected.intent {
        return Err(conflict("completion predecessor changed target, scope or durable identity"));
    }
    sealed_reference(&fact)?;
    Ok(fact)
}

pub fn predecessor(state: &State, operation: &RecoveryRecord) -> (r: Result<
    Option<ResolutionReference>,
    Error,
>)
    ensures
        r == rules::predecessor(state@, *operation),
{
    proof {
        reveal(rules::predecessor);
    }
    let id: u128 = match operation.completion_predecessor {
        None => return Ok(None),
        Some(id) => id,
    };
    let retained = phase(state, operation, id)?;
    let selected = match retained.completion_scope {
        None => return Err(conflict("completion predecessor scope absent")),
        Some(selected) => selected,
    };
    let current: bool = match state.recovery.operations.get(operation.request.operation_id) {
        None => false,
        Some(head) => scope(&head) == Some(selected) && head.completion_terminal == Some(id),
    };
    let archived: bool = match state.recovery.completion_history.get(selected.intent) {
        None => false,
        Some(history) => history.operation_id == operation.request.operation_id && history.scope
            == selected && history.terminal == id,
    };
    if (!current && !archived) || operation.completion_intent == Some(selected.intent) {
        return Err(conflict("completion predecessor is not the exact closed original cursor"));
    }
    let fact = sealed_fact(state, operation, id)?;
    Ok(Some(sealed_reference(&fact)?))
}

/// The canonical input of the current attempt, with its explicit predecessor.
pub fn completion_input(state: &State, operation: &RecoveryRecord) -> (r: Result<
    CompletionInput,
    Error,
>)
    ensures
        r == rules::completion_input(state@, *operation),
{
    proof {
        reveal(rules::completion_input);
    }
    let quorum = quorum_input(state, operation)?;
    let predecessor = predecessor(state, operation)?;
    Ok(CompletionInput { quorum, predecessor })
}

pub fn target_request(record: &PhaseRecord) -> (r: Result<(u64, TargetRequest), Error>)
    ensures
        r == rules::target_request(*record),
{
    proof {
        reveal(rules::target_request);
    }
    match record.input {
        Dispatch::Target { node_id, request } => if record.phase != RecoveryPhase::Complete {
            Err(conflict("completion receiver reference has another phase"))
        } else {
            Ok((node_id, request.open()))
        },
        _ => Err(conflict("completion receiver reference is not a target dispatch")),
    }
}

pub fn original(state: &State, operation: &RecoveryRecord) -> (r: Result<PhaseRecord, Error>)
    ensures
        r == rules::original(state@, *operation),
{
    proof {
        reveal(rules::original);
    }
    phase_of(
        state,
        operation,
        operation.completion_preparation_attempt,
        "original preparation dispatch is not retained",
    )
}

pub fn status_input(state: &State, operation: &RecoveryRecord) -> (r: Result<
    AttemptStatusInput,
    Error,
>)
    ensures
        r == rules::status_input(state@, *operation),
{
    proof {
        reveal(rules::status_input);
    }
    let retained = original(state, operation)?;
    let (_, request) = target_request(&retained)?;
    let input = match request.step {
        TargetStep::PrepareComplete(input) => input.open(),
        _ => return Err(conflict("original preparation step differs")),
    };
    let original_intent = intent_of(
        state,
        operation,
        operation.completion_intent,
        "original Complete identity absent",
    )?;
    if request.command_id != original_intent.request.command_id {
        return Err(conflict("original preparation input differs"));
    }
    let expected = completion_input(state, operation)?;
    if input != expected {
        return Err(conflict("original preparation input differs"));
    }
    Ok(
        AttemptStatusInput {
            original_intent,
            original_input: input,
            original_dispatch_not_after_ms: request.not_after_ms,
        },
    )
}

/// Whether the attempt is the one that the status asks for.
pub fn matches_attempt(input: &AttemptStatusInput, attempt: &CompletionAttempt) -> (b: bool)
    ensures
        b == rules::matches_attempt(*input, *attempt),
{
    proof {
        reveal(rules::matches_attempt);
    }
    attempt.intent == input.original_intent && attempt.input == input.original_input
        && attempt.dispatch_not_after_ms == input.original_dispatch_not_after_ms
}

pub fn prepared_attempt(response: &TargetResponse) -> (r: Option<CompletionAttempt>)
    ensures
        r == rules::prepared_attempt(*response),
{
    proof {
        reveal(rules::prepared_attempt);
    }
    match response.outcome {
        TargetOutcome::PreparedCompletion(signed) => Some(signed.open().attempt),
        TargetOutcome::CompletionAttemptStatus(signed) => Some(signed.open().attempt),
        _ => None,
    }
}

pub fn preparation(state: &State, operation: &RecoveryRecord) -> (r: Result<
    CompletionAttempt,
    Error,
>)
    ensures
        r == rules::preparation(state@, *operation),
{
    proof {
        reveal(rules::preparation);
    }
    let retained = phase_of(
        state,
        operation,
        operation.completion_preparation,
        "positive preparation evidence absent",
    )?;
    let response = match retained.outcome {
        Some(DispatchOutcome::Target(response)) => response.open(),
        _ => return Err(conflict("preparation evidence is not a native outcome")),
    };
    let attempt = match prepared_attempt(&response) {
        None => return Err(conflict("preparation evidence kind differs")),
        Some(attempt) => attempt,
    };
    let expected = status_input(state, operation)?;
    if !matches_attempt(&expected, &attempt) {
        return Err(conflict("preparation evidence is of another original dispatch"));
    }
    Ok(attempt)
}

pub fn resolution_input(state: &State, operation: &RecoveryRecord) -> (r: Result<
    ResolutionInput,
    Error,
>)
    ensures
        r == rules::resolution_input(state@, *operation),
{
    proof {
        reveal(rules::resolution_input);
    }
    Ok(ResolutionInput { attempt: preparation(state, operation)? })
}

pub fn terminal_status_input(state: &State, operation: &RecoveryRecord) -> (r: Result<
    TerminalStatusInput,
    Error,
>)
    ensures
        r == rules::terminal_status_input(state@, *operation),
{
    proof {
        reveal(rules::terminal_status_input);
    }
    let retained = phase_of(
        state,
        operation,
        operation.completion_resolution_attempt,
        "original resolver dispatch absent",
    )?;
    let (_, request) = target_request(&retained)?;
    let input = match request.step {
        TargetStep::ResolveComplete(input) => input.open(),
        _ => return Err(conflict("original resolver step differs")),
    };
    let expected = resolution_input(state, operation)?;
    if input != expected {
        return Err(conflict("original resolver input differs"));
    }
    match retained_intent(state, request.command_id) {
        None => Err(conflict("original resolver Control identity absent")),
        Some(original_intent) => Ok(
            TerminalStatusInput {
                original_intent,
                original_input: input,
                original_dispatch_not_after_ms: request.not_after_ms,
            },
        ),
    }
}

pub fn terminal(state: &State, operation: &RecoveryRecord) -> (r: Result<ResolutionFact, Error>)
    ensures
        r == rules::terminal(state@, *operation),
{
    proof {
        reveal(rules::terminal);
    }
    let retained = phase_of(
        state,
        operation,
        operation.completion_terminal,
        "terminal completion evidence absent",
    )?;
    let response = match retained.outcome {
        Some(DispatchOutcome::Target(response)) => response.open(),
        _ => return Err(conflict("terminal completion evidence is not a native outcome")),
    };
    let fact = terminal_response(&response)?;
    let expected = resolution_input(state, operation)?;
    if fact.input != expected {
        return Err(conflict("terminal completion changed the prepared attempt"));
    }
    Ok(fact)
}

pub fn fresh_phase(state: &State, operation: &RecoveryRecord) -> (r: Result<LifecyclePhase, Error>)
    ensures
        r == rules::fresh_phase(state@, *operation),
{
    proof {
        reveal(rules::fresh_phase);
    }
    if operation.completion_terminal.is_some() {
        return match terminal(state, operation)?.terminal {
            CompletionTerminal::Committed(_) => Ok(LifecyclePhase::InspectTarget),
            CompletionTerminal::Sealed => Ok(LifecyclePhase::Complete),
        };
    }
    if operation.completion_resolution_attempt.is_some() {
        return Ok(LifecyclePhase::InspectCompletionResolution);
    }
    if operation.completion_preparation.is_some() {
        return Ok(LifecyclePhase::ResolveComplete);
    }
    if operation.completion_preparation_attempt.is_some() {
        return Ok(LifecyclePhase::InspectCompletionAttempt);
    }
    // No preparation request was frozen by this coordinator. A fresh positive
    // completion inspection is safe, but absence still cannot advance it.
    Ok(LifecyclePhase::InspectTarget)
}

pub fn require_successor(state: &State, operation: &RecoveryRecord) -> (r: Result<
    ResolutionReference,
    Error,
>)
    ensures
        r == rules::require_successor(state@, *operation),
{
    proof {
        reveal(rules::require_successor);
    }
    if operation.phase != RecoveryPhase::Complete || operation.completion_intent.is_none()
        || operation.completion.is_some() {
        return Err(conflict("completion successor requires an unfinished original attempt"));
    }
    let fact = terminal(state, operation)?;
    sealed_reference(&fact)
}

pub fn next_input(state: &State, operation: &RecoveryRecord) -> (r: Result<CompletionInput, Error>)
    ensures
        r == rules::next_input(state@, *operation),
{
    proof {
        reveal(rules::next_input);
    }
    let predecessor = if operation.completion_intent.is_some() {
        Some(require_successor(state, operation)?)
    } else {
        predecessor(state, operation)?
    };
    let quorum = quorum_input(state, operation)?;
    Ok(CompletionInput { quorum, predecessor })
}

pub fn is_birth(input: &Dispatch) -> (b: bool)
    ensures
        b == rules::is_birth(*input),
{
    proof {
        reveal(rules::is_birth);
    }
    match input {
        Dispatch::ControlIntent(request) => request.open().phase == LifecyclePhase::Complete,
        _ => false,
    }
}

pub fn is_committed_birth(record: &PhaseRecord) -> (b: bool)
    ensures
        b == rules::is_committed_birth(*record),
{
    proof {
        reveal(rules::is_committed_birth);
    }
    is_birth(&record.input) && match record.outcome {
        Some(DispatchOutcome::ControlIntent(_)) => true,
        _ => false,
    }
}

pub fn prepared_scope(
    state: &State,
    operation: &RecoveryRecord,
    id: u128,
    input: &Dispatch,
) -> (r: Result<Option<CompletionScope>, Error>)
    ensures
        r == rules::prepared_scope(state@, *operation, id, *input),
{
    proof {
        reveal(rules::prepared_scope);
    }
    if operation.phase != RecoveryPhase::Complete {
        return Ok(None);
    }
    if is_birth(input) {
        let predecessor: Option<u128> = if operation.completion_intent.is_some() {
            require_successor(state, operation)?;
            operation.completion_terminal
        } else {
            operation.completion_predecessor
        };
        Ok(Some(CompletionScope { intent: id, predecessor }))
    } else {
        match scope(operation) {
            None => Err(conflict("Complete dispatch lacks its original scope")),
            Some(selected) => Ok(Some(selected)),
        }
    }
}

/// Later global activation cannot rewrite a historical sealed context.
pub fn historical_view(operation: &RecoveryRecord, history: &CompletionHistory) -> (view:
    RecoveryRecord)
    ensures
        view == rules::historical_view(*operation, *history),
{
    proof {
        reveal(rules::historical_view);
    }
    RecoveryRecord {
        phase: RecoveryPhase::Complete,
        pending_phase: None,
        current_intent: Some(history.current_intent),
        completion_intent: Some(history.scope.intent),
        completion_predecessor: history.scope.predecessor,
        completion_preparation_attempt: Some(history.preparation_attempt),
        completion_preparation: Some(history.preparation),
        completion_resolution_attempt: Some(history.resolution_attempt),
        completion_terminal: Some(history.terminal),
        completion_attempt: history.attempted_completion,
        completion: None,
        retirement: None,
        source_fence: None,
        activation_attempt: None,
        activation: None,
        route_publication: None,
        target_stop: None,
        ..*operation
    }
}

fn born_in_scope(
    state: &State,
    operation: &RecoveryRecord,
    retained: &PhaseRecord,
    selected: &CompletionScope,
) -> (r: Result<(), Error>)
    ensures
        r == rules::born_in_scope(state@, *operation, *retained, *selected),
{
    proof {
        reveal(rules::born_in_scope);
    }
    if is_birth(&retained.input) {
        if selected.intent != retained.phase_id {
            return Err(conflict("completion birth substituted its original intent"));
        }
        return Ok(());
    }
    let born = phase(state, operation, selected.intent)?;
    if born.completion_scope != Some(*selected) || born.sequence >= retained.sequence
        || !is_committed_birth(&born) {
        return Err(conflict("completion phase belongs to another logical original"));
    }
    Ok(())
}

pub fn for_phase(state: &State, operation: &RecoveryRecord, retained: &PhaseRecord) -> (r: Result<
    RecoveryRecord,
    Error,
>)
    ensures
        r == rules::for_phase(state@, *operation, *retained),
{
    proof {
        reveal(rules::for_phase);
    }
    if retained.phase != RecoveryPhase::Complete {
        if retained.completion_scope.is_some() {
            return Err(conflict("non-Complete phase has completion scope"));
        }
        return Ok(*operation);
    }
    let selected = match retained.completion_scope {
        None => return Err(conflict("Complete phase lacks an exact attempt scope")),
        Some(selected) => selected,
    };
    born_in_scope(state, operation, retained, &selected)?;
    if scope(operation) == Some(selected) {
        return Ok(*operation);
    }
    match state.recovery.completion_history.get(selected.intent) {
        Some(history) => {
            if history.operation_id != operation.request.operation_id || history.scope != selected {
                return Err(conflict("historical completion context differs"));
            }
            return Ok(historical_view(operation, &history));
        },
        None => {},
    }
    // A prepared birth has no committed Control intent yet. Validate its exact
    // linked input, without installing a new active cursor or refreshing it.
    let stopped: bool = operation.stop_request.is_some() && (operation.phase
        == RecoveryPhase::StopActivation || operation.phase == RecoveryPhase::StopTarget
        || operation.phase == RecoveryPhase::Cleanup || operation.phase == RecoveryPhase::Stopped);
    if is_birth(&retained.input) && retained.outcome.is_none() && (operation.pending_phase == Some(
        retained.phase_id,
    ) || stopped) {
        // Stop can clear a pending birth before Control commits it. Its input
        // remains historical, with no installed successor and no renewed grant.
        let original_context = RecoveryRecord { phase: RecoveryPhase::Complete, ..*operation };
        let expected = prepared_scope(
            state,
            &original_context,
            retained.phase_id,
            &retained.input,
        )?;
        if expected != Some(selected) {
            return Err(conflict("prepared completion birth changed its predecessor"));
        }
        return Ok(
            RecoveryRecord {
                completion_intent: None,
                completion_predecessor: selected.predecessor,
                completion_preparation_attempt: None,
                completion_preparation: None,
                completion_resolution_attempt: None,
                completion_terminal: None,
                completion_attempt: None,
                ..*operation
            },
        );
    }
    Err(conflict("completion phase has no exact active or closed context"))
}

fn closed_history(operation: &RecoveryRecord, original: &CompletionScope, successor: u128) -> (r:
    Result<CompletionHistory, Error>)
    ensures
        r == rules::closed_history(*operation, *original, successor),
{
    proof {
        reveal(rules::closed_history);
    }
    match (
        operation.current_intent,
        operation.completion_preparation_attempt,
        operation.completion_preparation,
        operation.completion_resolution_attempt,
        operation.completion_terminal,
    ) {
        (
            Some(current_intent),
            Some(preparation_attempt),
            Some(preparation),
            Some(resolution_attempt),
            Some(terminal),
        ) => Ok(
            CompletionHistory {
                operation_id: operation.request.operation_id,
                scope: *original,
                current_intent,
                preparation_attempt,
                preparation,
                resolution_attempt,
                terminal,
                attempted_completion: operation.completion_attempt,
                successor_intent: successor,
            },
        ),
        _ => Err(conflict("sealed completion history is incomplete")),
    }
}

/// Installs a committed birth as the current attempt, and archives the sealed
/// attempt that it follows.
pub fn install(state: &mut State, operation: &mut RecoveryRecord, prepared: &PhaseRecord) -> (r:
    Result<(), Error>)
    ensures
        match (r, rules::install(old(state)@, *old(operation), *prepared)) {
            (Err(e), Err(said)) => e == said && final(state)@ == old(state)@ && *final(operation)
                == *old(operation),
            (Ok(()), Ok((head, archived))) => {
                &&& *final(operation) == head
                &&& final(state)@ == rules::archived(old(state)@, archived)
            },
            _ => false,
        },
{
    proof {
        reveal(rules::install);
    }
    let expected = match prepared_scope(state, operation, prepared.phase_id, &prepared.input)? {
        None => return Err(conflict("completion birth lacks its scope")),
        Some(expected) => expected,
    };
    if prepared.completion_scope != Some(expected) {
        return Err(conflict("committed completion birth changed its exact predecessor"));
    }
    match scope(operation) {
        None => {},
        Some(original) => {
            require_successor(state, operation)?;
            let history = closed_history(operation, &original, prepared.phase_id)?;
            if state.recovery.completion_history.contains(history.scope.intent) {
                return Err(conflict("sealed completion already has a permanent successor"));
            }
            state.recovery.completion_history.insert(history.scope.intent, history);
        },
    }
    operation.current_intent = Some(prepared.phase_id);
    operation.completion_intent = Some(prepared.phase_id);
    operation.completion_predecessor = expected.predecessor;
    operation.completion_preparation_attempt = None;
    operation.completion_preparation = None;
    operation.completion_resolution_attempt = None;
    operation.completion_terminal = None;
    operation.completion_attempt = None;
    Ok(())
}

pub fn resolved_before(record: &PhaseRecord, revision: u64) -> (b: bool)
    ensures
        b == rules::resolved_before(*record, revision),
{
    proof {
        reveal(rules::resolved_before);
    }
    match record.resolved_revision {
        None => false,
        Some(resolved) => resolved < revision,
    }
}

/// Follows the attempt chain through one phase, from its end to its beginning.
pub fn validate_chain_link(
    state: &State,
    operation: &RecoveryRecord,
    retained: &PhaseRecord,
    expected: &mut Option<u128>,
) -> (r: Result<(), Error>)
    ensures
        match r {
            Ok(()) => rules::chain_link(state@, *operation, *retained, *old(expected)) == Ok::<
                Option<u128>,
                Error,
            >(*final(expected)),
            Err(e) => rules::chain_link(state@, *operation, *retained, *old(expected)) == Err::<
                Option<u128>,
                Error,
            >(e) && *final(expected) == *old(expected),
        },
{
    proof {
        reveal(rules::chain_link);
    }
    if !is_committed_birth(retained) {
        return Ok(());
    }
    let selected = match retained.completion_scope {
        None => return Err(conflict("completion chain birth scope absent")),
        Some(selected) => selected,
    };
    if *expected != Some(retained.phase_id) || selected.intent != retained.phase_id {
        return Err(conflict("completion attempt chain forked or skipped a committed birth"));
    }
    match selected.predecessor {
        None => {
            *expected = None;
        },
        Some(id) => {
            let previous = phase(state, operation, id)?;
            if previous.sequence >= retained.sequence || !resolved_before(
                &previous,
                retained.prepared_revision,
            ) {
                return Err(conflict("completion birth precedes its sealed original"));
            }
            sealed_fact(state, operation, id)?;
            match previous.completion_scope {
                None => return Err(conflict("predecessor scope absent")),
                Some(scope) => {
                    *expected = Some(scope.intent);
                },
            }
        },
    }
    Ok(())
}

} // verus!
