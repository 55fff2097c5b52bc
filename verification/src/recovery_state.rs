//! Closed replicated recovery journal. Ordinary document commands cannot write
//! these records. Every remote effect has an exact durable phase before dispatch.
use vstd::prelude::*;

use crate::activation_rules;
use crate::errors::{conflict, error, Error, ErrorCode};
use crate::held::hold;
use crate::journal_rules;
use crate::model::{
    AuthorityAction, AuthorityOutcome, CompletionScope, Dispatch, DispatchOutcome,
    LifecyclePhase, PhaseRecord, RecoveryAuthorization, RecoveryCommand, RecoveryMutation,
    RecoveryPhase, RecoveryRecord, RecoveryStart, RouteChange, SignedReceipt, State,
    TargetOutcome, TargetResponse, TargetStep, Voter, Voters,
};
use crate::recovery_activation::{activate_command, original_receipt};
use crate::recovery_attempts::{fresh_phase, prepared_scope};
use crate::recovery_completion::resolve_original;
use crate::recovery_inputs::{authorize, validate_input};
use crate::recovery_lookup::{dispatch_limit, partition_named, phase, voter};
use crate::recovery_outcomes::native;
use crate::recovery_progress::{advance, first_set, replaced};
use crate::recovery_quorum::{completion_route_retry, established_effect, established_start};
use crate::recovery_receiver::{resolve_prior, resolve_resolver};
use crate::recovery_results::validate_outcome;
use crate::recovery_route;
use crate::views::StateView;

verus! {

fn fresh_voter(node_id: u64) -> (v: Voter)
    ensures
        v == journal_rules::fresh_voter(node_id),
{
    Voter {
        node_id,
        materialization: None,
        start_attempt: None,
        started: None,
        confirmation: None,
        cleanup: None,
    }
}

fn started_head(state: &State, authorization: &RecoveryAuthorization, request: &RecoveryStart) -> (r:
    RecoveryRecord)
    ensures
        r == journal_rules::started_head(state@, *authorization, *request),
{
    proof {
        reveal(journal_rules::started_head);
    }
    RecoveryRecord {
        request: *request,
        request_sha256: request.sha256,
        original_principal: authorization.principal,
        created_revision: state.revision,
        updated_revision: state.revision,
        phase: RecoveryPhase::Prepare,
        next_phase_sequence: 1,
        pending_phase: None,
        last_phase: None,
        issuer_preparation: None,
        current_intent: None,
        materialization_intent: None,
        initialization: None,
        completion_intent: None,
        completion_predecessor: None,
        completion_preparation_attempt: None,
        completion_preparation: None,
        completion_resolution_attempt: None,
        completion_terminal: None,
        completion_attempt: None,
        completion: None,
        retirement: None,
        source_fence: None,
        activation_attempt: None,
        activation: None,
        route_publication: None,
        stop_request: None,
        target_stop: None,
        voters: Voters {
            first: fresh_voter(request.target_nodes.first.node_id),
            second: fresh_voter(request.target_nodes.second.node_id),
            third: fresh_voter(request.target_nodes.third.node_id),
        },
    }
}

/// Whether a command did to the state what is said of it, and answered so. A
/// refused command leaves the state as it was.
pub open spec fn did(
    before: StateView,
    after: StateView,
    answer: Result<RecoveryRecord, Error>,
    said: Result<(StateView, RecoveryRecord), Error>,
) -> bool {
    match said {
        Err(e) => answer == Err::<RecoveryRecord, Error>(e) && after == before,
        Ok((next, head)) => answer == Ok::<RecoveryRecord, Error>(head) && after == next,
    }
}

fn start(state: &mut State, authorization: &RecoveryAuthorization, request: &RecoveryStart) -> (r:
    Result<RecoveryRecord, Error>)
    ensures
        did(
            old(state)@,
            final(state)@,
            r,
            journal_rules::start(old(state)@, *authorization, *request),
        ),
{
    proof {
        reveal(journal_rules::start);
    }
    match state.recovery.operations.get(request.operation_id) {
        Some(existing) => {
            if existing.request != *request {
                return Err(conflict("permanent recovery operation identity differs"));
            }
            return Ok(existing);
        },
        None => {},
    }
    let control = match &state.lifecycle {
        None => return Err(conflict("Control installation absent")),
        Some(control) => control,
    };
    if request.expected_policy_epoch != state.policy_epoch || request.installation_sha256
        != control.installation.sha256 || partition_named(
        &control.installation.partitions,
        request.authority_partition,
    ).is_none() {
        return Err(conflict("recovery Control installation or admission epoch differs"));
    }
    if state.recovery.targets.contains(request.target_incarnation) {
        return Err(conflict("target incarnation is permanently bound to another recovery"));
    }
    let head = started_head(state, authorization, request);
    assert(head.request == *request) by {
        reveal(journal_rules::started_head);
    }
    state.recovery.targets.insert(request.target_incarnation, request.operation_id);
    state.recovery.operations.insert(request.operation_id, head);
    Ok(head)
}

/// Puts the head as of the state's revision.
fn touch(state: &mut State, head: &RecoveryRecord) -> (r: RecoveryRecord)
    ensures
        (final(state)@, r) == journal_rules::touched(old(state)@, *head),
{
    let head = RecoveryRecord { updated_revision: state.revision, ..*head };
    state.recovery.operations.insert(head.request.operation_id, head);
    head
}

fn stopping(operation: &RecoveryRecord, command_id: u128) -> (r: RecoveryRecord)
    ensures
        r == journal_rules::stopping(*operation, command_id),
{
    proof {
        reveal(journal_rules::stopping);
    }
    if operation.activation.is_none() {
        // Pending exact effects remain in the phase chain. Stop seals the target
        // at its issuer before any physical deletion.
        let phase = if operation.activation_attempt.is_some() {
            RecoveryPhase::StopActivation
        } else {
            RecoveryPhase::StopTarget
        };
        RecoveryRecord {
            stop_request: Some(command_id),
            pending_phase: None,
            phase,
            ..*operation
        }
    } else {
        RecoveryRecord { stop_request: Some(command_id), ..*operation }
    }
}

fn stop(state: &mut State, operation: &RecoveryRecord, command_id: u128) -> (r: Result<
    RecoveryRecord,
    Error,
>)
    ensures
        did(
            old(state)@,
            final(state)@,
            r,
            journal_rules::stop(old(state)@, *operation, command_id),
        ),
{
    proof {
        reveal(journal_rules::stop);
    }
    if command_id == 0 {
        return Err(conflict("nil recovery stop identity"));
    }
    match operation.stop_request {
        Some(existing) => {
            if existing != command_id {
                return Err(conflict("permanent recovery stop identity differs"));
            }
            Ok(*operation)
        },
        None => {
            let head = stopping(operation, command_id);
            Ok(touch(state, &head))
        },
    }
}

fn displacing_phase(state: &State, operation: &RecoveryRecord, step: &TargetStep) -> (r: Result<
    Option<LifecyclePhase>,
    Error,
>)
    ensures
        r == journal_rules::displacing_phase(state@, *operation, *step),
{
    proof {
        reveal(journal_rules::displacing_phase);
    }
    let start: bool = match step {
        TargetStep::Start(_) => true,
        _ => false,
    };
    let effect: bool = established_effect(step);
    let established: bool = established_start(step);
    match step {
        TargetStep::Materialize(_) => return Ok(Some(LifecyclePhase::ResumeMaterialize)),
        TargetStep::ResumeMaterialization(_) => return Ok(Some(LifecyclePhase::ResumeMaterialize)),
        TargetStep::Stop(_) => return Ok(Some(LifecyclePhase::StopLocal)),
        _ => {},
    }
    let initialize: bool = match step {
        TargetStep::Initialize(_) => true,
        _ => start && !established,
    };
    if operation.phase == RecoveryPhase::Initialize && initialize {
        return Ok(Some(LifecyclePhase::Initialize));
    }
    if operation.phase == RecoveryPhase::Complete && (start || effect) {
        let phase = fresh_phase(state, operation)?;
        return Ok(Some(phase));
    }
    let activation: bool = match step {
        TargetStep::StartActivation { .. } => true,
        TargetStep::Activate { .. } => true,
        TargetStep::ConfirmActivation(_) => true,
        _ => false,
    };
    if operation.phase == RecoveryPhase::Confirm && activation {
        return Ok(Some(LifecyclePhase::Activate));
    }
    Ok(None)
}

fn awaited_phase(state: &State, operation: &RecoveryRecord, pending: &PhaseRecord, now: u64) -> (r:
    Result<Option<LifecyclePhase>, Error>)
    ensures
        r == journal_rules::awaited_phase(state@, *operation, *pending, now),
{
    proof {
        reveal(journal_rules::awaited_phase);
    }
    match pending.input {
        Dispatch::Target { node_id: _, request } => {
            let request = request.open();
            if now >= request.not_after_ms {
                displacing_phase(state, operation, &request.step)
            } else {
                Ok(None)
            }
        },
        _ => Ok(None),
    }
}

fn stops_expired(operation: &RecoveryRecord, pending: &PhaseRecord, input: &Dispatch, now: u64) -> (b:
    bool)
    ensures
        b == journal_rules::stops_expired(*operation, *pending, *input, now),
{
    proof {
        reveal(journal_rules::stops_expired);
    }
    let original = match activate_command(&pending.input) {
        None => return false,
        Some(original) => original,
    };
    if operation.phase != RecoveryPhase::Activate || now < original.not_after_ms {
        return false;
    }
    match input {
        Dispatch::Authority(stop) => match stop.open().action {
            AuthorityAction::StopActivation { original: stopped } => stopped.open() == original,
            _ => false,
        },
        _ => false,
    }
}

fn is_route(input: &Dispatch) -> (b: bool)
    ensures
        b == (*input is PublishRoute),
{
    match input {
        Dispatch::PublishRoute(_) => true,
        _ => false,
    }
}

fn expired_route(operation: &RecoveryRecord, pending: &PhaseRecord, input: &Dispatch, now: u64) -> (r:
    Result<bool, Error>)
    ensures
        r == journal_rules::expired_route(*operation, *pending, *input, now),
{
    proof {
        reveal(journal_rules::expired_route);
    }
    if is_route(&pending.input) && is_route(input) && operation.phase == RecoveryPhase::Publish {
        let limit: u64 = dispatch_limit(operation, pending)?;
        Ok(now >= limit)
    } else {
        Ok(false)
    }
}

fn asks_for(input: &Dispatch, phase: Option<LifecyclePhase>) -> (b: bool)
    ensures
        b == journal_rules::asks_for(*input, phase),
{
    proof {
        reveal(journal_rules::asks_for);
    }
    match input {
        Dispatch::ControlIntent(request) => Some(request.open().phase) == phase,
        _ => false,
    }
}

/// The head, once the dispatch may take the place of what is pending.
fn displaced(state: &State, operation: &RecoveryRecord, input: &Dispatch, now: u64) -> (r: Result<
    RecoveryRecord,
    Error,
>)
    ensures
        r == journal_rules::displaced(state@, *operation, *input, now),
{
    proof {
        reveal(journal_rules::displaced);
    }
    let id: u128 = match operation.pending_phase {
        None => return Ok(*operation),
        Some(id) => id,
    };
    let pending = phase(state, operation, id)?;
    let awaited = awaited_phase(state, operation, &pending, now)?;
    let expired: bool = expired_route(operation, &pending, input, now)?;
    if stops_expired(operation, &pending, input, now) {
        return Ok(RecoveryRecord { phase: RecoveryPhase::StopActivation, ..*operation });
    }
    if completion_route_retry(&pending, input, now) || expired || asks_for(input, awaited) {
        return Ok(*operation);
    }
    Err(conflict("resolve the exact pending recovery phase before another dispatch"))
}

fn settled(record: &PhaseRecord, outcome: &DispatchOutcome, revision: u64) -> (r: PhaseRecord)
    ensures
        r == journal_rules::settled(*record, *outcome, revision),
{
    PhaseRecord { outcome: Some(*outcome), resolved_revision: Some(revision), ..*record }
}

fn superseded(
    state: &State,
    operation: &RecoveryRecord,
    phase_id: u128,
    input: &Dispatch,
    now: u64,
) -> (r: Result<Option<(u128, PhaseRecord)>, Error>)
    ensures
        r == journal_rules::superseded(state@, *operation, phase_id, *input, now),
{
    proof {
        reveal(journal_rules::superseded);
    }
    let pending: u128 = match operation.pending_phase {
        None => return Ok(None),
        Some(pending) => pending,
    };
    if !is_route(input) {
        return Ok(None);
    }
    let prior = phase(state, operation, pending)?;
    if !is_route(&prior.input) {
        return Err(
            conflict("local publication supersession requires its expired original phase"),
        );
    }
    let limit: u64 = dispatch_limit(operation, &prior)?;
    if now < limit {
        return Err(
            conflict("local publication supersession requires its expired original phase"),
        );
    }
    Ok(
        Some(
            (
                pending,
                settled(
                    &prior,
                    &DispatchOutcome::RouteSuperseded { replacement_phase: phase_id },
                    state.revision,
                ),
            ),
        ),
    )
}

fn prepared_row(
    state: &State,
    operation: &RecoveryRecord,
    phase_id: u128,
    sequence: u64,
    scope: Option<CompletionScope>,
    input: &Dispatch,
    authorization: &RecoveryAuthorization,
) -> (r: PhaseRecord)
    ensures
        r == journal_rules::prepared_row(
            state@,
            *operation,
            phase_id,
            sequence,
            scope,
            *input,
            *authorization,
        ),
{
    proof {
        reveal(journal_rules::prepared_row);
    }
    PhaseRecord {
        operation_id: operation.request.operation_id,
        phase_id,
        sequence,
        phase: operation.phase,
        completion_scope: scope,
        previous_phase: operation.last_phase,
        input: *input,
        principal: authorization.principal,
        admitted_at_ms: authorization.admitted_at_ms,
        original_credential_expires_at_ms: authorization.expires_at_ms,
        prepared_revision: state.revision,
        outcome: None,
        resolved_revision: None,
    }
}

fn marked_target(operation: &RecoveryRecord, phase_id: u128, node: u64, step: &TargetStep) -> (r:
    RecoveryRecord)
    ensures
        r == journal_rules::marked_target(*operation, phase_id, node, *step),
{
    proof {
        reveal(journal_rules::marked_target);
    }
    match step {
        TargetStep::Start(_) => match voter(&operation.voters, node) {
            None => *operation,
            Some(v) => RecoveryRecord {
                voters: replaced(
                    &operation.voters,
                    node,
                    Voter { start_attempt: Some(phase_id), ..v },
                ),
                ..*operation
            },
        },
        TargetStep::PrepareComplete(_) => RecoveryRecord {
            completion_preparation_attempt: first_set(
                operation.completion_preparation_attempt,
                phase_id,
            ),
            ..*operation
        },
        TargetStep::ResolveComplete(_) => RecoveryRecord {
            completion_resolution_attempt: first_set(
                operation.completion_resolution_attempt,
                phase_id,
            ),
            ..*operation
        },
        TargetStep::Complete(_) => RecoveryRecord {
            completion_attempt: Some(phase_id),
            ..*operation
        },
        _ => *operation,
    }
}

fn marked(operation: &RecoveryRecord, phase_id: u128, input: &Dispatch) -> (r: RecoveryRecord)
    ensures
        r == journal_rules::marked(*operation, phase_id, *input),
{
    proof {
        reveal(journal_rules::marked);
    }
    match input {
        Dispatch::Authority(command) => match command.open().action {
            AuthorityAction::ActivateCommitted(_) => RecoveryRecord {
                activation_attempt: Some(phase_id),
                ..*operation
            },
            _ => *operation,
        },
        Dispatch::Target { node_id, request } => marked_target(
            operation,
            phase_id,
            *node_id,
            &request.open().step,
        ),
        _ => *operation,
    }
}

fn prepared_head(operation: &RecoveryRecord, phase_id: u128, input: &Dispatch) -> (r: RecoveryRecord)
    requires
        operation.next_phase_sequence < u64::MAX,
    ensures
        r == journal_rules::prepared_head(*operation, phase_id, *input),
{
    proof {
        reveal(journal_rules::prepared_head);
    }
    RecoveryRecord {
        pending_phase: Some(phase_id),
        last_phase: Some(phase_id),
        next_phase_sequence: operation.next_phase_sequence + 1,
        ..marked(operation, phase_id, input)
    }
}

fn prepare_admitted(
    state: &mut State,
    operation: &RecoveryRecord,
    phase_id: u128,
    sequence: u64,
    input: &Dispatch,
    authorization: &RecoveryAuthorization,
) -> (r: Result<RecoveryRecord, Error>)
    ensures
        did(
            old(state)@,
            final(state)@,
            r,
            journal_rules::prepare_admitted(
                old(state)@,
                *operation,
                phase_id,
                sequence,
                *input,
                *authorization,
            ),
        ),
{
    proof {
        reveal(journal_rules::prepare_admitted);
    }
    validate_input(state, operation, phase_id, input, authorization)?;
    let change = superseded(state, operation, phase_id, input, authorization.admitted_at_ms)?;
    let scope = prepared_scope(state, operation, phase_id, input)?;
    if operation.next_phase_sequence == u64::MAX {
        return Err(conflict("recovery phase sequence exhausted"));
    }
    let row = prepared_row(state, operation, phase_id, sequence, scope, input, authorization);
    match change {
        None => {},
        Some((id, prior)) => {
            state.recovery.phases.insert(id, prior);
        },
    }
    state.recovery.phases.insert(phase_id, row);
    let head = prepared_head(operation, phase_id, input);
    Ok(touch(state, &head))
}

fn prepare(
    state: &mut State,
    operation: &RecoveryRecord,
    phase_id: u128,
    sequence: u64,
    pending: Option<u128>,
    input: &Dispatch,
    authorization: &RecoveryAuthorization,
) -> (r: Result<RecoveryRecord, Error>)
    ensures
        did(
            old(state)@,
            final(state)@,
            r,
            journal_rules::prepare(
                old(state)@,
                *operation,
                phase_id,
                sequence,
                pending,
                *input,
                *authorization,
            ),
        ),
{
    proof {
        reveal(journal_rules::prepare);
    }
    match state.recovery.phases.get(phase_id) {
        Some(existing) => {
            if existing.operation_id != operation.request.operation_id || existing.sequence
                != sequence || existing.input != *input {
                return Err(conflict("permanent recovery phase input differs"));
            }
            return Ok(*operation);
        },
        None => {},
    }
    if phase_id == 0 || operation.phase == RecoveryPhase::Finished || operation.phase
        == RecoveryPhase::Stopped || operation.next_phase_sequence != sequence
        || operation.pending_phase != pending {
        return Err(conflict("recovery phase compare-and-set differs"));
    }
    let operation = displaced(state, operation, input, authorization.admitted_at_ms)?;
    prepare_admitted(state, &operation, phase_id, sequence, input, authorization)
}

fn publish_pending(
    state: &mut State,
    operation: &RecoveryRecord,
    phase_id: u128,
    prepared: &PhaseRecord,
    input: &RouteChange,
) -> (r: Result<RecoveryRecord, Error>)
    ensures
        did(
            old(state)@,
            final(state)@,
            r,
            journal_rules::publish_pending(
                old(state)@,
                *operation,
                phase_id,
                *prepared,
                *input,
            ),
        ),
{
    proof {
        reveal(journal_rules::publish_pending);
    }
    let mut next = state.copy();
    let outcome = recovery_route::apply(&mut next, operation, input)?;
    let row = settled(prepared, &outcome, state.revision);
    recovery_route::validate_outcome(&row, input, &outcome)?;
    let mut head = *operation;
    advance(&mut next, &mut head, &row, &outcome)?;
    next.recovery.phases.insert(phase_id, row);
    head.pending_phase = None;
    let head = touch(&mut next, &head);
    *state = next;
    Ok(head)
}

fn publication_eligible(operation: &RecoveryRecord, prepared: &PhaseRecord, phase_id: u128, now: u64) -> (r:
    Result<(), Error>)
    ensures
        r == journal_rules::publication_eligible(*operation, *prepared, phase_id, now),
{
    proof {
        reveal(journal_rules::publication_eligible);
    }
    if operation.phase != RecoveryPhase::Publish || operation.pending_phase != Some(phase_id) {
        return Err(conflict("original route publication is no longer eligible"));
    }
    let limit: u64 = dispatch_limit(operation, prepared)?;
    if now >= limit {
        return Err(conflict("original route publication is no longer eligible"));
    }
    Ok(())
}

fn publish(state: &mut State, operation: &RecoveryRecord, phase_id: u128, now: u64) -> (r: Result<
    RecoveryRecord,
    Error,
>)
    ensures
        did(
            old(state)@,
            final(state)@,
            r,
            journal_rules::publish(old(state)@, *operation, phase_id, now),
        ),
{
    proof {
        reveal(journal_rules::publish);
    }
    let prepared = phase(state, operation, phase_id)?;
    let input = match prepared.input {
        Dispatch::PublishRoute(input) => input,
        _ => return Err(conflict("route publication phase input differs")),
    };
    if prepared.outcome.is_some() {
        return Ok(*operation);
    }
    publication_eligible(operation, &prepared, phase_id, now)?;
    publish_pending(state, operation, phase_id, &prepared, &input)
}

fn resolved_command(prepared: &PhaseRecord, outcome: &DispatchOutcome) -> (r: Option<
    (u128, SignedReceipt),
>)
    ensures
        r == journal_rules::resolved_command(*prepared, *outcome),
{
    proof {
        reveal(journal_rules::resolved_command);
    }
    let signed = match outcome {
        DispatchOutcome::Authority(signed) => signed.open(),
        _ => return None,
    };
    match signed.receipt.outcome {
        AuthorityOutcome::ActivationResolved { .. } => {},
        _ => return None,
    }
    match prepared.input {
        Dispatch::Authority(command) => match command.open().action {
            AuthorityAction::StopActivation { original } => Some(
                (original.open().command_id, signed),
            ),
            _ => None,
        },
        _ => None,
    }
}

fn stopped_activation(
    state: &State,
    operation: &RecoveryRecord,
    id: u128,
    signed: &SignedReceipt,
) -> (r: Result<Option<(u128, PhaseRecord)>, Error>)
    ensures
        r == journal_rules::stopped_activation(state@, *operation, id, *signed),
{
    proof {
        reveal(journal_rules::stopped_activation);
    }
    let resolved = DispatchOutcome::AuthorityResolution(hold(*signed));
    let original = phase(state, operation, id)?;
    match original.outcome {
        Some(existing) => {
            let retained = original_receipt(&existing)?;
            let receipt = original_receipt(&resolved)?;
            if retained != receipt {
                return Err(conflict("activation stop changed permanent original outcome"));
            }
            Ok(None)
        },
        None => {
            validate_outcome(state, operation, &original, &resolved)?;
            Ok(Some((id, settled(&original, &resolved, state.revision))))
        },
    }
}

fn stop_resolves(
    state: &State,
    operation: &RecoveryRecord,
    prepared: &PhaseRecord,
    outcome: &DispatchOutcome,
) -> (r: Result<Option<(u128, PhaseRecord)>, Error>)
    ensures
        r == journal_rules::stop_resolves(state@, *operation, *prepared, *outcome),
{
    proof {
        reveal(journal_rules::stop_resolves);
    }
    match resolved_command(prepared, outcome) {
        None => Ok(None),
        Some((id, signed)) => stopped_activation(state, operation, id, &signed),
    }
}

/// Lets an observation resolve what it is of.
fn observe(state: &mut State, operation: &RecoveryRecord, row: &PhaseRecord, response: &TargetResponse) -> (r:
    Result<(), Error>)
    ensures
        match (r, journal_rules::observed(old(state)@, *operation, *row, *response)) {
            (Err(e), Err(said)) => e == said,
            (Ok(()), Ok(next)) => final(state)@ == next,
            _ => false,
        },
{
    proof {
        reveal(journal_rules::observed);
    }
    resolve_prior(state, operation, row, response)?;
    match response.outcome {
        TargetOutcome::CompletionTerminalStatus(_) => resolve_resolver(state, operation, row),
        TargetOutcome::Inspected(_) => resolve_original(state, operation, row.phase_id),
        _ => Ok(()),
    }
}

/// Resolves the phase and all that its outcome resolves.
fn settle(
    state: &mut State,
    operation: &RecoveryRecord,
    phase_id: u128,
    prepared: &PhaseRecord,
    outcome: &DispatchOutcome,
) -> (r: Result<(), Error>)
    ensures
        match (
            r,
            journal_rules::settled_state(
                old(state)@,
                *operation,
                phase_id,
                *prepared,
                *outcome,
            ),
        ) {
            (Err(e), Err(said)) => e == said,
            (Ok(()), Ok(next)) => final(state)@ == next,
            _ => false,
        },
{
    proof {
        reveal(journal_rules::settled_state);
    }
    match stop_resolves(state, operation, prepared, outcome)? {
        None => {},
        Some((id, original)) => {
            state.recovery.phases.insert(id, original);
        },
    }
    let row = settled(prepared, outcome, state.revision);
    state.recovery.phases.insert(phase_id, row);
    match native(&Some(*outcome)) {
        None => Ok(()),
        Some(response) => observe(state, operation, &row, &response),
    }
}

fn resolve_pending(
    state: &mut State,
    operation: &RecoveryRecord,
    phase_id: u128,
    prepared: &PhaseRecord,
    outcome: &DispatchOutcome,
) -> (r: Result<RecoveryRecord, Error>)
    ensures
        did(
            old(state)@,
            final(state)@,
            r,
            journal_rules::resolve_pending(
                old(state)@,
                *operation,
                phase_id,
                *prepared,
                *outcome,
            ),
        ),
{
    proof {
        reveal(journal_rules::resolve_pending);
    }
    validate_outcome(state, operation, prepared, outcome)?;
    let mut next = state.copy();
    settle(&mut next, operation, phase_id, prepared, outcome)?;
    let mut head = *operation;
    advance(&mut next, &mut head, prepared, outcome)?;
    head.pending_phase = None;
    let head = touch(&mut next, &head);
    *state = next;
    Ok(head)
}

fn resolve(state: &mut State, operation: &RecoveryRecord, phase_id: u128, outcome: &DispatchOutcome) -> (r:
    Result<RecoveryRecord, Error>)
    ensures
        did(
            old(state)@,
            final(state)@,
            r,
            journal_rules::resolve(old(state)@, *operation, phase_id, *outcome),
        ),
{
    proof {
        reveal(journal_rules::resolve);
    }
    let prepared = phase(state, operation, phase_id)?;
    match prepared.outcome {
        Some(existing) => {
            if existing != *outcome {
                return Err(conflict("permanent recovery phase outcome differs"));
            }
            return Ok(*operation);
        },
        None => {},
    }
    if is_route(&prepared.input) {
        return Err(
            conflict("route outcome must be committed atomically with its topology update"),
        );
    }
    if operation.pending_phase != Some(phase_id) {
        return Err(conflict("recovery phase was superseded; retain its original history"));
    }
    resolve_pending(state, operation, phase_id, &prepared, outcome)
}

fn operation(state: &State, operation_id: u128) -> (r: Result<RecoveryRecord, Error>)
    ensures
        r == journal_rules::operation(state@, operation_id),
{
    match state.recovery.operations.get(operation_id) {
        None => Err(error(ErrorCode::NotFound, "recovery operation absent")),
        Some(operation) => Ok(operation),
    }
}

/// Applies one command to the journal, or leaves it as it was.
pub fn apply(state: &mut State, command: &RecoveryCommand) -> (r: Result<RecoveryRecord, Error>)
    ensures
        did(
            old(state)@,
            final(state)@,
            r,
            journal_rules::transition(old(state)@, command.authorization, command.mutation),
        ),
{
    proof {
        reveal(journal_rules::transition);
    }
    match &command.mutation {
        RecoveryMutation::Start(request) => start(state, &command.authorization, request),
        RecoveryMutation::Stop { operation_id, command_id } => {
            let operation = operation(state, *operation_id)?;
            stop(state, &operation, *command_id)
        },
        RecoveryMutation::Prepare {
            operation_id,
            phase_id,
            expected_sequence,
            expected_pending,
            input,
        } => {
            let operation = operation(state, *operation_id)?;
            prepare(
                state,
                &operation,
                *phase_id,
                *expected_sequence,
                *expected_pending,
                input,
                &command.authorization,
            )
        },
        RecoveryMutation::PublishRoute { operation_id, phase_id } => {
            let operation = operation(state, *operation_id)?;
            publish(state, &operation, *phase_id, command.authorization.admitted_at_ms)
        },
        RecoveryMutation::Resolve { operation_id, phase_id, outcome } => {
            let operation = operation(state, *operation_id)?;
            resolve(state, &operation, *phase_id, outcome)
        },
    }
}

/// What the audit trail calls a command.
pub fn action_name(mutation: &RecoveryMutation) -> (name: &'static str)
    ensures
        name == journal_rules::action_name(*mutation),
{
    match mutation {
        RecoveryMutation::Start(_) => "recovery_start",
        RecoveryMutation::Stop { .. } => "recovery_stop",
        RecoveryMutation::Prepare { .. } => "recovery_phase_prepare",
        RecoveryMutation::Resolve { .. } => "recovery_phase_resolve",
        RecoveryMutation::PublishRoute { .. } => "recovery_route_publish",
    }
}

/// The revision of an applied entry, which is behind every earlier one.
pub fn entry_revision(base: u64, index: u64, previous: u64) -> (r: Result<u64, Error>)
    ensures
        r == journal_rules::entry_revision(base, index, previous),
{
    let revision: u64 = match base.checked_add(index) {
        None => return Err(conflict("recovery revision exhausted")),
        Some(revision) => revision,
    };
    if revision <= previous {
        return Err(conflict("recovery applied position did not advance"));
    }
    Ok(revision)
}

/// What an applied command came to, before it is known to fit.
pub struct Proposed {
    pub next: State,
    pub outcome: Result<RecoveryRecord, Error>,
    pub action: &'static str,
    pub topology_changed: bool,
}

fn topology_version(state: &State) -> (v: Option<u64>)
    ensures
        v == activation_rules::topology_version(state@),
{
    match &state.topology {
        None => None,
        Some(topology) => Some(topology.version),
    }
}

/// Applies a command at its revision to a copy of the state. A refused command
/// changes nothing but the revision.
pub fn propose(previous: &State, revision: u64, command: &RecoveryCommand) -> (p: Proposed)
    ensures
        match journal_rules::applied(
            previous@,
            revision,
            command.authorization,
            command.mutation,
        ) {
            Err(e) => p.outcome == Err::<RecoveryRecord, Error>(e) && p.next@
                == journal_rules::at_revision(previous@, revision),
            Ok((next, head)) => p.outcome == Ok::<RecoveryRecord, Error>(head) && p.next@ == next,
        },
        p.action == journal_rules::action_name(command.mutation),
        p.topology_changed == (activation_rules::topology_version(previous@)
            != activation_rules::topology_version(p.next@)),
{
    let mut next = previous.copy();
    next.revision = revision;
    let outcome = match authorize(&next, &command.authorization) {
        Err(e) => Err(e),
        Ok(()) => apply(&mut next, command),
    };
    let topology_changed: bool = topology_version(previous) != topology_version(&next);
    Proposed { next, outcome, action: action_name(&command.mutation), topology_changed }
}

fn kept(previous: &State, revision: u64, proposed: Proposed, refusal: Error) -> (p: Proposed)
    ensures
        p.next@ == journal_rules::at_revision(previous@, revision),
        p.outcome == Err::<RecoveryRecord, Error>(refusal),
        p.action == proposed.action,
        !p.topology_changed,
{
    let mut next = previous.copy();
    next.revision = revision;
    Proposed { next, outcome: Err(refusal), action: proposed.action, topology_changed: false }
}

/// What a proposed command comes to: the proposal, or the previous state at the new
/// revision where a record that the proposal leaves is not of the form of one, or the
/// change feed refused the topology's change. Whether it fits is asked of this state.
pub fn settle_proposed(
    previous: &State,
    proposed: Proposed,
    form_refusal: Option<Error>,
    feed_refusal: Option<Error>,
) -> (p: Proposed)
    ensures
        p.action == proposed.action,
        ({
            let kept = journal_rules::at_revision(previous@, proposed.next.revision);
            if proposed.outcome is Ok && form_refusal is Some {
                p.next@ == kept && p.outcome == Err::<RecoveryRecord, Error>(form_refusal->0)
                    && !p.topology_changed
            } else if proposed.topology_changed && feed_refusal is Some {
                p.next@ == kept && p.outcome == Err::<RecoveryRecord, Error>(feed_refusal->0)
                    && !p.topology_changed
            } else {
                p.next@ == proposed.next@ && p.outcome == proposed.outcome && p.topology_changed
                    == proposed.topology_changed
            }
        }),
{
    let revision: u64 = proposed.next.revision;
    match form_refusal {
        Some(refusal) => {
            if proposed.outcome.is_ok() {
                return kept(previous, revision, proposed, refusal);
            }
        },
        None => {},
    }
    match feed_refusal {
        Some(refusal) => {
            if proposed.topology_changed {
                return kept(previous, revision, proposed, refusal);
            }
        },
        None => {},
    }
    proposed
}

/// What is published of a settled command: what it came to, or the previous state at the
/// new revision where that and its audit event would not fit.
pub fn commit(previous: &State, settled: Proposed, fits: bool) -> (r: (
    State,
    Result<RecoveryRecord, Error>,
))
    ensures
        if fits {
            r.0@ == settled.next@ && r.1 == settled.outcome
        } else {
            r.0@ == journal_rules::at_revision(previous@, settled.next.revision) && r.1 == Err::<
                RecoveryRecord,
                Error,
            >(
                crate::errors::refusal(
                    ErrorCode::ResourceExhausted,
                    "recovery retained state or audit capacity unavailable",
                ),
            )
        },
{
    if fits {
        return (settled.next, settled.outcome);
    }
    let mut next = previous.copy();
    next.revision = settled.next.revision;
    (
        next,
        Err(
            error(
                ErrorCode::ResourceExhausted,
                "recovery retained state or audit capacity unavailable",
            ),
        ),
    )
}

} // verus!
