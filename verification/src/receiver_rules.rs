//! What the completion receiver's steps, answers and links are held to.
use vstd::prelude::*;

use crate::encoding;
use crate::encoding::{ATTEMPT_STATUS, COMPLETION, INSPECTION, QUORUM, RESOLUTION, TERMINAL_STATUS};
use crate::errors::Error;
use crate::held::Held;
use crate::model::{
    AttemptStatusInput, CompletionFact, CompletionTerminal, Dispatch, DispatchOutcome,
    InspectionInput, LifecycleIntent, LifecyclePhase, PhaseRecord, QuorumInput, RecoveryPhase,
    RecoveryRecord, ReplicaInput, SignedAttempt, SignedAttemptStatus, SignedInspection,
    SignedResolution, SignedTerminalStatus, TargetOrigin, TargetOutcome, TargetRequest,
    TargetResponse, TargetStep, TerminalStatusInput,
};
use crate::rules;
use crate::views::StateView;

verus! {

#[verifier::opaque]
pub open spec fn quorum_of(input: ReplicaInput) -> QuorumInput {
    match input {
        ReplicaInput::Quorum(quorum) => quorum@,
        ReplicaInput::Completion(input) => input@.quorum,
        ReplicaInput::CompletionAttemptStatus(input) => input@.original_input.quorum,
        ReplicaInput::CompletionTerminalStatus(input) => input@.original_input.attempt.input.quorum,
        ReplicaInput::CompletionResolution(input) => input@.attempt.input.quorum,
        ReplicaInput::Inspection(input) => input@.quorum,
    }
}

/// A Complete dispatch sends the prepared input on, with its original deadline.
#[verifier::opaque]
pub open spec fn complete_dispatch(s: StateView, op: RecoveryRecord, request: TargetRequest) -> Result<
    (),
    Error,
> {
    match rules::preparation(s, op) {
        Err(e) => Err(e),
        Ok(attempt) => match request.step {
            TargetStep::Complete(input) => if request.command_id
                != attempt.intent.request.command_id || input@ != attempt.input
                || request.not_after_ms != attempt.dispatch_not_after_ms {
                Err(
                    rules::no(
                        "Complete dispatch changed its exact prepared input or original deadline",
                    ),
                )
            } else {
                Ok(())
            },
            _ => Err(rules::no("original completion dispatch kind differs")),
        },
    }
}

/// The steps that the completion receiver serves.
#[verifier::opaque]
pub open spec fn is_step(step: TargetStep) -> bool {
    match step {
        TargetStep::PrepareComplete(_) => true,
        TargetStep::InspectCompletionAttempt(_) => true,
        TargetStep::ResolveComplete(_) => true,
        TargetStep::InspectCompletionResolution(_) => true,
        TargetStep::Start(ReplicaInput::CompletionTerminalStatus(_)) => true,
        TargetStep::Start(ReplicaInput::CompletionAttemptStatus(_)) => true,
        TargetStep::Start(ReplicaInput::CompletionResolution(_)) => true,
        _ => false,
    }
}

/// A preparation sends the canonical input, and a retry of it the same request.
#[verifier::opaque]
pub open spec fn prepare_step(
    s: StateView,
    op: RecoveryRecord,
    current: LifecycleIntent,
    request: TargetRequest,
    input: crate::model::CompletionInput,
) -> Result<(), Error> {
    match rules::origin(s, op) {
        Err(e) => Err(e),
        Ok(o) => match rules::completion_input(s, op) {
            Err(e) => Err(e),
            Ok(expected) => match rules::validate_original_intent(o, expected, current) {
                Err(e) => Err(e),
                Ok(()) => if input != expected {
                    Err(rules::no("preparation dispatch canonical input differs"))
                } else {
                    match op.completion_preparation_attempt {
                        None => Ok(()),
                        Some(id) => match rules::phase(s, op, id) {
                            Err(e) => Err(e),
                            Ok(p) => match rules::target_request(p) {
                                Err(e) => Err(e),
                                Ok((node, first)) => if first != request {
                                    Err(
                                        rules::no(
                                            "preparation retry changed its original dispatch",
                                        ),
                                    )
                                } else {
                                    Ok(())
                                },
                            },
                        },
                    }
                },
            },
        },
    }
}

#[verifier::opaque]
pub open spec fn status_step(
    s: StateView,
    op: RecoveryRecord,
    current: LifecycleIntent,
    input: AttemptStatusInput,
) -> Result<(), Error> {
    match rules::status_input(s, op) {
        Err(e) => Err(e),
        Ok(expected) => if input != expected {
            Err(rules::no("preparation status input differs"))
        } else {
            match rules::origin(s, op) {
                Err(e) => Err(e),
                Ok(o) => rules::commits(
                    o,
                    current,
                    LifecyclePhase::InspectCompletionAttempt,
                    encoding::labelled(ATTEMPT_STATUS, input),
                ),
            }
        },
    }
}

#[verifier::opaque]
pub open spec fn terminal_status_step(
    s: StateView,
    op: RecoveryRecord,
    current: LifecycleIntent,
    input: TerminalStatusInput,
) -> Result<(), Error> {
    match rules::terminal_status_input(s, op) {
        Err(e) => Err(e),
        Ok(expected) => if input != expected {
            Err(rules::no("terminal status changed its original resolver"))
        } else {
            match rules::origin(s, op) {
                Err(e) => Err(e),
                Ok(o) => rules::commits(
                    o,
                    current,
                    LifecyclePhase::InspectCompletionResolution,
                    encoding::labelled(TERMINAL_STATUS, input),
                ),
            }
        },
    }
}

/// A resolution names the prepared attempt, whose evidence was durable before
/// the resolution's own intent.
#[verifier::opaque]
pub open spec fn resolution_step(
    s: StateView,
    op: RecoveryRecord,
    current: LifecycleIntent,
    input: crate::model::ResolutionInput,
) -> Result<(), Error> {
    match rules::resolution_input(s, op) {
        Err(e) => Err(e),
        Ok(expected) => if input != expected {
            Err(rules::no("terminal resolution lacks the retained exact preparation"))
        } else {
            match rules::origin(s, op) {
                Err(e) => Err(e),
                Ok(o) => match rules::commits(
                    o,
                    current,
                    LifecyclePhase::ResolveComplete,
                    encoding::labelled(RESOLUTION, input),
                ) {
                    Err(e) => Err(e),
                    Ok(()) => match rules::phase_of(
                        s,
                        op,
                        op.completion_preparation,
                        "positive preparation evidence absent",
                    ) {
                        Err(e) => Err(e),
                        Ok(evidence) => if rules::resolved_before(evidence, current.revision) {
                            Ok(())
                        } else {
                            Err(
                                rules::no(
                                    "resolution Control intent precedes durable preparation evidence",
                                ),
                            )
                        },
                    },
                },
            }
        },
    }
}

/// What the step's input is held to, whenever it is looked at.
#[verifier::opaque]
pub open spec fn frozen_step(
    s: StateView,
    op: RecoveryRecord,
    current: LifecycleIntent,
    request: TargetRequest,
) -> Result<(), Error> {
    match request.step {
        TargetStep::PrepareComplete(input) => prepare_step(s, op, current, request, input@),
        TargetStep::Start(ReplicaInput::CompletionAttemptStatus(input)) => status_step(
            s,
            op,
            current,
            input@,
        ),
        TargetStep::InspectCompletionAttempt(input) => status_step(s, op, current, input@),
        TargetStep::Start(
            ReplicaInput::CompletionTerminalStatus(input),
        ) => terminal_status_step(s, op, current, input@),
        TargetStep::InspectCompletionResolution(input) => terminal_status_step(
            s,
            op,
            current,
            input@,
        ),
        TargetStep::Start(ReplicaInput::CompletionResolution(input)) => resolution_step(
            s,
            op,
            current,
            input@,
        ),
        TargetStep::ResolveComplete(input) => resolution_step(s, op, current, input@),
        _ => Err(rules::no("completion receiver operation differs")),
    }
}

/// What the step's destination is held to when it is admitted.
pub open spec fn admitted_step(
    s: StateView,
    op: RecoveryRecord,
    current: LifecycleIntent,
    node: u64,
    step: TargetStep,
) -> Result<(), Error> {
    match step {
        TargetStep::Start(_) => match rules::started_for(
            s,
            op,
            node,
            current.request.command_id,
        ) {
            Err(e) => Err(e),
            Ok(true) => Err(rules::no("receiver voter already started under this exact phase")),
            Ok(false) => Ok(()),
        },
        TargetStep::PrepareComplete(_) => rules::require_initialized_mutation_observer(s, op, node),
        _ => rules::require_eligible_observer(s, op, current.request.command_id, node),
    }
}

#[verifier::opaque]
pub open spec fn step(
    s: StateView,
    op: RecoveryRecord,
    current: LifecycleIntent,
    node: u64,
    request: TargetRequest,
    admission: bool,
) -> Result<(), Error> {
    match frozen_step(s, op, current, request) {
        Err(e) => Err(e),
        Ok(()) => if admission {
            admitted_step(s, op, current, node, request.step)
        } else {
            Ok(())
        },
    }
}

#[verifier::opaque]
pub open spec fn attempt_holds(o: TargetOrigin, signed: SignedAttempt) -> bool {
    signed.authentic && signed.attempt.origin == o
}

#[verifier::opaque]
pub open spec fn attempt_status_holds(input: AttemptStatusInput, signed: SignedAttemptStatus) -> bool {
    signed.authentic && signed.input == input && rules::matches_attempt(input, signed.attempt)
}

#[verifier::opaque]
pub open spec fn resolution_holds(o: TargetOrigin, signed: SignedResolution) -> bool {
    signed.authentic && signed.fact.input.attempt.origin == o
}

/// Whether a terminal status tells how the very resolver that it asks about ended.
#[verifier::opaque]
pub open spec fn terminal_status_holds(
    input: TerminalStatusInput,
    signed: SignedTerminalStatus,
) -> bool {
    &&& signed.authentic
    &&& signed.input == input
    &&& signed.fact.input == input.original_input
    &&& signed.fact.resolution_intent == input.original_intent
    &&& signed.fact.dispatch_not_after_ms == input.original_dispatch_not_after_ms
}

#[verifier::opaque]
pub open spec fn prepare_answer(
    s: StateView,
    op: RecoveryRecord,
    current: LifecycleIntent,
    node: u64,
    request: TargetRequest,
    input: crate::model::CompletionInput,
    signed: SignedAttempt,
) -> Result<(), Error> {
    match rules::origin(s, op) {
        Err(e) => Err(e),
        Ok(o) => if !attempt_holds(o, signed) {
            Err(rules::no("preparation signature or quorum differs"))
        } else if signed.attempt.intent != current || signed.attempt.input != input
            || signed.observer_node_id != node || signed.attempt.dispatch_not_after_ms
            != request.not_after_ms {
            Err(rules::no("preparation changed the original intent, cap or observer"))
        } else {
            Ok(())
        },
    }
}

#[verifier::opaque]
pub open spec fn status_answer(
    s: StateView,
    op: RecoveryRecord,
    prepared: PhaseRecord,
    current: LifecycleIntent,
    node: u64,
    input: AttemptStatusInput,
    signed: SignedAttemptStatus,
) -> Result<(), Error> {
    if !attempt_status_holds(input, signed) {
        Err(rules::no("preparation status signature or quorum differs"))
    } else if signed.status_intent != current || signed.observer_node_id != node {
        Err(rules::no("preparation status current identity differs"))
    } else {
        match rules::original(s, op) {
            Err(e) => Err(e),
            Ok(first) => if first.prepared_revision >= prepared.prepared_revision {
                Err(rules::no("status precedes its original preparation dispatch"))
            } else {
                Ok(())
            },
        }
    }
}

#[verifier::opaque]
pub open spec fn terminal_status_answer(
    s: StateView,
    op: RecoveryRecord,
    prepared: PhaseRecord,
    current: LifecycleIntent,
    node: u64,
    input: TerminalStatusInput,
    signed: SignedTerminalStatus,
) -> Result<(), Error> {
    if !terminal_status_holds(input, signed) {
        Err(rules::no("terminal-only status signature or quorum differs"))
    } else if signed.status_intent != current || signed.observer_node_id != node {
        Err(rules::no("terminal-only status current identity differs"))
    } else {
        match rules::phase_of(
            s,
            op,
            op.completion_resolution_attempt,
            "original resolver dispatch absent",
        ) {
            Err(e) => Err(e),
            Ok(first) => if first.prepared_revision >= prepared.prepared_revision {
                Err(rules::no("terminal-only status precedes original resolver"))
            } else {
                Ok(())
            },
        }
    }
}

#[verifier::opaque]
pub open spec fn resolve_answer(
    s: StateView,
    op: RecoveryRecord,
    current: LifecycleIntent,
    node: u64,
    input: crate::model::ResolutionInput,
    signed: SignedResolution,
) -> Result<(), Error> {
    match rules::origin(s, op) {
        Err(e) => Err(e),
        Ok(o) => if !resolution_holds(o, signed) {
            Err(rules::no("terminal resolution signature or quorum differs"))
        } else if signed.observation_intent != current || signed.fact.input != input
            || signed.observer_node_id != node {
            Err(rules::no("terminal resolution current identity differs"))
        } else {
            resolver_answer(s, op, signed)
        },
    }
}

/// Whether the answer is the step's own.
#[verifier::opaque]
pub open spec fn answer(
    s: StateView,
    op: RecoveryRecord,
    prepared: PhaseRecord,
    current: LifecycleIntent,
    node: u64,
    request: TargetRequest,
    response: TargetResponse,
) -> Result<(), Error> {
    match request.step {
        TargetStep::Start(input) => if rules::started_by(response.outcome) == Some(
            quorum_of(input).origin_sha256,
        ) {
            Ok(())
        } else {
            Err(rules::no("completion receiver response kind differs"))
        },
        TargetStep::PrepareComplete(input) => match rules::prepared_by(response.outcome) {
            Some(signed) => prepare_answer(s, op, current, node, request, input@, signed),
            None => Err(rules::no("completion receiver response kind differs")),
        },
        TargetStep::InspectCompletionAttempt(input) => match rules::attempt_status_by(response.outcome) {
            Some(signed) => status_answer(s, op, prepared, current, node, input@, signed),
            None => Err(rules::no("completion receiver response kind differs")),
        },
        TargetStep::InspectCompletionResolution(input) => match rules::terminal_status_by(response.outcome) {
            Some(signed) => terminal_status_answer(s, op, prepared, current, node, input@, signed),
            None => Err(rules::no("completion receiver response kind differs")),
        },
        TargetStep::ResolveComplete(input) => match rules::resolved_by(response.outcome) {
            Some(signed) => resolve_answer(s, op, current, node, input@, signed),
            None => Err(rules::no("completion receiver response kind differs")),
        },
        _ => Err(rules::no("completion receiver response kind differs")),
    }
}

/// A resolution quotes the intent and the deadline of the first resolver.
#[verifier::opaque]
pub open spec fn resolver_answer(s: StateView, op: RecoveryRecord, signed: SignedResolution) -> Result<
    (),
    Error,
> {
    match rules::phase_of(
        s,
        op,
        op.completion_resolution_attempt,
        "original terminal dispatch absent",
    ) {
        Err(e) => Err(e),
        Ok(first) => match rules::target_request(first) {
            Err(e) => Err(e),
            Ok((node, request)) => match rules::retained_intent(s, request.command_id) {
                None => Err(rules::no("original terminal Control intent absent")),
                Some(original) => if signed.fact.resolution_intent != original
                    || signed.fact.dispatch_not_after_ms != request.not_after_ms {
                    Err(rules::no("terminal resolution changed its original admitted deadline"))
                } else {
                    Ok(())
                },
            },
        },
    }
}

/// Whether a receiver's answer resolves its phase.
#[verifier::opaque]
pub open spec fn outcome(
    s: StateView,
    op: RecoveryRecord,
    prepared: PhaseRecord,
    response: TargetResponse,
) -> Result<(), Error> {
    match rules::target_request(prepared) {
        Err(e) => Err(e),
        Ok((node, request)) => match rules::retained_intent(s, request.command_id) {
            None => Err(rules::no("completion receiver Control identity absent")),
            Some(current) => match frozen_step(s, op, current, request) {
                Err(e) => Err(e),
                Ok(()) => if response.command_id != request.command_id || response.node_id != node {
                    Err(rules::no("completion receiver response route differs"))
                } else {
                    answer(s, op, prepared, current, node, request, response)
                },
            },
        },
    }
}

/// What the current receiver phase starts a replica with.
pub open spec fn next_replica_input(s: StateView, op: RecoveryRecord, phase: LifecyclePhase) -> Result<
    ReplicaInput,
    Error,
> {
    match phase {
        LifecyclePhase::InspectCompletionAttempt => match rules::status_input(s, op) {
            Err(e) => Err(e),
            Ok(input) => Ok(ReplicaInput::CompletionAttemptStatus(Held::of(input))),
        },
        LifecyclePhase::ResolveComplete => match rules::resolution_input(s, op) {
            Err(e) => Err(e),
            Ok(input) => Ok(ReplicaInput::CompletionResolution(Held::of(input))),
        },
        LifecyclePhase::InspectCompletionResolution => match rules::terminal_status_input(s, op) {
            Err(e) => Err(e),
            Ok(input) => Ok(ReplicaInput::CompletionTerminalStatus(Held::of(input))),
        },
        _ => Err(rules::no("current receiver phase differs")),
    }
}

/// The step that asks a started replica for what `input` stands for.
pub open spec fn act_on(input: ReplicaInput) -> TargetStep {
    match input {
        ReplicaInput::CompletionAttemptStatus(input) => TargetStep::InspectCompletionAttempt(input),
        ReplicaInput::CompletionResolution(input) => TargetStep::ResolveComplete(input),
        ReplicaInput::CompletionTerminalStatus(input) => TargetStep::InspectCompletionResolution(
            input,
        ),
        _ => TargetStep::Start(input),
    }
}

pub open spec fn least(a: u64, b: u64) -> u64 {
    if a < b {
        a
    } else {
        b
    }
}

/// A dispatch under `current` that starts now.
#[verifier::opaque]
pub open spec fn dispatched(
    op: RecoveryRecord,
    current: LifecycleIntent,
    node_id: u64,
    step: TargetStep,
    now: u64,
    expires: u64,
    message: &'static str,
) -> Result<Dispatch, Error> {
    match rules::deadline(
        now,
        op,
        least(expires, current.original_credential_expires_at_ms),
        message,
    ) {
        Err(e) => Err(e),
        Ok(not_after_ms) => Ok(
            Dispatch::Target {
                node_id,
                request: Held::of(
                    TargetRequest {
                        tenant: op.request.tenant,
                        command_id: current.request.command_id,
                        not_after_ms,
                        step,
                    },
                ),
            },
        ),
    }
}

/// The receiver's next dispatch.
#[verifier::opaque]
pub open spec fn next(
    s: StateView,
    op: RecoveryRecord,
    current: LifecycleIntent,
    now: u64,
    expires: u64,
) -> Result<Dispatch, Error> {
    match next_replica_input(s, op, current.request.phase) {
        Err(e) => Err(e),
        Ok(input) => match rules::established_destination(s, op, current.request.command_id) {
            Err(e) => Err(e),
            Ok((node, startup)) => dispatched(
                op,
                current,
                node,
                if startup {
                    TargetStep::Start(input)
                } else {
                    act_on(input)
                },
                now,
                expires,
                "receiver deadline overflow",
            ),
        },
    }
}

/// Whether the positive observation `linked` resolves the original dispatch.
#[verifier::opaque]
pub open spec fn link(
    s: StateView,
    op: RecoveryRecord,
    first: PhaseRecord,
    linked_id: u128,
    terminal_link: bool,
) -> Result<(), Error> {
    match rules::phase(s, op, linked_id) {
        Err(e) => Err(e),
        Ok(linked) => match rules::target_request(first) {
            Err(e) => Err(e),
            Ok((node, old)) => match linked.outcome {
                Some(DispatchOutcome::Target(response)) => if linked.prepared_revision
                    <= first.prepared_revision || linked.resolved_revision
                    != first.resolved_revision {
                    Err(rules::no("receiver resolution phase is not causally later"))
                } else {
                    match outcome(s, op, linked, response@) {
                        Err(e) => Err(e),
                        Ok(()) => if terminal_link {
                            terminal_link_holds(old, response@)
                        } else {
                            preparation_link_holds(old, response@)
                        },
                    }
                },
                _ => Err(rules::no("receiver resolution lacks its retained positive observation")),
            },
        },
    }
}

pub open spec fn terminal_link_holds(old: TargetRequest, response: TargetResponse) -> Result<
    (),
    Error,
> {
    match old.step {
        TargetStep::Complete(input) => match rules::terminal_response(response) {
            Err(e) => Err(e),
            Ok(fact) => if fact.input.attempt.input != input@
                || fact.input.attempt.intent.request.command_id != old.command_id
                || fact.input.attempt.dispatch_not_after_ms != old.not_after_ms {
                Err(rules::no("terminal link changed original Complete dispatch"))
            } else {
                Ok(())
            },
        },
        _ => Err(rules::no("terminal link original operation differs")),
    }
}

pub open spec fn preparation_link_holds(old: TargetRequest, response: TargetResponse) -> Result<
    (),
    Error,
> {
    match old.step {
        TargetStep::PrepareComplete(input) => match rules::prepared_attempt(response) {
            None => Err(rules::no("preparation link outcome is not positive evidence")),
            Some(attempt) => if attempt.input != input@ || attempt.intent.request.command_id
                != old.command_id || attempt.dispatch_not_after_ms != old.not_after_ms {
                Err(rules::no("preparation link changed original dispatch"))
            } else {
                Ok(())
            },
        },
        _ => Err(rules::no("preparation link original operation differs")),
    }
}

/// The earlier dispatch that an observation may resolve, and whether it is the
/// Complete dispatch.
#[verifier::opaque]
pub open spec fn prior_reference(op: RecoveryRecord, response: TargetResponse) -> Option<(u128, bool)> {
    match response.outcome {
        TargetOutcome::CompletionAttemptStatus(_) => match op.completion_preparation_attempt {
            None => None,
            Some(id) => Some((id, false)),
        },
        TargetOutcome::PreparedCompletion(_) => match op.completion_preparation_attempt {
            None => None,
            Some(id) => Some((id, false)),
        },
        TargetOutcome::ResolvedCompletion(_) => match op.completion_attempt {
            None => None,
            Some(id) => Some((id, true)),
        },
        TargetOutcome::CompletionTerminalStatus(_) => match op.completion_attempt {
            None => None,
            Some(id) => Some((id, true)),
        },
        _ => None,
    }
}

/// The phase row that an observation rewrites, if it resolves an earlier one.
#[verifier::opaque]
pub open spec fn prior(
    s: StateView,
    op: RecoveryRecord,
    observed: PhaseRecord,
    response: TargetResponse,
) -> Result<Option<(u128, PhaseRecord)>, Error> {
    match prior_reference(op, response) {
        None => Ok(None),
        Some((id, terminal_link)) => if id == observed.phase_id {
            Ok(None)
        } else {
            match rules::phase(s, op, id) {
                Err(e) => Err(e),
                Ok(previous) => if previous.outcome is Some {
                    Ok(None)
                } else {
                    match link(
                        s,
                        op,
                        resolving(previous, s.revision),
                        observed.phase_id,
                        terminal_link,
                    ) {
                        Err(e) => Err(e),
                        Ok(()) => Ok(
                            Some(
                                (
                                    id,
                                    linked_row(
                                        previous,
                                        s.revision,
                                        observed.phase_id,
                                        terminal_link,
                                    ),
                                ),
                            ),
                        ),
                    }
                },
            }
        },
    }
}

/// The phase row, as it is being resolved.
#[verifier::opaque]
pub open spec fn resolving(p: PhaseRecord, revision: u64) -> PhaseRecord {
    PhaseRecord { resolved_revision: Some(revision), ..p }
}

/// The phase row, resolved by a positive observation.
#[verifier::opaque]
pub open spec fn linked_row(
    p: PhaseRecord,
    revision: u64,
    observed: u128,
    terminal_link: bool,
) -> PhaseRecord {
    PhaseRecord {
        outcome: Some(
            if terminal_link {
                DispatchOutcome::CompletionTerminal { resolution_phase: observed }
            } else {
                DispatchOutcome::PreparationObserved { status_phase: observed }
            },
        ),
        ..resolving(p, revision)
    }
}

/// Whether preparation evidence is durable and of its original dispatch.
#[verifier::opaque]
pub open spec fn preparation_progress(s: StateView, op: RecoveryRecord) -> Result<(), Error> {
    match op.completion_preparation {
        None => Ok(()),
        Some(id) => match rules::phase(s, op, id) {
            Err(e) => Err(e),
            Ok(evidence) => if evidence.resolved_revision is None {
                Err(rules::no("preparation progress precedes its original dispatch"))
            } else {
                match rules::original(s, op) {
                    Err(e) => Err(e),
                    Ok(first) => if evidence.prepared_revision < first.prepared_revision {
                        Err(rules::no("preparation progress precedes its original dispatch"))
                    } else {
                        match rules::preparation(s, op) {
                            Err(e) => Err(e),
                            Ok(_) => Ok(()),
                        }
                    },
                }
            },
        },
    }
}

/// Whether the resolver was sent behind durable preparation evidence.
#[verifier::opaque]
pub open spec fn resolver_progress(s: StateView, op: RecoveryRecord) -> Result<(), Error> {
    match op.completion_resolution_attempt {
        None => Ok(()),
        Some(id) => match rules::phase(s, op, id) {
            Err(e) => Err(e),
            Ok(retained) => match rules::target_request(retained) {
                Err(e) => Err(e),
                Ok((node, request)) => match request.step {
                    TargetStep::ResolveComplete(input) => match rules::resolution_input(s, op) {
                        Err(e) => Err(e),
                        Ok(expected) => if input@ != expected {
                            Err(rules::no("terminal resolution input changed"))
                        } else {
                            evidence_before(
                                s,
                                op,
                                retained.prepared_revision,
                                "terminal dispatch precedes persisted preparation evidence",
                            )
                        },
                    },
                    _ => Err(rules::no("original terminal resolution step differs")),
                },
            },
        },
    }
}

#[verifier::opaque]
pub open spec fn evidence_before(
    s: StateView,
    op: RecoveryRecord,
    revision: u64,
    message: &'static str,
) -> Result<(), Error> {
    match rules::phase_of(
        s,
        op,
        op.completion_preparation,
        "positive preparation evidence absent",
    ) {
        Err(e) => Err(e),
        Ok(evidence) => if rules::resolved_before(evidence, revision) {
            Ok(())
        } else {
            Err(rules::no(message))
        },
    }
}

/// A sealed attempt reaches neither completion nor activation.
#[verifier::opaque]
pub open spec fn terminal_progress(s: StateView, op: RecoveryRecord) -> Result<(), Error> {
    if op.completion_terminal is None {
        Ok(())
    } else {
        match rules::terminal(s, op) {
            Err(e) => Err(e),
            Ok(fact) => if fact.terminal is Sealed && (op.completion is Some
                || op.activation_attempt is Some || op.activation is Some) {
                Err(rules::no("sealed completion cannot reach activation"))
            } else {
                Ok(())
            },
        }
    }
}

/// Whether the Complete dispatch kept its preparation's cap and came behind it.
#[verifier::opaque]
pub open spec fn complete_progress(s: StateView, op: RecoveryRecord) -> Result<(), Error> {
    match op.completion_attempt {
        None => Ok(()),
        Some(id) => match rules::phase(s, op, id) {
            Err(e) => Err(e),
            Ok(dispatch) => match rules::target_request(dispatch) {
                Err(e) => Err(e),
                Ok((node, request)) => match rules::status_input(s, op) {
                    Err(e) => Err(e),
                    Ok(first) => if request.not_after_ms != first.original_dispatch_not_after_ms {
                        Err(rules::no("Complete changed its preparation dispatch cap"))
                    } else {
                        match rules::preparation(s, op) {
                            Err(e) => Err(e),
                            Ok(_) => evidence_before(
                                s,
                                op,
                                dispatch.prepared_revision,
                                "Complete dispatch precedes persisted preparation evidence",
                            ),
                        }
                    },
                },
            },
        },
    }
}

/// Whether the completion cursor is in causal order.
#[verifier::opaque]
pub open spec fn progress(s: StateView, op: RecoveryRecord) -> Result<(), Error> {
    let first = if op.completion_preparation_attempt is Some {
        match rules::status_input(s, op) {
            Err(e) => Err(e),
            Ok(_) => Ok(()),
        }
    } else {
        Ok(())
    };
    match first {
        Err(e) => Err(e),
        Ok(()) => match preparation_progress(s, op) {
            Err(e) => Err(e),
            Ok(()) => match resolver_progress(s, op) {
                Err(e) => Err(e),
                Ok(()) => match terminal_progress(s, op) {
                    Err(e) => Err(e),
                    Ok(()) => complete_progress(s, op),
                },
            },
        },
    }
}

/// An inspected completion is the one that the permanent terminal committed.
#[verifier::opaque]
pub open spec fn inspected_terminal(s: StateView, op: RecoveryRecord, completion: CompletionFact) -> Result<
    (),
    Error,
> {
    if op.completion_terminal is None {
        Ok(())
    } else {
        match rules::terminal(s, op) {
            Err(e) => Err(e),
            Ok(fact) => if fact.terminal == CompletionTerminal::Committed(completion) {
                Ok(())
            } else {
                Err(
                    rules::no("positive completion inspection disagrees with its permanent terminal"),
                )
            },
        }
    }
}

/// What the original resolver was sent.
#[verifier::opaque]
pub open spec fn resolver_input(request: TargetRequest) -> Option<crate::model::ResolutionInput> {
    match request.step {
        TargetStep::ResolveComplete(input) => Some(input@),
        _ => None,
    }
}

/// Whether a terminal status came behind the resolver and tells of it.
#[verifier::opaque]
pub open spec fn observes_resolver(
    linked: PhaseRecord,
    first: PhaseRecord,
    request: TargetRequest,
    input: crate::model::ResolutionInput,
    signed: SignedTerminalStatus,
) -> bool {
    &&& linked.prepared_revision > first.prepared_revision
    &&& linked.resolved_revision == first.resolved_revision
    &&& signed.input.original_input == input
    &&& signed.input.original_intent.request.command_id == request.command_id
    &&& signed.input.original_dispatch_not_after_ms == request.not_after_ms
}

/// Whether a terminal status resolves the original resolver.
#[verifier::opaque]
pub open spec fn resolver_link(
    s: StateView,
    op: RecoveryRecord,
    first: PhaseRecord,
    status_phase: u128,
) -> Result<(), Error> {
    match rules::phase(s, op, status_phase) {
        Err(e) => Err(e),
        Ok(linked) => match rules::target_request(first) {
            Err(e) => Err(e),
            Ok((node, request)) => match resolver_input(request) {
                None => Err(rules::no("terminal observation original resolver differs")),
                Some(input) => match rules::native(linked.outcome) {
                    None => Err(rules::no("positive terminal observation absent")),
                    Some(response) => match rules::terminal_status_by(response.outcome) {
                        None => Err(rules::no("terminal observation kind differs")),
                        Some(signed) => if !observes_resolver(
                            linked,
                            first,
                            request,
                            input,
                            signed,
                        ) {
                            Err(
                                rules::no(
                                    "terminal observation changed original resolver or causal order",
                                ),
                            )
                        } else {
                            outcome(s, op, linked, response)
                        },
                    },
                },
            },
        },
    }
}

/// The resolver's phase row that a terminal status rewrites, if any.
#[verifier::opaque]
pub open spec fn resolved_resolver(s: StateView, op: RecoveryRecord, observed: u128) -> Result<
    Option<(u128, PhaseRecord)>,
    Error,
> {
    match op.completion_resolution_attempt {
        None => Err(rules::no("original resolver absent")),
        Some(id) => match rules::phase(s, op, id) {
            Err(e) => Err(e),
            Ok(first) => if first.outcome is Some {
                Ok(None)
            } else {
                let resolving = PhaseRecord { resolved_revision: Some(s.revision), ..first };
                match resolver_link(s, op, resolving, observed) {
                    Err(e) => Err(e),
                    Ok(()) => Ok(
                        Some(
                            (
                                id,
                                PhaseRecord {
                                    outcome: Some(
                                        DispatchOutcome::TerminalObserved { status_phase: observed },
                                    ),
                                    ..resolving
                                },
                            ),
                        ),
                    ),
                }
            },
        },
    }
}

// ---------------------------------------------------------------------
// Fresh inspection of the original completion
// ---------------------------------------------------------------------

#[verifier::opaque]
pub open spec fn inspection_input(s: StateView, op: RecoveryRecord) -> Result<InspectionInput, Error> {
    match rules::intent_of(s, op, op.completion_intent, "original completion intent absent") {
        Err(e) => Err(e),
        Ok(original_phase) => match rules::origin(s, op) {
            Err(e) => Err(e),
            Ok(o) => match rules::accepts_phase(o, original_phase, LifecyclePhase::Complete) {
                Err(e) => Err(e),
                Ok(()) => match rules::completion_input(s, op) {
                    Err(e) => Err(e),
                    Ok(input) => Ok(
                        InspectionInput {
                            quorum: input.quorum,
                            original_phase,
                            predecessor: input.predecessor,
                        },
                    ),
                },
            },
        },
    }
}

#[verifier::opaque]
pub open spec fn is_inspection(step: TargetStep) -> bool {
    match step {
        TargetStep::Start(ReplicaInput::Inspection(_)) => true,
        TargetStep::Inspect(_) => true,
        _ => false,
    }
}

/// The inspection input, once the current intent commits it.
#[verifier::opaque]
pub open spec fn committed_inspection(s: StateView, op: RecoveryRecord, current: LifecycleIntent) -> Result<
    InspectionInput,
    Error,
> {
    match inspection_input(s, op) {
        Err(e) => Err(e),
        Ok(input) => match rules::origin(s, op) {
            Err(e) => Err(e),
            Ok(o) => match rules::commits(
                o,
                current,
                LifecyclePhase::InspectTarget,
                encoding::labelled(INSPECTION, input),
            ) {
                Err(e) => Err(e),
                Ok(()) => Ok(input),
            },
        },
    }
}

#[verifier::opaque]
pub open spec fn inspection_step(
    s: StateView,
    op: RecoveryRecord,
    current: LifecycleIntent,
    node: u64,
    step: TargetStep,
    admission: bool,
) -> Result<(), Error> {
    match committed_inspection(s, op, current) {
        Err(e) => Err(e),
        Ok(input) => match step {
            TargetStep::Start(ReplicaInput::Inspection(actual)) => if actual@ != input {
                Err(rules::no("completion inspection input differs"))
            } else if !admission {
                Ok(())
            } else {
                match rules::started_for(s, op, node, current.request.command_id) {
                    Err(e) => Err(e),
                    Ok(true) => Err(rules::no("target already started under this exact inspection")),
                    Ok(false) => Ok(()),
                }
            },
            TargetStep::Inspect(actual) => if actual@ != input {
                Err(rules::no("completion inspection input differs"))
            } else if !admission {
                Ok(())
            } else {
                match rules::all_started(s, op, current.request.command_id) {
                    Err(e) => Err(e),
                    Ok(true) => Ok(()),
                    Ok(false) => Err(
                        rules::no("inspection requires every target started under its exact phase"),
                    ),
                }
            },
            _ => Err(rules::no("completion inspection input differs")),
        },
    }
}

/// An inspected completion was admitted before its dispatch ended.
#[verifier::opaque]
pub open spec fn within_original_cap(
    s: StateView,
    op: RecoveryRecord,
    input: InspectionInput,
    completion: CompletionFact,
) -> Result<(), Error> {
    match op.completion_attempt {
        None => Ok(()),
        Some(id) => match rules::phase(s, op, id) {
            Err(e) => Err(e),
            Ok(p) => match p.input {
                Dispatch::Target { node_id, request } => if request@.step !is Complete
                    || request@.command_id != input.original_phase.request.command_id
                    || completion.admitted_at_ms >= request@.not_after_ms {
                    Err(
                        rules::no("inspected completion exceeded its unchanged original dispatch cap"),
                    )
                } else {
                    Ok(())
                },
                _ => Err(rules::no("original completion dispatch differs")),
            },
        },
    }
}

#[verifier::opaque]
pub open spec fn inspection_proof(
    s: StateView,
    op: RecoveryRecord,
    current: LifecycleIntent,
    node: u64,
    signed: SignedInspection,
) -> Result<(), Error> {
    match inspection_input(s, op) {
        Err(e) => Err(e),
        Ok(input) => if signed.inspection_intent != current || signed.observer_node_id != node {
            Err(rules::no("completion inspection phase or observer differs"))
        } else if !signed.authentic || signed.input != input {
            Err(rules::no("completion inspection lacks its exact positive signature"))
        } else {
            match inspected_terminal(s, op, signed.completion) {
                Err(e) => Err(e),
                Ok(()) => within_original_cap(s, op, input, signed.completion),
            }
        },
    }
}

/// Whether a positive inspection resolves the original Complete dispatch.
#[verifier::opaque]
pub open spec fn completion_resolution(
    s: StateView,
    op: RecoveryRecord,
    first: PhaseRecord,
    inspection_phase: u128,
) -> Result<(), Error> {
    match rules::phase(s, op, inspection_phase) {
        Err(e) => Err(e),
        Ok(inspection) => match (first.input, inspection.input, inspection.outcome) {
            (
                Dispatch::Target { node_id: old_node, request: old },
                Dispatch::Target { node_id, request },
                Some(DispatchOutcome::Target(response)),
            ) => match rules::inspected_by(response@.outcome) {
                Some(signed) => if old@.step !is Complete || request@.step
                    !is Inspect || old@.command_id
                    != signed.input.original_phase.request.command_id
                    || signed.completion.admitted_at_ms >= old@.not_after_ms
                    || inspection.prepared_revision <= first.prepared_revision
                    || inspection.resolved_revision != first.resolved_revision
                    || response@.command_id != request@.command_id || response@.node_id != node_id {
                    Err(rules::no("resolved completion changed its original command or cap"))
                } else {
                    match rules::retained_intent(s, request@.command_id) {
                        None => Err(rules::no("completion inspection Control intent absent")),
                        Some(current) => inspection_proof(s, op, current, node_id, signed),
                    }
                },
                None => Err(rules::no("completion resolution lacks a retained positive inspection")),
            },
            _ => Err(rules::no("completion resolution phase references differ")),
        },
    }
}

/// The Complete dispatch's row that a positive inspection rewrites, if any.
#[verifier::opaque]
pub open spec fn resolved_original(s: StateView, op: RecoveryRecord, inspection_phase: u128) -> Result<
    Option<(u128, PhaseRecord)>,
    Error,
> {
    match op.completion_attempt {
        None => Ok(None),
        Some(id) => match rules::phase(s, op, id) {
            Err(e) => Err(e),
            Ok(first) => match first.outcome {
                Some(DispatchOutcome::CompletionTerminal { resolution_phase }) => Ok(None),
                Some(_) => Err(rules::no("original completion already has a permanent outcome")),
                None => {
                    let resolving = PhaseRecord { resolved_revision: Some(s.revision), ..first };
                    match completion_resolution(s, op, resolving, inspection_phase) {
                        Err(e) => Err(e),
                        Ok(()) => Ok(
                            Some(
                                (
                                    id,
                                    PhaseRecord {
                                        outcome: Some(
                                            DispatchOutcome::CompletionResolution {
                                                inspection_phase,
                                            },
                                        ),
                                        ..resolving
                                    },
                                ),
                            ),
                        ),
                    }
                },
            },
        },
    }
}

/// The first voter that has not started under the intent.
#[verifier::opaque]
pub open spec fn first_unstarted(s: StateView, op: RecoveryRecord, command: u128) -> Result<
    Option<u64>,
    Error,
> {
    match rules::started_for(s, op, op.voters.first.node_id, command) {
        Err(e) => Err(e),
        Ok(false) => Ok(Some(op.voters.first.node_id)),
        Ok(true) => match rules::started_for(s, op, op.voters.second.node_id, command) {
            Err(e) => Err(e),
            Ok(false) => Ok(Some(op.voters.second.node_id)),
            Ok(true) => match rules::started_for(s, op, op.voters.third.node_id, command) {
                Err(e) => Err(e),
                Ok(false) => Ok(Some(op.voters.third.node_id)),
                Ok(true) => Ok(None),
            },
        },
    }
}

#[verifier::opaque]
pub open spec fn next_inspection(
    s: StateView,
    op: RecoveryRecord,
    current: LifecycleIntent,
    now: u64,
    expires: u64,
) -> Result<Dispatch, Error> {
    match committed_inspection(s, op, current) {
        Err(e) => Err(e),
        Ok(input) => match first_unstarted(s, op, current.request.command_id) {
            Err(e) => Err(e),
            Ok(missing) => dispatched(
                op,
                current,
                match missing {
                    Some(node) => node,
                    None => op.voters.first.node_id,
                },
                match missing {
                    Some(_) => TargetStep::Start(ReplicaInput::Inspection(Held::of(input))),
                    None => TargetStep::Inspect(Held::of(input)),
                },
                now,
                expires,
                "inspection dispatch deadline overflow",
            ),
        },
    }
}

// ---------------------------------------------------------------------
// Quorum steps
// ---------------------------------------------------------------------

#[verifier::opaque]
pub open spec fn quorum_step(
    s: StateView,
    op: RecoveryRecord,
    current: LifecycleIntent,
    node: u64,
    step: TargetStep,
    kind: RecoveryPhase,
    admission: bool,
) -> Result<(), Error> {
    let complete = kind == RecoveryPhase::Complete;
    if kind != RecoveryPhase::Initialize && !complete {
        Err(rules::no("quorum recovery phase differs"))
    } else {
        match rules::origin(s, op) {
            Err(e) => Err(e),
            Ok(o) => match rules::accepts_phase(
                o,
                current,
                if complete {
                    LifecyclePhase::Complete
                } else {
                    LifecyclePhase::Initialize
                },
            ) {
                Err(e) => Err(e),
                Ok(()) => match rules::quorum_input(s, op) {
                    Err(e) => Err(e),
                    Ok(input) => match rules::completion_input(s, op) {
                        Err(e) => Err(e),
                        Ok(complete_input) => if current.request.phase_input_sha256 != (
                        if complete {
                            encoding::labelled(COMPLETION, complete_input)
                        } else {
                            encoding::labelled(QUORUM, input)
                        }) {
                            Err(rules::no("committed quorum input differs"))
                        } else if complete {
                            complete_quorum_step(s, op, current, node, step, complete_input, admission)
                        } else {
                            initial_quorum_step(s, op, current, node, step, input, admission)
                        },
                    },
                },
            },
        }
    }
}

pub open spec fn initial_quorum_step(
    s: StateView,
    op: RecoveryRecord,
    current: LifecycleIntent,
    node: u64,
    step: TargetStep,
    input: QuorumInput,
    admission: bool,
) -> Result<(), Error> {
    match step {
        TargetStep::Start(ReplicaInput::Quorum(actual)) => if actual@ != input {
            Err(rules::no("target quorum operation differs from committed input"))
        } else if !admission {
            Ok(())
        } else {
            match rules::started_for(s, op, node, current.request.command_id) {
                Err(e) => Err(e),
                Ok(true) => Err(rules::no("target already started under this exact Control phase")),
                Ok(false) => Ok(()),
            }
        },
        TargetStep::Initialize(actual) => if actual@ != input || op.voters.first.node_id != node {
            Err(rules::no("target quorum operation differs from committed input"))
        } else if !admission {
            Ok(())
        } else {
            match rules::all_started(s, op, current.request.command_id) {
                Err(e) => Err(e),
                Ok(true) => Ok(()),
                Ok(false) => Err(
                    rules::no("initialization requires every target started under this exact phase"),
                ),
            }
        },
        _ => Err(rules::no("target quorum operation differs from committed input")),
    }
}

pub open spec fn complete_quorum_step(
    s: StateView,
    op: RecoveryRecord,
    current: LifecycleIntent,
    node: u64,
    step: TargetStep,
    input: crate::model::CompletionInput,
    admission: bool,
) -> Result<(), Error> {
    match step {
        TargetStep::Start(ReplicaInput::Completion(actual)) => if actual@ != input {
            Err(rules::no("target quorum operation differs from committed input"))
        } else if !admission {
            Ok(())
        } else {
            match rules::started_for(s, op, node, current.request.command_id) {
                Err(e) => Err(e),
                Ok(true) => Err(rules::no("target already started under this exact Complete phase")),
                Ok(false) => Ok(()),
            }
        },
        TargetStep::Complete(actual) => if actual@ != input {
            Err(rules::no("target quorum operation differs from committed input"))
        } else {
            let observer = if admission {
                rules::require_initialized_mutation_observer(s, op, node)
            } else {
                Ok(())
            };
            match observer {
                Err(e) => Err(e),
                Ok(()) => match rules::preparation(s, op) {
                    Err(e) => Err(e),
                    Ok(_) => Ok(()),
                },
            }
        },
        _ => Err(rules::no("target quorum operation differs from committed input")),
    }
}

} // verus!
