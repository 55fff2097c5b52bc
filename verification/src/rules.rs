//! What the recovery journal's references, inputs and proofs are.
//!
//! Each function says what a lookup or a check gives on a state and an
//! operation: a value, or the first refusal.
use vstd::prelude::*;

use crate::digest::{Digest, Name};
use crate::encoding;
use crate::encoding::{COMPLETION, INTENT, ORIGIN};
use crate::errors;
use crate::errors::{Error, ErrorCode};
use crate::model::{
    AttemptStatusInput, CompletionAttempt, CompletionHistory, CompletionInput, CompletionScope,
    CompletionTerminal, Dispatch, DispatchOutcome, IntentRequest, LifecycleIntent, LifecyclePhase,
    MaterializationProof, Partition, PhaseRecord, QuorumInput, RecoveryPhase, RecoveryRecord,
    RecoveryStart, RecoveryTarget, ResolutionFact, ResolutionInput, ResolutionReference,
    ResumeOrigin, SignedActivation, SignedAttempt, SignedAttemptStatus, SignedCleanup,
    SignedCompletion, SignedInspection, SignedResolution, SignedTerminalStatus, TargetOrigin,
    TargetOutcome, TargetRequest, TargetResponse, TargetStep, TerminalStatusInput, Voter, Voters,
};
use crate::views::{RecoveryView, StateView};

verus! {

pub open spec fn no(message: &'static str) -> Error {
    errors::conflicting(message)
}

/// The state with one phase row put, or as it was.
pub open spec fn rewritten(s: StateView, change: Option<(u128, PhaseRecord)>) -> StateView {
    match change {
        None => s,
        Some((id, row)) => StateView {
            recovery: RecoveryView { phases: s.recovery.phases.insert(id, row), ..s.recovery },
            ..s
        },
    }
}

/// The state with a closed attempt archived, or as it was.
pub open spec fn archived(s: StateView, closed: Option<CompletionHistory>) -> StateView {
    match closed {
        None => s,
        Some(history) => StateView {
            recovery: RecoveryView {
                completion_history: s.recovery.completion_history.insert(
                    history.scope.intent,
                    history,
                ),
                ..s.recovery
            },
            ..s
        },
    }
}

pub open spec fn corrupt(message: &'static str) -> Error {
    errors::refusal(ErrorCode::Corruption, message)
}

pub open spec fn required(id: Option<u128>, message: &'static str) -> Result<u128, Error> {
    match id {
        Some(id) => Ok(id),
        None => Err(no(message)),
    }
}

// ---------------------------------------------------------------------
// References
// ---------------------------------------------------------------------

/// The operation's phase of the given identity.
#[verifier::opaque]
pub open spec fn phase(s: StateView, op: RecoveryRecord, id: u128) -> Result<PhaseRecord, Error> {
    match s.recovery.phases.get(id) {
        Some(p) => if p.operation_id == op.request.operation_id {
            Ok(p)
        } else {
            Err(corrupt("recovery phase reference missing"))
        },
        None => Err(corrupt("recovery phase reference missing")),
    }
}

/// The intent that the operation's phase `id` committed.
#[verifier::opaque]
pub open spec fn intent(s: StateView, op: RecoveryRecord, id: u128) -> Result<LifecycleIntent, Error> {
    match phase(s, op, id) {
        Err(e) => Err(e),
        Ok(p) => match p.outcome {
            Some(DispatchOutcome::ControlIntent(value)) => Ok(value@),
            _ => Err(corrupt("recovery intent reference is not a committed intent")),
        },
    }
}

/// The intent of a reference that may be absent.
#[verifier::opaque]
pub open spec fn intent_of(
    s: StateView,
    op: RecoveryRecord,
    id: Option<u128>,
    message: &'static str,
) -> Result<LifecycleIntent, Error> {
    match id {
        None => Err(no(message)),
        Some(id) => intent(s, op, id),
    }
}

/// The phase of a reference that may be absent.
#[verifier::opaque]
pub open spec fn phase_of(
    s: StateView,
    op: RecoveryRecord,
    id: Option<u128>,
    message: &'static str,
) -> Result<PhaseRecord, Error> {
    match id {
        None => Err(no(message)),
        Some(id) => phase(s, op, id),
    }
}

/// The first partition of that name, from the `i`th on.
pub open spec fn partition_named(parts: Seq<Partition>, name: Name, i: int) -> Option<Partition>
    decreases parts.len() - i,
{
    if i < 0 || i >= parts.len() {
        None
    } else if parts[i].name == name {
        Some(parts[i])
    } else {
        partition_named(parts, name, i + 1)
    }
}

/// The issuer partition that the operation was started under.
#[verifier::opaque]
pub open spec fn partition(s: StateView, op: RecoveryRecord) -> Result<Partition, Error> {
    match s.lifecycle {
        None => Err(no("recovery issuer installation absent")),
        Some(control) => match partition_named(
            control.installation.partitions,
            op.request.authority_partition,
            0,
        ) {
            None => Err(no("recovery issuer installation absent")),
            Some(p) => Ok(p),
        },
    }
}

/// The intent that Control retains under a command's identity.
#[verifier::opaque]
pub open spec fn retained_intent(s: StateView, command: u128) -> Option<LifecycleIntent> {
    match s.lifecycle {
        None => None,
        Some(control) => control.intents.get(command),
    }
}

/// The origin of the operation's target.
#[verifier::opaque]
pub open spec fn origin(s: StateView, op: RecoveryRecord) -> Result<TargetOrigin, Error> {
    match intent_of(s, op, op.materialization_intent, "original materialization intent absent") {
        Err(e) => Err(e),
        Ok(original) => match partition(s, op) {
            Err(e) => Err(e),
            Ok(p) => Ok(
                TargetOrigin {
                    authority_manifest_sha256: p.manifest_sha256,
                    materialization: original,
                    input: op.request.materialization,
                },
            ),
        },
    }
}

#[verifier::opaque]
pub open spec fn voter(voters: Voters, node: u64) -> Option<Voter> {
    if voters.first.node_id == node {
        Some(voters.first)
    } else if voters.second.node_id == node {
        Some(voters.second)
    } else if voters.third.node_id == node {
        Some(voters.third)
    } else {
        None
    }
}

/// When the phase's dispatch ends: its timeout, or its credential if sooner.
#[verifier::opaque]
pub open spec fn dispatch_limit(op: RecoveryRecord, p: PhaseRecord) -> Result<u64, Error> {
    deadline(p.admitted_at_ms, op, p.original_credential_expires_at_ms, "recovery phase deadline overflow")
}

pub open spec fn deadline(
    now: u64,
    op: RecoveryRecord,
    expires: u64,
    message: &'static str,
) -> Result<u64, Error> {
    if now + op.request.phase_timeout_ms > u64::MAX {
        Err(no(message))
    } else if now + op.request.phase_timeout_ms < expires {
        Ok((now + op.request.phase_timeout_ms) as u64)
    } else {
        Ok(expires)
    }
}

#[verifier::opaque]
pub open spec fn target(request: RecoveryStart) -> RecoveryTarget {
    RecoveryTarget {
        incarnation: request.target_incarnation,
        checkpoint: request.checkpoint,
        nodes: request.target_nodes,
    }
}

// ---------------------------------------------------------------------
// What a response holds
// ---------------------------------------------------------------------

/// The native response that a phase's outcome holds, if it is one.
#[verifier::opaque]
pub open spec fn native(outcome: Option<DispatchOutcome>) -> Option<TargetResponse> {
    match outcome {
        Some(DispatchOutcome::Target(response)) => Some(response@),
        _ => None,
    }
}

#[verifier::opaque]
pub open spec fn started_by(outcome: TargetOutcome) -> Option<Digest> {
    match outcome {
        TargetOutcome::Started { origin_sha256 } => Some(origin_sha256),
        _ => None,
    }
}

#[verifier::opaque]
pub open spec fn initialized_by(outcome: TargetOutcome) -> Option<Digest> {
    match outcome {
        TargetOutcome::Initialized { origin_sha256 } => Some(origin_sha256),
        _ => None,
    }
}

#[verifier::opaque]
pub open spec fn materialized_by(outcome: TargetOutcome) -> Option<MaterializationProof> {
    match outcome {
        TargetOutcome::Materialized(signed) => Some(signed),
        _ => None,
    }
}

#[verifier::opaque]
pub open spec fn prepared_by(outcome: TargetOutcome) -> Option<SignedAttempt> {
    match outcome {
        TargetOutcome::PreparedCompletion(signed) => Some(signed@),
        _ => None,
    }
}

#[verifier::opaque]
pub open spec fn attempt_status_by(outcome: TargetOutcome) -> Option<SignedAttemptStatus> {
    match outcome {
        TargetOutcome::CompletionAttemptStatus(signed) => Some(signed@),
        _ => None,
    }
}

#[verifier::opaque]
pub open spec fn resolved_by(outcome: TargetOutcome) -> Option<SignedResolution> {
    match outcome {
        TargetOutcome::ResolvedCompletion(signed) => Some(signed@),
        _ => None,
    }
}

#[verifier::opaque]
pub open spec fn terminal_status_by(outcome: TargetOutcome) -> Option<SignedTerminalStatus> {
    match outcome {
        TargetOutcome::CompletionTerminalStatus(signed) => Some(signed@),
        _ => None,
    }
}

#[verifier::opaque]
pub open spec fn completed_by(outcome: TargetOutcome) -> Option<SignedCompletion> {
    match outcome {
        TargetOutcome::Completed(signed) => Some(signed@),
        _ => None,
    }
}

#[verifier::opaque]
pub open spec fn inspected_by(outcome: TargetOutcome) -> Option<SignedInspection> {
    match outcome {
        TargetOutcome::Inspected(signed) => Some(signed@),
        _ => None,
    }
}

#[verifier::opaque]
pub open spec fn activated_by(outcome: TargetOutcome) -> Option<SignedActivation> {
    match outcome {
        TargetOutcome::Activated(signed) => Some(signed@),
        _ => None,
    }
}

#[verifier::opaque]
pub open spec fn stopped_by(outcome: TargetOutcome) -> Option<SignedCleanup> {
    match outcome {
        TargetOutcome::Stopped(signed) => Some(signed@),
        _ => None,
    }
}

// ---------------------------------------------------------------------
// What an intent commits to
// ---------------------------------------------------------------------

#[verifier::opaque]
pub open spec fn origin_sha256(o: TargetOrigin) -> Digest {
    encoding::labelled(ORIGIN, o)
}

#[verifier::opaque]
pub open spec fn summary(o: TargetOrigin) -> ResumeOrigin {
    ResumeOrigin {
        command_id: o.materialization.request.command_id,
        revision: o.materialization.revision,
        intent_sha256: encoding::labelled(INTENT, o.materialization),
        authority_manifest_sha256: o.authority_manifest_sha256,
        input_sha256: o.input.sha256,
    }
}

/// Whether two requests speak of the same frozen source and target.
#[verifier::opaque]
pub open spec fn same_resource(a: IntentRequest, b: IntentRequest) -> bool {
    &&& a.installation_sha256 == b.installation_sha256
    &&& a.authority_partition == b.authority_partition
    &&& a.tenant == b.tenant
    &&& a.source_incarnation == b.source_incarnation
    &&& a.source_authority_epoch == b.source_authority_epoch
    &&& a.target_incarnation == b.target_incarnation
    &&& a.checkpoint == b.checkpoint
    &&& a.target_nodes == b.target_nodes
}

/// Whether `current` was committed for `phase` of the origin's own target.
#[verifier::opaque]
pub open spec fn accepts(o: TargetOrigin, current: LifecycleIntent, phase: LifecyclePhase) -> bool {
    &&& current.request.phase == phase
    &&& current.control_incarnation == o.materialization.control_incarnation
    &&& same_resource(o.materialization.request, current.request)
}

#[verifier::opaque]
pub open spec fn accepts_phase(
    o: TargetOrigin,
    current: LifecycleIntent,
    phase: LifecyclePhase,
) -> Result<(), Error> {
    if accepts(o, current, phase) {
        Ok(())
    } else {
        Err(no("Control intent differs from the target's original resource or phase"))
    }
}

/// Whether `current` commits the given input of its phase.
#[verifier::opaque]
pub open spec fn commits(
    o: TargetOrigin,
    current: LifecycleIntent,
    phase: LifecyclePhase,
    input: Digest,
) -> Result<(), Error> {
    match accepts_phase(o, current, phase) {
        Err(e) => Err(e),
        Ok(()) => if current.request.phase_input_sha256 == input {
            Ok(())
        } else {
            Err(no("Control intent commits another phase input"))
        },
    }
}

/// The retained Complete identity commits the whole canonical input, with its
/// predecessor. A digest over the quorum alone does not.
#[verifier::opaque]
pub open spec fn validate_original_intent(
    o: TargetOrigin,
    expected: CompletionInput,
    original: LifecycleIntent,
) -> Result<(), Error> {
    if accepts(o, original, LifecyclePhase::Complete) && original.request.phase_input_sha256
        == encoding::labelled(COMPLETION, expected) && expected.quorum.origin_sha256
        == origin_sha256(o) {
        Ok(())
    } else {
        Err(no("original completion identity input differs"))
    }
}

// ---------------------------------------------------------------------
// The materialized quorum
// ---------------------------------------------------------------------

#[verifier::opaque]
pub open spec fn materialization_holds(
    o: TargetOrigin,
    node: u64,
    proof: MaterializationProof,
) -> bool {
    proof.authentic && proof.node_id == node && proof.origin_sha256 == origin_sha256(o)
}

/// Whether three proofs are the voters' own and speak of one image.
#[verifier::opaque]
pub open spec fn materializations_agree(
    o: TargetOrigin,
    voters: Voters,
    first: MaterializationProof,
    second: MaterializationProof,
    third: MaterializationProof,
) -> bool {
    &&& materialization_holds(o, voters.first.node_id, first)
    &&& materialization_holds(o, voters.second.node_id, second)
    &&& materialization_holds(o, voters.third.node_id, third)
    &&& first.image_sha256 == second.image_sha256
    &&& first.image_sha256 == third.image_sha256
}

/// A voter's retained materialization proof.
#[verifier::opaque]
pub open spec fn materialized(s: StateView, op: RecoveryRecord, v: Voter) -> Result<
    MaterializationProof,
    Error,
> {
    match phase_of(s, op, v.materialization, "target materialization quorum incomplete") {
        Err(e) => Err(e),
        Ok(p) => match p.outcome {
            Some(DispatchOutcome::Target(response)) => match materialized_by(response@.outcome) {
                Some(proof) => Ok(proof),
                None => Err(no("target materialization proof differs")),
            },
            _ => Err(no("target materialization proof absent")),
        },
    }
}

#[verifier::opaque]
pub open spec fn quorum_input(s: StateView, op: RecoveryRecord) -> Result<QuorumInput, Error> {
    match origin(s, op) {
        Err(e) => Err(e),
        Ok(o) => match materialized(s, op, op.voters.first) {
            Err(e) => Err(e),
            Ok(first) => match materialized(s, op, op.voters.second) {
                Err(e) => Err(e),
                Ok(second) => match materialized(s, op, op.voters.third) {
                    Err(e) => Err(e),
                    Ok(third) => if materializations_agree(o, op.voters, first, second, third) {
                        Ok(QuorumInput { origin_sha256: origin_sha256(o), first, second, third })
                    } else {
                        Err(no("materialized target quorum differs"))
                    },
                },
            },
        },
    }
}

// ---------------------------------------------------------------------
// Startup and destinations
// ---------------------------------------------------------------------

/// Whether the node has acknowledged a start under the given intent.
#[verifier::opaque]
pub open spec fn started_for(s: StateView, op: RecoveryRecord, node: u64, command: u128) -> Result<
    bool,
    Error,
> {
    match voter(op.voters, node) {
        None => Ok(false),
        Some(v) => match v.started {
            None => Ok(false),
            Some(id) => match phase(s, op, id) {
                Err(e) => Err(e),
                Ok(p) => Ok(
                    match (p.input, p.outcome) {
                        (
                            Dispatch::Target { node_id, request },
                            Some(DispatchOutcome::Target(response)),
                        ) => node_id == node && request@.command_id == command && response@.node_id
                            == node && response@.outcome is Started,
                        _ => false,
                    },
                ),
            },
        },
    }
}

#[verifier::opaque]
pub open spec fn all_started(s: StateView, op: RecoveryRecord, command: u128) -> Result<bool, Error> {
    match started_for(s, op, op.voters.first.node_id, command) {
        Err(e) => Err(e),
        Ok(false) => Ok(false),
        Ok(true) => match started_for(s, op, op.voters.second.node_id, command) {
            Err(e) => Err(e),
            Ok(false) => Ok(false),
            Ok(true) => started_for(s, op, op.voters.third.node_id, command),
        },
    }
}

/// Whether the step starts a replica that was initialized before.
#[verifier::opaque]
pub open spec fn established_start(step: TargetStep) -> bool {
    match step {
        TargetStep::Start(input) => input !is Quorum,
        _ => false,
    }
}

/// Whether the step acts on a replica that was initialized before.
#[verifier::opaque]
pub open spec fn established_effect(step: TargetStep) -> bool {
    ||| step is PrepareComplete
    ||| step is Complete
    ||| step is InspectCompletionAttempt
    ||| step is InspectCompletionResolution
    ||| step is ResolveComplete
    ||| step is Inspect
}

/// Whether `input` sends the pending request on, unchanged and in time, to
/// another voter.
#[verifier::opaque]
pub open spec fn completion_route_retry(pending: PhaseRecord, input: Dispatch, now: u64) -> bool {
    match (pending.input, input) {
        (
            Dispatch::Target { node_id: old, request: original },
            Dispatch::Target { node_id: new, request: next },
        ) => {
            &&& pending.phase == RecoveryPhase::Complete || pending.phase == RecoveryPhase::Confirm
            &&& old != new
            &&& original == next
            &&& now < original@.not_after_ms
            &&& {
                ||| established_effect(original@.step)
                ||| pending.phase == RecoveryPhase::Complete && established_start(original@.step)
                ||| original@.step is Activate
            }
        },
        _ => false,
    }
}

/// The initialized membership is retained and is still the materialized one.
#[verifier::opaque]
pub open spec fn established(s: StateView, op: RecoveryRecord) -> Result<(), Error> {
    match phase_of(s, op, op.initialization, "established target initialization is absent") {
        Err(e) => Err(e),
        Ok(p) => match (p.input, p.outcome) {
            (
                Dispatch::Target { node_id, request },
                Some(DispatchOutcome::Target(response)),
            ) => match (request@.step, response@.outcome) {
                (
                    TargetStep::Initialize(input),
                    TargetOutcome::Initialized { origin_sha256 },
                ) => if p.phase != RecoveryPhase::Initialize {
                    Err(no("established target membership changed"))
                } else {
                    match quorum_input(s, op) {
                        Err(e) => Err(e),
                        Ok(quorum) => if input@ != quorum || origin_sha256 != input@.origin_sha256 {
                            Err(no("established target membership changed"))
                        } else {
                            Ok(())
                        },
                    }
                },
                _ => Err(no("established target initialization outcome differs")),
            },
            _ => Err(no("established target initialization evidence differs")),
        },
    }
}

#[verifier::opaque]
pub open spec fn startup_attempted(s: StateView, op: RecoveryRecord, v: Voter, command: u128) -> Result<
    bool,
    Error,
> {
    match v.start_attempt {
        None => Ok(false),
        Some(id) => match phase(s, op, id) {
            Err(e) => Err(e),
            Ok(p) => Ok(
                match p.input {
                    Dispatch::Target { node_id, request } => node_id == v.node_id
                        && request@.command_id == command && established_start(request@.step),
                    _ => false,
                },
            ),
        },
    }
}

/// The nodes that were started under the given intent, in their order.
#[verifier::opaque]
pub open spec fn ready_nodes(s: StateView, op: RecoveryRecord, command: u128) -> Result<Seq<u64>, Error> {
    match established(s, op) {
        Err(e) => Err(e),
        Ok(()) => match started_for(s, op, op.voters.first.node_id, command) {
            Err(e) => Err(e),
            Ok(a) => match started_for(s, op, op.voters.second.node_id, command) {
                Err(e) => Err(e),
                Ok(b) => match started_for(s, op, op.voters.third.node_id, command) {
                    Err(e) => Err(e),
                    Ok(c) => Ok(
                        listed(a, op.voters.first.node_id) + listed(b, op.voters.second.node_id)
                            + listed(c, op.voters.third.node_id),
                    ),
                },
            },
        },
    }
}

pub open spec fn listed(ready: bool, node: u64) -> Seq<u64> {
    if ready {
        seq![node]
    } else {
        Seq::empty()
    }
}

/// The node that the last phase was sent to, if it was sent to one.
pub open spec fn last_destination(s: StateView, op: RecoveryRecord) -> Result<Option<u64>, Error> {
    match op.last_phase {
        None => Ok(None),
        Some(id) => match phase(s, op, id) {
            Err(e) => Err(e),
            Ok(p) => Ok(
                match p.input {
                    Dispatch::Target { node_id, request } => Some(node_id),
                    _ => None,
                },
            ),
        },
    }
}

/// The first voter that satisfies its flag.
#[verifier::opaque]
pub open spec fn first_of(voters: Voters, a: bool, b: bool, c: bool) -> Option<u64> {
    if a {
        Some(voters.first.node_id)
    } else if b {
        Some(voters.second.node_id)
    } else if c {
        Some(voters.third.node_id)
    } else {
        None
    }
}

pub open spec fn behind(after: Option<u64>, node: u64) -> bool {
    match after {
        None => true,
        Some(after) => node > after,
    }
}

/// Where to go next: a majority's first node to act, or a node to start.
#[verifier::opaque]
pub open spec fn established_destination(s: StateView, op: RecoveryRecord, command: u128) -> Result<
    (u64, bool),
    Error,
> {
    match ready_nodes(s, op, command) {
        Err(e) => Err(e),
        Ok(ready) => if ready.len() > 1 {
            Ok((ready[0], false))
        } else {
            match idle(s, op, op.voters.first, ready, command) {
                Err(e) => Err(e),
                Ok(true) => Ok((op.voters.first.node_id, true)),
                Ok(false) => match idle(s, op, op.voters.second, ready, command) {
                    Err(e) => Err(e),
                    Ok(true) => Ok((op.voters.second.node_id, true)),
                    Ok(false) => match idle(s, op, op.voters.third, ready, command) {
                        Err(e) => Err(e),
                        Ok(true) => Ok((op.voters.third.node_id, true)),
                        Ok(false) => match last_destination(s, op) {
                            Err(e) => Err(e),
                            Ok(after) => match restart_candidate(op.voters, ready, after) {
                                Some(node) => Ok((node, true)),
                                None => Err(no("established target startup candidates absent")),
                            },
                        },
                    },
                },
            }
        },
    }
}

/// Whether the voter is neither started nor being started.
#[verifier::opaque]
pub open spec fn idle(
    s: StateView,
    op: RecoveryRecord,
    v: Voter,
    ready: Seq<u64>,
    command: u128,
) -> Result<bool, Error> {
    if ready.contains(v.node_id) {
        Ok(false)
    } else {
        match startup_attempted(s, op, v, command) {
            Err(e) => Err(e),
            Ok(attempted) => Ok(!attempted),
        }
    }
}

/// The next voter behind `after` that is not ready, or else the first such.
#[verifier::opaque]
pub open spec fn restart_candidate(voters: Voters, ready: Seq<u64>, after: Option<u64>) -> Option<
    u64,
> {
    let a = !ready.contains(voters.first.node_id);
    let b = !ready.contains(voters.second.node_id);
    let c = !ready.contains(voters.third.node_id);
    match first_of(
        voters,
        a && behind(after, voters.first.node_id),
        b && behind(after, voters.second.node_id),
        c && behind(after, voters.third.node_id),
    ) {
        Some(node) => Some(node),
        None => first_of(voters, a, b, c),
    }
}

#[verifier::opaque]
pub open spec fn require_eligible_observer(
    s: StateView,
    op: RecoveryRecord,
    command: u128,
    node: u64,
) -> Result<(), Error> {
    match ready_nodes(s, op, command) {
        Err(e) => Err(e),
        Ok(ready) => if ready.contains(node) {
            Ok(())
        } else {
            Err(no("target observer has no exact current startup acknowledgment"))
        },
    }
}

#[verifier::opaque]
pub open spec fn require_initialized_mutation_observer(
    s: StateView,
    op: RecoveryRecord,
    node: u64,
) -> Result<(), Error> {
    match established(s, op) {
        Err(e) => Err(e),
        Ok(()) => match voter(op.voters, node) {
            Some(v) => if v.materialization is Some {
                Ok(())
            } else {
                Err(no("target mutation observer lacks original materialization"))
            },
            None => Err(no("target mutation observer lacks original materialization")),
        },
    }
}

/// The first of `nodes` behind `old`, or else their first; `old` itself is none.
#[verifier::opaque]
pub open spec fn other_than(nodes: Seq<u64>, old: u64) -> Option<u64> {
    let found = if nodes.len() > 0 && nodes[0] > old {
        Some(nodes[0])
    } else if nodes.len() > 1 && nodes[1] > old {
        Some(nodes[1])
    } else if nodes.len() > 2 && nodes[2] > old {
        Some(nodes[2])
    } else if nodes.len() > 0 {
        Some(nodes[0])
    } else {
        None
    };
    match found {
        Some(node) => if node != old {
            Some(node)
        } else {
            None
        },
        None => None,
    }
}

pub open spec fn voter_ids(voters: Voters) -> Seq<u64> {
    seq![voters.first.node_id, voters.second.node_id, voters.third.node_id]
}

/// The voter to which a pending step may be sent on.
#[verifier::opaque]
pub open spec fn retry_destination(
    s: StateView,
    op: RecoveryRecord,
    command: u128,
    old: u64,
    step: TargetStep,
) -> Result<u64, Error> {
    if established_start(step) {
        match established_destination(s, op, command) {
            Err(e) => Err(e),
            Ok((candidate, startup)) => if !startup || candidate == old {
                Err(no("another pending startup route is unavailable"))
            } else {
                Ok(candidate)
            },
        }
    } else if step is PrepareComplete || step is Complete {
        match established(s, op) {
            Err(e) => Err(e),
            Ok(()) => match other_than(voter_ids(op.voters), old) {
                Some(node) => Ok(node),
                None => Err(no("another initialized target voter is unavailable")),
            },
        }
    } else {
        match ready_nodes(s, op, command) {
            Err(e) => Err(e),
            Ok(ready) => match other_than(ready, old) {
                Some(node) => Ok(node),
                None => Err(no("another eligible target observer is unavailable")),
            },
        }
    }
}

// ---------------------------------------------------------------------
// Completion attempts
// ---------------------------------------------------------------------

/// The operation's current completion attempt.
#[verifier::opaque]
pub open spec fn scope(op: RecoveryRecord) -> Option<CompletionScope> {
    match op.completion_intent {
        None => None,
        Some(intent) => Some(CompletionScope { intent, predecessor: op.completion_predecessor }),
    }
}

/// A sealed attempt as a later attempt refers to it.
#[verifier::opaque]
pub open spec fn sealed_reference(fact: ResolutionFact) -> Result<ResolutionReference, Error> {
    match fact.terminal {
        CompletionTerminal::Sealed => Ok(
            ResolutionReference {
                origin_sha256: origin_sha256(fact.input.attempt.origin),
                control_incarnation: fact.resolution_intent.control_incarnation,
                original_command_id: fact.input.attempt.intent.request.command_id,
                resolution_command_id: fact.resolution_intent.request.command_id,
                resolution_control_revision: fact.resolution_intent.revision,
                fact_sha256: fact.sha256,
            },
        ),
        CompletionTerminal::Committed(_) => Err(no("completion was committed, not sealed")),
    }
}

#[verifier::opaque]
pub open spec fn terminal_response(response: TargetResponse) -> Result<ResolutionFact, Error> {
    match response.outcome {
        TargetOutcome::ResolvedCompletion(signed) => Ok(signed@.fact),
        TargetOutcome::CompletionTerminalStatus(signed) => Ok(signed@.fact),
        _ => Err(no("terminal evidence response kind differs")),
    }
}

/// The sealed fact that the phase `id` retains for its own attempt.
#[verifier::opaque]
pub open spec fn sealed_fact(s: StateView, op: RecoveryRecord, id: u128) -> Result<
    ResolutionFact,
    Error,
> {
    match phase(s, op, id) {
        Err(e) => Err(e),
        Ok(p) => match p.outcome {
            Some(DispatchOutcome::Target(response)) => match terminal_response(response@) {
                Err(e) => Err(e),
                Ok(fact) => match p.completion_scope {
                    None => Err(no("completion predecessor lacks its exact attempt scope")),
                    Some(selected) => if p.phase != RecoveryPhase::Complete
                        || p.resolved_revision is None {
                        Err(no("completion predecessor changed target, scope or durable identity"))
                    } else {
                        match origin(s, op) {
                            Err(e) => Err(e),
                            Ok(o) => if fact.input.attempt.origin != o
                                || fact.input.attempt.intent.request.command_id
                                != selected.intent {
                                Err(
                                    no(
                                        "completion predecessor changed target, scope or durable identity",
                                    ),
                                )
                            } else {
                                match sealed_reference(fact) {
                                    Err(e) => Err(e),
                                    Ok(_) => Ok(fact),
                                }
                            },
                        }
                    },
                },
            },
            _ => Err(no("completion predecessor lacks a positive native outcome")),
        },
    }
}

/// Whether `id` ended the operation's current attempt of that scope.
pub open spec fn ends_current(s: StateView, op: RecoveryRecord, selected: CompletionScope, id: u128) -> bool {
    match s.recovery.operations.get(op.request.operation_id) {
        None => false,
        Some(head) => scope(head) == Some(selected) && head.completion_terminal == Some(id),
    }
}

/// Whether `id` ended a closed attempt of that scope.
pub open spec fn ends_closed(s: StateView, op: RecoveryRecord, selected: CompletionScope, id: u128) -> bool {
    match s.recovery.completion_history.get(selected.intent) {
        None => false,
        Some(history) => history.operation_id == op.request.operation_id && history.scope
            == selected && history.terminal == id,
    }
}

/// The sealed attempt that the operation's attempt follows, if it follows one.
#[verifier::opaque]
pub open spec fn predecessor(s: StateView, op: RecoveryRecord) -> Result<
    Option<ResolutionReference>,
    Error,
> {
    match op.completion_predecessor {
        None => Ok(None),
        Some(id) => match phase(s, op, id) {
            Err(e) => Err(e),
            Ok(p) => match p.completion_scope {
                None => Err(no("completion predecessor scope absent")),
                Some(selected) => if (!ends_current(s, op, selected, id) && !ends_closed(
                    s,
                    op,
                    selected,
                    id,
                )) || op.completion_intent == Some(selected.intent) {
                    Err(no("completion predecessor is not the exact closed original cursor"))
                } else {
                    match sealed_fact(s, op, id) {
                        Err(e) => Err(e),
                        Ok(fact) => match sealed_reference(fact) {
                            Err(e) => Err(e),
                            Ok(reference) => Ok(Some(reference)),
                        },
                    }
                },
            },
        },
    }
}

/// The canonical input of the operation's current attempt.
#[verifier::opaque]
pub open spec fn completion_input(s: StateView, op: RecoveryRecord) -> Result<CompletionInput, Error> {
    match quorum_input(s, op) {
        Err(e) => Err(e),
        Ok(quorum) => match predecessor(s, op) {
            Err(e) => Err(e),
            Ok(predecessor) => Ok(CompletionInput { quorum, predecessor }),
        },
    }
}

/// The request of a target dispatch of the Complete phase.
#[verifier::opaque]
pub open spec fn target_request(p: PhaseRecord) -> Result<(u64, TargetRequest), Error> {
    match p.input {
        Dispatch::Target { node_id, request } => if p.phase != RecoveryPhase::Complete {
            Err(no("completion receiver reference has another phase"))
        } else {
            Ok((node_id, request@))
        },
        _ => Err(no("completion receiver reference is not a target dispatch")),
    }
}

/// The original preparation dispatch.
#[verifier::opaque]
pub open spec fn original(s: StateView, op: RecoveryRecord) -> Result<PhaseRecord, Error> {
    phase_of(
        s,
        op,
        op.completion_preparation_attempt,
        "original preparation dispatch is not retained",
    )
}

/// What a status of the original preparation asks for.
#[verifier::opaque]
pub open spec fn status_input(s: StateView, op: RecoveryRecord) -> Result<AttemptStatusInput, Error> {
    match original(s, op) {
        Err(e) => Err(e),
        Ok(p) => match target_request(p) {
            Err(e) => Err(e),
            Ok((node, request)) => match request.step {
                TargetStep::PrepareComplete(input) => match intent_of(
                    s,
                    op,
                    op.completion_intent,
                    "original Complete identity absent",
                ) {
                    Err(e) => Err(e),
                    Ok(original_intent) => if request.command_id
                        != original_intent.request.command_id {
                        Err(no("original preparation input differs"))
                    } else {
                        match completion_input(s, op) {
                            Err(e) => Err(e),
                            Ok(expected) => if input@ != expected {
                                Err(no("original preparation input differs"))
                            } else {
                                Ok(
                                    AttemptStatusInput {
                                        original_intent,
                                        original_input: input@,
                                        original_dispatch_not_after_ms: request.not_after_ms,
                                    },
                                )
                            },
                        }
                    },
                },
                _ => Err(no("original preparation step differs")),
            },
        },
    }
}

/// Whether the attempt is the one that the status asks for.
#[verifier::opaque]
pub open spec fn matches_attempt(input: AttemptStatusInput, attempt: CompletionAttempt) -> bool {
    &&& attempt.intent == input.original_intent
    &&& attempt.input == input.original_input
    &&& attempt.dispatch_not_after_ms == input.original_dispatch_not_after_ms
}

/// The prepared attempt that positive evidence retains.
#[verifier::opaque]
pub open spec fn preparation(s: StateView, op: RecoveryRecord) -> Result<CompletionAttempt, Error> {
    match phase_of(s, op, op.completion_preparation, "positive preparation evidence absent") {
        Err(e) => Err(e),
        Ok(p) => match p.outcome {
            Some(DispatchOutcome::Target(response)) => match prepared_attempt(response@) {
                None => Err(no("preparation evidence kind differs")),
                Some(attempt) => match status_input(s, op) {
                    Err(e) => Err(e),
                    Ok(expected) => if matches_attempt(expected, attempt) {
                        Ok(attempt)
                    } else {
                        Err(no("preparation evidence is of another original dispatch"))
                    },
                },
            },
            _ => Err(no("preparation evidence is not a native outcome")),
        },
    }
}

#[verifier::opaque]
pub open spec fn prepared_attempt(response: TargetResponse) -> Option<CompletionAttempt> {
    match response.outcome {
        TargetOutcome::PreparedCompletion(signed) => Some(signed@.attempt),
        TargetOutcome::CompletionAttemptStatus(signed) => Some(signed@.attempt),
        _ => None,
    }
}

#[verifier::opaque]
pub open spec fn resolution_input(s: StateView, op: RecoveryRecord) -> Result<ResolutionInput, Error> {
    match preparation(s, op) {
        Err(e) => Err(e),
        Ok(attempt) => Ok(ResolutionInput { attempt }),
    }
}

/// What a status of the original resolver asks for.
#[verifier::opaque]
pub open spec fn terminal_status_input(s: StateView, op: RecoveryRecord) -> Result<
    TerminalStatusInput,
    Error,
> {
    match phase_of(s, op, op.completion_resolution_attempt, "original resolver dispatch absent") {
        Err(e) => Err(e),
        Ok(p) => match target_request(p) {
            Err(e) => Err(e),
            Ok((node, request)) => match request.step {
                TargetStep::ResolveComplete(input) => match resolution_input(s, op) {
                    Err(e) => Err(e),
                    Ok(expected) => if input@ != expected {
                        Err(no("original resolver input differs"))
                    } else {
                        match retained_intent(s, request.command_id) {
                            None => Err(no("original resolver Control identity absent")),
                            Some(original_intent) => Ok(
                                TerminalStatusInput {
                                    original_intent,
                                    original_input: input@,
                                    original_dispatch_not_after_ms: request.not_after_ms,
                                },
                            ),
                        }
                    },
                },
                _ => Err(no("original resolver step differs")),
            },
        },
    }
}

/// How the prepared attempt ended, as positive evidence retains it.
#[verifier::opaque]
pub open spec fn terminal(s: StateView, op: RecoveryRecord) -> Result<ResolutionFact, Error> {
    match phase_of(s, op, op.completion_terminal, "terminal completion evidence absent") {
        Err(e) => Err(e),
        Ok(p) => match p.outcome {
            Some(DispatchOutcome::Target(response)) => match terminal_response(response@) {
                Err(e) => Err(e),
                Ok(fact) => match resolution_input(s, op) {
                    Err(e) => Err(e),
                    Ok(expected) => if fact.input != expected {
                        Err(no("terminal completion changed the prepared attempt"))
                    } else {
                        Ok(fact)
                    },
                },
            },
            _ => Err(no("terminal completion evidence is not a native outcome")),
        },
    }
}

/// The Control phase that may follow the current completion evidence.
#[verifier::opaque]
pub open spec fn fresh_phase(s: StateView, op: RecoveryRecord) -> Result<LifecyclePhase, Error> {
    if op.completion_terminal is Some {
        match terminal(s, op) {
            Err(e) => Err(e),
            Ok(fact) => match fact.terminal {
                CompletionTerminal::Committed(_) => Ok(LifecyclePhase::InspectTarget),
                CompletionTerminal::Sealed => Ok(LifecyclePhase::Complete),
            },
        }
    } else if op.completion_resolution_attempt is Some {
        Ok(LifecyclePhase::InspectCompletionResolution)
    } else if op.completion_preparation is Some {
        Ok(LifecyclePhase::ResolveComplete)
    } else if op.completion_preparation_attempt is Some {
        Ok(LifecyclePhase::InspectCompletionAttempt)
    } else {
        Ok(LifecyclePhase::InspectTarget)
    }
}

/// The sealed attempt that a further attempt may follow.
#[verifier::opaque]
pub open spec fn require_successor(s: StateView, op: RecoveryRecord) -> Result<
    ResolutionReference,
    Error,
> {
    if op.phase != RecoveryPhase::Complete || op.completion_intent is None || op.completion is Some {
        Err(no("completion successor requires an unfinished original attempt"))
    } else {
        match terminal(s, op) {
            Err(e) => Err(e),
            Ok(fact) => sealed_reference(fact),
        }
    }
}

/// The canonical input of the next attempt.
#[verifier::opaque]
pub open spec fn next_input(s: StateView, op: RecoveryRecord) -> Result<CompletionInput, Error> {
    let followed = if op.completion_intent is Some {
        match require_successor(s, op) {
            Err(e) => Err(e),
            Ok(reference) => Ok(Some(reference)),
        }
    } else {
        predecessor(s, op)
    };
    match followed {
        Err(e) => Err(e),
        Ok(predecessor) => match quorum_input(s, op) {
            Err(e) => Err(e),
            Ok(quorum) => Ok(CompletionInput { quorum, predecessor }),
        },
    }
}

/// Whether the dispatch gives birth to a completion attempt.
#[verifier::opaque]
pub open spec fn is_birth(input: Dispatch) -> bool {
    match input {
        Dispatch::ControlIntent(request) => request@.phase == LifecyclePhase::Complete,
        _ => false,
    }
}

/// Whether the phase is a birth that Control has committed.
#[verifier::opaque]
pub open spec fn is_committed_birth(p: PhaseRecord) -> bool {
    is_birth(p.input) && match p.outcome {
        Some(DispatchOutcome::ControlIntent(_)) => true,
        _ => false,
    }
}

/// The attempt that a dispatch prepared now belongs to.
#[verifier::opaque]
pub open spec fn prepared_scope(s: StateView, op: RecoveryRecord, id: u128, input: Dispatch) -> Result<
    Option<CompletionScope>,
    Error,
> {
    if op.phase != RecoveryPhase::Complete {
        Ok(None)
    } else if is_birth(input) {
        if op.completion_intent is Some {
            match require_successor(s, op) {
                Err(e) => Err(e),
                Ok(_) => Ok(
                    Some(CompletionScope { intent: id, predecessor: op.completion_terminal }),
                ),
            }
        } else {
            Ok(Some(CompletionScope { intent: id, predecessor: op.completion_predecessor }))
        }
    } else {
        match scope(op) {
            None => Err(no("Complete dispatch lacks its original scope")),
            Some(selected) => Ok(Some(selected)),
        }
    }
}

/// The operation as it stood when a closed attempt ended.
#[verifier::opaque]
pub open spec fn historical_view(op: RecoveryRecord, history: CompletionHistory) -> RecoveryRecord {
    RecoveryRecord {
        phase: RecoveryPhase::Complete,
        pending_phase: None,
        current_intent: Some(history.current_intent),
        completion_intent: Some(history.scope.intent),
        completion_predecessor: history.scope.predecessor,
        completion_preparation_attempt: Some(history.preparation_attempt),
        completion_preparation: Some(history.preparation),
        completion_resolution_attempt: Some(history.resolution_attempt),
        completion_terminal: Some(history.terminal),
        completion_attempt: history.attempted_completion,
        completion: None,
        retirement: None,
        source_fence: None,
        activation_attempt: None,
        activation: None,
        route_publication: None,
        target_stop: None,
        ..op
    }
}

/// The operation with an attempt that no intent has been committed for.
pub open spec fn unborn_view(op: RecoveryRecord, predecessor: Option<u128>) -> RecoveryRecord {
    RecoveryRecord {
        completion_intent: None,
        completion_predecessor: predecessor,
        completion_preparation_attempt: None,
        completion_preparation: None,
        completion_resolution_attempt: None,
        completion_terminal: None,
        completion_attempt: None,
        ..op
    }
}

pub open spec fn is_stopped(op: RecoveryRecord) -> bool {
    op.stop_request is Some && (op.phase == RecoveryPhase::StopActivation || op.phase
        == RecoveryPhase::StopTarget || op.phase == RecoveryPhase::Cleanup || op.phase
        == RecoveryPhase::Stopped)
}

/// Whether the phase's own attempt was born before it, as its scope says.
#[verifier::opaque]
pub open spec fn born_in_scope(
    s: StateView,
    op: RecoveryRecord,
    p: PhaseRecord,
    selected: CompletionScope,
) -> Result<(), Error> {
    if is_birth(p.input) {
        if selected.intent != p.phase_id {
            Err(no("completion birth substituted its original intent"))
        } else {
            Ok(())
        }
    } else {
        match phase(s, op, selected.intent) {
            Err(e) => Err(e),
            Ok(born) => if born.completion_scope != Some(selected) || born.sequence >= p.sequence
                || !is_committed_birth(born) {
                Err(no("completion phase belongs to another logical original"))
            } else {
                Ok(())
            },
        }
    }
}

/// The operation as the phase's own attempt sees it.
#[verifier::opaque]
pub open spec fn for_phase(s: StateView, op: RecoveryRecord, p: PhaseRecord) -> Result<
    RecoveryRecord,
    Error,
> {
    if p.phase != RecoveryPhase::Complete {
        if p.completion_scope is Some {
            Err(no("non-Complete phase has completion scope"))
        } else {
            Ok(op)
        }
    } else {
        match p.completion_scope {
            None => Err(no("Complete phase lacks an exact attempt scope")),
            Some(selected) => match born_in_scope(s, op, p, selected) {
                Err(e) => Err(e),
                Ok(()) => if scope(op) == Some(selected) {
                    Ok(op)
                } else {
                    match s.recovery.completion_history.get(selected.intent) {
                        Some(history) => if history.operation_id != op.request.operation_id
                            || history.scope != selected {
                            Err(no("historical completion context differs"))
                        } else {
                            Ok(historical_view(op, history))
                        },
                        None => if is_birth(p.input) && p.outcome is None && (op.pending_phase
                            == Some(p.phase_id) || is_stopped(op)) {
                            match prepared_scope(
                                s,
                                RecoveryRecord { phase: RecoveryPhase::Complete, ..op },
                                p.phase_id,
                                p.input,
                            ) {
                                Err(e) => Err(e),
                                Ok(expected) => if expected != Some(selected) {
                                    Err(no("prepared completion birth changed its predecessor"))
                                } else {
                                    Ok(unborn_view(op, selected.predecessor))
                                },
                            }
                        } else {
                            Err(no("completion phase has no exact active or closed context"))
                        },
                    }
                },
            },
        }
    }
}

/// What `install` archives: the closed attempt, complete.
#[verifier::opaque]
pub open spec fn closed_history(op: RecoveryRecord, original: CompletionScope, successor: u128) -> Result<
    CompletionHistory,
    Error,
> {
    match (
        op.current_intent,
        op.completion_preparation_attempt,
        op.completion_preparation,
        op.completion_resolution_attempt,
        op.completion_terminal,
    ) {
        (
            Some(current_intent),
            Some(preparation_attempt),
            Some(preparation),
            Some(resolution_attempt),
            Some(terminal),
        ) => Ok(
            CompletionHistory {
                operation_id: op.request.operation_id,
                scope: original,
                current_intent,
                preparation_attempt,
                preparation,
                resolution_attempt,
                terminal,
                attempted_completion: op.completion_attempt,
                successor_intent: successor,
            },
        ),
        _ => Err(no("sealed completion history is incomplete")),
    }
}

/// The operation with the attempt that the phase gave birth to.
pub open spec fn born(op: RecoveryRecord, id: u128, predecessor: Option<u128>) -> RecoveryRecord {
    RecoveryRecord {
        current_intent: Some(id),
        completion_intent: Some(id),
        completion_predecessor: predecessor,
        completion_preparation_attempt: None,
        completion_preparation: None,
        completion_resolution_attempt: None,
        completion_terminal: None,
        completion_attempt: None,
        ..op
    }
}

/// The installation of a committed birth: the new head, and the closed attempt
/// that it archives, if it closes one.
#[verifier::opaque]
pub open spec fn install(s: StateView, op: RecoveryRecord, p: PhaseRecord) -> Result<
    (RecoveryRecord, Option<CompletionHistory>),
    Error,
> {
    match prepared_scope(s, op, p.phase_id, p.input) {
        Err(e) => Err(e),
        Ok(None) => Err(no("completion birth lacks its scope")),
        Ok(Some(expected)) => if p.completion_scope != Some(expected) {
            Err(no("committed completion birth changed its exact predecessor"))
        } else {
            match scope(op) {
                None => Ok((born(op, p.phase_id, expected.predecessor), None)),
                Some(original) => match require_successor(s, op) {
                    Err(e) => Err(e),
                    Ok(_) => match closed_history(op, original, p.phase_id) {
                        Err(e) => Err(e),
                        Ok(history) => if s.recovery.completion_history.get(
                            history.scope.intent,
                        ) is Some {
                            Err(no("sealed completion already has a permanent successor"))
                        } else {
                            Ok((born(op, p.phase_id, expected.predecessor), Some(history)))
                        },
                    },
                },
            }
        },
    }
}

/// The birth that must come before the phase on the attempt chain, given the
/// one that is expected at the phase or behind it.
#[verifier::opaque]
pub open spec fn chain_link(
    s: StateView,
    op: RecoveryRecord,
    p: PhaseRecord,
    expected: Option<u128>,
) -> Result<Option<u128>, Error> {
    if !is_committed_birth(p) {
        Ok(expected)
    } else {
        match p.completion_scope {
            None => Err(no("completion chain birth scope absent")),
            Some(selected) => if expected != Some(p.phase_id) || selected.intent != p.phase_id {
                Err(no("completion attempt chain forked or skipped a committed birth"))
            } else {
                match selected.predecessor {
                    None => Ok(None),
                    Some(id) => match phase(s, op, id) {
                        Err(e) => Err(e),
                        Ok(previous) => if previous.sequence >= p.sequence || !resolved_before(
                            previous,
                            p.prepared_revision,
                        ) {
                            Err(no("completion birth precedes its sealed original"))
                        } else {
                            match sealed_fact(s, op, id) {
                                Err(e) => Err(e),
                                Ok(_) => match previous.completion_scope {
                                    None => Err(no("predecessor scope absent")),
                                    Some(scope) => Ok(Some(scope.intent)),
                                },
                            }
                        },
                    },
                }
            },
        }
    }
}

#[verifier::opaque]
pub open spec fn resolved_before(p: PhaseRecord, revision: u64) -> bool {
    match p.resolved_revision {
        None => false,
        Some(resolved) => resolved < revision,
    }
}

} // verus!
