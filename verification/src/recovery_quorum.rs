//! Recovery quorum inputs are reconstructed from three permanent signed
//! materialization entries. Local startup acknowledgements are scoped to one
//! exact Control intent and never serve as a membership or completion proof.
use vstd::prelude::*;

use crate::errors::{conflict, Error};
use crate::model::{
    Dispatch, DispatchOutcome, MaterializationProof, PhaseRecord, QuorumInput, RecoveryPhase,
    RecoveryRecord, ReplicaInput, State, TargetOrigin, TargetOutcome, TargetStep, Voter, Voters,
};
use crate::recovery_lookup::{origin, origin_sha256, phase, phase_of, voter};
use crate::recovery_outcomes::materialized_by;
use crate::rules;

verus! {

pub fn materialization_holds(origin: &TargetOrigin, node: u64, proof: &MaterializationProof) -> (ok:
    bool)
    ensures
        ok == rules::materialization_holds(*origin, node, *proof),
{
    proof {
        reveal(rules::materialization_holds);
    }
    proof.authentic && proof.node_id == node && proof.origin_sha256 == origin_sha256(origin)
}

pub fn materializations_agree(
    origin: &TargetOrigin,
    voters: &Voters,
    first: &MaterializationProof,
    second: &MaterializationProof,
    third: &MaterializationProof,
) -> (ok: bool)
    ensures
        ok == rules::materializations_agree(*origin, *voters, *first, *second, *third),
{
    proof {
        reveal(rules::materializations_agree);
    }
    materialization_holds(origin, voters.first.node_id, first) && materialization_holds(
        origin,
        voters.second.node_id,
        second,
    ) && materialization_holds(origin, voters.third.node_id, third) && first.image_sha256
        == second.image_sha256 && first.image_sha256 == third.image_sha256
}

fn materialized(state: &State, operation: &RecoveryRecord, voter: &Voter) -> (r: Result<
    MaterializationProof,
    Error,
>)
    ensures
        r == rules::materialized(state@, *operation, *voter),
{
    proof {
        reveal(rules::materialized);
    }
    let retained = phase_of(
        state,
        operation,
        voter.materialization,
        "target materialization quorum incomplete",
    )?;
    match retained.outcome {
        Some(DispatchOutcome::Target(response)) => match materialized_by(&response.open().outcome) {
            Some(proof) => Ok(proof),
            None => Err(conflict("target materialization proof differs")),
        },
        _ => Err(conflict("target materialization proof absent")),
    }
}

pub fn quorum_input(state: &State, operation: &RecoveryRecord) -> (r: Result<QuorumInput, Error>)
    ensures
        r == rules::quorum_input(state@, *operation),
{
    proof {
        reveal(rules::quorum_input);
    }
    let original = origin(state, operation)?;
    let first = materialized(state, operation, &operation.voters.first)?;
    let second = materialized(state, operation, &operation.voters.second)?;
    let third = materialized(state, operation, &operation.voters.third)?;
    if !materializations_agree(&original, &operation.voters, &first, &second, &third) {
        return Err(conflict("materialized target quorum differs"));
    }
    Ok(QuorumInput { origin_sha256: origin_sha256(&original), first, second, third })
}

pub fn started_for(state: &State, operation: &RecoveryRecord, node: u64, intent_id: u128) -> (r:
    Result<bool, Error>)
    ensures
        r == rules::started_for(state@, *operation, node, intent_id),
{
    proof {
        reveal(rules::started_for);
    }
    let id: u128 = match voter(&operation.voters, node) {
        None => return Ok(false),
        Some(v) => match v.started {
            None => return Ok(false),
            Some(id) => id,
        },
    };
    let retained = phase(state, operation, id)?;
    match (retained.input, retained.outcome) {
        (
            Dispatch::Target { node_id, request },
            Some(DispatchOutcome::Target(response)),
        ) => Ok(
            node_id == node && request.open().command_id == intent_id && response.open().node_id
                == node && match response.open().outcome {
                TargetOutcome::Started { .. } => true,
                _ => false,
            },
        ),
        _ => Ok(false),
    }
}

pub fn all_started(state: &State, operation: &RecoveryRecord, intent_id: u128) -> (r: Result<
    bool,
    Error,
>)
    ensures
        r == rules::all_started(state@, *operation, intent_id),
{
    proof {
        reveal(rules::all_started);
    }
    if !started_for(state, operation, operation.voters.first.node_id, intent_id)? {
        return Ok(false);
    }
    if !started_for(state, operation, operation.voters.second.node_id, intent_id)? {
        return Ok(false);
    }
    started_for(state, operation, operation.voters.third.node_id, intent_id)
}

pub fn established_start(step: &TargetStep) -> (b: bool)
    ensures
        b == rules::established_start(*step),
{
    proof {
        reveal(rules::established_start);
    }
    match step {
        TargetStep::Start(ReplicaInput::Quorum(_)) => false,
        TargetStep::Start(_) => true,
        _ => false,
    }
}

pub fn established_effect(step: &TargetStep) -> (b: bool)
    ensures
        b == rules::established_effect(*step),
{
    proof {
        reveal(rules::established_effect);
    }
    match step {
        TargetStep::PrepareComplete(_) => true,
        TargetStep::Complete(_) => true,
        TargetStep::InspectCompletionAttempt(_) => true,
        TargetStep::InspectCompletionResolution(_) => true,
        TargetStep::ResolveComplete(_) => true,
        TargetStep::Inspect(_) => true,
        _ => false,
    }
}

/// Routing a completion to another installed voter retries the same target
/// command and absolute cap. Both phase entries remain permanent, and whichever
/// voter is current leader resolves the single original target completion.
pub fn completion_route_retry(pending: &PhaseRecord, input: &Dispatch, now: u64) -> (b: bool)
    ensures
        b == rules::completion_route_retry(*pending, *input, now),
{
    proof {
        reveal(rules::completion_route_retry);
    }
    match (pending.input, *input) {
        (
            Dispatch::Target { node_id: old, request: original },
            Dispatch::Target { node_id: new, request: next },
        ) => {
            let activate: bool = match original.open().step {
                TargetStep::Activate { .. } => true,
                _ => false,
            };
            (pending.phase == RecoveryPhase::Complete || pending.phase == RecoveryPhase::Confirm)
                && old != new && original == next && now < original.open().not_after_ms && (
            established_effect(&original.open().step) || (pending.phase == RecoveryPhase::Complete
                && established_start(&original.open().step)) || activate)
        },
        _ => false,
    }
}

/// Exact initialized membership is already retained. Startup acknowledgements
/// select reachable candidates; only an actual target barrier proves quorum.
pub fn established(state: &State, operation: &RecoveryRecord) -> (r: Result<(), Error>)
    ensures
        r == rules::established(state@, *operation),
{
    proof {
        reveal(rules::established);
    }
    let retained = phase_of(
        state,
        operation,
        operation.initialization,
        "established target initialization is absent",
    )?;
    match (retained.input, retained.outcome) {
        (
            Dispatch::Target { node_id: _, request },
            Some(DispatchOutcome::Target(response)),
        ) => match (request.open().step, response.open().outcome) {
            (
                TargetStep::Initialize(input),
                TargetOutcome::Initialized { origin_sha256 },
            ) => {
                if retained.phase != RecoveryPhase::Initialize {
                    return Err(conflict("established target membership changed"));
                }
                let quorum = quorum_input(state, operation)?;
                if input.open() != quorum || origin_sha256 != input.open().origin_sha256 {
                    return Err(conflict("established target membership changed"));
                }
                Ok(())
            },
            _ => Err(conflict("established target initialization outcome differs")),
        },
        _ => Err(conflict("established target initialization evidence differs")),
    }
}

fn startup_attempted(state: &State, operation: &RecoveryRecord, v: &Voter, current: u128) -> (r:
    Result<bool, Error>)
    ensures
        r == rules::startup_attempted(state@, *operation, *v, current),
{
    proof {
        reveal(rules::startup_attempted);
    }
    let id: u128 = match v.start_attempt {
        None => return Ok(false),
        Some(id) => id,
    };
    let retained = phase(state, operation, id)?;
    match retained.input {
        Dispatch::Target { node_id, request } => Ok(
            node_id == v.node_id && request.open().command_id == current && established_start(
                &request.open().step,
            ),
        ),
        _ => Ok(false),
    }
}

pub fn ready_nodes(state: &State, operation: &RecoveryRecord, current: u128) -> (r: Result<
    Vec<u64>,
    Error,
>)
    ensures
        match r {
            Ok(nodes) => rules::ready_nodes(state@, *operation, current) == Ok::<Seq<u64>, Error>(
                nodes@,
            ) && nodes@.len() <= 3,
            Err(e) => rules::ready_nodes(state@, *operation, current) == Err::<Seq<u64>, Error>(e),
        },
{
    proof {
        reveal(rules::ready_nodes);
    }
    established(state, operation)?;
    let first: u64 = operation.voters.first.node_id;
    let second: u64 = operation.voters.second.node_id;
    let third: u64 = operation.voters.third.node_id;
    let a: bool = started_for(state, operation, first, current)?;
    let b: bool = started_for(state, operation, second, current)?;
    let c: bool = started_for(state, operation, third, current)?;
    let mut nodes: Vec<u64> = Vec::new();
    if a {
        nodes.push(first);
    }
    if b {
        nodes.push(second);
    }
    if c {
        nodes.push(third);
    }
    assert(nodes@ =~= rules::listed(a, first) + rules::listed(b, second) + rules::listed(c, third));
    Ok(nodes)
}

fn contains(nodes: &Vec<u64>, node: u64) -> (found: bool)
    ensures
        found == nodes@.contains(node),
{
    let mut i: usize = 0;
    while i < nodes.len()
        invariant
            i <= nodes.len(),
            forall|j: int| 0 <= j < i ==> nodes@[j] != node,
        decreases nodes.len() - i,
    {
        if nodes[i] == node {
            assert(nodes@[i as int] == node);
            return true;
        }
        i = i + 1;
    }
    false
}

fn idle(state: &State, operation: &RecoveryRecord, v: &Voter, ready: &Vec<u64>, current: u128) -> (r:
    Result<bool, Error>)
    ensures
        r == rules::idle(state@, *operation, *v, ready@, current),
{
    proof {
        reveal(rules::idle);
    }
    if contains(ready, v.node_id) {
        return Ok(false);
    }
    Ok(!startup_attempted(state, operation, v, current)?)
}

fn behind(after: Option<u64>, node: u64) -> (b: bool)
    ensures
        b == rules::behind(after, node),
{
    match after {
        None => true,
        Some(after) => node > after,
    }
}

fn first_of(voters: &Voters, a: bool, b: bool, c: bool) -> (r: Option<u64>)
    ensures
        r == rules::first_of(*voters, a, b, c),
{
    proof {
        reveal(rules::first_of);
    }
    if a {
        Some(voters.first.node_id)
    } else if b {
        Some(voters.second.node_id)
    } else if c {
        Some(voters.third.node_id)
    } else {
        None
    }
}

fn restart_candidate(voters: &Voters, ready: &Vec<u64>, after: Option<u64>) -> (r: Option<u64>)
    ensures
        r == rules::restart_candidate(*voters, ready@, after),
{
    proof {
        reveal(rules::restart_candidate);
    }
    let a: bool = !contains(ready, voters.first.node_id);
    let b: bool = !contains(ready, voters.second.node_id);
    let c: bool = !contains(ready, voters.third.node_id);
    match first_of(
        voters,
        a && behind(after, voters.first.node_id),
        b && behind(after, voters.second.node_id),
        c && behind(after, voters.third.node_id),
    ) {
        Some(node) => Some(node),
        None => first_of(voters, a, b, c),
    }
}

/// The boolean requests startup; otherwise the selected observer can attempt
/// the actual quorum read/write. Boot receipts themselves never prove quorum.
pub fn established_destination(state: &State, operation: &RecoveryRecord, current: u128) -> (r:
    Result<(u64, bool), Error>)
    ensures
        r == rules::established_destination(state@, *operation, current),
{
    proof {
        reveal(rules::established_destination);
    }
    let ready = ready_nodes(state, operation, current)?;
    if ready.len() > 1 {
        return Ok((ready[0], false));
    }
    if idle(state, operation, &operation.voters.first, &ready, current)? {
        return Ok((operation.voters.first.node_id, true));
    }
    if idle(state, operation, &operation.voters.second, &ready, current)? {
        return Ok((operation.voters.second.node_id, true));
    }
    if idle(state, operation, &operation.voters.third, &ready, current)? {
        return Ok((operation.voters.third.node_id, true));
    }
    let after: Option<u64> = match operation.last_phase {
        None => None,
        Some(id) => match phase(state, operation, id)?.input {
            Dispatch::Target { node_id, request: _ } => Some(node_id),
            _ => None,
        },
    };
    match restart_candidate(&operation.voters, &ready, after) {
        Some(node) => Ok((node, true)),
        None => Err(conflict("established target startup candidates absent")),
    }
}

pub fn require_eligible_observer(
    state: &State,
    operation: &RecoveryRecord,
    current: u128,
    node: u64,
) -> (r: Result<(), Error>)
    ensures
        r == rules::require_eligible_observer(state@, *operation, current, node),
{
    proof {
        reveal(rules::require_eligible_observer);
    }
    let ready = ready_nodes(state, operation, current)?;
    if !contains(&ready, node) {
        return Err(conflict("target observer has no exact current startup acknowledgment"));
    }
    Ok(())
}

/// An exact Complete mutation can open its target replica at the selected
/// voter. Its original initialized membership and all materialization proofs
/// establish the candidate set; a fresh Start reply only ranks reachable
/// candidates and cannot exclude a leader elected at another installed voter.
pub fn require_initialized_mutation_observer(
    state: &State,
    operation: &RecoveryRecord,
    node: u64,
) -> (r: Result<(), Error>)
    ensures
        r == rules::require_initialized_mutation_observer(state@, *operation, node),
{
    proof {
        reveal(rules::require_initialized_mutation_observer);
    }
    established(state, operation)?;
    match voter(&operation.voters, node) {
        Some(v) => if v.materialization.is_some() {
            Ok(())
        } else {
            Err(conflict("target mutation observer lacks original materialization"))
        },
        None => Err(conflict("target mutation observer lacks original materialization")),
    }
}

fn other_than(nodes: &Vec<u64>, old: u64) -> (r: Option<u64>)
    requires
        nodes@.len() <= 3,
    ensures
        r == rules::other_than(nodes@, old),
{
    proof {
        reveal(rules::other_than);
    }
    let found: Option<u64> = if nodes.len() > 0 && nodes[0] > old {
        Some(nodes[0])
    } else if nodes.len() > 1 && nodes[1] > old {
        Some(nodes[1])
    } else if nodes.len() > 2 && nodes[2] > old {
        Some(nodes[2])
    } else if nodes.len() > 0 {
        Some(nodes[0])
    } else {
        None
    };
    match found {
        Some(node) => if node != old {
            Some(node)
        } else {
            None
        },
        None => None,
    }
}

pub fn retry_destination(
    state: &State,
    operation: &RecoveryRecord,
    current: u128,
    old: u64,
    step: &TargetStep,
) -> (r: Result<u64, Error>)
    ensures
        r == rules::retry_destination(state@, *operation, current, old, *step),
{
    proof {
        reveal(rules::retry_destination);
    }
    if established_start(step) {
        let (candidate, startup) = established_destination(state, operation, current)?;
        if !startup || candidate == old {
            return Err(conflict("another pending startup route is unavailable"));
        }
        return Ok(candidate);
    }
    let mutation: bool = match step {
        TargetStep::PrepareComplete(_) => true,
        TargetStep::Complete(_) => true,
        _ => false,
    };
    if mutation {
        established(state, operation)?;
        let mut voters: Vec<u64> = Vec::new();
        voters.push(operation.voters.first.node_id);
        voters.push(operation.voters.second.node_id);
        voters.push(operation.voters.third.node_id);
        assert(voters@ =~= rules::voter_ids(operation.voters));
        return match other_than(&voters, old) {
            Some(node) => Ok(node),
            None => Err(conflict("another initialized target voter is unavailable")),
        };
    }
    let ready = ready_nodes(state, operation, current)?;
    match other_than(&ready, old) {
        Some(node) => Ok(node),
        None => Err(conflict("another eligible target observer is unavailable")),
    }
}

} // verus!
