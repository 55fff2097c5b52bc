//! Route publication and its permanent recovery outcome share one Control
//! apply. A replay returns that outcome before inspecting or changing a later
//! topology. Ordinary topology writes cannot produce this closed journal fact.
use vstd::prelude::*;

use crate::activation_rules;
use crate::digest::Name;
use crate::errors::{conflict, error, Error, ErrorCode};
use crate::model::{
    DispatchOutcome, Node, PhaseRecord, Placement, RecoveryRecord, RecoveryStart, RouteChange,
    State, TenantRoute, Topology,
};
use crate::recovery_activation::winner;
use crate::views;

verus! {

/// The origin of a URL, as `url` serializes it; nothing where the text is no URL.
pub uninterp spec fn url_origin(text: Seq<char>) -> Option<Seq<char>>;

/// `url::Url::parse`, `Url::origin` and `Origin::ascii_serialization`, one upon
/// the other: a function of the text alone, named by `url_origin`.
#[verifier::external_body]
fn parsed_origin(text: &str) -> (origin: Option<String>)
    ensures
        match origin {
            None => url_origin(text@) is None,
            Some(serialized) => url_origin(text@) == Some(serialized@),
        },
{
    match url::Url::parse(text) {
        Ok(url) => Some(url.origin().ascii_serialization()),
        Err(_) => None,
    }
}

impl Placement {
    /// Where a replica with this replication endpoint and failure domain stands.
    pub fn of(endpoint: &str, failure_domain: &str) -> (placement: Placement)
        ensures
            placement.failure_domain == crate::digest::name_of(failure_domain@),
            placement.endpoint_origin == match url_origin(endpoint@) {
                None => None::<Name>,
                Some(origin) => Some(crate::digest::name_of(origin)),
            },
    {
        let endpoint_origin = match parsed_origin(endpoint) {
            None => None,
            Some(origin) => Some(Name::of(origin.as_str())),
        };
        Placement { endpoint_origin, failure_domain: Name::of(failure_domain) }
    }
}

/// Parsing, canonical rebuilding, mutation validation, and the change event are
/// bounded by the topology document's bytes. No tenant-sized workspace is needed.
pub fn workspace(document_bytes: u64) -> (r: Result<u64, Error>)
    ensures
        r == (if document_bytes * 16 + 262144 > u64::MAX {
            Err::<u64, Error>(
                crate::errors::refusal(
                    ErrorCode::ResourceExhausted,
                    "topology publication workspace overflow",
                ),
            )
        } else {
            Ok::<u64, Error>((document_bytes * 16 + 262144) as u64)
        }),
{
    match document_bytes.checked_mul(16) {
        None => Err(
            error(ErrorCode::ResourceExhausted, "topology publication workspace overflow"),
        ),
        Some(bytes) => match bytes.checked_add(262144) {
            None => Err(
                error(ErrorCode::ResourceExhausted, "topology publication workspace overflow"),
            ),
            Some(total) => Ok(total),
        },
    }
}

fn route_at(routes: &Vec<TenantRoute>, tenant: Name) -> (r: Option<usize>)
    ensures
        match r {
            None => activation_rules::route_at(views::routes_view(routes@), tenant, 0) is None,
            Some(i) => activation_rules::route_at(views::routes_view(routes@), tenant, 0) == Some(
                i as int,
            ) && i < routes.len(),
        },
{
    let ghost view = views::routes_view(routes@);
    let mut i: usize = 0;
    while i < routes.len()
        invariant
            i <= routes.len(),
            view == views::routes_view(routes@),
            activation_rules::route_at(view, tenant, 0) == activation_rules::route_at(
                view,
                tenant,
                i as int,
            ),
        decreases routes.len() - i,
    {
        assert(view[i as int] == routes@[i as int]@);
        if routes[i].tenant == tenant {
            return Some(i);
        }
        i = i + 1;
    }
    None
}

fn approved(topology: &Topology, node: &Node, placement: &Placement) -> (r: Result<(), Error>)
    ensures
        r == activation_rules::approved(topology@, *node, *placement),
{
    proof {
        reveal(activation_rules::approved);
    }
    let installed = match topology.nodes.get(node.node_id as u128) {
        None => return Err(conflict("target voter is not approved in Control topology")),
        Some(installed) => installed,
    };
    let endpoint = match placement.endpoint_origin {
        None => return Err(conflict("target replication endpoint is invalid")),
        Some(endpoint) => endpoint,
    };
    if installed.endpoint != endpoint || installed.failure_domain != placement.failure_domain
        || !(installed.first_pin == Some(node.certificate_sha256) || installed.second_pin == Some(
        node.certificate_sha256,
    )) {
        return Err(
            conflict("target route differs from approved endpoint, trust or failure domain"),
        );
    }
    Ok(())
}

fn all_approved(topology: &Topology, request: &RecoveryStart) -> (r: Result<(), Error>)
    ensures
        r == activation_rules::all_approved(topology@, *request),
{
    proof {
        reveal(activation_rules::all_approved);
    }
    approved(topology, &request.target_nodes.first, &request.placements.first)?;
    approved(topology, &request.target_nodes.second, &request.placements.second)?;
    approved(topology, &request.target_nodes.third, &request.placements.third)
}

fn source_route(topology: &Topology, operation: &RecoveryRecord) -> (r: Result<usize, Error>)
    ensures
        match r {
            Ok(i) => activation_rules::source_route(topology@, *operation) == Ok::<int, Error>(
                i as int,
            ),
            Err(e) => activation_rules::source_route(topology@, *operation) == Err::<int, Error>(e),
        },
{
    proof {
        reveal(activation_rules::source_route);
    }
    match route_at(&topology.routes, operation.request.tenant) {
        None => Err(conflict("source route absent")),
        Some(i) => {
            assert(topology@.routes[i as int] == topology.routes@[i as int]@);
            if topology.routes[i].incarnation != operation.request.source_incarnation
                || !topology.routes[i].replicated {
                Err(conflict("source route differs from frozen recovery incarnation"))
            } else {
                Ok(i)
            }
        },
    }
}

pub fn next_input(state: &State, operation: &RecoveryRecord) -> (r: Result<RouteChange, Error>)
    ensures
        r == activation_rules::next_route(state@, *operation),
{
    proof {
        reveal(activation_rules::next_route);
    }
    winner(state, operation)?;
    if operation.voters.first.confirmation.is_none() || operation.voters.second.confirmation.is_none()
        || operation.voters.third.confirmation.is_none() {
        return Err(
            conflict("route publication requires every local activation confirmation"),
        );
    }
    let topology = match &state.topology {
        None => return Err(error(ErrorCode::NotFound, "installed Control topology absent")),
        Some(topology) => topology,
    };
    match topology.form_refusal {
        Some(refusal) => return Err(refusal),
        None => {},
    }
    source_route(topology, operation)?;
    all_approved(topology, &operation.request)?;
    Ok(
        RouteChange {
            expected_topology_version: topology.version,
            expected_source_incarnation: operation.request.source_incarnation,
            target_incarnation: operation.request.target_incarnation,
            first_voter: operation.voters.first.node_id,
            second_voter: operation.voters.second.node_id,
            third_voter: operation.voters.third.node_id,
        },
    )
}

pub fn validate_input(operation: &RecoveryRecord, input: &RouteChange) -> (r: Result<(), Error>)
    ensures
        r == activation_rules::route_input(*operation, *input),
{
    proof {
        reveal(activation_rules::route_input);
    }
    if input.expected_topology_version == 0 || input.expected_source_incarnation
        != operation.request.source_incarnation || input.target_incarnation
        != operation.request.target_incarnation || input.first_voter
        != operation.voters.first.node_id || input.second_voter
        != operation.voters.second.node_id || input.third_voter
        != operation.voters.third.node_id {
        return Err(conflict("route publication input differs from frozen source and target"));
    }
    Ok(())
}

/// Publishes the route where the topology is still the one it was computed from.
pub fn apply(state: &mut State, operation: &RecoveryRecord, input: &RouteChange) -> (r: Result<
    DispatchOutcome,
    Error,
>)
    ensures
        r == activation_rules::published(old(state)@, *operation, *input),
        match r {
            Ok(DispatchOutcome::RoutePublished { .. }) => final(state)@
                == activation_rules::rerouted(old(state)@, *operation, *input),
            _ => final(state)@ == old(state)@,
        },
{
    proof {
        reveal(activation_rules::published);
    }
    validate_input(operation, input)?;
    let observed: Option<u64> = match &state.topology {
        None => None,
        Some(topology) => Some(topology.version),
    };
    if observed != Some(input.expected_topology_version) {
        return Ok(DispatchOutcome::RouteRejected { observed_topology_version: observed });
    }
    let expected = next_input(state, operation)?;
    if *input != expected {
        return Err(conflict("route publication compare-and-set differs"));
    }
    let revision: u64 = state.revision;
    let mut installed: Option<Topology> = None;
    std::mem::swap(&mut installed, &mut state.topology);
    match installed {
        None => {},
        Some(mut topology) => {
            proof {
                reveal(activation_rules::source_route);
                reveal(activation_rules::next_route);
            }
            match route_at(&topology.routes, operation.request.tenant) {
                None => {},
                Some(i) => {
                    let ghost held = views::routes_view(topology.routes@);
                    let route = TenantRoute {
                        tenant: operation.request.tenant,
                        incarnation: input.target_incarnation,
                        replicated: true,
                        voters: vec![input.first_voter, input.second_voter, input.third_voter],
                    };
                    assert(route@.voters =~= seq![
                        input.first_voter,
                        input.second_voter,
                        input.third_voter,
                    ]);
                    let ghost placed = route@;
                    topology.routes.set(i, route);
                    assert(views::routes_view(topology.routes@) =~= held.update(i as int, placed));
                },
            }
            topology.version = revision;
            state.topology = Some(topology);
        },
    }
    Ok(DispatchOutcome::RoutePublished { revision })
}

pub fn validate_outcome(
    prepared: &PhaseRecord,
    input: &RouteChange,
    outcome: &DispatchOutcome,
) -> (r: Result<(), Error>)
    ensures
        r == activation_rules::route_outcome(*prepared, *input, *outcome),
{
    proof {
        reveal(activation_rules::route_outcome);
    }
    let held: bool = match outcome {
        DispatchOutcome::RouteSuperseded { replacement_phase } => *replacement_phase != 0
            && *replacement_phase != prepared.phase_id && match prepared.resolved_revision {
            None => false,
            Some(revision) => revision > prepared.prepared_revision,
        },
        DispatchOutcome::RoutePublished { revision } => prepared.resolved_revision == Some(
            *revision,
        ) && *revision > prepared.prepared_revision,
        DispatchOutcome::RouteRejected { observed_topology_version } => *observed_topology_version
            != Some(input.expected_topology_version) && match *observed_topology_version {
            None => true,
            Some(version) => match prepared.resolved_revision {
                None => false,
                Some(resolved) => version < resolved,
            },
        },
        _ => false,
    };
    if held {
        Ok(())
    } else {
        Err(conflict("route publication lacks exact ordered permanent outcome"))
    }
}

} // verus!
