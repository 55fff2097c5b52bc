//! What the journal's commands promise: who may give them, what each of them adds, which
//! step of a recovery its answer leads to, and what a publication does to the topology.
use vstd::prelude::*;

use crate::activation_rules;
use crate::digest;
use crate::errors::{Error, ErrorCode};
use crate::journal_rules;
use crate::model::{
    AuthorityAction, AuthorityOutcome, Dispatch, DispatchOutcome, LifecyclePhase, Node,
    PhaseRecord, Placement, RecoveryAuthorization, RecoveryMutation, RecoveryPhase,
    RecoveryRecord, RecoveryStart, RouteChange, SourceMode, TargetOutcome, Voter, Voters,
};
use crate::planner_laws::{is_phase, voters_of};
use crate::rules;
use crate::views::{StateView, TenantRouteView, TopologyView};

verus! {

broadcast use {crate::held::lemma_held, crate::held::lemma_reheld};

// ---------------------------------------------------------------------
// Authority
// ---------------------------------------------------------------------

/// A command is admitted exactly where it is given to the installed Control tenant, by a
/// caller whom neither Control nor the administrators refuse, under the current policy and
/// a credential that has not ended and is the one that it was admitted by, while Control
/// serves and changes no policy, and where its request is of the form of one.
pub proof fn lemma_authorized(s: StateView, a: RecoveryAuthorization)
    ensures
        journal_rules::authorized(s, a) is Ok <==> {
            &&& s.tenant == digest::name_of("__kasumi_control"@)
            &&& a.tenant == s.tenant
            &&& a.control_refusal is None
            &&& a.admin_refusal is None
            &&& s.lifecycle is Some
            &&& !s.lifecycle->0.retired
            &&& s.lifecycle->0.pending_change is None
            &&& !s.retired
            &&& !s.suspended
            &&& a.policy_epoch == s.policy_epoch
            &&& a.admitted_at_ms < a.expires_at_ms
            &&& a.credential_expires_at_ms == Some(a.expires_at_ms)
            &&& a.request_refusal is None
        },
{
    reveal(journal_rules::authorized);
}

// ---------------------------------------------------------------------
// Starting and stopping
// ---------------------------------------------------------------------

/// A recovery that starts has done nothing yet: it is to be prepared, under exactly its
/// request, with a fresh voter for each target node, and its target is bound to it. It
/// starts exactly where its identity and its target are free and its request is of the
/// current installation and policy.
pub proof fn lemma_started(s: StateView, a: RecoveryAuthorization, request: RecoveryStart)
    requires
        !s.recovery.operations.dom().contains(request.operation_id),
    ensures
        ({
            let r = journal_rules::start(s, a, request);
            &&& r is Ok <==> {
                &&& s.lifecycle is Some
                &&& request.expected_policy_epoch == s.policy_epoch
                &&& request.installation_sha256 == s.lifecycle->0.installation.sha256
                &&& exists|i: int|
                    0 <= i < s.lifecycle->0.installation.partitions.len() && (
                    #[trigger] s.lifecycle->0.installation.partitions[i]).name
                        == request.authority_partition
                &&& !s.recovery.targets.dom().contains(request.target_incarnation)
            }
            &&& r matches Ok((next, head)) ==> {
                &&& next.recovery.operations == s.recovery.operations.insert(
                    request.operation_id,
                    head,
                )
                &&& next.recovery.targets == s.recovery.targets.insert(
                    request.target_incarnation,
                    request.operation_id,
                )
                &&& next.recovery.phases == s.recovery.phases
                &&& next.recovery.completion_history == s.recovery.completion_history
                &&& next.topology == s.topology
                &&& next.lifecycle == s.lifecycle
                &&& head.request == request
                &&& head.original_principal == a.principal
                &&& head.created_revision == s.revision
                &&& head.updated_revision == s.revision
                &&& head.phase == RecoveryPhase::Prepare
                &&& head.next_phase_sequence == 1
                &&& head.pending_phase is None && head.last_phase is None
                &&& head.stop_request is None && head.target_stop is None
                &&& head.issuer_preparation is None && head.current_intent is None
                &&& head.materialization_intent is None && head.initialization is None
                &&& head.completion_intent is None && head.completion is None
                &&& head.retirement is None && head.source_fence is None
                &&& head.activation_attempt is None && head.activation is None
                &&& head.route_publication is None
                &&& head.voters.first.node_id == request.target_nodes.first.node_id
                &&& head.voters.second.node_id == request.target_nodes.second.node_id
                &&& head.voters.third.node_id == request.target_nodes.third.node_id
                &&& forall|k: int|
                    0 <= k < 3 ==> is_fresh(#[trigger] voters_of(head.voters)[k])
            }
        }),
{
    reveal(journal_rules::start);
    reveal(journal_rules::started_head);
    if s.lifecycle is Some {
        lemma_partition(
            s.lifecycle->0.installation.partitions,
            request.authority_partition,
            0,
        );
    }
}

/// Whether the voter has done nothing yet.
pub open spec fn is_fresh(v: Voter) -> bool {
    &&& v.materialization is None
    &&& v.start_attempt is None
    &&& v.started is None
    &&& v.confirmation is None
    &&& v.cleanup is None
}

proof fn lemma_partition(parts: Seq<crate::model::Partition>, name: crate::digest::Name, i: int)
    requires
        0 <= i <= parts.len(),
    ensures
        rules::partition_named(parts, name, i) is Some <==> exists|j: int|
            i <= j < parts.len() && (#[trigger] parts[j]).name == name,
    decreases parts.len() - i,
{
    if i < parts.len() {
        lemma_partition(parts, name, i + 1);
        if parts[i].name == name {
            assert(parts[i].name == name);
        } else if exists|j: int| i <= j < parts.len() && (#[trigger] parts[j]).name == name {
            let j = choose|j: int| i <= j < parts.len() && (#[trigger] parts[j]).name == name;
            assert(i + 1 <= j);
        }
    }
}

/// A recovery that is asked to stop gives up what is pending and goes back: it stops its
/// activation where one was sent, and else its target. One whose activation is committed
/// goes forward as it was. It is asked once, under one identity.
pub proof fn lemma_stopped(s: StateView, op: RecoveryRecord, command_id: u128)
    requires
        s.recovery.operations.dom().contains(op.request.operation_id),
    ensures
        ({
            let r = journal_rules::stop(s, op, command_id);
            &&& r is Ok <==> command_id != 0 && (op.stop_request is None || op.stop_request
                == Some(command_id))
            &&& r matches Ok((next, head)) ==> {
                &&& op.stop_request is Some ==> next == s && head == op
                &&& op.stop_request is None ==> {
                    &&& head.stop_request == Some(command_id)
                    &&& head.updated_revision == s.revision
                    &&& op.activation is Some ==> head.phase == op.phase && head.pending_phase
                        == op.pending_phase
                    &&& op.activation is None ==> head.pending_phase is None && head.phase
                        == if op.activation_attempt is Some {
                        RecoveryPhase::StopActivation
                    } else {
                        RecoveryPhase::StopTarget
                    }
                    &&& head == (RecoveryRecord {
                        stop_request: head.stop_request,
                        updated_revision: head.updated_revision,
                        phase: head.phase,
                        pending_phase: head.pending_phase,
                        ..op
                    })
                    &&& next == (StateView { recovery: next.recovery, ..s })
                    &&& next.recovery.phases == s.recovery.phases
                    &&& next.recovery.operations[op.request.operation_id] == head
                }
            }
        }),
{
    reveal(journal_rules::stop);
    reveal(journal_rules::stopping);
}

// ---------------------------------------------------------------------
// Preparing
// ---------------------------------------------------------------------

/// Whether what is pending leaves its place to the dispatch: it has ended, or it is the
/// same request, sent on to another voter.
pub open spec fn leaves(s: StateView, op: RecoveryRecord, input: Dispatch, now: u64) -> bool {
    let pending = s.recovery.phases[op.pending_phase->0];
    match pending.input {
        Dispatch::Target { node_id, request } => {
            ||| now >= request@.not_after_ms && input is ControlIntent
            ||| input is Target && input->Target_request == request && input->Target_node_id
                != node_id && now < request@.not_after_ms
        },
        Dispatch::Authority(command) => {
            &&& op.phase == RecoveryPhase::Activate
            &&& command@.action is ActivateCommitted
            &&& now >= command@.not_after_ms
            &&& input is Authority
            &&& input->Authority_0@.action is StopActivation
            &&& input->Authority_0@.action->StopActivation_original@.command_id
                == command@.command_id
        },
        Dispatch::PublishRoute(_) => input is PublishRoute && op.phase == RecoveryPhase::Publish,
        _ => false,
    }
}

/// A dispatch is prepared once, as it is: its row holds exactly what is sent, under whose
/// authority and until when, behind the last phase; it is the one that is pending from
/// then on, and the only one, for what was pending before has left its place. Every other
/// phase stays as it was but a publication that it supersedes.
pub proof fn lemma_prepared(
    s: StateView,
    op: RecoveryRecord,
    id: u128,
    sequence: u64,
    pending: Option<u128>,
    input: Dispatch,
    a: RecoveryAuthorization,
)
    requires
        !s.recovery.phases.dom().contains(id),
        journal_rules::prepare(s, op, id, sequence, pending, input, a) is Ok,
    ensures
        ({
            let (next, head) = journal_rules::prepare(
                s,
                op,
                id,
                sequence,
                pending,
                input,
                a,
            )->Ok_0;
            let row = next.recovery.phases[id];
            &&& id != 0
            &&& op.phase != RecoveryPhase::Finished && op.phase != RecoveryPhase::Stopped
            &&& sequence == op.next_phase_sequence
            &&& pending == op.pending_phase
            &&& next.recovery.phases.dom().contains(id)
            &&& row.operation_id == op.request.operation_id
            &&& row.phase_id == id
            &&& row.sequence == sequence
            &&& row.input == input
            &&& row.principal == a.principal
            &&& row.admitted_at_ms == a.admitted_at_ms
            &&& row.original_credential_expires_at_ms == a.expires_at_ms
            &&& row.prepared_revision == s.revision
            &&& row.previous_phase == op.last_phase
            &&& row.outcome is None && row.resolved_revision is None
            &&& row.phase == head.phase
            &&& head.phase == op.phase || (op.phase == RecoveryPhase::Activate && head.phase
                == RecoveryPhase::StopActivation && input is Authority
                && input->Authority_0@.action is StopActivation)
            &&& head.pending_phase == Some(id)
            &&& head.last_phase == Some(id)
            &&& head.next_phase_sequence == op.next_phase_sequence + 1
            &&& head.request == op.request
            &&& head.updated_revision == s.revision
            &&& next.recovery.operations == s.recovery.operations.insert(
                op.request.operation_id,
                head,
            )
            &&& next.topology == s.topology
            &&& op.pending_phase is Some ==> is_phase(s, op, op.pending_phase->0) && leaves(
                s,
                op,
                input,
                a.admitted_at_ms,
            )
            &&& forall|k: u128|
                k != id && s.recovery.phases.dom().contains(k) ==> (
                #[trigger] next.recovery.phases.dom().contains(k)) && (next.recovery.phases[k]
                    == s.recovery.phases[k] || (Some(k) == op.pending_phase
                    && s.recovery.phases[k].input is PublishRoute
                    && next.recovery.phases[k].outcome == Some(
                    DispatchOutcome::RouteSuperseded { replacement_phase: id },
                )))
            &&& head.voters.first.confirmation == op.voters.first.confirmation
            &&& head.voters.second.confirmation == op.voters.second.confirmation
            &&& head.voters.third.confirmation == op.voters.third.confirmation
        }),
{
    reveal(journal_rules::prepare);
    reveal(journal_rules::prepare_admitted);
    reveal(journal_rules::displaced);
    reveal(journal_rules::superseded);
    reveal(journal_rules::prepared_row);
    reveal(journal_rules::prepared_head);
    reveal(journal_rules::marked);
    reveal(journal_rules::marked_target);
    reveal(journal_rules::awaited_phase);
    reveal(journal_rules::stops_expired);
    reveal(journal_rules::expired_route);
    reveal(journal_rules::asks_for);
    reveal(journal_rules::replaced);
    reveal(activation_rules::activate_command);
    reveal(activation_rules::activation_of);
    reveal(rules::completion_route_retry);
    reveal(rules::phase);
    reveal(rules::voter);
}

/// A dispatch that the phase admits is prepared where nothing is pending, its identity is
/// free and its number is the next.
pub proof fn lemma_prepare_owed(
    s: StateView,
    op: RecoveryRecord,
    id: u128,
    input: Dispatch,
    a: RecoveryAuthorization,
)
    requires
        !s.recovery.phases.dom().contains(id),
        id != 0,
        op.phase != RecoveryPhase::Finished,
        op.phase != RecoveryPhase::Stopped,
        op.phase != RecoveryPhase::Complete,
        op.pending_phase is None,
        op.next_phase_sequence < u64::MAX,
        journal_rules::input_admitted(s, op, id, input, a) is Ok,
    ensures
        journal_rules::prepare(s, op, id, op.next_phase_sequence, None, input, a) is Ok,
{
    reveal(journal_rules::prepare);
    reveal(journal_rules::prepare_admitted);
    reveal(journal_rules::displaced);
    reveal(journal_rules::superseded);
    reveal(rules::prepared_scope);
}

// ---------------------------------------------------------------------
// Answers
// ---------------------------------------------------------------------

/// Whether the voters differ in nothing but what became of the `k`th.
pub open spec fn only_voter(before: Voters, after: Voters, k: int, v: Voter) -> bool {
    &&& 0 <= k < 3
    &&& voters_of(after)[k] == v
    &&& forall|j: int| 0 <= j < 3 && j != k ==> #[trigger] voters_of(after)[j] == voters_of(before)[j]
}

proof fn lemma_replaced(voters: Voters, k: int, v: Voter)
    requires
        voters.ascend(),
        0 <= k < 3,
    ensures
        only_voter(
            voters,
            journal_rules::replaced(voters, voters_of(voters)[k].node_id, v),
            k,
            v,
        ),
        rules::voter(voters, voters_of(voters)[k].node_id) == Some(voters_of(voters)[k]),
{
    reveal(journal_rules::replaced);
    reveal(rules::voter);
}

/// Where a target's acknowledgement leads. It marks the voter that gave it and no other,
/// under the phase that asked for it; the last materialization leads on to the
/// initialization, that to the completion, that to the retirement of a source that is
/// there and else to its fence, the last confirmation to the publication, and the last
/// cleanup to the end.
pub proof fn lemma_target_answered(
    s: StateView,
    op: RecoveryRecord,
    prepared: PhaseRecord,
    response: crate::held::Held<crate::model::TargetResponse>,
    k: int,
)
    requires
        op.voters.ascend(),
        0 <= k < 3,
        prepared.input is Target,
        prepared.input->Target_node_id == voters_of(op.voters)[k].node_id,
        journal_rules::advance(s, op, prepared, DispatchOutcome::Target(response)) is Ok,
    ensures
        ({
            let (head, closed) = journal_rules::advance(
                s,
                op,
                prepared,
                DispatchOutcome::Target(response),
            )->Ok_0;
            let v = voters_of(op.voters)[k];
            let id = prepared.phase_id;
            &&& closed is None
            &&& head.request == op.request
            &&& head.pending_phase == op.pending_phase
            &&& head.stop_request == op.stop_request
            &&& match response@.outcome {
                TargetOutcome::Materialized(_) => {
                    &&& only_voter(
                        op.voters,
                        head.voters,
                        k,
                        Voter { materialization: Some(id), ..v },
                    )
                    &&& (forall|j: int|
                        0 <= j < 3 ==> (#[trigger] voters_of(
                            head.voters,
                        )[j]).materialization is Some) ==> head.phase == RecoveryPhase::Initialize
                        && head.current_intent is None
                    &&& (exists|j: int|
                        0 <= j < 3 && (#[trigger] voters_of(
                            head.voters,
                        )[j]).materialization is None) ==> head.phase == op.phase
                        && head.current_intent == op.current_intent
                },
                TargetOutcome::Started { .. } => {
                    &&& only_voter(op.voters, head.voters, k, Voter { started: Some(id), ..v })
                    &&& head.phase == op.phase
                    &&& head.current_intent == op.current_intent
                },
                TargetOutcome::Initialized { .. } => {
                    &&& head.voters == op.voters
                    &&& head.initialization == Some(id)
                    &&& head.current_intent is None
                    &&& head.phase == RecoveryPhase::Complete
                },
                TargetOutcome::PreparedCompletion(_) => {
                    &&& head.voters == op.voters && head.phase == op.phase
                    &&& head.completion_preparation == if op.completion_preparation is Some {
                        op.completion_preparation
                    } else {
                        Some(id)
                    }
                },
                TargetOutcome::CompletionAttemptStatus(_) => {
                    &&& head.voters == op.voters && head.phase == op.phase
                    &&& head.completion_preparation == if op.completion_preparation is Some {
                        op.completion_preparation
                    } else {
                        Some(id)
                    }
                },
                TargetOutcome::ResolvedCompletion(_) => {
                    &&& head.voters == op.voters && head.phase == op.phase
                    &&& head.completion_terminal == if op.completion_terminal is Some {
                        op.completion_terminal
                    } else {
                        Some(id)
                    }
                },
                TargetOutcome::CompletionTerminalStatus(_) => {
                    &&& head.voters == op.voters && head.phase == op.phase
                    &&& head.completion_terminal == if op.completion_terminal is Some {
                        op.completion_terminal
                    } else {
                        Some(id)
                    }
                },
                TargetOutcome::Completed(_) => completes(op, head, id),
                TargetOutcome::Inspected(_) => completes(op, head, id),
                TargetOutcome::Activated(_) => {
                    &&& only_voter(op.voters, head.voters, k, Voter { confirmation: Some(id), ..v })
                    &&& (forall|j: int|
                        0 <= j < 3 ==> (#[trigger] voters_of(head.voters)[j]).confirmation is Some)
                        ==> head.phase == RecoveryPhase::Publish
                    &&& (exists|j: int|
                        0 <= j < 3 && (#[trigger] voters_of(head.voters)[j]).confirmation is None)
                        ==> head.phase == op.phase
                },
                TargetOutcome::Stopped(_) => {
                    &&& only_voter(op.voters, head.voters, k, Voter { cleanup: Some(id), ..v })
                    &&& (forall|j: int|
                        0 <= j < 3 ==> (#[trigger] voters_of(head.voters)[j]).cleanup is Some)
                        ==> head.phase == RecoveryPhase::Stopped
                    &&& (exists|j: int|
                        0 <= j < 3 && (#[trigger] voters_of(head.voters)[j]).cleanup is None)
                        ==> head.phase == op.phase
                },
            }
        }),
{
    reveal(journal_rules::advance);
    reveal(journal_rules::advanced_by_target);
    reveal(journal_rules::target_progress);
    reveal(journal_rules::materialized_progress);
    reveal(journal_rules::confirmed_progress);
    reveal(journal_rules::clean_progress);
    let v = voters_of(op.voters)[k];
    let id = prepared.phase_id;
    lemma_replaced(op.voters, k, Voter { materialization: Some(id), ..v });
    lemma_replaced(op.voters, k, Voter { started: Some(id), ..v });
    lemma_replaced(op.voters, k, Voter { confirmation: Some(id), ..v });
    lemma_replaced(op.voters, k, Voter { cleanup: Some(id), ..v });
    let (head, closed) = journal_rules::advance(
        s,
        op,
        prepared,
        DispatchOutcome::Target(response),
    )->Ok_0;
    assert(voters_of(head.voters)[0] == head.voters.first);
    assert(voters_of(head.voters)[1] == head.voters.second);
    assert(voters_of(head.voters)[2] == head.voters.third);
}

/// Whether the head is completed under the phase, and goes on with its source.
pub open spec fn completes(op: RecoveryRecord, head: RecoveryRecord, id: u128) -> bool {
    &&& head.voters == op.voters
    &&& head.completion == Some(id)
    &&& head.current_intent is None
    &&& op.request.source_mode is Planned ==> head.phase == RecoveryPhase::RetireSource
    &&& op.request.source_mode is SourceUnavailable ==> head.phase == RecoveryPhase::FenceSource
}

/// Where an issuer's answer leads. A rejection leaves the operation as it was. A prepared
/// target is materialized, a stopped one cleaned up, a fenced source lets the target be
/// activated; a committed activation is confirmed by its voters, and a stop of it leads
/// there too where the activation had been committed before, and else to where the
/// operation was going: to its target's stop if it was asked to stop, and to another
/// activation if not.
pub proof fn lemma_issuer_answered(
    s: StateView,
    op: RecoveryRecord,
    prepared: PhaseRecord,
    signed: crate::held::Held<crate::model::SignedReceipt>,
)
    requires
        prepared.input is Authority,
        journal_rules::advance(s, op, prepared, DispatchOutcome::Authority(signed)) is Ok,
    ensures
        ({
            let (head, closed) = journal_rules::advance(
                s,
                op,
                prepared,
                DispatchOutcome::Authority(signed),
            )->Ok_0;
            let id = prepared.phase_id;
            let outcome = signed@.receipt.outcome;
            &&& closed is None
            &&& head.voters == op.voters
            &&& head.request == op.request
            &&& outcome is Rejected ==> head == op
            &&& outcome !is Rejected ==> match prepared.phase {
                RecoveryPhase::Prepare => head.issuer_preparation == Some(id) && head.phase
                    == RecoveryPhase::Materialize,
                RecoveryPhase::StopTarget => head.target_stop == Some(id) && head.phase
                    == RecoveryPhase::Cleanup && head.current_intent is None,
                RecoveryPhase::FenceSource => head.source_fence == Some(id) && head.phase
                    == RecoveryPhase::Activate && head.current_intent is None,
                RecoveryPhase::Activate => {
                    &&& head.current_intent is None
                    &&& outcome is Activated ==> head.activation == Some(id) && head.phase
                        == RecoveryPhase::Confirm
                    &&& outcome !is Activated ==> outcome is ActivationStopped && head.activation
                        == op.activation && head.phase == op.phase
                },
                RecoveryPhase::StopActivation => {
                    &&& head.current_intent is None
                    &&& outcome is ActivationResolved
                    &&& prepared.input->Authority_0@.action is StopActivation
                    &&& outcome->ActivationResolved_original@.outcome is Activated ==> head.phase
                        == RecoveryPhase::Confirm && head.activation == Some(
                        prepared.input->Authority_0@.action->StopActivation_original@.command_id,
                    )
                    &&& outcome->ActivationResolved_original@.outcome !is Activated ==> head.phase
                        == if op.stop_request is Some {
                        RecoveryPhase::StopTarget
                    } else {
                        RecoveryPhase::Activate
                    } && head.activation == op.activation
                },
                _ => false,
            }
        }),
{
    reveal(journal_rules::advance);
    reveal(journal_rules::advanced_by_issuer);
    reveal(journal_rules::authority_progress);
    reveal(journal_rules::activated_progress);
    reveal(journal_rules::stopped_activation_progress);
}

/// Where the other answers lead: a committed intent is the current one, and the target's
/// original one where it materializes it; a retired source is fenced; a published route
/// ends the recovery, and a rejected one leaves it as it was.
pub proof fn lemma_others_answered(
    s: StateView,
    op: RecoveryRecord,
    prepared: PhaseRecord,
    outcome: DispatchOutcome,
)
    requires
        journal_rules::advance(s, op, prepared, outcome) is Ok,
    ensures
        ({
            let (head, closed) = journal_rules::advance(s, op, prepared, outcome)->Ok_0;
            let id = prepared.phase_id;
            &&& outcome is ControlIntent ==> {
                &&& prepared.input is ControlIntent
                &&& head.current_intent == Some(id)
                &&& head.phase == op.phase
                &&& head.voters == op.voters
                &&& prepared.input->ControlIntent_0@.phase == LifecyclePhase::Materialize
                    ==> head.materialization_intent == Some(id)
                &&& prepared.input->ControlIntent_0@.phase != LifecyclePhase::Materialize
                    ==> head.materialization_intent == op.materialization_intent
                &&& prepared.input->ControlIntent_0@.phase == LifecyclePhase::Complete
                    ==> head.completion_intent == Some(id) && head.completion_preparation is None
                    && head.completion_terminal is None && head.completion_attempt is None
                &&& prepared.input->ControlIntent_0@.phase != LifecyclePhase::Complete
                    ==> closed is None && head.completion_intent == op.completion_intent
            }
            &&& outcome is SourceRetired ==> prepared.input is RetireSource && closed is None
                && head == (RecoveryRecord {
                retirement: Some(id),
                phase: RecoveryPhase::FenceSource,
                ..op
            })
            &&& outcome is RoutePublished ==> prepared.input is PublishRoute && closed is None
                && head == (RecoveryRecord {
                route_publication: Some(id),
                phase: RecoveryPhase::Finished,
                ..op
            })
            &&& outcome is RouteRejected ==> prepared.input is PublishRoute && closed is None
                && head == op
            &&& outcome !is RouteSuperseded
            &&& outcome !is AuthorityResolution
        }),
{
    reveal(journal_rules::advance);
    reveal(journal_rules::control_progress);
    reveal(journal_rules::advanced_by_retirement);
    reveal(journal_rules::advanced_by_route);
    reveal(rules::install);
}

/// An outcome is retained as it is, under the phase that asked for it, which is then no
/// longer pending; only what was pending can be answered, and not twice.
pub proof fn lemma_resolved(
    s: StateView,
    op: RecoveryRecord,
    id: u128,
    outcome: DispatchOutcome,
)
    requires
        is_phase(s, op, id),
        s.recovery.phases[id].outcome is None,
        s.recovery.phases[id].phase_id == id,
        journal_rules::resolve(s, op, id, outcome) is Ok,
    ensures
        ({
            let (next, head) = journal_rules::resolve(s, op, id, outcome)->Ok_0;
            &&& op.pending_phase == Some(id)
            &&& s.recovery.phases[id].input !is PublishRoute
            &&& head.pending_phase is None
            &&& head.updated_revision == s.revision
            &&& next.recovery.operations == s.recovery.operations.insert(
                head.request.operation_id,
                head,
            )
            &&& journal_rules::outcome_admitted(s, op, s.recovery.phases[id], outcome) is Ok
            &&& next.recovery.phases[id].outcome == Some(outcome)
            &&& next.recovery.phases[id].input == s.recovery.phases[id].input
            &&& forall|k: u128| #[trigger]
                s.recovery.phases.dom().contains(k) && s.recovery.phases[k].outcome is Some
                    ==> next.recovery.phases.dom().contains(k) && next.recovery.phases[k].outcome
                    == s.recovery.phases[k].outcome
        }),
{
    reveal(journal_rules::resolve);
    reveal(journal_rules::resolve_pending);
    reveal(rules::phase);
    let prepared = s.recovery.phases[id];
    crate::recovery_laws::lemma_settled(s, op, id, prepared, outcome);
}

// ---------------------------------------------------------------------
// The route
// ---------------------------------------------------------------------

/// Whether the topology has the node where it was placed: at the same endpoint, in the
/// same failure domain, and trusting its certificate.
pub open spec fn stands(topology: TopologyView, node: Node, placement: Placement) -> bool {
    &&& topology.nodes.dom().contains(node.node_id as u128)
    &&& ({
        let installed = topology.nodes[node.node_id as u128];
        &&& placement.endpoint_origin == Some(installed.endpoint)
        &&& installed.failure_domain == placement.failure_domain
        &&& installed.first_pin == Some(node.certificate_sha256) || installed.second_pin == Some(
            node.certificate_sha256,
        )
    })
}

/// Whether the route is the tenant's, the first of it.
pub open spec fn is_route(topology: TopologyView, tenant: crate::digest::Name, at: int) -> bool {
    &&& 0 <= at < topology.routes.len()
    &&& topology.routes[at].tenant == tenant
    &&& forall|i: int| 0 <= i < at ==> (#[trigger] topology.routes[i]).tenant != tenant
}

proof fn lemma_route(routes: Seq<TenantRouteView>, tenant: crate::digest::Name, i: int)
    requires
        0 <= i <= routes.len(),
    ensures
        match activation_rules::route_at(routes, tenant, i) {
            None => forall|j: int| i <= j < routes.len() ==> (#[trigger] routes[j]).tenant
                != tenant,
            Some(at) => {
                &&& i <= at < routes.len()
                &&& routes[at].tenant == tenant
                &&& forall|j: int| i <= j < at ==> (#[trigger] routes[j]).tenant != tenant
            },
        },
    decreases routes.len() - i,
{
    if i < routes.len() {
        lemma_route(routes, tenant, i + 1);
    }
}

/// A route is planned exactly where the issuer has chosen the target, every voter has
/// confirmed, the installed topology is of its form and still routes the tenant to the
/// replicated source, and every target node stands in it where it was placed. It leads
/// from the source to the target and its voters, and is bound to that topology.
pub proof fn lemma_route_planned(s: StateView, op: RecoveryRecord, at: int)
    requires
        s.topology is Some,
        is_route(s.topology->0, op.request.tenant, at),
    ensures
        ({
            let topology = s.topology->0;
            let r = activation_rules::next_route(s, op);
            &&& r is Ok <==> {
                &&& activation_rules::winner(s, op) is Ok
                &&& forall|k: int|
                    0 <= k < 3 ==> (#[trigger] voters_of(op.voters)[k]).confirmation is Some
                &&& topology.form_refusal is None
                &&& topology.routes[at].incarnation == op.request.source_incarnation
                &&& topology.routes[at].replicated
                &&& stands(topology, op.request.target_nodes.first, op.request.placements.first)
                &&& stands(topology, op.request.target_nodes.second, op.request.placements.second)
                &&& stands(topology, op.request.target_nodes.third, op.request.placements.third)
            }
            &&& r matches Ok(change) ==> {
                &&& change.expected_topology_version == topology.version
                &&& change.expected_source_incarnation == op.request.source_incarnation
                &&& change.target_incarnation == op.request.target_incarnation
                &&& change.first_voter == op.voters.first.node_id
                &&& change.second_voter == op.voters.second.node_id
                &&& change.third_voter == op.voters.third.node_id
            }
        }),
{
    reveal(activation_rules::next_route);
    reveal(activation_rules::source_route);
    reveal(activation_rules::all_approved);
    reveal(activation_rules::approved);
    let topology = s.topology->0;
    lemma_route(topology.routes, op.request.tenant, 0);
    let found = activation_rules::route_at(topology.routes, op.request.tenant, 0)->0;
    assert(topology.routes[found].tenant == op.request.tenant);
    assert(topology.routes[at].tenant == op.request.tenant);
    assert(found == at);
    assert(voters_of(op.voters)[0] == op.voters.first);
    assert(voters_of(op.voters)[1] == op.voters.second);
    assert(voters_of(op.voters)[2] == op.voters.third);
}

/// A publication takes effect only on the topology that it was planned on, and is
/// rejected by any other with what was observed. It then moves the tenant's route to the
/// target and its three voters, and nothing else of the topology but its version.
pub proof fn lemma_route_published(s: StateView, op: RecoveryRecord, input: RouteChange)
    requires
        activation_rules::published(s, op, input) is Ok,
    ensures
        ({
            let outcome = activation_rules::published(s, op, input)->Ok_0;
            let after = activation_rules::rerouted(s, op, input);
            let observed = match s.topology {
                None => None::<u64>,
                Some(topology) => Some(topology.version),
            };
            &&& observed != Some(input.expected_topology_version) ==> outcome
                == (DispatchOutcome::RouteRejected { observed_topology_version: observed })
            &&& observed == Some(input.expected_topology_version) ==> {
                &&& outcome == DispatchOutcome::RoutePublished { revision: s.revision }
                &&& activation_rules::next_route(s, op) == Ok::<RouteChange, Error>(input)
                &&& after == (StateView { topology: after.topology, ..s })
                &&& after.topology is Some
                &&& exists|at: int| #[trigger]
                    is_route(s.topology->0, op.request.tenant, at) && moves_only(
                        s.topology->0,
                        after.topology->0,
                        op,
                        s.revision,
                        at,
                    )
            }
        }),
{
    reveal(activation_rules::published);
    if activation_rules::published(s, op, input)->Ok_0 is RoutePublished {
        reveal(activation_rules::next_route);
        reveal(activation_rules::source_route);
        let topology = s.topology->0;
        lemma_route(topology.routes, op.request.tenant, 0);
        let at = activation_rules::route_at(topology.routes, op.request.tenant, 0)->0;
        assert(is_route(topology, op.request.tenant, at));
        let after = activation_rules::rerouted(s, op, input).topology->0;
        assert(moves_only(topology, after, op, s.revision, at));
    }
}

/// Whether the topologies differ in nothing but the version and the `at`th route, which
/// leads to the operation's target.
pub open spec fn moves_only(
    before: TopologyView,
    after: TopologyView,
    op: RecoveryRecord,
    revision: u64,
    at: int,
) -> bool {
    &&& after.version == revision
    &&& after.nodes == before.nodes
    &&& after.form_refusal == before.form_refusal
    &&& after.routes.len() == before.routes.len()
    &&& forall|i: int|
        0 <= i < before.routes.len() && i != at ==> #[trigger] after.routes[i] == before.routes[i]
    &&& after.routes[at].tenant == op.request.tenant
    &&& after.routes[at].incarnation == op.request.target_incarnation
    &&& after.routes[at].replicated
    &&& after.routes[at].voters == seq![
        op.voters.first.node_id,
        op.voters.second.node_id,
        op.voters.third.node_id,
    ]
}

/// A pending publication ends as the topology decides: published, the recovery is finished
/// and its tenant is served by the target; rejected, the topology stays as it is and the
/// recovery goes on to publish again. Either is retained as the phase's outcome.
pub proof fn lemma_publication(s: StateView, op: RecoveryRecord, id: u128, now: u64)
    requires
        is_phase(s, op, id),
        s.recovery.phases[id].phase_id == id,
        s.recovery.phases[id].outcome is None,
        journal_rules::publish(s, op, id, now) is Ok,
    ensures
        ({
            let (next, head) = journal_rules::publish(s, op, id, now)->Ok_0;
            let row = s.recovery.phases[id];
            &&& row.input is PublishRoute
            &&& op.phase == RecoveryPhase::Publish
            &&& op.pending_phase == Some(id)
            &&& head.pending_phase is None
            &&& now < row.original_credential_expires_at_ms
            &&& now < row.admitted_at_ms + op.request.phase_timeout_ms
            &&& activation_rules::published(s, op, row.input->PublishRoute_0) is Ok
            &&& ({
                let outcome = activation_rules::published(s, op, row.input->PublishRoute_0)->Ok_0;
                &&& next.recovery.phases[id].outcome == Some(outcome)
                &&& next.recovery.phases[id].resolved_revision == Some(s.revision)
                &&& outcome is RoutePublished ==> head.phase == RecoveryPhase::Finished
                    && head.route_publication == Some(id) && next.topology
                    == activation_rules::rerouted(s, op, row.input->PublishRoute_0).topology
                &&& outcome !is RoutePublished ==> head.phase == op.phase && head.route_publication
                    == op.route_publication && next.topology == s.topology
            })
            &&& forall|k: u128|
                k != id && s.recovery.phases.dom().contains(k) ==> #[trigger] next.recovery.phases[k]
                    == s.recovery.phases[k]
        }),
{
    reveal(journal_rules::publish);
    reveal(journal_rules::publish_pending);
    reveal(journal_rules::publication_eligible);
    reveal(journal_rules::advance);
    reveal(journal_rules::advanced_by_route);
    reveal(activation_rules::published);
    reveal(rules::dispatch_limit);
    reveal(rules::phase);
}

} // verus!
