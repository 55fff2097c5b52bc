//! What a recovery sends and what it takes for an answer: a dispatch that is admitted is
//! the next of its phase and in time, and an outcome that is admitted is the authentic
//! answer to exactly what was sent.
use vstd::prelude::*;

use crate::activation_rules;
use crate::encoding;
use crate::errors::Error;
use crate::journal_rules;
use crate::model::{
    AuthorityAction, AuthorityCommand, AuthorityOutcome, Dispatch, DispatchOutcome,
    LifecycleIntent, LifecyclePhase, Partition, PhaseRecord, RecoveryAuthorization, RecoveryPhase,
    RecoveryRecord, RecoveryTarget, RetireSourceRequest, SignedActivation, SourceMode,
    TargetOrigin, TargetOutcome, TargetStep, Voter,
};
use crate::planner_laws;
use crate::planner_laws::{
    committed, everyone_started, has_started, is_phase, nobody_confirmed, voters_of,
};
use crate::receiver_rules;
use crate::rules;
use crate::views::StateView;

verus! {

broadcast use {crate::held::lemma_held, crate::held::lemma_reheld};

/// Whether the target is the one that the recovery was started for.
pub open spec fn is_target(op: RecoveryRecord, target: RecoveryTarget) -> bool {
    &&& target.incarnation == op.request.target_incarnation
    &&& target.checkpoint == op.request.checkpoint
    &&& target.nodes == op.request.target_nodes
}

/// Whether a dispatch that is sent now ends behind it, and no later than its timeout and
/// the credential that admits it.
pub open spec fn in_time(op: RecoveryRecord, a: RecoveryAuthorization, not_after_ms: u64) -> bool {
    &&& a.admitted_at_ms < not_after_ms
    &&& not_after_ms <= a.expires_at_ms
    &&& not_after_ms <= a.admitted_at_ms + op.request.phase_timeout_ms
}

/// An issuer command that is admitted is the one of its phase: to prepare, to stop or to
/// activate the recovery's own target, to fence its source, or to stop its activation;
/// under the dispatch's identity and the authority's epoch, and in time. A new activation
/// and a stop of the target wait until a former activation was refused for good.
pub proof fn lemma_issuer_command(
    s: StateView,
    op: RecoveryRecord,
    id: u128,
    command: crate::held::Held<AuthorityCommand>,
    a: RecoveryAuthorization,
)
    requires
        journal_rules::input_admitted(s, op, id, Dispatch::Authority(command), a) is Ok,
    ensures
        a.input_bytes <= a.max_record_bytes / 2,
        command@.tenant == op.request.tenant,
        command@.command_id == id,
        command@.expected_policy_epoch == op.request.authority_policy_epoch,
        in_time(op, a, command@.not_after_ms),
        match op.phase {
            RecoveryPhase::Prepare => command@.action matches AuthorityAction::PrepareTarget {
                source_incarnation,
                source_epoch,
                target,
            } && source_incarnation == op.request.source_incarnation && source_epoch
                == op.request.source_authority_epoch && is_target(op, target),
            RecoveryPhase::StopTarget => command@.action matches AuthorityAction::StopTarget {
                source_incarnation,
                source_epoch,
                target,
            } && source_incarnation == op.request.source_incarnation && source_epoch
                == op.request.source_authority_epoch && is_target(op, target),
            RecoveryPhase::FenceSource => command@.action == (AuthorityAction::Fence {
                incarnation: op.request.source_incarnation,
                authority_epoch: op.request.source_authority_epoch,
            }),
            RecoveryPhase::Activate => command@.action matches AuthorityAction::ActivateCommitted(
                activation,
            ) && is_target(op, activation@.target),
            RecoveryPhase::StopActivation => command@.action is StopActivation,
            _ => false,
        },
        (op.phase == RecoveryPhase::Activate || op.phase == RecoveryPhase::StopTarget)
            && op.activation_attempt is Some ==> refused_for_good(s, op),
{
    reveal(journal_rules::input_admitted);
    reveal(journal_rules::authority_input);
    reveal(journal_rules::negative_before);
    reveal(journal_rules::expected_action);
    reveal(activation_rules::issuer_action);
    reveal(activation_rules::current_action);
    reveal(activation_rules::action_for_intent);
    reveal(activation_rules::committed_activation_input);
    reveal(activation_rules::activation_input);
    reveal(activation_rules::stop_action);
    reveal(activation_rules::require_negative_attempt);
    reveal(activation_rules::attempt);
    reveal(activation_rules::activate_command);
    reveal(rules::target);
    reveal(rules::phase_of);
    reveal(rules::phase);
}

/// Whether the operation's activation was answered, and not with an activation.
pub open spec fn refused_for_good(s: StateView, op: RecoveryRecord) -> bool {
    &&& op.activation_attempt is Some
    &&& is_phase(s, op, op.activation_attempt->0)
    &&& s.recovery.phases[op.activation_attempt->0].outcome is Some
    &&& ({
        let answer = activation_rules::original_receipt(
            s.recovery.phases[op.activation_attempt->0].outcome->0,
        );
        answer is Ok && (answer->Ok_0.outcome is Rejected
            || answer->Ok_0.outcome is ActivationStopped)
    })
}

/// An intent that is admitted is the next of the operation's phase, of the recovery's own
/// source and target, under the dispatch's identity and the caller's policy epoch.
pub proof fn lemma_control_intent(
    s: StateView,
    op: RecoveryRecord,
    id: u128,
    request: crate::held::Held<crate::model::IntentRequest>,
    a: RecoveryAuthorization,
)
    requires
        journal_rules::input_admitted(s, op, id, Dispatch::ControlIntent(request), a) is Ok,
    ensures
        request@.command_id == id,
        request@.expected_policy_epoch == a.policy_epoch,
        request@.tenant == op.request.tenant,
        request@.source_incarnation == op.request.source_incarnation,
        request@.source_authority_epoch == op.request.source_authority_epoch,
        request@.target_incarnation == op.request.target_incarnation,
        request@.checkpoint == op.request.checkpoint,
        request@.target_nodes == op.request.target_nodes,
        request@.installation_sha256 == op.request.installation_sha256,
        request@.authority_partition == op.request.authority_partition,
        match op.phase {
            RecoveryPhase::Activate => request@.phase == LifecyclePhase::Activate,
            RecoveryPhase::Confirm => request@.phase == LifecyclePhase::Activate,
            RecoveryPhase::Initialize => request@.phase == LifecyclePhase::Initialize,
            RecoveryPhase::Cleanup => request@.phase == LifecyclePhase::StopLocal,
            RecoveryPhase::Materialize => request@.phase == if op.materialization_intent is None {
                LifecyclePhase::Materialize
            } else {
                LifecyclePhase::ResumeMaterialize
            },
            RecoveryPhase::Complete => op.completion_intent is None ==> request@.phase
                == LifecyclePhase::Complete,
            _ => false,
        },
        request@.phase == LifecyclePhase::Materialize ==> request@.phase_input_sha256
            == op.request.materialization.sha256,
        request@.resume_origin is Some ==> request@.phase == LifecyclePhase::ResumeMaterialize,
{
    reveal(journal_rules::input_admitted);
    reveal(journal_rules::control_input);
    reveal(journal_rules::next_control_phase);
    reveal(journal_rules::expected_intent);
    reveal(journal_rules::phase_input);
}

/// A target step that is admitted goes to a voter that has still to take it, under the
/// operation's current intent and in time: an unmaterialized voter materializes, one that
/// is not cleaned up stops. While voters confirm, one that has not started is started; the
/// first activation waits for all to have started and none to have confirmed; and a
/// confirmation goes to a voter that has not confirmed, once all have started and one has.
pub proof fn lemma_target_step(
    s: StateView,
    op: RecoveryRecord,
    id: u128,
    node_id: u64,
    request: crate::held::Held<crate::model::TargetRequest>,
    a: RecoveryAuthorization,
    current: LifecycleIntent,
)
    requires
        op.voters.ascend(),
        journal_rules::input_admitted(s, op, id, Dispatch::Target { node_id, request }, a) is Ok,
        op.current_intent is Some ==> committed(s, op, op.current_intent->0, current),
    ensures
        op.current_intent is Some,
        request@.tenant == op.request.tenant,
        request@.command_id == current.request.command_id,
        in_time(op, a, request@.not_after_ms),
        request@.not_after_ms <= current.original_credential_expires_at_ms,
        a.admitted_at_ms < current.original_credential_expires_at_ms,
        exists|k: int|
            0 <= k < 3 && (#[trigger] voters_of(op.voters)[k]).node_id == node_id && takes(
                s,
                op,
                voters_of(op.voters)[k],
                request@.step,
                current.request.command_id,
            ),
{
    reveal(journal_rules::input_admitted);
    reveal(journal_rules::target_input);
    reveal(journal_rules::target_deadline);
    reveal(journal_rules::admitted_target_step);
    reveal(journal_rules::materialize_step);
    reveal(journal_rules::cleanup_step);
    reveal(journal_rules::complete_step);
    reveal(receiver_rules::quorum_step);
    reveal(activation_rules::step);
    reveal(activation_rules::first_activation_admitted);
    reveal(activation_rules::confirmation_admitted);
    reveal(rules::all_started);
    reveal(rules::voter);
    reveal(rules::intent_of);
    planner_laws::lemma_live(s, op, current, a.admitted_at_ms);
    planner_laws::lemma_proof_retained(s, op);
    let voters = voters_of(op.voters);
    let k: int = if node_id == voters[0].node_id {
        0
    } else if node_id == voters[1].node_id {
        1
    } else {
        2
    };
    assert(voters[k].node_id == node_id);
    let command = current.request.command_id;
    if op.phase == RecoveryPhase::Confirm {
        if request@.step is StartActivation {
            planner_laws::lemma_started(s, op, command, k);
        } else {
            planner_laws::lemma_started(s, op, command, 0);
            planner_laws::lemma_started(s, op, command, 1);
            planner_laws::lemma_started(s, op, command, 2);
        }
    }
}

/// Whether the voter has still to take the step.
pub open spec fn takes(
    s: StateView,
    op: RecoveryRecord,
    v: Voter,
    step: TargetStep,
    command: u128,
) -> bool {
    match op.phase {
        RecoveryPhase::Materialize => v.materialization is None && (
        step is ResumeMaterialization || step == TargetStep::Materialize(
            op.request.materialization,
        )),
        RecoveryPhase::Cleanup => v.cleanup is None && step is Stop,
        RecoveryPhase::Confirm => {
            ||| step is StartActivation && !has_started(s, op, v, command)
            ||| step is Activate && everyone_started(s, op, command) && nobody_confirmed(op.voters)
            ||| step is ConfirmActivation && everyone_started(s, op, command)
                && v.confirmation is None && !nobody_confirmed(op.voters)
        },
        RecoveryPhase::Initialize => step is Start || step is Initialize,
        RecoveryPhase::Complete => true,
        _ => false,
    }
}

/// A publication that is admitted is the one that the current topology plans, and a
/// retirement the one that a planned recovery was started with, in time.
pub proof fn lemma_local_dispatch(
    s: StateView,
    op: RecoveryRecord,
    id: u128,
    input: Dispatch,
    a: RecoveryAuthorization,
)
    requires
        journal_rules::input_admitted(s, op, id, input, a) is Ok,
    ensures
        input matches Dispatch::PublishRoute(change) ==> op.phase == RecoveryPhase::Publish
            && activation_rules::next_route(s, op) == Ok::<crate::model::RouteChange, Error>(change)
            && change.expected_topology_version != 0,
        input matches Dispatch::RetireSource(request) ==> op.phase == RecoveryPhase::RetireSource
            && op.request.source_mode == (SourceMode::Planned { retirement: request }) && in_time(
            op,
            a,
            request.not_after_ms,
        ),
{
    reveal(journal_rules::input_admitted);
    reveal(journal_rules::publication_input);
    reveal(journal_rules::retirement_input);
    reveal(activation_rules::retirement_request);
    reveal(activation_rules::route_input);
}

// ---------------------------------------------------------------------
// Outcomes
// ---------------------------------------------------------------------

/// Whether the receipt is the issuer's own for exactly the command.
pub open spec fn is_receipt(
    issuer: Partition,
    command: AuthorityCommand,
    receipt: crate::model::AuthorityReceipt,
) -> bool {
    &&& receipt.command == command
    &&& receipt.authority_id == issuer.authority_id
    &&& receipt.manifest_digest == issuer.manifest_sha256
    &&& receipt.partition == issuer.partition
    &&& receipt.term != 0
    &&& receipt.revision != 0
    &&& receipt.command_digest == encoding::labelled(encoding::ISSUER_COMMAND, command)
}

/// An issuer's answer is taken only as its authentic receipt for exactly the command that
/// was sent, of the partition that the recovery was started under. Where it does not
/// reject the command, it did what was asked: it prepared or stopped the very target,
/// fenced the very source, or answered the activation in time; and the authority's epoch
/// goes up by one.
pub proof fn lemma_issuer_outcome(
    s: StateView,
    op: RecoveryRecord,
    prepared: PhaseRecord,
    signed: crate::held::Held<crate::model::SignedReceipt>,
)
    requires
        prepared.input is Authority,
        journal_rules::outcome_admitted(s, op, prepared, DispatchOutcome::Authority(signed)) is Ok,
    ensures
        ({
            let command = prepared.input->Authority_0@;
            let receipt = signed@.receipt;
            &&& signed@.authentic
            &&& rules::partition(s, op) is Ok
            &&& is_receipt(rules::partition(s, op)->Ok_0, command, receipt)
            &&& receipt.outcome !is Rejected ==> match command.action {
                AuthorityAction::PrepareTarget { source_incarnation, source_epoch, target } => {
                    &&& receipt.admitted_at_ms < command.not_after_ms
                    &&& receipt.outcome is TargetPrepared
                    &&& receipt.outcome->TargetPrepared_target == target
                    &&& receipt.outcome->TargetPrepared_authority_epoch
                        == op.request.source_authority_epoch + 1
                },
                AuthorityAction::StopTarget { source_incarnation, source_epoch, target } => {
                    &&& receipt.admitted_at_ms < command.not_after_ms
                    &&& receipt.outcome == (AuthorityOutcome::TargetStopped {
                        source_incarnation,
                        source_epoch,
                        target,
                    })
                },
                AuthorityAction::Fence { incarnation, authority_epoch } => {
                    &&& receipt.admitted_at_ms < command.not_after_ms
                    &&& receipt.outcome == (AuthorityOutcome::Fenced {
                        incarnation,
                        authority_epoch,
                    })
                },
                AuthorityAction::ActivateCommitted(activation) => {
                    ||| receipt.outcome is ActivationStopped
                    ||| {
                        &&& receipt.outcome is Activated
                        &&& receipt.outcome->Activated_target == activation@.target
                        &&& receipt.outcome->Activated_authority_epoch
                            == op.request.source_authority_epoch + 1
                        &&& receipt.admitted_at_ms < command.not_after_ms
                    }
                },
                AuthorityAction::StopActivation { original } => {
                    &&& receipt.outcome is ActivationResolved
                    &&& receipt.admitted_at_ms < command.not_after_ms
                    &&& receipt.outcome->ActivationResolved_original@.revision <= receipt.revision
                },
            }
        }),
{
    reveal(journal_rules::outcome_admitted);
    reveal(journal_rules::authority_dispatch_outcome);
    reveal(journal_rules::authority_outcome);
    reveal(journal_rules::issuer_answer);
    reveal(journal_rules::issuer_effect);
    reveal(activation_rules::receipt_identity);
    reveal(activation_rules::original_answer);
    reveal(activation_rules::activation_in_time);
    reveal(activation_rules::next_epoch);
    reveal(activation_rules::resolution);
    reveal(activation_rules::resolved_original);
    reveal(activation_rules::command_of);
}

/// A committed intent is taken only as the very one that Control retains for exactly the
/// request, accepted behind the dispatch and within its time.
pub proof fn lemma_control_outcome(
    s: StateView,
    op: RecoveryRecord,
    prepared: PhaseRecord,
    outcome: DispatchOutcome,
)
    requires
        prepared.input is ControlIntent,
        journal_rules::outcome_admitted(s, op, prepared, outcome) is Ok,
    ensures
        outcome is ControlIntent,
        ({
            let request = prepared.input->ControlIntent_0@;
            let actual = outcome->ControlIntent_0@;
            &&& actual.request == request
            &&& s.lifecycle is Some
            &&& s.lifecycle->0.intents.dom().contains(request.command_id)
            &&& s.lifecycle->0.intents[request.command_id] == actual
            &&& actual.accepted_at_ms >= prepared.admitted_at_ms
            &&& actual.revision >= prepared.prepared_revision
            &&& actual.original_credential_expires_at_ms
                <= prepared.original_credential_expires_at_ms
            &&& actual.original_credential_expires_at_ms <= prepared.admitted_at_ms
                + op.request.phase_timeout_ms
        }),
{
    reveal(journal_rules::outcome_admitted);
    reveal(journal_rules::control_outcome);
    reveal(rules::retained_intent);
    reveal(rules::dispatch_limit);
}

/// A target's acknowledgement is taken only from the voter that was asked, for the command
/// that it was asked under, and of the step: a materialization of the recovery's own
/// origin, a start or an initialization of its quorum, a completion or an inspection under
/// the intent, an activation that the voter itself signed and that a confirmation repeats,
/// or a cleanup under the issuer's stop. What is signed is authentic.
pub proof fn lemma_target_outcome(
    s: StateView,
    op: RecoveryRecord,
    prepared: PhaseRecord,
    response: crate::held::Held<crate::model::TargetResponse>,
)
    requires
        prepared.input is Target,
        prepared.phase != RecoveryPhase::Complete || !receiver_rules::is_step(
            prepared.input->Target_request@.step,
        ),
        journal_rules::outcome_admitted(s, op, prepared, DispatchOutcome::Target(response)) is Ok,
    ensures
        ({
            let node = prepared.input->Target_node_id;
            let request = prepared.input->Target_request@;
            let outcome = response@.outcome;
            &&& response@.node_id == node
            &&& response@.command_id == request.command_id
            &&& s.lifecycle is Some
            &&& s.lifecycle->0.intents.dom().contains(request.command_id)
            &&& ({
                let current = s.lifecycle->0.intents[request.command_id];
                match request.step {
                    TargetStep::Materialize(_) => materialized(s, op, node, outcome),
                    TargetStep::ResumeMaterialization(_) => materialized(s, op, node, outcome),
                    TargetStep::Start(_) => outcome is Started,
                    TargetStep::StartActivation { quorum, issuer_command_id } => outcome
                        == (TargetOutcome::Started { origin_sha256: quorum@.origin_sha256 }),
                    TargetStep::Initialize(input) => outcome == (TargetOutcome::Initialized {
                        origin_sha256: input@.origin_sha256,
                    }),
                    TargetStep::Inspect(input) => {
                        &&& outcome is Inspected
                        &&& outcome->Inspected_0@.authentic
                        &&& outcome->Inspected_0@.inspection_intent == current
                        &&& outcome->Inspected_0@.observer_node_id == node
                        &&& outcome->Inspected_0@.input == input@
                    },
                    TargetStep::Complete(input) => {
                        &&& outcome is Completed
                        &&& outcome->Completed_0@.authentic
                        &&& outcome->Completed_0@.observer_node_id == node
                        &&& outcome->Completed_0@.fact.completion_intent == current
                        &&& outcome->Completed_0@.fact.admitted_at_ms < request.not_after_ms
                        &&& outcome->Completed_0@.fact.predecessor == input@.predecessor
                    },
                    TargetStep::Activate { quorum, issuer_command_id } => {
                        &&& outcome is Activated
                        &&& activates(s, op, node, outcome->Activated_0@)
                    },
                    TargetStep::ConfirmActivation(expected) => {
                        &&& outcome is Activated
                        &&& activates(s, op, node, outcome->Activated_0@)
                        &&& outcome->Activated_0@.activation == expected@.activation
                        &&& outcome->Activated_0@.completion == expected@.completion
                    },
                    TargetStep::Stop(reference) => {
                        &&& outcome is Stopped
                        &&& outcome->Stopped_0@.authentic
                        &&& outcome->Stopped_0@.node_id == node
                        &&& outcome->Stopped_0@.reference == reference
                        &&& outcome->Stopped_0@.intent == current
                    },
                    _ => false,
                }
            })
        }),
{
    reveal(journal_rules::outcome_admitted);
    reveal(journal_rules::target_dispatch_outcome);
    reveal(journal_rules::target_outcome);
    reveal(rules::retained_intent);
    reveal(journal_rules::step_outcome);
    reveal(journal_rules::materialized_outcome);
    reveal(journal_rules::start_outcome);
    reveal(journal_rules::quorum_outcome);
    reveal(journal_rules::completion_start_outcome);
    reveal(journal_rules::inspection_start_outcome);
    reveal(journal_rules::inspected_outcome);
    reveal(journal_rules::completed_outcome);
    reveal(journal_rules::activated_outcome);
    reveal(journal_rules::stopped_outcome);
    reveal(receiver_rules::inspection_proof);
    reveal(activation_rules::local_activation);
    reveal(activation_rules::same_activation);
    reveal(rules::materialization_holds);
    reveal(rules::started_by);
    reveal(rules::initialized_by);
    reveal(rules::materialized_by);
    reveal(rules::completed_by);
    reveal(rules::inspected_by);
    reveal(rules::activated_by);
    reveal(rules::stopped_by);
}

/// Whether the node materialized the recovery's own origin, and signed it.
pub open spec fn materialized(
    s: StateView,
    op: RecoveryRecord,
    node: u64,
    outcome: TargetOutcome,
) -> bool {
    &&& outcome is Materialized
    &&& outcome->Materialized_0.authentic
    &&& outcome->Materialized_0.node_id == node
    &&& rules::origin(s, op) is Ok
    &&& outcome->Materialized_0.origin_sha256 == rules::origin_sha256(rules::origin(s, op)->Ok_0)
}

/// Whether the node itself signed an activation of the committed winner.
pub open spec fn activates(
    s: StateView,
    op: RecoveryRecord,
    node: u64,
    signed: SignedActivation,
) -> bool {
    &&& signed.authentic
    &&& signed.observer_node_id == node
    &&& activation_rules::winner(s, op) is Ok
    &&& signed.activation.issuer_receipt_sha256 == activation_rules::winner(s, op)->Ok_0.sha256
}

/// A retired source is taken only as the retirement that was asked for: of the tenant and
/// the source, to the target and its checkpoint, admitted in time.
pub proof fn lemma_retirement_outcome(
    s: StateView,
    op: RecoveryRecord,
    prepared: PhaseRecord,
    outcome: DispatchOutcome,
)
    requires
        prepared.input is RetireSource,
        journal_rules::outcome_admitted(s, op, prepared, outcome) is Ok,
    ensures
        outcome is SourceRetired,
        op.request.source_mode is Planned,
        ({
            let receipt = outcome->SourceRetired_0;
            let request = op.request.source_mode->Planned_retirement;
            &&& receipt.tenant == op.request.tenant
            &&& receipt.source_incarnation == request.source_incarnation
            &&& receipt.retirement_id == request.retirement_id
            &&& receipt.request_digest == request.request_digest
            &&& receipt.target_incarnation == request.target_incarnation
            &&& receipt.checkpoint == request.checkpoint
            &&& receipt.admitted_at_ms <= request.not_after_ms
        }),
{
    reveal(journal_rules::outcome_admitted);
    reveal(activation_rules::retirement);
    reveal(activation_rules::retirement_request);
}

} // verus!
