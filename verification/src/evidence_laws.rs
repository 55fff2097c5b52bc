//! What a recovery goes by: the origin of its target, the quorum that materialized it,
//! which of its voters are started and where to go next, and the issuer's decision on its
//! activation.
use vstd::prelude::*;

use crate::activation_rules;
use crate::control_laws;
use crate::control_laws::is_partition;
use crate::dispatch_laws::is_receipt;
use crate::encoding;
use crate::encoding::ACTIVATION;
use crate::errors::Error;
use crate::model::{
    ActivateCommand, AuthorityAction, AuthorityCommand, AuthorityIdentity, AuthorityOutcome,
    AuthorityReceipt, CommittedCompletion, CompletionTerminal, Dispatch, DispatchOutcome,
    LifecycleIntent, LifecyclePhase, MaterializationProof, Partition, PhaseRecord, RecoveryPhase,
    RecoveryRecord, ResolutionFact, SignedActivation, SignedReceipt, TargetOutcome, TargetStep,
    Voter,
};
use crate::planner_laws;
use crate::planner_laws::{committed, has_started, is_phase, voters_of};
use crate::rules;
use crate::views::StateView;

verus! {

broadcast use {crate::held::lemma_held, crate::held::lemma_reheld};

/// The origin of a target is the materialization intent that was committed first, the
/// manifest of the partition that the recovery was started under, and the materialization
/// that it was started with.
pub proof fn lemma_origin(s: StateView, op: RecoveryRecord)
    requires
        rules::origin(s, op) is Ok,
    ensures
        ({
            let o = rules::origin(s, op)->Ok_0;
            &&& op.materialization_intent is Some
            &&& committed(s, op, op.materialization_intent->0, o.materialization)
            &&& o.input == op.request.materialization
            &&& s.lifecycle is Some
            &&& exists|p: Partition| #[trigger]
                is_partition(
                    s.lifecycle->0.installation.partitions,
                    op.request.authority_partition,
                    p,
                ) && p.manifest_sha256 == o.authority_manifest_sha256
        }),
{
    reveal(rules::origin);
    reveal(rules::intent_of);
    reveal(rules::intent);
    reveal(rules::phase);
    reveal(rules::partition);
    control_laws::lemma_partition(
        s.lifecycle->0.installation.partitions,
        op.request.authority_partition,
    );
}

/// Whether the voter materialized as the proof says.
pub open spec fn proves(
    s: StateView,
    op: RecoveryRecord,
    v: Voter,
    proof: MaterializationProof,
) -> bool {
    &&& v.materialization is Some
    &&& is_phase(s, op, v.materialization->0)
    &&& s.recovery.phases[v.materialization->0].outcome is Some
    &&& s.recovery.phases[v.materialization->0].outcome->0 is Target
    &&& s.recovery.phases[v.materialization->0].outcome->0->Target_0@.outcome
        == TargetOutcome::Materialized(proof)
}

/// A quorum is each voter's own authentic materialization, in the voters' order, of the
/// recovery's origin and of one image.
pub proof fn lemma_quorum(s: StateView, op: RecoveryRecord)
    requires
        rules::quorum_input(s, op) is Ok,
    ensures
        ({
            let q = rules::quorum_input(s, op)->Ok_0;
            let proofs = seq![q.first, q.second, q.third];
            &&& rules::origin(s, op) is Ok
            &&& q.origin_sha256 == encoding::labelled(
                encoding::ORIGIN,
                rules::origin(s, op)->Ok_0,
            )
            &&& forall|k: int|
                0 <= k < 3 ==> {
                    &&& proves(s, op, voters_of(op.voters)[k], #[trigger] proofs[k])
                    &&& proofs[k].authentic
                    &&& proofs[k].node_id == voters_of(op.voters)[k].node_id
                    &&& proofs[k].origin_sha256 == q.origin_sha256
                    &&& proofs[k].image_sha256 == q.first.image_sha256
                }
        }),
{
    reveal(rules::quorum_input);
    reveal(rules::materialized);
    reveal(rules::materializations_agree);
    reveal(rules::materialization_holds);
    reveal(rules::origin_sha256);
    reveal(rules::materialized_by);
    reveal(rules::phase_of);
    reveal(rules::phase);
}

// ---------------------------------------------------------------------
// Where to go
// ---------------------------------------------------------------------

/// The nodes that are ready are exactly the voters that acknowledged a start under the
/// intent, in their order.
pub proof fn lemma_ready(s: StateView, op: RecoveryRecord, command: u128)
    requires
        op.voters.ascend(),
        rules::ready_nodes(s, op, command) is Ok,
    ensures
        ({
            let ready = rules::ready_nodes(s, op, command)->Ok_0;
            &&& ready.len() <= 3
            &&& forall|i: int, j: int|
                0 <= i < j < ready.len() ==> #[trigger] ready[i] < #[trigger] ready[j]
            &&& forall|k: int|
                0 <= k < 3 ==> (ready.contains((#[trigger] voters_of(op.voters)[k]).node_id)
                    <==> has_started(s, op, voters_of(op.voters)[k], command))
            &&& forall|i: int|
                0 <= i < ready.len() ==> is_voter(op, #[trigger] ready[i])
        }),
{
    reveal(rules::ready_nodes);
    let voters = voters_of(op.voters);
    planner_laws::lemma_started(s, op, command, 0);
    planner_laws::lemma_started(s, op, command, 1);
    planner_laws::lemma_started(s, op, command, 2);
    let ready = rules::ready_nodes(s, op, command)->Ok_0;
    let a = has_started(s, op, voters[0], command);
    let b = has_started(s, op, voters[1], command);
    let c = has_started(s, op, voters[2], command);
    assert(a ==> ready[0] == voters[0].node_id);
    assert(b && a ==> ready[1] == voters[1].node_id);
    assert(b && !a ==> ready[0] == voters[1].node_id);
    assert(c && a && b ==> ready[2] == voters[2].node_id);
    assert(c && (a != b) ==> ready[1] == voters[2].node_id);
    assert(c && !a && !b ==> ready[0] == voters[2].node_id);
}

/// Whether the node is one of the operation's voters.
pub open spec fn is_voter(op: RecoveryRecord, node: u64) -> bool {
    exists|k: int| 0 <= k < 3 && (#[trigger] voters_of(op.voters)[k]).node_id == node
}

/// With a majority started, the first voter that is started is asked to act. Before that, a
/// voter that is not started is started.
pub proof fn lemma_destination(s: StateView, op: RecoveryRecord, command: u128)
    requires
        op.voters.ascend(),
        rules::established_destination(s, op, command) is Ok,
    ensures
        ({
            let (node, startup) = rules::established_destination(s, op, command)->Ok_0;
            let ready = rules::ready_nodes(s, op, command)->Ok_0;
            &&& rules::ready_nodes(s, op, command) is Ok
            &&& startup <==> ready.len() < 2
            &&& is_voter(op, node)
            &&& startup ==> !ready.contains(node)
            &&& !startup ==> node == ready[0]
        }),
{
    reveal(rules::established_destination);
    reveal(rules::idle);
    reveal(rules::restart_candidate);
    reveal(rules::first_of);
    lemma_ready(s, op, command);
    let voters = voters_of(op.voters);
    assert(is_voter(op, voters[0].node_id));
    assert(is_voter(op, voters[1].node_id));
    assert(is_voter(op, voters[2].node_id));
}

/// A pending step is sent on to another voter, never to the one that has it: a start to one
/// that is not started, a mutation to any, and an observation to one that is started.
pub proof fn lemma_retry(
    s: StateView,
    op: RecoveryRecord,
    command: u128,
    old: u64,
    step: TargetStep,
)
    requires
        op.voters.ascend(),
        rules::retry_destination(s, op, command, old, step) is Ok,
    ensures
        ({
            let node = rules::retry_destination(s, op, command, old, step)->Ok_0;
            let ready = rules::ready_nodes(s, op, command);
            &&& node != old
            &&& is_voter(op, node)
            &&& step is Start && step->Start_0 !is Quorum ==> ready is Ok
                && !ready->Ok_0.contains(node)
            &&& !(step is Start && step->Start_0 !is Quorum) && !(step is PrepareComplete || step
                is Complete) ==> ready is Ok && ready->Ok_0.contains(node)
        }),
{
    reveal(rules::retry_destination);
    reveal(rules::established_start);
    reveal(rules::other_than);
    let voters = voters_of(op.voters);
    assert(is_voter(op, voters[0].node_id));
    assert(is_voter(op, voters[1].node_id));
    assert(is_voter(op, voters[2].node_id));
    if rules::established_start(step) {
        lemma_destination(s, op, command);
    } else if step is PrepareComplete || step is Complete {
    } else {
        lemma_ready(s, op, command);
    }
}

/// A pending step is sent on only unchanged, in time, and to another node; and only a step
/// of a completion that is established, or of an activation.
pub proof fn lemma_sent_on(pending: PhaseRecord, input: Dispatch, now: u64)
    requires
        rules::completion_route_retry(pending, input, now),
    ensures
        pending.input is Target,
        input is Target,
        input->Target_node_id != pending.input->Target_node_id,
        input->Target_request@ == pending.input->Target_request@,
        now < pending.input->Target_request@.not_after_ms,
        pending.phase == RecoveryPhase::Complete || pending.phase == RecoveryPhase::Confirm,
        match input->Target_request@.step {
            TargetStep::Start(replica) => pending.phase == RecoveryPhase::Complete && replica
                !is Quorum,
            TargetStep::PrepareComplete(_) => true,
            TargetStep::Complete(_) => true,
            TargetStep::InspectCompletionAttempt(_) => true,
            TargetStep::InspectCompletionResolution(_) => true,
            TargetStep::ResolveComplete(_) => true,
            TargetStep::Inspect(_) => true,
            TargetStep::Activate { quorum, issuer_command_id } => true,
            _ => false,
        },
{
    reveal(rules::completion_route_retry);
    reveal(rules::established_effect);
    reveal(rules::established_start);
}

// ---------------------------------------------------------------------
// Completion attempts
// ---------------------------------------------------------------------

/// An attempt is referred to only if it was sealed, by the attempt, its origin, and the
/// resolution that sealed it.
pub proof fn lemma_sealed(fact: ResolutionFact)
    ensures
        ({
            let r = rules::sealed_reference(fact);
            &&& r is Ok <==> fact.terminal is Sealed
            &&& r is Ok ==> {
                &&& r->Ok_0.origin_sha256 == encoding::labelled(
                    encoding::ORIGIN,
                    fact.input.attempt.origin,
                )
                &&& r->Ok_0.control_incarnation == fact.resolution_intent.control_incarnation
                &&& r->Ok_0.original_command_id == fact.input.attempt.intent.request.command_id
                &&& r->Ok_0.resolution_command_id == fact.resolution_intent.request.command_id
                &&& r->Ok_0.resolution_control_revision == fact.resolution_intent.revision
                &&& r->Ok_0.fact_sha256 == fact.sha256
            }
        }),
{
    reveal(rules::sealed_reference);
    reveal(rules::origin_sha256);
}

/// What follows the evidence of a completion: nothing told asks for an inspection, a
/// preparation that was sent for its status, one that is told of for its resolution, a
/// resolver that was sent for its status; and the end of the attempt for an inspection if it
/// was committed, and for another attempt if it was sealed.
pub proof fn lemma_fresh_phase(s: StateView, op: RecoveryRecord)
    requires
        rules::fresh_phase(s, op) is Ok,
    ensures
        ({
            let next = rules::fresh_phase(s, op)->Ok_0;
            if op.completion_terminal is Some {
                &&& rules::terminal(s, op) is Ok
                &&& rules::terminal(s, op)->Ok_0.terminal is Sealed <==> next
                    == LifecyclePhase::Complete
                &&& rules::terminal(s, op)->Ok_0.terminal is Committed <==> next
                    == LifecyclePhase::InspectTarget
            } else if op.completion_resolution_attempt is Some {
                next == LifecyclePhase::InspectCompletionResolution
            } else if op.completion_preparation is Some {
                next == LifecyclePhase::ResolveComplete
            } else if op.completion_preparation_attempt is Some {
                next == LifecyclePhase::InspectCompletionAttempt
            } else {
                next == LifecyclePhase::InspectTarget
            }
        }),
{
    reveal(rules::fresh_phase);
}

// ---------------------------------------------------------------------
// Activation
// ---------------------------------------------------------------------

/// The issuer's receipt that a phase holds for its own command: as it was answered, or as a
/// stop resolved it.
pub open spec fn holds_receipt(p: PhaseRecord, receipt: AuthorityReceipt) -> bool {
    &&& p.outcome is Some
    &&& match p.outcome->0 {
        DispatchOutcome::Authority(signed) => receipt == signed@.receipt,
        DispatchOutcome::AuthorityResolution(signed) => {
            let original = signed@.receipt.outcome->ActivationResolved_original@;
            &&& signed@.receipt.outcome is ActivationResolved
            &&& receipt.revision == original.revision
            &&& receipt.term == original.term
            &&& receipt.admitted_at_ms == original.admitted_at_ms
            &&& receipt.authority_id == original.authority_id
            &&& receipt.partition == original.partition
            &&& receipt.manifest_digest == original.manifest_digest
            &&& receipt.command_digest == original.command_digest
            &&& receipt.sha256 == original.sha256
            &&& receipt.command.command_id == original.command.command_id
            &&& receipt.command.not_after_ms == original.command.not_after_ms
            &&& receipt.outcome is Rejected <==> original.outcome is Rejected
            &&& receipt.outcome is ActivationStopped <==> original.outcome is Stopped
            &&& receipt.outcome is Activated <==> original.outcome is Activated
        },
        _ => false,
    }
}

/// The winner is the receipt that the operation's activation holds, and it activated.
pub proof fn lemma_winner(s: StateView, op: RecoveryRecord)
    requires
        activation_rules::winner(s, op) is Ok,
    ensures
        op.activation is Some,
        is_phase(s, op, op.activation->0),
        holds_receipt(s.recovery.phases[op.activation->0], activation_rules::winner(s, op)->Ok_0),
        activation_rules::winner(s, op)->Ok_0.outcome is Activated,
{
    reveal(activation_rules::winner);
    reveal(activation_rules::original_receipt);
    reveal(activation_rules::receipt_of);
    reveal(activation_rules::command_of);
    reveal(rules::phase_of);
    reveal(rules::phase);
}

/// An activation is asked for with the fence that the source was given, the target of the
/// recovery, the completion that is retained, and the intent that commits all of that.
pub proof fn lemma_activation_asked(s: StateView, op: RecoveryRecord, current: LifecycleIntent)
    requires
        activation_rules::action_for_intent(s, op, current) is Ok,
    ensures
        ({
            let action = activation_rules::action_for_intent(s, op, current)->Ok_0;
            let asked = action->ActivateCommitted_0@;
            let fence = s.recovery.phases[op.source_fence->0].outcome->0->Authority_0@.receipt;
            let done = s.recovery.phases[op.completion->0].outcome->0->Target_0@.outcome;
            &&& action is ActivateCommitted
            &&& op.source_fence is Some
            &&& is_phase(s, op, op.source_fence->0)
            &&& asked.fence_id == fence.command.command_id
            &&& asked.fence_digest == fence.sha256
            &&& asked.target.incarnation == op.request.target_incarnation
            &&& asked.target.checkpoint == op.request.checkpoint
            &&& asked.target.nodes == op.request.target_nodes
            &&& op.completion is Some
            &&& is_phase(s, op, op.completion->0)
            &&& done is Completed ==> asked.control.completion == CommittedCompletion::Original(
                done->Completed_0,
            )
            &&& done is Inspected ==> asked.control.completion == CommittedCompletion::Resolved(
                done->Inspected_0,
            )
            &&& done is Completed || done is Inspected
            &&& asked.control.reference.control_incarnation == current.control_incarnation
            &&& asked.control.reference.control_policy_epoch
                == current.request.expected_policy_epoch
            &&& asked.control.reference.identity == AuthorityIdentity::Intent(
                current.request.command_id,
            )
            &&& current.request.phase == LifecyclePhase::Activate
            &&& activation_rules::activation_input(s, op) is Ok
            &&& current.request.phase_input_sha256 == encoding::labelled(
                ACTIVATION,
                activation_rules::activation_input(s, op)->Ok_0,
            )
        }),
{
    reveal(activation_rules::action_for_intent);
    reveal(activation_rules::committed_activation_input);
    reveal(activation_rules::activation_input);
    reveal(activation_rules::completion);
    reveal(rules::accepts_phase);
    reveal(rules::accepts);
    reveal(rules::target);
    reveal(rules::phase_of);
    reveal(rules::phase);
}

/// An answer to an activation is taken only as the issuer's receipt for exactly the command.
/// It refuses it, stops the very command, or activates the very target at the next epoch: in
/// time for the command and the intent, and behind the intent and the completion.
pub proof fn lemma_activation_answered(
    s: StateView,
    op: RecoveryRecord,
    expected: ActivateCommand,
    receipt: AuthorityReceipt,
)
    requires
        activation_rules::original_answer(s, op, expected, receipt) is Ok,
    ensures
        rules::partition(s, op) is Ok,
        is_receipt(
            rules::partition(s, op)->Ok_0,
            activation_rules::command_of(expected),
            receipt,
        ),
        match receipt.outcome {
            AuthorityOutcome::Rejected => true,
            AuthorityOutcome::ActivationStopped { original_digest } => original_digest
                == receipt.command_digest,
            AuthorityOutcome::Activated { target, authority_epoch } => {
                let id = expected.activation.control.reference.identity->Intent_0;
                &&& target == expected.activation.target
                &&& authority_epoch == op.request.source_authority_epoch + 1
                &&& receipt.admitted_at_ms < expected.not_after_ms
                &&& expected.activation.control.reference.identity is Intent
                &&& s.lifecycle is Some
                &&& s.lifecycle->0.intents.dom().contains(id)
                &&& receipt.admitted_at_ms
                    < s.lifecycle->0.intents[id].original_credential_expires_at_ms
                &&& s.lifecycle->0.intents[id].accepted_at_ms <= receipt.admitted_at_ms
                &&& activation_rules::completion(s, op) is Ok
                &&& activation_rules::fact_of(
                    activation_rules::completion(s, op)->Ok_0,
                ).admitted_at_ms <= receipt.admitted_at_ms
            },
            _ => false,
        },
{
    reveal(activation_rules::original_answer);
    reveal(activation_rules::receipt_identity);
    reveal(activation_rules::next_epoch);
    reveal(activation_rules::activation_in_time);
    reveal(rules::retained_intent);
}

/// A stop resolves an activation only if it is the issuer's authentic receipt for the stop,
/// in time, of the very activation command; and what it tells of that came no later, and is
/// an answer to that command.
pub proof fn lemma_activation_resolved(
    s: StateView,
    op: RecoveryRecord,
    expected: AuthorityCommand,
    signed: SignedReceipt,
)
    requires
        activation_rules::resolution(s, op, expected, signed) is Ok,
    ensures
        signed.authentic,
        signed.receipt.command.action is StopActivation,
        ({
            let stop = signed.receipt.command.action->StopActivation_original@;
            let told = signed.receipt.outcome->ActivationResolved_original@;
            &&& expected.tenant == stop.tenant
            &&& expected.command_id == stop.command_id
            &&& expected.expected_policy_epoch == stop.expected_policy_epoch
            &&& expected.not_after_ms == stop.not_after_ms
            &&& expected.action is ActivateCommitted
            &&& expected.action->ActivateCommitted_0@ == stop.activation
            &&& rules::partition(s, op) is Ok
            &&& is_receipt(rules::partition(s, op)->Ok_0, signed.receipt.command, signed.receipt)
            &&& signed.receipt.admitted_at_ms < signed.receipt.command.not_after_ms
            &&& signed.receipt.outcome is ActivationResolved
            &&& told.revision <= signed.receipt.revision
            &&& told.admitted_at_ms <= signed.receipt.admitted_at_ms
            &&& activation_rules::original_answer(
                s,
                op,
                stop,
                activation_rules::receipt_of(told),
            ) is Ok
        }),
{
    reveal(activation_rules::resolution);
    reveal(activation_rules::resolved_original);
    reveal(activation_rules::receipt_identity);
    reveal(activation_rules::command_of);
}

/// A retained activation quotes an intent that Control retains, that an earlier phase of the
/// recovery committed, and within whose time it was sent.
pub proof fn lemma_quoted(
    s: StateView,
    op: RecoveryRecord,
    retained: PhaseRecord,
    command: ActivateCommand,
)
    requires
        activation_rules::quoted_intent(s, op, retained, command) is Ok,
    ensures
        ({
            let current = activation_rules::quoted_intent(s, op, retained, command)->Ok_0;
            let id = command.activation.control.reference.identity->Intent_0;
            &&& command.activation.control.reference.identity is Intent
            &&& s.lifecycle is Some
            &&& s.lifecycle->0.intents.dom().contains(id)
            &&& s.lifecycle->0.intents[id] == current
            &&& committed(s, op, id, current)
            &&& s.recovery.phases[id].sequence < retained.sequence
            &&& current.accepted_at_ms <= retained.admitted_at_ms
            &&& command.not_after_ms <= current.original_credential_expires_at_ms
        }),
{
    reveal(activation_rules::quoted_intent);
    reveal(rules::retained_intent);
    reveal(rules::phase);
}

/// A voter's activation is taken exactly if it is authentic, is the voter's own where that
/// is asked for, and is of the retained completion, the committed winner and the intent that
/// commits them.
pub proof fn lemma_local_activation(
    s: StateView,
    op: RecoveryRecord,
    node: u64,
    signed: SignedActivation,
    own: bool,
)
    requires
        rules::origin(s, op) is Ok,
        activation_rules::winner(s, op) is Ok,
        activation_rules::completion(s, op) is Ok,
        activation_rules::activation_input(s, op) is Ok,
    ensures
        activation_rules::local_activation(s, op, node, signed, own) is Ok <==> {
            &&& signed.authentic
            &&& own ==> signed.observer_node_id == node
            &&& signed.completion == match activation_rules::completion(s, op)->Ok_0 {
                CommittedCompletion::Original(c) => c@.fact,
                CommittedCompletion::Resolved(c) => c@.completion,
            }
            &&& signed.activation.issuer_receipt_sha256 == activation_rules::winner(
                s,
                op,
            )->Ok_0.sha256
            &&& signed.activation.intent.request.phase_input_sha256 == encoding::labelled(
                ACTIVATION,
                activation_rules::activation_input(s, op)->Ok_0,
            )
        },
{
    reveal(activation_rules::local_activation);
    reveal(activation_rules::fact_of);
}

} // verus!
