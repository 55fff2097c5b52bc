//! What every record of a recovery journal that passes validation stands for, and what a
//! later journal keeps of an earlier one.
use vstd::prelude::*;

use crate::activation_rules;
use crate::dispatch_laws::refused_for_good;
use crate::errors::Error;
use crate::first_refusal;
use crate::journal_rules;
use crate::model::{
    AuthorityOutcome, CompletionHistory, CompletionScope, Dispatch, DispatchOutcome,
    LifecyclePhase, PhaseRecord, RecoveryPhase, RecoveryRecord, SignedActivation, SourceMode,
    TargetOutcome, TargetStep, Voter,
};
use crate::planner_laws::{confirms, is_phase, voters_of};
use crate::record_forms;
use crate::record_forms::RecoveryFormsView;
use crate::rules;
use crate::snapshot_rules;
use crate::views::StateView;

verus! {

broadcast use {crate::held::lemma_held, crate::held::lemma_reheld};

/// Whether a journal that is not empty passes validation.
pub open spec fn valid(s: StateView, forms: RecoveryFormsView) -> bool {
    snapshot_rules::journal(s, forms) is Ok && !snapshot_rules::is_empty(s.recovery)
}

/// The outcome that is retained under a phase.
pub open spec fn outcome_of(s: StateView, id: u128) -> Option<DispatchOutcome> {
    s.recovery.phases[id].outcome
}

/// Whether a reference, where there is one, is to a phase of the operation that was
/// answered.
pub open spec fn answered(s: StateView, op: RecoveryRecord, id: Option<u128>) -> bool {
    id is Some ==> is_phase(s, op, id->0) && outcome_of(s, id->0) is Some
}

/// Whether a reference, where there is one, is to a phase of the operation that committed
/// an intent.
pub open spec fn commits(s: StateView, op: RecoveryRecord, id: Option<u128>) -> bool {
    id is Some ==> is_phase(s, op, id->0) && outcome_of(s, id->0) is Some && outcome_of(s, id->0)->0
        is ControlIntent
}

/// Whether the phase holds the node's own answer.
pub open spec fn answered_by(s: StateView, op: RecoveryRecord, id: u128, node: u64) -> bool {
    &&& is_phase(s, op, id)
    &&& outcome_of(s, id) is Some
    &&& outcome_of(s, id)->0 is Target
    &&& outcome_of(s, id)->0->Target_0@.node_id == node
}

/// What the node answered in the phase.
pub open spec fn answer(s: StateView, id: u128) -> TargetOutcome {
    outcome_of(s, id)->0->Target_0@.outcome
}

proof fn lemma_operation(s: StateView, forms: RecoveryFormsView, key: u128)
    requires
        valid(s, forms),
        s.recovery.operations.dom().contains(key),
    ensures
        snapshot_rules::operation_checked(s, key, s.recovery.operations[key]) is Ok,
{
    reveal(snapshot_rules::journal);
    let heads = |key: u128, op: RecoveryRecord|
        record_forms::formed(
            forms.operations.get(key),
            snapshot_rules::operation_checked(s, key, op),
        );
    first_refusal::lemma_every(s.recovery.operations, heads);
    assert(heads(key, s.recovery.operations[key]) is Ok);
}

/// Every operation of a valid journal is retained under its own identity, of the
/// installation, and no newer than the state; its phases are numbered on from the last
/// one; and what is pending is its last phase, unanswered and of the operation's own.
pub proof fn lemma_head_stands(s: StateView, forms: RecoveryFormsView, key: u128)
    requires
        valid(s, forms),
        s.recovery.operations.dom().contains(key),
    ensures
        ({
            let op = s.recovery.operations[key];
            &&& op.request.operation_id == key
            &&& s.lifecycle is Some
            &&& op.request.installation_sha256 == s.lifecycle->0.installation.sha256
            &&& op.updated_revision <= s.revision
            &&& s.recovery.targets.dom().contains(op.request.target_incarnation)
            &&& s.recovery.targets[op.request.target_incarnation] == key
            &&& match op.last_phase {
                None => op.next_phase_sequence == 1,
                Some(id) => is_phase(s, op, id) && op.next_phase_sequence
                    == s.recovery.phases[id].sequence + 1,
            }
            &&& op.pending_phase is Some ==> {
                &&& is_phase(s, op, op.pending_phase->0)
                &&& op.last_phase == op.pending_phase
                &&& outcome_of(s, op.pending_phase->0) is None
                &&& s.recovery.phases[op.pending_phase->0].phase == op.phase
            }
            &&& commits(s, op, op.current_intent)
            &&& commits(s, op, op.materialization_intent)
            &&& commits(s, op, op.completion_intent)
        }),
{
    lemma_operation(s, forms, key);
    reveal(snapshot_rules::operation_checked);
    reveal(snapshot_rules::head_checked);
    reveal(snapshot_rules::head_bound);
    reveal(snapshot_rules::chained);
    reveal(snapshot_rules::next_sequence);
    reveal(snapshot_rules::pending_held);
    reveal(snapshot_rules::target_checked);
    reveal(snapshot_rules::intents_held);
    reveal(snapshot_rules::intent_held);
    reveal(rules::phase);
    reveal(rules::intent);
}

/// How far along the way to its end a phase is: the higher, the further.
pub open spec fn way(phase: RecoveryPhase) -> int {
    match phase {
        RecoveryPhase::Prepare => 0,
        RecoveryPhase::Materialize => 1,
        RecoveryPhase::Initialize => 2,
        RecoveryPhase::Complete => 3,
        RecoveryPhase::RetireSource => 4,
        RecoveryPhase::FenceSource => 5,
        RecoveryPhase::Activate => 6,
        RecoveryPhase::Confirm => 7,
        RecoveryPhase::Publish => 8,
        RecoveryPhase::Finished => 9,
        _ => -1,
    }
}

/// No operation of a valid journal is further than its records: past its preparation it
/// has the issuer's, past its materialization every voter's, past its initialization and
/// its completion theirs; a planned one has its source retired before it is fenced, and
/// fenced before it is activated; the winner is committed before it is confirmed, and
/// every voter has confirmed before the route is published. What is cleaned up was
/// stopped, and its activation refused for good.
pub proof fn lemma_nothing_skipped(s: StateView, forms: RecoveryFormsView, key: u128)
    requires
        valid(s, forms),
        s.recovery.operations.dom().contains(key),
    ensures
        ({
            let op = s.recovery.operations[key];
            let voters = voters_of(op.voters);
            &&& way(op.phase) >= 1 ==> op.issuer_preparation is Some
            &&& way(op.phase) >= 2 ==> forall|k: int|
                0 <= k < 3 ==> (#[trigger] voters[k]).materialization is Some
            &&& way(op.phase) >= 3 ==> op.initialization is Some
            &&& way(op.phase) >= 4 ==> op.completion is Some && op.completion_intent is Some
            &&& way(op.phase) >= 5 && op.request.source_mode is Planned ==> op.retirement is Some
            &&& way(op.phase) >= 6 ==> op.source_fence is Some
            &&& way(op.phase) >= 7 ==> op.activation is Some
            &&& way(op.phase) >= 8 ==> forall|k: int|
                0 <= k < 3 ==> (#[trigger] voters[k]).confirmation is Some
            &&& op.phase == RecoveryPhase::Cleanup || op.phase == RecoveryPhase::Stopped
                ==> op.target_stop is Some
            &&& (op.phase == RecoveryPhase::StopTarget || op.phase == RecoveryPhase::Cleanup
                || op.phase == RecoveryPhase::Stopped) && op.activation_attempt is Some
                ==> refused_for_good(s, op)
        }),
{
    lemma_operation(s, forms, key);
    reveal(snapshot_rules::operation_checked);
    reveal(snapshot_rules::head_checked);
    reveal(snapshot_rules::activation_checked);
    reveal(snapshot_rules::fence_held);
    reveal(snapshot_rules::planned_retired);
    reveal(snapshot_rules::activation_decided);
    reveal(snapshot_rules::publication_held);
    reveal(journal_rules::all_materialized);
    reveal(activation_rules::all_confirmed);
    reveal(activation_rules::require_negative_attempt);
    reveal(activation_rules::attempt);
    reveal(rules::phase_of);
    reveal(rules::phase);
}

/// What an operation of a valid journal refers to is there, and of its kind: the issuer's
/// preparation, the initialization, the completion, the retirement that was asked for, the
/// fence of its own source and epoch, the winner that was attempted, and the publication
/// of a route.
pub proof fn lemma_references_stand(s: StateView, forms: RecoveryFormsView, key: u128)
    requires
        valid(s, forms),
        s.recovery.operations.dom().contains(key),
    ensures
        ({
            let op = s.recovery.operations[key];
            &&& answered(s, op, op.issuer_preparation)
            &&& answered(s, op, op.initialization)
            &&& answered(s, op, op.completion)
            &&& answered(s, op, op.retirement)
            &&& answered(s, op, op.source_fence)
            &&& answered(s, op, op.activation)
            &&& answered(s, op, op.route_publication)
            &&& answered(s, op, op.target_stop)
            &&& op.issuer_preparation is Some ==> {
                let outcome = outcome_of(s, op.issuer_preparation->0)->0;
                outcome is Authority && outcome->Authority_0@.receipt.outcome is TargetPrepared
            }
            &&& op.initialization is Some ==> {
                let outcome = outcome_of(s, op.initialization->0)->0;
                outcome is Target && outcome->Target_0@.outcome is Initialized
            }
            &&& op.completion is Some ==> {
                let outcome = outcome_of(s, op.completion->0)->0;
                outcome is Target && (outcome->Target_0@.outcome is Completed
                    || outcome->Target_0@.outcome is Inspected)
            }
            &&& op.retirement is Some ==> {
                let p = s.recovery.phases[op.retirement->0];
                p.input is RetireSource && p.outcome->0 is SourceRetired
            }
            &&& op.source_fence is Some ==> {
                let outcome = outcome_of(s, op.source_fence->0)->0;
                outcome is Authority && outcome->Authority_0@.receipt.outcome
                    == (AuthorityOutcome::Fenced {
                    incarnation: op.request.source_incarnation,
                    authority_epoch: op.request.source_authority_epoch,
                })
            }
            &&& op.activation is Some ==> op.activation == op.activation_attempt
            &&& op.route_publication is Some ==> {
                let p = s.recovery.phases[op.route_publication->0];
                p.input is PublishRoute && p.outcome->0 is RoutePublished
            }
        }),
{
    lemma_operation(s, forms, key);
    reveal(snapshot_rules::operation_checked);
    reveal(snapshot_rules::target_checked);
    reveal(snapshot_rules::references_resolved);
    reveal(snapshot_rules::later_references_resolved);
    reveal(snapshot_rules::resolved_reference);
    reveal(snapshot_rules::kinds_held);
    reveal(snapshot_rules::outcome_of);
    reveal(snapshot_rules::is_initialization);
    reveal(snapshot_rules::is_completion);
    reveal(snapshot_rules::is_preparation);
    reveal(snapshot_rules::activation_checked);
    reveal(snapshot_rules::retirement_held);
    reveal(snapshot_rules::fence_held);
    reveal(snapshot_rules::fences);
    reveal(snapshot_rules::winner_held);
    reveal(snapshot_rules::publication_held);
    reveal(snapshot_rules::is_publication);
    reveal(rules::phase);
    reveal(rules::native);
}

/// What is recorded of a voter of a valid journal is that voter's own: its materialization,
/// its cleanup, the start that it was asked for and acknowledged, and the activation that
/// it confirmed, which is authentic and the one that every other voter confirmed.
pub proof fn lemma_voter_stands(s: StateView, forms: RecoveryFormsView, key: u128, k: int)
    requires
        valid(s, forms),
        s.recovery.operations.dom().contains(key),
        0 <= k < 3,
    ensures
        ({
            let op = s.recovery.operations[key];
            let v = voters_of(op.voters)[k];
            &&& v.materialization is Some ==> answered_by(s, op, v.materialization->0, v.node_id)
                && answer(s, v.materialization->0) is Materialized
            &&& v.cleanup is Some ==> answered_by(s, op, v.cleanup->0, v.node_id) && answer(
                s,
                v.cleanup->0,
            ) is Stopped
            &&& v.started is Some ==> {
                let p = s.recovery.phases[v.started->0];
                &&& answered_by(s, op, v.started->0, v.node_id)
                &&& answer(s, v.started->0) is Started
                &&& p.input is Target
                &&& p.input->Target_node_id == v.node_id
                &&& p.input->Target_request@.step is Start || p.input->Target_request@.step
                    is StartActivation
            }
            &&& v.confirmation is Some ==> {
                &&& is_phase(s, op, v.confirmation->0)
                &&& outcome_of(s, v.confirmation->0) is Some
                &&& outcome_of(s, v.confirmation->0)->0 is Target
                &&& answer(s, v.confirmation->0) is Activated
                &&& answer(s, v.confirmation->0)->Activated_0@.authentic
                &&& answer(s, v.confirmation->0)->Activated_0@.observer_node_id == v.node_id
            }
        }),
{
    lemma_operation(s, forms, key);
    reveal(snapshot_rules::operation_checked);
    reveal(snapshot_rules::target_checked);
    reveal(snapshot_rules::voters_held);
    reveal(snapshot_rules::voter_held);
    reveal(snapshot_rules::voter_outcome);
    reveal(snapshot_rules::starts_held);
    reveal(snapshot_rules::start_held);
    reveal(snapshot_rules::acknowledged_start);
    reveal(snapshot_rules::activation_checked);
    reveal(snapshot_rules::confirmations_held);
    reveal(snapshot_rules::confirmation_held);
    reveal(activation_rules::local_activation);
    reveal(rules::activated_by);
    reveal(rules::phase);
    reveal(rules::native);
}

/// All voters of a valid journal that confirmed an activation confirmed the same one.
pub proof fn lemma_confirmations_agree(
    s: StateView,
    forms: RecoveryFormsView,
    key: u128,
    j: int,
    k: int,
)
    requires
        valid(s, forms),
        s.recovery.operations.dom().contains(key),
        0 <= j < 3,
        0 <= k < 3,
        voters_of(s.recovery.operations[key].voters)[j].confirmation is Some,
        voters_of(s.recovery.operations[key].voters)[k].confirmation is Some,
    ensures
        ({
            let voters = voters_of(s.recovery.operations[key].voters);
            let a = answer(s, voters[j].confirmation->0)->Activated_0@;
            let b = answer(s, voters[k].confirmation->0)->Activated_0@;
            a.activation == b.activation && a.completion == b.completion
        }),
{
    lemma_operation(s, forms, key);
    reveal(snapshot_rules::operation_checked);
    reveal(snapshot_rules::activation_checked);
    reveal(snapshot_rules::confirmations_held);
    reveal(snapshot_rules::confirmation_held);
    reveal(activation_rules::local_proof);
    reveal(activation_rules::confirmed);
    reveal(activation_rules::same_activation);
    reveal(rules::activated_by);
    reveal(rules::phase);
    reveal(rules::native);
}

proof fn lemma_row(s: StateView, forms: RecoveryFormsView, id: u128)
    requires
        valid(s, forms),
        s.recovery.phases.dom().contains(id),
    ensures
        snapshot_rules::phase_checked(s, id, s.recovery.phases[id], forms.inputs.get(id)) is Ok,
{
    reveal(snapshot_rules::journal);
    let rows = |key: u128, p: PhaseRecord|
        record_forms::formed(
            forms.phases.get(key),
            snapshot_rules::phase_checked(s, key, p, forms.inputs.get(key)),
        );
    first_refusal::lemma_every(s.recovery.phases, rows);
    assert(rows(id, s.recovery.phases[id]) is Ok);
}

/// Every phase of a valid journal belongs to an operation, under its own identity, within
/// the operation's life, and right behind the phase before it.
pub proof fn lemma_phase_stands(s: StateView, forms: RecoveryFormsView, id: u128)
    requires
        valid(s, forms),
        s.recovery.phases.dom().contains(id),
    ensures
        ({
            let p = s.recovery.phases[id];
            let op = s.recovery.operations[p.operation_id];
            &&& s.recovery.operations.dom().contains(p.operation_id)
            &&& p.phase_id == id
            &&& p.sequence < op.next_phase_sequence
            &&& op.created_revision <= p.prepared_revision <= op.updated_revision
            &&& p.resolved_revision is Some ==> p.resolved_revision->0 <= op.updated_revision
            &&& match p.previous_phase {
                None => p.sequence == 1,
                Some(before) => {
                    &&& is_phase(s, op, before)
                    &&& s.recovery.phases[before].sequence + 1 == p.sequence
                    &&& s.recovery.phases[before].prepared_revision < p.prepared_revision
                },
            }
        }),
{
    lemma_row(s, forms, id);
    reveal(snapshot_rules::phase_checked);
    reveal(snapshot_rules::phase_within);
    reveal(snapshot_rules::phase_follows);
    reveal(rules::phase);
}

/// Whether a dispatch of the phase ends behind its admission, and no later than its timeout
/// and the credential that admitted it.
pub open spec fn timely(op: RecoveryRecord, p: PhaseRecord, not_after_ms: u64) -> bool {
    &&& p.admitted_at_ms < not_after_ms
    &&& not_after_ms <= p.original_credential_expires_at_ms
    &&& not_after_ms <= p.admitted_at_ms + op.request.phase_timeout_ms
}

/// What was dispatched in a phase of a valid journal is still what the phase was admitted
/// for: an issuer command under the phase's identity, an intent that belongs to the phase,
/// a step of a voter under an intent that Control retains, a publication, or a planned
/// retirement as it was asked for; each in its time. Its answer, if it has one, is one that
/// is admitted to it.
pub proof fn lemma_input_stands(s: StateView, forms: RecoveryFormsView, id: u128)
    requires
        valid(s, forms),
        s.recovery.phases.dom().contains(id),
    ensures
        ({
            let p = s.recovery.phases[id];
            let context = rules::for_phase(s, s.recovery.operations[p.operation_id], p);
            &&& context is Ok
            &&& p.outcome is Some ==> journal_rules::outcome_admitted(
                s,
                context->Ok_0,
                p,
                p.outcome->0,
            ) is Ok
            &&& ({
                let op = context->Ok_0;
                match p.input {
                    Dispatch::Authority(command) => {
                        &&& command@.command_id == id
                        &&& command@.tenant == op.request.tenant
                        &&& command@.expected_policy_epoch == op.request.authority_policy_epoch
                        &&& timely(op, p, command@.not_after_ms)
                    },
                    Dispatch::ControlIntent(request) => {
                        &&& request@.command_id == id
                        &&& request@.tenant == op.request.tenant
                        &&& request@.source_incarnation == op.request.source_incarnation
                        &&& request@.target_incarnation == op.request.target_incarnation
                        &&& request@.checkpoint == op.request.checkpoint
                        &&& p.phase == RecoveryPhase::Initialize ==> request@.phase
                            == LifecyclePhase::Initialize
                        &&& p.phase == RecoveryPhase::Cleanup ==> request@.phase
                            == LifecyclePhase::StopLocal
                        &&& p.phase == RecoveryPhase::Activate || p.phase == RecoveryPhase::Confirm
                            ==> request@.phase == LifecyclePhase::Activate
                        &&& p.phase == RecoveryPhase::Materialize ==> request@.phase
                            == LifecyclePhase::Materialize || request@.phase
                            == LifecyclePhase::ResumeMaterialize
                    },
                    Dispatch::Target { node_id, request } => {
                        &&& request@.tenant == op.request.tenant
                        &&& exists|k: int|
                            0 <= k < 3 && (#[trigger] voters_of(op.voters)[k]).node_id == node_id
                        &&& s.lifecycle is Some
                        &&& s.lifecycle->0.intents.dom().contains(request@.command_id)
                        &&& ({
                            let current = s.lifecycle->0.intents[request@.command_id];
                            &&& p.admitted_at_ms < current.original_credential_expires_at_ms
                            &&& request@.not_after_ms <= current.original_credential_expires_at_ms
                        })
                        &&& timely(op, p, request@.not_after_ms)
                    },
                    Dispatch::PublishRoute(change) => {
                        &&& p.phase == RecoveryPhase::Publish
                        &&& change.expected_topology_version < p.prepared_revision
                    },
                    Dispatch::RetireSource(request) => {
                        &&& p.phase == RecoveryPhase::RetireSource
                        &&& op.request.source_mode == (SourceMode::Planned { retirement: request })
                        &&& timely(op, p, request.not_after_ms)
                    },
                }
            })
        }),
{
    lemma_row(s, forms, id);
    reveal(snapshot_rules::phase_checked);
    reveal(snapshot_rules::phase_within);
    reveal(snapshot_rules::phase_in_context);
    reveal(snapshot_rules::frozen_input);
    reveal(snapshot_rules::frozen_authority);
    reveal(snapshot_rules::frozen_intent);
    reveal(snapshot_rules::frozen_target);
    reveal(snapshot_rules::frozen_route);
    reveal(snapshot_rules::frozen_retirement);
    reveal(journal_rules::expected_intent);
    reveal(activation_rules::retirement_request);
    reveal(rules::retained_intent);
    reveal(rules::dispatch_limit);
    reveal(rules::voter);
    let p = s.recovery.phases[id];
    let op = rules::for_phase(s, s.recovery.operations[p.operation_id], p)->Ok_0;
    let voters = voters_of(op.voters);
    assert(voters[0] == op.voters.first && voters[1] == op.voters.second && voters[2]
        == op.voters.third);
}

/// A phase is seen as its own attempt saw the operation: the same request and voters; out
/// of Complete the operation itself, and within it under the attempt that the phase names.
pub proof fn lemma_context(s: StateView, op: RecoveryRecord, p: PhaseRecord)
    requires
        rules::for_phase(s, op, p) is Ok,
    ensures
        ({
            let context = rules::for_phase(s, op, p)->Ok_0;
            &&& context.request == op.request
            &&& context.voters == op.voters
            &&& context.materialization_intent == op.materialization_intent
            &&& if p.phase == RecoveryPhase::Complete {
                &&& p.completion_scope is Some
                &&& context.completion_predecessor == p.completion_scope->0.predecessor
                &&& context.completion_intent is Some ==> context.completion_intent == Some(
                    p.completion_scope->0.intent,
                )
            } else {
                p.completion_scope is None && context == op
            }
        }),
{
    reveal(rules::for_phase);
    reveal(rules::scope);
    reveal(rules::historical_view);
    reveal(rules::unborn_view);
}

/// Every closed attempt of a valid journal is kept under its own intent, belongs to an
/// operation that has gone on to another, and was followed by a committed one that names
/// it; all of its phases are of that attempt, behind its beginning and before the next.
pub proof fn lemma_history_stands(s: StateView, forms: RecoveryFormsView, key: u128)
    requires
        valid(s, forms),
        s.recovery.completion_history.dom().contains(key),
    ensures
        ({
            let h = s.recovery.completion_history[key];
            let op = s.recovery.operations[h.operation_id];
            let from = s.recovery.phases[h.scope.intent].sequence;
            let next = s.recovery.phases[h.successor_intent];
            &&& s.recovery.operations.dom().contains(h.operation_id)
            &&& h.scope.intent == key
            &&& op.completion_intent != Some(key)
            &&& is_phase(s, op, key)
            &&& is_phase(s, op, h.successor_intent)
            &&& next.completion_scope == Some(
                CompletionScope { intent: h.successor_intent, predecessor: Some(h.terminal) },
            )
            &&& within_attempt(s, op, h, h.scope.intent, from, next.sequence)
            &&& within_attempt(s, op, h, h.current_intent, from, next.sequence)
            &&& within_attempt(s, op, h, h.preparation_attempt, from, next.sequence)
            &&& within_attempt(s, op, h, h.preparation, from, next.sequence)
            &&& within_attempt(s, op, h, h.resolution_attempt, from, next.sequence)
            &&& within_attempt(s, op, h, h.terminal, from, next.sequence)
            &&& h.attempted_completion is Some ==> within_attempt(
                s,
                op,
                h,
                h.attempted_completion->0,
                from,
                next.sequence,
            )
            &&& s.recovery.phases[h.terminal].resolved_revision is Some
            &&& s.recovery.phases[h.terminal].resolved_revision->0 < next.prepared_revision
        }),
{
    reveal(snapshot_rules::journal);
    let check = |key: u128, history: CompletionHistory|
        snapshot_rules::history_checked(s, key, history);
    first_refusal::lemma_every(s.recovery.completion_history, check);
    assert(check(key, s.recovery.completion_history[key]) is Ok);
    reveal(snapshot_rules::history_checked);
    reveal(snapshot_rules::succeeds);
    reveal(snapshot_rules::closed_rows);
    reveal(snapshot_rules::closed_evidence);
    reveal(snapshot_rules::closed_row);
    reveal(snapshot_rules::closed_context);
    reveal(snapshot_rules::sealed_before);
    reveal(rules::phase);
}

/// Whether the phase is of the closed attempt, behind its beginning and before the next.
pub open spec fn within_attempt(
    s: StateView,
    op: RecoveryRecord,
    h: CompletionHistory,
    id: u128,
    from: u64,
    until: u64,
) -> bool {
    &&& is_phase(s, op, id)
    &&& s.recovery.phases[id].completion_scope == Some(h.scope)
    &&& from <= s.recovery.phases[id].sequence < until
}

// ---------------------------------------------------------------------
// A later journal
// ---------------------------------------------------------------------

/// Whether what was set is still set, and to the same.
pub open spec fn stays(old: Option<u128>, new: Option<u128>) -> bool {
    old is Some ==> new == old
}

/// A later journal keeps of every operation its request, who asked and when it began, its
/// stop, and every milestone that it had reached; it goes back in neither revision nor
/// sequence; and no voter loses what is recorded of it.
pub proof fn lemma_operation_kept(before: StateView, after: StateView, key: u128, k: int)
    requires
        snapshot_rules::successor(before, after) is Ok,
        before.recovery.operations.dom().contains(key),
        0 <= k < 3,
    ensures
        ({
            let old = before.recovery.operations[key];
            let new = after.recovery.operations[key];
            let v = voters_of(old.voters)[k];
            &&& after.recovery.operations.dom().contains(key)
            &&& new.request == old.request
            &&& new.original_principal == old.original_principal
            &&& new.created_revision == old.created_revision
            &&& old.updated_revision <= new.updated_revision
            &&& old.next_phase_sequence <= new.next_phase_sequence
            &&& stays(old.stop_request, new.stop_request)
            &&& stays(old.materialization_intent, new.materialization_intent)
            &&& stays(old.issuer_preparation, new.issuer_preparation)
            &&& stays(old.initialization, new.initialization)
            &&& stays(old.completion, new.completion)
            &&& stays(old.retirement, new.retirement)
            &&& stays(old.source_fence, new.source_fence)
            &&& stays(old.activation, new.activation)
            &&& stays(old.route_publication, new.route_publication)
            &&& stays(old.target_stop, new.target_stop)
            &&& old.activation_attempt is Some ==> new.activation_attempt is Some
            &&& old.completion_intent is Some ==> new.completion_intent is Some
            &&& exists|j: int|
                0 <= j < 3 && (#[trigger] voters_of(new.voters)[j]).node_id == v.node_id && stays(
                    v.materialization,
                    voters_of(new.voters)[j].materialization,
                ) && stays(v.confirmation, voters_of(new.voters)[j].confirmation) && stays(
                    v.cleanup,
                    voters_of(new.voters)[j].cleanup,
                ) && (v.started is Some ==> voters_of(new.voters)[j].started is Some)
        }),
{
    reveal(snapshot_rules::successor);
    let heads = |key: u128, old: RecoveryRecord|
        snapshot_rules::operation_kept(before, after, key, old);
    first_refusal::lemma_every(before.recovery.operations, heads);
    assert(heads(key, before.recovery.operations[key]) is Ok);
    reveal(snapshot_rules::operation_kept);
    reveal(snapshot_rules::head_kept);
    reveal(snapshot_rules::identity_kept);
    reveal(snapshot_rules::progress_kept);
    reveal(snapshot_rules::attempts_kept);
    reveal(snapshot_rules::moved_on);
    reveal(snapshot_rules::cursor_advanced);
    reveal(snapshot_rules::rotated);
    reveal(snapshot_rules::voters_kept);
    reveal(snapshot_rules::voter_kept);
    reveal(snapshot_rules::started_kept);
    reveal(rules::voter);
    let new = after.recovery.operations[key];
    let voters = voters_of(new.voters);
    let node = voters_of(before.recovery.operations[key].voters)[k].node_id;
    let j: int = if voters[0].node_id == node {
        0
    } else if voters[1].node_id == node {
        1
    } else {
        2
    };
    assert(voters[j].node_id == node);
}

/// A later journal keeps every phase with all that was recorded of it: what was sent, by
/// whom and when, and the answer if it had one.
pub proof fn lemma_phase_kept(before: StateView, after: StateView, id: u128)
    requires
        snapshot_rules::successor(before, after) is Ok,
        before.recovery.phases.dom().contains(id),
    ensures
        ({
            let old = before.recovery.phases[id];
            let new = after.recovery.phases[id];
            &&& after.recovery.phases.dom().contains(id)
            &&& new.operation_id == old.operation_id
            &&& new.phase_id == old.phase_id
            &&& new.sequence == old.sequence
            &&& new.phase == old.phase
            &&& new.completion_scope == old.completion_scope
            &&& new.previous_phase == old.previous_phase
            &&& new.input == old.input
            &&& new.principal == old.principal
            &&& new.admitted_at_ms == old.admitted_at_ms
            &&& new.original_credential_expires_at_ms == old.original_credential_expires_at_ms
            &&& new.prepared_revision == old.prepared_revision
            &&& old.outcome is Some ==> new.outcome == old.outcome
            &&& old.resolved_revision is Some ==> new.resolved_revision == old.resolved_revision
        }),
{
    reveal(snapshot_rules::successor);
    let rows = |key: u128, old: PhaseRecord| snapshot_rules::phase_kept(after, key, old);
    first_refusal::lemma_every(before.recovery.phases, rows);
    assert(rows(id, before.recovery.phases[id]) is Ok);
    reveal(snapshot_rules::phase_kept);
    reveal(snapshot_rules::phase_same);
}

} // verus!
