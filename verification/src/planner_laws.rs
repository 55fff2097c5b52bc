//! What the activation planner promises: it asks the next voter that is still to be asked,
//! for what that voter still has to do, and the journal admits what it plans.
use vstd::prelude::*;

use crate::activation_rules;
use crate::errors::Error;
use crate::held::Held;
use crate::journal_rules;
use crate::model::{
    AuthorityAction, AuthorityCommand, AuthorityIdentity, Dispatch, DispatchOutcome,
    LifecycleIntent, LifecyclePhase, PhaseRecord, QuorumInput, RecoveryAuthorization,
    RecoveryPhase, RecoveryRecord, SignedActivation, TargetOutcome, TargetStep, Voter, Voters,
};
use crate::receiver_rules;
use crate::rules;
use crate::views::StateView;

verus! {

broadcast use {crate::held::lemma_held, crate::held::lemma_reheld};

/// Whether the phase is retained as one of the operation's.
pub open spec fn is_phase(s: StateView, op: RecoveryRecord, id: u128) -> bool {
    s.recovery.phases.dom().contains(id) && s.recovery.phases[id].operation_id
        == op.request.operation_id
}

/// Whether the operation's phase committed the intent.
pub open spec fn committed(s: StateView, op: RecoveryRecord, id: u128, current: LifecycleIntent) -> bool {
    &&& is_phase(s, op, id)
    &&& s.recovery.phases[id].outcome matches Some(DispatchOutcome::ControlIntent(held))
        && held@ == current
}

/// The voters, in their order.
pub open spec fn voters_of(voters: Voters) -> Seq<Voter> {
    seq![voters.first, voters.second, voters.third]
}

/// Whether the voter has acknowledged a start under the command.
pub open spec fn has_started(s: StateView, op: RecoveryRecord, v: Voter, command: u128) -> bool {
    &&& v.started is Some
    &&& is_phase(s, op, v.started->0)
    &&& match (
        s.recovery.phases[v.started->0].input,
        s.recovery.phases[v.started->0].outcome,
    ) {
        (
            Dispatch::Target { node_id, request },
            Some(DispatchOutcome::Target(response)),
        ) => node_id == v.node_id && request@.command_id == command && response@.node_id
            == v.node_id && response@.outcome is Started,
        _ => false,
    }
}

/// Whether the voter's confirmation is retained with the activation that it signed.
pub open spec fn confirms(s: StateView, op: RecoveryRecord, v: Voter, signed: SignedActivation) -> bool {
    &&& v.confirmation is Some
    &&& is_phase(s, op, v.confirmation->0)
    &&& match s.recovery.phases[v.confirmation->0].outcome {
        Some(DispatchOutcome::Target(response)) => response@.outcome matches
            TargetOutcome::Activated(held) && held@ == signed,
        _ => false,
    }
}

/// Whether the `k`th voter is the first that has not started under the command.
pub open spec fn next_to_start(s: StateView, op: RecoveryRecord, command: u128, k: int) -> bool {
    let voters = voters_of(op.voters);
    &&& 0 <= k < 3
    &&& !has_started(s, op, voters[k], command)
    &&& forall|j: int| 0 <= j < k ==> has_started(s, op, #[trigger] voters[j], command)
}

/// Whether every voter has started under the command.
pub open spec fn everyone_started(s: StateView, op: RecoveryRecord, command: u128) -> bool {
    forall|j: int|
        0 <= j < 3 ==> has_started(s, op, #[trigger] voters_of(op.voters)[j], command)
}

/// Whether the `k`th voter is the first that has not confirmed.
pub open spec fn next_to_confirm(voters: Voters, k: int) -> bool {
    &&& 0 <= k < 3
    &&& voters_of(voters)[k].confirmation is None
    &&& forall|j: int| 0 <= j < k ==> (#[trigger] voters_of(voters)[j]).confirmation is Some
}

/// Whether the `k`th voter is the first that has confirmed.
pub open spec fn first_confirmed(voters: Voters, k: int) -> bool {
    &&& 0 <= k < 3
    &&& voters_of(voters)[k].confirmation is Some
    &&& forall|j: int| 0 <= j < k ==> (#[trigger] voters_of(voters)[j]).confirmation is None
}

pub open spec fn nobody_confirmed(voters: Voters) -> bool {
    forall|j: int| 0 <= j < 3 ==> (#[trigger] voters_of(voters)[j]).confirmation is None
}

/// Whether the request ends where its timeout, the caller's credential or the intent's
/// does, whichever is first.
pub open spec fn ends_first(not_after_ms: u64, now: u64, timeout: u64, expires: u64, until: u64) -> bool {
    &&& not_after_ms <= now + timeout
    &&& not_after_ms <= expires
    &&& not_after_ms <= until
    &&& not_after_ms == now + timeout || not_after_ms == expires || not_after_ms == until
}

/// Whether a voter counts as started is what its retained start says.
pub proof fn lemma_started(s: StateView, op: RecoveryRecord, command: u128, k: int)
    requires
        op.voters.ascend(),
        0 <= k < 3,
        rules::started_for(s, op, voters_of(op.voters)[k].node_id, command) is Ok,
    ensures
        rules::started_for(s, op, voters_of(op.voters)[k].node_id, command)->Ok_0 == has_started(
            s,
            op,
            voters_of(op.voters)[k],
            command,
        ),
{
    reveal(rules::started_for);
    reveal(rules::voter);
    reveal(rules::phase);
}

proof fn lemma_unstarted(s: StateView, op: RecoveryRecord, command: u128)
    requires
        op.voters.ascend(),
        receiver_rules::first_unstarted(s, op, command) is Ok,
    ensures
        match receiver_rules::first_unstarted(s, op, command)->Ok_0 {
            None => everyone_started(s, op, command),
            Some(node) => exists|k: int| #[trigger]
                next_to_start(s, op, command, k) && voters_of(op.voters)[k].node_id == node,
        },
{
    reveal(receiver_rules::first_unstarted);
    let voters = voters_of(op.voters);
    lemma_started(s, op, command, 0);
    if has_started(s, op, voters[0], command) {
        lemma_started(s, op, command, 1);
        if has_started(s, op, voters[1], command) {
            lemma_started(s, op, command, 2);
            if !has_started(s, op, voters[2], command) {
                assert(next_to_start(s, op, command, 2));
            }
        } else {
            assert(next_to_start(s, op, command, 1));
        }
    } else {
        assert(next_to_start(s, op, command, 0));
    }
}

/// The current intent is live exactly while its credential lasts.
pub proof fn lemma_live(
    s: StateView,
    op: RecoveryRecord,
    current: LifecycleIntent,
    now: u64,
)
    requires
        op.current_intent is Some,
        committed(s, op, op.current_intent->0, current),
    ensures
        journal_rules::live_intent(s, op, now) == Ok::<Option<LifecycleIntent>, Error>(
            if now < current.original_credential_expires_at_ms {
                Some(current)
            } else {
                None
            },
        ),
        forall|message: &'static str| #[trigger]
            rules::intent_of(s, op, op.current_intent, message) == Ok::<LifecycleIntent, Error>(
                current,
            ),
{
    reveal(journal_rules::live_intent);
    reveal(rules::intent);
    reveal(rules::intent_of);
    reveal(rules::phase);
}

/// While voters are to confirm, the planner asks one of them for the next thing that it
/// has to do, under the live intent and in time: the first that has not started to start,
/// and, once all have started, the first of all to activate where nobody has confirmed, and
/// else the first that has not confirmed to confirm the activation that is retained.
pub proof fn lemma_confirmation_planned(
    s: StateView,
    op: RecoveryRecord,
    id: u128,
    now: u64,
    expires: u64,
    current: LifecycleIntent,
)
    requires
        op.voters.ascend(),
        op.phase == RecoveryPhase::Confirm,
        op.current_intent is Some,
        committed(s, op, op.current_intent->0, current),
        now < current.original_credential_expires_at_ms,
        journal_rules::next_dispatch(s, op, id, now, expires) is Ok,
    ensures
        ({
            let d = journal_rules::next_dispatch(s, op, id, now, expires)->Ok_0;
            let command = current.request.command_id;
            &&& d is Target
            &&& d->Target_request@.tenant == op.request.tenant
            &&& d->Target_request@.command_id == command
            &&& ends_first(
                d->Target_request@.not_after_ms,
                now,
                op.request.phase_timeout_ms,
                expires,
                current.original_credential_expires_at_ms,
            )
            &&& match d->Target_request@.step {
                TargetStep::StartActivation { quorum, issuer_command_id } => {
                    &&& exists|k: int| #[trigger]
                        next_to_start(s, op, command, k) && voters_of(op.voters)[k].node_id
                            == d->Target_node_id
                    &&& asks_winner(s, op, quorum, issuer_command_id)
                },
                TargetStep::Activate { quorum, issuer_command_id } => {
                    &&& everyone_started(s, op, command)
                    &&& nobody_confirmed(op.voters)
                    &&& d->Target_node_id == op.voters.first.node_id
                    &&& asks_winner(s, op, quorum, issuer_command_id)
                },
                TargetStep::ConfirmActivation(signed) => {
                    &&& everyone_started(s, op, command)
                    &&& exists|k: int| #[trigger]
                        next_to_confirm(op.voters, k) && voters_of(op.voters)[k].node_id
                            == d->Target_node_id
                    &&& exists|k: int| #[trigger]
                        first_confirmed(op.voters, k) && confirms(
                            s,
                            op,
                            voters_of(op.voters)[k],
                            signed@,
                        )
                },
                _ => false,
            }
        }),
{
    reveal(journal_rules::next_dispatch);
    reveal(journal_rules::live_dispatch);
    reveal(journal_rules::confirm_step);
    reveal(journal_rules::started_step);
    reveal(journal_rules::first_unconfirmed);
    reveal(receiver_rules::dispatched);
    let command = current.request.command_id;
    lemma_live(s, op, current, now);
    lemma_unstarted(s, op, command);
    let voters = voters_of(op.voters);
    if everyone_started(s, op, command) {
        lemma_proof_retained(s, op);
        let d = journal_rules::next_dispatch(s, op, id, now, expires)->Ok_0;
        assert(has_started(s, op, voters[0], command));
        if d->Target_request@.step is ConfirmActivation {
            let k: int = if voters[0].confirmation is None {
                0
            } else if voters[1].confirmation is None {
                1
            } else {
                2
            };
            assert(next_to_confirm(op.voters, k));
        }
    }
}

/// Whether the step is the winner's: of the quorum that was completed, and of the very
/// command that the issuer chose.
pub open spec fn asks_winner(
    s: StateView,
    op: RecoveryRecord,
    quorum: Held<QuorumInput>,
    issuer_command_id: u128,
) -> bool {
    &&& rules::quorum_input(s, op) == Ok::<QuorumInput, Error>(quorum@)
    &&& activation_rules::winner(s, op) is Ok
    &&& activation_rules::winner(s, op)->Ok_0.command.command_id == issuer_command_id
}

/// The retained activation is the first confirmed voter's.
pub proof fn lemma_proof_retained(s: StateView, op: RecoveryRecord)
    ensures
        match activation_rules::local_proof(s, op) {
            Err(_) => true,
            Ok(None) => nobody_confirmed(op.voters),
            Ok(Some(signed)) => exists|k: int| #[trigger]
                first_confirmed(op.voters, k) && confirms(s, op, voters_of(op.voters)[k], signed),
        },
        nobody_confirmed(op.voters) ==> activation_rules::local_proof(s, op) == Ok::<
            Option<SignedActivation>,
            Error,
        >(None),
        forall|k: int, signed: SignedActivation| #[trigger]
            first_confirmed(op.voters, k) && #[trigger] confirms(
                s,
                op,
                voters_of(op.voters)[k],
                signed,
            ) ==> activation_rules::local_proof(s, op) == Ok::<Option<SignedActivation>, Error>(
                Some(signed),
            ),
{
    reveal(activation_rules::local_proof);
    reveal(activation_rules::confirmed);
    reveal(rules::phase);
    let voters = voters_of(op.voters);
    let k: int = if voters[0].confirmation is Some {
        0
    } else if voters[1].confirmation is Some {
        1
    } else {
        2
    };
    if voters[k].confirmation is Some {
        assert(first_confirmed(op.voters, k));
        assert forall|j: int| #[trigger] first_confirmed(op.voters, j) implies j == k by {
            assert(voters[j].confirmation is Some);
        }
    } else {
        assert(nobody_confirmed(op.voters));
    }
    if nobody_confirmed(op.voters) {
        assert(voters[0].confirmation is None);
        assert(voters[1].confirmation is None);
        assert(voters[2].confirmation is None);
    }
}

/// Where voters are to confirm, a next dispatch is owed: while some voter has still to
/// start or to confirm, what it is to be asked is planned.
pub proof fn lemma_confirmation_owed(
    s: StateView,
    op: RecoveryRecord,
    id: u128,
    now: u64,
    expires: u64,
    current: LifecycleIntent,
    unconfirmed: int,
)
    requires
        op.voters.ascend(),
        op.phase == RecoveryPhase::Confirm,
        op.current_intent is Some,
        committed(s, op, op.current_intent->0, current),
        now < current.original_credential_expires_at_ms,
        now + op.request.phase_timeout_ms <= u64::MAX,
        rules::quorum_input(s, op) is Ok,
        activation_rules::winner(s, op) is Ok,
        forall|j: int|
            #![trigger voters_of(op.voters)[j]]
            0 <= j < 3 ==> {
                let v = voters_of(op.voters)[j];
                &&& v.started is Some ==> is_phase(s, op, v.started->0)
                &&& v.confirmation is Some ==> exists|signed: SignedActivation|
                    confirms(s, op, v, signed)
            },
        0 <= unconfirmed < 3,
        voters_of(op.voters)[unconfirmed].confirmation is None,
    ensures
        journal_rules::next_dispatch(s, op, id, now, expires) is Ok,
{
    reveal(journal_rules::next_dispatch);
    reveal(journal_rules::live_dispatch);
    reveal(journal_rules::confirm_step);
    reveal(journal_rules::started_step);
    reveal(journal_rules::first_unconfirmed);
    reveal(receiver_rules::dispatched);
    reveal(receiver_rules::first_unstarted);
    reveal(rules::started_for);
    reveal(rules::voter);
    reveal(rules::phase);
    lemma_live(s, op, current, now);
    lemma_proof_retained(s, op);
    let voters = voters_of(op.voters);
    assert(voters[0].started is Some ==> is_phase(s, op, voters[0].started->0));
    assert(voters[1].started is Some ==> is_phase(s, op, voters[1].started->0));
    assert(voters[2].started is Some ==> is_phase(s, op, voters[2].started->0));
    if !nobody_confirmed(op.voters) {
        let k: int = if voters[0].confirmation is Some {
            0
        } else if voters[1].confirmation is Some {
            1
        } else {
            2
        };
        assert(first_confirmed(op.voters, k));
        let signed = choose|signed: SignedActivation| confirms(s, op, voters[k], signed);
        assert(confirms(s, op, voters[k], signed));
    }
}

/// Without a live intent the planner asks Control for one: a fresh activation intent, under
/// the dispatch's own identity and the state's policy epoch, for the operation's target.
pub proof fn lemma_intent_planned(
    s: StateView,
    op: RecoveryRecord,
    id: u128,
    now: u64,
    expires: u64,
    current: LifecycleIntent,
)
    requires
        op.phase != RecoveryPhase::StopActivation,
        op.current_intent is None || (committed(s, op, op.current_intent->0, current) && now
            >= current.original_credential_expires_at_ms),
    ensures
        match journal_rules::next_dispatch(s, op, id, now, expires) {
            Err(_) => true,
            Ok(d) => {
                &&& d is ControlIntent
                &&& d->ControlIntent_0@.command_id == id
                &&& d->ControlIntent_0@.phase == LifecyclePhase::Activate
                &&& d->ControlIntent_0@.expected_policy_epoch == s.policy_epoch
                &&& d->ControlIntent_0@.tenant == op.request.tenant
                &&& d->ControlIntent_0@.source_incarnation == op.request.source_incarnation
                &&& d->ControlIntent_0@.source_authority_epoch == op.request.source_authority_epoch
                &&& d->ControlIntent_0@.target_incarnation == op.request.target_incarnation
                &&& d->ControlIntent_0@.checkpoint == op.request.checkpoint
                &&& d->ControlIntent_0@.target_nodes == op.request.target_nodes
                &&& d->ControlIntent_0@.installation_sha256 == op.request.installation_sha256
                &&& d->ControlIntent_0@.authority_partition == op.request.authority_partition
                &&& d->ControlIntent_0@.resume_origin is None
            },
        },
        activation_rules::activation_input(s, op) is Ok ==> journal_rules::next_dispatch(
            s,
            op,
            id,
            now,
            expires,
        ) is Ok,
{
    reveal(journal_rules::next_dispatch);
    reveal(journal_rules::live_intent);
    reveal(journal_rules::expected_intent);
    reveal(journal_rules::phase_input);
    if op.current_intent is Some {
        lemma_live(s, op, current, now);
    }
}

/// Under a live intent, an operation that is to be activated asks the issuer to activate
/// its own target under exactly that intent; one that stops its activation asks the issuer
/// to stop the very command that was sent. Either is of the dispatch's own identity, and
/// ends in time.
pub proof fn lemma_issuer_planned(
    s: StateView,
    op: RecoveryRecord,
    id: u128,
    now: u64,
    expires: u64,
    current: LifecycleIntent,
)
    requires
        op.phase == RecoveryPhase::StopActivation || (op.phase == RecoveryPhase::Activate
            && op.current_intent is Some && committed(s, op, op.current_intent->0, current) && now
            < current.original_credential_expires_at_ms),
        journal_rules::next_dispatch(s, op, id, now, expires) is Ok,
    ensures
        ({
            let d = journal_rules::next_dispatch(s, op, id, now, expires)->Ok_0;
            let command = d->Authority_0@;
            &&& d is Authority
            &&& command.tenant == op.request.tenant
            &&& command.command_id == id
            &&& command.expected_policy_epoch == op.request.authority_policy_epoch
            &&& op.phase == RecoveryPhase::StopActivation ==> {
                &&& ends_first(
                    command.not_after_ms,
                    now,
                    op.request.phase_timeout_ms,
                    expires,
                    expires,
                )
                &&& op.activation_attempt is Some
                &&& is_phase(s, op, op.activation_attempt->0)
                &&& command.action is StopActivation
                &&& s.recovery.phases[op.activation_attempt->0].input is Authority
                &&& ({
                    let stopped = command.action->StopActivation_original@;
                    let sent = s.recovery.phases[op.activation_attempt->0].input->Authority_0@;
                    &&& sent.tenant == stopped.tenant
                    &&& sent.command_id == stopped.command_id
                    &&& sent.expected_policy_epoch == stopped.expected_policy_epoch
                    &&& sent.not_after_ms == stopped.not_after_ms
                    &&& sent.action is ActivateCommitted
                    &&& sent.action->ActivateCommitted_0@ == stopped.activation
                })
            }
            &&& op.phase == RecoveryPhase::Activate ==> {
                &&& ends_first(
                    command.not_after_ms,
                    now,
                    op.request.phase_timeout_ms,
                    expires,
                    current.original_credential_expires_at_ms,
                )
                &&& command.action is ActivateCommitted
                &&& ({
                    let activation = command.action->ActivateCommitted_0@;
                    let reference = activation.control.reference;
                    &&& activation.target.incarnation == op.request.target_incarnation
                    &&& activation.target.checkpoint == op.request.checkpoint
                    &&& activation.target.nodes == op.request.target_nodes
                    &&& reference.identity == AuthorityIdentity::Intent(current.request.command_id)
                    &&& reference.control_incarnation == current.control_incarnation
                    &&& reference.control_policy_epoch == current.request.expected_policy_epoch
                    &&& current.request.phase == LifecyclePhase::Activate
                })
            }
        }),
{
    reveal(journal_rules::next_dispatch);
    reveal(journal_rules::live_dispatch);
    reveal(activation_rules::authority_command);
    reveal(activation_rules::stop_action);
    reveal(activation_rules::attempt);
    reveal(activation_rules::activate_command);
    reveal(activation_rules::activation_of);
    reveal(activation_rules::action_for_intent);
    reveal(activation_rules::committed_activation_input);
    reveal(activation_rules::activation_input);
    reveal(rules::accepts_phase);
    reveal(rules::accepts);
    reveal(rules::target);
    reveal(rules::phase_of);
    reveal(rules::phase);
    if op.phase == RecoveryPhase::Activate {
        lemma_live(s, op, current, now);
    }
}

/// What the planner plans, the journal admits at the same time and under the same
/// credential: an intent as the one that the phase asks for, an issuer command and a target
/// step as the next of their phase. What is left to the journal is whether a former
/// activation was refused, and whether the intent and the retained proof stand for the
/// committed winner.
pub proof fn lemma_plan_admitted(
    s: StateView,
    op: RecoveryRecord,
    id: u128,
    current: LifecycleIntent,
    a: RecoveryAuthorization,
)
    requires
        op.voters.ascend(),
        op.phase == RecoveryPhase::Activate || op.phase == RecoveryPhase::Confirm || op.phase
            == RecoveryPhase::StopActivation,
        op.current_intent is Some ==> committed(s, op, op.current_intent->0, current),
        a.admitted_at_ms < a.expires_at_ms,
        op.request.phase_timeout_ms > 0,
        a.policy_epoch == s.policy_epoch,
        a.input_bytes <= a.max_record_bytes / 2,
        journal_rules::next_dispatch(s, op, id, a.admitted_at_ms, a.expires_at_ms) is Ok,
        journal_rules::negative_before(s, op) is Ok,
        op.phase == RecoveryPhase::Confirm ==> {
            &&& forall|message: &'static str| #[trigger]
                activation_rules::committed_activation_input(s, op, current, message) is Ok
            &&& forall|node: u64, signed: SignedActivation|
                activation_rules::local_proof(s, op) == Ok::<Option<SignedActivation>, Error>(
                    Some(signed),
                ) ==> #[trigger] activation_rules::local_activation(
                    s,
                    op,
                    node,
                    signed,
                    false,
                ) is Ok
        },
    ensures
        ({
            let d = journal_rules::next_dispatch(
                s,
                op,
                id,
                a.admitted_at_ms,
                a.expires_at_ms,
            )->Ok_0;
            journal_rules::input_admitted(s, op, id, d, a) is Ok
        }),
{
    reveal(journal_rules::next_dispatch);
    reveal(journal_rules::live_dispatch);
    reveal(journal_rules::input_admitted);
    reveal(activation_rules::authority_command);
    let now = a.admitted_at_ms;
    if op.current_intent is Some {
        lemma_live(s, op, current, now);
    }
    let d = journal_rules::next_dispatch(s, op, id, now, a.expires_at_ms)->Ok_0;
    if op.phase == RecoveryPhase::StopActivation {
        reveal(journal_rules::authority_input);
        reveal(journal_rules::expected_action);
        reveal(journal_rules::within_activation_intent);
    } else if op.current_intent is None || now >= current.original_credential_expires_at_ms {
        reveal(journal_rules::live_intent);
        reveal(journal_rules::control_input);
        reveal(journal_rules::next_control_phase);
        reveal(journal_rules::fresh_enough);
        reveal(journal_rules::expected_intent);
    } else if op.phase == RecoveryPhase::Activate {
        reveal(journal_rules::authority_input);
        reveal(journal_rules::expected_action);
        reveal(journal_rules::within_activation_intent);
        reveal(activation_rules::current_action);
    } else {
        lemma_step_admitted(s, op, id, current, a);
    }
}

proof fn lemma_step_admitted(
    s: StateView,
    op: RecoveryRecord,
    id: u128,
    current: LifecycleIntent,
    a: RecoveryAuthorization,
)
    requires
        op.voters.ascend(),
        op.phase == RecoveryPhase::Confirm,
        op.current_intent is Some,
        committed(s, op, op.current_intent->0, current),
        a.admitted_at_ms < current.original_credential_expires_at_ms,
        a.admitted_at_ms < a.expires_at_ms,
        op.request.phase_timeout_ms > 0,
        journal_rules::next_dispatch(s, op, id, a.admitted_at_ms, a.expires_at_ms) is Ok,
        forall|message: &'static str| #[trigger]
            activation_rules::committed_activation_input(s, op, current, message) is Ok,
        forall|node: u64, signed: SignedActivation|
            activation_rules::local_proof(s, op) == Ok::<Option<SignedActivation>, Error>(
                Some(signed),
            ) ==> #[trigger] activation_rules::local_activation(s, op, node, signed, false) is Ok,
    ensures
        ({
            let d = journal_rules::next_dispatch(
                s,
                op,
                id,
                a.admitted_at_ms,
                a.expires_at_ms,
            )->Ok_0;
            d is Target && journal_rules::target_input(
                s,
                op,
                d->Target_node_id,
                d->Target_request@,
                a,
            ) is Ok
        }),
{
    lemma_confirmation_planned(s, op, id, a.admitted_at_ms, a.expires_at_ms, current);
    lemma_live(s, op, current, a.admitted_at_ms);
    reveal(journal_rules::next_dispatch);
    reveal(journal_rules::live_dispatch);
    reveal(journal_rules::confirm_step);
    reveal(journal_rules::started_step);
    reveal(journal_rules::first_unconfirmed);
    reveal(receiver_rules::dispatched);
    reveal(receiver_rules::first_unstarted);
    reveal(journal_rules::target_input);
    reveal(journal_rules::target_deadline);
    reveal(journal_rules::admitted_target_step);
    reveal(activation_rules::step);
    reveal(activation_rules::winner_step);
    reveal(activation_rules::first_activation_admitted);
    reveal(activation_rules::confirmation_admitted);
    reveal(activation_rules::same_activation);
    reveal(rules::all_started);
    reveal(rules::voter);
}

/// A voter's acknowledgement of its activation is its confirmation, and nobody else's; the
/// operation goes on to publish its route exactly when the last voter has confirmed.
pub proof fn lemma_confirmed(op: RecoveryRecord, id: u128, k: int)
    requires
        op.voters.ascend(),
        0 <= k < 3,
        op.phase == RecoveryPhase::Confirm,
    ensures
        ({
            let v = voters_of(op.voters)[k];
            let head = journal_rules::confirmed_progress(op, id, v);
            &&& voters_of(head.voters)[k] == (Voter { confirmation: Some(id), ..v })
            &&& forall|j: int|
                0 <= j < 3 && j != k ==> #[trigger] voters_of(head.voters)[j] == voters_of(
                    op.voters,
                )[j]
            &&& head.phase == RecoveryPhase::Publish <==> forall|j: int|
                0 <= j < 3 && j != k ==> (#[trigger] voters_of(op.voters)[j]).confirmation is Some
            &&& head.phase == RecoveryPhase::Publish || head.phase == RecoveryPhase::Confirm
            &&& head == (RecoveryRecord { voters: head.voters, phase: head.phase, ..op })
        }),
{
    reveal(journal_rules::confirmed_progress);
    reveal(journal_rules::replaced);
    let v = voters_of(op.voters)[k];
    let head = journal_rules::confirmed_progress(op, id, v);
    assert(voters_of(op.voters)[0] == op.voters.first);
    assert(voters_of(op.voters)[1] == op.voters.second);
    assert(voters_of(op.voters)[2] == op.voters.third);
    assert(voters_of(head.voters)[0] == head.voters.first);
    assert(voters_of(head.voters)[1] == head.voters.second);
    assert(voters_of(head.voters)[2] == head.voters.third);
}

// ---------------------------------------------------------------------
// The completion receiver
// ---------------------------------------------------------------------

/// Whether a start of the voter was sent under the command, as one that was initialized.
pub open spec fn was_asked_to_start(
    s: StateView,
    op: RecoveryRecord,
    v: Voter,
    command: u128,
) -> bool {
    &&& v.start_attempt is Some
    &&& is_phase(s, op, v.start_attempt->0)
    &&& match s.recovery.phases[v.start_attempt->0].input {
        Dispatch::Target { node_id, request } => node_id == v.node_id && request@.command_id
            == command && match request@.step {
            TargetStep::Start(input) => input !is Quorum,
            _ => false,
        },
        _ => false,
    }
}

/// How many of the voters have started under the command.
pub open spec fn started_count(s: StateView, op: RecoveryRecord, command: u128) -> int {
    (if has_started(s, op, op.voters.first, command) {
        1int
    } else {
        0
    }) + (if has_started(s, op, op.voters.second, command) {
        1int
    } else {
        0
    }) + (if has_started(s, op, op.voters.third, command) {
        1int
    } else {
        0
    })
}

/// Whether the `k`th voter is the first that has started under the command.
pub open spec fn first_started(s: StateView, op: RecoveryRecord, command: u128, k: int) -> bool {
    let voters = voters_of(op.voters);
    &&& 0 <= k < 3
    &&& has_started(s, op, voters[k], command)
    &&& forall|j: int| 0 <= j < k ==> !has_started(s, op, #[trigger] voters[j], command)
}

/// Whether the voter has neither started nor been asked to under the command.
pub open spec fn untried(s: StateView, op: RecoveryRecord, v: Voter, command: u128) -> bool {
    !has_started(s, op, v, command) && !was_asked_to_start(s, op, v, command)
}

/// Whether the step is the one that the intent's phase asks a started replica for, and the
/// input the one that it would be started with.
pub open spec fn asks_phase(
    s: StateView,
    op: RecoveryRecord,
    phase: LifecyclePhase,
    step: TargetStep,
    started: bool,
) -> bool {
    match phase {
        LifecyclePhase::InspectCompletionAttempt => match step {
            TargetStep::InspectCompletionAttempt(input) => started && rules::status_input(s, op)
                == Ok::<crate::model::AttemptStatusInput, Error>(input@),
            TargetStep::Start(crate::model::ReplicaInput::CompletionAttemptStatus(input)) =>
                !started && rules::status_input(s, op) == Ok::<
                crate::model::AttemptStatusInput,
                Error,
            >(input@),
            _ => false,
        },
        LifecyclePhase::ResolveComplete => match step {
            TargetStep::ResolveComplete(input) => started && rules::resolution_input(s, op)
                == Ok::<crate::model::ResolutionInput, Error>(input@),
            TargetStep::Start(crate::model::ReplicaInput::CompletionResolution(input)) => !started
                && rules::resolution_input(s, op) == Ok::<crate::model::ResolutionInput, Error>(
                input@,
            ),
            _ => false,
        },
        LifecyclePhase::InspectCompletionResolution => match step {
            TargetStep::InspectCompletionResolution(input) => started
                && rules::terminal_status_input(s, op) == Ok::<
                crate::model::TerminalStatusInput,
                Error,
            >(input@),
            TargetStep::Start(crate::model::ReplicaInput::CompletionTerminalStatus(input)) =>
                !started && rules::terminal_status_input(s, op) == Ok::<
                crate::model::TerminalStatusInput,
                Error,
            >(input@),
            _ => false,
        },
        _ => false,
    }
}

proof fn lemma_asked(s: StateView, op: RecoveryRecord, v: Voter, command: u128)
    requires
        rules::startup_attempted(s, op, v, command) is Ok,
    ensures
        rules::startup_attempted(s, op, v, command)->Ok_0 == was_asked_to_start(s, op, v, command),
{
    reveal(rules::startup_attempted);
    reveal(rules::established_start);
    reveal(rules::phase);
}

/// The receiver is asked what its intent's phase asks for once two voters have started, by
/// the first of them; until then voters are started for it, in their order: those first
/// that were not asked yet.
pub proof fn lemma_receiver_planned(
    s: StateView,
    op: RecoveryRecord,
    current: LifecycleIntent,
    now: u64,
    expires: u64,
)
    requires
        op.voters.ascend(),
        receiver_rules::next(s, op, current, now, expires) is Ok,
    ensures
        ({
            let d = receiver_rules::next(s, op, current, now, expires)->Ok_0;
            let command = current.request.command_id;
            let voters = voters_of(op.voters);
            &&& d is Target
            &&& d->Target_request@.tenant == op.request.tenant
            &&& d->Target_request@.command_id == command
            &&& ends_first(
                d->Target_request@.not_after_ms,
                now,
                op.request.phase_timeout_ms,
                expires,
                current.original_credential_expires_at_ms,
            )
            &&& asks_phase(
                s,
                op,
                current.request.phase,
                d->Target_request@.step,
                started_count(s, op, command) >= 2,
            )
            &&& started_count(s, op, command) >= 2 ==> exists|k: int| #[trigger]
                first_started(s, op, command, k) && voters[k].node_id == d->Target_node_id
            &&& started_count(s, op, command) < 2 ==> exists|k: int|
                0 <= k < 3 && (#[trigger] voters[k]).node_id == d->Target_node_id && !has_started(
                    s,
                    op,
                    voters[k],
                    command,
                ) && (untried(s, op, voters[k], command) ==> forall|j: int|
                    0 <= j < k ==> !untried(s, op, #[trigger] voters[j], command))
                    && (!untried(s, op, voters[k], command) ==> forall|j: int|
                    0 <= j < 3 ==> !untried(s, op, #[trigger] voters[j], command))
        }),
{
    reveal(receiver_rules::next);
    reveal(receiver_rules::dispatched);
    reveal(rules::established_destination);
    reveal(rules::ready_nodes);
    reveal(rules::idle);
    let command = current.request.command_id;
    let voters = voters_of(op.voters);
    lemma_started(s, op, command, 0);
    lemma_started(s, op, command, 1);
    lemma_started(s, op, command, 2);
    let d = receiver_rules::next(s, op, current, now, expires)->Ok_0;
    let ready = rules::ready_nodes(s, op, command)->Ok_0;
    let a = has_started(s, op, voters[0], command);
    let b = has_started(s, op, voters[1], command);
    let c = has_started(s, op, voters[2], command);
    assert(ready =~= rules::listed(a, voters[0].node_id) + rules::listed(b, voters[1].node_id)
        + rules::listed(c, voters[2].node_id));
    assert(ready.len() == started_count(s, op, command));
    assert(ready.contains(voters[0].node_id) == a) by {
        if a {
            assert(ready[0] == voters[0].node_id);
        }
    }
    assert(ready.contains(voters[1].node_id) == b) by {
        if b {
            assert(ready[if a {
                1int
            } else {
                0
            }] == voters[1].node_id);
        }
    }
    assert(ready.contains(voters[2].node_id) == c) by {
        if c {
            assert(ready[ready.len() - 1] == voters[2].node_id);
        }
    }
    if ready.len() > 1 {
        let k: int = if a {
            0
        } else {
            1
        };
        assert(first_started(s, op, command, k));
    } else {
        lemma_idle_voter(s, op, ready, command, 0);
        if !untried(s, op, voters[0], command) {
            lemma_idle_voter(s, op, ready, command, 1);
            if !untried(s, op, voters[1], command) {
                lemma_idle_voter(s, op, ready, command, 2);
                if !untried(s, op, voters[2], command) {
                    reveal(rules::restart_candidate);
                    reveal(rules::first_of);
                    let k: int = if d->Target_node_id == voters[0].node_id {
                        0
                    } else if d->Target_node_id == voters[1].node_id {
                        1
                    } else {
                        2
                    };
                    assert(voters[k].node_id == d->Target_node_id);
                    assert(!untried(s, op, voters[k], command));
                } else {
                    assert(voters[2].node_id == d->Target_node_id);
                }
            } else {
                assert(voters[1].node_id == d->Target_node_id);
            }
        } else {
            assert(voters[0].node_id == d->Target_node_id);
        }
    }
}

proof fn lemma_idle_voter(
    s: StateView,
    op: RecoveryRecord,
    ready: Seq<u64>,
    command: u128,
    k: int,
)
    requires
        0 <= k < 3,
        ready.contains(voters_of(op.voters)[k].node_id) == has_started(
            s,
            op,
            voters_of(op.voters)[k],
            command,
        ),
        rules::idle(s, op, voters_of(op.voters)[k], ready, command) is Ok,
    ensures
        rules::idle(s, op, voters_of(op.voters)[k], ready, command)->Ok_0 == untried(
            s,
            op,
            voters_of(op.voters)[k],
            command,
        ),
{
    reveal(rules::idle);
    let v = voters_of(op.voters)[k];
    if !ready.contains(v.node_id) {
        lemma_asked(s, op, v, command);
    }
}

/// An inspection starts every voter for it, the first that has not started next, and is
/// then asked of the first voter.
pub proof fn lemma_inspection_planned(
    s: StateView,
    op: RecoveryRecord,
    current: LifecycleIntent,
    now: u64,
    expires: u64,
)
    requires
        op.voters.ascend(),
        receiver_rules::next_inspection(s, op, current, now, expires) is Ok,
    ensures
        ({
            let d = receiver_rules::next_inspection(s, op, current, now, expires)->Ok_0;
            let command = current.request.command_id;
            &&& d is Target
            &&& d->Target_request@.tenant == op.request.tenant
            &&& d->Target_request@.command_id == command
            &&& ends_first(
                d->Target_request@.not_after_ms,
                now,
                op.request.phase_timeout_ms,
                expires,
                current.original_credential_expires_at_ms,
            )
            &&& match d->Target_request@.step {
                TargetStep::Start(crate::model::ReplicaInput::Inspection(input)) => {
                    &&& receiver_rules::inspection_input(s, op) == Ok::<
                        crate::model::InspectionInput,
                        Error,
                    >(input@)
                    &&& exists|k: int| #[trigger]
                        next_to_start(s, op, command, k) && voters_of(op.voters)[k].node_id
                            == d->Target_node_id
                },
                TargetStep::Inspect(input) => {
                    &&& receiver_rules::inspection_input(s, op) == Ok::<
                        crate::model::InspectionInput,
                        Error,
                    >(input@)
                    &&& everyone_started(s, op, command)
                    &&& d->Target_node_id == op.voters.first.node_id
                },
                _ => false,
            }
        }),
{
    reveal(receiver_rules::next_inspection);
    reveal(receiver_rules::committed_inspection);
    reveal(receiver_rules::dispatched);
    lemma_unstarted(s, op, current.request.command_id);
}

} // verus!
