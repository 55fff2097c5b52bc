//! What activation dispatches next: the issuer's decision, then a start of
//! every voter, then the first activation, then every confirmation of it.
use vstd::prelude::*;

use crate::errors::{conflict, Error};
use crate::held::hold;
use crate::journal_rules;
use crate::model::{
    Dispatch, LifecycleIntent, LifecyclePhase, QuorumInput, RecoveryPhase, RecoveryRecord, State,
    TargetStep, Voters,
};
use crate::recovery_activation::{
    action_for_intent, authority_command, local_proof, stop_action, winner,
};
use crate::recovery_completion::first_unstarted;
use crate::recovery_inputs::expected_intent;
use crate::recovery_lookup::intent;
use crate::recovery_quorum::quorum_input;
use crate::recovery_receiver::dispatched;

verus! {

fn live_intent(state: &State, operation: &RecoveryRecord, now: u64) -> (r: Result<
    Option<LifecycleIntent>,
    Error,
>)
    ensures
        r == journal_rules::live_intent(state@, *operation, now),
{
    proof {
        reveal(journal_rules::live_intent);
    }
    match operation.current_intent {
        None => Ok(None),
        Some(id) => {
            let current = intent(state, operation, id)?;
            if now < current.original_credential_expires_at_ms {
                Ok(Some(current))
            } else {
                Ok(None)
            }
        },
    }
}

fn first_unconfirmed(voters: &Voters) -> (r: Option<u64>)
    ensures
        r == journal_rules::first_unconfirmed(*voters),
{
    proof {
        reveal(journal_rules::first_unconfirmed);
    }
    if voters.first.confirmation.is_none() {
        Some(voters.first.node_id)
    } else if voters.second.confirmation.is_none() {
        Some(voters.second.node_id)
    } else if voters.third.confirmation.is_none() {
        Some(voters.third.node_id)
    } else {
        None
    }
}

fn started_step(
    state: &State,
    operation: &RecoveryRecord,
    quorum: &QuorumInput,
    issuer_command_id: u128,
) -> (r: Result<(u64, TargetStep), Error>)
    ensures
        r == journal_rules::started_step(state@, *operation, *quorum, issuer_command_id),
{
    proof {
        reveal(journal_rules::started_step);
    }
    match local_proof(state, operation)? {
        None => Ok(
            (
                operation.voters.first.node_id,
                TargetStep::Activate { quorum: hold(*quorum), issuer_command_id },
            ),
        ),
        Some(signed) => match first_unconfirmed(&operation.voters) {
            None => Err(conflict("unfinished activation confirmation absent")),
            Some(node) => Ok((node, TargetStep::ConfirmActivation(hold(signed)))),
        },
    }
}

fn confirm_step(state: &State, operation: &RecoveryRecord, current: &LifecycleIntent) -> (r: Result<
    (u64, TargetStep),
    Error,
>)
    ensures
        r == journal_rules::confirm_step(state@, *operation, *current),
{
    proof {
        reveal(journal_rules::confirm_step);
    }
    let quorum = quorum_input(state, operation)?;
    let winner = winner(state, operation)?;
    match first_unstarted(state, operation, current.request.command_id)? {
        Some(node) => Ok(
            (
                node,
                TargetStep::StartActivation {
                    quorum: hold(quorum),
                    issuer_command_id: winner.command.command_id,
                },
            ),
        ),
        None => started_step(state, operation, &quorum, winner.command.command_id),
    }
}

fn live_dispatch(
    state: &State,
    operation: &RecoveryRecord,
    phase_id: u128,
    current: &LifecycleIntent,
    now: u64,
    expires: u64,
) -> (r: Result<Dispatch, Error>)
    ensures
        r == journal_rules::live_dispatch(state@, *operation, phase_id, *current, now, expires),
{
    proof {
        reveal(journal_rules::live_dispatch);
    }
    if operation.phase == RecoveryPhase::Activate {
        let action = action_for_intent(state, operation, current)?;
        let until: u64 = if expires < current.original_credential_expires_at_ms {
            expires
        } else {
            current.original_credential_expires_at_ms
        };
        return authority_command(operation, phase_id, action, now, until);
    }
    if operation.phase != RecoveryPhase::Confirm {
        return Err(conflict("activation planner phase differs"));
    }
    let (node, step) = confirm_step(state, operation, current)?;
    dispatched(
        operation,
        current,
        node,
        step,
        now,
        expires,
        "activation dispatch deadline overflow",
    )
}

/// What activation dispatches next.
pub fn next_dispatch(
    state: &State,
    operation: &RecoveryRecord,
    phase_id: u128,
    now: u64,
    expires: u64,
) -> (r: Result<Dispatch, Error>)
    ensures
        r == journal_rules::next_dispatch(state@, *operation, phase_id, now, expires),
{
    proof {
        reveal(journal_rules::next_dispatch);
    }
    if operation.phase == RecoveryPhase::StopActivation {
        let action = stop_action(state, operation)?;
        return authority_command(operation, phase_id, action, now, expires);
    }
    match live_intent(state, operation, now)? {
        None => {
            let request = expected_intent(
                state,
                operation,
                phase_id,
                state.policy_epoch,
                LifecyclePhase::Activate,
                true,
            )?;
            Ok(Dispatch::ControlIntent(hold(request)))
        },
        Some(current) => live_dispatch(state, operation, phase_id, &current, now, expires),
    }
}

} // verus!
