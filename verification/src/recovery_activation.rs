//! One issuer winner precedes local activation and every voter confirmation.
//! An expired or ambiguous issuer command is resolved by an ordered permanent
//! StopActivation command; time passing alone never permits target deletion.
use vstd::prelude::*;

use crate::activation_rules;
use crate::digest::Digest;
use crate::encoding::{labelled_digest, ACCEPTED_INTENT, ACTIVATION, ISSUER_COMMAND};
use crate::held::hold;
use crate::errors::{conflict, Error};
use crate::model::{
    AcceptedIntent, ActivateCommand, ActivateTargetInput, Activation, ActivationOutcome,
    ActivationReceipt, AuthorityAction, AuthorityCommand, AuthorityIdentity, AuthorityOutcome,
    AuthorityReceipt, AuthorityReference, CommittedActivation, CommittedCompletion,
    CompletionFact, Dispatch, DispatchOutcome, LifecycleControl, LifecycleIntent, LifecyclePhase,
    Partition, PhaseRecord, QuorumInput, RecoveryPhase, RecoveryRecord, SignedActivation,
    SignedReceipt, State, TargetOutcome, TargetStep,
};
use crate::recovery_lookup::{
    accepts_phase, deadline, intent_of, origin, partition, phase, phase_of, retained_intent,
    target, voter,
};
use crate::recovery_quorum::{all_started, quorum_input, started_for};
use crate::recovery_source::issuer_action;

verus! {

pub fn command_of(command: &ActivateCommand) -> (r: AuthorityCommand)
    ensures
        r == activation_rules::command_of(*command),
{
    proof {
        reveal(activation_rules::command_of);
    }
    AuthorityCommand {
        tenant: command.tenant,
        command_id: command.command_id,
        expected_policy_epoch: command.expected_policy_epoch,
        not_after_ms: command.not_after_ms,
        action: AuthorityAction::ActivateCommitted(hold(command.activation)),
    }
}

pub fn activation_of(command: &AuthorityCommand) -> (r: Option<ActivateCommand>)
    ensures
        r == activation_rules::activation_of(*command),
{
    proof {
        reveal(activation_rules::activation_of);
    }
    match command.action {
        AuthorityAction::ActivateCommitted(activation) => Some(
            ActivateCommand {
                tenant: command.tenant,
                command_id: command.command_id,
                expected_policy_epoch: command.expected_policy_epoch,
                not_after_ms: command.not_after_ms,
                activation: activation.open(),
            },
        ),
        _ => None,
    }
}

pub fn activate_command(input: &Dispatch) -> (r: Option<ActivateCommand>)
    ensures
        r == activation_rules::activate_command(*input),
{
    proof {
        reveal(activation_rules::activate_command);
    }
    match input {
        Dispatch::Authority(command) => activation_of(&command.open()),
        _ => None,
    }
}

pub fn receipt_of(receipt: &ActivationReceipt) -> (r: AuthorityReceipt)
    ensures
        r == activation_rules::receipt_of(*receipt),
{
    proof {
        reveal(activation_rules::receipt_of);
    }
    let outcome = match receipt.outcome {
        ActivationOutcome::Rejected => AuthorityOutcome::Rejected,
        ActivationOutcome::Stopped { original_digest } => AuthorityOutcome::ActivationStopped {
            original_digest,
        },
        ActivationOutcome::Activated { target, authority_epoch } => AuthorityOutcome::Activated {
            target,
            authority_epoch,
        },
    };
    AuthorityReceipt {
        command: command_of(&receipt.command),
        authority_id: receipt.authority_id,
        manifest_digest: receipt.manifest_digest,
        partition: receipt.partition,
        term: receipt.term,
        revision: receipt.revision,
        command_digest: receipt.command_digest,
        admitted_at_ms: receipt.admitted_at_ms,
        outcome,
        sha256: receipt.sha256,
    }
}

pub fn original_receipt(outcome: &DispatchOutcome) -> (r: Result<AuthorityReceipt, Error>)
    ensures
        r == activation_rules::original_receipt(*outcome),
{
    proof {
        reveal(activation_rules::original_receipt);
    }
    match outcome {
        DispatchOutcome::Authority(signed) => Ok(signed.open().receipt),
        DispatchOutcome::AuthorityResolution(signed) => match signed.open().receipt.outcome {
            AuthorityOutcome::ActivationResolved { original } => Ok(receipt_of(&original.open())),
            _ => Err(conflict("activation resolution proof lacks the original outcome")),
        },
        _ => Err(conflict("issuer activation outcome absent")),
    }
}

pub fn receipt_identity(
    issuer: &Partition,
    expected: &AuthorityCommand,
    receipt: &AuthorityReceipt,
) -> (r: Result<(), Error>)
    ensures
        r == activation_rules::receipt_identity(*issuer, *expected, *receipt),
{
    proof {
        reveal(activation_rules::receipt_identity);
    }
    if receipt.command != *expected || receipt.authority_id != issuer.authority_id
        || receipt.manifest_digest != issuer.manifest_sha256 || receipt.partition
        != issuer.partition || receipt.term == 0 || receipt.revision == 0
        || receipt.command_digest != labelled_digest(ISSUER_COMMAND, expected) {
        return Err(conflict("issuer receipt differs from exact permanent command"));
    }
    Ok(())
}

pub fn completion(state: &State, operation: &RecoveryRecord) -> (r: Result<
    CommittedCompletion,
    Error,
>)
    ensures
        r == activation_rules::completion(state@, *operation),
{
    proof {
        reveal(activation_rules::completion);
    }
    let retained = phase_of(state, operation, operation.completion, "target completion absent")?;
    match retained.outcome {
        Some(DispatchOutcome::Target(response)) => match response.open().outcome {
            TargetOutcome::Completed(signed) => Ok(CommittedCompletion::Original(signed)),
            TargetOutcome::Inspected(signed) => Ok(CommittedCompletion::Resolved(signed)),
            _ => Err(conflict("retained target completion differs")),
        },
        _ => Err(conflict("retained target completion absent")),
    }
}

pub fn fact_of(completion: &CommittedCompletion) -> (r: CompletionFact)
    ensures
        r == activation_rules::fact_of(*completion),
{
    proof {
        reveal(activation_rules::fact_of);
    }
    match completion {
        CommittedCompletion::Original(signed) => signed.open().fact,
        CommittedCompletion::Resolved(signed) => signed.open().completion,
    }
}

pub fn activation_input(state: &State, operation: &RecoveryRecord) -> (r: Result<
    ActivateTargetInput,
    Error,
>)
    ensures
        r == activation_rules::activation_input(state@, *operation),
{
    proof {
        reveal(activation_rules::activation_input);
    }
    let retained = phase_of(state, operation, operation.source_fence, "source fence absent")?;
    let signed = match retained.outcome {
        Some(DispatchOutcome::Authority(signed)) => signed.open(),
        _ => return Err(conflict("source fence proof absent")),
    };
    let completion = completion(state, operation)?;
    Ok(
        ActivateTargetInput {
            completion_sha256: fact_of(&completion).sha256,
            fence_id: signed.receipt.command.command_id,
            fence_digest: signed.receipt.sha256,
            target: target(&operation.request),
        },
    )
}

fn committed_activation_input(
    state: &State,
    operation: &RecoveryRecord,
    current: &LifecycleIntent,
    message: &'static str,
) -> (r: Result<ActivateTargetInput, Error>)
    ensures
        r == activation_rules::committed_activation_input(state@, *operation, *current, message),
{
    proof {
        reveal(activation_rules::committed_activation_input);
    }
    let origin = origin(state, operation)?;
    accepts_phase(&origin, current, LifecyclePhase::Activate)?;
    let input = activation_input(state, operation)?;
    if current.request.phase_input_sha256 != labelled_digest(ACTIVATION, &input) {
        return Err(conflict(message));
    }
    Ok(input)
}

fn accepted_intent_sha256(
    current: &LifecycleIntent,
    control: &LifecycleControl,
    partition: &Partition,
) -> (d: Digest)
    ensures
        d == activation_rules::accepted_intent_sha256(*current, control@, *partition),
{
    labelled_digest(
        ACCEPTED_INTENT,
        &AcceptedIntent {
            intent: *current,
            control_incarnation: control.installation.control_incarnation,
            public_key: control.installation.public_key,
            partition: *partition,
            partitions_sha256: control.installation.partitions_sha256,
        },
    )
}

pub fn action_for_intent(
    state: &State,
    operation: &RecoveryRecord,
    current: &LifecycleIntent,
) -> (r: Result<AuthorityAction, Error>)
    ensures
        r == activation_rules::action_for_intent(state@, *operation, *current),
{
    proof {
        reveal(activation_rules::action_for_intent);
    }
    let input = committed_activation_input(
        state,
        operation,
        current,
        "activation Control intent differs from completed target and source fence",
    )?;
    let control = match &state.lifecycle {
        None => return Err(conflict("Control installation absent")),
        Some(control) => control,
    };
    let issuer = partition(state, operation)?;
    let completion = completion(state, operation)?;
    let intent_sha256 = accepted_intent_sha256(current, control, &issuer);
    Ok(
        AuthorityAction::ActivateCommitted(
            hold(Activation {
                fence_id: input.fence_id,
                fence_digest: input.fence_digest,
                target: input.target,
                control: CommittedActivation {
                    completion,
                    reference: AuthorityReference {
                        control_incarnation: current.control_incarnation,
                        control_policy_epoch: current.request.expected_policy_epoch,
                        identity: AuthorityIdentity::Intent(current.request.command_id),
                    },
                    intent_sha256,
                },
            }),
        ),
    )
}

pub fn current_action(state: &State, operation: &RecoveryRecord) -> (r: Result<
    AuthorityAction,
    Error,
>)
    ensures
        r == activation_rules::current_action(state@, *operation),
{
    proof {
        reveal(activation_rules::current_action);
    }
    let current = intent_of(
        state,
        operation,
        operation.current_intent,
        "committed activation intent absent",
    )?;
    action_for_intent(state, operation, &current)
}

/// The original activation attempt, with the command that it sent.
pub fn attempt(state: &State, operation: &RecoveryRecord) -> (r: Result<
    (PhaseRecord, ActivateCommand),
    Error,
>)
    ensures
        r == activation_rules::attempt(state@, *operation),
{
    proof {
        reveal(activation_rules::attempt);
    }
    let retained = phase_of(
        state,
        operation,
        operation.activation_attempt,
        "original activation attempt absent",
    )?;
    match activate_command(&retained.input) {
        None => Err(conflict("original activation attempt differs")),
        Some(command) => Ok((retained, command)),
    }
}

pub fn stop_action(state: &State, operation: &RecoveryRecord) -> (r: Result<AuthorityAction, Error>)
    ensures
        r == activation_rules::stop_action(state@, *operation),
{
    proof {
        reveal(activation_rules::stop_action);
    }
    let (_, original) = attempt(state, operation)?;
    Ok(AuthorityAction::StopActivation { original: hold(original) })
}

pub fn winner(state: &State, operation: &RecoveryRecord) -> (r: Result<AuthorityReceipt, Error>)
    ensures
        r == activation_rules::winner(state@, *operation),
{
    proof {
        reveal(activation_rules::winner);
    }
    let retained = phase_of(
        state,
        operation,
        operation.activation,
        "committed issuer winner absent",
    )?;
    let outcome = match retained.outcome {
        None => return Err(conflict("issuer winner unresolved")),
        Some(outcome) => outcome,
    };
    let receipt = original_receipt(&outcome)?;
    match receipt.outcome {
        AuthorityOutcome::Activated { .. } => Ok(receipt),
        _ => Err(conflict("issuer activation reference is not a committed winner")),
    }
}

fn quoted_intent(
    state: &State,
    operation: &RecoveryRecord,
    retained: &PhaseRecord,
    command: &ActivateCommand,
) -> (r: Result<LifecycleIntent, Error>)
    ensures
        r == activation_rules::quoted_intent(state@, *operation, *retained, *command),
{
    proof {
        reveal(activation_rules::quoted_intent);
    }
    let id: u128 = match command.activation.control.reference.identity {
        AuthorityIdentity::Change(_) => return Err(
            conflict("activation lacks exact Control intent identity"),
        ),
        AuthorityIdentity::Intent(id) => id,
    };
    let current = match retained_intent(state, id) {
        None => return Err(conflict("retained activation Control intent absent")),
        Some(current) => current,
    };
    let committed = phase(state, operation, id)?;
    if committed.sequence >= retained.sequence || committed.outcome != Some(
        DispatchOutcome::ControlIntent(hold(current)),
    ) {
        return Err(
            conflict("issuer activation lacks preceding exact recovery Control commitment"),
        );
    }
    if current.accepted_at_ms > retained.admitted_at_ms || command.not_after_ms
        > current.original_credential_expires_at_ms {
        return Err(conflict("issuer activation exceeds original Control authorization"));
    }
    Ok(current)
}

pub fn retained_action(
    state: &State,
    operation: &RecoveryRecord,
    retained: &PhaseRecord,
    command: &AuthorityCommand,
) -> (r: Result<AuthorityAction, Error>)
    ensures
        r == activation_rules::retained_action(state@, *operation, *retained, *command),
{
    proof {
        reveal(activation_rules::retained_action);
    }
    if retained.phase == RecoveryPhase::Activate {
        match activation_of(command) {
            Some(activate) => {
                let current = quoted_intent(state, operation, retained, &activate)?;
                return action_for_intent(state, operation, &current);
            },
            None => {},
        }
    }
    match &command.action {
        AuthorityAction::StopActivation { original } => {
            if retained.phase != RecoveryPhase::StopActivation {
                return issuer_action(operation, retained.phase);
            }
            let prior = phase(state, operation, original.open().command_id)?;
            if prior.sequence >= retained.sequence || prior.input != Dispatch::Authority(
                hold(command_of(&original.open())),
            ) {
                return Err(conflict("activation stop substitutes the permanent original command"));
            }
            Ok(AuthorityAction::StopActivation { original: *original })
        },
        _ => issuer_action(operation, retained.phase),
    }
}

fn activation_in_time(
    state: &State,
    operation: &RecoveryRecord,
    expected: &ActivateCommand,
    receipt: &AuthorityReceipt,
) -> (r: Result<(), Error>)
    ensures
        r == activation_rules::activation_in_time(state@, *operation, *expected, *receipt),
{
    proof {
        reveal(activation_rules::activation_in_time);
    }
    let id: u128 = match expected.activation.control.reference.identity {
        AuthorityIdentity::Change(_) => return Err(conflict("activation reference differs")),
        AuthorityIdentity::Intent(id) => id,
    };
    let current = match retained_intent(state, id) {
        None => return Err(conflict("activation intent absent")),
        Some(current) => current,
    };
    if receipt.admitted_at_ms >= expected.not_after_ms || receipt.admitted_at_ms
        >= current.original_credential_expires_at_ms || receipt.admitted_at_ms
        < current.accepted_at_ms {
        return Err(conflict("activation effect exceeds its immutable original admission"));
    }
    let completion = completion(state, operation)?;
    if receipt.admitted_at_ms < fact_of(&completion).admitted_at_ms {
        return Err(conflict("activation effect exceeds its immutable original admission"));
    }
    Ok(())
}

/// The authority epoch behind the source's, if there is one.
pub fn next_epoch(operation: &RecoveryRecord) -> (r: Option<u64>)
    ensures
        r == activation_rules::next_epoch(*operation),
{
    proof {
        reveal(activation_rules::next_epoch);
    }
    operation.request.source_authority_epoch.checked_add(1)
}

pub fn validate_original(
    state: &State,
    operation: &RecoveryRecord,
    expected: &ActivateCommand,
    receipt: &AuthorityReceipt,
) -> (r: Result<(), Error>)
    ensures
        r == activation_rules::original_answer(state@, *operation, *expected, *receipt),
{
    proof {
        reveal(activation_rules::original_answer);
    }
    let issuer = partition(state, operation)?;
    receipt_identity(&issuer, &command_of(expected), receipt)?;
    match &receipt.outcome {
        AuthorityOutcome::Rejected => Ok(()),
        AuthorityOutcome::ActivationStopped { original_digest } => if *original_digest
            == receipt.command_digest {
            Ok(())
        } else {
            Err(conflict("issuer returned another activation resolution"))
        },
        AuthorityOutcome::Activated { target, authority_epoch } => if *target
            == expected.activation.target && Some(*authority_epoch) == next_epoch(operation) {
            activation_in_time(state, operation, expected, receipt)
        } else {
            Err(conflict("issuer returned another activation resolution"))
        },
        _ => Err(conflict("issuer returned another activation resolution")),
    }
}

fn resolved_original(
    state: &State,
    operation: &RecoveryRecord,
    expected: &ActivateCommand,
    receipt: &AuthorityReceipt,
) -> (r: Result<(), Error>)
    ensures
        r == activation_rules::resolved_original(state@, *operation, *expected, *receipt),
{
    proof {
        reveal(activation_rules::resolved_original);
    }
    match &receipt.outcome {
        AuthorityOutcome::ActivationResolved { original } => {
            if original.open().revision > receipt.revision || original.open().admitted_at_ms
                > receipt.admitted_at_ms {
                return Err(conflict("activation resolution predates original retained outcome"));
            }
            validate_original(state, operation, expected, &receipt_of(&original.open()))
        },
        _ => Err(conflict("issuer activation stop did not resolve original outcome")),
    }
}

pub fn validate_resolution(
    state: &State,
    operation: &RecoveryRecord,
    expected: &AuthorityCommand,
    signed: &SignedReceipt,
) -> (r: Result<(), Error>)
    ensures
        r == activation_rules::resolution(state@, *operation, *expected, *signed),
{
    proof {
        reveal(activation_rules::resolution);
    }
    let original = match signed.receipt.command.action {
        AuthorityAction::StopActivation { original } => original.open(),
        _ => return Err(conflict("activation resolution lacks exact stop command")),
    };
    if command_of(&original) != *expected {
        return Err(conflict("activation resolution substitutes original input"));
    }
    let issuer = partition(state, operation)?;
    if !signed.authentic {
        return Err(conflict("activation resolution signature differs"));
    }
    receipt_identity(&issuer, &signed.receipt.command, &signed.receipt)?;
    if signed.receipt.admitted_at_ms >= signed.receipt.command.not_after_ms {
        return Err(conflict("activation stop exceeds its own original deadline"));
    }
    resolved_original(state, operation, &original, &signed.receipt)
}

fn confirmed(state: &State, operation: &RecoveryRecord, id: u128) -> (r: Result<
    SignedActivation,
    Error,
>)
    ensures
        r == activation_rules::confirmed(state@, *operation, id),
{
    proof {
        reveal(activation_rules::confirmed);
    }
    let retained = phase(state, operation, id)?;
    match retained.outcome {
        Some(DispatchOutcome::Target(response)) => match response.open().outcome {
            TargetOutcome::Activated(signed) => Ok(signed.open()),
            _ => Err(conflict("local activation confirmation proof differs")),
        },
        _ => Err(conflict("local activation confirmation proof differs")),
    }
}

pub fn local_proof(state: &State, operation: &RecoveryRecord) -> (r: Result<
    Option<SignedActivation>,
    Error,
>)
    ensures
        r == activation_rules::local_proof(state@, *operation),
{
    proof {
        reveal(activation_rules::local_proof);
    }
    let first: Option<u128> = match operation.voters.first.confirmation {
        Some(id) => Some(id),
        None => match operation.voters.second.confirmation {
            Some(id) => Some(id),
            None => operation.voters.third.confirmation,
        },
    };
    match first {
        None => Ok(None),
        Some(id) => Ok(Some(confirmed(state, operation, id)?)),
    }
}

pub fn validate_local_proof(
    state: &State,
    operation: &RecoveryRecord,
    node: u64,
    signed: &SignedActivation,
    exact_observer: bool,
) -> (r: Result<(), Error>)
    ensures
        r == activation_rules::local_activation(state@, *operation, node, *signed, exact_observer),
{
    proof {
        reveal(activation_rules::local_activation);
    }
    origin(state, operation)?;
    if !signed.authentic {
        return Err(conflict("local activation signature differs"));
    }
    let winner = winner(state, operation)?;
    if exact_observer && signed.observer_node_id != node {
        return Err(conflict("local activation proof differs from committed issuer winner"));
    }
    let completion = completion(state, operation)?;
    if signed.completion != fact_of(&completion) || signed.activation.issuer_receipt_sha256
        != winner.sha256 {
        return Err(conflict("local activation proof differs from committed issuer winner"));
    }
    let input = activation_input(state, operation)?;
    if signed.activation.intent.request.phase_input_sha256 != labelled_digest(ACTIVATION, &input) {
        return Err(conflict("local activation proof differs from committed issuer winner"));
    }
    Ok(())
}

pub fn same_activation(a: &SignedActivation, b: &SignedActivation) -> (same: bool)
    ensures
        same == activation_rules::same_activation(*a, *b),
{
    proof {
        reveal(activation_rules::same_activation);
    }
    a.activation == b.activation && a.completion == b.completion
}

fn confirmation_admitted(
    state: &State,
    operation: &RecoveryRecord,
    node: u64,
    command: u128,
    signed: &SignedActivation,
) -> (r: Result<(), Error>)
    ensures
        r == activation_rules::confirmation_admitted(state@, *operation, node, command, *signed),
{
    proof {
        reveal(activation_rules::confirmation_admitted);
    }
    let refused = conflict("local confirmation lacks exact retained activation or current startup");
    match voter(&operation.voters, node) {
        None => return Err(refused),
        Some(v) => if v.confirmation.is_some() {
            return Err(refused);
        },
    }
    if !all_started(state, operation, command)? {
        return Err(refused);
    }
    match local_proof(state, operation)? {
        None => Err(refused),
        Some(prior) => if same_activation(&prior, signed) {
            Ok(())
        } else {
            Err(refused)
        },
    }
}

fn first_activation_admitted(state: &State, operation: &RecoveryRecord, command: u128) -> (r:
    Result<(), Error>)
    ensures
        r == activation_rules::first_activation_admitted(state@, *operation, command),
{
    proof {
        reveal(activation_rules::first_activation_admitted);
    }
    let refused = conflict("local activation requires every voter started under exact phase");
    if local_proof(state, operation)?.is_some() {
        return Err(refused);
    }
    if !all_started(state, operation, command)? {
        return Err(refused);
    }
    Ok(())
}

fn winner_step(
    state: &State,
    operation: &RecoveryRecord,
    quorum: &QuorumInput,
    issuer_command_id: u128,
    winner: &AuthorityReceipt,
) -> (r: Result<(), Error>)
    ensures
        r == activation_rules::winner_step(
            state@,
            *operation,
            *quorum,
            issuer_command_id,
            *winner,
        ),
{
    proof {
        reveal(activation_rules::winner_step);
    }
    let expected = quorum_input(state, operation)?;
    if *quorum == expected && issuer_command_id == winner.command.command_id {
        Ok(())
    } else {
        Err(conflict("target activation step differs from issuer winner"))
    }
}

/// Whether an activation step may be sent, or, without `admission`, was one.
pub fn validate_step(
    state: &State,
    operation: &RecoveryRecord,
    current: &LifecycleIntent,
    node: u64,
    step: &TargetStep,
    admission: bool,
) -> (r: Result<(), Error>)
    ensures
        r == activation_rules::step(state@, *operation, *current, node, *step, admission),
{
    proof {
        reveal(activation_rules::step);
    }
    committed_activation_input(state, operation, current, "local activation phase input differs")?;
    let winner = winner(state, operation)?;
    match step {
        TargetStep::StartActivation { quorum, issuer_command_id } => {
            winner_step(state, operation, &quorum.open(), *issuer_command_id, &winner)?;
            if admission && started_for(state, operation, node, current.request.command_id)? {
                return Err(conflict("activation voter already started under exact phase"));
            }
            Ok(())
        },
        TargetStep::Activate { quorum, issuer_command_id } => {
            winner_step(state, operation, &quorum.open(), *issuer_command_id, &winner)?;
            if admission {
                first_activation_admitted(state, operation, current.request.command_id)
            } else {
                Ok(())
            }
        },
        TargetStep::ConfirmActivation(signed) => {
            let signed = signed.open();
            validate_local_proof(state, operation, node, &signed, false)?;
            if admission {
                confirmation_admitted(state, operation, node, current.request.command_id, &signed)
            } else {
                Ok(())
            }
        },
        _ => Err(conflict("target activation step differs from issuer winner")),
    }
}

pub fn authority_command(
    operation: &RecoveryRecord,
    phase_id: u128,
    action: AuthorityAction,
    now: u64,
    expires: u64,
) -> (r: Result<Dispatch, Error>)
    ensures
        r == activation_rules::authority_command(*operation, phase_id, action, now, expires),
{
    proof {
        reveal(activation_rules::authority_command);
    }
    let not_after_ms: u64 = deadline(now, operation, expires, "activation phase deadline overflow")?;
    Ok(
        Dispatch::Authority(
            hold(AuthorityCommand {
                tenant: operation.request.tenant,
                command_id: phase_id,
                expected_policy_epoch: operation.request.authority_policy_epoch,
                not_after_ms,
                action,
            }),
        ),
    )
}

pub fn require_negative_attempt(state: &State, operation: &RecoveryRecord) -> (r: Result<(), Error>)
    ensures
        r == activation_rules::require_negative_attempt(state@, *operation),
{
    proof {
        reveal(activation_rules::require_negative_attempt);
    }
    if operation.activation_attempt.is_none() {
        return Ok(());
    }
    let (original, _) = attempt(state, operation)?;
    let outcome = match original.outcome {
        None => return Err(conflict("resolve original activation before another effect")),
        Some(outcome) => outcome,
    };
    let receipt = original_receipt(&outcome)?;
    match receipt.outcome {
        AuthorityOutcome::Rejected => Ok(()),
        AuthorityOutcome::ActivationStopped { .. } => Ok(()),
        _ => Err(conflict("committed activation must proceed forward")),
    }
}

} // verus!
