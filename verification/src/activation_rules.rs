//! What activation, source retirement and route publication are held to.
use vstd::prelude::*;

use crate::digest::{Digest, Name};
use crate::encoding;
use crate::encoding::{ACCEPTED_INTENT, ACTIVATION, ISSUER_COMMAND};
use crate::errors;
use crate::held::Held;
use crate::errors::{Error, ErrorCode};
use crate::model::{
    AcceptedIntent, ActivateCommand, ActivateTargetInput, Activation, ActivationOutcome,
    ActivationReceipt, AuthorityAction, AuthorityCommand, AuthorityIdentity, AuthorityOutcome,
    AuthorityReceipt, AuthorityReference, CommittedActivation, CommittedCompletion, CompletionFact,
    Dispatch, DispatchOutcome, LifecycleIntent, LifecyclePhase, Node, Partition, PhaseRecord,
    Placement, RecoveryPhase, RecoveryRecord, RecoveryStart, RetireSourceRequest, RetirementReceipt,
    RouteChange, SignedActivation, SignedReceipt, SourceMode, TargetOutcome, TargetStep,
};
use crate::rules;
use crate::views::{LifecycleView, StateView, TenantRouteView, TopologyView};

verus! {

// ---------------------------------------------------------------------
// Commands and receipts
// ---------------------------------------------------------------------

#[verifier::opaque]
pub open spec fn command_of(c: ActivateCommand) -> AuthorityCommand {
    AuthorityCommand {
        tenant: c.tenant,
        command_id: c.command_id,
        expected_policy_epoch: c.expected_policy_epoch,
        not_after_ms: c.not_after_ms,
        action: AuthorityAction::ActivateCommitted(Held::of(c.activation)),
    }
}

/// The activation command that a dispatch sends, if it sends one.
#[verifier::opaque]
pub open spec fn activate_command(input: Dispatch) -> Option<ActivateCommand> {
    match input {
        Dispatch::Authority(command) => activation_of(command@),
        _ => None,
    }
}

#[verifier::opaque]
pub open spec fn activation_of(command: AuthorityCommand) -> Option<ActivateCommand> {
    match command.action {
        AuthorityAction::ActivateCommitted(activation) => Some(
            ActivateCommand {
                tenant: command.tenant,
                command_id: command.command_id,
                expected_policy_epoch: command.expected_policy_epoch,
                not_after_ms: command.not_after_ms,
                activation: activation@,
            },
        ),
        _ => None,
    }
}

#[verifier::opaque]
pub open spec fn receipt_of(r: ActivationReceipt) -> AuthorityReceipt {
    AuthorityReceipt {
        command: command_of(r.command),
        authority_id: r.authority_id,
        manifest_digest: r.manifest_digest,
        partition: r.partition,
        term: r.term,
        revision: r.revision,
        command_digest: r.command_digest,
        admitted_at_ms: r.admitted_at_ms,
        outcome: match r.outcome {
            ActivationOutcome::Rejected => AuthorityOutcome::Rejected,
            ActivationOutcome::Stopped { original_digest } => AuthorityOutcome::ActivationStopped {
                original_digest,
            },
            ActivationOutcome::Activated { target, authority_epoch } => AuthorityOutcome::Activated {
                target,
                authority_epoch,
            },
        },
        sha256: r.sha256,
    }
}

/// The receipt of the original issuer command that an outcome holds.
#[verifier::opaque]
pub open spec fn original_receipt(outcome: DispatchOutcome) -> Result<AuthorityReceipt, Error> {
    match outcome {
        DispatchOutcome::Authority(signed) => Ok(signed@.receipt),
        DispatchOutcome::AuthorityResolution(signed) => match signed@.receipt.outcome {
            AuthorityOutcome::ActivationResolved { original } => Ok(receipt_of(original@)),
            _ => Err(rules::no("activation resolution proof lacks the original outcome")),
        },
        _ => Err(rules::no("issuer activation outcome absent")),
    }
}

/// Whether a receipt is the issuer's own for exactly that command.
#[verifier::opaque]
pub open spec fn receipt_identity(
    issuer: Partition,
    expected: AuthorityCommand,
    receipt: AuthorityReceipt,
) -> Result<(), Error> {
    if receipt.command != expected || receipt.authority_id != issuer.authority_id
        || receipt.manifest_digest != issuer.manifest_sha256 || receipt.partition
        != issuer.partition || receipt.term == 0 || receipt.revision == 0
        || receipt.command_digest != encoding::labelled(ISSUER_COMMAND, expected) {
        Err(rules::no("issuer receipt differs from exact permanent command"))
    } else {
        Ok(())
    }
}

// ---------------------------------------------------------------------
// The source
// ---------------------------------------------------------------------

/// What the issuer is asked for in a phase that activates nothing.
#[verifier::opaque]
pub open spec fn issuer_action(op: RecoveryRecord, phase: RecoveryPhase) -> Result<
    AuthorityAction,
    Error,
> {
    let request = op.request;
    match phase {
        RecoveryPhase::Prepare => Ok(
            AuthorityAction::PrepareTarget {
                source_incarnation: request.source_incarnation,
                source_epoch: request.source_authority_epoch,
                target: rules::target(request),
            },
        ),
        RecoveryPhase::StopTarget => Ok(
            AuthorityAction::StopTarget {
                source_incarnation: request.source_incarnation,
                source_epoch: request.source_authority_epoch,
                target: rules::target(request),
            },
        ),
        RecoveryPhase::FenceSource => Ok(
            AuthorityAction::Fence {
                incarnation: request.source_incarnation,
                authority_epoch: request.source_authority_epoch,
            },
        ),
        _ => Err(rules::no("recovery issuer dispatch phase differs")),
    }
}

#[verifier::opaque]
pub open spec fn retirement_request(op: RecoveryRecord) -> Result<RetireSourceRequest, Error> {
    match op.request.source_mode {
        SourceMode::Planned { retirement } => Ok(retirement),
        SourceMode::SourceUnavailable => Err(
            rules::no("source-unavailable recovery cannot claim planned retirement evidence"),
        ),
    }
}

#[verifier::opaque]
pub open spec fn retirement(op: RecoveryRecord, receipt: RetirementReceipt) -> Result<(), Error> {
    match retirement_request(op) {
        Err(e) => Err(e),
        Ok(request) => if receipt.tenant != op.request.tenant || receipt.source_incarnation
            != request.source_incarnation || receipt.retirement_id != request.retirement_id
            || receipt.request_digest != request.request_digest || receipt.target_incarnation
            != request.target_incarnation || receipt.checkpoint != request.checkpoint
            || receipt.admitted_at_ms > request.not_after_ms {
            Err(rules::no("planned source retirement evidence differs"))
        } else {
            Ok(())
        },
    }
}

// ---------------------------------------------------------------------
// Activation
// ---------------------------------------------------------------------

#[verifier::opaque]
pub open spec fn completion(s: StateView, op: RecoveryRecord) -> Result<CommittedCompletion, Error> {
    match rules::phase_of(s, op, op.completion, "target completion absent") {
        Err(e) => Err(e),
        Ok(p) => match p.outcome {
            Some(DispatchOutcome::Target(response)) => match response@.outcome {
                TargetOutcome::Completed(signed) => Ok(CommittedCompletion::Original(signed)),
                TargetOutcome::Inspected(signed) => Ok(CommittedCompletion::Resolved(signed)),
                _ => Err(rules::no("retained target completion differs")),
            },
            _ => Err(rules::no("retained target completion absent")),
        },
    }
}

#[verifier::opaque]
pub open spec fn fact_of(c: CommittedCompletion) -> CompletionFact {
    match c {
        CommittedCompletion::Original(signed) => signed@.fact,
        CommittedCompletion::Resolved(signed) => signed@.completion,
    }
}

#[verifier::opaque]
pub open spec fn activation_input(s: StateView, op: RecoveryRecord) -> Result<ActivateTargetInput, Error> {
    match rules::phase_of(s, op, op.source_fence, "source fence absent") {
        Err(e) => Err(e),
        Ok(p) => match p.outcome {
            Some(DispatchOutcome::Authority(signed)) => match completion(s, op) {
                Err(e) => Err(e),
                Ok(c) => Ok(
                    ActivateTargetInput {
                        completion_sha256: fact_of(c).sha256,
                        fence_id: signed@.receipt.command.command_id,
                        fence_digest: signed@.receipt.sha256,
                        target: rules::target(op.request),
                    },
                ),
            },
            _ => Err(rules::no("source fence proof absent")),
        },
    }
}

/// The activation input, once the intent commits it for the target's origin.
#[verifier::opaque]
pub open spec fn committed_activation_input(
    s: StateView,
    op: RecoveryRecord,
    current: LifecycleIntent,
    message: &'static str,
) -> Result<ActivateTargetInput, Error> {
    match rules::origin(s, op) {
        Err(e) => Err(e),
        Ok(o) => match rules::accepts_phase(o, current, LifecyclePhase::Activate) {
            Err(e) => Err(e),
            Ok(()) => match activation_input(s, op) {
                Err(e) => Err(e),
                Ok(input) => if current.request.phase_input_sha256 != encoding::labelled(
                    ACTIVATION,
                    input,
                ) {
                    Err(rules::no(message))
                } else {
                    Ok(input)
                },
            },
        },
    }
}

pub open spec fn accepted_intent_sha256(
    current: LifecycleIntent,
    control: LifecycleView,
    partition: Partition,
) -> Digest {
    encoding::labelled(
        ACCEPTED_INTENT,
        AcceptedIntent {
            intent: current,
            control_incarnation: control.installation.control_incarnation,
            public_key: control.installation.public_key,
            partition,
            partitions_sha256: control.installation.partitions_sha256,
        },
    )
}

/// The issuer action that an activation intent stands for.
#[verifier::opaque]
pub open spec fn action_for_intent(s: StateView, op: RecoveryRecord, current: LifecycleIntent) -> Result<
    AuthorityAction,
    Error,
> {
    match committed_activation_input(
        s,
        op,
        current,
        "activation Control intent differs from completed target and source fence",
    ) {
        Err(e) => Err(e),
        Ok(input) => match s.lifecycle {
            None => Err(rules::no("Control installation absent")),
            Some(control) => match rules::partition(s, op) {
                Err(e) => Err(e),
                Ok(partition) => match completion(s, op) {
                    Err(e) => Err(e),
                    Ok(completion) => Ok(
                        AuthorityAction::ActivateCommitted(
                            Held::of(Activation {
                                fence_id: input.fence_id,
                                fence_digest: input.fence_digest,
                                target: input.target,
                                control: CommittedActivation {
                                    completion,
                                    reference: AuthorityReference {
                                        control_incarnation: current.control_incarnation,
                                        control_policy_epoch: current.request.expected_policy_epoch,
                                        identity: AuthorityIdentity::Intent(
                                            current.request.command_id,
                                        ),
                                    },
                                    intent_sha256: accepted_intent_sha256(
                                        current,
                                        control,
                                        partition,
                                    ),
                                },
                            }),
                        ),
                    ),
                },
            },
        },
    }
}

#[verifier::opaque]
pub open spec fn current_action(s: StateView, op: RecoveryRecord) -> Result<AuthorityAction, Error> {
    match rules::intent_of(s, op, op.current_intent, "committed activation intent absent") {
        Err(e) => Err(e),
        Ok(current) => action_for_intent(s, op, current),
    }
}

/// The original activation attempt and its command.
#[verifier::opaque]
pub open spec fn attempt(s: StateView, op: RecoveryRecord) -> Result<
    (PhaseRecord, ActivateCommand),
    Error,
> {
    match rules::phase_of(s, op, op.activation_attempt, "original activation attempt absent") {
        Err(e) => Err(e),
        Ok(p) => match activate_command(p.input) {
            None => Err(rules::no("original activation attempt differs")),
            Some(command) => Ok((p, command)),
        },
    }
}

#[verifier::opaque]
pub open spec fn stop_action(s: StateView, op: RecoveryRecord) -> Result<AuthorityAction, Error> {
    match attempt(s, op) {
        Err(e) => Err(e),
        Ok((p, original)) => Ok(
            AuthorityAction::StopActivation { original: Held::of(original) },
        ),
    }
}

/// The issuer's receipt of the activation that won.
#[verifier::opaque]
pub open spec fn winner(s: StateView, op: RecoveryRecord) -> Result<AuthorityReceipt, Error> {
    match rules::phase_of(s, op, op.activation, "committed issuer winner absent") {
        Err(e) => Err(e),
        Ok(p) => match p.outcome {
            None => Err(rules::no("issuer winner unresolved")),
            Some(outcome) => match original_receipt(outcome) {
                Err(e) => Err(e),
                Ok(receipt) => if receipt.outcome is Activated {
                    Ok(receipt)
                } else {
                    Err(rules::no("issuer activation reference is not a committed winner"))
                },
            },
        },
    }
}

/// The Control intent that a retained activation command quotes.
#[verifier::opaque]
pub open spec fn quoted_intent(
    s: StateView,
    op: RecoveryRecord,
    retained: PhaseRecord,
    command: ActivateCommand,
) -> Result<LifecycleIntent, Error> {
    match command.activation.control.reference.identity {
        AuthorityIdentity::Change(_) => Err(
            rules::no("activation lacks exact Control intent identity"),
        ),
        AuthorityIdentity::Intent(id) => match rules::retained_intent(s, id) {
            None => Err(rules::no("retained activation Control intent absent")),
            Some(current) => match rules::phase(s, op, id) {
                Err(e) => Err(e),
                Ok(committed) => if committed.sequence >= retained.sequence || committed.outcome
                    != Some(DispatchOutcome::ControlIntent(Held::of(current))) {
                    Err(
                        rules::no(
                            "issuer activation lacks preceding exact recovery Control commitment",
                        ),
                    )
                } else if current.accepted_at_ms > retained.admitted_at_ms || command.not_after_ms
                    > current.original_credential_expires_at_ms {
                    Err(rules::no("issuer activation exceeds original Control authorization"))
                } else {
                    Ok(current)
                },
            },
        },
    }
}

/// The action that a retained issuer command must hold.
#[verifier::opaque]
pub open spec fn retained_action(
    s: StateView,
    op: RecoveryRecord,
    retained: PhaseRecord,
    command: AuthorityCommand,
) -> Result<AuthorityAction, Error> {
    if retained.phase == RecoveryPhase::Activate && activation_of(command) is Some {
        match quoted_intent(s, op, retained, activation_of(command)->0) {
            Err(e) => Err(e),
            Ok(current) => action_for_intent(s, op, current),
        }
    } else {
        match command.action {
            AuthorityAction::StopActivation { original } => if retained.phase
                == RecoveryPhase::StopActivation {
                match rules::phase(s, op, original@.command_id) {
                    Err(e) => Err(e),
                    Ok(prior) => if prior.sequence >= retained.sequence || prior.input
                        != Dispatch::Authority(Held::of(command_of(original@))) {
                        Err(
                            rules::no("activation stop substitutes the permanent original command"),
                        )
                    } else {
                        Ok(AuthorityAction::StopActivation { original })
                    },
                }
            } else {
                issuer_action(op, retained.phase)
            },
            _ => issuer_action(op, retained.phase),
        }
    }
}

/// Whether an activation took effect within everything it was admitted by.
#[verifier::opaque]
pub open spec fn activation_in_time(
    s: StateView,
    op: RecoveryRecord,
    expected: ActivateCommand,
    receipt: AuthorityReceipt,
) -> Result<(), Error> {
    match expected.activation.control.reference.identity {
        AuthorityIdentity::Change(_) => Err(rules::no("activation reference differs")),
        AuthorityIdentity::Intent(id) => match rules::retained_intent(s, id) {
            None => Err(rules::no("activation intent absent")),
            Some(current) => if receipt.admitted_at_ms >= expected.not_after_ms
                || receipt.admitted_at_ms >= current.original_credential_expires_at_ms
                || receipt.admitted_at_ms < current.accepted_at_ms {
                Err(rules::no("activation effect exceeds its immutable original admission"))
            } else {
                match completion(s, op) {
                    Err(e) => Err(e),
                    Ok(c) => if receipt.admitted_at_ms < fact_of(c).admitted_at_ms {
                        Err(rules::no("activation effect exceeds its immutable original admission"))
                    } else {
                        Ok(())
                    },
                }
            },
        },
    }
}

#[verifier::opaque]
pub open spec fn next_epoch(op: RecoveryRecord) -> Option<u64> {
    if op.request.source_authority_epoch == u64::MAX {
        None
    } else {
        Some((op.request.source_authority_epoch + 1) as u64)
    }
}

/// Whether a receipt answers the original activation command.
#[verifier::opaque]
pub open spec fn original_answer(
    s: StateView,
    op: RecoveryRecord,
    expected: ActivateCommand,
    receipt: AuthorityReceipt,
) -> Result<(), Error> {
    match rules::partition(s, op) {
        Err(e) => Err(e),
        Ok(issuer) => match receipt_identity(issuer, command_of(expected), receipt) {
            Err(e) => Err(e),
            Ok(()) => match receipt.outcome {
                AuthorityOutcome::Rejected => Ok(()),
                AuthorityOutcome::ActivationStopped { original_digest } => if original_digest
                    == receipt.command_digest {
                    Ok(())
                } else {
                    Err(rules::no("issuer returned another activation resolution"))
                },
                AuthorityOutcome::Activated { target, authority_epoch } => if target
                    == expected.activation.target && Some(authority_epoch) == next_epoch(op) {
                    activation_in_time(s, op, expected, receipt)
                } else {
                    Err(rules::no("issuer returned another activation resolution"))
                },
                _ => Err(rules::no("issuer returned another activation resolution")),
            },
        },
    }
}

/// Whether a signed stop resolves the original activation command.
#[verifier::opaque]
pub open spec fn resolution(
    s: StateView,
    op: RecoveryRecord,
    expected: AuthorityCommand,
    signed: SignedReceipt,
) -> Result<(), Error> {
    match signed.receipt.command.action {
        AuthorityAction::StopActivation { original } => if command_of(original@) != expected {
            Err(rules::no("activation resolution substitutes original input"))
        } else {
            match rules::partition(s, op) {
                Err(e) => Err(e),
                Ok(issuer) => if !signed.authentic {
                    Err(rules::no("activation resolution signature differs"))
                } else {
                    match receipt_identity(issuer, signed.receipt.command, signed.receipt) {
                        Err(e) => Err(e),
                        Ok(()) => if signed.receipt.admitted_at_ms
                            >= signed.receipt.command.not_after_ms {
                            Err(rules::no("activation stop exceeds its own original deadline"))
                        } else {
                            resolved_original(s, op, original@, signed.receipt)
                        },
                    }
                },
            }
        },
        _ => Err(rules::no("activation resolution lacks exact stop command")),
    }
}

#[verifier::opaque]
pub open spec fn resolved_original(
    s: StateView,
    op: RecoveryRecord,
    expected: ActivateCommand,
    receipt: AuthorityReceipt,
) -> Result<(), Error> {
    match receipt.outcome {
        AuthorityOutcome::ActivationResolved { original } => if original@.revision > receipt.revision
            || original@.admitted_at_ms > receipt.admitted_at_ms {
            Err(rules::no("activation resolution predates original retained outcome"))
        } else {
            original_answer(s, op, expected, receipt_of(original@))
        },
        _ => Err(rules::no("issuer activation stop did not resolve original outcome")),
    }
}

/// The signed activation that a confirmed voter's phase retains.
#[verifier::opaque]
pub open spec fn confirmed(s: StateView, op: RecoveryRecord, id: u128) -> Result<SignedActivation, Error> {
    match rules::phase(s, op, id) {
        Err(e) => Err(e),
        Ok(p) => match p.outcome {
            Some(DispatchOutcome::Target(response)) => match response@.outcome {
                TargetOutcome::Activated(signed) => Ok(signed@),
                _ => Err(rules::no("local activation confirmation proof differs")),
            },
            _ => Err(rules::no("local activation confirmation proof differs")),
        },
    }
}

/// The first voter's confirmation, if any voter has confirmed.
#[verifier::opaque]
pub open spec fn local_proof(s: StateView, op: RecoveryRecord) -> Result<Option<SignedActivation>, Error> {
    let first = match op.voters.first.confirmation {
        Some(id) => Some(id),
        None => match op.voters.second.confirmation {
            Some(id) => Some(id),
            None => op.voters.third.confirmation,
        },
    };
    match first {
        None => Ok(None),
        Some(id) => match confirmed(s, op, id) {
            Err(e) => Err(e),
            Ok(signed) => Ok(Some(signed)),
        },
    }
}

/// Whether a signed activation is one of the committed winner.
#[verifier::opaque]
pub open spec fn local_activation(
    s: StateView,
    op: RecoveryRecord,
    node: u64,
    signed: SignedActivation,
    exact_observer: bool,
) -> Result<(), Error> {
    match rules::origin(s, op) {
        Err(e) => Err(e),
        Ok(o) => if !signed.authentic {
            Err(rules::no("local activation signature differs"))
        } else {
            match winner(s, op) {
                Err(e) => Err(e),
                Ok(winner) => if exact_observer && signed.observer_node_id != node {
                    Err(rules::no("local activation proof differs from committed issuer winner"))
                } else {
                    match completion(s, op) {
                        Err(e) => Err(e),
                        Ok(c) => if signed.completion != fact_of(c)
                            || signed.activation.issuer_receipt_sha256 != winner.sha256 {
                            Err(
                                rules::no(
                                    "local activation proof differs from committed issuer winner",
                                ),
                            )
                        } else {
                            match activation_input(s, op) {
                                Err(e) => Err(e),
                                Ok(
                                    input,
                                ) => if signed.activation.intent.request.phase_input_sha256
                                    != encoding::labelled(ACTIVATION, input) {
                                    Err(
                                        rules::no(
                                            "local activation proof differs from committed issuer winner",
                                        ),
                                    )
                                } else {
                                    Ok(())
                                },
                            }
                        },
                    }
                },
            }
        },
    }
}

#[verifier::opaque]
pub open spec fn same_activation(a: SignedActivation, b: SignedActivation) -> bool {
    a.activation == b.activation && a.completion == b.completion
}

/// Whether a confirmation repeats what another voter has confirmed, under a
/// start of every voter.
#[verifier::opaque]
pub open spec fn confirmation_admitted(
    s: StateView,
    op: RecoveryRecord,
    node: u64,
    command: u128,
    signed: SignedActivation,
) -> Result<(), Error> {
    let refused = rules::no(
        "local confirmation lacks exact retained activation or current startup",
    );
    match rules::voter(op.voters, node) {
        None => Err(refused),
        Some(v) => if v.confirmation is Some {
            Err(refused)
        } else {
            match rules::all_started(s, op, command) {
                Err(e) => Err(e),
                Ok(false) => Err(refused),
                Ok(true) => match local_proof(s, op) {
                    Err(e) => Err(e),
                    Ok(None) => Err(refused),
                    Ok(Some(prior)) => if same_activation(prior, signed) {
                        Ok(())
                    } else {
                        Err(refused)
                    },
                },
            }
        },
    }
}

/// Whether the winner's quorum is started, or activated, as the step asks.
#[verifier::opaque]
pub open spec fn winner_step(
    s: StateView,
    op: RecoveryRecord,
    quorum: crate::model::QuorumInput,
    issuer_command_id: u128,
    winner: AuthorityReceipt,
) -> Result<(), Error> {
    match rules::quorum_input(s, op) {
        Err(e) => Err(e),
        Ok(expected) => if quorum == expected && issuer_command_id == winner.command.command_id {
            Ok(())
        } else {
            Err(rules::no("target activation step differs from issuer winner"))
        },
    }
}

#[verifier::opaque]
pub open spec fn step(
    s: StateView,
    op: RecoveryRecord,
    current: LifecycleIntent,
    node: u64,
    step: TargetStep,
    admission: bool,
) -> Result<(), Error> {
    match committed_activation_input(s, op, current, "local activation phase input differs") {
        Err(e) => Err(e),
        Ok(_) => match winner(s, op) {
            Err(e) => Err(e),
            Ok(winner) => match step {
                TargetStep::StartActivation { quorum, issuer_command_id } => match winner_step(
                    s,
                    op,
                    quorum@,
                    issuer_command_id,
                    winner,
                ) {
                    Err(e) => Err(e),
                    Ok(()) => if !admission {
                        Ok(())
                    } else {
                        match rules::started_for(s, op, node, current.request.command_id) {
                            Err(e) => Err(e),
                            Ok(true) => Err(
                                rules::no("activation voter already started under exact phase"),
                            ),
                            Ok(false) => Ok(()),
                        }
                    },
                },
                TargetStep::Activate { quorum, issuer_command_id } => match winner_step(
                    s,
                    op,
                    quorum@,
                    issuer_command_id,
                    winner,
                ) {
                    Err(e) => Err(e),
                    Ok(()) => if !admission {
                        Ok(())
                    } else {
                        first_activation_admitted(s, op, current.request.command_id)
                    },
                },
                TargetStep::ConfirmActivation(signed) => match local_activation(
                    s,
                    op,
                    node,
                    signed@,
                    false,
                ) {
                    Err(e) => Err(e),
                    Ok(()) => if !admission {
                        Ok(())
                    } else {
                        confirmation_admitted(s, op, node, current.request.command_id, signed@)
                    },
                },
                _ => Err(rules::no("target activation step differs from issuer winner")),
            },
        },
    }
}

/// The first activation needs every voter started and none confirmed.
#[verifier::opaque]
pub open spec fn first_activation_admitted(s: StateView, op: RecoveryRecord, command: u128) -> Result<
    (),
    Error,
> {
    let refused = rules::no("local activation requires every voter started under exact phase");
    match local_proof(s, op) {
        Err(e) => Err(e),
        Ok(Some(_)) => Err(refused),
        Ok(None) => match rules::all_started(s, op, command) {
            Err(e) => Err(e),
            Ok(false) => Err(refused),
            Ok(true) => Ok(()),
        },
    }
}

#[verifier::opaque]
pub open spec fn authority_command(
    op: RecoveryRecord,
    id: u128,
    action: AuthorityAction,
    now: u64,
    expires: u64,
) -> Result<Dispatch, Error> {
    match rules::deadline(now, op, expires, "activation phase deadline overflow") {
        Err(e) => Err(e),
        Ok(not_after_ms) => Ok(
            Dispatch::Authority(
                Held::of(AuthorityCommand {
                    tenant: op.request.tenant,
                    command_id: id,
                    expected_policy_epoch: op.request.authority_policy_epoch,
                    not_after_ms,
                    action,
                }),
            ),
        ),
    }
}

/// An unresolved attempt, including an expired one, never authorizes cleanup or
/// another issuer activation. Only its permanent exact negative outcome does.
#[verifier::opaque]
pub open spec fn require_negative_attempt(s: StateView, op: RecoveryRecord) -> Result<(), Error> {
    if op.activation_attempt is None {
        Ok(())
    } else {
        match attempt(s, op) {
            Err(e) => Err(e),
            Ok((original, command)) => match original.outcome {
                None => Err(rules::no("resolve original activation before another effect")),
                Some(outcome) => match original_receipt(outcome) {
                    Err(e) => Err(e),
                    Ok(receipt) => if receipt.outcome is Rejected
                        || receipt.outcome is ActivationStopped {
                        Ok(())
                    } else {
                        Err(rules::no("committed activation must proceed forward"))
                    },
                },
            },
        }
    }
}

// ---------------------------------------------------------------------
// Route publication
// ---------------------------------------------------------------------

/// The first route of the tenant, from the `i`th on.
pub open spec fn route_at(routes: Seq<TenantRouteView>, tenant: Name, i: int) -> Option<int>
    decreases routes.len() - i,
{
    if i < 0 || i >= routes.len() {
        None
    } else if routes[i].tenant == tenant {
        Some(i)
    } else {
        route_at(routes, tenant, i + 1)
    }
}

/// Whether the topology approves a target replica where it was placed.
#[verifier::opaque]
pub open spec fn approved(topology: TopologyView, node: Node, placement: Placement) -> Result<(), Error> {
    match topology.nodes.get(node.node_id as u128) {
        None => Err(rules::no("target voter is not approved in Control topology")),
        Some(installed) => match placement.endpoint_origin {
            None => Err(rules::no("target replication endpoint is invalid")),
            Some(endpoint) => if installed.endpoint != endpoint || installed.failure_domain
                != placement.failure_domain || !(installed.first_pin == Some(
                node.certificate_sha256,
            ) || installed.second_pin == Some(node.certificate_sha256)) {
                Err(
                    rules::no("target route differs from approved endpoint, trust or failure domain"),
                )
            } else {
                Ok(())
            },
        },
    }
}

#[verifier::opaque]
pub open spec fn all_approved(topology: TopologyView, request: RecoveryStart) -> Result<(), Error> {
    match approved(topology, request.target_nodes.first, request.placements.first) {
        Err(e) => Err(e),
        Ok(()) => match approved(topology, request.target_nodes.second, request.placements.second) {
            Err(e) => Err(e),
            Ok(()) => approved(topology, request.target_nodes.third, request.placements.third),
        },
    }
}

pub open spec fn all_confirmed(op: RecoveryRecord) -> bool {
    op.voters.first.confirmation is Some && op.voters.second.confirmation is Some
        && op.voters.third.confirmation is Some
}

/// The source's route, as the recovery froze it.
#[verifier::opaque]
pub open spec fn source_route(topology: TopologyView, op: RecoveryRecord) -> Result<int, Error> {
    match route_at(topology.routes, op.request.tenant, 0) {
        None => Err(rules::no("source route absent")),
        Some(i) => if topology.routes[i].incarnation != op.request.source_incarnation
            || !topology.routes[i].replicated {
            Err(rules::no("source route differs from frozen recovery incarnation"))
        } else {
            Ok(i)
        },
    }
}

/// The route change that the current topology admits.
#[verifier::opaque]
pub open spec fn next_route(s: StateView, op: RecoveryRecord) -> Result<RouteChange, Error> {
    match winner(s, op) {
        Err(e) => Err(e),
        Ok(_) => if !all_confirmed(op) {
            Err(rules::no("route publication requires every local activation confirmation"))
        } else {
            match s.topology {
                None => Err(errors::refusal(ErrorCode::NotFound, "installed Control topology absent")),
                Some(topology) => if topology.form_refusal is Some {
                    Err(topology.form_refusal->0)
                } else {
                    match source_route(topology, op) {
                        Err(e) => Err(e),
                        Ok(_) => match all_approved(topology, op.request) {
                            Err(e) => Err(e),
                            Ok(()) => Ok(
                                RouteChange {
                                    expected_topology_version: topology.version,
                                    expected_source_incarnation: op.request.source_incarnation,
                                    target_incarnation: op.request.target_incarnation,
                                    first_voter: op.voters.first.node_id,
                                    second_voter: op.voters.second.node_id,
                                    third_voter: op.voters.third.node_id,
                                },
                            ),
                        },
                    }
                },
            }
        },
    }
}

#[verifier::opaque]
pub open spec fn route_input(op: RecoveryRecord, input: RouteChange) -> Result<(), Error> {
    if input.expected_topology_version == 0 || input.expected_source_incarnation
        != op.request.source_incarnation || input.target_incarnation
        != op.request.target_incarnation || input.first_voter != op.voters.first.node_id
        || input.second_voter != op.voters.second.node_id || input.third_voter
        != op.voters.third.node_id {
        Err(rules::no("route publication input differs from frozen source and target"))
    } else {
        Ok(())
    }
}

/// Whether an outcome of a route publication is in its exact order.
#[verifier::opaque]
pub open spec fn route_outcome(p: PhaseRecord, input: RouteChange, outcome: DispatchOutcome) -> Result<
    (),
    Error,
> {
    let held = match outcome {
        DispatchOutcome::RouteSuperseded { replacement_phase } => replacement_phase != 0
            && replacement_phase != p.phase_id && match p.resolved_revision {
            None => false,
            Some(revision) => revision > p.prepared_revision,
        },
        DispatchOutcome::RoutePublished { revision } => p.resolved_revision == Some(revision)
            && revision > p.prepared_revision,
        DispatchOutcome::RouteRejected { observed_topology_version } => observed_topology_version
            != Some(input.expected_topology_version) && match observed_topology_version {
            None => true,
            Some(version) => match p.resolved_revision {
                None => false,
                Some(resolved) => version < resolved,
            },
        },
        _ => false,
    };
    if held {
        Ok(())
    } else {
        Err(rules::no("route publication lacks exact ordered permanent outcome"))
    }
}

pub open spec fn topology_version(s: StateView) -> Option<u64> {
    match s.topology {
        None => None,
        Some(topology) => Some(topology.version),
    }
}

/// What a publication comes to: refused, rejected by a newer topology, or done.
#[verifier::opaque]
pub open spec fn published(s: StateView, op: RecoveryRecord, input: RouteChange) -> Result<
    DispatchOutcome,
    Error,
> {
    match route_input(op, input) {
        Err(e) => Err(e),
        Ok(()) => if topology_version(s) != Some(input.expected_topology_version) {
            Ok(
                DispatchOutcome::RouteRejected { observed_topology_version: topology_version(s) },
            )
        } else {
            match next_route(s, op) {
                Err(e) => Err(e),
                Ok(expected) => if input != expected {
                    Err(rules::no("route publication compare-and-set differs"))
                } else {
                    Ok(DispatchOutcome::RoutePublished { revision: s.revision })
                },
            }
        },
    }
}

pub open spec fn target_route(op: RecoveryRecord, input: RouteChange) -> TenantRouteView {
    TenantRouteView {
        tenant: op.request.tenant,
        incarnation: input.target_incarnation,
        replicated: true,
        voters: seq![input.first_voter, input.second_voter, input.third_voter],
    }
}

/// The state with the tenant routed to the target.
pub open spec fn rerouted(s: StateView, op: RecoveryRecord, input: RouteChange) -> StateView {
    match s.topology {
        None => s,
        Some(topology) => match route_at(topology.routes, op.request.tenant, 0) {
            None => s,
            Some(i) => StateView {
                topology: Some(
                    TopologyView {
                        version: s.revision,
                        routes: topology.routes.update(i, target_route(op, input)),
                        ..topology
                    },
                ),
                ..s
            },
        },
    }
}

} // verus!
