//! Observations of committed control state, and what they are held to on release.
use vstd::prelude::*;

use crate::digest;
use crate::digest::{Digest, Name};
use crate::errors;
use crate::errors::{conflict, error, Error, ErrorCode};
use crate::lifecycle_model::{CommittedChange, CommittedIntent};
use crate::lifecycle_rules;
use crate::model::{LifecycleIntent, PolicyChange, State};
use crate::rules;
use crate::views::StateView;

verus! {

/// What a caller's credential, the namespace's access, the tenant's policy and the
/// request's control grant refuse, each if anything.
#[derive(Clone, Copy, Debug)]
pub struct BarrierChecks {
    pub live_refusal: Option<Error>,
    pub access_refusal: Option<Error>,
    pub admin_refusal: Option<Error>,
    pub control_refusal: Option<Error>,
}

pub open spec fn barrier_admitted(s: StateView, checks: BarrierChecks) -> Result<(), Error> {
    if checks.live_refusal is Some {
        Err(checks.live_refusal->0)
    } else if checks.access_refusal is Some {
        Err(checks.access_refusal->0)
    } else if checks.admin_refusal is Some {
        Err(checks.admin_refusal->0)
    } else if s.tenant != digest::name_of("__kasumi_control"@) {
        Err(errors::refusal(ErrorCode::Forbidden, "installed control namespace required"))
    } else if checks.control_refusal is Some {
        Err(checks.control_refusal->0)
    } else {
        Ok(())
    }
}

/// Whether the caller may wait for the control quorum.
pub fn barrier_admission(state: &State, checks: &BarrierChecks) -> (r: Result<(), Error>)
    ensures
        r == barrier_admitted(state@, *checks),
{
    match checks.live_refusal {
        Some(refusal) => return Err(refusal),
        None => {},
    }
    match checks.access_refusal {
        Some(refusal) => return Err(refusal),
        None => {},
    }
    match checks.admin_refusal {
        Some(refusal) => return Err(refusal),
        None => {},
    }
    if state.tenant != Name::of("__kasumi_control") {
        return Err(error(ErrorCode::Forbidden, "installed control namespace required"));
    }
    match checks.control_refusal {
        Some(refusal) => Err(refusal),
        None => Ok(()),
    }
}

/// The term of the control quorum, which has three voters at least.
pub fn quorum_term(voters: u64, term: u64) -> (r: Result<u64, Error>)
    ensures
        r == if voters < 3 || term == 0 {
            Err(
                errors::refusal(
                    ErrorCode::Unavailable,
                    "lifecycle commitments require an actual replicated control quorum",
                ),
            )
        } else {
            Ok(term)
        },
{
    if voters < 3 || term == 0 {
        return Err(
            error(
                ErrorCode::Unavailable,
                "lifecycle commitments require an actual replicated control quorum",
            ),
        );
    }
    Ok(term)
}

/// What a refusal behind a submitted effect is answered: the effect may stand.
pub fn unknown(refusal: Error) -> (e: Error)
    ensures
        e == errors::refusal(
            ErrorCode::UnknownOutcome,
            "control effect may be committed; resolve its exact permanent identity with current authority",
        ),
{
    error(
        ErrorCode::UnknownOutcome,
        "control effect may be committed; resolve its exact permanent identity with current authority",
    )
}

/// What a check comes to where the caller's release, at the epoch that was observed,
/// is refused behind it or is not.
pub open spec fn released(checked: Result<(), Error>, release_refusal: Option<Error>) -> Result<
    (),
    Error,
> {
    match checked {
        Err(e) => Err(e),
        Ok(()) => match release_refusal {
            Some(refusal) => Err(refusal),
            None => Ok(()),
        },
    }
}

/// Whether a committed command is answered. One whose caller lost access or authority
/// meanwhile is unknown to that caller, never refused.
pub fn lifecycle_write_release(access_refusal: Option<Error>, admin_refusal: Option<Error>) -> (r:
    Result<(), Error>)
    ensures
        r == if access_refusal is Some || admin_refusal is Some {
            Err::<(), Error>(
                errors::refusal(
                    ErrorCode::UnknownOutcome,
                    "control effect may be committed; resolve its exact permanent identity with current authority",
                ),
            )
        } else {
            Ok(())
        },
{
    match access_refusal {
        Some(refusal) => return Err(unknown(refusal)),
        None => {},
    }
    match admin_refusal {
        Some(refusal) => Err(unknown(refusal)),
        None => Ok(()),
    }
}

pub open spec fn observed_intent(s: StateView, id: u128, term: u64) -> Result<CommittedIntent, Error> {
    match s.lifecycle {
        None => Err(errors::refusal(ErrorCode::NotFound, "lifecycle control absent")),
        Some(control) => match control.intents.get(id) {
            None => Err(errors::refusal(ErrorCode::NotFound, "lifecycle intent absent")),
            Some(intent) => Ok(
                CommittedIntent {
                    intent,
                    installation_sha256: control.installation.sha256,
                    observed_policy_epoch: s.policy_epoch,
                    observed_revision: s.revision,
                    observed_term: term,
                },
            ),
        },
    }
}

/// The committed intent under an identity, as it stands in the quorum's term.
pub fn observe_lifecycle_intent(state: &State, id: u128, term: u64) -> (r: Result<
    CommittedIntent,
    Error,
>)
    ensures
        r == observed_intent(state@, id, term),
{
    let control = match &state.lifecycle {
        None => return Err(error(ErrorCode::NotFound, "lifecycle control absent")),
        Some(control) => control,
    };
    match control.intents.get(id) {
        None => Err(error(ErrorCode::NotFound, "lifecycle intent absent")),
        Some(intent) => Ok(
            CommittedIntent {
                intent,
                installation_sha256: control.installation.sha256,
                observed_policy_epoch: state.policy_epoch,
                observed_revision: state.revision,
                observed_term: term,
            },
        ),
    }
}

/// Whether an observed intent is still eligible for grants: nothing that it rests
/// on has changed, and its original credential lasts.
pub fn check_lifecycle_intent(
    state: &State,
    observed: &CommittedIntent,
    term: u64,
    now: u64,
    release_refusal: Option<Error>,
) -> (r: Result<(), Error>)
    ensures
        r == released(lifecycle_rules::grantable(state@, *observed, term, now), release_refusal),
{
    if term != observed.observed_term {
        return Err(error(ErrorCode::Unavailable, "control observation quorum term changed"));
    }
    let control = match &state.lifecycle {
        None => return Err(conflict("control installation absent")),
        Some(control) => control,
    };
    let retained = control.intents.get(observed.intent.request.command_id);
    if control.retired || control.pending_change.is_some() || control.installation.sha256
        != observed.installation_sha256 || state.policy_epoch != observed.observed_policy_epoch
        || state.policy_epoch != observed.intent.request.expected_policy_epoch || retained != Some(
        observed.intent,
    ) {
        return Err(
            conflict("committed control intent is no longer eligible for grant issuance"),
        );
    }
    if now >= observed.intent.original_credential_expires_at_ms {
        return Err(error(ErrorCode::Unauthorized, "original lifecycle authorization expired"));
    }
    match release_refusal {
        Some(refusal) => Err(refusal),
        None => Ok(()),
    }
}

pub open spec fn observed_change(s: StateView, id: u128, term: u64) -> Result<CommittedChange, Error> {
    match s.lifecycle {
        None => Err(errors::refusal(ErrorCode::NotFound, "lifecycle control absent")),
        Some(control) => match control.changes.get(id) {
            None => Err(errors::refusal(ErrorCode::NotFound, "control change absent")),
            Some(change) => Ok(
                CommittedChange {
                    change,
                    observed_policy_epoch: s.policy_epoch,
                    observed_revision: s.revision,
                    observed_term: term,
                },
            ),
        },
    }
}

/// The policy change under an identity, as it stands in the quorum's term.
pub fn observe_lifecycle_change(state: &State, id: u128, term: u64) -> (r: Result<
    CommittedChange,
    Error,
>)
    ensures
        r == observed_change(state@, id, term),
{
    let control = match &state.lifecycle {
        None => return Err(error(ErrorCode::NotFound, "lifecycle control absent")),
        Some(control) => control,
    };
    match control.changes.get(id) {
        None => Err(error(ErrorCode::NotFound, "control change absent")),
        Some(change) => Ok(
            CommittedChange {
                change,
                observed_policy_epoch: state.policy_epoch,
                observed_revision: state.revision,
                observed_term: term,
            },
        ),
    }
}

/// Whether an observed change is still the pending one, exactly as it was observed.
pub fn check_lifecycle_change(
    state: &State,
    observed: &CommittedChange,
    term: u64,
    release_refusal: Option<Error>,
) -> (r: Result<(), Error>)
    ensures
        r == released(lifecycle_rules::still_pending(state@, *observed, term), release_refusal),
{
    if term != observed.observed_term {
        return Err(error(ErrorCode::Unavailable, "control change quorum term changed"));
    }
    let control = match &state.lifecycle {
        None => return Err(conflict("control installation absent")),
        Some(control) => control,
    };
    let retained = control.changes.get(observed.change.request.command_id);
    if control.retired || control.pending_change != Some(observed.change.request.command_id)
        || state.policy_epoch != observed.observed_policy_epoch || control.installation.sha256
        != observed.change.installation_sha256 || retained != Some(observed.change) {
        return Err(conflict("exact pending control change differs"));
    }
    match release_refusal {
        Some(refusal) => Err(refusal),
        None => Ok(()),
    }
}

#[derive(Clone, Copy, Debug, PartialEq, Eq, Structural)]
pub struct ReadLifecycleStatus {
    pub command_id: u128,
    pub expected_incarnation: u128,
}

/// What stands under a command's permanent identity.
#[derive(Clone, Copy, Debug, PartialEq, Eq, Structural)]
pub enum CommandStatus {
    Intent(LifecycleIntent),
    PolicyChange(PolicyChange),
    Installation { command_id: u128, installation_sha256: Digest, revision: u64 },
}

#[derive(Clone, Copy, Debug, PartialEq, Eq, Structural)]
pub struct LifecycleStatus {
    pub request: ReadLifecycleStatus,
    pub policy_epoch: u64,
    pub observed_revision: u64,
    pub observed_term: u64,
    pub retired: bool,
    pub command: Option<CommandStatus>,
}

pub open spec fn status_of(s: StateView, request: ReadLifecycleStatus) -> Result<
    Option<CommandStatus>,
    Error,
> {
    if request.command_id == 0 || request.expected_incarnation != s.incarnation {
        Err(rules::no("control status identity differs"))
    } else {
        match s.lifecycle {
            None => Err(errors::refusal(ErrorCode::NotFound, "lifecycle control absent")),
            Some(control) => match control.intents.get(request.command_id) {
                Some(intent) => Ok(Some(CommandStatus::Intent(intent))),
                None => match control.changes.get(request.command_id) {
                    Some(change) => Ok(Some(CommandStatus::PolicyChange(change))),
                    None => if control.installation_command_id == request.command_id {
                        Ok(
                            Some(
                                CommandStatus::Installation {
                                    command_id: request.command_id,
                                    installation_sha256: control.installation.sha256,
                                    revision: control.installation_revision,
                                },
                            ),
                        )
                    } else {
                        Ok(None)
                    },
                },
            },
        }
    }
}

/// What stands under the requested identity, if anything does.
pub fn lifecycle_status_command(state: &State, request: &ReadLifecycleStatus) -> (r: Result<
    Option<CommandStatus>,
    Error,
>)
    ensures
        r == status_of(state@, *request),
{
    if request.command_id == 0 || request.expected_incarnation != state.incarnation {
        return Err(conflict("control status identity differs"));
    }
    let control = match &state.lifecycle {
        None => return Err(error(ErrorCode::NotFound, "lifecycle control absent")),
        Some(control) => control,
    };
    match control.intents.get(request.command_id) {
        Some(intent) => return Ok(Some(CommandStatus::Intent(intent))),
        None => {},
    }
    match control.changes.get(request.command_id) {
        Some(change) => return Ok(Some(CommandStatus::PolicyChange(change))),
        None => {},
    }
    if control.installation_command_id == request.command_id {
        return Ok(
            Some(
                CommandStatus::Installation {
                    command_id: request.command_id,
                    installation_sha256: control.installation.sha256,
                    revision: control.installation_revision,
                },
            ),
        );
    }
    Ok(None)
}

pub open spec fn status_read(s: StateView, request: ReadLifecycleStatus, term: u64) -> Result<
    LifecycleStatus,
    Error,
> {
    match status_of(s, request) {
        Err(e) => Err(e),
        Ok(command) => Ok(
            LifecycleStatus {
                request,
                policy_epoch: s.policy_epoch,
                observed_revision: s.revision,
                observed_term: term,
                retired: s.lifecycle->0.retired,
                command,
            },
        ),
    }
}

/// The status of a command, as it stands in the quorum's term.
pub fn read_lifecycle_status(state: &State, request: &ReadLifecycleStatus, term: u64) -> (r: Result<
    LifecycleStatus,
    Error,
>)
    ensures
        r == status_read(state@, *request, term),
{
    let command = lifecycle_status_command(state, request)?;
    let retired: bool = match &state.lifecycle {
        None => false,
        Some(control) => control.retired,
    };
    Ok(
        LifecycleStatus {
            request: *request,
            policy_epoch: state.policy_epoch,
            observed_revision: state.revision,
            observed_term: term,
            retired,
            command,
        },
    )
}

pub open spec fn status_stands(s: StateView, status: LifecycleStatus, term: u64) -> Result<(), Error> {
    if term != status.observed_term {
        Err(errors::refusal(ErrorCode::Unavailable, "control status quorum term changed"))
    } else {
        match status_of(s, status.request) {
            Err(e) => Err(e),
            Ok(command) => if s.policy_epoch != status.policy_epoch || s.lifecycle->0.retired
                != status.retired || command != status.command {
                Err(rules::no("current control status changed before release"))
            } else {
                Ok(())
            },
        }
    }
}

/// Whether a status that was read may still be released.
pub fn check_lifecycle_status_release(
    state: &State,
    status: &LifecycleStatus,
    term: u64,
    release_refusal: Option<Error>,
) -> (r: Result<(), Error>)
    ensures
        r == released(status_stands(state@, *status, term), release_refusal),
{
    if term != status.observed_term {
        return Err(error(ErrorCode::Unavailable, "control status quorum term changed"));
    }
    let command = lifecycle_status_command(state, &status.request)?;
    let retired: bool = match &state.lifecycle {
        None => false,
        Some(control) => control.retired,
    };
    if state.policy_epoch != status.policy_epoch || retired != status.retired || command
        != status.command {
        return Err(conflict("current control status changed before release"));
    }
    match release_refusal {
        Some(refusal) => Err(refusal),
        None => Ok(()),
    }
}

/// What is read in a term and has not changed since is released in that term.
pub proof fn lemma_status_release(s: StateView, request: ReadLifecycleStatus, term: u64)
    ensures
        status_read(s, request, term) is Ok ==> status_stands(
            s,
            status_read(s, request, term)->Ok_0,
            term,
        ) is Ok,
{
}

} // verus!
