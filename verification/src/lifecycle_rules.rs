//! What lifecycle Control admits, and what its closed history is held to.
use vstd::prelude::*;

use crate::digest;
use crate::digest::Digest;
use crate::encoding;
use crate::encoding::{CHANGE_REQUEST, INTENT, INTENT_REQUEST};
use crate::errors;
use crate::errors::{Error, ErrorCode};
use crate::first_refusal;
use crate::lifecycle_model::{
    CommittedChange, CommittedIntent, LifecycleAdmission, LifecycleCommandView, OperationKind,
};
use crate::model::{
    ChangeRequest, EpochStops, IntentRequest, LifecycleIntent, PolicyChange, ResumeOrigin,
};
use crate::record_forms::LifecycleFormsView;
use crate::rules;
use crate::views::{InstallationView, LifecycleView, StateView};

verus! {

pub open spec fn exact_control(s: StateView, a: LifecycleAdmission) -> Result<(), Error> {
    if s.tenant != digest::name_of("__kasumi_control"@) || a.tenant != s.tenant {
        Err(
            errors::refusal(
                ErrorCode::Forbidden,
                "lifecycle control requires the installed control namespace",
            ),
        )
    } else if a.control_refusal is Some {
        Err(a.control_refusal->0)
    } else if a.admin_refusal is Some {
        Err(a.admin_refusal->0)
    } else if a.request_refusal is Some {
        Err(a.request_refusal->0)
    } else {
        Ok(())
    }
}

/// What closed lifecycle Control leaves open to other operations.
pub open spec fn guarded(s: StateView, kind: OperationKind) -> Result<(), Error> {
    match s.lifecycle {
        None => Ok(()),
        Some(control) => if kind == OperationKind::Other {
            Err(
                errors::refusal(
                    ErrorCode::Forbidden,
                    "closed lifecycle control requires its policy transition; generic authority/schema invalidation is disabled",
                ),
            )
        } else if kind == OperationKind::LifecycleControl || kind == OperationKind::Audit || kind
            == OperationKind::MaintenanceAudit {
            Ok(())
        } else if control.pending_change is Some {
            Err(
                rules::no("control policy transition freezes topology and command publication"),
            )
        } else if control.retired {
            Err(
                errors::refusal(ErrorCode::Sealed, "lifecycle control incarnation is retired"),
            )
        } else {
            Ok(())
        },
    }
}

pub open spec fn with_control(s: StateView, control: LifecycleView) -> StateView {
    StateView { lifecycle: Some(control), ..s }
}

pub open spec fn installed(
    s: StateView,
    command_id: u128,
    installation: InstallationView,
    revision: u64,
) -> LifecycleView {
    LifecycleView {
        installation,
        installation_command_id: command_id,
        installation_revision: revision,
        installation_policy_epoch: s.policy_epoch,
        installation_policy: s.policy,
        retired: false,
        pending_change: None,
        intents: Map::empty(),
        changes: Map::empty(),
    }
}

/// An installation happens once; the same one again is answered as it was.
#[verifier::opaque]
pub open spec fn install(
    s: StateView,
    command_id: u128,
    installation: InstallationView,
    revision: u64,
) -> Result<(StateView, u64), Error> {
    if command_id == 0 || installation.control_incarnation != s.incarnation {
        Err(rules::no("control installation incarnation differs"))
    } else {
        match s.lifecycle {
            Some(existing) => if existing.installation_command_id == command_id
                && existing.installation.sha256 == installation.sha256 {
                Ok((s, existing.installation_revision))
            } else {
                Err(rules::no("control installation is immutable"))
            },
            None => Ok(
                (with_control(s, installed(s, command_id, installation, revision)), revision),
            ),
        }
    }
}

/// Whether Control still retains the intent that a resumption goes back to.
#[verifier::opaque]
pub open spec fn retains_origin(intents: Map<u128, LifecycleIntent>, origin: ResumeOrigin) -> bool {
    match intents.get(origin.command_id) {
        None => false,
        Some(retained) => retained.revision == origin.revision && encoding::labelled(
            INTENT,
            retained,
        ) == origin.intent_sha256,
    }
}

#[verifier::opaque]
pub open spec fn resumable(
    control: LifecycleView,
    request: IntentRequest,
    absent: &'static str,
    differs: &'static str,
) -> Result<(), Error> {
    match request.resume_origin {
        None => Ok(()),
        Some(origin) => if !retains_origin(control.intents, origin) {
            Err(rules::no(differs))
        } else {
            match rules::partition_named(
                control.installation.partitions,
                request.authority_partition,
                0,
            ) {
                None => Err(rules::no(absent)),
                Some(partition) => if origin.authority_manifest_sha256
                    != partition.manifest_sha256 {
                    Err(rules::no(differs))
                } else {
                    Ok(())
                },
            }
        },
    }
}

/// How long the original credential of an intent lasts.
#[verifier::opaque]
pub open spec fn credential(a: LifecycleAdmission) -> Result<u64, Error> {
    match a.credential_expires_at_ms {
        None => Err(
            errors::refusal(
                ErrorCode::Unauthorized,
                "lifecycle intent needs an original finite verified credential",
            ),
        ),
        Some(expiry) => if a.timestamp_ms >= expiry {
            Err(
                errors::refusal(ErrorCode::Unauthorized, "original control credential expired"),
            )
        } else {
            Ok(expiry)
        },
    }
}

/// Whether the intent's identity is free, and its epoch and partition current.
#[verifier::opaque]
pub open spec fn issuable(s: StateView, control: LifecycleView, request: IntentRequest) -> Result<
    (),
    Error,
> {
    if control.changes.get(request.command_id) is Some || request.command_id
        == control.installation_command_id {
        Err(rules::no("lifecycle command identity already used"))
    } else if request.expected_policy_epoch != s.policy_epoch || request.installation_sha256
        != control.installation.sha256 || rules::partition_named(
        control.installation.partitions,
        request.authority_partition,
        0,
    ) is None {
        Err(rules::no("lifecycle current epoch or installed partition differs"))
    } else {
        Ok(())
    }
}

pub open spec fn accepted(
    control: LifecycleView,
    a: LifecycleAdmission,
    request: IntentRequest,
    expiry: u64,
    revision: u64,
) -> LifecycleIntent {
    LifecycleIntent {
        request,
        request_sha256: encoding::labelled(INTENT_REQUEST, request),
        control_incarnation: control.installation.control_incarnation,
        installation_generation: control.installation.generation,
        original_principal: a.principal,
        original_credential_expires_at_ms: expiry,
        accepted_at_ms: a.timestamp_ms,
        revision,
    }
}

/// A new intent, admitted.
#[verifier::opaque]
pub open spec fn admit_intent(
    s: StateView,
    control: LifecycleView,
    a: LifecycleAdmission,
    request: IntentRequest,
    revision: u64,
) -> Result<(StateView, u64), Error> {
    match resumable(
        control,
        request,
        "resumption issuer partition missing",
        "resumption origin is not the exact retained Control commitment",
    ) {
        Err(e) => Err(e),
        Ok(()) => match issuable(s, control, request) {
            Err(e) => Err(e),
            Ok(()) => match credential(a) {
                Err(e) => Err(e),
                Ok(expiry) => if control.intents.dom().len() >= control.installation.max_intents {
                    Err(
                        errors::refusal(
                            ErrorCode::QuotaExceeded,
                            "permanent lifecycle intent quota reached",
                        ),
                    )
                } else {
                    Ok(
                        (
                            with_control(
                                s,
                                LifecycleView {
                                    intents: control.intents.insert(
                                        request.command_id,
                                        accepted(control, a, request, expiry, revision),
                                    ),
                                    ..control
                                },
                            ),
                            revision,
                        ),
                    )
                },
            },
        },
    }
}

/// An intent is committed once; the same one again is answered as it was.
#[verifier::opaque]
pub open spec fn commit_intent(
    s: StateView,
    a: LifecycleAdmission,
    request: IntentRequest,
    revision: u64,
) -> Result<(StateView, u64), Error> {
    match s.lifecycle {
        None => Err(rules::no("lifecycle control is not installed")),
        Some(control) => match control.intents.get(request.command_id) {
            Some(retained) => if retained.request_sha256 != encoding::labelled(
                INTENT_REQUEST,
                request,
            ) {
                Err(rules::no("permanent lifecycle intent identity differs"))
            } else {
                Ok((s, retained.revision))
            },
            None => if control.retired || control.pending_change is Some {
                Err(rules::no("lifecycle issuance is closed"))
            } else {
                admit_intent(s, control, a, request, revision)
            },
        },
    }
}

pub open spec fn begun(
    control: LifecycleView,
    a: LifecycleAdmission,
    request: ChangeRequest,
    revision: u64,
) -> PolicyChange {
    PolicyChange {
        request,
        request_sha256: encoding::labelled(CHANGE_REQUEST, request),
        control_incarnation: control.installation.control_incarnation,
        installation_sha256: control.installation.sha256,
        original_principal: a.principal,
        accepted_at_ms: a.timestamp_ms,
        accepted_revision: revision,
        completed_revision: None,
        completion_stops: None,
    }
}

/// A new policy change, begun.
#[verifier::opaque]
pub open spec fn admit_change(
    s: StateView,
    control: LifecycleView,
    a: LifecycleAdmission,
    request: ChangeRequest,
    revision: u64,
) -> Result<(StateView, u64), Error> {
    if control.intents.get(request.command_id) is Some || request.command_id
        == control.installation_command_id {
        Err(rules::no("lifecycle command identity already used"))
    } else if request.expected_policy_epoch != s.policy_epoch || request.installation_sha256
        != control.installation.sha256 {
        Err(rules::no("control change current epoch or installation differs"))
    } else if control.changes.dom().len() >= control.installation.max_changes || s.policy_epoch
        == u64::MAX {
        Err(
            errors::refusal(
                ErrorCode::QuotaExceeded,
                "control policy history or epoch exhausted",
            ),
        )
    } else {
        Ok(
            (
                with_control(
                    s,
                    LifecycleView {
                        changes: control.changes.insert(
                            request.command_id,
                            begun(control, a, request, revision),
                        ),
                        pending_change: Some(request.command_id),
                        ..control
                    },
                ),
                revision,
            ),
        )
    }
}

/// A policy change is begun once; the same one again is answered as it was.
#[verifier::opaque]
pub open spec fn begin_change(
    s: StateView,
    a: LifecycleAdmission,
    request: ChangeRequest,
    policy_refusal: Option<Error>,
    revision: u64,
) -> Result<(StateView, u64), Error> {
    if policy_refusal is Some {
        Err(policy_refusal->0)
    } else {
        match s.lifecycle {
            None => Err(rules::no("lifecycle control is not installed")),
            Some(control) => match control.changes.get(request.command_id) {
                Some(retained) => if retained.request_sha256 != encoding::labelled(
                    CHANGE_REQUEST,
                    request,
                ) {
                    Err(rules::no("permanent control change identity differs"))
                } else {
                    Ok((s, retained.accepted_revision))
                },
                None => if control.retired || control.pending_change is Some {
                    Err(rules::no("control policy transition is already closed or pending"))
                } else {
                    admit_change(s, control, a, request, revision)
                },
            },
        }
    }
}

pub open spec fn next_policy_epoch(epoch: u64) -> Result<u64, Error> {
    if epoch == u64::MAX {
        Err(rules::no("control policy epoch exhausted"))
    } else {
        Ok((epoch + 1) as u64)
    }
}

/// The state behind a completed change.
pub open spec fn changed(
    s: StateView,
    control: LifecycleView,
    id: u128,
    change: PolicyChange,
    epoch: u64,
    stops: EpochStops,
    revision: u64,
) -> StateView {
    StateView {
        policy: change.request.candidate_policy,
        policy_epoch: epoch,
        lifecycle: Some(
            LifecycleView {
                retired: change.request.retire_control,
                pending_change: None,
                changes: control.changes.insert(
                    id,
                    PolicyChange {
                        completed_revision: Some(revision),
                        completion_stops: Some(stops),
                        ..change
                    },
                ),
                ..control
            },
        ),
        ..s
    }
}

/// A pending change is completed by every installed partition's stop, once.
#[verifier::opaque]
pub open spec fn complete_change(
    s: StateView,
    id: u128,
    change_sha256: Digest,
    stops: EpochStops,
    revision: u64,
) -> Result<(StateView, u64), Error> {
    match s.lifecycle {
        None => Err(rules::no("lifecycle control is not installed")),
        Some(control) => match control.changes.get(id) {
            None => Err(rules::no("control change is absent")),
            Some(change) => if change.request_sha256 != change_sha256 {
                Err(rules::no("exact control change identity differs"))
            } else {
                match change.completed_revision {
                    Some(completed) => if change.completion_stops != Some(stops) {
                        Err(rules::no("permanent control completion input differs"))
                    } else {
                        Ok((s, completed))
                    },
                    None => if control.pending_change != Some(id) || s.policy_epoch
                        != change.request.expected_policy_epoch {
                        Err(rules::no("control change is not the current pending transition"))
                    } else if !stops.authentic {
                        Err(
                            rules::no(
                                "complete exact installed authority stop proofs are required",
                            ),
                        )
                    } else {
                        match next_policy_epoch(s.policy_epoch) {
                            Err(e) => Err(e),
                            Ok(epoch) => Ok(
                                (changed(s, control, id, change, epoch, stops, revision), revision),
                            ),
                        }
                    },
                }
            },
        },
    }
}

/// What a lifecycle command makes of the state, and the revision it answers.
#[verifier::opaque]
pub open spec fn transition(
    s: StateView,
    a: LifecycleAdmission,
    command: LifecycleCommandView,
    revision: u64,
) -> Result<(StateView, u64), Error> {
    match exact_control(s, a) {
        Err(e) => Err(e),
        Ok(()) => match command {
            LifecycleCommandView::Install { command_id, installation } => install(
                s,
                command_id,
                installation,
                revision,
            ),
            LifecycleCommandView::CommitIntent(request) => commit_intent(s, a, request, revision),
            LifecycleCommandView::BeginPolicyChange { request, policy_refusal } => begin_change(
                s,
                a,
                request,
                policy_refusal,
                revision,
            ),
            LifecycleCommandView::CompletePolicyChange {
                command_id,
                change_sha256,
                stops,
            } => complete_change(s, command_id, change_sha256, stops, revision),
        },
    }
}

/// Whether the command's identity already stands as what the command asks for: such a
/// command is answered as it was, or refused, and applies nothing.
pub open spec fn replays(s: StateView, command: LifecycleCommandView) -> bool {
    match s.lifecycle {
        None => false,
        Some(control) => match command {
            LifecycleCommandView::Install { command_id, installation } => true,
            LifecycleCommandView::CommitIntent(request) => control.intents.dom().contains(
                request.command_id,
            ),
            LifecycleCommandView::BeginPolicyChange {
                request,
                policy_refusal,
            } => control.changes.dom().contains(request.command_id),
            LifecycleCommandView::CompletePolicyChange {
                command_id,
                change_sha256,
                stops,
            } => control.changes.dom().contains(command_id)
                && control.changes[command_id].completed_revision is Some,
        },
    }
}

/// The state as if the pending change were completed as widely as it can be.
#[verifier::opaque]
pub open spec fn reserved(s: StateView, stops: EpochStops) -> Result<Option<StateView>, Error> {
    match s.lifecycle {
        None => Ok(None),
        Some(control) => match control.pending_change {
            None => Ok(None),
            Some(id) => match control.changes.get(id) {
                None => Err(rules::no("pending control change absent")),
                Some(change) => match next_policy_epoch(s.policy_epoch) {
                    Err(e) => Err(e),
                    Ok(epoch) => Ok(
                        Some(changed(s, control, id, change, epoch, stops, u64::MAX)),
                    ),
                },
            },
        },
    }
}

// ---------------------------------------------------------------------
// The closed history
// ---------------------------------------------------------------------

/// Where a change stands in the order of acceptance.
pub struct Place {
    pub revision: u64,
    pub id: u128,
}

pub open spec fn before(a: Place, b: Place) -> bool {
    a.revision < b.revision || (a.revision == b.revision && a.id < b.id)
}

pub open spec fn place(changes: Map<u128, PolicyChange>, id: u128) -> Place {
    Place { revision: changes[id].accepted_revision, id }
}

/// Whether the change stands behind the bound, if there is one.
pub open spec fn behind(changes: Map<u128, PolicyChange>, bound: Option<Place>, id: u128) -> bool {
    changes.dom().contains(id) && match bound {
        None => true,
        Some(bound) => before(bound, place(changes, id)),
    }
}

/// Whether the change is the first behind the bound.
pub open spec fn is_next(changes: Map<u128, PolicyChange>, bound: Option<Place>, id: u128) -> bool {
    behind(changes, bound, id) && forall|other: u128| #[trigger]
        behind(changes, bound, other) && other != id ==> before(
            place(changes, id),
            place(changes, other),
        )
}

/// The first change behind the bound.
pub open spec fn next_change(changes: Map<u128, PolicyChange>, bound: Option<Place>) -> Option<u128> {
    if exists|id: u128| is_next(changes, bound, id) {
        Some(choose|id: u128| is_next(changes, bound, id))
    } else {
        None
    }
}

/// What the history has come to behind some of its changes.
pub struct Tally {
    pub epoch: u64,
    pub policy: Digest,
    pub previous: u64,
    pub pending: Option<u128>,
    pub retired: bool,
}

#[verifier::opaque]
pub open spec fn continuous(
    s: StateView,
    control: LifecycleView,
    id: u128,
    change: PolicyChange,
    t: Tally,
) -> bool {
    &&& id != control.installation_command_id
    &&& id == change.request.command_id
    &&& change.request_sha256 == encoding::labelled(CHANGE_REQUEST, change.request)
    &&& change.request.installation_sha256 == control.installation.sha256
    &&& change.installation_sha256 == control.installation.sha256
    &&& change.control_incarnation == control.installation.control_incarnation
    &&& change.request.expected_policy_epoch == t.epoch
    &&& change.accepted_revision > t.previous
    &&& change.accepted_revision <= s.revision
    &&& t.pending is None
    &&& !t.retired
}

/// The tally behind a change that was completed.
#[verifier::opaque]
pub open spec fn tally_completed(s: StateView, change: PolicyChange, revision: u64, t: Tally) -> Result<
    Tally,
    Error,
> {
    if revision <= change.accepted_revision || revision > s.revision {
        Err(rules::no("control completion revision differs"))
    } else {
        match change.completion_stops {
            None => Err(rules::no("completed control stop proofs absent")),
            Some(stops) => if !stops.authentic {
                Err(rules::no("retained control stop proofs invalid"))
            } else {
                match next_policy_epoch(t.epoch) {
                    Err(e) => Err(e),
                    Ok(epoch) => Ok(
                        Tally {
                            epoch,
                            policy: change.request.candidate_policy,
                            retired: change.request.retire_control,
                            previous: revision,
                            ..t
                        },
                    ),
                }
            },
        }
    }
}

#[verifier::opaque]
pub open spec fn tally_change(
    s: StateView,
    control: LifecycleView,
    id: u128,
    change: PolicyChange,
    t: Tally,
) -> Result<Tally, Error> {
    if !continuous(s, control, id, change, t) {
        Err(rules::no("control policy history is discontinuous or substituted"))
    } else {
        match change.completed_revision {
            Some(revision) => tally_completed(s, change, revision, t),
            None => if change.completion_stops is Some {
                Err(rules::no("pending control change contains completion proofs"))
            } else {
                Ok(
                    Tally {
                        pending: Some(id),
                        previous: change.accepted_revision,
                        ..t
                    },
                )
            },
        }
    }
}

/// The tally of the next `n` changes behind the bound, in their order.
pub open spec fn tally(
    s: StateView,
    control: LifecycleView,
    bound: Option<Place>,
    t: Tally,
    n: nat,
) -> Result<Tally, Error>
    decreases n,
{
    if n == 0 {
        Ok(t)
    } else {
        match next_change(control.changes, bound) {
            None => Ok(t),
            Some(id) => match tally_change(s, control, id, control.changes[id], t) {
                Err(e) => Err(e),
                Ok(t) => tally(
                    s,
                    control,
                    Some(place(control.changes, id)),
                    t,
                    (n - 1) as nat,
                ),
            },
        }
    }
}

pub open spec fn start_tally(control: LifecycleView) -> Tally {
    Tally {
        epoch: control.installation_policy_epoch,
        policy: control.installation_policy,
        previous: control.installation_revision,
        pending: None,
        retired: false,
    }
}

/// The tally of every change.
pub open spec fn whole_tally(s: StateView, control: LifecycleView) -> Result<Tally, Error> {
    tally(s, control, None, start_tally(control), control.changes.dom().len())
}

pub open spec fn tallies(s: StateView, control: LifecycleView, t: Tally) -> bool {
    control.pending_change == t.pending && control.retired == t.retired && s.policy_epoch == t.epoch
        && s.policy == t.policy
}

/// Whether an intent was accepted outside of the change, under a live epoch.
#[verifier::opaque]
pub open spec fn outside_change(intent: LifecycleIntent, change: PolicyChange) -> Result<(), Error> {
    if intent.revision > change.accepted_revision && match change.completed_revision {
        None => true,
        Some(revision) => intent.revision < revision,
    } {
        Err(rules::no("lifecycle intent was accepted during frozen policy transition"))
    } else if match change.completed_revision {
        None => false,
        Some(revision) => intent.revision > revision,
    } && intent.request.expected_policy_epoch <= change.request.expected_policy_epoch {
        Err(rules::no("lifecycle intent uses retired control epoch"))
    } else {
        Ok(())
    }
}

pub open spec fn outside_changes(control: LifecycleView, intent: LifecycleIntent) -> Result<(), Error> {
    first_refusal::every(
        control.changes,
        |id: u128, change: PolicyChange| outside_change(intent, change),
    )
}

#[verifier::opaque]
pub open spec fn intent_identity(
    s: StateView,
    control: LifecycleView,
    epoch: u64,
    id: u128,
    intent: LifecycleIntent,
) -> bool {
    &&& id != control.installation_command_id
    &&& control.changes.get(id) is None
    &&& id == intent.request.command_id
    &&& intent.request_sha256 == encoding::labelled(INTENT_REQUEST, intent.request)
    &&& intent.control_incarnation == control.installation.control_incarnation
    &&& intent.installation_generation == control.installation.generation
    &&& intent.request.installation_sha256 == control.installation.sha256
    &&& rules::partition_named(
        control.installation.partitions,
        intent.request.authority_partition,
        0,
    ) is Some
    &&& intent.revision > control.installation_revision
    &&& intent.revision <= s.revision
    &&& intent.accepted_at_ms < intent.original_credential_expires_at_ms
    &&& intent.request.expected_policy_epoch >= control.installation_policy_epoch
    &&& intent.request.expected_policy_epoch <= epoch
}

/// A resumption was accepted behind the intent that it goes back to.
#[verifier::opaque]
pub open spec fn resumed_later(control: LifecycleView, intent: LifecycleIntent) -> Result<(), Error> {
    match intent.request.resume_origin {
        None => Ok(()),
        Some(origin) => if origin.revision >= intent.revision {
            Err(rules::no("retained resumption lost its original Control commitment"))
        } else {
            resumable(
                control,
                intent.request,
                "retained resumption issuer missing",
                "retained resumption lost its original Control commitment",
            )
        },
    }
}

#[verifier::opaque]
pub open spec fn intent_checked(
    s: StateView,
    control: LifecycleView,
    epoch: u64,
    id: u128,
    intent: LifecycleIntent,
) -> Result<(), Error> {
    match resumed_later(control, intent) {
        Err(e) => Err(e),
        Ok(()) => if !intent_identity(s, control, epoch, id, intent) {
            Err(rules::no("retained lifecycle intent identity differs"))
        } else {
            outside_changes(control, intent)
        },
    }
}

pub open spec fn intents_checked(s: StateView, control: LifecycleView, epoch: u64) -> Result<(), Error> {
    first_refusal::every(
        control.intents,
        |id: u128, intent: LifecycleIntent| intent_checked(s, control, epoch, id, intent),
    )
}

/// The tally of the next `n` changes behind the bound, in their order, where each is
/// tallied only if its form is not refused.
pub open spec fn formed_tally(
    s: StateView,
    control: LifecycleView,
    refusals: Map<u128, Error>,
    bound: Option<Place>,
    t: Tally,
    n: nat,
) -> Result<Tally, Error>
    decreases n,
{
    if n == 0 {
        Ok(t)
    } else {
        match next_change(control.changes, bound) {
            None => Ok(t),
            Some(id) => match refusals.get(id) {
                Some(e) => Err(e),
                None => match tally_change(s, control, id, control.changes[id], t) {
                    Err(e) => Err(e),
                    Ok(t) => formed_tally(
                        s,
                        control,
                        refusals,
                        Some(place(control.changes, id)),
                        t,
                        (n - 1) as nat,
                    ),
                },
            },
        }
    }
}

/// What an intent is held to where its form, or that of its principal, is refused or is
/// not.
#[verifier::opaque]
pub open spec fn intent_formed(
    s: StateView,
    control: LifecycleView,
    epoch: u64,
    id: u128,
    intent: LifecycleIntent,
    form: Option<Error>,
    principal: Option<Error>,
) -> Result<(), Error> {
    if form is Some {
        Err(form->0)
    } else {
        match resumed_later(control, intent) {
            Err(e) => Err(e),
            Ok(()) => if principal is Some {
                Err(principal->0)
            } else if !intent_identity(s, control, epoch, id, intent) {
                Err(rules::no("retained lifecycle intent identity differs"))
            } else {
                outside_changes(control, intent)
            },
        }
    }
}

pub open spec fn intents_formed(
    s: StateView,
    control: LifecycleView,
    epoch: u64,
    forms: LifecycleFormsView,
) -> Result<(), Error> {
    first_refusal::every(
        control.intents,
        |id: u128, intent: LifecycleIntent|
            intent_formed(
                s,
                control,
                epoch,
                id,
                intent,
                forms.intents.get(id),
                forms.principals.get(id),
            ),
    )
}

/// Whether the closed state is of this incarnation and within its bounds, given
/// how many bytes it is encoded in.
#[verifier::opaque]
pub open spec fn bounded(s: StateView, control: LifecycleView, encoded_bytes: u64) -> bool {
    &&& s.tenant == digest::name_of("__kasumi_control"@)
    &&& control.installation.control_incarnation == s.incarnation
    &&& control.installation_command_id != 0
    &&& control.installation_revision != 0
    &&& control.installation_revision <= s.revision
    &&& !s.retired
    &&& !s.pending_restore
    &&& control.intents.dom().len() <= control.installation.max_intents
    &&& control.changes.dom().len() <= control.installation.max_changes
    &&& encoded_bytes <= control.installation.max_state_bytes
}

/// What the whole lifecycle state is held to.
#[verifier::opaque]
pub open spec fn closed(s: StateView, encoded_bytes: u64) -> Result<(), Error> {
    match s.lifecycle {
        None => Ok(()),
        Some(control) => if !bounded(s, control, encoded_bytes) {
            Err(rules::no("invalid bounded lifecycle control state"))
        } else {
            match whole_tally(s, control) {
                Err(e) => Err(e),
                Ok(t) => if !tallies(s, control, t) {
                    Err(
                        rules::no("current control policy is outside the closed transition history"),
                    )
                } else {
                    intents_checked(s, control, t.epoch)
                },
            }
        },
    }
}

/// What the whole lifecycle state is held to, where the forms of its records are
/// refused in their turn or are not.
#[verifier::opaque]
pub open spec fn closed_formed(s: StateView, encoded_bytes: u64, forms: LifecycleFormsView) -> Result<
    (),
    Error,
> {
    match s.lifecycle {
        None => Ok(()),
        Some(control) => if forms.installation is Some {
            Err(forms.installation->0)
        } else if !bounded(s, control, encoded_bytes) {
            Err(rules::no("invalid bounded lifecycle control state"))
        } else if forms.policy is Some {
            Err(forms.policy->0)
        } else {
            match formed_tally(
                s,
                control,
                forms.changes,
                None,
                start_tally(control),
                control.changes.dom().len(),
            ) {
                Err(e) => Err(e),
                Ok(t) => if !tallies(s, control, t) {
                    Err(
                        rules::no("current control policy is outside the closed transition history"),
                    )
                } else {
                    intents_formed(s, control, t.epoch, forms)
                },
            }
        },
    }
}

proof fn lemma_tally_formed(
    s: StateView,
    control: LifecycleView,
    bound: Option<Place>,
    t: Tally,
    n: nat,
)
    ensures
        formed_tally(s, control, Map::empty(), bound, t, n) == tally(s, control, bound, t, n),
    decreases n,
{
    if n > 0 {
        if let Some(id) = next_change(control.changes, bound) {
            if let Ok(t) = tally_change(s, control, id, control.changes[id], t) {
                lemma_tally_formed(
                    s,
                    control,
                    Some(place(control.changes, id)),
                    t,
                    (n - 1) as nat,
                );
            }
        }
    }
}

/// Where no form is refused, a state is held to its closed history alone.
pub proof fn lemma_closed_formed(s: StateView, encoded_bytes: u64, forms: LifecycleFormsView)
    requires
        forms.accepts(),
    ensures
        closed_formed(s, encoded_bytes, forms) == closed(s, encoded_bytes),
{
    reveal(closed_formed);
    reveal(closed);
    if let Some(control) = s.lifecycle {
        lemma_tally_formed(
            s,
            control,
            None,
            start_tally(control),
            control.changes.dom().len(),
        );
        if let Ok(t) = whole_tally(s, control) {
            let plain = |id: u128, intent: LifecycleIntent|
                intent_checked(s, control, t.epoch, id, intent);
            let formed = |id: u128, intent: LifecycleIntent|
                intent_formed(
                    s,
                    control,
                    t.epoch,
                    id,
                    intent,
                    forms.intents.get(id),
                    forms.principals.get(id),
                );
            assert forall|id: u128, intent: LifecycleIntent| #[trigger]
                plain(id, intent) == formed(id, intent) by {
                reveal(intent_checked);
                reveal(intent_formed);
            }
            assert(plain =~= formed);
        }
    }
}

// ---------------------------------------------------------------------
// Observation
// ---------------------------------------------------------------------

/// Whether a committed intent may still be granted on.
pub open spec fn grantable(s: StateView, observed: CommittedIntent, term: u64, now: u64) -> Result<
    (),
    Error,
> {
    if term != observed.observed_term {
        Err(
            errors::refusal(ErrorCode::Unavailable, "control observation quorum term changed"),
        )
    } else {
        match s.lifecycle {
            None => Err(rules::no("control installation absent")),
            Some(control) => if control.retired || control.pending_change is Some
                || control.installation.sha256 != observed.installation_sha256 || s.policy_epoch
                != observed.observed_policy_epoch || s.policy_epoch
                != observed.intent.request.expected_policy_epoch || control.intents.get(
                observed.intent.request.command_id,
            ) != Some(observed.intent) {
                Err(
                    rules::no("committed control intent is no longer eligible for grant issuance"),
                )
            } else if now >= observed.intent.original_credential_expires_at_ms {
                Err(
                    errors::refusal(
                        ErrorCode::Unauthorized,
                        "original lifecycle authorization expired",
                    ),
                )
            } else {
                Ok(())
            },
        }
    }
}

/// Whether an observed change is still the pending one.
pub open spec fn still_pending(s: StateView, observed: CommittedChange, term: u64) -> Result<(), Error> {
    if term != observed.observed_term {
        Err(errors::refusal(ErrorCode::Unavailable, "control change quorum term changed"))
    } else {
        match s.lifecycle {
            None => Err(rules::no("control installation absent")),
            Some(control) => if control.retired || control.pending_change != Some(
                observed.change.request.command_id,
            ) || s.policy_epoch != observed.observed_policy_epoch || control.installation.sha256
                != observed.change.installation_sha256 || control.changes.get(
                observed.change.request.command_id,
            ) != Some(observed.change) {
                Err(rules::no("exact pending control change differs"))
            } else {
                Ok(())
            },
        }
    }
}

} // verus!
