//! Ordered control commitments. This reducer is the only mutator of the closed
//! lifecycle installation; generic policy and retirement cannot invalidate grants.
use vstd::prelude::*;

use crate::digest::{Digest, Name};
use crate::encoding::{labelled_digest, CHANGE_REQUEST, INTENT, INTENT_REQUEST};
use crate::errors::{conflict, error, Error, ErrorCode};
use crate::lifecycle_model::{LifecycleAdmission, LifecycleCommand, OperationKind};
use crate::lifecycle_rules;
use crate::lifecycle_rules::{Place, Tally};
use crate::model::{
    ChangeRequest, EpochStops, Installation, IntentRequest, LifecycleControl, LifecycleIntent,
    PolicyChange, ResumeOrigin, State,
};
use crate::recovery_lookup::partition_named;
use crate::record_forms::LifecycleForms;
use crate::table;
use crate::table::Table;
use crate::views::StateView;

verus! {

fn exact_control(state: &State, admission: &LifecycleAdmission) -> (r: Result<(), Error>)
    ensures
        r == lifecycle_rules::exact_control(state@, *admission),
{
    if state.tenant != Name::of("__kasumi_control") || admission.tenant != state.tenant {
        return Err(
            error(
                ErrorCode::Forbidden,
                "lifecycle control requires the installed control namespace",
            ),
        );
    }
    match admission.control_refusal {
        Some(refusal) => return Err(refusal),
        None => {},
    }
    match admission.admin_refusal {
        Some(refusal) => return Err(refusal),
        None => {},
    }
    match admission.request_refusal {
        Some(refusal) => Err(refusal),
        None => Ok(()),
    }
}

/// Whether an operation may pass closed lifecycle Control. Installation keys and
/// issuer membership are immutable for this incarnation, so that a new
/// installation cannot bypass draining its old authority.
pub fn guard(state: &State, kind: OperationKind) -> (r: Result<(), Error>)
    ensures
        r == lifecycle_rules::guarded(state@, kind),
{
    let control = match &state.lifecycle {
        None => return Ok(()),
        Some(control) => control,
    };
    if kind == OperationKind::Other {
        return Err(
            error(
                ErrorCode::Forbidden,
                "closed lifecycle control requires its policy transition; generic authority/schema invalidation is disabled",
            ),
        );
    }
    if kind == OperationKind::LifecycleControl || kind == OperationKind::Audit || kind
        == OperationKind::MaintenanceAudit {
        return Ok(());
    }
    if control.pending_change.is_some() {
        return Err(
            conflict("control policy transition freezes topology and command publication"),
        );
    }
    if control.retired {
        return Err(error(ErrorCode::Sealed, "lifecycle control incarnation is retired"));
    }
    Ok(())
}

/// Whether a command did to the state what is said of it, and answered so. A
/// refused command leaves the state as it was.
pub open spec fn did(
    before: StateView,
    after: StateView,
    answer: Result<u64, Error>,
    said: Result<(StateView, u64), Error>,
) -> bool {
    match said {
        Err(e) => answer == Err::<u64, Error>(e) && after == before,
        Ok((next, revision)) => answer == Ok::<u64, Error>(revision) && after == next,
    }
}

fn install(state: &mut State, command_id: u128, installation: &Installation, revision: u64) -> (r:
    Result<u64, Error>)
    ensures
        did(
            old(state)@,
            final(state)@,
            r,
            lifecycle_rules::install(old(state)@, command_id, installation@, revision),
        ),
{
    proof {
        reveal(lifecycle_rules::install);
    }
    if command_id == 0 || installation.control_incarnation != state.incarnation {
        return Err(conflict("control installation incarnation differs"));
    }
    match &state.lifecycle {
        Some(existing) => {
            if existing.installation_command_id == command_id && existing.installation.sha256
                == installation.sha256 {
                return Ok(existing.installation_revision);
            }
            return Err(conflict("control installation is immutable"));
        },
        None => {},
    }
    state.lifecycle = Some(
        LifecycleControl {
            installation: installation.copy(),
            installation_command_id: command_id,
            installation_revision: revision,
            installation_policy_epoch: state.policy_epoch,
            installation_policy: state.policy,
            retired: false,
            pending_change: None,
            intents: Table::new(),
            changes: Table::new(),
        },
    );
    Ok(revision)
}

fn retains_origin(intents: &Table<LifecycleIntent>, origin: &ResumeOrigin) -> (b: bool)
    ensures
        b == lifecycle_rules::retains_origin(intents@, *origin),
{
    proof {
        reveal(lifecycle_rules::retains_origin);
    }
    match intents.get(origin.command_id) {
        None => false,
        Some(retained) => retained.revision == origin.revision && labelled_digest(INTENT, &retained)
            == origin.intent_sha256,
    }
}

fn resumable(
    control: &LifecycleControl,
    request: &IntentRequest,
    absent: &'static str,
    differs: &'static str,
) -> (r: Result<(), Error>)
    ensures
        r == lifecycle_rules::resumable(control@, *request, absent, differs),
{
    proof {
        reveal(lifecycle_rules::resumable);
    }
    let origin = match request.resume_origin {
        None => return Ok(()),
        Some(origin) => origin,
    };
    if !retains_origin(&control.intents, &origin) {
        return Err(conflict(differs));
    }
    let partition = match partition_named(
        &control.installation.partitions,
        request.authority_partition,
    ) {
        None => return Err(conflict(absent)),
        Some(partition) => partition,
    };
    if origin.authority_manifest_sha256 != partition.manifest_sha256 {
        return Err(conflict(differs));
    }
    Ok(())
}

fn credential(admission: &LifecycleAdmission) -> (r: Result<u64, Error>)
    ensures
        r == lifecycle_rules::credential(*admission),
{
    proof {
        reveal(lifecycle_rules::credential);
    }
    match admission.credential_expires_at_ms {
        None => Err(
            error(
                ErrorCode::Unauthorized,
                "lifecycle intent needs an original finite verified credential",
            ),
        ),
        Some(expiry) => if admission.timestamp_ms >= expiry {
            Err(error(ErrorCode::Unauthorized, "original control credential expired"))
        } else {
            Ok(expiry)
        },
    }
}

fn issuable(policy_epoch: u64, control: &LifecycleControl, request: &IntentRequest, Ghost(s): Ghost<
    StateView,
>) -> (r: Result<(), Error>)
    requires
        s.policy_epoch == policy_epoch,
    ensures
        r == lifecycle_rules::issuable(s, control@, *request),
{
    proof {
        reveal(lifecycle_rules::issuable);
    }
    if control.changes.contains(request.command_id) || request.command_id
        == control.installation_command_id {
        return Err(conflict("lifecycle command identity already used"));
    }
    if request.expected_policy_epoch != policy_epoch || request.installation_sha256
        != control.installation.sha256 || partition_named(
        &control.installation.partitions,
        request.authority_partition,
    ).is_none() {
        return Err(conflict("lifecycle current epoch or installed partition differs"));
    }
    Ok(())
}

fn admit_intent(
    state: &mut State,
    admission: &LifecycleAdmission,
    request: &IntentRequest,
    revision: u64,
) -> (r: Result<u64, Error>)
    requires
        old(state).lifecycle is Some,
    ensures
        did(
            old(state)@,
            final(state)@,
            r,
            lifecycle_rules::admit_intent(
                old(state)@,
                old(state).lifecycle->0@,
                *admission,
                *request,
                revision,
            ),
        ),
{
    proof {
        reveal(lifecycle_rules::admit_intent);
    }
    let ghost before = state@;
    let mut installed: Option<LifecycleControl> = None;
    match &state.lifecycle {
        None => {},
        Some(control) => {
            resumable(
                control,
                request,
                "resumption issuer partition missing",
                "resumption origin is not the exact retained Control commitment",
            )?;
            issuable(state.policy_epoch, control, request, Ghost(state@))?;
            let expiry: u64 = credential(admission)?;
            if control.intents.len() as u64 >= control.installation.max_intents {
                return Err(
                    error(
                        ErrorCode::QuotaExceeded,
                        "permanent lifecycle intent quota reached",
                    ),
                );
            }
            let accepted = LifecycleIntent {
                request: *request,
                request_sha256: labelled_digest(INTENT_REQUEST, request),
                control_incarnation: control.installation.control_incarnation,
                installation_generation: control.installation.generation,
                original_principal: admission.principal,
                original_credential_expires_at_ms: expiry,
                accepted_at_ms: admission.timestamp_ms,
                revision,
            };
            let mut next = control.copy();
            next.intents.insert(request.command_id, accepted);
            installed = Some(next);
        },
    }
    state.lifecycle = installed;
    Ok(revision)
}

fn commit_intent(
    state: &mut State,
    admission: &LifecycleAdmission,
    request: &IntentRequest,
    revision: u64,
) -> (r: Result<u64, Error>)
    ensures
        did(
            old(state)@,
            final(state)@,
            r,
            lifecycle_rules::commit_intent(old(state)@, *admission, *request, revision),
        ),
{
    proof {
        reveal(lifecycle_rules::commit_intent);
    }
    let control = match &state.lifecycle {
        None => return Err(conflict("lifecycle control is not installed")),
        Some(control) => control,
    };
    match control.intents.get(request.command_id) {
        Some(retained) => {
            if retained.request_sha256 != labelled_digest(INTENT_REQUEST, request) {
                return Err(conflict("permanent lifecycle intent identity differs"));
            }
            return Ok(retained.revision);
        },
        None => {},
    }
    if control.retired || control.pending_change.is_some() {
        return Err(conflict("lifecycle issuance is closed"));
    }
    admit_intent(state, admission, request, revision)
}

fn admit_change(
    state: &mut State,
    admission: &LifecycleAdmission,
    request: &ChangeRequest,
    revision: u64,
) -> (r: Result<u64, Error>)
    requires
        old(state).lifecycle is Some,
    ensures
        did(
            old(state)@,
            final(state)@,
            r,
            lifecycle_rules::admit_change(
                old(state)@,
                old(state).lifecycle->0@,
                *admission,
                *request,
                revision,
            ),
        ),
{
    proof {
        reveal(lifecycle_rules::admit_change);
    }
    let mut installed: Option<LifecycleControl> = None;
    match &state.lifecycle {
        None => {},
        Some(control) => {
            if control.intents.contains(request.command_id) || request.command_id
                == control.installation_command_id {
                return Err(conflict("lifecycle command identity already used"));
            }
            if request.expected_policy_epoch != state.policy_epoch || request.installation_sha256
                != control.installation.sha256 {
                return Err(conflict("control change current epoch or installation differs"));
            }
            if control.changes.len() as u64 >= control.installation.max_changes
                || state.policy_epoch == u64::MAX {
                return Err(
                    error(
                        ErrorCode::QuotaExceeded,
                        "control policy history or epoch exhausted",
                    ),
                );
            }
            // The exhaustive immutable partition set is part of the commitment.
            // No operator enrollment path can change this set during the drain.
            let change = PolicyChange {
                request: *request,
                request_sha256: labelled_digest(CHANGE_REQUEST, request),
                control_incarnation: control.installation.control_incarnation,
                installation_sha256: control.installation.sha256,
                original_principal: admission.principal,
                accepted_at_ms: admission.timestamp_ms,
                accepted_revision: revision,
                completed_revision: None,
                completion_stops: None,
            };
            let mut next = control.copy();
            next.changes.insert(request.command_id, change);
            next.pending_change = Some(request.command_id);
            installed = Some(next);
        },
    }
    state.lifecycle = installed;
    Ok(revision)
}

fn begin_change(
    state: &mut State,
    admission: &LifecycleAdmission,
    request: &ChangeRequest,
    policy_refusal: Option<Error>,
    revision: u64,
) -> (r: Result<u64, Error>)
    ensures
        did(
            old(state)@,
            final(state)@,
            r,
            lifecycle_rules::begin_change(
                old(state)@,
                *admission,
                *request,
                policy_refusal,
                revision,
            ),
        ),
{
    proof {
        reveal(lifecycle_rules::begin_change);
    }
    match policy_refusal {
        Some(refusal) => return Err(refusal),
        None => {},
    }
    let control = match &state.lifecycle {
        None => return Err(conflict("lifecycle control is not installed")),
        Some(control) => control,
    };
    match control.changes.get(request.command_id) {
        Some(retained) => {
            if retained.request_sha256 != labelled_digest(CHANGE_REQUEST, request) {
                return Err(conflict("permanent control change identity differs"));
            }
            return Ok(retained.accepted_revision);
        },
        None => {},
    }
    if control.retired || control.pending_change.is_some() {
        return Err(conflict("control policy transition is already closed or pending"));
    }
    admit_change(state, admission, request, revision)
}

fn next_policy_epoch(epoch: u64) -> (r: Result<u64, Error>)
    ensures
        r == lifecycle_rules::next_policy_epoch(epoch),
{
    match epoch.checked_add(1) {
        None => Err(conflict("control policy epoch exhausted")),
        Some(next) => Ok(next),
    }
}

/// Puts what a completed change leaves.
fn put_changed(
    state: &mut State,
    id: u128,
    change: &PolicyChange,
    epoch: u64,
    stops: EpochStops,
    revision: u64,
)
    requires
        old(state).lifecycle is Some,
    ensures
        final(state)@ == lifecycle_rules::changed(
            old(state)@,
            old(state).lifecycle->0@,
            id,
            *change,
            epoch,
            stops,
            revision,
        ),
{
    let mut installed: Option<LifecycleControl> = None;
    match &state.lifecycle {
        None => {},
        Some(control) => {
            let mut next = control.copy();
            next.retired = change.request.retire_control;
            next.pending_change = None;
            next.changes.insert(
                id,
                PolicyChange {
                    completed_revision: Some(revision),
                    completion_stops: Some(stops),
                    ..*change
                },
            );
            installed = Some(next);
        },
    }
    state.policy = change.request.candidate_policy;
    state.policy_epoch = epoch;
    state.lifecycle = installed;
}

fn complete_change(
    state: &mut State,
    id: u128,
    change_sha256: Digest,
    stops: EpochStops,
    revision: u64,
) -> (r: Result<u64, Error>)
    ensures
        did(
            old(state)@,
            final(state)@,
            r,
            lifecycle_rules::complete_change(old(state)@, id, change_sha256, stops, revision),
        ),
{
    proof {
        reveal(lifecycle_rules::complete_change);
    }
    let control = match &state.lifecycle {
        None => return Err(conflict("lifecycle control is not installed")),
        Some(control) => control,
    };
    let change = match control.changes.get(id) {
        None => return Err(conflict("control change is absent")),
        Some(change) => change,
    };
    if change.request_sha256 != change_sha256 {
        return Err(conflict("exact control change identity differs"));
    }
    match change.completed_revision {
        Some(completed) => {
            if change.completion_stops != Some(stops) {
                return Err(conflict("permanent control completion input differs"));
            }
            return Ok(completed);
        },
        None => {},
    }
    if control.pending_change != Some(id) || state.policy_epoch
        != change.request.expected_policy_epoch {
        return Err(conflict("control change is not the current pending transition"));
    }
    if !stops.authentic {
        return Err(conflict("complete exact installed authority stop proofs are required"));
    }
    let epoch: u64 = next_policy_epoch(state.policy_epoch)?;
    put_changed(state, id, &change, epoch, stops, revision);
    Ok(revision)
}

/// Applies a lifecycle command, or leaves the state as it was. The state that it
/// gives is held to `validate` before it is published.
pub fn apply_candidate(
    state: &mut State,
    admission: &LifecycleAdmission,
    command: &LifecycleCommand,
    revision: u64,
) -> (r: Result<u64, Error>)
    ensures
        did(
            old(state)@,
            final(state)@,
            r,
            lifecycle_rules::transition(old(state)@, *admission, command@, revision),
        ),
{
    proof {
        reveal(lifecycle_rules::transition);
    }
    exact_control(state, admission)?;
    match command {
        LifecycleCommand::Install { command_id, installation } => install(
            state,
            *command_id,
            installation,
            revision,
        ),
        LifecycleCommand::CommitIntent(request) => commit_intent(
            state,
            admission,
            request,
            revision,
        ),
        LifecycleCommand::BeginPolicyChange { request, policy_refusal } => begin_change(
            state,
            admission,
            request,
            *policy_refusal,
            revision,
        ),
        LifecycleCommand::CompletePolicyChange {
            command_id,
            change_sha256,
            stops,
        } => complete_change(state, *command_id, *change_sha256, *stops, revision),
    }
}

/// The state as if the pending change were completed as widely as it can be, so
/// that its completion keeps the room that it needs. No other command can spend
/// that room.
pub fn completion_reserve(state: &State, stops: EpochStops) -> (r: Result<Option<State>, Error>)
    ensures
        match (r, lifecycle_rules::reserved(state@, stops)) {
            (Err(e), Err(said)) => e == said,
            (Ok(None), Ok(None)) => true,
            (Ok(Some(completed)), Ok(Some(view))) => completed@ == view,
            _ => false,
        },
{
    proof {
        reveal(lifecycle_rules::reserved);
    }
    let control = match &state.lifecycle {
        None => return Ok(None),
        Some(control) => control,
    };
    let id: u128 = match control.pending_change {
        None => return Ok(None),
        Some(id) => id,
    };
    let change = match control.changes.get(id) {
        None => return Err(conflict("pending control change absent")),
        Some(change) => change,
    };
    let epoch: u64 = next_policy_epoch(state.policy_epoch)?;
    let mut completed = state.copy();
    put_changed(&mut completed, id, &change, epoch, stops, u64::MAX);
    Ok(Some(completed))
}

/// Whether a state that reserves its completion fits: its hot audit bytes, its
/// encoded lifecycle control, and the snapshot as a whole.
pub fn completion_fits(
    hot_bytes: u64,
    hot_limit: u64,
    encoded_bytes: u64,
    max_state_bytes: u64,
    snapshot_fits: bool,
) -> (b: bool)
    ensures
        b == (hot_bytes <= hot_limit && encoded_bytes <= max_state_bytes && snapshot_fits),
{
    hot_bytes <= hot_limit && encoded_bytes <= max_state_bytes && snapshot_fits
}

fn before(a: &Place, b: &Place) -> (r: bool)
    ensures
        r == lifecycle_rules::before(*a, *b),
{
    a.revision < b.revision || (a.revision == b.revision && a.id < b.id)
}

/// The first change behind the bound, in the order of acceptance.
fn next_change(changes: &Table<PolicyChange>, bound: &Option<Place>) -> (r: Option<
    (u128, PolicyChange),
>)
    ensures
        match r {
            None => lifecycle_rules::next_change(changes@, *bound) is None,
            Some((id, change)) => lifecycle_rules::next_change(changes@, *bound) == Some(id)
                && changes@.get(id) == Some(change),
        },
{
    let rows: usize = changes.len();
    let mut found: Option<(u128, PolicyChange)> = None;
    let mut i: usize = 0;
    while i < rows
        invariant
            i <= rows,
            rows == changes.rows().len(),
            table::covers(changes.rows(), changes@),
            match found {
                None => forall|j: int|
                    0 <= j < i ==> !lifecycle_rules::behind(
                        changes@,
                        *bound,
                        (#[trigger] changes.rows()[j]).0,
                    ),
                Some((id, change)) => {
                    &&& changes@.get(id) == Some(change)
                    &&& lifecycle_rules::behind(changes@, *bound, id)
                    &&& forall|j: int|
                        0 <= j < i && lifecycle_rules::behind(
                            changes@,
                            *bound,
                            (#[trigger] changes.rows()[j]).0,
                        ) && changes.rows()[j].0 != id ==> lifecycle_rules::before(
                            lifecycle_rules::place(changes@, id),
                            lifecycle_rules::place(changes@, changes.rows()[j].0),
                        )
                },
            },
        decreases rows - i,
    {
        let (id, change) = changes.row(i);
        let place = Place { revision: change.accepted_revision, id };
        let eligible: bool = match bound {
            None => true,
            Some(bound) => before(bound, &place),
        };
        if eligible {
            let better: bool = match &found {
                None => true,
                Some((best, retained)) => before(
                    &place,
                    &Place { revision: retained.accepted_revision, id: *best },
                ),
            };
            if better {
                found = Some((id, change));
            }
        }
        i = i + 1;
    }
    proof {
        match found {
            None => {
                assert forall|id: u128| !lifecycle_rules::is_next(changes@, *bound, id) by {
                    if lifecycle_rules::behind(changes@, *bound, id) {
                        let j = choose|j: int|
                            0 <= j < changes.rows().len() && (#[trigger] changes.rows()[j]).0
                                == id;
                        assert(changes.rows()[j].0 == id);
                    }
                }
            },
            Some((id, change)) => {
                assert forall|other: u128| #[trigger]
                    lifecycle_rules::behind(changes@, *bound, other) && other
                        != id implies lifecycle_rules::before(
                    lifecycle_rules::place(changes@, id),
                    lifecycle_rules::place(changes@, other),
                ) by {
                    let j = choose|j: int|
                        0 <= j < changes.rows().len() && (#[trigger] changes.rows()[j]).0 == other;
                    assert(changes.rows()[j].0 == other);
                }
                assert(lifecycle_rules::is_next(changes@, *bound, id));
                let chosen = choose|other: u128|
                    lifecycle_rules::is_next(changes@, *bound, other);
                assert(lifecycle_rules::behind(changes@, *bound, chosen));
                assert(lifecycle_rules::behind(changes@, *bound, id));
            },
        }
    }
    found
}

fn continuous(
    state: &State,
    control: &LifecycleControl,
    id: u128,
    change: &PolicyChange,
    tally: &Tally,
) -> (b: bool)
    ensures
        b == lifecycle_rules::continuous(state@, control@, id, *change, *tally),
{
    proof {
        reveal(lifecycle_rules::continuous);
    }
    id != control.installation_command_id && id == change.request.command_id
        && change.request_sha256 == labelled_digest(CHANGE_REQUEST, &change.request)
        && change.request.installation_sha256 == control.installation.sha256
        && change.installation_sha256 == control.installation.sha256 && change.control_incarnation
        == control.installation.control_incarnation && change.request.expected_policy_epoch
        == tally.epoch && change.accepted_revision > tally.previous && change.accepted_revision
        <= state.revision && tally.pending.is_none() && !tally.retired
}

fn tally_completed(state: &State, change: &PolicyChange, revision: u64, tally: &Tally) -> (r: Result<
    Tally,
    Error,
>)
    ensures
        r == lifecycle_rules::tally_completed(state@, *change, revision, *tally),
{
    proof {
        reveal(lifecycle_rules::tally_completed);
    }
    if revision <= change.accepted_revision || revision > state.revision {
        return Err(conflict("control completion revision differs"));
    }
    let stops = match change.completion_stops {
        None => return Err(conflict("completed control stop proofs absent")),
        Some(stops) => stops,
    };
    if !stops.authentic {
        return Err(conflict("retained control stop proofs invalid"));
    }
    let epoch: u64 = next_policy_epoch(tally.epoch)?;
    Ok(
        Tally {
            epoch,
            policy: change.request.candidate_policy,
            retired: change.request.retire_control,
            previous: revision,
            pending: tally.pending,
        },
    )
}

fn tally_change(
    state: &State,
    control: &LifecycleControl,
    id: u128,
    change: &PolicyChange,
    tally: &Tally,
) -> (r: Result<Tally, Error>)
    ensures
        r == lifecycle_rules::tally_change(state@, control@, id, *change, *tally),
{
    proof {
        reveal(lifecycle_rules::tally_change);
    }
    if !continuous(state, control, id, change, tally) {
        return Err(conflict("control policy history is discontinuous or substituted"));
    }
    match change.completed_revision {
        Some(revision) => tally_completed(state, change, revision, tally),
        None => {
            if change.completion_stops.is_some() {
                return Err(conflict("pending control change contains completion proofs"));
            }
            Ok(
                Tally {
                    epoch: tally.epoch,
                    policy: tally.policy,
                    retired: tally.retired,
                    previous: change.accepted_revision,
                    pending: Some(id),
                },
            )
        },
    }
}

fn whole_tally(state: &State, control: &LifecycleControl, refusals: &Table<Error>) -> (r: Result<
    Tally,
    Error,
>)
    ensures
        r == lifecycle_rules::formed_tally(
            state@,
            control@,
            refusals@,
            None,
            lifecycle_rules::start_tally(control@),
            control@.changes.dom().len(),
        ),
{
    let count: usize = control.changes.len();
    let mut left: usize = count;
    let mut bound: Option<Place> = None;
    let mut tally = Tally {
        epoch: control.installation_policy_epoch,
        policy: control.installation_policy,
        previous: control.installation_revision,
        pending: None,
        retired: false,
    };
    while left > 0
        invariant
            left <= count,
            lifecycle_rules::formed_tally(
                state@,
                control@,
                refusals@,
                None,
                lifecycle_rules::start_tally(control@),
                control@.changes.dom().len(),
            ) == lifecycle_rules::formed_tally(
                state@,
                control@,
                refusals@,
                bound,
                tally,
                left as nat,
            ),
        decreases left,
    {
        let (id, change) = match next_change(&control.changes, &bound) {
            None => return Ok(tally),
            Some(found) => found,
        };
        match refusals.get(id) {
            Some(refusal) => return Err(refusal),
            None => {},
        }
        tally = tally_change(state, control, id, &change, &tally)?;
        bound = Some(Place { revision: change.accepted_revision, id });
        left = left - 1;
    }
    Ok(tally)
}

fn outside_change(intent: &LifecycleIntent, change: &PolicyChange) -> (r: Result<(), Error>)
    ensures
        r == lifecycle_rules::outside_change(*intent, *change),
{
    proof {
        reveal(lifecycle_rules::outside_change);
    }
    let unfinished: bool = match change.completed_revision {
        None => true,
        Some(revision) => intent.revision < revision,
    };
    if intent.revision > change.accepted_revision && unfinished {
        return Err(conflict("lifecycle intent was accepted during frozen policy transition"));
    }
    let finished: bool = match change.completed_revision {
        None => false,
        Some(revision) => intent.revision > revision,
    };
    if finished && intent.request.expected_policy_epoch <= change.request.expected_policy_epoch {
        return Err(conflict("lifecycle intent uses retired control epoch"));
    }
    Ok(())
}

fn outside_changes(control: &LifecycleControl, intent: &LifecycleIntent) -> (r: Result<(), Error>)
    ensures
        r == lifecycle_rules::outside_changes(control@, *intent),
{
    let ghost check = |id: u128, change: PolicyChange|
        lifecycle_rules::outside_change(*intent, change);
    let rows: usize = control.changes.len();
    let mut i: usize = 0;
    while i < rows
        invariant
            i <= rows,
            rows == control.changes.rows().len(),
            table::ascending(control.changes.rows()),
            table::covers(control.changes.rows(), control.changes@),
            check == (|id: u128, change: PolicyChange|
                lifecycle_rules::outside_change(*intent, change)),
            table::passed(control.changes.rows(), control.changes@, check, i as int),
        decreases rows - i,
    {
        let (id, change) = control.changes.row(i);
        match outside_change(intent, &change) {
            Err(e) => {
                proof {
                    table::lemma_refused(
                        control.changes.rows(),
                        control.changes@,
                        check,
                        i as int,
                    );
                }
                return Err(e);
            },
            Ok(()) => {},
        }
        i = i + 1;
    }
    proof {
        table::lemma_passed(control.changes.rows(), control.changes@, check);
    }
    Ok(())
}

fn intent_identity(
    state: &State,
    control: &LifecycleControl,
    epoch: u64,
    id: u128,
    intent: &LifecycleIntent,
) -> (b: bool)
    ensures
        b == lifecycle_rules::intent_identity(state@, control@, epoch, id, *intent),
{
    proof {
        reveal(lifecycle_rules::intent_identity);
    }
    id != control.installation_command_id && !control.changes.contains(id) && id
        == intent.request.command_id && intent.request_sha256 == labelled_digest(
        INTENT_REQUEST,
        &intent.request,
    ) && intent.control_incarnation == control.installation.control_incarnation
        && intent.installation_generation == control.installation.generation
        && intent.request.installation_sha256 == control.installation.sha256 && partition_named(
        &control.installation.partitions,
        intent.request.authority_partition,
    ).is_some() && intent.revision > control.installation_revision && intent.revision
        <= state.revision && intent.accepted_at_ms < intent.original_credential_expires_at_ms
        && intent.request.expected_policy_epoch >= control.installation_policy_epoch
        && intent.request.expected_policy_epoch <= epoch
}

fn resumed_later(control: &LifecycleControl, intent: &LifecycleIntent) -> (r: Result<(), Error>)
    ensures
        r == lifecycle_rules::resumed_later(control@, *intent),
{
    proof {
        reveal(lifecycle_rules::resumed_later);
    }
    match intent.request.resume_origin {
        None => Ok(()),
        Some(origin) => {
            if origin.revision >= intent.revision {
                return Err(conflict("retained resumption lost its original Control commitment"));
            }
            resumable(
                control,
                &intent.request,
                "retained resumption issuer missing",
                "retained resumption lost its original Control commitment",
            )
        },
    }
}

fn intent_formed(
    state: &State,
    control: &LifecycleControl,
    epoch: u64,
    id: u128,
    intent: &LifecycleIntent,
    form: Option<Error>,
    principal: Option<Error>,
) -> (r: Result<(), Error>)
    ensures
        r == lifecycle_rules::intent_formed(
            state@,
            control@,
            epoch,
            id,
            *intent,
            form,
            principal,
        ),
{
    proof {
        reveal(lifecycle_rules::intent_formed);
    }
    match form {
        Some(refusal) => return Err(refusal),
        None => {},
    }
    resumed_later(control, intent)?;
    match principal {
        Some(refusal) => return Err(refusal),
        None => {},
    }
    if !intent_identity(state, control, epoch, id, intent) {
        return Err(conflict("retained lifecycle intent identity differs"));
    }
    outside_changes(control, intent)
}

fn intents_formed(
    state: &State,
    control: &LifecycleControl,
    epoch: u64,
    forms: &LifecycleForms,
) -> (r: Result<(), Error>)
    ensures
        r == lifecycle_rules::intents_formed(state@, control@, epoch, forms@),
{
    let ghost check = |id: u128, intent: LifecycleIntent|
        lifecycle_rules::intent_formed(
            state@,
            control@,
            epoch,
            id,
            intent,
            forms@.intents.get(id),
            forms@.principals.get(id),
        );
    let rows: usize = control.intents.len();
    let mut i: usize = 0;
    while i < rows
        invariant
            i <= rows,
            rows == control.intents.rows().len(),
            table::ascending(control.intents.rows()),
            table::covers(control.intents.rows(), control.intents@),
            check == (|id: u128, intent: LifecycleIntent|
                lifecycle_rules::intent_formed(
                    state@,
                    control@,
                    epoch,
                    id,
                    intent,
                    forms@.intents.get(id),
                    forms@.principals.get(id),
                )),
            table::passed(control.intents.rows(), control.intents@, check, i as int),
        decreases rows - i,
    {
        let (id, intent) = control.intents.row(i);
        match intent_formed(
            state,
            control,
            epoch,
            id,
            &intent,
            forms.intents.get(id),
            forms.principals.get(id),
        ) {
            Err(e) => {
                proof {
                    table::lemma_refused(
                        control.intents.rows(),
                        control.intents@,
                        check,
                        i as int,
                    );
                }
                return Err(e);
            },
            Ok(()) => {},
        }
        i = i + 1;
    }
    proof {
        table::lemma_passed(control.intents.rows(), control.intents@, check);
    }
    Ok(())
}

fn bounded(state: &State, control: &LifecycleControl, encoded_bytes: u64) -> (b: bool)
    ensures
        b == lifecycle_rules::bounded(state@, control@, encoded_bytes),
{
    proof {
        reveal(lifecycle_rules::bounded);
    }
    state.tenant == Name::of("__kasumi_control") && control.installation.control_incarnation
        == state.incarnation && control.installation_command_id != 0
        && control.installation_revision != 0 && control.installation_revision <= state.revision
        && !state.retired && !state.pending_restore && control.intents.len() as u64
        <= control.installation.max_intents && control.changes.len() as u64
        <= control.installation.max_changes && encoded_bytes
        <= control.installation.max_state_bytes
}

/// Whether the lifecycle state is closed and sound, given how many bytes it is
/// encoded in: bounded, with a continuous history of changes that the current
/// policy follows from, and with every intent outside of them. `forms` holds what
/// refuses the forms of its records.
pub fn validate(state: &State, encoded_bytes: u64, forms: &LifecycleForms) -> (r: Result<(), Error>)
    ensures
        r == lifecycle_rules::closed_formed(state@, encoded_bytes, forms@),
{
    proof {
        reveal(lifecycle_rules::closed_formed);
    }
    let control = match &state.lifecycle {
        None => return Ok(()),
        Some(control) => control,
    };
    match forms.installation {
        Some(refusal) => return Err(refusal),
        None => {},
    }
    if !bounded(state, control, encoded_bytes) {
        return Err(conflict("invalid bounded lifecycle control state"));
    }
    match forms.policy {
        Some(refusal) => return Err(refusal),
        None => {},
    }
    let tally = whole_tally(state, control, &forms.changes)?;
    if control.pending_change != tally.pending || control.retired != tally.retired
        || state.policy_epoch != tally.epoch || state.policy != tally.policy {
        return Err(
            conflict("current control policy is outside the closed transition history"),
        );
    }
    intents_formed(state, control, tally.epoch, forms)
}

fn replays(state: &State, command: &LifecycleCommand) -> (b: bool)
    ensures
        b == lifecycle_rules::replays(state@, command@),
{
    match &state.lifecycle {
        None => false,
        Some(control) => match command {
            LifecycleCommand::Install { command_id, installation } => true,
            LifecycleCommand::CommitIntent(request) => control.intents.get(
                request.command_id,
            ).is_some(),
            LifecycleCommand::BeginPolicyChange {
                request,
                policy_refusal,
            } => control.changes.get(request.command_id).is_some(),
            LifecycleCommand::CompletePolicyChange {
                command_id,
                change_sha256,
                stops,
            } => match control.changes.get(*command_id) {
                None => false,
                Some(change) => change.completed_revision.is_some(),
            },
        },
    }
}

/// Applies a lifecycle command to a state at its revision and validates what it leaves,
/// which is encoded in so many bytes. A command that stands already is answered as it
/// was, before anything is validated. Nothing is left of a command that is refused, or
/// whose state is.
pub fn apply_validated(
    state: &State,
    admission: &LifecycleAdmission,
    command: &LifecycleCommand,
    revision: u64,
    encoded_bytes: u64,
    forms: &LifecycleForms,
) -> (r: Result<(State, u64), Error>)
    ensures
        match lifecycle_rules::transition(
            StateView { revision, ..state@ },
            *admission,
            command@,
            revision,
        ) {
            Err(e) => r == Err::<(State, u64), Error>(e),
            Ok((next, answered)) => if lifecycle_rules::replays(state@, command@) {
                r is Ok && r->Ok_0.0@ == next && r->Ok_0.1 == answered
            } else {
                match lifecycle_rules::closed_formed(next, encoded_bytes, forms@) {
                    Err(e) => r == Err::<(State, u64), Error>(e),
                    Ok(()) => r is Ok && r->Ok_0.0@ == next && r->Ok_0.1 == answered,
                }
            },
        },
{
    let mut next = state.copy();
    next.revision = revision;
    let answered: u64 = apply_candidate(&mut next, admission, command, revision)?;
    if replays(state, command) {
        return Ok((next, answered));
    }
    validate(&next, encoded_bytes, forms)?;
    Ok((next, answered))
}

} // verus!
