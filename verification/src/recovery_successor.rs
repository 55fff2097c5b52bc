//! How an incoming snapshot may differ from the journal that is installed. It
//! may advance unfinished phases, but cannot erase permanent command identities
//! or substitute an already resolved outcome.
use vstd::prelude::*;

use crate::errors::{conflict, Error};
use crate::model::{
    CompletionHistory, PhaseRecord, RecoveryRecord, State, Voter, Voters,
};
use crate::recovery_attempts::scope;
use crate::recovery_lookup::{phase, voter};
use crate::snapshot_rules;
use crate::table;

verus! {

fn identity_kept(old: &RecoveryRecord, new: &RecoveryRecord) -> (b: bool)
    ensures
        b == snapshot_rules::identity_kept(*old, *new),
{
    proof {
        reveal(snapshot_rules::identity_kept);
    }
    new.request == old.request && new.original_principal == old.original_principal
        && new.created_revision == old.created_revision && new.updated_revision
        >= old.updated_revision && new.next_phase_sequence >= old.next_phase_sequence && kept(
        old.stop_request,
        new.stop_request,
    )
}

fn kept(before: Option<u128>, after: Option<u128>) -> (b: bool)
    ensures
        b == snapshot_rules::kept(before, after),
{
    before.is_none() || before == after
}

fn attempt_progress_kept(old: &RecoveryRecord, new: &RecoveryRecord) -> (b: bool)
    ensures
        b == snapshot_rules::attempt_progress_kept(*old, *new),
{
    proof {
        reveal(snapshot_rules::attempt_progress_kept);
    }
    kept(old.completion_intent, new.completion_intent) && kept(
        old.completion_preparation_attempt,
        new.completion_preparation_attempt,
    ) && kept(old.completion_preparation, new.completion_preparation) && kept(
        old.completion_resolution_attempt,
        new.completion_resolution_attempt,
    ) && kept(old.completion_terminal, new.completion_terminal)
}

fn progress_kept(old: &RecoveryRecord, new: &RecoveryRecord, advanced: bool) -> (b: bool)
    ensures
        b == snapshot_rules::progress_kept(*old, *new, advanced),
{
    proof {
        reveal(snapshot_rules::progress_kept);
    }
    kept(old.materialization_intent, new.materialization_intent) && (advanced
        || attempt_progress_kept(old, new)) && kept(old.issuer_preparation, new.issuer_preparation)
        && kept(old.initialization, new.initialization) && kept(old.completion, new.completion)
        && kept(old.retirement, new.retirement) && kept(old.source_fence, new.source_fence)
        && kept(old.activation, new.activation) && kept(
        old.route_publication,
        new.route_publication,
    ) && kept(old.target_stop, new.target_stop)
}

fn moved_on(
    previous: &State,
    incoming: &State,
    old: &RecoveryRecord,
    new: &RecoveryRecord,
    from: Option<u128>,
    to: Option<u128>,
    removed: &'static str,
    regressed: &'static str,
) -> (r: Result<(), Error>)
    ensures
        r == snapshot_rules::moved_on(
            previous@,
            incoming@,
            *old,
            *new,
            from,
            to,
            removed,
            regressed,
        ),
{
    proof {
        reveal(snapshot_rules::moved_on);
    }
    let from: u128 = match from {
        None => return Ok(()),
        Some(from) => from,
    };
    let to: u128 = match to {
        None => return Err(conflict(removed)),
        Some(to) => to,
    };
    let later = phase(incoming, new, to)?;
    let earlier = phase(previous, old, from)?;
    if later.sequence < earlier.sequence {
        return Err(conflict(regressed));
    }
    Ok(())
}

fn archive_kept(old: &RecoveryRecord, archived: &CompletionHistory) -> (b: bool)
    ensures
        b == snapshot_rules::archive_kept(*old, *archived),
{
    proof {
        reveal(snapshot_rules::archive_kept);
    }
    kept(old.completion_preparation_attempt, Some(archived.preparation_attempt)) && kept(
        old.completion_preparation,
        Some(archived.preparation),
    ) && kept(old.completion_resolution_attempt, Some(archived.resolution_attempt)) && kept(
        old.completion_terminal,
        Some(archived.terminal),
    )
}

fn continues(
    incoming: &State,
    old: &RecoveryRecord,
    new: &RecoveryRecord,
    next: u128,
    archived: &CompletionHistory,
) -> (r: Result<(), Error>)
    ensures
        r == snapshot_rules::continues(incoming@, *old, *new, next, *archived),
{
    proof {
        reveal(snapshot_rules::continues);
    }
    if archived.operation_id != old.request.operation_id || Some(archived.scope) != scope(old) {
        return Err(
            conflict("snapshot completion continuation is not the original sealed chain"),
        );
    }
    let current = phase(incoming, new, next)?;
    let successor = phase(incoming, new, archived.successor_intent)?;
    if current.sequence < successor.sequence {
        return Err(
            conflict("snapshot completion continuation is not the original sealed chain"),
        );
    }
    Ok(())
}

fn rotated(
    previous: &State,
    incoming: &State,
    old: &RecoveryRecord,
    new: &RecoveryRecord,
    original: u128,
) -> (r: Result<(), Error>)
    ensures
        r == snapshot_rules::rotated(previous@, incoming@, *old, *new, original),
{
    proof {
        reveal(snapshot_rules::rotated);
    }
    let next: u128 = match new.completion_intent {
        None => return Err(conflict("snapshot removed current completion intent")),
        Some(next) => next,
    };
    let archived = match incoming.recovery.completion_history.get(original) {
        None => return Err(conflict("snapshot replaced completion without its sealed history")),
        Some(archived) => archived,
    };
    continues(incoming, old, new, next, &archived)?;
    if !archive_kept(old, &archived) {
        return Err(conflict("snapshot altered closed original completion progress"));
    }
    moved_on(
        previous,
        incoming,
        old,
        new,
        old.completion_attempt,
        archived.attempted_completion,
        "snapshot erased original Complete dispatch",
        "snapshot regressed archived original Complete dispatch",
    )
}

fn born_as_scoped(incoming: &State, new: &RecoveryRecord) -> (r: Result<(), Error>)
    ensures
        r == snapshot_rules::born_as_scoped(incoming@, *new),
{
    proof {
        reveal(snapshot_rules::born_as_scoped);
    }
    match new.completion_intent {
        None => Ok(()),
        Some(id) => {
            let born = phase(incoming, new, id)?;
            if born.completion_scope != scope(new) {
                return Err(
                    conflict("snapshot current completion scope differs from its committed birth"),
                );
            }
            Ok(())
        },
    }
}

/// Historical cursors are immutable. A later snapshot may rotate the active
/// cursor only after retaining this exact original's positively sealed closure.
pub fn cursor_advanced(
    previous: &State,
    incoming: &State,
    old: &RecoveryRecord,
    new: &RecoveryRecord,
) -> (r: Result<bool, Error>)
    ensures
        r == snapshot_rules::cursor_advanced(previous@, incoming@, *old, *new),
{
    proof {
        reveal(snapshot_rules::cursor_advanced);
    }
    born_as_scoped(incoming, new)?;
    if old.completion_intent == new.completion_intent {
        if old.completion_predecessor != new.completion_predecessor {
            return Err(conflict("snapshot substituted original completion predecessor"));
        }
        return Ok(false);
    }
    match old.completion_intent {
        None => Ok(false),
        Some(original) => {
            rotated(previous, incoming, old, new, original)?;
            Ok(true)
        },
    }
}

fn started_kept(previous: &State, incoming: &State, from: Option<u128>, to: Option<u128>) -> (r:
    Result<(), Error>)
    ensures
        r == snapshot_rules::started_kept(previous@, incoming@, from, to),
{
    proof {
        reveal(snapshot_rules::started_kept);
    }
    let from: u128 = match from {
        None => return Ok(()),
        Some(from) => from,
    };
    let to: u128 = match to {
        None => return Err(conflict("snapshot removed target startup progress")),
        Some(to) => to,
    };
    let earlier = match previous.recovery.phases.get(from) {
        None => return Err(conflict("old startup phase absent")),
        Some(earlier) => earlier,
    };
    let later = match incoming.recovery.phases.get(to) {
        None => return Err(conflict("new startup phase absent")),
        Some(later) => later,
    };
    if later.sequence < earlier.sequence {
        return Err(conflict("snapshot regressed target startup progress"));
    }
    Ok(())
}

fn voter_kept(previous: &State, incoming: &State, old: &Voter, new: &Voters) -> (r: Result<(), Error>)
    ensures
        r == snapshot_rules::voter_kept(previous@, incoming@, *old, *new),
{
    proof {
        reveal(snapshot_rules::voter_kept);
    }
    let now = match voter(new, old.node_id) {
        None => return Err(conflict("snapshot removed recovery voter")),
        Some(now) => now,
    };
    started_kept(previous, incoming, old.started, now.started)?;
    if kept(old.materialization, now.materialization) && kept(old.confirmation, now.confirmation)
        && kept(old.cleanup, now.cleanup) {
        Ok(())
    } else {
        Err(conflict("snapshot substituted recovery voter progress"))
    }
}

fn voters_kept(previous: &State, incoming: &State, old: &Voters, new: &Voters) -> (r: Result<
    (),
    Error,
>)
    ensures
        r == snapshot_rules::voters_kept(previous@, incoming@, *old, *new),
{
    proof {
        reveal(snapshot_rules::voters_kept);
    }
    voter_kept(previous, incoming, &old.first, new)?;
    voter_kept(previous, incoming, &old.second, new)?;
    voter_kept(previous, incoming, &old.third, new)
}

fn attempts_kept(
    previous: &State,
    incoming: &State,
    old: &RecoveryRecord,
    new: &RecoveryRecord,
    advanced: bool,
) -> (r: Result<(), Error>)
    ensures
        r == snapshot_rules::attempts_kept(previous@, incoming@, *old, *new, advanced),
{
    proof {
        reveal(snapshot_rules::attempts_kept);
    }
    if !advanced {
        moved_on(
            previous,
            incoming,
            old,
            new,
            old.completion_attempt,
            new.completion_attempt,
            "snapshot removed original completion attempt",
            "snapshot regressed original completion attempt",
        )?;
    }
    moved_on(
        previous,
        incoming,
        old,
        new,
        old.activation_attempt,
        new.activation_attempt,
        "snapshot removed original activation attempt",
        "snapshot regressed original activation attempt",
    )
}

fn head_kept(previous: &State, incoming: &State, old: &RecoveryRecord, new: &RecoveryRecord) -> (r:
    Result<(), Error>)
    ensures
        r == snapshot_rules::head_kept(previous@, incoming@, *old, *new),
{
    proof {
        reveal(snapshot_rules::head_kept);
    }
    if !identity_kept(old, new) {
        return Err(conflict("snapshot substituted recovery operation identity"));
    }
    let advanced: bool = cursor_advanced(previous, incoming, old, new)?;
    attempts_kept(previous, incoming, old, new, advanced)?;
    if !progress_kept(old, new, advanced) {
        return Err(conflict("snapshot substituted immutable recovery progress"));
    }
    voters_kept(previous, incoming, &old.voters, &new.voters)
}

fn operation_kept(previous: &State, incoming: &State, key: u128, old: &RecoveryRecord) -> (r: Result<
    (),
    Error,
>)
    ensures
        r == snapshot_rules::operation_kept(previous@, incoming@, key, *old),
{
    proof {
        reveal(snapshot_rules::operation_kept);
    }
    match incoming.recovery.operations.get(key) {
        None => Err(conflict("snapshot removed permanent recovery operation")),
        Some(new) => head_kept(previous, incoming, old, &new),
    }
}

fn phase_same(old: &PhaseRecord, new: &PhaseRecord) -> (b: bool)
    ensures
        b == snapshot_rules::phase_same(*old, *new),
{
    proof {
        reveal(snapshot_rules::phase_same);
    }
    let comparison = PhaseRecord {
        outcome: old.outcome,
        resolved_revision: old.resolved_revision,
        ..*new
    };
    *old == comparison && (old.outcome.is_none() || new.outcome == old.outcome) && (
    old.resolved_revision.is_none() || new.resolved_revision == old.resolved_revision)
}

fn phase_kept(incoming: &State, key: u128, old: &PhaseRecord) -> (r: Result<(), Error>)
    ensures
        r == snapshot_rules::phase_kept(incoming@, key, *old),
{
    proof {
        reveal(snapshot_rules::phase_kept);
    }
    match incoming.recovery.phases.get(key) {
        None => Err(conflict("snapshot removed permanent recovery phase")),
        Some(new) => if phase_same(old, &new) {
            Ok(())
        } else {
            Err(conflict("snapshot substituted permanent recovery phase input or outcome"))
        },
    }
}

fn target_kept(incoming: &State, key: u128, operation: u128) -> (r: Result<(), Error>)
    ensures
        r == snapshot_rules::target_kept(incoming@, key, operation),
{
    proof {
        reveal(snapshot_rules::target_kept);
    }
    if incoming.recovery.targets.get(key) == Some(operation) {
        Ok(())
    } else {
        Err(conflict("snapshot removed a permanent target recovery binding"))
    }
}

fn history_kept(incoming: &State, key: u128, old: &CompletionHistory) -> (r: Result<(), Error>)
    ensures
        r == snapshot_rules::history_kept(incoming@, key, *old),
{
    proof {
        reveal(snapshot_rules::history_kept);
    }
    if incoming.recovery.completion_history.get(key) == Some(*old) {
        Ok(())
    } else {
        Err(conflict("snapshot removed or changed immutable closed completion history"))
    }
}

/// Whether every closed attempt is still what it was.
pub fn history_unchanged(previous: &State, incoming: &State) -> (r: Result<(), Error>)
    ensures
        r == snapshot_rules::histories_kept(previous@, incoming@),
{
    let ghost check = |key: u128, old: CompletionHistory| snapshot_rules::history_kept(incoming@, key, old);
    let rows: usize = previous.recovery.completion_history.len();
    let mut i: usize = 0;
    while i < rows
        invariant
            i <= rows,
            rows == previous.recovery.completion_history.rows().len(),
            table::ascending(previous.recovery.completion_history.rows()),
            table::covers(previous.recovery.completion_history.rows(), previous.recovery.completion_history@),
            check == (|key: u128, old: CompletionHistory| snapshot_rules::history_kept(incoming@, key, old)),
            table::passed(previous.recovery.completion_history.rows(), previous.recovery.completion_history@, check, i as int),
        decreases rows - i,
    {
        let (key, old) = previous.recovery.completion_history.row(i);
        match history_kept(incoming, key, &old) {
            Err(e) => {
                proof {
                    table::lemma_refused(previous.recovery.completion_history.rows(), previous.recovery.completion_history@, check, i as int);
                }
                return Err(e);
            },
            Ok(()) => {},
        }
        i = i + 1;
    }
    proof {
        table::lemma_passed(previous.recovery.completion_history.rows(), previous.recovery.completion_history@, check);
    }
    Ok(())
}

fn targets_kept(previous: &State, incoming: &State) -> (r: Result<(), Error>)
    ensures
        r == snapshot_rules::targets_kept(previous@, incoming@),
{
    let ghost check = |key: u128, operation: u128| snapshot_rules::target_kept(incoming@, key, operation);
    let rows: usize = previous.recovery.targets.len();
    let mut i: usize = 0;
    while i < rows
        invariant
            i <= rows,
            rows == previous.recovery.targets.rows().len(),
            table::ascending(previous.recovery.targets.rows()),
            table::covers(previous.recovery.targets.rows(), previous.recovery.targets@),
            check == (|key: u128, operation: u128| snapshot_rules::target_kept(incoming@, key, operation)),
            table::passed(previous.recovery.targets.rows(), previous.recovery.targets@, check, i as int),
        decreases rows - i,
    {
        let (key, operation) = previous.recovery.targets.row(i);
        match target_kept(incoming, key, operation) {
            Err(e) => {
                proof {
                    table::lemma_refused(previous.recovery.targets.rows(), previous.recovery.targets@, check, i as int);
                }
                return Err(e);
            },
            Ok(()) => {},
        }
        i = i + 1;
    }
    proof {
        table::lemma_passed(previous.recovery.targets.rows(), previous.recovery.targets@, check);
    }
    Ok(())
}

fn operations_kept(previous: &State, incoming: &State) -> (r: Result<(), Error>)
    ensures
        r == snapshot_rules::operations_kept(previous@, incoming@),
{
    let ghost check = |key: u128, old: RecoveryRecord| snapshot_rules::operation_kept(previous@, incoming@, key, old);
    let rows: usize = previous.recovery.operations.len();
    let mut i: usize = 0;
    while i < rows
        invariant
            i <= rows,
            rows == previous.recovery.operations.rows().len(),
            table::ascending(previous.recovery.operations.rows()),
            table::covers(previous.recovery.operations.rows(), previous.recovery.operations@),
            check == (|key: u128, old: RecoveryRecord| snapshot_rules::operation_kept(previous@, incoming@, key, old)),
            table::passed(previous.recovery.operations.rows(), previous.recovery.operations@, check, i as int),
        decreases rows - i,
    {
        let (key, old) = previous.recovery.operations.row(i);
        match operation_kept(previous, incoming, key, &old) {
            Err(e) => {
                proof {
                    table::lemma_refused(previous.recovery.operations.rows(), previous.recovery.operations@, check, i as int);
                }
                return Err(e);
            },
            Ok(()) => {},
        }
        i = i + 1;
    }
    proof {
        table::lemma_passed(previous.recovery.operations.rows(), previous.recovery.operations@, check);
    }
    Ok(())
}

fn phases_kept(previous: &State, incoming: &State) -> (r: Result<(), Error>)
    ensures
        r == snapshot_rules::phases_kept(previous@, incoming@),
{
    let ghost check = |key: u128, old: PhaseRecord| snapshot_rules::phase_kept(incoming@, key, old);
    let rows: usize = previous.recovery.phases.len();
    let mut i: usize = 0;
    while i < rows
        invariant
            i <= rows,
            rows == previous.recovery.phases.rows().len(),
            table::ascending(previous.recovery.phases.rows()),
            table::covers(previous.recovery.phases.rows(), previous.recovery.phases@),
            check == (|key: u128, old: PhaseRecord| snapshot_rules::phase_kept(incoming@, key, old)),
            table::passed(previous.recovery.phases.rows(), previous.recovery.phases@, check, i as int),
        decreases rows - i,
    {
        let (key, old) = previous.recovery.phases.row(i);
        match phase_kept(incoming, key, &old) {
            Err(e) => {
                proof {
                    table::lemma_refused(previous.recovery.phases.rows(), previous.recovery.phases@, check, i as int);
                }
                return Err(e);
            },
            Ok(()) => {},
        }
        i = i + 1;
    }
    proof {
        table::lemma_passed(previous.recovery.phases.rows(), previous.recovery.phases@, check);
    }
    Ok(())
}

/// Whether the incoming journal keeps all that is permanent in the previous one.
pub fn validate_successor(previous: &State, incoming: &State) -> (r: Result<(), Error>)
    ensures
        r == snapshot_rules::successor(previous@, incoming@),
{
    proof {
        reveal(snapshot_rules::successor);
    }
    targets_kept(previous, incoming)?;
    history_unchanged(previous, incoming)?;
    operations_kept(previous, incoming)?;
    phases_kept(previous, incoming)
}

} // verus!
