//! The closed history of lifecycle Control stays closed: what every accepted command
//! leaves is what a restored state is held to.
use vstd::prelude::*;

use crate::errors::Error;
use crate::first_refusal;
use crate::lifecycle_model::{LifecycleAdmission, LifecycleCommandView};
use crate::lifecycle_rules;
use crate::lifecycle_rules::{Place, Tally};
use crate::model::{LifecycleIntent, PolicyChange};
use crate::views::{LifecycleView, StateView};

verus! {

// ---------------------------------------------------------------------
// The order of the changes
// ---------------------------------------------------------------------

/// The changes behind the bound.
pub open spec fn behind_set(changes: Map<u128, PolicyChange>, bound: Option<Place>) -> Set<u128> {
    changes.dom().filter(|id: u128| lifecycle_rules::behind(changes, bound, id))
}

/// Among finitely many changes one stands first.
proof fn lemma_first(changes: Map<u128, PolicyChange>, ids: Set<u128>) -> (first: u128)
    requires
        ids.finite(),
        ids.len() > 0,
    ensures
        ids.contains(first),
        forall|other: u128| #[trigger]
            ids.contains(other) && other != first ==> lifecycle_rules::before(
                lifecycle_rules::place(changes, first),
                lifecycle_rules::place(changes, other),
            ),
    decreases ids.len(),
{
    let one = ids.choose();
    assert(ids.contains(one)) by {
        if !ids.contains(one) {
            ids.lemma_len0_is_empty();
            assert(ids =~= Set::empty());
        }
    }
    let rest = ids.remove(one);
    if rest.len() == 0 {
        rest.lemma_len0_is_empty();
        assert forall|other: u128| #[trigger]
            ids.contains(other) && other != one implies lifecycle_rules::before(
            lifecycle_rules::place(changes, one),
            lifecycle_rules::place(changes, other),
        ) by {
            assert(rest.contains(other));
        }
        one
    } else {
        let least = lemma_first(changes, rest);
        let first = if lifecycle_rules::before(
            lifecycle_rules::place(changes, one),
            lifecycle_rules::place(changes, least),
        ) {
            one
        } else {
            least
        };
        assert forall|other: u128| #[trigger]
            ids.contains(other) && other != first implies lifecycle_rules::before(
            lifecycle_rules::place(changes, first),
            lifecycle_rules::place(changes, other),
        ) by {
            if other != one {
                assert(rest.contains(other));
            }
            assert(rest.contains(least));
        }
        first
    }
}

/// There is one next change at most.
proof fn lemma_next_is(changes: Map<u128, PolicyChange>, bound: Option<Place>, id: u128)
    requires
        lifecycle_rules::is_next(changes, bound, id),
    ensures
        lifecycle_rules::next_change(changes, bound) == Some(id),
{
    let found = choose|found: u128| lifecycle_rules::is_next(changes, bound, found);
    assert(lifecycle_rules::is_next(changes, bound, found));
    if found != id {
        assert(lifecycle_rules::behind(changes, bound, found));
        assert(lifecycle_rules::behind(changes, bound, id));
    }
}

/// While changes stand behind the bound, one is next, and the others stand behind it.
proof fn lemma_step(changes: Map<u128, PolicyChange>, bound: Option<Place>) -> (id: u128)
    requires
        behind_set(changes, bound).finite(),
        behind_set(changes, bound).len() > 0,
    ensures
        lifecycle_rules::is_next(changes, bound, id),
        lifecycle_rules::next_change(changes, bound) == Some(id),
        behind_set(changes, Some(lifecycle_rules::place(changes, id))) == behind_set(
            changes,
            bound,
        ).remove(id),
{
    let ids = behind_set(changes, bound);
    let id = lemma_first(changes, ids);
    assert(lifecycle_rules::is_next(changes, bound, id)) by {
        assert forall|other: u128| #[trigger]
            lifecycle_rules::behind(changes, bound, other) && other
                != id implies lifecycle_rules::before(
            lifecycle_rules::place(changes, id),
            lifecycle_rules::place(changes, other),
        ) by {
            assert(ids.contains(other));
        }
    }
    lemma_next_is(changes, bound, id);
    let after = behind_set(changes, Some(lifecycle_rules::place(changes, id)));
    assert forall|x: u128| after.contains(x) <==> ids.remove(id).contains(x) by {
        if after.contains(x) {
            assert(lifecycle_rules::behind(changes, bound, id));
            assert(lifecycle_rules::behind(changes, bound, x));
        }
        if ids.contains(x) && x != id {
            assert(lifecycle_rules::behind(changes, bound, x));
        }
    }
    assert(after =~= ids.remove(id));
    id
}

/// Where nothing stands behind the bound, nothing is next.
proof fn lemma_end(changes: Map<u128, PolicyChange>, bound: Option<Place>)
    requires
        behind_set(changes, bound).finite(),
        behind_set(changes, bound).len() == 0,
    ensures
        forall|id: u128| !#[trigger] lifecycle_rules::behind(changes, bound, id),
        lifecycle_rules::next_change(changes, bound) is None,
{
    let ids = behind_set(changes, bound);
    ids.lemma_len0_is_empty();
    assert forall|id: u128| !#[trigger] lifecycle_rules::behind(changes, bound, id) by {
        assert(!ids.contains(id));
    }
}

// ---------------------------------------------------------------------
// What a tally tells of the changes
// ---------------------------------------------------------------------

/// What a change has come to in a tally.
pub open spec fn tallied(s: StateView, change: PolicyChange, id: u128, t: Tally) -> bool {
    &&& change.accepted_revision <= s.revision
    &&& match change.completed_revision {
        Some(revision) => revision <= s.revision && change.request.expected_policy_epoch < t.epoch,
        None => t.pending == Some(id),
    }
}

/// Every change is told of in the tally behind it, which ends with the only one that
/// may be pending.
proof fn lemma_tallied(
    s: StateView,
    control: LifecycleView,
    bound: Option<Place>,
    t: Tally,
    n: nat,
)
    requires
        behind_set(control.changes, bound).finite(),
        behind_set(control.changes, bound).len() == n,
        lifecycle_rules::tally(s, control, bound, t, n) is Ok,
        t.previous <= s.revision,
    ensures
        ({
            let all = lifecycle_rules::tally(s, control, bound, t, n)->Ok_0;
            &&& t.epoch <= all.epoch
            &&& all.previous <= s.revision
            &&& forall|id: u128| #[trigger]
                lifecycle_rules::behind(control.changes, bound, id) ==> tallied(
                    s,
                    control.changes[id],
                    id,
                    all,
                )
            &&& t.pending is Some ==> n == 0
        }),
    decreases n,
{
    reveal(lifecycle_rules::tally_change);
    reveal(lifecycle_rules::tally_completed);
    reveal(lifecycle_rules::continuous);
    let changes = control.changes;
    if n == 0 {
        lemma_end(changes, bound);
    } else {
        let next = lemma_step(changes, bound);
        let place = lifecycle_rules::place(changes, next);
        let one = lifecycle_rules::tally_change(s, control, next, changes[next], t)->Ok_0;
        lemma_tallied(s, control, Some(place), one, (n - 1) as nat);
        let all = lifecycle_rules::tally(s, control, bound, t, n)->Ok_0;
        assert(all == lifecycle_rules::tally(s, control, Some(place), one, (n - 1) as nat)->Ok_0);
        if one.pending is Some {
            assert(n - 1 == 0);
            lemma_end(changes, Some(place));
            assert(all == one);
        }
        assert forall|id: u128| #[trigger] lifecycle_rules::behind(changes, bound, id) implies tallied(
            s,
            changes[id],
            id,
            all,
        ) by {
            if id != next {
                assert(lifecycle_rules::behind(changes, Some(place), id));
            }
        }
    }
}

/// Whether the second Control state is of the same installation at a later revision.
pub open spec fn later(s: StateView, control: LifecycleView, next: StateView, grown: LifecycleView) -> bool {
    &&& s.revision <= next.revision
    &&& grown.installation == control.installation
    &&& grown.installation_command_id == control.installation_command_id
}

/// Whether the second changes hold the first ones, and besides only what was accepted
/// behind the revision.
pub open spec fn extends(
    changes: Map<u128, PolicyChange>,
    grown: Map<u128, PolicyChange>,
    revision: u64,
) -> bool {
    &&& forall|id: u128| #[trigger]
        changes.dom().contains(id) ==> grown.dom().contains(id) && grown[id] == changes[id]
    &&& forall|id: u128| #[trigger]
        grown.dom().contains(id) && !changes.dom().contains(id) ==> grown[id].accepted_revision
            > revision
}

/// A change that was tallied is tallied alike at a later revision.
proof fn lemma_same_step(
    s: StateView,
    control: LifecycleView,
    next: StateView,
    grown: LifecycleView,
    id: u128,
    change: PolicyChange,
    t: Tally,
)
    requires
        later(s, control, next, grown),
        lifecycle_rules::tally_change(s, control, id, change, t) is Ok,
    ensures
        lifecycle_rules::tally_change(next, grown, id, change, t) == lifecycle_rules::tally_change(
            s,
            control,
            id,
            change,
            t,
        ),
{
    reveal(lifecycle_rules::tally_change);
    reveal(lifecycle_rules::tally_completed);
    reveal(lifecycle_rules::continuous);
}

/// What was tallied is tallied alike in a longer history, and what is new follows.
proof fn lemma_prefix(
    s: StateView,
    control: LifecycleView,
    next: StateView,
    grown: LifecycleView,
    bound: Option<Place>,
    t: Tally,
    n: nat,
    more: nat,
) -> (end: Option<Place>)
    requires
        later(s, control, next, grown),
        extends(control.changes, grown.changes, s.revision),
        behind_set(control.changes, bound).finite(),
        behind_set(control.changes, bound).len() == n,
        lifecycle_rules::tally(s, control, bound, t, n) is Ok,
        t.previous <= s.revision,
        bound matches Some(place) ==> place.revision <= s.revision,
    ensures
        lifecycle_rules::tally(next, grown, bound, t, n + more) == lifecycle_rules::tally(
            next,
            grown,
            end,
            lifecycle_rules::tally(s, control, bound, t, n)->Ok_0,
            more,
        ),
        end matches Some(place) ==> place.revision <= s.revision,
        forall|id: u128| !#[trigger] lifecycle_rules::behind(control.changes, end, id),
    decreases n,
{
    let changes = control.changes;
    if n == 0 {
        lemma_end(changes, bound);
        bound
    } else {
        let id = lemma_step(changes, bound);
        let place = lifecycle_rules::place(changes, id);
        let one = lifecycle_rules::tally_change(s, control, id, changes[id], t)->Ok_0;
        lemma_tallied(s, control, bound, t, n);
        assert(tallied(s, changes[id], id, lifecycle_rules::tally(s, control, bound, t, n)->Ok_0)) by {
            assert(lifecycle_rules::behind(changes, bound, id));
        }
        assert(lifecycle_rules::is_next(grown.changes, bound, id)) by {
            assert(changes.dom().contains(id));
            assert forall|other: u128| #[trigger]
                lifecycle_rules::behind(grown.changes, bound, other) && other
                    != id implies lifecycle_rules::before(
                lifecycle_rules::place(grown.changes, id),
                lifecycle_rules::place(grown.changes, other),
            ) by {
                if changes.dom().contains(other) {
                    assert(lifecycle_rules::behind(changes, bound, other));
                }
            }
        }
        lemma_next_is(grown.changes, bound, id);
        lemma_same_step(s, control, next, grown, id, changes[id], t);
        assert(lifecycle_rules::place(grown.changes, id) == place);
        assert(one.previous <= s.revision) by {
            reveal(lifecycle_rules::tally_change);
            reveal(lifecycle_rules::tally_completed);
            reveal(lifecycle_rules::continuous);
        }
        let end = lemma_prefix(
            s,
            control,
            next,
            grown,
            Some(place),
            one,
            (n - 1) as nat,
            more,
        );
        assert((n + more - 1) as nat == (n - 1) as nat + more);
        end
    }
}

/// The changes behind no bound are all of them.
proof fn lemma_all(changes: Map<u128, PolicyChange>)
    requires
        changes.dom().finite(),
    ensures
        behind_set(changes, None) == changes.dom(),
{
    assert(behind_set(changes, None) =~= changes.dom());
}

/// The history without a new change comes to the same.
proof fn lemma_same_tally(s: StateView, control: LifecycleView, next: StateView, grown: LifecycleView)
    requires
        later(s, control, next, grown),
        grown.changes == control.changes,
        grown.installation_revision == control.installation_revision,
        grown.installation_policy_epoch == control.installation_policy_epoch,
        grown.installation_policy == control.installation_policy,
        control.changes.dom().finite(),
        control.installation_revision <= s.revision,
        lifecycle_rules::whole_tally(s, control) is Ok,
    ensures
        lifecycle_rules::whole_tally(next, grown) == lifecycle_rules::whole_tally(s, control),
{
    lemma_all(control.changes);
    let t = lifecycle_rules::start_tally(control);
    lemma_prefix(s, control, next, grown, None, t, control.changes.dom().len(), 0);
}

/// A pending change that is completed brings the history to the state behind it.
proof fn lemma_completed(
    s: StateView,
    control: LifecycleView,
    next: StateView,
    grown: LifecycleView,
    pending: u128,
    bound: Option<Place>,
    t: Tally,
    n: nat,
)
    requires
        later(s, control, next, grown),
        control.changes.dom().contains(pending),
        grown.changes == control.changes.insert(pending, grown.changes[pending]),
        grown.changes[pending] == (PolicyChange {
            completed_revision: grown.changes[pending].completed_revision,
            completion_stops: grown.changes[pending].completion_stops,
            ..control.changes[pending]
        }),
        grown.changes[pending].completed_revision == Some(next.revision),
        grown.changes[pending].completion_stops is Some,
        grown.changes[pending].completion_stops->0.authentic,
        s.revision < next.revision,
        behind_set(control.changes, bound).finite(),
        behind_set(control.changes, bound).len() == n,
        lifecycle_rules::tally(s, control, bound, t, n) is Ok,
        lifecycle_rules::tally(s, control, bound, t, n)->Ok_0.pending == Some(pending),
        lifecycle_rules::tally(s, control, bound, t, n)->Ok_0.epoch < u64::MAX,
        t.pending is None,
        t.previous <= s.revision,
    ensures
        lifecycle_rules::tally(next, grown, bound, t, n) == Ok::<Tally, Error>(
            Tally {
                epoch: (lifecycle_rules::tally(s, control, bound, t, n)->Ok_0.epoch + 1) as u64,
                policy: control.changes[pending].request.candidate_policy,
                previous: next.revision,
                pending: None,
                retired: control.changes[pending].request.retire_control,
            },
        ),
    decreases n,
{
    reveal(lifecycle_rules::tally_change);
    reveal(lifecycle_rules::tally_completed);
    reveal(lifecycle_rules::continuous);
    let changes = control.changes;
    if n > 0 {
        let id = lemma_step(changes, bound);
        let place = lifecycle_rules::place(changes, id);
        let one = lifecycle_rules::tally_change(s, control, id, changes[id], t)->Ok_0;
        lemma_tallied(s, control, Some(place), one, (n - 1) as nat);
        assert(lifecycle_rules::is_next(grown.changes, bound, id)) by {
            assert forall|other: u128| #[trigger]
                lifecycle_rules::behind(grown.changes, bound, other) && other
                    != id implies lifecycle_rules::before(
                lifecycle_rules::place(grown.changes, id),
                lifecycle_rules::place(grown.changes, other),
            ) by {
                assert(lifecycle_rules::behind(changes, bound, other));
            }
        }
        lemma_next_is(grown.changes, bound, id);
        assert(lifecycle_rules::place(grown.changes, id) == place);
        if one.pending is Some {
            assert(n - 1 == 0);
            assert(id == pending);
            let done = lifecycle_rules::tally_change(next, grown, id, grown.changes[id], t)->Ok_0;
            assert(lifecycle_rules::tally(next, grown, Some(place), done, 0) == Ok::<Tally, Error>(
                done,
            ));
        } else {
            assert(id != pending) by {
                if id == pending {
                    assert(tallied(
                        s,
                        changes[pending],
                        pending,
                        lifecycle_rules::tally(s, control, bound, t, n)->Ok_0,
                    )) by {
                        lemma_tallied(s, control, bound, t, n);
                        assert(lifecycle_rules::behind(changes, bound, id));
                    }
                    lemma_pending_open(s, control, Some(place), one, (n - 1) as nat, pending);
                }
            }
            lemma_same_step(s, control, next, grown, id, changes[id], t);
            lemma_completed(s, control, next, grown, pending, Some(place), one, (n - 1) as nat);
        }
    }
}

/// What a tally leaves pending is a change that it went through, and not completed.
proof fn lemma_pending_open(
    s: StateView,
    control: LifecycleView,
    bound: Option<Place>,
    t: Tally,
    n: nat,
    pending: u128,
)
    requires
        behind_set(control.changes, bound).finite(),
        behind_set(control.changes, bound).len() == n,
        lifecycle_rules::tally(s, control, bound, t, n) is Ok,
        lifecycle_rules::tally(s, control, bound, t, n)->Ok_0.pending == Some(pending),
        t.pending is None,
    ensures
        lifecycle_rules::behind(control.changes, bound, pending),
        control.changes[pending].completed_revision is None,
    decreases n,
{
    reveal(lifecycle_rules::tally_change);
    reveal(lifecycle_rules::tally_completed);
    reveal(lifecycle_rules::continuous);
    let changes = control.changes;
    if n > 0 {
        let id = lemma_step(changes, bound);
        let place = lifecycle_rules::place(changes, id);
        let one = lifecycle_rules::tally_change(s, control, id, changes[id], t)->Ok_0;
        if one.pending is Some {
            if n > 1 {
                let other = lemma_step(changes, Some(place));
            } else {
                lemma_end(changes, Some(place));
            }
        } else {
            lemma_pending_open(s, control, Some(place), one, (n - 1) as nat, pending);
            assert(lifecycle_rules::behind(changes, Some(place), pending));
            assert(behind_set(changes, Some(place)).contains(pending));
        }
    }
}

// ---------------------------------------------------------------------
// The intents
// ---------------------------------------------------------------------

/// An intent is outside of the changes where it is outside of each.
proof fn lemma_outside(control: LifecycleView, intent: LifecycleIntent)
    ensures
        lifecycle_rules::outside_changes(control, intent) is Ok <==> forall|id: u128|
            control.changes.dom().contains(id) ==> lifecycle_rules::outside_change(
                intent,
                #[trigger] control.changes[id],
            ) is Ok,
{
    let check = |id: u128, change: PolicyChange| lifecycle_rules::outside_change(intent, change);
    first_refusal::lemma_every(control.changes, check);
    if lifecycle_rules::outside_changes(control, intent) is Ok {
        assert forall|id: u128| control.changes.dom().contains(id) implies
            lifecycle_rules::outside_change(intent, #[trigger] control.changes[id]) is Ok by {
            assert(check(id, control.changes[id]) is Ok);
        }
    } else {
        let id = choose|id: u128|
            control.changes.dom().contains(id) && check(id, #[trigger] control.changes[id]) is Err;
        assert(lifecycle_rules::outside_change(intent, control.changes[id]) is Err);
    }
}

/// The intents are held to what each of them is.
proof fn lemma_intents(s: StateView, control: LifecycleView, epoch: u64)
    ensures
        lifecycle_rules::intents_checked(s, control, epoch) is Ok <==> forall|id: u128|
            control.intents.dom().contains(id) ==> lifecycle_rules::intent_checked(
                s,
                control,
                epoch,
                id,
                #[trigger] control.intents[id],
            ) is Ok,
{
    let check = |id: u128, intent: LifecycleIntent|
        lifecycle_rules::intent_checked(s, control, epoch, id, intent);
    first_refusal::lemma_every(control.intents, check);
    if lifecycle_rules::intents_checked(s, control, epoch) is Ok {
        assert forall|id: u128| control.intents.dom().contains(id) implies
            lifecycle_rules::intent_checked(s, control, epoch, id, #[trigger] control.intents[id])
            is Ok by {
            assert(check(id, control.intents[id]) is Ok);
        }
    } else {
        let id = choose|id: u128|
            control.intents.dom().contains(id) && check(id, #[trigger] control.intents[id]) is Err;
        assert(lifecycle_rules::intent_checked(s, control, epoch, id, control.intents[id]) is Err);
    }
}

/// An intent that held still holds in a later Control state that has all the intents
/// of the first, where the intent is outside of every change and its identity is of
/// none of them.
proof fn lemma_intent_kept(
    s: StateView,
    control: LifecycleView,
    next: StateView,
    grown: LifecycleView,
    epoch: u64,
    later_epoch: u64,
    id: u128,
)
    requires
        later(s, control, next, grown),
        grown.installation_revision == control.installation_revision,
        grown.installation_policy_epoch == control.installation_policy_epoch,
        epoch <= later_epoch,
        control.intents.dom().contains(id),
        lifecycle_rules::intent_checked(s, control, epoch, id, control.intents[id]) is Ok,
        forall|k: u128| #[trigger]
            control.intents.dom().contains(k) ==> grown.intents.dom().contains(k)
                && grown.intents[k] == control.intents[k],
        !grown.changes.dom().contains(id),
        forall|k: u128|
            grown.changes.dom().contains(k) ==> lifecycle_rules::outside_change(
                control.intents[id],
                #[trigger] grown.changes[k],
            ) is Ok,
    ensures
        lifecycle_rules::intent_checked(next, grown, later_epoch, id, control.intents[id]) is Ok,
{
    reveal(lifecycle_rules::intent_checked);
    reveal(lifecycle_rules::intent_identity);
    reveal(lifecycle_rules::resumed_later);
    reveal(lifecycle_rules::resumable);
    reveal(lifecycle_rules::retains_origin);
    lemma_outside(grown, control.intents[id]);
    if let Some(origin) = control.intents[id].request.resume_origin {
        assert(control.intents.dom().contains(origin.command_id));
    }
}

// ---------------------------------------------------------------------
// The commands
// ---------------------------------------------------------------------

/// Whether the tables of a Control state are finite, as those of every state are.
pub open spec fn finite(control: LifecycleView) -> bool {
    control.intents.dom().finite() && control.changes.dom().finite()
}

/// The state at a later revision, where a command changed nothing.
proof fn lemma_unchanged(s: StateView, control: LifecycleView, revision: u64, bytes: u64, size: u64)
    requires
        s.lifecycle == Some(control),
        finite(control),
        lifecycle_rules::closed(s, bytes) is Ok,
        s.revision <= revision,
        size <= control.installation.max_state_bytes,
    ensures
        lifecycle_rules::closed(StateView { revision, ..s }, size) is Ok,
{
    reveal(lifecycle_rules::closed);
    reveal(lifecycle_rules::bounded);
    reveal(lifecycle_rules::intent_checked);
    reveal(lifecycle_rules::intent_identity);
    let next = StateView { revision, ..s };
    let t = lifecycle_rules::whole_tally(s, control)->Ok_0;
    lemma_same_tally(s, control, next, control);
    lemma_intents(s, control, t.epoch);
    lemma_intents(next, control, t.epoch);
    assert forall|id: u128| control.intents.dom().contains(id) implies
        lifecycle_rules::intent_checked(next, control, t.epoch, id, #[trigger] control.intents[id])
        is Ok by {
        assert(lifecycle_rules::intent_checked(s, control, t.epoch, id, control.intents[id]) is Ok);
    }
}

/// A first installation is a closed history.
proof fn lemma_installed_closed(
    s: StateView,
    control: LifecycleView,
    command_id: u128,
    revision: u64,
    size: u64,
)
    requires
        s.tenant == crate::digest::name_of("__kasumi_control"@),
        control == lifecycle_rules::installed(s, command_id, control.installation, revision),
        control.installation.control_incarnation == s.incarnation,
        command_id != 0,
        revision > 0,
        !s.retired,
        !s.pending_restore,
        size <= control.installation.max_state_bytes,
    ensures
        lifecycle_rules::closed(
            StateView { revision, lifecycle: Some(control), ..s },
            size,
        ) is Ok,
{
    reveal(lifecycle_rules::closed);
    reveal(lifecycle_rules::bounded);
    let next = StateView { revision, lifecycle: Some(control), ..s };
    assert(control.changes.dom() =~= Set::empty());
    assert(control.intents.dom() =~= Set::empty());
    lemma_intents(next, control, s.policy_epoch);
}

/// A new intent keeps the history closed.
proof fn lemma_intent_closed(
    s: StateView,
    control: LifecycleView,
    a: LifecycleAdmission,
    request: crate::model::IntentRequest,
    revision: u64,
    bytes: u64,
    size: u64,
)
    requires
        s.lifecycle == Some(control),
        finite(control),
        lifecycle_rules::closed(s, bytes) is Ok,
        s.revision < revision,
        size <= control.installation.max_state_bytes,
        !control.intents.dom().contains(request.command_id),
        !control.retired,
        control.pending_change is None,
        lifecycle_rules::admit_intent(s, control, a, request, revision) is Ok,
    ensures
        ({
            let next = lifecycle_rules::admit_intent(s, control, a, request, revision)->Ok_0.0;
            lifecycle_rules::closed(StateView { revision, ..next }, size) is Ok
        }),
{
    reveal(lifecycle_rules::admit_intent);
    reveal(lifecycle_rules::issuable);
    reveal(lifecycle_rules::credential);
    reveal(lifecycle_rules::closed);
    reveal(lifecycle_rules::bounded);
    let admitted = lifecycle_rules::admit_intent(s, control, a, request, revision)->Ok_0.0;
    let next = StateView { revision, ..admitted };
    let grown = next.lifecycle->0;
    let new = grown.intents[request.command_id];
    let t = lifecycle_rules::whole_tally(s, control)->Ok_0;
    lemma_same_tally(s, control, next, grown);
    lemma_intents(s, control, t.epoch);
    lemma_all(control.changes);
    lemma_tallied(
        s,
        control,
        None,
        lifecycle_rules::start_tally(control),
        control.changes.dom().len(),
    );
    assert forall|id: u128| control.changes.dom().contains(id) implies
        lifecycle_rules::outside_change(new, #[trigger] control.changes[id]) is Ok by {
        reveal(lifecycle_rules::outside_change);
        assert(lifecycle_rules::behind(control.changes, None, id));
        assert(tallied(s, control.changes[id], id, t));
    }
    assert(lifecycle_rules::intent_checked(next, grown, t.epoch, request.command_id, new) is Ok) by {
        reveal(lifecycle_rules::intent_checked);
        reveal(lifecycle_rules::intent_identity);
        reveal(lifecycle_rules::resumed_later);
        reveal(lifecycle_rules::resumable);
        reveal(lifecycle_rules::retains_origin);
        lemma_outside(grown, new);
        if let Some(origin) = request.resume_origin {
            assert(control.intents.dom().contains(origin.command_id));
            let retained = control.intents[origin.command_id];
            assert(lifecycle_rules::intent_checked(
                s,
                control,
                t.epoch,
                origin.command_id,
                retained,
            ) is Ok);
            assert(grown.intents[origin.command_id] == retained);
        }
    }
    assert forall|id: u128| grown.intents.dom().contains(id) implies
        lifecycle_rules::intent_checked(next, grown, t.epoch, id, #[trigger] grown.intents[id])
        is Ok by {
        if id != request.command_id {
            assert(lifecycle_rules::intent_checked(s, control, t.epoch, id, control.intents[id])
                is Ok);
            lemma_outside(control, control.intents[id]);
            assert(lifecycle_rules::outside_changes(control, control.intents[id]) is Ok
                && !control.changes.dom().contains(id)) by {
                reveal(lifecycle_rules::intent_checked);
                reveal(lifecycle_rules::intent_identity);
            }
            lemma_intent_kept(s, control, next, grown, t.epoch, t.epoch, id);
        }
    }
    lemma_intents(next, grown, t.epoch);
}

/// A change that is begun keeps the history closed.
proof fn lemma_change_closed(
    s: StateView,
    control: LifecycleView,
    a: LifecycleAdmission,
    request: crate::model::ChangeRequest,
    revision: u64,
    bytes: u64,
    size: u64,
)
    requires
        s.lifecycle == Some(control),
        finite(control),
        lifecycle_rules::closed(s, bytes) is Ok,
        s.revision < revision,
        size <= control.installation.max_state_bytes,
        !control.changes.dom().contains(request.command_id),
        !control.retired,
        control.pending_change is None,
        lifecycle_rules::admit_change(s, control, a, request, revision) is Ok,
    ensures
        ({
            let next = lifecycle_rules::admit_change(s, control, a, request, revision)->Ok_0.0;
            lifecycle_rules::closed(StateView { revision, ..next }, size) is Ok
        }),
{
    reveal(lifecycle_rules::admit_change);
    reveal(lifecycle_rules::closed);
    reveal(lifecycle_rules::bounded);
    let admitted = lifecycle_rules::admit_change(s, control, a, request, revision)->Ok_0.0;
    let next = StateView { revision, ..admitted };
    let grown = next.lifecycle->0;
    let id = request.command_id;
    let n = control.changes.dom().len();
    let start = lifecycle_rules::start_tally(control);
    let t = lifecycle_rules::whole_tally(s, control)->Ok_0;
    lemma_all(control.changes);
    lemma_tallied(s, control, None, start, n);
    let end = lemma_prefix(s, control, next, grown, None, start, n, 1);
    assert(lifecycle_rules::is_next(grown.changes, end, id)) by {
        assert forall|other: u128| #[trigger]
            lifecycle_rules::behind(grown.changes, end, other) && other
                != id implies lifecycle_rules::before(
            lifecycle_rules::place(grown.changes, id),
            lifecycle_rules::place(grown.changes, other),
        ) by {
            assert(!lifecycle_rules::behind(control.changes, end, other));
        }
    }
    lemma_next_is(grown.changes, end, id);
    let after = Tally { pending: Some(id), previous: revision, ..t };
    assert(lifecycle_rules::tally_change(next, grown, id, grown.changes[id], t) == Ok::<
        Tally,
        Error,
    >(after)) by {
        reveal(lifecycle_rules::tally_change);
        reveal(lifecycle_rules::continuous);
    }
    assert(lifecycle_rules::tally(
        next,
        grown,
        Some(lifecycle_rules::place(grown.changes, id)),
        after,
        0,
    ) == Ok::<Tally, Error>(after));
    assert(lifecycle_rules::tally(next, grown, end, t, 1) == Ok::<Tally, Error>(after));
    assert(grown.changes.dom() =~= control.changes.dom().insert(id));
    assert(lifecycle_rules::whole_tally(next, grown) == Ok::<Tally, Error>(after));
    lemma_intents(s, control, t.epoch);
    assert forall|k: u128| grown.intents.dom().contains(k) implies
        lifecycle_rules::intent_checked(next, grown, t.epoch, k, #[trigger] grown.intents[k])
        is Ok by {
        let intent = control.intents[k];
        assert(lifecycle_rules::intent_checked(s, control, t.epoch, k, intent) is Ok);
        lemma_outside(control, intent);
        assert(lifecycle_rules::outside_changes(control, intent) is Ok
            && !control.changes.dom().contains(k) && intent.revision <= s.revision) by {
            reveal(lifecycle_rules::intent_checked);
            reveal(lifecycle_rules::intent_identity);
        }
        assert forall|other: u128| grown.changes.dom().contains(other) implies
            lifecycle_rules::outside_change(intent, #[trigger] grown.changes[other]) is Ok by {
            if other == id {
                reveal(lifecycle_rules::outside_change);
            } else {
                assert(lifecycle_rules::outside_change(intent, control.changes[other]) is Ok);
            }
        }
        lemma_intent_kept(s, control, next, grown, t.epoch, t.epoch, k);
    }
    lemma_intents(next, grown, t.epoch);
}

/// A change that is completed keeps the history closed.
proof fn lemma_completion_closed(
    s: StateView,
    control: LifecycleView,
    id: u128,
    stops: crate::model::EpochStops,
    revision: u64,
    bytes: u64,
    size: u64,
)
    requires
        s.lifecycle == Some(control),
        finite(control),
        lifecycle_rules::closed(s, bytes) is Ok,
        s.revision < revision,
        size <= control.installation.max_state_bytes,
        control.changes.dom().contains(id),
        control.changes[id].completed_revision is None,
        control.pending_change == Some(id),
        stops.authentic,
        s.policy_epoch < u64::MAX,
    ensures
        lifecycle_rules::closed(
            StateView {
                revision,
                ..lifecycle_rules::changed(
                    s,
                    control,
                    id,
                    control.changes[id],
                    (s.policy_epoch + 1) as u64,
                    stops,
                    revision,
                )
            },
            size,
        ) is Ok,
{
    reveal(lifecycle_rules::closed);
    reveal(lifecycle_rules::bounded);
    let epoch = (s.policy_epoch + 1) as u64;
    let changed = lifecycle_rules::changed(
        s,
        control,
        id,
        control.changes[id],
        epoch,
        stops,
        revision,
    );
    let next = StateView { revision, ..changed };
    let grown = next.lifecycle->0;
    let n = control.changes.dom().len();
    let start = lifecycle_rules::start_tally(control);
    let t = lifecycle_rules::whole_tally(s, control)->Ok_0;
    lemma_all(control.changes);
    assert(grown.changes =~= control.changes.insert(id, grown.changes[id]));
    lemma_completed(s, control, next, grown, id, None, start, n);
    assert(grown.changes.dom() =~= control.changes.dom());
    lemma_intents(s, control, t.epoch);
    assert forall|k: u128| grown.intents.dom().contains(k) implies
        lifecycle_rules::intent_checked(next, grown, epoch, k, #[trigger] grown.intents[k])
        is Ok by {
        let intent = control.intents[k];
        assert(lifecycle_rules::intent_checked(s, control, t.epoch, k, intent) is Ok);
        lemma_outside(control, intent);
        assert(lifecycle_rules::outside_changes(control, intent) is Ok
            && !control.changes.dom().contains(k) && intent.revision <= s.revision) by {
            reveal(lifecycle_rules::intent_checked);
            reveal(lifecycle_rules::intent_identity);
        }
        assert forall|other: u128| grown.changes.dom().contains(other) implies
            lifecycle_rules::outside_change(intent, #[trigger] grown.changes[other]) is Ok by {
            assert(lifecycle_rules::outside_change(intent, control.changes[other]) is Ok);
            reveal(lifecycle_rules::outside_change);
        }
        lemma_intent_kept(s, control, next, grown, t.epoch, epoch, k);
    }
    lemma_intents(next, grown, epoch);
}

/// A Control state that is held to its closed history, and takes an accepted command
/// at a new revision, is held to it again: what Control commits, a restored state is
/// accepted with. What the state is encoded in stays within its bound.
pub proof fn lemma_stays_closed(
    s: StateView,
    a: LifecycleAdmission,
    command: LifecycleCommandView,
    revision: u64,
    bytes: u64,
    size: u64,
)
    requires
        lifecycle_rules::closed(s, bytes) is Ok,
        lifecycle_rules::transition(s, a, command, revision) is Ok,
        s.revision < revision,
        !s.retired,
        !s.pending_restore,
        s.lifecycle matches Some(control) ==> finite(control),
        size <= lifecycle_rules::transition(
            s,
            a,
            command,
            revision,
        )->Ok_0.0.lifecycle->0.installation.max_state_bytes,
    ensures
        lifecycle_rules::closed(
            StateView {
                revision,
                ..lifecycle_rules::transition(s, a, command, revision)->Ok_0.0
            },
            size,
        ) is Ok,
{
    reveal(lifecycle_rules::transition);
    match command {
        LifecycleCommandView::Install { command_id, installation } => {
            reveal(lifecycle_rules::install);
            match s.lifecycle {
                Some(control) => lemma_unchanged(s, control, revision, bytes, size),
                None => lemma_installed_closed(
                    s,
                    lifecycle_rules::installed(s, command_id, installation, revision),
                    command_id,
                    revision,
                    size,
                ),
            }
        },
        LifecycleCommandView::CommitIntent(request) => {
            reveal(lifecycle_rules::commit_intent);
            let control = s.lifecycle->0;
            if control.intents.dom().contains(request.command_id) {
                lemma_unchanged(s, control, revision, bytes, size);
            } else {
                assert(lifecycle_rules::admit_intent(s, control, a, request, revision)->Ok_0.0
                    .lifecycle->0.installation == control.installation) by {
                    reveal(lifecycle_rules::admit_intent);
                }
                lemma_intent_closed(s, control, a, request, revision, bytes, size);
            }
        },
        LifecycleCommandView::BeginPolicyChange { request, policy_refusal } => {
            reveal(lifecycle_rules::begin_change);
            let control = s.lifecycle->0;
            if control.changes.dom().contains(request.command_id) {
                lemma_unchanged(s, control, revision, bytes, size);
            } else {
                assert(lifecycle_rules::admit_change(s, control, a, request, revision)->Ok_0.0
                    .lifecycle->0.installation == control.installation) by {
                    reveal(lifecycle_rules::admit_change);
                }
                lemma_change_closed(s, control, a, request, revision, bytes, size);
            }
        },
        LifecycleCommandView::CompletePolicyChange { command_id, change_sha256, stops } => {
            reveal(lifecycle_rules::complete_change);
            let control = s.lifecycle->0;
            if control.changes[command_id].completed_revision is Some {
                lemma_unchanged(s, control, revision, bytes, size);
            } else {
                lemma_completion_closed(s, control, command_id, stops, revision, bytes, size);
            }
        },
    }
}

} // verus!
