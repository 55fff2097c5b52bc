//! What holds of lifecycle Control across its commands: what is committed
//! stays, and a command that is told twice changes nothing the second time.
use vstd::prelude::*;

use crate::errors::Error;
use crate::lifecycle_model::{LifecycleAdmission, LifecycleCommandView};
use crate::lifecycle_rules;
use crate::model::{ChangeRequest, IntentRequest, PolicyChange};
use crate::views::{InstallationView, LifecycleView, StateView};

verus! {

/// Whether the second change is the first one, or the first one completed.
pub open spec fn same_change(before: PolicyChange, after: PolicyChange) -> bool {
    after == before || (before.completed_revision is None && after.completed_revision is Some
        && after == (PolicyChange {
        completed_revision: after.completed_revision,
        completion_stops: after.completion_stops,
        ..before
    }))
}

/// Whether the second Control state is of the same installation and holds all
/// that the first one does.
pub open spec fn retained(before: LifecycleView, after: LifecycleView) -> bool {
    &&& after.installation == before.installation
    &&& after.installation_command_id == before.installation_command_id
    &&& after.installation_revision == before.installation_revision
    &&& after.installation_policy_epoch == before.installation_policy_epoch
    &&& after.installation_policy == before.installation_policy
    &&& forall|k: u128| #[trigger]
        before.intents.dom().contains(k) ==> after.intents.dom().contains(k) && after.intents[k]
            == before.intents[k]
    &&& forall|k: u128| #[trigger]
        before.changes.dom().contains(k) ==> after.changes.dom().contains(k) && same_change(
            before.changes[k],
            after.changes[k],
        )
}

/// An accepted command neither changes the installation nor loses an intent or
/// a policy change, once Control is installed.
pub proof fn lemma_nothing_lost(
    s: StateView,
    a: LifecycleAdmission,
    command: LifecycleCommandView,
    revision: u64,
)
    requires
        s.lifecycle is Some,
        lifecycle_rules::transition(s, a, command, revision) is Ok,
    ensures
        ({
            let next = lifecycle_rules::transition(s, a, command, revision)->Ok_0.0;
            next.lifecycle is Some && retained(s.lifecycle->0, next.lifecycle->0)
        }),
{
    reveal(lifecycle_rules::transition);
    reveal(lifecycle_rules::install);
    reveal(lifecycle_rules::commit_intent);
    reveal(lifecycle_rules::admit_intent);
    reveal(lifecycle_rules::begin_change);
    reveal(lifecycle_rules::admit_change);
    reveal(lifecycle_rules::complete_change);
}

/// Nothing is lost over two steps that each lose nothing.
pub proof fn lemma_retained_transitive(a: LifecycleView, b: LifecycleView, c: LifecycleView)
    requires
        retained(a, b),
        retained(b, c),
    ensures
        retained(a, c),
{
    assert forall|k: u128| #[trigger] a.intents.dom().contains(k) implies c.intents.dom().contains(
        k,
    ) && c.intents[k] == a.intents[k] by {
        assert(b.intents.dom().contains(k));
    }
    assert forall|k: u128| #[trigger] a.changes.dom().contains(k) implies c.changes.dom().contains(
        k,
    ) && same_change(a.changes[k], c.changes[k]) by {
        assert(b.changes.dom().contains(k));
    }
}

/// The state at a later revision.
pub open spec fn at_revision(s: StateView, revision: u64) -> StateView {
    StateView { revision, ..s }
}

/// A command that is told again, at any later revision, is answered with the
/// revision of the first time and changes nothing.
pub proof fn lemma_replay(
    s: StateView,
    a: LifecycleAdmission,
    command: LifecycleCommandView,
    revision: u64,
    later: u64,
    b: LifecycleAdmission,
)
    requires
        lifecycle_rules::transition(s, a, command, revision) is Ok,
        lifecycle_rules::exact_control(s, b) is Ok,
    ensures
        ({
            let (next, answered) = lifecycle_rules::transition(s, a, command, revision)->Ok_0;
            let again = at_revision(next, later);
            lifecycle_rules::transition(again, b, command, later) == Ok::<(StateView, u64), Error>(
                (again, answered),
            )
        }),
{
    reveal(lifecycle_rules::transition);
    reveal(lifecycle_rules::install);
    reveal(lifecycle_rules::commit_intent);
    reveal(lifecycle_rules::admit_intent);
    reveal(lifecycle_rules::begin_change);
    reveal(lifecycle_rules::admit_change);
    reveal(lifecycle_rules::complete_change);
}

/// A command applies nothing where it stands already, and is answered with its own
/// revision exactly where it does not.
pub proof fn lemma_applied_once(
    s: StateView,
    a: LifecycleAdmission,
    command: LifecycleCommandView,
    revision: u64,
)
    requires
        lifecycle_rules::transition(s, a, command, revision) is Ok,
    ensures
        ({
            let (next, answered) = lifecycle_rules::transition(s, a, command, revision)->Ok_0;
            if lifecycle_rules::replays(s, command) {
                next == s
            } else {
                answered == revision && lifecycle_rules::replays(next, command)
            }
        }),
{
    reveal(lifecycle_rules::transition);
    reveal(lifecycle_rules::install);
    reveal(lifecycle_rules::commit_intent);
    reveal(lifecycle_rules::admit_intent);
    reveal(lifecycle_rules::begin_change);
    reveal(lifecycle_rules::admit_change);
    reveal(lifecycle_rules::complete_change);
}

/// The policy and its epoch change by a completed policy change alone, and the
/// epoch then goes up by one.
pub proof fn lemma_epoch(
    s: StateView,
    a: LifecycleAdmission,
    command: LifecycleCommandView,
    revision: u64,
)
    requires
        lifecycle_rules::transition(s, a, command, revision) is Ok,
    ensures
        ({
            let next = lifecycle_rules::transition(s, a, command, revision)->Ok_0.0;
            (next.policy_epoch == s.policy_epoch && next.policy == s.policy) || (next.policy_epoch
                == s.policy_epoch + 1 && command is CompletePolicyChange && s.lifecycle is Some
                && s.lifecycle->0.pending_change == Some(command->CompletePolicyChange_command_id)
                && next.lifecycle->0.pending_change is None)
        }),
{
    reveal(lifecycle_rules::transition);
    reveal(lifecycle_rules::install);
    reveal(lifecycle_rules::commit_intent);
    reveal(lifecycle_rules::admit_intent);
    reveal(lifecycle_rules::begin_change);
    reveal(lifecycle_rules::admit_change);
    reveal(lifecycle_rules::complete_change);
}

/// While a policy change is pending, and once Control is retired, no new
/// intent and no new change is admitted.
pub proof fn lemma_frozen(
    s: StateView,
    a: LifecycleAdmission,
    request: IntentRequest,
    change: ChangeRequest,
    policy_refusal: Option<Error>,
    revision: u64,
)
    requires
        s.lifecycle is Some,
        s.lifecycle->0.pending_change is Some || s.lifecycle->0.retired,
        !s.lifecycle->0.intents.dom().contains(request.command_id),
        !s.lifecycle->0.changes.dom().contains(change.command_id),
    ensures
        lifecycle_rules::transition(s, a, LifecycleCommandView::CommitIntent(request), revision)
            is Err,
        lifecycle_rules::transition(
            s,
            a,
            LifecycleCommandView::BeginPolicyChange { request: change, policy_refusal },
            revision,
        ) is Err,
{
    reveal(lifecycle_rules::transition);
    reveal(lifecycle_rules::commit_intent);
    reveal(lifecycle_rules::begin_change);
}

/// An installation is immutable: another one is refused.
pub proof fn lemma_installation_immutable(
    s: StateView,
    a: LifecycleAdmission,
    command_id: u128,
    installation: InstallationView,
    revision: u64,
)
    requires
        s.lifecycle is Some,
        s.lifecycle->0.installation_command_id != command_id
            || s.lifecycle->0.installation.sha256 != installation.sha256,
    ensures
        lifecycle_rules::transition(
            s,
            a,
            LifecycleCommandView::Install { command_id, installation },
            revision,
        ) is Err,
{
    reveal(lifecycle_rules::transition);
    reveal(lifecycle_rules::install);
}

} // verus!
