//! When lifecycle Control admits a command, and what the command then adds; and what
//! every record of a closed Control state stands for.
use vstd::prelude::*;

use crate::access_laws;
use crate::access_laws::{is_first, none_refuses};
use crate::digest;
use crate::digest::{Digest, Name};
use crate::encoding;
use crate::encoding::{CHANGE_REQUEST, INTENT, INTENT_REQUEST};
use crate::errors;
use crate::errors::{Error, ErrorCode};
use crate::first_refusal;
use crate::lifecycle_model::{LifecycleAdmission, LifecycleCommandView, OperationKind};
use crate::lifecycle_rules;
use crate::lifecycle_rules::{Place, Tally};
use crate::model::{
    ChangeRequest, EpochStops, IntentRequest, LifecycleIntent, Partition, PolicyChange,
    ResumeOrigin,
};
use crate::rules;
use crate::views::{InstallationView, LifecycleView, StateView};

verus! {

/// Whether the partition is the first of that name.
pub open spec fn is_partition(parts: Seq<Partition>, name: Name, p: Partition) -> bool {
    exists|j: int|
        0 <= j < parts.len() && #[trigger] parts[j] == p && p.name == name && (forall|i: int|
            0 <= i < j ==> (#[trigger] parts[i]).name != name)
}

/// Whether a partition is of that name.
pub open spec fn has_partition(parts: Seq<Partition>, name: Name) -> bool {
    exists|j: int| 0 <= j < parts.len() && (#[trigger] parts[j]).name == name
}

proof fn lemma_partition_from(parts: Seq<Partition>, name: Name, i: int)
    requires
        0 <= i <= parts.len(),
        forall|k: int| 0 <= k < i ==> (#[trigger] parts[k]).name != name,
    ensures
        match rules::partition_named(parts, name, i) {
            Some(p) => is_partition(parts, name, p) && has_partition(parts, name),
            None => !has_partition(parts, name),
        },
    decreases parts.len() - i,
{
    if i < parts.len() && parts[i].name != name {
        lemma_partition_from(parts, name, i + 1);
    } else if i < parts.len() {
        assert(parts[i].name == name);
    }
}

/// A partition is found by its name exactly if there is one, and then it is the first.
pub proof fn lemma_partition(parts: Seq<Partition>, name: Name)
    ensures
        match rules::partition_named(parts, name, 0) {
            Some(p) => is_partition(parts, name, p) && has_partition(parts, name),
            None => !has_partition(parts, name),
        },
{
    lemma_partition_from(parts, name, 0);
}

/// What refuses a lifecycle command whatever it asks for, in the order in which it is
/// looked at.
pub open spec fn control_refusals(s: StateView, a: LifecycleAdmission) -> Seq<Option<Error>> {
    seq![
        if s.tenant == digest::name_of("__kasumi_control"@) && a.tenant == s.tenant {
            None
        } else {
            Some(
                errors::refusal(
                    ErrorCode::Forbidden,
                    "lifecycle control requires the installed control namespace",
                ),
            )
        },
        a.control_refusal,
        a.admin_refusal,
        a.request_refusal,
    ]
}

/// A command reaches Control exactly where nothing refuses it, and changes nothing else.
pub proof fn lemma_control_reached(
    s: StateView,
    a: LifecycleAdmission,
    command: LifecycleCommandView,
    revision: u64,
)
    ensures
        match lifecycle_rules::exact_control(s, a) {
            Ok(()) => none_refuses(control_refusals(s, a)),
            Err(e) => is_first(control_refusals(s, a), e)
                && lifecycle_rules::transition(s, a, command, revision) == Err::<
                (StateView, u64),
                Error,
            >(e),
        },
{
    reveal(lifecycle_rules::transition);
    let all = control_refusals(s, a);
    let k: int = if all[0] is Some {
        0
    } else if all[1] is Some {
        1
    } else if all[2] is Some {
        2
    } else if all[3] is Some {
        3
    } else {
        4
    };
    if k < 4 {
        access_laws::lemma_is_first(all, k, all[k]->0);
    }
}

/// Whether Control still holds what a resumption goes back to.
pub open spec fn goes_back(control: LifecycleView, request: IntentRequest, o: ResumeOrigin) -> bool {
    &&& control.intents.dom().contains(o.command_id)
    &&& control.intents[o.command_id].revision == o.revision
    &&& encoding::labelled(INTENT, control.intents[o.command_id]) == o.intent_sha256
    &&& exists|p: Partition| #[trigger]
        is_partition(control.installation.partitions, request.authority_partition, p)
            && p.manifest_sha256 == o.authority_manifest_sha256
}

/// Whether a new intent may be committed.
pub open spec fn may_commit(
    s: StateView,
    control: LifecycleView,
    a: LifecycleAdmission,
    request: IntentRequest,
) -> bool {
    &&& !control.retired
    &&& control.pending_change is None
    &&& request.resume_origin is Some ==> goes_back(control, request, request.resume_origin->0)
    &&& !control.changes.dom().contains(request.command_id)
    &&& request.command_id != control.installation_command_id
    &&& request.expected_policy_epoch == s.policy_epoch
    &&& request.installation_sha256 == control.installation.sha256
    &&& has_partition(control.installation.partitions, request.authority_partition)
    &&& a.credential_expires_at_ms is Some
    &&& a.timestamp_ms < a.credential_expires_at_ms->0
    &&& control.intents.dom().len() < control.installation.max_intents
}

/// Whether only the Control state differs.
pub open spec fn else_same(before: StateView, after: StateView) -> bool {
    &&& after.tenant == before.tenant
    &&& after.incarnation == before.incarnation
    &&& after.revision == before.revision
    &&& after.retired == before.retired
    &&& after.suspended == before.suspended
    &&& after.pending_restore == before.pending_restore
    &&& after.topology == before.topology
    &&& after.recovery == before.recovery
}

/// A new intent is committed exactly while issuance is open, under a free identity, the
/// current epoch, the installation and one of its partitions, by a credential that has not
/// expired, within the quota, and, where it resumes, behind the very intent that it goes
/// back to. It is then retained as it was asked for, with who asked and when, and nothing
/// else changes.
#[verifier::rlimit(40)]
pub proof fn lemma_intent_committed(
    s: StateView,
    a: LifecycleAdmission,
    request: IntentRequest,
    revision: u64,
)
    requires
        s.lifecycle is Some,
        lifecycle_rules::exact_control(s, a) is Ok,
        !s.lifecycle->0.intents.dom().contains(request.command_id),
    ensures
        ({
            let control = s.lifecycle->0;
            let r = lifecycle_rules::transition(
                s,
                a,
                LifecycleCommandView::CommitIntent(request),
                revision,
            );
            &&& r is Ok <==> may_commit(s, control, a, request)
            &&& r is Ok ==> {
                let next = r->Ok_0.0;
                let after = next.lifecycle->0;
                let intent = after.intents[request.command_id];
                &&& r->Ok_0.1 == revision
                &&& next.lifecycle is Some
                &&& else_same(s, next) && next.policy == s.policy && next.policy_epoch
                    == s.policy_epoch
                &&& after.changes == control.changes
                &&& after.pending_change is None
                &&& !after.retired
                &&& after.intents.dom().contains(request.command_id)
                &&& intent.request == request
                &&& intent.request_sha256 == encoding::labelled(INTENT_REQUEST, request)
                &&& intent.control_incarnation == control.installation.control_incarnation
                &&& intent.installation_generation == control.installation.generation
                &&& intent.original_principal == a.principal
                &&& Some(intent.original_credential_expires_at_ms) == a.credential_expires_at_ms
                &&& intent.accepted_at_ms == a.timestamp_ms
                &&& intent.revision == revision
                &&& forall|k: u128|
                    k != request.command_id ==> (after.intents.dom().contains(k)
                        == control.intents.dom().contains(k)) && (#[trigger] after.intents[k]
                        == control.intents[k])
            }
        }),
{
    reveal(lifecycle_rules::transition);
    reveal(lifecycle_rules::commit_intent);
    reveal(lifecycle_rules::admit_intent);
    reveal(lifecycle_rules::issuable);
    reveal(lifecycle_rules::credential);
    let control = s.lifecycle->0;
    lemma_partition(control.installation.partitions, request.authority_partition);
    lemma_resumable(
        control,
        request,
        "resumption issuer partition missing",
        "resumption origin is not the exact retained Control commitment",
    );
}

proof fn lemma_one_partition(parts: Seq<Partition>, name: Name, p: Partition, q: Partition)
    requires
        is_partition(parts, name, p),
        is_partition(parts, name, q),
    ensures
        p == q,
{
    let j = choose|j: int|
        0 <= j < parts.len() && #[trigger] parts[j] == p && p.name == name && (forall|i: int|
            0 <= i < j ==> (#[trigger] parts[i]).name != name);
    let k = choose|k: int|
        0 <= k < parts.len() && #[trigger] parts[k] == q && q.name == name && (forall|i: int|
            0 <= i < k ==> (#[trigger] parts[i]).name != name);
    assert(parts[j] == p && parts[k] == q);
}

proof fn lemma_resumable(
    control: LifecycleView,
    request: IntentRequest,
    absent: &'static str,
    differs: &'static str,
)
    ensures
        lifecycle_rules::resumable(control, request, absent, differs) is Ok <==> (
        request.resume_origin is Some ==> goes_back(control, request, request.resume_origin->0)),
{
    reveal(lifecycle_rules::resumable);
    reveal(lifecycle_rules::retains_origin);
    let parts = control.installation.partitions;
    let name = request.authority_partition;
    lemma_partition(parts, name);
    if let Some(p) = rules::partition_named(parts, name, 0) {
        assert forall|q: Partition| #[trigger] is_partition(parts, name, q) implies q == p by {
            lemma_one_partition(parts, name, p, q);
        }
    }
}

/// Whether a new policy change may be begun.
pub open spec fn may_change(s: StateView, control: LifecycleView, request: ChangeRequest) -> bool {
    &&& !control.retired
    &&& control.pending_change is None
    &&& !control.intents.dom().contains(request.command_id)
    &&& request.command_id != control.installation_command_id
    &&& request.expected_policy_epoch == s.policy_epoch
    &&& request.installation_sha256 == control.installation.sha256
    &&& control.changes.dom().len() < control.installation.max_changes
    &&& s.policy_epoch < u64::MAX
}

/// A policy change is begun exactly while none is pending and Control is not retired, with
/// a policy that is not refused, under a free identity, the current epoch and the
/// installation, within the quota. From then on it is pending, and the policy stands as
/// before.
pub proof fn lemma_change_begun(
    s: StateView,
    a: LifecycleAdmission,
    request: ChangeRequest,
    policy_refusal: Option<Error>,
    revision: u64,
)
    requires
        s.lifecycle is Some,
        lifecycle_rules::exact_control(s, a) is Ok,
        !s.lifecycle->0.changes.dom().contains(request.command_id),
    ensures
        ({
            let control = s.lifecycle->0;
            let r = lifecycle_rules::transition(
                s,
                a,
                LifecycleCommandView::BeginPolicyChange { request, policy_refusal },
                revision,
            );
            &&& r is Ok <==> policy_refusal is None && may_change(s, control, request)
            &&& policy_refusal is Some ==> r == Err::<(StateView, u64), Error>(policy_refusal->0)
            &&& r is Ok ==> {
                let next = r->Ok_0.0;
                let after = next.lifecycle->0;
                let change = after.changes[request.command_id];
                &&& r->Ok_0.1 == revision
                &&& next.lifecycle is Some
                &&& else_same(s, next) && next.policy == s.policy && next.policy_epoch
                    == s.policy_epoch
                &&& after.intents == control.intents
                &&& after.pending_change == Some(request.command_id)
                &&& after.changes.dom().contains(request.command_id)
                &&& change.request == request
                &&& change.request_sha256 == encoding::labelled(CHANGE_REQUEST, request)
                &&& change.control_incarnation == control.installation.control_incarnation
                &&& change.installation_sha256 == control.installation.sha256
                &&& change.original_principal == a.principal
                &&& change.accepted_at_ms == a.timestamp_ms
                &&& change.accepted_revision == revision
                &&& change.completed_revision is None
                &&& change.completion_stops is None
                &&& forall|k: u128|
                    k != request.command_id ==> (after.changes.dom().contains(k)
                        == control.changes.dom().contains(k)) && (#[trigger] after.changes[k]
                        == control.changes[k])
            }
        }),
{
    reveal(lifecycle_rules::transition);
    reveal(lifecycle_rules::begin_change);
    reveal(lifecycle_rules::admit_change);
}

/// A policy change is completed exactly if it is the pending one, named by its digest,
/// under the epoch that it expects, with authentic stops of every installed partition. Its
/// policy is then the policy, the epoch goes up by one, nothing is pending, and Control is
/// retired exactly if the change asked for that.
pub proof fn lemma_change_completed(
    s: StateView,
    a: LifecycleAdmission,
    id: u128,
    change_sha256: Digest,
    stops: EpochStops,
    revision: u64,
)
    requires
        s.lifecycle is Some,
        lifecycle_rules::exact_control(s, a) is Ok,
        s.lifecycle->0.changes.dom().contains(id),
        s.lifecycle->0.changes[id].completed_revision is None,
    ensures
        ({
            let control = s.lifecycle->0;
            let change = control.changes[id];
            let r = lifecycle_rules::transition(
                s,
                a,
                LifecycleCommandView::CompletePolicyChange { command_id: id, change_sha256, stops },
                revision,
            );
            &&& r is Ok <==> {
                &&& change.request_sha256 == change_sha256
                &&& control.pending_change == Some(id)
                &&& s.policy_epoch == change.request.expected_policy_epoch
                &&& stops.authentic
                &&& s.policy_epoch < u64::MAX
            }
            &&& r is Ok ==> {
                let next = r->Ok_0.0;
                let after = next.lifecycle->0;
                &&& r->Ok_0.1 == revision
                &&& next.lifecycle is Some
                &&& else_same(s, next)
                &&& next.policy == change.request.candidate_policy
                &&& next.policy_epoch == s.policy_epoch + 1
                &&& after.intents == control.intents
                &&& after.pending_change is None
                &&& after.retired == change.request.retire_control
                &&& after.changes.dom().contains(id)
                &&& after.changes[id].completed_revision == Some(revision)
                &&& after.changes[id].completion_stops == Some(stops)
                &&& after.changes[id].request == change.request
                &&& after.changes[id].accepted_revision == change.accepted_revision
                &&& forall|k: u128|
                    k != id ==> (after.changes.dom().contains(k) == control.changes.dom().contains(
                        k,
                    )) && (#[trigger] after.changes[k] == control.changes[k])
            }
        }),
{
    reveal(lifecycle_rules::transition);
    reveal(lifecycle_rules::complete_change);
}

/// Control is installed exactly where nothing is yet, under an identity, for the state's
/// own incarnation. It then holds the installation, under the policy of the time, and
/// neither an intent nor a change.
pub proof fn lemma_installed(
    s: StateView,
    a: LifecycleAdmission,
    command_id: u128,
    installation: InstallationView,
    revision: u64,
)
    requires
        s.lifecycle is None,
        lifecycle_rules::exact_control(s, a) is Ok,
    ensures
        ({
            let r = lifecycle_rules::transition(
                s,
                a,
                LifecycleCommandView::Install { command_id, installation },
                revision,
            );
            &&& r is Ok <==> command_id != 0 && installation.control_incarnation == s.incarnation
            &&& r is Ok ==> {
                let next = r->Ok_0.0;
                let after = next.lifecycle->0;
                &&& r->Ok_0.1 == revision
                &&& next.lifecycle is Some
                &&& else_same(s, next) && next.policy == s.policy && next.policy_epoch
                    == s.policy_epoch
                &&& after.installation == installation
                &&& after.installation_command_id == command_id
                &&& after.installation_revision == revision
                &&& after.installation_policy_epoch == s.policy_epoch
                &&& after.installation_policy == s.policy
                &&& !after.retired
                &&& after.pending_change is None
                &&& forall|k: u128| !(#[trigger] after.intents.dom().contains(k))
                &&& forall|k: u128| !(#[trigger] after.changes.dom().contains(k))
            }
        }),
{
    reveal(lifecycle_rules::transition);
    reveal(lifecycle_rules::install);
}

/// A namespace that holds Control takes audits and lifecycle commands always, other
/// commands while no policy change is pending and Control is not retired, and what would
/// change its policy or its schema never. Any other namespace takes everything.
pub proof fn lemma_guarded(s: StateView, kind: OperationKind)
    ensures
        lifecycle_rules::guarded(s, kind) is Ok <==> s.lifecycle is None || match kind {
            OperationKind::Other => false,
            OperationKind::LifecycleControl => true,
            OperationKind::Audit => true,
            OperationKind::MaintenanceAudit => true,
            _ => s.lifecycle->0.pending_change is None && !s.lifecycle->0.retired,
        },
{
}

// ---------------------------------------------------------------------
// The closed history
// ---------------------------------------------------------------------

/// Whether an intent was accepted while the change was pending.
pub open spec fn during(intent: LifecycleIntent, change: PolicyChange) -> bool {
    &&& change.accepted_revision < intent.revision
    &&& change.completed_revision is None || intent.revision < change.completed_revision->0
}

/// Every intent of a closed Control state is retained under its own identity and digest,
/// which no change has; it is of this installation and of one of its partitions, was
/// accepted behind the installation and within its credential's time, never while a change
/// was pending, and behind a completed change only under a later epoch. Where it resumes,
/// what it goes back to is retained and came before it.
pub proof fn lemma_intent_stands(s: StateView, encoded_bytes: u64, id: u128)
    requires
        lifecycle_rules::closed(s, encoded_bytes) is Ok,
        s.lifecycle is Some,
        s.lifecycle->0.intents.dom().contains(id),
    ensures
        ({
            let control = s.lifecycle->0;
            let intent = control.intents[id];
            &&& intent.request.command_id == id
            &&& id != control.installation_command_id
            &&& !control.changes.dom().contains(id)
            &&& intent.request_sha256 == encoding::labelled(INTENT_REQUEST, intent.request)
            &&& intent.control_incarnation == s.incarnation
            &&& intent.installation_generation == control.installation.generation
            &&& intent.request.installation_sha256 == control.installation.sha256
            &&& has_partition(control.installation.partitions, intent.request.authority_partition)
            &&& control.installation_revision < intent.revision
            &&& intent.revision <= s.revision
            &&& intent.accepted_at_ms < intent.original_credential_expires_at_ms
            &&& control.installation_policy_epoch <= intent.request.expected_policy_epoch
            &&& intent.request.expected_policy_epoch <= s.policy_epoch
            &&& intent.request.resume_origin is Some ==> {
                &&& goes_back(control, intent.request, intent.request.resume_origin->0)
                &&& intent.request.resume_origin->0.revision < intent.revision
            }
            &&& forall|k: u128| #[trigger]
                control.changes.dom().contains(k) ==> {
                    &&& !during(intent, control.changes[k])
                    &&& control.changes[k].completed_revision is Some
                        && control.changes[k].completed_revision->0 < intent.revision
                        ==> control.changes[k].request.expected_policy_epoch
                        < intent.request.expected_policy_epoch
                }
        }),
{
    reveal(lifecycle_rules::closed);
    reveal(lifecycle_rules::bounded);
    reveal(lifecycle_rules::intent_checked);
    reveal(lifecycle_rules::intent_identity);
    reveal(lifecycle_rules::resumed_later);
    let control = s.lifecycle->0;
    let intent = control.intents[id];
    let epoch = lifecycle_rules::whole_tally(s, control)->Ok_0.epoch;
    first_refusal::lemma_every(
        control.intents,
        |id: u128, intent: LifecycleIntent|
            lifecycle_rules::intent_checked(s, control, epoch, id, intent),
    );
    assert(lifecycle_rules::intent_checked(s, control, epoch, id, control.intents[id]) is Ok);
    first_refusal::lemma_every(
        control.changes,
        |id: u128, change: PolicyChange| lifecycle_rules::outside_change(intent, change),
    );
    lemma_partition(control.installation.partitions, intent.request.authority_partition);
    lemma_resumable(
        control,
        intent.request,
        "retained resumption issuer missing",
        "retained resumption lost its original Control commitment",
    );
    assert forall|k: u128| #[trigger] control.changes.dom().contains(k) implies {
        &&& !during(intent, control.changes[k])
        &&& control.changes[k].completed_revision is Some
            && control.changes[k].completed_revision->0 < intent.revision
            ==> control.changes[k].request.expected_policy_epoch
            < intent.request.expected_policy_epoch
    } by {
        assert(lifecycle_rules::outside_change(intent, control.changes[k]) is Ok);
        reveal(lifecycle_rules::outside_change);
    }
}

/// A closed Control state is within its bounds: of its own incarnation, installed once
/// under an identity, neither retired as a database nor to be restored, and within the
/// quotas of its installation.
pub proof fn lemma_bounded(s: StateView, encoded_bytes: u64)
    requires
        lifecycle_rules::closed(s, encoded_bytes) is Ok,
        s.lifecycle is Some,
    ensures
        ({
            let control = s.lifecycle->0;
            &&& s.tenant == digest::name_of("__kasumi_control"@)
            &&& control.installation.control_incarnation == s.incarnation
            &&& control.installation_command_id != 0
            &&& 0 < control.installation_revision <= s.revision
            &&& !s.retired
            &&& !s.pending_restore
            &&& control.intents.dom().len() <= control.installation.max_intents
            &&& control.changes.dom().len() <= control.installation.max_changes
            &&& encoded_bytes <= control.installation.max_state_bytes
        }),
{
    reveal(lifecycle_rules::closed);
    reveal(lifecycle_rules::bounded);
}

/// A change that is tallied continues the history: it is retained under its own identity
/// and digest, of this installation, under the epoch that the history has come to, behind
/// what came before it, while nothing is pending and Control is not retired. Completed, it
/// raises the epoch by one and sets the policy, with authentic stops and behind its own
/// acceptance; pending, it changes neither.
pub proof fn lemma_tallied(
    s: StateView,
    control: LifecycleView,
    id: u128,
    change: PolicyChange,
    t: Tally,
)
    requires
        lifecycle_rules::tally_change(s, control, id, change, t) is Ok,
    ensures
        ({
            let after = lifecycle_rules::tally_change(s, control, id, change, t)->Ok_0;
            &&& id == change.request.command_id
            &&& id != control.installation_command_id
            &&& change.request_sha256 == encoding::labelled(CHANGE_REQUEST, change.request)
            &&& change.request.installation_sha256 == control.installation.sha256
            &&& change.installation_sha256 == control.installation.sha256
            &&& change.control_incarnation == control.installation.control_incarnation
            &&& change.request.expected_policy_epoch == t.epoch
            &&& t.previous < change.accepted_revision <= s.revision
            &&& t.pending is None
            &&& !t.retired
            &&& match change.completed_revision {
                Some(revision) => {
                    &&& change.accepted_revision < revision <= s.revision
                    &&& change.completion_stops is Some
                    &&& change.completion_stops->0.authentic
                    &&& after.epoch == t.epoch + 1
                    &&& after.policy == change.request.candidate_policy
                    &&& after.previous == revision
                    &&& after.pending is None
                    &&& after.retired == change.request.retire_control
                },
                None => {
                    &&& change.completion_stops is None
                    &&& after.epoch == t.epoch
                    &&& after.policy == t.policy
                    &&& after.previous == change.accepted_revision
                    &&& after.pending == Some(id)
                    &&& !after.retired
                },
            }
        }),
{
    reveal(lifecycle_rules::tally_change);
    reveal(lifecycle_rules::continuous);
    reveal(lifecycle_rules::tally_completed);
}

} // verus!
