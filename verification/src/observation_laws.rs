//! What is observed of Control, and what is signed of an observation: exactly what Control
//! retains, in the installation that it was observed in, and only while the caller and its
//! release stand.
use vstd::prelude::*;

use crate::access_laws;
use crate::access_laws::{is_first, none_refuses};
use crate::control_laws::{has_partition, is_partition};
use crate::control_laws;
use crate::digest;
use crate::digest::Name;
use crate::errors;
use crate::errors::{Error, ErrorCode};
use crate::lifecycle_model::{CommittedChange, CommittedIntent};
use crate::lifecycle_service;
use crate::lifecycle_service::{
    BarrierChecks, CommandStatus, LifecycleStatus, ReadLifecycleStatus,
};
use crate::lifecycle_signer;
use crate::lifecycle_signer::SigningRoot;
use crate::views::{InstallationView, StateView};

verus! {

/// What refuses a caller at Control's barrier, in the order in which it is looked at.
pub open spec fn barrier_refusals(s: StateView, checks: BarrierChecks) -> Seq<Option<Error>> {
    seq![
        checks.live_refusal,
        checks.access_refusal,
        checks.admin_refusal,
        if s.tenant == digest::name_of("__kasumi_control"@) {
            None
        } else {
            Some(errors::refusal(ErrorCode::Forbidden, "installed control namespace required"))
        },
        checks.control_refusal,
    ]
}

/// A caller passes Control's barrier exactly where nothing refuses it.
pub proof fn lemma_barrier(s: StateView, checks: BarrierChecks)
    ensures
        match lifecycle_service::barrier_admitted(s, checks) {
            Ok(()) => none_refuses(barrier_refusals(s, checks)),
            Err(e) => is_first(barrier_refusals(s, checks), e),
        },
{
    let all = barrier_refusals(s, checks);
    let k: int = if all[0] is Some {
        0
    } else if all[1] is Some {
        1
    } else if all[2] is Some {
        2
    } else if all[3] is Some {
        3
    } else if all[4] is Some {
        4
    } else {
        5
    };
    if k < 5 {
        access_laws::lemma_is_first(all, k, all[k]->0);
    }
}

/// An intent is observed exactly if Control retains it, as it is retained and with where and
/// when it was observed; and so is a change.
pub proof fn lemma_observed(s: StateView, id: u128, term: u64)
    ensures
        match lifecycle_service::observed_intent(s, id, term) {
            Ok(o) => {
                &&& s.lifecycle is Some
                &&& s.lifecycle->0.intents.dom().contains(id)
                &&& o.intent == s.lifecycle->0.intents[id]
                &&& o.installation_sha256 == s.lifecycle->0.installation.sha256
                &&& o.observed_policy_epoch == s.policy_epoch
                &&& o.observed_revision == s.revision
                &&& o.observed_term == term
            },
            Err(e) => {
                &&& s.lifecycle is None || !s.lifecycle->0.intents.dom().contains(id)
                &&& e.code == ErrorCode::NotFound
            },
        },
        match lifecycle_service::observed_change(s, id, term) {
            Ok(o) => {
                &&& s.lifecycle is Some
                &&& s.lifecycle->0.changes.dom().contains(id)
                &&& o.change == s.lifecycle->0.changes[id]
                &&& o.observed_policy_epoch == s.policy_epoch
                &&& o.observed_revision == s.revision
                &&& o.observed_term == term
            },
            Err(e) => {
                &&& s.lifecycle is None || !s.lifecycle->0.changes.dom().contains(id)
                &&& e.code == ErrorCode::NotFound
            },
        },
{
}

/// A command's status is read exactly of the incarnation that it is asked of, where Control
/// is installed, and is what Control retains under the command's identity: an intent, a
/// change, the installation, or nothing.
pub proof fn lemma_status(s: StateView, request: ReadLifecycleStatus, term: u64)
    ensures
        ({
            let r = lifecycle_service::status_read(s, request, term);
            let id = request.command_id;
            &&& r is Ok <==> id != 0 && request.expected_incarnation == s.incarnation && s.lifecycle
                is Some
            &&& r is Ok ==> {
                let control = s.lifecycle->0;
                let status = r->Ok_0;
                &&& status.request == request
                &&& status.policy_epoch == s.policy_epoch
                &&& status.observed_revision == s.revision
                &&& status.observed_term == term
                &&& status.retired == control.retired
                &&& control.intents.dom().contains(id) ==> status.command == Some(
                    CommandStatus::Intent(control.intents[id]),
                )
                &&& !control.intents.dom().contains(id) && control.changes.dom().contains(id)
                    ==> status.command == Some(CommandStatus::PolicyChange(control.changes[id]))
                &&& !control.intents.dom().contains(id) && !control.changes.dom().contains(id)
                    && id == control.installation_command_id ==> status.command == Some(
                    CommandStatus::Installation {
                        command_id: id,
                        installation_sha256: control.installation.sha256,
                        revision: control.installation_revision,
                    },
                )
                &&& status.command is None <==> !control.intents.dom().contains(id)
                    && !control.changes.dom().contains(id) && id != control.installation_command_id
            }
        }),
{
}

/// A status that was read is released exactly in the term that it was read in, while the
/// epoch, the retirement and the command's record are what they were.
pub proof fn lemma_status_stands(s: StateView, status: LifecycleStatus, term: u64)
    ensures
        lifecycle_service::status_stands(s, status, term) is Ok <==> {
            &&& term == status.observed_term
            &&& lifecycle_service::status_read(s, status.request, term) is Ok
            &&& s.policy_epoch == status.policy_epoch
            &&& s.lifecycle->0.retired == status.retired
            &&& lifecycle_service::status_read(s, status.request, term)->Ok_0.command
                == status.command
        },
{
}

/// An observation is released, and signed, exactly where what it was checked by and its
/// release stand; the first that does not is what is told. What is signed is the commitment
/// itself, released before and behind it.
pub proof fn lemma_signed<C>(
    checked: Result<(), Error>,
    release_refusal: Option<Error>,
    released: Result<(), Error>,
    commitment: Result<C, Error>,
    encoded: bool,
    behind: Result<(), Error>,
)
    ensures
        match lifecycle_service::released(checked, release_refusal) {
            Ok(()) => checked is Ok && release_refusal is None,
            Err(e) => checked == Err::<(), Error>(e) || (checked is Ok && release_refusal == Some(
                e,
            )),
        },
        match lifecycle_signer::signed_of(released, commitment, encoded, behind) {
            Ok(c) => {
                &&& released is Ok
                &&& commitment == Ok::<C, Error>(c)
                &&& encoded
                &&& behind is Ok
            },
            Err(e) => {
                ||| released == Err::<(), Error>(e)
                ||| released is Ok && commitment == Err::<C, Error>(e)
                ||| released is Ok && commitment is Ok && !encoded && e
                    == lifecycle_signer::unencoded()
                ||| released is Ok && commitment is Ok && encoded && behind == Err::<(), Error>(e)
            },
        },
{
}

/// An observed intent is signed exactly in the installation that it was observed in, by the
/// root that is installed there, for a partition of it; and as it was observed.
pub proof fn lemma_intent_signed(
    root: SigningRoot,
    observed: CommittedIntent,
    installation: InstallationView,
)
    ensures
        ({
            let r = lifecycle_signer::intent_commitment_of(root, observed, installation);
            let name = observed.intent.request.authority_partition;
            &&& r is Ok <==> {
                &&& installation.sha256 == observed.installation_sha256
                &&& root.control_incarnation == installation.control_incarnation
                &&& root.public_key == installation.public_key
                &&& has_partition(installation.partitions, name)
            }
            &&& r is Ok ==> {
                &&& r->Ok_0.intent == observed.intent
                &&& r->Ok_0.root == root
                &&& is_partition(installation.partitions, name, r->Ok_0.authority_partition)
                &&& r->Ok_0.partition_set_sha256 == installation.partitions_sha256
                &&& r->Ok_0.observed_policy_epoch == observed.observed_policy_epoch
                &&& r->Ok_0.observed_revision == observed.observed_revision
                &&& r->Ok_0.observed_term == observed.observed_term
            }
        }),
{
    control_laws::lemma_partition(
        installation.partitions,
        observed.intent.request.authority_partition,
    );
}

/// An observed change is signed exactly in the installation that it was accepted in, by the
/// root that is installed there, for a partition of it; and as it was observed.
pub proof fn lemma_change_signed(
    root: SigningRoot,
    observed: CommittedChange,
    installation: InstallationView,
    name: Name,
)
    ensures
        ({
            let r = lifecycle_signer::change_commitment_of(root, observed, installation, name);
            &&& r is Ok <==> {
                &&& installation.sha256 == observed.change.installation_sha256
                &&& root.control_incarnation == installation.control_incarnation
                &&& root.public_key == installation.public_key
                &&& has_partition(installation.partitions, name)
            }
            &&& r is Ok ==> {
                &&& r->Ok_0.change == observed.change
                &&& r->Ok_0.root == root
                &&& is_partition(installation.partitions, name, r->Ok_0.partition)
                &&& r->Ok_0.accepted_revision == observed.change.accepted_revision
                &&& r->Ok_0.observed_policy_epoch == observed.observed_policy_epoch
                &&& r->Ok_0.observed_revision == observed.observed_revision
                &&& r->Ok_0.observed_term == observed.observed_term
            }
        }),
{
    control_laws::lemma_partition(installation.partitions, name);
}

} // verus!
