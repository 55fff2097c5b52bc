//! Who observes the custody of a retired source, and what a custody command comes to:
//! nothing is told to whom the custody does not know, and what was accepted stands.
use vstd::prelude::*;

use crate::access_laws;
use crate::access_laws::{is_first, none_refuses};
use crate::custody;
use crate::custody::{
    CustodyCaller, CustodyReceipt, CustodyView, PolicyGrant, ResponseFence, RetirementProof,
    RetirementRecord, RetirementRef, RetirementStatus,
};
use crate::custody_service;
use crate::custody_service::{CommandTurn, Observation, ObservationPhase, Proposed};
use crate::digest::{Digest, Name};
use crate::errors;
use crate::errors::{Error, ErrorCode};

verus! {

/// Whether the name is among the administrators.
pub open spec fn administers(view: CustodyView, name: Name) -> bool {
    exists|k: int|
        0 <= k < view.administrators@.len() && #[trigger] view.administrators@[k] == name
}

/// What refuses an observer of custody, in the order in which it is looked at.
pub open spec fn observer_refusals(
    view: CustodyView,
    caller: CustodyCaller,
    invocation: Option<RetirementProof>,
) -> Seq<Option<Error>> {
    match invocation {
        None => seq![caller.policy_refusal],
        Some(shown) => seq![
            caller.live_refusal,
            caller.database_refusal,
            if shown.accepted_invocation && shown.receipt == view.retirement && caller.tenant
                == view.retirement.tenant && caller.principal == view.retirement.principal
                && caller.admin_scope && administers(view, caller.principal) {
                None
            } else {
                Some(
                    errors::refusal(
                        ErrorCode::Forbidden,
                        "original accepted retirement invocation required",
                    ),
                )
            },
        ],
    }
}

/// Custody is observed under its policy, or by the retirement's own accepted invocation:
/// its very receipt, shown by the principal that it names, who is still an administrator
/// of the source's tenant; and by nobody else.
pub proof fn lemma_observable(
    view: CustodyView,
    caller: CustodyCaller,
    invocation: Option<RetirementProof>,
)
    ensures
        match custody::observable(view, caller, invocation) {
            Ok(()) => none_refuses(observer_refusals(view, caller, invocation)),
            Err(e) => is_first(observer_refusals(view, caller, invocation), e),
        },
{
    let all = observer_refusals(view, caller, invocation);
    if administers(view, caller.principal) {
        let k = choose|k: int|
            0 <= k < view.administrators@.len() && #[trigger] view.administrators@[k]
                == caller.principal;
        assert(view.administrators@.contains(caller.principal));
    }
    if invocation is None {
        if all[0] is Some {
            access_laws::lemma_is_first(all, 0, all[0]->0);
        }
    } else {
        let k: int = if all[0] is Some {
            0
        } else if all[1] is Some {
            1
        } else if all[2] is Some {
            2
        } else {
            3
        };
        if k < 3 {
            access_laws::lemma_is_first(all, k, all[k]->0);
        }
    }
}

/// A response passes its fence exactly where its caller and its node still live, custody
/// may still be observed, and its policy is the one that the response was observed under.
pub proof fn lemma_fence(
    fence: ResponseFence,
    view: CustodyView,
    caller: CustodyCaller,
    node_refusal: Option<Error>,
)
    ensures
        match custody::fence_holds(fence, view, caller, node_refusal) {
            Ok(()) => {
                &&& caller.live_refusal is None
                &&& node_refusal is None
                &&& custody::observable(view, caller, fence.invocation) is Ok
                &&& view.policy_epoch == fence.policy_epoch
            },
            Err(e) => {
                ||| caller.live_refusal == Some(e)
                ||| caller.live_refusal is None && node_refusal == Some(e)
                ||| caller.live_refusal is None && node_refusal is None && custody::observable(
                    view,
                    caller,
                    fence.invocation,
                ) == Err::<(), Error>(e)
                ||| {
                    &&& caller.live_refusal is None
                    &&& node_refusal is None
                    &&& custody::observable(view, caller, fence.invocation) is Ok
                    &&& view.policy_epoch != fence.policy_epoch
                    &&& e == errors::refusal(
                        ErrorCode::Conflict,
                        "custody policy changed before response release",
                    )
                }
            },
        },
{
}

/// Nothing is released that is not on record, and what is on record is released as it was
/// observed, exactly where its fence still holds.
pub proof fn lemma_released(
    observation: Observation,
    view: CustodyView,
    caller: CustodyCaller,
    node_refusal: Option<Error>,
    status: RetirementStatus,
)
    ensures
        observation.release_of(view, caller, node_refusal) == Ok::<Option<RetirementStatus>, Error>(
            Some(status),
        ) <==> observation.phase == ObservationPhase::Audited(status) && custody::fence_holds(
            observation.fence,
            view,
            caller,
            node_refusal,
        ) is Ok,
        observation.phase !is Audited ==> observation.release_of(view, caller, node_refusal)
            == Ok::<Option<RetirementStatus>, Error>(None),
{
}

/// A receipt is of a command exactly if it carries the command's identity and digest, and
/// it is one of this state only if it is no newer than it.
pub proof fn lemma_receipt(
    receipt: CustodyReceipt,
    command_id: Name,
    request_digest: Digest,
    view: CustodyView,
)
    ensures
        ({
            let same = receipt.command_id == command_id && receipt.request_digest
                == request_digest;
            let applied = receipt.revision <= view.revision && receipt.policy_epoch
                <= view.policy_epoch;
            match custody::receipt_holds(receipt, command_id, request_digest, view) {
                Ok(()) => same && applied,
                Err(e) => if same {
                    !applied && e == errors::refusal(
                        ErrorCode::Corruption,
                        "custody receipt exceeds applied state",
                    )
                } else {
                    e == errors::refusal(ErrorCode::Conflict, "custody command identity differs")
                },
            }
        }),
{
}

/// What refuses a caller of the custody service, in the order in which it is looked at.
pub open spec fn service_refusals(caller: CustodyCaller, closing: bool) -> Seq<Option<Error>> {
    seq![
        if closing {
            Some(
                errors::refusal(
                    ErrorCode::Unavailable,
                    "retired source custody requires recovery",
                ),
            )
        } else {
            None
        },
        caller.live_refusal,
        caller.policy_refusal,
    ]
}

/// The service is open exactly to a live caller that the policy does not refuse, until it
/// closes.
pub proof fn lemma_checked(caller: CustodyCaller, closing: bool)
    ensures
        match custody_service::checked(caller, closing) {
            Ok(()) => none_refuses(service_refusals(caller, closing)),
            Err(e) => is_first(service_refusals(caller, closing), e),
        },
{
    let all = service_refusals(caller, closing);
    let k: int = if all[0] is Some {
        0
    } else if all[1] is Some {
        1
    } else if all[2] is Some {
        2
    } else {
        3
    };
    if k < 3 {
        access_laws::lemma_is_first(all, k, all[k]->0);
    }
}

/// What refuses a command at its turn, in the order in which it is looked at.
pub open spec fn turn_refusals(caller: CustodyCaller, turn: CommandTurn) -> Seq<Option<Error>> {
    seq![
        turn.node_refusal,
        caller.live_refusal,
        caller.policy_refusal,
        if turn.clock_ms is Err {
            Some(turn.clock_ms->Err_0)
        } else {
            None
        },
        turn.admitted_refusal,
    ]
}

/// A command is admitted exactly where nothing refuses it at its turn, at what the clock
/// then says.
pub proof fn lemma_command_admitted(caller: CustodyCaller, turn: CommandTurn)
    ensures
        match custody_service::command_admitted(caller, turn) {
            Ok(now) => none_refuses(turn_refusals(caller, turn)) && turn.clock_ms == Ok::<
                u64,
                Error,
            >(now),
            Err(e) => is_first(turn_refusals(caller, turn), e),
        },
{
    let all = turn_refusals(caller, turn);
    let k: int = if all[0] is Some {
        0
    } else if all[1] is Some {
        1
    } else if all[2] is Some {
        2
    } else if all[3] is Some {
        3
    } else if all[4] is Some {
        4
    } else {
        5
    };
    if k < 5 {
        access_laws::lemma_is_first(all, k, all[k]->0);
    }
}

/// A caller is told a receipt exactly if the command was accepted and its response may be
/// released, and a refusal exactly if the command was refused before it was proposed.
/// Otherwise its outcome is unknown.
pub proof fn lemma_executed(proposed: Proposed, release: Result<(), Error>)
    ensures
        match custody_service::executed(proposed, release) {
            Ok(receipt) => proposed == Proposed::Accepted(receipt) && release is Ok,
            Err(e) => {
                ||| proposed == Proposed::Refused(e)
                ||| {
                    &&& proposed !is Refused
                    &&& proposed is Lost || release is Err
                    &&& e.code == ErrorCode::UnknownOutcome
                }
            },
        },
{
}

proof fn lemma_accepted_from(records: Seq<RetirementRecord>, incarnation: u128, i: int)
    requires
        0 <= i <= records.len(),
    ensures
        match custody::accepted_retirement(records, incarnation, i) {
            Some(at) => {
                &&& i <= at < records.len()
                &&& retires(records[at], incarnation)
                &&& forall|k: int| i <= k < at ==> !#[trigger] retires(records[k], incarnation)
            },
            None => forall|k: int|
                i <= k < records.len() ==> !#[trigger] retires(records[k], incarnation),
        },
    decreases records.len() - i,
{
    if i < records.len() && !retires(records[i], incarnation) {
        lemma_accepted_from(records, incarnation, i + 1);
    }
}

/// Whether the record is of an accepted retirement of the incarnation.
pub open spec fn retires(record: RetirementRecord, incarnation: u128) -> bool {
    record.receipt is Ok && record.receipt->Ok_0.source_incarnation == incarnation
}

/// The retirement of a state is the first accepted one of its incarnation, if there is
/// any.
pub proof fn lemma_accepted_retirement(records: Seq<RetirementRecord>, incarnation: u128)
    ensures
        match custody::accepted_retirement(records, incarnation, 0) {
            Some(at) => {
                &&& 0 <= at < records.len()
                &&& retires(records[at], incarnation)
                &&& forall|k: int| 0 <= k < at ==> !#[trigger] retires(records[k], incarnation)
            },
            None => forall|k: int|
                0 <= k < records.len() ==> !#[trigger] retires(records[k], incarnation),
        },
{
    lemma_accepted_from(records, incarnation, 0);
}

/// Whether the grant makes its principal an administrator of the whole tenant.
pub open spec fn grants_all(grant: PolicyGrant) -> bool {
    grant.whole_tenant && grant.admin
}

proof fn lemma_administrators_of(grants: Seq<PolicyGrant>, n: int)
    requires
        0 <= n <= grants.len(),
    ensures
        custody::administrators_of(grants, n) == grants.take(n).filter(
            |grant: PolicyGrant| grants_all(grant),
        ).map_values(|grant: PolicyGrant| grant.principal),
    decreases n,
{
    let keep = |grant: PolicyGrant| grants_all(grant);
    let named = |grant: PolicyGrant| grant.principal;
    reveal(Seq::filter);
    if n > 0 {
        lemma_administrators_of(grants, n - 1);
        let before = grants.take(n - 1).filter(keep);
        assert(grants.take(n).drop_last() =~= grants.take(n - 1));
        assert(grants.take(n).last() == grants[n - 1]);
        assert(before.push(grants[n - 1]).map_values(named) =~= before.map_values(named).push(
            grants[n - 1].principal,
        ));
    } else {
        assert(grants.take(n) =~= Seq::empty());
        assert(grants.take(n).filter(keep).map_values(named) =~= Seq::empty());
    }
}

/// The administrators of a retired source are the principals that its policy grants the
/// administration of the whole tenant, in the policy's order.
pub proof fn lemma_administrators(grants: Seq<PolicyGrant>)
    ensures
        custody::administrators_of(grants, grants.len() as int) == grants.filter(
            |grant: PolicyGrant| grants_all(grant),
        ).map_values(|grant: PolicyGrant| grant.principal),
{
    lemma_administrators_of(grants, grants.len() as int);
    assert(grants.take(grants.len() as int) =~= grants);
}

/// What is told of a retirement is the retirement in custody, under the reference that
/// was asked for; and what goes on record names the same retirement.
pub proof fn lemma_told(view: CustodyView, reference: RetirementRef)
    ensures
        ({
            let status = custody_service::status_of(view, reference);
            let record = custody_service::record_of(view.retirement, view.policy_epoch);
            &&& status.reference == reference
            &&& status.receipt == view.retirement
            &&& status.tenant == status.receipt.tenant
            &&& status.principal == status.receipt.principal
            &&& status.accepted_revision == status.receipt.revision
            &&& record.source_incarnation == status.receipt.source_incarnation
            &&& record.retirement_id == status.receipt.retirement_id
            &&& record.request_digest == status.receipt.request_digest
            &&& record.source_revision == status.receipt.revision
            &&& record.custody_policy_epoch == view.policy_epoch
        }),
{
}

/// A response is fenced exactly where custody is not closing, its caller and its node live
/// and custody may be observed: by the policy of the time, and by what it was shown. A proof
/// is fenced only if it is of the retirement in custody, and carries authority only if it is
/// of the caller's own accepted request. What was fenced passes while nothing changes.
pub proof fn lemma_fenced(
    view: CustodyView,
    caller: CustodyCaller,
    closing: bool,
    node_refusal: Option<Error>,
    invocation: Option<RetirementProof>,
    shown: RetirementProof,
)
    ensures
        ({
            let r = custody::fenced(view, caller, closing, node_refusal, invocation);
            &&& r is Ok <==> {
                &&& !closing
                &&& caller.live_refusal is None
                &&& node_refusal is None
                &&& custody::observable(view, caller, invocation) is Ok
            }
            &&& closing ==> r is Err && r->Err_0.code == ErrorCode::Unavailable
            &&& r is Ok ==> {
                &&& r->Ok_0.policy_epoch == view.policy_epoch
                &&& r->Ok_0.invocation == invocation
                &&& custody::fence_holds(r->Ok_0, view, caller, node_refusal) is Ok
            }
        }),
        ({
            let r = custody::proof_fenced(view, caller, closing, node_refusal, shown);
            let carried = if shown.accepted_invocation {
                Some(shown)
            } else {
                None
            };
            &&& r is Ok <==> {
                &&& !closing
                &&& caller.live_refusal is None
                &&& node_refusal is None
                &&& custody::observable(view, caller, carried) is Ok
                &&& shown.receipt == view.retirement
            }
            &&& r is Ok ==> {
                &&& r->Ok_0.policy_epoch == view.policy_epoch
                &&& r->Ok_0.invocation == carried
            }
        }),
{
}

/// A retirement is told exactly to whom custody may be observed by, under the reference of
/// the retirement in custody, and then as it stands there.
pub proof fn lemma_retirement_told(
    view: CustodyView,
    caller: CustodyCaller,
    reference: RetirementRef,
    refusal: Option<Error>,
    invocation: Option<RetirementProof>,
)
    ensures
        ({
            let r = custody::retirement_observed(view, caller, reference, refusal, invocation);
            &&& r is Ok <==> {
                &&& custody::observable(view, caller, invocation) is Ok
                &&& refusal is None
                &&& reference == view.reference
            }
            &&& r is Ok ==> {
                &&& r->Ok_0.receipt == view.retirement
                &&& r->Ok_0.reference == view.reference
                &&& r->Ok_0.tenant == view.retirement.tenant
                &&& r->Ok_0.principal == view.retirement.principal
                &&& r->Ok_0.accepted_revision == view.retirement.revision
            }
        }),
{
}

/// A receipt is told exactly to a caller of the service, where it is not refused and is of
/// the very command; and where none was found, nothing but that is told.
pub proof fn lemma_receipt_told(
    found: Option<CustodyReceipt>,
    refusal: Option<Error>,
    command_id: Name,
    request_digest: Digest,
    view: CustodyView,
    caller: CustodyCaller,
    closing: bool,
)
    ensures
        ({
            let r = custody_service::receipt_told(
                found,
                refusal,
                command_id,
                request_digest,
                view,
                caller,
                closing,
            );
            let open = custody_service::checked(caller, closing) is Ok;
            &&& r is Ok <==> open && (found is None || (refusal is None && custody::receipt_holds(
                found->0,
                command_id,
                request_digest,
                view,
            ) is Ok))
            &&& r is Ok ==> r->Ok_0 == found
        }),
{
}

/// A refusal goes on record exactly if it is one of access and is not there yet.
pub proof fn lemma_denial(refusal: Error, recorded: bool)
    ensures
        recorded ==> !custody_service::is_denial(refusal, recorded),
        !recorded ==> (custody_service::is_denial(refusal, recorded) <==> match refusal.code {
            ErrorCode::Unauthorized => true,
            ErrorCode::Forbidden => true,
            ErrorCode::Sealed => true,
            _ => false,
        }),
{
}

} // verus!
