//! The custody of a permanently retired source: who may observe it, and what is
//! released of it. Local recovery releases nothing by itself.
use vstd::prelude::*;

use crate::digest::{Digest, Name};
use crate::errors;
use crate::errors::{conflict, error, Error, ErrorCode};

verus! {

/// The permanent receipt of a retirement.
#[derive(Clone, Copy, Debug, PartialEq, Eq, Structural)]
pub struct RetirementReceipt {
    pub tenant: Name,
    pub source_incarnation: u128,
    pub retirement_id: Name,
    pub request_digest: Digest,
    pub principal: Name,
    pub revision: u64,
}

/// What a retirement is referred to by.
#[derive(Clone, Copy, Debug, PartialEq, Eq, Structural)]
pub struct RetirementRef {
    pub source_incarnation: u128,
    pub retirement_id: Name,
    pub request_digest: Digest,
}

/// The current custody of a retired source.
pub struct CustodyView {
    pub retirement: RetirementReceipt,
    pub reference: RetirementRef,
    pub revision: u64,
    pub policy_epoch: u64,
    pub administrators: Vec<Name>,
    pub limits_sha256: Digest,
}

/// Who observes custody: what refuses the caller's credential, the source's database
/// grant and the custody policy, each if anything.
#[derive(Clone, Copy, Debug)]
pub struct CustodyCaller {
    pub tenant: Name,
    pub principal: Name,
    pub admin_scope: bool,
    pub live_refusal: Option<Error>,
    pub database_refusal: Option<Error>,
    pub policy_refusal: Option<Error>,
}

/// A proof of a retirement, and whether it is of the caller's own accepted request.
#[derive(Clone, Copy, Debug)]
pub struct RetirementProof {
    pub receipt: RetirementReceipt,
    pub accepted_invocation: bool,
}

pub open spec fn accepted(view: CustodyView, caller: CustodyCaller, invocation: RetirementProof) -> bool {
    &&& invocation.accepted_invocation
    &&& invocation.receipt == view.retirement
    &&& caller.principal == view.retirement.principal
    &&& caller.tenant == view.retirement.tenant
    &&& caller.admin_scope
    &&& view.administrators@.contains(caller.principal)
}

/// Whether a caller may observe custody: under its policy, or by the original
/// accepted retirement.
pub open spec fn observable(view: CustodyView, caller: CustodyCaller, invocation: Option<RetirementProof>) -> Result<
    (),
    Error,
> {
    match invocation {
        None => if caller.policy_refusal is Some {
            Err(caller.policy_refusal->0)
        } else {
            Ok(())
        },
        Some(invocation) => if caller.live_refusal is Some {
            Err(caller.live_refusal->0)
        } else if caller.database_refusal is Some {
            Err(caller.database_refusal->0)
        } else if !accepted(view, caller, invocation) {
            Err(
                errors::refusal(
                    ErrorCode::Forbidden,
                    "original accepted retirement invocation required",
                ),
            )
        } else {
            Ok(())
        },
    }
}

fn is_administrator(view: &CustodyView, principal: Name) -> (b: bool)
    ensures
        b == view.administrators@.contains(principal),
{
    let mut i: usize = 0;
    while i < view.administrators.len()
        invariant
            i <= view.administrators.len(),
            forall|j: int| 0 <= j < i ==> view.administrators@[j] != principal,
        decreases view.administrators.len() - i,
    {
        if view.administrators[i] == principal {
            assert(view.administrators@[i as int] == principal);
            return true;
        }
        i = i + 1;
    }
    false
}

/// Whether a caller may observe custody.
pub fn authorize_observation(
    view: &CustodyView,
    caller: &CustodyCaller,
    invocation: Option<RetirementProof>,
) -> (r: Result<(), Error>)
    ensures
        r == observable(*view, *caller, invocation),
{
    let invocation = match invocation {
        None => {
            return match caller.policy_refusal {
                Some(refusal) => Err(refusal),
                None => Ok(()),
            };
        },
        Some(invocation) => invocation,
    };
    match caller.live_refusal {
        Some(refusal) => return Err(refusal),
        None => {},
    }
    match caller.database_refusal {
        Some(refusal) => return Err(refusal),
        None => {},
    }
    if !invocation.accepted_invocation || invocation.receipt != view.retirement || caller.principal
        != view.retirement.principal || caller.tenant != view.retirement.tenant
        || !caller.admin_scope || !is_administrator(view, caller.principal) {
        return Err(
            error(ErrorCode::Forbidden, "original accepted retirement invocation required"),
        );
    }
    Ok(())
}

/// What a response is fenced by: the policy epoch that it was observed under, and
/// the invocation that it was authorized by.
#[derive(Clone, Copy, Debug)]
pub struct ResponseFence {
    pub policy_epoch: u64,
    pub invocation: Option<RetirementProof>,
}

pub open spec fn fence_holds(
    fence: ResponseFence,
    view: CustodyView,
    caller: CustodyCaller,
    node_refusal: Option<Error>,
) -> Result<(), Error> {
    if caller.live_refusal is Some {
        Err(caller.live_refusal->0)
    } else if node_refusal is Some {
        Err(node_refusal->0)
    } else {
        match observable(view, caller, fence.invocation) {
            Err(e) => Err(e),
            Ok(()) => if view.policy_epoch != fence.policy_epoch {
                Err(
                    errors::refusal(
                        ErrorCode::Conflict,
                        "custody policy changed before response release",
                    ),
                )
            } else {
                Ok(())
            },
        }
    }
}

/// The fence around what a caller observes now, unless it is refused.
pub open spec fn fenced(
    view: CustodyView,
    caller: CustodyCaller,
    closing: bool,
    node_refusal: Option<Error>,
    invocation: Option<RetirementProof>,
) -> Result<ResponseFence, Error> {
    if closing {
        Err(
            errors::refusal(ErrorCode::Unavailable, "retired source custody requires recovery"),
        )
    } else if caller.live_refusal is Some {
        Err(caller.live_refusal->0)
    } else if node_refusal is Some {
        Err(node_refusal->0)
    } else {
        match observable(view, caller, invocation) {
            Err(e) => Err(e),
            Ok(()) => Ok(ResponseFence { policy_epoch: view.policy_epoch, invocation }),
        }
    }
}

impl ResponseFence {
    /// A fence around what is observed now.
    pub fn observe(
        view: &CustodyView,
        caller: &CustodyCaller,
        closing: bool,
        node_refusal: Option<Error>,
        invocation: Option<RetirementProof>,
    ) -> (r: Result<ResponseFence, Error>)
        ensures
            r == if closing {
                Err(
                    errors::refusal(
                        ErrorCode::Unavailable,
                        "retired source custody requires recovery",
                    ),
                )
            } else if caller.live_refusal is Some {
                Err(caller.live_refusal->0)
            } else if node_refusal is Some {
                Err(node_refusal->0)
            } else {
                match observable(*view, *caller, invocation) {
                    Err(e) => Err(e),
                    Ok(()) => Ok(ResponseFence { policy_epoch: view.policy_epoch, invocation }),
                }
            },
            r == fenced(*view, *caller, closing, node_refusal, invocation),
    {
        if closing {
            return Err(
                error(ErrorCode::Unavailable, "retired source custody requires recovery"),
            );
        }
        match caller.live_refusal {
            Some(refusal) => return Err(refusal),
            None => {},
        }
        match node_refusal {
            Some(refusal) => return Err(refusal),
            None => {},
        }
        authorize_observation(view, caller, invocation)?;
        Ok(ResponseFence { policy_epoch: view.policy_epoch, invocation })
    }

    /// Whether a response may still be released.
    pub fn check(&self, view: &CustodyView, caller: &CustodyCaller, node_refusal: Option<Error>) -> (r:
        Result<(), Error>)
        ensures
            r == fence_holds(*self, *view, *caller, node_refusal),
    {
        match caller.live_refusal {
            Some(refusal) => return Err(refusal),
            None => {},
        }
        match node_refusal {
            Some(refusal) => return Err(refusal),
            None => {},
        }
        authorize_observation(view, caller, self.invocation)?;
        if view.policy_epoch != self.policy_epoch {
            return Err(conflict("custody policy changed before response release"));
        }
        Ok(())
    }
}

/// The permanent receipt of a custody command, which stands whether the command was
/// carried out or refused.
#[derive(Clone, Copy, Debug, PartialEq)]
pub struct CustodyReceipt {
    pub command_id: Name,
    pub request_digest: Digest,
    pub revision: u64,
    pub policy_epoch: u64,
    pub outcome: Result<(), Error>,
}

pub open spec fn receipt_holds(
    receipt: CustodyReceipt,
    command_id: Name,
    request_digest: Digest,
    view: CustodyView,
) -> Result<(), Error> {
    if receipt.command_id != command_id || receipt.request_digest != request_digest {
        Err(errors::refusal(ErrorCode::Conflict, "custody command identity differs"))
    } else if receipt.revision > view.revision || receipt.policy_epoch > view.policy_epoch {
        Err(errors::refusal(ErrorCode::Corruption, "custody receipt exceeds applied state"))
    } else {
        Ok(())
    }
}

/// Whether a receipt that was read is of this command, and applied. An absence is
/// only an observation.
pub fn check_receipt(
    receipt: &CustodyReceipt,
    command_id: Name,
    request_digest: Digest,
    view: &CustodyView,
) -> (r: Result<(), Error>)
    ensures
        r == receipt_holds(*receipt, command_id, request_digest, *view),
{
    if receipt.command_id != command_id || receipt.request_digest != request_digest {
        return Err(conflict("custody command identity differs"));
    }
    if receipt.revision > view.revision || receipt.policy_epoch > view.policy_epoch {
        return Err(error(ErrorCode::Corruption, "custody receipt exceeds applied state"));
    }
    Ok(())
}

/// What is released of a retirement.
#[derive(Clone, Copy, Debug, PartialEq, Eq, Structural)]
pub struct RetirementStatus {
    pub tenant: Name,
    pub principal: Name,
    pub reference: RetirementRef,
    pub accepted_revision: u64,
    pub receipt: RetirementReceipt,
}

/// What is told of the retirement that a reference names, unless it is refused.
pub open spec fn retirement_observed(
    view: CustodyView,
    caller: CustodyCaller,
    reference: RetirementRef,
    reference_refusal: Option<Error>,
    invocation: Option<RetirementProof>,
) -> Result<RetirementStatus, Error> {
    match observable(view, caller, invocation) {
        Err(e) => Err(e),
        Ok(()) => if reference_refusal is Some {
            Err(reference_refusal->0)
        } else if reference != view.reference {
            Err(errors::refusal(ErrorCode::Conflict, "retired source identity differs"))
        } else {
            Ok(
                RetirementStatus {
                    tenant: view.retirement.tenant,
                    principal: view.retirement.principal,
                    reference,
                    accepted_revision: view.retirement.revision,
                    receipt: view.retirement,
                },
            )
        },
    }
}

/// The retirement that a reference names, if it is the one in custody. What refuses
/// the reference's form, if anything, is carried with it.
pub fn observe_retirement(
    view: &CustodyView,
    caller: &CustodyCaller,
    reference: &RetirementRef,
    reference_refusal: Option<Error>,
    invocation: Option<RetirementProof>,
) -> (r: Result<RetirementStatus, Error>)
    ensures
        r == match observable(*view, *caller, invocation) {
            Err(e) => Err(e),
            Ok(()) => if reference_refusal is Some {
                Err(reference_refusal->0)
            } else if *reference != view.reference {
                Err(errors::refusal(ErrorCode::Conflict, "retired source identity differs"))
            } else {
                Ok(
                    RetirementStatus {
                        tenant: view.retirement.tenant,
                        principal: view.retirement.principal,
                        reference: *reference,
                        accepted_revision: view.retirement.revision,
                        receipt: view.retirement,
                    },
                )
            },
        },
        r == retirement_observed(*view, *caller, *reference, reference_refusal, invocation),
{
    authorize_observation(view, caller, invocation)?;
    match reference_refusal {
        Some(refusal) => return Err(refusal),
        None => {},
    }
    if *reference != view.reference {
        return Err(conflict("retired source identity differs"));
    }
    Ok(
        RetirementStatus {
            tenant: view.retirement.tenant,
            principal: view.retirement.principal,
            reference: *reference,
            accepted_revision: view.retirement.revision,
            receipt: view.retirement,
        },
    )
}

/// What a shown proof carries: its own authority if it is of an accepted request.
pub open spec fn carried(shown: RetirementProof) -> Option<RetirementProof> {
    if shown.accepted_invocation {
        Some(shown)
    } else {
        None
    }
}

/// The fence around a shown proof, unless it is refused.
pub open spec fn proof_fenced(
    view: CustodyView,
    caller: CustodyCaller,
    closing: bool,
    node_refusal: Option<Error>,
    shown: RetirementProof,
) -> Result<ResponseFence, Error> {
    match fenced(view, caller, closing, node_refusal, carried(shown)) {
        Err(e) => Err(e),
        Ok(fence) => if view.retirement != shown.receipt {
            Err(errors::refusal(ErrorCode::Conflict, "retirement proof differs"))
        } else {
            Ok(fence)
        },
    }
}

/// A fence around a proof of the retirement in custody. A proof of the caller's own
/// accepted request carries its authority; another needs the custody policy's.
pub fn retirement_response_fence(
    view: &CustodyView,
    caller: &CustodyCaller,
    closing: bool,
    node_refusal: Option<Error>,
    shown: &RetirementProof,
) -> (r: Result<ResponseFence, Error>)
    ensures
        ({
            let invocation = if shown.accepted_invocation {
                Some(*shown)
            } else {
                None
            };
            r == if closing {
                Err(
                    errors::refusal(
                        ErrorCode::Unavailable,
                        "retired source custody requires recovery",
                    ),
                )
            } else if caller.live_refusal is Some {
                Err(caller.live_refusal->0)
            } else if node_refusal is Some {
                Err(node_refusal->0)
            } else {
                match observable(*view, *caller, invocation) {
                    Err(e) => Err(e),
                    Ok(()) => if view.retirement != shown.receipt {
                        Err(errors::refusal(ErrorCode::Conflict, "retirement proof differs"))
                    } else {
                        Ok(
                            ResponseFence { policy_epoch: view.policy_epoch, invocation },
                        )
                    },
                }
            }
        }),
        r == proof_fenced(*view, *caller, closing, node_refusal, *shown),
{
    let invocation = if shown.accepted_invocation {
        Some(*shown)
    } else {
        None
    };
    let fence = ResponseFence::observe(view, caller, closing, node_refusal, invocation)?;
    if view.retirement != shown.receipt {
        return Err(conflict("retirement proof differs"));
    }
    fence.check(view, caller, node_refusal)?;
    Ok(fence)
}

// ---------------------------------------------------------------------
// The retired snapshot
// ---------------------------------------------------------------------

/// A retirement that a state records: its request, and its receipt if it was
/// accepted.
#[derive(Clone, Copy, Debug)]
pub struct RetirementRecord {
    pub request: RetirementRef,
    pub receipt: Result<RetirementReceipt, ErrorCode>,
}

/// A grant of a tenant's policy.
#[derive(Clone, Copy, Debug, PartialEq, Eq, Structural)]
pub struct PolicyGrant {
    pub principal: Name,
    pub whole_tenant: bool,
    pub admin: bool,
}

/// What of a state its retirement depends on.
pub struct RetirableState {
    pub retired: bool,
    pub incarnation: u128,
    pub revision_base: u64,
    pub revision: u64,
    pub policy_epoch: u64,
    pub retirements: Vec<RetirementRecord>,
    pub grants: Vec<PolicyGrant>,
}

/// The closed state of a retired source.
pub struct RetiredSnapshot {
    pub revision_base: u64,
    pub revision: u64,
    pub policy_epoch: u64,
    pub administrators: Vec<Name>,
    pub request: RetirementRef,
    pub receipt: RetirementReceipt,
}

/// The accepted retirement of the incarnation, from `i` on.
pub open spec fn accepted_retirement(records: Seq<RetirementRecord>, incarnation: u128, i: int) -> Option<
    int,
>
    decreases records.len() - i,
{
    if i < 0 || i >= records.len() {
        None
    } else if records[i].receipt matches Ok(receipt) && receipt.source_incarnation == incarnation {
        Some(i)
    } else {
        accepted_retirement(records, incarnation, i + 1)
    }
}

/// The principals that administer the whole tenant, of the first `n` grants, in
/// their order.
pub open spec fn administrators_of(grants: Seq<PolicyGrant>, n: int) -> Seq<Name>
    decreases n,
{
    if n <= 0 {
        Seq::empty()
    } else if grants[n - 1].whole_tenant && grants[n - 1].admin {
        administrators_of(grants, n - 1).push(grants[n - 1].principal)
    } else {
        administrators_of(grants, n - 1)
    }
}

/// The closed state of a retired source; none of one that is not retired.
pub fn retired(state: &RetirableState) -> (r: Result<Option<RetiredSnapshot>, Error>)
    ensures
        if !state.retired {
            r matches Ok(None)
        } else {
            match accepted_retirement(state.retirements@, state.incarnation, 0) {
                None => r == Err::<Option<RetiredSnapshot>, Error>(
                    errors::refusal(
                        ErrorCode::Corruption,
                        "retired snapshot has no accepted retirement",
                    ),
                ),
                Some(at) => r matches Ok(Some(snapshot)) && {
                    &&& snapshot.revision_base == state.revision_base
                    &&& snapshot.revision == state.revision
                    &&& snapshot.policy_epoch == state.policy_epoch
                    &&& snapshot.administrators@ == administrators_of(
                        state.grants@,
                        state.grants@.len() as int,
                    )
                    &&& snapshot.request == state.retirements@[at].request
                    &&& state.retirements@[at].receipt == Ok::<RetirementReceipt, ErrorCode>(
                        snapshot.receipt,
                    )
                },
            }
        },
{
    if !state.retired {
        return Ok(None);
    }
    let mut i: usize = 0;
    while i < state.retirements.len()
        invariant
            i <= state.retirements.len(),
            state.retired,
            accepted_retirement(state.retirements@, state.incarnation, 0) == accepted_retirement(
                state.retirements@,
                state.incarnation,
                i as int,
            ),
        decreases state.retirements.len() - i,
    {
        let record = state.retirements[i];
        match record.receipt {
            Ok(receipt) => {
                if receipt.source_incarnation == state.incarnation {
                    let mut administrators: Vec<Name> = Vec::new();
                    let mut k: usize = 0;
                    while k < state.grants.len()
                        invariant
                            k <= state.grants.len(),
                            administrators@ == administrators_of(state.grants@, k as int),
                        decreases state.grants.len() - k,
                    {
                        let grant = state.grants[k];
                        if grant.whole_tenant && grant.admin {
                            administrators.push(grant.principal);
                        }
                        k = k + 1;
                    }
                    return Ok(
                        Some(
                            RetiredSnapshot {
                                revision_base: state.revision_base,
                                revision: state.revision,
                                policy_epoch: state.policy_epoch,
                                administrators,
                                request: record.request,
                                receipt,
                            },
                        ),
                    );
                }
            },
            Err(_) => {},
        }
        i = i + 1;
    }
    Err(error(ErrorCode::Corruption, "retired snapshot has no accepted retirement"))
}

} // verus!
