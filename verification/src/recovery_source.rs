//! Source retirement and issuer fencing preserve the exact original resource and
//! epoch. Receipts are retained history; the installed coordinator obtains
//! planned retirement evidence through an independent native source.
use vstd::prelude::*;

use crate::activation_rules;
use crate::errors::{conflict, Error};
use crate::model::{
    AuthorityAction, RecoveryPhase, RecoveryRecord, RetireSourceRequest, RetirementReceipt,
    SourceMode,
};
use crate::recovery_lookup::target;

verus! {

pub fn issuer_action(operation: &RecoveryRecord, phase: RecoveryPhase) -> (r: Result<
    AuthorityAction,
    Error,
>)
    ensures
        r == activation_rules::issuer_action(*operation, phase),
{
    proof {
        reveal(activation_rules::issuer_action);
    }
    let request = &operation.request;
    match phase {
        RecoveryPhase::Prepare => Ok(
            AuthorityAction::PrepareTarget {
                source_incarnation: request.source_incarnation,
                source_epoch: request.source_authority_epoch,
                target: target(request),
            },
        ),
        RecoveryPhase::StopTarget => Ok(
            AuthorityAction::StopTarget {
                source_incarnation: request.source_incarnation,
                source_epoch: request.source_authority_epoch,
                target: target(request),
            },
        ),
        RecoveryPhase::FenceSource => Ok(
            AuthorityAction::Fence {
                incarnation: request.source_incarnation,
                authority_epoch: request.source_authority_epoch,
            },
        ),
        _ => Err(conflict("recovery issuer dispatch phase differs")),
    }
}

pub fn retirement_request(operation: &RecoveryRecord) -> (r: Result<RetireSourceRequest, Error>)
    ensures
        r == activation_rules::retirement_request(*operation),
{
    proof {
        reveal(activation_rules::retirement_request);
    }
    match operation.request.source_mode {
        SourceMode::Planned { retirement } => Ok(retirement),
        SourceMode::SourceUnavailable => Err(
            conflict("source-unavailable recovery cannot claim planned retirement evidence"),
        ),
    }
}

pub fn validate_retirement(operation: &RecoveryRecord, receipt: &RetirementReceipt) -> (r: Result<
    (),
    Error,
>)
    ensures
        r == activation_rules::retirement(*operation, *receipt),
{
    proof {
        reveal(activation_rules::retirement);
    }
    let request = retirement_request(operation)?;
    if receipt.tenant != operation.request.tenant || receipt.source_incarnation
        != request.source_incarnation || receipt.retirement_id != request.retirement_id
        || receipt.request_digest != request.request_digest || receipt.target_incarnation
        != request.target_incarnation || receipt.checkpoint != request.checkpoint
        || receipt.admitted_at_ms > request.not_after_ms {
        return Err(conflict("planned source retirement evidence differs"));
    }
    Ok(())
}

} // verus!
