//! What a target's response holds.
use vstd::prelude::*;

use crate::digest::Digest;
use crate::model::{
    DispatchOutcome, MaterializationProof, SignedActivation, SignedAttempt, SignedAttemptStatus,
    SignedCleanup, SignedCompletion, SignedInspection, SignedResolution, SignedTerminalStatus,
    TargetOutcome, TargetResponse,
};
use crate::rules;

verus! {

pub fn native(outcome: &Option<DispatchOutcome>) -> (r: Option<TargetResponse>)
    ensures
        r == rules::native(*outcome),
{
    proof {
        reveal(rules::native);
    }
    match outcome {
        Some(DispatchOutcome::Target(response)) => Some(response.open()),
        _ => None,
    }
}

pub fn started_by(outcome: &TargetOutcome) -> (r: Option<Digest>)
    ensures
        r == rules::started_by(*outcome),
{
    proof {
        reveal(rules::started_by);
    }
    match outcome {
        TargetOutcome::Started { origin_sha256 } => Some(*origin_sha256),
        _ => None,
    }
}

pub fn initialized_by(outcome: &TargetOutcome) -> (r: Option<Digest>)
    ensures
        r == rules::initialized_by(*outcome),
{
    proof {
        reveal(rules::initialized_by);
    }
    match outcome {
        TargetOutcome::Initialized { origin_sha256 } => Some(*origin_sha256),
        _ => None,
    }
}

pub fn materialized_by(outcome: &TargetOutcome) -> (r: Option<MaterializationProof>)
    ensures
        r == rules::materialized_by(*outcome),
{
    proof {
        reveal(rules::materialized_by);
    }
    match outcome {
        TargetOutcome::Materialized(signed) => Some(*signed),
        _ => None,
    }
}

pub fn prepared_by(outcome: &TargetOutcome) -> (r: Option<SignedAttempt>)
    ensures
        r == rules::prepared_by(*outcome),
{
    proof {
        reveal(rules::prepared_by);
    }
    match outcome {
        TargetOutcome::PreparedCompletion(signed) => Some(signed.open()),
        _ => None,
    }
}

pub fn attempt_status_by(outcome: &TargetOutcome) -> (r: Option<SignedAttemptStatus>)
    ensures
        r == rules::attempt_status_by(*outcome),
{
    proof {
        reveal(rules::attempt_status_by);
    }
    match outcome {
        TargetOutcome::CompletionAttemptStatus(signed) => Some(signed.open()),
        _ => None,
    }
}

pub fn resolved_by(outcome: &TargetOutcome) -> (r: Option<SignedResolution>)
    ensures
        r == rules::resolved_by(*outcome),
{
    proof {
        reveal(rules::resolved_by);
    }
    match outcome {
        TargetOutcome::ResolvedCompletion(signed) => Some(signed.open()),
        _ => None,
    }
}

pub fn terminal_status_by(outcome: &TargetOutcome) -> (r: Option<SignedTerminalStatus>)
    ensures
        r == rules::terminal_status_by(*outcome),
{
    proof {
        reveal(rules::terminal_status_by);
    }
    match outcome {
        TargetOutcome::CompletionTerminalStatus(signed) => Some(signed.open()),
        _ => None,
    }
}

pub fn completed_by(outcome: &TargetOutcome) -> (r: Option<SignedCompletion>)
    ensures
        r == rules::completed_by(*outcome),
{
    proof {
        reveal(rules::completed_by);
    }
    match outcome {
        TargetOutcome::Completed(signed) => Some(signed.open()),
        _ => None,
    }
}

pub fn inspected_by(outcome: &TargetOutcome) -> (r: Option<SignedInspection>)
    ensures
        r == rules::inspected_by(*outcome),
{
    proof {
        reveal(rules::inspected_by);
    }
    match outcome {
        TargetOutcome::Inspected(signed) => Some(signed.open()),
        _ => None,
    }
}

pub fn activated_by(outcome: &TargetOutcome) -> (r: Option<SignedActivation>)
    ensures
        r == rules::activated_by(*outcome),
{
    proof {
        reveal(rules::activated_by);
    }
    match outcome {
        TargetOutcome::Activated(signed) => Some(signed.open()),
        _ => None,
    }
}

pub fn stopped_by(outcome: &TargetOutcome) -> (r: Option<SignedCleanup>)
    ensures
        r == rules::stopped_by(*outcome),
{
    proof {
        reveal(rules::stopped_by);
    }
    match outcome {
        TargetOutcome::Stopped(signed) => Some(signed.open()),
        _ => None,
    }
}

} // verus!
