//! The closed administrative service of a retired source: its commands and its
//! audited observations, between the quorum barriers that they wait for.
use vstd::prelude::*;

use crate::custody;
use crate::custody::{
    check_receipt, observe_retirement, retirement_response_fence, CustodyCaller, CustodyReceipt,
    CustodyView, ResponseFence, RetirementProof, RetirementReceipt, RetirementRef,
    RetirementStatus,
};
use crate::digest::{Digest, Name};
use crate::errors;
use crate::errors::{conflict, error, Error, ErrorCode};

verus! {

pub open spec fn unavailable() -> Error {
    errors::refusal(ErrorCode::Unavailable, "retired source custody requires recovery")
}

pub open spec fn unknown() -> Error {
    errors::refusal(
        ErrorCode::UnknownOutcome,
        "custody command acknowledgement unavailable; recover its exact permanent identity with current authority",
    )
}

fn unacknowledged() -> (e: Error)
    ensures
        e == unknown(),
{
    error(
        ErrorCode::UnknownOutcome,
        "custody command acknowledgement unavailable; recover its exact permanent identity with current authority",
    )
}

/// Who a retired source is: its tenant and its incarnation.
pub fn identity(view: &CustodyView) -> (r: (Name, u128))
    ensures
        r == (view.retirement.tenant, view.retirement.source_incarnation),
{
    (view.retirement.tenant, view.retirement.source_incarnation)
}

pub open spec fn checked(caller: CustodyCaller, closing: bool) -> Result<(), Error> {
    if closing {
        Err(unavailable())
    } else if caller.live_refusal is Some {
        Err(caller.live_refusal->0)
    } else if caller.policy_refusal is Some {
        Err(caller.policy_refusal->0)
    } else {
        Ok(())
    }
}

/// Whether the caller administers custody, which is not closing.
pub fn check(caller: &CustodyCaller, closing: bool) -> (r: Result<(), Error>)
    ensures
        r == checked(*caller, closing),
{
    if closing {
        return Err(error(ErrorCode::Unavailable, "retired source custody requires recovery"));
    }
    match caller.live_refusal {
        Some(refusal) => return Err(refusal),
        None => {},
    }
    match caller.policy_refusal {
        Some(refusal) => return Err(refusal),
        None => {},
    }
    Ok(())
}

pub open spec fn is_denial(refusal: Error, recorded: bool) -> bool {
    !recorded && (refusal.code == ErrorCode::Unauthorized || refusal.code == ErrorCode::Forbidden
        || refusal.code == ErrorCode::Sealed)
}

/// Whether a refusal goes on record as a denial: one of access that was not recorded
/// yet.
pub fn records_denial(refusal: &Error, recorded: bool) -> (b: bool)
    ensures
        b == (!recorded && (refusal.code == ErrorCode::Unauthorized || refusal.code
            == ErrorCode::Forbidden || refusal.code == ErrorCode::Sealed)),
        b == is_denial(*refusal, recorded),
{
    !recorded && (refusal.code == ErrorCode::Unauthorized || refusal.code == ErrorCode::Forbidden
        || refusal.code == ErrorCode::Sealed)
}

// ---------------------------------------------------------------------
// Commands
// ---------------------------------------------------------------------

/// What goes on record of an administrative command.
#[derive(Clone, Copy, Debug, PartialEq, Eq, Structural)]
pub enum SecurityOutcome {
    Succeeded,
    Failed,
}

/// What goes on record of a command with a permanent receipt: that it succeeded, or that
/// it was refused for good.
pub fn administered(receipt: &CustodyReceipt) -> (outcome: SecurityOutcome)
    ensures
        outcome == match receipt.outcome {
            Ok(()) => SecurityOutcome::Succeeded,
            Err(_) => SecurityOutcome::Failed,
        },
{
    match receipt.outcome {
        Ok(()) => SecurityOutcome::Succeeded,
        Err(_) => SecurityOutcome::Failed,
    }
}

/// Whether a command waits for the quorum: the caller administers custody, and the
/// command's form is not refused.
pub fn check_request(caller: &CustodyCaller, closing: bool, request_refusal: Option<Error>) -> (r: Result<
    (),
    Error,
>)
    ensures
        r == match checked(*caller, closing) {
            Err(e) => Err::<(), Error>(e),
            Ok(()) => if request_refusal is Some {
                Err(request_refusal->0)
            } else {
                Ok(())
            },
        },
{
    check(caller, closing)?;
    match request_refusal {
        Some(refusal) => Err(refusal),
        None => Ok(()),
    }
}

/// What a command is admitted by, at its turn: what the node refuses, what the clock
/// says, and what refuses the credential at that time.
#[derive(Clone, Copy, Debug)]
pub struct CommandTurn {
    pub node_refusal: Option<Error>,
    pub clock_ms: Result<u64, Error>,
    pub admitted_refusal: Option<Error>,
}

pub open spec fn command_admitted(caller: CustodyCaller, turn: CommandTurn) -> Result<u64, Error> {
    if turn.node_refusal is Some {
        Err(turn.node_refusal->0)
    } else if caller.live_refusal is Some {
        Err(caller.live_refusal->0)
    } else if caller.policy_refusal is Some {
        Err(caller.policy_refusal->0)
    } else {
        match turn.clock_ms {
            Err(e) => Err(e),
            Ok(now) => if turn.admitted_refusal is Some {
                Err(turn.admitted_refusal->0)
            } else {
                Ok(now)
            },
        }
    }
}

/// When a command is admitted, at its turn behind the commands before it. One that
/// is refused here was not proposed.
pub fn admit_command(caller: &CustodyCaller, turn: &CommandTurn) -> (r: Result<u64, Error>)
    ensures
        r == command_admitted(*caller, *turn),
{
    match turn.node_refusal {
        Some(refusal) => return Err(refusal),
        None => {},
    }
    match caller.live_refusal {
        Some(refusal) => return Err(refusal),
        None => {},
    }
    match caller.policy_refusal {
        Some(refusal) => return Err(refusal),
        None => {},
    }
    let now: u64 = match turn.clock_ms {
        Err(refusal) => return Err(refusal),
        Ok(now) => now,
    };
    match turn.admitted_refusal {
        Some(refusal) => return Err(refusal),
        None => {},
    }
    Ok(now)
}

/// What came of a command that was handed over: nothing that is known, a refusal
/// before it was proposed, or its permanent receipt.
#[derive(Clone, Copy, Debug)]
pub enum Proposed {
    Lost,
    Refused(Error),
    Accepted(CustodyReceipt),
}

pub open spec fn executed(proposed: Proposed, release: Result<(), Error>) -> Result<
    CustodyReceipt,
    Error,
> {
    match proposed {
        Proposed::Lost => Err(unknown()),
        Proposed::Refused(refusal) => Err(refusal),
        Proposed::Accepted(receipt) => match release {
            Err(_) => Err(unknown()),
            Ok(()) => Ok(receipt),
        },
    }
}

/// What a command is answered. An accepted command whose response cannot be released
/// is unknown to its caller, never refused: its effect stands.
pub fn execute(proposed: &Proposed, release: Result<(), Error>) -> (r: Result<CustodyReceipt, Error>)
    ensures
        r == executed(*proposed, release),
{
    match *proposed {
        Proposed::Lost => Err(unacknowledged()),
        Proposed::Refused(refusal) => Err(refusal),
        Proposed::Accepted(receipt) => match release {
            Err(_) => Err(unacknowledged()),
            Ok(()) => Ok(receipt),
        },
    }
}

/// An accepted command is never answered with a refusal: either its receipt is
/// released, or its outcome is unknown.
pub proof fn lemma_accepted_stands(receipt: CustodyReceipt, release: Result<(), Error>)
    ensures
        match executed(Proposed::Accepted(receipt), release) {
            Ok(answered) => answered == receipt,
            Err(e) => e.code == ErrorCode::UnknownOutcome,
        },
{
}

/// What is told of a receipt that was read, or of its absence.
pub open spec fn receipt_told(
    found: Option<CustodyReceipt>,
    receipt_refusal: Option<Error>,
    command_id: Name,
    request_digest: Digest,
    view: CustodyView,
    caller: CustodyCaller,
    closing: bool,
) -> Result<Option<CustodyReceipt>, Error> {
    match checked(caller, closing) {
        Err(e) => Err(e),
        Ok(()) => match found {
            None => Ok(None),
            Some(receipt) => if receipt_refusal is Some {
                Err(receipt_refusal->0)
            } else {
                match custody::receipt_holds(receipt, command_id, request_digest, view) {
                    Err(e) => Err(e),
                    Ok(()) => Ok(Some(receipt)),
                }
            },
        },
    }
}

/// The receipt of an exact permanent command, as it was read, if there is one. What
/// refuses the receipt's form, if anything, is carried with it.
pub fn receipt(
    found: Option<CustodyReceipt>,
    receipt_refusal: Option<Error>,
    command_id: Name,
    request_digest: Digest,
    view: &CustodyView,
    caller: &CustodyCaller,
    closing: bool,
) -> (r: Result<Option<CustodyReceipt>, Error>)
    ensures
        r == match checked(*caller, closing) {
            Err(e) => Err(e),
            Ok(()) => match found {
                None => Ok(None),
                Some(receipt) => if receipt_refusal is Some {
                    Err(receipt_refusal->0)
                } else {
                    match custody::receipt_holds(receipt, command_id, request_digest, *view) {
                        Err(e) => Err(e),
                        Ok(()) => Ok(Some(receipt)),
                    }
                },
            },
        },
        r == receipt_told(
            found,
            receipt_refusal,
            command_id,
            request_digest,
            *view,
            *caller,
            closing,
        ),
{
    check(caller, closing)?;
    match found {
        None => Ok(None),
        Some(receipt) => {
            match receipt_refusal {
                Some(refusal) => return Err(refusal),
                None => {},
            }
            check_receipt(&receipt, command_id, request_digest, view)?;
            Ok(Some(receipt))
        },
    }
}

// ---------------------------------------------------------------------
// Observations
// ---------------------------------------------------------------------

/// How far an observation is.
#[derive(Clone, Copy, Debug)]
pub enum ObservationPhase {
    /// Fenced; a quorum barrier follows.
    Fenced,
    /// Observed behind the barrier; the audit record follows.
    Observed(RetirementStatus),
    /// On record; a second barrier follows, so that a stalled audit cannot release
    /// from an isolated leader.
    Audited(RetirementStatus),
}

/// An audited observation of a retirement.
#[derive(Clone, Copy, Debug)]
pub struct Observation {
    pub fence: ResponseFence,
    pub phase: ObservationPhase,
}

/// What an observation puts on record.
#[derive(Clone, Copy, Debug, PartialEq, Eq, Structural)]
pub struct ObservationRecord {
    pub source_incarnation: u128,
    pub retirement_id: Name,
    pub request_digest: Digest,
    pub source_revision: u64,
    pub custody_policy_epoch: u64,
}

pub open spec fn record_of(receipt: RetirementReceipt, policy_epoch: u64) -> ObservationRecord {
    ObservationRecord {
        source_incarnation: receipt.source_incarnation,
        retirement_id: receipt.retirement_id,
        request_digest: receipt.request_digest,
        source_revision: receipt.revision,
        custody_policy_epoch: policy_epoch,
    }
}

pub open spec fn status_of(view: CustodyView, reference: RetirementRef) -> RetirementStatus {
    RetirementStatus {
        tenant: view.retirement.tenant,
        principal: view.retirement.principal,
        reference,
        accepted_revision: view.retirement.revision,
        receipt: view.retirement,
    }
}

impl Observation {
    /// Fences an observation.
    pub fn begin(
        view: &CustodyView,
        caller: &CustodyCaller,
        closing: bool,
        node_refusal: Option<Error>,
        invocation: Option<RetirementProof>,
    ) -> (r: Result<Self, Error>)
        ensures
            r == if closing {
                Err::<Self, Error>(unavailable())
            } else if caller.live_refusal is Some {
                Err(caller.live_refusal->0)
            } else if node_refusal is Some {
                Err(node_refusal->0)
            } else {
                match custody::observable(*view, *caller, invocation) {
                    Err(e) => Err(e),
                    Ok(()) => Ok(
                        Observation {
                            fence: ResponseFence { policy_epoch: view.policy_epoch, invocation },
                            phase: ObservationPhase::Fenced,
                        },
                    ),
                }
            },
    {
        let fence = ResponseFence::observe(view, caller, closing, node_refusal, invocation)?;
        Ok(Observation { fence, phase: ObservationPhase::Fenced })
    }

    /// What is observed behind the barrier, and put on record.
    pub fn observed(
        &mut self,
        view: &CustodyView,
        caller: &CustodyCaller,
        reference: &RetirementRef,
        reference_refusal: Option<Error>,
    ) -> (r: Result<ObservationRecord, Error>)
        requires
            old(self).phase is Fenced,
        ensures
            final(self).fence == old(self).fence,
            match custody::observable(*view, *caller, old(self).fence.invocation) {
                Err(e) => r == Err::<ObservationRecord, Error>(e) && *final(self) == *old(self),
                Ok(()) => if reference_refusal is Some {
                    r == Err::<ObservationRecord, Error>(reference_refusal->0) && *final(self)
                        == *old(self)
                } else if *reference != view.reference {
                    r == Err::<ObservationRecord, Error>(
                        errors::refusal(ErrorCode::Conflict, "retired source identity differs"),
                    ) && *final(self) == *old(self)
                } else {
                    &&& r == Ok::<ObservationRecord, Error>(
                        record_of(view.retirement, view.policy_epoch),
                    )
                    &&& final(self).phase == ObservationPhase::Observed(
                        status_of(*view, *reference),
                    )
                },
            },
    {
        let status = observe_retirement(
            view,
            caller,
            reference,
            reference_refusal,
            self.fence.invocation,
        )?;
        self.phase = ObservationPhase::Observed(status);
        Ok(
            ObservationRecord {
                source_incarnation: view.retirement.source_incarnation,
                retirement_id: view.retirement.retirement_id,
                request_digest: view.retirement.request_digest,
                source_revision: view.retirement.revision,
                custody_policy_epoch: view.policy_epoch,
            },
        )
    }

    /// The observation is on record.
    pub fn audited(&mut self)
        requires
            old(self).phase is Observed,
        ensures
            final(self).fence == old(self).fence,
            final(self).phase == ObservationPhase::Audited(old(self).phase->Observed_0),
    {
        match self.phase {
            ObservationPhase::Observed(status) => {
                self.phase = ObservationPhase::Audited(status);
            },
            _ => {},
        }
    }

    pub open spec fn release_of(
        self,
        view: CustodyView,
        caller: CustodyCaller,
        node_refusal: Option<Error>,
    ) -> Result<Option<RetirementStatus>, Error> {
        match self.phase {
            ObservationPhase::Audited(status) => match custody::fence_holds(
                self.fence,
                view,
                caller,
                node_refusal,
            ) {
                Err(e) => Err(e),
                Ok(()) => Ok(Some(status)),
            },
            _ => Ok(None),
        }
    }

    /// What is released behind the second barrier. Nothing is that is not on record.
    pub fn release(&self, view: &CustodyView, caller: &CustodyCaller, node_refusal: Option<Error>) -> (r:
        Result<Option<RetirementStatus>, Error>)
        ensures
            r == self.release_of(*view, *caller, node_refusal),
    {
        match self.phase {
            ObservationPhase::Audited(status) => {
                self.fence.check(view, caller, node_refusal)?;
                Ok(Some(status))
            },
            _ => Ok(None),
        }
    }
}

/// What is released was authorized when it was fenced and still is, under the same
/// custody policy.
pub proof fn lemma_released_under_one_policy(
    observation: Observation,
    view: CustodyView,
    caller: CustodyCaller,
    node_refusal: Option<Error>,
)
    requires
        observation.release_of(view, caller, node_refusal) matches Ok(Some(_)),
    ensures
        view.policy_epoch == observation.fence.policy_epoch,
        custody::observable(view, caller, observation.fence.invocation) is Ok,
        caller.live_refusal is None,
{
}

/// The current custody, as it is told an administrator.
pub struct CustodyStatus {
    pub retirement: RetirementRef,
    pub revision: u64,
    pub policy_epoch: u64,
    pub administrators: Vec<Name>,
    pub limits_sha256: Digest,
}

fn copy_names(names: &Vec<Name>) -> (copy: Vec<Name>)
    ensures
        copy@ == names@,
{
    let mut copy: Vec<Name> = Vec::new();
    let mut i: usize = 0;
    while i < names.len()
        invariant
            i <= names.len(),
            copy@ == names@.take(i as int),
        decreases names.len() - i,
    {
        copy.push(names[i]);
        assert(names@.take(i + 1) =~= names@.take(i as int).push(names@[i as int]));
        i = i + 1;
    }
    assert(names@.take(i as int) =~= names@);
    copy
}

/// The current custody behind an observation of the retirement.
pub fn status(
    view: &CustodyView,
    caller: &CustodyCaller,
    closing: bool,
    fence: &ResponseFence,
    node_refusal: Option<Error>,
) -> (r: Result<CustodyStatus, Error>)
    ensures
        match checked(*caller, closing) {
            Err(e) => r == Err::<CustodyStatus, Error>(e),
            Ok(()) => match custody::fence_holds(*fence, *view, *caller, node_refusal) {
                Err(e) => r == Err::<CustodyStatus, Error>(e),
                Ok(()) => {
                    &&& r is Ok
                    &&& r->Ok_0.retirement == view.reference
                    &&& r->Ok_0.revision == view.revision
                    &&& r->Ok_0.policy_epoch == view.policy_epoch
                    &&& r->Ok_0.administrators@ == view.administrators@
                    &&& r->Ok_0.limits_sha256 == view.limits_sha256
                },
            },
        },
{
    check(caller, closing)?;
    fence.check(view, caller, node_refusal)?;
    Ok(
        CustodyStatus {
            retirement: view.reference,
            revision: view.revision,
            policy_epoch: view.policy_epoch,
            administrators: copy_names(&view.administrators),
            limits_sha256: view.limits_sha256,
        },
    )
}

/// The proof of the caller's own accepted retirement, which carries its authority
/// into its observation. It is made only of the submission that was accepted.
pub fn accepted_retirement_invocation(view: &CustodyView, reference: &RetirementRef) -> (r: Result<
    RetirementProof,
    Error,
>)
    ensures
        r == if *reference != view.reference {
            Err::<RetirementProof, Error>(
                errors::refusal(ErrorCode::Conflict, "accepted retirement identity differs"),
            )
        } else {
            Ok(RetirementProof { receipt: view.retirement, accepted_invocation: true })
        },
{
    if *reference != view.reference {
        return Err(conflict("accepted retirement identity differs"));
    }
    Ok(RetirementProof { receipt: view.retirement, accepted_invocation: true })
}

/// The proof that an observed retirement makes, if its fence holds. It carries no
/// authority of its own.
pub fn verify_retirement_receipt(
    released: &RetirementStatus,
    view: &CustodyView,
    caller: &CustodyCaller,
    closing: bool,
    node_refusal: Option<Error>,
) -> (r: Result<RetirementProof, Error>)
    ensures
        r == if closing {
            Err::<RetirementProof, Error>(unavailable())
        } else if caller.live_refusal is Some {
            Err(caller.live_refusal->0)
        } else if node_refusal is Some {
            Err(node_refusal->0)
        } else {
            match custody::observable(*view, *caller, None) {
                Err(e) => Err(e),
                Ok(()) => if view.retirement != released.receipt {
                    Err(errors::refusal(ErrorCode::Conflict, "retirement proof differs"))
                } else {
                    Ok(
                        RetirementProof { receipt: released.receipt, accepted_invocation: false },
                    )
                },
            }
        },
{
    let shown = RetirementProof { receipt: released.receipt, accepted_invocation: false };
    retirement_response_fence(view, caller, closing, node_refusal, &shown)?;
    Ok(shown)
}

} // verus!
