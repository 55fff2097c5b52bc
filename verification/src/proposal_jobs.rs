//! The registry of proposals in flight: a fixed number of slots, which outlive
//! their callers. A child that fails closes the registry for good.
use vstd::prelude::*;

use crate::errors;
use crate::errors::{error, Error, ErrorCode};

verus! {

pub const MAX_PROPOSALS: usize = 32;

/// What is seen of a slot's child.
#[derive(Clone, Copy, Debug, PartialEq, Eq, Structural)]
pub enum Observed {
    Running,
    Finished,
    /// Failed, with the number of the issue that it reports.
    Failed(u64),
}

/// How a child was drained.
#[derive(Clone, Copy, Debug, PartialEq, Eq, Structural)]
pub enum Drained {
    Finished,
    /// Failed and gone.
    Failed(u64),
    /// Failed and still retained.
    Retained(u64),
}

pub struct JobsView {
    /// The child of each slot.
    pub slots: Seq<Option<u64>>,
    /// Whether the registry's memory is reserved.
    pub reserved: bool,
    pub closed: bool,
    pub issues: Seq<u64>,
}

pub struct Jobs {
    slots: Vec<Option<u64>>,
    reserved: bool,
    closed: bool,
    issues: Vec<u64>,
}

impl View for Jobs {
    type V = JobsView;

    closed spec fn view(&self) -> JobsView {
        JobsView {
            slots: self.slots@,
            reserved: self.reserved,
            closed: self.closed,
            issues: self.issues@,
        }
    }
}

pub open spec fn with_issue(issues: Seq<u64>, issue: u64) -> Seq<u64> {
    if issues.contains(issue) {
        issues
    } else {
        issues.push(issue)
    }
}

/// What a registry comes to when its first `n` slots are observed. A finished child
/// leaves its slot; a failed one stays, is reported once, and closes the registry.
pub open spec fn observed(jobs: JobsView, seen: Seq<Observed>, n: int) -> JobsView
    decreases n,
{
    if n <= 0 {
        jobs
    } else {
        let before = observed(jobs, seen, n - 1);
        if jobs.slots[n - 1] is None {
            before
        } else {
            match seen[n - 1] {
                Observed::Running => before,
                Observed::Finished => JobsView {
                    slots: before.slots.update(n - 1, None),
                    ..before
                },
                Observed::Failed(issue) => JobsView {
                    closed: true,
                    issues: with_issue(before.issues, issue),
                    ..before
                },
            }
        }
    }
}

pub open spec fn closed_error() -> Error {
    errors::refusal(ErrorCode::Unavailable, "proposal work is closed; recovery required")
}

/// The first free slot from `i` on.
pub open spec fn free_slot(slots: Seq<Option<u64>>, i: int) -> Option<int>
    decreases slots.len() - i,
{
    if i < 0 || i >= slots.len() {
        None
    } else if slots[i] is None {
        Some(i)
    } else {
        free_slot(slots, i + 1)
    }
}

/// What reserving the registry's memory comes to, and is answered.
pub open spec fn reserved_for(jobs: JobsView, reservation: Result<(), Error>) -> (JobsView, Result<
    (),
    Error,
>) {
    if jobs.closed {
        (jobs, Err(closed_error()))
    } else if jobs.reserved {
        (jobs, Ok(()))
    } else {
        (JobsView { reserved: reservation is Ok, ..jobs }, reservation)
    }
}

/// Whether the registry's memory is given back.
pub open spec fn gives_back(jobs: JobsView, retained: bool) -> bool {
    !retained && jobs.issues.len() == 0
}

/// What starting a child comes to.
pub open spec fn started(jobs: JobsView, child: u64, custody: bool) -> Result<(JobsView, int), Error> {
    if jobs.closed {
        Err(closed_error())
    } else {
        match free_slot(jobs.slots, 0) {
            None => Err(
                errors::refusal(ErrorCode::ResourceExhausted, "proposal registry is full"),
            ),
            Some(at) => if !jobs.reserved {
                Err(
                    errors::refusal(
                        ErrorCode::Unavailable,
                        "proposal registry has no memory reservation",
                    ),
                )
            } else if !custody {
                Err(
                    errors::refusal(
                        ErrorCode::ResourceExhausted,
                        "proposal custody admission failed",
                    ),
                )
            } else {
                Ok((JobsView { slots: jobs.slots.update(at, Some(child)), ..jobs }, at))
            },
        }
    }
}

/// What a slot's drained child leaves: a retained failure keeps its slot.
pub open spec fn drained(jobs: JobsView, at: int, outcome: Drained) -> JobsView {
    match outcome {
        Drained::Finished => JobsView { slots: jobs.slots.update(at, None), ..jobs },
        Drained::Failed(issue) => JobsView {
            slots: jobs.slots.update(at, None),
            issues: with_issue(jobs.issues, issue),
            ..jobs
        },
        Drained::Retained(issue) => JobsView { issues: with_issue(jobs.issues, issue), ..jobs },
    }
}

impl Jobs {
    /// There are as many slots as there may be proposals.
    #[verifier::type_invariant]
    spec fn sized(self) -> bool {
        self.slots@.len() == MAX_PROPOSALS
    }

    pub fn new() -> (jobs: Self)
        ensures
            jobs@ == (JobsView {
                slots: Seq::new(MAX_PROPOSALS as nat, |i: int| None),
                reserved: false,
                closed: false,
                issues: Seq::empty(),
            }),
    {
        let mut slots: Vec<Option<u64>> = Vec::new();
        let mut i: usize = 0;
        while i < MAX_PROPOSALS
            invariant
                i <= MAX_PROPOSALS,
                slots@ == Seq::new(i as nat, |k: int| None::<u64>),
            decreases MAX_PROPOSALS - i,
        {
            slots.push(None);
            assert(slots@ =~= Seq::new((i + 1) as nat, |k: int| None::<u64>));
            i = i + 1;
        }
        let jobs = Jobs { slots, reserved: false, closed: false, issues: Vec::new() };
        assert(jobs@.issues =~= Seq::empty());
        jobs
    }

    fn report(issues: &mut Vec<u64>, issue: u64)
        ensures
            final(issues)@ == with_issue(old(issues)@, issue),
    {
        let mut i: usize = 0;
        while i < issues.len()
            invariant
                i <= issues.len(),
                issues@ == old(issues)@,
                forall|j: int| 0 <= j < i ==> issues@[j] != issue,
            decreases issues.len() - i,
        {
            if issues[i] == issue {
                assert(issues@[i as int] == issue);
                return;
            }
            i = i + 1;
        }
        issues.push(issue);
    }

    fn copy_slots(&self) -> (slots: Vec<Option<u64>>)
        ensures
            slots@ == self@.slots,
            slots.len() == MAX_PROPOSALS,
    {
        proof {
            use_type_invariant(self);
        }
        let mut slots: Vec<Option<u64>> = Vec::new();
        let mut k: usize = 0;
        while k < MAX_PROPOSALS
            invariant
                k <= MAX_PROPOSALS,
                self.slots@.len() == MAX_PROPOSALS,
                slots@ == self.slots@.take(k as int),
            decreases MAX_PROPOSALS - k,
        {
            slots.push(self.slots[k]);
            assert(self.slots@.take(k + 1) =~= self.slots@.take(k as int).push(
                self.slots@[k as int],
            ));
            k = k + 1;
        }
        assert(self.slots@.take(MAX_PROPOSALS as int) =~= self.slots@);
        slots
    }

    /// Takes note of what is seen of every slot's child.
    pub fn observe(&mut self, seen: &Vec<Observed>)
        requires
            seen.len() == MAX_PROPOSALS,
        ensures
            final(self)@ == observed(old(self)@, seen@, MAX_PROPOSALS as int),
    {
        proof {
            use_type_invariant(&*self);
        }
        let ghost start = self@;
        let reserved: bool = self.reserved;
        let mut closed: bool = self.closed;
        let mut slots = self.copy_slots();
        let mut issues: Vec<u64> = Vec::new();
        std::mem::swap(&mut issues, &mut self.issues);
        let mut i: usize = 0;
        while i < MAX_PROPOSALS
            invariant
                i <= MAX_PROPOSALS,
                seen.len() == MAX_PROPOSALS,
                start.slots.len() == MAX_PROPOSALS,
                slots@.len() == MAX_PROPOSALS,
                forall|j: int| i <= j < MAX_PROPOSALS ==> slots@[j] == start.slots[j],
                observed(start, seen@, i as int) == (JobsView {
                    slots: slots@,
                    reserved,
                    closed,
                    issues: issues@,
                }),
            decreases MAX_PROPOSALS - i,
        {
            if slots[i].is_some() {
                match seen[i] {
                    Observed::Running => {},
                    Observed::Finished => {
                        slots.set(i, None);
                    },
                    Observed::Failed(issue) => {
                        Self::report(&mut issues, issue);
                        closed = true;
                    },
                }
            }
            i = i + 1;
        }
        *self = Jobs { slots, reserved, closed, issues };
    }

    /// Whether more work is taken, behind what is seen of every slot's child.
    pub fn check(&mut self, seen: &Vec<Observed>) -> (r: Result<(), Error>)
        requires
            seen.len() == MAX_PROPOSALS,
        ensures
            final(self)@ == observed(old(self)@, seen@, MAX_PROPOSALS as int),
            r == if final(self)@.closed {
                Err::<(), Error>(closed_error())
            } else {
                Ok(())
            },
    {
        self.observe(seen);
        if self.closed {
            return Err(
                error(ErrorCode::Unavailable, "proposal work is closed; recovery required"),
            );
        }
        Ok(())
    }

    /// Reserves the registry's whole memory once, behind what is seen of every slot's
    /// child. `reservation` is what the node says to it, and is asked for only where
    /// nothing is reserved yet.
    pub fn prepare(&mut self, seen: &Vec<Observed>, reservation: Result<(), Error>) -> (r: Result<
        (),
        Error,
    >)
        requires
            seen.len() == MAX_PROPOSALS,
        ensures
            ({
                let jobs = observed(old(self)@, seen@, MAX_PROPOSALS as int);
                if jobs.closed {
                    r == Err::<(), Error>(closed_error()) && final(self)@ == jobs
                } else if jobs.reserved {
                    r is Ok && final(self)@ == jobs
                } else {
                    r == reservation && final(self)@ == (JobsView {
                        reserved: reservation is Ok,
                        ..jobs
                    })
                }
            }),
            (final(self)@, r) == reserved_for(
                observed(old(self)@, seen@, MAX_PROPOSALS as int),
                reservation,
            ),
    {
        self.observe(seen);
        proof {
            use_type_invariant(&*self);
        }
        if self.closed {
            return Err(
                error(ErrorCode::Unavailable, "proposal work is closed; recovery required"),
            );
        }
        if self.reserved {
            return Ok(());
        }
        if reservation.is_ok() {
            self.reserved = true;
        }
        reservation
    }

    /// Gives a child a slot, behind what is seen of every slot's child, and says which.
    /// `custody` says whether the child was taken into custody there.
    pub fn start(&mut self, seen: &Vec<Observed>, child: u64, custody: bool) -> (r: Result<
        usize,
        Error,
    >)
        requires
            seen.len() == MAX_PROPOSALS,
        ensures
            ({
                let seen_of = observed(old(self)@, seen@, MAX_PROPOSALS as int);
                match started(seen_of, child, custody) {
                    Err(e) => r == Err::<usize, Error>(e) && final(self)@ == seen_of,
                    Ok((jobs, at)) => final(self)@ == jobs && r is Ok && r->Ok_0 == at,
                }
            }),
    {
        self.observe(seen);
        let ghost seen_of = self@;
        proof {
            use_type_invariant(&*self);
        }
        if self.closed {
            return Err(
                error(ErrorCode::Unavailable, "proposal work is closed; recovery required"),
            );
        }
        let mut at: usize = 0;
        while at < MAX_PROPOSALS && self.slots[at].is_some()
            invariant
                at <= MAX_PROPOSALS,
                self@ == seen_of,
                self.slots@ == self@.slots,
                self.slots@.len() == MAX_PROPOSALS,
                free_slot(self.slots@, 0) == free_slot(self.slots@, at as int),
            decreases MAX_PROPOSALS - at,
        {
            at = at + 1;
        }
        if at == MAX_PROPOSALS {
            return Err(error(ErrorCode::ResourceExhausted, "proposal registry is full"));
        }
        if !self.reserved {
            return Err(
                error(ErrorCode::Unavailable, "proposal registry has no memory reservation"),
            );
        }
        if !custody {
            return Err(
                error(ErrorCode::ResourceExhausted, "proposal custody admission failed"),
            );
        }
        let mut slots = self.copy_slots();
        slots.set(at, Some(child));
        self.slots = slots;
        Ok(at)
    }

    /// Closes the registry: to drain it, or because a child did not complete.
    pub fn close(&mut self)
        ensures
            final(self)@ == (JobsView { closed: true, ..old(self)@ }),
    {
        proof {
            use_type_invariant(&*self);
        }
        self.closed = true;
    }

    /// Takes note of how a slot's child was drained, before the next is waited for.
    pub fn drained(&mut self, at: usize, outcome: Drained)
        requires
            at < MAX_PROPOSALS,
        ensures
            final(self)@ == drained(old(self)@, at as int, outcome),
    {
        proof {
            use_type_invariant(&*self);
        }
        let mut slots = self.copy_slots();
        let mut issues: Vec<u64> = Vec::new();
        std::mem::swap(&mut issues, &mut self.issues);
        match outcome {
            Drained::Finished => {
                slots.set(at, None);
            },
            Drained::Failed(issue) => {
                Self::report(&mut issues, issue);
                slots.set(at, None);
            },
            Drained::Retained(issue) => {
                Self::report(&mut issues, issue);
            },
        }
        self.slots = slots;
        self.issues = issues;
    }

    /// Gives the registry's memory back, unless something is retained or was
    /// reported, and says whether it did.
    pub fn release(&mut self, retained: bool) -> (released: bool)
        ensures
            released == (!retained && old(self)@.issues.len() == 0),
            released == gives_back(old(self)@, retained),
            final(self)@ == if released {
                JobsView { reserved: false, ..old(self)@ }
            } else {
                old(self)@
            },
    {
        proof {
            use_type_invariant(&*self);
        }
        if retained || self.issues.len() > 0 {
            return false;
        }
        self.reserved = false;
        true
    }
}

/// A registry that was closed takes no more work, whatever is seen of its children.
pub proof fn lemma_closed_for_good(jobs: JobsView, seen: Seq<Observed>, child: u64, custody: bool)
    requires
        jobs.closed,
        seen.len() == MAX_PROPOSALS,
        jobs.slots.len() == MAX_PROPOSALS,
    ensures
        observed(jobs, seen, MAX_PROPOSALS as int).closed,
        started(observed(jobs, seen, MAX_PROPOSALS as int), child, custody) is Err,
{
    lemma_stays_closed(jobs, seen, MAX_PROPOSALS as int);
}

proof fn lemma_stays_closed(jobs: JobsView, seen: Seq<Observed>, n: int)
    requires
        jobs.closed,
    ensures
        observed(jobs, seen, n).closed,
    decreases n,
{
    if n > 0 {
        lemma_stays_closed(jobs, seen, n - 1);
    }
}

/// What a caller that waits for its proposal is answered when it cannot be told the
/// result. The proposal itself goes on.
#[derive(Clone, Copy, Debug, PartialEq, Eq, Structural)]
pub enum WaitFailure {
    ChildFailed,
    ResponseLost,
    DeadlineExceeded,
}

pub fn wait_error(failure: WaitFailure) -> (e: Error)
    ensures
        e == errors::refusal(
            ErrorCode::UnknownOutcome,
            match failure {
                WaitFailure::ChildFailed => "write task failed; resolve or retry with the same idempotency key",
                WaitFailure::ResponseLost => "write result unavailable; resolve or retry with the same idempotency key",
                WaitFailure::DeadlineExceeded => "write deadline exceeded; resolve or retry with the same idempotency key",
            },
        ),
{
    match failure {
        WaitFailure::ChildFailed => error(
            ErrorCode::UnknownOutcome,
            "write task failed; resolve or retry with the same idempotency key",
        ),
        WaitFailure::ResponseLost => error(
            ErrorCode::UnknownOutcome,
            "write result unavailable; resolve or retry with the same idempotency key",
        ),
        WaitFailure::DeadlineExceeded => error(
            ErrorCode::UnknownOutcome,
            "write deadline exceeded; resolve or retry with the same idempotency key",
        ),
    }
}

} // verus!
