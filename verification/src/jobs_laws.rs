//! What the registry of proposals promises: a child keeps its slot until it has ended, a
//! failure is reported once and closes the registry, and a new child gets the first slot
//! that is free. And what one slot for a blocking child does.
use vstd::prelude::*;

use crate::blocking_child;
use crate::blocking_child::{ChildEnd, ChildView, Completion};
use crate::errors;
use crate::errors::{Error, ErrorCode};
use crate::proposal_jobs;
use crate::proposal_jobs::{Drained, JobsView, Observed};

verus! {

/// Whether the slot's child is seen to have failed with the issue.
pub open spec fn fails(jobs: JobsView, seen: Seq<Observed>, k: int, issue: u64) -> bool {
    jobs.slots[k] is Some && seen[k] == Observed::Failed(issue)
}

/// Whether some child among the first `n` slots is seen to have failed with the issue.
pub open spec fn failed_among(jobs: JobsView, seen: Seq<Observed>, n: int, issue: u64) -> bool {
    exists|k: int| 0 <= k < n && #[trigger] fails(jobs, seen, k, issue)
}

/// Whether the second begins with the first.
pub open spec fn extends(before: Seq<u64>, after: Seq<u64>) -> bool {
    &&& before.len() <= after.len()
    &&& forall|i: int| 0 <= i < before.len() ==> #[trigger] after[i] == before[i]
}

/// An issue is reported behind those that stand, and none is reported twice.
pub proof fn lemma_reported(issues: Seq<u64>, issue: u64)
    ensures
        ({
            let after = proposal_jobs::with_issue(issues, issue);
            &&& extends(issues, after)
            &&& after.contains(issue)
            &&& forall|other: u64| #[trigger]
                after.contains(other) <==> issues.contains(other) || other == issue
            &&& issues.no_duplicates() ==> after.no_duplicates()
            &&& issues.contains(issue) ==> after == issues
        }),
{
    let after = proposal_jobs::with_issue(issues, issue);
    if !issues.contains(issue) {
        assert(after[issues.len() as int] == issue);
        assert forall|other: u64| #[trigger]
            after.contains(other) <==> issues.contains(other) || other == issue by {
            if issues.contains(other) {
                let i = issues.index_of(other);
                assert(after[i] == other);
            }
            if after.contains(other) && other != issue {
                let i = after.index_of(other);
                assert(issues[i] == other);
            }
        }
    }
}

proof fn lemma_observed_some(jobs: JobsView, seen: Seq<Observed>, n: int)
    requires
        0 <= n <= jobs.slots.len(),
    ensures
        ({
            let after = proposal_jobs::observed(jobs, seen, n);
            &&& after.slots.len() == jobs.slots.len()
            &&& after.reserved == jobs.reserved
            &&& forall|k: int|
                0 <= k < jobs.slots.len() ==> #[trigger] after.slots[k] == if k < n && seen[k]
                    is Finished {
                    None
                } else {
                    jobs.slots[k]
                }
            &&& after.closed <==> jobs.closed || exists|issue: u64| #[trigger]
                failed_among(jobs, seen, n, issue)
            &&& extends(jobs.issues, after.issues)
            &&& forall|issue: u64| #[trigger]
                after.issues.contains(issue) <==> jobs.issues.contains(issue) || failed_among(
                    jobs,
                    seen,
                    n,
                    issue,
                )
            &&& jobs.issues.no_duplicates() ==> after.issues.no_duplicates()
        }),
    decreases n,
{
    let after = proposal_jobs::observed(jobs, seen, n);
    if n > 0 {
        let before = proposal_jobs::observed(jobs, seen, n - 1);
        lemma_observed_some(jobs, seen, n - 1);
        assert forall|issue: u64| #[trigger]
            failed_among(jobs, seen, n, issue) <==> failed_among(jobs, seen, n - 1, issue) || fails(
                jobs,
                seen,
                n - 1,
                issue,
            ) by {
            if failed_among(jobs, seen, n - 1, issue) {
                let k = choose|k: int| 0 <= k < n - 1 && #[trigger] fails(jobs, seen, k, issue);
                assert(fails(jobs, seen, k, issue));
            }
        }
        assert(forall|issue: u64|
            #![trigger failed_among(jobs, seen, n - 1, issue)]
            failed_among(jobs, seen, n - 1, issue) ==> failed_among(jobs, seen, n, issue));
        if jobs.slots[n - 1] is Some {
            match seen[n - 1] {
                Observed::Failed(issue) => {
                    lemma_reported(before.issues, issue);
                    assert(fails(jobs, seen, n - 1, issue));
                    assert(failed_among(jobs, seen, n, issue));
                },
                _ => {},
            }
        }
    }
}

/// Once every slot was observed, a slot is free exactly if it was or its child has
/// finished, and else keeps its child; the registry is closed exactly if it was or a child
/// has failed; and the issues are those that stood and those of the children that failed,
/// each of them once. What is reserved stays so.
pub proof fn lemma_observed(jobs: JobsView, seen: Seq<Observed>)
    requires
        seen.len() == jobs.slots.len(),
    ensures
        ({
            let after = proposal_jobs::observed(jobs, seen, jobs.slots.len() as int);
            &&& after.slots.len() == jobs.slots.len()
            &&& after.reserved == jobs.reserved
            &&& forall|k: int|
                0 <= k < jobs.slots.len() ==> #[trigger] after.slots[k] == if seen[k] is Finished {
                    None
                } else {
                    jobs.slots[k]
                }
            &&& after.closed <==> jobs.closed || exists|issue: u64| #[trigger]
                failed_among(jobs, seen, jobs.slots.len() as int, issue)
            &&& extends(jobs.issues, after.issues)
            &&& forall|issue: u64| #[trigger]
                after.issues.contains(issue) <==> jobs.issues.contains(issue) || failed_among(
                    jobs,
                    seen,
                    jobs.slots.len() as int,
                    issue,
                )
            &&& jobs.issues.no_duplicates() ==> after.issues.no_duplicates()
        }),
{
    lemma_observed_some(jobs, seen, jobs.slots.len() as int);
}

proof fn lemma_free(slots: Seq<Option<u64>>, i: int)
    requires
        0 <= i <= slots.len(),
    ensures
        match proposal_jobs::free_slot(slots, i) {
            None => forall|k: int| i <= k < slots.len() ==> #[trigger] slots[k] is Some,
            Some(at) => {
                &&& i <= at < slots.len()
                &&& slots[at] is None
                &&& forall|k: int| i <= k < at ==> #[trigger] slots[k] is Some
            },
        },
    decreases slots.len() - i,
{
    if i < slots.len() && slots[i] is Some {
        lemma_free(slots, i + 1);
    }
}

/// Whether some slot is free.
pub open spec fn has_room(slots: Seq<Option<u64>>) -> bool {
    exists|k: int| 0 <= k < slots.len() && #[trigger] slots[k] is None
}

/// A child is started exactly in an open registry that has room and whose memory is
/// reserved, once it is in custody. It takes the first free slot, and nothing else
/// changes. A registry that is closed says so before anything else, and one that is full
/// before anything of its memory.
pub proof fn lemma_started(jobs: JobsView, child: u64, custody: bool)
    ensures
        proposal_jobs::started(jobs, child, custody) is Ok <==> !jobs.closed && has_room(jobs.slots)
            && jobs.reserved && custody,
        match proposal_jobs::started(jobs, child, custody) {
            Ok((after, at)) => {
                &&& 0 <= at < jobs.slots.len()
                &&& jobs.slots[at] is None
                &&& forall|k: int| 0 <= k < at ==> #[trigger] jobs.slots[k] is Some
                &&& after.slots.len() == jobs.slots.len()
                &&& after.slots[at] == Some(child)
                &&& forall|k: int|
                    0 <= k < jobs.slots.len() && k != at ==> #[trigger] after.slots[k]
                        == jobs.slots[k]
                &&& after.reserved && !after.closed && after.issues == jobs.issues
            },
            Err(e) => {
                &&& jobs.closed ==> e == errors::refusal(
                    ErrorCode::Unavailable,
                    "proposal work is closed; recovery required",
                )
                &&& !jobs.closed && !has_room(jobs.slots) ==> e == errors::refusal(
                    ErrorCode::ResourceExhausted,
                    "proposal registry is full",
                )
                &&& !jobs.closed && has_room(jobs.slots) && !jobs.reserved ==> e
                    == errors::refusal(
                    ErrorCode::Unavailable,
                    "proposal registry has no memory reservation",
                )
                &&& !jobs.closed && has_room(jobs.slots) && jobs.reserved ==> e
                    == errors::refusal(
                    ErrorCode::ResourceExhausted,
                    "proposal custody admission failed",
                )
            },
        },
{
    lemma_free(jobs.slots, 0);
}

/// A drained child leaves its slot unless it failed and is retained, a failure is
/// reported, and no other slot changes. Draining opens nothing and gives nothing back.
pub proof fn lemma_drained(jobs: JobsView, at: int, outcome: Drained)
    requires
        0 <= at < jobs.slots.len(),
    ensures
        ({
            let after = proposal_jobs::drained(jobs, at, outcome);
            &&& after.closed == jobs.closed
            &&& after.reserved == jobs.reserved
            &&& after.slots.len() == jobs.slots.len()
            &&& forall|k: int|
                0 <= k < jobs.slots.len() && k != at ==> #[trigger] after.slots[k]
                    == jobs.slots[k]
            &&& after.slots[at] == if outcome is Retained {
                jobs.slots[at]
            } else {
                None
            }
            &&& extends(jobs.issues, after.issues)
            &&& forall|issue: u64| #[trigger]
                after.issues.contains(issue) <==> jobs.issues.contains(issue) || outcome
                    == Drained::Failed(issue) || outcome == Drained::Retained(issue)
        }),
{
    match outcome {
        Drained::Finished => {},
        Drained::Failed(issue) => lemma_reported(jobs.issues, issue),
        Drained::Retained(issue) => lemma_reported(jobs.issues, issue),
    }
}

/// A child that was started stays in its slot, whatever is seen of the others, until it
/// is itself seen to have finished.
pub proof fn lemma_kept(jobs: JobsView, child: u64, seen: Seq<Observed>)
    requires
        seen.len() == jobs.slots.len(),
        proposal_jobs::started(jobs, child, true) is Ok,
    ensures
        ({
            let (running, at) = proposal_jobs::started(jobs, child, true)->Ok_0;
            let after = proposal_jobs::observed(running, seen, jobs.slots.len() as int);
            after.slots[at] == if seen[at] is Finished {
                None
            } else {
                Some(child)
            }
        }),
{
    lemma_started(jobs, child, true);
    let (running, at) = proposal_jobs::started(jobs, child, true)->Ok_0;
    lemma_observed(running, seen);
}

/// The registry's memory is reserved once, and only while it is open; what the node says to
/// it is what is answered. Nothing else changes.
pub proof fn lemma_reserved(jobs: JobsView, reservation: Result<(), Error>)
    ensures
        ({
            let (after, r) = proposal_jobs::reserved_for(jobs, reservation);
            &&& r is Ok <==> !jobs.closed && (jobs.reserved || reservation is Ok)
            &&& jobs.closed ==> r == Err::<(), Error>(
                errors::refusal(
                    ErrorCode::Unavailable,
                    "proposal work is closed; recovery required",
                ),
            )
            &&& !jobs.closed && !jobs.reserved ==> r == reservation
            &&& after.reserved <==> jobs.reserved || r is Ok
            &&& after.slots == jobs.slots
            &&& after.closed == jobs.closed
            &&& after.issues == jobs.issues
        }),
{
}

/// Memory is given back only where nothing is retained and nothing was ever reported.
pub proof fn lemma_given_back(jobs: JobsView, retained: bool, issue: u64)
    ensures
        retained ==> !proposal_jobs::gives_back(jobs, retained),
        jobs.issues.contains(issue) ==> !proposal_jobs::gives_back(jobs, retained),
        jobs.issues == Seq::<u64>::empty() && !retained ==> proposal_jobs::gives_back(
            jobs,
            retained,
        ),
{
}

// ---------------------------------------------------------------------
// A blocking child
// ---------------------------------------------------------------------

/// A child is run exactly where none runs and nothing was reported. One that still runs is
/// reported as unclaimed, and stays.
pub proof fn lemma_child_started(child: ChildView, unclaimed: u64)
    ensures
        ({
            let (after, r) = blocking_child::child_started(child, unclaimed);
            &&& r is Ok <==> !child.running && child.issues.len() == 0
            &&& after.running <==> child.running || r is Ok
            &&& child.running ==> r == Err::<(), Completion>(Completion::Retained)
                && after.issues.len() == child.issues.len() + 1 && after.issues.last()
                == unclaimed
            &&& !child.running ==> after.issues == child.issues
            &&& extends(child.issues, after.issues)
        }),
{
}

/// What a child returns is its caller's where it was claimed, an error as well; where nobody
/// claimed it, an error is reported. A child that did not return is reported either way, and
/// what was reported stays.
pub proof fn lemma_child_ended(issues: Seq<u64>, end: ChildEnd)
    ensures
        ({
            let claimed = blocking_child::claimed_issues(issues, end);
            let drained = blocking_child::drained_issues(issues, Some(end));
            &&& extends(issues, claimed)
            &&& extends(issues, drained)
            &&& end is Returned ==> claimed == issues
            &&& end == ChildEnd::Returned(None) ==> drained == issues
            &&& end matches ChildEnd::Returned(Some(issue)) ==> drained == issues.push(issue)
            &&& end matches ChildEnd::Failed(issue) ==> claimed == issues.push(issue) && drained
                == issues.push(issue)
            &&& blocking_child::drained_issues(issues, None) == issues
            &&& blocking_child::completed(drained) is Ok <==> drained.len() == 0
        }),
{
}

} // verus!
