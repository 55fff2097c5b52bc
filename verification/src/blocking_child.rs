//! One bounded blocking child of a database worker. The child's result belongs to
//! the caller that receives it; one that nobody claims belongs to the drain.
use vstd::prelude::*;

verus! {

/// How a slot came to refuse, or to be drained with issues.
#[derive(Clone, Copy, Debug, PartialEq, Eq, Structural)]
pub enum Completion {
    /// Everything has ended.
    Complete,
    /// A child is still retained.
    Retained,
}

/// What a child came to: it panicked or was cancelled with an issue, or it returned,
/// and what it returned may hold an issue.
#[derive(Clone, Copy, Debug, PartialEq, Eq, Structural)]
pub enum ChildEnd {
    Returned(Option<u64>),
    Failed(u64),
}

pub struct ChildView {
    pub running: bool,
    /// The issues of the children that ended, in order.
    pub issues: Seq<u64>,
}

pub struct BlockingChild {
    running: bool,
    issues: Vec<u64>,
}

impl View for BlockingChild {
    type V = ChildView;

    closed spec fn view(&self) -> ChildView {
        ChildView { running: self.running, issues: self.issues@ }
    }
}

/// What the slot answers when everything has ended.
pub open spec fn completed(issues: Seq<u64>) -> Result<(), Completion> {
    if issues.len() > 0 {
        Err(Completion::Complete)
    } else {
        Ok(())
    }
}

/// What the slot comes to, and answers, when a new child is to be run.
pub open spec fn child_started(child: ChildView, unclaimed: u64) -> (ChildView, Result<
    (),
    Completion,
>) {
    if child.running {
        (
            ChildView { issues: child.issues.push(unclaimed), ..child },
            Err(Completion::Retained),
        )
    } else if child.issues.len() > 0 {
        (child, Err(Completion::Complete))
    } else {
        (ChildView { running: true, ..child }, Ok(()))
    }
}

/// The issues behind a child whose result was claimed.
pub open spec fn claimed_issues(issues: Seq<u64>, end: ChildEnd) -> Seq<u64> {
    match end {
        ChildEnd::Returned(_) => issues,
        ChildEnd::Failed(issue) => issues.push(issue),
    }
}

/// The issues behind a child that nobody claimed.
pub open spec fn drained_issues(issues: Seq<u64>, end: Option<ChildEnd>) -> Seq<u64> {
    match end {
        Some(ChildEnd::Returned(Some(issue))) => issues.push(issue),
        Some(ChildEnd::Failed(issue)) => issues.push(issue),
        _ => issues,
    }
}

impl BlockingChild {
    pub fn new() -> (child: Self)
        ensures
            child@ == (ChildView { running: false, issues: Seq::empty() }),
    {
        let child = BlockingChild { running: false, issues: Vec::new() };
        assert(child@.issues =~= Seq::empty());
        child
    }

    /// Takes a new child into the slot. An abandoned attempt belongs to the drain,
    /// never to a new run, and is reported as `unclaimed`; nor is anything run
    /// behind an issue.
    pub fn start(&mut self, unclaimed: u64) -> (r: Result<(), Completion>)
        ensures
            if old(self)@.running {
                r == Err::<(), Completion>(Completion::Retained) && final(self)@ == (ChildView {
                    issues: old(self)@.issues.push(unclaimed),
                    ..old(self)@
                })
            } else if old(self)@.issues.len() > 0 {
                r == Err::<(), Completion>(Completion::Complete) && final(self)@ == old(self)@
            } else {
                r is Ok && final(self)@ == (ChildView { running: true, ..old(self)@ })
            },
            (final(self)@, r) == child_started(old(self)@, unclaimed),
    {
        if self.running {
            self.issues.push(unclaimed);
            return Err(Completion::Retained);
        }
        if self.issues.len() > 0 {
            return Err(Completion::Complete);
        }
        self.running = true;
        Ok(())
    }

    /// The child ended, and its caller received what it returned: an ordinary error
    /// is the caller's to handle. A child that failed to return is reported.
    pub fn claimed(&mut self, end: ChildEnd) -> (r: Result<(), Completion>)
        ensures
            !final(self)@.running,
            match end {
                ChildEnd::Returned(_) => r is Ok && final(self)@.issues == old(self)@.issues,
                ChildEnd::Failed(issue) => r == Err::<(), Completion>(Completion::Complete)
                    && final(self)@.issues == old(self)@.issues.push(issue),
            },
            final(self)@.issues == claimed_issues(old(self)@.issues, end),
    {
        self.running = false;
        match end {
            ChildEnd::Returned(_) => Ok(()),
            ChildEnd::Failed(issue) => {
                self.issues.push(issue);
                Err(Completion::Complete)
            },
        }
    }

    /// The slot is drained. `end` is what its child came to, if it held one; an error
    /// that nobody claimed is reported.
    pub fn drained(&mut self, end: Option<ChildEnd>) -> (r: Result<(), Completion>)
        requires
            old(self)@.running == end is Some,
        ensures
            !final(self)@.running,
            final(self)@.issues == match end {
                Some(ChildEnd::Returned(Some(issue))) => old(self)@.issues.push(issue),
                Some(ChildEnd::Failed(issue)) => old(self)@.issues.push(issue),
                _ => old(self)@.issues,
            },
            final(self)@.issues == drained_issues(old(self)@.issues, end),
            r == completed(final(self)@.issues),
    {
        match end {
            Some(ChildEnd::Returned(Some(issue))) => {
                self.issues.push(issue);
            },
            Some(ChildEnd::Failed(issue)) => {
                self.issues.push(issue);
            },
            _ => {},
        }
        self.running = false;
        if self.issues.len() > 0 {
            return Err(Completion::Complete);
        }
        Ok(())
    }
}

} // verus!
