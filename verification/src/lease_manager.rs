//! The snapshot leases of a tenant, bounded in number and in what they retain.
use vstd::prelude::*;

use crate::digest::Name;
use crate::errors;
use crate::errors::{error, Error, ErrorCode};
use crate::heap_accounting;
use crate::heap_accounting::{metadata_bytes, quota, HeapMetadata, HeapSizes};
use crate::identities::new_identity;
use crate::lease_roots;
use crate::lease_roots::{
    expired, live, GenerationState, GenerationView, LeaseHeader, RootCollection,
    RootCollectionView, Roots, RootsView,
};
use crate::table::Table;

verus! {

/// What is charged for a lease's own handle.
pub const LEASE_HANDLE_BYTES: u64 = 4096;

pub open spec fn entries_view(entries: Seq<Roots>) -> Seq<RootsView> {
    Seq::new(entries.len(), |i: int| entries[i]@)
}

// ---------------------------------------------------------------------
// What the leases come to
// ---------------------------------------------------------------------

/// The leases that go on into the next generation, of the first `n`.
pub open spec fn survivors(
    entries: Seq<RootsView>,
    previous: GenerationView,
    next: GenerationView,
    now_ns: u128,
    n: int,
) -> Seq<RootsView>
    decreases n,
{
    if n <= 0 {
        Seq::empty()
    } else {
        let before = survivors(entries, previous, next, now_ns, n - 1);
        match lease_roots::refreshed(entries[n - 1], previous, next, now_ns) {
            Err(_) => before,
            Ok(roots) => before.push(roots),
        }
    }
}

/// What is to be reserved more for each of them.
pub open spec fn reserves(
    entries: Seq<RootsView>,
    previous: GenerationView,
    next: GenerationView,
    now_ns: u128,
    n: int,
) -> Seq<(u128, u64)>
    decreases n,
{
    if n <= 0 {
        Seq::empty()
    } else {
        let before = reserves(entries, previous, next, now_ns, n - 1);
        match lease_roots::refreshed(entries[n - 1], previous, next, now_ns) {
            Err(_) => before,
            Ok(roots) => before.push(
                (entries[n - 1].header.lease_id, minus(roots.bytes, entries[n - 1].bytes)),
            ),
        }
    }
}

/// What one lease is charged.
pub open spec fn lease_bytes(roots: RootsView) -> u64 {
    heap_accounting::plus(roots.bytes, LEASE_HANDLE_BYTES)
}

/// What the first `n` leases are charged, besides what is charged already.
pub open spec fn charged(entries: Seq<RootsView>, n: int, start: u64) -> u64
    decreases n,
{
    if n <= 0 {
        start
    } else {
        heap_accounting::plus(
            heap_accounting::plus(charged(entries, n - 1, start), entries[n - 1].bytes),
            LEASE_HANDLE_BYTES,
        )
    }
}

/// The first of the oldest among the first `n` leases.
pub open spec fn oldest(entries: Seq<RootsView>, n: int) -> int
    decreases n,
{
    if n <= 1 {
        0
    } else {
        let before = oldest(entries, n - 1);
        if entries[n - 1].header.created_ns < entries[before].header.created_ns {
            n - 1
        } else {
            before
        }
    }
}

proof fn lemma_oldest(entries: Seq<RootsView>, n: int)
    requires
        1 <= n <= entries.len(),
    ensures
        0 <= oldest(entries, n) < n,
    decreases n,
{
    if n > 1 {
        lemma_oldest(entries, n - 1);
    }
}

/// The leases that stay: the oldest go while there are too many, or they are charged
/// too much.
pub open spec fn bounded(entries: Seq<RootsView>, total: u64, budget: u64, max_leases: u64) -> Seq<
    RootsView,
>
    decreases entries.len(),
{
    if entries.len() == 0 || (total <= budget && entries.len() <= max_leases) {
        entries
    } else {
        let at = oldest(entries, entries.len() as int);
        if 0 <= at < entries.len() {
            bounded(
                entries.remove(at),
                minus(total, lease_bytes(entries[at])),
                budget,
                max_leases,
            )
        } else {
            entries
        }
    }
}

pub open spec fn minus(a: u64, b: u64) -> u64 {
    if a < b {
        0
    } else {
        (a - b) as u64
    }
}

/// Whether a lease stays idle.
pub open spec fn stays(roots: RootsView, pressured: bool, term: u64, now_ns: u128) -> bool {
    !pressured && lease_roots::lasts(roots.header, now_ns) && roots.header.term == term
}

pub open spec fn idle(entries: Seq<RootsView>, pressured: bool, term: u64, now_ns: u128) -> Seq<RootsView> {
    entries.filter(|roots: RootsView| stays(roots, pressured, term, now_ns))
}

/// The leases whose further reservation the node did not refuse.
pub open spec fn unrefused(entries: Seq<RootsView>, refused: Seq<u128>) -> Seq<RootsView> {
    entries.filter(|roots: RootsView| !refused.contains(roots.header.lease_id))
}

/// Where a lease stands, from `i` on.
pub open spec fn lease_at(entries: Seq<RootsView>, id: u128, i: int) -> Option<int>
    decreases entries.len() - i,
{
    if i < 0 || i >= entries.len() {
        None
    } else if entries[i].header.lease_id == id {
        Some(i)
    } else {
        lease_at(entries, id, i + 1)
    }
}

/// The leases with one more, in its place, or in place of the one it replaces.
pub open spec fn entered(entries: Seq<RootsView>, roots: RootsView) -> Seq<RootsView>
    decreases entries.len(),
{
    if entries.len() == 0 {
        seq![roots]
    } else if entries[0].header.lease_id == roots.header.lease_id {
        seq![roots] + entries.drop_first()
    } else if roots.header.lease_id < entries[0].header.lease_id {
        seq![roots] + entries
    } else {
        seq![entries[0]] + entered(entries.drop_first(), roots)
    }
}

proof fn lemma_entered(entries: Seq<RootsView>, roots: RootsView, i: int)
    requires
        0 <= i <= entries.len(),
        forall|j: int|
            0 <= j < i ==> (#[trigger] entries[j]).header.lease_id < roots.header.lease_id,
        i < entries.len() ==> roots.header.lease_id <= entries[i].header.lease_id,
    ensures
        entered(entries, roots) == if i < entries.len() && entries[i].header.lease_id
            == roots.header.lease_id {
            entries.update(i, roots)
        } else {
            entries.insert(i, roots)
        },
    decreases entries.len(),
{
    if entries.len() == 0 {
        assert(entries.insert(i, roots) =~= seq![roots]);
    } else if i == 0 {
        if entries[0].header.lease_id == roots.header.lease_id {
            assert(entries.update(0, roots) =~= seq![roots] + entries.drop_first());
        } else {
            assert(entries.insert(0, roots) =~= seq![roots] + entries);
        }
    } else {
        let rest = entries.drop_first();
        assert(entries[0].header.lease_id < roots.header.lease_id);
        assert forall|j: int| 0 <= j < i - 1 implies (#[trigger] rest[j]).header.lease_id
            < roots.header.lease_id by {
            assert(rest[j] == entries[j + 1]);
        }
        lemma_entered(rest, roots, i - 1);
        if i < entries.len() && entries[i].header.lease_id == roots.header.lease_id {
            assert(entries.update(i, roots) =~= seq![entries[0]] + rest.update(i - 1, roots));
        } else {
            assert(entries.insert(i, roots) =~= seq![entries[0]] + rest.insert(i - 1, roots));
        }
    }
}

/// What the first `n` kept leases are, in the order of the filter.
proof fn lemma_idle_push(
    entries: Seq<RootsView>,
    n: int,
    pressured: bool,
    term: u64,
    now_ns: u128,
)
    requires
        0 <= n < entries.len(),
    ensures
        idle(entries.take(n + 1), pressured, term, now_ns) == if stays(
            entries[n],
            pressured,
            term,
            now_ns,
        ) {
            idle(entries.take(n), pressured, term, now_ns).push(entries[n])
        } else {
            idle(entries.take(n), pressured, term, now_ns)
        },
{
    let keep = |roots: RootsView| stays(roots, pressured, term, now_ns);
    assert(entries.take(n + 1).drop_last() =~= entries.take(n));
    reveal(Seq::filter);
}

/// Under which authority a lease is used: what refuses its caller to discover the
/// tenant, and the caller's epochs.
#[derive(Clone, Copy, Debug)]
pub struct LeaseCaller {
    pub discovery_refusal: Option<Error>,
    pub principal: Name,
    pub term: u64,
    pub incarnation: u128,
    pub policy_epoch: u64,
    pub schema_epoch: u64,
    pub now_ns: u128,
}

pub open spec fn usable(header: LeaseHeader, caller: LeaseCaller) -> bool {
    &&& lease_roots::lasts(header, caller.now_ns)
    &&& header.principal == caller.principal
    &&& header.term == caller.term
    &&& header.incarnation == caller.incarnation
    &&& header.policy_epoch == caller.policy_epoch
    &&& header.schema_epoch == caller.schema_epoch
}

/// The lease that a caller may use.
pub open spec fn checked_lease(entries: Seq<RootsView>, caller: LeaseCaller, id: u128) -> Result<
    int,
    Error,
> {
    if caller.discovery_refusal is Some {
        Err(caller.discovery_refusal->0)
    } else {
        match lease_at(entries, id, 0) {
            None => Err(lease_roots::expired_error()),
            Some(at) => if !usable(entries[at].header, caller) {
                Err(lease_roots::expired_error())
            } else {
                Ok(at)
            },
        }
    }
}

/// A request to open a lease: its caller, how long it is to last, and what the node
/// and the credential refuse behind the tenant's own checks.
#[derive(Clone, Copy, Debug)]
pub struct OpenLease {
    pub caller: LeaseCaller,
    pub revision: u64,
    pub strict_read_audit: bool,
    pub ttl_ms: u64,
    pub max_ttl_ms: u64,
    pub max_lease_bytes: u64,
    pub max_leases: u64,
    pub node_refusal: Option<Error>,
    pub live_refusal: Option<Error>,
}

pub open spec fn header_of(request: OpenLease, id: u128) -> LeaseHeader {
    LeaseHeader {
        lease_id: id,
        revision: request.revision,
        incarnation: request.caller.incarnation,
        policy_epoch: request.caller.policy_epoch,
        schema_epoch: request.caller.schema_epoch,
        ttl_ms: request.ttl_ms,
        principal: request.caller.principal,
        term: request.caller.term,
        strict_read_audit: request.strict_read_audit,
        created_ns: request.caller.now_ns,
    }
}

/// Whether the request is refused before any lease is looked at.
pub open spec fn open_refusal(request: OpenLease) -> Option<Error> {
    if request.caller.discovery_refusal is Some {
        request.caller.discovery_refusal
    } else if request.ttl_ms == 0 || request.ttl_ms > request.max_ttl_ms {
        Some(
            errors::refusal(ErrorCode::InvalidArgument, "snapshot lease TTL outside bounds"),
        )
    } else {
        None
    }
}

/// What a new lease is charged, if there is room for it beside those that stay.
pub open spec fn open_admitted(
    entries: Seq<RootsView>,
    request: OpenLease,
    metadata: Result<u64, Error>,
) -> Result<u64, Error> {
    match metadata {
        Err(e) => Err(e),
        Ok(bytes) => if charged(
            entries,
            entries.len() as int,
            heap_accounting::plus(bytes, LEASE_HANDLE_BYTES),
        ) > request.max_lease_bytes || entries.len() >= request.max_leases {
            Err(heap_accounting::exhausted())
        } else if request.node_refusal is Some {
            Err(request.node_refusal->0)
        } else if request.live_refusal is Some {
            Err(request.live_refusal->0)
        } else {
            Ok(bytes)
        },
    }
}

/// Whether a request to open a lease under an identity was answered as it is to be.
pub open spec fn opened_as(
    before: Seq<RootsView>,
    after: Seq<RootsView>,
    request: OpenLease,
    metadata: Result<u64, Error>,
    collections: Seq<RootCollectionView>,
    archives: Map<u128, u64>,
    id: u128,
    r: Result<LeaseHeader, Error>,
) -> bool {
    match open_refusal(request) {
        Some(e) => r == Err::<LeaseHeader, Error>(e) && after == before,
        None => {
            let stay = idle(before, false, request.caller.term, request.caller.now_ns);
            match open_admitted(stay, request, metadata) {
                Err(e) => r == Err::<LeaseHeader, Error>(e) && after == stay,
                Ok(bytes) => r == Ok::<LeaseHeader, Error>(header_of(request, id)) && after
                    == entered(
                    stay,
                    RootsView {
                        header: header_of(request, id),
                        collections,
                        archives,
                        ledger: lease_roots::blank(collections.len()),
                        metadata_bytes: bytes,
                        bytes,
                    },
                ),
            }
        },
    }
}

fn among(ids: &Vec<u128>, id: u128) -> (found: bool)
    ensures
        found == ids@.contains(id),
{
    let mut i: usize = 0;
    while i < ids.len()
        invariant
            i <= ids.len(),
            forall|j: int| 0 <= j < i ==> ids@[j] != id,
        decreases ids.len() - i,
    {
        if ids[i] == id {
            return true;
        }
        i = i + 1;
    }
    false
}

/// The leases of a tenant, in ascending order of their identities.
pub struct LeaseManager {
    entries: Vec<Roots>,
}

impl View for LeaseManager {
    type V = Seq<RootsView>;

    closed spec fn view(&self) -> Seq<RootsView> {
        entries_view(self.entries@)
    }
}

impl LeaseManager {
    #[verifier::type_invariant]
    spec fn ordered(self) -> bool {
        ascend(self@)
    }

    pub fn new() -> (manager: Self)
        ensures
            manager@ == Seq::<RootsView>::empty(),
    {
        let manager = LeaseManager { entries: Vec::new() };
        assert(manager@ =~= Seq::<RootsView>::empty());
        manager
    }

    /// How many leases there are. No two of them have one identity.
    pub fn len(&self) -> (n: usize)
        ensures
            n == self@.len(),
            ascend(self@),
    {
        proof {
            use_type_invariant(self);
        }
        self.entries.len()
    }

    /// Drops every lease: the state was replaced.
    pub fn clear(&mut self)
        ensures
            final(self)@ == Seq::<RootsView>::empty(),
    {
        self.entries = Vec::new();
        assert(self@ =~= Seq::<RootsView>::empty());
    }

    /// Takes the leases into the next generation, drops those that cannot go on, and
    /// answers how many bytes more each of the others is to be reserved.
    pub fn refresh_all(&mut self, previous: &GenerationState, next: &GenerationState, now_ns: u128) -> (r:
        Vec<(u128, u64)>)
        ensures
            final(self)@ == survivors(
                old(self)@,
                previous@,
                next@,
                now_ns,
                old(self)@.len() as int,
            ),
            r@ == reserves(old(self)@, previous@, next@, now_ns, old(self)@.len() as int),
    {
        proof {
            use_type_invariant(&*self);
        }
        let ghost view = self@;
        let mut rest: Vec<Roots> = Vec::new();
        std::mem::swap(&mut rest, &mut self.entries);
        let mut kept: Vec<Roots> = Vec::new();
        let mut reserve: Vec<(u128, u64)> = Vec::new();
        let ghost mut done: int = 0;
        assert(entries_view(kept@) =~= Seq::empty());
        assert(view.skip(0) =~= view);
        while rest.len() > 0
            invariant
                0 <= done <= view.len(),
                entries_view(rest@) == view.skip(done),
                entries_view(kept@) == survivors(view, previous@, next@, now_ns, done),
                reserve@ == reserves(view, previous@, next@, now_ns, done),
            decreases rest.len(),
        {
            assert(entries_view(rest@).len() == rest.len());
            let ghost before = rest@;
            let mut roots = rest.remove(0);
            assert(entries_view(before)[0] == view[done]);
            assert(entries_view(rest@) =~= view.skip(done + 1)) by {
                assert forall|i: int| 0 <= i < rest@.len() implies entries_view(rest@)[i]
                    == view.skip(done + 1)[i] by {
                    assert(entries_view(before)[i + 1] == view.skip(done)[i + 1]);
                }
            }
            let id: u128 = roots.header().lease_id;
            match roots.refresh(previous, next, now_ns) {
                Err(_) => {},
                Ok(additional) => {
                    let ghost held = kept@;
                    let ghost one = roots@;
                    kept.push(roots);
                    reserve.push((id, additional));
                    assert(entries_view(kept@) =~= entries_view(held).push(one));
                },
            }
            proof {
                done = done + 1;
            }
        }
        assert(entries_view(rest@).len() == 0);
        proof {
            lemma_survivors_ascend(
                view,
                previous@,
                next@,
                now_ns,
                view.len() as int,
                u128::MAX + 1,
            );
        }
        self.entries = kept;
        reserve
    }

    /// Drops the oldest leases while there are too many, or they are charged too
    /// much.
    pub fn bound(&mut self, budget: u64, max_leases: u64)
        ensures
            final(self)@ == bounded(
                old(self)@,
                charged(old(self)@, old(self)@.len() as int, 0),
                budget,
                max_leases,
            ),
    {
        proof {
            use_type_invariant(&*self);
        }
        let ghost start = self@;
        let mut total: u64 = self.total(0);
        let mut entries: Vec<Roots> = Vec::new();
        std::mem::swap(&mut entries, &mut self.entries);
        while entries.len() > 0 && (total > budget || entries.len() as u64 > max_leases)
            invariant
                ascend(entries_view(entries@)),
                bounded(
                    start,
                    charged(start, start.len() as int, 0),
                    budget,
                    max_leases,
                ) == bounded(entries_view(entries@), total, budget, max_leases),
            decreases entries.len(),
        {
            let ghost view = entries_view(entries@);
            let mut at: usize = 0;
            let mut i: usize = 1;
            while i < entries.len()
                invariant
                    1 <= i <= entries.len(),
                    at < i,
                    view == entries_view(entries@),
                    at == oldest(view, i as int),
                decreases entries.len() - i,
            {
                assert(view[i as int] == entries@[i as int]@);
                assert(view[at as int] == entries@[at as int]@);
                if entries[i].header().created_ns < entries[at].header().created_ns {
                    at = i;
                }
                i = i + 1;
            }
            assert(view[at as int] == entries@[at as int]@);
            let bytes: u64 = entries[at].bytes().saturating_add(LEASE_HANDLE_BYTES);
            let ghost before = entries@;
            let _ = entries.remove(at);
            assert(entries_view(entries@) =~= view.remove(at as int)) by {
                assert(entries@ == before.remove(at as int));
            }
            total = total.saturating_sub(bytes);
        }
        self.entries = entries;
    }

    /// Drops the leases whose further reservation the node refused, and then those that
    /// the generation's bounds have no room for.
    pub fn settle(&mut self, next: &GenerationState, refused: &Vec<u128>)
        ensures
            ({
                let kept = unrefused(old(self)@, refused@);
                final(self)@ == bounded(
                    kept,
                    charged(kept, kept.len() as int, 0),
                    next.max_lease_bytes,
                    next.max_leases,
                )
            }),
    {
        proof {
            use_type_invariant(&*self);
        }
        let ghost view = self@;
        let ghost keep = |roots: RootsView| !refused@.contains(roots.header.lease_id);
        let mut rest: Vec<Roots> = Vec::new();
        std::mem::swap(&mut rest, &mut self.entries);
        let mut kept: Vec<Roots> = Vec::new();
        let ghost mut done: int = 0;
        proof {
            reveal(Seq::filter);
            assert(entries_view(kept@) =~= Seq::empty());
            assert(view.take(0) =~= Seq::empty());
            assert(view.skip(0) =~= view);
        }
        while rest.len() > 0
            invariant
                0 <= done <= view.len(),
                keep == (|roots: RootsView| !refused@.contains(roots.header.lease_id)),
                entries_view(rest@) == view.skip(done),
                entries_view(kept@) == view.take(done).filter(keep),
            decreases rest.len(),
        {
            assert(entries_view(rest@).len() == rest.len());
            let ghost before = rest@;
            let roots = rest.remove(0);
            proof {
                assert(entries_view(before)[0] == view[done]);
                assert(entries_view(rest@) =~= view.skip(done + 1)) by {
                    assert forall|i: int| 0 <= i < rest@.len() implies entries_view(rest@)[i]
                        == view.skip(done + 1)[i] by {
                        assert(entries_view(before)[i + 1] == view.skip(done)[i + 1]);
                    }
                }
                assert(view.take(done + 1).drop_last() =~= view.take(done));
                reveal(Seq::filter);
            }
            let id: u128 = roots.header().lease_id;
            if !among(refused, id) {
                let ghost held = kept@;
                let ghost one = roots@;
                kept.push(roots);
                assert(entries_view(kept@) =~= entries_view(held).push(one));
            }
            proof {
                done = done + 1;
            }
        }
        assert(entries_view(rest@).len() == 0);
        assert(view.take(view.len() as int) =~= view);
        proof {
            lemma_filter_ascends(view, keep, u128::MAX + 1);
        }
        self.entries = kept;
        self.bound(next.max_lease_bytes, next.max_leases);
    }

    /// Takes the leases along with a publication: into the next generation, without
    /// those whose further reservation is refused, and within its bounds; or away where
    /// there is no generation before or behind it. Answers how many bytes more each
    /// lease that could go on was to be reserved.
    pub fn publish(
        &mut self,
        previous: Option<&GenerationState>,
        next: Option<&GenerationState>,
        now_ns: u128,
        refused: &Vec<u128>,
    ) -> (r: Vec<(u128, u64)>)
        ensures
            match (previous, next) {
                (Some(previous), Some(next)) => {
                    let n = old(self)@.len() as int;
                    let kept = unrefused(
                        survivors(old(self)@, previous@, next@, now_ns, n),
                        refused@,
                    );
                    &&& final(self)@ == bounded(
                        kept,
                        charged(kept, kept.len() as int, 0),
                        next.max_lease_bytes,
                        next.max_leases,
                    )
                    &&& r@ == reserves(old(self)@, previous@, next@, now_ns, n)
                },
                _ => final(self)@ == Seq::<RootsView>::empty() && r@ == Seq::<(u128, u64)>::empty(),
            },
    {
        match (previous, next) {
            (Some(previous), Some(next)) => {
                let reserve = self.refresh_all(previous, next, now_ns);
                self.settle(next, refused);
                reserve
            },
            _ => {
                self.clear();
                Vec::new()
            },
        }
    }

    fn total(&self, start: u64) -> (total: u64)
        ensures
            total == charged(self@, self@.len() as int, start),
    {
        let ghost view = self@;
        let mut total: u64 = start;
        let mut i: usize = 0;
        while i < self.entries.len()
            invariant
                i <= self.entries.len(),
                view == self@,
                total == charged(view, i as int, start),
            decreases self.entries.len() - i,
        {
            assert(view[i as int] == self.entries@[i as int]@);
            total = total.saturating_add(self.entries[i].bytes()).saturating_add(
                LEASE_HANDLE_BYTES,
            );
            i = i + 1;
        }
        total
    }

    /// Drops the leases that no longer last or are of another term, and all of them
    /// under pressure.
    pub fn expire_idle(&mut self, pressured: bool, term: u64, now_ns: u128)
        ensures
            final(self)@ == idle(old(self)@, pressured, term, now_ns),
    {
        proof {
            use_type_invariant(&*self);
        }
        let ghost view = self@;
        let mut rest: Vec<Roots> = Vec::new();
        std::mem::swap(&mut rest, &mut self.entries);
        let mut kept: Vec<Roots> = Vec::new();
        let ghost mut done: int = 0;
        proof {
            reveal(Seq::filter);
            assert(entries_view(kept@) =~= Seq::empty());
            assert(view.take(0) =~= Seq::empty());
            assert(view.skip(0) =~= view);
        }
        while rest.len() > 0
            invariant
                0 <= done <= view.len(),
                entries_view(rest@) == view.skip(done),
                entries_view(kept@) == idle(view.take(done), pressured, term, now_ns),
            decreases rest.len(),
        {
            assert(entries_view(rest@).len() == rest.len());
            let ghost before = rest@;
            let roots = rest.remove(0);
            proof {
                assert(entries_view(before)[0] == view[done]);
                assert(entries_view(rest@) =~= view.skip(done + 1)) by {
                    assert forall|i: int| 0 <= i < rest@.len() implies entries_view(rest@)[i]
                        == view.skip(done + 1)[i] by {
                        assert(entries_view(before)[i + 1] == view.skip(done)[i + 1]);
                    }
                }
                lemma_idle_push(view, done, pressured, term, now_ns);
            }
            let header = roots.header();
            if !pressured && live(&header, now_ns) && header.term == term {
                let ghost held = kept@;
                let ghost one = roots@;
                kept.push(roots);
                assert(entries_view(kept@) =~= entries_view(held).push(one));
            }
            proof {
                done = done + 1;
            }
        }
        assert(entries_view(rest@).len() == 0);
        assert(view.take(view.len() as int) =~= view);
        proof {
            lemma_filter_ascends(
                view,
                |roots: RootsView| stays(roots, pressured, term, now_ns),
                u128::MAX + 1,
            );
        }
        self.entries = kept;
    }

    fn find(&self, id: u128) -> (r: Option<usize>)
        ensures
            match r {
                None => lease_at(self@, id, 0) is None,
                Some(at) => at < self@.len() && lease_at(self@, id, 0) == Some(at as int),
            },
    {
        let ghost view = self@;
        let mut i: usize = 0;
        while i < self.entries.len()
            invariant
                i <= self.entries.len(),
                view == self@,
                lease_at(view, id, 0) == lease_at(view, id, i as int),
            decreases self.entries.len() - i,
        {
            assert(view[i as int] == self.entries@[i as int]@);
            if self.entries[i].header().lease_id == id {
                return Some(i);
            }
            i = i + 1;
        }
        None
    }

    /// Whether a lease is live: it was not dropped, and still lasts.
    pub fn is_live(&self, id: u128, now_ns: u128) -> (b: bool)
        ensures
            b == lease_live(self@, id, now_ns),
    {
        match self.find(id) {
            None => false,
            Some(at) => {
                assert(self@[at as int] == self.entries@[at as int]@);
                live(&self.entries[at].header(), now_ns)
            },
        }
    }

    /// The lease that a caller may use.
    pub fn checked(&self, caller: &LeaseCaller, id: u128) -> (r: Result<usize, Error>)
        ensures
            match r {
                Err(e) => checked_lease(self@, *caller, id) == Err::<int, Error>(e),
                Ok(at) => at < self@.len() && checked_lease(self@, *caller, id) == Ok::<int, Error>(
                    at as int,
                ),
            },
    {
        match caller.discovery_refusal {
            Some(refusal) => return Err(refusal),
            None => {},
        }
        let at: usize = match self.find(id) {
            None => return Err(expired()),
            Some(at) => at,
        };
        let header = self.entries[at].header();
        assert(self@[at as int] == self.entries@[at as int]@);
        if !live(&header, caller.now_ns) || header.principal != caller.principal || header.term
            != caller.term || header.incarnation != caller.incarnation || header.policy_epoch
            != caller.policy_epoch || header.schema_epoch != caller.schema_epoch {
            return Err(expired());
        }
        Ok(at)
    }

    /// The roots of the lease at an index.
    pub fn roots(&self, at: usize) -> (roots: &Roots)
        requires
            at < self@.len(),
        ensures
            roots@ == self@[at as int],
    {
        &self.entries[at]
    }

    /// What a lease was opened as, for a caller who may use it.
    pub fn checked_handle(&self, caller: &LeaseCaller, id: u128) -> (r: Result<LeaseHeader, Error>)
        ensures
            r == match checked_lease(self@, *caller, id) {
                Err(e) => Err(e),
                Ok(at) => Ok(self@[at].header),
            },
    {
        let at: usize = self.checked(caller, id)?;
        assert(self@[at as int] == self.entries@[at as int]@);
        Ok(self.entries[at].header())
    }

    fn enter(&mut self, roots: Roots)
        ensures
            final(self)@ == entered(old(self)@, roots@),
    {
        proof {
            use_type_invariant(&*self);
        }
        let ghost view = self@;
        let ghost one = roots@;
        let id: u128 = roots.header().lease_id;
        let mut entries: Vec<Roots> = Vec::new();
        std::mem::swap(&mut entries, &mut self.entries);
        let mut i: usize = 0;
        while i < entries.len() && entries[i].header().lease_id < id
            invariant
                i <= entries.len(),
                view == entries_view(entries@),
                id == one.header.lease_id,
                forall|j: int| 0 <= j < i ==> (#[trigger] view[j]).header.lease_id < id,
            decreases entries.len() - i,
        {
            assert(view[i as int] == entries@[i as int]@);
            i = i + 1;
        }
        proof {
            if i < entries.len() {
                assert(view[i as int] == entries@[i as int]@);
            }
            lemma_entered(view, one, i as int);
            lemma_entered_ascends(view, one, -1);
        }
        if i < entries.len() && entries[i].header().lease_id == id {
            entries.set(i, roots);
            assert(entries_view(entries@) =~= view.update(i as int, one));
        } else {
            entries.insert(i, roots);
            assert(entries_view(entries@) =~= view.insert(i as int, one));
        }
        self.entries = entries;
    }

    /// Opens a lease under an identity. Leases that no longer last, or are of
    /// another term, are dropped on the way, refused or not.
    pub fn open_as(
        &mut self,
        request: &OpenLease,
        metadata: &HeapMetadata,
        sizes: &HeapSizes,
        collections: Vec<RootCollection>,
        archives: Table<u64>,
        id: u128,
    ) -> (r: Result<LeaseHeader, Error>)
        ensures
            opened_as(
                old(self)@,
                final(self)@,
                *request,
                heap_accounting::metadata_total(*metadata, *sizes, request.max_lease_bytes),
                lease_roots::roots_view(collections@),
                archives@,
                id,
                r,
            ),
    {
        match request.caller.discovery_refusal {
            Some(refusal) => return Err(refusal),
            None => {},
        }
        if request.ttl_ms == 0 || request.ttl_ms > request.max_ttl_ms {
            return Err(error(ErrorCode::InvalidArgument, "snapshot lease TTL outside bounds"));
        }
        self.expire_idle(false, request.caller.term, request.caller.now_ns);
        let bytes: u64 = metadata_bytes(metadata, sizes, request.max_lease_bytes)?;
        let total: u64 = self.total(bytes.saturating_add(LEASE_HANDLE_BYTES));
        if total > request.max_lease_bytes || self.entries.len() as u64 >= request.max_leases {
            return Err(quota());
        }
        match request.node_refusal {
            Some(refusal) => return Err(refusal),
            None => {},
        }
        match request.live_refusal {
            Some(refusal) => return Err(refusal),
            None => {},
        }
        let header = LeaseHeader {
            lease_id: id,
            revision: request.revision,
            incarnation: request.caller.incarnation,
            policy_epoch: request.caller.policy_epoch,
            schema_epoch: request.caller.schema_epoch,
            ttl_ms: request.ttl_ms,
            principal: request.caller.principal,
            term: request.caller.term,
            strict_read_audit: request.strict_read_audit,
            created_ns: request.caller.now_ns,
        };
        self.enter(Roots::new(header, collections, archives, bytes));
        Ok(header)
    }

    /// Opens a lease under a new identity.
    pub fn open(
        &mut self,
        request: &OpenLease,
        metadata: &HeapMetadata,
        sizes: &HeapSizes,
        collections: Vec<RootCollection>,
        archives: Table<u64>,
    ) -> (r: Result<LeaseHeader, Error>)
        ensures
            exists|id: u128|
                id != 0 && #[trigger] opened_as(
                    old(self)@,
                    final(self)@,
                    *request,
                    heap_accounting::metadata_total(*metadata, *sizes, request.max_lease_bytes),
                    lease_roots::roots_view(collections@),
                    archives@,
                    id,
                    r,
                ),
    {
        let id: u128 = new_identity();
        self.open_as(request, metadata, sizes, collections, archives, id)
    }

    /// Closes a lease of its own principal. That there is none is no error.
    pub fn close(&mut self, principal: Name, id: u128) -> (r: Result<(), Error>)
        ensures
            match lease_at(old(self)@, id, 0) {
                None => r is Ok && final(self)@ == old(self)@,
                Some(at) => if old(self)@[at].header.principal != principal {
                    r == Err::<(), Error>(
                        errors::refusal(
                            ErrorCode::Forbidden,
                            "snapshot lease belongs to another principal",
                        ),
                    ) && final(self)@ == old(self)@
                } else {
                    r is Ok && final(self)@ == old(self)@.remove(at)
                },
            },
    {
        let at: usize = match self.find(id) {
            None => return Ok(()),
            Some(at) => at,
        };
        let ghost view = self@;
        assert(view[at as int] == self.entries@[at as int]@);
        if self.entries[at].header().principal != principal {
            return Err(
                error(ErrorCode::Forbidden, "snapshot lease belongs to another principal"),
            );
        }
        proof {
            use_type_invariant(&*self);
        }
        let mut entries: Vec<Roots> = Vec::new();
        std::mem::swap(&mut entries, &mut self.entries);
        let ghost before = entries@;
        let _ = entries.remove(at);
        assert(entries_view(entries@) =~= view.remove(at as int)) by {
            assert(entries@ == before.remove(at as int));
        }
        self.entries = entries;
        Ok(())
    }
}

/// Whether the lease stands among the leases, and still lasts.
pub open spec fn lease_live(entries: Seq<RootsView>, id: u128, now_ns: u128) -> bool {
    match lease_at(entries, id, 0) {
        None => false,
        Some(at) => lease_roots::lasts(entries[at].header, now_ns),
    }
}

/// A lease that is used is live: one that was dropped within its time is not.
pub proof fn lemma_used_is_live(entries: Seq<RootsView>, caller: LeaseCaller, id: u128)
    requires
        checked_lease(entries, caller, id) is Ok,
    ensures
        lease_live(entries, id, caller.now_ns),
{
}

/// Whether the identities of the leases ascend, so that none stands twice.
pub open spec fn ascend(entries: Seq<RootsView>) -> bool {
    forall|i: int, j: int|
        0 <= i < j < entries.len() ==> (#[trigger] entries[i]).header.lease_id < (
        #[trigger] entries[j]).header.lease_id
}

spec fn below(entries: Seq<RootsView>, bound: int) -> bool {
    forall|i: int| 0 <= i < entries.len() ==> (#[trigger] entries[i]).header.lease_id < bound
}

spec fn above(entries: Seq<RootsView>, bound: int) -> bool {
    forall|i: int| 0 <= i < entries.len() ==> (#[trigger] entries[i]).header.lease_id > bound
}

proof fn lemma_filter_ascends(
    entries: Seq<RootsView>,
    keep: spec_fn(RootsView) -> bool,
    bound: int,
)
    requires
        ascend(entries),
        below(entries, bound),
    ensures
        ascend(entries.filter(keep)),
        below(entries.filter(keep), bound),
    decreases entries.len(),
{
    reveal(Seq::filter);
    if entries.len() > 0 {
        let front = entries.drop_last();
        assert forall|i: int| 0 <= i < front.len() implies (#[trigger] front[i]).header.lease_id
            < entries.last().header.lease_id by {
            assert(entries[i].header.lease_id < entries[entries.len() - 1].header.lease_id);
        }
        lemma_filter_ascends(front, keep, entries.last().header.lease_id as int);
        assert(entries[entries.len() - 1].header.lease_id < bound);
    }
}

proof fn lemma_survivors_ascend(
    entries: Seq<RootsView>,
    previous: GenerationView,
    next: GenerationView,
    now_ns: u128,
    n: int,
    bound: int,
)
    requires
        0 <= n <= entries.len(),
        ascend(entries),
        forall|i: int| 0 <= i < n ==> (#[trigger] entries[i]).header.lease_id < bound,
    ensures
        ascend(survivors(entries, previous, next, now_ns, n)),
        below(survivors(entries, previous, next, now_ns, n), bound),
    decreases n,
{
    if n > 0 {
        let last = entries[n - 1];
        lemma_survivors_ascend(
            entries,
            previous,
            next,
            now_ns,
            n - 1,
            last.header.lease_id as int,
        );
    }
}

proof fn lemma_bounded_ascends(
    entries: Seq<RootsView>,
    total: u64,
    budget: u64,
    max_leases: u64,
)
    requires
        ascend(entries),
    ensures
        ascend(bounded(entries, total, budget, max_leases)),
    decreases entries.len(),
{
    if !(entries.len() == 0 || (total <= budget && entries.len() <= max_leases)) {
        let at = oldest(entries, entries.len() as int);
        lemma_oldest(entries, entries.len() as int);
        lemma_bounded_ascends(
            entries.remove(at),
            minus(total, lease_bytes(entries[at])),
            budget,
            max_leases,
        );
    }
}

proof fn lemma_entered_ascends(entries: Seq<RootsView>, roots: RootsView, bound: int)
    requires
        ascend(entries),
        above(entries, bound),
        roots.header.lease_id > bound,
    ensures
        ascend(entered(entries, roots)),
        above(entered(entries, roots), bound),
    decreases entries.len(),
{
    if entries.len() > 0 {
        let rest = entries.drop_first();
        let first = entries[0];
        assert forall|i: int| 0 <= i < rest.len() implies (#[trigger] rest[i]).header.lease_id
            > first.header.lease_id by {
            assert(entries[0].header.lease_id < entries[i + 1].header.lease_id);
        }
        if roots.header.lease_id > first.header.lease_id {
            lemma_entered_ascends(rest, roots, first.header.lease_id as int);
        }
    }
}

/// The identities of the leases ascend whatever is done with them: in a publication,
/// among those that stay idle, where one is opened, and where one is closed.
pub proof fn lemma_leases_ascend(
    entries: Seq<RootsView>,
    previous: GenerationView,
    next: GenerationView,
    now_ns: u128,
    refused: Seq<u128>,
    roots: RootsView,
    pressured: bool,
    term: u64,
    at: int,
)
    requires
        ascend(entries),
    ensures
        ({
            let kept = unrefused(
                survivors(entries, previous, next, now_ns, entries.len() as int),
                refused,
            );
            ascend(
                bounded(
                    kept,
                    charged(kept, kept.len() as int, 0),
                    next.max_lease_bytes,
                    next.max_leases,
                ),
            )
        }),
        ascend(idle(entries, pressured, term, now_ns)),
        ascend(entered(entries, roots)),
        0 <= at < entries.len() ==> ascend(entries.remove(at)),
{
    let end = u128::MAX + 1;
    lemma_survivors_ascend(entries, previous, next, now_ns, entries.len() as int, end);
    let through = survivors(entries, previous, next, now_ns, entries.len() as int);
    lemma_filter_ascends(
        through,
        |roots: RootsView| !refused.contains(roots.header.lease_id),
        end,
    );
    let kept = unrefused(through, refused);
    lemma_bounded_ascends(
        kept,
        charged(kept, kept.len() as int, 0),
        next.max_lease_bytes,
        next.max_leases,
    );
    lemma_filter_ascends(entries, |roots: RootsView| stays(roots, pressured, term, now_ns), end);
    lemma_entered_ascends(entries, roots, -1);
}

/// However the leases are charged, no more stay than there may be.
pub proof fn lemma_bounded(entries: Seq<RootsView>, total: u64, budget: u64, max_leases: u64)
    ensures
        bounded(entries, total, budget, max_leases).len() <= max_leases,
        bounded(entries, total, budget, max_leases).len() <= entries.len(),
    decreases entries.len(),
{
    if !(entries.len() == 0 || (total <= budget && entries.len() <= max_leases)) {
        let at = oldest(entries, entries.len() as int);
        lemma_oldest(entries, entries.len() as int);
        lemma_bounded(
            entries.remove(at),
            minus(total, lease_bytes(entries[at])),
            budget,
            max_leases,
        );
    }
}

/// What the leases are charged together, however much it is.
pub open spec fn whole_charge(entries: Seq<RootsView>) -> int
    decreases entries.len(),
{
    if entries.len() == 0 {
        0
    } else {
        whole_charge(entries.drop_last()) + entries.last().bytes + LEASE_HANDLE_BYTES
    }
}

proof fn lemma_charged(entries: Seq<RootsView>, n: int)
    requires
        0 <= n <= entries.len(),
        whole_charge(entries.take(n)) <= u64::MAX,
    ensures
        charged(entries, n, 0) == whole_charge(entries.take(n)),
        whole_charge(entries.take(n)) >= 0,
    decreases n,
{
    if n > 0 {
        assert(entries.take(n).drop_last() =~= entries.take(n - 1));
        assert(entries.take(n).last() == entries[n - 1]);
        lemma_charged(entries, n - 1);
    }
}

proof fn lemma_charge_without(entries: Seq<RootsView>, at: int)
    requires
        0 <= at < entries.len(),
    ensures
        whole_charge(entries.remove(at)) == whole_charge(entries) - entries[at].bytes
            - LEASE_HANDLE_BYTES,
        whole_charge(entries.remove(at)) >= 0,
    decreases entries.len(),
{
    let rest = entries.remove(at);
    if at == entries.len() - 1 {
        assert(rest =~= entries.drop_last());
        lemma_charge_nonnegative(rest);
    } else {
        lemma_charge_without(entries.drop_last(), at);
        assert(rest.drop_last() =~= entries.drop_last().remove(at));
        assert(rest.last() == entries.last());
    }
}

proof fn lemma_charge_nonnegative(entries: Seq<RootsView>)
    ensures
        whole_charge(entries) >= 0,
    decreases entries.len(),
{
    if entries.len() > 0 {
        lemma_charge_nonnegative(entries.drop_last());
    }
}

proof fn lemma_within(entries: Seq<RootsView>, total: u64, budget: u64, max_leases: u64)
    requires
        total == whole_charge(entries),
    ensures
        whole_charge(bounded(entries, total, budget, max_leases)) <= budget,
    decreases entries.len(),
{
    if !(entries.len() == 0 || (total <= budget && entries.len() <= max_leases)) {
        let at = oldest(entries, entries.len() as int);
        lemma_oldest(entries, entries.len() as int);
        lemma_charge_without(entries, at);
        lemma_within(
            entries.remove(at),
            minus(total, lease_bytes(entries[at])),
            budget,
            max_leases,
        );
    }
}

/// What stays of the leases is charged no more than the budget.
pub proof fn lemma_within_budget(entries: Seq<RootsView>, budget: u64, max_leases: u64)
    requires
        whole_charge(entries) <= u64::MAX,
    ensures
        whole_charge(
            bounded(entries, charged(entries, entries.len() as int, 0), budget, max_leases),
        ) <= budget,
{
    assert(entries.take(entries.len() as int) =~= entries);
    lemma_charged(entries, entries.len() as int);
    lemma_within(entries, charged(entries, entries.len() as int, 0), budget, max_leases);
}

} // verus!
