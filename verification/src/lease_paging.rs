//! What the pages of a lease come to: a scan lists every identity once.
use vstd::prelude::*;

use crate::lease_manager::LeaseCaller;
use crate::lease_roots::{RootCollectionView, RootsView};
use crate::lease_selection;
use crate::lease_selection::{PageAccess, PageSelection, ScanPage};

verus! {

/// Whether a page lists the first of the candidates, some of them where there are any,
/// and says whether it left any out.
pub open spec fn lists(candidates: Seq<u128>, ids: Seq<u128>, has_more: bool) -> bool {
    &&& ids.len() <= candidates.len()
    &&& ids == candidates.take(ids.len() as int)
    &&& candidates.len() > 0 ==> ids.len() > 0
    &&& has_more == (ids.len() < candidates.len())
}

proof fn lemma_scanned(
    root: RootCollectionView,
    candidates: Seq<u128>,
    limit: u64,
    max_result_bytes: u64,
    i: int,
    bytes: u64,
)
    requires
        0 <= i <= candidates.len(),
        i <= limit,
        limit > 0,
        lease_selection::scanned(
            root,
            candidates,
            limit,
            max_result_bytes,
            i,
            bytes,
            candidates.take(i),
        ) is Ok,
    ensures
        ({
            let page = lease_selection::scanned(
                root,
                candidates,
                limit,
                max_result_bytes,
                i,
                bytes,
                candidates.take(i),
            )->Ok_0;
            lists(candidates, page.ids, page.has_more) && page.ids.len() <= limit
        }),
    decreases candidates.len() - i,
{
    if i < candidates.len() {
        match lease_selection::document_bytes(root, candidates[i]) {
            Err(_) => {},
            Ok(size) => {
                let next = crate::heap_accounting::plus(
                    bytes,
                    crate::heap_accounting::plus(size, 1),
                );
                if i < limit && next <= max_result_bytes {
                    assert(candidates.take(i).push(candidates[i]) =~= candidates.take(i + 1));
                    lemma_scanned(root, candidates, limit, max_result_bytes, i + 1, next);
                }
            },
        }
    }
}

/// The candidates of a page: the identities behind its cursor, up to one more than the
/// page may list.
pub open spec fn candidates_of(ids: Seq<u128>, limit: u64) -> Seq<u128> {
    if ids.len() > limit {
        ids.take(limit + 1)
    } else {
        ids
    }
}

/// A page of a scan lists the first of the identities behind its cursor, at least one
/// where there is any and no more than its limit, and says that more follow exactly
/// where it left some out.
pub proof fn lemma_scan_page(
    ids: Seq<u128>,
    entries: Seq<RootsView>,
    caller: LeaseCaller,
    id: u128,
    page: ScanPage,
    candidates: Vec<u128>,
    page_bytes: u64,
    a: PageAccess,
)
    requires
        candidates@ == candidates_of(ids, page.limit),
        lease_selection::selected(
            entries,
            caller,
            id,
            PageSelection::Scan { page, candidates: Ok(candidates), page_bytes },
            a,
        ) is Ok,
    ensures
        ({
            let selected = lease_selection::selected(
                entries,
                caller,
                id,
                PageSelection::Scan { page, candidates: Ok(candidates), page_bytes },
                a,
            )->Ok_0;
            lists(ids, selected.scan_ids, selected.scan_has_more) && selected.scan_ids.len()
                <= page.limit
        }),
{
    let at = crate::lease_manager::checked_lease(entries, caller, id)->Ok_0;
    let roots = entries[at];
    let root = roots.collections[lease_selection::scan_collection(
        roots,
        page,
        id,
        a.name_refusal,
        a.read_refusals@,
        a.max_page_size,
    )->Ok_0];
    assert(candidates@.take(0) =~= Seq::<u128>::empty());
    lemma_scanned(
        root,
        candidates@,
        page.limit,
        a.max_result_bytes,
        0,
        lease_selection::opening_bytes(page_bytes),
    );
    let listed = lease_selection::selected(
        entries,
        caller,
        id,
        PageSelection::Scan { page, candidates: Ok(candidates), page_bytes },
        a,
    )->Ok_0.scan_ids;
    assert(candidates@.take(listed.len() as int) =~= ids.take(listed.len() as int));
}

/// What the first `n` pages list, one behind the other.
pub open spec fn listed(pages: Seq<Seq<u128>>, n: int) -> Seq<u128>
    decreases n,
{
    if n <= 0 {
        Seq::empty()
    } else {
        listed(pages, n - 1) + pages[n - 1]
    }
}

/// The cursor behind what was listed.
pub open spec fn cursor_behind(ids: Seq<u128>) -> Option<u128> {
    if ids.len() == 0 {
        None
    } else {
        Some(ids.last())
    }
}

pub open spec fn ascending(ids: Seq<u128>) -> bool {
    forall|i: int, j: int| 0 <= i < j < ids.len() ==> #[trigger] ids[i] < #[trigger] ids[j]
}

/// Whether the identities from `at` on are those behind the cursor.
pub open spec fn stands_at(ids: Seq<u128>, cursor: Option<u128>, at: int) -> bool {
    &&& 0 <= at <= ids.len()
    &&& forall|i: int| 0 <= i < at ==> cursor is Some && #[trigger] ids[i] <= cursor->0
    &&& forall|i: int| at <= i < ids.len() ==> cursor is None || #[trigger] ids[i] > cursor->0
}

/// Whether the pages were read one behind the other, each where the one before it said
/// that more follow. Page `k` lists of the identities from `at[k]` on.
pub open spec fn paged(
    ids: Seq<u128>,
    pages: Seq<Seq<u128>>,
    more: Seq<bool>,
    at: Seq<int>,
) -> bool {
    &&& pages.len() == more.len() == at.len()
    &&& forall|k: int|
        0 <= k < pages.len() ==> stands_at(ids, cursor_behind(listed(pages, k)), #[trigger] at[k])
            && lists(ids.skip(at[k]), pages[k], more[k])
    &&& forall|k: int| 0 <= k < pages.len() - 1 ==> #[trigger] more[k]
}

proof fn lemma_listed(ids: Seq<u128>, pages: Seq<Seq<u128>>, more: Seq<bool>, at: Seq<int>, n: int)
    requires
        ascending(ids),
        paged(ids, pages, more, at),
        0 <= n <= pages.len(),
    ensures
        listed(pages, n).len() <= ids.len(),
        listed(pages, n) == ids.take(listed(pages, n).len() as int),
        n > 0 ==> more[n - 1] == (listed(pages, n).len() < ids.len()),
    decreases n,
{
    if n > 0 {
        lemma_listed(ids, pages, more, at, n - 1);
        let before = listed(pages, n - 1);
        let k = n - 1;
        let start = at[k];
        assert(stands_at(ids, cursor_behind(before), start));
        assert(start == before.len()) by {
            if before.len() == 0 {
                if start > 0 {
                    assert(ids[0] <= cursor_behind(before)->0);
                }
            } else {
                let m = before.len() as int;
                assert(before.last() == ids[m - 1]);
                if start > m {
                    assert(ids[m] <= before.last());
                    assert(ids[m - 1] < ids[m]);
                }
                if start < m {
                    assert(ids[m - 1] > before.last());
                }
            }
        }
        assert(lists(ids.skip(start), pages[k], more[k]));
        assert(listed(pages, n) =~= ids.take((before.len() + pages[k].len()) as int));
    }
}

/// A scan that is read to its end lists every identity of its collection once, in order.
pub proof fn lemma_scan_lists_each_once(
    ids: Seq<u128>,
    pages: Seq<Seq<u128>>,
    more: Seq<bool>,
    at: Seq<int>,
)
    requires
        ascending(ids),
        paged(ids, pages, more, at),
        pages.len() > 0,
        !more.last(),
    ensures
        listed(pages, pages.len() as int) == ids,
{
    lemma_listed(ids, pages, more, at, pages.len() as int);
    assert(ids.take(ids.len() as int) =~= ids);
}

} // verus!
