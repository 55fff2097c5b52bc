//! Who is let in to read, and what is said to whom is not: a reader is admitted exactly
//! where nothing refuses it, and what is found amiss first is what it is told.
use vstd::prelude::*;

use crate::digest::Name;
use crate::errors;
use crate::errors::{Error, ErrorCode};
use crate::identities;
use crate::policy_limits;
use crate::policy_limits::{LimitsReader, PolicyLimitsSnapshot};
use crate::receipt_reads;
use crate::receipt_reads::{ReadMoment, ReceiptReader};

verus! {

/// What refuses the reader of a receipt, in the order in which it is looked at.
pub open spec fn receipt_refusals(reader: ReceiptReader, tenant: Name) -> Seq<Option<Error>> {
    seq![
        reader.live_refusal,
        if reader.now_ns < reader.deadline_ns {
            None
        } else {
            Some(
                errors::refusal(ErrorCode::Unavailable, "mutation receipt deadline exceeded"),
            )
        },
        reader.access_refusal,
        reader.name_refusal,
        reader.resource_refusal,
        if reader.tenant == tenant {
            None
        } else {
            Some(errors::refusal(ErrorCode::Forbidden, "receipt tenant differs"))
        },
    ]
}

/// Whether the refusal is the first of them.
pub open spec fn is_first(refusals: Seq<Option<Error>>, e: Error) -> bool {
    exists|k: int|
        0 <= k < refusals.len() && #[trigger] refusals[k] == Some(e) && (forall|j: int|
            0 <= j < k ==> #[trigger] refusals[j] is None)
}

pub open spec fn none_refuses(refusals: Seq<Option<Error>>) -> bool {
    forall|k: int| 0 <= k < refusals.len() ==> #[trigger] refusals[k] is None
}

/// The first that refuses is the first refusal, and nothing is admitted behind it.
pub proof fn lemma_is_first(refusals: Seq<Option<Error>>, k: int, e: Error)
    requires
        0 <= k < refusals.len(),
        refusals[k] == Some(e),
        forall|j: int| 0 <= j < k ==> #[trigger] refusals[j] is None,
    ensures
        is_first(refusals, e),
        !none_refuses(refusals),
{
}

/// A receipt is read exactly where nothing refuses its reader, and else the first
/// refusal is told: a dead credential before a deadline, a deadline before the names,
/// and another tenant last.
pub proof fn lemma_receipt_reader(reader: ReceiptReader, tenant: Name)
    ensures
        match receipt_reads::reader_admitted(reader, tenant) {
            Ok(()) => none_refuses(receipt_refusals(reader, tenant)),
            Err(e) => is_first(receipt_refusals(reader, tenant), e),
        },
        receipt_reads::reader_admitted(reader, tenant) is Ok ==> reader.tenant == tenant
            && reader.now_ns < reader.deadline_ns,
{
    let all = receipt_refusals(reader, tenant);
    let k: int = if all[0] is Some {
        0
    } else if all[1] is Some {
        1
    } else if all[2] is Some {
        2
    } else if all[3] is Some {
        3
    } else if all[4] is Some {
        4
    } else if all[5] is Some {
        5
    } else {
        6
    };
    if k < 6 {
        lemma_is_first(all, k, all[k]->0);
    }
}

/// What stops a worker that reads, in the order in which it is looked at.
pub open spec fn moment_refusals(moment: ReadMoment) -> Seq<Option<Error>> {
    seq![
        moment.cancellation,
        moment.live_refusal,
        if moment.now_ns < moment.deadline_ns {
            None
        } else {
            Some(
                errors::refusal(ErrorCode::Unavailable, "mutation receipt deadline exceeded"),
            )
        },
    ]
}

/// A read goes on exactly while nothing stops it.
pub proof fn lemma_read_goes_on(moment: ReadMoment)
    ensures
        match receipt_reads::moment_checked(moment) {
            Ok(()) => none_refuses(moment_refusals(moment)),
            Err(e) => is_first(moment_refusals(moment), e),
        },
{
    let all = moment_refusals(moment);
    let k: int = if all[0] is Some {
        0
    } else if all[1] is Some {
        1
    } else if all[2] is Some {
        2
    } else {
        3
    };
    if k < 3 {
        lemma_is_first(all, k, all[k]->0);
    }
}

/// What refuses the reader of a policy and its limits, in the order in which it is
/// looked at.
pub open spec fn limits_refusals(reader: LimitsReader, tenant: Name, incarnation: Seq<char>) -> Seq<
    Option<Error>,
> {
    seq![
        reader.access_refusal,
        reader.name_refusal,
        if reader.tenant == tenant {
            None
        } else {
            Some(errors::refusal(ErrorCode::Forbidden, "tenant access denied"))
        },
        if identities::canonical_identity(incarnation) is Some {
            None
        } else {
            Some(
                errors::refusal(
                    ErrorCode::InvalidArgument,
                    "policy/limits read requires a canonical nonzero incarnation",
                ),
            )
        },
        reader.admin_refusal,
    ]
}

/// A policy and its limits are read exactly where nothing refuses the reader, under the
/// incarnation that it names, and never of another tenant.
pub proof fn lemma_limits_reader(reader: LimitsReader, tenant: Name, incarnation: Seq<char>)
    ensures
        match policy_limits::reader_admitted(reader, tenant, incarnation) {
            Ok(id) => {
                &&& none_refuses(limits_refusals(reader, tenant, incarnation))
                &&& identities::canonical_identity(incarnation) == Some(id)
                &&& reader.tenant == tenant
            },
            Err(e) => is_first(limits_refusals(reader, tenant, incarnation), e),
        },
{
    let all = limits_refusals(reader, tenant, incarnation);
    let k: int = if all[0] is Some {
        0
    } else if all[1] is Some {
        1
    } else if all[2] is Some {
        2
    } else if all[3] is Some {
        3
    } else if all[4] is Some {
        4
    } else {
        5
    };
    if k < 5 {
        lemma_is_first(all, k, all[k]->0);
    }
}

proof fn lemma_common(names: Seq<Seq<u8>>, strict: Seq<Seq<u8>>, n: int)
    requires
        0 <= n <= names.len(),
    ensures
        receipt_reads::common(names, strict, n) == names.take(n).filter(
            |name: Seq<u8>| strict.contains(name),
        ),
        forall|name: Seq<u8>| #[trigger]
            receipt_reads::common(names, strict, n).contains(name) <==> names.take(n).contains(name)
                && strict.contains(name),
    decreases n,
{
    let keep = |name: Seq<u8>| strict.contains(name);
    reveal(Seq::filter);
    if n > 0 {
        lemma_common(names, strict, n - 1);
        let before = receipt_reads::common(names, strict, n - 1);
        let after = receipt_reads::common(names, strict, n);
        let last = names[n - 1];
        assert(names.take(n).drop_last() =~= names.take(n - 1));
        assert(names.take(n).last() == last);
        assert forall|name: Seq<u8>| #[trigger]
            names.take(n).contains(name) <==> names.take(n - 1).contains(name) || name == last by {
            assert(names.take(n) =~= names.take(n - 1).push(last));
            if names.take(n - 1).contains(name) {
                let i = names.take(n - 1).index_of(name);
                assert(names.take(n)[i] == name);
            }
            assert(names.take(n)[n - 1] == last);
        }
        assert forall|name: Seq<u8>| #[trigger] after.contains(name) <==> before.contains(name) || (
        name == last && strict.contains(last)) by {
            if before.contains(name) {
                let i = before.index_of(name);
                assert(after[i] == name);
            }
            if strict.contains(last) {
                assert(after[before.len() as int] == last);
            }
        }
    } else {
        assert(names.take(n) =~= Seq::empty());
    }
}

/// The collections of a receipt that demand a strict audit are exactly those of it that
/// are among the strict ones, in the receipt's order and as often as it names them.
pub proof fn lemma_strict(names: Seq<Seq<u8>>, strict: Seq<Seq<u8>>)
    ensures
        receipt_reads::common(names, strict, names.len() as int) == names.filter(
            |name: Seq<u8>| strict.contains(name),
        ),
        forall|name: Seq<u8>| #[trigger]
            receipt_reads::common(names, strict, names.len() as int).contains(name)
                <==> names.contains(name) && strict.contains(name),
{
    lemma_common(names, strict, names.len() as int);
    assert(names.take(names.len() as int) =~= names);
}

/// An incarnation is named by its canonical text alone, and the nil one by none.
pub proof fn lemma_named(text: Seq<char>)
    ensures
        match identities::canonical_identity(text) {
            Some(id) => id != 0 && text == identities::canonical_text(id)
                && identities::spelled_identity(text) == Some(id),
            None => forall|id: u128|
                id != 0 && identities::spelled_identity(text) == Some(id) ==> text
                    != #[trigger] identities::canonical_text(id),
        },
{
}

/// A policy and its limits are released exactly of the tenant and the incarnation that were
/// asked for, where nothing refuses their release, and within their bytes; and then as they
/// are.
pub proof fn lemma_limits_released(
    current: PolicyLimitsSnapshot,
    tenant: Name,
    incarnation: u128,
    refusal: Option<Error>,
    bytes: u64,
    max_bytes: u64,
)
    ensures
        ({
            let r = policy_limits::snapshot_released(
                current,
                tenant,
                incarnation,
                refusal,
                bytes,
                max_bytes,
            );
            let same = current.tenant == tenant && current.incarnation == incarnation;
            &&& r is Ok <==> same && refusal is None && bytes <= max_bytes
            &&& r is Ok ==> r->Ok_0 == current
            &&& !same ==> r is Err && r->Err_0.code == ErrorCode::Conflict
            &&& same && refusal is Some ==> r == Err::<PolicyLimitsSnapshot, Error>(refusal->0)
            &&& same && refusal is None && r is Err ==> r->Err_0.code
                == ErrorCode::ResourceExhausted
        }),
{
}

} // verus!
