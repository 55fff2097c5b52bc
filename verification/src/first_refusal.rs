//! The first refusal among a table's rows, in the order of their keys.
use vstd::prelude::*;

use crate::errors::Error;

verus! {

/// Whether the check refuses what stands under `key`.
pub open spec fn refused<V>(
    rows: Map<u128, V>,
    check: spec_fn(u128, V) -> Result<(), Error>,
    key: u128,
) -> bool {
    rows.dom().contains(key) && check(key, rows[key]) is Err
}

/// Whether `key` is the first that the check refuses.
pub open spec fn first_refused<V>(
    rows: Map<u128, V>,
    check: spec_fn(u128, V) -> Result<(), Error>,
    key: u128,
) -> bool {
    refused(rows, check, key) && forall|other: u128| #[trigger]
        refused(rows, check, other) ==> key <= other
}

/// What checking every row comes to: the refusal of the first row that is
/// refused, or none.
pub open spec fn every<V>(rows: Map<u128, V>, check: spec_fn(u128, V) -> Result<(), Error>) -> Result<
    (),
    Error,
> {
    if exists|key: u128| first_refused(rows, check, key) {
        let key = choose|key: u128| first_refused(rows, check, key);
        check(key, rows[key])
    } else {
        Ok(())
    }
}

pub proof fn lemma_first<V>(
    rows: Map<u128, V>,
    check: spec_fn(u128, V) -> Result<(), Error>,
    key: u128,
)
    requires
        first_refused(rows, check, key),
    ensures
        every(rows, check) == check(key, rows[key]),
{
    let first = choose|key: u128| first_refused(rows, check, key);
    assert(refused(rows, check, first));
    assert(refused(rows, check, key));
}

pub proof fn lemma_none<V>(rows: Map<u128, V>, check: spec_fn(u128, V) -> Result<(), Error>)
    requires
        forall|key: u128| rows.dom().contains(key) ==> check(key, #[trigger] rows[key]) is Ok,
    ensures
        every(rows, check) == Ok::<(), Error>(()),
{
    if exists|key: u128| first_refused(rows, check, key) {
        let key = choose|key: u128| first_refused(rows, check, key);
        assert(rows.dom().contains(key) && check(key, rows[key]) is Err);
    }
}

/// Every row passes exactly where nothing is refused: a refusal is some row's
/// own, and each row in front of it passes.
pub proof fn lemma_every<V>(rows: Map<u128, V>, check: spec_fn(u128, V) -> Result<(), Error>)
    ensures
        every(rows, check) is Ok <==> forall|key: u128|
            rows.dom().contains(key) ==> check(key, #[trigger] rows[key]) is Ok,
{
    if exists|key: u128| refused(rows, check, key) {
        let key = choose|key: u128| refused(rows, check, key);
        lemma_least(rows, check, key);
        let first = choose|key: u128| first_refused(rows, check, key);
        assert(refused(rows, check, first));
        assert(check(first, rows[first]) is Err);
    } else {
        assert forall|key: u128| rows.dom().contains(key) implies check(
            key,
            #[trigger] rows[key],
        ) is Ok by {
            assert(!refused(rows, check, key));
        }
        lemma_none(rows, check);
    }
}

/// Where a row is refused, some row is the first.
proof fn lemma_least<V>(
    rows: Map<u128, V>,
    check: spec_fn(u128, V) -> Result<(), Error>,
    key: u128,
)
    requires
        refused(rows, check, key),
    ensures
        exists|first: u128| first_refused(rows, check, first),
    decreases key,
{
    if exists|other: u128| #[trigger] refused(rows, check, other) && other < key {
        let other = choose|other: u128| #[trigger] refused(rows, check, other) && other < key;
        lemma_least(rows, check, other);
    } else {
        assert(first_refused(rows, check, key));
    }
}

} // verus!
