//! Point reads of retained receipts: when one is admitted, what its decoding may
//! take, and which of its collections demand a strict audit.
use vstd::prelude::*;

use crate::digest::Name;
use crate::errors;
use crate::errors::{error, Error, ErrorCode};
use crate::mutation_receipt;
use crate::mutation_receipt::{Receipt, Row, RowContext};
use crate::texts::{copy_text, same};

verus! {

/// What is reserved before a receipt is read.
pub const POINT_READ_BYTES: u64 = 8388608;

/// Who reads a receipt, and when: what refuses the caller's credential, the
/// namespace's access, the names that it asks for and the resource, each if anything.
#[derive(Clone, Copy, Debug)]
pub struct ReceiptReader {
    pub tenant: Name,
    pub live_refusal: Option<Error>,
    pub access_refusal: Option<Error>,
    pub name_refusal: Option<Error>,
    pub resource_refusal: Option<Error>,
    pub now_ns: u128,
    pub deadline_ns: u128,
}

pub open spec fn late() -> Error {
    errors::refusal(ErrorCode::Unavailable, "mutation receipt deadline exceeded")
}

pub open spec fn reader_admitted(reader: ReceiptReader, tenant: Name) -> Result<(), Error> {
    if reader.live_refusal is Some {
        Err(reader.live_refusal->0)
    } else if reader.now_ns >= reader.deadline_ns {
        Err(late())
    } else if reader.access_refusal is Some {
        Err(reader.access_refusal->0)
    } else if reader.name_refusal is Some {
        Err(reader.name_refusal->0)
    } else if reader.resource_refusal is Some {
        Err(reader.resource_refusal->0)
    } else if reader.tenant != tenant {
        Err(errors::refusal(ErrorCode::Forbidden, "receipt tenant differs"))
    } else {
        Ok(())
    }
}

/// Whether a receipt of the tenant may be read.
pub fn admit_reader(reader: &ReceiptReader, tenant: Name) -> (r: Result<(), Error>)
    ensures
        r == reader_admitted(*reader, tenant),
{
    match reader.live_refusal {
        Some(refusal) => return Err(refusal),
        None => {},
    }
    if reader.now_ns >= reader.deadline_ns {
        return Err(error(ErrorCode::Unavailable, "mutation receipt deadline exceeded"));
    }
    match reader.access_refusal {
        Some(refusal) => return Err(refusal),
        None => {},
    }
    match reader.name_refusal {
        Some(refusal) => return Err(refusal),
        None => {},
    }
    match reader.resource_refusal {
        Some(refusal) => return Err(refusal),
        None => {},
    }
    if reader.tenant != tenant {
        return Err(error(ErrorCode::Forbidden, "receipt tenant differs"));
    }
    Ok(())
}

/// What decoding a row takes: validation makes one more bounded copy of it.
pub fn decode_workspace(peak: u64) -> (r: Result<u64, Error>)
    ensures
        r == if peak * 2 > u64::MAX {
            Err(
                errors::refusal(
                    ErrorCode::ResourceExhausted,
                    "receipt decode workspace overflow",
                ),
            )
        } else {
            Ok((peak * 2) as u64)
        },
{
    match peak.checked_mul(2) {
        None => Err(error(ErrorCode::ResourceExhausted, "receipt decode workspace overflow")),
        Some(bytes) => Ok(bytes),
    }
}

/// The names of the first that are among the second, of the first `n`.
pub open spec fn common(names: Seq<Seq<u8>>, others: Seq<Seq<u8>>, n: int) -> Seq<Seq<u8>>
    decreases n,
{
    if n <= 0 {
        Seq::empty()
    } else if others.contains(names[n - 1]) {
        common(names, others, n - 1).push(names[n - 1])
    } else {
        common(names, others, n - 1)
    }
}

fn among(names: &Vec<Vec<u8>>, name: &Vec<u8>) -> (b: bool)
    ensures
        b == mutation_receipt::names_view(names@).contains(name@),
{
    let ghost view = mutation_receipt::names_view(names@);
    let mut i: usize = 0;
    while i < names.len()
        invariant
            i <= names.len(),
            view == mutation_receipt::names_view(names@),
            forall|j: int| 0 <= j < i ==> #[trigger] view[j] != name@,
        decreases names.len() - i,
    {
        if same(&names[i], name) {
            assert(view[i as int] == name@);
            return true;
        }
        i = i + 1;
    }
    false
}

/// The receipt's collections whose definitions demand a strict audit.
pub fn strict_collections(collections: &Vec<Vec<u8>>, strict: &Vec<Vec<u8>>) -> (names: Vec<Vec<u8>>)
    ensures
        mutation_receipt::names_view(names@) == common(
            mutation_receipt::names_view(collections@),
            mutation_receipt::names_view(strict@),
            collections@.len() as int,
        ),
{
    let ghost view = mutation_receipt::names_view(collections@);
    let ghost other = mutation_receipt::names_view(strict@);
    let mut names: Vec<Vec<u8>> = Vec::new();
    let mut i: usize = 0;
    assert(mutation_receipt::names_view(names@) =~= Seq::empty());
    while i < collections.len()
        invariant
            i <= collections.len(),
            view == mutation_receipt::names_view(collections@),
            other == mutation_receipt::names_view(strict@),
            mutation_receipt::names_view(names@) == common(view, other, i as int),
        decreases collections.len() - i,
    {
        assert(view[i as int] == collections@[i as int]@);
        if among(strict, &collections[i]) {
            let ghost held = names@;
            names.push(copy_text(&collections[i]));
            assert(mutation_receipt::names_view(names@) =~= mutation_receipt::names_view(
                held,
            ).push(view[i as int]));
        }
        i = i + 1;
    }
    names
}

/// What a worker goes by while it reads: what cancels the read and what refuses the
/// caller's credential by now, each if anything, and the time.
#[derive(Clone, Copy, Debug)]
pub struct ReadMoment {
    pub cancellation: Option<Error>,
    pub live_refusal: Option<Error>,
    pub now_ns: u128,
    pub deadline_ns: u128,
}

pub open spec fn moment_checked(moment: ReadMoment) -> Result<(), Error> {
    if moment.cancellation is Some {
        Err(moment.cancellation->0)
    } else if moment.live_refusal is Some {
        Err(moment.live_refusal->0)
    } else if moment.now_ns >= moment.deadline_ns {
        Err(late())
    } else {
        Ok(())
    }
}

/// Whether the read is still wanted.
pub fn check_moment(moment: &ReadMoment) -> (r: Result<(), Error>)
    ensures
        r == moment_checked(*moment),
{
    match moment.cancellation {
        Some(refusal) => return Err(refusal),
        None => {},
    }
    match moment.live_refusal {
        Some(refusal) => return Err(refusal),
        None => {},
    }
    if moment.now_ns >= moment.deadline_ns {
        return Err(error(ErrorCode::Unavailable, "mutation receipt deadline exceeded"));
    }
    Ok(())
}

/// The generation that a receipt is read from, and its collections that demand a
/// strict audit.
pub struct ReceiptSource {
    pub revision: u64,
    pub policy_epoch: u64,
    pub strict_read_audit: bool,
    pub strict: Vec<Vec<u8>>,
}

/// A receipt as it was read, or its absence.
pub struct ReceiptRead {
    pub receipt: Option<Receipt>,
    pub revision: u64,
    pub epoch: u64,
    pub strict: bool,
    pub strict_collections: Vec<Vec<u8>>,
}

/// Whether this is what a row comes to, read from the generation.
pub open spec fn is_read(source: ReceiptSource, row: Option<Row>, read: ReceiptRead) -> bool {
    &&& read.revision == source.revision
    &&& read.epoch == source.policy_epoch
    &&& read.strict == source.strict_read_audit
    &&& match row {
        None => read.receipt is None && read.strict_collections@.len() == 0,
        Some(row) => {
            &&& read.receipt is Some
            &&& read.receipt->0@ == row@.receipt
            &&& mutation_receipt::names_view(read.strict_collections@) == common(
                row@.receipt.collections,
                mutation_receipt::names_view(source.strict@),
                row@.receipt.collections.len() as int,
            )
        },
    }
}

/// What reading a row comes to. A row that does not hold is no absence, and a read
/// that is no longer wanted `behind` the row answers nothing.
pub fn read_receipt(
    source: &ReceiptSource,
    row: Option<Row>,
    context: &RowContext,
    behind: &ReadMoment,
) -> (r: Result<ReceiptRead, Error>)
    ensures
        if row is Some && mutation_receipt::row_checked(row->0@, *context) is Err {
            r == Err::<ReceiptRead, Error>(
                mutation_receipt::row_checked(row->0@, *context)->Err_0,
            )
        } else {
            match moment_checked(*behind) {
                Err(e) => r == Err::<ReceiptRead, Error>(e),
                Ok(()) => r is Ok && is_read(*source, row, r->Ok_0),
            }
        },
{
    match row {
        None => {
            check_moment(behind)?;
            Ok(
                ReceiptRead {
                    receipt: None,
                    revision: source.revision,
                    epoch: source.policy_epoch,
                    strict: source.strict_read_audit,
                    strict_collections: Vec::new(),
                },
            )
        },
        Some(row) => {
            row.validate(context)?;
            let names = strict_collections(&row.receipt.collections, &source.strict);
            check_moment(behind)?;
            Ok(
                ReceiptRead {
                    receipt: Some(row.receipt),
                    revision: source.revision,
                    epoch: source.policy_epoch,
                    strict: source.strict_read_audit,
                    strict_collections: names,
                },
            )
        },
    }
}

} // verus!
