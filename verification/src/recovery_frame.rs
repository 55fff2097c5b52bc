//! How a recovery command is framed: a fixed prefix, then the command's bytes.
use vstd::prelude::*;

use crate::errors::{conflict, error, Error, ErrorCode};
use crate::errors;

verus! {

/// The longest frame.
pub const MAX_COMMAND_BYTES: usize = 2162688;

/// "KASUMI_RECOVERY_V1" and a zero byte.
pub open spec fn prefix() -> Seq<u8> {
    seq![
        75u8, 65u8, 83u8, 85u8, 77u8, 73u8, 95u8, 82u8, 69u8, 67u8, 79u8, 86u8, 69u8, 82u8, 89u8,
        95u8, 86u8, 49u8, 0u8,
    ]
}

fn prefix_bytes() -> (bytes: Vec<u8>)
    ensures
        bytes@ == prefix(),
{
    let bytes: Vec<u8> = vec![
        75u8, 65u8, 83u8, 85u8, 77u8, 73u8, 95u8, 82u8, 69u8, 67u8, 79u8, 86u8, 69u8, 82u8, 89u8,
        95u8, 86u8, 49u8, 0u8,
    ];
    assert(bytes@ =~= prefix());
    bytes
}

/// The frame of a command's bytes, unless it would be too long.
pub open spec fn framed(body: Seq<u8>) -> Result<Seq<u8>, Error> {
    if body.len() + prefix().len() > MAX_COMMAND_BYTES {
        Err(errors::refusal(ErrorCode::ResourceExhausted, "recovery command work limit"))
    } else {
        Ok(prefix() + body)
    }
}

pub fn encode(body: &[u8]) -> (r: Result<Vec<u8>, Error>)
    ensures
        match r {
            Ok(bytes) => framed(body@) == Ok::<Seq<u8>, Error>(bytes@),
            Err(e) => framed(body@) == Err::<Seq<u8>, Error>(e),
        },
{
    let mut bytes = prefix_bytes();
    if body.len() > MAX_COMMAND_BYTES - bytes.len() {
        return Err(error(ErrorCode::ResourceExhausted, "recovery command work limit"));
    }
    let mut i: usize = 0;
    while i < body.len()
        invariant
            i <= body.len(),
            bytes@ == prefix() + body@.subrange(0, i as int),
        decreases body.len() - i,
    {
        bytes.push(body[i]);
        i = i + 1;
        assert(bytes@ =~= prefix() + body@.subrange(0, i as int));
    }
    assert(body@.subrange(0, body@.len() as int) =~= body@);
    Ok(bytes)
}

/// Whether the bytes begin as a recovery command does.
pub open spec fn is_framed(bytes: Seq<u8>) -> bool {
    bytes.len() >= prefix().len() && bytes.subrange(0, prefix().len() as int) == prefix()
}

pub fn is_recovery(bytes: &[u8]) -> (b: bool)
    ensures
        b == is_framed(bytes@),
{
    let start = prefix_bytes();
    if bytes.len() < start.len() {
        return false;
    }
    let mut i: usize = 0;
    while i < start.len()
        invariant
            i <= start.len() <= bytes.len(),
            start@ == prefix(),
            forall|j: int| 0 <= j < i ==> bytes@[j] == prefix()[j],
        decreases start.len() - i,
    {
        if bytes[i] != start[i] {
            assert(bytes@.subrange(0, prefix().len() as int)[i as int] != prefix()[i as int]);
            return false;
        }
        i = i + 1;
    }
    assert(bytes@.subrange(0, prefix().len() as int) =~= prefix());
    true
}

/// The command's bytes within a frame. A frame that is too long, or that comes
/// with a custody seed, is refused.
pub open spec fn unframed(bytes: Seq<u8>, seeded: bool) -> Result<Seq<u8>, Error> {
    if bytes.len() > MAX_COMMAND_BYTES || seeded {
        Err(errors::conflicting("invalid recovery command work or custody seed"))
    } else {
        Ok(bytes.subrange(prefix().len() as int, bytes.len() as int))
    }
}

pub fn decode(bytes: &[u8], seeded: bool) -> (r: Result<Vec<u8>, Error>)
    requires
        is_framed(bytes@),
    ensures
        match r {
            Ok(body) => unframed(bytes@, seeded) == Ok::<Seq<u8>, Error>(body@),
            Err(e) => unframed(bytes@, seeded) == Err::<Seq<u8>, Error>(e),
        },
{
    if bytes.len() > MAX_COMMAND_BYTES || seeded {
        return Err(conflict("invalid recovery command work or custody seed"));
    }
    let start = prefix_bytes();
    let mut body: Vec<u8> = Vec::new();
    let mut i: usize = start.len();
    while i < bytes.len()
        invariant
            prefix().len() <= i <= bytes.len(),
            body@ == bytes@.subrange(prefix().len() as int, i as int),
        decreases bytes.len() - i,
    {
        body.push(bytes[i]);
        i = i + 1;
        assert(body@ =~= bytes@.subrange(prefix().len() as int, i as int));
    }
    Ok(body)
}

/// A frame is recognized, and gives back the command that it was made of.
pub proof fn lemma_frame(body: Seq<u8>)
    requires
        framed(body) is Ok,
    ensures
        is_framed(framed(body)->Ok_0),
        unframed(framed(body)->Ok_0, false) == Ok::<Seq<u8>, Error>(body),
{
    let bytes = prefix() + body;
    assert(bytes.subrange(0, prefix().len() as int) =~= prefix());
    assert(bytes.subrange(prefix().len() as int, bytes.len() as int) =~= body);
}

} // verus!
