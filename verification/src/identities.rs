//! Identities: new ones, and how they are written.
use vstd::arithmetic::power::pow;
use vstd::prelude::*;

use crate::hex_text;

verus! {

/// `uuid::Uuid::new_v4`: a random identity, as a number. It is not nil, for its
/// version is set in it; nothing else is said of it.
#[verifier::external_body]
pub(crate) fn new_identity() -> (id: u128)
    ensures
        id != 0,
{
    uuid::Uuid::new_v4().as_u128()
}

/// What identity a text spells, as `uuid` reads it, if it spells one.
pub uninterp spec fn spelled_identity(text: Seq<char>) -> Option<u128>;

/// `uuid::Uuid::parse_str`: the identity that the text spells, if it spells one in
/// any of the forms that `uuid` takes, a function of the text alone.
#[verifier::external_body]
fn parse_identity(text: &str) -> (id: Option<u128>)
    ensures
        id == spelled_identity(text@),
{
    uuid::Uuid::parse_str(text).ok().map(|id| id.as_u128())
}

/// How many hyphens stand before a place of the canonical text.
pub open spec fn hyphens_before(place: int) -> int {
    if place < 8 {
        0
    } else if place < 13 {
        1
    } else if place < 18 {
        2
    } else if place < 23 {
        3
    } else {
        4
    }
}

/// An identity as thirty-two lower-case digits, the highest first, in groups of
/// eight, four, four, four and twelve between hyphens.
pub open spec fn canonical_text(id: u128) -> Seq<char> {
    Seq::new(
        36,
        |i: int|
            if i == 8 || i == 13 || i == 18 || i == 23 {
                '-'
            } else {
                hex_text::digit(
                    (id as int / pow(16, (31 - (i - hyphens_before(i))) as nat)) % 16,
                )
            },
    )
}

/// `uuid::Uuid::to_string`: the canonical text of an identity.
#[verifier::external_body]
fn identity_text(id: u128) -> (text: String)
    ensures
        text@ == canonical_text(id),
{
    uuid::Uuid::from_u128(id).to_string()
}

/// The identity that a text spells canonically, unless it is nil.
pub open spec fn canonical_identity(text: Seq<char>) -> Option<u128> {
    match spelled_identity(text) {
        None => None,
        Some(id) => if id == 0 || canonical_text(id) != text {
            None
        } else {
            Some(id)
        },
    }
}

fn same_text(a: &str, b: &str) -> (r: bool)
    ensures
        r == (a@ == b@),
{
    proof {
        vstd::utf8::encode_utf8_decode_utf8(a@);
        vstd::utf8::encode_utf8_decode_utf8(b@);
    }
    let left = a.as_bytes();
    let right = b.as_bytes();
    if left.len() != right.len() {
        return false;
    }
    let mut i: usize = 0;
    while i < left.len()
        invariant
            i <= left.len(),
            left.len() == right.len(),
            left@ == vstd::utf8::encode_utf8(a@),
            right@ == vstd::utf8::encode_utf8(b@),
            forall|j: int| 0 <= j < i ==> left@[j] == right@[j],
        decreases left.len() - i,
    {
        if left[i] != right[i] {
            return false;
        }
        i = i + 1;
    }
    assert(left@ =~= right@);
    true
}

/// The identity that a text spells canonically, unless it is nil.
pub fn read_identity(text: &str) -> (id: Option<u128>)
    ensures
        id == canonical_identity(text@),
{
    match parse_identity(text) {
        None => None,
        Some(id) => {
            if id == 0 || !same_text(identity_text(id).as_str(), text) {
                None
            } else {
                Some(id)
            }
        },
    }
}

} // verus!
