//! SHA-256 digests, and names carried by the digest of their text.
use sha2::Digest as _;
use vstd::prelude::*;

verus! {

/// A SHA-256 digest: its first and its last sixteen bytes, big end first.
#[derive(Clone, Copy, Debug, PartialEq, Eq, Structural)]
pub struct Digest {
    pub high: u128,
    pub low: u128,
}

/// The two halves of the SHA-256 digest of a message, as `sha2` computes it.
pub uninterp spec fn sha256(message: Seq<u8>) -> (u128, u128);

/// `sha2::Sha256::digest`: the two halves of its thirty-two bytes are the
/// halves that `sha256` names, a function of the message alone.
#[verifier::external_body]
fn sha256_halves(message: &[u8]) -> (halves: (u128, u128))
    ensures
        halves == sha256(message@),
{
    let bytes: [u8; 32] = sha2::Sha256::digest(message).into();
    let mut high = [0u8; 16];
    let mut low = [0u8; 16];
    high.copy_from_slice(&bytes[..16]);
    low.copy_from_slice(&bytes[16..]);
    (u128::from_be_bytes(high), u128::from_be_bytes(low))
}

/// `sha2::Sha256` as it stands between two pieces of a message.
#[verifier::external_body]
pub struct Hasher {
    state: sha2::Sha256,
}

/// The bytes that a hasher has taken in, one piece behind the other.
pub uninterp spec fn absorbed(hasher: Hasher) -> Seq<u8>;

/// `sha2::Sha256::new`: a hasher that has taken in nothing.
#[verifier::external_body]
pub(crate) fn hasher() -> (hasher: Hasher)
    ensures
        absorbed(hasher) == Seq::<u8>::empty(),
{
    Hasher { state: sha2::Sha256::new() }
}

/// `sha2::Sha256::update`: the piece is taken in behind what was taken in before.
#[verifier::external_body]
pub(crate) fn absorb(hasher: &mut Hasher, piece: &[u8])
    ensures
        absorbed(*final(hasher)) == absorbed(*old(hasher)) + piece@,
{
    hasher.state.update(piece);
}

/// `sha2::Sha256::finalize`: the halves of the digest of all that was taken in, which
/// are those of the same bytes hashed at once.
#[verifier::external_body]
pub(crate) fn finalized(hasher: Hasher) -> (halves: (u128, u128))
    ensures
        halves == sha256(absorbed(hasher)),
{
    let bytes: [u8; 32] = hasher.state.finalize().into();
    let mut high = [0u8; 16];
    let mut low = [0u8; 16];
    high.copy_from_slice(&bytes[..16]);
    low.copy_from_slice(&bytes[16..]);
    (u128::from_be_bytes(high), u128::from_be_bytes(low))
}

pub open spec fn digest_of(message: Seq<u8>) -> Digest {
    Digest { high: sha256(message).0, low: sha256(message).1 }
}

/// The digest of a message.
pub fn digest(message: &[u8]) -> (d: Digest)
    ensures
        d == digest_of(message@),
{
    let halves = sha256_halves(message);
    Digest { high: halves.0, low: halves.1 }
}

/// A tenant, principal, partition or failure domain, known by its text's digest.
#[derive(Clone, Copy, Debug, PartialEq, Eq, Structural)]
pub struct Name {
    pub text: Digest,
}

pub open spec fn name_of(text: Seq<char>) -> Name {
    Name { text: digest_of(vstd::utf8::encode_utf8(text)) }
}

impl Name {
    pub fn of(text: &str) -> (name: Name)
        ensures
            name == name_of(text@),
    {
        Name { text: digest(text.as_bytes()) }
    }
}

/// The bytes of a sequence of words, each sixteen bytes with the small end first.
pub open spec fn bytes_of(words: Seq<u128>) -> Seq<u8>
    decreases words.len(),
{
    if words.len() == 0 {
        Seq::empty()
    } else {
        bytes_of(words.drop_last()) + vstd::bytes::spec_u128_to_le_bytes(words.last())
    }
}

fn bytes(words: &Vec<u128>) -> (out: Vec<u8>)
    ensures
        out@ == bytes_of(words@),
{
    let mut out: Vec<u8> = Vec::new();
    let mut i: usize = 0;
    while i < words.len()
        invariant
            i <= words.len(),
            out@ == bytes_of(words@.subrange(0, i as int)),
        decreases words.len() - i,
    {
        let mut word = vstd::bytes::u128_to_le_bytes(words[i]);
        out.append(&mut word);
        proof {
            assert(words@.subrange(0, i + 1).drop_last() =~= words@.subrange(0, i as int));
        }
        i = i + 1;
    }
    assert(words@.subrange(0, words@.len() as int) =~= words@);
    out
}

/// The digest of a record's words.
pub open spec fn digest_of_words(words: Seq<u128>) -> Digest {
    digest_of(bytes_of(words))
}

pub fn digest_words(words: &Vec<u128>) -> (d: Digest)
    ensures
        d == digest_of_words(words@),
{
    let message = bytes(words);
    digest(&message)
}

} // verus!
