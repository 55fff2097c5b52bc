//! Bytes written as lower-case hexadecimal digits.
use vstd::prelude::*;

verus! {

/// The digit of a value below sixteen.
pub open spec fn digit(value: int) -> char {
    if value < 10 {
        (0x30 + value) as char
    } else {
        (0x57 + value) as char
    }
}

/// Two digits for each byte, its upper half first.
pub open spec fn hex_text(bytes: Seq<u8>) -> Seq<char> {
    Seq::new(
        2 * bytes.len(),
        |i: int| digit(if i % 2 == 0 { bytes[i / 2] / 16 } else { bytes[i / 2] % 16 } as int),
    )
}

/// `hex::encode`: the text of `bytes` in lower-case digits, two for each byte.
#[verifier::external_body]
pub(crate) fn encode(bytes: &[u8]) -> (text: String)
    ensures
        text@ == hex_text(bytes@),
{
    hex::encode(bytes)
}

} // verus!
