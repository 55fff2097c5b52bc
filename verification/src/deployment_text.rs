//! The text of a deployment's strings: what a string decodes to is itself UTF-8.
use vstd::prelude::*;

use crate::deployment_grammar as grammar;
use crate::deployment_grammar::{Cursor, BACKSLASH, QUOTE};

verus! {

proof fn lemma_hex4_bounded(b: Seq<u8>, p: int)
    requires
        grammar::hex4(b, p) is Ok,
    ensures
        grammar::hex4(b, p)->Ok_0 <= 0xFFFF,
        0 <= p,
        p + 4 <= b.len(),
        b[p + 3] < 0x80,
{
    let first = grammar::hex_step(b, Ok(0), p);
    let second = grammar::hex_step(b, first, p + 1);
    let third = grammar::hex_step(b, second, p + 2);
    assert(first->Ok_0 < 16);
    assert(second->Ok_0 < 256);
    assert(third->Ok_0 < 4096);
    assert(grammar::hex_step(b, third, p + 3) is Ok);
}

/// The encoding of a scalar is UTF-8.
proof fn lemma_scalar(v: u32)
    requires
        vstd::utf8::is_scalar(v),
    ensures
        vstd::utf8::valid_utf8(vstd::utf8::encode_scalar(v)),
{
    let chars = seq![v as char];
    vstd::utf8::encode_utf8_valid_utf8(chars);
    assert(chars.drop_first() =~= Seq::<char>::empty());
    assert(vstd::utf8::encode_utf8(chars.drop_first()) =~= Seq::<u8>::empty());
    assert(vstd::utf8::encode_utf8(chars) =~= vstd::utf8::encode_scalar(v));
}

proof fn lemma_ascii(x: u8)
    requires
        x < 0x80,
    ensures
        vstd::utf8::valid_utf8(seq![x]),
{
    reveal_with_fuel(vstd::utf8::valid_utf8, 2);
    let bytes = seq![x];
    assert(vstd::utf8::pop_first_scalar(bytes).len() == 0);
}

/// What an escape stands for is UTF-8, and its last byte is a letter, a digit or a sign.
proof fn lemma_escape(b: Seq<u8>, p: int)
    requires
        0 <= p < b.len(),
        b[p] == BACKSLASH,
        grammar::unit(b, p) is Ok,
    ensures
        p < grammar::unit(b, p)->Ok_0.0 <= b.len(),
        b[grammar::unit(b, p)->Ok_0.0 - 1] < 0x80,
        vstd::utf8::valid_utf8(grammar::unit(b, p)->Ok_0.1),
{
    match grammar::simple_escape(b[p + 1]) {
        Some(y) => {
            lemma_ascii(y);
        },
        None => {
            lemma_hex4_bounded(b, p + 2);
            let first = grammar::hex4(b, p + 2)->Ok_0;
            if 0xD800 <= first <= 0xDBFF {
                lemma_hex4_bounded(b, p + 8);
                let second = grammar::hex4(b, p + 8)->Ok_0;
                lemma_scalar((0x10000 + (first - 0xD800) * 1024 + (second - 0xDC00)) as u32);
            } else {
                lemma_scalar(first);
            }
        },
    }
}

/// A byte behind a string's first that is no ASCII byte stands for itself.
proof fn lemma_plain(b: Seq<u8>, p: int)
    requires
        0 <= p < b.len(),
        b[p] >= 0x80,
        grammar::body(b, p) is Ok,
    ensures
        grammar::body(b, p + 1) is Ok,
        grammar::body(b, p)->Ok_0.1 == seq![b[p]] + grammar::body(b, p + 1)->Ok_0.1,
{
}

/// Behind an ASCII byte a UTF-8 text goes on as UTF-8.
proof fn lemma_behind_ascii(b: Seq<u8>, p: int)
    requires
        vstd::utf8::valid_utf8(b),
        0 <= p < b.len(),
        b[p] < 0x80,
    ensures
        vstd::utf8::valid_utf8(b.subrange(p + 1, b.len() as int)),
{
    let n = b.len() as int;
    vstd::utf8::is_char_boundary_iff_not_is_continuation_byte(b, p);
    vstd::utf8::valid_utf8_split(b, p);
    let tail = b.subrange(p, n);
    assert(tail[0] == b[p]);
    assert(vstd::utf8::pop_first_scalar(tail) =~= b.subrange(p + 1, n));
}

/// The scalar at `p` is UTF-8 by itself, and so is what follows it.
proof fn lemma_first_scalar(b: Seq<u8>, p: int) -> (length: int)
    requires
        0 <= p < b.len(),
        vstd::utf8::valid_utf8(b.subrange(p, b.len() as int)),
    ensures
        1 <= length <= 4,
        p + length <= b.len(),
        forall|i: int| p < i < p + length ==> #[trigger] b[i] >= 0x80,
        vstd::utf8::valid_utf8(b.subrange(p, p + length)),
        vstd::utf8::valid_utf8(b.subrange(p + length, b.len() as int)),
{
    let n = b.len() as int;
    let s = b.subrange(p, n);
    let length = vstd::utf8::length_of_first_scalar(s);
    assert(vstd::utf8::valid_first_scalar(s));
    assert forall|i: int| p < i < p + length implies #[trigger] b[i] >= 0x80 by {
        assert(s[i - p] == b[i]);
        assert(i - p == 1 || i - p == 2 || i - p == 3);
    }
    assert(vstd::utf8::pop_first_scalar(s) =~= b.subrange(p + length, n));
    let first = b.subrange(p, p + length);
    assert(vstd::utf8::take_first_scalar(s) =~= first);
    assert(forall|i: int| 0 <= i < length ==> first[i] == s[i]);
    assert(vstd::utf8::valid_first_scalar(first));
    assert(vstd::utf8::pop_first_scalar(first).len() == 0);
    reveal_with_fuel(vstd::utf8::valid_utf8, 2);
    length
}

/// A run of bytes that are no ASCII bytes stands for itself.
proof fn lemma_plain_run(b: Seq<u8>, p: int, q: int)
    requires
        0 <= p <= q <= b.len(),
        forall|i: int| p <= i < q ==> #[trigger] b[i] >= 0x80,
        grammar::body(b, p) is Ok,
    ensures
        grammar::body(b, q) is Ok,
        grammar::body(b, p)->Ok_0.1 == b.subrange(p, q) + grammar::body(b, q)->Ok_0.1,
    decreases q - p,
{
    if p < q {
        lemma_plain(b, p);
        lemma_plain_run(b, p + 1, q);
        assert(seq![b[p]] + b.subrange(p + 1, q) =~= b.subrange(p, q));
        assert(grammar::body(b, p)->Ok_0.1 =~= b.subrange(p, q) + grammar::body(b, q)->Ok_0.1);
    } else {
        assert(b.subrange(p, q) =~= Seq::<u8>::empty());
        assert(grammar::body(b, p)->Ok_0.1 =~= b.subrange(p, q) + grammar::body(b, q)->Ok_0.1);
    }
}

proof fn lemma_body_text(b: Seq<u8>, p: int)
    requires
        vstd::utf8::valid_utf8(b),
        0 <= p <= b.len(),
        vstd::utf8::valid_utf8(b.subrange(p, b.len() as int)),
        grammar::body(b, p) is Ok,
    ensures
        vstd::utf8::valid_utf8(grammar::body(b, p)->Ok_0.1),
    decreases b.len() - p,
{
    if b[p] == QUOTE {
        assert(grammar::body(b, p)->Ok_0.1.len() == 0);
    } else if b[p] == BACKSLASH {
        let (q, out) = grammar::unit(b, p)->Ok_0;
        lemma_escape(b, p);
        lemma_behind_ascii(b, q - 1);
        lemma_body_text(b, q);
        vstd::utf8::valid_utf8_concat(out, grammar::body(b, q)->Ok_0.1);
    } else {
        let q = p + lemma_first_scalar(b, p);
        lemma_plain_run(b, p + 1, q);
        assert(grammar::body(b, p)->Ok_0.1 == seq![b[p]] + grammar::body(b, p + 1)->Ok_0.1);
        let rest = grammar::body(b, q)->Ok_0.1;
        assert(grammar::body(b, p)->Ok_0.1 =~= b.subrange(p, q) + rest);
        lemma_body_text(b, q);
        vstd::utf8::valid_utf8_concat(b.subrange(p, q), rest);
    }
}

/// A string that is read in a UTF-8 record decodes to UTF-8: its decoded bytes are the
/// encoding of the text that they hold.
pub proof fn lemma_string_is_text(b: Seq<u8>, c: Cursor)
    requires
        vstd::utf8::valid_utf8(b),
        0 <= c.pos,
        grammar::string_at(b, c) is Ok,
    ensures
        ({
            let decoded = grammar::string_at(b, c)->Ok_0.1.decoded;
            &&& vstd::utf8::valid_utf8(decoded)
            &&& vstd::utf8::encode_utf8(vstd::utf8::decode_utf8(decoded)) == decoded
        }),
{
    reveal(grammar::string_at);
    lemma_behind_ascii(b, c.pos);
    lemma_body_text(b, c.pos + 1);
    vstd::utf8::decode_utf8_encode_utf8(grammar::string_at(b, c)->Ok_0.1.decoded);
}

/// Keys are ordered by the texts of their raw bodies, totally and transitively: of two,
/// one comes before the other or both decode to one text.
pub proof fn lemma_keys_ordered(a: Seq<u8>, b: Seq<u8>, c: Seq<u8>)
    ensures
        ({
            let (x, y, z) = (
                grammar::decode_from(a, 0),
                grammar::decode_from(b, 0),
                grammar::decode_from(c, 0),
            );
            &&& grammar::precedes(x, y) || grammar::precedes(y, x) || x == y
            &&& !(grammar::precedes(x, y) && grammar::precedes(y, x))
            &&& x == y ==> !grammar::precedes(x, y)
            &&& grammar::precedes(x, y) && grammar::precedes(y, z) ==> grammar::precedes(x, z)
        }),
{
    let (x, y, z) = (
        grammar::decode_from(a, 0),
        grammar::decode_from(b, 0),
        grammar::decode_from(c, 0),
    );
    grammar::lemma_order_total(x, y);
    if grammar::precedes(x, y) && grammar::precedes(y, z) {
        grammar::lemma_order_transitive(x, y, z);
    }
}

} // verus!
