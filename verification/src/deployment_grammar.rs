//! The deployment record's JSON grammar.
//!
//! A deployment is written by one writer, in one field order and without
//! spaces. Each function below says what one production accepts: it takes the
//! cursor reached so far, or the message of an earlier refusal, and gives the
//! cursor behind the production, or the message of the first refusal.
use vstd::prelude::*;

use crate::deployment_preflight::Inventory;

verus! {

pub const QUOTE: u8 = 34;

pub const COMMA: u8 = 44;

pub const SLASH: u8 = 47;

pub const ZERO: u8 = 48;

pub const COLON: u8 = 58;

pub const LBRACKET: u8 = 91;

pub const BACKSLASH: u8 = 92;

pub const RBRACKET: u8 = 93;

pub const LETTER_U: u8 = 117;

pub const LBRACE: u8 = 123;

pub const RBRACE: u8 = 125;

/// Deepest nesting that a deployment may reach.
pub const MAX_DEPTH: usize = 16;

/// Most nodes of a Control topology.
pub const MAX_CONTROL_NODES: u64 = 1024;

/// Most tenant routes of a Control topology.
pub const MAX_CONTROL_TENANTS: u64 = 100_000;

/// Most authority partitions of a lifecycle installation.
pub const MAX_CONTROL_PARTITIONS: u64 = 1024;

/// How far a reading has come, and what it has counted on the way.
pub struct Cursor {
    pub pos: int,
    pub inv: Inventory,
}

/// A JSON string: the bytes between its quotes, and the bytes they stand for.
pub struct Text {
    pub raw: Seq<u8>,
    pub decoded: Seq<u8>,
}

/// The counters that grow by one at a time.
pub enum Counter {
    Strings,
    ObjectEntries,
    ArrayEntries,
    Grants,
    Voters,
    ControlNodes,
    ControlTenants,
    LifecyclePartitions,
}

pub type Step = Result<Cursor, Seq<char>>;

/// The byte at `p`, if there is one.
pub open spec fn at(b: Seq<u8>, p: int) -> Option<u8> {
    if 0 <= p < b.len() {
        Some(b[p])
    } else {
        None
    }
}

/// One given byte.
pub open spec fn byte(b: Seq<u8>, r: Step, expected: u8) -> Step {
    match r {
        Err(e) => Err(e),
        Ok(c) => if at(b, c.pos) == Some(expected) {
            Ok(Cursor { pos: c.pos + 1, inv: c.inv })
        } else {
            Err("unexpected deployment token"@)
        },
    }
}

/// An opening bracket at the given depth; the deepest one is remembered.
pub open spec fn opening(b: Seq<u8>, r: Step, bracket: u8, depth: usize) -> Step {
    match r {
        Err(e) => Err(e),
        Ok(c) => if depth > MAX_DEPTH {
            Err("deployment nesting exceeds fixed bound"@)
        } else {
            match byte(b, r, bracket) {
                Err(e) => Err(e),
                Ok(c) => Ok(
                    Cursor {
                        pos: c.pos,
                        inv: Inventory {
                            max_depth: if c.inv.max_depth < depth {
                                depth
                            } else {
                                c.inv.max_depth
                            },
                            ..c.inv
                        },
                    },
                ),
            }
        },
    }
}

pub open spec fn counter(inv: Inventory, which: Counter) -> u64 {
    match which {
        Counter::Strings => inv.strings,
        Counter::ObjectEntries => inv.object_entries,
        Counter::ArrayEntries => inv.array_entries,
        Counter::Grants => inv.grants,
        Counter::Voters => inv.voters,
        Counter::ControlNodes => inv.control_nodes,
        Counter::ControlTenants => inv.control_tenants,
        Counter::LifecyclePartitions => inv.lifecycle_partitions,
    }
}

pub open spec fn with_counter(inv: Inventory, which: Counter, value: u64) -> Inventory {
    match which {
        Counter::Strings => Inventory { strings: value, ..inv },
        Counter::ObjectEntries => Inventory { object_entries: value, ..inv },
        Counter::ArrayEntries => Inventory { array_entries: value, ..inv },
        Counter::Grants => Inventory { grants: value, ..inv },
        Counter::Voters => Inventory { voters: value, ..inv },
        Counter::ControlNodes => Inventory { control_nodes: value, ..inv },
        Counter::ControlTenants => Inventory { control_tenants: value, ..inv },
        Counter::LifecyclePartitions => Inventory { lifecycle_partitions: value, ..inv },
    }
}

/// One more of what `which` counts.
pub open spec fn count(r: Step, which: Counter) -> Step {
    match r {
        Err(e) => Err(e),
        Ok(c) => if counter(c.inv, which) == u64::MAX {
            Err("deployment inventory overflow"@)
        } else {
            Ok(
                Cursor {
                    pos: c.pos,
                    inv: with_counter(c.inv, which, (counter(c.inv, which) + 1) as u64),
                },
            )
        },
    }
}

/// Refuses when the counter has passed `max`.
pub open spec fn at_most(r: Step, which: Counter, max: u64, message: Seq<char>) -> Step {
    match r {
        Err(e) => Err(e),
        Ok(c) => if counter(c.inv, which) > max {
            Err(message)
        } else {
            r
        },
    }
}

pub open spec fn hex_digit(x: u8) -> Option<u32> {
    if 48 <= x <= 57 {
        Some((x - 48) as u32)
    } else if 97 <= x <= 102 {
        Some((x - 87) as u32)
    } else if 65 <= x <= 70 {
        Some((x - 55) as u32)
    } else {
        None
    }
}

/// One more hexadecimal digit of a Unicode escape.
pub open spec fn hex_step(b: Seq<u8>, r: Result<u32, Seq<char>>, p: int) -> Result<
    u32,
    Seq<char>,
> {
    match r {
        Err(e) => Err(e),
        Ok(value) => match at(b, p) {
            None => Err("truncated JSON Unicode escape"@),
            Some(x) => match hex_digit(x) {
                None => Err("invalid JSON Unicode escape"@),
                Some(digit) => Ok((value * 16 + digit) as u32),
            },
        },
    }
}

/// The four hexadecimal digits at `p`.
pub open spec fn hex4(b: Seq<u8>, p: int) -> Result<u32, Seq<char>> {
    hex_step(b, hex_step(b, hex_step(b, hex_step(b, Ok(0), p), p + 1), p + 2), p + 3)
}

/// What stands behind `\u`: one scalar, or a surrogate pair for one.
pub open spec fn unicode_escape(b: Seq<u8>, p: int) -> Result<(int, Seq<u8>), Seq<char>> {
    match hex4(b, p) {
        Err(e) => Err(e),
        Ok(first) => if 0xD800 <= first <= 0xDBFF {
            if at(b, p + 4) != Some(BACKSLASH) || at(b, p + 5) != Some(LETTER_U) {
                Err("unexpected deployment token"@)
            } else {
                match hex4(b, p + 6) {
                    Err(e) => Err(e),
                    Ok(second) => if !(0xDC00 <= second <= 0xDFFF) {
                        Err("invalid JSON surrogate pair"@)
                    } else {
                        Ok(
                            (
                                p + 10,
                                vstd::utf8::encode_scalar(
                                    (0x10000 + (first - 0xD800) * 1024 + (second - 0xDC00)) as u32,
                                ),
                            ),
                        )
                    },
                }
            }
        } else if 0xDC00 <= first <= 0xDFFF {
            Err("orphan JSON low surrogate"@)
        } else {
            Ok((p + 4, vstd::utf8::encode_scalar(first)))
        },
    }
}

/// The byte that a one-letter escape stands for.
pub open spec fn simple_escape(x: u8) -> Option<u8> {
    if x == QUOTE || x == BACKSLASH || x == SLASH {
        Some(x)
    } else if x == 98 {
        Some(8u8)
    } else if x == 102 {
        Some(12u8)
    } else if x == 110 {
        Some(10u8)
    } else if x == 114 {
        Some(13u8)
    } else if x == 116 {
        Some(9u8)
    } else {
        None
    }
}

/// The unit of a JSON string that begins at `p`: one plain byte or one escape.
/// Gives the position behind it and the bytes it stands for.
pub open spec fn unit(b: Seq<u8>, p: int) -> Result<(int, Seq<u8>), Seq<char>> {
    if b[p] < 0x20 {
        Err("unescaped JSON control byte"@)
    } else if b[p] != BACKSLASH {
        Ok((p + 1, seq![b[p]]))
    } else {
        match at(b, p + 1) {
            None => Err("truncated JSON escape"@),
            Some(x) => match simple_escape(x) {
                Some(y) => Ok((p + 2, seq![y])),
                None => if x == LETTER_U {
                    unicode_escape(b, p + 2)
                } else {
                    Err("invalid JSON escape"@)
                },
            },
        }
    }
}

/// The rest of a JSON string from `p` on: where its closing quote stands, and
/// what the bytes before it stand for.
pub open spec fn body(b: Seq<u8>, p: int) -> Result<(int, Seq<u8>), Seq<char>>
    decreases b.len() - p,
{
    if p < 0 || p >= b.len() {
        Err("truncated deployment string"@)
    } else if b[p] == QUOTE {
        Ok((p, Seq::empty()))
    } else {
        match unit(b, p) {
            Err(e) => Err(e),
            Ok((q, out)) => match body(b, q) {
                Err(e) => Err(e),
                Ok((end, rest)) => Ok((end, out + rest)),
            },
        }
    }
}

/// Whether the second text holds, `shift` bytes further to the left, what the first
/// holds from `from` up to `until`.
pub open spec fn holds(b: Seq<u8>, c: Seq<u8>, from: int, until: int, shift: int) -> bool {
    &&& 0 <= from <= until <= b.len()
    &&& 0 <= from - shift
    &&& until - shift <= c.len()
    &&& forall|i: int| from <= i < until ==> c[i - shift] == #[trigger] b[i]
}

proof fn lemma_hex4_stands(b: Seq<u8>, c: Seq<u8>, p: int, shift: int)
    requires
        hex4(b, p) is Ok,
        0 <= p,
        p + 4 <= b.len() ==> holds(b, c, p, p + 4, shift),
    ensures
        p + 4 <= b.len(),
        hex4(c, p - shift) == hex4(b, p),
{
    let first = hex_step(b, Ok(0), p);
    let second = hex_step(b, first, p + 1);
    let third = hex_step(b, second, p + 2);
    assert(hex_step(b, third, p + 3) is Ok);
    assert(at(b, p + 3) is Some);
    assert(c[p - shift] == b[p] && c[p + 1 - shift] == b[p + 1] && c[p + 2 - shift] == b[p + 2]
        && c[p + 3 - shift] == b[p + 3]);
    assert(hex_step(c, Ok(0), p - shift) == first);
    assert(hex_step(c, first, p - shift + 1) == second);
    assert(hex_step(c, second, p - shift + 2) == third);
}

/// A string's unit reads the same wherever its bytes stand.
pub proof fn lemma_unit_stands(b: Seq<u8>, c: Seq<u8>, p: int, until: int, shift: int)
    requires
        unit(b, p) is Ok,
        unit(b, p)->Ok_0.0 <= until,
        holds(b, c, p, until, shift),
    ensures
        p < unit(b, p)->Ok_0.0,
        unit(b, p)->Ok_0.1.len() > 0,
        unit(c, p - shift) == Ok::<(int, Seq<u8>), Seq<char>>(
            (unit(b, p)->Ok_0.0 - shift, unit(b, p)->Ok_0.1),
        ),
{
    let (q, out) = unit(b, p)->Ok_0;
    assert(p < q);
    assert(c[p - shift] == b[p]);
    if b[p] == BACKSLASH {
        assert(c[p + 1 - shift] == b[p + 1]);
        if simple_escape(b[p + 1]) is None {
            assert(holds(b, c, p + 2, p + 6, shift));
            lemma_hex4_stands(b, c, p + 2, shift);
            let first = hex4(b, p + 2)->Ok_0;
            if 0xD800 <= first <= 0xDBFF {
                assert(q == p + 12);
                assert(c[p + 6 - shift] == b[p + 6] && c[p + 7 - shift] == b[p + 7]);
                assert(holds(b, c, p + 8, p + 12, shift));
                lemma_hex4_stands(b, c, p + 8, shift);
            }
        }
    }
}

/// A JSON string.
#[verifier::opaque]
pub open spec fn string_at(b: Seq<u8>, c: Cursor) -> Result<(Cursor, Text), Seq<char>> {
    let r: Step = Ok(c);
    match byte(b, r, QUOTE) {
        Err(e) => Err(e),
        Ok(c) => match body(b, c.pos) {
            Err(e) => Err(e),
            Ok((end, decoded)) => if c.inv.strings == u64::MAX {
                Err("deployment inventory overflow"@)
            } else if c.inv.decoded_string_bytes + decoded.len() > u64::MAX {
                Err("decoded string inventory overflow"@)
            } else {
                Ok(
                    (
                        Cursor {
                            pos: end + 1,
                            inv: Inventory {
                                strings: (c.inv.strings + 1) as u64,
                                decoded_string_bytes: (c.inv.decoded_string_bytes
                                    + decoded.len()) as u64,
                                ..c.inv
                            },
                        },
                        Text { raw: b.subrange(c.pos, end), decoded },
                    ),
                )
            },
        },
    }
}

pub open spec fn string(b: Seq<u8>, r: Step) -> Result<(Cursor, Text), Seq<char>> {
    match r {
        Err(e) => Err(e),
        Ok(c) => string_at(b, c),
    }
}

/// Any JSON string.
pub open spec fn any_string(b: Seq<u8>, r: Step) -> Step {
    match string(b, r) {
        Err(e) => Err(e),
        Ok((c, _)) => Ok(c),
    }
}

/// Whether a string is written as `text`, letter for letter.
pub open spec fn written(t: Text, text: Seq<char>) -> bool {
    t.raw == vstd::utf8::encode_utf8(text)
}

/// The one string written as `expected`.
#[verifier::opaque]
pub open spec fn literal_string_at(b: Seq<u8>, c: Cursor, expected: Seq<char>) -> Step {
    let r: Step = Ok(c);
    match string(b, r) {
        Err(e) => Err(e),
        Ok((c, t)) => if written(t, expected) {
            Ok(c)
        } else {
            Err("unsupported deployment field or enum"@)
        },
    }
}

pub open spec fn literal_string(b: Seq<u8>, r: Step, expected: Seq<char>) -> Step {
    match r {
        Err(e) => Err(e),
        Ok(c) => literal_string_at(b, c, expected),
    }
}

/// The key of an object's field, with its colon.
#[verifier::opaque]
pub open spec fn field_at(b: Seq<u8>, c: Cursor, key: Seq<char>) -> Step {
    let r: Step = Ok(c);
    byte(b, count(literal_string(b, r, key), Counter::ObjectEntries), COLON)
}

pub open spec fn field(b: Seq<u8>, r: Step, key: Seq<char>) -> Step {
    match r {
        Err(e) => Err(e),
        Ok(c) => field_at(b, c, key),
    }
}

pub open spec fn is_digit(x: u8) -> bool {
    48 <= x <= 57
}

/// The number that decimal digits stand for.
pub open spec fn decimal(digits: Seq<u8>) -> nat
    decreases digits.len(),
{
    if digits.len() == 0 {
        0
    } else {
        (decimal(digits.drop_last()) * 10 + (digits.last() - 48)) as nat
    }
}

/// Where the run of digits at `p` ends.
pub open spec fn digits_end(b: Seq<u8>, p: int) -> int
    decreases b.len() - p,
{
    if 0 <= p < b.len() && is_digit(b[p]) {
        digits_end(b, p + 1)
    } else {
        p
    }
}

/// An unsigned integer without a leading zero.
#[verifier::opaque]
pub open spec fn number_at(b: Seq<u8>, c: Cursor) -> Result<(Cursor, u64), Seq<char>> {
    let r: Step = Ok(c);
    match r {
        Err(e) => Err(e),
        Ok(c) => match at(b, c.pos) {
            None => Err("missing deployment integer"@),
            Some(first) => {
                let end = digits_end(b, c.pos);
                let value = decimal(b.subrange(c.pos, end));
                if !is_digit(first) {
                    Err("deployment integer must be unsigned"@)
                } else if first == ZERO && end > c.pos + 1 {
                    Err("noncanonical leading zero"@)
                } else if value > u64::MAX {
                    Err("deployment integer overflow"@)
                } else {
                    Ok((Cursor { pos: end, inv: c.inv }, value as u64))
                }
            },
        },
    }
}

pub open spec fn number(b: Seq<u8>, r: Step) -> Result<(Cursor, u64), Seq<char>> {
    match r {
        Err(e) => Err(e),
        Ok(c) => number_at(b, c),
    }
}

pub open spec fn any_number(b: Seq<u8>, r: Step) -> Step {
    match number(b, r) {
        Err(e) => Err(e),
        Ok((c, _)) => Ok(c),
    }
}

/// Whether `text` stands at `p`.
pub open spec fn stands(b: Seq<u8>, p: int, text: Seq<char>) -> bool {
    let t = vstd::utf8::encode_utf8(text);
    0 <= p && p + t.len() <= b.len() && b.subrange(p, p + t.len()) == t
}

#[verifier::opaque]
pub open spec fn boolean_at(b: Seq<u8>, c: Cursor) -> Step {
    let r: Step = Ok(c);
    match r {
        Err(e) => Err(e),
        Ok(c) => if stands(b, c.pos, "true"@) {
            Ok(Cursor { pos: c.pos + 4, inv: c.inv })
        } else if stands(b, c.pos, "false"@) {
            Ok(Cursor { pos: c.pos + 5, inv: c.inv })
        } else {
            Err("expected deployment boolean"@)
        },
    }
}

pub open spec fn boolean(b: Seq<u8>, r: Step) -> Step {
    match r {
        Err(e) => Err(e),
        Ok(c) => boolean_at(b, c),
    }
}

#[verifier::opaque]
pub open spec fn nullable_string_at(b: Seq<u8>, c: Cursor) -> Step {
    let r: Step = Ok(c);
    match r {
        Err(e) => Err(e),
        Ok(c) => if stands(b, c.pos, "null"@) {
            Ok(Cursor { pos: c.pos + 4, inv: c.inv })
        } else {
            any_string(b, r)
        },
    }
}

pub open spec fn nullable_string(b: Seq<u8>, r: Step) -> Step {
    match r {
        Err(e) => Err(e),
        Ok(c) => nullable_string_at(b, c),
    }
}

/// Whether `a` comes before `c` when bytes are compared from the left.
pub open spec fn precedes(a: Seq<u8>, c: Seq<u8>) -> bool
    decreases a.len(),
{
    if c.len() == 0 {
        false
    } else if a.len() == 0 {
        true
    } else if a[0] != c[0] {
        a[0] < c[0]
    } else {
        precedes(a.drop_first(), c.drop_first())
    }
}

/// The order of texts is total: of two, one comes before the other or they are the
/// same.
pub proof fn lemma_order_total(a: Seq<u8>, c: Seq<u8>)
    ensures
        precedes(a, c) || precedes(c, a) || a == c,
        !(precedes(a, c) && precedes(c, a)),
        a == c ==> !precedes(a, c),
    decreases a.len(),
{
    if a.len() > 0 && c.len() > 0 {
        lemma_order_total(a.drop_first(), c.drop_first());
        if a[0] == c[0] && a.drop_first() == c.drop_first() {
            assert(a =~= seq![a[0]] + a.drop_first());
            assert(c =~= seq![c[0]] + c.drop_first());
        }
    } else if a.len() == 0 && c.len() == 0 {
        assert(a =~= c);
    }
}

/// The order of texts is transitive.
pub proof fn lemma_order_transitive(a: Seq<u8>, c: Seq<u8>, d: Seq<u8>)
    requires
        precedes(a, c),
        precedes(c, d),
    ensures
        precedes(a, d),
    decreases a.len(),
{
    if a.len() > 0 && a[0] == c[0] && c[0] == d[0] {
        lemma_order_transitive(a.drop_first(), c.drop_first(), d.drop_first());
    }
}

/// What the string units of `raw` from `p` on stand for.
pub open spec fn decode_from(raw: Seq<u8>, p: int) -> Seq<u8>
    decreases raw.len() - p,
{
    if p < 0 || p >= raw.len() {
        Seq::empty()
    } else {
        match unit(raw, p) {
            Err(_) => Seq::empty(),
            Ok((q, out)) => if q <= p {
                Seq::empty()
            } else {
                out + decode_from(raw, q)
            },
        }
    }
}

/// Inside its quotes a string decodes by itself as it does in the record.
pub proof fn lemma_body_decodes(b: Seq<u8>, start: int, p: int)
    requires
        0 <= start <= p <= b.len(),
        body(b, p) is Ok,
    ensures
        p <= body(b, p)->Ok_0.0 < b.len(),
        decode_from(b.subrange(start, body(b, p)->Ok_0.0), p - start) == body(b, p)->Ok_0.1,
    decreases b.len() - p,
{
    let (end, decoded) = body(b, p)->Ok_0;
    if b[p] != QUOTE {
        let (q, out) = unit(b, p)->Ok_0;
        lemma_unit_stands(b, b, p, b.len() as int, 0);
        lemma_body_decodes(b, start, q);
        let raw = b.subrange(start, end);
        assert(holds(b, raw, p, end, start));
        lemma_unit_stands(b, raw, p, end, start);
    }
}

/// A string that is read decodes, unit by unit, to exactly the bytes that its reading
/// counts, and to the text that keys are ordered by.
pub proof fn lemma_string_decodes(b: Seq<u8>, c: Cursor)
    requires
        0 <= c.pos,
        string_at(b, c) is Ok,
    ensures
        ({
            let (behind, text) = string_at(b, c)->Ok_0;
            &&& decode_from(text.raw, 0) == text.decoded
            &&& behind.inv.decoded_string_bytes == c.inv.decoded_string_bytes + decode_from(
                text.raw,
                0,
            ).len()
            &&& behind.inv.strings == c.inv.strings + 1
        }),
{
    reveal(string_at);
    lemma_body_decodes(b, c.pos + 1, c.pos + 1);
}

/// Whether `t` comes strictly behind the previous text, if there was one.
pub open spec fn ascends(previous: Option<Seq<u8>>, t: Text) -> bool {
    match previous {
        None => true,
        Some(prior) => precedes(prior, t.decoded),
    }
}

/// A quoted decimal map key greater than `previous`, with its colon.
#[verifier::opaque]
pub open spec fn numeric_key_at(b: Seq<u8>, c: Cursor, previous: u64) -> Result<
    (Cursor, u64),
    Seq<char>,
> {
    let r: Step = Ok(c);
    match string(b, r) {
        Err(e) => Err(e),
        Ok((c, t)) => {
            let value = decimal(t.raw);
            if t.raw.len() == 0 || t.raw[0] == ZERO || !(forall|i: int|
                0 <= i < t.raw.len() ==> is_digit(#[trigger] t.raw[i])) {
                Err("invalid numeric map key"@)
            } else if value > u64::MAX {
                Err("numeric map key overflow"@)
            } else if value <= previous {
                Err("numeric map keys not strictly ordered"@)
            } else {
                match byte(b, count(Ok(c), Counter::ObjectEntries), COLON) {
                    Err(e) => Err(e),
                    Ok(c) => Ok((c, value as u64)),
                }
            }
        },
    }
}

pub open spec fn numeric_key(b: Seq<u8>, r: Step, previous: u64) -> Result<
    (Cursor, u64),
    Seq<char>,
> {
    match r {
        Err(e) => Err(e),
        Ok(c) => numeric_key_at(b, c, previous),
    }
}

/// The members of a certificate pin list, of which `pins` were read.
pub open spec fn pins_from(
    b: Seq<u8>,
    c: Cursor,
    pins: int,
    previous: Option<Seq<u8>>,
) -> Step
    decreases b.len() - c.pos,
{
    if at(b, c.pos) == Some(RBRACKET) {
        Ok(c)
    } else {
        let r = if pins > 0 {
            byte(b, Ok(c), COMMA)
        } else {
            Ok(c)
        };
        match string(b, r) {
            Err(e) => Err(e),
            Ok((c1, t)) => if !ascends(previous, t) {
                Err("Control certificate pins not strictly ordered"@)
            } else {
                match count(Ok(c1), Counter::ArrayEntries) {
                    Err(e) => Err(e),
                    Ok(c2) => if pins + 1 > 2 {
                        Err("too many Control certificate pins"@)
                    } else if c2.pos <= c.pos || c2.pos > b.len() {
                        Err(""@)
                    } else {
                        pins_from(b, c2, pins + 1, Some(t.decoded))
                    },
                }
            },
        }
    }
}

#[verifier::opaque]
pub open spec fn pins_at(b: Seq<u8>, c: Cursor) -> Step {
    let r: Step = Ok(c);
    match r {
        Err(e) => Err(e),
        Ok(c) => pins_from(b, c, 0, None),
    }
}

pub open spec fn pins(b: Seq<u8>, r: Step) -> Step {
    match r {
        Err(e) => Err(e),
        Ok(c) => pins_at(b, c),
    }
}

/// A node of the Control topology.
#[verifier::opaque]
pub open spec fn control_node_at(b: Seq<u8>, c: Cursor) -> Step {
    let r: Step = Ok(c);
    let r = opening(b, r, LBRACE, 7);
    let r = any_string(b, field(b, r, "endpoint"@));
    let r = byte(b, r, COMMA);
    let r = any_string(b, field(b, r, "failure_domain"@));
    let r = byte(b, r, COMMA);
    let r = opening(b, field(b, r, "certificate_pins"@), LBRACKET, 8);
    let r = byte(b, pins(b, r), RBRACKET);
    byte(b, r, RBRACE)
}

pub open spec fn control_node(b: Seq<u8>, r: Step) -> Step {
    match r {
        Err(e) => Err(e),
        Ok(c) => control_node_at(b, c),
    }
}

/// The remaining nodes, behind the node of key `previous` (0: the first).
pub open spec fn nodes_from(b: Seq<u8>, c: Cursor, previous: u64) -> Step
    decreases b.len() - c.pos,
{
    if at(b, c.pos) == Some(RBRACE) {
        Ok(c)
    } else {
        let r = if previous != 0 {
            byte(b, Ok(c), COMMA)
        } else {
            Ok(c)
        };
        match numeric_key(b, r, previous) {
            Err(e) => Err(e),
            Ok((c1, key)) => {
                let r = count(Ok(c1), Counter::ControlNodes);
                let r = at_most(
                    r,
                    Counter::ControlNodes,
                    MAX_CONTROL_NODES,
                    "too many Control nodes"@,
                );
                match control_node(b, r) {
                    Err(e) => Err(e),
                    Ok(c2) => if c2.pos <= c.pos || c2.pos > b.len() {
                        Err(""@)
                    } else {
                        nodes_from(b, c2, key)
                    },
                }
            },
        }
    }
}

#[verifier::opaque]
pub open spec fn nodes_at(b: Seq<u8>, c: Cursor) -> Step {
    let r: Step = Ok(c);
    match opening(b, r, LBRACE, 6) {
        Err(e) => Err(e),
        Ok(c) => byte(b, nodes_from(b, c, 0), RBRACE),
    }
}

pub open spec fn nodes(b: Seq<u8>, r: Step) -> Step {
    match r {
        Err(e) => Err(e),
        Ok(c) => nodes_at(b, c),
    }
}

/// The remaining members of an ascending set of positive integers.
pub open spec fn members_from(b: Seq<u8>, c: Cursor, previous: u64, count_so_far: int, max: u64) -> Step
    decreases b.len() - c.pos,
{
    if at(b, c.pos) == Some(RBRACKET) {
        Ok(c)
    } else {
        let r = if count_so_far > 0 {
            byte(b, Ok(c), COMMA)
        } else {
            Ok(c)
        };
        match number(b, r) {
            Err(e) => Err(e),
            Ok((c1, id)) => if id == 0 || id <= previous {
                Err("numeric set not strictly ordered"@)
            } else if count_so_far + 1 > max {
                Err("numeric set exceeds schema limit"@)
            } else {
                match count(Ok(c1), Counter::ArrayEntries) {
                    Err(e) => Err(e),
                    Ok(c2) => if c2.pos <= c.pos || c2.pos > b.len() {
                        Err(""@)
                    } else {
                        members_from(b, c2, id, count_so_far + 1, max)
                    },
                }
            },
        }
    }
}

#[verifier::opaque]
pub open spec fn numeric_set_at(b: Seq<u8>, c: Cursor, depth: usize, max: u64) -> Step {
    let r: Step = Ok(c);
    match opening(b, r, LBRACKET, depth) {
        Err(e) => Err(e),
        Ok(c) => byte(b, members_from(b, c, 0, 0, max), RBRACKET),
    }
}

pub open spec fn numeric_set(b: Seq<u8>, r: Step, depth: usize, max: u64) -> Step {
    match r {
        Err(e) => Err(e),
        Ok(c) => numeric_set_at(b, c, depth, max),
    }
}

/// A route's deployment mode.
#[verifier::opaque]
pub open spec fn mode_at(b: Seq<u8>, c: Cursor) -> Step {
    let r: Step = Ok(c);
    match string(b, r) {
        Err(e) => Err(e),
        Ok((c, t)) => if written(t, "local"@) || written(t, "replicated"@) {
            Ok(c)
        } else {
            Err("invalid deployment mode"@)
        },
    }
}

pub open spec fn mode(b: Seq<u8>, r: Step) -> Step {
    match r {
        Err(e) => Err(e),
        Ok(c) => mode_at(b, c),
    }
}

/// A tenant's route.
#[verifier::opaque]
pub open spec fn route_at(b: Seq<u8>, c: Cursor) -> Step {
    let r: Step = Ok(c);
    let r = opening(b, r, LBRACE, 7);
    let r = any_string(b, field(b, r, "incarnation"@));
    let r = byte(b, r, COMMA);
    let r = mode(b, field(b, r, "mode"@));
    let r = byte(b, r, COMMA);
    let r = numeric_set(b, field(b, r, "voters"@), 8, 3);
    byte(b, r, RBRACE)
}

pub open spec fn route(b: Seq<u8>, r: Step) -> Step {
    match r {
        Err(e) => Err(e),
        Ok(c) => route_at(b, c),
    }
}

/// The remaining tenants, behind the tenant named `previous`.
pub open spec fn tenants_from(b: Seq<u8>, c: Cursor, previous: Option<Seq<u8>>) -> Step
    decreases b.len() - c.pos,
{
    if at(b, c.pos) == Some(RBRACE) {
        Ok(c)
    } else {
        let r = if c.inv.control_tenants > 0 {
            byte(b, Ok(c), COMMA)
        } else {
            Ok(c)
        };
        match string(b, r) {
            Err(e) => Err(e),
            Ok((c1, t)) => if !ascends(previous, t) {
                Err("Control tenant keys not strictly ordered"@)
            } else {
                let r = byte(b, count(Ok(c1), Counter::ObjectEntries), COLON);
                let r = count(r, Counter::ControlTenants);
                let r = at_most(
                    r,
                    Counter::ControlTenants,
                    MAX_CONTROL_TENANTS,
                    "too many Control tenants"@,
                );
                match route(b, r) {
                    Err(e) => Err(e),
                    Ok(c2) => if c2.pos <= c.pos || c2.pos > b.len() {
                        Err(""@)
                    } else {
                        tenants_from(b, c2, Some(t.decoded))
                    },
                }
            },
        }
    }
}

#[verifier::opaque]
pub open spec fn tenants_at(b: Seq<u8>, c: Cursor) -> Step {
    let r: Step = Ok(c);
    match opening(b, r, LBRACE, 6) {
        Err(e) => Err(e),
        Ok(c) => byte(b, tenants_from(b, c, None), RBRACE),
    }
}

pub open spec fn tenants(b: Seq<u8>, r: Step) -> Step {
    match r {
        Err(e) => Err(e),
        Ok(c) => tenants_at(b, c),
    }
}

#[verifier::opaque]
pub open spec fn topology_at(b: Seq<u8>, c: Cursor) -> Step {
    let r: Step = Ok(c);
    let r = opening(b, r, LBRACE, 5);
    let r = nodes(b, field(b, r, "nodes"@));
    let r = byte(b, r, COMMA);
    let r = tenants(b, field(b, r, "tenants"@));
    byte(b, r, RBRACE)
}

pub open spec fn topology(b: Seq<u8>, r: Step) -> Step {
    match r {
        Err(e) => Err(e),
        Ok(c) => topology_at(b, c),
    }
}

/// A field that holds an integer.
pub open spec fn number_field(b: Seq<u8>, r: Step, key: Seq<char>) -> Step {
    any_number(b, field(b, r, key))
}

/// Integer fields `keys[i]` and following, with commas between them.
pub open spec fn number_fields(b: Seq<u8>, r: Step, keys: Seq<&str>, i: int) -> Step
    decreases keys.len() - i,
{
    if i < 0 || i >= keys.len() {
        r
    } else {
        let r = number_field(b, r, keys[i]@);
        let r = if i + 1 != keys.len() {
            byte(b, r, COMMA)
        } else {
            r
        };
        number_fields(b, r, keys, i + 1)
    }
}

/// Integer fields with commas between them.
#[verifier::opaque]
pub open spec fn number_list_at(b: Seq<u8>, c: Cursor, keys: Seq<&str>) -> Step {
    number_fields(b, Ok(c), keys, 0)
}

pub open spec fn number_list(b: Seq<u8>, r: Step, keys: Seq<&str>) -> Step {
    match r {
        Err(e) => Err(e),
        Ok(c) => number_list_at(b, c, keys),
    }
}

/// An object of integer fields.
#[verifier::opaque]
pub open spec fn number_object_at(b: Seq<u8>, c: Cursor, depth: usize, keys: Seq<&str>) -> Step {
    let r: Step = Ok(c);
    byte(b, number_list(b, opening(b, r, LBRACE, depth), keys), RBRACE)
}

pub open spec fn number_object(b: Seq<u8>, r: Step, depth: usize, keys: Seq<&str>) -> Step {
    match r {
        Err(e) => Err(e),
        Ok(c) => number_object_at(b, c, depth, keys),
    }
}

/// An authority partition.
#[verifier::opaque]
pub open spec fn partition_at(b: Seq<u8>, c: Cursor) -> Step {
    let r: Step = Ok(c);
    let r = opening(b, r, LBRACE, 8);
    let r = any_string(b, field(b, r, "authority_id"@));
    let r = byte(b, r, COMMA);
    let r = any_string(b, field(b, r, "manifest_sha256"@));
    let r = byte(b, r, COMMA);
    let r = number_field(b, r, "partition"@);
    let r = byte(b, r, COMMA);
    let r = any_string(b, field(b, r, "signing_public_key"@));
    let r = byte(b, r, COMMA);
    let r = number_field(b, r, "maximum_lifetime_ms"@);
    let r = byte(b, r, COMMA);
    let r = number_field(b, r, "drain_ms"@);
    byte(b, r, RBRACE)
}

pub open spec fn partition(b: Seq<u8>, r: Step) -> Step {
    match r {
        Err(e) => Err(e),
        Ok(c) => partition_at(b, c),
    }
}

/// The remaining partitions, behind the partition named `previous`.
pub open spec fn partitions_from(b: Seq<u8>, c: Cursor, previous: Option<Seq<u8>>) -> Step
    decreases b.len() - c.pos,
{
    if at(b, c.pos) == Some(RBRACE) {
        Ok(c)
    } else {
        let r = if c.inv.lifecycle_partitions > 0 {
            byte(b, Ok(c), COMMA)
        } else {
            Ok(c)
        };
        match string(b, r) {
            Err(e) => Err(e),
            Ok((c1, t)) => if !ascends(previous, t) {
                Err("lifecycle partition keys not strictly ordered"@)
            } else {
                let r = byte(b, count(Ok(c1), Counter::ObjectEntries), COLON);
                let r = count(r, Counter::LifecyclePartitions);
                let r = at_most(
                    r,
                    Counter::LifecyclePartitions,
                    MAX_CONTROL_PARTITIONS,
                    "too many lifecycle partitions"@,
                );
                match partition(b, r) {
                    Err(e) => Err(e),
                    Ok(c2) => if c2.pos <= c.pos || c2.pos > b.len() {
                        Err(""@)
                    } else {
                        partitions_from(b, c2, Some(t.decoded))
                    },
                }
            },
        }
    }
}

#[verifier::opaque]
pub open spec fn partitions_at(b: Seq<u8>, c: Cursor) -> Step {
    let r: Step = Ok(c);
    match opening(b, r, LBRACE, 7) {
        Err(e) => Err(e),
        Ok(c) => byte(b, partitions_from(b, c, None), RBRACE),
    }
}

pub open spec fn partitions(b: Seq<u8>, r: Step) -> Step {
    match r {
        Err(e) => Err(e),
        Ok(c) => partitions_at(b, c),
    }
}

/// A lifecycle installation.
#[verifier::opaque]
pub open spec fn installation_at(b: Seq<u8>, c: Cursor) -> Step {
    let r: Step = Ok(c);
    let r = opening(b, r, LBRACE, 6);
    let r = opening(b, field(b, r, "root"@), LBRACE, 7);
    let r = any_string(b, field(b, r, "control_incarnation"@));
    let r = byte(b, r, COMMA);
    let r = any_string(b, field(b, r, "public_key"@));
    let r = byte(b, r, RBRACE);
    let r = byte(b, r, COMMA);
    let r = number_field(b, r, "generation"@);
    let r = byte(b, r, COMMA);
    let r = partitions(b, field(b, r, "partitions"@));
    let r = byte(b, r, COMMA);
    let r = number_list(b, r, seq!["max_intents", "max_changes", "max_state_bytes"]);
    byte(b, r, RBRACE)
}

pub open spec fn installation(b: Seq<u8>, r: Step) -> Step {
    match r {
        Err(e) => Err(e),
        Ok(c) => installation_at(b, c),
    }
}

/// The Control genesis' lifecycle: disabled, or installed.
#[verifier::opaque]
pub open spec fn lifecycle_at(b: Seq<u8>, c: Cursor) -> Step {
    let r: Step = Ok(c);
    let r = field(b, opening(b, r, LBRACE, 5), "kind"@);
    match string(b, r) {
        Err(e) => Err(e),
        Ok((c, t)) => if written(t, "disabled"@) {
            byte(b, Ok(c), RBRACE)
        } else if written(t, "installed"@) {
            let r = byte(b, Ok(c), COMMA);
            let r = any_string(b, field(b, r, "command_id"@));
            let r = byte(b, r, COMMA);
            let r = installation(b, field(b, r, "installation"@));
            byte(b, r, RBRACE)
        } else {
            Err("unsupported Control lifecycle kind"@)
        },
    }
}

pub open spec fn lifecycle(b: Seq<u8>, r: Step) -> Step {
    match r {
        Err(e) => Err(e),
        Ok(c) => lifecycle_at(b, c),
    }
}

#[verifier::opaque]
pub open spec fn control_at(b: Seq<u8>, c: Cursor) -> Step {
    let r: Step = Ok(c);
    let r = opening(b, r, LBRACE, 4);
    let r = topology(b, field(b, r, "topology"@));
    let r = byte(b, r, COMMA);
    let r = lifecycle(b, field(b, r, "lifecycle"@));
    byte(b, r, RBRACE)
}

pub open spec fn control(b: Seq<u8>, r: Step) -> Step {
    match r {
        Err(e) => Err(e),
        Ok(c) => control_at(b, c),
    }
}

/// The group's genesis: an application's, or Control's.
#[verifier::opaque]
pub open spec fn genesis_at(b: Seq<u8>, c: Cursor) -> Step {
    let r: Step = Ok(c);
    let r = field(b, opening(b, r, LBRACE, 3), "kind"@);
    match string(b, r) {
        Err(e) => Err(e),
        Ok((c, t)) => if written(t, "application"@) {
            byte(b, Ok(c), RBRACE)
        } else if written(t, "control"@) {
            let r = byte(b, Ok(c), COMMA);
            let r = control(b, field(b, r, "control"@));
            byte(b, r, RBRACE)
        } else {
            Err("unsupported replicated genesis kind"@)
        },
    }
}

pub open spec fn genesis(b: Seq<u8>, r: Step) -> Step {
    match r {
        Err(e) => Err(e),
        Ok(c) => genesis_at(b, c),
    }
}

/// The place of a policy action in the order in which actions are written.
pub open spec fn action_rank(t: Text) -> Option<int> {
    if written(t, "read"@) {
        Some(0)
    } else if written(t, "write"@) {
        Some(1)
    } else if written(t, "admin"@) {
        Some(2)
    } else if written(t, "audit"@) {
        Some(3)
    } else {
        None
    }
}

/// The remaining actions of a grant, behind the action of rank `last` (-1: none).
pub open spec fn actions_from(b: Seq<u8>, c: Cursor, last: int, count_so_far: int) -> Step
    decreases b.len() - c.pos,
{
    if at(b, c.pos) == Some(RBRACKET) {
        Ok(c)
    } else {
        let r = if count_so_far > 0 {
            byte(b, Ok(c), COMMA)
        } else {
            Ok(c)
        };
        match string(b, r) {
            Err(e) => Err(e),
            Ok((c1, t)) => match action_rank(t) {
                None => Err("unsupported policy action"@),
                Some(rank) => if rank <= last {
                    Err("policy actions not strictly ordered"@)
                } else if count_so_far + 1 > 4 {
                    Err("too many policy actions"@)
                } else {
                    match count(Ok(c1), Counter::ArrayEntries) {
                        Err(e) => Err(e),
                        Ok(c2) => if c2.pos <= c.pos || c2.pos > b.len() {
                            Err(""@)
                        } else {
                            actions_from(b, c2, rank, count_so_far + 1)
                        },
                    }
                },
            },
        }
    }
}

#[verifier::opaque]
pub open spec fn actions_at(b: Seq<u8>, c: Cursor) -> Step {
    let r: Step = Ok(c);
    match opening(b, r, LBRACKET, 6) {
        Err(e) => Err(e),
        Ok(c) => byte(b, actions_from(b, c, -1, 0), RBRACKET),
    }
}

pub open spec fn actions(b: Seq<u8>, r: Step) -> Step {
    match r {
        Err(e) => Err(e),
        Ok(c) => actions_at(b, c),
    }
}

#[verifier::opaque]
pub open spec fn grant_at(b: Seq<u8>, c: Cursor) -> Step {
    let r: Step = Ok(c);
    let r = opening(b, r, LBRACE, 5);
    let r = any_string(b, field(b, r, "principal"@));
    let r = byte(b, r, COMMA);
    let r = nullable_string(b, field(b, r, "collection"@));
    let r = byte(b, r, COMMA);
    let r = actions(b, field(b, r, "actions"@));
    byte(b, r, RBRACE)
}

pub open spec fn grant(b: Seq<u8>, r: Step) -> Step {
    match r {
        Err(e) => Err(e),
        Ok(c) => grant_at(b, c),
    }
}

/// The remaining grants of a policy.
pub open spec fn grants_from(b: Seq<u8>, c: Cursor) -> Step
    decreases b.len() - c.pos,
{
    if at(b, c.pos) == Some(RBRACKET) {
        Ok(c)
    } else {
        let r = if c.inv.grants > 0 {
            byte(b, Ok(c), COMMA)
        } else {
            Ok(c)
        };
        let r = count(count(r, Counter::Grants), Counter::ArrayEntries);
        match grant(b, r) {
            Err(e) => Err(e),
            Ok(c2) => if c2.pos <= c.pos || c2.pos > b.len() {
                Err(""@)
            } else {
                grants_from(b, c2)
            },
        }
    }
}

#[verifier::opaque]
pub open spec fn grants_at(b: Seq<u8>, c: Cursor) -> Step {
    let r: Step = Ok(c);
    match opening(b, r, LBRACKET, 4) {
        Err(e) => Err(e),
        Ok(c) => byte(b, grants_from(b, c), RBRACKET),
    }
}

pub open spec fn grants(b: Seq<u8>, r: Step) -> Step {
    match r {
        Err(e) => Err(e),
        Ok(c) => grants_at(b, c),
    }
}

#[verifier::opaque]
pub open spec fn policy_at(b: Seq<u8>, c: Cursor) -> Step {
    let r: Step = Ok(c);
    let r = opening(b, r, LBRACE, 3);
    let r = grants(b, field(b, r, "grants"@));
    let r = byte(b, r, COMMA);
    let r = boolean(b, field(b, r, "strict_read_audit"@));
    byte(b, r, RBRACE)
}

pub open spec fn policy(b: Seq<u8>, r: Step) -> Step {
    match r {
        Err(e) => Err(e),
        Ok(c) => policy_at(b, c),
    }
}

pub open spec fn history_keys() -> Seq<&'static str> {
    seq!["max_feed_events", "max_feed_bytes", "max_archive_segments"]
}

pub open spec fn atomic_keys() -> Seq<&'static str> {
    seq![
        "max_operations",
        "max_read_assertions",
        "max_transaction_bytes",
        "max_active_transactions",
        "max_reserved_staging_bytes",
        "max_permanent_staged_bytes",
        "max_snapshot_leases",
        "max_snapshot_lease_bytes",
    ]
}

pub open spec fn leading_limit_keys() -> Seq<&'static str> {
    seq![
        "max_document_bytes",
        "max_batch_operations",
        "max_batch_bytes",
        "max_documents",
        "max_collections",
        "max_schema_bytes",
        "max_schema_activation_bytes",
        "max_retirement_bytes",
        "max_target_resolution_bytes",
        "max_backup_binding_bytes",
    ]
}

pub open spec fn byte_limit_keys() -> Seq<&'static str> {
    seq!["max_logical_bytes", "max_snapshot_bytes", "max_mutation_receipt_bytes"]
}

pub open spec fn audit_keys() -> Seq<&'static str> {
    seq!["hot_bytes", "archive_bytes"]
}

pub open spec fn trailing_limit_keys() -> Seq<&'static str> {
    seq![
        "max_query_candidates",
        "max_query_groups",
        "max_result_bytes",
        "max_page_size",
        "max_cursors",
        "max_cursor_bytes",
        "cursor_ttl_ms",
    ]
}

/// The limits up to the grant quota's key.
#[verifier::opaque]
pub open spec fn limits_head_at(b: Seq<u8>, c: Cursor) -> Step {
    let r: Step = Ok(c);
    let r = opening(b, r, LBRACE, 3);
    let r = number_object(b, field(b, r, "history"@), 4, history_keys());
    let r = byte(b, r, COMMA);
    let r = number_object(b, field(b, r, "atomic"@), 4, atomic_keys());
    let r = byte(b, r, COMMA);
    let r = number_list(b, r, leading_limit_keys());
    let r = byte(b, r, COMMA);
    field(b, r, "max_policy_grants"@)
}

pub open spec fn limits_head(b: Seq<u8>, r: Step) -> Step {
    match r {
        Err(e) => Err(e),
        Ok(c) => limits_head_at(b, c),
    }
}

/// The limits behind the grant quota.
#[verifier::opaque]
pub open spec fn limits_tail_at(b: Seq<u8>, c: Cursor) -> Step {
    let r: Step = Ok(c);
    let r = byte(b, r, COMMA);
    let r = number_list(b, r, byte_limit_keys());
    let r = byte(b, r, COMMA);
    let r = number_object(b, field(b, r, "audit_retention"@), 4, audit_keys());
    let r = byte(b, r, COMMA);
    let r = number_list(b, r, trailing_limit_keys());
    byte(b, r, RBRACE)
}

pub open spec fn limits_tail(b: Seq<u8>, r: Step) -> Step {
    match r {
        Err(e) => Err(e),
        Ok(c) => limits_tail_at(b, c),
    }
}

/// The tenant limits; gives the quota of policy grants.
#[verifier::opaque]
pub open spec fn limits_at(b: Seq<u8>, c: Cursor) -> Result<(Cursor, u64), Seq<char>> {
    let r: Step = Ok(c);
    match number(b, limits_head(b, r)) {
        Err(e) => Err(e),
        Ok((c, max_grants)) => match limits_tail(b, Ok(c)) {
            Err(e) => Err(e),
            Ok(c) => Ok((c, max_grants)),
        },
    }
}

pub open spec fn limits(b: Seq<u8>, r: Step) -> Result<(Cursor, u64), Seq<char>> {
    match r {
        Err(e) => Err(e),
        Ok(c) => limits_at(b, c),
    }
}

/// One voter's address and failure domain.
#[verifier::opaque]
pub open spec fn voter_at(b: Seq<u8>, c: Cursor) -> Step {
    let r: Step = Ok(c);
    let r = opening(b, r, LBRACE, 4);
    let r = any_string(b, field(b, r, "address"@));
    let r = byte(b, r, COMMA);
    let r = any_string(b, field(b, r, "failure_domain"@));
    byte(b, r, RBRACE)
}

pub open spec fn voter(b: Seq<u8>, r: Step) -> Step {
    match r {
        Err(e) => Err(e),
        Ok(c) => voter_at(b, c),
    }
}

/// The remaining voters, behind the voter of key `previous`.
pub open spec fn voters_from(b: Seq<u8>, c: Cursor, previous: u64) -> Step
    decreases b.len() - c.pos,
{
    if at(b, c.pos) == Some(RBRACE) {
        Ok(c)
    } else {
        let r = if c.inv.voters > 0 {
            byte(b, Ok(c), COMMA)
        } else {
            Ok(c)
        };
        match numeric_key(b, r, previous) {
            Err(e) => Err(e),
            Ok((c1, key)) => {
                let r = count(Ok(c1), Counter::Voters);
                let r = at_most(r, Counter::Voters, 3, "more than three initial voters"@);
                match voter(b, r) {
                    Err(e) => Err(e),
                    Ok(c2) => if c2.pos <= c.pos || c2.pos > b.len() {
                        Err(""@)
                    } else {
                        voters_from(b, c2, key)
                    },
                }
            },
        }
    }
}

/// Exactly three voters.
#[verifier::opaque]
pub open spec fn voters_at(b: Seq<u8>, c: Cursor) -> Step {
    let r: Step = Ok(c);
    match opening(b, r, LBRACE, 3) {
        Err(e) => Err(e),
        Ok(c) => match byte(b, voters_from(b, c, 0), RBRACE) {
            Err(e) => Err(e),
            Ok(c) => if c.inv.voters != 3 {
                Err("exactly three initial voters required"@)
            } else {
                Ok(c)
            },
        },
    }
}

pub open spec fn voters(b: Seq<u8>, r: Step) -> Step {
    match r {
        Err(e) => Err(e),
        Ok(c) => voters_at(b, c),
    }
}

/// The bootstrap up to its limits.
#[verifier::opaque]
pub open spec fn bootstrap_head_at(b: Seq<u8>, c: Cursor) -> Step {
    let r: Step = Ok(c);
    let r = opening(b, r, LBRACE, 2);
    let r = genesis(b, field(b, r, "genesis"@));
    let r = byte(b, r, COMMA);
    let r = any_string(b, field(b, r, "incarnation"@));
    let r = byte(b, r, COMMA);
    let r = policy(b, field(b, r, "initial_policy"@));
    let r = byte(b, r, COMMA);
    field(b, r, "initial_limits"@)
}

pub open spec fn bootstrap_head(b: Seq<u8>, r: Step) -> Step {
    match r {
        Err(e) => Err(e),
        Ok(c) => bootstrap_head_at(b, c),
    }
}

/// The bootstrap manifest, whose grants stay within its own quota.
#[verifier::opaque]
pub open spec fn bootstrap_at(b: Seq<u8>, c: Cursor) -> Step {
    let r: Step = Ok(c);
    match limits(b, bootstrap_head(b, r)) {
        Err(e) => Err(e),
        Ok((c, max_grants)) => {
            let r = byte(b, Ok(c), COMMA);
            let r = voters(b, field(b, r, "voters"@));
            let r = byte(b, r, RBRACE);
            at_most(r, Counter::Grants, max_grants, "deployment grant quota exceeded"@)
        },
    }
}

pub open spec fn bootstrap(b: Seq<u8>, r: Step) -> Step {
    match r {
        Err(e) => Err(e),
        Ok(c) => bootstrap_at(b, c),
    }
}

/// An inventory that has counted nothing but the encoded bytes.
pub open spec fn fresh(b: Seq<u8>) -> Inventory {
    Inventory {
        encoded_bytes: b.len() as u64,
        decoded_string_bytes: 0,
        strings: 0,
        object_entries: 0,
        array_entries: 0,
        grants: 0,
        voters: 0,
        control_nodes: 0,
        control_tenants: 0,
        lifecycle_partitions: 0,
        max_depth: 0,
    }
}

/// The whole record: the tag `replicated` and a bootstrap manifest.
pub open spec fn deployment(b: Seq<u8>) -> Step {
    let r = opening(b, Ok(Cursor { pos: 0, inv: fresh(b) }), LBRACKET, 1);
    let r = literal_string(b, r, "replicated"@);
    let r = byte(b, r, COMMA);
    let r = bootstrap(b, r);
    byte(b, r, RBRACKET)
}

/// What an inspection of `b` gives under the writer's byte bound.
pub open spec fn inspection(b: Seq<u8>, max_bytes: nat) -> Result<Inventory, Seq<char>> {
    if b.len() > max_bytes {
        Err("deployment exceeds paired writer byte bound"@)
    } else if !vstd::utf8::valid_utf8(b) {
        Err("deployment is not UTF-8"@)
    } else {
        match deployment(b) {
            Err(e) => Err(e),
            Ok(c) => if c.pos != b.len() {
                Err("trailing deployment bytes"@)
            } else {
                Ok(c.inv)
            },
        }
    }
}

/// A deployment that passes inspection starts with exactly three voters.
pub proof fn lemma_three_voters(b: Seq<u8>, max_bytes: nat)
    requires
        inspection(b, max_bytes) is Ok,
    ensures
        inspection(b, max_bytes)->Ok_0.voters == 3,
        b.len() <= max_bytes,
{
    reveal(bootstrap_at);
    reveal(voters_at);
}

} // verus!
