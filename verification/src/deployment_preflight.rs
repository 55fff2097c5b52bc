//! First-release deployment schema preflight.
//!
//! This recognizes the current writer's field order and JSON grammar without
//! allocating. It inventories collection cardinalities and decoded string
//! bytes before the record is decoded. It does not bound the allocations of
//! the decoded record.
use vstd::prelude::*;

use crate::deployment_grammar;
use crate::deployment_grammar::{
    BACKSLASH, COLON, COMMA, LBRACE, LBRACKET, LETTER_U, MAX_CONTROL_NODES,
    MAX_CONTROL_PARTITIONS, MAX_CONTROL_TENANTS, MAX_DEPTH, QUOTE, RBRACE, RBRACKET, ZERO,
};

verus! {

/// What a deployment record holds, counted before any of it is decoded.
#[derive(Clone, Copy, Debug, PartialEq, Eq, Structural)]
pub struct Inventory {
    pub encoded_bytes: u64,
    pub decoded_string_bytes: u64,
    pub strings: u64,
    pub object_entries: u64,
    pub array_entries: u64,
    pub grants: u64,
    pub voters: u64,
    pub control_nodes: u64,
    pub control_tenants: u64,
    pub lifecycle_partitions: u64,
    pub max_depth: usize,
}

impl Default for Inventory {
    fn default() -> (inv: Self)
        ensures
            inv == (Inventory { encoded_bytes: 0, ..deployment_grammar::fresh(Seq::empty()) }),
    {
        Inventory {
            encoded_bytes: 0,
            decoded_string_bytes: 0,
            strings: 0,
            object_entries: 0,
            array_entries: 0,
            grants: 0,
            voters: 0,
            control_nodes: 0,
            control_tenants: 0,
            lifecycle_partitions: 0,
            max_depth: 0,
        }
    }
}

/// `std::str::from_utf8`: it succeeds exactly on valid UTF-8.
#[verifier::external_body]
fn is_utf8(bytes: &[u8]) -> (valid: bool)
    ensures
        valid == vstd::utf8::valid_utf8(bytes@),
{
    std::str::from_utf8(bytes).is_ok()
}

/// Inspects a deployment record of at most `max_bytes` bytes.
pub fn inspect_current_deployment(bytes: &[u8], max_bytes: usize) -> (result: Result<
    Inventory,
    &'static str,
>)
    ensures
        match result {
            Ok(inv) => deployment_grammar::inspection(bytes@, max_bytes as nat) == Ok::<
                Inventory,
                Seq<char>,
            >(inv),
            Err(message) => deployment_grammar::inspection(bytes@, max_bytes as nat) == Err::<
                Inventory,
                Seq<char>,
            >(message@),
        },
{
    if bytes.len() > max_bytes {
        return Err("deployment exceeds paired writer byte bound");
    }
    // Raw JSON must be UTF-8. Escaped code points are checked separately.
    if !is_utf8(bytes) {
        return Err("deployment is not UTF-8");
    }
    let mut parser = Parser {
        bytes,
        pos: 0,
        result: Inventory { encoded_bytes: bytes.len() as u64, ..Inventory::default() },
    };
    assert(parser.result == deployment_grammar::fresh(bytes@));
    parser.opening(LBRACKET, 1)?;
    parser.literal_string("replicated")?;
    parser.comma()?;
    parser.bootstrap()?;
    parser.close(RBRACKET)?;
    if parser.pos != bytes.len() {
        return Err("trailing deployment bytes");
    }
    Ok(parser.result)
}

/// One unit of a JSON string: where the next one begins, and the bytes it
/// stands for (the first `len` of `bytes`).
struct Unit {
    next: usize,
    bytes: [u8; 4],
    len: usize,
}

impl Unit {
    spec fn text(&self) -> Seq<u8> {
        self.bytes@.subrange(0, self.len as int)
    }
}

fn hex_digit(x: u8) -> (digit: Option<u32>)
    ensures
        digit == deployment_grammar::hex_digit(x),
{
    if 48 <= x && x <= 57 {
        Some((x - 48) as u32)
    } else if 97 <= x && x <= 102 {
        Some((x - 87) as u32)
    } else if 65 <= x && x <= 70 {
        Some((x - 55) as u32)
    } else {
        None
    }
}

/// One more hexadecimal digit behind those that give `value`.
fn hex_step(bytes: &[u8], value: u32, pos: usize) -> (result: Result<u32, &'static str>)
    requires
        value < 0x1000_0000,
    ensures
        match result {
            Ok(v) => deployment_grammar::hex_step(bytes@, Ok(value), pos as int) == Ok::<
                u32,
                Seq<char>,
            >(v) && v <= value * 16 + 15,
            Err(e) => deployment_grammar::hex_step(bytes@, Ok(value), pos as int) == Err::<
                u32,
                Seq<char>,
            >(e@),
        },
        result is Ok ==> pos < bytes.len(),
{
    if pos >= bytes.len() {
        return Err("truncated JSON Unicode escape");
    }
    match hex_digit(bytes[pos]) {
        None => Err("invalid JSON Unicode escape"),
        Some(digit) => Ok(value * 16 + digit),
    }
}

fn hex4(bytes: &[u8], pos: usize) -> (result: Result<u32, &'static str>)
    requires
        pos <= bytes.len(),
    ensures
        match result {
            Ok(v) => deployment_grammar::hex4(bytes@, pos as int) == Ok::<u32, Seq<char>>(v),
            Err(e) => deployment_grammar::hex4(bytes@, pos as int) == Err::<u32, Seq<char>>(e@),
        },
        result is Ok ==> pos + 4 <= bytes.len() && result->Ok_0 <= 0xFFFF,
{
    let a: u32 = hex_step(bytes, 0, pos)?;
    let b: u32 = hex_step(bytes, a, pos + 1)?;
    let c: u32 = hex_step(bytes, b, pos + 2)?;
    hex_step(bytes, c, pos + 3)
}

/// The UTF-8 bytes of a Unicode scalar.
fn encoded_scalar(scalar: u32, next: usize) -> (unit: Unit)
    requires
        scalar < 0x110000,
        !(0xD800 <= scalar <= 0xDFFF),
    ensures
        unit.next == next,
        1 <= unit.len <= 4,
        scalar < 0x10000 ==> unit.len <= 3,
        unit.text() =~= vstd::utf8::encode_scalar(scalar),
{
    let last: u8 = 0x80 | ((scalar & 0x3F) as u8);
    let middle: u8 = 0x80 | (((scalar >> 6) & 0x3F) as u8);
    let third: u8 = 0x80 | (((scalar >> 12) & 0x3F) as u8);
    if scalar < 0x80 {
        Unit { next, bytes: [(scalar & 0x7F) as u8, 0, 0, 0], len: 1 }
    } else if scalar < 0x800 {
        Unit { next, bytes: [0xC0 | (((scalar >> 6) & 0x1F) as u8), last, 0, 0], len: 2 }
    } else if scalar < 0x10000 {
        Unit { next, bytes: [0xE0 | (((scalar >> 12) & 0x0F) as u8), middle, last, 0], len: 3 }
    } else {
        Unit { next, bytes: [0xF0 | (((scalar >> 18) & 0x7) as u8), third, middle, last], len: 4 }
    }
}

fn unicode_escape(bytes: &[u8], pos: usize) -> (result: Result<Unit, &'static str>)
    requires
        2 <= pos <= bytes.len(),
    ensures
        match result {
            Ok(u) => deployment_grammar::unicode_escape(bytes@, pos as int) == Ok::<
                (int, Seq<u8>),
                Seq<char>,
            >((u.next as int, u.text())) && pos < u.next <= bytes.len() && 1 <= u.len <= 4
                && u.len <= u.next - pos,
            Err(e) => deployment_grammar::unicode_escape(bytes@, pos as int) == Err::<
                (int, Seq<u8>),
                Seq<char>,
            >(e@),
        },
{
    let first: u32 = hex4(bytes, pos)?;
    if 0xD800 <= first && first <= 0xDBFF {
        if pos + 4 >= bytes.len() || bytes[pos + 4] != BACKSLASH {
            return Err("unexpected deployment token");
        }
        if pos + 5 >= bytes.len() || bytes[pos + 5] != LETTER_U {
            return Err("unexpected deployment token");
        }
        let second: u32 = hex4(bytes, pos + 6)?;
        if second < 0xDC00 || second > 0xDFFF {
            return Err("invalid JSON surrogate pair");
        }
        let scalar: u32 = 0x10000 + (first - 0xD800) * 1024 + (second - 0xDC00);
        Ok(encoded_scalar(scalar, pos + 10))
    } else if 0xDC00 <= first && first <= 0xDFFF {
        Err("orphan JSON low surrogate")
    } else {
        Ok(encoded_scalar(first, pos + 4))
    }
}

fn simple_escape(x: u8) -> (decoded: Option<u8>)
    ensures
        decoded == deployment_grammar::simple_escape(x),
{
    match x {
        34 | 92 | 47 => Some(x),
        98 => Some(8),
        102 => Some(12),
        110 => Some(10),
        114 => Some(13),
        116 => Some(9),
        _ => None,
    }
}

/// The unit of a JSON string at `pos`.
fn unit(bytes: &[u8], pos: usize) -> (result: Result<Unit, &'static str>)
    requires
        pos < bytes.len(),
    ensures
        match result {
            Ok(u) => deployment_grammar::unit(bytes@, pos as int) == Ok::<
                (int, Seq<u8>),
                Seq<char>,
            >((u.next as int, u.text())) && pos < u.next <= bytes.len() && 1 <= u.len <= 4
                && u.len <= u.next - pos,
            Err(e) => deployment_grammar::unit(bytes@, pos as int) == Err::<
                (int, Seq<u8>),
                Seq<char>,
            >(e@),
        },
{
    let byte: u8 = bytes[pos];
    if byte < 0x20 {
        return Err("unescaped JSON control byte");
    }
    if byte != BACKSLASH {
        let plain = Unit { next: pos + 1, bytes: [byte, 0, 0, 0], len: 1 };
        assert(plain.text() =~= seq![byte]);
        return Ok(plain);
    }
    if pos + 1 >= bytes.len() {
        return Err("truncated JSON escape");
    }
    let escape: u8 = bytes[pos + 1];
    match simple_escape(escape) {
        Some(y) => {
            let short = Unit { next: pos + 2, bytes: [y, 0, 0, 0], len: 1 };
            assert(short.text() =~= seq![y]);
            Ok(short)
        },
        None => if escape == LETTER_U {
            unicode_escape(bytes, pos + 2)
        } else {
            Err("invalid JSON escape")
        },
    }
}

/// The decoded bytes of a string's raw body, one after the other. String map keys and
/// string-set members are ordered by decoded UTF-8 bytes: comparing raw JSON bytes would
/// misorder escapes.
pub struct Decoded<'a> {
    encoded: &'a [u8],
    offset: usize,
    pending: [u8; 4],
    pending_len: usize,
    pending_at: usize,
}

impl<'a> Decoded<'a> {
    #[verifier::type_invariant]
    spec fn wf(&self) -> bool {
        &&& self.offset <= self.encoded.len()
        &&& self.pending_at <= self.pending_len <= 4
    }

    /// The bytes still to come.
    pub closed spec fn rest(&self) -> Seq<u8> {
        self.pending@.subrange(self.pending_at as int, self.pending_len as int)
            + deployment_grammar::decode_from(self.encoded@, self.offset as int)
    }

    pub fn new(encoded: &'a [u8]) -> (decoded: Self)
        ensures
            decoded.rest() =~= deployment_grammar::decode_from(encoded@, 0),
    {
        Decoded { encoded, offset: 0, pending: [0, 0, 0, 0], pending_len: 0, pending_at: 0 }
    }

    /// The next decoded byte.
    pub fn next(&mut self) -> (byte: Option<u8>)
        ensures
            match byte {
                None => old(self).rest().len() == 0 && final(self).rest().len() == 0,
                Some(x) => old(self).rest().len() > 0 && x == old(self).rest()[0]
                    && final(self).rest() =~= old(self).rest().drop_first(),
            },
    {
        proof {
            use_type_invariant(&*self);
        }
        if self.pending_at < self.pending_len {
            let byte: u8 = self.pending[self.pending_at];
            self.pending_at = self.pending_at + 1;
            return Some(byte);
        }
        if self.offset >= self.encoded.len() {
            return None;
        }
        match unit(self.encoded, self.offset) {
            Err(_) => None,
            Ok(u) => {
                let ghost before = self.rest();
                let encoded = self.encoded;
                *self = Decoded {
                    encoded,
                    offset: u.next,
                    pending: u.bytes,
                    pending_len: u.len,
                    pending_at: 1,
                };
                assert(before =~= u.text() + deployment_grammar::decode_from(
                    self.encoded@,
                    self.offset as int,
                ));
                Some(self.pending[0])
            },
        }
    }
}

/// Whether the text of `previous` comes before that of `current`.
pub fn greater_decoded(previous: &[u8], current: &[u8]) -> (less: bool)
    ensures
        less == deployment_grammar::precedes(
            deployment_grammar::decode_from(previous@, 0),
            deployment_grammar::decode_from(current@, 0),
        ),
{
    let mut a = Decoded::new(previous);
    let mut c = Decoded::new(current);
    loop
        invariant
            deployment_grammar::precedes(
                deployment_grammar::decode_from(previous@, 0),
                deployment_grammar::decode_from(current@, 0),
            ) == deployment_grammar::precedes(a.rest(), c.rest()),
        decreases c.rest().len(),
    {
        let right: u8 = match c.next() {
            None => return false,
            Some(x) => x,
        };
        match a.next() {
            None => return true,
            Some(left) => if left != right {
                return left < right;
            },
        }
    }
}

fn same_bytes(a: &[u8], b: &[u8]) -> (same: bool)
    ensures
        same == (a@ == b@),
{
    if a.len() != b.len() {
        return false;
    }
    let mut i: usize = 0;
    while i < a.len()
        invariant
            i <= a.len(),
            a.len() == b.len(),
            forall|j: int| 0 <= j < i ==> a@[j] == b@[j],
        decreases a.len() - i,
    {
        if a[i] != b[i] {
            return false;
        }
        i = i + 1;
    }
    assert(a@ =~= b@);
    true
}

fn is_digit(x: u8) -> (digit: bool)
    ensures
        digit == deployment_grammar::is_digit(x),
{
    48 <= x && x <= 57
}

/// More digits never make a number smaller.
proof fn lemma_decimal_grows(b: Seq<u8>, start: int, p: int, end: int)
    requires
        0 <= start <= p <= end <= b.len(),
        forall|i: int| start <= i < end ==> deployment_grammar::is_digit(#[trigger] b[i]),
    ensures
        deployment_grammar::decimal(b.subrange(start, p)) <= deployment_grammar::decimal(
            b.subrange(start, end),
        ),
    decreases end - p,
{
    if p < end {
        lemma_decimal_grows(b, start, p, end - 1);
        assert(b.subrange(start, end).drop_last() =~= b.subrange(start, end - 1));
        assert(deployment_grammar::is_digit(b[end - 1]));
    }
}

proof fn lemma_digits_end(b: Seq<u8>, p: int)
    requires
        0 <= p <= b.len(),
    ensures
        p <= deployment_grammar::digits_end(b, p) <= b.len(),
        forall|i: int|
            p <= i < deployment_grammar::digits_end(b, p) ==> deployment_grammar::is_digit(
                #[trigger] b[i],
            ),
    decreases b.len() - p,
{
    if p < b.len() && deployment_grammar::is_digit(b[p]) {
        lemma_digits_end(b, p + 1);
    }
}

/// One more digit behind those that give `value`.
fn next_decimal(value: u64, digit: u8) -> (result: Option<u64>)
    requires
        deployment_grammar::is_digit(digit),
    ensures
        result == (if value * 10 + (digit - 48) > u64::MAX {
            None
        } else {
            Some((value * 10 + (digit - 48)) as u64)
        }),
{
    match value.checked_mul(10) {
        None => None,
        Some(n) => n.checked_add((digit - 48) as u64),
    }
}

/// A deployment record, how far it is read, and what was counted so far.
pub struct Parser<'a> {
    pub bytes: &'a [u8],
    pub pos: usize,
    pub result: Inventory,
}

/// Holds a parser's answer to what the grammar says.
pub open spec fn agrees<T>(
    before: Parser,
    after: Parser,
    result: Result<T, &'static str>,
    said: deployment_grammar::Step,
) -> bool {
    &&& after.bytes == before.bytes
    &&& after.wf()
    &&& match result {
        Ok(_) => said == Ok::<deployment_grammar::Cursor, Seq<char>>(after.cursor()) && before.pos
            < after.pos,
        Err(e) => said == Err::<deployment_grammar::Cursor, Seq<char>>(e@),
    }
}

/// The same for a production that may be empty.
spec fn agrees_so_far<T>(
    before: Parser,
    after: Parser,
    result: Result<T, &'static str>,
    said: deployment_grammar::Step,
) -> bool {
    &&& after.bytes == before.bytes
    &&& after.wf()
    &&& match result {
        Ok(_) => said == Ok::<deployment_grammar::Cursor, Seq<char>>(after.cursor()) && before.pos
            <= after.pos,
        Err(e) => said == Err::<deployment_grammar::Cursor, Seq<char>>(e@),
    }
}

/// The same for an answer that hands a value out.
pub open spec fn gives<T>(
    before: Parser,
    after: Parser,
    result: Result<T, &'static str>,
    said: Result<(deployment_grammar::Cursor, T), Seq<char>>,
) -> bool {
    &&& after.bytes == before.bytes
    &&& after.wf()
    &&& match result {
        Ok(v) => said == Ok::<(deployment_grammar::Cursor, T), Seq<char>>((after.cursor(), v))
            && before.pos < after.pos,
        Err(e) => said == Err::<(deployment_grammar::Cursor, T), Seq<char>>(e@),
    }
}

impl<'a> Parser<'a> {
    pub open spec fn wf(&self) -> bool {
        self.pos <= self.bytes.len()
    }

    pub open spec fn cursor(&self) -> deployment_grammar::Cursor {
        deployment_grammar::Cursor { pos: self.pos as int, inv: self.result }
    }

    pub open spec fn here(&self) -> deployment_grammar::Step {
        Ok(self.cursor())
    }

    fn at(&self) -> (byte: Option<u8>)
        ensures
            byte == deployment_grammar::at(self.bytes@, self.pos as int),
    {
        if self.pos < self.bytes.len() {
            Some(self.bytes[self.pos])
        } else {
            None
        }
    }

    fn byte(&mut self, expected: u8) -> (result: Result<(), &'static str>)
        requires
            old(self).wf(),
        ensures
            agrees(
                *old(self),
                *final(self),
                result,
                deployment_grammar::byte(old(self).bytes@, old(self).here(), expected),
            ),
            result is Ok ==> final(self).pos == old(self).pos + 1,
            final(self).result == old(self).result,
    {
        if self.pos < self.bytes.len() && self.bytes[self.pos] == expected {
            self.pos = self.pos + 1;
            Ok(())
        } else {
            Err("unexpected deployment token")
        }
    }

    fn comma(&mut self) -> (result: Result<(), &'static str>)
        requires
            old(self).wf(),
        ensures
            agrees(
                *old(self),
                *final(self),
                result,
                deployment_grammar::byte(old(self).bytes@, old(self).here(), COMMA),
            ),
    {
        self.byte(COMMA)
    }

    fn colon(&mut self) -> (result: Result<(), &'static str>)
        requires
            old(self).wf(),
        ensures
            agrees(
                *old(self),
                *final(self),
                result,
                deployment_grammar::byte(old(self).bytes@, old(self).here(), COLON),
            ),
    {
        self.byte(COLON)
    }

    fn opening(&mut self, byte: u8, depth: usize) -> (result: Result<(), &'static str>)
        requires
            old(self).wf(),
        ensures
            agrees(
                *old(self),
                *final(self),
                result,
                deployment_grammar::opening(old(self).bytes@, old(self).here(), byte, depth),
            ),
    {
        if depth > MAX_DEPTH {
            return Err("deployment nesting exceeds fixed bound");
        }
        self.byte(byte)?;
        if self.result.max_depth < depth {
            self.result.max_depth = depth;
        }
        Ok(())
    }

    fn close(&mut self, byte: u8) -> (result: Result<(), &'static str>)
        requires
            old(self).wf(),
        ensures
            agrees(
                *old(self),
                *final(self),
                result,
                deployment_grammar::byte(old(self).bytes@, old(self).here(), byte),
            ),
    {
        self.byte(byte)
    }

    fn add(counter: &mut u64) -> (result: Result<(), &'static str>)
        ensures
            match result {
                Ok(()) => *old(counter) < u64::MAX && *final(counter) == *old(counter) + 1,
                Err(e) => *old(counter) == u64::MAX && *final(counter) == *old(counter) && e@
                    == "deployment inventory overflow"@,
            },
    {
        match counter.checked_add(1) {
            None => Err("deployment inventory overflow"),
            Some(n) => {
                *counter = n;
                Ok(())
            },
        }
    }

    /// Reads a string, and gives its raw body.
    pub fn string(&mut self) -> (result: Result<&'a [u8], &'static str>)
        requires
            old(self).wf(),
        ensures
            agrees(
                *old(self),
                *final(self),
                result,
                deployment_grammar::any_string(old(self).bytes@, old(self).here()),
            ),
            result is Ok ==> ({
                let raw = result->Ok_0@;
                deployment_grammar::string(old(self).bytes@, old(self).here()) == Ok::<
                    (deployment_grammar::Cursor, deployment_grammar::Text),
                    Seq<char>,
                >(
                    (
                        final(self).cursor(),
                        deployment_grammar::Text { raw, decoded: deployment_grammar::decode_from(raw, 0) },
                    ),
                )
            }),
            result is Err ==> final(self).result == old(self).result || (result->Err_0@
                == "decoded string inventory overflow"@ && final(self).result == (Inventory {
                strings: (old(self).result.strings + 1) as u64,
                ..old(self).result
            })),
    {
        proof {
            reveal(deployment_grammar::string_at);
        }
        self.byte(QUOTE)?;
        let start: usize = self.pos;
        let mut decoded: u64 = 0;
        let ghost mut text: Seq<u8> = Seq::empty();
        loop
            invariant
                self.wf(),
                self.bytes == old(self).bytes,
                self.result == old(self).result,
                old(self).pos < start <= self.pos,
                start == old(self).pos + 1,
                deployment_grammar::byte(old(self).bytes@, old(self).here(), QUOTE) == Ok::<
                    deployment_grammar::Cursor,
                    Seq<char>,
                >(deployment_grammar::Cursor { pos: start as int, inv: self.result }),
                decoded == text.len(),
                decoded <= self.pos - start,
                match deployment_grammar::body(self.bytes@, self.pos as int) {
                    Err(e) => deployment_grammar::body(self.bytes@, start as int) == Err::<
                        (int, Seq<u8>),
                        Seq<char>,
                    >(e),
                    Ok((end, rest)) => deployment_grammar::body(self.bytes@, start as int) == Ok::<
                        (int, Seq<u8>),
                        Seq<char>,
                    >((end, text + rest)),
                },
            decreases self.bytes.len() - self.pos,
        {
            proof {
                reveal(deployment_grammar::string_at);
            }
            if self.pos >= self.bytes.len() {
                return Err("truncated deployment string");
            }
            if self.bytes[self.pos] == QUOTE {
                let end: usize = self.pos;
                proof {
                    assert(text + Seq::<u8>::empty() =~= text);
                    deployment_grammar::lemma_body_decodes(self.bytes@, start as int, start as int);
                }
                self.pos = self.pos + 1;
                Self::add(&mut self.result.strings)?;
                match self.result.decoded_string_bytes.checked_add(decoded) {
                    None => return Err("decoded string inventory overflow"),
                    Some(total) => {
                        self.result.decoded_string_bytes = total;
                    },
                }
                return Ok(vstd::slice::slice_subrange(self.bytes, start, end));
            }
            match unit(self.bytes, self.pos) {
                Err(e) => return Err(e),
                Ok(u) => {
                    proof {
                        match deployment_grammar::body(self.bytes@, u.next as int) {
                            Ok((end, rest)) => {
                                assert(text + (u.text() + rest) =~= (text + u.text()) + rest);
                            },
                            Err(_) => {},
                        }
                        text = text + u.text();
                    }
                    decoded = decoded + u.len as u64;
                    self.pos = u.next;
                },
            }
        }
    }

    fn literal_string(&mut self, expected: &str) -> (result: Result<(), &'static str>)
        requires
            old(self).wf(),
        ensures
            agrees(
                *old(self),
                *final(self),
                result,
                deployment_grammar::literal_string(
                    old(self).bytes@,
                    old(self).here(),
                    expected@,
                ),
            ),
    {
        proof {
            reveal(deployment_grammar::literal_string_at);
        }
        let raw = self.string()?;
        if !same_bytes(raw, expected.as_bytes()) {
            return Err("unsupported deployment field or enum");
        }
        Ok(())
    }

    fn field(&mut self, key: &str) -> (result: Result<(), &'static str>)
        requires
            old(self).wf(),
        ensures
            agrees(
                *old(self),
                *final(self),
                result,
                deployment_grammar::field(old(self).bytes@, old(self).here(), key@),
            ),
    {
        proof {
            reveal(deployment_grammar::field_at);
        }
        self.literal_string(key)?;
        Self::add(&mut self.result.object_entries)?;
        self.colon()
    }

    /// Reads an unsigned integer without a leading zero.
    pub fn number(&mut self) -> (result: Result<u64, &'static str>)
        requires
            old(self).wf(),
        ensures
            gives(
                *old(self),
                *final(self),
                result,
                deployment_grammar::number(old(self).bytes@, old(self).here()),
            ),
            final(self).result == old(self).result,
    {
        proof {
            reveal(deployment_grammar::number_at);
        }
        let first: u8 = match self.at() {
            None => return Err("missing deployment integer"),
            Some(x) => x,
        };
        if !is_digit(first) {
            return Err("deployment integer must be unsigned");
        }
        let start: usize = self.pos;
        let ghost b = self.bytes@;
        let ghost end = deployment_grammar::digits_end(b, start as int);
        proof {
            lemma_digits_end(b, start as int);
            lemma_digits_end(b, start + 1);
        }
        self.pos = self.pos + 1;
        let mut value: u64 = (first - 48) as u64;
        if first == ZERO {
            match self.at() {
                Some(x) => if is_digit(x) {
                    assert(deployment_grammar::digits_end(b, start + 1)
                        == deployment_grammar::digits_end(b, start + 2));
                    proof {
                        lemma_digits_end(b, start + 2);
                    }
                    return Err("noncanonical leading zero");
                },
                None => {},
            }
        }
        proof {
            reveal_with_fuel(deployment_grammar::decimal, 2);
            assert(b.subrange(start as int, start + 1).drop_last() =~= Seq::<u8>::empty());
        }
        while self.pos < self.bytes.len() && is_digit(self.bytes[self.pos])
            invariant
                self.wf(),
                self.bytes == old(self).bytes,
                self.result == old(self).result,
                b == self.bytes@,
                start == old(self).pos,
                start < self.pos,
                start < b.len(),
                first == b[start as int],
                deployment_grammar::is_digit(first),
                first == 48 ==> end == start + 1,
                end == deployment_grammar::digits_end(b, start as int),
                end == deployment_grammar::digits_end(b, self.pos as int),
                end <= b.len(),
                forall|i: int| start <= i < end ==> deployment_grammar::is_digit(#[trigger] b[i]),
                value == deployment_grammar::decimal(b.subrange(start as int, self.pos as int)),
            decreases self.bytes.len() - self.pos,
        {
            proof {
                reveal(deployment_grammar::number_at);
            }
            let digit: u8 = self.bytes[self.pos];
            proof {
                lemma_digits_end(b, self.pos + 1);
                assert(b.subrange(start as int, self.pos + 1).drop_last() =~= b.subrange(
                    start as int,
                    self.pos as int,
                ));
                lemma_decimal_grows(b, start as int, self.pos + 1, end);
            }
            match next_decimal(value, digit) {
                None => return Err("deployment integer overflow"),
                Some(n) => {
                    value = n;
                },
            }
            self.pos = self.pos + 1;
        }
        Ok(value)
    }

    /// Whether `text` comes next.
    fn stands(&self, text: &str) -> (here: bool)
        requires
            self.wf(),
        ensures
            here == deployment_grammar::stands(self.bytes@, self.pos as int, text@),
    {
        let expected = text.as_bytes();
        if self.bytes.len() - self.pos < expected.len() {
            return false;
        }
        same_bytes(
            vstd::slice::slice_subrange(self.bytes, self.pos, self.pos + expected.len()),
            expected,
        )
    }

    fn boolean(&mut self) -> (result: Result<(), &'static str>)
        requires
            old(self).wf(),
        ensures
            agrees(
                *old(self),
                *final(self),
                result,
                deployment_grammar::boolean(old(self).bytes@, old(self).here()),
            ),
    {
        proof {
            reveal(deployment_grammar::boolean_at);
        }
        proof {
            lemma_word_lengths();
        }
        if self.stands("true") {
            self.pos = self.pos + 4;
            Ok(())
        } else if self.stands("false") {
            self.pos = self.pos + 5;
            Ok(())
        } else {
            Err("expected deployment boolean")
        }
    }

    fn nullable_string(&mut self) -> (result: Result<(), &'static str>)
        requires
            old(self).wf(),
        ensures
            agrees(
                *old(self),
                *final(self),
                result,
                deployment_grammar::nullable_string(old(self).bytes@, old(self).here()),
            ),
    {
        proof {
            reveal(deployment_grammar::nullable_string_at);
        }
        proof {
            lemma_word_lengths();
        }
        if self.stands("null") {
            self.pos = self.pos + 4;
            Ok(())
        } else {
            self.string()?;
            Ok(())
        }
    }

    fn bootstrap(&mut self) -> (result: Result<(), &'static str>)
        requires
            old(self).wf(),
        ensures
            agrees(
                *old(self),
                *final(self),
                result,
                deployment_grammar::bootstrap(old(self).bytes@, old(self).here()),
            ),
    {
        proof {
            reveal(deployment_grammar::bootstrap_at);
            reveal(deployment_grammar::bootstrap_head_at);
        }
        self.opening(LBRACE, 2)?;
        self.field("genesis")?;
        self.genesis()?;
        self.comma()?;
        self.field("incarnation")?;
        self.string()?;
        self.comma()?;
        self.field("initial_policy")?;
        self.policy()?;
        self.comma()?;
        self.field("initial_limits")?;
        let max_grants: u64 = self.limits()?;
        self.comma()?;
        self.field("voters")?;
        self.voters()?;
        self.close(RBRACE)?;
        if self.result.grants > max_grants {
            return Err("deployment grant quota exceeded");
        }
        Ok(())
    }

    fn genesis(&mut self) -> (result: Result<(), &'static str>)
        requires
            old(self).wf(),
        ensures
            agrees(
                *old(self),
                *final(self),
                result,
                deployment_grammar::genesis(old(self).bytes@, old(self).here()),
            ),
    {
        proof {
            reveal(deployment_grammar::genesis_at);
        }
        self.opening(LBRACE, 3)?;
        self.field("kind")?;
        let kind = self.string()?;
        if same_bytes(kind, "application".as_bytes()) {
            self.close(RBRACE)
        } else if same_bytes(kind, "control".as_bytes()) {
            self.comma()?;
            self.field("control")?;
            self.control()?;
            self.close(RBRACE)
        } else {
            Err("unsupported replicated genesis kind")
        }
    }

    fn control(&mut self) -> (result: Result<(), &'static str>)
        requires
            old(self).wf(),
        ensures
            agrees(
                *old(self),
                *final(self),
                result,
                deployment_grammar::control(old(self).bytes@, old(self).here()),
            ),
    {
        proof {
            reveal(deployment_grammar::control_at);
        }
        self.opening(LBRACE, 4)?;
        self.field("topology")?;
        self.topology()?;
        self.comma()?;
        self.field("lifecycle")?;
        self.lifecycle()?;
        self.close(RBRACE)
    }

    fn topology(&mut self) -> (result: Result<(), &'static str>)
        requires
            old(self).wf(),
        ensures
            agrees(
                *old(self),
                *final(self),
                result,
                deployment_grammar::topology(old(self).bytes@, old(self).here()),
            ),
    {
        proof {
            reveal(deployment_grammar::topology_at);
        }
        self.opening(LBRACE, 5)?;
        self.field("nodes")?;
        self.nodes()?;
        self.comma()?;
        self.field("tenants")?;
        self.tenants()?;
        self.close(RBRACE)
    }

    /// Reads a map key greater than `previous` and puts it there.
    #[verifier::loop_isolation(false)]
    fn numeric_key(&mut self, previous: &mut u64) -> (result: Result<u64, &'static str>)
        requires
            old(self).wf(),
        ensures
            gives(
                *old(self),
                *final(self),
                result,
                deployment_grammar::numeric_key(old(self).bytes@, old(self).here(), *old(previous)),
            ),
            result is Ok ==> *final(previous) == result->Ok_0,
    {
        proof {
            reveal(deployment_grammar::numeric_key_at);
        }
        let raw = self.string()?;
        if raw.len() == 0 || raw[0] == ZERO {
            return Err("invalid numeric map key");
        }
        let mut i: usize = 0;
        while i < raw.len()
            invariant
                i <= raw.len(),
                forall|j: int| 0 <= j < i ==> deployment_grammar::is_digit(#[trigger] raw@[j]),
            decreases raw.len() - i,
        {
            if !is_digit(raw[i]) {
                return Err("invalid numeric map key");
            }
            i = i + 1;
        }
        let mut value: u64 = 0;
        let mut n: usize = 0;
        while n < raw.len()
            invariant
                n <= raw.len(),
                value == deployment_grammar::decimal(raw@.subrange(0, n as int)),
                forall|j: int|
                    0 <= j < raw.len() ==> deployment_grammar::is_digit(#[trigger] raw@[j]),
            decreases raw.len() - n,
        {
            proof {
                assert(raw@.subrange(0, n + 1).drop_last() =~= raw@.subrange(0, n as int));
                lemma_decimal_grows(raw@, 0, n + 1, raw@.len() as int);
                assert(raw@.subrange(0, raw@.len() as int) =~= raw@);
                assert(deployment_grammar::is_digit(raw@[n as int]));
            }
            match next_decimal(value, raw[n]) {
                None => return Err("numeric map key overflow"),
                Some(next) => {
                    value = next;
                },
            }
            n = n + 1;
        }
        assert(raw@.subrange(0, raw@.len() as int) =~= raw@);
        if value <= *previous {
            return Err("numeric map keys not strictly ordered");
        }
        *previous = value;
        Self::add(&mut self.result.object_entries)?;
        self.colon()?;
        Ok(value)
    }

    fn nodes(&mut self) -> (result: Result<(), &'static str>)
        requires
            old(self).wf(),
        ensures
            agrees(
                *old(self),
                *final(self),
                result,
                deployment_grammar::nodes(old(self).bytes@, old(self).here()),
            ),
    {
        proof {
            reveal(deployment_grammar::nodes_at);
        }
        self.opening(LBRACE, 6)?;
        let ghost entry = self.cursor();
        let mut previous: u64 = 0;
        while self.pos >= self.bytes.len() || self.bytes[self.pos] != RBRACE
            invariant
                self.wf(),
                self.bytes == old(self).bytes,
                old(self).pos < self.pos,
                deployment_grammar::nodes_from(self.bytes@, entry, 0)
                    == deployment_grammar::nodes_from(self.bytes@, self.cursor(), previous),
                deployment_grammar::opening(old(self).bytes@, old(self).here(), LBRACE, 6) == Ok::<
                    deployment_grammar::Cursor,
                    Seq<char>,
                >(entry),
            decreases self.bytes.len() - self.pos,
        {
            proof {
                reveal(deployment_grammar::nodes_at);
            }
            if previous != 0 {
                self.comma()?;
            }
            self.numeric_key(&mut previous)?;
            Self::add(&mut self.result.control_nodes)?;
            if self.result.control_nodes > MAX_CONTROL_NODES {
                return Err("too many Control nodes");
            }
            self.control_node()?;
        }
        self.close(RBRACE)
    }

    /// The members of a pin list, up to its closing bracket.
    fn pins(&mut self) -> (result: Result<(), &'static str>)
        requires
            old(self).wf(),
        ensures
            agrees_so_far(
                *old(self),
                *final(self),
                result,
                deployment_grammar::pins(old(self).bytes@, old(self).here()),
            ),
    {
        proof {
            reveal(deployment_grammar::pins_at);
        }
        let ghost entry = self.cursor();
        let mut pins: usize = 0;
        let mut previous_pin: Option<&[u8]> = None;
        while self.pos >= self.bytes.len() || self.bytes[self.pos] != RBRACKET
            invariant
                self.wf(),
                self.bytes == old(self).bytes,
                old(self).pos <= self.pos,
                entry == old(self).cursor(),
                pins <= 2,
                deployment_grammar::pins_from(self.bytes@, entry, 0, None)
                    == deployment_grammar::pins_from(
                    self.bytes@,
                    self.cursor(),
                    pins as int,
                    decoded_text(previous_pin),
                ),
            decreases self.bytes.len() - self.pos,
        {
            proof {
                reveal(deployment_grammar::pins_at);
            }
            if pins > 0 {
                self.comma()?;
            }
            let pin = self.string()?;
            if !ascends(previous_pin, pin) {
                return Err("Control certificate pins not strictly ordered");
            }
            previous_pin = Some(pin);
            Self::add(&mut self.result.array_entries)?;
            pins = pins + 1;
            if pins > 2 {
                return Err("too many Control certificate pins");
            }
        }
        Ok(())
    }

    fn control_node(&mut self) -> (result: Result<(), &'static str>)
        requires
            old(self).wf(),
        ensures
            agrees(
                *old(self),
                *final(self),
                result,
                deployment_grammar::control_node(old(self).bytes@, old(self).here()),
            ),
    {
        proof {
            reveal(deployment_grammar::control_node_at);
        }
        self.opening(LBRACE, 7)?;
        self.field("endpoint")?;
        self.string()?;
        self.comma()?;
        self.field("failure_domain")?;
        self.string()?;
        self.comma()?;
        self.field("certificate_pins")?;
        self.opening(LBRACKET, 8)?;
        self.pins()?;
        self.close(RBRACKET)?;
        self.close(RBRACE)
    }

    fn tenants(&mut self) -> (result: Result<(), &'static str>)
        requires
            old(self).wf(),
        ensures
            agrees(
                *old(self),
                *final(self),
                result,
                deployment_grammar::tenants(old(self).bytes@, old(self).here()),
            ),
    {
        proof {
            reveal(deployment_grammar::tenants_at);
        }
        self.opening(LBRACE, 6)?;
        let ghost entry = self.cursor();
        let mut previous_tenant: Option<&[u8]> = None;
        while self.pos >= self.bytes.len() || self.bytes[self.pos] != RBRACE
            invariant
                self.wf(),
                self.bytes == old(self).bytes,
                old(self).pos < self.pos,
                deployment_grammar::tenants_from(self.bytes@, entry, None)
                    == deployment_grammar::tenants_from(
                    self.bytes@,
                    self.cursor(),
                    decoded_text(previous_tenant),
                ),
                deployment_grammar::opening(old(self).bytes@, old(self).here(), LBRACE, 6) == Ok::<
                    deployment_grammar::Cursor,
                    Seq<char>,
                >(entry),
            decreases self.bytes.len() - self.pos,
        {
            proof {
                reveal(deployment_grammar::tenants_at);
            }
            if self.result.control_tenants > 0 {
                self.comma()?;
            }
            let tenant = self.string()?;
            if !ascends(previous_tenant, tenant) {
                return Err("Control tenant keys not strictly ordered");
            }
            previous_tenant = Some(tenant);
            Self::add(&mut self.result.object_entries)?;
            self.colon()?;
            Self::add(&mut self.result.control_tenants)?;
            if self.result.control_tenants > MAX_CONTROL_TENANTS {
                return Err("too many Control tenants");
            }
            self.route()?;
        }
        self.close(RBRACE)
    }

    fn route(&mut self) -> (result: Result<(), &'static str>)
        requires
            old(self).wf(),
        ensures
            agrees(
                *old(self),
                *final(self),
                result,
                deployment_grammar::route(old(self).bytes@, old(self).here()),
            ),
    {
        proof {
            reveal(deployment_grammar::route_at);
            reveal(deployment_grammar::mode_at);
        }
        self.opening(LBRACE, 7)?;
        self.field("incarnation")?;
        self.string()?;
        self.comma()?;
        self.field("mode")?;
        let mode = self.string()?;
        if !same_bytes(mode, "local".as_bytes()) && !same_bytes(mode, "replicated".as_bytes()) {
            return Err("invalid deployment mode");
        }
        self.comma()?;
        self.field("voters")?;
        self.numeric_set(8, 3)?;
        self.close(RBRACE)
    }

    fn numeric_set(&mut self, depth: usize, max: u64) -> (result: Result<(), &'static str>)
        requires
            old(self).wf(),
        ensures
            agrees(
                *old(self),
                *final(self),
                result,
                deployment_grammar::numeric_set(old(self).bytes@, old(self).here(), depth, max),
            ),
    {
        proof {
            reveal(deployment_grammar::numeric_set_at);
        }
        self.opening(LBRACKET, depth)?;
        let ghost entry = self.cursor();
        let mut previous: u64 = 0;
        let mut count: u64 = 0;
        while self.pos >= self.bytes.len() || self.bytes[self.pos] != RBRACKET
            invariant
                self.wf(),
                self.bytes == old(self).bytes,
                old(self).pos < self.pos,
                count <= max,
                deployment_grammar::members_from(self.bytes@, entry, 0, 0, max)
                    == deployment_grammar::members_from(
                    self.bytes@,
                    self.cursor(),
                    previous,
                    count as int,
                    max,
                ),
                deployment_grammar::opening(old(self).bytes@, old(self).here(), LBRACKET, depth)
                    == Ok::<deployment_grammar::Cursor, Seq<char>>(entry),
            decreases self.bytes.len() - self.pos,
        {
            proof {
                reveal(deployment_grammar::numeric_set_at);
            }
            if count > 0 {
                self.comma()?;
            }
            let id: u64 = self.number()?;
            if id == 0 || id <= previous {
                return Err("numeric set not strictly ordered");
            }
            previous = id;
            if count >= max {
                return Err("numeric set exceeds schema limit");
            }
            count = count + 1;
            Self::add(&mut self.result.array_entries)?;
        }
        self.close(RBRACKET)
    }

    fn lifecycle(&mut self) -> (result: Result<(), &'static str>)
        requires
            old(self).wf(),
        ensures
            agrees(
                *old(self),
                *final(self),
                result,
                deployment_grammar::lifecycle(old(self).bytes@, old(self).here()),
            ),
    {
        proof {
            reveal(deployment_grammar::lifecycle_at);
        }
        self.opening(LBRACE, 5)?;
        self.field("kind")?;
        let kind = self.string()?;
        if same_bytes(kind, "disabled".as_bytes()) {
            self.close(RBRACE)
        } else if same_bytes(kind, "installed".as_bytes()) {
            self.comma()?;
            self.field("command_id")?;
            self.string()?;
            self.comma()?;
            self.field("installation")?;
            self.installation()?;
            self.close(RBRACE)
        } else {
            Err("unsupported Control lifecycle kind")
        }
    }

    fn installation(&mut self) -> (result: Result<(), &'static str>)
        requires
            old(self).wf(),
        ensures
            agrees(
                *old(self),
                *final(self),
                result,
                deployment_grammar::installation(old(self).bytes@, old(self).here()),
            ),
    {
        proof {
            reveal(deployment_grammar::installation_at);
        }
        self.opening(LBRACE, 6)?;
        self.field("root")?;
        self.opening(LBRACE, 7)?;
        self.field("control_incarnation")?;
        self.string()?;
        self.comma()?;
        self.field("public_key")?;
        self.string()?;
        self.close(RBRACE)?;
        self.comma()?;
        self.number_field("generation")?;
        self.comma()?;
        self.field("partitions")?;
        self.partitions()?;
        self.comma()?;
        let capacities = ["max_intents", "max_changes", "max_state_bytes"];
        assert(capacities@ =~= seq!["max_intents", "max_changes", "max_state_bytes"]);
        self.number_fields(&capacities)?;
        self.close(RBRACE)
    }

    fn partitions(&mut self) -> (result: Result<(), &'static str>)
        requires
            old(self).wf(),
        ensures
            agrees(
                *old(self),
                *final(self),
                result,
                deployment_grammar::partitions(old(self).bytes@, old(self).here()),
            ),
    {
        proof {
            reveal(deployment_grammar::partitions_at);
        }
        self.opening(LBRACE, 7)?;
        let ghost entry = self.cursor();
        let mut previous_partition: Option<&[u8]> = None;
        while self.pos >= self.bytes.len() || self.bytes[self.pos] != RBRACE
            invariant
                self.wf(),
                self.bytes == old(self).bytes,
                old(self).pos < self.pos,
                deployment_grammar::partitions_from(self.bytes@, entry, None)
                    == deployment_grammar::partitions_from(
                    self.bytes@,
                    self.cursor(),
                    decoded_text(previous_partition),
                ),
                deployment_grammar::opening(old(self).bytes@, old(self).here(), LBRACE, 7) == Ok::<
                    deployment_grammar::Cursor,
                    Seq<char>,
                >(entry),
            decreases self.bytes.len() - self.pos,
        {
            proof {
                reveal(deployment_grammar::partitions_at);
            }
            if self.result.lifecycle_partitions > 0 {
                self.comma()?;
            }
            let partition = self.string()?;
            if !ascends(previous_partition, partition) {
                return Err("lifecycle partition keys not strictly ordered");
            }
            previous_partition = Some(partition);
            Self::add(&mut self.result.object_entries)?;
            self.colon()?;
            Self::add(&mut self.result.lifecycle_partitions)?;
            if self.result.lifecycle_partitions > MAX_CONTROL_PARTITIONS {
                return Err("too many lifecycle partitions");
            }
            self.partition()?;
        }
        self.close(RBRACE)
    }

    fn partition(&mut self) -> (result: Result<(), &'static str>)
        requires
            old(self).wf(),
        ensures
            agrees(
                *old(self),
                *final(self),
                result,
                deployment_grammar::partition(old(self).bytes@, old(self).here()),
            ),
    {
        proof {
            reveal(deployment_grammar::partition_at);
        }
        self.opening(LBRACE, 8)?;
        self.field("authority_id")?;
        self.string()?;
        self.comma()?;
        self.field("manifest_sha256")?;
        self.string()?;
        self.comma()?;
        self.number_field("partition")?;
        self.comma()?;
        self.field("signing_public_key")?;
        self.string()?;
        self.comma()?;
        self.number_field("maximum_lifetime_ms")?;
        self.comma()?;
        self.number_field("drain_ms")?;
        self.close(RBRACE)
    }

    fn policy(&mut self) -> (result: Result<(), &'static str>)
        requires
            old(self).wf(),
        ensures
            agrees(
                *old(self),
                *final(self),
                result,
                deployment_grammar::policy(old(self).bytes@, old(self).here()),
            ),
    {
        proof {
            reveal(deployment_grammar::policy_at);
        }
        self.opening(LBRACE, 3)?;
        self.field("grants")?;
        self.grants()?;
        self.comma()?;
        self.field("strict_read_audit")?;
        self.boolean()?;
        self.close(RBRACE)
    }

    fn grants(&mut self) -> (result: Result<(), &'static str>)
        requires
            old(self).wf(),
        ensures
            agrees(
                *old(self),
                *final(self),
                result,
                deployment_grammar::grants(old(self).bytes@, old(self).here()),
            ),
    {
        proof {
            reveal(deployment_grammar::grants_at);
        }
        self.opening(LBRACKET, 4)?;
        let ghost entry = self.cursor();
        while self.pos >= self.bytes.len() || self.bytes[self.pos] != RBRACKET
            invariant
                self.wf(),
                self.bytes == old(self).bytes,
                old(self).pos < self.pos,
                deployment_grammar::grants_from(self.bytes@, entry)
                    == deployment_grammar::grants_from(self.bytes@, self.cursor()),
                deployment_grammar::opening(old(self).bytes@, old(self).here(), LBRACKET, 4)
                    == Ok::<deployment_grammar::Cursor, Seq<char>>(entry),
            decreases self.bytes.len() - self.pos,
        {
            proof {
                reveal(deployment_grammar::grants_at);
            }
            if self.result.grants > 0 {
                self.comma()?;
            }
            Self::add(&mut self.result.grants)?;
            Self::add(&mut self.result.array_entries)?;
            self.grant()?;
        }
        self.close(RBRACKET)
    }

    fn grant(&mut self) -> (result: Result<(), &'static str>)
        requires
            old(self).wf(),
        ensures
            agrees(
                *old(self),
                *final(self),
                result,
                deployment_grammar::grant(old(self).bytes@, old(self).here()),
            ),
    {
        proof {
            reveal(deployment_grammar::grant_at);
        }
        self.opening(LBRACE, 5)?;
        self.field("principal")?;
        self.string()?;
        self.comma()?;
        self.field("collection")?;
        self.nullable_string()?;
        self.comma()?;
        self.field("actions")?;
        self.actions()?;
        self.close(RBRACE)
    }

    fn actions(&mut self) -> (result: Result<(), &'static str>)
        requires
            old(self).wf(),
        ensures
            agrees(
                *old(self),
                *final(self),
                result,
                deployment_grammar::actions(old(self).bytes@, old(self).here()),
            ),
    {
        proof {
            reveal(deployment_grammar::actions_at);
        }
        self.opening(LBRACKET, 6)?;
        let ghost entry = self.cursor();
        let mut count: usize = 0;
        let mut last_rank: Option<u8> = None;
        while self.pos >= self.bytes.len() || self.bytes[self.pos] != RBRACKET
            invariant
                self.wf(),
                self.bytes == old(self).bytes,
                old(self).pos < self.pos,
                count <= 4,
                deployment_grammar::actions_from(self.bytes@, entry, -1, 0)
                    == deployment_grammar::actions_from(
                    self.bytes@,
                    self.cursor(),
                    match last_rank {
                        None => -1,
                        Some(rank) => rank as int,
                    },
                    count as int,
                ),
                deployment_grammar::opening(old(self).bytes@, old(self).here(), LBRACKET, 6)
                    == Ok::<deployment_grammar::Cursor, Seq<char>>(entry),
            decreases self.bytes.len() - self.pos,
        {
            proof {
                reveal(deployment_grammar::actions_at);
            }
            if count > 0 {
                self.comma()?;
            }
            let action = self.string()?;
            let rank: u8 = if same_bytes(action, "read".as_bytes()) {
                0
            } else if same_bytes(action, "write".as_bytes()) {
                1
            } else if same_bytes(action, "admin".as_bytes()) {
                2
            } else if same_bytes(action, "audit".as_bytes()) {
                3
            } else {
                return Err("unsupported policy action");
            };
            match last_rank {
                Some(prior) => if rank <= prior {
                    return Err("policy actions not strictly ordered");
                },
                None => {},
            }
            last_rank = Some(rank);
            count = count + 1;
            if count > 4 {
                return Err("too many policy actions");
            }
            Self::add(&mut self.result.array_entries)?;
        }
        self.close(RBRACKET)
    }

    fn limits(&mut self) -> (result: Result<u64, &'static str>)
        requires
            old(self).wf(),
        ensures
            gives(
                *old(self),
                *final(self),
                result,
                deployment_grammar::limits(old(self).bytes@, old(self).here()),
            ),
    {
        proof {
            reveal(deployment_grammar::limits_at);
        }
        self.limits_head()?;
        let max_grants: u64 = self.number()?;
        self.limits_tail()?;
        Ok(max_grants)
    }

    /// The limits up to the key of the grant quota.
    fn limits_head(&mut self) -> (result: Result<(), &'static str>)
        requires
            old(self).wf(),
        ensures
            agrees(
                *old(self),
                *final(self),
                result,
                deployment_grammar::limits_head(old(self).bytes@, old(self).here()),
            ),
    {
        proof {
            reveal(deployment_grammar::limits_head_at);
        }
        self.opening(LBRACE, 3)?;
        self.field("history")?;
        let history = ["max_feed_events", "max_feed_bytes", "max_archive_segments"];
        assert(history@ =~= deployment_grammar::history_keys());
        self.number_object(4, &history)?;
        self.comma()?;
        self.field("atomic")?;
        let atomic = [
            "max_operations",
            "max_read_assertions",
            "max_transaction_bytes",
            "max_active_transactions",
            "max_reserved_staging_bytes",
            "max_permanent_staged_bytes",
            "max_snapshot_leases",
            "max_snapshot_lease_bytes",
        ];
        assert(atomic@ =~= deployment_grammar::atomic_keys());
        self.number_object(4, &atomic)?;
        self.comma()?;
        let before = [
            "max_document_bytes",
            "max_batch_operations",
            "max_batch_bytes",
            "max_documents",
            "max_collections",
            "max_schema_bytes",
            "max_schema_activation_bytes",
            "max_retirement_bytes",
            "max_target_resolution_bytes",
            "max_backup_binding_bytes",
        ];
        assert(before@ =~= deployment_grammar::leading_limit_keys());
        self.number_fields(&before)?;
        self.comma()?;
        self.field("max_policy_grants")
    }

    /// The limits behind the grant quota.
    fn limits_tail(&mut self) -> (result: Result<(), &'static str>)
        requires
            old(self).wf(),
        ensures
            agrees(
                *old(self),
                *final(self),
                result,
                deployment_grammar::limits_tail(old(self).bytes@, old(self).here()),
            ),
    {
        proof {
            reveal(deployment_grammar::limits_tail_at);
        }
        self.comma()?;
        let bytes = ["max_logical_bytes", "max_snapshot_bytes", "max_mutation_receipt_bytes"];
        assert(bytes@ =~= deployment_grammar::byte_limit_keys());
        self.number_fields(&bytes)?;
        self.comma()?;
        self.field("audit_retention")?;
        let audit = ["hot_bytes", "archive_bytes"];
        assert(audit@ =~= deployment_grammar::audit_keys());
        self.number_object(4, &audit)?;
        self.comma()?;
        let after = [
            "max_query_candidates",
            "max_query_groups",
            "max_result_bytes",
            "max_page_size",
            "max_cursors",
            "max_cursor_bytes",
            "cursor_ttl_ms",
        ];
        assert(after@ =~= deployment_grammar::trailing_limit_keys());
        self.number_fields(&after)?;
        self.close(RBRACE)
    }

    fn number_field(&mut self, key: &str) -> (result: Result<(), &'static str>)
        requires
            old(self).wf(),
        ensures
            agrees(
                *old(self),
                *final(self),
                result,
                deployment_grammar::number_field(old(self).bytes@, old(self).here(), key@),
            ),
    {
        self.field(key)?;
        self.number()?;
        Ok(())
    }

    fn number_fields(&mut self, fields: &[&'static str]) -> (result: Result<(), &'static str>)
        requires
            old(self).wf(),
            fields.len() > 0,
        ensures
            agrees(
                *old(self),
                *final(self),
                result,
                deployment_grammar::number_list(old(self).bytes@, old(self).here(), fields@),
            ),
    {
        proof {
            reveal(deployment_grammar::number_list_at);
        }
        let mut index: usize = 0;
        while index < fields.len()
            invariant
                self.wf(),
                self.bytes == old(self).bytes,
                index <= fields.len(),
                old(self).pos <= self.pos,
                index > 0 ==> old(self).pos < self.pos,
                deployment_grammar::number_fields(old(self).bytes@, old(self).here(), fields@, 0)
                    == deployment_grammar::number_fields(
                    self.bytes@,
                    self.here(),
                    fields@,
                    index as int,
                ),
            decreases fields.len() - index,
        {
            proof {
                reveal(deployment_grammar::number_list_at);
            }
            match self.number_field(fields[index]) {
                Err(e) => {
                    proof {
                        lemma_number_fields_keep_refusals(
                            self.bytes@,
                            e@,
                            fields@,
                            index + 1,
                        );
                    }
                    return Err(e);
                },
                Ok(()) => {},
            }
            if index + 1 != fields.len() {
                match self.comma() {
                    Err(e) => {
                        proof {
                            lemma_number_fields_keep_refusals(
                                self.bytes@,
                                e@,
                                fields@,
                                index + 1,
                            );
                        }
                        return Err(e);
                    },
                    Ok(()) => {},
                }
            }
            index = index + 1;
        }
        Ok(())
    }

    fn number_object(&mut self, depth: usize, fields: &[&'static str]) -> (result: Result<(), &'static str>)
        requires
            old(self).wf(),
            fields.len() > 0,
        ensures
            agrees(
                *old(self),
                *final(self),
                result,
                deployment_grammar::number_object(old(self).bytes@, old(self).here(), depth, fields@),
            ),
    {
        proof {
            reveal(deployment_grammar::number_object_at);
        }
        self.opening(LBRACE, depth)?;
        self.number_fields(fields)?;
        self.close(RBRACE)
    }

    fn voter(&mut self) -> (result: Result<(), &'static str>)
        requires
            old(self).wf(),
        ensures
            agrees(
                *old(self),
                *final(self),
                result,
                deployment_grammar::voter(old(self).bytes@, old(self).here()),
            ),
    {
        proof {
            reveal(deployment_grammar::voter_at);
        }
        self.opening(LBRACE, 4)?;
        self.field("address")?;
        self.string()?;
        self.comma()?;
        self.field("failure_domain")?;
        self.string()?;
        self.close(RBRACE)
    }

    fn voters(&mut self) -> (result: Result<(), &'static str>)
        requires
            old(self).wf(),
        ensures
            agrees(
                *old(self),
                *final(self),
                result,
                deployment_grammar::voters(old(self).bytes@, old(self).here()),
            ),
    {
        proof {
            reveal(deployment_grammar::voters_at);
        }
        self.opening(LBRACE, 3)?;
        let ghost entry = self.cursor();
        let mut previous: u64 = 0;
        while self.pos >= self.bytes.len() || self.bytes[self.pos] != RBRACE
            invariant
                self.wf(),
                self.bytes == old(self).bytes,
                old(self).pos < self.pos,
                deployment_grammar::voters_from(self.bytes@, entry, 0)
                    == deployment_grammar::voters_from(self.bytes@, self.cursor(), previous),
                deployment_grammar::opening(old(self).bytes@, old(self).here(), LBRACE, 3) == Ok::<
                    deployment_grammar::Cursor,
                    Seq<char>,
                >(entry),
            decreases self.bytes.len() - self.pos,
        {
            proof {
                reveal(deployment_grammar::voters_at);
            }
            if self.result.voters > 0 {
                self.comma()?;
            }
            self.numeric_key(&mut previous)?;
            Self::add(&mut self.result.voters)?;
            if self.result.voters > 3 {
                return Err("more than three initial voters");
            }
            self.voter()?;
        }
        self.close(RBRACE)?;
        if self.result.voters != 3 {
            return Err("exactly three initial voters required");
        }
        Ok(())
    }
}

/// A refusal is not undone by reading on.
proof fn lemma_number_fields_keep_refusals(
    b: Seq<u8>,
    e: Seq<char>,
    keys: Seq<&'static str>,
    i: int,
)
    ensures
        deployment_grammar::number_fields(b, Err(e), keys, i) == Err::<
            deployment_grammar::Cursor,
            Seq<char>,
        >(e),
    decreases keys.len() - i,
{
    if 0 <= i < keys.len() {
        lemma_number_fields_keep_refusals(b, e, keys, i + 1);
    }
}

/// The text of the previous string, if there was one.
spec fn decoded_text(previous: Option<&[u8]>) -> Option<Seq<u8>> {
    match previous {
        None => None,
        Some(raw) => Some(deployment_grammar::decode_from(raw@, 0)),
    }
}

fn ascends(previous: Option<&[u8]>, current: &[u8]) -> (greater: bool)
    ensures
        greater == deployment_grammar::ascends(
            decoded_text(previous),
            deployment_grammar::Text { raw: current@, decoded: deployment_grammar::decode_from(current@, 0) },
        ),
{
    match previous {
        None => true,
        Some(prior) => greater_decoded(prior, current),
    }
}

pub(crate) proof fn lemma_word_lengths()
    ensures
        vstd::utf8::encode_utf8("true"@).len() == 4,
        vstd::utf8::encode_utf8("false"@).len() == 5,
        vstd::utf8::encode_utf8("null"@).len() == 4,
{
    reveal_strlit("true");
    reveal_strlit("false");
    reveal_strlit("null");
    vstd::utf8::is_ascii_chars_encode_utf8("true"@);
    vstd::utf8::is_ascii_chars_encode_utf8("false"@);
    vstd::utf8::is_ascii_chars_encode_utf8("null"@);
}

} // verus!
