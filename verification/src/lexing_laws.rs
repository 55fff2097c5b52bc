//! How the parts of a deployment are spelled: an integer in one way only, and a character of
//! a string by itself or by what stands for it; and what is counted on the way.
use vstd::prelude::*;

use crate::deployment_grammar;
use crate::deployment_grammar::{Counter, Cursor};
use crate::deployment_preflight::Inventory;

verus! {

proof fn lemma_digits_end(b: Seq<u8>, p: int)
    requires
        0 <= p <= b.len(),
    ensures
        ({
            let end = deployment_grammar::digits_end(b, p);
            &&& p <= end <= b.len()
            &&& forall|i: int| p <= i < end ==> 48 <= #[trigger] b[i] <= 57
            &&& end < b.len() ==> !(48 <= b[end] <= 57)
        }),
    decreases b.len() - p,
{
    if p < b.len() && deployment_grammar::is_digit(b[p]) {
        lemma_digits_end(b, p + 1);
    }
}

/// Whether an integer is spelled from `p` up to `end`: in digits only, as far as there are
/// any, and with no zero in front of another digit.
pub open spec fn spelled(b: Seq<u8>, p: int, end: int) -> bool {
    &&& 0 <= p < end <= b.len()
    &&& forall|i: int| p <= i < end ==> 48 <= #[trigger] b[i] <= 57
    &&& end < b.len() ==> !(48 <= b[end] <= 57)
    &&& b[p] == 48 ==> end == p + 1
}

/// The value of the digits from `p` up to `end`.
pub open spec fn value(b: Seq<u8>, p: int, end: int) -> int
    decreases end - p,
{
    if end <= p {
        0
    } else {
        value(b, p, end - 1) * 10 + (b[end - 1] - 48)
    }
}

proof fn lemma_value(b: Seq<u8>, p: int, end: int)
    requires
        0 <= p <= end <= b.len(),
        forall|i: int| p <= i < end ==> 48 <= #[trigger] b[i] <= 57,
    ensures
        deployment_grammar::decimal(b.subrange(p, end)) == value(b, p, end),
        value(b, p, end) >= 0,
    decreases end - p,
{
    let digits = b.subrange(p, end);
    if p < end {
        lemma_value(b, p, end - 1);
        assert(digits.drop_last() =~= b.subrange(p, end - 1));
        assert(digits.last() == b[end - 1]);
    }
}

/// An integer is read exactly if it is spelled in its one way and fits, and then it is its
/// value, behind its last digit, and nothing is counted.
pub proof fn lemma_number(b: Seq<u8>, c: Cursor)
    requires
        0 <= c.pos,
    ensures
        match deployment_grammar::number_at(b, c) {
            Ok((next, n)) => {
                &&& spelled(b, c.pos, next.pos)
                &&& n == value(b, c.pos, next.pos)
                &&& next.inv == c.inv
            },
            Err(_) => forall|end: int| #[trigger]
                spelled(b, c.pos, end) ==> value(b, c.pos, end) > u64::MAX,
        },
{
    reveal(deployment_grammar::number_at);
    if c.pos < b.len() {
        let end = deployment_grammar::digits_end(b, c.pos);
        lemma_digits_end(b, c.pos);
        lemma_value(b, c.pos, end);
        assert forall|other: int| #[trigger] spelled(b, c.pos, other) implies other == end by {
            if other < end {
                assert(48 <= b[other] <= 57);
            } else if end < other {
                assert(48 <= b[end] <= 57);
            }
        }
    }
}

/// A bracket is opened only where it stands, no deeper than nesting may go; and the deepest
/// so far is noted.
pub proof fn lemma_opened(b: Seq<u8>, c: Cursor, bracket: u8, depth: usize)
    ensures
        ({
            let r = deployment_grammar::opening(b, Ok(c), bracket, depth);
            &&& r is Ok <==> depth <= 16 && 0 <= c.pos < b.len() && b[c.pos] == bracket
            &&& r is Ok ==> {
                &&& r->Ok_0.pos == c.pos + 1
                &&& depth <= r->Ok_0.inv.max_depth
                &&& c.inv.max_depth <= r->Ok_0.inv.max_depth
                &&& r->Ok_0.inv.max_depth == depth || r->Ok_0.inv.max_depth == c.inv.max_depth
                &&& r->Ok_0.inv == (Inventory { max_depth: r->Ok_0.inv.max_depth, ..c.inv })
            }
        }),
{
}

/// A count goes up by one, and no other with it.
pub proof fn lemma_counted(c: Cursor, which: Counter, other: Counter)
    ensures
        ({
            let r = deployment_grammar::count(Ok(c), which);
            &&& r is Ok <==> deployment_grammar::counter(c.inv, which) < u64::MAX
            &&& r is Ok ==> {
                &&& r->Ok_0.pos == c.pos
                &&& deployment_grammar::counter(r->Ok_0.inv, which)
                    == deployment_grammar::counter(c.inv, which) + 1
                &&& other != which ==> deployment_grammar::counter(r->Ok_0.inv, other)
                    == deployment_grammar::counter(c.inv, other)
                &&& r->Ok_0.inv.encoded_bytes == c.inv.encoded_bytes
                &&& r->Ok_0.inv.decoded_string_bytes == c.inv.decoded_string_bytes
                &&& r->Ok_0.inv.max_depth == c.inv.max_depth
            }
        }),
{
}

/// Each counter is a count of its own kind.
pub proof fn lemma_counters(inv: Inventory)
    ensures
        deployment_grammar::counter(inv, Counter::Strings) == inv.strings,
        deployment_grammar::counter(inv, Counter::ObjectEntries) == inv.object_entries,
        deployment_grammar::counter(inv, Counter::ArrayEntries) == inv.array_entries,
        deployment_grammar::counter(inv, Counter::Grants) == inv.grants,
        deployment_grammar::counter(inv, Counter::Voters) == inv.voters,
        deployment_grammar::counter(inv, Counter::ControlNodes) == inv.control_nodes,
        deployment_grammar::counter(inv, Counter::ControlTenants) == inv.control_tenants,
        deployment_grammar::counter(inv, Counter::LifecyclePartitions) == inv.lifecycle_partitions,
{
}

/// The value of a hexadecimal digit.
pub open spec fn nibble(x: u8) -> int {
    if x <= 57 {
        x - 48
    } else if x <= 70 {
        x - 55
    } else {
        x - 87
    }
}

/// Whether the byte is a hexadecimal digit.
pub open spec fn is_nibble(x: u8) -> bool {
    48 <= x <= 57 || 65 <= x <= 70 || 97 <= x <= 102
}

/// Four hexadecimal digits are read exactly if all four stand there, and are the number that
/// they spell, the highest first.
pub proof fn lemma_four_digits(b: Seq<u8>, p: int)
    requires
        0 <= p,
    ensures
        ({
            let r = deployment_grammar::hex4(b, p);
            &&& r is Ok <==> p + 4 <= b.len() && is_nibble(b[p]) && is_nibble(b[p + 1])
                && is_nibble(b[p + 2]) && is_nibble(b[p + 3])
            &&& r is Ok ==> r->Ok_0 == nibble(b[p]) * 4096 + nibble(b[p + 1]) * 256 + nibble(
                b[p + 2],
            ) * 16 + nibble(b[p + 3])
        }),
{
    reveal(deployment_grammar::hex4);
}

/// A character of a string is itself, unless it is a control byte, which is refused, or
/// begins an escape: of a quote, a backslash or a slash as it is, of one of five control
/// bytes by its letter, or of any character by its number.
pub proof fn lemma_unit(b: Seq<u8>, p: int)
    requires
        0 <= p < b.len(),
    ensures
        ({
            let r = deployment_grammar::unit(b, p);
            &&& b[p] < 32 ==> r is Err
            &&& b[p] >= 32 && b[p] != 92 ==> r is Ok && r->Ok_0.0 == p + 1 && r->Ok_0.1 == seq![
                b[p],
            ]
            &&& b[p] == 92 && p + 1 >= b.len() ==> r is Err
            &&& b[p] == 92 && p + 1 < b.len() && (b[p + 1] == 34 || b[p + 1] == 92 || b[p + 1]
                == 47) ==> r is Ok && r->Ok_0.0 == p + 2 && r->Ok_0.1 == seq![b[p + 1]]
            &&& b[p] == 92 && p + 1 < b.len() && b[p + 1] == 98 ==> r is Ok && r->Ok_0.0 == p + 2
                && r->Ok_0.1 == seq![8u8]
            &&& b[p] == 92 && p + 1 < b.len() && b[p + 1] == 102 ==> r is Ok && r->Ok_0.0 == p + 2
                && r->Ok_0.1 == seq![12u8]
            &&& b[p] == 92 && p + 1 < b.len() && b[p + 1] == 110 ==> r is Ok && r->Ok_0.0 == p + 2
                && r->Ok_0.1 == seq![10u8]
            &&& b[p] == 92 && p + 1 < b.len() && b[p + 1] == 114 ==> r is Ok && r->Ok_0.0 == p + 2
                && r->Ok_0.1 == seq![13u8]
            &&& b[p] == 92 && p + 1 < b.len() && b[p + 1] == 116 ==> r is Ok && r->Ok_0.0 == p + 2
                && r->Ok_0.1 == seq![9u8]
            &&& b[p] == 92 && p + 1 < b.len() && r is Ok ==> b[p + 1] == 34 || b[p + 1] == 92 || b[p
                + 1] == 47 || b[p + 1] == 98 || b[p + 1] == 102 || b[p + 1] == 110 || b[p + 1]
                == 114 || b[p + 1] == 116 || b[p + 1] == 117
        }),
{
    reveal(deployment_grammar::unit);
    reveal(deployment_grammar::unicode_escape);
}

/// A character by its number is read exactly if the number stands there and is no half of a
/// pair, or is the first half and the second follows it.
pub proof fn lemma_numbered(b: Seq<u8>, p: int)
    requires
        0 <= p,
    ensures
        ({
            let r = deployment_grammar::unicode_escape(b, p);
            let first = deployment_grammar::hex4(b, p);
            let second = deployment_grammar::hex4(b, p + 6);
            let high = first is Ok && 0xD800 <= first->Ok_0 < 0xDC00;
            let low = first is Ok && 0xDC00 <= first->Ok_0 < 0xE000;
            let paired = p + 6 <= b.len() && b[p + 4] == 92 && b[p + 5] == 117 && second is Ok
                && 0xDC00 <= second->Ok_0 < 0xE000;
            &&& r is Ok <==> first is Ok && !low && (high ==> paired)
            &&& r is Ok && !high ==> r->Ok_0.0 == p + 4 && r->Ok_0.1 == vstd::utf8::encode_scalar(
                first->Ok_0,
            )
            &&& r is Ok && high ==> r->Ok_0.0 == p + 10 && r->Ok_0.1 == vstd::utf8::encode_scalar(
                (65536 + (first->Ok_0 - 55296) * 1024 + (second->Ok_0 - 56320)) as u32,
            )
        }),
{
    reveal(deployment_grammar::unicode_escape);
}

} // verus!
