//! What follows a deployment: an accepted record is the whole of its text.
use vstd::prelude::*;

use crate::deployment_grammar as grammar;
use crate::deployment_grammar::{Cursor, Step};
use crate::deployment_preflight::Inventory;

verus! {

/// Whether the longer text begins with the whole of the shorter one.
pub open spec fn begins(long: Seq<u8>, short: Seq<u8>) -> bool {
    &&& short.len() <= long.len()
    &&& forall|i: int| 0 <= i < short.len() ==> #[trigger] long[i] == short[i]
}

/// The cursor at the same place of a text with so many bytes.
pub open spec fn moved(c: Cursor, bytes: u64) -> Cursor {
    Cursor { pos: c.pos, inv: Inventory { encoded_bytes: bytes, ..c.inv } }
}

/// Whether a step that ends within the shorter text ends at the same place of the longer
/// one.
pub open spec fn carried(n: nat, bytes: u64, from: int, r: Step, long: Step) -> bool {
    r matches Ok(c) ==> {
        &&& from <= c.pos <= n
        &&& c.pos < n ==> long == Ok::<Cursor, Seq<char>>(moved(c, bytes))
    }
}

/// The same of a step that also gives a value.
pub open spec fn carried_with<T>(
    n: nat,
    bytes: u64,
    from: int,
    r: Result<(Cursor, T), Seq<char>>,
    long: Result<(Cursor, T), Seq<char>>,
) -> bool {
    r matches Ok((c, value)) ==> {
        &&& from <= c.pos <= n
        &&& c.pos < n ==> long == Ok::<(Cursor, T), Seq<char>>((moved(c, bytes), value))
    }
}

proof fn lemma_body(b: Seq<u8>, long: Seq<u8>, p: int)
    requires
        begins(long, b),
        grammar::body(b, p) is Ok,
    ensures
        0 <= p <= grammar::body(b, p)->Ok_0.0 < b.len(),
        grammar::body(long, p) == grammar::body(b, p),
    decreases b.len() - p,
{
    if b[p] != grammar::QUOTE {
        let (q, out) = grammar::unit(b, p)->Ok_0;
        assert(grammar::body(b, q) is Ok);
        if q > p {
            lemma_body(b, long, q);
            assert(grammar::holds(b, long, p, b.len() as int, 0));
            grammar::lemma_unit_stands(b, long, p, b.len() as int, 0);
        } else {
            assert(false);
        }
    }
}

proof fn lemma_strings(b: Seq<u8>, long: Seq<u8>, bytes: u64)
    requires
        begins(long, b),
    ensures
        forall|c: Cursor|
            0 <= c.pos <= b.len() ==> carried_with(
                b.len(),
                bytes,
                c.pos,
                #[trigger] grammar::string_at(b, c),
                grammar::string_at(long, moved(c, bytes)),
            ),
{
    assert forall|c: Cursor| 0 <= c.pos <= b.len() implies carried_with(
        b.len(),
        bytes,
        c.pos,
        #[trigger] grammar::string_at(b, c),
        grammar::string_at(long, moved(c, bytes)),
    ) by {
        reveal(grammar::string_at);
        if grammar::string_at(b, c) is Ok {
            lemma_body(b, long, c.pos + 1);
            let end = grammar::body(b, c.pos + 1)->Ok_0.0;
            assert(long.subrange(c.pos + 1, end) =~= b.subrange(c.pos + 1, end));
        }
    }
}

proof fn lemma_digits(b: Seq<u8>, long: Seq<u8>, p: int)
    requires
        begins(long, b),
        0 <= p <= b.len(),
    ensures
        p <= grammar::digits_end(b, p) <= b.len(),
        grammar::digits_end(b, p) < b.len() ==> grammar::digits_end(long, p) == grammar::digits_end(b, p),
    decreases b.len() - p,
{
    if p < b.len() && grammar::is_digit(b[p]) {
        lemma_digits(b, long, p + 1);
    }
}

proof fn lemma_numbers(b: Seq<u8>, long: Seq<u8>, bytes: u64)
    requires
        begins(long, b),
    ensures
        forall|c: Cursor|
            0 <= c.pos <= b.len() ==> carried_with(
                b.len(),
                bytes,
                c.pos,
                #[trigger] grammar::number_at(b, c),
                grammar::number_at(long, moved(c, bytes)),
            ),
{
    assert forall|c: Cursor| 0 <= c.pos <= b.len() implies carried_with(
        b.len(),
        bytes,
        c.pos,
        #[trigger] grammar::number_at(b, c),
        grammar::number_at(long, moved(c, bytes)),
    ) by {
        reveal(grammar::number_at);
        if grammar::number_at(b, c) is Ok {
            lemma_digits(b, long, c.pos);
            let end = grammar::digits_end(b, c.pos);
            if end < b.len() {
                assert(long.subrange(c.pos, end) =~= b.subrange(c.pos, end));
            }
        }
    }
}

proof fn lemma_stands(b: Seq<u8>, long: Seq<u8>, p: int, text: Seq<char>)
    requires
        begins(long, b),
        0 <= p,
    ensures
        grammar::stands(b, p, text) ==> grammar::stands(long, p, text),
        grammar::stands(long, p, text) && p + vstd::utf8::encode_utf8(text).len() <= b.len() ==> grammar::stands(
            b,
            p,
            text,
        ),
{
    let t = vstd::utf8::encode_utf8(text);
    if p + t.len() <= b.len() {
        assert(long.subrange(p, p + t.len()) =~= b.subrange(p, p + t.len()));
    }
}

proof fn lemma_booleans(b: Seq<u8>, long: Seq<u8>, bytes: u64)
    requires
        begins(long, b),
    ensures
        forall|c: Cursor|
            0 <= c.pos <= b.len() ==> carried(
                b.len(),
                bytes,
                c.pos,
                #[trigger] grammar::boolean_at(b, c),
                grammar::boolean_at(long, moved(c, bytes)),
            ),
{
    crate::deployment_preflight::lemma_word_lengths();
    assert forall|c: Cursor| 0 <= c.pos <= b.len() implies carried(
        b.len(),
        bytes,
        c.pos,
        #[trigger] grammar::boolean_at(b, c),
        grammar::boolean_at(long, moved(c, bytes)),
    ) by {
        reveal(grammar::boolean_at);
        lemma_stands(b, long, c.pos, "true"@);
        lemma_stands(b, long, c.pos, "false"@);
    }
}

proof fn lemma_nullables(b: Seq<u8>, long: Seq<u8>, bytes: u64)
    requires
        begins(long, b),
    ensures
        forall|c: Cursor|
            0 <= c.pos <= b.len() ==> carried(
                b.len(),
                bytes,
                c.pos,
                #[trigger] grammar::nullable_string_at(b, c),
                grammar::nullable_string_at(long, moved(c, bytes)),
            ),
{
    crate::deployment_preflight::lemma_word_lengths();
    reveal_strlit("null");
    vstd::utf8::is_ascii_chars_encode_utf8("null"@);
    lemma_strings(b, long, bytes);
    assert forall|c: Cursor| 0 <= c.pos <= b.len() implies carried(
        b.len(),
        bytes,
        c.pos,
        #[trigger] grammar::nullable_string_at(b, c),
        grammar::nullable_string_at(long, moved(c, bytes)),
    ) by {
        reveal(grammar::nullable_string_at);
        lemma_stands(b, long, c.pos, "null"@);
        if grammar::nullable_string_at(b, c) is Ok && !grammar::stands(b, c.pos, "null"@) {
            assert(grammar::string_at(b, c) is Ok);
            assert(b[c.pos] == grammar::QUOTE) by {
                reveal(grammar::string_at);
            }
            if grammar::stands(long, c.pos, "null"@) {
                let t = vstd::utf8::encode_utf8("null"@);
                assert(long.subrange(c.pos, c.pos + t.len())[0] == t[0]);
                assert("null"@[0] as u8 == t[0]);
            }
        }
    }
}

proof fn lemma_literal_string_carried(b: Seq<u8>, long: Seq<u8>, bytes: u64)
    requires
        begins(long, b),
    ensures
        forall|c: Cursor, expected: Seq<char>|
            0 <= c.pos <= b.len() ==> carried(
                b.len(),
                bytes,
                c.pos,
                #[trigger] grammar::literal_string_at(b, c, expected),
                grammar::literal_string_at(long, moved(c, bytes), expected),
            ),
{
    lemma_strings(b, long, bytes);
    assert forall|c: Cursor, expected: Seq<char>| 0 <= c.pos <= b.len() implies carried(
        b.len(),
        bytes,
        c.pos,
        #[trigger] grammar::literal_string_at(b, c, expected),
        grammar::literal_string_at(long, moved(c, bytes), expected),
    ) by {
        reveal(grammar::literal_string_at);
    }
}

proof fn lemma_field_carried(b: Seq<u8>, long: Seq<u8>, bytes: u64)
    requires
        begins(long, b),
    ensures
        forall|c: Cursor, key: Seq<char>|
            0 <= c.pos <= b.len() ==> carried(
                b.len(),
                bytes,
                c.pos,
                #[trigger] grammar::field_at(b, c, key),
                grammar::field_at(long, moved(c, bytes), key),
            ),
{
    lemma_literal_string_carried(b, long, bytes);
    assert forall|c: Cursor, key: Seq<char>| 0 <= c.pos <= b.len() implies carried(
        b.len(),
        bytes,
        c.pos,
        #[trigger] grammar::field_at(b, c, key),
        grammar::field_at(long, moved(c, bytes), key),
    ) by {
        reveal(grammar::field_at);
    }
}

proof fn lemma_numeric_key_carried(b: Seq<u8>, long: Seq<u8>, bytes: u64)
    requires
        begins(long, b),
    ensures
        forall|c: Cursor, previous: u64|
            0 <= c.pos <= b.len() ==> carried_with(
                b.len(),
                bytes,
                c.pos,
                #[trigger] grammar::numeric_key_at(b, c, previous),
                grammar::numeric_key_at(long, moved(c, bytes), previous),
            ),
{
    lemma_strings(b, long, bytes);
    assert forall|c: Cursor, previous: u64| 0 <= c.pos <= b.len() implies carried_with(
        b.len(),
        bytes,
        c.pos,
        #[trigger] grammar::numeric_key_at(b, c, previous),
        grammar::numeric_key_at(long, moved(c, bytes), previous),
    ) by {
        reveal(grammar::numeric_key_at);
    }
}

proof fn lemma_pins_from(b: Seq<u8>, long: Seq<u8>, bytes: u64, c: Cursor, pins: int, previous: Option<Seq<u8>>)
    requires
        begins(long, b),
        0 <= c.pos <= b.len(),
    ensures
        carried(
            b.len(),
            bytes,
            c.pos,
            grammar::pins_from(b, c, pins, previous),
            grammar::pins_from(long, moved(c, bytes), pins, previous),
        ),
    decreases b.len() - c.pos,
{
    lemma_strings(b, long, bytes);
    if grammar::at(b, c.pos) != Some(grammar::RBRACKET) && grammar::pins_from(b, c, pins, previous) is Ok {
        let r = if pins > 0 {
            grammar::byte(b, Ok(c), grammar::COMMA)
        } else {
            Ok(c)
        };
        let (c1, t) = grammar::string(b, r)->Ok_0;
        let c2 = grammar::count(Ok(c1), grammar::Counter::ArrayEntries)->Ok_0;
        lemma_pins_from(b, long, bytes, c2, pins + 1, Some(t.decoded));
    }
}

proof fn lemma_pins_carried(b: Seq<u8>, long: Seq<u8>, bytes: u64)
    requires
        begins(long, b),
    ensures
        forall|c: Cursor|
            0 <= c.pos <= b.len() ==> carried(
                b.len(),
                bytes,
                c.pos,
                #[trigger] grammar::pins_at(b, c),
                grammar::pins_at(long, moved(c, bytes)),
            ),
{
    assert forall|c: Cursor| 0 <= c.pos <= b.len() implies carried(
        b.len(),
        bytes,
        c.pos,
        #[trigger] grammar::pins_at(b, c),
        grammar::pins_at(long, moved(c, bytes)),
    ) by {
        reveal(grammar::pins_at);
        lemma_pins_from(b, long, bytes, c, 0, None);
    }
}

proof fn lemma_control_node_carried(b: Seq<u8>, long: Seq<u8>, bytes: u64)
    requires
        begins(long, b),
    ensures
        forall|c: Cursor|
            0 <= c.pos <= b.len() ==> carried(
                b.len(),
                bytes,
                c.pos,
                #[trigger] grammar::control_node_at(b, c),
                grammar::control_node_at(long, moved(c, bytes)),
            ),
{
    lemma_strings(b, long, bytes);
    lemma_field_carried(b, long, bytes);
    lemma_pins_carried(b, long, bytes);
    assert forall|c: Cursor| 0 <= c.pos <= b.len() implies carried(
        b.len(),
        bytes,
        c.pos,
        #[trigger] grammar::control_node_at(b, c),
        grammar::control_node_at(long, moved(c, bytes)),
    ) by {
        reveal(grammar::control_node_at);
    }
}

proof fn lemma_nodes_from(b: Seq<u8>, long: Seq<u8>, bytes: u64, c: Cursor, previous: u64)
    requires
        begins(long, b),
        0 <= c.pos <= b.len(),
    ensures
        carried(
            b.len(),
            bytes,
            c.pos,
            grammar::nodes_from(b, c, previous),
            grammar::nodes_from(long, moved(c, bytes), previous),
        ),
    decreases b.len() - c.pos,
{
    lemma_numeric_key_carried(b, long, bytes);
    lemma_control_node_carried(b, long, bytes);
    if grammar::at(b, c.pos) != Some(grammar::RBRACE) && grammar::nodes_from(b, c, previous) is Ok {
        let r = if previous != 0 {
            grammar::byte(b, Ok(c), grammar::COMMA)
        } else {
            Ok(c)
        };
        let (c1, key) = grammar::numeric_key(b, r, previous)->Ok_0;
        let r = grammar::count(Ok(c1), grammar::Counter::ControlNodes);
        let r = grammar::at_most(
            r,
            grammar::Counter::ControlNodes,
            grammar::MAX_CONTROL_NODES,
            "too many Control nodes"@,
        );
        let c2 = grammar::control_node(b, r)->Ok_0;
        lemma_nodes_from(b, long, bytes, c2, key);
    }
}

proof fn lemma_nodes_carried(b: Seq<u8>, long: Seq<u8>, bytes: u64)
    requires
        begins(long, b),
    ensures
        forall|c: Cursor|
            0 <= c.pos <= b.len() ==> carried(
                b.len(),
                bytes,
                c.pos,
                #[trigger] grammar::nodes_at(b, c),
                grammar::nodes_at(long, moved(c, bytes)),
            ),
{
    assert forall|c: Cursor| 0 <= c.pos <= b.len() implies carried(
        b.len(),
        bytes,
        c.pos,
        #[trigger] grammar::nodes_at(b, c),
        grammar::nodes_at(long, moved(c, bytes)),
    ) by {
        reveal(grammar::nodes_at);
        let r = grammar::opening(b, Ok(c), grammar::LBRACE, 6);
        if r is Ok {
            lemma_nodes_from(b, long, bytes, r->Ok_0, 0);
        }
    }
}

proof fn lemma_members_from(b: Seq<u8>, long: Seq<u8>, bytes: u64, c: Cursor, previous: u64, count_so_far: int, max: u64)
    requires
        begins(long, b),
        0 <= c.pos <= b.len(),
    ensures
        carried(
            b.len(),
            bytes,
            c.pos,
            grammar::members_from(b, c, previous, count_so_far, max),
            grammar::members_from(long, moved(c, bytes), previous, count_so_far, max),
        ),
    decreases b.len() - c.pos,
{
    lemma_numbers(b, long, bytes);
    if grammar::at(b, c.pos) != Some(grammar::RBRACKET) && grammar::members_from(b, c, previous, count_so_far, max) is Ok {
        let r = if count_so_far > 0 {
            grammar::byte(b, Ok(c), grammar::COMMA)
        } else {
            Ok(c)
        };
        let (c1, id) = grammar::number(b, r)->Ok_0;
        let c2 = grammar::count(Ok(c1), grammar::Counter::ArrayEntries)->Ok_0;
        lemma_members_from(b, long, bytes, c2, id, count_so_far + 1, max);
    }
}

proof fn lemma_numeric_set_carried(b: Seq<u8>, long: Seq<u8>, bytes: u64)
    requires
        begins(long, b),
    ensures
        forall|c: Cursor, depth: usize, max: u64|
            0 <= c.pos <= b.len() ==> carried(
                b.len(),
                bytes,
                c.pos,
                #[trigger] grammar::numeric_set_at(b, c, depth, max),
                grammar::numeric_set_at(long, moved(c, bytes), depth, max),
            ),
{
    assert forall|c: Cursor, depth: usize, max: u64| 0 <= c.pos <= b.len() implies carried(
        b.len(),
        bytes,
        c.pos,
        #[trigger] grammar::numeric_set_at(b, c, depth, max),
        grammar::numeric_set_at(long, moved(c, bytes), depth, max),
    ) by {
        reveal(grammar::numeric_set_at);
        let r = grammar::opening(b, Ok(c), grammar::LBRACKET, depth);
        if r is Ok {
            lemma_members_from(b, long, bytes, r->Ok_0, 0, 0, max);
        }
    }
}

proof fn lemma_mode_carried(b: Seq<u8>, long: Seq<u8>, bytes: u64)
    requires
        begins(long, b),
    ensures
        forall|c: Cursor|
            0 <= c.pos <= b.len() ==> carried(
                b.len(),
                bytes,
                c.pos,
                #[trigger] grammar::mode_at(b, c),
                grammar::mode_at(long, moved(c, bytes)),
            ),
{
    lemma_strings(b, long, bytes);
    assert forall|c: Cursor| 0 <= c.pos <= b.len() implies carried(
        b.len(),
        bytes,
        c.pos,
        #[trigger] grammar::mode_at(b, c),
        grammar::mode_at(long, moved(c, bytes)),
    ) by {
        reveal(grammar::mode_at);
    }
}

proof fn lemma_route_carried(b: Seq<u8>, long: Seq<u8>, bytes: u64)
    requires
        begins(long, b),
    ensures
        forall|c: Cursor|
            0 <= c.pos <= b.len() ==> carried(
                b.len(),
                bytes,
                c.pos,
                #[trigger] grammar::route_at(b, c),
                grammar::route_at(long, moved(c, bytes)),
            ),
{
    lemma_strings(b, long, bytes);
    lemma_field_carried(b, long, bytes);
    lemma_mode_carried(b, long, bytes);
    lemma_numeric_set_carried(b, long, bytes);
    assert forall|c: Cursor| 0 <= c.pos <= b.len() implies carried(
        b.len(),
        bytes,
        c.pos,
        #[trigger] grammar::route_at(b, c),
        grammar::route_at(long, moved(c, bytes)),
    ) by {
        reveal(grammar::route_at);
    }
}

proof fn lemma_tenants_from(b: Seq<u8>, long: Seq<u8>, bytes: u64, c: Cursor, previous: Option<Seq<u8>>)
    requires
        begins(long, b),
        0 <= c.pos <= b.len(),
    ensures
        carried(
            b.len(),
            bytes,
            c.pos,
            grammar::tenants_from(b, c, previous),
            grammar::tenants_from(long, moved(c, bytes), previous),
        ),
    decreases b.len() - c.pos,
{
    lemma_strings(b, long, bytes);
    lemma_route_carried(b, long, bytes);
    if grammar::at(b, c.pos) != Some(grammar::RBRACE) && grammar::tenants_from(b, c, previous) is Ok {
        let r = if c.inv.control_tenants > 0 {
            grammar::byte(b, Ok(c), grammar::COMMA)
        } else {
            Ok(c)
        };
        let (c1, t) = grammar::string(b, r)->Ok_0;
        let r = grammar::byte(
            b,
            grammar::count(Ok(c1), grammar::Counter::ObjectEntries),
            grammar::COLON,
        );
        let r = grammar::count(r, grammar::Counter::ControlTenants);
        let r = grammar::at_most(
            r,
            grammar::Counter::ControlTenants,
            grammar::MAX_CONTROL_TENANTS,
            "too many Control tenants"@,
        );
        let c2 = grammar::route(b, r)->Ok_0;
        lemma_tenants_from(b, long, bytes, c2, Some(t.decoded));
    }
}

proof fn lemma_tenants_carried(b: Seq<u8>, long: Seq<u8>, bytes: u64)
    requires
        begins(long, b),
    ensures
        forall|c: Cursor|
            0 <= c.pos <= b.len() ==> carried(
                b.len(),
                bytes,
                c.pos,
                #[trigger] grammar::tenants_at(b, c),
                grammar::tenants_at(long, moved(c, bytes)),
            ),
{
    assert forall|c: Cursor| 0 <= c.pos <= b.len() implies carried(
        b.len(),
        bytes,
        c.pos,
        #[trigger] grammar::tenants_at(b, c),
        grammar::tenants_at(long, moved(c, bytes)),
    ) by {
        reveal(grammar::tenants_at);
        let r = grammar::opening(b, Ok(c), grammar::LBRACE, 6);
        if r is Ok {
            lemma_tenants_from(b, long, bytes, r->Ok_0, None);
        }
    }
}

proof fn lemma_topology_carried(b: Seq<u8>, long: Seq<u8>, bytes: u64)
    requires
        begins(long, b),
    ensures
        forall|c: Cursor|
            0 <= c.pos <= b.len() ==> carried(
                b.len(),
                bytes,
                c.pos,
                #[trigger] grammar::topology_at(b, c),
                grammar::topology_at(long, moved(c, bytes)),
            ),
{
    lemma_field_carried(b, long, bytes);
    lemma_nodes_carried(b, long, bytes);
    lemma_tenants_carried(b, long, bytes);
    assert forall|c: Cursor| 0 <= c.pos <= b.len() implies carried(
        b.len(),
        bytes,
        c.pos,
        #[trigger] grammar::topology_at(b, c),
        grammar::topology_at(long, moved(c, bytes)),
    ) by {
        reveal(grammar::topology_at);
    }
}

proof fn lemma_number_fields(
    b: Seq<u8>,
    long: Seq<u8>,
    bytes: u64,
    from: int,
    r: Step,
    moved_r: Step,
    keys: Seq<&str>,
    i: int,
)
    requires
        begins(long, b),
        0 <= from,
        carried(b.len(), bytes, from, r, moved_r),
    ensures
        carried(
            b.len(),
            bytes,
            from,
            grammar::number_fields(b, r, keys, i),
            grammar::number_fields(long, moved_r, keys, i),
        ),
    decreases keys.len() - i,
{
    if 0 <= i < keys.len() {
        lemma_field_carried(b, long, bytes);
        lemma_numbers(b, long, bytes);
        let one = grammar::number_field(b, r, keys[i]@);
        let moved_one = grammar::number_field(long, moved_r, keys[i]@);
        assert(carried(b.len(), bytes, from, one, moved_one)) by {
            if one is Ok {
                assert(grammar::field(b, r, keys[i]@) is Ok);
                assert(r is Ok);
            }
        }
        let (next, moved_next) = if i + 1 != keys.len() {
            (
                grammar::byte(b, one, grammar::COMMA),
                grammar::byte(long, moved_one, grammar::COMMA),
            )
        } else {
            (one, moved_one)
        };
        lemma_number_fields(b, long, bytes, from, next, moved_next, keys, i + 1);
    }
}

proof fn lemma_number_list_carried(b: Seq<u8>, long: Seq<u8>, bytes: u64)
    requires
        begins(long, b),
    ensures
        forall|c: Cursor, keys: Seq<&str>|
            0 <= c.pos <= b.len() ==> carried(
                b.len(),
                bytes,
                c.pos,
                #[trigger] grammar::number_list_at(b, c, keys),
                grammar::number_list_at(long, moved(c, bytes), keys),
            ),
{
    assert forall|c: Cursor, keys: Seq<&str>| 0 <= c.pos <= b.len() implies carried(
        b.len(),
        bytes,
        c.pos,
        #[trigger] grammar::number_list_at(b, c, keys),
        grammar::number_list_at(long, moved(c, bytes), keys),
    ) by {
        reveal(grammar::number_list_at);
        lemma_number_fields(b, long, bytes, c.pos, Ok(c), Ok(moved(c, bytes)), keys, 0);
    }
}

proof fn lemma_number_object_carried(b: Seq<u8>, long: Seq<u8>, bytes: u64)
    requires
        begins(long, b),
    ensures
        forall|c: Cursor, depth: usize, keys: Seq<&str>|
            0 <= c.pos <= b.len() ==> carried(
                b.len(),
                bytes,
                c.pos,
                #[trigger] grammar::number_object_at(b, c, depth, keys),
                grammar::number_object_at(long, moved(c, bytes), depth, keys),
            ),
{
    lemma_number_list_carried(b, long, bytes);
    assert forall|c: Cursor, depth: usize, keys: Seq<&str>| 0 <= c.pos <= b.len() implies carried(
        b.len(),
        bytes,
        c.pos,
        #[trigger] grammar::number_object_at(b, c, depth, keys),
        grammar::number_object_at(long, moved(c, bytes), depth, keys),
    ) by {
        reveal(grammar::number_object_at);
    }
}

proof fn lemma_partition_carried(b: Seq<u8>, long: Seq<u8>, bytes: u64)
    requires
        begins(long, b),
    ensures
        forall|c: Cursor|
            0 <= c.pos <= b.len() ==> carried(
                b.len(),
                bytes,
                c.pos,
                #[trigger] grammar::partition_at(b, c),
                grammar::partition_at(long, moved(c, bytes)),
            ),
{
    lemma_strings(b, long, bytes);
    lemma_field_carried(b, long, bytes);
    lemma_numbers(b, long, bytes);
    assert forall|c: Cursor| 0 <= c.pos <= b.len() implies carried(
        b.len(),
        bytes,
        c.pos,
        #[trigger] grammar::partition_at(b, c),
        grammar::partition_at(long, moved(c, bytes)),
    ) by {
        reveal(grammar::partition_at);
    }
}

proof fn lemma_partitions_from(b: Seq<u8>, long: Seq<u8>, bytes: u64, c: Cursor, previous: Option<Seq<u8>>)
    requires
        begins(long, b),
        0 <= c.pos <= b.len(),
    ensures
        carried(
            b.len(),
            bytes,
            c.pos,
            grammar::partitions_from(b, c, previous),
            grammar::partitions_from(long, moved(c, bytes), previous),
        ),
    decreases b.len() - c.pos,
{
    lemma_strings(b, long, bytes);
    lemma_partition_carried(b, long, bytes);
    if grammar::at(b, c.pos) != Some(grammar::RBRACE) && grammar::partitions_from(b, c, previous) is Ok {
        let r = if c.inv.lifecycle_partitions > 0 {
            grammar::byte(b, Ok(c), grammar::COMMA)
        } else {
            Ok(c)
        };
        let (c1, t) = grammar::string(b, r)->Ok_0;
        let r = grammar::byte(
            b,
            grammar::count(Ok(c1), grammar::Counter::ObjectEntries),
            grammar::COLON,
        );
        let r = grammar::count(r, grammar::Counter::LifecyclePartitions);
        let r = grammar::at_most(
            r,
            grammar::Counter::LifecyclePartitions,
            grammar::MAX_CONTROL_PARTITIONS,
            "too many lifecycle partitions"@,
        );
        let c2 = grammar::partition(b, r)->Ok_0;
        lemma_partitions_from(b, long, bytes, c2, Some(t.decoded));
    }
}

proof fn lemma_partitions_carried(b: Seq<u8>, long: Seq<u8>, bytes: u64)
    requires
        begins(long, b),
    ensures
        forall|c: Cursor|
            0 <= c.pos <= b.len() ==> carried(
                b.len(),
                bytes,
                c.pos,
                #[trigger] grammar::partitions_at(b, c),
                grammar::partitions_at(long, moved(c, bytes)),
            ),
{
    assert forall|c: Cursor| 0 <= c.pos <= b.len() implies carried(
        b.len(),
        bytes,
        c.pos,
        #[trigger] grammar::partitions_at(b, c),
        grammar::partitions_at(long, moved(c, bytes)),
    ) by {
        reveal(grammar::partitions_at);
        let r = grammar::opening(b, Ok(c), grammar::LBRACE, 7);
        if r is Ok {
            lemma_partitions_from(b, long, bytes, r->Ok_0, None);
        }
    }
}

proof fn lemma_installation_carried(b: Seq<u8>, long: Seq<u8>, bytes: u64)
    requires
        begins(long, b),
    ensures
        forall|c: Cursor|
            0 <= c.pos <= b.len() ==> carried(
                b.len(),
                bytes,
                c.pos,
                #[trigger] grammar::installation_at(b, c),
                grammar::installation_at(long, moved(c, bytes)),
            ),
{
    lemma_strings(b, long, bytes);
    lemma_field_carried(b, long, bytes);
    lemma_numbers(b, long, bytes);
    lemma_partitions_carried(b, long, bytes);
    lemma_number_list_carried(b, long, bytes);
    assert forall|c: Cursor| 0 <= c.pos <= b.len() implies carried(
        b.len(),
        bytes,
        c.pos,
        #[trigger] grammar::installation_at(b, c),
        grammar::installation_at(long, moved(c, bytes)),
    ) by {
        reveal(grammar::installation_at);
    }
}

proof fn lemma_lifecycle_carried(b: Seq<u8>, long: Seq<u8>, bytes: u64)
    requires
        begins(long, b),
    ensures
        forall|c: Cursor|
            0 <= c.pos <= b.len() ==> carried(
                b.len(),
                bytes,
                c.pos,
                #[trigger] grammar::lifecycle_at(b, c),
                grammar::lifecycle_at(long, moved(c, bytes)),
            ),
{
    lemma_strings(b, long, bytes);
    lemma_field_carried(b, long, bytes);
    lemma_installation_carried(b, long, bytes);
    assert forall|c: Cursor| 0 <= c.pos <= b.len() implies carried(
        b.len(),
        bytes,
        c.pos,
        #[trigger] grammar::lifecycle_at(b, c),
        grammar::lifecycle_at(long, moved(c, bytes)),
    ) by {
        reveal(grammar::lifecycle_at);
    }
}

proof fn lemma_control_carried(b: Seq<u8>, long: Seq<u8>, bytes: u64)
    requires
        begins(long, b),
    ensures
        forall|c: Cursor|
            0 <= c.pos <= b.len() ==> carried(
                b.len(),
                bytes,
                c.pos,
                #[trigger] grammar::control_at(b, c),
                grammar::control_at(long, moved(c, bytes)),
            ),
{
    lemma_field_carried(b, long, bytes);
    lemma_topology_carried(b, long, bytes);
    lemma_lifecycle_carried(b, long, bytes);
    assert forall|c: Cursor| 0 <= c.pos <= b.len() implies carried(
        b.len(),
        bytes,
        c.pos,
        #[trigger] grammar::control_at(b, c),
        grammar::control_at(long, moved(c, bytes)),
    ) by {
        reveal(grammar::control_at);
    }
}

proof fn lemma_genesis_carried(b: Seq<u8>, long: Seq<u8>, bytes: u64)
    requires
        begins(long, b),
    ensures
        forall|c: Cursor|
            0 <= c.pos <= b.len() ==> carried(
                b.len(),
                bytes,
                c.pos,
                #[trigger] grammar::genesis_at(b, c),
                grammar::genesis_at(long, moved(c, bytes)),
            ),
{
    lemma_strings(b, long, bytes);
    lemma_field_carried(b, long, bytes);
    lemma_control_carried(b, long, bytes);
    assert forall|c: Cursor| 0 <= c.pos <= b.len() implies carried(
        b.len(),
        bytes,
        c.pos,
        #[trigger] grammar::genesis_at(b, c),
        grammar::genesis_at(long, moved(c, bytes)),
    ) by {
        reveal(grammar::genesis_at);
    }
}

proof fn lemma_actions_from(b: Seq<u8>, long: Seq<u8>, bytes: u64, c: Cursor, last: int, count_so_far: int)
    requires
        begins(long, b),
        0 <= c.pos <= b.len(),
    ensures
        carried(
            b.len(),
            bytes,
            c.pos,
            grammar::actions_from(b, c, last, count_so_far),
            grammar::actions_from(long, moved(c, bytes), last, count_so_far),
        ),
    decreases b.len() - c.pos,
{
    lemma_strings(b, long, bytes);
    if grammar::at(b, c.pos) != Some(grammar::RBRACKET) && grammar::actions_from(b, c, last, count_so_far) is Ok {
        let r = if count_so_far > 0 {
            grammar::byte(b, Ok(c), grammar::COMMA)
        } else {
            Ok(c)
        };
        let (c1, t) = grammar::string(b, r)->Ok_0;
        let rank = grammar::action_rank(t)->0;
        let c2 = grammar::count(Ok(c1), grammar::Counter::ArrayEntries)->Ok_0;
        lemma_actions_from(b, long, bytes, c2, rank, count_so_far + 1);
    }
}

proof fn lemma_actions_carried(b: Seq<u8>, long: Seq<u8>, bytes: u64)
    requires
        begins(long, b),
    ensures
        forall|c: Cursor|
            0 <= c.pos <= b.len() ==> carried(
                b.len(),
                bytes,
                c.pos,
                #[trigger] grammar::actions_at(b, c),
                grammar::actions_at(long, moved(c, bytes)),
            ),
{
    assert forall|c: Cursor| 0 <= c.pos <= b.len() implies carried(
        b.len(),
        bytes,
        c.pos,
        #[trigger] grammar::actions_at(b, c),
        grammar::actions_at(long, moved(c, bytes)),
    ) by {
        reveal(grammar::actions_at);
        let r = grammar::opening(b, Ok(c), grammar::LBRACKET, 6);
        if r is Ok {
            lemma_actions_from(b, long, bytes, r->Ok_0, -1, 0);
        }
    }
}

proof fn lemma_grant_carried(b: Seq<u8>, long: Seq<u8>, bytes: u64)
    requires
        begins(long, b),
    ensures
        forall|c: Cursor|
            0 <= c.pos <= b.len() ==> carried(
                b.len(),
                bytes,
                c.pos,
                #[trigger] grammar::grant_at(b, c),
                grammar::grant_at(long, moved(c, bytes)),
            ),
{
    lemma_strings(b, long, bytes);
    lemma_field_carried(b, long, bytes);
    lemma_nullables(b, long, bytes);
    lemma_actions_carried(b, long, bytes);
    assert forall|c: Cursor| 0 <= c.pos <= b.len() implies carried(
        b.len(),
        bytes,
        c.pos,
        #[trigger] grammar::grant_at(b, c),
        grammar::grant_at(long, moved(c, bytes)),
    ) by {
        reveal(grammar::grant_at);
    }
}

proof fn lemma_grants_from(b: Seq<u8>, long: Seq<u8>, bytes: u64, c: Cursor)
    requires
        begins(long, b),
        0 <= c.pos <= b.len(),
    ensures
        carried(
            b.len(),
            bytes,
            c.pos,
            grammar::grants_from(b, c),
            grammar::grants_from(long, moved(c, bytes)),
        ),
    decreases b.len() - c.pos,
{
    lemma_grant_carried(b, long, bytes);
    if grammar::at(b, c.pos) != Some(grammar::RBRACKET) && grammar::grants_from(b, c) is Ok {
        let r = if c.inv.grants > 0 {
            grammar::byte(b, Ok(c), grammar::COMMA)
        } else {
            Ok(c)
        };
        let r = grammar::count(
            grammar::count(r, grammar::Counter::Grants),
            grammar::Counter::ArrayEntries,
        );
        let c2 = grammar::grant(b, r)->Ok_0;
        lemma_grants_from(b, long, bytes, c2);
    }
}

proof fn lemma_grants_carried(b: Seq<u8>, long: Seq<u8>, bytes: u64)
    requires
        begins(long, b),
    ensures
        forall|c: Cursor|
            0 <= c.pos <= b.len() ==> carried(
                b.len(),
                bytes,
                c.pos,
                #[trigger] grammar::grants_at(b, c),
                grammar::grants_at(long, moved(c, bytes)),
            ),
{
    assert forall|c: Cursor| 0 <= c.pos <= b.len() implies carried(
        b.len(),
        bytes,
        c.pos,
        #[trigger] grammar::grants_at(b, c),
        grammar::grants_at(long, moved(c, bytes)),
    ) by {
        reveal(grammar::grants_at);
        let r = grammar::opening(b, Ok(c), grammar::LBRACKET, 4);
        if r is Ok {
            lemma_grants_from(b, long, bytes, r->Ok_0);
        }
    }
}

proof fn lemma_policy_carried(b: Seq<u8>, long: Seq<u8>, bytes: u64)
    requires
        begins(long, b),
    ensures
        forall|c: Cursor|
            0 <= c.pos <= b.len() ==> carried(
                b.len(),
                bytes,
                c.pos,
                #[trigger] grammar::policy_at(b, c),
                grammar::policy_at(long, moved(c, bytes)),
            ),
{
    lemma_field_carried(b, long, bytes);
    lemma_grants_carried(b, long, bytes);
    lemma_booleans(b, long, bytes);
    assert forall|c: Cursor| 0 <= c.pos <= b.len() implies carried(
        b.len(),
        bytes,
        c.pos,
        #[trigger] grammar::policy_at(b, c),
        grammar::policy_at(long, moved(c, bytes)),
    ) by {
        reveal(grammar::policy_at);
    }
}

proof fn lemma_limits_head_carried(b: Seq<u8>, long: Seq<u8>, bytes: u64)
    requires
        begins(long, b),
    ensures
        forall|c: Cursor|
            0 <= c.pos <= b.len() ==> carried(
                b.len(),
                bytes,
                c.pos,
                #[trigger] grammar::limits_head_at(b, c),
                grammar::limits_head_at(long, moved(c, bytes)),
            ),
{
    lemma_field_carried(b, long, bytes);
    lemma_number_object_carried(b, long, bytes);
    lemma_number_list_carried(b, long, bytes);
    assert forall|c: Cursor| 0 <= c.pos <= b.len() implies carried(
        b.len(),
        bytes,
        c.pos,
        #[trigger] grammar::limits_head_at(b, c),
        grammar::limits_head_at(long, moved(c, bytes)),
    ) by {
        reveal(grammar::limits_head_at);
    }
}

proof fn lemma_limits_tail_carried(b: Seq<u8>, long: Seq<u8>, bytes: u64)
    requires
        begins(long, b),
    ensures
        forall|c: Cursor|
            0 <= c.pos <= b.len() ==> carried(
                b.len(),
                bytes,
                c.pos,
                #[trigger] grammar::limits_tail_at(b, c),
                grammar::limits_tail_at(long, moved(c, bytes)),
            ),
{
    lemma_field_carried(b, long, bytes);
    lemma_number_object_carried(b, long, bytes);
    lemma_number_list_carried(b, long, bytes);
    assert forall|c: Cursor| 0 <= c.pos <= b.len() implies carried(
        b.len(),
        bytes,
        c.pos,
        #[trigger] grammar::limits_tail_at(b, c),
        grammar::limits_tail_at(long, moved(c, bytes)),
    ) by {
        reveal(grammar::limits_tail_at);
    }
}

proof fn lemma_limits_carried(b: Seq<u8>, long: Seq<u8>, bytes: u64)
    requires
        begins(long, b),
    ensures
        forall|c: Cursor|
            0 <= c.pos <= b.len() ==> carried_with(
                b.len(),
                bytes,
                c.pos,
                #[trigger] grammar::limits_at(b, c),
                grammar::limits_at(long, moved(c, bytes)),
            ),
{
    lemma_limits_head_carried(b, long, bytes);
    lemma_numbers(b, long, bytes);
    lemma_limits_tail_carried(b, long, bytes);
    assert forall|c: Cursor| 0 <= c.pos <= b.len() implies carried_with(
        b.len(),
        bytes,
        c.pos,
        #[trigger] grammar::limits_at(b, c),
        grammar::limits_at(long, moved(c, bytes)),
    ) by {
        reveal(grammar::limits_at);
    }
}

proof fn lemma_voter_carried(b: Seq<u8>, long: Seq<u8>, bytes: u64)
    requires
        begins(long, b),
    ensures
        forall|c: Cursor|
            0 <= c.pos <= b.len() ==> carried(
                b.len(),
                bytes,
                c.pos,
                #[trigger] grammar::voter_at(b, c),
                grammar::voter_at(long, moved(c, bytes)),
            ),
{
    lemma_strings(b, long, bytes);
    lemma_field_carried(b, long, bytes);
    assert forall|c: Cursor| 0 <= c.pos <= b.len() implies carried(
        b.len(),
        bytes,
        c.pos,
        #[trigger] grammar::voter_at(b, c),
        grammar::voter_at(long, moved(c, bytes)),
    ) by {
        reveal(grammar::voter_at);
    }
}

proof fn lemma_voters_from(b: Seq<u8>, long: Seq<u8>, bytes: u64, c: Cursor, previous: u64)
    requires
        begins(long, b),
        0 <= c.pos <= b.len(),
    ensures
        carried(
            b.len(),
            bytes,
            c.pos,
            grammar::voters_from(b, c, previous),
            grammar::voters_from(long, moved(c, bytes), previous),
        ),
    decreases b.len() - c.pos,
{
    lemma_numeric_key_carried(b, long, bytes);
    lemma_voter_carried(b, long, bytes);
    if grammar::at(b, c.pos) != Some(grammar::RBRACE) && grammar::voters_from(b, c, previous) is Ok {
        let r = if c.inv.voters > 0 {
            grammar::byte(b, Ok(c), grammar::COMMA)
        } else {
            Ok(c)
        };
        let (c1, key) = grammar::numeric_key(b, r, previous)->Ok_0;
        let r = grammar::count(Ok(c1), grammar::Counter::Voters);
        let r = grammar::at_most(
            r,
            grammar::Counter::Voters,
            3,
            "more than three initial voters"@,
        );
        let c2 = grammar::voter(b, r)->Ok_0;
        lemma_voters_from(b, long, bytes, c2, key);
    }
}

proof fn lemma_voters_carried(b: Seq<u8>, long: Seq<u8>, bytes: u64)
    requires
        begins(long, b),
    ensures
        forall|c: Cursor|
            0 <= c.pos <= b.len() ==> carried(
                b.len(),
                bytes,
                c.pos,
                #[trigger] grammar::voters_at(b, c),
                grammar::voters_at(long, moved(c, bytes)),
            ),
{
    assert forall|c: Cursor| 0 <= c.pos <= b.len() implies carried(
        b.len(),
        bytes,
        c.pos,
        #[trigger] grammar::voters_at(b, c),
        grammar::voters_at(long, moved(c, bytes)),
    ) by {
        reveal(grammar::voters_at);
        let r = grammar::opening(b, Ok(c), grammar::LBRACE, 3);
        if r is Ok {
            lemma_voters_from(b, long, bytes, r->Ok_0, 0);
        }
    }
}

proof fn lemma_bootstrap_head_carried(b: Seq<u8>, long: Seq<u8>, bytes: u64)
    requires
        begins(long, b),
    ensures
        forall|c: Cursor|
            0 <= c.pos <= b.len() ==> carried(
                b.len(),
                bytes,
                c.pos,
                #[trigger] grammar::bootstrap_head_at(b, c),
                grammar::bootstrap_head_at(long, moved(c, bytes)),
            ),
{
    lemma_strings(b, long, bytes);
    lemma_field_carried(b, long, bytes);
    lemma_genesis_carried(b, long, bytes);
    lemma_policy_carried(b, long, bytes);
    assert forall|c: Cursor| 0 <= c.pos <= b.len() implies carried(
        b.len(),
        bytes,
        c.pos,
        #[trigger] grammar::bootstrap_head_at(b, c),
        grammar::bootstrap_head_at(long, moved(c, bytes)),
    ) by {
        reveal(grammar::bootstrap_head_at);
    }
}

proof fn lemma_bootstrap_carried(b: Seq<u8>, long: Seq<u8>, bytes: u64)
    requires
        begins(long, b),
    ensures
        forall|c: Cursor|
            0 <= c.pos <= b.len() ==> carried(
                b.len(),
                bytes,
                c.pos,
                #[trigger] grammar::bootstrap_at(b, c),
                grammar::bootstrap_at(long, moved(c, bytes)),
            ),
{
    lemma_bootstrap_head_carried(b, long, bytes);
    lemma_limits_carried(b, long, bytes);
    lemma_field_carried(b, long, bytes);
    lemma_voters_carried(b, long, bytes);
    assert forall|c: Cursor| 0 <= c.pos <= b.len() implies carried(
        b.len(),
        bytes,
        c.pos,
        #[trigger] grammar::bootstrap_at(b, c),
        grammar::bootstrap_at(long, moved(c, bytes)),
    ) by {
        reveal(grammar::bootstrap_at);
    }
}

/// An accepted deployment with more bytes behind it is refused for them.
pub proof fn lemma_trailing_bytes_refused(b: Seq<u8>, long: Seq<u8>, max_bytes: nat, bound: nat)
    requires
        grammar::inspection(b, max_bytes) is Ok,
        begins(long, b),
        b.len() < long.len() <= bound,
        vstd::utf8::valid_utf8(long),
    ensures
        grammar::inspection(long, bound) == Err::<Inventory, Seq<char>>("trailing deployment bytes"@),
{
    let bytes = long.len() as u64;
    lemma_literal_string_carried(b, long, bytes);
    lemma_bootstrap_carried(b, long, bytes);
    let c = Cursor { pos: 0, inv: grammar::fresh(b) };
    assert(moved(c, bytes) == (Cursor { pos: 0, inv: grammar::fresh(long) }));
    assert(grammar::deployment(long) == Ok::<Cursor, Seq<char>>(moved(grammar::deployment(b)->Ok_0, bytes)));
}

/// Nothing shorter than an accepted deployment is accepted in its place: every strict
/// beginning of it is refused, whatever its bound.
pub proof fn lemma_beginning_refused(b: Seq<u8>, n: int, max_bytes: nat, bound: nat)
    requires
        grammar::inspection(b, max_bytes) is Ok,
        0 <= n < b.len(),
    ensures
        grammar::inspection(b.take(n), bound) is Err,
{
    if grammar::inspection(b.take(n), bound) is Ok {
        lemma_trailing_bytes_refused(b.take(n), b, bound, max_bytes);
    }
}

/// A deployment that fits a bound gives the same inventory under every larger one.
pub proof fn lemma_larger_bound(b: Seq<u8>, max_bytes: nat, bound: nat)
    requires
        grammar::inspection(b, max_bytes) is Ok,
        max_bytes <= bound,
    ensures
        grammar::inspection(b, bound) == grammar::inspection(b, max_bytes),
{
}

} // verus!
