//! What heap data is charged: the sum of what its parts are, whatever was charged before
//! it, up to the budget and not beyond.
use vstd::arithmetic::power2::{lemma_pow2_unfold, pow2};
use vstd::prelude::*;

use crate::errors::Error;
use crate::heap_accounting;
use crate::heap_accounting::{
    Entry, HeapArchive, HeapCollection, HeapDocument, HeapGrant, HeapMetadata, HeapReference,
    HeapSizes, Value,
};

verus! {

/// What a value holds on the heap: nothing inline, a number twice its text and a slack, a
/// text its capacity, and a list or an object its slots and all that is in them.
pub open spec fn weight(value: Value, sizes: HeapSizes) -> int
    decreases value,
{
    match value {
        Value::Inline => 0,
        Value::Number { encoded_bytes } => 2 * encoded_bytes + 64,
        Value::Text { capacity } => capacity as int,
        Value::List { capacity, items } => capacity * sizes.value + weights(
            items@,
            items@.len() as int,
            sizes,
        ),
        Value::Object { entries } => 1024 * entries@.len() + entry_weights(
            entries@,
            entries@.len() as int,
            sizes,
        ),
    }
}

/// What the first `n` values hold.
pub open spec fn weights(items: Seq<Value>, n: int, sizes: HeapSizes) -> int
    decreases items, n,
{
    if n <= 0 || n > items.len() {
        0
    } else {
        weights(items, n - 1, sizes) + weight(items[n - 1], sizes)
    }
}

/// What the first `n` entries hold, with their keys.
pub open spec fn entry_weights(entries: Seq<Entry>, n: int, sizes: HeapSizes) -> int
    decreases entries, n,
{
    if n <= 0 || n > entries.len() {
        0
    } else {
        entry_weights(entries, n - 1, sizes) + entries[n - 1].key_capacity + weight(
            entries[n - 1].value,
            sizes,
        )
    }
}

/// Whether the charge is the total and the weight, where the budget has room for both, and
/// is refused where it has not.
pub open spec fn charges(r: Result<u64, Error>, total: u64, weight: int, budget: u64) -> bool {
    &&& weight >= 0
    &&& r is Ok <==> total + weight <= budget
    &&& r is Ok ==> r->Ok_0 == total + weight
    &&& r is Err ==> r->Err_0 == heap_accounting::exhausted()
}

/// A value is charged its weight, whatever was charged before.
pub proof fn lemma_value_charged(value: Value, sizes: HeapSizes, total: u64, budget: u64)
    requires
        total <= budget < u64::MAX,
        entries_counted(value),
    ensures
        charges(
            heap_accounting::value_total(value, sizes, total, budget),
            total,
            weight(value, sizes),
            budget,
        ),
    decreases value,
{
    match value {
        Value::List { capacity, items } => {
            let slots = capacity * sizes.value;
            assert(slots >= 0) by (nonlinear_arith)
                requires
                    slots == capacity * sizes.value,
                    capacity >= 0,
                    sizes.value >= 0,
            ;
            lemma_weights_positive(items@, items@.len() as int, sizes);
            if total + slots <= budget {
                lemma_items_charged(
                    items@,
                    items@.len() as int,
                    sizes,
                    (total + slots) as u64,
                    budget,
                );
            }
        },
        Value::Object { entries } => {
            let slots = 1024 * entries@.len();
            lemma_entries_positive(entries@, entries@.len() as int, sizes);
            if total + slots <= budget {
                lemma_entries_charged(
                    entries@,
                    entries@.len() as int,
                    sizes,
                    (total + slots) as u64,
                    budget,
                );
            }
        },
        _ => {},
    }
}

/// Whether every object's entries can be counted, which holds of any that is in memory.
pub open spec fn entries_counted(value: Value) -> bool
    decreases value,
{
    match value {
        Value::List { capacity, items } => items_counted(items@, items@.len() as int),
        Value::Object { entries } => entries@.len() <= u64::MAX && all_counted(
            entries@,
            entries@.len() as int,
        ),
        _ => true,
    }
}

pub open spec fn items_counted(items: Seq<Value>, n: int) -> bool
    decreases items, n,
{
    if n <= 0 || n > items.len() {
        true
    } else {
        items_counted(items, n - 1) && entries_counted(items[n - 1])
    }
}

pub open spec fn all_counted(entries: Seq<Entry>, n: int) -> bool
    decreases entries, n,
{
    if n <= 0 || n > entries.len() {
        true
    } else {
        all_counted(entries, n - 1) && entries_counted(entries[n - 1].value)
    }
}

proof fn lemma_positive(value: Value, sizes: HeapSizes)
    ensures
        weight(value, sizes) >= 0,
    decreases value,
{
    match value {
        Value::List { capacity, items } => {
            lemma_weights_positive(items@, items@.len() as int, sizes);
            let slots = capacity * sizes.value;
            assert(slots >= 0) by (nonlinear_arith)
                requires
                    slots == capacity * sizes.value,
                    capacity >= 0,
                    sizes.value >= 0,
            ;
        },
        Value::Object { entries } => {
            lemma_entries_positive(entries@, entries@.len() as int, sizes);
        },
        _ => {},
    }
}

proof fn lemma_weights_positive(items: Seq<Value>, n: int, sizes: HeapSizes)
    ensures
        weights(items, n, sizes) >= 0,
    decreases items, n,
{
    if 0 < n <= items.len() {
        lemma_weights_positive(items, n - 1, sizes);
        lemma_positive(items[n - 1], sizes);
    }
}

proof fn lemma_entries_positive(entries: Seq<Entry>, n: int, sizes: HeapSizes)
    ensures
        entry_weights(entries, n, sizes) >= 0,
    decreases entries, n,
{
    if 0 < n <= entries.len() {
        lemma_entries_positive(entries, n - 1, sizes);
        lemma_positive(entries[n - 1].value, sizes);
    }
}

proof fn lemma_items_charged(items: Seq<Value>, n: int, sizes: HeapSizes, total: u64, budget: u64)
    requires
        total <= budget < u64::MAX,
        items_counted(items, n),
    ensures
        charges(
            heap_accounting::items_total(items, n, sizes, total, budget),
            total,
            weights(items, n, sizes),
            budget,
        ),
    decreases items, n,
{
    if 0 < n <= items.len() {
        lemma_items_charged(items, n - 1, sizes, total, budget);
        lemma_positive(items[n - 1], sizes);
        if let Ok(sum) = heap_accounting::items_total(items, n - 1, sizes, total, budget) {
            lemma_value_charged(items[n - 1], sizes, sum, budget);
        }
    }
}

proof fn lemma_entries_charged(
    entries: Seq<Entry>,
    n: int,
    sizes: HeapSizes,
    total: u64,
    budget: u64,
)
    requires
        total <= budget < u64::MAX,
        all_counted(entries, n),
    ensures
        charges(
            heap_accounting::entries_total(entries, n, sizes, total, budget),
            total,
            entry_weights(entries, n, sizes),
            budget,
        ),
    decreases entries, n,
{
    if 0 < n <= entries.len() {
        lemma_entries_charged(entries, n - 1, sizes, total, budget);
        lemma_positive(entries[n - 1].value, sizes);
        if let Ok(sum) = heap_accounting::entries_total(entries, n - 1, sizes, total, budget) {
            let keyed = sum + entries[n - 1].key_capacity;
            if keyed <= budget {
                lemma_value_charged(entries[n - 1].value, sizes, keyed as u64, budget);
            }
        }
    }
}

/// A document is charged a fixed part, its identity and its body.
pub proof fn lemma_document_charged(document: HeapDocument, sizes: HeapSizes, budget: u64)
    requires
        budget < u64::MAX,
        entries_counted(document.body),
    ensures
        charges(
            heap_accounting::document_total(document, sizes, budget),
            0,
            128 + document.id_capacity + weight(document.body, sizes),
            budget,
        ),
{
    lemma_positive(document.body, sizes);
    let first = 128 + document.id_capacity;
    if first <= budget {
        lemma_value_charged(document.body, sizes, first as u64, budget);
    }
}

/// What the first `n` capacities come to.
pub open spec fn capacities(of: Seq<u64>, n: int) -> int
    decreases n,
{
    if n <= 0 {
        0
    } else {
        capacities(of, n - 1) + of[n - 1]
    }
}

proof fn lemma_capacities(of: Seq<u64>, i: int, start: int, total: u64, budget: u64)
    requires
        0 <= i <= of.len(),
        total <= budget,
        total == start + capacities(of, i),
        start >= 0,
    ensures
        capacities(of, i) <= capacities(of, of.len() as int),
        ({
            let r = heap_accounting::capacities_total(of, i, total, budget);
            let all = start + capacities(of, of.len() as int);
            &&& r is Ok <==> all <= budget
            &&& r is Ok ==> r->Ok_0 == all
            &&& r is Err ==> r->Err_0 == heap_accounting::exhausted()
        }),
    decreases of.len() - i,
{
    if i < of.len() {
        assert(capacities(of, i + 1) == capacities(of, i) + of[i]);
        lemma_capacities_grow(of, i + 1, of.len() as int);
        if total + of[i] <= budget {
            lemma_capacities(of, i + 1, start, (total + of[i]) as u64, budget);
        }
    }
}

proof fn lemma_capacities_grow(of: Seq<u64>, m: int, n: int)
    requires
        0 <= m <= n,
    ensures
        0 <= capacities(of, m) <= capacities(of, n),
    decreases n,
{
    if m < n {
        lemma_capacities_grow(of, m, n - 1);
    } else if n > 0 {
        lemma_capacities_grow(of, n - 1, n - 1);
    }
}

/// An archive is charged itself and a fixed part, its texts, the slots of its chunks and
/// their texts.
pub proof fn lemma_archive_charged(archive: HeapArchive, sizes: HeapSizes, budget: u64)
    requires
        budget < u64::MAX,
        sizes.archive + 128 <= budget,
    ensures
        charges(
            heap_accounting::archive_total(archive, sizes, budget),
            0,
            sizes.archive + 128 + capacities(archive.texts@, archive.texts@.len() as int)
                + archive.chunk_slots * sizes.chunk + capacities(
                archive.chunk_texts@,
                archive.chunk_texts@.len() as int,
            ),
            budget,
        ),
{
    let first = sizes.archive + 128;
    let texts = archive.texts@;
    let chunks = archive.chunk_texts@;
    let slots = archive.chunk_slots * sizes.chunk;
    assert(slots >= 0) by (nonlinear_arith)
        requires
            slots == archive.chunk_slots * sizes.chunk,
            archive.chunk_slots >= 0,
            sizes.chunk >= 0,
    ;
    lemma_capacities_grow(texts, 0, texts.len() as int);
    lemma_capacities_grow(chunks, 0, chunks.len() as int);
    lemma_capacities(texts, 0, first, first as u64, budget);
    let named = first + capacities(texts, texts.len() as int);
    if named <= budget && named + slots <= budget {
        lemma_capacities(chunks, 0, named + slots, (named + slots) as u64, budget);
    }
}

/// What the first `n` fields of a reference hold, each with a slot.
pub open spec fn field_weights(fields: Seq<Entry>, n: int, sizes: HeapSizes) -> int
    decreases n,
{
    if n <= 0 {
        0
    } else {
        field_weights(fields, n - 1, sizes) + 1024 + fields[n - 1].key_capacity + weight(
            fields[n - 1].value,
            sizes,
        )
    }
}

proof fn lemma_fields_charged(fields: Seq<Entry>, n: int, sizes: HeapSizes, total: u64, budget: u64)
    requires
        0 <= n <= fields.len(),
        total <= budget < u64::MAX,
        all_counted(fields, n),
    ensures
        charges(
            heap_accounting::fields_total(fields, n, sizes, total, budget),
            total,
            field_weights(fields, n, sizes),
            budget,
        ),
    decreases n,
{
    if n > 0 {
        lemma_fields_charged(fields, n - 1, sizes, total, budget);
        lemma_positive(fields[n - 1].value, sizes);
        if let Ok(sum) = heap_accounting::fields_total(fields, n - 1, sizes, total, budget) {
            let keyed = sum + 1024 + fields[n - 1].key_capacity;
            if keyed <= budget {
                lemma_value_charged(fields[n - 1].value, sizes, keyed as u64, budget);
            }
        }
    }
}

/// A reference is charged a fixed part, its names and its fields.
pub proof fn lemma_reference_charged(reference: HeapReference, sizes: HeapSizes, budget: u64)
    requires
        budget < u64::MAX,
        all_counted(reference.fields@, reference.fields@.len() as int),
    ensures
        charges(
            heap_accounting::reference_total(reference, sizes, budget),
            0,
            256 + reference.archive_id_capacity + reference.sha256_capacity + field_weights(
                reference.fields@,
                reference.fields@.len() as int,
                sizes,
            ),
            budget,
        ),
{
    let fields = reference.fields@;
    let first = 256 + reference.archive_id_capacity + reference.sha256_capacity;
    lemma_fields_charged(fields, fields.len() as int, sizes, 0, 0);
    if first <= budget {
        lemma_fields_charged(fields, fields.len() as int, sizes, first as u64, budget);
    }
}

/// What the first `n` grants of a policy hold.
pub open spec fn grant_weights(grants: Seq<HeapGrant>, n: int) -> int
    decreases n,
{
    if n <= 0 {
        0
    } else {
        grant_weights(grants, n - 1) + 256 + grants[n - 1].principal_bytes + grants[n
            - 1].collection_bytes + 128 * grants[n - 1].actions
    }
}

proof fn lemma_grants_grow(grants: Seq<HeapGrant>, m: int, n: int)
    requires
        0 <= m <= n,
    ensures
        0 <= grant_weights(grants, m) <= grant_weights(grants, n),
    decreases n,
{
    if m < n {
        lemma_grants_grow(grants, m, n - 1);
    } else if n > 0 {
        lemma_grants_grow(grants, n - 1, n - 1);
    }
}

/// The grants of a policy are charged what each of them holds.
pub proof fn lemma_grants_charged(grants: Seq<HeapGrant>, i: int, total: u64, budget: u64)
    requires
        0 <= i <= grants.len(),
        total <= budget < u64::MAX,
    ensures
        charges(
            heap_accounting::grants_total(grants, i, total, budget),
            total,
            grant_weights(grants, grants.len() as int) - grant_weights(grants, i),
            budget,
        ),
    decreases grants.len() - i,
{
    lemma_grants_grow(grants, i, grants.len() as int);
    if i < grants.len() {
        lemma_grants_grow(grants, i + 1, grants.len() as int);
        let one = 256 + grants[i].principal_bytes + grants[i].collection_bytes + 128
            * grants[i].actions;
        assert(grant_weights(grants, i + 1) == grant_weights(grants, i) + one);
        if total + one <= budget {
            lemma_grants_charged(grants, i + 1, (total + one) as u64, budget);
        }
    }
}

/// What the first `n` definitions hold.
pub open spec fn definition_weights(
    collections: Seq<HeapCollection>,
    sizes: HeapSizes,
    n: int,
) -> int
    decreases n,
{
    if n <= 0 {
        0
    } else {
        definition_weights(collections, sizes, n - 1) + 1024 + 4 * collections[n - 1].name_bytes
            + weight(collections[n - 1].schema, sizes) + 32 * collections[n - 1].indexes_bytes
    }
}

proof fn lemma_definitions_grow(collections: Seq<HeapCollection>, sizes: HeapSizes, m: int, n: int)
    requires
        0 <= m <= n,
    ensures
        0 <= definition_weights(collections, sizes, m) <= definition_weights(collections, sizes, n),
    decreases n,
{
    if m < n {
        lemma_definitions_grow(collections, sizes, m, n - 1);
        lemma_positive(collections[n - 1].schema, sizes);
    } else if n > 0 {
        lemma_definitions_grow(collections, sizes, n - 1, n - 1);
        lemma_positive(collections[n - 1].schema, sizes);
    }
}

/// The definitions of collections are charged what each of them holds: its name four times,
/// its schema, and thirty-two times its indexes.
pub proof fn lemma_definitions_charged(
    collections: Seq<HeapCollection>,
    sizes: HeapSizes,
    i: int,
    total: u64,
    budget: u64,
)
    requires
        0 <= i <= collections.len(),
        total <= budget < u64::MAX,
        forall|k: int|
            0 <= k < collections.len() ==> entries_counted((#[trigger] collections[k]).schema),
    ensures
        charges(
            heap_accounting::definitions_total(collections, sizes, i, total, budget),
            total,
            definition_weights(collections, sizes, collections.len() as int) - definition_weights(
                collections,
                sizes,
                i,
            ),
            budget,
        ),
    decreases collections.len() - i,
{
    lemma_definitions_grow(collections, sizes, i, collections.len() as int);
    if i < collections.len() {
        let c = collections[i];
        lemma_definitions_grow(collections, sizes, i + 1, collections.len() as int);
        lemma_positive(c.schema, sizes);
        let front = 1024 + 4 * c.name_bytes;
        let schema = weight(c.schema, sizes);
        let one = front + schema + 32 * c.indexes_bytes;
        assert(definition_weights(collections, sizes, i + 1) == definition_weights(
            collections,
            sizes,
            i,
        ) + one);
        if total + front <= budget {
            lemma_value_charged(c.schema, sizes, (total + front) as u64, budget);
        }
        if total + one <= budget {
            lemma_definitions_charged(collections, sizes, i + 1, (total + one) as u64, budget);
        }
    }
}

proof fn lemma_halved(n: int)
    requires
        n >= 1,
    ensures
        heap_accounting::halvings(n) >= 0,
        pow2(heap_accounting::halvings(n) as nat) <= n,
        n < pow2((heap_accounting::halvings(n) + 1) as nat),
    decreases n,
{
    vstd::arithmetic::power2::lemma2_to64();
    if n > 1 {
        lemma_halved(n / 2);
        let h = heap_accounting::halvings(n / 2);
        lemma_pow2_unfold((h + 1) as nat);
        lemma_pow2_unfold((h + 2) as nat);
    }
}

/// The copied paths of a tree are charged for as many nodes as the touches can have copied,
/// each of them as deep as a balanced tree of so many entries, but never for more nodes than
/// there are entries; and nothing is charged where nothing was touched.
pub proof fn lemma_paths_charged(entries: u64, touches: u64)
    requires
        entries <= 1099511627776,
        touches <= 1099511627776,
    ensures
        ({
            let charged = heap_accounting::path_total(entries, touches);
            &&& entries == 0 || touches == 0 ==> charged == 0
            &&& charged <= entries * 8192
            &&& entries > 0 ==> {
                let depth = heap_accounting::halvings(entries as int);
                &&& 0 <= depth
                &&& pow2(depth as nat) <= entries < pow2((depth + 1) as nat)
                &&& charged <= touches * (depth + 1) * 8192
                &&& charged == entries * 8192 || charged == touches * (depth + 1) * 8192
            }
        }),
{
    if entries > 0 {
        lemma_halved(entries as int);
        let depth = heap_accounting::halvings(entries as int);
        lemma_shallow(entries as int);
        let paths = touches * (depth + 1);
        assert(0 <= paths <= touches * 41) by (nonlinear_arith)
            requires
                paths == touches * (depth + 1),
                0 <= depth <= 40,
                touches >= 0,
        ;
    }
}

proof fn lemma_shallow(n: int)
    requires
        1 <= n <= 1099511627776,
    ensures
        heap_accounting::halvings(n) <= 40,
{
    lemma_halved(n);
    vstd::arithmetic::power2::lemma2_to64();
    vstd::arithmetic::power2::lemma_pow2_adds(32, 8);
    assert(pow2(40) == 1099511627776);
    let h = heap_accounting::halvings(n);
    if h > 40 {
        vstd::arithmetic::power2::lemma_pow2_strictly_increases(40, h as nat);
    }
}

} // verus!
