//! Conservative resident charges of retained values. Counts allocated payloads
//! without serialization or another body buffer.
use vstd::prelude::*;

use crate::errors;
use crate::errors::{error, Error, ErrorCode};

verus! {

/// A value of a document's body, as it is allocated.
pub enum Value {
    /// Null, or a truth value: nothing is allocated.
    Inline,
    /// A number, which is encoded in so many bytes.
    Number { encoded_bytes: u64 },
    Text { capacity: u64 },
    List { capacity: u64, items: Vec<Value> },
    Object { entries: Vec<Entry> },
}

/// A key of an object, and the value under it.
pub struct Entry {
    pub key_capacity: u64,
    pub value: Value,
}

/// What a document's identity and body are allocated as.
pub struct HeapDocument {
    pub id_capacity: u64,
    pub body: Value,
}

/// What a reference to an archived document is allocated as.
pub struct HeapReference {
    pub archive_id_capacity: u64,
    pub sha256_capacity: u64,
    pub fields: Vec<Entry>,
}

/// What an archive's manifest is allocated as: each of its texts, the slots of its
/// chunks, and each text of each chunk.
pub struct HeapArchive {
    pub texts: Vec<u64>,
    pub chunk_slots: u64,
    pub chunk_texts: Vec<u64>,
}

/// How many bytes the records themselves take on this machine.
#[derive(Clone, Copy, Debug)]
pub struct HeapSizes {
    pub value: u64,
    pub archive: u64,
    pub chunk: u64,
    pub roots: u64,
}

pub open spec fn exhausted() -> Error {
    errors::refusal(
        ErrorCode::ResourceExhausted,
        "snapshot lease retention budget exhausted",
    )
}

pub fn quota() -> (e: Error)
    ensures
        e == exhausted(),
{
    error(ErrorCode::ResourceExhausted, "snapshot lease retention budget exhausted")
}

pub open spec fn plus(a: u64, b: u64) -> u64 {
    if a + b > u64::MAX {
        u64::MAX
    } else {
        (a + b) as u64
    }
}

pub open spec fn times(a: u64, b: u64) -> u64 {
    if a * b > u64::MAX {
        u64::MAX
    } else {
        (a * b) as u64
    }
}

pub fn saturating_times(a: u64, b: u64) -> (product: u64)
    ensures
        product == times(a, b),
{
    match a.checked_mul(b) {
        None => u64::MAX,
        Some(product) => product,
    }
}

/// The total with `n` more, within the budget.
pub open spec fn added(total: u64, n: u64, budget: u64) -> Result<u64, Error> {
    if total + n > budget {
        Err(exhausted())
    } else {
        Ok((total + n) as u64)
    }
}

pub fn charge(total: u64, n: u64, budget: u64) -> (r: Result<u64, Error>)
    ensures
        r == added(total, n, budget),
{
    match total.checked_add(n) {
        None => Err(quota()),
        Some(sum) => if sum <= budget {
            Ok(sum)
        } else {
            Err(quota())
        },
    }
}

/// The total with a value's allocations.
pub open spec fn value_total(value: Value, sizes: HeapSizes, total: u64, budget: u64) -> Result<u64, Error>
    decreases value,
{
    match value {
        Value::Inline => Ok(total),
        Value::Number { encoded_bytes } => added(total, plus(times(encoded_bytes, 2), 64), budget),
        Value::Text { capacity } => added(total, capacity, budget),
        Value::List { capacity, items } => match added(
            total,
            times(capacity, sizes.value),
            budget,
        ) {
            Err(e) => Err(e),
            Ok(total) => items_total(items@, items@.len() as int, sizes, total, budget),
        },
        Value::Object { entries } => match added(
            total,
            times(entries@.len() as u64, 1024),
            budget,
        ) {
            Err(e) => Err(e),
            Ok(total) => entries_total(entries@, entries@.len() as int, sizes, total, budget),
        },
    }
}

/// The total with the first `n` items.
pub open spec fn items_total(items: Seq<Value>, n: int, sizes: HeapSizes, total: u64, budget: u64) -> Result<
    u64,
    Error,
>
    decreases items, n,
{
    if n <= 0 || n > items.len() {
        Ok(total)
    } else {
        match items_total(items, n - 1, sizes, total, budget) {
            Err(e) => Err(e),
            Ok(total) => value_total(items[n - 1], sizes, total, budget),
        }
    }
}

/// The total with the first `n` entries.
pub open spec fn entries_total(
    entries: Seq<Entry>,
    n: int,
    sizes: HeapSizes,
    total: u64,
    budget: u64,
) -> Result<u64, Error>
    decreases entries, n,
{
    if n <= 0 || n > entries.len() {
        Ok(total)
    } else {
        match entries_total(entries, n - 1, sizes, total, budget) {
            Err(e) => Err(e),
            Ok(total) => match added(total, entries[n - 1].key_capacity, budget) {
                Err(e) => Err(e),
                Ok(total) => value_total(entries[n - 1].value, sizes, total, budget),
            },
        }
    }
}

proof fn lemma_items_refused(items: Seq<Value>, n: int, sizes: HeapSizes, total: u64, budget: u64)
    requires
        0 <= n <= items.len(),
        items_total(items, n, sizes, total, budget) is Err,
    ensures
        items_total(items, items.len() as int, sizes, total, budget) == items_total(
            items,
            n,
            sizes,
            total,
            budget,
        ),
    decreases items.len() - n,
{
    if n < items.len() {
        lemma_items_refused(items, n + 1, sizes, total, budget);
    }
}

proof fn lemma_entries_refused(
    entries: Seq<Entry>,
    n: int,
    sizes: HeapSizes,
    total: u64,
    budget: u64,
)
    requires
        0 <= n <= entries.len(),
        entries_total(entries, n, sizes, total, budget) is Err,
    ensures
        entries_total(entries, entries.len() as int, sizes, total, budget) == entries_total(
            entries,
            n,
            sizes,
            total,
            budget,
        ),
    decreases entries.len() - n,
{
    if n < entries.len() {
        lemma_entries_refused(entries, n + 1, sizes, total, budget);
    }
}

/// The total with a value's allocations, within the budget.
pub fn value_heap(value: &Value, sizes: &HeapSizes, total: u64, budget: u64) -> (r: Result<u64, Error>)
    ensures
        r == value_total(*value, *sizes, total, budget),
    decreases value,
{
    match value {
        Value::Inline => Ok(total),
        Value::Number { encoded_bytes } => charge(
            total,
            saturating_times(*encoded_bytes, 2).saturating_add(64),
            budget,
        ),
        Value::Text { capacity } => charge(total, *capacity, budget),
        Value::List { capacity, items } => {
            let first: u64 = charge(total, saturating_times(*capacity, sizes.value), budget)?;
            let mut sum: u64 = first;
            let mut i: usize = 0;
            while i < items.len()
                invariant
                    i <= items.len(),
                    *value == (Value::List { capacity: *capacity, items: *items }),
                    items_total(items@, i as int, *sizes, first, budget) == Ok::<u64, Error>(sum),
                    value_total(*value, *sizes, total, budget) == items_total(
                        items@,
                        items@.len() as int,
                        *sizes,
                        first,
                        budget,
                    ),
                decreases items.len() - i,
            {
                let item = &items[i];
                match value_heap(item, sizes, sum, budget) {
                    Ok(next) => {
                        sum = next;
                    },
                    Err(e) => {
                        proof {
                            lemma_items_refused(items@, i + 1, *sizes, first, budget);
                        }
                        return Err(e);
                    },
                }
                i = i + 1;
            }
            Ok(sum)
        },
        Value::Object { entries } => {
            let first: u64 = charge(total, saturating_times(entries.len() as u64, 1024), budget)?;
            let mut sum: u64 = first;
            let mut i: usize = 0;
            while i < entries.len()
                invariant
                    i <= entries.len(),
                    *value == (Value::Object { entries: *entries }),
                    entries_total(entries@, i as int, *sizes, first, budget) == Ok::<u64, Error>(
                        sum,
                    ),
                    value_total(*value, *sizes, total, budget) == entries_total(
                        entries@,
                        entries@.len() as int,
                        *sizes,
                        first,
                        budget,
                    ),
                decreases entries.len() - i,
            {
                let entry = &entries[i];
                let keyed: u64 = match charge(sum, entry.key_capacity, budget) {
                    Ok(next) => next,
                    Err(e) => {
                        proof {
                            lemma_entries_refused(entries@, i + 1, *sizes, first, budget);
                        }
                        return Err(e);
                    },
                };
                match value_heap(&entry.value, sizes, keyed, budget) {
                    Ok(next) => {
                        sum = next;
                    },
                    Err(e) => {
                        proof {
                            lemma_entries_refused(entries@, i + 1, *sizes, first, budget);
                        }
                        return Err(e);
                    },
                }
                i = i + 1;
            }
            Ok(sum)
        },
    }
}

pub open spec fn document_total(document: HeapDocument, sizes: HeapSizes, budget: u64) -> Result<u64, Error> {
    match added(128, document.id_capacity, budget) {
        Err(e) => Err(e),
        Ok(total) => value_total(document.body, sizes, total, budget),
    }
}

/// What retaining a document costs, within the budget.
pub fn document_heap(document: &HeapDocument, sizes: &HeapSizes, budget: u64) -> (r: Result<u64, Error>)
    ensures
        r == document_total(*document, *sizes, budget),
{
    let total: u64 = charge(128, document.id_capacity, budget)?;
    value_heap(&document.body, sizes, total, budget)
}

/// Conservative resident charge for retaining one immutable document across
/// asynchronous work. Callers reserve this amount before they share the document.
pub fn retained_document_bytes(document: &HeapDocument, sizes: &HeapSizes) -> (r: Result<u64, Error>)
    ensures
        r == document_total(*document, *sizes, u64::MAX),
{
    document_heap(document, sizes, u64::MAX)
}

/// The total with the first `n` indexed fields of a reference.
pub open spec fn fields_total(
    fields: Seq<Entry>,
    n: int,
    sizes: HeapSizes,
    total: u64,
    budget: u64,
) -> Result<u64, Error>
    decreases n,
{
    if n <= 0 {
        Ok(total)
    } else {
        match fields_total(fields, n - 1, sizes, total, budget) {
            Err(e) => Err(e),
            Ok(total) => match added(total, plus(1024, fields[n - 1].key_capacity), budget) {
                Err(e) => Err(e),
                Ok(total) => value_total(fields[n - 1].value, sizes, total, budget),
            },
        }
    }
}

proof fn lemma_fields_refused(fields: Seq<Entry>, n: int, sizes: HeapSizes, total: u64, budget: u64)
    requires
        0 <= n <= fields.len(),
        fields_total(fields, n, sizes, total, budget) is Err,
    ensures
        fields_total(fields, fields.len() as int, sizes, total, budget) == fields_total(
            fields,
            n,
            sizes,
            total,
            budget,
        ),
    decreases fields.len() - n,
{
    if n < fields.len() {
        lemma_fields_refused(fields, n + 1, sizes, total, budget);
    }
}

pub open spec fn reference_total(reference: HeapReference, sizes: HeapSizes, budget: u64) -> Result<
    u64,
    Error,
> {
    match added(
        256,
        plus(reference.archive_id_capacity, reference.sha256_capacity),
        budget,
    ) {
        Err(e) => Err(e),
        Ok(total) => fields_total(
            reference.fields@,
            reference.fields@.len() as int,
            sizes,
            total,
            budget,
        ),
    }
}

/// What retaining a reference to an archived document costs, within the budget.
pub fn archive_reference_heap(reference: &HeapReference, sizes: &HeapSizes, budget: u64) -> (r: Result<
    u64,
    Error,
>)
    ensures
        r == reference_total(*reference, *sizes, budget),
{
    let first: u64 = charge(
        256,
        reference.archive_id_capacity.saturating_add(reference.sha256_capacity),
        budget,
    )?;
    let fields = &reference.fields;
    let mut sum: u64 = first;
    let mut i: usize = 0;
    while i < fields.len()
        invariant
            i <= fields.len(),
            fields_total(fields@, i as int, *sizes, first, budget) == Ok::<u64, Error>(sum),
            reference_total(*reference, *sizes, budget) == fields_total(
                fields@,
                fields@.len() as int,
                *sizes,
                first,
                budget,
            ),
        decreases fields.len() - i,
    {
        let field = &fields[i];
        let keyed: u64 = match charge(sum, 1024u64.saturating_add(field.key_capacity), budget) {
            Ok(next) => next,
            Err(e) => {
                proof {
                    lemma_fields_refused(fields@, i + 1, *sizes, first, budget);
                }
                return Err(e);
            },
        };
        match value_heap(&field.value, sizes, keyed, budget) {
            Ok(next) => {
                sum = next;
            },
            Err(e) => {
                proof {
                    lemma_fields_refused(fields@, i + 1, *sizes, first, budget);
                }
                return Err(e);
            },
        }
        i = i + 1;
    }
    Ok(sum)
}

/// The total with the capacities from `i` on.
pub open spec fn capacities_total(capacities: Seq<u64>, i: int, total: u64, budget: u64) -> Result<u64, Error>
    decreases capacities.len() - i,
{
    if i < 0 || i >= capacities.len() {
        Ok(total)
    } else {
        match added(total, capacities[i], budget) {
            Err(e) => Err(e),
            Ok(total) => capacities_total(capacities, i + 1, total, budget),
        }
    }
}

fn capacities_heap(capacities: &Vec<u64>, total: u64, budget: u64) -> (r: Result<u64, Error>)
    ensures
        r == capacities_total(capacities@, 0, total, budget),
{
    let mut sum: u64 = total;
    let mut i: usize = 0;
    while i < capacities.len()
        invariant
            i <= capacities.len(),
            capacities_total(capacities@, 0, total, budget) == capacities_total(
                capacities@,
                i as int,
                sum,
                budget,
            ),
        decreases capacities.len() - i,
    {
        sum = charge(sum, capacities[i], budget)?;
        i = i + 1;
    }
    Ok(sum)
}

pub open spec fn archive_total(archive: HeapArchive, sizes: HeapSizes, budget: u64) -> Result<u64, Error> {
    match capacities_total(archive.texts@, 0, plus(sizes.archive, 128), budget) {
        Err(e) => Err(e),
        Ok(total) => match added(total, times(archive.chunk_slots, sizes.chunk), budget) {
            Err(e) => Err(e),
            Ok(total) => capacities_total(archive.chunk_texts@, 0, total, budget),
        },
    }
}

/// What retaining an archive's manifest costs, within the budget.
pub fn history_archive_heap(archive: &HeapArchive, sizes: &HeapSizes, budget: u64) -> (r: Result<
    u64,
    Error,
>)
    ensures
        r == archive_total(*archive, *sizes, budget),
{
    let total: u64 = capacities_heap(&archive.texts, sizes.archive.saturating_add(128), budget)?;
    let total: u64 = charge(total, saturating_times(archive.chunk_slots, sizes.chunk), budget)?;
    capacities_heap(&archive.chunk_texts, total, budget)
}

/// What one grant of a policy holds.
#[derive(Clone, Copy, Debug)]
pub struct HeapGrant {
    pub principal_bytes: u64,
    pub collection_bytes: u64,
    pub actions: u64,
}

/// What a collection's definition holds.
pub struct HeapCollection {
    pub name_bytes: u64,
    pub schema: Value,
    pub indexes_bytes: u64,
}

/// What a lease keeps of a tenant's state besides its documents: texts, grants, the
/// encoded sizes of its optional records, and definitions.
pub struct HeapMetadata {
    pub tenant_bytes: u64,
    pub incarnation_bytes: u64,
    pub grants: Vec<HeapGrant>,
    pub records: Vec<u64>,
    pub collections: Vec<HeapCollection>,
}

pub open spec fn grant_bytes(grant: HeapGrant) -> u64 {
    plus(
        plus(plus(256, grant.principal_bytes), grant.collection_bytes),
        times(grant.actions, 128),
    )
}

pub open spec fn grants_total(grants: Seq<HeapGrant>, i: int, total: u64, budget: u64) -> Result<u64, Error>
    decreases grants.len() - i,
{
    if i < 0 || i >= grants.len() {
        Ok(total)
    } else {
        match added(total, grant_bytes(grants[i]), budget) {
            Err(e) => Err(e),
            Ok(total) => grants_total(grants, i + 1, total, budget),
        }
    }
}

pub open spec fn records_total(records: Seq<u64>, i: int, total: u64, budget: u64) -> Result<u64, Error>
    decreases records.len() - i,
{
    if i < 0 || i >= records.len() {
        Ok(total)
    } else {
        match added(total, times(records[i], 32), budget) {
            Err(e) => Err(e),
            Ok(total) => records_total(records, i + 1, total, budget),
        }
    }
}

pub open spec fn definition_total(c: HeapCollection, sizes: HeapSizes, total: u64, budget: u64) -> Result<
    u64,
    Error,
> {
    match added(total, plus(1024, times(c.name_bytes, 4)), budget) {
        Err(e) => Err(e),
        Ok(total) => match value_total(c.schema, sizes, total, budget) {
            Err(e) => Err(e),
            Ok(total) => added(total, times(c.indexes_bytes, 32), budget),
        },
    }
}

pub open spec fn definitions_total(
    collections: Seq<HeapCollection>,
    sizes: HeapSizes,
    i: int,
    total: u64,
    budget: u64,
) -> Result<u64, Error>
    decreases collections.len() - i,
{
    if i < 0 || i >= collections.len() {
        Ok(total)
    } else {
        match definition_total(collections[i], sizes, total, budget) {
            Err(e) => Err(e),
            Ok(total) => definitions_total(collections, sizes, i + 1, total, budget),
        }
    }
}

pub open spec fn metadata_total(metadata: HeapMetadata, sizes: HeapSizes, budget: u64) -> Result<u64, Error> {
    match added(
        plus(sizes.roots, 4096),
        plus(metadata.tenant_bytes, metadata.incarnation_bytes),
        budget,
    ) {
        Err(e) => Err(e),
        Ok(total) => match grants_total(metadata.grants@, 0, total, budget) {
            Err(e) => Err(e),
            Ok(total) => match records_total(metadata.records@, 0, total, budget) {
                Err(e) => Err(e),
                Ok(total) => definitions_total(metadata.collections@, sizes, 0, total, budget),
            },
        },
    }
}

fn grants_heap(grants: &Vec<HeapGrant>, total: u64, budget: u64) -> (r: Result<u64, Error>)
    ensures
        r == grants_total(grants@, 0, total, budget),
{
    let mut sum: u64 = total;
    let mut i: usize = 0;
    while i < grants.len()
        invariant
            i <= grants.len(),
            grants_total(grants@, 0, total, budget) == grants_total(
                grants@,
                i as int,
                sum,
                budget,
            ),
        decreases grants.len() - i,
    {
        let bytes: u64 = 256u64.saturating_add(grants[i].principal_bytes).saturating_add(
            grants[i].collection_bytes,
        ).saturating_add(saturating_times(grants[i].actions, 128));
        sum = charge(sum, bytes, budget)?;
        i = i + 1;
    }
    Ok(sum)
}

fn records_heap(records: &Vec<u64>, total: u64, budget: u64) -> (r: Result<u64, Error>)
    ensures
        r == records_total(records@, 0, total, budget),
{
    let mut sum: u64 = total;
    let mut i: usize = 0;
    while i < records.len()
        invariant
            i <= records.len(),
            records_total(records@, 0, total, budget) == records_total(
                records@,
                i as int,
                sum,
                budget,
            ),
        decreases records.len() - i,
    {
        sum = charge(sum, saturating_times(records[i], 32), budget)?;
        i = i + 1;
    }
    Ok(sum)
}

fn definition_heap(collection: &HeapCollection, sizes: &HeapSizes, total: u64, budget: u64) -> (r:
    Result<u64, Error>)
    ensures
        r == definition_total(*collection, *sizes, total, budget),
{
    let named: u64 = charge(
        total,
        1024u64.saturating_add(saturating_times(collection.name_bytes, 4)),
        budget,
    )?;
    let schema: u64 = value_heap(&collection.schema, sizes, named, budget)?;
    charge(schema, saturating_times(collection.indexes_bytes, 32), budget)
}

fn definitions_heap(
    collections: &Vec<HeapCollection>,
    sizes: &HeapSizes,
    total: u64,
    budget: u64,
) -> (r: Result<u64, Error>)
    ensures
        r == definitions_total(collections@, *sizes, 0, total, budget),
{
    let mut sum: u64 = total;
    let mut i: usize = 0;
    while i < collections.len()
        invariant
            i <= collections.len(),
            definitions_total(collections@, *sizes, 0, total, budget) == definitions_total(
                collections@,
                *sizes,
                i as int,
                sum,
                budget,
            ),
        decreases collections.len() - i,
    {
        sum = definition_heap(&collections[i], sizes, sum, budget)?;
        i = i + 1;
    }
    Ok(sum)
}

/// What a lease keeps besides documents costs, within the budget.
pub fn metadata_bytes(metadata: &HeapMetadata, sizes: &HeapSizes, budget: u64) -> (r: Result<u64, Error>)
    ensures
        r == metadata_total(*metadata, *sizes, budget),
{
    let total: u64 = charge(
        sizes.roots.saturating_add(4096),
        metadata.tenant_bytes.saturating_add(metadata.incarnation_bytes),
        budget,
    )?;
    let granted: u64 = grants_heap(&metadata.grants, total, budget)?;
    let recorded: u64 = records_heap(&metadata.records, granted, budget)?;
    definitions_heap(&metadata.collections, sizes, recorded, budget)
}

/// How often a positive number can be halved.
pub open spec fn halvings(n: int) -> int
    decreases n,
{
    if n <= 1 {
        0
    } else {
        1 + halvings(n / 2)
    }
}

proof fn lemma_halvings(n: int)
    ensures
        0 <= halvings(n),
        n >= 1 ==> halvings(n) < n,
    decreases n,
{
    if n > 1 {
        lemma_halvings(n / 2);
    }
}

/// A tree node of an ordered map: at most sixteen keys and values and seventeen
/// child pointers, rounded upward.
pub const TREE_NODE_BYTES: u64 = 8192;

/// The bytes of the tree paths that so many touches copied, of a map of so many
/// entries: no more nodes than entries.
pub open spec fn path_total(entries: u64, touches: u64) -> u64 {
    if entries == 0 || touches == 0 {
        0
    } else {
        let paths = times(touches, (halvings(entries as int) + 1) as u64);
        times(
            if paths < entries {
                paths
            } else {
                entries
            },
            TREE_NODE_BYTES,
        )
    }
}

pub fn path_bytes(entries: u64, touches: u64) -> (bytes: u64)
    ensures
        bytes == path_total(entries, touches),
{
    if entries == 0 || touches == 0 {
        return 0;
    }
    let mut left: u64 = entries;
    let mut depth: u64 = 0;
    proof {
        lemma_halvings(entries as int);
    }
    while left > 1
        invariant
            left >= 1,
            depth + halvings(left as int) == halvings(entries as int),
            halvings(entries as int) < entries,
        decreases left,
    {
        proof {
            lemma_halvings((left / 2) as int);
        }
        left = left / 2;
        depth = depth + 1;
    }
    let paths: u64 = saturating_times(touches, depth + 1);
    let bounded: u64 = if paths < entries {
        paths
    } else {
        entries
    };
    saturating_times(bounded, TREE_NODE_BYTES)
}

/// The budget decides only whether a value is charged, never how much.
pub proof fn lemma_value_budget(value: Value, sizes: HeapSizes, total: u64, budget: u64)
    requires
        total <= budget,
    ensures
        value_total(value, sizes, total, budget) == match value_total(value, sizes, total, u64::MAX) {
            Err(e) => Err(e),
            Ok(sum) => if sum > budget {
                Err(exhausted())
            } else {
                Ok(sum)
            },
        },
        value_total(value, sizes, total, u64::MAX) is Ok ==> value_total(
            value,
            sizes,
            total,
            u64::MAX,
        )->Ok_0 >= total,
        value_total(value, sizes, total, u64::MAX) is Err ==> value_total(
            value,
            sizes,
            total,
            u64::MAX,
        )->Err_0 == exhausted(),
    decreases value,
{
    match value {
        Value::List { capacity, items } => {
            let slots = times(capacity, sizes.value);
            if total + slots <= u64::MAX {
                lemma_items_budget(
                    items@,
                    items@.len() as int,
                    sizes,
                    (total + slots) as u64,
                    budget,
                );
            }
        },
        Value::Object { entries } => {
            let slots = times(entries@.len() as u64, 1024);
            if total + slots <= u64::MAX {
                lemma_entries_budget(
                    entries@,
                    entries@.len() as int,
                    sizes,
                    (total + slots) as u64,
                    budget,
                );
            }
        },
        _ => {},
    }
}

proof fn lemma_items_budget(items: Seq<Value>, n: int, sizes: HeapSizes, total: u64, budget: u64)
    requires
        0 <= n <= items.len(),
    ensures
        total <= budget ==> items_total(items, n, sizes, total, budget) == match items_total(
            items,
            n,
            sizes,
            total,
            u64::MAX,
        ) {
            Err(e) => Err(e),
            Ok(sum) => if sum > budget {
                Err(exhausted())
            } else {
                Ok(sum)
            },
        },
        items_total(items, n, sizes, total, u64::MAX) is Ok ==> items_total(
            items,
            n,
            sizes,
            total,
            u64::MAX,
        )->Ok_0 >= total,
        items_total(items, n, sizes, total, u64::MAX) is Err ==> items_total(
            items,
            n,
            sizes,
            total,
            u64::MAX,
        )->Err_0 == exhausted(),
    decreases items, n,
{
    if n > 0 {
        lemma_items_budget(items, n - 1, sizes, total, budget);
        match items_total(items, n - 1, sizes, total, u64::MAX) {
            Ok(sum) => {
                lemma_value_budget(items[n - 1], sizes, sum, u64::MAX);
                if sum <= budget {
                    lemma_value_budget(items[n - 1], sizes, sum, budget);
                }
            },
            Err(_) => {},
        }
    }
}

proof fn lemma_entries_budget(
    entries: Seq<Entry>,
    n: int,
    sizes: HeapSizes,
    total: u64,
    budget: u64,
)
    requires
        0 <= n <= entries.len(),
    ensures
        total <= budget ==> entries_total(entries, n, sizes, total, budget) == match entries_total(
            entries,
            n,
            sizes,
            total,
            u64::MAX,
        ) {
            Err(e) => Err(e),
            Ok(sum) => if sum > budget {
                Err(exhausted())
            } else {
                Ok(sum)
            },
        },
        entries_total(entries, n, sizes, total, u64::MAX) is Ok ==> entries_total(
            entries,
            n,
            sizes,
            total,
            u64::MAX,
        )->Ok_0 >= total,
        entries_total(entries, n, sizes, total, u64::MAX) is Err ==> entries_total(
            entries,
            n,
            sizes,
            total,
            u64::MAX,
        )->Err_0 == exhausted(),
    decreases entries, n,
{
    if n > 0 {
        lemma_entries_budget(entries, n - 1, sizes, total, budget);
        match entries_total(entries, n - 1, sizes, total, u64::MAX) {
            Ok(sum) => {
                let key = entries[n - 1].key_capacity;
                if sum + key <= u64::MAX {
                    lemma_value_budget(entries[n - 1].value, sizes, (sum + key) as u64, u64::MAX);
                    if sum + key <= budget {
                        lemma_value_budget(entries[n - 1].value, sizes, (sum + key) as u64, budget);
                    }
                }
            },
            Err(_) => {},
        }
    }
}

/// A document is charged the same whatever the budget, or is refused for it.
pub proof fn lemma_document_budget(document: HeapDocument, sizes: HeapSizes, budget: u64)
    ensures
        document_total(document, sizes, budget) == match document_total(document, sizes, u64::MAX) {
            Err(e) => Err(e),
            Ok(sum) => if sum > budget {
                Err(exhausted())
            } else {
                Ok(sum)
            },
        },
{
    let first = 128 + document.id_capacity;
    if first <= u64::MAX {
        lemma_value_budget(document.body, sizes, first as u64, u64::MAX);
        if first <= budget {
            lemma_value_budget(document.body, sizes, first as u64, budget);
        }
    }
}

} // verus!
