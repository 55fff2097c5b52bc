//! One bounded receipt admission owns all deterministic mutation outcomes. An
//! admitted identity always selects one immutable row, written or refused; nothing
//! else adds any.
use vstd::prelude::*;

use crate::digest::{Digest, Name};
use crate::errors;
use crate::errors::{error, Error, ErrorCode};
use crate::mutation_receipt;
use crate::mutation_receipt::{
    framed_bytes, Applied, Ordinal, Outcome, OutcomeView, Receipt, ReceiptHead, ReceiptScope,
    ReceiptView, Row, RowContext, RowView, Version, VersionView, MAX_OPERATIONS,
};
use crate::receipt_chain;
use crate::receipt_chain::{
    get_charged, prepare, Pending, ReceiptState, Stored, StoredRow, Surroundings,
};
use crate::receipt_paths;
use crate::receipt_paths::document_path;
use crate::texts;
use crate::texts::{before, copy_text, same};

verus! {

/// A document that a batch mutates, and why its caller may not, if so.
pub struct Target {
    pub collection: Vec<u8>,
    pub id: Vec<u8>,
    pub write_refusal: Option<Error>,
}

pub struct TargetView {
    pub collection: Seq<u8>,
    pub id: Seq<u8>,
    pub write_refusal: Option<Error>,
}

impl View for Target {
    type V = TargetView;

    open spec fn view(&self) -> TargetView {
        TargetView {
            collection: self.collection@,
            id: self.id@,
            write_refusal: self.write_refusal,
        }
    }
}

pub open spec fn targets_view(targets: Seq<Target>) -> Seq<TargetView> {
    Seq::new(targets.len(), |i: int| targets[i]@)
}

/// A batch of mutations, and what refuses its caller besides its documents: the
/// admission of the command, the resource, the lifecycle guard, each of its read
/// assertions, the names of the caller and the key, and the names of its targets.
pub struct Batch {
    pub tenant: Name,
    pub principal: Name,
    pub idempotency_key: Name,
    pub request_digest: Digest,
    pub operations: Vec<Target>,
    pub admitted_refusal: Option<Error>,
    pub resource_refusal: Option<Error>,
    pub lifecycle_refusal: Option<Error>,
    pub caller_name_refusal: Option<Error>,
    pub target_name_refusal: Option<Error>,
    pub read_refusals: Vec<Option<Error>>,
}

pub struct BatchView {
    pub tenant: Name,
    pub principal: Name,
    pub idempotency_key: Name,
    pub request_digest: Digest,
    pub operations: Seq<TargetView>,
    pub admitted_refusal: Option<Error>,
    pub resource_refusal: Option<Error>,
    pub lifecycle_refusal: Option<Error>,
    pub caller_name_refusal: Option<Error>,
    pub target_name_refusal: Option<Error>,
    pub read_refusals: Seq<Option<Error>>,
}

impl View for Batch {
    type V = BatchView;

    open spec fn view(&self) -> BatchView {
        BatchView {
            tenant: self.tenant,
            principal: self.principal,
            idempotency_key: self.idempotency_key,
            request_digest: self.request_digest,
            operations: targets_view(self.operations@),
            admitted_refusal: self.admitted_refusal,
            resource_refusal: self.resource_refusal,
            lifecycle_refusal: self.lifecycle_refusal,
            caller_name_refusal: self.caller_name_refusal,
            target_name_refusal: self.target_name_refusal,
            read_refusals: self.read_refusals@,
        }
    }
}

// ---------------------------------------------------------------------
// Authorization
// ---------------------------------------------------------------------

pub open spec fn write_refusal(operations: Seq<TargetView>, i: int) -> Option<Error>
    decreases operations.len() - i,
{
    if i < 0 || i >= operations.len() {
        None
    } else if operations[i].write_refusal is Some {
        operations[i].write_refusal
    } else {
        write_refusal(operations, i + 1)
    }
}

pub open spec fn read_refusal(refusals: Seq<Option<Error>>, i: int) -> Option<Error>
    decreases refusals.len() - i,
{
    if i < 0 || i >= refusals.len() {
        None
    } else if refusals[i] is Some {
        refusals[i]
    } else {
        read_refusal(refusals, i + 1)
    }
}

/// Why the batch is refused before its identity is looked at, if so.
pub open spec fn batch_refusal(batch: BatchView, tenant: Name) -> Option<Error> {
    if batch.tenant != tenant {
        Some(errors::refusal(ErrorCode::Forbidden, "tenant access denied"))
    } else if batch.admitted_refusal is Some {
        batch.admitted_refusal
    } else if batch.resource_refusal is Some {
        batch.resource_refusal
    } else if batch.lifecycle_refusal is Some {
        batch.lifecycle_refusal
    } else if write_refusal(batch.operations, 0) is Some {
        write_refusal(batch.operations, 0)
    } else if read_refusal(batch.read_refusals, 0) is Some {
        read_refusal(batch.read_refusals, 0)
    } else if batch.caller_name_refusal is Some {
        batch.caller_name_refusal
    } else if batch.operations.len() == 0 || batch.operations.len() > MAX_OPERATIONS {
        Some(errors::refusal(ErrorCode::InvalidArgument, "invalid mutation operation count"))
    } else {
        batch.target_name_refusal
    }
}

fn first_write_refusal(operations: &Vec<Target>) -> (r: Option<Error>)
    ensures
        r == write_refusal(targets_view(operations@), 0),
{
    let ghost view = targets_view(operations@);
    let mut i: usize = 0;
    while i < operations.len()
        invariant
            i <= operations.len(),
            view == targets_view(operations@),
            write_refusal(view, 0) == write_refusal(view, i as int),
        decreases operations.len() - i,
    {
        assert(view[i as int] == operations@[i as int]@);
        if operations[i].write_refusal.is_some() {
            return operations[i].write_refusal;
        }
        i = i + 1;
    }
    None
}

fn first_read_refusal(refusals: &Vec<Option<Error>>) -> (r: Option<Error>)
    ensures
        r == read_refusal(refusals@, 0),
{
    let mut i: usize = 0;
    while i < refusals.len()
        invariant
            i <= refusals.len(),
            read_refusal(refusals@, 0) == read_refusal(refusals@, i as int),
        decreases refusals.len() - i,
    {
        if refusals[i].is_some() {
            return refusals[i];
        }
        i = i + 1;
    }
    None
}

/// Why a batch is refused before its identity is looked at, if so.
pub fn refuse_batch(batch: &Batch, tenant: Name) -> (r: Option<Error>)
    ensures
        r == batch_refusal(batch@, tenant),
{
    if batch.tenant != tenant {
        return Some(error(ErrorCode::Forbidden, "tenant access denied"));
    }
    if batch.admitted_refusal.is_some() {
        return batch.admitted_refusal;
    }
    if batch.resource_refusal.is_some() {
        return batch.resource_refusal;
    }
    if batch.lifecycle_refusal.is_some() {
        return batch.lifecycle_refusal;
    }
    let write = first_write_refusal(&batch.operations);
    if write.is_some() {
        return write;
    }
    let read = first_read_refusal(&batch.read_refusals);
    if read.is_some() {
        return read;
    }
    if batch.caller_name_refusal.is_some() {
        return batch.caller_name_refusal;
    }
    assert(batch@.operations.len() == batch.operations.len());
    if batch.operations.len() == 0 || batch.operations.len() as u64 > MAX_OPERATIONS {
        return Some(error(ErrorCode::InvalidArgument, "invalid mutation operation count"));
    }
    batch.target_name_refusal
}

// ---------------------------------------------------------------------
// The receipt
// ---------------------------------------------------------------------

/// The names with one more, in its place and once.
pub open spec fn with_name(names: Seq<Seq<u8>>, name: Seq<u8>) -> Seq<Seq<u8>>
    decreases names.len(),
{
    if names.len() == 0 {
        seq![name]
    } else if names[0] == name {
        names
    } else if texts::less(name, names[0]) {
        seq![name] + names
    } else {
        seq![names[0]] + with_name(names.drop_first(), name)
    }
}

/// The collections of the first `n` operations, in order and each once.
pub open spec fn collections_of(operations: Seq<TargetView>, n: int) -> Seq<Seq<u8>>
    decreases n,
{
    if n <= 0 {
        Seq::empty()
    } else {
        with_name(collections_of(operations, n - 1), operations[n - 1].collection)
    }
}

/// The versions that the operations leave behind.
pub open spec fn versions_of(operations: Seq<TargetView>, revision: u64) -> Seq<VersionView> {
    Seq::new(
        operations.len(),
        |i: int|
            VersionView {
                path: receipt_paths::path_of(operations[i].collection, operations[i].id),
                version: revision,
            },
    )
}

proof fn lemma_with_name(names: Seq<Seq<u8>>, name: Seq<u8>, i: int)
    requires
        0 <= i <= names.len(),
        forall|j: int|
            0 <= j < i ==> #[trigger] names[j] != name && !texts::less(name, names[j]),
        i < names.len() ==> names[i] == name || texts::less(name, names[i]),
    ensures
        with_name(names, name) == if i < names.len() && names[i] == name {
            names
        } else {
            names.insert(i, name)
        },
    decreases names.len(),
{
    if names.len() == 0 {
        assert(names.insert(i, name) =~= seq![name]);
    } else if i == 0 {
        if names[0] != name {
            assert(names.insert(0, name) =~= seq![name] + names);
        }
    } else {
        let rest = names.drop_first();
        assert(names[0] != name);
        assert forall|j: int| 0 <= j < i - 1 implies #[trigger] rest[j] != name && !texts::less(
            name,
            rest[j],
        ) by {
            assert(rest[j] == names[j + 1]);
        }
        lemma_with_name(rest, name, i - 1);
        if i < names.len() && names[i] == name {
            assert(seq![names[0]] + rest =~= names);
        } else {
            assert(names.insert(i, name) =~= seq![names[0]] + rest.insert(i - 1, name));
        }
    }
}

fn add_name(names: &mut Vec<Vec<u8>>, name: &Vec<u8>)
    ensures
        mutation_receipt::names_view(final(names)@) == with_name(
            mutation_receipt::names_view(old(names)@),
            name@,
        ),
{
    let ghost view = mutation_receipt::names_view(names@);
    let mut i: usize = 0;
    while i < names.len() && !same(&names[i], name) && !before(name, &names[i])
        invariant
            i <= names.len(),
            names@ == old(names)@,
            view == mutation_receipt::names_view(names@),
            forall|j: int|
                0 <= j < i ==> #[trigger] view[j] != name@ && !texts::less(name@, view[j]),
        decreases names.len() - i,
    {
        i = i + 1;
    }
    proof {
        if i < names.len() {
            assert(view[i as int] == names@[i as int]@);
        }
        lemma_with_name(view, name@, i as int);
    }
    if i < names.len() && same(&names[i], name) {
        return;
    }
    names.insert(i, copy_text(name));
    assert(mutation_receipt::names_view(names@) =~= view.insert(i as int, name@));
}

fn collections(operations: &Vec<Target>) -> (names: Vec<Vec<u8>>)
    ensures
        mutation_receipt::names_view(names@) == collections_of(
            targets_view(operations@),
            operations@.len() as int,
        ),
{
    let ghost view = targets_view(operations@);
    let mut names: Vec<Vec<u8>> = Vec::new();
    let mut i: usize = 0;
    assert(mutation_receipt::names_view(names@) =~= Seq::empty());
    while i < operations.len()
        invariant
            i <= operations.len(),
            view == targets_view(operations@),
            mutation_receipt::names_view(names@) == collections_of(view, i as int),
        decreases operations.len() - i,
    {
        assert(view[i as int] == operations@[i as int]@);
        add_name(&mut names, &operations[i].collection);
        i = i + 1;
    }
    names
}

fn versions(operations: &Vec<Target>, revision: u64) -> (versions: Vec<Version>)
    ensures
        mutation_receipt::versions_view(versions@) == versions_of(
            targets_view(operations@),
            revision,
        ),
{
    let ghost view = targets_view(operations@);
    let mut versions: Vec<Version> = Vec::new();
    let mut i: usize = 0;
    while i < operations.len()
        invariant
            i <= operations.len(),
            versions.len() == i,
            view == targets_view(operations@),
            forall|j: int|
                0 <= j < i ==> (#[trigger] versions@[j])@ == (VersionView {
                    path: receipt_paths::path_of(view[j].collection, view[j].id),
                    version: revision,
                }),
        decreases operations.len() - i,
    {
        versions.push(
            Version {
                path: document_path(&operations[i].collection, &operations[i].id),
                version: revision,
            },
        );
        i = i + 1;
    }
    assert(mutation_receipt::versions_view(versions@) =~= versions_of(view, revision));
    versions
}

/// The receipt of a batch with an outcome.
pub open spec fn receipt_of(batch: BatchView, incarnation: u128, revision: u64, outcome: OutcomeView) -> ReceiptView {
    ReceiptView {
        scope: ReceiptScope { tenant: batch.tenant, incarnation, principal: batch.principal },
        idempotency_key: batch.idempotency_key,
        recorded_revision: revision,
        request_digest: batch.request_digest,
        collections: collections_of(batch.operations, batch.operations.len() as int),
        outcome,
    }
}

/// What an applied batch leaves behind.
pub open spec fn written(batch: BatchView, revision: u64) -> OutcomeView {
    OutcomeView::Written { revision, versions: versions_of(batch.operations, revision) }
}

/// What a refused batch leaves behind.
pub open spec fn refused(refusal: Error) -> OutcomeView {
    OutcomeView::Refused {
        code: refusal.code,
        message: vstd::utf8::encode_utf8(refusal.message@),
    }
}

fn refusal_of(refusal: Error) -> (outcome: Outcome)
    ensures
        outcome@ == refused(refusal),
{
    let mut message: Vec<u8> = Vec::new();
    message.extend_from_slice(refusal.message.as_bytes());
    assert(message@ =~= vstd::utf8::encode_utf8(refusal.message@));
    Outcome::Refused { code: refusal.code, message }
}

fn receipt(batch: &Batch, incarnation: u128, revision: u64, outcome: Outcome) -> (r: Receipt)
    ensures
        r@ == receipt_of(batch@, incarnation, revision, outcome@),
{
    Receipt {
        scope: ReceiptScope { tenant: batch.tenant, incarnation, principal: batch.principal },
        idempotency_key: batch.idempotency_key,
        recorded_revision: revision,
        request_digest: batch.request_digest,
        collections: collections(&batch.operations),
        outcome,
    }
}

// ---------------------------------------------------------------------
// The permit
// ---------------------------------------------------------------------

/// What the record of a batch's receipt is encoded in: the bytes around the code and the
/// message of a refusal, the most bytes that a message has before it is escaped, and the
/// bytes of the record where the batch is written.
#[derive(Clone, Copy, Debug)]
pub struct RecordSizes {
    pub refusal_frame: u64,
    pub max_message_bytes: u32,
    pub written: u64,
}

/// How many bytes a code is written in.
pub open spec fn code_bytes(code: ErrorCode) -> nat {
    match code {
        ErrorCode::InvalidArgument => 16,
        ErrorCode::Unauthorized => 12,
        ErrorCode::Forbidden => 9,
        ErrorCode::NotFound => 9,
        ErrorCode::AlreadyExists => 14,
        ErrorCode::Conflict => 8,
        ErrorCode::SchemaViolation => 16,
        ErrorCode::QuotaExceeded => 14,
        ErrorCode::ResourceExhausted => 18,
        ErrorCode::IndexRequired => 14,
        ErrorCode::CursorExpired => 14,
        ErrorCode::Unavailable => 11,
        ErrorCode::UnknownOutcome => 15,
        ErrorCode::Corruption => 10,
        ErrorCode::Sealed => 6,
        ErrorCode::AuditUnavailable => 17,
    }
}

fn code_length(code: ErrorCode) -> (n: u64)
    ensures
        n == code_bytes(code),
{
    match code {
        ErrorCode::InvalidArgument => 16,
        ErrorCode::Unauthorized => 12,
        ErrorCode::Forbidden => 9,
        ErrorCode::NotFound => 9,
        ErrorCode::AlreadyExists => 14,
        ErrorCode::Conflict => 8,
        ErrorCode::SchemaViolation => 16,
        ErrorCode::QuotaExceeded => 14,
        ErrorCode::ResourceExhausted => 18,
        ErrorCode::IndexRequired => 14,
        ErrorCode::CursorExpired => 14,
        ErrorCode::Unavailable => 11,
        ErrorCode::UnknownOutcome => 15,
        ErrorCode::Corruption => 10,
        ErrorCode::Sealed => 6,
        ErrorCode::AuditUnavailable => 17,
    }
}

/// How many bytes a byte of a text takes in a JSON string.
pub open spec fn escaped_byte(x: u8) -> nat {
    if x == 34 || x == 92 || x == 8 || x == 9 || x == 10 || x == 12 || x == 13 {
        2
    } else if x < 32 {
        6
    } else {
        1
    }
}

/// How many bytes a text takes in a JSON string.
pub open spec fn escaped_bytes(text: Seq<u8>) -> nat
    decreases text.len(),
{
    if text.len() == 0 {
        0
    } else {
        escaped_bytes(text.drop_last()) + escaped_byte(text.last())
    }
}

/// How many bytes the record of an outcome is encoded in: a refusal's grows with its
/// code and its escaped message.
pub open spec fn record_bytes_of(sizes: RecordSizes, outcome: OutcomeView) -> u64 {
    match outcome {
        OutcomeView::Written { revision, versions } => sizes.written,
        OutcomeView::Refused { code, message } => within(
            sizes.refusal_frame + code_bytes(code) + escaped_bytes(message),
        ),
    }
}

pub open spec fn within(bytes: int) -> u64 {
    if bytes > u64::MAX {
        u64::MAX
    } else {
        bytes as u64
    }
}

fn record_bytes(sizes: &RecordSizes, outcome: &Outcome) -> (bytes: u64)
    ensures
        bytes == record_bytes_of(*sizes, outcome@),
{
    match outcome {
        Outcome::Written { revision, versions } => sizes.written,
        Outcome::Refused { code, message } => {
            let mut bytes: u64 = sizes.refusal_frame.saturating_add(code_length(*code));
            let mut i: usize = 0;
            assert(message@.take(0) =~= Seq::<u8>::empty());
            while i < message.len()
                invariant
                    i <= message.len(),
                    bytes == within(
                        sizes.refusal_frame + code_bytes(*code) + escaped_bytes(
                            message@.take(i as int),
                        ),
                    ),
                decreases message.len() - i,
            {
                let x: u8 = message[i];
                let width: u64 = if x == 34 || x == 92 || x == 8 || x == 9 || x == 10 || x == 12
                    || x == 13 {
                    2
                } else if x < 32 {
                    6
                } else {
                    1
                };
                bytes = bytes.saturating_add(width);
                assert(message@.take(i + 1).drop_last() =~= message@.take(i as int));
                i = i + 1;
            }
            assert(message@.take(message@.len() as int) =~= message@);
            bytes
        },
    }
}

proof fn lemma_escaped(text: Seq<u8>)
    ensures
        escaped_bytes(text) <= 6 * text.len(),
        (forall|i: int| 0 <= i < text.len() ==> #[trigger] text[i] == 1) ==> escaped_bytes(text)
            == 6 * text.len(),
    decreases text.len(),
{
    if text.len() > 0 {
        let front = text.drop_last();
        lemma_escaped(front);
        assert(forall|i: int| 0 <= i < front.len() ==> front[i] == text[i]);
    }
}

/// What an admitted identity has reserved: the largest row and the largest head that
/// any of its outcomes can come to.
#[derive(Clone, Copy, Debug, PartialEq, Eq, Structural)]
pub struct Permit {
    pub maximum_row_bytes: u64,
    pub maximum_head: ReceiptHead,
}

pub open spec fn exceeded(message: &'static str) -> Error {
    errors::refusal(ErrorCode::QuotaExceeded, message)
}

/// The refusal that takes the most bytes: under the longest code, a full message whose
/// every byte is escaped in six.
pub open spec fn widest_refusal(max_message_bytes: u32) -> OutcomeView {
    OutcomeView::Refused {
        code: ErrorCode::ResourceExhausted,
        message: Seq::new(max_message_bytes as nat, |i: int| 1u8),
    }
}

fn maximum_error(max_message_bytes: u32) -> (outcome: Outcome)
    ensures
        outcome@ == widest_refusal(max_message_bytes),
{
    let mut message: Vec<u8> = Vec::new();
    let mut i: u32 = 0;
    while i < max_message_bytes
        invariant
            i <= max_message_bytes,
            message.len() == i,
            forall|j: int| 0 <= j < i ==> #[trigger] message@[j] == 1,
        decreases max_message_bytes - i,
    {
        message.push(1);
        i = i + 1;
    }
    assert(message@ =~= Seq::new(max_message_bytes as nat, |j: int| 1u8));
    Outcome::Refused { code: ErrorCode::ResourceExhausted, message }
}

/// No refusal whose message is no longer takes more bytes than the widest.
pub proof fn lemma_widest(sizes: RecordSizes, code: ErrorCode, message: Seq<u8>)
    requires
        message.len() <= sizes.max_message_bytes,
    ensures
        record_bytes_of(sizes, OutcomeView::Refused { code, message }) <= record_bytes_of(
            sizes,
            widest_refusal(sizes.max_message_bytes),
        ),
        record_bytes_of(sizes, widest_refusal(sizes.max_message_bytes)) == within(
            sizes.refusal_frame + 18 + 6 * sizes.max_message_bytes,
        ),
{
    lemma_escaped(message);
    lemma_escaped(widest_refusal(sizes.max_message_bytes)->message);
}

pub open spec fn larger(a: u64, b: u64) -> u64 {
    if a > b {
        a
    } else {
        b
    }
}

/// The largest row of the batch, if each of its outcomes makes a canonical one.
pub open spec fn largest_row(
    head: ReceiptHead,
    incarnation: u128,
    batch: BatchView,
    applied: Applied,
    sizes: RecordSizes,
    context: RowContext,
) -> Result<u64, Error> {
    let widest = widest_refusal(sizes.max_message_bytes);
    let refused_row = receipt_chain::row_behind(
        head,
        receipt_of(batch, incarnation, applied.revision, widest),
        applied,
        record_bytes_of(sizes, widest),
    );
    let written_row = receipt_chain::row_behind(
        head,
        receipt_of(batch, incarnation, applied.revision, written(batch, applied.revision)),
        applied,
        sizes.written,
    );
    match mutation_receipt::row_checked(refused_row, context) {
        Err(e) => Err(e),
        Ok(()) => match mutation_receipt::row_checked(written_row, context) {
            Err(e) => Err(e),
            Ok(()) => Ok(
                larger(
                    mutation_receipt::framed(
                        record_bytes_of(sizes, widest),
                        context.frame_header_bytes,
                    )->Ok_0,
                    mutation_receipt::framed(sizes.written, context.frame_header_bytes)->Ok_0,
                ),
            ),
        },
    }
}

/// The digest is of fixed width: only the decimal widths of a head's counts can
/// grow, and the largest head dominates those of every outcome.
pub open spec fn widest_digest() -> Digest {
    Digest { high: u128::MAX, low: u128::MAX }
}

pub open spec fn permitted(
    state: ReceiptState,
    batch: BatchView,
    applied: Applied,
    sizes: RecordSizes,
    context: RowContext,
) -> Result<Permit, Error> {
    if state.head.count == u64::MAX {
        Err(exceeded("receipt ordinal exhausted"))
    } else {
        match largest_row(state.head, state.incarnation, batch, applied, sizes, context) {
            Err(e) => Err(e),
            Ok(bytes) => if state.head.encoded_bytes + bytes > u64::MAX {
                Err(exceeded("receipt byte counter exhausted"))
            } else if state.head.encoded_bytes + bytes > state.max_receipt_bytes {
                Err(exceeded("permanent mutation receipt byte budget exhausted"))
            } else {
                Ok(
                    Permit {
                        maximum_row_bytes: bytes,
                        maximum_head: ReceiptHead {
                            origin_incarnation: state.head.origin_incarnation,
                            count: (state.head.count + 1) as u64,
                            sha256: widest_digest(),
                            last_applied_revision: applied.revision,
                            encoded_bytes: (state.head.encoded_bytes + bytes) as u64,
                        },
                    },
                )
            },
        }
    }
}

fn row_behind(head: &ReceiptHead, receipt: Receipt, applied: Applied, record_bytes: u64) -> (row: Row)
    requires
        head.count < u64::MAX,
    ensures
        row@ == receipt_chain::row_behind(*head, receipt@, applied, record_bytes),
{
    Row {
        ordinal: head.count + 1,
        key: mutation_receipt::receipt_key(receipt.scope.principal, receipt.idempotency_key),
        previous_sha256: head.sha256,
        applied,
        receipt,
        record_bytes,
    }
}

impl Permit {
    /// Reserves the row and the head of every outcome that the batch can have.
    pub fn prepare(
        state: &ReceiptState,
        batch: &Batch,
        applied: &Applied,
        sizes: &RecordSizes,
        context: &RowContext,
    ) -> (r: Result<Permit, Error>)
        ensures
            r == permitted(*state, batch@, *applied, *sizes, *context),
    {
        let ordinal: u64 = match state.head.count.checked_add(1) {
            None => return Err(error(ErrorCode::QuotaExceeded, "receipt ordinal exhausted")),
            Some(ordinal) => ordinal,
        };
        let refusal = maximum_error(sizes.max_message_bytes);
        let refused_record: u64 = record_bytes(sizes, &refusal);
        let refused_row = row_behind(
            &state.head,
            receipt(batch, state.incarnation, applied.revision, refusal),
            *applied,
            refused_record,
        );
        refused_row.validate(context)?;
        let refused_bytes: u64 = framed_bytes(refused_record, context.frame_header_bytes)?;
        let success = Outcome::Written {
            revision: applied.revision,
            versions: versions(&batch.operations, applied.revision),
        };
        assert(success@ == written(batch@, applied.revision));
        let written_row = row_behind(
            &state.head,
            receipt(batch, state.incarnation, applied.revision, success),
            *applied,
            sizes.written,
        );
        written_row.validate(context)?;
        let written_bytes: u64 = framed_bytes(sizes.written, context.frame_header_bytes)?;
        let bytes: u64 = if refused_bytes > written_bytes {
            refused_bytes
        } else {
            written_bytes
        };
        let total: u64 = match state.head.encoded_bytes.checked_add(bytes) {
            None => return Err(error(ErrorCode::QuotaExceeded, "receipt byte counter exhausted")),
            Some(total) => total,
        };
        if total > state.max_receipt_bytes {
            return Err(
                error(
                    ErrorCode::QuotaExceeded,
                    "permanent mutation receipt byte budget exhausted",
                ),
            );
        }
        Ok(
            Permit {
                maximum_row_bytes: bytes,
                maximum_head: ReceiptHead {
                    origin_incarnation: state.head.origin_incarnation,
                    count: ordinal,
                    sha256: Digest { high: u128::MAX, low: u128::MAX },
                    last_applied_revision: applied.revision,
                    encoded_bytes: total,
                },
            },
        )
    }

    /// Whether a finalized head stays within what was reserved.
    pub open spec fn covers(self, owner: ReceiptHead, head: ReceiptHead) -> Result<(), Error> {
        if head.encoded_bytes < owner.encoded_bytes {
            Err(mutation_receipt::corrupt("receipt reserved bytes decreased"))
        } else if head.encoded_bytes - owner.encoded_bytes > self.maximum_row_bytes || head.count
            != self.maximum_head.count || head.encoded_bytes > self.maximum_head.encoded_bytes {
            Err(
                mutation_receipt::corrupt("admitted receipt exceeded its terminal reservation"),
            )
        } else {
            Ok(())
        }
    }

    pub open spec fn finalized(
        self,
        state: ReceiptState,
        batch: BatchView,
        applied: Applied,
        outcome: OutcomeView,
        sizes: RecordSizes,
        context: RowContext,
    ) -> Result<ReceiptHead, Error> {
        match receipt_chain::prepared(
            state.head,
            state.head,
            false,
            receipt_of(batch, state.incarnation, applied.revision, outcome),
            applied,
            record_bytes_of(sizes, outcome),
            context,
            state.max_receipt_bytes,
        ) {
            Err(e) => Err(e),
            Ok(head) => match self.covers(state.head, head) {
                Err(e) => Err(e),
                Ok(()) => Ok(head),
            },
        }
    }

    /// Makes the batch's one row, of its actual outcome.
    pub fn finalize(
        &self,
        state: &ReceiptState,
        batch: &Batch,
        applied: &Applied,
        outcome: Outcome,
        sizes: &RecordSizes,
        context: &RowContext,
    ) -> (r: Result<Pending, Error>)
        ensures
            match self.finalized(*state, batch@, *applied, outcome@, *sizes, *context) {
                Err(e) => r == Err::<Pending, Error>(e),
                Ok(head) => r is Ok && r->Ok_0.head == head && r->Ok_0.row@
                    == receipt_chain::row_behind(
                    state.head,
                    receipt_of(batch@, state.incarnation, applied.revision, outcome@),
                    *applied,
                    record_bytes_of(*sizes, outcome@),
                ),
            },
    {
        let bytes: u64 = record_bytes(sizes, &outcome);
        let pending = prepare(
            &state.head,
            &state.head,
            false,
            receipt(batch, state.incarnation, applied.revision, outcome),
            *applied,
            bytes,
            context,
            state.max_receipt_bytes,
        )?;
        let bytes: u64 = match pending.head.encoded_bytes.checked_sub(state.head.encoded_bytes) {
            None => return Err(error(ErrorCode::Corruption, "receipt reserved bytes decreased")),
            Some(bytes) => bytes,
        };
        if bytes > self.maximum_row_bytes || pending.head.count != self.maximum_head.count
            || pending.head.encoded_bytes > self.maximum_head.encoded_bytes {
            return Err(
                error(
                    ErrorCode::Corruption,
                    "admitted receipt exceeded its terminal reservation",
                ),
            );
        }
        Ok(pending)
    }
}

// ---------------------------------------------------------------------
// The ordered mutation
// ---------------------------------------------------------------------

/// Whether a state with one more audit event can be published: its hot audit bytes,
/// its snapshot and every reserved completion fit.
#[derive(Clone, Copy, Debug)]
pub struct Fits {
    pub audit: bool,
    pub snapshot: bool,
    pub completion: bool,
}

impl Fits {
    pub open spec fn holds(self) -> bool {
        self.audit && self.snapshot && self.completion
    }

    fn all(&self) -> (b: bool)
        ensures
            b == self.holds(),
    {
        self.audit && self.snapshot && self.completion
    }
}

/// What the engine finds around an ordered mutation: whether each state that may be
/// published fits, what applying the batch came to, and how its records are encoded.
#[derive(Clone, Copy, Debug)]
pub struct MutationFacts {
    pub reserved: Fits,
    pub attempt: Result<(), Error>,
    pub committed: Fits,
    pub rejected: Fits,
    pub observed: Fits,
    pub observed_rejection: Fits,
    pub sizes: RecordSizes,
}

/// The audit event that is published.
#[derive(Clone, Copy, Debug, PartialEq, Eq, Structural)]
pub enum Audited {
    Nothing,
    Committed,
    Rejected,
}

/// What the caller is answered.
pub enum Released {
    /// The outcome that the batch's own row records.
    Recorded(Outcome),
    /// The outcome that the retained row records.
    Retained(Outcome),
    /// A refusal that no row records.
    Refused(Error),
}

pub enum ReleasedView {
    Recorded(OutcomeView),
    Retained(OutcomeView),
    Refused(Error),
}

impl View for Released {
    type V = ReleasedView;

    open spec fn view(&self) -> ReleasedView {
        match self {
            Released::Recorded(outcome) => ReleasedView::Recorded(outcome@),
            Released::Retained(outcome) => ReleasedView::Retained(outcome@),
            Released::Refused(refusal) => ReleasedView::Refused(*refusal),
        }
    }
}

/// What is published: the head of the receipts, the audit event, whether the batch
/// changed documents, and what the caller is answered.
pub struct Publication {
    pub head: ReceiptHead,
    pub audited: Audited,
    pub changed: bool,
    pub released: Released,
}

pub struct PublicationView {
    pub head: ReceiptHead,
    pub audited: Audited,
    pub changed: bool,
    pub released: ReleasedView,
}

impl View for Publication {
    type V = PublicationView;

    open spec fn view(&self) -> PublicationView {
        PublicationView {
            head: self.head,
            audited: self.audited,
            changed: self.changed,
            released: self.released@,
        }
    }
}

/// Nothing is admitted: the receipts stay as they are. A failure of the required
/// audit can refuse the release, but cannot change the selected receipt.
pub open spec fn observation(
    head: ReceiptHead,
    released: ReleasedView,
    succeeded: bool,
    facts: MutationFacts,
) -> PublicationView {
    if facts.observed.holds() {
        PublicationView {
            head,
            audited: if succeeded {
                Audited::Committed
            } else {
                Audited::Rejected
            },
            changed: false,
            released,
        }
    } else {
        PublicationView {
            head,
            audited: if facts.observed_rejection.holds() {
                Audited::Rejected
            } else {
                Audited::Nothing
            },
            changed: false,
            released: ReleasedView::Refused(
                errors::refusal(
                    ErrorCode::AuditUnavailable,
                    "required mutation observation audit capacity unavailable",
                ),
            ),
        }
    }
}

/// A refusal that admits nothing.
pub open spec fn refused_observation(head: ReceiptHead, refusal: Error, facts: MutationFacts) -> PublicationView {
    observation(head, ReleasedView::Refused(refusal), false, facts)
}

pub open spec fn quota_of_snapshot() -> Error {
    exceeded("serialized tenant snapshot byte budget exhausted")
}

/// An admitted batch that is not written: its refusal takes the row.
pub open spec fn rejection(
    state: ReceiptState,
    batch: BatchView,
    applied: Applied,
    permit: Permit,
    refusal: Error,
    facts: MutationFacts,
    context: RowContext,
) -> Result<PublicationView, Error> {
    match permit.finalized(state, batch, applied, refused(refusal), facts.sizes, context) {
        Err(e) => Err(e),
        Ok(head) => if !facts.rejected.holds() {
            Err(mutation_receipt::corrupt("reserved mutation terminal cannot publish"))
        } else {
            Ok(
                PublicationView {
                    head,
                    audited: Audited::Rejected,
                    changed: false,
                    released: ReleasedView::Recorded(refused(refusal)),
                },
            )
        },
    }
}

/// An admitted batch, with its whole rejection proved publishable.
pub open spec fn admitted(
    state: ReceiptState,
    batch: BatchView,
    applied: Applied,
    permit: Permit,
    facts: MutationFacts,
    context: RowContext,
) -> Result<PublicationView, Error> {
    match facts.attempt {
        Err(refusal) => rejection(state, batch, applied, permit, refusal, facts, context),
        Ok(()) => match permit.finalized(
            state,
            batch,
            applied,
            written(batch, applied.revision),
            facts.sizes,
            context,
        ) {
            Err(e) => Err(e),
            Ok(head) => if facts.committed.holds() {
                Ok(
                    PublicationView {
                        head,
                        audited: Audited::Committed,
                        changed: true,
                        released: ReleasedView::Recorded(written(batch, applied.revision)),
                    },
                )
            } else {
                rejection(state, batch, applied, permit, quota_of_snapshot(), facts, context)
            },
        },
    }
}

/// A batch whose identity is new.
pub open spec fn new_identity_applied(
    state: ReceiptState,
    batch: BatchView,
    applied: Applied,
    facts: MutationFacts,
    context: RowContext,
) -> Result<PublicationView, Error> {
    match permitted(state, batch, applied, facts.sizes, context) {
        Err(refusal) => if refusal.code == ErrorCode::QuotaExceeded {
            Ok(refused_observation(state.head, refusal, facts))
        } else {
            Err(refusal)
        },
        Ok(permit) => if !facts.reserved.holds() {
            Ok(
                refused_observation(
                    state.head,
                    errors::refusal(
                        ErrorCode::AuditUnavailable,
                        "required mutation terminal and audit capacity unavailable",
                    ),
                    facts,
                ),
            )
        } else {
            admitted(state, batch, applied, permit, facts, context)
        },
    }
}

pub open spec fn reused() -> Error {
    errors::refusal(ErrorCode::Conflict, "idempotency key reused for different input")
}

/// A batch whose identity has its row: the same request is answered with the outcome
/// that the row records, and audited by it. A row that does not hold answers nothing.
pub open spec fn replayed(
    head: ReceiptHead,
    batch: BatchView,
    row: RowView,
    facts: MutationFacts,
    context: RowContext,
) -> Result<PublicationView, Error> {
    match mutation_receipt::row_checked(row, context) {
        Err(e) => Err(e),
        Ok(()) => if row.receipt.request_digest == batch.request_digest {
            Ok(
                observation(
                    head,
                    ReleasedView::Retained(row.receipt.outcome),
                    row.receipt.outcome is Written,
                    facts,
                ),
            )
        } else {
            Ok(refused_observation(head, reused(), facts))
        },
    }
}

/// What an ordered mutation publishes. `stored` is what stands under the identity of the
/// batch, and `context` is that of its row: of the retained one where one is visible, of
/// the new one where none is.
pub open spec fn ordered(
    state: ReceiptState,
    batch: BatchView,
    applied: Applied,
    stored: Option<Stored>,
    facts: MutationFacts,
    context: RowContext,
) -> Result<PublicationView, Error> {
    match batch_refusal(batch, state.tenant) {
        Some(refusal) => Ok(refused_observation(state.head, refusal, facts)),
        None => match receipt_chain::point_read(
            state.head,
            mutation_receipt::key_of(batch.principal, batch.idempotency_key),
            stored,
        ) {
            Err(e) => Err(e),
            Ok(true) => replayed(
                state.head,
                batch,
                stored->0->Decoded_0.row@,
                facts,
                context,
            ),
            Ok(false) => new_identity_applied(state, batch, applied, facts, context),
        },
    }
}

fn publish_mutation_observation(
    head: ReceiptHead,
    released: Released,
    succeeded: bool,
    facts: &MutationFacts,
) -> (p: Publication)
    ensures
        p@ == observation(head, released@, succeeded, *facts),
{
    if facts.observed.all() {
        let audited = if succeeded {
            Audited::Committed
        } else {
            Audited::Rejected
        };
        return Publication { head, audited, changed: false, released };
    }
    let audited = if facts.observed_rejection.all() {
        Audited::Rejected
    } else {
        Audited::Nothing
    };
    Publication {
        head,
        audited,
        changed: false,
        released: Released::Refused(
            error(
                ErrorCode::AuditUnavailable,
                "required mutation observation audit capacity unavailable",
            ),
        ),
    }
}

fn refuse(head: ReceiptHead, refusal: Error, facts: &MutationFacts) -> (p: Publication)
    ensures
        p@ == refused_observation(head, refusal, *facts),
{
    publish_mutation_observation(head, Released::Refused(refusal), false, facts)
}

fn reject(
    state: &ReceiptState,
    batch: &Batch,
    applied: &Applied,
    permit: &Permit,
    refusal: Error,
    facts: &MutationFacts,
    context: &RowContext,
) -> (r: Result<(Publication, Row), Error>)
    ensures
        match rejection(*state, batch@, *applied, *permit, refusal, *facts, *context) {
            Err(e) => r == Err::<(Publication, Row), Error>(e),
            Ok(publication) => r is Ok && r->Ok_0.0@ == publication && r->Ok_0.1@
                == receipt_chain::row_behind(
                state.head,
                receipt_of(batch@, state.incarnation, applied.revision, refused(refusal)),
                *applied,
                record_bytes_of(facts.sizes, refused(refusal)),
            ),
        },
{
    let outcome = refusal_of(refusal);
    let pending = permit.finalize(state, batch, applied, outcome, &facts.sizes, context)?;
    if !facts.rejected.all() {
        return Err(error(ErrorCode::Corruption, "reserved mutation terminal cannot publish"));
    }
    Ok(
        (
            Publication {
                head: pending.head,
                audited: Audited::Rejected,
                changed: false,
                released: Released::Recorded(refusal_of(refusal)),
            },
            pending.row,
        ),
    )
}

/// The row that a publication adds, if it adds one: that of the outcome which it records.
pub open spec fn row_added(
    state: ReceiptState,
    batch: BatchView,
    applied: Applied,
    facts: MutationFacts,
    publication: PublicationView,
) -> Option<RowView> {
    match publication.released {
        ReleasedView::Recorded(outcome) => Some(
            receipt_chain::row_behind(
                state.head,
                receipt_of(batch, state.incarnation, applied.revision, outcome),
                applied,
                record_bytes_of(facts.sizes, outcome),
            ),
        ),
        _ => None,
    }
}

pub open spec fn row_view(row: Option<Row>) -> Option<RowView> {
    match row {
        None => None,
        Some(row) => Some(row@),
    }
}

/// Applies an ordered mutation: an observation of what stands, or the one row of an
/// admitted identity. `stored` is what stands under the identity of the batch, and
/// `context` is that of its row: of the retained one where one is visible, of the new
/// one where none is. An error publishes nothing.
pub fn apply_mutation_ordered(
    state: &ReceiptState,
    batch: &Batch,
    applied: &Applied,
    stored: &Option<Stored>,
    facts: &MutationFacts,
    context: &RowContext,
) -> (r: Result<(Publication, Option<Row>), Error>)
    ensures
        match ordered(*state, batch@, *applied, *stored, *facts, *context) {
            Err(e) => r == Err::<(Publication, Option<Row>), Error>(e),
            Ok(publication) => r is Ok && r->Ok_0.0@ == publication && row_view(r->Ok_0.1)
                == row_added(*state, batch@, *applied, *facts, publication),
        },
{
    match refuse_batch(batch, state.tenant) {
        Some(refusal) => return Ok((refuse(state.head, refusal, facts), None)),
        None => {},
    }
    let key = mutation_receipt::receipt_key(batch.principal, batch.idempotency_key);
    match get_charged(&state.head, key, stored)? {
        Some(row) => {
            row.validate(context)?;
            if row.receipt.request_digest != batch.request_digest {
                let reused = error(
                    ErrorCode::Conflict,
                    "idempotency key reused for different input",
                );
                return Ok((refuse(state.head, reused, facts), None));
            }
            let succeeded: bool = match &row.receipt.outcome {
                Outcome::Written { revision, versions } => true,
                Outcome::Refused { code, message } => false,
            };
            let released = Released::Retained(row.receipt.outcome.copy());
            return Ok(
                (publish_mutation_observation(state.head, released, succeeded, facts), None),
            );
        },
        None => {},
    }
    let permit = match Permit::prepare(state, batch, applied, &facts.sizes, context) {
        Ok(permit) => permit,
        Err(refusal) => {
            if refusal.code == ErrorCode::QuotaExceeded {
                return Ok((refuse(state.head, refusal, facts), None));
            }
            return Err(refusal);
        },
    };
    if !facts.reserved.all() {
        let unavailable = error(
            ErrorCode::AuditUnavailable,
            "required mutation terminal and audit capacity unavailable",
        );
        return Ok((refuse(state.head, unavailable, facts), None));
    }
    let refusal = match facts.attempt {
        Err(refusal) => refusal,
        Ok(()) => {
            let outcome = Outcome::Written {
                revision: applied.revision,
                versions: versions(&batch.operations, applied.revision),
            };
            assert(outcome@ == written(batch@, applied.revision));
            let recorded = outcome.copy();
            let pending = permit.finalize(
                state,
                batch,
                applied,
                outcome,
                &facts.sizes,
                context,
            )?;
            if facts.committed.all() {
                return Ok(
                    (
                        Publication {
                            head: pending.head,
                            audited: Audited::Committed,
                            changed: true,
                            released: Released::Recorded(recorded),
                        },
                        Some(pending.row),
                    ),
                );
            }
            error(
                ErrorCode::QuotaExceeded,
                "serialized tenant snapshot byte budget exhausted",
            )
        },
    };
    let (publication, row) = reject(state, batch, applied, &permit, refusal, facts, context)?;
    Ok((publication, Some(row)))
}

// ---------------------------------------------------------------------
// What ordered mutations come to
// ---------------------------------------------------------------------

/// Whether the identity of the batch has a row that is visible.
pub open spec fn has_row(state: ReceiptState, batch: BatchView, stored: Option<Stored>) -> bool {
    receipt_chain::point_read(
        state.head,
        mutation_receipt::key_of(batch.principal, batch.idempotency_key),
        stored,
    ) == Ok::<bool, Error>(true)
}

/// Either nothing is added to the receipts and no document changes, or exactly one
/// row is, which records what the caller is answered, and documents change only where
/// the batch was written. An identity that has its row gets no other.
pub proof fn lemma_one_row(
    state: ReceiptState,
    batch: BatchView,
    applied: Applied,
    stored: Option<Stored>,
    facts: MutationFacts,
    context: RowContext,
)
    ensures
        match ordered(state, batch, applied, stored, facts, context) {
            Err(_) => true,
            Ok(p) => {
                &&& p.head == state.head || p.head.count == state.head.count + 1
                &&& p.head == state.head <==> p.released !is Recorded
                &&& p.head == state.head ==> !p.changed
                &&& p.released matches ReleasedView::Recorded(outcome) ==> {
                    &&& p.changed == outcome is Written
                    &&& p.audited == if outcome is Written {
                        Audited::Committed
                    } else {
                        Audited::Rejected
                    }
                }
                &&& has_row(state, batch, stored) ==> p.head == state.head
                &&& batch_refusal(batch, state.tenant) is Some ==> p.head == state.head
            },
        },
{
}

/// The row that a publication adds is of the batch's identity and request, records what
/// the caller was answered, holds, and is visible under the head that it is published
/// with.
pub proof fn lemma_recorded(
    state: ReceiptState,
    batch: BatchView,
    applied: Applied,
    stored: Option<Stored>,
    facts: MutationFacts,
    context: RowContext,
    parent: Option<Ordinal>,
)
    requires
        ({
            let p = ordered(state, batch, applied, stored, facts, context);
            &&& p is Ok
            &&& p->Ok_0.released is Recorded
            &&& receipt_chain::parent_holds(
                state.head,
                row_added(state, batch, applied, facts, p->Ok_0)->0,
                parent,
            ) is Ok
        }),
    ensures
        ({
            let p = ordered(state, batch, applied, stored, facts, context)->Ok_0;
            let row = row_added(state, batch, applied, facts, p)->0;
            let entry = Some(Ordinal { key: row.key, sha256: mutation_receipt::row_sha256(row) });
            &&& row.key == mutation_receipt::key_of(batch.principal, batch.idempotency_key)
            &&& row.receipt.request_digest == batch.request_digest
            &&& p.released == ReleasedView::Recorded(row.receipt.outcome)
            &&& mutation_receipt::row_checked(row, context) is Ok
            &&& receipt_chain::point_selected(
                p.head,
                row.key,
                row,
                Surroundings { entry, parent, top: entry },
            ) == Ok::<bool, Error>(true)
        }),
{
    let p = ordered(state, batch, applied, stored, facts, context)->Ok_0;
    let row = row_added(state, batch, applied, facts, p)->0;
    receipt_chain::lemma_appended(state.head, row, context.frame_header_bytes, parent);
}

/// A mutation is answered once and for all. Wherever the row that it added is found
/// again, under the head that it was published with or under any later one, the same
/// request is answered with the very outcome that it was answered with first, whatever
/// limits have changed since, and audited by it; another request under its identity is
/// a conflict. Head, rows and documents stay as they are.
pub proof fn lemma_replayed(
    state: ReceiptState,
    batch: BatchView,
    applied: Applied,
    stored: Option<Stored>,
    facts: MutationFacts,
    context: RowContext,
    later: ReceiptState,
    again: BatchView,
    later_applied: Applied,
    found: StoredRow,
    later_facts: MutationFacts,
    later_context: RowContext,
)
    requires
        ({
            let p = ordered(state, batch, applied, stored, facts, context);
            &&& p is Ok
            &&& p->Ok_0.released is Recorded
            &&& row_added(state, batch, applied, facts, p->Ok_0) == Some(found.row@)
        }),
        found.canonical_refusal is None,
        receipt_chain::point_selected(later.head, found.row@.key, found.row@, found.around) == Ok::<
            bool,
            Error,
        >(true),
        mutation_receipt::row_checked(found.row@, later_context) is Ok,
        again.principal == batch.principal,
        again.idempotency_key == batch.idempotency_key,
        batch_refusal(again, later.tenant) is None,
    ensures
        ({
            let first = ordered(state, batch, applied, stored, facts, context)->Ok_0;
            let answer = ordered(
                later,
                again,
                later_applied,
                Some(Stored::Decoded(found)),
                later_facts,
                later_context,
            );
            let outcome = first.released->Recorded_0;
            &&& answer == if again.request_digest == batch.request_digest {
                Ok::<PublicationView, Error>(
                    observation(
                        later.head,
                        ReleasedView::Retained(outcome),
                        outcome is Written,
                        later_facts,
                    ),
                )
            } else {
                Ok(refused_observation(later.head, reused(), later_facts))
            }
            &&& answer->Ok_0.head == later.head
            &&& !answer->Ok_0.changed
            &&& row_added(later, again, later_applied, later_facts, answer->Ok_0) is None
        }),
{
}

/// Whether the outcome is one that the batch can have: any refusal whose message is no
/// longer than a message may be, or that the batch is written.
pub open spec fn possible(
    batch: BatchView,
    applied: Applied,
    sizes: RecordSizes,
    outcome: OutcomeView,
) -> bool {
    match outcome {
        OutcomeView::Refused { code, message } => message.len() <= sizes.max_message_bytes,
        OutcomeView::Written { revision, versions } => outcome == written(batch, applied.revision),
    }
}

/// An admitted identity always gets its row: once a permit is granted, every outcome
/// that the batch can have is finalized within it. The permit's head is that of one more
/// row of the largest size, within the tenant's budget.
pub proof fn lemma_terminal_reserved(
    state: ReceiptState,
    batch: BatchView,
    applied: Applied,
    sizes: RecordSizes,
    context: RowContext,
    outcome: OutcomeView,
)
    requires
        permitted(state, batch, applied, sizes, context) is Ok,
        applied.revision > state.head.last_applied_revision,
        possible(batch, applied, sizes, outcome),
    ensures
        ({
            let permit = permitted(state, batch, applied, sizes, context)->Ok_0;
            let framed = mutation_receipt::framed(
                record_bytes_of(sizes, outcome),
                context.frame_header_bytes,
            );
            &&& framed is Ok
            &&& framed->Ok_0 <= permit.maximum_row_bytes
            &&& permit.finalized(state, batch, applied, outcome, sizes, context) is Ok
            &&& permit.maximum_head.count == state.head.count + 1
            &&& permit.maximum_head.encoded_bytes == state.head.encoded_bytes
                + permit.maximum_row_bytes
            &&& permit.maximum_head.encoded_bytes <= state.max_receipt_bytes
        }),
{
    let receipt = receipt_of(batch, state.incarnation, applied.revision, outcome);
    let row = receipt_chain::row_behind(
        state.head,
        receipt,
        applied,
        record_bytes_of(sizes, outcome),
    );
    match outcome {
        OutcomeView::Refused { code, message } => {
            lemma_widest(sizes, code, message);
        },
        OutcomeView::Written { revision, versions } => {},
    }
    assert(mutation_receipt::row_checked(row, context) is Ok);
}

} // verus!
