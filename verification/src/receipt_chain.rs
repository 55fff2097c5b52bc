//! The permanent chain of receipts: how it grows, what of it is visible, and where
//! its rows are kept.
use vstd::prelude::*;

use crate::digest::{Digest, Name};
use crate::errors::{error, Error, ErrorCode};
use crate::identities::new_identity;
use crate::mutation_receipt;
use crate::mutation_receipt::{
    advance, receipt_key, Applied, Ordinal, Receipt, ReceiptHead, ReceiptView, Row, RowContext,
    RowView,
};

verus! {

fn bad(message: &'static str) -> (e: Error)
    ensures
        e == mutation_receipt::corrupt(message),
{
    error(ErrorCode::Corruption, message)
}

// ---------------------------------------------------------------------
// Building a chain
// ---------------------------------------------------------------------

/// What a chain comes to: its tenant, its head, and what each of its rows is committed
/// to.
pub struct ChainView {
    pub tenant: Name,
    pub head: ReceiptHead,
    pub index: Seq<Ordinal>,
}

/// Whether some row has the identity.
pub open spec fn has_key(index: Seq<Ordinal>, key: Digest) -> bool {
    exists|i: int| 0 <= i < index.len() && (#[trigger] index[i]).key == key
}

/// The chain with one more row.
pub open spec fn pushed(chain: ChainView, row: RowView, context: RowContext) -> Result<ChainView, Error> {
    match mutation_receipt::row_checked(row, context) {
        Err(e) => Err(e),
        Ok(()) => if has_key(chain.index, row.key) {
            Err(mutation_receipt::corrupt("duplicate immutable receipt identity"))
        } else {
            match mutation_receipt::advanced(chain.head, row, context.frame_header_bytes) {
                Err(e) => Err(e),
                Ok(head) => Ok(
                    ChainView {
                        head,
                        index: chain.index.push(
                            Ordinal { key: row.key, sha256: mutation_receipt::row_sha256(row) },
                        ),
                        ..chain
                    },
                ),
            }
        },
    }
}

/// A chain that is built row by row, in the order of its ordinals.
pub struct Builder {
    tenant: Name,
    head: ReceiptHead,
    index: Vec<Ordinal>,
}

impl View for Builder {
    type V = ChainView;

    closed spec fn view(&self) -> ChainView {
        ChainView { tenant: self.tenant, head: self.head, index: self.index@ }
    }
}

/// Whether the head is that of the rows: as many as it counts, and chained to the
/// last of them or to the tenant's root.
pub open spec fn heads(chain: ChainView) -> bool {
    &&& chain.head.count == chain.index.len()
    &&& chain.head.sha256 == if chain.index.len() == 0 {
        mutation_receipt::root_of(chain.tenant, chain.head.origin_incarnation)
    } else {
        chain.index.last().sha256
    }
}

/// No identity stands twice.
pub open spec fn distinct(index: Seq<Ordinal>) -> bool {
    forall|i: int, j: int|
        0 <= i < j < index.len() ==> (#[trigger] index[i]).key != (#[trigger] index[j]).key
}

impl Builder {
    #[verifier::type_invariant]
    spec fn sound(self) -> bool {
        heads(self@) && distinct(self.index@)
    }

    pub fn new(tenant: Name, origin: u128) -> (builder: Self)
        ensures
            builder@ == (ChainView {
                tenant,
                head: mutation_receipt::empty_head(tenant, origin),
                index: Seq::empty(),
            }),
    {
        let head = ReceiptHead::empty(tenant, origin);
        let builder = Builder { tenant, head, index: Vec::new() };
        assert(builder@.index =~= Seq::empty());
        builder
    }

    fn has(&self, key: Digest) -> (b: bool)
        ensures
            b == has_key(self@.index, key),
    {
        let mut i: usize = 0;
        while i < self.index.len()
            invariant
                i <= self.index.len(),
                forall|j: int| 0 <= j < i ==> (#[trigger] self.index@[j]).key != key,
            decreases self.index.len() - i,
        {
            if self.index[i].key == key {
                assert(self.index@[i as int].key == key);
                return true;
            }
            i = i + 1;
        }
        false
    }

    /// Adds a row, if it is canonical, new and the next of the chain.
    pub fn push(&mut self, row: &Row, context: &RowContext) -> (r: Result<(), Error>)
        ensures
            match pushed(old(self)@, row@, *context) {
                Err(e) => r == Err::<(), Error>(e) && final(self)@ == old(self)@,
                Ok(chain) => r is Ok && final(self)@ == chain,
            },
    {
        row.validate(context)?;
        if self.has(row.key) {
            return Err(bad("duplicate immutable receipt identity"));
        }
        let head = advance(&self.head, row, context.frame_header_bytes)?;
        proof {
            use_type_invariant(&*self);
        }
        let ghost held = self.index@;
        let mut index: Vec<Ordinal> = Vec::new();
        let mut i: usize = 0;
        while i < self.index.len()
            invariant
                i <= self.index.len(),
                self.index@ == held,
                self@ == old(self)@,
                index@ == held.subrange(0, i as int),
            decreases self.index.len() - i,
        {
            index.push(self.index[i]);
            assert(held.subrange(0, i + 1) =~= held.subrange(0, i as int).push(held[i as int]));
            i = i + 1;
        }
        assert(held.subrange(0, held.len() as int) =~= held);
        let entry = Ordinal { key: row.key, sha256: row.sha256() };
        index.push(entry);
        let tenant = self.tenant;
        proof {
            assert(index@ == held.push(entry));
            assert(index@.last() == entry);
        }
        *self = Builder { tenant, head, index };
        Ok(())
    }

    /// The finished chain, if its head is the expected one.
    pub fn finish(self, expected: &ReceiptHead) -> (r: Result<Prefix, Error>)
        ensures
            if self@.head != *expected {
                r == Err::<Prefix, Error>(
                    mutation_receipt::corrupt("receipt stream final root/count/bytes differ"),
                )
            } else {
                r is Ok && r->Ok_0@ == self@
            },
    {
        proof {
            use_type_invariant(&self);
        }
        if self.head != *expected {
            return Err(bad("receipt stream final root/count/bytes differ"));
        }
        Ok(Prefix { tenant: self.tenant, head: self.head, index: self.index })
    }
}

/// A verified chain: what each ordinal up to its head is committed to.
pub struct Prefix {
    tenant: Name,
    head: ReceiptHead,
    index: Vec<Ordinal>,
}

impl View for Prefix {
    type V = ChainView;

    closed spec fn view(&self) -> ChainView {
        ChainView { tenant: self.tenant, head: self.head, index: self.index@ }
    }
}

impl Prefix {
    #[verifier::type_invariant]
    spec fn sound(self) -> bool {
        heads(self@) && distinct(self.index@)
    }

    pub fn head(&self) -> (head: ReceiptHead)
        ensures
            head == self@.head,
    {
        self.head
    }

    /// What an ordinal of the chain is committed to.
    pub fn index(&self, ordinal: u64) -> (r: Result<Ordinal, Error>)
        ensures
            if ordinal == 0 || ordinal > self@.head.count {
                r == Err::<Ordinal, Error>(
                    mutation_receipt::corrupt("receipt ordinal is outside selected generation"),
                )
            } else {
                r == Ok::<Ordinal, Error>(self@.index[ordinal - 1])
            },
    {
        if ordinal == 0 || ordinal > self.head.count {
            return Err(bad("receipt ordinal is outside selected generation"));
        }
        proof {
            use_type_invariant(self);
        }
        let count: usize = self.index.len();
        assert(ordinal <= count);
        Ok(self.index[(ordinal - 1) as usize])
    }
}

// ---------------------------------------------------------------------
// What a head selects
// ---------------------------------------------------------------------

/// Whether a head is sound, given what its last ordinal is committed to.
pub open spec fn head_checked(head: ReceiptHead, tenant: Name, last: Option<Ordinal>) -> Result<(), Error> {
    if head.count == 0 {
        if head != mutation_receipt::empty_head(tenant, head.origin_incarnation) {
            Err(mutation_receipt::corrupt("nonempty receipt accounting without rows"))
        } else {
            Ok(())
        }
    } else if head.encoded_bytes == 0 || head.last_applied_revision == 0 {
        Err(mutation_receipt::corrupt("receipt physical prefix differs from selected root"))
    } else {
        match last {
            None => Err(mutation_receipt::corrupt("receipt ordinal missing")),
            Some(entry) => if entry.sha256 != head.sha256 {
                Err(
                    mutation_receipt::corrupt(
                        "receipt physical prefix differs from selected root",
                    ),
                )
            } else {
                Ok(())
            },
        }
    }
}

pub fn check_head(head: &ReceiptHead, tenant: Name, last: Option<Ordinal>) -> (r: Result<(), Error>)
    ensures
        r == head_checked(*head, tenant, last),
{
    if head.count == 0 {
        let empty = ReceiptHead::empty(tenant, head.origin_incarnation);
        if *head != empty {
            return Err(bad("nonempty receipt accounting without rows"));
        }
        return Ok(());
    }
    if head.encoded_bytes == 0 || head.last_applied_revision == 0 {
        return Err(bad("receipt physical prefix differs from selected root"));
    }
    match last {
        None => Err(bad("receipt ordinal missing")),
        Some(entry) => {
            if entry.sha256 != head.sha256 {
                return Err(bad("receipt physical prefix differs from selected root"));
            }
            Ok(())
        },
    }
}

/// What a state says of its receipts.
pub struct ReceiptState {
    pub tenant: Name,
    pub incarnation: u128,
    pub revision: u64,
    pub head: ReceiptHead,
    /// The incarnations that the state was restored from.
    pub lineage: Vec<u128>,
    pub max_receipt_bytes: u64,
}

pub open spec fn state_checked(head: ReceiptHead, last: Option<Ordinal>, state: ReceiptState) -> Result<
    (),
    Error,
> {
    match head_checked(head, state.tenant, last) {
        Err(e) => Err(e),
        Ok(()) => if head != state.head || head.last_applied_revision > state.revision || (
        head.origin_incarnation != state.incarnation && !state.lineage@.contains(
            head.origin_incarnation,
        )) {
            Err(mutation_receipt::corrupt("receipt history origin is outside retained lineage"))
        } else {
            Ok(())
        },
    }
}

/// Whether a head is the state's own, and from its lineage.
pub fn validate_state(head: &ReceiptHead, last: Option<Ordinal>, state: &ReceiptState) -> (r: Result<
    (),
    Error,
>)
    ensures
        r == state_checked(*head, last, *state),
{
    check_head(head, state.tenant, last)?;
    let mut retained: bool = head.origin_incarnation == state.incarnation;
    let mut i: usize = 0;
    while i < state.lineage.len()
        invariant
            i <= state.lineage.len(),
            retained == (head.origin_incarnation == state.incarnation || exists|j: int|
                0 <= j < i && #[trigger] state.lineage@[j] == head.origin_incarnation),
        decreases state.lineage.len() - i,
    {
        if state.lineage[i] == head.origin_incarnation {
            assert(state.lineage@[i as int] == head.origin_incarnation);
            retained = true;
        }
        i = i + 1;
    }
    if *head != state.head || head.last_applied_revision > state.revision || !retained {
        return Err(bad("receipt history origin is outside retained lineage"));
    }
    Ok(())
}

/// What the storage holds around a row: what its ordinal, the ordinal before it and
/// the head's ordinal are committed to.
#[derive(Clone, Copy, Debug)]
pub struct Surroundings {
    pub entry: Option<Ordinal>,
    pub parent: Option<Ordinal>,
    pub top: Option<Ordinal>,
}

/// Whether the row is chained to what stands before it.
pub open spec fn parent_holds(head: ReceiptHead, row: RowView, parent: Option<Ordinal>) -> Result<
    (),
    Error,
> {
    if row.ordinal == 1 {
        if row.previous_sha256 != mutation_receipt::root_of(
            row.receipt.scope.tenant,
            head.origin_incarnation,
        ) {
            Err(mutation_receipt::corrupt("receipt initial root differs"))
        } else {
            Ok(())
        }
    } else {
        match parent {
            None => Err(mutation_receipt::corrupt("receipt ordinal missing")),
            Some(parent) => if row.previous_sha256 != parent.sha256 {
                Err(mutation_receipt::corrupt("receipt parent root differs"))
            } else {
                Ok(())
            },
        }
    }
}

/// Whether a stored row is the committed one of its ordinal.
pub open spec fn committed(head: ReceiptHead, key: Digest, row: RowView, around: Surroundings) -> Result<
    (),
    Error,
> {
    if row.key != key || row.ordinal == 0 {
        Err(mutation_receipt::corrupt("receipt point identity differs"))
    } else if row.ordinal == head.count && row.applied.revision != head.last_applied_revision {
        Err(
            mutation_receipt::corrupt(
                "receipt last applied position differs from selected head",
            ),
        )
    } else {
        match around.entry {
            None => Err(mutation_receipt::corrupt("receipt ordinal missing")),
            Some(entry) => if entry.key != key || entry.sha256 != mutation_receipt::row_sha256(
                row,
            ) {
                Err(mutation_receipt::corrupt("receipt row differs from ordinal commitment"))
            } else {
                match parent_holds(head, row, around.parent) {
                    Err(e) => Err(e),
                    Ok(()) => match around.top {
                        None => Err(mutation_receipt::corrupt("receipt ordinal missing")),
                        Some(top) => if top.sha256 != head.sha256 {
                            Err(mutation_receipt::corrupt("receipt selected root differs"))
                        } else {
                            Ok(())
                        },
                    },
                }
            },
        }
    }
}

/// Whether a stored row is visible under a head. A row may have been persisted
/// before its command was applied: it remains invisible until the head reaches it.
pub open spec fn point_selected(head: ReceiptHead, key: Digest, row: RowView, around: Surroundings) -> Result<
    bool,
    Error,
> {
    if row.ordinal > head.count {
        Ok(false)
    } else {
        match committed(head, key, row, around) {
            Err(e) => Err(e),
            Ok(()) => Ok(true),
        }
    }
}

/// Whether a stored row is visible under a head.
pub fn select_point(head: &ReceiptHead, key: Digest, row: &Row, around: &Surroundings) -> (r: Result<
    bool,
    Error,
>)
    ensures
        r == point_selected(*head, key, row@, *around),
{
    if row.ordinal > head.count {
        return Ok(false);
    }
    if row.key != key || row.ordinal == 0 {
        return Err(bad("receipt point identity differs"));
    }
    if row.ordinal == head.count && row.applied.revision != head.last_applied_revision {
        return Err(bad("receipt last applied position differs from selected head"));
    }
    let entry = match around.entry {
        None => return Err(bad("receipt ordinal missing")),
        Some(entry) => entry,
    };
    if entry.key != key || entry.sha256 != row.sha256() {
        return Err(bad("receipt row differs from ordinal commitment"));
    }
    if row.ordinal == 1 {
        let empty = ReceiptHead::empty(row.receipt.scope.tenant, head.origin_incarnation);
        if row.previous_sha256 != empty.sha256 {
            return Err(bad("receipt initial root differs"));
        }
    } else {
        match around.parent {
            None => return Err(bad("receipt ordinal missing")),
            Some(parent) => {
                if row.previous_sha256 != parent.sha256 {
                    return Err(bad("receipt parent root differs"));
                }
            },
        }
    }
    match around.top {
        None => Err(bad("receipt ordinal missing")),
        Some(top) => {
            if top.sha256 != head.sha256 {
                return Err(bad("receipt selected root differs"));
            }
            Ok(true)
        },
    }
}

/// What a read of one identity finds.
pub enum Stored {
    /// Its decoded form was not reserved.
    Unreserved(Error),
    /// It holds no row.
    Undecoded(Error),
    Decoded(StoredRow),
}

/// A decoded row, why its bytes are not the ones that it is written in, if so, and what
/// the storage holds around it.
pub struct StoredRow {
    pub row: Row,
    pub canonical_refusal: Option<Error>,
    pub around: Surroundings,
}

/// Whether what a read finds is visible under a head. A row behind the head is not
/// looked at any further.
pub open spec fn point_read(head: ReceiptHead, key: Digest, stored: Option<Stored>) -> Result<
    bool,
    Error,
> {
    match stored {
        None => Ok(false),
        Some(Stored::Unreserved(e)) => Err(e),
        Some(Stored::Undecoded(e)) => Err(e),
        Some(Stored::Decoded(found)) => if found.row@.ordinal > head.count {
            Ok(false)
        } else {
            match found.canonical_refusal {
                Some(e) => Err(e),
                None => point_selected(head, key, found.row@, found.around),
            }
        },
    }
}

/// The row of an identity that is visible under a head.
pub fn get_charged<'a>(head: &ReceiptHead, key: Digest, stored: &'a Option<Stored>) -> (r: Result<
    Option<&'a Row>,
    Error,
>)
    ensures
        match point_read(*head, key, *stored) {
            Err(e) => r == Err::<Option<&'a Row>, Error>(e),
            Ok(false) => r == Ok::<Option<&'a Row>, Error>(None),
            Ok(true) => *stored matches Some(Stored::Decoded(found)) && r == Ok::<
                Option<&'a Row>,
                Error,
            >(Some(&found.row)),
        },
{
    match stored {
        None => Ok(None),
        Some(Stored::Unreserved(refusal)) => Err(*refusal),
        Some(Stored::Undecoded(refusal)) => Err(*refusal),
        Some(Stored::Decoded(found)) => {
            if found.row.ordinal > head.count {
                return Ok(None);
            }
            match found.canonical_refusal {
                Some(refusal) => return Err(refusal),
                None => {},
            }
            if select_point(head, key, &found.row, &found.around)? {
                Ok(Some(&found.row))
            } else {
                Ok(None)
            }
        },
    }
}

/// Whether an ordinal's row stands where the ordinal is committed to it. `stored` is
/// what stands under the identity of `entry`.
pub open spec fn ordinal_read(
    head: ReceiptHead,
    ordinal: u64,
    entry: Option<Ordinal>,
    stored: Option<Stored>,
) -> Result<(), Error> {
    if ordinal == 0 || ordinal > head.count {
        Err(mutation_receipt::corrupt("receipt ordinal is outside selected generation"))
    } else {
        match entry {
            None => Err(mutation_receipt::corrupt("receipt ordinal missing")),
            Some(entry) => match point_read(head, entry.key, stored) {
                Err(e) => Err(e),
                Ok(false) => Err(mutation_receipt::corrupt("receipt indexed row missing")),
                Ok(true) => if stored->0->Decoded_0.row@.ordinal != ordinal {
                    Err(mutation_receipt::corrupt("receipt ordinal redirected"))
                } else {
                    Ok(())
                },
            },
        }
    }
}

/// The row of an ordinal.
pub fn row<'a>(
    head: &ReceiptHead,
    ordinal: u64,
    entry: Option<Ordinal>,
    stored: &'a Option<Stored>,
) -> (r: Result<&'a Row, Error>)
    ensures
        match ordinal_read(*head, ordinal, entry, *stored) {
            Err(e) => r == Err::<&'a Row, Error>(e),
            Ok(()) => *stored matches Some(Stored::Decoded(found)) && r == Ok::<&'a Row, Error>(
                &found.row,
            ),
        },
{
    if ordinal == 0 || ordinal > head.count {
        return Err(bad("receipt ordinal is outside selected generation"));
    }
    let entry = match entry {
        None => return Err(bad("receipt ordinal missing")),
        Some(entry) => entry,
    };
    match get_charged(head, entry.key, stored)? {
        None => Err(bad("receipt indexed row missing")),
        Some(row) => {
            if row.ordinal != ordinal {
                return Err(bad("receipt ordinal redirected"));
            }
            Ok(row)
        },
    }
}

/// A receipt is permanent: what is visible under a head stays visible under every
/// head that rows are added to.
pub proof fn lemma_permanent(
    head: ReceiptHead,
    key: Digest,
    row: RowView,
    around: Surroundings,
    next: RowView,
    header: u64,
)
    requires
        point_selected(head, key, row, around) == Ok::<bool, Error>(true),
        mutation_receipt::advanced(head, next, header) is Ok,
    ensures
        ({
            let grown = mutation_receipt::advanced(head, next, header)->Ok_0;
            point_selected(
                grown,
                key,
                row,
                Surroundings {
                    top: Some(
                        Ordinal {
                            key: next.key,
                            sha256: mutation_receipt::row_sha256(next),
                        },
                    ),
                    ..around
                },
            ) == Ok::<bool, Error>(true)
        }),
{
}

/// A row that is added to a head is the one that the new head selects.
pub proof fn lemma_appended(
    head: ReceiptHead,
    row: RowView,
    header: u64,
    parent: Option<Ordinal>,
)
    requires
        mutation_receipt::advanced(head, row, header) is Ok,
        parent_holds(head, row, parent) is Ok,
    ensures
        ({
            let grown = mutation_receipt::advanced(head, row, header)->Ok_0;
            let entry = Some(
                Ordinal { key: row.key, sha256: mutation_receipt::row_sha256(row) },
            );
            point_selected(head, row.key, row, Surroundings { entry, parent, top: entry }) == Ok::<
                bool,
                Error,
            >(false) && point_selected(
                grown,
                row.key,
                row,
                Surroundings { entry, parent, top: entry },
            ) == Ok::<bool, Error>(true)
        }),
{
}

// ---------------------------------------------------------------------
// One more receipt
// ---------------------------------------------------------------------

/// The row that a receipt becomes behind a head.
pub open spec fn row_behind(head: ReceiptHead, receipt: ReceiptView, applied: Applied, record_bytes: u64) -> RowView {
    RowView {
        ordinal: (head.count + 1) as u64,
        key: mutation_receipt::key_of(receipt.scope.principal, receipt.idempotency_key),
        previous_sha256: head.sha256,
        applied,
        receipt,
        record_bytes,
    }
}

/// The head with one more receipt, whose identity was free.
pub open spec fn prepared(
    head: ReceiptHead,
    state_head: ReceiptHead,
    taken: bool,
    receipt: ReceiptView,
    applied: Applied,
    record_bytes: u64,
    context: RowContext,
    max_receipt_bytes: u64,
) -> Result<ReceiptHead, Error> {
    if head != state_head {
        Err(mutation_receipt::corrupt("receipt starting prefix differs"))
    } else if taken {
        Err(mutation_receipt::corrupt("cannot rewrite permanent receipt"))
    } else if head.count == u64::MAX {
        Err(mutation_receipt::corrupt("receipt ordinal overflow"))
    } else {
        let row = row_behind(head, receipt, applied, record_bytes);
        match mutation_receipt::row_checked(row, context) {
            Err(e) => Err(e),
            Ok(()) => match mutation_receipt::advanced(head, row, context.frame_header_bytes) {
                Err(e) => Err(e),
                Ok(next) => if next.encoded_bytes > max_receipt_bytes {
                    Err(mutation_receipt::corrupt("receipt byte admission was not reserved"))
                } else {
                    Ok(next)
                },
            },
        }
    }
}

/// At most one finalized receipt arises from one ordered mutation: its row, and the
/// head behind it.
pub struct Pending {
    pub row: Row,
    pub head: ReceiptHead,
}

/// Makes a receipt the next row. `taken` says whether its identity is visible.
pub fn prepare(
    head: &ReceiptHead,
    state_head: &ReceiptHead,
    taken: bool,
    receipt: Receipt,
    applied: Applied,
    record_bytes: u64,
    context: &RowContext,
    max_receipt_bytes: u64,
) -> (r: Result<Pending, Error>)
    ensures
        match prepared(
            *head,
            *state_head,
            taken,
            receipt@,
            applied,
            record_bytes,
            *context,
            max_receipt_bytes,
        ) {
            Err(e) => r == Err::<Pending, Error>(e),
            Ok(next) => r is Ok && r->Ok_0.head == next && r->Ok_0.row@ == row_behind(
                *head,
                receipt@,
                applied,
                record_bytes,
            ),
        },
{
    if *head != *state_head {
        return Err(bad("receipt starting prefix differs"));
    }
    if taken {
        return Err(bad("cannot rewrite permanent receipt"));
    }
    let ordinal: u64 = match head.count.checked_add(1) {
        None => return Err(bad("receipt ordinal overflow")),
        Some(ordinal) => ordinal,
    };
    let row = Row {
        ordinal,
        key: receipt_key(receipt.scope.principal, receipt.idempotency_key),
        previous_sha256: head.sha256,
        applied,
        receipt,
        record_bytes,
    };
    row.validate(context)?;
    let next = advance(head, &row, context.frame_header_bytes)?;
    if next.encoded_bytes > max_receipt_bytes {
        return Err(bad("receipt byte admission was not reserved"));
    }
    Ok(Pending { row, head: next })
}

/// What is done with a finalized row in the storage.
#[derive(Clone, Copy, Debug, PartialEq, Eq, Structural)]
pub enum PersistStep {
    /// Neither the row nor its ordinal stands: both are written.
    Write,
    /// Both stand as they are to be: an exact replay.
    Keep,
}

pub open spec fn persist_step_of(
    old_row: Option<Seq<u8>>,
    old_index: Option<Seq<u8>>,
    row: Seq<u8>,
    index: Seq<u8>,
) -> Result<PersistStep, Error> {
    match (old_row, old_index) {
        (Some(old_row), Some(old_index)) => if old_row == row && old_index == index {
            Ok(PersistStep::Keep)
        } else {
            Err(
                mutation_receipt::corrupt(
                    "future receipt row differs from exact original command replay",
                ),
            )
        },
        (None, None) => Ok(PersistStep::Write),
        _ => Err(mutation_receipt::corrupt("partially published receipt row/index")),
    }
}

pub open spec fn bytes_of(bytes: Option<Vec<u8>>) -> Option<Seq<u8>> {
    match bytes {
        None => None,
        Some(bytes) => Some(bytes@),
    }
}

/// What is done with a finalized row, given what the storage holds under its
/// identity and its ordinal.
pub fn persist_step(
    old_row: &Option<Vec<u8>>,
    old_index: &Option<Vec<u8>>,
    row: &Vec<u8>,
    index: &Vec<u8>,
) -> (r: Result<PersistStep, Error>)
    ensures
        r == persist_step_of(bytes_of(*old_row), bytes_of(*old_index), row@, index@),
{
    match (old_row, old_index) {
        (Some(held_row), Some(held_index)) => {
            if crate::texts::same(held_row, row) && crate::texts::same(held_index, index) {
                return Ok(PersistStep::Keep);
            }
            Err(bad("future receipt row differs from exact original command replay"))
        },
        (None, None) => Ok(PersistStep::Write),
        _ => Err(bad("partially published receipt row/index")),
    }
}

/// Where the rows of a chain are kept.
#[derive(Clone, Copy, Debug, PartialEq, Eq, Structural)]
pub enum Storage {
    /// Nowhere yet.
    Absent,
    /// In the unpublished staging of a restore.
    Staged,
    Durable,
}

/// What is done with a finalized row, by where rows are kept.
pub open spec fn persist_planned(
    storage: Storage,
    old_row: Option<Seq<u8>>,
    old_index: Option<Seq<u8>>,
    row: Seq<u8>,
    index: Seq<u8>,
) -> Result<PersistStep, Error> {
    match storage {
        Storage::Absent => Err(
            mutation_receipt::corrupt("receipt append storage is not installed"),
        ),
        Storage::Staged => Err(
            mutation_receipt::corrupt("unpublished restore staging cannot serve receipt writes"),
        ),
        Storage::Durable => persist_step_of(old_row, old_index, row, index),
    }
}

/// What is done with a finalized row, by where rows are kept.
pub fn plan_persist(
    storage: Storage,
    old_row: &Option<Vec<u8>>,
    old_index: &Option<Vec<u8>>,
    row: &Vec<u8>,
    index: &Vec<u8>,
) -> (r: Result<PersistStep, Error>)
    ensures
        r == persist_planned(storage, bytes_of(*old_row), bytes_of(*old_index), row@, index@),
{
    match storage {
        Storage::Absent => Err(bad("receipt append storage is not installed")),
        Storage::Staged => {
            Err(bad("unpublished restore staging cannot serve receipt writes"))
        },
        Storage::Durable => persist_step(old_row, old_index, row, index),
    }
}

/// The head behind a mutation whose row, if it has one, stands: `last` is what the
/// storage then holds under the new head's ordinal.
pub open spec fn persisted_head(
    previous: ReceiptHead,
    pending: Option<Pending>,
    last: Option<Ordinal>,
) -> Result<ReceiptHead, Error> {
    match pending {
        None => Ok(previous),
        Some(pending) => match head_checked(
            pending.head,
            pending.row@.receipt.scope.tenant,
            last,
        ) {
            Err(e) => Err(e),
            Ok(()) => Ok(pending.head),
        },
    }
}

/// The head behind a mutation whose row, if it has one, stands.
pub fn persisted(previous: &ReceiptHead, pending: &Option<Pending>, last: Option<Ordinal>) -> (r: Result<
    ReceiptHead,
    Error,
>)
    ensures
        r == persisted_head(*previous, *pending, last),
{
    match pending {
        None => Ok(*previous),
        Some(pending) => {
            check_head(&pending.head, pending.row.receipt.scope.tenant, last)?;
            Ok(pending.head)
        },
    }
}

/// A receipt is committed once. Its first commit writes its row and ordinal, which the
/// head in front of it does not show. The same command, replayed from that head, makes
/// the same row and head, finds both written as they are, and keeps them; any other
/// bytes under its identity or its ordinal are refused. Behind it the head shows the
/// row.
pub proof fn lemma_committed_once(
    head: ReceiptHead,
    state_head: ReceiptHead,
    receipt: ReceiptView,
    applied: Applied,
    record_bytes: u64,
    context: RowContext,
    max_receipt_bytes: u64,
    parent: Option<Ordinal>,
    row_bytes: Seq<u8>,
    index_bytes: Seq<u8>,
    other_row: Seq<u8>,
    other_index: Seq<u8>,
)
    requires
        prepared(
            head,
            state_head,
            false,
            receipt,
            applied,
            record_bytes,
            context,
            max_receipt_bytes,
        ) is Ok,
        parent_holds(head, row_behind(head, receipt, applied, record_bytes), parent) is Ok,
        other_row != row_bytes || other_index != index_bytes,
    ensures
        ({
            let row = row_behind(head, receipt, applied, record_bytes);
            let entry = Some(Ordinal { key: row.key, sha256: mutation_receipt::row_sha256(row) });
            let around = Surroundings { entry, parent, top: entry };
            let next = prepared(
                head,
                state_head,
                false,
                receipt,
                applied,
                record_bytes,
                context,
                max_receipt_bytes,
            )->Ok_0;
            &&& persist_planned(Storage::Durable, None, None, row_bytes, index_bytes) == Ok::<
                PersistStep,
                Error,
            >(PersistStep::Write)
            &&& point_selected(head, row.key, row, around) == Ok::<bool, Error>(false)
            &&& persist_planned(
                Storage::Durable,
                Some(row_bytes),
                Some(index_bytes),
                row_bytes,
                index_bytes,
            ) == Ok::<PersistStep, Error>(PersistStep::Keep)
            &&& persist_planned(
                Storage::Durable,
                Some(row_bytes),
                Some(index_bytes),
                other_row,
                other_index,
            ) == Err::<PersistStep, Error>(
                mutation_receipt::corrupt(
                    "future receipt row differs from exact original command replay",
                ),
            )
            &&& point_selected(next, row.key, row, around) == Ok::<bool, Error>(true)
        }),
{
    lemma_appended(
        head,
        row_behind(head, receipt, applied, record_bytes),
        context.frame_header_bytes,
        parent,
    );
}

// ---------------------------------------------------------------------
// Namespaces
// ---------------------------------------------------------------------

/// Where a checkpoint's rows are kept.
#[derive(Clone, Copy, Debug, PartialEq, Eq, Structural)]
pub struct NamespaceBinding {
    pub namespace: u128,
    pub tenant: Name,
    pub incarnation: u128,
    pub checkpoint_sha256: Digest,
    pub checkpoint_head: ReceiptHead,
}

pub open spec fn installation_checked(
    head: ReceiptHead,
    last: Option<Ordinal>,
    store_tenant: Name,
    state: ReceiptState,
) -> Result<(), Error> {
    if store_tenant != state.tenant || head != state.head {
        Err(mutation_receipt::corrupt("receipt installation identity differs"))
    } else {
        head_checked(head, state.tenant, last)
    }
}

/// Whether a chain can be installed for a state.
pub fn check_installation(
    head: &ReceiptHead,
    last: Option<Ordinal>,
    store_tenant: Name,
    state: &ReceiptState,
) -> (r: Result<(), Error>)
    ensures
        r == installation_checked(*head, last, store_tenant, *state),
{
    if store_tenant != state.tenant || *head != state.head {
        return Err(bad("receipt installation identity differs"));
    }
    check_head(head, state.tenant, last)
}

pub open spec fn reopened(
    head: ReceiptHead,
    state: ReceiptState,
    checkpoint_sha256: Digest,
    binding: Option<NamespaceBinding>,
) -> Result<NamespaceBinding, Error> {
    match binding {
        None => Err(
            mutation_receipt::corrupt("authoritative receipt checkpoint binding missing"),
        ),
        Some(binding) => if binding.tenant != state.tenant || binding.incarnation
            != state.incarnation || binding.checkpoint_sha256 != checkpoint_sha256
            || binding.checkpoint_head != head || binding.namespace == 0 {
            Err(mutation_receipt::corrupt("receipt checkpoint binding differs"))
        } else {
            Ok(binding)
        },
    }
}

/// The namespace that a checkpoint was bound to, when it is opened again.
pub fn reopen(
    head: &ReceiptHead,
    state: &ReceiptState,
    checkpoint_sha256: Digest,
    binding: Option<NamespaceBinding>,
) -> (r: Result<NamespaceBinding, Error>)
    ensures
        r == reopened(*head, *state, checkpoint_sha256, binding),
{
    match binding {
        None => Err(bad("authoritative receipt checkpoint binding missing")),
        Some(binding) => {
            if binding.tenant != state.tenant || binding.incarnation != state.incarnation
                || binding.checkpoint_sha256 != checkpoint_sha256 || binding.checkpoint_head
                != *head || binding.namespace == 0 {
                return Err(bad("receipt checkpoint binding differs"));
            }
            Ok(binding)
        },
    }
}

/// Whether a row of the checkpoint stands in the reopened namespace.
pub open spec fn row_reopened(head: ReceiptHead, entry: Ordinal, stored: Option<Stored>) -> Result<
    (),
    Error,
> {
    match point_read(head, entry.key, stored) {
        Err(e) => Err(e),
        Ok(false) => Err(mutation_receipt::corrupt("checkpoint receipt row missing")),
        Ok(true) => if mutation_receipt::row_sha256(stored->0->Decoded_0.row@) != entry.sha256 {
            Err(mutation_receipt::corrupt("checkpoint receipt physical row differs"))
        } else {
            Ok(())
        },
    }
}

/// Whether a row of the checkpoint stands in the reopened namespace.
pub fn check_reopened(head: &ReceiptHead, entry: &Ordinal, stored: &Option<Stored>) -> (r: Result<
    (),
    Error,
>)
    ensures
        r == row_reopened(*head, *entry, *stored),
{
    match get_charged(head, entry.key, stored)? {
        None => Err(bad("checkpoint receipt row missing")),
        Some(row) => {
            if row.sha256() != entry.sha256 {
                return Err(bad("checkpoint receipt physical row differs"));
            }
            Ok(())
        },
    }
}

pub open spec fn bound_to(
    namespace: u128,
    head: ReceiptHead,
    state: ReceiptState,
    checkpoint_sha256: Digest,
) -> NamespaceBinding {
    NamespaceBinding {
        namespace,
        tenant: state.tenant,
        incarnation: state.incarnation,
        checkpoint_sha256,
        checkpoint_head: head,
    }
}

/// A new namespace for verified staged rows, or for none.
pub fn bind_namespace(
    head: &ReceiptHead,
    state: &ReceiptState,
    checkpoint_sha256: Digest,
    staged: bool,
) -> (r: Result<NamespaceBinding, Error>)
    ensures
        if !staged && head.count != 0 {
            r == Err::<NamespaceBinding, Error>(
                mutation_receipt::corrupt(
                    "namespace installation requires verified staged rows",
                ),
            )
        } else {
            r is Ok && r->Ok_0.namespace != 0 && r->Ok_0 == bound_to(
                r->Ok_0.namespace,
                *head,
                *state,
                checkpoint_sha256,
            )
        },
{
    if !staged && head.count != 0 {
        return Err(bad("namespace installation requires verified staged rows"));
    }
    Ok(
        NamespaceBinding {
            namespace: new_identity(),
            tenant: state.tenant,
            incarnation: state.incarnation,
            checkpoint_sha256,
            checkpoint_head: *head,
        },
    )
}

/// What the namespace holds for a row of the checkpoint.
pub open spec fn found_at(found: Seq<Option<Stored>>, i: int) -> Option<Stored> {
    if i < found.len() {
        found[i]
    } else {
        None
    }
}

/// Whether every row of the checkpoint from `i` on stands in the reopened namespace.
pub open spec fn rows_reopened(chain: ChainView, found: Seq<Option<Stored>>, i: int) -> Result<
    (),
    Error,
>
    decreases chain.index.len() - i,
{
    if i < 0 || i >= chain.index.len() {
        Ok(())
    } else {
        match row_reopened(chain.head, chain.index[i], found_at(found, i)) {
            Err(e) => Err(e),
            Ok(()) => rows_reopened(chain, found, i + 1),
        }
    }
}

/// Where an installed chain stands.
#[derive(Clone, Copy, Debug, PartialEq, Eq, Structural)]
pub enum Installation {
    /// In the namespace that its checkpoint was bound to; nothing is written.
    Reopened(NamespaceBinding),
    /// In a new namespace, which its staged rows replace.
    Replaced(NamespaceBinding),
}

/// What the last ordinal of a chain is committed to.
pub open spec fn last_of(chain: ChainView) -> Option<Ordinal> {
    if chain.index.len() == 0 {
        None
    } else {
        Some(chain.index.last())
    }
}

/// Whether this is what an installation comes to. A namespace that is reopened shows the
/// chain's head, and holds every row of the chain; rows of later commands stay behind
/// its head.
pub open spec fn installed(
    chain: ChainView,
    store_tenant: Name,
    state: ReceiptState,
    checkpoint: Checkpoint,
    r: Result<Installation, Error>,
) -> bool {
    match installation_checked(chain.head, last_of(chain), store_tenant, state) {
        Err(e) => r == Err::<Installation, Error>(e),
        Ok(()) => if checkpoint.reopen {
            r == match reopened(chain.head, state, checkpoint.sha256, checkpoint.selected) {
                Err(e) => Err::<Installation, Error>(e),
                Ok(binding) => match head_checked(chain.head, state.tenant, checkpoint.last) {
                    Err(e) => Err(e),
                    Ok(()) => match rows_reopened(chain, checkpoint.found@, 0) {
                        Err(e) => Err(e),
                        Ok(()) => Ok(Installation::Reopened(binding)),
                    },
                },
            }
        } else if !checkpoint.staged && chain.head.count != 0 {
            r == Err::<Installation, Error>(
                mutation_receipt::corrupt(
                    "namespace installation requires verified staged rows",
                ),
            )
        } else {
            r matches Ok(Installation::Replaced(binding)) && binding.namespace != 0 && binding
                == bound_to(binding.namespace, chain.head, state, checkpoint.sha256)
        },
    }
}

/// The checkpoint that a chain is installed at: its digest, the binding that is
/// selected under it, whether it is reopened, what the bound namespace then holds under
/// the head's ordinal and for each row of the chain, and whether the rows are staged.
pub struct Checkpoint {
    pub sha256: Digest,
    pub selected: Option<NamespaceBinding>,
    pub reopen: bool,
    pub last: Option<Ordinal>,
    pub found: Vec<Option<Stored>>,
    pub staged: bool,
}

/// Installs a verified chain at a checkpoint: in the namespace that was bound to it, or
/// in a new one.
pub fn prepare_install(
    chain: &Prefix,
    store_tenant: Name,
    state: &ReceiptState,
    checkpoint: &Checkpoint,
) -> (r: Result<Installation, Error>)
    ensures
        installed(chain@, store_tenant, *state, *checkpoint, r),
{
    let head = chain.head;
    let last = if chain.index.len() == 0 {
        None
    } else {
        Some(chain.index[chain.index.len() - 1])
    };
    check_installation(&head, last, store_tenant, state)?;
    if checkpoint.reopen {
        let binding = reopen(&head, state, checkpoint.sha256, checkpoint.selected)?;
        check_head(&head, state.tenant, checkpoint.last)?;
        let found = &checkpoint.found;
        let absent: Option<Stored> = None;
        let mut i: usize = 0;
        while i < chain.index.len()
            invariant
                i <= chain.index.len(),
                head == chain.head,
                found == checkpoint.found,
                checkpoint.reopen,
                absent == None::<Stored>,
                installation_checked(head, last_of(chain@), store_tenant, *state) is Ok,
                reopened(head, *state, checkpoint.sha256, checkpoint.selected) == Ok::<
                    NamespaceBinding,
                    Error,
                >(binding),
                head_checked(head, state.tenant, checkpoint.last) is Ok,
                rows_reopened(chain@, found@, 0) == rows_reopened(chain@, found@, i as int),
            decreases chain.index.len() - i,
        {
            let stored = if i < found.len() {
                &found[i]
            } else {
                &absent
            };
            check_reopened(&head, &chain.index[i], stored)?;
            i = i + 1;
        }
        return Ok(Installation::Reopened(binding));
    }
    let binding = bind_namespace(&head, state, checkpoint.sha256, checkpoint.staged)?;
    Ok(Installation::Replaced(binding))
}

/// What was installed is opened again: the binding that an installation leaves under
/// its checkpoint is the one that reopening selects, while the rows stand.
pub proof fn lemma_reopened(
    head: ReceiptHead,
    state: ReceiptState,
    sha256: Digest,
    binding: NamespaceBinding,
)
    requires
        binding.namespace != 0,
        binding == bound_to(binding.namespace, head, state, sha256),
    ensures
        reopened(head, state, sha256, Some(binding)) == Ok::<NamespaceBinding, Error>(binding),
{
}

pub open spec fn recaptured(
    head: ReceiptHead,
    state: ReceiptState,
    binding: Option<NamespaceBinding>,
    last: Option<Ordinal>,
    checkpoint_sha256: Digest,
) -> Result<NamespaceBinding, Error> {
    if head != state.head {
        Err(mutation_receipt::corrupt("receipt capture checkpoint differs"))
    } else {
        match binding {
            None => Err(
                mutation_receipt::corrupt(
                    "receipt snapshot capture requires installed durable ownership",
                ),
            ),
            Some(binding) => match head_checked(head, state.tenant, last) {
                Err(e) => Err(e),
                Ok(()) => Ok(
                    NamespaceBinding { checkpoint_sha256, checkpoint_head: head, ..binding },
                ),
            },
        }
    }
}

/// Binds a new checkpoint to this exact immutable prefix, also when later commands
/// have already appended more rows.
pub fn checkpoint_binding(
    head: &ReceiptHead,
    state: &ReceiptState,
    binding: Option<NamespaceBinding>,
    last: Option<Ordinal>,
    checkpoint_sha256: Digest,
) -> (r: Result<NamespaceBinding, Error>)
    ensures
        r == recaptured(*head, *state, binding, last, checkpoint_sha256),
{
    if *head != state.head {
        return Err(bad("receipt capture checkpoint differs"));
    }
    match binding {
        None => Err(bad("receipt snapshot capture requires installed durable ownership")),
        Some(binding) => {
            check_head(head, state.tenant, last)?;
            Ok(
                NamespaceBinding {
                    namespace: binding.namespace,
                    tenant: binding.tenant,
                    incarnation: binding.incarnation,
                    checkpoint_sha256,
                    checkpoint_head: *head,
                },
            )
        },
    }
}

/// How large a scratch table for so many canonical bytes may become.
pub fn scratch_limit(canonical_bytes: u64) -> (r: Result<u64, Error>)
    ensures
        r == if canonical_bytes * 8 + 67108864 > u64::MAX {
            Err(mutation_receipt::corrupt("receipt scratch table budget overflow"))
        } else {
            Ok((canonical_bytes * 8 + 67108864) as u64)
        },
{
    let overflow = bad("receipt scratch table budget overflow");
    match canonical_bytes.checked_mul(8) {
        None => Err(overflow),
        Some(bytes) => match bytes.checked_add(67108864) {
            None => Err(overflow),
            Some(limit) => Ok(limit),
        },
    }
}

} // verus!
