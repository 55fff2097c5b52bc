//! What a retained receipt is held to, what the chain of receipts is, when a row is one of
//! it, and what its digest is taken over.
use vstd::prelude::*;

use crate::digest;
use crate::digest::{Digest, Name};
use crate::encoding;
use crate::errors::{Error, ErrorCode};
use crate::mutation_receipt;
use crate::mutation_receipt::{
    Applied, NameRefusal, Ordinal, OutcomeView, ReceiptHead, ReceiptView, RowContext, RowView,
    VersionView,
};
use crate::receipt_chain;
use crate::receipt_chain::{
    ChainView, NamespaceBinding, PersistStep, ReceiptState, Storage, Stored, Surroundings,
};
use crate::receipt_paths;
use crate::texts;

verus! {

/// Whether the collection stands behind the one before it, and is not refused.
pub open spec fn collection_holds(names: Seq<Seq<u8>>, refused: Option<NameRefusal>, k: int) -> bool {
    &&& k > 0 ==> texts::less(names[k - 1], names[k])
    &&& !(refused is Some && refused->0 is Collection && refused->0->Collection_at == k)
}

/// Whether the collections ascend, and none of them is refused.
pub open spec fn collections_hold(names: Seq<Seq<u8>>, refused: Option<NameRefusal>) -> bool {
    forall|k: int| 0 <= k < names.len() ==> #[trigger] collection_holds(names, refused, k)
}

proof fn lemma_collections_from(names: Seq<Seq<u8>>, refused: Option<NameRefusal>, i: int)
    requires
        0 <= i <= names.len(),
    ensures
        mutation_receipt::collections_checked(names, refused, i) is Ok <==> forall|k: int|
            i <= k < names.len() ==> #[trigger] collection_holds(names, refused, k),
    decreases names.len() - i,
{
    if i < names.len() {
        lemma_collections_from(names, refused, i + 1);
        assert(collection_holds(names, refused, i) <==> mutation_receipt::collection_refusal(
            refused,
            i,
        ) is None && (i > 0 ==> texts::less(names[i - 1], names[i])));
    }
}

/// Whether the version is of the row's revision, and its path names a document.
pub open spec fn version_holds(row: RowView, versions: Seq<VersionView>, refused: Option<NameRefusal>, k: int) -> bool {
    mutation_receipt::version_checked(row, versions[k], refused, k) is Ok
}

/// The collection that the version's path names.
pub open spec fn collection_at(row: RowView, versions: Seq<VersionView>, refused: Option<NameRefusal>, k: int) -> Seq<u8> {
    mutation_receipt::version_checked(row, versions[k], refused, k)->Ok_0
}

proof fn lemma_versions_from(
    row: RowView,
    versions: Seq<VersionView>,
    refused: Option<NameRefusal>,
    i: int,
    found: Seq<Seq<u8>>,
)
    requires
        0 <= i <= versions.len(),
        found.len() == i,
    ensures
        ({
            let r = mutation_receipt::versions_checked(row, versions, refused, i, found);
            &&& r is Ok <==> forall|k: int|
                i <= k < versions.len() ==> #[trigger] version_holds(row, versions, refused, k)
            &&& r is Ok ==> {
                &&& r->Ok_0.len() == versions.len()
                &&& forall|k: int| 0 <= k < i ==> #[trigger] r->Ok_0[k] == found[k]
                &&& forall|k: int|
                    i <= k < versions.len() ==> #[trigger] r->Ok_0[k] == collection_at(
                        row,
                        versions,
                        refused,
                        k,
                    )
            }
        }),
    decreases versions.len() - i,
{
    if i < versions.len() {
        assert(version_holds(row, versions, refused, i) == (mutation_receipt::version_checked(
            row,
            versions[i],
            refused,
            i,
        ) is Ok));
        if version_holds(row, versions, refused, i) {
            let more = found.push(collection_at(row, versions, refused, i));
            lemma_versions_from(row, versions, refused, i + 1, more);
            let r = mutation_receipt::versions_checked(row, versions, refused, i, found);
            if r is Ok {
                assert(r->Ok_0[i] == more[i]);
                assert forall|k: int| 0 <= k < i implies #[trigger] r->Ok_0[k] == found[k] by {
                    assert(r->Ok_0[k] == more[k]);
                }
            }
        }
    }
}

/// A version holds exactly if it is the row's own revision, and its path is no longer than
/// a path may be and names a collection and a document that are not refused.
pub proof fn lemma_version(row: RowView, version: VersionView, refused: Option<NameRefusal>, i: int)
    ensures
        ({
            let named = receipt_paths::parsed(
                version.path,
                mutation_receipt::path_collection_refusal(refused, i),
                mutation_receipt::path_identity_refusal(refused, i),
            );
            let r = mutation_receipt::version_checked(row, version, refused, i);
            &&& r is Ok <==> version.path.len() <= 1026 && version.version == row.applied.revision
                && named is Ok
            &&& r is Ok ==> r->Ok_0 == named->Ok_0.0
        }),
{
}

/// Whether the row's versions are of its revision, and of exactly its collections.
pub open spec fn written_holds(
    row: RowView,
    versions: Seq<VersionView>,
    refused: Option<NameRefusal>,
) -> bool {
    &&& 1 <= versions.len() <= 256
    &&& forall|k: int|
        0 <= k < versions.len() ==> #[trigger] version_holds(row, versions, refused, k)
    &&& forall|k: int|
        0 <= k < versions.len() ==> row.receipt.collections.contains(
            #[trigger] collection_at(row, versions, refused, k),
        )
    &&& forall|name: Seq<u8>| #[trigger]
        row.receipt.collections.contains(name) ==> exists|k: int|
            0 <= k < versions.len() && #[trigger] collection_at(row, versions, refused, k) == name
}

/// Whether the row may stand in a chain of receipts.
pub open spec fn row_holds(row: RowView, context: RowContext) -> bool {
    &&& row.ordinal > 0
    &&& context.position_refusal is None
    &&& context.identity_refusal is None
    &&& row.receipt.scope.incarnation == row.applied.incarnation
    &&& row.receipt.recorded_revision == row.applied.revision
    &&& 1 <= row.receipt.collections.len() <= 256
    &&& collections_hold(row.receipt.collections, context.name_refusal)
    &&& row.receipt.outcome matches OutcomeView::Written { revision, versions } ==> written_holds(
        row,
        versions,
        context.name_refusal,
    )
    &&& row.record_bytes <= 2097152
    &&& row.record_bytes + context.frame_header_bytes <= u64::MAX
}

/// A row stands exactly if it has a place, is of the incarnation and the revision that
/// applied it, lists its collections in order and once each, as many as a command may
/// have, and, where it wrote, a version of that revision in every collection and in no
/// other.
pub proof fn lemma_row_stands(row: RowView, context: RowContext)
    ensures
        mutation_receipt::row_checked(row, context) is Ok <==> row_holds(row, context),
{
    let names = row.receipt.collections;
    lemma_collections_from(names, context.name_refusal, 0);
    match row.receipt.outcome {
        OutcomeView::Refused { code, message } => {},
        OutcomeView::Written { revision, versions } => {
            let refused = context.name_refusal;
            lemma_versions_from(row, versions, refused, 0, Seq::empty());
            let r = mutation_receipt::versions_checked(row, versions, refused, 0, Seq::empty());
            if r is Ok {
                let found = r->Ok_0;
                if mutation_receipt::same_names(found, names) {
                    assert forall|k: int| 0 <= k < versions.len() implies names.contains(
                        #[trigger] collection_at(row, versions, refused, k),
                    ) by {
                        assert(found[k] == collection_at(row, versions, refused, k));
                        assert(found.contains(found[k]));
                    }
                    assert forall|name: Seq<u8>| #[trigger] names.contains(name) implies exists|
                        k: int,
                    |
                        0 <= k < versions.len() && #[trigger] collection_at(
                            row,
                            versions,
                            refused,
                            k,
                        ) == name by {
                        assert(found.contains(name));
                        let k = found.index_of(name);
                        assert(collection_at(row, versions, refused, k) == name);
                    }
                } else {
                    let name = choose|name: Seq<u8>| #[trigger]
                        found.contains(name) != names.contains(name);
                    if found.contains(name) {
                        let k = found.index_of(name);
                        assert(collection_at(row, versions, refused, k) == name);
                    } else if written_holds(row, versions, refused) {
                        let k = choose|k: int|
                            0 <= k < versions.len() && #[trigger] collection_at(
                                row,
                                versions,
                                refused,
                                k,
                            ) == name;
                        assert(found[k] == name);
                    }
                }
            }
        },
    }
}

/// A row goes behind a head exactly if it is the next by its place, by the digest in front
/// of it and by its revision, and the bytes of all rows can be counted. The head then
/// counts it and commits to it, and keeps its origin.
pub proof fn lemma_advanced(head: ReceiptHead, row: RowView, header: u64)
    ensures
        ({
            let r = mutation_receipt::advanced(head, row, header);
            &&& r is Ok <==> {
                &&& head.count < u64::MAX
                &&& row.ordinal == head.count + 1
                &&& row.previous_sha256 == head.sha256
                &&& head.last_applied_revision < row.applied.revision
                &&& row.record_bytes <= 2097152
                &&& head.encoded_bytes + row.record_bytes + header <= u64::MAX
            }
            &&& r is Ok ==> {
                &&& r->Ok_0.count == head.count + 1
                &&& r->Ok_0.sha256 == mutation_receipt::row_sha256(row)
                &&& r->Ok_0.last_applied_revision == row.applied.revision
                &&& r->Ok_0.encoded_bytes == head.encoded_bytes + row.record_bytes + header
                &&& r->Ok_0.origin_incarnation == head.origin_incarnation
            }
        }),
{
}

/// A row is added to a chain exactly if it stands, its identity is new, and it goes behind
/// the head. The chain then ends with it, and what stood before it stays; identities stay
/// distinct, and the head stays the chain's.
pub proof fn lemma_pushed(chain: ChainView, row: RowView, context: RowContext)
    ensures
        ({
            let r = receipt_chain::pushed(chain, row, context);
            &&& r is Ok <==> {
                &&& row_holds(row, context)
                &&& forall|i: int|
                    0 <= i < chain.index.len() ==> (#[trigger] chain.index[i]).key != row.key
                &&& mutation_receipt::advanced(chain.head, row, context.frame_header_bytes) is Ok
            }
            &&& r is Ok ==> {
                &&& r->Ok_0.tenant == chain.tenant
                &&& Ok::<ReceiptHead, Error>(r->Ok_0.head) == mutation_receipt::advanced(
                    chain.head,
                    row,
                    context.frame_header_bytes,
                )
                &&& r->Ok_0.index.len() == chain.index.len() + 1
                &&& r->Ok_0.index.last().key == row.key
                &&& r->Ok_0.index.last().sha256 == mutation_receipt::row_sha256(row)
                &&& forall|i: int|
                    0 <= i < chain.index.len() ==> #[trigger] r->Ok_0.index[i] == chain.index[i]
                &&& receipt_chain::distinct(chain.index) ==> receipt_chain::distinct(r->Ok_0.index)
                &&& receipt_chain::heads(chain) ==> receipt_chain::heads(r->Ok_0)
            }
        }),
{
    lemma_row_stands(row, context);
    assert(receipt_chain::has_key(chain.index, row.key) <==> exists|i: int|
        0 <= i < chain.index.len() && (#[trigger] chain.index[i]).key == row.key);
}

/// A head is a chain's exactly if it is the empty one of its origin, or commits to the
/// last row and counts bytes and a revision.
pub proof fn lemma_head(head: ReceiptHead, tenant: Name, last: Option<Ordinal>)
    ensures
        receipt_chain::head_checked(head, tenant, last) is Ok <==> if head.count == 0 {
            &&& head.sha256 == mutation_receipt::root_of(tenant, head.origin_incarnation)
            &&& head.encoded_bytes == 0
            &&& head.last_applied_revision == 0
        } else {
            &&& head.encoded_bytes > 0
            &&& head.last_applied_revision > 0
            &&& last is Some
            &&& last->0.sha256 == head.sha256
        },
{
}

/// A state holds its receipts exactly if its head is the chain's, no newer than the state,
/// and of the state's own incarnation or of one that it was restored from.
pub proof fn lemma_state(head: ReceiptHead, last: Option<Ordinal>, state: ReceiptState)
    ensures
        receipt_chain::state_checked(head, last, state) is Ok <==> {
            &&& receipt_chain::head_checked(head, state.tenant, last) is Ok
            &&& head == state.head
            &&& head.last_applied_revision <= state.revision
            &&& head.origin_incarnation == state.incarnation || exists|k: int|
                0 <= k < state.lineage@.len() && #[trigger] state.lineage@[k]
                    == head.origin_incarnation
        },
{
}

/// Whether the row is one of the chain that ends in the head.
pub open spec fn of_chain(head: ReceiptHead, key: Digest, row: RowView, around: Surroundings) -> bool {
    &&& row.key == key
    &&& row.ordinal > 0
    &&& row.ordinal == head.count ==> row.applied.revision == head.last_applied_revision
    &&& around.entry is Some
    &&& around.entry->0.key == key
    &&& around.entry->0.sha256 == mutation_receipt::row_sha256(row)
    &&& if row.ordinal == 1 {
        row.previous_sha256 == mutation_receipt::root_of(
            row.receipt.scope.tenant,
            head.origin_incarnation,
        )
    } else {
        around.parent is Some && row.previous_sha256 == around.parent->0.sha256
    }
    &&& around.top is Some
    &&& around.top->0.sha256 == head.sha256
}

/// A row is selected exactly if it stands within the head and is committed to: by its
/// ordinal, by the row or the root before it, and by the last ordinal. One behind the head
/// is not there yet, and one within it that is not committed to is an error, never an
/// absence.
pub proof fn lemma_point(head: ReceiptHead, key: Digest, row: RowView, around: Surroundings)
    ensures
        ({
            let r = receipt_chain::point_selected(head, key, row, around);
            &&& r == Ok::<bool, Error>(false) <==> row.ordinal > head.count
            &&& r == Ok::<bool, Error>(true) <==> row.ordinal <= head.count && of_chain(
                head,
                key,
                row,
                around,
            )
        }),
{
}

/// Whether nothing of a receipt is there under the head.
pub open spec fn is_absent(head: ReceiptHead, stored: Option<Stored>) -> bool {
    ||| stored is None
    ||| stored matches Some(Stored::Decoded(found)) && found.row@.ordinal > head.count
}

/// A receipt is absent exactly if nothing is stored, or only a row behind the head; it is
/// there exactly if what is stored is canonical and of the chain. Anything else is an
/// error.
pub proof fn lemma_read(head: ReceiptHead, key: Digest, stored: Option<Stored>)
    ensures
        ({
            let r = receipt_chain::point_read(head, key, stored);
            &&& r == Ok::<bool, Error>(false) <==> is_absent(head, stored)
            &&& r == Ok::<bool, Error>(true) <==> {
                &&& stored is Some
                &&& stored->0 is Decoded
                &&& stored->0->Decoded_0.row@.ordinal <= head.count
                &&& stored->0->Decoded_0.canonical_refusal is None
                &&& of_chain(
                    head,
                    key,
                    stored->0->Decoded_0.row@,
                    stored->0->Decoded_0.around,
                )
            }
        }),
{
    if let Some(Stored::Decoded(found)) = stored {
        lemma_point(head, key, found.row@, found.around);
    }
}

/// A row is read by its ordinal exactly if the ordinal is within the head, and what is
/// stored under the key that stands there is there and has that very ordinal.
pub proof fn lemma_ordinal(
    head: ReceiptHead,
    ordinal: u64,
    entry: Option<Ordinal>,
    stored: Option<Stored>,
)
    ensures
        receipt_chain::ordinal_read(head, ordinal, entry, stored) is Ok <==> {
            &&& 1 <= ordinal <= head.count
            &&& entry is Some
            &&& receipt_chain::point_read(head, entry->0.key, stored) == Ok::<bool, Error>(true)
            &&& stored->0->Decoded_0.row@.ordinal == ordinal
        },
{
}

/// A receipt is prepared exactly behind the state's own head, under an identity that is
/// free, as a row that stands, within the bytes that receipts may take. Its row is the next
/// of the chain, and holds the receipt and where it was applied.
pub proof fn lemma_prepared(
    head: ReceiptHead,
    state_head: ReceiptHead,
    taken: bool,
    receipt: ReceiptView,
    applied: Applied,
    record_bytes: u64,
    context: RowContext,
    max_receipt_bytes: u64,
)
    ensures
        ({
            let row = receipt_chain::row_behind(head, receipt, applied, record_bytes);
            let r = receipt_chain::prepared(
                head,
                state_head,
                taken,
                receipt,
                applied,
                record_bytes,
                context,
                max_receipt_bytes,
            );
            &&& r is Ok <==> {
                &&& head == state_head
                &&& !taken
                &&& row_holds(row, context)
                &&& head.last_applied_revision < applied.revision
                &&& head.count < u64::MAX
                &&& head.encoded_bytes + record_bytes + context.frame_header_bytes <= u64::MAX
                &&& head.encoded_bytes + record_bytes + context.frame_header_bytes
                    <= max_receipt_bytes
            }
            &&& r is Ok ==> {
                &&& row.ordinal == head.count + 1
                &&& row.previous_sha256 == head.sha256
                &&& row.receipt == receipt
                &&& row.applied == applied
                &&& row.record_bytes == record_bytes
                &&& row.key == mutation_receipt::key_of(
                    receipt.scope.principal,
                    receipt.idempotency_key,
                )
                &&& r == mutation_receipt::advanced(head, row, context.frame_header_bytes)
            }
        }),
{
    let row = receipt_chain::row_behind(head, receipt, applied, record_bytes);
    lemma_row_stands(row, context);
}

/// A row and its ordinal are written where neither stands, and kept where both stand as
/// they are; one alone, or any other bytes, are refused; and nothing is written but into
/// durable storage.
pub proof fn lemma_persisted(
    storage: Storage,
    old_row: Option<Seq<u8>>,
    old_index: Option<Seq<u8>>,
    row: Seq<u8>,
    index: Seq<u8>,
)
    ensures
        ({
            let r = receipt_chain::persist_planned(storage, old_row, old_index, row, index);
            &&& r == Ok::<PersistStep, Error>(PersistStep::Write) <==> storage is Durable && old_row
                is None && old_index is None
            &&& r == Ok::<PersistStep, Error>(PersistStep::Keep) <==> storage is Durable && old_row
                == Some(row) && old_index == Some(index)
        }),
{
}

/// A checkpoint is opened again exactly under the binding that names a namespace, this
/// tenant and incarnation, this checkpoint and this very head.
pub proof fn lemma_binding(
    head: ReceiptHead,
    state: ReceiptState,
    sha256: Digest,
    binding: Option<NamespaceBinding>,
)
    ensures
        ({
            let r = receipt_chain::reopened(head, state, sha256, binding);
            &&& r is Ok <==> {
                &&& binding is Some
                &&& binding->0.namespace != 0
                &&& binding->0.tenant == state.tenant
                &&& binding->0.incarnation == state.incarnation
                &&& binding->0.checkpoint_sha256 == sha256
                &&& binding->0.checkpoint_head == head
            }
            &&& r is Ok ==> Some(r->Ok_0) == binding
        }),
{
}

/// A row of a checkpoint is opened again exactly if it is there and is the very row that
/// its ordinal commits to.
pub proof fn lemma_row_reopened(head: ReceiptHead, entry: Ordinal, stored: Option<Stored>)
    ensures
        receipt_chain::row_reopened(head, entry, stored) is Ok <==> {
            &&& receipt_chain::point_read(head, entry.key, stored) == Ok::<bool, Error>(true)
            &&& mutation_receipt::row_sha256(stored->0->Decoded_0.row@) == entry.sha256
        },
{
}

/// A new checkpoint is bound exactly to the state's own head, where the chain is and a
/// namespace is held. It names the checkpoint and the head, and keeps the namespace.
pub proof fn lemma_recaptured(
    head: ReceiptHead,
    state: ReceiptState,
    binding: Option<NamespaceBinding>,
    last: Option<Ordinal>,
    sha256: Digest,
)
    ensures
        ({
            let r = receipt_chain::recaptured(head, state, binding, last, sha256);
            &&& r is Ok <==> head == state.head && binding is Some && receipt_chain::head_checked(
                head,
                state.tenant,
                last,
            ) is Ok
            &&& r is Ok ==> {
                &&& r->Ok_0.namespace == binding->0.namespace
                &&& r->Ok_0.tenant == binding->0.tenant
                &&& r->Ok_0.incarnation == binding->0.incarnation
                &&& r->Ok_0.checkpoint_sha256 == sha256
                &&& r->Ok_0.checkpoint_head == head
            }
        }),
{
}

/// Receipts are installed exactly from a store of the same tenant, under the state's own
/// head, where that is the chain's.
pub proof fn lemma_installation(
    head: ReceiptHead,
    last: Option<Ordinal>,
    store_tenant: Name,
    state: ReceiptState,
)
    ensures
        receipt_chain::installation_checked(head, last, store_tenant, state) is Ok <==> {
            &&& store_tenant == state.tenant
            &&& head == state.head
            &&& receipt_chain::head_checked(head, state.tenant, last) is Ok
        },
{
}

// ---------------------------------------------------------------------
// Paths
// ---------------------------------------------------------------------

proof fn lemma_decoded(path: Seq<u8>, i: int, end: int, name: Seq<u8>)
    requires
        0 <= i <= end <= path.len(),
        receipt_paths::decoded(path, i, end, name) is Ok,
    ensures
        receipt_paths::escape(receipt_paths::decoded(path, i, end, name)->Ok_0)
            == receipt_paths::escape(name) + path.subrange(i, end),
    decreases end - i,
{
    let r = receipt_paths::decoded(path, i, end, name)->Ok_0;
    if i >= end {
        assert(path.subrange(i, end) =~= Seq::empty());
        assert(receipt_paths::escape(name) + path.subrange(i, end) =~= receipt_paths::escape(name));
    } else {
        let (byte, next): (u8, int) = if path[i] == receipt_paths::TILDE {
            if path[i + 1] == receipt_paths::ZERO {
                (receipt_paths::TILDE, i + 2)
            } else {
                (receipt_paths::SLASH, i + 2)
            }
        } else {
            (path[i], i + 1)
        };
        let more = name.push(byte);
        lemma_decoded(path, next, end, more);
        assert(more.drop_last() =~= name);
        assert(receipt_paths::escape(more) == receipt_paths::escape(name)
            + receipt_paths::escape_byte(byte));
        assert(receipt_paths::escape_byte(byte) + path.subrange(next, end) =~= path.subrange(
            i,
            end,
        ));
        assert(receipt_paths::escape(name) + receipt_paths::escape_byte(byte) + path.subrange(
            next,
            end,
        ) =~= receipt_paths::escape(name) + (receipt_paths::escape_byte(byte) + path.subrange(
            next,
            end,
        )));
    }
}

proof fn lemma_slash(path: Seq<u8>, i: int)
    requires
        0 <= i,
    ensures
        receipt_paths::slash_at(path, i) matches Some(at) ==> i <= at < path.len() && path[at]
            == receipt_paths::SLASH,
    decreases path.len() - i,
{
    if i < path.len() && path[i] != receipt_paths::SLASH {
        lemma_slash(path, i + 1);
    }
}

/// A path that names a document is the path of that document: no other spelling of it is
/// taken.
pub proof fn lemma_one_spelling(
    path: Seq<u8>,
    collection_refusal: Option<Error>,
    id_refusal: Option<Error>,
)
    ensures
        receipt_paths::parsed(path, collection_refusal, id_refusal) matches Ok((collection, id))
            ==> path == receipt_paths::path_of(collection, id) && collection_refusal is None
            && id_refusal is None,
{
    if receipt_paths::parsed(path, collection_refusal, id_refusal) is Ok {
        let (collection, id) = receipt_paths::parsed(
            path,
            collection_refusal,
            id_refusal,
        )->Ok_0;
        let at = receipt_paths::slash_at(path, 1)->0;
        lemma_slash(path, 1);
        lemma_decoded(path, 1, at, Seq::empty());
        lemma_decoded(path, at + 1, path.len() as int, Seq::empty());
        assert(receipt_paths::escape(Seq::empty()) =~= Seq::empty());
        assert(receipt_paths::escape(collection) =~= path.subrange(1, at));
        assert(receipt_paths::escape(id) =~= path.subrange(at + 1, path.len() as int));
        assert(path =~= receipt_paths::path_of(collection, id));
    }
}

// ---------------------------------------------------------------------
// What a row's digest is taken over
// ---------------------------------------------------------------------

proof fn lemma_split(p: Seq<u128>, x: Seq<u128>, q: Seq<u128>, y: Seq<u128>)
    requires
        p + x == q + y,
        p.len() == q.len(),
    ensures
        p == q,
        x == y,
{
    assert(p =~= (p + x).take(p.len() as int));
    assert(q =~= (q + y).take(q.len() as int));
    assert(x =~= (p + x).skip(p.len() as int));
    assert(y =~= (q + y).skip(q.len() as int));
}

/// Whether the texts are as many, and have the same digests.
pub open spec fn same_texts(a: Seq<Seq<u8>>, b: Seq<Seq<u8>>) -> bool {
    &&& a.len() == b.len()
    &&& forall|i: int|
        0 <= i < a.len() ==> digest::digest_of(#[trigger] a[i]) == digest::digest_of(b[i])
}

proof fn lemma_text_words(a: Seq<u8>, b: Seq<u8>)
    requires
        mutation_receipt::text_words(a) == mutation_receipt::text_words(b),
    ensures
        digest::digest_of(a) == digest::digest_of(b),
{
    assert(mutation_receipt::text_words(a)[0] == mutation_receipt::text_words(b)[0]);
    assert(mutation_receipt::text_words(a)[1] == mutation_receipt::text_words(b)[1]);
}

proof fn lemma_names_len(a: Seq<Seq<u8>>, n: int)
    requires
        0 <= n,
    ensures
        mutation_receipt::names_words(a, n).len() == 2 * n,
    decreases n,
{
    if n > 0 {
        lemma_names_len(a, n - 1);
    }
}

proof fn lemma_names(a: Seq<Seq<u8>>, b: Seq<Seq<u8>>, n: int)
    requires
        0 <= n <= a.len(),
        n <= b.len(),
        mutation_receipt::names_words(a, n) == mutation_receipt::names_words(b, n),
    ensures
        forall|i: int|
            0 <= i < n ==> digest::digest_of(#[trigger] a[i]) == digest::digest_of(b[i]),
    decreases n,
{
    if n > 0 {
        lemma_names_len(a, n - 1);
        lemma_names_len(b, n - 1);
        lemma_split(
            mutation_receipt::names_words(a, n - 1),
            mutation_receipt::text_words(a[n - 1]),
            mutation_receipt::names_words(b, n - 1),
            mutation_receipt::text_words(b[n - 1]),
        );
        lemma_text_words(a[n - 1], b[n - 1]);
        lemma_names(a, b, n - 1);
    }
}

proof fn lemma_versions_len(a: Seq<VersionView>, n: int)
    requires
        0 <= n,
    ensures
        mutation_receipt::versions_words(a, n).len() == 3 * n,
    decreases n,
{
    if n > 0 {
        lemma_versions_len(a, n - 1);
    }
}

proof fn lemma_versions(a: Seq<VersionView>, b: Seq<VersionView>, n: int)
    requires
        0 <= n <= a.len(),
        n <= b.len(),
        mutation_receipt::versions_words(a, n) == mutation_receipt::versions_words(b, n),
    ensures
        forall|i: int|
            0 <= i < n ==> (#[trigger] a[i]).version == b[i].version && digest::digest_of(a[i].path)
                == digest::digest_of(b[i].path),
    decreases n,
{
    if n > 0 {
        lemma_versions_len(a, n - 1);
        lemma_versions_len(b, n - 1);
        let p = mutation_receipt::versions_words(a, n - 1);
        let q = mutation_receipt::versions_words(b, n - 1);
        let u = mutation_receipt::text_words(a[n - 1].path);
        let v = mutation_receipt::text_words(b[n - 1].path);
        let s = seq![a[n - 1].version as u128];
        let t = seq![b[n - 1].version as u128];
        lemma_split(p + u, s, q + v, t);
        assert(s[0] == t[0]);
        lemma_split(p, u, q, v);
        lemma_text_words(a[n - 1].path, b[n - 1].path);
        lemma_versions(a, b, n - 1);
    }
}

/// Whether the outcomes are one, but for texts of one digest.
pub open spec fn same_outcome(a: OutcomeView, b: OutcomeView) -> bool {
    match (a, b) {
        (
            OutcomeView::Written { revision: r, versions: v },
            OutcomeView::Written { revision: q, versions: w },
        ) => {
            &&& r == q
            &&& v.len() == w.len()
            &&& forall|i: int|
                0 <= i < v.len() ==> (#[trigger] v[i]).version == w[i].version && digest::digest_of(
                    v[i].path,
                ) == digest::digest_of(w[i].path)
        },
        (
            OutcomeView::Refused { code: c, message: m },
            OutcomeView::Refused { code: d, message: n },
        ) => c == d && digest::digest_of(m) == digest::digest_of(n),
        _ => false,
    }
}

pub open spec fn counted(outcome: OutcomeView) -> bool {
    outcome matches OutcomeView::Written { revision, versions } ==> versions.len() <= u64::MAX
}

proof fn lemma_outcome_words(a: OutcomeView, b: OutcomeView)
    requires
        mutation_receipt::outcome_words(a) == mutation_receipt::outcome_words(b),
        counted(a),
        counted(b),
    ensures
        same_outcome(a, b),
{
    let p = mutation_receipt::outcome_words(a);
    let q = mutation_receipt::outcome_words(b);
    match (a, b) {
        (
            OutcomeView::Written { revision: r, versions: v },
            OutcomeView::Written { revision: s, versions: w },
        ) => {
            let u = seq![0u128, r as u128, v.len() as u128];
            let t = seq![0u128, s as u128, w.len() as u128];
            lemma_split(
                u,
                mutation_receipt::versions_words(v, v.len() as int),
                t,
                mutation_receipt::versions_words(w, w.len() as int),
            );
            assert(u[1] == t[1] && u[2] == t[2]);
            lemma_versions(v, w, v.len() as int);
        },
        (
            OutcomeView::Refused { code: c, message: m },
            OutcomeView::Refused { code: d, message: n },
        ) => {
            let u = seq![1u128, mutation_receipt::code_word(c)];
            let t = seq![1u128, mutation_receipt::code_word(d)];
            lemma_split(
                u,
                mutation_receipt::text_words(m),
                t,
                mutation_receipt::text_words(n),
            );
            assert(u[1] == t[1]);
            lemma_text_words(m, n);
        },
        _ => {
            assert(p[0] == q[0]);
            assert(a is Written ==> p[0] == 0);
            assert(b is Written ==> q[0] == 0);
            assert(a is Refused ==> p[0] == 1);
            assert(b is Refused ==> q[0] == 1);
        },
    }
}

/// The words of a row that are as many for every row.
pub open spec fn fixed_words(row: RowView) -> Seq<u128> {
    seq![
        encoding::RECEIPT_ROW,
        row.ordinal as u128,
        row.key.high,
        row.key.low,
        row.previous_sha256.high,
        row.previous_sha256.low,
        row.applied.incarnation,
        row.applied.revision as u128,
        row.applied.sha256.high,
        row.applied.sha256.low,
        row.receipt.scope.tenant.text.high,
        row.receipt.scope.tenant.text.low,
        row.receipt.scope.incarnation,
        row.receipt.scope.principal.text.high,
        row.receipt.scope.principal.text.low,
        row.receipt.idempotency_key.text.high,
        row.receipt.idempotency_key.text.low,
        row.receipt.recorded_revision as u128,
        row.receipt.request_digest.high,
        row.receipt.request_digest.low,
        row.receipt.collections.len() as u128,
    ]
}

proof fn lemma_fixed(row: RowView)
    ensures
        mutation_receipt::row_words(row) == fixed_words(row) + (mutation_receipt::names_words(
            row.receipt.collections,
            row.receipt.collections.len() as int,
        ) + mutation_receipt::outcome_words(row.receipt.outcome)),
{
    let names = mutation_receipt::names_words(
        row.receipt.collections,
        row.receipt.collections.len() as int,
    );
    let outcome = mutation_receipt::outcome_words(row.receipt.outcome);
    let front = seq![encoding::RECEIPT_ROW, row.ordinal as u128] + mutation_receipt::digest_pair(
        row.key,
    ) + mutation_receipt::digest_pair(row.previous_sha256) + seq![
        row.applied.incarnation,
        row.applied.revision as u128,
    ] + mutation_receipt::digest_pair(row.applied.sha256) + mutation_receipt::digest_pair(
        row.receipt.scope.tenant.text,
    ) + seq![row.receipt.scope.incarnation] + mutation_receipt::digest_pair(
        row.receipt.scope.principal.text,
    ) + mutation_receipt::digest_pair(row.receipt.idempotency_key.text) + seq![
        row.receipt.recorded_revision as u128,
    ] + mutation_receipt::digest_pair(row.receipt.request_digest) + seq![
        row.receipt.collections.len() as u128,
    ];
    assert(front =~= fixed_words(row));
    assert(mutation_receipt::row_words(row) == front + names + outcome);
    assert(front + names + outcome =~= front + (names + outcome));
}

/// The digest of a row is taken over all of it: two rows of the same words are one, in
/// place, identity, parent, position, scope, key, revision, request, collections and
/// outcome, but for texts that have one digest.
pub proof fn lemma_row_words(a: RowView, b: RowView)
    requires
        mutation_receipt::row_words(a) == mutation_receipt::row_words(b),
        a.receipt.collections.len() <= u64::MAX,
        b.receipt.collections.len() <= u64::MAX,
        counted(a.receipt.outcome),
        counted(b.receipt.outcome),
    ensures
        a.ordinal == b.ordinal,
        a.key == b.key,
        a.previous_sha256 == b.previous_sha256,
        a.applied == b.applied,
        a.receipt.scope == b.receipt.scope,
        a.receipt.idempotency_key == b.receipt.idempotency_key,
        a.receipt.recorded_revision == b.receipt.recorded_revision,
        a.receipt.request_digest == b.receipt.request_digest,
        same_texts(a.receipt.collections, b.receipt.collections),
        same_outcome(a.receipt.outcome, b.receipt.outcome),
{
    lemma_fixed(a);
    lemma_fixed(b);
    let m = a.receipt.collections.len() as int;
    let n = b.receipt.collections.len() as int;
    let p = mutation_receipt::names_words(a.receipt.collections, m);
    let q = mutation_receipt::names_words(b.receipt.collections, n);
    let u = mutation_receipt::outcome_words(a.receipt.outcome);
    let v = mutation_receipt::outcome_words(b.receipt.outcome);
    let f = fixed_words(a);
    let g = fixed_words(b);
    lemma_split(f, p + u, g, q + v);
    assert(f[1] == g[1] && f[2] == g[2] && f[3] == g[3] && f[4] == g[4] && f[5] == g[5]);
    assert(f[6] == g[6] && f[7] == g[7] && f[8] == g[8] && f[9] == g[9] && f[10] == g[10]);
    assert(f[11] == g[11] && f[12] == g[12] && f[13] == g[13] && f[14] == g[14]);
    assert(f[15] == g[15] && f[16] == g[16] && f[17] == g[17] && f[18] == g[18]);
    assert(f[19] == g[19] && f[20] == g[20]);
    lemma_names_len(a.receipt.collections, m);
    lemma_names_len(b.receipt.collections, n);
    lemma_split(p, u, q, v);
    lemma_names(a.receipt.collections, b.receipt.collections, m);
    lemma_outcome_words(a.receipt.outcome, b.receipt.outcome);
}

/// The words that a receipt's key, and the root of a chain, are the digests of.
pub open spec fn key_words(principal: Name, idempotency_key: Name) -> Seq<u128> {
    seq![
        encoding::RECEIPT_KEY,
        principal.text.high,
        principal.text.low,
        idempotency_key.text.high,
        idempotency_key.text.low,
    ]
}

pub open spec fn root_words(tenant: Name, incarnation: u128) -> Seq<u128> {
    seq![encoding::RECEIPT_ROOT, tenant.text.high, tenant.text.low, incarnation]
}

/// A receipt's key is taken over its principal and its idempotency key, and the root of a
/// chain over its tenant and its origin, and both over all of them.
pub proof fn lemma_key_and_root(
    principal: Name,
    key: Name,
    other_principal: Name,
    other_key: Name,
    tenant: Name,
    incarnation: u128,
    other_tenant: Name,
    other_incarnation: u128,
)
    ensures
        mutation_receipt::key_of(principal, key) == digest::digest_of_words(
            key_words(principal, key),
        ),
        key_words(principal, key) == key_words(other_principal, other_key) ==> principal
            == other_principal && key == other_key,
        mutation_receipt::root_of(tenant, incarnation) == digest::digest_of_words(
            root_words(tenant, incarnation),
        ),
        root_words(tenant, incarnation) == root_words(other_tenant, other_incarnation) ==> tenant
            == other_tenant && incarnation == other_incarnation,
        key_words(principal, key)[0] != root_words(tenant, incarnation)[0],
{
    assert(seq![encoding::RECEIPT_KEY] + mutation_receipt::digest_pair(principal.text)
        + mutation_receipt::digest_pair(key.text) =~= key_words(principal, key));
    assert(seq![encoding::RECEIPT_ROOT] + mutation_receipt::digest_pair(tenant.text) + seq![
        incarnation,
    ] =~= root_words(tenant, incarnation));
    let p = key_words(principal, key);
    let q = key_words(other_principal, other_key);
    if p == q {
        assert(p[1] == q[1] && p[2] == q[2] && p[3] == q[3] && p[4] == q[4]);
    }
    let r = root_words(tenant, incarnation);
    let s = root_words(other_tenant, other_incarnation);
    if r == s {
        assert(r[1] == s[1] && r[2] == s[2] && r[3] == s[3]);
    }
}

} // verus!
