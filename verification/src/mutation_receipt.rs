//! Permanent ordinary mutation outcomes, selected by one applied generation. No
//! expiry or resident lifetime map exists; a row beyond the selected ordinal cannot
//! prove that its command was applied.
use vstd::prelude::*;

use crate::digest;
use crate::digest::{digest, digest_words, Digest, Name};
use crate::encoding::{RECEIPT_KEY, RECEIPT_ROOT, RECEIPT_ROW};
use crate::errors;
use crate::errors::{error, Error, ErrorCode};
use crate::receipt_paths;
use crate::receipt_paths::parse_path;
use crate::texts;
use crate::texts::{before, copy_text, same};

verus! {

/// A single admitted batch has a bounded number of bounded names and no document
/// value in its receipt: a bound per record, not over a lifetime.
pub const MAX_ROW_BYTES: u64 = 2097152;

/// The operations of one batch, the collections and the versions of one receipt.
pub const MAX_OPERATIONS: u64 = 256;

/// A document that a mutation wrote, and its version.
pub struct Version {
    pub path: Vec<u8>,
    pub version: u64,
}

pub struct VersionView {
    pub path: Seq<u8>,
    pub version: u64,
}

impl View for Version {
    type V = VersionView;

    open spec fn view(&self) -> VersionView {
        VersionView { path: self.path@, version: self.version }
    }
}

/// What a mutation came to: what it wrote, or why it was refused.
pub enum Outcome {
    Written { revision: u64, versions: Vec<Version> },
    Refused { code: ErrorCode, message: Vec<u8> },
}

pub enum OutcomeView {
    Written { revision: u64, versions: Seq<VersionView> },
    Refused { code: ErrorCode, message: Seq<u8> },
}

pub open spec fn versions_view(versions: Seq<Version>) -> Seq<VersionView> {
    Seq::new(versions.len(), |i: int| versions[i]@)
}

impl View for Outcome {
    type V = OutcomeView;

    open spec fn view(&self) -> OutcomeView {
        match self {
            Outcome::Written { revision, versions } => OutcomeView::Written {
                revision: *revision,
                versions: versions_view(versions@),
            },
            Outcome::Refused { code, message } => OutcomeView::Refused {
                code: *code,
                message: message@,
            },
        }
    }
}

impl Outcome {
    pub fn copy(&self) -> (outcome: Self)
        ensures
            outcome@ == self@,
    {
        match self {
            Outcome::Refused { code, message } => Outcome::Refused {
                code: *code,
                message: copy_text(message),
            },
            Outcome::Written { revision, versions } => {
                let mut copied: Vec<Version> = Vec::new();
                let mut i: usize = 0;
                while i < versions.len()
                    invariant
                        i <= versions.len(),
                        copied.len() == i,
                        forall|j: int|
                            0 <= j < i ==> (#[trigger] copied@[j])@ == versions@[j]@,
                    decreases versions.len() - i,
                {
                    copied.push(
                        Version {
                            path: copy_text(&versions[i].path),
                            version: versions[i].version,
                        },
                    );
                    i = i + 1;
                }
                assert(versions_view(copied@) =~= versions_view(versions@));
                Outcome::Written { revision: *revision, versions: copied }
            },
        }
    }
}

/// The command that applied a mutation.
#[derive(Clone, Copy, Debug, PartialEq, Eq, Structural)]
pub struct Applied {
    pub incarnation: u128,
    pub revision: u64,
    pub sha256: Digest,
}

/// Whose mutation a receipt records.
#[derive(Clone, Copy, Debug, PartialEq, Eq, Structural)]
pub struct ReceiptScope {
    pub tenant: Name,
    pub incarnation: u128,
    pub principal: Name,
}

pub struct Receipt {
    pub scope: ReceiptScope,
    pub idempotency_key: Name,
    pub recorded_revision: u64,
    pub request_digest: Digest,
    pub collections: Vec<Vec<u8>>,
    pub outcome: Outcome,
}

pub struct ReceiptView {
    pub scope: ReceiptScope,
    pub idempotency_key: Name,
    pub recorded_revision: u64,
    pub request_digest: Digest,
    pub collections: Seq<Seq<u8>>,
    pub outcome: OutcomeView,
}

pub open spec fn names_view(names: Seq<Vec<u8>>) -> Seq<Seq<u8>> {
    Seq::new(names.len(), |i: int| names[i]@)
}

impl View for Receipt {
    type V = ReceiptView;

    open spec fn view(&self) -> ReceiptView {
        ReceiptView {
            scope: self.scope,
            idempotency_key: self.idempotency_key,
            recorded_revision: self.recorded_revision,
            request_digest: self.request_digest,
            collections: names_view(self.collections@),
            outcome: self.outcome@,
        }
    }
}

/// A permanent row: one receipt, chained to the row before it. `record_bytes` is how
/// many bytes its record is encoded in.
pub struct Row {
    pub ordinal: u64,
    pub key: Digest,
    pub previous_sha256: Digest,
    pub applied: Applied,
    pub receipt: Receipt,
    pub record_bytes: u64,
}

pub struct RowView {
    pub ordinal: u64,
    pub key: Digest,
    pub previous_sha256: Digest,
    pub applied: Applied,
    pub receipt: ReceiptView,
    pub record_bytes: u64,
}

impl View for Row {
    type V = RowView;

    open spec fn view(&self) -> RowView {
        RowView {
            ordinal: self.ordinal,
            key: self.key,
            previous_sha256: self.previous_sha256,
            applied: self.applied,
            receipt: self.receipt@,
            record_bytes: self.record_bytes,
        }
    }
}

/// The end of a chain of rows.
#[derive(Clone, Copy, Debug, PartialEq, Eq, Structural)]
pub struct ReceiptHead {
    pub origin_incarnation: u128,
    pub count: u64,
    pub sha256: Digest,
    pub last_applied_revision: u64,
    pub encoded_bytes: u64,
}

/// What a row is committed to under its ordinal.
#[derive(Clone, Copy, Debug, PartialEq, Eq, Structural)]
pub struct Ordinal {
    pub key: Digest,
    pub sha256: Digest,
}

/// The first name of a row that is refused, and why: that of a collection, or one that a
/// version's path decodes to.
#[derive(Clone, Copy, Debug)]
pub enum NameRefusal {
    Collection { at: u64, refusal: Error },
    PathCollection { at: u64, refusal: Error },
    PathIdentity { at: u64, refusal: Error },
}

/// What a row is held to besides its own content: what refuses its applied position,
/// its identity and its names, and the bytes of a frame's header.
#[derive(Clone, Copy, Debug)]
pub struct RowContext {
    pub position_refusal: Option<Error>,
    pub identity_refusal: Option<Error>,
    pub name_refusal: Option<NameRefusal>,
    pub frame_header_bytes: u64,
}

// ---------------------------------------------------------------------
// Digests
// ---------------------------------------------------------------------

pub open spec fn digest_pair(d: Digest) -> Seq<u128> {
    seq![d.high, d.low]
}

pub open spec fn text_words(text: Seq<u8>) -> Seq<u128> {
    digest_pair(digest::digest_of(text))
}

pub open spec fn names_words(names: Seq<Seq<u8>>, n: int) -> Seq<u128>
    decreases n,
{
    if n <= 0 {
        Seq::empty()
    } else {
        names_words(names, n - 1) + text_words(names[n - 1])
    }
}

pub open spec fn versions_words(versions: Seq<VersionView>, n: int) -> Seq<u128>
    decreases n,
{
    if n <= 0 {
        Seq::empty()
    } else {
        versions_words(versions, n - 1) + text_words(versions[n - 1].path)
            + seq![versions[n - 1].version as u128]
    }
}

pub open spec fn code_word(code: ErrorCode) -> u128 {
    match code {
        ErrorCode::InvalidArgument => 0,
        ErrorCode::Unauthorized => 1,
        ErrorCode::Forbidden => 2,
        ErrorCode::NotFound => 3,
        ErrorCode::AlreadyExists => 4,
        ErrorCode::Conflict => 5,
        ErrorCode::SchemaViolation => 6,
        ErrorCode::QuotaExceeded => 7,
        ErrorCode::ResourceExhausted => 8,
        ErrorCode::IndexRequired => 9,
        ErrorCode::CursorExpired => 10,
        ErrorCode::Unavailable => 11,
        ErrorCode::UnknownOutcome => 12,
        ErrorCode::Corruption => 13,
        ErrorCode::Sealed => 14,
        ErrorCode::AuditUnavailable => 15,
    }
}

pub open spec fn outcome_words(outcome: OutcomeView) -> Seq<u128> {
    match outcome {
        OutcomeView::Written { revision, versions } => seq![
            0u128,
            revision as u128,
            versions.len() as u128,
        ] + versions_words(versions, versions.len() as int),
        OutcomeView::Refused { code, message } => seq![1u128, code_word(code)] + text_words(
            message,
        ),
    }
}

/// What a row's digest is taken over.
pub open spec fn row_words(row: RowView) -> Seq<u128> {
    seq![RECEIPT_ROW, row.ordinal as u128] + digest_pair(row.key) + digest_pair(
        row.previous_sha256,
    ) + seq![row.applied.incarnation, row.applied.revision as u128] + digest_pair(
        row.applied.sha256,
    ) + digest_pair(row.receipt.scope.tenant.text) + seq![row.receipt.scope.incarnation]
        + digest_pair(row.receipt.scope.principal.text) + digest_pair(
        row.receipt.idempotency_key.text,
    ) + seq![row.receipt.recorded_revision as u128] + digest_pair(row.receipt.request_digest)
        + seq![row.receipt.collections.len() as u128] + names_words(
        row.receipt.collections,
        row.receipt.collections.len() as int,
    ) + outcome_words(row.receipt.outcome)
}

pub open spec fn row_sha256(row: RowView) -> Digest {
    digest::digest_of_words(row_words(row))
}

/// The permanent identity of a principal's request.
pub open spec fn key_of(principal: Name, idempotency_key: Name) -> Digest {
    digest::digest_of_words(
        seq![RECEIPT_KEY] + digest_pair(principal.text) + digest_pair(idempotency_key.text),
    )
}

/// The root that a tenant's first row is chained to.
pub open spec fn root_of(tenant: Name, incarnation: u128) -> Digest {
    digest::digest_of_words(seq![RECEIPT_ROOT] + digest_pair(tenant.text) + seq![incarnation])
}

pub open spec fn empty_head(tenant: Name, incarnation: u128) -> ReceiptHead {
    ReceiptHead {
        origin_incarnation: incarnation,
        count: 0,
        sha256: root_of(tenant, incarnation),
        last_applied_revision: 0,
        encoded_bytes: 0,
    }
}

fn push_digest(words: &mut Vec<u128>, d: Digest)
    ensures
        final(words)@ == old(words)@ + digest_pair(d),
{
    words.push(d.high);
    words.push(d.low);
    assert(words@ =~= old(words)@ + digest_pair(d));
}

fn push_code(words: &mut Vec<u128>, code: ErrorCode)
    ensures
        final(words)@ == old(words)@.push(code_word(code)),
{
    words.push(
        match code {
            ErrorCode::InvalidArgument => 0,
            ErrorCode::Unauthorized => 1,
            ErrorCode::Forbidden => 2,
            ErrorCode::NotFound => 3,
            ErrorCode::AlreadyExists => 4,
            ErrorCode::Conflict => 5,
            ErrorCode::SchemaViolation => 6,
            ErrorCode::QuotaExceeded => 7,
            ErrorCode::ResourceExhausted => 8,
            ErrorCode::IndexRequired => 9,
            ErrorCode::CursorExpired => 10,
            ErrorCode::Unavailable => 11,
            ErrorCode::UnknownOutcome => 12,
            ErrorCode::Corruption => 13,
            ErrorCode::Sealed => 14,
            ErrorCode::AuditUnavailable => 15,
        },
    );
}

fn push_names(words: &mut Vec<u128>, names: &Vec<Vec<u8>>)
    ensures
        final(words)@ == old(words)@ + names_words(names_view(names@), names@.len() as int),
{
    let ghost start = words@;
    let ghost view = names_view(names@);
    let mut i: usize = 0;
    assert(start =~= start + names_words(view, 0));
    while i < names.len()
        invariant
            i <= names.len(),
            view == names_view(names@),
            words@ == start + names_words(view, i as int),
        decreases names.len() - i,
    {
        let d = digest(&names[i]);
        push_digest(words, d);
        assert(words@ =~= start + names_words(view, i + 1));
        i = i + 1;
    }
}

fn push_versions(words: &mut Vec<u128>, versions: &Vec<Version>)
    ensures
        final(words)@ == old(words)@ + versions_words(
            versions_view(versions@),
            versions@.len() as int,
        ),
{
    let ghost start = words@;
    let ghost view = versions_view(versions@);
    let mut i: usize = 0;
    assert(start =~= start + versions_words(view, 0));
    while i < versions.len()
        invariant
            i <= versions.len(),
            view == versions_view(versions@),
            words@ == start + versions_words(view, i as int),
        decreases versions.len() - i,
    {
        let d = digest(&versions[i].path);
        push_digest(words, d);
        words.push(versions[i].version as u128);
        assert(words@ =~= start + versions_words(view, i + 1));
        i = i + 1;
    }
}

fn push_outcome(words: &mut Vec<u128>, outcome: &Outcome)
    ensures
        final(words)@ == old(words)@ + outcome_words(outcome@),
{
    let ghost start = words@;
    match outcome {
        Outcome::Written { revision, versions } => {
            words.push(0);
            words.push(*revision as u128);
            words.push(versions.len() as u128);
            assert(words@ =~= start + seq![0u128, *revision as u128, versions.len() as u128]);
            push_versions(words, versions);
            assert(words@ =~= start + outcome_words(outcome@));
        },
        Outcome::Refused { code, message } => {
            words.push(1);
            push_code(words, *code);
            assert(words@ =~= start + seq![1u128, code_word(*code)]);
            push_digest(words, digest(message.as_slice()));
            assert(words@ =~= start + outcome_words(outcome@));
        },
    }
}

/// The permanent identity of a principal's request.
pub fn receipt_key(principal: Name, idempotency_key: Name) -> (key: Digest)
    ensures
        key == key_of(principal, idempotency_key),
{
    let mut words: Vec<u128> = Vec::new();
    words.push(RECEIPT_KEY);
    assert(words@ =~= seq![RECEIPT_KEY]);
    push_digest(&mut words, principal.text);
    push_digest(&mut words, idempotency_key.text);
    digest_words(&words)
}

impl ReceiptHead {
    /// The head of no rows.
    pub fn empty(tenant: Name, incarnation: u128) -> (head: Self)
        ensures
            head == empty_head(tenant, incarnation),
    {
        let mut words: Vec<u128> = Vec::new();
        words.push(RECEIPT_ROOT);
        assert(words@ =~= seq![RECEIPT_ROOT]);
        push_digest(&mut words, tenant.text);
        words.push(incarnation);
        assert(words@ =~= seq![RECEIPT_ROOT] + digest_pair(tenant.text) + seq![incarnation]);
        ReceiptHead {
            origin_incarnation: incarnation,
            count: 0,
            sha256: digest_words(&words),
            last_applied_revision: 0,
            encoded_bytes: 0,
        }
    }
}

// ---------------------------------------------------------------------
// Rows
// ---------------------------------------------------------------------

pub open spec fn corrupt(message: &'static str) -> Error {
    errors::refusal(ErrorCode::Corruption, message)
}

/// The bytes of a row's frame.
pub open spec fn framed(record_bytes: u64, header: u64) -> Result<u64, Error> {
    if record_bytes > MAX_ROW_BYTES {
        Err(corrupt("receipt exceeds canonical per-record budget"))
    } else if record_bytes + header > u64::MAX {
        Err(corrupt("receipt canonical length overflow"))
    } else {
        Ok((record_bytes + header) as u64)
    }
}

/// Names ascend strictly.
pub open spec fn canonical(names: Seq<Seq<u8>>) -> bool {
    forall|i: int| 0 < i < names.len() ==> texts::less(names[i - 1], #[trigger] names[i])
}

/// What refuses a collection's name.
pub open spec fn collection_refusal(names: Option<NameRefusal>, i: int) -> Option<Error> {
    match names {
        Some(NameRefusal::Collection { at, refusal }) => if at == i {
            Some(refusal)
        } else {
            None
        },
        _ => None,
    }
}

/// What refuses the collection that a version's path names.
pub open spec fn path_collection_refusal(names: Option<NameRefusal>, i: int) -> Option<Error> {
    match names {
        Some(NameRefusal::PathCollection { at, refusal }) => if at == i {
            Some(refusal)
        } else {
            None
        },
        _ => None,
    }
}

/// What refuses the identity that a version's path names.
pub open spec fn path_identity_refusal(names: Option<NameRefusal>, i: int) -> Option<Error> {
    match names {
        Some(NameRefusal::PathIdentity { at, refusal }) => if at == i {
            Some(refusal)
        } else {
            None
        },
        _ => None,
    }
}

/// Whether the collections from `i` on are named well, and each stands behind the one
/// before it.
pub open spec fn collections_checked(
    collections: Seq<Seq<u8>>,
    names: Option<NameRefusal>,
    i: int,
) -> Result<(), Error>
    decreases collections.len() - i,
{
    if i < 0 || i >= collections.len() {
        Ok(())
    } else {
        match collection_refusal(names, i) {
            Some(e) => Err(e),
            None => if i > 0 && !texts::less(collections[i - 1], collections[i]) {
                Err(corrupt("receipt collections are not canonical"))
            } else {
                collections_checked(collections, names, i + 1)
            },
        }
    }
}

/// Accepted collections are in order, and each stands once.
pub proof fn lemma_collections_canonical(
    collections: Seq<Seq<u8>>,
    names: Option<NameRefusal>,
)
    requires
        collections_checked(collections, names, 0) is Ok,
    ensures
        canonical(collections),
{
    lemma_collections_from(collections, names, 0);
}

proof fn lemma_collections_from(collections: Seq<Seq<u8>>, names: Option<NameRefusal>, i: int)
    requires
        0 <= i,
        collections_checked(collections, names, i) is Ok,
    ensures
        forall|j: int|
            i <= j && 0 < j < collections.len() ==> texts::less(
                collections[j - 1],
                #[trigger] collections[j],
            ),
    decreases collections.len() - i,
{
    if i < collections.len() {
        lemma_collections_from(collections, names, i + 1);
    }
}

/// Whether a version is of this command, and where its path leads.
pub open spec fn version_checked(
    row: RowView,
    version: VersionView,
    names: Option<NameRefusal>,
    i: int,
) -> Result<Seq<u8>, Error> {
    if version.path.len() > 1026 || version.version != row.applied.revision {
        Err(corrupt("receipt document version differs"))
    } else {
        match receipt_paths::parsed(
            version.path,
            path_collection_refusal(names, i),
            path_identity_refusal(names, i),
        ) {
            Err(e) => Err(e),
            Ok((collection, id)) => Ok(collection),
        }
    }
}

/// The collections that the versions from `i` on lead to, behind those before.
pub open spec fn versions_checked(
    row: RowView,
    versions: Seq<VersionView>,
    names: Option<NameRefusal>,
    i: int,
    found: Seq<Seq<u8>>,
) -> Result<Seq<Seq<u8>>, Error>
    decreases versions.len() - i,
{
    if i < 0 || i >= versions.len() {
        Ok(found)
    } else {
        match version_checked(row, versions[i], names, i) {
            Err(e) => Err(e),
            Ok(collection) => versions_checked(
                row,
                versions,
                names,
                i + 1,
                found.push(collection),
            ),
        }
    }
}

/// Whether two lists name the same collections.
pub open spec fn same_names(a: Seq<Seq<u8>>, b: Seq<Seq<u8>>) -> bool {
    forall|name: Seq<u8>| #[trigger] a.contains(name) == b.contains(name)
}

pub open spec fn outcome_checked(row: RowView, names: Option<NameRefusal>) -> Result<(), Error> {
    match row.receipt.outcome {
        OutcomeView::Refused { code, message } => Ok(()),
        OutcomeView::Written { revision, versions } => if versions.len() == 0 || versions.len()
            > MAX_OPERATIONS {
            Err(corrupt("receipt version count exceeds per-operation bound"))
        } else {
            match versions_checked(row, versions, names, 0, Seq::empty()) {
                Err(e) => Err(e),
                Ok(found) => if !same_names(found, row.receipt.collections) {
                    Err(corrupt("receipt versions and authorized collection set differ"))
                } else {
                    Ok(())
                },
            }
        },
    }
}

/// What a row is held to.
pub open spec fn row_checked(row: RowView, context: RowContext) -> Result<(), Error> {
    if row.ordinal == 0 {
        Err(corrupt("receipt chain identity differs"))
    } else if context.position_refusal is Some {
        Err(context.position_refusal->0)
    } else if context.identity_refusal is Some {
        Err(context.identity_refusal->0)
    } else if row.receipt.scope.incarnation != row.applied.incarnation
        || row.receipt.recorded_revision != row.applied.revision {
        Err(corrupt("receipt original scope differs from its applying command"))
    } else if row.receipt.collections.len() == 0 || row.receipt.collections.len()
        > MAX_OPERATIONS {
        Err(corrupt("receipt collection count exceeds per-operation bound"))
    } else if collections_checked(row.receipt.collections, context.name_refusal, 0) is Err {
        collections_checked(row.receipt.collections, context.name_refusal, 0)
    } else {
        match outcome_checked(row, context.name_refusal) {
            Err(e) => Err(e),
            Ok(()) => match framed(row.record_bytes, context.frame_header_bytes) {
                Err(e) => Err(e),
                Ok(_) => Ok(()),
            },
        }
    }
}

fn bad(message: &'static str) -> (e: Error)
    ensures
        e == corrupt(message),
{
    error(ErrorCode::Corruption, message)
}

/// The bytes of a row's frame.
pub fn framed_bytes(record_bytes: u64, header: u64) -> (r: Result<u64, Error>)
    ensures
        r == framed(record_bytes, header),
{
    if record_bytes > MAX_ROW_BYTES {
        return Err(bad("receipt exceeds canonical per-record budget"));
    }
    match record_bytes.checked_add(header) {
        None => Err(bad("receipt canonical length overflow")),
        Some(bytes) => Ok(bytes),
    }
}

fn check_collections(collections: &Vec<Vec<u8>>, names: &Option<NameRefusal>) -> (r: Result<
    (),
    Error,
>)
    ensures
        r == collections_checked(names_view(collections@), *names, 0),
{
    let ghost view = names_view(collections@);
    let mut i: usize = 0;
    while i < collections.len()
        invariant
            i <= collections.len(),
            view == names_view(collections@),
            collections_checked(view, *names, 0) == collections_checked(view, *names, i as int),
        decreases collections.len() - i,
    {
        assert(view[i as int] == collections@[i as int]@);
        match names {
            Some(NameRefusal::Collection { at, refusal }) if *at == i as u64 => {
                return Err(*refusal);
            },
            _ => {},
        }
        assert(collection_refusal(*names, i as int) is None);
        if i > 0 {
            assert(view[i - 1] == collections@[i - 1]@);
            if !before(&collections[i - 1], &collections[i]) {
                return Err(bad("receipt collections are not canonical"));
            }
        }
        i = i + 1;
    }
    Ok(())
}

fn contains_name(names: &Vec<Vec<u8>>, name: &Vec<u8>) -> (b: bool)
    ensures
        b == names_view(names@).contains(name@),
{
    let ghost view = names_view(names@);
    let mut i: usize = 0;
    while i < names.len()
        invariant
            i <= names.len(),
            view == names_view(names@),
            forall|j: int| 0 <= j < i ==> #[trigger] view[j] != name@,
        decreases names.len() - i,
    {
        if same(&names[i], name) {
            assert(view[i as int] == name@);
            return true;
        }
        i = i + 1;
    }
    false
}

/// Whether every one of the names is among the others.
fn all_among(names: &Vec<Vec<u8>>, others: &Vec<Vec<u8>>) -> (b: bool)
    ensures
        b == forall|name: Seq<u8>| #[trigger]
            names_view(names@).contains(name) ==> names_view(others@).contains(name),
{
    let ghost view = names_view(names@);
    let ghost other = names_view(others@);
    let mut i: usize = 0;
    while i < names.len()
        invariant
            i <= names.len(),
            view == names_view(names@),
            other == names_view(others@),
            forall|j: int| 0 <= j < i ==> other.contains(#[trigger] view[j]),
        decreases names.len() - i,
    {
        if !contains_name(others, &names[i]) {
            assert(view[i as int] == names@[i as int]@);
            assert(view.contains(view[i as int]));
            return false;
        }
        i = i + 1;
    }
    assert forall|name: Seq<u8>| #[trigger] view.contains(name) implies other.contains(name) by {
        let k = choose|k: int| 0 <= k < view.len() && view[k] == name;
        assert(other.contains(view[k]));
    }
    true
}

fn names_agree(a: &Vec<Vec<u8>>, b: &Vec<Vec<u8>>) -> (r: bool)
    ensures
        r == same_names(names_view(a@), names_view(b@)),
{
    let forth: bool = all_among(a, b);
    let back: bool = all_among(b, a);
    proof {
        let x = names_view(a@);
        let y = names_view(b@);
        if !forth {
            let name = choose|name: Seq<u8>| #[trigger] x.contains(name) && !y.contains(name);
            assert(x.contains(name) != y.contains(name));
        }
        if !back {
            let name = choose|name: Seq<u8>| #[trigger] y.contains(name) && !x.contains(name);
            assert(x.contains(name) != y.contains(name));
        }
    }
    forth && back
}

impl Row {
    /// The digest that the next row is chained to.
    pub fn sha256(&self) -> (d: Digest)
        ensures
            d == row_sha256(self@),
    {
        let mut words: Vec<u128> = Vec::new();
        words.push(RECEIPT_ROW);
        words.push(self.ordinal as u128);
        assert(words@ =~= seq![RECEIPT_ROW, self.ordinal as u128]);
        push_digest(&mut words, self.key);
        push_digest(&mut words, self.previous_sha256);
        let ghost chained = words@;
        words.push(self.applied.incarnation);
        words.push(self.applied.revision as u128);
        assert(words@ =~= chained + seq![
            self.applied.incarnation,
            self.applied.revision as u128,
        ]);
        push_digest(&mut words, self.applied.sha256);
        push_digest(&mut words, self.receipt.scope.tenant.text);
        let ghost scoped = words@;
        words.push(self.receipt.scope.incarnation);
        assert(words@ =~= scoped + seq![self.receipt.scope.incarnation]);
        push_digest(&mut words, self.receipt.scope.principal.text);
        push_digest(&mut words, self.receipt.idempotency_key.text);
        let ghost keyed = words@;
        words.push(self.receipt.recorded_revision as u128);
        assert(words@ =~= keyed + seq![self.receipt.recorded_revision as u128]);
        push_digest(&mut words, self.receipt.request_digest);
        let ghost digested = words@;
        words.push(self.receipt.collections.len() as u128);
        assert(words@ =~= digested + seq![self@.receipt.collections.len() as u128]);
        push_names(&mut words, &self.receipt.collections);
        push_outcome(&mut words, &self.receipt.outcome);
        assert(words@ == row_words(self@));
        digest_words(&words)
    }

    fn outcome_ok(&self, names: &Option<NameRefusal>) -> (r: Result<(), Error>)
        ensures
            r == outcome_checked(self@, *names),
    {
        match &self.receipt.outcome {
            Outcome::Refused { code, message } => Ok(()),
            Outcome::Written { revision, versions } => {
                let ghost view = versions_view(versions@);
                assert(self@.receipt.outcome == (OutcomeView::Written {
                    revision: *revision,
                    versions: view,
                }));
                if versions.len() == 0 || versions.len() as u64 > MAX_OPERATIONS {
                    return Err(bad("receipt version count exceeds per-operation bound"));
                }
                let mut found: Vec<Vec<u8>> = Vec::new();
                let mut i: usize = 0;
                assert(names_view(found@) =~= Seq::empty());
                while i < versions.len()
                    invariant
                        i <= versions.len(),
                        1 <= versions.len() <= MAX_OPERATIONS,
                        view == versions_view(versions@),
                        self@.receipt.outcome == (OutcomeView::Written {
                            revision: *revision,
                            versions: view,
                        }),
                        versions_checked(self@, view, *names, 0, Seq::empty()) == versions_checked(
                            self@,
                            view,
                            *names,
                            i as int,
                            names_view(found@),
                        ),
                    decreases versions.len() - i,
                {
                    let version = &versions[i];
                    assert(view[i as int] == version@);
                    if version.path.len() > 1026 || version.version != self.applied.revision {
                        return Err(bad("receipt document version differs"));
                    }
                    let (collection_refusal, id_refusal) = match names {
                        Some(NameRefusal::PathCollection { at, refusal }) if *at == i as u64 => {
                            (Some(*refusal), None)
                        },
                        Some(NameRefusal::PathIdentity { at, refusal }) if *at == i as u64 => {
                            (None, Some(*refusal))
                        },
                        _ => (None, None),
                    };
                    match parse_path(&version.path, collection_refusal, id_refusal) {
                        Err(e) => return Err(e),
                        Ok((collection, id)) => {
                            let ghost held = found@;
                            let ghost one = collection@;
                            found.push(collection);
                            assert(names_view(found@) =~= names_view(held).push(one));
                        },
                    }
                    i = i + 1;
                }
                if !names_agree(&found, &self.receipt.collections) {
                    return Err(
                        bad("receipt versions and authorized collection set differ"),
                    );
                }
                Ok(())
            },
        }
    }

    /// Whether the row is canonical, and of the command that applied it.
    pub fn validate(&self, context: &RowContext) -> (r: Result<(), Error>)
        ensures
            r == row_checked(self@, *context),
    {
        if self.ordinal == 0 {
            return Err(bad("receipt chain identity differs"));
        }
        match context.position_refusal {
            Some(refusal) => return Err(refusal),
            None => {},
        }
        match context.identity_refusal {
            Some(refusal) => return Err(refusal),
            None => {},
        }
        if self.receipt.scope.incarnation != self.applied.incarnation
            || self.receipt.recorded_revision != self.applied.revision {
            return Err(bad("receipt original scope differs from its applying command"));
        }
        assert(self@.receipt.collections.len() == self.receipt.collections.len());
        if self.receipt.collections.len() == 0 || self.receipt.collections.len() as u64
            > MAX_OPERATIONS {
            return Err(bad("receipt collection count exceeds per-operation bound"));
        }
        check_collections(&self.receipt.collections, &context.name_refusal)?;
        self.outcome_ok(&context.name_refusal)?;
        framed_bytes(self.record_bytes, context.frame_header_bytes)?;
        Ok(())
    }
}

// ---------------------------------------------------------------------
// The chain
// ---------------------------------------------------------------------

/// Whether the row is the next of the chain.
pub open spec fn follows(head: ReceiptHead, row: RowView) -> bool {
    &&& row.ordinal == head.count + 1
    &&& row.previous_sha256 == head.sha256
    &&& row.applied.revision > head.last_applied_revision
}

/// The head behind a row.
pub open spec fn advanced(head: ReceiptHead, row: RowView, header: u64) -> Result<ReceiptHead, Error> {
    if head.count == u64::MAX {
        Err(corrupt("receipt ordinal exhausted"))
    } else if !follows(head, row) {
        Err(corrupt("receipt row is not the next committed prefix"))
    } else {
        match framed(row.record_bytes, header) {
            Err(e) => Err(e),
            Ok(bytes) => if head.encoded_bytes + bytes > u64::MAX {
                Err(corrupt("receipt permanent byte overflow"))
            } else {
                Ok(
                    ReceiptHead {
                        count: row.ordinal,
                        sha256: row_sha256(row),
                        last_applied_revision: row.applied.revision,
                        encoded_bytes: (head.encoded_bytes + bytes) as u64,
                        ..head
                    },
                )
            },
        }
    }
}

/// The head behind a row, if the row is the next of the chain.
pub fn advance(head: &ReceiptHead, row: &Row, header: u64) -> (r: Result<ReceiptHead, Error>)
    ensures
        r == advanced(*head, row@, header),
{
    let next: u64 = match head.count.checked_add(1) {
        None => return Err(bad("receipt ordinal exhausted")),
        Some(next) => next,
    };
    if row.ordinal != next || row.previous_sha256 != head.sha256 || row.applied.revision
        <= head.last_applied_revision {
        return Err(bad("receipt row is not the next committed prefix"));
    }
    let bytes: u64 = framed_bytes(row.record_bytes, header)?;
    let encoded_bytes: u64 = match head.encoded_bytes.checked_add(bytes) {
        None => return Err(bad("receipt permanent byte overflow")),
        Some(total) => total,
    };
    Ok(
        ReceiptHead {
            origin_incarnation: head.origin_incarnation,
            count: row.ordinal,
            sha256: row.sha256(),
            last_applied_revision: row.applied.revision,
            encoded_bytes,
        },
    )
}

} // verus!
