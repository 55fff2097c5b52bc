//! Ordered mutations: one permanent receipt for each admitted identity.
use kasumi_engine::digest::{digest, Digest, Name};
use kasumi_engine::errors::{error, Error, ErrorCode};
use kasumi_engine::identities::read_identity;
use kasumi_engine::mutation_apply::{
    apply_mutation_ordered, refuse_batch, Audited, Batch, Fits, MutationFacts, Permit,
    RecordSizes, Released, Target,
};
use kasumi_engine::mutation_receipt::{
    advance, framed_bytes, receipt_key, Applied, NameRefusal, Ordinal, Outcome, Receipt,
    ReceiptHead, Row, RowContext,
};
use kasumi_engine::receipt_chain::{
    bind_namespace, check_installation, check_reopened, checkpoint_binding, get_charged,
    persist_step, persisted, plan_persist, prepare_install, reopen, row as ordinal_row,
    scratch_limit, select_point, validate_state, Builder, Checkpoint, Installation, Pending,
    PersistStep, ReceiptState, Storage, Stored, StoredRow, Surroundings,
};
use kasumi_engine::receipt_paths::{document_path, parse_path};
use kasumi_engine::receipt_reads::{
    decode_workspace, read_receipt, strict_collections, ReadMoment, ReceiptSource,
};
use std::collections::BTreeMap;

const INCARNATION: u128 = 55;
const FRAME_HEADER: u64 = 16;

#[derive(Clone, Copy, Debug)]
enum Expected {
    Any,
    Absent,
    Version(u64),
}

/// One mutation: a body that its schema accepts, or one that it does not.
#[derive(Clone, Debug)]
struct Put {
    collection: &'static str,
    id: &'static str,
    body: Option<String>,
    expected: Expected,
}

fn put(collection: &'static str, id: &'static str, body: &str, expected: Expected) -> Put {
    Put { collection, id, body: Some(body.into()), expected }
}

#[derive(Clone, Debug)]
struct Request {
    key: &'static str,
    reads: Vec<(&'static str, &'static str, Expected)>,
    puts: Vec<Put>,
}

fn batch(key: &'static str, id: &'static str, size: usize) -> Request {
    Request {
        key,
        reads: vec![],
        puts: vec![put("docs", id, &"x".repeat(size), Expected::Any)],
    }
}

fn context() -> RowContext {
    RowContext {
        position_refusal: None,
        identity_refusal: None,
        name_refusal: None,
        frame_header_bytes: FRAME_HEADER,
    }
}

fn name(text: &str) -> Name {
    Name::of(text)
}

fn bytes(text: &str) -> Vec<u8> {
    text.as_bytes().to_vec()
}

/// A tenant's documents and receipts, and the budgets that they are held to.
struct Engine {
    state: ReceiptState,
    rows: Vec<Row>,
    documents: BTreeMap<(&'static str, &'static str), (u64, String)>,
    max_snapshot_bytes: u64,
    audit_bytes: u64,
    max_audit_bytes: u64,
}

const EVENT: u64 = 200;

fn engine(max_snapshot_bytes: u64) -> Engine {
    Engine {
        state: ReceiptState {
            tenant: name("tenant"),
            incarnation: INCARNATION,
            revision: 1,
            head: ReceiptHead::empty(name("tenant"), INCARNATION),
            lineage: vec![],
            max_receipt_bytes: 1 << 20,
        },
        rows: vec![],
        documents: BTreeMap::new(),
        max_snapshot_bytes,
        audit_bytes: 0,
        max_audit_bytes: 128 << 10,
    }
}

fn holds(
    documents: &BTreeMap<(&'static str, &'static str), (u64, String)>,
    collection: &'static str,
    id: &'static str,
    expected: Expected,
) -> bool {
    let version = documents.get(&(collection, id)).map(|d| d.0);
    match expected {
        Expected::Any => true,
        Expected::Absent => version.is_none(),
        Expected::Version(v) => version == Some(v),
    }
}

type Versions = Vec<(String, u64)>;

/// What a caller reads of an outcome.
fn told(outcome: &Outcome) -> Result<Versions, (ErrorCode, String)> {
    match outcome {
        Outcome::Written { versions, .. } => Ok(versions
            .iter()
            .map(|v| (String::from_utf8(v.path.clone()).unwrap(), v.version))
            .collect()),
        Outcome::Refused { code, message } => {
            Err((*code, String::from_utf8(message.clone()).unwrap()))
        }
    }
}

fn copy_of(row: &Row) -> Row {
    Row {
        ordinal: row.ordinal,
        key: row.key,
        previous_sha256: row.previous_sha256,
        applied: row.applied,
        receipt: Receipt {
            scope: row.receipt.scope,
            idempotency_key: row.receipt.idempotency_key,
            recorded_revision: row.receipt.recorded_revision,
            request_digest: row.receipt.request_digest,
            collections: row.receipt.collections.clone(),
            outcome: row.receipt.outcome.copy(),
        },
        record_bytes: row.record_bytes,
    }
}

fn sizes(operations: usize) -> RecordSizes {
    RecordSizes { refusal_frame: 500, max_message_bytes: 64, written: 512 + 64 * operations as u64 }
}

impl Engine {
    fn request_digest(request: &Request) -> Digest {
        digest(format!("{request:?}").as_bytes())
    }

    fn batch_of(&self, request: &Request) -> Batch {
        Batch {
            tenant: name("tenant"),
            principal: name("owner"),
            idempotency_key: name(request.key),
            request_digest: Self::request_digest(request),
            operations: request
                .puts
                .iter()
                .map(|p| Target {
                    collection: bytes(p.collection),
                    id: bytes(p.id),
                    write_refusal: None,
                })
                .collect(),
            admitted_refusal: None,
            resource_refusal: None,
            lifecycle_refusal: None,
            caller_name_refusal: None,
            target_name_refusal: None,
            read_refusals: vec![None; request.reads.len()],
        }
    }

    fn attempt(&self, request: &Request, revision: u64) -> Result<
        BTreeMap<(&'static str, &'static str), (u64, String)>,
        Error,
    > {
        let mut next = self.documents.clone();
        for (collection, id, expected) in &request.reads {
            if !holds(&next, collection, id, *expected) {
                return Err(error(ErrorCode::Conflict, "read assertion differs"));
            }
        }
        for p in &request.puts {
            if !holds(&next, p.collection, p.id, p.expected) {
                return Err(error(ErrorCode::Conflict, "document precondition differs"));
            }
            match &p.body {
                None => return Err(error(ErrorCode::SchemaViolation, "body is no object")),
                Some(body) => {
                    next.insert((p.collection, p.id), (revision, body.clone()));
                }
            }
        }
        Ok(next)
    }

    fn fits(&self, documents: u64, events: u64) -> Fits {
        Fits {
            audit: self.audit_bytes + events * EVENT <= self.max_audit_bytes,
            snapshot: documents <= self.max_snapshot_bytes,
            completion: true,
        }
    }

    fn row_of(&self, request: &Request) -> Option<&Row> {
        let key = receipt_key(name("owner"), name(request.key));
        self.rows.iter().find(|row| row.key == key)
    }

    fn entry(&self, ordinal: u64) -> Option<Ordinal> {
        let at = ordinal.checked_sub(1)? as usize;
        self.rows.get(at).map(|row| Ordinal { key: row.key, sha256: row.sha256() })
    }

    /// What the storage holds under the identity of a request.
    fn stored(&self, request: &Request) -> Option<Stored> {
        let row = copy_of(self.row_of(request)?);
        let around = Surroundings {
            entry: self.entry(row.ordinal),
            parent: self.entry(row.ordinal - 1),
            top: self.entry(self.state.head.count),
        };
        Some(Stored::Decoded(StoredRow { row, canonical_refusal: None, around }))
    }

    fn apply(
        &mut self,
        revision: u64,
        request: &Request,
    ) -> Result<Versions, (ErrorCode, String)> {
        let attempted = self.attempt(request, revision);
        let size = |docs: &BTreeMap<_, (u64, String)>| -> u64 {
            docs.values().map(|(_, body)| body.len() as u64 + 100).sum()
        };
        let held = size(&self.documents);
        let after = attempted.as_ref().map(size).unwrap_or(held);
        let facts = MutationFacts {
            reserved: self.fits(held, 1),
            attempt: attempted.as_ref().map(|_| ()).map_err(|e| *e),
            committed: self.fits(after, 1),
            rejected: self.fits(held, 1),
            observed: self.fits(held, 1),
            observed_rejection: self.fits(held, 1),
            sizes: sizes(request.puts.len()),
        };
        let applied = Applied {
            incarnation: INCARNATION,
            revision,
            sha256: digest(format!("command {revision}").as_bytes()),
        };
        self.state.revision = revision;
        let (publication, row) = apply_mutation_ordered(
            &self.state,
            &self.batch_of(request),
            &applied,
            &self.stored(request),
            &facts,
            &context(),
        )
        .unwrap();
        assert_eq!(row.is_some(), publication.head != self.state.head);
        if publication.audited != Audited::Nothing {
            self.audit_bytes += EVENT;
        }
        if publication.changed {
            self.documents = attempted.unwrap();
        }
        if let Some(row) = row {
            assert_eq!(advance(&self.state.head, &row, FRAME_HEADER).unwrap(), publication.head);
            self.rows.push(row);
        }
        self.state.head = publication.head;
        match &publication.released {
            Released::Refused(refusal) => Err((refusal.code, refusal.message.into())),
            Released::Recorded(outcome) | Released::Retained(outcome) => {
                let written = matches!(outcome, Outcome::Written { .. });
                assert_eq!(publication.audited == Audited::Committed, written);
                told(outcome)
            }
        }
    }
}

#[test]
fn recovery_seal_two_writes_three_reads_are_atomic_and_replay_original_receipts() {
    let mut engine = engine(2 << 20);
    let claim = Request {
        key: "claim",
        reads: vec![],
        puts: vec![put("docs", "recovery", "processing", Expected::Absent)],
    };
    engine.apply(3, &claim).unwrap();
    let seal = Request {
        key: "seal",
        reads: vec![
            ("docs", "recovery", Expected::Any),
            ("docs", "recovery", Expected::Version(3)),
            ("intent", "recovery", Expected::Absent),
        ],
        puts: vec![
            put("docs", "recovery", "writing", Expected::Version(3)),
            put("intent", "recovery", "sealed", Expected::Absent),
        ],
    };
    let committed = engine.apply(4, &seal).unwrap();
    assert_eq!(
        committed,
        vec![("/docs/recovery".into(), 4), ("/intent/recovery".into(), 4)]
    );
    assert_eq!(engine.documents[&("docs", "recovery")].1, "writing");
    assert_eq!(engine.documents[&("intent", "recovery")].1, "sealed");
    let retained = engine.row_of(&seal).unwrap();
    assert_eq!(retained.receipt.request_digest, Engine::request_digest(&seal));
    assert_eq!(told(&retained.receipt.outcome), Ok(committed.clone()));
    let committed_head = engine.state.head;

    // A later failure in the second operation must roll back the first while
    // retaining the rejection for this exact original batch identity.
    let rejected = Request {
        key: "bad-seal",
        reads: vec![
            ("docs", "recovery", Expected::Any),
            ("docs", "recovery", Expected::Version(4)),
            ("intent", "invalid", Expected::Absent),
        ],
        puts: vec![
            put("docs", "recovery", "failed-write", Expected::Version(4)),
            Put { collection: "intent", id: "invalid", body: None, expected: Expected::Absent },
        ],
    };
    let rejected_error = engine.apply(5, &rejected).unwrap_err();
    assert_eq!(rejected_error.0, ErrorCode::SchemaViolation);
    assert_eq!(engine.documents[&("docs", "recovery")].1, "writing");
    assert!(!engine.documents.contains_key(&("intent", "invalid")));
    assert_eq!(engine.state.head.count, committed_head.count + 1);

    let restored_head = engine.state.head;
    assert_eq!(engine.apply(6, &seal).unwrap(), committed);
    assert_eq!(
        told(&engine.row_of(&rejected).unwrap().receipt.outcome),
        Err(rejected_error.clone())
    );
    assert_eq!(engine.apply(7, &rejected).unwrap_err(), rejected_error);
    let mut substituted = seal;
    substituted.puts[1] = put("intent", "recovery", "substituted", Expected::Absent);
    assert_eq!(engine.apply(8, &substituted).unwrap_err().0, ErrorCode::Conflict);
    assert_eq!(engine.state.head, restored_head);
    let retained = engine.row_of(&rejected).unwrap();
    assert_eq!(retained.receipt.request_digest, Engine::request_digest(&rejected));
    // The receipts are one chain.
    let mut builder = Builder::new(name("tenant"), INCARNATION);
    for row in &engine.rows {
        builder.push(row, &context()).unwrap();
    }
    assert!(builder.push(&engine.rows[0], &context()).is_err());
    let prefix = builder.finish(&engine.state.head).unwrap();
    assert_eq!(prefix.head(), engine.state.head);
    assert_eq!(prefix.index(1).unwrap().key, engine.rows[0].key);
    assert!(prefix.index(4).is_err());
}

#[test]
fn admitted_failure_survives_byte_exhaustion_expansion_and_snapshot_replay() {
    let mut engine = engine(16 << 10);
    let original = batch("original", "row", 100_000);
    let failure = engine.apply(2, &original).unwrap_err();
    assert_eq!(failure.0, ErrorCode::QuotaExceeded);
    let head = engine.state.head;
    assert_eq!(head.count, 1);
    assert!(engine.documents.is_empty());
    engine.state.max_receipt_bytes = head.encoded_bytes;
    assert_eq!(engine.apply(4, &original).unwrap_err(), failure);
    assert_eq!(
        engine.apply(5, &batch("original", "different", 0)).unwrap_err().0,
        ErrorCode::Conflict
    );
    assert_eq!(
        engine.apply(6, &batch("new", "small", 0)).unwrap_err().0,
        ErrorCode::QuotaExceeded
    );
    assert_eq!(engine.state.head, head);
    engine.max_snapshot_bytes = 2 << 20;
    engine.state.max_receipt_bytes += 2 << 20;
    // The original body would fit now; its original failure is still final.
    assert_eq!(engine.apply(8, &original).unwrap_err(), failure);
    assert_eq!(engine.state.head, head);
    engine.apply(9, &batch("new", "small", 0)).unwrap();
    assert_eq!(engine.state.head.count, 2);
    assert_eq!(engine.documents.len(), 1);
}

#[test]
fn hot_audit_exhaustion_cannot_rewrite_original_or_admit_a_new_identity() {
    let mut engine = engine(2 << 20);
    let original = batch("original", "row", 10);
    let result = engine.apply(2, &original).unwrap();
    let head = engine.state.head;
    engine.audit_bytes = engine.max_audit_bytes;
    assert_eq!(engine.apply(3, &original).unwrap_err().0, ErrorCode::AuditUnavailable);
    assert_eq!(
        engine.apply(4, &batch("new", "new", 10)).unwrap_err().0,
        ErrorCode::AuditUnavailable
    );
    assert_eq!(engine.state.head, head);
    engine.max_audit_bytes += 128 << 10;
    assert_eq!(engine.apply(6, &original).unwrap(), result);
    assert_eq!(engine.state.head, head);
    engine.apply(7, &batch("new", "new", 10)).unwrap();
    assert_eq!(engine.state.head.count, 2);
}

const CODES: [ErrorCode; 16] = [
    ErrorCode::InvalidArgument,
    ErrorCode::Unauthorized,
    ErrorCode::Forbidden,
    ErrorCode::NotFound,
    ErrorCode::AlreadyExists,
    ErrorCode::Conflict,
    ErrorCode::SchemaViolation,
    ErrorCode::QuotaExceeded,
    ErrorCode::ResourceExhausted,
    ErrorCode::IndexRequired,
    ErrorCode::CursorExpired,
    ErrorCode::Unavailable,
    ErrorCode::UnknownOutcome,
    ErrorCode::Corruption,
    ErrorCode::Sealed,
    ErrorCode::AuditUnavailable,
];

fn encoded(code: ErrorCode, message: &str) -> u64 {
    // The code's words are written with underscores; the frame holds the quotes.
    let words = format!("{code:?}");
    let breaks = words.chars().skip(1).filter(|c| c.is_uppercase()).count();
    (words.len() + breaks + serde_json::to_string(message).unwrap().len() - 2) as u64
}

#[test]
fn terminal_reservation_covers_error_codes_escaped_versions_and_counter_widths() {
    let mut state = engine(2 << 20).state;
    state.revision = 100;
    state.head.count = 99;
    state.head.encoded_bytes = 99_999;
    state.head.last_applied_revision = 99;
    state.max_receipt_bytes = 64 << 20;
    let collection = bytes(&"~/".repeat(128));
    let operations: Vec<Target> = (0..256)
        .map(|i| Target {
            collection: collection.clone(),
            id: bytes(&format!("{i:03}{}", "~/".repeat(126))),
            write_refusal: None,
        })
        .collect();
    let paths: u64 = operations
        .iter()
        .map(|o| document_path(&o.collection, &o.id).len() as u64)
        .sum();
    let batch = Batch {
        tenant: name("tenant"),
        principal: name("owner"),
        idempotency_key: name("wide"),
        request_digest: digest(b"wide"),
        operations,
        admitted_refusal: None,
        resource_refusal: None,
        lifecycle_refusal: None,
        caller_name_refusal: None,
        target_name_refusal: None,
        read_refusals: vec![],
    };
    let applied = Applied { incarnation: INCARNATION, revision: 100, sha256: digest(b"command") };
    let frame = 700;
    let widest = encoded(ErrorCode::ResourceExhausted, &"\u{0001}".repeat(512));
    let sizes =
        RecordSizes { refusal_frame: frame, max_message_bytes: 512, written: frame + paths };
    let permit = Permit::prepare(&state, &batch, &applied, &sizes, &context()).unwrap();
    assert_eq!(permit.maximum_head.count, 100);
    assert!(permit.maximum_head.encoded_bytes >= 100_000);
    assert_eq!(permit.maximum_row_bytes, frame + paths + FRAME_HEADER);
    for code in CODES {
        for message in ["\u{0001}".repeat(512), "\\\"".repeat(256), "é".repeat(256)] {
            assert!(encoded(code, &message) <= widest);
            let outcome = Outcome::Refused { code, message: bytes(&message) };
            let pending = permit
                .finalize(&state, &batch, &applied, outcome, &sizes, &context())
                .unwrap();
            assert_eq!(pending.row.record_bytes, frame + encoded(code, &message));
            assert_eq!(pending.row.ordinal, 100);
            assert_eq!(pending.row.key, receipt_key(name("owner"), name("wide")));
            pending.row.validate(&context()).unwrap();
            assert!(
                framed_bytes(pending.row.record_bytes, FRAME_HEADER).unwrap()
                    <= permit.maximum_row_bytes
            );
            let head = advance(&state.head, &pending.row, FRAME_HEADER).unwrap();
            assert_eq!(head, pending.head);
            assert!(head.encoded_bytes <= permit.maximum_head.encoded_bytes);
        }
    }
    state.max_receipt_bytes = 99_999;
    let refused = Permit::prepare(&state, &batch, &applied, &sizes, &context()).unwrap_err();
    assert_eq!(refused.code, ErrorCode::QuotaExceeded);
    state.head.count = u64::MAX;
    let refused = Permit::prepare(&state, &batch, &applied, &sizes, &context()).unwrap_err();
    assert_eq!(refused.message, "receipt ordinal exhausted");
}

#[test]
fn a_retained_row_is_read_and_held_before_it_answers() {
    let mut engine = engine(2 << 20);
    let request = batch("one", "row", 1);
    let answered = engine.apply(2, &request).unwrap();
    let fits = Fits { audit: true, snapshot: true, completion: true };
    let facts = MutationFacts {
        reserved: fits,
        attempt: Ok(()),
        committed: fits,
        rejected: fits,
        observed: fits,
        observed_rejection: fits,
        sizes: sizes(1),
    };
    let applied = Applied { incarnation: INCARNATION, revision: 9, sha256: digest(b"again") };
    let apply = |stored: &Option<Stored>, context: &RowContext| {
        let batch = engine.batch_of(&request);
        apply_mutation_ordered(&engine.state, &batch, &applied, stored, &facts, context)
    };
    let (publication, row) = apply(&engine.stored(&request), &context()).unwrap();
    assert!(row.is_none() && !publication.changed);
    assert_eq!(publication.head, engine.state.head);
    assert_eq!(publication.audited, Audited::Committed);
    let Released::Retained(outcome) = &publication.released else { panic!("no replay") };
    assert_eq!(told(outcome), Ok(answered));

    let broken = error(ErrorCode::Corruption, "position");
    let moved = RowContext { position_refusal: Some(broken), ..context() };
    assert_eq!(apply(&engine.stored(&request), &moved).map(|_| ()).unwrap_err(), broken);
    let full = error(ErrorCode::ResourceExhausted, "reservation");
    let unreserved = apply(&Some(Stored::Unreserved(full)), &context());
    assert_eq!(unreserved.map(|_| ()).unwrap_err(), full);
    let Some(Stored::Decoded(mut forged)) = engine.stored(&request) else { unreachable!() };
    forged.row.receipt.outcome =
        Outcome::Refused { code: ErrorCode::Conflict, message: bytes("forged") };
    let refused = apply(&Some(Stored::Decoded(forged)), &context()).map(|_| ()).unwrap_err();
    assert_eq!(refused.message, "receipt row differs from ordinal commitment");
}

#[test]
fn a_batch_is_refused_before_its_identity_is_looked_at() {
    let engine = engine(2 << 20);
    let request = batch("k", "row", 1);
    let denied = error(ErrorCode::Forbidden, "denied");
    assert!(refuse_batch(&engine.batch_of(&request), name("tenant")).is_none());
    let refused = refuse_batch(&engine.batch_of(&request), name("other")).unwrap();
    assert_eq!(refused.code, ErrorCode::Forbidden);
    let mut write = engine.batch_of(&request);
    write.operations[0].write_refusal = Some(denied);
    assert_eq!(refuse_batch(&write, name("tenant")), Some(denied));
    let mut read = engine.batch_of(&request);
    read.read_refusals = vec![None, Some(denied)];
    assert_eq!(refuse_batch(&read, name("tenant")), Some(denied));
    let mut none = engine.batch_of(&request);
    none.operations = vec![];
    let refused = refuse_batch(&none, name("tenant")).unwrap();
    assert_eq!(refused.code, ErrorCode::InvalidArgument);
}

#[test]
fn a_path_leads_back_to_its_document() {
    let path = document_path(&bytes("a/b~c"), &bytes("~/"));
    assert_eq!(path, bytes("/a~1b~0c/~0~1"));
    assert_eq!(parse_path(&path, None, None).unwrap(), (bytes("a/b~c"), bytes("~/")));
    for bad in ["", "a/b", "/a", "/a~2/b", "/a/b/c", "/a/b~"] {
        assert!(parse_path(&bytes(bad), None, None).is_err(), "{bad}");
    }
}

#[test]
fn a_row_behind_the_visible_head_is_hidden_until_its_own_replay() {
    let mut engine = engine(2 << 20);
    let before = engine.state.head;
    engine.apply(2, &batch("one", "row", 1)).unwrap();
    let head = engine.state.head;
    let row = &engine.rows[0];
    let mut builder = Builder::new(name("tenant"), INCARNATION);
    builder.push(row, &context()).unwrap();
    let prefix = builder.finish(&head).unwrap();
    let entry = Some(prefix.index(1).unwrap());
    let around = Surroundings { entry, parent: None, top: entry };
    assert!(select_point(&head, row.key, row, &around).unwrap());
    assert!(!select_point(&before, row.key, row, &around).unwrap());
    assert!(select_point(&head, digest(b"another"), row, &around).is_err());
    validate_state(&head, entry, &engine.state).unwrap();
    assert!(check_reopened(&head, &entry.unwrap(), &None).is_err());

    let stored = bytes("row");
    let index = bytes("index");
    assert!(matches!(persist_step(&None, &None, &stored, &index).unwrap(), PersistStep::Write));
    let same = persist_step(&Some(bytes("row")), &Some(bytes("index")), &stored, &index).unwrap();
    assert!(matches!(same, PersistStep::Keep));
    assert!(persist_step(&Some(bytes("other")), &Some(bytes("index")), &stored, &index).is_err());
    assert!(persist_step(&Some(bytes("row")), &None, &stored, &index).is_err());

    let checkpoint = digest(b"checkpoint");
    assert!(bind_namespace(&head, &engine.state, checkpoint, false).is_err());
    let bound = bind_namespace(&head, &engine.state, checkpoint, true).unwrap();
    assert_ne!(bound.namespace, 0);
    assert_eq!(reopen(&head, &engine.state, checkpoint, Some(bound)).unwrap(), bound);
    assert!(reopen(&head, &engine.state, checkpoint, None).is_err());
    assert!(reopen(&head, &engine.state, digest(b"other"), Some(bound)).is_err());

    check_installation(&head, entry, name("tenant"), &engine.state).unwrap();
    assert!(check_installation(&head, entry, name("other"), &engine.state).is_err());
    let later = digest(b"later");
    assert!(checkpoint_binding(&head, &engine.state, None, entry, later).is_err());
    let rebound =
        checkpoint_binding(&head, &engine.state, Some(bound), entry, later).unwrap();
    assert_eq!((rebound.namespace, rebound.checkpoint_sha256), (bound.namespace, later));
}

fn written_once(key: &'static str) -> (Engine, Row, ReceiptHead) {
    let mut engine = engine(2 << 20);
    engine.apply(2, &batch(key, "row", 1)).unwrap();
    let row = engine.rows.remove(0);
    let head = engine.state.head;
    (engine, row, head)
}

fn found(row: Row, entry: Ordinal, top: Ordinal) -> Option<Stored> {
    let around = Surroundings { entry: Some(entry), parent: None, top: Some(top) };
    Some(Stored::Decoded(StoredRow { row, canonical_refusal: None, around }))
}

#[test]
fn an_installed_chain_is_opened_again_with_its_rows() {
    let (engine, row, head) = written_once("one");
    let mut builder = Builder::new(name("tenant"), INCARNATION);
    builder.push(&row, &context()).unwrap();
    let chain = builder.finish(&head).unwrap();
    let entry = chain.index(1).unwrap();
    let at = |reopen, selected, last, found, staged| Checkpoint {
        sha256: digest(b"checkpoint"),
        selected,
        reopen,
        last,
        found,
        staged,
    };
    let install =
        |at: &Checkpoint| prepare_install(&chain, name("tenant"), &engine.state, at);
    let refused = |at: &Checkpoint| install(at).unwrap_err().message;
    assert_eq!(
        refused(&at(false, None, None, vec![], false)),
        "namespace installation requires verified staged rows"
    );
    let bound = match install(&at(false, None, None, vec![], true)).unwrap() {
        Installation::Replaced(bound) => bound,
        Installation::Reopened(_) => panic!("a new namespace is needed"),
    };
    let held = vec![found(row, entry, entry)];
    let reopened = at(true, Some(bound), Some(entry), held, false);
    assert_eq!(install(&reopened).unwrap(), Installation::Reopened(bound));
    assert_eq!(
        refused(&at(true, None, Some(entry), vec![], false)),
        "authoritative receipt checkpoint binding missing"
    );
    assert_eq!(
        refused(&at(true, Some(bound), None, vec![], false)),
        "receipt ordinal missing"
    );
    for absent in [vec![], vec![None]] {
        assert_eq!(
            refused(&at(true, Some(bound), Some(entry), absent, false)),
            "checkpoint receipt row missing"
        );
    }
    let (_, mut forged, _) = written_once("one");
    forged.record_bytes += 1;
    forged.receipt.request_digest = digest(b"forged");
    let other = Ordinal { key: entry.key, sha256: forged.sha256() };
    let replaced = vec![found(forged, other, entry)];
    assert_eq!(
        refused(&at(true, Some(bound), Some(entry), replaced, false)),
        "checkpoint receipt physical row differs"
    );
}

#[test]
fn a_point_read_reserves_decodes_and_checks_in_order() {
    let (_, row, head) = written_once("one");
    let before = ReceiptHead::empty(name("tenant"), INCARNATION);
    let key = row.key;
    let entry = Ordinal { key, sha256: row.sha256() };
    let denied = error(ErrorCode::ResourceExhausted, "receipt reservation");
    let broken = error(ErrorCode::Corruption, "receipt decoding");
    let message = |r: Result<Option<&Row>, Error>| r.map(|_| ()).unwrap_err();
    assert!(get_charged(&head, key, &None).unwrap().is_none());
    assert_eq!(message(get_charged(&head, key, &Some(Stored::Unreserved(denied)))), denied);
    assert_eq!(message(get_charged(&head, key, &Some(Stored::Undecoded(broken)))), broken);
    let stored = found(row, entry, entry);
    assert_eq!(get_charged(&head, key, &stored).unwrap().unwrap().ordinal, 1);
    assert_eq!(ordinal_row(&head, 1, Some(entry), &stored).unwrap().key, key);
    assert!(get_charged(&before, key, &stored).unwrap().is_none());
    let at = |ordinal, entry, stored: &Option<Stored>| {
        ordinal_row(&head, ordinal, entry, stored).map(|_| ()).unwrap_err().message
    };
    assert_eq!(at(0, Some(entry), &stored), "receipt ordinal is outside selected generation");
    assert_eq!(at(2, Some(entry), &stored), "receipt ordinal is outside selected generation");
    assert_eq!(at(1, None, &stored), "receipt ordinal missing");
    assert_eq!(at(1, Some(entry), &None), "receipt indexed row missing");
    let wider = ReceiptHead { count: 2, ..head };
    let redirected = ordinal_row(&wider, 2, Some(entry), &stored);
    assert_eq!(redirected.map(|_| ()).unwrap_err().message, "receipt ordinal redirected");
    let Some(Stored::Decoded(rewritten)) = stored else { unreachable!() };
    let rewritten = Some(Stored::Decoded(StoredRow {
        canonical_refusal: Some(broken),
        ..rewritten
    }));
    assert_eq!(message(get_charged(&head, key, &rewritten)), broken);
    assert!(get_charged(&before, key, &rewritten).unwrap().is_none());
}

#[test]
fn a_row_is_persisted_where_rows_are_kept() {
    let (_, row, head) = written_once("one");
    let before = ReceiptHead::empty(name("tenant"), INCARNATION);
    let (bytes_of_row, index) = (bytes("row"), bytes("index"));
    let plan = |storage| plan_persist(storage, &None, &None, &bytes_of_row, &index);
    assert_eq!(plan(Storage::Durable).unwrap(), PersistStep::Write);
    assert_eq!(
        plan(Storage::Absent).unwrap_err().message,
        "receipt append storage is not installed"
    );
    assert_eq!(
        plan(Storage::Staged).unwrap_err().message,
        "unpublished restore staging cannot serve receipt writes"
    );
    assert_eq!(persisted(&before, &None, None).unwrap(), before);
    let entry = Ordinal { key: row.key, sha256: row.sha256() };
    let pending = Some(Pending { row, head });
    assert_eq!(persisted(&before, &pending, Some(entry)).unwrap(), head);
    assert_eq!(
        persisted(&before, &pending, None).unwrap_err().message,
        "receipt ordinal missing"
    );
}

#[test]
fn a_refused_name_is_met_in_its_place() {
    let (_, row, _) = written_once("one");
    let refusal = error(ErrorCode::InvalidArgument, "name");
    let held = |name_refusal| row.validate(&RowContext { name_refusal: Some(name_refusal), ..context() });
    assert_eq!(held(NameRefusal::Collection { at: 0, refusal }).unwrap_err(), refusal);
    assert_eq!(held(NameRefusal::PathCollection { at: 0, refusal }).unwrap_err(), refusal);
    assert_eq!(held(NameRefusal::PathIdentity { at: 0, refusal }).unwrap_err(), refusal);
    assert!(held(NameRefusal::PathIdentity { at: 1, refusal }).is_ok());
    let engine = engine(2 << 20);
    let mut empty = engine.batch_of(&batch("one", "row", 1));
    empty.operations = vec![];
    empty.target_name_refusal = Some(refusal);
    let count = refuse_batch(&empty, name("tenant")).unwrap();
    assert_eq!(count.message, "invalid mutation operation count");
    empty.caller_name_refusal = Some(refusal);
    assert_eq!(refuse_batch(&empty, name("tenant")), Some(refusal));
    let mut named = engine.batch_of(&batch("one", "row", 1));
    assert_eq!(refuse_batch(&named, name("tenant")), None);
    named.target_name_refusal = Some(refusal);
    assert_eq!(refuse_batch(&named, name("tenant")), Some(refusal));
}

#[test]
fn receipt_workspace_and_scratch_are_bounded() {
    assert_eq!(decode_workspace(21).unwrap(), 42);
    assert_eq!(decode_workspace(u64::MAX).unwrap_err().code, ErrorCode::ResourceExhausted);
    assert_eq!(scratch_limit(2).unwrap(), (64 << 20) + 16);
    assert!(scratch_limit(u64::MAX).is_err());
    let strict = strict_collections(
        &vec![bytes("a"), bytes("b"), bytes("c")],
        &vec![bytes("c"), bytes("a")],
    );
    assert_eq!(strict, vec![bytes("a"), bytes("c")]);
}

#[test]
fn only_a_canonical_identity_is_read() {
    assert_eq!(
        read_identity("00000000-0000-0000-0000-0000000000ff"),
        Some(255)
    );
    assert_eq!(read_identity("00000000-0000-0000-0000-0000000000FF"), None);
    assert_eq!(read_identity("000000000000000000000000000000ff"), None);
    assert_eq!(read_identity("ff"), None);
}

#[test]
fn a_receipt_is_read_with_the_generation_it_stands_in() {
    let mut engine = engine(2 << 20);
    engine.apply(2, &batch("one", "row", 1)).unwrap();
    let source = ReceiptSource {
        revision: 7,
        policy_epoch: 3,
        strict_read_audit: true,
        strict: vec![bytes("docs"), bytes("other")],
    };
    let moment =
        ReadMoment { cancellation: None, live_refusal: None, now_ns: 5, deadline_ns: 9 };
    let absent = read_receipt(&source, None, &context(), &moment).unwrap();
    assert!(absent.receipt.is_none());
    assert_eq!((absent.revision, absent.epoch, absent.strict), (7, 3, true));
    assert!(absent.strict_collections.is_empty());
    let late = ReadMoment { now_ns: 9, ..moment };
    let refused = read_receipt(&source, None, &context(), &late).err().unwrap();
    assert_eq!(refused.message, "mutation receipt deadline exceeded");
    let cancelled = error(ErrorCode::Unavailable, "cancelled");
    let gone = ReadMoment { cancellation: Some(cancelled), ..late };
    assert_eq!(read_receipt(&source, None, &context(), &gone).err(), Some(cancelled));
    let row = engine.rows.remove(0);
    let key = row.receipt.idempotency_key;
    let read = read_receipt(&source, Some(row), &context(), &moment).unwrap();
    assert_eq!(read.receipt.unwrap().idempotency_key, key);
    assert_eq!(read.strict_collections, vec![bytes("docs")]);
    engine.apply(3, &batch("two", "row", 1)).unwrap();
    let mut broken = engine.rows.remove(0);
    broken.ordinal = 0;
    let refused = read_receipt(&source, Some(broken), &context(), &moment).err().unwrap();
    assert_eq!(refused.code, ErrorCode::Corruption);
}
