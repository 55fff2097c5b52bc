//! Archived history: publication, reading back, and the archives of a backup.
use kasumi_engine::digest::{digest, Digest, Name};
use kasumi_engine::errors::{error, Error, ErrorCode};
use kasumi_engine::full_backup::{
    check_archive, check_archive_chunk, check_copied, check_session, check_source, BackupChunk,
    FullCheckpoint, PageRef, Pages, PublishedRoot, SessionIntent, StateStream,
};
use kasumi_engine::backup_copy::{CopyPosition, CopyStep};
use kasumi_engine::backup_publication::Publication;
use kasumi_engine::history_archiver::{Export, ExportAction};
use kasumi_engine::history_export::{
    admit_export, check_published, chunk_revision, chunk_step, describe_chunk,
    export_admission, select, ArchiveHistory, ChunkStep, ExportAccess, ExportStep,
};
use kasumi_engine::history_hydration::{cold_targets, hydrate, Candidates, QueryTargets, Target};
use kasumi_engine::history_model::{
    ArchiveBounds, ArchiveForms, Archived, ChunkRefusal, Collection, Descriptor, Document,
    EntrySize, HistoryState, IndexedField, Manifest, PublishArchive,
};
use kasumi_engine::history_point_read::{read_step, ReadStep};
use kasumi_engine::history_reads::{
    check_object, locate, Chunk, Database, HistoryReadCache, Located,
};
use kasumi_engine::history_state::{
    changes, metadata_entry, publish, validate_manifest, validate_restored, PublishAuthority,
};

const BOUNDS: ArchiveBounds = ArchiveBounds {
    max_chunks: 8,
    max_documents: 100,
    max_manifest_bytes: 4096,
    max_chunk_bytes: 1024,
    max_source_bytes: 4096,
};

fn text(s: &str) -> Vec<u8> {
    s.as_bytes().to_vec()
}

fn document(id: &str, version: u64) -> Document {
    Document {
        id: text(id),
        version,
        sha256: digest(format!("{id} {version}").as_bytes()),
        encoded_bytes: 40,
        body_bytes: 30,
        fields: vec![
            IndexedField { path: Name::of("/kind"), value_sha256: digest(b"kind") },
            IndexedField { path: Name::of("/other"), value_sha256: digest(b"other") },
        ],
    }
}

fn state() -> HistoryState {
    HistoryState {
        tenant: Name::of("tenant"),
        incarnation: 5,
        schema_epoch: 2,
        policy_epoch: 3,
        revision: 20,
        strict_read_audit: false,
        max_archive_segments: 4,
        max_cursor_bytes: 1 << 20,
        max_query_candidates: 10,
        logical_bytes: 150,
        collections: vec![Collection {
            name: Name::of("log"),
            archivable: true,
            append_only: true,
            text_indexed: false,
            strict_read_audit: false,
            paths: vec![Name::of("/kind")],
            data_epoch: 20,
            documents: vec![
                document("a", 1),
                document("b", 9),
                document("c", 2),
                document("d", 3),
                document("e", 12),
            ],
            archived: vec![],
            archived_bytes: 0,
        }],
        archives: vec![],
        archive_bytes: 0,
    }
}

fn chunk_bytes(ids: &[&str]) -> Vec<u8> {
    format!("chunk {}", ids.join(" ")).into_bytes()
}

fn descriptor(object_id: u128, ids: &[&str]) -> Descriptor {
    let encoded = chunk_bytes(ids);
    Descriptor {
        object_id,
        ciphertext_sha256: digest(b"ciphertext"),
        plaintext_sha256: digest(&encoded),
        plaintext_bytes: encoded.len() as u64,
        document_count: ids.len() as u64,
        first_id: text(ids[0]),
        last_id: text(ids[ids.len() - 1]),
    }
}

fn request() -> PublishArchive {
    PublishArchive {
        manifest: Manifest {
            archive_id: Name::of("archive"),
            tenant: Name::of("tenant"),
            source_incarnation: 5,
            collection: Name::of("log"),
            cutoff_revision: 5,
            source_schema_epoch: 2,
            destination: Name::of("cold"),
            document_count: 3,
            chunks: vec![descriptor(1, &["a", "c"]), descriptor(2, &["d"])],
            encoded_bytes: 300,
        },
        manifest_object_id: 77,
        manifest_ciphertext_sha256: digest(b"manifest"),
        expected_policy_epoch: 3,
        forms: ArchiveForms::accepted(),
    }
}

fn authority() -> PublishAuthority {
    PublishAuthority { tenant_refusal: None, collection_refusal: None, read_refusal: None }
}

fn publish_into(
    state: &mut HistoryState,
    request: &PublishArchive,
    revision: u64,
) -> Result<(u64, bool), Error> {
    let encodings = vec![chunk_bytes(&["a", "c"]), chunk_bytes(&["d"])];
    let sizes = vec![EntrySize { id: 1, value: 10 }; 3];
    let size = EntrySize { id: 7, value: 90 };
    publish(state, &authority(), request, &encodings, &sizes, size, revision, &BOUNDS)
}

fn ids(documents: &[Document]) -> Vec<String> {
    documents.iter().map(|d| String::from_utf8(d.id.clone()).unwrap()).collect()
}

fn archived_ids(rows: &[Archived]) -> Vec<String> {
    rows.iter().map(|r| String::from_utf8(r.id.clone()).unwrap()).collect()
}

#[test]
fn archival_moves_the_rows_in_front_of_the_cutoff_and_nothing_else() {
    let mut state = state();
    assert_eq!(publish_into(&mut state, &request(), 21).unwrap(), (21, true));
    let collection = &state.collections[0];
    assert_eq!(ids(&collection.documents), ["b", "e"]);
    assert_eq!(archived_ids(&collection.archived), ["a", "c", "d"]);
    assert_eq!(collection.archived[1].version, 2);
    assert_eq!(collection.archived[1].document_sha256, document("c", 2).sha256);
    assert_eq!(collection.archived[1].chunk_index, 0);
    assert_eq!(collection.archived[2].chunk_index, 1);
    assert_eq!(collection.archived[0].indexed_fields.len(), 1);
    assert_eq!(collection.archived_bytes, 3 * 12);
    assert_eq!(state.logical_bytes, 150 - 90);
    assert_eq!(state.archive_bytes, 98);
    state.revision = 21;
    validate_restored(&state, &BOUNDS).unwrap();
    // The same archive once more is answered as it was.
    assert_eq!(publish_into(&mut state, &request(), 22).unwrap(), (21, false));
    assert_eq!(state.archives.len(), 1);
    let mut other = request();
    other.manifest_object_id = 78;
    assert_eq!(publish_into(&mut state, &other, 23).unwrap_err().code, ErrorCode::Conflict);
    state.collections[0].archived_bytes += 1;
    assert_eq!(validate_restored(&state, &BOUNDS).unwrap_err().code, ErrorCode::Corruption);
}

#[test]
fn a_publication_is_refused_where_its_source_changed() {
    let refused = |change: &dyn Fn(&mut HistoryState, &mut PublishArchive)| {
        let mut state = state();
        let mut request = request();
        change(&mut state, &mut request);
        let before = ids(&state.collections[0].documents);
        let refusal = publish_into(&mut state, &request, 21).unwrap_err();
        assert_eq!(ids(&state.collections[0].documents), before);
        assert!(state.archives.is_empty());
        refusal
    };
    assert_eq!(refused(&|s, _| s.policy_epoch = 4).code, ErrorCode::Conflict);
    assert_eq!(refused(&|s, _| s.schema_epoch = 3).code, ErrorCode::Conflict);
    assert_eq!(refused(&|s, _| s.max_archive_segments = 0).code, ErrorCode::QuotaExceeded);
    assert_eq!(
        refused(&|s, _| s.collections[0].name = Name::of("x")).code,
        ErrorCode::NotFound
    );
    assert!(refused(&|s, _| s.collections[0].append_only = false).message.contains("eligible"));
    assert_eq!(
        refused(&|s, _| s.collections[0].documents[0].version = 8).message,
        "archive source count changed"
    );
    assert_eq!(
        refused(&|_, r| r.manifest.chunks[0].plaintext_sha256 = digest(b"other")).message,
        "archive source bytes differ from verified chunk"
    );
    assert_eq!(
        refused(&|_, r| r.manifest.chunks[1].first_id = text("cc")).message,
        "archive chunk does not cover its source interval"
    );
    assert_eq!(
        refused(&|_, r| r.manifest.document_count = 4).message,
        "archive count differs from manifest"
    );
    let mut unauthorized = authority();
    let denied = error(ErrorCode::Forbidden, "denied");
    unauthorized.read_refusal = Some(denied);
    let mut fresh = state();
    let refusal = publish(
        &mut fresh,
        &unauthorized,
        &request(),
        &vec![vec![], vec![]],
        &vec![EntrySize { id: 0, value: 0 }; 3],
        EntrySize { id: 0, value: 0 },
        21,
        &BOUNDS,
    )
    .unwrap_err();
    assert_eq!(refusal, denied);
    let incomplete = publish(
        &mut fresh,
        &authority(),
        &request(),
        &vec![],
        &vec![EntrySize { id: 0, value: 0 }; 3],
        EntrySize { id: 0, value: 0 },
        21,
        &BOUNDS,
    )
    .unwrap_err();
    assert_eq!(incomplete.message, "archive encodings are incomplete");
}

fn denied() -> Error {
    error(ErrorCode::InvalidArgument, "identity")
}

#[test]
fn an_export_is_admitted_in_the_order_of_its_refusals() {
    let refusal = |message| error(ErrorCode::Forbidden, message);
    let free = ExportAccess {
        name_refusal: None,
        tenant_refusal: None,
        collection_refusal: None,
        read_refusal: None,
        access_refusal: None,
        slot_free: true,
        barrier: Ok(()),
        release_refusal: None,
    };
    assert_eq!(admit_export(&free), Ok(()));
    let mut access = ExportAccess { release_refusal: Some(refusal("release")), ..free };
    assert_eq!(admit_export(&access), Err(refusal("release")));
    access.barrier = Err(refusal("barrier"));
    assert_eq!(admit_export(&access), Err(refusal("barrier")));
    access.slot_free = false;
    assert_eq!(
        admit_export(&access).unwrap_err().message,
        "archive export concurrency limit reached"
    );
    access.access_refusal = Some(refusal("access"));
    assert_eq!(admit_export(&access), Err(refusal("access")));
    access.read_refusal = Some(refusal("read"));
    assert_eq!(admit_export(&access), Err(refusal("read")));
    access.collection_refusal = Some(refusal("collection"));
    assert_eq!(admit_export(&access), Err(refusal("collection")));
    access.tenant_refusal = Some(refusal("tenant"));
    assert_eq!(admit_export(&access), Err(refusal("tenant")));
    access.name_refusal = Some(refusal("name"));
    assert_eq!(admit_export(&access), Err(refusal("name")));
}

#[test]
fn a_manifest_is_bounded_and_its_chunks_ascend() {
    validate_manifest(&request().manifest, &BOUNDS, &ArchiveForms::accepted()).unwrap();
    let refusal = error(ErrorCode::InvalidArgument, "form");
    let named = ArchiveForms { names: Some(refusal), ..ArchiveForms::accepted() };
    let unbounded = Manifest { document_count: 0, ..request().manifest };
    assert_eq!(validate_manifest(&unbounded, &BOUNDS, &named), Err(refusal));
    let chunk = Some(ChunkRefusal { at: 1, refusal });
    let second = ArchiveForms { chunk, ..ArchiveForms::accepted() };
    assert_eq!(validate_manifest(&request().manifest, &BOUNDS, &second), Err(refusal));
    let object = ArchiveForms { object: Some(refusal), ..ArchiveForms::accepted() };
    let mut published = self::state();
    let refused =
        publish_into(&mut published, &PublishArchive { forms: object, ..request() }, 21);
    assert_eq!(refused, Err(refusal));
    publish_into(&mut published, &request(), 21).unwrap();
    published.revision = 21;
    validate_restored(&published, &BOUNDS).unwrap();
    published.archives[0].forms = object;
    assert_eq!(validate_restored(&published, &BOUNDS), Err(refusal));
    published.archives[0].forms = ArchiveForms::accepted();
    published.archives[0].forms.destination = Some(refusal);
    assert_eq!(validate_restored(&published, &BOUNDS), Err(refusal));
    published.collections[0].archived[0].form_refusal = Some(denied());
    assert_eq!(validate_restored(&published, &BOUNDS), Err(denied()));
    let mut overlapping = request().manifest;
    overlapping.chunks[1].first_id = text("b");
    assert!(validate_manifest(&overlapping, &BOUNDS, &ArchiveForms::accepted()).is_err());
    let mut twice = request().manifest;
    twice.chunks[1].object_id = 1;
    assert!(validate_manifest(&twice, &BOUNDS, &ArchiveForms::accepted()).is_err());
    let mut large = request().manifest;
    large.encoded_bytes = 4097;
    assert!(validate_manifest(&large, &BOUNDS, &ArchiveForms::accepted()).is_err());
    assert_eq!(metadata_entry(&EntrySize { id: 2, value: 3 }).unwrap(), 6);
    assert!(metadata_entry(&EntrySize { id: u64::MAX, value: 3 }).is_err());
}

#[test]
fn an_export_selects_the_early_rows_and_fills_its_chunks() {
    let state = state();
    let ask = ArchiveHistory {
        archive_id: Name::of("archive"),
        collection: Name::of("log"),
        cutoff_revision: 5,
        destination: Name::of("cold"),
    };
    assert!(matches!(
        export_admission(&state, &ask).unwrap(),
        ExportStep::Export { collection: 0 }
    ));
    let late = ArchiveHistory { cutoff_revision: 21, ..ask };
    assert_eq!(export_admission(&state, &late).unwrap_err().code, ErrorCode::ResourceExhausted);
    let rows = select(&state.collections[0], 5, &BOUNDS).unwrap();
    assert_eq!(ids(&rows), ["a", "c", "d"]);
    assert_eq!(chunk_revision(&rows, 0, rows.len()), 3);
    let found: Vec<String> = changes(&state, Name::of("log"), 5)
        .into_iter()
        .map(|id| String::from_utf8(id).unwrap())
        .collect();
    assert_eq!(found, ["a", "c", "d"]);
    assert!(matches!(
        chunk_step(100, 1, 50, 200).unwrap(),
        ChunkStep::Append { chunk_bytes: 151 }
    ));
    assert!(matches!(chunk_step(190, 1, 50, 200).unwrap(), ChunkStep::Export));
    assert_eq!(chunk_step(10, 0, 500, 200).unwrap_err().code, ErrorCode::ResourceExhausted);
    let encoded = chunk_bytes(&["a", "c", "d"]);
    let described = describe_chunk(&rows, 0, rows.len(), &encoded, 9, digest(b"c"), 1024).unwrap();
    assert_eq!(described.plaintext_sha256, digest(&encoded));
    assert_eq!(described.document_count, 3);
    assert_eq!(described.last_id, text("d"));
    assert!(describe_chunk(&rows, 0, rows.len(), &encoded, 9, digest(b"c"), 3).is_err());
    check_published(digest(b"object"), b"object").unwrap();
    assert!(check_published(digest(b"object"), b"other").is_err());
    let mut published = self::state();
    publish_into(&mut published, &request(), 21).unwrap();
    assert!(matches!(
        export_admission(&published, &ask).unwrap(),
        ExportStep::Retained { revision: 21, .. }
    ));
}

#[test]
fn a_cold_document_is_read_back_as_it_was() {
    let mut state = state();
    publish_into(&mut state, &request(), 21).unwrap();
    assert!(matches!(
        locate(&state, Name::of("log"), &text("b")).unwrap(),
        Located::Hot(d) if d.version == 9
    ));
    assert!(matches!(locate(&state, Name::of("log"), &text("x")).unwrap(), Located::Absent));
    let (reference, archive) = match locate(&state, Name::of("log"), &text("c")).unwrap() {
        Located::Cold { reference, archive, .. } => (reference, archive),
        _ => panic!("an archived document is needed"),
    };
    let collection = &state.collections[0];
    let row = &collection.archived[reference];
    let archive = &state.archives[archive];
    let mut cache = HistoryReadCache::new();
    assert!(!cache.has_manifest(Name::of("archive")));
    let mut foreign = request().manifest;
    foreign.destination = Name::of("elsewhere");
    assert!(cache.admit_manifest(archive, &foreign).is_err());
    cache.admit_manifest(archive, &request().manifest).unwrap();
    assert!(cache.has_manifest(Name::of("archive")));
    assert!(cache.find_chunk(Name::of("archive"), 0).is_none());
    let total = cache.budget(&archive.manifest, 0, 1 << 20).unwrap();
    assert!(cache.budget(&archive.manifest, 0, 1).is_err());
    let plaintext = chunk_bytes(&["a", "c"]);
    let chunk = || Chunk {
        archive_id: Name::of("archive"),
        source_incarnation: 5,
        collection: Name::of("log"),
        index: 0,
        documents: vec![document("a", 1), document("c", 2)],
    };
    assert!(
        cache
            .admit_chunk(Name::of("log"), row, &archive.manifest, &text("other"), chunk(), total)
            .is_err()
    );
    cache
        .admit_chunk(Name::of("log"), row, &archive.manifest, &plaintext, chunk(), total)
        .unwrap();
    let at = cache.find_chunk(Name::of("archive"), 0).unwrap();
    let read = cache.resolve(at, collection, row, &text("c")).unwrap();
    assert_eq!(read.sha256, document("c", 2).sha256);
    assert_eq!(read.version, 2);
    assert!(cache.resolve(at, collection, row, &text("zz")).is_err());
    check_object(b"bytes", digest(b"bytes")).unwrap();
    assert!(check_object(b"bytes", digest(b"other")).is_err());
}

#[test]
fn only_cold_targets_are_hydrated() {
    let mut state = state();
    publish_into(&mut state, &request(), 21).unwrap();
    let key = |id: &str| Target { collection: Name::of("log"), id: text(id) };
    let cold = cold_targets(&state, &vec![key("a"), key("b"), key("a"), key("x")], &vec![]).unwrap();
    assert_eq!(cold.len(), 1);
    assert_eq!(cold[0].id, text("a"));
    let query = |candidates: Candidates| QueryTargets {
        collection: Name::of("log"),
        allow_scan: false,
        has_text: false,
        candidates,
    };
    let found = cold_targets(&state, &vec![], &vec![query(Candidates::Ids(vec![text("d"), text("b")]))])
        .unwrap();
    assert_eq!(found.len(), 1);
    let refusal = error(ErrorCode::IndexRequired, "no index");
    assert!(cold_targets(&state, &vec![], &vec![query(Candidates::Refused(refusal))]).is_err());
    let mut documents = vec![document("b", 9), document("e", 12)];
    hydrate(&mut documents, document("c", 2));
    assert_eq!(ids(&documents), ["b", "c", "e"]);
}

#[test]
fn an_archive_destination_is_installed_once_under_its_alias() {
    let mut database = Database::new();
    let bad = error(ErrorCode::InvalidArgument, "invalid name");
    assert_eq!(database.install_archive_destination("cold", Some(bad), 4).unwrap_err(), bad);
    assert_eq!(
        database.archive_destination(Name::of("cold")).unwrap_err().code,
        ErrorCode::Unavailable
    );
    database.install_archive_destination("cold", None, 4).unwrap();
    assert_eq!(database.archive_destination(Name::of("cold")).unwrap(), 4);
    assert_eq!(
        database.install_archive_destination("cold", None, 5).unwrap_err().code,
        ErrorCode::Conflict
    );
    assert_eq!(database.archive_destination(Name::of("cold")).unwrap(), 4);
    database.install_archive_destination("cold", None, 4).unwrap();
    database.install_archive_destination("warm", None, 5).unwrap();
    assert_eq!(database.archive_destination(Name::of("warm")).unwrap(), 5);
}

#[test]
fn a_backup_stream_cuts_what_is_written_into_full_chunks() {
    let mut stream = StateStream::new(10, 4);
    assert_eq!(stream.write(&text("abcde")).unwrap(), vec![text("abcd")]);
    assert_eq!(stream.write(&text("fgh")).unwrap(), vec![text("efgh")]);
    assert!(stream.write(&text("ijk")).is_err());
    assert_eq!(stream.write(&text("i")).unwrap(), Vec::<Vec<u8>>::new());
    assert_eq!(stream.finish(), (9, digest(b"abcdefghi"), Some(text("i"))));
    let empty = StateStream::new(10, 4);
    assert_eq!(empty.finish(), (0, digest(b""), None));
}

fn chunk(n: u128) -> BackupChunk {
    BackupChunk {
        object_id: n,
        ciphertext_sha256: digest(b"c"),
        plaintext_sha256: digest(b"p"),
        plaintext_bytes: 4,
    }
}

#[test]
fn backup_pages_are_chained_and_the_root_matches_its_own_checkpoint() {
    let mut pages = Pages::new(2);
    assert!(pages.add(chunk(1)).unwrap().is_none());
    let page = pages.add(chunk(2)).unwrap().unwrap();
    assert_eq!((page.index, page.chunks.len(), page.previous), (0, 2, None));
    let first = PageRef { object_id: 90, ciphertext_sha256: digest(b"page") };
    pages.published(first);
    assert!(pages.add(chunk(3)).unwrap().is_none());
    let rest = pages.remainder().unwrap();
    assert_eq!((rest.index, rest.chunks.len(), rest.previous), (1, 1, Some(first)));
    let second = PageRef { object_id: 91, ciphertext_sha256: digest(b"last") };
    pages.published(second);
    assert!(pages.remainder().is_none());
    let manifest = pages
        .manifest(Name::of("tenant"), 5, 20, 12, digest(b"resident"))
        .unwrap();
    assert_eq!((manifest.chunk_count, manifest.page_count), (3, 2));
    assert_eq!(manifest.resident_sha256, digest(b"resident"));
    assert_eq!(manifest.last_page, second);
    assert!(Pages::new(2).manifest(Name::of("tenant"), 5, 20, 0, digest(b"")).is_err());
    let root = PublishedRoot::of(&manifest, 44, digest(b"m"));
    let checkpoint = FullCheckpoint { root, sha256: digest(b"checkpoint") };
    assert!(root.matches(&checkpoint));
    let other = FullCheckpoint {
        root: PublishedRoot { revision: 21, ..root },
        sha256: digest(b"checkpoint"),
    };
    assert!(!root.matches(&other));
}

#[test]
fn backup_objects_are_what_they_were_verified_as() {
    let mut published = state();
    publish_into(&mut published, &request(), 21).unwrap();
    check_archive(&published.archives[0], &request().manifest).unwrap();
    let mut other = request().manifest;
    other.cutoff_revision = 6;
    assert!(check_archive(&published.archives[0], &other).is_err());
    let plaintext = chunk_bytes(&["d"]);
    check_archive_chunk(&descriptor(2, &["d"]), &plaintext).unwrap();
    assert!(check_archive_chunk(&descriptor(2, &["d"]), &text("x")).is_err());
    check_source(&text("s"), digest(b"s")).unwrap();
    assert!(check_source(&text("s"), digest(b"t")).is_err());
    check_copied(&text("s"), &text("s")).unwrap();
    assert!(check_copied(&text("s"), &text("t")).is_err());
    let intent = SessionIntent {
        session_id: 1,
        tenant: Name::of("tenant"),
        source_incarnation: 5,
        revision: 20,
        principal: Name::of("owner"),
        request_id: Name::of("r"),
    };
    check_session(&intent, Some((intent, false))).unwrap();
    assert!(check_session(&intent, None).is_err());
    let none: Digest = digest(b"");
    assert_eq!(
        (none.high, none.low),
        (0xe3b0c44298fc1c149afbf4c8996fb924, 0x27ae41e4649b934ca495991b7852b855)
    );
}

#[test]
fn what_is_exported_is_what_its_publication_accepts() {
    let state = self::state();
    let ask = ArchiveHistory {
        archive_id: Name::of("archive"),
        collection: Name::of("log"),
        cutoff_revision: 5,
        destination: Name::of("cold"),
    };
    let rows = select(&state.collections[0], 5, &BOUNDS).unwrap();
    let mut export = Export::begin(&state, &ask, rows);
    let mut encodings = Vec::new();
    let mut cuts = Vec::new();
    loop {
        match export.open(4, 110).unwrap() {
            ExportAction::Chunk { index, first, end, revision } => {
                cuts.push((index, first, end, revision));
                let ids: Vec<String> = (first..end)
                    .map(|i| String::from_utf8(export.row(i).id.clone()).unwrap())
                    .collect();
                let names: Vec<&str> = ids.iter().map(|id| id.as_str()).collect();
                let encoded = chunk_bytes(&names);
                export.exported(&encoded, u128::from(index) + 1, digest(b"c"), 1024).unwrap();
                encodings.push(encoded);
            }
            ExportAction::Manifest => break,
        }
    }
    assert_eq!(cuts, [(0, 0, 2, 2), (1, 2, 3, 3)]);
    let manifest = export.finish(600, &BOUNDS, &ArchiveForms::accepted()).unwrap();
    assert_eq!(manifest.document_count, 3);
    assert_eq!(manifest.chunks[1].first_id, text("d"));
    assert!(export.finish(5000, &BOUNDS, &ArchiveForms::accepted()).is_err());
    let mut next = self::state();
    let publication = PublishArchive { manifest, ..request() };
    let sizes = vec![EntrySize { id: 1, value: 10 }; 3];
    publish(
        &mut next,
        &authority(),
        &publication,
        &encodings,
        &sizes,
        EntrySize { id: 7, value: 100 },
        21,
        &BOUNDS,
    )
    .unwrap();
    assert_eq!(archived_ids(&next.collections[0].archived), ["a", "c", "d"]);
    let wide = select(&state.collections[0], 5, &BOUNDS).unwrap();
    let mut narrow = Export::begin(&state, &ask, wide);
    assert_eq!(narrow.open(4, 50).unwrap_err().code, ErrorCode::ResourceExhausted);
}

#[test]
fn a_point_read_fetches_a_manifest_and_a_chunk_once() {
    let mut state = self::state();
    publish_into(&mut state, &request(), 21).unwrap();
    let mut destinations = Database::new();
    let mut cache = HistoryReadCache::new();
    let log = Name::of("log");
    let step = |destinations: &Database, cache: &HistoryReadCache, id: &str| {
        read_step(&state, destinations, cache, log, &text(id))
    };
    assert!(matches!(
        step(&destinations, &cache, "b").unwrap(),
        ReadStep::Done(Some(d)) if d.version == 9
    ));
    assert!(matches!(step(&destinations, &cache, "x").unwrap(), ReadStep::Done(None)));
    assert_eq!(step(&destinations, &cache, "c").err().unwrap().code, ErrorCode::Unavailable);
    destinations.install_archive_destination("cold", None, 8).unwrap();
    let archive = match step(&destinations, &cache, "c").unwrap() {
        ReadStep::FetchManifest { destination: 8, archive } => archive,
        _ => panic!("a manifest is needed"),
    };
    let manifest = &state.archives[archive].manifest;
    cache.admit_manifest(&state.archives[archive], &request().manifest).unwrap();
    let (reference, total) = match step(&destinations, &cache, "c").unwrap() {
        ReadStep::FetchChunk { destination: 8, reference, total, .. } => (reference, total),
        _ => panic!("a chunk is needed"),
    };
    let row = &state.collections[0].archived[reference];
    let chunk = Chunk {
        archive_id: Name::of("archive"),
        source_incarnation: 5,
        collection: log,
        index: 0,
        documents: vec![document("a", 1), document("c", 2)],
    };
    cache
        .admit_chunk(log, row, manifest, &chunk_bytes(&["a", "c"]), chunk, total)
        .unwrap();
    assert!(matches!(
        step(&destinations, &cache, "c").unwrap(),
        ReadStep::Done(Some(d)) if d.sha256 == document("c", 2).sha256
    ));
    assert!(matches!(
        step(&destinations, &cache, "a").unwrap(),
        ReadStep::Done(Some(d)) if d.version == 1
    ));
    assert!(matches!(
        step(&destinations, &cache, "d").unwrap(),
        ReadStep::FetchChunk { .. }
    ));
}

#[test]
fn a_backup_copies_every_archived_object_before_its_root() {
    let mut state = self::state();
    let none = CopyPosition::start();
    assert_eq!(none.step(&state, 4096), CopyStep::Root);
    publish_into(&mut state, &request(), 21).unwrap();
    let mut position = CopyPosition::start();
    match position.step(&state, 4096) {
        CopyStep::Manifest(dependency) => {
            assert_eq!(dependency.object_id, request().manifest_object_id);
            assert_eq!(dependency.max_plaintext_bytes, 4096);
            assert_eq!((dependency.source, dependency.session), (Name::of("cold"), None));
        }
        _ => panic!("a manifest is needed"),
    }
    let mut other = request().manifest;
    other.cutoff_revision = 6;
    assert!(position.manifest_copied(&state, &other).is_err());
    position = position.manifest_copied(&state, &request().manifest).unwrap();
    for (object_id, ids) in [(1, vec!["a", "c"]), (2, vec!["d"])] {
        match position.step(&state, 4096) {
            CopyStep::Chunk(dependency) => assert_eq!(dependency.object_id, object_id),
            _ => panic!("a chunk is needed"),
        }
        assert!(position.chunk_copied(&state, &text("x")).is_err());
        position = position.chunk_copied(&state, &chunk_bytes(&ids)).unwrap();
    }
    assert_eq!(position.step(&state, 4096), CopyStep::Root);
}

#[test]
fn a_backup_publishes_its_pages_and_archives_and_then_its_root() {
    let mut state = self::state();
    publish_into(&mut state, &request(), 21).unwrap();
    let intent = SessionIntent {
        session_id: 1,
        tenant: Name::of("tenant"),
        source_incarnation: 5,
        revision: 20,
        principal: Name::of("owner"),
        request_id: Name::of("r"),
    };
    assert_eq!(
        Publication::begin(intent, None, Some((intent, true)), 2, 10, 4).err().unwrap().code,
        ErrorCode::Conflict
    );
    let mut publication =
        Publication::begin(intent, None, Some((intent, false)), 2, 10, 4).unwrap();
    publication.write(&text("ab")).unwrap();
    assert!(publication.next_chunk().is_none());
    publication.write(&text("cdefgh")).unwrap();
    assert!(publication.write(&text("xyz")).is_err());
    publication.write(&text("ij")).unwrap();
    assert_eq!(publication.resident(), None);
    publication.finish();
    assert_eq!(publication.resident(), Some((10, digest(b"abcdefghij"))));
    assert_eq!(publication.next_chunk(), Some(&text("abcd")));
    assert!(publication.chunk_published(31, digest(b"1")).unwrap().is_none());
    let page = publication.chunk_published(32, digest(b"2")).unwrap().unwrap();
    assert_eq!((page.index, page.chunks.len(), page.previous), (0, 2, None));
    assert_eq!(page.chunks[0].plaintext_sha256, digest(b"abcd"));
    let first = PageRef { object_id: 40, ciphertext_sha256: digest(b"p") };
    publication.page_published(first);
    assert!(publication.chunk_published(33, digest(b"3")).unwrap().is_none());
    let rest = publication.stream_ended().unwrap();
    assert_eq!((rest.index, rest.chunks.len(), rest.previous), (1, 1, Some(first)));
    let second = PageRef { object_id: 41, ciphertext_sha256: digest(b"q") };
    publication.page_published(second);
    assert!(publication.seal(false).is_err());
    publication.seal(true).unwrap();
    assert!(publication.root_manifest(&state).is_none());
    assert!(matches!(publication.copy_step(&state, 4096), CopyStep::Manifest(_)));
    publication.manifest_copied(&state, &request().manifest).unwrap();
    assert!(publication.chunk_copied(&state, &text("x")).is_err());
    publication.chunk_copied(&state, &chunk_bytes(&["a", "c"])).unwrap();
    assert!(publication.root_published(&state, 1, digest(b"m")).is_none());
    publication.chunk_copied(&state, &chunk_bytes(&["d"])).unwrap();
    assert_eq!(publication.copy_step(&state, 4096), CopyStep::Root);
    let manifest = publication.root_manifest(&state).unwrap();
    assert_eq!((manifest.chunk_count, manifest.page_count, manifest.resident_bytes), (3, 2, 10));
    assert_eq!(manifest.resident_sha256, digest(b"abcdefghij"));
    assert_eq!(manifest.last_page, second);
    let root = publication.root_published(&state, 1, digest(b"m")).unwrap();
    assert_eq!((root.revision, root.backup_id), (20, 1));
    let mut empty = Publication::begin(intent, None, Some((intent, false)), 2, 10, 4).unwrap();
    empty.finish();
    assert!(empty.stream_ended().is_none());
    assert_eq!(empty.seal(true).unwrap_err().code, ErrorCode::Corruption);
}
