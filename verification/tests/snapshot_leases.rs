//! Leases over one generation's documents, and what they are charged.
use kasumi_engine::digest::Name;
use kasumi_engine::errors::{error, Error, ErrorCode};
use kasumi_engine::heap_accounting::{
    archive_reference_heap, document_heap, history_archive_heap, path_bytes,
    retained_document_bytes, saturating_times, value_heap, Entry, HeapArchive, HeapCollection,
    HeapDocument, HeapGrant, HeapMetadata, HeapReference, HeapSizes, Value,
};
use kasumi_engine::lease_manager::{LeaseCaller, LeaseManager, OpenLease, LEASE_HANDLE_BYTES};
use kasumi_engine::lease_roots::{
    GenerationCollection, GenerationState, HeldVersion, LeaseHeader, RootCollection,
    RETAINED_ENTRY_BYTES,
};
use kasumi_engine::lease_selection::{NameRefusal, PageAccess, PageSelection, Point, ScanPage};
use kasumi_engine::table::Table;
use kasumi_engine::versions::Versions;
use std::collections::BTreeMap;

const DOCS: u128 = 1;

fn sizes() -> HeapSizes {
    HeapSizes { value: 32, archive: 512, chunk: 160, roots: 1024 }
}

fn document(body_bytes: u64) -> HeapDocument {
    HeapDocument {
        id_capacity: 5,
        body: Value::Object {
            entries: vec![Entry { key_capacity: 5, value: Value::Text { capacity: body_bytes } }],
        },
    }
}

#[derive(Clone, Copy)]
struct Stored {
    version: u64,
    heap: u64,
}

/// One collection's documents, and the leases on its generations.
struct Engine {
    documents: BTreeMap<u128, Stored>,
    archived: BTreeMap<u128, Stored>,
    archives: BTreeMap<u128, (u64, u64)>,
    revision: u64,
    budget: u64,
    schema_bytes: u64,
    now: u128,
    next_lease: u128,
    leases: LeaseManager,
}

fn fixture(count: u128, body_bytes: u64, budget: u64) -> Engine {
    let heap = document_heap(&document(body_bytes), &sizes(), u64::MAX).unwrap();
    Engine {
        documents: (0..count).map(|id| (id, Stored { version: 1, heap })).collect(),
        archived: BTreeMap::new(),
        archives: BTreeMap::new(),
        revision: 1,
        budget,
        schema_bytes: 6,
        now: 0,
        next_lease: 100,
        leases: LeaseManager::new(),
    }
}

impl Engine {
    fn generation(&self) -> GenerationState {
        let mut documents = Versions::new();
        for (id, stored) in &self.documents {
            documents.insert(*id, stored.version);
        }
        let mut archived = Versions::new();
        for (id, stored) in &self.archived {
            archived.insert(*id, stored.version);
        }
        let mut archives = Versions::new();
        for (id, (version, _)) in &self.archives {
            archives.insert(*id, *version);
        }
        GenerationState {
            incarnation: 7,
            policy_epoch: 1,
            schema_epoch: 1,
            suspended: false,
            retired: false,
            max_lease_bytes: self.budget,
            max_leases: 16,
            collections: vec![GenerationCollection { name: DOCS, documents, archived }],
            archives,
        }
    }

    fn roots(&self) -> (Vec<RootCollection>, Table<u64>) {
        let mut documents = Table::new();
        for (id, stored) in &self.documents {
            let held = HeldVersion {
                version: stored.version,
                heap: stored.heap,
                document_bytes: 0,
                archive: 0,
            };
            documents.insert(*id, held);
        }
        let mut archived = Table::new();
        for (id, stored) in &self.archived {
            let held = HeldVersion {
                version: stored.version,
                heap: stored.heap,
                document_bytes: 128,
                archive: 900,
            };
            archived.insert(*id, held);
        }
        let mut archives = Table::new();
        for (id, (_, heap)) in &self.archives {
            archives.insert(*id, *heap);
        }
        (vec![RootCollection { name: DOCS, documents, archived }], archives)
    }

    fn metadata(&self) -> HeapMetadata {
        HeapMetadata {
            tenant_bytes: 6,
            incarnation_bytes: 11,
            grants: vec![HeapGrant { principal_bytes: 5, collection_bytes: 0, actions: 3 }],
            records: vec![64],
            collections: vec![HeapCollection {
                name_bytes: 4,
                schema: Value::Object {
                    entries: vec![Entry {
                        key_capacity: 4,
                        value: Value::Text { capacity: self.schema_bytes },
                    }],
                },
                indexes_bytes: 2,
            }],
        }
    }

    fn caller(&self) -> LeaseCaller {
        LeaseCaller {
            discovery_refusal: None,
            principal: Name::of("owner"),
            term: 1,
            incarnation: 7,
            policy_epoch: 1,
            schema_epoch: 1,
            now_ns: self.now,
        }
    }

    fn request(&self) -> OpenLease {
        OpenLease {
            caller: self.caller(),
            revision: self.revision,
            strict_read_audit: false,
            ttl_ms: 60_000,
            max_ttl_ms: 60_000,
            max_lease_bytes: self.budget,
            max_leases: 16,
            node_refusal: None,
            live_refusal: None,
        }
    }

    fn try_open(&mut self) -> Result<LeaseHeader, Error> {
        self.now += 1_000_000;
        self.next_lease += 1;
        let request = self.request();
        let (collections, archives) = self.roots();
        let metadata = self.metadata();
        let id = self.next_lease;
        self.leases.open_as(&request, &metadata, &sizes(), collections, archives, id)
    }

    fn open(&mut self) -> LeaseHeader {
        self.try_open().unwrap()
    }

    fn live(&self, lease: &LeaseHeader) -> bool {
        let usable = self.leases.checked_handle(&self.caller(), lease.lease_id).is_ok();
        assert_eq!(self.leases.is_live(lease.lease_id, self.now), usable);
        usable
    }

    fn publish(&mut self, change: impl FnOnce(&mut Engine)) {
        let previous = self.generation();
        change(self);
        let next = self.generation();
        self.leases.publish(Some(&previous), Some(&next), self.now, &Vec::new());
    }

    fn put(&mut self, id: u128, body_bytes: u64) {
        self.publish(|engine| {
            engine.revision += 1;
            let heap = document_heap(&document(body_bytes), &sizes(), u64::MAX).unwrap();
            let version = engine.revision;
            engine.documents.insert(id, Stored { version, heap });
        });
    }

    fn delete(&mut self, id: u128) {
        self.publish(|engine| {
            engine.revision += 1;
            engine.documents.remove(&id);
        });
    }

    fn root_bytes(&self, at: usize) -> u64 {
        self.leases.roots(at).bytes()
    }
}

fn access() -> PageAccess {
    PageAccess {
        name_refusal: None,
        live_refusal: None,
        cancelled: None,
        release_refusal: None,
        read_refusals: vec![],
        max_result_bytes: 1 << 20,
        max_page_size: 100,
        node_bytes: 512 << 20,
        node_refusal: error(ErrorCode::ResourceExhausted, "node is full"),
    }
}

#[test]
fn publication_expires_full_roots_while_two_inflight_selections_keep_only_bounded_pages() {
    let mut engine = fixture(64, 64 << 10, 64 << 10);
    let lease = engine.open();
    assert!(engine.root_bytes(0) < 64 << 10);
    let page = |engine: &Engine, id: u128| {
        let request = PageSelection::Points(vec![Point { collection: DOCS, id }]);
        engine.leases.select(&engine.caller(), lease.lease_id, &request, &access()).unwrap()
    };
    let page_one = page(&engine, 0);
    let page_two = page(&engine, 1);
    assert_eq!(page_one.documents, vec![Point { collection: DOCS, id: 0 }]);
    assert_eq!(page_two.documents, vec![Point { collection: DOCS, id: 1 }]);
    assert!(page_one.reserved_bytes > 64 << 10);
    assert!(page_one.reserved_bytes < 64 * (64 << 10));
    engine.put(63, 64 << 10);
    assert_eq!(engine.revision, 2);
    // No monitor tick or subsequent read is needed to revoke either page.
    assert!(!engine.live(&lease));
    assert_eq!(engine.leases.len(), 0);
    assert_eq!(engine.documents[&63].version, 2);
    assert_eq!(lease.revision, 1);
    let expired = engine.leases.checked_handle(&engine.caller(), lease.lease_id).unwrap_err();
    assert_eq!(expired.code, ErrorCode::CursorExpired);
}

#[test]
fn publication_enforces_aggregate_retention_before_another_page_or_monitor_tick() {
    let mut engine = fixture(128, 32, 256 << 10);
    let first = engine.open();
    let second = engine.open();
    let third = engine.open();
    let base = engine.root_bytes(0) + LEASE_HANDLE_BYTES;
    let old = engine.documents[&0].heap;
    let delta = old + RETAINED_ENTRY_BYTES + path_bytes(128, 1);
    engine.publish(|engine| engine.budget = base * 3 + delta * 2 - 1);
    assert_eq!(engine.leases.len(), 3);
    engine.put(0, 32);
    assert!(!engine.live(&first));
    assert!(engine.live(&second) && engine.live(&third));
    assert_eq!(engine.leases.len(), 2);
    let total: u64 =
        (0..engine.leases.len()).map(|at| engine.root_bytes(at) + LEASE_HANDLE_BYTES).sum();
    assert!(total <= engine.budget);
    assert_eq!(engine.root_bytes(0), base - LEASE_HANDLE_BYTES + delta);
    assert_eq!(engine.leases.roots(0).header().revision, 1);
}

#[test]
fn primary_id_paths_stay_charged_after_temporary_insert_and_delete() {
    let mut engine = fixture(128, 32, 1 << 20);
    let lease = engine.open();
    engine.put(5_000, 32);
    engine.delete(5_000);
    let root = engine.leases.roots(0);
    assert_eq!(root.paths(0).ids, 2);
    assert!(root.bytes() >= root.metadata_bytes() + path_bytes(128, 2) * 2);
    assert!(engine.live(&lease));
    assert_eq!(root.header().revision, 1);
    assert_eq!(root.collections()[0].documents.len(), 128);
}

#[test]
fn metadata_allocation_is_charged_before_opening_and_snapshot_replace_invalidates_handles() {
    let mut engine = fixture(1, 0, 32 << 10);
    let lease = engine.open();
    engine.leases.clear();
    assert!(!engine.live(&lease));
    engine.schema_bytes = 12 * 5000;
    let refused = engine.try_open().unwrap_err();
    assert_eq!(refused.code, ErrorCode::ResourceExhausted);
    assert_eq!(engine.leases.len(), 0);
}

#[test]
fn archive_leaf_clones_share_unchanged_large_values_and_manifest_payloads() {
    let mut engine = fixture(0, 0, 64 << 10);
    engine.archived.insert(1, Stored { version: 1, heap: 600 });
    engine.archived.insert(2, Stored { version: 1, heap: 256 << 10 });
    let manifest = HeapArchive {
        texts: vec![7; 6],
        chunk_slots: 1024,
        chunk_texts: vec![200; 1024],
    };
    let large = history_archive_heap(&manifest, &sizes(), u64::MAX).unwrap();
    assert!(large > 64 << 10);
    engine.archives.insert(901, (1, 700));
    engine.archives.insert(902, (1, large));
    let lease = engine.open();
    engine.publish(|engine| {
        engine.revision = 2;
        engine.archived.get_mut(&1).unwrap().version = 2;
        engine.archives.get_mut(&901).unwrap().0 = 2;
    });
    // Only what changed is charged: neither the large neighbour nor the large
    // manifest is copied.
    assert!(engine.live(&lease));
    let root = engine.leases.roots(0);
    assert!(root.bytes() < 64 << 10);
    assert!(root.bytes() > root.metadata_bytes());
    assert_eq!(root.collections()[0].archived.get(1).unwrap().version, 1);
}

#[test]
fn a_lease_is_used_by_its_own_principal_in_its_term_while_it_lasts() {
    let mut engine = fixture(2, 8, 1 << 20);
    let lease = engine.open();
    let expired = |caller: LeaseCaller| {
        engine.leases.checked(&caller, lease.lease_id).unwrap_err().code
            == ErrorCode::CursorExpired
    };
    let caller = engine.caller();
    assert!(engine.leases.checked(&caller, lease.lease_id).is_ok());
    assert!(expired(LeaseCaller { principal: Name::of("other"), ..caller }));
    assert!(expired(LeaseCaller { term: 2, ..caller }));
    assert!(expired(LeaseCaller { incarnation: 8, ..caller }));
    assert!(expired(LeaseCaller { policy_epoch: 2, ..caller }));
    assert!(expired(LeaseCaller { schema_epoch: 2, ..caller }));
    assert!(expired(LeaseCaller { now_ns: caller.now_ns + 60_000_000_000, ..caller }));
    let denied = error(ErrorCode::Forbidden, "no read");
    let refused = LeaseCaller { discovery_refusal: Some(denied), ..caller };
    assert_eq!(engine.leases.checked(&refused, lease.lease_id).unwrap_err(), denied);
    assert_eq!(
        engine.leases.close(Name::of("other"), lease.lease_id).unwrap_err().code,
        ErrorCode::Forbidden
    );
    engine.leases.close(Name::of("owner"), lease.lease_id).unwrap();
    assert_eq!(engine.leases.len(), 0);
    engine.leases.close(Name::of("owner"), lease.lease_id).unwrap();
}

#[test]
fn a_lease_is_opened_within_its_bounds_under_a_new_identity() {
    let mut engine = fixture(2, 8, 1 << 20);
    let mut request = engine.request();
    request.ttl_ms = 0;
    let (collections, archives) = engine.roots();
    let refused = engine
        .leases
        .open(&request, &engine.metadata(), &sizes(), collections, archives)
        .unwrap_err();
    assert_eq!(refused.code, ErrorCode::InvalidArgument);
    let request = OpenLease { max_leases: 2, ..engine.request() };
    let mut ids = vec![];
    for _ in 0..2 {
        let (collections, archives) = engine.roots();
        let header = engine
            .leases
            .open(&request, &engine.metadata(), &sizes(), collections, archives)
            .unwrap();
        assert_ne!(header.lease_id, 0);
        ids.push(header.lease_id);
    }
    assert_ne!(ids[0], ids[1]);
    let (collections, archives) = engine.roots();
    let refused = engine
        .leases
        .open(&request, &engine.metadata(), &sizes(), collections, archives)
        .unwrap_err();
    assert_eq!(refused.code, ErrorCode::ResourceExhausted);
    engine.leases.expire_idle(false, 2, engine.now);
    assert_eq!(engine.leases.len(), 0);
}

#[test]
fn a_lease_whose_growth_is_refused_is_dropped_alone() {
    let mut engine = fixture(5, 8, 1 << 20);
    let first = engine.open();
    let second = engine.open();
    let previous = engine.generation();
    engine.revision += 1;
    let next = engine.generation();
    let refused = vec![first.lease_id];
    engine.leases.publish(Some(&previous), Some(&next), engine.now, &refused);
    assert!(!engine.live(&first));
    assert!(engine.live(&second));
    assert_eq!(engine.leases.len(), 1);
}

#[test]
fn a_scan_takes_a_page_and_says_whether_more_follows() {
    let mut engine = fixture(5, 8, 1 << 20);
    let lease = engine.open();
    let scan = |limit: u64, candidates: Vec<u128>| {
        let page = ScanPage { lease_id: lease.lease_id, collection: DOCS, limit };
        let request =
            PageSelection::Scan { page, candidates: Ok(candidates), page_bytes: 64 };
        engine.leases.select(&engine.caller(), lease.lease_id, &request, &access())
    };
    let page = scan(2, vec![0, 1, 2]).unwrap();
    assert_eq!(page.scan_ids, vec![0, 1]);
    assert!(page.scan_has_more);
    let page = scan(4, vec![2, 3, 4]).unwrap();
    assert_eq!(page.scan_ids, vec![2, 3, 4]);
    assert!(!page.scan_has_more);
    let mut listed: Vec<u128> = vec![];
    loop {
        let behind = (0..5).filter(|id| listed.last().is_none_or(|last| id > last)).collect();
        let page = scan(2, behind).unwrap();
        assert!(!page.scan_ids.is_empty());
        listed.extend(&page.scan_ids);
        if !page.scan_has_more {
            break;
        }
    }
    assert_eq!(listed, vec![0, 1, 2, 3, 4]);
    assert!(scan(2, vec![]).unwrap().scan_ids.is_empty());
    let refusal = error(ErrorCode::InvalidArgument, "name");
    let named = |at: u64| PageAccess { name_refusal: Some(NameRefusal { at, refusal }), ..access() };
    let ask = |request: &PageSelection, at: u64| {
        engine.leases.select(&engine.caller(), lease.lease_id, request, &named(at)).map(|_| ())
    };
    let twice = PageSelection::Points(vec![Point { collection: DOCS, id: 1 }; 2]);
    assert_eq!(ask(&twice, 0).unwrap_err(), refusal);
    assert_eq!(ask(&twice, 1).unwrap_err(), refusal);
    assert_eq!(ask(&twice, 2).unwrap_err().message, "duplicate snapshot point");
    let page = ScanPage { lease_id: lease.lease_id, collection: DOCS, limit: 0 };
    let unbounded = PageSelection::Scan { page, candidates: Ok(vec![]), page_bytes: 64 };
    assert_eq!(ask(&unbounded, 0).unwrap_err(), refusal);
    assert_eq!(scan(0, vec![]).err().unwrap().code, ErrorCode::InvalidArgument);
    assert_eq!(scan(101, vec![]).err().unwrap().code, ErrorCode::InvalidArgument);
}

#[test]
fn versions_that_differ_are_found_in_order() {
    let mut before = Versions::new();
    let mut after = Versions::new();
    for id in 0..200u128 {
        before.insert(id, 1);
        after.insert(id, 1);
    }
    assert_eq!(before.diff(&after), Vec::<u128>::new());
    after.insert(150, 2);
    after.remove(3);
    after.insert(777, 1);
    assert_eq!(before.diff(&after), vec![3, 150, 777]);
    assert_eq!(before.len(), 200);
    assert_eq!(after.len(), 200);
    assert_eq!(after.get(150), Some(2));
    assert!(!after.contains(3));
}

#[test]
fn heap_charges_are_exact_and_stop_at_the_budget() {
    assert_eq!(
        retained_document_bytes(&document(32), &sizes()).unwrap(),
        128 + 5 + 1024 + 5 + 32
    );
    let reference = HeapReference {
        archive_id_capacity: 7,
        sha256_capacity: 64,
        fields: vec![Entry { key_capacity: 5, value: Value::Text { capacity: 9 } }],
    };
    let charged = 256 + 7 + 64 + 1024 + 5 + 9;
    assert_eq!(archive_reference_heap(&reference, &sizes(), charged).unwrap(), charged);
    assert!(archive_reference_heap(&reference, &sizes(), charged - 1).is_err());
    assert_eq!(document_heap(&document(32), &sizes(), u64::MAX).unwrap(), 128 + 5 + 1024 + 5 + 32);
    assert_eq!(
        document_heap(&document(32), &sizes(), 1000).unwrap_err().code,
        ErrorCode::ResourceExhausted
    );
    let number = Value::Number { encoded_bytes: 3 };
    assert_eq!(value_heap(&number, &sizes(), 10, 100).unwrap(), 80);
    let list = Value::List { capacity: 2, items: vec![Value::Inline, Value::Text { capacity: 7 }] };
    assert_eq!(value_heap(&list, &sizes(), 0, 100).unwrap(), 71);
    assert_eq!(value_heap(&Value::Inline, &sizes(), 4, 4).unwrap(), 4);
    assert_eq!(saturating_times(u64::MAX, 2), u64::MAX);
    assert_eq!(path_bytes(0, 4), 0);
    assert_eq!(path_bytes(128, 1), 8 * 8192);
    assert_eq!(path_bytes(2, 100), 2 * 8192);
}
