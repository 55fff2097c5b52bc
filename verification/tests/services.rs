//! Custody of retired sources, ordered seeks, policy readback, and child work.
use kasumi_engine::blocking_child::{BlockingChild, ChildEnd, Completion};
use kasumi_engine::custody::{
    authorize_observation, check_receipt, observe_retirement, retired,
    retirement_response_fence, CustodyCaller, CustodyReceipt, CustodyView, PolicyGrant,
    ResponseFence, RetirableState, RetirementProof, RetirementReceipt, RetirementRecord,
    RetirementRef,
};
use kasumi_engine::custody_service;
use kasumi_engine::custody_service::{CommandTurn, Observation, Proposed, SecurityOutcome};
use kasumi_engine::digest::{digest, Name};
use kasumi_engine::errors::{error, ErrorCode};
use kasumi_engine::ordered_seek::{
    check_admitted, check_release, check_result, respond, source_identity, workspace, SeekCollection,
    SeekIndex, SeekPage, SeekRequest, SeekState,
};
use kasumi_engine::policy_limits::{
    admit_reader, release_snapshot, LimitsReader, PolicyLimitsSnapshot,
};
use kasumi_engine::proposal_jobs::{
    wait_error, Drained, Jobs, Observed, WaitFailure, MAX_PROPOSALS,
};
use kasumi_engine::receipt_reads;
use kasumi_engine::receipt_reads::ReceiptReader;
use kasumi_engine::recovery_frame;
use kasumi_engine::restore_lineage::{LineageLink, LineageObservation, VerifiedRestoreLineage};

fn receipt() -> RetirementReceipt {
    RetirementReceipt {
        tenant: Name::of("tenant"),
        source_incarnation: 5,
        retirement_id: Name::of("retire"),
        request_digest: digest(b"request"),
        principal: Name::of("owner"),
        revision: 9,
    }
}

fn reference() -> RetirementRef {
    RetirementRef {
        source_incarnation: 5,
        retirement_id: Name::of("retire"),
        request_digest: digest(b"request"),
    }
}

fn custody() -> CustodyView {
    CustodyView {
        retirement: receipt(),
        reference: reference(),
        revision: 12,
        policy_epoch: 2,
        administrators: vec![Name::of("owner")],
        limits_sha256: digest(b"limits"),
    }
}

fn caller() -> CustodyCaller {
    CustodyCaller {
        tenant: Name::of("tenant"),
        principal: Name::of("owner"),
        admin_scope: true,
        live_refusal: None,
        database_refusal: None,
        policy_refusal: None,
    }
}

#[test]
fn custody_is_observed_by_its_policy_or_by_the_original_accepted_invocation() {
    let view = custody();
    let denied = error(ErrorCode::Forbidden, "policy");
    let outside = CustodyCaller { policy_refusal: Some(denied), ..caller() };
    assert_eq!(authorize_observation(&view, &outside, None).unwrap_err(), denied);
    let accepted = RetirementProof { receipt: receipt(), accepted_invocation: true };
    authorize_observation(&view, &outside, Some(accepted)).unwrap();
    let shown = RetirementProof { receipt: receipt(), accepted_invocation: false };
    assert!(authorize_observation(&view, &outside, Some(shown)).is_err());
    let other = CustodyCaller { principal: Name::of("other"), ..outside };
    assert!(authorize_observation(&view, &other, Some(accepted)).is_err());
    let status = observe_retirement(&view, &caller(), &reference(), None, None).unwrap();
    assert_eq!((status.accepted_revision, status.receipt), (9, receipt()));
    let wrong = RetirementRef { source_incarnation: 6, ..reference() };
    assert_eq!(
        observe_retirement(&view, &caller(), &wrong, None, None).unwrap_err().code,
        ErrorCode::Conflict
    );
}

#[test]
fn a_response_is_released_under_the_policy_it_was_observed_with() {
    let view = custody();
    let fence = ResponseFence::observe(&view, &caller(), false, None, None).unwrap();
    fence.check(&view, &caller(), None).unwrap();
    let changed = CustodyView { policy_epoch: 3, ..custody() };
    assert_eq!(fence.check(&changed, &caller(), None).unwrap_err().code, ErrorCode::Conflict);
    let busy = error(ErrorCode::ResourceExhausted, "busy");
    assert_eq!(fence.check(&view, &caller(), Some(busy)).unwrap_err(), busy);
    assert_eq!(
        ResponseFence::observe(&view, &caller(), true, None, None).unwrap_err().code,
        ErrorCode::Unavailable
    );
    let mut shown = RetirementProof { receipt: receipt(), accepted_invocation: false };
    retirement_response_fence(&view, &caller(), false, None, &shown).unwrap();
    shown.receipt.revision = 10;
    assert_eq!(
        retirement_response_fence(&view, &caller(), false, None, &shown).unwrap_err().message,
        "retirement proof differs"
    );
    let held = CustodyReceipt {
        command_id: Name::of("c"),
        request_digest: digest(b"r"),
        revision: 12,
        policy_epoch: 2,
        outcome: Ok(()),
    };
    check_receipt(&held, Name::of("c"), digest(b"r"), &view).unwrap();
    assert_eq!(
        check_receipt(&held, Name::of("d"), digest(b"r"), &view).unwrap_err().code,
        ErrorCode::Conflict
    );
    let ahead = CustodyReceipt { revision: 13, ..held };
    assert_eq!(
        check_receipt(&ahead, Name::of("c"), digest(b"r"), &view).unwrap_err().code,
        ErrorCode::Corruption
    );
}

#[test]
fn an_accepted_custody_command_is_never_answered_with_a_refusal() {
    let denied = error(ErrorCode::Forbidden, "policy");
    let turn = CommandTurn { node_refusal: None, clock_ms: Ok(77), admitted_refusal: None };
    assert_eq!(custody_service::admit_command(&caller(), &turn).unwrap(), 77);
    let outside = CustodyCaller { policy_refusal: Some(denied), ..caller() };
    assert_eq!(custody_service::admit_command(&outside, &turn).unwrap_err(), denied);
    assert_eq!(custody_service::check(&outside, false).unwrap_err(), denied);
    assert_eq!(
        custody_service::check(&outside, true).unwrap_err().code,
        ErrorCode::Unavailable
    );
    let formless = error(ErrorCode::InvalidArgument, "form");
    custody_service::check_request(&caller(), false, None).unwrap();
    let refused = custody_service::check_request(&caller(), false, Some(formless)).unwrap_err();
    assert_eq!(refused, formless);
    let stopped = CommandTurn { clock_ms: Err(denied), ..turn };
    assert_eq!(custody_service::admit_command(&caller(), &stopped).unwrap_err(), denied);
    let expired = CommandTurn { admitted_refusal: Some(denied), ..turn };
    assert_eq!(custody_service::admit_command(&caller(), &expired).unwrap_err(), denied);
    let held = CustodyReceipt {
        command_id: Name::of("c"),
        request_digest: digest(b"r"),
        revision: 12,
        policy_epoch: 2,
        outcome: Ok(()),
    };
    assert_eq!(custody_service::administered(&held), SecurityOutcome::Succeeded);
    let rejected = CustodyReceipt { outcome: Err(denied), ..held };
    assert_eq!(custody_service::administered(&rejected), SecurityOutcome::Failed);
    let permanent = custody_service::execute(&Proposed::Accepted(rejected), Ok(())).unwrap();
    assert_eq!(permanent.outcome, Err(denied));
    let accepted = Proposed::Accepted(held);
    assert_eq!(custody_service::execute(&accepted, Ok(())).unwrap(), held);
    assert_eq!(
        custody_service::execute(&accepted, Err(denied)).unwrap_err().code,
        ErrorCode::UnknownOutcome
    );
    assert_eq!(
        custody_service::execute(&Proposed::Refused(denied), Ok(())).unwrap_err(),
        denied
    );
    assert_eq!(
        custody_service::execute(&Proposed::Lost, Ok(())).unwrap_err().code,
        ErrorCode::UnknownOutcome
    );
    let read = |found| {
        custody_service::receipt(
            found,
            None,
            Name::of("c"),
            digest(b"r"),
            &custody(),
            &caller(),
            false,
        )
    };
    assert_eq!(read(None).unwrap(), None);
    assert_eq!(read(Some(held)).unwrap(), Some(held));
    assert!(read(Some(CustodyReceipt { revision: 13, ..held })).is_err());
}

#[test]
fn nothing_of_a_retirement_is_released_that_is_not_on_record() {
    let view = custody();
    assert_eq!(custody_service::identity(&view), (Name::of("tenant"), 5));
    let mut observation = Observation::begin(&view, &caller(), false, None, None).unwrap();
    assert!(observation.release(&view, &caller(), None).unwrap().is_none());
    let wrong = RetirementRef { source_incarnation: 6, ..reference() };
    assert!(observation.observed(&view, &caller(), &wrong, None).is_err());
    let formless = error(ErrorCode::InvalidArgument, "form");
    let refused = observation.observed(&view, &caller(), &wrong, Some(formless)).unwrap_err();
    assert_eq!(refused, formless);
    let record = observation.observed(&view, &caller(), &reference(), None).unwrap();
    assert_eq!((record.source_revision, record.custody_policy_epoch), (9, 2));
    assert!(observation.release(&view, &caller(), None).unwrap().is_none());
    observation.audited();
    let changed = CustodyView { policy_epoch: 3, ..custody() };
    assert!(observation.release(&changed, &caller(), None).is_err());
    let status = observation.release(&view, &caller(), None).unwrap().unwrap();
    assert_eq!(status.receipt, receipt());
    let shown =
        custody_service::verify_retirement_receipt(&status, &view, &caller(), false, None).unwrap();
    assert!(!shown.accepted_invocation);
    let told = custody_service::status(&view, &caller(), false, &observation.fence, None).unwrap();
    assert_eq!((told.revision, told.policy_epoch), (12, 2));
    assert_eq!(told.administrators, vec![Name::of("owner")]);
    assert!(custody_service::accepted_retirement_invocation(&view, &wrong).is_err());
    let own = custody_service::accepted_retirement_invocation(&view, &reference()).unwrap();
    let denied = error(ErrorCode::Forbidden, "policy");
    let outside = CustodyCaller { policy_refusal: Some(denied), ..caller() };
    assert!(Observation::begin(&view, &outside, false, None, None).is_err());
    Observation::begin(&view, &outside, false, None, Some(own)).unwrap();
}

#[test]
fn a_retired_state_keeps_its_tenant_administrators() {
    let grant = |principal: &str, whole_tenant: bool, admin: bool| PolicyGrant {
        principal: Name::of(principal),
        whole_tenant,
        admin,
    };
    let state = |retired: bool, accepted: bool| RetirableState {
        retired,
        incarnation: 5,
        revision_base: 0,
        revision: 12,
        policy_epoch: 2,
        retirements: vec![RetirementRecord {
            request: reference(),
            receipt: if accepted { Ok(receipt()) } else { Err(ErrorCode::Conflict) },
        }],
        grants: vec![
            grant("owner", true, true),
            grant("reader", true, false),
            grant("part", false, true),
        ],
    };
    assert!(retired(&state(false, true)).unwrap().is_none());
    let snapshot = retired(&state(true, true)).unwrap().unwrap();
    assert_eq!(snapshot.administrators, vec![Name::of("owner")]);
    assert_eq!(snapshot.receipt, receipt());
    assert!(retired(&state(true, false)).is_err());
}

fn seek_state() -> SeekState {
    SeekState {
        tenant: Name::of("tenant"),
        incarnation: 5,
        revision: 20,
        policy_epoch: 2,
        schema_epoch: 3,
        collections: vec![SeekCollection {
            name: Name::of("log"),
            data_epoch: 18,
            strict_read_audit: false,
            indexes: vec![
                SeekIndex { name: Name::of("by"), unique: false, sha256: digest(b"not") },
                SeekIndex { name: Name::of("by"), unique: true, sha256: digest(b"index") },
            ],
        }],
        max_result_bytes: 1000,
        max_document_bytes: 100,
        max_page_size: 10,
    }
}

#[test]
fn a_seek_continues_only_on_the_source_it_began_with() {
    let state = seek_state();
    let request = SeekRequest {
        collection: Name::of("log"),
        index: Name::of("by"),
        sha256: digest(b"request"),
        limit: 2,
        continuation: None,
    };
    assert_eq!(source_identity(&state, &request).unwrap().index_sha256, digest(b"index"));
    let absent = SeekRequest { collection: Name::of("x"), ..request };
    assert_eq!(source_identity(&state, &absent).unwrap_err().code, ErrorCode::NotFound);
    let unindexed = SeekRequest { index: Name::of("x"), ..request };
    assert_eq!(source_identity(&state, &unindexed).unwrap_err().code, ErrorCode::IndexRequired);
    let page = SeekPage { versions: vec![3, 20], after_key: Some(digest(b"key")), visited: 2 };
    let response = respond(&state, &request, &page).unwrap();
    assert_eq!((response.revision, response.index_entries_visited), (20, 2));
    let next = SeekRequest { continuation: response.continuation, ..request };
    let mut later = seek_state();
    later.revision = 25;
    let second = respond(&later, &next, &SeekPage {
        versions: vec![4],
        after_key: None,
        visited: 1,
    })
    .unwrap();
    assert_eq!((second.revision, second.observed_revision), (20, 25));
    assert!(second.continuation.is_none());
    let newer = SeekPage { versions: vec![21], after_key: None, visited: 1 };
    assert_eq!(respond(&later, &next, &newer).unwrap_err().code, ErrorCode::Conflict);
    later.collections[0].data_epoch = 19;
    assert_eq!(source_identity(&later, &next).unwrap_err().code, ErrorCode::Conflict);
    check_release(&response, 3, 5).unwrap();
    assert!(check_release(&response, 4, 5).is_err());
    check_result(1000, 1000).unwrap();
    assert!(check_result(1001, 1000).is_err());
    let bytes = workspace(&state, 2);
    check_admitted(&state, 2, bytes).unwrap();
    assert!(check_admitted(&state, 2, bytes - 1).is_err());
}

#[test]
fn policy_and_limits_are_read_back_under_a_canonical_incarnation() {
    let reader = LimitsReader {
        tenant: Name::of("tenant"),
        access_refusal: None,
        name_refusal: None,
        admin_refusal: None,
    };
    let unnamed = error(ErrorCode::InvalidArgument, "name");
    let nameless = LimitsReader { name_refusal: Some(unnamed), ..reader };
    assert_eq!(admit_reader(&nameless, Name::of("tenant"), "").unwrap_err(), unnamed);
    let id = "00000000-0000-0000-0000-000000000005";
    assert_eq!(admit_reader(&reader, Name::of("tenant"), id).unwrap(), 5);
    assert_eq!(
        admit_reader(&reader, Name::of("other"), id).unwrap_err().code,
        ErrorCode::Forbidden
    );
    let nil = "00000000-0000-0000-0000-000000000000";
    assert_eq!(
        admit_reader(&reader, Name::of("tenant"), nil).unwrap_err().code,
        ErrorCode::InvalidArgument
    );
    let current = PolicyLimitsSnapshot {
        tenant: Name::of("tenant"),
        incarnation: 5,
        revision: 1,
        policy_epoch: 1,
        schema_epoch: 1,
        policy: digest(b"policy"),
        limits: digest(b"limits"),
    };
    assert!(release_snapshot(&current, Name::of("tenant"), 5, None, 10, 10).is_ok());
    assert_eq!(
        release_snapshot(&current, Name::of("tenant"), 6, None, 10, 10).unwrap_err().code,
        ErrorCode::Conflict
    );
    assert_eq!(
        release_snapshot(&current, Name::of("tenant"), 5, None, 11, 10).unwrap_err().code,
        ErrorCode::ResourceExhausted
    );
}

#[test]
fn the_proposal_registry_is_bounded_and_closes_on_a_failed_child() {
    let mut jobs = Jobs::new();
    let running = vec![Observed::Running; MAX_PROPOSALS];
    assert_eq!(jobs.start(&running, 1, true).unwrap_err().code, ErrorCode::Unavailable);
    let full = error(ErrorCode::ResourceExhausted, "node");
    assert_eq!(jobs.prepare(&running, Err(full)).unwrap_err(), full);
    jobs.prepare(&running, Ok(())).unwrap();
    jobs.prepare(&running, Err(full)).unwrap();
    assert_eq!(jobs.start(&running, 0, false).unwrap_err().code, ErrorCode::ResourceExhausted);
    for child in 0..MAX_PROPOSALS {
        assert_eq!(jobs.start(&running, child as u64, true).unwrap(), child);
    }
    assert_eq!(jobs.start(&running, 99, true).unwrap_err().message, "proposal registry is full");
    let mut seen = running.clone();
    seen[1] = Observed::Finished;
    assert_eq!(jobs.start(&seen, 99, true).unwrap(), 1);
    seen[1] = Observed::Failed(7);
    assert_eq!(jobs.check(&seen).unwrap_err().code, ErrorCode::Unavailable);
    assert!(jobs.start(&running, 100, true).is_err());
    assert!(jobs.prepare(&running, Ok(())).is_err());
    jobs.close();
    for at in 0..MAX_PROPOSALS {
        jobs.drained(at, if at == 1 { Drained::Failed(7) } else { Drained::Finished });
    }
    assert!(jobs.check(&running).is_err());
    assert_eq!(wait_error(WaitFailure::DeadlineExceeded).code, ErrorCode::UnknownOutcome);
}

#[test]
fn an_abandoned_child_belongs_to_the_drain() {
    let mut child = BlockingChild::new();
    child.start(1).unwrap();
    child.claimed(ChildEnd::Returned(None)).unwrap();
    child.start(1).unwrap();
    assert_eq!(child.start(9).unwrap_err(), Completion::Retained);
    assert_eq!(
        child.drained(Some(ChildEnd::Returned(None))).unwrap_err(),
        Completion::Complete
    );
    assert_eq!(child.start(2).unwrap_err(), Completion::Complete);
    let mut failing = BlockingChild::new();
    failing.start(1).unwrap();
    assert_eq!(failing.claimed(ChildEnd::Failed(3)).unwrap_err(), Completion::Complete);
    let mut idle = BlockingChild::new();
    idle.drained(None).unwrap();
}

#[test]
fn a_recovery_frame_gives_back_its_body() {
    let frame = recovery_frame::encode(b"body").unwrap();
    assert!(recovery_frame::is_recovery(&frame));
    assert!(!recovery_frame::is_recovery(b"body"));
    assert_eq!(recovery_frame::decode(&frame, false).unwrap(), b"body".to_vec());
    assert_eq!(recovery_frame::decode(&frame, true).unwrap_err().code, ErrorCode::Conflict);
}

#[test]
fn a_receipt_reader_needs_access_before_its_deadline() {
    let reader = ReceiptReader {
        tenant: Name::of("tenant"),
        live_refusal: None,
        access_refusal: None,
        name_refusal: None,
        resource_refusal: None,
        now_ns: 1,
        deadline_ns: 2,
    };
    receipt_reads::admit_reader(&reader, Name::of("tenant")).unwrap();
    assert!(receipt_reads::admit_reader(&reader, Name::of("other")).is_err());
    let late = ReceiptReader { now_ns: 2, ..reader };
    assert!(receipt_reads::admit_reader(&late, Name::of("tenant")).is_err());
    let unnamed = error(ErrorCode::InvalidArgument, "name");
    let nameless = ReceiptReader { name_refusal: Some(unnamed), ..reader };
    let refused = receipt_reads::admit_reader(&nameless, Name::of("other")).unwrap_err();
    assert_eq!(refused, unnamed);
}

#[test]
fn a_verified_lineage_tells_what_was_observed() {
    let lineage = VerifiedRestoreLineage::from_verified_read(LineageObservation {
        tenant: Name::of("tenant"),
        incarnation: 6,
        collection: Name::of("log"),
        revision: 30,
        policy_epoch: 2,
        links: vec![LineageLink {
            source_incarnation: 5,
            checkpoint_sha256: digest(b"checkpoint"),
            revision: 20,
        }],
    });
    assert_eq!(lineage.tenant(), Name::of("tenant"));
    assert_eq!((lineage.incarnation(), lineage.revision(), lineage.policy_epoch()), (6, 30, 2));
    assert_eq!(lineage.collection(), Name::of("log"));
    assert_eq!(lineage.links().len(), 1);
    assert_eq!(lineage.observation().links[0].source_incarnation, 5);
}

#[test]
fn a_denial_of_access_goes_on_record_once() {
    for (code, recorded) in [
        (ErrorCode::Unauthorized, true),
        (ErrorCode::Forbidden, true),
        (ErrorCode::Sealed, true),
        (ErrorCode::Conflict, false),
        (ErrorCode::Unavailable, false),
    ] {
        let refusal = error(code, "refused");
        assert_eq!(custody_service::records_denial(&refusal, false), recorded);
        assert!(!custody_service::records_denial(&refusal, true));
    }
}
