//! Lifecycle Control: its installation, its intents and its policy changes.
use kasumi_engine::digest::{digest, Digest, Name};
use kasumi_engine::encoding::{labelled_digest, CHANGE_REQUEST};
use kasumi_engine::errors::{error, Error, ErrorCode};
use kasumi_engine::lifecycle_model::{LifecycleAdmission, LifecycleCommand, OperationKind};
use kasumi_engine::lifecycle_service::{
    barrier_admission, check_lifecycle_change, check_lifecycle_intent,
    check_lifecycle_status_release, lifecycle_write_release, observe_lifecycle_change,
    observe_lifecycle_intent, quorum_term, read_lifecycle_status, BarrierChecks, CommandStatus,
    ReadLifecycleStatus,
};
use kasumi_engine::lifecycle_signer::{LifecycleSigner, SignerError, SigningRoot};
use kasumi_engine::lifecycle_state::{
    apply_candidate, apply_validated, completion_fits, completion_reserve, guard, validate,
};
use kasumi_engine::model::{
    ChangeRequest, EpochStops, Installation, IntentRequest, LifecyclePhase, Node, Nodes, Partition,
    RecoveryControl, State,
};
use kasumi_engine::record_forms::LifecycleForms;
use kasumi_engine::table::Table;
use ring::signature::KeyPair;

const CONTROL: u128 = 9;

fn sample(text: &str) -> Digest {
    digest(text.as_bytes())
}

fn state() -> State {
    State {
        tenant: Name::of("__kasumi_control"),
        incarnation: CONTROL,
        revision: 1,
        policy_epoch: 1,
        policy: sample("policy"),
        retired: false,
        suspended: false,
        pending_restore: false,
        topology: None,
        lifecycle: None,
        recovery: RecoveryControl {
            operations: Table::new(),
            phases: Table::new(),
            targets: Table::new(),
            completion_history: Table::new(),
        },
    }
}

fn installation(public_key: Digest) -> Installation {
    Installation {
        sha256: sample("installation"),
        partitions_sha256: sample("partitions"),
        control_incarnation: CONTROL,
        public_key,
        generation: 3,
        partitions: vec![Partition {
            name: Name::of("a"),
            authority_id: 1,
            manifest_sha256: sample("manifest"),
            partition: 0,
            signing_public_key: sample("issuer"),
            maximum_lifetime_ms: 10,
            drain_ms: 10,
        }],
        max_intents: 2,
        max_changes: 2,
        max_state_bytes: 1 << 20,
    }
}

fn admission(now: u64) -> LifecycleAdmission {
    LifecycleAdmission {
        tenant: Name::of("__kasumi_control"),
        principal: Name::of("operator"),
        control_refusal: None,
        admin_refusal: None,
        request_refusal: None,
        credential_expires_at_ms: Some(1000),
        timestamp_ms: now,
    }
}

fn node(node_id: u64) -> Node {
    Node {
        node_id,
        verifier: sample("verifier"),
        principal: Name::of("node"),
        certificate_sha256: sample("certificate"),
    }
}

fn request(command_id: u128) -> IntentRequest {
    IntentRequest {
        command_id,
        expected_policy_epoch: 1,
        installation_sha256: sample("installation"),
        authority_partition: Name::of("a"),
        tenant: Name::of("tenant"),
        source_incarnation: 1,
        source_authority_epoch: 1,
        target_incarnation: 2,
        checkpoint: sample("checkpoint"),
        target_nodes: Nodes { first: node(1), second: node(2), third: node(3) },
        phase: LifecyclePhase::Materialize,
        phase_input_sha256: sample("input"),
        resume_origin: None,
    }
}

fn change(command_id: u128) -> ChangeRequest {
    ChangeRequest {
        command_id,
        expected_policy_epoch: 1,
        installation_sha256: sample("installation"),
        candidate_policy: sample("next policy"),
        retire_control: false,
    }
}

fn apply(state: &mut State, command: LifecycleCommand, revision: u64) -> Result<u64, Error> {
    let answered = apply_candidate(state, &admission(100), &command, revision);
    state.revision = revision;
    answered
}

fn installed() -> State {
    let mut state = state();
    let install =
        LifecycleCommand::Install { command_id: 50, installation: installation(sample("key")) };
    assert_eq!(apply(&mut state, install, 2).unwrap(), 2);
    state
}

fn begin(id: u128) -> LifecycleCommand {
    LifecycleCommand::BeginPolicyChange { request: change(id), policy_refusal: None }
}

fn complete(id: u128, authentic: bool) -> LifecycleCommand {
    LifecycleCommand::CompletePolicyChange {
        command_id: id,
        change_sha256: labelled_digest(CHANGE_REQUEST, &change(id)),
        stops: EpochStops { sha256: sample("stops"), authentic },
    }
}

#[test]
fn an_installation_is_immutable_and_told_twice_changes_nothing() {
    let mut state = installed();
    let again =
        LifecycleCommand::Install { command_id: 50, installation: installation(sample("key")) };
    assert_eq!(apply(&mut state, again, 3).unwrap(), 2);
    let other =
        LifecycleCommand::Install { command_id: 51, installation: installation(sample("key")) };
    assert_eq!(apply(&mut state, other, 4).unwrap_err().message, "control installation is immutable");
    let mut elsewhere = LifecycleAdmission { tenant: Name::of("tenant"), ..admission(1) };
    let command = LifecycleCommand::CommitIntent(request(60));
    let refused = apply_candidate(&mut state, &elsewhere, &command, 5).unwrap_err();
    assert_eq!(refused.code, ErrorCode::Forbidden);
    elsewhere = LifecycleAdmission {
        admin_refusal: Some(error(ErrorCode::Forbidden, "no admin")),
        ..admission(1)
    };
    let refused = apply_candidate(&mut state, &elsewhere, &command, 5).unwrap_err();
    assert_eq!(refused.message, "no admin");
    validate(&state, 100, &LifecycleForms::accepted()).unwrap();
    assert!(validate(&state, 2 << 20, &LifecycleForms::accepted()).is_err());
}

#[test]
fn an_intent_is_committed_once_within_its_quota_and_credential() {
    let mut state = installed();
    let commit = |id: u128| LifecycleCommand::CommitIntent(request(id));
    assert_eq!(apply(&mut state, commit(60), 3).unwrap(), 3);
    assert_eq!(apply(&mut state, commit(60), 4).unwrap(), 3);
    let different = IntentRequest { checkpoint: sample("other"), ..request(60) };
    assert_eq!(
        apply(&mut state, LifecycleCommand::CommitIntent(different), 5).unwrap_err().message,
        "permanent lifecycle intent identity differs"
    );
    let refused = apply(&mut state, commit(50), 6).unwrap_err();
    assert_eq!(refused.message, "lifecycle command identity already used");
    let expired = admission(1000);
    let refused = apply_candidate(&mut state, &expired, &commit(61), 7).unwrap_err();
    assert_eq!(refused.code, ErrorCode::Unauthorized);
    assert_eq!(apply(&mut state, commit(61), 8).unwrap(), 8);
    let refused = apply(&mut state, commit(62), 9).unwrap_err();
    assert_eq!(refused.code, ErrorCode::QuotaExceeded);
    validate(&state, 100, &LifecycleForms::accepted()).unwrap();
}

#[test]
fn a_pending_change_freezes_issuance_until_every_partition_stopped() {
    let mut state = installed();
    assert_eq!(apply(&mut state, begin(70), 3).unwrap(), 3);
    assert_eq!(apply(&mut state, begin(70), 4).unwrap(), 3);
    let refused =
        apply(&mut state, LifecycleCommand::CommitIntent(request(60)), 5).unwrap_err();
    assert_eq!(refused.message, "lifecycle issuance is closed");
    let refused = apply(&mut state, begin(71), 5).unwrap_err();
    assert_eq!(refused.code, ErrorCode::Conflict);
    assert!(guard(&state, OperationKind::Other).is_err());
    assert!(guard(&state, OperationKind::Mutate).is_err());
    assert!(guard(&state, OperationKind::Audit).is_ok());
    let stops = EpochStops { sha256: sample("wide"), authentic: true };
    let reserved = completion_reserve(&state, stops).unwrap().unwrap();
    assert_eq!(reserved.policy_epoch, 2);
    assert_eq!(state.policy_epoch, 1);
    assert!(completion_fits(1, 1, 1, 1, true));
    assert!(!completion_fits(2, 1, 1, 1, true));
    let refused = apply(&mut state, complete(70, false), 6).unwrap_err();
    assert_eq!(
        refused.message,
        "complete exact installed authority stop proofs are required"
    );
    let observed = observe_lifecycle_change(&state, 70, 4).unwrap();
    check_lifecycle_change(&state, &observed, 4, None).unwrap();
    assert_eq!(
        check_lifecycle_change(&state, &observed, 5, None).unwrap_err().code,
        ErrorCode::Unavailable
    );
    assert_eq!(apply(&mut state, complete(70, true), 7).unwrap(), 7);
    assert_eq!(state.policy_epoch, 2);
    assert_eq!(state.policy, sample("next policy"));
    assert_eq!(apply(&mut state, complete(70, true), 8).unwrap(), 7);
    assert_eq!(state.policy_epoch, 2);
    assert!(check_lifecycle_change(&state, &observed, 4, None).is_err());
    validate(&state, 100, &LifecycleForms::accepted()).unwrap();
    state.policy_epoch = 3;
    assert!(validate(&state, 100, &LifecycleForms::accepted()).is_err());
}

#[test]
fn a_grant_is_released_under_the_term_and_epoch_it_was_observed_in() {
    let mut state = installed();
    apply(&mut state, LifecycleCommand::CommitIntent(request(60)), 3).unwrap();
    let observed = observe_lifecycle_intent(&state, 60, 8).unwrap();
    check_lifecycle_intent(&state, &observed, 8, 999, None).unwrap();
    assert_eq!(
        check_lifecycle_intent(&state, &observed, 9, 999, None).unwrap_err().code,
        ErrorCode::Unavailable
    );
    assert_eq!(
        check_lifecycle_intent(&state, &observed, 8, 1000, None).unwrap_err().code,
        ErrorCode::Unauthorized
    );
    let denied = error(ErrorCode::Forbidden, "denied");
    assert_eq!(
        check_lifecycle_intent(&state, &observed, 8, 999, Some(denied)).unwrap_err(),
        denied
    );
    apply(&mut state, begin(70), 4).unwrap();
    assert_eq!(
        check_lifecycle_intent(&state, &observed, 8, 999, None).unwrap_err().code,
        ErrorCode::Conflict
    );
    assert!(observe_lifecycle_intent(&state, 61, 8).is_err());
    assert!(quorum_term(3, 8).is_ok());
    assert!(quorum_term(1, 8).is_err());
}

#[test]
fn a_status_tells_what_an_identity_became() {
    let mut state = installed();
    apply(&mut state, LifecycleCommand::CommitIntent(request(60)), 3).unwrap();
    let ask = |id: u128| ReadLifecycleStatus { command_id: id, expected_incarnation: CONTROL };
    let status = read_lifecycle_status(&state, &ask(60), 5).unwrap();
    assert!(matches!(status.command, Some(CommandStatus::Intent(intent)) if intent.revision == 3));
    check_lifecycle_status_release(&state, &status, 5, None).unwrap();
    assert!(check_lifecycle_status_release(&state, &status, 6, None).is_err());
    let status = read_lifecycle_status(&state, &ask(50), 5).unwrap();
    assert!(matches!(status.command, Some(CommandStatus::Installation { revision: 2, .. })));
    assert!(read_lifecycle_status(&state, &ask(99), 5).unwrap().command.is_none());
    let elsewhere = ReadLifecycleStatus { command_id: 60, expected_incarnation: 1 };
    assert!(read_lifecycle_status(&state, &elsewhere, 5).is_err());
    let denied = error(ErrorCode::Forbidden, "denied");
    let checks = BarrierChecks {
        live_refusal: None,
        access_refusal: None,
        admin_refusal: Some(denied),
        control_refusal: None,
    };
    assert_eq!(barrier_admission(&state, &checks).unwrap_err(), denied);
}

fn key_pair() -> (Vec<u8>, ring::signature::Ed25519KeyPair) {
    let random = ring::rand::SystemRandom::new();
    let document = ring::signature::Ed25519KeyPair::generate_pkcs8(&random).unwrap();
    let pkcs8 = document.as_ref().to_vec();
    let pair = ring::signature::Ed25519KeyPair::from_pkcs8(&pkcs8).unwrap();
    (pkcs8, pair)
}

fn halves(bytes: &[u8]) -> Digest {
    let mut high = [0u8; 16];
    let mut low = [0u8; 16];
    high.copy_from_slice(&bytes[..16]);
    low.copy_from_slice(&bytes[16..]);
    Digest { high: u128::from_be_bytes(high), low: u128::from_be_bytes(low) }
}

#[test]
fn a_signer_signs_with_the_key_that_its_root_pins() {
    let (pkcs8, pair) = key_pair();
    let public_key = halves(pair.public_key().as_ref());
    let root = SigningRoot { control_incarnation: CONTROL, public_key };
    let signer = LifecycleSigner::from_pkcs8(root, false, pkcs8.clone()).unwrap();
    assert_eq!(signer.root().public_key, public_key);
    let key = ring::signature::UnparsedPublicKey::new(
        &ring::signature::ED25519,
        pair.public_key().as_ref(),
    );
    let other = SigningRoot { control_incarnation: CONTROL, public_key: sample("key") };
    assert!(matches!(
        LifecycleSigner::from_pkcs8(other, false, pkcs8.clone()),
        Err(SignerError::IdentityDiffers)
    ));
    assert!(matches!(
        LifecycleSigner::from_pkcs8(root, false, vec![1, 2, 3]),
        Err(SignerError::InvalidSigner)
    ));
    assert!(matches!(
        LifecycleSigner::from_pkcs8(root, true, pkcs8),
        Err(SignerError::InvalidRoot)
    ));

    let mut state = state();
    let install = LifecycleCommand::Install { command_id: 50, installation: installation(public_key) };
    apply(&mut state, install, 2).unwrap();
    apply(&mut state, LifecycleCommand::CommitIntent(request(60)), 3).unwrap();
    let observed = observe_lifecycle_intent(&state, 60, 8).unwrap();
    let commitment = signer.intent_commitment(&observed, &installation(public_key)).unwrap();
    assert_eq!(commitment.intent.request.command_id, 60);
    assert_eq!(commitment.observed_term, 8);
    assert!(signer.intent_commitment(&observed, &installation(sample("key"))).is_err());
    let pinned = installation(public_key);
    let signed =
        signer.sign_intent(Ok(()), &observed, &pinned, Some(b"encoded".as_slice()), Ok(())).unwrap();
    assert_eq!(signed.observation.intent.request.command_id, 60);
    assert_eq!(signed.signature.len(), 128);
    assert_eq!(signed.signature, signed.signature.to_lowercase());
    let signature = hex::decode(&signed.signature).unwrap();
    key.verify(br#"["kasumi.committed-control-intent.v1",encoded]"#, &signature).unwrap();
    assert!(key.verify(br#"["kasumi.committed-control-change.v1",encoded]"#, &signature).is_err());
    assert!(key.verify(b"encoded", &signature).is_err());
    let replaced = Installation { sha256: sample("replaced"), ..installation(public_key) };
    let refused = signer.intent_commitment(&observed, &replaced).unwrap_err();
    assert_eq!(refused.message, "observed lifecycle installation differs");
    let moved = error(ErrorCode::Unavailable, "moved");
    for (front, message, behind, refusal) in [
        (Err(moved), Some(b"encoded".as_slice()), Ok(()), moved),
        (Ok(()), Some(b"encoded".as_slice()), Err(moved), moved),
        (
            Ok(()),
            None,
            Err(moved),
            error(ErrorCode::Corruption, "lifecycle control encoding failed"),
        ),
    ] {
        let refused = signer.sign_intent(front, &observed, &pinned, message, behind);
        assert_eq!(refused.unwrap_err(), refusal);
    }
    assert_eq!(lifecycle_write_release(None, None), Ok(()));
    assert_eq!(
        lifecycle_write_release(Some(moved), None).unwrap_err().code,
        ErrorCode::UnknownOutcome
    );
    apply(&mut state, begin(70), 4).unwrap();
    let change = observe_lifecycle_change(&state, 70, 8).unwrap();
    let commitment =
        signer.change_commitment(&change, &installation(public_key), Name::of("a")).unwrap();
    assert_eq!(commitment.accepted_revision, 4);
    assert!(signer.change_commitment(&change, &installation(public_key), Name::of("b")).is_err());
    let message = Some(b"stop".as_slice());
    let signed =
        signer.sign_change(Ok(()), &change, &pinned, Name::of("a"), message, Ok(())).unwrap();
    let signature = hex::decode(&signed.signature).unwrap();
    key.verify(br#"["kasumi.committed-control-change.v1",stop]"#, &signature).unwrap();
    let refused = signer.change_commitment(&change, &replaced, Name::of("a")).unwrap_err();
    assert_eq!(refused.message, "observed lifecycle installation differs");
    let outside = signer.sign_change(Ok(()), &change, &pinned, Name::of("b"), message, Ok(()));
    assert_eq!(outside.unwrap_err().code, ErrorCode::InvalidArgument);
}

#[test]
fn a_command_is_taken_only_where_the_state_behind_it_is_closed() {
    let state = installed();
    let commit = LifecycleCommand::CommitIntent(request(60));
    let (next, answered) =
        apply_validated(&state, &admission(1), &commit, 3, 100, &LifecycleForms::accepted())
            .unwrap();
    assert_eq!(answered, 3);
    assert_eq!(next.revision, 3);
    assert!(observe_lifecycle_intent(&next, 60, 8).is_ok());
    assert!(observe_lifecycle_intent(&state, 60, 8).is_err());
    let mut forms = LifecycleForms::accepted();
    let malformed = error(ErrorCode::InvalidArgument, "malformed intent");
    forms.intents.insert(60, malformed);
    let refused = apply_validated(&state, &admission(1), &commit, 3, 100, &forms);
    assert_eq!(refused.map(|_| ()).unwrap_err(), malformed);
    validate(&state, 100, &forms).unwrap();
    // What stands already is answered before anything is validated.
    let (again, answered) =
        apply_validated(&next, &admission(1), &commit, 9, 2 << 20, &forms).unwrap();
    assert_eq!((answered, again.revision), (3, 9));
    let installed = LifecycleForms { installation: Some(malformed), ..LifecycleForms::accepted() };
    assert_eq!(validate(&state, 100, &installed).unwrap_err(), malformed);
}
