//! Durable phases of one recovery, and what their proofs and order admit.
use kasumi_engine::digest::{digest, Digest, Name};
use kasumi_engine::encoding::{
    labelled_digest, Words, ATTEMPT_STATUS, COMPLETION, INTENT_REQUEST, QUORUM, RESOLUTION,
    TERMINAL_STATUS,
};
use kasumi_engine::errors::{error, ErrorCode};
use kasumi_engine::held::{hold, Held};
use kasumi_engine::model::{
    AttemptStatusInput, AuthorityAction, AuthorityCommand, AuthorityOutcome, AuthorityReceipt,
    CommitPosition, CompletionAttempt, CompletionFact, CompletionHistory, CompletionInput,
    CompletionTerminal, Dispatch, DispatchOutcome, Installation, IntentRequest,
    LifecycleControl, LifecycleIntent, LifecyclePhase, MaterializationInput,
    MaterializationProof, Node, Nodes, Partition, PhaseRecord, Placement, Placements,
    QuorumInput, RecoveryAuthorization, RecoveryCommand, RecoveryControl, RecoveryMutation,
    RecoveryPhase, RecoveryRecord, RecoveryStart, RecoveryTarget, ReplicaInput, ResolutionFact,
    ResolutionReference, SignedAttempt, SignedAttemptStatus, SignedCompletion, SignedReceipt,
    SignedResolution, SignedTerminalStatus, SourceMode, State, TargetOrigin, TargetOutcome,
    TargetRequest, TargetResponse, TargetStep, TenantRoute, Topology, TopologyNode, Voter,
    Voters,
};
use kasumi_engine::recovery_attempts as attempts;
use kasumi_engine::recovery_lookup::{
    intent as committed_intent, origin as origin_of, origin_sha256, phase,
    validate_original_intent,
};
use kasumi_engine::recovery_quorum as quorum;
use kasumi_engine::recovery_receiver as receiver;
use kasumi_engine::recovery_results;
use kasumi_engine::recovery_route as route;
use kasumi_engine::recovery_snapshot as snapshot;
use kasumi_engine::recovery_state;
use kasumi_engine::recovery_successor::validate_successor;
use kasumi_engine::table::Table;

const CONTROL: u128 = 7_001;

fn sample(text: &str) -> Digest {
    digest(text.as_bytes())
}

fn node(node_id: u64) -> Node {
    Node {
        node_id,
        verifier: sample(&format!("verifier {node_id}")),
        principal: Name::of(&format!("node-{node_id}")),
        certificate_sha256: sample(&format!("certificate {node_id}")),
    }
}

fn nodes() -> Nodes {
    Nodes { first: node(1), second: node(2), third: node(3) }
}

fn origin() -> TargetOrigin {
    let input = MaterializationInput { sha256: sample("materialization") };
    let request = IntentRequest {
        command_id: 400,
        expected_policy_epoch: 1,
        installation_sha256: sample("installation"),
        authority_partition: Name::of("partition-a"),
        tenant: Name::of("tenant"),
        source_incarnation: 11,
        source_authority_epoch: 1,
        target_incarnation: 12,
        checkpoint: sample("checkpoint"),
        target_nodes: nodes(),
        phase: LifecyclePhase::Materialize,
        phase_input_sha256: input.sha256,
        resume_origin: None,
    };
    TargetOrigin {
        authority_manifest_sha256: sample("manifest"),
        materialization: committed(request, 5, 100, 1000),
        input,
    }
}

fn committed(
    request: IntentRequest,
    revision: u64,
    accepted_at_ms: u64,
    expires: u64,
) -> LifecycleIntent {
    LifecycleIntent {
        request,
        request_sha256: labelled_digest(INTENT_REQUEST, &request),
        control_incarnation: CONTROL,
        installation_generation: 1,
        original_principal: Name::of("operator"),
        original_credential_expires_at_ms: expires,
        accepted_at_ms,
        revision,
    }
}

fn intent(
    origin: &TargetOrigin,
    phase: LifecyclePhase,
    input: Digest,
    revision: u64,
    accepted_at_ms: u64,
    expires: u64,
) -> LifecycleIntent {
    let request = IntentRequest {
        command_id: 1_000 + u128::from(revision),
        phase,
        phase_input_sha256: input,
        resume_origin: None,
        ..origin.materialization.request
    };
    committed(request, revision, accepted_at_ms, expires)
}

fn proof_of(origin: &TargetOrigin, node_id: u64) -> MaterializationProof {
    MaterializationProof {
        node_id,
        origin_sha256: origin_sha256(origin),
        image_sha256: sample("image"),
        sha256: sample(&format!("materialized {node_id}")),
        authentic: true,
    }
}

fn quorum_of(origin: &TargetOrigin) -> QuorumInput {
    QuorumInput {
        origin_sha256: origin_sha256(origin),
        first: proof_of(origin, 1),
        second: proof_of(origin, 2),
        third: proof_of(origin, 3),
    }
}

fn attempt(
    origin: &TargetOrigin,
    predecessor: Option<ResolutionReference>,
    revision: u64,
    index: u64,
    admitted_at_ms: u64,
    cap: u64,
) -> CompletionAttempt {
    let input = CompletionInput { quorum: quorum_of(origin), predecessor };
    CompletionAttempt {
        origin: *origin,
        intent: intent(
            origin,
            LifecyclePhase::Complete,
            labelled_digest(COMPLETION, &input),
            revision,
            admitted_at_ms,
            cap + 500,
        ),
        input,
        admitted_at_ms: admitted_at_ms + 1,
        dispatch_not_after_ms: cap,
        revision: revision + 1,
        position: CommitPosition {
            index,
            term: 1,
            leader_node_id: 1,
            command_sha256: sample("command"),
        },
    }
}

fn completion(attempt: &CompletionAttempt) -> CompletionFact {
    CompletionFact {
        completion_intent: attempt.intent,
        predecessor: attempt.input.predecessor,
        admitted_at_ms: attempt.admitted_at_ms,
        revision: attempt.revision + 1,
        term: 1,
        sha256: sample("completion fact"),
    }
}

fn digest_with<T: Words>(label: u128, input: &T) -> Digest {
    labelled_digest(label, input)
}

fn target(node_id: u64, request: TargetRequest) -> Dispatch {
    Dispatch::Target { node_id, request: hold(request) }
}

fn answered(response: TargetResponse) -> Option<DispatchOutcome> {
    Some(DispatchOutcome::Target(hold(response)))
}

fn retained(
    state: &mut State,
    operation: &RecoveryRecord,
    id: u128,
    input: Dispatch,
    outcome: Option<DispatchOutcome>,
    revision: u64,
) -> PhaseRecord {
    let at = match &input {
        Dispatch::ControlIntent(request) => match request.open().phase {
            LifecyclePhase::Materialize | LifecyclePhase::ResumeMaterialize => {
                RecoveryPhase::Materialize
            }
            LifecyclePhase::Initialize => RecoveryPhase::Initialize,
            _ => RecoveryPhase::Complete,
        },
        Dispatch::Target { request, .. } => match request.open().step {
            TargetStep::Materialize(_) | TargetStep::ResumeMaterialization(_) => {
                RecoveryPhase::Materialize
            }
            TargetStep::Initialize(_) => RecoveryPhase::Initialize,
            _ => RecoveryPhase::Complete,
        },
        _ => RecoveryPhase::Complete,
    };
    let own_birth = match &input {
        Dispatch::ControlIntent(request) => {
            request.open().phase == LifecyclePhase::Complete
                && operation.completion_intent == Some(id)
        }
        _ => false,
    };
    let completion_scope = if at != RecoveryPhase::Complete {
        None
    } else if own_birth {
        attempts::scope(operation)
    } else {
        attempts::prepared_scope(state, operation, id, &input).unwrap()
    };
    let command_id = match &input {
        Dispatch::ControlIntent(request) => request.open().command_id,
        Dispatch::Target { request, .. } => request.open().command_id,
        _ => panic!("an installed Control intent is needed"),
    };
    let authority = state.lifecycle.as_ref().unwrap().intents.get(command_id).unwrap();
    let committed_control = matches!(
        (&input, &outcome),
        (Dispatch::ControlIntent(_), Some(DispatchOutcome::ControlIntent(_)))
    );
    let committed_initial = match (&input, &outcome) {
        (Dispatch::Target { request, .. }, Some(DispatchOutcome::Target(_))) => matches!(
            request.open().step,
            TargetStep::Start(ReplicaInput::Quorum(_)) | TargetStep::Initialize(_)
        ),
        _ => false,
    };
    let prepared_revision = if committed_control || committed_initial {
        revision.saturating_sub(1).max(1)
    } else {
        revision
    };
    let value = PhaseRecord {
        operation_id: operation.request.operation_id,
        phase_id: id,
        sequence: revision,
        phase: at,
        completion_scope,
        previous_phase: None,
        input,
        principal: Name::of("operator"),
        admitted_at_ms: authority.accepted_at_ms,
        original_credential_expires_at_ms: authority.original_credential_expires_at_ms,
        prepared_revision,
        resolved_revision: outcome.as_ref().map(|_| (revision + 1).max(3)),
        outcome,
    };
    state.recovery.phases.insert(id, value);
    value
}

fn grant(state: &mut State, intent: LifecycleIntent) {
    state.lifecycle.as_mut().unwrap().intents.insert(intent.request.command_id, intent);
}

fn control(state: &mut State, operation: &RecoveryRecord, intent: LifecycleIntent) {
    grant(state, intent);
    retained(
        state,
        operation,
        intent.request.command_id,
        Dispatch::ControlIntent(hold(intent.request)),
        Some(DispatchOutcome::ControlIntent(hold(intent))),
        intent.revision - 1,
    );
}

fn blank_voter(node_id: u64) -> Voter {
    Voter {
        node_id,
        materialization: None,
        start_attempt: None,
        started: None,
        confirmation: None,
        cleanup: None,
    }
}

fn voter_mut(operation: &mut RecoveryRecord, node_id: u64) -> &mut Voter {
    match node_id {
        1 => &mut operation.voters.first,
        2 => &mut operation.voters.second,
        _ => &mut operation.voters.third,
    }
}

fn empty_state(origin: &TargetOrigin) -> State {
    let partition = Partition {
        name: origin.materialization.request.authority_partition,
        authority_id: 901,
        manifest_sha256: origin.authority_manifest_sha256,
        partition: 0,
        signing_public_key: sample("issuer key"),
        maximum_lifetime_ms: 1000,
        drain_ms: 1000,
    };
    State {
        tenant: Name::of("__kasumi_control"),
        incarnation: CONTROL,
        revision: 1,
        policy_epoch: 1,
        policy: sample("policy"),
        retired: false,
        suspended: false,
        pending_restore: false,
        topology: None,
        lifecycle: Some(LifecycleControl {
            installation: Installation {
                sha256: sample("installation"),
                partitions_sha256: sample("partitions"),
                control_incarnation: CONTROL,
                public_key: sample("control key"),
                generation: 1,
                partitions: vec![partition],
                max_intents: 100,
                max_changes: 10,
                max_state_bytes: 8 << 20,
            },
            installation_command_id: 902,
            installation_revision: 1,
            installation_policy_epoch: 1,
            installation_policy: sample("policy"),
            retired: false,
            pending_change: None,
            intents: Table::new(),
            changes: Table::new(),
        }),
        recovery: RecoveryControl {
            operations: Table::new(),
            phases: Table::new(),
            targets: Table::new(),
            completion_history: Table::new(),
        },
    }
}

fn placement(node_id: u64) -> Placement {
    Placement::of(&format!("https://node-{node_id}.example"), &format!("zone-{node_id}"))
}

fn start_of(origin: &TargetOrigin) -> RecoveryStart {
    let r = &origin.materialization.request;
    RecoveryStart {
        operation_id: 600,
        tenant: r.tenant,
        source_incarnation: r.source_incarnation,
        source_authority_epoch: r.source_authority_epoch,
        target_incarnation: r.target_incarnation,
        checkpoint: r.checkpoint,
        source_purpose_sha256: sample("purpose"),
        source_mode: SourceMode::SourceUnavailable,
        installation_sha256: r.installation_sha256,
        expected_policy_epoch: 1,
        authority_policy_epoch: 1,
        authority_partition: r.authority_partition,
        dispatch_configuration_sha256: sample("dispatch"),
        target_nodes: r.target_nodes,
        placements: Placements { first: placement(1), second: placement(2), third: placement(3) },
        materialization: origin.input,
        phase_timeout_ms: 1000,
        sha256: sample("start"),
    }
}

fn fixture_state() -> (State, RecoveryRecord, CompletionAttempt) {
    let origin = origin();
    let attempt = attempt(&origin, None, 12, 1, 200, 500);
    let mut state = empty_state(&origin);
    let r = origin.materialization.request;
    let request = start_of(&origin);
    let mut operation = RecoveryRecord {
        request,
        request_sha256: request.sha256,
        original_principal: Name::of("operator"),
        created_revision: 1,
        updated_revision: 100,
        phase: RecoveryPhase::Complete,
        next_phase_sequence: 100,
        pending_phase: None,
        last_phase: None,
        issuer_preparation: None,
        current_intent: None,
        materialization_intent: Some(r.command_id),
        initialization: None,
        completion_intent: Some(attempt.intent.request.command_id),
        completion_predecessor: None,
        completion_preparation_attempt: Some(610),
        completion_preparation: None,
        completion_resolution_attempt: None,
        completion_terminal: None,
        completion_attempt: None,
        completion: None,
        retirement: None,
        source_fence: None,
        activation_attempt: None,
        activation: None,
        route_publication: None,
        stop_request: None,
        target_stop: None,
        voters: Voters { first: blank_voter(1), second: blank_voter(2), third: blank_voter(3) },
    };
    control(&mut state, &operation, origin.materialization);
    control(&mut state, &operation, attempt.intent);
    for node_id in 1..=3u64 {
        let id = 500 + u128::from(node_id);
        retained(
            &mut state,
            &operation,
            id,
            target(
                node_id,
                TargetRequest {
                    tenant: r.tenant,
                    command_id: r.command_id,
                    not_after_ms: 500,
                    step: TargetStep::Materialize(origin.input),
                },
            ),
            answered(TargetResponse {
                node_id,
                command_id: r.command_id,
                outcome: TargetOutcome::Materialized(proof_of(&origin, node_id)),
            }),
            5 + node_id,
        );
        voter_mut(&mut operation, node_id).materialization = Some(id);
    }
    let initialization = intent(
        &origin,
        LifecyclePhase::Initialize,
        digest_with(QUORUM, &attempt.input.quorum),
        9,
        150,
        1000,
    );
    control(&mut state, &operation, initialization);
    retained(
        &mut state,
        &operation,
        609,
        target(
            1,
            TargetRequest {
                tenant: r.tenant,
                command_id: initialization.request.command_id,
                not_after_ms: 500,
                step: TargetStep::Initialize(hold(attempt.input.quorum)),
            },
        ),
        answered(TargetResponse {
            node_id: 1,
            command_id: initialization.request.command_id,
            outcome: TargetOutcome::Initialized {
                origin_sha256: attempt.input.quorum.origin_sha256,
            },
        }),
        10,
    );
    operation.initialization = Some(609);
    let first = retained(
        &mut state,
        &operation,
        610,
        target(
            1,
            TargetRequest {
                tenant: r.tenant,
                command_id: attempt.intent.request.command_id,
                not_after_ms: 500,
                step: TargetStep::PrepareComplete(hold(attempt.input)),
            },
        ),
        None,
        16,
    );
    operation.pending_phase = Some(first.phase_id);
    (state, operation, attempt)
}

fn observe(
    state: &mut State,
    operation: &mut RecoveryRecord,
    attempt: &CompletionAttempt,
) -> PhaseRecord {
    let input: AttemptStatusInput = attempts::status_input(state, operation).unwrap();
    let status = intent(
        &attempt.origin,
        LifecyclePhase::InspectCompletionAttempt,
        digest_with(ATTEMPT_STATUS, &input),
        20,
        1000,
        2000,
    );
    control(state, operation, status);
    let response = TargetResponse {
        node_id: 1,
        command_id: status.request.command_id,
        outcome: TargetOutcome::CompletionAttemptStatus(hold(SignedAttemptStatus {
            input,
            status_intent: status,
            attempt: *attempt,
            observer_node_id: 1,
            authentic: true,
        })),
    };
    let observed = retained(
        state,
        operation,
        700,
        target(
            1,
            TargetRequest {
                tenant: operation.request.tenant,
                command_id: status.request.command_id,
                not_after_ms: 1500,
                step: TargetStep::InspectCompletionAttempt(hold(input)),
            },
        ),
        answered(response),
        25,
    );
    receiver::validate_outcome(state, operation, &observed, &response).unwrap();
    state.revision = 26;
    receiver::resolve_prior(state, operation, &observed, &response).unwrap();
    operation.completion_preparation = Some(observed.phase_id);
    operation.current_intent = Some(status.request.command_id);
    operation.pending_phase = None;
    observed
}

fn put_head(state: &mut State, operation: &RecoveryRecord) {
    state.recovery.operations.insert(operation.request.operation_id, *operation);
}

fn sealed_fact(
    input: kasumi_engine::model::ResolutionInput,
    resolution_intent: LifecycleIntent,
    admitted_at_ms: u64,
    dispatch_not_after_ms: u64,
    revision: u64,
    index: u64,
    terminal: CompletionTerminal,
) -> ResolutionFact {
    ResolutionFact {
        input,
        resolution_intent,
        admitted_at_ms,
        dispatch_not_after_ms,
        revision,
        position: CommitPosition {
            index,
            term: 1,
            leader_node_id: 1,
            command_sha256: sample("resolution command"),
        },
        terminal,
        sha256: sample(&format!("resolution {revision} {index}")),
    }
}

fn sealed_fixture() -> (State, RecoveryRecord, CompletionAttempt) {
    let (mut state, mut operation, attempt) = fixture_state();
    observe(&mut state, &mut operation, &attempt);
    let input = attempts::resolution_input(&state, &operation).unwrap();
    let resolver = intent(
        &attempt.origin,
        LifecyclePhase::ResolveComplete,
        digest_with(RESOLUTION, &input),
        30,
        1100,
        2000,
    );
    control(&mut state, &operation, resolver);
    operation.current_intent = Some(resolver.request.command_id);
    let fact = sealed_fact(input, resolver, 1101, 1900, 14, 3, CompletionTerminal::Sealed);
    let response = TargetResponse {
        command_id: resolver.request.command_id,
        node_id: 1,
        outcome: TargetOutcome::ResolvedCompletion(hold(SignedResolution {
            fact,
            observation_intent: resolver,
            observer_node_id: 1,
            authentic: true,
        })),
    };
    let record = retained(
        &mut state,
        &operation,
        800,
        target(
            1,
            TargetRequest {
                tenant: operation.request.tenant,
                command_id: resolver.request.command_id,
                not_after_ms: 1900,
                step: TargetStep::ResolveComplete(hold(input)),
            },
        ),
        answered(response),
        31,
    );
    operation.completion_resolution_attempt = Some(800);
    receiver::validate_outcome(&state, &operation, &record, &response).unwrap();
    operation.completion_terminal = Some(800);
    receiver::validate_progress(&state, &operation).unwrap();
    operation.pending_phase = None;
    operation.last_phase = Some(800);
    operation.next_phase_sequence = record.sequence + 1;
    operation.updated_revision = 32;
    state.revision = 32;
    put_head(&mut state, &operation);
    (state, operation, attempt)
}

fn rows<V: Copy>(table: &Table<V>) -> Vec<(u128, V)> {
    (0..table.len()).map(|i| table.row(i)).collect()
}

fn without<V: Copy>(table: &Table<V>, key: u128) -> Table<V> {
    let mut kept = Table::new();
    for (id, row) in rows(table) {
        if id != key {
            kept.insert(id, row);
        }
    }
    kept
}

fn assert_same_recovery(a: &RecoveryControl, b: &RecoveryControl) {
    assert_eq!(rows(&a.operations), rows(&b.operations));
    assert_eq!(rows(&a.phases), rows(&b.phases));
    assert_eq!(rows(&a.targets), rows(&b.targets));
    assert_eq!(rows(&a.completion_history), rows(&b.completion_history));
}

#[test]
fn retained_complete_input_requires_explicit_canonical_predecessor() {
    let origin = origin();
    let original = attempt(&origin, None, 10, 1, 200, 500);
    assert!(original.input.predecessor.is_none());
    validate_original_intent(&origin, &original.input, &original.intent).unwrap();

    let mut quorum_only = original.intent;
    quorum_only.request.phase_input_sha256 = digest_with(QUORUM, &original.input.quorum);
    quorum_only.request_sha256 = labelled_digest(INTENT_REQUEST, &quorum_only.request);
    assert!(validate_original_intent(&origin, &original.input, &quorum_only).is_err());

    let mut substituted = original.input;
    substituted.predecessor = Some(ResolutionReference {
        origin_sha256: origin_sha256(&origin),
        control_incarnation: original.intent.control_incarnation,
        original_command_id: 910,
        resolution_command_id: 911,
        resolution_control_revision: 9,
        fact_sha256: sample("fact"),
    });
    let mut substituted_intent = original.intent;
    substituted_intent.request.phase_input_sha256 = digest_with(COMPLETION, &substituted);
    substituted_intent.request_sha256 =
        labelled_digest(INTENT_REQUEST, &substituted_intent.request);
    // The substituted input is the one that its own intent commits.
    validate_original_intent(&origin, &substituted, &substituted_intent).unwrap();
    assert!(validate_original_intent(&origin, &original.input, &substituted_intent).is_err());
    assert!(validate_original_intent(&origin, &substituted, &original.intent).is_err());
}

#[test]
fn lost_prepare_reply_and_expired_phase_require_persisted_positive_status_before_resolution() {
    let (mut state, mut operation, attempt) = fixture_state();
    let original = attempts::original(&state, &operation).unwrap();
    assert!(original.outcome.is_none());
    assert!(attempts::resolution_input(&state, &operation).is_err());
    assert_eq!(
        attempts::fresh_phase(&state, &operation).unwrap(),
        LifecyclePhase::InspectCompletionAttempt
    );
    let observed = observe(&mut state, &mut operation, &attempt);
    assert_eq!(attempts::preparation(&state, &operation).unwrap(), attempt);
    assert_eq!(
        attempts::status_input(&state, &operation).unwrap().original_dispatch_not_after_ms,
        500
    );
    let resolved = phase(&state, &operation, original.phase_id).unwrap();
    assert_eq!(resolved.input, original.input);
    assert_eq!(
        resolved.outcome,
        Some(DispatchOutcome::PreparationObserved { status_phase: observed.phase_id })
    );
    assert_eq!(
        attempts::fresh_phase(&state, &operation).unwrap(),
        LifecyclePhase::ResolveComplete
    );

    let input = attempts::resolution_input(&state, &operation).unwrap();
    let resolver = intent(
        &attempt.origin,
        LifecyclePhase::ResolveComplete,
        digest_with(RESOLUTION, &input),
        30,
        1100,
        2000,
    );
    let request = TargetRequest {
        tenant: operation.request.tenant,
        command_id: resolver.request.command_id,
        not_after_ms: 1900,
        step: TargetStep::ResolveComplete(hold(input)),
    };
    receiver::validate_step(&state, &operation, &resolver, 1, &request, false).unwrap();
    let mut changed = state.copy();
    let mut row = changed.recovery.phases.get(observed.phase_id).unwrap();
    row.resolved_revision = Some(30);
    changed.recovery.phases.insert(observed.phase_id, row);
    assert!(
        receiver::validate_step(&changed, &operation, &resolver, 1, &request, false).is_err()
    );
    let mut other = input;
    other.attempt.position.index += 1;
    let changed = TargetRequest { step: TargetStep::ResolveComplete(hold(other)), ..request };
    assert!(receiver::validate_step(&state, &operation, &resolver, 1, &changed, false).is_err());
}

#[test]
fn absence_or_substituted_status_cannot_install_preparation_evidence() {
    let (mut state, mut operation, mut attempt) = fixture_state();
    assert!(attempts::preparation(&state, &operation).is_err());
    assert!(attempts::resolution_input(&state, &operation).is_err());
    let expected = attempts::status_input(&state, &operation).unwrap();
    assert!(attempts::matches_attempt(&expected, &attempt));
    attempt.dispatch_not_after_ms -= 1;
    assert!(!attempts::matches_attempt(&expected, &attempt));
    let (_, _, exact) = fixture_state();
    let observed = observe(&mut state, &mut operation, &exact);
    let mut original = attempts::original(&state, &operation).unwrap();
    original.prepared_revision = observed.prepared_revision;
    assert!(
        receiver::validate_link(&state, &operation, &original, observed.phase_id, false).is_err()
    );
}

#[test]
fn sealed_terminal_is_retained_distinctly_and_cannot_enter_activation_inspection() {
    let (state, mut operation, attempt) = sealed_fixture();
    assert_eq!(attempts::fresh_phase(&state, &operation).unwrap(), LifecyclePhase::Complete);
    assert_eq!(
        attempts::next_input(&state, &operation).unwrap().predecessor,
        Some(
            attempts::sealed_reference(&attempts::terminal(&state, &operation).unwrap()).unwrap()
        )
    );
    assert!(
        receiver::validate_inspected_terminal(&state, &operation, &completion(&attempt)).is_err()
    );
    operation.activation_attempt = Some(900);
    assert!(receiver::validate_progress(&state, &operation).is_err());
}

#[test]
fn expired_unknown_resolver_uses_only_exact_positive_terminal_status() {
    for committed in [false, true] {
        let (mut state, mut operation, attempt) = fixture_state();
        observe(&mut state, &mut operation, &attempt);
        let input = attempts::resolution_input(&state, &operation).unwrap();
        let resolver_intent = intent(
            &attempt.origin,
            LifecyclePhase::ResolveComplete,
            digest_with(RESOLUTION, &input),
            30,
            1100,
            2000,
        );
        control(&mut state, &operation, resolver_intent);
        let resolver = retained(
            &mut state,
            &operation,
            850,
            target(
                1,
                TargetRequest {
                    tenant: operation.request.tenant,
                    command_id: resolver_intent.request.command_id,
                    not_after_ms: 1900,
                    step: TargetStep::ResolveComplete(hold(input)),
                },
            ),
            None,
            31,
        );
        operation.completion_resolution_attempt = Some(850);
        operation.current_intent = Some(resolver_intent.request.command_id);
        assert_eq!(
            attempts::fresh_phase(&state, &operation).unwrap(),
            LifecyclePhase::InspectCompletionResolution
        );
        assert!(attempts::terminal(&state, &operation).is_err());
        let status_input = attempts::terminal_status_input(&state, &operation).unwrap();
        let status = intent(
            &attempt.origin,
            LifecyclePhase::InspectCompletionResolution,
            digest_with(TERMINAL_STATUS, &status_input),
            40,
            2500,
            4000,
        );
        control(&mut state, &operation, status);
        let terminal = if committed {
            CompletionTerminal::Committed(completion(&attempt))
        } else {
            CompletionTerminal::Sealed
        };
        let fact = sealed_fact(input, resolver_intent, 1101, 1900, 14, 3, terminal);
        let signed = SignedTerminalStatus {
            input: status_input,
            status_intent: status,
            fact,
            observer_node_id: 1,
            authentic: true,
        };
        assert!(receiver::terminal_status_holds(&status_input, &signed));
        let response = TargetResponse {
            command_id: status.request.command_id,
            node_id: 1,
            outcome: TargetOutcome::CompletionTerminalStatus(hold(signed)),
        };
        let observed = retained(
            &mut state,
            &operation,
            860,
            target(
                1,
                TargetRequest {
                    tenant: operation.request.tenant,
                    command_id: status.request.command_id,
                    not_after_ms: 3500,
                    step: TargetStep::InspectCompletionResolution(hold(status_input)),
                },
            ),
            answered(response),
            41,
        );
        receiver::validate_outcome(&state, &operation, &observed, &response).unwrap();
        state.revision = 42;
        receiver::resolve_resolver(&mut state, &operation, &observed).unwrap();
        let resolved = phase(&state, &operation, 850).unwrap();
        assert_eq!(resolved.input, resolver.input);
        assert_eq!(
            resolved.original_credential_expires_at_ms,
            resolver.original_credential_expires_at_ms
        );
        assert_eq!(
            resolved.outcome,
            Some(DispatchOutcome::TerminalObserved { status_phase: 860 })
        );
        operation.completion_terminal = Some(860);
        receiver::validate_progress(&state, &operation).unwrap();
        assert_eq!(attempts::terminal(&state, &operation).unwrap(), fact);
        if committed {
            assert_eq!(
                attempts::fresh_phase(&state, &operation).unwrap(),
                LifecyclePhase::InspectTarget
            );
            receiver::validate_inspected_terminal(&state, &operation, &completion(&attempt))
                .unwrap();
        } else {
            assert_eq!(
                attempts::fresh_phase(&state, &operation).unwrap(),
                LifecyclePhase::Complete
            );
            assert_eq!(
                attempts::next_input(&state, &operation).unwrap().predecessor,
                Some(attempts::sealed_reference(&fact).unwrap())
            );
        }
        let mut changed = signed;
        changed.fact.dispatch_not_after_ms += 1;
        assert!(!receiver::terminal_status_holds(&status_input, &changed));
        let wrong_domain = SignedTerminalStatus { authentic: false, ..signed };
        assert!(!receiver::terminal_status_holds(&status_input, &wrong_domain));
        let mut earlier = observed;
        earlier.prepared_revision = resolver.prepared_revision;
        state.recovery.phases.insert(860, earlier);
        assert!(receiver::validate_resolver_link(&state, &operation, &resolved, 860).is_err());
    }
}

#[test]
fn terminal_status_absence_or_new_resolver_identity_has_no_valid_evidence_form() {
    let (mut state, mut operation, attempt) = fixture_state();
    observe(&mut state, &mut operation, &attempt);
    assert!(attempts::terminal_status_input(&state, &operation).is_err());
    assert!(attempts::terminal(&state, &operation).is_err());
}

fn opened(dispatch: &Dispatch) -> (u64, TargetRequest) {
    match dispatch {
        Dispatch::Target { node_id, request } => (*node_id, request.open()),
        _ => panic!("a target dispatch is needed"),
    }
}

/// The first installed node has no startup response. Its original request stays
/// unknown while the other two installed nodes can start under the same intent.
#[test]
fn established_receiver_routes_around_unknown_start_without_unanimous_reopening() {
    let (mut state, mut operation, attempt) = fixture_state();
    let input = attempts::status_input(&state, &operation).unwrap();
    let current = intent(
        &attempt.origin,
        LifecyclePhase::InspectCompletionAttempt,
        digest_with(ATTEMPT_STATUS, &input),
        20,
        1000,
        2000,
    );
    let command = current.request.command_id;
    control(&mut state, &operation, current);
    operation.current_intent = Some(command);
    operation.pending_phase = None;
    let first = receiver::next(&state, &operation, &current, 1100, 2000).unwrap();
    let (node_id, original_request) = opened(&first);
    assert_eq!(node_id, 1);
    assert!(matches!(original_request.step, TargetStep::Start(_)));
    let first_phase = retained(&mut state, &operation, 920, first, None, 21);
    operation.voters.first.start_attempt = Some(first_phase.phase_id);
    operation.last_phase = Some(first_phase.phase_id);
    operation.pending_phase = Some(first_phase.phase_id);
    assert_eq!(
        quorum::retry_destination(&state, &operation, command, 1, &original_request.step).unwrap(),
        2
    );
    let retry = target(2, original_request);
    assert!(quorum::completion_route_retry(&first_phase, &retry, 1100));
    assert!(!quorum::completion_route_retry(
        &first_phase,
        &retry,
        original_request.not_after_ms
    ));
    for node_id in [2u64, 3] {
        let dispatch = if node_id == 2 {
            retry
        } else {
            let dispatch = receiver::next(&state, &operation, &current, 1100, 2000).unwrap();
            let (to, request) = opened(&dispatch);
            assert_eq!(to, 3);
            assert!(matches!(request.step, TargetStep::Start(_)));
            dispatch
        };
        let response = TargetResponse {
            node_id,
            command_id: command,
            outcome: TargetOutcome::Started {
                origin_sha256: attempt.input.quorum.origin_sha256,
            },
        };
        let record = retained(
            &mut state,
            &operation,
            920 + u128::from(node_id),
            dispatch,
            answered(response),
            21 + node_id,
        );
        receiver::validate_outcome(&state, &operation, &record, &response).unwrap();
        let progress = voter_mut(&mut operation, node_id);
        progress.start_attempt = Some(record.phase_id);
        progress.started = Some(record.phase_id);
        operation.last_phase = Some(record.phase_id);
        operation.pending_phase = None;
    }
    assert!(!quorum::all_started(&state, &operation, command).unwrap());
    let dispatch = receiver::next(&state, &operation, &current, 1100, 2000).unwrap();
    let (node_id, request) = opened(&dispatch);
    assert_eq!(node_id, 2);
    assert!(matches!(request.step, TargetStep::InspectCompletionAttempt(_)));
    receiver::validate_step(&state, &operation, &current, node_id, &request, true).unwrap();
    assert!(receiver::validate_step(&state, &operation, &current, 1, &request, true).is_err());
    assert!(phase(&state, &operation, first_phase.phase_id).unwrap().outcome.is_none());
    assert_eq!(
        quorum::retry_destination(&state, &operation, command, 2, &request.step).unwrap(),
        3
    );
    // Startup replies do not replace the required materialization proof or a
    // signed positive target observation; neither original outcome is invented.
    assert!(attempts::preparation(&state, &operation).is_err());
    operation.voters.first.materialization = None;
    assert!(receiver::next(&state, &operation, &current, 1100, 2000).is_err());
}

#[test]
fn complete_mutation_retry_includes_initialized_leader_without_new_start() {
    let (mut state, mut operation, attempt) = fixture_state();
    let current = attempt.intent;
    let command = current.request.command_id;
    let original = TargetRequest {
        tenant: operation.request.tenant,
        command_id: command,
        not_after_ms: attempt.dispatch_not_after_ms,
        step: TargetStep::PrepareComplete(hold(attempt.input)),
    };
    for node_id in [1u64, 2] {
        let response = TargetResponse {
            node_id,
            command_id: command,
            outcome: TargetOutcome::Started {
                origin_sha256: attempt.input.quorum.origin_sha256,
            },
        };
        let started = retained(
            &mut state,
            &operation,
            940 + u128::from(node_id),
            target(
                node_id,
                TargetRequest {
                    step: TargetStep::Start(ReplicaInput::Completion(hold(attempt.input))),
                    ..original
                },
            ),
            answered(response),
            30 + node_id,
        );
        let progress = voter_mut(&mut operation, node_id);
        progress.start_attempt = Some(started.phase_id);
        progress.started = Some(started.phase_id);
    }
    assert_eq!(quorum::ready_nodes(&state, &operation, command).unwrap(), vec![1, 2]);
    assert_eq!(
        quorum::retry_destination(&state, &operation, command, 2, &original.step).unwrap(),
        3
    );
    receiver::validate_step(&state, &operation, &current, 3, &original, true).unwrap();
    assert!(quorum::require_eligible_observer(&state, &operation, command, 3).is_err());

    let mut missing_initialization = operation;
    missing_initialization.initialization = None;
    assert!(
        receiver::validate_step(&state, &missing_initialization, &current, 3, &original, true)
            .is_err()
    );
    assert!(
        quorum::retry_destination(&state, &missing_initialization, command, 2, &original.step)
            .is_err()
    );

    let mut missing_materialization = operation;
    missing_materialization.voters.third.materialization = None;
    assert!(
        receiver::validate_step(&state, &missing_materialization, &current, 3, &original, true)
            .is_err()
    );
    let mut input = attempt.input;
    input.quorum.origin_sha256 = Digest { high: 0, low: 0 };
    let different = TargetRequest { step: TargetStep::PrepareComplete(hold(input)), ..original };
    assert!(receiver::validate_step(&state, &operation, &current, 3, &different, true).is_err());
}

fn admitted(state: &State, at: u64, expires: u64) -> RecoveryAuthorization {
    RecoveryAuthorization {
        tenant: state.tenant,
        principal: Name::of("operator"),
        control_refusal: None,
        admin_refusal: None,
        request_refusal: None,
        credential_expires_at_ms: Some(expires),
        policy_epoch: state.policy_epoch,
        admitted_at_ms: at,
        expires_at_ms: expires,
        input_bytes: 512,
        max_record_bytes: 1024,
    }
}

#[test]
fn complete_reducer_rejects_both_original_cap_substitutions_before_inserting_phase() {
    let (mut state, mut operation, attempt) = fixture_state();
    let original_id = operation.completion_preparation_attempt.unwrap();
    let mut original = phase(&state, &operation, original_id).unwrap();
    original.outcome = answered(TargetResponse {
        command_id: attempt.intent.request.command_id,
        node_id: 1,
        outcome: TargetOutcome::PreparedCompletion(hold(SignedAttempt {
            attempt,
            observer_node_id: 1,
            authentic: true,
        })),
    });
    original.resolved_revision = Some(17);
    state.recovery.phases.insert(original_id, original);
    operation.completion_preparation = Some(original_id);
    operation.pending_phase = None;
    operation.current_intent = Some(attempt.intent.request.command_id);
    let started = retained(
        &mut state,
        &operation,
        930,
        target(
            1,
            TargetRequest {
                tenant: operation.request.tenant,
                command_id: attempt.intent.request.command_id,
                not_after_ms: 500,
                step: TargetStep::Start(ReplicaInput::Completion(hold(attempt.input))),
            },
        ),
        answered(TargetResponse {
            node_id: 1,
            command_id: attempt.intent.request.command_id,
            outcome: TargetOutcome::Started {
                origin_sha256: attempt.input.quorum.origin_sha256,
            },
        }),
        14,
    );
    operation.voters.first.started = Some(started.phase_id);
    operation.voters.first.start_attempt = Some(started.phase_id);
    state.revision = 101;
    put_head(&mut state, &operation);
    for cap in [
        attempt.dispatch_not_after_ms - 1,
        attempt.dispatch_not_after_ms + 1,
        attempt.dispatch_not_after_ms,
    ] {
        let mut candidate = state.copy();
        let id = 4_242;
        let command = RecoveryCommand {
            authorization: admitted(&state, 300, 2000),
            mutation: RecoveryMutation::Prepare {
                operation_id: operation.request.operation_id,
                phase_id: id,
                expected_sequence: operation.next_phase_sequence,
                expected_pending: None,
                input: target(
                    1,
                    TargetRequest {
                        tenant: operation.request.tenant,
                        command_id: attempt.intent.request.command_id,
                        not_after_ms: cap,
                        step: TargetStep::Complete(hold(attempt.input)),
                    },
                ),
            },
        };
        let mut wide = command;
        wide.authorization.input_bytes = 513;
        let refused = recovery_state::apply(&mut candidate, &wide).unwrap_err();
        assert_eq!(refused.message, "recovery phase input work limit");
        assert_eq!(refused.code, ErrorCode::ResourceExhausted);
        assert_same_recovery(&candidate.recovery, &state.recovery);
        let applied = recovery_state::apply(&mut candidate, &command);
        if cap == attempt.dispatch_not_after_ms {
            assert!(applied.is_ok(), "{applied:?}");
            assert!(candidate.recovery.phases.contains(id));
            // The same command once more changes nothing.
            let once = candidate.copy();
            let again = recovery_state::apply(&mut candidate, &command).unwrap();
            assert_eq!(again, applied.unwrap());
            assert_same_recovery(&candidate.recovery, &once.recovery);
        } else {
            let error = applied.unwrap_err();
            assert_eq!(error.code, ErrorCode::Conflict);
            assert!(error.message.contains("original deadline"), "{error:?}");
            assert_same_recovery(&candidate.recovery, &state.recovery);
        }
    }
}

fn linked_birth(
    state: &mut State,
    operation: &mut RecoveryRecord,
    revision: u64,
    admitted_at_ms: u64,
    cap: u64,
) -> (CompletionAttempt, PhaseRecord) {
    let input = attempts::next_input(state, operation).unwrap();
    let index = attempts::terminal(state, operation).unwrap().position.index + 1;
    let next = attempt(
        &origin_of(state, operation).unwrap(),
        input.predecessor,
        revision,
        index,
        admitted_at_ms,
        cap,
    );
    assert_eq!(next.input, input);
    let born = next.intent;
    grant(state, born);
    let birth = retained(
        state,
        operation,
        born.request.command_id,
        Dispatch::ControlIntent(hold(born.request)),
        Some(DispatchOutcome::ControlIntent(hold(born))),
        revision - 1,
    );
    attempts::install(state, operation, &birth).unwrap();
    operation.pending_phase = None;
    operation.last_phase = Some(birth.phase_id);
    operation.next_phase_sequence = birth.sequence + 1;
    operation.updated_revision = revision;
    state.revision = revision;
    put_head(state, operation);
    snapshot::validate_history(state).unwrap();
    (next, birth)
}

fn linked_preparation(
    state: &mut State,
    operation: &mut RecoveryRecord,
    attempt: &CompletionAttempt,
) {
    let response = TargetResponse {
        command_id: attempt.intent.request.command_id,
        node_id: 1,
        outcome: TargetOutcome::PreparedCompletion(hold(SignedAttempt {
            attempt: *attempt,
            observer_node_id: 1,
            authentic: true,
        })),
    };
    let record = retained(
        state,
        operation,
        10_000 + u128::from(attempt.intent.revision),
        target(
            1,
            TargetRequest {
                tenant: operation.request.tenant,
                command_id: attempt.intent.request.command_id,
                not_after_ms: attempt.dispatch_not_after_ms,
                step: TargetStep::PrepareComplete(hold(attempt.input)),
            },
        ),
        answered(response),
        attempt.intent.revision + 1,
    );
    operation.completion_preparation_attempt = Some(record.phase_id);
    operation.completion_preparation = Some(record.phase_id);
    receiver::validate_outcome(state, operation, &record, &response).unwrap();
    snapshot::validate_frozen_input(state, operation, &record, None).unwrap();
    put_head(state, operation);
}

fn seal_linked(
    state: &mut State,
    operation: &mut RecoveryRecord,
    attempt: &CompletionAttempt,
    revision: u64,
    admitted_at_ms: u64,
) {
    let input = attempts::resolution_input(state, operation).unwrap();
    let resolver = intent(
        &attempt.origin,
        LifecyclePhase::ResolveComplete,
        digest_with(RESOLUTION, &input),
        revision,
        admitted_at_ms,
        admitted_at_ms + 900,
    );
    control(state, operation, resolver);
    operation.current_intent = Some(resolver.request.command_id);
    let fact = sealed_fact(
        input,
        resolver,
        admitted_at_ms + 1,
        admitted_at_ms + 800,
        attempt.revision + 1,
        attempt.position.index + 1,
        CompletionTerminal::Sealed,
    );
    let response = TargetResponse {
        command_id: resolver.request.command_id,
        node_id: 1,
        outcome: TargetOutcome::ResolvedCompletion(hold(SignedResolution {
            fact,
            observation_intent: resolver,
            observer_node_id: 1,
            authentic: true,
        })),
    };
    let record = retained(
        state,
        operation,
        20_000 + u128::from(revision),
        target(
            1,
            TargetRequest {
                tenant: operation.request.tenant,
                command_id: resolver.request.command_id,
                not_after_ms: admitted_at_ms + 800,
                step: TargetStep::ResolveComplete(hold(input)),
            },
        ),
        answered(response),
        revision + 1,
    );
    operation.completion_resolution_attempt = Some(record.phase_id);
    receiver::validate_outcome(state, operation, &record, &response).unwrap();
    operation.completion_terminal = Some(record.phase_id);
    operation.last_phase = Some(record.phase_id);
    operation.next_phase_sequence = record.sequence + 1;
    operation.updated_revision = revision + 2;
    state.revision = revision + 2;
    put_head(state, operation);
    receiver::validate_progress(state, operation).unwrap();
}

#[test]
fn sealed_completion_successor_preserves_exact_old_proof_context_and_rejects_replay() {
    let (mut state, mut operation, _) = sealed_fixture();
    let old = operation;
    let before = state.copy();
    let old_phases = rows(&state.recovery.phases);
    let predecessor =
        attempts::sealed_reference(&attempts::terminal(&state, &operation).unwrap()).unwrap();
    let (next, birth) = linked_birth(&mut state, &mut operation, 100, 2100, 2500);
    assert_ne!(operation.completion_intent, old.completion_intent);
    assert_eq!(next.input.predecessor, Some(predecessor));
    assert_eq!(operation.completion_predecessor, old.completion_terminal);
    assert!(operation.completion_preparation_attempt.is_none());
    assert!(operation.completion_preparation.is_none());
    assert!(operation.completion_resolution_attempt.is_none());
    assert!(operation.completion_terminal.is_none());
    assert!(operation.completion_attempt.is_none());
    for (key, row) in old_phases {
        assert_eq!(state.recovery.phases.get(key), Some(row));
        if row.phase == RecoveryPhase::Complete {
            let view = attempts::for_phase(&state, &operation, &row).unwrap();
            assert_eq!(view.completion_intent, old.completion_intent);
            snapshot::validate_frozen_input(&state, &view, &row, None).unwrap();
            if let Some(outcome) = &row.outcome {
                recovery_results::validate_outcome(&state, &view, &row, outcome).unwrap();
            }
        }
    }
    validate_successor(&before, &state).unwrap();
    let immutable = state.copy();
    assert!(attempts::install(&mut state, &mut operation, &birth).is_err());
    assert_same_recovery(&state.recovery, &immutable.recovery);
    // A forged branch from an old in-memory cursor cannot archive it twice.
    let mut stale = old;
    assert!(attempts::install(&mut state, &mut stale, &birth).is_err());
    assert_same_recovery(&state.recovery, &immutable.recovery);
}

fn committed_instead(held: &Option<DispatchOutcome>, fact: CompletionFact) -> DispatchOutcome {
    match held {
        Some(DispatchOutcome::Target(response)) => {
            let mut response = response.open();
            let mut signed = match response.outcome {
                TargetOutcome::ResolvedCompletion(signed) => signed.open(),
                _ => panic!("a resolved completion is needed"),
            };
            signed.fact.terminal = CompletionTerminal::Committed(fact);
            response.outcome = TargetOutcome::ResolvedCompletion(hold(signed));
            DispatchOutcome::Target(hold(response))
        }
        _ => panic!("a target outcome is needed"),
    }
}

#[test]
fn completion_successor_requires_exact_positive_sealed_original_and_origin() {
    let (state, operation, _) = fixture_state();
    assert!(attempts::next_input(&state, &operation).is_err());
    let (state, operation, attempt) = sealed_fixture();
    for mutation in 0..4 {
        let mut changed = state.copy();
        let mut head = operation;
        match mutation {
            0 => head.completion_terminal = None,
            1 => head.completion = head.completion_terminal,
            2 => {
                let id = head.completion_terminal.unwrap();
                let mut row = changed.recovery.phases.get(id).unwrap();
                row.outcome = Some(committed_instead(&row.outcome, completion(&attempt)));
                changed.recovery.phases.insert(id, row);
            }
            3 => head.request.operation_id = 777_777,
            _ => unreachable!(),
        }
        assert!(attempts::next_input(&changed, &head).is_err(), "mutation {mutation}");
    }
    let (mut changed, mut head, _) = sealed_fixture();
    linked_birth(&mut changed, &mut head, 100, 2100, 2500);
    head.completion_predecessor = head.completion_preparation_attempt;
    // Removing the predecessor changes the original canonical completion digest.
    assert!(
        validate_original_intent(
            &origin_of(&changed, &head).unwrap(),
            &attempts::completion_input(&changed, &head).unwrap(),
            &committed_intent(&changed, &head, head.completion_intent.unwrap()).unwrap(),
        )
        .is_err()
    );
    head.completion_predecessor = Some(610);
    assert!(attempts::predecessor(&changed, &head).is_err());
}

#[test]
fn closed_completion_snapshot_rejects_history_deletion_tamper_cursor_regression_and_phase_rewrite()
{
    let (mut state, mut operation, _) = sealed_fixture();
    let before = state.copy();
    let old_intent = operation.completion_intent.unwrap();
    linked_birth(&mut state, &mut operation, 100, 2100, 2500);
    let id = operation.request.operation_id;
    for mutation in 0..5 {
        let mut changed = state.copy();
        match mutation {
            0 => {
                changed.recovery.completion_history =
                    without(&changed.recovery.completion_history, old_intent);
            }
            1 => {
                let mut history: CompletionHistory =
                    changed.recovery.completion_history.get(old_intent).unwrap();
                history.terminal = 610;
                changed.recovery.completion_history.insert(old_intent, history);
            }
            2 => {
                let mut head = changed.recovery.operations.get(id).unwrap();
                head.completion_intent = Some(old_intent);
                changed.recovery.operations.insert(id, head);
            }
            3 => {
                let mut head = changed.recovery.operations.get(id).unwrap();
                head.completion_predecessor = None;
                changed.recovery.operations.insert(id, head);
            }
            4 => {
                let mut row = changed.recovery.phases.get(old_intent).unwrap();
                row.completion_scope.as_mut().unwrap().predecessor = Some(800);
                changed.recovery.phases.insert(old_intent, row);
            }
            _ => unreachable!(),
        }
        assert!(validate_successor(&state, &changed).is_err(), "mutation {mutation}");
        if mutation != 2 {
            assert!(
                snapshot::validate_history(&changed).is_err()
                    || validate_successor(&before, &changed).is_err(),
                "mutation {mutation} must also be rejected when advancing from the old original"
            );
        }
    }
    let mut changed = state.copy();
    let mut history = changed.recovery.completion_history.get(old_intent).unwrap();
    history.successor_intent = old_intent;
    changed.recovery.completion_history.insert(old_intent, history);
    assert!(snapshot::validate_history(&changed).is_err());
}

#[test]
fn repeated_sealed_successors_keep_causal_chain_and_all_original_scopes() {
    let (mut state, mut operation, _) = sealed_fixture();
    let first = operation.completion_intent.unwrap();
    let (second, second_birth) = linked_birth(&mut state, &mut operation, 100, 2100, 2500);
    linked_preparation(&mut state, &mut operation, &second);
    seal_linked(&mut state, &mut operation, &second, 110, 3100);
    let before_third = state.copy();
    let (third, third_birth) = linked_birth(&mut state, &mut operation, 300, 5100, 5500);
    assert_eq!(state.recovery.completion_history.len(), 2);
    assert_ne!(third.input.predecessor, second.input.predecessor);
    validate_successor(&before_third, &state).unwrap();
    let mut chain = operation.completion_intent;
    let first_birth = phase(&state, &operation, first).unwrap();
    for row in [&third_birth, &second_birth, &first_birth] {
        attempts::validate_chain_link(&state, &operation, row, &mut chain).unwrap();
    }
    assert_eq!(chain, None);
    let mut forked = operation.completion_intent;
    assert!(
        attempts::validate_chain_link(&state, &operation, &second_birth, &mut forked).is_err()
    );
    linked_preparation(&mut state, &mut operation, &third);
    let outcome = DispatchOutcome::Target(hold(TargetResponse {
        command_id: third.intent.request.command_id,
        node_id: 1,
        outcome: TargetOutcome::Completed(hold(SignedCompletion {
            fact: completion(&third),
            observer_node_id: 1,
            authentic: true,
        })),
    }));
    let completed = retained(
        &mut state,
        &operation,
        30_300,
        target(
            1,
            TargetRequest {
                tenant: operation.request.tenant,
                command_id: third.intent.request.command_id,
                not_after_ms: third.dispatch_not_after_ms,
                step: TargetStep::Complete(hold(third.input)),
            },
        ),
        Some(outcome),
        303,
    );
    operation.completion_attempt = Some(completed.phase_id);
    snapshot::validate_frozen_input(&state, &operation, &completed, None).unwrap();
    let malformed = error(ErrorCode::InvalidArgument, "malformed input");
    assert_eq!(
        snapshot::validate_frozen_input(&state, &operation, &completed, Some(malformed)),
        Err(error(ErrorCode::Conflict, "retained native target request invalid"))
    );
    recovery_results::validate_outcome(&state, &operation, &completed, &outcome).unwrap();
    // Later global progress must not turn either old sealed context into an
    // activation. These point values test context selection, not native success.
    operation.completion = Some(900_001);
    operation.activation_attempt = Some(900_002);
    operation.activation = Some(900_003);
    for (_, history) in rows(&state.recovery.completion_history) {
        let row = phase(&state, &operation, history.terminal).unwrap();
        let view = attempts::for_phase(&state, &operation, &row).unwrap();
        assert!(
            view.completion.is_none()
                && view.activation_attempt.is_none()
                && view.activation.is_none()
        );
        receiver::validate_progress(&state, &view).unwrap();
        snapshot::validate_frozen_input(&state, &view, &row, None).unwrap();
        recovery_results::validate_outcome(&state, &view, &row, row.outcome.as_ref().unwrap())
            .unwrap();
    }
}

#[test]
fn pending_linked_birth_retains_exact_input_when_stop_clears_pending_without_commit() {
    let (mut state, mut operation, attempt) = sealed_fixture();
    let input = attempts::next_input(&state, &operation).unwrap();
    let born = intent(
        &attempt.origin,
        LifecyclePhase::Complete,
        digest_with(COMPLETION, &input),
        100,
        2100,
        2600,
    );
    grant(&mut state, born);
    let pending = retained(
        &mut state,
        &operation,
        born.request.command_id,
        Dispatch::ControlIntent(hold(born.request)),
        None,
        99,
    );
    // An unresolved dispatch is not a replicated Control commitment.
    let lifecycle = state.lifecycle.as_mut().unwrap();
    lifecycle.intents = without(&lifecycle.intents, born.request.command_id);
    operation.pending_phase = Some(pending.phase_id);
    for stopped in [false, true] {
        if stopped {
            operation.pending_phase = None;
            operation.stop_request = Some(404_404);
            operation.phase = RecoveryPhase::StopTarget;
        }
        let view = attempts::for_phase(&state, &operation, &pending).unwrap();
        snapshot::validate_frozen_input(&state, &view, &pending, None).unwrap();
        assert!(view.completion_intent.is_none());
        assert_eq!(view.completion_predecessor, operation.completion_terminal);
        assert_eq!(state.recovery.completion_history.len(), 0);
        assert_eq!(phase(&state, &operation, pending.phase_id).unwrap(), pending);
    }
    let mut forged = pending;
    forged.completion_scope.as_mut().unwrap().predecessor = None;
    assert!(attempts::for_phase(&state, &operation, &forged).is_err());
}

#[test]
fn removed_completion_history_is_no_successor() {
    let (mut state, mut operation, _) = sealed_fixture();
    linked_birth(&mut state, &mut operation, 100, 2100, 2500);
    validate_successor(&state, &state).unwrap();
    let mut removed = state.copy();
    removed.recovery.completion_history = Table::new();
    assert!(validate_successor(&state, &removed).is_err());
}

fn command(state: &State, mutation: RecoveryMutation) -> RecoveryCommand {
    RecoveryCommand { authorization: admitted(state, 300, 2000), mutation }
}

#[test]
fn a_target_incarnation_is_bound_to_one_recovery_for_good() {
    let origin = origin();
    let mut state = empty_state(&origin);
    let request = start_of(&origin);
    let head = recovery_state::apply(
        &mut state,
        &command(&empty_state(&origin), RecoveryMutation::Start(request)),
    )
    .unwrap();
    assert_eq!(head.phase, RecoveryPhase::Prepare);
    assert_eq!(head.next_phase_sequence, 1);
    assert_eq!(state.recovery.targets.get(12), Some(600));
    let once = state.copy();
    let again = recovery_state::apply(
        &mut state,
        &command(&once, RecoveryMutation::Start(request)),
    )
    .unwrap();
    assert_eq!(again, head);
    assert_same_recovery(&state.recovery, &once.recovery);
    let other = RecoveryStart { operation_id: 601, ..request };
    let refused = recovery_state::apply(
        &mut state,
        &command(&once, RecoveryMutation::Start(other)),
    )
    .unwrap_err();
    assert_eq!(refused.code, ErrorCode::Conflict);
    assert_eq!(
        refused.message,
        "target incarnation is permanently bound to another recovery"
    );
    let different = RecoveryStart { phase_timeout_ms: 2000, ..request };
    let refused = recovery_state::apply(
        &mut state,
        &command(&once, RecoveryMutation::Start(different)),
    )
    .unwrap_err();
    assert_eq!(refused.message, "permanent recovery operation identity differs");
    assert_same_recovery(&state.recovery, &once.recovery);
}

#[test]
fn a_stop_is_permanent_and_told_twice_changes_nothing() {
    let (mut state, operation, _) = fixture_state();
    put_head(&mut state, &operation);
    let told = state.copy();
    let stop = RecoveryMutation::Stop { operation_id: 600, command_id: 33 };
    let head = recovery_state::apply(&mut state, &command(&told, stop)).unwrap();
    assert_eq!(head.stop_request, Some(33));
    assert_eq!(head.pending_phase, None);
    assert_eq!(head.phase, RecoveryPhase::StopTarget);
    let once = state.copy();
    assert_eq!(recovery_state::apply(&mut state, &command(&told, stop)).unwrap(), head);
    assert_same_recovery(&state.recovery, &once.recovery);
    let other = RecoveryMutation::Stop { operation_id: 600, command_id: 34 };
    let refused = recovery_state::apply(&mut state, &command(&told, other)).unwrap_err();
    assert_eq!(refused.message, "permanent recovery stop identity differs");
    let absent = RecoveryMutation::Stop { operation_id: 1, command_id: 34 };
    let refused = recovery_state::apply(&mut state, &command(&told, absent)).unwrap_err();
    assert_eq!(refused.code, ErrorCode::NotFound);
    assert_same_recovery(&state.recovery, &once.recovery);
}

#[test]
fn every_accepted_command_leaves_a_successor_of_its_journal() {
    let origin = origin();
    let mut state = empty_state(&origin);
    let first = start_of(&origin);
    let second = RecoveryStart { operation_id: 601, target_incarnation: 77, ..first };
    let commands = [
        RecoveryMutation::Start(first),
        RecoveryMutation::Start(second),
        RecoveryMutation::Start(first),
        RecoveryMutation::Stop { operation_id: 601, command_id: 33 },
        RecoveryMutation::Stop { operation_id: 601, command_id: 33 },
    ];
    for mutation in commands {
        let before = state.copy();
        let head = recovery_state::apply(&mut state, &command(&before, mutation)).unwrap();
        validate_successor(&before, &state).unwrap();
        assert_eq!(head.issuer_preparation, None);
        assert_eq!(head.target_stop, None);
    }
    assert_eq!(state.recovery.operations.len(), 2);
    let (mut state, operation, _) = fixture_state();
    put_head(&mut state, &operation);
    state.revision = operation.updated_revision + 1;
    let before = state.copy();
    let stop = RecoveryMutation::Stop { operation_id: 600, command_id: 33 };
    let head = recovery_state::apply(&mut state, &command(&before, stop)).unwrap();
    validate_successor(&before, &state).unwrap();
    assert!(validate_successor(&state, &before).is_err());
    assert_eq!(head.initialization, operation.initialization);
    assert_eq!(head.completion_intent, operation.completion_intent);
}

#[test]
fn a_command_needs_the_installed_control_and_a_live_credential() {
    let origin = origin();
    let state = empty_state(&origin);
    let start = RecoveryMutation::Start(start_of(&origin));
    let mut asked = command(&state, start);
    asked.authorization.tenant = Name::of("tenant");
    let proposed = recovery_state::propose(&state, 9, &asked);
    assert_eq!(proposed.outcome.unwrap_err().code, ErrorCode::Forbidden);
    assert_eq!(proposed.next.revision, 9);
    assert_same_recovery(&proposed.next.recovery, &state.recovery);
    let mut asked = command(&state, start);
    asked.authorization.admitted_at_ms = 2000;
    let proposed = recovery_state::propose(&state, 9, &asked);
    assert_eq!(proposed.outcome.unwrap_err().code, ErrorCode::Unauthorized);
    let proposed = recovery_state::propose(&state, 9, &command(&state, start));
    assert_eq!(proposed.action, "recovery_start");
    let head = proposed.outcome.unwrap();
    assert_eq!(head.created_revision, 9);
    // What does not fit is not published.
    let again = recovery_state::propose(&state, 9, &command(&state, start));
    let (kept, refused) = recovery_state::commit(&state, again, false);
    assert_eq!(refused.unwrap_err().code, ErrorCode::ResourceExhausted);
    assert_eq!(kept.revision, 9);
    assert_same_recovery(&kept.recovery, &state.recovery);
    let formless = error(ErrorCode::InvalidArgument, "form");
    let again = recovery_state::propose(&state, 9, &command(&state, start));
    let settled = recovery_state::settle_proposed(&state, again, Some(formless), None);
    let (kept, refused) = recovery_state::commit(&state, settled, true);
    assert_eq!(refused.unwrap_err(), formless);
    assert_same_recovery(&kept.recovery, &state.recovery);
    let mut asked = command(&state, start);
    asked.authorization.request_refusal = Some(formless);
    let proposed = recovery_state::propose(&state, 9, &asked);
    assert_eq!(proposed.outcome.unwrap_err(), formless);
    assert_eq!(
        recovery_state::entry_revision(u64::MAX, 1, 0).unwrap_err().message,
        "recovery revision exhausted"
    );
    assert_eq!(
        recovery_state::entry_revision(4, 1, 5).unwrap_err().message,
        "recovery applied position did not advance"
    );
    assert_eq!(recovery_state::entry_revision(4, 2, 5).unwrap(), 6);
}

#[test]
fn only_an_endpoint_with_an_origin_has_one() {
    let plain = Placement::of("https://Node.example:443/raft", "zone");
    let same = Placement::of("https://node.example/other", "zone");
    assert_eq!(plain.endpoint_origin, Some(Name::of("https://node.example")));
    assert_eq!(plain, same);
    assert_eq!(Placement::of("not an endpoint", "zone").endpoint_origin, None);
    let held: Held<u8> = hold(3);
    assert_eq!(held.open(), 3);
}

/// A recovery whose issuer has chosen its target and whose voters have all confirmed,
/// under a topology that serves its tenant at the source and another tenant locally.
fn publishable() -> (State, RecoveryRecord) {
    let (mut state, mut operation, _) = fixture_state();
    let request = operation.request;
    let receipt = AuthorityReceipt {
        command: AuthorityCommand {
            tenant: request.tenant,
            command_id: 650,
            expected_policy_epoch: 1,
            not_after_ms: 900,
            action: AuthorityAction::Fence { incarnation: 11, authority_epoch: 1 },
        },
        authority_id: 901,
        manifest_digest: sample("manifest"),
        partition: 0,
        term: 1,
        revision: 30,
        command_digest: sample("command"),
        admitted_at_ms: 300,
        outcome: AuthorityOutcome::Activated {
            target: RecoveryTarget {
                incarnation: request.target_incarnation,
                checkpoint: request.checkpoint,
                nodes: request.target_nodes,
            },
            authority_epoch: 2,
        },
        sha256: sample("receipt"),
    };
    state.recovery.phases.insert(
        650,
        PhaseRecord {
            operation_id: request.operation_id,
            phase_id: 650,
            sequence: 50,
            phase: RecoveryPhase::Activate,
            completion_scope: None,
            previous_phase: None,
            input: Dispatch::Authority(hold(receipt.command)),
            principal: Name::of("operator"),
            admitted_at_ms: 300,
            original_credential_expires_at_ms: 900,
            prepared_revision: 50,
            outcome: Some(DispatchOutcome::Authority(hold(SignedReceipt {
                receipt,
                authentic: true,
            }))),
            resolved_revision: Some(51),
        },
    );
    operation.activation = Some(650);
    for node_id in 1..=3u64 {
        voter_mut(&mut operation, node_id).confirmation = Some(650 + u128::from(node_id));
    }
    let mut nodes: Table<TopologyNode> = Table::new();
    for node_id in 1..=3u64 {
        nodes.insert(
            u128::from(node_id),
            TopologyNode {
                endpoint: Name::of(&format!("https://node-{node_id}.example")),
                failure_domain: Name::of(&format!("zone-{node_id}")),
                first_pin: Some(sample("retired certificate")),
                second_pin: Some(node(node_id).certificate_sha256),
            },
        );
    }
    state.topology = Some(Topology {
        version: 40,
        nodes,
        routes: vec![
            TenantRoute {
                tenant: Name::of("local"),
                incarnation: 77,
                replicated: false,
                voters: vec![9],
            },
            TenantRoute {
                tenant: request.tenant,
                incarnation: request.source_incarnation,
                replicated: true,
                voters: vec![4, 5, 6],
            },
        ],
        form_refusal: None,
    });
    state.revision = 60;
    (state, operation)
}

#[test]
fn a_route_is_published_to_its_confirmed_voters_and_moves_no_other() {
    let (mut state, operation) = publishable();
    let input = route::next_input(&state, &operation).unwrap();
    assert_eq!(input.expected_topology_version, 40);
    assert_eq!(input.expected_source_incarnation, 11);
    assert_eq!(input.target_incarnation, 12);
    assert_eq!((input.first_voter, input.second_voter, input.third_voter), (1, 2, 3));
    assert_eq!(
        route::apply(&mut state, &operation, &input).unwrap(),
        DispatchOutcome::RoutePublished { revision: 60 }
    );
    let kept = state.copy();
    let topology = kept.topology.as_ref().unwrap();
    assert_eq!(topology.version, 60);
    assert_eq!(topology.routes.len(), 2);
    assert_eq!(topology.routes[0].voters, vec![9]);
    assert!(!topology.routes[0].replicated);
    assert_eq!(topology.routes[0].incarnation, 77);
    assert_eq!(topology.routes[1].voters, vec![1, 2, 3]);
    assert_eq!(topology.routes[1].incarnation, 12);
    assert!(topology.routes[1].replicated);
    assert_eq!(
        route::apply(&mut state, &operation, &input).unwrap(),
        DispatchOutcome::RouteRejected { observed_topology_version: Some(60) }
    );
    assert_eq!(
        route::next_input(&state, &operation).unwrap_err().message,
        "source route differs from frozen recovery incarnation"
    );
}

#[test]
fn a_route_is_refused_where_its_grounds_are_missing() {
    let (state, operation) = publishable();
    let refusal = |change: &dyn Fn(&mut State, &mut RecoveryRecord)| {
        let mut state = state.copy();
        let mut operation = operation;
        change(&mut state, &mut operation);
        route::next_input(&state, &operation).unwrap_err()
    };
    assert_eq!(
        refusal(&|_, operation| operation.activation = None).message,
        "committed issuer winner absent"
    );
    assert_eq!(
        refusal(&|_, operation| operation.voters.second.confirmation = None).message,
        "route publication requires every local activation confirmation"
    );
    let absent = refusal(&|state, _| state.topology = None);
    assert_eq!(absent, error(ErrorCode::NotFound, "installed Control topology absent"));
    let formless = error(ErrorCode::Corruption, "topology document is malformed");
    assert_eq!(
        refusal(&|state, _| state.topology.as_mut().unwrap().form_refusal = Some(formless)),
        formless
    );
    assert_eq!(
        refusal(&|state, _| {
            state.topology.as_mut().unwrap().routes.pop();
        })
        .message,
        "source route absent"
    );
    assert_eq!(
        refusal(&|state, _| state.topology.as_mut().unwrap().routes[1].replicated = false)
            .message,
        "source route differs from frozen recovery incarnation"
    );
    assert_eq!(
        refusal(&|state, _| state.topology.as_mut().unwrap().nodes = Table::new()).message,
        "target voter is not approved in Control topology"
    );
    assert_eq!(
        refusal(&|_, operation| operation.request.placements.third.endpoint_origin = None)
            .message,
        "target replication endpoint is invalid"
    );
    assert_eq!(
        refusal(&|_, operation| {
            operation.request.placements.first.failure_domain = Name::of("zone-9")
        })
        .message,
        "target route differs from approved endpoint, trust or failure domain"
    );
    let mut stale = route::next_input(&state, &operation).unwrap();
    stale.third_voter = 9;
    assert_eq!(
        route::validate_input(&operation, &stale).unwrap_err().message,
        "route publication input differs from frozen source and target"
    );
}
