//! The records of the Control journal, as plain values.
//!
//! A record that was signed elsewhere carries what its signature's
//! verification gave (`authentic`) and, where its digest is compared, the
//! digest under which it was signed (`sha256`).
use vstd::prelude::*;

use crate::digest::{Digest, Name};
use crate::errors::Error;
use crate::held::Held;
use crate::table::Table;

verus! {

/// A target replica: its node and what it identifies itself by.
#[derive(Clone, Copy, Debug, PartialEq, Eq, Structural)]
pub struct Node {
    pub node_id: u64,
    pub verifier: Digest,
    pub principal: Name,
    pub certificate_sha256: Digest,
}

/// The three target replicas, in ascending order of their node ids.
#[derive(Clone, Copy, Debug, PartialEq, Eq, Structural)]
pub struct Nodes {
    pub first: Node,
    pub second: Node,
    pub third: Node,
}

/// Where a target replica stands: the origin of its replication endpoint, if
/// the endpoint has one, and its failure domain.
#[derive(Clone, Copy, Debug, PartialEq, Eq, Structural)]
pub struct Placement {
    pub endpoint_origin: Option<Name>,
    pub failure_domain: Name,
}

#[derive(Clone, Copy, Debug, PartialEq, Eq, Structural)]
pub struct Placements {
    pub first: Placement,
    pub second: Placement,
    pub third: Placement,
}

#[derive(Clone, Copy, Debug, PartialEq, Eq, Structural)]
pub struct RecoveryTarget {
    pub incarnation: u128,
    pub checkpoint: Digest,
    pub nodes: Nodes,
}

/// What a target is materialized from, known by its digest.
#[derive(Clone, Copy, Debug, PartialEq, Eq, Structural)]
pub struct MaterializationInput {
    pub sha256: Digest,
}

#[derive(Clone, Copy, Debug, PartialEq, Eq, Structural)]
pub enum LifecyclePhase {
    Materialize,
    ResumeMaterialize,
    Initialize,
    Complete,
    InspectCompletionAttempt,
    ResolveComplete,
    InspectCompletionResolution,
    InspectTarget,
    MaintainTarget,
    Activate,
    StopLocal,
}

#[derive(Clone, Copy, Debug, PartialEq, Eq, Structural)]
pub enum RecoveryPhase {
    Prepare,
    Materialize,
    Initialize,
    Complete,
    RetireSource,
    FenceSource,
    Activate,
    Confirm,
    Publish,
    Finished,
    StopActivation,
    StopTarget,
    Cleanup,
    Stopped,
}

/// The origin that a resumed materialization goes back to.
#[derive(Clone, Copy, Debug, PartialEq, Eq, Structural)]
pub struct ResumeOrigin {
    pub command_id: u128,
    pub revision: u64,
    pub intent_sha256: Digest,
    pub authority_manifest_sha256: Digest,
    pub input_sha256: Digest,
}

/// A request to commit one lifecycle intent.
#[derive(Clone, Copy, Debug, PartialEq, Eq, Structural)]
pub struct IntentRequest {
    pub command_id: u128,
    pub expected_policy_epoch: u64,
    pub installation_sha256: Digest,
    pub authority_partition: Name,
    pub tenant: Name,
    pub source_incarnation: u128,
    pub source_authority_epoch: u64,
    pub target_incarnation: u128,
    pub checkpoint: Digest,
    pub target_nodes: Nodes,
    pub phase: LifecyclePhase,
    pub phase_input_sha256: Digest,
    pub resume_origin: Option<ResumeOrigin>,
}

/// An intent that Control has committed.
#[derive(Clone, Copy, Debug, PartialEq, Eq, Structural)]
pub struct LifecycleIntent {
    pub request: IntentRequest,
    pub request_sha256: Digest,
    pub control_incarnation: u128,
    pub installation_generation: u64,
    pub original_principal: Name,
    pub original_credential_expires_at_ms: u64,
    pub accepted_at_ms: u64,
    pub revision: u64,
}

#[derive(Clone, Copy, Debug, PartialEq, Eq, Structural)]
pub struct TargetOrigin {
    pub authority_manifest_sha256: Digest,
    pub materialization: LifecycleIntent,
    pub input: MaterializationInput,
}

/// A node's signed word that it has materialized the target.
#[derive(Clone, Copy, Debug, PartialEq, Eq, Structural)]
pub struct MaterializationProof {
    pub node_id: u64,
    pub origin_sha256: Digest,
    pub image_sha256: Digest,
    pub sha256: Digest,
    pub authentic: bool,
}

#[derive(Clone, Copy, Debug, PartialEq, Eq, Structural)]
pub struct QuorumInput {
    pub origin_sha256: Digest,
    pub first: MaterializationProof,
    pub second: MaterializationProof,
    pub third: MaterializationProof,
}

/// A sealed completion attempt that a later attempt follows.
#[derive(Clone, Copy, Debug, PartialEq, Eq, Structural)]
pub struct ResolutionReference {
    pub origin_sha256: Digest,
    pub control_incarnation: u128,
    pub original_command_id: u128,
    pub resolution_command_id: u128,
    pub resolution_control_revision: u64,
    pub fact_sha256: Digest,
}

#[derive(Clone, Copy, Debug, PartialEq, Eq, Structural)]
pub struct CompletionInput {
    pub quorum: QuorumInput,
    pub predecessor: Option<ResolutionReference>,
}

#[derive(Clone, Copy, Debug, PartialEq, Eq, Structural)]
pub struct CommitPosition {
    pub index: u64,
    pub term: u64,
    pub leader_node_id: u64,
    pub command_sha256: Digest,
}

/// A completion that the target has prepared.
#[derive(Clone, Copy, Debug, PartialEq, Eq, Structural)]
pub struct CompletionAttempt {
    pub origin: TargetOrigin,
    pub intent: LifecycleIntent,
    pub input: CompletionInput,
    pub admitted_at_ms: u64,
    pub dispatch_not_after_ms: u64,
    pub revision: u64,
    pub position: CommitPosition,
}

#[derive(Clone, Copy, Debug, PartialEq, Eq, Structural)]
pub struct AttemptStatusInput {
    pub original_intent: LifecycleIntent,
    pub original_input: CompletionInput,
    pub original_dispatch_not_after_ms: u64,
}

#[derive(Clone, Copy, Debug, PartialEq, Eq, Structural)]
pub struct ResolutionInput {
    pub attempt: CompletionAttempt,
}

#[derive(Clone, Copy, Debug, PartialEq, Eq, Structural)]
pub struct TerminalStatusInput {
    pub original_intent: LifecycleIntent,
    pub original_input: ResolutionInput,
    pub original_dispatch_not_after_ms: u64,
}

#[derive(Clone, Copy, Debug, PartialEq, Eq, Structural)]
pub struct InspectionInput {
    pub quorum: QuorumInput,
    pub original_phase: LifecycleIntent,
    pub predecessor: Option<ResolutionReference>,
}

/// A completion that the target has committed.
#[derive(Clone, Copy, Debug, PartialEq, Eq, Structural)]
pub struct CompletionFact {
    pub completion_intent: LifecycleIntent,
    pub predecessor: Option<ResolutionReference>,
    pub admitted_at_ms: u64,
    pub revision: u64,
    pub term: u64,
    pub sha256: Digest,
}

#[derive(Clone, Copy, Debug, PartialEq, Eq, Structural)]
pub enum CompletionTerminal {
    Committed(CompletionFact),
    Sealed,
}

/// How a prepared completion ended.
#[derive(Clone, Copy, Debug, PartialEq, Eq, Structural)]
pub struct ResolutionFact {
    pub input: ResolutionInput,
    pub resolution_intent: LifecycleIntent,
    pub admitted_at_ms: u64,
    pub dispatch_not_after_ms: u64,
    pub revision: u64,
    pub position: CommitPosition,
    pub terminal: CompletionTerminal,
    pub sha256: Digest,
}

#[derive(Clone, Copy, Debug, PartialEq, Eq, Structural)]
pub struct SignedCompletion {
    pub fact: CompletionFact,
    pub observer_node_id: u64,
    pub authentic: bool,
}

#[derive(Clone, Copy, Debug, PartialEq, Eq, Structural)]
pub struct SignedInspection {
    pub input: InspectionInput,
    pub inspection_intent: LifecycleIntent,
    pub completion: CompletionFact,
    pub observer_node_id: u64,
    pub authentic: bool,
}

#[derive(Clone, Copy, Debug, PartialEq, Eq, Structural)]
pub struct SignedAttempt {
    pub attempt: CompletionAttempt,
    pub observer_node_id: u64,
    pub authentic: bool,
}

#[derive(Clone, Copy, Debug, PartialEq, Eq, Structural)]
pub struct SignedAttemptStatus {
    pub input: AttemptStatusInput,
    pub status_intent: LifecycleIntent,
    pub attempt: CompletionAttempt,
    pub observer_node_id: u64,
    pub authentic: bool,
}

#[derive(Clone, Copy, Debug, PartialEq, Eq, Structural)]
pub struct SignedResolution {
    pub fact: ResolutionFact,
    pub observation_intent: LifecycleIntent,
    pub observer_node_id: u64,
    pub authentic: bool,
}

#[derive(Clone, Copy, Debug, PartialEq, Eq, Structural)]
pub struct SignedTerminalStatus {
    pub input: TerminalStatusInput,
    pub status_intent: LifecycleIntent,
    pub fact: ResolutionFact,
    pub observer_node_id: u64,
    pub authentic: bool,
}

/// A replica's activation under the issuer's decision.
#[derive(Clone, Copy, Debug, PartialEq, Eq, Structural)]
pub struct ActivationFact {
    pub issuer_receipt_sha256: Digest,
    pub intent: LifecycleIntent,
    pub sha256: Digest,
}

#[derive(Clone, Copy, Debug, PartialEq, Eq, Structural)]
pub struct SignedActivation {
    pub activation: ActivationFact,
    pub completion: CompletionFact,
    pub observer_node_id: u64,
    pub authentic: bool,
}

#[derive(Clone, Copy, Debug, PartialEq, Eq, Structural)]
pub struct StopReference {
    pub tenant: Name,
    pub command_id: u128,
    pub receipt_digest: Digest,
}

/// A node's signed word that it has removed the target.
#[derive(Clone, Copy, Debug, PartialEq, Eq, Structural)]
pub struct SignedCleanup {
    pub node_id: u64,
    pub reference: StopReference,
    pub intent: LifecycleIntent,
    pub authentic: bool,
}

#[derive(Clone, Copy, Debug, PartialEq, Eq, Structural)]
pub enum ReplicaInput {
    Quorum(Held<QuorumInput>),
    Completion(Held<CompletionInput>),
    CompletionAttemptStatus(Held<AttemptStatusInput>),
    CompletionTerminalStatus(Held<TerminalStatusInput>),
    CompletionResolution(Held<ResolutionInput>),
    Inspection(Held<InspectionInput>),
}

#[derive(Clone, Copy, Debug, PartialEq, Eq, Structural)]
pub enum TargetStep {
    Materialize(MaterializationInput),
    ResumeMaterialization(Held<TargetOrigin>),
    Start(ReplicaInput),
    Initialize(Held<QuorumInput>),
    PrepareComplete(Held<CompletionInput>),
    Complete(Held<CompletionInput>),
    InspectCompletionAttempt(Held<AttemptStatusInput>),
    ResolveComplete(Held<ResolutionInput>),
    InspectCompletionResolution(Held<TerminalStatusInput>),
    Inspect(Held<InspectionInput>),
    StartActivation { quorum: Held<QuorumInput>, issuer_command_id: u128 },
    Activate { quorum: Held<QuorumInput>, issuer_command_id: u128 },
    ConfirmActivation(Held<SignedActivation>),
    Stop(StopReference),
}

#[derive(Clone, Copy, Debug, PartialEq, Eq, Structural)]
pub struct TargetRequest {
    pub tenant: Name,
    pub command_id: u128,
    pub not_after_ms: u64,
    pub step: TargetStep,
}

#[derive(Clone, Copy, Debug, PartialEq, Eq, Structural)]
pub enum TargetOutcome {
    Materialized(MaterializationProof),
    Started { origin_sha256: Digest },
    Initialized { origin_sha256: Digest },
    PreparedCompletion(Held<SignedAttempt>),
    CompletionAttemptStatus(Held<SignedAttemptStatus>),
    ResolvedCompletion(Held<SignedResolution>),
    CompletionTerminalStatus(Held<SignedTerminalStatus>),
    Completed(Held<SignedCompletion>),
    Inspected(Held<SignedInspection>),
    Activated(Held<SignedActivation>),
    Stopped(Held<SignedCleanup>),
}

#[derive(Clone, Copy, Debug, PartialEq, Eq, Structural)]
pub struct TargetResponse {
    pub node_id: u64,
    pub command_id: u128,
    pub outcome: TargetOutcome,
}

#[derive(Clone, Copy, Debug, PartialEq, Eq, Structural)]
pub enum CommittedCompletion {
    Original(Held<SignedCompletion>),
    Resolved(Held<SignedInspection>),
}

#[derive(Clone, Copy, Debug, PartialEq, Eq, Structural)]
pub enum AuthorityIdentity {
    Intent(u128),
    Change(u128),
}

#[derive(Clone, Copy, Debug, PartialEq, Eq, Structural)]
pub struct AuthorityReference {
    pub control_incarnation: u128,
    pub control_policy_epoch: u64,
    pub identity: AuthorityIdentity,
}

#[derive(Clone, Copy, Debug, PartialEq, Eq, Structural)]
pub struct CommittedActivation {
    pub completion: CommittedCompletion,
    pub reference: AuthorityReference,
    pub intent_sha256: Digest,
}

#[derive(Clone, Copy, Debug, PartialEq, Eq, Structural)]
pub struct Activation {
    pub fence_id: u128,
    pub fence_digest: Digest,
    pub target: RecoveryTarget,
    pub control: CommittedActivation,
}

/// The issuer command that activates a target.
#[derive(Clone, Copy, Debug, PartialEq, Eq, Structural)]
pub struct ActivateCommand {
    pub tenant: Name,
    pub command_id: u128,
    pub expected_policy_epoch: u64,
    pub not_after_ms: u64,
    pub activation: Activation,
}

#[derive(Clone, Copy, Debug, PartialEq, Eq, Structural)]
pub enum AuthorityAction {
    PrepareTarget { source_incarnation: u128, source_epoch: u64, target: RecoveryTarget },
    StopTarget { source_incarnation: u128, source_epoch: u64, target: RecoveryTarget },
    Fence { incarnation: u128, authority_epoch: u64 },
    ActivateCommitted(Held<Activation>),
    StopActivation { original: Held<ActivateCommand> },
}

#[derive(Clone, Copy, Debug, PartialEq, Eq, Structural)]
pub struct AuthorityCommand {
    pub tenant: Name,
    pub command_id: u128,
    pub expected_policy_epoch: u64,
    pub not_after_ms: u64,
    pub action: AuthorityAction,
}

/// How the issuer answered an activation command.
#[derive(Clone, Copy, Debug, PartialEq, Eq, Structural)]
pub enum ActivationOutcome {
    Rejected,
    Stopped { original_digest: Digest },
    Activated { target: RecoveryTarget, authority_epoch: u64 },
}

/// The receipt of an activation command, as a later stop quotes it.
#[derive(Clone, Copy, Debug, PartialEq, Eq, Structural)]
pub struct ActivationReceipt {
    pub command: ActivateCommand,
    pub authority_id: u128,
    pub manifest_digest: Digest,
    pub partition: u64,
    pub term: u64,
    pub revision: u64,
    pub command_digest: Digest,
    pub admitted_at_ms: u64,
    pub outcome: ActivationOutcome,
    pub sha256: Digest,
}

#[derive(Clone, Copy, Debug, PartialEq, Eq, Structural)]
pub enum AuthorityOutcome {
    Rejected,
    TargetPrepared { target: RecoveryTarget, authority_epoch: u64 },
    TargetStopped { source_incarnation: u128, source_epoch: u64, target: RecoveryTarget },
    Fenced { incarnation: u128, authority_epoch: u64 },
    Activated { target: RecoveryTarget, authority_epoch: u64 },
    ActivationStopped { original_digest: Digest },
    ActivationResolved { original: Held<ActivationReceipt> },
}

#[derive(Clone, Copy, Debug, PartialEq, Eq, Structural)]
pub struct AuthorityReceipt {
    pub command: AuthorityCommand,
    pub authority_id: u128,
    pub manifest_digest: Digest,
    pub partition: u64,
    pub term: u64,
    pub revision: u64,
    pub command_digest: Digest,
    pub admitted_at_ms: u64,
    pub outcome: AuthorityOutcome,
    pub sha256: Digest,
}

#[derive(Clone, Copy, Debug, PartialEq, Eq, Structural)]
pub struct SignedReceipt {
    pub receipt: AuthorityReceipt,
    pub authentic: bool,
}

/// What an activation intent commits to.
#[derive(Clone, Copy, Debug, PartialEq, Eq, Structural)]
pub struct ActivateTargetInput {
    pub completion_sha256: Digest,
    pub fence_id: u128,
    pub fence_digest: Digest,
    pub target: RecoveryTarget,
}

/// What the issuer's acceptance of a Control intent covers.
#[derive(Clone, Copy, Debug, PartialEq, Eq, Structural)]
pub struct AcceptedIntent {
    pub intent: LifecycleIntent,
    pub control_incarnation: u128,
    pub public_key: Digest,
    pub partition: Partition,
    pub partitions_sha256: Digest,
}

#[derive(Clone, Copy, Debug, PartialEq, Eq, Structural)]
pub struct RetireSourceRequest {
    pub source_incarnation: u128,
    pub retirement_id: u128,
    pub request_digest: Digest,
    pub target_incarnation: u128,
    pub checkpoint: Digest,
    pub not_after_ms: u64,
}

#[derive(Clone, Copy, Debug, PartialEq, Eq, Structural)]
pub struct RetirementReceipt {
    pub tenant: Name,
    pub source_incarnation: u128,
    pub retirement_id: u128,
    pub request_digest: Digest,
    pub target_incarnation: u128,
    pub checkpoint: Digest,
    pub admitted_at_ms: u64,
}

#[derive(Clone, Copy, Debug, PartialEq, Eq, Structural)]
pub enum SourceMode {
    Planned { retirement: RetireSourceRequest },
    SourceUnavailable,
}

/// The request that starts a recovery, frozen for its whole life.
#[derive(Clone, Copy, Debug, PartialEq, Eq, Structural)]
pub struct RecoveryStart {
    pub operation_id: u128,
    pub tenant: Name,
    pub source_incarnation: u128,
    pub source_authority_epoch: u64,
    pub target_incarnation: u128,
    pub checkpoint: Digest,
    pub source_purpose_sha256: Digest,
    pub source_mode: SourceMode,
    pub installation_sha256: Digest,
    pub expected_policy_epoch: u64,
    pub authority_policy_epoch: u64,
    pub authority_partition: Name,
    pub dispatch_configuration_sha256: Digest,
    pub target_nodes: Nodes,
    pub placements: Placements,
    pub materialization: MaterializationInput,
    pub phase_timeout_ms: u64,
    pub sha256: Digest,
}

/// A route change, tied to the topology that it was computed from.
#[derive(Clone, Copy, Debug, PartialEq, Eq, Structural)]
pub struct RouteChange {
    pub expected_topology_version: u64,
    pub expected_source_incarnation: u128,
    pub target_incarnation: u128,
    pub first_voter: u64,
    pub second_voter: u64,
    pub third_voter: u64,
}

/// A remote effect that a phase dispatches.
#[derive(Clone, Copy, Debug, PartialEq, Eq, Structural)]
pub enum Dispatch {
    Authority(Held<AuthorityCommand>),
    ControlIntent(Held<IntentRequest>),
    Target { node_id: u64, request: Held<TargetRequest> },
    PublishRoute(RouteChange),
    RetireSource(RetireSourceRequest),
}

/// What a phase's effect came to.
#[derive(Clone, Copy, Debug, PartialEq, Eq, Structural)]
pub enum DispatchOutcome {
    Authority(Held<SignedReceipt>),
    AuthorityResolution(Held<SignedReceipt>),
    ControlIntent(Held<LifecycleIntent>),
    Target(Held<TargetResponse>),
    CompletionResolution { inspection_phase: u128 },
    CompletionTerminal { resolution_phase: u128 },
    PreparationObserved { status_phase: u128 },
    TerminalObserved { status_phase: u128 },
    RoutePublished { revision: u64 },
    RouteRejected { observed_topology_version: Option<u64> },
    RouteSuperseded { replacement_phase: u128 },
    SourceRetired(RetirementReceipt),
}

/// The completion attempt that a phase belongs to.
#[derive(Clone, Copy, Debug, PartialEq, Eq, Structural)]
pub struct CompletionScope {
    pub intent: u128,
    pub predecessor: Option<u128>,
}

/// One durable phase of a recovery.
#[derive(Clone, Copy, Debug, PartialEq, Eq, Structural)]
pub struct PhaseRecord {
    pub operation_id: u128,
    pub phase_id: u128,
    pub sequence: u64,
    pub phase: RecoveryPhase,
    pub completion_scope: Option<CompletionScope>,
    pub previous_phase: Option<u128>,
    pub input: Dispatch,
    pub principal: Name,
    pub admitted_at_ms: u64,
    pub original_credential_expires_at_ms: u64,
    pub prepared_revision: u64,
    pub outcome: Option<DispatchOutcome>,
    pub resolved_revision: Option<u64>,
}

/// How far one target replica has come.
#[derive(Clone, Copy, Debug, PartialEq, Eq, Structural)]
pub struct Voter {
    pub node_id: u64,
    pub materialization: Option<u128>,
    pub start_attempt: Option<u128>,
    pub started: Option<u128>,
    pub confirmation: Option<u128>,
    pub cleanup: Option<u128>,
}

/// The three voters of a target, in ascending order of their node ids.
#[derive(Clone, Copy, Debug, PartialEq, Eq, Structural)]
pub struct Voters {
    pub first: Voter,
    pub second: Voter,
    pub third: Voter,
}

impl Nodes {
    pub open spec fn ascend(self) -> bool {
        self.first.node_id < self.second.node_id < self.third.node_id
    }
}

impl Voters {
    pub open spec fn ascend(self) -> bool {
        self.first.node_id < self.second.node_id < self.third.node_id
    }
}

/// The head of a recovery.
#[derive(Clone, Copy, Debug, PartialEq, Eq, Structural)]
pub struct RecoveryRecord {
    pub request: RecoveryStart,
    pub request_sha256: Digest,
    pub original_principal: Name,
    pub created_revision: u64,
    pub updated_revision: u64,
    pub phase: RecoveryPhase,
    pub next_phase_sequence: u64,
    pub pending_phase: Option<u128>,
    pub last_phase: Option<u128>,
    pub issuer_preparation: Option<u128>,
    pub current_intent: Option<u128>,
    pub materialization_intent: Option<u128>,
    pub initialization: Option<u128>,
    pub completion_intent: Option<u128>,
    pub completion_predecessor: Option<u128>,
    pub completion_preparation_attempt: Option<u128>,
    pub completion_preparation: Option<u128>,
    pub completion_resolution_attempt: Option<u128>,
    pub completion_terminal: Option<u128>,
    pub completion_attempt: Option<u128>,
    pub completion: Option<u128>,
    pub retirement: Option<u128>,
    pub source_fence: Option<u128>,
    pub activation_attempt: Option<u128>,
    pub activation: Option<u128>,
    pub route_publication: Option<u128>,
    pub stop_request: Option<u128>,
    pub target_stop: Option<u128>,
    pub voters: Voters,
}

/// A closed completion attempt, kept as it ended.
#[derive(Clone, Copy, Debug, PartialEq, Eq, Structural)]
pub struct CompletionHistory {
    pub operation_id: u128,
    pub scope: CompletionScope,
    pub current_intent: u128,
    pub preparation_attempt: u128,
    pub preparation: u128,
    pub resolution_attempt: u128,
    pub terminal: u128,
    pub attempted_completion: Option<u128>,
    pub successor_intent: u128,
}

/// An authority partition of the lifecycle installation.
#[derive(Clone, Copy, Debug, PartialEq, Eq, Structural)]
pub struct Partition {
    pub name: Name,
    pub authority_id: u128,
    pub manifest_sha256: Digest,
    pub partition: u64,
    pub signing_public_key: Digest,
    pub maximum_lifetime_ms: u64,
    pub drain_ms: u64,
}

/// The immutable lifecycle installation of a Control incarnation.
pub struct Installation {
    pub sha256: Digest,
    pub partitions_sha256: Digest,
    pub control_incarnation: u128,
    pub public_key: Digest,
    pub generation: u64,
    pub partitions: Vec<Partition>,
    pub max_intents: u64,
    pub max_changes: u64,
    pub max_state_bytes: u64,
}

#[derive(Clone, Copy, Debug, PartialEq, Eq, Structural)]
pub struct ChangeRequest {
    pub command_id: u128,
    pub expected_policy_epoch: u64,
    pub installation_sha256: Digest,
    pub candidate_policy: Digest,
    pub retire_control: bool,
}

/// Every partition's signed stop of an old policy epoch.
#[derive(Clone, Copy, Debug, PartialEq, Eq, Structural)]
pub struct EpochStops {
    pub sha256: Digest,
    pub authentic: bool,
}

#[derive(Clone, Copy, Debug, PartialEq, Eq, Structural)]
pub struct PolicyChange {
    pub request: ChangeRequest,
    pub request_sha256: Digest,
    pub control_incarnation: u128,
    pub installation_sha256: Digest,
    pub original_principal: Name,
    pub accepted_at_ms: u64,
    pub accepted_revision: u64,
    pub completed_revision: Option<u64>,
    pub completion_stops: Option<EpochStops>,
}

pub struct LifecycleControl {
    pub installation: Installation,
    pub installation_command_id: u128,
    pub installation_revision: u64,
    pub installation_policy_epoch: u64,
    pub installation_policy: Digest,
    pub retired: bool,
    pub pending_change: Option<u128>,
    pub intents: Table<LifecycleIntent>,
    pub changes: Table<PolicyChange>,
}

/// A node that the Control topology approves.
#[derive(Clone, Copy, Debug, PartialEq, Eq, Structural)]
pub struct TopologyNode {
    pub endpoint: Name,
    pub failure_domain: Name,
    pub first_pin: Option<Digest>,
    pub second_pin: Option<Digest>,
}

/// Where a tenant is served: a replicated one by its voters, a local one by as many as
/// it has.
pub struct TenantRoute {
    pub tenant: Name,
    pub incarnation: u128,
    pub replicated: bool,
    pub voters: Vec<u64>,
}

/// The installed Control topology: its version, its nodes, its routes, and what refuses
/// its form, if anything.
pub struct Topology {
    pub version: u64,
    pub nodes: Table<TopologyNode>,
    pub routes: Vec<TenantRoute>,
    pub form_refusal: Option<Error>,
}

pub struct RecoveryControl {
    pub operations: Table<RecoveryRecord>,
    pub phases: Table<PhaseRecord>,
    pub targets: Table<u128>,
    pub completion_history: Table<CompletionHistory>,
}

/// The Control tenant's replicated state, as far as its journal reads it.
pub struct State {
    pub tenant: Name,
    pub incarnation: u128,
    pub revision: u64,
    pub policy_epoch: u64,
    pub policy: Digest,
    pub retired: bool,
    pub suspended: bool,
    pub pending_restore: bool,
    pub topology: Option<Topology>,
    pub lifecycle: Option<LifecycleControl>,
    pub recovery: RecoveryControl,
}

/// Under whose authority a recovery command was admitted. What the request's
/// own grant, the tenant's policy and the form of a new operation's request refused
/// is carried with it.
#[derive(Clone, Copy, Debug)]
pub struct RecoveryAuthorization {
    pub tenant: Name,
    pub principal: Name,
    pub control_refusal: Option<Error>,
    pub admin_refusal: Option<Error>,
    pub request_refusal: Option<Error>,
    /// How many bytes a command's dispatch takes, and how many a record may.
    pub input_bytes: u64,
    pub max_record_bytes: u64,
    pub credential_expires_at_ms: Option<u64>,
    pub policy_epoch: u64,
    pub admitted_at_ms: u64,
    pub expires_at_ms: u64,
}

#[derive(Clone, Copy, Debug)]
pub enum RecoveryMutation {
    Start(RecoveryStart),
    Stop { operation_id: u128, command_id: u128 },
    Prepare {
        operation_id: u128,
        phase_id: u128,
        expected_sequence: u64,
        expected_pending: Option<u128>,
        input: Dispatch,
    },
    PublishRoute { operation_id: u128, phase_id: u128 },
    Resolve { operation_id: u128, phase_id: u128, outcome: DispatchOutcome },
}

#[derive(Clone, Copy, Debug)]
pub struct RecoveryCommand {
    pub authorization: RecoveryAuthorization,
    pub mutation: RecoveryMutation,
}

} // verus!
