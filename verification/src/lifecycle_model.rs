//! The commands and observations of lifecycle Control.
use vstd::prelude::*;

use crate::digest::{Digest, Name};
use crate::errors::Error;
use crate::model::{
    ChangeRequest, EpochStops, Installation, IntentRequest, LifecycleIntent, PolicyChange,
};
use crate::views::InstallationView;

verus! {

/// Under whose authority a lifecycle command was admitted, and when. What the
/// request's own grant, the tenant's policy and the request's form refused is carried
/// with it.
#[derive(Clone, Copy, Debug)]
pub struct LifecycleAdmission {
    pub tenant: Name,
    pub principal: Name,
    pub control_refusal: Option<Error>,
    pub admin_refusal: Option<Error>,
    pub request_refusal: Option<Error>,
    pub credential_expires_at_ms: Option<u64>,
    pub timestamp_ms: u64,
}

pub enum LifecycleCommand {
    Install { command_id: u128, installation: Installation },
    CommitIntent(IntentRequest),
    BeginPolicyChange { request: ChangeRequest, policy_refusal: Option<Error> },
    CompletePolicyChange { command_id: u128, change_sha256: Digest, stops: EpochStops },
}

pub enum LifecycleCommandView {
    Install { command_id: u128, installation: InstallationView },
    CommitIntent(IntentRequest),
    BeginPolicyChange { request: ChangeRequest, policy_refusal: Option<Error> },
    CompletePolicyChange { command_id: u128, change_sha256: Digest, stops: EpochStops },
}

impl View for LifecycleCommand {
    type V = LifecycleCommandView;

    open spec fn view(&self) -> LifecycleCommandView {
        match self {
            LifecycleCommand::Install {
                command_id,
                installation,
            } => LifecycleCommandView::Install {
                command_id: *command_id,
                installation: installation@,
            },
            LifecycleCommand::CommitIntent(request) => LifecycleCommandView::CommitIntent(*request),
            LifecycleCommand::BeginPolicyChange {
                request,
                policy_refusal,
            } => LifecycleCommandView::BeginPolicyChange {
                request: *request,
                policy_refusal: *policy_refusal,
            },
            LifecycleCommand::CompletePolicyChange {
                command_id,
                change_sha256,
                stops,
            } => LifecycleCommandView::CompletePolicyChange {
                command_id: *command_id,
                change_sha256: *change_sha256,
                stops: *stops,
            },
        }
    }
}

/// The kinds of operation that closed lifecycle Control tells apart.
#[derive(Clone, Copy, Debug, PartialEq, Eq, Structural)]
pub enum OperationKind {
    LifecycleControl,
    Mutate,
    BeginStaged,
    AppendStaged,
    FinalizeStaged,
    StopStaged,
    Audit,
    MaintenanceAudit,
    Other,
}

/// A committed intent, as it was observed.
#[derive(Clone, Copy, Debug, PartialEq, Eq, Structural)]
pub struct CommittedIntent {
    pub intent: LifecycleIntent,
    pub installation_sha256: Digest,
    pub observed_policy_epoch: u64,
    pub observed_revision: u64,
    pub observed_term: u64,
}

/// A committed policy change, as it was observed.
#[derive(Clone, Copy, Debug, PartialEq, Eq, Structural)]
pub struct CommittedChange {
    pub change: PolicyChange,
    pub observed_policy_epoch: u64,
    pub observed_revision: u64,
    pub observed_term: u64,
}

} // verus!
