//! The journal's state as mathematics: tables as maps, lists as sequences.
use vstd::prelude::*;

use crate::digest::{Digest, Name};
use crate::errors::Error;
use crate::model::{
    CompletionHistory, Installation, LifecycleControl, LifecycleIntent, Partition, PhaseRecord,
    PolicyChange, RecoveryControl, RecoveryRecord, State, TenantRoute, Topology, TopologyNode,
};

verus! {

pub struct InstallationView {
    pub sha256: Digest,
    pub partitions_sha256: Digest,
    pub control_incarnation: u128,
    pub public_key: Digest,
    pub generation: u64,
    pub partitions: Seq<Partition>,
    pub max_intents: u64,
    pub max_changes: u64,
    pub max_state_bytes: u64,
}

impl View for Installation {
    type V = InstallationView;

    open spec fn view(&self) -> InstallationView {
        InstallationView {
            sha256: self.sha256,
            partitions_sha256: self.partitions_sha256,
            control_incarnation: self.control_incarnation,
            public_key: self.public_key,
            generation: self.generation,
            partitions: self.partitions@,
            max_intents: self.max_intents,
            max_changes: self.max_changes,
            max_state_bytes: self.max_state_bytes,
        }
    }
}

pub struct LifecycleView {
    pub installation: InstallationView,
    pub installation_command_id: u128,
    pub installation_revision: u64,
    pub installation_policy_epoch: u64,
    pub installation_policy: Digest,
    pub retired: bool,
    pub pending_change: Option<u128>,
    pub intents: Map<u128, LifecycleIntent>,
    pub changes: Map<u128, PolicyChange>,
}

impl View for LifecycleControl {
    type V = LifecycleView;

    open spec fn view(&self) -> LifecycleView {
        LifecycleView {
            installation: self.installation@,
            installation_command_id: self.installation_command_id,
            installation_revision: self.installation_revision,
            installation_policy_epoch: self.installation_policy_epoch,
            installation_policy: self.installation_policy,
            retired: self.retired,
            pending_change: self.pending_change,
            intents: self.intents@,
            changes: self.changes@,
        }
    }
}

pub struct TenantRouteView {
    pub tenant: Name,
    pub incarnation: u128,
    pub replicated: bool,
    pub voters: Seq<u64>,
}

impl View for TenantRoute {
    type V = TenantRouteView;

    open spec fn view(&self) -> TenantRouteView {
        TenantRouteView {
            tenant: self.tenant,
            incarnation: self.incarnation,
            replicated: self.replicated,
            voters: self.voters@,
        }
    }
}

pub open spec fn routes_view(routes: Seq<TenantRoute>) -> Seq<TenantRouteView> {
    Seq::new(routes.len(), |i: int| routes[i]@)
}

pub struct TopologyView {
    pub version: u64,
    pub nodes: Map<u128, TopologyNode>,
    pub routes: Seq<TenantRouteView>,
    pub form_refusal: Option<Error>,
}

impl View for Topology {
    type V = TopologyView;

    open spec fn view(&self) -> TopologyView {
        TopologyView {
            version: self.version,
            nodes: self.nodes@,
            routes: routes_view(self.routes@),
            form_refusal: self.form_refusal,
        }
    }
}

pub struct RecoveryView {
    pub operations: Map<u128, RecoveryRecord>,
    pub phases: Map<u128, PhaseRecord>,
    pub targets: Map<u128, u128>,
    pub completion_history: Map<u128, CompletionHistory>,
}

impl View for RecoveryControl {
    type V = RecoveryView;

    open spec fn view(&self) -> RecoveryView {
        RecoveryView {
            operations: self.operations@,
            phases: self.phases@,
            targets: self.targets@,
            completion_history: self.completion_history@,
        }
    }
}

pub struct StateView {
    pub tenant: Name,
    pub incarnation: u128,
    pub revision: u64,
    pub policy_epoch: u64,
    pub policy: Digest,
    pub retired: bool,
    pub suspended: bool,
    pub pending_restore: bool,
    pub topology: Option<TopologyView>,
    pub lifecycle: Option<LifecycleView>,
    pub recovery: RecoveryView,
}

pub open spec fn topology_view(topology: Option<Topology>) -> Option<TopologyView> {
    match topology {
        None => None,
        Some(topology) => Some(topology@),
    }
}

pub open spec fn lifecycle_view(lifecycle: Option<LifecycleControl>) -> Option<LifecycleView> {
    match lifecycle {
        None => None,
        Some(control) => Some(control@),
    }
}

impl View for State {
    type V = StateView;

    open spec fn view(&self) -> StateView {
        StateView {
            tenant: self.tenant,
            incarnation: self.incarnation,
            revision: self.revision,
            policy_epoch: self.policy_epoch,
            policy: self.policy,
            retired: self.retired,
            suspended: self.suspended,
            pending_restore: self.pending_restore,
            topology: topology_view(self.topology),
            lifecycle: lifecycle_view(self.lifecycle),
            recovery: self.recovery@,
        }
    }
}

} // verus!
