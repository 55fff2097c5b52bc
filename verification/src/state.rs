//! Copies of the journal's state, so that a refused command leaves none.
use vstd::prelude::*;

use crate::model::{
    Installation, LifecycleControl, RecoveryControl, State, TenantRoute, Topology,
};
use crate::views;

verus! {

fn copied<T: Copy>(list: &Vec<T>) -> (copy: Vec<T>)
    ensures
        copy@ == list@,
{
    let mut copy: Vec<T> = Vec::new();
    let mut i: usize = 0;
    while i < list.len()
        invariant
            i <= list.len(),
            copy@ == list@.subrange(0, i as int),
        decreases list.len() - i,
    {
        copy.push(list[i]);
        i = i + 1;
    }
    assert(copy@ =~= list@);
    copy
}

impl Installation {
    pub fn copy(&self) -> (copy: Installation)
        ensures
            copy@ == self@,
    {
        Installation {
            sha256: self.sha256,
            partitions_sha256: self.partitions_sha256,
            control_incarnation: self.control_incarnation,
            public_key: self.public_key,
            generation: self.generation,
            partitions: copied(&self.partitions),
            max_intents: self.max_intents,
            max_changes: self.max_changes,
            max_state_bytes: self.max_state_bytes,
        }
    }
}

impl LifecycleControl {
    pub fn copy(&self) -> (copy: LifecycleControl)
        ensures
            copy@ == self@,
    {
        LifecycleControl {
            installation: self.installation.copy(),
            installation_command_id: self.installation_command_id,
            installation_revision: self.installation_revision,
            installation_policy_epoch: self.installation_policy_epoch,
            installation_policy: self.installation_policy,
            retired: self.retired,
            pending_change: self.pending_change,
            intents: self.intents.copy(),
            changes: self.changes.copy(),
        }
    }
}

impl Topology {
    pub fn copy(&self) -> (copy: Topology)
        ensures
            copy@ == self@,
    {
        let mut routes: Vec<TenantRoute> = Vec::new();
        let mut i: usize = 0;
        while i < self.routes.len()
            invariant
                i <= self.routes.len(),
                routes.len() == i,
                forall|j: int| 0 <= j < i ==> (#[trigger] routes@[j])@ == self.routes@[j]@,
            decreases self.routes.len() - i,
        {
            let route = &self.routes[i];
            routes.push(
                TenantRoute {
                    tenant: route.tenant,
                    incarnation: route.incarnation,
                    replicated: route.replicated,
                    voters: copied(&route.voters),
                },
            );
            i = i + 1;
        }
        assert(views::routes_view(routes@) =~= views::routes_view(self.routes@));
        Topology {
            version: self.version,
            nodes: self.nodes.copy(),
            routes,
            form_refusal: self.form_refusal,
        }
    }
}

impl RecoveryControl {
    pub fn copy(&self) -> (copy: RecoveryControl)
        ensures
            copy@ == self@,
    {
        RecoveryControl {
            operations: self.operations.copy(),
            phases: self.phases.copy(),
            targets: self.targets.copy(),
            completion_history: self.completion_history.copy(),
        }
    }
}

impl State {
    pub fn copy(&self) -> (copy: State)
        ensures
            copy@ == self@,
    {
        let topology = match &self.topology {
            None => None,
            Some(topology) => Some(topology.copy()),
        };
        let lifecycle = match &self.lifecycle {
            None => None,
            Some(control) => Some(control.copy()),
        };
        State {
            tenant: self.tenant,
            incarnation: self.incarnation,
            revision: self.revision,
            policy_epoch: self.policy_epoch,
            policy: self.policy,
            retired: self.retired,
            suspended: self.suspended,
            pending_restore: self.pending_restore,
            topology,
            lifecycle,
            recovery: self.recovery.copy(),
        }
    }
}

} // verus!
