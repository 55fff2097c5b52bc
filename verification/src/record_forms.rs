//! What refuses the forms of retained records, as another component finds them.
use vstd::prelude::*;

use crate::errors::Error;
use crate::table::Table;

verus! {

/// What a check comes to where the form of its record is refused in front of it, or is
/// not.
pub open spec fn formed(refusal: Option<Error>, checked: Result<(), Error>) -> Result<(), Error> {
    match refusal {
        Some(e) => Err(e),
        None => checked,
    }
}

/// What refuses the forms of a recovery journal's records: of its operations, of its
/// phases and of what was dispatched in them, each under its own identity.
pub struct RecoveryForms {
    pub operations: Table<Error>,
    pub phases: Table<Error>,
    pub inputs: Table<Error>,
}

pub struct RecoveryFormsView {
    pub operations: Map<u128, Error>,
    pub phases: Map<u128, Error>,
    pub inputs: Map<u128, Error>,
}

impl View for RecoveryForms {
    type V = RecoveryFormsView;

    open spec fn view(&self) -> RecoveryFormsView {
        RecoveryFormsView {
            operations: self.operations@,
            phases: self.phases@,
            inputs: self.inputs@,
        }
    }
}

impl RecoveryForms {
    /// Nothing is refused.
    pub fn accepted() -> (forms: Self)
        ensures
            forms@.operations == Map::<u128, Error>::empty(),
            forms@.phases == Map::<u128, Error>::empty(),
            forms@.inputs == Map::<u128, Error>::empty(),
    {
        RecoveryForms { operations: Table::new(), phases: Table::new(), inputs: Table::new() }
    }
}

/// What refuses the forms of Control's records: of its installation, of the policy that
/// it was installed with, of its changes, of its intents, and of the principals that
/// the intents were accepted of.
pub struct LifecycleForms {
    pub installation: Option<Error>,
    pub policy: Option<Error>,
    pub changes: Table<Error>,
    pub intents: Table<Error>,
    pub principals: Table<Error>,
}

pub struct LifecycleFormsView {
    pub installation: Option<Error>,
    pub policy: Option<Error>,
    pub changes: Map<u128, Error>,
    pub intents: Map<u128, Error>,
    pub principals: Map<u128, Error>,
}

impl LifecycleFormsView {
    /// Whether nothing is refused.
    pub open spec fn accepts(self) -> bool {
        &&& self.installation is None
        &&& self.policy is None
        &&& self.changes == Map::<u128, Error>::empty()
        &&& self.intents == Map::<u128, Error>::empty()
        &&& self.principals == Map::<u128, Error>::empty()
    }
}

impl View for LifecycleForms {
    type V = LifecycleFormsView;

    open spec fn view(&self) -> LifecycleFormsView {
        LifecycleFormsView {
            installation: self.installation,
            policy: self.policy,
            changes: self.changes@,
            intents: self.intents@,
            principals: self.principals@,
        }
    }
}

impl LifecycleForms {
    /// Nothing is refused.
    pub fn accepted() -> (forms: Self)
        ensures
            forms@.accepts(),
    {
        LifecycleForms {
            installation: None,
            policy: None,
            changes: Table::new(),
            intents: Table::new(),
            principals: Table::new(),
        }
    }
}

} // verus!
