//! Historical provenance, observed through current authenticated data access. This
//! is no lease, credential, membership or permission.
use vstd::prelude::*;

use crate::digest::{Digest, Name};

verus! {

/// One restoration that a database descends from.
#[derive(Clone, Copy, Debug, PartialEq, Eq, Structural)]
pub struct LineageLink {
    pub source_incarnation: u128,
    pub checkpoint_sha256: Digest,
    pub revision: u64,
}

/// What was observed of a database's descent.
pub struct LineageObservation {
    pub tenant: Name,
    pub incarnation: u128,
    pub collection: Name,
    pub revision: u64,
    pub policy_epoch: u64,
    pub links: Vec<LineageLink>,
}

/// An observation that a verified read made.
pub struct VerifiedRestoreLineage {
    observation: LineageObservation,
}

impl View for VerifiedRestoreLineage {
    type V = LineageObservation;

    closed spec fn view(&self) -> LineageObservation {
        self.observation
    }
}

impl VerifiedRestoreLineage {
    pub fn from_verified_read(observation: LineageObservation) -> (lineage: Self)
        ensures
            lineage@ == observation,
    {
        VerifiedRestoreLineage { observation }
    }

    pub fn observation(&self) -> (observation: &LineageObservation)
        ensures
            *observation == self@,
    {
        &self.observation
    }

    pub fn tenant(&self) -> (tenant: Name)
        ensures
            tenant == self@.tenant,
    {
        self.observation.tenant
    }

    pub fn incarnation(&self) -> (incarnation: u128)
        ensures
            incarnation == self@.incarnation,
    {
        self.observation.incarnation
    }

    pub fn collection(&self) -> (collection: Name)
        ensures
            collection == self@.collection,
    {
        self.observation.collection
    }

    pub fn links(&self) -> (links: &Vec<LineageLink>)
        ensures
            *links == self@.links,
    {
        &self.observation.links
    }

    pub fn revision(&self) -> (revision: u64)
        ensures
            revision == self@.revision,
    {
        self.observation.revision
    }

    pub fn policy_epoch(&self) -> (epoch: u64)
        ensures
            epoch == self@.policy_epoch,
    {
        self.observation.policy_epoch
    }
}

} // verus!
