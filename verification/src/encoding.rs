//! The words of a record: what its digest is taken over. They are this library's own
//! encoding: a digest that another component takes over another encoding of the same
//! record differs.
use vstd::prelude::*;

use crate::digest::{digest_words, Digest, Name};
use crate::held::Held;
use crate::model::{
    AcceptedIntent, ActivateCommand, ActivateTargetInput, Activation, AttemptStatusInput, AuthorityAction,
    AuthorityCommand, AuthorityIdentity, AuthorityReference, ChangeRequest, CommitPosition,
    CommittedActivation, CommittedCompletion, CompletionAttempt, CompletionInput, InspectionInput,
    IntentRequest, LifecycleIntent, LifecyclePhase, MaterializationInput, MaterializationProof,
    Node, Nodes, Partition, QuorumInput, RecoveryTarget, ResolutionInput, ResolutionReference,
    ResumeOrigin, StopReference, TargetOrigin, TerminalStatusInput,
};

verus! {

// Each kind of record is hashed under its own first word.
pub const ORIGIN: u128 = 1;

pub const RESUME: u128 = 2;

pub const QUORUM: u128 = 3;

pub const COMPLETION: u128 = 4;

pub const INSPECTION: u128 = 5;

pub const ATTEMPT_STATUS: u128 = 6;

pub const RESOLUTION: u128 = 7;

pub const TERMINAL_STATUS: u128 = 8;

pub const ACTIVATION: u128 = 9;

pub const STOP_LOCAL: u128 = 10;

pub const ISSUER_COMMAND: u128 = 11;

pub const INTENT: u128 = 12;

pub const INTENT_REQUEST: u128 = 13;

pub const CHANGE_REQUEST: u128 = 14;

pub const ACCEPTED_INTENT: u128 = 15;

pub const RECEIPT_ROW: u128 = 16;

pub const RECEIPT_KEY: u128 = 17;

pub const RECEIPT_ROOT: u128 = 18;

/// A record that is written as a sequence of words.
pub trait Words {
    spec fn words(&self) -> Seq<u128>;

    fn write(&self, out: &mut Vec<u128>)
        ensures
            final(out)@ == old(out)@ + self.words(),
    ;
}

/// The digest of a record under its kind's first word.
#[verifier::opaque]
pub open spec fn labelled<T: Words>(label: u128, record: T) -> Digest {
    crate::digest::digest_of_words(seq![label] + record.words())
}

pub fn labelled_digest<T: Words>(label: u128, record: &T) -> (d: Digest)
    ensures
        d == labelled(label, *record),
{
    proof {
        reveal(labelled);
    }
    let mut words: Vec<u128> = Vec::new();
    words.push(label);
    record.write(&mut words);
    assert(words@ =~= seq![label] + record.words());
    digest_words(&words)
}

impl<T: Words + Copy> Words for Held<T> {
    open spec fn words(&self) -> Seq<u128> {
        self@.words()
    }

    fn write(&self, out: &mut Vec<u128>) {
        self.open().write(out);
    }
}

impl<T: Words> Words for Option<T> {
    open spec fn words(&self) -> Seq<u128> {
        match self {
            None => seq![0u128],
            Some(x) => seq![1u128] + x.words(),
        }
    }

    fn write(&self, out: &mut Vec<u128>) {
        match self {
            None => out.push(0),
            Some(x) => {
                out.push(1);
                x.write(out);
            },
        }
        assert(out@ =~= old(out)@ + self.words());
    }
}

impl Words for LifecyclePhase {
    open spec fn words(&self) -> Seq<u128> {
        seq![match self {
            LifecyclePhase::Materialize => 0u128,
            LifecyclePhase::ResumeMaterialize => 1u128,
            LifecyclePhase::Initialize => 2u128,
            LifecyclePhase::Complete => 3u128,
            LifecyclePhase::InspectCompletionAttempt => 4u128,
            LifecyclePhase::ResolveComplete => 5u128,
            LifecyclePhase::InspectCompletionResolution => 6u128,
            LifecyclePhase::InspectTarget => 7u128,
            LifecyclePhase::MaintainTarget => 8u128,
            LifecyclePhase::Activate => 9u128,
            LifecyclePhase::StopLocal => 10u128,
        }]
    }

    fn write(&self, out: &mut Vec<u128>) {
        out.push(match self {
            LifecyclePhase::Materialize => 0,
            LifecyclePhase::ResumeMaterialize => 1,
            LifecyclePhase::Initialize => 2,
            LifecyclePhase::Complete => 3,
            LifecyclePhase::InspectCompletionAttempt => 4,
            LifecyclePhase::ResolveComplete => 5,
            LifecyclePhase::InspectCompletionResolution => 6,
            LifecyclePhase::InspectTarget => 7,
            LifecyclePhase::MaintainTarget => 8,
            LifecyclePhase::Activate => 9,
            LifecyclePhase::StopLocal => 10,
        });
        assert(out@ =~= old(out)@ + self.words());
    }
}

impl Words for AuthorityIdentity {
    open spec fn words(&self) -> Seq<u128> {
        match self {
            AuthorityIdentity::Intent(id) => seq![0u128, *id],
            AuthorityIdentity::Change(id) => seq![1u128, *id],
        }
    }

    fn write(&self, out: &mut Vec<u128>) {
        match self {
            AuthorityIdentity::Intent(id) => {
                out.push(0);
                out.push(*id);
            },
            AuthorityIdentity::Change(id) => {
                out.push(1);
                out.push(*id);
            },
        }
        assert(out@ =~= old(out)@ + self.words());
    }
}

impl Words for CommittedCompletion {
    open spec fn words(&self) -> Seq<u128> {
        match self {
            CommittedCompletion::Original(signed) => seq![0u128, signed@.observer_node_id as u128]
                + signed@.fact.sha256.words(),
            CommittedCompletion::Resolved(signed) => seq![1u128, signed@.observer_node_id as u128]
                + signed@.completion.sha256.words(),
        }
    }

    fn write(&self, out: &mut Vec<u128>) {
        match self {
            CommittedCompletion::Original(signed) => {
                out.push(0);
                out.push(signed.open().observer_node_id as u128);
                signed.open().fact.sha256.write(out);
            },
            CommittedCompletion::Resolved(signed) => {
                out.push(1);
                out.push(signed.open().observer_node_id as u128);
                signed.open().completion.sha256.write(out);
            },
        }
        assert(out@ =~= old(out)@ + self.words());
    }
}

impl Words for AuthorityAction {
    open spec fn words(&self) -> Seq<u128> {
        match self {
            AuthorityAction::PrepareTarget { source_incarnation, source_epoch, target } => seq![
                0u128,
                *source_incarnation,
                *source_epoch as u128,
            ] + target.words(),
            AuthorityAction::StopTarget { source_incarnation, source_epoch, target } => seq![
                1u128,
                *source_incarnation,
                *source_epoch as u128,
            ] + target.words(),
            AuthorityAction::Fence { incarnation, authority_epoch } => seq![
                2u128,
                *incarnation,
                *authority_epoch as u128,
            ],
            AuthorityAction::ActivateCommitted(activation) => seq![3u128] + activation.words(),
            AuthorityAction::StopActivation { original } => seq![4u128] + original.words(),
        }
    }

    fn write(&self, out: &mut Vec<u128>) {
        match self {
            AuthorityAction::PrepareTarget { source_incarnation, source_epoch, target } => {
                out.push(0);
                out.push(*source_incarnation);
                out.push(*source_epoch as u128);
                target.write(out);
            },
            AuthorityAction::StopTarget { source_incarnation, source_epoch, target } => {
                out.push(1);
                out.push(*source_incarnation);
                out.push(*source_epoch as u128);
                target.write(out);
            },
            AuthorityAction::Fence { incarnation, authority_epoch } => {
                out.push(2);
                out.push(*incarnation);
                out.push(*authority_epoch as u128);
            },
            AuthorityAction::ActivateCommitted(activation) => {
                out.push(3);
                activation.write(out);
            },
            AuthorityAction::StopActivation { original } => {
                out.push(4);
                original.write(out);
            },
        }
        assert(out@ =~= old(out)@ + self.words());
    }
}

impl Words for Digest {
    open spec fn words(&self) -> Seq<u128> {
        seq![self.high, self.low]
    }

    fn write(&self, out: &mut Vec<u128>) {
        out.push(self.high);
        out.push(self.low);
        assert(out@ =~= old(out)@ + self.words());
    }
}

impl Words for Name {
    open spec fn words(&self) -> Seq<u128> {
        self.text.words()
    }

    fn write(&self, out: &mut Vec<u128>) {
        self.text.write(out);
        assert(out@ =~= old(out)@ + self.words());
    }
}

impl Words for Node {
    open spec fn words(&self) -> Seq<u128> {
        seq![self.node_id as u128] + self.verifier.words() + self.principal.words() + self.certificate_sha256.words()
    }

    fn write(&self, out: &mut Vec<u128>) {
        out.push(self.node_id as u128);
        self.verifier.write(out);
        self.principal.write(out);
        self.certificate_sha256.write(out);
        assert(out@ =~= old(out)@ + self.words());
    }
}

impl Words for Nodes {
    open spec fn words(&self) -> Seq<u128> {
        self.first.words() + self.second.words() + self.third.words()
    }

    fn write(&self, out: &mut Vec<u128>) {
        self.first.write(out);
        self.second.write(out);
        self.third.write(out);
        assert(out@ =~= old(out)@ + self.words());
    }
}

impl Words for RecoveryTarget {
    open spec fn words(&self) -> Seq<u128> {
        seq![self.incarnation] + self.checkpoint.words() + self.nodes.words()
    }

    fn write(&self, out: &mut Vec<u128>) {
        out.push(self.incarnation);
        self.checkpoint.write(out);
        self.nodes.write(out);
        assert(out@ =~= old(out)@ + self.words());
    }
}

impl Words for MaterializationInput {
    open spec fn words(&self) -> Seq<u128> {
        self.sha256.words()
    }

    fn write(&self, out: &mut Vec<u128>) {
        self.sha256.write(out);
        assert(out@ =~= old(out)@ + self.words());
    }
}

impl Words for ResumeOrigin {
    open spec fn words(&self) -> Seq<u128> {
        seq![self.command_id, self.revision as u128] + self.intent_sha256.words() + self.authority_manifest_sha256.words() + self.input_sha256.words()
    }

    fn write(&self, out: &mut Vec<u128>) {
        out.push(self.command_id);
        out.push(self.revision as u128);
        self.intent_sha256.write(out);
        self.authority_manifest_sha256.write(out);
        self.input_sha256.write(out);
        assert(out@ =~= old(out)@ + self.words());
    }
}

impl Words for IntentRequest {
    open spec fn words(&self) -> Seq<u128> {
        seq![self.command_id, self.expected_policy_epoch as u128] + self.installation_sha256.words() + self.authority_partition.words() + self.tenant.words() + seq![self.source_incarnation, self.source_authority_epoch as u128, self.target_incarnation] + self.checkpoint.words() + self.target_nodes.words() + self.phase.words() + self.phase_input_sha256.words() + self.resume_origin.words()
    }

    fn write(&self, out: &mut Vec<u128>) {
        out.push(self.command_id);
        out.push(self.expected_policy_epoch as u128);
        self.installation_sha256.write(out);
        self.authority_partition.write(out);
        self.tenant.write(out);
        out.push(self.source_incarnation);
        out.push(self.source_authority_epoch as u128);
        out.push(self.target_incarnation);
        self.checkpoint.write(out);
        self.target_nodes.write(out);
        self.phase.write(out);
        self.phase_input_sha256.write(out);
        self.resume_origin.write(out);
        assert(out@ =~= old(out)@ + self.words());
    }
}

impl Words for LifecycleIntent {
    open spec fn words(&self) -> Seq<u128> {
        self.request.words() + self.request_sha256.words() + seq![self.control_incarnation, self.installation_generation as u128] + self.original_principal.words() + seq![self.original_credential_expires_at_ms as u128, self.accepted_at_ms as u128, self.revision as u128]
    }

    fn write(&self, out: &mut Vec<u128>) {
        self.request.write(out);
        self.request_sha256.write(out);
        out.push(self.control_incarnation);
        out.push(self.installation_generation as u128);
        self.original_principal.write(out);
        out.push(self.original_credential_expires_at_ms as u128);
        out.push(self.accepted_at_ms as u128);
        out.push(self.revision as u128);
        assert(out@ =~= old(out)@ + self.words());
    }
}

impl Words for TargetOrigin {
    open spec fn words(&self) -> Seq<u128> {
        self.authority_manifest_sha256.words() + self.materialization.words() + self.input.words()
    }

    fn write(&self, out: &mut Vec<u128>) {
        self.authority_manifest_sha256.write(out);
        self.materialization.write(out);
        self.input.write(out);
        assert(out@ =~= old(out)@ + self.words());
    }
}

impl Words for MaterializationProof {
    open spec fn words(&self) -> Seq<u128> {
        seq![self.node_id as u128] + self.origin_sha256.words() + self.image_sha256.words() + self.sha256.words()
    }

    fn write(&self, out: &mut Vec<u128>) {
        out.push(self.node_id as u128);
        self.origin_sha256.write(out);
        self.image_sha256.write(out);
        self.sha256.write(out);
        assert(out@ =~= old(out)@ + self.words());
    }
}

impl Words for QuorumInput {
    open spec fn words(&self) -> Seq<u128> {
        self.origin_sha256.words() + self.first.words() + self.second.words() + self.third.words()
    }

    fn write(&self, out: &mut Vec<u128>) {
        self.origin_sha256.write(out);
        self.first.write(out);
        self.second.write(out);
        self.third.write(out);
        assert(out@ =~= old(out)@ + self.words());
    }
}

impl Words for ResolutionReference {
    open spec fn words(&self) -> Seq<u128> {
        self.origin_sha256.words() + seq![self.control_incarnation, self.original_command_id, self.resolution_command_id, self.resolution_control_revision as u128] + self.fact_sha256.words()
    }

    fn write(&self, out: &mut Vec<u128>) {
        self.origin_sha256.write(out);
        out.push(self.control_incarnation);
        out.push(self.original_command_id);
        out.push(self.resolution_command_id);
        out.push(self.resolution_control_revision as u128);
        self.fact_sha256.write(out);
        assert(out@ =~= old(out)@ + self.words());
    }
}

impl Words for CompletionInput {
    open spec fn words(&self) -> Seq<u128> {
        self.quorum.words() + self.predecessor.words()
    }

    fn write(&self, out: &mut Vec<u128>) {
        self.quorum.write(out);
        self.predecessor.write(out);
        assert(out@ =~= old(out)@ + self.words());
    }
}

impl Words for CommitPosition {
    open spec fn words(&self) -> Seq<u128> {
        seq![self.index as u128, self.term as u128, self.leader_node_id as u128] + self.command_sha256.words()
    }

    fn write(&self, out: &mut Vec<u128>) {
        out.push(self.index as u128);
        out.push(self.term as u128);
        out.push(self.leader_node_id as u128);
        self.command_sha256.write(out);
        assert(out@ =~= old(out)@ + self.words());
    }
}

impl Words for CompletionAttempt {
    open spec fn words(&self) -> Seq<u128> {
        self.origin.words() + self.intent.words() + self.input.words() + seq![self.admitted_at_ms as u128, self.dispatch_not_after_ms as u128, self.revision as u128] + self.position.words()
    }

    fn write(&self, out: &mut Vec<u128>) {
        self.origin.write(out);
        self.intent.write(out);
        self.input.write(out);
        out.push(self.admitted_at_ms as u128);
        out.push(self.dispatch_not_after_ms as u128);
        out.push(self.revision as u128);
        self.position.write(out);
        assert(out@ =~= old(out)@ + self.words());
    }
}

impl Words for AttemptStatusInput {
    open spec fn words(&self) -> Seq<u128> {
        self.original_intent.words() + self.original_input.words() + seq![self.original_dispatch_not_after_ms as u128]
    }

    fn write(&self, out: &mut Vec<u128>) {
        self.original_intent.write(out);
        self.original_input.write(out);
        out.push(self.original_dispatch_not_after_ms as u128);
        assert(out@ =~= old(out)@ + self.words());
    }
}

impl Words for ResolutionInput {
    open spec fn words(&self) -> Seq<u128> {
        self.attempt.words()
    }

    fn write(&self, out: &mut Vec<u128>) {
        self.attempt.write(out);
        assert(out@ =~= old(out)@ + self.words());
    }
}

impl Words for TerminalStatusInput {
    open spec fn words(&self) -> Seq<u128> {
        self.original_intent.words() + self.original_input.words() + seq![self.original_dispatch_not_after_ms as u128]
    }

    fn write(&self, out: &mut Vec<u128>) {
        self.original_intent.write(out);
        self.original_input.write(out);
        out.push(self.original_dispatch_not_after_ms as u128);
        assert(out@ =~= old(out)@ + self.words());
    }
}

impl Words for InspectionInput {
    open spec fn words(&self) -> Seq<u128> {
        self.quorum.words() + self.original_phase.words() + self.predecessor.words()
    }

    fn write(&self, out: &mut Vec<u128>) {
        self.quorum.write(out);
        self.original_phase.write(out);
        self.predecessor.write(out);
        assert(out@ =~= old(out)@ + self.words());
    }
}

impl Words for ActivateTargetInput {
    open spec fn words(&self) -> Seq<u128> {
        self.completion_sha256.words() + seq![self.fence_id] + self.fence_digest.words() + self.target.words()
    }

    fn write(&self, out: &mut Vec<u128>) {
        self.completion_sha256.write(out);
        out.push(self.fence_id);
        self.fence_digest.write(out);
        self.target.write(out);
        assert(out@ =~= old(out)@ + self.words());
    }
}

impl Words for StopReference {
    open spec fn words(&self) -> Seq<u128> {
        self.tenant.words() + seq![self.command_id] + self.receipt_digest.words()
    }

    fn write(&self, out: &mut Vec<u128>) {
        self.tenant.write(out);
        out.push(self.command_id);
        self.receipt_digest.write(out);
        assert(out@ =~= old(out)@ + self.words());
    }
}

impl Words for Partition {
    open spec fn words(&self) -> Seq<u128> {
        self.name.words() + seq![self.authority_id] + self.manifest_sha256.words() + seq![self.partition as u128] + self.signing_public_key.words() + seq![self.maximum_lifetime_ms as u128, self.drain_ms as u128]
    }

    fn write(&self, out: &mut Vec<u128>) {
        self.name.write(out);
        out.push(self.authority_id);
        self.manifest_sha256.write(out);
        out.push(self.partition as u128);
        self.signing_public_key.write(out);
        out.push(self.maximum_lifetime_ms as u128);
        out.push(self.drain_ms as u128);
        assert(out@ =~= old(out)@ + self.words());
    }
}

impl Words for ChangeRequest {
    open spec fn words(&self) -> Seq<u128> {
        seq![self.command_id, self.expected_policy_epoch as u128] + self.installation_sha256.words() + self.candidate_policy.words() + seq![if self.retire_control { 1u128 } else { 0u128 }]
    }

    fn write(&self, out: &mut Vec<u128>) {
        out.push(self.command_id);
        out.push(self.expected_policy_epoch as u128);
        self.installation_sha256.write(out);
        self.candidate_policy.write(out);
        out.push(if self.retire_control { 1 } else { 0 });
        assert(out@ =~= old(out)@ + self.words());
    }
}

impl Words for AuthorityReference {
    open spec fn words(&self) -> Seq<u128> {
        seq![self.control_incarnation, self.control_policy_epoch as u128] + self.identity.words()
    }

    fn write(&self, out: &mut Vec<u128>) {
        out.push(self.control_incarnation);
        out.push(self.control_policy_epoch as u128);
        self.identity.write(out);
        assert(out@ =~= old(out)@ + self.words());
    }
}

impl Words for CommittedActivation {
    open spec fn words(&self) -> Seq<u128> {
        self.completion.words() + self.reference.words() + self.intent_sha256.words()
    }

    fn write(&self, out: &mut Vec<u128>) {
        self.completion.write(out);
        self.reference.write(out);
        self.intent_sha256.write(out);
        assert(out@ =~= old(out)@ + self.words());
    }
}

impl Words for Activation {
    open spec fn words(&self) -> Seq<u128> {
        seq![self.fence_id] + self.fence_digest.words() + self.target.words() + self.control.words()
    }

    fn write(&self, out: &mut Vec<u128>) {
        out.push(self.fence_id);
        self.fence_digest.write(out);
        self.target.write(out);
        self.control.write(out);
        assert(out@ =~= old(out)@ + self.words());
    }
}

impl Words for ActivateCommand {
    open spec fn words(&self) -> Seq<u128> {
        self.tenant.words() + seq![self.command_id, self.expected_policy_epoch as u128, self.not_after_ms as u128] + self.activation.words()
    }

    fn write(&self, out: &mut Vec<u128>) {
        self.tenant.write(out);
        out.push(self.command_id);
        out.push(self.expected_policy_epoch as u128);
        out.push(self.not_after_ms as u128);
        self.activation.write(out);
        assert(out@ =~= old(out)@ + self.words());
    }
}

impl Words for AuthorityCommand {
    open spec fn words(&self) -> Seq<u128> {
        self.tenant.words() + seq![self.command_id, self.expected_policy_epoch as u128, self.not_after_ms as u128] + self.action.words()
    }

    fn write(&self, out: &mut Vec<u128>) {
        self.tenant.write(out);
        out.push(self.command_id);
        out.push(self.expected_policy_epoch as u128);
        out.push(self.not_after_ms as u128);
        self.action.write(out);
        assert(out@ =~= old(out)@ + self.words());
    }
}

impl Words for AcceptedIntent {
    open spec fn words(&self) -> Seq<u128> {
        self.intent.words() + seq![self.control_incarnation] + self.public_key.words()
            + self.partition.words() + self.partitions_sha256.words()
    }

    fn write(&self, out: &mut Vec<u128>) {
        self.intent.write(out);
        out.push(self.control_incarnation);
        self.public_key.write(out);
        self.partition.write(out);
        self.partitions_sha256.write(out);
        assert(out@ =~= old(out)@ + self.words());
    }
}

} // verus!
