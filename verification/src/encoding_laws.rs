//! A record's words say all of the record: no two records of a kind have the same words,
//! whatever follows them, and no two kinds begin alike. So a digest is taken over every
//! field.
use vstd::prelude::*;

use crate::digest;
use crate::digest::{Digest, Name};
use crate::encoding;
use crate::encoding::Words;
use crate::model::{
    AcceptedIntent, ActivateCommand, ActivateTargetInput, Activation, AttemptStatusInput,
    AuthorityAction, AuthorityCommand, AuthorityIdentity, AuthorityReference, ChangeRequest,
    CommitPosition, CommittedActivation, CommittedCompletion, CompletionAttempt, CompletionInput,
    InspectionInput, IntentRequest, LifecycleIntent, LifecyclePhase, MaterializationInput,
    MaterializationProof, Node, Nodes, Partition, QuorumInput, RecoveryTarget, ResolutionInput,
    ResolutionReference, ResumeOrigin, StopReference, TargetOrigin, TerminalStatusInput,
};

verus! {

proof fn lemma_words(p: Seq<u128>, x: Seq<u128>, q: Seq<u128>, y: Seq<u128>)
    requires
        p + x == q + y,
        p.len() == q.len(),
    ensures
        p == q,
        x == y,
{
    assert(p =~= (p + x).take(p.len() as int));
    assert(q =~= (q + y).take(q.len() as int));
    assert(x =~= (p + x).skip(p.len() as int));
    assert(y =~= (q + y).skip(q.len() as int));
}

proof fn lemma_after(p: Seq<u128>, q: Seq<u128>, x: Seq<u128>)
    ensures
        (p + q) + x == p + (q + x),
{
    assert((p + q) + x =~= p + (q + x));
}

/// The bytes of a sequence of words say each of the words.
pub proof fn lemma_bytes(a: Seq<u128>, b: Seq<u128>)
    requires
        digest::bytes_of(a) == digest::bytes_of(b),
    ensures
        a == b,
    decreases a.len(),
{
    lemma_bytes_len(a);
    lemma_bytes_len(b);
    if a.len() == 0 {
        assert(a =~= b);
    } else {
        let p = digest::bytes_of(a.drop_last());
        let q = digest::bytes_of(b.drop_last());
        let u = vstd::bytes::spec_u128_to_le_bytes(a.last());
        let v = vstd::bytes::spec_u128_to_le_bytes(b.last());
        lemma_bytes_len(a.drop_last());
        lemma_bytes_len(b.drop_last());
        vstd::bytes::lemma_auto_spec_u128_to_from_le_bytes();
        assert(p =~= (p + u).take(p.len() as int));
        assert(q =~= (q + v).take(q.len() as int));
        assert(u =~= (p + u).skip(p.len() as int));
        assert(v =~= (q + v).skip(q.len() as int));
        lemma_bytes(a.drop_last(), b.drop_last());
        assert(vstd::bytes::spec_u128_from_le_bytes(u) == a.last());
        assert(vstd::bytes::spec_u128_from_le_bytes(v) == b.last());
        assert(a =~= a.drop_last().push(a.last()));
        assert(b =~= b.drop_last().push(b.last()));
    }
}

proof fn lemma_bytes_len(a: Seq<u128>)
    ensures
        digest::bytes_of(a).len() == 16 * a.len(),
    decreases a.len(),
{
    vstd::bytes::lemma_auto_spec_u128_to_from_le_bytes();
    if a.len() > 0 {
        lemma_bytes_len(a.drop_last());
    }
}

/// Each kind of record begins with a word of its own.
pub proof fn lemma_kinds_differ()
    ensures
        ({
            let kinds = kinds();
            forall|i: int, j: int|
                0 <= i < j < kinds.len() ==> #[trigger] kinds[i] != #[trigger] kinds[j]
        }),
{
}

/// The first words of the kinds of record.
pub open spec fn kinds() -> Seq<u128> {
    seq![
        encoding::ORIGIN,
        encoding::RESUME,
        encoding::QUORUM,
        encoding::COMPLETION,
        encoding::INSPECTION,
        encoding::ATTEMPT_STATUS,
        encoding::RESOLUTION,
        encoding::TERMINAL_STATUS,
        encoding::ACTIVATION,
        encoding::STOP_LOCAL,
        encoding::ISSUER_COMMAND,
        encoding::INTENT,
        encoding::INTENT_REQUEST,
        encoding::CHANGE_REQUEST,
        encoding::ACCEPTED_INTENT,
        encoding::RECEIPT_ROW,
        encoding::RECEIPT_KEY,
        encoding::RECEIPT_ROOT,
    ]
}

/// A labelled digest is that of the label and of the record's words behind it.
pub proof fn lemma_labelled<T: Words>(label: u128, record: T)
    ensures
        encoding::labelled(label, record) == digest::digest_of(
            digest::bytes_of(seq![label] + record.words()),
        ),
{
    reveal(encoding::labelled);
}

/// A digest is known from its words, whatever follows them.
pub proof fn lemma_digest(a: Digest, x: Seq<u128>, b: Digest, y: Seq<u128>)
    requires
        a.words() + x == b.words() + y,
    ensures
        a == b,
        x == y,
{
    lemma_words(a.words(), x, b.words(), y);
    assert(a.words()[0] == b.words()[0]);
    assert(a.words()[1] == b.words()[1]);
}

/// A name is known from its words, whatever follows them.
pub proof fn lemma_name(a: Name, x: Seq<u128>, b: Name, y: Seq<u128>)
    requires
        a.words() + x == b.words() + y,
    ensures
        a == b,
        x == y,
{
    lemma_digest(a.text, x, b.text, y);
}

/// A phase is known from its word, whatever follows it.
pub proof fn lemma_lifecycle_phase(a: LifecyclePhase, x: Seq<u128>, b: LifecyclePhase, y: Seq<u128>)
    requires
        a.words() + x == b.words() + y,
    ensures
        a == b,
        x == y,
{
    lemma_words(a.words(), x, b.words(), y);
    assert(a.words()[0] == b.words()[0]);
}

/// An authority is known from its words, whatever follows them.
pub proof fn lemma_authority_identity(
    a: AuthorityIdentity,
    x: Seq<u128>,
    b: AuthorityIdentity,
    y: Seq<u128>,
)
    requires
        a.words() + x == b.words() + y,
    ensures
        a == b,
        x == y,
{
    lemma_words(a.words(), x, b.words(), y);
    assert(a.words()[0] == b.words()[0]);
    assert(a.words()[1] == b.words()[1]);
}

/// A node is known from its words, whatever follows them.
pub proof fn lemma_node(a: Node, x: Seq<u128>, b: Node, y: Seq<u128>)
    requires
        a.words() + x == b.words() + y,
    ensures
        a == b,
        x == y,
{
    let a0 = seq![a.node_id as u128];
    let a1 = a.verifier.words();
    let a2 = a.principal.words();
    let a3 = a.certificate_sha256.words();
    let x2 = a3 + x;
    let x1 = a2 + x2;
    let x0 = a1 + x1;
    lemma_after(a0 + a1 + a2, a3, x);
    lemma_after(a0 + a1, a2, x2);
    lemma_after(a0, a1, x1);
    let b0 = seq![b.node_id as u128];
    let b1 = b.verifier.words();
    let b2 = b.principal.words();
    let b3 = b.certificate_sha256.words();
    let y2 = b3 + y;
    let y1 = b2 + y2;
    let y0 = b1 + y1;
    lemma_after(b0 + b1 + b2, b3, y);
    lemma_after(b0 + b1, b2, y2);
    lemma_after(b0, b1, y1);
    lemma_words(a0, x0, b0, y0);
    assert(a0[0] == b0[0]);
    lemma_digest(a.verifier, x1, b.verifier, y1);
    lemma_name(a.principal, x2, b.principal, y2);
    lemma_digest(a.certificate_sha256, x, b.certificate_sha256, y);
}

/// A set of nodes is known from its words, whatever follows them.
pub proof fn lemma_nodes(a: Nodes, x: Seq<u128>, b: Nodes, y: Seq<u128>)
    requires
        a.words() + x == b.words() + y,
    ensures
        a == b,
        x == y,
{
    let a0 = a.first.words();
    let a1 = a.second.words();
    let a2 = a.third.words();
    let x1 = a2 + x;
    let x0 = a1 + x1;
    lemma_after(a0 + a1, a2, x);
    lemma_after(a0, a1, x1);
    let b0 = b.first.words();
    let b1 = b.second.words();
    let b2 = b.third.words();
    let y1 = b2 + y;
    let y0 = b1 + y1;
    lemma_after(b0 + b1, b2, y);
    lemma_after(b0, b1, y1);
    lemma_node(a.first, x0, b.first, y0);
    lemma_node(a.second, x1, b.second, y1);
    lemma_node(a.third, x, b.third, y);
}

/// A recovery target is known from its words, whatever follows them.
pub proof fn lemma_recovery_target(a: RecoveryTarget, x: Seq<u128>, b: RecoveryTarget, y: Seq<u128>)
    requires
        a.words() + x == b.words() + y,
    ensures
        a == b,
        x == y,
{
    let a0 = seq![a.incarnation];
    let a1 = a.checkpoint.words();
    let a2 = a.nodes.words();
    let x1 = a2 + x;
    let x0 = a1 + x1;
    lemma_after(a0 + a1, a2, x);
    lemma_after(a0, a1, x1);
    let b0 = seq![b.incarnation];
    let b1 = b.checkpoint.words();
    let b2 = b.nodes.words();
    let y1 = b2 + y;
    let y0 = b1 + y1;
    lemma_after(b0 + b1, b2, y);
    lemma_after(b0, b1, y1);
    lemma_words(a0, x0, b0, y0);
    assert(a0[0] == b0[0]);
    lemma_digest(a.checkpoint, x1, b.checkpoint, y1);
    lemma_nodes(a.nodes, x, b.nodes, y);
}

/// A materialization is known from its words, whatever follows them.
pub proof fn lemma_materialization_input(
    a: MaterializationInput,
    x: Seq<u128>,
    b: MaterializationInput,
    y: Seq<u128>,
)
    requires
        a.words() + x == b.words() + y,
    ensures
        a == b,
        x == y,
{
    lemma_digest(a.sha256, x, b.sha256, y);
}

/// What a resumption goes back to is known from its words, whatever follows them.
pub proof fn lemma_resume_origin(a: ResumeOrigin, x: Seq<u128>, b: ResumeOrigin, y: Seq<u128>)
    requires
        a.words() + x == b.words() + y,
    ensures
        a == b,
        x == y,
{
    let a0 = seq![a.command_id, a.revision as u128];
    let a1 = a.intent_sha256.words();
    let a2 = a.authority_manifest_sha256.words();
    let a3 = a.input_sha256.words();
    let x2 = a3 + x;
    let x1 = a2 + x2;
    let x0 = a1 + x1;
    lemma_after(a0 + a1 + a2, a3, x);
    lemma_after(a0 + a1, a2, x2);
    lemma_after(a0, a1, x1);
    let b0 = seq![b.command_id, b.revision as u128];
    let b1 = b.intent_sha256.words();
    let b2 = b.authority_manifest_sha256.words();
    let b3 = b.input_sha256.words();
    let y2 = b3 + y;
    let y1 = b2 + y2;
    let y0 = b1 + y1;
    lemma_after(b0 + b1 + b2, b3, y);
    lemma_after(b0 + b1, b2, y2);
    lemma_after(b0, b1, y1);
    lemma_words(a0, x0, b0, y0);
    assert(a0[0] == b0[0] && a0[1] == b0[1]);
    lemma_digest(a.intent_sha256, x1, b.intent_sha256, y1);
    lemma_digest(a.authority_manifest_sha256, x2, b.authority_manifest_sha256, y2);
    lemma_digest(a.input_sha256, x, b.input_sha256, y);
}

/// The same, of one that may be absent.
pub proof fn lemma_optional_resume_origin(
    a: Option<ResumeOrigin>,
    x: Seq<u128>,
    b: Option<ResumeOrigin>,
    y: Seq<u128>,
)
    requires
        a.words() + x == b.words() + y,
    ensures
        a == b,
        x == y,
{
    let p = a.words() + x;
    let q = b.words() + y;
    assert(p[0] == q[0]);
    match (a, b) {
        (Some(u), Some(v)) => {
            lemma_after(seq![1u128], u.words(), x);
            lemma_after(seq![1u128], v.words(), y);
            lemma_words(seq![1u128], u.words() + x, seq![1u128], v.words() + y);
            lemma_resume_origin(u, x, v, y);
        },
        (None, None) => {
            lemma_words(seq![0u128], x, seq![0u128], y);
        },
        (Some(u), None) => {
            assert(p[0] == 1);
        },
        (None, Some(v)) => {
            assert(q[0] == 1);
        },
    }
}

/// A requested intent is known from its words, whatever follows them.
pub proof fn lemma_intent_request(a: IntentRequest, x: Seq<u128>, b: IntentRequest, y: Seq<u128>)
    requires
        a.words() + x == b.words() + y,
    ensures
        a == b,
        x == y,
{
    let a0 = seq![a.command_id, a.expected_policy_epoch as u128];
    let a1 = a.installation_sha256.words();
    let a2 = a.authority_partition.words();
    let a3 = a.tenant.words();
    let a4 = seq![a.source_incarnation, a.source_authority_epoch as u128, a.target_incarnation];
    let a5 = a.checkpoint.words();
    let a6 = a.target_nodes.words();
    let a7 = a.phase.words();
    let a8 = a.phase_input_sha256.words();
    let a9 = a.resume_origin.words();
    let x8 = a9 + x;
    let x7 = a8 + x8;
    let x6 = a7 + x7;
    let x5 = a6 + x6;
    let x4 = a5 + x5;
    let x3 = a4 + x4;
    let x2 = a3 + x3;
    let x1 = a2 + x2;
    let x0 = a1 + x1;
    lemma_after(a0 + a1 + a2 + a3 + a4 + a5 + a6 + a7 + a8, a9, x);
    lemma_after(a0 + a1 + a2 + a3 + a4 + a5 + a6 + a7, a8, x8);
    lemma_after(a0 + a1 + a2 + a3 + a4 + a5 + a6, a7, x7);
    lemma_after(a0 + a1 + a2 + a3 + a4 + a5, a6, x6);
    lemma_after(a0 + a1 + a2 + a3 + a4, a5, x5);
    lemma_after(a0 + a1 + a2 + a3, a4, x4);
    lemma_after(a0 + a1 + a2, a3, x3);
    lemma_after(a0 + a1, a2, x2);
    lemma_after(a0, a1, x1);
    let b0 = seq![b.command_id, b.expected_policy_epoch as u128];
    let b1 = b.installation_sha256.words();
    let b2 = b.authority_partition.words();
    let b3 = b.tenant.words();
    let b4 = seq![b.source_incarnation, b.source_authority_epoch as u128, b.target_incarnation];
    let b5 = b.checkpoint.words();
    let b6 = b.target_nodes.words();
    let b7 = b.phase.words();
    let b8 = b.phase_input_sha256.words();
    let b9 = b.resume_origin.words();
    let y8 = b9 + y;
    let y7 = b8 + y8;
    let y6 = b7 + y7;
    let y5 = b6 + y6;
    let y4 = b5 + y5;
    let y3 = b4 + y4;
    let y2 = b3 + y3;
    let y1 = b2 + y2;
    let y0 = b1 + y1;
    lemma_after(b0 + b1 + b2 + b3 + b4 + b5 + b6 + b7 + b8, b9, y);
    lemma_after(b0 + b1 + b2 + b3 + b4 + b5 + b6 + b7, b8, y8);
    lemma_after(b0 + b1 + b2 + b3 + b4 + b5 + b6, b7, y7);
    lemma_after(b0 + b1 + b2 + b3 + b4 + b5, b6, y6);
    lemma_after(b0 + b1 + b2 + b3 + b4, b5, y5);
    lemma_after(b0 + b1 + b2 + b3, b4, y4);
    lemma_after(b0 + b1 + b2, b3, y3);
    lemma_after(b0 + b1, b2, y2);
    lemma_after(b0, b1, y1);
    lemma_words(a0, x0, b0, y0);
    assert(a0[0] == b0[0] && a0[1] == b0[1]);
    lemma_digest(a.installation_sha256, x1, b.installation_sha256, y1);
    lemma_name(a.authority_partition, x2, b.authority_partition, y2);
    lemma_name(a.tenant, x3, b.tenant, y3);
    lemma_words(a4, x4, b4, y4);
    assert(a4[0] == b4[0] && a4[1] == b4[1] && a4[2] == b4[2]);
    lemma_digest(a.checkpoint, x5, b.checkpoint, y5);
    lemma_nodes(a.target_nodes, x6, b.target_nodes, y6);
    lemma_lifecycle_phase(a.phase, x7, b.phase, y7);
    lemma_digest(a.phase_input_sha256, x8, b.phase_input_sha256, y8);
    lemma_optional_resume_origin(a.resume_origin, x, b.resume_origin, y);
}

/// An intent is known from its words, whatever follows them.
pub proof fn lemma_lifecycle_intent(
    a: LifecycleIntent,
    x: Seq<u128>,
    b: LifecycleIntent,
    y: Seq<u128>,
)
    requires
        a.words() + x == b.words() + y,
    ensures
        a == b,
        x == y,
{
    let a0 = a.request.words();
    let a1 = a.request_sha256.words();
    let a2 = seq![a.control_incarnation, a.installation_generation as u128];
    let a3 = a.original_principal.words();
    let a4 = seq![
        a.original_credential_expires_at_ms as u128,
        a.accepted_at_ms as u128,
        a.revision as u128,
    ];
    let x3 = a4 + x;
    let x2 = a3 + x3;
    let x1 = a2 + x2;
    let x0 = a1 + x1;
    lemma_after(a0 + a1 + a2 + a3, a4, x);
    lemma_after(a0 + a1 + a2, a3, x3);
    lemma_after(a0 + a1, a2, x2);
    lemma_after(a0, a1, x1);
    let b0 = b.request.words();
    let b1 = b.request_sha256.words();
    let b2 = seq![b.control_incarnation, b.installation_generation as u128];
    let b3 = b.original_principal.words();
    let b4 = seq![
        b.original_credential_expires_at_ms as u128,
        b.accepted_at_ms as u128,
        b.revision as u128,
    ];
    let y3 = b4 + y;
    let y2 = b3 + y3;
    let y1 = b2 + y2;
    let y0 = b1 + y1;
    lemma_after(b0 + b1 + b2 + b3, b4, y);
    lemma_after(b0 + b1 + b2, b3, y3);
    lemma_after(b0 + b1, b2, y2);
    lemma_after(b0, b1, y1);
    lemma_intent_request(a.request, x0, b.request, y0);
    lemma_digest(a.request_sha256, x1, b.request_sha256, y1);
    lemma_words(a2, x2, b2, y2);
    assert(a2[0] == b2[0] && a2[1] == b2[1]);
    lemma_name(a.original_principal, x3, b.original_principal, y3);
    lemma_words(a4, x, b4, y);
    assert(a4[0] == b4[0] && a4[1] == b4[1] && a4[2] == b4[2]);
}

/// An origin is known from its words, whatever follows them.
pub proof fn lemma_target_origin(a: TargetOrigin, x: Seq<u128>, b: TargetOrigin, y: Seq<u128>)
    requires
        a.words() + x == b.words() + y,
    ensures
        a == b,
        x == y,
{
    let a0 = a.authority_manifest_sha256.words();
    let a1 = a.materialization.words();
    let a2 = a.input.words();
    let x1 = a2 + x;
    let x0 = a1 + x1;
    lemma_after(a0 + a1, a2, x);
    lemma_after(a0, a1, x1);
    let b0 = b.authority_manifest_sha256.words();
    let b1 = b.materialization.words();
    let b2 = b.input.words();
    let y1 = b2 + y;
    let y0 = b1 + y1;
    lemma_after(b0 + b1, b2, y);
    lemma_after(b0, b1, y1);
    lemma_digest(a.authority_manifest_sha256, x0, b.authority_manifest_sha256, y0);
    lemma_lifecycle_intent(a.materialization, x1, b.materialization, y1);
    lemma_materialization_input(a.input, x, b.input, y);
}

/// Whether two of them are one, but for what is only proved of them.
pub open spec fn same_materialization_proof(a: MaterializationProof, b: MaterializationProof) -> bool {
    &&& a.node_id == b.node_id
    &&& a.origin_sha256 == b.origin_sha256
    &&& a.image_sha256 == b.image_sha256
    &&& a.sha256 == b.sha256
}

/// A materialization proof is known from its words, whatever follows them.
pub proof fn lemma_materialization_proof(
    a: MaterializationProof,
    x: Seq<u128>,
    b: MaterializationProof,
    y: Seq<u128>,
)
    requires
        a.words() + x == b.words() + y,
    ensures
        same_materialization_proof(a, b),
        x == y,
{
    let a0 = seq![a.node_id as u128];
    let a1 = a.origin_sha256.words();
    let a2 = a.image_sha256.words();
    let a3 = a.sha256.words();
    let x2 = a3 + x;
    let x1 = a2 + x2;
    let x0 = a1 + x1;
    lemma_after(a0 + a1 + a2, a3, x);
    lemma_after(a0 + a1, a2, x2);
    lemma_after(a0, a1, x1);
    let b0 = seq![b.node_id as u128];
    let b1 = b.origin_sha256.words();
    let b2 = b.image_sha256.words();
    let b3 = b.sha256.words();
    let y2 = b3 + y;
    let y1 = b2 + y2;
    let y0 = b1 + y1;
    lemma_after(b0 + b1 + b2, b3, y);
    lemma_after(b0 + b1, b2, y2);
    lemma_after(b0, b1, y1);
    lemma_words(a0, x0, b0, y0);
    assert(a0[0] == b0[0]);
    lemma_digest(a.origin_sha256, x1, b.origin_sha256, y1);
    lemma_digest(a.image_sha256, x2, b.image_sha256, y2);
    lemma_digest(a.sha256, x, b.sha256, y);
}

/// Whether two of them are one, but for what is only proved of them.
pub open spec fn same_quorum_input(a: QuorumInput, b: QuorumInput) -> bool {
    &&& a.origin_sha256 == b.origin_sha256
    &&& same_materialization_proof(a.first, b.first)
    &&& same_materialization_proof(a.second, b.second)
    &&& same_materialization_proof(a.third, b.third)
}

/// A quorum is known from its words, whatever follows them.
pub proof fn lemma_quorum_input(a: QuorumInput, x: Seq<u128>, b: QuorumInput, y: Seq<u128>)
    requires
        a.words() + x == b.words() + y,
    ensures
        same_quorum_input(a, b),
        x == y,
{
    let a0 = a.origin_sha256.words();
    let a1 = a.first.words();
    let a2 = a.second.words();
    let a3 = a.third.words();
    let x2 = a3 + x;
    let x1 = a2 + x2;
    let x0 = a1 + x1;
    lemma_after(a0 + a1 + a2, a3, x);
    lemma_after(a0 + a1, a2, x2);
    lemma_after(a0, a1, x1);
    let b0 = b.origin_sha256.words();
    let b1 = b.first.words();
    let b2 = b.second.words();
    let b3 = b.third.words();
    let y2 = b3 + y;
    let y1 = b2 + y2;
    let y0 = b1 + y1;
    lemma_after(b0 + b1 + b2, b3, y);
    lemma_after(b0 + b1, b2, y2);
    lemma_after(b0, b1, y1);
    lemma_digest(a.origin_sha256, x0, b.origin_sha256, y0);
    lemma_materialization_proof(a.first, x1, b.first, y1);
    lemma_materialization_proof(a.second, x2, b.second, y2);
    lemma_materialization_proof(a.third, x, b.third, y);
}

/// A reference to a resolution is known from its words, whatever follows them.
pub proof fn lemma_resolution_reference(
    a: ResolutionReference,
    x: Seq<u128>,
    b: ResolutionReference,
    y: Seq<u128>,
)
    requires
        a.words() + x == b.words() + y,
    ensures
        a == b,
        x == y,
{
    let a0 = a.origin_sha256.words();
    let a1 = seq![
        a.control_incarnation,
        a.original_command_id,
        a.resolution_command_id,
        a.resolution_control_revision as u128,
    ];
    let a2 = a.fact_sha256.words();
    let x1 = a2 + x;
    let x0 = a1 + x1;
    lemma_after(a0 + a1, a2, x);
    lemma_after(a0, a1, x1);
    let b0 = b.origin_sha256.words();
    let b1 = seq![
        b.control_incarnation,
        b.original_command_id,
        b.resolution_command_id,
        b.resolution_control_revision as u128,
    ];
    let b2 = b.fact_sha256.words();
    let y1 = b2 + y;
    let y0 = b1 + y1;
    lemma_after(b0 + b1, b2, y);
    lemma_after(b0, b1, y1);
    lemma_digest(a.origin_sha256, x0, b.origin_sha256, y0);
    lemma_words(a1, x1, b1, y1);
    assert(a1[0] == b1[0] && a1[1] == b1[1] && a1[2] == b1[2] && a1[3] == b1[3]);
    lemma_digest(a.fact_sha256, x, b.fact_sha256, y);
}

/// The same, of one that may be absent.
pub proof fn lemma_optional_resolution_reference(
    a: Option<ResolutionReference>,
    x: Seq<u128>,
    b: Option<ResolutionReference>,
    y: Seq<u128>,
)
    requires
        a.words() + x == b.words() + y,
    ensures
        a == b,
        x == y,
{
    let p = a.words() + x;
    let q = b.words() + y;
    assert(p[0] == q[0]);
    match (a, b) {
        (Some(u), Some(v)) => {
            lemma_after(seq![1u128], u.words(), x);
            lemma_after(seq![1u128], v.words(), y);
            lemma_words(seq![1u128], u.words() + x, seq![1u128], v.words() + y);
            lemma_resolution_reference(u, x, v, y);
        },
        (None, None) => {
            lemma_words(seq![0u128], x, seq![0u128], y);
        },
        (Some(u), None) => {
            assert(p[0] == 1);
        },
        (None, Some(v)) => {
            assert(q[0] == 1);
        },
    }
}

/// Whether two of them are one, but for what is only proved of them.
pub open spec fn same_completion_input(a: CompletionInput, b: CompletionInput) -> bool {
    &&& same_quorum_input(a.quorum, b.quorum)
    &&& a.predecessor == b.predecessor
}

/// A completion is known from its words, whatever follows them.
pub proof fn lemma_completion_input(
    a: CompletionInput,
    x: Seq<u128>,
    b: CompletionInput,
    y: Seq<u128>,
)
    requires
        a.words() + x == b.words() + y,
    ensures
        same_completion_input(a, b),
        x == y,
{
    let a0 = a.quorum.words();
    let a1 = a.predecessor.words();
    let x0 = a1 + x;
    lemma_after(a0, a1, x);
    let b0 = b.quorum.words();
    let b1 = b.predecessor.words();
    let y0 = b1 + y;
    lemma_after(b0, b1, y);
    lemma_quorum_input(a.quorum, x0, b.quorum, y0);
    lemma_optional_resolution_reference(a.predecessor, x, b.predecessor, y);
}

/// A commit position is known from its words, whatever follows them.
pub proof fn lemma_commit_position(a: CommitPosition, x: Seq<u128>, b: CommitPosition, y: Seq<u128>)
    requires
        a.words() + x == b.words() + y,
    ensures
        a == b,
        x == y,
{
    let a0 = seq![a.index as u128, a.term as u128, a.leader_node_id as u128];
    let a1 = a.command_sha256.words();
    let x0 = a1 + x;
    lemma_after(a0, a1, x);
    let b0 = seq![b.index as u128, b.term as u128, b.leader_node_id as u128];
    let b1 = b.command_sha256.words();
    let y0 = b1 + y;
    lemma_after(b0, b1, y);
    lemma_words(a0, x0, b0, y0);
    assert(a0[0] == b0[0] && a0[1] == b0[1] && a0[2] == b0[2]);
    lemma_digest(a.command_sha256, x, b.command_sha256, y);
}

/// Whether two of them are one, but for what is only proved of them.
pub open spec fn same_completion_attempt(a: CompletionAttempt, b: CompletionAttempt) -> bool {
    &&& a.origin == b.origin
    &&& a.intent == b.intent
    &&& same_completion_input(a.input, b.input)
    &&& a.admitted_at_ms == b.admitted_at_ms
    &&& a.dispatch_not_after_ms == b.dispatch_not_after_ms
    &&& a.revision == b.revision
    &&& a.position == b.position
}

/// An attempt at a completion is known from its words, whatever follows them.
pub proof fn lemma_completion_attempt(
    a: CompletionAttempt,
    x: Seq<u128>,
    b: CompletionAttempt,
    y: Seq<u128>,
)
    requires
        a.words() + x == b.words() + y,
    ensures
        same_completion_attempt(a, b),
        x == y,
{
    let a0 = a.origin.words();
    let a1 = a.intent.words();
    let a2 = a.input.words();
    let a3 = seq![a.admitted_at_ms as u128, a.dispatch_not_after_ms as u128, a.revision as u128];
    let a4 = a.position.words();
    let x3 = a4 + x;
    let x2 = a3 + x3;
    let x1 = a2 + x2;
    let x0 = a1 + x1;
    lemma_after(a0 + a1 + a2 + a3, a4, x);
    lemma_after(a0 + a1 + a2, a3, x3);
    lemma_after(a0 + a1, a2, x2);
    lemma_after(a0, a1, x1);
    let b0 = b.origin.words();
    let b1 = b.intent.words();
    let b2 = b.input.words();
    let b3 = seq![b.admitted_at_ms as u128, b.dispatch_not_after_ms as u128, b.revision as u128];
    let b4 = b.position.words();
    let y3 = b4 + y;
    let y2 = b3 + y3;
    let y1 = b2 + y2;
    let y0 = b1 + y1;
    lemma_after(b0 + b1 + b2 + b3, b4, y);
    lemma_after(b0 + b1 + b2, b3, y3);
    lemma_after(b0 + b1, b2, y2);
    lemma_after(b0, b1, y1);
    lemma_target_origin(a.origin, x0, b.origin, y0);
    lemma_lifecycle_intent(a.intent, x1, b.intent, y1);
    lemma_completion_input(a.input, x2, b.input, y2);
    lemma_words(a3, x3, b3, y3);
    assert(a3[0] == b3[0] && a3[1] == b3[1] && a3[2] == b3[2]);
    lemma_commit_position(a.position, x, b.position, y);
}

/// Whether two of them are one, but for what is only proved of them.
pub open spec fn same_attempt_status_input(a: AttemptStatusInput, b: AttemptStatusInput) -> bool {
    &&& a.original_intent == b.original_intent
    &&& same_completion_input(a.original_input, b.original_input)
    &&& a.original_dispatch_not_after_ms == b.original_dispatch_not_after_ms
}

/// A question for an attempt is known from its words, whatever follows them.
pub proof fn lemma_attempt_status_input(
    a: AttemptStatusInput,
    x: Seq<u128>,
    b: AttemptStatusInput,
    y: Seq<u128>,
)
    requires
        a.words() + x == b.words() + y,
    ensures
        same_attempt_status_input(a, b),
        x == y,
{
    let a0 = a.original_intent.words();
    let a1 = a.original_input.words();
    let a2 = seq![a.original_dispatch_not_after_ms as u128];
    let x1 = a2 + x;
    let x0 = a1 + x1;
    lemma_after(a0 + a1, a2, x);
    lemma_after(a0, a1, x1);
    let b0 = b.original_intent.words();
    let b1 = b.original_input.words();
    let b2 = seq![b.original_dispatch_not_after_ms as u128];
    let y1 = b2 + y;
    let y0 = b1 + y1;
    lemma_after(b0 + b1, b2, y);
    lemma_after(b0, b1, y1);
    lemma_lifecycle_intent(a.original_intent, x0, b.original_intent, y0);
    lemma_completion_input(a.original_input, x1, b.original_input, y1);
    lemma_words(a2, x, b2, y);
    assert(a2[0] == b2[0]);
}

/// Whether two of them are one, but for what is only proved of them.
pub open spec fn same_resolution_input(a: ResolutionInput, b: ResolutionInput) -> bool {
    &&& same_completion_attempt(a.attempt, b.attempt)
}

/// A resolution is known from its words, whatever follows them.
pub proof fn lemma_resolution_input(
    a: ResolutionInput,
    x: Seq<u128>,
    b: ResolutionInput,
    y: Seq<u128>,
)
    requires
        a.words() + x == b.words() + y,
    ensures
        same_resolution_input(a, b),
        x == y,
{
    lemma_completion_attempt(a.attempt, x, b.attempt, y);
}

/// Whether two of them are one, but for what is only proved of them.
pub open spec fn same_terminal_status_input(a: TerminalStatusInput, b: TerminalStatusInput) -> bool {
    &&& a.original_intent == b.original_intent
    &&& same_resolution_input(a.original_input, b.original_input)
    &&& a.original_dispatch_not_after_ms == b.original_dispatch_not_after_ms
}

/// A question for a resolution is known from its words, whatever follows them.
pub proof fn lemma_terminal_status_input(
    a: TerminalStatusInput,
    x: Seq<u128>,
    b: TerminalStatusInput,
    y: Seq<u128>,
)
    requires
        a.words() + x == b.words() + y,
    ensures
        same_terminal_status_input(a, b),
        x == y,
{
    let a0 = a.original_intent.words();
    let a1 = a.original_input.words();
    let a2 = seq![a.original_dispatch_not_after_ms as u128];
    let x1 = a2 + x;
    let x0 = a1 + x1;
    lemma_after(a0 + a1, a2, x);
    lemma_after(a0, a1, x1);
    let b0 = b.original_intent.words();
    let b1 = b.original_input.words();
    let b2 = seq![b.original_dispatch_not_after_ms as u128];
    let y1 = b2 + y;
    let y0 = b1 + y1;
    lemma_after(b0 + b1, b2, y);
    lemma_after(b0, b1, y1);
    lemma_lifecycle_intent(a.original_intent, x0, b.original_intent, y0);
    lemma_resolution_input(a.original_input, x1, b.original_input, y1);
    lemma_words(a2, x, b2, y);
    assert(a2[0] == b2[0]);
}

/// Whether two of them are one, but for what is only proved of them.
pub open spec fn same_inspection_input(a: InspectionInput, b: InspectionInput) -> bool {
    &&& same_quorum_input(a.quorum, b.quorum)
    &&& a.original_phase == b.original_phase
    &&& a.predecessor == b.predecessor
}

/// An inspection is known from its words, whatever follows them.
pub proof fn lemma_inspection_input(
    a: InspectionInput,
    x: Seq<u128>,
    b: InspectionInput,
    y: Seq<u128>,
)
    requires
        a.words() + x == b.words() + y,
    ensures
        same_inspection_input(a, b),
        x == y,
{
    let a0 = a.quorum.words();
    let a1 = a.original_phase.words();
    let a2 = a.predecessor.words();
    let x1 = a2 + x;
    let x0 = a1 + x1;
    lemma_after(a0 + a1, a2, x);
    lemma_after(a0, a1, x1);
    let b0 = b.quorum.words();
    let b1 = b.original_phase.words();
    let b2 = b.predecessor.words();
    let y1 = b2 + y;
    let y0 = b1 + y1;
    lemma_after(b0 + b1, b2, y);
    lemma_after(b0, b1, y1);
    lemma_quorum_input(a.quorum, x0, b.quorum, y0);
    lemma_lifecycle_intent(a.original_phase, x1, b.original_phase, y1);
    lemma_optional_resolution_reference(a.predecessor, x, b.predecessor, y);
}

/// An activation of a target is known from its words, whatever follows them.
pub proof fn lemma_activate_target_input(
    a: ActivateTargetInput,
    x: Seq<u128>,
    b: ActivateTargetInput,
    y: Seq<u128>,
)
    requires
        a.words() + x == b.words() + y,
    ensures
        a == b,
        x == y,
{
    let a0 = a.completion_sha256.words();
    let a1 = seq![a.fence_id];
    let a2 = a.fence_digest.words();
    let a3 = a.target.words();
    let x2 = a3 + x;
    let x1 = a2 + x2;
    let x0 = a1 + x1;
    lemma_after(a0 + a1 + a2, a3, x);
    lemma_after(a0 + a1, a2, x2);
    lemma_after(a0, a1, x1);
    let b0 = b.completion_sha256.words();
    let b1 = seq![b.fence_id];
    let b2 = b.fence_digest.words();
    let b3 = b.target.words();
    let y2 = b3 + y;
    let y1 = b2 + y2;
    let y0 = b1 + y1;
    lemma_after(b0 + b1 + b2, b3, y);
    lemma_after(b0 + b1, b2, y2);
    lemma_after(b0, b1, y1);
    lemma_digest(a.completion_sha256, x0, b.completion_sha256, y0);
    lemma_words(a1, x1, b1, y1);
    assert(a1[0] == b1[0]);
    lemma_digest(a.fence_digest, x2, b.fence_digest, y2);
    lemma_recovery_target(a.target, x, b.target, y);
}

/// A reference to a stop is known from its words, whatever follows them.
pub proof fn lemma_stop_reference(a: StopReference, x: Seq<u128>, b: StopReference, y: Seq<u128>)
    requires
        a.words() + x == b.words() + y,
    ensures
        a == b,
        x == y,
{
    let a0 = a.tenant.words();
    let a1 = seq![a.command_id];
    let a2 = a.receipt_digest.words();
    let x1 = a2 + x;
    let x0 = a1 + x1;
    lemma_after(a0 + a1, a2, x);
    lemma_after(a0, a1, x1);
    let b0 = b.tenant.words();
    let b1 = seq![b.command_id];
    let b2 = b.receipt_digest.words();
    let y1 = b2 + y;
    let y0 = b1 + y1;
    lemma_after(b0 + b1, b2, y);
    lemma_after(b0, b1, y1);
    lemma_name(a.tenant, x0, b.tenant, y0);
    lemma_words(a1, x1, b1, y1);
    assert(a1[0] == b1[0]);
    lemma_digest(a.receipt_digest, x, b.receipt_digest, y);
}

/// A partition is known from its words, whatever follows them.
pub proof fn lemma_partition(a: Partition, x: Seq<u128>, b: Partition, y: Seq<u128>)
    requires
        a.words() + x == b.words() + y,
    ensures
        a == b,
        x == y,
{
    let a0 = a.name.words();
    let a1 = seq![a.authority_id];
    let a2 = a.manifest_sha256.words();
    let a3 = seq![a.partition as u128];
    let a4 = a.signing_public_key.words();
    let a5 = seq![a.maximum_lifetime_ms as u128, a.drain_ms as u128];
    let x4 = a5 + x;
    let x3 = a4 + x4;
    let x2 = a3 + x3;
    let x1 = a2 + x2;
    let x0 = a1 + x1;
    lemma_after(a0 + a1 + a2 + a3 + a4, a5, x);
    lemma_after(a0 + a1 + a2 + a3, a4, x4);
    lemma_after(a0 + a1 + a2, a3, x3);
    lemma_after(a0 + a1, a2, x2);
    lemma_after(a0, a1, x1);
    let b0 = b.name.words();
    let b1 = seq![b.authority_id];
    let b2 = b.manifest_sha256.words();
    let b3 = seq![b.partition as u128];
    let b4 = b.signing_public_key.words();
    let b5 = seq![b.maximum_lifetime_ms as u128, b.drain_ms as u128];
    let y4 = b5 + y;
    let y3 = b4 + y4;
    let y2 = b3 + y3;
    let y1 = b2 + y2;
    let y0 = b1 + y1;
    lemma_after(b0 + b1 + b2 + b3 + b4, b5, y);
    lemma_after(b0 + b1 + b2 + b3, b4, y4);
    lemma_after(b0 + b1 + b2, b3, y3);
    lemma_after(b0 + b1, b2, y2);
    lemma_after(b0, b1, y1);
    lemma_name(a.name, x0, b.name, y0);
    lemma_words(a1, x1, b1, y1);
    assert(a1[0] == b1[0]);
    lemma_digest(a.manifest_sha256, x2, b.manifest_sha256, y2);
    lemma_words(a3, x3, b3, y3);
    assert(a3[0] == b3[0]);
    lemma_digest(a.signing_public_key, x4, b.signing_public_key, y4);
    lemma_words(a5, x, b5, y);
    assert(a5[0] == b5[0] && a5[1] == b5[1]);
}

/// A requested change is known from its words, whatever follows them.
pub proof fn lemma_change_request(a: ChangeRequest, x: Seq<u128>, b: ChangeRequest, y: Seq<u128>)
    requires
        a.words() + x == b.words() + y,
    ensures
        a == b,
        x == y,
{
    let a0 = seq![a.command_id, a.expected_policy_epoch as u128];
    let a1 = a.installation_sha256.words();
    let a2 = a.candidate_policy.words();
    let a3 = seq![if a.retire_control { 1u128 } else { 0u128 }];
    let x2 = a3 + x;
    let x1 = a2 + x2;
    let x0 = a1 + x1;
    lemma_after(a0 + a1 + a2, a3, x);
    lemma_after(a0 + a1, a2, x2);
    lemma_after(a0, a1, x1);
    let b0 = seq![b.command_id, b.expected_policy_epoch as u128];
    let b1 = b.installation_sha256.words();
    let b2 = b.candidate_policy.words();
    let b3 = seq![if b.retire_control { 1u128 } else { 0u128 }];
    let y2 = b3 + y;
    let y1 = b2 + y2;
    let y0 = b1 + y1;
    lemma_after(b0 + b1 + b2, b3, y);
    lemma_after(b0 + b1, b2, y2);
    lemma_after(b0, b1, y1);
    lemma_words(a0, x0, b0, y0);
    assert(a0[0] == b0[0] && a0[1] == b0[1]);
    lemma_digest(a.installation_sha256, x1, b.installation_sha256, y1);
    lemma_digest(a.candidate_policy, x2, b.candidate_policy, y2);
    lemma_words(a3, x, b3, y);
    assert(a3[0] == b3[0]);
}

/// A reference to an authority is known from its words, whatever follows them.
pub proof fn lemma_authority_reference(
    a: AuthorityReference,
    x: Seq<u128>,
    b: AuthorityReference,
    y: Seq<u128>,
)
    requires
        a.words() + x == b.words() + y,
    ensures
        a == b,
        x == y,
{
    let a0 = seq![a.control_incarnation, a.control_policy_epoch as u128];
    let a1 = a.identity.words();
    let x0 = a1 + x;
    lemma_after(a0, a1, x);
    let b0 = seq![b.control_incarnation, b.control_policy_epoch as u128];
    let b1 = b.identity.words();
    let y0 = b1 + y;
    lemma_after(b0, b1, y);
    lemma_words(a0, x0, b0, y0);
    assert(a0[0] == b0[0] && a0[1] == b0[1]);
    lemma_authority_identity(a.identity, x, b.identity, y);
}

/// Whether two of them are one, but for what is only proved of them.
pub open spec fn same_committed_completion(a: CommittedCompletion, b: CommittedCompletion) -> bool {
    match (a, b) {
        (CommittedCompletion::Original(p), CommittedCompletion::Original(q)) => {
            &&& p@.observer_node_id == q@.observer_node_id
            &&& p@.fact.sha256 == q@.fact.sha256
        },
        (CommittedCompletion::Resolved(p), CommittedCompletion::Resolved(q)) => {
            &&& p@.observer_node_id == q@.observer_node_id
            &&& p@.completion.sha256 == q@.completion.sha256
        },
        _ => false,
    }
}

/// A committed completion is known from its words, whatever follows them.
pub proof fn lemma_committed_completion(
    a: CommittedCompletion,
    x: Seq<u128>,
    b: CommittedCompletion,
    y: Seq<u128>,
)
    requires
        a.words() + x == b.words() + y,
    ensures
        same_committed_completion(a, b),
        x == y,
{
    lemma_words(a.words(), x, b.words(), y);
    assert(a.words()[0] == b.words()[0]);
    assert(a.words()[1] == b.words()[1]);
    assert(a.words()[2] == b.words()[2]);
    assert(a.words()[3] == b.words()[3]);
}

/// Whether two of them are one, but for what is only proved of them.
pub open spec fn same_committed_activation(a: CommittedActivation, b: CommittedActivation) -> bool {
    &&& same_committed_completion(a.completion, b.completion)
    &&& a.reference == b.reference
    &&& a.intent_sha256 == b.intent_sha256
}

/// A committed activation is known from its words, whatever follows them.
pub proof fn lemma_committed_activation(
    a: CommittedActivation,
    x: Seq<u128>,
    b: CommittedActivation,
    y: Seq<u128>,
)
    requires
        a.words() + x == b.words() + y,
    ensures
        same_committed_activation(a, b),
        x == y,
{
    let a0 = a.completion.words();
    let a1 = a.reference.words();
    let a2 = a.intent_sha256.words();
    let x1 = a2 + x;
    let x0 = a1 + x1;
    lemma_after(a0 + a1, a2, x);
    lemma_after(a0, a1, x1);
    let b0 = b.completion.words();
    let b1 = b.reference.words();
    let b2 = b.intent_sha256.words();
    let y1 = b2 + y;
    let y0 = b1 + y1;
    lemma_after(b0 + b1, b2, y);
    lemma_after(b0, b1, y1);
    lemma_committed_completion(a.completion, x0, b.completion, y0);
    lemma_authority_reference(a.reference, x1, b.reference, y1);
    lemma_digest(a.intent_sha256, x, b.intent_sha256, y);
}

/// Whether two of them are one, but for what is only proved of them.
pub open spec fn same_activation(a: Activation, b: Activation) -> bool {
    &&& a.fence_id == b.fence_id
    &&& a.fence_digest == b.fence_digest
    &&& a.target == b.target
    &&& same_committed_activation(a.control, b.control)
}

/// An activation is known from its words, whatever follows them.
pub proof fn lemma_activation(a: Activation, x: Seq<u128>, b: Activation, y: Seq<u128>)
    requires
        a.words() + x == b.words() + y,
    ensures
        same_activation(a, b),
        x == y,
{
    let a0 = seq![a.fence_id];
    let a1 = a.fence_digest.words();
    let a2 = a.target.words();
    let a3 = a.control.words();
    let x2 = a3 + x;
    let x1 = a2 + x2;
    let x0 = a1 + x1;
    lemma_after(a0 + a1 + a2, a3, x);
    lemma_after(a0 + a1, a2, x2);
    lemma_after(a0, a1, x1);
    let b0 = seq![b.fence_id];
    let b1 = b.fence_digest.words();
    let b2 = b.target.words();
    let b3 = b.control.words();
    let y2 = b3 + y;
    let y1 = b2 + y2;
    let y0 = b1 + y1;
    lemma_after(b0 + b1 + b2, b3, y);
    lemma_after(b0 + b1, b2, y2);
    lemma_after(b0, b1, y1);
    lemma_words(a0, x0, b0, y0);
    assert(a0[0] == b0[0]);
    lemma_digest(a.fence_digest, x1, b.fence_digest, y1);
    lemma_recovery_target(a.target, x2, b.target, y2);
    lemma_committed_activation(a.control, x, b.control, y);
}

/// Whether two of them are one, but for what is only proved of them.
pub open spec fn same_activate_command(a: ActivateCommand, b: ActivateCommand) -> bool {
    &&& a.tenant == b.tenant
    &&& a.command_id == b.command_id
    &&& a.expected_policy_epoch == b.expected_policy_epoch
    &&& a.not_after_ms == b.not_after_ms
    &&& same_activation(a.activation, b.activation)
}

/// An activation command is known from its words, whatever follows them.
pub proof fn lemma_activate_command(
    a: ActivateCommand,
    x: Seq<u128>,
    b: ActivateCommand,
    y: Seq<u128>,
)
    requires
        a.words() + x == b.words() + y,
    ensures
        same_activate_command(a, b),
        x == y,
{
    let a0 = a.tenant.words();
    let a1 = seq![a.command_id, a.expected_policy_epoch as u128, a.not_after_ms as u128];
    let a2 = a.activation.words();
    let x1 = a2 + x;
    let x0 = a1 + x1;
    lemma_after(a0 + a1, a2, x);
    lemma_after(a0, a1, x1);
    let b0 = b.tenant.words();
    let b1 = seq![b.command_id, b.expected_policy_epoch as u128, b.not_after_ms as u128];
    let b2 = b.activation.words();
    let y1 = b2 + y;
    let y0 = b1 + y1;
    lemma_after(b0 + b1, b2, y);
    lemma_after(b0, b1, y1);
    lemma_name(a.tenant, x0, b.tenant, y0);
    lemma_words(a1, x1, b1, y1);
    assert(a1[0] == b1[0] && a1[1] == b1[1] && a1[2] == b1[2]);
    lemma_activation(a.activation, x, b.activation, y);
}

/// Whether two of them are one, but for what is only proved of them.
pub open spec fn same_authority_action(a: AuthorityAction, b: AuthorityAction) -> bool {
    match (a, b) {
        (
            AuthorityAction::ActivateCommitted(p),
            AuthorityAction::ActivateCommitted(q),
        ) => same_activation(p@, q@),
        (
            AuthorityAction::StopActivation { original: p },
            AuthorityAction::StopActivation { original: q },
        ) => same_activate_command(p@, q@),
        _ => a == b,
    }
}

/// An issuer's action is known from its words, whatever follows them.
pub proof fn lemma_authority_action(
    a: AuthorityAction,
    x: Seq<u128>,
    b: AuthorityAction,
    y: Seq<u128>,
)
    requires
        a.words() + x == b.words() + y,
    ensures
        same_authority_action(a, b),
        x == y,
{
    let p = a.words() + x;
    let q = b.words() + y;
    assert(p[0] == a.words()[0] && q[0] == b.words()[0]);
    match (a, b) {
        (
            AuthorityAction::PrepareTarget { source_incarnation: i, source_epoch: e, target: s },
            AuthorityAction::PrepareTarget { source_incarnation: j, source_epoch: f, target: t },
        ) => {
            let u = seq![0u128, i, e as u128];
            let v = seq![0u128, j, f as u128];
            lemma_after(u, s.words(), x);
            lemma_after(v, t.words(), y);
            lemma_words(u, s.words() + x, v, t.words() + y);
            assert(u[1] == v[1] && u[2] == v[2]);
            lemma_recovery_target(s, x, t, y);
        },
        (
            AuthorityAction::StopTarget { source_incarnation: i, source_epoch: e, target: s },
            AuthorityAction::StopTarget { source_incarnation: j, source_epoch: f, target: t },
        ) => {
            let u = seq![1u128, i, e as u128];
            let v = seq![1u128, j, f as u128];
            lemma_after(u, s.words(), x);
            lemma_after(v, t.words(), y);
            lemma_words(u, s.words() + x, v, t.words() + y);
            assert(u[1] == v[1] && u[2] == v[2]);
            lemma_recovery_target(s, x, t, y);
        },
        (
            AuthorityAction::Fence { incarnation: i, authority_epoch: e },
            AuthorityAction::Fence { incarnation: j, authority_epoch: f },
        ) => {
            let u = seq![2u128, i, e as u128];
            let v = seq![2u128, j, f as u128];
            lemma_words(u, x, v, y);
            assert(u[1] == v[1] && u[2] == v[2]);
        },
        (AuthorityAction::ActivateCommitted(s), AuthorityAction::ActivateCommitted(t)) => {
            lemma_after(seq![3u128], s@.words(), x);
            lemma_after(seq![3u128], t@.words(), y);
            lemma_words(seq![3u128], s@.words() + x, seq![3u128], t@.words() + y);
            lemma_activation(s@, x, t@, y);
        },
        (
            AuthorityAction::StopActivation { original: s },
            AuthorityAction::StopActivation { original: t },
        ) => {
            lemma_after(seq![4u128], s@.words(), x);
            lemma_after(seq![4u128], t@.words(), y);
            lemma_words(seq![4u128], s@.words() + x, seq![4u128], t@.words() + y);
            lemma_activate_command(s@, x, t@, y);
        },
        _ => {},
    }
}

/// Whether two of them are one, but for what is only proved of them.
pub open spec fn same_authority_command(a: AuthorityCommand, b: AuthorityCommand) -> bool {
    &&& a.tenant == b.tenant
    &&& a.command_id == b.command_id
    &&& a.expected_policy_epoch == b.expected_policy_epoch
    &&& a.not_after_ms == b.not_after_ms
    &&& same_authority_action(a.action, b.action)
}

/// An issuer command is known from its words, whatever follows them.
pub proof fn lemma_authority_command(
    a: AuthorityCommand,
    x: Seq<u128>,
    b: AuthorityCommand,
    y: Seq<u128>,
)
    requires
        a.words() + x == b.words() + y,
    ensures
        same_authority_command(a, b),
        x == y,
{
    let a0 = a.tenant.words();
    let a1 = seq![a.command_id, a.expected_policy_epoch as u128, a.not_after_ms as u128];
    let a2 = a.action.words();
    let x1 = a2 + x;
    let x0 = a1 + x1;
    lemma_after(a0 + a1, a2, x);
    lemma_after(a0, a1, x1);
    let b0 = b.tenant.words();
    let b1 = seq![b.command_id, b.expected_policy_epoch as u128, b.not_after_ms as u128];
    let b2 = b.action.words();
    let y1 = b2 + y;
    let y0 = b1 + y1;
    lemma_after(b0 + b1, b2, y);
    lemma_after(b0, b1, y1);
    lemma_name(a.tenant, x0, b.tenant, y0);
    lemma_words(a1, x1, b1, y1);
    assert(a1[0] == b1[0] && a1[1] == b1[1] && a1[2] == b1[2]);
    lemma_authority_action(a.action, x, b.action, y);
}

/// An accepted intent is known from its words, whatever follows them.
pub proof fn lemma_accepted_intent(a: AcceptedIntent, x: Seq<u128>, b: AcceptedIntent, y: Seq<u128>)
    requires
        a.words() + x == b.words() + y,
    ensures
        a == b,
        x == y,
{
    let a0 = a.intent.words();
    let a1 = seq![a.control_incarnation];
    let a2 = a.public_key.words();
    let a3 = a.partition.words();
    let a4 = a.partitions_sha256.words();
    let x3 = a4 + x;
    let x2 = a3 + x3;
    let x1 = a2 + x2;
    let x0 = a1 + x1;
    lemma_after(a0 + a1 + a2 + a3, a4, x);
    lemma_after(a0 + a1 + a2, a3, x3);
    lemma_after(a0 + a1, a2, x2);
    lemma_after(a0, a1, x1);
    let b0 = b.intent.words();
    let b1 = seq![b.control_incarnation];
    let b2 = b.public_key.words();
    let b3 = b.partition.words();
    let b4 = b.partitions_sha256.words();
    let y3 = b4 + y;
    let y2 = b3 + y3;
    let y1 = b2 + y2;
    let y0 = b1 + y1;
    lemma_after(b0 + b1 + b2 + b3, b4, y);
    lemma_after(b0 + b1 + b2, b3, y3);
    lemma_after(b0 + b1, b2, y2);
    lemma_after(b0, b1, y1);
    lemma_lifecycle_intent(a.intent, x0, b.intent, y0);
    lemma_words(a1, x1, b1, y1);
    assert(a1[0] == b1[0]);
    lemma_digest(a.public_key, x2, b.public_key, y2);
    lemma_partition(a.partition, x3, b.partition, y3);
    lemma_digest(a.partitions_sha256, x, b.partitions_sha256, y);
}

} // verus!
