//! The installed signer of committed control observations.
use ring::signature::KeyPair as _;
use vstd::prelude::*;

use crate::digest::{Digest, Name};
use crate::errors;
use crate::errors::{error, Error, ErrorCode};
use crate::hex_text;
use crate::lifecycle_model::{CommittedChange, CommittedIntent};
use crate::model::{Installation, LifecycleIntent, Partition, PolicyChange};
use crate::recovery_lookup::partition_named;
use crate::rules;
use crate::views::InstallationView;

verus! {

/// The two halves of the public key of the key pair that a PKCS#8 document
/// holds, as `ring` reads it, if it holds one.
pub uninterp spec fn ed25519_public_key(pkcs8: Seq<u8>) -> Option<(u128, u128)>;

/// The Ed25519 signature of a message under the key pair of a PKCS#8 document,
/// as `ring` computes it, if the document holds one.
pub uninterp spec fn ed25519_signature(pkcs8: Seq<u8>, message: Seq<u8>) -> Option<Seq<u8>>;

/// `ring::signature::Ed25519KeyPair::from_pkcs8` and `public_key`: whether the
/// document holds a consistent key pair, and the halves of its thirty-two byte
/// public key, big end first. Both depend on the document alone.
#[verifier::external_body]
fn public_key(pkcs8: &[u8]) -> (key: Option<(u128, u128)>)
    ensures
        key == ed25519_public_key(pkcs8@),
{
    let pair = ring::signature::Ed25519KeyPair::from_pkcs8(pkcs8).ok()?;
    let bytes: [u8; 32] = pair.public_key().as_ref().try_into().ok()?;
    let mut high = [0u8; 16];
    let mut low = [0u8; 16];
    high.copy_from_slice(&bytes[..16]);
    low.copy_from_slice(&bytes[16..]);
    Some((u128::from_be_bytes(high), u128::from_be_bytes(low)))
}

/// `ring::signature::Ed25519KeyPair::from_pkcs8` and `sign`: the signature of the
/// message, which depends on the document and the message alone. There is one for
/// every document that holds a key pair.
#[verifier::external_body]
fn signature(pkcs8: &[u8], message: &[u8]) -> (signature: Option<Vec<u8>>)
    ensures
        match signature {
            None => ed25519_signature(pkcs8@, message@) is None,
            Some(bytes) => ed25519_signature(pkcs8@, message@) == Some(bytes@),
        },
        signature is Some == ed25519_public_key(pkcs8@) is Some,
{
    let pair = ring::signature::Ed25519KeyPair::from_pkcs8(pkcs8).ok()?;
    Some(pair.sign(message).as_ref().to_vec())
}

/// The pinned root that control commitments are signed under.
#[derive(Clone, Copy, Debug, PartialEq, Eq, Structural)]
pub struct SigningRoot {
    pub control_incarnation: u128,
    pub public_key: Digest,
}

#[derive(Clone, Copy, Debug, PartialEq, Eq, Structural)]
pub enum SignerError {
    /// The form of the root is refused.
    InvalidRoot,
    /// The document holds no consistent key pair.
    InvalidSigner,
    /// The key pair is not the one that the root pins.
    IdentityDiffers,
}

/// What a signed intent commits to.
#[derive(Clone, Copy, Debug)]
pub struct IntentCommitment {
    pub intent: LifecycleIntent,
    pub root: SigningRoot,
    pub authority_partition: Partition,
    pub partition_set_sha256: Digest,
    pub observed_policy_epoch: u64,
    pub observed_revision: u64,
    pub observed_term: u64,
}

/// What a signed change commits one partition to stop for.
#[derive(Clone, Copy, Debug)]
pub struct ChangeCommitment {
    pub root: SigningRoot,
    pub change: PolicyChange,
    pub partition: Partition,
    pub accepted_revision: u64,
    pub observed_policy_epoch: u64,
    pub observed_revision: u64,
    pub observed_term: u64,
}

/// A committed intent under the root's signature.
#[derive(Clone, Debug)]
pub struct SignedIntent {
    pub observation: IntentCommitment,
    pub signature: String,
}

/// A committed change under the root's signature.
#[derive(Clone, Debug)]
pub struct SignedChange {
    pub observation: ChangeCommitment,
    pub signature: String,
}

pub open spec fn unencoded() -> Error {
    errors::refusal(ErrorCode::Corruption, "lifecycle control encoding failed")
}

/// What a commitment is signed as: nothing where its observation was not released
/// before, where it does not encode, or where the observation is not released behind
/// the signature.
pub open spec fn signed_of<C>(
    released: Result<(), Error>,
    commitment: Result<C, Error>,
    encoded: bool,
    released_behind: Result<(), Error>,
) -> Result<C, Error> {
    match released {
        Err(e) => Err(e),
        Ok(()) => match commitment {
            Err(e) => Err(e),
            Ok(observation) => if !encoded {
                Err(unencoded())
            } else {
                match released_behind {
                    Err(e) => Err(e),
                    Ok(()) => Ok(observation),
                }
            },
        },
    }
}

/// A signature is of what was observed, under the installation it was observed in.
pub open spec fn another_installation() -> Error {
    errors::refusal(ErrorCode::Conflict, "observed lifecycle installation differs")
}

/// What stands in front of an encoded intent in the message that is signed.
pub const INTENT_TAG: &'static str = "[\"kasumi.committed-control-intent.v1\",";

/// What stands in front of an encoded change in the message that is signed.
pub const CHANGE_TAG: &'static str = "[\"kasumi.committed-control-change.v1\",";

/// The message that is signed: the pair of the domain and the encoded commitment, as a
/// JSON array.
pub open spec fn tagged(tag: Seq<char>, encoded: Seq<u8>) -> Seq<u8> {
    (vstd::utf8::encode_utf8(tag) + encoded).push(93u8)
}

fn message_of(tag: &str, encoded: &[u8]) -> (message: Vec<u8>)
    ensures
        message@ == tagged(tag@, encoded@),
{
    let mut message: Vec<u8> = Vec::new();
    message.extend_from_slice(tag.as_bytes());
    message.extend_from_slice(encoded);
    message.push(93);
    assert(message@ =~= tagged(tag@, encoded@));
    message
}

/// No message is signed for both domains: the signature of an intent is of no change,
/// whatever the two are encoded as.
pub proof fn lemma_domains_differ(intent: Seq<u8>, change: Seq<u8>)
    ensures
        tagged(INTENT_TAG@, intent) != tagged(CHANGE_TAG@, change),
{
    reveal_strlit("[\"kasumi.committed-control-intent.v1\",");
    reveal_strlit("[\"kasumi.committed-control-change.v1\",");
    vstd::utf8::is_ascii_chars_encode_utf8(INTENT_TAG@);
    vstd::utf8::is_ascii_chars_encode_utf8(CHANGE_TAG@);
    assert(tagged(INTENT_TAG@, intent)[27] == 105);
    assert(tagged(CHANGE_TAG@, change)[27] == 99);
}

pub open spec fn installed_root(installation: InstallationView) -> SigningRoot {
    SigningRoot {
        control_incarnation: installation.control_incarnation,
        public_key: installation.public_key,
    }
}

/// What an observed intent is signed as, under the root.
pub open spec fn intent_commitment_of(
    root: SigningRoot,
    observed: CommittedIntent,
    installation: InstallationView,
) -> Result<IntentCommitment, Error> {
    if installation.sha256 != observed.installation_sha256 {
        Err(another_installation())
    } else if root != installed_root(installation) {
        Err(errors::refusal(ErrorCode::Forbidden, "installed lifecycle signer differs"))
    } else {
        match rules::partition_named(
            installation.partitions,
            observed.intent.request.authority_partition,
            0,
        ) {
            None => Err(
                errors::refusal(ErrorCode::Corruption, "installed lifecycle partition absent"),
            ),
            Some(partition) => Ok(
                IntentCommitment {
                    intent: observed.intent,
                    root,
                    authority_partition: partition,
                    partition_set_sha256: installation.partitions_sha256,
                    observed_policy_epoch: observed.observed_policy_epoch,
                    observed_revision: observed.observed_revision,
                    observed_term: observed.observed_term,
                },
            ),
        }
    }
}

/// What an observed change is signed as for a partition, under the root.
pub open spec fn change_commitment_of(
    root: SigningRoot,
    observed: CommittedChange,
    installation: InstallationView,
    name: Name,
) -> Result<ChangeCommitment, Error> {
    if installation.sha256 != observed.change.installation_sha256 {
        Err(another_installation())
    } else if root != installed_root(installation) {
        Err(errors::refusal(ErrorCode::Forbidden, "installed lifecycle signer differs"))
    } else {
        match rules::partition_named(installation.partitions, name, 0) {
            None => Err(
                errors::refusal(
                    ErrorCode::InvalidArgument,
                    "authority partition is outside the pinned control change",
                ),
            ),
            Some(partition) => Ok(
                ChangeCommitment {
                    root,
                    change: observed.change,
                    partition,
                    accepted_revision: observed.change.accepted_revision,
                    observed_policy_epoch: observed.observed_policy_epoch,
                    observed_revision: observed.observed_revision,
                    observed_term: observed.observed_term,
                },
            ),
        }
    }
}

/// The key pair that a root pins, which signs committed observations.
pub struct LifecycleSigner {
    root: SigningRoot,
    pkcs8: Vec<u8>,
}

impl LifecycleSigner {
    /// The document's key pair is the one that the root pins.
    #[verifier::type_invariant]
    spec fn pinned(self) -> bool {
        ed25519_public_key(self.pkcs8@) == Some(
            (self.root.public_key.high, self.root.public_key.low),
        )
    }

    pub closed spec fn pinned_root(self) -> SigningRoot {
        self.root
    }

    pub closed spec fn document(self) -> Seq<u8> {
        self.pkcs8@
    }

    /// A signer of the document's key pair, if the root's form is not refused and that
    /// is the one that the root pins.
    pub fn from_pkcs8(root: SigningRoot, root_refused: bool, pkcs8: Vec<u8>) -> (r: Result<
        Self,
        SignerError,
    >)
        ensures
            if root_refused {
                r == Err::<Self, SignerError>(SignerError::InvalidRoot)
            } else {
                match ed25519_public_key(pkcs8@) {
                    None => r == Err::<Self, SignerError>(SignerError::InvalidSigner),
                    Some((high, low)) => if root.public_key != (Digest { high, low }) {
                        r == Err::<Self, SignerError>(SignerError::IdentityDiffers)
                    } else {
                        r is Ok && r->Ok_0.pinned_root() == root && r->Ok_0.document() == pkcs8@
                    },
                }
            },
    {
        if root_refused {
            return Err(SignerError::InvalidRoot);
        }
        match public_key(&pkcs8) {
            None => Err(SignerError::InvalidSigner),
            Some((high, low)) => {
                let actual = Digest { high, low };
                if root.public_key != actual {
                    return Err(SignerError::IdentityDiffers);
                }
                Ok(LifecycleSigner { root, pkcs8 })
            },
        }
    }

    pub fn root(&self) -> (root: SigningRoot)
        ensures
            root == self.pinned_root(),
    {
        self.root
    }

    /// What an observed intent is signed as.
    pub fn intent_commitment(
        &self,
        observed: &CommittedIntent,
        installation: &Installation,
    ) -> (r: Result<IntentCommitment, Error>)
        ensures
            r == intent_commitment_of(self.pinned_root(), *observed, installation@),
    {
        if installation.sha256 != observed.installation_sha256 {
            return Err(error(ErrorCode::Conflict, "observed lifecycle installation differs"));
        }
        let installed = SigningRoot {
            control_incarnation: installation.control_incarnation,
            public_key: installation.public_key,
        };
        if self.root != installed {
            return Err(error(ErrorCode::Forbidden, "installed lifecycle signer differs"));
        }
        match partition_named(
            &installation.partitions,
            observed.intent.request.authority_partition,
        ) {
            None => Err(error(ErrorCode::Corruption, "installed lifecycle partition absent")),
            Some(partition) => Ok(
                IntentCommitment {
                    intent: observed.intent,
                    root: self.root,
                    authority_partition: partition,
                    partition_set_sha256: installation.partitions_sha256,
                    observed_policy_epoch: observed.observed_policy_epoch,
                    observed_revision: observed.observed_revision,
                    observed_term: observed.observed_term,
                },
            ),
        }
    }

    /// What an observed change is signed as for a partition.
    pub fn change_commitment(
        &self,
        observed: &CommittedChange,
        installation: &Installation,
        name: Name,
    ) -> (r: Result<ChangeCommitment, Error>)
        ensures
            r == change_commitment_of(self.pinned_root(), *observed, installation@, name),
    {
        if installation.sha256 != observed.change.installation_sha256 {
            return Err(error(ErrorCode::Conflict, "observed lifecycle installation differs"));
        }
        let installed = SigningRoot {
            control_incarnation: installation.control_incarnation,
            public_key: installation.public_key,
        };
        if self.root != installed {
            return Err(error(ErrorCode::Forbidden, "installed lifecycle signer differs"));
        }
        match partition_named(&installation.partitions, name) {
            None => Err(
                error(
                    ErrorCode::InvalidArgument,
                    "authority partition is outside the pinned control change",
                ),
            ),
            Some(partition) => Ok(
                ChangeCommitment {
                    root: self.root,
                    change: observed.change,
                    partition,
                    accepted_revision: observed.change.accepted_revision,
                    observed_policy_epoch: observed.observed_policy_epoch,
                    observed_revision: observed.observed_revision,
                    observed_term: observed.observed_term,
                },
            ),
        }
    }

    /// Signs an observed intent. What is signed is its domain with the commitment's
    /// encoding, if it has one; the observation is released in front of the signature and
    /// behind it.
    pub fn sign_intent(
        &self,
        released: Result<(), Error>,
        observed: &CommittedIntent,
        installation: &Installation,
        encoded: Option<&[u8]>,
        released_behind: Result<(), Error>,
    ) -> (r: Result<SignedIntent, Error>)
        ensures
            match signed_of(
                released,
                intent_commitment_of(self.pinned_root(), *observed, installation@),
                encoded is Some,
                released_behind,
            ) {
                Err(e) => r == Err::<SignedIntent, Error>(e),
                Ok(observation) => {
                    &&& r is Ok
                    &&& r->Ok_0.observation == observation
                    &&& ed25519_signature(
                        self.document(),
                        tagged(INTENT_TAG@, encoded->0@),
                    ) is Some
                    &&& r->Ok_0.signature@ == hex_text::hex_text(
                        ed25519_signature(
                        self.document(),
                        tagged(INTENT_TAG@, encoded->0@),
                    )->0,
                    )
                },
            },
    {
        released?;
        let observation = self.intent_commitment(observed, installation)?;
        match encoded {
            None => Err(error(ErrorCode::Corruption, "lifecycle control encoding failed")),
            Some(encoded) => {
                let message = message_of(INTENT_TAG, encoded);
                let signature = self.sign(&message);
                released_behind?;
                Ok(SignedIntent { observation, signature })
            },
        }
    }

    /// Signs an observed change for a partition. What is signed is its domain with
    /// the encoding of the partition's stop, if it has one; the observation is released in
    /// front of the signature and behind it.
    pub fn sign_change(
        &self,
        released: Result<(), Error>,
        observed: &CommittedChange,
        installation: &Installation,
        name: Name,
        encoded: Option<&[u8]>,
        released_behind: Result<(), Error>,
    ) -> (r: Result<SignedChange, Error>)
        ensures
            match signed_of(
                released,
                change_commitment_of(self.pinned_root(), *observed, installation@, name),
                encoded is Some,
                released_behind,
            ) {
                Err(e) => r == Err::<SignedChange, Error>(e),
                Ok(observation) => {
                    &&& r is Ok
                    &&& r->Ok_0.observation == observation
                    &&& ed25519_signature(
                        self.document(),
                        tagged(CHANGE_TAG@, encoded->0@),
                    ) is Some
                    &&& r->Ok_0.signature@ == hex_text::hex_text(
                        ed25519_signature(
                        self.document(),
                        tagged(CHANGE_TAG@, encoded->0@),
                    )->0,
                    )
                },
            },
    {
        released?;
        let observation = self.change_commitment(observed, installation, name)?;
        match encoded {
            None => Err(error(ErrorCode::Corruption, "lifecycle control encoding failed")),
            Some(encoded) => {
                let message = message_of(CHANGE_TAG, encoded);
                let signature = self.sign(&message);
                released_behind?;
                Ok(SignedChange { observation, signature })
            },
        }
    }

    /// The signature of an encoded commitment, in hexadecimal digits.
    fn sign(&self, message: &[u8]) -> (text: String)
        ensures
            ed25519_signature(self.document(), message@) is Some,
            text@ == hex_text::hex_text(ed25519_signature(self.document(), message@)->0),
    {
        proof {
            use_type_invariant(self);
        }
        match signature(&self.pkcs8, message) {
            Some(bytes) => hex_text::encode(&bytes),
            None => {
                assert(false);
                String::new()
            },
        }
    }
}

} // verus!
