//! The errors of verification.

use vstd::prelude::*;

verus! {

/// Why a verification was refused.
///
/// Every failure is final: a verification that returns an error produces no
/// commitment, and nothing in this crate retries or recovers from one.
#[derive(Clone, Copy, Debug, PartialEq, Eq, Structural)]
pub enum Error {
    /// The input bytes are not the canonical encoding of the expected value.
    DeserializationError,
    /// A proof whose shape does not fit the claim it is checked against.
    MalformedProof,
    /// A sparse Merkle proof without siblings.
    EmptyProof,
    /// The root recomputed from a proof differs from the expected root.
    RootMismatch,
    /// The valid signatures do not carry more than two thirds of the voting power.
    InvalidQuorum,
    /// A signature names a key that is not in the committee.
    UnknownSigner,
    /// Two valid signatures were made by the same committee member.
    DuplicateSigner,
    /// A ledger header in an epoch change proof declares no next committee,
    /// or the proof holds no header at all.
    MissingNextEpochState,
    /// The transaction record carries no state checkpoint hash.
    StateCheckpointMissing,
    /// A trusted state or a state change of the wrong variant was supplied.
    UnexpectedTrustedStateVariant,
}

/// The step of a program at which it stopped.
#[derive(Clone, Copy, Debug, PartialEq, Eq, Structural)]
pub enum Step {
    /// Decoding the trusted state.
    TrustedStateDecoding,
    /// Decoding the epoch change proof.
    EpochChangeProofDecoding,
    /// Ratcheting the trusted state along the epoch change proof.
    Ratchet,
    /// Decoding the committee.
    CommitteeDecoding,
    /// Decoding the transaction record.
    TransactionDecoding,
    /// Decoding the accumulator proof.
    TransactionProofDecoding,
    /// Decoding the signed ledger header.
    LedgerInfoDecoding,
    /// Verifying the accumulator proof of the transaction.
    TransactionAccumulator,
    /// Verifying the signatures over the ledger header.
    LedgerSignatures,
    /// Decoding the sparse Merkle proof.
    SparseProofDecoding,
    /// Verifying the key and the value hash against the state checkpoint.
    StateInclusion,
}

/// Why and where a program stopped: the step that failed, and its error.
#[derive(Clone, Copy, Debug, PartialEq, Eq, Structural)]
pub struct Failure {
    pub step: Step,
    pub error: Error,
}

} // verus!
