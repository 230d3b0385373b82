//! The inclusion program: proves that a key is bound to a value in the
//! state that a committee has certified, and commits to what it has proved.

use vstd::prelude::*;
use crate::accumulator::accumulator_proof_decoding;
use crate::accumulator::accumulator_verdict;
use crate::accumulator::lemma_changed_proof_is_refused;
use crate::accumulator::paths_told_apart;
use crate::accumulator::check_root;
use crate::accumulator::root_verdict;
use crate::accumulator::TransactionAccumulatorProof;
use crate::committee::committee_decoding;
use crate::committee::committee_hash;
use crate::committee::signatures_verdict;
use crate::committee::ValidatorCommittee;
use crate::committee::ValidatorView;
use crate::digest::append_digest;
use crate::digest::Digest32;
use crate::encoding::bytes_to_vec;
use crate::encoding::u64_le;
use crate::encoding::write_u64;
use crate::epoch_change::buffers_view;
use crate::error::Error;
use crate::error::Failure;
use crate::error::Step;
use crate::ledger::ledger_info_signing_message;
use crate::ledger::ledger_info_with_signatures_decoding;
use crate::ledger::transaction_info_decoding;
use crate::ledger::transaction_info_hash;
use crate::ledger::LedgerInfoWithSignatures;
use crate::ledger::LedgerInfoWithSignaturesView;
use crate::ledger::TransactionInfo;
use crate::ledger::TransactionInfoView;
use crate::sparse::sparse_proof_decoding;
use crate::sparse::lemma_changed_path_leads_elsewhere;
use crate::sparse::sparse_leaf_hash;
use crate::sparse::sparse_paths_told_apart;
use crate::sparse::sparse_verdict;
use crate::sparse::SparseMerkleProof;
use crate::sparse::SparseMerkleProofView;

verus! {

/// What the assets of the sparse Merkle proof are to the contracts.
pub struct SparseMerkleProofAssetsView {
    pub sparse_merkle_proof: Seq<u8>,
    pub leaf_key: Seq<u8>,
    pub leaf_hash: Seq<u8>,
}

/// The part of the program's input that speaks of the state tree: the
/// encoded sparse Merkle proof, the key, and the hash of the value.
#[derive(Debug)]
pub struct SparseMerkleProofAssets {
    sparse_merkle_proof: Vec<u8>,
    leaf_key: [u8; 32],
    leaf_hash: [u8; 32],
}

impl View for SparseMerkleProofAssets {
    type V = SparseMerkleProofAssetsView;

    closed spec fn view(&self) -> SparseMerkleProofAssetsView {
        SparseMerkleProofAssetsView {
            sparse_merkle_proof: self.sparse_merkle_proof@,
            leaf_key: self.leaf_key@,
            leaf_hash: self.leaf_hash@,
        }
    }
}

impl Clone for SparseMerkleProofAssets {
    fn clone(&self) -> (c: Self)
        ensures
            c@ == self@,
    {
        SparseMerkleProofAssets {
            sparse_merkle_proof: bytes_to_vec(self.sparse_merkle_proof.as_slice()),
            leaf_key: self.leaf_key,
            leaf_hash: self.leaf_hash,
        }
    }
}

impl SparseMerkleProofAssets {
    /// The assets made of the given proof, key and value hash.
    pub fn new(sparse_merkle_proof: Vec<u8>, leaf_key: [u8; 32], leaf_hash: [u8; 32]) -> (a:
        SparseMerkleProofAssets)
        ensures
            a@.sparse_merkle_proof == sparse_merkle_proof@,
            a@.leaf_key == leaf_key@,
            a@.leaf_hash == leaf_hash@,
    {
        SparseMerkleProofAssets { sparse_merkle_proof, leaf_key, leaf_hash }
    }

    /// The encoded sparse Merkle proof.
    pub fn sparse_merkle_proof(&self) -> (v: &Vec<u8>)
        ensures
            v@ == self@.sparse_merkle_proof,
    {
        &self.sparse_merkle_proof
    }

    /// The key whose value is proved.
    pub fn leaf_key(&self) -> (k: &[u8; 32])
        ensures
            k@ == self@.leaf_key,
    {
        &self.leaf_key
    }

    /// The hash of the value stored under the key.
    pub fn leaf_hash(&self) -> (h: &[u8; 32])
        ensures
            h@ == self@.leaf_hash,
    {
        &self.leaf_hash
    }
}

/// What the assets of the transaction proof are to the contracts.
pub struct TransactionProofAssetsView {
    pub transaction: Seq<u8>,
    pub transaction_index: u64,
    pub transaction_proof: Seq<u8>,
    pub latest_li: Seq<u8>,
}

/// The part of the program's input that speaks of the transaction: the
/// encoded transaction record, its place in the accumulator, the encoded
/// accumulator proof, and the encoded signed ledger header.
#[derive(Debug)]
pub struct TransactionProofAssets {
    transaction: Vec<u8>,
    transaction_index: u64,
    transaction_proof: Vec<u8>,
    latest_li: Vec<u8>,
}

impl View for TransactionProofAssets {
    type V = TransactionProofAssetsView;

    closed spec fn view(&self) -> TransactionProofAssetsView {
        TransactionProofAssetsView {
            transaction: self.transaction@,
            transaction_index: self.transaction_index,
            transaction_proof: self.transaction_proof@,
            latest_li: self.latest_li@,
        }
    }
}

impl Clone for TransactionProofAssets {
    fn clone(&self) -> (c: Self)
        ensures
            c@ == self@,
    {
        TransactionProofAssets {
            transaction: bytes_to_vec(self.transaction.as_slice()),
            transaction_index: self.transaction_index,
            transaction_proof: bytes_to_vec(self.transaction_proof.as_slice()),
            latest_li: bytes_to_vec(self.latest_li.as_slice()),
        }
    }
}

impl TransactionProofAssets {
    /// The assets made of the given record, place, proof and header.
    pub fn new(
        transaction: Vec<u8>,
        transaction_index: u64,
        transaction_proof: Vec<u8>,
        latest_li: Vec<u8>,
    ) -> (a: TransactionProofAssets)
        ensures
            a@.transaction == transaction@,
            a@.transaction_index == transaction_index,
            a@.transaction_proof == transaction_proof@,
            a@.latest_li == latest_li@,
    {
        TransactionProofAssets { transaction, transaction_index, transaction_proof, latest_li }
    }

    /// The encoded transaction record.
    pub fn transaction(&self) -> (v: &Vec<u8>)
        ensures
            v@ == self@.transaction,
    {
        &self.transaction
    }

    /// The place of the transaction in the accumulator.
    pub fn transaction_index(&self) -> (i: &u64)
        ensures
            *i == self@.transaction_index,
    {
        &self.transaction_index
    }

    /// The encoded accumulator proof.
    pub fn transaction_proof(&self) -> (v: &Vec<u8>)
        ensures
            v@ == self@.transaction_proof,
    {
        &self.transaction_proof
    }

    /// The encoded signed ledger header.
    pub fn latest_li(&self) -> (v: &Vec<u8>)
        ensures
            v@ == self@.latest_li,
    {
        &self.latest_li
    }
}

/// The part of the program's input that speaks of the committee: the
/// encoded committee, which the caller has verified before.
#[derive(Debug)]
pub struct ValidatorVerifierAssets {
    validator_verifier: Vec<u8>,
}

impl View for ValidatorVerifierAssets {
    type V = Seq<u8>;

    closed spec fn view(&self) -> Seq<u8> {
        self.validator_verifier@
    }
}

impl Clone for ValidatorVerifierAssets {
    fn clone(&self) -> (c: Self)
        ensures
            c@ == self@,
    {
        ValidatorVerifierAssets {
            validator_verifier: bytes_to_vec(self.validator_verifier.as_slice()),
        }
    }
}

impl ValidatorVerifierAssets {
    /// The assets made of the given committee.
    pub fn new(validator_verifier: Vec<u8>) -> (a: ValidatorVerifierAssets)
        ensures
            a@ == validator_verifier@,
    {
        ValidatorVerifierAssets { validator_verifier }
    }

    /// The encoded committee.
    pub fn validator_verifier(&self) -> (v: &Vec<u8>)
        ensures
            v@ == self@,
    {
        &self.validator_verifier
    }
}

/// What the outcome of an inclusion proof is to the contracts.
pub struct InclusionOutputView {
    pub validator_verifier_hash: Seq<u8>,
    pub state_hash: Seq<u8>,
    pub block_hash: Seq<u8>,
    pub key: Seq<u8>,
    pub value: Seq<u8>,
}

/// What a verified inclusion commits to: the identity of the committee, the
/// root of the state tree that was recomputed, the identifier of the block
/// of the ledger header, the key, and the hash of its value.
#[derive(Clone, Copy, Debug)]
pub struct InclusionOutput {
    pub validator_verifier_hash: Digest32,
    pub state_hash: Digest32,
    pub block_hash: Digest32,
    pub key: Digest32,
    pub value: Digest32,
}

impl View for InclusionOutput {
    type V = InclusionOutputView;

    open spec fn view(&self) -> InclusionOutputView {
        InclusionOutputView {
            validator_verifier_hash: self.validator_verifier_hash@,
            state_hash: self.state_hash@,
            block_hash: self.block_hash@,
            key: self.key@,
            value: self.value@,
        }
    }
}

/// The verdict on the transaction: whether the hash of the record is at
/// place `transaction_index` of the accumulator whose root the ledger header
/// holds, and whether the signatures over the header satisfy the committee.
/// The accumulator is checked first.
pub open spec fn transaction_inclusion_verdict(
    committee: Seq<ValidatorView>,
    transaction: TransactionInfoView,
    transaction_index: nat,
    transaction_proof: Seq<Seq<u8>>,
    latest_li: LedgerInfoWithSignaturesView,
) -> Result<(), Error> {
    match accumulator_verdict(
        transaction_proof,
        latest_li.ledger_info.transaction_accumulator_hash,
        transaction_info_hash(transaction),
        transaction_index,
    ) {
        Err(e) => Err(e),
        Ok(_) => signatures_verdict(
            committee,
            ledger_info_signing_message(latest_li.ledger_info),
            latest_li.signatures,
        ),
    }
}

/// The verdict on the state: the root of the state tree that the sparse
/// proof leads to from the leaf that binds `key` to `value_hash`, where the
/// record holds a state checkpoint (`StateCheckpointMissing` where it holds
/// none) and that root is the checkpoint (`RootMismatch` where it is not).
pub open spec fn state_inclusion_verdict(
    transaction: TransactionInfoView,
    sparse_proof: SparseMerkleProofView,
    key: Seq<u8>,
    value_hash: Seq<u8>,
) -> Result<Seq<u8>, Error> {
    match transaction.state_checkpoint_hash {
        None => Err(Error::StateCheckpointMissing),
        Some(checkpoint) => match sparse_verdict(sparse_proof, key, value_hash) {
            Err(e) => Err(e),
            Ok(root) => match root_verdict(root, checkpoint) {
                Err(e) => Err(e),
                Ok(_) => Ok(root),
            },
        },
    }
}

/// What the inclusion pipeline gives.
///
/// The checks are made in this order, and the first that fails decides:
/// the accumulator proof, the signatures over the ledger header, the state
/// checkpoint of the record, the sparse proof. Only when all have passed is
/// there anything to commit to.
pub open spec fn inclusion_verdict(
    committee: Seq<ValidatorView>,
    transaction: TransactionInfoView,
    transaction_index: nat,
    transaction_proof: Seq<Seq<u8>>,
    latest_li: LedgerInfoWithSignaturesView,
    sparse_proof: SparseMerkleProofView,
    key: Seq<u8>,
    value_hash: Seq<u8>,
) -> Result<InclusionOutputView, Error> {
    match transaction_inclusion_verdict(
        committee,
        transaction,
        transaction_index,
        transaction_proof,
        latest_li,
    ) {
        Err(e) => Err(e),
        Ok(_) => match state_inclusion_verdict(transaction, sparse_proof, key, value_hash) {
            Err(e) => Err(e),
            Ok(root) => Ok(
                InclusionOutputView {
                    validator_verifier_hash: committee_hash(committee),
                    state_hash: root,
                    block_hash: latest_li.ledger_info.block_id,
                    key: key,
                    value: value_hash,
                },
            ),
        },
    }
}

/// What the inclusion program gives on its eight inputs.
///
/// The committee, the transaction record, the accumulator proof and the
/// signed ledger header are decoded first, in this order; then the
/// accumulator proof and the signatures are verified; then the sparse proof
/// is decoded, and the state is verified. Input that cannot be decoded
/// gives `DeserializationError` at the place where it is decoded. A failure
/// names the step that failed.
pub open spec fn inclusion_program(
    sparse_merkle_proof_bytes: Seq<u8>,
    key: Seq<u8>,
    leaf_value_hash: Seq<u8>,
    transaction_bytes: Seq<u8>,
    transaction_index: u64,
    transaction_proof_bytes: Seq<u8>,
    ledger_info_bytes: Seq<u8>,
    verified_committee_bytes: Seq<u8>,
) -> Result<InclusionOutputView, Failure> {
    if committee_decoding(verified_committee_bytes) is None {
        Err(Failure { step: Step::CommitteeDecoding, error: Error::DeserializationError })
    } else if transaction_info_decoding(transaction_bytes) is None {
        Err(Failure { step: Step::TransactionDecoding, error: Error::DeserializationError })
    } else if accumulator_proof_decoding(transaction_proof_bytes) is None {
        Err(Failure { step: Step::TransactionProofDecoding, error: Error::DeserializationError })
    } else if ledger_info_with_signatures_decoding(ledger_info_bytes) is None {
        Err(Failure { step: Step::LedgerInfoDecoding, error: Error::DeserializationError })
    } else {
        let committee = committee_decoding(verified_committee_bytes)->0;
        let transaction = transaction_info_decoding(transaction_bytes)->0;
        let transaction_proof = accumulator_proof_decoding(transaction_proof_bytes)->0;
        let latest_li = ledger_info_with_signatures_decoding(ledger_info_bytes)->0;
        match accumulator_verdict(
            transaction_proof,
            latest_li.ledger_info.transaction_accumulator_hash,
            transaction_info_hash(transaction),
            transaction_index as nat,
        ) {
            Err(error) => Err(Failure { step: Step::TransactionAccumulator, error }),
            Ok(_) => match signatures_verdict(
                committee,
                ledger_info_signing_message(latest_li.ledger_info),
                latest_li.signatures,
            ) {
                Err(error) => Err(Failure { step: Step::LedgerSignatures, error }),
                Ok(_) => match sparse_proof_decoding(sparse_merkle_proof_bytes) {
                    None => Err(
                        Failure {
                            step: Step::SparseProofDecoding,
                            error: Error::DeserializationError,
                        },
                    ),
                    Some(sparse_proof) => match state_inclusion_verdict(
                        transaction,
                        sparse_proof,
                        key,
                        leaf_value_hash,
                    ) {
                        Err(error) => Err(Failure { step: Step::StateInclusion, error }),
                        Ok(root) => Ok(
                            InclusionOutputView {
                                validator_verifier_hash: committee_hash(committee),
                                state_hash: root,
                                block_hash: latest_li.ledger_info.block_id,
                                key: key,
                                value: leaf_value_hash,
                            },
                        ),
                    },
                },
            },
        }
    }
}

/// The bytes that an inclusion proof makes public: five fields of 32 bytes
/// each, in the order in which they are declared.
pub open spec fn inclusion_public_values(out: InclusionOutputView) -> Seq<u8> {
    out.validator_verifier_hash + out.state_hash + out.block_hash + out.key + out.value
}

/// The input buffers of the inclusion program, in the order in which it
/// reads them. The key and the value hash are 32 bytes each, and the
/// transaction index is eight bytes, the lowest first.
pub open spec fn inclusion_stdin(
    sparse_merkle_proof: Seq<u8>,
    leaf_key: Seq<u8>,
    leaf_hash: Seq<u8>,
    transaction: Seq<u8>,
    transaction_index: u64,
    transaction_proof: Seq<u8>,
    latest_li: Seq<u8>,
    validator_verifier: Seq<u8>,
) -> Seq<Seq<u8>> {
    seq![
        sparse_merkle_proof,
        leaf_key,
        leaf_hash,
        transaction,
        u64_le(transaction_index),
        transaction_proof,
        latest_li,
        validator_verifier,
    ]
}

/// Checks that the transaction record is part of the ledger that the
/// signed header certifies, and that the header is signed by the committee.
pub fn verify_transaction_inclusion(
    committee: &ValidatorCommittee,
    transaction: &TransactionInfo,
    transaction_index: u64,
    transaction_proof: &TransactionAccumulatorProof,
    latest_li: &LedgerInfoWithSignatures,
) -> (r: Result<(), Error>)
    ensures
        r == transaction_inclusion_verdict(
            committee@,
            transaction@,
            transaction_index as nat,
            transaction_proof@,
            latest_li@,
        ),
{
    let transaction_hash = transaction.hash();
    let expected_root_hash = latest_li.ledger_info.transaction_accumulator_hash;
    match transaction_proof.verify(expected_root_hash, transaction_hash, transaction_index) {
        Err(e) => Err(e),
        Ok(_) => latest_li.verify_signatures(committee),
    }
}

/// Checks that `key` is bound to `value_hash` in the state tree whose root
/// the transaction record holds, and gives that root as it was recomputed.
pub fn verify_state_inclusion(
    transaction: &TransactionInfo,
    sparse_proof: &SparseMerkleProof,
    key: Digest32,
    value_hash: Digest32,
) -> (r: Result<Digest32, Error>)
    ensures
        match r {
            Ok(root) => state_inclusion_verdict(transaction@, sparse_proof@, key@, value_hash@)
                == Ok::<Seq<u8>, Error>(root@),
            Err(e) => state_inclusion_verdict(transaction@, sparse_proof@, key@, value_hash@)
                == Err::<Seq<u8>, Error>(e),
        },
{
    let checkpoint = match transaction.state_checkpoint() {
        None => {
            return Err(Error::StateCheckpointMissing);
        },
        Some(checkpoint) => checkpoint,
    };
    let root = match sparse_proof.verify_by_hash(checkpoint, key, value_hash) {
        Err(e) => {
            return Err(e);
        },
        Ok(root) => root,
    };
    match check_root(&root, &checkpoint) {
        Err(e) => Err(e),
        Ok(_) => Ok(root),
    }
}

/// Proves that a key is bound to a value in the state that a signed ledger
/// header certifies.
///
/// `committee` is trusted as it is given: the caller has it from an earlier
/// epoch change. On success the result holds its identity, so that the two
/// proofs can be chained.
pub fn verify_inclusion(
    committee: &ValidatorCommittee,
    transaction: &TransactionInfo,
    transaction_index: u64,
    transaction_proof: &TransactionAccumulatorProof,
    latest_li: &LedgerInfoWithSignatures,
    sparse_proof: &SparseMerkleProof,
    key: Digest32,
    value_hash: Digest32,
) -> (r: Result<InclusionOutput, Error>)
    ensures
        match r {
            Ok(out) => inclusion_verdict(
                committee@,
                transaction@,
                transaction_index as nat,
                transaction_proof@,
                latest_li@,
                sparse_proof@,
                key@,
                value_hash@,
            ) == Ok::<InclusionOutputView, Error>(out@),
            Err(e) => inclusion_verdict(
                committee@,
                transaction@,
                transaction_index as nat,
                transaction_proof@,
                latest_li@,
                sparse_proof@,
                key@,
                value_hash@,
            ) == Err::<InclusionOutputView, Error>(e),
        },
{
    match verify_transaction_inclusion(
        committee,
        transaction,
        transaction_index,
        transaction_proof,
        latest_li,
    ) {
        Err(e) => {
            return Err(e);
        },
        Ok(_) => {},
    }
    let root = match verify_state_inclusion(transaction, sparse_proof, key, value_hash) {
        Err(e) => {
            return Err(e);
        },
        Ok(root) => root,
    };
    Ok(
        InclusionOutput {
            validator_verifier_hash: committee.hash(),
            state_hash: root,
            block_hash: latest_li.ledger_info.block_id,
            key,
            value: value_hash,
        },
    )
}

/// The inclusion program: decodes its eight inputs and runs the inclusion
/// pipeline on them. What it returns on success is what the program commits
/// to; on any failure nothing is committed.
pub fn run(
    sparse_merkle_proof_bytes: &[u8],
    key: [u8; 32],
    leaf_value_hash: [u8; 32],
    transaction_bytes: &[u8],
    transaction_index: u64,
    transaction_proof_bytes: &[u8],
    ledger_info_bytes: &[u8],
    verified_committee_bytes: &[u8],
) -> (r: Result<InclusionOutput, Failure>)
    ensures
        match r {
            Ok(out) => inclusion_program(
                sparse_merkle_proof_bytes@,
                key@,
                leaf_value_hash@,
                transaction_bytes@,
                transaction_index,
                transaction_proof_bytes@,
                ledger_info_bytes@,
                verified_committee_bytes@,
            ) == Ok::<InclusionOutputView, Failure>(out@),
            Err(e) => inclusion_program(
                sparse_merkle_proof_bytes@,
                key@,
                leaf_value_hash@,
                transaction_bytes@,
                transaction_index,
                transaction_proof_bytes@,
                ledger_info_bytes@,
                verified_committee_bytes@,
            ) == Err::<InclusionOutputView, Failure>(e),
        },
{
    let committee = match ValidatorCommittee::from_bytes(verified_committee_bytes) {
        Err(error) => {
            return Err(Failure { step: Step::CommitteeDecoding, error });
        },
        Ok(committee) => committee,
    };
    let transaction = match TransactionInfo::from_bytes(transaction_bytes) {
        Err(error) => {
            return Err(Failure { step: Step::TransactionDecoding, error });
        },
        Ok(transaction) => transaction,
    };
    let transaction_proof = match TransactionAccumulatorProof::from_bytes(transaction_proof_bytes) {
        Err(error) => {
            return Err(Failure { step: Step::TransactionProofDecoding, error });
        },
        Ok(transaction_proof) => transaction_proof,
    };
    let latest_li = match LedgerInfoWithSignatures::from_bytes(ledger_info_bytes) {
        Err(error) => {
            return Err(Failure { step: Step::LedgerInfoDecoding, error });
        },
        Ok(latest_li) => latest_li,
    };
    let transaction_hash = transaction.hash();
    let expected_root_hash = latest_li.ledger_info.transaction_accumulator_hash;
    match transaction_proof.verify(expected_root_hash, transaction_hash, transaction_index) {
        Err(error) => {
            return Err(Failure { step: Step::TransactionAccumulator, error });
        },
        Ok(_) => {},
    }
    match latest_li.verify_signatures(&committee) {
        Err(error) => {
            return Err(Failure { step: Step::LedgerSignatures, error });
        },
        Ok(_) => {},
    }
    let sparse_proof = match SparseMerkleProof::from_bytes(sparse_merkle_proof_bytes) {
        Err(error) => {
            return Err(Failure { step: Step::SparseProofDecoding, error });
        },
        Ok(sparse_proof) => sparse_proof,
    };
    let key = Digest32::new(key);
    let value = Digest32::new(leaf_value_hash);
    let root = match verify_state_inclusion(&transaction, &sparse_proof, key, value) {
        Err(error) => {
            return Err(Failure { step: Step::StateInclusion, error });
        },
        Ok(root) => root,
    };
    Ok(
        InclusionOutput {
            validator_verifier_hash: committee.hash(),
            state_hash: root,
            block_hash: latest_li.ledger_info.block_id,
            key,
            value,
        },
    )
}

/// The field in which what a proof made public differs from what was
/// expected of it.
#[derive(Clone, Copy, Debug, PartialEq, Eq, Structural)]
pub enum OutputMismatch {
    ValidatorVerifierHash,
    StateHash,
    BlockHash,
    Key,
    Value,
}

/// The first field, in the order in which the fields are made public, in
/// which `found` differs from `expected`.
pub open spec fn first_mismatch(found: InclusionOutputView, expected: InclusionOutputView) -> Option<
    OutputMismatch,
> {
    if found.validator_verifier_hash != expected.validator_verifier_hash {
        Some(OutputMismatch::ValidatorVerifierHash)
    } else if found.state_hash != expected.state_hash {
        Some(OutputMismatch::StateHash)
    } else if found.block_hash != expected.block_hash {
        Some(OutputMismatch::BlockHash)
    } else if found.key != expected.key {
        Some(OutputMismatch::Key)
    } else if found.value != expected.value {
        Some(OutputMismatch::Value)
    } else {
        None
    }
}

/// What the inputs of the inclusion program and the state root that the
/// caller knows let one expect of the program's output: the identity of the
/// committee that the committee bytes decode to, that state root, the block
/// identifier of the signed header that the header bytes decode to, the key
/// and the value hash. There is nothing to expect where the committee or
/// the header cannot be decoded.
pub open spec fn expected_inclusion_output(
    key: Seq<u8>,
    leaf_value_hash: Seq<u8>,
    ledger_info_bytes: Seq<u8>,
    verified_committee_bytes: Seq<u8>,
    state_checkpoint_hash: Seq<u8>,
) -> Option<InclusionOutputView> {
    match (
        committee_decoding(verified_committee_bytes),
        ledger_info_with_signatures_decoding(ledger_info_bytes),
    ) {
        (Some(committee), Some(latest_li)) => Some(
            InclusionOutputView {
                validator_verifier_hash: committee_hash(committee),
                state_hash: state_checkpoint_hash,
                block_hash: latest_li.ledger_info.block_id,
                key: key,
                value: leaf_value_hash,
            },
        ),
        _ => None,
    }
}

/// Computes, outside the program, what its output must be on the given
/// assets, for the caller to hold the output of a proof against it.
pub fn expected_output(
    sparse_merkle_proof_assets: &SparseMerkleProofAssets,
    transaction_proof_assets: &TransactionProofAssets,
    validator_verifier_assets: &ValidatorVerifierAssets,
    state_checkpoint_hash: [u8; 32],
) -> (r: Result<InclusionOutput, Error>)
    ensures
        match r {
            Ok(out) => expected_inclusion_output(
                sparse_merkle_proof_assets@.leaf_key,
                sparse_merkle_proof_assets@.leaf_hash,
                transaction_proof_assets@.latest_li,
                validator_verifier_assets@,
                state_checkpoint_hash@,
            ) == Some(out@),
            Err(e) => e == Error::DeserializationError && expected_inclusion_output(
                sparse_merkle_proof_assets@.leaf_key,
                sparse_merkle_proof_assets@.leaf_hash,
                transaction_proof_assets@.latest_li,
                validator_verifier_assets@,
                state_checkpoint_hash@,
            ) is None,
        },
{
    let committee = match ValidatorCommittee::from_bytes(
        validator_verifier_assets.validator_verifier.as_slice(),
    ) {
        Err(e) => {
            return Err(e);
        },
        Ok(committee) => committee,
    };
    let latest_li = match LedgerInfoWithSignatures::from_bytes(
        transaction_proof_assets.latest_li.as_slice(),
    ) {
        Err(e) => {
            return Err(e);
        },
        Ok(latest_li) => latest_li,
    };
    Ok(
        InclusionOutput {
            validator_verifier_hash: committee.hash(),
            state_hash: Digest32::new(state_checkpoint_hash),
            block_hash: latest_li.ledger_info.block_id,
            key: Digest32::new(sparse_merkle_proof_assets.leaf_key),
            value: Digest32::new(sparse_merkle_proof_assets.leaf_hash),
        },
    )
}

impl InclusionOutput {
    /// Holds this output against what was expected: gives the first field
    /// in which the two differ, or nothing where they are the same.
    pub fn first_mismatch(&self, expected: &InclusionOutput) -> (r: Option<OutputMismatch>)
        ensures
            r == first_mismatch(self@, expected@),
    {
        if !(self.validator_verifier_hash == expected.validator_verifier_hash) {
            Some(OutputMismatch::ValidatorVerifierHash)
        } else if !(self.state_hash == expected.state_hash) {
            Some(OutputMismatch::StateHash)
        } else if !(self.block_hash == expected.block_hash) {
            Some(OutputMismatch::BlockHash)
        } else if !(self.key == expected.key) {
            Some(OutputMismatch::Key)
        } else if !(self.value == expected.value) {
            Some(OutputMismatch::Value)
        } else {
            None
        }
    }

    /// The bytes that the program makes public, in the order in which it
    /// commits them.
    pub fn to_public_values(&self) -> (bytes: Vec<u8>)
        ensures
            bytes@ == inclusion_public_values(self@),
            bytes@.len() == 160,
    {
        let mut buf: Vec<u8> = Vec::new();
        append_digest(&mut buf, &self.validator_verifier_hash);
        append_digest(&mut buf, &self.state_hash);
        append_digest(&mut buf, &self.block_hash);
        append_digest(&mut buf, &self.key);
        append_digest(&mut buf, &self.value);
        buf
    }

    /// Reads back what `to_public_values` wrote: `bytes` must be exactly
    /// 160 bytes long.
    pub fn from_public_values(bytes: &[u8]) -> (r: Option<InclusionOutput>)
        ensures
            r is Some <==> bytes@.len() == 160,
            r matches Some(out) ==> inclusion_public_values(out@) == bytes@,
    {
        if bytes.len() != 160 {
            return None;
        }
        let a = Digest32::from_slice(vstd::slice::slice_subrange(bytes, 0, 32));
        let b = Digest32::from_slice(vstd::slice::slice_subrange(bytes, 32, 64));
        let c = Digest32::from_slice(vstd::slice::slice_subrange(bytes, 64, 96));
        let d = Digest32::from_slice(vstd::slice::slice_subrange(bytes, 96, 128));
        let e = Digest32::from_slice(vstd::slice::slice_subrange(bytes, 128, 160));
        match (a, b, c, d, e) {
            (Some(validator_verifier_hash), Some(state_hash), Some(block_hash), Some(key), Some(value)) => {
                assert(bytes@ =~= bytes@.subrange(0, 32) + bytes@.subrange(32, 64)
                    + bytes@.subrange(64, 96) + bytes@.subrange(96, 128) + bytes@.subrange(
                    128,
                    160,
                ));
                Some(InclusionOutput { validator_verifier_hash, state_hash, block_hash, key, value })
            },
            _ => None,
        }
    }
}

/// Lays out the input of the inclusion program: one buffer for each value
/// that the program reads, in the order in which it reads them.
pub fn generate_stdin(
    sparse_merkle_proof_assets: &SparseMerkleProofAssets,
    transaction_proof_assets: &TransactionProofAssets,
    validator_verifier_assets: &ValidatorVerifierAssets,
) -> (stdin: Vec<Vec<u8>>)
    ensures
        buffers_view(stdin@) == inclusion_stdin(
            sparse_merkle_proof_assets@.sparse_merkle_proof,
            sparse_merkle_proof_assets@.leaf_key,
            sparse_merkle_proof_assets@.leaf_hash,
            transaction_proof_assets@.transaction,
            transaction_proof_assets@.transaction_index,
            transaction_proof_assets@.transaction_proof,
            transaction_proof_assets@.latest_li,
            validator_verifier_assets@,
        ),
{
    let mut stdin: Vec<Vec<u8>> = Vec::new();
    stdin.push(bytes_to_vec(sparse_merkle_proof_assets.sparse_merkle_proof.as_slice()));
    stdin.push(bytes_to_vec(sparse_merkle_proof_assets.leaf_key.as_slice()));
    stdin.push(bytes_to_vec(sparse_merkle_proof_assets.leaf_hash.as_slice()));
    stdin.push(bytes_to_vec(transaction_proof_assets.transaction.as_slice()));
    let mut index_bytes: Vec<u8> = Vec::new();
    write_u64(&mut index_bytes, transaction_proof_assets.transaction_index);
    assert(index_bytes@ =~= u64_le(transaction_proof_assets.transaction_index));
    stdin.push(index_bytes);
    stdin.push(bytes_to_vec(transaction_proof_assets.transaction_proof.as_slice()));
    stdin.push(bytes_to_vec(transaction_proof_assets.latest_li.as_slice()));
    stdin.push(bytes_to_vec(validator_verifier_assets.validator_verifier.as_slice()));
    assert(buffers_view(stdin@) =~= inclusion_stdin(
        sparse_merkle_proof_assets@.sparse_merkle_proof,
        sparse_merkle_proof_assets@.leaf_key,
        sparse_merkle_proof_assets@.leaf_hash,
        transaction_proof_assets@.transaction,
        transaction_proof_assets@.transaction_index,
        transaction_proof_assets@.transaction_proof,
        transaction_proof_assets@.latest_li,
        validator_verifier_assets@,
    ));
    stdin
}

/// The program runs the pipeline: on inputs that can all be decoded, it
/// commits to what the inclusion pipeline gives on the decoded values, and
/// fails where the pipeline fails, with the same error.
pub proof fn lemma_program_runs_the_pipeline(
    sparse_merkle_proof_bytes: Seq<u8>,
    key: Seq<u8>,
    leaf_value_hash: Seq<u8>,
    transaction_bytes: Seq<u8>,
    transaction_index: u64,
    transaction_proof_bytes: Seq<u8>,
    ledger_info_bytes: Seq<u8>,
    verified_committee_bytes: Seq<u8>,
)
    requires
        committee_decoding(verified_committee_bytes) is Some,
        transaction_info_decoding(transaction_bytes) is Some,
        accumulator_proof_decoding(transaction_proof_bytes) is Some,
        ledger_info_with_signatures_decoding(ledger_info_bytes) is Some,
        sparse_proof_decoding(sparse_merkle_proof_bytes) is Some,
    ensures
        match inclusion_verdict(
            committee_decoding(verified_committee_bytes)->0,
            transaction_info_decoding(transaction_bytes)->0,
            transaction_index as nat,
            accumulator_proof_decoding(transaction_proof_bytes)->0,
            ledger_info_with_signatures_decoding(ledger_info_bytes)->0,
            sparse_proof_decoding(sparse_merkle_proof_bytes)->0,
            key,
            leaf_value_hash,
        ) {
            Ok(out) => inclusion_program(
                sparse_merkle_proof_bytes,
                key,
                leaf_value_hash,
                transaction_bytes,
                transaction_index,
                transaction_proof_bytes,
                ledger_info_bytes,
                verified_committee_bytes,
            ) == Ok::<InclusionOutputView, Failure>(out),
            Err(error) => inclusion_program(
                sparse_merkle_proof_bytes,
                key,
                leaf_value_hash,
                transaction_bytes,
                transaction_index,
                transaction_proof_bytes,
                ledger_info_bytes,
                verified_committee_bytes,
            ) matches Err(failure) && failure.error == error,
        },
{
}

/// End to end: where the accumulator proof shows the record at its place
/// under the root of the ledger header, the signatures over the header
/// satisfy the committee, and the sparse proof leads from the leaf of `key`
/// and `value_hash` to the state checkpoint of the record, the pipeline
/// commits to the identity of the committee, that checkpoint, the block
/// identifier of the header, the key and the value hash, and makes them
/// public in this order.
pub proof fn lemma_inclusion_commits(
    committee: Seq<ValidatorView>,
    transaction: TransactionInfoView,
    transaction_index: nat,
    transaction_proof: Seq<Seq<u8>>,
    latest_li: LedgerInfoWithSignaturesView,
    sparse_proof: SparseMerkleProofView,
    key: Seq<u8>,
    value_hash: Seq<u8>,
    root: Seq<u8>,
)
    requires
        accumulator_verdict(
            transaction_proof,
            latest_li.ledger_info.transaction_accumulator_hash,
            transaction_info_hash(transaction),
            transaction_index,
        ) is Ok,
        signatures_verdict(
            committee,
            ledger_info_signing_message(latest_li.ledger_info),
            latest_li.signatures,
        ) is Ok,
        transaction.state_checkpoint_hash == Some(root),
        sparse_verdict(sparse_proof, key, value_hash) == Ok::<Seq<u8>, Error>(root),
    ensures
        inclusion_verdict(
            committee,
            transaction,
            transaction_index,
            transaction_proof,
            latest_li,
            sparse_proof,
            key,
            value_hash,
        ) matches Ok(out) && out.validator_verifier_hash == committee_hash(committee)
            && out.state_hash == root && out.block_hash == latest_li.ledger_info.block_id && out.key
            == key && out.value == value_hash && inclusion_public_values(out) == committee_hash(
            committee,
        ) + root + latest_li.ledger_info.block_id + key + value_hash,
{
}

/// There is no partial success: the pipeline commits only where each of its
/// checks passes on its own.
pub proof fn lemma_inclusion_needs_every_check(
    committee: Seq<ValidatorView>,
    transaction: TransactionInfoView,
    transaction_index: nat,
    transaction_proof: Seq<Seq<u8>>,
    latest_li: LedgerInfoWithSignaturesView,
    sparse_proof: SparseMerkleProofView,
    key: Seq<u8>,
    value_hash: Seq<u8>,
)
    requires
        inclusion_verdict(
            committee,
            transaction,
            transaction_index,
            transaction_proof,
            latest_li,
            sparse_proof,
            key,
            value_hash,
        ) is Ok,
    ensures
        accumulator_verdict(
            transaction_proof,
            latest_li.ledger_info.transaction_accumulator_hash,
            transaction_info_hash(transaction),
            transaction_index,
        ) is Ok,
        signatures_verdict(
            committee,
            ledger_info_signing_message(latest_li.ledger_info),
            latest_li.signatures,
        ) is Ok,
        transaction.state_checkpoint_hash is Some,
        sparse_verdict(sparse_proof, key, value_hash) == Ok::<Seq<u8>, Error>(
            transaction.state_checkpoint_hash->0,
        ),
{
}

/// An inclusion that is accepted for a key and a value hash is refused for
/// every other key and for every other value hash, all else being the same.
pub proof fn lemma_inclusion_binds_key_and_value(
    committee: Seq<ValidatorView>,
    transaction: TransactionInfoView,
    transaction_index: nat,
    transaction_proof: Seq<Seq<u8>>,
    latest_li: LedgerInfoWithSignaturesView,
    sparse_proof: SparseMerkleProofView,
    key: Seq<u8>,
    value_hash: Seq<u8>,
    other_key: Seq<u8>,
    other_value_hash: Seq<u8>,
)
    requires
        inclusion_verdict(
            committee,
            transaction,
            transaction_index,
            transaction_proof,
            latest_li,
            sparse_proof,
            key,
            value_hash,
        ) is Ok,
        other_key != key || other_value_hash != value_hash,
    ensures
        inclusion_verdict(
            committee,
            transaction,
            transaction_index,
            transaction_proof,
            latest_li,
            sparse_proof,
            other_key,
            other_value_hash,
        ) == Err::<InclusionOutputView, Error>(Error::MalformedProof),
{
}

/// An inclusion that is accepted for a transaction record is refused for
/// every record with another hash, all else being the same, unless the hash
/// fails to tell apart what is hashed on the way to the accumulator's root.
pub proof fn lemma_inclusion_binds_transaction(
    committee: Seq<ValidatorView>,
    transaction: TransactionInfoView,
    other_transaction: TransactionInfoView,
    transaction_index: nat,
    transaction_proof: Seq<Seq<u8>>,
    latest_li: LedgerInfoWithSignaturesView,
    sparse_proof: SparseMerkleProofView,
    key: Seq<u8>,
    value_hash: Seq<u8>,
)
    requires
        inclusion_verdict(
            committee,
            transaction,
            transaction_index,
            transaction_proof,
            latest_li,
            sparse_proof,
            key,
            value_hash,
        ) is Ok,
        transaction_info_hash(other_transaction) != transaction_info_hash(transaction),
        paths_told_apart(
            transaction_info_hash(transaction),
            transaction_proof,
            transaction_info_hash(other_transaction),
            transaction_proof,
            transaction_index,
        ),
    ensures
        inclusion_verdict(
            committee,
            other_transaction,
            transaction_index,
            transaction_proof,
            latest_li,
            sparse_proof,
            key,
            value_hash,
        ) == Err::<InclusionOutputView, Error>(Error::RootMismatch),
{
    lemma_changed_proof_is_refused(
        transaction_info_hash(transaction),
        transaction_proof,
        transaction_info_hash(other_transaction),
        transaction_proof,
        transaction_index,
        latest_li.ledger_info.transaction_accumulator_hash,
    );
}

/// An inclusion that is accepted with a sparse proof is refused with the
/// same leaf and other siblings of the same number, all else being the
/// same, unless the hash fails to tell apart what is hashed on the way to
/// the root of the state tree.
pub proof fn lemma_inclusion_binds_sparse_proof(
    committee: Seq<ValidatorView>,
    transaction: TransactionInfoView,
    transaction_index: nat,
    transaction_proof: Seq<Seq<u8>>,
    latest_li: LedgerInfoWithSignaturesView,
    sparse_proof: SparseMerkleProofView,
    other_siblings: Seq<Seq<u8>>,
    key: Seq<u8>,
    value_hash: Seq<u8>,
)
    requires
        inclusion_verdict(
            committee,
            transaction,
            transaction_index,
            transaction_proof,
            latest_li,
            sparse_proof,
            key,
            value_hash,
        ) is Ok,
        other_siblings.len() == sparse_proof.siblings.len(),
        other_siblings != sparse_proof.siblings,
        sparse_paths_told_apart(
            sparse_leaf_hash(key, value_hash),
            sparse_proof.siblings,
            sparse_leaf_hash(key, value_hash),
            other_siblings,
            key,
        ),
    ensures
        inclusion_verdict(
            committee,
            transaction,
            transaction_index,
            transaction_proof,
            latest_li,
            SparseMerkleProofView { leaf: sparse_proof.leaf, siblings: other_siblings },
            key,
            value_hash,
        ) == Err::<InclusionOutputView, Error>(Error::RootMismatch),
{
    lemma_changed_path_leads_elsewhere(
        sparse_leaf_hash(key, value_hash),
        sparse_proof.siblings,
        sparse_leaf_hash(key, value_hash),
        other_siblings,
        key,
    );
}

} // verus!
