use aptos_lc::accumulator::TransactionAccumulatorProof;
use aptos_lc::committee::SignatureEntry;
use aptos_lc::committee::ValidatorCommittee;
use aptos_lc::committee::ValidatorInfo;
use aptos_lc::digest::Digest32;
use aptos_lc::error::Error;
use aptos_lc::error::Failure;
use aptos_lc::error::Step;
use aptos_lc::inclusion::expected_output;
use aptos_lc::inclusion::generate_stdin;
use aptos_lc::inclusion::run;
use aptos_lc::inclusion::verify_inclusion;
use aptos_lc::inclusion::verify_state_inclusion;
use aptos_lc::inclusion::verify_transaction_inclusion;
use aptos_lc::inclusion::InclusionOutput;
use aptos_lc::inclusion::OutputMismatch;
use aptos_lc::inclusion::SparseMerkleProofAssets;
use aptos_lc::inclusion::TransactionProofAssets;
use aptos_lc::inclusion::ValidatorVerifierAssets;
use aptos_lc::ledger::LedgerInfo;
use aptos_lc::ledger::LedgerInfoWithSignatures;
use aptos_lc::ledger::TransactionInfo;
use aptos_lc::signature::PublicKey;
use aptos_lc::signature::Signature;
use aptos_lc::signature::SIGNATURE_DOMAIN;
use aptos_lc::sparse::SparseMerkleLeafNode;
use aptos_lc::sparse::SparseMerkleProof;
use tiny_keccak::Hasher;

fn sha3(parts: &[&[u8]]) -> [u8; 32] {
    let mut hasher = tiny_keccak::Sha3::v256();
    for part in parts {
        hasher.update(part);
    }
    let mut out = [0u8; 32];
    hasher.finalize(&mut out);
    out
}

fn literal(word: &[u8]) -> [u8; 32] {
    let mut out = [0u8; 32];
    out[..word.len()].copy_from_slice(word);
    out
}

fn secret_key(seed: u8) -> blst::min_pk::SecretKey {
    blst::min_pk::SecretKey::key_gen(&[seed; 32], &[]).unwrap()
}

fn public_key(seed: u8) -> PublicKey {
    PublicKey { bytes: secret_key(seed).sk_to_pk().to_bytes() }
}

fn sign(seed: u8, message: &[u8]) -> Signature {
    Signature { bytes: secret_key(seed).sign(message, SIGNATURE_DOMAIN.as_bytes(), &[]).to_bytes() }
}

fn committee(seeds: &[u8]) -> ValidatorCommittee {
    let validators =
        seeds.iter().map(|seed| ValidatorInfo { public_key: public_key(*seed), voting_power: 1 }).collect();
    ValidatorCommittee::new(validators).unwrap()
}

fn bit(key: &[u8; 32], i: usize) -> bool {
    (key[i / 8] >> (7 - i % 8)) & 1 == 1
}

fn sparse_subtree(entries: &[([u8; 32], [u8; 32])], depth: usize) -> [u8; 32] {
    if entries.is_empty() {
        return literal(b"SPARSE_MERKLE_PLACEHOLDER_HASH");
    }
    if entries.len() == 1 {
        let seed = sha3(&[b"APTOS::SparseMerkleLeafNode"]);
        return sha3(&[&seed, &entries[0].0, &entries[0].1]);
    }
    let left: Vec<_> = entries.iter().filter(|e| !bit(&e.0, depth)).copied().collect();
    let right: Vec<_> = entries.iter().filter(|e| bit(&e.0, depth)).copied().collect();
    let seed = sha3(&[b"APTOS::SparseMerkleInternal"]);
    sha3(&[&seed, &sparse_subtree(&left, depth + 1), &sparse_subtree(&right, depth + 1)])
}

fn sparse_siblings(entries: &[([u8; 32], [u8; 32])], key: &[u8; 32]) -> Vec<Digest32> {
    let mut under: Vec<_> = entries.to_vec();
    let mut siblings = Vec::new();
    let mut depth = 0;
    while under.len() > 1 {
        let (same, other): (Vec<_>, Vec<_>) =
            under.iter().partition(|e| bit(&e.0, depth) == bit(key, depth));
        siblings.push(Digest32::new(sparse_subtree(&other, depth + 1)));
        under = same;
        depth += 1;
    }
    siblings.reverse();
    siblings
}

fn accumulator_levels(leaves: &[[u8; 32]]) -> Vec<Vec<[u8; 32]>> {
    let placeholder = literal(b"ACCUMULATOR_PLACEHOLDER_HASH");
    let seed = sha3(&[b"APTOS::TransactionAccumulator"]);
    let mut levels = vec![leaves.to_vec()];
    while levels.last().unwrap().len() > 1 {
        let below = levels.last().unwrap();
        let mut level = Vec::new();
        for pair in below.chunks(2) {
            let right = if pair.len() == 2 { pair[1] } else { placeholder };
            level.push(sha3(&[&seed, &pair[0], &right]));
        }
        levels.push(level);
    }
    levels
}

fn accumulator_siblings(leaves: &[[u8; 32]], index: usize) -> Vec<Digest32> {
    let placeholder = literal(b"ACCUMULATOR_PLACEHOLDER_HASH");
    let levels = accumulator_levels(leaves);
    let mut siblings = Vec::new();
    let mut place = index;
    for level in &levels[..levels.len() - 1] {
        siblings.push(Digest32::new(level.get(place ^ 1).copied().unwrap_or(placeholder)));
        place /= 2;
    }
    siblings
}

struct World {
    committee: ValidatorCommittee,
    transaction: TransactionInfo,
    transaction_index: u64,
    transaction_proof: TransactionAccumulatorProof,
    latest_li: LedgerInfoWithSignatures,
    sparse_proof: SparseMerkleProof,
    key: [u8; 32],
    value_hash: [u8; 32],
    state_root: [u8; 32],
}

const SIGNERS: [u8; 4] = [1, 2, 3, 4];

fn world() -> World {
    let entries: Vec<([u8; 32], [u8; 32])> = (0..7u64)
        .map(|i| (sha3(&[b"key", &i.to_le_bytes()]), sha3(&[b"value", &i.to_le_bytes()])))
        .collect();
    let state_root = sparse_subtree(&entries, 0);
    let (key, value_hash) = entries[3];
    let leaf = SparseMerkleLeafNode::new(Digest32::new(key), Digest32::new(value_hash));
    let sparse_proof = SparseMerkleProof::new(Some(leaf), sparse_siblings(&entries, &key));

    let transaction_index = 5usize;
    let transactions: Vec<TransactionInfo> = (0..6u64)
        .map(|i| TransactionInfo {
            gas_used: 10 + i,
            success: true,
            transaction_hash: Digest32::new(sha3(&[b"txn", &i.to_le_bytes()])),
            event_root_hash: Digest32::new(sha3(&[b"events", &i.to_le_bytes()])),
            state_change_hash: Digest32::new(sha3(&[b"changes", &i.to_le_bytes()])),
            state_checkpoint_hash: if i == 5 { Some(Digest32::new(state_root)) } else { None },
        })
        .collect();
    let leaves: Vec<[u8; 32]> = transactions.iter().map(|t| t.hash().bytes).collect();
    let accumulator_root = accumulator_levels(&leaves).last().unwrap()[0];
    let transaction_proof =
        TransactionAccumulatorProof::new(accumulator_siblings(&leaves, transaction_index));

    let ledger_info = LedgerInfo {
        epoch: 9,
        version: 5,
        transaction_accumulator_hash: Digest32::new(accumulator_root),
        next_epoch_committee: None,
        block_id: Digest32::new(sha3(&[b"block"])),
    };
    let message = ledger_info.signing_message();
    let signatures = [1u8, 2, 4]
        .iter()
        .map(|seed| SignatureEntry { signer: public_key(*seed), signature: sign(*seed, &message) })
        .collect();
    World {
        committee: committee(&SIGNERS),
        transaction: transactions[transaction_index],
        transaction_index: transaction_index as u64,
        transaction_proof,
        latest_li: LedgerInfoWithSignatures { ledger_info, signatures },
        sparse_proof,
        key,
        value_hash,
        state_root,
    }
}

fn verify(w: &World) -> Result<InclusionOutput, Error> {
    verify_inclusion(
        &w.committee,
        &w.transaction,
        w.transaction_index,
        &w.transaction_proof,
        &w.latest_li,
        &w.sparse_proof,
        Digest32::new(w.key),
        Digest32::new(w.value_hash),
    )
}

fn run_on(w: &World) -> Result<InclusionOutput, Failure> {
    run(
        &w.sparse_proof.to_bytes(),
        w.key,
        w.value_hash,
        &w.transaction.to_bytes(),
        w.transaction_index,
        &w.transaction_proof.to_bytes(),
        &w.latest_li.to_bytes(),
        &w.committee.to_bytes(),
    )
}

#[test]
fn transaction_info_encoding_agrees_with_bcs() {
    let w = world();
    let t = w.transaction;
    let reference = (
        t.gas_used,
        t.success,
        t.transaction_hash.bytes,
        t.event_root_hash.bytes,
        t.state_change_hash.bytes,
        t.state_checkpoint_hash.map(|d| d.bytes),
    );
    assert_eq!(t.to_bytes(), bcs::to_bytes(&reference).unwrap());
    let mut preimage = sha3(&[b"APTOS::TransactionInfo"]).to_vec();
    preimage.extend_from_slice(&t.to_bytes());
    assert_eq!(t.hash().bytes, sha3(&[&preimage]));
}

#[test]
fn transaction_info_round_trips_through_bytes() {
    let w = world();
    for checkpoint in [None, Some(Digest32::new([8u8; 32]))] {
        let mut t = w.transaction;
        t.state_checkpoint_hash = checkpoint;
        t.success = checkpoint.is_none();
        let bytes = t.to_bytes();
        let back = TransactionInfo::from_bytes(&bytes).unwrap();
        assert_eq!(back.to_bytes(), bytes);
        assert_eq!(back.gas_used, t.gas_used);
        assert_eq!(back.success, t.success);
        assert_eq!(back.state_checkpoint(), checkpoint);
        assert_eq!(back.hash(), t.hash());
    }
}

#[test]
fn transaction_info_bytes_must_be_exact() {
    let bytes = world().transaction.to_bytes();
    assert_eq!(bytes.len(), 8 + 1 + 96 + 33);
    for cut in [0usize, 8, 9, 104, 105, 106, bytes.len() - 1] {
        assert_eq!(TransactionInfo::from_bytes(&bytes[..cut]).unwrap_err(), Error::DeserializationError);
    }
    let mut longer = bytes.clone();
    longer.push(0);
    assert_eq!(TransactionInfo::from_bytes(&longer).unwrap_err(), Error::DeserializationError);
    let mut bad_flag = bytes.clone();
    bad_flag[8] = 2;
    assert_eq!(TransactionInfo::from_bytes(&bad_flag).unwrap_err(), Error::DeserializationError);
    let mut bad_tag = bytes.clone();
    bad_tag[105] = 9;
    assert_eq!(TransactionInfo::from_bytes(&bad_tag).unwrap_err(), Error::DeserializationError);
}

#[test]
fn inclusion_commits_to_reference_values() {
    let w = world();
    let out = verify(&w).unwrap();
    assert_eq!(out.validator_verifier_hash, w.committee.hash());
    assert_eq!(out.state_hash.bytes, w.state_root);
    assert_eq!(out.block_hash.bytes, sha3(&[b"block"]));
    assert_eq!(out.key.bytes, w.key);
    assert_eq!(out.value.bytes, w.value_hash);
}

#[test]
fn inclusion_program_commits_to_reference_values() {
    let w = world();
    let out = run_on(&w).unwrap();
    let mut expected = w.committee.hash().to_vec();
    expected.extend_from_slice(&w.state_root);
    expected.extend_from_slice(&sha3(&[b"block"]));
    expected.extend_from_slice(&w.key);
    expected.extend_from_slice(&w.value_hash);
    assert_eq!(out.to_public_values(), expected);
}

#[test]
fn the_two_steps_pass_on_their_own() {
    let w = world();
    assert_eq!(
        verify_transaction_inclusion(
            &w.committee,
            &w.transaction,
            w.transaction_index,
            &w.transaction_proof,
            &w.latest_li
        ),
        Ok(())
    );
    let root = verify_state_inclusion(
        &w.transaction,
        &w.sparse_proof,
        Digest32::new(w.key),
        Digest32::new(w.value_hash),
    )
    .unwrap();
    assert_eq!(root.bytes, w.state_root);
}

#[test]
fn tampered_transaction_aborts() {
    let mut w = world();
    w.transaction.gas_used += 1;
    assert_eq!(verify(&w).unwrap_err(), Error::RootMismatch);
    assert_eq!(
        run_on(&w).unwrap_err(),
        Failure { step: Step::TransactionAccumulator, error: Error::RootMismatch }
    );
    let w = world();
    let mut bytes = w.transaction.to_bytes();
    bytes[20] ^= 0x04;
    let got = run(
        &w.sparse_proof.to_bytes(),
        w.key,
        w.value_hash,
        &bytes,
        w.transaction_index,
        &w.transaction_proof.to_bytes(),
        &w.latest_li.to_bytes(),
        &w.committee.to_bytes(),
    );
    assert_eq!(
        got.unwrap_err(),
        Failure { step: Step::TransactionAccumulator, error: Error::RootMismatch }
    );
}

#[test]
fn tampered_transaction_index_aborts() {
    let mut w = world();
    w.transaction_index = 4;
    assert_eq!(verify(&w).unwrap_err(), Error::RootMismatch);
    assert_eq!(
        run_on(&w).unwrap_err(),
        Failure { step: Step::TransactionAccumulator, error: Error::RootMismatch }
    );
    w.transaction_index = 8;
    assert_eq!(verify(&w).unwrap_err(), Error::MalformedProof);
    assert_eq!(
        run_on(&w).unwrap_err(),
        Failure { step: Step::TransactionAccumulator, error: Error::MalformedProof }
    );
}

#[test]
fn tampered_ledger_signatures_abort() {
    let mut w = world();
    w.latest_li.signatures[0].signature.bytes[10] ^= 1;
    assert_eq!(verify(&w).unwrap_err(), Error::InvalidQuorum);
    assert_eq!(
        run_on(&w).unwrap_err(),
        Failure { step: Step::LedgerSignatures, error: Error::InvalidQuorum }
    );
    let mut w = world();
    w.latest_li.signatures.pop();
    assert_eq!(verify(&w).unwrap_err(), Error::InvalidQuorum);
    let mut w = world();
    w.latest_li.signatures[1] = w.latest_li.signatures[0];
    assert_eq!(verify(&w).unwrap_err(), Error::DuplicateSigner);
    let mut w = world();
    w.latest_li.signatures[2].signer = public_key(77);
    assert_eq!(verify(&w).unwrap_err(), Error::UnknownSigner);
}

#[test]
fn tampered_ledger_header_aborts() {
    let mut w = world();
    w.latest_li.ledger_info.block_id.bytes[0] ^= 1;
    assert_eq!(verify(&w).unwrap_err(), Error::InvalidQuorum);
    let mut w = world();
    w.latest_li.ledger_info.transaction_accumulator_hash.bytes[0] ^= 1;
    assert_eq!(verify(&w).unwrap_err(), Error::RootMismatch);
}

#[test]
fn tampered_sparse_proof_aborts() {
    let mut w = world();
    w.sparse_proof.siblings[0].bytes[3] ^= 0x20;
    assert_eq!(verify(&w).unwrap_err(), Error::RootMismatch);
    assert_eq!(
        run_on(&w).unwrap_err(),
        Failure { step: Step::StateInclusion, error: Error::RootMismatch }
    );
    let mut w = world();
    w.sparse_proof.siblings.pop();
    assert_eq!(verify(&w).unwrap_err(), Error::RootMismatch);
    let mut w = world();
    w.sparse_proof.leaf = None;
    assert_eq!(verify(&w).unwrap_err(), Error::MalformedProof);
    let mut w = world();
    w.sparse_proof.siblings.clear();
    assert_eq!(verify(&w).unwrap_err(), Error::EmptyProof);
    assert_eq!(
        run_on(&w).unwrap_err(),
        Failure { step: Step::StateInclusion, error: Error::EmptyProof }
    );
}

#[test]
fn tampered_key_aborts() {
    let mut w = world();
    w.key[0] ^= 0x80;
    assert_eq!(verify(&w).unwrap_err(), Error::MalformedProof);
    assert_eq!(
        run_on(&w).unwrap_err(),
        Failure { step: Step::StateInclusion, error: Error::MalformedProof }
    );
}

#[test]
fn tampered_value_hash_aborts() {
    let mut w = world();
    w.value_hash[31] ^= 0x01;
    assert_eq!(verify(&w).unwrap_err(), Error::MalformedProof);
    assert_eq!(
        run_on(&w).unwrap_err(),
        Failure { step: Step::StateInclusion, error: Error::MalformedProof }
    );
}

#[test]
fn another_committee_aborts() {
    let mut w = world();
    w.committee = committee(&[5, 6, 7, 8]);
    assert_eq!(verify(&w).unwrap_err(), Error::UnknownSigner);
    assert_eq!(
        run_on(&w).unwrap_err(),
        Failure { step: Step::LedgerSignatures, error: Error::UnknownSigner }
    );
}

#[test]
fn record_without_checkpoint_aborts() {
    let mut w = world();
    w.transaction.state_checkpoint_hash = None;
    let leaf = w.transaction.hash();
    w.transaction_proof = TransactionAccumulatorProof::new(vec![]);
    w.transaction_index = 0;
    w.latest_li.ledger_info.transaction_accumulator_hash = leaf;
    let message = w.latest_li.ledger_info.signing_message();
    w.latest_li.signatures = SIGNERS
        .iter()
        .map(|seed| SignatureEntry { signer: public_key(*seed), signature: sign(*seed, &message) })
        .collect();
    assert_eq!(verify(&w).unwrap_err(), Error::StateCheckpointMissing);
    assert_eq!(
        run_on(&w).unwrap_err(),
        Failure { step: Step::StateInclusion, error: Error::StateCheckpointMissing }
    );
    assert_eq!(
        verify_state_inclusion(
            &w.transaction,
            &w.sparse_proof,
            Digest32::new(w.key),
            Digest32::new(w.value_hash)
        )
        .unwrap_err(),
        Error::StateCheckpointMissing
    );
}

#[test]
fn accumulator_is_checked_before_the_signatures() {
    let mut w = world();
    w.latest_li.signatures.clear();
    w.transaction_index = 4;
    assert_eq!(verify(&w).unwrap_err(), Error::RootMismatch);
    w.transaction_index = 5;
    assert_eq!(verify(&w).unwrap_err(), Error::InvalidQuorum);
}

#[test]
fn signatures_are_checked_before_the_state() {
    let mut w = world();
    w.latest_li.signatures.clear();
    w.value_hash[0] ^= 1;
    assert_eq!(verify(&w).unwrap_err(), Error::InvalidQuorum);
}

#[test]
fn inclusion_program_refuses_bytes_it_cannot_decode() {
    let w = world();
    let sparse = w.sparse_proof.to_bytes();
    let transaction = w.transaction.to_bytes();
    let proof = w.transaction_proof.to_bytes();
    let li = w.latest_li.to_bytes();
    let committee = w.committee.to_bytes();
    let i = w.transaction_index;
    assert!(run(&sparse, w.key, w.value_hash, &transaction, i, &proof, &li, &committee).is_ok());
    let short = |b: &Vec<u8>| b[..b.len() - 1].to_vec();
    let failure = |step: Step| Failure { step, error: Error::DeserializationError };
    assert_eq!(
        run(&short(&sparse), w.key, w.value_hash, &transaction, i, &proof, &li, &committee).unwrap_err(),
        failure(Step::SparseProofDecoding)
    );
    assert_eq!(
        run(&sparse, w.key, w.value_hash, &short(&transaction), i, &proof, &li, &committee).unwrap_err(),
        failure(Step::TransactionDecoding)
    );
    assert_eq!(
        run(&sparse, w.key, w.value_hash, &transaction, i, &short(&proof), &li, &committee).unwrap_err(),
        failure(Step::TransactionProofDecoding)
    );
    assert_eq!(
        run(&sparse, w.key, w.value_hash, &transaction, i, &proof, &short(&li), &committee).unwrap_err(),
        failure(Step::LedgerInfoDecoding)
    );
    assert_eq!(
        run(&sparse, w.key, w.value_hash, &transaction, i, &proof, &li, &short(&committee)).unwrap_err(),
        failure(Step::CommitteeDecoding)
    );
    assert_eq!(
        run(&[], w.key, w.value_hash, &[], i, &[], &[], &[]).unwrap_err(),
        failure(Step::CommitteeDecoding)
    );
    assert_eq!(
        run(&[], w.key, w.value_hash, &[], i, &[], &[], &committee).unwrap_err(),
        failure(Step::TransactionDecoding)
    );
}

#[test]
fn sparse_proof_is_decoded_after_the_transaction_is_verified() {
    let w = world();
    let got = run(
        &[9, 9, 9],
        w.key,
        w.value_hash,
        &w.transaction.to_bytes(),
        4,
        &w.transaction_proof.to_bytes(),
        &w.latest_li.to_bytes(),
        &w.committee.to_bytes(),
    );
    assert_eq!(
        got.unwrap_err(),
        Failure { step: Step::TransactionAccumulator, error: Error::RootMismatch }
    );
}

#[test]
fn output_of_a_proof_is_held_against_the_assets() {
    let w = world();
    let sparse = SparseMerkleProofAssets::new(w.sparse_proof.to_bytes(), w.key, w.value_hash);
    let transaction = TransactionProofAssets::new(
        w.transaction.to_bytes(),
        w.transaction_index,
        w.transaction_proof.to_bytes(),
        w.latest_li.to_bytes(),
    );
    let verifier = ValidatorVerifierAssets::new(w.committee.to_bytes());
    let expected = expected_output(&sparse, &transaction, &verifier, w.state_root).unwrap();
    let out = run_on(&w).unwrap();
    assert_eq!(out.first_mismatch(&expected), None);
    let mut other = out;
    other.value.bytes[0] ^= 1;
    assert_eq!(other.first_mismatch(&expected), Some(OutputMismatch::Value));
    other.key.bytes[0] ^= 1;
    assert_eq!(other.first_mismatch(&expected), Some(OutputMismatch::Key));
    other.block_hash.bytes[0] ^= 1;
    assert_eq!(other.first_mismatch(&expected), Some(OutputMismatch::BlockHash));
    other.state_hash.bytes[0] ^= 1;
    assert_eq!(other.first_mismatch(&expected), Some(OutputMismatch::StateHash));
    other.validator_verifier_hash.bytes[0] ^= 1;
    assert_eq!(other.first_mismatch(&expected), Some(OutputMismatch::ValidatorVerifierHash));
    let broken = ValidatorVerifierAssets::new(vec![1, 2, 3]);
    assert_eq!(
        expected_output(&sparse, &transaction, &broken, w.state_root).unwrap_err(),
        Error::DeserializationError
    );
}

#[test]
fn public_values_are_five_digests_in_order() {
    let out = InclusionOutput {
        validator_verifier_hash: Digest32::new([1u8; 32]),
        state_hash: Digest32::new([2u8; 32]),
        block_hash: Digest32::new([3u8; 32]),
        key: Digest32::new([4u8; 32]),
        value: Digest32::new([5u8; 32]),
    };
    let bytes = out.to_public_values();
    assert_eq!(bytes.len(), 160);
    for (i, chunk) in bytes.chunks(32).enumerate() {
        assert_eq!(chunk, &[i as u8 + 1; 32]);
    }
    let back = InclusionOutput::from_public_values(&bytes).unwrap();
    assert_eq!(back.validator_verifier_hash, out.validator_verifier_hash);
    assert_eq!(back.state_hash, out.state_hash);
    assert_eq!(back.block_hash, out.block_hash);
    assert_eq!(back.key, out.key);
    assert_eq!(back.value, out.value);
    assert!(InclusionOutput::from_public_values(&bytes[..159]).is_none());
    assert!(InclusionOutput::from_public_values(&[0u8; 161]).is_none());
    assert!(InclusionOutput::from_public_values(&[]).is_none());
}

#[test]
fn assets_keep_what_they_are_given() {
    let sparse = SparseMerkleProofAssets::new(vec![1, 2, 3], [4u8; 32], [5u8; 32]);
    assert_eq!(sparse.sparse_merkle_proof(), &vec![1u8, 2, 3]);
    assert_eq!(sparse.leaf_key(), &[4u8; 32]);
    assert_eq!(sparse.leaf_hash(), &[5u8; 32]);
    let transaction = TransactionProofAssets::new(vec![6], 7, vec![8, 9], vec![10]);
    assert_eq!(transaction.transaction(), &vec![6u8]);
    assert_eq!(*transaction.transaction_index(), 7);
    assert_eq!(transaction.transaction_proof(), &vec![8u8, 9]);
    assert_eq!(transaction.latest_li(), &vec![10u8]);
    let verifier = ValidatorVerifierAssets::new(vec![11, 12]);
    assert_eq!(verifier.validator_verifier(), &vec![11u8, 12]);
    assert_eq!(sparse.clone().leaf_key(), sparse.leaf_key());
    assert_eq!(transaction.clone().latest_li(), transaction.latest_li());
    assert_eq!(verifier.clone().validator_verifier(), verifier.validator_verifier());
}

#[test]
fn stdin_holds_the_eight_inputs_in_order() {
    let sparse = SparseMerkleProofAssets::new(vec![1, 2, 3], [4u8; 32], [5u8; 32]);
    let transaction = TransactionProofAssets::new(vec![6], 0x0102030405060708, vec![8, 9], vec![10]);
    let verifier = ValidatorVerifierAssets::new(vec![11, 12]);
    let stdin = generate_stdin(&sparse, &transaction, &verifier);
    let expected: Vec<Vec<u8>> = vec![
        vec![1, 2, 3],
        vec![4u8; 32],
        vec![5u8; 32],
        vec![6],
        vec![8, 7, 6, 5, 4, 3, 2, 1],
        vec![8, 9],
        vec![10],
        vec![11, 12],
    ];
    assert_eq!(stdin, expected);
}

#[test]
fn stdin_feeds_the_program() {
    let w = world();
    let sparse = SparseMerkleProofAssets::new(w.sparse_proof.to_bytes(), w.key, w.value_hash);
    let transaction = TransactionProofAssets::new(
        w.transaction.to_bytes(),
        w.transaction_index,
        w.transaction_proof.to_bytes(),
        w.latest_li.to_bytes(),
    );
    let verifier = ValidatorVerifierAssets::new(w.committee.to_bytes());
    let stdin = generate_stdin(&sparse, &transaction, &verifier);
    let mut key = [0u8; 32];
    key.copy_from_slice(&stdin[1]);
    let mut value = [0u8; 32];
    value.copy_from_slice(&stdin[2]);
    let mut index = [0u8; 8];
    index.copy_from_slice(&stdin[4]);
    let out = run(
        &stdin[0],
        key,
        value,
        &stdin[3],
        u64::from_le_bytes(index),
        &stdin[5],
        &stdin[6],
        &stdin[7],
    )
    .unwrap();
    assert_eq!(out.state_hash.bytes, w.state_root);
}
