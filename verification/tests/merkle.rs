use aptos_lc::accumulator::TransactionAccumulatorProof;
use aptos_lc::digest::digest_from_literal;
use aptos_lc::digest::Digest32;
use aptos_lc::error::Error;
use aptos_lc::sparse::SparseMerkleLeafNode;
use aptos_lc::sparse::SparseMerkleProof;
use tiny_keccak::Hasher;

fn sha3(parts: &[&[u8]]) -> [u8; 32] {
    let mut hasher = tiny_keccak::Sha3::v256();
    for part in parts {
        hasher.update(part);
    }
    let mut out = [0u8; 32];
    hasher.finalize(&mut out);
    out
}

fn literal(word: &[u8]) -> [u8; 32] {
    let mut out = [0u8; 32];
    out[..word.len()].copy_from_slice(word);
    out
}

fn accumulator_node(left: &[u8; 32], right: &[u8; 32]) -> [u8; 32] {
    let seed = sha3(&[b"APTOS::TransactionAccumulator"]);
    sha3(&[&seed, left, right])
}

fn accumulator_levels(leaves: &[[u8; 32]]) -> Vec<Vec<[u8; 32]>> {
    let placeholder = literal(b"ACCUMULATOR_PLACEHOLDER_HASH");
    let mut levels = vec![leaves.to_vec()];
    while levels.last().unwrap().len() > 1 {
        let below = levels.last().unwrap();
        let mut level = Vec::new();
        for pair in below.chunks(2) {
            let right = if pair.len() == 2 { pair[1] } else { placeholder };
            level.push(accumulator_node(&pair[0], &right));
        }
        levels.push(level);
    }
    levels
}

fn accumulator_root(leaves: &[[u8; 32]]) -> Digest32 {
    Digest32::new(accumulator_levels(leaves).last().unwrap()[0])
}

fn accumulator_proof(leaves: &[[u8; 32]], index: usize) -> TransactionAccumulatorProof {
    let placeholder = literal(b"ACCUMULATOR_PLACEHOLDER_HASH");
    let levels = accumulator_levels(leaves);
    let mut siblings = Vec::new();
    let mut place = index;
    for level in &levels[..levels.len() - 1] {
        let sibling = level.get(place ^ 1).copied().unwrap_or(placeholder);
        siblings.push(Digest32::new(sibling));
        place /= 2;
    }
    TransactionAccumulatorProof::new(siblings)
}

fn leaves(n: usize) -> Vec<[u8; 32]> {
    (0..n).map(|i| sha3(&[b"leaf", &(i as u64).to_le_bytes()])).collect()
}

fn sparse_leaf(key: &[u8; 32], value_hash: &[u8; 32]) -> [u8; 32] {
    let seed = sha3(&[b"APTOS::SparseMerkleLeafNode"]);
    sha3(&[&seed, key, value_hash])
}

fn sparse_internal(left: &[u8; 32], right: &[u8; 32]) -> [u8; 32] {
    let seed = sha3(&[b"APTOS::SparseMerkleInternal"]);
    sha3(&[&seed, left, right])
}

fn bit(key: &[u8; 32], i: usize) -> bool {
    (key[i / 8] >> (7 - i % 8)) & 1 == 1
}

fn sparse_subtree(entries: &[([u8; 32], [u8; 32])], depth: usize) -> [u8; 32] {
    if entries.is_empty() {
        return literal(b"SPARSE_MERKLE_PLACEHOLDER_HASH");
    }
    if entries.len() == 1 {
        return sparse_leaf(&entries[0].0, &entries[0].1);
    }
    let left: Vec<_> = entries.iter().filter(|e| !bit(&e.0, depth)).copied().collect();
    let right: Vec<_> = entries.iter().filter(|e| bit(&e.0, depth)).copied().collect();
    sparse_internal(&sparse_subtree(&left, depth + 1), &sparse_subtree(&right, depth + 1))
}

fn sparse_siblings(entries: &[([u8; 32], [u8; 32])], key: &[u8; 32]) -> Vec<Digest32> {
    let mut under: Vec<_> = entries.to_vec();
    let mut siblings = Vec::new();
    let mut depth = 0;
    while under.len() > 1 {
        let (same, other): (Vec<_>, Vec<_>) =
            under.iter().partition(|e| bit(&e.0, depth) == bit(key, depth));
        siblings.push(Digest32::new(sparse_subtree(&other, depth + 1)));
        under = same;
        depth += 1;
    }
    siblings.reverse();
    siblings
}

fn state(n: usize) -> Vec<([u8; 32], [u8; 32])> {
    (0..n)
        .map(|i| (sha3(&[b"key", &(i as u64).to_le_bytes()]), sha3(&[b"value", &(i as u64).to_le_bytes()])))
        .collect()
}

fn sparse_proof(entries: &[([u8; 32], [u8; 32])], i: usize) -> SparseMerkleProof {
    let leaf = SparseMerkleLeafNode::new(Digest32::new(entries[i].0), Digest32::new(entries[i].1));
    SparseMerkleProof::new(Some(leaf), sparse_siblings(entries, &entries[i].0))
}

#[test]
fn accumulator_proof_of_every_leaf_verifies() {
    for n in 1..=17 {
        let leaves = leaves(n);
        let root = accumulator_root(&leaves);
        for index in 0..n {
            let proof = accumulator_proof(&leaves, index);
            assert_eq!(
                proof.verify(root, Digest32::new(leaves[index]), index as u64),
                Ok(()),
                "leaf {} of {}",
                index,
                n
            );
        }
    }
}

#[test]
fn accumulator_of_one_leaf_has_an_empty_proof() {
    let leaves = leaves(1);
    let proof = accumulator_proof(&leaves, 0);
    assert_eq!(proof.siblings.len(), 0);
    assert_eq!(proof.verify(Digest32::new(leaves[0]), Digest32::new(leaves[0]), 0), Ok(()));
    assert_eq!(
        proof.verify(Digest32::new(leaves[0]), Digest32::new([9u8; 32]), 0),
        Err(Error::RootMismatch)
    );
}

#[test]
fn accumulator_of_three_leaves_pads_with_the_placeholder() {
    let leaves = leaves(3);
    let placeholder = digest_from_literal("ACCUMULATOR_PLACEHOLDER_HASH").bytes;
    let expected = accumulator_node(
        &accumulator_node(&leaves[0], &leaves[1]),
        &accumulator_node(&leaves[2], &placeholder),
    );
    assert_eq!(accumulator_root(&leaves).bytes, expected);
    let proof = accumulator_proof(&leaves, 2);
    assert_eq!(proof.siblings[0].bytes, placeholder);
    assert_eq!(proof.verify(Digest32::new(expected), Digest32::new(leaves[2]), 2), Ok(()));
}

#[test]
fn flipped_bit_in_any_sibling_is_a_root_mismatch() {
    let leaves = leaves(11);
    let root = accumulator_root(&leaves);
    for index in 0..leaves.len() {
        let proof = accumulator_proof(&leaves, index);
        for level in 0..proof.siblings.len() {
            for place in [0usize, 7, 100, 255] {
                let mut siblings = proof.siblings.clone();
                siblings[level].bytes[place / 8] ^= 1 << (place % 8);
                let tampered = TransactionAccumulatorProof::new(siblings);
                assert_eq!(
                    tampered.verify(root, Digest32::new(leaves[index]), index as u64),
                    Err(Error::RootMismatch)
                );
            }
        }
    }
}

#[test]
fn another_leaf_is_a_root_mismatch() {
    let leaves = leaves(8);
    let root = accumulator_root(&leaves);
    let proof = accumulator_proof(&leaves, 3);
    assert_eq!(proof.verify(root, Digest32::new(leaves[4]), 3), Err(Error::RootMismatch));
}

#[test]
fn another_index_is_a_root_mismatch() {
    let leaves = leaves(8);
    let root = accumulator_root(&leaves);
    let proof = accumulator_proof(&leaves, 3);
    for index in [0u64, 1, 2, 4, 5, 6, 7] {
        assert_eq!(proof.verify(root, Digest32::new(leaves[3]), index), Err(Error::RootMismatch));
    }
}

#[test]
fn another_root_is_a_root_mismatch() {
    let leaves = leaves(8);
    let proof = accumulator_proof(&leaves, 3);
    assert_eq!(
        proof.verify(Digest32::new([0u8; 32]), Digest32::new(leaves[3]), 3),
        Err(Error::RootMismatch)
    );
}

#[test]
fn index_beyond_the_tree_is_malformed() {
    let leaves = leaves(8);
    let root = accumulator_root(&leaves);
    let proof = accumulator_proof(&leaves, 3);
    assert_eq!(proof.siblings.len(), 3);
    assert_eq!(proof.verify(root, Digest32::new(leaves[3]), 8), Err(Error::MalformedProof));
    assert_eq!(proof.verify(root, Digest32::new(leaves[3]), 11), Err(Error::MalformedProof));
    assert_eq!(proof.verify(root, Digest32::new(leaves[3]), u64::MAX), Err(Error::MalformedProof));
    let empty = TransactionAccumulatorProof::new(vec![]);
    assert_eq!(empty.verify(root, root, 1), Err(Error::MalformedProof));
    assert_eq!(empty.verify(root, root, 0), Ok(()));
}

#[test]
fn proof_higher_than_63_is_malformed() {
    let leaf = Digest32::new([1u8; 32]);
    let proof = TransactionAccumulatorProof::new(vec![leaf; 64]);
    assert_eq!(proof.verify(leaf, leaf, 0), Err(Error::MalformedProof));
    let proof = TransactionAccumulatorProof::new(vec![leaf; 63]);
    assert_eq!(proof.verify(leaf, leaf, 0), Err(Error::RootMismatch));
    assert_eq!(proof.verify(leaf, leaf, 1 << 63), Err(Error::MalformedProof));
    assert_eq!(proof.verify(leaf, leaf, (1 << 63) - 1), Err(Error::RootMismatch));
}

#[test]
fn accumulator_proof_round_trips_through_bytes() {
    let leaves = leaves(9);
    let proof = accumulator_proof(&leaves, 5);
    let bytes = proof.to_bytes();
    assert_eq!(bytes.len(), 1 + 32 * 4);
    assert_eq!(bytes[0], 4);
    let back = TransactionAccumulatorProof::from_bytes(&bytes).unwrap();
    assert_eq!(back.siblings, proof.siblings);
    let reference: Vec<[u8; 32]> = proof.siblings.iter().map(|d| d.bytes).collect();
    assert_eq!(bytes, bcs::to_bytes(&reference).unwrap());
}

#[test]
fn accumulator_proof_bytes_must_be_exact() {
    let proof = accumulator_proof(&leaves(9), 5);
    let bytes = proof.to_bytes();
    assert_eq!(
        TransactionAccumulatorProof::from_bytes(&bytes[..bytes.len() - 1]).unwrap_err(),
        Error::DeserializationError
    );
    let mut longer = bytes.clone();
    longer.push(0);
    assert_eq!(
        TransactionAccumulatorProof::from_bytes(&longer).unwrap_err(),
        Error::DeserializationError
    );
    assert_eq!(TransactionAccumulatorProof::from_bytes(&[]).unwrap_err(), Error::DeserializationError);
    assert_eq!(TransactionAccumulatorProof::from_bytes(&[0]).unwrap().siblings.len(), 0);
}

#[test]
fn length_must_be_written_in_the_shortest_way() {
    let mut bytes = vec![0x81, 0x00];
    bytes.extend_from_slice(&[7u8; 32]);
    assert_eq!(TransactionAccumulatorProof::from_bytes(&bytes).unwrap_err(), Error::DeserializationError);
    let mut bytes = vec![0x01];
    bytes.extend_from_slice(&[7u8; 32]);
    assert_eq!(TransactionAccumulatorProof::from_bytes(&bytes).unwrap().siblings.len(), 1);
}

#[test]
fn huge_length_is_refused() {
    let bytes = vec![0xff, 0xff, 0xff, 0xff, 0xff, 0xff, 0xff, 0xff, 0xff, 0x01];
    assert_eq!(TransactionAccumulatorProof::from_bytes(&bytes).unwrap_err(), Error::DeserializationError);
    let bytes = vec![0xff, 0xff, 0xff, 0xff, 0xff, 0xff, 0xff, 0xff, 0xff, 0x7f];
    assert_eq!(TransactionAccumulatorProof::from_bytes(&bytes).unwrap_err(), Error::DeserializationError);
    let bytes = vec![0x80; 11];
    assert_eq!(TransactionAccumulatorProof::from_bytes(&bytes).unwrap_err(), Error::DeserializationError);
}

#[test]
fn key_bits_are_counted_from_the_top() {
    let mut key = [0u8; 32];
    key[0] = 0b0100_0000;
    let leaf = SparseMerkleLeafNode::new(Digest32::new(key), Digest32::new([2u8; 32]));
    let low = [3u8; 32];
    let high = [4u8; 32];
    let proof = SparseMerkleProof::new(Some(leaf), vec![Digest32::new(low), Digest32::new(high)]);
    let below = sparse_internal(&low, &sparse_leaf(&key, &[2u8; 32]));
    let expected = sparse_internal(&below, &high);
    let found = proof.verify_by_hash(Digest32::new(expected), leaf.key, leaf.value_hash).unwrap();
    assert_eq!(found.bytes, expected);
}

#[test]
fn sparse_leaf_hash_is_seeded() {
    let leaf = SparseMerkleLeafNode::new(Digest32::new([1u8; 32]), Digest32::new([2u8; 32]));
    assert_eq!(leaf.hash().bytes, sparse_leaf(&[1u8; 32], &[2u8; 32]));
}

#[test]
fn sparse_proof_of_every_key_gives_the_root() {
    for n in [2usize, 3, 5, 16, 33] {
        let entries = state(n);
        let root = sparse_subtree(&entries, 0);
        for i in 0..n {
            let proof = sparse_proof(&entries, i);
            let found = proof
                .verify_by_hash(
                    Digest32::new(root),
                    Digest32::new(entries[i].0),
                    Digest32::new(entries[i].1),
                )
                .unwrap();
            assert_eq!(found.bytes, root, "key {} of {}", i, n);
        }
    }
}

#[test]
fn sparse_tree_of_two_keys() {
    let mut low = [0u8; 32];
    low[0] = 0x00;
    let mut high = [0u8; 32];
    high[0] = 0x80;
    let entries = vec![(low, [1u8; 32]), (high, [2u8; 32])];
    let root = sparse_internal(&sparse_leaf(&low, &[1u8; 32]), &sparse_leaf(&high, &[2u8; 32]));
    assert_eq!(sparse_subtree(&entries, 0), root);
    let proof = sparse_proof(&entries, 1);
    assert_eq!(proof.siblings.len(), 1);
    assert_eq!(proof.siblings[0].bytes, sparse_leaf(&low, &[1u8; 32]));
    let found = proof
        .verify_by_hash(Digest32::new(root), Digest32::new(high), Digest32::new([2u8; 32]))
        .unwrap();
    assert_eq!(found.bytes, root);
}

#[test]
fn sparse_leaf_below_empty_subtrees() {
    let mut a = [0u8; 32];
    a[0] = 0b0000_0000;
    let mut b = [0u8; 32];
    b[0] = 0b0010_0000;
    let entries = vec![(a, [1u8; 32]), (b, [2u8; 32])];
    let placeholder = literal(b"SPARSE_MERKLE_PLACEHOLDER_HASH");
    let pair = sparse_internal(&sparse_leaf(&a, &[1u8; 32]), &sparse_leaf(&b, &[2u8; 32]));
    let root = sparse_internal(&sparse_internal(&pair, &placeholder), &placeholder);
    assert_eq!(sparse_subtree(&entries, 0), root);
    let proof = sparse_proof(&entries, 0);
    assert_eq!(proof.siblings.len(), 3);
    assert_eq!(proof.siblings[1].bytes, placeholder);
    assert_eq!(proof.siblings[2].bytes, placeholder);
    let found = proof
        .verify_by_hash(Digest32::new(root), Digest32::new(a), Digest32::new([1u8; 32]))
        .unwrap();
    assert_eq!(found.bytes, root);
}

#[test]
fn expected_root_has_no_part_in_the_result() {
    let entries = state(5);
    let root = sparse_subtree(&entries, 0);
    let proof = sparse_proof(&entries, 2);
    let found = proof
        .verify_by_hash(Digest32::new([0u8; 32]), Digest32::new(entries[2].0), Digest32::new(entries[2].1))
        .unwrap();
    assert_eq!(found.bytes, root);
}

#[test]
fn tampered_value_hash_fails() {
    let entries = state(5);
    let root = Digest32::new(sparse_subtree(&entries, 0));
    let proof = sparse_proof(&entries, 2);
    let mut value = entries[2].1;
    value[5] ^= 0x10;
    assert_eq!(
        proof.verify_by_hash(root, Digest32::new(entries[2].0), Digest32::new(value)).unwrap_err(),
        Error::MalformedProof
    );
}

#[test]
fn tampered_key_fails() {
    let entries = state(5);
    let root = Digest32::new(sparse_subtree(&entries, 0));
    let proof = sparse_proof(&entries, 2);
    let mut key = entries[2].0;
    key[31] ^= 0x01;
    assert_eq!(
        proof.verify_by_hash(root, Digest32::new(key), Digest32::new(entries[2].1)).unwrap_err(),
        Error::MalformedProof
    );
}

#[test]
fn tampered_sibling_gives_another_root() {
    let entries = state(5);
    let root = sparse_subtree(&entries, 0);
    let proof = sparse_proof(&entries, 2);
    for level in 0..proof.siblings.len() {
        let mut siblings = proof.siblings.clone();
        siblings[level].bytes[0] ^= 0x80;
        let tampered = SparseMerkleProof::new(proof.leaf, siblings);
        let found = tampered
            .verify_by_hash(Digest32::new(root), Digest32::new(entries[2].0), Digest32::new(entries[2].1))
            .unwrap();
        assert_ne!(found.bytes, root);
    }
}

#[test]
fn proof_without_siblings_is_empty() {
    let leaf = SparseMerkleLeafNode::new(Digest32::new([1u8; 32]), Digest32::new([2u8; 32]));
    let proof = SparseMerkleProof::new(Some(leaf), vec![]);
    assert_eq!(
        proof.verify_by_hash(leaf.hash(), leaf.key, leaf.value_hash).unwrap_err(),
        Error::EmptyProof
    );
    let proof = SparseMerkleProof::new(None, vec![]);
    assert_eq!(
        proof.verify_by_hash(leaf.hash(), leaf.key, leaf.value_hash).unwrap_err(),
        Error::EmptyProof
    );
}

#[test]
fn proof_without_leaf_is_malformed() {
    let proof = SparseMerkleProof::new(None, vec![Digest32::new([3u8; 32])]);
    let d = Digest32::new([1u8; 32]);
    assert_eq!(proof.verify_by_hash(d, d, d).unwrap_err(), Error::MalformedProof);
}

#[test]
fn proof_deeper_than_the_key_is_malformed() {
    let leaf = SparseMerkleLeafNode::new(Digest32::new([1u8; 32]), Digest32::new([2u8; 32]));
    let sibling = Digest32::new([3u8; 32]);
    let proof = SparseMerkleProof::new(Some(leaf), vec![sibling; 257]);
    assert_eq!(
        proof.verify_by_hash(sibling, leaf.key, leaf.value_hash).unwrap_err(),
        Error::MalformedProof
    );
    let proof = SparseMerkleProof::new(Some(leaf), vec![sibling; 256]);
    assert!(proof.verify_by_hash(sibling, leaf.key, leaf.value_hash).is_ok());
}

#[test]
fn sparse_proof_of_full_depth_uses_every_bit() {
    let mut key = [0u8; 32];
    key[31] = 1;
    let leaf = SparseMerkleLeafNode::new(Digest32::new(key), Digest32::new([2u8; 32]));
    let sibling = [3u8; 32];
    let proof = SparseMerkleProof::new(Some(leaf), vec![Digest32::new(sibling); 256]);
    let mut expected = sparse_internal(&sibling, &sparse_leaf(&key, &[2u8; 32]));
    for _ in 1..256 {
        expected = sparse_internal(&expected, &sibling);
    }
    let found = proof.verify_by_hash(Digest32::new(expected), leaf.key, leaf.value_hash).unwrap();
    assert_eq!(found.bytes, expected);
}

#[test]
fn sparse_proof_round_trips_through_bytes() {
    let entries = state(9);
    let proof = sparse_proof(&entries, 4);
    let bytes = proof.to_bytes();
    let back = SparseMerkleProof::from_bytes(&bytes).unwrap();
    assert_eq!(back.siblings, proof.siblings);
    assert_eq!(back.leaf.unwrap().key, proof.leaf.unwrap().key);
    assert_eq!(back.leaf.unwrap().value_hash, proof.leaf.unwrap().value_hash);
    let reference: (Option<([u8; 32], [u8; 32])>, Vec<[u8; 32]>) =
        (Some(entries[4]), proof.siblings.iter().map(|d| d.bytes).collect());
    assert_eq!(bytes, bcs::to_bytes(&reference).unwrap());
}

#[test]
fn sparse_proof_without_leaf_round_trips() {
    let proof = SparseMerkleProof::new(None, vec![Digest32::new([3u8; 32])]);
    let bytes = proof.to_bytes();
    assert_eq!(bytes.len(), 1 + 1 + 32);
    let back = SparseMerkleProof::from_bytes(&bytes).unwrap();
    assert!(back.leaf.is_none());
    assert_eq!(back.siblings, proof.siblings);
}

#[test]
fn sparse_proof_bytes_must_be_exact() {
    let entries = state(9);
    let bytes = sparse_proof(&entries, 4).to_bytes();
    for cut in [0usize, 1, 20, 65, 66, bytes.len() - 1] {
        assert_eq!(
            SparseMerkleProof::from_bytes(&bytes[..cut]).unwrap_err(),
            Error::DeserializationError
        );
    }
    let mut longer = bytes.clone();
    longer.push(0);
    assert_eq!(SparseMerkleProof::from_bytes(&longer).unwrap_err(), Error::DeserializationError);
    let mut bad_tag = bytes.clone();
    bad_tag[0] = 2;
    assert_eq!(SparseMerkleProof::from_bytes(&bad_tag).unwrap_err(), Error::DeserializationError);
}
