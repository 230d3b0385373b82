use aptos_lc::committee::SignatureEntry;
use aptos_lc::committee::ValidatorCommittee;
use aptos_lc::committee::ValidatorInfo;
use aptos_lc::committee::Vote;
use aptos_lc::accumulator::check_root;
use aptos_lc::digest::digest_from_literal;
use aptos_lc::digest::hash_bytes;
use aptos_lc::digest::hash_in_domain;
use aptos_lc::digest::hash_with_seed;
use aptos_lc::digest::seed_of_domain;
use aptos_lc::digest::Digest32;
use aptos_lc::digest::ACCUMULATOR_DOMAIN;
use aptos_lc::digest::ACCUMULATOR_PLACEHOLDER;
use aptos_lc::digest::SPARSE_MERKLE_PLACEHOLDER;
use aptos_lc::encoding::write_bool;
use aptos_lc::encoding::write_u64;
use aptos_lc::encoding::write_uleb128;
use aptos_lc::error::Error;
use aptos_lc::signature::verify_signature;
use aptos_lc::signature::PublicKey;
use aptos_lc::signature::Signature;
use aptos_lc::signature::SIGNATURE_DOMAIN;
use tiny_keccak::Hasher;

fn sha3(data: &[u8]) -> [u8; 32] {
    let mut hasher = tiny_keccak::Sha3::v256();
    hasher.update(data);
    let mut out = [0u8; 32];
    hasher.finalize(&mut out);
    out
}

fn secret_key(seed: u8) -> blst::min_pk::SecretKey {
    blst::min_pk::SecretKey::key_gen(&[seed; 32], &[]).unwrap()
}

fn public_key(seed: u8) -> PublicKey {
    PublicKey { bytes: secret_key(seed).sk_to_pk().to_bytes() }
}

fn sign(seed: u8, message: &[u8]) -> Signature {
    Signature { bytes: secret_key(seed).sign(message, SIGNATURE_DOMAIN.as_bytes(), &[]).to_bytes() }
}

fn entry(seed: u8, message: &[u8]) -> SignatureEntry {
    SignatureEntry { signer: public_key(seed), signature: sign(seed, message) }
}

fn committee(members: &[(u8, u64)]) -> ValidatorCommittee {
    let validators = members
        .iter()
        .map(|(seed, power)| ValidatorInfo { public_key: public_key(*seed), voting_power: *power })
        .collect();
    ValidatorCommittee::new(validators).unwrap()
}

#[test]
fn sha3_known_answer() {
    let expected: [u8; 32] = [
        0x64, 0x4b, 0xcc, 0x7e, 0x56, 0x43, 0x73, 0x04, 0x09, 0x99, 0xaa, 0xc8, 0x9e, 0x76, 0x22,
        0xf3, 0xca, 0x71, 0xfb, 0xa1, 0xd9, 0x72, 0xfd, 0x94, 0xa3, 0x1c, 0x3b, 0xfb, 0xf2, 0x4e,
        0x39, 0x38,
    ];
    assert_eq!(hash_bytes(b"hello world").bytes, expected);
}

#[test]
fn sha3_of_empty_input() {
    let expected: [u8; 32] = [
        0xa7, 0xff, 0xc6, 0xf8, 0xbf, 0x1e, 0xd7, 0x66, 0x51, 0xc1, 0x47, 0x56, 0xa0, 0x61, 0xd6,
        0x62, 0xf5, 0x80, 0xff, 0x4d, 0xe4, 0x3b, 0x49, 0xfa, 0x82, 0xd8, 0x0a, 0x4b, 0x80, 0xf8,
        0x43, 0x4a,
    ];
    assert_eq!(hash_bytes(&[]).bytes, expected);
}

#[test]
fn domain_seed_is_hash_of_salted_name() {
    assert_eq!(seed_of_domain(ACCUMULATOR_DOMAIN).bytes, sha3(b"APTOS::TransactionAccumulator"));
    assert_eq!(seed_of_domain("LedgerInfo").bytes, sha3(b"APTOS::LedgerInfo"));
}

#[test]
fn domain_hash_prepends_the_seed() {
    let seed = sha3(b"APTOS::TransactionInfo");
    let mut preimage = seed.to_vec();
    preimage.extend_from_slice(b"payload");
    assert_eq!(hash_in_domain("TransactionInfo", b"payload").bytes, sha3(&preimage));
    assert_eq!(hash_with_seed(&Digest32::new(seed), b"payload").bytes, sha3(&preimage));
}

#[test]
fn domains_separate_equal_payloads() {
    assert_ne!(hash_in_domain("TransactionInfo", b"x"), hash_in_domain("LedgerInfo", b"x"));
}

#[test]
fn placeholder_digests_spell_their_names() {
    let mut expected = [0u8; 32];
    expected[..28].copy_from_slice(b"ACCUMULATOR_PLACEHOLDER_HASH");
    assert_eq!(digest_from_literal(ACCUMULATOR_PLACEHOLDER).bytes, expected);
    let mut expected = [0u8; 32];
    expected[..30].copy_from_slice(b"SPARSE_MERKLE_PLACEHOLDER_HASH");
    assert_eq!(digest_from_literal(SPARSE_MERKLE_PLACEHOLDER).bytes, expected);
}

#[test]
fn literal_digest_cuts_long_words() {
    let word = "0123456789abcdef0123456789abcdefTAIL";
    assert_eq!(&digest_from_literal(word).bytes[..], &word.as_bytes()[..32]);
}

#[test]
fn digest_from_slice_wants_32_bytes() {
    assert!(Digest32::from_slice(&[7u8; 31]).is_none());
    assert!(Digest32::from_slice(&[7u8; 33]).is_none());
    assert!(Digest32::from_slice(&[]).is_none());
    let d = Digest32::from_slice(&[7u8; 32]).unwrap();
    assert_eq!(d.bytes, [7u8; 32]);
    assert_eq!(d.to_vec(), vec![7u8; 32]);
}

#[test]
fn digest_equality_is_over_all_bytes() {
    let a = Digest32::new([1u8; 32]);
    let mut other = [1u8; 32];
    other[31] = 2;
    assert_eq!(a, Digest32::new([1u8; 32]));
    assert_ne!(a, Digest32::new(other));
    other = [1u8; 32];
    other[0] = 0;
    assert_ne!(a, Digest32::new(other));
}

#[test]
fn uleb128_examples() {
    let cases: [(usize, &[u8]); 7] = [
        (0, &[0x00]),
        (1, &[0x01]),
        (127, &[0x7f]),
        (128, &[0x80, 0x01]),
        (300, &[0xac, 0x02]),
        (16383, &[0xff, 0x7f]),
        (16384, &[0x80, 0x80, 0x01]),
    ];
    for (n, expected) in cases {
        let mut buf = vec![0xeeu8];
        write_uleb128(&mut buf, n);
        assert_eq!(&buf[1..], expected);
        assert_eq!(buf[0], 0xee);
    }
}

#[test]
fn uleb128_agrees_with_bcs_lengths() {
    for n in [0usize, 5, 127, 128, 129, 1000, 20000] {
        let mut buf = Vec::new();
        write_uleb128(&mut buf, n);
        let reference = bcs::to_bytes(&vec![0u8; n]).unwrap();
        assert_eq!(&reference[..buf.len()], &buf[..]);
        assert_eq!(reference.len(), buf.len() + n);
    }
}

#[test]
fn integers_are_written_lowest_byte_first() {
    let mut buf = Vec::new();
    write_u64(&mut buf, 0x0102030405060708);
    assert_eq!(buf, vec![8, 7, 6, 5, 4, 3, 2, 1]);
    assert_eq!(buf, bcs::to_bytes(&0x0102030405060708u64).unwrap());
    write_bool(&mut buf, true);
    write_bool(&mut buf, false);
    assert_eq!(&buf[8..], &[1, 0]);
}

#[test]
fn signature_of_the_message_is_valid() {
    let message = b"a ledger header";
    assert!(verify_signature(&public_key(1), message, &sign(1, message)));
}

#[test]
fn signature_of_another_message_is_not_valid() {
    assert!(!verify_signature(&public_key(1), b"one message", &sign(1, b"another")));
}

#[test]
fn signature_by_another_key_is_not_valid() {
    let message = b"a ledger header";
    assert!(!verify_signature(&public_key(2), message, &sign(1, message)));
}

#[test]
fn bytes_that_are_no_points_are_not_valid() {
    let message = b"a ledger header";
    let good_key = public_key(1);
    let good_signature = sign(1, message);
    assert!(!verify_signature(&PublicKey { bytes: [0u8; 48] }, message, &good_signature));
    assert!(!verify_signature(&good_key, message, &Signature { bytes: [0xffu8; 96] }));
}

#[test]
fn signature_under_another_tag_is_not_valid() {
    let message = b"a ledger header";
    let other = secret_key(1).sign(message, b"ANOTHER_TAG", &[]).to_bytes();
    assert!(!verify_signature(&public_key(1), message, &Signature { bytes: other }));
}

#[test]
fn committee_needs_voting_power() {
    assert!(ValidatorCommittee::new(vec![]).is_none());
    let idle = ValidatorInfo { public_key: public_key(1), voting_power: 0 };
    assert!(ValidatorCommittee::new(vec![idle]).is_none());
    let busy = ValidatorInfo { public_key: public_key(1), voting_power: 1 };
    assert!(ValidatorCommittee::new(vec![idle_with(2), busy]).is_some());
}

fn idle_with(seed: u8) -> ValidatorInfo {
    ValidatorInfo { public_key: public_key(seed), voting_power: 0 }
}

#[test]
fn committee_refuses_a_key_twice() {
    let a = ValidatorInfo { public_key: public_key(1), voting_power: 1 };
    let b = ValidatorInfo { public_key: public_key(1), voting_power: 5 };
    assert!(ValidatorCommittee::new(vec![a, b]).is_none());
}

#[test]
fn committee_keeps_its_validators_in_order() {
    let c = committee(&[(1, 10), (2, 20), (3, 30)]);
    assert_eq!(c.len(), 3);
    assert_eq!(c.validator(0).unwrap().voting_power, 10);
    assert_eq!(c.validator(2).unwrap().public_key, public_key(3));
    assert!(c.validator(3).is_none());
    assert_eq!(c.index_of(&public_key(2)), Some(1));
    assert_eq!(c.index_of(&public_key(9)), None);
    assert_eq!(c.total_voting_power(), 60);
}

#[test]
fn quorum_is_more_than_two_thirds() {
    let cases: [(u64, u128); 8] =
        [(1, 1), (2, 2), (3, 3), (4, 3), (5, 4), (6, 5), (100, 67), (u64::MAX, 12297829382473034411)];
    for (total, quorum) in cases {
        let c = committee(&[(1, total)]);
        assert_eq!(c.quorum_voting_power(), quorum);
    }
}

#[test]
fn total_voting_power_does_not_wrap() {
    let c = committee(&[(1, u64::MAX), (2, u64::MAX), (3, u64::MAX)]);
    assert_eq!(c.total_voting_power(), 3 * (u64::MAX as u128));
    assert_eq!(c.quorum_voting_power(), 2 * (u64::MAX as u128) + 1);
}

#[test]
fn committee_encoding_agrees_with_bcs() {
    let members = [(1u8, 10u64), (2, 20), (3, u64::MAX)];
    let c = committee(&members);
    let mut reference: Vec<([u8; 32], [u8; 16], u64)> = Vec::new();
    for (seed, power) in members {
        let key = public_key(seed).bytes;
        let mut head = [0u8; 32];
        head.copy_from_slice(&key[..32]);
        let mut tail = [0u8; 16];
        tail.copy_from_slice(&key[32..]);
        reference.push((head, tail, power));
    }
    assert_eq!(c.to_bytes(), bcs::to_bytes(&reference).unwrap());
}

#[test]
fn committee_hash_is_stable() {
    let c = committee(&[(1, 10), (2, 20)]);
    assert_eq!(c.hash(), c.hash());
    assert_eq!(c.hash(), c.clone().hash());
    assert_eq!(c.hash(), committee(&[(1, 10), (2, 20)]).hash());
}

#[test]
fn committee_hash_is_the_domain_hash_of_the_encoding() {
    let c = committee(&[(1, 10), (2, 20)]);
    let mut preimage = sha3(b"APTOS::ValidatorVerifier").to_vec();
    preimage.extend_from_slice(&c.to_bytes());
    assert_eq!(c.hash().bytes, sha3(&preimage));
}

#[test]
fn committee_hash_depends_on_order() {
    assert_ne!(committee(&[(1, 10), (2, 20)]).hash(), committee(&[(2, 20), (1, 10)]).hash());
}

#[test]
fn committee_hash_depends_on_voting_power() {
    assert_ne!(committee(&[(1, 10), (2, 20)]).hash(), committee(&[(1, 10), (2, 21)]).hash());
}

#[test]
fn signatures_with_quorum_are_accepted() {
    let c = committee(&[(1, 1), (2, 1), (3, 1), (4, 1)]);
    let m = b"message";
    let sigs = vec![entry(1, m), entry(3, m), entry(4, m)];
    assert_eq!(c.verify_signed_message(m, &sigs), Ok(()));
}

#[test]
fn two_thirds_exactly_is_no_quorum() {
    let c = committee(&[(1, 1), (2, 1), (3, 1)]);
    let m = b"message";
    assert_eq!(
        c.verify_signed_message(m, &vec![entry(1, m), entry(2, m)]),
        Err(Error::InvalidQuorum)
    );
    assert_eq!(c.verify_signed_message(m, &vec![entry(1, m), entry(2, m), entry(3, m)]), Ok(()));
}

#[test]
fn voting_power_counts_and_not_heads() {
    let c = committee(&[(1, 70), (2, 10), (3, 10), (4, 10)]);
    let m = b"message";
    assert_eq!(c.verify_signed_message(m, &vec![entry(1, m)]), Ok(()));
    assert_eq!(
        c.verify_signed_message(m, &vec![entry(2, m), entry(3, m), entry(4, m)]),
        Err(Error::InvalidQuorum)
    );
}

#[test]
fn no_signatures_are_no_quorum() {
    let c = committee(&[(1, 1)]);
    assert_eq!(c.verify_signed_message(b"message", &vec![]), Err(Error::InvalidQuorum));
}

#[test]
fn stranger_is_an_unknown_signer() {
    let c = committee(&[(1, 1), (2, 1), (3, 1)]);
    let m = b"message";
    let sigs = vec![entry(1, m), entry(2, m), entry(3, m), entry(9, m)];
    assert_eq!(c.verify_signed_message(m, &sigs), Err(Error::UnknownSigner));
}

#[test]
fn stranger_with_bad_signature_is_an_unknown_signer() {
    let c = committee(&[(1, 1)]);
    let m = b"message";
    let stranger = SignatureEntry { signer: public_key(9), signature: sign(9, b"other") };
    assert_eq!(c.verify_signed_message(m, &vec![entry(1, m), stranger]), Err(Error::UnknownSigner));
}

#[test]
fn same_signer_twice_is_a_duplicate() {
    let c = committee(&[(1, 1), (2, 1), (3, 1)]);
    let m = b"message";
    let sigs = vec![entry(1, m), entry(2, m), entry(1, m), entry(3, m)];
    assert_eq!(c.verify_signed_message(m, &sigs), Err(Error::DuplicateSigner));
}

#[test]
fn first_fault_decides() {
    let c = committee(&[(1, 1), (2, 1), (3, 1)]);
    let m = b"message";
    let duplicate_first = vec![entry(1, m), entry(1, m), entry(9, m)];
    assert_eq!(c.verify_signed_message(m, &duplicate_first), Err(Error::DuplicateSigner));
    let stranger_first = vec![entry(1, m), entry(9, m), entry(1, m)];
    assert_eq!(c.verify_signed_message(m, &stranger_first), Err(Error::UnknownSigner));
}

#[test]
fn bad_signature_adds_nothing() {
    let c = committee(&[(1, 1), (2, 1), (3, 1)]);
    let m = b"message";
    let bad = SignatureEntry { signer: public_key(3), signature: sign(3, b"other") };
    assert_eq!(
        c.verify_signed_message(m, &vec![entry(1, m), entry(2, m), bad]),
        Err(Error::InvalidQuorum)
    );
}

#[test]
fn bad_signature_is_no_duplicate() {
    let c = committee(&[(1, 1), (2, 1), (3, 1)]);
    let m = b"message";
    let bad = SignatureEntry { signer: public_key(1), signature: sign(1, b"other") };
    let sigs = vec![bad, entry(1, m), entry(2, m), entry(3, m), bad];
    assert_eq!(c.verify_signed_message(m, &sigs), Ok(()));
}

#[test]
fn signatures_of_another_message_are_no_quorum() {
    let c = committee(&[(1, 1), (2, 1), (3, 1)]);
    let sigs = vec![entry(1, b"a"), entry(2, b"a"), entry(3, b"a")];
    assert_eq!(c.verify_signed_message(b"b", &sigs), Err(Error::InvalidQuorum));
}

fn vote(seed: u8, valid: bool) -> Vote {
    Vote { signer: public_key(seed), valid }
}

#[test]
fn tally_counts_valid_votes_of_members() {
    let c = committee(&[(1, 10), (2, 20), (3, 30), (4, 40)]);
    assert_eq!(c.tally(&vec![vote(3, true), vote(4, true)]), Ok(()));
    assert_eq!(c.tally(&vec![vote(2, true), vote(4, true)]), Err(Error::InvalidQuorum));
    assert_eq!(c.tally(&vec![vote(1, true), vote(2, true), vote(4, true)]), Ok(()));
    assert_eq!(c.tally(&vec![vote(3, false), vote(4, true)]), Err(Error::InvalidQuorum));
    assert_eq!(c.tally(&vec![]), Err(Error::InvalidQuorum));
}

#[test]
fn tally_quorum_is_strict() {
    let c = committee(&[(1, 2), (2, 1)]);
    assert_eq!(c.tally(&vec![vote(1, true)]), Err(Error::InvalidQuorum));
    assert_eq!(c.tally(&vec![vote(1, true), vote(2, true)]), Ok(()));
    let c = committee(&[(1, 67), (2, 33)]);
    assert_eq!(c.tally(&vec![vote(1, true)]), Ok(()));
    let c = committee(&[(1, 66), (2, 34)]);
    assert_eq!(c.tally(&vec![vote(1, true)]), Err(Error::InvalidQuorum));
}

#[test]
fn tally_finds_the_first_fault() {
    let c = committee(&[(1, 1), (2, 1), (3, 1)]);
    assert_eq!(c.tally(&vec![vote(9, false)]), Err(Error::UnknownSigner));
    assert_eq!(c.tally(&vec![vote(1, true), vote(1, true)]), Err(Error::DuplicateSigner));
    assert_eq!(c.tally(&vec![vote(1, false), vote(1, true), vote(1, false)]), Err(Error::InvalidQuorum));
    assert_eq!(
        c.tally(&vec![vote(1, true), vote(2, true), vote(3, true), vote(1, false)]),
        Ok(())
    );
    assert_eq!(
        c.tally(&vec![vote(1, true), vote(1, true), vote(9, true)]),
        Err(Error::DuplicateSigner)
    );
    assert_eq!(
        c.tally(&vec![vote(1, true), vote(9, true), vote(1, true)]),
        Err(Error::UnknownSigner)
    );
}

#[test]
fn recomputed_root_must_be_the_expected_one() {
    let a = Digest32::new([1u8; 32]);
    let mut other = [1u8; 32];
    other[31] = 0;
    assert_eq!(check_root(&a, &a), Ok(()));
    assert_eq!(check_root(&a, &Digest32::new(other)), Err(Error::RootMismatch));
}
