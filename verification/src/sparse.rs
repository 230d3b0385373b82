//! The sparse state tree: a Merkle tree with a place for every key of 256
//! bits, most of them empty, and the proofs that a key is bound to a value
//! under a root.

use vstd::prelude::*;
use vstd::string::StringSliceAdditionalSpecFns;
use crate::digest::append_digest;
use crate::digest::digest_list_encoding;
use crate::digest::digest_list_parse;
use crate::digest::digest_list_valid;
use crate::digest::digest_valid;
use crate::digest::lemma_digest_list_encoding_parse;
use crate::digest::lemma_digest_list_parse_encoding;
use crate::digest::read_digest;
use crate::digest::read_digest_list;
use crate::digest::write_digest_list;
use crate::digest::digests_view;
use crate::digest::domain_seed;
use crate::digest::literal_digest;
use crate::digest::SPARSE_MERKLE_PLACEHOLDER;
use crate::digest::hash_with_seed;
use crate::digest::seed_of_domain;
use crate::digest::sha3_256;
use crate::digest::Digest32;
use crate::digest::SPARSE_INTERNAL_DOMAIN;
use crate::digest::SPARSE_LEAF_DOMAIN;
use crate::encoding::bool_parse;
use crate::encoding::read_bool;
use crate::encoding::whole_input;
use crate::error::Error;

verus! {

/// The number of bits of a key, and so the greatest depth of a leaf.
pub const KEY_LENGTH_IN_BITS: usize = 256;

/// Whether bit `place` of `byte` is set; place 0 is the lowest bit.
pub open spec fn bit_of_byte(byte: u8, place: u8) -> bool {
    (byte >> place) & 1u8 == 1u8
}

/// Bit `i` of a key. Bit 0 is the highest bit of the first byte: the bit that
/// chooses between the two children of the root.
pub open spec fn key_bit(key: Seq<u8>, i: int) -> bool {
    bit_of_byte(key[i / 8], (7 - i % 8) as u8)
}

/// The hash of the leaf that binds `key` to `value_hash`.
pub open spec fn sparse_leaf_hash(key: Seq<u8>, value_hash: Seq<u8>) -> Seq<u8> {
    sha3_256(domain_seed(SPARSE_LEAF_DOMAIN.spec_bytes()) + (key + value_hash))
}

/// The hash of an internal node of the sparse tree with the given children.
pub open spec fn sparse_internal_hash(left: Seq<u8>, right: Seq<u8>) -> Seq<u8> {
    sha3_256(domain_seed(SPARSE_INTERNAL_DOMAIN.spec_bytes()) + (left + right))
}

/// The root that the path of `key` leads to. The path starts at the node
/// `start`, which lies `siblings.len()` levels below the root, and
/// `siblings` holds the siblings of the nodes on the path, the lowest first.
/// The node at depth `d` is the right child of its parent where bit `d - 1`
/// of the key is set.
pub open spec fn sparse_root(start: Seq<u8>, key: Seq<u8>, siblings: Seq<Seq<u8>>) -> Seq<u8>
    decreases siblings.len(),
{
    if siblings.len() == 0 {
        start
    } else {
        let parent = if key_bit(key, siblings.len() - 1) {
            sparse_internal_hash(siblings.first(), start)
        } else {
            sparse_internal_hash(start, siblings.first())
        };
        sparse_root(parent, key, siblings.drop_first())
    }
}

/// What a leaf is to the contracts.
pub struct SparseMerkleLeafView {
    pub key: Seq<u8>,
    pub value_hash: Seq<u8>,
}

/// A leaf of the sparse tree: a key and the hash of the value stored under it.
#[derive(Clone, Copy, Debug)]
pub struct SparseMerkleLeafNode {
    pub key: Digest32,
    pub value_hash: Digest32,
}

impl View for SparseMerkleLeafNode {
    type V = SparseMerkleLeafView;

    open spec fn view(&self) -> SparseMerkleLeafView {
        SparseMerkleLeafView { key: self.key@, value_hash: self.value_hash@ }
    }
}

/// What a sparse Merkle proof is to the contracts.
pub struct SparseMerkleProofView {
    pub leaf: Option<SparseMerkleLeafView>,
    pub siblings: Seq<Seq<u8>>,
}

/// The view of an optional leaf.
pub open spec fn leaf_view(leaf: Option<SparseMerkleLeafNode>) -> Option<SparseMerkleLeafView> {
    match leaf {
        Some(l) => Some(l@),
        None => None,
    }
}

/// A sparse Merkle proof that can be encoded.
pub open spec fn sparse_proof_valid(p: SparseMerkleProofView) -> bool {
    &&& p.leaf matches Some(leaf) ==> digest_valid(leaf.key) && digest_valid(leaf.value_hash)
    &&& digest_list_valid(p.siblings)
}

/// The canonical encoding of an optional leaf: a zero byte where there is
/// none, else a one byte, the key and the value hash.
pub open spec fn leaf_option_encoding(leaf: Option<SparseMerkleLeafView>) -> Seq<u8> {
    match leaf {
        Some(leaf) => seq![1u8] + leaf.key + leaf.value_hash,
        None => seq![0u8],
    }
}

/// The optional leaf that stands at the start of `s`.
pub open spec fn leaf_option_parse(s: Seq<u8>) -> Option<(Option<SparseMerkleLeafView>, nat)> {
    match bool_parse(s) {
        None => None,
        Some((present, _)) => if !present {
            Some((None, 1nat))
        } else if s.len() >= 65 {
            Some(
                (
                    Some(
                        SparseMerkleLeafView {
                            key: s.subrange(1, 33),
                            value_hash: s.subrange(33, 65),
                        },
                    ),
                    65nat,
                ),
            )
        } else {
            None
        },
    }
}

/// The canonical encoding of a sparse Merkle proof: the optional leaf, then
/// the list of siblings.
pub open spec fn sparse_proof_encoding(p: SparseMerkleProofView) -> Seq<u8> {
    leaf_option_encoding(p.leaf) + digest_list_encoding(p.siblings)
}

/// The sparse Merkle proof that stands at the start of `s`.
pub open spec fn sparse_proof_parse(s: Seq<u8>) -> Option<(SparseMerkleProofView, nat)> {
    match leaf_option_parse(s) {
        None => None,
        Some((leaf, taken)) => match digest_list_parse(s.skip(taken as int)) {
            None => None,
            Some((siblings, more)) => Some((SparseMerkleProofView { leaf, siblings }, taken + more)),
        },
    }
}

/// The sparse Merkle proof that `bytes` is the canonical encoding of.
pub open spec fn sparse_proof_decoding(bytes: Seq<u8>) -> Option<SparseMerkleProofView> {
    whole_input(sparse_proof_parse(bytes), bytes.len())
}

/// Reading inverts writing for sparse Merkle proofs.
pub proof fn lemma_sparse_proof_parse_encoding(p: SparseMerkleProofView, tail: Seq<u8>)
    requires
        sparse_proof_valid(p),
    ensures
        sparse_proof_parse(sparse_proof_encoding(p) + tail) == Some(
            (p, sparse_proof_encoding(p).len()),
        ),
{
    let s = sparse_proof_encoding(p) + tail;
    let head = leaf_option_encoding(p.leaf);
    assert(s =~= head + (digest_list_encoding(p.siblings) + tail));
    match p.leaf {
        Some(leaf) => {
            assert(s[0] == 1u8);
            assert(s.subrange(1, 33) =~= leaf.key);
            assert(s.subrange(33, 65) =~= leaf.value_hash);
        },
        None => {
            assert(s[0] == 0u8);
        },
    }
    assert(s.skip(head.len() as int) =~= digest_list_encoding(p.siblings) + tail);
    lemma_digest_list_parse_encoding(p.siblings, tail);
}

/// Writing inverts reading for sparse Merkle proofs.
pub proof fn lemma_sparse_proof_encoding_parse(s: Seq<u8>)
    ensures
        sparse_proof_parse(s) matches Some((p, taken)) ==> sparse_proof_valid(p) && taken <= s.len()
            && s.subrange(0, taken as int) == sparse_proof_encoding(p),
{
    match leaf_option_parse(s) {
        None => {},
        Some((leaf, taken)) => {
            lemma_digest_list_encoding_parse(s.skip(taken as int));
            match leaf {
                Some(l) => {
                    assert(s.subrange(0, 65) =~= seq![1u8] + l.key + l.value_hash);
                },
                None => {
                    assert(s.subrange(0, 1) =~= seq![0u8]);
                },
            }
            match digest_list_parse(s.skip(taken as int)) {
                None => {},
                Some((siblings, more)) => {
                    assert(s.subrange(0, (taken + more) as int) =~= s.subrange(0, taken as int)
                        + s.skip(taken as int).subrange(0, more as int));
                },
            }
        },
    }
}

/// A sparse Merkle proof and its canonical encoding determine each other.
pub proof fn lemma_sparse_proof_codec(p: SparseMerkleProofView, bytes: Seq<u8>)
    ensures
        sparse_proof_decoding(bytes) == Some(p) <==> sparse_proof_valid(p) && sparse_proof_encoding(
            p,
        ) == bytes,
{
    lemma_sparse_proof_encoding_parse(bytes);
    if sparse_proof_valid(p) && sparse_proof_encoding(p) == bytes {
        lemma_sparse_proof_parse_encoding(p, Seq::empty());
        assert(sparse_proof_encoding(p) + Seq::<u8>::empty() =~= sparse_proof_encoding(p));
    }
    if sparse_proof_decoding(bytes) == Some(p) {
        assert(bytes.subrange(0, bytes.len() as int) =~= bytes);
    }
}

/// The verdict on a proof that `key` is bound to `value_hash`.
///
/// A proof without siblings gives `EmptyProof`. A proof with more siblings
/// than a key has bits, a proof without a leaf, and a proof whose leaf holds
/// another key or another value hash give `MalformedProof`. Any other proof
/// gives the root that the path from its leaf leads to.
pub open spec fn sparse_verdict(p: SparseMerkleProofView, key: Seq<u8>, value_hash: Seq<u8>) -> Result<
    Seq<u8>,
    Error,
> {
    if p.siblings.len() == 0 {
        Err(Error::EmptyProof)
    } else if p.siblings.len() > KEY_LENGTH_IN_BITS {
        Err(Error::MalformedProof)
    } else {
        match p.leaf {
            None => Err(Error::MalformedProof),
            Some(leaf) => if leaf.key == key && leaf.value_hash == value_hash {
                Ok(sparse_root(sparse_leaf_hash(key, value_hash), key, p.siblings))
            } else {
                Err(Error::MalformedProof)
            },
        }
    }
}

/// A proof that binds a key to a value hash binds it to no other: where
/// `verify_by_hash` gives a root for `value_hash`, it fails for every other
/// value hash, and for every other key.
pub proof fn lemma_sparse_proof_binds(
    p: SparseMerkleProofView,
    key: Seq<u8>,
    value_hash: Seq<u8>,
    other_key: Seq<u8>,
    other_value_hash: Seq<u8>,
)
    requires
        sparse_verdict(p, key, value_hash) is Ok,
        other_key != key || other_value_hash != value_hash,
    ensures
        sparse_verdict(p, other_key, other_value_hash) == Err::<Seq<u8>, Error>(
            Error::MalformedProof,
        ),
{
}

/// Computes the hash of an internal node of the sparse tree. `seed` is the
/// seed of the domain of internal nodes.
fn hash_sparse_internal(seed: &Digest32, left: &Digest32, right: &Digest32) -> (d: Digest32)
    requires
        seed@ == domain_seed(SPARSE_INTERNAL_DOMAIN.spec_bytes()),
    ensures
        d@ == sparse_internal_hash(left@, right@),
{
    let mut children: Vec<u8> = Vec::new();
    append_digest(&mut children, left);
    append_digest(&mut children, right);
    assert(children@ =~= left@ + right@);
    hash_with_seed(seed, children.as_slice())
}

/// Whether bit `i` of `key` is set.
fn bit_of_key(key: &Digest32, i: usize) -> (b: bool)
    requires
        i < KEY_LENGTH_IN_BITS,
    ensures
        b == key_bit(key@, i as int),
{
    let byte: u8 = key.bytes[i / 8];
    let place: u8 = (7 - i % 8) as u8;
    (byte >> place) & 1u8 == 1u8
}

impl SparseMerkleLeafNode {
    /// The leaf that binds `key` to `value_hash`.
    pub fn new(key: Digest32, value_hash: Digest32) -> (leaf: SparseMerkleLeafNode)
        ensures
            leaf.key == key,
            leaf.value_hash == value_hash,
    {
        SparseMerkleLeafNode { key, value_hash }
    }

    /// The hash of the leaf.
    pub fn hash(&self) -> (d: Digest32)
        ensures
            d@ == sparse_leaf_hash(self.key@, self.value_hash@),
    {
        let seed = seed_of_domain(SPARSE_LEAF_DOMAIN);
        let mut fields: Vec<u8> = Vec::new();
        append_digest(&mut fields, &self.key);
        append_digest(&mut fields, &self.value_hash);
        assert(fields@ =~= self.key@ + self.value_hash@);
        hash_with_seed(&seed, fields.as_slice())
    }
}

/// A proof that a key is bound to a value in the sparse state tree: the leaf
/// on the path of the key, and the siblings of the nodes on the path from
/// that leaf to the root, the lowest first. A leaf sits where its key is the
/// only one left in the subtree, so a proof holds as many siblings as the
/// leaf is deep, not one for each bit of the key.
#[derive(Debug)]
pub struct SparseMerkleProof {
    pub leaf: Option<SparseMerkleLeafNode>,
    pub siblings: Vec<Digest32>,
}

impl View for SparseMerkleProof {
    type V = SparseMerkleProofView;

    open spec fn view(&self) -> SparseMerkleProofView {
        SparseMerkleProofView { leaf: leaf_view(self.leaf), siblings: digests_view(self.siblings@) }
    }
}

impl Clone for SparseMerkleProof {
    fn clone(&self) -> (c: Self)
        ensures
            c@ == self@,
    {
        let siblings = self.siblings.clone();
        assert(digests_view(siblings@) =~= digests_view(self.siblings@));
        SparseMerkleProof { leaf: self.leaf, siblings }
    }
}

impl SparseMerkleProof {
    /// The proof made of the given leaf and siblings, the lowest sibling first.
    pub fn new(leaf: Option<SparseMerkleLeafNode>, siblings: Vec<Digest32>) -> (p: SparseMerkleProof)
        ensures
            p@.leaf == leaf_view(leaf),
            p@.siblings == digests_view(siblings@),
    {
        SparseMerkleProof { leaf, siblings }
    }

    /// The canonical encoding of the proof.
    pub fn to_bytes(&self) -> (bytes: Vec<u8>)
        ensures
            bytes@ == sparse_proof_encoding(self@),
    {
        let mut buf: Vec<u8> = Vec::new();
        match &self.leaf {
            Some(leaf) => {
                buf.push(1u8);
                append_digest(&mut buf, &leaf.key);
                append_digest(&mut buf, &leaf.value_hash);
                assert(buf@ =~= leaf_option_encoding(self@.leaf));
            },
            None => {
                buf.push(0u8);
                assert(buf@ =~= leaf_option_encoding(self@.leaf));
            },
        }
        write_digest_list(&mut buf, &self.siblings);
        buf
    }

    /// Reads the proof that `bytes` is the canonical encoding of. Bytes
    /// that are no such encoding, or that go on behind it, are refused.
    pub fn from_bytes(bytes: &[u8]) -> (r: Result<SparseMerkleProof, Error>)
        ensures
            match r {
                Ok(p) => sparse_proof_decoding(bytes@) == Some(p@),
                Err(e) => e == Error::DeserializationError && sparse_proof_decoding(bytes@) is None,
            },
    {
        assert(bytes@.skip(0) =~= bytes@);
        let (present, after_tag) = match read_bool(bytes, 0) {
            None => {
                return Err(Error::DeserializationError);
            },
            Some(found) => found,
        };
        let mut leaf: Option<SparseMerkleLeafNode> = None;
        let mut start: usize = after_tag;
        if present {
            let (key, after_key) = match read_digest(bytes, 1) {
                None => {
                    return Err(Error::DeserializationError);
                },
                Some(found) => found,
            };
            let (value_hash, after_value) = match read_digest(bytes, after_key) {
                None => {
                    return Err(Error::DeserializationError);
                },
                Some(found) => found,
            };
            assert(bytes@.skip(1).subrange(0, 32) =~= bytes@.subrange(1, 33));
            assert(bytes@.skip(33).subrange(0, 32) =~= bytes@.subrange(33, 65));
            leaf = Some(SparseMerkleLeafNode { key, value_hash });
            start = after_value;
        }
        match read_digest_list(bytes, start) {
            None => Err(Error::DeserializationError),
            Some((siblings, end)) => {
                if end == bytes.len() {
                    Ok(SparseMerkleProof { leaf, siblings })
                } else {
                    Err(Error::DeserializationError)
                }
            },
        }
    }

    /// Walks the path of `element_key` from the leaf of the proof to the
    /// root and returns the root it arrives at.
    ///
    /// `expected_root_hash`, the root that the caller believes in, has no
    /// part in the result: it is for the caller to compare it with the root
    /// returned.
    #[allow(unused_variables)]
    pub fn verify_by_hash(
        &self,
        expected_root_hash: Digest32,
        element_key: Digest32,
        element_hash: Digest32,
    ) -> (r: Result<Digest32, Error>)
        ensures
            match r {
                Ok(root) => sparse_verdict(self@, element_key@, element_hash@) == Ok::<
                    Seq<u8>,
                    Error,
                >(root@),
                Err(e) => sparse_verdict(self@, element_key@, element_hash@) == Err::<
                    Seq<u8>,
                    Error,
                >(e),
            },
    {
        let n = self.siblings.len();
        if n == 0 {
            return Err(Error::EmptyProof);
        }
        if n > KEY_LENGTH_IN_BITS {
            return Err(Error::MalformedProof);
        }
        let leaf = match self.leaf {
            None => {
                return Err(Error::MalformedProof);
            },
            Some(leaf) => leaf,
        };
        if !(leaf.key == element_key && leaf.value_hash == element_hash) {
            return Err(Error::MalformedProof);
        }
        let seed = seed_of_domain(SPARSE_INTERNAL_DOMAIN);
        let mut current: Digest32 = leaf.hash();
        let ghost start = current@;
        let ghost all = digests_view(self.siblings@);
        let mut i: usize = 0;
        assert(all.skip(0) =~= all);
        while i < n
            invariant
                i <= n,
                n <= KEY_LENGTH_IN_BITS,
                n == self.siblings@.len(),
                all == digests_view(self.siblings@),
                seed@ == domain_seed(SPARSE_INTERNAL_DOMAIN.spec_bytes()),
                sparse_root(start, element_key@, all) == sparse_root(
                    current@,
                    element_key@,
                    all.skip(i as int),
                ),
            decreases n - i,
        {
            let sibling = &self.siblings[i];
            let bit = bit_of_key(&element_key, n - 1 - i);
            proof {
                assert(all.skip(i as int).first() == sibling@);
                assert(all.skip(i as int).drop_first() =~= all.skip(i + 1));
            }
            if bit {
                current = hash_sparse_internal(&seed, sibling, &current);
            } else {
                current = hash_sparse_internal(&seed, &current, sibling);
            }
            i += 1;
        }
        Ok(current)
    }
}

/// The digest that stands for a subtree without leaves.
pub open spec fn sparse_placeholder() -> Seq<u8> {
    literal_digest(SPARSE_MERKLE_PLACEHOLDER.spec_bytes())
}

/// The first `depth` bits of a key: the way from the root to the node of
/// that depth on the path of the key.
pub open spec fn key_prefix(key: Seq<u8>, depth: nat) -> Seq<bool> {
    Seq::new(depth, |i: int| key_bit(key, i))
}

/// Whether the key lies in the subtree that `prefix` leads to.
pub open spec fn has_prefix(key: Seq<u8>, prefix: Seq<bool>) -> bool {
    forall|i: int| 0 <= i < prefix.len() ==> key_bit(key, i) == prefix[i]
}

/// No key of the tree lies in the subtree that `prefix` leads to.
pub open spec fn none_under(entries: Map<Seq<u8>, Seq<u8>>, prefix: Seq<bool>) -> bool {
    forall|k: Seq<u8>| entries.dom().contains(k) ==> !has_prefix(k, prefix)
}

/// `key` is the one key of the tree that lies in the subtree that `prefix`
/// leads to.
pub open spec fn only_under(entries: Map<Seq<u8>, Seq<u8>>, prefix: Seq<bool>, key: Seq<u8>) -> bool {
    &&& entries.dom().contains(key)
    &&& has_prefix(key, prefix)
    &&& forall|k: Seq<u8>| entries.dom().contains(k) && has_prefix(k, prefix) ==> k == key
}

/// The hash of the node that `prefix` leads to in the tree that binds each
/// key of `entries` to its value hash. A subtree without keys is the
/// placeholder; a subtree with one key is the leaf of that key, however
/// high it stands; any other is the internal node over its two halves.
pub open spec fn sparse_tree_node(entries: Map<Seq<u8>, Seq<u8>>, prefix: Seq<bool>) -> Seq<u8>
    decreases KEY_LENGTH_IN_BITS - prefix.len(),
{
    if none_under(entries, prefix) {
        sparse_placeholder()
    } else if exists|k: Seq<u8>| only_under(entries, prefix, k) {
        let key = choose|k: Seq<u8>| only_under(entries, prefix, k);
        sparse_leaf_hash(key, entries[key])
    } else if prefix.len() >= KEY_LENGTH_IN_BITS {
        sparse_placeholder()
    } else {
        sparse_internal_hash(
            sparse_tree_node(entries, prefix.push(false)),
            sparse_tree_node(entries, prefix.push(true)),
        )
    }
}

/// The root of the tree that binds each key of `entries` to its value hash.
pub open spec fn sparse_tree_root(entries: Map<Seq<u8>, Seq<u8>>) -> Seq<u8> {
    sparse_tree_node(entries, Seq::empty())
}

/// The sibling of the node of depth `depth` on the path of `key`.
pub open spec fn sparse_sibling(entries: Map<Seq<u8>, Seq<u8>>, key: Seq<u8>, depth: nat) -> Seq<u8> {
    sparse_tree_node(
        entries,
        key_prefix(key, (depth - 1) as nat).push(!key_bit(key, depth - 1)),
    )
}

/// The siblings of the path of `key` from the node of depth `depth` to the
/// root, the lowest first.
pub open spec fn sparse_path(entries: Map<Seq<u8>, Seq<u8>>, key: Seq<u8>, depth: nat) -> Seq<
    Seq<u8>,
> {
    Seq::new(depth, |i: int| sparse_sibling(entries, key, (depth - i) as nat))
}

/// The leaf of `key` stands at depth `depth`: the key is alone in the
/// subtree of that depth on its path, and in none above it.
pub open spec fn leaf_at_depth(entries: Map<Seq<u8>, Seq<u8>>, key: Seq<u8>, depth: nat) -> bool {
    &&& only_under(entries, key_prefix(key, depth), key)
    &&& forall|d: nat| d < depth ==> !only_under(entries, #[trigger] key_prefix(key, d), key)
}

/// The upper part of the path leads from the node of depth `d` on the path
/// of the key to the root.
proof fn lemma_sparse_climb(entries: Map<Seq<u8>, Seq<u8>>, key: Seq<u8>, depth: nat, d: nat)
    requires
        d <= depth <= KEY_LENGTH_IN_BITS,
        leaf_at_depth(entries, key, depth),
    ensures
        sparse_root(
            sparse_tree_node(entries, key_prefix(key, d)),
            key,
            sparse_path(entries, key, depth).skip(depth - d),
        ) == sparse_tree_root(entries),
    decreases d,
{
    let path = sparse_path(entries, key, depth);
    let rest = path.skip(depth - d);
    if d == 0 {
        assert(key_prefix(key, 0) =~= Seq::<bool>::empty());
    } else {
        let up = (d - 1) as nat;
        let above = key_prefix(key, up);
        let bit = key_bit(key, up as int);
        assert(rest.first() == sparse_sibling(entries, key, d));
        assert(rest.drop_first() =~= path.skip(depth - up));
        assert(key_prefix(key, d) =~= above.push(bit));
        assert(has_prefix(key, above));
        assert(!only_under(entries, above, key));
        assert(!(exists|k: Seq<u8>| only_under(entries, above, k)));
        assert(sparse_tree_node(entries, above) == sparse_internal_hash(
            sparse_tree_node(entries, above.push(false)),
            sparse_tree_node(entries, above.push(true)),
        ));
        lemma_sparse_climb(entries, key, depth, up);
    }
}

/// Every key of a tree has a proof: where the leaf of `key` stands at depth
/// `depth`, the path of the key leads from that leaf to the root of the tree.
pub proof fn lemma_sparse_path_leads_to_root(
    entries: Map<Seq<u8>, Seq<u8>>,
    key: Seq<u8>,
    depth: nat,
)
    requires
        depth <= KEY_LENGTH_IN_BITS,
        leaf_at_depth(entries, key, depth),
    ensures
        sparse_root(
            sparse_leaf_hash(key, entries[key]),
            key,
            sparse_path(entries, key, depth),
        ) == sparse_tree_root(entries),
{
    let prefix = key_prefix(key, depth);
    let chosen = choose|k: Seq<u8>| only_under(entries, prefix, k);
    assert(only_under(entries, prefix, key));
    assert(chosen == key);
    assert(sparse_tree_node(entries, prefix) == sparse_leaf_hash(key, entries[key]));
    lemma_sparse_climb(entries, key, depth, depth);
    assert(sparse_path(entries, key, depth).skip(0) =~= sparse_path(entries, key, depth));
}

/// For a tree built from a map of keys to value hashes, `verify_by_hash`
/// on a key of the map, with the leaf and the path of that key, gives the
/// root of the tree. The leaf must stand below the root: a tree of one key
/// has a proof without siblings, which `verify_by_hash` refuses.
pub proof fn lemma_sparse_proof_verifies(entries: Map<Seq<u8>, Seq<u8>>, key: Seq<u8>, depth: nat)
    requires
        1 <= depth <= KEY_LENGTH_IN_BITS,
        leaf_at_depth(entries, key, depth),
    ensures
        sparse_verdict(
            SparseMerkleProofView {
                leaf: Some(SparseMerkleLeafView { key: key, value_hash: entries[key] }),
                siblings: sparse_path(entries, key, depth),
            },
            key,
            entries[key],
        ) == Ok::<Seq<u8>, Error>(sparse_tree_root(entries)),
{
    lemma_sparse_path_leads_to_root(entries, key, depth);
}

/// The node that the path of `key` has reached after `steps` siblings.
pub open spec fn sparse_node_after(
    start: Seq<u8>,
    key: Seq<u8>,
    siblings: Seq<Seq<u8>>,
    steps: nat,
) -> Seq<u8>
    decreases steps,
{
    if steps == 0 {
        start
    } else {
        let below = sparse_node_after(start, key, siblings, (steps - 1) as nat);
        if key_bit(key, siblings.len() - steps) {
            sparse_internal_hash(siblings[steps - 1], below)
        } else {
            sparse_internal_hash(below, siblings[steps - 1])
        }
    }
}

/// The root is the node that the path has reached after all its siblings.
pub proof fn lemma_sparse_root_by_steps(
    start: Seq<u8>,
    key: Seq<u8>,
    siblings: Seq<Seq<u8>>,
    steps: nat,
)
    requires
        steps <= siblings.len(),
    ensures
        sparse_root(sparse_node_after(start, key, siblings, steps), key, siblings.skip(steps as int))
            == sparse_root(start, key, siblings),
    decreases steps,
{
    if steps == 0 {
        assert(siblings.skip(0) =~= siblings);
    } else {
        let before = (steps - 1) as nat;
        lemma_sparse_root_by_steps(start, key, siblings, before);
        let rest = siblings.skip(before as int);
        assert(rest.first() == siblings[before as int]);
        assert(rest.drop_first() =~= siblings.skip(steps as int));
    }
}

/// The hash tells apart what is hashed at step `step` of two paths of the
/// same key: where the children differ, so do the nodes.
pub open spec fn sparse_nodes_told_apart(
    start_p: Seq<u8>,
    p: Seq<Seq<u8>>,
    start_q: Seq<u8>,
    q: Seq<Seq<u8>>,
    key: Seq<u8>,
    step: nat,
) -> bool {
    let below_p = sparse_node_after(start_p, key, p, step);
    let below_q = sparse_node_after(start_q, key, q, step);
    (below_p != below_q || p[step as int] != q[step as int]) ==> sparse_node_after(
        start_p,
        key,
        p,
        step + 1,
    ) != sparse_node_after(start_q, key, q, step + 1)
}

/// The hash tells apart what is hashed at every step of the two paths.
pub open spec fn sparse_paths_told_apart(
    start_p: Seq<u8>,
    p: Seq<Seq<u8>>,
    start_q: Seq<u8>,
    q: Seq<Seq<u8>>,
    key: Seq<u8>,
) -> bool {
    forall|step: nat| step < p.len() ==> sparse_nodes_told_apart(start_p, p, start_q, q, key, step)
}

/// Two paths that have come apart after `j` steps stay apart.
proof fn lemma_sparse_paths_stay_apart(
    start_p: Seq<u8>,
    p: Seq<Seq<u8>>,
    start_q: Seq<u8>,
    q: Seq<Seq<u8>>,
    key: Seq<u8>,
    j: nat,
    k: nat,
)
    requires
        p.len() == q.len(),
        j <= k <= p.len(),
        sparse_paths_told_apart(start_p, p, start_q, q, key),
        sparse_node_after(start_p, key, p, j) != sparse_node_after(start_q, key, q, j),
    ensures
        sparse_node_after(start_p, key, p, k) != sparse_node_after(start_q, key, q, k),
    decreases k - j,
{
    if j < k {
        assert(sparse_nodes_told_apart(start_p, p, start_q, q, key, j));
        lemma_sparse_paths_stay_apart(start_p, p, start_q, q, key, j + 1, k);
    }
}

/// A path that was changed leads elsewhere: another start or other
/// siblings of the same number lead the path of the same key to another
/// root, unless the hash fails to tell apart what is hashed on the two paths.
pub proof fn lemma_changed_path_leads_elsewhere(
    start_p: Seq<u8>,
    p: Seq<Seq<u8>>,
    start_q: Seq<u8>,
    q: Seq<Seq<u8>>,
    key: Seq<u8>,
)
    requires
        p.len() == q.len(),
        start_p != start_q || p != q,
        sparse_paths_told_apart(start_p, p, start_q, q, key),
    ensures
        sparse_root(start_p, key, p) != sparse_root(start_q, key, q),
{
    let n = p.len();
    lemma_sparse_root_by_steps(start_p, key, p, n);
    lemma_sparse_root_by_steps(start_q, key, q, n);
    assert(p.skip(n as int) =~= Seq::<Seq<u8>>::empty());
    assert(q.skip(n as int) =~= Seq::<Seq<u8>>::empty());
    if start_p != start_q {
        lemma_sparse_paths_stay_apart(start_p, p, start_q, q, key, 0, n);
    } else {
        if forall|i: int| 0 <= i < p.len() ==> p[i] == q[i] {
            assert(p =~= q);
        }
        let j = choose|i: int| 0 <= i < p.len() && p[i] != q[i];
        assert(sparse_nodes_told_apart(start_p, p, start_q, q, key, j as nat));
        lemma_sparse_paths_stay_apart(start_p, p, start_q, q, key, (j + 1) as nat, n);
    }
}

} // verus!
