//! The transaction accumulator: an append-only Merkle tree that holds the
//! hash of every transaction at the place of its version, and the proofs
//! that a leaf sits at a place under a root.

use vstd::prelude::*;
use vstd::arithmetic::div_mod::lemma_basic_div;
use vstd::arithmetic::div_mod::lemma_div_denominator;
use vstd::arithmetic::div_mod::lemma_div_non_zero;
use vstd::arithmetic::power2::lemma_pow2_pos;
use vstd::arithmetic::power2::lemma_pow2_unfold;
use vstd::arithmetic::power2::pow2;
use vstd::string::StringSliceAdditionalSpecFns;
use crate::digest::append_digest;
use crate::digest::digest_list_encoding;
use crate::digest::digest_list_parse;
use crate::digest::digest_list_valid;
use crate::digest::lemma_digest_list_encoding_parse;
use crate::digest::lemma_digest_list_parse_encoding;
use crate::digest::read_digest_list;
use crate::digest::write_digest_list;
use crate::digest::digests_view;
use crate::digest::domain_seed;
use crate::digest::literal_digest;
use crate::digest::ACCUMULATOR_PLACEHOLDER;
use crate::digest::hash_with_seed;
use crate::digest::seed_of_domain;
use crate::digest::sha3_256;
use crate::digest::Digest32;
use crate::digest::ACCUMULATOR_DOMAIN;
use crate::encoding::whole_input;
use crate::error::Error;

verus! {

/// The greatest number of siblings that a proof may hold: a tree of this
/// height has a place for every 63-bit index.
pub const MAX_ACCUMULATOR_PROOF_DEPTH: usize = 63;

/// The hash of an internal node of the accumulator with the given children.
pub open spec fn accumulator_node(left: Seq<u8>, right: Seq<u8>) -> Seq<u8> {
    sha3_256(domain_seed(ACCUMULATOR_DOMAIN.spec_bytes()) + (left + right))
}

/// Bit `level` of `index`: whether the node on the path at that level is a
/// right child.
pub open spec fn index_bit(index: nat, level: nat) -> bool {
    (index / pow2(level)) % 2 == 1
}

/// The root that a path leads to. The path starts at `leaf`, the leaf at
/// place `index`, and `siblings[i]` is the sibling of the node on the path at
/// level `i`, counted from the leaves. Where bit `i` of `index` is set the
/// node on the path is the right child, and the sibling the left one.
pub open spec fn accumulator_root(leaf: Seq<u8>, index: nat, siblings: Seq<Seq<u8>>) -> Seq<u8>
    decreases siblings.len(),
{
    if siblings.len() == 0 {
        leaf
    } else {
        let below = accumulator_root(leaf, index, siblings.drop_last());
        if index_bit(index, (siblings.len() - 1) as nat) {
            accumulator_node(siblings.last(), below)
        } else {
            accumulator_node(below, siblings.last())
        }
    }
}

/// A proof with `siblings.len()` siblings speaks of a tree of that height,
/// which has `2^siblings.len()` places. It is malformed when it is higher
/// than any accumulator or when `index` is no place of that tree.
pub open spec fn accumulator_proof_malformed(siblings: Seq<Seq<u8>>, index: nat) -> bool {
    siblings.len() > MAX_ACCUMULATOR_PROOF_DEPTH || index >= pow2(siblings.len())
}

/// The verdict on a root that was recomputed: it must be the root that was
/// expected, in all its 32 bytes.
pub open spec fn root_verdict(recomputed: Seq<u8>, expected: Seq<u8>) -> Result<(), Error> {
    if recomputed == expected {
        Ok(())
    } else {
        Err(Error::RootMismatch)
    }
}

/// The verdict on a proof that `leaf` is at place `index` under `root`.
pub open spec fn accumulator_verdict(
    siblings: Seq<Seq<u8>>,
    root: Seq<u8>,
    leaf: Seq<u8>,
    index: nat,
) -> Result<(), Error> {
    if accumulator_proof_malformed(siblings, index) {
        Err(Error::MalformedProof)
    } else {
        root_verdict(accumulator_root(leaf, index, siblings), root)
    }
}

/// Compares a root that was recomputed with the root that was expected.
pub fn check_root(recomputed: &Digest32, expected: &Digest32) -> (r: Result<(), Error>)
    ensures
        r == root_verdict(recomputed@, expected@),
{
    if *recomputed == *expected {
        Ok(())
    } else {
        Err(Error::RootMismatch)
    }
}

/// The accumulator proof that `bytes` is the canonical encoding of.
pub open spec fn accumulator_proof_decoding(bytes: Seq<u8>) -> Option<Seq<Seq<u8>>> {
    whole_input(digest_list_parse(bytes), bytes.len())
}

/// An accumulator proof and its canonical encoding determine each other.
pub proof fn lemma_accumulator_proof_codec(siblings: Seq<Seq<u8>>, bytes: Seq<u8>)
    ensures
        accumulator_proof_decoding(bytes) == Some(siblings) <==> digest_list_valid(siblings)
            && digest_list_encoding(siblings) == bytes,
{
    lemma_digest_list_encoding_parse(bytes);
    if digest_list_valid(siblings) && digest_list_encoding(siblings) == bytes {
        lemma_digest_list_parse_encoding(siblings, Seq::empty());
        assert(digest_list_encoding(siblings) + Seq::<u8>::empty() =~= digest_list_encoding(
            siblings,
        ));
    }
    if accumulator_proof_decoding(bytes) == Some(siblings) {
        assert(bytes.subrange(0, bytes.len() as int) =~= bytes);
    }
}

/// Computes the hash of an internal node of the accumulator. `seed` is the
/// seed of the accumulator's domain.
fn hash_accumulator_node(seed: &Digest32, left: &Digest32, right: &Digest32) -> (d: Digest32)
    requires
        seed@ == domain_seed(ACCUMULATOR_DOMAIN.spec_bytes()),
    ensures
        d@ == accumulator_node(left@, right@),
{
    let mut children: Vec<u8> = Vec::new();
    append_digest(&mut children, left);
    append_digest(&mut children, right);
    assert(children@ =~= left@ + right@);
    hash_with_seed(seed, children.as_slice())
}

/// Whether `index` is a place of the tree of height `depth`.
fn index_fits(index: u64, depth: usize) -> (r: bool)
    ensures
        r == (index < pow2(depth as nat)),
{
    let mut rest: u64 = index;
    let mut level: usize = 0;
    proof {
        vstd::arithmetic::power2::lemma2_to64();
    }
    while level < depth && rest != 0
        invariant
            level <= depth,
            rest == index as nat / pow2(level as nat),
        decreases depth - level,
    {
        proof {
            lemma_pow2_pos(level as nat);
            lemma_pow2_unfold((level + 1) as nat);
            lemma_div_denominator(index as int, pow2(level as nat) as int, 2);
            assert(pow2(level as nat) * 2 == 2 * pow2(level as nat));
        }
        rest = rest / 2;
        level += 1;
    }
    proof {
        lemma_pow2_pos(level as nat);
        lemma_pow2_pos(depth as nat);
        if rest == 0 {
            if index >= pow2(level as nat) {
                lemma_div_non_zero(index as int, pow2(level as nat) as int);
            }
            if level < depth {
                vstd::arithmetic::power2::lemma_pow2_strictly_increases(level as nat, depth as nat);
            }
        } else {
            if index < pow2(depth as nat) {
                lemma_basic_div(index as int, pow2(depth as nat) as int);
            }
        }
    }
    rest == 0
}

/// A proof that a leaf sits at a given place of the transaction accumulator:
/// the siblings of the nodes on the path from the leaf to the root, the
/// lowest first.
#[derive(Debug)]
pub struct TransactionAccumulatorProof {
    pub siblings: Vec<Digest32>,
}

impl View for TransactionAccumulatorProof {
    type V = Seq<Seq<u8>>;

    open spec fn view(&self) -> Seq<Seq<u8>> {
        digests_view(self.siblings@)
    }
}

impl Clone for TransactionAccumulatorProof {
    fn clone(&self) -> (c: Self)
        ensures
            c@ == self@,
    {
        let siblings = self.siblings.clone();
        assert(digests_view(siblings@) =~= digests_view(self.siblings@));
        TransactionAccumulatorProof { siblings }
    }
}

impl TransactionAccumulatorProof {
    /// The proof made of the given siblings, the lowest first.
    pub fn new(siblings: Vec<Digest32>) -> (p: TransactionAccumulatorProof)
        ensures
            p@ == digests_view(siblings@),
    {
        TransactionAccumulatorProof { siblings }
    }

    /// The canonical encoding of the proof: the number of siblings, then
    /// each sibling, the lowest first.
    pub fn to_bytes(&self) -> (bytes: Vec<u8>)
        ensures
            bytes@ == digest_list_encoding(self@),
    {
        let mut buf: Vec<u8> = Vec::new();
        write_digest_list(&mut buf, &self.siblings);
        buf
    }

    /// Reads the proof that `bytes` is the canonical encoding of. Bytes
    /// that are no such encoding, or that go on behind it, are refused.
    pub fn from_bytes(bytes: &[u8]) -> (r: Result<TransactionAccumulatorProof, Error>)
        ensures
            match r {
                Ok(p) => accumulator_proof_decoding(bytes@) == Some(p@),
                Err(e) => e == Error::DeserializationError && accumulator_proof_decoding(bytes@)
                    is None,
            },
    {
        assert(bytes@.skip(0) =~= bytes@);
        match read_digest_list(bytes, 0) {
            None => Err(Error::DeserializationError),
            Some((siblings, end)) => {
                if end == bytes.len() {
                    Ok(TransactionAccumulatorProof { siblings })
                } else {
                    Err(Error::DeserializationError)
                }
            },
        }
    }

    /// Recomputes the root from `element_hash` at place `element_index` and
    /// the siblings of the proof, and compares it with `expected_root_hash`.
    pub fn verify(
        &self,
        expected_root_hash: Digest32,
        element_hash: Digest32,
        element_index: u64,
    ) -> (r: Result<(), Error>)
        ensures
            r == accumulator_verdict(
                self@,
                expected_root_hash@,
                element_hash@,
                element_index as nat,
            ),
    {
        let n = self.siblings.len();
        if n > MAX_ACCUMULATOR_PROOF_DEPTH || !index_fits(element_index, n) {
            return Err(Error::MalformedProof);
        }
        let seed = seed_of_domain(ACCUMULATOR_DOMAIN);
        let mut current: Digest32 = element_hash;
        let mut rest: u64 = element_index;
        let mut level: usize = 0;
        proof {
            vstd::arithmetic::power2::lemma2_to64();
            assert(self@.take(0) =~= Seq::<Seq<u8>>::empty());
        }
        while level < n
            invariant
                level <= n,
                n == self.siblings@.len(),
                seed@ == domain_seed(ACCUMULATOR_DOMAIN.spec_bytes()),
                rest == element_index as nat / pow2(level as nat),
                current@ == accumulator_root(
                    element_hash@,
                    element_index as nat,
                    self@.take(level as int),
                ),
            decreases n - level,
        {
            let sibling = &self.siblings[level];
            proof {
                lemma_pow2_pos(level as nat);
                lemma_pow2_unfold((level + 1) as nat);
                lemma_div_denominator(element_index as int, pow2(level as nat) as int, 2);
                assert(pow2(level as nat) * 2 == 2 * pow2(level as nat));
                assert(self@.take(level + 1).drop_last() =~= self@.take(level as int));
                assert(self@.take(level + 1).last() == sibling@);
            }
            if rest % 2 == 1 {
                current = hash_accumulator_node(&seed, sibling, &current);
            } else {
                current = hash_accumulator_node(&seed, &current, sibling);
            }
            rest = rest / 2;
            level += 1;
        }
        assert(self@.take(n as int) =~= self@);
        check_root(&current, &expected_root_hash)
    }
}

/// The digest that stands for a subtree without leaves.
pub open spec fn accumulator_placeholder() -> Seq<u8> {
    literal_digest(ACCUMULATOR_PLACEHOLDER.spec_bytes())
}

/// The root of the subtree of height `height` whose leftmost place is
/// `start`, in the accumulator that holds `leaves`. A subtree without
/// leaves is the placeholder; a subtree of height 0 is its leaf; any other
/// is the node over its two halves.
pub open spec fn subtree_root(leaves: Seq<Seq<u8>>, height: nat, start: nat) -> Seq<u8>
    decreases height,
{
    if start >= leaves.len() {
        accumulator_placeholder()
    } else if height == 0 {
        leaves[start as int]
    } else {
        accumulator_node(
            subtree_root(leaves, (height - 1) as nat, start),
            subtree_root(leaves, (height - 1) as nat, start + pow2((height - 1) as nat)),
        )
    }
}

/// The root of the accumulator of height `height` that holds `leaves`.
pub open spec fn accumulator_tree_root(leaves: Seq<Seq<u8>>, height: nat) -> Seq<u8> {
    subtree_root(leaves, height, 0)
}

/// The leftmost place of the subtree of height `level` that holds `index`.
pub open spec fn subtree_start(index: nat, level: nat) -> nat {
    (index / pow2(level)) * pow2(level)
}

/// The sibling, at level `level`, of the path from place `index` to the root.
pub open spec fn sibling_on_path(leaves: Seq<Seq<u8>>, index: nat, level: nat) -> Seq<u8> {
    if index_bit(index, level) {
        subtree_root(leaves, level, (subtree_start(index, level) - pow2(level)) as nat)
    } else {
        subtree_root(leaves, level, subtree_start(index, level) + pow2(level))
    }
}

/// The proof for place `index` in the accumulator of height `height` that
/// holds `leaves`: the siblings of the path, the lowest first.
pub open spec fn accumulator_path(leaves: Seq<Seq<u8>>, index: nat, height: nat) -> Seq<Seq<u8>> {
    Seq::new(height, |level: int| sibling_on_path(leaves, index, level as nat))
}

/// Halving a place: the place at level `k + 1` is half the place at level `k`.
proof fn lemma_level_up(index: nat, k: nat)
    ensures
        pow2(k) > 0,
        pow2(k + 1) == 2 * pow2(k),
        index / pow2(k + 1) == (index / pow2(k)) / 2,
        index / pow2(k) == 2 * (index / pow2(k + 1)) + (index / pow2(k)) % 2,
        subtree_start(index, k) == subtree_start(index, k + 1) + ((index / pow2(k)) % 2) * pow2(k),
        subtree_start(index, k + 1) <= index,
{
    lemma_pow2_pos(k);
    lemma_pow2_pos(k + 1);
    lemma_pow2_unfold(k + 1);
    lemma_div_denominator(index as int, pow2(k) as int, 2);
    assert(pow2(k) * 2 == pow2(k + 1));
    let q = index / pow2(k);
    let h = index / pow2(k + 1);
    let r = q % 2;
    assert(q == 2 * h + r);
    assert(q * pow2(k) == h * pow2(k + 1) + r * pow2(k)) by (nonlinear_arith)
        requires
            q == 2 * h + r,
            pow2(k + 1) == 2 * pow2(k),
    ;
    vstd::arithmetic::div_mod::lemma_fundamental_div_mod(index as int, pow2(k + 1) as int);
    assert(pow2(k + 1) * h == h * pow2(k + 1)) by (nonlinear_arith);
    vstd::arithmetic::div_mod::lemma_mod_bound(index as int, pow2(k + 1) as int);
}

/// The first `k` siblings of the path lead from the leaf to the root of the
/// subtree of height `k` that holds the leaf.
proof fn lemma_path_reaches_subtree(leaves: Seq<Seq<u8>>, index: nat, height: nat, k: nat)
    requires
        index < leaves.len(),
        k <= height,
    ensures
        accumulator_root(
            leaves[index as int],
            index,
            accumulator_path(leaves, index, height).take(k as int),
        ) == subtree_root(leaves, k, subtree_start(index, k)),
    decreases k,
{
    let path = accumulator_path(leaves, index, height);
    if k == 0 {
        vstd::arithmetic::power2::lemma2_to64();
        assert(subtree_start(index, 0) == index) by (nonlinear_arith)
            requires
                pow2(0) == 1,
                subtree_start(index, 0) == (index / pow2(0)) * pow2(0),
        ;
        assert(path.take(0) =~= Seq::<Seq<u8>>::empty());
    } else {
        let j = (k - 1) as nat;
        lemma_path_reaches_subtree(leaves, index, height, j);
        lemma_level_up(index, j);
        assert(path.take(k as int).drop_last() =~= path.take(j as int));
        assert(path.take(k as int).last() == sibling_on_path(leaves, index, j));
        let bit = (index / pow2(j)) % 2;
        assert(bit == 0 || bit == 1);
        assert(bit * pow2(j) == if bit == 1 {
            pow2(j)
        } else {
            0
        }) by (nonlinear_arith)
            requires
                bit == 0 || bit == 1,
        ;
    }
}

/// Every leaf of an accumulator has a proof: the path for place `index` in
/// the accumulator that holds `leaves` leads from the leaf at that place to
/// the root of the accumulator.
pub proof fn lemma_accumulator_path_leads_to_root(leaves: Seq<Seq<u8>>, index: nat, height: nat)
    requires
        index < leaves.len() <= pow2(height),
    ensures
        accumulator_root(leaves[index as int], index, accumulator_path(leaves, index, height))
            == accumulator_tree_root(leaves, height),
{
    let path = accumulator_path(leaves, index, height);
    lemma_path_reaches_subtree(leaves, index, height, height);
    assert(path.take(height as int) =~= path);
    lemma_pow2_pos(height);
    lemma_basic_div(index as int, pow2(height) as int);
    assert(subtree_start(index, height) == 0) by (nonlinear_arith)
        requires
            index / pow2(height) == 0,
            subtree_start(index, height) == (index / pow2(height)) * pow2(height),
    ;
}

/// The proof of every leaf verifies: in an accumulator of `leaves`, no
/// higher than an accumulator may be, `verify` accepts the path for each
/// place against the root of the accumulator.
pub proof fn lemma_accumulator_proof_verifies(leaves: Seq<Seq<u8>>, index: nat, height: nat)
    requires
        index < leaves.len() <= pow2(height),
        height <= MAX_ACCUMULATOR_PROOF_DEPTH,
    ensures
        accumulator_verdict(
            accumulator_path(leaves, index, height),
            accumulator_tree_root(leaves, height),
            leaves[index as int],
            index,
        ) == Ok::<(), Error>(()),
{
    lemma_accumulator_path_leads_to_root(leaves, index, height);
}

/// The two children that are hashed at level `level` of the path.
pub open spec fn accumulator_children(
    leaf: Seq<u8>,
    index: nat,
    siblings: Seq<Seq<u8>>,
    level: int,
) -> (Seq<u8>, Seq<u8>) {
    let below = accumulator_root(leaf, index, siblings.take(level));
    if index_bit(index, level as nat) {
        (siblings[level], below)
    } else {
        (below, siblings[level])
    }
}

/// The hash tells apart what is hashed at level `level` of two paths for
/// the same place: where the children differ, so do the nodes.
pub open spec fn nodes_told_apart(
    leaf_p: Seq<u8>,
    p: Seq<Seq<u8>>,
    leaf_q: Seq<u8>,
    q: Seq<Seq<u8>>,
    index: nat,
    level: int,
) -> bool {
    let a = accumulator_children(leaf_p, index, p, level);
    let b = accumulator_children(leaf_q, index, q, level);
    a != b ==> accumulator_node(a.0, a.1) != accumulator_node(b.0, b.1)
}

/// The hash tells apart what is hashed at every level of the two paths.
pub open spec fn paths_told_apart(
    leaf_p: Seq<u8>,
    p: Seq<Seq<u8>>,
    leaf_q: Seq<u8>,
    q: Seq<Seq<u8>>,
    index: nat,
) -> bool {
    forall|level: int| 0 <= level < p.len() ==> nodes_told_apart(leaf_p, p, leaf_q, q, index, level)
}

/// Two paths that have come apart at level `j` stay apart at every level
/// above it.
proof fn lemma_paths_stay_apart(
    leaf_p: Seq<u8>,
    p: Seq<Seq<u8>>,
    leaf_q: Seq<u8>,
    q: Seq<Seq<u8>>,
    index: nat,
    j: int,
    k: int,
)
    requires
        p.len() == q.len(),
        0 <= j <= k <= p.len(),
        paths_told_apart(leaf_p, p, leaf_q, q, index),
        accumulator_root(leaf_p, index, p.take(j)) != accumulator_root(leaf_q, index, q.take(j)),
    ensures
        accumulator_root(leaf_p, index, p.take(k)) != accumulator_root(leaf_q, index, q.take(k)),
    decreases k - j,
{
    if j < k {
        assert(p.take(j + 1).drop_last() =~= p.take(j));
        assert(q.take(j + 1).drop_last() =~= q.take(j));
        assert(nodes_told_apart(leaf_p, p, leaf_q, q, index, j));
        lemma_paths_stay_apart(leaf_p, p, leaf_q, q, index, j + 1, k);
    }
}

/// Two paths with different siblings at level `j` are apart above that level.
proof fn lemma_paths_come_apart(
    leaf_p: Seq<u8>,
    p: Seq<Seq<u8>>,
    leaf_q: Seq<u8>,
    q: Seq<Seq<u8>>,
    index: nat,
    j: int,
)
    requires
        p.len() == q.len(),
        0 <= j < p.len(),
        p[j] != q[j],
        paths_told_apart(leaf_p, p, leaf_q, q, index),
    ensures
        accumulator_root(leaf_p, index, p.take(j + 1)) != accumulator_root(
            leaf_q,
            index,
            q.take(j + 1),
        ),
{
    assert(p.take(j + 1).drop_last() =~= p.take(j));
    assert(q.take(j + 1).drop_last() =~= q.take(j));
    assert(p.take(j + 1).last() == p[j]);
    assert(q.take(j + 1).last() == q[j]);
    assert(nodes_told_apart(leaf_p, p, leaf_q, q, index, j));
}

/// What was changed is refused: where `verify` accepts the leaf `leaf_p`
/// with the siblings `p`, it gives `RootMismatch` for any other leaf or any
/// other siblings of the same number at the same place, be it that a single
/// bit of a single sibling was flipped, unless the hash fails to tell apart
/// what is hashed on the two paths.
pub proof fn lemma_changed_proof_is_refused(
    leaf_p: Seq<u8>,
    p: Seq<Seq<u8>>,
    leaf_q: Seq<u8>,
    q: Seq<Seq<u8>>,
    index: nat,
    root: Seq<u8>,
)
    requires
        p.len() == q.len(),
        leaf_p != leaf_q || p != q,
        paths_told_apart(leaf_p, p, leaf_q, q, index),
        accumulator_verdict(p, root, leaf_p, index) is Ok,
    ensures
        accumulator_verdict(q, root, leaf_q, index) == Err::<(), Error>(Error::RootMismatch),
{
    let n = p.len() as int;
    assert(p.take(n) =~= p);
    assert(q.take(n) =~= q);
    if leaf_p != leaf_q {
        assert(p.take(0) =~= Seq::<Seq<u8>>::empty());
        assert(q.take(0) =~= Seq::<Seq<u8>>::empty());
        lemma_paths_stay_apart(leaf_p, p, leaf_q, q, index, 0, n);
    } else {
        if forall|i: int| 0 <= i < p.len() ==> p[i] == q[i] {
            assert(p =~= q);
        }
        let j = choose|i: int| 0 <= i < p.len() && p[i] != q[i];
        lemma_paths_come_apart(leaf_p, p, leaf_q, q, index, j);
        lemma_paths_stay_apart(leaf_p, p, leaf_q, q, index, j + 1, n);
    }
}

/// The hash tells apart what is hashed at level `level` of the same path
/// taken for two places: where the children differ, so do the nodes.
pub open spec fn places_told_apart(
    leaf: Seq<u8>,
    siblings: Seq<Seq<u8>>,
    index: nat,
    other: nat,
    level: int,
) -> bool {
    let a = accumulator_children(leaf, index, siblings, level);
    let b = accumulator_children(leaf, other, siblings, level);
    a != b ==> accumulator_node(a.0, a.1) != accumulator_node(b.0, b.1)
}

/// Below the first level at which two places differ, their paths are one.
proof fn lemma_places_share_the_way(
    leaf: Seq<u8>,
    siblings: Seq<Seq<u8>>,
    index: nat,
    other: nat,
    level: int,
    k: int,
)
    requires
        0 <= k <= level <= siblings.len(),
        forall|l: nat| l < level ==> #[trigger] index_bit(index, l) == index_bit(other, l),
    ensures
        accumulator_root(leaf, index, siblings.take(k)) == accumulator_root(
            leaf,
            other,
            siblings.take(k),
        ),
    decreases k,
{
    if k > 0 {
        lemma_places_share_the_way(leaf, siblings, index, other, level, k - 1);
        assert(siblings.take(k).drop_last() =~= siblings.take(k - 1));
        assert(index_bit(index, (k - 1) as nat) == index_bit(other, (k - 1) as nat));
    }
}

/// Once the paths of two places have come apart, they stay apart.
proof fn lemma_places_stay_apart(
    leaf: Seq<u8>,
    siblings: Seq<Seq<u8>>,
    index: nat,
    other: nat,
    j: int,
    k: int,
)
    requires
        0 <= j <= k <= siblings.len(),
        forall|l: int| 0 <= l < siblings.len() ==> places_told_apart(leaf, siblings, index, other, l),
        accumulator_root(leaf, index, siblings.take(j)) != accumulator_root(
            leaf,
            other,
            siblings.take(j),
        ),
    ensures
        accumulator_root(leaf, index, siblings.take(k)) != accumulator_root(
            leaf,
            other,
            siblings.take(k),
        ),
    decreases k - j,
{
    if j < k {
        assert(siblings.take(j + 1).drop_last() =~= siblings.take(j));
        assert(siblings.take(j + 1).last() == siblings[j]);
        assert(places_told_apart(leaf, siblings, index, other, j));
        lemma_places_stay_apart(leaf, siblings, index, other, j + 1, k);
    }
}

/// The place is part of what is proved: where `verify` accepts a proof for
/// the place `index`, it gives `RootMismatch` for any other place `other`
/// of the same tree. This needs that, at the first level `level` at which
/// the two places differ, the node on the path is not the same as its
/// sibling, for a tree with two equal halves looks the same from both; and
/// that the hash does not fail to tell apart what is hashed on the two ways.
pub proof fn lemma_changed_place_is_refused(
    leaf: Seq<u8>,
    siblings: Seq<Seq<u8>>,
    index: nat,
    other: nat,
    level: int,
    root: Seq<u8>,
)
    requires
        0 <= level < siblings.len(),
        index_bit(index, level as nat) != index_bit(other, level as nat),
        forall|l: nat| l < level ==> #[trigger] index_bit(index, l) == index_bit(other, l),
        accumulator_root(leaf, index, siblings.take(level)) != siblings[level],
        forall|l: int| 0 <= l < siblings.len() ==> places_told_apart(leaf, siblings, index, other, l),
        !accumulator_proof_malformed(siblings, other),
        accumulator_verdict(siblings, root, leaf, index) is Ok,
    ensures
        accumulator_verdict(siblings, root, leaf, other) == Err::<(), Error>(Error::RootMismatch),
{
    let n = siblings.len() as int;
    lemma_places_share_the_way(leaf, siblings, index, other, level, level);
    assert(siblings.take(level + 1).drop_last() =~= siblings.take(level));
    assert(siblings.take(level + 1).last() == siblings[level]);
    assert(places_told_apart(leaf, siblings, index, other, level));
    lemma_places_stay_apart(leaf, siblings, index, other, level + 1, n);
    assert(siblings.take(n) =~= siblings);
}

} // verus!
