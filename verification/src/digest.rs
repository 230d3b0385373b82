//! Digests of 32 bytes, the hash behind them, and the domains that keep
//! hashes of different kinds of record apart.

use vstd::prelude::*;
use vstd::std_specs::cmp::PartialEqSpecImpl;
use vstd::string::StringSliceAdditionalSpecFns;
use crate::encoding::all_valid;
use crate::encoding::append_bytes;
use crate::encoding::bool_parse;
use crate::encoding::encoding_inverts;
use crate::encoding::fixed_parse;
use crate::encoding::items_encoding;
use crate::encoding::items_parse;
use crate::encoding::length_parse;
use crate::encoding::lemma_items_encoding_parse;
use crate::encoding::lemma_items_parse_encoding;
use crate::encoding::lemma_uleb128_encoding_parse;
use crate::encoding::lemma_uleb128_len_u64;
use crate::encoding::lemma_uleb128_parse_encoding;
use crate::encoding::parse_inverts;
use crate::encoding::read_array;
use crate::encoding::read_bool;
use crate::encoding::read_length;
use crate::encoding::slices_equal;
use crate::encoding::uleb128;
use crate::encoding::write_uleb128;

verus! {

/// Width of every digest in bytes.
pub const DIGEST_LENGTH: usize = 32;

/// A 32-byte digest: the output of a hash, a key of the sparse tree, or a
/// block identifier. Two digests are equal when all 32 bytes are.
#[derive(Clone, Copy, Debug)]
pub struct Digest32 {
    pub bytes: [u8; 32],
}

impl View for Digest32 {
    type V = Seq<u8>;

    open spec fn view(&self) -> Seq<u8> {
        self.bytes@
    }
}

impl PartialEq for Digest32 {
    fn eq(&self, other: &Self) -> (r: bool) {
        slices_equal(self.bytes.as_slice(), other.bytes.as_slice())
    }
}

impl Eq for Digest32 {}

impl PartialEqSpecImpl for Digest32 {
    open spec fn obeys_eq_spec() -> bool {
        true
    }

    open spec fn eq_spec(&self, other: &Self) -> bool {
        self@ == other@
    }
}

impl Digest32 {
    /// The digest made of the given 32 bytes.
    pub fn new(bytes: [u8; 32]) -> (d: Digest32)
        ensures
            d@ == bytes@,
    {
        Digest32 { bytes }
    }

    /// The digest held in `bytes`, which must be exactly 32 bytes long.
    pub fn from_slice(bytes: &[u8]) -> (r: Option<Digest32>)
        ensures
            bytes@.len() == 32 <==> r is Some,
            r matches Some(d) ==> d@ == bytes@,
    {
        if bytes.len() != 32 {
            return None;
        }
        let mut out: [u8; 32] = [0u8; 32];
        let mut i: usize = 0;
        while i < 32
            invariant
                i <= 32,
                bytes@.len() == 32,
                forall|j: int| 0 <= j < i ==> out@[j] == bytes@[j],
            decreases 32 - i,
        {
            out[i] = bytes[i];
            i += 1;
        }
        assert(out@ =~= bytes@);
        Some(Digest32 { bytes: out })
    }

    /// The 32 bytes of the digest.
    pub fn to_vec(&self) -> (v: Vec<u8>)
        ensures
            v@ == self@,
    {
        let mut v: Vec<u8> = Vec::new();
        append_digest(&mut v, self);
        v
    }
}

/// Appends the 32 bytes of `d` to `buf`.
pub fn append_digest(buf: &mut Vec<u8>, d: &Digest32)
    ensures
        final(buf)@ == old(buf)@ + d@,
{
    append_bytes(buf, d.bytes.as_slice());
}

/// SHA3-256 of a byte string, as the hashing crate computes it.
pub uninterp spec fn sha3_256(data: Seq<u8>) -> Seq<u8>;

/// The hash tells `x` and `y` apart: they are the same bytes, or their
/// digests differ. No two byte strings are known of which this fails, but
/// 32 bytes cannot tell all byte strings apart, so it is a premise wherever
/// a law needs it, and is asked of the very bytes that are hashed.
pub open spec fn no_collision(x: Seq<u8>, y: Seq<u8>) -> bool {
    sha3_256(x) == sha3_256(y) ==> x == y
}

/// Calls `tiny_keccak::Sha3::v256`, feeds it `data` in one
/// `Hasher::update`, and reads 32 bytes with `Hasher::finalize`.
/// The contract claims only that the output is the SHA3-256 digest of
/// `data`, a function of `data` alone; nothing here checks the sponge.
#[verifier::external_body]
fn sha3_256_digest(data: &[u8]) -> (out: [u8; 32])
    ensures
        out@ == sha3_256(data@),
{
    let mut hasher = tiny_keccak::Sha3::v256();
    tiny_keccak::Hasher::update(&mut hasher, data);
    let mut out = [0u8; 32];
    tiny_keccak::Hasher::finalize(hasher, &mut out);
    out
}

/// SHA3-256 of `data`.
pub fn hash_bytes(data: &[u8]) -> (d: Digest32)
    ensures
        d@ == sha3_256(data@),
{
    Digest32 { bytes: sha3_256_digest(data) }
}

/// Prefix of every domain separator.
pub const HASH_SALT: &'static str = "APTOS::";

/// Domain of the internal nodes of the transaction accumulator.
pub const ACCUMULATOR_DOMAIN: &'static str = "TransactionAccumulator";

/// Domain of the internal nodes of the sparse state tree.
pub const SPARSE_INTERNAL_DOMAIN: &'static str = "SparseMerkleInternal";

/// Domain of the leaves of the sparse state tree.
pub const SPARSE_LEAF_DOMAIN: &'static str = "SparseMerkleLeafNode";

/// Domain of transaction records.
pub const TRANSACTION_INFO_DOMAIN: &'static str = "TransactionInfo";

/// Domain of ledger headers.
pub const LEDGER_INFO_DOMAIN: &'static str = "LedgerInfo";

/// Domain of validator committees.
pub const COMMITTEE_DOMAIN: &'static str = "ValidatorVerifier";

/// The seed of a domain: the hash of the salt followed by the domain's name.
/// Hashes of different kinds of record start from different seeds, so a
/// record of one kind is never taken for one of another.
pub open spec fn domain_seed(name: Seq<u8>) -> Seq<u8> {
    sha3_256(HASH_SALT.spec_bytes() + name)
}

/// The hash of `payload` in the domain `name`.
pub open spec fn domain_hash(name: Seq<u8>, payload: Seq<u8>) -> Seq<u8> {
    sha3_256(domain_seed(name) + payload)
}

/// Computes the seed of the domain `name`.
pub fn seed_of_domain(name: &str) -> (seed: Digest32)
    ensures
        seed@ == domain_seed(name.spec_bytes()),
{
    let mut buf: Vec<u8> = Vec::new();
    append_bytes(&mut buf, HASH_SALT.as_bytes());
    append_bytes(&mut buf, name.as_bytes());
    hash_bytes(buf.as_slice())
}

/// Hashes `payload` behind an already computed domain seed.
pub fn hash_with_seed(seed: &Digest32, payload: &[u8]) -> (d: Digest32)
    ensures
        d@ == sha3_256(seed@ + payload@),
{
    let mut buf: Vec<u8> = Vec::new();
    append_digest(&mut buf, seed);
    append_bytes(&mut buf, payload);
    hash_bytes(buf.as_slice())
}

/// Hashes `payload` in the domain `name`.
pub fn hash_in_domain(name: &str, payload: &[u8]) -> (d: Digest32)
    ensures
        d@ == domain_hash(name.spec_bytes(), payload@),
{
    let seed = seed_of_domain(name);
    hash_with_seed(&seed, payload)
}

/// The digest that spells `word` and is filled up with zero bytes.
pub open spec fn literal_digest(word: Seq<u8>) -> Seq<u8> {
    Seq::new(32, |i: int| if i < word.len() { word[i] } else { 0u8 })
}

/// Name of the digest that stands for an empty subtree of the accumulator.
pub const ACCUMULATOR_PLACEHOLDER: &'static str = "ACCUMULATOR_PLACEHOLDER_HASH";

/// Name of the digest that stands for an empty subtree of the sparse tree.
pub const SPARSE_MERKLE_PLACEHOLDER: &'static str = "SPARSE_MERKLE_PLACEHOLDER_HASH";

/// Builds the digest that spells `word`; bytes of `word` past the 32nd are left out.
pub fn digest_from_literal(word: &str) -> (d: Digest32)
    ensures
        d@ == literal_digest(word.spec_bytes()),
{
    let bytes = word.as_bytes();
    let mut out: [u8; 32] = [0u8; 32];
    let mut i: usize = 0;
    while i < 32
        invariant
            i <= 32,
            bytes@ == word.spec_bytes(),
            forall|j: int| 0 <= j < i ==> out@[j] == literal_digest(bytes@)[j],
        decreases 32 - i,
    {
        if i < bytes.len() {
            out[i] = bytes[i];
        } else {
            out[i] = 0u8;
        }
        i += 1;
    }
    assert(out@ =~= literal_digest(bytes@));
    Digest32 { bytes: out }
}

/// The digests of a list, in order.
pub open spec fn digests_view(s: Seq<Digest32>) -> Seq<Seq<u8>> {
    s.map_values(|d: Digest32| d@)
}

/// The view of an optional digest.
pub open spec fn digest_option_view(d: Option<Digest32>) -> Option<Seq<u8>> {
    match d {
        Some(d) => Some(d@),
        None => None,
    }
}

/// A digest has 32 bytes.
pub open spec fn digest_valid(d: Seq<u8>) -> bool {
    d.len() == 32
}

/// The canonical encoding of a digest, its 32 bytes, as a value.
pub open spec fn digest_encoder() -> spec_fn(Seq<u8>) -> Seq<u8> {
    |d: Seq<u8>| d
}

/// The digest at the start of a byte string, as a value.
pub open spec fn digest_parser() -> spec_fn(Seq<u8>) -> Option<(Seq<u8>, nat)> {
    |s: Seq<u8>| fixed_parse(s, 32)
}

/// `digest_valid` as a value.
pub open spec fn digest_validity() -> spec_fn(Seq<u8>) -> bool {
    |d: Seq<u8>| digest_valid(d)
}

/// A list of digests that can be encoded.
pub open spec fn digest_list_valid(digests: Seq<Seq<u8>>) -> bool {
    all_valid(digest_validity(), digests) && digests.len() <= usize::MAX
}

/// The canonical encoding of a list of digests: their number, then each
/// digest in order.
pub open spec fn digest_list_encoding(digests: Seq<Seq<u8>>) -> Seq<u8> {
    uleb128(digests.len()) + items_encoding(digest_encoder(), digests)
}

/// The list of digests that stands at the start of `s`.
pub open spec fn digest_list_parse(s: Seq<u8>) -> Option<(Seq<Seq<u8>>, nat)> {
    match length_parse(s) {
        None => None,
        Some((count, taken)) => match items_parse(digest_parser(), s.skip(taken as int), count) {
            None => None,
            Some((digests, more)) => Some((digests, taken + more)),
        },
    }
}

/// An optional digest that can be encoded.
pub open spec fn digest_option_valid(d: Option<Seq<u8>>) -> bool {
    d matches Some(d) ==> digest_valid(d)
}

/// The canonical encoding of an optional digest: a zero byte where there is
/// none, else a one byte and the digest.
pub open spec fn digest_option_encoding(d: Option<Seq<u8>>) -> Seq<u8> {
    match d {
        Some(d) => seq![1u8] + d,
        None => seq![0u8],
    }
}

/// The optional digest that stands at the start of `s`.
pub open spec fn digest_option_parse(s: Seq<u8>) -> Option<(Option<Seq<u8>>, nat)> {
    match bool_parse(s) {
        None => None,
        Some((present, taken)) => if present {
            match fixed_parse(s.skip(taken as int), 32) {
                None => None,
                Some((d, more)) => Some((Some(d), taken + more)),
            }
        } else {
            Some((None, taken))
        },
    }
}

/// Reads the digest that stands at place `pos` of `b`.
pub(crate) fn read_digest(b: &[u8], pos: usize) -> (r: Option<(Digest32, usize)>)
    requires
        pos <= b@.len(),
    ensures
        match fixed_parse(b@.skip(pos as int), 32) {
            Some((d, taken)) => r matches Some((x, end)) && x@ == d && end == pos + taken && end
                <= b@.len(),
            None => r is None,
        },
{
    match read_array::<32>(b, pos) {
        None => None,
        Some((bytes, end)) => Some((Digest32 { bytes }, end)),
    }
}

/// Appends the canonical encoding of an optional digest to `buf`.
pub fn write_digest_option(buf: &mut Vec<u8>, d: &Option<Digest32>)
    ensures
        final(buf)@ == old(buf)@ + digest_option_encoding(digest_option_view(*d)),
{
    match d {
        Some(d) => {
            buf.push(1u8);
            append_digest(buf, d);
            assert(buf@ =~= old(buf)@ + (seq![1u8] + d@));
        },
        None => {
            buf.push(0u8);
            assert(buf@ =~= old(buf)@ + seq![0u8]);
        },
    }
}

/// Reads the optional digest that stands at place `pos` of `b`.
pub(crate) fn read_digest_option(b: &[u8], pos: usize) -> (r: Option<(Option<Digest32>, usize)>)
    requires
        pos <= b@.len(),
    ensures
        match digest_option_parse(b@.skip(pos as int)) {
            Some((d, taken)) => r matches Some((x, end)) && digest_option_view(x) == d && end == pos
                + taken && end <= b@.len(),
            None => r is None,
        },
{
    let (present, after) = match read_bool(b, pos) {
        None => {
            return None;
        },
        Some(found) => found,
    };
    if !present {
        return Some((None, after));
    }
    assert(b@.skip(pos as int).skip(after - pos) =~= b@.skip(after as int));
    match read_digest(b, after) {
        None => None,
        Some((d, end)) => Some((Some(d), end)),
    }
}

/// Appends the canonical encoding of a list of digests to `buf`.
pub fn write_digest_list(buf: &mut Vec<u8>, digests: &Vec<Digest32>)
    ensures
        final(buf)@ == old(buf)@ + digest_list_encoding(digests_view(digests@)),
{
    let n = digests.len();
    write_uleb128(buf, n);
    let ghost all = digests_view(digests@);
    let mut i: usize = 0;
    assert(all.take(0) =~= Seq::<Seq<u8>>::empty());
    while i < n
        invariant
            i <= n,
            n == digests@.len(),
            all == digests_view(digests@),
            buf@ == old(buf)@ + uleb128(n as nat) + items_encoding(
                digest_encoder(),
                all.take(i as int),
            ),
        decreases n - i,
    {
        let ghost before = buf@;
        let d = &digests[i];
        append_digest(buf, d);
        proof {
            assert(all.take(i + 1).drop_last() =~= all.take(i as int));
            assert(all.take(i + 1).last() == d@);
            assert(digest_encoder()(d@) == d@);
            assert(buf@ =~= old(buf)@ + uleb128(n as nat) + items_encoding(
                digest_encoder(),
                all.take(i + 1),
            ));
        }
        i += 1;
    }
    proof {
        assert(all.take(n as int) =~= all);
        assert(buf@ =~= old(buf)@ + digest_list_encoding(all));
    }
}

/// Reads the list of digests that stands at place `pos` of `b`.
pub(crate) fn read_digest_list(b: &[u8], pos: usize) -> (r: Option<(Vec<Digest32>, usize)>)
    requires
        pos <= b@.len(),
    ensures
        match digest_list_parse(b@.skip(pos as int)) {
            Some((digests, taken)) => r matches Some((v, end)) && digests_view(v@) == digests && end
                == pos + taken && end <= b@.len(),
            None => r is None,
        },
{
    let (count, start) = match read_length(b, pos) {
        None => {
            return None;
        },
        Some(found) => found,
    };
    assert(b@.skip(pos as int).skip(start - pos) =~= b@.skip(start as int));
    let ghost whole = items_parse(digest_parser(), b@.skip(start as int), count as nat);
    let mut digests: Vec<Digest32> = Vec::new();
    let mut p: usize = start;
    let mut i: usize = 0;
    proof {
        match whole {
            Some((rest, more)) => {
                assert(digests_view(digests@) + rest =~= rest);
            },
            None => {},
        }
    }
    while i < count
        invariant
            i <= count,
            pos <= start <= p <= b@.len(),
            whole == items_parse(digest_parser(), b@.skip(start as int), count as nat),
            digest_list_parse(b@.skip(pos as int)) == match whole {
                Some((found, more)) => Some((found, ((start - pos) + more) as nat)),
                None => None,
            },
            whole == match items_parse(digest_parser(), b@.skip(p as int), (count - i) as nat) {
                Some((rest, more)) => Some((digests_view(digests@) + rest, ((p - start) + more) as nat)),
                None => None,
            },
        decreases count - i,
    {
        let ghost here = b@.skip(p as int);
        assert(digest_parser()(here) == fixed_parse(here, 32));
        let (d, after) = match read_digest(b, p) {
            None => {
                return None;
            },
            Some(found) => found,
        };
        proof {
            assert(here.skip(after - p) =~= b@.skip(after as int));
            let done = digests_view(digests@);
            match items_parse(digest_parser(), b@.skip(after as int), (count - i - 1) as nat) {
                Some((rest, more)) => {
                    assert(done + (seq![d@] + rest) =~= digests_view(digests@.push(d)) + rest);
                },
                None => {},
            }
        }
        digests.push(d);
        p = after;
        i += 1;
    }
    proof {
        assert(digests_view(digests@) + Seq::<Seq<u8>>::empty() =~= digests_view(digests@));
    }
    Some((digests, p))
}

/// Reading inverts writing for digests.
pub proof fn lemma_digest_parse_encoding()
    ensures
        parse_inverts(digest_encoder(), digest_parser(), digest_validity()),
{
    assert forall|d: Seq<u8>, tail: Seq<u8>| digest_validity()(d) implies #[trigger] digest_parser()(
        digest_encoder()(d) + tail,
    ) == Some((d, digest_encoder()(d).len())) by {
        assert((d + tail).subrange(0, 32) =~= d);
    }
}

/// Writing inverts reading for digests.
pub proof fn lemma_digest_encoding_parse()
    ensures
        encoding_inverts(digest_encoder(), digest_parser(), digest_validity()),
{
}

/// Reading inverts writing for lists of digests.
pub proof fn lemma_digest_list_parse_encoding(digests: Seq<Seq<u8>>, tail: Seq<u8>)
    requires
        digest_list_valid(digests),
    ensures
        digest_list_parse(digest_list_encoding(digests) + tail) == Some(
            (digests, digest_list_encoding(digests).len()),
        ),
{
    let body = items_encoding(digest_encoder(), digests);
    let s = digest_list_encoding(digests) + tail;
    lemma_uleb128_len_u64(digests.len());
    assert(s =~= uleb128(digests.len()) + (body + tail));
    lemma_uleb128_parse_encoding(digests.len(), body + tail, 10);
    assert(s.skip(uleb128(digests.len()).len() as int) =~= body + tail);
    lemma_digest_parse_encoding();
    lemma_items_parse_encoding(digest_encoder(), digest_parser(), digest_validity(), digests, tail);
}

/// Writing inverts reading for lists of digests.
pub proof fn lemma_digest_list_encoding_parse(s: Seq<u8>)
    ensures
        digest_list_parse(s) matches Some((digests, taken)) ==> digest_list_valid(digests) && taken
            <= s.len() && s.subrange(0, taken as int) == digest_list_encoding(digests),
{
    lemma_uleb128_encoding_parse(s, 10);
    match length_parse(s) {
        None => {},
        Some((count, taken)) => {
            lemma_digest_encoding_parse();
            lemma_items_encoding_parse(
                digest_encoder(),
                digest_parser(),
                digest_validity(),
                s.skip(taken as int),
                count,
            );
            match items_parse(digest_parser(), s.skip(taken as int), count) {
                None => {},
                Some((digests, more)) => {
                    assert(s.subrange(0, (taken + more) as int) =~= s.subrange(0, taken as int)
                        + s.skip(taken as int).subrange(0, more as int));
                },
            }
        },
    }
}

/// Reading inverts writing for optional digests.
pub proof fn lemma_digest_option_parse_encoding(d: Option<Seq<u8>>, tail: Seq<u8>)
    requires
        digest_option_valid(d),
    ensures
        digest_option_parse(digest_option_encoding(d) + tail) == Some(
            (d, digest_option_encoding(d).len()),
        ),
{
    let s = digest_option_encoding(d) + tail;
    match d {
        Some(x) => {
            assert(s[0] == 1u8);
            assert(s.skip(1) =~= x + tail);
            assert((x + tail).subrange(0, 32) =~= x);
        },
        None => {
            assert(s[0] == 0u8);
        },
    }
}

/// Writing inverts reading for optional digests.
pub proof fn lemma_digest_option_encoding_parse(s: Seq<u8>)
    ensures
        digest_option_parse(s) matches Some((d, taken)) ==> digest_option_valid(d) && taken
            <= s.len() && s.subrange(0, taken as int) == digest_option_encoding(d),
{
    match digest_option_parse(s) {
        None => {},
        Some((d, taken)) => {
            match d {
                Some(x) => {
                    assert(s.subrange(0, 33) =~= seq![1u8] + s.skip(1).subrange(0, 32));
                },
                None => {
                    assert(s.subrange(0, 1) =~= seq![0u8]);
                },
            }
        },
    }
}

} // verus!
