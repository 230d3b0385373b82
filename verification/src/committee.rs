//! Validator committees: who may sign for an epoch and with what weight,
//! the identity of a committee, and the tally that decides whether
//! signatures carry a quorum.

use vstd::prelude::*;
use vstd::string::StringSliceAdditionalSpecFns;
use crate::digest::domain_hash;
use crate::digest::domain_seed;
use crate::digest::no_collision;
use crate::digest::hash_in_domain;
use crate::digest::Digest32;
use crate::digest::COMMITTEE_DOMAIN;
use crate::encoding::all_valid;
use crate::encoding::append_bytes;
use crate::encoding::encoding_inverts;
use crate::encoding::fixed_parse;
use crate::encoding::items_encoding;
use crate::encoding::items_parse;
use crate::encoding::length_parse;
use crate::encoding::lemma_items_encoding_parse;
use crate::encoding::lemma_items_parse_encoding;
use crate::encoding::lemma_u64_encoding_parse;
use crate::encoding::lemma_u64_parse_encoding;
use crate::encoding::lemma_uleb128_encoding_parse;
use crate::encoding::lemma_uleb128_len_u64;
use crate::encoding::lemma_uleb128_parse_encoding;
use crate::encoding::parse_inverts;
use crate::encoding::read_array;
use crate::encoding::read_length;
use crate::encoding::read_u64;
use crate::encoding::u64_le;
use crate::encoding::whole_input;
use crate::encoding::u64_parse;
use crate::encoding::uleb128;
use crate::encoding::write_u64;
use crate::encoding::write_uleb128;
use crate::error::Error;
use crate::signature::signature_valid;
use crate::signature::verify_signature;
use crate::signature::PublicKey;
use crate::signature::Signature;

verus! {

/// What a validator is to the contracts: its key and its voting power.
pub struct ValidatorView {
    pub public_key: Seq<u8>,
    pub voting_power: u64,
}

/// One member of a committee.
#[derive(Clone, Copy, Debug)]
pub struct ValidatorInfo {
    pub public_key: PublicKey,
    pub voting_power: u64,
}

impl View for ValidatorInfo {
    type V = ValidatorView;

    open spec fn view(&self) -> ValidatorView {
        ValidatorView { public_key: self.public_key@, voting_power: self.voting_power }
    }
}

/// The members of a list of validators, in order.
pub open spec fn validators_view(s: Seq<ValidatorInfo>) -> Seq<ValidatorView> {
    s.map_values(|v: ValidatorInfo| v@)
}

/// The sum of the voting power of all members.
pub open spec fn total_voting_power(c: Seq<ValidatorView>) -> nat
    decreases c.len(),
{
    if c.len() == 0 {
        0
    } else {
        total_voting_power(c.drop_last()) + c.last().voting_power as nat
    }
}

/// No key occurs twice.
pub open spec fn keys_distinct(c: Seq<ValidatorView>) -> bool {
    forall|i: int, j: int|
        0 <= i < j < c.len() ==> (#[trigger] c[i]).public_key != (#[trigger] c[j]).public_key
}

/// A validator's key has 48 bytes.
pub open spec fn validator_valid(v: ValidatorView) -> bool {
    v.public_key.len() == 48
}

/// A committee is a list of validators in which no key occurs twice and
/// whose voting power is not zero.
pub open spec fn committee_wf(c: Seq<ValidatorView>) -> bool {
    &&& all_valid(validator_validity(), c)
    &&& keys_distinct(c)
    &&& total_voting_power(c) > 0
}

/// The least voting power that is more than two thirds of `total`.
pub open spec fn quorum_voting_power(total: nat) -> nat {
    total * 2 / 3 + 1
}

/// Whether `key` is the key of a member.
pub open spec fn is_member(c: Seq<ValidatorView>, key: Seq<u8>) -> bool {
    exists|i: int| 0 <= i < c.len() && (#[trigger] c[i]).public_key == key
}

/// The place of the member with the key `key`.
pub open spec fn member_index(c: Seq<ValidatorView>, key: Seq<u8>) -> int {
    choose|i: int| 0 <= i < c.len() && (#[trigger] c[i]).public_key == key
}

/// The voting power that `key` holds in the committee: zero for a stranger.
pub open spec fn voting_power_of(c: Seq<ValidatorView>, key: Seq<u8>) -> nat {
    if is_member(c, key) {
        c[member_index(c, key)].voting_power as nat
    } else {
        0
    }
}

/// The canonical encoding of one validator: the key, then the voting power.
pub open spec fn validator_encoding(v: ValidatorView) -> Seq<u8> {
    v.public_key + u64_le(v.voting_power)
}

/// The validator that stands at the start of `s`.
pub open spec fn validator_parse(s: Seq<u8>) -> Option<(ValidatorView, nat)> {
    match fixed_parse(s, 48) {
        None => None,
        Some((public_key, taken)) => match u64_parse(s.skip(taken as int)) {
            None => None,
            Some((voting_power, more)) => Some(
                (ValidatorView { public_key, voting_power }, taken + more),
            ),
        },
    }
}

/// `validator_encoding` as a value.
pub open spec fn validator_encoder() -> spec_fn(ValidatorView) -> Seq<u8> {
    |v: ValidatorView| validator_encoding(v)
}

/// `validator_parse` as a value.
pub open spec fn validator_parser() -> spec_fn(Seq<u8>) -> Option<(ValidatorView, nat)> {
    |s: Seq<u8>| validator_parse(s)
}

/// `validator_valid` as a value.
pub open spec fn validator_validity() -> spec_fn(ValidatorView) -> bool {
    |v: ValidatorView| validator_valid(v)
}

/// The encodings of the validators one after the other.
pub open spec fn validators_encoding(c: Seq<ValidatorView>) -> Seq<u8> {
    items_encoding(validator_encoder(), c)
}

/// The canonical encoding of a committee: the number of validators, then
/// each validator in order.
pub open spec fn committee_encoding(c: Seq<ValidatorView>) -> Seq<u8> {
    uleb128(c.len()) + validators_encoding(c)
}

/// The committee that stands at the start of `s`: a number, and that many
/// validators that make a committee.
pub open spec fn committee_parse(s: Seq<u8>) -> Option<(Seq<ValidatorView>, nat)> {
    match length_parse(s) {
        None => None,
        Some((count, taken)) => match items_parse(validator_parser(), s.skip(taken as int), count) {
            None => None,
            Some((c, more)) => if committee_wf(c) {
                Some((c, taken + more))
            } else {
                None
            },
        },
    }
}

/// The committee that `bytes` is the canonical encoding of.
pub open spec fn committee_decoding(bytes: Seq<u8>) -> Option<Seq<ValidatorView>> {
    whole_input(committee_parse(bytes), bytes.len())
}

/// The identity of a committee: the hash of its canonical encoding in the
/// committee domain.
pub open spec fn committee_hash(c: Seq<ValidatorView>) -> Seq<u8> {
    domain_hash(COMMITTEE_DOMAIN.spec_bytes(), committee_encoding(c))
}

/// What a signature entry is to the contracts.
pub struct SignatureEntryView {
    pub signer: Seq<u8>,
    pub signature: Seq<u8>,
}

/// A signature together with the key of the validator that made it.
#[derive(Clone, Copy, Debug)]
pub struct SignatureEntry {
    pub signer: PublicKey,
    pub signature: Signature,
}

impl View for SignatureEntry {
    type V = SignatureEntryView;

    open spec fn view(&self) -> SignatureEntryView {
        SignatureEntryView { signer: self.signer@, signature: self.signature@ }
    }
}

/// The entries of a list of signatures, in order.
pub open spec fn signatures_view(s: Seq<SignatureEntry>) -> Seq<SignatureEntryView> {
    s.map_values(|e: SignatureEntry| e@)
}

/// The entry carries a valid signature of `message` by its signer.
pub open spec fn entry_valid(e: SignatureEntryView, message: Seq<u8>) -> bool {
    signature_valid(e.signer, message, e.signature)
}

/// What a vote is to the contracts.
pub struct VoteView {
    pub signer: Seq<u8>,
    pub valid: bool,
}

/// A signature that has been checked: the key of its signer, and whether
/// the signature was found valid.
#[derive(Clone, Copy, Debug)]
pub struct Vote {
    pub signer: PublicKey,
    pub valid: bool,
}

impl View for Vote {
    type V = VoteView;

    open spec fn view(&self) -> VoteView {
        VoteView { signer: self.signer@, valid: self.valid }
    }
}

/// The votes of a list, in order.
pub open spec fn votes_view(s: Seq<Vote>) -> Seq<VoteView> {
    s.map_values(|v: Vote| v@)
}

/// The votes that a list of signatures over `message` amounts to: for each
/// entry its signer, and whether its signature is valid.
pub open spec fn votes_of(entries: Seq<SignatureEntryView>, message: Seq<u8>) -> Seq<VoteView> {
    entries.map_values(
        |e: SignatureEntryView| VoteView { signer: e.signer, valid: entry_valid(e, message) },
    )
}

/// The signer of vote `i` is no member of the committee.
pub open spec fn unknown_at(c: Seq<ValidatorView>, votes: Seq<VoteView>, i: int) -> bool {
    !is_member(c, votes[i].signer)
}

/// Vote `i` is valid and an earlier valid vote has the same signer.
pub open spec fn duplicate_at(votes: Seq<VoteView>, i: int) -> bool {
    &&& votes[i].valid
    &&& exists|j: int| 0 <= j < i && (#[trigger] votes[j]).valid && votes[j].signer == votes[i].signer
}

/// Vote `i` makes the whole list unacceptable.
pub open spec fn fault_at(c: Seq<ValidatorView>, votes: Seq<VoteView>, i: int) -> bool {
    unknown_at(c, votes, i) || duplicate_at(votes, i)
}

/// Vote `i` is the first that makes the list unacceptable.
pub open spec fn first_fault(c: Seq<ValidatorView>, votes: Seq<VoteView>, i: int) -> bool {
    &&& 0 <= i < votes.len()
    &&& fault_at(c, votes, i)
    &&& forall|j: int| 0 <= j < i ==> !fault_at(c, votes, j)
}

/// No vote makes the list unacceptable.
pub open spec fn no_fault(c: Seq<ValidatorView>, votes: Seq<VoteView>) -> bool {
    forall|i: int| 0 <= i < votes.len() ==> !fault_at(c, votes, i)
}

/// The voting power behind the valid votes.
pub open spec fn signed_power(c: Seq<ValidatorView>, votes: Seq<VoteView>) -> nat
    decreases votes.len(),
{
    if votes.len() == 0 {
        0
    } else {
        signed_power(c, votes.drop_last()) + if votes.last().valid {
            voting_power_of(c, votes.last().signer)
        } else {
            0
        }
    }
}

/// The verdict on a list of votes.
///
/// The votes are taken in order. The first vote whose signer is no member
/// gives `UnknownSigner`; the first valid vote whose signer already cast an
/// earlier valid vote gives `DuplicateSigner`; whichever comes first
/// decides. A vote that is not valid adds nothing. Without such a fault the
/// list is accepted when the voting power behind the valid votes reaches
/// the quorum, and gives `InvalidQuorum` when it does not.
pub open spec fn tally_verdict(c: Seq<ValidatorView>, votes: Seq<VoteView>) -> Result<(), Error> {
    if no_fault(c, votes) {
        if signed_power(c, votes) >= quorum_voting_power(total_voting_power(c)) {
            Ok(())
        } else {
            Err(Error::InvalidQuorum)
        }
    } else {
        let i = choose|i: int| first_fault(c, votes, i);
        if unknown_at(c, votes, i) {
            Err(Error::UnknownSigner)
        } else {
            Err(Error::DuplicateSigner)
        }
    }
}

/// The verdict on a list of signatures over `message`: the verdict on the
/// votes that they amount to.
pub open spec fn signatures_verdict(
    c: Seq<ValidatorView>,
    message: Seq<u8>,
    entries: Seq<SignatureEntryView>,
) -> Result<(), Error> {
    tally_verdict(c, votes_of(entries, message))
}

/// A validator committee: the keys that may sign ledger headers during one
/// epoch, each with its voting power. It cannot be changed once it is made.
#[derive(Debug)]
pub struct ValidatorCommittee {
    validators: Vec<ValidatorInfo>,
    total: u128,
}

impl View for ValidatorCommittee {
    type V = Seq<ValidatorView>;

    closed spec fn view(&self) -> Seq<ValidatorView> {
        validators_view(self.validators@)
    }
}

impl Clone for ValidatorCommittee {
    fn clone(&self) -> (c: Self)
        ensures
            c@ == self@,
    {
        proof {
            use_type_invariant(self);
        }
        let validators = self.validators.clone();
        assert(validators_view(validators@) =~= validators_view(self.validators@));
        ValidatorCommittee { validators, total: self.total }
    }
}

impl ValidatorCommittee {
    #[verifier::type_invariant]
    spec fn inv(&self) -> bool {
        &&& committee_wf(self@)
        &&& self.total == total_voting_power(self@)
    }

    /// Makes a committee of the given validators, in the given order.
    /// There is no committee in which a key occurs twice or whose voting
    /// power is zero.
    pub fn new(validators: Vec<ValidatorInfo>) -> (r: Option<ValidatorCommittee>)
        ensures
            r is Some <==> committee_wf(validators_view(validators@)),
            r matches Some(c) ==> c@ == validators_view(validators@),
    {
        let n = validators.len();
        let ghost view = validators_view(validators@);
        let mut total: u128 = 0;
        let mut i: usize = 0;
        assert(view.take(0) =~= Seq::<ValidatorView>::empty());
        while i < n
            invariant
                i <= n,
                n == validators@.len(),
                view == validators_view(validators@),
                total == total_voting_power(view.take(i as int)),
                total <= i * u64::MAX,
                keys_distinct(view.take(i as int)),
            decreases n - i,
        {
            let mut j: usize = 0;
            while j < i
                invariant
                    j <= i,
                    i < n,
                    n == validators@.len(),
                    view == validators_view(validators@),
                    forall|k: int| 0 <= k < j ==> view[k].public_key != view[i as int].public_key,
                decreases i - j,
            {
                if validators[j].public_key == validators[i].public_key {
                    assert(view[j as int].public_key == view[i as int].public_key);
                    return None;
                }
                j += 1;
            }
            assert(view.take(i + 1).drop_last() =~= view.take(i as int));
            assert(i * u64::MAX + u64::MAX == (i + 1) * u64::MAX) by (nonlinear_arith);
            assert((i + 1) * u64::MAX <= usize::MAX * u64::MAX) by (nonlinear_arith)
                requires
                    i + 1 <= usize::MAX,
            ;
            assert(usize::MAX * u64::MAX < u128::MAX) by (nonlinear_arith)
                requires
                    usize::MAX <= u64::MAX,
            ;
            total = total + validators[i].voting_power as u128;
            i += 1;
        }
        assert(view.take(n as int) =~= view);
        if total == 0 {
            return None;
        }
        Some(ValidatorCommittee { validators, total })
    }

    /// The number of validators.
    pub fn len(&self) -> (n: usize)
        ensures
            n == self@.len(),
    {
        self.validators.len()
    }

    /// The validator at place `i`, if the committee has that many.
    pub fn validator(&self, i: usize) -> (v: Option<ValidatorInfo>)
        ensures
            i < self@.len() <==> v is Some,
            v matches Some(found) ==> found@ == self@[i as int],
    {
        if i < self.validators.len() {
            Some(self.validators[i])
        } else {
            None
        }
    }

    /// The sum of the voting power of all validators, which is never zero.
    pub fn total_voting_power(&self) -> (t: u128)
        ensures
            t == total_voting_power(self@),
            t > 0,
            committee_wf(self@),
    {
        proof {
            use_type_invariant(self);
        }
        self.total
    }

    /// The least voting power that is more than two thirds of the total.
    pub fn quorum_voting_power(&self) -> (q: u128)
        ensures
            q == quorum_voting_power(total_voting_power(self@)),
    {
        proof {
            use_type_invariant(self);
        }
        let t = self.total;
        let thirds: u128 = t / 3;
        let left: u128 = t % 3;
        let q: u128 = thirds * 2 + (left * 2) / 3 + 1;
        assert(q == t * 2 / 3 + 1) by {
            assert(t == thirds * 3 + left);
            assert((thirds * 3 + left) * 2 == (thirds * 2) * 3 + left * 2) by (nonlinear_arith);
            vstd::arithmetic::div_mod::lemma_fundamental_div_mod_converse(
                t * 2,
                3,
                thirds * 2 + (left * 2) / 3,
                (left * 2) % 3,
            );
        }
        q
    }

    /// The place of the validator with the key `key`, if it is a member.
    pub fn index_of(&self, key: &PublicKey) -> (r: Option<usize>)
        ensures
            r is Some <==> is_member(self@, key@),
            r matches Some(i) ==> i < self@.len() && self@[i as int].public_key == key@ && i
                == member_index(self@, key@),
    {
        proof {
            use_type_invariant(self);
        }
        let n = self.validators.len();
        let mut i: usize = 0;
        while i < n
            invariant
                i <= n,
                n == self.validators@.len(),
                keys_distinct(self@),
                forall|k: int| 0 <= k < i ==> self@[k].public_key != key@,
            decreases n - i,
        {
            if self.validators[i].public_key == *key {
                assert(self@[i as int].public_key == key@);
                return Some(i);
            }
            i += 1;
        }
        None
    }

    /// The canonical encoding of the committee.
    pub fn to_bytes(&self) -> (bytes: Vec<u8>)
        ensures
            bytes@ == committee_encoding(self@),
    {
        let mut buf: Vec<u8> = Vec::new();
        self.write_to(&mut buf);
        buf
    }

    /// Appends the canonical encoding of the committee to `buf`.
    pub fn write_to(&self, buf: &mut Vec<u8>)
        ensures
            final(buf)@ == old(buf)@ + committee_encoding(self@),
    {
        let n = self.validators.len();
        write_uleb128(buf, n);
        let mut i: usize = 0;
        assert(self@.take(0) =~= Seq::<ValidatorView>::empty());
        while i < n
            invariant
                i <= n,
                n == self.validators@.len(),
                buf@ == old(buf)@ + uleb128(n as nat) + validators_encoding(self@.take(i as int)),
            decreases n - i,
        {
            let ghost before = buf@;
            let v = &self.validators[i];
            append_bytes(buf, v.public_key.bytes.as_slice());
            write_u64(buf, v.voting_power);
            proof {
                assert(self@.take(i + 1).drop_last() =~= self@.take(i as int));
                assert(self@.take(i + 1).last() == v@);
                assert(validator_encoder()(v@) == validator_encoding(v@));
                assert(buf@ =~= before + validator_encoding(v@));
                assert(buf@ =~= old(buf)@ + uleb128(n as nat) + validators_encoding(
                    self@.take(i + 1),
                ));
            }
            i += 1;
        }
        proof {
            assert(self@.take(n as int) =~= self@);
            assert(buf@ =~= old(buf)@ + committee_encoding(self@));
        }
    }

    /// Reads the committee whose canonical encoding stands at place `pos`
    /// of `b`. Gives the committee and the place behind it.
    pub(crate) fn read_from(b: &[u8], pos: usize) -> (r: Option<(ValidatorCommittee, usize)>)
        requires
            pos <= b@.len(),
        ensures
            match committee_parse(b@.skip(pos as int)) {
                Some((c, taken)) => r matches Some((v, end)) && v@ == c && end == pos + taken && end
                    <= b@.len(),
                None => r is None,
            },
    {
        let (count, start) = match read_length(b, pos) {
            None => {
                return None;
            },
            Some(found) => found,
        };
        assert(b@.skip(pos as int).skip(start - pos) =~= b@.skip(start as int));
        let (validators, end) = match read_validators(b, start, count) {
            None => {
                return None;
            },
            Some(found) => found,
        };
        match ValidatorCommittee::new(validators) {
            None => None,
            Some(c) => Some((c, end)),
        }
    }

    /// Reads the committee that `bytes` is the canonical encoding of.
    /// Bytes that are no such encoding, or that go on behind it, are refused.
    pub fn from_bytes(bytes: &[u8]) -> (r: Result<ValidatorCommittee, Error>)
        ensures
            match r {
                Ok(c) => committee_decoding(bytes@) == Some(c@),
                Err(e) => e == Error::DeserializationError && committee_decoding(bytes@) is None,
            },
    {
        assert(bytes@.skip(0) =~= bytes@);
        match ValidatorCommittee::read_from(bytes, 0) {
            None => Err(Error::DeserializationError),
            Some((c, end)) => {
                if end == bytes.len() {
                    Ok(c)
                } else {
                    Err(Error::DeserializationError)
                }
            },
        }
    }

    /// The identity of the committee. It depends on the order of the validators.
    pub fn hash(&self) -> (d: Digest32)
        ensures
            d@ == committee_hash(self@),
    {
        let bytes = self.to_bytes();
        hash_in_domain(COMMITTEE_DOMAIN, bytes.as_slice())
    }

    /// Checks a list of signatures over `message` against this committee:
    /// checks each signature, and tallies the votes.
    pub fn verify_signed_message(&self, message: &[u8], signatures: &Vec<SignatureEntry>) -> (r:
        Result<(), Error>)
        ensures
            r == signatures_verdict(self@, message@, signatures_view(signatures@)),
    {
        let ghost entries = signatures_view(signatures@);
        let ghost all = votes_of(entries, message@);
        let n = signatures.len();
        let mut votes: Vec<Vote> = Vec::new();
        let mut i: usize = 0;
        while i < n
            invariant
                i <= n,
                n == signatures@.len(),
                entries == signatures_view(signatures@),
                all == votes_of(entries, message@),
                votes_view(votes@) == all.take(i as int),
            decreases n - i,
        {
            let entry = &signatures[i];
            let valid = verify_signature(&entry.signer, message, &entry.signature);
            let ghost before = votes_view(votes@);
            votes.push(Vote { signer: entry.signer, valid });
            proof {
                assert(entries[i as int] == entry@);
                assert(all[i as int] == VoteView { signer: entry@.signer, valid });
                assert(votes_view(votes@) =~= before.push(all[i as int]));
                assert(all.take(i + 1) =~= all.take(i as int).push(all[i as int]));
            }
            i += 1;
        }
        assert(all.take(n as int) =~= all);
        self.tally(&votes)
    }

    /// Tallies votes: decides whether signatures that have been checked
    /// satisfy this committee.
    pub fn tally(&self, votes: &Vec<Vote>) -> (r: Result<(), Error>)
        ensures
            r == tally_verdict(self@, votes_view(votes@)),
    {
        proof {
            use_type_invariant(self);
        }
        let ghost c = self@;
        let ghost all = votes_view(votes@);
        let n = self.validators.len();
        let m = votes.len();
        let mut counted: Vec<bool> = Vec::new();
        let mut fill: usize = 0;
        while fill < n
            invariant
                fill <= n,
                counted@.len() == fill,
                forall|x: int| 0 <= x < fill ==> !counted@[x],
            decreases n - fill,
        {
            counted.push(false);
            fill += 1;
        }
        let mut power: u128 = 0;
        let mut k: usize = 0;
        assert(all.take(0) =~= Seq::<VoteView>::empty());
        while k < m
            invariant
                k <= m,
                m == votes@.len(),
                n == self.validators@.len(),
                c == self@,
                n == c.len(),
                keys_distinct(c),
                all == votes_view(votes@),
                counted@.len() == n,
                forall|j: int| 0 <= j < k ==> !fault_at(c, all, j),
                forall|x: int|
                    0 <= x < n ==> (counted@[x] <==> exists|j: int|
                        0 <= j < k && (#[trigger] all[j]).valid && all[j].signer == c[x].public_key),
                power == signed_power(c, all.take(k as int)),
                power <= k * u64::MAX,
            decreases m - k,
        {
            let vote = &votes[k];
            assert(all[k as int] == vote@);
            assert(all.take(k + 1).drop_last() =~= all.take(k as int));
            assert(all.take(k + 1).last() == vote@);
            match self.index_of(&vote.signer) {
                None => {
                    proof {
                        assert(unknown_at(c, all, k as int));
                        assert(first_fault(c, all, k as int));
                        lemma_first_fault_unique(c, all, k as int);
                    }
                    return Err(Error::UnknownSigner);
                },
                Some(idx) => {
                    if vote.valid {
                        if counted[idx] {
                            proof {
                                assert(duplicate_at(all, k as int));
                                assert(first_fault(c, all, k as int));
                                lemma_first_fault_unique(c, all, k as int);
                            }
                            return Err(Error::DuplicateSigner);
                        }
                        counted.set(idx, true);
                        assert(k * u64::MAX + u64::MAX == (k + 1) * u64::MAX) by (nonlinear_arith);
                        assert((k + 1) * u64::MAX <= usize::MAX * u64::MAX) by (nonlinear_arith)
                            requires
                                k + 1 <= usize::MAX,
                        ;
                        assert(usize::MAX * u64::MAX < u128::MAX) by (nonlinear_arith)
                            requires
                                usize::MAX <= u64::MAX,
                        ;
                        power = power + self.validators[idx].voting_power as u128;
                        proof {
                            assert(!duplicate_at(all, k as int));
                            assert(voting_power_of(c, vote@.signer) == c[idx as int].voting_power);
                        }
                    } else {
                        assert(k * u64::MAX <= (k + 1) * u64::MAX) by (nonlinear_arith);
                    }
                },
            }
            k += 1;
        }
        assert(all.take(m as int) =~= all);
        let quorum = self.quorum_voting_power();
        if power >= quorum {
            Ok(())
        } else {
            Err(Error::InvalidQuorum)
        }
    }
}

/// Reads the validator that stands at place `pos` of `b`.
fn read_validator(b: &[u8], pos: usize) -> (r: Option<(ValidatorInfo, usize)>)
    requires
        pos <= b@.len(),
    ensures
        match validator_parse(b@.skip(pos as int)) {
            Some((v, taken)) => r matches Some((x, end)) && x@ == v && end == pos + taken && end
                <= b@.len(),
            None => r is None,
        },
{
    let (key, after_key) = match read_array::<48>(b, pos) {
        None => {
            return None;
        },
        Some(found) => found,
    };
    assert(b@.skip(pos as int).skip(after_key - pos) =~= b@.skip(after_key as int));
    let (voting_power, end) = match read_u64(b, after_key) {
        None => {
            return None;
        },
        Some(found) => found,
    };
    Some((ValidatorInfo { public_key: PublicKey { bytes: key }, voting_power }, end))
}

/// Reads the `count` validators that stand one after the other at place
/// `pos` of `b`.
fn read_validators(b: &[u8], pos: usize, count: usize) -> (r: Option<(Vec<ValidatorInfo>, usize)>)
    requires
        pos <= b@.len(),
    ensures
        match items_parse(validator_parser(), b@.skip(pos as int), count as nat) {
            Some((c, taken)) => r matches Some((v, end)) && validators_view(v@) == c && end == pos
                + taken && end <= b@.len(),
            None => r is None,
        },
{
    let ghost whole = items_parse(validator_parser(), b@.skip(pos as int), count as nat);
    let mut validators: Vec<ValidatorInfo> = Vec::new();
    let mut p: usize = pos;
    let mut i: usize = 0;
    proof {
        match whole {
            Some((rest, more)) => {
                assert(validators_view(validators@) + rest =~= rest);
            },
            None => {},
        }
    }
    while i < count
        invariant
            i <= count,
            pos <= p <= b@.len(),
            whole == items_parse(validator_parser(), b@.skip(pos as int), count as nat),
            whole == match items_parse(validator_parser(), b@.skip(p as int), (count - i) as nat) {
                Some((rest, more)) => Some(
                    (validators_view(validators@) + rest, ((p - pos) + more) as nat),
                ),
                None => None,
            },
        decreases count - i,
    {
        let ghost here = b@.skip(p as int);
        assert(validator_parser()(here) == validator_parse(here));
        let (v, after) = match read_validator(b, p) {
            None => {
                return None;
            },
            Some(found) => found,
        };
        proof {
            assert(here.skip(after - p) =~= b@.skip(after as int));
            let done = validators_view(validators@);
            match items_parse(validator_parser(), b@.skip(after as int), (count - i - 1) as nat) {
                Some((rest, more)) => {
                    assert(done + (seq![v@] + rest) =~= validators_view(validators@.push(v)) + rest);
                },
                None => {},
            }
        }
        validators.push(v);
        p = after;
        i += 1;
    }
    proof {
        assert(validators_view(validators@) + Seq::<ValidatorView>::empty() =~= validators_view(
            validators@,
        ));
    }
    Some((validators, p))
}

/// Reading inverts writing for validators.
pub proof fn lemma_validator_parse_encoding()
    ensures
        parse_inverts(validator_encoder(), validator_parser(), validator_validity()),
{
    assert forall|v: ValidatorView, tail: Seq<u8>|
        validator_validity()(v) implies #[trigger] validator_parser()(validator_encoder()(v) + tail)
        == Some((v, validator_encoder()(v).len())) by {
        let s = validator_encoding(v) + tail;
        lemma_u64_parse_encoding(v.voting_power, tail);
        assert(s.subrange(0, 48) =~= v.public_key);
        assert(s.skip(48) =~= u64_le(v.voting_power) + tail);
    }
}

/// Writing inverts reading for validators.
pub proof fn lemma_validator_encoding_parse()
    ensures
        encoding_inverts(validator_encoder(), validator_parser(), validator_validity()),
{
    assert forall|s: Seq<u8>|
        (#[trigger] validator_parser()(s) matches Some((v, taken)) ==> validator_validity()(v)
            && taken <= s.len() && s.subrange(0, taken as int) == validator_encoder()(v)) by {
        lemma_u64_encoding_parse(s.skip(48));
        if validator_parse(s) is Some {
            assert(s.subrange(0, 56) =~= s.subrange(0, 48) + s.skip(48).subrange(0, 8));
        }
    }
}

/// Reading inverts writing: a committee is read back from its canonical
/// encoding, whatever follows it.
pub proof fn lemma_committee_parse_encoding(c: Seq<ValidatorView>, tail: Seq<u8>)
    requires
        committee_wf(c),
        c.len() <= usize::MAX,
    ensures
        committee_parse(committee_encoding(c) + tail) == Some((c, committee_encoding(c).len())),
{
    let s = committee_encoding(c) + tail;
    lemma_uleb128_len_u64(c.len());
    assert(s =~= uleb128(c.len()) + (validators_encoding(c) + tail));
    lemma_uleb128_parse_encoding(c.len(), validators_encoding(c) + tail, 10);
    assert(s.skip(uleb128(c.len()).len() as int) =~= validators_encoding(c) + tail);
    lemma_validator_parse_encoding();
    lemma_items_parse_encoding(validator_encoder(), validator_parser(), validator_validity(), c, tail);
}

/// Writing inverts reading: a committee that was read stood there in its
/// canonical encoding.
pub proof fn lemma_committee_encoding_parse(s: Seq<u8>)
    ensures
        committee_parse(s) matches Some((c, taken)) ==> committee_wf(c) && c.len() <= usize::MAX
            && taken <= s.len() && s.subrange(0, taken as int) == committee_encoding(c),
{
    lemma_uleb128_encoding_parse(s, 10);
    match length_parse(s) {
        None => {},
        Some((count, taken)) => {
            lemma_validator_encoding_parse();
            lemma_items_encoding_parse(
                validator_encoder(),
                validator_parser(),
                validator_validity(),
                s.skip(taken as int),
                count,
            );
            match items_parse(validator_parser(), s.skip(taken as int), count) {
                None => {},
                Some((c, more)) => {
                    assert(s.subrange(0, (taken + more) as int) =~= s.subrange(0, taken as int)
                        + s.skip(taken as int).subrange(0, more as int));
                },
            }
        },
    }
}

/// A committee and its canonical encoding determine each other: the bytes
/// `bytes` decode to the committee `c` exactly when `c` is a committee and
/// `bytes` is its encoding.
pub proof fn lemma_committee_codec(c: Seq<ValidatorView>, bytes: Seq<u8>)
    requires
        c.len() <= usize::MAX,
    ensures
        committee_decoding(bytes) == Some(c) <==> committee_wf(c) && committee_encoding(c) == bytes,
{
    lemma_committee_encoding_parse(bytes);
    if committee_wf(c) && committee_encoding(c) == bytes {
        lemma_committee_parse_encoding(c, Seq::empty());
        assert(committee_encoding(c) + Seq::<u8>::empty() =~= committee_encoding(c));
    }
    if committee_decoding(bytes) == Some(c) {
        assert(bytes.subrange(0, bytes.len() as int) =~= bytes);
    }
}

/// The identity of a committee depends on the order of its validators, and
/// on everything else in it: two committees that differ in any way have
/// different canonical encodings, and so are hashed from different bytes.
pub proof fn lemma_committee_encoding_injective(a: Seq<ValidatorView>, b: Seq<ValidatorView>)
    requires
        committee_wf(a),
        committee_wf(b),
        a.len() <= usize::MAX,
        b.len() <= usize::MAX,
        a != b,
    ensures
        committee_encoding(a) != committee_encoding(b),
{
    lemma_committee_codec(a, committee_encoding(a));
    lemma_committee_codec(b, committee_encoding(b));
}

/// The identity of a committee is sensitive to every difference, the order
/// of the validators among them: two committees that differ have different
/// identities, unless the hash fails to tell their encodings apart.
pub proof fn lemma_committee_hash_sensitive(a: Seq<ValidatorView>, b: Seq<ValidatorView>)
    requires
        committee_wf(a),
        committee_wf(b),
        a.len() <= usize::MAX,
        b.len() <= usize::MAX,
        a != b,
        no_collision(
            domain_seed(COMMITTEE_DOMAIN.spec_bytes()) + committee_encoding(a),
            domain_seed(COMMITTEE_DOMAIN.spec_bytes()) + committee_encoding(b),
        ),
    ensures
        committee_hash(a) != committee_hash(b),
{
    lemma_committee_encoding_injective(a, b);
    let seed = domain_seed(COMMITTEE_DOMAIN.spec_bytes());
    let x = seed + committee_encoding(a);
    let y = seed + committee_encoding(b);
    if x == y {
        assert(x.skip(seed.len() as int) =~= committee_encoding(a));
        assert(y.skip(seed.len() as int) =~= committee_encoding(b));
    }
}

/// More than two thirds: a voting power reaches the quorum exactly when
/// three times that power is more than twice the total.
pub proof fn lemma_quorum_is_more_than_two_thirds(power: nat, total: nat)
    ensures
        power >= quorum_voting_power(total) <==> 3 * power > 2 * total,
{
}

/// Only one vote can be the first fault of a list.
pub proof fn lemma_first_fault_unique(c: Seq<ValidatorView>, votes: Seq<VoteView>, i: int)
    requires
        first_fault(c, votes, i),
    ensures
        !no_fault(c, votes),
        (choose|x: int| first_fault(c, votes, x)) == i,
{
    let x = choose|x: int| first_fault(c, votes, x);
    assert(first_fault(c, votes, x));
    if x < i {
        assert(!fault_at(c, votes, x));
    } else if i < x {
        assert(!fault_at(c, votes, i));
    }
}

} // verus!
