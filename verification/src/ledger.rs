//! Ledger headers, the signatures over them, and transaction records.

use vstd::prelude::*;
use vstd::string::StringSliceAdditionalSpecFns;
use crate::committee::committee_encoding;
use crate::committee::committee_parse;
use crate::committee::committee_wf;
use crate::committee::lemma_committee_encoding_parse;
use crate::committee::lemma_committee_parse_encoding;
use crate::committee::signatures_verdict;
use crate::committee::signatures_view;
use crate::committee::SignatureEntry;
use crate::committee::SignatureEntryView;
use crate::committee::ValidatorCommittee;
use crate::committee::ValidatorView;
use crate::digest::append_digest;
use crate::digest::no_collision;
use crate::digest::digest_option_parse;
use crate::digest::digest_option_valid;
use crate::digest::digest_valid;
use crate::digest::lemma_digest_option_encoding_parse;
use crate::digest::lemma_digest_option_parse_encoding;
use crate::digest::read_digest;
use crate::digest::read_digest_option;
use crate::digest::digest_option_encoding;
use crate::digest::digest_option_view;
use crate::digest::write_digest_option;
use crate::digest::domain_seed;
use crate::digest::hash_bytes;
use crate::digest::seed_of_domain;
use crate::digest::sha3_256;
use crate::digest::Digest32;
use crate::digest::LEDGER_INFO_DOMAIN;
use crate::digest::TRANSACTION_INFO_DOMAIN;
use crate::encoding::all_valid;
use crate::encoding::append_bytes;
use crate::encoding::bool_byte;
use crate::encoding::bool_parse;
use crate::encoding::encoding_inverts;
use crate::encoding::fixed_parse;
use crate::encoding::items_encoding;
use crate::encoding::items_parse;
use crate::encoding::length_parse;
use crate::encoding::lemma_items_encoding_parse;
use crate::encoding::lemma_items_parse_encoding;
use crate::encoding::lemma_u64_encoding_parse;
use crate::encoding::lemma_u64_parse_encoding;
use crate::encoding::lemma_uleb128_encoding_parse;
use crate::encoding::lemma_uleb128_len_u64;
use crate::encoding::lemma_uleb128_parse_encoding;
use crate::encoding::parse_inverts;
use crate::encoding::read_array;
use crate::encoding::read_bool;
use crate::encoding::read_length;
use crate::encoding::read_u64;
use crate::encoding::u64_le;
use crate::encoding::u64_parse;
use crate::encoding::uleb128;
use crate::encoding::whole_input;
use crate::encoding::write_bool;
use crate::encoding::write_u64;
use crate::encoding::write_uleb128;
use crate::signature::PublicKey;
use crate::signature::Signature;
use crate::error::Error;

verus! {

/// What a ledger header is to the contracts.
pub struct LedgerInfoView {
    pub epoch: u64,
    pub version: u64,
    pub transaction_accumulator_hash: Seq<u8>,
    pub next_epoch_committee: Option<Seq<ValidatorView>>,
    pub block_id: Seq<u8>,
}

/// The view of an optional committee.
pub open spec fn committee_option_view(c: Option<ValidatorCommittee>) -> Option<Seq<ValidatorView>> {
    match c {
        Some(c) => Some(c@),
        None => None,
    }
}

/// The canonical encoding of an optional committee: a zero byte where there
/// is none, else a one byte and the committee.
pub open spec fn committee_option_encoding(c: Option<Seq<ValidatorView>>) -> Seq<u8> {
    match c {
        Some(c) => seq![1u8] + committee_encoding(c),
        None => seq![0u8],
    }
}

/// The canonical encoding of a ledger header: its fields in the order in
/// which they are declared.
pub open spec fn ledger_info_encoding(li: LedgerInfoView) -> Seq<u8> {
    u64_le(li.epoch) + u64_le(li.version) + li.transaction_accumulator_hash
        + committee_option_encoding(li.next_epoch_committee) + li.block_id
}

/// A ledger header that can be encoded.
pub open spec fn ledger_info_valid(li: LedgerInfoView) -> bool {
    &&& digest_valid(li.transaction_accumulator_hash)
    &&& digest_valid(li.block_id)
    &&& li.next_epoch_committee matches Some(c) ==> committee_wf(c) && c.len() <= usize::MAX
}

/// The optional committee that stands at the start of `s`.
pub open spec fn committee_option_parse(s: Seq<u8>) -> Option<(Option<Seq<ValidatorView>>, nat)> {
    match bool_parse(s) {
        None => None,
        Some((present, taken)) => if present {
            match committee_parse(s.skip(taken as int)) {
                None => None,
                Some((c, more)) => Some((Some(c), taken + more)),
            }
        } else {
            Some((None, taken))
        },
    }
}

/// The ledger header that stands at the start of `s`.
pub open spec fn ledger_info_parse(s: Seq<u8>) -> Option<(LedgerInfoView, nat)> {
    match u64_parse(s) {
        None => None,
        Some((epoch, _)) => match u64_parse(s.skip(8)) {
            None => None,
            Some((version, _)) => match fixed_parse(s.skip(16), 32) {
                None => None,
                Some((transaction_accumulator_hash, _)) => match committee_option_parse(s.skip(48)) {
                    None => None,
                    Some((next_epoch_committee, taken)) => match fixed_parse(
                        s.skip((48 + taken) as int),
                        32,
                    ) {
                        None => None,
                        Some((block_id, _)) => Some(
                            (
                                LedgerInfoView {
                                    epoch,
                                    version,
                                    transaction_accumulator_hash,
                                    next_epoch_committee,
                                    block_id,
                                },
                                48 + taken + 32,
                            ),
                        ),
                    },
                },
            },
        },
    }
}

/// Reading inverts writing for optional committees.
pub proof fn lemma_committee_option_parse_encoding(c: Option<Seq<ValidatorView>>, tail: Seq<u8>)
    requires
        c matches Some(c) ==> committee_wf(c) && c.len() <= usize::MAX,
    ensures
        committee_option_parse(committee_option_encoding(c) + tail) == Some(
            (c, committee_option_encoding(c).len()),
        ),
{
    let s = committee_option_encoding(c) + tail;
    match c {
        Some(x) => {
            assert(s[0] == 1u8);
            assert(s.skip(1) =~= committee_encoding(x) + tail);
            lemma_committee_parse_encoding(x, tail);
        },
        None => {
            assert(s[0] == 0u8);
        },
    }
}

/// Writing inverts reading for optional committees.
pub proof fn lemma_committee_option_encoding_parse(s: Seq<u8>)
    ensures
        committee_option_parse(s) matches Some((c, taken)) ==> (c matches Some(x) ==> committee_wf(x)
            && x.len() <= usize::MAX) && taken <= s.len() && s.subrange(0, taken as int)
            == committee_option_encoding(c),
{
    match bool_parse(s) {
        None => {},
        Some((present, taken)) => {
            if present {
                lemma_committee_encoding_parse(s.skip(1));
                match committee_parse(s.skip(1)) {
                    None => {},
                    Some((c, more)) => {
                        assert(s.subrange(0, (1 + more) as int) =~= seq![1u8] + s.skip(1).subrange(
                            0,
                            more as int,
                        ));
                    },
                }
            } else {
                assert(s.subrange(0, 1) =~= seq![0u8]);
            }
        },
    }
}

/// Reading inverts writing for ledger headers.
pub proof fn lemma_ledger_info_parse_encoding(li: LedgerInfoView, tail: Seq<u8>)
    requires
        ledger_info_valid(li),
    ensures
        ledger_info_parse(ledger_info_encoding(li) + tail) == Some(
            (li, ledger_info_encoding(li).len()),
        ),
{
    let s = ledger_info_encoding(li) + tail;
    let next = committee_option_encoding(li.next_epoch_committee);
    lemma_u64_parse_encoding(li.epoch, s.skip(8));
    lemma_u64_parse_encoding(li.version, s.skip(16));
    assert(s =~= u64_le(li.epoch) + s.skip(8));
    assert(s.skip(8) =~= u64_le(li.version) + s.skip(16));
    assert(s.skip(16).subrange(0, 32) =~= li.transaction_accumulator_hash);
    assert(s.skip(48) =~= next + (li.block_id + tail));
    lemma_committee_option_parse_encoding(li.next_epoch_committee, li.block_id + tail);
    assert(s.skip((48 + next.len()) as int) =~= li.block_id + tail);
    assert((li.block_id + tail).subrange(0, 32) =~= li.block_id);
}

/// Writing inverts reading for ledger headers.
pub proof fn lemma_ledger_info_encoding_parse(s: Seq<u8>)
    ensures
        ledger_info_parse(s) matches Some((li, taken)) ==> ledger_info_valid(li) && taken <= s.len()
            && s.subrange(0, taken as int) == ledger_info_encoding(li),
{
    lemma_u64_encoding_parse(s);
    lemma_u64_encoding_parse(s.skip(8));
    lemma_committee_option_encoding_parse(s.skip(48));
    match ledger_info_parse(s) {
        None => {},
        Some((li, taken)) => {
            let k = (taken - 80) as nat;
            assert(s.subrange(0, taken as int) =~= s.subrange(0, 8) + s.skip(8).subrange(0, 8)
                + s.skip(16).subrange(0, 32) + s.skip(48).subrange(0, k as int) + s.skip(
                (48 + k) as int,
            ).subrange(0, 32));
        },
    }
}

/// The bytes that the validators sign for a ledger header: the seed of the
/// header domain, then the header's canonical encoding.
pub open spec fn ledger_info_signing_message(li: LedgerInfoView) -> Seq<u8> {
    domain_seed(LEDGER_INFO_DOMAIN.spec_bytes()) + ledger_info_encoding(li)
}

/// The content hash of a ledger header.
pub open spec fn ledger_info_hash(li: LedgerInfoView) -> Seq<u8> {
    sha3_256(ledger_info_signing_message(li))
}

/// A ledger header: what a committee attests of the ledger at one version.
#[derive(Debug)]
pub struct LedgerInfo {
    /// The epoch in which the header was made, and whose committee signs it.
    pub epoch: u64,
    /// The version of the last transaction that the header covers.
    pub version: u64,
    /// The root of the transaction accumulator at that version.
    pub transaction_accumulator_hash: Digest32,
    /// The committee of the next epoch, where the header ends its epoch.
    pub next_epoch_committee: Option<ValidatorCommittee>,
    /// The identifier of the block that the header belongs to.
    pub block_id: Digest32,
}

impl View for LedgerInfo {
    type V = LedgerInfoView;

    open spec fn view(&self) -> LedgerInfoView {
        LedgerInfoView {
            epoch: self.epoch,
            version: self.version,
            transaction_accumulator_hash: self.transaction_accumulator_hash@,
            next_epoch_committee: committee_option_view(self.next_epoch_committee),
            block_id: self.block_id@,
        }
    }
}

impl Clone for LedgerInfo {
    fn clone(&self) -> (c: Self)
        ensures
            c@ == self@,
    {
        let next_epoch_committee = match &self.next_epoch_committee {
            Some(committee) => Some(committee.clone()),
            None => None,
        };
        LedgerInfo {
            epoch: self.epoch,
            version: self.version,
            transaction_accumulator_hash: self.transaction_accumulator_hash,
            next_epoch_committee,
            block_id: self.block_id,
        }
    }
}

impl LedgerInfo {
    /// The epoch in which the header was made.
    pub fn epoch(&self) -> (e: u64)
        ensures
            e == self@.epoch,
    {
        self.epoch
    }

    /// The version of the last transaction that the header covers.
    pub fn version(&self) -> (v: u64)
        ensures
            v == self@.version,
    {
        self.version
    }

    /// The root of the transaction accumulator.
    pub fn transaction_accumulator_hash(&self) -> (d: Digest32)
        ensures
            d@ == self@.transaction_accumulator_hash,
    {
        self.transaction_accumulator_hash
    }

    /// The identifier of the block.
    pub fn block_id(&self) -> (d: Digest32)
        ensures
            d@ == self@.block_id,
    {
        self.block_id
    }

    /// Appends the canonical encoding of the header to `buf`.
    pub fn write_to(&self, buf: &mut Vec<u8>)
        ensures
            final(buf)@ == old(buf)@ + ledger_info_encoding(self@),
    {
        write_u64(buf, self.epoch);
        write_u64(buf, self.version);
        append_digest(buf, &self.transaction_accumulator_hash);
        let ghost before = buf@;
        match &self.next_epoch_committee {
            Some(committee) => {
                buf.push(1u8);
                committee.write_to(buf);
                assert(buf@ =~= before + committee_option_encoding(self@.next_epoch_committee));
            },
            None => {
                buf.push(0u8);
                assert(buf@ =~= before + committee_option_encoding(self@.next_epoch_committee));
            },
        }
        append_digest(buf, &self.block_id);
        assert(buf@ =~= old(buf)@ + ledger_info_encoding(self@));
    }

    /// Reads the header whose canonical encoding stands at place `pos` of
    /// `b`. Gives the header and the place behind it.
    pub(crate) fn read_from(b: &[u8], pos: usize) -> (r: Option<(LedgerInfo, usize)>)
        requires
            pos <= b@.len(),
        ensures
            match ledger_info_parse(b@.skip(pos as int)) {
                Some((li, taken)) => r matches Some((v, end)) && v@ == li && end == pos + taken
                    && end <= b@.len(),
                None => r is None,
            },
    {
        let ghost s = b@.skip(pos as int);
        let (epoch, after_epoch) = match read_u64(b, pos) {
            None => {
                return None;
            },
            Some(found) => found,
        };
        assert(s.skip(8) =~= b@.skip(after_epoch as int));
        let (version, after_version) = match read_u64(b, after_epoch) {
            None => {
                return None;
            },
            Some(found) => found,
        };
        assert(s.skip(16) =~= b@.skip(after_version as int));
        let (transaction_accumulator_hash, after_root) = match read_digest(b, after_version) {
            None => {
                return None;
            },
            Some(found) => found,
        };
        assert(s.skip(48) =~= b@.skip(after_root as int));
        let (present, after_tag) = match read_bool(b, after_root) {
            None => {
                return None;
            },
            Some(found) => found,
        };
        let mut next_epoch_committee: Option<ValidatorCommittee> = None;
        let mut after_committee: usize = after_tag;
        if present {
            assert(s.skip(48).skip(1) =~= b@.skip(after_tag as int));
            match ValidatorCommittee::read_from(b, after_tag) {
                None => {
                    return None;
                },
                Some((committee, end)) => {
                    next_epoch_committee = Some(committee);
                    after_committee = end;
                },
            }
        }
        assert(s.skip(after_committee - pos) =~= b@.skip(after_committee as int));
        let (block_id, end_of_header) = match read_digest(b, after_committee) {
            None => {
                return None;
            },
            Some(found) => found,
        };
        Some(
            (
                LedgerInfo {
                    epoch,
                    version,
                    transaction_accumulator_hash,
                    next_epoch_committee,
                    block_id,
                },
                end_of_header,
            ),
        )
    }

    /// The canonical encoding of the header.
    pub fn to_bytes(&self) -> (bytes: Vec<u8>)
        ensures
            bytes@ == ledger_info_encoding(self@),
    {
        let mut buf: Vec<u8> = Vec::new();
        self.write_to(&mut buf);
        buf
    }

    /// The bytes that the validators sign for this header.
    pub fn signing_message(&self) -> (bytes: Vec<u8>)
        ensures
            bytes@ == ledger_info_signing_message(self@),
    {
        let seed = seed_of_domain(LEDGER_INFO_DOMAIN);
        let mut buf: Vec<u8> = Vec::new();
        append_digest(&mut buf, &seed);
        self.write_to(&mut buf);
        buf
    }

    /// The content hash of the header.
    pub fn hash(&self) -> (d: Digest32)
        ensures
            d@ == ledger_info_hash(self@),
    {
        let message = self.signing_message();
        hash_bytes(message.as_slice())
    }
}

/// What a signed ledger header is to the contracts.
pub struct LedgerInfoWithSignaturesView {
    pub ledger_info: LedgerInfoView,
    pub signatures: Seq<SignatureEntryView>,
}

/// The canonical encoding of one signature entry: the key, then the signature.
pub open spec fn signature_entry_encoding(e: SignatureEntryView) -> Seq<u8> {
    e.signer + e.signature
}

/// A signature entry holds a key of 48 bytes and a signature of 96.
pub open spec fn signature_entry_wf(e: SignatureEntryView) -> bool {
    e.signer.len() == 48 && e.signature.len() == 96
}

/// The signature entry that stands at the start of `s`.
pub open spec fn signature_entry_parse(s: Seq<u8>) -> Option<(SignatureEntryView, nat)> {
    if s.len() >= 144 {
        Some(
            (SignatureEntryView { signer: s.subrange(0, 48), signature: s.subrange(48, 144) }, 144nat),
        )
    } else {
        None
    }
}

/// `signature_entry_encoding` as a value.
pub open spec fn signature_entry_encoder() -> spec_fn(SignatureEntryView) -> Seq<u8> {
    |e: SignatureEntryView| signature_entry_encoding(e)
}

/// `signature_entry_parse` as a value.
pub open spec fn signature_entry_parser() -> spec_fn(Seq<u8>) -> Option<(SignatureEntryView, nat)> {
    |s: Seq<u8>| signature_entry_parse(s)
}

/// `signature_entry_wf` as a value.
pub open spec fn signature_entry_validity() -> spec_fn(SignatureEntryView) -> bool {
    |e: SignatureEntryView| signature_entry_wf(e)
}

/// The encodings of the signature entries one after the other.
pub open spec fn signature_entries_encoding(entries: Seq<SignatureEntryView>) -> Seq<u8> {
    items_encoding(signature_entry_encoder(), entries)
}

/// A signed ledger header that can be encoded.
pub open spec fn ledger_info_with_signatures_valid(li: LedgerInfoWithSignaturesView) -> bool {
    &&& ledger_info_valid(li.ledger_info)
    &&& all_valid(signature_entry_validity(), li.signatures)
    &&& li.signatures.len() <= usize::MAX
}

/// The signed ledger header that stands at the start of `s`.
pub open spec fn ledger_info_with_signatures_parse(s: Seq<u8>) -> Option<
    (LedgerInfoWithSignaturesView, nat),
> {
    match ledger_info_parse(s) {
        None => None,
        Some((ledger_info, taken)) => match length_parse(s.skip(taken as int)) {
            None => None,
            Some((count, more)) => match items_parse(
                signature_entry_parser(),
                s.skip((taken + more) as int),
                count,
            ) {
                None => None,
                Some((signatures, rest)) => Some(
                    (LedgerInfoWithSignaturesView { ledger_info, signatures }, taken + more + rest),
                ),
            },
        },
    }
}

/// The signed ledger header that `bytes` is the canonical encoding of.
pub open spec fn ledger_info_with_signatures_decoding(bytes: Seq<u8>) -> Option<
    LedgerInfoWithSignaturesView,
> {
    whole_input(ledger_info_with_signatures_parse(bytes), bytes.len())
}

/// Reading inverts writing for signature entries.
pub proof fn lemma_signature_entry_parse_encoding()
    ensures
        parse_inverts(signature_entry_encoder(), signature_entry_parser(), signature_entry_validity()),
{
    assert forall|e: SignatureEntryView, tail: Seq<u8>|
        signature_entry_validity()(e) implies #[trigger] signature_entry_parser()(
        signature_entry_encoder()(e) + tail,
    ) == Some((e, signature_entry_encoder()(e).len())) by {
        let s = signature_entry_encoding(e) + tail;
        assert(s.subrange(0, 48) =~= e.signer);
        assert(s.subrange(48, 144) =~= e.signature);
    }
}

/// Writing inverts reading for signature entries.
pub proof fn lemma_signature_entry_encoding_parse()
    ensures
        encoding_inverts(
            signature_entry_encoder(),
            signature_entry_parser(),
            signature_entry_validity(),
        ),
{
    assert forall|s: Seq<u8>|
        (#[trigger] signature_entry_parser()(s) matches Some((e, taken))
            ==> signature_entry_validity()(e) && taken <= s.len() && s.subrange(0, taken as int)
            == signature_entry_encoder()(e)) by {
        if s.len() >= 144 {
            assert(s.subrange(0, 144) =~= s.subrange(0, 48) + s.subrange(48, 144));
        }
    }
}

/// Reading inverts writing for signed ledger headers.
pub proof fn lemma_ledger_info_with_signatures_parse_encoding(
    li: LedgerInfoWithSignaturesView,
    tail: Seq<u8>,
)
    requires
        ledger_info_with_signatures_valid(li),
    ensures
        ledger_info_with_signatures_parse(ledger_info_with_signatures_encoding(li) + tail) == Some(
            (li, ledger_info_with_signatures_encoding(li).len()),
        ),
{
    let s = ledger_info_with_signatures_encoding(li) + tail;
    let head = ledger_info_encoding(li.ledger_info);
    let count = uleb128(li.signatures.len());
    let body = signature_entries_encoding(li.signatures);
    assert(s =~= head + (count + body + tail));
    lemma_ledger_info_parse_encoding(li.ledger_info, count + body + tail);
    assert(s.skip(head.len() as int) =~= count + (body + tail));
    lemma_uleb128_len_u64(li.signatures.len());
    lemma_uleb128_parse_encoding(li.signatures.len(), body + tail, 10);
    assert(s.skip((head.len() + count.len()) as int) =~= body + tail);
    lemma_signature_entry_parse_encoding();
    lemma_items_parse_encoding(
        signature_entry_encoder(),
        signature_entry_parser(),
        signature_entry_validity(),
        li.signatures,
        tail,
    );
}

/// Writing inverts reading for signed ledger headers.
pub proof fn lemma_ledger_info_with_signatures_encoding_parse(s: Seq<u8>)
    ensures
        ledger_info_with_signatures_parse(s) matches Some((li, taken))
            ==> ledger_info_with_signatures_valid(li) && taken <= s.len() && s.subrange(
            0,
            taken as int,
        ) == ledger_info_with_signatures_encoding(li),
{
    lemma_ledger_info_encoding_parse(s);
    match ledger_info_parse(s) {
        None => {},
        Some((ledger_info, taken)) => {
            lemma_uleb128_encoding_parse(s.skip(taken as int), 10);
            match length_parse(s.skip(taken as int)) {
                None => {},
                Some((count, more)) => {
                    lemma_signature_entry_encoding_parse();
                    lemma_items_encoding_parse(
                        signature_entry_encoder(),
                        signature_entry_parser(),
                        signature_entry_validity(),
                        s.skip((taken + more) as int),
                        count,
                    );
                    match items_parse(signature_entry_parser(), s.skip((taken + more) as int), count) {
                        None => {},
                        Some((signatures, rest)) => {
                            assert(s.subrange(0, (taken + more + rest) as int) =~= s.subrange(
                                0,
                                taken as int,
                            ) + s.skip(taken as int).subrange(0, more as int) + s.skip(
                                (taken + more) as int,
                            ).subrange(0, rest as int));
                        },
                    }
                },
            }
        },
    }
}

/// A signed ledger header and its canonical encoding determine each other.
pub proof fn lemma_ledger_info_with_signatures_codec(li: LedgerInfoWithSignaturesView, bytes: Seq<u8>)
    ensures
        ledger_info_with_signatures_decoding(bytes) == Some(li)
            <==> ledger_info_with_signatures_valid(li) && ledger_info_with_signatures_encoding(li)
            == bytes,
{
    lemma_ledger_info_with_signatures_encoding_parse(bytes);
    if ledger_info_with_signatures_valid(li) && ledger_info_with_signatures_encoding(li) == bytes {
        lemma_ledger_info_with_signatures_parse_encoding(li, Seq::empty());
        assert(ledger_info_with_signatures_encoding(li) + Seq::<u8>::empty()
            =~= ledger_info_with_signatures_encoding(li));
    }
    if ledger_info_with_signatures_decoding(bytes) == Some(li) {
        assert(bytes.subrange(0, bytes.len() as int) =~= bytes);
    }
}

/// Reads the signature entry that stands at place `pos` of `b`.
fn read_signature_entry(b: &[u8], pos: usize) -> (r: Option<(SignatureEntry, usize)>)
    requires
        pos <= b@.len(),
    ensures
        match signature_entry_parse(b@.skip(pos as int)) {
            Some((e, taken)) => r matches Some((x, end)) && x@ == e && end == pos + taken && end
                <= b@.len(),
            None => r is None,
        },
{
    let ghost s = b@.skip(pos as int);
    let (signer, after) = match read_array::<48>(b, pos) {
        None => {
            return None;
        },
        Some(found) => found,
    };
    assert(s.skip(48) =~= b@.skip(after as int));
    let (signature, end) = match read_array::<96>(b, after) {
        None => {
            return None;
        },
        Some(found) => found,
    };
    assert(s.skip(48).subrange(0, 96) =~= s.subrange(48, 144));
    Some(
        (
            SignatureEntry { signer: PublicKey { bytes: signer }, signature: Signature { bytes: signature } },
            end,
        ),
    )
}

/// Reads the `count` signature entries that stand one after the other at
/// place `pos` of `b`.
fn read_signature_entries(b: &[u8], pos: usize, count: usize) -> (r: Option<
    (Vec<SignatureEntry>, usize),
>)
    requires
        pos <= b@.len(),
    ensures
        match items_parse(signature_entry_parser(), b@.skip(pos as int), count as nat) {
            Some((entries, taken)) => r matches Some((v, end)) && signatures_view(v@) == entries
                && end == pos + taken && end <= b@.len(),
            None => r is None,
        },
{
    let ghost whole = items_parse(signature_entry_parser(), b@.skip(pos as int), count as nat);
    let mut entries: Vec<SignatureEntry> = Vec::new();
    let mut p: usize = pos;
    let mut i: usize = 0;
    proof {
        match whole {
            Some((rest, more)) => {
                assert(signatures_view(entries@) + rest =~= rest);
            },
            None => {},
        }
    }
    while i < count
        invariant
            i <= count,
            pos <= p <= b@.len(),
            whole == items_parse(signature_entry_parser(), b@.skip(pos as int), count as nat),
            whole == match items_parse(
                signature_entry_parser(),
                b@.skip(p as int),
                (count - i) as nat,
            ) {
                Some((rest, more)) => Some(
                    (signatures_view(entries@) + rest, ((p - pos) + more) as nat),
                ),
                None => None,
            },
        decreases count - i,
    {
        let ghost here = b@.skip(p as int);
        assert(signature_entry_parser()(here) == signature_entry_parse(here));
        let (e, after) = match read_signature_entry(b, p) {
            None => {
                return None;
            },
            Some(found) => found,
        };
        proof {
            assert(here.skip(after - p) =~= b@.skip(after as int));
            let done = signatures_view(entries@);
            match items_parse(signature_entry_parser(), b@.skip(after as int), (count - i - 1) as nat) {
                Some((rest, more)) => {
                    assert(done + (seq![e@] + rest) =~= signatures_view(entries@.push(e)) + rest);
                },
                None => {},
            }
        }
        entries.push(e);
        p = after;
        i += 1;
    }
    proof {
        assert(signatures_view(entries@) + Seq::<SignatureEntryView>::empty() =~= signatures_view(
            entries@,
        ));
    }
    Some((entries, p))
}

/// The canonical encoding of a signed ledger header: the header, the number
/// of signatures, then each signature entry in order.
pub open spec fn ledger_info_with_signatures_encoding(li: LedgerInfoWithSignaturesView) -> Seq<u8> {
    ledger_info_encoding(li.ledger_info) + uleb128(li.signatures.len())
        + signature_entries_encoding(li.signatures)
}

/// A ledger header together with signatures of committee members over it.
#[derive(Debug)]
pub struct LedgerInfoWithSignatures {
    pub ledger_info: LedgerInfo,
    pub signatures: Vec<SignatureEntry>,
}

impl View for LedgerInfoWithSignatures {
    type V = LedgerInfoWithSignaturesView;

    open spec fn view(&self) -> LedgerInfoWithSignaturesView {
        LedgerInfoWithSignaturesView {
            ledger_info: self.ledger_info@,
            signatures: signatures_view(self.signatures@),
        }
    }
}

impl Clone for LedgerInfoWithSignatures {
    fn clone(&self) -> (c: Self)
        ensures
            c@ == self@,
    {
        let signatures = self.signatures.clone();
        assert(signatures_view(signatures@) =~= signatures_view(self.signatures@));
        LedgerInfoWithSignatures { ledger_info: self.ledger_info.clone(), signatures }
    }
}

impl LedgerInfoWithSignatures {
    /// The header that was signed.
    pub fn ledger_info(&self) -> (li: &LedgerInfo)
        ensures
            li@ == self@.ledger_info,
    {
        &self.ledger_info
    }

    /// Checks the signatures over the header against `committee`.
    ///
    /// Each signature is checked over the header's signing message. The
    /// header is accepted when the valid signatures come from different
    /// members of the committee that together hold more than two thirds of
    /// its voting power.
    pub fn verify_signatures(&self, committee: &ValidatorCommittee) -> (r: Result<(), Error>)
        ensures
            r == signatures_verdict(
                committee@,
                ledger_info_signing_message(self@.ledger_info),
                self@.signatures,
            ),
    {
        let message = self.ledger_info.signing_message();
        committee.verify_signed_message(message.as_slice(), &self.signatures)
    }

    /// Appends the canonical encoding of the signed header to `buf`.
    pub fn write_to(&self, buf: &mut Vec<u8>)
        ensures
            final(buf)@ == old(buf)@ + ledger_info_with_signatures_encoding(self@),
    {
        self.ledger_info.write_to(buf);
        let n = self.signatures.len();
        write_uleb128(buf, n);
        let ghost entries = signatures_view(self.signatures@);
        let ghost head = old(buf)@ + ledger_info_encoding(self@.ledger_info) + uleb128(n as nat);
        let mut i: usize = 0;
        assert(entries.take(0) =~= Seq::<SignatureEntryView>::empty());
        while i < n
            invariant
                i <= n,
                n == self.signatures@.len(),
                entries == signatures_view(self.signatures@),
                buf@ == head + signature_entries_encoding(entries.take(i as int)),
            decreases n - i,
        {
            let ghost before = buf@;
            let entry = &self.signatures[i];
            append_bytes(buf, entry.signer.bytes.as_slice());
            append_bytes(buf, entry.signature.bytes.as_slice());
            proof {
                assert(entries.take(i + 1).drop_last() =~= entries.take(i as int));
                assert(entries.take(i + 1).last() == entry@);
                assert(signature_entry_encoder()(entry@) == signature_entry_encoding(entry@));
                assert(buf@ =~= before + signature_entry_encoding(entry@));
            }
            i += 1;
        }
        proof {
            assert(entries.take(n as int) =~= entries);
            assert(buf@ =~= old(buf)@ + ledger_info_with_signatures_encoding(self@));
        }
    }

    /// Reads the signed header whose canonical encoding stands at place
    /// `pos` of `b`. Gives the signed header and the place behind it.
    pub(crate) fn read_from(b: &[u8], pos: usize) -> (r: Option<(LedgerInfoWithSignatures, usize)>)
        requires
            pos <= b@.len(),
        ensures
            match ledger_info_with_signatures_parse(b@.skip(pos as int)) {
                Some((li, taken)) => r matches Some((v, end)) && v@ == li && end == pos + taken
                    && end <= b@.len(),
                None => r is None,
            },
    {
        let ghost s = b@.skip(pos as int);
        let (ledger_info, after_header) = match LedgerInfo::read_from(b, pos) {
            None => {
                return None;
            },
            Some(found) => found,
        };
        assert(s.skip(after_header - pos) =~= b@.skip(after_header as int));
        let (count, after_count) = match read_length(b, after_header) {
            None => {
                return None;
            },
            Some(found) => found,
        };
        assert(s.skip(after_count - pos) =~= b@.skip(after_count as int));
        let (signatures, end) = match read_signature_entries(b, after_count, count) {
            None => {
                return None;
            },
            Some(found) => found,
        };
        Some((LedgerInfoWithSignatures { ledger_info, signatures }, end))
    }

    /// Reads the signed header that `bytes` is the canonical encoding of.
    /// Bytes that are no such encoding, or that go on behind it, are refused.
    pub fn from_bytes(bytes: &[u8]) -> (r: Result<LedgerInfoWithSignatures, Error>)
        ensures
            match r {
                Ok(li) => ledger_info_with_signatures_decoding(bytes@) == Some(li@),
                Err(e) => e == Error::DeserializationError && ledger_info_with_signatures_decoding(
                    bytes@,
                ) is None,
            },
    {
        assert(bytes@.skip(0) =~= bytes@);
        match LedgerInfoWithSignatures::read_from(bytes, 0) {
            None => Err(Error::DeserializationError),
            Some((li, end)) => {
                if end == bytes.len() {
                    Ok(li)
                } else {
                    Err(Error::DeserializationError)
                }
            },
        }
    }

    /// The canonical encoding of the signed header.
    pub fn to_bytes(&self) -> (bytes: Vec<u8>)
        ensures
            bytes@ == ledger_info_with_signatures_encoding(self@),
    {
        let mut buf: Vec<u8> = Vec::new();
        self.write_to(&mut buf);
        buf
    }
}

/// What a transaction record is to the contracts.
pub struct TransactionInfoView {
    pub gas_used: u64,
    pub success: bool,
    pub transaction_hash: Seq<u8>,
    pub event_root_hash: Seq<u8>,
    pub state_change_hash: Seq<u8>,
    pub state_checkpoint_hash: Option<Seq<u8>>,
}

/// The canonical encoding of a transaction record: its fields in the order
/// in which they are declared.
pub open spec fn transaction_info_encoding(t: TransactionInfoView) -> Seq<u8> {
    u64_le(t.gas_used) + bool_byte(t.success) + t.transaction_hash + t.event_root_hash
        + t.state_change_hash + digest_option_encoding(t.state_checkpoint_hash)
}

/// A transaction record that can be encoded.
pub open spec fn transaction_info_valid(t: TransactionInfoView) -> bool {
    &&& digest_valid(t.transaction_hash)
    &&& digest_valid(t.event_root_hash)
    &&& digest_valid(t.state_change_hash)
    &&& digest_option_valid(t.state_checkpoint_hash)
}

/// The transaction record that stands at the start of `s`.
pub open spec fn transaction_info_parse(s: Seq<u8>) -> Option<(TransactionInfoView, nat)> {
    match u64_parse(s) {
        None => None,
        Some((gas_used, _)) => match bool_parse(s.skip(8)) {
            None => None,
            Some((success, _)) => if s.len() < 105 {
                None
            } else {
                match digest_option_parse(s.skip(105)) {
                    None => None,
                    Some((state_checkpoint_hash, taken)) => Some(
                        (
                            TransactionInfoView {
                                gas_used,
                                success,
                                transaction_hash: s.subrange(9, 41),
                                event_root_hash: s.subrange(41, 73),
                                state_change_hash: s.subrange(73, 105),
                                state_checkpoint_hash,
                            },
                            105 + taken,
                        ),
                    ),
                }
            },
        },
    }
}

/// The transaction record that `bytes` is the canonical encoding of.
pub open spec fn transaction_info_decoding(bytes: Seq<u8>) -> Option<TransactionInfoView> {
    whole_input(transaction_info_parse(bytes), bytes.len())
}

/// Reading inverts writing for transaction records.
pub proof fn lemma_transaction_info_parse_encoding(t: TransactionInfoView, tail: Seq<u8>)
    requires
        transaction_info_valid(t),
    ensures
        transaction_info_parse(transaction_info_encoding(t) + tail) == Some(
            (t, transaction_info_encoding(t).len()),
        ),
{
    let s = transaction_info_encoding(t) + tail;
    let last = digest_option_encoding(t.state_checkpoint_hash);
    lemma_u64_parse_encoding(t.gas_used, s.skip(8));
    assert(s =~= u64_le(t.gas_used) + s.skip(8));
    assert(s.skip(8)[0] == bool_byte(t.success)[0]);
    assert(s.subrange(9, 41) =~= t.transaction_hash);
    assert(s.subrange(41, 73) =~= t.event_root_hash);
    assert(s.subrange(73, 105) =~= t.state_change_hash);
    assert(s.skip(105) =~= last + tail);
    lemma_digest_option_parse_encoding(t.state_checkpoint_hash, tail);
}

/// Writing inverts reading for transaction records.
pub proof fn lemma_transaction_info_encoding_parse(s: Seq<u8>)
    ensures
        transaction_info_parse(s) matches Some((t, taken)) ==> transaction_info_valid(t) && taken
            <= s.len() && s.subrange(0, taken as int) == transaction_info_encoding(t),
{
    lemma_u64_encoding_parse(s);
    match transaction_info_parse(s) {
        None => {},
        Some((t, taken)) => {
            lemma_digest_option_encoding_parse(s.skip(105));
            let k = (taken - 105) as nat;
            assert(s.skip(8).subrange(0, 1) =~= bool_byte(t.success));
            assert(s.subrange(0, taken as int) =~= s.subrange(0, 8) + s.skip(8).subrange(0, 1)
                + s.subrange(9, 41) + s.subrange(41, 73) + s.subrange(73, 105) + s.skip(
                105,
            ).subrange(0, k as int));
        },
    }
}

/// A transaction record and its canonical encoding determine each other.
pub proof fn lemma_transaction_info_codec(t: TransactionInfoView, bytes: Seq<u8>)
    ensures
        transaction_info_decoding(bytes) == Some(t) <==> transaction_info_valid(t)
            && transaction_info_encoding(t) == bytes,
{
    lemma_transaction_info_encoding_parse(bytes);
    if transaction_info_valid(t) && transaction_info_encoding(t) == bytes {
        lemma_transaction_info_parse_encoding(t, Seq::empty());
        assert(transaction_info_encoding(t) + Seq::<u8>::empty() =~= transaction_info_encoding(t));
    }
    if transaction_info_decoding(bytes) == Some(t) {
        assert(bytes.subrange(0, bytes.len() as int) =~= bytes);
    }
}

/// The bytes that are hashed for a transaction record: the seed of the
/// record domain, then the record's canonical encoding.
pub open spec fn transaction_info_preimage(t: TransactionInfoView) -> Seq<u8> {
    domain_seed(TRANSACTION_INFO_DOMAIN.spec_bytes()) + transaction_info_encoding(t)
}

/// A record that was changed has another hash: two records that differ in
/// any field are hashed from different bytes, and so have different hashes
/// unless the hash fails to tell those bytes apart.
pub proof fn lemma_transaction_info_hash_sensitive(a: TransactionInfoView, b: TransactionInfoView)
    requires
        transaction_info_valid(a),
        transaction_info_valid(b),
        a != b,
        no_collision(transaction_info_preimage(a), transaction_info_preimage(b)),
    ensures
        transaction_info_hash(a) != transaction_info_hash(b),
{
    lemma_transaction_info_codec(a, transaction_info_encoding(a));
    lemma_transaction_info_codec(b, transaction_info_encoding(b));
    let seed = domain_seed(TRANSACTION_INFO_DOMAIN.spec_bytes());
    let x = transaction_info_preimage(a);
    let y = transaction_info_preimage(b);
    if x == y {
        assert(x.skip(seed.len() as int) =~= transaction_info_encoding(a));
        assert(y.skip(seed.len() as int) =~= transaction_info_encoding(b));
    }
}

/// The content hash of a transaction record: the leaf that stands for the
/// transaction in the accumulator.
pub open spec fn transaction_info_hash(t: TransactionInfoView) -> Seq<u8> {
    sha3_256(domain_seed(TRANSACTION_INFO_DOMAIN.spec_bytes()) + transaction_info_encoding(t))
}

/// The record of one executed transaction.
#[derive(Clone, Copy, Debug)]
pub struct TransactionInfo {
    /// The gas that the transaction used.
    pub gas_used: u64,
    /// Whether the transaction was kept as executed.
    pub success: bool,
    /// The hash of the transaction itself.
    pub transaction_hash: Digest32,
    /// The root of the events that the transaction emitted.
    pub event_root_hash: Digest32,
    /// The hash of the changes that the transaction made to the state.
    pub state_change_hash: Digest32,
    /// The root of the sparse state tree after the transaction, where the
    /// transaction closes a checkpoint.
    pub state_checkpoint_hash: Option<Digest32>,
}

impl View for TransactionInfo {
    type V = TransactionInfoView;

    open spec fn view(&self) -> TransactionInfoView {
        TransactionInfoView {
            gas_used: self.gas_used,
            success: self.success,
            transaction_hash: self.transaction_hash@,
            event_root_hash: self.event_root_hash@,
            state_change_hash: self.state_change_hash@,
            state_checkpoint_hash: digest_option_view(self.state_checkpoint_hash),
        }
    }
}

impl TransactionInfo {
    /// The root of the state tree after the transaction, if it is recorded.
    pub fn state_checkpoint(&self) -> (d: Option<Digest32>)
        ensures
            digest_option_view(d) == self@.state_checkpoint_hash,
    {
        self.state_checkpoint_hash
    }

    /// Appends the canonical encoding of the record to `buf`.
    pub fn write_to(&self, buf: &mut Vec<u8>)
        ensures
            final(buf)@ == old(buf)@ + transaction_info_encoding(self@),
    {
        write_u64(buf, self.gas_used);
        write_bool(buf, self.success);
        append_digest(buf, &self.transaction_hash);
        append_digest(buf, &self.event_root_hash);
        append_digest(buf, &self.state_change_hash);
        write_digest_option(buf, &self.state_checkpoint_hash);
        assert(buf@ =~= old(buf)@ + transaction_info_encoding(self@));
    }

    /// Reads the record that `bytes` is the canonical encoding of. Bytes
    /// that are no such encoding, or that go on behind it, are refused.
    pub fn from_bytes(bytes: &[u8]) -> (r: Result<TransactionInfo, Error>)
        ensures
            match r {
                Ok(t) => transaction_info_decoding(bytes@) == Some(t@),
                Err(e) => e == Error::DeserializationError && transaction_info_decoding(bytes@)
                    is None,
            },
    {
        let ghost s = bytes@;
        assert(s.skip(0) =~= s);
        let (gas_used, after_gas) = match read_u64(bytes, 0) {
            None => {
                return Err(Error::DeserializationError);
            },
            Some(found) => found,
        };
        let (success, after_flag) = match read_bool(bytes, after_gas) {
            None => {
                return Err(Error::DeserializationError);
            },
            Some(found) => found,
        };
        let (transaction_hash, after_hash) = match read_digest(bytes, after_flag) {
            None => {
                return Err(Error::DeserializationError);
            },
            Some(found) => found,
        };
        let (event_root_hash, after_events) = match read_digest(bytes, after_hash) {
            None => {
                return Err(Error::DeserializationError);
            },
            Some(found) => found,
        };
        let (state_change_hash, after_changes) = match read_digest(bytes, after_events) {
            None => {
                return Err(Error::DeserializationError);
            },
            Some(found) => found,
        };
        let (state_checkpoint_hash, end) = match read_digest_option(bytes, after_changes) {
            None => {
                return Err(Error::DeserializationError);
            },
            Some(found) => found,
        };
        proof {
            assert(s.skip(9).subrange(0, 32) =~= s.subrange(9, 41));
            assert(s.skip(41).subrange(0, 32) =~= s.subrange(41, 73));
            assert(s.skip(73).subrange(0, 32) =~= s.subrange(73, 105));
        }
        if end != bytes.len() {
            return Err(Error::DeserializationError);
        }
        Ok(
            TransactionInfo {
                gas_used,
                success,
                transaction_hash,
                event_root_hash,
                state_change_hash,
                state_checkpoint_hash,
            },
        )
    }

    /// The canonical encoding of the record.
    pub fn to_bytes(&self) -> (bytes: Vec<u8>)
        ensures
            bytes@ == transaction_info_encoding(self@),
    {
        let mut buf: Vec<u8> = Vec::new();
        self.write_to(&mut buf);
        buf
    }

    /// The content hash of the record.
    pub fn hash(&self) -> (d: Digest32)
        ensures
            d@ == transaction_info_hash(self@),
    {
        let seed = seed_of_domain(TRANSACTION_INFO_DOMAIN);
        let mut buf: Vec<u8> = Vec::new();
        append_digest(&mut buf, &seed);
        self.write_to(&mut buf);
        hash_bytes(buf.as_slice())
    }
}

} // verus!
