//! What a light client trusts, and the ratchet that moves that trust from
//! the committee of one epoch to the committee of a later one.

use vstd::prelude::*;
use crate::committee::committee_encoding;
use crate::committee::committee_parse;
use crate::committee::committee_wf;
use crate::committee::lemma_committee_encoding_parse;
use crate::committee::lemma_committee_parse_encoding;
use crate::committee::signatures_verdict;
use crate::committee::ValidatorCommittee;
use crate::committee::ValidatorView;
use crate::digest::append_digest;
use crate::digest::digest_valid;
use crate::digest::read_digest;
use crate::digest::Digest32;
use crate::encoding::all_valid;
use crate::encoding::bool_parse;
use crate::encoding::encoding_inverts;
use crate::encoding::fixed_parse;
use crate::encoding::items_encoding;
use crate::encoding::items_parse;
use crate::encoding::length_parse;
use crate::encoding::lemma_items_encoding_parse;
use crate::encoding::lemma_items_parse_encoding;
use crate::encoding::lemma_u64_encoding_parse;
use crate::encoding::lemma_u64_parse_encoding;
use crate::encoding::lemma_uleb128_encoding_parse;
use crate::encoding::lemma_uleb128_len_u64;
use crate::encoding::lemma_uleb128_parse_encoding;
use crate::encoding::parse_inverts;
use crate::encoding::read_bool;
use crate::encoding::read_length;
use crate::encoding::read_u64;
use crate::encoding::u64_le;
use crate::encoding::u64_parse;
use crate::encoding::uleb128;
use crate::encoding::whole_input;
use crate::encoding::write_u64;
use crate::encoding::write_uleb128;
use crate::error::Error;
use crate::ledger::ledger_info_signing_message;
use crate::ledger::ledger_info_with_signatures_encoding;
use crate::ledger::ledger_info_with_signatures_parse;
use crate::ledger::ledger_info_with_signatures_valid;
use crate::ledger::lemma_ledger_info_with_signatures_encoding_parse;
use crate::ledger::lemma_ledger_info_with_signatures_parse_encoding;
use crate::ledger::LedgerInfoWithSignatures;
use crate::ledger::LedgerInfoWithSignaturesView;

verus! {

/// What an epoch state is to the contracts.
pub struct EpochStateView {
    pub epoch: u64,
    pub committee: Seq<ValidatorView>,
}

/// A committee together with the epoch that it governs.
#[derive(Debug)]
pub struct EpochState {
    pub epoch: u64,
    pub committee: ValidatorCommittee,
}

impl View for EpochState {
    type V = EpochStateView;

    open spec fn view(&self) -> EpochStateView {
        EpochStateView { epoch: self.epoch, committee: self.committee@ }
    }
}

impl Clone for EpochState {
    fn clone(&self) -> (c: Self)
        ensures
            c@ == self@,
    {
        EpochState { epoch: self.epoch, committee: self.committee.clone() }
    }
}

impl EpochState {
    /// The committee of the epoch.
    pub fn committee(&self) -> (c: &ValidatorCommittee)
        ensures
            c@ == self@.committee,
    {
        &self.committee
    }
}

/// What a trusted state is to the contracts.
pub enum TrustedStateView {
    WaypointState { version: u64, value: Seq<u8> },
    EpochState { epoch_state: EpochStateView },
}

/// What a light client trusts: either no more than a waypoint, the hash of
/// the ledger at one version, or the committee of an epoch. Trust is handed
/// on from a committee only.
#[derive(Debug)]
pub enum TrustedState {
    WaypointState { version: u64, value: Digest32 },
    EpochState { epoch_state: EpochState },
}

impl View for TrustedState {
    type V = TrustedStateView;

    open spec fn view(&self) -> TrustedStateView {
        match self {
            TrustedState::WaypointState { version, value } => TrustedStateView::WaypointState {
                version: *version,
                value: value@,
            },
            TrustedState::EpochState { epoch_state } => TrustedStateView::EpochState {
                epoch_state: epoch_state@,
            },
        }
    }
}

/// The signed headers of an epoch change proof, in order.
pub open spec fn headers_view(s: Seq<LedgerInfoWithSignatures>) -> Seq<
    LedgerInfoWithSignaturesView,
> {
    s.map_values(|li: LedgerInfoWithSignatures| li@)
}

/// Evidence that the committee changed: one signed header for each epoch
/// that ended, in the order of the epochs. Each header is signed by the
/// committee of the epoch that it ends and declares the committee of the next.
#[derive(Debug)]
pub struct EpochChangeProof {
    pub ledger_info_with_sigs: Vec<LedgerInfoWithSignatures>,
}

impl View for EpochChangeProof {
    type V = Seq<LedgerInfoWithSignaturesView>;

    open spec fn view(&self) -> Seq<LedgerInfoWithSignaturesView> {
        headers_view(self.ledger_info_with_sigs@)
    }
}

impl EpochChangeProof {
    /// The proof made of the given signed headers, in order.
    pub fn new(ledger_info_with_sigs: Vec<LedgerInfoWithSignatures>) -> (p: EpochChangeProof)
        ensures
            p@ == headers_view(ledger_info_with_sigs@),
    {
        EpochChangeProof { ledger_info_with_sigs }
    }

    /// The canonical encoding of the proof.
    pub fn to_bytes(&self) -> (bytes: Vec<u8>)
        ensures
            bytes@ == epoch_change_proof_encoding(self@),
    {
        let mut buf: Vec<u8> = Vec::new();
        let n = self.ledger_info_with_sigs.len();
        write_uleb128(&mut buf, n);
        let ghost all = self@;
        let mut i: usize = 0;
        assert(all.take(0) =~= Seq::<LedgerInfoWithSignaturesView>::empty());
        while i < n
            invariant
                i <= n,
                n == self.ledger_info_with_sigs@.len(),
                all == self@,
                buf@ == uleb128(n as nat) + items_encoding(header_encoder(), all.take(i as int)),
            decreases n - i,
        {
            let entry = &self.ledger_info_with_sigs[i];
            entry.write_to(&mut buf);
            proof {
                assert(all.take(i + 1).drop_last() =~= all.take(i as int));
                assert(all.take(i + 1).last() == entry@);
                assert(header_encoder()(entry@) == ledger_info_with_signatures_encoding(entry@));
                assert(buf@ =~= uleb128(n as nat) + items_encoding(
                    header_encoder(),
                    all.take(i + 1),
                ));
            }
            i += 1;
        }
        assert(all.take(n as int) =~= all);
        buf
    }

    /// Reads the proof that `bytes` is the canonical encoding of. Bytes
    /// that are no such encoding, or that go on behind it, are refused.
    pub fn from_bytes(bytes: &[u8]) -> (r: Result<EpochChangeProof, Error>)
        ensures
            match r {
                Ok(p) => epoch_change_proof_decoding(bytes@) == Some(p@),
                Err(e) => e == Error::DeserializationError && epoch_change_proof_decoding(bytes@)
                    is None,
            },
    {
        assert(bytes@.skip(0) =~= bytes@);
        let (count, start) = match read_length(bytes, 0) {
            None => {
                return Err(Error::DeserializationError);
            },
            Some(found) => found,
        };
        match read_headers(bytes, start, count) {
            None => Err(Error::DeserializationError),
            Some((ledger_info_with_sigs, end)) => {
                if end == bytes.len() {
                    Ok(EpochChangeProof { ledger_info_with_sigs })
                } else {
                    Err(Error::DeserializationError)
                }
            },
        }
    }
}

/// Reads the `count` signed headers that stand one after the other at place
/// `pos` of `b`.
fn read_headers(b: &[u8], pos: usize, count: usize) -> (r: Option<
    (Vec<LedgerInfoWithSignatures>, usize),
>)
    requires
        pos <= b@.len(),
    ensures
        match items_parse(header_parser(), b@.skip(pos as int), count as nat) {
            Some((entries, taken)) => r matches Some((v, end)) && headers_view(v@) == entries && end
                == pos + taken && end <= b@.len(),
            None => r is None,
        },
{
    let ghost whole = items_parse(header_parser(), b@.skip(pos as int), count as nat);
    let mut entries: Vec<LedgerInfoWithSignatures> = Vec::new();
    let mut p: usize = pos;
    let mut i: usize = 0;
    proof {
        match whole {
            Some((rest, more)) => {
                assert(headers_view(entries@) + rest =~= rest);
            },
            None => {},
        }
    }
    while i < count
        invariant
            i <= count,
            pos <= p <= b@.len(),
            whole == items_parse(header_parser(), b@.skip(pos as int), count as nat),
            whole == match items_parse(header_parser(), b@.skip(p as int), (count - i) as nat) {
                Some((rest, more)) => Some((headers_view(entries@) + rest, ((p - pos) + more) as nat)),
                None => None,
            },
        decreases count - i,
    {
        let ghost here = b@.skip(p as int);
        assert(header_parser()(here) == ledger_info_with_signatures_parse(here));
        let (entry, after) = match LedgerInfoWithSignatures::read_from(b, p) {
            None => {
                return None;
            },
            Some(found) => found,
        };
        proof {
            assert(here.skip(after - p) =~= b@.skip(after as int));
            let done = headers_view(entries@);
            match items_parse(header_parser(), b@.skip(after as int), (count - i - 1) as nat) {
                Some((rest, more)) => {
                    assert(done + (seq![entry@] + rest) =~= headers_view(entries@.push(entry))
                        + rest);
                },
                None => {},
            }
        }
        entries.push(entry);
        p = after;
        i += 1;
    }
    proof {
        assert(headers_view(entries@) + Seq::<LedgerInfoWithSignaturesView>::empty()
            =~= headers_view(entries@));
    }
    Some((entries, p))
}

/// What a change of the trusted state is to the contracts.
pub enum TrustedStateChangeView {
    Epoch { new_state: EpochStateView, latest_epoch_change_li: LedgerInfoWithSignaturesView },
    Version { version: u64 },
}

/// How the trusted state moved. Only a move to a later epoch carries a new
/// committee; `verify_and_ratchet_inner` returns no other.
#[derive(Debug)]
pub enum TrustedStateChange {
    /// The state moved to a later epoch: the state of that epoch, and the
    /// last signed header that was applied.
    Epoch { new_state: EpochState, latest_epoch_change_li: LedgerInfoWithSignatures },
    /// The state moved to a later version within its epoch.
    Version { version: u64 },
}

impl View for TrustedStateChange {
    type V = TrustedStateChangeView;

    open spec fn view(&self) -> TrustedStateChangeView {
        match self {
            TrustedStateChange::Epoch {
                new_state,
                latest_epoch_change_li,
            } => TrustedStateChangeView::Epoch {
                new_state: new_state@,
                latest_epoch_change_li: latest_epoch_change_li@,
            },
            TrustedStateChange::Version { version } => TrustedStateChangeView::Version {
                version: *version,
            },
        }
    }
}

/// A trusted state that can be encoded.
pub open spec fn trusted_state_valid(state: TrustedStateView) -> bool {
    match state {
        TrustedStateView::WaypointState { value, .. } => digest_valid(value),
        TrustedStateView::EpochState { epoch_state } => committee_wf(epoch_state.committee)
            && epoch_state.committee.len() <= usize::MAX,
    }
}

/// The canonical encoding of a trusted state: a zero byte, the version and
/// the value of a waypoint, or a one byte, the epoch and the committee of
/// an epoch state.
pub open spec fn trusted_state_encoding(state: TrustedStateView) -> Seq<u8> {
    match state {
        TrustedStateView::WaypointState { version, value } => seq![0u8] + u64_le(version) + value,
        TrustedStateView::EpochState { epoch_state } => seq![1u8] + u64_le(epoch_state.epoch)
            + committee_encoding(epoch_state.committee),
    }
}

/// The trusted state that stands at the start of `s`.
pub open spec fn trusted_state_parse(s: Seq<u8>) -> Option<(TrustedStateView, nat)> {
    match bool_parse(s) {
        None => None,
        Some((is_epoch_state, _)) => match u64_parse(s.skip(1)) {
            None => None,
            Some((number, _)) => if is_epoch_state {
                match committee_parse(s.skip(9)) {
                    None => None,
                    Some((committee, taken)) => Some(
                        (
                            TrustedStateView::EpochState {
                                epoch_state: EpochStateView { epoch: number, committee },
                            },
                            9 + taken,
                        ),
                    ),
                }
            } else {
                match fixed_parse(s.skip(9), 32) {
                    None => None,
                    Some((value, taken)) => Some(
                        (TrustedStateView::WaypointState { version: number, value }, 9 + taken),
                    ),
                }
            },
        },
    }
}

/// The trusted state that `bytes` is the canonical encoding of.
pub open spec fn trusted_state_decoding(bytes: Seq<u8>) -> Option<TrustedStateView> {
    whole_input(trusted_state_parse(bytes), bytes.len())
}

/// Reading inverts writing for trusted states.
pub proof fn lemma_trusted_state_parse_encoding(state: TrustedStateView, tail: Seq<u8>)
    requires
        trusted_state_valid(state),
    ensures
        trusted_state_parse(trusted_state_encoding(state) + tail) == Some(
            (state, trusted_state_encoding(state).len()),
        ),
{
    let s = trusted_state_encoding(state) + tail;
    match state {
        TrustedStateView::WaypointState { version, value } => {
            assert(s[0] == 0u8);
            lemma_u64_parse_encoding(version, value + tail);
            assert(s.skip(1) =~= u64_le(version) + (value + tail));
            assert(s.skip(9) =~= value + tail);
            assert((value + tail).subrange(0, 32) =~= value);
        },
        TrustedStateView::EpochState { epoch_state } => {
            assert(s[0] == 1u8);
            lemma_u64_parse_encoding(
                epoch_state.epoch,
                committee_encoding(epoch_state.committee) + tail,
            );
            assert(s.skip(1) =~= u64_le(epoch_state.epoch) + (committee_encoding(
                epoch_state.committee,
            ) + tail));
            assert(s.skip(9) =~= committee_encoding(epoch_state.committee) + tail);
            lemma_committee_parse_encoding(epoch_state.committee, tail);
        },
    }
}

/// Writing inverts reading for trusted states.
pub proof fn lemma_trusted_state_encoding_parse(s: Seq<u8>)
    ensures
        trusted_state_parse(s) matches Some((state, taken)) ==> trusted_state_valid(state) && taken
            <= s.len() && s.subrange(0, taken as int) == trusted_state_encoding(state),
{
    match trusted_state_parse(s) {
        None => {},
        Some((state, taken)) => {
            lemma_u64_encoding_parse(s.skip(1));
            lemma_committee_encoding_parse(s.skip(9));
            let k = (taken - 9) as nat;
            assert(s.subrange(0, taken as int) =~= seq![s[0]] + s.skip(1).subrange(0, 8) + s.skip(
                9,
            ).subrange(0, k as int));
        },
    }
}

/// A trusted state and its canonical encoding determine each other.
pub proof fn lemma_trusted_state_codec(state: TrustedStateView, bytes: Seq<u8>)
    ensures
        trusted_state_decoding(bytes) == Some(state) <==> trusted_state_valid(state)
            && trusted_state_encoding(state) == bytes,
{
    lemma_trusted_state_encoding_parse(bytes);
    if trusted_state_valid(state) && trusted_state_encoding(state) == bytes {
        lemma_trusted_state_parse_encoding(state, Seq::empty());
        assert(trusted_state_encoding(state) + Seq::<u8>::empty() =~= trusted_state_encoding(state));
    }
    if trusted_state_decoding(bytes) == Some(state) {
        assert(bytes.subrange(0, bytes.len() as int) =~= bytes);
    }
}

/// `ledger_info_with_signatures_encoding` as a value.
pub open spec fn header_encoder() -> spec_fn(LedgerInfoWithSignaturesView) -> Seq<u8> {
    |li: LedgerInfoWithSignaturesView| ledger_info_with_signatures_encoding(li)
}

/// `ledger_info_with_signatures_parse` as a value.
pub open spec fn header_parser() -> spec_fn(Seq<u8>) -> Option<(LedgerInfoWithSignaturesView, nat)> {
    |s: Seq<u8>| ledger_info_with_signatures_parse(s)
}

/// `ledger_info_with_signatures_valid` as a value.
pub open spec fn header_validity() -> spec_fn(LedgerInfoWithSignaturesView) -> bool {
    |li: LedgerInfoWithSignaturesView| ledger_info_with_signatures_valid(li)
}

/// An epoch change proof that can be encoded.
pub open spec fn epoch_change_proof_valid(entries: Seq<LedgerInfoWithSignaturesView>) -> bool {
    all_valid(header_validity(), entries) && entries.len() <= usize::MAX
}

/// The canonical encoding of an epoch change proof: the number of signed
/// headers, then each signed header in order.
pub open spec fn epoch_change_proof_encoding(entries: Seq<LedgerInfoWithSignaturesView>) -> Seq<u8> {
    uleb128(entries.len()) + items_encoding(header_encoder(), entries)
}

/// The epoch change proof that stands at the start of `s`.
pub open spec fn epoch_change_proof_parse(s: Seq<u8>) -> Option<
    (Seq<LedgerInfoWithSignaturesView>, nat),
> {
    match length_parse(s) {
        None => None,
        Some((count, taken)) => match items_parse(header_parser(), s.skip(taken as int), count) {
            None => None,
            Some((entries, more)) => Some((entries, taken + more)),
        },
    }
}

/// The epoch change proof that `bytes` is the canonical encoding of.
pub open spec fn epoch_change_proof_decoding(bytes: Seq<u8>) -> Option<
    Seq<LedgerInfoWithSignaturesView>,
> {
    whole_input(epoch_change_proof_parse(bytes), bytes.len())
}

/// Reading inverts writing for signed headers, as a law of the three values.
pub proof fn lemma_header_parse_encoding()
    ensures
        parse_inverts(header_encoder(), header_parser(), header_validity()),
{
    assert forall|li: LedgerInfoWithSignaturesView, tail: Seq<u8>|
        header_validity()(li) implies #[trigger] header_parser()(header_encoder()(li) + tail)
        == Some((li, header_encoder()(li).len())) by {
        lemma_ledger_info_with_signatures_parse_encoding(li, tail);
    }
}

/// Writing inverts reading for signed headers, as a law of the three values.
pub proof fn lemma_header_encoding_parse()
    ensures
        encoding_inverts(header_encoder(), header_parser(), header_validity()),
{
    assert forall|s: Seq<u8>|
        (#[trigger] header_parser()(s) matches Some((li, taken)) ==> header_validity()(li) && taken
            <= s.len() && s.subrange(0, taken as int) == header_encoder()(li)) by {
        lemma_ledger_info_with_signatures_encoding_parse(s);
    }
}

/// Reading inverts writing for epoch change proofs.
pub proof fn lemma_epoch_change_proof_parse_encoding(
    entries: Seq<LedgerInfoWithSignaturesView>,
    tail: Seq<u8>,
)
    requires
        epoch_change_proof_valid(entries),
    ensures
        epoch_change_proof_parse(epoch_change_proof_encoding(entries) + tail) == Some(
            (entries, epoch_change_proof_encoding(entries).len()),
        ),
{
    let body = items_encoding(header_encoder(), entries);
    let s = epoch_change_proof_encoding(entries) + tail;
    lemma_uleb128_len_u64(entries.len());
    assert(s =~= uleb128(entries.len()) + (body + tail));
    lemma_uleb128_parse_encoding(entries.len(), body + tail, 10);
    assert(s.skip(uleb128(entries.len()).len() as int) =~= body + tail);
    lemma_header_parse_encoding();
    lemma_items_parse_encoding(header_encoder(), header_parser(), header_validity(), entries, tail);
}

/// Writing inverts reading for epoch change proofs.
pub proof fn lemma_epoch_change_proof_encoding_parse(s: Seq<u8>)
    ensures
        epoch_change_proof_parse(s) matches Some((entries, taken)) ==> epoch_change_proof_valid(
            entries,
        ) && taken <= s.len() && s.subrange(0, taken as int) == epoch_change_proof_encoding(entries),
{
    lemma_uleb128_encoding_parse(s, 10);
    match length_parse(s) {
        None => {},
        Some((count, taken)) => {
            lemma_header_encoding_parse();
            lemma_items_encoding_parse(
                header_encoder(),
                header_parser(),
                header_validity(),
                s.skip(taken as int),
                count,
            );
            match items_parse(header_parser(), s.skip(taken as int), count) {
                None => {},
                Some((entries, more)) => {
                    assert(s.subrange(0, (taken + more) as int) =~= s.subrange(0, taken as int)
                        + s.skip(taken as int).subrange(0, more as int));
                },
            }
        },
    }
}

/// An epoch change proof and its canonical encoding determine each other.
pub proof fn lemma_epoch_change_proof_codec(
    entries: Seq<LedgerInfoWithSignaturesView>,
    bytes: Seq<u8>,
)
    ensures
        epoch_change_proof_decoding(bytes) == Some(entries) <==> epoch_change_proof_valid(entries)
            && epoch_change_proof_encoding(entries) == bytes,
{
    lemma_epoch_change_proof_encoding_parse(bytes);
    if epoch_change_proof_valid(entries) && epoch_change_proof_encoding(entries) == bytes {
        lemma_epoch_change_proof_parse_encoding(entries, Seq::empty());
        assert(epoch_change_proof_encoding(entries) + Seq::<u8>::empty()
            =~= epoch_change_proof_encoding(entries));
    }
    if epoch_change_proof_decoding(bytes) == Some(entries) {
        assert(bytes.subrange(0, bytes.len() as int) =~= bytes);
    }
}

/// One step of the ratchet: what applying the signed header `entry` to the
/// state `state` gives.
///
/// The header must belong to the epoch of the state, else the proof is out
/// of order (`MalformedProof`). Its signatures must satisfy the committee of
/// the state. It must declare a next committee (`MissingNextEpochState`).
/// That committee then governs the next epoch; after the last epoch that a
/// counter can hold there is none (`MalformedProof`).
pub open spec fn ratchet_step(state: EpochStateView, entry: LedgerInfoWithSignaturesView) -> Result<
    EpochStateView,
    Error,
> {
    if entry.ledger_info.epoch != state.epoch {
        Err(Error::MalformedProof)
    } else {
        match signatures_verdict(
            state.committee,
            ledger_info_signing_message(entry.ledger_info),
            entry.signatures,
        ) {
            Err(e) => Err(e),
            Ok(_) => match entry.ledger_info.next_epoch_committee {
                None => Err(Error::MissingNextEpochState),
                Some(next) => if state.epoch == u64::MAX {
                    Err(Error::MalformedProof)
                } else {
                    Ok(EpochStateView { epoch: (state.epoch + 1) as u64, committee: next })
                },
            },
        }
    }
}

/// The state after the signed headers `entries` were applied to `state` one
/// after the other, or the error of the first step that failed.
pub open spec fn ratchet_fold(state: EpochStateView, entries: Seq<LedgerInfoWithSignaturesView>) -> Result<
    EpochStateView,
    Error,
>
    decreases entries.len(),
{
    if entries.len() == 0 {
        Ok(state)
    } else {
        match ratchet_fold(state, entries.drop_last()) {
            Err(e) => Err(e),
            Ok(reached) => ratchet_step(reached, entries.last()),
        }
    }
}

/// What ratcheting the trusted state `state` by the proof `entries` gives.
///
/// Only an epoch state can be ratcheted (`UnexpectedTrustedStateVariant`
/// for any other). A proof without headers declares no next epoch
/// (`MissingNextEpochState`). Otherwise every header is applied in order,
/// and the change carries the state reached and the last header.
pub open spec fn ratchet_verdict(state: TrustedStateView, entries: Seq<LedgerInfoWithSignaturesView>) -> Result<
    TrustedStateChangeView,
    Error,
> {
    match state {
        TrustedStateView::WaypointState { .. } => Err(Error::UnexpectedTrustedStateVariant),
        TrustedStateView::EpochState { epoch_state } => if entries.len() == 0 {
            Err(Error::MissingNextEpochState)
        } else {
            match ratchet_fold(epoch_state, entries) {
                Err(e) => Err(e),
                Ok(reached) => Ok(
                    TrustedStateChangeView::Epoch {
                        new_state: reached,
                        latest_epoch_change_li: entries.last(),
                    },
                ),
            }
        },
    }
}

impl TrustedState {
    /// The canonical encoding of the trusted state.
    pub fn to_bytes(&self) -> (bytes: Vec<u8>)
        ensures
            bytes@ == trusted_state_encoding(self@),
    {
        let mut buf: Vec<u8> = Vec::new();
        match self {
            TrustedState::WaypointState { version, value } => {
                buf.push(0u8);
                write_u64(&mut buf, *version);
                append_digest(&mut buf, value);
                assert(buf@ =~= trusted_state_encoding(self@));
            },
            TrustedState::EpochState { epoch_state } => {
                buf.push(1u8);
                write_u64(&mut buf, epoch_state.epoch);
                epoch_state.committee.write_to(&mut buf);
                assert(buf@ =~= trusted_state_encoding(self@));
            },
        }
        buf
    }

    /// Reads the trusted state that `bytes` is the canonical encoding of.
    /// Bytes that are no such encoding, or that go on behind it, are refused.
    pub fn from_bytes(bytes: &[u8]) -> (r: Result<TrustedState, Error>)
        ensures
            match r {
                Ok(state) => trusted_state_decoding(bytes@) == Some(state@),
                Err(e) => e == Error::DeserializationError && trusted_state_decoding(bytes@) is None,
            },
    {
        let ghost s = bytes@;
        assert(s.skip(0) =~= s);
        let (is_epoch_state, after_tag) = match read_bool(bytes, 0) {
            None => {
                return Err(Error::DeserializationError);
            },
            Some(found) => found,
        };
        let (number, after_number) = match read_u64(bytes, after_tag) {
            None => {
                return Err(Error::DeserializationError);
            },
            Some(found) => found,
        };
        if is_epoch_state {
            match ValidatorCommittee::read_from(bytes, after_number) {
                None => Err(Error::DeserializationError),
                Some((committee, end)) => {
                    if end == bytes.len() {
                        Ok(
                            TrustedState::EpochState {
                                epoch_state: EpochState { epoch: number, committee },
                            },
                        )
                    } else {
                        Err(Error::DeserializationError)
                    }
                },
            }
        } else {
            match read_digest(bytes, after_number) {
                None => Err(Error::DeserializationError),
                Some((value, end)) => {
                    if end == bytes.len() {
                        Ok(TrustedState::WaypointState { version: number, value })
                    } else {
                        Err(Error::DeserializationError)
                    }
                },
            }
        }
    }

    /// Applies one signed header to an epoch state.
    pub fn ratchet_once(state: &EpochState, entry: &LedgerInfoWithSignatures) -> (r: Result<
        EpochState,
        Error,
    >)
        ensures
            match r {
                Ok(next) => ratchet_step(state@, entry@) == Ok::<EpochStateView, Error>(next@),
                Err(e) => ratchet_step(state@, entry@) == Err::<EpochStateView, Error>(e),
            },
    {
        if entry.ledger_info.epoch != state.epoch {
            return Err(Error::MalformedProof);
        }
        match entry.verify_signatures(&state.committee) {
            Err(e) => {
                return Err(e);
            },
            Ok(_) => {},
        }
        match &entry.ledger_info.next_epoch_committee {
            None => Err(Error::MissingNextEpochState),
            Some(next) => {
                if state.epoch == u64::MAX {
                    Err(Error::MalformedProof)
                } else {
                    Ok(EpochState { epoch: state.epoch + 1, committee: next.clone() })
                }
            },
        }
    }

    /// Advances the trusted state along an epoch change proof.
    ///
    /// The headers of the proof are applied in their order, each to the
    /// state that the one before it gave; none is skipped, and the first
    /// failure ends the verification.
    pub fn verify_and_ratchet_inner(&self, epoch_change_proof: &EpochChangeProof) -> (r: Result<
        TrustedStateChange,
        Error,
    >)
        ensures
            match r {
                Ok(change) => ratchet_verdict(self@, epoch_change_proof@) == Ok::<
                    TrustedStateChangeView,
                    Error,
                >(change@),
                Err(e) => ratchet_verdict(self@, epoch_change_proof@) == Err::<
                    TrustedStateChangeView,
                    Error,
                >(e),
            },
    {
        let start = match self {
            TrustedState::WaypointState { .. } => {
                return Err(Error::UnexpectedTrustedStateVariant);
            },
            TrustedState::EpochState { epoch_state } => epoch_state,
        };
        let n = epoch_change_proof.ledger_info_with_sigs.len();
        if n == 0 {
            return Err(Error::MissingNextEpochState);
        }
        let ghost entries = epoch_change_proof@;
        let mut current: EpochState = start.clone();
        let mut i: usize = 0;
        assert(entries.take(0) =~= Seq::<LedgerInfoWithSignaturesView>::empty());
        while i < n
            invariant
                i <= n,
                n == epoch_change_proof.ledger_info_with_sigs@.len(),
                entries == epoch_change_proof@,
                self@ == (TrustedStateView::EpochState { epoch_state: start@ }),
                ratchet_fold(start@, entries.take(i as int)) == Ok::<EpochStateView, Error>(
                    current@,
                ),
            decreases n - i,
        {
            let entry = &epoch_change_proof.ledger_info_with_sigs[i];
            proof {
                assert(entries.take(i + 1).drop_last() =~= entries.take(i as int));
                assert(entries.take(i + 1).last() == entry@);
            }
            match TrustedState::ratchet_once(&current, entry) {
                Err(e) => {
                    proof {
                        lemma_ratchet_fold_fails(start@, entries, i + 1);
                    }
                    return Err(e);
                },
                Ok(next) => {
                    current = next;
                },
            }
            i += 1;
        }
        assert(entries.take(n as int) =~= entries);
        let last = epoch_change_proof.ledger_info_with_sigs[n - 1].clone();
        Ok(TrustedStateChange::Epoch { new_state: current, latest_epoch_change_li: last })
    }
}

/// Once a step has failed, the failure stays: the whole list gives the error
/// that its first `k` headers give.
pub proof fn lemma_ratchet_fold_fails(
    state: EpochStateView,
    entries: Seq<LedgerInfoWithSignaturesView>,
    k: int,
)
    requires
        0 <= k <= entries.len(),
        ratchet_fold(state, entries.take(k)) is Err,
    ensures
        ratchet_fold(state, entries) == ratchet_fold(state, entries.take(k)),
    decreases entries.len() - k,
{
    if k == entries.len() {
        assert(entries.take(k) =~= entries);
    } else {
        assert(entries.take(k + 1).drop_last() =~= entries.take(k));
        lemma_ratchet_fold_fails(state, entries, k + 1);
    }
}

} // verus!
