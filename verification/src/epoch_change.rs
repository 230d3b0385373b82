//! The epoch change program: ratchets a trusted committee along an epoch
//! change proof and commits to the identities of the committee it started
//! from and of the committee it arrived at.

use vstd::prelude::*;
use crate::committee::committee_hash;
use crate::committee::no_fault;
use crate::committee::quorum_voting_power;
use crate::committee::signed_power;
use crate::committee::total_voting_power;
use crate::committee::votes_of;
use crate::committee::ValidatorView;
use crate::ledger::ledger_info_signing_message;
use crate::trusted_state::lemma_ratchet_fold_fails;
use crate::trusted_state::ratchet_fold;
use crate::trusted_state::EpochStateView;
use crate::digest::append_digest;
use crate::digest::Digest32;
use crate::encoding::bytes_to_vec;
use crate::error::Error;
use crate::error::Failure;
use crate::error::Step;
use crate::ledger::LedgerInfoWithSignaturesView;
use crate::trusted_state::epoch_change_proof_decoding;
use crate::trusted_state::ratchet_verdict;
use crate::trusted_state::trusted_state_decoding;
use crate::trusted_state::EpochChangeProof;
use crate::trusted_state::TrustedState;
use crate::trusted_state::TrustedStateChange;
use crate::trusted_state::TrustedStateChangeView;
use crate::trusted_state::TrustedStateView;

verus! {

/// What the outcome of an epoch change is to the contracts.
pub struct EpochChangeOutputView {
    pub prev_committee_hash: Seq<u8>,
    pub new_committee_hash: Seq<u8>,
}

/// What a verified epoch change commits to: the identity of the committee
/// that was trusted before and that of the committee that is trusted now.
/// The committees between the two are not part of it.
#[derive(Clone, Copy, Debug)]
pub struct EpochChangeOutput {
    pub prev_committee_hash: Digest32,
    pub new_committee_hash: Digest32,
}

impl View for EpochChangeOutput {
    type V = EpochChangeOutputView;

    open spec fn view(&self) -> EpochChangeOutputView {
        EpochChangeOutputView {
            prev_committee_hash: self.prev_committee_hash@,
            new_committee_hash: self.new_committee_hash@,
        }
    }
}

/// What the verification of an epoch change gives: the error of the ratchet,
/// or the identities of the committee of the trusted state and of the
/// committee that the ratchet arrives at.
pub open spec fn epoch_change_verdict(
    state: TrustedStateView,
    entries: Seq<LedgerInfoWithSignaturesView>,
) -> Result<EpochChangeOutputView, Error> {
    match ratchet_verdict(state, entries) {
        Err(e) => Err(e),
        Ok(TrustedStateChangeView::Version { .. }) => Err(Error::UnexpectedTrustedStateVariant),
        Ok(TrustedStateChangeView::Epoch { new_state, .. }) => match state {
            TrustedStateView::WaypointState { .. } => Err(Error::UnexpectedTrustedStateVariant),
            TrustedStateView::EpochState { epoch_state } => Ok(
                EpochChangeOutputView {
                    prev_committee_hash: committee_hash(epoch_state.committee),
                    new_committee_hash: committee_hash(new_state.committee),
                },
            ),
        },
    }
}

/// What the epoch change program gives on its two inputs: the trusted state
/// is decoded first, then the proof, and input that cannot be decoded gives
/// `DeserializationError`. A failure names the step that failed.
pub open spec fn epoch_change_program(trusted_state_bytes: Seq<u8>, epoch_change_proof_bytes: Seq<u8>) -> Result<
    EpochChangeOutputView,
    Failure,
> {
    match trusted_state_decoding(trusted_state_bytes) {
        None => Err(
            Failure { step: Step::TrustedStateDecoding, error: Error::DeserializationError },
        ),
        Some(state) => match epoch_change_proof_decoding(epoch_change_proof_bytes) {
            None => Err(
                Failure { step: Step::EpochChangeProofDecoding, error: Error::DeserializationError },
            ),
            Some(entries) => match epoch_change_verdict(state, entries) {
                Err(error) => Err(Failure { step: Step::Ratchet, error }),
                Ok(out) => Ok(out),
            },
        },
    }
}

/// The bytes that an epoch change makes public: the two identities, 32
/// bytes each, the earlier committee first.
pub open spec fn epoch_change_public_values(out: EpochChangeOutputView) -> Seq<u8> {
    out.prev_committee_hash + out.new_committee_hash
}

/// The input buffers of the epoch change program, in the order in which it
/// reads them: the trusted state, then the epoch change proof.
pub open spec fn epoch_change_stdin(current_trusted_state: Seq<u8>, epoch_change_proof: Seq<u8>) -> Seq<
    Seq<u8>,
> {
    seq![current_trusted_state, epoch_change_proof]
}

/// The contents of a list of buffers, in order.
pub open spec fn buffers_view(buffers: Seq<Vec<u8>>) -> Seq<Seq<u8>> {
    buffers.map_values(|b: Vec<u8>| b@)
}

/// Ratchets `trusted_state` along `epoch_change_proof` and gives the two
/// identities that the epoch change commits to.
pub fn verify_epoch_change(trusted_state: &TrustedState, epoch_change_proof: &EpochChangeProof) -> (r:
    Result<EpochChangeOutput, Error>)
    ensures
        match r {
            Ok(out) => epoch_change_verdict(trusted_state@, epoch_change_proof@) == Ok::<
                EpochChangeOutputView,
                Error,
            >(out@),
            Err(e) => epoch_change_verdict(trusted_state@, epoch_change_proof@) == Err::<
                EpochChangeOutputView,
                Error,
            >(e),
        },
{
    let change = match trusted_state.verify_and_ratchet_inner(epoch_change_proof) {
        Err(e) => {
            return Err(e);
        },
        Ok(change) => change,
    };
    let new_committee_hash = match &change {
        TrustedStateChange::Epoch { new_state, .. } => new_state.committee.hash(),
        TrustedStateChange::Version { .. } => {
            return Err(Error::UnexpectedTrustedStateVariant);
        },
    };
    let prev_committee_hash = match trusted_state {
        TrustedState::EpochState { epoch_state } => epoch_state.committee.hash(),
        TrustedState::WaypointState { .. } => {
            return Err(Error::UnexpectedTrustedStateVariant);
        },
    };
    Ok(EpochChangeOutput { prev_committee_hash, new_committee_hash })
}

/// The epoch change program: decodes its two inputs and ratchets the
/// trusted state along the proof. What it returns on success is what the
/// program commits to; on any error nothing is committed.
pub fn run(trusted_state_bytes: &[u8], epoch_change_proof_bytes: &[u8]) -> (r: Result<
    EpochChangeOutput,
    Failure,
>)
    ensures
        match r {
            Ok(out) => epoch_change_program(trusted_state_bytes@, epoch_change_proof_bytes@) == Ok::<
                EpochChangeOutputView,
                Failure,
            >(out@),
            Err(e) => epoch_change_program(trusted_state_bytes@, epoch_change_proof_bytes@) == Err::<
                EpochChangeOutputView,
                Failure,
            >(e),
        },
{
    let trusted_state = match TrustedState::from_bytes(trusted_state_bytes) {
        Err(error) => {
            return Err(Failure { step: Step::TrustedStateDecoding, error });
        },
        Ok(trusted_state) => trusted_state,
    };
    let epoch_change_proof = match EpochChangeProof::from_bytes(epoch_change_proof_bytes) {
        Err(error) => {
            return Err(Failure { step: Step::EpochChangeProofDecoding, error });
        },
        Ok(epoch_change_proof) => epoch_change_proof,
    };
    match verify_epoch_change(&trusted_state, &epoch_change_proof) {
        Err(error) => Err(Failure { step: Step::Ratchet, error }),
        Ok(out) => Ok(out),
    }
}

impl EpochChangeOutput {
    /// The bytes that the program makes public, in the order in which it
    /// commits them.
    pub fn to_public_values(&self) -> (bytes: Vec<u8>)
        ensures
            bytes@ == epoch_change_public_values(self@),
            bytes@.len() == 64,
    {
        let mut buf: Vec<u8> = Vec::new();
        append_digest(&mut buf, &self.prev_committee_hash);
        append_digest(&mut buf, &self.new_committee_hash);
        buf
    }

    /// Reads back what `to_public_values` wrote: `bytes` must be exactly
    /// 64 bytes long.
    pub fn from_public_values(bytes: &[u8]) -> (r: Option<EpochChangeOutput>)
        ensures
            r is Some <==> bytes@.len() == 64,
            r matches Some(out) ==> epoch_change_public_values(out@) == bytes@,
    {
        if bytes.len() != 64 {
            return None;
        }
        let prev = Digest32::from_slice(vstd::slice::slice_subrange(bytes, 0, 32));
        let new = Digest32::from_slice(vstd::slice::slice_subrange(bytes, 32, 64));
        match (prev, new) {
            (Some(prev_committee_hash), Some(new_committee_hash)) => {
                assert(bytes@ =~= bytes@.subrange(0, 32) + bytes@.subrange(32, 64));
                Some(EpochChangeOutput { prev_committee_hash, new_committee_hash })
            },
            _ => None,
        }
    }
}

/// Lays out the input of the epoch change program: one buffer for each
/// value that the program reads, in the order in which it reads them.
pub fn generate_stdin(current_trusted_state: &[u8], epoch_change_proof: &[u8]) -> (stdin: Vec<
    Vec<u8>,
>)
    ensures
        buffers_view(stdin@) == epoch_change_stdin(current_trusted_state@, epoch_change_proof@),
{
    let mut stdin: Vec<Vec<u8>> = Vec::new();
    stdin.push(bytes_to_vec(current_trusted_state));
    stdin.push(bytes_to_vec(epoch_change_proof));
    assert(buffers_view(stdin@) =~= epoch_change_stdin(
        current_trusted_state@,
        epoch_change_proof@,
    ));
    stdin
}

/// The signed header `entry` hands trust on from the state `from`: it
/// belongs to the epoch of `from`, the valid signatures over it come from
/// different members of the committee of `from` and reach its quorum, it
/// declares `next` as the next committee, and there is a next epoch.
pub open spec fn hands_on(
    from: EpochStateView,
    entry: LedgerInfoWithSignaturesView,
    next: Seq<ValidatorView>,
) -> bool {
    let votes = votes_of(entry.signatures, ledger_info_signing_message(entry.ledger_info));
    &&& entry.ledger_info.epoch == from.epoch
    &&& from.epoch < u64::MAX
    &&& no_fault(from.committee, votes)
    &&& signed_power(from.committee, votes) >= quorum_voting_power(
        total_voting_power(from.committee),
    )
    &&& entry.ledger_info.next_epoch_committee == Some(next)
}

/// A proof of one header that hands trust on from committee A to committee
/// B commits to the identity of A and the identity of B.
pub proof fn lemma_one_epoch_change(
    a: EpochStateView,
    entry: LedgerInfoWithSignaturesView,
    b: Seq<ValidatorView>,
)
    requires
        hands_on(a, entry, b),
    ensures
        epoch_change_verdict(TrustedStateView::EpochState { epoch_state: a }, seq![entry]) == Ok::<
            EpochChangeOutputView,
            Error,
        >(
            EpochChangeOutputView {
                prev_committee_hash: committee_hash(a.committee),
                new_committee_hash: committee_hash(b),
            },
        ),
{
    let entries = seq![entry];
    assert(entries.drop_last() =~= Seq::<LedgerInfoWithSignaturesView>::empty());
    assert(ratchet_fold(a, entries.drop_last()) == Ok::<EpochStateView, Error>(a));
    assert(entries.last() == entry);
}

/// A proof of two headers that hand trust on from committee A to committee
/// B and from B to committee C commits to the identity of A and the
/// identity of C. What is made public holds nothing of B: it is the 64
/// bytes of those two identities.
pub proof fn lemma_two_epoch_changes(
    a: EpochStateView,
    first: LedgerInfoWithSignaturesView,
    b: Seq<ValidatorView>,
    second: LedgerInfoWithSignaturesView,
    c: Seq<ValidatorView>,
)
    requires
        hands_on(a, first, b),
        hands_on(EpochStateView { epoch: (a.epoch + 1) as u64, committee: b }, second, c),
    ensures
        epoch_change_verdict(TrustedStateView::EpochState { epoch_state: a }, seq![first, second])
            == Ok::<EpochChangeOutputView, Error>(
            EpochChangeOutputView {
                prev_committee_hash: committee_hash(a.committee),
                new_committee_hash: committee_hash(c),
            },
        ),
        epoch_change_public_values(
            EpochChangeOutputView {
                prev_committee_hash: committee_hash(a.committee),
                new_committee_hash: committee_hash(c),
            },
        ) == committee_hash(a.committee) + committee_hash(c),
{
    let entries = seq![first, second];
    assert(entries.drop_last() =~= seq![first]);
    assert(seq![first].drop_last() =~= Seq::<LedgerInfoWithSignaturesView>::empty());
    assert(ratchet_fold(a, seq![first].drop_last()) == Ok::<EpochStateView, Error>(a));
    assert(seq![first].last() == first);
    assert(ratchet_fold(a, seq![first]) == Ok::<EpochStateView, Error>(
        EpochStateView { epoch: (a.epoch + 1) as u64, committee: b },
    ));
    assert(entries.last() == second);
}

/// A proof without headers is refused with `MissingNextEpochState`.
pub proof fn lemma_empty_proof_is_refused(a: EpochStateView)
    ensures
        epoch_change_verdict(
            TrustedStateView::EpochState { epoch_state: a },
            Seq::<LedgerInfoWithSignaturesView>::empty(),
        ) == Err::<EpochChangeOutputView, Error>(Error::MissingNextEpochState),
{
}

/// A proof is refused with `InvalidQuorum` when the valid signatures over
/// its first header, which belongs to the epoch of the trusted state and
/// holds no unknown and no duplicate signer, do not reach the quorum of the
/// trusted committee. Whatever headers follow make no difference.
pub proof fn lemma_too_few_signatures_are_refused(
    a: EpochStateView,
    entries: Seq<LedgerInfoWithSignaturesView>,
)
    requires
        entries.len() > 0,
        entries[0].ledger_info.epoch == a.epoch,
        no_fault(
            a.committee,
            votes_of(entries[0].signatures, ledger_info_signing_message(entries[0].ledger_info)),
        ),
        signed_power(
            a.committee,
            votes_of(entries[0].signatures, ledger_info_signing_message(entries[0].ledger_info)),
        ) < quorum_voting_power(total_voting_power(a.committee)),
    ensures
        epoch_change_verdict(TrustedStateView::EpochState { epoch_state: a }, entries) == Err::<
            EpochChangeOutputView,
            Error,
        >(Error::InvalidQuorum),
{
    let head = entries.take(1);
    assert(head.drop_last() =~= Seq::<LedgerInfoWithSignaturesView>::empty());
    assert(ratchet_fold(a, head.drop_last()) == Ok::<EpochStateView, Error>(a));
    assert(head.last() == entries[0]);
    assert(ratchet_fold(a, head) == Err::<EpochStateView, Error>(Error::InvalidQuorum));
    lemma_ratchet_fold_fails(a, entries, 1);
}

/// A trusted state that is no epoch state cannot be ratcheted.
pub proof fn lemma_waypoint_is_refused(
    version: u64,
    value: Seq<u8>,
    entries: Seq<LedgerInfoWithSignaturesView>,
)
    ensures
        epoch_change_verdict(TrustedStateView::WaypointState { version, value }, entries) == Err::<
            EpochChangeOutputView,
            Error,
        >(Error::UnexpectedTrustedStateVariant),
{
}

} // verus!
