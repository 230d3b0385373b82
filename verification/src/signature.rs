//! Keys and signatures of validators, and the check of one signature.

use vstd::prelude::*;
use vstd::std_specs::cmp::PartialEqSpecImpl;
use vstd::string::StringSliceAdditionalSpecFns;
use crate::encoding::slices_equal;

verus! {

/// Width of a compressed public key in bytes.
pub const PUBLIC_KEY_LENGTH: usize = 48;

/// Width of a compressed signature in bytes.
pub const SIGNATURE_LENGTH: usize = 96;

/// The tag under which messages are mapped to the curve before they are signed.
pub const SIGNATURE_DOMAIN: &'static str = "BLS_SIG_BLS12381G2_XMD:SHA-256_SSWU_RO_POP_";

/// The public key of a validator: a compressed point of 48 bytes.
/// A validator is identified by its key.
#[derive(Clone, Copy, Debug)]
pub struct PublicKey {
    pub bytes: [u8; 48],
}

impl View for PublicKey {
    type V = Seq<u8>;

    open spec fn view(&self) -> Seq<u8> {
        self.bytes@
    }
}

impl PartialEq for PublicKey {
    fn eq(&self, other: &Self) -> (r: bool) {
        slices_equal(self.bytes.as_slice(), other.bytes.as_slice())
    }
}

impl Eq for PublicKey {}

impl PartialEqSpecImpl for PublicKey {
    open spec fn obeys_eq_spec() -> bool {
        true
    }

    open spec fn eq_spec(&self, other: &Self) -> bool {
        self@ == other@
    }
}

/// A signature: a compressed point of 96 bytes.
#[derive(Clone, Copy, Debug)]
pub struct Signature {
    pub bytes: [u8; 96],
}

impl View for Signature {
    type V = Seq<u8>;

    open spec fn view(&self) -> Seq<u8> {
        self.bytes@
    }
}

impl PartialEq for Signature {
    fn eq(&self, other: &Self) -> (r: bool) {
        slices_equal(self.bytes.as_slice(), other.bytes.as_slice())
    }
}

impl Eq for Signature {}

impl PartialEqSpecImpl for Signature {
    open spec fn obeys_eq_spec() -> bool {
        true
    }

    open spec fn eq_spec(&self, other: &Self) -> bool {
        self@ == other@
    }
}

/// Whether the signature library accepts `signature` as made over `message`,
/// under the tag `domain`, by the holder of `public_key`.
pub uninterp spec fn bls_signature_valid(
    public_key: Seq<u8>,
    message: Seq<u8>,
    domain: Seq<u8>,
    signature: Seq<u8>,
) -> bool;

/// Whether `signature` is a valid signature of `message` by `public_key`
/// under this crate's signature tag.
pub open spec fn signature_valid(public_key: Seq<u8>, message: Seq<u8>, signature: Seq<u8>) -> bool {
    bls_signature_valid(public_key, message, SIGNATURE_DOMAIN.spec_bytes(), signature)
}

/// Reads the key with `blst::min_pk::PublicKey::from_bytes` and the
/// signature with `blst::min_pk::Signature::from_bytes`, then calls
/// `blst::min_pk::Signature::verify` with both group checks switched on and
/// no augmentation. The contract claims only that the answer depends on the
/// four byte strings alone; bytes that are no key or no signature give `false`.
#[verifier::external_body]
fn bls_verify(public_key: &[u8; 48], message: &[u8], domain: &[u8], signature: &[u8; 96]) -> (ok:
    bool)
    ensures
        ok == bls_signature_valid(public_key@, message@, domain@, signature@),
{
    let key = blst::min_pk::PublicKey::from_bytes(public_key);
    let sig = blst::min_pk::Signature::from_bytes(signature);
    match (key, sig) {
        (Ok(key), Ok(sig)) => {
            sig.verify(true, message, domain, &[], &key, true) == blst::BLST_ERROR::BLST_SUCCESS
        },
        _ => false,
    }
}

/// Checks one signature of `message` against the key of its signer.
pub fn verify_signature(public_key: &PublicKey, message: &[u8], signature: &Signature) -> (ok: bool)
    ensures
        ok == signature_valid(public_key@, message@, signature@),
{
    bls_verify(&public_key.bytes, message, SIGNATURE_DOMAIN.as_bytes(), &signature.bytes)
}

} // verus!
