//! The outside primitives that the client rests on: ChaCha20-Poly1305,
//! Argon2, the Ristretto group, bLSAG ring signatures and the operating
//! system's random number generator.
//!
//! Every function of this file calls into another crate, and its contract
//! is taken on trust: it states what that crate's documentation or source
//! says of the call, and nothing here proves it. What a call returns is
//! named where it takes pages to state; the names have no definition.

use crate::signature::RingSignature;
use argon2::Argon2;
use chacha20poly1305::aead::{Aead, AeadCore, KeyInit};
use chacha20poly1305::{ChaCha20Poly1305, Key, Nonce};
use curve25519_dalek::constants::RISTRETTO_BASEPOINT_POINT;
use curve25519_dalek::ristretto::CompressedRistretto;
use curve25519_dalek::scalar::Scalar;
use nazgul::blsag::BLSAG;
use nazgul::traits::{Sign, Verify};
use rand_core::{OsRng, RngCore};
use sha3::Keccak512;
use vstd::prelude::*;

verus! {

/// The ciphertext, tag appended, that ChaCha20-Poly1305 makes of `message`
/// under `key` and `iv` with no associated data.
pub uninterp spec fn aead_seal(key: Seq<u8>, iv: Seq<u8>, message: Seq<u8>) -> Seq<u8>;

/// The plaintext that ChaCha20-Poly1305 recovers from `ciphertext` under
/// `key` and `iv` with no associated data, or `None` where it rejects the
/// ciphertext.
pub uninterp spec fn aead_open(key: Seq<u8>, iv: Seq<u8>, ciphertext: Seq<u8>) -> Option<Seq<u8>>;

/// The 32-byte Argon2 digest of `password` under `salt`, with the default
/// parameters of the algorithm.
pub uninterp spec fn argon2_digest(password: Seq<u8>, salt: Seq<u8>) -> Seq<u8>;

/// The integer that `bytes` stand for, least significant byte first.
pub open spec fn le_value(bytes: Seq<u8>) -> nat
    decreases bytes.len(),
{
    if bytes.len() == 0 {
        0
    } else {
        bytes[0] as nat + 256 * le_value(bytes.drop_first())
    }
}

/// The order of the Ristretto group:
/// 2^252 + 27742317777372353535851937790883648493.
pub open spec fn group_order() -> nat {
    0x1000000000000000000000000000000014def9dea2f79cd65812631a5cf5d3ednat
}

/// Whether `bytes` are the canonical encoding of a scalar: 32 bytes that
/// stand for an integer below the group order.
pub open spec fn canonical_scalar(bytes: Seq<u8>) -> bool {
    bytes.len() == 32 && le_value(bytes) < group_order()
}

/// Whether `bytes` are the canonical encoding of a point of the Ristretto
/// group: whether `CompressedRistretto::decompress` accepts them.
pub uninterp spec fn ristretto_decodes(bytes: Seq<u8>) -> bool;

/// The compressed public key of a private key: the encoding of the
/// basepoint multiplied by the scalar that `private_key` encodes.
pub uninterp spec fn ristretto_public_key(private_key: Seq<u8>) -> Seq<u8>;

/// Whether bLSAG verification with Keccak-512 accepts the signature made
/// of `challenge`, `responses` and `key_image` for `message` under `ring`.
pub uninterp spec fn blsag_accepts(
    challenge: Seq<u8>,
    responses: Seq<Seq<u8>>,
    key_image: Seq<u8>,
    ring: Seq<Seq<u8>>,
    message: Seq<u8>,
) -> bool;

/// The encodings of a sequence of keys or scalars.
pub open spec fn encodings(items: Seq<[u8; 32]>) -> Seq<Seq<u8>> {
    Seq::new(items.len(), |i: int| items[i]@)
}

/// Whether every key of `ring` is the encoding of a point.
pub open spec fn ring_decodes(ring: Seq<[u8; 32]>) -> bool {
    forall|i: int| 0 <= i < ring.len() ==> ristretto_decodes(#[trigger] ring[i]@)
}

/// Calls `AeadCore::generate_nonce` of `ChaCha20Poly1305` on the operating
/// system's random number generator. Nothing is claimed of the bytes.
#[verifier::external_body]
pub(crate) fn random_nonce() -> [u8; 12] {
    ChaCha20Poly1305::generate_nonce(&mut OsRng).into()
}

/// Calls `RngCore::fill_bytes` of `OsRng` on a buffer of 32 bytes. Nothing
/// is claimed of the bytes.
#[verifier::external_body]
pub(crate) fn random_bytes() -> [u8; 32] {
    let mut out = [0u8; 32];
    OsRng.fill_bytes(&mut out);
    out
}

/// Calls `Aead::encrypt` of `ChaCha20Poly1305`.
///
/// The cipher spends block 0 of the keystream on the key of the tag, so
/// `u32::MAX - 1` blocks of 64 bytes are left for the message. On a longer
/// message the call panics or fails, and one whose ciphertext cannot be
/// allocated panics: `requires` leaves both out. On what is left the
/// contract claims what the crate's source shows: the call succeeds; the
/// ciphertext is a function of key, nonce and message, 16 bytes longer than
/// the message; and `Aead::decrypt` under the same key and nonce gives the
/// message back.
#[verifier::external_body]
pub(crate) fn aead_encrypt(key: &[u8], iv: &[u8; 12], message: &[u8]) -> (result: Option<Vec<u8>>)
    requires
        key.len() == 32,
        message.len() <= 64 * (u32::MAX - 1),
        message.len() + 16 <= isize::MAX,
    ensures
        result is Some,
        result.unwrap()@ == aead_seal(key@, iv@, message@),
        result.unwrap()@.len() == message.len() + 16,
        aead_open(key@, iv@, result.unwrap()@) == Some(message@),
{
    ChaCha20Poly1305::new(Key::from_slice(key)).encrypt(Nonce::from_slice(iv), message).ok()
}

/// Calls `Aead::decrypt` of `ChaCha20Poly1305`.
///
/// Once the tag is found right, the call takes keystream for what stands
/// before the tag, and panics where that is more than the `u32::MAX - 1`
/// blocks of 64 bytes that are left: `requires` leaves such a ciphertext
/// out. On what is left the contract claims that the outcome is a function
/// of key, nonce and ciphertext, that a ciphertext shorter than a tag is
/// rejected, and that a recovered plaintext is 16 bytes shorter than the
/// ciphertext.
#[verifier::external_body]
pub(crate) fn aead_decrypt(key: &[u8; 32], iv: &[u8; 12], ciphertext: &[u8]) -> (result: Option<Vec<u8>>)
    requires
        ciphertext.len() < 16 || ciphertext.len() - 16 <= 64 * (u32::MAX - 1),
    ensures
        result is Some <==> aead_open(key@, iv@, ciphertext@) is Some,
        result is Some ==> aead_open(key@, iv@, ciphertext@) == Some(result.unwrap()@),
        ciphertext.len() < 16 ==> result is None,
        result is Some ==> result.unwrap()@.len() + 16 == ciphertext.len(),
{
    ChaCha20Poly1305::new(Key::from_slice(key)).decrypt(Nonce::from_slice(iv), ciphertext).ok()
}

/// Calls `Argon2::hash_password_into` of `Argon2::default()` with a 32-byte
/// salt and a 32-byte output. The contract claims that the digest is a
/// function of password and salt. The call fails on a password longer than
/// `u32::MAX` bytes, which `requires` leaves out.
#[verifier::external_body]
pub(crate) fn argon2_hash(password: &[u8], salt: &[u8; 32]) -> (digest: [u8; 32])
    requires
        password.len() <= u32::MAX,
    ensures
        digest@ == argon2_digest(password@, salt@),
{
    let mut out = [0u8; 32];
    Argon2::default().hash_password_into(password, salt, &mut out).unwrap();
    out
}

/// Calls `Scalar::from_canonical_bytes` and tells whether it gave a scalar.
/// The contract states its documentation: it gives one exactly for the
/// canonical encoding of an integer below the group order.
#[verifier::external_body]
pub(crate) fn scalar_is_canonical(bytes: &[u8; 32]) -> (canonical: bool)
    ensures
        canonical == canonical_scalar(bytes@),
{
    Scalar::from_canonical_bytes(*bytes).is_some().into()
}

/// Calls `CompressedRistretto::decompress` and tells whether it gave a
/// point. The contract names that outcome.
#[verifier::external_body]
pub(crate) fn point_decodes(bytes: &[u8; 32]) -> (decodes: bool)
    ensures
        decodes == ristretto_decodes(bytes@),
{
    CompressedRistretto(*bytes).decompress().is_some()
}

/// Calls `Scalar::random` on the operating system's random number
/// generator and returns the scalar's bytes. The contract claims only that
/// the scalar is reduced, so canonical, as every `Scalar` of the crate is.
#[verifier::external_body]
pub(crate) fn random_scalar() -> (bytes: [u8; 32])
    ensures
        canonical_scalar(bytes@),
{
    Scalar::random(&mut OsRng).to_bytes()
}

/// Multiplies `RISTRETTO_BASEPOINT_POINT` by the scalar and compresses the
/// product with `RistrettoPoint::compress`. The contract names the result
/// and claims that it decodes, as every compressed point does.
#[verifier::external_body]
pub(crate) fn basepoint_multiple(private_key: &[u8; 32]) -> (public_key: [u8; 32])
    requires
        canonical_scalar(private_key@),
    ensures
        public_key@ == ristretto_public_key(private_key@),
        ristretto_decodes(public_key@),
{
    (Scalar::from_canonical_bytes(*private_key).unwrap() * RISTRETTO_BASEPOINT_POINT).compress().to_bytes()
}

/// Calls `BLSAG::sign` of nazgul with Keccak-512 and the operating
/// system's random number generator. `others` is the ring without the
/// signer, whose key the call inserts at `index`.
///
/// The signature depends on the random numbers drawn. Of every outcome the
/// contract claims: there is one response for each key of the completed
/// ring; challenge and responses are reduced scalars; the key image is a
/// point; and where the completed ring has two keys or more, verification
/// accepts the signature under that ring. With the signer alone in the
/// ring the crate closes the ring of challenges one step late, and nothing
/// is claimed of verification.
#[verifier::external_body]
pub(crate) fn blsag_sign(private_key: &[u8; 32], others: &Vec<[u8; 32]>, index: usize, message: &[u8]) -> (signature:
    RingSignature)
    requires
        canonical_scalar(private_key@),
        ring_decodes(others@),
        index <= others@.len(),
    ensures
        signature.well_formed(),
        signature.responses@.len() == others@.len() + 1,
        others@.len() >= 1 ==> blsag_accepts(
            signature.challenge@,
            encodings(signature.responses@),
            signature.key_image@,
            encodings(others@).insert(index as int, ristretto_public_key(private_key@)),
            message@,
        ),
{
    let k = Scalar::from_canonical_bytes(*private_key).unwrap();
    let ring = others.iter().map(|p| CompressedRistretto(*p).decompress().unwrap()).collect();
    let signed = BLSAG::sign::<Keccak512, OsRng>(k, ring, index, message);
    RingSignature {
        challenge: signed.challenge.to_bytes(),
        responses: signed.responses.iter().map(|r| r.to_bytes()).collect(),
        key_image: signed.key_image.compress().to_bytes(),
    }
}

/// Calls `BLSAG::verify` of nazgul with Keccak-512. The contract names the
/// verdict, a function of the signature, the ring and the message. The
/// call reads one response for each key of the ring, so `requires` asks
/// for as many.
#[verifier::external_body]
pub(crate) fn blsag_verify(signature: &RingSignature, ring: &[[u8; 32]], message: &[u8]) -> (accepted: bool)
    requires
        signature.well_formed(),
        ring_decodes(ring@),
        signature.responses@.len() == ring@.len(),
    ensures
        accepted == blsag_accepts(
            signature.challenge@,
            encodings(signature.responses@),
            signature.key_image@,
            encodings(ring@),
            message@,
        ),
{
    let candidate = BLSAG {
        challenge: Scalar::from_canonical_bytes(signature.challenge).unwrap(),
        responses: signature.responses.iter().map(|r| Scalar::from_canonical_bytes(*r).unwrap()).collect(),
        ring: ring.iter().map(|p| CompressedRistretto(*p).decompress().unwrap()).collect(),
        key_image: CompressedRistretto(signature.key_image).decompress().unwrap(),
    };
    BLSAG::verify::<Keccak512>(candidate, message)
}

} // verus!
