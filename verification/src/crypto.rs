//! Cryptographic operations of the client: authenticated encryption,
//! password hashing, the folding of ephemeral key parts and ring signatures.

use crate::primitives::{
    aead_decrypt, aead_encrypt, aead_open, aead_seal, argon2_digest, argon2_hash,
    basepoint_multiple, blsag_accepts, blsag_sign, blsag_verify, canonical_scalar, encodings,
    point_decodes, random_bytes, random_nonce, random_scalar, ring_decodes, ristretto_decodes,
    ristretto_public_key, scalar_is_canonical,
};
use crate::signature::{signature_valid, RingSignature};
use vstd::prelude::*;

verus! {

/// ChaCha20 uses a 32-byte key.
pub const KEY_SIZE: usize = 32;

/// Argon2 is given a 32-byte salt.
pub const SALT_SIZE: usize = 32;

/// ChaCha20 uses a 12-byte nonce.
pub const IV_SIZE: usize = 12;

/// ChaCha20-Poly1305 uses a 16-byte tag.
pub const TAG_SIZE: usize = 16;

/// The result of an encryption operation: the ciphertext with its tag
/// appended, and the IV it was made with.
#[derive(Debug, PartialEq)]
pub struct EncryptionResult {
    pub ciphertext: Vec<u8>,
    pub iv: [u8; 12],
}

/// The wire form of an encryption result: the IV, then the ciphertext with
/// its tag.
pub open spec fn encoded_result(iv: Seq<u8>, ciphertext: Seq<u8>) -> Seq<u8> {
    iv + ciphertext
}

/// Whether `data` is long enough to hold an IV and a tag.
pub open spec fn decodable(data: Seq<u8>) -> bool {
    data.len() >= IV_SIZE + TAG_SIZE
}

/// The IV that opens `data`.
pub open spec fn decoded_iv(data: Seq<u8>) -> Seq<u8> {
    data.subrange(0, IV_SIZE as int)
}

/// What follows the IV in `data`.
pub open spec fn decoded_ciphertext(data: Seq<u8>) -> Seq<u8> {
    data.subrange(IV_SIZE as int, data.len() as int)
}

impl EncryptionResult {
    /// The wire form of the result: the IV, then the ciphertext with its
    /// tag.
    pub fn encode(&self) -> (result: Vec<u8>)
        ensures
            result@ == encoded_result(self.iv@, self.ciphertext@),
    {
        let mut result = Vec::new();
        result.extend_from_slice(&self.iv);
        result.extend_from_slice(&self.ciphertext);
        result
    }

    /// Reads a result from its wire form. Fails exactly on data too short
    /// to hold an IV and a tag.
    pub fn decode(data: &[u8]) -> (result: Result<EncryptionResult, ()>)
        ensures
            result is Ok <==> decodable(data@),
            result is Ok ==> result.unwrap().iv@ == decoded_iv(data@),
            result is Ok ==> result.unwrap().ciphertext@ == decoded_ciphertext(data@),
    {
        if data.len() < IV_SIZE + TAG_SIZE {
            return Err(());
        }
        let mut iv = [0u8; 12];
        let mut i: usize = 0;
        while i < IV_SIZE
            invariant
                i <= IV_SIZE,
                data.len() >= IV_SIZE + TAG_SIZE,
                forall|j: int| 0 <= j < i ==> iv@[j] == data@[j],
            decreases IV_SIZE - i,
        {
            iv[i] = data[i];
            i += 1;
        }
        let mut ciphertext: Vec<u8> = Vec::new();
        let mut k: usize = IV_SIZE;
        while k < data.len()
            invariant
                IV_SIZE <= k <= data.len(),
                ciphertext@ == data@.subrange(IV_SIZE as int, k as int),
            decreases data.len() - k,
        {
            ciphertext.push(data[k]);
            k += 1;
        }
        assert(iv@ =~= decoded_iv(data@));
        Ok(EncryptionResult { ciphertext, iv })
    }
}

/// Decoding undoes encoding: an encoded result whose ciphertext holds at
/// least a tag decodes to the IV and the ciphertext it was made from.
pub proof fn lemma_decode_inverts_encode(iv: Seq<u8>, ciphertext: Seq<u8>)
    requires
        iv.len() == IV_SIZE,
        ciphertext.len() >= TAG_SIZE,
    ensures
        decodable(encoded_result(iv, ciphertext)),
        decoded_iv(encoded_result(iv, ciphertext)) == iv,
        decoded_ciphertext(encoded_result(iv, ciphertext)) == ciphertext,
{
    assert(decoded_iv(encoded_result(iv, ciphertext)) =~= iv);
    assert(decoded_ciphertext(encoded_result(iv, ciphertext)) =~= ciphertext);
}

/// Encoding undoes decoding: the IV and the ciphertext read from `data`
/// encode to `data` again.
pub proof fn lemma_encode_inverts_decode(data: Seq<u8>)
    requires
        decodable(data),
    ensures
        encoded_result(decoded_iv(data), decoded_ciphertext(data)) == data,
{
    assert(encoded_result(decoded_iv(data), decoded_ciphertext(data)) =~= data);
}

/// The longest message that the keystream of one IV covers, in bytes. The
/// cipher spends block 0 on the key of the tag, which leaves `u32::MAX - 1`
/// blocks of 64 bytes.
pub open spec fn keystream_limit() -> int {
    64 * (u32::MAX - 1)
}

/// Whether a message of `len` bytes can be encrypted: the keystream covers
/// it, and the ciphertext with its tag can be allocated.
pub open spec fn sealable(len: int) -> bool {
    len <= keystream_limit() && len + TAG_SIZE <= isize::MAX
}

/// Whether a ciphertext of `len` bytes, tag included, can be one that the
/// cipher made: the keystream covers what stands before the tag.
pub open spec fn openable(len: int) -> bool {
    len <= keystream_limit() + TAG_SIZE
}

/// The plaintext of `ciphertext` under `key` and `iv`: what the cipher
/// recovers from it, and `None` where the cipher rejects it or where it is
/// too long to be a ciphertext.
pub open spec fn opening(key: Seq<u8>, iv: Seq<u8>, ciphertext: Seq<u8>) -> Option<Seq<u8>> {
    if openable(ciphertext.len() as int) {
        aead_open(key, iv, ciphertext)
    } else {
        None
    }
}

/// Whether `result` is what encryption makes of `message` under `key`:
/// the cipher's output for the IV that it holds, as long as the message
/// and a tag, and a ciphertext whose plaintext is the message.
pub open spec fn is_encryption(result: EncryptionResult, key: Seq<u8>, message: Seq<u8>) -> bool {
    &&& result.ciphertext@ == aead_seal(key, result.iv@, message)
    &&& result.ciphertext@.len() == message.len() + TAG_SIZE
    &&& opening(key, result.iv@, result.ciphertext@) == Some(message)
}

/// What decryption makes of `data` under `key`: the plaintext of its
/// ciphertext under the IV that it holds.
pub open spec fn decryption(key: Seq<u8>, data: EncryptionResult) -> Option<Seq<u8>> {
    opening(key, data.iv@, data.ciphertext@)
}

/// Tells whether the keystream of one IV covers `len` bytes.
fn within_keystream(len: usize) -> (covered: bool)
    ensures
        covered == (len <= keystream_limit()),
{
    len as u64 <= 274_877_906_816u64
}

/// Decryption undoes encryption: what encryption makes of a message under
/// a key decrypts, under that key, to the message.
pub proof fn lemma_decrypt_inverts_encrypt(result: EncryptionResult, key: Seq<u8>, message: Seq<u8>)
    requires
        is_encryption(result, key, message),
    ensures
        decryption(key, result) == Some(message),
{
}

/// Draws an IV for one encryption.
pub fn generate_iv() -> [u8; 12] {
    random_nonce()
}

/// Encrypts a message with ChaCha20-Poly1305 under `key` and the given IV.
///
/// Fails exactly on a message too long for the cipher, without asking the
/// cipher. What it returns
/// decrypts, under the same key, to the message.
pub fn encrypt_message_with_iv(message: &[u8], key: &[u8], iv: [u8; 12]) -> (result: Result<
    EncryptionResult,
    (),
>)
    requires
        key.len() == KEY_SIZE,
    ensures
        result is Ok <==> sealable(message.len() as int),
        result is Ok ==> result.unwrap().iv == iv,
        result is Ok ==> is_encryption(result.unwrap(), key@, message@),
{
    if !within_keystream(message.len()) || message.len() > isize::MAX as usize - TAG_SIZE {
        return Err(());
    }
    // the cipher seals every message of such a length
    let ciphertext = aead_encrypt(key, &iv, message).unwrap();
    Ok(EncryptionResult { ciphertext, iv })
}

/// Encrypts a message with ChaCha20-Poly1305 under `key` and a fresh
/// random IV.
///
/// Fails exactly on a message too long for the cipher. Whatever IV was
/// drawn, the result is the cipher's output for it, and decrypts, under the
/// same key, to the message.
pub fn encrypt_message(message: &[u8], key: &[u8]) -> (result: Result<EncryptionResult, ()>)
    requires
        key.len() == KEY_SIZE,
    ensures
        result is Ok <==> sealable(message.len() as int),
        result is Ok ==> is_encryption(result.unwrap(), key@, message@),
{
    let iv = generate_iv();
    encrypt_message_with_iv(message, key, iv)
}

/// Decrypts and authenticates `encrypted_data` under `key`: `Ok` of the
/// plaintext where the cipher accepts the ciphertext, `Err` where it does
/// not, and `Err` without asking the cipher where the ciphertext is longer
/// than any that the cipher makes.
pub fn decrypt_message(key: &[u8; 32], encrypted_data: &EncryptionResult) -> (result: Result<
    Vec<u8>,
    (),
>)
    ensures
        result is Ok <==> decryption(key@, *encrypted_data) is Some,
        result is Ok ==> decryption(key@, *encrypted_data) == Some(result.unwrap()@),
        encrypted_data.ciphertext@.len() < TAG_SIZE ==> result is Err,
        result is Ok ==> result.unwrap()@.len() + TAG_SIZE == encrypted_data.ciphertext@.len(),
{
    let length = encrypted_data.ciphertext.len();
    if length >= TAG_SIZE && !within_keystream(length - TAG_SIZE) {
        return Err(());
    }
    match aead_decrypt(key, &encrypted_data.iv, encrypted_data.ciphertext.as_slice()) {
        Some(plaintext) => Ok(plaintext),
        None => Err(()),
    }
}

/// Draws the local contribution to an ephemeral key.
pub fn generate_ephemeral_key() -> [u8; 32] {
    random_bytes()
}

/// Draws a salt for password hashing.
pub fn generate_salt() -> [u8; 32] {
    random_bytes()
}

/// Hashes a password with Argon2 under a fresh random salt; returns the
/// hash and the salt. The hash is the one that `hash_password_with_salt`
/// gives for the returned salt.
pub fn hash_password(password: &[u8]) -> (result: ([u8; 32], [u8; 32]))
    requires
        password.len() <= u32::MAX,
    ensures
        result.0@ == argon2_digest(password@, result.1@),
{
    let salt = generate_salt();
    let hash = argon2_hash(password, &salt);
    (hash, salt)
}

/// Hashes a password with Argon2 under the given salt.
pub fn hash_password_with_salt(password: &[u8], salt: &[u8; 32]) -> (hash: [u8; 32])
    requires
        password.len() <= u32::MAX,
    ensures
        hash@ == argon2_digest(password@, salt@),
{
    argon2_hash(password, salt)
}

/// Hashing is a function of password and salt: the same password under
/// the same salt has the same hash, so hashing a password again under the
/// salt that `hash_password` drew gives the hash that it returned.
pub proof fn lemma_hash_is_deterministic(
    password: Seq<u8>,
    salt: Seq<u8>,
    again: Seq<u8>,
    same_salt: Seq<u8>,
)
    requires
        password == again,
        salt == same_salt,
    ensures
        argon2_digest(password, salt) == argon2_digest(again, same_salt),
{
}

/// Byte-wise exclusive or of two sequences of the same length.
pub open spec fn xor_bytes(a: Seq<u8>, b: Seq<u8>) -> Seq<u8>
    recommends
        a.len() == b.len(),
{
    Seq::new(a.len(), |i: int| a[i] ^ b[i])
}

/// Folds one peer's contribution into the ephemeral key under
/// negotiation.
pub fn apply_ephemeral_key_part(key: &mut [u8; 32], part: &[u8])
    requires
        part.len() == KEY_SIZE,
    ensures
        final(key)@ == xor_bytes(old(key)@, part@),
{
    let mut i: usize = 0;
    while i < KEY_SIZE
        invariant
            i <= KEY_SIZE,
            part.len() == KEY_SIZE,
            forall|j: int| 0 <= j < i ==> key@[j] == old(key)@[j] ^ part@[j],
            forall|j: int| i <= j < KEY_SIZE ==> key@[j] == old(key)@[j],
        decreases KEY_SIZE - i,
    {
        key[i] = key[i] ^ part[i];
        i += 1;
    }
    assert(key@ =~= xor_bytes(old(key)@, part@));
}

/// The key that no part has been folded into: 32 zero bytes.
pub open spec fn zero_key() -> Seq<u8> {
    Seq::new(KEY_SIZE as nat, |i: int| 0u8)
}

/// The key that `parts` fold to: each part, in its order, is folded into
/// the key that the parts before it fold to.
pub open spec fn folded(parts: Seq<Seq<u8>>) -> Seq<u8>
    decreases parts.len(),
{
    if parts.len() == 0 {
        zero_key()
    } else {
        xor_bytes(folded(parts.drop_last()), parts.last())
    }
}

/// Whether every part is as long as a key.
pub open spec fn key_parts(parts: Seq<Seq<u8>>) -> bool {
    forall|i: int| 0 <= i < parts.len() ==> (#[trigger] parts[i]).len() == KEY_SIZE
}

/// One more part folds into what the parts before it fold to, and a single
/// part folds to itself.
pub proof fn lemma_folded_push(parts: Seq<Seq<u8>>, part: Seq<u8>)
    ensures
        folded(parts.push(part)) == xor_bytes(folded(parts), part),
        part.len() == KEY_SIZE ==> folded(seq![part]) == part,
{
    assert(parts.push(part).drop_last() =~= parts);
    if part.len() == KEY_SIZE {
        let single = seq![part];
        assert(single.drop_last() =~= Seq::<Seq<u8>>::empty());
        assert(single.last() == part);
        assert(folded(single.drop_last()) == zero_key());
        assert(folded(single) == xor_bytes(zero_key(), part));
        assert forall|i: int| 0 <= i < KEY_SIZE implies xor_bytes(zero_key(), part)[i]
            == part[i] by {
            let x = part[i];
            assert(0u8 ^ x == x) by (bit_vector);
        }
        assert(xor_bytes(zero_key(), part) =~= part);
    }
}

/// Folding keeps the length of a key; a part folded into the zero key
/// gives the part; and two parts may be folded in either order.
pub proof fn lemma_xor_bytes(key: Seq<u8>, a: Seq<u8>, b: Seq<u8>)
    requires
        key.len() == KEY_SIZE,
        a.len() == KEY_SIZE,
        b.len() == KEY_SIZE,
    ensures
        xor_bytes(key, a).len() == KEY_SIZE,
        xor_bytes(zero_key(), a) == a,
        xor_bytes(xor_bytes(key, a), b) == xor_bytes(xor_bytes(key, b), a),
        xor_bytes(xor_bytes(key, a), a) == key,
{
    assert forall|i: int| 0 <= i < KEY_SIZE implies xor_bytes(zero_key(), a)[i] == a[i] by {
        let x = a[i];
        assert(0u8 ^ x == x) by (bit_vector);
    }
    assert(xor_bytes(zero_key(), a) =~= a);
    assert forall|i: int| 0 <= i < KEY_SIZE implies xor_bytes(xor_bytes(key, a), b)[i]
        == xor_bytes(xor_bytes(key, b), a)[i] by {
        let k = key[i];
        let x = a[i];
        let y = b[i];
        assert((k ^ x) ^ y == (k ^ y) ^ x) by (bit_vector);
    }
    assert(xor_bytes(xor_bytes(key, a), b) =~= xor_bytes(xor_bytes(key, b), a));
    assert forall|i: int| 0 <= i < KEY_SIZE implies xor_bytes(xor_bytes(key, a), a)[i]
        == key[i] by {
        let k = key[i];
        let x = a[i];
        assert((k ^ x) ^ x == k) by (bit_vector);
    }
    assert(xor_bytes(xor_bytes(key, a), a) =~= key);
}

/// What parts fold to is as long as a key.
pub proof fn lemma_folded_len(parts: Seq<Seq<u8>>)
    requires
        key_parts(parts),
    ensures
        folded(parts).len() == KEY_SIZE,
    decreases parts.len(),
{
    if parts.len() > 0 {
        assert(key_parts(parts.drop_last())) by {
            assert forall|i: int| 0 <= i < parts.drop_last().len() implies (
            #[trigger] parts.drop_last()[i]).len() == KEY_SIZE by {
                assert(parts.drop_last()[i] == parts[i]);
            }
        }
        lemma_folded_len(parts.drop_last());
    }
}

/// A part may be taken out of its place and folded in last.
pub proof fn lemma_folded_remove(parts: Seq<Seq<u8>>, j: int)
    requires
        key_parts(parts),
        0 <= j < parts.len(),
    ensures
        key_parts(parts.remove(j)),
        folded(parts) == xor_bytes(folded(parts.remove(j)), parts[j]),
    decreases parts.len(),
{
    let rest = parts.remove(j);
    assert(key_parts(rest)) by {
        assert forall|i: int| 0 <= i < rest.len() implies (#[trigger] rest[i]).len()
            == KEY_SIZE by {
            if i < j {
                assert(rest[i] == parts[i]);
            } else {
                assert(rest[i] == parts[i + 1]);
            }
        }
    }
    if j == parts.len() - 1 {
        assert(rest =~= parts.drop_last());
    } else {
        let front = parts.drop_last();
        assert(key_parts(front)) by {
            assert forall|i: int| 0 <= i < front.len() implies (#[trigger] front[i]).len()
                == KEY_SIZE by {
                assert(front[i] == parts[i]);
            }
        }
        lemma_folded_remove(front, j);
        assert(front.remove(j) =~= rest.drop_last());
        assert(rest.last() == parts.last());
        assert(front[j] == parts[j]);
        lemma_folded_len(front.remove(j));
        lemma_xor_bytes(folded(front.remove(j)), parts[j], parts.last());
    }
}

/// Every peer ends with the same ephemeral key: parts folded in any order
/// give the same key, the exclusive or of them all.
pub proof fn lemma_folded_in_any_order(a: Seq<Seq<u8>>, b: Seq<Seq<u8>>)
    requires
        key_parts(a),
        a.to_multiset() == b.to_multiset(),
    ensures
        folded(a) == folded(b),
    decreases a.len(),
{
    a.to_multiset_ensures();
    b.to_multiset_ensures();
    if a.len() == 0 {
        assert(b.len() == 0);
    } else {
        let last = a.last();
        assert(a.contains(last));
        assert(b.to_multiset().count(last) > 0);
        assert(b.contains(last));
        let j = choose|j: int| 0 <= j < b.len() && b[j] == last;
        assert(key_parts(b)) by {
            assert forall|i: int| 0 <= i < b.len() implies (#[trigger] b[i]).len() == KEY_SIZE by {
                assert(b.contains(b[i]));
                assert(a.to_multiset().count(b[i]) > 0);
                assert(a.contains(b[i]));
            }
        }
        let front = a.drop_last();
        assert(front =~= a.remove(a.len() - 1));
        assert(front.to_multiset() == b.remove(j).to_multiset());
        lemma_folded_remove(a, a.len() - 1);
        lemma_folded_remove(b, j);
        lemma_folded_in_any_order(front, b.remove(j));
    }
}

/// Draws a private key: a random scalar, canonically encoded.
pub fn generate_private_key() -> (private_key: [u8; 32])
    ensures
        canonical_scalar(private_key@),
{
    random_scalar()
}

/// The compressed public key that belongs to a private key.
pub fn public_key(private_key: &[u8; 32]) -> (public_key: [u8; 32])
    requires
        canonical_scalar(private_key@),
    ensures
        public_key@ == ristretto_public_key(private_key@),
        ristretto_decodes(public_key@),
{
    basepoint_multiple(private_key)
}

/// Tells whether `bytes` are the canonical encoding of a scalar.
pub fn is_canonical_scalar(bytes: &[u8; 32]) -> (canonical: bool)
    ensures
        canonical == canonical_scalar(bytes@),
{
    scalar_is_canonical(bytes)
}

/// Tells whether `bytes` are the encoding of a point of the group.
pub fn is_valid_point(bytes: &[u8; 32]) -> (valid: bool)
    ensures
        valid == ristretto_decodes(bytes@),
{
    point_decodes(bytes)
}

/// Tells whether every key of `ring` is the encoding of a point.
pub fn is_valid_ring(ring: &[[u8; 32]]) -> (valid: bool)
    ensures
        valid == ring_decodes(ring@),
{
    let mut i: usize = 0;
    while i < ring.len()
        invariant
            i <= ring.len(),
            forall|j: int| 0 <= j < i ==> ristretto_decodes(#[trigger] ring@[j]@),
        decreases ring.len() - i,
    {
        if !point_decodes(&ring[i]) {
            return false;
        }
        i += 1;
    }
    true
}

/// The ring that a signature of `private_key` at `index` is made for:
/// `ring` with the signer's public key at that index.
pub open spec fn signing_ring(ring: Seq<[u8; 32]>, index: int, private_key: Seq<u8>) -> Seq<Seq<u8>> {
    encodings(ring).update(index, ristretto_public_key(private_key))
}

/// The ring without the key at `index`: the keys before it, then the keys
/// after it.
fn without(ring: &[[u8; 32]], index: usize) -> (others: Vec<[u8; 32]>)
    requires
        index < ring@.len(),
    ensures
        others@.len() == ring@.len() - 1,
        forall|j: int| 0 <= j < index ==> others@[j] == ring@[j],
        forall|j: int| index <= j < others@.len() ==> others@[j] == ring@[j + 1],
{
    let mut others: Vec<[u8; 32]> = Vec::new();
    let mut i: usize = 0;
    while i < index
        invariant
            i <= index < ring.len(),
            others@.len() == i,
            forall|j: int| 0 <= j < i ==> others@[j] == ring@[j],
        decreases index - i,
    {
        others.push(ring[i]);
        i += 1;
    }
    let mut k: usize = index + 1;
    while k < ring.len()
        invariant
            index < k <= ring.len(),
            others@.len() == k - 1,
            forall|j: int| 0 <= j < index ==> others@[j] == ring@[j],
            forall|j: int| index <= j < k - 1 ==> others@[j] == ring@[j + 1],
        decreases ring.len() - k,
    {
        others.push(ring[k]);
        k += 1;
    }
    others
}

/// Signs a message using the bLSAG signature scheme, for the ring `ring`
/// in which the signer's public key stands at
/// `personal_key_insertion_index`.
///
/// The signature has one response for each key of the ring. Where the ring
/// has two keys or more, verification accepts it for the message under the
/// ring.
pub fn sign_message(
    private_key: &[u8; 32],
    personal_key_insertion_index: usize,
    ring: &[[u8; 32]],
    message: &[u8],
) -> (signature: RingSignature)
    requires
        canonical_scalar(private_key@),
        ring_decodes(ring@),
        personal_key_insertion_index < ring@.len(),
    ensures
        signature.well_formed(),
        signature.responses@.len() == ring@.len(),
        ring@.len() >= 2 ==> blsag_accepts(
            signature.challenge@,
            encodings(signature.responses@),
            signature.key_image@,
            signing_ring(ring@, personal_key_insertion_index as int, private_key@),
            message@,
        ),
{
    let others = without(ring, personal_key_insertion_index);
    proof {
        let index = personal_key_insertion_index as int;
        assert forall|j: int| 0 <= j < others@.len() implies ristretto_decodes(
            #[trigger] others@[j]@,
        ) by {
            if j < index {
                assert(others@[j] == ring@[j]);
            } else {
                assert(others@[j] == ring@[j + 1]);
            }
        }
        let completed = encodings(others@).insert(index, ristretto_public_key(private_key@));
        let expected = signing_ring(ring@, index, private_key@);
        assert(completed.len() == expected.len());
        assert forall|j: int| 0 <= j < completed.len() implies completed[j] == expected[j] by {
            if j < index {
                assert(others@[j] == ring@[j]);
            } else if j > index {
                assert(others@[j - 1] == ring@[j]);
            }
        }
        assert(completed =~= expected);
    }
    blsag_sign(private_key, &others, personal_key_insertion_index, message)
}

/// Signs like `sign_message` where its conditions hold, and returns `None`
/// where they do not: for a private key that is no canonical scalar, a
/// ring with a key that is no point, or an index outside the ring.
pub fn try_sign_message(
    private_key: &[u8; 32],
    personal_key_insertion_index: usize,
    ring: &[[u8; 32]],
    message: &[u8],
) -> (signature: Option<RingSignature>)
    ensures
        signature is Some <==> (canonical_scalar(private_key@) && ring_decodes(ring@)
            && personal_key_insertion_index < ring@.len()),
        signature matches Some(s) ==> {
            &&& s.well_formed()
            &&& s.responses@.len() == ring@.len()
            &&& ring@.len() >= 2 ==> blsag_accepts(
                s.challenge@,
                encodings(s.responses@),
                s.key_image@,
                signing_ring(ring@, personal_key_insertion_index as int, private_key@),
                message@,
            )
        },
{
    if !scalar_is_canonical(private_key) || !is_valid_ring(ring) || personal_key_insertion_index
        >= ring.len() {
        return None;
    }
    Some(sign_message(private_key, personal_key_insertion_index, ring, message))
}

/// Tells whether the signature is well formed.
fn is_well_formed(signature: &RingSignature) -> (ok: bool)
    ensures
        ok == signature.well_formed(),
{
    if !scalar_is_canonical(&signature.challenge) {
        return false;
    }
    let mut i: usize = 0;
    while i < signature.responses.len()
        invariant
            i <= signature.responses.len(),
            forall|j: int| 0 <= j < i ==> canonical_scalar(#[trigger] signature.responses@[j]@),
        decreases signature.responses.len() - i,
    {
        if !scalar_is_canonical(&signature.responses[i]) {
            return false;
        }
        i += 1;
    }
    point_decodes(&signature.key_image)
}

/// Verifies a bLSAG signature.
pub fn verify_message(signature: &RingSignature, ring: &[[u8; 32]], message: &[u8]) -> (valid: bool)
    ensures
        valid == signature_valid(*signature, ring@, message@),
{
    if !is_well_formed(signature) || !is_valid_ring(ring) || signature.responses.len()
        != ring.len() {
        return false;
    }
    blsag_verify(signature, ring, message)
}

/// A signature that verifies was made: what `sign_message` returns for a
/// ring of two keys or more, in which the signer's public key stands at the
/// index given, passes `verify_message` for the same ring and message.
pub proof fn lemma_signed_message_verifies(
    signature: RingSignature,
    private_key: Seq<u8>,
    index: int,
    ring: Seq<[u8; 32]>,
    message: Seq<u8>,
)
    requires
        ring.len() >= 2,
        0 <= index < ring.len(),
        ring[index]@ == ristretto_public_key(private_key),
        ring_decodes(ring),
        signature.well_formed(),
        signature.responses@.len() == ring.len(),
        blsag_accepts(
            signature.challenge@,
            encodings(signature.responses@),
            signature.key_image@,
            signing_ring(ring, index, private_key),
            message,
        ),
    ensures
        signature_valid(signature, ring, message),
{
    assert(signing_ring(ring, index, private_key) =~= encodings(ring));
}

} // verus!
