//! Ring signatures as they stand on the wire: the challenge, one response
//! for each key of the ring, the compressed key image, and after them the
//! message that is signed.

use crate::bytes::{array_at, tail_from};
use crate::primitives::{
    blsag_accepts, canonical_scalar, encodings, point_decodes, ring_decodes, ristretto_decodes,
    scalar_is_canonical,
};
use vstd::prelude::*;

verus! {

/// A bLSAG ring signature as it stands on the wire: the challenge and one
/// response for each key of the ring, all scalars, and the compressed key
/// image.
#[derive(Clone, Debug, PartialEq, Eq)]
pub struct RingSignature {
    pub challenge: [u8; 32],
    pub responses: Vec<[u8; 32]>,
    pub key_image: [u8; 32],
}

impl RingSignature {
    /// Whether the parts of the signature are what they have to be: the
    /// scalars canonical, the key image a point.
    pub open spec fn well_formed(&self) -> bool {
        &&& canonical_scalar(self.challenge@)
        &&& forall|i: int|
            0 <= i < self.responses@.len() ==> canonical_scalar(#[trigger] self.responses@[i]@)
        &&& ristretto_decodes(self.key_image@)
    }
}

/// Whether `signature` is a valid signature of `message` under `ring`: its
/// parts and the ring are well formed, it has one response for each key,
/// and bLSAG verification accepts it.
pub open spec fn signature_valid(signature: RingSignature, ring: Seq<[u8; 32]>, message: Seq<u8>) -> bool {
    &&& signature.well_formed()
    &&& ring_decodes(ring)
    &&& signature.responses@.len() == ring.len()
    &&& blsag_accepts(
        signature.challenge@,
        encodings(signature.responses@),
        signature.key_image@,
        encodings(ring),
        message,
    )
}

/// The 32 bytes that stand in `data` at block `i`.
pub open spec fn block(data: Seq<u8>, i: int) -> Seq<u8> {
    data.subrange(32 * i, 32 * i + 32)
}

/// Whether `data` is the wire form of a signed message: the challenge, the
/// responses in their order, the compressed key image, then the message.
pub open spec fn is_signed_message(data: Seq<u8>, signature: RingSignature, message: Seq<u8>) -> bool {
    let n = signature.responses@.len() as int;
    &&& data.len() == 32 * (n + 2) + message.len()
    &&& block(data, 0) == signature.challenge@
    &&& forall|i: int| 0 <= i < n ==> block(data, i + 1) == #[trigger] signature.responses@[i]@
    &&& block(data, n + 1) == signature.key_image@
    &&& data.subrange(32 * (n + 2), data.len() as int) == message
}

/// Whether `data` opens with a well formed signature for a ring of
/// `ring_size` keys: it is long enough, the challenge and the responses are
/// canonical scalars, and the key image is a point.
pub open spec fn holds_signature(data: Seq<u8>, ring_size: int) -> bool {
    &&& data.len() >= 32 * (ring_size + 2)
    &&& canonical_scalar(block(data, 0))
    &&& forall|i: int| 1 <= i <= ring_size ==> canonical_scalar(#[trigger] block(data, i))
    &&& ristretto_decodes(block(data, ring_size + 1))
}

/// A signed message that does not hold a well formed signature.
#[derive(Clone, Copy, Debug, PartialEq, Eq)]
pub struct MalformedSignature;

impl RingSignature {
    /// The wire form of the signature, followed by the message it signs.
    pub fn encode(&self, message: &[u8]) -> (data: Vec<u8>)
        ensures
            is_signed_message(data@, *self, message@),
    {
        let mut data: Vec<u8> = Vec::new();
        data.extend_from_slice(&self.challenge);
        assert(block(data@, 0) =~= self.challenge@);
        let mut i: usize = 0;
        while i < self.responses.len()
            invariant
                i <= self.responses.len(),
                data@.len() == 32 * (i + 1),
                block(data@, 0) == self.challenge@,
                forall|j: int| 0 <= j < i ==> block(data@, j + 1) == #[trigger] self.responses@[j]@,
            decreases self.responses.len() - i,
        {
            let ghost before = data@;
            data.extend_from_slice(&self.responses[i]);
            proof {
                assert(block(data@, 0) =~= block(before, 0));
                assert forall|j: int| 0 <= j < i + 1 implies block(data@, j + 1)
                    == #[trigger] self.responses@[j]@ by {
                    if j < i {
                        assert(block(data@, j + 1) =~= block(before, j + 1));
                    } else {
                        assert(block(data@, j + 1) =~= self.responses@[j]@);
                    }
                }
            }
            i += 1;
        }
        let ghost before = data@;
        let ghost n = self.responses@.len() as int;
        data.extend_from_slice(&self.key_image);
        let ghost signed = data@;
        data.extend_from_slice(message);
        proof {
            assert(block(data@, 0) =~= block(before, 0));
            assert forall|j: int| 0 <= j < n implies block(data@, j + 1)
                == #[trigger] self.responses@[j]@ by {
                assert(block(data@, j + 1) =~= block(before, j + 1));
            }
            assert(block(data@, n + 1) =~= self.key_image@);
            assert(data@.subrange(32 * (n + 2), data@.len() as int) =~= message@);
        }
        data
    }

    /// Reads a signature for a ring of `ring_size` keys from the front of
    /// `data`, and the message that follows it.
    ///
    /// Fails exactly when `data` is too short, a scalar is not canonical,
    /// or the key image is no point.
    pub fn decode(data: &[u8], ring_size: usize) -> (result: Result<
        (RingSignature, Vec<u8>),
        MalformedSignature,
    >)
        ensures
            result is Ok <==> holds_signature(data@, ring_size as int),
            result matches Ok((signature, message)) ==> {
                &&& signature.responses@.len() == ring_size
                &&& signature.well_formed()
                &&& is_signed_message(data@, signature, message@)
            },
    {
        if data.len() / 32 < 2 || ring_size > data.len() / 32 - 2 {
            return Err(MalformedSignature);
        }
        let challenge = array_at(data, 0);
        if !scalar_is_canonical(&challenge) {
            return Err(MalformedSignature);
        }
        let mut responses: Vec<[u8; 32]> = Vec::new();
        let mut i: usize = 0;
        while i < ring_size
            invariant
                i <= ring_size,
                32 * (ring_size + 2) <= data.len(),
                responses@.len() == i,
                forall|j: int| 0 <= j < i ==> block(data@, j + 1) == #[trigger] responses@[j]@,
                forall|j: int| 1 <= j <= i ==> canonical_scalar(#[trigger] block(data@, j)),
            decreases ring_size - i,
        {
            let response = array_at(data, 32 * (i + 1));
            if !scalar_is_canonical(&response) {
                assert(!canonical_scalar(block(data@, i + 1)));
                return Err(MalformedSignature);
            }
            responses.push(response);
            i += 1;
        }
        let key_image = array_at(data, 32 * (ring_size + 1));
        if !point_decodes(&key_image) {
            return Err(MalformedSignature);
        }
        let message = tail_from(data, 32 * (ring_size + 2));
        let signature = RingSignature { challenge, responses, key_image };
        proof {
            assert forall|j: int| 0 <= j < ring_size implies canonical_scalar(
                #[trigger] signature.responses@[j]@,
            ) by {
                assert(canonical_scalar(block(data@, j + 1)));
            }
        }
        Ok((signature, message))
    }
}

/// The wire form of a signed message is determined by the signature and
/// the message, and it determines them: reading what was written gives the
/// same challenge, responses, key image and message.
pub proof fn lemma_signed_message_unique(
    data: Seq<u8>,
    other: Seq<u8>,
    signature: RingSignature,
    read: RingSignature,
    message: Seq<u8>,
    read_message: Seq<u8>,
)
    requires
        is_signed_message(data, signature, message),
    ensures
        is_signed_message(other, signature, message) ==> other == data,
        is_signed_message(data, read, read_message) && read.responses@.len()
            == signature.responses@.len() ==> {
            &&& read.challenge@ == signature.challenge@
            &&& encodings(read.responses@) == encodings(signature.responses@)
            &&& read.key_image@ == signature.key_image@
            &&& read_message == message
        },
        signature.well_formed() ==> holds_signature(data, signature.responses@.len() as int),
{
    let n = signature.responses@.len() as int;
    if is_signed_message(other, signature, message) {
        assert forall|k: int| 0 <= k < data.len() implies data[k] == other[k] by {
            if k < 32 * (n + 2) {
                let b = k / 32;
                assert(block(data, b)[k - 32 * b] == data[k]);
                assert(block(other, b)[k - 32 * b] == other[k]);
                if b == 0 {
                } else if b == n + 1 {
                } else {
                    assert(block(data, (b - 1) + 1) == signature.responses@[b - 1]@);
                    assert(block(other, (b - 1) + 1) == signature.responses@[b - 1]@);
                }
            } else {
                assert(data.subrange(32 * (n + 2), data.len() as int)[k - 32 * (n + 2)] == data[k]);
                assert(other.subrange(32 * (n + 2), other.len() as int)[k - 32 * (n + 2)]
                    == other[k]);
            }
        }
        assert(other =~= data);
    }
    if is_signed_message(data, read, read_message) && read.responses@.len() == n {
        assert(encodings(read.responses@) =~= encodings(signature.responses@)) by {
            assert forall|j: int| 0 <= j < n implies read.responses@[j]@
                == signature.responses@[j]@ by {
                assert(block(data, j + 1) == read.responses@[j]@);
                assert(block(data, j + 1) == signature.responses@[j]@);
            }
        }
    }
    if signature.well_formed() {
        assert forall|i: int| 1 <= i <= n implies canonical_scalar(#[trigger] block(data, i)) by {
            assert(block(data, (i - 1) + 1) == signature.responses@[i - 1]@);
        }
    }
}

/// The text of a signed message for a ring of `ring_size` keys: what
/// follows the signature.
pub open spec fn signed_text(data: Seq<u8>, ring_size: int) -> Seq<u8> {
    data.subrange(32 * (ring_size + 2), data.len() as int)
}

/// The responses of a signed message for a ring of `ring_size` keys.
pub open spec fn signed_responses(data: Seq<u8>, ring_size: int) -> Seq<Seq<u8>> {
    Seq::new(ring_size as nat, |i: int| block(data, i + 1))
}

/// Whether `data` is a signed message whose signature is valid under
/// `ring`: it holds a well formed signature for a ring of that size, the
/// ring is well formed, and bLSAG verification accepts the signature for
/// the text.
pub open spec fn signed_message_valid(data: Seq<u8>, ring: Seq<[u8; 32]>) -> bool {
    let n = ring.len() as int;
    &&& holds_signature(data, n)
    &&& ring_decodes(ring)
    &&& blsag_accepts(
        block(data, 0),
        signed_responses(data, n),
        block(data, n + 1),
        encodings(ring),
        signed_text(data, n),
    )
}

/// A signed message is valid exactly when the signature that stands in it
/// is valid for the text that follows.
pub proof fn lemma_signed_message_valid(
    data: Seq<u8>,
    signature: RingSignature,
    message: Seq<u8>,
    ring: Seq<[u8; 32]>,
)
    requires
        is_signed_message(data, signature, message),
        signature.responses@.len() == ring.len(),
        signature.well_formed(),
    ensures
        holds_signature(data, ring.len() as int),
        signed_text(data, ring.len() as int) == message,
        signed_message_valid(data, ring) == signature_valid(signature, ring, message),
{
    let n = ring.len() as int;
    assert forall|i: int| 1 <= i <= n implies canonical_scalar(#[trigger] block(data, i)) by {
        assert(block(data, (i - 1) + 1) == signature.responses@[i - 1]@);
    }
    assert(signed_responses(data, n) =~= encodings(signature.responses@));
}

} // verus!
