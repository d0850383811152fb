//! The per-conference state machine: the exchange of public keys, the
//! negotiation of the ephemeral key, and the signing, encryption,
//! decryption and verification of messages.
//!
//! The manager decides; its caller runs the event loop, hands it each
//! event, and performs the actions that each step returns, in their order.

use crate::bytes::{
    array_at, be_bytes, be_value, lemma_be_bytes_of_value, lemma_be_value_of_bytes, tail_from,
    u32_from_be_bytes, u32_to_be_bytes,
};
use crate::constants::{
    ConferenceEvent, ConferenceId, EncryptionKey, Message, MessageID, NumberOfPeers, UIEvent,
};
use crate::crypto::{
    apply_ephemeral_key_part, decodable, decoded_ciphertext, decoded_iv, decrypt_message,
    encrypt_message, folded, generate_ephemeral_key, generate_private_key, is_valid_point,
    lemma_decode_inverts_encode, lemma_folded_push, lemma_signed_message_verifies, opening,
    public_key, sealable, sign_message, verify_message, xor_bytes, zero_key, EncryptionResult, KEY_SIZE,
    TAG_SIZE,
};
use crate::primitives::{
    aead_seal, canonical_scalar, ring_decodes, ristretto_decodes, ristretto_public_key,
};
use crate::signature::{
    holds_signature, lemma_signed_message_valid, signed_message_valid, signed_text, RingSignature,
};
use crate::ring::{position, sort_keys, strictly_ascending};
use vstd::prelude::*;

verus! {

/// The phases of a conference.
#[derive(Clone, Copy, Debug, PartialEq, Eq)]
pub enum ConferenceState {
    Initial,
    PublicKeyExchange,
    PublicKeyExchangeFinished,
    EncryptionKeyNegotiation,
    EncryptionKeyNegotiationFinished,
    NormalOperation,
}

/// The messages that peers exchange inside the encrypted payload. The
/// plaintext starts with a discriminator: `0x01` for a public key, `0x02`
/// for a part of the ephemeral key, `0x03` for a signed message.
#[derive(Debug, PartialEq, Eq)]
pub enum ClientToClientMessage {
    PublicKey([u8; 32]),
    EncryptionKeyPart(Vec<u8>),
    Message(Vec<u8>),
}

/// The plaintext of a public key message.
pub open spec fn public_key_message(key: Seq<u8>) -> Seq<u8> {
    seq![1u8] + key
}

/// The plaintext of a key part message.
pub open spec fn key_part_message(part: Seq<u8>) -> Seq<u8> {
    seq![2u8] + part
}

/// The plaintext of a signed message: its length in 32 bits, then the
/// signature and the text.
pub open spec fn text_message(signed: Seq<u8>) -> Seq<u8> {
    seq![3u8] + be_bytes(signed.len() as u32) + signed
}

impl ClientToClientMessage {
    /// The plaintext of the message.
    pub open spec fn spec_encode(&self) -> Seq<u8> {
        match self {
            ClientToClientMessage::PublicKey(key) => public_key_message(key@),
            ClientToClientMessage::EncryptionKeyPart(part) => key_part_message(part@),
            ClientToClientMessage::Message(signed) => text_message(signed@),
        }
    }

    /// Whether the message fits its wire form: a signed message has a
    /// 32-bit length.
    pub open spec fn encodable(&self) -> bool {
        *self matches ClientToClientMessage::Message(signed) ==> signed@.len() <= u32::MAX
    }

    /// Writes the plaintext of the message.
    pub fn encode(&self) -> (result: Vec<u8>)
        requires
            self.encodable(),
        ensures
            result@ == self.spec_encode(),
    {
        match self {
            ClientToClientMessage::PublicKey(pubkey) => {
                let mut result = Vec::new();
                result.push(0x01);
                result.extend_from_slice(pubkey);
                result
            },
            ClientToClientMessage::EncryptionKeyPart(key_part) => {
                let mut result = Vec::new();
                result.push(0x02);
                result.extend_from_slice(key_part.as_slice());
                result
            },
            ClientToClientMessage::Message(message) => {
                let mut result = Vec::new();
                result.push(0x03);
                result.extend_from_slice(&u32_to_be_bytes(message.len() as u32));
                result.extend_from_slice(message.as_slice());
                result
            },
        }
    }

    /// Reads a message from a decrypted payload.
    ///
    /// A payload is a message exactly when it starts with `0x01` and has
    /// 33 bytes, when it starts with `0x02`, or when it starts with `0x03`
    /// and a 32-bit length that is the number of bytes after it. The
    /// message read is the one whose plaintext the payload is.
    pub fn decode(data: &[u8]) -> (result: Option<ClientToClientMessage>)
        ensures
            result is Some <==> is_payload(data@),
            result matches Some(message) ==> message.encodable() && message.spec_encode()
                == data@,
    {
        if data.len() == 0 {
            return None;
        }
        let kind = data[0];
        if kind == 0x01 {
            if data.len() != 33 {
                return None;
            }
            let key = array_at(data, 1);
            assert(public_key_message(key@) =~= data@);
            Some(ClientToClientMessage::PublicKey(key))
        } else if kind == 0x02 {
            let part = tail_from(data, 1);
            assert(key_part_message(part@) =~= data@);
            Some(ClientToClientMessage::EncryptionKeyPart(part))
        } else if kind == 0x03 {
            if data.len() < 5 {
                return None;
            }
            let length = u32_from_be_bytes(data, 1);
            if (data.len() - 5) as u64 != length as u64 {
                return None;
            }
            let signed = tail_from(data, 5);
            proof {
                lemma_be_bytes_of_value(data@.subrange(1, 5));
                assert(text_message(signed@) =~= data@);
            }
            Some(ClientToClientMessage::Message(signed))
        } else {
            None
        }
    }
}

/// Whether `data` is the plaintext of a message between peers.
pub open spec fn is_payload(data: Seq<u8>) -> bool {
    &&& data.len() >= 1
    &&& {
        ||| data[0] == 1 && data.len() == 33
        ||| data[0] == 2
        ||| data[0] == 3 && data.len() >= 5 && be_value(data.subrange(1, 5)) == data.len() - 5
    }
}

/// The plaintext of a message is a payload, and no other message has it:
/// reading what was written gives the message back.
pub proof fn lemma_payload_round_trip(message: ClientToClientMessage, other: ClientToClientMessage)
    requires
        message.encodable(),
    ensures
        is_payload(message.spec_encode()),
        other.encodable() && other.spec_encode() == message.spec_encode() ==> match (
            message,
            other,
        ) {
            (
                ClientToClientMessage::PublicKey(a),
                ClientToClientMessage::PublicKey(b),
            ) => a@ == b@,
            (
                ClientToClientMessage::EncryptionKeyPart(a),
                ClientToClientMessage::EncryptionKeyPart(b),
            ) => a@ == b@,
            (ClientToClientMessage::Message(a), ClientToClientMessage::Message(b)) => a@ == b@,
            _ => false,
        },
{
    let data = message.spec_encode();
    match message {
        ClientToClientMessage::PublicKey(key) => {},
        ClientToClientMessage::EncryptionKeyPart(part) => {},
        ClientToClientMessage::Message(signed) => {
            lemma_be_value_of_bytes(signed@.len() as u32);
            assert(data.subrange(1, 5) =~= be_bytes(signed@.len() as u32));
        },
    }
    if other.encodable() && other.spec_encode() == data {
        let theirs = other.spec_encode();
        assert(theirs[0] == data[0]);
        match (message, other) {
            (ClientToClientMessage::PublicKey(a), ClientToClientMessage::PublicKey(b)) => {
                assert(a@ =~= data.subrange(1, data.len() as int));
                assert(b@ =~= theirs.subrange(1, theirs.len() as int));
            },
            (
                ClientToClientMessage::EncryptionKeyPart(a),
                ClientToClientMessage::EncryptionKeyPart(b),
            ) => {
                assert(a@ =~= data.subrange(1, data.len() as int));
                assert(b@ =~= theirs.subrange(1, theirs.len() as int));
            },
            (ClientToClientMessage::Message(a), ClientToClientMessage::Message(b)) => {
                assert(a@ =~= data.subrange(5, data.len() as int));
                assert(b@ =~= theirs.subrange(5, theirs.len() as int));
            },
            _ => {},
        }
    }
}

/// What the caller of a conference manager is to do after a step.
#[derive(Debug, PartialEq, Eq)]
pub enum ConferenceAction {
    /// Hand the framed message to the state manager, for the relay.
    Send(Message),
    /// Report the event to the user interface.
    Notify(UIEvent),
}

/// The state of one conference: the keys of the local peer, the keys
/// collected from the others, the ring, and the ephemeral key in use and
/// under negotiation.
pub struct ConferenceManager {
    pub conference_id: ConferenceId,
    pub number_of_peers: NumberOfPeers,
    pub initial_encryption_key: EncryptionKey,
    /// The public keys collected in the current exchange, own key
    /// included; no key stands twice.
    pub unsorted_public_keys: Vec<[u8; 32]>,
    pub ring: Option<Vec<[u8; 32]>>,
    pub ring_personal_key_index: Option<usize>,
    pub personal_private_key: [u8; 32],
    pub personal_public_key: [u8; 32],
    pub state: ConferenceState,
    pub ephemeral_key_parts: NumberOfPeers,
    pub new_ephemeral_key: EncryptionKey,
    pub ephemeral_encryption_key: Option<EncryptionKey>,
}

/// The state of a conference manager as mathematical values.
#[verifier::ext_equal]
pub struct ConferenceModel {
    pub conference_id: ConferenceId,
    pub number_of_peers: NumberOfPeers,
    pub initial_encryption_key: EncryptionKey,
    pub public_keys: Set<[u8; 32]>,
    pub ring: Option<Seq<[u8; 32]>>,
    pub ring_personal_key_index: Option<usize>,
    pub personal_private_key: [u8; 32],
    pub personal_public_key: [u8; 32],
    pub state: ConferenceState,
    pub ephemeral_key_parts: NumberOfPeers,
    pub new_ephemeral_key: EncryptionKey,
    pub ephemeral_encryption_key: Option<EncryptionKey>,
}

/// The key whose encoding is `encoding`.
pub open spec fn key_of(encoding: Seq<u8>) -> [u8; 32] {
    choose|key: [u8; 32]| key@ == encoding
}

/// A key is the key of its encoding.
pub proof fn lemma_key_of(key: [u8; 32])
    ensures
        key_of(key@) == key,
{
    assert(key_of(key@)@ == key@);
    assert(key_of(key@) =~= key);
}

/// What a decrypted payload carries.
pub enum Payload {
    Nothing,
    Key(Seq<u8>),
    Part(Seq<u8>),
    Text(Seq<u8>),
}

/// What the plaintext `data` carries.
pub open spec fn payload_of(data: Seq<u8>) -> Payload {
    if !is_payload(data) {
        Payload::Nothing
    } else if data[0] == 1 {
        Payload::Key(data.subrange(1, 33))
    } else if data[0] == 2 {
        Payload::Part(data.subrange(1, data.len() as int))
    } else {
        Payload::Text(data.subrange(5, data.len() as int))
    }
}

/// Whether `message` is a frame for `conference` with identifier `id`
/// whose payload decrypts under `key` to `plaintext`: it is the IV followed
/// by what the cipher makes of the plaintext under that key and IV.
pub open spec fn sealed(
    message: Message,
    conference: ConferenceId,
    key: Seq<u8>,
    plaintext: Seq<u8>,
    id: Option<MessageID>,
) -> bool {
    let data = message.message@;
    &&& message.conference == conference
    &&& message.message_id == id
    &&& decodable(data)
    &&& decoded_ciphertext(data) == aead_seal(key, decoded_iv(data), plaintext)
    &&& opening(key, decoded_iv(data), decoded_ciphertext(data)) == Some(plaintext)
}

impl ConferenceModel {
    /// The plaintext of an incoming frame under the dual-key policy. With
    /// both keys at hand, normal operation tries the ephemeral key first
    /// and the initial key second; every other state tries them the other
    /// way round. Without an ephemeral key only the initial key is tried.
    pub open spec fn opened(self, data: Seq<u8>) -> Option<Seq<u8>> {
        if !decodable(data) {
            None
        } else {
            let iv = decoded_iv(data);
            let ciphertext = decoded_ciphertext(data);
            let with_initial = opening(self.initial_encryption_key@, iv, ciphertext);
            match self.ephemeral_encryption_key {
                None => with_initial,
                Some(key) => {
                    let with_ephemeral = opening(key@, iv, ciphertext);
                    if self.state is NormalOperation {
                        if with_ephemeral is Some {
                            with_ephemeral
                        } else {
                            with_initial
                        }
                    } else {
                        if with_initial is Some {
                            with_initial
                        } else {
                            with_ephemeral
                        }
                    }
                },
            }
        }
    }

    /// What an incoming frame carries: the payload of its plaintext, or
    /// nothing where it does not decrypt.
    pub open spec fn received(self, data: Seq<u8>) -> Payload {
        match self.opened(data) {
            None => Payload::Nothing,
            Some(plaintext) => payload_of(plaintext),
        }
    }
}

/// Nothing happens: no change, no action.
pub open spec fn discarded(
    pre: ConferenceModel,
    post: ConferenceModel,
    actions: Seq<ConferenceAction>,
) -> bool {
    post == pre && actions.len() == 0
}

/// Whether `action` sends a frame of the conference that decrypts under
/// `key` to `plaintext`.
pub open spec fn sends(
    action: ConferenceAction,
    conference: ConferenceId,
    key: Seq<u8>,
    plaintext: Seq<u8>,
    id: Option<MessageID>,
) -> bool {
    action matches ConferenceAction::Send(message) && sealed(
        message,
        conference,
        key,
        plaintext,
        id,
    )
}

/// Whether `ring` is the ring of `keys`: their strictly ascending
/// sequence.
pub open spec fn is_ring_of(ring: Seq<[u8; 32]>, keys: Set<[u8; 32]>) -> bool {
    strictly_ascending(ring) && ring.to_set() == keys
}

/// The negotiation of the ephemeral key begins in `base`, where the ring
/// stands: the local part of the key is broadcast under the initial key. A
/// conference of one peer needs no part of another: its part is the
/// ephemeral key at once, normal operation begins, and the user interface
/// learns that the conference is set up.
pub open spec fn negotiation_started(
    base: ConferenceModel,
    post: ConferenceModel,
    actions: Seq<ConferenceAction>,
) -> bool {
    &&& actions.len() >= 1
    &&& sends(
        actions[0],
        base.conference_id,
        base.initial_encryption_key@,
        key_part_message(base.new_ephemeral_key@),
        None,
    )
    &&& if base.number_of_peers == 1 {
        &&& post == (ConferenceModel {
            state: ConferenceState::NormalOperation,
            ephemeral_encryption_key: Some(base.new_ephemeral_key),
            ..base
        })
        &&& actions.len() == 2
        &&& actions[1] == ConferenceAction::Notify(
            UIEvent::ConferenceRestructuringFinished(base.conference_id),
        )
    } else {
        &&& post == (ConferenceModel { state: ConferenceState::EncryptionKeyNegotiation, ..base })
        &&& actions.len() == 1
    }
}

/// The exchange of public keys completes in `base`, where the keys of all
/// peers are there: the ring is built from them, the own index in it is
/// recorded, and the negotiation of the ephemeral key begins.
pub open spec fn exchange_completed(
    base: ConferenceModel,
    post: ConferenceModel,
    actions: Seq<ConferenceAction>,
) -> bool {
    &&& post.ring matches Some(ring)
    &&& is_ring_of(ring, base.public_keys)
    &&& post.ring_personal_key_index matches Some(index)
    &&& index < ring.len()
    &&& ring[index as int] == base.personal_public_key
    &&& negotiation_started(
        ConferenceModel {
            ring: post.ring,
            ring_personal_key_index: post.ring_personal_key_index,
            ..base
        },
        post,
        actions,
    )
}

/// The exchange of public keys begins in `base`: the own public key is
/// broadcast under the initial key, and where it is the only key expected
/// the exchange completes at once.
pub open spec fn exchange_started(
    base: ConferenceModel,
    post: ConferenceModel,
    actions: Seq<ConferenceAction>,
) -> bool {
    &&& actions.len() >= 1
    &&& sends(
        actions[0],
        base.conference_id,
        base.initial_encryption_key@,
        public_key_message(base.personal_public_key@),
        None,
    )
    &&& if base.public_keys.len() == base.number_of_peers {
        exchange_completed(base, post, actions.skip(1))
    } else {
        post == base && actions.len() == 1
    }
}

/// The manager starts: it enters the exchange of public keys.
pub open spec fn started(
    pre: ConferenceModel,
    post: ConferenceModel,
    actions: Seq<ConferenceAction>,
) -> bool {
    exchange_started(
        ConferenceModel { state: ConferenceState::PublicKeyExchange, ..pre },
        post,
        actions,
    )
}

/// The conference is restructured to `number_of_peers` peers: the keys
/// collected are forgotten but the own one, a fresh local part of the
/// ephemeral key is drawn and no part counted, and the exchange of public
/// keys begins anew. The ring and the ephemeral key stay, for the frames
/// of the epoch that ends.
pub open spec fn restructured(
    pre: ConferenceModel,
    number_of_peers: NumberOfPeers,
    post: ConferenceModel,
    actions: Seq<ConferenceAction>,
) -> bool {
    exchange_started(
        ConferenceModel {
            number_of_peers,
            public_keys: set![pre.personal_public_key],
            new_ephemeral_key: post.new_ephemeral_key,
            ephemeral_key_parts: 0,
            state: ConferenceState::PublicKeyExchange,
            ..pre
        },
        post,
        actions,
    )
}

/// A public key comes in during the exchange: it joins the keys collected,
/// and where all keys are then there the exchange completes.
pub open spec fn key_received(
    pre: ConferenceModel,
    key: [u8; 32],
    post: ConferenceModel,
    actions: Seq<ConferenceAction>,
) -> bool {
    let base = ConferenceModel { public_keys: pre.public_keys.insert(key), ..pre };
    if base.public_keys.len() == base.number_of_peers {
        exchange_completed(base, post, actions)
    } else {
        post == base && actions.len() == 0
    }
}

/// A part of the ephemeral key comes in during the negotiation: it is
/// folded into the key under negotiation and counted. With the part of
/// every other peer folded in, the key becomes the ephemeral key, normal
/// operation begins, and the user interface learns of it.
pub open spec fn part_received(
    pre: ConferenceModel,
    part: Seq<u8>,
    post: ConferenceModel,
    actions: Seq<ConferenceAction>,
) -> bool {
    &&& post.new_ephemeral_key@ == xor_bytes(pre.new_ephemeral_key@, part)
    &&& if pre.ephemeral_key_parts + 2 == pre.number_of_peers {
        &&& post == (ConferenceModel {
            new_ephemeral_key: post.new_ephemeral_key,
            ephemeral_key_parts: (pre.ephemeral_key_parts + 1) as u32,
            ephemeral_encryption_key: Some(post.new_ephemeral_key),
            state: ConferenceState::NormalOperation,
            ..pre
        })
        &&& actions.len() == 1
        &&& actions[0] == ConferenceAction::Notify(
            UIEvent::ConferenceRestructuringFinished(pre.conference_id),
        )
    } else {
        &&& post == (ConferenceModel {
            new_ephemeral_key: post.new_ephemeral_key,
            ephemeral_key_parts: (pre.ephemeral_key_parts + 1) as u32,
            ..pre
        })
        &&& actions.len() == 0
    }
}

/// A signed message comes in: where there is a ring and the message holds
/// a well formed signature for it, the text goes to the user interface
/// with the verdict on the signature, valid or not. Otherwise it is
/// dropped.
pub open spec fn text_received(
    pre: ConferenceModel,
    signed: Seq<u8>,
    post: ConferenceModel,
    actions: Seq<ConferenceAction>,
) -> bool {
    &&& post == pre
    &&& if pre.ring is Some && holds_signature(signed, pre.ring.unwrap().len() as int) {
        &&& actions.len() == 1
        &&& actions[0] matches ConferenceAction::Notify(
            UIEvent::IncomingMessage((conference, text, valid)),
        )
        &&& conference == pre.conference_id
        &&& text@ == signed_text(signed, pre.ring.unwrap().len() as int)
        &&& valid == signed_message_valid(signed, pre.ring.unwrap())
    } else {
        actions.len() == 0
    }
}

/// What the manager does with an incoming frame, by its state and by what
/// the frame carries. A frame that does not decrypt, a payload that is no
/// message, a message that the state does not expect, a public key that is
/// no point and a key part that is not 32 bytes long are dropped.
pub open spec fn incoming(
    pre: ConferenceModel,
    data: Seq<u8>,
    post: ConferenceModel,
    actions: Seq<ConferenceAction>,
) -> bool {
    match pre.state {
        ConferenceState::PublicKeyExchange => match pre.received(data) {
            Payload::Key(key) => if ristretto_decodes(key) {
                key_received(pre, key_of(key), post, actions)
            } else {
                discarded(pre, post, actions)
            },
            Payload::Text(signed) => text_received(pre, signed, post, actions),
            _ => discarded(pre, post, actions),
        },
        ConferenceState::EncryptionKeyNegotiation => match pre.received(data) {
            Payload::Part(part) => if part.len() == KEY_SIZE {
                part_received(pre, part, post, actions)
            } else {
                discarded(pre, post, actions)
            },
            Payload::Text(signed) => text_received(pre, signed, post, actions),
            _ => discarded(pre, post, actions),
        },
        ConferenceState::NormalOperation => match pre.received(data) {
            Payload::Text(signed) => text_received(pre, signed, post, actions),
            _ => discarded(pre, post, actions),
        },
        _ => discarded(pre, post, actions),
    }
}

/// Whether a text of `len` bytes can be signed and sent: signature and
/// text have a 32-bit length, and the frame can be allocated.
pub open spec fn sendable(pre: ConferenceModel, len: int) -> bool {
    &&& pre.ring is Some
    &&& 32 * (pre.ring.unwrap().len() + 2) + len <= u32::MAX
    &&& 32 * (pre.ring.unwrap().len() + 2) + len + 5 + TAG_SIZE <= isize::MAX
}

/// What the manager does with a text to send. In normal operation the text
/// is signed with the ring, framed as a message, encrypted under the
/// ephemeral key and sent with its identifier. In every other state, and
/// for a text too long to send, the user interface gets a message error.
pub open spec fn outbound(
    pre: ConferenceModel,
    id: MessageID,
    text: Seq<u8>,
    post: ConferenceModel,
    actions: Seq<ConferenceAction>,
) -> bool {
    &&& post == pre
    &&& actions.len() == 1
    &&& if pre.state is NormalOperation && sendable(pre, text.len() as int)
        && pre.ephemeral_encryption_key is Some {
        let ring = pre.ring.unwrap();
        exists|signed: Seq<u8>|
            {
                &&& #[trigger] sends(
                    actions[0],
                    pre.conference_id,
                    pre.ephemeral_encryption_key.unwrap()@,
                    text_message(signed),
                    Some(id),
                )
                &&& signed.len() == 32 * (ring.len() + 2) + text.len()
                &&& holds_signature(signed, ring.len() as int)
                &&& signed_text(signed, ring.len() as int) == text
                &&& ring.len() >= 2 ==> signed_message_valid(signed, ring)
            }
    } else {
        actions[0] == ConferenceAction::Notify(UIEvent::MessageError((pre.conference_id, id)))
    }
}

/// What the manager does on an event.
pub open spec fn conference_step(
    pre: ConferenceModel,
    event: ConferenceEvent,
    post: ConferenceModel,
    actions: Seq<ConferenceAction>,
) -> bool {
    match event {
        ConferenceEvent::ConferenceRestructuring(number_of_peers) => restructured(
            pre,
            number_of_peers,
            post,
            actions,
        ),
        ConferenceEvent::IncomingMessage(message) => incoming(pre, message@, post, actions),
        ConferenceEvent::OutboundMessage((id, text)) => outbound(pre, id, text@, post, actions),
    }
}

/// Peers that complete the exchange with the same keys build the same
/// ring.
pub proof fn lemma_same_keys_same_ring(
    first: ConferenceModel,
    first_post: ConferenceModel,
    first_actions: Seq<ConferenceAction>,
    second: ConferenceModel,
    second_post: ConferenceModel,
    second_actions: Seq<ConferenceAction>,
)
    requires
        exchange_completed(first, first_post, first_actions),
        exchange_completed(second, second_post, second_actions),
        first.public_keys == second.public_keys,
    ensures
        first_post.ring == second_post.ring,
{
    crate::ring::lemma_ring_determined_by_members(
        first_post.ring.unwrap(),
        second_post.ring.unwrap(),
    );
}

/// The key under negotiation is what the own part and the parts received
/// fold to, in the order they came in; and the ephemeral key, once the
/// last part has come, is what all parts fold to.
pub proof fn lemma_part_received_folds(
    pre: ConferenceModel,
    part: Seq<u8>,
    post: ConferenceModel,
    actions: Seq<ConferenceAction>,
    parts: Seq<Seq<u8>>,
)
    requires
        part_received(pre, part, post, actions),
        pre.new_ephemeral_key@ == folded(parts),
    ensures
        post.new_ephemeral_key@ == folded(parts.push(part)),
        pre.ephemeral_key_parts + 2 == pre.number_of_peers ==> post.ephemeral_encryption_key
            == Some(post.new_ephemeral_key),
{
    lemma_folded_push(parts, part);
}

/// A frame reaches its readers: a frame sealed under the key that a
/// manager tries first opens to the plaintext that was sealed. In normal
/// operation that is the ephemeral key; in every other state, and without
/// an ephemeral key, the initial key.
pub proof fn lemma_sealed_frame_opens(
    reader: ConferenceModel,
    frame: Message,
    key: Seq<u8>,
    plaintext: Seq<u8>,
    id: Option<MessageID>,
)
    requires
        sealed(frame, reader.conference_id, key, plaintext, id),
        key == if reader.state is NormalOperation && reader.ephemeral_encryption_key is Some {
            reader.ephemeral_encryption_key.unwrap()@
        } else {
            reader.initial_encryption_key@
        },
    ensures
        reader.opened(frame.message@) == Some(plaintext),
{
}

/// Signed messages go out in normal operation only, and setup messages
/// carry no identifier: a step that sends a frame with a message
/// identifier was taken in normal operation, on a text to send.
pub proof fn lemma_messages_only_in_normal_operation(
    pre: ConferenceModel,
    event: ConferenceEvent,
    post: ConferenceModel,
    actions: Seq<ConferenceAction>,
    i: int,
)
    requires
        conference_step(pre, event, post, actions),
        0 <= i < actions.len(),
        actions[i] matches ConferenceAction::Send(frame) && frame.message_id is Some,
    ensures
        pre.state is NormalOperation,
        event is OutboundMessage,
{
    match event {
        ConferenceEvent::ConferenceRestructuring(number_of_peers) => {
            let base = ConferenceModel {
                number_of_peers,
                public_keys: set![pre.personal_public_key],
                new_ephemeral_key: post.new_ephemeral_key,
                ephemeral_key_parts: 0,
                state: ConferenceState::PublicKeyExchange,
                ..pre
            };
            if i > 0 {
                assert(actions.skip(1)[i - 1] == actions[i]);
            }
        },
        ConferenceEvent::IncomingMessage(message) => {},
        ConferenceEvent::OutboundMessage((id, text)) => {},
    }
}

/// What one peer sends, another reads: a text sent in normal operation,
/// handed as a frame to a peer in normal operation with the same ephemeral
/// key and the same ring of two keys or more, reaches that peer's user
/// interface unchanged, with a valid signature.
pub proof fn lemma_sent_message_is_delivered(
    sender: ConferenceModel,
    id: MessageID,
    text: Seq<u8>,
    sent: Seq<ConferenceAction>,
    receiver: ConferenceModel,
    after: ConferenceModel,
    received: Seq<ConferenceAction>,
)
    requires
        sender.state is NormalOperation,
        sender.ephemeral_encryption_key is Some,
        sendable(sender, text.len() as int),
        outbound(sender, id, text, sender, sent),
        receiver.state is NormalOperation,
        receiver.conference_id == sender.conference_id,
        receiver.ephemeral_encryption_key == sender.ephemeral_encryption_key,
        receiver.ring == sender.ring,
        sender.ring.unwrap().len() >= 2,
        sent[0] is Send,
        incoming(receiver, sent[0]->Send_0.message@, after, received),
    ensures
        after == receiver,
        received.len() == 1,
        received[0] matches ConferenceAction::Notify(
            UIEvent::IncomingMessage((conference, delivered, valid)),
        ) && conference == sender.conference_id && delivered@ == text && valid,
{
    let ring = sender.ring.unwrap();
    let frame = sent[0]->Send_0;
    let key = sender.ephemeral_encryption_key.unwrap()@;
    let signed = choose|signed: Seq<u8>|
        {
            &&& #[trigger] sends(
                sent[0],
                sender.conference_id,
                key,
                text_message(signed),
                Some(id),
            )
            &&& signed.len() == 32 * (ring.len() + 2) + text.len()
            &&& holds_signature(signed, ring.len() as int)
            &&& signed_text(signed, ring.len() as int) == text
            &&& ring.len() >= 2 ==> signed_message_valid(signed, ring)
        };
    let plaintext = text_message(signed);
    lemma_sealed_frame_opens(receiver, frame, key, plaintext, Some(id));
    lemma_be_value_of_bytes(signed.len() as u32);
    assert(plaintext.subrange(1, 5) =~= be_bytes(signed.len() as u32));
    assert(plaintext.subrange(5, plaintext.len() as int) =~= signed);
    assert(is_payload(plaintext));
    assert(receiver.received(frame.message@) == Payload::Text(signed));
}

impl View for ConferenceManager {
    type V = ConferenceModel;

    open spec fn view(&self) -> ConferenceModel {
        ConferenceModel {
            conference_id: self.conference_id,
            number_of_peers: self.number_of_peers,
            initial_encryption_key: self.initial_encryption_key,
            public_keys: self.unsorted_public_keys@.to_set(),
            ring: match self.ring {
                Some(ring) => Some(ring@),
                None => None,
            },
            ring_personal_key_index: self.ring_personal_key_index,
            personal_private_key: self.personal_private_key,
            personal_public_key: self.personal_public_key,
            state: self.state,
            ephemeral_key_parts: self.ephemeral_key_parts,
            new_ephemeral_key: self.new_ephemeral_key,
            ephemeral_encryption_key: self.ephemeral_encryption_key,
        }
    }
}

impl ConferenceManager {
    /// The invariant of a conference manager.
    ///
    /// The key pair is one: the private key is a canonical scalar and the
    /// public key belongs to it. The collected keys hold the own public
    /// key, no key twice, and points only. A ring, once built, ascends
    /// strictly, holds points only, and holds the own public key at the
    /// index recorded. Messages are signed and sent only with a ring and an
    /// ephemeral key; while the ephemeral key is negotiated there is a ring
    /// and at least one part is still missing; while public keys are
    /// exchanged no part has been counted.
    pub open spec fn wf(&self) -> bool {
        &&& canonical_scalar(self.personal_private_key@)
        &&& self.personal_public_key@ == ristretto_public_key(self.personal_private_key@)
        &&& ristretto_decodes(self.personal_public_key@)
        &&& self.unsorted_public_keys@.no_duplicates()
        &&& self.unsorted_public_keys@.contains(self.personal_public_key)
        &&& ring_decodes(self.unsorted_public_keys@)
        &&& match (self.ring, self.ring_personal_key_index) {
            (Some(ring), Some(index)) => {
                &&& strictly_ascending(ring@)
                &&& ring_decodes(ring@)
                &&& index < ring@.len()
                &&& ring@[index as int] == self.personal_public_key
            },
            (None, None) => true,
            _ => false,
        }
        &&& self.state is NormalOperation ==> self.ring is Some
            && self.ephemeral_encryption_key is Some
        &&& self.state is EncryptionKeyNegotiation ==> self.ring is Some
            && self.ephemeral_key_parts + 1 < self.number_of_peers
        &&& self.state is PublicKeyExchange ==> self.ephemeral_key_parts == 0
        &&& self.state is Initial ==> self.ephemeral_key_parts == 0
            && self.unsorted_public_keys@.len() == 1
    }

    /// A conference manager for a conference just joined, with the given
    /// private key and the given local part of the ephemeral key.
    pub fn with_keys(
        conference_id: ConferenceId,
        number_of_peers: NumberOfPeers,
        initial_encryption_key: EncryptionKey,
        personal_private_key: [u8; 32],
        new_ephemeral_key: EncryptionKey,
    ) -> (manager: ConferenceManager)
        requires
            canonical_scalar(personal_private_key@),
        ensures
            manager.wf(),
            manager@ == (ConferenceModel {
                conference_id,
                number_of_peers,
                initial_encryption_key,
                public_keys: set![manager.personal_public_key],
                ring: None,
                ring_personal_key_index: None,
                personal_private_key,
                personal_public_key: manager.personal_public_key,
                state: ConferenceState::Initial,
                ephemeral_key_parts: 0,
                new_ephemeral_key,
                ephemeral_encryption_key: None,
            }),
    {
        let personal_public_key = public_key(&personal_private_key);
        let mut unsorted_public_keys: Vec<[u8; 32]> = Vec::new();
        unsorted_public_keys.push(personal_public_key);
        proof {
            assert(unsorted_public_keys@[0] == personal_public_key);
            assert(unsorted_public_keys@.to_set() =~= set![personal_public_key]);
        }
        ConferenceManager {
            conference_id,
            number_of_peers,
            initial_encryption_key,
            unsorted_public_keys,
            ring: None,
            ring_personal_key_index: None,
            personal_private_key,
            personal_public_key,
            state: ConferenceState::Initial,
            ephemeral_key_parts: 0,
            new_ephemeral_key,
            ephemeral_encryption_key: None,
        }
    }

    /// A conference manager for a conference just joined, with a fresh key
    /// pair and a fresh local part of the ephemeral key.
    pub fn new(
        conference_id: ConferenceId,
        number_of_peers: NumberOfPeers,
        initial_encryption_key: EncryptionKey,
    ) -> (manager: ConferenceManager)
        ensures
            manager.wf(),
            manager@ == (ConferenceModel {
                conference_id,
                number_of_peers,
                initial_encryption_key,
                public_keys: set![manager.personal_public_key],
                ring: None,
                ring_personal_key_index: None,
                personal_private_key: manager.personal_private_key,
                personal_public_key: manager.personal_public_key,
                state: ConferenceState::Initial,
                ephemeral_key_parts: 0,
                new_ephemeral_key: manager.new_ephemeral_key,
                ephemeral_encryption_key: None,
            }),
    {
        let personal_private_key = generate_private_key();
        let new_ephemeral_key = generate_ephemeral_key();
        ConferenceManager::with_keys(
            conference_id,
            number_of_peers,
            initial_encryption_key,
            personal_private_key,
            new_ephemeral_key,
        )
    }

    /// Encrypts a plaintext under `key` and frames it for the conference.
    /// Fails exactly on a plaintext too long for the cipher.
    fn seal(&self, plaintext: &[u8], key: &[u8; 32], message_id: Option<MessageID>) -> (message:
        Option<Message>)
        ensures
            message is Some <==> sealable(plaintext@.len() as int),
            message matches Some(m) ==> sealed(
                m,
                self.conference_id,
                key@,
                plaintext@,
                message_id,
            ),
    {
        match encrypt_message(plaintext, key) {
            Ok(encrypted_message) => {
                let message = encrypted_message.encode();
                proof {
                    lemma_decode_inverts_encode(
                        encrypted_message.iv@,
                        encrypted_message.ciphertext@,
                    );
                }
                Some(Message { conference: self.conference_id, message, message_id })
            },
            Err(_) => None,
        }
    }

    /// Decrypts an incoming frame under the dual-key policy.
    pub fn decrypt_message_helper(&self, message: &[u8]) -> (plaintext: Option<Vec<u8>>)
        ensures
            plaintext is Some <==> self@.opened(message@) is Some,
            plaintext matches Some(p) ==> self@.opened(message@) == Some(p@),
    {
        let encrypted_message = match EncryptionResult::decode(message) {
            Ok(encrypted_message) => encrypted_message,
            Err(_) => {
                return None;
            },
        };
        match self.ephemeral_encryption_key {
            Some(ephemeral_encryption_key) => {
                let (first, second) = match self.state {
                    ConferenceState::NormalOperation => (
                        ephemeral_encryption_key,
                        self.initial_encryption_key,
                    ),
                    _ => (self.initial_encryption_key, ephemeral_encryption_key),
                };
                match decrypt_message(&first, &encrypted_message) {
                    Ok(decrypted_message) => Some(decrypted_message),
                    Err(_) => match decrypt_message(&second, &encrypted_message) {
                        Ok(decrypted_message) => Some(decrypted_message),
                        Err(_) => None,
                    },
                }
            },
            None => match decrypt_message(&self.initial_encryption_key, &encrypted_message) {
                Ok(decrypted_message) => Some(decrypted_message),
                Err(_) => None,
            },
        }
    }

    /// Decrypts an incoming frame and reads the message that it carries.
    pub fn read_message(&self, message: &[u8]) -> (result: Option<ClientToClientMessage>)
        ensures
            result is Some <==> !(self@.received(message@) is Nothing),
            match result {
                Some(ClientToClientMessage::PublicKey(key)) => self@.received(message@)
                    == Payload::Key(key@),
                Some(ClientToClientMessage::EncryptionKeyPart(part)) => self@.received(message@)
                    == Payload::Part(part@),
                Some(ClientToClientMessage::Message(signed)) => self@.received(message@)
                    == Payload::Text(signed@),
                None => true,
            },
    {
        let plaintext = match self.decrypt_message_helper(message) {
            Some(plaintext) => plaintext,
            None => {
                return None;
            },
        };
        let result = ClientToClientMessage::decode(plaintext.as_slice());
        proof {
            match &result {
                Some(ClientToClientMessage::PublicKey(key)) => {
                    assert(key@ =~= plaintext@.subrange(1, 33));
                },
                Some(ClientToClientMessage::EncryptionKeyPart(part)) => {
                    assert(part@ =~= plaintext@.subrange(1, plaintext@.len() as int));
                },
                Some(ClientToClientMessage::Message(signed)) => {
                    assert(signed@ =~= plaintext@.subrange(5, plaintext@.len() as int));
                },
                None => {},
            }
        }
        result
    }

    /// Signs a message with the ring signature; returns the signature
    /// followed by the message.
    pub fn sign_message(&self, message: &[u8]) -> (signed: Vec<u8>)
        requires
            self.wf(),
            self.ring is Some,
        ensures
            signed@.len() == 32 * (self@.ring.unwrap().len() + 2) + message@.len(),
            holds_signature(signed@, self@.ring.unwrap().len() as int),
            signed_text(signed@, self@.ring.unwrap().len() as int) == message@,
            self@.ring.unwrap().len() >= 2 ==> signed_message_valid(
                signed@,
                self@.ring.unwrap(),
            ),
    {
        let ring = self.ring.as_ref().unwrap();
        let index = self.ring_personal_key_index.unwrap();
        let signature = sign_message(&self.personal_private_key, index, ring.as_slice(), message);
        let signed = signature.encode(message);
        proof {
            lemma_signed_message_valid(signed@, signature, message@, ring@);
            if ring@.len() >= 2 {
                lemma_signed_message_verifies(
                    signature,
                    self.personal_private_key@,
                    index as int,
                    ring@,
                    message@,
                );
            }
        }
        signed
    }

    /// Checks the signature of a signed message against the ring; returns
    /// the message and whether the signature is valid.
    ///
    /// Returns `None` exactly when there is no ring yet, or when the
    /// message does not hold a well formed signature for the ring.
    pub fn check_message_signature(&self, message: &[u8]) -> (result: Option<(Vec<u8>, bool)>)
        requires
            self.wf(),
        ensures
            result is Some <==> (self@.ring is Some && holds_signature(
                message@,
                self@.ring.unwrap().len() as int,
            )),
            result matches Some((text, valid)) ==> {
                &&& text@ == signed_text(
                    message@,
                    self@.ring.unwrap().len() as int,
                )
                &&& valid == signed_message_valid(message@, self@.ring.unwrap())
            },
    {
        let ring = match &self.ring {
            Some(ring) => ring,
            None => {
                return None;
            },
        };
        match RingSignature::decode(message, ring.len()) {
            Ok((signature, text)) => {
                let signature_valid = verify_message(&signature, ring.as_slice(), text.as_slice());
                proof {
                    lemma_signed_message_valid(
                        message@,
                        signature,
                        text@,
                        ring@,
                    );
                }
                Some((text, signature_valid))
            },
            Err(_) => None,
        }
    }

    /// Broadcasts a setup message under the initial key.
    fn broadcast(&self, message: &ClientToClientMessage) -> (action: ConferenceAction)
        requires
            message.spec_encode().len() <= 64,
            message.encodable(),
        ensures
            sends(
                action,
                self.conference_id,
                self.initial_encryption_key@,
                message.spec_encode(),
                None,
            ),
    {
        let plaintext = message.encode();
        // a setup message is short enough for the cipher
        let frame = self.seal(plaintext.as_slice(), &self.initial_encryption_key, None).unwrap();
        ConferenceAction::Send(frame)
    }

    /// Ends the negotiation: the key under negotiation becomes the
    /// ephemeral key and normal operation begins.
    fn finish_conference_setup(&mut self) -> (action: ConferenceAction)
        requires
            old(self).wf(),
            old(self).ring is Some,
        ensures
            final(self).wf(),
            final(self)@ == (ConferenceModel {
                state: ConferenceState::NormalOperation,
                ephemeral_encryption_key: Some(old(self)@.new_ephemeral_key),
                ..old(self)@
            }),
            action == ConferenceAction::Notify(
                UIEvent::ConferenceRestructuringFinished(old(self)@.conference_id),
            ),
    {
        self.ephemeral_encryption_key = Some(self.new_ephemeral_key);
        self.state = ConferenceState::NormalOperation;
        ConferenceAction::Notify(UIEvent::ConferenceRestructuringFinished(self.conference_id))
    }

    /// Enters the negotiation of the ephemeral key and broadcasts the local
    /// part of it.
    fn start_ephemeral_key_negotiation(&mut self) -> (actions: Vec<ConferenceAction>)
        requires
            old(self).wf(),
            old(self).state is PublicKeyExchangeFinished,
            old(self).ring is Some,
            old(self).ephemeral_key_parts == 0,
            old(self).number_of_peers >= 1,
        ensures
            final(self).wf(),
            negotiation_started(old(self)@, final(self)@, actions@),
    {
        self.state = ConferenceState::EncryptionKeyNegotiation;
        let mut actions: Vec<ConferenceAction> = Vec::new();
        let part = tail_from(&self.new_ephemeral_key, 0);
        assert(part@ =~= self.new_ephemeral_key@);
        actions.push(self.broadcast(&ClientToClientMessage::EncryptionKeyPart(part)));
        if self.ephemeral_key_parts == self.number_of_peers - 1 {
            self.state = ConferenceState::EncryptionKeyNegotiationFinished;
            let done = self.finish_conference_setup();
            actions.push(done);
        }
        actions
    }

    /// Builds the ring from the keys collected and begins the negotiation
    /// of the ephemeral key.
    fn finish_public_key_exchange(&mut self) -> (actions: Vec<ConferenceAction>)
        requires
            old(self).wf(),
            old(self).state is PublicKeyExchange,
            old(self)@.public_keys.len() == old(self)@.number_of_peers,
        ensures
            final(self).wf(),
            exchange_completed(old(self)@, final(self)@, actions@),
    {
        self.state = ConferenceState::PublicKeyExchangeFinished;

        let ring = sort_keys(&self.unsorted_public_keys);
        proof {
            self.unsorted_public_keys@.unique_seq_to_set();
            assert(ring@.to_set().contains(self.personal_public_key));
            assert(ring_decodes(ring@)) by {
                assert forall|i: int| 0 <= i < ring@.len() implies ristretto_decodes(
                    #[trigger] ring@[i]@,
                ) by {
                    assert(ring@.to_set().contains(ring@[i]));
                    assert(self.unsorted_public_keys@.contains(ring@[i]));
                }
            }
        }
        // the own key is among the keys collected, so it is in the ring
        let index = position(&ring, &self.personal_public_key).unwrap();
        self.ring_personal_key_index = Some(index);
        self.ring = Some(ring);

        self.start_ephemeral_key_negotiation()
    }

    /// Enters the exchange of public keys and broadcasts the own key.
    fn start_public_key_exchange(&mut self) -> (actions: Vec<ConferenceAction>)
        requires
            old(self).wf(),
            old(self).ephemeral_key_parts == 0,
        ensures
            final(self).wf(),
            exchange_started(
                ConferenceModel { state: ConferenceState::PublicKeyExchange, ..old(self)@ },
                final(self)@,
                actions@,
            ),
    {
        self.state = ConferenceState::PublicKeyExchange;
        let mut actions: Vec<ConferenceAction> = Vec::new();
        actions.push(
            self.broadcast(&ClientToClientMessage::PublicKey(self.personal_public_key)),
        );
        proof {
            self.unsorted_public_keys@.unique_seq_to_set();
        }
        if self.unsorted_public_keys.len() as u64 == self.number_of_peers as u64 {
            let mut more = self.finish_public_key_exchange();
            let ghost added = more@;
            actions.append(&mut more);
            assert(actions@.skip(1) =~= added);
        }
        actions
    }

    /// Starts the manager: the conference has just been joined.
    pub fn start_conference_manager(&mut self) -> (actions: Vec<ConferenceAction>)
        requires
            old(self).wf(),
            old(self).state is Initial,
        ensures
            final(self).wf(),
            started(old(self)@, final(self)@, actions@),
    {
        self.start_public_key_exchange()
    }

    /// Restructures the conference to `new_number_of_peers` peers, with
    /// `part` as the fresh local part of the ephemeral key.
    ///
    /// The keys collected are forgotten but the own one, `part` becomes the
    /// key under negotiation and no part is counted, and the exchange of
    /// public keys begins anew. The ring and the ephemeral key stay.
    pub fn restructure_with_part(
        &mut self,
        new_number_of_peers: NumberOfPeers,
        part: EncryptionKey,
    ) -> (actions: Vec<ConferenceAction>)
        requires
            old(self).wf(),
        ensures
            final(self).wf(),
            final(self)@.new_ephemeral_key == part,
            restructured(old(self)@, new_number_of_peers, final(self)@, actions@),
    {
        self.number_of_peers = new_number_of_peers;
        self.state = ConferenceState::PublicKeyExchange;
        self.ephemeral_key_parts = 0;
        self.unsorted_public_keys.clear();
        self.unsorted_public_keys.push(self.personal_public_key);
        proof {
            assert(self.unsorted_public_keys@[0] == self.personal_public_key);
            assert(self.unsorted_public_keys@.to_set() =~= set![self.personal_public_key]);
        }
        // the ring stays: frames of the epoch that ends may still come in
        self.new_ephemeral_key = part;
        self.start_public_key_exchange()
    }

    /// Restructures the conference to `new_number_of_peers` peers, with a
    /// fresh random local part of the ephemeral key.
    pub fn initiate_conference_restructuring(&mut self, new_number_of_peers: NumberOfPeers) -> (actions:
        Vec<ConferenceAction>)
        requires
            old(self).wf(),
        ensures
            final(self).wf(),
            restructured(old(self)@, new_number_of_peers, final(self)@, actions@),
    {
        let part = generate_ephemeral_key();
        self.restructure_with_part(new_number_of_peers, part)
    }

    /// Hands a signed message to the user interface, with the verdict on
    /// its signature.
    fn process_text_message(&self, message: &[u8]) -> (actions: Vec<ConferenceAction>)
        requires
            self.wf(),
        ensures
            text_received(self@, message@, self@, actions@),
    {
        let mut actions: Vec<ConferenceAction> = Vec::new();
        if let Some((text, is_signature_valid)) = self.check_message_signature(message) {
            actions.push(
                ConferenceAction::Notify(
                    UIEvent::IncomingMessage((self.conference_id, text, is_signature_valid)),
                ),
            );
        }
        actions
    }

    /// Adds a public key to the keys collected, unless it is there
    /// already.
    fn insert_public_key(&mut self, key: [u8; 32])
        requires
            old(self).wf(),
            old(self).state is PublicKeyExchange,
            ristretto_decodes(key@),
        ensures
            final(self).wf(),
            final(self)@ == (ConferenceModel {
                public_keys: old(self)@.public_keys.insert(key),
                ..old(self)@
            }),
    {
        let ghost before = self.unsorted_public_keys@;
        if position(&self.unsorted_public_keys, &key).is_none() {
            self.unsorted_public_keys.push(key);
            proof {
                before.lemma_push_to_set_commute(key);
                let after = self.unsorted_public_keys@;
                assert(after == before.push(key));
                assert(after.no_duplicates()) by {
                    assert forall|i: int, j: int|
                        0 <= i < after.len() && 0 <= j < after.len() && i != j implies after[i]
                        != after[j] by {
                        if i < before.len() {
                            assert(before.contains(after[i]));
                        }
                        if j < before.len() {
                            assert(before.contains(after[j]));
                        }
                    }
                }
                assert(after.contains(self.personal_public_key)) by {
                    let i = choose|i: int|
                        0 <= i < before.len() && before[i] == self.personal_public_key;
                    assert(after[i] == self.personal_public_key);
                }
                assert(ring_decodes(after)) by {
                    assert forall|i: int| 0 <= i < after.len() implies ristretto_decodes(
                        #[trigger] after[i]@,
                    ) by {
                        if i < before.len() {
                            assert(after[i] == before[i]);
                        }
                    }
                }
            }
        } else {
            assert(before.to_set().insert(key) =~= before.to_set());
        }
    }

    /// Handles a frame that comes in while public keys are exchanged.
    fn process_message_public_key_exchange(&mut self, message: &[u8]) -> (actions: Vec<
        ConferenceAction,
    >)
        requires
            old(self).wf(),
            old(self).state is PublicKeyExchange,
        ensures
            final(self).wf(),
            incoming(old(self)@, message@, final(self)@, actions@),
    {
        match self.read_message(message) {
            Some(ClientToClientMessage::PublicKey(pubkey)) => {
                proof {
                    lemma_key_of(pubkey);
                }
                if !is_valid_point(&pubkey) {
                    return Vec::new();
                }
                self.insert_public_key(pubkey);
                proof {
                    self.unsorted_public_keys@.unique_seq_to_set();
                }
                if self.unsorted_public_keys.len() as u64 == self.number_of_peers as u64 {
                    self.finish_public_key_exchange()
                } else {
                    Vec::new()
                }
            },
            Some(ClientToClientMessage::Message(message)) => {
                // late traffic of the epoch that ends
                self.process_text_message(message.as_slice())
            },
            _ => Vec::new(),
        }
    }

    /// Handles a frame that comes in while the ephemeral key is negotiated.
    fn process_message_ephemeral_key_negotiation(&mut self, message: &[u8]) -> (actions: Vec<
        ConferenceAction,
    >)
        requires
            old(self).wf(),
            old(self).state is EncryptionKeyNegotiation,
        ensures
            final(self).wf(),
            incoming(old(self)@, message@, final(self)@, actions@),
    {
        match self.read_message(message) {
            Some(ClientToClientMessage::EncryptionKeyPart(key_part)) => {
                if key_part.len() != KEY_SIZE {
                    return Vec::new();
                }
                apply_ephemeral_key_part(&mut self.new_ephemeral_key, key_part.as_slice());
                self.ephemeral_key_parts = self.ephemeral_key_parts + 1;
                let mut actions: Vec<ConferenceAction> = Vec::new();
                if self.ephemeral_key_parts == self.number_of_peers - 1 {
                    self.state = ConferenceState::EncryptionKeyNegotiationFinished;
                    let done = self.finish_conference_setup();
                    actions.push(done);
                }
                actions
            },
            Some(ClientToClientMessage::Message(message)) => {
                // late traffic of the epoch that ends
                self.process_text_message(message.as_slice())
            },
            _ => Vec::new(),
        }
    }

    /// Handles a frame that comes in during normal operation.
    fn process_message_normal_operation(&mut self, message: &[u8]) -> (actions: Vec<
        ConferenceAction,
    >)
        requires
            old(self).wf(),
            old(self).state is NormalOperation,
        ensures
            final(self).wf(),
            incoming(old(self)@, message@, final(self)@, actions@),
    {
        match self.read_message(message) {
            Some(ClientToClientMessage::Message(message)) => self.process_text_message(
                message.as_slice(),
            ),
            _ => Vec::new(),
        }
    }

    /// Handles a frame that the relay delivered for the conference.
    pub fn process_incoming_message(&mut self, message: &[u8]) -> (actions: Vec<ConferenceAction>)
        requires
            old(self).wf(),
        ensures
            final(self).wf(),
            incoming(old(self)@, message@, final(self)@, actions@),
    {
        match self.state {
            ConferenceState::PublicKeyExchange => self.process_message_public_key_exchange(
                message,
            ),
            ConferenceState::EncryptionKeyNegotiation => self.process_message_ephemeral_key_negotiation(
                message,
            ),
            ConferenceState::NormalOperation => self.process_message_normal_operation(message),
            _ => Vec::new(),
        }
    }

    /// Encrypts a message between peers and frames it for the relay: a
    /// public key or a key part under the initial key, a signed message
    /// under the ephemeral key. Fails exactly on a message too long for the
    /// cipher.
    pub fn send_message(&self, message: &ClientToClientMessage, message_id: Option<MessageID>) -> (frame:
        Option<Message>)
        requires
            message.encodable(),
            *message is Message ==> self.ephemeral_encryption_key is Some,
        ensures
            frame is Some <==> sealable(message.spec_encode().len() as int),
            frame matches Some(m) ==> sealed(
                m,
                self.conference_id,
                if *message is Message {
                    self.ephemeral_encryption_key.unwrap()@
                } else {
                    self.initial_encryption_key@
                },
                message.spec_encode(),
                message_id,
            ),
    {
        let plaintext = message.encode();
        match message {
            ClientToClientMessage::Message(_) => {
                let key = self.ephemeral_encryption_key.unwrap();
                self.seal(plaintext.as_slice(), &key, message_id)
            },
            _ => self.seal(plaintext.as_slice(), &self.initial_encryption_key, message_id),
        }
    }

    /// Handles a text that the user wants to send.
    pub fn process_outbound_message(&self, message_id: MessageID, message: &[u8]) -> (actions: Vec<
        ConferenceAction,
    >)
        requires
            self.wf(),
        ensures
            outbound(self@, message_id, message@, self@, actions@),
    {
        let mut actions: Vec<ConferenceAction> = Vec::new();
        let failed = ConferenceAction::Notify(
            UIEvent::MessageError((self.conference_id, message_id)),
        );
        match self.state {
            ConferenceState::NormalOperation => {
                let peers = self.ring.as_ref().unwrap().len();
                if peers as u64 > (u32::MAX as u64 - 64) / 32 || message.len() as u64
                    > u32::MAX as u64 {
                    actions.push(failed);
                    return actions;
                }
                let total: u64 = 32 * (peers as u64 + 2) + message.len() as u64;
                if total > u32::MAX as u64 || total + 21 > isize::MAX as u64 {
                    actions.push(failed);
                    return actions;
                }
                // sign message
                let signed_message = self.sign_message(message);
                // send message
                let text = ClientToClientMessage::Message(signed_message);
                proof {
                    assert(text.spec_encode().len() == total + 5);
                }
                // the length was tested above: the cipher takes the message
                let frame = self.send_message(&text, Some(message_id)).unwrap();
                actions.push(ConferenceAction::Send(frame));
                assert(sends(
                    actions@[0],
                    self.conference_id,
                    self.ephemeral_encryption_key.unwrap()@,
                    text_message(text->Message_0@),
                    Some(message_id),
                ));
            },
            _ => {
                actions.push(failed);
            },
        }
        actions
    }

    /// Handles an event of the conference.
    pub fn handle_event(&mut self, event: ConferenceEvent) -> (actions: Vec<ConferenceAction>)
        requires
            old(self).wf(),
        ensures
            final(self).wf(),
            conference_step(old(self)@, event, final(self)@, actions@),
    {
        match event {
            ConferenceEvent::ConferenceRestructuring(number_of_peers) => self.initiate_conference_restructuring(
                number_of_peers,
            ),
            ConferenceEvent::IncomingMessage(message) => self.process_incoming_message(
                message.as_slice(),
            ),
            ConferenceEvent::OutboundMessage((message_id, message)) => self.process_outbound_message(
                message_id,
                message.as_slice(),
            ),
        }
    }

    /// Overwrites the private key and the encryption keys with zeros, for
    /// the end of the manager's life. What is left is no longer a working
    /// manager.
    pub fn zeroize(&mut self)
        ensures
            final(self).personal_private_key@ == zero_key(),
            final(self).initial_encryption_key@ == zero_key(),
            final(self).new_ephemeral_key@ == zero_key(),
            final(self).ephemeral_encryption_key is None,
            final(self).conference_id == old(self).conference_id,
    {
        self.personal_private_key = [0u8; 32];
        self.initial_encryption_key = [0u8; 32];
        self.new_ephemeral_key = [0u8; 32];
        if self.ephemeral_encryption_key.is_some() {
            self.ephemeral_encryption_key = Some([0u8; 32]);
        }
        self.ephemeral_encryption_key = None;
        proof {
            assert(self.personal_private_key@ =~= zero_key());
            assert(self.initial_encryption_key@ =~= zero_key());
            assert(self.new_ephemeral_key@ =~= zero_key());
        }
    }
}

} // verus!
