use anonymous_conference::conference_manager::{
    ClientToClientMessage, ConferenceAction, ConferenceManager, ConferenceState,
};
use anonymous_conference::constants::{ConferenceEvent, Message, UIEvent};
use anonymous_conference::crypto::{
    decrypt_message, encrypt_message, generate_private_key, is_canonical_scalar, is_valid_point,
    public_key, EncryptionResult,
};

const CONFERENCE: u32 = 7;
const INITIAL_KEY: [u8; 32] = [0x11; 32];

/// The frames among `actions`, in their order.
fn frames(actions: &[ConferenceAction]) -> Vec<Message> {
    actions
        .iter()
        .filter_map(|action| match action {
            ConferenceAction::Send(message) => Some(message.clone()),
            _ => None,
        })
        .collect()
}

/// The events for the user interface among `actions`, in their order.
fn notices(actions: Vec<ConferenceAction>) -> Vec<UIEvent> {
    actions
        .into_iter()
        .filter_map(|action| match action {
            ConferenceAction::Notify(event) => Some(event),
            _ => None,
        })
        .collect()
}

/// The plaintext of a frame under `key`.
fn open(frame: &Message, key: &[u8; 32]) -> Vec<u8> {
    decrypt_message(key, &EncryptionResult::decode(&frame.message).unwrap()).unwrap()
}

/// A frame of the conference that holds `plaintext` under `key`.
fn seal(plaintext: &[u8], key: &[u8; 32]) -> Vec<u8> {
    encrypt_message(plaintext, key).unwrap().encode()
}

fn deliver(manager: &mut ConferenceManager, frame: &Message) -> Vec<ConferenceAction> {
    manager.handle_event(ConferenceEvent::IncomingMessage(frame.message.clone()))
}

/// Two peers that have exchanged keys and parts and are in normal operation.
fn pair() -> (ConferenceManager, ConferenceManager) {
    let mut a = ConferenceManager::new(CONFERENCE, 2, INITIAL_KEY);
    let mut b = ConferenceManager::new(CONFERENCE, 2, INITIAL_KEY);
    let key_a = frames(&a.start_conference_manager());
    let key_b = frames(&b.start_conference_manager());
    let part_b = frames(&deliver(&mut b, &key_a[0]));
    let part_a = frames(&deliver(&mut a, &key_b[0]));
    deliver(&mut a, &part_b[0]);
    deliver(&mut b, &part_a[0]);
    (a, b)
}

#[test]
fn test_start_conference_manager() {
    let mut conference_manager = ConferenceManager::new(0, 1, [0; 32]);
    conference_manager.start_conference_manager();
}

#[test]
fn new_manager_holds_its_own_key_only() {
    let manager = ConferenceManager::new(CONFERENCE, 3, INITIAL_KEY);
    assert_eq!(manager.conference_id, CONFERENCE);
    assert_eq!(manager.number_of_peers, 3);
    assert_eq!(manager.initial_encryption_key, INITIAL_KEY);
    assert_eq!(manager.state, ConferenceState::Initial);
    assert!(is_canonical_scalar(&manager.personal_private_key));
    assert!(is_valid_point(&manager.personal_public_key));
    assert_eq!(manager.personal_public_key, public_key(&manager.personal_private_key));
    assert_eq!(manager.unsorted_public_keys, vec![manager.personal_public_key]);
    assert_eq!(manager.ring, None);
    assert_eq!(manager.ring_personal_key_index, None);
    assert_eq!(manager.ephemeral_key_parts, 0);
    assert_eq!(manager.ephemeral_encryption_key, None);
    let other = ConferenceManager::new(CONFERENCE, 3, INITIAL_KEY);
    assert_ne!(manager.personal_private_key, other.personal_private_key);
    assert_ne!(manager.new_ephemeral_key, other.new_ephemeral_key);
}

#[test]
fn manager_with_given_keys_holds_them() {
    let private = generate_private_key();
    let manager = ConferenceManager::with_keys(CONFERENCE, 2, INITIAL_KEY, private, [0x22; 32]);
    assert_eq!(manager.personal_private_key, private);
    assert_eq!(manager.personal_public_key, public_key(&private));
    assert_eq!(manager.new_ephemeral_key, [0x22; 32]);
    assert_eq!(manager.state, ConferenceState::Initial);
}

#[test]
fn conference_of_one_is_set_up_at_once() {
    let mut manager = ConferenceManager::new(CONFERENCE, 1, INITIAL_KEY);
    let part = manager.new_ephemeral_key;
    let actions = manager.start_conference_manager();
    assert_eq!(actions.len(), 3);
    let sent = frames(&actions);
    assert_eq!(sent.len(), 2);
    assert_eq!(sent[0].conference, CONFERENCE);
    assert_eq!(sent[0].message_id, None);
    let mut expected = vec![0x01];
    expected.extend_from_slice(&manager.personal_public_key);
    assert_eq!(open(&sent[0], &INITIAL_KEY), expected);
    let mut expected = vec![0x02];
    expected.extend_from_slice(&part);
    assert_eq!(open(&sent[1], &INITIAL_KEY), expected);
    assert_eq!(
        actions[2],
        ConferenceAction::Notify(UIEvent::ConferenceRestructuringFinished(CONFERENCE))
    );
    assert_eq!(manager.state, ConferenceState::NormalOperation);
    assert_eq!(manager.ring, Some(vec![manager.personal_public_key]));
    assert_eq!(manager.ring_personal_key_index, Some(0));
    assert_eq!(manager.ephemeral_encryption_key, Some(part));
}

#[test]
fn start_broadcasts_the_public_key_under_the_initial_key() {
    let mut manager = ConferenceManager::new(CONFERENCE, 2, INITIAL_KEY);
    let actions = manager.start_conference_manager();
    assert_eq!(actions.len(), 1);
    let sent = frames(&actions);
    assert_eq!(sent[0].conference, CONFERENCE);
    assert_eq!(sent[0].message_id, None);
    let plaintext = open(&sent[0], &INITIAL_KEY);
    assert_eq!(plaintext.len(), 33);
    assert_eq!(plaintext[0], 0x01);
    assert_eq!(&plaintext[1..], &manager.personal_public_key[..]);
    assert_eq!(manager.state, ConferenceState::PublicKeyExchange);
    assert_eq!(manager.ring, None);
}

#[test]
fn two_peers_agree_on_ring_and_key_and_talk() {
    let mut a = ConferenceManager::new(CONFERENCE, 2, INITIAL_KEY);
    let mut b = ConferenceManager::new(CONFERENCE, 2, INITIAL_KEY);
    let part_of_a = a.new_ephemeral_key;
    let part_of_b = b.new_ephemeral_key;
    let key_a = frames(&a.start_conference_manager());
    let key_b = frames(&b.start_conference_manager());

    let from_b = deliver(&mut b, &key_a[0]);
    assert_eq!(from_b.len(), 1);
    assert_eq!(b.state, ConferenceState::EncryptionKeyNegotiation);
    let mut expected = vec![0x02];
    expected.extend_from_slice(&part_of_b);
    assert_eq!(open(&frames(&from_b)[0], &INITIAL_KEY), expected);

    let from_a = deliver(&mut a, &key_b[0]);
    assert_eq!(a.state, ConferenceState::EncryptionKeyNegotiation);
    assert_eq!(a.ring, b.ring);
    let mut sorted = vec![a.personal_public_key, b.personal_public_key];
    sorted.sort_unstable();
    assert_eq!(a.ring, Some(sorted.clone()));
    assert_eq!(sorted[a.ring_personal_key_index.unwrap()], a.personal_public_key);
    assert_eq!(sorted[b.ring_personal_key_index.unwrap()], b.personal_public_key);

    let done_a = deliver(&mut a, &frames(&from_b)[0]);
    assert_eq!(
        done_a,
        vec![ConferenceAction::Notify(UIEvent::ConferenceRestructuringFinished(CONFERENCE))]
    );
    let done_b = deliver(&mut b, &frames(&from_a)[0]);
    assert_eq!(
        done_b,
        vec![ConferenceAction::Notify(UIEvent::ConferenceRestructuringFinished(CONFERENCE))]
    );
    assert_eq!(a.state, ConferenceState::NormalOperation);
    assert_eq!(b.state, ConferenceState::NormalOperation);
    let mut expected = [0u8; 32];
    for i in 0..32 {
        expected[i] = part_of_a[i] ^ part_of_b[i];
    }
    assert_eq!(a.ephemeral_encryption_key, Some(expected));
    assert_eq!(b.ephemeral_encryption_key, Some(expected));

    let sent = a.handle_event(ConferenceEvent::OutboundMessage((1, b"hi".to_vec())));
    assert_eq!(sent.len(), 1);
    let frame = &frames(&sent)[0];
    assert_eq!(frame.conference, CONFERENCE);
    assert_eq!(frame.message_id, Some(1));
    let received = deliver(&mut b, frame);
    assert_eq!(
        received,
        vec![ConferenceAction::Notify(UIEvent::IncomingMessage((CONFERENCE, b"hi".to_vec(), true)))]
    );
}

#[test]
fn three_peers_agree_whatever_the_order_of_arrival() {
    let mut peers: Vec<ConferenceManager> =
        (0..3).map(|_| ConferenceManager::new(CONFERENCE, 3, INITIAL_KEY)).collect();
    let parts: Vec<[u8; 32]> = peers.iter().map(|peer| peer.new_ephemeral_key).collect();
    let keys: Vec<Message> =
        peers.iter_mut().map(|peer| frames(&peer.start_conference_manager())[0].clone()).collect();
    let orders = [[1usize, 2], [2, 0], [0, 1]];
    let mut part_frames: Vec<Option<Message>> = vec![None, None, None];
    for (me, order) in orders.iter().enumerate() {
        let first = deliver(&mut peers[me], &keys[order[0]]);
        assert_eq!(first, vec![]);
        let second = deliver(&mut peers[me], &keys[order[1]]);
        part_frames[me] = Some(frames(&second)[0].clone());
    }
    for (me, order) in orders.iter().enumerate() {
        let first = part_frames[order[1]].clone().unwrap();
        assert_eq!(deliver(&mut peers[me], &first), vec![]);
        let second = part_frames[order[0]].clone().unwrap();
        assert_eq!(
            deliver(&mut peers[me], &second),
            vec![ConferenceAction::Notify(UIEvent::ConferenceRestructuringFinished(CONFERENCE))]
        );
    }
    let mut expected = [0u8; 32];
    for i in 0..32 {
        expected[i] = parts[0][i] ^ parts[1][i] ^ parts[2][i];
    }
    let mut ring: Vec<[u8; 32]> = peers.iter().map(|peer| peer.personal_public_key).collect();
    ring.sort_unstable();
    for peer in &peers {
        assert_eq!(peer.ephemeral_encryption_key, Some(expected));
        assert_eq!(peer.ring, Some(ring.clone()));
        assert_eq!(peer.state, ConferenceState::NormalOperation);
    }
    let sent = peers[2].handle_event(ConferenceEvent::OutboundMessage((9, b"to all".to_vec())));
    let frame = frames(&sent)[0].clone();
    for receiver in 0..2 {
        assert_eq!(
            deliver(&mut peers[receiver], &frame),
            vec![ConferenceAction::Notify(UIEvent::IncomingMessage((
                CONFERENCE,
                b"to all".to_vec(),
                true
            )))]
        );
    }
}

#[test]
fn repeated_and_own_public_keys_count_once() {
    let mut a = ConferenceManager::new(CONFERENCE, 3, INITIAL_KEY);
    let mut b = ConferenceManager::new(CONFERENCE, 3, INITIAL_KEY);
    let key_a = frames(&a.start_conference_manager());
    let key_b = frames(&b.start_conference_manager());
    assert_eq!(deliver(&mut a, &key_b[0]), vec![]);
    assert_eq!(deliver(&mut a, &key_b[0]), vec![]);
    assert_eq!(deliver(&mut a, &key_a[0]), vec![]);
    assert_eq!(a.unsorted_public_keys.len(), 2);
    assert_eq!(a.state, ConferenceState::PublicKeyExchange);
}

#[test]
fn outbound_message_before_normal_operation_is_an_error() {
    let mut manager = ConferenceManager::new(CONFERENCE, 2, INITIAL_KEY);
    let failed = vec![ConferenceAction::Notify(UIEvent::MessageError((CONFERENCE, 5)))];
    assert_eq!(manager.handle_event(ConferenceEvent::OutboundMessage((5, b"x".to_vec()))), failed);
    manager.start_conference_manager();
    assert_eq!(manager.handle_event(ConferenceEvent::OutboundMessage((5, b"x".to_vec()))), failed);
    let mut other = ConferenceManager::new(CONFERENCE, 2, INITIAL_KEY);
    let key = frames(&other.start_conference_manager());
    deliver(&mut manager, &key[0]);
    assert_eq!(manager.state, ConferenceState::EncryptionKeyNegotiation);
    assert_eq!(manager.handle_event(ConferenceEvent::OutboundMessage((5, b"x".to_vec()))), failed);
}

#[test]
fn outbound_message_is_signed_framed_and_encrypted_under_the_ephemeral_key() {
    let (a, b) = pair();
    let sent = a.process_outbound_message(3, b"payload");
    let frame = &frames(&sent)[0];
    assert_eq!(frame.message_id, Some(3));
    let key = a.ephemeral_encryption_key.unwrap();
    assert!(decrypt_message(&INITIAL_KEY, &EncryptionResult::decode(&frame.message).unwrap()).is_err());
    let plaintext = open(frame, &key);
    let signed_length = 32 * 4 + 7;
    assert_eq!(plaintext.len(), 5 + signed_length);
    assert_eq!(plaintext[0], 0x03);
    assert_eq!(&plaintext[1..5], &(signed_length as u32).to_be_bytes());
    assert_eq!(&plaintext[plaintext.len() - 7..], b"payload");
    assert_eq!(b.check_message_signature(&plaintext[5..]), Some((b"payload".to_vec(), true)));
}

#[test]
fn frames_are_dropped_in_the_initial_state() {
    let mut a = ConferenceManager::new(CONFERENCE, 2, INITIAL_KEY);
    let mut b = ConferenceManager::new(CONFERENCE, 2, INITIAL_KEY);
    let key_b = frames(&b.start_conference_manager());
    assert_eq!(deliver(&mut a, &key_b[0]), vec![]);
    assert_eq!(a.unsorted_public_keys.len(), 1);
    assert_eq!(a.state, ConferenceState::Initial);
}

#[test]
fn malformed_frames_are_dropped() {
    let (mut a, _) = pair();
    let key = a.ephemeral_encryption_key.unwrap();
    let garbage: Vec<Vec<u8>> = vec![
        vec![],
        vec![1, 2, 3],
        vec![0; 27],
        vec![0; 28],
        vec![0xFF; 100],
        seal(b"", &key),
        seal(&[0x00], &key),
        seal(&[0x04, 1, 2, 3], &key),
        seal(&[0x01; 32], &key),
        seal(&[0x01; 34], &key),
        seal(&[0x03, 0, 0], &key),
        seal(&[0x03, 0, 0, 0, 9, 1, 2], &key),
        seal(&[0x03, 0, 0, 0, 3, 1, 2, 3], &key),
        seal(&[0x03, 0, 0, 0, 0], &[0x99; 32]),
    ];
    for frame in garbage {
        assert_eq!(a.handle_event(ConferenceEvent::IncomingMessage(frame)), vec![]);
    }
    assert_eq!(a.state, ConferenceState::NormalOperation);
}

#[test]
fn unexpected_setup_messages_are_dropped() {
    let mut a = ConferenceManager::new(CONFERENCE, 2, INITIAL_KEY);
    let mut b = ConferenceManager::new(CONFERENCE, 2, INITIAL_KEY);
    let key_a = frames(&a.start_conference_manager());
    let key_b = frames(&b.start_conference_manager());
    let part_b = frames(&deliver(&mut b, &key_a[0]));
    // a key part during the exchange of public keys
    let before = a.new_ephemeral_key;
    assert_eq!(deliver(&mut a, &part_b[0]), vec![]);
    assert_eq!(a.new_ephemeral_key, before);
    assert_eq!(a.ephemeral_key_parts, 0);
    // a public key during the negotiation
    deliver(&mut a, &key_b[0]);
    assert_eq!(a.state, ConferenceState::EncryptionKeyNegotiation);
    let stranger = ConferenceManager::new(CONFERENCE, 2, INITIAL_KEY).personal_public_key;
    let mut plaintext = vec![0x01];
    plaintext.extend_from_slice(&stranger);
    assert_eq!(
        a.handle_event(ConferenceEvent::IncomingMessage(seal(&plaintext, &INITIAL_KEY))),
        vec![]
    );
    assert_eq!(a.unsorted_public_keys.len(), 2);
    // a key part of the wrong length
    for length in [0usize, 31, 33] {
        let mut plaintext = vec![0x02];
        plaintext.extend_from_slice(&vec![0x55; length]);
        assert_eq!(
            a.handle_event(ConferenceEvent::IncomingMessage(seal(&plaintext, &INITIAL_KEY))),
            vec![]
        );
    }
    assert_eq!(a.new_ephemeral_key, before);
    assert_eq!(a.ephemeral_key_parts, 0);
    // setup messages in normal operation
    deliver(&mut a, &part_b[0]);
    assert_eq!(a.state, ConferenceState::NormalOperation);
    let key = a.ephemeral_encryption_key;
    assert_eq!(deliver(&mut a, &part_b[0]), vec![]);
    assert_eq!(deliver(&mut a, &key_b[0]), vec![]);
    assert_eq!(a.ephemeral_encryption_key, key);
}

#[test]
fn public_key_that_is_no_point_is_dropped() {
    let mut a = ConferenceManager::new(CONFERENCE, 2, INITIAL_KEY);
    a.start_conference_manager();
    let mut plaintext = vec![0x01];
    plaintext.extend_from_slice(&[0xFF; 32]);
    assert_eq!(
        a.handle_event(ConferenceEvent::IncomingMessage(seal(&plaintext, &INITIAL_KEY))),
        vec![]
    );
    assert_eq!(a.unsorted_public_keys.len(), 1);
    assert_eq!(a.state, ConferenceState::PublicKeyExchange);
}

#[test]
fn restructuring_begins_a_new_exchange_and_keeps_ring_and_key() {
    let (mut a, _) = pair();
    let ring = a.ring.clone();
    let index = a.ring_personal_key_index;
    let key = a.ephemeral_encryption_key;
    let part = a.new_ephemeral_key;
    let actions = a.handle_event(ConferenceEvent::ConferenceRestructuring(3));
    assert_eq!(actions.len(), 1);
    let mut expected = vec![0x01];
    expected.extend_from_slice(&a.personal_public_key);
    assert_eq!(open(&frames(&actions)[0], &INITIAL_KEY), expected);
    assert_eq!(a.number_of_peers, 3);
    assert_eq!(a.state, ConferenceState::PublicKeyExchange);
    assert_eq!(a.unsorted_public_keys, vec![a.personal_public_key]);
    assert_eq!(a.ephemeral_key_parts, 0);
    assert_ne!(a.new_ephemeral_key, part);
    assert_eq!(a.ring, ring);
    assert_eq!(a.ring_personal_key_index, index);
    assert_eq!(a.ephemeral_encryption_key, key);
}

#[test]
fn late_message_of_the_previous_epoch_is_read_during_restructuring() {
    let (mut a, b) = pair();
    let late = frames(&b.process_outbound_message(1, b"late"))[0].clone();
    a.handle_event(ConferenceEvent::ConferenceRestructuring(3));
    assert_eq!(a.state, ConferenceState::PublicKeyExchange);
    assert_eq!(
        deliver(&mut a, &late),
        vec![ConferenceAction::Notify(UIEvent::IncomingMessage((CONFERENCE, b"late".to_vec(), true)))]
    );
    // and during the negotiation that follows
    let mut c = ConferenceManager::new(CONFERENCE, 2, INITIAL_KEY);
    a.handle_event(ConferenceEvent::ConferenceRestructuring(2));
    let key_c = frames(&c.start_conference_manager());
    deliver(&mut a, &key_c[0]);
    assert_eq!(a.state, ConferenceState::EncryptionKeyNegotiation);
    assert_eq!(a.ring.clone().unwrap().len(), 2);
    assert!(!a.ring.clone().unwrap().contains(&b.personal_public_key));
    // the ring has changed: the late message decrypts, its signature no longer verifies
    assert_eq!(
        deliver(&mut a, &late),
        vec![ConferenceAction::Notify(UIEvent::IncomingMessage((CONFERENCE, b"late".to_vec(), false)))]
    );
}

#[test]
fn restructuring_to_one_peer_finishes_at_once_with_a_fresh_key() {
    let (mut a, _) = pair();
    let old_key = a.ephemeral_encryption_key;
    let actions = a.handle_event(ConferenceEvent::ConferenceRestructuring(1));
    assert_eq!(actions.len(), 3);
    assert_eq!(
        actions[2],
        ConferenceAction::Notify(UIEvent::ConferenceRestructuringFinished(CONFERENCE))
    );
    assert_eq!(a.state, ConferenceState::NormalOperation);
    assert_eq!(a.ring, Some(vec![a.personal_public_key]));
    assert_eq!(a.ephemeral_encryption_key, Some(a.new_ephemeral_key));
    assert_ne!(a.ephemeral_encryption_key, old_key);
}

#[test]
fn message_under_the_initial_key_is_read_in_normal_operation() {
    let (mut a, b) = pair();
    let signed = b.sign_message(b"fallback");
    let plaintext = ClientToClientMessage::Message(signed).encode();
    let frame = seal(&plaintext, &INITIAL_KEY);
    assert_eq!(
        a.handle_event(ConferenceEvent::IncomingMessage(frame)),
        vec![ConferenceAction::Notify(UIEvent::IncomingMessage((
            CONFERENCE,
            b"fallback".to_vec(),
            true
        )))]
    );
}

#[test]
fn tampered_signature_is_delivered_as_invalid() {
    let (mut a, b) = pair();
    let key = a.ephemeral_encryption_key.unwrap();
    let signed = b.sign_message(b"hello");
    assert_eq!(signed.len(), 32 * 4 + 5);

    // another key image, a point as well
    let mut other_image = signed.clone();
    other_image[96..128].copy_from_slice(&a.personal_public_key);
    // another text
    let mut other_text = signed.clone();
    other_text[128] ^= 0x01;
    let mut expected_text = b"hello".to_vec();
    expected_text[0] ^= 0x01;
    // another challenge, a scalar as well
    let mut other_challenge = signed.clone();
    other_challenge[..32].copy_from_slice(&a.personal_private_key);

    for (tampered, text) in [
        (other_image, b"hello".to_vec()),
        (other_text, expected_text),
        (other_challenge, b"hello".to_vec()),
    ] {
        let frame = seal(&ClientToClientMessage::Message(tampered).encode(), &key);
        assert_eq!(
            a.handle_event(ConferenceEvent::IncomingMessage(frame)),
            vec![ConferenceAction::Notify(UIEvent::IncomingMessage((CONFERENCE, text, false)))]
        );
    }
    let frame = seal(&ClientToClientMessage::Message(signed).encode(), &key);
    assert_eq!(
        a.handle_event(ConferenceEvent::IncomingMessage(frame)),
        vec![ConferenceAction::Notify(UIEvent::IncomingMessage((
            CONFERENCE,
            b"hello".to_vec(),
            true
        )))]
    );
}

#[test]
fn signed_message_with_a_malformed_signature_is_dropped() {
    let (mut a, b) = pair();
    let key = a.ephemeral_encryption_key.unwrap();
    let signed = b.sign_message(b"hello");
    let mut bad_image = signed.clone();
    bad_image[96..128].copy_from_slice(&[0xFF; 32]);
    let mut bad_scalar = signed.clone();
    bad_scalar[32..64].copy_from_slice(&[0xFF; 32]);
    let too_short = signed[..100].to_vec();
    for malformed in [bad_image, bad_scalar, too_short] {
        assert_eq!(a.check_message_signature(&malformed), None);
        let frame = seal(&ClientToClientMessage::Message(malformed).encode(), &key);
        assert_eq!(a.handle_event(ConferenceEvent::IncomingMessage(frame)), vec![]);
    }
}

#[test]
fn signed_message_without_a_ring_is_dropped() {
    let mut a = ConferenceManager::new(CONFERENCE, 2, INITIAL_KEY);
    let (b, _) = pair();
    a.start_conference_manager();
    let signed = b.sign_message(b"early");
    assert_eq!(a.check_message_signature(&signed), None);
    let frame = seal(&ClientToClientMessage::Message(signed).encode(), &INITIAL_KEY);
    assert_eq!(a.handle_event(ConferenceEvent::IncomingMessage(frame)), vec![]);
}

#[test]
fn peer_messages_have_their_wire_forms() {
    let mut expected = vec![0x01];
    expected.extend_from_slice(&[7; 32]);
    assert_eq!(ClientToClientMessage::PublicKey([7; 32]).encode(), expected);
    assert_eq!(ClientToClientMessage::EncryptionKeyPart(vec![1, 2, 3]).encode(), vec![0x02, 1, 2, 3]);
    assert_eq!(ClientToClientMessage::EncryptionKeyPart(vec![]).encode(), vec![0x02]);
    assert_eq!(
        ClientToClientMessage::Message(vec![9, 8, 7]).encode(),
        vec![0x03, 0, 0, 0, 3, 9, 8, 7]
    );
    assert_eq!(ClientToClientMessage::Message(vec![]).encode(), vec![0x03, 0, 0, 0, 0]);
    let long = ClientToClientMessage::Message(vec![5; 0x0102]).encode();
    assert_eq!(&long[..5], &[0x03, 0, 0, 1, 2]);
    assert_eq!(long.len(), 5 + 0x0102);
}

#[test]
fn peer_messages_are_read_back() {
    let messages = [
        ClientToClientMessage::PublicKey([7; 32]),
        ClientToClientMessage::EncryptionKeyPart(vec![1; 32]),
        ClientToClientMessage::EncryptionKeyPart(vec![]),
        ClientToClientMessage::Message(vec![]),
        ClientToClientMessage::Message(vec![3; 300]),
    ];
    for message in messages {
        assert_eq!(ClientToClientMessage::decode(&message.encode()), Some(message));
    }
    assert_eq!(ClientToClientMessage::decode(&[]), None);
    assert_eq!(ClientToClientMessage::decode(&[0x00, 1]), None);
    assert_eq!(ClientToClientMessage::decode(&[0x04, 1]), None);
    assert_eq!(ClientToClientMessage::decode(&[0x01; 32]), None);
    assert_eq!(ClientToClientMessage::decode(&[0x01; 34]), None);
    assert_eq!(ClientToClientMessage::decode(&[0x03, 0, 0, 0]), None);
    assert_eq!(ClientToClientMessage::decode(&[0x03, 0, 0, 0, 1]), None);
    assert_eq!(ClientToClientMessage::decode(&[0x03, 0, 0, 0, 1, 1, 1]), None);
    assert_eq!(ClientToClientMessage::decode(&[0x03, 1, 0, 0, 0]), None);
}

#[test]
fn send_message_picks_the_key_by_the_kind_of_message() {
    let (a, _) = pair();
    let ephemeral = a.ephemeral_encryption_key.unwrap();
    let setup = a.send_message(&ClientToClientMessage::PublicKey([7; 32]), None).unwrap();
    assert_eq!(open(&setup, &INITIAL_KEY).len(), 33);
    assert_eq!(setup.message_id, None);
    let part = a.send_message(&ClientToClientMessage::EncryptionKeyPart(vec![1; 32]), None).unwrap();
    assert_eq!(open(&part, &INITIAL_KEY)[0], 0x02);
    let text = a.send_message(&ClientToClientMessage::Message(vec![1, 2]), Some(8)).unwrap();
    assert_eq!(open(&text, &ephemeral), vec![0x03, 0, 0, 0, 2, 1, 2]);
    assert_eq!(text.message_id, Some(8));
    assert_eq!(text.conference, CONFERENCE);
}

#[test]
fn frames_are_tried_under_both_keys() {
    let (mut a, _) = pair();
    let ephemeral = a.ephemeral_encryption_key.unwrap();
    assert_eq!(a.decrypt_message_helper(&seal(b"one", &ephemeral)), Some(b"one".to_vec()));
    assert_eq!(a.decrypt_message_helper(&seal(b"two", &INITIAL_KEY)), Some(b"two".to_vec()));
    assert_eq!(a.decrypt_message_helper(&seal(b"three", &[9; 32])), None);
    assert_eq!(a.decrypt_message_helper(&[1, 2, 3]), None);
    a.handle_event(ConferenceEvent::ConferenceRestructuring(5));
    assert_eq!(a.decrypt_message_helper(&seal(b"one", &ephemeral)), Some(b"one".to_vec()));
    assert_eq!(a.decrypt_message_helper(&seal(b"two", &INITIAL_KEY)), Some(b"two".to_vec()));
    let fresh = ConferenceManager::new(CONFERENCE, 2, INITIAL_KEY);
    assert_eq!(fresh.decrypt_message_helper(&seal(b"two", &INITIAL_KEY)), Some(b"two".to_vec()));
    assert_eq!(fresh.decrypt_message_helper(&seal(b"one", &ephemeral)), None);
}

#[test]
fn zeroize_wipes_the_keys() {
    let (mut a, _) = pair();
    a.zeroize();
    assert_eq!(a.personal_private_key, [0; 32]);
    assert_eq!(a.initial_encryption_key, [0; 32]);
    assert_eq!(a.new_ephemeral_key, [0; 32]);
    assert_eq!(a.ephemeral_encryption_key, None);
    assert_eq!(a.conference_id, CONFERENCE);
}

#[test]
fn restructuring_takes_the_part_given() {
    let (mut a, _) = pair();
    let ring = a.ring.clone();
    let key = a.ephemeral_encryption_key;
    let actions = a.restructure_with_part(3, [0x77; 32]);
    assert_eq!(actions.len(), 1);
    let mut expected = vec![0x01];
    expected.extend_from_slice(&a.personal_public_key);
    assert_eq!(open(&frames(&actions)[0], &INITIAL_KEY), expected);
    assert_eq!(a.new_ephemeral_key, [0x77; 32]);
    assert_eq!(a.number_of_peers, 3);
    assert_eq!(a.state, ConferenceState::PublicKeyExchange);
    assert_eq!(a.unsorted_public_keys, vec![a.personal_public_key]);
    assert_eq!(a.ephemeral_key_parts, 0);
    assert_eq!(a.ring, ring);
    assert_eq!(a.ephemeral_encryption_key, key);
    assert_eq!(a.initial_encryption_key, INITIAL_KEY);
}

#[test]
fn restructuring_to_one_peer_makes_the_part_given_the_key() {
    let (mut a, _) = pair();
    let actions = a.restructure_with_part(1, [0x78; 32]);
    assert_eq!(actions.len(), 3);
    let sent = frames(&actions);
    let mut expected = vec![0x02];
    expected.extend_from_slice(&[0x78; 32]);
    assert_eq!(open(&sent[1], &INITIAL_KEY), expected);
    assert_eq!(a.ephemeral_encryption_key, Some([0x78; 32]));
    assert_eq!(a.state, ConferenceState::NormalOperation);
}

#[test]
fn restructuring_broadcasts_the_fresh_part_not_the_key_in_use() {
    let (mut a, _) = pair();
    let in_use = a.ephemeral_encryption_key.unwrap();
    assert_eq!(a.new_ephemeral_key, in_use);
    let mut b = ConferenceManager::new(CONFERENCE, 2, INITIAL_KEY);
    a.handle_event(ConferenceEvent::ConferenceRestructuring(2));
    assert_ne!(a.new_ephemeral_key, in_use);
    let key_b = frames(&b.start_conference_manager());
    let part = frames(&deliver(&mut a, &key_b[0]));
    let plaintext = open(&part[0], &INITIAL_KEY);
    assert_eq!(plaintext[0], 0x02);
    assert_ne!(&plaintext[1..], &in_use[..]);
    assert_eq!(&plaintext[1..], &a.new_ephemeral_key[..]);
}
