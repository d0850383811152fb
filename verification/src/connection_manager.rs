//! The client-server wire protocol: the handshake banner, the frames the
//! client writes and the length-driven reading of the frames the relay
//! sends. All integers are big-endian.

use crate::bytes::{
    array_at, be_bytes, be_value, lemma_be_bytes_of_value, lemma_be_value_of_bytes, range_of,
    u32_from_be_bytes, u32_to_be_bytes,
};
use crate::constants::{
    discriminator_kind, is_server_discriminator, ClientEvent, ServerEvent,
    ServerToClientMessageTypePrimitive,
};
use vstd::prelude::*;

verus! {

/// Judges the relay's answer to the banner: only the byte of
/// `HandshakeAcknowledged` completes the handshake.
pub fn handle_handshake(server_response: u8) -> (result: Result<(), ()>)
    ensures
        result is Ok <==> server_response
            == ServerToClientMessageTypePrimitive::HandshakeAcknowledged.spec_value(),
{
    if server_response != ServerToClientMessageTypePrimitive::HandshakeAcknowledged.value() {
        return Err(());
    }
    Ok(())
}

/// What `read_server_event` found in the bytes that follow a
/// discriminator.
#[derive(Debug, PartialEq, Eq)]
pub enum ServerFrame {
    /// A whole event, and the number of body bytes that it took.
    Complete((ServerEvent, usize)),
    /// The body is too short to decide: at least this many body bytes are
    /// needed before reading again.
    Incomplete(usize),
}

/// The kind of frame that carries `event`.
pub open spec fn server_event_kind(event: ServerEvent) -> ServerToClientMessageTypePrimitive {
    match event {
        ServerEvent::HandshakeAcknowledged => ServerToClientMessageTypePrimitive::HandshakeAcknowledged,
        ServerEvent::ConferenceCreated(_) => ServerToClientMessageTypePrimitive::ConferenceCreated,
        ServerEvent::ConferenceJoinSalt(_) => ServerToClientMessageTypePrimitive::ConferenceJoinSalt,
        ServerEvent::ConferenceJoined(_) => ServerToClientMessageTypePrimitive::ConferenceJoined,
        ServerEvent::ConferenceLeft(_) => ServerToClientMessageTypePrimitive::ConferenceLeft,
        ServerEvent::MessageAccepted(_) => ServerToClientMessageTypePrimitive::MessageAccepted,
        ServerEvent::ConferenceRestructuring(_) => ServerToClientMessageTypePrimitive::ConferenceRestructuring,
        ServerEvent::IncomingMessage(_) => ServerToClientMessageTypePrimitive::IncomingMessage,
        ServerEvent::GeneralError => ServerToClientMessageTypePrimitive::GeneralError,
        ServerEvent::ConferenceCreationError(_) => ServerToClientMessageTypePrimitive::ConferenceCreationError,
        ServerEvent::ConferenceJoinSaltError(_) => ServerToClientMessageTypePrimitive::ConferenceJoinSaltError,
        ServerEvent::ConferenceJoinError(_) => ServerToClientMessageTypePrimitive::ConferenceJoinError,
        ServerEvent::ConferenceLeaveError(_) => ServerToClientMessageTypePrimitive::ConferenceLeaveError,
        ServerEvent::MessageError(_) => ServerToClientMessageTypePrimitive::MessageError,
    }
}

/// The bytes that follow the discriminator in the frame of `event`.
pub open spec fn server_event_body(event: ServerEvent) -> Seq<u8> {
    match event {
        ServerEvent::HandshakeAcknowledged => Seq::empty(),
        ServerEvent::ConferenceCreated((nonce, conference)) => be_bytes(nonce) + be_bytes(
            conference,
        ),
        ServerEvent::ConferenceJoinSalt((nonce, conference, salt)) => be_bytes(nonce) + be_bytes(
            conference,
        ) + salt@,
        ServerEvent::ConferenceJoined((nonce, conference, peers, salt)) => be_bytes(nonce)
            + be_bytes(conference) + be_bytes(peers) + salt@,
        ServerEvent::ConferenceLeft((nonce, conference)) => be_bytes(nonce) + be_bytes(conference),
        ServerEvent::MessageAccepted((nonce, conference)) => be_bytes(nonce) + be_bytes(conference),
        ServerEvent::ConferenceRestructuring((conference, peers)) => be_bytes(conference)
            + be_bytes(peers),
        ServerEvent::IncomingMessage((conference, message)) => be_bytes(conference) + be_bytes(
            message@.len() as u32,
        ) + message@,
        ServerEvent::GeneralError => Seq::empty(),
        ServerEvent::ConferenceCreationError(nonce) => be_bytes(nonce),
        ServerEvent::ConferenceJoinSaltError((nonce, conference)) => be_bytes(nonce) + be_bytes(
            conference,
        ),
        ServerEvent::ConferenceJoinError((nonce, conference)) => be_bytes(nonce) + be_bytes(
            conference,
        ),
        ServerEvent::ConferenceLeaveError((nonce, conference)) => be_bytes(nonce) + be_bytes(
            conference,
        ),
        ServerEvent::MessageError((nonce, conference)) => be_bytes(nonce) + be_bytes(conference),
    }
}

/// The number of body bytes whose length the kind alone dictates. For an
/// incoming message these are the conference and the length of the
/// ciphertext.
pub open spec fn fixed_body_length(kind: ServerToClientMessageTypePrimitive) -> int {
    match kind {
        ServerToClientMessageTypePrimitive::HandshakeAcknowledged => 0,
        ServerToClientMessageTypePrimitive::ConferenceCreated => 8,
        ServerToClientMessageTypePrimitive::ConferenceJoinSalt => 40,
        ServerToClientMessageTypePrimitive::ConferenceJoined => 44,
        ServerToClientMessageTypePrimitive::ConferenceLeft => 8,
        ServerToClientMessageTypePrimitive::MessageAccepted => 8,
        ServerToClientMessageTypePrimitive::ConferenceRestructuring => 8,
        ServerToClientMessageTypePrimitive::IncomingMessage => 8,
        ServerToClientMessageTypePrimitive::GeneralError => 0,
        ServerToClientMessageTypePrimitive::ConferenceCreationError => 4,
        ServerToClientMessageTypePrimitive::ConferenceJoinSaltError => 8,
        ServerToClientMessageTypePrimitive::ConferenceJoinError => 8,
        ServerToClientMessageTypePrimitive::ConferenceLeaveError => 8,
        ServerToClientMessageTypePrimitive::MessageError => 8,
    }
}

/// The number of body bytes that a frame of this kind needs, as far as
/// `body` tells: the fixed part, and for an incoming message whose fixed
/// part is there, the ciphertext that it announces.
pub open spec fn body_length(kind: ServerToClientMessageTypePrimitive, body: Seq<u8>) -> int {
    if kind is IncomingMessage && body.len() >= 8 {
        8 + be_value(body.subrange(4, 8))
    } else {
        fixed_body_length(kind)
    }
}

/// The number of body bytes whose length the kind alone dictates.
fn fixed_length(kind: ServerToClientMessageTypePrimitive) -> (len: usize)
    ensures
        len == fixed_body_length(kind),
{
    match kind {
        ServerToClientMessageTypePrimitive::HandshakeAcknowledged => 0,
        ServerToClientMessageTypePrimitive::ConferenceCreated => 8,
        ServerToClientMessageTypePrimitive::ConferenceJoinSalt => 40,
        ServerToClientMessageTypePrimitive::ConferenceJoined => 44,
        ServerToClientMessageTypePrimitive::ConferenceLeft => 8,
        ServerToClientMessageTypePrimitive::MessageAccepted => 8,
        ServerToClientMessageTypePrimitive::ConferenceRestructuring => 8,
        ServerToClientMessageTypePrimitive::IncomingMessage => 8,
        ServerToClientMessageTypePrimitive::GeneralError => 0,
        ServerToClientMessageTypePrimitive::ConferenceCreationError => 4,
        ServerToClientMessageTypePrimitive::ConferenceJoinSaltError => 8,
        ServerToClientMessageTypePrimitive::ConferenceJoinError => 8,
        ServerToClientMessageTypePrimitive::ConferenceLeaveError => 8,
        ServerToClientMessageTypePrimitive::MessageError => 8,
    }
}

/// Reads a nonce and a conference from the first eight bytes of `body`.
fn read_nonce_and_conference(body: &[u8]) -> (pair: (u32, u32))
    requires
        body.len() >= 8,
    ensures
        be_bytes(pair.0) + be_bytes(pair.1) == body@.subrange(0, 8),
{
    let first = u32_from_be_bytes(body, 0);
    let second = u32_from_be_bytes(body, 4);
    proof {
        lemma_be_bytes_of_value(body@.subrange(0, 4));
        lemma_be_bytes_of_value(body@.subrange(4, 8));
        assert(be_bytes(first) + be_bytes(second) =~= body@.subrange(0, 8));
    }
    (first, second)
}

/// Reads the event that a frame with discriminator `event_type` carries
/// from `body`, the bytes received after the discriminator.
///
/// Fails exactly when `event_type` opens no frame, or when the frame
/// announces more bytes than this machine can address. Otherwise the
/// outcome is `Incomplete` with the length needed while `body` is shorter
/// than its frame, and `Complete` once it holds the frame: the event is
/// then the one whose body is the first `n` bytes of `body`.
pub fn read_server_event(event_type: u8, body: &[u8]) -> (result: Result<ServerFrame, ()>)
    ensures
        result is Err <==> (!is_server_discriminator(event_type) || body_length(
            discriminator_kind(event_type).unwrap(),
            body@,
        ) > usize::MAX),
        result is Ok ==> (result.unwrap() is Complete <==> body@.len() >= body_length(
            discriminator_kind(event_type).unwrap(),
            body@,
        )),
        result matches Ok(ServerFrame::Incomplete(n)) ==> n == body_length(
            discriminator_kind(event_type).unwrap(),
            body@,
        ),
        result matches Ok(ServerFrame::Complete((event, n))) ==> {
            &&& n == body_length(discriminator_kind(event_type).unwrap(), body@)
            &&& server_event_kind(event).spec_value() == event_type
            &&& server_event_body(event) == body@.take(n as int)
        },
{
    let kind = match ServerToClientMessageTypePrimitive::try_from(event_type) {
        Ok(kind) => kind,
        Err(_) => {
            return Err(());
        },
    };
    let fixed = fixed_length(kind);
    if body.len() < fixed {
        return Ok(ServerFrame::Incomplete(fixed));
    }
    match kind {
        ServerToClientMessageTypePrimitive::HandshakeAcknowledged => {
            assert(body@.take(0) =~= Seq::<u8>::empty());
            Ok(ServerFrame::Complete((ServerEvent::HandshakeAcknowledged, 0)))
        },
        ServerToClientMessageTypePrimitive::ConferenceCreated => {
            let (nonce, conference) = read_nonce_and_conference(body);
            Ok(ServerFrame::Complete((ServerEvent::ConferenceCreated((nonce, conference)), 8)))
        },
        ServerToClientMessageTypePrimitive::ConferenceJoinSalt => {
            let (nonce, conference) = read_nonce_and_conference(body);
            let salt = array_at(body, 8);
            assert(be_bytes(nonce) + be_bytes(conference) + salt@ =~= body@.take(40)) by {
                assert(body@.subrange(0, 8) + body@.subrange(8, 40) =~= body@.take(40));
            }
            Ok(
                ServerFrame::Complete(
                    (ServerEvent::ConferenceJoinSalt((nonce, conference, salt)), 40),
                ),
            )
        },
        ServerToClientMessageTypePrimitive::ConferenceJoined => {
            let (nonce, conference) = read_nonce_and_conference(body);
            let peers = u32_from_be_bytes(body, 8);
            let salt = array_at(body, 12);
            proof {
                lemma_be_bytes_of_value(body@.subrange(8, 12));
                assert(body@.subrange(0, 8) + body@.subrange(8, 12) + body@.subrange(12, 44)
                    =~= body@.take(44));
            }
            Ok(
                ServerFrame::Complete(
                    (ServerEvent::ConferenceJoined((nonce, conference, peers, salt)), 44),
                ),
            )
        },
        ServerToClientMessageTypePrimitive::ConferenceLeft => {
            let (nonce, conference) = read_nonce_and_conference(body);
            Ok(ServerFrame::Complete((ServerEvent::ConferenceLeft((nonce, conference)), 8)))
        },
        ServerToClientMessageTypePrimitive::MessageAccepted => {
            let (nonce, conference) = read_nonce_and_conference(body);
            Ok(ServerFrame::Complete((ServerEvent::MessageAccepted((nonce, conference)), 8)))
        },
        ServerToClientMessageTypePrimitive::ConferenceRestructuring => {
            let (conference, peers) = read_nonce_and_conference(body);
            Ok(
                ServerFrame::Complete(
                    (ServerEvent::ConferenceRestructuring((conference, peers)), 8),
                ),
            )
        },
        ServerToClientMessageTypePrimitive::IncomingMessage => {
            let (conference, length) = read_nonce_and_conference(body);
            proof {
                assert(body@.subrange(0, 8).subrange(4, 8) =~= body@.subrange(4, 8));
                assert(be_bytes(length) =~= body@.subrange(4, 8));
                crate::bytes::lemma_be_value_of_bytes(length);
            }
            if length as u64 > usize::MAX as u64 - 8 {
                return Err(());
            }
            let total: usize = 8 + length as usize;
            if body.len() < total {
                return Ok(ServerFrame::Incomplete(total));
            }
            let message = range_of(body, 8, length as usize);
            assert(be_bytes(conference) + be_bytes(message@.len() as u32) + message@
                =~= body@.take(total as int)) by {
                assert(body@.subrange(0, 8) + body@.subrange(8, total as int) =~= body@.take(
                    total as int,
                ));
            }
            Ok(ServerFrame::Complete((ServerEvent::IncomingMessage((conference, message)), total)))
        },
        ServerToClientMessageTypePrimitive::GeneralError => {
            assert(body@.take(0) =~= Seq::<u8>::empty());
            Ok(ServerFrame::Complete((ServerEvent::GeneralError, 0)))
        },
        ServerToClientMessageTypePrimitive::ConferenceCreationError => {
            let nonce = u32_from_be_bytes(body, 0);
            proof {
                lemma_be_bytes_of_value(body@.subrange(0, 4));
            }
            Ok(ServerFrame::Complete((ServerEvent::ConferenceCreationError(nonce), 4)))
        },
        ServerToClientMessageTypePrimitive::ConferenceJoinSaltError => {
            let (nonce, conference) = read_nonce_and_conference(body);
            Ok(
                ServerFrame::Complete(
                    (ServerEvent::ConferenceJoinSaltError((nonce, conference)), 8),
                ),
            )
        },
        ServerToClientMessageTypePrimitive::ConferenceJoinError => {
            let (nonce, conference) = read_nonce_and_conference(body);
            Ok(ServerFrame::Complete((ServerEvent::ConferenceJoinError((nonce, conference)), 8)))
        },
        ServerToClientMessageTypePrimitive::ConferenceLeaveError => {
            let (nonce, conference) = read_nonce_and_conference(body);
            Ok(ServerFrame::Complete((ServerEvent::ConferenceLeaveError((nonce, conference)), 8)))
        },
        ServerToClientMessageTypePrimitive::MessageError => {
            let (nonce, conference) = read_nonce_and_conference(body);
            Ok(ServerFrame::Complete((ServerEvent::MessageError((nonce, conference)), 8)))
        },
    }
}

/// Whether the frame format can carry `event`: the ciphertext of an
/// incoming message has a 32-bit length.
pub open spec fn server_frameable(event: ServerEvent) -> bool {
    event matches ServerEvent::IncomingMessage((_, message)) ==> message@.len() <= u32::MAX
}

/// Whether two events are the same: the same kind with the same fields.
pub open spec fn same_server_event(a: ServerEvent, b: ServerEvent) -> bool {
    match (a, b) {
        (
            ServerEvent::IncomingMessage((conference, message)),
            ServerEvent::IncomingMessage((other_conference, other_message)),
        ) => conference == other_conference && message@ == other_message@,
        _ => a == b,
    }
}

/// Integers with the same bytes are the same.
proof fn lemma_be_bytes_injective(a: u32, b: u32)
    requires
        be_bytes(a) == be_bytes(b),
    ensures
        a == b,
{
    lemma_be_value_of_bytes(a);
    lemma_be_value_of_bytes(b);
}

/// Two frames that start with the same bytes start with the same two
/// integers.
proof fn lemma_two_integers(a: u32, b: u32, rest: Seq<u8>, c: u32, d: u32, other_rest: Seq<u8>)
    requires
        be_bytes(a) + be_bytes(b) + rest == be_bytes(c) + be_bytes(d) + other_rest,
    ensures
        a == c,
        b == d,
        rest == other_rest,
{
    let left = be_bytes(a) + be_bytes(b) + rest;
    let right = be_bytes(c) + be_bytes(d) + other_rest;
    assert(left.subrange(0, 4) =~= be_bytes(a));
    assert(right.subrange(0, 4) =~= be_bytes(c));
    assert(left.subrange(4, 8) =~= be_bytes(b));
    assert(right.subrange(4, 8) =~= be_bytes(d));
    assert(left.subrange(8, left.len() as int) =~= rest);
    assert(right.subrange(8, right.len() as int) =~= other_rest);
    lemma_be_bytes_injective(a, c);
    lemma_be_bytes_injective(b, d);
}

/// The body of an event is as long as its frame needs: a reader that has
/// the body has the whole event.
pub proof fn lemma_server_frame_complete(event: ServerEvent)
    requires
        server_frameable(event),
    ensures
        body_length(server_event_kind(event), server_event_body(event)) == server_event_body(
            event,
        ).len(),
        discriminator_kind(server_event_kind(event).spec_value()) == Ok::<
            ServerToClientMessageTypePrimitive,
            (),
        >(server_event_kind(event)),
{
    if let ServerEvent::IncomingMessage((conference, message)) = event {
        let body = server_event_body(event);
        assert(body.subrange(4, 8) =~= be_bytes(message@.len() as u32));
        lemma_be_value_of_bytes(message@.len() as u32);
    }
}

/// A frame determines its event: two events of the same kind with the same
/// body are the same.
pub proof fn lemma_server_frame_determines_event(a: ServerEvent, b: ServerEvent)
    requires
        server_frameable(a),
        server_frameable(b),
        server_event_kind(a) == server_event_kind(b),
        server_event_body(a) == server_event_body(b),
    ensures
        same_server_event(a, b),
{
    let empty = Seq::<u8>::empty();
    match (a, b) {
        (ServerEvent::ConferenceCreated((n, c)), ServerEvent::ConferenceCreated((m, d))) => {
            assert(be_bytes(n) + be_bytes(c) + empty =~= be_bytes(n) + be_bytes(c));
            assert(be_bytes(m) + be_bytes(d) + empty =~= be_bytes(m) + be_bytes(d));
            lemma_two_integers(n, c, empty, m, d, empty);
        },
        (ServerEvent::ConferenceLeft((n, c)), ServerEvent::ConferenceLeft((m, d))) => {
            assert(be_bytes(n) + be_bytes(c) + empty =~= be_bytes(n) + be_bytes(c));
            assert(be_bytes(m) + be_bytes(d) + empty =~= be_bytes(m) + be_bytes(d));
            lemma_two_integers(n, c, empty, m, d, empty);
        },
        (ServerEvent::MessageAccepted((n, c)), ServerEvent::MessageAccepted((m, d))) => {
            assert(be_bytes(n) + be_bytes(c) + empty =~= be_bytes(n) + be_bytes(c));
            assert(be_bytes(m) + be_bytes(d) + empty =~= be_bytes(m) + be_bytes(d));
            lemma_two_integers(n, c, empty, m, d, empty);
        },
        (
            ServerEvent::ConferenceRestructuring((n, c)),
            ServerEvent::ConferenceRestructuring((m, d)),
        ) => {
            assert(be_bytes(n) + be_bytes(c) + empty =~= be_bytes(n) + be_bytes(c));
            assert(be_bytes(m) + be_bytes(d) + empty =~= be_bytes(m) + be_bytes(d));
            lemma_two_integers(n, c, empty, m, d, empty);
        },
        (
            ServerEvent::ConferenceJoinSaltError((n, c)),
            ServerEvent::ConferenceJoinSaltError((m, d)),
        ) => {
            assert(be_bytes(n) + be_bytes(c) + empty =~= be_bytes(n) + be_bytes(c));
            assert(be_bytes(m) + be_bytes(d) + empty =~= be_bytes(m) + be_bytes(d));
            lemma_two_integers(n, c, empty, m, d, empty);
        },
        (ServerEvent::ConferenceJoinError((n, c)), ServerEvent::ConferenceJoinError((m, d))) => {
            assert(be_bytes(n) + be_bytes(c) + empty =~= be_bytes(n) + be_bytes(c));
            assert(be_bytes(m) + be_bytes(d) + empty =~= be_bytes(m) + be_bytes(d));
            lemma_two_integers(n, c, empty, m, d, empty);
        },
        (ServerEvent::ConferenceLeaveError((n, c)), ServerEvent::ConferenceLeaveError((m, d))) => {
            assert(be_bytes(n) + be_bytes(c) + empty =~= be_bytes(n) + be_bytes(c));
            assert(be_bytes(m) + be_bytes(d) + empty =~= be_bytes(m) + be_bytes(d));
            lemma_two_integers(n, c, empty, m, d, empty);
        },
        (ServerEvent::MessageError((n, c)), ServerEvent::MessageError((m, d))) => {
            assert(be_bytes(n) + be_bytes(c) + empty =~= be_bytes(n) + be_bytes(c));
            assert(be_bytes(m) + be_bytes(d) + empty =~= be_bytes(m) + be_bytes(d));
            lemma_two_integers(n, c, empty, m, d, empty);
        },
        (
            ServerEvent::ConferenceJoinSalt((n, c, salt)),
            ServerEvent::ConferenceJoinSalt((m, d, other_salt)),
        ) => {
            lemma_two_integers(n, c, salt@, m, d, other_salt@);
            assert(salt =~= other_salt);
        },
        (
            ServerEvent::ConferenceJoined((n, c, peers, salt)),
            ServerEvent::ConferenceJoined((m, d, other_peers, other_salt)),
        ) => {
            assert(be_bytes(n) + be_bytes(c) + (be_bytes(peers) + salt@) =~= be_bytes(n)
                + be_bytes(c) + be_bytes(peers) + salt@);
            assert(be_bytes(m) + be_bytes(d) + (be_bytes(other_peers) + other_salt@)
                =~= be_bytes(m) + be_bytes(d) + be_bytes(other_peers) + other_salt@);
            lemma_two_integers(
                n,
                c,
                be_bytes(peers) + salt@,
                m,
                d,
                be_bytes(other_peers) + other_salt@,
            );
            let rest = be_bytes(peers) + salt@;
            let other_rest = be_bytes(other_peers) + other_salt@;
            assert(rest.subrange(0, 4) =~= be_bytes(peers));
            assert(other_rest.subrange(0, 4) =~= be_bytes(other_peers));
            assert(rest.subrange(4, 36) =~= salt@);
            assert(other_rest.subrange(4, 36) =~= other_salt@);
            lemma_be_bytes_injective(peers, other_peers);
            assert(salt =~= other_salt);
        },
        (
            ServerEvent::IncomingMessage((c, message)),
            ServerEvent::IncomingMessage((d, other_message)),
        ) => {
            lemma_two_integers(
                c,
                message@.len() as u32,
                message@,
                d,
                other_message@.len() as u32,
                other_message@,
            );
        },
        (ServerEvent::ConferenceCreationError(n), ServerEvent::ConferenceCreationError(m)) => {
            lemma_be_bytes_injective(n, m);
        },
        _ => {},
    }
}

/// The bytes that follow the discriminator in the frame of `event`.
pub open spec fn client_event_body(event: ClientEvent) -> Seq<u8> {
    match event {
        ClientEvent::CreateConference((nonce, password_hash, join_salt, encryption_salt)) => {
            be_bytes(nonce) + password_hash@ + join_salt@ + encryption_salt@
        },
        ClientEvent::GetConferenceJoinSalt((nonce, conference)) => be_bytes(nonce) + be_bytes(
            conference,
        ),
        ClientEvent::JoinConference((nonce, conference, password_hash)) => be_bytes(nonce)
            + be_bytes(conference) + password_hash@,
        ClientEvent::LeaveConference((nonce, conference)) => be_bytes(nonce) + be_bytes(conference),
        ClientEvent::SendMessage((nonce, message)) => be_bytes(nonce) + be_bytes(
            message.conference,
        ) + be_bytes(message.message@.len() as u32) + message.message@,
        ClientEvent::Disconnect => Seq::empty(),
    }
}

/// The frame of `event`: its discriminator, then its body.
pub open spec fn client_event_frame(event: ClientEvent) -> Seq<u8> {
    seq![event.spec_value()] + client_event_body(event)
}

/// Whether the frame format can carry `event`: the ciphertext of a message
/// has a 32-bit length.
pub open spec fn frameable(event: ClientEvent) -> bool {
    event matches ClientEvent::SendMessage((_, message)) ==> message.message@.len() <= u32::MAX
}

/// Frames a client event for the relay, returning the frame and whether
/// the connection should be kept open after it: it is closed after
/// `Disconnect` and kept open after every other event.
///
/// Fails exactly on a message whose ciphertext is too long for the frame.
pub fn write_client_event(event: ClientEvent) -> (result: Result<(Vec<u8>, bool), ()>)
    ensures
        result is Ok <==> frameable(event),
        result is Ok ==> result.unwrap().0@ == client_event_frame(event),
        result is Ok ==> result.unwrap().1 == !(event is Disconnect),
{
    let mut frame: Vec<u8> = Vec::new();
    frame.push(event.value());
    match event {
        ClientEvent::CreateConference((nonce, password_hash, join_salt, encryption_salt)) => {
            frame.extend_from_slice(&u32_to_be_bytes(nonce));
            frame.extend_from_slice(&password_hash);
            frame.extend_from_slice(&join_salt);
            frame.extend_from_slice(&encryption_salt);
        },
        ClientEvent::GetConferenceJoinSalt((nonce, conference)) => {
            frame.extend_from_slice(&u32_to_be_bytes(nonce));
            frame.extend_from_slice(&u32_to_be_bytes(conference));
        },
        ClientEvent::JoinConference((nonce, conference, password_hash)) => {
            frame.extend_from_slice(&u32_to_be_bytes(nonce));
            frame.extend_from_slice(&u32_to_be_bytes(conference));
            frame.extend_from_slice(&password_hash);
        },
        ClientEvent::LeaveConference((nonce, conference)) => {
            frame.extend_from_slice(&u32_to_be_bytes(nonce));
            frame.extend_from_slice(&u32_to_be_bytes(conference));
        },
        ClientEvent::SendMessage((nonce, message)) => {
            if message.message.len() > u32::MAX as usize {
                return Err(());
            }
            frame.extend_from_slice(&u32_to_be_bytes(nonce));
            frame.extend_from_slice(&u32_to_be_bytes(message.conference));
            frame.extend_from_slice(&u32_to_be_bytes(message.message.len() as u32));
            frame.extend_from_slice(message.message.as_slice());
        },
        ClientEvent::Disconnect => {
            assert(frame@ =~= client_event_frame(event));
            return Ok((frame, false));
        },
    }
    assert(frame@ =~= client_event_frame(event));
    Ok((frame, true))
}

} // verus!
