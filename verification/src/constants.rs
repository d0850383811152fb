//! Identifiers, protocol events and the events exchanged with the user
//! interface.

use vstd::prelude::*;
use vstd::std_specs::convert::TryFromSpecImpl;

verus! {

pub type ConferenceId = u32;

/// Total number of peers in a conference, the local peer included.
pub type NumberOfPeers = u32;

pub type EncryptionKey = [u8; 32];

pub type PacketNonce = u32;

pub type MessageLength = u32;

pub type PasswordHash = [u8; 32];

pub type ConferenceJoinSalt = [u8; 32];

pub type ConferenceEncryptionSalt = [u8; 32];

pub type MessageID = usize;

/// Name the relay's certificate is issued for.
pub const SERVER_NAME: &'static str = "anonymous-conference.program";

/// The banner that opens the application handshake: the byte `0x1C`, then
/// `AnonymousConference protocol` in ASCII.
pub const PROTOCOL_HEADER: [u8; 29] = [
    0x1C, 0x41, 0x6E, 0x6F, 0x6E, 0x79, 0x6D, 0x6F, 0x75, 0x73, 0x43, 0x6F, 0x6E, 0x66, 0x65, 0x72,
    0x65, 0x6E, 0x63, 0x65, 0x20, 0x70, 0x72, 0x6F, 0x74, 0x6F, 0x63, 0x6F, 0x6C,
];

/// An encrypted payload on its way to a conference.
#[derive(Clone, Debug, PartialEq, Eq)]
pub struct Message {
    pub conference: ConferenceId,
    pub message: Vec<u8>,
    pub message_id: Option<MessageID>,
}

/// Requests sent to the relay.
#[derive(Debug, PartialEq, Eq)]
pub enum ClientEvent {
    CreateConference((PacketNonce, PasswordHash, ConferenceJoinSalt, ConferenceEncryptionSalt)),
    GetConferenceJoinSalt((PacketNonce, ConferenceId)),
    JoinConference((PacketNonce, ConferenceId, PasswordHash)),
    LeaveConference((PacketNonce, ConferenceId)),
    SendMessage((PacketNonce, Message)),
    Disconnect,
}

impl ClientEvent {
    /// The discriminator that opens the event's frame.
    pub open spec fn spec_value(&self) -> u8 {
        match self {
            ClientEvent::CreateConference(_) => 0x01,
            ClientEvent::GetConferenceJoinSalt(_) => 0x02,
            ClientEvent::JoinConference(_) => 0x03,
            ClientEvent::LeaveConference(_) => 0x04,
            ClientEvent::SendMessage(_) => 0x05,
            ClientEvent::Disconnect => 0x06,
        }
    }

    /// The discriminator of the event.
    #[verifier::when_used_as_spec(spec_value)]
    pub fn value(&self) -> (v: u8)
        ensures
            v == self.spec_value(),
    {
        match self {
            ClientEvent::CreateConference(_) => 0x01,
            ClientEvent::GetConferenceJoinSalt(_) => 0x02,
            ClientEvent::JoinConference(_) => 0x03,
            ClientEvent::LeaveConference(_) => 0x04,
            ClientEvent::SendMessage(_) => 0x05,
            ClientEvent::Disconnect => 0x06,
        }
    }
}

impl Clone for ClientEvent {
    fn clone(&self) -> (r: Self)
        ensures
            r.spec_value() == self.spec_value(),
            !(*self is SendMessage) ==> r == *self,
            *self is SendMessage ==> {
                &&& r->SendMessage_0.0 == self->SendMessage_0.0
                &&& r->SendMessage_0.1.conference == self->SendMessage_0.1.conference
                &&& r->SendMessage_0.1.message@ == self->SendMessage_0.1.message@
                &&& r->SendMessage_0.1.message_id == self->SendMessage_0.1.message_id
            },
    {
        match self {
            ClientEvent::CreateConference((nonce, hash, join_salt, encryption_salt)) => {
                ClientEvent::CreateConference((*nonce, *hash, *join_salt, *encryption_salt))
            },
            ClientEvent::GetConferenceJoinSalt((nonce, conference)) => {
                ClientEvent::GetConferenceJoinSalt((*nonce, *conference))
            },
            ClientEvent::JoinConference((nonce, conference, hash)) => {
                ClientEvent::JoinConference((*nonce, *conference, *hash))
            },
            ClientEvent::LeaveConference((nonce, conference)) => {
                ClientEvent::LeaveConference((*nonce, *conference))
            },
            ClientEvent::SendMessage((nonce, message)) => {
                ClientEvent::SendMessage(
                    (
                        *nonce,
                        Message {
                            conference: message.conference,
                            message: message.message.clone(),
                            message_id: message.message_id,
                        },
                    ),
                )
            },
            ClientEvent::Disconnect => ClientEvent::Disconnect,
        }
    }
}

/// Frames received from the relay.
#[derive(Debug, PartialEq, Eq)]
pub enum ServerEvent {
    HandshakeAcknowledged,
    ConferenceCreated((PacketNonce, ConferenceId)),
    ConferenceJoinSalt((PacketNonce, ConferenceId, ConferenceJoinSalt)),
    ConferenceJoined((PacketNonce, ConferenceId, NumberOfPeers, ConferenceEncryptionSalt)),
    ConferenceLeft((PacketNonce, ConferenceId)),
    MessageAccepted((PacketNonce, ConferenceId)),
    ConferenceRestructuring((ConferenceId, NumberOfPeers)),
    IncomingMessage((ConferenceId, Vec<u8>)),
    GeneralError,
    ConferenceCreationError(PacketNonce),
    ConferenceJoinSaltError((PacketNonce, ConferenceId)),
    ConferenceJoinError((PacketNonce, ConferenceId)),
    ConferenceLeaveError((PacketNonce, ConferenceId)),
    MessageError((PacketNonce, ConferenceId)),
}

/// What a conference manager is driven by.
#[derive(Debug, PartialEq, Eq)]
pub enum ConferenceEvent {
    ConferenceRestructuring(NumberOfPeers),
    IncomingMessage(Vec<u8>),
    OutboundMessage((MessageID, Vec<u8>)),
}

/// The kinds of frame the relay sends, without their bodies.
#[derive(Clone, Copy, Debug, PartialEq, Eq)]
pub enum ServerToClientMessageTypePrimitive {
    HandshakeAcknowledged,
    ConferenceCreated,
    ConferenceJoinSalt,
    ConferenceJoined,
    ConferenceLeft,
    MessageAccepted,
    ConferenceRestructuring,
    IncomingMessage,
    GeneralError,
    ConferenceCreationError,
    ConferenceJoinSaltError,
    ConferenceJoinError,
    ConferenceLeaveError,
    MessageError,
}

impl ServerToClientMessageTypePrimitive {
    /// The discriminator that opens a frame of this kind.
    pub open spec fn spec_value(&self) -> u8 {
        match self {
            ServerToClientMessageTypePrimitive::HandshakeAcknowledged => 0x00,
            ServerToClientMessageTypePrimitive::ConferenceCreated => 0x01,
            ServerToClientMessageTypePrimitive::ConferenceJoinSalt => 0x02,
            ServerToClientMessageTypePrimitive::ConferenceJoined => 0x03,
            ServerToClientMessageTypePrimitive::ConferenceLeft => 0x04,
            ServerToClientMessageTypePrimitive::MessageAccepted => 0x05,
            ServerToClientMessageTypePrimitive::ConferenceRestructuring => 0x06,
            ServerToClientMessageTypePrimitive::IncomingMessage => 0x07,
            ServerToClientMessageTypePrimitive::GeneralError => 0x10,
            ServerToClientMessageTypePrimitive::ConferenceCreationError => 0x11,
            ServerToClientMessageTypePrimitive::ConferenceJoinSaltError => 0x12,
            ServerToClientMessageTypePrimitive::ConferenceJoinError => 0x13,
            ServerToClientMessageTypePrimitive::ConferenceLeaveError => 0x14,
            ServerToClientMessageTypePrimitive::MessageError => 0x15,
        }
    }

    /// The discriminator of the kind.
    #[verifier::when_used_as_spec(spec_value)]
    pub fn value(&self) -> (v: u8)
        ensures
            v == self.spec_value(),
    {
        match self {
            ServerToClientMessageTypePrimitive::HandshakeAcknowledged => 0x00,
            ServerToClientMessageTypePrimitive::ConferenceCreated => 0x01,
            ServerToClientMessageTypePrimitive::ConferenceJoinSalt => 0x02,
            ServerToClientMessageTypePrimitive::ConferenceJoined => 0x03,
            ServerToClientMessageTypePrimitive::ConferenceLeft => 0x04,
            ServerToClientMessageTypePrimitive::MessageAccepted => 0x05,
            ServerToClientMessageTypePrimitive::ConferenceRestructuring => 0x06,
            ServerToClientMessageTypePrimitive::IncomingMessage => 0x07,
            ServerToClientMessageTypePrimitive::GeneralError => 0x10,
            ServerToClientMessageTypePrimitive::ConferenceCreationError => 0x11,
            ServerToClientMessageTypePrimitive::ConferenceJoinSaltError => 0x12,
            ServerToClientMessageTypePrimitive::ConferenceJoinError => 0x13,
            ServerToClientMessageTypePrimitive::ConferenceLeaveError => 0x14,
            ServerToClientMessageTypePrimitive::MessageError => 0x15,
        }
    }
}

/// Whether `v` opens a frame the relay may send.
pub open spec fn is_server_discriminator(v: u8) -> bool {
    v <= 0x07 || 0x10 <= v <= 0x15
}

impl TryFrom<u8> for ServerToClientMessageTypePrimitive {
    type Error = ();

    fn try_from(v: u8) -> (r: Result<Self, ()>) {
        match v {
            0x00 => Ok(ServerToClientMessageTypePrimitive::HandshakeAcknowledged),
            0x01 => Ok(ServerToClientMessageTypePrimitive::ConferenceCreated),
            0x02 => Ok(ServerToClientMessageTypePrimitive::ConferenceJoinSalt),
            0x03 => Ok(ServerToClientMessageTypePrimitive::ConferenceJoined),
            0x04 => Ok(ServerToClientMessageTypePrimitive::ConferenceLeft),
            0x05 => Ok(ServerToClientMessageTypePrimitive::MessageAccepted),
            0x06 => Ok(ServerToClientMessageTypePrimitive::ConferenceRestructuring),
            0x07 => Ok(ServerToClientMessageTypePrimitive::IncomingMessage),
            0x10 => Ok(ServerToClientMessageTypePrimitive::GeneralError),
            0x11 => Ok(ServerToClientMessageTypePrimitive::ConferenceCreationError),
            0x12 => Ok(ServerToClientMessageTypePrimitive::ConferenceJoinSaltError),
            0x13 => Ok(ServerToClientMessageTypePrimitive::ConferenceJoinError),
            0x14 => Ok(ServerToClientMessageTypePrimitive::ConferenceLeaveError),
            0x15 => Ok(ServerToClientMessageTypePrimitive::MessageError),
            _ => Err(()),
        }
    }
}

/// The kind of frame that the discriminator `v` opens: `Ok` of the kind
/// whose byte is `v` where there is one, `Err` for every other byte.
pub open spec fn discriminator_kind(v: u8) -> Result<ServerToClientMessageTypePrimitive, ()> {
    if v == 0x00 {
        Ok(ServerToClientMessageTypePrimitive::HandshakeAcknowledged)
    } else if v == 0x01 {
        Ok(ServerToClientMessageTypePrimitive::ConferenceCreated)
    } else if v == 0x02 {
        Ok(ServerToClientMessageTypePrimitive::ConferenceJoinSalt)
    } else if v == 0x03 {
        Ok(ServerToClientMessageTypePrimitive::ConferenceJoined)
    } else if v == 0x04 {
        Ok(ServerToClientMessageTypePrimitive::ConferenceLeft)
    } else if v == 0x05 {
        Ok(ServerToClientMessageTypePrimitive::MessageAccepted)
    } else if v == 0x06 {
        Ok(ServerToClientMessageTypePrimitive::ConferenceRestructuring)
    } else if v == 0x07 {
        Ok(ServerToClientMessageTypePrimitive::IncomingMessage)
    } else if v == 0x10 {
        Ok(ServerToClientMessageTypePrimitive::GeneralError)
    } else if v == 0x11 {
        Ok(ServerToClientMessageTypePrimitive::ConferenceCreationError)
    } else if v == 0x12 {
        Ok(ServerToClientMessageTypePrimitive::ConferenceJoinSaltError)
    } else if v == 0x13 {
        Ok(ServerToClientMessageTypePrimitive::ConferenceJoinError)
    } else if v == 0x14 {
        Ok(ServerToClientMessageTypePrimitive::ConferenceLeaveError)
    } else if v == 0x15 {
        Ok(ServerToClientMessageTypePrimitive::MessageError)
    } else {
        Err(())
    }
}

impl TryFromSpecImpl<u8> for ServerToClientMessageTypePrimitive {
    open spec fn obeys_try_from_spec() -> bool {
        true
    }

    open spec fn try_from_spec(v: u8) -> Result<Self, ()> {
        discriminator_kind(v)
    }
}

/// Requests made by the user interface.
#[derive(Debug, PartialEq, Eq)]
pub enum UIAction {
    /// Create a new conference with the given password.
    CreateConference(String),
    /// Join a conference with the given ID and password.
    JoinConference((ConferenceId, String)),
    /// Leave a conference with the given ID.
    LeaveConference(ConferenceId),
    /// Send a message to a conference.
    SendMessage((ConferenceId, MessageID, String)),
    /// Disconnect from the server.
    Disconnect,
}

/// Results and status changes reported to the user interface.
#[derive(Debug, PartialEq, Eq)]
pub enum UIEvent {
    ConferenceCreated(ConferenceId),
    ConferenceCreateFailed,
    ConferenceJoined((ConferenceId, NumberOfPeers)),
    ConferenceJoinFailed(ConferenceId),
    ConferenceLeft(ConferenceId),
    ConferenceLeaveFailed(ConferenceId),
    IncomingMessage((ConferenceId, Vec<u8>, bool)),
    MessageAccepted((ConferenceId, MessageID)),
    MessageRejected((ConferenceId, MessageID)),
    MessageError((ConferenceId, MessageID)),
    ConferenceRestructuring((ConferenceId, NumberOfPeers)),
    ConferenceRestructuringFinished(ConferenceId),
}

/// The discriminator round trip: a kind is found again from its byte, and
/// a byte that names a kind is that kind's byte.
pub proof fn lemma_discriminator_round_trip(kind: ServerToClientMessageTypePrimitive, v: u8)
    ensures
        discriminator_kind(kind.spec_value()) == Ok::<ServerToClientMessageTypePrimitive, ()>(kind),
        discriminator_kind(v) is Ok <==> is_server_discriminator(v),
        discriminator_kind(v) is Ok ==> discriminator_kind(v).unwrap().spec_value() == v,
{
}

} // verus!
