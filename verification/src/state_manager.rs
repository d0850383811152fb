//! The state manager: correlates the relay's replies with the requests in
//! flight, routes conference traffic and reports to the user interface.
//!
//! The manager decides; the channels, the socket and the conference tasks
//! are run by its caller, which performs the actions that each step
//! returns, in their order.

use crate::bytes::tail_from;
use crate::constants::{
    ClientEvent, ConferenceEvent, ConferenceId, EncryptionKey, Message, MessageID, NumberOfPeers,
    PacketNonce, ServerEvent, UIAction, UIEvent,
};
use crate::crypto::{generate_salt, hash_password_with_salt};
use crate::primitives::argon2_digest;
use std::collections::{HashMap, HashSet};
use vstd::prelude::*;

verus! {

/// What a request in flight asked for, kept until the relay answers it.
#[derive(Debug, PartialEq, Eq)]
pub enum SentEvent {
    CreateConference,
    GetConferenceJoinSalt((ConferenceId, String)),
    JoinConference((ConferenceId, String)),
    LeaveConference(ConferenceId),
    SendMessage((ConferenceId, MessageID)),
    Disconnect,
}

/// What the caller of the state manager is to do after a step.
#[derive(Debug, PartialEq, Eq)]
pub enum StateAction {
    /// Hand the event to the connection manager.
    Send(ClientEvent),
    /// Report the event to the user interface.
    Notify(UIEvent),
    /// Hand the event to the manager of the conference.
    Forward((ConferenceId, ConferenceEvent)),
    /// Create the manager of a conference just joined, with its number of
    /// peers and its initial encryption key, and start it.
    StartConference((ConferenceId, NumberOfPeers, EncryptionKey)),
    /// Close the event channel of the conference's manager.
    StopConference(ConferenceId),
    /// Close every conference and leave the loop.
    Shutdown,
}

/// The state of the state manager: which conferences have a manager,
/// which requests are in flight, and the nonce given out last.
pub struct StateManager {
    /// The conferences that have a manager.
    pub conferences: HashSet<ConferenceId>,
    /// The requests in flight, by nonce.
    pub sent_packets: HashMap<PacketNonce, SentEvent>,
    /// The nonce given out last.
    pub send_packets_last_index: PacketNonce,
}

/// The state of the manager as mathematical values.
#[verifier::ext_equal]
pub struct StateModel {
    pub conferences: Set<ConferenceId>,
    pub sent_packets: Map<PacketNonce, SentEvent>,
    pub last_nonce: PacketNonce,
}

/// The bytes of a password or a text: its UTF-8 encoding.
pub open spec fn text_bytes(text: String) -> Seq<u8> {
    vstd::utf8::encode_utf8(text@)
}

/// Whether Argon2 takes the password: its input is at most `u32::MAX`
/// bytes long.
pub open spec fn hashable(password: String) -> bool {
    text_bytes(password).len() <= u32::MAX
}

impl StateModel {
    /// The request recorded under `nonce` has been answered.
    pub open spec fn answered(self, nonce: PacketNonce) -> StateModel {
        StateModel { sent_packets: self.sent_packets.remove(nonce), ..self }
    }

    /// A request goes out under the next nonce.
    pub open spec fn requested(self, sent: SentEvent) -> StateModel {
        StateModel {
            sent_packets: self.sent_packets.insert((self.last_nonce + 1) as u32, sent),
            last_nonce: (self.last_nonce + 1) as u32,
            ..self
        }
    }

    /// A nonce is given out for a request that nobody waits on.
    pub open spec fn skipped(self) -> StateModel {
        StateModel { last_nonce: (self.last_nonce + 1) as u32, ..self }
    }

    /// A conference gets its manager.
    pub open spec fn joined(self, conference: ConferenceId) -> StateModel {
        StateModel { conferences: self.conferences.insert(conference), ..self }
    }

    /// A conference loses its manager.
    pub open spec fn left(self, conference: ConferenceId) -> StateModel {
        StateModel { conferences: self.conferences.remove(conference), ..self }
    }

    /// Every conference loses its manager.
    pub open spec fn closed(self) -> StateModel {
        StateModel { conferences: Set::empty(), ..self }
    }

    /// Whether the request recorded under `nonce` is `sent`.
    pub open spec fn awaits(self, nonce: PacketNonce, sent: SentEvent) -> bool {
        self.sent_packets.contains_key(nonce) && self.sent_packets[nonce] == sent
    }

    /// Whether the request recorded under `nonce` asked for the join salt
    /// of `conference`.
    pub open spec fn awaits_join_salt(self, nonce: PacketNonce, conference: ConferenceId) -> bool {
        &&& self.sent_packets.contains_key(nonce)
        &&& self.sent_packets[nonce] matches SentEvent::GetConferenceJoinSalt((c, _))
        &&& c == conference
    }

    /// Whether the request recorded under `nonce` asked to join
    /// `conference`.
    pub open spec fn awaits_join(self, nonce: PacketNonce, conference: ConferenceId) -> bool {
        &&& self.sent_packets.contains_key(nonce)
        &&& self.sent_packets[nonce] matches SentEvent::JoinConference((c, _))
        &&& c == conference
    }

    /// Whether the request recorded under `nonce` sent a message to
    /// `conference`.
    pub open spec fn awaits_delivery(self, nonce: PacketNonce, conference: ConferenceId) -> bool {
        &&& self.sent_packets.contains_key(nonce)
        &&& self.sent_packets[nonce] matches SentEvent::SendMessage((c, _))
        &&& c == conference
    }

    /// The password kept with a join request.
    pub open spec fn password(self, nonce: PacketNonce) -> String {
        match self.sent_packets[nonce] {
            SentEvent::GetConferenceJoinSalt((_, password)) => password,
            SentEvent::JoinConference((_, password)) => password,
            _ => arbitrary(),
        }
    }

    /// The message identifier kept with a sent message.
    pub open spec fn message_id(self, nonce: PacketNonce) -> MessageID {
        match self.sent_packets[nonce] {
            SentEvent::SendMessage((_, id)) => id,
            _ => arbitrary(),
        }
    }

    /// Every recorded nonce has been given out already, and every password
    /// kept for hashing can be hashed.
    pub open spec fn wf(self) -> bool {
        &&& forall|nonce: PacketNonce| #[trigger]
            self.sent_packets.contains_key(nonce) ==> 1 <= nonce <= self.last_nonce
        &&& forall|nonce: PacketNonce| #[trigger]
            self.sent_packets.contains_key(nonce) ==> (self.sent_packets[nonce] is GetConferenceJoinSalt
                || self.sent_packets[nonce] is JoinConference) ==> hashable(self.password(nonce))
    }
}

impl View for StateManager {
    type V = StateModel;

    open spec fn view(&self) -> StateModel {
        StateModel {
            conferences: self.conferences@,
            sent_packets: self.sent_packets@,
            last_nonce: self.send_packets_last_index,
        }
    }
}

/// How the nonces of two successive states relate: the counter never goes
/// back, and a nonce recorded by the step is greater than every nonce given
/// out before it, so greater than every nonce recorded before it.
pub open spec fn nonces_advance(pre: StateModel, post: StateModel) -> bool {
    &&& pre.last_nonce <= post.last_nonce
    &&& forall|nonce: PacketNonce| #[trigger]
        post.sent_packets.contains_key(nonce) && !pre.sent_packets.contains_key(nonce)
            ==> pre.last_nonce < nonce <= post.last_nonce
}

/// Whether `actions` holds exactly `action`.
pub open spec fn only(actions: Seq<StateAction>, action: StateAction) -> bool {
    actions.len() == 1 && actions[0] == action
}

/// Whether `actions` holds exactly `first`, then `second`.
pub open spec fn pair(actions: Seq<StateAction>, first: StateAction, second: StateAction) -> bool {
    actions.len() == 2 && actions[0] == first && actions[1] == second
}

/// Whether the manager takes a nonce on the event: only a join salt that
/// is accepted is answered with a request of the manager's own.
pub open spec fn server_event_takes_nonce(pre: StateModel, event: ServerEvent) -> bool {
    event matches ServerEvent::ConferenceJoinSalt((nonce, conference, _)) && pre.awaits_join_salt(
        nonce,
        conference,
    )
}

/// Whether the manager takes a nonce on the request: it does to create, to
/// join and to leave a conference, unless the password cannot be hashed.
pub open spec fn ui_action_takes_nonce(action: UIAction) -> bool {
    match action {
        UIAction::CreateConference(password) => hashable(password),
        UIAction::JoinConference((_, password)) => hashable(password),
        UIAction::LeaveConference(_) => true,
        UIAction::SendMessage(_) => false,
        UIAction::Disconnect => false,
    }
}

/// What the manager does on the request to create a conference, with the
/// two salts drawn for it: the password is hashed under the join salt, and
/// the request goes out under the next nonce with the hash and both salts.
/// A password that cannot be hashed fails at once.
pub open spec fn creation_step(
    pre: StateModel,
    password: String,
    join_salt: [u8; 32],
    encryption_salt: [u8; 32],
    post: StateModel,
    actions: Seq<StateAction>,
) -> bool {
    if hashable(password) {
        &&& post == pre.requested(SentEvent::CreateConference)
        &&& actions.len() == 1
        &&& actions[0] matches StateAction::Send(
            ClientEvent::CreateConference((n, hash, sent_join_salt, sent_encryption_salt)),
        )
        &&& n == post.last_nonce
        &&& hash@ == argon2_digest(text_bytes(password), join_salt@)
        &&& sent_join_salt == join_salt
        &&& sent_encryption_salt == encryption_salt
    } else {
        post == pre && only(actions, StateAction::Notify(UIEvent::ConferenceCreateFailed))
    }
}

/// What the manager does on an event from the relay: the state after it
/// and the actions that it asks for.
///
/// A reply is accepted when the request recorded under its nonce has the
/// shape and the conference that the reply answers; an accepted reply
/// consumes the record. Every other reply is dropped: no action, no change.
pub open spec fn server_step(
    pre: StateModel,
    event: ServerEvent,
    post: StateModel,
    actions: Seq<StateAction>,
) -> bool {
    match event {
        ServerEvent::HandshakeAcknowledged => false,
        ServerEvent::ConferenceCreated((nonce, conference)) => {
            if pre.awaits(nonce, SentEvent::CreateConference) {
                &&& post == pre.answered(nonce)
                &&& only(actions, StateAction::Notify(UIEvent::ConferenceCreated(conference)))
            } else {
                post == pre && actions.len() == 0
            }
        },
        ServerEvent::ConferenceJoinSalt((nonce, conference, join_salt)) => {
            if pre.awaits_join_salt(nonce, conference) {
                let password = pre.password(nonce);
                &&& post == pre.answered(nonce).requested(
                    SentEvent::JoinConference((conference, password)),
                )
                &&& actions.len() == 1
                &&& actions[0] matches StateAction::Send(
                    ClientEvent::JoinConference((n, c, hash)),
                )
                &&& n == post.last_nonce
                &&& c == conference
                &&& hash@ == argon2_digest(text_bytes(password), join_salt@)
            } else {
                post == pre && actions.len() == 0
            }
        },
        ServerEvent::ConferenceJoined((nonce, conference, number_of_peers, encryption_salt)) => {
            if pre.awaits_join(nonce, conference) {
                let password = pre.password(nonce);
                &&& post == pre.answered(nonce).joined(conference)
                &&& actions.len() == 2
                &&& actions[0] matches StateAction::StartConference((c, n, key))
                &&& c == conference
                &&& n == number_of_peers
                &&& key@ == argon2_digest(text_bytes(password), encryption_salt@)
                &&& actions[1] == StateAction::Notify(
                    UIEvent::ConferenceJoined((conference, number_of_peers)),
                )
            } else {
                post == pre && actions.len() == 0
            }
        },
        ServerEvent::ConferenceLeft((nonce, conference)) => {
            if pre.awaits(nonce, SentEvent::LeaveConference(conference)) {
                &&& post == pre.answered(nonce).left(conference)
                &&& pair(
                    actions,
                    StateAction::Notify(UIEvent::ConferenceLeft(conference)),
                    StateAction::StopConference(conference),
                )
            } else {
                post == pre && actions.len() == 0
            }
        },
        ServerEvent::MessageAccepted((nonce, conference)) => {
            if pre.awaits_delivery(nonce, conference) {
                &&& post == pre.answered(nonce)
                &&& only(
                    actions,
                    StateAction::Notify(
                        UIEvent::MessageAccepted((conference, pre.message_id(nonce))),
                    ),
                )
            } else {
                post == pre && actions.len() == 0
            }
        },
        ServerEvent::ConferenceRestructuring((conference, number_of_peers)) => {
            &&& post == pre
            &&& if pre.conferences.contains(conference) {
                pair(
                    actions,
                    StateAction::Forward(
                        (conference, ConferenceEvent::ConferenceRestructuring(number_of_peers)),
                    ),
                    StateAction::Notify(
                        UIEvent::ConferenceRestructuring((conference, number_of_peers)),
                    ),
                )
            } else {
                actions.len() == 0
            }
        },
        ServerEvent::IncomingMessage((conference, message)) => {
            &&& post == pre
            &&& if pre.conferences.contains(conference) {
                only(
                    actions,
                    StateAction::Forward((conference, ConferenceEvent::IncomingMessage(message))),
                )
            } else {
                actions.len() == 0
            }
        },
        ServerEvent::GeneralError => post == pre && only(actions, StateAction::Shutdown),
        ServerEvent::ConferenceCreationError(nonce) => {
            if pre.awaits(nonce, SentEvent::CreateConference) {
                &&& post == pre.answered(nonce)
                &&& only(actions, StateAction::Notify(UIEvent::ConferenceCreateFailed))
            } else {
                post == pre && actions.len() == 0
            }
        },
        ServerEvent::ConferenceJoinSaltError((nonce, conference)) => {
            if pre.awaits_join_salt(nonce, conference) {
                &&& post == pre.answered(nonce)
                &&& only(actions, StateAction::Notify(UIEvent::ConferenceJoinFailed(conference)))
            } else {
                post == pre && actions.len() == 0
            }
        },
        ServerEvent::ConferenceJoinError((nonce, conference)) => {
            if pre.awaits_join(nonce, conference) {
                &&& post == pre.answered(nonce)
                &&& only(actions, StateAction::Notify(UIEvent::ConferenceJoinFailed(conference)))
            } else {
                post == pre && actions.len() == 0
            }
        },
        ServerEvent::ConferenceLeaveError((nonce, conference)) => {
            if pre.awaits(nonce, SentEvent::LeaveConference(conference)) {
                &&& post == pre.answered(nonce).left(conference)
                &&& pair(
                    actions,
                    StateAction::Notify(UIEvent::ConferenceLeft(conference)),
                    StateAction::StopConference(conference),
                )
            } else {
                post == pre && actions.len() == 0
            }
        },
        ServerEvent::MessageError((nonce, conference)) => {
            if pre.awaits_delivery(nonce, conference) {
                &&& post == pre.answered(nonce)
                &&& only(
                    actions,
                    StateAction::Notify(
                        UIEvent::MessageRejected((conference, pre.message_id(nonce))),
                    ),
                )
            } else {
                post == pre && actions.len() == 0
            }
        },
    }
}

/// What the manager does with a framed message that a conference manager
/// hands it: the message goes to the relay under the next nonce, and where
/// it carries a message identifier the request is recorded with it.
pub open spec fn message_step(
    pre: StateModel,
    message: Message,
    post: StateModel,
    actions: Seq<StateAction>,
) -> bool {
    &&& post == match message.message_id {
        Some(id) => pre.requested(SentEvent::SendMessage((message.conference, id))),
        None => pre.skipped(),
    }
    &&& only(actions, StateAction::Send(ClientEvent::SendMessage((post.last_nonce, message))))
}

/// What the manager does on a request of the user interface.
pub open spec fn ui_step(
    pre: StateModel,
    action: UIAction,
    post: StateModel,
    actions: Seq<StateAction>,
) -> bool {
    match action {
        UIAction::CreateConference(password) => {
            if hashable(password) {
                &&& post == pre.requested(SentEvent::CreateConference)
                &&& actions.len() == 1
                &&& actions[0] matches StateAction::Send(
                    ClientEvent::CreateConference((n, hash, join_salt, _)),
                )
                &&& n == post.last_nonce
                &&& hash@ == argon2_digest(text_bytes(password), join_salt@)
            } else {
                post == pre && only(actions, StateAction::Notify(UIEvent::ConferenceCreateFailed))
            }
        },
        UIAction::JoinConference((conference, password)) => {
            if hashable(password) {
                &&& post == pre.requested(SentEvent::GetConferenceJoinSalt((conference, password)))
                &&& only(
                    actions,
                    StateAction::Send(
                        ClientEvent::GetConferenceJoinSalt((post.last_nonce, conference)),
                    ),
                )
            } else {
                post == pre && only(
                    actions,
                    StateAction::Notify(UIEvent::ConferenceJoinFailed(conference)),
                )
            }
        },
        UIAction::LeaveConference(conference) => {
            &&& post == pre.requested(SentEvent::LeaveConference(conference))
            &&& only(
                actions,
                StateAction::Send(ClientEvent::LeaveConference((post.last_nonce, conference))),
            )
        },
        UIAction::SendMessage((conference, message_id, text)) => {
            &&& post == pre
            &&& if pre.conferences.contains(conference) {
                &&& actions.len() == 1
                &&& actions[0] matches StateAction::Forward(
                    (c, ConferenceEvent::OutboundMessage((id, bytes))),
                )
                &&& c == conference
                &&& id == message_id
                &&& bytes@ == text_bytes(text)
            } else {
                only(actions, StateAction::Notify(UIEvent::MessageError((conference, message_id))))
            }
        },
        UIAction::Disconnect => {
            &&& post == pre.closed()
            &&& pair(actions, StateAction::Send(ClientEvent::Disconnect), StateAction::Shutdown)
        },
    }
}

impl StateManager {
    /// A manager with no conference and no request in flight.
    pub fn new() -> (manager: StateManager)
        ensures
            manager@.wf(),
            manager@.conferences == Set::<ConferenceId>::empty(),
            manager@.sent_packets == Map::<PacketNonce, SentEvent>::empty(),
            manager@.last_nonce == 0,
    {
        StateManager {
            conferences: HashSet::new(),
            sent_packets: HashMap::new(),
            send_packets_last_index: 0,
        }
    }

    /// Gives out the next nonce.
    fn take_nonce(&mut self) -> (nonce: PacketNonce)
        requires
            old(self)@.last_nonce < u32::MAX,
        ensures
            nonce == old(self)@.last_nonce + 1,
            final(self)@ == old(self)@.skipped(),
    {
        self.send_packets_last_index = self.send_packets_last_index + 1;
        self.send_packets_last_index
    }

    /// Gives out the next nonce and records the request sent under it.
    fn record(&mut self, sent: SentEvent) -> (nonce: PacketNonce)
        requires
            old(self)@.wf(),
            old(self)@.last_nonce < u32::MAX,
            sent matches SentEvent::GetConferenceJoinSalt((_, password)) ==> hashable(password),
            sent matches SentEvent::JoinConference((_, password)) ==> hashable(password),
        ensures
            nonce == old(self)@.last_nonce + 1,
            final(self)@ == old(self)@.requested(sent),
            final(self)@.wf(),
            nonces_advance(old(self)@, final(self)@),
    {
        let nonce = self.take_nonce();
        self.sent_packets.insert(nonce, sent);
        nonce
    }

    /// Consumes the record of an answered request.
    fn consume(&mut self, nonce: PacketNonce)
        requires
            old(self)@.wf(),
        ensures
            final(self)@ == old(self)@.answered(nonce),
            final(self)@.wf(),
            nonces_advance(old(self)@, final(self)@),
    {
        self.sent_packets.remove(&nonce);
    }

    /// Tells whether the request under `nonce` asked to create a conference.
    fn awaits_creation(&self, nonce: PacketNonce) -> (accepted: bool)
        ensures
            accepted == self@.awaits(nonce, SentEvent::CreateConference),
    {
        match self.sent_packets.get(&nonce) {
            Some(SentEvent::CreateConference) => true,
            _ => false,
        }
    }

    /// Tells whether the request under `nonce` asked to leave `conference`.
    fn awaits_leave(&self, nonce: PacketNonce, conference: ConferenceId) -> (accepted: bool)
        ensures
            accepted == self@.awaits(nonce, SentEvent::LeaveConference(conference)),
    {
        match self.sent_packets.get(&nonce) {
            Some(SentEvent::LeaveConference(expected)) => *expected == conference,
            _ => false,
        }
    }

    /// The password of the request under `nonce`, where it asked for the
    /// join salt of `conference`.
    fn awaited_join_salt(&self, nonce: PacketNonce, conference: ConferenceId) -> (password: Option<
        String,
    >)
        ensures
            password is Some <==> self@.awaits_join_salt(nonce, conference),
            password is Some ==> password.unwrap() == self@.password(nonce),
    {
        match self.sent_packets.get(&nonce) {
            Some(SentEvent::GetConferenceJoinSalt((expected, password))) => {
                if *expected == conference {
                    Some(password.clone())
                } else {
                    None
                }
            },
            _ => None,
        }
    }

    /// The password of the request under `nonce`, where it asked to join
    /// `conference`.
    fn awaited_join(&self, nonce: PacketNonce, conference: ConferenceId) -> (password: Option<
        String,
    >)
        ensures
            password is Some <==> self@.awaits_join(nonce, conference),
            password is Some ==> password.unwrap() == self@.password(nonce),
    {
        match self.sent_packets.get(&nonce) {
            Some(SentEvent::JoinConference((expected, password))) => {
                if *expected == conference {
                    Some(password.clone())
                } else {
                    None
                }
            },
            _ => None,
        }
    }

    /// The message identifier of the request under `nonce`, where it sent a
    /// message to `conference`.
    fn awaited_delivery(&self, nonce: PacketNonce, conference: ConferenceId) -> (id: Option<
        MessageID,
    >)
        ensures
            id is Some <==> self@.awaits_delivery(nonce, conference),
            id is Some ==> id.unwrap() == self@.message_id(nonce),
    {
        match self.sent_packets.get(&nonce) {
            Some(SentEvent::SendMessage((expected, id))) => {
                if *expected == conference {
                    Some(*id)
                } else {
                    None
                }
            },
            _ => None,
        }
    }

    /// Tells whether `handle_server_event` takes a nonce on the event.
    pub fn takes_nonce_on_server_event(&self, event: &ServerEvent) -> (takes: bool)
        ensures
            takes == server_event_takes_nonce(self@, *event),
    {
        match event {
            ServerEvent::ConferenceJoinSalt((nonce, conference, _)) => {
                self.awaited_join_salt(*nonce, *conference).is_some()
            },
            _ => false,
        }
    }

    /// Tells whether `handle_ui_action` takes a nonce on the request.
    pub fn takes_nonce_on_ui_action(action: &UIAction) -> (takes: bool)
        ensures
            takes == ui_action_takes_nonce(*action),
    {
        match action {
            UIAction::CreateConference(password) => password.as_str().as_bytes().len()
                <= u32::MAX as usize,
            UIAction::JoinConference((_, password)) => password.as_str().as_bytes().len()
                <= u32::MAX as usize,
            UIAction::LeaveConference(_) => true,
            UIAction::SendMessage(_) => false,
            UIAction::Disconnect => false,
        }
    }

    /// Handles an event from the relay.
    ///
    /// The relay acknowledges the handshake before the manager runs: that
    /// event is not taken here. The nonce counter has to have a nonce left
    /// only where the event takes one.
    pub fn handle_server_event(&mut self, event: ServerEvent) -> (actions: Vec<StateAction>)
        requires
            old(self)@.wf(),
            !(event is HandshakeAcknowledged),
            server_event_takes_nonce(old(self)@, event) ==> old(self)@.last_nonce < u32::MAX,
        ensures
            final(self)@.wf(),
            server_step(old(self)@, event, final(self)@, actions@),
            nonces_advance(old(self)@, final(self)@),
    {
        let mut actions: Vec<StateAction> = Vec::new();
        match event {
            ServerEvent::HandshakeAcknowledged => {},
            ServerEvent::ConferenceCreated((nonce, conference)) => {
                if self.awaits_creation(nonce) {
                    self.consume(nonce);
                    actions.push(StateAction::Notify(UIEvent::ConferenceCreated(conference)));
                }
            },
            ServerEvent::ConferenceJoinSalt((nonce, conference, join_salt)) => {
                if let Some(password) = self.awaited_join_salt(nonce, conference) {
                    let password_hash = hash_password_with_salt(
                        password.as_str().as_bytes(),
                        &join_salt,
                    );
                    self.consume(nonce);
                    let new_nonce = self.record(SentEvent::JoinConference((conference, password)));
                    actions.push(
                        StateAction::Send(
                            ClientEvent::JoinConference((new_nonce, conference, password_hash)),
                        ),
                    );
                }
            },
            ServerEvent::ConferenceJoined((nonce, conference, number_of_peers, encryption_salt)) => {
                if let Some(password) = self.awaited_join(nonce, conference) {
                    let initial_encryption_key = hash_password_with_salt(
                        password.as_str().as_bytes(),
                        &encryption_salt,
                    );
                    self.consume(nonce);
                    self.conferences.insert(conference);
                    actions.push(
                        StateAction::StartConference(
                            (conference, number_of_peers, initial_encryption_key),
                        ),
                    );
                    actions.push(
                        StateAction::Notify(
                            UIEvent::ConferenceJoined((conference, number_of_peers)),
                        ),
                    );
                }
            },
            ServerEvent::ConferenceLeft((nonce, conference)) => {
                if self.awaits_leave(nonce, conference) {
                    self.consume(nonce);
                    self.conferences.remove(&conference);
                    actions.push(StateAction::Notify(UIEvent::ConferenceLeft(conference)));
                    actions.push(StateAction::StopConference(conference));
                }
            },
            ServerEvent::MessageAccepted((nonce, conference)) => {
                if let Some(message_id) = self.awaited_delivery(nonce, conference) {
                    self.consume(nonce);
                    actions.push(
                        StateAction::Notify(UIEvent::MessageAccepted((conference, message_id))),
                    );
                }
            },
            ServerEvent::ConferenceRestructuring((conference, number_of_peers)) => {
                if self.conferences.contains(&conference) {
                    actions.push(
                        StateAction::Forward(
                            (conference, ConferenceEvent::ConferenceRestructuring(number_of_peers)),
                        ),
                    );
                    actions.push(
                        StateAction::Notify(
                            UIEvent::ConferenceRestructuring((conference, number_of_peers)),
                        ),
                    );
                }
            },
            ServerEvent::IncomingMessage((conference, message)) => {
                if self.conferences.contains(&conference) {
                    actions.push(
                        StateAction::Forward(
                            (conference, ConferenceEvent::IncomingMessage(message)),
                        ),
                    );
                }
            },
            ServerEvent::GeneralError => {
                actions.push(StateAction::Shutdown);
            },
            ServerEvent::ConferenceCreationError(nonce) => {
                if self.awaits_creation(nonce) {
                    self.consume(nonce);
                    actions.push(StateAction::Notify(UIEvent::ConferenceCreateFailed));
                }
            },
            ServerEvent::ConferenceJoinSaltError((nonce, conference)) => {
                if self.awaited_join_salt(nonce, conference).is_some() {
                    self.consume(nonce);
                    actions.push(StateAction::Notify(UIEvent::ConferenceJoinFailed(conference)));
                }
            },
            ServerEvent::ConferenceJoinError((nonce, conference)) => {
                if self.awaited_join(nonce, conference).is_some() {
                    self.consume(nonce);
                    actions.push(StateAction::Notify(UIEvent::ConferenceJoinFailed(conference)));
                }
            },
            ServerEvent::ConferenceLeaveError((nonce, conference)) => {
                if self.awaits_leave(nonce, conference) {
                    self.consume(nonce);
                    self.conferences.remove(&conference);
                    actions.push(StateAction::Notify(UIEvent::ConferenceLeft(conference)));
                    actions.push(StateAction::StopConference(conference));
                }
            },
            ServerEvent::MessageError((nonce, conference)) => {
                if let Some(message_id) = self.awaited_delivery(nonce, conference) {
                    self.consume(nonce);
                    actions.push(
                        StateAction::Notify(UIEvent::MessageRejected((conference, message_id))),
                    );
                }
            },
        }
        actions
    }

    /// Handles a framed message handed over by a conference manager. It
    /// goes out under the next nonce, so the counter has to have one left.
    pub fn handle_message(&mut self, message: Message) -> (actions: Vec<StateAction>)
        requires
            old(self)@.wf(),
            old(self)@.last_nonce < u32::MAX,
        ensures
            final(self)@.wf(),
            message_step(old(self)@, message, final(self)@, actions@),
            nonces_advance(old(self)@, final(self)@),
    {
        let nonce = match message.message_id {
            Some(id) => self.record(SentEvent::SendMessage((message.conference, id))),
            None => self.take_nonce(),
        };
        let mut actions: Vec<StateAction> = Vec::new();
        actions.push(StateAction::Send(ClientEvent::SendMessage((nonce, message))));
        actions
    }

    /// Asks the relay for a new conference with the given password, with
    /// `join_salt` and `encryption_salt` as the salts drawn for it.
    pub fn create_conference_with_salts(
        &mut self,
        password: String,
        join_salt: [u8; 32],
        encryption_salt: [u8; 32],
    ) -> (actions: Vec<StateAction>)
        requires
            old(self)@.wf(),
            hashable(password) ==> old(self)@.last_nonce < u32::MAX,
        ensures
            final(self)@.wf(),
            creation_step(
                old(self)@,
                password,
                join_salt,
                encryption_salt,
                final(self)@,
                actions@,
            ),
            nonces_advance(old(self)@, final(self)@),
    {
        let mut actions: Vec<StateAction> = Vec::new();
        if password.as_str().as_bytes().len() > u32::MAX as usize {
            actions.push(StateAction::Notify(UIEvent::ConferenceCreateFailed));
        } else {
            let password_hash = hash_password_with_salt(password.as_str().as_bytes(), &join_salt);
            let nonce = self.record(SentEvent::CreateConference);
            actions.push(
                StateAction::Send(
                    ClientEvent::CreateConference(
                        (nonce, password_hash, join_salt, encryption_salt),
                    ),
                ),
            );
        }
        actions
    }

    /// Handles the end of the user interface: its channel of requests was
    /// closed, which counts as the request to disconnect.
    pub fn handle_ui_closed(&mut self) -> (actions: Vec<StateAction>)
        requires
            old(self)@.wf(),
        ensures
            final(self)@.wf(),
            ui_step(old(self)@, UIAction::Disconnect, final(self)@, actions@),
            nonces_advance(old(self)@, final(self)@),
    {
        self.handle_ui_action(UIAction::Disconnect)
    }

    /// Handles a request of the user interface. The nonce counter has to
    /// have a nonce left only where the request takes one.
    pub fn handle_ui_action(&mut self, action: UIAction) -> (actions: Vec<StateAction>)
        requires
            old(self)@.wf(),
            ui_action_takes_nonce(action) ==> old(self)@.last_nonce < u32::MAX,
        ensures
            final(self)@.wf(),
            ui_step(old(self)@, action, final(self)@, actions@),
            nonces_advance(old(self)@, final(self)@),
    {
        let mut actions: Vec<StateAction> = Vec::new();
        match action {
            UIAction::CreateConference(password) => {
                let join_salt = generate_salt();
                let encryption_salt = generate_salt();
                return self.create_conference_with_salts(password, join_salt, encryption_salt);
            },
            UIAction::JoinConference((conference, password)) => {
                if password.as_str().as_bytes().len() > u32::MAX as usize {
                    actions.push(StateAction::Notify(UIEvent::ConferenceJoinFailed(conference)));
                } else {
                    let nonce = self.record(
                        SentEvent::GetConferenceJoinSalt((conference, password)),
                    );
                    actions.push(
                        StateAction::Send(ClientEvent::GetConferenceJoinSalt((nonce, conference))),
                    );
                }
            },
            UIAction::LeaveConference(conference) => {
                let nonce = self.record(SentEvent::LeaveConference(conference));
                actions.push(StateAction::Send(ClientEvent::LeaveConference((nonce, conference))));
            },
            UIAction::SendMessage((conference, message_id, text)) => {
                if self.conferences.contains(&conference) {
                    let bytes = tail_from(text.as_str().as_bytes(), 0);
                    assert(bytes@ =~= text_bytes(text));
                    actions.push(
                        StateAction::Forward(
                            (conference, ConferenceEvent::OutboundMessage((message_id, bytes))),
                        ),
                    );
                } else {
                    actions.push(
                        StateAction::Notify(UIEvent::MessageError((conference, message_id))),
                    );
                }
            },
            UIAction::Disconnect => {
                self.conferences.clear();
                actions.push(StateAction::Send(ClientEvent::Disconnect));
                actions.push(StateAction::Shutdown);
            },
        }
        actions
    }
}

/// The nonce that the next request goes out under is greater than every
/// nonce recorded, so no two requests in flight share a nonce; and
/// recording the request keeps the invariant.
pub proof fn lemma_next_nonce_is_fresh(pre: StateModel, sent: SentEvent)
    requires
        pre.wf(),
        pre.last_nonce < u32::MAX,
        sent matches SentEvent::GetConferenceJoinSalt((_, password)) ==> hashable(password),
        sent matches SentEvent::JoinConference((_, password)) ==> hashable(password),
    ensures
        !pre.sent_packets.contains_key((pre.last_nonce + 1) as u32),
        forall|nonce: PacketNonce| #[trigger]
            pre.sent_packets.contains_key(nonce) ==> nonce < pre.last_nonce + 1,
        pre.requested(sent).wf(),
        nonces_advance(pre, pre.requested(sent)),
{
}

/// Once the relay has confirmed that a conference was left, the conference
/// is absent from the table, and while it is absent no step hands an event
/// to its manager.
pub proof fn lemma_left_conference_gets_no_event(
    pre: StateModel,
    event: ServerEvent,
    post: StateModel,
    actions: Seq<StateAction>,
    conference: ConferenceId,
    i: int,
)
    requires
        server_step(pre, event, post, actions),
        0 <= i < actions.len(),
    ensures
        (event matches ServerEvent::ConferenceLeft((nonce, c)) && c == conference && pre.awaits(
            nonce,
            SentEvent::LeaveConference(conference),
        )) ==> !post.conferences.contains(conference),
        !pre.conferences.contains(conference) ==> !(actions[i] matches StateAction::Forward(
            (c, _),
        ) && c == conference),
{
}

/// A confirmed leave takes the conference out of the table and the request
/// out of the requests in flight, tells the user interface, and leaves
/// every other entry of both tables and the nonce counter as they were.
pub proof fn lemma_leave_confirmed(
    pre: StateModel,
    nonce: PacketNonce,
    conference: ConferenceId,
    post: StateModel,
    actions: Seq<StateAction>,
)
    requires
        pre.awaits(nonce, SentEvent::LeaveConference(conference)),
        server_step(pre, ServerEvent::ConferenceLeft((nonce, conference)), post, actions),
    ensures
        !post.conferences.contains(conference),
        !post.sent_packets.contains_key(nonce),
        forall|other: ConferenceId|
            other != conference ==> post.conferences.contains(other) == pre.conferences.contains(
                other,
            ),
        forall|other: PacketNonce|
            other != nonce ==> post.sent_packets.contains_key(other)
                == pre.sent_packets.contains_key(other),
        forall|other: PacketNonce|
            other != nonce && pre.sent_packets.contains_key(other) ==> post.sent_packets[other]
                == pre.sent_packets[other],
        post.last_nonce == pre.last_nonce,
        actions.len() == 2,
        actions[0] == StateAction::Notify(UIEvent::ConferenceLeft(conference)),
        actions[1] == StateAction::StopConference(conference),
{
}

/// A conference that is absent from the table is silent: a message and a
/// restructuring that the relay sends for it are dropped, with no action
/// and no change, and a text that the user interface wants to send to it
/// gives a message error and nothing else.
pub proof fn lemma_absent_conference_is_silent(
    pre: StateModel,
    conference: ConferenceId,
    event: ServerEvent,
    action: UIAction,
    post: StateModel,
    actions: Seq<StateAction>,
)
    requires
        !pre.conferences.contains(conference),
    ensures
        (event matches ServerEvent::IncomingMessage((c, _)) && c == conference && server_step(
            pre,
            event,
            post,
            actions,
        )) ==> post == pre && actions.len() == 0,
        (event matches ServerEvent::ConferenceRestructuring((c, _)) && c == conference
            && server_step(pre, event, post, actions)) ==> post == pre && actions.len() == 0,
        (action matches UIAction::SendMessage((c, id, _)) && c == conference && ui_step(
            pre,
            action,
            post,
            actions,
        )) ==> post == pre && actions.len() == 1 && actions[0] == StateAction::Notify(
            UIEvent::MessageError((conference, action->SendMessage_0.1)),
        ),
{
}

/// While a conference is absent from the table, no request of the user
/// interface hands an event to its manager.
pub proof fn lemma_absent_conference_gets_no_event(
    pre: StateModel,
    action: UIAction,
    post: StateModel,
    actions: Seq<StateAction>,
    conference: ConferenceId,
    i: int,
)
    requires
        ui_step(pre, action, post, actions),
        !pre.conferences.contains(conference),
        0 <= i < actions.len(),
    ensures
        !(actions[i] matches StateAction::Forward((c, _)) && c == conference),
{
}

/// No request of the user interface and no message of a conference manager
/// adds a conference to the table.
pub proof fn lemma_requests_add_no_conference(
    pre: StateModel,
    action: UIAction,
    message: Message,
    post: StateModel,
    actions: Seq<StateAction>,
    conference: ConferenceId,
)
    requires
        ui_step(pre, action, post, actions) || message_step(pre, message, post, actions),
        !pre.conferences.contains(conference),
    ensures
        !post.conferences.contains(conference),
{
}

/// A conference enters the table only when the relay confirms a join that
/// was asked for.
pub proof fn lemma_table_grows_only_on_join(
    pre: StateModel,
    event: ServerEvent,
    post: StateModel,
    actions: Seq<StateAction>,
    conference: ConferenceId,
)
    requires
        server_step(pre, event, post, actions),
        !pre.conferences.contains(conference),
        post.conferences.contains(conference),
    ensures
        event matches ServerEvent::ConferenceJoined((nonce, c, _, _)) && c == conference
            && pre.awaits_join(nonce, conference),
{
}

} // verus!
