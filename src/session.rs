//! The lifecycle of one connection: it joins once, then signals, then closes.
use vstd::prelude::*;

use crate::message::{Delivery, RegisterSession, UnregisterSession, WebRTCMessage};
use crate::registry::WebSocketManager;
use vstd::string::StringExecFns;

verus! {

/// An inbound envelope as the wire carries it: a `type` and the optional
/// fields of every shape.
pub struct RawEnvelope {
    pub kind: String,
    pub room: Option<String>,
    pub peer_id: Option<String>,
    pub from: Option<String>,
    pub to: Option<String>,
    pub room_id: Option<String>,
    pub content: Option<String>,
}

/// A well-formed inbound envelope.
pub enum Envelope {
    Join { room: String, peer_id: String },
    Signal(WebRTCMessage),
}

/// The `join` shape: type `join` with a room and a peer identity.
pub open spec fn is_join(raw: RawEnvelope) -> bool {
    raw.kind@ == "join"@ && raw.room is Some && raw.peer_id is Some
}

/// The `signal` shape: type `signal` with a sender, a room and content; the
/// addressee may be absent.
pub open spec fn is_signal(raw: RawEnvelope) -> bool {
    raw.kind@ == "signal"@ && raw.from is Some && raw.room_id is Some && raw.content is Some
}

impl RawEnvelope {
    /// Reads the envelope's shape. Any other type, or a missing field, gives
    /// `None`: such an envelope is dropped.
    pub fn decode(self) -> (r: Option<Envelope>)
        ensures
            is_join(self) ==> (r matches Some(Envelope::Join { room, peer_id })
                && room@ == self.room->Some_0@ && peer_id@ == self.peer_id->Some_0@),
            is_signal(self) ==> (r matches Some(Envelope::Signal(m))
                && m.from@ == self.from->Some_0@ && m.to == self.to && m.room_id@ == self.room_id->Some_0@
                && m.content@ == self.content->Some_0@),
            !is_join(self) && !is_signal(self) ==> r is None,
    {
        let join = String::from_str("join");
        let signal = String::from_str("signal");
        proof {
            reveal_strlit("join");
            reveal_strlit("signal");
            assert("join"@[0] != "signal"@[0]);
        }
        if self.kind == join {
            match (self.room, self.peer_id) {
                (Some(room), Some(peer_id)) => Some(Envelope::Join { room, peer_id }),
                _ => None,
            }
        } else if self.kind == signal {
            match (self.from, self.room_id, self.content) {
                (Some(from), Some(room_id), Some(content)) =>
                    Some(Envelope::Signal(WebRTCMessage { from, to: self.to, room_id, content })),
                _ => None,
            }
        } else {
            None
        }
    }
}

/// Where a connection stands.
pub enum SessionState {
    /// Accepted, no identity bound yet.
    Connecting,
    /// Bound to `peer_id` in `room_id`.
    Joined { peer_id: String, room_id: String },
    /// Terminal.
    Closed,
}

/// What the shared tables are asked to do for an envelope.
pub enum Action {
    Register(RegisterSession),
    Route(WebRTCMessage),
    Nothing,
}

/// One connection: its handle, the room its URL names (a label only), and
/// where it stands.
pub struct WebSocketSession {
    pub conn: u64,
    pub room_id: String,
    pub state: SessionState,
}

impl WebSocketSession {
    /// A connection just accepted.
    pub fn new(conn: u64, room_id: String) -> (r: Self)
        ensures
            r.conn == conn,
            r.room_id == room_id,
            r.state is Connecting,
    {
        WebSocketSession { conn, room_id, state: SessionState::Connecting }
    }

    /// Takes one envelope. The first join binds the connection and asks for
    /// registration; a later join is ignored. A signal is routed once the
    /// connection has joined and dropped before. A closed connection takes
    /// nothing.
    pub fn handle(&mut self, env: Envelope) -> (r: Action)
        ensures
            final(self).conn == old(self).conn,
            final(self).room_id == old(self).room_id,
            match (old(self).state, env) {
                (SessionState::Connecting, Envelope::Join { room, peer_id }) =>
                    (final(self).state matches SessionState::Joined { peer_id: p, room_id: q }
                        && p@ == peer_id@ && q@ == room@)
                    && (r matches Action::Register(m)
                        && m.id@ == peer_id@ && m.conn == old(self).conn && m.room_id@ == room@),
                (SessionState::Joined { .. }, Envelope::Signal(m)) =>
                    final(self).state == old(self).state && r == Action::Route(m),
                _ => final(self).state == old(self).state && r is Nothing,
            },
    {
        match env {
            Envelope::Join { room, peer_id } => {
                if let SessionState::Connecting = self.state {
                    let reg = RegisterSession { id: peer_id.clone(), conn: self.conn, room_id: room.clone() };
                    self.state = SessionState::Joined { peer_id, room_id: room };
                    Action::Register(reg)
                } else {
                    Action::Nothing
                }
            },
            Envelope::Signal(m) => {
                if let SessionState::Joined { .. } = self.state {
                    Action::Route(m)
                } else {
                    Action::Nothing
                }
            },
        }
    }

    /// The connection ends. A joined connection asks to leave under its
    /// identity and room; one that never joined owns no entry.
    pub fn stopping(&mut self) -> (r: Option<UnregisterSession>)
        ensures
            final(self).conn == old(self).conn,
            final(self).room_id == old(self).room_id,
            final(self).state is Closed,
            match old(self).state {
                SessionState::Joined { peer_id, room_id } => r matches Some(u)
                    && u.id@ == peer_id@ && u.conn == old(self).conn && u.room_id@ == room_id@,
                _ => r is None,
            },
    {
        let r = match &self.state {
            SessionState::Joined { peer_id, room_id } =>
                Some(UnregisterSession { id: peer_id.clone(), conn: self.conn, room_id: room_id.clone() }),
            _ => None,
        };
        self.state = SessionState::Closed;
        r
    }
}

impl WebSocketManager {
    /// Carries out what a connection asked for and returns what goes out.
    pub fn dispatch(&mut self, action: Action) -> (r: Vec<Delivery>)
        requires
            old(self).wf(),
        ensures
            final(self).wf(),
            match action {
                Action::Register(m) =>
                    final(self).registry() == crate::registry::step(old(self).registry(), crate::registry::Event::Join(m.id@, m.conn, m.room_id@))
                    && crate::registry::announcement(final(self).registry(), r@, m.id@, m.room_id@),
                Action::Route(m) => final(self).registry() == old(self).registry()
                    && match crate::registry::addressee(old(self).registry(), m) {
                        Some((t, c)) => r@.len() == 1 && r@[0].peer_id@ == t && r@[0].conn == c
                            && r@[0].message == crate::message::Outbound::Signal(m),
                        None => r@.len() == 0,
                    },
                Action::Nothing => final(self).registry() == old(self).registry() && r@.len() == 0,
            },
    {
        match action {
            Action::Register(m) => self.register(m),
            Action::Route(m) => {
                let mut out: Vec<Delivery> = Vec::new();
                if let Some(d) = self.route(m) {
                    out.push(d);
                }
                out
            },
            Action::Nothing => Vec::new(),
        }
    }
}

} // verus!
