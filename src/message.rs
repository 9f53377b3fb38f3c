//! The messages that pass between connections and the relay.
use vstd::prelude::*;

verus! {

/// A signal addressed from one peer to another. `content` is opaque: the
/// relay never reads it.
pub struct WebRTCMessage {
    pub from: String,
    pub to: Option<String>,
    pub room_id: String,
    pub content: String,
}

/// The view of an optional string.
pub open spec fn opt_view(o: Option<String>) -> Option<Seq<char>> {
    match o {
        Some(s) => Some(s@),
        None => None,
    }
}

/// A copy of an optional string.
pub fn clone_opt(o: &Option<String>) -> (r: Option<String>)
    ensures
        opt_view(r) == opt_view(*o),
{
    match o {
        Some(s) => Some(s.clone()),
        None => None,
    }
}

impl WebRTCMessage {
    /// Two messages that carry the same text in every field.
    pub open spec fn same_as(&self, o: &WebRTCMessage) -> bool {
        &&& self.from@ == o.from@
        &&& opt_view(self.to) == opt_view(o.to)
        &&& self.room_id@ == o.room_id@
        &&& self.content@ == o.content@
    }

    /// A copy of every field.
    pub fn duplicate(&self) -> (r: WebRTCMessage)
        ensures
            r.same_as(self),
    {
        WebRTCMessage {
            from: self.from.clone(),
            to: clone_opt(&self.to),
            room_id: self.room_id.clone(),
            content: self.content.clone(),
        }
    }
}

/// A message the relay sends to a connection.
pub enum Outbound {
    /// A peer named `from` has joined the receiver's room.
    NewUser { from: String },
    /// A signal addressed to the receiver, passed on unchanged.
    Signal(WebRTCMessage),
}

/// One message for one registered peer, on the connection bound to it.
pub struct Delivery {
    pub peer_id: String,
    pub conn: u64,
    pub message: Outbound,
}

/// A connection asks to be bound to `id` in room `room_id`.
pub struct RegisterSession {
    pub id: String,
    pub conn: u64,
    pub room_id: String,
}

/// Connection `conn`, bound to `id` in room `room_id`, has closed.
pub struct UnregisterSession {
    pub id: String,
    pub conn: u64,
    pub room_id: String,
}

} // verus!
