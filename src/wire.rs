//! The text that goes out on a connection: JSON objects framed around
//! string literals that serde_json escapes.
use vstd::prelude::*;
use vstd::string::StringExecFns;

use crate::message::{opt_view, Outbound, WebRTCMessage};

verus! {

/// What serde_json writes for a string: the quoted, escaped JSON literal.
pub uninterp spec fn json_string_of(s: Seq<char>) -> Seq<char>;

/// A character that serde_json copies into a string literal unchanged.
pub open spec fn is_plain_char(c: char) -> bool {
    c != '"' && c != '\\' && (c as u32) >= 0x20
}

/// A string that serde_json quotes without escaping anything.
pub open spec fn is_plain(s: Seq<char>) -> bool {
    forall|i: int| 0 <= i < s.len() ==> is_plain_char(#[trigger] s[i])
}

/// Relies on `serde_json::to_string` applied to a `str`: the JSON string
/// literal of `s`, which is `s` between double quotes when no character
/// needs an escape. Serializing a `str` into memory cannot fail.
#[verifier::external_body]
fn json_quote(s: &str) -> (r: String)
    ensures
        r@ == json_string_of(s@),
        is_plain(s@) ==> r@ == seq!['"'] + s@ + seq!['"'],
{
    serde_json::to_string(s).unwrap_or_default()
}

/// The text of a `new-user` announcement for the peer `from`.
pub open spec fn new_user_text(from: Seq<char>) -> Seq<char> {
    "{\"type\":\"new-user\",\"from\":"@ + json_string_of(from) + "}"@
}

/// The JSON text of an optional peer identity: `null` when absent.
pub open spec fn json_opt_of(o: Option<Seq<char>>) -> Seq<char> {
    match o {
        Some(s) => json_string_of(s),
        None => "null"@,
    }
}

/// The text of a signal passed on to its addressee: the envelope itself.
pub open spec fn signal_text(from: Seq<char>, to: Option<Seq<char>>, room_id: Seq<char>, content: Seq<char>) -> Seq<char> {
    "{\"from\":"@ + json_string_of(from) + ",\"to\":"@ + json_opt_of(to) + ",\"room_id\":"@
        + json_string_of(room_id) + ",\"content\":"@ + json_string_of(content) + "}"@
}

/// The text that goes out on the wire for a message.
pub open spec fn outbound_text(m: Outbound) -> Seq<char> {
    match m {
        Outbound::NewUser { from } => new_user_text(from@),
        Outbound::Signal(s) => signal_text(s.from@, opt_view(s.to), s.room_id@, s.content@),
    }
}

/// Appends the JSON text of an optional peer identity.
fn push_opt(out: &mut String, o: &Option<String>)
    ensures
        final(out)@ == old(out)@ + json_opt_of(opt_view(*o)),
{
    match o {
        Some(s) => {
            let q = json_quote(s.as_str());
            out.append(q.as_str());
        },
        None => out.append("null"),
    }
}

/// The text of a signal.
fn encode_signal(m: &WebRTCMessage) -> (r: String)
    ensures
        r@ == signal_text(m.from@, opt_view(m.to), m.room_id@, m.content@),
{
    let mut out = String::from_str("{\"from\":");
    out.append(json_quote(m.from.as_str()).as_str());
    out.append(",\"to\":");
    push_opt(&mut out, &m.to);
    out.append(",\"room_id\":");
    out.append(json_quote(m.room_id.as_str()).as_str());
    out.append(",\"content\":");
    out.append(json_quote(m.content.as_str()).as_str());
    out.append("}");
    out
}

impl Outbound {
    /// The text sent on the receiving connection.
    pub fn to_text(&self) -> (r: String)
        ensures
            r@ == outbound_text(*self),
    {
        match self {
            Outbound::NewUser { from } => {
                let mut out = String::from_str("{\"type\":\"new-user\",\"from\":");
                out.append(json_quote(from.as_str()).as_str());
                out.append("}");
                out
            },
            Outbound::Signal(m) => encode_signal(m),
        }
    }
}

} // verus!
