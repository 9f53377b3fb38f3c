use signaling::message::{Delivery, Outbound, RegisterSession, UnregisterSession, WebRTCMessage};
use signaling::registry::WebSocketManager;
use signaling::session::{Action, Envelope, RawEnvelope, SessionState, WebSocketSession};

fn join(m: &mut WebSocketManager, id: &str, conn: u64, room: &str) -> Vec<Delivery> {
    m.register(RegisterSession { id: id.to_string(), conn, room_id: room.to_string() })
}

fn leave(m: &mut WebSocketManager, id: &str, conn: u64, room: &str) {
    m.unregister(UnregisterSession { id: id.to_string(), conn, room_id: room.to_string() })
}

fn signal(from: &str, to: Option<&str>, room: &str, content: &str) -> WebRTCMessage {
    WebRTCMessage {
        from: from.to_string(),
        to: to.map(|t| t.to_string()),
        room_id: room.to_string(),
        content: content.to_string(),
    }
}

fn sorted(mut v: Vec<String>) -> Vec<String> {
    v.sort();
    v
}

fn raw(kind: &str) -> RawEnvelope {
    RawEnvelope {
        kind: kind.to_string(),
        room: None,
        peer_id: None,
        from: None,
        to: None,
        room_id: None,
        content: None,
    }
}

#[test]
fn lobby_scenario_alice_and_bob() {
    let mut m = WebSocketManager::new();
    let mut x = WebSocketSession::new(1, "lobby".to_string());
    let mut y = WebSocketSession::new(2, "lobby".to_string());

    let a = x.handle(Envelope::Join { room: "lobby".to_string(), peer_id: "alice".to_string() });
    assert!(m.dispatch(a).is_empty());

    let b = y.handle(Envelope::Join { room: "lobby".to_string(), peer_id: "bob".to_string() });
    let out = m.dispatch(b);
    assert_eq!(out.len(), 1);
    assert_eq!(out[0].conn, 1);
    assert_eq!(out[0].peer_id, "alice");
    assert_eq!(out[0].message.to_text(), "{\"type\":\"new-user\",\"from\":\"bob\"}");

    let s = y.handle(Envelope::Signal(signal("bob", Some("alice"), "lobby", "offer-sdp")));
    let out = m.dispatch(s);
    assert_eq!(out.len(), 1);
    assert_eq!(out[0].conn, 1);
    assert_eq!(
        out[0].message.to_text(),
        "{\"from\":\"bob\",\"to\":\"alice\",\"room_id\":\"lobby\",\"content\":\"offer-sdp\"}"
    );
    assert!(out.iter().all(|d| d.conn != 2));
}

#[test]
fn room_members_are_those_joined_and_not_left() {
    let mut m = WebSocketManager::new();
    join(&mut m, "a", 1, "r");
    join(&mut m, "b", 2, "r");
    join(&mut m, "c", 3, "s");
    assert_eq!(sorted(m.members_of(&"r".to_string())), vec!["a".to_string(), "b".to_string()]);
    assert_eq!(m.members_of(&"s".to_string()), vec!["c".to_string()]);
    leave(&mut m, "a", 1, "r");
    assert_eq!(m.members_of(&"r".to_string()), vec!["b".to_string()]);
    join(&mut m, "b", 2, "s");
    assert!(m.members_of(&"r".to_string()).is_empty());
    assert_eq!(sorted(m.members_of(&"s".to_string())), vec!["b".to_string(), "c".to_string()]);
    assert!(m.members_of(&"nowhere".to_string()).is_empty());
}

#[test]
fn disconnect_clears_registry_and_drops_later_signal() {
    let mut m = WebSocketManager::new();
    join(&mut m, "a", 1, "r");
    join(&mut m, "b", 2, "r");
    leave(&mut m, "a", 1, "r");
    assert_eq!(m.lookup(&"a".to_string()), None);
    assert!(m.room_of_peer(&"a".to_string()).is_none());
    assert_eq!(m.members_of(&"r".to_string()), vec!["b".to_string()]);
    assert!(m.route(signal("b", Some("a"), "r", "x")).is_none());
}

#[test]
fn join_announces_to_existing_members_only() {
    let mut m = WebSocketManager::new();
    join(&mut m, "A", 1, "R");
    join(&mut m, "C", 3, "R");
    join(&mut m, "D", 4, "other");
    let out = join(&mut m, "B", 2, "R");
    let mut got: Vec<(String, u64)> = out.iter().map(|d| (d.peer_id.clone(), d.conn)).collect();
    got.sort();
    assert_eq!(got, vec![("A".to_string(), 1), ("C".to_string(), 3)]);
    for d in &out {
        match &d.message {
            Outbound::NewUser { from } => assert_eq!(from, "B"),
            Outbound::Signal(_) => panic!("expected an announcement"),
        }
    }
}

#[test]
fn first_join_in_empty_room_announces_nothing() {
    let mut m = WebSocketManager::new();
    assert!(join(&mut m, "solo", 9, "empty").is_empty());
    assert_eq!(m.lookup(&"solo".to_string()), Some(9));
    assert_eq!(m.room_of_peer(&"solo".to_string()), Some("empty".to_string()));
}

#[test]
fn unicast_is_verbatim_and_crosses_rooms() {
    let mut m = WebSocketManager::new();
    join(&mut m, "A", 1, "r1");
    join(&mut m, "B", 2, "r2");
    let d = m.route(signal("A", Some("B"), "r1", "X {\"sdp\": 1}")).expect("delivered");
    assert_eq!(d.conn, 2);
    assert_eq!(d.peer_id, "B");
    match d.message {
        Outbound::Signal(s) => {
            assert_eq!(s.content, "X {\"sdp\": 1}");
            assert_eq!(s.from, "A");
            assert_eq!(s.room_id, "r1");
        }
        Outbound::NewUser { .. } => panic!("expected the signal"),
    }
}

#[test]
fn signal_to_unknown_peer_is_dropped() {
    let mut m = WebSocketManager::new();
    join(&mut m, "A", 1, "r");
    assert!(m.route(signal("A", Some("ghost"), "r", "x")).is_none());
}

#[test]
fn signal_without_addressee_goes_nowhere() {
    let mut m = WebSocketManager::new();
    join(&mut m, "A", 1, "r");
    join(&mut m, "B", 2, "r");
    assert!(m.route(signal("A", None, "r", "x")).is_none());
}

#[test]
fn second_join_with_same_identity_supersedes() {
    let mut m = WebSocketManager::new();
    join(&mut m, "p", 1, "r");
    join(&mut m, "p", 2, "r");
    assert_eq!(m.route(signal("q", Some("p"), "r", "x")).map(|d| d.conn), Some(2));
    leave(&mut m, "p", 1, "r");
    assert_eq!(m.lookup(&"p".to_string()), Some(2));
    assert_eq!(m.members_of(&"r".to_string()), vec!["p".to_string()]);
    leave(&mut m, "p", 2, "r");
    assert_eq!(m.lookup(&"p".to_string()), None);
}

#[test]
fn signal_before_join_is_dropped() {
    let mut s = WebSocketSession::new(5, "url-room".to_string());
    let a = s.handle(Envelope::Signal(signal("a", Some("b"), "r", "x")));
    assert!(matches!(a, Action::Nothing));
    assert!(matches!(s.state, SessionState::Connecting));
    assert!(s.stopping().is_none());
    assert!(matches!(s.state, SessionState::Closed));
}

#[test]
fn second_join_on_a_connection_is_ignored() {
    let mut s = WebSocketSession::new(5, "url-room".to_string());
    match s.handle(Envelope::Join { room: "r".to_string(), peer_id: "a".to_string() }) {
        Action::Register(r) => {
            assert_eq!(r.id, "a");
            assert_eq!(r.conn, 5);
            assert_eq!(r.room_id, "r");
        }
        _ => panic!("expected registration"),
    }
    let again = s.handle(Envelope::Join { room: "other".to_string(), peer_id: "b".to_string() });
    assert!(matches!(again, Action::Nothing));
    match s.handle(Envelope::Signal(signal("a", Some("c"), "r", "x"))) {
        Action::Route(m) => assert_eq!(m.content, "x"),
        _ => panic!("expected routing"),
    }
    let u = s.stopping().expect("leaves");
    assert_eq!(u.id, "a");
    assert_eq!(u.room_id, "r");
    assert_eq!(u.conn, 5);
    assert!(matches!(s.handle(Envelope::Signal(signal("a", Some("c"), "r", "x"))), Action::Nothing));
}

#[test]
fn decode_join_and_signal() {
    let mut j = raw("join");
    j.room = Some("lobby".to_string());
    j.peer_id = Some("alice".to_string());
    match j.decode() {
        Some(Envelope::Join { room, peer_id }) => {
            assert_eq!(room, "lobby");
            assert_eq!(peer_id, "alice");
        }
        _ => panic!("expected a join"),
    }
    let mut s = raw("signal");
    s.from = Some("bob".to_string());
    s.room_id = Some("lobby".to_string());
    s.content = Some("c".to_string());
    match s.decode() {
        Some(Envelope::Signal(m)) => {
            assert_eq!(m.from, "bob");
            assert_eq!(m.to, None);
            assert_eq!(m.content, "c");
        }
        _ => panic!("expected a signal"),
    }
}

#[test]
fn decode_rejects_unknown_type_and_missing_fields() {
    let mut u = raw("hello");
    u.room = Some("r".to_string());
    u.peer_id = Some("p".to_string());
    assert!(u.decode().is_none());
    let mut j = raw("join");
    j.room = Some("r".to_string());
    assert!(j.decode().is_none());
    let mut s = raw("signal");
    s.from = Some("a".to_string());
    s.room_id = Some("r".to_string());
    assert!(s.decode().is_none());
}

#[test]
fn outbound_text_escapes_strings() {
    let n = Outbound::NewUser { from: "a\"b\\c\n".to_string() };
    assert_eq!(n.to_text(), "{\"type\":\"new-user\",\"from\":\"a\\\"b\\\\c\\n\"}");
    let s = Outbound::Signal(signal("x", None, "r", "line1\nline2"));
    assert_eq!(
        s.to_text(),
        "{\"from\":\"x\",\"to\":null,\"room_id\":\"r\",\"content\":\"line1\\nline2\"}"
    );
}
