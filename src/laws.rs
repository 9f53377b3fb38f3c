//! What holds of the relay across calls, over the registry model that
//! `register`, `unregister` and `route` state their effects in.
use vstd::prelude::*;

use crate::message::{Delivery, WebRTCMessage};
use crate::registry::{addressee, announcement, announces, members_in, step, targets, Event};

verus! {

/// The registry after a history of events, from an empty one.
pub open spec fn replay(es: Seq<Event>) -> Map<Seq<char>, (u64, Seq<char>)>
    decreases es.len(),
{
    if es.len() == 0 {
        Map::empty()
    } else {
        step(replay(es.drop_last()), es.last())
    }
}

/// The latest join of `p` in a history, unless the connection of that join
/// has closed since.
pub open spec fn standing(es: Seq<Event>, p: Seq<char>) -> Option<(u64, Seq<char>)>
    decreases es.len(),
{
    if es.len() == 0 {
        None
    } else {
        let prev = standing(es.drop_last(), p);
        match es.last() {
            Event::Join(q, c, r) => if q == p { Some((c, r)) } else { prev },
            Event::Leave(q, c) => if q == p && (prev matches Some((c0, _)) && c0 == c) { None } else { prev },
        }
    }
}

/// The peers that joined room `r` in a history and have not left since.
pub open spec fn joined_not_left(es: Seq<Event>, r: Seq<char>) -> Set<Seq<char>> {
    Set::new(|p: Seq<char>| standing(es, p) matches Some((_, q)) && q == r)
}

proof fn lemma_replay_is_standing(es: Seq<Event>, p: Seq<char>)
    ensures
        replay(es).contains_key(p) == (standing(es, p) is Some),
        replay(es).contains_key(p) ==> replay(es)[p] == standing(es, p)->Some_0,
    decreases es.len(),
{
    if es.len() > 0 {
        lemma_replay_is_standing(es.drop_last(), p);
    }
}

/// For every history of joins and leaves, the members of a room are exactly
/// the peers that joined it and have not left since.
pub proof fn lemma_members_are_joined_not_left(es: Seq<Event>, r: Seq<char>)
    ensures
        members_in(replay(es), r) == joined_not_left(es, r),
{
    assert forall|p: Seq<char>| members_in(replay(es), r).contains(p) == joined_not_left(es, r).contains(p) by {
        lemma_replay_is_standing(es, p);
    }
    assert(members_in(replay(es), r) =~= joined_not_left(es, r));
}

/// Once the connection bound to a peer closes, the peer is in no registry
/// entry and no room, and a signal addressed to it goes nowhere.
pub proof fn lemma_leave_clears(reg: Map<Seq<char>, (u64, Seq<char>)>, p: Seq<char>, conn: u64, r: Seq<char>, sig: WebRTCMessage)
    requires
        reg.contains_key(p),
        reg[p].0 == conn,
        sig.to matches Some(t) && t@ == p,
    ensures
        !step(reg, Event::Leave(p, conn)).contains_key(p),
        !members_in(step(reg, Event::Leave(p, conn)), r).contains(p),
        addressee(step(reg, Event::Leave(p, conn)), sig) is None,
{
}

/// A peer joining a room whose members are `a` and `c` is announced to
/// exactly `a` and `c`, and never to itself.
pub proof fn lemma_join_announces_to_others(
    reg: Map<Seq<char>, (u64, Seq<char>)>,
    a: Seq<char>,
    b: Seq<char>,
    c: Seq<char>,
    conn: u64,
    room: Seq<char>,
    d: Seq<Delivery>,
)
    requires
        members_in(reg, room) == set![a, c],
        b != a,
        b != c,
        announcement(step(reg, Event::Join(b, conn, room)), d, b, room),
    ensures
        targets(d).to_set() == set![a, c],
        !targets(d).contains(b),
        forall|x: int| 0 <= x < d.len() ==> announces(#[trigger] d[x].message, b),
{
    let after = step(reg, Event::Join(b, conn, room));
    assert(members_in(after, room) =~= set![a, c].insert(b)) by {
        assert forall|q: Seq<char>| members_in(after, room).contains(q) == set![a, c].insert(b).contains(q) by {
            if q != b {
                assert(members_in(reg, room).contains(q) == members_in(after, room).contains(q));
            }
        }
    }
    assert(set![a, c].insert(b).remove(b) =~= set![a, c]);
    if targets(d).contains(b) {
        assert(targets(d).to_set().contains(b));
    }
    assert forall|x: int| 0 <= x < d.len() implies announces(#[trigger] d[x].message, b) by {
        assert(after.contains_key(d[x].peer_id@));
    }
}

/// Where a signal goes depends on its addressee alone: not on its sender,
/// the room it names, or its content.
pub proof fn lemma_route_reads_only_addressee(reg: Map<Seq<char>, (u64, Seq<char>)>, m1: WebRTCMessage, m2: WebRTCMessage)
    requires
        crate::message::opt_view(m1.to) == crate::message::opt_view(m2.to),
    ensures
        addressee(reg, m1) == addressee(reg, m2),
{
}

/// A signal with no addressee goes nowhere.
pub proof fn lemma_no_addressee_no_delivery(reg: Map<Seq<char>, (u64, Seq<char>)>, m: WebRTCMessage)
    requires
        m.to is None,
    ensures
        addressee(reg, m) is None,
{
}

/// When two connections join under one identity in turn, the second binding
/// replaces the first: a signal to that identity reaches the second
/// connection, and the close of the first leaves that binding in place.
pub proof fn lemma_second_join_supersedes(
    reg: Map<Seq<char>, (u64, Seq<char>)>,
    p: Seq<char>,
    c1: u64,
    r1: Seq<char>,
    c2: u64,
    r2: Seq<char>,
    sig: WebRTCMessage,
)
    requires
        c1 != c2,
        sig.to matches Some(t) && t@ == p,
    ensures
        addressee(step(step(reg, Event::Join(p, c1, r1)), Event::Join(p, c2, r2)), sig) == Some((p, c2)),
        step(step(step(reg, Event::Join(p, c1, r1)), Event::Join(p, c2, r2)), Event::Leave(p, c1))
            == step(step(reg, Event::Join(p, c1, r1)), Event::Join(p, c2, r2)),
{
}

} // verus!
