//! The Session Registry and the Room Table.
//!
//! The registry binds each peer identity to the connection that joined under
//! it and to the room it joined. The room table lists, per room, the peers
//! currently in it. A peer is in at most one room: the one of its latest join.
use vstd::prelude::*;

use crate::message::{Delivery, Outbound, RegisterSession, UnregisterSession, WebRTCMessage, opt_view};

verus! {

/// One registry entry: a peer identity, its connection, and its room.
struct SessionEntry {
    peer_id: String,
    conn: u64,
    room_id: String,
}

/// One room of the room table and the peers in it.
struct RoomEntry {
    room_id: String,
    members: Vec<String>,
}

/// The shared state of the relay: the session registry and the room table.
pub struct WebSocketManager {
    sessions: Vec<SessionEntry>,
    rooms: Vec<RoomEntry>,
    bound: Ghost<Map<Seq<char>, (u64, Seq<char>)>>,
}

/// The peers that a registry places in room `r`.
pub open spec fn members_in(reg: Map<Seq<char>, (u64, Seq<char>)>, r: Seq<char>) -> Set<Seq<char>> {
    Set::new(|p: Seq<char>| reg.contains_key(p) && reg[p].1 == r)
}

/// One change of the registry: a peer joins a room on a connection, or a
/// connection bound to a peer closes.
pub enum Event {
    Join(Seq<char>, u64, Seq<char>),
    Leave(Seq<char>, u64),
}

/// The registry after one event: a join binds the peer, replacing any earlier
/// binding; a close unbinds the peer only if its connection is still the one
/// bound.
pub open spec fn step(reg: Map<Seq<char>, (u64, Seq<char>)>, e: Event) -> Map<Seq<char>, (u64, Seq<char>)> {
    match e {
        Event::Join(p, c, r) => reg.insert(p, (c, r)),
        Event::Leave(p, c) => if reg.contains_key(p) && reg[p].0 == c { reg.remove(p) } else { reg },
    }
}

/// The addressee of a signal and its connection, when `to` names a
/// registered peer. The room the signal names plays no part.
pub open spec fn addressee(reg: Map<Seq<char>, (u64, Seq<char>)>, msg: WebRTCMessage) -> Option<(Seq<char>, u64)> {
    match msg.to {
        Some(t) => if reg.contains_key(t@) { Some((t@, reg[t@].0)) } else { None },
        None => None,
    }
}

/// The peer identities that a list of deliveries goes to, in order.
pub open spec fn targets(d: Seq<Delivery>) -> Seq<Seq<char>> {
    d.map_values(|x: Delivery| x.peer_id@)
}

/// The text of a list of strings.
pub open spec fn names(v: Seq<String>) -> Seq<Seq<char>> {
    v.map_values(|x: String| x@)
}

/// A `new-user` announcement of the peer `from`.
pub open spec fn announces(m: Outbound, from: Seq<char>) -> bool {
    match m {
        Outbound::NewUser { from: f } => f@ == from,
        Outbound::Signal(_) => false,
    }
}

/// A signal passed on unchanged.
pub open spec fn carries(m: Outbound, msg: WebRTCMessage) -> bool {
    match m {
        Outbound::Signal(s) => s.same_as(&msg),
        Outbound::NewUser { .. } => false,
    }
}

/// `d` announces `peer` once to each other member of `room`, and to nobody
/// else, each on the connection bound to that member.
pub open spec fn announcement(reg: Map<Seq<char>, (u64, Seq<char>)>, d: Seq<Delivery>, peer: Seq<char>, room: Seq<char>) -> bool {
    &&& targets(d).no_duplicates()
    &&& targets(d).to_set() == members_in(reg, room).remove(peer)
    &&& forall|x: int| 0 <= x < d.len() ==> #[trigger] reg.contains_key(d[x].peer_id@)
        && d[x].conn == reg[d[x].peer_id@].0 && announces(d[x].message, peer)
}

impl WebSocketManager {
    /// The registry: each registered peer identity with its connection and room.
    pub closed spec fn registry(&self) -> Map<Seq<char>, (u64, Seq<char>)> {
        self.bound@
    }

    /// The peers currently in room `r`.
    pub open spec fn members(&self, r: Seq<char>) -> Set<Seq<char>> {
        members_in(self.registry(), r)
    }

    closed spec fn peer(&self, i: int) -> Seq<char> {
        self.sessions@[i].peer_id@
    }

    closed spec fn room(&self, i: int) -> Seq<char> {
        self.rooms@[i].room_id@
    }

    closed spec fn member(&self, i: int, k: int) -> Seq<char> {
        self.rooms@[i].members@[k]@
    }

    /// The registry's entries are those of `sessions`, one per identity, and
    /// the room table lists each registered peer exactly once, under its room.
    pub closed spec fn wf(&self) -> bool {
        &&& forall|i: int, j: int|
            0 <= i < j < self.sessions@.len() ==> #[trigger] self.peer(i) != #[trigger] self.peer(j)
        &&& forall|i: int|
            0 <= i < self.sessions@.len() ==> #[trigger] self.bound@.contains_key(self.peer(i))
                && self.bound@[self.peer(i)] == (self.sessions@[i].conn, self.sessions@[i].room_id@)
        &&& forall|p: Seq<char>|
            #[trigger] self.bound@.contains_key(p) ==> exists|i: int|
                0 <= i < self.sessions@.len() && #[trigger] self.peer(i) == p
        &&& forall|i: int, j: int|
            0 <= i < j < self.rooms@.len() ==> #[trigger] self.room(i) != #[trigger] self.room(j)
        &&& forall|i: int, k: int, l: int|
            0 <= i < self.rooms@.len() && 0 <= k < l < self.rooms@[i].members@.len()
                ==> #[trigger] self.member(i, k) != #[trigger] self.member(i, l)
        &&& forall|i: int, k: int|
            0 <= i < self.rooms@.len() && 0 <= k < self.rooms@[i].members@.len()
                ==> #[trigger] self.bound@.contains_key(self.member(i, k))
                && self.bound@[self.member(i, k)].1 == self.room(i)
        &&& forall|p: Seq<char>|
            #[trigger] self.bound@.contains_key(p) ==> exists|i: int, k: int|
                0 <= i < self.rooms@.len() && 0 <= k < self.rooms@[i].members@.len()
                    && #[trigger] self.room(i) == self.bound@[p].1 && #[trigger] self.member(i, k) == p
    }

    /// An empty registry and an empty room table.
    pub fn new() -> (r: Self)
        ensures
            r.wf(),
            r.registry() == Map::<Seq<char>, (u64, Seq<char>)>::empty(),
    {
        WebSocketManager { sessions: Vec::new(), rooms: Vec::new(), bound: Ghost(Map::empty()) }
    }

    fn find_session(&self, peer: &String) -> (r: Option<usize>)
        requires
            self.wf(),
        ensures
            match r {
                Some(i) => i < self.sessions@.len() && self.peer(i as int) == peer@
                    && self.registry().contains_key(peer@)
                    && self.registry()[peer@] == (self.sessions@[i as int].conn, self.sessions@[i as int].room_id@),
                None => !self.registry().contains_key(peer@),
            },
    {
        let mut i: usize = 0;
        while i < self.sessions.len()
            invariant
                self.wf(),
                i <= self.sessions@.len(),
                forall|j: int| 0 <= j < i ==> #[trigger] self.peer(j) != peer@,
            decreases self.sessions@.len() - i,
        {
            if self.sessions[i].peer_id == *peer {
                assert(self.peer(i as int) == peer@);
                assert(self.bound@.contains_key(self.peer(i as int)));
                return Some(i);
            }
            i = i + 1;
        }
        None
    }

    fn find_room(&self, room: &String) -> (r: Option<usize>)
        requires
            self.wf(),
        ensures
            match r {
                Some(i) => i < self.rooms@.len() && self.room(i as int) == room@,
                None => forall|i: int| 0 <= i < self.rooms@.len() ==> #[trigger] self.room(i) != room@,
            },
    {
        let mut i: usize = 0;
        while i < self.rooms.len()
            invariant
                self.wf(),
                i <= self.rooms@.len(),
                forall|j: int| 0 <= j < i ==> #[trigger] self.room(j) != room@,
            decreases self.rooms@.len() - i,
        {
            if self.rooms[i].room_id == *room {
                assert(self.room(i as int) == room@);
                return Some(i);
            }
            i = i + 1;
        }
        None
    }

    fn find_member(&self, ri: usize, peer: &String) -> (r: Option<usize>)
        requires
            self.wf(),
            ri < self.rooms@.len(),
        ensures
            match r {
                Some(k) => k < self.rooms@[ri as int].members@.len() && self.member(ri as int, k as int) == peer@,
                None => forall|k: int| 0 <= k < self.rooms@[ri as int].members@.len()
                    ==> #[trigger] self.member(ri as int, k) != peer@,
            },
    {
        let mut k: usize = 0;
        while k < self.rooms[ri].members.len()
            invariant
                self.wf(),
                ri < self.rooms@.len(),
                k <= self.rooms@[ri as int].members@.len(),
                forall|j: int| 0 <= j < k ==> #[trigger] self.member(ri as int, j) != peer@,
            decreases self.rooms@[ri as int].members@.len() - k,
        {
            if self.rooms[ri].members[k] == *peer {
                assert(self.member(ri as int, k as int) == peer@);
                return Some(k);
            }
            k = k + 1;
        }
        None
    }

    /// The connection bound to `peer`, if it is registered.
    pub fn lookup(&self, peer: &String) -> (r: Option<u64>)
        requires
            self.wf(),
        ensures
            r == (if self.registry().contains_key(peer@) { Some(self.registry()[peer@].0) } else { None::<u64> }),
    {
        match self.find_session(peer) {
            Some(i) => Some(self.sessions[i].conn),
            None => None,
        }
    }

    /// The room that `peer` joined, if it is registered.
    pub fn room_of_peer(&self, peer: &String) -> (r: Option<String>)
        requires
            self.wf(),
        ensures
            opt_view(r) == (if self.registry().contains_key(peer@) { Some(self.registry()[peer@].1) } else { None::<Seq<char>> }),
    {
        match self.find_session(peer) {
            Some(i) => Some(self.sessions[i].room_id.clone()),
            None => None,
        }
    }

    /// Takes `peer` out of the registry and out of its room.
    fn remove_peer(&mut self, peer: &String)
        requires
            old(self).wf(),
        ensures
            final(self).wf(),
            final(self).registry() == old(self).registry().remove(peer@),
    {
        let i = match self.find_session(peer) {
            Some(i) => i,
            None => {
                assert(self.registry().remove(peer@) =~= self.registry());
                return;
            },
        };
        let ghost pre = *self;
        let ghost home = self.bound@[peer@].1;
        let room = self.sessions[i].room_id.clone();
        assert(self.bound@.contains_key(peer@));
        let ghost (wi, wk) = choose|wi: int, wk: int|
            0 <= wi < pre.rooms@.len() && 0 <= wk < pre.rooms@[wi].members@.len()
                && #[trigger] pre.room(wi) == home && #[trigger] pre.member(wi, wk) == peer@;
        let ri = match self.find_room(&room) {
            Some(ri) => ri,
            None => {
                assert(pre.room(wi) != room@);
                return;
            },
        };
        assert(ri == wi) by {
            if ri != wi {
                if ri < wi {
                    assert(pre.room(ri as int) != pre.room(wi));
                } else {
                    assert(pre.room(wi) != pre.room(ri as int));
                }
            }
        }
        let k = match self.find_member(ri, peer) {
            Some(k) => k,
            None => {
                assert(pre.member(wi, wk) != peer@);
                return;
            },
        };
        self.rooms[ri].members.remove(k);
        self.sessions.remove(i);
        self.bound = Ghost(pre.bound@.remove(peer@));
        proof {
            let post = *self;
            assert forall|a: int| 0 <= a < post.sessions@.len() implies
                #[trigger] post.peer(a) == pre.peer(if a < i { a } else { a + 1 })
                && post.sessions@[a] == pre.sessions@[if a < i { a } else { a + 1 }] by {}
            assert forall|j: int| 0 <= j < post.rooms@.len() implies
                #[trigger] post.room(j) == pre.room(j) by {}
            assert forall|j: int, l: int| 0 <= j < post.rooms@.len() && 0 <= l < post.rooms@[j].members@.len()
                implies #[trigger] post.member(j, l) == pre.member(j, if j == ri && l >= k { l + 1 } else { l })
                && (j == ri ==> post.rooms@[j].members@.len() + 1 == pre.rooms@[j].members@.len())
                && (j != ri ==> post.rooms@[j].members@.len() == pre.rooms@[j].members@.len()) by {}
            assert forall|j: int| 0 <= j < post.rooms@.len() implies
                (j == ri ==> #[trigger] post.rooms@[j].members@.len() + 1 == pre.rooms@[j].members@.len())
                && (j != ri ==> post.rooms@[j].members@.len() == pre.rooms@[j].members@.len()) by {}
            assert forall|a: int, b: int| 0 <= a < b < post.sessions@.len() implies
                #[trigger] post.peer(a) != #[trigger] post.peer(b) by {
                let a2 = if a < i { a } else { a + 1 };
                let b2 = if b < i { b } else { b + 1 };
                assert(pre.peer(a2) != pre.peer(b2));
            }
            assert forall|a: int| 0 <= a < post.sessions@.len() implies
                #[trigger] post.bound@.contains_key(post.peer(a))
                && post.bound@[post.peer(a)] == (post.sessions@[a].conn, post.sessions@[a].room_id@) by {
                let a2 = if a < i { a } else { a + 1 };
                assert(pre.bound@.contains_key(pre.peer(a2)));
                if a2 < i { assert(pre.peer(a2) != pre.peer(i as int)); }
                else { assert(pre.peer(i as int) != pre.peer(a2)); }
            }
            assert forall|p: Seq<char>| #[trigger] post.bound@.contains_key(p) implies exists|a: int|
                0 <= a < post.sessions@.len() && #[trigger] post.peer(a) == p by {
                let a2 = choose|a2: int| 0 <= a2 < pre.sessions@.len() && #[trigger] pre.peer(a2) == p;
                let a = if a2 < i { a2 } else { a2 - 1 };
                assert(post.peer(a) == p);
            }
            assert forall|j: int, l: int, m: int|
                0 <= j < post.rooms@.len() && 0 <= l < m < post.rooms@[j].members@.len()
                implies #[trigger] post.member(j, l) != #[trigger] post.member(j, m) by {
                let l2 = if j == ri && l >= k { l + 1 } else { l };
                let m2 = if j == ri && m >= k { m + 1 } else { m };
                assert(pre.member(j, l2) != pre.member(j, m2));
            }
            assert forall|j: int, l: int|
                0 <= j < post.rooms@.len() && 0 <= l < post.rooms@[j].members@.len()
                implies #[trigger] post.bound@.contains_key(post.member(j, l))
                && post.bound@[post.member(j, l)].1 == post.room(j) by {
                let l2 = if j == ri && l >= k { l + 1 } else { l };
                assert(pre.bound@.contains_key(pre.member(j, l2)));
                if j == ri {
                    if l2 < k { assert(pre.member(j, l2) != pre.member(j, k as int)); }
                    else { assert(pre.member(j, k as int) != pre.member(j, l2)); }
                } else if pre.member(j, l2) == peer@ {
                    if j < ri { assert(pre.room(j) != pre.room(ri as int)); }
                    else { assert(pre.room(ri as int) != pre.room(j)); }
                }
            }
            assert forall|p: Seq<char>| #[trigger] post.bound@.contains_key(p) implies exists|j: int, l: int|
                0 <= j < post.rooms@.len() && 0 <= l < post.rooms@[j].members@.len()
                && #[trigger] post.room(j) == post.bound@[p].1 && #[trigger] post.member(j, l) == p by {
                let (j, l2) = choose|j: int, l2: int|
                    0 <= j < pre.rooms@.len() && 0 <= l2 < pre.rooms@[j].members@.len()
                    && #[trigger] pre.room(j) == pre.bound@[p].1 && #[trigger] pre.member(j, l2) == p;
                let l = if j == ri && l2 > k { l2 - 1 } else { l2 };
                assert(post.member(j, l) == p);
            }
        }
    }

    /// Binds a peer that is not registered to `conn` and lists it in `room`,
    /// which the room table gains if it lacks it.
    fn add_peer(&mut self, peer: &String, conn: u64, room: &String)
        requires
            old(self).wf(),
            !old(self).registry().contains_key(peer@),
        ensures
            final(self).wf(),
            final(self).registry() == old(self).registry().insert(peer@, (conn, room@)),
    {
        let ghost pre = *self;
        let found = self.find_room(room);
        self.sessions.push(SessionEntry { peer_id: peer.clone(), conn, room_id: room.clone() });
        let ri: usize = match found {
            Some(ri) => {
                self.rooms[ri].members.push(peer.clone());
                ri
            },
            None => {
                let mut members: Vec<String> = Vec::new();
                members.push(peer.clone());
                self.rooms.push(RoomEntry { room_id: room.clone(), members });
                self.rooms.len() - 1
            },
        };
        self.bound = Ghost(pre.bound@.insert(peer@, (conn, room@)));
        proof {
            let post = *self;
            let n = pre.sessions@.len();
            assert(post.peer(n as int) == peer@);
            assert forall|a: int| 0 <= a < n implies
                #[trigger] post.peer(a) == pre.peer(a) && post.sessions@[a] == pre.sessions@[a]
                && pre.peer(a) != peer@ by {
                assert(pre.bound@.contains_key(pre.peer(a)));
            }
            assert forall|j: int| 0 <= j < pre.rooms@.len() implies #[trigger] post.room(j) == pre.room(j) by {}
            assert(post.room(ri as int) == room@);
            assert forall|j: int, l: int| 0 <= j < pre.rooms@.len() && 0 <= l < pre.rooms@[j].members@.len()
                implies #[trigger] post.member(j, l) == pre.member(j, l) && pre.member(j, l) != peer@ by {
                assert(pre.bound@.contains_key(pre.member(j, l)));
            }
            let last = post.rooms@[ri as int].members@.len() - 1;
            assert(post.member(ri as int, last) == peer@);
            assert forall|j: int| 0 <= j < post.rooms@.len() implies
                (j != ri ==> #[trigger] post.rooms@[j].members@.len() == pre.rooms@[j].members@.len())
                && (j == ri ==> post.rooms@[j].members@.len() == last + 1)
                && (j == ri && j < pre.rooms@.len() ==> pre.rooms@[j].members@.len() == last) by {}
            assert forall|a: int, b: int| 0 <= a < b < post.sessions@.len() implies
                #[trigger] post.peer(a) != #[trigger] post.peer(b) by {
                if b < n { assert(pre.peer(a) != pre.peer(b)); }
            }
            assert forall|a: int| 0 <= a < post.sessions@.len() implies
                #[trigger] post.bound@.contains_key(post.peer(a))
                && post.bound@[post.peer(a)] == (post.sessions@[a].conn, post.sessions@[a].room_id@) by {
                if a < n { assert(pre.bound@.contains_key(pre.peer(a))); }
            }
            assert forall|p: Seq<char>| #[trigger] post.bound@.contains_key(p) implies exists|a: int|
                0 <= a < post.sessions@.len() && #[trigger] post.peer(a) == p by {
                if p != peer@ {
                    let a = choose|a: int| 0 <= a < pre.sessions@.len() && #[trigger] pre.peer(a) == p;
                    assert(post.peer(a) == p);
                }
            }
            assert forall|a: int, b: int| 0 <= a < b < post.rooms@.len() implies
                #[trigger] post.room(a) != #[trigger] post.room(b) by {
                if b < pre.rooms@.len() { assert(pre.room(a) != pre.room(b)); }
            }
            assert forall|j: int, l: int, m: int|
                0 <= j < post.rooms@.len() && 0 <= l < m < post.rooms@[j].members@.len()
                implies #[trigger] post.member(j, l) != #[trigger] post.member(j, m) by {
                if j < pre.rooms@.len() && m < pre.rooms@[j].members@.len() {
                    assert(pre.member(j, l) != pre.member(j, m));
                }
            }
            assert forall|j: int, l: int|
                0 <= j < post.rooms@.len() && 0 <= l < post.rooms@[j].members@.len()
                implies #[trigger] post.bound@.contains_key(post.member(j, l))
                && post.bound@[post.member(j, l)].1 == post.room(j) by {
                if j < pre.rooms@.len() && l < pre.rooms@[j].members@.len() {
                    assert(pre.bound@.contains_key(pre.member(j, l)));
                }
            }
            assert forall|p: Seq<char>| #[trigger] post.bound@.contains_key(p) implies exists|j: int, l: int|
                0 <= j < post.rooms@.len() && 0 <= l < post.rooms@[j].members@.len()
                && #[trigger] post.room(j) == post.bound@[p].1 && #[trigger] post.member(j, l) == p by {
                if p != peer@ {
                    let (j, l) = choose|j: int, l: int|
                        0 <= j < pre.rooms@.len() && 0 <= l < pre.rooms@[j].members@.len()
                        && #[trigger] pre.room(j) == pre.bound@[p].1 && #[trigger] pre.member(j, l) == p;
                    assert(post.member(j, l) == p);
                } else {
                    assert(post.member(ri as int, last) == p);
                }
            }
        }
    }

    /// The `new-user` announcements of `peer` to the other members of `room`.
    fn announce(&self, peer: &String, room: &String) -> (r: Vec<Delivery>)
        requires
            self.wf(),
        ensures
            announcement(self.registry(), r@, peer@, room@),
    {
        let mut out: Vec<Delivery> = Vec::new();
        let ri = match self.find_room(room) {
            Some(ri) => ri,
            None => {
                assert(targets(out@).to_set() =~= self.members(room@).remove(peer@)) by {
                    assert forall|q: Seq<char>| !self.members(room@).contains(q) by {
                        if self.members(room@).contains(q) {
                            assert(self.bound@.contains_key(q));
                            let (j, l) = choose|j: int, l: int|
                                0 <= j < self.rooms@.len() && 0 <= l < self.rooms@[j].members@.len()
                                && #[trigger] self.room(j) == self.bound@[q].1 && #[trigger] self.member(j, l) == q;
                            assert(self.room(j) != room@);
                        }
                    }
                }
                return out;
            },
        };
        let ghost idx: Seq<int> = Seq::empty();
        let mut k: usize = 0;
        while k < self.rooms[ri].members.len()
            invariant
                self.wf(),
                ri < self.rooms@.len(),
                self.room(ri as int) == room@,
                k <= self.rooms@[ri as int].members@.len(),
                idx.len() == out@.len(),
                forall|x: int, y: int| 0 <= x < y < idx.len() ==> idx[x] < idx[y],
                forall|x: int| 0 <= x < idx.len() ==> 0 <= #[trigger] idx[x] < k
                    && self.member(ri as int, idx[x]) == out@[x].peer_id@ && out@[x].peer_id@ != peer@
                    && self.bound@.contains_key(out@[x].peer_id@)
                    && out@[x].conn == self.bound@[out@[x].peer_id@].0 && announces(out@[x].message, peer@),
                forall|j: int| 0 <= j < k && #[trigger] self.member(ri as int, j) != peer@
                    ==> exists|x: int| 0 <= x < idx.len() && idx[x] == j,
            decreases self.rooms@[ri as int].members@.len() - k,
        {
            let q = &self.rooms[ri].members[k];
            assert(self.member(ri as int, k as int) == q@);
            let ghost out0 = out@;
            let ghost idx0 = idx;
            if *q != *peer {
                assert(self.bound@.contains_key(self.member(ri as int, k as int)));
                let conn = match self.lookup(q) {
                    Some(c) => c,
                    None => {
                        return out;
                    },
                };
                out.push(Delivery { peer_id: q.clone(), conn, message: Outbound::NewUser { from: peer.clone() } });
                proof {
                    idx = idx.push(k as int);
                    assert(idx[idx.len() - 1] == k);
                    assert forall|x: int| 0 <= x < idx0.len() implies idx[x] == idx0[x] && out@[x] == out0[x] by {}
                    assert forall|j: int| 0 <= j < k + 1 && #[trigger] self.member(ri as int, j) != peer@
                        implies exists|x: int| 0 <= x < idx.len() && idx[x] == j by {
                        if j < k {
                            let x = choose|x: int| 0 <= x < idx0.len() && idx0[x] == j;
                            assert(idx[x] == j);
                        } else {
                            assert(idx[idx.len() - 1] == j);
                        }
                    }
                }
            }
            k = k + 1;
        }
        proof {
            let reg = self.registry();
            let t = targets(out@);
            assert forall|x: int| 0 <= x < out@.len() implies #[trigger] reg.contains_key(out@[x].peer_id@)
                && out@[x].conn == reg[out@[x].peer_id@].0 && announces(out@[x].message, peer@) by {
                assert(0 <= idx[x] < k);
            }
            assert forall|x: int, y: int| 0 <= x < t.len() && 0 <= y < t.len() && x != y implies t[x] != t[y] by {
                assert(0 <= idx[x] < k);
                assert(0 <= idx[y] < k);
                if x < y {
                    assert(self.member(ri as int, idx[x]) != self.member(ri as int, idx[y]));
                } else {
                    assert(self.member(ri as int, idx[y]) != self.member(ri as int, idx[x]));
                }
            }
            assert(t.to_set() =~= self.members(room@).remove(peer@)) by {
                assert forall|q: Seq<char>| t.to_set().contains(q) implies self.members(room@).remove(peer@).contains(q) by {
                    let x = choose|x: int| 0 <= x < t.len() && t[x] == q;
                    assert(0 <= idx[x] < k);
                    assert(self.bound@.contains_key(self.member(ri as int, idx[x])));
                }
                assert forall|q: Seq<char>| self.members(room@).remove(peer@).contains(q) implies t.to_set().contains(q) by {
                    assert(self.bound@.contains_key(q));
                    let (j, l) = choose|j: int, l: int|
                        0 <= j < self.rooms@.len() && 0 <= l < self.rooms@[j].members@.len()
                        && #[trigger] self.room(j) == self.bound@[q].1 && #[trigger] self.member(j, l) == q;
                    if j != ri {
                        if j < ri { assert(self.room(j) != self.room(ri as int)); }
                        else { assert(self.room(ri as int) != self.room(j)); }
                    }
                    assert(self.member(ri as int, l) != peer@);
                    let x = choose|x: int| 0 <= x < idx.len() && idx[x] == l;
                    assert(t[x] == q);
                }
            }
            assert(t.no_duplicates());
            assert(announcement(reg, out@, peer@, room@));
        }
        out
    }

    /// Joins the peer `msg.id` on connection `msg.conn` into room
    /// `msg.room_id`. A binding of the same identity, on any connection and in
    /// any room, is replaced. Returns the `new-user` announcements for the
    /// other members of the room.
    pub fn register(&mut self, msg: RegisterSession) -> (r: Vec<Delivery>)
        requires
            old(self).wf(),
        ensures
            final(self).wf(),
            final(self).registry() == step(old(self).registry(), Event::Join(msg.id@, msg.conn, msg.room_id@)),
            announcement(final(self).registry(), r@, msg.id@, msg.room_id@),
    {
        self.remove_peer(&msg.id);
        self.add_peer(&msg.id, msg.conn, &msg.room_id);
        proof {
            assert(old(self).registry().remove(msg.id@).insert(msg.id@, (msg.conn, msg.room_id@))
                =~= old(self).registry().insert(msg.id@, (msg.conn, msg.room_id@)));
        }
        self.announce(&msg.id, &msg.room_id)
    }

    /// Connection `msg.conn` has closed: if it is still the one bound to
    /// `msg.id`, the peer leaves the registry and its room. A connection that a
    /// later join under the same identity replaced changes nothing.
    pub fn unregister(&mut self, msg: UnregisterSession)
        requires
            old(self).wf(),
        ensures
            final(self).wf(),
            final(self).registry() == step(old(self).registry(), Event::Leave(msg.id@, msg.conn)),
    {
        if self.lookup(&msg.id) == Some(msg.conn) {
            self.remove_peer(&msg.id);
        }
    }

    /// Passes a signal on to the connection of its addressee. A signal with
    /// no addressee, or one whose addressee is not registered, goes nowhere.
    pub fn route(&self, msg: WebRTCMessage) -> (r: Option<Delivery>)
        requires
            self.wf(),
        ensures
            match addressee(self.registry(), msg) {
                Some((t, c)) => r matches Some(d) && d.peer_id@ == t && d.conn == c
                    && d.message == Outbound::Signal(msg),
                None => r is None,
            },
    {
        let (peer_id, conn) = match &msg.to {
            Some(t) => match self.lookup(t) {
                Some(c) => (t.clone(), c),
                None => return None,
            },
            None => return None,
        };
        Some(Delivery { peer_id, conn, message: Outbound::Signal(msg) })
    }

    /// The peers currently in `room`, each once.
    pub fn members_of(&self, room: &String) -> (r: Vec<String>)
        requires
            self.wf(),
        ensures
            names(r@).no_duplicates(),
            names(r@).to_set() == self.members(room@),
    {
        let mut out: Vec<String> = Vec::new();
        let ri = match self.find_room(room) {
            Some(ri) => ri,
            None => {
                assert(names(out@).to_set() =~= self.members(room@)) by {
                    assert forall|q: Seq<char>| !self.members(room@).contains(q) by {
                        if self.members(room@).contains(q) {
                            assert(self.bound@.contains_key(q));
                            let (j, l) = choose|j: int, l: int|
                                0 <= j < self.rooms@.len() && 0 <= l < self.rooms@[j].members@.len()
                                && #[trigger] self.room(j) == self.bound@[q].1 && #[trigger] self.member(j, l) == q;
                            assert(self.room(j) != room@);
                        }
                    }
                }
                return out;
            },
        };
        let mut k: usize = 0;
        while k < self.rooms[ri].members.len()
            invariant
                self.wf(),
                ri < self.rooms@.len(),
                self.room(ri as int) == room@,
                k <= self.rooms@[ri as int].members@.len(),
                out@.len() == k,
                forall|x: int| 0 <= x < k ==> #[trigger] out@[x]@ == self.member(ri as int, x),
            decreases self.rooms@[ri as int].members@.len() - k,
        {
            out.push(self.rooms[ri].members[k].clone());
            k = k + 1;
        }
        proof {
            let t = names(out@);
            assert forall|x: int| 0 <= x < t.len() implies #[trigger] t[x] == self.member(ri as int, x) by {}
            assert forall|x: int, y: int| 0 <= x < t.len() && 0 <= y < t.len() && x != y implies t[x] != t[y] by {
                if x < y {
                    assert(self.member(ri as int, x) != self.member(ri as int, y));
                } else {
                    assert(self.member(ri as int, y) != self.member(ri as int, x));
                }
            }
            assert(t.to_set() =~= self.members(room@)) by {
                assert forall|q: Seq<char>| t.to_set().contains(q) implies self.members(room@).contains(q) by {
                    let x = choose|x: int| 0 <= x < t.len() && t[x] == q;
                    assert(self.bound@.contains_key(self.member(ri as int, x)));
                }
                assert forall|q: Seq<char>| self.members(room@).contains(q) implies t.to_set().contains(q) by {
                    assert(self.bound@.contains_key(q));
                    let (j, l) = choose|j: int, l: int|
                        0 <= j < self.rooms@.len() && 0 <= l < self.rooms@[j].members@.len()
                        && #[trigger] self.room(j) == self.bound@[q].1 && #[trigger] self.member(j, l) == q;
                    if j != ri {
                        if j < ri { assert(self.room(j) != self.room(ri as int)); }
                        else { assert(self.room(ri as int) != self.room(j)); }
                    }
                    assert(t[l] == q);
                }
            }
        }
        out
    }
}

} // verus!
