//! The relay's bookkeeping: rooms of peers, the virtual addresses it hands
//! out, and what it sends in answer to each client message.

use vstd::prelude::*;
use crate::ipv4::{spec_virtual_ip, virtual_ip};
use crate::protocol::{ClientMessage, ClientMessageView, ServerMessage, ServerMessageView};

verus! {

broadcast use vstd::seq_lib::group_seq_properties;

// ---------------------------------------------------------------------------
// First matches in sequences.

/// The index of the first element of `s` at or after `from` that satisfies
/// `p`, or `-1` when there is none.
pub open spec fn first_index<T>(s: Seq<T>, p: spec_fn(T) -> bool, from: int) -> int
    decreases s.len() - from,
{
    if from < 0 || from >= s.len() {
        -1
    } else if p(s[from]) {
        from
    } else {
        first_index(s, p, from + 1)
    }
}

/// What [`first_index`] means: either nothing from `from` on satisfies `p`,
/// or the index found satisfies it and nothing between `from` and it does.
pub proof fn lemma_first_index<T>(s: Seq<T>, p: spec_fn(T) -> bool, from: int)
    requires
        0 <= from <= s.len(),
    ensures
        ({
            let k = first_index(s, p, from);
            ||| k == -1 && forall|j: int| from <= j < s.len() ==> !p(#[trigger] s[j])
            ||| from <= k < s.len() && p(s[k]) && forall|j: int| from <= j < k ==> !p(#[trigger] s[j])
        }),
    decreases s.len() - from,
{
    if from < s.len() && !p(s[from]) {
        lemma_first_index(s, p, from + 1);
    }
}

// ---------------------------------------------------------------------------
// Addresses and peers.

/// The UDP address a datagram came from: an IPv4 or IPv6 socket address,
/// with the fields that tell two socket addresses apart.
#[derive(Clone, Copy, Debug, PartialEq, Eq, Structural)]
pub enum PeerAddr {
    V4 { ip: u32, port: u16 },
    V6 { ip: u128, port: u16, flowinfo: u32, scope_id: u32 },
}

/// A client in a room: where it sends from, and the virtual address it was given.
#[derive(Clone, Copy, Debug, PartialEq, Eq, Structural)]
pub struct Peer {
    pub addr: PeerAddr,
    pub virtual_ip: u32,
}

/// Holds of the peers that send from `addr`.
pub open spec fn addr_is(addr: PeerAddr) -> spec_fn(Peer) -> bool {
    |p: Peer| p.addr == addr
}

/// Holds of the peers whose virtual address is `ip`.
pub open spec fn ip_is(ip: u32) -> spec_fn(Peer) -> bool {
    |p: Peer| p.virtual_ip == ip
}

/// The host part (last octet) of a virtual address.
pub open spec fn host_of(ip: u32) -> int {
    ip as int % 0x100
}

/// `10.10.0.h` is `0x0A0A_0000 + h`, and its last octet is `h`.
pub proof fn lemma_virtual_ip_host(h: u8)
    ensures
        spec_virtual_ip(h) as int == 0x0A0A_0000 + h,
        host_of(spec_virtual_ip(h)) == h,
{
}

// ---------------------------------------------------------------------------
// Rooms.

/// A room: the peers in the order they joined, and the last octet of the
/// next virtual address to hand out.
pub struct Room {
    pub peers: Vec<Peer>,
    pub next_ip: u8,
}

/// The mathematical value of a [`Room`].
pub struct RoomView {
    pub peers: Seq<Peer>,
    pub next_ip: u8,
}

impl View for Room {
    type V = RoomView;

    open spec fn view(&self) -> RoomView {
        RoomView { peers: self.peers@, next_ip: self.next_ip }
    }
}

impl RoomView {
    /// The position of the first peer that sends from `addr`, or `-1`.
    pub open spec fn addr_index(self, addr: PeerAddr) -> int {
        first_index(self.peers, addr_is(addr), 0)
    }

    /// The position of the first peer whose virtual address is `ip`, or `-1`.
    pub open spec fn ip_index(self, ip: u32) -> int {
        first_index(self.peers, ip_is(ip), 0)
    }

    /// Whether some peer sends from `addr`.
    pub open spec fn has_addr(self, addr: PeerAddr) -> bool {
        exists|i: int| 0 <= i < self.peers.len() && self.peers[i].addr == addr
    }

    /// The room's invariant: no address twice; every virtual address is
    /// `10.10.0.h` with `h` from 1 up to (not including) the next one to
    /// hand out, which is at least 1; and the addresses
    /// rise in the order the peers joined (so none comes twice).
    pub open spec fn wf(self) -> bool {
        &&& 1 <= self.next_ip
        &&& forall|i: int, j: int|
            0 <= i < j < self.peers.len() ==> self.peers[i].addr != self.peers[j].addr
        &&& forall|i: int|
            #![trigger self.peers[i]]
            0 <= i < self.peers.len() ==> {
                &&& self.peers[i].virtual_ip == spec_virtual_ip(host_of(self.peers[i].virtual_ip) as u8)
                &&& 1 <= host_of(self.peers[i].virtual_ip) < self.next_ip
            }
        &&& forall|i: int, j: int|
            0 <= i < j < self.peers.len() ==> self.peers[i].virtual_ip < self.peers[j].virtual_ip
    }
}

impl Room {
    /// An empty room whose first virtual address will be `10.10.0.1`.
    pub fn new() -> (room: Room)
        ensures
            room@.peers == Seq::<Peer>::empty(),
            room.next_ip == 1,
            room@.wf(),
    {
        Room { peers: Vec::new(), next_ip: 1 }
    }

    /// Hands out the next virtual address, `10.10.0.next_ip`, and moves on to
    /// the one after it.
    pub fn allocate_ip(&mut self) -> (ip: u32)
        requires
            old(self).next_ip < 255,
        ensures
            ip == spec_virtual_ip(old(self).next_ip),
            final(self).next_ip == old(self).next_ip + 1,
            final(self).peers@ == old(self).peers@,
    {
        let ip = virtual_ip(self.next_ip);
        self.next_ip = self.next_ip + 1;
        ip
    }

    fn position_by_addr(&self, addr: &PeerAddr) -> (r: Option<usize>)
        ensures
            match r {
                Some(i) => i as int == self@.addr_index(*addr) && i < self.peers@.len(),
                None => self@.addr_index(*addr) == -1,
            },
    {
        let mut i: usize = 0;
        while i < self.peers.len()
            invariant
                i <= self.peers@.len(),
                first_index(self.peers@, addr_is(*addr), 0) == first_index(
                    self.peers@,
                    addr_is(*addr),
                    i as int,
                ),
            decreases self.peers@.len() - i,
        {
            if self.peers[i].addr == *addr {
                return Some(i);
            }
            i = i + 1;
        }
        None
    }

    fn position_by_ip(&self, ip: u32) -> (r: Option<usize>)
        ensures
            match r {
                Some(i) => i as int == self@.ip_index(ip) && i < self.peers@.len(),
                None => self@.ip_index(ip) == -1,
            },
    {
        let mut i: usize = 0;
        while i < self.peers.len()
            invariant
                i <= self.peers@.len(),
                first_index(self.peers@, ip_is(ip), 0) == first_index(
                    self.peers@,
                    ip_is(ip),
                    i as int,
                ),
            decreases self.peers@.len() - i,
        {
            if self.peers[i].virtual_ip == ip {
                return Some(i);
            }
            i = i + 1;
        }
        None
    }

    /// The first peer whose virtual address is `virtual_ip`.
    pub fn find_peer_by_ip(&self, virtual_ip: u32) -> (r: Option<&Peer>)
        ensures
            match r {
                Some(p) => {
                    &&& 0 <= self@.ip_index(virtual_ip) < self.peers@.len()
                    &&& *p == self.peers@[self@.ip_index(virtual_ip)]
                    &&& p.virtual_ip == virtual_ip
                },
                None => forall|i: int|
                    0 <= i < self.peers@.len() ==> self.peers@[i].virtual_ip != virtual_ip,
            },
    {
        proof {
            lemma_first_index(self.peers@, ip_is(virtual_ip), 0);
        }
        match self.position_by_ip(virtual_ip) {
            Some(i) => Some(&self.peers[i]),
            None => None,
        }
    }

    /// The first peer that sends from `addr`.
    pub fn find_peer_by_addr(&self, addr: &PeerAddr) -> (r: Option<&Peer>)
        ensures
            match r {
                Some(p) => {
                    &&& 0 <= self@.addr_index(*addr) < self.peers@.len()
                    &&& *p == self.peers@[self@.addr_index(*addr)]
                    &&& p.addr == *addr
                },
                None => !self@.has_addr(*addr),
            },
    {
        proof {
            lemma_first_index(self.peers@, addr_is(*addr), 0);
        }
        match self.position_by_addr(addr) {
            Some(i) => Some(&self.peers[i]),
            None => None,
        }
    }

    /// Takes the first peer that sends from `addr` out of the room.
    pub fn remove_peer_by_addr(&mut self, addr: &PeerAddr) -> (r: Option<Peer>)
        ensures
            final(self).next_ip == old(self).next_ip,
            match r {
                Some(p) => {
                    let k = old(self)@.addr_index(*addr);
                    &&& 0 <= k < old(self).peers@.len()
                    &&& p == old(self).peers@[k]
                    &&& p.addr == *addr
                    &&& final(self).peers@ == old(self).peers@.remove(k)
                },
                None => !old(self)@.has_addr(*addr) && final(self).peers@ == old(self).peers@,
            },
    {
        proof {
            lemma_first_index(self.peers@, addr_is(*addr), 0);
        }
        match self.position_by_addr(addr) {
            Some(pos) => Some(self.peers.remove(pos)),
            None => None,
        }
    }
}


// ---------------------------------------------------------------------------
// The relay's state.

/// A message the relay sends, and to whom.
pub struct Delivery {
    pub to: PeerAddr,
    pub message: ServerMessage,
}

impl View for Delivery {
    type V = (PeerAddr, ServerMessageView);

    open spec fn view(&self) -> (PeerAddr, ServerMessageView) {
        (self.to, self.message@)
    }
}

/// The mathematical value of a list of deliveries, in sending order.
pub open spec fn deliveries_view(out: Seq<Delivery>) -> Seq<(PeerAddr, ServerMessageView)> {
    out.map_values(|d: Delivery| d@)
}

/// A room with its name.
struct NamedRoom {
    name: String,
    room: Room,
}

/// The rooms of the relay, by name, in the order they were opened.
pub struct Rooms {
    entries: Vec<NamedRoom>,
}

/// The mathematical value of [`Rooms`]: each room's name and value, in the
/// order the rooms were opened.
pub type RoomsView = Seq<(Seq<char>, RoomView)>;

/// Holds of the room named `name`.
pub open spec fn name_is(name: Seq<char>) -> spec_fn((Seq<char>, RoomView)) -> bool {
    |e: (Seq<char>, RoomView)| e.0 == name
}

/// Holds of the rooms that have a peer sending from `addr`.
pub open spec fn holds_addr(addr: PeerAddr) -> spec_fn((Seq<char>, RoomView)) -> bool {
    |e: (Seq<char>, RoomView)| e.1.has_addr(addr)
}

/// The position of the room named `name`, or `-1`.
pub open spec fn room_index(rooms: RoomsView, name: Seq<char>) -> int {
    first_index(rooms, name_is(name), 0)
}

/// The position of the first room with a peer that sends from `addr`, or `-1`.
pub open spec fn sender_room_index(rooms: RoomsView, addr: PeerAddr) -> int {
    first_index(rooms, holds_addr(addr), 0)
}

/// The invariant of the relay's state: no two rooms share a name, and every
/// room keeps its own invariant.
pub open spec fn rooms_wf(rooms: RoomsView) -> bool {
    &&& forall|i: int, j: int| 0 <= i < j < rooms.len() ==> rooms[i].0 != rooms[j].0
    &&& forall|i: int| 0 <= i < rooms.len() ==> (#[trigger] rooms[i]).1.wf()
}

/// A fresh room.
pub open spec fn empty_room() -> RoomView {
    RoomView { peers: Seq::empty(), next_ip: 1 }
}

/// What the relay sends when a client from `addr` joins a room whose peers
/// are `peers` and gets the virtual address `ip`: each peer already there
/// hears of the newcomer, the newcomer hears of each of them, in the order
/// they joined, and then the newcomer gets its address.
pub open spec fn join_notices(peers: Seq<Peer>, addr: PeerAddr, ip: u32) -> Seq<
    (PeerAddr, ServerMessageView),
> {
    peers.map_values(|p: Peer| (p.addr, ServerMessageView::PeerJoined { virtual_ip: ip }))
        + peers.map_values(
        |p: Peer| (addr, ServerMessageView::PeerJoined { virtual_ip: p.virtual_ip }),
    ) + seq![(addr, ServerMessageView::RegisterOk { virtual_ip: ip })]
}

/// Whether a client from `addr` joining `room_id` would need a virtual
/// address past `10.10.0.254`: the room exists, the client is not in it yet,
/// and `10.10.0.255` is the next address to hand out (handing it out would
/// leave no next one).
pub open spec fn register_overflows(rooms: RoomsView, addr: PeerAddr, room_id: Seq<char>) -> bool {
    let k = room_index(rooms, room_id);
    k != -1 && !rooms[k].1.has_addr(addr) && rooms[k].1.next_ip == 255
}

/// The relay's state and what it sends after a client from `addr` asks to
/// join `room_id`. The room is opened if it does not exist. A client that is
/// already in the room is ignored; any other joins it under the next virtual
/// address, with the notices of [`join_notices`].
pub open spec fn register_outcome(rooms: RoomsView, addr: PeerAddr, room_id: Seq<char>) -> (
    RoomsView,
    Seq<(PeerAddr, ServerMessageView)>,
) {
    let k = room_index(rooms, room_id);
    let opened = if k == -1 {
        rooms.push((room_id, empty_room()))
    } else {
        rooms
    };
    let idx = if k == -1 {
        rooms.len() as int
    } else {
        k
    };
    let room = opened[idx].1;
    if room.has_addr(addr) {
        (opened, seq![])
    } else {
        let ip = spec_virtual_ip(room.next_ip);
        let joined = RoomView {
            peers: room.peers.push(Peer { addr, virtual_ip: ip }),
            next_ip: (room.next_ip + 1) as u8,
        };
        (opened.update(idx, (room_id, joined)), join_notices(room.peers, addr, ip))
    }
}

/// What the relay sends when a client from `addr` sends `payload` to
/// `dst_ip`: in the first room that has the sender, the first peer with that
/// virtual address gets the payload, marked with the sender's virtual
/// address there. Nothing is sent when the sender is in no room or no peer
/// of its room has that address.
pub open spec fn data_deliveries(rooms: RoomsView, addr: PeerAddr, dst_ip: u32, payload: Seq<u8>) -> Seq<
    (PeerAddr, ServerMessageView),
> {
    let k = sender_room_index(rooms, addr);
    if k == -1 {
        seq![]
    } else {
        let room = rooms[k].1;
        let me = room.peers[room.addr_index(addr)];
        let d = room.ip_index(dst_ip);
        if d == -1 {
            seq![]
        } else {
            seq![
                (room.peers[d].addr, ServerMessageView::Data { src_ip: me.virtual_ip, payload }),
            ]
        }
    }
}

/// The relay's state and what it sends after it receives `msg` from `addr`.
pub open spec fn handle_outcome(rooms: RoomsView, addr: PeerAddr, msg: ClientMessageView) -> (
    RoomsView,
    Seq<(PeerAddr, ServerMessageView)>,
) {
    match msg {
        ClientMessageView::Register { room_id } => register_outcome(rooms, addr, room_id),
        ClientMessageView::Data { dst_ip, payload } => (
            rooms,
            data_deliveries(rooms, addr, dst_ip, payload),
        ),
        ClientMessageView::Heartbeat => (rooms, seq![(addr, ServerMessageView::HeartbeatAck)]),
    }
}

/// Whether handling `msg` from `addr` would need a virtual address past
/// `10.10.0.254` (see [`register_overflows`]).
pub open spec fn handle_overflows(rooms: RoomsView, addr: PeerAddr, msg: ClientMessageView) -> bool {
    match msg {
        ClientMessageView::Register { room_id } => register_overflows(rooms, addr, room_id),
        _ => false,
    }
}

/// Joining a room keeps the relay's invariant: room names stay distinct,
/// and in every room addresses and virtual addresses stay distinct, the
/// virtual addresses being `10.10.0.1` to `10.10.0.254` in the order the
/// peers joined.
pub proof fn lemma_register_keeps_wf(rooms: RoomsView, addr: PeerAddr, room_id: Seq<char>)
    requires
        rooms_wf(rooms),
        !register_overflows(rooms, addr, room_id),
    ensures
        rooms_wf(register_outcome(rooms, addr, room_id).0),
{
    lemma_first_index(rooms, name_is(room_id), 0);
    let k = room_index(rooms, room_id);
    let opened = if k == -1 {
        rooms.push((room_id, empty_room()))
    } else {
        rooms
    };
    let idx = if k == -1 {
        rooms.len() as int
    } else {
        k
    };
    assert(rooms_wf(opened));
    let room = opened[idx].1;
    if !room.has_addr(addr) {
        let ip = spec_virtual_ip(room.next_ip);
        let joined = RoomView {
            peers: room.peers.push(Peer { addr, virtual_ip: ip }),
            next_ip: (room.next_ip + 1) as u8,
        };
        lemma_virtual_ip_host(room.next_ip);
        assert(room.wf());
        assert(room.next_ip < 255);
        assert forall|i: int| 0 <= i < room.peers.len() implies (#[trigger] room.peers[i]).virtual_ip
            < ip by {
            lemma_virtual_ip_host(host_of(room.peers[i].virtual_ip) as u8);
        }
        assert forall|i: int|
            #![trigger joined.peers[i]]
            0 <= i < joined.peers.len() implies {
            &&& joined.peers[i].virtual_ip == spec_virtual_ip(
                host_of(joined.peers[i].virtual_ip) as u8,
            )
            &&& 1 <= host_of(joined.peers[i].virtual_ip) < joined.next_ip
        } by {
            if i < room.peers.len() {
                assert(joined.peers[i] == room.peers[i]);
            } else {
                assert(joined.peers[i] == Peer { addr, virtual_ip: ip });
            }
        }
        assert(joined.wf());
        assert(register_outcome(rooms, addr, room_id).0 == opened.update(idx, (room_id, joined)));
    }
}

proof fn lemma_room_index_unique(rooms: RoomsView, name: Seq<char>, i: int)
    requires
        rooms_wf(rooms),
        0 <= i < rooms.len(),
        rooms[i].0 == name,
    ensures
        room_index(rooms, name) == i,
{
    lemma_first_index(rooms, name_is(name), 0);
}

/// Asking again to join a room one has joined changes nothing and is not
/// answered.
pub proof fn lemma_register_idempotent(rooms: RoomsView, addr: PeerAddr, room_id: Seq<char>)
    requires
        rooms_wf(rooms),
        !register_overflows(rooms, addr, room_id),
    ensures
        ({
            let after = register_outcome(rooms, addr, room_id).0;
            &&& !register_overflows(after, addr, room_id)
            &&& register_outcome(after, addr, room_id) == (after, Seq::<
                (PeerAddr, ServerMessageView),
            >::empty())
        }),
{
    lemma_register_keeps_wf(rooms, addr, room_id);
    lemma_first_index(rooms, name_is(room_id), 0);
    let k = room_index(rooms, room_id);
    let after = register_outcome(rooms, addr, room_id).0;
    let idx = if k == -1 {
        rooms.len() as int
    } else {
        k
    };
    assert(after[idx].0 == room_id);
    lemma_room_index_unique(after, room_id, idx);
    let room = after[idx].1;
    if k != -1 && rooms[k].1.has_addr(addr) {
        assert(room == rooms[k].1);
    } else {
        assert(room.peers.last().addr == addr);
        assert(room.has_addr(addr));
    }
    assert(register_outcome(after, addr, room_id).1 =~= Seq::<
        (PeerAddr, ServerMessageView),
    >::empty());
}

/// A client that joins a room it is not in gets, as the last message, a
/// virtual address `10.10.0.h` with `h` from 1 to 254 that no other peer of
/// the room has; it is then the room's last peer, under that address.
pub proof fn lemma_register_grants_fresh_address(
    rooms: RoomsView,
    addr: PeerAddr,
    room_id: Seq<char>,
)
    requires
        rooms_wf(rooms),
        !register_overflows(rooms, addr, room_id),
        room_index(rooms, room_id) == -1 || !rooms[room_index(rooms, room_id)].1.has_addr(addr),
    ensures
        ({
            let (after, out) = register_outcome(rooms, addr, room_id);
            let idx = room_index(after, room_id);
            let peers = after[idx].1.peers;
            &&& 0 <= idx < after.len()
            &&& out.len() >= 1
            &&& out.last().0 == addr
            &&& out.last().1 matches ServerMessageView::RegisterOk { virtual_ip } && {
                &&& peers.len() >= 1
                &&& peers.last() == Peer { addr, virtual_ip }
                &&& 1 <= host_of(virtual_ip) <= 254
                &&& virtual_ip == spec_virtual_ip(host_of(virtual_ip) as u8)
                &&& forall|i: int| 0 <= i < peers.len() - 1 ==> peers[i].virtual_ip != virtual_ip
            }
        }),
{
    lemma_register_keeps_wf(rooms, addr, room_id);
    lemma_first_index(rooms, name_is(room_id), 0);
    let k = room_index(rooms, room_id);
    let (after, out) = register_outcome(rooms, addr, room_id);
    let idx = if k == -1 {
        rooms.len() as int
    } else {
        k
    };
    assert(after[idx].0 == room_id);
    lemma_room_index_unique(after, room_id, idx);
    let peers = after[idx].1.peers;
    assert(after[idx].1.wf());
    assert(peers.len() >= 1);
    let last = peers.len() - 1;
    assert(peers[last] == peers.last());
    assert(forall|i: int| 0 <= i < last ==> peers[i].virtual_ip < peers[last].virtual_ip);
}

/// A payload is only ever passed to a peer of a room that the sender is in
/// (the first such room), under the virtual address it was sent to, marked
/// with the sender's virtual address in that room, and at most once.
pub proof fn lemma_data_stays_in_room(
    rooms: RoomsView,
    addr: PeerAddr,
    dst_ip: u32,
    payload: Seq<u8>,
)
    ensures
        ({
            let out = data_deliveries(rooms, addr, dst_ip, payload);
            let k = sender_room_index(rooms, addr);
            let room = rooms[k].1;
            let a = room.addr_index(addr);
            let b = room.ip_index(dst_ip);
            &&& out.len() <= 1
            &&& out.len() == 1 ==> {
                &&& 0 <= k < rooms.len()
                &&& 0 <= a < room.peers.len()
                &&& 0 <= b < room.peers.len()
                &&& room.peers[a].addr == addr
                &&& room.peers[b].virtual_ip == dst_ip
                &&& out[0] == (
                    room.peers[b].addr,
                    ServerMessageView::Data { src_ip: room.peers[a].virtual_ip, payload },
                )
            }
        }),
{
    lemma_first_index(rooms, holds_addr(addr), 0);
    let k = sender_room_index(rooms, addr);
    if k != -1 {
        let room = rooms[k].1;
        lemma_first_index(room.peers, addr_is(addr), 0);
        lemma_first_index(room.peers, ip_is(dst_ip), 0);
        assert(room.has_addr(addr));
    }
}

/// Within a room, a sender address or a virtual address picks at most one peer.
proof fn lemma_room_peers_unique(room: RoomView)
    requires
        room.wf(),
    ensures
        forall|i: int, j: int|
            0 <= i < room.peers.len() && 0 <= j < room.peers.len() && room.peers[i].addr
                == room.peers[j].addr ==> i == j,
        forall|i: int, j: int|
            0 <= i < room.peers.len() && 0 <= j < room.peers.len() && room.peers[i].virtual_ip
                == room.peers[j].virtual_ip ==> i == j,
{
    assert forall|i: int, j: int|
        0 <= i < room.peers.len() && 0 <= j < room.peers.len() && room.peers[i].virtual_ip
            == room.peers[j].virtual_ip implies i == j by {
        if i < j {
            assert(room.peers[i].virtual_ip < room.peers[j].virtual_ip);
        } else if j < i {
            assert(room.peers[j].virtual_ip < room.peers[i].virtual_ip);
        }
    }
}

/// Data reaches the addressed peer: when the sender's first room is `k`, the
/// sender is peer `a` there and peer `b` has the virtual address `dst_ip`,
/// the relay sends exactly one message, to peer `b`, with the payload marked
/// with the sender's virtual address, and changes nothing.
pub proof fn lemma_data_reaches_addressed_peer(
    rooms: RoomsView,
    addr: PeerAddr,
    dst_ip: u32,
    payload: Seq<u8>,
    k: int,
    a: int,
    b: int,
)
    requires
        rooms_wf(rooms),
        0 <= k < rooms.len(),
        forall|j: int| 0 <= j < k ==> !(#[trigger] rooms[j]).1.has_addr(addr),
        0 <= a < rooms[k].1.peers.len(),
        rooms[k].1.peers[a].addr == addr,
        0 <= b < rooms[k].1.peers.len(),
        rooms[k].1.peers[b].virtual_ip == dst_ip,
    ensures
        handle_outcome(rooms, addr, ClientMessageView::Data { dst_ip, payload }) == (
            rooms,
            seq![
                (
                    rooms[k].1.peers[b].addr,
                    ServerMessageView::Data { src_ip: rooms[k].1.peers[a].virtual_ip, payload },
                ),
            ],
        ),
{
    let room = rooms[k].1;
    assert(room.wf());
    lemma_room_peers_unique(room);
    assert(holds_addr(addr)(rooms[k]));
    lemma_first_index(rooms, holds_addr(addr), 0);
    assert(sender_room_index(rooms, addr) == k);
    lemma_first_index(room.peers, addr_is(addr), 0);
    assert(addr_is(addr)(room.peers[a]));
    assert(room.addr_index(addr) == a);
    lemma_first_index(room.peers, ip_is(dst_ip), 0);
    assert(ip_is(dst_ip)(room.peers[b]));
    assert(room.ip_index(dst_ip) == b);
}

/// Data goes nowhere when the sender is in no room, or when no peer of its
/// first room has the virtual address it names; the state never changes.
pub proof fn lemma_data_without_receiver(
    rooms: RoomsView,
    addr: PeerAddr,
    dst_ip: u32,
    payload: Seq<u8>,
)
    requires
        forall|k: int| 0 <= k < rooms.len() ==> !(#[trigger] rooms[k]).1.has_addr(addr),
    ensures
        handle_outcome(rooms, addr, ClientMessageView::Data { dst_ip, payload }) == (
            rooms,
            Seq::<(PeerAddr, ServerMessageView)>::empty(),
        ),
{
    lemma_first_index(rooms, holds_addr(addr), 0);
    assert(data_deliveries(rooms, addr, dst_ip, payload) =~= Seq::<
        (PeerAddr, ServerMessageView),
    >::empty());
}

/// Joining a room of `n` peers: each peer already there, in the order they
/// joined, hears that the newcomer has the next virtual address
/// `10.10.0.next_ip`; then the newcomer hears of each of them with its
/// address; then it gets its own. That is `2 * n + 1` messages, and the
/// newcomer is then the room's last peer.
pub proof fn lemma_join_announces_both_ways(
    rooms: RoomsView,
    addr: PeerAddr,
    room_id: Seq<char>,
    k: int,
)
    requires
        rooms_wf(rooms),
        0 <= k < rooms.len(),
        rooms[k].0 == room_id,
        !rooms[k].1.has_addr(addr),
        rooms[k].1.next_ip < 255,
    ensures
        ({
            let peers = rooms[k].1.peers;
            let n = peers.len();
            let ip = spec_virtual_ip(rooms[k].1.next_ip);
            let (after, out) = handle_outcome(
                rooms,
                addr,
                ClientMessageView::Register { room_id },
            );
            &&& out.len() == 2 * n + 1
            &&& forall|i: int|
                0 <= i < n ==> #[trigger] out[i] == (
                    peers[i].addr,
                    ServerMessageView::PeerJoined { virtual_ip: ip },
                )
            &&& forall|i: int|
                0 <= i < n ==> #[trigger] out[n + i] == (
                    addr,
                    ServerMessageView::PeerJoined { virtual_ip: peers[i].virtual_ip },
                )
            &&& out[2 * n as int] == (addr, ServerMessageView::RegisterOk { virtual_ip: ip })
            &&& after.len() == rooms.len()
            &&& after[k].0 == room_id
            &&& after[k].1.peers == peers.push(Peer { addr, virtual_ip: ip })
            &&& after[k].1.next_ip == rooms[k].1.next_ip + 1
            &&& forall|j: int| 0 <= j < rooms.len() && j != k ==> #[trigger] after[j] == rooms[j]
        }),
{
    lemma_room_index_unique(rooms, room_id, k);
    let peers = rooms[k].1.peers;
    let n = peers.len();
    let ip = spec_virtual_ip(rooms[k].1.next_ip);
    let out = join_notices(peers, addr, ip);
    assert forall|i: int| 0 <= i < n implies #[trigger] out[n + i] == (
        addr,
        ServerMessageView::PeerJoined { virtual_ip: peers[i].virtual_ip },
    ) by {
        assert(out[n + i] == peers.map_values(
            |p: Peer| (addr, ServerMessageView::PeerJoined { virtual_ip: p.virtual_ip }),
        )[i]);
    }
}

/// Joining a room that does not exist yet opens it, after the others, with
/// the newcomer alone in it under `10.10.0.1`, which is all it is told.
pub proof fn lemma_join_opens_room(rooms: RoomsView, addr: PeerAddr, room_id: Seq<char>)
    requires
        forall|k: int| 0 <= k < rooms.len() ==> (#[trigger] rooms[k]).0 != room_id,
    ensures
        ({
            let (after, out) = handle_outcome(
                rooms,
                addr,
                ClientMessageView::Register { room_id },
            );
            &&& out == seq![(addr, ServerMessageView::RegisterOk { virtual_ip: 0x0A0A_0001 })]
            &&& after == rooms.push(
                (room_id, RoomView { peers: seq![Peer { addr, virtual_ip: 0x0A0A_0001 }], next_ip: 2 }),
            )
        }),
{
    lemma_first_index(rooms, name_is(room_id), 0);
    let (after, out) = register_outcome(rooms, addr, room_id);
    assert(out =~= seq![(addr, ServerMessageView::RegisterOk { virtual_ip: 0x0A0A_0001 })]);
    assert(after =~= rooms.push(
        (room_id, RoomView { peers: seq![Peer { addr, virtual_ip: 0x0A0A_0001 }], next_ip: 2 }),
    ));
}

impl View for Rooms {
    type V = RoomsView;

    closed spec fn view(&self) -> RoomsView {
        self.entries@.map_values(|e: NamedRoom| (e.name@, e.room@))
    }
}

impl Rooms {
    /// The invariant of the relay's state.
    pub open spec fn wf(&self) -> bool {
        rooms_wf(self@)
    }

    /// No rooms yet.
    pub fn new() -> (rooms: Rooms)
        ensures
            rooms@ == Seq::<(Seq<char>, RoomView)>::empty(),
            rooms.wf(),
    {
        let rooms = Rooms { entries: Vec::new() };
        assert(rooms@ =~= Seq::<(Seq<char>, RoomView)>::empty());
        rooms
    }

    fn position_of_room(&self, name: &String) -> (r: Option<usize>)
        ensures
            match r {
                Some(i) => i as int == room_index(self@, name@) && i < self@.len(),
                None => room_index(self@, name@) == -1,
            },
    {
        let mut i: usize = 0;
        while i < self.entries.len()
            invariant
                i <= self.entries@.len(),
                self@.len() == self.entries@.len(),
                first_index(self@, name_is(name@), 0) == first_index(self@, name_is(name@), i as int),
            decreases self.entries@.len() - i,
        {
            assert(self@[i as int].0 == self.entries@[i as int].name@);
            if self.entries[i].name == *name {
                return Some(i);
            }
            i = i + 1;
        }
        None
    }

    fn position_of_sender(&self, addr: &PeerAddr) -> (r: Option<usize>)
        ensures
            match r {
                Some(i) => i as int == sender_room_index(self@, *addr) && i < self@.len(),
                None => sender_room_index(self@, *addr) == -1,
            },
    {
        let mut i: usize = 0;
        while i < self.entries.len()
            invariant
                i <= self.entries@.len(),
                self@.len() == self.entries@.len(),
                first_index(self@, holds_addr(*addr), 0) == first_index(
                    self@,
                    holds_addr(*addr),
                    i as int,
                ),
            decreases self.entries@.len() - i,
        {
            assert(self@[i as int].1 == self.entries@[i as int].room@);
            if self.entries[i].room.find_peer_by_addr(addr).is_some() {
                return Some(i);
            }
            i = i + 1;
        }
        None
    }

    fn register_overflows(&self, addr: &PeerAddr, room_id: &String) -> (b: bool)
        ensures
            b == register_overflows(self@, *addr, room_id@),
    {
        match self.position_of_room(room_id) {
            Some(k) => {
                assert(self@[k as int].1 == self.entries@[k as int].room@);
                self.entries[k].room.find_peer_by_addr(addr).is_none()
                    && self.entries[k].room.next_ip == 255
            },
            None => false,
        }
    }
}


fn notices_for_join(peers: &Vec<Peer>, addr: PeerAddr, ip: u32) -> (out: Vec<Delivery>)
    ensures
        deliveries_view(out@) == join_notices(peers@, addr, ip),
{
    let mut out: Vec<Delivery> = Vec::new();
    let n = peers.len();
    for i in 0..n
        invariant
            n == peers@.len(),
            out@.len() == i,
            forall|j: int|
                0 <= j < i ==> (#[trigger] out@[j])@ == (
                    peers@[j].addr,
                    ServerMessageView::PeerJoined { virtual_ip: ip },
                ),
    {
        out.push(Delivery { to: peers[i].addr, message: ServerMessage::PeerJoined { virtual_ip: ip } });
    }
    for i in 0..n
        invariant
            n == peers@.len(),
            out@.len() == n + i,
            forall|j: int|
                0 <= j < n ==> (#[trigger] out@[j])@ == (
                    peers@[j].addr,
                    ServerMessageView::PeerJoined { virtual_ip: ip },
                ),
            forall|j: int|
                0 <= j < i ==> (#[trigger] out@[n + j])@ == (
                    addr,
                    ServerMessageView::PeerJoined { virtual_ip: peers@[j].virtual_ip },
                ),
    {
        out.push(
            Delivery {
                to: addr,
                message: ServerMessage::PeerJoined { virtual_ip: peers[i].virtual_ip },
            },
        );
    }
    out.push(Delivery { to: addr, message: ServerMessage::RegisterOk { virtual_ip: ip } });
    let ghost expected = join_notices(peers@, addr, ip);
    assert(deliveries_view(out@) =~= expected) by {
        assert forall|j: int| 0 <= j < out@.len() implies deliveries_view(out@)[j] == expected[j] by {
            if n <= j < 2 * n {
                assert(out@[n + (j - n)]@ == expected[j]);
            }
        }
    }
    out
}

impl Rooms {
    fn register(&mut self, addr: PeerAddr, room_id: String) -> (out: Vec<Delivery>)
        requires
            old(self).wf(),
            !register_overflows(old(self)@, addr, room_id@),
        ensures
            final(self).wf(),
            final(self)@ == register_outcome(old(self)@, addr, room_id@).0,
            deliveries_view(out@) == register_outcome(old(self)@, addr, room_id@).1,
    {
        let ghost old_view = self@;
        let ghost name = room_id@;
        let ghost k = room_index(old_view, name);
        proof {
            lemma_first_index(old_view, name_is(name), 0);
        }
        let idx = match self.position_of_room(&room_id) {
            Some(i) => i,
            None => {
                self.entries.push(NamedRoom { name: room_id, room: Room::new() });
                assert(self@ =~= old_view.push((name, empty_room())));
                self.entries.len() - 1
            },
        };
        let ghost opened = self@;
        assert(opened[idx as int].1 == self.entries@[idx as int].room@);
        assert(opened[idx as int].0 == name);
        assert(rooms_wf(opened));
        if self.entries[idx].room.find_peer_by_addr(&addr).is_some() {
            return Vec::new();
        }
        let ghost room = opened[idx as int].1;
        let ip = virtual_ip(self.entries[idx].room.next_ip);
        let out = notices_for_join(&self.entries[idx].room.peers, addr, ip);
        let entry = &mut self.entries[idx];
        entry.room.allocate_ip();
        entry.room.peers.push(Peer { addr, virtual_ip: ip });
        let ghost joined = RoomView {
            peers: room.peers.push(Peer { addr, virtual_ip: ip }),
            next_ip: (room.next_ip + 1) as u8,
        };
        assert(self@ =~= opened.update(idx as int, (name, joined)));
        proof {
            lemma_register_keeps_wf(old_view, addr, name);
        }
        out
    }

    fn forward(&self, addr: PeerAddr, dst_ip: u32, payload: Vec<u8>) -> (out: Vec<Delivery>)
        ensures
            deliveries_view(out@) == data_deliveries(self@, addr, dst_ip, payload@),
    {
        proof {
            lemma_first_index(self@, holds_addr(addr), 0);
        }
        match self.position_of_sender(&addr) {
            None => Vec::new(),
            Some(k) => {
                let room = &self.entries[k].room;
                assert(room@ == self@[k as int].1);
                match room.find_peer_by_addr(&addr) {
                    None => {
                        proof {
                            assert(false);
                        }
                        Vec::new()
                    },
                    Some(me) => {
                        let src_ip = me.virtual_ip;
                        match room.find_peer_by_ip(dst_ip) {
                            Some(d) => {
                                let mut out: Vec<Delivery> = Vec::new();
                                out.push(
                                    Delivery {
                                        to: d.addr,
                                        message: ServerMessage::Data { src_ip, payload },
                                    },
                                );
                                assert(deliveries_view(out@) =~= data_deliveries(
                                    self@,
                                    addr,
                                    dst_ip,
                                    payload@,
                                ));
                                out
                            },
                            None => {
                                proof {
                                    lemma_first_index(room@.peers, ip_is(dst_ip), 0);
                                }
                                Vec::new()
                            },
                        }
                    },
                }
            },
        }
    }

    /// The room named `name`.
    pub fn room(&self, name: &String) -> (r: Option<&Room>)
        ensures
            match r {
                Some(room) => {
                    let k = room_index(self@, name@);
                    0 <= k < self@.len() && room@ == self@[k].1
                },
                None => room_index(self@, name@) == -1,
            },
    {
        match self.position_of_room(name) {
            Some(k) => {
                assert(self@[k as int].1 == self.entries@[k as int].room@);
                Some(&self.entries[k].room)
            },
            None => None,
        }
    }

    /// Whether handling `msg` from `addr` would need a virtual address past
    /// `10.10.0.254`; [`Rooms::handle_client_message`] must not be asked to.
    pub fn would_overflow(&self, addr: &PeerAddr, msg: &ClientMessage) -> (b: bool)
        ensures
            b == handle_overflows(self@, *addr, msg@),
    {
        match msg {
            ClientMessage::Register { room_id } => self.register_overflows(addr, room_id),
            _ => false,
        }
    }

    /// Handles `msg`, received from `addr`: updates the rooms and gives what
    /// to send, in order (see [`handle_outcome`]).
    pub fn handle_client_message(&mut self, addr: PeerAddr, msg: ClientMessage) -> (out: Vec<
        Delivery,
    >)
        requires
            old(self).wf(),
            !handle_overflows(old(self)@, addr, msg@),
        ensures
            final(self).wf(),
            final(self)@ == handle_outcome(old(self)@, addr, msg@).0,
            deliveries_view(out@) == handle_outcome(old(self)@, addr, msg@).1,
    {
        match msg {
            ClientMessage::Register { room_id } => self.register(addr, room_id),
            ClientMessage::Data { dst_ip, payload } => self.forward(addr, dst_ip, payload),
            ClientMessage::Heartbeat => {
                let mut out: Vec<Delivery> = Vec::new();
                out.push(Delivery { to: addr, message: ServerMessage::HeartbeatAck });
                assert(deliveries_view(out@) =~= seq![(addr, ServerMessageView::HeartbeatAck)]);
                out
            },
        }
    }
}

} // verus!
