//! The session as a mathematical state machine: what each request does to
//! the state and which messages it sends to whom.

use vstd::prelude::*;

use crate::db::lemma_with;
use crate::db::lemma_without;
use crate::db::without;
use crate::db::with;
use crate::db::Client;
use crate::db::RoomView;
use crate::db::UserView;
use crate::ids::ClientId;
use crate::ids::RoomId;
use crate::ids::UserId;
use crate::protocol::Channel;
use crate::protocol::Event;
use crate::protocol::EventType;
use crate::protocol::Request;
use crate::protocol::Response;
use crate::protocol::Room;
use crate::protocol::User;

verus! {

/// What the session hands to a connection task.
#[derive(Clone, PartialEq, Eq, Debug)]
pub enum ServerToClient {
    /// The connection was registered under this id.
    Accepted(ClientId),
    /// A reply or a broadcast, to be written to the socket.
    Response(Response),
}

/// One message and the connections it goes to.
pub struct DispatchView {
    pub to: Seq<ClientId>,
    pub message: ServerToClient,
}

/// The session's state: connections, world-present users and rooms, each in
/// the order they were added.
pub struct DbView {
    pub clients: Seq<Client>,
    pub users: Seq<UserView>,
    pub rooms: Seq<RoomView>,
}

/// `message` to the one connection `to`.
pub open spec fn reply(to: ClientId, response: Response) -> DispatchView {
    DispatchView { to: seq![to], message: ServerToClient::Response(response) }
}

/// `event` to every connection of `to`.
pub open spec fn broadcast(to: Seq<ClientId>, event: Event<User, Room>) -> DispatchView {
    DispatchView { to, message: ServerToClient::Response(Response::Event(event)) }
}

/// The connections of every user in `users`: the world's audience.
pub open spec fn world_audience(users: Seq<UserView>) -> Seq<ClientId> {
    users.map_values(|u: UserView| u.client_id)
}

/// The connections of the users in `users` that have joined `room_id`:
/// that room's audience.
pub open spec fn room_audience(users: Seq<UserView>, room_id: RoomId) -> Seq<ClientId>
    decreases users.len(),
{
    if users.len() == 0 {
        Seq::empty()
    } else {
        let rest = room_audience(users.drop_last(), room_id);
        if users.last().rooms.contains(room_id) {
            rest.push(users.last().client_id)
        } else {
            rest
        }
    }
}

/// The first user in `users` named `name`, as the wire shows it.
pub open spec fn first_user_named(users: Seq<UserView>, name: Seq<char>) -> Option<User>
    decreases users.len(),
{
    if users.len() == 0 {
        None
    } else if users[0].name@ == name {
        Some(User { id: users[0].id, name: users[0].name })
    } else {
        first_user_named(users.drop_first(), name)
    }
}

/// The first room in `rooms` named `name`, as the wire shows it.
pub open spec fn first_room_named(rooms: Seq<RoomView>, name: Seq<char>) -> Option<Room>
    decreases rooms.len(),
{
    if rooms.len() == 0 {
        None
    } else if rooms[0].name@ == name {
        Some(Room { id: rooms[0].id, name: rooms[0].name })
    } else {
        first_room_named(rooms.drop_first(), name)
    }
}

/// The room `r` with `user_id` taken out of its members.
pub open spec fn room_without(r: RoomView, user_id: UserId) -> RoomView {
    RoomView { members: without(r.members, user_id), ..r }
}

impl DbView {
    /// No connections, users or rooms.
    pub open spec fn empty() -> DbView {
        DbView { clients: Seq::empty(), users: Seq::empty(), rooms: Seq::empty() }
    }

    pub open spec fn has_client(self, c: ClientId) -> bool {
        exists|i: int| 0 <= i < self.clients.len() && self.clients[i].id == c
    }

    pub open spec fn client_index(self, c: ClientId) -> int {
        choose|i: int| 0 <= i < self.clients.len() && self.clients[i].id == c
    }

    /// Whether `u` is world-present.
    pub open spec fn has_user(self, u: UserId) -> bool {
        exists|i: int| 0 <= i < self.users.len() && self.users[i].id == u
    }

    pub open spec fn user_index(self, u: UserId) -> int {
        choose|i: int| 0 <= i < self.users.len() && self.users[i].id == u
    }

    pub open spec fn has_room(self, r: RoomId) -> bool {
        exists|i: int| 0 <= i < self.rooms.len() && self.rooms[i].id == r
    }

    pub open spec fn room_index(self, r: RoomId) -> int {
        choose|i: int| 0 <= i < self.rooms.len() && self.rooms[i].id == r
    }

    pub open spec fn has_room_named(self, name: Seq<char>) -> bool {
        exists|i: int| 0 <= i < self.rooms.len() && self.rooms[i].name@ == name
    }

    /// The user bound to connection `c`, if any.
    pub open spec fn bound(self, c: ClientId) -> Option<User> {
        if self.has_client(c) {
            self.clients[self.client_index(c)].user
        } else {
            None
        }
    }

    /// Whether world-present user `u` has joined room `r`.
    pub open spec fn is_member(self, u: UserId, r: RoomId) -> bool {
        self.has_user(u) && self.users[self.user_index(u)].rooms.contains(r)
    }

    /// The members of room `r`.
    pub open spec fn members(self, r: RoomId) -> Seq<UserId> {
        self.rooms[self.room_index(r)].members
    }

    /// World-present user `u`, as the wire shows it.
    pub open spec fn user_record(self, u: UserId) -> User {
        User { id: u, name: self.users[self.user_index(u)].name }
    }

    /// Room `r`, as the wire shows it.
    pub open spec fn room_record(self, r: RoomId) -> Room {
        Room { id: r, name: self.rooms[self.room_index(r)].name }
    }

    /// The connections that a broadcast on `channel` reaches.
    pub open spec fn audience(self, channel: Channel<RoomId>) -> Seq<ClientId> {
        match channel {
            Channel::World => world_audience(self.users),
            Channel::Room(r) => room_audience(self.users, r),
        }
    }

    /// The state's invariant: ids and room names are unique, memberships
    /// hold no repeats, a user's rooms and a room's members agree, users
    /// join only live rooms and rooms hold only world-present users.
    pub open spec fn wf(self) -> bool {
        &&& forall|i: int, j: int|
            0 <= i < j < self.clients.len() ==> self.clients[i].id != self.clients[j].id
        &&& forall|i: int, j: int|
            0 <= i < j < self.users.len() ==> self.users[i].id != self.users[j].id
        &&& forall|i: int, j: int|
            0 <= i < j < self.rooms.len() ==> self.rooms[i].id != self.rooms[j].id
        &&& forall|i: int, j: int|
            0 <= i < j < self.rooms.len() ==> self.rooms[i].name@ != self.rooms[j].name@
        &&& forall|i: int| 0 <= i < self.users.len() ==> (#[trigger] self.users[i]).rooms.no_duplicates()
        &&& forall|j: int| 0 <= j < self.rooms.len() ==> (#[trigger] self.rooms[j]).members.no_duplicates()
        &&& forall|i: int, j: int|
            0 <= i < self.users.len() && 0 <= j < self.rooms.len() ==> ((#[trigger] self.users[i]).rooms.contains(
                (#[trigger] self.rooms[j]).id,
            ) <==> self.rooms[j].members.contains(self.users[i].id))
        &&& forall|i: int, r: RoomId|
            0 <= i < self.users.len() && #[trigger] self.users[i].rooms.contains(r) ==> self.has_room(r)
        &&& forall|j: int, u: UserId|
            0 <= j < self.rooms.len() && #[trigger] self.rooms[j].members.contains(u) ==> self.has_user(u)
        &&& self.linked()
    }

    /// Connection `c` is registered and bound to `user`.
    pub open spec fn binds(self, c: ClientId, user: User) -> bool {
        exists|k: int| 0 <= k < self.clients.len() && #[trigger] self.clients[k].id == c && self.clients[k].user == Some(user)
    }

    /// Some connection is bound to the user id `u`.
    pub open spec fn id_taken(self, u: UserId) -> bool {
        exists|k: int| 0 <= k < self.clients.len() && (#[trigger] self.clients[k]).user is Some && self.clients[k].user->0.id == u
    }

    /// Users and connections agree: each world-present user's record names
    /// a connection bound to that user under the same name, no two users
    /// share a connection, and no user id is bound to two connections.
    pub open spec fn linked(self) -> bool {
        &&& forall|i: int|
            0 <= i < self.users.len() ==> self.binds(
                (#[trigger] self.users[i]).client_id,
                User { id: self.users[i].id, name: self.users[i].name },
            )
        &&& forall|i: int, j: int|
            0 <= i < j < self.users.len() ==> self.users[i].client_id != self.users[j].client_id
        &&& forall|a: int, b: int|
            0 <= a < b < self.clients.len() && self.clients[a].user is Some && self.clients[b].user is Some
                ==> self.clients[a].user->0.id != self.clients[b].user->0.id
    }

    /// World-present user `u` joins room `r`; joining twice changes nothing.
    pub open spec fn join(self, u: UserId, r: RoomId) -> DbView {
        let k = self.user_index(u);
        let j = self.room_index(r);
        DbView {
            users: self.users.update(
                k,
                UserView { rooms: with(self.users[k].rooms, r), ..self.users[k] },
            ),
            rooms: self.rooms.update(
                j,
                RoomView { members: with(self.rooms[j].members, u), ..self.rooms[j] },
            ),
            ..self
        }
    }

    /// World-present user `u` leaves room `r`, if it had joined it.
    pub open spec fn part(self, u: UserId, r: RoomId) -> DbView {
        let k = self.user_index(u);
        let j = self.room_index(r);
        DbView {
            users: self.users.update(
                k,
                UserView { rooms: without(self.users[k].rooms, r), ..self.users[k] },
            ),
            rooms: self.rooms.update(j, room_without(self.rooms[j], u)),
            ..self
        }
    }

    /// The error reply to `c`, with the state unchanged.
    pub open spec fn refuse(self, c: ClientId) -> (DbView, Seq<DispatchView>) {
        (self, seq![reply(c, Response::Error)])
    }

    /// Accept: registers connection `c` and tells it its id; a taken id is
    /// refused (`None`).
    pub open spec fn step_accept(self, c: ClientId) -> Option<(DbView, Seq<DispatchView>)> {
        if self.has_client(c) {
            None
        } else {
            Some(
                (
                    DbView { clients: self.clients.push(Client { id: c, user: None }), ..self },
                    seq![DispatchView { to: seq![c], message: ServerToClient::Accepted(c) }],
                ),
            )
        }
    }

    /// Connect: binds a new user `u` named `name` to connection `c`, once;
    /// a user id already bound to a connection is refused.
    pub open spec fn step_connect(self, c: ClientId, name: String, u: UserId) -> (
        DbView,
        Seq<DispatchView>,
    ) {
        if self.has_client(c) && self.clients[self.client_index(c)].user is None && !self.id_taken(u) {
            let user = User { id: u, name };
            (
                DbView {
                    clients: self.clients.update(
                        self.client_index(c),
                        Client { id: c, user: Some(user) },
                    ),
                    ..self
                },
                seq![reply(c, Response::Connected(user))],
            )
        } else {
            self.refuse(c)
        }
    }

    /// CreateRoom: a new empty room `r` named `name`, unless the name (or
    /// the id) is taken.
    pub open spec fn step_create_room(self, c: ClientId, name: String, r: RoomId) -> (
        DbView,
        Seq<DispatchView>,
    ) {
        if !self.has_room_named(name@) && !self.has_room(r) {
            (
                DbView {
                    rooms: self.rooms.push(RoomView { id: r, name, members: Seq::empty() }),
                    ..self
                },
                seq![reply(c, Response::CreatedRoom(Room { id: r, name }))],
            )
        } else {
            self.refuse(c)
        }
    }

    /// World-present user `u` leaves the world: first every room it joined,
    /// each announced to that room's audience before the removal, then the
    /// world itself, announced to the world's audience before the removal.
    pub open spec fn step_leave_world(self, u: UserId) -> (DbView, Seq<DispatchView>) {
        let k = self.user_index(u);
        let rooms = self.users[k].rooms;
        let who = self.user_record(u);
        let room_leaves = Seq::new(
            rooms.len(),
            |j: int|
                broadcast(
                    room_audience(self.users, rooms[j]),
                    Event {
                        channel: Channel::Room(self.room_record(rooms[j])),
                        user: who,
                        event_type: EventType::Leave,
                    },
                ),
        );
        (
            DbView {
                clients: self.clients,
                users: self.users.remove(k),
                rooms: self.rooms.map_values(|r: RoomView| room_without(r, u)),
            },
            room_leaves.push(
                broadcast(
                    world_audience(self.users),
                    Event { channel: Channel::World, user: who, event_type: EventType::Leave },
                ),
            ),
        )
    }

    /// An event sent by connection `c`.
    pub open spec fn step_event(self, c: ClientId, e: Event<UserId, RoomId>) -> (
        DbView,
        Seq<DispatchView>,
    ) {
        let u = e.user;
        match e.channel {
            Channel::World => match e.event_type {
                EventType::Enter => {
                    match self.bound(c) {
                        Some(b) => if b.id == u && !self.has_user(u) {
                            let s = DbView {
                                users: self.users.push(
                                    UserView { id: u, client_id: c, name: b.name, rooms: Seq::empty() },
                                ),
                                ..self
                            };
                            (
                                s,
                                seq![
                                    broadcast(
                                        world_audience(s.users),
                                        Event { channel: Channel::World, user: b, event_type: EventType::Enter },
                                    ),
                                ],
                            )
                        } else {
                            self.refuse(c)
                        },
                        None => self.refuse(c),
                    }
                },
                EventType::Leave => if self.has_user(u) {
                    self.step_leave_world(u)
                } else {
                    self.refuse(c)
                },
                EventType::Post { message } => if self.has_user(u) {
                    (
                        self,
                        seq![
                            broadcast(
                                world_audience(self.users),
                                Event {
                                    channel: Channel::World,
                                    user: self.user_record(u),
                                    event_type: EventType::Post { message },
                                },
                            ),
                        ],
                    )
                } else {
                    self.refuse(c)
                },
            },
            Channel::Room(r) => match e.event_type {
                EventType::Enter => if self.has_room(r) && self.has_user(u) {
                    let s = self.join(u, r);
                    (
                        s,
                        seq![
                            broadcast(
                                room_audience(s.users, r),
                                Event {
                                    channel: Channel::Room(self.room_record(r)),
                                    user: self.user_record(u),
                                    event_type: EventType::Enter,
                                },
                            ),
                        ],
                    )
                } else {
                    self.refuse(c)
                },
                EventType::Leave => if self.is_member(u, r) && self.has_room(r) {
                    let s = self.part(u, r);
                    (
                        s,
                        seq![
                            broadcast(
                                room_audience(self.users, r),
                                Event {
                                    channel: Channel::Room(self.room_record(r)),
                                    user: self.user_record(u),
                                    event_type: EventType::Leave,
                                },
                            ),
                        ],
                    )
                } else {
                    self.refuse(c)
                },
                EventType::Post { message } => if self.is_member(u, r) && self.has_room(r) {
                    (
                        self,
                        seq![
                            broadcast(
                                room_audience(self.users, r),
                                Event {
                                    channel: Channel::Room(self.room_record(r)),
                                    user: self.user_record(u),
                                    event_type: EventType::Post { message },
                                },
                            ),
                        ],
                    )
                } else {
                    self.refuse(c)
                },
            },
        }
    }

    /// Shutdown: connection `c` goes; if its user is world-present through
    /// it, that user leaves the world first.
    pub open spec fn step_shutdown(self, c: ClientId) -> (DbView, Seq<DispatchView>) {
        if self.has_client(c) {
            let i = self.client_index(c);
            let (s, out) = match self.clients[i].user {
                Some(b) => if self.has_user(b.id) && self.users[self.user_index(b.id)].client_id
                    == c {
                    self.step_leave_world(b.id)
                } else {
                    (self, Seq::empty())
                },
                None => (self, Seq::empty()),
            };
            (DbView { clients: s.clients.remove(i), ..s }, out)
        } else {
            (self, Seq::empty())
        }
    }

    /// A request from connection `c`; `u` and `r` are the ids that a new
    /// user or a new room would get. Disconnect is not an operation of the
    /// session and is answered with an error; a connection ends by Shutdown.
    pub open spec fn step_request(self, c: ClientId, request: Request, u: UserId, r: RoomId) -> (
        DbView,
        Seq<DispatchView>,
    ) {
        match request {
            Request::GetUser(name) => (
                self,
                seq![reply(c, Response::User(first_user_named(self.users, name@)))],
            ),
            Request::GetRoom(name) => (
                self,
                seq![reply(c, Response::Room(first_room_named(self.rooms, name@)))],
            ),
            Request::Connect(name) => self.step_connect(c, name, u),
            Request::CreateRoom(name) => self.step_create_room(c, name, r),
            Request::Event(e) => self.step_event(c, e),
            Request::Disconnect => self.refuse(c),
            Request::Shutdown => self.step_shutdown(c),
        }
    }
}

impl DbView {
    /// Creating a room keeps the invariant.
    #[verifier::spinoff_prover]
    #[verifier::rlimit(30)]
    pub proof fn lemma_create_room_wf(self, c: ClientId, name: String, r: RoomId)
        requires
            self.wf(),
        ensures
            self.step_create_room(c, name, r).0.wf(),
    {
        if !self.has_room_named(name@) && !self.has_room(r) {
            let s = self.step_create_room(c, name, r).0;
            let n = self.rooms.len() as int;
            assert(s.rooms[n].members =~= Seq::<UserId>::empty());
            assert forall|i: int, j: int| 0 <= i < s.users.len() && 0 <= j < s.rooms.len() implies
                (#[trigger] s.users[i]).rooms.contains((#[trigger] s.rooms[j]).id)
                    <==> s.rooms[j].members.contains(s.users[i].id) by {
                if j == n {
                    if s.users[i].rooms.contains(r) {
                        assert(self.users[i].rooms.contains(r));
                    }
                } else {
                    assert(s.rooms[j] == self.rooms[j]);
                }
            }
            assert forall|i: int, x: RoomId| 0 <= i < s.users.len() && #[trigger] s.users[i].rooms.contains(x)
                implies s.has_room(x) by {
                assert(self.users[i].rooms.contains(x));
                let j = choose|j: int| 0 <= j < self.rooms.len() && self.rooms[j].id == x;
                assert(s.rooms[j].id == x);
            }
            assert forall|j: int, u: UserId| 0 <= j < s.rooms.len() && #[trigger] s.rooms[j].members.contains(u)
                implies s.has_user(u) by {
                assert(j < n);
                assert(s.rooms[j] == self.rooms[j]);
            }
            assert forall|i: int, j: int| 0 <= i < j < s.rooms.len() implies s.rooms[i].id != s.rooms[j].id
                && s.rooms[i].name@ != s.rooms[j].name@ by {
                if j == n {
                    assert(self.rooms[i].id != r);
                    assert(self.rooms[i].name@ != name@);
                }
            }
        }
    }
}

impl DbView {
    /// The index lookups name the one record with that id.
    pub proof fn lemma_indices(self)
        requires
            self.wf(),
        ensures
            forall|u: UserId| #[trigger] self.has_user(u) ==> 0 <= self.user_index(u) < self.users.len()
                && self.users[self.user_index(u)].id == u,
            forall|r: RoomId| #[trigger] self.has_room(r) ==> 0 <= self.room_index(r) < self.rooms.len()
                && self.rooms[self.room_index(r)].id == r,
            forall|c: ClientId| #[trigger] self.has_client(c) ==> 0 <= self.client_index(c)
                < self.clients.len() && self.clients[self.client_index(c)].id == c,
    {
    }

    /// Joining a room keeps the invariant.
    #[verifier::spinoff_prover]
    #[verifier::rlimit(30)]
    pub proof fn lemma_join_wf(self, u: UserId, r: RoomId)
        requires
            self.wf(),
            self.has_user(u),
            self.has_room(r),
        ensures
            self.join(u, r).wf(),
    {
        self.lemma_indices();
        let s = self.join(u, r);
        let k = self.user_index(u);
        let j = self.room_index(r);
        lemma_with(self.users[k].rooms, r);
        lemma_with(self.rooms[j].members, u);
        assert forall|i: int, q: int| 0 <= i < s.users.len() && 0 <= q < s.rooms.len() implies
            (#[trigger] s.users[i]).rooms.contains((#[trigger] s.rooms[q]).id)
                <==> s.rooms[q].members.contains(s.users[i].id) by {
            assert(self.users[i].rooms.contains(self.rooms[q].id) <==> self.rooms[q].members.contains(
                self.users[i].id,
            ));
        }
        assert forall|i: int, x: RoomId| 0 <= i < s.users.len() && #[trigger] s.users[i].rooms.contains(x)
            implies s.has_room(x) by {
            if x != r || i != k {
                assert(self.users[i].rooms.contains(x));
                let q = choose|q: int| 0 <= q < self.rooms.len() && self.rooms[q].id == x;
                assert(s.rooms[q].id == x);
            } else {
                assert(s.rooms[j].id == x);
            }
        }
        assert forall|q: int, v: UserId| 0 <= q < s.rooms.len() && #[trigger] s.rooms[q].members.contains(v)
            implies s.has_user(v) by {
            if v != u || q != j {
                assert(self.rooms[q].members.contains(v));
                let i = choose|i: int| 0 <= i < self.users.len() && self.users[i].id == v;
                assert(s.users[i].id == v);
            } else {
                assert(s.users[k].id == v);
            }
        }
        assert forall|i: int| 0 <= i < s.users.len() implies (#[trigger] s.users[i]).rooms.no_duplicates() by {
            if i != k {
                assert(s.users[i] == self.users[i]);
            }
        }
        assert forall|q: int| 0 <= q < s.rooms.len() implies (#[trigger] s.rooms[q]).members.no_duplicates() by {
            if q != j {
                assert(s.rooms[q] == self.rooms[q]);
            }
        }
    }

    /// Leaving a room keeps the invariant.
    #[verifier::spinoff_prover]
    #[verifier::rlimit(30)]
    pub proof fn lemma_part_wf(self, u: UserId, r: RoomId)
        requires
            self.wf(),
            self.has_user(u),
            self.has_room(r),
        ensures
            self.part(u, r).wf(),
    {
        self.lemma_indices();
        let s = self.part(u, r);
        let k = self.user_index(u);
        let j = self.room_index(r);
        lemma_without(self.users[k].rooms, r);
        lemma_without(self.rooms[j].members, u);
        assert forall|i: int, q: int| 0 <= i < s.users.len() && 0 <= q < s.rooms.len() implies
            (#[trigger] s.users[i]).rooms.contains((#[trigger] s.rooms[q]).id)
                <==> s.rooms[q].members.contains(s.users[i].id) by {
            assert(self.users[i].rooms.contains(self.rooms[q].id) <==> self.rooms[q].members.contains(
                self.users[i].id,
            ));
        }
        assert forall|i: int, x: RoomId| 0 <= i < s.users.len() && #[trigger] s.users[i].rooms.contains(x)
            implies s.has_room(x) by {
            assert(self.users[i].rooms.contains(x));
            let q = choose|q: int| 0 <= q < self.rooms.len() && self.rooms[q].id == x;
            assert(s.rooms[q].id == x);
        }
        assert forall|q: int, v: UserId| 0 <= q < s.rooms.len() && #[trigger] s.rooms[q].members.contains(v)
            implies s.has_user(v) by {
            assert(self.rooms[q].members.contains(v));
            let i = choose|i: int| 0 <= i < self.users.len() && self.users[i].id == v;
            assert(s.users[i].id == v);
        }
        assert forall|i: int| 0 <= i < s.users.len() implies (#[trigger] s.users[i]).rooms.no_duplicates() by {
            if i != k {
                assert(s.users[i] == self.users[i]);
            }
        }
        assert forall|q: int| 0 <= q < s.rooms.len() implies (#[trigger] s.rooms[q]).members.no_duplicates() by {
            if q != j {
                assert(s.rooms[q] == self.rooms[q]);
            }
        }
    }

    /// A new user entering the world keeps the invariant.
    #[verifier::spinoff_prover]
    #[verifier::rlimit(30)]
    pub proof fn lemma_enter_world_wf(self, u: UserId, c: ClientId, name: String)
        requires
            self.wf(),
            !self.has_user(u),
            self.has_client(c),
            self.clients[self.client_index(c)].user == Some(User { id: u, name }),
        ensures
            (DbView {
                users: self.users.push(UserView { id: u, client_id: c, name, rooms: Seq::empty() }),
                ..self
            }).wf(),
    {
        let s = DbView {
            users: self.users.push(UserView { id: u, client_id: c, name, rooms: Seq::empty() }),
            ..self
        };
        let n = self.users.len() as int;
        assert(s.users[n].rooms =~= Seq::<RoomId>::empty());
        assert forall|i: int, q: int| 0 <= i < s.users.len() && 0 <= q < s.rooms.len() implies
            (#[trigger] s.users[i]).rooms.contains((#[trigger] s.rooms[q]).id)
                <==> s.rooms[q].members.contains(s.users[i].id) by {
            if i == n {
                if s.rooms[q].members.contains(u) {
                    assert(self.rooms[q].members.contains(u));
                }
            } else {
                assert(s.users[i] == self.users[i]);
            }
        }
        assert forall|i: int, x: RoomId| 0 <= i < s.users.len() && #[trigger] s.users[i].rooms.contains(x)
            implies s.has_room(x) by {
            if i < n {
                assert(s.users[i] == self.users[i]);
                assert(self.users[i].rooms.contains(x));
                let q = choose|q: int| 0 <= q < self.rooms.len() && self.rooms[q].id == x;
                assert(s.rooms[q].id == x);
            } else {
                assert(s.users[i].rooms =~= Seq::<RoomId>::empty());
                assert(!s.users[i].rooms.contains(x));
            }
        }
        assert forall|q: int, v: UserId| 0 <= q < s.rooms.len() && #[trigger] s.rooms[q].members.contains(v)
            implies s.has_user(v) by {
            assert(self.rooms[q].members.contains(v));
            let i = choose|i: int| 0 <= i < self.users.len() && self.users[i].id == v;
            assert(s.users[i].id == v);
        }
        assert forall|i: int, j: int| 0 <= i < j < s.users.len() implies s.users[i].id != s.users[j].id by {
            if j == n {
                assert(self.users[i].id != u);
            }
        }
    }

    /// A user leaving the world keeps the invariant.
    #[verifier::spinoff_prover]
    #[verifier::rlimit(30)]
    pub proof fn lemma_leave_world_wf(self, u: UserId)
        requires
            self.wf(),
            self.has_user(u),
        ensures
            self.step_leave_world(u).0.wf(),
    {
        self.lemma_indices();
        let s = self.step_leave_world(u).0;
        let k = self.user_index(u);
        let n = self.users.len() as int;
        assert forall|q: int| 0 <= q < self.rooms.len() implies (#[trigger] s.rooms[q]).members.no_duplicates()
            && (forall|v: UserId| #[trigger] s.rooms[q].members.contains(v) <==> (
            self.rooms[q].members.contains(v) && v != u)) && s.rooms[q].id == self.rooms[q].id
            && s.rooms[q].name == self.rooms[q].name by {
            lemma_without(self.rooms[q].members, u);
        }
        assert forall|i: int| 0 <= i < s.users.len() implies #[trigger] s.users[i] == self.users[
            if i < k { i } else { i + 1 }
        ] by {}
        assert forall|i: int, q: int| 0 <= i < s.users.len() && 0 <= q < s.rooms.len() implies
            (#[trigger] s.users[i]).rooms.contains((#[trigger] s.rooms[q]).id)
                <==> s.rooms[q].members.contains(s.users[i].id) by {
            let oi = if i < k { i } else { i + 1 };
            assert(s.users[i] == self.users[oi]);
            assert(self.users[oi].id != u);
            assert(self.users[oi].rooms.contains(self.rooms[q].id) <==> self.rooms[q].members.contains(
                self.users[oi].id,
            ));
        }
        assert forall|i: int, x: RoomId| 0 <= i < s.users.len() && #[trigger] s.users[i].rooms.contains(x)
            implies s.has_room(x) by {
            let oi = if i < k { i } else { i + 1 };
            assert(s.users[i] == self.users[oi]);
            assert(self.users[oi].rooms.contains(x));
            let q = choose|q: int| 0 <= q < self.rooms.len() && self.rooms[q].id == x;
            assert(s.rooms[q].id == x);
        }
        assert forall|q: int, v: UserId| 0 <= q < s.rooms.len() && #[trigger] s.rooms[q].members.contains(v)
            implies s.has_user(v) by {
            assert(self.rooms[q].members.contains(v) && v != u);
            let i = choose|i: int| 0 <= i < self.users.len() && self.users[i].id == v;
            assert(i != k);
            let si = if i < k { i } else { i - 1 };
            assert(s.users[si] == self.users[i]);
        }
        assert forall|i: int| 0 <= i < s.users.len() implies (#[trigger] s.users[i]).rooms.no_duplicates() by {
            let oi = if i < k { i } else { i + 1 };
            assert(s.users[i] == self.users[oi]);
        }
        assert forall|i: int, j: int| 0 <= i < j < s.users.len() implies s.users[i].id != s.users[j].id by {
            let oi = if i < k { i } else { i + 1 };
            let oj = if j < k { j } else { j + 1 };
            assert(s.users[i] == self.users[oi]);
            assert(s.users[j] == self.users[oj]);
        }
        assert forall|i: int, j: int| 0 <= i < j < s.rooms.len() implies s.rooms[i].id != s.rooms[j].id
            && s.rooms[i].name@ != s.rooms[j].name@ by {
            assert(s.rooms[i].id == self.rooms[i].id && s.rooms[i].name == self.rooms[i].name);
            assert(s.rooms[j].id == self.rooms[j].id && s.rooms[j].name == self.rooms[j].name);
        }
    }
}

impl DbView {
    /// A user bound to connection `c` that is world-present has a record
    /// that names `c`, under the bound name.
    pub proof fn lemma_bound_present(self, c: ClientId)
        requires
            self.wf(),
            self.bound(c) is Some,
            self.has_user(self.bound(c)->0.id),
        ensures
            self.users[self.user_index(self.bound(c)->0.id)].client_id == c,
            self.user_record(self.bound(c)->0.id) == self.bound(c)->0,
    {
        self.lemma_indices();
        let b = self.bound(c)->0;
        let i = self.client_index(c);
        let k = self.user_index(b.id);
        let uk = self.users[k];
        assert(self.binds(uk.client_id, User { id: uk.id, name: uk.name }));
        let q = choose|q: int|
            0 <= q < self.clients.len() && #[trigger] self.clients[q].id == uk.client_id && self.clients[q].user
                == Some(User { id: uk.id, name: uk.name });
        if q != i {
            if q < i {
                assert(self.clients[q].user->0.id != self.clients[i].user->0.id);
            } else {
                assert(self.clients[i].user->0.id != self.clients[q].user->0.id);
            }
        }
    }

    /// Accepting a fresh connection keeps the invariant.
    pub proof fn lemma_accept_wf(self, c: ClientId)
        requires
            self.wf(),
        ensures
            self.step_accept(c) matches Some((t, _)) ==> t.wf(),
    {
        if !self.has_client(c) {
            let t = DbView { clients: self.clients.push(Client { id: c, user: None }), ..self };
            assert(self.step_accept(c) matches Some((s, _)) && s == t);
            let n = self.clients.len() as int;
            assert forall|a: int, b: int| 0 <= a < b < t.clients.len() implies t.clients[a].id != t.clients[b].id by {
                assert(t.clients[a] == self.clients[a]);
                if b == n {
                    assert(self.clients[a].id != c);
                } else {
                    assert(t.clients[b] == self.clients[b]);
                }
            }
            assert forall|a: int, b: int|
                0 <= a < b < t.clients.len() && t.clients[a].user is Some && t.clients[b].user is Some implies t.clients[a].user->0.id
                    != t.clients[b].user->0.id by {
                assert(t.clients[a] == self.clients[a]);
                assert(t.clients[b] == self.clients[b]);
            }
            assert forall|i: int| 0 <= i < t.users.len() implies t.binds(
                (#[trigger] t.users[i]).client_id,
                User { id: t.users[i].id, name: t.users[i].name },
            ) by {
                let u = self.users[i];
                assert(self.binds(u.client_id, User { id: u.id, name: u.name }));
                let q = choose|q: int|
                    0 <= q < self.clients.len() && #[trigger] self.clients[q].id == u.client_id && self.clients[q].user
                        == Some(User { id: u.id, name: u.name });
                assert(t.clients[q] == self.clients[q]);
            }
            assert(t.users == self.users && t.rooms == self.rooms);
        }
    }

    /// Connect keeps the invariant.
    pub proof fn lemma_connect_wf(self, c: ClientId, name: String, u: UserId)
        requires
            self.wf(),
        ensures
            self.step_connect(c, name, u).0.wf(),
    {
        if self.has_client(c) && self.clients[self.client_index(c)].user is None && !self.id_taken(u) {
            let t = self.step_connect(c, name, u).0;
            let i = self.client_index(c);
            assert(self.clients[i].id == c);
            assert(t.users == self.users);
            assert(t.rooms == self.rooms);
            assert forall|a: int, b: int| 0 <= a < b < t.clients.len() implies t.clients[a].id != t.clients[b].id by {
                assert(t.clients[a].id == self.clients[a].id);
                assert(t.clients[b].id == self.clients[b].id);
            }
            assert forall|a: int, b: int|
                0 <= a < b < t.clients.len() && t.clients[a].user is Some && t.clients[b].user is Some implies t.clients[a].user->0.id
                    != t.clients[b].user->0.id by {
                if a == i {
                    assert(t.clients[b] == self.clients[b]);
                    assert(!(self.clients[b].user is Some && self.clients[b].user->0.id == u));
                } else if b == i {
                    assert(t.clients[a] == self.clients[a]);
                    assert(!(self.clients[a].user is Some && self.clients[a].user->0.id == u));
                } else {
                    assert(t.clients[a] == self.clients[a]);
                    assert(t.clients[b] == self.clients[b]);
                }
            }
            assert forall|j: int| 0 <= j < t.users.len() implies t.binds(
                (#[trigger] t.users[j]).client_id,
                User { id: t.users[j].id, name: t.users[j].name },
            ) by {
                let v = self.users[j];
                assert(self.binds(v.client_id, User { id: v.id, name: v.name }));
                let q = choose|q: int|
                    0 <= q < self.clients.len() && #[trigger] self.clients[q].id == v.client_id && self.clients[q].user
                        == Some(User { id: v.id, name: v.name });
                assert(q != i);
                assert(t.clients[q] == self.clients[q]);
            }
            assert forall|x: UserId| #[trigger] t.has_user(x) == self.has_user(x) by {}
            assert forall|x: RoomId| #[trigger] t.has_room(x) == self.has_room(x) by {}
        }
    }

    /// Shutdown keeps the invariant.
    pub proof fn lemma_shutdown_wf(self, c: ClientId)
        requires
            self.wf(),
        ensures
            self.step_shutdown(c).0.wf(),
    {
        self.lemma_indices();
        if self.has_client(c) {
            let i = self.client_index(c);
            let leaves = self.clients[i].user is Some && self.has_user(self.clients[i].user->0.id)
                && self.users[self.user_index(self.clients[i].user->0.id)].client_id == c;
            let mid = if leaves {
                self.lemma_leave_world_wf(self.clients[i].user->0.id);
                self.step_leave_world(self.clients[i].user->0.id).0
            } else {
                self
            };
            if self.clients[i].user is Some && self.has_user(self.clients[i].user->0.id) {
                assert(self.bound(c) == self.clients[i].user);
                self.lemma_bound_present(c);
            }
            assert(mid.wf());
            assert(mid.clients == self.clients);
            mid.lemma_indices();
            // No remaining user is connected through `c`.
            assert forall|j: int| 0 <= j < mid.users.len() implies (#[trigger] mid.users[j]).client_id != c by {
                let v = mid.users[j];
                if v.client_id == c {
                    assert(mid.binds(v.client_id, User { id: v.id, name: v.name }));
                    let q = choose|q: int|
                        0 <= q < mid.clients.len() && #[trigger] mid.clients[q].id == v.client_id
                            && mid.clients[q].user == Some(User { id: v.id, name: v.name });
                    assert(q == i);
                    assert(mid.has_user(v.id));
                    if leaves {
                        let b = self.clients[i].user->0;
                        let k = self.user_index(b.id);
                        let oj = if j < k { j } else { j + 1 };
                        assert(mid.users[j] == self.users[oj]);
                        assert(self.users[k].id == b.id);
                    } else {
                        assert(self.has_user(v.id));
                    }
                }
            }
            let t = self.step_shutdown(c).0;
            assert(t == DbView { clients: mid.clients.remove(i), ..mid });
            assert forall|a: int, b: int| 0 <= a < b < t.clients.len() implies t.clients[a].id != t.clients[b].id by {
                let oa = if a < i { a } else { a + 1 };
                let ob = if b < i { b } else { b + 1 };
                assert(t.clients[a] == mid.clients[oa]);
                assert(t.clients[b] == mid.clients[ob]);
            }
            assert forall|a: int, b: int|
                0 <= a < b < t.clients.len() && t.clients[a].user is Some && t.clients[b].user is Some implies t.clients[a].user->0.id
                    != t.clients[b].user->0.id by {
                let oa = if a < i { a } else { a + 1 };
                let ob = if b < i { b } else { b + 1 };
                assert(t.clients[a] == mid.clients[oa]);
                assert(t.clients[b] == mid.clients[ob]);
            }
            assert forall|j: int| 0 <= j < t.users.len() implies t.binds(
                (#[trigger] t.users[j]).client_id,
                User { id: t.users[j].id, name: t.users[j].name },
            ) by {
                let v = mid.users[j];
                assert(v.client_id != c);
                assert(mid.binds(v.client_id, User { id: v.id, name: v.name }));
                let q = choose|q: int|
                    0 <= q < mid.clients.len() && #[trigger] mid.clients[q].id == v.client_id && mid.clients[q].user
                        == Some(User { id: v.id, name: v.name });
                assert(q != i);
                let nq = if q < i { q } else { q - 1 };
                assert(t.clients[nq] == mid.clients[q]);
            }
        }
    }
}

} // verus!
