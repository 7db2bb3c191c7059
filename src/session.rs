//! The session state and its request handlers. Each handler changes the
//! state and returns what to send to whom, exactly as the matching step of
//! [`DbView`] says; sending is left to the caller.

use vstd::prelude::*;

use crate::db::Client;
use crate::db::Room as RoomRecord;
use crate::db::User as UserRecord;
use crate::ids::ClientId;
use crate::ids::RoomId;
use crate::ids::UserId;
use crate::model::first_room_named;
use crate::model::first_user_named;
use crate::model::reply;
use crate::model::room_audience;
use crate::model::world_audience;
use crate::model::DbView;
use crate::model::DispatchView;
use crate::model::ServerToClient;
use crate::protocol::Channel;
use crate::protocol::Event;
use crate::protocol::EventType;
use crate::protocol::Request;
use crate::protocol::Response;
use crate::protocol::Room;
use crate::protocol::User;

verus! {

/// One message and the connections it goes to. The caller hands it to
/// each recipient's queue independently.
#[derive(Clone, PartialEq, Eq, Debug)]
pub struct Dispatch {
    pub to: Vec<ClientId>,
    pub message: ServerToClient,
}

impl View for Dispatch {
    type V = DispatchView;

    open spec fn view(&self) -> DispatchView {
        DispatchView { to: self.to@, message: self.message }
    }
}

/// The views of a sequence of dispatches.
pub open spec fn dispatches(v: Seq<Dispatch>) -> Seq<DispatchView> {
    v.map_values(|d: Dispatch| d@)
}

fn reply_to(c: ClientId, response: Response) -> (d: Dispatch)
    ensures
        d@ == reply(c, response),
{
    let mut to: Vec<ClientId> = Vec::new();
    to.push(c);
    proof {
        assert(to@ =~= seq![c]);
    }
    Dispatch { to, message: ServerToClient::Response(response) }
}

fn only(d: Dispatch) -> (v: Vec<Dispatch>)
    ensures
        dispatches(v@) == seq![d@],
{
    let ghost dv = d@;
    let mut v: Vec<Dispatch> = Vec::new();
    v.push(d);
    proof {
        assert(dispatches(v@) =~= seq![dv]);
    }
    v
}

fn refusal(c: ClientId) -> (v: Vec<Dispatch>)
    ensures
        dispatches(v@) == seq![reply(c, Response::Error)],
{
    only(reply_to(c, Response::Error))
}

fn copy_user(u: &User) -> (r: User)
    ensures
        r == *u,
{
    User { id: u.id, name: u.name.clone() }
}

/// The session's state: every connection, every world-present user and
/// every room. Only the session's handlers change it.
pub struct Db {
    clients: Vec<Client>,
    users: Vec<UserRecord>,
    rooms: Vec<RoomRecord>,
}

impl View for Db {
    type V = DbView;

    closed spec fn view(&self) -> DbView {
        DbView {
            clients: self.clients@,
            users: self.users@.map_values(|u: UserRecord| u@),
            rooms: self.rooms@.map_values(|r: RoomRecord| r@),
        }
    }
}

impl Db {
    /// The state's invariant (see [`DbView::wf`]).
    pub open spec fn wf(&self) -> bool {
        self@.wf()
    }

    /// An empty session.
    pub fn new() -> (r: Self)
        ensures
            r@ == DbView::empty(),
            r.wf(),
    {
        let r = Db { clients: Vec::new(), users: Vec::new(), rooms: Vec::new() };
        proof {
            assert(r@.clients =~= Seq::<Client>::empty());
            assert(r@.users =~= Seq::<crate::db::UserView>::empty());
            assert(r@.rooms =~= Seq::<crate::db::RoomView>::empty());
        }
        r
    }

    /// The connections, in the order they were accepted.
    pub fn clients(&self) -> (r: &Vec<Client>)
        ensures
            r@ == self@.clients,
    {
        &self.clients
    }

    /// The world-present users, in the order they entered.
    pub fn users(&self) -> (r: &Vec<UserRecord>)
        ensures
            r@.map_values(|u: UserRecord| u@) == self@.users,
    {
        &self.users
    }

    /// The rooms, in the order they were created.
    pub fn rooms(&self) -> (r: &Vec<RoomRecord>)
        ensures
            r@.map_values(|r: RoomRecord| r@) == self@.rooms,
    {
        &self.rooms
    }

    fn find_client(&self, c: ClientId) -> (r: Option<usize>)
        requires
            self.wf(),
        ensures
            match r {
                Some(i) => self@.has_client(c) && i == self@.client_index(c),
                None => !self@.has_client(c),
            },
    {
        let mut i: usize = 0;
        while i < self.clients.len()
            invariant
                self.wf(),
                0 <= i <= self.clients@.len(),
                forall|j: int| 0 <= j < i ==> self.clients@[j].id != c,
            decreases self.clients@.len() - i,
        {
            if self.clients[i].id == c {
                proof {
                    assert(self@.clients[i as int].id == c);
                    let j = self@.client_index(c);
                    assert(self@.clients[j].id == c);
                }
                return Some(i);
            }
            i += 1;
        }
        None
    }

    /// Whether some connection is bound to the user id `u`.
    fn id_bound(&self, u: UserId) -> (r: bool)
        ensures
            r == self@.id_taken(u),
    {
        let mut i: usize = 0;
        while i < self.clients.len()
            invariant
                0 <= i <= self.clients@.len(),
                forall|j: int| 0 <= j < i ==> !(self@.clients[j].user is Some && self@.clients[j].user->0.id == u),
            decreases self.clients@.len() - i,
        {
            match &self.clients[i].user {
                Some(b) => {
                    if b.id == u {
                        assert(self@.clients[i as int].user is Some);
                        return true;
                    }
                },
                None => {},
            }
            i += 1;
        }
        false
    }

    fn find_user(&self, u: UserId) -> (r: Option<usize>)
        requires
            self.wf(),
        ensures
            match r {
                Some(k) => self@.has_user(u) && k == self@.user_index(u),
                None => !self@.has_user(u),
            },
    {
        let mut i: usize = 0;
        while i < self.users.len()
            invariant
                self.wf(),
                0 <= i <= self.users@.len(),
                forall|j: int| 0 <= j < i ==> self.users@[j].id != u,
            decreases self.users@.len() - i,
        {
            if self.users[i].id == u {
                proof {
                    assert(self@.users[i as int].id == u);
                    let j = self@.user_index(u);
                    assert(self@.users[j].id == u);
                }
                return Some(i);
            }
            i += 1;
        }
        None
    }

    fn find_room(&self, r: RoomId) -> (res: Option<usize>)
        requires
            self.wf(),
        ensures
            match res {
                Some(j) => self@.has_room(r) && j == self@.room_index(r),
                None => !self@.has_room(r),
            },
    {
        let mut i: usize = 0;
        while i < self.rooms.len()
            invariant
                self.wf(),
                0 <= i <= self.rooms@.len(),
                forall|j: int| 0 <= j < i ==> self.rooms@[j].id != r,
            decreases self.rooms@.len() - i,
        {
            if self.rooms[i].id == r {
                proof {
                    assert(self@.rooms[i as int].id == r);
                    let j = self@.room_index(r);
                    assert(self@.rooms[j].id == r);
                }
                return Some(i);
            }
            i += 1;
        }
        None
    }

    /// The first world-present user named `name`, by a scan.
    fn find_user_named(&self, name: &String) -> (r: Option<User>)
        ensures
            r == first_user_named(self@.users, name@),
    {
        let mut i: usize = 0;
        assert(self@.users.subrange(0, self@.users.len() as int) =~= self@.users);
        while i < self.users.len()
            invariant
                0 <= i <= self.users@.len(),
                first_user_named(self@.users, name@) == first_user_named(
                    self@.users.subrange(i as int, self@.users.len() as int),
                    name@,
                ),
            decreases self.users@.len() - i,
        {
            let ghost rest = self@.users.subrange(i as int, self@.users.len() as int);
            assert(rest[0] == self@.users[i as int]);
            if self.users[i].name == *name {
                return Some(User { id: self.users[i].id, name: self.users[i].name.clone() });
            }
            assert(rest.drop_first() =~= self@.users.subrange(i + 1, self@.users.len() as int));
            i += 1;
        }
        None
    }

    /// The first room named `name`, by a scan.
    fn find_room_named(&self, name: &String) -> (r: Option<Room>)
        ensures
            r == first_room_named(self@.rooms, name@),
            r is None <==> !self@.has_room_named(name@),
    {
        let mut i: usize = 0;
        assert(self@.rooms.subrange(0, self@.rooms.len() as int) =~= self@.rooms);
        while i < self.rooms.len()
            invariant
                0 <= i <= self.rooms@.len(),
                forall|j: int| 0 <= j < i ==> self@.rooms[j].name@ != name@,
                first_room_named(self@.rooms, name@) == first_room_named(
                    self@.rooms.subrange(i as int, self@.rooms.len() as int),
                    name@,
                ),
            decreases self@.rooms.len() - i,
        {
            let ghost rest = self@.rooms.subrange(i as int, self@.rooms.len() as int);
            assert(rest[0] == self@.rooms[i as int]);
            if self.rooms[i].name == *name {
                return Some(Room { id: self.rooms[i].id, name: self.rooms[i].name.clone() });
            }
            assert(rest.drop_first() =~= self@.rooms.subrange(i + 1, self@.rooms.len() as int));
            i += 1;
        }
        None
    }

    /// The connections of every world-present user: the world's audience.
    pub fn world(&self) -> (r: Vec<ClientId>)
        ensures
            r@ == world_audience(self@.users),
            self.wf() ==> r@.no_duplicates(),
    {
        let mut out: Vec<ClientId> = Vec::new();
        let mut i: usize = 0;
        while i < self.users.len()
            invariant
                0 <= i <= self.users@.len(),
                out@.len() == i,
                forall|j: int| 0 <= j < i ==> out@[j] == self@.users[j].client_id,
            decreases self.users@.len() - i,
        {
            out.push(self.users[i].client_id);
            i += 1;
        }
        assert(out@ =~= world_audience(self@.users));
        proof {
            if self.wf() {
                crate::laws::lemma_world_audience_distinct(self@);
            }
        }
        out
    }

    /// The connections of the users that have joined `room_id`, in the
    /// order the users entered the world: that room's audience. In a
    /// well-formed state these are exactly the connections of the room's
    /// members, each once, and an unknown room has an empty audience.
    pub fn room(&self, room_id: RoomId) -> (r: Vec<ClientId>)
        ensures
            r@ == room_audience(self@.users, room_id),
            self.wf() && self@.has_room(room_id) ==> forall|x: ClientId|
                #[trigger] r@.contains(x) <==> crate::laws::reaches_member(self@, room_id, x),
            self.wf() && !self@.has_room(room_id) ==> r@.len() == 0,
            self.wf() ==> r@.no_duplicates(),
    {
        let mut out: Vec<ClientId> = Vec::new();
        let mut i: usize = 0;
        while i < self.users.len()
            invariant
                0 <= i <= self.users@.len(),
                out@ == room_audience(self@.users.subrange(0, i as int), room_id),
            decreases self.users@.len() - i,
        {
            let ghost upto = self@.users.subrange(0, i + 1);
            assert(upto.drop_last() =~= self@.users.subrange(0, i as int));
            if self.users[i].is_in(room_id) {
                out.push(self.users[i].client_id);
            }
            i += 1;
        }
        assert(self@.users.subrange(0, self@.users.len() as int) =~= self@.users);
        proof {
            if self.wf() {
                crate::laws::lemma_room_audience_members(self@, room_id);
            }
        }
        out
    }

    /// The audience of a broadcast on `channel`.
    pub fn channel(&self, channel: Channel<RoomId>) -> (r: Vec<ClientId>)
        ensures
            r@ == self@.audience(channel),
    {
        match channel {
            Channel::World => self.world(),
            Channel::Room(room_id) => self.room(room_id),
        }
    }

    /// Whether `user_id` has joined `room_id`; an error where either is
    /// unknown.
    pub fn is_in(&self, user_id: UserId, room_id: RoomId) -> (r: Result<bool, ()>)
        requires
            self.wf(),
        ensures
            r is Err <==> !self@.has_user(user_id) || !self@.has_room(room_id),
            r is Ok ==> r->Ok_0 == self@.is_member(user_id, room_id),
    {
        match self.find_user(user_id) {
            Some(k) => match self.find_room(room_id) {
                Some(_) => Ok(self.users[k].is_in(room_id)),
                None => Err(()),
            },
            None => Err(()),
        }
    }

    /// GetUser: the first world-present user named `name`, to `c`.
    pub fn handle_get_user(&self, c: ClientId, name: String) -> (out: Vec<Dispatch>)
        ensures
            dispatches(out@) == seq![reply(c, Response::User(first_user_named(self@.users, name@)))],
    {
        only(reply_to(c, Response::User(self.find_user_named(&name))))
    }

    /// GetRoom: the first room named `name`, to `c`.
    pub fn handle_get_room(&self, c: ClientId, name: String) -> (out: Vec<Dispatch>)
        ensures
            dispatches(out@) == seq![reply(c, Response::Room(first_room_named(self@.rooms, name@)))],
    {
        only(reply_to(c, Response::Room(self.find_room_named(&name))))
    }

    /// Accept: registers connection `c`, unless the id is taken.
    #[verifier::spinoff_prover]
    #[verifier::rlimit(30)]
    pub fn handle_accept_with(&mut self, c: ClientId) -> (out: Option<Vec<Dispatch>>)
        requires
            old(self).wf(),
        ensures
            final(self).wf(),
            match old(self)@.step_accept(c) {
                Some((s, d)) => out matches Some(v) && final(self)@ == s && dispatches(v@) == d,
                None => out is None && final(self)@ == old(self)@,
            },
    {
        if self.find_client(c).is_some() {
            return None;
        }
        self.clients.push(Client::new(c));
        let mut to: Vec<ClientId> = Vec::new();
        to.push(c);
        proof {
            old(self)@.lemma_accept_wf(c);
            assert(to@ =~= seq![c]);
            assert(self@.clients =~= old(self)@.clients.push(Client { id: c, user: None }));
            assert(self@.users =~= old(self)@.users);
            assert(self@.rooms =~= old(self)@.rooms);
        }
        Some(only(Dispatch { to, message: ServerToClient::Accepted(c) }))
    }

    /// Connect: binds a new user `u` named `name` to connection `c`; an
    /// unknown or already bound connection gets an error.
    #[verifier::spinoff_prover]
    #[verifier::rlimit(30)]
    pub fn handle_connect(&mut self, c: ClientId, name: String, u: UserId) -> (out: Vec<Dispatch>)
        requires
            old(self).wf(),
        ensures
            final(self).wf(),
            (final(self)@, dispatches(out@)) == old(self)@.step_connect(c, name, u),
    {
        match self.find_client(c) {
            Some(i) => {
                if self.clients[i].user.is_some() || self.id_bound(u) {
                    return refusal(c);
                }
                let bound = User { id: u, name: name.clone() };
                self.clients.set(i, Client { id: c, user: Some(bound) });
                proof {
                    old(self)@.lemma_connect_wf(c, name, u);
                    assert(self@.clients =~= old(self)@.clients.update(
                        i as int,
                        Client { id: c, user: Some(User { id: u, name }) },
                    ));
                    assert(self@.users =~= old(self)@.users);
                    assert(self@.rooms =~= old(self)@.rooms);
                }
                only(reply_to(c, Response::Connected(User { id: u, name })))
            },
            None => refusal(c),
        }
    }

    /// CreateRoom: a new empty room `r` named `name`, unless a room of
    /// that name (or that id) exists, which gets an error.
    #[verifier::spinoff_prover]
    #[verifier::rlimit(30)]
    pub fn handle_create_room(&mut self, c: ClientId, name: String, r: RoomId) -> (out: Vec<
        Dispatch,
    >)
        requires
            old(self).wf(),
        ensures
            final(self).wf(),
            (final(self)@, dispatches(out@)) == old(self)@.step_create_room(c, name, r),
    {
        if self.find_room_named(&name).is_some() || self.find_room(r).is_some() {
            return refusal(c);
        }
        self.rooms.push(RoomRecord { id: r, name: name.clone(), user_ids: Vec::new() });
        proof {
            old(self)@.lemma_create_room_wf(c, name, r);
            assert(self@.rooms =~= old(self)@.rooms.push(
                crate::db::RoomView { id: r, name, members: Seq::empty() },
            ));
            assert(self@.users =~= old(self)@.users);
            assert(self@.clients =~= old(self)@.clients);
        }
        only(reply_to(c, Response::CreatedRoom(Room { id: r, name })))
    }

    /// World-present `user_id` joins `room_id`; an error where either is
    /// unknown. Joining twice changes nothing.
    pub fn enter(&mut self, user_id: UserId, room_id: RoomId) -> (r: Result<(), ()>)
        requires
            old(self).wf(),
        ensures
            final(self).wf(),
            r is Ok <==> old(self)@.has_user(user_id) && old(self)@.has_room(room_id),
            r is Ok ==> final(self)@ == old(self)@.join(user_id, room_id),
            r is Err ==> final(self)@ == old(self)@,
    {
        let j = match self.find_room(room_id) {
            Some(j) => j,
            None => return Err(()),
        };
        let k = match self.find_user(user_id) {
            Some(k) => k,
            None => return Err(()),
        };
        self.users[k].enter(room_id);
        self.rooms[j].enter(user_id);
        proof {
            let s = old(self)@.join(user_id, room_id);
            assert(self@.users =~= s.users);
            assert(self@.rooms =~= s.rooms);
            old(self)@.lemma_join_wf(user_id, room_id);
        }
        Ok(())
    }

    /// World-present `user_id` leaves `room_id`, if it had joined it; an
    /// error where either is unknown.
    pub fn leave(&mut self, user_id: UserId, room_id: RoomId) -> (r: Result<(), ()>)
        requires
            old(self).wf(),
        ensures
            final(self).wf(),
            r is Ok <==> old(self)@.has_user(user_id) && old(self)@.has_room(room_id),
            r is Ok ==> final(self)@ == old(self)@.part(user_id, room_id),
            r is Err ==> final(self)@ == old(self)@,
    {
        let j = match self.find_room(room_id) {
            Some(j) => j,
            None => return Err(()),
        };
        let k = match self.find_user(user_id) {
            Some(k) => k,
            None => return Err(()),
        };
        self.users[k].leave(room_id);
        self.rooms[j].leave(user_id);
        proof {
            let s = old(self)@.part(user_id, room_id);
            assert(self@.users =~= s.users);
            assert(self@.rooms =~= s.rooms);
            old(self)@.lemma_part_wf(user_id, room_id);
        }
        Ok(())
    }

    /// World/Enter by `u` through connection `c`.
    #[verifier::spinoff_prover]
    #[verifier::rlimit(30)]
    fn enter_world(&mut self, c: ClientId, u: UserId) -> (out: Vec<Dispatch>)
        requires
            old(self).wf(),
        ensures
            final(self).wf(),
            (final(self)@, dispatches(out@)) == old(self)@.step_event(
                c,
                Event { channel: Channel::World, user: u, event_type: EventType::Enter },
            ),
    {
        let bound = match self.find_client(c) {
            Some(i) => match &self.clients[i].user {
                Some(b) => copy_user(b),
                None => return refusal(c),
            },
            None => return refusal(c),
        };
        if bound.id != u || self.find_user(u).is_some() {
            return refusal(c);
        }
        self.users.push(
            UserRecord { id: u, client_id: c, name: bound.name.clone(), room_ids: Vec::new() },
        );
        proof {
            let nu = crate::db::UserView { id: u, client_id: c, name: bound.name, rooms: Seq::empty() };
            assert(self@.users =~= old(self)@.users.push(nu));
            assert(self@.rooms =~= old(self)@.rooms);
            assert(self@.clients =~= old(self)@.clients);
            old(self)@.lemma_enter_world_wf(u, c, bound.name);
        }
        let to = self.world();
        only(
            Dispatch {
                to,
                message: ServerToClient::Response(
                    Response::Event(
                        Event { channel: Channel::World, user: bound, event_type: EventType::Enter },
                    ),
                ),
            },
        )
    }

    /// World/Leave by the user at index `k`: its rooms first, then the world.
    #[verifier::spinoff_prover]
    #[verifier::rlimit(30)]
    fn leave_world(&mut self, k: usize) -> (out: Vec<Dispatch>)
        requires
            old(self).wf(),
            k < old(self)@.users.len(),
        ensures
            final(self).wf(),
            (final(self)@, dispatches(out@)) == old(self)@.step_leave_world(
                old(self)@.users[k as int].id,
            ),
    {
        let ghost s0 = self@;
        let uid = self.users[k].id;
        proof {
            s0.lemma_indices();
            assert(s0.users[k as int].id == uid);
            assert(s0.has_user(uid));
        }
        let who = User { id: uid, name: self.users[k].name.clone() };
        let ghost expected = s0.step_leave_world(uid).1;
        let n = self.users[k].room_ids.len();
        let mut out: Vec<Dispatch> = Vec::new();
        let mut j: usize = 0;
        while j < n
            invariant
                self@ == s0,
                s0.wf(),
                k < self.users@.len(),
                n == self.users@[k as int].room_ids@.len(),
                uid == s0.users[k as int].id,
                s0.user_index(uid) == k,
                who == s0.user_record(uid),
                expected == s0.step_leave_world(uid).1,
                j <= n,
                out@.len() == j,
                forall|q: int| 0 <= q < j ==> #[trigger] out@[q]@ == expected[q],
            decreases n - j,
        {
            let rid = self.users[k].room_ids[j];
            proof {
                assert(s0.users[k as int].rooms[j as int] == rid);
                assert(s0.users[k as int].rooms.contains(rid));
            }
            match self.find_room(rid) {
                Some(ri) => {
                    let room = Room { id: rid, name: self.rooms[ri].name.clone() };
                    let to = self.room(rid);
                    out.push(
                        Dispatch {
                            to,
                            message: ServerToClient::Response(
                                Response::Event(
                                    Event {
                                        channel: Channel::Room(room),
                                        user: copy_user(&who),
                                        event_type: EventType::Leave,
                                    },
                                ),
                            ),
                        },
                    );
                },
                None => {
                    proof {
                        assert(false);
                    }
                },
            }
            j += 1;
        }
        let to = self.world();
        out.push(
            Dispatch {
                to,
                message: ServerToClient::Response(
                    Response::Event(
                        Event { channel: Channel::World, user: who, event_type: EventType::Leave },
                    ),
                ),
            },
        );
        let ghost users0 = self.users@;
        let ghost clients0 = self.clients@;
        let mut q: usize = 0;
        while q < self.rooms.len()
            invariant
                self.rooms@.len() == s0.rooms.len(),
                self.users@ == users0,
                self.clients@ == clients0,
                forall|p: int| 0 <= p < q ==> #[trigger] self.rooms@[p]@ == crate::model::room_without(
                    s0.rooms[p],
                    uid,
                ),
                forall|p: int| q <= p < self.rooms@.len() ==> #[trigger] self.rooms@[p]@ == s0.rooms[p],
            decreases self.rooms@.len() - q,
        {
            self.rooms[q].leave(uid);
            q += 1;
        }
        self.users.remove(k);
        proof {
            let s = s0.step_leave_world(uid).0;
            assert(self@.rooms =~= s.rooms);
            assert(self@.users =~= s.users);
            assert(self@.clients =~= s.clients);
            s0.lemma_leave_world_wf(uid);
            assert(dispatches(out@) =~= expected);
        }
        out
    }

    /// An event sent by connection `c`. Every precondition is checked
    /// before anything changes; a failed one answers `c` with an error.
    /// A leaving user is still in the audience of its own Leave.
    #[verifier::spinoff_prover]
    #[verifier::rlimit(30)]
    pub fn handle_event(&mut self, c: ClientId, e: Event<UserId, RoomId>) -> (out: Vec<Dispatch>)
        requires
            old(self).wf(),
        ensures
            final(self).wf(),
            (final(self)@, dispatches(out@)) == old(self)@.step_event(c, e),
    {
        let u = e.user;
        match e.channel {
            Channel::World => match e.event_type {
                EventType::Enter => self.enter_world(c, u),
                EventType::Leave => match self.find_user(u) {
                    Some(k) => self.leave_world(k),
                    None => refusal(c),
                },
                EventType::Post { message } => match self.find_user(u) {
                    Some(k) => {
                        let who = User { id: u, name: self.users[k].name.clone() };
                        let to = self.world();
                        only(
                            Dispatch {
                                to,
                                message: ServerToClient::Response(
                                    Response::Event(
                                        Event {
                                            channel: Channel::World,
                                            user: who,
                                            event_type: EventType::Post { message },
                                        },
                                    ),
                                ),
                            },
                        )
                    },
                    None => refusal(c),
                },
            },
            Channel::Room(r) => {
                let j = match self.find_room(r) {
                    Some(j) => j,
                    None => return refusal(c),
                };
                let k = match self.find_user(u) {
                    Some(k) => k,
                    None => return refusal(c),
                };
                let room = Room { id: r, name: self.rooms[j].name.clone() };
                let who = User { id: u, name: self.users[k].name.clone() };
                match e.event_type {
                    EventType::Enter => {
                        let _ = self.enter(u, r);
                        let to = self.room(r);
                        only(
                            Dispatch {
                                to,
                                message: ServerToClient::Response(
                                    Response::Event(
                                        Event {
                                            channel: Channel::Room(room),
                                            user: who,
                                            event_type: EventType::Enter,
                                        },
                                    ),
                                ),
                            },
                        )
                    },
                    EventType::Leave => {
                        if !self.users[k].is_in(r) {
                            return refusal(c);
                        }
                        let to = self.room(r);
                        let _ = self.leave(u, r);
                        only(
                            Dispatch {
                                to,
                                message: ServerToClient::Response(
                                    Response::Event(
                                        Event {
                                            channel: Channel::Room(room),
                                            user: who,
                                            event_type: EventType::Leave,
                                        },
                                    ),
                                ),
                            },
                        )
                    },
                    EventType::Post { message } => {
                        if !self.users[k].is_in(r) {
                            return refusal(c);
                        }
                        let to = self.room(r);
                        only(
                            Dispatch {
                                to,
                                message: ServerToClient::Response(
                                    Response::Event(
                                        Event {
                                            channel: Channel::Room(room),
                                            user: who,
                                            event_type: EventType::Post { message },
                                        },
                                    ),
                                ),
                            },
                        )
                    },
                }
            },
        }
    }

    /// Shutdown of connection `c`: if its user is world-present through
    /// it, that user leaves the world (with the usual broadcasts); then the
    /// connection is dropped. An unknown connection changes nothing.
    #[verifier::spinoff_prover]
    #[verifier::rlimit(30)]
    pub fn handle_shutdown(&mut self, c: ClientId) -> (out: Vec<Dispatch>)
        requires
            old(self).wf(),
        ensures
            final(self).wf(),
            (final(self)@, dispatches(out@)) == old(self)@.step_shutdown(c),
    {
        let i = match self.find_client(c) {
            Some(i) => i,
            None => {
                let none: Vec<Dispatch> = Vec::new();
                proof {
                    assert(dispatches(none@) =~= Seq::<DispatchView>::empty());
                }
                return none;
            },
        };
        let ghost s0 = self@;
        let mut out: Vec<Dispatch> = Vec::new();
        let ghost mut left = false;
        let bound = match &self.clients[i].user {
            Some(b) => Some(b.id),
            None => None,
        };
        if let Some(b) = bound {
            if let Some(k) = self.find_user(b) {
                if self.users[k].client_id == c {
                    out = self.leave_world(k);
                    proof {
                        left = true;
                    }
                }
            }
        }
        let ghost mid = self@;
        proof {
            let expected = if s0.clients[i as int].user is Some && s0.has_user(
                s0.clients[i as int].user->0.id,
            ) && s0.users[s0.user_index(s0.clients[i as int].user->0.id)].client_id == c {
                s0.step_leave_world(s0.clients[i as int].user->0.id)
            } else {
                (s0, Seq::<DispatchView>::empty())
            };
            if !left {
                assert(dispatches(out@) =~= Seq::<DispatchView>::empty());
            }
            assert(mid == expected.0);
            assert(dispatches(out@) == expected.1);
            assert(mid.clients == s0.clients);
            assert(s0.step_shutdown(c) == (DbView { clients: mid.clients.remove(i as int), ..mid }, dispatches(out@)));
        }
        self.clients.remove(i);
        proof {
            s0.lemma_shutdown_wf(c);
            assert(self@.clients =~= mid.clients.remove(i as int));
            assert(self@.users =~= mid.users);
            assert(self@.rooms =~= mid.rooms);
            assert forall|a: int, b: int| 0 <= a < b < self@.clients.len() implies self@.clients[a].id
                != self@.clients[b].id by {
                let oa = if a < i { a } else { a + 1 };
                let ob = if b < i { b } else { b + 1 };
                assert(self@.clients[a] == mid.clients[oa]);
                assert(self@.clients[b] == mid.clients[ob]);
            }
        }
        out
    }

    /// A request from connection `c`. `u` and `r` are the ids a new user
    /// or a new room gets.
    pub fn handle_request_with(&mut self, c: ClientId, request: Request, u: UserId, r: RoomId) -> (out:
        Vec<Dispatch>)
        requires
            old(self).wf(),
        ensures
            final(self).wf(),
            (final(self)@, dispatches(out@)) == old(self)@.step_request(c, request, u, r),
    {
        match request {
            Request::GetUser(name) => self.handle_get_user(c, name),
            Request::GetRoom(name) => self.handle_get_room(c, name),
            Request::Connect(name) => self.handle_connect(c, name, u),
            Request::CreateRoom(name) => self.handle_create_room(c, name, r),
            Request::Event(e) => self.handle_event(c, e),
            Request::Disconnect => refusal(c),
            Request::Shutdown => self.handle_shutdown(c),
        }
    }

    /// A request from connection `c`; a new user or room gets a new random
    /// id.
    pub fn handle_request(&mut self, c: ClientId, request: Request) -> (out: Vec<Dispatch>)
        requires
            old(self).wf(),
        ensures
            final(self).wf(),
            exists|u: UserId, r: RoomId|
                (final(self)@, dispatches(out@)) == #[trigger] old(self)@.step_request(c, request, u, r),
    {
        let (u, r) = match &request {
            Request::Connect(_) => (UserId::new(), RoomId(0)),
            Request::CreateRoom(_) => (UserId(0), RoomId::new()),
            _ => (UserId(0), RoomId(0)),
        };
        let ghost req = request;
        let out = self.handle_request_with(c, request, u, r);
        proof {
            assert((self@, dispatches(out@)) == old(self)@.step_request(c, req, u, r));
        }
        out
    }

    /// Accept: registers a new connection under a new random id, and tells
    /// it that id. `None` where the drawn id is taken, with nothing changed.
    pub fn handle_accept(&mut self) -> (out: Option<(ClientId, Vec<Dispatch>)>)
        requires
            old(self).wf(),
        ensures
            final(self).wf(),
            match out {
                Some((c, v)) => old(self)@.step_accept(c) == Some((final(self)@, dispatches(v@))),
                None => final(self)@ == old(self)@ && old(self)@.clients.len() > 0,
            },
    {
        let c = ClientId::new();
        match self.handle_accept_with(c) {
            Some(v) => Some((c, v)),
            None => None,
        }
    }
}

} // verus!
