//! The session's records: connections, world-present users and rooms.

use vstd::prelude::*;

use crate::ids::ClientId;
use crate::ids::RoomId;
use crate::ids::UserId;

verus! {

/// `s` with the first occurrence of `x` taken out, if there is one.
pub open spec fn without<T>(s: Seq<T>, x: T) -> Seq<T> {
    s.remove_value(x)
}

/// `s` with `x` added at the end, unless it holds `x` already.
pub open spec fn with<T>(s: Seq<T>, x: T) -> Seq<T> {
    if s.contains(x) {
        s
    } else {
        s.push(x)
    }
}

/// On a sequence without repeats, [`without`] takes exactly `x` out and
/// leaves no repeats.
pub proof fn lemma_without<T>(s: Seq<T>, x: T)
    requires
        s.no_duplicates(),
    ensures
        without(s, x).no_duplicates(),
        forall|y: T| #[trigger] without(s, x).contains(y) <==> (s.contains(y) && y != x),
{
    s.index_of_first_ensures(x);
    match s.index_of_first(x) {
        Some(i) => {
            let t = s.remove(i);
            assert(t == without(s, x));
            assert forall|y: T| #[trigger] t.contains(y) <==> (s.contains(y) && y != x) by {
                if t.contains(y) {
                    let k = choose|k: int| 0 <= k < t.len() && t[k] == y;
                    if k < i {
                        assert(s[k] == y);
                    } else {
                        assert(s[k + 1] == y);
                    }
                }
                if s.contains(y) && y != x {
                    let k = choose|k: int| 0 <= k < s.len() && s[k] == y;
                    if k < i {
                        assert(t[k] == y);
                    } else {
                        assert(t[k - 1] == y);
                    }
                }
            }
            assert forall|a: int, b: int| 0 <= a < t.len() && 0 <= b < t.len() && a != b implies t[a]
                != t[b] by {
                let sa = if a < i { a } else { a + 1 };
                let sb = if b < i { b } else { b + 1 };
                assert(t[a] == s[sa]);
                assert(t[b] == s[sb]);
            }
        },
        None => {},
    }
}

/// On a sequence without repeats, [`with`] adds exactly `x` and leaves no
/// repeats.
pub proof fn lemma_with<T>(s: Seq<T>, x: T)
    requires
        s.no_duplicates(),
    ensures
        with(s, x).no_duplicates(),
        forall|y: T| #[trigger] with(s, x).contains(y) <==> (s.contains(y) || y == x),
{
    if !s.contains(x) {
        let t = s.push(x);
        assert forall|y: T| #[trigger] t.contains(y) <==> (s.contains(y) || y == x) by {
            if t.contains(y) {
                let k = choose|k: int| 0 <= k < t.len() && t[k] == y;
                if k < s.len() {
                    assert(s[k] == y);
                }
            }
            if s.contains(y) {
                let k = choose|k: int| 0 <= k < s.len() && s[k] == y;
                assert(t[k] == y);
            }
            if y == x {
                assert(t[s.len() as int] == y);
            }
        }
    }
}

/// The index of the first occurrence of `x` in `s`, if there is one.
fn room_position(s: &Vec<RoomId>, x: RoomId) -> (r: Option<usize>)
    ensures
        match r {
            Some(i) => i < s@.len() && s@.index_of_first(x) == Some(i as int),
            None => s@.index_of_first(x) is None,
        },
        r is Some <==> s@.contains(x),
{
    proof {
        s@.index_of_first_ensures(x);
    }
    let mut i: usize = 0;
    while i < s.len()
        invariant
            0 <= i <= s@.len(),
            forall|j: int| 0 <= j < i ==> s@[j] != x,
            match s@.index_of_first(x) {
                Some(index) => {
                    &&& s@.contains(x)
                    &&& 0 <= index < s@.len()
                    &&& s@[index] == x
                    &&& forall|j: int| 0 <= j < index < s@.len() ==> s@[j] != x
                },
                None => !s@.contains(x),
            },
        decreases s@.len() - i,
    {
        if s[i] == x {
            return Some(i);
        }
        i += 1;
    }
    None
}

/// The index of the first occurrence of `x` in `s`, if there is one.
fn user_position(s: &Vec<UserId>, x: UserId) -> (r: Option<usize>)
    ensures
        match r {
            Some(i) => i < s@.len() && s@.index_of_first(x) == Some(i as int),
            None => s@.index_of_first(x) is None,
        },
        r is Some <==> s@.contains(x),
{
    proof {
        s@.index_of_first_ensures(x);
    }
    let mut i: usize = 0;
    while i < s.len()
        invariant
            0 <= i <= s@.len(),
            forall|j: int| 0 <= j < i ==> s@[j] != x,
            match s@.index_of_first(x) {
                Some(index) => {
                    &&& s@.contains(x)
                    &&& 0 <= index < s@.len()
                    &&& s@[index] == x
                    &&& forall|j: int| 0 <= j < index < s@.len() ==> s@[j] != x
                },
                None => !s@.contains(x),
            },
        decreases s@.len() - i,
    {
        if s[i] == x {
            return Some(i);
        }
        i += 1;
    }
    None
}

/// A connection: its id and the user bound to it, if any.
#[derive(Clone, PartialEq, Eq, Debug)]
pub struct Client {
    pub id: ClientId,
    pub user: Option<crate::protocol::User>,
}

impl Client {
    /// A connection with no user bound yet.
    pub fn new(id: ClientId) -> (r: Self)
        ensures
            r.id == id,
            r.user is None,
    {
        Client { id, user: None }
    }

    /// Binds the user `id` named `name` to this connection.
    pub fn make_user(&mut self, id: UserId, name: String)
        ensures
            final(self).id == old(self).id,
            final(self).user == Some(crate::protocol::User { id, name }),
    {
        self.user = Some(crate::protocol::User { id, name });
    }
}

/// What a world-present user is, to the session.
pub struct UserView {
    pub id: UserId,
    pub client_id: ClientId,
    pub name: String,
    pub rooms: Seq<RoomId>,
}

/// A world-present user: its connection, its name and the rooms it has joined.
#[derive(Clone, PartialEq, Eq, Debug)]
pub struct User {
    pub id: UserId,
    pub client_id: ClientId,
    pub name: String,
    pub room_ids: Vec<RoomId>,
}

impl View for User {
    type V = UserView;

    open spec fn view(&self) -> UserView {
        UserView { id: self.id, client_id: self.client_id, name: self.name, rooms: self.room_ids@ }
    }
}

impl User {
    /// A user of `client_id`, named `name`, in no room, with a new random id.
    pub fn new(client_id: ClientId, name: String) -> (r: Self)
        ensures
            r.client_id == client_id,
            r.name == name,
            r@.rooms == Seq::<RoomId>::empty(),
    {
        User { id: UserId::new(), client_id, name, room_ids: Vec::new() }
    }

    /// The rooms this user has joined, in the order it joined them.
    pub fn room_ids(&self) -> (r: &Vec<RoomId>)
        ensures
            r@ == self@.rooms,
    {
        &self.room_ids
    }

    /// Whether this user has joined `room_id`.
    pub fn is_in(&self, room_id: RoomId) -> (r: bool)
        ensures
            r == self@.rooms.contains(room_id),
    {
        room_position(&self.room_ids, room_id).is_some()
    }

    /// Joins `room_id`; joining a room twice keeps one entry.
    pub fn enter(&mut self, room_id: RoomId)
        ensures
            final(self)@ == (UserView { rooms: with(old(self)@.rooms, room_id), ..old(self)@ }),
    {
        if !self.is_in(room_id) {
            self.room_ids.push(room_id);
        }
    }

    /// Leaves `room_id`, if it was joined.
    pub fn leave(&mut self, room_id: RoomId)
        ensures
            final(self)@ == (UserView { rooms: without(old(self)@.rooms, room_id), ..old(self)@ }),
    {
        proof {
            self.room_ids@.index_of_first_ensures(room_id);
        }
        let ghost before = self.room_ids@;
        if let Some(i) = room_position(&self.room_ids, room_id) {
            self.room_ids.remove(i);
            assert(before.remove_value(room_id) == before.remove(i as int));
            assert(self.room_ids@ =~= before.remove(i as int));
        }
    }
}

/// What a room is, to the session.
pub struct RoomView {
    pub id: RoomId,
    pub name: String,
    pub members: Seq<UserId>,
}

/// A room: its id, its name and its members.
#[derive(Clone, PartialEq, Eq, Debug)]
pub struct Room {
    pub id: RoomId,
    pub name: String,
    pub user_ids: Vec<UserId>,
}

impl View for Room {
    type V = RoomView;

    open spec fn view(&self) -> RoomView {
        RoomView { id: self.id, name: self.name, members: self.user_ids@ }
    }
}

impl Room {
    /// An empty room named `name`, with a new random id.
    pub fn new(name: String) -> (r: Self)
        ensures
            r.name == name,
            r@.members == Seq::<UserId>::empty(),
    {
        Room { id: RoomId::new(), name, user_ids: Vec::new() }
    }

    /// The members of this room, in the order they entered.
    pub fn user_ids(&self) -> (r: &Vec<UserId>)
        ensures
            r@ == self@.members,
    {
        &self.user_ids
    }

    /// Whether `user_id` is a member of this room.
    pub fn has(&self, user_id: UserId) -> (r: bool)
        ensures
            r == self@.members.contains(user_id),
    {
        user_position(&self.user_ids, user_id).is_some()
    }

    /// Adds `user_id` to the members; entering twice keeps one entry.
    pub fn enter(&mut self, user_id: UserId)
        ensures
            final(self)@ == (RoomView { members: with(old(self)@.members, user_id), ..old(self)@ }),
    {
        if !self.has(user_id) {
            self.user_ids.push(user_id);
        }
    }

    /// Takes `user_id` out of the members, if it was one.
    pub fn leave(&mut self, user_id: UserId)
        ensures
            final(self)@ == (RoomView { members: without(old(self)@.members, user_id), ..old(self)@ }),
    {
        proof {
            self.user_ids@.index_of_first_ensures(user_id);
        }
        let ghost before = self.user_ids@;
        if let Some(i) = user_position(&self.user_ids, user_id) {
            self.user_ids.remove(i);
            assert(before.remove_value(user_id) == before.remove(i as int));
            assert(self.user_ids@ =~= before.remove(i as int));
        }
    }
}

} // verus!
