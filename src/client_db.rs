//! A client's record of what it has seen: the last events of the world and
//! of each room it is in.

use vstd::prelude::*;

use crate::protocol::Channel;
use crate::protocol::Event;
use crate::protocol::EventType;
use crate::protocol::Message;
use crate::protocol::Room;
use crate::protocol::User;
use crate::ring::Ring;
use crate::ring::DEFAULT_CAP;

verus! {

/// An event as a channel's log keeps it.
#[derive(Clone, PartialEq, Eq, Debug)]
pub enum ChannelEvent {
    Enter { user: User },
    Leave { user: User },
    Post { user: User, message: Message },
}

/// A channel's log.
pub type Events = Ring<ChannelEvent, DEFAULT_CAP>;

/// Whether `e` is `user` leaving.
pub open spec fn leaves(e: ChannelEvent, user: User) -> bool {
    e matches ChannelEvent::Leave { user: l } && l.id == user.id && l.name@ == user.name@
}

/// The channel of `event`, and the event as its log keeps it.
pub open spec fn split_event(event: Event<User, Room>) -> (Channel<Room>, ChannelEvent) {
    (
        event.channel,
        match event.event_type {
            EventType::Enter => ChannelEvent::Enter { user: event.user },
            EventType::Leave => ChannelEvent::Leave { user: event.user },
            EventType::Post { message } => ChannelEvent::Post { user: event.user, message },
        },
    )
}

/// `log` after `e` is pushed on it.
pub open spec fn log_push(log: Seq<ChannelEvent>, e: ChannelEvent) -> Seq<ChannelEvent> {
    if log.len() == DEFAULT_CAP {
        log.drop_first().push(e)
    } else {
        log.push(e)
    }
}

impl ChannelEvent {
    /// Whether this is `user` leaving.
    pub fn is_leaving(&self, user: &User) -> (r: bool)
        ensures
            r == leaves(*self, *user),
    {
        match self {
            ChannelEvent::Leave { user: leaving } => leaving.id == user.id && leaving.name == user.name,
            _ => false,
        }
    }

    /// The channel of `event`, and the event as its log keeps it.
    pub fn from(event: Event<User, Room>) -> (r: (Channel<Room>, Self))
        ensures
            r == split_event(event),
    {
        let channel = event.channel;
        let user = event.user;
        let e = match event.event_type {
            EventType::Enter => ChannelEvent::Enter { user },
            EventType::Leave => ChannelEvent::Leave { user },
            EventType::Post { message } => ChannelEvent::Post { user, message },
        };
        (channel, e)
    }
}

/// What a client has seen.
pub struct DbView {
    pub user: User,
    pub world: Seq<ChannelEvent>,
    pub rooms: Seq<(Room, Seq<ChannelEvent>)>,
}

impl DbView {
    pub open spec fn has_room(self, id: crate::ids::RoomId) -> bool {
        exists|i: int| 0 <= i < self.rooms.len() && self.rooms[i].0.id == id
    }

    pub open spec fn room_index(self, id: crate::ids::RoomId) -> int {
        choose|i: int| 0 <= i < self.rooms.len() && self.rooms[i].0.id == id
    }

    /// What pushing `event` does: the world's log is emptied when this
    /// client leaves the world, and a room's log is dropped when it leaves
    /// the room; otherwise the event goes on its channel's log (a room seen
    /// for the first time gets a log).
    pub open spec fn push(self, event: Event<User, Room>) -> DbView {
        let (channel, e) = split_event(event);
        match channel {
            Channel::World => DbView {
                world: log_push(
                    if leaves(e, self.user) {
                        Seq::empty()
                    } else {
                        self.world
                    },
                    e,
                ),
                ..self
            },
            Channel::Room(room) => if leaves(e, self.user) {
                if self.has_room(room.id) {
                    DbView { rooms: self.rooms.remove(self.room_index(room.id)), ..self }
                } else {
                    self
                }
            } else if self.has_room(room.id) {
                let i = self.room_index(room.id);
                DbView { rooms: self.rooms.update(i, (self.rooms[i].0, log_push(self.rooms[i].1, e))), ..self }
            } else {
                DbView { rooms: self.rooms.push((room, seq![e])), ..self }
            },
        }
    }
}

/// A client's record: its user, the world's log and each room's log.
#[derive(Debug)]
pub struct Db {
    user: User,
    world: Events,
    rooms: Vec<(Room, Events)>,
}

impl View for Db {
    type V = DbView;

    closed spec fn view(&self) -> DbView {
        DbView {
            user: self.user,
            world: self.world@,
            rooms: self.rooms@.map_values(|e: (Room, Events)| (e.0, e.1@)),
        }
    }
}

impl Db {
    /// Logs well laid out, one per room.
    pub closed spec fn wf(&self) -> bool {
        &&& self.world.wf()
        &&& forall|i: int| 0 <= i < self.rooms@.len() ==> (#[trigger] self.rooms@[i]).1.wf()
        &&& forall|i: int, j: int|
            0 <= i < j < self.rooms@.len() ==> self.rooms@[i].0.id != self.rooms@[j].0.id
    }

    /// Nothing seen yet by `user`.
    pub fn new(user: User) -> (r: Self)
        ensures
            r.wf(),
            r@ == (DbView { user, world: Seq::empty(), rooms: Seq::empty() }),
    {
        let r = Db { user, world: Ring::new(), rooms: Vec::new() };
        assert(r@.rooms =~= Seq::<(Room, Seq<ChannelEvent>)>::empty());
        r
    }

    /// This client's user.
    pub fn user(&self) -> (r: &User)
        ensures
            *r == self@.user,
    {
        &self.user
    }

    /// This client's user, to change.
    pub fn user_mut(&mut self) -> (r: &mut User)
        ensures
            *r == old(self)@.user,
            final(self)@ == (DbView { user: *final(r), ..old(self)@ }),
    {
        &mut self.user
    }

    /// The world's log.
    pub fn world(&self) -> (r: &Events)
        requires
            self.wf(),
        ensures
            r@ == self@.world,
            r.wf(),
    {
        &self.world
    }

    /// Each room's log, in the order the rooms were first seen.
    pub fn rooms(&self) -> (r: &Vec<(Room, Events)>)
        requires
            self.wf(),
        ensures
            r@.map_values(|e: (Room, Events)| (e.0, e.1@)) == self@.rooms,
            forall|i: int| 0 <= i < r@.len() ==> (#[trigger] r@[i]).1.wf(),
    {
        &self.rooms
    }

    fn find_room(&self, id: crate::ids::RoomId) -> (r: Option<usize>)
        requires
            self.wf(),
        ensures
            match r {
                Some(i) => self@.has_room(id) && i == self@.room_index(id),
                None => !self@.has_room(id),
            },
    {
        let mut i: usize = 0;
        while i < self.rooms.len()
            invariant
                self.wf(),
                0 <= i <= self.rooms@.len(),
                forall|j: int| 0 <= j < i ==> self.rooms@[j].0.id != id,
            decreases self.rooms@.len() - i,
        {
            if self.rooms[i].0.id == id {
                proof {
                    assert(self@.rooms[i as int].0.id == id);
                    let j = self@.room_index(id);
                    assert(self@.rooms[j].0.id == id);
                }
                return Some(i);
            }
            i += 1;
        }
        None
    }

    /// Records `event` on its channel's log (see [`DbView::push`]).
    pub fn push(&mut self, event: Event<User, Room>)
        requires
            old(self).wf(),
        ensures
            final(self).wf(),
            final(self)@ == old(self)@.push(event),
    {
        let (channel, e) = ChannelEvent::from(event);
        match channel {
            Channel::World => self.push_world(e),
            Channel::Room(room) => self.push_room(room, e),
        }
    }

    fn push_world(&mut self, e: ChannelEvent)
        requires
            old(self).wf(),
        ensures
            final(self).wf(),
            final(self)@ == (DbView {
                world: log_push(
                    if leaves(e, old(self)@.user) {
                        Seq::empty()
                    } else {
                        old(self)@.world
                    },
                    e,
                ),
                ..old(self)@
            }),
    {
        if e.is_leaving(&self.user) {
            self.world.clear();
        }
        self.world.push(e);
        assert(self@.rooms =~= old(self)@.rooms);
    }

    #[verifier::spinoff_prover]
    #[verifier::rlimit(30)]
    fn push_room(&mut self, room: Room, e: ChannelEvent)
        requires
            old(self).wf(),
        ensures
            final(self).wf(),
            final(self)@ == old(self)@.push(
                Event {
                    channel: Channel::Room(room),
                    user: match e {
                        ChannelEvent::Enter { user } => user,
                        ChannelEvent::Leave { user } => user,
                        ChannelEvent::Post { user, .. } => user,
                    },
                    event_type: match e {
                        ChannelEvent::Enter { .. } => EventType::Enter,
                        ChannelEvent::Leave { .. } => EventType::Leave,
                        ChannelEvent::Post { message, .. } => EventType::Post { message },
                    },
                },
            ),
    {
        let ghost before = self@;
        let leaving = e.is_leaving(&self.user);
        match self.find_room(room.id) {
            Some(i) => {
                if leaving {
                    self.rooms.remove(i);
                    proof {
                        assert(self@.rooms =~= before.rooms.remove(i as int));
                        assert forall|a: int, b: int| 0 <= a < b < self.rooms@.len() implies self.rooms@[a].0.id
                            != self.rooms@[b].0.id by {
                            let oa = if a < i { a } else { a + 1 };
                            let ob = if b < i { b } else { b + 1 };
                            assert(self.rooms@[a] == old(self).rooms@[oa]);
                            assert(self.rooms@[b] == old(self).rooms@[ob]);
                        }
                        assert forall|a: int| 0 <= a < self.rooms@.len() implies (#[trigger] self.rooms@[a]).1.wf() by {
                            let oa = if a < i { a } else { a + 1 };
                            assert(self.rooms@[a] == old(self).rooms@[oa]);
                        }
                    }
                } else {
                    self.rooms[i].1.push(e);
                    proof {
                        assert(self@.rooms =~= before.rooms.update(
                            i as int,
                            (before.rooms[i as int].0, log_push(before.rooms[i as int].1, e)),
                        ));
                    }
                }
            },
            None => {
                if !leaving {
                    let mut log: Events = Ring::new();
                    log.push(e);
                    self.rooms.push((room, log));
                    proof {
                        assert(self@.rooms =~= before.rooms.push((room, seq![e])));
                        assert forall|a: int, b: int| 0 <= a < b < self.rooms@.len() implies self.rooms@[a].0.id
                            != self.rooms@[b].0.id by {
                            if b == before.rooms.len() {
                                assert(self.rooms@[a] == old(self).rooms@[a]);
                                assert(before.rooms[a].0.id != room.id);
                            }
                        }
                    }
                }
            },
        }
    }
}

} // verus!
