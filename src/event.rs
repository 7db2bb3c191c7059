//! Shorthands that build [`Event`]s.

use vstd::prelude::*;

use crate::ids::RoomId;
use crate::ids::UserId;
use crate::protocol::Channel;
use crate::protocol::Event;
use crate::protocol::EventType;
use crate::protocol::Message;

verus! {

/// The channel that an optional room names: the room, or else the world.
pub open spec fn channel_of<R>(room: Option<R>) -> Channel<R> {
    match room {
        Some(r) => Channel::Room(r),
        None => Channel::World,
    }
}

impl UserId {
    /// This user enters `channel`.
    pub fn enter(self, channel: Channel<RoomId>) -> (r: Event<UserId, RoomId>)
        ensures
            r == (Event { channel, user: self, event_type: EventType::Enter }),
    {
        Event::new(channel, self, EventType::Enter)
    }

    /// This user leaves `channel`.
    pub fn leave(self, channel: Channel<RoomId>) -> (r: Event<UserId, RoomId>)
        ensures
            r == (Event { channel, user: self, event_type: EventType::Leave }),
    {
        Event::new(channel, self, EventType::Leave)
    }

    /// This user posts `message` on `channel`.
    pub fn post(self, channel: Channel<RoomId>, message: Message) -> (r: Event<UserId, RoomId>)
        ensures
            r == (Event { channel, user: self, event_type: EventType::Post { message } }),
    {
        Event::new(channel, self, EventType::Post { message })
    }

    /// This user enters the world.
    pub fn enter_world(self) -> (r: Event<UserId, RoomId>)
        ensures
            r == (Event { channel: Channel::<RoomId>::World, user: self, event_type: EventType::Enter }),
    {
        self.enter(Channel::World)
    }

    /// This user leaves the world.
    pub fn leave_world(self) -> (r: Event<UserId, RoomId>)
        ensures
            r == (Event { channel: Channel::<RoomId>::World, user: self, event_type: EventType::Leave }),
    {
        self.leave(Channel::World)
    }

    /// This user posts `message` to the world.
    pub fn post_world(self, message: Message) -> (r: Event<UserId, RoomId>)
        ensures
            r == (Event {
                channel: Channel::<RoomId>::World,
                user: self,
                event_type: EventType::Post { message },
            }),
    {
        self.post(Channel::World, message)
    }

    /// This user enters the room `room_id`.
    pub fn enter_room(self, room_id: RoomId) -> (r: Event<UserId, RoomId>)
        ensures
            r == (Event {
                channel: Channel::Room(room_id),
                user: self,
                event_type: EventType::Enter,
            }),
    {
        self.enter(Channel::Room(room_id))
    }

    /// This user leaves the room `room_id`.
    pub fn leave_room(self, room_id: RoomId) -> (r: Event<UserId, RoomId>)
        ensures
            r == (Event {
                channel: Channel::Room(room_id),
                user: self,
                event_type: EventType::Leave,
            }),
    {
        self.leave(Channel::Room(room_id))
    }

    /// This user posts `message` in the room `room_id`.
    pub fn post_room(self, room_id: RoomId, message: Message) -> (r: Event<UserId, RoomId>)
        ensures
            r == (Event {
                channel: Channel::Room(room_id),
                user: self,
                event_type: EventType::Post { message },
            }),
    {
        self.post(Channel::Room(room_id), message)
    }
}

impl<U, R> Event<U, R> {
    /// `user` enters `room`, or the world where there is none.
    pub fn enter(user: U, room: Option<R>) -> (r: Self)
        ensures
            r == (Event { channel: channel_of(room), user, event_type: EventType::Enter }),
    {
        let channel = match room {
            Some(room) => Channel::Room(room),
            None => Channel::World,
        };
        Event::new(channel, user, EventType::Enter)
    }

    /// `user` leaves `room`, or the world where there is none.
    pub fn leave(user: U, room: Option<R>) -> (r: Self)
        ensures
            r == (Event { channel: channel_of(room), user, event_type: EventType::Leave }),
    {
        let channel = match room {
            Some(room) => Channel::Room(room),
            None => Channel::World,
        };
        Event::new(channel, user, EventType::Leave)
    }

    /// `user` posts `message` in `room`, or to the world where there is none.
    pub fn post(user: U, room: Option<R>, message: Message) -> (r: Self)
        ensures
            r == (Event {
                channel: channel_of(room),
                user,
                event_type: EventType::Post { message },
            }),
    {
        let channel = match room {
            Some(room) => Channel::Room(room),
            None => Channel::World,
        };
        Event::new(channel, user, EventType::Post { message })
    }

    /// `user` enters the world.
    pub fn enter_world(user: U) -> (r: Self)
        ensures
            r == (Event { channel: Channel::<R>::World, user, event_type: EventType::Enter }),
    {
        Event::new(Channel::World, user, EventType::Enter)
    }

    /// `user` leaves the world.
    pub fn leave_world(user: U) -> (r: Self)
        ensures
            r == (Event { channel: Channel::<R>::World, user, event_type: EventType::Leave }),
    {
        Event::new(Channel::World, user, EventType::Leave)
    }

    /// `user` posts `message` to the world.
    pub fn post_world(user: U, message: Message) -> (r: Self)
        ensures
            r == (Event {
                channel: Channel::<R>::World,
                user,
                event_type: EventType::Post { message },
            }),
    {
        Event::new(Channel::World, user, EventType::Post { message })
    }

    /// `user` enters `room`.
    pub fn enter_room(user: U, room: R) -> (r: Self)
        ensures
            r == (Event { channel: Channel::Room(room), user, event_type: EventType::Enter }),
    {
        Event::new(Channel::Room(room), user, EventType::Enter)
    }

    /// `user` leaves `room`.
    pub fn leave_room(user: U, room: R) -> (r: Self)
        ensures
            r == (Event { channel: Channel::Room(room), user, event_type: EventType::Leave }),
    {
        Event::new(Channel::Room(room), user, EventType::Leave)
    }

    /// `user` posts `message` in `room`.
    pub fn post_room(user: U, room: R, message: Message) -> (r: Self)
        ensures
            r == (Event {
                channel: Channel::Room(room),
                user,
                event_type: EventType::Post { message },
            }),
    {
        Event::new(Channel::Room(room), user, EventType::Post { message })
    }
}

} // verus!
