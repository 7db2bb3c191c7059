//! The values that travel between clients and the server.

use vstd::prelude::*;

use crate::ids::ClientId;
use crate::ids::RoomId;
use crate::ids::UserId;

verus! {

/// A client, as the server names it on the wire.
#[derive(Clone, PartialEq, Eq, Hash, Debug)]
pub struct Client {
    pub id: ClientId,
}

/// A user: its id and its display name.
#[derive(Clone, PartialEq, Eq, Hash, Debug)]
pub struct User {
    pub id: UserId,
    pub name: String,
}

/// A room: its id and its name.
#[derive(Clone, PartialEq, Eq, Hash, Debug)]
pub struct Room {
    pub id: RoomId,
    pub name: String,
}

/// A posted message.
#[derive(Clone, PartialEq, Eq, Debug)]
pub struct Message {
    pub body: String,
}

/// Something that happened on a channel: who did it, and what.
///
/// Requests carry ids (`Event<UserId, RoomId>`); the server answers with
/// the records they name (`Event<User, Room>`).
#[derive(Clone, PartialEq, Eq, Debug)]
pub struct Event<U, R> {
    pub channel: Channel<R>,
    pub user: U,
    pub event_type: EventType,
}

/// What an [`Event`] is.
#[derive(Clone, PartialEq, Eq, Debug)]
pub enum EventType {
    Enter,
    Leave,
    Post { message: Message },
}

/// Where an [`Event`] is addressed: the world, or one room.
#[derive(Clone, Copy, PartialEq, Eq, Debug)]
pub enum Channel<R> {
    World,
    Room(R),
}

/// A client's request to the server.
#[derive(Clone, PartialEq, Eq, Debug)]
pub enum Request {
    GetUser(String),
    GetRoom(String),
    Connect(String),
    CreateRoom(String),
    Event(Event<UserId, RoomId>),
    Disconnect,
    Shutdown,
}

/// The server's answer, or a broadcast, to a client.
#[derive(Clone, PartialEq, Eq, Debug)]
pub enum Response {
    Accepted(Client),
    User(Option<User>),
    Room(Option<Room>),
    Connected(User),
    CreatedRoom(Room),
    Event(Event<User, Room>),
    Disconnected,
    Error,
}

impl<U, R> Event<U, R> {
    /// An event from its three parts.
    pub fn new(channel: Channel<R>, user: U, event_type: EventType) -> (r: Self)
        ensures
            r == (Event { channel, user, event_type }),
    {
        Event { channel, user, event_type }
    }
}

} // verus!
