use chat::connection::step;
use chat::connection::Action;
use chat::connection::Input;
use chat::connection::Phase;
use chat::ids::VERSION_4;
use chat::ids::VERSION_MASK;
use chat::session::Db;
use chat::Channel;
use chat::Client;
use chat::ClientId;
use chat::Dispatch;
use chat::Event;
use chat::EventType;
use chat::Message;
use chat::Request;
use chat::Response;
use chat::Room;
use chat::RoomId;
use chat::ServerToClient;
use chat::User;
use chat::UserId;

fn user(id: u128, name: &str) -> User {
    User { id: UserId(id), name: name.to_string() }
}

fn room(id: u128, name: &str) -> Room {
    Room { id: RoomId(id), name: name.to_string() }
}

fn event(to: Vec<u128>, channel: Channel<Room>, who: User, event_type: EventType) -> Dispatch {
    Dispatch {
        to: to.into_iter().map(ClientId).collect(),
        message: ServerToClient::Response(Response::Event(Event { channel, user: who, event_type })),
    }
}

fn reply(to: u128, response: Response) -> Dispatch {
    Dispatch { to: vec![ClientId(to)], message: ServerToClient::Response(response) }
}

fn post(body: &str) -> EventType {
    EventType::Post { message: Message { body: body.to_string() } }
}

/// A session with connections 1..=n, connection k bound to user 10+k named
/// names[k-1], every one of them world-present.
fn session_with(names: &[&str]) -> Db {
    let mut db = Db::new();
    for (i, name) in names.iter().enumerate() {
        let c = (i + 1) as u128;
        db.handle_accept_with(ClientId(c)).unwrap();
        db.handle_connect(ClientId(c), name.to_string(), UserId(10 + c));
        let out = db.handle_event(ClientId(c), UserId(10 + c).enter_world());
        assert_eq!(out.len(), 1);
    }
    db
}

#[test]
fn end_to_end_two_clients() {
    let mut db = Db::new();

    // Client A connects: the session registers it, the task writes Accepted.
    let out = db.handle_accept_with(ClientId(1)).unwrap();
    assert_eq!(out, vec![Dispatch { to: vec![ClientId(1)], message: ServerToClient::Accepted(ClientId(1)) }]);
    let (phase, action) = step(Phase::Handshake, Input::Accepted(ClientId(1)));
    assert_eq!(phase, Phase::Ready(ClientId(1)));
    assert_eq!(action, Action::Write(Response::Accepted(Client { id: ClientId(1) })));

    let (_, action) = step(phase, Input::Request(Request::Connect("alice".to_string())));
    assert_eq!(action, Action::Forward(ClientId(1), Request::Connect("alice".to_string())));
    let out = db.handle_request_with(ClientId(1), Request::Connect("alice".to_string()), UserId(11), RoomId(0));
    assert_eq!(out, vec![reply(1, Response::Connected(user(11, "alice")))]);

    let out = db.handle_request_with(ClientId(1), Request::Event(UserId(11).enter_world()), UserId(0), RoomId(0));
    assert_eq!(out, vec![event(vec![1], Channel::World, user(11, "alice"), EventType::Enter)]);

    // Client B connects, becomes bob, enters: both hear it.
    db.handle_accept_with(ClientId(2)).unwrap();
    let out = db.handle_request_with(ClientId(2), Request::Connect("bob".to_string()), UserId(12), RoomId(0));
    assert_eq!(out, vec![reply(2, Response::Connected(user(12, "bob")))]);
    let out = db.handle_request_with(ClientId(2), Request::Event(UserId(12).enter_world()), UserId(0), RoomId(0));
    assert_eq!(out, vec![event(vec![1, 2], Channel::World, user(12, "bob"), EventType::Enter)]);

    // A posts "hi" to the world: both hear it.
    let hi = Message { body: "hi".to_string() };
    let out = db.handle_request_with(ClientId(1), Request::Event(UserId(11).post_world(hi)), UserId(0), RoomId(0));
    assert_eq!(out, vec![event(vec![1, 2], Channel::World, user(11, "alice"), post("hi"))]);

    // Each outbound response becomes a socket write on the recipient's task.
    let (_, action) = step(Phase::Ready(ClientId(2)), Input::Outbound(out[0].message.clone()));
    assert_eq!(
        action,
        Action::Write(Response::Event(Event { channel: Channel::World, user: user(11, "alice"), event_type: post("hi") }))
    );
}

#[test]
fn create_room_race_first_wins() {
    for (first, second) in [(1u128, 2u128), (2, 1)] {
        let mut db = session_with(&["a", "b"]);
        let out1 = db.handle_create_room(ClientId(first), "r1".to_string(), RoomId(100));
        let out2 = db.handle_create_room(ClientId(second), "r1".to_string(), RoomId(200));
        assert_eq!(out1, vec![reply(first, Response::CreatedRoom(room(100, "r1")))]);
        assert_eq!(out2, vec![reply(second, Response::Error)]);
        assert_eq!(db.rooms().iter().filter(|r| r.name == "r1").count(), 1);
    }
}

#[test]
fn create_room_existing_name_is_error_and_changes_nothing() {
    let mut db = session_with(&["a"]);
    db.handle_create_room(ClientId(1), "r1".to_string(), RoomId(100));
    let before = db.rooms().clone();
    for id in [101u128, 102, 103] {
        let out = db.handle_create_room(ClientId(1), "r1".to_string(), RoomId(id));
        assert_eq!(out, vec![reply(1, Response::Error)]);
        assert_eq!(db.rooms(), &before);
    }
    let out = db.handle_create_room(ClientId(1), "r2".to_string(), RoomId(100));
    assert_eq!(out, vec![reply(1, Response::Error)]);
}

#[test]
fn room_post_reaches_members_only() {
    let mut db = session_with(&["a", "b", "c"]);
    db.handle_create_room(ClientId(1), "r".to_string(), RoomId(100));
    db.handle_event(ClientId(1), UserId(11).enter_room(RoomId(100)));
    db.handle_event(ClientId(3), UserId(13).enter_room(RoomId(100)));
    let out = db.handle_event(ClientId(3), UserId(13).post_room(RoomId(100), Message { body: "yo".to_string() }));
    assert_eq!(out, vec![event(vec![1, 3], Channel::Room(room(100, "r")), user(13, "c"), post("yo"))]);
    assert_eq!(db.room(RoomId(100)), vec![ClientId(1), ClientId(3)]);
    assert_eq!(db.channel(Channel::Room(RoomId(100))), vec![ClientId(1), ClientId(3)]);
    assert_eq!(db.channel(Channel::World), vec![ClientId(1), ClientId(2), ClientId(3)]);

    // A non-member may not post there.
    let out = db.handle_event(ClientId(2), UserId(12).post_room(RoomId(100), Message { body: "x".to_string() }));
    assert_eq!(out, vec![reply(2, Response::Error)]);
}

#[test]
fn reenter_room_keeps_one_membership_and_broadcasts_again() {
    let mut db = session_with(&["a"]);
    db.handle_create_room(ClientId(1), "r".to_string(), RoomId(100));
    let first = db.handle_event(ClientId(1), UserId(11).enter_room(RoomId(100)));
    let second = db.handle_event(ClientId(1), UserId(11).enter_room(RoomId(100)));
    let expected = vec![event(vec![1], Channel::Room(room(100, "r")), user(11, "a"), EventType::Enter)];
    assert_eq!(first, expected);
    assert_eq!(second, expected);
    assert_eq!(db.rooms()[0].user_ids, vec![UserId(11)]);
    assert_eq!(db.users()[0].room_ids, vec![RoomId(100)]);
}

#[test]
fn leave_world_leaves_rooms_first() {
    let mut db = session_with(&["a", "b"]);
    db.handle_create_room(ClientId(1), "r1".to_string(), RoomId(100));
    db.handle_create_room(ClientId(1), "r2".to_string(), RoomId(200));
    db.handle_event(ClientId(1), UserId(11).enter_room(RoomId(100)));
    db.handle_event(ClientId(1), UserId(11).enter_room(RoomId(200)));
    db.handle_event(ClientId(2), UserId(12).enter_room(RoomId(200)));
    let out = db.handle_event(ClientId(1), UserId(11).leave_world());
    assert_eq!(
        out,
        vec![
            event(vec![1], Channel::Room(room(100, "r1")), user(11, "a"), EventType::Leave),
            event(vec![1, 2], Channel::Room(room(200, "r2")), user(11, "a"), EventType::Leave),
            event(vec![1, 2], Channel::World, user(11, "a"), EventType::Leave),
        ]
    );
    assert_eq!(db.users().len(), 1);
    assert!(db.rooms().iter().all(|r| !r.user_ids.contains(&UserId(11))));
    assert_eq!(db.is_in(UserId(11), RoomId(100)), Err(()));
}

#[test]
fn world_presence_follows_accepted_transitions() {
    let mut db = Db::new();
    db.handle_accept_with(ClientId(1)).unwrap();
    db.handle_connect(ClientId(1), "a".to_string(), UserId(11));
    let enter = || UserId(11).enter_world();
    let leave = || UserId(11).leave_world();

    assert_eq!(db.handle_event(ClientId(1), leave()), vec![reply(1, Response::Error)]);
    assert_eq!(db.users().len(), 0);
    assert_eq!(db.handle_event(ClientId(1), enter()).len(), 1);
    assert_eq!(db.users().len(), 1);
    assert_eq!(db.handle_event(ClientId(1), enter()), vec![reply(1, Response::Error)]);
    assert_eq!(db.users().len(), 1);
    let out = db.handle_event(ClientId(1), leave());
    assert_eq!(out, vec![event(vec![1], Channel::World, user(11, "a"), EventType::Leave)]);
    assert_eq!(db.users().len(), 0);
    assert_eq!(db.handle_event(ClientId(1), enter()).len(), 1);
    assert_eq!(db.users().len(), 1);
}

#[test]
fn world_enter_needs_the_bound_user() {
    let mut db = Db::new();
    db.handle_accept_with(ClientId(1)).unwrap();
    assert_eq!(db.handle_event(ClientId(1), UserId(11).enter_world()), vec![reply(1, Response::Error)]);
    db.handle_connect(ClientId(1), "a".to_string(), UserId(11));
    assert_eq!(db.handle_event(ClientId(1), UserId(99).enter_world()), vec![reply(1, Response::Error)]);
    assert_eq!(db.handle_event(ClientId(7), UserId(11).enter_world()), vec![reply(7, Response::Error)]);
    assert_eq!(db.users().len(), 0);
}

#[test]
fn connect_binds_once() {
    let mut db = Db::new();
    assert_eq!(db.handle_connect(ClientId(1), "a".to_string(), UserId(11)), vec![reply(1, Response::Error)]);
    db.handle_accept_with(ClientId(1)).unwrap();
    assert_eq!(
        db.handle_connect(ClientId(1), "a".to_string(), UserId(11)),
        vec![reply(1, Response::Connected(user(11, "a")))]
    );
    assert_eq!(db.handle_connect(ClientId(1), "b".to_string(), UserId(12)), vec![reply(1, Response::Error)]);
    assert_eq!(db.clients()[0].user, Some(user(11, "a")));
}

#[test]
fn duplicate_display_names_are_allowed() {
    let db = session_with(&["same", "same"]);
    assert_eq!(db.users().len(), 2);
    let out = db.handle_get_user(ClientId(2), "same".to_string());
    assert_eq!(out, vec![reply(2, Response::User(Some(user(11, "same"))))]);
}

#[test]
fn get_user_and_room_find_first_match() {
    let mut db = session_with(&["a", "b"]);
    assert_eq!(db.handle_get_user(ClientId(1), "b".to_string()), vec![reply(1, Response::User(Some(user(12, "b"))))]);
    assert_eq!(db.handle_get_user(ClientId(1), "z".to_string()), vec![reply(1, Response::User(None))]);
    db.handle_create_room(ClientId(1), "r".to_string(), RoomId(100));
    assert_eq!(db.handle_get_room(ClientId(2), "r".to_string()), vec![reply(2, Response::Room(Some(room(100, "r"))))]);
    assert_eq!(
        db.handle_request_with(ClientId(2), Request::GetRoom("q".to_string()), UserId(0), RoomId(0)),
        vec![reply(2, Response::Room(None))]
    );
}

#[test]
fn room_errors() {
    let mut db = session_with(&["a"]);
    // Unknown room.
    assert_eq!(db.handle_event(ClientId(1), UserId(11).enter_room(RoomId(5))), vec![reply(1, Response::Error)]);
    db.handle_create_room(ClientId(1), "r".to_string(), RoomId(100));
    // Not a member.
    assert_eq!(db.handle_event(ClientId(1), UserId(11).leave_room(RoomId(100))), vec![reply(1, Response::Error)]);
    // Not world-present.
    assert_eq!(db.handle_event(ClientId(1), UserId(77).enter_room(RoomId(100))), vec![reply(1, Response::Error)]);
    assert_eq!(db.enter(UserId(77), RoomId(100)), Err(()));
    assert_eq!(db.leave(UserId(11), RoomId(5)), Err(()));
    assert_eq!(db.is_in(UserId(11), RoomId(100)), Ok(false));
    assert_eq!(db.enter(UserId(11), RoomId(100)), Ok(()));
    assert_eq!(db.is_in(UserId(11), RoomId(100)), Ok(true));
    assert_eq!(db.leave(UserId(11), RoomId(100)), Ok(()));
    assert_eq!(db.is_in(UserId(11), RoomId(100)), Ok(false));
}

#[test]
fn room_leave_reaches_the_leaver() {
    let mut db = session_with(&["a", "b"]);
    db.handle_create_room(ClientId(1), "r".to_string(), RoomId(100));
    db.handle_event(ClientId(1), UserId(11).enter_room(RoomId(100)));
    db.handle_event(ClientId(2), UserId(12).enter_room(RoomId(100)));
    let out = db.handle_event(ClientId(1), UserId(11).leave_room(RoomId(100)));
    assert_eq!(out, vec![event(vec![1, 2], Channel::Room(room(100, "r")), user(11, "a"), EventType::Leave)]);
    assert_eq!(db.room(RoomId(100)), vec![ClientId(2)]);
}

#[test]
fn shutdown_takes_the_user_out() {
    let mut db = session_with(&["a", "b"]);
    db.handle_create_room(ClientId(1), "r".to_string(), RoomId(100));
    db.handle_event(ClientId(1), UserId(11).enter_room(RoomId(100)));
    let out = db.handle_request_with(ClientId(1), Request::Shutdown, UserId(0), RoomId(0));
    assert_eq!(
        out,
        vec![
            event(vec![1], Channel::Room(room(100, "r")), user(11, "a"), EventType::Leave),
            event(vec![1, 2], Channel::World, user(11, "a"), EventType::Leave),
        ]
    );
    assert_eq!(db.clients().len(), 1);
    assert_eq!(db.users().len(), 1);
    assert_eq!(db.world(), vec![ClientId(2)]);
    // Unknown or already gone: nothing.
    assert_eq!(db.handle_shutdown(ClientId(1)), vec![]);
}

#[test]
fn shutdown_of_an_unbound_connection_sends_nothing() {
    let mut db = Db::new();
    db.handle_accept_with(ClientId(1)).unwrap();
    assert_eq!(db.handle_shutdown(ClientId(1)), vec![]);
    assert_eq!(db.clients().len(), 0);
}

#[test]
fn disconnect_is_answered_with_an_error() {
    let mut db = session_with(&["a"]);
    assert_eq!(
        db.handle_request_with(ClientId(1), Request::Disconnect, UserId(0), RoomId(0)),
        vec![reply(1, Response::Error)]
    );
}

#[test]
fn accept_refuses_a_taken_id() {
    let mut db = Db::new();
    assert!(db.handle_accept_with(ClientId(1)).is_some());
    assert!(db.handle_accept_with(ClientId(1)).is_none());
    assert_eq!(db.clients().len(), 1);
}

#[test]
fn drawn_ids_are_version_4_uuids() {
    let mut db = Db::new();
    let (c, out) = db.handle_accept().unwrap();
    assert_eq!(c.0 & VERSION_MASK, VERSION_4);
    assert_eq!(out[0].message, ServerToClient::Accepted(c));
    let out = db.handle_request(c, Request::Connect("a".to_string()));
    let u = match &out[0].message {
        ServerToClient::Response(Response::Connected(u)) => u.clone(),
        other => panic!("unexpected {:?}", other),
    };
    assert_eq!(u.name, "a");
    assert_eq!(u.id.0 & VERSION_MASK, VERSION_4);
    let out = db.handle_request(c, Request::CreateRoom("r".to_string()));
    let r = match &out[0].message {
        ServerToClient::Response(Response::CreatedRoom(r)) => r.clone(),
        other => panic!("unexpected {:?}", other),
    };
    assert_eq!(r.id.0 & VERSION_MASK, VERSION_4);
    assert_ne!(ClientId::new(), ClientId::new());
}

#[test]
fn unknown_room_has_an_empty_audience() {
    let mut db = session_with(&["a"]);
    assert_eq!(db.room(RoomId(999)), vec![]);
    assert_eq!(db.channel(Channel::Room(RoomId(999))), vec![]);
    let out = db.handle_event(ClientId(1), UserId(11).post_room(RoomId(999), Message { body: "x".to_string() }));
    assert_eq!(out, vec![reply(1, Response::Error)]);
    let empty = Db::new();
    assert_eq!(empty.world(), vec![]);
}

#[test]
fn connect_refuses_a_user_id_bound_elsewhere() {
    let mut db = Db::new();
    db.handle_accept_with(ClientId(1)).unwrap();
    db.handle_accept_with(ClientId(2)).unwrap();
    db.handle_connect(ClientId(1), "a".to_string(), UserId(11));
    assert_eq!(db.handle_connect(ClientId(2), "b".to_string(), UserId(11)), vec![reply(2, Response::Error)]);
    assert_eq!(db.clients()[1].user, None);
    assert_eq!(
        db.handle_connect(ClientId(2), "b".to_string(), UserId(12)),
        vec![reply(2, Response::Connected(user(12, "b")))]
    );
}
