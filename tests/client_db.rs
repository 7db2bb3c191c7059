use chat::client_db::ChannelEvent;
use chat::client_db::Db;
use chat::ring::DEFAULT_CAP;
use chat::Channel;
use chat::Event;
use chat::Message;
use chat::Room;
use chat::RoomId;
use chat::User;
use chat::UserId;

fn user(id: u128, name: &str) -> User {
    User { id: UserId(id), name: name.to_string() }
}

fn room(id: u128, name: &str) -> Room {
    Room { id: RoomId(id), name: name.to_string() }
}

fn events(log: &chat::client_db::Events) -> Vec<ChannelEvent> {
    (0..log.len()).map(|i| log.get(i).clone()).collect()
}

fn hello() -> Message {
    Message { body: "hello".to_string() }
}

#[test]
fn is_leaving_needs_a_leave_by_that_user() {
    let me = user(1, "me");
    assert!(ChannelEvent::Leave { user: me.clone() }.is_leaving(&me));
    assert!(!ChannelEvent::Leave { user: user(2, "me") }.is_leaving(&me));
    assert!(!ChannelEvent::Leave { user: user(1, "other") }.is_leaving(&me));
    assert!(!ChannelEvent::Enter { user: me.clone() }.is_leaving(&me));
}

#[test]
fn from_splits_channel_and_event() {
    let e = Event::post_room(user(2, "b"), room(7, "r"), hello());
    assert_eq!(
        ChannelEvent::from(e),
        (Channel::Room(room(7, "r")), ChannelEvent::Post { user: user(2, "b"), message: hello() })
    );
    assert_eq!(
        ChannelEvent::from(Event::<User, Room>::enter_world(user(2, "b"))),
        (Channel::World, ChannelEvent::Enter { user: user(2, "b") })
    );
}

#[test]
fn world_log_clears_when_i_leave() {
    let me = user(1, "me");
    let mut db = Db::new(me.clone());
    db.push(Event::enter_world(me.clone()));
    db.push(Event::enter_world(user(2, "b")));
    db.push(Event::post_world(user(2, "b"), hello()));
    assert_eq!(db.world().len(), 3);
    db.push(Event::leave_world(user(2, "b")));
    assert_eq!(db.world().len(), 4);
    db.push(Event::leave_world(me.clone()));
    assert_eq!(events(db.world()), vec![ChannelEvent::Leave { user: me.clone() }]);
    assert_eq!(db.user(), &me);
}

#[test]
fn world_log_keeps_the_last_events() {
    let mut db = Db::new(user(1, "me"));
    for i in 0..(DEFAULT_CAP as u128 + 5) {
        db.push(Event::enter_world(user(100 + i, "x")));
    }
    let log = events(db.world());
    assert_eq!(log.len(), DEFAULT_CAP);
    assert_eq!(log[0], ChannelEvent::Enter { user: user(105, "x") });
}

#[test]
fn room_logs_open_and_close() {
    let me = user(1, "me");
    let mut db = Db::new(me.clone());
    db.push(Event::enter_room(me.clone(), room(7, "r")));
    db.push(Event::post_room(user(2, "b"), room(7, "renamed"), hello()));
    db.push(Event::enter_room(user(2, "b"), room(8, "s")));
    assert_eq!(db.rooms().len(), 2);
    assert_eq!(db.rooms()[0].0, room(7, "r"));
    assert_eq!(
        events(&db.rooms()[0].1),
        vec![ChannelEvent::Enter { user: me.clone() }, ChannelEvent::Post { user: user(2, "b"), message: hello() }]
    );
    db.push(Event::leave_room(user(2, "b"), room(7, "r")));
    assert_eq!(db.rooms()[0].1.len(), 3);
    db.push(Event::leave_room(me.clone(), room(7, "r")));
    assert_eq!(db.rooms().len(), 1);
    assert_eq!(db.rooms()[0].0, room(8, "s"));
    db.push(Event::leave_room(me.clone(), room(9, "t")));
    assert_eq!(db.rooms().len(), 1);
    db.user_mut().name = "renamed".to_string();
    assert_eq!(db.user().name, "renamed");
}
