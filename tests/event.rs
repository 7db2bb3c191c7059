use chat::Channel;
use chat::Event;
use chat::EventType;
use chat::Message;
use chat::RoomId;
use chat::UserId;

fn hi() -> Message {
    Message { body: "hi".to_string() }
}

#[test]
fn user_id_shorthands() {
    let u = UserId(3);
    let r = RoomId(4);
    assert_eq!(u.enter_world(), Event::new(Channel::World, u, EventType::Enter));
    assert_eq!(u.leave_world(), Event::new(Channel::World, u, EventType::Leave));
    assert_eq!(u.post_world(hi()), Event::new(Channel::World, u, EventType::Post { message: hi() }));
    assert_eq!(u.enter_room(r), Event::new(Channel::Room(r), u, EventType::Enter));
    assert_eq!(u.leave_room(r), Event::new(Channel::Room(r), u, EventType::Leave));
    assert_eq!(u.post_room(r, hi()), Event::new(Channel::Room(r), u, EventType::Post { message: hi() }));
    assert_eq!(u.enter(Channel::Room(r)), u.enter_room(r));
    assert_eq!(u.leave(Channel::World), u.leave_world());
    assert_eq!(u.post(Channel::World, hi()), u.post_world(hi()));
}

#[test]
fn event_shorthands() {
    let e: Event<u8, u16> = Event::enter(1, Some(2));
    assert_eq!(e, Event { channel: Channel::Room(2), user: 1, event_type: EventType::Enter });
    assert_eq!(Event::<u8, u16>::enter(1, None), Event::enter_world(1));
    assert_eq!(Event::<u8, u16>::leave(1, None), Event::leave_world(1));
    assert_eq!(Event::<u8, u16>::leave(1, Some(2)), Event::leave_room(1, 2));
    assert_eq!(Event::<u8, u16>::post(1, Some(2), hi()), Event::post_room(1, 2, hi()));
    assert_eq!(Event::<u8, u16>::post(1, None, hi()), Event::post_world(1, hi()));
    assert_eq!(Event::<u8, u16>::enter_room(1, 2).channel, Channel::Room(2));
    assert_eq!(
        Event::<u8, u16>::post_world(1, hi()).event_type,
        EventType::Post { message: hi() }
    );
}
