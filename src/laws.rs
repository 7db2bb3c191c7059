//! Laws of the session, proved over its model.

use vstd::prelude::*;

use crate::db::RoomView;
use crate::db::UserView;
use crate::ids::ClientId;
use crate::ids::RoomId;
use crate::ids::UserId;
use crate::model::room_audience;
use crate::model::world_audience;
use crate::model::DbView;
use crate::model::DispatchView;
use crate::model::ServerToClient;
use crate::protocol::Channel;
use crate::protocol::Event;
use crate::protocol::EventType;
use crate::protocol::Message;
use crate::protocol::Response;

verus! {

/// Whether some user of `users` that has joined `r` is connected through `x`.
pub open spec fn reaches(users: Seq<UserView>, r: RoomId, x: ClientId) -> bool {
    exists|i: int| 0 <= i < users.len() && #[trigger] users[i].rooms.contains(r) && users[i].client_id == x
}

/// A room's audience is exactly the connections of the users that joined it.
#[verifier::spinoff_prover]
#[verifier::rlimit(30)]
pub proof fn lemma_room_audience(users: Seq<UserView>, r: RoomId)
    ensures
        forall|x: ClientId| #[trigger] room_audience(users, r).contains(x) <==> reaches(users, r, x),
    decreases users.len(),
{
    if users.len() > 0 {
        let init = users.drop_last();
        lemma_room_audience(init, r);
        let last = users.last();
        let rest = room_audience(init, r);
        assert forall|x: ClientId| #[trigger] room_audience(users, r).contains(x) <==> reaches(users, r, x) by {
            assert(reaches(users, r, x) <==> reaches(init, r, x) || (last.rooms.contains(r)
                && last.client_id == x)) by {
                if reaches(users, r, x) {
                    let i = choose|i: int| 0 <= i < users.len() && #[trigger] users[i].rooms.contains(r) && users[i].client_id == x;
                    if i < init.len() {
                        assert(init[i] == users[i]);
                    }
                }
                if reaches(init, r, x) {
                    let i = choose|i: int| 0 <= i < init.len() && #[trigger] init[i].rooms.contains(r) && init[i].client_id == x;
                    assert(users[i] == init[i]);
                }
                if last.rooms.contains(r) && last.client_id == x {
                    assert(users[users.len() - 1].rooms.contains(r));
                }
            }
            if last.rooms.contains(r) {
                let full = rest.push(last.client_id);
                assert(full.contains(x) <==> rest.contains(x) || last.client_id == x) by {
                    if full.contains(x) {
                        let k = choose|k: int| 0 <= k < full.len() && full[k] == x;
                        if k < rest.len() {
                            assert(rest[k] == x);
                        }
                    }
                    if rest.contains(x) {
                        let k = choose|k: int| 0 <= k < rest.len() && rest[k] == x;
                        assert(full[k] == x);
                    }
                    if last.client_id == x {
                        assert(full[rest.len() as int] == x);
                    }
                }
            }
        }
    }
}

/// Whether some member of room `r` is connected through `x`.
pub open spec fn reaches_member(s: DbView, r: RoomId, x: ClientId) -> bool {
    exists|i: int|
        0 <= i < s.users.len() && #[trigger] s.members(r).contains(s.users[i].id) && s.users[i].client_id == x
}

/// Where no two users share a connection, a room's audience names each
/// connection once.
pub proof fn lemma_room_audience_distinct(users: Seq<UserView>, r: RoomId)
    requires
        forall|i: int, j: int| 0 <= i < j < users.len() ==> users[i].client_id != users[j].client_id,
    ensures
        room_audience(users, r).no_duplicates(),
    decreases users.len(),
{
    if users.len() > 0 {
        let init = users.drop_last();
        let last = users.last();
        assert forall|i: int, j: int| 0 <= i < j < init.len() implies init[i].client_id != init[j].client_id by {
            assert(init[i] == users[i] && init[j] == users[j]);
        }
        lemma_room_audience_distinct(init, r);
        lemma_room_audience(init, r);
        let rest = room_audience(init, r);
        if last.rooms.contains(r) {
            if rest.contains(last.client_id) {
                assert(reaches(init, r, last.client_id));
                let i = choose|i: int| 0 <= i < init.len() && #[trigger] init[i].rooms.contains(r) && init[i].client_id == last.client_id;
                assert(users[i] == init[i]);
                assert(users[users.len() - 1] == last);
            }
            let full = rest.push(last.client_id);
            assert forall|a: int, b: int| 0 <= a < full.len() && 0 <= b < full.len() && a != b implies full[a] != full[b] by {
                if a == rest.len() {
                    assert(rest[b] == full[b]);
                } else if b == rest.len() {
                    assert(rest[a] == full[a]);
                }
            }
        }
    }
}

/// In a well-formed state a room's audience is exactly the connections of
/// its members, each once; an unknown room has no audience.
pub proof fn lemma_room_audience_members(s: DbView, r: RoomId)
    requires
        s.wf(),
    ensures
        s.has_room(r) ==> forall|x: ClientId| #[trigger] room_audience(s.users, r).contains(x) <==> reaches_member(s, r, x),
        !s.has_room(r) ==> room_audience(s.users, r).len() == 0,
        room_audience(s.users, r).no_duplicates(),
{
    s.lemma_indices();
    lemma_room_audience(s.users, r);
    lemma_room_audience_distinct(s.users, r);
    if s.has_room(r) {
        let j = s.room_index(r);
        assert forall|x: ClientId| reaches(s.users, r, x) <==> reaches_member(s, r, x) by {
            if reaches(s.users, r, x) {
                let i = choose|i: int| 0 <= i < s.users.len() && #[trigger] s.users[i].rooms.contains(r) && s.users[i].client_id == x;
                assert(s.users[i].rooms.contains(s.rooms[j].id));
                assert(s.members(r).contains(s.users[i].id));
            }
            if reaches_member(s, r, x) {
                let i = choose|i: int|
                    0 <= i < s.users.len() && #[trigger] s.members(r).contains(s.users[i].id) && s.users[i].client_id == x;
                assert(s.rooms[j].members.contains(s.users[i].id));
                assert(s.users[i].rooms.contains(r));
            }
        }
    } else {
        let a = room_audience(s.users, r);
        if a.len() > 0 {
            assert(a.contains(a[0]));
            let i = choose|i: int| 0 <= i < s.users.len() && #[trigger] s.users[i].rooms.contains(r) && s.users[i].client_id == a[0];
        }
    }
}

/// Where no two users share a connection, the world's audience names each
/// connection once.
pub proof fn lemma_world_audience_distinct(s: DbView)
    requires
        s.wf(),
    ensures
        world_audience(s.users).no_duplicates(),
{
    let a = world_audience(s.users);
    assert forall|i: int, j: int| 0 <= i < a.len() && 0 <= j < a.len() && i != j implies a[i] != a[j] by {
        if i < j {
            assert(s.users[i].client_id != s.users[j].client_id);
        } else {
            assert(s.users[j].client_id != s.users[i].client_id);
        }
    }
}

/// A post to room `r` by one of its members reaches exactly the connections
/// of the users that are members of `r`, each once, and changes nothing.
#[verifier::spinoff_prover]
#[verifier::rlimit(30)]
pub proof fn law_room_post_reaches_members(
    s: DbView,
    c: ClientId,
    u: UserId,
    r: RoomId,
    message: Message,
)
    requires
        s.wf(),
        s.is_member(u, r),
    ensures
        ({
            let (t, out) = s.step_event(
                c,
                Event { channel: Channel::Room(r), user: u, event_type: EventType::Post { message } },
            );
            &&& t == s
            &&& out.len() == 1
            &&& out[0].message == ServerToClient::Response(
                Response::Event(
                    Event {
                        channel: Channel::Room(s.room_record(r)),
                        user: s.user_record(u),
                        event_type: EventType::Post { message },
                    },
                ),
            )
            &&& forall|x: ClientId| #[trigger] out[0].to.contains(x) <==> reaches_member(s, r, x)
            &&& out[0].to.no_duplicates()
        }),
{
    s.lemma_indices();
    assert(s.has_room(r));
    lemma_room_audience_members(s, r);
}

/// Entering a room already joined changes no membership, and still
/// announces the Enter once, to the room's audience.
pub proof fn law_reenter_room_keeps_membership(s: DbView, c: ClientId, u: UserId, r: RoomId)
    requires
        s.wf(),
        s.is_member(u, r),
    ensures
        ({
            let (t, out) = s.step_event(
                c,
                Event { channel: Channel::Room(r), user: u, event_type: EventType::Enter },
            );
            &&& t == s
            &&& out.len() == 1
            &&& out[0].to == room_audience(s.users, r)
            &&& out[0].message == ServerToClient::Response(
                Response::Event(
                    Event {
                        channel: Channel::Room(s.room_record(r)),
                        user: s.user_record(u),
                        event_type: EventType::Enter,
                    },
                ),
            )
        }),
{
    s.lemma_indices();
    assert(s.has_room(r));
    let k = s.user_index(u);
    let j = s.room_index(r);
    assert(s.users[k].rooms.contains(s.rooms[j].id));
    assert(s.rooms[j].members.contains(s.users[k].id));
    let t = s.join(u, r);
    assert(t.users =~= s.users);
    assert(t.rooms =~= s.rooms);
}

/// Once a room named `name` exists, creating another of that name is
/// refused and changes nothing, whatever connection asks and whatever id
/// was drawn.
pub proof fn law_create_room_refused_once_named(s: DbView, c: ClientId, name: String, r: RoomId)
    requires
        s.has_room_named(name@),
    ensures
        s.step_create_room(c, name, r) == s.refuse(c),
{
}

/// The number of rooms named `name`.
pub open spec fn rooms_named(rooms: Seq<RoomView>, name: Seq<char>) -> nat
    decreases rooms.len(),
{
    if rooms.len() == 0 {
        0
    } else {
        rooms_named(rooms.drop_last(), name) + if rooms.last().name@ == name {
            1nat
        } else {
            0nat
        }
    }
}

/// In a well-formed state no two rooms share a name.
pub proof fn law_room_names_unique(s: DbView, name: Seq<char>)
    requires
        s.wf(),
    ensures
        rooms_named(s.rooms, name) <= 1,
        rooms_named(s.rooms, name) == 1 <==> s.has_room_named(name),
{
    lemma_rooms_named(s.rooms, name);
}

proof fn lemma_rooms_named(rooms: Seq<RoomView>, name: Seq<char>)
    requires
        forall|i: int, j: int| 0 <= i < j < rooms.len() ==> rooms[i].name@ != rooms[j].name@,
    ensures
        rooms_named(rooms, name) <= 1,
        rooms_named(rooms, name) == 1 <==> exists|i: int| 0 <= i < rooms.len() && rooms[i].name@ == name,
    decreases rooms.len(),
{
    if rooms.len() > 0 {
        let init = rooms.drop_last();
        lemma_rooms_named(init, name);
        if exists|i: int| 0 <= i < init.len() && init[i].name@ == name {
            let i = choose|i: int| 0 <= i < init.len() && init[i].name@ == name;
            assert(rooms[i] == init[i]);
        }
        if exists|i: int| 0 <= i < rooms.len() && rooms[i].name@ == name {
            let i = choose|i: int| 0 <= i < rooms.len() && rooms[i].name@ == name;
            if i < init.len() {
                assert(init[i] == rooms[i]);
            }
        }
    }
}

/// Two CreateRoom requests for one name, in either order: the first is
/// answered with the new room, the second with an error, and exactly one
/// room of that name exists afterwards.
#[verifier::spinoff_prover]
#[verifier::rlimit(30)]
pub proof fn law_create_room_race(
    s: DbView,
    c1: ClientId,
    c2: ClientId,
    name: String,
    r1: RoomId,
    r2: RoomId,
)
    requires
        s.wf(),
        !s.has_room_named(name@),
        !s.has_room(r1),
    ensures
        ({
            let (s1, out1) = s.step_create_room(c1, name, r1);
            let (s2, out2) = s1.step_create_room(c2, name, r2);
            &&& out1 == seq![
                crate::model::reply(c1, Response::CreatedRoom(crate::protocol::Room { id: r1, name })),
            ]
            &&& out2 == seq![crate::model::reply(c2, Response::Error)]
            &&& s2 == s1
            &&& rooms_named(s2.rooms, name@) == 1
        }),
{
    let s1 = s.step_create_room(c1, name, r1).0;
    s.lemma_create_room_wf(c1, name, r1);
    let n = s.rooms.len() as int;
    assert(s1.rooms[n].name@ == name@);
    assert(s1.has_room_named(name@));
    law_room_names_unique(s1, name@);
}

/// A world-present user that leaves the world first leaves each room it
/// joined, each announced on that room to its audience before the removal,
/// and then the world, announced to the world's audience before the removal;
/// its own connection is in every one of those audiences, and when the
/// request comes from the connection the user is bound to, that is the
/// requesting connection and the events name the bound user.
#[verifier::spinoff_prover]
#[verifier::rlimit(30)]
pub proof fn law_leave_world_order(s: DbView, c: ClientId, u: UserId)
    requires
        s.wf(),
        s.has_user(u),
    ensures
        ({
            let k = s.user_index(u);
            let joined = s.users[k].rooms;
            let own = s.users[k].client_id;
            let (t, out) = s.step_event(
                c,
                Event { channel: Channel::World, user: u, event_type: EventType::Leave },
            );
            &&& out.len() == joined.len() + 1
            &&& forall|j: int|
                0 <= j < joined.len() ==> {
                    &&& (#[trigger] out[j]).message == ServerToClient::Response(
                        Response::Event(
                            Event {
                                channel: Channel::Room(s.room_record(joined[j])),
                                user: s.user_record(u),
                                event_type: EventType::Leave,
                            },
                        ),
                    )
                    &&& out[j].to == room_audience(s.users, joined[j])
                    &&& out[j].to.contains(own)
                }
            &&& out.last().message == ServerToClient::Response(
                Response::Event(
                    Event { channel: Channel::World, user: s.user_record(u), event_type: EventType::Leave },
                ),
            )
            &&& out.last().to == world_audience(s.users)
            &&& out.last().to.contains(own)
            &&& !t.has_user(u)
            &&& forall|q: int| 0 <= q < t.rooms.len() ==> !(#[trigger] t.rooms[q]).members.contains(u)
            &&& (s.bound(c) is Some && s.bound(c)->0.id == u) ==> (own == c && s.user_record(u) == s.bound(c)->0)
        }),
{
    if s.bound(c) is Some && s.bound(c)->0.id == u {
        s.lemma_bound_present(c);
    }
    s.lemma_indices();
    let k = s.user_index(u);
    let joined = s.users[k].rooms;
    let own = s.users[k].client_id;
    let (t, out) = s.step_leave_world(u);
    assert forall|j: int| 0 <= j < joined.len() implies (#[trigger] out[j]).to.contains(own) by {
        lemma_room_audience(s.users, joined[j]);
        assert(s.users[k].rooms.contains(joined[j]));
        assert(reaches(s.users, joined[j], own));
    }
    assert(world_audience(s.users)[k] == own);
    s.lemma_leave_world_wf(u);
    assert forall|q: int| 0 <= q < t.rooms.len() implies !(#[trigger] t.rooms[q]).members.contains(u) by {
        crate::db::lemma_without(s.rooms[q].members, u);
    }
    if t.has_user(u) {
        let i = choose|i: int| 0 <= i < t.users.len() && t.users[i].id == u;
        let oi = if i < k { i } else { i + 1 };
        assert(t.users[i] == s.users[oi]);
    }
}

/// A member leaving a room through the connection it is bound to is taken
/// out of the room, stays world-present, and its own connection is in the
/// audience of its Leave, which names it as bound.
#[verifier::spinoff_prover]
#[verifier::rlimit(30)]
pub proof fn law_room_leave_reaches_leaver(s: DbView, c: ClientId, u: UserId, r: RoomId)
    requires
        s.wf(),
        s.is_member(u, r),
        s.bound(c) is Some,
        s.bound(c)->0.id == u,
    ensures
        ({
            let (t, out) = s.step_event(
                c,
                Event { channel: Channel::Room(r), user: u, event_type: EventType::Leave },
            );
            &&& out.len() == 1
            &&& out[0].to.contains(c)
            &&& out[0].to.no_duplicates()
            &&& out[0].message == ServerToClient::Response(
                Response::Event(
                    Event {
                        channel: Channel::Room(s.room_record(r)),
                        user: s.bound(c)->0,
                        event_type: EventType::Leave,
                    },
                ),
            )
            &&& t.has_user(u)
            &&& !t.is_member(u, r)
        }),
{
    s.lemma_indices();
    assert(s.has_room(r));
    s.lemma_bound_present(c);
    let k = s.user_index(u);
    lemma_room_audience(s.users, r);
    lemma_room_audience_members(s, r);
    assert(reaches(s.users, r, s.users[k].client_id));
    s.lemma_part_wf(u, r);
    let t = s.part(u, r);
    t.lemma_indices();
    crate::db::lemma_without(s.users[k].rooms, r);
    assert(t.users[k].id == u);
    assert(t.has_user(u));
}

/// Shutdown of a connection whose bound user is world-present takes that
/// user out of the world exactly as its World Leave would, and drops the
/// connection.
#[verifier::spinoff_prover]
#[verifier::rlimit(30)]
pub proof fn law_shutdown_leaves_world(s: DbView, c: ClientId)
    requires
        s.wf(),
        s.bound(c) is Some,
        s.has_user(s.bound(c)->0.id),
    ensures
        ({
            let u = s.bound(c)->0.id;
            let (t, out) = s.step_shutdown(c);
            &&& out == s.step_leave_world(u).1
            &&& t.users == s.step_leave_world(u).0.users
            &&& t.rooms == s.step_leave_world(u).0.rooms
            &&& !t.has_user(u)
            &&& !t.has_client(c)
        }),
{
    s.lemma_indices();
    s.lemma_bound_present(c);
    let u = s.bound(c)->0.id;
    law_leave_world_order(s, c, u);
    let i = s.client_index(c);
    let t = s.step_shutdown(c).0;
    s.lemma_shutdown_wf(c);
    if t.has_client(c) {
        let q = choose|q: int| 0 <= q < t.clients.len() && t.clients[q].id == c;
        let oq = if q < i { q } else { q + 1 };
        assert(t.clients[q] == s.clients[oq]);
    }
    assert(!t.has_user(u));
}

/// A World Enter (`true`) or Leave (`false`) by `u`.
pub open spec fn world_op(u: UserId, enter: bool) -> Event<UserId, RoomId> {
    Event {
        channel: Channel::World,
        user: u,
        event_type: if enter {
            EventType::Enter
        } else {
            EventType::Leave
        },
    }
}

/// Whether `d` is a broadcast on the world channel.
pub open spec fn is_world_broadcast(d: DispatchView) -> bool {
    match d.message {
        ServerToClient::Response(Response::Event(e)) => e.channel is World,
        _ => false,
    }
}

/// How many of `out` are broadcasts on the world channel.
pub open spec fn world_broadcasts(out: Seq<DispatchView>) -> nat
    decreases out.len(),
{
    if out.len() == 0 {
        0
    } else {
        world_broadcasts(out.drop_last()) + if is_world_broadcast(out.last()) {
            1nat
        } else {
            0nat
        }
    }
}

/// World Enter/Leave events of `u` from connection `c`, one after another
/// (`true` for Enter): the final state, how many Enters and how many Leaves
/// were accepted (not answered with an error), and how many world
/// broadcasts were sent.
pub open spec fn run_world(s: DbView, c: ClientId, u: UserId, ops: Seq<bool>) -> (DbView, int, int, nat)
    decreases ops.len(),
{
    if ops.len() == 0 {
        (s, 0, 0, 0)
    } else {
        let (t, enters, leaves, sent) = run_world(s, c, u, ops.drop_last());
        let (next, out) = t.step_event(c, world_op(u, ops.last()));
        let accepted = out != t.refuse(c).1;
        (
            next,
            enters + if ops.last() && accepted {
                1int
            } else {
                0int
            },
            leaves + if !ops.last() && accepted {
                1int
            } else {
                0int
            },
            sent + world_broadcasts(out),
        )
    }
}

proof fn lemma_no_world_broadcasts(out: Seq<DispatchView>)
    requires
        forall|i: int| 0 <= i < out.len() ==> !is_world_broadcast(#[trigger] out[i]),
    ensures
        world_broadcasts(out) == 0,
    decreases out.len(),
{
    if out.len() > 0 {
        let init = out.drop_last();
        assert forall|i: int| 0 <= i < init.len() implies !is_world_broadcast(#[trigger] init[i]) by {
            assert(init[i] == out[i]);
        }
        lemma_no_world_broadcasts(init);
    }
}

proof fn lemma_world_broadcasts_push(out: Seq<DispatchView>, d: DispatchView)
    ensures
        world_broadcasts(out.push(d)) == world_broadcasts(out) + if is_world_broadcast(d) {
            1nat
        } else {
            0nat
        },
{
    assert(out.push(d).drop_last() =~= out);
}

/// One World Enter or Leave by the user bound to `c`: accepted exactly when
/// it changes presence, with one world broadcast then and none otherwise.
#[verifier::spinoff_prover]
#[verifier::rlimit(30)]
proof fn lemma_world_step(t: DbView, c: ClientId, u: UserId, enter: bool)
    requires
        t.wf(),
        t.bound(c) matches Some(b) && b.id == u,
    ensures
        ({
            let (next, out) = t.step_event(c, world_op(u, enter));
            let accepted = out != t.refuse(c).1;
            &&& next.wf()
            &&& next.clients == t.clients
            &&& next.bound(c) == t.bound(c)
            &&& accepted <==> (enter != t.has_user(u))
            &&& accepted ==> next.has_user(u) == enter
            &&& !accepted ==> next == t
            &&& world_broadcasts(out) == if accepted {
                1nat
            } else {
                0nat
            }
        }),
{
    let (next, out) = t.step_event(c, world_op(u, enter));
    let refused = t.refuse(c).1;
    lemma_world_broadcasts_push(Seq::empty(), refused[0]);
    assert(seq![refused[0]] =~= Seq::<DispatchView>::empty().push(refused[0]));
    if enter {
        if !t.has_user(u) {
            let b = t.bound(c)->0;
            t.lemma_enter_world_wf(u, c, b.name);
            assert(out[0] != refused[0]);
            assert(next.users[t.users.len() as int].id == u);
            lemma_world_broadcasts_push(Seq::empty(), out[0]);
            assert(seq![out[0]] =~= Seq::<DispatchView>::empty().push(out[0]));
        }
    } else {
        if t.has_user(u) {
            t.lemma_leave_world_wf(u);
            law_leave_world_order(t, c, u);
            let k = t.user_index(u);
            let n = t.users[k].rooms.len();
            let init = out.drop_last();
            assert(out.len() == n + 1);
            assert(out =~= init.push(out.last()));
            lemma_world_broadcasts_push(init, out.last());
            assert forall|i: int| 0 <= i < init.len() implies !is_world_broadcast(#[trigger] init[i]) by {
                assert(init[i] == out[i]);
            }
            lemma_no_world_broadcasts(init);
            if out.len() == 1 {
                assert(out[0] != refused[0]);
            } else {
                assert(out.len() != refused.len());
            }
        }
    }
}

/// Whatever sequence of World Enter/Leave events the user bound to `c`
/// sends, it is world-present exactly when it was before plus the accepted
/// Enters minus the accepted Leaves (always 0 or 1), and each accepted
/// transition sent exactly one world broadcast.
pub proof fn law_world_presence_parity(s: DbView, c: ClientId, u: UserId, ops: Seq<bool>)
    requires
        s.wf(),
        s.bound(c) matches Some(b) && b.id == u,
    ensures
        ({
            let (t, enters, leaves, sent) = run_world(s, c, u, ops);
            let before: int = if s.has_user(u) {
                1
            } else {
                0
            };
            &&& t.wf()
            &&& t.bound(c) == s.bound(c)
            &&& (if t.has_user(u) {
                1int
            } else {
                0int
            }) == before + enters - leaves
            &&& 0 <= before + enters - leaves <= 1
            &&& sent == enters + leaves
        }),
    decreases ops.len(),
{
    if ops.len() > 0 {
        law_world_presence_parity(s, c, u, ops.drop_last());
        let (t, enters, leaves, sent) = run_world(s, c, u, ops.drop_last());
        lemma_world_step(t, c, u, ops.last());
    }
}

#[verifier::spinoff_prover]
#[verifier::rlimit(30)]
/// Every request keeps the state's invariant; so, among other things, at
/// most one room of each name ever exists.
#[verifier::spinoff_prover]
#[verifier::rlimit(30)]
pub proof fn law_request_keeps_invariant(
    s: DbView,
    c: ClientId,
    request: crate::protocol::Request,
    u: UserId,
    r: RoomId,
)
    requires
        s.wf(),
    ensures
        s.step_request(c, request, u, r).0.wf(),
{
    s.lemma_indices();
    match request {
        crate::protocol::Request::Connect(name) => s.lemma_connect_wf(c, name, u),
        crate::protocol::Request::CreateRoom(name) => s.lemma_create_room_wf(c, name, r),
        crate::protocol::Request::Event(e) => {
            match e.channel {
                Channel::World => match e.event_type {
                    EventType::Enter => {
                        if let Some(b) = s.bound(c) {
                            if b.id == e.user && !s.has_user(e.user) {
                                s.lemma_enter_world_wf(e.user, c, b.name);
                            }
                        }
                    },
                    EventType::Leave => if s.has_user(e.user) {
                        s.lemma_leave_world_wf(e.user);
                    },
                    _ => {},
                },
                Channel::Room(room) => match e.event_type {
                    EventType::Enter => if s.has_room(room) && s.has_user(e.user) {
                        s.lemma_join_wf(e.user, room);
                    },
                    EventType::Leave => if s.is_member(e.user, room) && s.has_room(room) {
                        s.lemma_part_wf(e.user, room);
                    },
                    _ => {},
                },
            }
        },
        crate::protocol::Request::Shutdown => s.lemma_shutdown_wf(c),
        _ => {},
    }
}

/// Accepting a connection keeps the state's invariant.
#[verifier::spinoff_prover]
#[verifier::rlimit(30)]
pub proof fn law_accept_keeps_invariant(s: DbView, c: ClientId)
    requires
        s.wf(),
    ensures
        s.step_accept(c) matches Some((t, _)) ==> t.wf(),
{
    s.lemma_accept_wf(c);
}

} // verus!
