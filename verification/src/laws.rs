//! Properties of the chat server that span requests or hold of every
//! request, proved over the specification of its operations.
use vstd::prelude::*;
use crate::assoc::{assoc_insert, has_key, lemma_insert, lookup};
use crate::protocol::{MsgView, ProtocolView, ResultType};
use crate::room::{broadcast_except, broadcast_to, RoomView};
use crate::server::{
    deny_reply, invite_run, members_of, lemma_room_wf, lemma_same_keys, new_room_name, register_key,
    spec_get_id, spec_handle_room, spec_manage_invite, spec_manage_join, spec_manage_room_text,
    spec_manage_room_users, spec_publish,
    spec_response_room, spec_suscribe, ServerView,
};
use crate::session::{authed, spec_step, SessionView};
use crate::text::{is_ws, lemma_remove_absent_char, lemma_trim_trimmed, trim};

verus! {

/// Identifying with a free name registers it, with status `AWAY` and the
/// connection's channel, and sends nothing.
pub proof fn law_identify_registers(s: ServerView, m: MsgView, c: u64)
    requires
        s.wf(),
        !s.registered(register_key(m)),
    ensures
        ({
            let (s1, out) = spec_suscribe(s, m, c);
            &&& s1.registered(register_key(m))
            &&& s1.channel(register_key(m)) == c
            &&& has_key(s1.users, register_key(m))
            &&& lookup(s1.users, register_key(m)) == "AWAY"@
            &&& out.len() == 0
        }),
{
    lemma_insert(s.suscribers, register_key(m), c);
    lemma_insert(s.users, register_key(m), "AWAY"@);
}

/// A name is registered at most once: once a connection has identified
/// with a name, another `IDENTIFY` under that name is refused on its own
/// channel and changes nothing.
pub proof fn law_identify_twice_refused(s: ServerView, m1: MsgView, c1: u64, m2: MsgView, c2: u64)
    requires
        s.wf(),
        register_key(m1) == register_key(m2),
    ensures
        ({
            let s1 = spec_suscribe(s, m1, c1).0;
            spec_suscribe(s1, m2, c2) == (s1, seq![(c2, deny_reply(m2))])
        }),
{
    lemma_insert(s.suscribers, register_key(m1), c1);
}

/// Creating a room with a free name makes the creator its member (on the
/// creator's channel) and invited to it, and answers `SUCCESS`.
pub proof fn law_new_room_has_creator(s: ServerView, auth: Seq<char>, m: MsgView, c: u64)
    requires
        s.wf(),
        !s.has_room(new_room_name(m)),
    ensures
        ({
            let (s1, reply) = spec_response_room(s, auth, m, c);
            let name = new_room_name(m);
            &&& s1.has_room(name)
            &&& s1.room(name).in_room(s.session_user(auth))
            &&& lookup(s1.room(name).room_users, s.session_user(auth)) == c
            &&& s1.room(name).invited_into(s.session_user(auth), name)
            &&& reply == (ProtocolView::RESPONSE {
                operation: "NEW_ROOM"@,
                result: ResultType::SUCCESS,
                extra: name,
            })
        }),
{
    let name = new_room_name(m);
    let u = s.session_user(auth);
    let r = RoomView { room_users: seq![(u, c)], invitations: seq![(u, name)] };
    lemma_insert(s.current_rooms, name, r);
    assert(r.room_users[0].0 == u);
    assert(r.invitations[0].0 == u);
    crate::assoc::lemma_key_at(r.room_users, 0);
    crate::assoc::lemma_key_at(r.invitations, 0);
}

/// A room name is taken once a room has it: creating a room under a name
/// in use is refused with `ROOM_ALREADY_EXISTS` and changes nothing.
pub proof fn law_room_name_taken(
    s: ServerView,
    auth1: Seq<char>,
    m1: MsgView,
    c1: u64,
    auth2: Seq<char>,
    m2: MsgView,
    c2: u64,
)
    requires
        s.wf(),
        new_room_name(m1) == new_room_name(m2),
    ensures
        ({
            let s1 = spec_response_room(s, auth1, m1, c1).0;
            spec_response_room(s1, auth2, m2, c2) == (
                s1,
                ProtocolView::RESPONSE {
                    operation: "NEW_ROOM"@,
                    result: ResultType::ROOM_ALREADY_EXISTS,
                    extra: new_room_name(m2),
                },
            )
        }),
{
    let name = new_room_name(m1);
    let u = s.session_user(auth1);
    let r = RoomView { room_users: seq![(u, c1)], invitations: seq![(u, name)] };
    lemma_insert(s.current_rooms, name, r);
}

/// A user invited into an existing room can then join it: the join
/// answers `SUCCESS` on the user's channel, and the user is a member.
pub proof fn law_invited_user_can_join(
    s: ServerView,
    room_name: Seq<char>,
    inviter: Seq<char>,
    u: Seq<char>,
)
    requires
        s.wf(),
        s.has_room(room_name),
        s.registered(inviter),
        s.registered(u),
    ensures
        ({
            let s1 = spec_manage_invite(s, room_name, inviter, seq![u]).0;
            let (s2, out) = spec_manage_join(s1, u, room_name);
            &&& s2.has_room(room_name)
            &&& s2.room(room_name).in_room(u)
            &&& out.len() >= 1
            &&& out[0] == (
                s.channel(u),
                ProtocolView::RESPONSE {
                    operation: "JOIN_ROOM"@,
                    result: ResultType::SUCCESS,
                    extra: room_name,
                },
            )
        }),
{
    let r = s.room(room_name);
    lemma_room_wf(s, room_name);
    let users = seq![u];
    assert(users.drop_last() =~= Seq::<Seq<char>>::empty());
    assert(users.last() == u);
    let run = invite_run(s, s.channel(inviter), inviter, room_name, users, r.invitations);
    assert(invite_run(s, s.channel(inviter), inviter, room_name, users.drop_last(), r.invitations)
        == (Seq::<(u64, ProtocolView)>::empty(), r.invitations));
    assert(run.1 == assoc_insert(r.invitations, u, room_name));
    lemma_insert(r.invitations, u, room_name);
    let r1 = RoomView { invitations: run.1, ..r };
    lemma_insert(s.current_rooms, room_name, r1);
    let s1 = s.with_room(room_name, r1);
    assert(s1.room(room_name) == r1);
    assert(r1.invited_into(u, room_name));
    let r2 = r1.with_user(u, s1.channel(u));
    lemma_insert(s1.current_rooms, room_name, r2);
    if !has_key(r1.room_users, u) {
        assert(r2.room_users[r1.room_users.len() as int].0 == u);
    }
}

/// Only invited users join: when joining makes a user a member of a room it
/// was not a member of, the user held an invitation to that room.
pub proof fn law_join_needs_invitation(s: ServerView, u: Seq<char>, room_name: Seq<char>)
    requires
        s.wf(),
        s.has_room(room_name),
        !s.room(room_name).in_room(u),
    ensures
        ({
            let s2 = spec_manage_join(s, u, room_name).0;
            s2.has_room(room_name) && s2.room(room_name).in_room(u) ==> s.room(room_name).invited_into(
                u,
                room_name,
            )
        }),
{
    let r = s.room(room_name);
    if r.invited_into(u, room_name) {
    } else {
        assert(spec_manage_join(s, u, room_name).0 == s);
    }
}

/// The deliveries `out` are `msg` for the members other than `without`:
/// each goes to the channel of such a member, and each such member gets one.
pub open spec fn reaches_others(
    out: Seq<(u64, ProtocolView)>,
    members: Seq<(Seq<char>, u64)>,
    msg: ProtocolView,
    without: Seq<char>,
) -> bool {
    &&& forall|i: int|
        0 <= i < out.len() ==> exists|j: int|
            0 <= j < members.len() && members[j].0 != without && #[trigger] out[i] == (
                members[j].1,
                msg,
            )
    &&& forall|j: int|
        0 <= j < members.len() && (#[trigger] members[j]).0 != without ==> exists|i: int|
            0 <= i < out.len() && out[i] == (members[j].1, msg)
}

/// The deliveries of `broadcast_except` go exactly to the members other
/// than `without`.
#[verifier::spinoff_prover]
pub proof fn lemma_broadcast_except(
    members: Seq<(Seq<char>, u64)>,
    msg: ProtocolView,
    without: Seq<char>,
)
    ensures
        reaches_others(broadcast_except(members, msg, without), members, msg, without),
    decreases members.len(),
{
    if members.len() > 0 {
        let prev = members.drop_last();
        lemma_broadcast_except(prev, msg, without);
        let out = broadcast_except(members, msg, without);
        let rest = broadcast_except(prev, msg, without);
        assert forall|i: int| 0 <= i < out.len() implies exists|j: int|
            0 <= j < members.len() && members[j].0 != without && #[trigger] out[i] == (
                members[j].1,
                msg,
            ) by {
            if i < rest.len() {
                let j = choose|j: int|
                    0 <= j < prev.len() && prev[j].0 != without && #[trigger] rest[i] == (
                        prev[j].1,
                        msg,
                    );
                assert(members[j] == prev[j]);
            } else {
                assert(members[members.len() - 1] == members.last());
            }
        }
        assert forall|j: int| 0 <= j < members.len() && (#[trigger] members[j]).0 != without implies exists|i: int|
            0 <= i < out.len() && out[i] == (members[j].1, msg) by {
            if j < prev.len() {
                assert(members[j] == prev[j]);
                assert(prev[j].0 != without);
                let i = choose|i: int| 0 <= i < rest.len() && rest[i] == (prev[j].1, msg);
                assert(out[i] == rest[i]);
            } else {
                assert(out[rest.len() as int] == (members.last().1, msg));
            }
        }
    } else {
        assert(broadcast_except(members, msg, without).len() == 0);
    }
}

/// A member's room text reaches every other member of the room and no one
/// else: each delivery goes to the channel of a member other than the
/// author, and every other member gets exactly one.
pub proof fn law_room_text_reaches_members(
    s: ServerView,
    u: Seq<char>,
    room_name: Seq<char>,
    text: Seq<char>,
)
    requires
        s.wf(),
        s.has_room(room_name),
        s.room(room_name).in_room(u),
    ensures
        reaches_others(
            spec_manage_room_text(s, u, room_name, text),
            s.room(room_name).room_users,
            ProtocolView::ROOM_TEXT_FROM { roomname: room_name, username: u, text: trim(text) },
            u,
        ),
        spec_manage_room_text(s, u, room_name, text).len() == count_others(
            s.room(room_name).room_users,
            u,
        ),
{
    let members = s.room(room_name).room_users;
    let msg = ProtocolView::ROOM_TEXT_FROM { roomname: room_name, username: u, text: trim(text) };
    lemma_broadcast_except(members, msg, u);
    lemma_broadcast_except_len(members, msg, u);
    assert(spec_manage_room_text(s, u, room_name, text) == broadcast_except(members, msg, u));
}

/// A private text to a user with a status goes to that user's channel
/// alone, as the text from the sender's user; a private text to any other
/// name is answered `NO_SUCH_USER` on the sender's channel alone. Nothing
/// changes either way.
pub proof fn law_private_text(s: ServerView, auth: Seq<char>, to: Seq<char>, text: Seq<char>, c: u64)
    requires
        s.wf(),
    ensures
        spec_publish(s, auth, MsgView::TEXT { username: to, text }, c) == (
            s,
            if s.registered(to) {
                seq![
                    (
                        s.channel(to),
                        ProtocolView::TEXT_FROM { username: s.session_user(auth), text },
                    ),
                ]
            } else {
                seq![
                    (
                        c,
                        ProtocolView::RESPONSE {
                            operation: "TEXT"@,
                            result: ResultType::NO_SUCH_USER,
                            extra: to,
                        },
                    ),
                ]
            },
        ),
{
    lemma_same_keys(s.users, s.suscribers, to);
}

/// Serving a request never changes who is registered, their channels and
/// statuses, or the sessions: only rooms change.
pub proof fn law_publish_keeps_users(s: ServerView, auth: Seq<char>, m: MsgView, c: u64)
    ensures
        ({
            let s2 = spec_publish(s, auth, m, c).0;
            &&& s2.users == s.users
            &&& s2.suscribers == s.suscribers
            &&& s2.current_users == s.current_users
        }),
{
}

/// A connection's session is bound to the user it identified as: after the
/// first request (an `IDENTIFY`) and any second request, the connection's
/// session key names the identified user.
pub proof fn law_session_binds_identity(s: ServerView, ss: SessionView, m1: MsgView, m2: MsgView)
    requires
        s.wf(),
        !ss.suscribe,
        !ss.has_auth,
    ensures
        ({
            let (s1, ss1, _) = spec_step(s, ss, m1);
            let (s2, ss2, _) = spec_step(s1, ss1, m2);
            &&& ss2.has_auth
            &&& s2.has_session(ss.auth)
            &&& s2.session_user(ss.auth) == spec_get_id(m1)
        }),
{
    let (s1, ss1, _) = spec_step(s, ss, m1);
    let a = authed(s1, ss1);
    lemma_insert(s1.current_users, ss.auth, spec_get_id(m1));
    law_publish_keeps_users(a, ss.auth, m2, ss.conn);
}

/// A public text goes to every registered user once, in registration
/// order, as the text from the sender's user, whatever words it holds.
pub proof fn law_public_text_reaches_everyone(s: ServerView, auth: Seq<char>, text: Seq<char>, c: u64)
    ensures
        ({
            let (s2, out) = spec_publish(s, auth, MsgView::PUBLIC_TEXT { text }, c);
            &&& s2 == s
            &&& out.len() == s.suscribers.len()
            &&& forall|i: int|
                0 <= i < out.len() ==> #[trigger] out[i] == (
                    s.suscribers[i].1,
                    ProtocolView::PUBLIC_TEXT_FROM { username: s.session_user(auth), text },
                )
        }),
{
}

/// The user list names exactly the registered users, each with its status.
pub proof fn law_user_list_names_registered(s: ServerView, auth: Seq<char>, c: u64, name: Seq<char>)
    requires
        s.wf(),
    ensures
        spec_publish(s, auth, MsgView::USERS, c) == (
            s,
            seq![(c, ProtocolView::USER_LIST { users: s.users })],
        ),
        has_key(s.users, name) == s.registered(name),
{
    lemma_same_keys(s.users, s.suscribers, name);
}

/// The answer to the `i`-th name of an invitation: the invitation from
/// `inviter` on the channel of a registered user, `NO_SUCH_USER` on the
/// inviter's channel `sender` for any other name.
pub open spec fn invite_answer(
    s: ServerView,
    sender: u64,
    inviter: Seq<char>,
    room_name: Seq<char>,
    u: Seq<char>,
) -> (u64, ProtocolView) {
    if s.registered(u) {
        (s.channel(u), ProtocolView::INVITATION { username: inviter, roomname: room_name })
    } else {
        (sender, ProtocolView::RESPONSE { operation: "INVITE"@, result: ResultType::NO_SUCH_USER, extra: u })
    }
}

/// Each name of an invitation gets its own answer, in order, and every
/// registered name, and no other, is invited into the room.
pub proof fn lemma_invite_run(
    s: ServerView,
    sender: u64,
    inviter: Seq<char>,
    room_name: Seq<char>,
    users: Seq<Seq<char>>,
    inv: Seq<(Seq<char>, Seq<char>)>,
)
    requires
        crate::assoc::distinct_keys(inv),
    ensures
        ({
            let (out, inv2) = invite_run(s, sender, inviter, room_name, users, inv);
            &&& out.len() == users.len()
            &&& forall|i: int|
                0 <= i < users.len() ==> #[trigger] out[i] == invite_answer(
                    s,
                    sender,
                    inviter,
                    room_name,
                    users[i],
                )
            &&& crate::assoc::distinct_keys(inv2)
            &&& forall|k: Seq<char>|
                #[trigger] has_key(inv2, k) == (has_key(inv, k) || (users.contains(k)
                    && s.registered(k)))
        }),
    decreases users.len(),
{
    if users.len() > 0 {
        let prev = users.drop_last();
        lemma_invite_run(s, sender, inviter, room_name, prev, inv);
        let (out, inv1) = invite_run(s, sender, inviter, room_name, prev, inv);
        let u = users.last();
        let (out2, inv2) = invite_run(s, sender, inviter, room_name, users, inv);
        assert forall|i: int| 0 <= i < users.len() implies #[trigger] out2[i] == invite_answer(
            s,
            sender,
            inviter,
            room_name,
            users[i],
        ) by {
            if i < prev.len() {
                assert(out2[i] == out[i]);
                assert(users[i] == prev[i]);
            }
        }
        if s.registered(u) {
            lemma_insert(inv1, u, room_name);
        }
        assert forall|k: Seq<char>| #[trigger] has_key(inv2, k) == (has_key(inv, k) || (users.contains(k)
            && s.registered(k))) by {
            assert(has_key(inv1, k) == (has_key(inv, k) || (prev.contains(k) && s.registered(k))));
            assert(users.contains(k) == (prev.contains(k) || k == u)) by {
                if users.contains(k) {
                    let i = choose|i: int| 0 <= i < users.len() && users[i] == k;
                    if i < prev.len() {
                        assert(prev[i] == k);
                    }
                }
                if prev.contains(k) {
                    let i = choose|i: int| 0 <= i < prev.len() && prev[i] == k;
                    assert(users[i] == k);
                }
                if k == u {
                    assert(users[users.len() - 1] == u);
                }
            }
        }
    }
}

/// An invitation into an existing room answers each name in order: every
/// registered user gets the invitation from the inviter on its own channel
/// and becomes invited into the room; every other name is answered
/// `NO_SUCH_USER` on the inviter's channel.
pub proof fn law_invite_reaches_each_user(
    s: ServerView,
    room_name: Seq<char>,
    inviter: Seq<char>,
    usernames: Seq<Seq<char>>,
)
    requires
        s.wf(),
        s.has_room(room_name),
    ensures
        ({
            let (s1, out) = spec_manage_invite(s, room_name, inviter, usernames);
            &&& out.len() == usernames.len()
            &&& forall|i: int|
                0 <= i < usernames.len() ==> #[trigger] out[i] == invite_answer(
                    s,
                    s.channel(inviter),
                    inviter,
                    room_name,
                    usernames[i],
                )
            &&& s1.has_room(room_name)
            &&& forall|k: Seq<char>|
                usernames.contains(k) && s.registered(k) ==> #[trigger] s1.room(
                    room_name,
                ).invited_into(k, room_name)
        }),
{
    let r = s.room(room_name);
    lemma_room_wf(s, room_name);
    lemma_invite_run(s, s.channel(inviter), inviter, room_name, usernames, r.invitations);
    let (out, inv) = invite_run(s, s.channel(inviter), inviter, room_name, usernames, r.invitations);
    let r1 = RoomView { invitations: inv, ..r };
    lemma_insert(s.current_rooms, room_name, r1);
    assert forall|k: Seq<char>| usernames.contains(k) && s.registered(k) implies #[trigger] spec_manage_invite(
        s,
        room_name,
        inviter,
        usernames,
    ).0.room(room_name).invited_into(k, room_name) by {
        assert(has_key(inv, k));
        lemma_invite_lookup(s, s.channel(inviter), inviter, room_name, usernames, r.invitations, k);
    }
}

/// A registered name of an invitation is invited into the room named.
pub proof fn lemma_invite_lookup(
    s: ServerView,
    sender: u64,
    inviter: Seq<char>,
    room_name: Seq<char>,
    users: Seq<Seq<char>>,
    inv: Seq<(Seq<char>, Seq<char>)>,
    k: Seq<char>,
)
    requires
        crate::assoc::distinct_keys(inv),
        users.contains(k),
        s.registered(k),
    ensures
        has_key(invite_run(s, sender, inviter, room_name, users, inv).1, k),
        lookup(invite_run(s, sender, inviter, room_name, users, inv).1, k) == room_name,
    decreases users.len(),
{
    let prev = users.drop_last();
    let u = users.last();
    lemma_invite_run(s, sender, inviter, room_name, prev, inv);
    let inv1 = invite_run(s, sender, inviter, room_name, prev, inv).1;
    if k == u {
        lemma_insert(inv1, u, room_name);
    } else {
        let i = choose|i: int| 0 <= i < users.len() && users[i] == k;
        assert(i < prev.len());
        assert(prev[i] == k);
        lemma_invite_lookup(s, sender, inviter, room_name, prev, inv, k);
        if s.registered(u) {
            lemma_insert(inv1, u, room_name);
        }
    }
}

/// The users listed for a room are the members that have a status, each
/// with that status: every listed pair is an entry of the user table whose
/// name is a member, and every such entry is listed.
pub proof fn law_room_list_is_members(users: Seq<(Seq<char>, Seq<char>)>, r: RoomView)
    ensures
        forall|i: int|
            0 <= i < members_of(users, r).len() ==> r.in_room((#[trigger] members_of(users, r)[i]).0)
                && users.contains(members_of(users, r)[i]),
        forall|j: int|
            0 <= j < users.len() && r.in_room((#[trigger] users[j]).0) ==> members_of(
                users,
                r,
            ).contains(users[j]),
    decreases users.len(),
{
    if users.len() > 0 {
        let prev = users.drop_last();
        law_room_list_is_members(prev, r);
        let m = members_of(users, r);
        let mp = members_of(prev, r);
        assert forall|i: int| 0 <= i < m.len() implies r.in_room((#[trigger] m[i]).0) && users.contains(m[i]) by {
            if i < mp.len() {
                assert(m[i] == mp[i]);
                let k = choose|k: int| 0 <= k < prev.len() && prev[k] == mp[i];
                assert(users[k] == prev[k]);
            } else {
                assert(m[i] == users.last());
                assert(users[users.len() - 1] == users.last());
            }
        }
        assert forall|j: int| 0 <= j < users.len() && r.in_room((#[trigger] users[j]).0) implies m.contains(users[j]) by {
            if j < prev.len() {
                assert(users[j] == prev[j]);
                assert(r.in_room(prev[j].0));
                assert(mp.contains(prev[j]));
                let k = choose|k: int| 0 <= k < mp.len() && mp[k] == prev[j];
                assert(m[k] == mp[k]);
            } else {
                assert(m[mp.len() as int] == users.last());
            }
        }
    }
}

/// A refused join changes nothing and is answered on the user's own
/// channel: `NO_SUCH_ROOM` for a missing room, `NOT_INVITED` for a user
/// without an invitation to it.
pub proof fn law_refused_join_changes_nothing(s: ServerView, u: Seq<char>, room_name: Seq<char>)
    requires
        !(s.has_room(room_name) && s.room(room_name).invited_into(u, room_name)),
    ensures
        spec_manage_join(s, u, room_name) == (
            s,
            seq![
                (
                    s.channel(u),
                    ProtocolView::RESPONSE {
                        operation: "JOIN_ROOM"@,
                        result: if s.has_room(room_name) {
                            ResultType::NOT_INVITED
                        } else {
                            ResultType::NO_SUCH_ROOM
                        },
                        extra: room_name,
                    },
                ),
            ],
        ),
{
}

/// Inviting into a missing room changes nothing and is answered
/// `NO_SUCH_ROOM` on the inviter's channel.
pub proof fn law_invite_to_missing_room(
    s: ServerView,
    room_name: Seq<char>,
    inviter: Seq<char>,
    usernames: Seq<Seq<char>>,
)
    requires
        !s.has_room(room_name),
    ensures
        spec_manage_invite(s, room_name, inviter, usernames) == (
            s,
            seq![
                (
                    s.channel(inviter),
                    ProtocolView::RESPONSE {
                        operation: "INVITE"@,
                        result: ResultType::NO_SUCH_ROOM,
                        extra: room_name,
                    },
                ),
            ],
        ),
{
}

/// What a connection leaves after taking the requests `ms` in order, from
/// the server `s` and the connection `ss`: the server, the connection, and
/// every answer sent, in the order sent.
pub open spec fn run_connection(s: ServerView, ss: SessionView, ms: Seq<MsgView>) -> (
    ServerView,
    SessionView,
    Seq<(u64, ProtocolView)>,
)
    decreases ms.len(),
{
    if ms.len() == 0 {
        (s, ss, Seq::empty())
    } else {
        let (s1, ss1, d1) = run_connection(s, ss, ms.drop_last());
        let (s2, ss2, d2) = spec_step(s1, ss1, ms.last());
        (s2, ss2, d1 + d2)
    }
}

/// The requests `ms` published in order under the session key `auth`, with
/// answers for the sender on channel `c`: the server after the last, and
/// every answer sent, in the order sent.
pub open spec fn publish_all(s: ServerView, auth: Seq<char>, ms: Seq<MsgView>, c: u64) -> (
    ServerView,
    Seq<(u64, ProtocolView)>,
)
    decreases ms.len(),
{
    if ms.len() == 0 {
        (s, Seq::empty())
    } else {
        let (s1, d1) = publish_all(s, auth, ms.drop_last(), c);
        let (s2, d2) = spec_publish(s1, auth, ms.last(), c);
        (s2, d1 + d2)
    }
}

/// Publishing requests one after another leaves the registered users and
/// the bound session keys as they were.
pub proof fn lemma_publish_all_keeps_users(s: ServerView, auth: Seq<char>, ms: Seq<MsgView>, c: u64)
    ensures
        publish_all(s, auth, ms, c).0.users == s.users,
        publish_all(s, auth, ms, c).0.suscribers == s.suscribers,
        publish_all(s, auth, ms, c).0.current_users == s.current_users,
    decreases ms.len(),
{
    if ms.len() > 0 {
        lemma_publish_all_keeps_users(s, auth, ms.drop_last(), c);
        law_publish_keeps_users(publish_all(s, auth, ms.drop_last(), c).0, auth, ms.last(), c);
    }
}

/// Over a whole connection, whatever requests it sends: the first request
/// identifies (registering the user, or being refused) and is announced as
/// a new user to every registered user; before the second request is served
/// the connection's session key is bound to the identified user, once, and
/// no later request changes that binding; and every request after the first
/// is published in order under the session key, its answers following those
/// of the requests before it.
pub proof fn law_connection_sequence(s: ServerView, ss: SessionView, ms: Seq<MsgView>)
    requires
        s.wf(),
        !ss.suscribe,
        !ss.has_auth,
        ms.len() >= 1,
    ensures
        ({
            let (s1, d1) = spec_suscribe(s, ms[0], ss.conn);
            let announce = broadcast_to(
                s1.suscribers,
                ProtocolView::NEW_USER { username: spec_get_id(ms[0]) },
            );
            let first = SessionView { suscribe: true, first: Some(ms[0]), ..ss };
            let bound = ServerView {
                current_users: assoc_insert(s1.current_users, ss.auth, spec_get_id(ms[0])),
                ..s1
            };
            let (s3, d) = publish_all(bound, ss.auth, ms.skip(1), ss.conn);
            let (sf, ssf, out) = run_connection(s, ss, ms);
            &&& ms.len() == 1 ==> run_connection(s, ss, ms) == (s1, first, d1 + announce)
            &&& ms.len() > 1 ==> run_connection(s, ss, ms) == (
                s3,
                SessionView { has_auth: true, ..first },
                d1 + announce + d,
            )
            &&& ms.len() > 1 ==> sf.current_users == bound.current_users
            &&& ms.len() > 1 ==> sf.has_session(ss.auth)
            &&& ms.len() > 1 ==> sf.session_user(ss.auth) == spec_get_id(ms[0])
        }),
    decreases ms.len(),
{
    let (s1, d1) = spec_suscribe(s, ms[0], ss.conn);
    let announce = broadcast_to(s1.suscribers, ProtocolView::NEW_USER { username: spec_get_id(ms[0]) });
    let first = SessionView { suscribe: true, first: Some(ms[0]), ..ss };
    let bound = ServerView {
        current_users: assoc_insert(s1.current_users, ss.auth, spec_get_id(ms[0])),
        ..s1
    };
    if ms.len() == 1 {
        assert(ms.drop_last() =~= Seq::<MsgView>::empty());
        assert(run_connection(s, ss, ms.drop_last()) == (s, ss, Seq::<(u64, ProtocolView)>::empty()));
        assert(ms.last() == ms[0]);
        assert(spec_step(s, ss, ms[0]).0 == s1);
        assert(Seq::<(u64, ProtocolView)>::empty() + (d1 + announce) =~= d1 + announce);
    } else {
        let prev = ms.drop_last();
        law_connection_sequence(s, ss, prev);
        assert(prev[0] == ms[0]);
        assert(ms.skip(1).drop_last() =~= prev.skip(1));
        assert(ms.skip(1).last() == ms.last());
        let (p3, pd) = publish_all(bound, ss.auth, prev.skip(1), ss.conn);
        let (s3, d) = publish_all(bound, ss.auth, ms.skip(1), ss.conn);
        let d4 = spec_publish(p3, ss.auth, ms.last(), ss.conn).1;
        assert(authed(s1, first) == bound);
        if prev.len() == 1 {
            assert(prev.skip(1) =~= Seq::<MsgView>::empty());
            assert(d =~= Seq::<(u64, ProtocolView)>::empty() + d4);
            assert((d1 + announce) + d4 =~= d1 + announce + d);
        } else {
            assert(d == pd + d4);
            assert((d1 + announce + pd) + d4 =~= d1 + announce + d);
        }
        lemma_publish_all_keeps_users(bound, ss.auth, ms.skip(1), ss.conn);
        lemma_insert(s1.current_users, ss.auth, spec_get_id(ms[0]));
    }
}

/// A room request of a known session is served as the room operation it
/// names, on behalf of the user bound to the session key: an invitation as
/// `manage_invite`, a join as `manage_join`, a member list as
/// `manage_room_users` and a room text as `manage_room_text`, each with the
/// server change and the answers of that operation; any other request
/// changes nothing and is answered by nothing.
pub proof fn law_room_dispatch(s: ServerView, auth: Seq<char>, m: MsgView)
    requires
        s.has_session(auth),
    ensures
        ({
            let u = s.session_user(auth);
            spec_handle_room(s, m, u) == (match m {
                MsgView::INVITE { roomname, usernames } => spec_manage_invite(s, roomname, u, usernames),
                MsgView::JOIN_ROOM { roomname } => spec_manage_join(s, u, roomname),
                MsgView::ROOM_USERS { roomname } => (s, spec_manage_room_users(s, u, roomname)),
                MsgView::ROOM_TEXT { roomname, text } => (s, spec_manage_room_text(s, u, roomname, text)),
                _ => (s, Seq::<(u64, ProtocolView)>::empty()),
            })
        }),
{
    let u = s.session_user(auth);
    if !(m is INVITE || m is JOIN_ROOM || m is ROOM_USERS || m is ROOM_TEXT) {
        assert(spec_handle_room(s, m, u).1 =~= Seq::<(u64, ProtocolView)>::empty());
    }
}

/// A name with no whitespace at either end and no line feed is registered
/// as it is written: identifying with it, when it is free, makes that very
/// name registered with status `AWAY` on the connection's channel (so a
/// session bound to the identifying user is a registered user); when it is
/// taken, the request is refused on the connection's channel and nothing
/// changes. No other name is registered or unregistered by it.
pub proof fn law_identify_registers_name(s: ServerView, u: Seq<char>, c: u64, v: Seq<char>)
    requires
        s.wf(),
        u.len() == 0 || (!is_ws(u[0]) && !is_ws(u.last())),
        forall|i: int| 0 <= i < u.len() ==> u[i] != '\n',
    ensures
        ({
            let m = MsgView::IDENTIFY { username: u };
            let (s1, out) = spec_suscribe(s, m, c);
            &&& !s.registered(u) ==> {
                &&& s1.registered(u)
                &&& s1.channel(u) == c
                &&& has_key(s1.users, u)
                &&& lookup(s1.users, u) == "AWAY"@
                &&& out.len() == 0
            }
            &&& s.registered(u) ==> s1 == s && out == seq![
                (
                    c,
                    ProtocolView::RESPONSE {
                        operation: "IDENTIFY"@,
                        result: ResultType::USER_ALREADY_EXISTS,
                        extra: u,
                    },
                ),
            ]
            &&& v != u ==> s1.registered(v) == s.registered(v)
            &&& s1.registered(spec_get_id(m))
        }),
{
    let m = MsgView::IDENTIFY { username: u };
    lemma_trim_trimmed(u);
    reveal_strlit("\n");
    assert("\n"@ =~= seq!['\n']);
    lemma_remove_absent_char(u, '\n');
    assert(register_key(m) == u);
    lemma_insert(s.suscribers, u, c);
    lemma_insert(s.users, u, "AWAY"@);
}

/// A member asking for the users of an existing room gets one answer, on
/// the member's own channel: the room's user list, naming the room, whose
/// entries are exactly the entries of the user table (name and status)
/// whose name is a member of the room. A registered user who has not joined
/// is never listed.
pub proof fn law_room_users_lists_members(s: ServerView, u: Seq<char>, r: Seq<char>)
    requires
        s.has_room(r),
        s.room(r).in_room(u),
    ensures
        ({
            let out = spec_manage_room_users(s, u, r);
            &&& out.len() == 1
            &&& out[0].0 == s.channel(u)
            &&& out[0].1 is ROOM_USER_LIST
            &&& out[0].1->ROOM_USER_LIST_roomname == r
            &&& forall|i: int|
                0 <= i < out[0].1->ROOM_USER_LIST_users.len() ==> {
                    let e = #[trigger] out[0].1->ROOM_USER_LIST_users[i];
                    s.room(r).in_room(e.0) && s.users.contains(e)
                }
            &&& forall|j: int|
                0 <= j < s.users.len() && s.room(r).in_room((#[trigger] s.users[j]).0)
                    ==> out[0].1->ROOM_USER_LIST_users.contains(s.users[j])
        }),
{
    law_room_list_is_members(s.users, s.room(r));
}

/// How many members are not `without`.
pub open spec fn count_others(members: Seq<(Seq<char>, u64)>, without: Seq<char>) -> nat
    decreases members.len(),
{
    if members.len() == 0 {
        0
    } else {
        count_others(members.drop_last(), without) + if members.last().0 != without {
            1nat
        } else {
            0nat
        }
    }
}

/// `broadcast_except` sends one message per member other than `without`.
proof fn lemma_broadcast_except_len(
    members: Seq<(Seq<char>, u64)>,
    msg: ProtocolView,
    without: Seq<char>,
)
    ensures
        broadcast_except(members, msg, without).len() == count_others(members, without),
    decreases members.len(),
{
    if members.len() > 0 {
        lemma_broadcast_except_len(members.drop_last(), msg, without);
    }
}

/// An invited user joining a room becomes a member of it (the other members
/// stay as they were) and gets `SUCCESS` on the user's own channel; then
/// every other member of the room, and no one else, is told once that the
/// user joined.
pub proof fn law_join_announces_to_members(s: ServerView, u: Seq<char>, r: Seq<char>, n: Seq<char>)
    requires
        s.wf(),
        s.has_room(r),
        s.room(r).invited_into(u, r),
    ensures
        ({
            let (s2, out) = spec_manage_join(s, u, r);
            let members = s2.room(r).room_users;
            let msg = ProtocolView::JOINED_ROOM { roomname: r, username: u };
            &&& s2.has_room(r)
            &&& s2.room(r).in_room(u)
            &&& n != u ==> s2.room(r).in_room(n) == s.room(r).in_room(n)
            &&& out.len() == 1 + count_others(members, u)
            &&& out[0] == (
                s.channel(u),
                ProtocolView::RESPONSE {
                    operation: "JOIN_ROOM"@,
                    result: ResultType::SUCCESS,
                    extra: r,
                },
            )
            &&& reaches_others(out.skip(1), members, msg, u)
        }),
{
    let r0 = s.room(r);
    let r2 = r0.with_user(u, s.channel(u));
    let msg = ProtocolView::JOINED_ROOM { roomname: r, username: u };
    lemma_insert(s.current_rooms, r, r2);
    let (s2, out) = spec_manage_join(s, u, r);
    assert(s2.room(r) == r2);
    if !has_key(r0.room_users, u) {
        let ru = r0.room_users;
        let pu = ru.push((u, s.channel(u)));
        assert(pu[ru.len() as int].0 == u);
        if n != u {
            if has_key(ru, n) {
                let k = choose|k: int| 0 <= k < ru.len() && (#[trigger] ru[k]).0 == n;
                assert(pu[k] == ru[k]);
            }
            if has_key(pu, n) {
                let k = choose|k: int| 0 <= k < pu.len() && (#[trigger] pu[k]).0 == n;
                assert(k < ru.len());
                assert(pu[k] == ru[k]);
            }
        }
    }
    let b = broadcast_except(r2.room_users, msg, u);
    lemma_broadcast_except(r2.room_users, msg, u);
    lemma_broadcast_except_len(r2.room_users, msg, u);
    assert(out.skip(1) =~= b);
}

/// A new user is announced to every registered user, the new one included,
/// once each and in registration order, on that user's channel.
pub proof fn law_new_user_announced(s: ServerView, u: Seq<char>)
    ensures
        ({
            let out = broadcast_to(s.suscribers, ProtocolView::NEW_USER { username: u });
            &&& out.len() == s.suscribers.len()
            &&& forall|i: int|
                0 <= i < out.len() ==> #[trigger] out[i] == (
                    s.suscribers[i].1,
                    ProtocolView::NEW_USER { username: u },
                )
        }),
{
}

/// Asking for the users of a room one is not a member of is refused on
/// one's own channel: `NO_SUCH_ROOM` when there is no such room,
/// `NOT_JOINED` otherwise. Room texts are refused the same way.
pub proof fn law_room_requests_of_outsiders(s: ServerView, u: Seq<char>, r: Seq<char>, text: Seq<char>)
    requires
        !(s.has_room(r) && s.room(r).in_room(u)),
    ensures
        ({
            let result = if s.has_room(r) {
                ResultType::NOT_JOINED
            } else {
                ResultType::NO_SUCH_ROOM
            };
            &&& spec_manage_room_users(s, u, r) == seq![
                (
                    s.channel(u),
                    ProtocolView::RESPONSE { operation: "ROOM_USERS"@, result, extra: r },
                ),
            ]
            &&& spec_manage_room_text(s, u, r, text) == seq![
                (
                    s.channel(u),
                    ProtocolView::RESPONSE { operation: "ROOM_TEXT"@, result, extra: r },
                ),
            ]
        }),
{
}

/// A request for a new room named `x` creates a room named exactly `x`
/// when the name is free: its only member is the session's user, reached
/// on the requesting channel, the answer `SUCCESS` naming `x` goes to that
/// channel alone, and every other room stays as it was. When the name is
/// taken, the answer is `ROOM_ALREADY_EXISTS` naming `x` on that channel,
/// and nothing changes.
pub proof fn law_new_room_request(s: ServerView, auth: Seq<char>, x: Seq<char>, c: u64, y: Seq<char>, v: Seq<char>)
    requires
        s.wf(),
    ensures
        ({
            let (s2, out) = spec_publish(s, auth, MsgView::NEW_ROOM { roomname: x }, c);
            let result = if s.has_room(x) {
                ResultType::ROOM_ALREADY_EXISTS
            } else {
                ResultType::SUCCESS
            };
            &&& out == seq![
                (c, ProtocolView::RESPONSE { operation: "NEW_ROOM"@, result, extra: x }),
            ]
            &&& s.has_room(x) ==> s2 == s
            &&& !s.has_room(x) ==> {
                &&& s2.has_room(x)
                &&& (s2.room(x).in_room(v) <==> v == s.session_user(auth))
                &&& s2.room(x).room_users.len() == 1
                &&& lookup(s2.room(x).room_users, s.session_user(auth)) == c
                &&& s2.users == s.users
                &&& s2.suscribers == s.suscribers
                &&& s2.current_users == s.current_users
                &&& y != x ==> s2.has_room(y) == s.has_room(y)
                &&& y != x && s.has_room(y) ==> s2.room(y) == s.room(y)
            }
        }),
{
    let m = MsgView::NEW_ROOM { roomname: x };
    let u = s.session_user(auth);
    let r = RoomView { room_users: seq![(u, c)], invitations: seq![(u, x)] };
    lemma_insert(s.current_rooms, x, r);
    assert(r.room_users[0].0 == u);
    crate::assoc::lemma_key_at(r.room_users, 0);
    if has_key(r.room_users, v) {
        let k = choose|k: int| 0 <= k < r.room_users.len() && (#[trigger] r.room_users[k]).0 == v;
        assert(k == 0);
    }
}

} // verus!
