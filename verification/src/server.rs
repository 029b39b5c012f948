//! The chat server as a state machine. Each request of a connection moves
//! the state and yields the messages to deliver, each addressed to the channel
//! of a connection; the program around it performs the deliveries.
use vstd::prelude::*;
use crate::assoc::{
    assoc_insert, assoc_set, distinct_keys, find_key, has_key, key_pos, lemma_insert,
    lemma_key_at, lookup,
};
use crate::protocol::{copy_pairs, MsgView, ProtocolView, ResultType, Type_protocol, Types_msg};
use crate::room::{broadcast_except, broadcast_to, deliveries_view, Delivery, Room, RoomView};
use crate::text::{remove_all, remove_all_str, trim, trim_string};

verus! {

/// The mathematical content of the server: user to status, user to channel,
/// session key to user, room name to room.
pub struct ServerView {
    pub users: Seq<(Seq<char>, Seq<char>)>,
    pub suscribers: Seq<(Seq<char>, u64)>,
    pub current_users: Seq<(Seq<char>, Seq<char>)>,
    pub current_rooms: Seq<(Seq<char>, RoomView)>,
}

/// Two tables list the same keys in the same order.
pub open spec fn same_keys<A, B>(a: Seq<(Seq<char>, A)>, b: Seq<(Seq<char>, B)>) -> bool {
    a.len() == b.len() && forall|i: int| 0 <= i < a.len() ==> (#[trigger] a[i]).0 == b[i].0
}

impl ServerView {
    /// The invariant of the server: every table has distinct keys, every
    /// registered user has a channel and a status, and every room is well formed.
    pub open spec fn wf(self) -> bool {
        &&& distinct_keys(self.users)
        &&& distinct_keys(self.suscribers)
        &&& distinct_keys(self.current_users)
        &&& distinct_keys(self.current_rooms)
        &&& same_keys(self.users, self.suscribers)
        &&& forall|i: int| 0 <= i < self.current_rooms.len() ==> (#[trigger] self.current_rooms[i]).1.wf()
    }

    /// `name` is a registered user (has a channel).
    pub open spec fn registered(self, name: Seq<char>) -> bool {
        has_key(self.suscribers, name)
    }

    /// The channel of the registered user `name`.
    pub open spec fn channel(self, name: Seq<char>) -> u64 {
        lookup(self.suscribers, name)
    }

    /// `auth` is a known session key.
    pub open spec fn has_session(self, auth: Seq<char>) -> bool {
        has_key(self.current_users, auth)
    }

    /// The user name bound to the session key `auth`.
    pub open spec fn session_user(self, auth: Seq<char>) -> Seq<char> {
        lookup(self.current_users, auth)
    }

    /// A room named `name` exists.
    pub open spec fn has_room(self, name: Seq<char>) -> bool {
        has_key(self.current_rooms, name)
    }

    /// The room named `name`.
    pub open spec fn room(self, name: Seq<char>) -> RoomView {
        lookup(self.current_rooms, name)
    }

    /// The server with the room `name` set to `r`.
    pub open spec fn with_room(self, name: Seq<char>, r: RoomView) -> ServerView {
        ServerView { current_rooms: assoc_insert(self.current_rooms, name, r), ..self }
    }
}

/// The user name an `IDENTIFY` request carries; empty for any other request.
pub open spec fn spec_get_id(m: MsgView) -> Seq<char> {
    match m {
        MsgView::IDENTIFY { username } => username,
        _ => Seq::empty(),
    }
}

/// The name under which an `IDENTIFY` request registers: the carried name,
/// trimmed, with line feeds removed.
pub open spec fn register_key(m: MsgView) -> Seq<char> {
    remove_all(trim(spec_get_id(m)), "\n"@)
}

/// The refusal of an `IDENTIFY` whose name is taken.
pub open spec fn deny_reply(m: MsgView) -> ProtocolView {
    ProtocolView::RESPONSE {
        operation: "IDENTIFY"@,
        result: ResultType::USER_ALREADY_EXISTS,
        extra: spec_get_id(m),
    }
}

/// `suscribe`: a free name is registered with status `AWAY` and the
/// connection's channel; a taken name is refused on that channel and nothing
/// changes.
pub open spec fn spec_suscribe(s: ServerView, m: MsgView, sender: u64) -> (ServerView, Seq<
    (u64, ProtocolView),
>) {
    let key = register_key(m);
    if !has_key(s.suscribers, key) {
        (
            ServerView {
                users: assoc_insert(s.users, key, "AWAY"@),
                suscribers: assoc_insert(s.suscribers, key, sender),
                ..s
            },
            seq![],
        )
    } else {
        (s, seq![(sender, deny_reply(m))])
    }
}

/// The answer to a private text sent by `from`: the text from `from` when the
/// addressee has a status, `NO_SUCH_USER` otherwise. A request that is not a
/// `TEXT` addresses the empty name with an empty text.
pub open spec fn text_reply(s: ServerView, from: Seq<char>, m: MsgView) -> ProtocolView {
    let (id_name, texting) = match m {
        MsgView::TEXT { username, text } => (username, text),
        _ => (Seq::<char>::empty(), Seq::<char>::empty()),
    };
    if has_key(s.users, id_name) {
        ProtocolView::TEXT_FROM { username: from, text: texting }
    } else {
        ProtocolView::RESPONSE {
            operation: "TEXT"@,
            result: ResultType::NO_SUCH_USER,
            extra: id_name,
        }
    }
}

/// The text of a `PUBLIC_TEXT` request; empty for any other request.
pub open spec fn public_text_of(m: MsgView) -> Seq<char> {
    match m {
        MsgView::PUBLIC_TEXT { text } => text,
        _ => Seq::empty(),
    }
}

/// The room name of a `NEW_ROOM` request; empty for any other request.
pub open spec fn new_room_name(m: MsgView) -> Seq<char> {
    match m {
        MsgView::NEW_ROOM { roomname } => roomname,
        _ => Seq::empty(),
    }
}

/// `response_room`: a free room name becomes a room whose only member, and
/// only invited user, is the session's user; a taken name is refused.
pub open spec fn spec_response_room(s: ServerView, auth: Seq<char>, m: MsgView, sender: u64) -> (
    ServerView,
    ProtocolView,
) {
    let username = s.session_user(auth);
    let name = new_room_name(m);
    if !s.has_room(name) {
        let r = RoomView { room_users: seq![(username, sender)], invitations: seq![(username, name)] };
        (
            s.with_room(name, r),
            ProtocolView::RESPONSE {
                operation: "NEW_ROOM"@,
                result: ResultType::SUCCESS,
                extra: name,
            },
        )
    } else {
        (
            s,
            ProtocolView::RESPONSE {
                operation: "NEW_ROOM"@,
                result: ResultType::ROOM_ALREADY_EXISTS,
                extra: name,
            },
        )
    }
}

/// The invitations of `manage_invite`, one user after the other: a
/// registered user is invited into the room and sent the invitation from
/// `inviter` on its own channel; an unknown name is reported as
/// `NO_SUCH_USER` on the inviter's channel `sender`.
/// Returns the deliveries and the room's invitations.
pub open spec fn invite_run(
    s: ServerView,
    sender: u64,
    inviter: Seq<char>,
    room_name: Seq<char>,
    users: Seq<Seq<char>>,
    invitations: Seq<(Seq<char>, Seq<char>)>,
) -> (Seq<(u64, ProtocolView)>, Seq<(Seq<char>, Seq<char>)>)
    decreases users.len(),
{
    if users.len() == 0 {
        (seq![], invitations)
    } else {
        let (out, inv) = invite_run(s, sender, inviter, room_name, users.drop_last(), invitations);
        let u = users.last();
        if !s.registered(u) {
            let e = ProtocolView::RESPONSE {
                operation: "INVITE"@,
                result: ResultType::NO_SUCH_USER,
                extra: u,
            };
            (out.push((sender, e)), inv)
        } else {
            let invitation = ProtocolView::INVITATION { username: inviter, roomname: room_name };
            (out.push((s.channel(u), invitation)), assoc_insert(inv, u, room_name))
        }
    }
}

/// `manage_invite`: in an existing room, every registered user among
/// `usernames` is invited and sent the invitation, and every unknown one is
/// reported to the inviter; for a missing room the inviter gets `NO_SUCH_ROOM`.
pub open spec fn spec_manage_invite(
    s: ServerView,
    room_name: Seq<char>,
    current_user: Seq<char>,
    usernames: Seq<Seq<char>>,
) -> (ServerView, Seq<(u64, ProtocolView)>) {
    let sender = s.channel(current_user);
    if s.has_room(room_name) {
        let r = s.room(room_name);
        let (out, inv) = invite_run(s, sender, current_user, room_name, usernames, r.invitations);
        (s.with_room(room_name, RoomView { invitations: inv, ..r }), out)
    } else {
        (
            s,
            seq![
                (
                    sender,
                    ProtocolView::RESPONSE {
                        operation: "INVITE"@,
                        result: ResultType::NO_SUCH_ROOM,
                        extra: room_name,
                    },
                ),
            ],
        )
    }
}

/// `manage_join`: a user invited into an existing room joins it, is told
/// `SUCCESS`, and the other members are told; otherwise the user gets
/// `NOT_INVITED` or `NO_SUCH_ROOM` and nothing changes.
pub open spec fn spec_manage_join(s: ServerView, current_user: Seq<char>, room_name: Seq<char>) -> (
    ServerView,
    Seq<(u64, ProtocolView)>,
) {
    let sender = s.channel(current_user);
    if s.has_room(room_name) {
        let r = s.room(room_name);
        if r.invited_into(current_user, room_name) {
            let r2 = r.with_user(current_user, sender);
            (
                s.with_room(room_name, r2),
                seq![
                    (
                        sender,
                        ProtocolView::RESPONSE {
                            operation: "JOIN_ROOM"@,
                            result: ResultType::SUCCESS,
                            extra: room_name,
                        },
                    ),
                ] + broadcast_except(
                    r2.room_users,
                    ProtocolView::JOINED_ROOM { roomname: room_name, username: current_user },
                    current_user,
                ),
            )
        } else {
            (
                s,
                seq![
                    (
                        sender,
                        ProtocolView::RESPONSE {
                            operation: "JOIN_ROOM"@,
                            result: ResultType::NOT_INVITED,
                            extra: room_name,
                        },
                    ),
                ],
            )
        }
    } else {
        (
            s,
            seq![
                (
                    sender,
                    ProtocolView::RESPONSE {
                        operation: "JOIN_ROOM"@,
                        result: ResultType::NO_SUCH_ROOM,
                        extra: room_name,
                    },
                ),
            ],
        )
    }
}

/// The `(user, status)` pairs of the users who are members of `r`, in the
/// order of `users`.
pub open spec fn members_of(users: Seq<(Seq<char>, Seq<char>)>, r: RoomView) -> Seq<
    (Seq<char>, Seq<char>),
>
    decreases users.len(),
{
    if users.len() == 0 {
        seq![]
    } else {
        let rest = members_of(users.drop_last(), r);
        if r.in_room(users.last().0) {
            rest.push(users.last())
        } else {
            rest
        }
    }
}

/// `manage_room_users`: a member gets the room's users with their status;
/// anyone else gets `NOT_JOINED`, or `NO_SUCH_ROOM` for a missing room.
pub open spec fn spec_manage_room_users(
    s: ServerView,
    current_user: Seq<char>,
    room_name: Seq<char>,
) -> Seq<(u64, ProtocolView)> {
    let sender = s.channel(current_user);
    if !s.has_room(room_name) {
        seq![
            (
                sender,
                ProtocolView::RESPONSE {
                    operation: "ROOM_USERS"@,
                    result: ResultType::NO_SUCH_ROOM,
                    extra: room_name,
                },
            ),
        ]
    } else if s.room(room_name).in_room(current_user) {
        seq![
            (
                sender,
                ProtocolView::ROOM_USER_LIST {
                    roomname: room_name,
                    users: members_of(s.users, s.room(room_name)),
                },
            ),
        ]
    } else {
        seq![
            (
                sender,
                ProtocolView::RESPONSE {
                    operation: "ROOM_USERS"@,
                    result: ResultType::NOT_JOINED,
                    extra: room_name,
                },
            ),
        ]
    }
}

/// `manage_room_text`: a member's text, trimmed, goes to every other member;
/// anyone else gets `NOT_JOINED`, or `NO_SUCH_ROOM` for a missing room.
pub open spec fn spec_manage_room_text(
    s: ServerView,
    current_user: Seq<char>,
    room_name: Seq<char>,
    texting: Seq<char>,
) -> Seq<(u64, ProtocolView)> {
    if s.has_room(room_name) {
        if s.room(room_name).in_room(current_user) {
            broadcast_except(
                s.room(room_name).room_users,
                ProtocolView::ROOM_TEXT_FROM {
                    roomname: room_name,
                    username: current_user,
                    text: trim(texting),
                },
                current_user,
            )
        } else {
            seq![
                (
                    s.channel(current_user),
                    ProtocolView::RESPONSE {
                        operation: "ROOM_TEXT"@,
                        result: ResultType::NOT_JOINED,
                        extra: room_name,
                    },
                ),
            ]
        }
    } else {
        seq![
            (
                s.channel(current_user),
                ProtocolView::RESPONSE {
                    operation: "ROOM_TEXT"@,
                    result: ResultType::NO_SUCH_ROOM,
                    extra: room_name,
                },
            ),
        ]
    }
}

/// The room requests of `handle_room` that the server can serve: every
/// answer but a member's room text goes to the user's own channel, so the
/// user must be registered.
pub open spec fn room_request_ok(s: ServerView, m: MsgView, user: Seq<char>) -> bool {
    match m {
        MsgView::INVITE { .. } => s.registered(user),
        MsgView::JOIN_ROOM { .. } => s.registered(user),
        MsgView::ROOM_USERS { .. } => s.registered(user),
        MsgView::ROOM_TEXT { roomname, .. } => (s.has_room(roomname) && s.room(roomname).in_room(
            user,
        )) || s.registered(user),
        _ => true,
    }
}

/// `handle_room`: room requests of the session's user; other requests are ignored.
pub open spec fn spec_handle_room(s: ServerView, m: MsgView, user: Seq<char>) -> (
    ServerView,
    Seq<(u64, ProtocolView)>,
) {
    match m {
        MsgView::INVITE { roomname, usernames } => spec_manage_invite(s, roomname, user, usernames),
        MsgView::JOIN_ROOM { roomname } => spec_manage_join(s, user, roomname),
        MsgView::ROOM_USERS { roomname } => (s, spec_manage_room_users(s, user, roomname)),
        MsgView::ROOM_TEXT { roomname, text } => (
            s,
            spec_manage_room_text(s, user, roomname, text),
        ),
        _ => (s, seq![]),
    }
}

/// The requests that `publish` serves for the session `auth`: a users
/// request from anyone; any other request from a known session, and a room
/// request only where its answers can be delivered.
pub open spec fn publish_ok(s: ServerView, auth: Seq<char>, m: MsgView) -> bool {
    match m {
        MsgView::USERS => true,
        _ => s.has_session(auth) && room_request_ok(s, m, s.session_user(auth)),
    }
}

/// `publish`: the request `m` of the session `auth`, arriving on the channel
/// `sender`, handled by its kind. A private text goes to its addressee, or is
/// answered `NO_SUCH_USER` on `sender`; a public text goes to everyone.
pub open spec fn spec_publish(s: ServerView, auth: Seq<char>, m: MsgView, sender: u64) -> (
    ServerView,
    Seq<(u64, ProtocolView)>,
) {
    match m {
        MsgView::USERS => (s, seq![(sender, ProtocolView::USER_LIST { users: s.users })]),
        MsgView::TEXT { username, .. } => {
            let reply = text_reply(s, s.session_user(auth), m);
            if has_key(s.users, username) {
                (s, seq![(s.channel(username), reply)])
            } else {
                (s, seq![(sender, reply)])
            }
        },
        MsgView::PUBLIC_TEXT { text } => (
            s,
            broadcast_to(
                s.suscribers,
                ProtocolView::PUBLIC_TEXT_FROM { username: s.session_user(auth), text },
            ),
        ),
        MsgView::NEW_ROOM { .. } => {
            let (s2, reply) = spec_response_room(s, auth, m, sender);
            (s2, seq![(sender, reply)])
        },
        _ => spec_handle_room(s, m, s.session_user(auth)),
    }
}

/// The view of an optional request.
pub open spec fn opt_msg_view(p: Option<Types_msg>) -> Option<MsgView> {
    match p {
        Some(m) => Some(m@),
        None => None,
    }
}


/// Tables with the same keys have the same key set.
pub proof fn lemma_same_keys<A, B>(a: Seq<(Seq<char>, A)>, b: Seq<(Seq<char>, B)>, k: Seq<char>)
    requires
        same_keys(a, b),
    ensures
        has_key(a, k) == has_key(b, k),
{
    if has_key(a, k) {
        let i = key_pos(a, k);
        assert(b[i].0 == k);
    }
    if has_key(b, k) {
        let i = key_pos(b, k);
        assert(a[i].0 == k);
    }
}

/// A room stored in a well-formed server is well formed.
pub proof fn lemma_room_wf(s: ServerView, name: Seq<char>)
    requires
        s.wf(),
        s.has_room(name),
    ensures
        s.room(name).wf(),
{
    let i = key_pos(s.current_rooms, name);
    assert(s.current_rooms[i].1.wf());
}

/// Storing a well-formed room keeps the server well formed.
pub proof fn lemma_with_room(s: ServerView, name: Seq<char>, r: RoomView)
    requires
        s.wf(),
        r.wf(),
    ensures
        s.with_room(name, r).wf(),
{
    lemma_insert(s.current_rooms, name, r);
    let t = assoc_insert(s.current_rooms, name, r);
    assert forall|i: int| 0 <= i < t.len() implies (#[trigger] t[i]).1.wf() by {
        if i < s.current_rooms.len() && t[i] == s.current_rooms[i] {
        } else {
            assert(t[i].1 == r);
        }
    }
}

/// The chat server.
pub struct Server {
    users: Vec<(String, String)>,
    suscribers: Vec<(String, u64)>,
    current_users: Vec<(String, String)>,
    current_rooms: Vec<(String, Room)>,
}

impl View for Server {
    type V = ServerView;

    closed spec fn view(&self) -> ServerView {
        ServerView {
            users: self.users.deep_view(),
            suscribers: self.suscribers.deep_view(),
            current_users: self.current_users.deep_view(),
            current_rooms: self.current_rooms.deep_view(),
        }
    }
}

/// A message addressed to `to`.
fn deliver(to: u64, msg: Type_protocol) -> (d: Delivery)
    ensures
        d@ == (to, msg@),
{
    Delivery { to, msg }
}

/// A `RESPONSE` with the given operation, result and extra text.
fn response(operation: &str, result: ResultType, extra: String) -> (r: Type_protocol)
    ensures
        r@ == (ProtocolView::RESPONSE { operation: operation@, result, extra: extra@ }),
{
    Type_protocol::RESPONSE { operation: operation.to_owned(), result, extra }
}

impl Server {
    /// A server with no users, sessions or rooms.
    pub fn new() -> (s: Server)
        ensures
            s@.users == Seq::<(Seq<char>, Seq<char>)>::empty(),
            s@.suscribers == Seq::<(Seq<char>, u64)>::empty(),
            s@.current_users == Seq::<(Seq<char>, Seq<char>)>::empty(),
            s@.current_rooms == Seq::<(Seq<char>, RoomView)>::empty(),
            s@.wf(),
    {
        let s = Server {
            users: Vec::new(),
            suscribers: Vec::new(),
            current_users: Vec::new(),
            current_rooms: Vec::new(),
        };
        assert(s@.users =~= Seq::<(Seq<char>, Seq<char>)>::empty());
        assert(s@.suscribers =~= Seq::<(Seq<char>, u64)>::empty());
        assert(s@.current_users =~= Seq::<(Seq<char>, Seq<char>)>::empty());
        assert(s@.current_rooms =~= Seq::<(Seq<char>, RoomView)>::empty());
        s
    }

    /// The channel of the registered user `name`.
    fn channel_of(&self, name: &String) -> (c: u64)
        requires
            self@.wf(),
            self@.registered(name@),
        ensures
            c == self@.channel(name@),
    {
        let i = find_key(&self.suscribers, name).unwrap();
        proof {
            lemma_key_at(self@.suscribers, i as int);
        }
        self.suscribers[i].1
    }

    /// The user bound to the known session key `auth`.
    fn user_of(&self, auth: &String) -> (u: String)
        requires
            self@.wf(),
            self@.has_session(auth@),
        ensures
            u@ == self@.session_user(auth@),
    {
        let i = find_key(&self.current_users, auth).unwrap();
        proof {
            lemma_key_at(self@.current_users, i as int);
        }
        self.current_users[i].1.clone()
    }

    /// The user name an `IDENTIFY` request carries; empty for any other request.
    pub fn get_id(request_protc: &Types_msg) -> (id: String)
        ensures
            id@ == spec_get_id(request_protc@),
    {
        match request_protc {
            Types_msg::IDENTIFY { username } => username.clone(),
            _ => String::new(),
        }
    }

    /// Registers the name of an `IDENTIFY` request, reached through `sender`;
    /// a taken name is refused on `sender`.
    pub fn suscribe(&mut self, request_protc: &Types_msg, sender: u64) -> (out: Vec<Delivery>)
        requires
            old(self)@.wf(),
        ensures
            (final(self)@, deliveries_view(out@)) == spec_suscribe(
                old(self)@,
                request_protc@,
                sender,
            ),
            final(self)@.wf(),
    {
        let id = Self::get_id(request_protc);
        let trimmed = trim_string(id.as_str());
        proof {
            reveal_strlit("\n");
        }
        let key_username = remove_all_str(trimmed.as_str(), "\n");
        if find_key(&self.suscribers, &key_username).is_none() {
            proof {
                lemma_same_keys(self@.users, self@.suscribers, key_username@);
                lemma_insert(self@.users, key_username@, "AWAY"@);
                lemma_insert(self@.suscribers, key_username@, sender);
            }
            let ghost s0 = self@;
            assoc_set(&mut self.suscribers, key_username.clone(), sender);
            assoc_set(&mut self.users, key_username, "AWAY".to_owned());
            proof {
                assert(self@.users =~= s0.users.push((register_key(request_protc@), "AWAY"@)));
                assert(self@.suscribers =~= s0.suscribers.push((register_key(request_protc@), sender)));
                assert(same_keys(self@.users, self@.suscribers)) by {
                    assert forall|i: int| 0 <= i < self@.users.len() implies (
                    #[trigger] self@.users[i]).0 == self@.suscribers[i].0 by {
                        if i < s0.users.len() {
                            assert(s0.users[i].0 == s0.suscribers[i].0);
                        }
                    }
                }
            }
            let out: Vec<Delivery> = Vec::new();
            assert(deliveries_view(out@) =~= Seq::<(u64, ProtocolView)>::empty());
            out
        } else {
            let d = self.deny_indentify(request_protc, sender);
            let out = vec![d];
            assert(deliveries_view(out@) =~= seq![(sender, deny_reply(request_protc@))]);
            out
        }
    }

    /// The refusal, on `channel`, of an `IDENTIFY` whose name is taken.
    pub fn deny_indentify(&self, protocol: &Types_msg, channel: u64) -> (d: Delivery)
        ensures
            d@ == (channel, deny_reply(protocol@)),
    {
        let id = Self::get_id(protocol);
        deliver(channel, response("IDENTIFY", ResultType::USER_ALREADY_EXISTS, id))
    }

    /// `NEW_USER` with the name of the `IDENTIFY` request, to every registered user.
    pub fn response_indentify(&self, user_key: &Types_msg) -> (out: Vec<Delivery>)
        ensures
            deliveries_view(out@) == broadcast_to(
                self@.suscribers,
                ProtocolView::NEW_USER { username: spec_get_id(user_key@) },
            ),
    {
        let id = Self::get_id(user_key);
        let response_all = Type_protocol::NEW_USER { username: id };
        self.to_all(&response_all)
    }

    /// `msg` to every registered user, in order.
    fn to_all(&self, msg: &Type_protocol) -> (out: Vec<Delivery>)
        ensures
            deliveries_view(out@) == broadcast_to(self@.suscribers, msg@),
    {
        let mut out: Vec<Delivery> = Vec::new();
        let mut i: usize = 0;
        while i < self.suscribers.len()
            invariant
                i <= self@.suscribers.len(),
                deliveries_view(out@) == broadcast_to(self@.suscribers.take(i as int), msg@),
            decreases self@.suscribers.len() - i,
        {
            let ghost before = out@;
            let c = self.suscribers[i].1;
            assert(c == self@.suscribers[i as int].1);
            out.push(deliver(c, msg.duplicate()));
            assert(deliveries_view(out@) =~= deliveries_view(before).push((c, msg@)));
            assert(self@.suscribers.take(i + 1) =~= self@.suscribers.take(i as int).push(
                self@.suscribers[i as int],
            ));
            assert(broadcast_to(self@.suscribers.take(i + 1), msg@) =~= broadcast_to(
                self@.suscribers.take(i as int),
                msg@,
            ).push((c, msg@)));
            i = i + 1;
        }
        assert(self@.suscribers.take(self@.suscribers.len() as int) =~= self@.suscribers);
        out
    }

    /// Binds the session key `auth` to the name of the `IDENTIFY` request.
    pub fn suscribe_auth(&mut self, auth: String, username: &Types_msg)
        requires
            old(self)@.wf(),
        ensures
            final(self)@ == (ServerView {
                current_users: assoc_insert(
                    old(self)@.current_users,
                    auth@,
                    spec_get_id(username@),
                ),
                ..old(self)@
            }),
            final(self)@.wf(),
    {
        let only_user = Self::get_id(username);
        assoc_set(&mut self.current_users, auth, only_user);
    }
}


impl Server {
    /// The list of all users with their status.
    pub fn response_users(&self) -> (r: Type_protocol)
        ensures
            r@ == (ProtocolView::USER_LIST { users: self@.users }),
    {
        Type_protocol::USER_LIST { users: copy_pairs(&self.users) }
    }

    /// The public text of a request, from the session's user.
    pub fn response_pub_text(&self, current_auth: &String, general_protocol: &Types_msg) -> (r:
        Type_protocol)
        requires
            self@.wf(),
            self@.has_session(current_auth@),
        ensures
            r@ == (ProtocolView::PUBLIC_TEXT_FROM {
                username: self@.session_user(current_auth@),
                text: public_text_of(general_protocol@),
            }),
    {
        let text_content = match general_protocol {
            Types_msg::PUBLIC_TEXT { text } => text.clone(),
            _ => String::new(),
        };
        let user_id = self.user_of(current_auth);
        Type_protocol::PUBLIC_TEXT_FROM { username: user_id, text: text_content }
    }

    /// The answer to a private text of the session `current_auth`.
    pub fn response_text(&self, current_auth: &String, priv_protocol: &Types_msg) -> (r:
        Type_protocol)
        requires
            self@.wf(),
            self@.has_session(current_auth@),
        ensures
            r@ == text_reply(self@, self@.session_user(current_auth@), priv_protocol@),
    {
        let (id_name, texting) = match priv_protocol {
            Types_msg::TEXT { username, text } => (username.clone(), text.clone()),
            _ => (String::new(), String::new()),
        };
        let text_from = self.user_of(current_auth);
        if find_key(&self.users, &id_name).is_some() {
            Type_protocol::TEXT_FROM { username: text_from, text: texting }
        } else {
            response("TEXT", ResultType::NO_SUCH_USER, id_name)
        }
    }

    /// Creates the room a `NEW_ROOM` request names, with the session's user as
    /// its member reached through `sender`; a taken name is refused.
    pub fn response_room(&mut self, auth: &String, general_protocol: &Types_msg, sender: u64) -> (r:
        Type_protocol)
        requires
            old(self)@.wf(),
            old(self)@.has_session(auth@),
        ensures
            (final(self)@, r@) == spec_response_room(old(self)@, auth@, general_protocol@, sender),
            final(self)@.wf(),
    {
        let username = self.user_of(auth);
        let room_name = match general_protocol {
            Types_msg::NEW_ROOM { roomname } => roomname.clone(),
            _ => String::new(),
        };
        if find_key(&self.current_rooms, &room_name).is_none() {
            let mut new_room = Room::new();
            new_room.add_user(username.clone(), sender);
            new_room.suscribe_me(username, room_name.clone());
            proof {
                assert(new_room@.room_users =~= seq![(self@.session_user(auth@), sender)]);
                assert(new_room@.invitations =~= seq![(self@.session_user(auth@), room_name@)]);
                lemma_with_room(self@, room_name@, new_room@);
            }
            assoc_set(&mut self.current_rooms, room_name.clone(), new_room);
            response("NEW_ROOM", ResultType::SUCCESS, room_name)
        } else {
            response("NEW_ROOM", ResultType::ROOM_ALREADY_EXISTS, room_name)
        }
    }

    /// Invites `usernames` into the room `room_name` on behalf of `current_user`.
    pub fn manage_invite(&mut self, room_name: String, current_user: String, usernames: &Vec<String>) -> (out: Vec<Delivery>)
        requires
            old(self)@.wf(),
            old(self)@.registered(current_user@),
        ensures
            (final(self)@, deliveries_view(out@)) == spec_manage_invite(
                old(self)@,
                room_name@,
                current_user@,
                usernames.deep_view(),
            ),
            final(self)@.wf(),
    {
        let ghost s0 = self@;
        let current_sender = self.channel_of(&current_user);
        match find_key(&self.current_rooms, &room_name) {
            Some(i) => {
                proof {
                    lemma_key_at(s0.current_rooms, i as int);
                    lemma_room_wf(s0, room_name@);
                }
                let (rname, mut room) = self.current_rooms.remove(i);
                let ghost r0 = room@;
                let mut out: Vec<Delivery> = Vec::new();
                let mut j: usize = 0;
                assert(usernames.deep_view().take(0) =~= Seq::<Seq<char>>::empty());
                assert(deliveries_view(out@) =~= Seq::<(u64, ProtocolView)>::empty());
                while j < usernames.len()
                    invariant
                        s0.wf(),
                        self.suscribers.deep_view() == s0.suscribers,
                        j <= usernames@.len(),
                        room@.wf(),
                        room@.room_users == r0.room_users,
                        (deliveries_view(out@), room@.invitations) == invite_run(
                            s0,
                            current_sender,
                            current_user@,
                            room_name@,
                            usernames.deep_view().take(j as int),
                            r0.invitations,
                        ),
                    decreases usernames@.len() - j,
                {
                    let ghost users_next = usernames.deep_view().take(j + 1);
                    assert(users_next.drop_last() =~= usernames.deep_view().take(j as int));
                    assert(users_next.last() == usernames@[j as int]@);
                    let ghost before = deliveries_view(out@);
                    let user = &usernames[j];
                    match find_key(&self.suscribers, user) {
                        None => {
                            let err_json = response("INVITE", ResultType::NO_SUCH_USER, user.clone());
                            let ghost e = err_json@;
                            out.push(deliver(current_sender, err_json));
                            assert(deliveries_view(out@) =~= before.push((current_sender, e)));
                        },
                        Some(k) => {
                            proof {
                                lemma_key_at(s0.suscribers, k as int);
                            }
                            room.suscribe_me(user.clone(), room_name.clone());
                            let c = self.suscribers[k].1;
                            let json_data = Type_protocol::INVITATION {
                                username: current_user.clone(),
                                roomname: room_name.clone(),
                            };
                            let ghost e = json_data@;
                            out.push(deliver(c, json_data));
                            assert(deliveries_view(out@) =~= before.push((c, e)));
                        },
                    }
                    j = j + 1;
                }
                assert(usernames.deep_view().take(usernames@.len() as int) =~= usernames.deep_view());
                proof {
                    assert(room@ == (RoomView { invitations: room@.invitations, ..r0 }));
                    lemma_with_room(s0, room_name@, room@);
                }
                self.current_rooms.insert(i, (rname, room));
                assert(self@.current_rooms =~= s0.current_rooms.update(i as int, (room_name@, room@)));
                out
            },
            None => {
                let out = vec![
                    deliver(current_sender, response("INVITE", ResultType::NO_SUCH_ROOM, room_name)),
                ];
                assert(deliveries_view(out@) =~= spec_manage_invite(
                    s0,
                    room_name@,
                    current_user@,
                    usernames.deep_view(),
                ).1);
                out
            },
        }
    }
}


impl Server {
    /// `current_user` joins the room `room_name` if invited into it.
    pub fn manage_join(&mut self, current_user: String, room_name: String) -> (out: Vec<Delivery>)
        requires
            old(self)@.wf(),
            old(self)@.registered(current_user@),
        ensures
            (final(self)@, deliveries_view(out@)) == spec_manage_join(
                old(self)@,
                current_user@,
                room_name@,
            ),
            final(self)@.wf(),
    {
        let ghost s0 = self@;
        let sender = self.channel_of(&current_user);
        match find_key(&self.current_rooms, &room_name) {
            Some(i) => {
                proof {
                    lemma_key_at(s0.current_rooms, i as int);
                    lemma_room_wf(s0, room_name@);
                }
                if self.current_rooms[i].1.is_invited_into(&current_user, &room_name) {
                    let mut out = vec![
                        deliver(sender, response("JOIN_ROOM", ResultType::SUCCESS, room_name.clone())),
                    ];
                    let (rname, mut room) = self.current_rooms.remove(i);
                    room.add_user(current_user.clone(), sender);
                    let json_advice = Type_protocol::JOINED_ROOM {
                        roomname: room_name.clone(),
                        username: current_user.clone(),
                    };
                    let ghost first = deliveries_view(out@);
                    let mut rest = room.publish_room(&json_advice, &current_user);
                    let ghost rest_v = deliveries_view(rest@);
                    out.append(&mut rest);
                    assert(deliveries_view(out@) =~= first + rest_v);
                    proof {
                        lemma_with_room(s0, room_name@, room@);
                    }
                    self.current_rooms.insert(i, (rname, room));
                    assert(self@.current_rooms =~= s0.current_rooms.update(
                        i as int,
                        (room_name@, room@),
                    ));
                    out
                } else {
                    let out = vec![
                        deliver(sender, response("JOIN_ROOM", ResultType::NOT_INVITED, room_name)),
                    ];
                    assert(deliveries_view(out@) =~= spec_manage_join(s0, current_user@, room_name@).1);
                    out
                }
            },
            None => {
                let out = vec![
                    deliver(sender, response("JOIN_ROOM", ResultType::NO_SUCH_ROOM, room_name)),
                ];
                assert(deliveries_view(out@) =~= spec_manage_join(s0, current_user@, room_name@).1);
                out
            },
        }
    }

    /// The members of the room at position `i`, with their status, in the
    /// order of the user table.
    fn members_list(&self, i: usize) -> (r: Vec<(String, String)>)
        requires
            i < self@.current_rooms.len(),
        ensures
            r.deep_view() == members_of(self@.users, self@.current_rooms[i as int].1),
    {
        let ghost room = self@.current_rooms[i as int].1;
        let mut temp: Vec<(String, String)> = Vec::new();
        let mut k: usize = 0;
        assert(self@.users.take(0) =~= Seq::<(Seq<char>, Seq<char>)>::empty());
        assert(temp.deep_view() =~= Seq::<(Seq<char>, Seq<char>)>::empty());
        while k < self.users.len()
            invariant
                i < self@.current_rooms.len(),
                room == self@.current_rooms[i as int].1,
                k <= self@.users.len(),
                temp.deep_view() == members_of(self@.users.take(k as int), room),
            decreases self@.users.len() - k,
        {
            let ghost next = self@.users.take(k + 1);
            assert(next.drop_last() =~= self@.users.take(k as int));
            assert(next.last() == self@.users[k as int]);
            let ghost before = temp.deep_view();
            if self.current_rooms[i].1.is_in_room(&self.users[k].0) {
                let a = self.users[k].0.clone();
                let b = self.users[k].1.clone();
                temp.push((a, b));
                assert(temp.deep_view() =~= before.push(self@.users[k as int]));
            }
            k = k + 1;
        }
        assert(self@.users.take(self@.users.len() as int) =~= self@.users);
        temp
    }

    /// The users of the room `room_name`, for one of its members.
    pub fn manage_room_users(&self, current_user: &String, room_name: &String) -> (out: Vec<Delivery>)
        requires
            self@.wf(),
            self@.registered(current_user@),
        ensures
            deliveries_view(out@) == spec_manage_room_users(self@, current_user@, room_name@),
    {
        let sender = self.channel_of(current_user);
        let out = match find_key(&self.current_rooms, room_name) {
            None => vec![
                deliver(sender, response("ROOM_USERS", ResultType::NO_SUCH_ROOM, room_name.clone())),
            ],
            Some(i) => {
                proof {
                    lemma_key_at(self@.current_rooms, i as int);
                }
                let temp = self.members_list(i);
                if self.current_rooms[i].1.is_in_room(current_user) {
                    vec![
                        deliver(
                            sender,
                            Type_protocol::ROOM_USER_LIST { roomname: room_name.clone(), users: temp },
                        ),
                    ]
                } else {
                    vec![
                        deliver(
                            sender,
                            response("ROOM_USERS", ResultType::NOT_JOINED, room_name.clone()),
                        ),
                    ]
                }
            },
        };
        assert(deliveries_view(out@) =~= spec_manage_room_users(self@, current_user@, room_name@));
        out
    }

    /// A member's text to the other members of the room `room_name`.
    pub fn manage_room_text(&self, current_user: &String, room_name: &String, texting: &String) -> (out:
        Vec<Delivery>)
        requires
            self@.wf(),
            (self@.has_room(room_name@) && self@.room(room_name@).in_room(current_user@))
                || self@.registered(current_user@),
        ensures
            deliveries_view(out@) == spec_manage_room_text(
                self@,
                current_user@,
                room_name@,
                texting@,
            ),
    {
        match find_key(&self.current_rooms, room_name) {
            Some(i) => {
                proof {
                    lemma_key_at(self@.current_rooms, i as int);
                }
                if self.current_rooms[i].1.is_in_room(current_user) {
                    let json_data = Type_protocol::ROOM_TEXT_FROM {
                        roomname: room_name.clone(),
                        username: current_user.clone(),
                        text: trim_string(texting.as_str()),
                    };
                    self.current_rooms[i].1.publish_room(&json_data, current_user)
                } else {
                    let sender = self.channel_of(current_user);
                    let out = vec![
                        deliver(sender, response("ROOM_TEXT", ResultType::NOT_JOINED, room_name.clone())),
                    ];
                    assert(deliveries_view(out@) =~= spec_manage_room_text(
                        self@,
                        current_user@,
                        room_name@,
                        texting@,
                    ));
                    out
                }
            },
            None => {
                let sender = self.channel_of(current_user);
                let out = vec![
                    deliver(sender, response("ROOM_TEXT", ResultType::NO_SUCH_ROOM, room_name.clone())),
                ];
                assert(deliveries_view(out@) =~= spec_manage_room_text(
                    self@,
                    current_user@,
                    room_name@,
                    texting@,
                ));
                out
            },
        }
    }

    /// The room requests of the session `current_auth`.
    pub fn handle_room(&mut self, type_room: &Types_msg, current_auth: &String) -> (out: Vec<
        Delivery,
    >)
        requires
            old(self)@.wf(),
            old(self)@.has_session(current_auth@),
            room_request_ok(old(self)@, type_room@, old(self)@.session_user(current_auth@)),
        ensures
            (final(self)@, deliveries_view(out@)) == spec_handle_room(
                old(self)@,
                type_room@,
                old(self)@.session_user(current_auth@),
            ),
            final(self)@.wf(),
    {
        let current_user = self.user_of(current_auth);
        match type_room {
            Types_msg::INVITE { roomname, usernames } => {
                self.manage_invite(roomname.clone(), current_user, usernames)
            },
            Types_msg::JOIN_ROOM { roomname } => { self.manage_join(current_user, roomname.clone()) },
            Types_msg::ROOM_USERS { roomname } => {
                self.manage_room_users(&current_user, roomname)
            },
            Types_msg::ROOM_TEXT { roomname, text } => {
                self.manage_room_text(&current_user, roomname, text)
            },
            _ => {
                let out: Vec<Delivery> = Vec::new();
                assert(deliveries_view(out@) =~= Seq::<(u64, ProtocolView)>::empty());
                out
            },
        }
    }

    /// Serves the request `general_protocol` of the session `current_auth`,
    /// arriving on the channel `current_sender`, by the kind of request.
    pub fn publish(&mut self, current_auth: &String, general_protocol: &Types_msg, current_sender: u64) -> (out: Vec<Delivery>)
        requires
            old(self)@.wf(),
            publish_ok(old(self)@, current_auth@, general_protocol@),
        ensures
            (final(self)@, deliveries_view(out@)) == spec_publish(
                old(self)@,
                current_auth@,
                general_protocol@,
                current_sender,
            ),
            final(self)@.wf(),
    {
        let ghost s0 = self@;
        match general_protocol {
            Types_msg::USERS => {
                let users_list = self.response_users();
                let out = vec![deliver(current_sender, users_list)];
                assert(deliveries_view(out@) =~= spec_publish(
                    s0,
                    current_auth@,
                    general_protocol@,
                    current_sender,
                ).1);
                out
            },
            Types_msg::TEXT { username, .. } => {
                let priv_text = self.response_text(current_auth, general_protocol);
                let out = if find_key(&self.users, username).is_some() {
                    proof {
                        lemma_same_keys(self@.users, self@.suscribers, username@);
                    }
                    let c = self.channel_of(username);
                    vec![deliver(c, priv_text)]
                } else {
                    vec![deliver(current_sender, priv_text)]
                };
                assert(deliveries_view(out@) =~= spec_publish(
                    s0,
                    current_auth@,
                    general_protocol@,
                    current_sender,
                ).1);
                out
            },
            Types_msg::PUBLIC_TEXT { .. } => {
                let pub_value = self.response_pub_text(current_auth, general_protocol);
                self.to_all(&pub_value)
            },
            Types_msg::NEW_ROOM { .. } => {
                let json_data = self.response_room(current_auth, general_protocol, current_sender);
                let out = vec![deliver(current_sender, json_data)];
                assert(deliveries_view(out@) =~= spec_publish(
                    s0,
                    current_auth@,
                    general_protocol@,
                    current_sender,
                ).1);
                out
            },
            _ => self.handle_room(general_protocol, current_auth),
        }
    }
}

impl Server {
    /// Whether `name` is registered.
    pub fn is_registered(&self, name: &String) -> (b: bool)
        ensures
            b == self@.registered(name@),
    {
        find_key(&self.suscribers, name).is_some()
    }

    /// Whether the room requests `m` of `user` can be served.
    pub fn can_handle_room(&self, m: &Types_msg, user: &String) -> (b: bool)
        requires
            self@.wf(),
        ensures
            b == room_request_ok(self@, m@, user@),
    {
        match m {
            Types_msg::INVITE { .. } => self.is_registered(user),
            Types_msg::JOIN_ROOM { .. } => self.is_registered(user),
            Types_msg::ROOM_USERS { .. } => self.is_registered(user),
            Types_msg::ROOM_TEXT { roomname, .. } => {
                let member = match find_key(&self.current_rooms, roomname) {
                    Some(i) => {
                        proof {
                            lemma_key_at(self@.current_rooms, i as int);
                        }
                        self.current_rooms[i].1.is_in_room(user)
                    },
                    None => false,
                };
                member || self.is_registered(user)
            },
            _ => true,
        }
    }

    /// Whether `publish` serves the request `m` of the session `auth`.
    pub fn can_publish(&self, auth: &String, m: &Types_msg) -> (b: bool)
        requires
            self@.wf(),
        ensures
            b == publish_ok(self@, auth@, m@),
    {
        match m {
            Types_msg::USERS => true,
            _ => match find_key(&self.current_users, auth) {
                Some(i) => {
                    proof {
                        lemma_key_at(self@.current_users, i as int);
                    }
                    self.can_handle_room(m, &self.current_users[i].1)
                },
                None => false,
            },
        }
    }
}

} // verus!
