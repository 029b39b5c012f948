use talknet::protocol::{ResultType, Type_protocol, Types_msg};
use talknet::room::Delivery;
use talknet::server::Server;
use talknet::session::Session;

fn s(x: &str) -> String {
    x.to_string()
}

fn identify(name: &str) -> Types_msg {
    Types_msg::IDENTIFY { username: s(name) }
}

fn resp(op: &str, result: ResultType, extra: &str) -> Type_protocol {
    Type_protocol::RESPONSE { operation: s(op), result, extra: s(extra) }
}

fn d(to: u64, msg: Type_protocol) -> Delivery {
    Delivery { to, msg }
}

fn input(server: &mut Server, session: &mut Session, request: Types_msg) -> Vec<Delivery> {
    assert!(session.accepts(server, &request));
    session.handle_input(server, request)
}

/// A server with alice on channel 1 and bob on channel 2, both identified.
fn two_users() -> (Server, Session, Session) {
    let mut server = Server::new();
    let mut a = Session::new(s("auth-a"), 1);
    let mut b = Session::new(s("auth-b"), 2);
    input(&mut server, &mut a, identify("alice"));
    input(&mut server, &mut b, identify("bob"));
    (server, a, b)
}

#[test]
fn identify_registers_and_announces() {
    let mut server = Server::new();
    let mut a = Session::new(s("auth-a"), 1);
    let out = input(&mut server, &mut a, identify("alice"));
    assert_eq!(out, vec![d(1, Type_protocol::NEW_USER { username: s("alice") })]);
    let mut b = Session::new(s("auth-b"), 2);
    let out = input(&mut server, &mut b, identify("bob"));
    assert_eq!(
        out,
        vec![
            d(1, Type_protocol::NEW_USER { username: s("bob") }),
            d(2, Type_protocol::NEW_USER { username: s("bob") }),
        ]
    );
}

#[test]
fn identify_twice_is_refused() {
    let (mut server, _a, _b) = two_users();
    let mut c = Session::new(s("auth-c"), 3);
    let out = input(&mut server, &mut c, identify("alice"));
    assert_eq!(
        out,
        vec![
            d(3, resp("IDENTIFY", ResultType::USER_ALREADY_EXISTS, "alice")),
            d(1, Type_protocol::NEW_USER { username: s("alice") }),
            d(2, Type_protocol::NEW_USER { username: s("alice") }),
        ]
    );
    let out = server.response_users();
    assert_eq!(
        out,
        Type_protocol::USER_LIST { users: vec![(s("alice"), s("AWAY")), (s("bob"), s("AWAY"))] }
    );
}

#[test]
fn identify_name_is_trimmed_for_registration() {
    let mut server = Server::new();
    let out = server.suscribe(&identify(" al\nice "), 7);
    assert!(out.is_empty());
    assert!(server.is_registered(&s("alice")));
    let out = server.suscribe(&identify("alice"), 8);
    assert_eq!(out, vec![d(8, resp("IDENTIFY", ResultType::USER_ALREADY_EXISTS, "alice"))]);
    assert_eq!(server.deny_indentify(&identify("x"), 4), d(4, resp("IDENTIFY", ResultType::USER_ALREADY_EXISTS, "x")));
    assert_eq!(Server::get_id(&identify("bob")), s("bob"));
    assert_eq!(Server::get_id(&Types_msg::USERS), s(""));
}

#[test]
fn users_request_lists_everyone() {
    let (mut server, mut a, _b) = two_users();
    let out = input(&mut server, &mut a, Types_msg::USERS);
    assert_eq!(
        out,
        vec![d(
            1,
            Type_protocol::USER_LIST { users: vec![(s("alice"), s("AWAY")), (s("bob"), s("AWAY"))] }
        )]
    );
}

#[test]
fn private_text_reaches_addressee() {
    let (mut server, mut a, _b) = two_users();
    let out = input(&mut server, &mut a, Types_msg::TEXT { username: s("bob"), text: s("hi") });
    assert_eq!(out, vec![d(2, Type_protocol::TEXT_FROM { username: s("alice"), text: s("hi") })]);
}

#[test]
fn private_text_to_unknown_user() {
    let (mut server, mut a, _b) = two_users();
    let out = input(&mut server, &mut a, Types_msg::TEXT { username: s("carol"), text: s("hi") });
    assert_eq!(out, vec![d(1, resp("TEXT", ResultType::NO_SUCH_USER, "carol"))]);
}

#[test]
fn private_text_to_unknown_name_holding_username() {
    let (mut server, mut a, _b) = two_users();
    let out = input(&mut server, &mut a, Types_msg::TEXT { username: s("usernameX"), text: s("hi") });
    assert_eq!(out, vec![d(1, resp("TEXT", ResultType::NO_SUCH_USER, "usernameX"))]);
}

#[test]
fn private_text_naming_rooms_is_delivered() {
    let (mut server, mut a, _b) = two_users();
    let out = input(&mut server, &mut a, Types_msg::TEXT { username: s("bob"), text: s("ROOM") });
    assert_eq!(out, vec![d(2, Type_protocol::TEXT_FROM { username: s("alice"), text: s("ROOM") })]);
}

#[test]
fn public_text_reaches_everyone() {
    let (mut server, mut a, _b) = two_users();
    let out = input(&mut server, &mut a, Types_msg::PUBLIC_TEXT { text: s("hello") });
    let msg = Type_protocol::PUBLIC_TEXT_FROM { username: s("alice"), text: s("hello") };
    assert_eq!(out, vec![d(1, msg.duplicate()), d(2, msg)]);
}

#[test]
fn public_text_naming_users_is_broadcast() {
    let (mut server, mut a, _b) = two_users();
    let out = input(&mut server, &mut a, Types_msg::PUBLIC_TEXT { text: s("who are the USERS") });
    let msg = Type_protocol::PUBLIC_TEXT_FROM { username: s("alice"), text: s("who are the USERS") };
    assert_eq!(out, vec![d(1, msg.duplicate()), d(2, msg)]);
}

fn new_room(server: &mut Server, session: &mut Session, name: &str) -> Vec<Delivery> {
    input(server, session, Types_msg::NEW_ROOM { roomname: s(name) })
}

fn invite(server: &mut Server, session: &mut Session, room: &str, users: &[&str]) -> Vec<Delivery> {
    let usernames = users.iter().map(|u| s(u)).collect();
    input(server, session, Types_msg::INVITE { roomname: s(room), usernames })
}

fn join(server: &mut Server, session: &mut Session, room: &str) -> Vec<Delivery> {
    input(server, session, Types_msg::JOIN_ROOM { roomname: s(room) })
}

#[test]
fn new_room_then_taken() {
    let (mut server, mut a, mut b) = two_users();
    let out = new_room(&mut server, &mut a, "lobby");
    assert_eq!(out, vec![d(1, resp("NEW_ROOM", ResultType::SUCCESS, "lobby"))]);
    let out = new_room(&mut server, &mut b, "lobby");
    assert_eq!(out, vec![d(2, resp("NEW_ROOM", ResultType::ROOM_ALREADY_EXISTS, "lobby"))]);
}

#[test]
fn invite_then_join() {
    let (mut server, mut a, mut b) = two_users();
    new_room(&mut server, &mut a, "lobby");
    let out = invite(&mut server, &mut a, "lobby", &["bob"]);
    assert_eq!(out, vec![d(2, Type_protocol::INVITATION { username: s("alice"), roomname: s("lobby") })]);
    let out = join(&mut server, &mut b, "lobby");
    assert_eq!(
        out,
        vec![
            d(2, resp("JOIN_ROOM", ResultType::SUCCESS, "lobby")),
            d(1, Type_protocol::JOINED_ROOM { roomname: s("lobby"), username: s("bob") }),
        ]
    );
}

#[test]
fn invite_after_unknown_user_still_invites() {
    let (mut server, mut a, mut b) = two_users();
    new_room(&mut server, &mut a, "lobby");
    let out = invite(&mut server, &mut a, "lobby", &["zed", "bob"]);
    assert_eq!(
        out,
        vec![
            d(1, resp("INVITE", ResultType::NO_SUCH_USER, "zed")),
            d(2, Type_protocol::INVITATION { username: s("alice"), roomname: s("lobby") }),
        ]
    );
    let out = join(&mut server, &mut b, "lobby");
    assert_eq!(out[0], d(2, resp("JOIN_ROOM", ResultType::SUCCESS, "lobby")));
}

#[test]
fn invite_to_missing_room() {
    let (mut server, mut a, _b) = two_users();
    let out = invite(&mut server, &mut a, "nowhere", &["bob"]);
    assert_eq!(out, vec![d(1, resp("INVITE", ResultType::NO_SUCH_ROOM, "nowhere"))]);
}

#[test]
fn join_needs_invitation_and_room() {
    let (mut server, mut a, mut b) = two_users();
    new_room(&mut server, &mut a, "lobby");
    let out = join(&mut server, &mut b, "lobby");
    assert_eq!(out, vec![d(2, resp("JOIN_ROOM", ResultType::NOT_INVITED, "lobby"))]);
    let out = join(&mut server, &mut b, "attic");
    assert_eq!(out, vec![d(2, resp("JOIN_ROOM", ResultType::NO_SUCH_ROOM, "attic"))]);
}

#[test]
fn room_users_and_room_text() {
    let (mut server, mut a, mut b) = two_users();
    new_room(&mut server, &mut a, "lobby");
    let out = input(&mut server, &mut b, Types_msg::ROOM_USERS { roomname: s("lobby") });
    assert_eq!(out, vec![d(2, resp("ROOM_USERS", ResultType::NOT_JOINED, "lobby"))]);
    invite(&mut server, &mut a, "lobby", &["bob"]);
    join(&mut server, &mut b, "lobby");
    let out = input(&mut server, &mut a, Types_msg::ROOM_USERS { roomname: s("lobby") });
    assert_eq!(
        out,
        vec![d(
            1,
            Type_protocol::ROOM_USER_LIST {
                roomname: s("lobby"),
                users: vec![(s("alice"), s("AWAY")), (s("bob"), s("AWAY"))],
            }
        )]
    );
    let out = input(&mut server, &mut b, Types_msg::ROOM_TEXT { roomname: s("lobby"), text: s("  yo ") });
    assert_eq!(
        out,
        vec![d(1, Type_protocol::ROOM_TEXT_FROM { roomname: s("lobby"), username: s("bob"), text: s("yo") })]
    );
    let out = input(&mut server, &mut b, Types_msg::ROOM_USERS { roomname: s("attic") });
    assert_eq!(out, vec![d(2, resp("ROOM_USERS", ResultType::NO_SUCH_ROOM, "attic"))]);
}

#[test]
fn room_text_from_outsider_is_refused() {
    let (mut server, mut a, mut b) = two_users();
    new_room(&mut server, &mut a, "lobby");
    let out = input(&mut server, &mut b, Types_msg::ROOM_TEXT { roomname: s("lobby"), text: s("hey") });
    assert_eq!(out, vec![d(2, resp("ROOM_TEXT", ResultType::NOT_JOINED, "lobby"))]);
    let out = input(&mut server, &mut b, Types_msg::ROOM_TEXT { roomname: s("attic"), text: s("hey") });
    assert_eq!(out, vec![d(2, resp("ROOM_TEXT", ResultType::NO_SUCH_ROOM, "attic"))]);
}

#[test]
fn other_requests_are_ignored() {
    let (mut server, mut a, _b) = two_users();
    let out = input(&mut server, &mut a, Types_msg::DISCONNECT);
    assert!(out.is_empty());
}

#[test]
fn room_request_of_unregistered_name_is_not_served() {
    let mut server = Server::new();
    let mut a = Session::new(s("auth-a"), 1);
    let out = input(&mut server, &mut a, identify(" alice"));
    assert_eq!(out, vec![d(1, Type_protocol::NEW_USER { username: s(" alice") })]);
    assert_eq!(a.conn(), 1);
    let join = Types_msg::JOIN_ROOM { roomname: s("lobby") };
    assert!(!a.accepts(&server, &join));
    assert!(a.accepts(&server, &Types_msg::USERS));
}

#[test]
fn connection_requests_are_served_in_order_under_one_identity() {
    let mut server = Server::new();
    let mut a = Session::new(s("auth-a"), 1);
    let mut b = Session::new(s("auth-b"), 2);
    let mut out = Vec::new();
    out.extend(input(&mut server, &mut a, identify("alice")));
    out.extend(input(&mut server, &mut b, identify("bob")));
    out.extend(input(&mut server, &mut a, Types_msg::PUBLIC_TEXT { text: s("one") }));
    out.extend(input(&mut server, &mut a, Types_msg::TEXT { username: s("bob"), text: s("two") }));
    out.extend(input(&mut server, &mut a, identify("carol")));
    out.extend(input(&mut server, &mut a, Types_msg::TEXT { username: s("bob"), text: s("three") }));
    assert_eq!(
        out,
        vec![
            d(1, Type_protocol::NEW_USER { username: s("alice") }),
            d(1, Type_protocol::NEW_USER { username: s("bob") }),
            d(2, Type_protocol::NEW_USER { username: s("bob") }),
            d(1, Type_protocol::PUBLIC_TEXT_FROM { username: s("alice"), text: s("one") }),
            d(2, Type_protocol::PUBLIC_TEXT_FROM { username: s("alice"), text: s("one") }),
            d(2, Type_protocol::TEXT_FROM { username: s("alice"), text: s("two") }),
            d(2, Type_protocol::TEXT_FROM { username: s("alice"), text: s("three") }),
        ]
    );
}
