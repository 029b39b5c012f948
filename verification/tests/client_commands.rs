use talknet::client::Client;
use talknet::protocol::Types_msg;

fn s(x: &str) -> String {
    x.to_string()
}

fn client() -> Client {
    Client::new(s("alice"))
}

fn cmd(line: &str) -> Option<Types_msg> {
    client().command(&s(line))
}

#[test]
fn client_builds_requests() {
    let c = client();
    assert_eq!(c.get_id(), &s("alice"));
    assert_eq!(c.send_identify(), Types_msg::IDENTIFY { username: s("alice") });
    let mut t = s("hi all");
    assert_eq!(c.send_pub_text(&mut t), Types_msg::PUBLIC_TEXT { text: s("hi all") });
    assert_eq!(t, s("hi all"));
    assert_eq!(c.request_users(), Types_msg::USERS);
    assert_eq!(c.send_priv_text(s("psst"), s("bob")), Types_msg::TEXT { username: s("bob"), text: s("psst") });
    assert_eq!(c.request_new_room(s("lobby")), Types_msg::NEW_ROOM { roomname: s("lobby") });
    assert_eq!(
        c.send_room_bid(s("lobby"), vec![s("bob")]),
        Types_msg::INVITE { roomname: s("lobby"), usernames: vec![s("bob")] }
    );
    assert_eq!(c.join_room(s("lobby")), Types_msg::JOIN_ROOM { roomname: s("lobby") });
    assert_eq!(c.room_users(s("lobby")), Types_msg::ROOM_USERS { roomname: s("lobby") });
    assert_eq!(c.room_text(s("lobby"), s("yo")), Types_msg::ROOM_TEXT { roomname: s("lobby"), text: s("yo") });
}

#[test]
fn public_text_command_drops_every_marker() {
    assert_eq!(cmd(">  hello > there\n"), Some(Types_msg::PUBLIC_TEXT { text: s("  hello  there") }));
}

#[test]
fn users_command() {
    assert_eq!(cmd("all/"), Some(Types_msg::USERS));
    assert_eq!(cmd("  all/ whatever"), Some(Types_msg::USERS));
}

#[test]
fn private_text_command() {
    assert_eq!(
        cmd("txfrom/ b ob /hi/there"),
        Some(Types_msg::TEXT { username: s("bob"), text: s("hithere") })
    );
    assert_eq!(cmd("txfrom/bob"), Some(Types_msg::TEXT { username: s("bob"), text: s("") }));
}

#[test]
fn room_commands() {
    assert_eq!(cmd("room/ lobby \n"), Some(Types_msg::NEW_ROOM { roomname: s("lobby") }));
    assert_eq!(cmd("JOIN/ lobby"), Some(Types_msg::JOIN_ROOM { roomname: s("lobby") }));
    assert_eq!(cmd("ROOM_CONTENT/lobby"), Some(Types_msg::ROOM_USERS { roomname: s("lobby") }));
    assert_eq!(
        cmd("TX_ROOM/lob by/hello world/!"),
        Some(Types_msg::ROOM_TEXT { roomname: s("lobby"), text: s("hello world!") })
    );
}

#[test]
fn invite_command_reads_two_groups() {
    assert_eq!(
        cmd("INVITE/<bob  carol> < lobby >"),
        Some(Types_msg::INVITE { roomname: s("lobby"), usernames: vec![s("bob"), s("carol")] })
    );
    assert_eq!(
        cmd("INVITE/x <a> b <bob> <lobby> <c> <d>"),
        Some(Types_msg::INVITE { roomname: s("lobby"), usernames: vec![s("bob")] })
    );
    assert_eq!(cmd("INVITE/bob lobby"), None);
    assert_eq!(cmd("INVITE/<> <lobby>"), None);
}

#[test]
fn invite_groups_to_request() {
    let c = client();
    assert_eq!(
        c.invite_command(&s(" bob\tcarol "), &s(" lobby ")),
        Types_msg::INVITE { roomname: s("lobby"), usernames: vec![s("bob"), s("carol")] }
    );
}

#[test]
fn unknown_lines_make_no_request() {
    assert_eq!(cmd("hello"), None);
    assert_eq!(cmd(""), None);
}
