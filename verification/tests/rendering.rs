use talknet::protocol::{ResultType, Type_protocol};
use talknet::responses::{type_response, Line};

fn s(x: &str) -> String {
    x.to_string()
}

fn out(x: &str) -> Line {
    Line { error: false, text: s(x) }
}

fn rule() -> Line {
    out(&"-".repeat(56))
}

fn resp(op: &str, result: ResultType, extra: &str) -> Type_protocol {
    Type_protocol::RESPONSE { operation: s(op), result, extra: s(extra) }
}

#[test]
fn responses_render() {
    assert_eq!(type_response(&resp("IDENTFY", ResultType::SUCCESS, "x")), vec![out(" -> was indentificate: x")]);
    assert!(type_response(&resp("IDENTIFY", ResultType::SUCCESS, "x")).is_empty());
    assert_eq!(
        type_response(&resp("ROOM_USERS", ResultType::NOT_JOINED, "lobby")),
        vec![Line { error: true, text: s("-- you not have in this room --") }]
    );
    assert_eq!(
        type_response(&resp("NEW_ROOM", ResultType::SUCCESS, "lobby")),
        vec![rule(), out("> Currently you created the -- lobby -- room "), rule()]
    );
    assert_eq!(
        type_response(&resp("JOIN_ROOM", ResultType::SUCCESS, "lobby")),
        vec![rule(), out("> Currently you joined in the -- lobby -- room "), rule()]
    );
    assert!(type_response(&resp("JOIN_ROOM", ResultType::NOT_INVITED, "lobby")).is_empty());
}

#[test]
fn messages_render() {
    assert_eq!(
        type_response(&Type_protocol::NEW_USER { username: s("bob") }),
        vec![out("> bob was joined to the general chat")]
    );
    assert_eq!(
        type_response(&Type_protocol::TEXT_FROM { username: s("bob"), text: s("hi") }),
        vec![out("> FROM: bob --> hi")]
    );
    assert_eq!(
        type_response(&Type_protocol::PUBLIC_TEXT_FROM { username: s("bob"), text: s("hi") }),
        vec![out("> bob: hi")]
    );
    assert_eq!(
        type_response(&Type_protocol::USER_LIST { users: vec![(s("bob"), s("AWAY"))] }),
        vec![out("all theese clients ------> "), out("> bob -> status: AWAY")]
    );
    assert_eq!(
        type_response(&Type_protocol::INVITATION { username: s("bob"), roomname: s("lobby") }),
        vec![out("> You has an invitation from bob to join in the lobby room ---- ")]
    );
    assert_eq!(
        type_response(&Type_protocol::JOINED_ROOM { roomname: s("lobby"), username: s("bob") }),
        vec![rule(), out("> Currently bob are in the -- lobby -- room "), rule()]
    );
    assert_eq!(
        type_response(&Type_protocol::ROOM_USER_LIST {
            roomname: s("lobby"),
            users: vec![(s("bob"), s("AWAY")), (s("eve"), s("BUSY"))],
        }),
        vec![
            out("Current users in the -- lobby -- room ->> "),
            out("ROOM -> username -- bob -- status: AWAY"),
            out("ROOM -> username -- eve -- status: BUSY"),
        ]
    );
    assert_eq!(
        type_response(&Type_protocol::ROOM_TEXT_FROM { roomname: s("lobby"), username: s("bob"), text: s("yo") }),
        vec![out("> lobby: bob -> yo")]
    );
}
