//! The chat protocol: requests a client sends (`Types_msg`), what the server
//! answers or forwards (`Type_protocol`), and the outcome codes of a request
//! (`ResultType`). Values are turned into and out of JSON text at the edge of
//! the program; here they are plain data with a mathematical view.
use vstd::prelude::*;

verus! {

/// The outcome of a request, as reported in a `RESPONSE`.
#[derive(Clone, Copy, Debug, PartialEq, Eq, Structural)]
pub enum ResultType {
    SUCCESS,
    USER_ALREADY_EXISTS,
    NO_SUCH_USER,
    ROOM_ALREADY_EXISTS,
    NO_SUCH_ROOM,
    NOT_INVITED,
    NOT_JOINED,
}

/// A message from the server to a client. The user lists are lists of
/// `(username, status)` pairs.
#[derive(Debug, PartialEq, Eq)]
pub enum Type_protocol {
    RESPONSE { operation: String, result: ResultType, extra: String },
    NEW_USER { username: String },
    USER_LIST { users: Vec<(String, String)> },
    PUBLIC_TEXT_FROM { username: String, text: String },
    TEXT_FROM { username: String, text: String },
    INVITATION { username: String, roomname: String },
    JOINED_ROOM { roomname: String, username: String },
    ROOM_USER_LIST { roomname: String, users: Vec<(String, String)> },
    ROOM_TEXT_FROM { roomname: String, username: String, text: String },
}

/// A request from a client to the server.
#[derive(Debug, PartialEq, Eq)]
pub enum Types_msg {
    IDENTIFY { username: String },
    STATUS { status: String },
    USERS,
    TEXT { username: String, text: String },
    PUBLIC_TEXT { text: String },
    NEW_ROOM { roomname: String },
    INVITE { roomname: String, usernames: Vec<String> },
    JOIN_ROOM { roomname: String },
    ROOM_USERS { roomname: String },
    ROOM_TEXT { roomname: String, text: String },
    LEAVE_ROOM,
    DISCONNECT,
}

/// The mathematical content of a `Type_protocol`.
pub enum ProtocolView {
    RESPONSE { operation: Seq<char>, result: ResultType, extra: Seq<char> },
    NEW_USER { username: Seq<char> },
    USER_LIST { users: Seq<(Seq<char>, Seq<char>)> },
    PUBLIC_TEXT_FROM { username: Seq<char>, text: Seq<char> },
    TEXT_FROM { username: Seq<char>, text: Seq<char> },
    INVITATION { username: Seq<char>, roomname: Seq<char> },
    JOINED_ROOM { roomname: Seq<char>, username: Seq<char> },
    ROOM_USER_LIST { roomname: Seq<char>, users: Seq<(Seq<char>, Seq<char>)> },
    ROOM_TEXT_FROM { roomname: Seq<char>, username: Seq<char>, text: Seq<char> },
}

/// The mathematical content of a `Types_msg`.
pub enum MsgView {
    IDENTIFY { username: Seq<char> },
    STATUS { status: Seq<char> },
    USERS,
    TEXT { username: Seq<char>, text: Seq<char> },
    PUBLIC_TEXT { text: Seq<char> },
    NEW_ROOM { roomname: Seq<char> },
    INVITE { roomname: Seq<char>, usernames: Seq<Seq<char>> },
    JOIN_ROOM { roomname: Seq<char> },
    ROOM_USERS { roomname: Seq<char> },
    ROOM_TEXT { roomname: Seq<char>, text: Seq<char> },
    LEAVE_ROOM,
    DISCONNECT,
}

impl View for Type_protocol {
    type V = ProtocolView;

    open spec fn view(&self) -> ProtocolView {
        match self {
            Type_protocol::RESPONSE { operation, result, extra } => ProtocolView::RESPONSE {
                operation: operation@,
                result: *result,
                extra: extra@,
            },
            Type_protocol::NEW_USER { username } => ProtocolView::NEW_USER { username: username@ },
            Type_protocol::USER_LIST { users } => ProtocolView::USER_LIST {
                users: users.deep_view(),
            },
            Type_protocol::PUBLIC_TEXT_FROM { username, text } => ProtocolView::PUBLIC_TEXT_FROM {
                username: username@,
                text: text@,
            },
            Type_protocol::TEXT_FROM { username, text } => ProtocolView::TEXT_FROM {
                username: username@,
                text: text@,
            },
            Type_protocol::INVITATION { username, roomname } => ProtocolView::INVITATION {
                username: username@,
                roomname: roomname@,
            },
            Type_protocol::JOINED_ROOM { roomname, username } => ProtocolView::JOINED_ROOM {
                roomname: roomname@,
                username: username@,
            },
            Type_protocol::ROOM_USER_LIST { roomname, users } => ProtocolView::ROOM_USER_LIST {
                roomname: roomname@,
                users: users.deep_view(),
            },
            Type_protocol::ROOM_TEXT_FROM { roomname, username, text } =>
                ProtocolView::ROOM_TEXT_FROM {
                roomname: roomname@,
                username: username@,
                text: text@,
            },
        }
    }
}

impl View for Types_msg {
    type V = MsgView;

    open spec fn view(&self) -> MsgView {
        match self {
            Types_msg::IDENTIFY { username } => MsgView::IDENTIFY { username: username@ },
            Types_msg::STATUS { status } => MsgView::STATUS { status: status@ },
            Types_msg::USERS => MsgView::USERS,
            Types_msg::TEXT { username, text } => MsgView::TEXT {
                username: username@,
                text: text@,
            },
            Types_msg::PUBLIC_TEXT { text } => MsgView::PUBLIC_TEXT { text: text@ },
            Types_msg::NEW_ROOM { roomname } => MsgView::NEW_ROOM { roomname: roomname@ },
            Types_msg::INVITE { roomname, usernames } => MsgView::INVITE {
                roomname: roomname@,
                usernames: usernames.deep_view(),
            },
            Types_msg::JOIN_ROOM { roomname } => MsgView::JOIN_ROOM { roomname: roomname@ },
            Types_msg::ROOM_USERS { roomname } => MsgView::ROOM_USERS { roomname: roomname@ },
            Types_msg::ROOM_TEXT { roomname, text } => MsgView::ROOM_TEXT {
                roomname: roomname@,
                text: text@,
            },
            Types_msg::LEAVE_ROOM => MsgView::LEAVE_ROOM,
            Types_msg::DISCONNECT => MsgView::DISCONNECT,
        }
    }
}

/// A copy of a list of `(name, value)` pairs.
pub fn copy_pairs(v: &Vec<(String, String)>) -> (r: Vec<(String, String)>)
    ensures
        r.deep_view() == v.deep_view(),
{
    let mut r: Vec<(String, String)> = Vec::new();
    let mut i: usize = 0;
    while i < v.len()
        invariant
            i <= v@.len(),
            r.deep_view() == v.deep_view().take(i as int),
        decreases v@.len() - i,
    {
        let a = v[i].0.clone();
        let b = v[i].1.clone();
        assert(a@ == v@[i as int].0@ && b@ == v@[i as int].1@);
        let ghost before = r.deep_view();
        r.push((a, b));
        assert(r.deep_view() =~= before.push(v.deep_view()[i as int]));
        i = i + 1;
        assert(r.deep_view() =~= v.deep_view().take(i as int));
    }
    assert(v.deep_view().take(v@.len() as int) =~= v.deep_view());
    r
}

impl Type_protocol {
    /// A copy of this message.
    pub fn duplicate(&self) -> (r: Type_protocol)
        ensures
            r@ == self@,
    {
        match self {
            Type_protocol::RESPONSE { operation, result, extra } => Type_protocol::RESPONSE {
                operation: operation.clone(),
                result: *result,
                extra: extra.clone(),
            },
            Type_protocol::NEW_USER { username } => Type_protocol::NEW_USER {
                username: username.clone(),
            },
            Type_protocol::USER_LIST { users } => Type_protocol::USER_LIST {
                users: copy_pairs(users),
            },
            Type_protocol::PUBLIC_TEXT_FROM { username, text } => Type_protocol::PUBLIC_TEXT_FROM {
                username: username.clone(),
                text: text.clone(),
            },
            Type_protocol::TEXT_FROM { username, text } => Type_protocol::TEXT_FROM {
                username: username.clone(),
                text: text.clone(),
            },
            Type_protocol::INVITATION { username, roomname } => Type_protocol::INVITATION {
                username: username.clone(),
                roomname: roomname.clone(),
            },
            Type_protocol::JOINED_ROOM { roomname, username } => Type_protocol::JOINED_ROOM {
                roomname: roomname.clone(),
                username: username.clone(),
            },
            Type_protocol::ROOM_USER_LIST { roomname, users } => Type_protocol::ROOM_USER_LIST {
                roomname: roomname.clone(),
                users: copy_pairs(users),
            },
            Type_protocol::ROOM_TEXT_FROM { roomname, username, text } =>
                Type_protocol::ROOM_TEXT_FROM {
                roomname: roomname.clone(),
                username: username.clone(),
                text: text.clone(),
            },
        }
    }
}

} // verus!
