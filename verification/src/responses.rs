//! What the client shows for each message of the server: lines for the
//! standard output, and one line for the error output.
use vstd::prelude::*;
use vstd::string::StringExecFns;
use crate::protocol::{ProtocolView, ResultType, Type_protocol};

verus! {

/// A line to show, on the error output when `error` holds.
#[derive(Debug, PartialEq, Eq)]
pub struct Line {
    pub error: bool,
    pub text: String,
}

impl View for Line {
    type V = (bool, Seq<char>);

    open spec fn view(&self) -> (bool, Seq<char>) {
        (self.error, self.text@)
    }
}

/// The views of a list of lines.
pub open spec fn lines_view(v: Seq<Line>) -> Seq<(bool, Seq<char>)> {
    v.map_values(|l: Line| l@)
}

/// The rule drawn around room announcements.
pub open spec fn rule() -> Seq<char> {
    "--------------------------------------------------------"@
}

/// A line of the standard output.
pub open spec fn out(s: Seq<char>) -> (bool, Seq<char>) {
    (false, s)
}

/// A rule, the line `s`, and a rule.
pub open spec fn framed(s: Seq<char>) -> Seq<(bool, Seq<char>)> {
    seq![out(rule()), out(s), out(rule())]
}

/// One line per `(user, status)` pair, `before` + user + `middle` + status.
pub open spec fn pair_lines(
    users: Seq<(Seq<char>, Seq<char>)>,
    before: Seq<char>,
    middle: Seq<char>,
) -> Seq<(bool, Seq<char>)> {
    users.map_values(|p: (Seq<char>, Seq<char>)| out(before + p.0 + middle + p.1))
}

/// What the client shows for the message `m` of the server.
pub open spec fn spec_type_response(m: ProtocolView) -> Seq<(bool, Seq<char>)> {
    match m {
        ProtocolView::RESPONSE { operation, result, extra } => {
            if operation == "IDENTFY"@ {
                seq![out(" -> was indentificate: "@ + extra)]
            } else if operation == "ROOM_USERS"@ && result == ResultType::NOT_JOINED {
                seq![(true, "-- you not have in this room --"@)]
            } else if operation == "NEW_ROOM"@ && result == ResultType::SUCCESS {
                framed("> Currently you created the -- "@ + extra + " -- room "@)
            } else if operation == "JOIN_ROOM"@ && result == ResultType::SUCCESS {
                framed("> Currently you joined in the -- "@ + extra + " -- room "@)
            } else {
                seq![]
            }
        },
        ProtocolView::NEW_USER { username } => seq![
            out("> "@ + username + " was joined to the general chat"@),
        ],
        ProtocolView::TEXT_FROM { username, text } => seq![
            out("> FROM: "@ + username + " --> "@ + text),
        ],
        ProtocolView::PUBLIC_TEXT_FROM { username, text } => seq![
            out("> "@ + username + ": "@ + text),
        ],
        ProtocolView::USER_LIST { users } => seq![out("all theese clients ------> "@)] + pair_lines(
            users,
            "> "@,
            " -> status: "@,
        ),
        ProtocolView::INVITATION { username, roomname } => seq![
            out(
                "> You has an invitation from "@ + username + " to join in the "@ + roomname
                    + " room ---- "@,
            ),
        ],
        ProtocolView::JOINED_ROOM { roomname, username } => framed(
            "> Currently "@ + username + " are in the -- "@ + roomname + " -- room "@,
        ),
        ProtocolView::ROOM_USER_LIST { roomname, users } => seq![
            out("Current users in the -- "@ + roomname + " -- room ->> "@),
        ] + pair_lines(users, "ROOM -> username -- "@, " -- status: "@),
        ProtocolView::ROOM_TEXT_FROM { roomname, username, text } => seq![
            out("> "@ + roomname + ": "@ + username + " -> "@ + text),
        ],
    }
}

/// Appends `t` to `s`.
fn push_str(s: &mut String, t: &str)
    ensures
        final(s)@ == old(s)@ + t@,
{
    s.append(t);
}

/// The string `a` followed by `b`.
fn cat(a: &str, b: &str) -> (r: String)
    ensures
        r@ == a@ + b@,
{
    let mut r = a.to_owned();
    push_str(&mut r, b);
    r
}

/// A line of the standard output.
fn line(text: String) -> (l: Line)
    ensures
        l@ == out(text@),
{
    Line { error: false, text }
}

/// A rule, `text`, and a rule.
fn framed_lines(text: String) -> (v: Vec<Line>)
    ensures
        lines_view(v@) == framed(text@),
{
    let v = vec![line("--------------------------------------------------------".to_owned()), line(text), line("--------------------------------------------------------".to_owned())];
    assert(lines_view(v@) =~= framed(text@));
    v
}

/// One line per pair, appended to `v`.
fn push_pair_lines(v: &mut Vec<Line>, users: &Vec<(String, String)>, before: &str, middle: &str)
    ensures
        lines_view(final(v)@) == lines_view(old(v)@) + pair_lines(
            users.deep_view(),
            before@,
            middle@,
        ),
{
    let ghost start = lines_view(v@);
    let mut i: usize = 0;
    while i < users.len()
        invariant
            i <= users@.len(),
            lines_view(v@) == start + pair_lines(users.deep_view().take(i as int), before@, middle@),
        decreases users@.len() - i,
    {
        let ghost prev = lines_view(v@);
        let mut s = cat(before, users[i].0.as_str());
        push_str(&mut s, middle);
        push_str(&mut s, users[i].1.as_str());
        v.push(line(s));
        assert(users.deep_view().take(i + 1) =~= users.deep_view().take(i as int).push(
            users.deep_view()[i as int],
        ));
        assert(lines_view(v@) =~= prev.push(out(before@ + users.deep_view()[i as int].0 + middle@ + users.deep_view()[i as int].1)));
        i = i + 1;
    }
    assert(users.deep_view().take(users@.len() as int) =~= users.deep_view());
}

/// What the client shows for the message `response` of the server.
pub fn type_response(response: &Type_protocol) -> (v: Vec<Line>)
    ensures
        lines_view(v@) == spec_type_response(response@),
{
    match response {
        Type_protocol::RESPONSE { operation, result, extra } => {
            if *operation == "IDENTFY".to_owned() {
                let v = vec![line(cat(" -> was indentificate: ", extra.as_str()))];
                assert(lines_view(v@) =~= spec_type_response(response@));
                v
            } else if *operation == "ROOM_USERS".to_owned() && *result == ResultType::NOT_JOINED {
                let v = vec![Line { error: true, text: "-- you not have in this room --".to_owned() }];
                assert(lines_view(v@) =~= spec_type_response(response@));
                v
            } else if *operation == "NEW_ROOM".to_owned() && *result == ResultType::SUCCESS {
                let mut s = cat("> Currently you created the -- ", extra.as_str());
                push_str(&mut s, " -- room ");
                framed_lines(s)
            } else if *operation == "JOIN_ROOM".to_owned() && *result == ResultType::SUCCESS {
                let mut s = cat("> Currently you joined in the -- ", extra.as_str());
                push_str(&mut s, " -- room ");
                framed_lines(s)
            } else {
                let v: Vec<Line> = Vec::new();
                assert(lines_view(v@) =~= spec_type_response(response@));
                v
            }
        },
        Type_protocol::NEW_USER { username } => {
            let mut s = cat("> ", username.as_str());
            push_str(&mut s, " was joined to the general chat");
            let v = vec![line(s)];
            assert(lines_view(v@) =~= spec_type_response(response@));
            v
        },
        Type_protocol::TEXT_FROM { username, text } => {
            let mut s = cat("> FROM: ", username.as_str());
            push_str(&mut s, " --> ");
            push_str(&mut s, text.as_str());
            let v = vec![line(s)];
            assert(lines_view(v@) =~= spec_type_response(response@));
            v
        },
        Type_protocol::PUBLIC_TEXT_FROM { username, text } => {
            let mut s = cat("> ", username.as_str());
            push_str(&mut s, ": ");
            push_str(&mut s, text.as_str());
            let v = vec![line(s)];
            assert(lines_view(v@) =~= spec_type_response(response@));
            v
        },
        Type_protocol::USER_LIST { users } => {
            let mut v = vec![line("all theese clients ------> ".to_owned())];
            push_pair_lines(&mut v, users, "> ", " -> status: ");
            v
        },
        Type_protocol::INVITATION { username, roomname } => {
            let mut s = cat("> You has an invitation from ", username.as_str());
            push_str(&mut s, " to join in the ");
            push_str(&mut s, roomname.as_str());
            push_str(&mut s, " room ---- ");
            let v = vec![line(s)];
            assert(lines_view(v@) =~= spec_type_response(response@));
            v
        },
        Type_protocol::JOINED_ROOM { roomname, username } => {
            let mut s = cat("> Currently ", username.as_str());
            push_str(&mut s, " are in the -- ");
            push_str(&mut s, roomname.as_str());
            push_str(&mut s, " -- room ");
            framed_lines(s)
        },
        Type_protocol::ROOM_USER_LIST { roomname, users } => {
            let mut s = cat("Current users in the -- ", roomname.as_str());
            push_str(&mut s, " -- room ->> ");
            let mut v = vec![line(s)];
            push_pair_lines(&mut v, users, "ROOM -> username -- ", " -- status: ");
            v
        },
        Type_protocol::ROOM_TEXT_FROM { roomname, username, text } => {
            let mut s = cat("> ", roomname.as_str());
            push_str(&mut s, ": ");
            push_str(&mut s, username.as_str());
            push_str(&mut s, " -> ");
            push_str(&mut s, text.as_str());
            let v = vec![line(s)];
            assert(lines_view(v@) =~= spec_type_response(response@));
            v
        },
    }
}

/// The user list is shown as its header line followed by one line per
/// user, in the order of the list: `> `, the name, ` -> status: `, the
/// status. Every user of the list is shown.
pub proof fn law_user_list_lines(users: Seq<(Seq<char>, Seq<char>)>)
    ensures
        ({
            let v = spec_type_response(ProtocolView::USER_LIST { users });
            &&& v.len() == users.len() + 1
            &&& v[0] == (false, "all theese clients ------> "@)
            &&& forall|i: int|
                0 <= i < users.len() ==> #[trigger] v[i + 1] == (
                    false,
                    "> "@ + users[i].0 + " -> status: "@ + users[i].1,
                )
        }),
{
}

/// The user list of a room is shown as its header line, naming the room,
/// followed by one line per user, in the order of the list. Every user of
/// the list is shown.
pub proof fn law_room_user_list_lines(roomname: Seq<char>, users: Seq<(Seq<char>, Seq<char>)>)
    ensures
        ({
            let v = spec_type_response(ProtocolView::ROOM_USER_LIST { roomname, users });
            &&& v.len() == users.len() + 1
            &&& v[0] == (false, "Current users in the -- "@ + roomname + " -- room ->> "@)
            &&& forall|i: int|
                0 <= i < users.len() ==> #[trigger] v[i + 1] == (
                    false,
                    "ROOM -> username -- "@ + users[i].0 + " -- status: "@ + users[i].1,
                )
        }),
{
}

} // verus!
