//! The chat client: the requests it builds, and the command language of its
//! prompt, which turns a line the user types into a request.
use vstd::prelude::*;
use crate::protocol::{MsgView, Types_msg};
use crate::server::opt_msg_view;
use crate::text::{
    chars_of, find_char, is_ws, lemma_remove_absent, lemma_remove_absent_char, lemma_remove_prefix,
    lemma_trim_trimmed, occurs_at, remove_all, remove_all_chars, slice_chars, split_whitespace,
    starts_with, starts_with_str, string_from, strings_view, trim, trim_chars, trim_string, words,
};

verus! {

/// The mathematical content of a client.
pub struct ClientView {
    pub username: Seq<char>,
    pub status: Seq<char>,
}

/// A chat client: its user name and status.
pub struct Client {
    username: String,
    status: String,
}

impl View for Client {
    type V = ClientView;

    closed spec fn view(&self) -> ClientView {
        ClientView { username: self.username@, status: self.status@ }
    }
}

impl Client {
    /// A client for `username`, with status `AWAY`.
    pub fn new(username: String) -> (c: Client)
        ensures
            c@ == (ClientView { username: username@, status: "AWAY"@ }),
    {
        let status = "AWAY".to_owned();
        Client { username, status }
    }

    /// The user name.
    pub fn get_id(&self) -> (id: &String)
        ensures
            id@ == self@.username,
    {
        &self.username
    }

    /// The request that identifies this client's user.
    pub fn send_identify(&self) -> (m: Types_msg)
        ensures
            m@ == (MsgView::IDENTIFY { username: self@.username }),
    {
        Types_msg::IDENTIFY { username: self.username.clone() }
    }

    /// The request that sends `pub_text` to everyone.
    pub fn send_pub_text(&self, pub_text: &mut String) -> (m: Types_msg)
        ensures
            m@ == (MsgView::PUBLIC_TEXT { text: old(pub_text)@ }),
            final(pub_text)@ == old(pub_text)@,
    {
        Types_msg::PUBLIC_TEXT { text: pub_text.clone() }
    }

    /// The request for the list of users.
    pub fn request_users(&self) -> (m: Types_msg)
        ensures
            m@ == MsgView::USERS,
    {
        Types_msg::USERS
    }

    /// The request that sends `priv_text` to the user `id_name` alone.
    pub fn send_priv_text(&self, priv_text: String, id_name: String) -> (m: Types_msg)
        ensures
            m@ == (MsgView::TEXT { username: id_name@, text: priv_text@ }),
    {
        Types_msg::TEXT { username: id_name, text: priv_text }
    }

    /// The request that creates the room `room_name`.
    pub fn request_new_room(&self, room_name: String) -> (m: Types_msg)
        ensures
            m@ == (MsgView::NEW_ROOM { roomname: room_name@ }),
    {
        Types_msg::NEW_ROOM { roomname: room_name }
    }

    /// The request that invites `user_names` into the room `room_name`.
    pub fn send_room_bid(&self, room_name: String, user_names: Vec<String>) -> (m: Types_msg)
        ensures
            m@ == (MsgView::INVITE { roomname: room_name@, usernames: user_names.deep_view() }),
    {
        Types_msg::INVITE { roomname: room_name, usernames: user_names }
    }

    /// The request that joins the room `room_name`.
    pub fn join_room(&self, room_name: String) -> (m: Types_msg)
        ensures
            m@ == (MsgView::JOIN_ROOM { roomname: room_name@ }),
    {
        Types_msg::JOIN_ROOM { roomname: room_name }
    }

    /// The request for the users of the room `room_name`.
    pub fn room_users(&self, room_name: String) -> (m: Types_msg)
        ensures
            m@ == (MsgView::ROOM_USERS { roomname: room_name@ }),
    {
        Types_msg::ROOM_USERS { roomname: room_name }
    }

    /// The request that sends `text_` to the room `room_name`.
    pub fn room_text(&self, room_name: String, text_: String) -> (m: Types_msg)
        ensures
            m@ == (MsgView::ROOM_TEXT { roomname: room_name@, text: text_@ }),
    {
        Types_msg::ROOM_TEXT { roomname: room_name, text: text_ }
    }
}

/// `s` holds no `>`.
pub open spec fn no_gt(s: Seq<char>) -> bool {
    forall|k: int| 0 <= k < s.len() ==> s[k] != '>'
}

/// The text `<a> <b>`.
pub open spec fn bracket_pair(a: Seq<char>, b: Seq<char>) -> Seq<char> {
    seq!['<'] + a + seq!['>', ' ', '<'] + b + seq!['>']
}

/// The invitation pattern `<([^>]+)> <([^>]+)>` matches `t` at `i`, with
/// groups `a` and `b`.
pub open spec fn invite_match_at(t: Seq<char>, i: int, a: Seq<char>, b: Seq<char>) -> bool {
    &&& a.len() > 0
    &&& b.len() > 0
    &&& no_gt(a)
    &&& no_gt(b)
    &&& occurs_at(t, bracket_pair(a, b), i)
}

/// The invitation pattern matches somewhere in `t`.
pub open spec fn invite_matches(t: Seq<char>) -> bool {
    exists|i: int, a: Seq<char>, b: Seq<char>| #[trigger] invite_match_at(t, i, a, b)
}

/// `a` and `b` are the groups of the leftmost match of the invitation pattern in `t`.
pub open spec fn leftmost_invite(t: Seq<char>, a: Seq<char>, b: Seq<char>) -> bool {
    exists|i: int|
        #![trigger invite_match_at(t, i, a, b)]
        invite_match_at(t, i, a, b) && forall|j: int, a2: Seq<char>, b2: Seq<char>|
            j < i ==> !#[trigger] invite_match_at(t, j, a2, b2)
}

/// The groups of the leftmost match of the invitation pattern in `t`, if any.
pub open spec fn invite_groups(t: Seq<char>) -> Option<(Seq<char>, Seq<char>)> {
    if invite_matches(t) {
        Some(choose|p: (Seq<char>, Seq<char>)| leftmost_invite(t, p.0, p.1))
    } else {
        None
    }
}

/// At a given position the invitation pattern has at most one match.
proof fn lemma_match_unique(t: Seq<char>, i: int, a: Seq<char>, b: Seq<char>, a2: Seq<char>, b2: Seq<char>)
    requires
        invite_match_at(t, i, a, b),
        invite_match_at(t, i, a2, b2),
    ensures
        a == a2,
        b == b2,
{
    let m = bracket_pair(a, b);
    let m2 = bracket_pair(a2, b2);
    assert(forall|k: int| 0 <= k < m.len() ==> t[i + k] == #[trigger] m[k]) by {
        assert forall|k: int| 0 <= k < m.len() implies t[i + k] == #[trigger] m[k] by {
            assert(t.subrange(i, i + m.len())[k] == m[k]);
        }
    }
    assert(forall|k: int| 0 <= k < m2.len() ==> t[i + k] == #[trigger] m2[k]) by {
        assert forall|k: int| 0 <= k < m2.len() implies t[i + k] == #[trigger] m2[k] by {
            assert(t.subrange(i, i + m2.len())[k] == m2[k]);
        }
    }
    // the first group ends at the first '>'
    if a.len() < a2.len() {
        assert(m[1 + a.len() as int] == '>');
        assert(m2[1 + a.len() as int] == a2[a.len() as int]);
    }
    if a2.len() < a.len() {
        assert(m2[1 + a2.len() as int] == '>');
        assert(m[1 + a2.len() as int] == a[a2.len() as int]);
    }
    assert(a.len() == a2.len());
    assert forall|k: int| 0 <= k < a.len() implies a[k] == a2[k] by {
        assert(m[1 + k] == a[k]);
        assert(m2[1 + k] == a2[k]);
    }
    assert(a =~= a2);
    let o: int = 4 + a.len() as int;
    if b.len() < b2.len() {
        assert(m[o + b.len() as int] == '>');
        assert(m2[o + b.len() as int] == b2[b.len() as int]);
    }
    if b2.len() < b.len() {
        assert(m2[o + b2.len() as int] == '>');
        assert(m[o + b2.len() as int] == b[b2.len() as int]);
    }
    assert(b.len() == b2.len());
    assert forall|k: int| 0 <= k < b.len() implies b[k] == b2[k] by {
        assert(m[o + k] == b[k]);
        assert(m2[o + k] == b2[k]);
    }
    assert(b =~= b2);
}

/// The leftmost match of the invitation pattern is unique.
proof fn lemma_leftmost_unique(t: Seq<char>, a: Seq<char>, b: Seq<char>, a2: Seq<char>, b2: Seq<char>)
    requires
        leftmost_invite(t, a, b),
        leftmost_invite(t, a2, b2),
    ensures
        a == a2,
        b == b2,
{
    let i = choose|i: int|
        #![trigger invite_match_at(t, i, a, b)]
        invite_match_at(t, i, a, b) && forall|j: int, x: Seq<char>, y: Seq<char>|
            j < i ==> !#[trigger] invite_match_at(t, j, x, y);
    let i2 = choose|i2: int|
        #![trigger invite_match_at(t, i2, a2, b2)]
        invite_match_at(t, i2, a2, b2) && forall|j: int, x: Seq<char>, y: Seq<char>|
            j < i2 ==> !#[trigger] invite_match_at(t, j, x, y);
    if i < i2 {
        assert(!invite_match_at(t, i, a, b));
    }
    if i2 < i {
        assert(!invite_match_at(t, i2, a2, b2));
    }
    lemma_match_unique(t, i, a, b, a2, b2);
}

/// The groups of the leftmost match of the pattern in `text`
/// (`regex::Regex::new(pattern)` and `Regex::captures`, groups 1 and 2).
/// Claimed: for the invitation pattern, the call finds the leftmost match,
/// and a match at a given position has the groups the pattern forces.
#[verifier::external_body]
fn regex_captures(pattern: &str, text: &str) -> (r: Option<(String, String)>)
    requires
        pattern@ == "<([^>]+)> <([^>]+)>"@,
    ensures
        r is None ==> !invite_matches(text@),
        r matches Some(p) ==> leftmost_invite(text@, p.0@, p.1@),
{
    let re = regex::Regex::new(pattern).unwrap();
    re.captures(text).map(|c| (c[1].to_string(), c[2].to_string()))
}

/// The words of `users`, and `room` trimmed, as an invitation request.
pub open spec fn spec_invite_command(users: Seq<char>, room: Seq<char>) -> MsgView {
    MsgView::INVITE { roomname: trim(room), usernames: words(users) }
}

/// Where the first `/` is in `p`, or its length when there is none.
pub open spec fn slash_cut(p: Seq<char>) -> int {
    if exists|k: int| 0 <= k < p.len() && p[k] == '/' {
        choose|k: int| 0 <= k < p.len() && p[k] == '/' && forall|j: int| 0 <= j < k ==> p[j] != '/'
    } else {
        p.len() as int
    }
}

/// The request a typed line makes: the line is trimmed, its leading keyword
/// picks the request, and every occurrence of that keyword is removed.
pub open spec fn spec_command(line: Seq<char>) -> Option<MsgView> {
    let t = trim(line);
    if starts_with(t, ">"@) {
        Some(MsgView::PUBLIC_TEXT { text: remove_all(t, ">"@) })
    } else if starts_with(t, "all/"@) {
        Some(MsgView::USERS)
    } else if starts_with(t, "txfrom/"@) {
        let p = remove_all(t, "txfrom/"@);
        let cut = slash_cut(p);
        Some(
            MsgView::TEXT {
                username: remove_all(trim(p.take(cut)), " "@),
                text: remove_all(p.skip(cut), "/"@),
            },
        )
    } else if starts_with(t, "room/"@) {
        Some(MsgView::NEW_ROOM { roomname: trim(remove_all(t, "room/"@)) })
    } else if starts_with(t, "INVITE/"@) {
        match invite_groups(remove_all(t, "INVITE/"@)) {
            Some(g) => Some(spec_invite_command(g.0, g.1)),
            None => None,
        }
    } else if starts_with(t, "JOIN/"@) {
        Some(MsgView::JOIN_ROOM { roomname: trim(remove_all(t, "JOIN/"@)) })
    } else if starts_with(t, "ROOM_CONTENT/"@) {
        Some(MsgView::ROOM_USERS { roomname: trim(remove_all(t, "ROOM_CONTENT/"@)) })
    } else if starts_with(t, "TX_ROOM/"@) {
        let p = remove_all(t, "TX_ROOM/"@);
        let cut = slash_cut(p);
        Some(
            MsgView::ROOM_TEXT {
                roomname: remove_all(trim(p.take(cut)), " "@),
                text: remove_all(p.skip(cut), "/"@),
            },
        )
    } else {
        None
    }
}

/// `p` cut before its first `/`: the part before it, and the rest.
fn split_at_slash(p: &Vec<char>) -> (r: (Vec<char>, Vec<char>))
    ensures
        r.0@ == p@.take(slash_cut(p@)),
        r.1@ == p@.skip(slash_cut(p@)),
{
    let cut = match find_char(p, '/') {
        Some(i) => {
            proof {
                let k = choose|k: int|
                    0 <= k < p@.len() && p@[k] == '/' && forall|j: int| 0 <= j < k ==> p@[j] != '/';
                if k < i {
                    assert(p@[k] != '/');
                }
                if i < k {
                    assert(p@[i as int] != '/');
                }
                assert(slash_cut(p@) == i);
            }
            i
        },
        None => p.len(),
    };
    let head = slice_chars(p, 0, cut);
    let tail = slice_chars(p, cut, p.len());
    assert(head@ =~= p@.take(slash_cut(p@)));
    assert(tail@ =~= p@.skip(slash_cut(p@)));
    (head, tail)
}

/// `v` with every occurrence of the non-empty string `pat` removed.
fn strip(v: &Vec<char>, pat: &str) -> (r: Vec<char>)
    requires
        pat@.len() > 0,
    ensures
        r@ == remove_all(v@, pat@),
{
    let p = chars_of(pat);
    remove_all_chars(v, &p)
}

impl Client {
    /// The invitation request built from the two groups of an invitation
    /// command: the words of `users`, into the room `room` trimmed.
    pub fn invite_command(&self, users: &String, room: &String) -> (m: Types_msg)
        ensures
            m@ == spec_invite_command(users@, room@),
    {
        let vec_users = split_whitespace(users.as_str());
        assert(vec_users.deep_view() =~= strings_view(vec_users@));
        let room_name = trim_string(room.as_str());
        self.send_room_bid(room_name, vec_users)
    }
}

/// The groups of a leftmost match are the invitation groups.
proof fn lemma_groups(t: Seq<char>, a: Seq<char>, b: Seq<char>)
    requires
        leftmost_invite(t, a, b),
    ensures
        invite_groups(t) == Some((a, b)),
{
    let i = choose|i: int|
        #![trigger invite_match_at(t, i, a, b)]
        invite_match_at(t, i, a, b) && forall|j: int, x: Seq<char>, y: Seq<char>|
            j < i ==> !#[trigger] invite_match_at(t, j, x, y);
    assert(invite_match_at(t, i, a, b));
    assert(invite_matches(t));
    assert(leftmost_invite(t, (a, b).0, (a, b).1));
    let p = choose|p: (Seq<char>, Seq<char>)| leftmost_invite(t, p.0, p.1);
    lemma_leftmost_unique(t, a, b, p.0, p.1);
}

impl Client {
    /// The request a typed line makes, if the line is a command.
    pub fn command(&self, line: &String) -> (r: Option<Types_msg>)
        ensures
            opt_msg_view(r) == spec_command(line@),
    {
        proof {
            reveal_strlit(">");
            reveal_strlit("txfrom/");
            reveal_strlit("room/");
            reveal_strlit("INVITE/");
            reveal_strlit("JOIN/");
            reveal_strlit("ROOM_CONTENT/");
            reveal_strlit("TX_ROOM/");
            reveal_strlit(" ");
            reveal_strlit("/");
        }
        let v = chars_of(line.as_str());
        let t = trim_chars(&v);
        if starts_with_str(&t, ">") {
            let mut proccess_protocol = string_from(strip(&t, ">").as_slice());
            Some(self.send_pub_text(&mut proccess_protocol))
        } else if starts_with_str(&t, "all/") {
            Some(self.request_users())
        } else if starts_with_str(&t, "txfrom/") {
            let p = strip(&t, "txfrom/");
            let (head, tail) = split_at_slash(&p);
            let id_name = string_from(strip(&trim_chars(&head), " ").as_slice());
            let priv_text = string_from(strip(&tail, "/").as_slice());
            Some(self.send_priv_text(priv_text, id_name))
        } else if starts_with_str(&t, "room/") {
            let name = string_from(trim_chars(&strip(&t, "room/")).as_slice());
            Some(self.request_new_room(name))
        } else if starts_with_str(&t, "INVITE/") {
            let p = string_from(strip(&t, "INVITE/").as_slice());
            match regex_captures("<([^>]+)> <([^>]+)>", p.as_str()) {
                Some(g) => {
                    proof {
                        lemma_groups(p@, g.0@, g.1@);
                    }
                    Some(self.invite_command(&g.0, &g.1))
                },
                None => None,
            }
        } else if starts_with_str(&t, "JOIN/") {
            let name = string_from(trim_chars(&strip(&t, "JOIN/")).as_slice());
            Some(self.join_room(name))
        } else if starts_with_str(&t, "ROOM_CONTENT/") {
            let name = string_from(trim_chars(&strip(&t, "ROOM_CONTENT/")).as_slice());
            Some(self.room_users(name))
        } else if starts_with_str(&t, "TX_ROOM/") {
            let p = strip(&t, "TX_ROOM/");
            let (head, tail) = split_at_slash(&p);
            let room_name = string_from(strip(&trim_chars(&head), " ").as_slice());
            let room_text = string_from(strip(&tail, "/").as_slice());
            Some(self.room_text(room_name, room_text))
        } else {
            None
        }
    }
}

/// A typed line that starts with `pre`'s first character mismatched does
/// not start with `pre`.
proof fn lemma_not_starts(line: Seq<char>, pre: Seq<char>)
    requires
        pre.len() > 0,
        line.len() > 0,
        line[0] != pre[0],
    ensures
        !starts_with(line, pre),
{
    if starts_with(line, pre) {
        assert(line.subrange(0, pre.len() as int)[0] == line[0]);
    }
}

/// A line made of a keyword ending in its only `/`, then text without `/`
/// and without trailing whitespace: the line is its own trim, starts with
/// the keyword, and cutting the keyword out leaves the text.
proof fn lemma_keyword_line(key: Seq<char>, x: Seq<char>)
    requires
        key.len() > 0,
        key.last() == '/',
        forall|i: int| 0 <= i < key.len() - 1 ==> key[i] != '/',
        !is_ws(key[0]),
        forall|i: int| 0 <= i < x.len() ==> x[i] != '/',
        x.len() == 0 || !is_ws(x.last()),
    ensures
        trim(key + x) == key + x,
        starts_with(key + x, key),
        remove_all(key + x, key) == x,
{
    let line = key + x;
    assert(line[0] == key[0]);
    assert(line.last() == if x.len() == 0 { key.last() } else { x.last() });
    lemma_trim_trimmed(line);
    assert(line.subrange(0, key.len() as int) =~= key);
    lemma_remove_prefix(key, x);
    assert forall|i: int| !#[trigger] occurs_at(x, key, i) by {
        if occurs_at(x, key, i) {
            assert(x.subrange(i, i + key.len())[key.len() - 1] == x[i + key.len() - 1]);
        }
    }
    lemma_remove_absent(x, key);
}

/// A line made of a keyword ending in its only `/`, a name without `/` that
/// does not end with the keyword's text before its `/`, a `/`, and a text
/// without `/` or trailing whitespace: the line is its own trim, starts
/// with the keyword, cutting the keyword out leaves name, `/` and text, the
/// first `/` of that is the one after the name, and cutting the `/` out of
/// what follows the name leaves the text.
proof fn lemma_addressed_line(key: Seq<char>, n: Seq<char>, x: Seq<char>)
    requires
        key.len() > 0,
        key.last() == '/',
        forall|i: int| 0 <= i < key.len() - 1 ==> key[i] != '/',
        !is_ws(key[0]),
        forall|i: int| 0 <= i < n.len() ==> n[i] != '/',
        forall|i: int| 0 <= i < x.len() ==> x[i] != '/',
        n.len() < key.len() - 1 || n.subrange(n.len() - (key.len() - 1), n.len() as int)
            != key.drop_last(),
        x.len() == 0 || !is_ws(x.last()),
    ensures
        ({
            let rest = n + "/"@ + x;
            let line = key + n + "/"@ + x;
            &&& trim(line) == line
            &&& starts_with(line, key)
            &&& remove_all(line, key) == rest
            &&& slash_cut(rest) == n.len()
            &&& rest.take(n.len() as int) == n
            &&& remove_all(rest.skip(n.len() as int), "/"@) == x
        }),
{
    reveal_strlit("/");
    let rest = n + "/"@ + x;
    let line = key + rest;
    assert(key + n + "/"@ + x =~= line);
    let k = n.len() as int;
    let l = key.len() as int;
    assert(rest[k] == '/');
    assert forall|j: int| 0 <= j < rest.len() && j != k implies rest[j] != '/' by {
        if j < k {
            assert(rest[j] == n[j]);
        } else {
            assert(rest[j] == x[j - k - 1]);
        }
    }
    assert(line[0] == key[0]);
    assert(line.last() == if x.len() == 0 { '/' } else { x.last() });
    lemma_trim_trimmed(line);
    assert(line.subrange(0, l) =~= key);
    lemma_remove_prefix(key, rest);
    assert forall|i: int| !#[trigger] occurs_at(rest, key, i) by {
        if occurs_at(rest, key, i) {
            assert(rest.subrange(i, i + l)[l - 1] == rest[i + l - 1]);
            assert(i + l - 1 == k);
            assert(n.subrange(k - (l - 1), k) =~= rest.subrange(i, i + l).take(l - 1));
            assert(key.drop_last() =~= key.take(l - 1));
        }
    }
    lemma_remove_absent(rest, key);
    assert(slash_cut(rest) == k) by {
        assert(0 <= k < rest.len() && rest[k] == '/');
        let c = choose|c: int|
            0 <= c < rest.len() && rest[c] == '/' && forall|j: int| 0 <= j < c ==> rest[j] != '/';
        if c < k {
            assert(rest[c] != '/');
        }
        if c > k {
            assert(rest[k] != '/');
        }
    }
    assert(rest.take(k) =~= n);
    assert(rest.skip(k) =~= "/"@ + x);
    lemma_remove_prefix("/"@, x);
    assert("/"@ =~= seq!['/']);
    lemma_remove_absent_char(x, '/');
}

/// A private text command `txfrom/` + name + `/` + text, typed without
/// trailing whitespace, asks to send the text, character for character and
/// spaces included, to the name trimmed and without spaces. This holds for
/// every name and text without `/`, except a name ending in `txfrom` (the
/// command keyword would then also be cut out of it).
pub proof fn law_private_text_command(n: Seq<char>, x: Seq<char>)
    requires
        forall|i: int| 0 <= i < n.len() ==> n[i] != '/',
        forall|i: int| 0 <= i < x.len() ==> x[i] != '/',
        n.len() < 6 || n.subrange(n.len() - 6, n.len() as int) != "txfrom"@,
        x.len() == 0 || !is_ws(x.last()),
    ensures
        spec_command("txfrom/"@ + n + "/"@ + x) == Some(
            MsgView::TEXT { username: remove_all(trim(n), " "@), text: x },
        ),
{
    reveal_strlit("txfrom/");
    reveal_strlit("txfrom");
    reveal_strlit(">");
    reveal_strlit("all/");
    let key = "txfrom/"@;
    assert(key.drop_last() =~= "txfrom"@);
    lemma_addressed_line(key, n, x);
    let line = key + n + "/"@ + x;
    let rest = n + "/"@ + x;
    assert(trim(line) == line);
    assert(remove_all(trim(line), key) == rest);
    lemma_not_starts(line, ">"@);
    lemma_not_starts(line, "all/"@);
}

/// A room text command `TX_ROOM/` + room + `/` + text, typed without
/// trailing whitespace, asks to send the text, character for character and
/// spaces included, to the room named by the room trimmed and without
/// spaces. This holds for every room name and text without `/`, except a
/// room name ending in `TX_ROOM`.
pub proof fn law_room_text_command(n: Seq<char>, x: Seq<char>)
    requires
        forall|i: int| 0 <= i < n.len() ==> n[i] != '/',
        forall|i: int| 0 <= i < x.len() ==> x[i] != '/',
        n.len() < 7 || n.subrange(n.len() - 7, n.len() as int) != "TX_ROOM"@,
        x.len() == 0 || !is_ws(x.last()),
    ensures
        spec_command("TX_ROOM/"@ + n + "/"@ + x) == Some(
            MsgView::ROOM_TEXT { roomname: remove_all(trim(n), " "@), text: x },
        ),
{
    reveal_strlit("TX_ROOM/");
    reveal_strlit("TX_ROOM");
    reveal_strlit(">");
    reveal_strlit("all/");
    reveal_strlit("txfrom/");
    reveal_strlit("room/");
    reveal_strlit("INVITE/");
    reveal_strlit("JOIN/");
    reveal_strlit("ROOM_CONTENT/");
    let key = "TX_ROOM/"@;
    assert(key.drop_last() =~= "TX_ROOM"@);
    lemma_addressed_line(key, n, x);
    let line = key + n + "/"@ + x;
    let rest = n + "/"@ + x;
    assert(trim(line) == line);
    assert(remove_all(trim(line), key) == rest);
    assert(line[0] == 'T');
    lemma_not_starts(line, ">"@);
    lemma_not_starts(line, "all/"@);
    lemma_not_starts(line, "txfrom/"@);
    lemma_not_starts(line, "room/"@);
    lemma_not_starts(line, "INVITE/"@);
    lemma_not_starts(line, "JOIN/"@);
    assert(!starts_with(line, "ROOM_CONTENT/"@)) by {
        if starts_with(line, "ROOM_CONTENT/"@) {
            assert(line.subrange(0, 13)[1] == line[1]);
            assert(line[1] == 'X');
        }
    }
}

/// A public text command `>` + text, typed without trailing whitespace,
/// asks to send the text to everyone, character for character, for every
/// text without `>`.
pub proof fn law_public_text_command(x: Seq<char>)
    requires
        forall|i: int| 0 <= i < x.len() ==> x[i] != '>',
        x.len() == 0 || !is_ws(x.last()),
    ensures
        spec_command(">"@ + x) == Some(MsgView::PUBLIC_TEXT { text: x }),
{
    reveal_strlit(">");
    let line = ">"@ + x;
    assert(line[0] == '>');
    assert(line.last() == if x.len() == 0 { '>' } else { x.last() });
    lemma_trim_trimmed(line);
    assert(line.subrange(0, 1) =~= ">"@);
    lemma_remove_prefix(">"@, x);
    assert(">"@ =~= seq!['>']);
    lemma_remove_absent_char(x, '>');
}

/// The command `all/`, whatever follows it (without trailing whitespace),
/// asks for the list of users.
pub proof fn law_users_command(x: Seq<char>)
    requires
        x.len() == 0 || !is_ws(x.last()),
    ensures
        spec_command("all/"@ + x) == Some(MsgView::USERS),
{
    reveal_strlit(">");
    reveal_strlit("all/");
    let line = "all/"@ + x;
    assert(line[0] == 'a');
    assert(line.last() == if x.len() == 0 { '/' } else { x.last() });
    lemma_trim_trimmed(line);
    lemma_not_starts(line, ">"@);
    assert(line.subrange(0, 4) =~= "all/"@);
}

/// The command `room/` + name, typed without trailing whitespace, asks to
/// create the room named by the name trimmed, for every name without `/`.
pub proof fn law_new_room_command(x: Seq<char>)
    requires
        forall|i: int| 0 <= i < x.len() ==> x[i] != '/',
        x.len() == 0 || !is_ws(x.last()),
    ensures
        spec_command("room/"@ + x) == Some(MsgView::NEW_ROOM { roomname: trim(x) }),
{
    reveal_strlit(">");
    reveal_strlit("all/");
    reveal_strlit("txfrom/");
    reveal_strlit("room/");
    let key = "room/"@;
    lemma_keyword_line(key, x);
    let line = key + x;
    assert(line[0] == 'r');
    lemma_not_starts(line, ">"@);
    lemma_not_starts(line, "all/"@);
    lemma_not_starts(line, "txfrom/"@);
}

/// The command `JOIN/` + name, typed without trailing whitespace, asks to
/// join the room named by the name trimmed, for every name without `/`.
pub proof fn law_join_command(x: Seq<char>)
    requires
        forall|i: int| 0 <= i < x.len() ==> x[i] != '/',
        x.len() == 0 || !is_ws(x.last()),
    ensures
        spec_command("JOIN/"@ + x) == Some(MsgView::JOIN_ROOM { roomname: trim(x) }),
{
    reveal_strlit(">");
    reveal_strlit("all/");
    reveal_strlit("txfrom/");
    reveal_strlit("room/");
    reveal_strlit("INVITE/");
    reveal_strlit("JOIN/");
    let key = "JOIN/"@;
    lemma_keyword_line(key, x);
    let line = key + x;
    assert(line[0] == 'J');
    lemma_not_starts(line, ">"@);
    lemma_not_starts(line, "all/"@);
    lemma_not_starts(line, "txfrom/"@);
    lemma_not_starts(line, "room/"@);
    lemma_not_starts(line, "INVITE/"@);
}

/// The command `ROOM_CONTENT/` + name, typed without trailing whitespace,
/// asks for the users of the room named by the name trimmed, for every name
/// without `/`.
pub proof fn law_room_content_command(x: Seq<char>)
    requires
        forall|i: int| 0 <= i < x.len() ==> x[i] != '/',
        x.len() == 0 || !is_ws(x.last()),
    ensures
        spec_command("ROOM_CONTENT/"@ + x) == Some(MsgView::ROOM_USERS { roomname: trim(x) }),
{
    reveal_strlit(">");
    reveal_strlit("all/");
    reveal_strlit("txfrom/");
    reveal_strlit("room/");
    reveal_strlit("INVITE/");
    reveal_strlit("JOIN/");
    reveal_strlit("ROOM_CONTENT/");
    let key = "ROOM_CONTENT/"@;
    lemma_keyword_line(key, x);
    let line = key + x;
    assert(line[0] == 'R');
    lemma_not_starts(line, ">"@);
    lemma_not_starts(line, "all/"@);
    lemma_not_starts(line, "txfrom/"@);
    lemma_not_starts(line, "room/"@);
    lemma_not_starts(line, "INVITE/"@);
    lemma_not_starts(line, "JOIN/"@);
}

} // verus!
