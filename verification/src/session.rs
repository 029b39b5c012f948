//! The life of one client connection on the server: its first request
//! identifies the user; every later request is served under the connection's
//! session key, bound to that user before the first of them is served.
use vstd::prelude::*;
use crate::assoc::assoc_insert;
use crate::protocol::{MsgView, ProtocolView, Types_msg};
use crate::room::{broadcast_to, deliveries_view, Delivery};
use crate::server::{opt_msg_view, publish_ok, spec_get_id, spec_publish, spec_suscribe, Server, ServerView};

verus! {

/// The mathematical content of a connection.
pub struct SessionView {
    pub suscribe: bool,
    pub has_auth: bool,
    pub first: Option<MsgView>,
    pub auth: Seq<char>,
    pub conn: u64,
}

/// One client connection: whether it has identified, whether its session key
/// is bound, its first request, its session key and its channel.
pub struct Session {
    suscribe: bool,
    has_auth: bool,
    first: Option<Types_msg>,
    auth: String,
    conn: u64,
}

impl View for Session {
    type V = SessionView;

    closed spec fn view(&self) -> SessionView {
        SessionView {
            suscribe: self.suscribe,
            has_auth: self.has_auth,
            first: opt_msg_view(self.first),
            auth: self.auth@,
            conn: self.conn,
        }
    }
}

impl SessionView {
    /// A connection that has identified remembers its first request.
    pub open spec fn wf(self) -> bool {
        self.suscribe ==> self.first is Some
    }
}

/// The server once the connection's session key is bound, as it is before
/// any request after the first is served.
pub open spec fn authed(s: ServerView, ss: SessionView) -> ServerView {
    if ss.has_auth {
        s
    } else {
        ServerView {
            current_users: assoc_insert(s.current_users, ss.auth, spec_get_id(ss.first->0)),
            ..s
        }
    }
}

/// The requests a connection can take: any first request (which
/// identifies), then requests that `publish` serves.
pub open spec fn input_ok(s: ServerView, ss: SessionView, m: MsgView) -> bool {
    ss.suscribe ==> publish_ok(authed(s, ss), ss.auth, m)
}

/// One request of a connection: the first registers its user (or is
/// refused) and is announced to every registered user; a later request binds
/// the session key if it is not bound yet, then is published.
pub open spec fn spec_step(s: ServerView, ss: SessionView, m: MsgView) -> (
    ServerView,
    SessionView,
    Seq<(u64, ProtocolView)>,
) {
    if !ss.suscribe {
        let (s1, d1) = spec_suscribe(s, m, ss.conn);
        (
            s1,
            SessionView { suscribe: true, first: Some(m), ..ss },
            d1 + broadcast_to(s1.suscribers, ProtocolView::NEW_USER { username: spec_get_id(m) }),
        )
    } else {
        let (s2, d) = spec_publish(authed(s, ss), ss.auth, m, ss.conn);
        (s2, SessionView { has_auth: true, ..ss }, d)
    }
}

impl Session {
    /// A new connection with session key `auth` whose answers go to the
    /// channel `conn`.
    pub fn new(auth: String, conn: u64) -> (r: Session)
        ensures
            r@ == (SessionView { suscribe: false, has_auth: false, first: None, auth: auth@, conn }),
    {
        Session { suscribe: false, has_auth: false, first: None, auth, conn }
    }

    /// The channel of this connection.
    pub fn conn(&self) -> (c: u64)
        ensures
            c == self@.conn,
    {
        self.conn
    }

    /// Whether this connection can take the request `request`.
    pub fn accepts(&self, server: &Server, request: &Types_msg) -> (b: bool)
        requires
            server@.wf(),
            self@.wf(),
        ensures
            b == input_ok(server@, self@, request@),
    {
        if !self.suscribe {
            true
        } else if self.has_auth {
            server.can_publish(&self.auth, request)
        } else {
            let user = Server::get_id(self.first.as_ref().unwrap());
            proof {
                crate::assoc::lemma_insert(server@.current_users, self@.auth, user@);
            }
            server.can_handle_room(request, &user)
        }
    }

    /// Takes the request `request`.
    pub fn handle_input(&mut self, server: &mut Server, request: Types_msg) -> (out: Vec<Delivery>)
        requires
            old(server)@.wf(),
            old(self)@.wf(),
            input_ok(old(server)@, old(self)@, request@),
        ensures
            (final(server)@, final(self)@, deliveries_view(out@)) == spec_step(
                old(server)@,
                old(self)@,
                request@,
            ),
            final(server)@.wf(),
            final(self)@.wf(),
    {
        if !self.suscribe {
            let mut out = server.suscribe(&request, self.conn);
            let ghost d1 = deliveries_view(out@);
            let mut rest = server.response_indentify(&request);
            let ghost d2 = deliveries_view(rest@);
            out.append(&mut rest);
            assert(deliveries_view(out@) =~= d1 + d2);
            self.suscribe = true;
            self.first = Some(request);
            out
        } else {
            if !self.has_auth {
                server.suscribe_auth(self.auth.clone(), self.first.as_ref().unwrap());
                self.has_auth = true;
            }
            assert(server@ == authed(old(server)@, old(self)@));
            server.publish(&self.auth, &request, self.conn)
        }
    }
}

} // verus!
