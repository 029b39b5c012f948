//! A chat room: its members, each with the channel that reaches them, and
//! the invitations it has issued.
use vstd::prelude::*;
use crate::assoc::{assoc_insert, assoc_set, distinct_keys, find_key, has_key, lemma_key_at, lookup};
use crate::protocol::{ProtocolView, Type_protocol};

verus! {

/// A message addressed to the channel `to`.
#[derive(Debug, PartialEq, Eq)]
pub struct Delivery {
    pub to: u64,
    pub msg: Type_protocol,
}

impl View for Delivery {
    type V = (u64, ProtocolView);

    open spec fn view(&self) -> (u64, ProtocolView) {
        (self.to, self.msg@)
    }
}

/// The views of a list of deliveries.
pub open spec fn deliveries_view(v: Seq<Delivery>) -> Seq<(u64, ProtocolView)> {
    v.map_values(|d: Delivery| d@)
}

/// `msg` addressed to every channel of `members`, in order.
pub open spec fn broadcast_to(members: Seq<(Seq<char>, u64)>, msg: ProtocolView) -> Seq<
    (u64, ProtocolView),
> {
    members.map_values(|p: (Seq<char>, u64)| (p.1, msg))
}

/// `msg` addressed to the channel of every member but `without`, in order.
pub open spec fn broadcast_except(
    members: Seq<(Seq<char>, u64)>,
    msg: ProtocolView,
    without: Seq<char>,
) -> Seq<(u64, ProtocolView)>
    decreases members.len(),
{
    if members.len() == 0 {
        seq![]
    } else {
        let rest = broadcast_except(members.drop_last(), msg, without);
        if members.last().0 != without {
            rest.push((members.last().1, msg))
        } else {
            rest
        }
    }
}

/// The mathematical content of a room: members with their channels, and
/// invitations (invited user to room name).
pub struct RoomView {
    pub room_users: Seq<(Seq<char>, u64)>,
    pub invitations: Seq<(Seq<char>, Seq<char>)>,
}

/// A chat room.
pub struct Room {
    room_users: Vec<(String, u64)>,
    invitations: Vec<(String, String)>,
}

impl View for Room {
    type V = RoomView;

    closed spec fn view(&self) -> RoomView {
        RoomView { room_users: self.room_users.deep_view(), invitations: self.invitations.deep_view() }
    }
}

impl DeepView for Room {
    type V = RoomView;

    open spec fn deep_view(&self) -> RoomView {
        self@
    }
}

impl RoomView {
    /// No member and no invited user occurs twice.
    pub open spec fn wf(self) -> bool {
        distinct_keys(self.room_users) && distinct_keys(self.invitations)
    }

    /// `username` is a member.
    pub open spec fn in_room(self, username: Seq<char>) -> bool {
        has_key(self.room_users, username)
    }

    /// `username` holds an invitation.
    pub open spec fn invited(self, username: Seq<char>) -> bool {
        has_key(self.invitations, username)
    }

    /// `username` holds an invitation to the room named `room_name`.
    pub open spec fn invited_into(self, username: Seq<char>, room_name: Seq<char>) -> bool {
        has_key(self.invitations, username) && lookup(self.invitations, username) == room_name
    }

    /// The room after `add_user`: a new member joins with its channel; a
    /// member keeps the channel it joined with.
    pub open spec fn with_user(self, username: Seq<char>, sender: u64) -> RoomView {
        if has_key(self.room_users, username) {
            self
        } else {
            RoomView { room_users: self.room_users.push((username, sender)), ..self }
        }
    }

    /// The room after `suscribe_me`: `username` is invited to `room_name`.
    pub open spec fn with_invitation(self, username: Seq<char>, room_name: Seq<char>) -> RoomView {
        RoomView { invitations: assoc_insert(self.invitations, username, room_name), ..self }
    }
}

impl Room {
    /// An empty room.
    pub fn new() -> (r: Room)
        ensures
            r@.room_users == Seq::<(Seq<char>, u64)>::empty(),
            r@.invitations == Seq::<(Seq<char>, Seq<char>)>::empty(),
            r@.wf(),
    {
        let r = Room { room_users: Vec::new(), invitations: Vec::new() };
        assert(r@.room_users =~= Seq::<(Seq<char>, u64)>::empty());
        assert(r@.invitations =~= Seq::<(Seq<char>, Seq<char>)>::empty());
        r
    }

    /// Adds `username`, reached through `sender`, unless it is already a member.
    pub fn add_user(&mut self, username: String, sender: u64)
        requires
            old(self)@.wf(),
        ensures
            final(self)@ == old(self)@.with_user(username@, sender),
            final(self)@.wf(),
    {
        if find_key(&self.room_users, &username).is_none() {
            let ghost u = username@;
            let ghost before = self.room_users.deep_view();
            self.room_users.push((username, sender));
            assert(self.room_users.deep_view() =~= before.push((u, sender)));
            assert(distinct_keys(self.room_users.deep_view())) by {
                assert forall|i: int, j: int|
                    0 <= i < j < self.room_users.deep_view().len() implies (#[trigger] self.room_users.deep_view()[i]).0
                    != (#[trigger] self.room_users.deep_view()[j]).0 by {
                    if j == before.len() {
                        assert(before[i].0 != u);
                    } else {
                        assert(before[i].0 != before[j].0);
                    }
                }
            }
        }
    }

    /// Records that `username` is invited to the room named `room_name`.
    pub fn suscribe_me(&mut self, username: String, room_name: String)
        requires
            old(self)@.wf(),
        ensures
            final(self)@ == old(self)@.with_invitation(username@, room_name@),
            final(self)@.wf(),
    {
        assoc_set(&mut self.invitations, username, room_name);
    }

    /// Whether `username` holds an invitation.
    pub fn is_invited(&self, username: &String) -> (b: bool)
        ensures
            b == self@.invited(username@),
    {
        find_key(&self.invitations, username).is_some()
    }

    /// Whether `username` holds an invitation to the room named `room_name`.
    pub fn is_invited_into(&self, username: &String, room_name: &String) -> (b: bool)
        requires
            self@.wf(),
        ensures
            b == self@.invited_into(username@, room_name@),
    {
        match find_key(&self.invitations, username) {
            Some(i) => {
                proof {
                    lemma_key_at(self.invitations.deep_view(), i as int);
                }
                self.invitations[i].1 == *room_name
            },
            None => false,
        }
    }

    /// Whether `username` is a member.
    pub fn is_in_room(&self, username: &String) -> (b: bool)
        ensures
            b == self@.in_room(username@),
    {
        find_key(&self.room_users, username).is_some()
    }

    /// `general_protocol` addressed to every member but `without`.
    pub fn publish_room(&self, general_protocol: &Type_protocol, without: &String) -> (out: Vec<
        Delivery,
    >)
        ensures
            deliveries_view(out@) == broadcast_except(
                self@.room_users,
                general_protocol@,
                without@,
            ),
    {
        let mut out: Vec<Delivery> = Vec::new();
        let mut i: usize = 0;
        while i < self.room_users.len()
            invariant
                i <= self.room_users@.len(),
                deliveries_view(out@) == broadcast_except(
                    self@.room_users.take(i as int),
                    general_protocol@,
                    without@,
                ),
            decreases self.room_users@.len() - i,
        {
            let ghost members = self@.room_users.take(i + 1);
            assert(members.drop_last() =~= self@.room_users.take(i as int));
            assert(members.last() == self@.room_users[i as int]);
            let ghost before = out@;
            if !(self.room_users[i].0 == *without) {
                out.push(Delivery { to: self.room_users[i].1, msg: general_protocol.duplicate() });
                assert(deliveries_view(out@) =~= deliveries_view(before).push(
                    (self@.room_users[i as int].1, general_protocol@),
                ));
            }
            i = i + 1;
        }
        assert(self@.room_users.take(self.room_users@.len() as int) =~= self@.room_users);
        out
    }
}

} // verus!
