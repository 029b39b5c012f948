use talknet::protocol::Type_protocol;
use talknet::room::{Delivery, Room};

fn s(x: &str) -> String {
    x.to_string()
}

#[test]
fn room_members_and_invitations() {
    let mut r = Room::new();
    assert!(!r.is_in_room(&s("bob")));
    r.add_user(s("bob"), 2);
    r.add_user(s("bob"), 9);
    r.add_user(s("eve"), 5);
    assert!(r.is_in_room(&s("bob")));
    assert!(!r.is_invited(&s("bob")));
    r.suscribe_me(s("bob"), s("lobby"));
    assert!(r.is_invited(&s("bob")));
    assert!(r.is_invited_into(&s("bob"), &s("lobby")));
    assert!(!r.is_invited_into(&s("bob"), &s("attic")));
    r.suscribe_me(s("bob"), s("attic"));
    assert!(r.is_invited_into(&s("bob"), &s("attic")));
    let msg = Type_protocol::NEW_USER { username: s("x") };
    let out = r.publish_room(&msg, &s("eve"));
    assert_eq!(out, vec![Delivery { to: 2, msg: msg.duplicate() }]);
    let out = r.publish_room(&msg, &s("nobody"));
    assert_eq!(out, vec![Delivery { to: 2, msg: msg.duplicate() }, Delivery { to: 5, msg }]);
}
