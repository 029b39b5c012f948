use talknet::connection::Connection;
use talknet::json_user;
use talknet::user::User;

fn s(x: &str) -> String {
    x.to_string()
}

#[test]
fn user_status_changes() {
    let mut u = User::new(&s("Marco"), &s("AWAY"));
    assert_eq!(u.get_id(), &s("Marco"));
    assert_eq!(u.get_status(), &s("AWAY"));
    u.set_status(&s("BUSY"));
    assert_eq!(u.get_status(), &s("BUSY"));
    assert_eq!(u.get_id(), &s("Marco"));
}

#[test]
fn json_user_status_is_a_json_string() {
    let id = serde_json::Value::String(s("marco"));
    let mut u = json_user::User::new(&id, serde_json::Value::Null);
    assert_eq!(u.get_id(), &id);
    assert_eq!(u.get_status(), &serde_json::Value::Null);
    u.set_status(&s("BUSY"));
    assert_eq!(u.get_status(), &serde_json::Value::String(s("BUSY")));
    assert_eq!(u.get_id(), &id);
}

#[test]
fn connection_buffers_count_up() {
    let c = Connection::new();
    let a = c.socket();
    assert_eq!((a.a, a.b, a.c, a.d, a.port), (127, 0, 0, 1, 8000));
    let expected: Vec<u32> = (0..1024).collect();
    assert_eq!(c.reader(), &expected);
    assert_eq!(c.writer(), &expected);
}
