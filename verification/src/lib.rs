//! A real-time chat: the message protocol, the server's state machine,
//! the client's command language and the rendering of server replies.
#![allow(non_camel_case_types)]

pub mod assoc;
pub mod client;
pub mod connection;
pub mod json_user;
pub mod laws;
pub mod protocol;
pub mod responses;
pub mod room;
pub mod server;
pub mod session;
pub mod text;
pub mod user;
