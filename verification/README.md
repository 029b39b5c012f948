# talknet

A real-time chat: a server that keeps users, sessions and rooms, and a
client that turns typed commands into requests and shows what the server
sends. Messages travel as JSON objects tagged by `type`.

- `src/` is the verified library (Verus):
  - `protocol`: the requests (`Types_msg`), the server's messages
    (`Type_protocol`) and the outcome codes (`ResultType`).
  - `server`, `room`, `session`: the server as a state machine; every
    request yields the messages to deliver, each addressed to a channel.
  - `client`, `responses`: the command language of the client and what it
    shows for each message.
  - `text`, `assoc`: text utilities and string-keyed tables.
  - `laws`: properties of the server proved over its specification.
  - `user`, `json_user`, `connection`: small data types.
- `app/` holds the programs (`server`, `client`, and a demonstration with
  no argument): sockets, tasks, the terminal, and the JSON conversions.
- `tests/` runs the library on concrete inputs.
