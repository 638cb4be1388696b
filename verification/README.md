# ambitious

Erlang/OTP-style building blocks for Rust, verified with Verus: generic servers, process-owned
stores, channels, publish and subscribe, presence that converges without coordination, and the
decisions of a distribution layer.

`src/` decides. It holds the data structures, the wire formats and the rules, each with a contract
that Verus proves. It waits for nothing and owns no socket: a function takes a state and what has
happened, and hands back what is to be done.

`app/` does. It waits for messages, hands them to the library and performs what comes back. The
process runtime itself is a trait there.

| module | what it decides |
| --- | --- |
| `gen_server` | what a message asks of a server, what follows from a handler, what a caller learns from a reply |
| `store` | who may use a store, and what it holds; unordered and ordered |
| `presence` | a conflict-free replicated set of presences, and the server around it |
| `pubsub` | who gets a broadcast, on this node and on others |
| `channel` | joins, events and replies of channels, over any transport and over WebSockets |
| `distribution` | handshakes, heartbeats, framing, routing, and messages of Erlang nodes |
| `application` | the order in which applications start and stop |
| `message`, `codec`, `piece`, `wire`, `etf`, `json` | how values are written and read |

The laws of the library are the public proof functions whose names begin with `law_`. What the
crates `postcard`, `erltf`, `serde_json` and `dashmap` do is stated in the functions marked
`external_body`, in `wire`, `etf`, `json` and `names`; two more, on texts of `std`, stand in `message`
and `process`.
