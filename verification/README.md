# gwyh

A gossip library over UDP: nodes authenticate each other with pre-shared
keys, encrypt every message, pick the peers they subscribe to by zone, and
pass broadcasts on to their subscribers.

## Layout

- `src/` is the verified core. Each service of a node is a state machine
  that takes a request and returns the actions the rest of the node is to
  carry out, with contracts that state both:
  - `handshake.rs`: the four-step handshake (hello, ohai, okboss, goteam)
    with HMACs over timestamps and a challenge answered per pre-shared key;
  - `peer_manager.rs`: known peers, subscriptions in both directions,
    heartbeat watchdogs and the choice of peers by distribution strategy;
  - `packet_handler.rs`: sequence numbers, pacing and rate control per
    address, encryption, and de-duplication of received messages;
  - `table.rs`, `sequence.rs`, `bytes.rs`: the small data structures they
    share; `outside.rs`: the calls into other crates and what is assumed of
    them.
- `app/` is the asynchronous runtime: the socket, timers, MessagePack
  encoding, and the loop that hands each state machine its events.
- `tests/` runs the library on concrete values.
