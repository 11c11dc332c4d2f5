# PathForge

A BGP-4 speaker (RFC 4271) whose protocol logic is written in Verus: the wire
codecs, the routing information base and its decision process, routing policy,
RPKI origin validation, route reflection, the session state machine and the
management commands all carry `requires` / `ensures` contracts that Verus
proves.

## Layout

- `src/` — the verified library.
  - `wire`, `text`, `net`, `search`: byte, text and address helpers
    with their mathematical models.
  - `message/`, `attr`, `mp`, `capabilities`: message framing and the codecs
    for OPEN, UPDATE, NOTIFICATION, KEEPALIVE, ROUTE-REFRESH, path attributes,
    multiprotocol NLRI and capabilities, each with a round-trip law.
  - `rib`: Adj-RIB-In per peer, the Loc-RIB and the decision process; the
    Loc-RIB is proved to hold, for every prefix, the best route any peer sent.
  - `policy`, `rpki`, `rr`: prefix/community policy, route origin validation
    and route reflection.
  - `fsm`, `timer`, `peer`: the session state machine and the per-session
    decisions (what to answer to a message, a timer or a disconnection).
  - `mgmt`, `metrics`, `config`: management commands, counters and
    configuration checks.
  - `buffer`, `timer`: the calls into the `bytes` and `tokio` crates, behind
    small trusted wrappers.
- `app/` — the daemon around the library: command line, configuration file,
  TCP sessions, the management socket and route-flap dampening.
- `tests/` — tests of the library on concrete values.
