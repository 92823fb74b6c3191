# interlink

Signed messages between agents. Each agent is an Ed25519 key. Messages travel over a bus that
stores and forwards them and is trusted with nothing: who sent a message, and to whom, is in its
signature, and an agent takes content only from keys that its operator has admitted.

`src/` is a library verified with Verus. Time, random ids and what a relay answered come into it as
plain values; everything that is decided from them is decided there.

- `identity`, `wire`, `crypto`, `encoding`: keys, signed messages and announcements, and the bytes
  that a signature covers.
- `policy`, `agent`: the allowlist and the inbound filter.
- `queue`, `store`, `bus`: the keep-until-acknowledged queues, the database under them, and the
  broker with its roster of sessions.
- `roster`, `pick`, `route`: who is there, and which session a message goes to.
- `node`, `outbox`, `inbox`, `hook`: an agent's decisions, its outgoing queue and log, what its
  session is shown, and whether it may stop.
- `json`, `record`, `codec`, `text`, `lookup`, `clock`: formats and what they are made of.
- `conversation`, `protocol`: what two agents, and an agent and the bus, can count on.

A function's `ensures` says what it returns for every input. Laws that relate several functions are
public proof functions beside them. What is taken from other crates without proof stands in small
functions whose comments name the function that they call.

`app/` holds the programs: the bus, the server of a session, the inbox listener, the key generator,
the launcher and the stop hook. `tests/` runs the library.
