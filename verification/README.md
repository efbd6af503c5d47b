# agent_thread

Status of agent work in Nostr threads.

An agent harness publishes signed, channel-scoped snapshots of who owns the next
action in a thread (NIP-AT, kind 24201). A coordinator reads them and shows one
status per thread. Both talk to a relay over a WebSocket that asks for NIP-42
authentication.

The library under `src/` is verified with Verus:

- `lifecycle`: the snapshots, their wire contract, and the events that carry them;
- `reporter`: the publisher in a harness, with its revisions and expiries;
- `coordinator`: which snapshots count, and the status of a thread;
- `connection`: the relay connection as a state machine, one step per frame;
- `relay`: the messages that go over it, and the event that authenticates;
- `session`: the way to a session with an agent process;
- `event`, `ids`, `clock`, `text`: signed events, identifiers, time, text forms.

Every public function states what it returns. What relates several of them is
stated and proved in the functions whose names begin with `law_`. Calls into
`nostr`, `uuid`, `url`, `serde_json` and the system clock stand in small functions
whose contracts are trusted; each says what it claims.

`app/` is what surrounds the library: JSON decoding by `serde`, the socket, the
delivery of events, and the agent process. `tests/` runs the library with the real
crates.
