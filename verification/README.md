# dht

A node of the Mainline DHT, whose decisions are verified with Verus.

- `src/` is the library: what to ask, whom to ask, what to answer and when to
  stop. It knows no sockets, no clock and no tasks. Points in time, tickets and
  the contents of the routing tables come in as arguments; what is to be done
  outside comes back as values.
- `app/` runs it: UDP, tokio tasks, timeouts. The routing table, the peer store
  and the encoding of messages are supplied through the traits in
  `app/parts.rs`.
- `tests/` runs the library on concrete values, and in virtual time among other
  nodes.

| module | what it holds |
|---|---|
| `id` | 160-bit ids and their XOR distance |
| `addr`, `time`, `channel`, `message`, `error` | plain values |
| `config` | settings and their defaults |
| `rate_limit`, `backoff` | how fast queries go out, how bootstrapping is retried |
| `inflight` | outstanding requests by transaction and address |
| `state` | requests, answers, queries |
| `useful_nodes` | ranking of the nodes that a lookup has heard of |
| `lookup` | one recursive lookup |
| `pass` | bounded passes and the pauses between them |
| `worker` | pinging, refreshing, bootstrapping, supervision |
