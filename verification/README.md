# chaos_dragon

The logic of a peer node in a small cooperative network that recovers from
simulated failures: nodes find each other over DNS, exchange plain-text
messages over UDP (`id|direction|kind[|payload]`), gossip the siblings they
know (`id:address,...`), back off while the network is down, and live with a
chaos simulation that takes parts of their environment away.

- `src/` is the library, verified with Verus: the message format
  (`transport`), sibling bookkeeping and the discovery decisions
  (`discovery`), message handling and the gossip format (`node`), the retry
  schedule (`backoff`), the simulation's state and chance (`simulation`), and
  their helpers (`text`, `ip`, `clock`, `error`).
- `app/` is the node program around it: sockets, DNS lookups, tasks, timers
  and logging.
- `tests/` runs the library on concrete values.

Gossip merges keep the fresher record of each sibling, and a discovery
round checks the network, looks siblings up, and only then forgets expired
ones. A simpler retry rule, doubling without a limit and driven by DNS
alone, is available as `discovery::dns_retry_step`.
