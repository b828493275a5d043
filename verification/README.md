# raft

A small Raft-replicated key-value service. The library in `src/` holds the
logic, each function with a contract proved by Verus:

- `kvstore`, `kvcommand`, `kvbasic`, `text`: the key-value store and its
  line-based command language (`get`, `set`, `delete`, and `incr` in two
  forms);
- `raftlog`, `termlog`: the Raft log and its `append_entries` rule, with
  public entries and with private ones (the latter always checks the term
  of the entry before the new ones);
- `raftconsensus`, `replication`, `shared`, `kvapp`, `raftserver`: the
  consensus state of a server, log replication, the commit index, the
  state machine that applies committed commands, and the decisions of a
  server's main loop;
- `traffic`: a traffic-light controller.

`app/` holds the programs around it: sockets, threads, timers, the console
and JSON on the wire. `tests/` runs the library on concrete cases.
