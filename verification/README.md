# mcpls_core

The logic of a bridge between agent hosts and language servers, verified with
Verus: which diagnostics each session is still owed, how a workspace edit is
planned, carried out and rolled back, how one backend per checkout is started,
shared and stopped, and when a language server is started again.

- `src/` is the verified library. Text is modelled by its characters, tables by
  maps, instants by nanoseconds since an arbitrary origin. Where the outside
  world and a decision take turns, the decision is a function from what has been
  seen so far to what is done next.
- `app/` performs what the library decides: sockets, files, child processes,
  clocks, and the wire formats.
- `tests/` runs the library on concrete values.

Properties that span several operations are public proof functions named
`law_*`, beside the functions that they speak of or in a module of their own
(`delivery_laws`, `telling_laws`, `flush_laws`, `reading_laws`, `settle_laws`,
`disk_laws`, `soundness`).
