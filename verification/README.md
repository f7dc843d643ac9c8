# snakewood

The core and the daemon logic of a small persistent text world, verified with Verus.

- `src/` is the library: identifiers, rooms, mobs and rules; the intent fabric that
  gathers, resolves and dispatches what actors do; the engine with its sessions,
  queue, stores and snapshots; the telnet, command API and MCP front ends as far as
  they compute.
- `app/` is the daemon around it: sockets, the tick loop, files and git, RON and JSON.
  Run with the argument `mcp` it is the stdio bridge to a running daemon.
- `tests/` runs the library on concrete values.
