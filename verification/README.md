# gridgame

The verified core of a small multiplayer game server and its clients.

`src/` is the library, verified with Verus:

- `grid` — the grid world: players on integer coordinates, the messages that
  connect, move and disconnect them, and the updates that report them to the
  clients; one iteration of the grid loop as a function.
- `codecs` — the line protocol of grid clients: lines of UTF-8 text read from
  and written to a `bytes::BytesMut` buffer, and the requests the lines stand for.
- `protocol` — the request and response types of the grid protocol, the text
  a client reads of each response, and the client's reading of what its user
  types.
- `queue` — the game's per-tick work queues and its entity id allocator.
- `session` — the game's connected players and pending spawns and despawns, and
  what each player hears about each entity on each tick, in order.
- `world` — the game's entities by id, filled and emptied from the pending
  spawns and despawns once per tick.
- `controls` — how mouse and keyboard events become directives for the
  player's pawn.

`app/` is the program around it: the network servers and clients (tokio,
bincode), the game's actors (floating point), and the window.

`tests/` runs the library on concrete values.
