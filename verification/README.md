# ergo_observer

A desktop viewer for the processes of an Ergo node, as reported by an observer
server over a websocket. It shows, per application, the supervision tree of its
processes.

Layout:

- `src/` — the verified library (Verus):
  - `text` — character-level helpers: decimal parsing and printing, search, string order.
  - `types` — process identifiers (`<node.id.creation>`), process states, log levels.
  - `tree` — the process tree: nodes placed under their parents, nodes whose parent
    has not arrived yet held back and placed when it does; a textual dump of a subtree.
  - `json` — JSON values as the server sends them, read through serde_json, and
    member lookup.
  - `decode` — reading process ids, states, log levels, process summaries and
    application snapshots out of JSON values.
  - `observer` — the observer protocol: a server frame read and handled, commands
    sent, events queued, request numbering.
  - `session` — what the application shows: connection status, node name, one tree
    per application, the order in which trees are laid out.
  - `windows`, `theme`, `ports` — window visibility, the two colour themes, actor port kinds.
  - `*_laws` — properties that span several operations, proved.
- `app/` — the program around the library: the egui interface, the websocket
  connection, the JSON form of outgoing commands, and the floating-point layout
  of the drawing.
- `tests/` — tests of the library on concrete values.
