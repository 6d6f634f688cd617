# Iris

A firewall and network monitor. A service watches the traffic of every
application, enforces rules on what may connect, and runs plugins with few
rights; a desktop program shows what happens and asks for decisions.

- `src/` is the library: what is decided and computed, each function with a
  contract that Verus proves.
  - `model`, `rule`, `alert`, `usage`, `enrich`, `panel`, `aggregate`, `dns`,
    `engine`, `error`: values and rules that all parts share.
  - `text`, `path`, `path_windows`, `ip`, `ip_text`, `ip_show`, `ip_law`, `utf16`,
    `bytes`, `assoc`: texts, paths, addresses and maps.
  - `ipc`, `plugin`: frames, messages, channels, and a plugin's side of them.
  - `store`: the database's schema, its statements, and what their rows mean.
  - `linux`, `win`: what the two platforms' parts decide, from plain values.
  - `ui`: what the desktop program decides.
- `tests/` runs the library on given values.
- `app/` is the program around it: sockets, pipes, files, processes, the
  database, and the window. The window is built with `--cfg desktop`.

Functions whose names start with `law_` state what holds of several functions
together, or of every state.
