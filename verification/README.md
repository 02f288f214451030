# mecha_parser

Roster tracking for MechaBREAK: the game writes its matches to log files; this
crate reads those lines and keeps the roster of players (team, mecha, ready
state), verified with Verus.

- `src/` — the verified library
  - `text`, `classes`: character helpers and the character classes of the log grammar
  - `patterns`: the three line shapes of the prepare screen and ready notices
  - `extract`, `json`: framing the JSON text that a line carries; its parse (serde_json)
  - `parser`: one log line to roster updates
  - `state`: the roster (an `IndexMap` in insertion order, at most 50 players) and its team split
  - `commands`: the tracker's decisions (log path, status, snapshot loop)
  - `log_discovery`: which process and file to follow
  - `tailer`: the tail loop's decisions (waits, reopening a shrunk file, what becomes of a line)
- `app/` — the desktop program around it: Tauri commands, process listing,
  directory reads, the tailing thread, and the serde forms of the values
- `tests/` — tests of the library
