# shaman_core

The verified core of Shaman, a tabbed terminal manager for Windows: one window
for `cmd`, PowerShell, elevated shells, WSL distributions and SSH connections.

`src/` is the library, written in Verus. Every function carries a contract and
is proved against it:

- `known_hosts`, `connections`, `pins`, `settings`: the stores behind the
  trusted host keys, saved connections, the pinned strip and the appearance
  settings, with the rules each keeps (one entry per target, trust on first
  use, stable ids, clamped values).
- `proto`: the framing of the app-to-helper channel, with its round-trip law.
- `pump`: output coalescing as a state machine that never loses a byte.
- `outputs`, `routing`, `registry`, `session`: where each session runs and
  where its output goes.
- `ssh`, `helper`, `profiles`, `elevate`, `pty`, `win`: the decisions taken
  around SSH connections, the de-elevated helper, shell detection and process
  start-up.
- `text`, `vault`, `table`, `random`: strings, hex, a small id-keyed table, and
  OS randomness.

`tests/` exercises the library on concrete values. `app/` is the Tauri desktop
shell and the helper broker: the I/O, the operating-system calls and the IPC
around the library.
