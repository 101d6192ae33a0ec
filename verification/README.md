# agent_shell_core

The verified core of `agent-shell`, a PTY session manager for AI agents:
a daemon holds PTY sessions and answers JSON requests over a Unix socket;
a command-line client sends them, attaches to sessions and replays
recordings.

## Layout

- `src/` — the library, written in Verus. Verus proves the contract of
  every function written here; the calls into outside crates (alacritty,
  vte, regex, base64, uuid, shellexpand and a few std functions) go through
  small trusted functions whose contracts are believed, not proved:
  - `ringbuf` — the output ring buffer with monotonic cursors and gap
    accounting;
  - `vte_grid`, `term_emulator` — the screen model and the ANSI redraw of a
    terminal state;
  - `mouse` — SGR mouse encoding and request validation;
  - `replay` — recording analysis (query filtering, CR/LF normalisation,
    size inference, coordinate remapping, burst grouping);
  - `attach`, `server`, `session`, `cli`, `pattern` — the decisions of the
    daemon, of a session and of the client;
  - `protocol`, `recording`, `config` — the message, recording and
    configuration types;
  - `inspect` — output inspection used by test harnesses;
  - `text`, `csi`, `encoding` — shared helpers.
- `tests/` — tests of the library.
- `app/` — the executable: argument parsing, the socket server, PTY
  processes, files and the terminal, driving the library.
