# slay

A friendlier `pkill`: targets are process names, process ids, or ports
(`:8080`), mixed freely. This crate is the verified core; `app/main.rs` is the
command around it (reading `/proc`, prompting, sending signals with `libc`).

Layout of `src/`:

- `text`, `num` — characters, splitting, trimming, decimal numbers, and integer
  parsing with std's rules.
- `signal` — the platform's signal table (`Signals::host`), `parse_signal`,
  `signal_name`.
- `target`, `args` — reading targets and the command line.
- `procs`, `net` — process records, the user table, command lines, the kernel's
  socket tables and socket links.
- `matching` — resolving targets to the processes to signal.
- `listing` — the processes listening on TCP ports.
- `render`, `paint` — the process table and every message.
- `flow` — what a run does next, and how answers and failures are read.

Each public function states its result exactly in its `ensures`; the `law_*`
proof functions state what holds across inputs and functions.
