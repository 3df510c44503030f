# omp_manager

Manages `omp` child processes: it starts them with the extension that serves the web interface,
keeps track of the ports they listen on and of the sessions and workspaces they belong to, waits
until they answer, and runs the omp commands that install, remove and list packages.

- `src/` is the library. It decides: which binary and which extension to use, which search path,
  arguments and environment a process gets, which port is next, which process a session reuses,
  what closing a workspace ends, and how the output of a command is read. It is verified with
  Verus; every function has a contract over mathematical models, and the proof functions named
  `law_*` state what holds across functions.
- `app/` carries the decisions out: it reads the environment and the file system, starts and kills
  processes, binds sockets and makes requests.
- `tests/` runs the library.

The library reads and writes JSON with `serde_json`. What it believes of that crate, and of the
two functions of the standard library that it wraps, stands in `src/json.rs` and `src/shell.rs`.
Paths are text: Unix paths are joined and compared by the library itself (`src/posix.rs`), and
Windows paths by the path type of the system, in `app/`.
