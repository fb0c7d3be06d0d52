# ochki

A command-line client and interactive shell for ZooKeeper and ClickHouse
Keeper. The crate is a library verified with Verus, plus a thin program
(`app/`) that talks to the server.

## Layout

- `src/` — the verified library:
  - `text.rs`: character-level helpers (prefixes, search, decimal and
    joined text, trimming).
  - `client.rs`: path normalisation, child paths, splitting a path into
    names, the plan for creating missing ancestors, creation modes.
  - `repl.rs`: resolving paths against the working directory (`.`, `..`),
    splitting a command line into words, reading a shell line, tab
    completion, error wording, the shell's state.
  - `walk.rs`: the pre-order walk that recursive commands drive.
  - `style.rs`: styled output pieces (colours from `colored`).
  - `output.rs`, `cli.rs`: result and command types.
  - `commands/`: per command — ACL notation, base64 export/import,
    subtree comparison, find filters, and every printed result.
- `tests/`: tests of the library on concrete values.
- `app/`: `main`, `clap` parsing, the asynchronous server client, the
  `rustyline` shell, JSON output and file/network I/O.

Laws proved in the library include: normalising is idempotent; `cd name`
then `cd ..` returns to a canonical directory; a bare name resolves to the
same child path that listings use; base64 decoding undoes encoding (so an
import restores exported data); `scheme:id:perms` reads back what was
printed; comparing a subtree with itself finds no difference.
