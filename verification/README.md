# pmc

A small process manager in the spirit of PM2: it starts, stops, restarts and
lists processes, keeps their table in a dump file, revives crashed processes
from a background daemon, and can act on remote daemons.

The crate is split in two:

- `src/` is the library, written and proved with Verus. It holds the process
  table (`process`), the ordered map it is built on (`ordmap`), identifiers
  (`id`), integer and text formats (`num`, `text`), the settings (`config`),
  what the command line and the daemon decide (`cli`, `daemon`), the parsers
  of the system's process files (`sys`), durations (`helpers`), paths
  (`file`), and properties that span several operations (`laws`).
- `app/` is the `pmc` program around it: argument parsing, files on disk,
  spawning and signalling processes, requests to remote daemons, prompts and
  tables. It hands the library plain values and prints what it returns.

`tests/` runs the library on concrete values.
