# witr-rs

Why is this running? Given a process name, a pid, a port or a file, witr-rs
traces back who started it and how, on Linux, macOS and Windows.

The library under `src/` holds everything that decides: it is executable Rust
whose behaviour is stated in contracts that Verus proves. The program under
`app/` holds what touches the machine: arguments, files, other programs and the
terminal.

| Module | What it holds |
|---|---|
| `model` | processes, sockets, containers, sources, targets and reports |
| `ancestry` | the chain of parents (cycle guard, depth limit, missing parents) and the children |
| `pipeline` | resolving targets, attribution, warnings, reports |
| `risk` | the score from 0 to 10 |
| `history` | instantaneous cpu, sparklines, restart detection |
| `render` | the table, the forest (`forest`: what holds of it), and the short, standard, tree and export reports (`report`) |
| `platform` | what the platforms' tools and files say: `linux`, `macos`, `windows` |
| `tui` | the interactive interface: `app` (state and keys), `filter`, `panes`, `line`, `screen` |
| `cli` | what a command line asks for, exit codes |
| `util`, `text`, `num`, `order`, `calendar` | times, texts, numbers, sorting, dates |

Laws that span several functions are public proof functions beside them.
