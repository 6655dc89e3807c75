# rustbb

Combines several Rust command-line crates into one multi-call binary, in the
manner of busybox: each crate's `main` becomes a command function, and a small
runtime dispatches on the binary name (symlink mode) or on the first argument
(subcommand mode).

The library under `src/` is verified with Verus:

- `text` – string helpers over `Seq<char>` views (search, joining, paths).
- `sorted_map` – a vector-backed map with strictly sorted keys.
- `runtime` – the command registry and the dispatch decision.
- `discovery` – crate analysis: manifest entries, main-file candidates, the
  transformation strategy read from `main`'s attributes.
- `codegen` – the combined crate's manifest (merged dependencies) and `main.rs`.
- `transform` – command names and the rules for rewriting `main`.
- `fetch` – crate sources (`path`, `name@version`, `git:`, `github:`,
  `gitlab:`) and the names and texts used while fetching.
- `builder` – build planning, generated wrappers, and the rewrite of
  `use crate::` paths.

`app/` holds the command-line program: argument parsing, file system and
process work, and the syntax-tree rewrite of `main` with `syn`.
