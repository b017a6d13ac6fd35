# vstabs

A desktop shell that shows one tab per project and hosts one code-server
backend per tab (local, inside WSL, or on an SSH host behind a local port
forward).

- `src/` — the verified library (Verus):
  - `project` — the `Project` and `ServerStatus` records;
  - `registry` — the ordered project list with distinct ids, its edits
    (add, update, remove, reorder) and the sample projects;
  - `pool` — the table of running backends, one per project;
  - `servers` — transport choice, the command lines that start a backend,
    the remote port of an SSH tab, shell quoting, and the wait for a port;
  - `sysinfo` — SSH config aliases and the WSL distribution list;
  - `embed` — window titles, styles and placements for embedding a VS Code
    window in a container;
  - `text` — whitespace, trimming, lines and words.
- `app/` — the Tauri program: commands, the registry file, process spawning
  and port probing.
- `tests/` — tests of the library.
