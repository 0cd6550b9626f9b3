# Resurfacer

Resurfacer puts browser tabs away that are open but not used: videos that were
opened aside and never looked at, and clusters of tabs that were abandoned. It waits
for a moment in which the user is free, closes the tabs, keeps them in an archive,
and tells the user what it put away.

- `src/` is the library: what the daemon and its tools decide, verified with Verus.
  - `tab_tracker` follows the open tabs and decides which are put away, on top of
    `clusters`; `tracker_laws`, `sweep_laws` and `cluster_laws` state what holds of
    them.
  - `tab_store` holds what is stored of a tab, `messages` what the browser extension
    and the daemon tell each other, `bridge` how that is framed.
  - `idle_detector` finds the free moments; `idle_check` prints what it sees.
  - `daemon` ties these together; `daemon_laws` states what holds of it.
  - `summarizer` and `presenter` hold what the user is shown.
  - `night_mode` and `ram_flush` are two small tools.
  - `clock`, `config` and `text` serve the others.
- `app/` is the programs around it: input and output, timers, the database, the
  windows. The library asks for what it needs of the database, and is told the
  answer.
- `tests/` runs the library.
