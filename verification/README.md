# Teral

Teral is a three-pane file manager for Linux desktops. This repository holds its
logic as a library verified with Verus, and the program around it.

- `src/` — the `teral` library: file names and raw byte paths, the FreeDesktop trash
  (discovery, `.trashinfo` records, restore plans, permanent deletion), copy/move/link
  job decisions and reports, clipboard formats, tags, bookmarks and sidebar labels,
  settings, themes and the stylesheet, saved sessions, navigation history and tabs,
  Quick Command, folder listings, search and previews. Every function carries a
  contract, and the laws the program relies on are proved as proof functions:
  what loading gives back of what saving wrote (sessions, bookmarks, tags, settings
  and the command history, each stated over the values the file holds, since the
  TOML text itself is read by the `toml` crate in `app/`), clipboard payloads,
  navigation history, tabs, leases and tagging.
- `tests/` — tests that run the library on concrete values.
- `app/` — the GTK application: reading and writing Teral's files, filesystem and
  desktop calls, and the window.
