# wzed

The core of WZed, a small tabbed text editor, written in Verus: every
function under `src/` carries a contract that Verus proves.

- `src/tabs.rs`, `src/sidebar.rs`: the tab list (pinning, closing, dragging,
  groups, restoring) and the rows of the tab sidebar.
- `src/search.rs`, `src/tab_search.rs`: find and replace in the active tab and
  the search over all tabs.
- `src/diff.rs`: the side-by-side comparison of two texts.
- `src/commands.rs`, `src/names.rs`: the command center and action names.
- `src/ipc.rs`, `src/cli.rs`: the messages a second launch sends to the
  running editor, and the command line.
- `src/session.rs`, `src/recent_files.rs`, `src/file_watcher.rs`,
  `src/encoding.rs`: what is saved between runs, file-change tracking and
  character encodings.
- `src/text.rs`, `src/paths.rs`: string helpers and path comparison shared
  by the modules above.

Calls into `similar`, `regex`, `encoding_rs`, `chardetng`, `chrono`,
`serde_json` and a few std functions go through small `external_body`
wrappers; their doc comments say what their contracts assume.

`app/` is the program around the library: command-line handling, the local
socket, reading and writing files. `tests/` exercises the library.
