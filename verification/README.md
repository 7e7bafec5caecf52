# cbar

The decisions of a desktop panel with an application launcher, as a library
whose functions are proved to do what their contracts say. The processes,
files, sockets and windows around it are ordinary Rust.

## What the library holds

| Module | Content |
| --- | --- |
| `launch`, `appset` | starting applications: argument limits, the queue, the service manager, the reaper, sets of applications |
| `config`, `config_change` | the launcher's configuration, its rules, and whether it changed |
| `inventory`, `column`, `stream` | what machines report, how it becomes columns, and how news are merged |
| `provider`, `capture`, `digest` | asking machines again and again, cache writes, output limits |
| `desktop`, `json` | desktop files of this machine, and the JSON document of its inventory |
| `icons`, `bytes` | the cache of decoded icons |
| `materialize`, `navigation`, `screen`, `style` | what of the grid gets widgets, keys and clicks, monitors, style sheet and markup |
| `preparation`, `prepared` | preparing and replacing the launcher's window |
| `sway`, `sway_commands`, `sway_parser`, `compositor` | the compositor protocol, its commands, and the clients of the bar |
| `ipc` | the control socket |
| `watch` | subscriptions to changed files |
| `text` | texts, numbers in decimal notation, maps with text keys |

Contracts speak of texts as sequences of characters and of collections as
sequences and maps. Laws that relate several functions are public proof
functions beside them.

What the library takes from other crates stands behind functions whose
contracts are believed and not proved: `serde_json` in `json`, `sha2` in
`digest`, and a few functions of the standard library in `text` and `provider`.
Their doc comments say what is believed.

`app/` holds the rest: threads and child processes, asynchronous sockets, JSON
forms of the library's types, file watching, and the GTK window.
