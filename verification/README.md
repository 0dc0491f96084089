# Codex Vault

A terminal program that archives, restores and permanently deletes complete
Codex conversation trees on the host it runs on. Its logic is a library whose
behaviour is stated in contracts and proved with Verus.

- `src/` is the library. `domain`, `tree` and `filter` hold the sessions and
  their trees; `codex` reads the task catalog, the listings of the app-server
  and the leftovers on disk, and puts them together as a scan; `service` plans,
  runs, records and recovers operations; `storage` decides what the operation
  record holds; `ui` is the state behind the terminal and what its pages say.
  `text`, `path`, `ordered` and `outside` are what these rest on.
- The public proof functions named `law_..` state what holds across functions:
  that a protected session blocks its whole tree, that nothing runs that was not
  previewed, checked against a fresh scan and recorded, that nothing is reported
  as done that the scan after it did not show.
- `outside` holds the calls into JSON, TOML and time parsers. What these return
  is named, not proved.
- `app/` is the program around the library: arguments, the connection to the
  app-server, the SQLite files and the terminal.
- `tests/` runs the library on values.
