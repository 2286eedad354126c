# workspace_files

Workspace file operations for a desktop application, with proved contracts: creating, renaming and
moving items, checking which paths exist, text previews, image downloads, opening items with the
system, watching workspaces, and keeping AppKit's function-key characters out of text fields.

The library in `src/` decides and never touches the disk. An operation that alternates between
deciding and doing is a function of everything observed so far; its answer is the next thing to do,
or the final result. Its contract states that answer exactly, and public proof functions named
`law_...` state what holds of an operation as a whole.

| Module | What it holds |
| --- | --- |
| `text`, `numbers`, `paths` | characters, hexadecimal and decimal forms, path components |
| `path_laws` | laws of joining, parents and relative forms |
| `flow` | the shape of a step |
| `files` | what renaming does to the files of a disk |
| `crud`, `move_items` | creating, renaming, moving |
| `check_paths` | batches of existence checks |
| `read_preview`, `download` | reading a file as text or as base64 |
| `system_open` | commands for the file manager and the default application |
| `watcher` | event keys, tokens and the registry of watchers |
| `macos_arrow_filter` | function-key text, and the choice of the web view class |

`app/` performs what the library asks for: it reads and writes the disk, starts programs, runs the
watchers and talks to the windows. `tests/` plays the operations through against disks in memory.
