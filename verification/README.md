# rhyolite

The document and tab state of the Rhyolite markdown editor, verified with Verus.

- `src/model.rs` — tabs, recent-file entries, documents and saved sessions, with their views.
- `src/tab_map.rs` — the `indexmap` ordered map that holds the tabs, with the contracts of the methods used.
- `src/tabs.rs` — the tab switcher and the tab commands (open, rename, cycle, close, delete).
- `src/workspace.rs` — the recent-files list.
- `src/names.rs` — file names of documents (through `sanitize-filename`), "Untitled" titles, markdown titles, document identifiers (through `uuid`).
- `src/session.rs` — the whole editor state: saving documents, deleting the document in focus, opening a new tab, saving and restoring a session.
- `src/laws.rs` — properties that span the operations.
- `app/` — the file-system and front-end side: reading and writing documents and the user-data file, and the commands.
