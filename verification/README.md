# epic_asset_manager

The verified core of a desktop manager for assets bought on the Epic Games
store and on Fab: the bookkeeping of downloads, the state of each download,
and the decisions of the library, engine, marketplace and project views.

Layout:

- `src/` — the library, written in Verus; every function carries a contract
  that Verus proves.
  - `download_manager.rs`, `download_item.rs`, `download_files.rs` — which
    chunks to fetch, when a file is complete, pausing, resuming and
    canceling, speed and progress of an entry, assembling files from chunks.
  - `library.rs`, `asset_details.rs` — searching, ordering and categorising
    vault assets, and the details pane.
  - `fab.rs` — the marketplace view: its filter, its sorted category list,
    store searches and the version dialog.
  - `engines.rs`, `projects.rs` — installed engines, engine versions offered
    for download or for new projects, and the project dialogs.
  - `laws.rs` — properties that relate several operations.
  - `outside.rs` — the calls into other crates; their contracts are trusted.
  - `str_map.rs`, `text.rs` — a string-keyed map and text helpers.
- `tests/` — tests on concrete values.
- `app/` — what surrounds the library: the disk, the store client's types,
  and figures computed in floating point.
