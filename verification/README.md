# dangling_deletes

Removes the delete files of a table that no longer apply to any of its data
files: position delete files, deletion vectors and equality delete files.

- `src/values.rs`, `src/manifest.rs`: the files of a table, as its manifests
  list them.
- `src/keys.rs`, `src/index.rs`: the keys that files are compared by, and a map
  over them.
- `src/delete_file_index.rs`, `src/dangling.rs`: what a delete file reaches, and
  when it is dangling.
- `src/scan.rs`: the scan of a snapshot.
- `src/transaction.rs`: what a commit requires and changes.
- `src/action.rs`: the action, as a run that asks for one thing after another.
- `src/laws.rs`, `src/runs.rs`: what holds of the decisions and of whole runs.

All of `src/` is verified with Verus. `app/` performs what a run asks for against
a catalog.
