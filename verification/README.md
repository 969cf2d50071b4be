# pai

A desktop tool that syncs folders, locally or from remote git repositories,
keeps a list of saved syncs, and can commit and push what a sync changed.

- `src/` is the verified library: which mode a name selects, how a remote
  source splits into repository and path, the cache directory of a
  repository, what a sync run reports, saving and deleting records, the
  git commands that keep a cache up to date, how a git command's output
  becomes a result, the automatic commit as a session that decides each next
  git command, and where a path lies inside a project.
- `app/` runs what the library decides: git processes, the records file,
  file copies, and the commands the front end calls.
- `tests/` runs the library on concrete values.

The desktop shell (the tauri window, its dialog plugin and the registration
of the commands with `tauri::generate_handler!`) is not part of this crate:
`tauri::generate_context!` reads the application's `tauri.conf.json` and the
code that `tauri-build` generates at build time, and this crate has neither a
configuration file nor a build script. The commands in `app/` are the plain
functions that the shell registers: `list_sync_records`, `save_sync_record`,
`delete_sync_record` and `sync_direct`.

Paths are read as Windows reads them (drive, UNC, device and verbatim
prefixes; drive letters compared without regard to case; '/' no separator in
a verbatim path).
