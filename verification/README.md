# repositorymonitor

The backend of a desktop dashboard that shows, for every git and Subversion
working copy under a few folders, whether it is clean: branch, upstream,
ahead/behind, staged/modified/untracked/conflicting entries, stashes,
operations in progress, worktrees and last fetch. Everything is read with
local commands only.

- `src/` is the library, verified with Verus: the parsers of
  `git status --porcelain=v2 --branch`, `git stash list`,
  `git worktree list --porcelain` and `svn status`/`svn info`, the status
  model, the merge of a failed reading with the previous snapshot, the
  change detection that decides whether a snapshot is pushed, the refresh
  gate (single refresh in flight, numbered pushes), discovery rules
  (categories, pruned directories, exclusion globs through `globset`), the
  commands that open outside applications, and the polling rules.
- `tests/` runs the library on concrete inputs.
- `app/` is the shell: it runs `git`/`svn`, walks the filesystem, loads and
  saves the settings as JSON, runs the batch on tokio and wires the Tauri
  window, commands and events.
