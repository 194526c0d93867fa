# whisper_git

A git client whose decisions are verified with Verus: what a commit graph looks like, which
files are staged, what a patch for a single hunk says, what a key or a dialog leads to, and what
is said when a background operation ends.

- `src/` is the library. Every function states its result in `ensures`; the laws that relate
  several functions are public proof functions beside them.
  - `text`, `paths`, `text_map`, `order`, `oid`: texts, paths, maps keyed by texts, sorting,
    object ids.
  - `git`: commits, status, diffs, hunks, refs, orphaned commits, commands and their errors.
  - `commit_graph`, `history`, `commit_details`, `diff_view`, `dialogs`, `row_paths`, `scenes`:
    what is shown, as plain data.
  - `ci`, `github`, `ai`, `avatar`, `config`, `crash_log`, `git_async`: the services around it.
  - `app`: tabs, dialogs, shortcuts, polling and scheduling of the running program.
- `app/` is the program: it reads repositories, runs commands, sends requests and draws what the
  library says is shown. Measures in pixels are floating-point numbers and stay there.
- `tests/` runs the library on concrete values.
