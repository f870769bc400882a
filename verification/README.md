# te

A terminal view of a git work tree, built on a verified library.

`src/` is the library, verified with Verus:

- `diff/`: parsing unified diffs, pairing changed lines, inline change spans,
  side-by-side and unified rows, display widths.
- `git.rs`: the git panel's state: status entries, the section tree, hunks and
  change blocks of a diff, side-by-side cell rendering.
- `git_ops.rs`: the arguments of each git command and the reading of its
  output (history, reflog, stashes, branches, changed files, `.gitignore`).
- `branch.rs`, `pickers.rs`, `log_view.rs`, `ranking.rs`, `search.rs`: the
  branch, stash and author pickers and the log view, their filter queries and
  fuzzy ranking.
- `commit.rs`, `conflict.rs`, `inspect.rs`, `jobs.rs`: the commit editor,
  conflict blocks and their resolution, inspect texts, job outcomes.
- `preview.rs`, `preview_cache.rs`, `git_diff_loader.rs`, `explorer.rs`: file
  previews as a step machine, their LRU cache, diffs of untracked files, the
  file listing.
- `theme.rs`, `clipboard.rs`, `openrouter.rs`, `highlight.rs`, `version.rs`,
  `text.rs`: palettes, OSC 52 sequences, the commit-message request and reply,
  supported extensions, version comparison, text helpers.

`app/` is a command-line front end that runs git and reads files, drives the
preview loader on tokio, and talks to OpenRouter. `tests/` runs the library on
concrete values.
