# ravix

A terminal git client whose core is verified with Verus.

- `src/` is the library: the lane layout of the commit graph, diff staging
  and patches, conflict parsing and resolution, stash parsing, the branch
  list, visibility and focus sets, fuzzy filtering, undo plans, the git
  command lines the client runs and how their failures are reported, key and
  mouse bindings, the step of each action on the interface's state, word
  wrapping and clipping of styled text, the rules of the graph's columns,
  and the text of the graph rows, the conflict browser, the stash cards and
  files, the branch panel and the diff panes, with style tags that `app/`
  turns into colours. Every function there carries a contract (but the call
  that loads syntect's bundled syntaxes, of which there is nothing to state),
  and the `law_*` proof functions state what holds across calls.
- `app/` is the program around it: reading the repository with `git2`,
  running `git`, the credential socket, the filesystem watcher, the panel
  animations and drawing with `ratatui`.
- `tests/` runs the library on concrete values.
