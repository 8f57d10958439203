# svnui

A terminal client for Subversion working copies: a status tree with a
commit set, diffs, the log, blame, file history, a fuzzy file finder and
saved patches.

- `src/` is the verified core. The parsers for the svn client's output,
  the file tree and its commit set, text search, scrolling, key bindings,
  the popups, the tabs and the application state machine are proved with
  Verus against their contracts. The application does no I/O: it asks for
  outside work (`Effect`: svn invocations, patch files) and takes the
  results back (`AsyncSvnNotification`, `App::patch_saved`, ...).
- `app/` is the program around it: the terminal, the event loop, the svn
  processes, the patch directory and drawing.
- `tests/` holds the tests of the core.
