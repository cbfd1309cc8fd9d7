# typ-app

The application shell of a terminal text editor, with its decisions proved.

`src/` is the library, verified with Verus. It holds what the shell decides
and computes, stated over plain values:

- `tabbar`, `tabs`, `layout`: where the tab strip's cells land and what they
  show, the list of open files and which one is on screen, and where every
  panel goes in a frame.
- `status`, `shell`, `prompt`, `search`: the status bar's segments and its row,
  where a key goes, the prompt's questions and what their answers do, goto-line
  parsing, smart case and stepping through matches.
- `backend`, `capability`: the attribute and colour sequences a frame is drawn
  with, and what the terminal is believed to show.
- `config`: settings from `config.toml`'s text (through `toml`), theme names
  and config paths.
- `lsp`: language-server configuration, progress, hover and definition
  answers, the crash window, document versions, requests in flight.
- `events`, `logging`: folding a batch of wheel notches, how far a batch goes
  before a quit, routing the mouse, and the lines of the log file.

Outside crates are called through small trusted wrappers whose contracts name
what they return (`text`, `path`, `config::settings`).

The tab bar's cells are measured with `unicode-width` (`UnicodeWidthStr::width`)
and cut at grapheme boundaries from `unicode-segmentation`. The editor's own
buffer crate has a display-width function of its own; the two are not shown
here to agree on control characters, tabs or emoji sequences.

`app/` is ordinary Rust around the library: the terminal backend, environment
variables, files, the log file's sink, and conversions from the parsers'
values into the library's.

What is not here: the application type that owns the panels, the event loop
that drives it, and loading a theme's palette. Those are built on the
editor's own crates (`typ_core`, `typ_buffer`, `typ_panel_editor`,
`typ_panel_tree`, `typ_picker`, `typ_lsp` and the rest), which this library
does not depend on; it holds the decisions those pieces ask for (the quit
question, how far a batch of input goes, what a frame writes), and they
carry them out.

`tests/` runs the library on concrete values.
