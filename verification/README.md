# poneglyph

A terminal markdown editor whose core is verified with Verus.

- `src/` is the library. Its functions are proved against their contracts,
  but for a few small wrappers marked `#[verifier::external_body]` that call
  std, `unicode-width`, `image` and `ratatui-image`: their contracts are
  trusted, and their doc comments say what they claim.
  - `text.rs`: character-level text utilities (trimming, splitting, joining,
    searching, ordering) with their specifications.
  - `markdown.rs`: line classification, outline, tables, lists and inline
    markdown tokens.
  - `render.rs`: the styled preview rows of a document, wrapping, tables and
    image placements.
  - `app.rs`: the editor state, edits with undo/redo history, movement,
    modes, theme picker and file browser.
  - `keys.rs`: scripted key names and the key dispatch of the editor.
  - `config.rs`: reading and writing the preferences file, and where it is.
  - `debug_emit.rs`: plain-text snapshots of the viewports and the state.
  - `ui.rs`: the layout decisions of the screen (header, body split, side
    panels, image overlays).
  - `paths.rs`, `width.rs`: file locations and display widths, through std
    and `unicode-width`.
  - `images.rs`: where an inline image is read from, and the cells it takes
    once fitted, through `image` and `ratatui-image`.
- `app/` is the program around it: command line, terminal loop, drawing with
  ratatui, files, configuration lookup and images.
- `tests/` runs the library on concrete inputs.

The public proof functions named `law_*` state properties that hold across
calls or over whole documents: undo reverts an edit, redo reverts an undo,
Backspace reverts an inserted character or line break, an edit keeps at most
two hundred undo steps, written preferences read back, wrapping keeps the
text, the outline lists every heading line in order, classified lines keep
their shape, inline text runs are merged, and preview images lie in order
inside the preview rows.
