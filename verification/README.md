# Marqi

A terminal Markdown editor with live preview: the document stays rendered while it is
written, and only what is under the cursor is shown as source.

The library in `src/` holds the whole of the editor that is not input or output, and every
function of it is verified with Verus against a contract over mathematical models. What
lies around it, in `app/`, reads keys and files, draws, and hands the library plain values.

## Layout

- `rope`, `buffer`, `history`, `editor`: the document, its undo history, and the editor
  that edits it. `edits`, `cursor`, `smart_edit`, `formatting`, `table`, `search` and
  `navigation` are what the editor does.
- `layout`, `row_cache`, `line_index`, `block_index`: the document laid out in rows, line by
  line and block by block, brought up to date after every edit.
- `markdown`: the parsed document, its preview, the highlighting of raw source and of code,
  and the themes.
- `live`, `block_cache`: the live view, made of rendered blocks and of the source under the
  cursor, and the rendered blocks that are kept from one page to the next.
- `app`: the application. A key, a click or the outcome of an effect leads from one state to
  the next; what is to be done outside comes back as an `Effect`.
- `ui`, `render`, `cli`, `config`, `session`, `clipboard`, `color`, `teardown`: what is drawn,
  printed, configured and remembered.

Contracts are stated over views: an `EditorView` for the editor, an `AppView` for the
application, sequences of characters for texts and of spans for lines. What holds of several
functions together is proved in lemmas beside them, and in `app::laws` for the application
as a whole.

What comes from other crates is called behind small wrappers, each with a contract that
says what is taken from the crate's documentation: `ropey` for the text, `comrak` for parsing
Markdown, `regex` for searching, `syntect` for code, `unicode-segmentation` and
`unicode-width` for grapheme clusters and columns.

The code themes that belong to the colour families are `.tmTheme` files. The program looks for
them in `syntax_themes/`, beside its configuration file, and says which one it did not find.
