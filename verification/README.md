# mdv

A terminal Markdown viewer: a table of contents beside the text, incremental search,
colour themes, syntax-highlighted code blocks, width-aware wrapping for CJK text, and
inline images where the terminal can show them.

The viewer's logic is a library verified with Verus; the program around it draws with
ratatui and reads keys with crossterm.

## Layout

- `src/` — the verified library.
  - `text.rs`, `width.rs`: strings, splitting, and display widths (UAX #11 through
    `unicode-width`, with a CJK mode).
  - `events.rs`, `parser.rs`: Markdown events from `pulldown-cmark`, turned into document
    nodes and a table of contents.
  - `renderer/`: layout of nodes into styled lines — inline spans and soft wrapping,
    tables, code blocks (highlighted with `syntect`), block quotes, lists, the viewport,
    measuring, and search highlighting.
  - `themes.rs`, `theme.rs`, `config.rs`: palettes, styles, key bindings and settings.
  - `app.rs`, `keys.rs`, `dir.rs`: the viewer's state and what each key does; the file
    list of directory mode.
  - `panels.rs`: what the panels say and where the panels and overlays go — the status
    bar, the help, the rows of the side panel, titles, the screen layout (split by
    `ratatui`), which images show and which to load.
  - `images.rs`: the state of each inline image (loaded, loading, waiting, failed) and
    the limit on loads running at once.
- `app/` — the program: command line, configuration file, terminal, drawing, images.
- `tests/` — tests of the library.

Besides each function's contract, the library proves properties that relate several
functions, in proof functions named `law_*`: scrolling stays in range and scrolling back
undoes it; the next and previous search matches undo each other; measured heights are the
heights that rendering gives, wherever the highlighter takes every line of each code block
(a line it fails on loses its break, so two code lines share a row); wrapped lines fit
their width; table lines are all equally wide where the border characters are one column
wide (always outside CJK mode); marking search matches keeps a line's text; and others.

## Usage

```
mdv path/to/file.md
mdv path/to/folder
mdv --no-images path/to/file.md
```

Files larger than 50 MB are rejected. Key bindings and the theme can be set in
`config.toml` in the platform's configuration directory:

```toml
theme_name = "tokyo-night"

[keys]
quit = "q"
down = "j"
up = "k"
next_theme = "t"
```
