# phosphor

A keyboard-driven terminal directory browser with fuzzy search. Select a
directory and a shell wrapper changes to it; open a file and it goes to vim,
or, for markdown, to a read-only viewer.

The browser's logic is a library verified with Verus; the program around it
reads the file system, draws with ratatui and runs vim.

## Layout

- `src/` — the verified library.
  - `app.rs` — the browser's state, the transition of each action (`step`)
    and the reads an action asks for (`Effect`); laws on resizing, the hidden
    filter, the search and the state's consistency.
  - `input.rs` — keys and the actions they stand for.
  - `nav.rs`, `order.rs` — directory entries, their listing order, sizes,
    permissions, ages and file types.
  - `fuzzy.rs` — fuzzy ranking of a listing (scores from `nucleo-matcher`).
  - `tree.rs` — the two-level directory tree and its drawn lines.
  - `md.rs` — markdown rendered to styled spans, and the viewer's scrolling.
  - `editor.rs` — the `:e` command sent to vim and the bytes of key presses.
  - `ui.rs`, `term.rs` — the text and roles of what the screen shows.
  - `text.rs`, `paths.rs` — characters, strings and paths.
- `tests/` — tests of the library.
- `app/` — the program: terminal setup, the event loop, file system reads,
  drawing and the embedded editor.

## Shell integration

```bash
p() {
  local dir
  dir=$(phosphor "$@") && [[ -n "$dir" ]] && cd "$dir"
}
```
