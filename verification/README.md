# qaqh_tui

The core of a terminal front end for coding sessions, verified with Verus. The
library decides what every key, event and result does, and what every line on
the screen says; an outer program does the reading, sending and painting.

## Layout

- `src/` is the verified library.
  - Text: `text`, `width`, `decimal`, `render_line`, `json`, `path`.
  - Markdown and code: `md_*`, `markdown`, `highlight`.
  - Transcript: `timeline`, `tool_diff`, `tool_card`, `plan`,
    `render_transcript`, `stream`, `export`, `session_info`.
  - Block cache: `seg`, `align`, `estimates`, `refresh`, `viewport`.
  - Sessions: `ringing` (the event reducer), `session`, `ask`, `approval`,
    `composer`, `conn`, `retry`.
  - Application: `app`, `message`, `focus`, `keymap`, `overlay`, `slash`,
    `paste_guard`, `pager` and the `app_*` modules.
  - Laws over several modules: `answer_laws`, `cache_laws`, `change_laws`,
    `glyph_laws`, `isolation_laws`, `ringing_laws`, `scroll_laws`, `view_laws`,
    `wrap_laws`. Others stand beside the functions they speak of. All are named
    `law_*`.
- `app/` is ordinary Rust around the library: the client, the clock, files,
  terminal input and painting, and the loop that performs effects.
- `tests/` runs the library from outside.

## How it fits together

`App::handle` takes one message that `App::accepts`. It changes the state and
adds `Effect`s for whatever needs the outside. The outer loop sets the clock, the
time texts and a fresh id before each message, and takes the effects out after
it. Each handler's contract gives the new state as a spec function of the old
one.

Calls into `syntect`, `pulldown_cmark`, `serde_json` and `unicode_width` are the
trusted items. Each has a doc comment that says what is believed of it.
