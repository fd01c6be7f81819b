# agent_terminal

A terminal emulator for agents and people who type more than ASCII. The logic of
the terminal is a library that Verus verifies; the program around it draws the
window and talks to the system.

## The library (`src/`)

| Module | What it holds |
|---|---|
| `keyboard` | what a key sends, in the legacy encoding and in the kitty protocol |
| `mouse` | mouse reports, selections, dragged files, the click that activates the window |
| `input` | pasting, dropped files, compositions, and what assistive tools put in |
| `input_mirror`, `text_utils` | the model of the line that is being typed, in UTF-16 positions |
| `grid_cells`, `links`, `color` | the cells of the screen, their links, selections and colours |
| `terminal` | the picture of the screen, the emulator's events, the stream from the shell |
| `sixel` | SIXEL pictures: taken out of the stream, decoded, and kept with the text |
| `render` | what is painted in which column and row |
| `tabs`, `snapshot_tab` | the tabs of a window, and still pictures of a terminal |
| `debug_server` | who may use the debug server, and what a request does |
| `font_fallback` | which fonts stand in for glyphs that the chosen font lacks |
| `cli`, `pty`, `input_log`, `convenience` | options, the shell, the log, the input source |
| `chars` | characters, texts and numbers |

Every function states what it returns or changes. Laws that relate several
functions stand as proof functions whose names start with `law_`. Calls into
other crates (clap, image, ttf-parser) and into parts of std go through small
functions whose contracts are trusted; each says so above it.

## The program (`app/`)

Windows, the pseudo-terminal, the HTTP server, files, fonts of the system, the
clipboard and everything in pixels. It holds no rule of its own: it asks the
library what to do, does it, and reports what came of it.

## Tests (`tests/`)

Ordinary Rust tests of the compiled library.
