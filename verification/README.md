# abar

A minimalistic Wayland status bar. The library (`src/`) holds the bar's logic, each function
with a contract that Verus proves; the program (`app/`) reads files and the environment, talks
to the compositor and paints with Cairo and Pango.

## Library modules

- `text`, `fs`, `search`, `sort`: characters, paths, a read-only view of the file system, the
  first existing path of an ordered candidate list, and a stable keyed sort.
- `color`: `#RRGGBBAA` parsing and the byte orders of Wayland and Cairo buffers.
- `model`: segments, islands and the three regions of the bar.
- `config`, `theme`: the tables of `config.toml` and `theme.toml`, where the files are, and the
  bar layout that the `[layout]` table describes.
- `icon`: FreeDesktop icon lookup (`index.theme` directories, size-named directories,
  inherited themes, `hicolor`, shortened names, `/usr/share/pixmaps`).
- `settings`: colors, font, the laid-out bar with events, icon fallbacks, markup and initial
  labels, and the module configurations.
- `bar`: edits that visit every segment, and module updates.
- `modules`: clock, keyboard, workspaces, window, mpris and tray.
- `input`: pointer buttons and scrolls, the pointer's state between events, and what an
  action on a segment does.
- `exec`: the lines of exec scripts and the restart delay.

## Program

`app/` parses the command line, loads the TOML files, takes a snapshot of the icon
directories, resolves the settings with the library, starts the exec scripts and the clock,
and runs the Wayland event loop, performing what the library decides for each event.
