# diffitrust

A side-by-side text comparison tool. The library (`src/`) holds the logic,
verified with Verus; `app/` is the iced window around it.

- `diff`: line diff from `similar`, paired into rows, replaced line pairs
  diffed by character; row shape, the count of differing lines, each side's
  line numbering and text, unchanged rows showing one text on both sides,
  and the all-equal diff of identical texts are proved.
- `color`: `#RGB`, `#RGBA`, `#RRGGBB`, `#RRGGBBAA` colours.
- `theme`: `config.toml` and theme-file settings, theme names per system
  appearance, built-in presets, and the plan a theme is assembled from.
- `files`: the priority order of configuration directories, and choosing
  `config.toml` and theme files among them (names compared ignoring case,
  `-`, `_` and spaces).
- `app_state`: the window's state machine; every message yields a command that
  the window carries out (reading files, dialogs, resizing, theme loading),
  the zoom shortcuts, and what happens to files dropped on the Dock icon.
- `labels`: the texts the window shows.
- `text`: characters, whitespace, trimming and line splitting.
