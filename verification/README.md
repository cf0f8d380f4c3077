# terminalsort

Tile and rename terminal windows on X11, with font scaling for GNOME Terminal.

The crate is a Verus library with a thin program around it.

- `src/` holds the verified logic:
  - `layout.rs`: the layouts (`h2`, `v2`, `h3`, `v3`, `grid`), their cell
    geometry as spec functions, `calculate_layout`, and clipping a monitor to
    the workarea;
  - `tiling.rs`: what the layouts promise (every window gets one cell, cells
    lie inside the monitor with their decorations and never overlap, grid
    shapes);
  - `tile.rs`: tiling on the free part of a monitor;
  - `text.rs`: characters, words, trimming, decimal numbers;
  - `font.rs`, `state.rs`: profile paths, font descriptions, and the record
    of original fonts;
  - `pts.rs`: `/proc/<pid>/stat` parsing, title escape sequences, probe titles;
  - `x11.rs`, `monitor.rs`, `picker.rs`, `rename.rs`: decoding X properties,
    choosing monitors, picking windows by clicking, window ids.
- `app/` is the program: command line, X11 requests (x11rb), `gsettings`,
  the state file (serde_json), `/proc` and the pseudo-terminals, and the
  floating-point font size formula.
