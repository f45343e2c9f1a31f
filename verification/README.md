# sshot

A screenshot tool for the niri compositor. An overlay dims the desktop; a click picks a window, a
drag picks a region, and the picture is saved and copied to the clipboard. It runs as a daemon with
an icon in the system tray.

## Layout

- `src/` is the library, verified with Verus: contracts state what its functions return. Of what the
  clock, chance and the environment give, they state what holds of every outcome.
  - `capture`: reads the PPM images that `grim` writes.
  - `json`, `niri`: read niri's replies and sort the windows into screens, columns and rows.
  - `layout`: the choices in placing windows on a screen.
  - `coord`: coordinates, held as the bit patterns of doubles, and their order.
  - `overlay`: a session of the overlay as a state machine.
  - `raster`, `png`: the pixels of the overlay, and the region to save.
  - `config`, `clock`: the configuration, file names, and the time in them.
  - `daemon`, `tray`: the command line, signals, the PID file, the tray icon and its menu.
  - `text`: words, numbers, trimming, replacing and joining.
- `app/` is the program around it: processes, files, Wayland, D-Bus, and floating-point arithmetic.
- `tests/` run the library with the outside crates that it calls.

What the proofs rest on without proof stands next to the call it is about, in a comment that names
the outside function: `serde_json` in `json`, `chrono` and `rand` in `clock`, `image` in `png`,
`dirs` in `config`, and a few functions of the standard library in `capture` and `text`.
