# arch_package_tui

A keyboard-driven package commander for Arch Linux: a queue of packages is
installed through `pacman`, then the AUR helpers in a chosen priority, each
failing batch split until the broken packages are isolated.

- `src/` is the library, written in Verus and verified: the interface state
  machine (keys, focus, queue, search), the installer's fallback state
  machine and its laws, the package index merge, the parsers for the output
  of `pacman`, `expac` and the info commands, the settings model and the
  command line.
- `app/` is the program around it: the terminal (crossterm, ratatui), the
  threads that run the commands, and the TOML files (serde).
- `tests/` runs the library on concrete inputs.
