# windows-side-dock

A vertical dock and launcher for Windows. The decisions the dock makes are a
library proved with Verus; the window, the Win32 calls and the file I/O sit
around it in a small program.

## Layout

- `src/` — the verified library.
  - `text` — trimming, searching and case folding on characters, with their specs.
  - `command_line` — splitting a registered command into program and arguments.
  - `paths` — Windows file names and stems of dropped paths.
  - `model` — launcher items, matching running programs to pins, grouping windows.
  - `config` — the stored settings and the `items.txt` format, with round-trip laws.
  - `shell_menu` — the Explorer background menu entry for the process tool.
  - `layout` — which half of the screen holds the dock, reserved screen edges, context-menu
    sizes, the tray icon bitmap, the clock text.
  - `dock` — first-run and saved pins, adding and removing pins, launch decisions.
  - `explorer_menu` — the submenu that the Explorer extension offers and invokes.
- `tests/` — scenario tests of the library.
- `app/` — `main`, the egui/eframe user interface, Win32 and registry access, and the
  settings files on disk. It passes plain values to the library and acts on its answers.
