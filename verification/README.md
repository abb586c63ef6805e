# illium

The verified core of the Illium desktop shell for Windows. The library in
`src/` holds the shell's models and bookkeeping, each function with a
contract that Verus proves:

- `protocol`: bounded UTF-8 line framing of the command pipe and the commands
  a frame carries.
- `queue`, `request`: the bounded event queue to the UI thread and the
  cancellable command tickets.
- `hook`, `keybindings`: the keyboard hook's per-key decisions (lock
  screen, capture, dictation, hints, bindings) and the keybindings editor's
  chord capture.
- `manager`: the window manager's event step on its desk (foreground focus
  and monitor, popups and bar modules, focus following the mouse), window
  mode commands, the launch lookup and display changes.
- `state`: which parts of a freshly read placement file are kept.
- `space_picker`, `theme_picker`: keyboard models of the pickers.
- `wallpaper`, `wallpaper_loader`, `theme_loader`, `cache`, `disk_cache`,
  `theme_render`: wallpaper choices and backdrops, the latest-request slots
  of the background workers, and their byte-bounded caches.
- `traffic`, `provider`, `screensaver`: interface counters, applet provider
  scheduling and lock-screen idle state.
- `launcher`, `bar`, `geometry`, `escape`, `apps`, `browser`, `terminal`,
  `dictate`, `focus`, `session`, `text`: matching, bar layout, popup
  geometry, key handling and launch rules.

Laws that span several calls (a normal state loads unchanged, a cached value
is read back, superseded work never publishes, and so on) are public proof
functions next to the functions they relate.

`app/` is ordinary Rust around the library: files (placement, wallpaper
choices, thumbnail cache), the pipe reader, worker threads, serialised forms
and floating-point layout. `tests/` exercises the
library from outside.
