# ThunderTray

A system-tray companion for Thunderbird on KDE Plasma (Wayland): an envelope icon
with an unread badge, a click that shows or hides Thunderbird's window through KWin
scripts, and a watchdog that keeps Thunderbird running in the background.

## Layout

- `src/` is the library, verified with Verus. It holds the program's decisions and
  text processing, each function with a contract:
  - `config`: defaults, validation, and what loading or saving a configuration may do;
  - `thunderbird`: profile roots, `profiles.ini` reading and the profile search;
  - `mork`: the unread count from `folderCache.json`, with the mbox file as fallback;
  - `watcher`: the monitored mailboxes (each once) and their saturating total;
  - `window`, `kwin_script`: the launch command, recognising Thunderbird's
    processes, and the KWin scripts and their names;
  - `tray`: the tray's texts and the state machines of the poll loop, click
    debouncing and the watchdog;
  - `icon`: badge colours, layout and glyph pixels, and the icon pixel format;
  - `installer`, `settings`, `cli`: the unit file and install locations, the status
    report, the settings dialog's answer, and the command line;
  - `text`, `path`: the string and path operations the rest is built on.
- `app/` is the program around it: command-line parsing, reading and writing files,
  processes, D-Bus, the tray service and drawing the icon.
- `tests/` exercises the library.

`thundertray settings` runs a small tkinter form (needs `python3` with tkinter); without
it, the command explains where the configuration file is.
