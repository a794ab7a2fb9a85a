# cliphist

Clipboard history for Linux (X11 and Wayland), in the manner of Win+V: a
daemon records what is copied, a panel lists the history and puts an entry
back on the clipboard.

- `src/` is the library, verified with Verus: the rules of the history (listing
  order, trimming to the newest entries, pinning, merging repeated copies,
  orphaned image files, schema migration), what gets recorded (ignore rules,
  content hashes, image headers), settings.conf, the picker/daemon protocol,
  the daemon's polling decisions, clipboard read plans and text decoding, the
  panel's search, keys and placement, the command line and the hotkey setup.
- `app/` is the program around it: the SQLite database, the X11 clipboard, the
  Unix socket, files and environment, helper processes and the GTK panel.
- `tests/` runs the library on concrete values.
