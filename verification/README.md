# gpbeam

GPBeam takes the files off a GoPro, from its card or over USB, copies them to a
destination with verified hashes, remembers what it has copied, and mirrors the
copies to a Nextcloud server.

- `src/` is the library: what is copied, under which name, when a source may be
  deleted, how uploads are cut into parts, resumed, retried and given up, and what
  the command line and the windows show. Every function has a contract that Verus
  proves; the public proof functions state what holds across functions. Calls into
  other crates stand behind small functions whose doc comments say what is claimed
  of the call.
- `app/` is the program around it: arguments, files, SQLite, HTTP, the keychain and
  the detection of cards and cameras. Started as `gpbeam-desktop` it serves the
  windows; otherwise it is the command line.
- `tests/` runs the library on concrete values.
