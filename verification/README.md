# kanae

The core of the Kanae music player (audio CDs and local files), written in
Verus: every function under `src/` carries a contract that Verus proves.

- `src/` — the verified library: the play queue and playback session
  (`queue`, `player`), the lyric cache and lyric panel (`lyric_cache`,
  `lyrics`), library grouping, ordering and browsing (`library`,
  `library_cache`, `library_controller`), disc tables of contents and
  MusicBrainz disc ids (`cd_reader`, `musicbrainz`), LRCLIB requests
  (`lrclib`), tag handling (`file_player`), path and text helpers (`paths`,
  `text`), romanization (`romaji`), Discord and media-session payloads
  (`discord`, `smtc`) and the terminal frontend's layout and input handling
  (`tui`, `tui_input`, `tui_library`).
- `tests/` — tests of the library on concrete values.
- `app/` — a command-line front end: file, device and network work, JSON
  storage, and the floating-point parts (LRC timestamps, lyric ranking).

Outside crates are reached from `src/` only through small trusted wrappers
(SHA-1, Base64, Unicode widths, kakasi, the clock), each documented where it
is declared.
