# loxia

The logic of loxia, a keyboard-driven terminal music client for Emby, written in Verus: every
function in `src/` carries a contract that Verus proves, and the outside crates it calls (path
handling, grapheme segmentation, fuzzy matching, timestamps, seeded shuffling, small vectors,
platform directories) stand behind trusted items whose contracts say what their documentation
promises.

- `src/` — the verified library: the play queue and its shuffle, the configuration and its
  validation, the keymap and key resolution, lyrics parsing (LRC and SRT), the rolling cache,
  the download index and offline search, the player's property translation and command table,
  the test engine, and the directory layout.
- `tests/` — tests of the library on concrete values.
- `app/` — the program around the library: files on disk, the configuration as TOML, the fetch
  loop for pinned tracks, the player handle, and what is computed in floating point.
