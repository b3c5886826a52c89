# media_launcher

Matches the episodes of a TV season folder with their external audio tracks
and subtitle files, and writes one launch script per episode (`01.bash`,
`02.cmd`, …) that opens the episode in mpv or VLC with every track attached.

## Layout

- `src/` — the library, verified with Verus:
  - `text.rs`, `number.rs`, `paths.rs`: strings, decimal numbers and paths,
    each function stated against a spec function;
  - `pattern.rs`: episode numbers in file names, found with the `regex` crate
    (the only trusted code: the declarations of `regex::Regex` and
    `regex::Error`, three small wrappers, and three names for what the regex
    crate returns: whether a pattern compiles, the text of a match, and the
    text of a capture group);
  - `media_scan.rs`: classifying files, placing them in the episode table,
    scanning a folder through the `Fs` trait, and script names and contents;
  - `os/`: per-platform conventions (script extension and header, where
    players are installed) and locating a player;
  - `players/`: the launch commands of mpv, VLC and PotPlayer, and choosing
    the player;
  - `app.rs`: one run, from the season folder to the written scripts, and
    the messages for a stopped run;
  - `fixture.rs`: recording a season folder as a test fixture.
- `app/` — the program: command line, real file system, folder dialog,
  messages, and the fixture recorder (`media-launcher dump-fixture DIR`).
- `tests/` — tests of the library, with an in-memory file system.
