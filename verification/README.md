# seekman

The logic of Osu! Beatmap Seekman, a batch searcher and downloader of osu!
beatmaps, as a Verus-verified library, with a thin command-line front.

- `src/` is the library. Every function has a contract that Verus proves:
  the readers and writers of osu!stable's `collection.db` and `osu!.db`,
  the download queue (groups, progress, retries, staging of playlist
  groups), the choice and order of download mirrors, the settings, search
  queries, filters and the order of results, AlphaOsu! answers, playlist export and import, and
  the hashes of the beatmaps inside `.osz` archives. The public proof
  functions named `law_*` state what holds across calls (what a read gives
  back of a write, what one request adds to the queue, what the progress of
  a group can be).
- Calls into outside crates (`zip`, `md-5`, `chrono`, `rand`, and parts of
  `std` that Verus has no specification for) go through small wrappers in
  `clock.rs`, `osz.rs`, `paths.rs`, `binary.rs`, `osu_file.rs` and
  `text.rs`, each with a doc comment saying what its contract claims.
- `app/` holds what the library leaves out: files, HTTP requests,
  the async download runs, the state file, and the fractional numbers
  (star ratings, difficulty values, BPM), which the library does not hold.
- `tests/` runs the library on concrete values.
