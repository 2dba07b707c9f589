# regret

`regret` mines a git history for regretted commits: reverts and linked-fix
trailers point back at the commits they undo or repair, and the culprits are
ranked by the weight of that evidence.

## Layout

- `src/` is the verified library, checked by Verus: parsing of commit
  messages, policy expressions, durations, dates and paths; the ranking of
  culprits and the order of the NDJSON records; hotspots; the varint and hash
  encodings of file sets; and the decisions of a scan (which scans run,
  rewrites, coverage and its validity, the fast path, the culprit of a
  manual revert). Public functions carry contracts; a few private helpers
  carry none, and Verus checks of them only that they cannot fail. Calls into
  outside crates (regex, chrono, globset, lru, blake3, sha2, git2) and into
  std's clock go through small trusted wrappers whose contracts say what the
  crates and std document.
- `tests/` runs the library on concrete inputs.
- `app/` is the command-line program around the library: argument handling,
  the SQLite cache, git, the clock, the file system and printing, and the
  parts that compute with floating point (confidence fractions, medians,
  rates, policy comparisons).

Confidences are held in the library as basis points (10000 is 1.0), and times
to regret as whole seconds.
