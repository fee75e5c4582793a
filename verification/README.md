# csift

A verified library for sifting coding-agent session transcripts (`.jsonl` logs): the
decisions behind `search`, `show`, `stats`, `list` and the subagent topology, written in
Verus with their contracts proved.

- `src/search/` — pattern matching (regex and literal prefilter), the per-record hits a
  label filter selects, turn reconstruction, the timeline and `--max-count` window, the
  census axes, and the text report.
- `src/show/` — `show`'s argument checks, line/uuid/turn addressing, the raw and the
  rendered settling of a fetch (address misses, unit cap, continuation command), and
  branch points.
- `src/stats/`, `src/session.rs`, `src/session_render.rs` — per-transcript statistics
  and session listings.
- `src/topology.rs`, `src/lineage.rs`, `src/subagent.rs` — subagent depth, journal
  results and the lineage of cleared or cloned sessions.
- `tests/` — scenario tests on concrete values.

Reading files, walking directories, threads and printing stay with the caller: the
library takes plain values (line bytes, parsed record views, line counts) and hands back
plain values (settled outcomes, text lines, error messages).

The calls into `regex`, `regex-syntax`, `memchr` and `jiff` sit
behind trusted wrappers whose contracts state what those crates' sources show.
