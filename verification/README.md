# gobby

Verified core of the GOBBY assistant runtime and of the Milton self-play
pipeline, written in Verus.

- `src/codex.rs` — thinking levels, stop reasons, token usage.
- `src/skills.rs` — `SKILL.md` parsing, specified over the lines of the body
  (`src/text.rs` holds the whitespace, trimming and counting helpers).
- `src/gateway.rs` — the idempotency cache: its contents as a map from key to
  reply and recording time, freshness, eviction of the oldest entry, and the
  laws that tie lookups to recordings.
- `src/surfaces.rs` — surfaces, their slugs, group addresses.
- `src/arena.rs`, `src/net.rs`, `src/selfplay.rs` — arena totals, checkpoint
  headers and network size, the value label of each ply.
- `src/cli.rs` — command dispatch of the two command-line tools.

`app/` holds the command-line entry point and the floating-point parts
(arena win rates, MCTS scores, float training samples), which use the
library for their integer logic.
