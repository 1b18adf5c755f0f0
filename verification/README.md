# video_player

The verified core of a Windows desktop video player (libmpv + Tauri).  The
library in `src/` holds the player's rules with Verus contracts; `app/` is the
Tauri application around it (commands, SQLite, files, registry, windows).

- `probe` — frame size from the first bytes of MP4/QuickTime, Matroska/WebM and AVI files.
- `media` — file names, stems and extensions of paths; video and subtitle kinds;
  the video named on a command line; candidate videos for a subtitle.
- `hash` — what is sampled of a file for its content fingerprint, and the fingerprint text.
- `tags` — tag type and tag value rules, grouping of a video's tags, batch updates.
- `search` — LIKE escaping, keyword and paged searches, pagination.
- `settings` — which stored settings are valid.
- `store` — schema upgrades, preset tags, fingerprint migration steps.
- `pending_open`, `startup_config`, `window`, `assoc` — the file waiting to be opened,
  startup configuration, window size and placement, Windows file association entries.
- `text` — string helpers and their specifications.
