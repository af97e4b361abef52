# pawbae_core

The core logic of PawBae, a desktop pet that watches coding agents (the cc
client, Codex, Cursor and OpenClaw agents) and reacts to what they do.
Every function in `src/` carries a contract that Verus proves.

## Layout

- `src/` — the verified library.
  - `json.rs`, `text.rs`, `num.rs`: JSON values and their mathematical
    view, text search and splitting, decimal numbers.
  - `events.rs`, `hook_session.rs`: hook events, the status they give a
    session, and the session table they update.
  - `hook_config.rs`: registering (and removing) the pet's hooks in the
    settings files of each client; re-registering changes nothing.
  - `messages.rs`, `sessions.rs`: cleaning user messages, conversations,
    session lists and previews.
  - `metrics.rs`, `gateway_metrics.rs`, `claude_stats.rs`, `daily.rs`:
    token and tool statistics from transcripts and from the gateway.
  - `gateway.rs`, `health.rs`, `control.rs`: agent activity, health
    reports, agent lists, chat turns and interrupts.
  - `asset.rs`, `codex_pet.rs`, `file_data.rs`, `clock.rs`: served assets,
    custom pets, base64 file data, calendar text.
- `tests/` — tests of the library on concrete values.
- `app/` — the command host around the library: files, processes, SSH,
  HTTP, the clock, and the JSON the front end receives.
