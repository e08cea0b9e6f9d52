# sam_stats

The verified core of a Steam achievement and statistics manager.

`src/` is verified with Verus:

- `backend/app_manager.rs` — the Adler-32 checksum and its concatenation
  law; the state of one app's manager (schema
  definitions, pending achievement writes, whether current stats were
  received) and its decisions: which achievement rows and stats to show,
  which writes a store must confirm (the last write of each achievement),
  what a store, reset, unlock-all or stat write answers.
- `backend/stats_access.rs` — the launch mode and app-server arguments, the
  outcomes of app-scoped calls, and the load state machine of stealth access
  (refusal limit, the frame budget of a stats request, stale loads, cached
  language).
- `backend/schema.rs` — the stats schema as a tree and the walk that turns
  it into stat and achievement definitions, with language spelling and
  fallback, localized names, stat kinds and icon addresses.
- `backend/user_unlock_times.rs` — other users' unlock listings, SteamID64
  text (trimmed and read as Rust reads a `u64`), account ids, ownership.
- `steam_client/client_user_stats_map_wrapper.rs` — which pumped callback
  messages count, and the outcome of a client call.
- `backend/text.rs`, `backend/types.rs` — text helpers with their specs, and
  the error and enum types.

`app/` holds the calls the library decides on: the `IClientUserStats` vtable
and its FFI wrapper (unsafe), the pipe pumping and the frame sleeps, the two
stats access modes and the app manager making the Steam calls, reading the
schema file, float stats (min, max, NaN), the environment and process
launching.
