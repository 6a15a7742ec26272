# botfather

The BotFather control plane for Robrix: which bots serve a room, how their
runtimes and senders are chosen, and the sessions that dispatches open.

`src/` is the library, each function with its contract and proof:

- `state` — the persisted state (bots, runtime profiles, sender profiles,
  workspaces, room and space bindings, open sessions) and its migration
  (`normalize`), with the settled form of session keys.
- `resolver` — resolves a room into the bots that serve it, with the
  precedence of room bindings over space bindings over defaults, and ranks
  them for dispatch; `resolve_room_bot` picks the preferred or first bot.
  Where no sender profile is named for a bot anywhere, the bot sends as the
  logged-in user: the profile stored under `current-user`, else one built
  from the user snapshot.
- `manager` — the manager around the state: a dispatch resolves the bot,
  sets up its runtime, then opens or reuses the session and builds the
  request; a failed dispatch records nothing.
- `store` — the state file's path, the files read when loading, what
  loading does with each of them, and the name an unparsable file is moved
  aside to.
- `sessions`, `strmap`, `text` — the ordered session map, the ordered
  string-keyed map, and the order of strings.

`app/` holds the rest: the JSON form of the state (serde), reading and
writing the state file, error messages, and the runtime adapters that reach
Crew and OpenClaw over the network.
