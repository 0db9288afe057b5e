# bedrock_bridge

A UDP relay for Minecraft Bedrock Edition: consoles on the local network see a
remote Bedrock server as a LAN game. The library in `src/` is verified with Verus;
`app/` is the command line program around it.

- `src/bytes.rs` – big-endian integer encoding, with round-trip lemmas.
- `src/text.rs` – decimal rendering, splitting at a separator, white space trimming.
- `src/discovery.rs` – RakNet Unconnected Ping/Pong, the MOTD, MTU capping of the
  Open Connection handshake, and the laws about their layouts.
- `src/profile.rs` – server profiles and the list operations (lookup, replace,
  remove, edit, import merge) with their read-after-write and merge laws.
- `src/session_table.rs` – the relay's `DashMap` tables behind specified wrappers.
- `src/proxy.rs` – the relay's decisions as a state machine over those tables.
- `src/reconnect.rs` – the auto-reconnect policy and its backoff schedule.
- `app/` – argument parsing, the JSON profile file, and the tokio socket loop.
