# bevy_replicon

Server-authoritative networking primitives for the Bevy engine, each with a contract
that states what it does.

## Layout

- `src/` — the verified library:
  - ticks: `replicon_tick` (wrapping replication ticks), `change_tick` (Bevy change ticks);
  - entities and wire formats: `entity`, `entity_serde`, `varint`, `message_bytes`;
  - message flags: `flags`, `change_message_arrays`, `change_message_flags`,
    `init_message_arrays`, `mutate_index`;
  - server bookkeeping: `replicon_server`, `client_ticks`, `replicated_clients`,
    `connected_client`, `mutation_acks`, `common_conditions`;
  - server events: `server_event` (cached messages and buffering until replication catches
    up), `server_event_queue` (client-side queue by tick), `event_channel` (sending,
    receiving and local resending), `event_ctx` (entity mapping), `event_registry`;
  - registration: `command_markers`, `replication_fns`, `replication_rules`,
    `replication_setup`, `network_channels`, and `replication_core` (per-component rules
    and event channels after the replication channel);
  - replication: `replication_decisions` (which components are written as insertions or
    mutations, when an entity's ticks move, despawns, removals and lost visibility per
    client, what messages go out, and how a scene is filled);
  - `remote_trigger` (targets of remote triggers) and `protocol` (protocol hash check).
- `tests/` — tests of the library on concrete values.
- `app/` — what stays outside the proofs: serde wire copies of library types, generic
  event serialization and decoding of received events, and types made of floating-point
  statistics.
