//! Server-authoritative replication primitives: ticks, client bookkeeping,
//! message framing, registries and the server's replication decisions.

pub mod change_message_arrays;
pub mod change_message_flags;
pub mod change_tick;
pub mod client_ticks;
pub mod command_markers;
pub mod common_conditions;
pub mod connected_client;
pub mod entity;
pub mod entity_serde;
pub mod event_channel;
pub mod event_ctx;
pub mod event_registry;
pub mod flags;
pub mod init_message_arrays;
pub mod message_bytes;
pub mod mutate_index;
pub mod mutation_acks;
pub mod network_channels;
pub mod replicated_clients;
pub mod replication_core;
pub mod replication_decisions;
pub mod replication_fns;
pub mod replication_rules;
pub mod replication_setup;
pub mod protocol;
pub mod remote_trigger;
pub mod replicon_server;
pub mod replicon_tick;
pub mod server_event;
pub mod server_event_queue;
pub mod varint;
