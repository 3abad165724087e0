use std::time::Duration;

use bevy_replicon::common_conditions::{
    client_connected, client_connecting, client_just_connected, client_just_disconnected,
    client_started_connecting, has_authority, server_just_stopped, server_or_singleplayer,
    server_running, RepliconClientStatus,
};
use bevy_replicon::network_channels::{NetworkChannels, ReplicationChannel, SendType, DEFAULT_MAX_BYTES};
use bevy_replicon::replicon_server::RepliconServer;
use bevy_replicon::replication_core::{NetworkChannels as CoreNetworkChannels, REPLICATION_CHANNEL_ID};

#[test]
fn default_channels_are_replication_channels() {
    let channels = NetworkChannels::default();
    let configs = channels.get_server_configs();
    assert_eq!(configs.len(), 2);
    assert_eq!(configs[0].channel_id, 0);
    assert_eq!(configs[1].channel_id, 1);
    assert_eq!(configs[0].max_memory_usage_bytes, 5 * 1024 * 1024);
    assert_eq!(DEFAULT_MAX_BYTES, 5 * 1024 * 1024);
    match configs[0].send_type {
        SendType::ReliableOrdered { resend_time } => assert_eq!(resend_time, Duration::ZERO),
        other => panic!("unexpected send type {other:?}"),
    }
    assert!(matches!(configs[1].send_type, SendType::Unreliable));
    assert_eq!(channels.get_client_configs().len(), 2);
    assert_eq!(u8::from(ReplicationChannel::Reliable), 0);
    assert_eq!(u8::from(ReplicationChannel::Unreliable), 1);
}

#[test]
fn created_channels_get_next_ids_and_limits() {
    let mut channels = NetworkChannels::new();
    let id = channels.create_server_channel(SendType::Unreliable);
    assert_eq!(id, 2);
    let client_id = channels.create_client_channel(SendType::ReliableUnordered {
        resend_time: Duration::from_millis(300),
    });
    assert_eq!(client_id, 2);

    channels.set_default_max_bytes(100);
    channels.set_server_max_bytes(id, 42);
    channels.set_client_max_bytes(0, 7);

    let server = channels.get_server_configs();
    assert_eq!(server.len(), 3);
    assert_eq!(server[2].channel_id, 2);
    assert_eq!(server[2].max_memory_usage_bytes, 42);
    assert_eq!(server[0].max_memory_usage_bytes, 100);

    let client = channels.get_client_configs();
    assert_eq!(client[0].max_memory_usage_bytes, 7);
    assert_eq!(client[2].max_memory_usage_bytes, 100);
}

#[test]
fn server_conditions() {
    let mut server = RepliconServer::new();
    assert!(!server_running(None));
    assert!(!server_running(Some(&server)));
    server.set_running(true);
    assert!(server_running(Some(&server)));

    let mut last_running = false;
    assert!(!server_just_stopped(&mut last_running, Some(&server)));
    assert!(last_running);
    server.set_running(false);
    assert!(server_just_stopped(&mut last_running, Some(&server)));
    assert!(!server_just_stopped(&mut last_running, Some(&server)));
}

#[test]
fn client_conditions() {
    assert!(server_or_singleplayer(None));
    assert!(has_authority(Some(RepliconClientStatus::Disconnected)));
    assert!(!server_or_singleplayer(Some(RepliconClientStatus::Connected)));
    assert!(client_connecting(Some(RepliconClientStatus::Connecting)));
    assert!(!client_connected(Some(RepliconClientStatus::Connecting)));
    assert!(client_connected(Some(RepliconClientStatus::Connected)));
    assert!(!client_connected(None));

    let mut last = false;
    assert!(client_started_connecting(&mut last, Some(RepliconClientStatus::Connecting)));
    assert!(!client_started_connecting(&mut last, Some(RepliconClientStatus::Connecting)));

    let mut last = false;
    assert!(client_just_connected(&mut last, Some(RepliconClientStatus::Connected)));
    assert!(!client_just_connected(&mut last, Some(RepliconClientStatus::Connected)));

    let mut last = true;
    assert!(client_just_disconnected(&mut last, Some(RepliconClientStatus::Disconnected)));
    assert!(!client_just_disconnected(&mut last, Some(RepliconClientStatus::Disconnected)));
    assert!(!client_just_disconnected(&mut last, None));
    assert!(last);
}

#[test]
fn event_channels_follow_the_replication_channel() {
    let mut channels = CoreNetworkChannels::new();
    assert_eq!(channels.create_server_channel(SendType::Unreliable), 1);
    assert_eq!(
        channels.create_server_channel(SendType::ReliableOrdered { resend_time: Duration::from_millis(5) }),
        2
    );
    let configs = channels.server_channels();
    assert_eq!(configs.len(), 3);
    assert_eq!(configs[0].channel_id, REPLICATION_CHANNEL_ID);
    assert!(matches!(configs[0].send_type, SendType::Unreliable));
    assert_eq!(configs[2].channel_id, 2);
    assert_eq!(configs[2].max_memory_usage_bytes, 5 * 1024 * 1024);
    assert_eq!(channels.client_channels().len(), 1);
    assert_eq!(channels.create_client_channel(SendType::Unreliable), 1);
}
