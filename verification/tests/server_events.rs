use bytes::Bytes;

use bevy_replicon::entity::Entity;
use bevy_replicon::event_channel::{
    deserialize_tick, resend_client_events_locally, resend_locally, resends_locally, ClientEvent,
    ServerEvent,
};
use bevy_replicon::event_registry::EventRegistry;
use bevy_replicon::replicon_server::RepliconServer;
use bevy_replicon::replicon_tick::RepliconTick;
use bevy_replicon::server_event::{
    server_entity, BufferedServerEvents, SendMode, SerializedMessage, ToClients, TICK_MAX_SIZE,
};
use bevy_replicon::server_event_queue::ServerEventQueue;

fn running_server() -> RepliconServer {
    let mut server = RepliconServer::new();
    server.set_running(true);
    server
}

fn sent(server: &mut RepliconServer) -> Vec<(u64, usize, Vec<u8>)> {
    server
        .drain_sent()
        .into_iter()
        .map(|(entity, channel, bytes)| (entity.to_bits(), channel, bytes.to_vec()))
        .collect()
}

fn bits(index: u32) -> u64 {
    Entity::from_raw(index).to_bits()
}

#[test]
fn raw_message_has_padding() {
    match SerializedMessage::new_raw(&[1, 2, 3]) {
        SerializedMessage::Raw(raw) => {
            assert_eq!(raw.len(), TICK_MAX_SIZE + 3);
            assert_eq!(&raw[TICK_MAX_SIZE..], &[1, 2, 3]);
        }
        SerializedMessage::Resolved { .. } => panic!("a new message should be raw"),
    }
}

#[test]
fn message_bytes_start_with_tick() {
    let mut message = SerializedMessage::new_raw(&[9, 8]);
    let first = message.get_bytes(RepliconTick::new(300)).unwrap();
    assert_eq!(first.to_vec(), vec![0xAC, 0x02, 9, 8]);

    let again = message.get_bytes(RepliconTick::new(300)).unwrap();
    assert_eq!(again.to_vec(), vec![0xAC, 0x02, 9, 8]);

    let other = message.get_bytes(RepliconTick::new(1)).unwrap();
    assert_eq!(other.to_vec(), vec![1, 9, 8]);

    let large = message.get_bytes(RepliconTick::new(u32::MAX)).unwrap();
    assert_eq!(large.to_vec(), vec![0xFF, 0xFF, 0xFF, 0xFF, 0x0F, 9, 8]);
}

#[test]
fn tick_reads_back() {
    let mut message = SerializedMessage::new_raw(&[5]);
    let mut bytes = message.get_bytes(RepliconTick::new(1000)).unwrap();
    let tick = deserialize_tick(&mut bytes).unwrap();
    assert_eq!(tick, RepliconTick::new(1000));
    assert_eq!(bytes.to_vec(), vec![5]);

    let mut broken = Bytes::from(vec![0x80]);
    assert!(deserialize_tick(&mut broken).is_err());
    assert_eq!(broken.to_vec(), vec![0x80]);
}

#[test]
fn buffered_broadcast_reaches_replicated_clients() {
    let mut server = running_server();
    let mut buffered = BufferedServerEvents::new();
    buffered.start_tick();
    buffered.insert(SendMode::Broadcast, 3, SerializedMessage::new_raw(&[7]));

    let clients = [
        (Entity::from_raw(1), Some(RepliconTick::new(5))),
        (Entity::from_raw(2), None),
        (Entity::from_raw(3), Some(RepliconTick::new(6))),
    ];
    buffered.send_all(&mut server, &clients);

    assert_eq!(
        sent(&mut server),
        vec![(bits(1), 3, vec![5, 7]), (bits(3), 3, vec![6, 7])]
    );

    buffered.send_all(&mut server, &clients);
    assert!(sent(&mut server).is_empty(), "events should be sent once");
}

#[test]
fn buffered_broadcast_except_and_direct() {
    let mut server = running_server();
    let mut buffered = BufferedServerEvents::new();
    buffered.start_tick();
    buffered.insert(
        SendMode::BroadcastExcept(Entity::from_raw(1)),
        0,
        SerializedMessage::new_raw(&[1]),
    );
    buffered.insert(
        SendMode::Direct(Entity::from_raw(2)),
        1,
        SerializedMessage::new_raw(&[2]),
    );
    buffered.insert(SendMode::Direct(server_entity()), 1, SerializedMessage::new_raw(&[3]));
    buffered.insert(
        SendMode::Direct(Entity::from_raw(9)),
        1,
        SerializedMessage::new_raw(&[4]),
    );

    let clients = [
        (Entity::from_raw(1), Some(RepliconTick::new(1))),
        (Entity::from_raw(2), Some(RepliconTick::new(2))),
    ];
    buffered.send_all(&mut server, &clients);

    assert_eq!(
        sent(&mut server),
        vec![(bits(2), 0, vec![2, 1]), (bits(2), 1, vec![2, 2])]
    );
}

#[test]
fn newly_connected_client_skips_older_events() {
    let mut server = running_server();
    let mut buffered = BufferedServerEvents::new();
    buffered.start_tick();
    buffered.insert(SendMode::Broadcast, 0, SerializedMessage::new_raw(&[1]));
    buffered.exclude_client(Entity::from_raw(2));
    buffered.start_tick();
    buffered.insert(SendMode::Broadcast, 0, SerializedMessage::new_raw(&[2]));
    buffered.insert(SendMode::Direct(Entity::from_raw(2)), 0, SerializedMessage::new_raw(&[3]));

    let clients = [
        (Entity::from_raw(1), Some(RepliconTick::new(0))),
        (Entity::from_raw(2), Some(RepliconTick::new(0))),
    ];
    buffered.send_all(&mut server, &clients);

    assert_eq!(
        sent(&mut server),
        vec![
            (bits(1), 0, vec![0, 1]),
            (bits(1), 0, vec![0, 2]),
            (bits(2), 0, vec![0, 2]),
            (bits(2), 0, vec![0, 3]),
        ]
    );
}

#[test]
fn cleared_buffer_sends_nothing() {
    let mut server = running_server();
    let mut buffered = BufferedServerEvents::new();
    buffered.start_tick();
    buffered.insert(SendMode::Broadcast, 0, SerializedMessage::new_raw(&[1]));
    buffered.clear();
    buffered.start_tick();
    buffered.send_all(&mut server, &[(Entity::from_raw(1), Some(RepliconTick::new(0)))]);
    assert!(sent(&mut server).is_empty());
}

#[test]
fn stopped_server_sends_nothing() {
    let mut server = RepliconServer::new();
    let mut buffered = BufferedServerEvents::new();
    buffered.start_tick();
    buffered.insert(SendMode::Broadcast, 0, SerializedMessage::new_raw(&[1]));
    buffered.send_all(&mut server, &[(Entity::from_raw(1), Some(RepliconTick::new(0)))]);
    assert!(sent(&mut server).is_empty());
}

#[test]
fn local_resending_follows_recipients() {
    let server = server_entity();
    let client = Entity::from_raw(4);
    assert!(resends_locally(SendMode::Broadcast));
    assert!(resends_locally(SendMode::BroadcastExcept(client)));
    assert!(!resends_locally(SendMode::BroadcastExcept(server)));
    assert!(resends_locally(SendMode::Direct(server)));
    assert!(!resends_locally(SendMode::Direct(client)));

    let events = vec![
        ToClients { mode: SendMode::Broadcast, event: 1 },
        ToClients { mode: SendMode::Direct(client), event: 2 },
        ToClients { mode: SendMode::Direct(server), event: 3 },
        ToClients { mode: SendMode::BroadcastExcept(server), event: 4 },
        ToClients { mode: SendMode::BroadcastExcept(client), event: 5 },
    ];
    assert_eq!(resend_locally(events), vec![1, 3, 5]);
}

#[test]
fn independent_events_are_sent_at_once() {
    let mut server = running_server();
    let mut buffered = BufferedServerEvents::new();
    let mut event = ServerEvent::new(1, 2);
    event.make_independent();
    assert!(event.is_independent());
    assert_eq!(event.channel_id(), 2);

    let clients = [Entity::from_raw(1), Entity::from_raw(2)];
    let events = [
        (SendMode::Broadcast, vec![10]),
        (SendMode::BroadcastExcept(Entity::from_raw(1)), vec![11]),
        (SendMode::Direct(Entity::from_raw(5)), vec![12]),
        (SendMode::Direct(server_entity()), vec![13]),
    ];
    event.send_or_buffer(&events, &mut server, &clients, &mut buffered);

    assert_eq!(
        sent(&mut server),
        vec![
            (bits(1), 2, vec![10]),
            (bits(2), 2, vec![10]),
            (bits(2), 2, vec![11]),
            (bits(5), 2, vec![12]),
        ]
    );
}

#[test]
fn dependent_events_are_buffered() {
    let mut server = running_server();
    let mut buffered = BufferedServerEvents::new();
    buffered.start_tick();
    let event = ServerEvent::new(1, 4);
    assert!(!event.is_independent());
    event.send_or_buffer(&[(SendMode::Broadcast, vec![6])], &mut server, &[], &mut buffered);
    assert!(sent(&mut server).is_empty());

    buffered.send_all(&mut server, &[(Entity::from_raw(1), Some(RepliconTick::new(3)))]);
    assert_eq!(sent(&mut server), vec![(bits(1), 4, vec![3, 6])]);
}

#[test]
fn queue_is_sorted_by_tick() {
    let mut queue = ServerEventQueue::new();
    assert!(queue.is_empty());
    queue.insert(RepliconTick::new(5), Bytes::from(vec![1]));
    queue.insert(RepliconTick::new(3), Bytes::from(vec![2]));
    queue.insert(RepliconTick::new(5), Bytes::from(vec![3]));
    assert_eq!(queue.len(), 3);

    assert!(queue.pop_if_le(RepliconTick::new(2)).is_none());
    let (tick, message) = queue.pop_if_le(RepliconTick::new(4)).unwrap();
    assert_eq!((tick, message.to_vec()), (RepliconTick::new(3), vec![2]));
    assert!(queue.pop_if_le(RepliconTick::new(4)).is_none());
    let (tick, message) = queue.pop_if_le(RepliconTick::new(5)).unwrap();
    assert_eq!((tick, message.to_vec()), (RepliconTick::new(5), vec![1]));
    let (tick, message) = queue.pop_if_le(RepliconTick::new(5)).unwrap();
    assert_eq!((tick, message.to_vec()), (RepliconTick::new(5), vec![3]));
    assert!(queue.is_empty());

    queue.insert(RepliconTick::new(9), Bytes::from(vec![4]));
    queue.clear();
    assert!(queue.is_empty());
    assert!(queue.pop_if_le(RepliconTick::new(100)).is_none());
}

#[test]
fn received_events_wait_for_their_tick() {
    let event = ServerEvent::new(1, 0);
    let mut queue = ServerEventQueue::new();
    let received = vec![
        Bytes::from(vec![2, 20]),
        Bytes::from(vec![9, 90]),
        Bytes::from(vec![0x80]),
        Bytes::from(vec![5, 50]),
    ];
    let applied = event.receive(&mut queue, received, RepliconTick::new(5));
    let applied: Vec<_> = applied.iter().map(|bytes| bytes.to_vec()).collect();
    assert_eq!(applied, vec![vec![20], vec![50]]);
    assert_eq!(queue.len(), 1);

    let applied = event.receive(&mut queue, Vec::new(), RepliconTick::new(9));
    let applied: Vec<_> = applied.iter().map(|bytes| bytes.to_vec()).collect();
    assert_eq!(applied, vec![vec![90]]);
    assert!(queue.is_empty());
}

#[test]
fn independent_events_are_received_as_is() {
    let mut event = ServerEvent::new(1, 0);
    event.make_independent();
    let mut queue = ServerEventQueue::new();
    let applied = event.receive(&mut queue, vec![Bytes::from(vec![200, 1])], RepliconTick::new(0));
    let applied: Vec<_> = applied.iter().map(|bytes| bytes.to_vec()).collect();
    assert_eq!(applied, vec![vec![200, 1]]);
    assert!(queue.is_empty());
}

#[test]
fn registry_makes_events_independent() {
    let mut registry = EventRegistry::new();
    registry.register_server_event(ServerEvent::new(10, 0));
    registry.register_server_event(ServerEvent::new(11, 1));
    registry.register_client_event(ClientEvent::new(12, 0));
    registry.make_independent(11);

    let events = registry.iter_server_events();
    assert!(!events[0].is_independent());
    assert!(events[1].is_independent());
    assert_eq!(events[1].channel_id(), 1);
    assert_eq!(events[1].events_id(), 11);
    assert_eq!(registry.iter_client_events().len(), 1);
    assert_eq!(registry.iter_client_events()[0].events_id(), 12);
}

#[test]
fn client_events_are_received_per_channel() {
    let mut server = running_server();
    server.setup_client_channels(2);
    server.insert_received(Entity::from_raw(1), 1, Bytes::from_static(&[4]));
    let event = ClientEvent::new(0, 1);
    assert_eq!(event.channel_id(), 1);
    let received: Vec<_> = event
        .receive(&mut server)
        .into_iter()
        .map(|(entity, bytes)| (entity, bytes.to_vec()))
        .collect();
    assert_eq!(received, vec![(Entity::from_raw(1), vec![4])]);
    assert!(event.receive(&mut server).is_empty());
}

#[test]
fn local_client_events_come_from_the_server() {
    let resent = resend_client_events_locally(vec!['a', 'b']);
    assert_eq!(resent.len(), 2);
    assert_eq!(resent[0].event, 'a');
    assert_eq!(resent[1].event, 'b');
    assert_eq!(resent[0].client_entity, server_entity());
}

#[test]
fn queue_orders_across_wrap() {
    let mut queue = ServerEventQueue::new();
    queue.insert(RepliconTick::new(1), Bytes::from(vec![1]));
    queue.insert(RepliconTick::new(u32::MAX), Bytes::from(vec![2]));
    queue.insert(RepliconTick::new(0), Bytes::from(vec![3]));

    let (tick, message) = queue.pop_if_le(RepliconTick::new(u32::MAX)).unwrap();
    assert_eq!((tick, message.to_vec()), (RepliconTick::new(u32::MAX), vec![2]));
    assert!(queue.pop_if_le(RepliconTick::new(u32::MAX)).is_none());
    let (tick, message) = queue.pop_if_le(RepliconTick::new(1)).unwrap();
    assert_eq!((tick, message.to_vec()), (RepliconTick::new(0), vec![3]));
    let (tick, message) = queue.pop_if_le(RepliconTick::new(1)).unwrap();
    assert_eq!((tick, message.to_vec()), (RepliconTick::new(1), vec![1]));
    assert!(queue.is_empty());
}
