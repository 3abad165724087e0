use std::time::Duration;

use bevy::ecs::component::Tick;
use bytes::Bytes;

use bevy_replicon::client_ticks::{ClientTicks, EntityBuffer};
use bevy_replicon::connected_client::{ClientId, ClientIdMap, ConnectedClient, ConnectedClients};
use bevy_replicon::entity::Entity;
use bevy_replicon::mutate_index::MutateIndex;
use bevy_replicon::mutation_acks::{read_mutate_indices, receive_acks};
use bevy_replicon::replicated_clients::{ClientBuffers, ReplicatedClients, VisibilityPolicy};
use bevy_replicon::replicon_server::RepliconServer;
use bevy_replicon::replicon_tick::RepliconTick;

#[test]
fn acknowledged_message_updates_mutation_ticks() {
    let mut ticks = ClientTicks::new();
    let mut buffer = EntityBuffer::new();
    let followed = Entity::from_raw(1);
    let newer = Entity::from_raw(2);
    ticks.set_mutation_tick(followed, Tick::new(10));
    ticks.set_mutation_tick(newer, Tick::new(50));

    let index = ticks.register_mutate_message(&mut buffer, Tick::new(30), Duration::from_secs(1));
    assert_eq!(index, MutateIndex(0));
    ticks.add_mutated_entity(index, followed);
    ticks.add_mutated_entity(index, newer);

    ticks.ack_mutate_message(&mut buffer, Tick::new(60), index);
    assert_eq!(ticks.mutation_tick(followed), Some(Tick::new(30)));
    assert_eq!(ticks.mutation_tick(newer), Some(Tick::new(50)));
    assert_eq!(buffer.0.len(), 1);

    // A second acknowledgement of the same message changes nothing.
    ticks.set_mutation_tick(followed, Tick::new(5));
    ticks.ack_mutate_message(&mut buffer, Tick::new(60), index);
    assert_eq!(ticks.mutation_tick(followed), Some(Tick::new(5)));
    assert_eq!(buffer.0.len(), 1);
}

#[test]
fn mutate_indices_follow_registration() {
    let mut ticks = ClientTicks::new();
    let mut buffer = EntityBuffer::new();
    let first = ticks.register_mutate_message(&mut buffer, Tick::new(1), Duration::from_secs(1));
    let second = ticks.register_mutate_message(&mut buffer, Tick::new(2), Duration::from_secs(2));
    assert_eq!(first, MutateIndex(0));
    assert_eq!(second, MutateIndex(1));
}

#[test]
fn old_mutations_are_cleaned_up() {
    let mut ticks = ClientTicks::new();
    let mut buffer = EntityBuffer::new();
    let entity = Entity::from_raw(3);
    ticks.set_mutation_tick(entity, Tick::new(1));
    let old = ticks.register_mutate_message(&mut buffer, Tick::new(5), Duration::from_secs(1));
    ticks.add_mutated_entity(old, entity);
    let recent = ticks.register_mutate_message(&mut buffer, Tick::new(6), Duration::from_secs(10));
    ticks.add_mutated_entity(recent, entity);

    ticks.cleanup_older_mutations(&mut buffer, Duration::from_secs(5));
    assert_eq!(buffer.0.len(), 1);

    // The expired message can no longer be acknowledged.
    ticks.ack_mutate_message(&mut buffer, Tick::new(7), old);
    assert_eq!(ticks.mutation_tick(entity), Some(Tick::new(1)));
    ticks.ack_mutate_message(&mut buffer, Tick::new(7), recent);
    assert_eq!(ticks.mutation_tick(entity), Some(Tick::new(6)));
}

#[test]
fn client_ticks_reset_and_removal() {
    let mut ticks = ClientTicks::new();
    let mut buffer = EntityBuffer::new();
    let entity = Entity::from_raw(4);
    ticks.set_update_tick(RepliconTick::new(8));
    ticks.set_mutation_tick(entity, Tick::new(3));
    ticks.register_mutate_message(&mut buffer, Tick::new(1), Duration::from_secs(1));
    ticks.remove_entity(entity);
    assert_eq!(ticks.mutation_tick(entity), None);

    ticks.set_mutation_tick(entity, Tick::new(3));
    let drained = ticks.drain_mutations();
    assert_eq!(drained.len(), 1);
    ticks.reset();
    assert_eq!(ticks.mutation_tick(entity), None);
    assert_eq!(ticks.update_tick(), RepliconTick::new(8));
}

#[test]
fn replicated_clients_add_and_remove() {
    let mut clients = ReplicatedClients::new(VisibilityPolicy::Whitelist, true);
    let mut buffers = ClientBuffers::new();
    assert_eq!(clients.visibility_policy(), VisibilityPolicy::Whitelist);
    assert!(clients.replicate_after_connect());
    assert!(clients.is_empty());

    clients.add(&mut buffers, ClientId::new(1));
    clients.add(&mut buffers, ClientId::new(2));
    assert_eq!(clients.len(), 2);
    assert_eq!(clients.iter_client_ids(), vec![ClientId::new(1), ClientId::new(2)]);

    clients.client_mut(ClientId::new(2)).set_update_tick(RepliconTick::new(4));
    assert_eq!(clients.client(ClientId::new(2)).update_tick(), RepliconTick::new(4));

    clients.remove(&mut buffers, ClientId::new(1));
    assert_eq!(clients.len(), 1);
    assert!(clients.get_client(ClientId::new(1)).is_none());
    assert!(clients.get_client(ClientId::new(2)).is_some());
    assert_eq!(buffers.clients.len(), 1);

    clients.add(&mut buffers, ClientId::new(3));
    assert_eq!(buffers.clients.len(), 0);
    assert_eq!(clients.client(ClientId::new(3)).update_tick(), RepliconTick::new(0));

    clients.clear(&mut buffers);
    assert!(clients.is_empty());
    assert_eq!(buffers.clients.len(), 2);
}

#[test]
fn default_visibility_policy_is_all() {
    assert_eq!(VisibilityPolicy::default(), VisibilityPolicy::All);
}

#[test]
fn client_id_map_tracks_connected_clients() {
    let mut map = ClientIdMap::new();
    let entity = Entity::from_raw(11);
    assert_eq!(map.on_client_add(ClientId::new(7), entity), None);
    assert_eq!(map.get(ClientId::new(7)), Some(entity));
    assert_eq!(map.on_client_add(ClientId::new(7), Entity::from_raw(12)), Some(entity));
    map.on_client_remove(ClientId::new(7));
    assert_eq!(map.get(ClientId::new(7)), None);

    let client = ConnectedClient::new(ClientId::new(9), 1200);
    assert_eq!(client.id(), ClientId::new(9));
    assert_eq!(client.max_size, 1200);
    assert_eq!(ClientId::new(9).get(), 9);
}

#[test]
fn server_messages_per_channel() {
    let mut server = RepliconServer::new();
    server.setup_client_channels(2);
    let client = Entity::from_raw(1);
    let other = Entity::from_raw(2);

    server.insert_received(client, 0, Bytes::from_static(&[1]));
    assert!(server.receive(0).is_empty(), "a stopped server receives nothing");

    server.set_running(true);
    assert!(server.is_running());
    server.insert_received(client, 1, Bytes::from_static(&[1]));
    server.insert_received(other, 1, Bytes::from_static(&[2]));
    server.send(client, 0, Bytes::from_static(&[3]));
    server.send(other, 0, Bytes::from_static(&[4]));

    server.remove_client(client);
    let received: Vec<_> = server.receive(1).into_iter().map(|(e, m)| (e, m.to_vec())).collect();
    assert_eq!(received, vec![(other, vec![2])]);
    assert!(server.receive(1).is_empty());
    let sent: Vec<_> = server.drain_sent().into_iter().map(|(e, c, m)| (e, c, m.to_vec())).collect();
    assert_eq!(sent, vec![(other, 0, vec![4])]);

    server.send(other, 1, Bytes::from_static(&[5]));
    server.set_running(false);
    assert!(server.drain_sent().is_empty());
}

#[test]
fn mutate_indices_are_little_endian_pairs() {
    assert_eq!(
        read_mutate_indices(&[1, 0, 0x34, 0x12, 0xFF, 0xFF]),
        vec![MutateIndex(1), MutateIndex(0x1234), MutateIndex(u16::MAX)]
    );
    assert_eq!(read_mutate_indices(&[7, 0, 9]), vec![MutateIndex(7)]);
}

#[test]
fn acknowledgements_from_clients_are_applied() {
    let mut server = RepliconServer::new();
    server.setup_client_channels(1);
    server.set_running(true);

    let client = Entity::from_raw(1);
    let unknown = Entity::from_raw(2);
    let followed = Entity::from_raw(3);

    let mut ticks = ClientTicks::new();
    let mut buffer = EntityBuffer::new();
    ticks.set_mutation_tick(followed, Tick::new(1));
    let first = ticks.register_mutate_message(&mut buffer, Tick::new(4), Duration::from_secs(1));
    ticks.add_mutated_entity(first, followed);
    let second = ticks.register_mutate_message(&mut buffer, Tick::new(8), Duration::from_secs(2));
    ticks.add_mutated_entity(second, followed);

    server.insert_received(unknown, 0, Bytes::from_static(&[1, 0]));
    server.insert_received(client, 0, Bytes::from_static(&[0, 0]));
    let mut clients = vec![(client, ticks)];
    receive_acks(&mut server, 0, &mut clients, &mut buffer, Tick::new(10));

    assert_eq!(clients[0].1.mutation_tick(followed), Some(Tick::new(4)));
    assert!(server.receive(0).is_empty());

    server.insert_received(client, 0, Bytes::from_static(&[1, 0, 0, 0]));
    receive_acks(&mut server, 0, &mut clients, &mut buffer, Tick::new(10));
    assert_eq!(clients[0].1.mutation_tick(followed), Some(Tick::new(8)));
}

#[test]
fn reused_client_is_fully_reset() {
    let mut clients = ReplicatedClients::new(VisibilityPolicy::All, false);
    let mut buffers = ClientBuffers::new();
    clients.add(&mut buffers, ClientId::new(1));
    clients.client_mut(ClientId::new(1)).set_update_tick(RepliconTick::new(5));
    clients.remove(&mut buffers, ClientId::new(1));
    clients.add(&mut buffers, ClientId::new(2));
    assert_eq!(clients.client(ClientId::new(2)).update_tick(), RepliconTick::default());
}

#[test]
fn odd_acknowledgement_byte_is_not_read() {
    let mut server = RepliconServer::new();
    server.setup_client_channels(1);
    server.set_running(true);

    let client = Entity::from_raw(1);
    let followed = Entity::from_raw(3);
    let mut ticks = ClientTicks::new();
    let mut buffer = EntityBuffer::new();
    ticks.set_mutation_tick(followed, Tick::new(1));
    let first = ticks.register_mutate_message(&mut buffer, Tick::new(4), Duration::from_secs(1));
    ticks.add_mutated_entity(first, followed);

    server.insert_received(client, 0, Bytes::from_static(&[0, 0, 5]));
    let mut clients = vec![(client, ticks)];
    receive_acks(&mut server, 0, &mut clients, &mut buffer, Tick::new(10));
    assert_eq!(clients[0].1.mutation_tick(followed), Some(Tick::new(4)));
    assert!(server.receive(0).is_empty());
}

#[test]
fn connected_clients_keep_connection_order() {
    let mut clients = ConnectedClients::new();
    clients.add(ClientId::new(1), 10);
    clients.add(ClientId::new(2), 20);
    clients.add(ClientId::new(3), 30);
    assert_eq!(clients.position(ClientId::new(2)), Some(1));
    assert_eq!(clients.position(ClientId::new(4)), None);

    clients.remove(ClientId::new(2));
    assert_eq!(clients.len(), 2);
    assert_eq!(*clients.get(1), (ClientId::new(3), 30));
    *clients.data_mut(0) += 1;
    assert_eq!(*clients.get(0), (ClientId::new(1), 11));
}

#[test]
fn acks_older_than_timeout_expire() {
    let mut clients = ReplicatedClients::new(VisibilityPolicy::All, false);
    let mut buffers = ClientBuffers::new();
    let id = ClientId::new(1);
    clients.add(&mut buffers, id);
    let entity = Entity::from_raw(3);
    let client = clients.client_mut(id);
    client.set_mutation_tick(entity, Tick::new(1));
    let old = client.register_mutate_message(&mut buffers, Tick::new(5), Duration::from_secs(1));
    client.add_mutated_entity(old, entity);
    let kept = client.register_mutate_message(&mut buffers, Tick::new(6), Duration::from_secs(4));
    client.add_mutated_entity(kept, entity);

    clients.cleanup_acks(&mut buffers, Duration::from_secs(8), Duration::from_secs(4));
    let client = clients.client_mut(id);
    client.ack_mutate_message(&mut buffers, Tick::new(7), old);
    assert_eq!(client.mutation_tick(entity), Some(Tick::new(1)));
    client.ack_mutate_message(&mut buffers, Tick::new(7), kept);
    assert_eq!(client.mutation_tick(entity), Some(Tick::new(6)));

    // Below the timeout nothing expires.
    clients.cleanup_acks(&mut buffers, Duration::from_secs(1), Duration::from_secs(4));
}
