use vstd::prelude::*;

use crate::replicon_server::RepliconServer;

verus! {

/// Connection status of a client.
#[derive(Clone, Copy, Debug, PartialEq, Eq, Structural)]
pub enum RepliconClientStatus {
    /// Not connected or trying to connect.
    Disconnected,
    /// Trying to connect to the server.
    Connecting,
    /// Connected to the server.
    Connected,
}

/// Whether there is a server and it is running.
pub open spec fn running_spec(server: Option<&RepliconServer>) -> bool {
    server matches Some(s) && s.running_spec()
}

/// Whether there is a client with the given status.
pub open spec fn client_is(client: Option<RepliconClientStatus>, status: RepliconClientStatus) -> bool {
    client == Some(status)
}

/// A condition that became true since the last check.
pub open spec fn rising_edge(last: bool, now: bool) -> bool {
    !last && now
}

/// A condition that became false since the last check.
pub open spec fn falling_edge(last: bool, now: bool) -> bool {
    last && !now
}

/// The edge detectors below remember the state they saw, so a change is reported once: a
/// second check of an unchanged state reports no edge.
pub proof fn lemma_edge_reported_once(now: bool)
    ensures
        !rising_edge(now, now),
        !falling_edge(now, now),
{
}

/// Returns `true` if the server is running.
pub fn server_running(server: Option<&RepliconServer>) -> (running: bool)
    ensures
        running == running_spec(server),
{
    match server {
        Some(server) => server.is_running(),
        None => false,
    }
}

/// Returns `true` if there is no client or if the existing client is disconnected.
///
/// Can be used for systems that run both on the server and in singleplayer mode.
pub fn has_authority(client: Option<RepliconClientStatus>) -> (authority: bool)
    ensures
        authority == (client is None || client_is(client, RepliconClientStatus::Disconnected)),
{
    server_or_singleplayer(client)
}

/// Returns `true` if there is no client or if the existing client is disconnected.
///
/// Can be used in place of [`server_running`] to support singleplayer or listen-server
/// mode, where the server is also a player.
pub fn server_or_singleplayer(client: Option<RepliconClientStatus>) -> (authority: bool)
    ensures
        authority == (client is None || client_is(client, RepliconClientStatus::Disconnected)),
{
    match client {
        None => true,
        Some(status) => status == RepliconClientStatus::Disconnected,
    }
}

/// Returns `true` when the client is connecting.
pub fn client_connecting(client: Option<RepliconClientStatus>) -> (connecting: bool)
    ensures
        connecting == client_is(client, RepliconClientStatus::Connecting),
{
    match client {
        Some(status) => status == RepliconClientStatus::Connecting,
        None => false,
    }
}

/// Returns `true` when the client is connected.
pub fn client_connected(client: Option<RepliconClientStatus>) -> (connected: bool)
    ensures
        connected == client_is(client, RepliconClientStatus::Connected),
{
    match client {
        Some(status) => status == RepliconClientStatus::Connected,
        None => false,
    }
}

/// Returns `true` if the server stopped on this tick.
///
/// `last_running` remembers, between calls, whether the server was running.
pub fn server_just_stopped(last_running: &mut bool, server: Option<&RepliconServer>) -> (stopped: bool)
    ensures
        stopped == falling_edge(*old(last_running), running_spec(server)),
        *final(last_running) == running_spec(server),
{
    let running = server_running(server);
    let just_stopped = *last_running && !running;
    *last_running = running;
    just_stopped
}

/// Returns `true` when the client started connecting on this tick.
///
/// `last_connecting` remembers, between calls, whether the client was connecting.
pub fn client_started_connecting(last_connecting: &mut bool, client: Option<RepliconClientStatus>) -> (started: bool)
    ensures
        started == rising_edge(*old(last_connecting), client_is(client, RepliconClientStatus::Connecting)),
        *final(last_connecting) == client_is(client, RepliconClientStatus::Connecting),
{
    let connecting = client_connecting(client);
    let started_connecting = !*last_connecting && connecting;
    *last_connecting = connecting;
    started_connecting
}

/// Returns `true` when the client connected on this tick.
///
/// `last_connected` remembers, between calls, whether the client was connected.
pub fn client_just_connected(last_connected: &mut bool, client: Option<RepliconClientStatus>) -> (connected: bool)
    ensures
        connected == rising_edge(*old(last_connected), client_is(client, RepliconClientStatus::Connected)),
        *final(last_connected) == client_is(client, RepliconClientStatus::Connected),
{
    let connected = client_connected(client);
    let just_connected = !*last_connected && connected;
    *last_connected = connected;
    just_connected
}

/// Returns `true` when the client disconnected on this tick.
///
/// `last_not_disconnected` remembers, between calls, whether the client was not known to be
/// disconnected.
pub fn client_just_disconnected(
    last_not_disconnected: &mut bool,
    client: Option<RepliconClientStatus>,
) -> (disconnected: bool)
    ensures
        disconnected == falling_edge(
            *old(last_not_disconnected),
            !client_is(client, RepliconClientStatus::Disconnected),
        ),
        *final(last_not_disconnected) == !client_is(client, RepliconClientStatus::Disconnected),
{
    let disconnected = match client {
        Some(status) => status == RepliconClientStatus::Disconnected,
        None => false,
    };
    let just_disconnected = *last_not_disconnected && disconnected;
    *last_not_disconnected = !disconnected;
    just_disconnected
}

} // verus!
