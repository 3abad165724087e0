use core::time::Duration;
use vstd::prelude::*;
use vstd::std_specs::convert::FromSpecImpl;

use crate::change_tick::duration_nanos;

verus! {

/// Default memory limit of a channel, in bytes.
pub const DEFAULT_MAX_BYTES: usize = 5242880;

/// Returns the constant `Duration::ZERO`, a duration of zero nanoseconds.
#[verifier::external_body]
fn duration_zero() -> (duration: Duration)
    ensures
        duration_nanos(duration) == 0,
{
    Duration::ZERO
}

/// Delivery guarantee of a channel.
#[derive(Clone, Copy, Debug)]
pub enum SendType {
    /// Messages arrive once, in order; a lost message is resent after `resend_time`.
    ReliableOrdered { resend_time: Duration },
    /// Messages arrive once, in any order; a lost message is resent after `resend_time`.
    ReliableUnordered { resend_time: Duration },
    /// Messages may be lost.
    Unreliable,
}

/// Configuration of one channel of a connection.
#[derive(Clone, Copy, Debug)]
pub struct ChannelConfig {
    /// ID of the channel.
    pub channel_id: u8,
    /// Memory the channel may use, in bytes.
    pub max_memory_usage_bytes: usize,
    /// Delivery guarantee.
    pub send_type: SendType,
}

/// Settings of one channel.
#[derive(Clone, Copy, Debug)]
pub struct ChannelSettings {
    /// Delivery guarantee.
    pub send_type: SendType,
    /// Memory limit of the channel, if set.
    pub max_bytes: Option<usize>,
}

/// ID of a server replication channel.
#[derive(Clone, Copy, Debug, PartialEq, Eq, Structural)]
pub enum ReplicationChannel {
    /// For messages with entity mappings, inserts, removals and despawns.
    Reliable,
    /// For messages with component updates.
    Unreliable,
}

/// The channel ID of a replication channel: its position.
pub open spec fn replication_channel_id(channel: ReplicationChannel) -> u8 {
    match channel {
        ReplicationChannel::Reliable => 0,
        ReplicationChannel::Unreliable => 1,
    }
}

impl From<ReplicationChannel> for u8 {
    fn from(value: ReplicationChannel) -> (id: u8) {
        match value {
            ReplicationChannel::Reliable => 0,
            ReplicationChannel::Unreliable => 1,
        }
    }
}

impl FromSpecImpl<ReplicationChannel> for u8 {
    open spec fn obeys_from_spec() -> bool {
        true
    }

    open spec fn from_spec(v: ReplicationChannel) -> u8 {
        replication_channel_id(v)
    }
}

/// The configurations of `channels`: each channel's ID is its position, and a channel without
/// a memory limit gets `default_max_bytes`.
pub open spec fn channel_configs(channels: Seq<ChannelSettings>, default_max_bytes: usize) -> Seq<
    ChannelConfig,
> {
    Seq::new(
        channels.len(),
        |i: int|
            ChannelConfig {
                channel_id: i as u8,
                max_memory_usage_bytes: match channels[i].max_bytes {
                    Some(max) => max,
                    None => default_max_bytes,
                },
                send_type: channels[i].send_type,
            },
    )
}

/// Settings of the server and client channels, from which connection configurations are made.
pub struct NetworkChannels {
    /// Settings of each server channel, by ID.
    server: Vec<ChannelSettings>,
    /// Settings of each client channel, by ID.
    client: Vec<ChannelSettings>,
    /// Memory limit of channels without one of their own.
    default_max_bytes: usize,
}

impl NetworkChannels {
    /// The server channels.
    pub closed spec fn server_spec(&self) -> Seq<ChannelSettings> {
        self.server@
    }

    /// The client channels.
    pub closed spec fn client_spec(&self) -> Seq<ChannelSettings> {
        self.client@
    }

    /// The memory limit of channels without one of their own.
    pub closed spec fn default_max_bytes_spec(&self) -> usize {
        self.default_max_bytes
    }

    /// Every channel ID fits in a byte.
    pub open spec fn wf(&self) -> bool {
        &&& self.server_spec().len() <= u8::MAX
        &&& self.client_spec().len() <= u8::MAX
    }

    /// Only the replication channels, on both sides: a reliable ordered one and an
    /// unreliable one, without memory limits of their own, and a default limit of 5 MiB.
    pub fn new() -> (channels: Self)
        ensures
            channels.wf(),
            channels.default_max_bytes_spec() == DEFAULT_MAX_BYTES,
            channels.server_spec() == channels.client_spec(),
            channels.server_spec().len() == 2,
            channels.server_spec()[0].send_type matches SendType::ReliableOrdered { resend_time }
                && duration_nanos(resend_time) == 0,
            channels.server_spec()[0].max_bytes is None,
            channels.server_spec()[1].send_type is Unreliable,
            channels.server_spec()[1].max_bytes is None,
    {
        let mut server: Vec<ChannelSettings> = Vec::new();
        server.push(
            ChannelSettings {
                send_type: SendType::ReliableOrdered { resend_time: duration_zero() },
                max_bytes: None,
            },
        );
        server.push(ChannelSettings { send_type: SendType::Unreliable, max_bytes: None });
        let client = server.clone();
        proof {
            assert(client@ =~= server@);
        }
        NetworkChannels { server, client, default_max_bytes: DEFAULT_MAX_BYTES }
    }

    /// The configurations of the server channels.
    pub fn get_server_configs(&self) -> (configs: Vec<ChannelConfig>)
        ensures
            configs@ == channel_configs(self.server_spec(), self.default_max_bytes_spec()),
    {
        self.get_configs(self.server.as_slice())
    }

    /// The configurations of the client channels.
    pub fn get_client_configs(&self) -> (configs: Vec<ChannelConfig>)
        ensures
            configs@ == channel_configs(self.client_spec(), self.default_max_bytes_spec()),
    {
        self.get_configs(self.client.as_slice())
    }

    /// Sets the memory limit of a server channel.
    ///
    /// The channel must exist.
    pub fn set_server_max_bytes(&mut self, id: u8, max_bytes: usize)
        requires
            (id as int) < old(self).server_spec().len(),
        ensures
            final(self).server_spec() == old(self).server_spec().update(
                id as int,
                ChannelSettings { max_bytes: Some(max_bytes), ..old(self).server_spec()[id as int] },
            ),
            final(self).client_spec() == old(self).client_spec(),
            final(self).default_max_bytes_spec() == old(self).default_max_bytes_spec(),
    {
        let index = id as usize;
        let settings = ChannelSettings { send_type: self.server[index].send_type, max_bytes: Some(max_bytes) };
        self.server.set(index, settings);
    }

    /// Sets the memory limit of a client channel.
    ///
    /// The channel must exist.
    pub fn set_client_max_bytes(&mut self, id: u8, max_bytes: usize)
        requires
            (id as int) < old(self).client_spec().len(),
        ensures
            final(self).client_spec() == old(self).client_spec().update(
                id as int,
                ChannelSettings { max_bytes: Some(max_bytes), ..old(self).client_spec()[id as int] },
            ),
            final(self).server_spec() == old(self).server_spec(),
            final(self).default_max_bytes_spec() == old(self).default_max_bytes_spec(),
    {
        let index = id as usize;
        let settings = ChannelSettings { send_type: self.client[index].send_type, max_bytes: Some(max_bytes) };
        self.client.set(index, settings);
    }

    /// Sets the memory limit of channels without one of their own.
    pub fn set_default_max_bytes(&mut self, max_bytes: usize)
        ensures
            final(self).default_max_bytes_spec() == max_bytes,
            final(self).server_spec() == old(self).server_spec(),
            final(self).client_spec() == old(self).client_spec(),
    {
        self.default_max_bytes = max_bytes;
    }

    /// Creates a client channel and returns its ID.
    ///
    /// There can be at most `u8::MAX` client channels.
    pub fn create_client_channel(&mut self, send_type: SendType) -> (id: u8)
        requires
            old(self).wf(),
            old(self).client_spec().len() < u8::MAX,
        ensures
            final(self).wf(),
            id == old(self).client_spec().len(),
            final(self).client_spec() == old(self).client_spec().push(
                ChannelSettings { send_type, max_bytes: None },
            ),
            final(self).server_spec() == old(self).server_spec(),
            final(self).default_max_bytes_spec() == old(self).default_max_bytes_spec(),
    {
        self.client.push(ChannelSettings { send_type, max_bytes: None });
        (self.client.len() - 1) as u8
    }

    /// Creates a server channel and returns its ID.
    ///
    /// There can be at most `u8::MAX` server channels.
    pub fn create_server_channel(&mut self, send_type: SendType) -> (id: u8)
        requires
            old(self).wf(),
            old(self).server_spec().len() < u8::MAX,
        ensures
            final(self).wf(),
            id == old(self).server_spec().len(),
            final(self).server_spec() == old(self).server_spec().push(
                ChannelSettings { send_type, max_bytes: None },
            ),
            final(self).client_spec() == old(self).client_spec(),
            final(self).default_max_bytes_spec() == old(self).default_max_bytes_spec(),
    {
        self.server.push(ChannelSettings { send_type, max_bytes: None });
        (self.server.len() - 1) as u8
    }

    /// The configurations of `channels`.
    fn get_configs(&self, channels: &[ChannelSettings]) -> (configs: Vec<ChannelConfig>)
        ensures
            configs@ == channel_configs(channels@, self.default_max_bytes_spec()),
    {
        let mut configs: Vec<ChannelConfig> = Vec::new();
        let mut index: usize = 0;
        while index < channels.len()
            invariant
                index <= channels@.len(),
                configs@ == channel_configs(channels@.take(index as int), self.default_max_bytes_spec()),
            decreases channels@.len() - index,
        {
            let settings = channels[index];
            let max_memory_usage_bytes = match settings.max_bytes {
                Some(max) => max,
                None => self.default_max_bytes,
            };
            configs.push(
                ChannelConfig {
                    channel_id: index as u8,
                    max_memory_usage_bytes,
                    send_type: settings.send_type,
                },
            );
            index = index + 1;
            proof {
                assert(configs@ =~= channel_configs(
                    channels@.take(index as int),
                    self.default_max_bytes_spec(),
                ));
            }
        }
        proof {
            assert(channels@.take(index as int) =~= channels@);
        }
        configs
    }
}

impl Default for NetworkChannels {
    fn default() -> (channels: Self)
        ensures
            channels.wf(),
            channels.default_max_bytes_spec() == DEFAULT_MAX_BYTES,
            channels.server_spec() == channels.client_spec(),
            channels.server_spec().len() == 2,
    {
        Self::new()
    }
}

} // verus!
