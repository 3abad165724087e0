use bytes::Bytes;
use vstd::prelude::*;

use crate::entity::Entity;

verus! {

/// The messages of `messages` that do not come from or go to `client`.
pub open spec fn without_client(messages: Seq<(Entity, Bytes)>, client: Entity) -> Seq<(Entity, Bytes)> {
    messages.filter(not_from(client))
}

/// Whether a received message does not come from `client`.
pub open spec fn not_from(client: Entity) -> spec_fn((Entity, Bytes)) -> bool {
    |m: (Entity, Bytes)| m.0 != client
}

/// Whether a sent message does not go to `client`.
pub open spec fn not_to(client: Entity) -> spec_fn((Entity, usize, Bytes)) -> bool {
    |m: (Entity, usize, Bytes)| m.0 != client
}

/// The sent messages of `messages` that do not go to `client`.
pub open spec fn sent_without_client(
    messages: Seq<(Entity, usize, Bytes)>,
    client: Entity,
) -> Seq<(Entity, usize, Bytes)> {
    messages.filter(not_to(client))
}

/// Stores information about the server independent from the messaging backend.
///
/// The messaging backend is responsible for updating it: [`Self::set_running`] when the server
/// starts or stops, [`Self::insert_received`] for received messages and [`Self::drain_sent`]
/// to collect messages to send.
pub struct RepliconServer {
    /// Indicates if the server is open for connections.
    running: bool,
    /// Received messages for each channel, indexed by channel ID.
    received_messages: Vec<Vec<(Entity, Bytes)>>,
    /// Messages sent since the last tick, with their client and channel.
    sent_messages: Vec<(Entity, usize, Bytes)>,
}

impl RepliconServer {
    /// Whether the server is running.
    pub closed spec fn running_spec(&self) -> bool {
        self.running
    }

    /// Received messages per client channel.
    pub closed spec fn received_spec(&self) -> Seq<Seq<(Entity, Bytes)>> {
        self.received_messages@.map_values(|channel: Vec<(Entity, Bytes)>| channel@)
    }

    /// Messages waiting to be sent.
    pub closed spec fn sent_spec(&self) -> Seq<(Entity, usize, Bytes)> {
        self.sent_messages@
    }

    /// A stopped server with no channels and no messages.
    pub fn new() -> (server: Self)
        ensures
            !server.running_spec(),
            server.received_spec().len() == 0,
            server.sent_spec().len() == 0,
    {
        let server = RepliconServer {
            running: false,
            received_messages: Vec::new(),
            sent_messages: Vec::new(),
        };
        proof {
            assert(server.received_spec() =~= Seq::<Seq<(Entity, Bytes)>>::empty());
        }
        server
    }

    /// Changes the number of receive channels to `channels_count`.
    ///
    /// Existing channels keep their messages; new channels start empty.
    pub fn setup_client_channels(&mut self, channels_count: usize)
        ensures
            final(self).received_spec().len() == channels_count,
            forall|i: int|
                0 <= i < channels_count ==> #[trigger] final(self).received_spec()[i] == (if i < old(
                    self,
                ).received_spec().len() {
                    old(self).received_spec()[i]
                } else {
                    Seq::<(Entity, Bytes)>::empty()
                }),
            final(self).running_spec() == old(self).running_spec(),
            final(self).sent_spec() == old(self).sent_spec(),
    {
        if self.received_messages.len() > channels_count {
            self.received_messages.truncate(channels_count);
        }
        while self.received_messages.len() < channels_count
            invariant
                self.received_messages@.len() <= channels_count,
                self.received_messages@.len() >= old(self).received_messages@.len() || self.received_messages@.len() == channels_count,
                forall|i: int|
                    0 <= i < self.received_messages@.len() ==> #[trigger] self.received_messages@[i]@ == (
                    if i < old(self).received_messages@.len() {
                        old(self).received_messages@[i]@
                    } else {
                        Seq::<(Entity, Bytes)>::empty()
                    }),
                self.running == old(self).running,
                self.sent_messages@ == old(self).sent_messages@,
            decreases channels_count - self.received_messages@.len(),
        {
            self.received_messages.push(Vec::new());
        }
    }

    /// Removes the messages of a disconnected client.
    pub fn remove_client(&mut self, client_entity: Entity)
        ensures
            final(self).received_spec().len() == old(self).received_spec().len(),
            forall|i: int|
                0 <= i < old(self).received_spec().len() ==> #[trigger] final(self).received_spec()[i]
                    == without_client(old(self).received_spec()[i], client_entity),
            final(self).sent_spec() == sent_without_client(old(self).sent_spec(), client_entity),
            final(self).running_spec() == old(self).running_spec(),
    {
        let count = self.received_messages.len();
        let mut channel: usize = 0;
        while channel < count
            invariant
                channel <= count,
                count == self.received_messages@.len(),
                count == old(self).received_messages@.len(),
                forall|i: int|
                    0 <= i < count ==> #[trigger] self.received_messages@[i]@ == (if i < channel {
                        without_client(old(self).received_messages@[i]@, client_entity)
                    } else {
                        old(self).received_messages@[i]@
                    }),
                self.running == old(self).running,
                self.sent_messages@ == old(self).sent_messages@,
            decreases count - channel,
        {
            let mut messages: Vec<(Entity, Bytes)> = Vec::new();
            core::mem::swap(&mut messages, &mut self.received_messages[channel]);
            let kept = retain_other_clients(messages, client_entity);
            self.received_messages.set(channel, kept);
            channel = channel + 1;
        }
        let mut sent: Vec<(Entity, usize, Bytes)> = Vec::new();
        core::mem::swap(&mut sent, &mut self.sent_messages);
        self.sent_messages = retain_sent_to_other_clients(sent, client_entity);
    }

    /// Receives all available messages from clients over a channel.
    ///
    /// All messages of the channel are drained, whether or not the server is running.
    pub fn receive(&mut self, channel_id: usize) -> (messages: Vec<(Entity, Bytes)>)
        requires
            channel_id < old(self).received_spec().len(),
        ensures
            messages@ == old(self).received_spec()[channel_id as int],
            final(self).received_spec() == old(self).received_spec().update(
                channel_id as int,
                Seq::<(Entity, Bytes)>::empty(),
            ),
            final(self).running_spec() == old(self).running_spec(),
            final(self).sent_spec() == old(self).sent_spec(),
    {
        let mut messages: Vec<(Entity, Bytes)> = Vec::new();
        core::mem::swap(&mut messages, &mut self.received_messages[channel_id]);
        proof {
            assert(self.received_spec() =~= old(self).received_spec().update(
                channel_id as int,
                Seq::<(Entity, Bytes)>::empty(),
            ));
        }
        messages
    }

    /// Sends a message to a client over a channel.
    ///
    /// Does nothing when the server is not running.
    pub fn send(&mut self, client_entity: Entity, channel_id: usize, message: Bytes)
        ensures
            final(self).sent_spec() == (if old(self).running_spec() {
                old(self).sent_spec().push((client_entity, channel_id, message))
            } else {
                old(self).sent_spec()
            }),
            final(self).received_spec() == old(self).received_spec(),
            final(self).running_spec() == old(self).running_spec(),
    {
        if !self.running {
            return;
        }
        self.sent_messages.push((client_entity, channel_id, message));
    }

    /// Marks the server as running or stopped.
    ///
    /// Stopping the server discards all received and unsent messages.
    pub fn set_running(&mut self, running: bool)
        ensures
            final(self).running_spec() == running,
            running ==> final(self).received_spec() == old(self).received_spec(),
            running ==> final(self).sent_spec() == old(self).sent_spec(),
            !running ==> final(self).received_spec().len() == old(self).received_spec().len(),
            !running ==> forall|i: int|
                0 <= i < old(self).received_spec().len() ==> (#[trigger] final(self).received_spec()[i]).len() == 0,
            !running ==> final(self).sent_spec().len() == 0,
    {
        if !running {
            let count = self.received_messages.len();
            let mut channel: usize = 0;
            while channel < count
                invariant
                    channel <= count,
                    count == self.received_messages@.len(),
                    count == old(self).received_messages@.len(),
                    forall|i: int| 0 <= i < channel ==> (#[trigger] self.received_messages@[i])@.len() == 0,
                    self.sent_messages@ == old(self).sent_messages@,
                decreases count - channel,
            {
                self.received_messages.set(channel, Vec::new());
                channel = channel + 1;
            }
            self.sent_messages.clear();
        }
        self.running = running;
    }

    /// Returns `true` if the server is running.
    pub fn is_running(&self) -> (running: bool)
        ensures
            running == self.running_spec(),
    {
        self.running
    }

    /// Removes all sent messages, returning them with their client entity and channel.
    pub fn drain_sent(&mut self) -> (messages: Vec<(Entity, usize, Bytes)>)
        ensures
            messages@ == old(self).sent_spec(),
            final(self).sent_spec().len() == 0,
            final(self).received_spec() == old(self).received_spec(),
            final(self).running_spec() == old(self).running_spec(),
    {
        let mut messages: Vec<(Entity, usize, Bytes)> = Vec::new();
        core::mem::swap(&mut messages, &mut self.sent_messages);
        messages
    }

    /// Adds a message from a client to the list of received messages.
    ///
    /// Does nothing when the server is not running. A running server must have the channel.
    pub fn insert_received(&mut self, client_entity: Entity, channel_id: usize, message: Bytes)
        requires
            old(self).running_spec() ==> channel_id < old(self).received_spec().len(),
        ensures
            final(self).received_spec() == (if old(self).running_spec() {
                old(self).received_spec().update(
                    channel_id as int,
                    old(self).received_spec()[channel_id as int].push((client_entity, message)),
                )
            } else {
                old(self).received_spec()
            }),
            final(self).sent_spec() == old(self).sent_spec(),
            final(self).running_spec() == old(self).running_spec(),
    {
        if !self.running {
            return;
        }
        let mut messages: Vec<(Entity, Bytes)> = Vec::new();
        core::mem::swap(&mut messages, &mut self.received_messages[channel_id]);
        messages.push((client_entity, message));
        self.received_messages.set(channel_id, messages);
        proof {
            assert(self.received_spec() =~= old(self).received_spec().update(
                channel_id as int,
                old(self).received_spec()[channel_id as int].push((client_entity, message)),
            ));
        }
    }
}

/// Keeps the messages that do not come from `client`, in order.
fn retain_other_clients(messages: Vec<(Entity, Bytes)>, client: Entity) -> (kept: Vec<(Entity, Bytes)>)
    ensures
        kept@ == without_client(messages@, client),
{
    let mut kept: Vec<(Entity, Bytes)> = Vec::new();
    let mut rest = messages;
    let ghost all = rest@;
    let len = rest.len();
    let mut i: usize = 0;
    proof {
        assert(all.skip(0) =~= all);
        assert(all.take(0) =~= Seq::empty());
        reveal(Seq::filter);
    }
    while i < len
        invariant
            i <= len,
            len == all.len(),
            rest@ == all.skip(i as int),
            kept@ == without_client(all.take(i as int), client),
        decreases len - i,
    {
        let message = rest.remove(0);
        proof {
            assert(rest@ =~= all.skip(i + 1));
            assert(all.take(i + 1) =~= all.take(i as int).push(message));
            all.take(i as int).lemma_filter_push(message, not_from(client));
        }
        if message.0 != client {
            kept.push(message);
        }
        i = i + 1;
    }
    proof {
        assert(all.take(len as int) =~= all);
    }
    kept
}

/// Keeps the sent messages that do not go to `client`, in order.
fn retain_sent_to_other_clients(
    messages: Vec<(Entity, usize, Bytes)>,
    client: Entity,
) -> (kept: Vec<(Entity, usize, Bytes)>)
    ensures
        kept@ == sent_without_client(messages@, client),
{
    let mut kept: Vec<(Entity, usize, Bytes)> = Vec::new();
    let mut rest = messages;
    let ghost all = rest@;
    let len = rest.len();
    let mut i: usize = 0;
    proof {
        assert(all.skip(0) =~= all);
        assert(all.take(0) =~= Seq::empty());
        reveal(Seq::filter);
    }
    while i < len
        invariant
            i <= len,
            len == all.len(),
            rest@ == all.skip(i as int),
            kept@ == sent_without_client(all.take(i as int), client),
        decreases len - i,
    {
        let message = rest.remove(0);
        proof {
            assert(rest@ =~= all.skip(i + 1));
            assert(all.take(i + 1) =~= all.take(i as int).push(message));
            all.take(i as int).lemma_filter_push(message, not_to(client));
        }
        if message.0 != client {
            kept.push(message);
        }
        i = i + 1;
    }
    proof {
        assert(all.take(len as int) =~= all);
    }
    kept
}

} // verus!
