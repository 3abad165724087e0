use bytes::Bytes;
use postcard::Error;
use vstd::prelude::*;

use crate::entity::Entity;
use crate::message_bytes::{bytes_as_slice, bytes_clone, bytes_content, bytes_from_vec, bytes_slice_from};
use crate::replicon_server::RepliconServer;
use crate::replicon_tick::RepliconTick;
use crate::server_event::{
    is_server, sent_contents, server_entity, BufferedServerEvents, SendMode, SerializedMessage,
    ToClients,
};
use crate::server_event_queue::{
    due_count, lemma_insert_keeps_sorted, queue_sorted, sorted_position, tick_le, ServerEventQueue,
};
use crate::varint::{postcard_take_u32, take_varint_u32};

verus! {

broadcast use vstd::seq_lib::group_seq_properties;

/// The contents of a list of byte buffers.
pub open spec fn contents(messages: Seq<Bytes>) -> Seq<Seq<u8>> {
    messages.map_values(|m: Bytes| bytes_content(m))
}

/// Reads a tick from the front of `message`, advancing it past the bytes read.
pub fn deserialize_tick(message: &mut Bytes) -> (result: Result<RepliconTick, Error>)
    ensures
        match take_varint_u32(bytes_content(*old(message))) {
            Some((value, end)) => {
                &&& result is Ok
                &&& result->Ok_0@ == value
                &&& bytes_content(*final(message)) == bytes_content(*old(message)).skip(end as int)
            },
            None => result is Err && bytes_content(*final(message)) == bytes_content(*old(message)),
        },
{
    let input = bytes_as_slice(message);
    let (value, rest) = match postcard_take_u32(input) {
        Ok(taken) => taken,
        Err(e) => {
            return Err(e);
        },
    };
    proof {
        crate::varint::lemma_take_varint_end(bytes_content(*old(message)), 0, 5, 15);
    }
    let used = input.len() - rest.len();
    *message = bytes_slice_from(message, used);
    Ok(RepliconTick::new(value))
}

/// Whether the server itself is among the recipients of an event sent with `mode`, so that
/// the event is also delivered locally.
pub open spec fn resends_locally_spec(mode: SendMode) -> bool {
    match mode {
        SendMode::Broadcast => true,
        SendMode::BroadcastExcept(entity) => !is_server(entity),
        SendMode::Direct(entity) => is_server(entity),
    }
}

/// Whether the server itself is among the recipients of an event sent with `mode`.
pub fn resends_locally(mode: SendMode) -> (local: bool)
    ensures
        local == resends_locally_spec(mode),
{
    let server_id = server_entity();
    match mode {
        SendMode::Broadcast => true,
        SendMode::BroadcastExcept(entity) => {
            proof {
                Entity::lemma_eq_by_parts(entity, server_id);
            }
            entity != server_id
        },
        SendMode::Direct(entity) => {
            proof {
                Entity::lemma_eq_by_parts(entity, server_id);
            }
            entity == server_id
        },
    }
}

/// The events of `events`, in order, that the server delivers to itself.
pub open spec fn local_events<T>(events: Seq<ToClients<T>>) -> Seq<T>
    decreases events.len(),
{
    if events.len() == 0 {
        Seq::empty()
    } else {
        let earlier = local_events(events.drop_last());
        if resends_locally_spec(events.last().mode) {
            earlier.push(events.last().event)
        } else {
            earlier
        }
    }
}

/// Drains events meant for clients and returns, in order, those the server is a recipient of.
pub fn resend_locally<T>(server_events: Vec<ToClients<T>>) -> (events: Vec<T>)
    ensures
        events@ == local_events(server_events@),
{
    let ghost all = server_events@;
    let total = server_events.len();
    let mut events: Vec<T> = Vec::new();
    let mut i: usize = 0;
    let mut rest = server_events;
    proof {
        assert(all.take(0) =~= Seq::<ToClients<T>>::empty());
        assert(rest@ =~= all.skip(0));
    }
    while rest.len() > 0
        invariant
            i <= all.len(),
            rest@ == all.skip(i as int),
            i + rest@.len() == all.len(),
            all.len() == total,
            events@ == local_events(all.take(i as int)),
        decreases rest@.len(),
    {
        let ToClients { mode, event } = rest.remove(0);
        proof {
            assert(all.take(i + 1).drop_last() =~= all.take(i as int));
            assert(all.take(i + 1).last() == all[i as int]);
            assert(rest@ =~= all.skip(i + 1));
        }
        if resends_locally(mode) {
            events.push(event);
        }
        i = i + 1;
    }
    proof {
        assert(all.take(i as int) =~= all);
    }
    events
}

/// The clients among `clients`, in order, that receive an independent event sent with `mode`.
pub open spec fn independent_recipients(mode: SendMode, clients: Seq<Entity>) -> Seq<Entity>
    decreases clients.len(),
{
    match mode {
        SendMode::Broadcast => clients,
        SendMode::BroadcastExcept(entity) => if clients.len() == 0 {
            Seq::empty()
        } else {
            let earlier = independent_recipients(mode, clients.drop_last());
            if clients.last() != entity {
                earlier.push(clients.last())
            } else {
                earlier
            }
        },
        SendMode::Direct(entity) => if is_server(entity) {
            Seq::empty()
        } else {
            seq![entity]
        },
    }
}

/// The messages sending `message` to `recipients` on `channel` produces.
pub open spec fn sends_to(recipients: Seq<Entity>, channel: u8, message: Seq<u8>) -> Seq<
    (Entity, usize, Seq<u8>),
> {
    recipients.map_values(|e: Entity| (e, channel as usize, message))
}

/// The messages that independent events produce, event after event.
pub open spec fn independent_sends(
    events: Seq<(SendMode, Seq<u8>)>,
    clients: Seq<Entity>,
    channel: u8,
) -> Seq<(Entity, usize, Seq<u8>)>
    decreases events.len(),
{
    if events.len() == 0 {
        Seq::empty()
    } else {
        independent_sends(events.drop_last(), clients, channel) + sends_to(
            independent_recipients(events.last().0, clients),
            channel,
            events.last().1,
        )
    }
}

/// The messages a client applies from what it received, in order: with a tick in front unless
/// the event is independent, and only when that tick is not newer than `update_tick`.
pub open spec fn received_delivered(
    messages: Seq<Seq<u8>>,
    independent: bool,
    update_tick: u32,
) -> Seq<Seq<u8>>
    decreases messages.len(),
{
    if messages.len() == 0 {
        Seq::empty()
    } else {
        let earlier = received_delivered(messages.drop_last(), independent, update_tick);
        let message = messages.last();
        if independent {
            earlier.push(message)
        } else {
            match take_varint_u32(message) {
                Some((tick, end)) => if !tick_le(tick as u32, update_tick) {
                    earlier
                } else {
                    earlier.push(message.skip(end as int))
                },
                None => earlier,
            }
        }
    }
}

/// The messages a client queues from what it received, in order, with their ticks: those
/// whose tick is newer than `update_tick`.
pub open spec fn received_queued(
    messages: Seq<Seq<u8>>,
    independent: bool,
    update_tick: u32,
) -> Seq<(u32, Seq<u8>)>
    decreases messages.len(),
{
    if messages.len() == 0 || independent {
        Seq::empty()
    } else {
        let earlier = received_queued(messages.drop_last(), independent, update_tick);
        let message = messages.last();
        match take_varint_u32(message) {
            Some((tick, end)) => if !tick_le(tick as u32, update_tick) {
                earlier.push((tick as u32, message.skip(end as int)))
            } else {
                earlier
            },
            None => earlier,
        }
    }
}

/// Serialized events by their bytes.
pub open spec fn serialized_events(events: Seq<(SendMode, Vec<u8>)>) -> Seq<(SendMode, Seq<u8>)> {
    events.map_values(|e: (SendMode, Vec<u8>)| (e.0, e.1@))
}

/// What buffering serialized events on `channel` adds to the current set.
pub open spec fn buffered_views(events: Seq<(SendMode, Seq<u8>)>, channel: u8) -> Seq<
    (SendMode, u8, Seq<u8>),
> {
    events.map_values(|e: (SendMode, Seq<u8>)| (e.0, channel, e.1))
}

/// The queue `entries` after inserting `items` one after the other, each at its sorted
/// position.
pub open spec fn insert_all_sorted(entries: Seq<(u32, Seq<u8>)>, items: Seq<(u32, Seq<u8>)>) -> Seq<
    (u32, Seq<u8>),
>
    decreases items.len(),
{
    if items.len() == 0 {
        entries
    } else {
        let earlier = insert_all_sorted(entries, items.drop_last());
        earlier.insert(sorted_position(earlier, items.last().0), items.last())
    }
}

/// Receiving keeps a sorted client queue sorted: the due messages leave from the front and
/// each queued message goes to its sorted position.
pub proof fn lemma_receive_keeps_sorted(
    entries: Seq<(u32, Seq<u8>)>,
    due: int,
    items: Seq<(u32, Seq<u8>)>,
)
    requires
        queue_sorted(entries),
        0 <= due <= entries.len(),
    ensures
        queue_sorted(insert_all_sorted(entries.skip(due), items)),
    decreases items.len(),
{
    let rest = entries.skip(due);
    assert forall|i: int| 0 <= i < rest.len() - 1 implies tick_le(#[trigger] rest[i].0, rest[i + 1].0) by {
        assert(rest[i] == entries[i + due] && rest[i + 1] == entries[i + 1 + due]);
    }
    if items.len() > 0 {
        lemma_receive_keeps_sorted(entries, due, items.drop_last());
        lemma_insert_keeps_sorted(insert_all_sorted(rest, items.drop_last()), items.last().0, items.last().1);
    }
}

/// Every message a client queues has a tick newer than the update tick: no event is applied
/// before the client has the replication state of its tick.
pub proof fn lemma_queued_are_newer(messages: Seq<Seq<u8>>, independent: bool, update_tick: u32)
    ensures
        forall|k: int|
            0 <= k < received_queued(messages, independent, update_tick).len() ==> !tick_le(
                (#[trigger] received_queued(messages, independent, update_tick)[k]).0,
                update_tick,
            ),
    decreases messages.len(),
{
    if messages.len() > 0 && !independent {
        let earlier = received_queued(messages.drop_last(), independent, update_tick);
        lemma_queued_are_newer(messages.drop_last(), independent, update_tick);
        let all = received_queued(messages, independent, update_tick);
        assert forall|k: int| 0 <= k < all.len() implies !tick_le((#[trigger] all[k]).0, update_tick) by {
            if k < earlier.len() {
                assert(all[k] == earlier[k]);
            }
        }
    }
}

/// An independent event is never queued: everything received is applied at once.
pub proof fn lemma_independent_not_queued(messages: Seq<Seq<u8>>, update_tick: u32)
    ensures
        received_queued(messages, true, update_tick).len() == 0,
        received_delivered(messages, true, update_tick) == messages,
    decreases messages.len(),
{
    if messages.len() > 0 {
        lemma_independent_not_queued(messages.drop_last(), update_tick);
        assert(messages.drop_last().push(messages.last()) =~= messages);
    }
}

/// A server event kind as the network sees it: its channel and whether it waits for
/// replication.
pub struct ServerEvent {
    events_id: usize,
    channel_id: u8,
    independent: bool,
}

impl ServerEvent {
    /// The channel of the event.
    pub closed spec fn channel_spec(&self) -> u8 {
        self.channel_id
    }

    /// Whether the event is independent from replication.
    pub closed spec fn independent_spec(&self) -> bool {
        self.independent
    }

    /// The ID of the event type's event storage.
    pub closed spec fn events_id_spec(&self) -> usize {
        self.events_id
    }

    /// An event, stored under `events_id`, on the given channel, that waits for replication.
    pub fn new(events_id: usize, channel_id: u8) -> (event: Self)
        ensures
            event.events_id_spec() == events_id,
            event.channel_spec() == channel_id,
            !event.independent_spec(),
    {
        ServerEvent { events_id, channel_id, independent: false }
    }

    /// The ID of the event type's event storage.
    pub fn events_id(&self) -> (id: usize)
        ensures
            id == self.events_id_spec(),
    {
        self.events_id
    }

    /// Marks the event as independent: it is sent and applied without waiting for replication.
    pub fn make_independent(&mut self)
        ensures
            final(self).independent_spec(),
            final(self).channel_spec() == old(self).channel_spec(),
            final(self).events_id_spec() == old(self).events_id_spec(),
    {
        self.independent = true;
    }

    /// Whether the event is independent from replication.
    pub fn is_independent(&self) -> (independent: bool)
        ensures
            independent == self.independent_spec(),
    {
        self.independent
    }

    /// The channel of the event.
    pub fn channel_id(&self) -> (channel_id: u8)
        ensures
            channel_id == self.channel_spec(),
    {
        self.channel_id
    }

    /// Sends an independent event, serialized as `message`, to the connected clients its mode
    /// selects.
    pub fn send_independent_event(
        &self,
        message: &[u8],
        mode: SendMode,
        server: &mut RepliconServer,
        clients: &[Entity],
    )
        ensures
            sent_contents(*final(server)) == if old(server).running_spec() {
                sent_contents(*old(server)) + sends_to(
                    independent_recipients(mode, clients@),
                    self.channel_spec(),
                    message@,
                )
            } else {
                sent_contents(*old(server))
            },
            final(server).running_spec() == old(server).running_spec(),
            final(server).received_spec() == old(server).received_spec(),
    {
        let mut buffer: Vec<u8> = Vec::new();
        buffer.extend_from_slice(message);
        let bytes = bytes_from_vec(buffer);
        let channel = self.channel_id;
        let ghost start = sent_contents(*server);
        let ghost content = message@;
        match mode {
            SendMode::Direct(entity) => {
                let server_id = server_entity();
                proof {
                    Entity::lemma_eq_by_parts(entity, server_id);
                }
                if entity != server_id {
                    let copy = bytes_clone(&bytes);
                    server.send(entity, channel as usize, copy);
                    proof {
                        if old(server).running_spec() {
                            assert(bytes_content(copy) == content);
                            assert(sent_contents(*server) =~= start.push((entity, channel as usize, content)));
                            assert(sent_contents(*server) =~= start + sends_to(
                                seq![entity],
                                channel,
                                content,
                            ));
                        }
                    }
                } else {
                    proof {
                        assert(start + sends_to(Seq::empty(), channel, content) =~= start);
                    }
                }
            },
            _ => {
                let mut i: usize = 0;
                proof {
                    assert(clients@.take(0) =~= Seq::<Entity>::empty());
                    assert(independent_recipients(mode, Seq::empty()) =~= Seq::<Entity>::empty());
                    assert(start + sends_to(Seq::empty(), channel, content) =~= start);
                }
                while i < clients.len()
                    invariant
                        i <= clients@.len(),
                        mode !is Direct,
                        channel == self.channel_spec(),
                        bytes_content(bytes) == content,
                        start == sent_contents(*old(server)),
                        server.running_spec() == old(server).running_spec(),
                        server.received_spec() == old(server).received_spec(),
                        sent_contents(*server) == if old(server).running_spec() {
                            start + sends_to(
                                independent_recipients(mode, clients@.take(i as int)),
                                channel,
                                content,
                            )
                        } else {
                            start
                        },
                    decreases clients@.len() - i,
                {
                    let client_entity = clients[i];
                    let ghost prefix = clients@.take(i + 1);
                    proof {
                        assert(prefix.drop_last() =~= clients@.take(i as int));
                        assert(prefix.last() == client_entity);
                    }
                    let skip = match mode {
                        SendMode::BroadcastExcept(entity) => entity == client_entity,
                        _ => false,
                    };
                    let ghost earlier = independent_recipients(mode, clients@.take(i as int));
                    if !skip {
                        let copy = bytes_clone(&bytes);
                        let ghost before = *server;
                        server.send(client_entity, channel as usize, copy);
                        proof {
                            if old(server).running_spec() {
                                assert(sent_contents(*server) =~= sent_contents(before).push(
                                    (client_entity, channel as usize, content),
                                ));
                            }
                            assert(independent_recipients(mode, prefix) =~= earlier.push(client_entity));
                            assert(sends_to(earlier.push(client_entity), channel, content) =~= sends_to(
                                earlier,
                                channel,
                                content,
                            ).push((client_entity, channel as usize, content)));
                            if old(server).running_spec() {
                                assert(sent_contents(*server) =~= start + sends_to(
                                    earlier.push(client_entity),
                                    channel,
                                    content,
                                ));
                            }
                        }
                    } else {
                        proof {
                            assert(independent_recipients(mode, prefix) =~= earlier);
                        }
                    }
                    i = i + 1;
                }
                proof {
                    assert(clients@.take(clients@.len() as int) =~= clients@);
                }
            },
        }
    }

    /// Sends events that are independent, or buffers them until replication has caught up.
    ///
    /// `events` holds each event to send, in order, with its recipients and its serialized
    /// form; `clients` holds the connected clients, which independent events go to directly.
    pub fn send_or_buffer(
        &self,
        events: &[(SendMode, Vec<u8>)],
        server: &mut RepliconServer,
        clients: &[Entity],
        buffered: &mut BufferedServerEvents,
    )
        requires
            old(buffered).wf(),
            !self.independent_spec() && events@.len() > 0 ==> old(buffered).sets().len() > 0,
        ensures
            final(buffered).wf(),
            final(server).running_spec() == old(server).running_spec(),
            final(server).received_spec() == old(server).received_spec(),
            self.independent_spec() ==> {
                &&& final(buffered).sets() == old(buffered).sets()
                &&& sent_contents(*final(server)) == if old(server).running_spec() {
                    sent_contents(*old(server)) + independent_sends(
                        serialized_events(events@),
                        clients@,
                        self.channel_spec(),
                    )
                } else {
                    sent_contents(*old(server))
                }
            },
            !self.independent_spec() ==> {
                &&& sent_contents(*final(server)) == sent_contents(*old(server))
                &&& final(buffered).sets() == if events@.len() == 0 {
                    old(buffered).sets()
                } else {
                    old(buffered).sets().update(
                        old(buffered).sets().len() - 1,
                        (
                            old(buffered).sets().last().0 + buffered_views(
                                serialized_events(events@),
                                self.channel_spec(),
                            ),
                            old(buffered).sets().last().1,
                        ),
                    )
                }
            },
    {
        let ghost views = serialized_events(events@);
        let ghost start_sent = sent_contents(*server);
        let ghost start_sets = buffered.sets();
        let mut i: usize = 0;
        proof {
            assert(views.take(0) =~= Seq::<(SendMode, Seq<u8>)>::empty());
            assert(start_sent + Seq::empty() =~= start_sent);
            assert(buffered_views(Seq::empty(), self.channel_id) =~= Seq::empty());
        }
        while i < events.len()
            invariant
                i <= events@.len(),
                views == serialized_events(events@),
                views.len() == events@.len(),
                buffered.wf(),
                start_sent == sent_contents(*old(server)),
                start_sets == old(buffered).sets(),
                !self.independent_spec() && events@.len() > 0 ==> start_sets.len() > 0,
                server.running_spec() == old(server).running_spec(),
                server.received_spec() == old(server).received_spec(),
                self.independent_spec() ==> {
                    &&& buffered.sets() == start_sets
                    &&& sent_contents(*server) == if old(server).running_spec() {
                        start_sent + independent_sends(views.take(i as int), clients@, self.channel_spec())
                    } else {
                        start_sent
                    }
                },
                !self.independent_spec() ==> {
                    &&& sent_contents(*server) == start_sent
                    &&& buffered.sets() == if i == 0 {
                        start_sets
                    } else {
                        start_sets.update(
                            start_sets.len() - 1,
                            (
                                start_sets.last().0 + buffered_views(
                                    views.take(i as int),
                                    self.channel_spec(),
                                ),
                                start_sets.last().1,
                            ),
                        )
                    }
                },
            decreases events@.len() - i,
        {
            let (mode, message) = &events[i];
            proof {
                assert(views[i as int] == (*mode, message@));
                assert(views.take(i + 1).drop_last() =~= views.take(i as int));
                assert(views.take(i + 1).last() == views[i as int]);
            }
            if self.independent {
                self.send_independent_event(message.as_slice(), *mode, server, clients);
            } else {
                let serialized = SerializedMessage::new_raw(message.as_slice());
                let ghost before = buffered.sets();
                buffered.insert(*mode, self.channel_id, serialized);
                proof {
                    let earlier = buffered_views(views.take(i as int), self.channel_id);
                    assert(buffered_views(views.take(i + 1), self.channel_id) =~= earlier.push(
                        (*mode, self.channel_id, message@),
                    ));
                    assert(start_sets.last().0 + earlier.push((*mode, self.channel_id, message@)) =~= (
                    start_sets.last().0 + earlier).push((*mode, self.channel_id, message@)));
                    assert(buffered.sets() =~= start_sets.update(
                        start_sets.len() - 1,
                        (
                            start_sets.last().0 + buffered_views(views.take(i + 1), self.channel_id),
                            start_sets.last().1,
                        ),
                    ));
                }
            }
            i = i + 1;
        }
        proof {
            assert(views.take(views.len() as int) =~= views);
        }
    }

    /// Receives events from the server: first the queued messages whose tick has come, then
    /// the received ones.
    ///
    /// Returns, in order, the messages to deserialize as events. A received message of an
    /// event that waits for replication starts with its tick: when the tick cannot be read
    /// the message is dropped, when it is newer than `update_tick` the rest is queued.
    pub fn receive(
        &self,
        queue: &mut ServerEventQueue,
        received: Vec<Bytes>,
        update_tick: RepliconTick,
    ) -> (messages: Vec<Bytes>)
        ensures
            contents(messages@) == old(queue).entries_spec().take(
                due_count(old(queue).entries_spec(), update_tick@) as int,
            ).map_values(|e: (u32, Seq<u8>)| e.1) + received_delivered(
                contents(received@),
                self.independent_spec(),
                update_tick@,
            ),
            final(queue).entries_spec() == insert_all_sorted(
                old(queue).entries_spec().skip(due_count(old(queue).entries_spec(), update_tick@) as int),
                received_queued(contents(received@), self.independent_spec(), update_tick@),
            ),
    {
        let ghost entries = queue.entries_spec();
        let ghost due = due_count(entries, update_tick@);
        let mut messages: Vec<Bytes> = Vec::new();
        let mut k: usize = 0;
        proof {
            assert(entries.skip(0) =~= entries);
            assert(contents(messages@) =~= entries.take(0).map_values(|e: (u32, Seq<u8>)| e.1));
        }
        loop
            invariant_except_break
                k <= entries.len(),
                queue.entries_spec() == entries.skip(k as int),
                messages@.len() == k,
                contents(messages@) == entries.take(k as int).map_values(|e: (u32, Seq<u8>)| e.1),
                due == k + due_count(entries.skip(k as int), update_tick@),
            ensures
                k == due,
                queue.entries_spec() == entries.skip(k as int),
                contents(messages@) == entries.take(k as int).map_values(|e: (u32, Seq<u8>)| e.1),
            decreases entries.len() - k,
        {
            let ghost rest = entries.skip(k as int);
            match queue.pop_if_le(update_tick) {
                Some((_, message)) => {
                    proof {
                        assert(rest.drop_first() =~= entries.skip(k + 1));
                        assert(rest[0] == entries[k as int]);
                        assert(entries.take(k + 1).map_values(|e: (u32, Seq<u8>)| e.1) =~= entries.take(
                            k as int,
                        ).map_values(|e: (u32, Seq<u8>)| e.1).push(entries[k as int].1));
                    }
                    let ghost before = messages@;
                    messages.push(message);
                    proof {
                        assert(contents(messages@) =~= contents(before).push(bytes_content(message)));
                        assert(contents(messages@) =~= entries.take(k + 1).map_values(
                            |e: (u32, Seq<u8>)| e.1,
                        ));
                    }
                    k = messages.len();
                },
                None => {
                    break ;
                },
            }
        }
        let ghost popped = contents(messages@);
        let ghost all = contents(received@);
        let mut i: usize = 0;
        proof {
            assert(all.take(0) =~= Seq::<Seq<u8>>::empty());
            assert(popped + Seq::empty() =~= popped);
        }
        while i < received.len()
            invariant
                i <= received@.len(),
                all == contents(received@),
                all.len() == received@.len(),
                popped == entries.take(due as int).map_values(|e: (u32, Seq<u8>)| e.1),
                contents(messages@) == popped + received_delivered(
                    all.take(i as int),
                    self.independent_spec(),
                    update_tick@,
                ),
                queue.entries_spec() == insert_all_sorted(
                    entries.skip(due as int),
                    received_queued(all.take(i as int), self.independent_spec(), update_tick@),
                ),
            decreases received@.len() - i,
        {
            let ghost prefix = all.take(i + 1);
            proof {
                assert(prefix.drop_last() =~= all.take(i as int));
                assert(prefix.last() == all[i as int]);
            }
            let ghost delivered = received_delivered(all.take(i as int), self.independent_spec(), update_tick@);
            let ghost queued = received_queued(all.take(i as int), self.independent_spec(), update_tick@);
            let mut message = bytes_clone(&received[i]);
            let ghost before = messages@;
            proof {
                assert(bytes_content(message) == all[i as int]);
            }
            if self.independent {
                messages.push(message);
                proof {
                    assert(contents(messages@) =~= contents(before).push(bytes_content(message)));
                    assert(received_queued(prefix, true, update_tick@) =~= Seq::empty());
                    assert(contents(messages@) =~= popped + delivered.push(all[i as int]));
                }
            } else {
                match deserialize_tick(&mut message) {
                    Ok(tick) => {
                        if tick > update_tick {
                            let ghost before = queue.entries_spec();
                            queue.insert(tick, message);
                            proof {
                                assert(queued.push((tick@, bytes_content(message))).drop_last() =~= queued);
                                assert(queue.entries_spec() == insert_all_sorted(
                                    entries.skip(due as int),
                                    queued.push((tick@, bytes_content(message))),
                                ));
                            }
                        } else {
                            messages.push(message);
                            proof {
                                assert(contents(messages@) =~= contents(before).push(bytes_content(message)));
                                assert(contents(messages@) =~= popped + delivered.push(
                                    bytes_content(message),
                                ));
                            }
                        }
                    },
                    Err(_) => {},
                }
            }
            i = i + 1;
        }
        proof {
            assert(all.take(all.len() as int) =~= all);
        }
        messages
    }
}

/// A client event kind as the network sees it: its channel.
pub struct ClientEvent {
    events_id: usize,
    channel_id: u8,
}

impl ClientEvent {
    /// The channel of the event.
    pub closed spec fn channel_spec(&self) -> u8 {
        self.channel_id
    }

    /// The ID of the event type's event storage.
    pub closed spec fn events_id_spec(&self) -> usize {
        self.events_id
    }

    /// An event, stored under `events_id`, on the given channel.
    pub fn new(events_id: usize, channel_id: u8) -> (event: Self)
        ensures
            event.events_id_spec() == events_id,
            event.channel_spec() == channel_id,
    {
        ClientEvent { events_id, channel_id }
    }

    /// The channel of the event.
    pub fn channel_id(&self) -> (channel_id: u8)
        ensures
            channel_id == self.channel_spec(),
    {
        self.channel_id
    }

    /// The ID of the event type's event storage.
    pub fn events_id(&self) -> (id: usize)
        ensures
            id == self.events_id_spec(),
    {
        self.events_id
    }

    /// Takes the messages clients sent for this event, in order of arrival, with their
    /// senders; each is then deserialized into an event.
    pub fn receive(&self, server: &mut RepliconServer) -> (messages: Vec<(Entity, Bytes)>)
        requires
            (self.channel_spec() as int) < old(server).received_spec().len(),
        ensures
            messages@ == old(server).received_spec()[self.channel_spec() as int],
            final(server).received_spec() == old(server).received_spec().update(
                self.channel_spec() as int,
                Seq::<(Entity, Bytes)>::empty(),
            ),
            final(server).running_spec() == old(server).running_spec(),
            final(server).sent_spec() == old(server).sent_spec(),
    {
        server.receive(self.channel_id as usize)
    }
}

/// The events a client sends to itself when it is also the server: each marked as coming
/// from the server.
pub struct FromClient<T> {
    /// The client entity that sent the event; the server itself for local events.
    pub client_entity: Entity,
    /// The event.
    pub event: T,
}

/// Wraps events of the local client as events from the server itself, in order, draining
/// them.
pub fn resend_client_events_locally<T>(events: Vec<T>) -> (resent: Vec<FromClient<T>>)
    ensures
        resent@.len() == events@.len(),
        forall|i: int|
            0 <= i < events@.len() ==> is_server((#[trigger] resent@[i]).client_entity)
                && resent@[i].event == events@[i],
{
    let ghost all = events@;
    let total = events.len();
    let mut resent: Vec<FromClient<T>> = Vec::new();
    let mut rest = events;
    while rest.len() > 0
        invariant
            resent@.len() + rest@.len() == all.len(),
            all.len() == total,
            rest@ == all.skip(resent@.len() as int),
            forall|i: int|
                0 <= i < resent@.len() ==> is_server((#[trigger] resent@[i]).client_entity)
                    && resent@[i].event == all[i],
        decreases rest@.len(),
    {
        let ghost done = resent@.len();
        let event = rest.remove(0);
        proof {
            assert(event == all[done as int]);
            assert(rest@ =~= all.skip(done + 1int));
        }
        resent.push(FromClient { client_entity: server_entity(), event });
    }
    resent
}

} // verus!
