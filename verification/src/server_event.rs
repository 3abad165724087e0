use bytes::Bytes;
use postcard::Error;
use vstd::prelude::*;

use std::collections::HashSet;

use crate::entity::Entity;
use crate::replicon_server::RepliconServer;
use crate::message_bytes::{bytes_clone, bytes_content, bytes_from_vec, bytes_slice_from, bytes_tail_to_vec};
use crate::replicon_tick::RepliconTick;
use crate::varint::{postcard_extend_u32, postcard_size_u32, postcard_write_u32, varint};

verus! {

/// Largest number of bytes a serialized [`RepliconTick`] takes (a `u32` varint).
pub const TICK_MAX_SIZE: usize = 5;

/// A `u32` varint takes one to five bytes.
pub proof fn lemma_varint_u32_len(value: u32)
    ensures
        1 <= varint(value as nat).len() <= 5,
{
    let v = value as nat;
    let v1 = v / 128;
    let v2 = v1 / 128;
    let v3 = v2 / 128;
    let v4 = v3 / 128;
    assert(v4 < 128);
    assert(1 <= varint(v4).len() <= 1);
    assert(1 <= varint(v3).len() <= 2);
    assert(1 <= varint(v2).len() <= 3);
    assert(1 <= varint(v1).len() <= 4);
    assert(1 <= varint(v).len() <= 5);
}

/// The bytes a client receives for an event: its update tick as a varint, then the event.
pub open spec fn event_message(tick: RepliconTick, event: Seq<u8>) -> Seq<u8> {
    varint(tick@ as nat) + event
}

/// Cached message for buffered server events.
pub enum SerializedMessage {
    /// A message without a serialized tick: `padding | event`.
    ///
    /// The padding is [`TICK_MAX_SIZE`] bytes long and is overwritten by the tick when the
    /// message is first sent.
    Raw(Vec<u8>),
    /// A message with a serialized tick: `tick | event`.
    Resolved { tick: RepliconTick, tick_size: usize, bytes: Bytes },
}

impl SerializedMessage {
    /// Whether the message is well formed: a raw message has its padding, a resolved message
    /// starts with its tick.
    pub open spec fn wf(&self) -> bool {
        match self {
            SerializedMessage::Raw(raw) => raw@.len() >= TICK_MAX_SIZE,
            SerializedMessage::Resolved { tick, tick_size, bytes } => {
                &&& *tick_size == varint(tick@ as nat).len()
                &&& bytes_content(*bytes).len() >= *tick_size
                &&& bytes_content(*bytes).take(*tick_size as int) == varint(tick@ as nat)
            },
        }
    }

    /// The serialized event the message carries.
    pub open spec fn event_bytes(&self) -> Seq<u8> {
        match self {
            SerializedMessage::Raw(raw) => raw@.skip(TICK_MAX_SIZE as int),
            SerializedMessage::Resolved { tick_size, bytes, .. } => bytes_content(*bytes).skip(
                *tick_size as int,
            ),
        }
    }

    /// A raw message for a serialized event, with room for the tick in front.
    pub fn new_raw(event: &[u8]) -> (message: Self)
        ensures
            message.wf(),
            message.event_bytes() == event@,
            message is Raw,
    {
        let mut raw: Vec<u8> = Vec::new();
        let mut i: usize = 0;
        while i < TICK_MAX_SIZE
            invariant
                i <= TICK_MAX_SIZE,
                raw@.len() == i,
            decreases TICK_MAX_SIZE - i,
        {
            raw.push(0u8);
            i = i + 1;
        }
        raw.extend_from_slice(event);
        proof {
            assert(raw@.skip(TICK_MAX_SIZE as int) =~= event@);
        }
        SerializedMessage::Raw(raw)
    }

    /// Returns the message for a client with the given update tick.
    ///
    /// The first call writes the tick into the padding and keeps the result; later calls with
    /// the same tick share it, and calls with another tick build a new message.
    pub fn get_bytes(&mut self, update_tick: RepliconTick) -> (result: Result<Bytes, Error>)
        requires
            old(self).wf(),
        ensures
            final(self).wf(),
            final(self).event_bytes() == old(self).event_bytes(),
            result matches Ok(bytes) && bytes_content(bytes) == event_message(
                update_tick,
                old(self).event_bytes(),
            ),
            *old(self) is Raw ==> {
                &&& *final(self) is Resolved
                &&& (*final(self))->tick == update_tick
                &&& (*final(self))->tick_size == varint(update_tick@ as nat).len()
                &&& bytes_content((*final(self))->bytes) == bytes_content(result->Ok_0)
            },
            *old(self) is Resolved ==> *final(self) == *old(self),
    {
        proof {
            lemma_varint_u32_len(update_tick@);
        }
        match self {
            SerializedMessage::Raw(raw) => {
                let mut bytes: Vec<u8> = Vec::new();
                core::mem::swap(&mut bytes, raw);
                let ghost padded = bytes@;
                let tick_size = match postcard_size_u32(update_tick.get()) {
                    Ok(size) => size,
                    Err(e) => {
                        proof {
                            assert(false);
                        }
                        return Err(e);
                    },
                };
                let padding = TICK_MAX_SIZE - tick_size;
                match postcard_write_u32(update_tick.get(), &mut bytes, padding) {
                    Ok(()) => {},
                    Err(e) => {
                        proof {
                            assert(false);
                        }
                        return Err(e);
                    },
                }
                let full = bytes_from_vec(bytes);
                let sliced = bytes_slice_from(&full, padding);
                proof {
                    assert(bytes_content(sliced) =~= event_message(
                        update_tick,
                        padded.skip(TICK_MAX_SIZE as int),
                    ));
                    assert(bytes_content(sliced).take(tick_size as int) =~= varint(update_tick@ as nat));
                    assert(bytes_content(sliced).skip(tick_size as int) =~= padded.skip(TICK_MAX_SIZE as int));
                }
                let result = bytes_clone(&sliced);
                *self = SerializedMessage::Resolved { tick: update_tick, tick_size, bytes: sliced };
                Ok(result)
            },
            SerializedMessage::Resolved { tick, tick_size, bytes } => {
                if *tick == update_tick {
                    proof {
                        assert(bytes_content(*bytes) =~= bytes_content(*bytes).take(*tick_size as int)
                            + bytes_content(*bytes).skip(*tick_size as int));
                    }
                    return Ok(bytes_clone(bytes));
                }
                let mut new_bytes: Vec<u8> = Vec::new();
                match postcard_extend_u32(update_tick.get(), &mut new_bytes) {
                    Ok(()) => {},
                    Err(e) => {
                        return Err(e);
                    },
                }
                let mut event = bytes_tail_to_vec(bytes, *tick_size);
                new_bytes.append(&mut event);
                proof {
                    assert(new_bytes@ =~= event_message(update_tick, bytes_content(*bytes).skip(*tick_size as int)));
                }
                Ok(bytes_from_vec(new_bytes))
            },
        }
    }
}


/// Type of server event sending.
#[derive(Clone, Copy, Debug, PartialEq, Eq, Structural)]
pub enum SendMode {
    /// Send to every client.
    Broadcast,
    /// Send to every client except the specified connected client.
    BroadcastExcept(Entity),
    /// Send only to the specified client.
    Direct(Entity),
}

/// An event that will be sent to client(s).
pub struct ToClients<T> {
    /// Recipients.
    pub mode: SendMode,
    /// Transmitted event.
    pub event: T,
}

/// The entity that stands for the server itself as a recipient: the placeholder entity.
pub open spec fn is_server(entity: Entity) -> bool {
    entity.index_spec() == u32::MAX && entity.generation_spec() == 1
}

/// Returns the entity that stands for the server itself as a recipient.
pub fn server_entity() -> (entity: Entity)
    ensures
        is_server(entity),
{
    Entity::placeholder()
}

/// A connected client as event sending sees it: its entity and, when it is replicated,
/// its update tick.
pub type ClientEntry = (Entity, Option<RepliconTick>);

/// The clients of `clients`, in order, that receive a broadcast: not excluded, not `except`,
/// and replicated; with their update ticks.
pub open spec fn broadcast_recipients(
    clients: Seq<ClientEntry>,
    excluded: Set<u64>,
    except: Option<Entity>,
) -> Seq<(Entity, RepliconTick)>
    decreases clients.len(),
{
    if clients.len() == 0 {
        Seq::empty()
    } else {
        let earlier = broadcast_recipients(clients.drop_last(), excluded, except);
        let (entity, ticks) = clients.last();
        if !excluded.contains(entity.bits()) && except != Some(entity) && ticks is Some {
            earlier.push((entity, ticks->Some_0))
        } else {
            earlier
        }
    }
}

/// The first entry of `clients` for `entity`, if any.
pub open spec fn first_entry(clients: Seq<ClientEntry>, entity: Entity) -> Option<ClientEntry>
    decreases clients.len(),
{
    if clients.len() == 0 {
        None
    } else if clients[0].0 == entity {
        Some(clients[0])
    } else {
        first_entry(clients.drop_first(), entity)
    }
}

/// The clients that receive a buffered event sent with `mode`, in order, with their update ticks.
pub open spec fn event_recipients(
    mode: SendMode,
    excluded: Set<u64>,
    clients: Seq<ClientEntry>,
) -> Seq<(Entity, RepliconTick)> {
    match mode {
        SendMode::Broadcast => broadcast_recipients(clients, excluded, None),
        SendMode::BroadcastExcept(entity) => broadcast_recipients(clients, excluded, Some(entity)),
        SendMode::Direct(entity) => if !is_server(entity) && !excluded.contains(entity.bits()) {
            match first_entry(clients, entity) {
                Some((e, Some(tick))) => seq![(e, tick)],
                _ => Seq::empty(),
            }
        } else {
            Seq::empty()
        },
    }
}

/// The messages a buffered event produces: for each recipient, the event behind its update tick.
pub open spec fn event_sends(
    recipients: Seq<(Entity, RepliconTick)>,
    channel: u8,
    event: Seq<u8>,
) -> Seq<(Entity, usize, Seq<u8>)> {
    recipients.map_values(
        |r: (Entity, RepliconTick)| (r.0, channel as usize, event_message(r.1, event)),
    )
}

/// The messages the server holds for sending, with their contents.
pub open spec fn sent_contents(server: RepliconServer) -> Seq<(Entity, usize, Seq<u8>)> {
    server.sent_spec().map_values(|m: (Entity, usize, Bytes)| (m.0, m.1, bytes_content(m.2)))
}

/// A buffered event: its recipients, channel and cached message.
pub struct BufferedServerEvent {
    pub mode: SendMode,
    pub channel: u8,
    pub message: SerializedMessage,
}

impl BufferedServerEvent {
    /// Sends the event to one client with its update tick.
    fn send(&mut self, server: &mut RepliconServer, client_entity: Entity, update_tick: RepliconTick)
        requires
            old(self).message.wf(),
        ensures
            final(self).message.wf(),
            final(self).message.event_bytes() == old(self).message.event_bytes(),
            final(self).mode == old(self).mode,
            final(self).channel == old(self).channel,
            sent_contents(*final(server)) == if old(server).running_spec() {
                sent_contents(*old(server)).push(
                    (client_entity, old(self).channel as usize, event_message(update_tick, old(self).message.event_bytes())),
                )
            } else {
                sent_contents(*old(server))
            },
            final(server).running_spec() == old(server).running_spec(),
            final(server).received_spec() == old(server).received_spec(),
    {
        let message = self.message.get_bytes(update_tick);
        match message {
            Ok(bytes) => {
                server.send(client_entity, self.channel as usize, bytes);
                proof {
                    if old(server).running_spec() {
                        assert(sent_contents(*server) =~= sent_contents(*old(server)).push(
                            (client_entity, self.channel as usize, bytes_content(bytes)),
                        ));
                    }
                }
            },
            Err(_) => {},
        }
    }

    /// Sends the event to every client its mode selects, skipping excluded clients.
    fn send_to_recipients(
        &mut self,
        server: &mut RepliconServer,
        excluded: &HashSet<u64>,
        clients: &[ClientEntry],
    )
        requires
            old(self).message.wf(),
        ensures
            final(self).message.wf(),
            final(self).message.event_bytes() == old(self).message.event_bytes(),
            final(self).mode == old(self).mode,
            final(self).channel == old(self).channel,
            sent_contents(*final(server)) == if old(server).running_spec() {
                sent_contents(*old(server)) + event_sends(
                    event_recipients(old(self).mode, excluded@, clients@),
                    old(self).channel,
                    old(self).message.event_bytes(),
                )
            } else {
                sent_contents(*old(server))
            },
            final(server).running_spec() == old(server).running_spec(),
            final(server).received_spec() == old(server).received_spec(),
    {
        let ghost event = self.message.event_bytes();
        match self.mode {
            SendMode::Direct(entity) => {
                let server_id = server_entity();
                proof {
                    Entity::lemma_eq_by_parts(entity, server_id);
                }
                if entity != server_id && !excluded.contains(&entity.to_bits()) {
                    let mut i: usize = 0;
                    proof {
                        assert(clients@.skip(0) =~= clients@);
                    }
                    while i < clients.len()
                        invariant
                            i <= clients@.len(),
                            first_entry(clients@, entity) == first_entry(clients@.skip(i as int), entity),
                            !is_server(entity),
                            !excluded@.contains(entity.bits()),
                            old(self).mode == SendMode::Direct(entity),
                            self.message.wf(),
                            self.message.event_bytes() == event,
                            event == old(self).message.event_bytes(),
                            self.mode == old(self).mode,
                            self.channel == old(self).channel,
                            *server == *old(server),
                        decreases clients@.len() - i,
                    {
                        let (client_entity, update_tick) = clients[i];
                        if client_entity == entity {
                            proof {
                                assert(clients@.skip(i as int)[0] == clients@[i as int]);
                                assert(first_entry(clients@, entity) == Some(clients@[i as int]));
                            }
                            match update_tick {
                                Some(tick) => {
                                    self.send(server, client_entity, tick);
                                    proof {
                                        assert(event_sends(seq![(client_entity, tick)], self.channel, event)
                                            =~= seq![(client_entity, self.channel as usize, event_message(tick, event))]);
                                    }
                                },
                                None => {
                                    proof {
                                        assert(sent_contents(*old(server)) + Seq::empty() =~= sent_contents(*old(server)));
                                        assert(event_sends(Seq::empty(), self.channel, event) =~= Seq::empty());
                                    }
                                },
                            }
                            return;
                        }
                        proof {
                            assert(clients@.skip(i as int).drop_first() =~= clients@.skip(i + 1));
                        }
                        i = i + 1;
                    }
                    proof {
                        assert(clients@.skip(i as int).len() == 0);
                    }
                }
                proof {
                    assert(sent_contents(*old(server)) + Seq::empty() =~= sent_contents(*old(server)));
                    assert(event_sends(Seq::empty(), self.channel, event) =~= Seq::empty());
                }
            },
            _ => {
                let except = match self.mode {
                    SendMode::BroadcastExcept(entity) => Some(entity),
                    _ => None,
                };
                let ghost start = sent_contents(*server);
                let mut i: usize = 0;
                proof {
                    assert(clients@.take(0) =~= Seq::<ClientEntry>::empty());
                    assert(start + event_sends(Seq::empty(), self.channel, event) =~= start);
                }
                while i < clients.len()
                    invariant
                        i <= clients@.len(),
                        self.message.wf(),
                        self.message.event_bytes() == event,
                        self.mode == old(self).mode,
                        self.channel == old(self).channel,
                        server.running_spec() == old(server).running_spec(),
                        server.received_spec() == old(server).received_spec(),
                        start == sent_contents(*old(server)),
                        except == (match old(self).mode {
                            SendMode::BroadcastExcept(entity) => Some(entity),
                            _ => None::<Entity>,
                        }),
                        sent_contents(*server) == if old(server).running_spec() {
                            start + event_sends(
                                broadcast_recipients(clients@.take(i as int), excluded@, except),
                                self.channel,
                                event,
                            )
                        } else {
                            start
                        },
                    decreases clients@.len() - i,
                {
                    let (client_entity, update_tick) = clients[i];
                    proof {
                        assert(clients@.take(i + 1).drop_last() =~= clients@.take(i as int));
                    }
                    let skip = excluded.contains(&client_entity.to_bits()) || match except {
                        Some(entity) => entity == client_entity,
                        None => false,
                    };
                    if !skip {
                        match update_tick {
                            Some(tick) => {
                                self.send(server, client_entity, tick);
                                proof {
                                    let r = broadcast_recipients(clients@.take(i as int), excluded@, except);
                                    assert(event_sends(r.push((client_entity, tick)), self.channel, event)
                                        =~= event_sends(r, self.channel, event).push(
                                        (client_entity, self.channel as usize, event_message(tick, event)),
                                    ));
                                }
                            },
                            None => {},
                        }
                    }
                    i = i + 1;
                }
                proof {
                    assert(clients@.take(clients@.len() as int) =~= clients@);
                }
            },
        }
    }
}


/// What a buffered event stands for: its mode, its channel and the serialized event.
pub open spec fn event_view(event: BufferedServerEvent) -> (SendMode, u8, Seq<u8>) {
    (event.mode, event.channel, event.message.event_bytes())
}

/// The messages that a set of buffered events produces, in order, for the given clients.
pub open spec fn set_sends(
    events: Seq<(SendMode, u8, Seq<u8>)>,
    excluded: Set<u64>,
    clients: Seq<ClientEntry>,
) -> Seq<(Entity, usize, Seq<u8>)>
    decreases events.len(),
{
    if events.len() == 0 {
        Seq::empty()
    } else {
        let (mode, channel, event) = events.last();
        set_sends(events.drop_last(), excluded, clients) + event_sends(
            event_recipients(mode, excluded, clients),
            channel,
            event,
        )
    }
}

/// The messages that the buffered sets produce, set after set, for the given clients.
pub open spec fn buffer_sends(
    sets: Seq<(Seq<(SendMode, u8, Seq<u8>)>, Set<u64>)>,
    clients: Seq<ClientEntry>,
) -> Seq<(Entity, usize, Seq<u8>)>
    decreases sets.len(),
{
    if sets.len() == 0 {
        Seq::empty()
    } else {
        buffer_sends(sets.drop_last(), clients) + set_sends(sets.last().0, sets.last().1, clients)
    }
}

/// The events buffered during one tick and the clients they skip.
pub struct BufferedServerEventSet {
    events: Vec<BufferedServerEvent>,
    /// Clients (by entity bits) excluded from this set because they connected after its
    /// events were sent.
    excluded: HashSet<u64>,
}

impl BufferedServerEventSet {
    /// The buffered events, in order.
    pub closed spec fn events_spec(&self) -> Seq<(SendMode, u8, Seq<u8>)> {
        self.events@.map_values(|e: BufferedServerEvent| event_view(e))
    }

    /// The excluded clients, by entity bits.
    pub closed spec fn excluded_spec(&self) -> Set<u64> {
        self.excluded@
    }

    /// Every buffered message is well formed.
    pub closed spec fn wf(&self) -> bool {
        forall|i: int| 0 <= i < self.events@.len() ==> (#[trigger] self.events@[i]).message.wf()
    }

    /// An empty set.
    pub fn new() -> (set: Self)
        ensures
            set.wf(),
            set.events_spec().len() == 0,
            set.excluded_spec() == Set::<u64>::empty(),
    {
        let set = BufferedServerEventSet { events: Vec::new(), excluded: HashSet::new() };
        proof {
            assert(set.events_spec() =~= Seq::empty());
        }
        set
    }

    /// Removes all events and exclusions.
    pub fn clear(&mut self)
        ensures
            final(self).wf(),
            final(self).events_spec().len() == 0,
            final(self).excluded_spec() == Set::<u64>::empty(),
    {
        self.events.clear();
        self.excluded.clear();
        proof {
            assert(self.events_spec() =~= Seq::empty());
        }
    }

    /// Sends every event of the set to its recipients, then empties the set.
    fn send_and_clear(&mut self, server: &mut RepliconServer, clients: &[ClientEntry])
        requires
            old(self).wf(),
        ensures
            final(self).wf(),
            final(self).events_spec().len() == 0,
            final(self).excluded_spec() == Set::<u64>::empty(),
            sent_contents(*final(server)) == if old(server).running_spec() {
                sent_contents(*old(server)) + set_sends(
                    old(self).events_spec(),
                    old(self).excluded_spec(),
                    clients@,
                )
            } else {
                sent_contents(*old(server))
            },
            final(server).running_spec() == old(server).running_spec(),
            final(server).received_spec() == old(server).received_spec(),
    {
        let mut events: Vec<BufferedServerEvent> = Vec::new();
        core::mem::swap(&mut events, &mut self.events);
        let ghost views = old(self).events_spec();
        let ghost excluded = self.excluded@;
        let ghost start = sent_contents(*server);
        let mut j: usize = 0;
        proof {
            assert(views.take(0) =~= Seq::<(SendMode, u8, Seq<u8>)>::empty());
            assert(start + Seq::empty() =~= start);
        }
        while j < events.len()
            invariant
                j <= events@.len(),
                events@.len() == views.len(),
                forall|i: int| 0 <= i < events@.len() ==> (#[trigger] events@[i]).message.wf(),
                forall|i: int| j <= i < events@.len() ==> event_view(#[trigger] events@[i]) == views[i],
                excluded == self.excluded@,
                excluded == old(self).excluded_spec(),
                server.running_spec() == old(server).running_spec(),
                server.received_spec() == old(server).received_spec(),
                start == sent_contents(*old(server)),
                sent_contents(*server) == if old(server).running_spec() {
                    start + set_sends(views.take(j as int), excluded, clients@)
                } else {
                    start
                },
            decreases events@.len() - j,
        {
            proof {
                assert(views.take(j + 1).drop_last() =~= views.take(j as int));
                assert(views.take(j + 1).last() == views[j as int]);
            }
            let ghost before = sent_contents(*server);
            events[j].send_to_recipients(server, &self.excluded, clients);
            proof {
                if old(server).running_spec() {
                    assert(sent_contents(*server) =~= start + set_sends(
                        views.take(j + 1),
                        excluded,
                        clients@,
                    ));
                }
            }
            j = j + 1;
        }
        proof {
            assert(views.take(views.len() as int) =~= views);
        }
        self.clear();
    }
}

/// Caches server events that depend on replication until they can be sent with an
/// accurate update tick.
///
/// Replication does not scan the world every tick: an event sent in the same tick as a spawn
/// that it references must reach the client with the update tick of that spawn, so it waits
/// here until the spawn has been detected.
pub struct BufferedServerEvents {
    buffer: Vec<BufferedServerEventSet>,
    /// Unused sets kept to avoid reallocations; all of them are empty.
    cache: Vec<BufferedServerEventSet>,
}

impl BufferedServerEvents {
    /// The buffered sets, oldest first: their events and their excluded clients.
    pub closed spec fn sets(&self) -> Seq<(Seq<(SendMode, u8, Seq<u8>)>, Set<u64>)> {
        self.buffer@.map_values(
            |set: BufferedServerEventSet| (set.events_spec(), set.excluded_spec()),
        )
    }

    /// The number of emptied sets kept for reuse.
    pub closed spec fn cache_len(&self) -> nat {
        self.cache@.len()
    }

    /// Every buffered set is well formed and every cached set is empty.
    pub closed spec fn wf(&self) -> bool {
        &&& forall|i: int| 0 <= i < self.buffer@.len() ==> (#[trigger] self.buffer@[i]).wf()
        &&& forall|i: int|
            0 <= i < self.cache@.len() ==> {
                &&& (#[trigger] self.cache@[i]).wf()
                &&& self.cache@[i].events_spec().len() == 0
                &&& self.cache@[i].excluded_spec() == Set::<u64>::empty()
            }
    }

    /// An empty buffer.
    pub fn new() -> (events: Self)
        ensures
            events.wf(),
            events.sets().len() == 0,
            events.cache_len() == 0,
    {
        let events = BufferedServerEvents { buffer: Vec::new(), cache: Vec::new() };
        proof {
            assert(events.sets() =~= Seq::empty());
        }
        events
    }

    /// Opens a new set for the events of the current tick.
    pub fn start_tick(&mut self)
        requires
            old(self).wf(),
        ensures
            final(self).wf(),
            final(self).sets() == old(self).sets().push((Seq::empty(), Set::<u64>::empty())),
            final(self).cache_len() == if old(self).cache_len() > 0 {
                old(self).cache_len() - 1
            } else {
                0
            },
    {
        let set = match self.cache.pop() {
            Some(set) => set,
            None => BufferedServerEventSet::new(),
        };
        proof {
            assert(set.events_spec() =~= Seq::empty());
        }
        self.buffer.push(set);
        proof {
            assert(self.sets() =~= old(self).sets().push((Seq::empty(), Set::<u64>::empty())));
        }
    }

    /// Buffers an event in the set of the current tick.
    pub fn insert(&mut self, mode: SendMode, channel: u8, message: SerializedMessage)
        requires
            old(self).wf(),
            old(self).sets().len() > 0,
            message.wf(),
        ensures
            final(self).wf(),
            final(self).sets() == old(self).sets().update(
                old(self).sets().len() - 1,
                (
                    old(self).sets().last().0.push((mode, channel, message.event_bytes())),
                    old(self).sets().last().1,
                ),
            ),
    {
        let last = self.buffer.len() - 1;
        let ghost event = BufferedServerEvent { mode, channel, message };
        self.buffer[last].events.push(BufferedServerEvent { mode, channel, message });
        proof {
            assert(self.buffer@[last as int].events_spec() =~= old(self).buffer@[last as int].events_spec().push(
                event_view(event),
            ));
            assert(self.sets() =~= old(self).sets().update(
                old(self).sets().len() - 1,
                (
                    old(self).sets().last().0.push((mode, channel, event.message.event_bytes())),
                    old(self).sets().last().1,
                ),
            ));
        }
    }

    /// Excludes a client from every buffered set, so that a client that has just connected
    /// receives no older event.
    pub fn exclude_client(&mut self, client_entity: Entity)
        requires
            old(self).wf(),
        ensures
            final(self).wf(),
            final(self).sets().len() == old(self).sets().len(),
            forall|i: int|
                0 <= i < old(self).sets().len() ==> #[trigger] final(self).sets()[i] == (
                    old(self).sets()[i].0,
                    old(self).sets()[i].1.insert(client_entity.bits()),
                ),
    {
        let bits = client_entity.to_bits();
        let mut i: usize = 0;
        while i < self.buffer.len()
            invariant
                i <= self.buffer@.len(),
                self.buffer@.len() == old(self).buffer@.len(),
                self.cache@ == old(self).cache@,
                self.wf(),
                bits == client_entity.bits(),
                forall|k: int|
                    0 <= k < i ==> #[trigger] self.sets()[k] == (
                        old(self).sets()[k].0,
                        old(self).sets()[k].1.insert(bits),
                    ),
                forall|k: int| i <= k < self.buffer@.len() ==> #[trigger] self.buffer@[k] == old(self).buffer@[k],
            decreases self.buffer@.len() - i,
        {
            let ghost prev = self.buffer@;
            let ghost prev_sets = self.sets();
            self.buffer[i].excluded.insert(bits);
            proof {
                assert(self.buffer@[i as int].events == prev[i as int].events);
                assert(self.buffer@[i as int].events_spec() == prev[i as int].events_spec());
                assert(self.sets()[i as int] == (
                    old(self).sets()[i as int].0,
                    old(self).sets()[i as int].1.insert(bits),
                ));
                assert forall|k: int| 0 <= k < i implies #[trigger] self.sets()[k] == (
                    old(self).sets()[k].0,
                    old(self).sets()[k].1.insert(bits),
                ) by {
                    assert(self.buffer@[k] == prev[k]);
                    assert(prev_sets[k] == (
                        old(self).sets()[k].0,
                        old(self).sets()[k].1.insert(bits),
                    ));
                }
            }
            i = i + 1;
        }
    }

    /// Sends every buffered event to its recipients, oldest set first, and empties the buffer.
    ///
    /// `clients` holds every connected client with its update tick when it is replicated.
    pub fn send_all(&mut self, server: &mut RepliconServer, clients: &[ClientEntry])
        requires
            old(self).wf(),
        ensures
            final(self).wf(),
            final(self).sets().len() == 0,
            final(self).cache_len() == old(self).cache_len() + old(self).sets().len(),
            sent_contents(*final(server)) == if old(server).running_spec() {
                sent_contents(*old(server)) + buffer_sends(old(self).sets(), clients@)
            } else {
                sent_contents(*old(server))
            },
            final(server).running_spec() == old(server).running_spec(),
            final(server).received_spec() == old(server).received_spec(),
    {
        let mut sets: Vec<BufferedServerEventSet> = Vec::new();
        core::mem::swap(&mut sets, &mut self.buffer);
        let ghost views = old(self).sets();
        let ghost start = sent_contents(*server);
        let mut k: usize = 0;
        proof {
            assert(views.take(0) =~= Seq::<(Seq<(SendMode, u8, Seq<u8>)>, Set<u64>)>::empty());
            assert(start + Seq::empty() =~= start);
        }
        while k < sets.len()
            invariant
                k <= sets@.len(),
                sets@.len() == views.len(),
                forall|i: int| 0 <= i < sets@.len() ==> (#[trigger] sets@[i]).wf(),
                forall|i: int|
                    k <= i < sets@.len() ==> ((#[trigger] sets@[i]).events_spec(), sets@[i].excluded_spec())
                        == views[i],
                forall|i: int|
                    0 <= i < k ==> (#[trigger] sets@[i]).events_spec().len() == 0
                        && sets@[i].excluded_spec() == Set::<u64>::empty(),
                self.cache@ == old(self).cache@,
                self.buffer@.len() == 0,
                server.running_spec() == old(server).running_spec(),
                server.received_spec() == old(server).received_spec(),
                start == sent_contents(*old(server)),
                sent_contents(*server) == if old(server).running_spec() {
                    start + buffer_sends(views.take(k as int), clients@)
                } else {
                    start
                },
            decreases sets@.len() - k,
        {
            proof {
                assert(views.take(k + 1).drop_last() =~= views.take(k as int));
                assert(views.take(k + 1).last() == views[k as int]);
            }
            sets[k].send_and_clear(server, clients);
            proof {
                if old(server).running_spec() {
                    assert(sent_contents(*server) =~= start + buffer_sends(views.take(k + 1), clients@));
                }
            }
            k = k + 1;
        }
        proof {
            assert(views.take(views.len() as int) =~= views);
        }
        while sets.len() > 0
            invariant
                forall|i: int|
                    0 <= i < sets@.len() ==> {
                        &&& (#[trigger] sets@[i]).wf()
                        &&& sets@[i].events_spec().len() == 0
                        &&& sets@[i].excluded_spec() == Set::<u64>::empty()
                    },
                self.wf(),
                self.buffer@.len() == 0,
                sets@.len() == old(self).sets().len() - (self.cache@.len() - old(self).cache@.len()),
                self.cache@.len() >= old(self).cache@.len(),
            decreases sets@.len(),
        {
            let set = sets.pop().unwrap();
            self.cache.push(set);
        }
        proof {
            assert(self.sets() =~= Seq::empty());
        }
    }

    /// Drops every buffered event, keeping the emptied sets for reuse.
    pub fn clear(&mut self)
        requires
            old(self).wf(),
        ensures
            final(self).wf(),
            final(self).sets().len() == 0,
            final(self).cache_len() == old(self).cache_len() + old(self).sets().len(),
    {
        while self.buffer.len() > 0
            invariant
                self.wf(),
                self.buffer@.len() + self.cache@.len() == old(self).buffer@.len() + old(self).cache@.len(),
            decreases self.buffer@.len(),
        {
            let mut set = self.buffer.pop().unwrap();
            set.clear();
            self.cache.push(set);
        }
        proof {
            assert(self.sets() =~= Seq::empty());
        }
    }
}

/// The entry [`first_entry`] finds is one of the clients and is for `entity`.
proof fn lemma_first_entry(clients: Seq<ClientEntry>, entity: Entity)
    ensures
        first_entry(clients, entity) matches Some(entry) ==> entry.0 == entity,
    decreases clients.len(),
{
    if clients.len() > 0 && clients[0].0 != entity {
        lemma_first_entry(clients.drop_first(), entity);
    }
}

/// No recipient of a broadcast is excluded.
proof fn lemma_broadcast_skips_excluded(
    clients: Seq<ClientEntry>,
    excluded: Set<u64>,
    except: Option<Entity>,
)
    ensures
        forall|k: int|
            0 <= k < broadcast_recipients(clients, excluded, except).len() ==> !excluded.contains(
                (#[trigger] broadcast_recipients(clients, excluded, except)[k]).0.bits(),
            ),
    decreases clients.len(),
{
    if clients.len() > 0 {
        let earlier = broadcast_recipients(clients.drop_last(), excluded, except);
        lemma_broadcast_skips_excluded(clients.drop_last(), excluded, except);
        let all = broadcast_recipients(clients, excluded, except);
        assert forall|k: int| 0 <= k < all.len() implies !excluded.contains((#[trigger] all[k]).0.bits()) by {
            if k < earlier.len() {
                assert(all[k] == earlier[k]);
            }
        }
    }
}

/// No recipient of a buffered event is excluded.
proof fn lemma_recipients_skip_excluded(mode: SendMode, excluded: Set<u64>, clients: Seq<ClientEntry>)
    ensures
        forall|k: int|
            0 <= k < event_recipients(mode, excluded, clients).len() ==> !excluded.contains(
                (#[trigger] event_recipients(mode, excluded, clients)[k]).0.bits(),
            ),
{
    match mode {
        SendMode::Broadcast => lemma_broadcast_skips_excluded(clients, excluded, None),
        SendMode::BroadcastExcept(entity) => lemma_broadcast_skips_excluded(clients, excluded, Some(entity)),
        SendMode::Direct(entity) => lemma_first_entry(clients, entity),
    }
}

/// A client excluded from a set receives none of its events.
proof fn lemma_set_skips_excluded(
    events: Seq<(SendMode, u8, Seq<u8>)>,
    excluded: Set<u64>,
    clients: Seq<ClientEntry>,
    client: Entity,
)
    requires
        excluded.contains(client.bits()),
    ensures
        forall|k: int|
            0 <= k < set_sends(events, excluded, clients).len() ==> (#[trigger] set_sends(
                events,
                excluded,
                clients,
            )[k]).0 != client,
    decreases events.len(),
{
    if events.len() > 0 {
        let (mode, channel, event) = events.last();
        let earlier = set_sends(events.drop_last(), excluded, clients);
        let recipients = event_recipients(mode, excluded, clients);
        let sends = event_sends(recipients, channel, event);
        lemma_set_skips_excluded(events.drop_last(), excluded, clients, client);
        lemma_recipients_skip_excluded(mode, excluded, clients);
        assert forall|k: int| 0 <= k < sends.len() implies (#[trigger] sends[k]).0 != client by {
            assert(sends[k].0 == recipients[k].0);
        }
        assert forall|k: int| 0 <= k < set_sends(events, excluded, clients).len() implies (
        #[trigger] set_sends(events, excluded, clients)[k]).0 != client by {
            if k < earlier.len() {
                assert(set_sends(events, excluded, clients)[k] == earlier[k]);
            } else {
                assert(set_sends(events, excluded, clients)[k] == sends[k - earlier.len()]);
            }
        }
    }
}

/// A client excluded from every buffered set, as [`BufferedServerEvents::exclude_client`]
/// does for a client that has just connected, receives none of the buffered events when
/// they are sent.
pub proof fn lemma_excluded_client_receives_nothing(
    sets: Seq<(Seq<(SendMode, u8, Seq<u8>)>, Set<u64>)>,
    clients: Seq<ClientEntry>,
    client: Entity,
)
    requires
        forall|i: int| 0 <= i < sets.len() ==> (#[trigger] sets[i]).1.contains(client.bits()),
    ensures
        forall|k: int|
            0 <= k < buffer_sends(sets, clients).len() ==> (#[trigger] buffer_sends(sets, clients)[k]).0
                != client,
    decreases sets.len(),
{
    if sets.len() > 0 {
        let rest = sets.drop_last();
        assert forall|i: int| 0 <= i < rest.len() implies (#[trigger] rest[i]).1.contains(client.bits()) by {
            assert(rest[i] == sets[i]);
        }
        lemma_excluded_client_receives_nothing(rest, clients, client);
        assert(sets[sets.len() - 1] == sets.last());
        lemma_set_skips_excluded(sets.last().0, sets.last().1, clients, client);
        let earlier = buffer_sends(rest, clients);
        let last = set_sends(sets.last().0, sets.last().1, clients);
        assert forall|k: int| 0 <= k < buffer_sends(sets, clients).len() implies (
        #[trigger] buffer_sends(sets, clients)[k]).0 != client by {
            if k < earlier.len() {
                assert(buffer_sends(sets, clients)[k] == earlier[k]);
            } else {
                assert(buffer_sends(sets, clients)[k] == last[k - earlier.len()]);
            }
        }
    }
}

impl Default for BufferedServerEvents {
    fn default() -> (value: Self)
        ensures
            value.wf(),
            value.sets().len() == 0,
    {
        Self::new()
    }
}

} // verus!
