use bevy::ecs::component::Tick;
use bytes::Bytes;
use vstd::prelude::*;

use crate::client_ticks::{acked_ticks, ClientTicks, EntityBuffer, MutateInfo};
use crate::entity::Entity;
use crate::message_bytes::{bytes_as_slice, bytes_content};
use crate::mutate_index::MutateIndex;
use crate::replicon_server::RepliconServer;

verus! {

broadcast use vstd::seq_lib::group_seq_properties;

/// The mutate indices an acknowledgement message holds: each a little-endian `u16` of two
/// bytes.
pub open spec fn ack_indices(bytes: Seq<u8>) -> Seq<u16> {
    Seq::new(bytes.len() / 2, |i: int| (bytes[2 * i] + 256 * bytes[2 * i + 1]) as u16)
}

/// A client's mutation ticks and unacknowledged messages.
pub open spec fn ack_state(ticks: ClientTicks) -> (Map<u64, Tick>, Map<u16, MutateInfo>) {
    (ticks.ticks_map(), ticks.mutations_map())
}

/// What acknowledging `index` while the current tick is `this_run` does to a client's
/// mutation ticks and unacknowledged messages, as [`ClientTicks::ack_mutate_message`] does it.
pub open spec fn ack_step(
    state: (Map<u64, Tick>, Map<u16, MutateInfo>),
    index: u16,
    this_run: Tick,
) -> (Map<u64, Tick>, Map<u16, MutateInfo>) {
    if state.1.contains_key(index) {
        (
            acked_ticks(state.0, state.1[index].entities@, state.1[index].tick, this_run),
            state.1.remove(index),
        )
    } else {
        state
    }
}

/// Acknowledging every index of `indices`, in order.
pub open spec fn ack_all(
    state: (Map<u64, Tick>, Map<u16, MutateInfo>),
    indices: Seq<u16>,
    this_run: Tick,
) -> (Map<u64, Tick>, Map<u16, MutateInfo>)
    decreases indices.len(),
{
    if indices.len() == 0 {
        state
    } else {
        ack_step(ack_all(state, indices.drop_last(), this_run), indices.last(), this_run)
    }
}

/// The indices `client` acknowledged in `messages`, in order.
pub open spec fn client_acks(messages: Seq<(Entity, Seq<u8>)>, client: Entity) -> Seq<u16>
    decreases messages.len(),
{
    if messages.len() == 0 {
        Seq::empty()
    } else {
        let earlier = client_acks(messages.drop_last(), client);
        if messages.last().0 == client {
            earlier + ack_indices(messages.last().1)
        } else {
            earlier
        }
    }
}

/// Received messages by their sender and contents.
pub open spec fn message_contents(messages: Seq<(Entity, Bytes)>) -> Seq<(Entity, Seq<u8>)> {
    messages.map_values(|m: (Entity, Bytes)| (m.0, bytes_content(m.1)))
}

/// Reads the mutate indices of an acknowledgement message; a trailing odd byte is not read.
pub fn read_mutate_indices(message: &[u8]) -> (indices: Vec<MutateIndex>)
    ensures
        indices@.map_values(|index: MutateIndex| index.0) == ack_indices(message@),
{
    let mut indices: Vec<MutateIndex> = Vec::new();
    let len = message.len();
    let count = len / 2;
    let mut i: usize = 0;
    while i < count
        invariant
            i <= count,
            len == message@.len(),
            count == len / 2,
            count * 2 <= len,
            indices@.map_values(|index: MutateIndex| index.0) == ack_indices(message@).take(i as int),
        decreases count - i,
    {
        let low = message[2 * i] as u16;
        let high = message[2 * i + 1] as u16;
        let value = low + 256 * high;
        let ghost before = indices@;
        indices.push(MutateIndex(value));
        proof {
            assert(indices@.map_values(|index: MutateIndex| index.0) =~= before.map_values(
                |index: MutateIndex| index.0,
            ).push(value));
            assert(ack_indices(message@)[i as int] == value);
            assert(ack_indices(message@).take(i + 1) =~= ack_indices(message@).take(i as int).push(
                value,
            ));
        }
        i = i + 1;
        proof {
            assert(indices@.map_values(|index: MutateIndex| index.0) =~= ack_indices(message@).take(
                i as int,
            ));
        }
    }
    proof {
        assert(ack_indices(message@).take(count as int) =~= ack_indices(message@));
    }
    indices
}

/// Acknowledging `a` and then `b` is acknowledging `a + b`.
proof fn lemma_ack_all_concat(
    state: (Map<u64, Tick>, Map<u16, MutateInfo>),
    a: Seq<u16>,
    b: Seq<u16>,
    this_run: Tick,
)
    ensures
        ack_all(state, a + b, this_run) == ack_all(ack_all(state, a, this_run), b, this_run),
    decreases b.len(),
{
    if b.len() == 0 {
        assert(a + b =~= a);
    } else {
        lemma_ack_all_concat(state, a, b.drop_last(), this_run);
        assert((a + b).drop_last() =~= a + b.drop_last());
        assert((a + b).last() == b.last());
    }
}

/// Acknowledges every index of `indices`, in order.
fn ack_each(
    ticks: &mut ClientTicks,
    entity_buffer: &mut EntityBuffer,
    tick: Tick,
    indices: &[MutateIndex],
)
    ensures
        ack_state(*final(ticks)) == ack_all(
            ack_state(*old(ticks)),
            indices@.map_values(|index: MutateIndex| index.0),
            tick,
        ),
        final(ticks).next_index() == old(ticks).next_index(),
        final(ticks).update_tick_spec() == old(ticks).update_tick_spec(),
{
    let ghost acked = indices@.map_values(|index: MutateIndex| index.0);
    let mut m: usize = 0;
    proof {
        assert(acked.take(0) =~= Seq::<u16>::empty());
    }
    while m < indices.len()
        invariant
            m <= indices@.len(),
            acked == indices@.map_values(|index: MutateIndex| index.0),
            ack_state(*ticks) == ack_all(ack_state(*old(ticks)), acked.take(m as int), tick),
            ticks.next_index() == old(ticks).next_index(),
            ticks.update_tick_spec() == old(ticks).update_tick_spec(),
        decreases indices@.len() - m,
    {
        proof {
            assert(acked.take(m + 1).drop_last() =~= acked.take(m as int));
            assert(acked.take(m + 1).last() == indices@[m as int].0);
        }
        ticks.ack_mutate_message(entity_buffer, tick, indices[m]);
        m = m + 1;
    }
    proof {
        assert(acked.take(indices@.len() as int) =~= acked);
    }
}

/// Applies the acknowledgements clients sent on `channel_id`: each message holds mutate
/// indices of its sender, which are acknowledged in order while the current tick is `tick`.
/// Messages from clients that are not in `clients` are ignored.
///
/// Each index takes two bytes; a trailing odd byte of a message is not read.
pub fn receive_acks(
    server: &mut RepliconServer,
    channel_id: usize,
    clients: &mut Vec<(Entity, ClientTicks)>,
    entity_buffer: &mut EntityBuffer,
    tick: Tick,
)
    requires
        channel_id < old(server).received_spec().len(),
        forall|i: int, j: int|
            0 <= i < j < old(clients)@.len() ==> old(clients)@[i].0 != old(clients)@[j].0,
    ensures
        final(server).received_spec() == old(server).received_spec().update(
            channel_id as int,
            Seq::<(Entity, Bytes)>::empty(),
        ),
        final(server).sent_spec() == old(server).sent_spec(),
        final(server).running_spec() == old(server).running_spec(),
        final(clients)@.len() == old(clients)@.len(),
        forall|i: int|
            0 <= i < old(clients)@.len() ==> {
                &&& (#[trigger] final(clients)@[i]).0 == old(clients)@[i].0
                &&& ack_state(final(clients)@[i].1) == ack_all(
                    ack_state(old(clients)@[i].1),
                    client_acks(
                        message_contents(old(server).received_spec()[channel_id as int]),
                        old(clients)@[i].0,
                    ),
                    tick,
                )
                &&& final(clients)@[i].1.next_index() == old(clients)@[i].1.next_index()
                &&& final(clients)@[i].1.update_tick_spec() == old(clients)@[i].1.update_tick_spec()
            },
{
    let messages = server.receive(channel_id);
    let ghost views = message_contents(messages@);
    let mut k: usize = 0;
    proof {
        assert(views.take(0) =~= Seq::<(Entity, Seq<u8>)>::empty());
    }
    while k < messages.len()
        invariant
            k <= messages@.len(),
            views == message_contents(messages@),
            views.len() == messages@.len(),
            clients@.len() == old(clients)@.len(),
            forall|i: int, j: int| 0 <= i < j < clients@.len() ==> clients@[i].0 != clients@[j].0,
            forall|i: int|
                0 <= i < clients@.len() ==> {
                    &&& (#[trigger] clients@[i]).0 == old(clients)@[i].0
                    &&& ack_state(clients@[i].1) == ack_all(
                        ack_state(old(clients)@[i].1),
                        client_acks(views.take(k as int), clients@[i].0),
                        tick,
                    )
                    &&& clients@[i].1.next_index() == old(clients)@[i].1.next_index()
                    &&& clients@[i].1.update_tick_spec() == old(clients)@[i].1.update_tick_spec()
                },
        decreases messages@.len() - k,
    {
        let sender = messages[k].0;
        let ghost prefix = views.take(k + 1);
        proof {
            assert(prefix.drop_last() =~= views.take(k as int));
            assert(prefix.last() == views[k as int]);
            assert(views[k as int].0 == sender);
        }
        let mut j: usize = 0;
        while j < clients.len() && clients[j].0 != sender
            invariant
                j <= clients@.len(),
                forall|i: int| 0 <= i < j ==> (#[trigger] clients@[i]).0 != sender,
            decreases clients@.len() - j,
        {
            j = j + 1;
        }
        if j < clients.len() {
            let indices = read_mutate_indices(bytes_as_slice(&messages[k].1));
            let ghost acked = indices@.map_values(|index: MutateIndex| index.0);
            let ghost earlier = client_acks(views.take(k as int), sender);
            let ghost start = clients@;
            proof {
                lemma_ack_all_concat(ack_state(old(clients)@[j as int].1), earlier, acked, tick);
            }
            ack_each(&mut clients[j].1, entity_buffer, tick, indices.as_slice());
            proof {
                assert forall|i: int| 0 <= i < clients@.len() && i != j implies #[trigger] clients@[i]
                    == start[i] by {}
            }
            proof {
                assert(acked == ack_indices(views[k as int].1));
                assert(client_acks(prefix, sender) == earlier + acked);
                assert forall|i: int| 0 <= i < clients@.len() implies {
                    &&& (#[trigger] clients@[i]).0 == old(clients)@[i].0
                    &&& ack_state(clients@[i].1) == ack_all(
                        ack_state(old(clients)@[i].1),
                        client_acks(prefix, clients@[i].0),
                        tick,
                    )
                    &&& clients@[i].1.next_index() == old(clients)@[i].1.next_index()
                    &&& clients@[i].1.update_tick_spec() == old(clients)@[i].1.update_tick_spec()
                } by {
                    if i != j {
                        assert(clients@[i] == start[i]);
                        assert(start[i].0 != sender);
                        assert(client_acks(prefix, clients@[i].0) == client_acks(
                            views.take(k as int),
                            clients@[i].0,
                        ));
                    }
                }
            }
        } else {
            proof {
                assert forall|i: int| 0 <= i < clients@.len() implies client_acks(
                    prefix,
                    #[trigger] clients@[i].0,
                ) == client_acks(views.take(k as int), clients@[i].0) by {
                    assert(clients@[i].0 != sender);
                }
            }
        }
        k = k + 1;
    }
    proof {
        assert(views.take(views.len() as int) =~= views);
    }
}

} // verus!
