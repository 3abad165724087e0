use bytes::Bytes;
use ordered_multimap::ListOrderedMultimap;
use vstd::prelude::*;

use crate::message_bytes::{bytes_clone, bytes_content, bytes_from_vec};
use crate::replicon_tick::{tick_order, RepliconTick};

verus! {

/// Multimaps of the `ordered_multimap` crate, carried as opaque values.
#[verifier::external_type_specification]
#[verifier::external_body]
#[verifier::reject_recursive_types(Key)]
#[verifier::reject_recursive_types(Value)]
#[verifier::reject_recursive_types(State)]
pub struct ExListOrderedMultimap<Key, Value, State>(ListOrderedMultimap<Key, Value, State>);

/// The key-value pairs of a multimap of ticks and messages, in insertion order, each message
/// by its bytes.
pub uninterp spec fn multimap_entries(map: ListOrderedMultimap<u32, Bytes>) -> Seq<(u32, Seq<u8>)>;

/// Calls `ListOrderedMultimap::new`: an empty multimap.
#[verifier::external_body]
fn multimap_new() -> (map: ListOrderedMultimap<u32, Bytes>)
    ensures
        multimap_entries(map).len() == 0,
{
    ListOrderedMultimap::new()
}

/// Calls `ListOrderedMultimap::append`: the pair goes after every pair already held, also
/// when the key is already there.
#[verifier::external_body]
fn multimap_append(map: &mut ListOrderedMultimap<u32, Bytes>, key: u32, value: Bytes)
    ensures
        multimap_entries(*final(map)) == multimap_entries(*old(map)).push((key, bytes_content(value))),
{
    map.append(key, value);
}

/// Calls `ListOrderedMultimap::front` and copies the key: the key of the oldest pair.
#[verifier::external_body]
fn multimap_front_key(map: &ListOrderedMultimap<u32, Bytes>) -> (key: Option<u32>)
    ensures
        multimap_entries(*map).len() == 0 ==> key is None,
        multimap_entries(*map).len() > 0 ==> key == Some(multimap_entries(*map)[0].0),
{
    match map.front() {
        Some((key, _)) => Some(*key),
        None => None,
    }
}

/// Calls `ListOrderedMultimap::pop_front`: removes and returns the oldest pair.
#[verifier::external_body]
fn multimap_pop_front(map: &mut ListOrderedMultimap<u32, Bytes>) -> (pair: Option<(u32, Bytes)>)
    ensures
        multimap_entries(*old(map)).len() == 0 ==> pair is None && multimap_entries(*final(map))
            == multimap_entries(*old(map)),
        multimap_entries(*old(map)).len() > 0 ==> {
            &&& pair is Some
            &&& (pair->Some_0.0, bytes_content(pair->Some_0.1)) == multimap_entries(*old(map))[0]
            &&& multimap_entries(*final(map)) == multimap_entries(*old(map)).drop_first()
        },
{
    match map.pop_front() {
        Some((key, value)) => Some((key.into_owned(), value)),
        None => None,
    }
}

/// Calls `ListOrderedMultimap::clear`: removes every pair.
#[verifier::external_body]
fn multimap_clear(map: &mut ListOrderedMultimap<u32, Bytes>)
    ensures
        multimap_entries(*final(map)).len() == 0,
{
    map.clear();
}

/// Calls `ListOrderedMultimap::values_len`: the number of pairs.
#[verifier::external_body]
fn multimap_values_len(map: &ListOrderedMultimap<u32, Bytes>) -> (len: usize)
    ensures
        len == multimap_entries(*map).len(),
{
    map.values_len()
}

/// An empty buffer, standing where a message cannot be.
fn message_placeholder() -> (bytes: Bytes)
    ensures
        bytes_content(bytes).len() == 0,
{
    bytes_from_vec(Vec::new())
}

/// Whether the tick with value `a` is not newer than the tick with value `b`.
pub open spec fn tick_le(a: u32, b: u32) -> bool {
    tick_order(a, b) != core::cmp::Ordering::Greater
}

/// How many of the oldest queued messages are due at `tick`: the longest run from the front
/// whose ticks are not newer than `tick`.
pub open spec fn due_count(entries: Seq<(u32, Seq<u8>)>, tick: u32) -> nat
    decreases entries.len(),
{
    if entries.len() == 0 {
        0
    } else if tick_le(entries[0].0, tick) {
        1 + due_count(entries.drop_first(), tick)
    } else {
        0
    }
}

/// The messages [`ServerEventQueue::pop_if_le`] hands out before it stops are exactly the
/// due ones: each of them has a tick not newer than `tick`, and the first one left, if any,
/// has a newer tick.
pub proof fn lemma_due_count(entries: Seq<(u32, Seq<u8>)>, tick: u32)
    ensures
        due_count(entries, tick) <= entries.len(),
        forall|i: int| 0 <= i < due_count(entries, tick) ==> tick_le(#[trigger] entries[i].0, tick),
        due_count(entries, tick) < entries.len() ==> !tick_le(entries[due_count(entries, tick) as int].0, tick),
    decreases entries.len(),
{
    if entries.len() > 0 && tick_le(entries[0].0, tick) {
        let rest = entries.drop_first();
        lemma_due_count(rest, tick);
        assert forall|i: int| 0 <= i < due_count(entries, tick) implies tick_le(#[trigger] entries[i].0, tick) by {
            if i > 0 {
                assert(entries[i] == rest[i - 1]);
            }
        }
        if due_count(entries, tick) < entries.len() {
            assert(entries[due_count(entries, tick) as int] == rest[due_count(rest, tick) as int]);
        }
    }
}

/// Where a message with `tick` goes in a queue sorted by tick: before the first queued
/// message with a newer tick, so after every message with a tick that is not newer.
pub open spec fn sorted_position(entries: Seq<(u32, Seq<u8>)>, tick: u32) -> int
    decreases entries.len(),
{
    if entries.len() == 0 || !tick_le(entries[0].0, tick) {
        0
    } else {
        1 + sorted_position(entries.drop_first(), tick)
    }
}

/// The messages before the sorted position have ticks that are not newer than `tick`, and
/// the one at it, if any, has a newer tick.
pub proof fn lemma_sorted_position(entries: Seq<(u32, Seq<u8>)>, tick: u32)
    ensures
        0 <= sorted_position(entries, tick) <= entries.len(),
        forall|i: int| 0 <= i < sorted_position(entries, tick) ==> tick_le(#[trigger] entries[i].0, tick),
        sorted_position(entries, tick) < entries.len() ==> !tick_le(
            entries[sorted_position(entries, tick)].0,
            tick,
        ),
    decreases entries.len(),
{
    if entries.len() > 0 && tick_le(entries[0].0, tick) {
        let rest = entries.drop_first();
        lemma_sorted_position(rest, tick);
        assert forall|i: int| 0 <= i < sorted_position(entries, tick) implies tick_le(
            #[trigger] entries[i].0,
            tick,
        ) by {
            if i > 0 {
                assert(entries[i] == rest[i - 1]);
            }
        }
        if sorted_position(entries, tick) < entries.len() {
            assert(entries[sorted_position(entries, tick)] == rest[sorted_position(rest, tick)]);
        }
    }
}

/// Whether each queued message's tick is not newer than the next one's.
pub open spec fn queue_sorted(entries: Seq<(u32, Seq<u8>)>) -> bool {
    forall|i: int| 0 <= i < entries.len() - 1 ==> tick_le(#[trigger] entries[i].0, entries[i + 1].0)
}

/// A tick newer than another is not older than it.
pub proof fn lemma_newer_not_older(a: u32, b: u32)
    requires
        !tick_le(a, b),
    ensures
        tick_le(b, a),
{
    assert(crate::replicon_tick::wrapping_sub_u32(a, b) > 0);
    assert(crate::replicon_tick::wrapping_sub_u32(a, b) <= u32::MAX / 2);
    assert(crate::replicon_tick::wrapping_sub_u32(b, a) > u32::MAX / 2);
}

/// Inserting a message at its sorted position keeps a sorted queue sorted.
pub proof fn lemma_insert_keeps_sorted(entries: Seq<(u32, Seq<u8>)>, tick: u32, content: Seq<u8>)
    requires
        queue_sorted(entries),
    ensures
        queue_sorted(entries.insert(sorted_position(entries, tick), (tick, content))),
{
    lemma_sorted_position(entries, tick);
    let p = sorted_position(entries, tick);
    let result = entries.insert(p, (tick, content));
    if p < entries.len() {
        lemma_newer_not_older(entries[p].0, tick);
    }
    assert forall|i: int| 0 <= i < result.len() - 1 implies tick_le(#[trigger] result[i].0, result[i + 1].0) by {
        if i < p - 1 {
            assert(result[i] == entries[i] && result[i + 1] == entries[i + 1]);
        } else if i == p - 1 {
            assert(result[i] == entries[i] && result[i + 1] == (tick, content));
        } else if i == p {
            assert(result[i + 1] == entries[p]);
        } else {
            assert(result[i] == entries[i - 1] && result[i + 1] == entries[i]);
        }
    }
}

/// Byte buffers with their ticks, by their contents.
pub open spec fn held_contents(held: Seq<(u32, Bytes)>) -> Seq<(u32, Seq<u8>)> {
    held.map_values(|p: (u32, Bytes)| (p.0, bytes_content(p.1)))
}

/// Messages received from the server ahead of the replication message with their tick.
///
/// Messages are kept sorted by tick, and in order of arrival among equal ticks, so that a
/// message is applied only once everything it refers to exists.
pub struct ServerEventQueue {
    entries: ListOrderedMultimap<u32, Bytes>,
}

impl ServerEventQueue {
    /// The queued messages, oldest first, with the values of their ticks.
    pub closed spec fn entries_spec(&self) -> Seq<(u32, Seq<u8>)> {
        multimap_entries(self.entries)
    }

    /// An empty queue.
    pub fn new() -> (queue: Self)
        ensures
            queue.entries_spec().len() == 0,
    {
        ServerEventQueue { entries: multimap_new() }
    }

    /// Queues a message until the update tick reaches `tick`, keeping the queue sorted by
    /// tick: the message goes after every queued message whose tick is not newer, and before
    /// the first one whose tick is newer.
    pub fn insert(&mut self, tick: RepliconTick, message: Bytes)
        ensures
            final(self).entries_spec() == old(self).entries_spec().insert(
                sorted_position(old(self).entries_spec(), tick@),
                (tick@, bytes_content(message)),
            ),
    {
        let ghost all = self.entries_spec();
        let ghost new_entry = (tick@, bytes_content(message));
        let ghost pos = sorted_position(all, tick@);
        proof {
            lemma_sorted_position(all, tick@);
        }
        let count = multimap_values_len(&self.entries);
        let mut held: Vec<(u32, Bytes)> = Vec::new();
        let mut i: usize = 0;
        proof {
            assert(all.skip(0) =~= all);
            assert(held_contents(held@) =~= all.take(0));
        }
        while i < count
            invariant
                i <= count,
                count == all.len(),
                self.entries_spec() == all.skip(i as int),
                held_contents(held@) == all.take(i as int),
                held@.len() == i,
            decreases count - i,
        {
            let ghost before = held@;
            match multimap_pop_front(&mut self.entries) {
                Some(pair) => {
                    held.push(pair);
                },
                None => {
                    held.push((0, message_placeholder()));
                },
            }
            proof {
                assert(all.skip(i as int)[0] == all[i as int]);
                assert(all.skip(i as int).drop_first() =~= all.skip(i + 1));
                assert(held_contents(held@) =~= held_contents(before).push(held_contents(held@)[i as int]));
                assert(all.take(i + 1) =~= all.take(i as int).push(all[i as int]));
            }
            i = i + 1;
        }
        proof {
            assert(all.take(count as int) =~= all);
            assert(self.entries_spec().len() == 0);
        }
        let mut placed = false;
        let mut k: usize = 0;
        let mut rest = held;
        proof {
            assert(held_contents(rest@) =~= all.skip(0));
            assert(self.entries_spec() =~= all.take(0));
        }
        while k < count
            invariant
                k <= count,
                count == all.len(),
                0 <= pos <= all.len(),
                forall|j: int| 0 <= j < pos ==> tick_le(#[trigger] all[j].0, tick@),
                pos < all.len() ==> !tick_le(all[pos].0, tick@),
                new_entry == (tick@, bytes_content(message)),
                held_contents(rest@) == all.skip(k as int),
                rest@.len() == count - k,
                placed == (pos < k),
                placed ==> self.entries_spec() == all.take(pos).push(new_entry) + all.subrange(pos, k as int),
                !placed ==> self.entries_spec() == all.take(k as int),
            decreases count - k,
        {
            let ghost old_rest = rest@;
            let (entry_tick, entry_message) = rest.remove(0);
            proof {
                assert(held_contents(old_rest)[0] == all.skip(k as int)[0]);
                assert(all.skip(k as int)[0] == all[k as int]);
                assert(old_rest[0].0 == held_contents(old_rest)[0].0);
                assert(held_contents(rest@) =~= held_contents(old_rest).drop_first());
                assert(all.skip(k as int).drop_first() =~= all.skip(k + 1));
                assert(held_contents(rest@) =~= all.skip(k + 1));
                assert(bytes_content(entry_message) == all[k as int].1);
                assert(entry_tick == all[k as int].0);
            }
            if !placed && RepliconTick::new(entry_tick) > tick {
                let ghost before = self.entries_spec();
                multimap_append(&mut self.entries, tick.get(), bytes_clone(&message));
                placed = true;
                proof {
                    assert(k as int == pos);
                }
            }
            multimap_append(&mut self.entries, entry_tick, entry_message);
            proof {
                if placed {
                    assert(all.subrange(pos, k + 1) =~= all.subrange(pos, k as int).push(all[k as int]));
                    assert(self.entries_spec() =~= all.take(pos).push(new_entry) + all.subrange(pos, k + 1));
                } else {
                    assert(all.take(k + 1) =~= all.take(k as int).push(all[k as int]));
                }
            }
            k = k + 1;
        }
        if !placed {
            multimap_append(&mut self.entries, tick.get(), message);
            proof {
                assert(pos == all.len());
                assert(self.entries_spec() =~= all.insert(pos, new_entry));
            }
        } else {
            proof {
                assert(all.subrange(pos, all.len() as int) =~= all.skip(pos));
                assert(self.entries_spec() =~= all.insert(pos, new_entry));
            }
        }
    }

    /// Pops the oldest message if its tick is not newer than `update_tick`.
    pub fn pop_if_le(&mut self, update_tick: RepliconTick) -> (popped: Option<(RepliconTick, Bytes)>)
        ensures
            (old(self).entries_spec().len() > 0 && tick_le(old(self).entries_spec()[0].0, update_tick@))
                ==> {
                &&& popped is Some
                &&& (popped->Some_0.0@, bytes_content(popped->Some_0.1)) == old(self).entries_spec()[0]
                &&& final(self).entries_spec() == old(self).entries_spec().drop_first()
            },
            !(old(self).entries_spec().len() > 0 && tick_le(old(self).entries_spec()[0].0, update_tick@))
                ==> popped is None && final(self).entries_spec() == old(self).entries_spec(),
    {
        let front = multimap_front_key(&self.entries);
        let tick = match front {
            Some(tick) => RepliconTick::new(tick),
            None => {
                return None;
            },
        };
        if tick > update_tick {
            return None;
        }
        match multimap_pop_front(&mut self.entries) {
            Some((value, message)) => Some((RepliconTick::new(value), message)),
            None => None,
        }
    }

    /// Removes every queued message.
    pub fn clear(&mut self)
        ensures
            final(self).entries_spec().len() == 0,
    {
        multimap_clear(&mut self.entries);
    }

    /// Whether no message is queued.
    pub fn is_empty(&self) -> (empty: bool)
        ensures
            empty == (self.entries_spec().len() == 0),
    {
        multimap_values_len(&self.entries) == 0
    }

    /// The number of queued messages.
    pub fn len(&self) -> (len: usize)
        ensures
            len == self.entries_spec().len(),
    {
        multimap_values_len(&self.entries)
    }
}

impl Default for ServerEventQueue {
    fn default() -> (value: Self)
        ensures
            value.entries_spec().len() == 0,
    {
        Self::new()
    }
}

} // verus!
