use vstd::prelude::*;

use crate::event_channel::{ClientEvent, ServerEvent};

verus! {

/// Registered network events.
pub struct EventRegistry {
    server: Vec<ServerEvent>,
    client: Vec<ClientEvent>,
}

impl EventRegistry {
    /// The registered server events, in order of registration.
    pub closed spec fn server_spec(&self) -> Seq<ServerEvent> {
        self.server@
    }

    /// The registered client events, in order of registration.
    pub closed spec fn client_spec(&self) -> Seq<ClientEvent> {
        self.client@
    }

    /// No event.
    pub fn new() -> (registry: Self)
        ensures
            registry.server_spec().len() == 0,
            registry.client_spec().len() == 0,
    {
        EventRegistry { server: Vec::new(), client: Vec::new() }
    }

    /// Registers a server event.
    pub fn register_server_event(&mut self, event: ServerEvent)
        ensures
            final(self).server_spec() == old(self).server_spec().push(event),
            final(self).client_spec() == old(self).client_spec(),
    {
        self.server.push(event);
    }

    /// Registers a client event.
    pub fn register_client_event(&mut self, event: ClientEvent)
        ensures
            final(self).client_spec() == old(self).client_spec().push(event),
            final(self).server_spec() == old(self).server_spec(),
    {
        self.client.push(event);
    }

    /// Marks the first server event stored under `events_id` as independent.
    ///
    /// The event must have been registered.
    pub fn make_independent(&mut self, events_id: usize)
        requires
            exists|i: int|
                0 <= i < old(self).server_spec().len() && (#[trigger] old(self).server_spec()[i]).events_id_spec()
                    == events_id,
        ensures
            final(self).client_spec() == old(self).client_spec(),
            final(self).server_spec().len() == old(self).server_spec().len(),
            exists|i: int|
                0 <= i < old(self).server_spec().len() && (#[trigger] old(self).server_spec()[i]).events_id_spec()
                    == events_id && (forall|k: int|
                    0 <= k < i ==> old(self).server_spec()[k].events_id_spec() != events_id) && {
                    let event = final(self).server_spec()[i];
                    &&& event.independent_spec()
                    &&& event.events_id_spec() == events_id
                    &&& event.channel_spec() == old(self).server_spec()[i].channel_spec()
                } && (forall|k: int|
                    0 <= k < old(self).server_spec().len() && k != i ==> final(self).server_spec()[k]
                        == old(self).server_spec()[k]),
    {
        let mut i: usize = 0;
        while i < self.server.len() && self.server[i].events_id() != events_id
            invariant
                i <= self.server@.len(),
                self.server@ == old(self).server@,
                forall|k: int| 0 <= k < i ==> (#[trigger] self.server@[k]).events_id_spec() != events_id,
            decreases self.server@.len() - i,
        {
            i = i + 1;
        }
        if i < self.server.len() {
            self.server[i].make_independent();
            proof {
                assert(old(self).server_spec()[i as int].events_id_spec() == events_id);
                assert forall|k: int|
                    0 <= k < old(self).server_spec().len() && k != i implies self.server_spec()[k]
                        == old(self).server_spec()[k] by {}
            }
        } else {
            proof {
                let w = choose|w: int|
                    0 <= w < old(self).server_spec().len() && (#[trigger] old(self).server_spec()[w]).events_id_spec()
                        == events_id;
                assert(self.server@[w].events_id_spec() != events_id);
            }
        }
    }

    /// The registered server events.
    pub fn iter_server_events(&self) -> (events: &[ServerEvent])
        ensures
            events@ == self.server_spec(),
    {
        self.server.as_slice()
    }

    /// The registered client events.
    pub fn iter_client_events(&self) -> (events: &[ClientEvent])
        ensures
            events@ == self.client_spec(),
    {
        self.client.as_slice()
    }
}

} // verus!
