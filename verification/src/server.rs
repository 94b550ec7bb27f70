//! The orchestrator: the configuration, the directory and the table of all
//! connections, and the dispatch of events to the slot they belong to.
//!
//! The embedding program owns the sockets. It calls `accept` when the
//! listener has a new client, `handle` with what happened on a socket, and
//! does what the reaction says: open a backend connection, or close both
//! sockets of a connection that has been torn down.

use vstd::prelude::*;
use crate::config::Config;
use crate::directory::{BackendEndpoint, Directory};
use crate::handshake::ENVELOPE_LEN;
use crate::relay::{settled, Event, Phase, Side, Slot};
use crate::table::{Table, TableView};

verus! {

/// What the embedding program has to do after an event.
#[derive(Clone, Copy, Debug, PartialEq, Eq, Structural)]
pub struct Reaction {
    /// Open a connection to this backend for the slot.
    pub connect: Option<BackendEndpoint>,
    /// The slot has been torn down and released: close both its sockets.
    pub torn_down: bool,
}

/// The relay as a whole.
pub struct Server {
    config: Config,
    directory: Directory,
    table: Table,
}

impl Server {
    /// The table of the server.
    pub closed spec fn slots(&self) -> TableView {
        self.table@
    }

    /// The directory of the server.
    pub closed spec fn known(&self) -> Map<i16, BackendEndpoint> {
        self.directory@
    }

    /// The configuration of the server.
    pub closed spec fn configuration(&self) -> Config {
        self.config
    }

    /// The validity of a server: that of its table.
    pub open spec fn wf(&self) -> bool {
        self.slots().sound()
    }

    /// A server without connections, for at most `limit` of them.
    pub fn new(config: Config, directory: Directory, limit: usize) -> (server: Server)
        ensures
            server.wf(),
            server.slots().entries == Map::<usize, Slot>::empty(),
            server.slots().free == Seq::<usize>::empty(),
            server.slots().limit == if limit <= crate::table::MAX_SLOTS {
                limit as nat
            } else {
                crate::table::MAX_SLOTS as nat
            },
            server.known() == directory@,
            server.configuration() == config,
    {
        Server { config, directory, table: Table::new(limit) }
    }

    /// The configuration.
    pub fn config(&self) -> (config: &Config)
        ensures
            *config == self.configuration(),
    {
        &self.config
    }

    /// How many connections there are.
    pub fn connections(&self) -> (n: usize)
        ensures
            n == self.slots().entries.dom().len(),
    {
        self.table.len()
    }

    /// The slot under `key`, if the key is in use.
    pub fn slot(&self, key: usize) -> (found: Option<&Slot>)
        ensures
            found is Some == self.slots().entries.contains_key(key),
            found matches Some(slot) ==> *slot == self.slots().entries[key],
    {
        self.table.get(key)
    }

    /// Seeds the slot of a client that the listener accepted at `now` and
    /// hands out its key, or `None` when the table is at its limit: the
    /// client is then to be turned away.
    pub fn accept(&mut self, now: u64) -> (key: Option<usize>)
        requires
            old(self).wf(),
        ensures
            final(self).wf(),
            final(self).known() == old(self).known(),
            final(self).configuration() == old(self).configuration(),
            key is Some == old(self).slots().has_room(),
            key matches Some(k) ==> {
                let after = final(self).slots();
                &&& k == old(self).slots().next_key()
                &&& after.entries.contains_key(k)
                &&& after == old(self).slots().after_allocate(after.entries[k])
                &&& after.entries[k]@ == Slot::fresh_view(&old(self).configuration().tuning(), now)
            },
            key is None ==> final(self).slots() == old(self).slots(),
    {
        self.table.allocate(self.config.settings(), now)
    }

    /// Hands an event to the slot under `key`, lets the frames move that
    /// can, and tears the slot down and releases its key if the connection
    /// is over and nothing is left to write.
    ///
    /// An event for a key that is not in use changes nothing: it is a stale
    /// event for a connection that is gone.
    pub fn handle(&mut self, key: usize, side: Side, event: &Event, now: u64) -> (reaction: Reaction)
        requires
            old(self).wf(),
        ensures
            final(self).wf(),
            final(self).known() == old(self).known(),
            final(self).configuration() == old(self).configuration(),
            !old(self).slots().entries.contains_key(key) ==> {
                &&& final(self).slots() == old(self).slots()
                &&& reaction == (Reaction { connect: None, torn_down: false })
            },
            old(self).slots().entries.contains_key(key) ==> {
                let before = old(self).slots().entries[key]@;
                &&& reaction.connect == before.wanted_after(
                    side,
                    *event,
                    old(self).configuration().secret_bytes(),
                    old(self).configuration().tag_bytes(),
                    old(self).known(),
                )
                &&& exists|seed: Seq<u8>, up: Seq<Seq<u8>>, down: Seq<Seq<u8>>|
                    {
                        let after = #[trigger] settled(
                            before,
                            side,
                            *event,
                            old(self).configuration().secret_bytes(),
                            old(self).configuration().tag_bytes(),
                            old(self).known(),
                            now,
                            seed,
                            up,
                            down,
                        );
                        &&& seed.len() == ENVELOPE_LEN
                        &&& reaction.torn_down == (after.phase == Phase::Closed && before.phase
                            != Phase::Closed)
                        &&& if reaction.torn_down {
                            final(self).slots() == old(self).slots().after_release(key)
                        } else {
                            &&& final(self).slots().entries.contains_key(key)
                            &&& final(self).slots().entries[key]@ == after
                            &&& final(self).slots() == (TableView {
                                entries: old(self).slots().entries.insert(
                                    key,
                                    final(self).slots().entries[key],
                                ),
                                ..old(self).slots()
                            })
                        }
                    }
            },
    {
        let mut connect: Option<BackendEndpoint> = None;
        let mut torn_down = false;
        match self.table.slot_mut(key) {
            None => {
                return Reaction { connect: None, torn_down: false };
            },
            Some(slot) => {
                let (wanted, over) = slot.settle(
                    side,
                    event,
                    self.config.secret(),
                    self.config.tag(),
                    &self.directory,
                    now,
                );
                connect = wanted;
                torn_down = over;
            },
        }
        let ghost held = self.table@;
        proof {
            let earlier = old(self).slots();
            assert(held.entries.dom() =~= earlier.entries.dom());
            assert(held.sound());
        }
        if torn_down {
            self.table.release(key);
            proof {
                let earlier = old(self).slots();
                assert(held.releasable(key));
                assert(held.entries.remove(key) =~= earlier.entries.remove(key));
            }
        }
        Reaction { connect, torn_down }
    }
}

} // verus!
