//! The datacenter directory: which backend stands behind each datacenter
//! identifier. It is filled at startup and only read afterwards.

use vstd::prelude::*;
use crate::error::ProxyError;

verus! {

/// A network address as a number: the four bytes of an IPv4 address or the
/// sixteen of an IPv6 address, most significant first.
#[derive(Clone, Copy, Debug, PartialEq, Eq, Structural)]
pub enum Address {
    V4(u32),
    V6(u128),
}

/// Where one datacenter is reached.
#[derive(Clone, Copy, Debug, PartialEq, Eq, Structural)]
pub struct BackendEndpoint {
    pub dc_id: i16,
    pub address: Address,
    pub port: u16,
}

/// The map from datacenter identifier to endpoint.
pub struct Directory {
    entries: Vec<BackendEndpoint>,
}

/// Whether entry `i` of `entries` is for `dc_id`.
spec fn is_entry_for(entries: Seq<BackendEndpoint>, dc_id: i16, i: int) -> bool {
    0 <= i < entries.len() && entries[i].dc_id == dc_id
}

impl Directory {
    #[verifier::type_invariant]
    spec fn distinct_ids(&self) -> bool {
        forall|i: int, j: int|
            0 <= i < j < self.entries@.len() ==> #[trigger] self.entries@[i].dc_id
                != #[trigger] self.entries@[j].dc_id
    }

    /// The directory as a map.
    pub closed spec fn view(&self) -> Map<i16, BackendEndpoint> {
        Map::new(
            |id: i16| exists|i: int| is_entry_for(self.entries@, id, i),
            |id: i16| self.entries@[choose|i: int| is_entry_for(self.entries@, id, i)],
        )
    }

    /// A directory that knows no datacenter.
    pub fn new() -> (d: Directory)
        ensures
            d@ == Map::<i16, BackendEndpoint>::empty(),
    {
        let d = Directory { entries: Vec::new() };
        assert(d@ =~= Map::<i16, BackendEndpoint>::empty());
        d
    }

    /// How many datacenters the directory knows.
    pub fn len(&self) -> (n: usize)
        ensures
            n == self@.dom().len(),
            self@.dom().finite(),
    {
        proof {
            use_type_invariant(self);
            Self::lemma_domain_size(self.entries@);
            assert(self@.dom() =~= Self::ids(self.entries@));
        }
        self.entries.len()
    }

    /// The identifiers that a list of entries names.
    spec fn ids(entries: Seq<BackendEndpoint>) -> Set<i16> {
        Set::new(|id: i16| exists|i: int| is_entry_for(entries, id, i))
    }

    /// A list of entries with distinct identifiers names as many
    /// identifiers as it has entries.
    proof fn lemma_domain_size(entries: Seq<BackendEndpoint>)
        requires
            forall|i: int, j: int|
                0 <= i < j < entries.len() ==> #[trigger] entries[i].dc_id
                    != #[trigger] entries[j].dc_id,
        ensures
            Self::ids(entries).finite(),
            Self::ids(entries).len() == entries.len(),
        decreases entries.len(),
    {
        if entries.len() == 0 {
            assert(Self::ids(entries) =~= Set::<i16>::empty());
        } else {
            let front = entries.drop_last();
            let last = entries.last();
            Self::lemma_domain_size(front);
            assert forall|id: i16| Self::ids(entries).contains(id) <==> Self::ids(front).insert(
                last.dc_id,
            ).contains(id) by {
                if Self::ids(entries).contains(id) {
                    let i = choose|i: int| is_entry_for(entries, id, i);
                    if i < front.len() {
                        assert(is_entry_for(front, id, i));
                    }
                }
                if Self::ids(front).contains(id) {
                    let i = choose|i: int| is_entry_for(front, id, i);
                    assert(is_entry_for(entries, id, i));
                }
                if id == last.dc_id {
                    assert(is_entry_for(entries, id, entries.len() - 1));
                }
            }
            assert(Self::ids(entries) =~= Self::ids(front).insert(last.dc_id));
            if Self::ids(front).contains(last.dc_id) {
                let i = choose|i: int| is_entry_for(front, last.dc_id, i);
                assert(entries[i].dc_id != entries[entries.len() - 1].dc_id);
            }
        }
    }

    /// Looks a datacenter up. The answer is `UnknownDatacenter` exactly when
    /// the directory has no entry for `dc_id`.
    pub fn resolve(&self, dc_id: i16) -> (r: Result<BackendEndpoint, ProxyError>)
        ensures
            r == if self@.contains_key(dc_id) {
                Ok::<BackendEndpoint, ProxyError>(self@[dc_id])
            } else {
                Err::<BackendEndpoint, ProxyError>(ProxyError::UnknownDatacenter)
            },
    {
        proof {
            use_type_invariant(self);
        }
        let mut i: usize = 0;
        while i < self.entries.len()
            invariant
                i <= self.entries@.len(),
                forall|k: int| 0 <= k < i ==> self.entries@[k].dc_id != dc_id,
                forall|a: int, b: int|
                    0 <= a < b < self.entries@.len() ==> #[trigger] self.entries@[a].dc_id
                        != #[trigger] self.entries@[b].dc_id,
            decreases self.entries@.len() - i,
        {
            if self.entries[i].dc_id == dc_id {
                proof {
                    assert(is_entry_for(self.entries@, dc_id, i as int));
                    let chosen = choose|k: int| is_entry_for(self.entries@, dc_id, k);
                    assert(chosen == i) by {
                        if chosen < i {
                            assert(self.entries@[chosen].dc_id != self.entries@[i as int].dc_id);
                        } else if chosen > i {
                            assert(self.entries@[i as int].dc_id != self.entries@[chosen].dc_id);
                        }
                    }
                }
                return Ok(self.entries[i]);
            }
            i = i + 1;
        }
        assert(!self@.contains_key(dc_id)) by {
            if self@.contains_key(dc_id) {
                let k = choose|k: int| is_entry_for(self.entries@, dc_id, k);
                assert(self.entries@[k].dc_id != dc_id);
            }
        }
        Err(ProxyError::UnknownDatacenter)
    }

    /// Adds an endpoint, unless its datacenter already has one. Says whether
    /// the endpoint was added.
    pub fn insert(&mut self, endpoint: BackendEndpoint) -> (added: bool)
        ensures
            added == !old(self)@.contains_key(endpoint.dc_id),
            final(self)@ == if added {
                old(self)@.insert(endpoint.dc_id, endpoint)
            } else {
                old(self)@
            },
    {
        if self.resolve(endpoint.dc_id).is_ok() {
            return false;
        }
        proof {
            use_type_invariant(&*self);
        }
        let ghost before = self.entries@;
        let mut entries: Vec<BackendEndpoint> = Vec::new();
        core::mem::swap(&mut self.entries, &mut entries);
        entries.push(endpoint);
        proof {
            assert forall|i: int, j: int| 0 <= i < j < entries@.len() implies #[trigger] entries@[i].dc_id
                != #[trigger] entries@[j].dc_id by {
                if j == before.len() {
                    assert(before[i].dc_id != endpoint.dc_id) by {
                        if before[i].dc_id == endpoint.dc_id {
                            assert(is_entry_for(before, endpoint.dc_id, i));
                        }
                    }
                } else {
                    assert(before[i].dc_id != before[j].dc_id);
                }
            }
        }
        core::mem::swap(&mut self.entries, &mut entries);
        proof {
            let after = self.entries@;
            let want = old(self)@.insert(endpoint.dc_id, endpoint);
            assert forall|id: i16| #[trigger] self@.contains_key(id) <==> want.contains_key(id) by {
                if self@.contains_key(id) {
                    let i = choose|i: int| is_entry_for(after, id, i);
                    if i < before.len() {
                        assert(is_entry_for(before, id, i));
                    }
                }
                if old(self)@.contains_key(id) {
                    let i = choose|i: int| is_entry_for(before, id, i);
                    assert(is_entry_for(after, id, i));
                }
                if id == endpoint.dc_id {
                    assert(is_entry_for(after, id, before.len() as int));
                }
            }
            assert forall|id: i16| self@.contains_key(id) implies #[trigger] self@[id] == want[id] by {
                let i = choose|i: int| is_entry_for(after, id, i);
                if id == endpoint.dc_id {
                    if i < before.len() {
                        assert(is_entry_for(before, id, i));
                    }
                } else {
                    assert(is_entry_for(before, id, i));
                    let k = choose|k: int| is_entry_for(before, id, k);
                    if k < i {
                        assert(before[k].dc_id != before[i].dc_id);
                    } else if i < k {
                        assert(before[i].dc_id != before[k].dc_id);
                    }
                }
            }
            assert(self@ =~= want);
        }
        true
    }
}

} // verus!
