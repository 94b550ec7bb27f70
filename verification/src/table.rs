//! The connection table: a slab of slots addressed by small integer keys.
//!
//! Allocating takes the key that was released last, or the next unused one
//! where none is free; releasing puts the key on top of the free keys. Both
//! take constant time, and a table never grows past the limit it was made
//! with.

use vstd::prelude::*;
use slab::Slab;
use crate::relay::{Phase, Settings, Slot};

verus! {

#[verifier::external_type_specification]
#[verifier::external_body]
#[verifier::reject_recursive_types(T)]
pub struct ExSlab<T>(Slab<T>);

/// The most slots that a table can be made for.
pub const MAX_SLOTS: usize = 0x10_0000;

/// The occupied entries of a slab, by key.
pub uninterp spec fn slab_entries(slab: Slab<Slot>) -> Map<usize, Slot>;

/// The vacated keys of a slab that no entry has taken again, in the order
/// in which they were vacated.
pub uninterp spec fn slab_vacant(slab: Slab<Slot>) -> Seq<usize>;

/// Calls `Slab::new`: a slab without entries and without vacated keys.
#[verifier::external_body]
fn slab_new() -> (made: Slab<Slot>)
    ensures
        slab_entries(made) == (Map::<usize, Slot>::empty()),
        slab_vacant(made) == Seq::<usize>::empty(),
{
    Slab::new()
}

/// Calls `Slab::len`: the number of occupied entries.
#[verifier::external_body]
fn slab_len(slab: &Slab<Slot>) -> (n: usize)
    ensures
        n == slab_entries(*slab).dom().len(),
{
    slab.len()
}

/// Calls `Slab::get`: the entry under `key`, if it is occupied.
#[verifier::external_body]
fn slab_get(slab: &Slab<Slot>, key: usize) -> (found: Option<&Slot>)
    ensures
        found is Some == slab_entries(*slab).contains_key(key),
        found matches Some(slot) ==> *slot == slab_entries(*slab)[key],
{
    slab.get(key)
}

/// Calls `Slab::get_mut`: the entry under `key`, if it is occupied, to be
/// changed in place. No other entry and no vacated key is touched.
#[verifier::external_body]
fn slab_get_mut(slab: &mut Slab<Slot>, key: usize) -> (found: Option<&mut Slot>)
    ensures
        found is Some == slab_entries(*old(slab)).contains_key(key),
        found matches Some(slot) ==> *slot == slab_entries(*old(slab))[key] && slab_entries(
            *final(slab),
        ) == slab_entries(*old(slab)).insert(key, *final(slot)),
        found is None ==> slab_entries(*final(slab)) == slab_entries(*old(slab)),
        slab_vacant(*final(slab)) == slab_vacant(*old(slab)),
{
    slab.get_mut(key)
}

/// Calls `Slab::insert`. The key that comes back is the one vacated last
/// that has not been taken again; where there is none, it is the number of
/// entries, since the keys below that number are then all occupied. The
/// crate panics when its storage would pass `isize::MAX` bytes: the bound on
/// the keys in use leaves that out.
#[verifier::external_body]
fn slab_insert(slab: &mut Slab<Slot>, slot: Slot) -> (key: usize)
    requires
        slab_entries(*old(slab)).dom().len() + slab_vacant(*old(slab)).len() <= MAX_SLOTS,
    ensures
        key == if slab_vacant(*old(slab)).len() > 0 {
            slab_vacant(*old(slab)).last()
        } else {
            slab_entries(*old(slab)).dom().len() as usize
        },
        slab_entries(*final(slab)) == slab_entries(*old(slab)).insert(key, slot),
        slab_vacant(*final(slab)) == if slab_vacant(*old(slab)).len() > 0 {
            slab_vacant(*old(slab)).drop_last()
        } else {
            slab_vacant(*old(slab))
        },
{
    slab.insert(slot)
}

/// Calls `Slab::remove` on an occupied key: the entry comes out and the key
/// becomes the one vacated last. On a key that is not occupied the crate
/// panics, so such a key is left out.
#[verifier::external_body]
fn slab_remove(slab: &mut Slab<Slot>, key: usize) -> (slot: Slot)
    requires
        slab_entries(*old(slab)).contains_key(key),
    ensures
        slot == slab_entries(*old(slab))[key],
        slab_entries(*final(slab)) == slab_entries(*old(slab)).remove(key),
        slab_vacant(*final(slab)) == slab_vacant(*old(slab)).push(key),
{
    slab.remove(key)
}

/// A table as a mathematical value.
pub struct TableView {
    /// The slots in use, by key.
    pub entries: Map<usize, Slot>,
    /// The released keys, the one released last at the end.
    pub free: Seq<usize>,
    /// The most slots that may be in use at once.
    pub limit: nat,
}

impl TableView {
    /// The number of keys that the table has handed out so far, counting
    /// each key once.
    pub open spec fn span(self) -> nat {
        self.entries.dom().len() + self.free.len()
    }

    /// What holds of every table: it is within its limit; the keys handed
    /// out so far are the numbers below `span`, each either in use or free,
    /// none twice; every slot in use is valid.
    pub open spec fn sound(self) -> bool {
        &&& self.entries.dom().finite()
        &&& self.entries.dom().len() <= self.limit <= MAX_SLOTS
        &&& self.span() <= MAX_SLOTS
        &&& forall|i: int, j: int|
            0 <= i < j < self.free.len() ==> self.free[i] != self.free[j]
        &&& forall|i: int|
            0 <= i < self.free.len() ==> !self.entries.contains_key(#[trigger] self.free[i])
                && self.free[i] < self.span()
        &&& forall|k: usize| #[trigger] self.entries.contains_key(k) ==> k < self.span()
        &&& forall|k: usize| #[trigger] self.entries.contains_key(k) ==> self.entries[k].wf()
    }

    /// Whether a slot can still be allocated.
    pub open spec fn has_room(self) -> bool {
        self.entries.dom().len() < self.limit
    }

    /// The key that the next allocation hands out.
    pub open spec fn next_key(self) -> usize {
        if self.free.len() > 0 {
            self.free.last()
        } else {
            self.entries.dom().len() as usize
        }
    }

    /// The table after `slot` has been allocated.
    pub open spec fn after_allocate(self, slot: Slot) -> TableView {
        TableView {
            entries: self.entries.insert(self.next_key(), slot),
            free: if self.free.len() > 0 {
                self.free.drop_last()
            } else {
                self.free
            },
            ..self
        }
    }

    /// Whether the slot under `key` can be released: it is in use and torn
    /// down, so that no socket of it is registered any more.
    pub open spec fn releasable(self, key: usize) -> bool {
        self.entries.contains_key(key) && self.entries[key]@.phase == Phase::Closed
    }

    /// The table after the slot under `key` has been released.
    pub open spec fn after_release(self, key: usize) -> TableView {
        TableView { entries: self.entries.remove(key), free: self.free.push(key), ..self }
    }

    /// The table after the slots of `slots` have been allocated, one after
    /// the other.
    pub open spec fn after_allocations(self, slots: Seq<Slot>) -> TableView
        decreases slots.len(),
    {
        if slots.len() == 0 {
            self
        } else {
            self.after_allocations(slots.drop_last()).after_allocate(slots.last())
        }
    }

    /// The keys that those allocations hand out, in order.
    pub open spec fn allocated_keys(self, slots: Seq<Slot>) -> Seq<usize>
        decreases slots.len(),
    {
        if slots.len() == 0 {
            Seq::<usize>::empty()
        } else {
            self.allocated_keys(slots.drop_last()).push(
                self.after_allocations(slots.drop_last()).next_key(),
            )
        }
    }

    /// The table after the keys of `keys` have been released, one after the
    /// other.
    pub open spec fn after_releases(self, keys: Seq<usize>) -> TableView
        decreases keys.len(),
    {
        if keys.len() == 0 {
            self
        } else {
            self.after_releases(keys.drop_last()).after_release(keys.last())
        }
    }

    /// Whether every slot of `slots` is valid.
    pub open spec fn all_valid(slots: Seq<Slot>) -> bool {
        forall|i: int| 0 <= i < slots.len() ==> (#[trigger] slots[i]).wf()
    }
}

/// What a run of allocations does to a table.
proof fn lemma_allocations(v: TableView, slots: Seq<Slot>)
    requires
        v.sound(),
        v.entries.dom().len() + slots.len() <= v.limit,
        TableView::all_valid(slots),
    ensures
        v.after_allocations(slots).sound(),
        v.after_allocations(slots).limit == v.limit,
        v.after_allocations(slots).entries.dom().len() == v.entries.dom().len() + slots.len(),
        v.allocated_keys(slots).len() == slots.len(),
        forall|k: usize|
            #[trigger] v.after_allocations(slots).entries.contains_key(k)
                <==> v.entries.contains_key(k) || v.allocated_keys(slots).contains(k),
        forall|k: usize|
            #[trigger] v.entries.contains_key(k) ==> !v.allocated_keys(slots).contains(k)
                && v.after_allocations(slots).entries[k] == v.entries[k],
    decreases slots.len(),
{
    if slots.len() > 0 {
        let front = slots.drop_last();
        let before = v.after_allocations(front);
        let keys_before = v.allocated_keys(front);
        assert(TableView::all_valid(front)) by {
            assert forall|i: int| 0 <= i < front.len() implies (#[trigger] front[i]).wf() by {
                assert(front[i] == slots[i]);
            }
        }
        lemma_allocations(v, front);
        assert(slots.last() == slots[slots.len() - 1]);
        Table::lemma_allocate_sound(before, slots.last());
        let key = before.next_key();
        let after = v.after_allocations(slots);
        let keys = v.allocated_keys(slots);
        assert(keys == keys_before.push(key));
        assert forall|k: usize| #[trigger]
            after.entries.contains_key(k) <==> v.entries.contains_key(k) || keys.contains(k) by {
            assert(before.entries.contains_key(k) <==> v.entries.contains_key(k)
                || keys_before.contains(k));
            if keys.contains(k) {
                let i = choose|i: int| 0 <= i < keys.len() && keys[i] == k;
                if i < keys_before.len() {
                    assert(keys_before[i] == k);
                    assert(keys_before.contains(k));
                }
            }
            if keys_before.contains(k) {
                let i = choose|i: int| 0 <= i < keys_before.len() && keys_before[i] == k;
                assert(keys[i] == k);
            }
            assert(keys[keys.len() - 1] == key);
        }
        assert forall|k: usize| #[trigger] v.entries.contains_key(k) implies !keys.contains(k)
            && after.entries[k] == v.entries[k] by {
            assert(before.entries.contains_key(k));
            if keys.contains(k) {
                let i = choose|i: int| 0 <= i < keys.len() && keys[i] == k;
                if i < keys_before.len() {
                    assert(keys_before[i] == k);
                    assert(keys_before.contains(k));
                }
            }
        }
    }
}

/// What a run of releases does to a table.
proof fn lemma_releases(v: TableView, keys: Seq<usize>)
    requires
        v.sound(),
        keys.no_duplicates(),
        forall|i: int| 0 <= i < keys.len() ==> v.entries.contains_key(#[trigger] keys[i]),
    ensures
        v.after_releases(keys).sound(),
        v.after_releases(keys).limit == v.limit,
        v.after_releases(keys).free == v.free + keys,
        forall|k: usize|
            #[trigger] v.after_releases(keys).entries.contains_key(k) <==> v.entries.contains_key(
                k,
            ) && !keys.contains(k),
        forall|k: usize|
            #[trigger] v.after_releases(keys).entries.contains_key(k) ==> v.after_releases(
                keys,
            ).entries[k] == v.entries[k],
    decreases keys.len(),
{
    if keys.len() == 0 {
        assert(v.free + keys =~= v.free);
        assert forall|k: usize| !keys.contains(k) by {
            if keys.contains(k) {
                let i = choose|i: int| 0 <= i < keys.len() && keys[i] == k;
            }
        }
    } else {
        let front = keys.drop_last();
        let last = keys.last();
        let before = v.after_releases(front);
        let after = v.after_releases(keys);
        assert(front.no_duplicates());
        assert forall|i: int| 0 <= i < front.len() implies v.entries.contains_key(
            #[trigger] front[i],
        ) by {
            assert(front[i] == keys[i]);
        }
        lemma_releases(v, front);
        assert(keys[keys.len() - 1] == last);
        assert(!front.contains(last)) by {
            if front.contains(last) {
                let i = choose|i: int| 0 <= i < front.len() && front[i] == last;
                assert(keys[i] == keys[keys.len() - 1]);
            }
        }
        assert(before.entries.contains_key(last));
        Table::lemma_release_sound(before, last);
        assert(after.free =~= v.free + keys);
        assert forall|k: usize| #[trigger]
            after.entries.contains_key(k) <==> v.entries.contains_key(k) && !keys.contains(k) by {
            assert(before.entries.contains_key(k) <==> v.entries.contains_key(k)
                && !front.contains(k));
            if keys.contains(k) && k != last {
                let i = choose|i: int| 0 <= i < keys.len() && keys[i] == k;
                assert(front[i] == k);
                assert(front.contains(k));
            }
            if front.contains(k) {
                let i = choose|i: int| 0 <= i < front.len() && front[i] == k;
                assert(keys[i] == k);
            }
        }
    }
}

/// Allocations take the free keys, the one released last first.
proof fn lemma_reuse(v: TableView, slots: Seq<Slot>)
    requires
        v.sound(),
        v.entries.dom().len() + slots.len() <= v.limit,
        TableView::all_valid(slots),
        slots.len() <= v.free.len(),
    ensures
        v.allocated_keys(slots) == v.free.subrange(
            v.free.len() - slots.len(),
            v.free.len() as int,
        ).reverse(),
        v.after_allocations(slots).free == v.free.take(v.free.len() - slots.len()),
    decreases slots.len(),
{
    let n = v.free.len() as int;
    let m = slots.len() as int;
    if m == 0 {
        assert(v.allocated_keys(slots) =~= v.free.subrange(n, n).reverse());
        assert(v.free.take(n) =~= v.free);
    } else {
        let front = slots.drop_last();
        assert(TableView::all_valid(front)) by {
            assert forall|i: int| 0 <= i < front.len() implies (#[trigger] front[i]).wf() by {
                assert(front[i] == slots[i]);
            }
        }
        lemma_reuse(v, front);
        let before = v.after_allocations(front);
        assert(before.free == v.free.take(n - m + 1));
        assert(before.next_key() == v.free[n - m]);
        assert(v.allocated_keys(slots) =~= v.free.subrange(n - m, n).reverse());
        assert(v.after_allocations(slots).free =~= v.free.take(n - m));
    }
}

/// The slots of all connections.
pub struct Table {
    slots: Slab<Slot>,
    limit: usize,
}

impl Table {
    /// The table as a mathematical value.
    pub closed spec fn view(&self) -> TableView {
        TableView {
            entries: slab_entries(self.slots),
            free: slab_vacant(self.slots),
            limit: self.limit as nat,
        }
    }

    /// The validity of a table.
    pub open spec fn wf(&self) -> bool {
        self@.sound()
    }

    /// An empty table for at most `limit` connections. A limit above
    /// `MAX_SLOTS` is cut down to it.
    pub fn new(limit: usize) -> (table: Table)
        ensures
            table.wf(),
            table@ == (TableView {
                entries: Map::empty(),
                free: Seq::empty(),
                limit: if limit <= MAX_SLOTS {
                    limit as nat
                } else {
                    MAX_SLOTS as nat
                },
            }),
    {
        let limit = if limit <= MAX_SLOTS {
            limit
        } else {
            MAX_SLOTS
        };
        Table { slots: slab_new(), limit }
    }

    /// How many slots are in use.
    pub fn len(&self) -> (n: usize)
        ensures
            n == self@.entries.dom().len(),
    {
        slab_len(&self.slots)
    }

    /// The most slots that may be in use at once.
    pub fn capacity(&self) -> (n: usize)
        ensures
            n == self@.limit,
    {
        self.limit
    }

    /// How many more slots can be allocated.
    pub fn available(&self) -> (n: usize)
        requires
            self.wf(),
        ensures
            n == self@.limit - self@.entries.dom().len(),
    {
        self.limit - slab_len(&self.slots)
    }

    /// The slot under `key`, if the key is in use.
    pub fn get(&self, key: usize) -> (found: Option<&Slot>)
        ensures
            found is Some == self@.entries.contains_key(key),
            found matches Some(slot) ==> *slot == self@.entries[key],
    {
        slab_get(&self.slots, key)
    }

    /// The slot under `key`, if the key is in use, to be driven in place.
    /// The table stays valid if the slot does.
    pub fn slot_mut(&mut self, key: usize) -> (found: Option<&mut Slot>)
        ensures
            found is Some == old(self)@.entries.contains_key(key),
            found matches Some(slot) ==> *slot == old(self)@.entries[key] && final(self)@ == (
            TableView {
                entries: old(self)@.entries.insert(key, *final(slot)),
                ..old(self)@
            }),
            found is None ==> final(self)@ == old(self)@,
    {
        slab_get_mut(&mut self.slots, key)
    }

    /// Allocates the slot of a connection accepted at `now` and hands out
    /// its key, or `None` when the table is at its limit. The slot is fresh
    /// whatever the key held before.
    pub fn allocate(&mut self, settings: &Settings, now: u64) -> (key: Option<usize>)
        requires
            old(self).wf(),
        ensures
            final(self).wf(),
            key is Some == old(self)@.has_room(),
            key matches Some(k) ==> k == old(self)@.next_key() && final(self)@.entries.contains_key(
                k,
            ) && final(self)@ == old(self)@.after_allocate(final(self)@.entries[k])
                && final(self)@.entries[k]@ == Slot::fresh_view(settings, now),
            key is None ==> final(self)@ == old(self)@,
    {
        if slab_len(&self.slots) >= self.limit {
            return None;
        }
        let slot = Slot::new(settings, now);
        let key = slab_insert(&mut self.slots, slot);
        proof {
            Self::lemma_allocate_sound(old(self)@, slot);
        }
        Some(key)
    }

    /// Releases the slot under `key` and says whether it did. Only a slot
    /// that is torn down is released: until then a socket of it may still be
    /// registered, and an event for it could reach whoever got the key next.
    pub fn release(&mut self, key: usize) -> (released: bool)
        requires
            old(self).wf(),
        ensures
            final(self).wf(),
            released == old(self)@.releasable(key),
            final(self)@ == if released {
                old(self)@.after_release(key)
            } else {
                old(self)@
            },
    {
        let torn_down = match slab_get(&self.slots, key) {
            Some(slot) => slot.phase() == Phase::Closed,
            None => false,
        };
        if !torn_down {
            return false;
        }
        let _ = slab_remove(&mut self.slots, key);
        proof {
            Self::lemma_release_sound(old(self)@, key);
        }
        true
    }

    /// Allocating keeps a table sound.
    pub proof fn lemma_allocate_sound(v: TableView, slot: Slot)
        requires
            v.sound(),
            v.has_room(),
            slot.wf(),
        ensures
            v.after_allocate(slot).sound(),
            !v.entries.contains_key(v.next_key()),
            v.after_allocate(slot).entries.dom().len() == v.entries.dom().len() + 1,
    {
        let w = v.after_allocate(slot);
        let key = v.next_key();
        if v.free.len() > 0 {
            assert(v.free[v.free.len() - 1] == key);
            assert(!v.entries.contains_key(key));
        } else {
            if v.entries.contains_key(key) {
                assert(key < v.span());
            }
        }
        assert(w.entries.dom() =~= v.entries.dom().insert(key));
        assert(w.span() >= v.span());
        assert forall|i: int| 0 <= i < w.free.len() implies !w.entries.contains_key(
            #[trigger] w.free[i],
        ) && w.free[i] < w.span() by {
            assert(w.free[i] == v.free[i]);
            if v.free.len() > 0 {
                assert(v.free[i] != v.free[v.free.len() - 1]);
            }
        }
    }

    /// Releasing keeps a table sound.
    pub proof fn lemma_release_sound(v: TableView, key: usize)
        requires
            v.sound(),
            v.entries.contains_key(key),
        ensures
            v.after_release(key).sound(),
            v.after_release(key).entries.dom().len() == v.entries.dom().len() - 1,
    {
        let w = v.after_release(key);
        assert(w.entries.dom() =~= v.entries.dom().remove(key));
        assert(w.span() == v.span());
        assert forall|i: int, j: int| 0 <= i < j < w.free.len() implies w.free[i] != w.free[j] by {
            if j == v.free.len() {
                assert(!v.entries.contains_key(v.free[i]));
            }
        }
        assert forall|i: int| 0 <= i < w.free.len() implies !w.entries.contains_key(
            #[trigger] w.free[i],
        ) && w.free[i] < w.span() by {
            if i < v.free.len() {
                assert(w.free[i] == v.free[i]);
            }
        }
    }

    /// Allocating any number of slots and then releasing all of them, in
    /// whatever order, leaves no trace: the table holds the slots it held
    /// before, under the keys they had, within the limit it had. The keys
    /// that were released are the ones that the next allocations hand out,
    /// the one released last first, before any new key is made.
    pub proof fn lemma_allocate_release_all(
        v: TableView,
        slots: Seq<Slot>,
        order: Seq<usize>,
        again: Seq<Slot>,
    )
        requires
            v.sound(),
            v.entries.dom().len() + slots.len() <= v.limit,
            TableView::all_valid(slots),
            order.no_duplicates(),
            forall|k: usize| order.contains(k) <==> v.allocated_keys(slots).contains(k),
            TableView::all_valid(again),
            again.len() == order.len(),
            v.entries.dom().len() + again.len() <= v.limit,
        ensures
            v.after_allocations(slots).after_releases(order).sound(),
            v.after_allocations(slots).after_releases(order).entries == v.entries,
            v.after_allocations(slots).after_releases(order).limit == v.limit,
            v.after_allocations(slots).after_releases(order).allocated_keys(again)
                == order.reverse(),
    {
        let filled = v.after_allocations(slots);
        let keys = v.allocated_keys(slots);
        lemma_allocations(v, slots);
        assert forall|i: int| 0 <= i < order.len() implies filled.entries.contains_key(
            #[trigger] order[i],
        ) by {
            assert(order.contains(order[i]));
        }
        lemma_releases(filled, order);
        let emptied = filled.after_releases(order);
        assert forall|k: usize| emptied.entries.contains_key(k) <==> v.entries.contains_key(
            k,
        ) by {
            assert(emptied.entries.contains_key(k) <==> filled.entries.contains_key(k)
                && !order.contains(k));
            assert(filled.entries.contains_key(k) <==> v.entries.contains_key(k)
                || keys.contains(k));
            assert(v.entries.contains_key(k) ==> !keys.contains(k));
        }
        assert forall|k: usize| emptied.entries.contains_key(k) implies emptied.entries[k]
            == v.entries[k] by {
            assert(emptied.entries[k] == filled.entries[k]);
        }
        assert(emptied.entries =~= v.entries);
        lemma_reuse(emptied, again);
        let f = filled.free.len() as int;
        let n = order.len() as int;
        assert((filled.free + order).subrange(f, f + n) =~= order);
    }
}

} // verus!
