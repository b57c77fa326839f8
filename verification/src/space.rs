//! The entity identity lifecycle: a fixed-capacity store of entity ids with
//! allocation, reuse after death, and liveness tracking.

use crate::bits::bits_of;
use crate::bits::bitset_add;
use crate::bits::bitset_contains;
use crate::bits::bitset_remove;
use crate::bits::bitset_with_capacity;
use vstd::prelude::*;

verus! {

/// Largest capacity an identity store may be created with; the bound the
/// backing bit sets support on every build.
pub const MAX_CAPACITY: usize = 0x10_0000;

/// Opaque id of one entity slot, unique while the entity is alive and
/// reusable after its death.
#[derive(Clone, Copy, Debug, PartialEq, Eq, Structural)]
pub struct Id(usize);

impl Id {
    /// The slot number this id stands for.
    pub closed spec fn value(self) -> int {
        self.0 as int
    }

    pub fn index(&self) -> (r: usize)
        ensures
            r == self.value(),
    {
        self.0
    }
}

/// The lowest dead id in `[from, cap)`, scanning upwards.
pub open spec fn first_free_from(alive: Set<u32>, from: int, cap: int) -> Option<u32>
    decreases cap - from,
{
    if from < 0 || from >= cap {
        None
    } else if !alive.contains(from as u32) {
        Some(from as u32)
    } else {
        first_free_from(alive, from + 1, cap)
    }
}

/// The lowest dead id under `cap`, if any id under `cap` is dead.
pub open spec fn first_free(alive: Set<u32>, cap: int) -> Option<u32> {
    first_free_from(alive, 0, cap)
}

/// Fixed-capacity store of entity ids.  Ids are handed out sequentially
/// while fresh ones remain; once the sequence is exhausted, the lowest dead
/// id is reused.
pub struct Space {
    alive_objects: hibitset::BitSet,
    enabled_objects: hibitset::BitSet,
    next_obj_id: usize,
    capacity: usize,
}

impl Space {
    /// The set of ids currently alive.
    pub closed spec fn alive(self) -> Set<u32> {
        bits_of(self.alive_objects)
    }

    /// The set of ids ever enabled.  Disabling is not implemented yet:
    /// every id that was ever alive is enabled.
    pub closed spec fn enabled(self) -> Set<u32> {
        bits_of(self.enabled_objects)
    }

    /// The next id the sequential fast path would hand out.
    pub closed spec fn next_id(self) -> int {
        self.next_obj_id as int
    }

    /// How many id slots this store was created with.
    pub closed spec fn cap(self) -> int {
        self.capacity as int
    }

    /// Every id ever handed out lies below the sequential watermark, which
    /// never passes the capacity.
    pub open spec fn wf(self) -> bool {
        &&& 0 <= self.next_id() <= self.cap()
        &&& self.cap() <= MAX_CAPACITY
        &&& forall|id: u32| self.alive().contains(id) ==> id < self.next_id()
    }

    pub fn with_capacity(capacity: usize) -> (r: Space)
        requires
            capacity <= MAX_CAPACITY,
        ensures
            r.wf(),
            r.cap() == capacity,
            r.next_id() == 0,
            r.alive() == Set::<u32>::empty(),
            r.enabled() == Set::<u32>::empty(),
    {
        Space {
            alive_objects: bitset_with_capacity(capacity as u32),
            enabled_objects: bitset_with_capacity(capacity as u32),
            next_obj_id: 0,
            capacity,
        }
    }

    pub fn capacity(&self) -> (r: usize)
        ensures
            r == self.cap(),
    {
        self.capacity
    }

    /// Whether `id` is currently alive in this store.
    pub fn is_alive(&self, id: Id) -> (r: bool)
        requires
            0 <= id.value() < self.cap(),
            self.cap() <= MAX_CAPACITY,
        ensures
            r == self.alive().contains(id.value() as u32),
    {
        bitset_contains(&self.alive_objects, id.0 as u32)
    }

    /// Marks `id` alive and enabled.
    fn create_object_at(&mut self, id: usize)
        requires
            0 <= id < old(self).cap(),
            old(self).cap() <= MAX_CAPACITY,
        ensures
            final(self).alive() == old(self).alive().insert(id as u32),
            final(self).enabled() == old(self).enabled().insert(id as u32),
            final(self).next_id() == old(self).next_id(),
            final(self).cap() == old(self).cap(),
    {
        bitset_add(&mut self.alive_objects, id as u32);
        bitset_add(&mut self.enabled_objects, id as u32);
    }

    /// Creates a new entity id.  While the sequential watermark is below
    /// the capacity, the next fresh id is handed out; afterwards the lowest
    /// dead id under the capacity is reused.  Returns an empty result
    /// exactly when the store is full and nothing is dead.
    pub fn create_object(&mut self) -> (r: Option<Id>)
        requires
            old(self).wf(),
        ensures
            final(self).wf(),
            final(self).cap() == old(self).cap(),
            match r {
                Some(id) => {
                    &&& 0 <= id.value() < old(self).cap()
                    &&& !old(self).alive().contains(id.value() as u32)
                    &&& final(self).alive() == old(self).alive().insert(id.value() as u32)
                    &&& final(self).enabled() == old(self).enabled().insert(id.value() as u32)
                    &&& if old(self).next_id() < old(self).cap() {
                        id.value() == old(self).next_id() && final(self).next_id() == old(
                            self,
                        ).next_id() + 1
                    } else {
                        Some(id.value() as u32) == first_free(old(self).alive(), old(self).cap())
                            && final(self).next_id() == old(self).next_id()
                    }
                },
                None => {
                    &&& old(self).next_id() == old(self).cap()
                    &&& first_free(old(self).alive(), old(self).cap()) is None
                    &&& *final(self) == *old(self)
                },
            },
    {
        if self.next_obj_id < self.capacity {
            let id = self.next_obj_id;
            self.next_obj_id = id + 1;
            self.create_object_at(id);
            Some(Id(id))
        } else {
            // find a dead object to reuse, scanning from the lowest id
            let mut i: usize = 0;
            while i < self.capacity && bitset_contains(&self.alive_objects, i as u32)
                invariant
                    0 <= i <= self.cap(),
                    self.wf(),
                    forall|j: int| 0 <= j < i ==> #[trigger] self.alive().contains(j as u32),
                decreases self.cap() - i,
            {
                i = i + 1;
            }
            if i < self.capacity {
                proof {
                    lemma_first_free_scan(self.alive(), 0, i as int, self.cap());
                }
                self.create_object_at(i);
                Some(Id(i))
            } else {
                proof {
                    lemma_first_free_scan(self.alive(), 0, self.cap(), self.cap());
                }
                None
            }
        }
    }

    /// Removes `id` from the alive set; its slot becomes eligible for reuse
    /// immediately.  Removing the matching components from their containers
    /// belongs to the surrounding container bundle.
    pub fn kill_object(&mut self, id: Id)
        requires
            old(self).wf(),
            0 <= id.value() < old(self).cap(),
        ensures
            final(self).wf(),
            final(self).alive() == old(self).alive().remove(id.value() as u32),
            final(self).enabled() == old(self).enabled(),
            final(self).next_id() == old(self).next_id(),
            final(self).cap() == old(self).cap(),
    {
        bitset_remove(&mut self.alive_objects, id.0 as u32);
        proof {
            assert forall|other: u32| self.alive().contains(other) implies other < self.next_id() by {
                assert(old(self).alive().contains(other));
            }
        }
    }
}

/// Scanning over a stretch of alive ids does not change which id is the
/// lowest dead one.
proof fn lemma_first_free_scan(alive: Set<u32>, from: int, to: int, cap: int)
    requires
        0 <= from <= to <= cap,
        forall|j: int| from <= j < to ==> #[trigger] alive.contains(j as u32),
    ensures
        first_free_from(alive, from, cap) == first_free_from(alive, to, cap),
    decreases to - from,
{
    if from < to {
        lemma_first_free_scan(alive, from + 1, to, cap);
    }
}

/// Entity reuse: in a store whose ids under the capacity are all alive
/// except one dead id `k`, the next reused id is exactly `k`.
pub proof fn lemma_reuse_returns_killed_id(alive: Set<u32>, cap: int, k: int)
    requires
        0 <= k < cap,
        !alive.contains(k as u32),
        forall|j: int| 0 <= j < cap && j != k ==> #[trigger] alive.contains(j as u32),
    ensures
        first_free(alive, cap) == Some(k as u32),
{
    lemma_first_free_scan(alive, 0, k, cap);
}

/// Exhaustion: in a store whose ids under the capacity are all alive,
/// there is nothing to reuse.
pub proof fn lemma_full_store_has_no_free_id(alive: Set<u32>, cap: int)
    requires
        0 <= cap,
        forall|j: int| 0 <= j < cap ==> #[trigger] alive.contains(j as u32),
    ensures
        first_free(alive, cap) is None,
{
    lemma_first_free_scan(alive, 0, cap, cap);
}

} // verus!
