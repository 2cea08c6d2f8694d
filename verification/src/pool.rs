//! The allocator of the instrumented process: the slots of its page, and the
//! list of those that are free.
//!
//! The pool is the bookkeeping of one process; the process keeps one pool,
//! behind a lock, and carries each change over to the page itself. A slot is
//! named by its index in the page.

use crate::discovery::{MemoryMap, SlotRegion};
use crate::layout::{spec_header_size, word_bytes, ByteOrder};
use crate::shmem::{magic, ShmemHeader, SlotMetadata, StallTracker, ThreadHint, VERSION};
use vstd::prelude::*;
use vstd::utf8::encode_utf8;

verus! {

/// Why no slot was handed out.
#[derive(Clone, Copy, Debug, PartialEq, Eq, Structural)]
pub enum AllocError {
    /// Every slot of the page is in use.
    OutOfSlots,
}

/// Why a slot was not taken back.
#[derive(Clone, Copy, Debug, PartialEq, Eq, Structural)]
pub enum ReleaseError {
    /// The slot's region is active.
    ReleaseWhileActive,
    /// The index names no slot that is in use.
    NotAllocated,
}

/// A slot as the page holds it before first use: all zero.
pub open spec fn blank_slot() -> StallTracker {
    StallTracker {
        count: 0,
        metadata: SlotMetadata { name_ptr: 0, name_len: 0, thread_hint: ThreadHint(0) },
    }
}

/// The slots of one page and the list of the free ones.
pub struct SlotPool {
    slots: Vec<StallTracker>,
    freelist: Vec<usize>,
    names: Vec<String>,
}

impl SlotPool {
    /// The slots, by index.
    pub closed spec fn slots(&self) -> Seq<StallTracker> {
        self.slots@
    }

    /// The indices of the free slots; the last one is handed out next.
    pub closed spec fn freelist(&self) -> Seq<usize> {
        self.freelist@
    }

    /// The names given to slots so far, oldest first. None is ever dropped:
    /// a reader outside the process may still look at any of them.
    pub closed spec fn names(&self) -> Seq<String> {
        self.names@
    }

    /// Whether the two pools hold the same slots, free list and names.
    pub open spec fn same_as(&self, other: &SlotPool) -> bool {
        &&& self.slots() == other.slots()
        &&& self.freelist() == other.freelist()
        &&& self.names() == other.names()
    }

    /// Whether the slot `id` is free.
    pub open spec fn is_free(&self, id: usize) -> bool {
        self.freelist().contains(id)
    }

    /// Whether the slot `id` is in use.
    pub open spec fn is_allocated(&self, id: usize) -> bool {
        id < self.slots().len() && !self.is_free(id)
    }

    /// Whether the pool holds a name that is `len` bytes long.
    pub open spec fn holds_name_of_length(&self, len: usize) -> bool {
        exists|k: int|
            0 <= k < self.names().len() && encode_utf8((#[trigger] self.names()[k])@).len() as usize
                == len
    }

    /// Whether the slot `id` has ever been handed out: it is in use, or its
    /// counter has moved.
    pub open spec fn was_published(&self, id: int) -> bool {
        self.slots()[id].count != 0 || !self.is_free(id as usize)
    }

    /// A pool that has kept all the names of an earlier one holds a name of
    /// every length that the earlier one held.
    pub proof fn lemma_names_kept(&self, earlier: &SlotPool, len: usize)
        requires
            earlier.holds_name_of_length(len),
            earlier.names().len() <= self.names().len(),
            forall|k: int| 0 <= k < earlier.names().len() ==> self.names()[k] == earlier.names()[k],
        ensures
            self.holds_name_of_length(len),
    {
        let k = choose|k: int|
            0 <= k < earlier.names().len() && encode_utf8((#[trigger] earlier.names()[k])@).len() as usize
                == len;
        assert(self.names()[k] == earlier.names()[k]);
    }

    /// What holds of every pool: the free list names slots of the page, each
    /// at most once; every free slot is idle; and the name length in the
    /// metadata of every slot that was ever handed out is the length in bytes
    /// of a name that the pool still holds.
    pub open spec fn wf(&self) -> bool {
        &&& forall|i: int|
            0 <= i < self.freelist().len() ==> (#[trigger] self.freelist()[i]) < self.slots().len()
        &&& forall|i: int, j: int|
            0 <= i < j < self.freelist().len() ==> self.freelist()[i] != self.freelist()[j]
        &&& forall|i: int|
            0 <= i < self.freelist().len() ==> !self.slots()[(#[trigger] self.freelist()[i]) as int].spec_is_active()
        &&& forall|id: int|
            0 <= id < self.slots().len() && #[trigger] self.was_published(id)
                ==> self.holds_name_of_length(self.slots()[id].metadata.name_len)
    }

    /// The metadata of a slot whose region is active carries the length in
    /// bytes of a name that the pool holds: whoever reads an odd counter can
    /// rely on the name beside it.
    pub proof fn lemma_active_slot_is_named(&self, id: int)
        requires
            self.wf(),
            0 <= id < self.slots().len(),
            self.slots()[id].spec_is_active(),
        ensures
            self.holds_name_of_length(self.slots()[id].metadata.name_len),
    {
        assert(self.was_published(id));
    }

    /// The pool of a fresh page with `slot_count` slots: every slot is blank
    /// and free, and the slot with the highest index is handed out first.
    pub fn new(slot_count: usize) -> (r: SlotPool)
        ensures
            r.wf(),
            r.slots() == Seq::new(slot_count as nat, |i: int| blank_slot()),
            r.freelist() == Seq::new(slot_count as nat, |i: int| i as usize),
            r.names() == Seq::<String>::empty(),
    {
        let mut slots: Vec<StallTracker> = Vec::new();
        let mut freelist: Vec<usize> = Vec::new();
        let mut i: usize = 0;
        while i < slot_count
            invariant
                i <= slot_count,
                slots@ == Seq::new(i as nat, |k: int| blank_slot()),
                freelist@ == Seq::new(i as nat, |k: int| k as usize),
            decreases slot_count - i,
        {
            slots.push(
                StallTracker {
                    count: 0,
                    metadata: SlotMetadata { name_ptr: 0, name_len: 0, thread_hint: ThreadHint(0) },
                },
            );
            freelist.push(i);
            proof {
                assert(slots@ =~= Seq::new((i + 1) as nat, |k: int| blank_slot()));
                assert(freelist@ =~= Seq::new((i + 1) as nat, |k: int| k as usize));
            }
            i = i + 1;
        }
        let pool = SlotPool { slots, freelist, names: Vec::new() };
        proof {
            assert forall|id: int| 0 <= id < pool.slots().len() implies !#[trigger] pool.was_published(
                id,
            ) by {
                assert(pool.freelist()[id] == id as usize);
            }
        }
        pool
    }

    /// The number of slots of the page.
    pub fn slot_count(&self) -> (r: usize)
        ensures
            r == self.slots().len(),
    {
        self.slots.len()
    }

    /// The number of free slots.
    pub fn free_count(&self) -> (r: usize)
        ensures
            r == self.freelist().len(),
    {
        self.freelist.len()
    }

    /// The slot `id` as the pool has it, if the page has such a slot.
    pub fn slot(&self, id: usize) -> (r: Option<StallTracker>)
        ensures
            r == if id < self.slots().len() {
                Some(self.slots()[id as int])
            } else {
                None
            },
    {
        if id < self.slots.len() {
            Some(self.slots[id])
        } else {
            None
        }
    }

    /// Whether the slot `id` is in use.
    pub fn allocated(&self, id: usize) -> (r: bool)
        ensures
            r == self.is_allocated(id),
    {
        if id >= self.slots.len() {
            return false;
        }
        let mut i: usize = 0;
        while i < self.freelist.len()
            invariant
                i <= self.freelist.len(),
                forall|k: int| 0 <= k < i ==> self.freelist@[k] != id,
            decreases self.freelist.len() - i,
        {
            if self.freelist[i] == id {
                return false;
            }
            i = i + 1;
        }
        true
    }

    /// Marks one entry into the region of slot `id` or one exit from it.
    /// Nothing happens, and `false` is returned, where the slot is not in
    /// use.
    pub fn toggle(&mut self, id: usize) -> (r: bool)
        requires
            old(self).wf(),
        ensures
            final(self).wf(),
            r == old(self).is_allocated(id),
            final(self).freelist() == old(self).freelist(),
            final(self).names() == old(self).names(),
            r ==> final(self).slots() == old(self).slots().update(
                id as int,
                old(self).slots()[id as int].toggled(),
            ),
            !r ==> final(self).slots() == old(self).slots(),
    {
        if !self.allocated(id) {
            return false;
        }
        let mut slot = self.slots[id];
        slot.toggle();
        self.slots.set(id, slot);
        proof {
            assert forall|other: int|
                0 <= other < self.slots().len() && #[trigger] self.was_published(
                    other,
                ) implies self.holds_name_of_length(self.slots()[other].metadata.name_len) by {
                assert(old(self).was_published(other));
                self.lemma_names_kept(&*old(self), self.slots()[other].metadata.name_len);
            }
        }
        true
    }
}

/// Hands out a slot for a region.
///
/// `name` is the copy of the region's name that the process keeps for good,
/// and `name_ptr` the address of its bytes; the length that goes into the
/// metadata is that of the name in bytes. The pool takes the copy and keeps
/// it. The slot handed out is the last one of the free list. Its metadata is
/// set first; then its counter goes up by one, which publishes the slot and
/// marks its region active.
pub fn alloc_slot(pool: &mut SlotPool, name: String, name_ptr: usize, thread_hint: ThreadHint) -> (r:
    Result<usize, AllocError>)
    requires
        old(pool).wf(),
    ensures
        final(pool).wf(),
        old(pool).freelist().len() == 0 ==> {
            &&& r == Err::<usize, AllocError>(AllocError::OutOfSlots)
            &&& final(pool).slots() == old(pool).slots()
            &&& final(pool).freelist() == old(pool).freelist()
            &&& final(pool).names() == old(pool).names()
        },
        old(pool).freelist().len() > 0 ==> {
            let id = old(pool).freelist().last();
            let published = StallTracker {
                count: (old(pool).slots()[id as int].count + 1) as u64,
                metadata: SlotMetadata {
                    name_ptr,
                    name_len: encode_utf8(name@).len() as usize,
                    thread_hint,
                },
            };
            &&& r == Ok::<usize, AllocError>(id)
            &&& final(pool).freelist() == old(pool).freelist().drop_last()
            &&& final(pool).slots() == old(pool).slots().update(id as int, published)
            &&& published.spec_is_active()
            &&& final(pool).is_allocated(id)
            &&& final(pool).names() == old(pool).names().push(name)
        },
{
    if pool.freelist.len() == 0 {
        return Err(AllocError::OutOfSlots);
    }
    let id = match pool.freelist.pop() {
        Some(id) => id,
        None => {
            return Err(AllocError::OutOfSlots);
        },
    };
    let ghost free_before = old(pool).freelist();
    let slot_count = pool.slots.len();
    proof {
        assert(free_before[free_before.len() - 1] == id);
        assert forall|k: int| 0 <= k < pool.freelist@.len() implies pool.freelist@[k] != id by {
            assert(pool.freelist@[k] == free_before[k]);
        }
    }
    let name_len = name.as_str().len();
    let slot = pool.slots[id];
    let published = StallTracker {
        count: slot.count + 1,
        metadata: SlotMetadata { name_ptr, name_len, thread_hint },
    };
    pool.slots.set(id, published);
    let ghost names_before = pool.names@;
    pool.names.push(name);
    proof {
        assert forall|i: int| 0 <= i < pool.freelist@.len() implies !pool.slots@[(
        #[trigger] pool.freelist@[i]) as int].spec_is_active() by {
            assert(pool.freelist@[i] == free_before[i]);
        }
        assert forall|other: int|
            0 <= other < pool.slots().len() && #[trigger] pool.was_published(
                other,
            ) implies pool.holds_name_of_length(pool.slots()[other].metadata.name_len) by {
            if other == id {
                assert(pool.names()[names_before.len() as int] == name);
            } else {
                assert(old(pool).slots()[other] == pool.slots()[other]);
                if old(pool).is_free(other as usize) {
                    let at = choose|at: int|
                        0 <= at < free_before.len() && free_before[at] == other as usize;
                    assert(free_before[free_before.len() - 1] == id);
                    assert(other < slot_count);
                    assert(other as usize == other);
                    assert(at < free_before.len() - 1);
                    assert(pool.freelist() =~= free_before.drop_last());
                    assert(pool.freelist()[at] == other as usize);
                }
                assert(old(pool).was_published(other));
                pool.lemma_names_kept(&*old(pool), pool.slots()[other].metadata.name_len);
            }
        }
    }
    Ok(id)
}

/// Takes the slot `slot` back. Its region must be idle: an active slot stays
/// in use. The slot's metadata is left as it is; the slot goes to the end of
/// the free list, so that it is the next one handed out.
pub fn release_slot(pool: &mut SlotPool, slot: usize) -> (r: Result<(), ReleaseError>)
    requires
        old(pool).wf(),
    ensures
        final(pool).wf(),
        final(pool).slots() == old(pool).slots(),
        final(pool).names() == old(pool).names(),
        !old(pool).is_allocated(slot) ==> r == Err::<(), ReleaseError>(ReleaseError::NotAllocated),
        old(pool).is_allocated(slot) && old(pool).slots()[slot as int].spec_is_active() ==> r
            == Err::<(), ReleaseError>(ReleaseError::ReleaseWhileActive),
        old(pool).is_allocated(slot) && !old(pool).slots()[slot as int].spec_is_active() ==> r
            == Ok::<(), ReleaseError>(()),
        r.is_ok() ==> final(pool).freelist() == old(pool).freelist().push(slot),
        r.is_err() ==> final(pool).freelist() == old(pool).freelist(),
{
    if !pool.allocated(slot) {
        return Err(ReleaseError::NotAllocated);
    }
    if pool.slots[slot].is_active() {
        return Err(ReleaseError::ReleaseWhileActive);
    }
    pool.freelist.push(slot);
    proof {
        assert forall|other: int|
            0 <= other < pool.slots().len() && #[trigger] pool.was_published(
                other,
            ) implies pool.holds_name_of_length(pool.slots()[other].metadata.name_len) by {
            if old(pool).is_free(other as usize) {
                let at = choose|at: int|
                    0 <= at < old(pool).freelist().len() && old(pool).freelist()[at]
                        == other as usize;
                assert(pool.freelist()[at] == other as usize);
            }
            assert(old(pool).was_published(other));
            pool.lemma_names_kept(&*old(pool), pool.slots()[other].metadata.name_len);
        }
    }
    Ok(())
}

/// What a process publishes when it sets up its page.
pub struct ExportedSlots {
    /// The bytes to put at the start of the page.
    pub header: Vec<u8>,
    /// Where the slots lie in the page.
    pub region: SlotRegion,
    /// The pool of the page's slots, all free.
    pub pool: SlotPool,
}

/// Lays out a fresh, zeroed page that is mapped at `page`: the header that
/// goes to its start, the place of its slots, and the pool that hands them
/// out. `None` where the page has no room for a header.
pub fn create_exported_slots(page: MemoryMap, order: ByteOrder) -> (r: Option<ExportedSlots>)
    ensures
        r.is_some() <==> page.holds_header(),
        r.is_some() ==> {
            let made = r.unwrap();
            &&& made.header@ == magic() + word_bytes(page.start, order) + word_bytes(VERSION, order)
            &&& made.header@.len() == spec_header_size()
            &&& made.region == page.region()
            &&& made.pool.wf()
            &&& made.pool.slots() == Seq::new(made.region.slots_count as nat, |i: int| blank_slot())
            &&& made.pool.freelist() == Seq::new(made.region.slots_count as nat, |i: int| i as usize)
            &&& made.pool.names() == Seq::<String>::empty()
        },
{
    let region = match page.slot_region() {
        Some(region) => region,
        None => {
            return None;
        },
    };
    let header = ShmemHeader::new(page.start).to_bytes(order);
    let pool = SlotPool::new(region.slots_count);
    Some(ExportedSlots { header, region, pool })
}

} // verus!
