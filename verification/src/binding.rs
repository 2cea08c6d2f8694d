//! The handle that user code holds for one watched region, and the errors
//! that its misuse gives.

use crate::discovery::SlotRegion;
use crate::pool::{alloc_slot, release_slot, AllocError, ReleaseError, SlotPool};
use crate::shmem::{SlotMetadata, StallTracker, ThreadHint};
use vstd::prelude::*;
use vstd::utf8::encode_utf8;

verus! {

/// What user code may give as a thread hint: a word or a number.
#[derive(Clone, Debug, PartialEq, Eq)]
pub enum ThreadHintArg {
    /// A word; only `gil` is understood.
    String(String),
    /// A thread id.
    Int(usize),
}

/// What user code did wrong.
#[derive(Clone, Copy, Debug, PartialEq, Eq, Structural)]
pub enum UsageError {
    /// The hint is a word other than `gil`.
    UnknownHint,
    /// The hint is the thread id zero.
    ZeroThreadId,
    /// Every slot of the page is in use.
    OutOfSlots,
    /// The handle was closed, or its slot is not in use.
    Closed,
    /// The region is active already.
    AlreadyActive,
    /// The region is idle already.
    AlreadyIdle,
    /// The handle was closed while its region was active.
    ReleaseWhileActive,
}

impl ThreadHintArg {
    /// The hint that the argument stands for.
    pub open spec fn spec_encode(&self) -> Result<ThreadHint, UsageError> {
        match self {
            ThreadHintArg::String(s) => if s@ == "gil"@ {
                Ok(ThreadHint(0))
            } else {
                Err(UsageError::UnknownHint)
            },
            ThreadHintArg::Int(i) => if *i == 0 {
                Err(UsageError::ZeroThreadId)
            } else {
                Ok(ThreadHint(*i))
            },
        }
    }

    /// The hint that the argument stands for: the word `gil` is the
    /// global-lock hint, a number other than zero is that thread, and
    /// everything else is refused.
    pub fn encode(&self) -> (r: Result<ThreadHint, UsageError>)
        ensures
            r == self.spec_encode(),
    {
        match self {
            ThreadHintArg::String(s) => {
                let gil = "gil".to_owned();
                if *s == gil {
                    Ok(ThreadHint::gil())
                } else {
                    Err(UsageError::UnknownHint)
                }
            },
            ThreadHintArg::Int(i) => match ThreadHint::from_thread_id(*i) {
                Ok(thread_hint) => Ok(thread_hint),
                Err(_) => Err(UsageError::ZeroThreadId),
            },
        }
    }
}

/// The handle of one watched region. It holds the region's slot until it is
/// closed.
#[derive(Debug)]
pub struct TrackerHandle {
    slot: Option<usize>,
}

impl TrackerHandle {
    /// The slot that the handle holds; `None` once it is closed.
    pub closed spec fn slot(&self) -> Option<usize> {
        self.slot
    }

    /// Whether the handle holds a slot that is in use in `pool`.
    pub open spec fn usable(&self, pool: &SlotPool) -> bool {
        self.slot() matches Some(id) && pool.is_allocated(id)
    }

    /// Whether the handle's region is active in `pool`.
    pub open spec fn active(&self, pool: &SlotPool) -> bool {
        self.slot() matches Some(id) && pool.slots()[id as int].spec_is_active()
    }

    /// The slot that the handle holds; `None` once it is closed.
    pub fn slot_id(&self) -> (r: Option<usize>)
        ensures
            r == self.slot(),
    {
        self.slot
    }

    /// Makes a handle for a region: reads the hint, then takes a slot from
    /// the pool. The region starts out active. Where the hint is refused, the
    /// pool is not touched.
    pub fn new(pool: &mut SlotPool, name: String, name_ptr: usize, thread_hint: &ThreadHintArg) -> (r:
        Result<TrackerHandle, UsageError>)
        requires
            old(pool).wf(),
        ensures
            final(pool).wf(),
            thread_hint.spec_encode().is_err() ==> r == Err::<TrackerHandle, UsageError>(
                thread_hint.spec_encode().unwrap_err(),
            ) && final(pool).same_as(old(pool)),
            thread_hint.spec_encode().is_ok() && old(pool).freelist().len() == 0 ==> r == Err::<
                TrackerHandle,
                UsageError,
            >(UsageError::OutOfSlots) && final(pool).same_as(old(pool)),
            thread_hint.spec_encode().is_ok() && old(pool).freelist().len() > 0 ==> {
                let id = old(pool).freelist().last();
                &&& r.is_ok()
                &&& r.unwrap().slot() == Some(id)
                &&& r.unwrap().usable(final(pool))
                &&& r.unwrap().active(final(pool))
                &&& final(pool).freelist() == old(pool).freelist().drop_last()
                &&& final(pool).slots() == old(pool).slots().update(
                    id as int,
                    StallTracker {
                        count: (old(pool).slots()[id as int].count + 1) as u64,
                        metadata: SlotMetadata {
                            name_ptr,
                            name_len: encode_utf8(name@).len() as usize,
                            thread_hint: thread_hint.spec_encode().unwrap(),
                        },
                    },
                )
                &&& final(pool).names() == old(pool).names().push(name)
            },
    {
        let hint = match thread_hint.encode() {
            Ok(hint) => hint,
            Err(err) => {
                return Err(err);
            },
        };
        match alloc_slot(pool, name, name_ptr, hint) {
            Ok(id) => Ok(TrackerHandle { slot: Some(id) }),
            Err(AllocError::OutOfSlots) => Err(UsageError::OutOfSlots),
        }
    }

    /// Whether the region is active.
    pub fn is_active(&self, pool: &SlotPool) -> (r: Result<bool, UsageError>)
        ensures
            !self.usable(pool) ==> r == Err::<bool, UsageError>(UsageError::Closed),
            self.usable(pool) ==> r == Ok::<bool, UsageError>(self.active(pool)),
    {
        let id = match self.slot {
            Some(id) => id,
            None => {
                return Err(UsageError::Closed);
            },
        };
        if !pool.allocated(id) {
            return Err(UsageError::Closed);
        }
        match pool.slot(id) {
            Some(slot) => Ok(slot.is_active()),
            None => Err(UsageError::Closed),
        }
    }

    /// Marks the entry into the region. Entering an active region is an
    /// error and changes nothing.
    pub fn go_active(&self, pool: &mut SlotPool) -> (r: Result<(), UsageError>)
        requires
            old(pool).wf(),
        ensures
            final(pool).wf(),
            final(pool).freelist() == old(pool).freelist(),
            final(pool).names() == old(pool).names(),
            !self.usable(old(pool)) ==> r == Err::<(), UsageError>(UsageError::Closed),
            self.usable(old(pool)) && self.active(old(pool)) ==> r == Err::<(), UsageError>(
                UsageError::AlreadyActive,
            ),
            self.usable(old(pool)) && !self.active(old(pool)) ==> r == Ok::<(), UsageError>(()),
            r.is_err() ==> final(pool).slots() == old(pool).slots(),
            r.is_ok() ==> final(pool).slots() == old(pool).slots().update(
                self.slot().unwrap() as int,
                old(pool).slots()[self.slot().unwrap() as int].toggled(),
            ) && self.active(final(pool)),
    {
        match self.is_active(pool) {
            Err(err) => Err(err),
            Ok(true) => Err(UsageError::AlreadyActive),
            Ok(false) => {
                match self.slot {
                    Some(id) => {
                        pool.toggle(id);
                    },
                    None => {},
                }
                Ok(())
            },
        }
    }

    /// Marks the exit from the region. Leaving an idle region is an error
    /// and changes nothing.
    pub fn go_idle(&self, pool: &mut SlotPool) -> (r: Result<(), UsageError>)
        requires
            old(pool).wf(),
        ensures
            final(pool).wf(),
            final(pool).freelist() == old(pool).freelist(),
            final(pool).names() == old(pool).names(),
            !self.usable(old(pool)) ==> r == Err::<(), UsageError>(UsageError::Closed),
            self.usable(old(pool)) && !self.active(old(pool)) ==> r == Err::<(), UsageError>(
                UsageError::AlreadyIdle,
            ),
            self.usable(old(pool)) && self.active(old(pool)) ==> r == Ok::<(), UsageError>(()),
            r.is_err() ==> final(pool).slots() == old(pool).slots(),
            r.is_ok() ==> final(pool).slots() == old(pool).slots().update(
                self.slot().unwrap() as int,
                old(pool).slots()[self.slot().unwrap() as int].toggled(),
            ) && !self.active(final(pool)),
    {
        match self.is_active(pool) {
            Err(err) => Err(err),
            Ok(false) => Err(UsageError::AlreadyIdle),
            Ok(true) => {
                match self.slot {
                    Some(id) => {
                        pool.toggle(id);
                    },
                    None => {},
                }
                Ok(())
            },
        }
    }

    /// The address of the region's counter in this process, given where the
    /// slots of the page lie.
    pub fn counter_address(&self, region: &SlotRegion) -> (r: Result<usize, UsageError>)
        ensures
            r == match self.slot() {
                Some(id) => if id < region.slots_count && region.spec_slot_address(id)
                    <= usize::MAX {
                    Ok::<usize, UsageError>(region.spec_slot_address(id) as usize)
                } else {
                    Err::<usize, UsageError>(UsageError::Closed)
                },
                None => Err::<usize, UsageError>(UsageError::Closed),
            },
    {
        match self.slot {
            Some(id) => match region.slot_address(id) {
                Some(address) => Ok(address),
                None => Err(UsageError::Closed),
            },
            None => Err(UsageError::Closed),
        }
    }

    /// Closes the handle and gives its slot back to the pool. The handle is
    /// closed afterwards whatever happened: where the region was still
    /// active, the slot stays in use for good and the error says so. Closing
    /// a closed handle does nothing.
    pub fn close(&mut self, pool: &mut SlotPool) -> (r: Result<(), UsageError>)
        requires
            old(pool).wf(),
        ensures
            final(pool).wf(),
            final(self).slot().is_none(),
            final(pool).slots() == old(pool).slots(),
            final(pool).names() == old(pool).names(),
            old(self).slot().is_none() ==> r == Ok::<(), UsageError>(()),
            old(self).slot().is_some() && !old(self).usable(old(pool)) ==> r == Err::<
                (),
                UsageError,
            >(UsageError::Closed),
            old(self).usable(old(pool)) && old(self).active(old(pool)) ==> r == Err::<
                (),
                UsageError,
            >(UsageError::ReleaseWhileActive),
            old(self).usable(old(pool)) && !old(self).active(old(pool)) ==> r == Ok::<
                (),
                UsageError,
            >(()),
            old(self).usable(old(pool)) && r.is_ok() ==> final(pool).freelist() == old(
                pool,
            ).freelist().push(old(self).slot().unwrap()),
            !(old(self).usable(old(pool)) && r.is_ok()) ==> final(pool).freelist() == old(
                pool,
            ).freelist(),
    {
        let held = self.slot;
        self.slot = None;
        match held {
            Some(id) => match release_slot(pool, id) {
                Ok(()) => Ok(()),
                Err(ReleaseError::ReleaseWhileActive) => Err(UsageError::ReleaseWhileActive),
                Err(ReleaseError::NotAllocated) => Err(UsageError::Closed),
            },
            None => Ok(()),
        }
    }
}

} // verus!
