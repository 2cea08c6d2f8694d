//! The stall detector: one snapshot per slot, compared with what each poll
//! reads from the target.
//!
//! Times are nanoseconds on the caller's monotonic clock.

use crate::discovery::SlotRegion;
use crate::shmem::{SlotMetadata, StallTracker, ThreadHint};
use vstd::prelude::*;
use vstd::utf8::{decode_utf8, valid_utf8};

verus! {

/// What the detector remembers of one slot: the slot as it was last
/// installed, and when that was.
#[derive(Clone, Copy, Debug, PartialEq, Eq, Structural)]
pub struct StallTrackerSnapshot {
    /// The slot as it was read when the snapshot was installed.
    pub stall_tracker: StallTracker,
    /// When the snapshot was installed.
    pub last_updated: u64,
}

/// A slot that a poll found stalled, before its name is read.
#[derive(Clone, Copy, Debug, PartialEq, Eq, Structural)]
pub struct Stall {
    /// The index of the slot.
    pub id: usize,
    /// The slot's metadata as the poll read it.
    pub metadata: SlotMetadata,
    /// For how long the slot has been seen active with the same counter.
    pub duration: u64,
}

/// A stall with the name of its region, ready to be reported.
#[derive(Clone, Debug, PartialEq, Eq)]
pub struct StallReport {
    /// The index of the slot.
    pub id: usize,
    /// The name of the region, as read from the target.
    pub name: String,
    /// Who is expected to do the region's work.
    pub thread_hint: ThreadHint,
    /// For how long the slot has been seen active with the same counter.
    pub duration: u64,
}

/// The bytes read as a region's name are not UTF-8: the stall is passed
/// over, and monitoring goes on.
#[derive(Clone, Copy, Debug, PartialEq, Eq, Structural)]
pub struct NameDecodeFailed {
    /// The index of the slot whose name could not be read.
    pub id: usize,
}

/// `String::from_utf8` of the standard library, which takes the bytes as a
/// string if they are well-formed UTF-8 and refuses them otherwise. The
/// contract, taken on trust, says so in the terms of `vstd::utf8`: the call
/// succeeds exactly on well-formed bytes, and the string then holds the
/// characters that they encode.
#[verifier::external_body]
fn string_from_utf8(bytes: Vec<u8>) -> (r: Option<String>)
    ensures
        r.is_some() <==> valid_utf8(bytes@),
        r.is_some() ==> r.unwrap()@ == decode_utf8(bytes@),
{
    String::from_utf8(bytes).ok()
}

impl Stall {
    /// Completes the stall with its region's name, given the bytes that were
    /// read at the name's address in the target. Fails exactly where the
    /// bytes are not well-formed UTF-8.
    pub fn named(&self, name_bytes: Vec<u8>) -> (r: Result<StallReport, NameDecodeFailed>)
        ensures
            valid_utf8(name_bytes@) ==> r.is_ok() && r.unwrap().id == self.id && r.unwrap().name@
                == decode_utf8(name_bytes@) && r.unwrap().thread_hint == self.metadata.thread_hint
                && r.unwrap().duration == self.duration,
            !valid_utf8(name_bytes@) ==> r == Err::<StallReport, NameDecodeFailed>(
                NameDecodeFailed { id: self.id },
            ),
    {
        match string_from_utf8(name_bytes) {
            Some(name) => Ok(
                StallReport {
                    id: self.id,
                    name,
                    thread_hint: self.metadata.thread_hint,
                    duration: self.duration,
                },
            ),
            None => Err(NameDecodeFailed { id: self.id }),
        }
    }
}

/// Why a set of slots was refused.
#[derive(Clone, Copy, Debug, PartialEq, Eq, Structural)]
pub enum PollError {
    /// The number of slots handed in is not the number that the page holds.
    SlotCountMismatch {
        /// The number of slots of the page.
        expected: usize,
        /// The number of slots handed in.
        found: usize,
    },
}

impl StallTrackerSnapshot {
    /// Whether `current` shows the slot active with the counter of the
    /// snapshot: the region has not been left since the snapshot was
    /// installed.
    pub open spec fn still_active(self, current: StallTracker) -> bool {
        current.spec_is_active() && current.count == self.stall_tracker.count
    }

    /// The time from the snapshot's installation to `now`; zero where `now`
    /// is earlier.
    pub open spec fn age(self, now: u64) -> u64 {
        if now >= self.last_updated {
            (now - self.last_updated) as u64
        } else {
            0
        }
    }

    /// Whether a poll at `now` that reads `current` reports a stall.
    pub open spec fn fires(self, current: StallTracker, now: u64, alert_interval: u64) -> bool {
        self.still_active(current) && self.age(now) >= alert_interval
    }

    /// The snapshot after a poll at `now` that reads `current`: left in place
    /// while the slot is still active with the same counter, replaced
    /// otherwise.
    pub open spec fn observed(self, current: StallTracker, now: u64) -> StallTrackerSnapshot {
        if self.still_active(current) {
            self
        } else {
            StallTrackerSnapshot { stall_tracker: current, last_updated: now }
        }
    }

    /// Takes in what a poll at `now` read of the slot. Returns for how long
    /// the slot has stalled, if that is at least `alert_interval`.
    pub fn observe(&mut self, current: StallTracker, now: u64, alert_interval: u64) -> (r: Option<
        u64,
    >)
        ensures
            *final(self) == old(self).observed(current, now),
            r == if old(self).fires(current, now, alert_interval) {
                Some(old(self).age(now))
            } else {
                None
            },
            now >= old(self).last_updated ==> final(self).last_updated >= old(self).last_updated,
    {
        if current.is_active() && current.count == self.stall_tracker.count {
            let age = now.saturating_sub(self.last_updated);
            if age >= alert_interval {
                Some(age)
            } else {
                None
            }
        } else {
            self.stall_tracker = current;
            self.last_updated = now;
            None
        }
    }
}

/// The stalls that a poll at `now` reports among the first `n` slots, in slot
/// order.
pub open spec fn sightings(
    snapshots: Seq<StallTrackerSnapshot>,
    current: Seq<StallTracker>,
    now: u64,
    alert_interval: u64,
    n: nat,
) -> Seq<Stall>
    decreases n,
{
    if n == 0 {
        Seq::<Stall>::empty()
    } else {
        let i = (n - 1) as int;
        let earlier = sightings(snapshots, current, now, alert_interval, i as nat);
        if snapshots[i].fires(current[i], now, alert_interval) {
            earlier.push(
                Stall {
                    id: i as usize,
                    metadata: current[i].metadata,
                    duration: snapshots[i].age(now),
                },
            )
        } else {
            earlier
        }
    }
}

/// The snapshots after a poll at `now` that reads `current`.
pub open spec fn observed_all(
    snapshots: Seq<StallTrackerSnapshot>,
    current: Seq<StallTracker>,
    now: u64,
) -> Seq<StallTrackerSnapshot> {
    Seq::new(snapshots.len(), |i: int| snapshots[i].observed(current[i], now))
}

/// The snapshots that a monitor starts with: each slot as first read, at the
/// time of attaching.
pub open spec fn initial_snapshots(slots: Seq<StallTracker>, now: u64) -> Seq<
    StallTrackerSnapshot,
> {
    Seq::new(slots.len(), |i: int| StallTrackerSnapshot { stall_tracker: slots[i], last_updated: now })
}

/// The monitor's view of one target: where its slots lie, and a snapshot of
/// each.
pub struct PerpetuoProc {
    slots_ptr: usize,
    slots_count: usize,
    last_updates: Vec<StallTrackerSnapshot>,
}

impl View for PerpetuoProc {
    type V = Seq<StallTrackerSnapshot>;

    /// The snapshots, one per slot.
    closed spec fn view(&self) -> Seq<StallTrackerSnapshot> {
        self.last_updates@
    }
}

impl PerpetuoProc {
    #[verifier::type_invariant]
    spec fn well_formed(&self) -> bool {
        self.last_updates@.len() == self.slots_count
    }

    /// Where the slots lie in the target.
    pub closed spec fn region(&self) -> SlotRegion {
        SlotRegion { slots_ptr: self.slots_ptr, slots_count: self.slots_count }
    }

    /// Starts monitoring the slots of `region`, which were just read as
    /// `slots` at the time `now`.
    pub fn new(region: SlotRegion, slots: &Vec<StallTracker>, now: u64) -> (r: Result<
        PerpetuoProc,
        PollError,
    >)
        ensures
            slots@.len() != region.slots_count ==> r == Err::<PerpetuoProc, PollError>(
                PollError::SlotCountMismatch { expected: region.slots_count, found: slots.len() },
            ),
            slots@.len() == region.slots_count ==> r.is_ok() && r.unwrap().region() == region
                && r.unwrap()@ == initial_snapshots(slots@, now),
    {
        if slots.len() != region.slots_count {
            return Err(
                PollError::SlotCountMismatch { expected: region.slots_count, found: slots.len() },
            );
        }
        let mut last_updates: Vec<StallTrackerSnapshot> = Vec::new();
        let mut i: usize = 0;
        while i < slots.len()
            invariant
                i <= slots.len(),
                last_updates@ == initial_snapshots(slots@.subrange(0, i as int), now),
            decreases slots.len() - i,
        {
            last_updates.push(StallTrackerSnapshot { stall_tracker: slots[i], last_updated: now });
            proof {
                assert(last_updates@ =~= initial_snapshots(slots@.subrange(0, i + 1), now));
            }
            i = i + 1;
        }
        proof {
            assert(slots@.subrange(0, slots@.len() as int) =~= slots@);
        }
        Ok(
            PerpetuoProc {
                slots_ptr: region.slots_ptr,
                slots_count: region.slots_count,
                last_updates,
            },
        )
    }

    /// The address of the first slot in the target.
    pub fn slots_ptr(&self) -> (r: usize)
        ensures
            r == self.region().slots_ptr,
    {
        self.slots_ptr
    }

    /// The number of slots.
    pub fn slots_count(&self) -> (r: usize)
        ensures
            r == self.region().slots_count,
            r == self@.len(),
    {
        proof {
            use_type_invariant(self);
        }
        self.slots_count
    }

    /// The snapshot of slot `id`, if there is such a slot.
    pub fn snapshot(&self, id: usize) -> (r: Option<StallTrackerSnapshot>)
        ensures
            r == if id < self@.len() {
                Some(self@[id as int])
            } else {
                None
            },
    {
        if id < self.last_updates.len() {
            Some(self.last_updates[id])
        } else {
            None
        }
    }

    /// Takes in one poll: `current` holds every slot as just read from the
    /// target at the time `now`.
    ///
    /// A slot that is active with the counter of its snapshot keeps the
    /// snapshot, and is reported if the snapshot is at least `alert_interval`
    /// old. Every other slot gets a new snapshot. The reports come in slot
    /// order.
    pub fn check_stalls(&mut self, current: &Vec<StallTracker>, now: u64, alert_interval: u64) -> (r:
        Result<Vec<Stall>, PollError>)
        ensures
            final(self).region() == old(self).region(),
            current@.len() != old(self)@.len() ==> final(self)@ == old(self)@ && r == Err::<
                Vec<Stall>,
                PollError,
            >(
                PollError::SlotCountMismatch {
                    expected: old(self).region().slots_count,
                    found: current.len(),
                },
            ),
            current@.len() == old(self)@.len() ==> final(self)@ == observed_all(
                old(self)@,
                current@,
                now,
            ) && r.is_ok() && r.unwrap()@ == sightings(
                old(self)@,
                current@,
                now,
                alert_interval,
                current@.len(),
            ),
    {
        proof {
            use_type_invariant(&*self);
        }
        if current.len() != self.slots_count {
            return Err(
                PollError::SlotCountMismatch { expected: self.slots_count, found: current.len() },
            );
        }
        let ghost before = self.last_updates@;
        let n = current.len();
        let mut updated: Vec<StallTrackerSnapshot> = Vec::new();
        let mut stalls: Vec<Stall> = Vec::new();
        let mut id: usize = 0;
        while id < n
            invariant
                id <= n,
                n == current@.len(),
                n == before.len(),
                before == self.last_updates@,
                updated@.len() == id,
                forall|j: int| 0 <= j < id ==> updated@[j] == before[j].observed(current@[j], now),
                stalls@ == sightings(before, current@, now, alert_interval, id as nat),
            decreases n - id,
        {
            let mut snapshot = self.last_updates[id];
            let fired = snapshot.observe(current[id], now, alert_interval);
            updated.push(snapshot);
            match fired {
                Some(duration) => {
                    stalls.push(Stall { id, metadata: current[id].metadata, duration });
                },
                None => {},
            }
            id = id + 1;
        }
        proof {
            assert(updated@ =~= observed_all(before, current@, now));
        }
        self.last_updates = updated;
        Ok(stalls)
    }
}

/// Whether `stall` is the report of slot `stall.id` in a poll at `now` that
/// reads `current` against `snapshots`.
pub open spec fn reports(
    stall: Stall,
    snapshots: Seq<StallTrackerSnapshot>,
    current: Seq<StallTracker>,
    now: u64,
    alert_interval: u64,
) -> bool {
    let i = stall.id as int;
    &&& snapshots[i].fires(current[i], now, alert_interval)
    &&& stall.metadata == current[i].metadata
    &&& stall.duration == snapshots[i].age(now)
}

/// The reports of a poll are exactly the slots that fire, each once and in
/// slot order; every report tells of an odd counter that equals the
/// snapshot's, seen for at least the alert interval.
pub proof fn lemma_sightings_explained(
    snapshots: Seq<StallTrackerSnapshot>,
    current: Seq<StallTracker>,
    now: u64,
    alert_interval: u64,
    n: nat,
)
    requires
        n <= snapshots.len(),
        n <= current.len(),
        n <= usize::MAX,
    ensures
        forall|k: int|
            #![trigger sightings(snapshots, current, now, alert_interval, n)[k]]
            0 <= k < sightings(snapshots, current, now, alert_interval, n).len() ==> {
                let stall = sightings(snapshots, current, now, alert_interval, n)[k];
                &&& stall.id < n
                &&& reports(stall, snapshots, current, now, alert_interval)
                &&& current[stall.id as int].count % 2 == 1
                &&& current[stall.id as int].count == snapshots[stall.id as int].stall_tracker.count
                &&& stall.duration >= alert_interval
            },
        forall|k: int, l: int|
            #![trigger sightings(snapshots, current, now, alert_interval, n)[k], sightings(snapshots, current, now, alert_interval, n)[l]]
            0 <= k < l < sightings(snapshots, current, now, alert_interval, n).len() ==> sightings(
                snapshots,
                current,
                now,
                alert_interval,
                n,
            )[k].id < sightings(snapshots, current, now, alert_interval, n)[l].id,
        forall|i: int|
            0 <= i < n && #[trigger] snapshots[i].fires(current[i], now, alert_interval)
                ==> exists|k: int|
                0 <= k < sightings(snapshots, current, now, alert_interval, n).len()
                    && #[trigger] sightings(snapshots, current, now, alert_interval, n)[k].id == i,
    decreases n,
{
    if n > 0 {
        let m = (n - 1) as nat;
        lemma_sightings_explained(snapshots, current, now, alert_interval, m);
        let earlier = sightings(snapshots, current, now, alert_interval, m);
        let all = sightings(snapshots, current, now, alert_interval, n);
        assert forall|i: int|
            0 <= i < n && #[trigger] snapshots[i].fires(
                current[i],
                now,
                alert_interval,
            ) implies exists|k: int| 0 <= k < all.len() && #[trigger] all[k].id == i by {
            if i < m {
                let k = choose|k: int| 0 <= k < earlier.len() && #[trigger] earlier[k].id == i;
                assert(all[k].id == i);
            } else {
                assert(all[all.len() - 1].id == i);
            }
        }
    }
}

/// A snapshot's time never runs backwards while the clock does not: a poll
/// at `now` leaves it where it was or moves it to `now`.
pub proof fn lemma_last_updated_monotone(
    snapshot: StallTrackerSnapshot,
    current: StallTracker,
    now: u64,
)
    requires
        now >= snapshot.last_updated,
    ensures
        snapshot.last_updated <= snapshot.observed(current, now).last_updated <= now,
{
}

/// One read of a slot: what was read, and when.
#[derive(Clone, Copy, Debug, PartialEq, Eq, Structural)]
pub struct Observation {
    /// The slot as read.
    pub slot: StallTracker,
    /// The time of the read.
    pub at: u64,
}

/// The snapshot of a slot after the polls in `polls`, taken in order, where
/// `initial` was its snapshot before them.
pub open spec fn replay(initial: StallTrackerSnapshot, polls: Seq<Observation>) -> StallTrackerSnapshot
    decreases polls.len(),
{
    if polls.len() == 0 {
        initial
    } else {
        replay(initial, polls.drop_last()).observed(polls.last().slot, polls.last().at)
    }
}

/// The snapshot that read `j` installs; the read before all polls, `-1`, is
/// the one that made `initial`.
pub open spec fn installed_by(
    initial: StallTrackerSnapshot,
    polls: Seq<Observation>,
    j: int,
) -> StallTrackerSnapshot {
    if j < 0 {
        initial
    } else {
        StallTrackerSnapshot { stall_tracker: polls[j].slot, last_updated: polls[j].at }
    }
}

/// Every snapshot was installed by one read, and every poll since then has
/// read the same odd counter.
pub proof fn lemma_snapshot_origin(initial: StallTrackerSnapshot, polls: Seq<Observation>) -> (j:
    int)
    ensures
        -1 <= j < polls.len(),
        replay(initial, polls) == installed_by(initial, polls, j),
        forall|m: int|
            j < m < polls.len() ==> (#[trigger] polls[m]).slot.count == replay(
                initial,
                polls,
            ).stall_tracker.count && polls[m].slot.count % 2 == 1,
    decreases polls.len(),
{
    if polls.len() == 0 {
        -1
    } else {
        let before = polls.drop_last();
        let j = lemma_snapshot_origin(initial, before);
        let last = polls.last();
        if replay(initial, before).still_active(last.slot) {
            assert forall|m: int| j < m < polls.len() implies (#[trigger] polls[m]).slot.count
                == replay(initial, polls).stall_tracker.count && polls[m].slot.count % 2 == 1 by {
                if m < before.len() {
                    assert(polls[m] == before[m]);
                }
            }
            j
        } else {
            polls.len() - 1
        }
    }
}

/// Every reported stall is witnessed by two reads with the same odd counter:
/// the poll `k` that reports it, and an earlier read `j` (a poll, or the read
/// made on attaching, `-1`) that lies at least the alert interval back. Every
/// poll between the two read that counter too.
pub proof fn lemma_two_reads(
    initial: StallTrackerSnapshot,
    polls: Seq<Observation>,
    k: int,
    alert_interval: u64,
) -> (j: int)
    requires
        0 <= k < polls.len(),
        replay(initial, polls.take(k)).fires(polls[k].slot, polls[k].at, alert_interval),
    ensures
        -1 <= j < k,
        installed_by(initial, polls, j).stall_tracker.count == polls[k].slot.count,
        polls[k].slot.count % 2 == 1,
        installed_by(initial, polls, j).age(polls[k].at) >= alert_interval,
        forall|m: int| j < m < k ==> (#[trigger] polls[m]).slot.count == polls[k].slot.count,
{
    let before = polls.take(k);
    let j = lemma_snapshot_origin(initial, before);
    assert(installed_by(initial, before, j) == installed_by(initial, polls, j));
    assert forall|m: int| j < m < k implies (#[trigger] polls[m]).slot.count
        == polls[k].slot.count by {
        assert(before[m] == polls[m]);
    }
    j
}

/// Whether a snapshot holds the counter that the slot had at the snapshot's
/// time, where `counter_at` gives the slot's counter at each time.
pub open spec fn truthful(snapshot: StallTrackerSnapshot, counter_at: spec_fn(u64) -> u64) -> bool {
    snapshot.stall_tracker.count == counter_at(snapshot.last_updated)
}

/// Snapshots stay truthful under polls that read the true counter.
pub proof fn lemma_replay_truthful(
    initial: StallTrackerSnapshot,
    polls: Seq<Observation>,
    counter_at: spec_fn(u64) -> u64,
)
    requires
        truthful(initial, counter_at),
        forall|m: int|
            0 <= m < polls.len() ==> (#[trigger] polls[m]).slot.count == counter_at(polls[m].at),
    ensures
        truthful(replay(initial, polls), counter_at),
    decreases polls.len(),
{
    if polls.len() > 0 {
        let before = polls.drop_last();
        assert forall|m: int| 0 <= m < before.len() implies (#[trigger] before[m]).slot.count
            == counter_at(before[m].at) by {
            assert(before[m] == polls[m]);
        }
        lemma_replay_truthful(initial, before, counter_at);
    }
}

/// No stall is reported for a region that was entered and left again within
/// less than the alert interval.
///
/// `counter_at` gives the slot's true counter at each time; the counter has
/// the odd value `visit` only from `entered` until `left`, and that span is
/// shorter than the alert interval. Then no poll that reads the true counter
/// reports a stall with the counter `visit`.
pub proof fn lemma_no_spurious_stall(
    initial: StallTrackerSnapshot,
    polls: Seq<Observation>,
    k: int,
    alert_interval: u64,
    counter_at: spec_fn(u64) -> u64,
    visit: u64,
    entered: u64,
    left: u64,
)
    requires
        0 <= k < polls.len(),
        truthful(initial, counter_at),
        forall|m: int|
            0 <= m < polls.len() ==> (#[trigger] polls[m]).slot.count == counter_at(polls[m].at),
        forall|t: u64| #[trigger] counter_at(t) == visit ==> entered <= t < left,
        left - entered < alert_interval,
    ensures
        !(replay(initial, polls.take(k)).fires(polls[k].slot, polls[k].at, alert_interval)
            && polls[k].slot.count == visit),
{
    let before = polls.take(k);
    assert forall|m: int| 0 <= m < before.len() implies (#[trigger] before[m]).slot.count
        == counter_at(before[m].at) by {
        assert(before[m] == polls[m]);
    }
    lemma_replay_truthful(initial, before, counter_at);
    let snapshot = replay(initial, before);
    if snapshot.fires(polls[k].slot, polls[k].at, alert_interval) && polls[k].slot.count == visit {
        assert(counter_at(snapshot.last_updated) == visit);
        assert(counter_at(polls[k].at) == visit);
    }
}

} // verus!
