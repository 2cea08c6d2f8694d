use perpetuo::detector::{
    NameDecodeFailed, PerpetuoProc, PollError, Stall, StallReport, StallTrackerSnapshot,
};
use perpetuo::discovery::SlotRegion;
use perpetuo::log::StallDetails;
use perpetuo::report::RateLimiter;
use perpetuo::shmem::{SlotMetadata, StallTracker, ThreadHint};
use perpetuo::trace::{split_traces, Frame, StackTrace};

const MS: u64 = 1_000_000;

fn slot(count: u64) -> StallTracker {
    StallTracker {
        count,
        metadata: SlotMetadata { name_ptr: 0x5000, name_len: 4, thread_hint: ThreadHint(0) },
    }
}

fn monitor(slots: &Vec<StallTracker>, now: u64) -> PerpetuoProc {
    let region = SlotRegion { slots_ptr: 0x1020, slots_count: slots.len() };
    PerpetuoProc::new(region, slots, now).unwrap()
}

#[test]
fn a_new_monitor_snapshots_every_slot() {
    let slots = vec![slot(0), slot(3), slot(8)];
    let proc = monitor(&slots, 77);
    assert_eq!(proc.slots_ptr(), 0x1020);
    assert_eq!(proc.slots_count(), 3);
    for id in 0..3 {
        assert_eq!(
            proc.snapshot(id),
            Some(StallTrackerSnapshot { stall_tracker: slots[id], last_updated: 77 })
        );
    }
    assert_eq!(proc.snapshot(3), None);
}

#[test]
fn a_monitor_wants_one_slot_per_slot_of_the_region() {
    let region = SlotRegion { slots_ptr: 0x1020, slots_count: 2 };
    let result = PerpetuoProc::new(region, &vec![slot(0)], 0);
    assert_eq!(result.err(), Some(PollError::SlotCountMismatch { expected: 2, found: 1 }));
}

#[test]
fn a_poll_with_the_wrong_number_of_slots_changes_nothing() {
    let slots = vec![slot(1), slot(2)];
    let mut proc = monitor(&slots, 0);
    let result = proc.check_stalls(&vec![slot(5)], 900 * MS, 200 * MS);
    assert_eq!(result, Err(PollError::SlotCountMismatch { expected: 2, found: 1 }));
    assert_eq!(proc.snapshot(0).unwrap().stall_tracker.count, 1);
    assert_eq!(proc.snapshot(0).unwrap().last_updated, 0);
}

#[test]
fn observe_keeps_the_snapshot_of_a_stalled_slot() {
    let mut snapshot = StallTrackerSnapshot { stall_tracker: slot(3), last_updated: 100 };
    assert_eq!(snapshot.observe(slot(3), 150, 200), None);
    assert_eq!(snapshot, StallTrackerSnapshot { stall_tracker: slot(3), last_updated: 100 });
    assert_eq!(snapshot.observe(slot(3), 299, 200), None);
    assert_eq!(snapshot.observe(slot(3), 300, 200), Some(200));
    assert_eq!(snapshot.observe(slot(3), 1000, 200), Some(900));
    assert_eq!(snapshot, StallTrackerSnapshot { stall_tracker: slot(3), last_updated: 100 });
}

#[test]
fn observe_replaces_the_snapshot_on_progress() {
    let mut snapshot = StallTrackerSnapshot { stall_tracker: slot(3), last_updated: 100 };
    assert_eq!(snapshot.observe(slot(5), 900, 200), None);
    assert_eq!(snapshot, StallTrackerSnapshot { stall_tracker: slot(5), last_updated: 900 });
    assert_eq!(snapshot.observe(slot(6), 2000, 200), None);
    assert_eq!(snapshot, StallTrackerSnapshot { stall_tracker: slot(6), last_updated: 2000 });
}

#[test]
fn an_idle_slot_never_stalls() {
    let mut snapshot = StallTrackerSnapshot { stall_tracker: slot(4), last_updated: 0 };
    assert_eq!(snapshot.observe(slot(4), 10_000, 200), None);
    assert_eq!(snapshot.last_updated, 10_000);
    assert_eq!(snapshot.observe(slot(4), 20_000, 200), None);
    assert_eq!(snapshot.last_updated, 20_000);
}

#[test]
fn a_clock_that_runs_backwards_gives_no_age() {
    let mut snapshot = StallTrackerSnapshot { stall_tracker: slot(3), last_updated: 500 };
    assert_eq!(snapshot.observe(slot(3), 100, 1), None);
    assert_eq!(snapshot.observe(slot(3), 100, 0), Some(0));
}

#[test]
fn a_single_poll_never_fires_on_a_fresh_counter() {
    let mut proc = monitor(&vec![slot(2)], 0);
    let stalls = proc.check_stalls(&vec![slot(3)], 10_000 * MS, 200 * MS).unwrap();
    assert_eq!(stalls, Vec::new());
    assert_eq!(proc.snapshot(0).unwrap().last_updated, 10_000 * MS);
}

#[test]
fn stalls_come_in_slot_order_with_the_metadata_just_read() {
    let before = vec![slot(1), slot(2), slot(5), slot(7)];
    let mut proc = monitor(&before, 0);
    let mut now = vec![slot(1), slot(2), slot(9), slot(7)];
    now[3].metadata.name_ptr = 0x9999;
    let stalls = proc.check_stalls(&now, 250 * MS, 200 * MS).unwrap();
    assert_eq!(
        stalls,
        vec![
            Stall { id: 0, metadata: now[0].metadata, duration: 250 * MS },
            Stall { id: 3, metadata: now[3].metadata, duration: 250 * MS },
        ]
    );
    assert_eq!(proc.snapshot(0).unwrap().last_updated, 0);
    assert_eq!(proc.snapshot(1).unwrap().last_updated, 250 * MS);
    assert_eq!(proc.snapshot(2).unwrap(), StallTrackerSnapshot {
        stall_tracker: slot(9),
        last_updated: 250 * MS
    });
    assert_eq!(proc.snapshot(3).unwrap().stall_tracker, slot(7));
}

fn sampled(thread_id: u64, owns_gil: bool) -> StackTrace {
    StackTrace {
        thread_id,
        owns_gil,
        status: "active".to_string(),
        frames: vec![Frame {
            name: "spin".to_string(),
            filename: "app.py".to_string(),
            line: 3,
            locals: None,
        }],
    }
}

#[test]
fn basic_stall() {
    let held = slot(1);
    let traces = vec![sampled(1, false), sampled(2, true), sampled(3, false)];
    let mut proc = monitor(&vec![slot(0)], 0);
    let mut limiter = RateLimiter::new(0);
    let mut sightings = Vec::new();
    let mut dumps = Vec::new();
    let mut t = 50 * MS;
    while t <= 1000 * MS {
        for stall in proc.check_stalls(&vec![held], t, 200 * MS).unwrap() {
            sightings.push((t, stall));
            let report = stall.named("main".as_bytes().to_vec()).unwrap();
            if limiter.request(t, 30_000 * MS) {
                dumps.push(StallDetails::with_traces(&report, &traces, Vec::new()));
            }
        }
        t += 50 * MS;
    }
    assert!(!sightings.is_empty());
    let (first_at, first) = sightings[0];
    assert_eq!(first_at, 250 * MS);
    assert!(first.duration >= 200 * MS);
    assert_eq!(first.duration, 200 * MS);
    assert_eq!(first.id, 0);
    let (last_at, last) = sightings[sightings.len() - 1];
    assert_eq!(last_at, 1000 * MS);
    assert_eq!(last.duration, 950 * MS);

    assert!(dumps.len() >= 1 && dumps.len() <= 2);
    assert_eq!(dumps.len(), 1);
    assert!(dumps[0].length >= 200 * MS);
    assert!(!dumps[0].relevant_traces.is_empty());
    let (relevant, _) = split_traces(ThreadHint::gil(), &traces);
    assert_eq!(relevant.len(), dumps[0].relevant_traces.len());
    assert!(relevant.iter().all(|trace| trace.owns_gil));
}

#[test]
fn no_false_positive_at_threshold() {
    let mut proc = monitor(&vec![slot(0)], 0);
    let mut t = 0;
    let mut records = 0;
    while t <= 5000 * MS {
        let count = 1 + t / (100 * MS);
        records += proc.check_stalls(&vec![slot(count)], t, 200 * MS).unwrap().len();
        t += 50 * MS;
    }
    assert_eq!(records, 0);
}

#[test]
fn a_region_left_just_before_the_threshold_is_not_reported() {
    let mut proc = monitor(&vec![slot(2)], 0);
    let mut records = 0;
    for (t, count) in [(10, 3), (100, 3), (209, 3), (210, 4), (400, 4), (410, 5), (600, 5)] {
        records += proc.check_stalls(&vec![slot(count)], t * MS, 200 * MS).unwrap().len();
    }
    assert_eq!(records, 0);
    let stalls = proc.check_stalls(&vec![slot(5)], 610 * MS, 200 * MS).unwrap();
    assert_eq!(stalls.len(), 1);
    assert_eq!(stalls[0].duration, 200 * MS);
}

#[test]
fn a_stall_is_named_from_the_bytes_read() {
    let stall = Stall {
        id: 4,
        metadata: SlotMetadata { name_ptr: 0x7000, name_len: 6, thread_hint: ThreadHint(31) },
        duration: 5,
    };
    assert_eq!(
        stall.named("worker".as_bytes().to_vec()),
        Ok(StallReport {
            id: 4,
            name: "worker".to_string(),
            thread_hint: ThreadHint(31),
            duration: 5
        })
    );
    assert_eq!(stall.named("grüße ✓".as_bytes().to_vec()).unwrap().name, "grüße ✓");
    assert_eq!(stall.named(Vec::new()).unwrap().name, "");
}

#[test]
fn a_name_that_is_not_utf8_is_refused() {
    let stall = Stall {
        id: 9,
        metadata: SlotMetadata { name_ptr: 0x7000, name_len: 2, thread_hint: ThreadHint(0) },
        duration: 5,
    };
    assert_eq!(stall.named(vec![0xff, 0xfe]), Err(NameDecodeFailed { id: 9 }));
    assert_eq!(stall.named(vec![b'a', 0xc3]), Err(NameDecodeFailed { id: 9 }));
    assert_eq!(stall.named(vec![0xed, 0xa0, 0x80]), Err(NameDecodeFailed { id: 9 }));
    assert_eq!(stall.named(vec![0xc0, 0x80]), Err(NameDecodeFailed { id: 9 }));
}
