use perpetuo::binding::{ThreadHintArg, TrackerHandle, UsageError};
use perpetuo::discovery::SlotRegion;
use perpetuo::layout::slot_size;
use perpetuo::pool::SlotPool;
use perpetuo::shmem::ThreadHint;

fn gil() -> ThreadHintArg {
    ThreadHintArg::String("gil".to_string())
}

#[test]
fn the_word_gil_is_the_global_lock_hint() {
    assert_eq!(gil().encode(), Ok(ThreadHint::gil()));
    assert_eq!(gil().encode(), Ok(ThreadHint(0)));
}

#[test]
fn other_words_are_refused() {
    for word in ["GIL", "gil ", "", "thread", "0"] {
        assert_eq!(
            ThreadHintArg::String(word.to_string()).encode(),
            Err(UsageError::UnknownHint)
        );
    }
}

#[test]
fn a_thread_id_is_that_thread() {
    assert_eq!(ThreadHintArg::Int(1).encode(), Ok(ThreadHint(1)));
    assert_eq!(ThreadHintArg::Int(usize::MAX).encode(), Ok(ThreadHint(usize::MAX)));
}

#[test]
fn the_thread_id_zero_is_refused() {
    assert_eq!(ThreadHintArg::Int(0).encode(), Err(UsageError::ZeroThreadId));
}

#[test]
fn a_new_handle_holds_an_active_slot() {
    let mut pool = SlotPool::new(4);
    let handle = TrackerHandle::new(&mut pool, "main".to_string(), 0x100, &gil()).unwrap();
    assert_eq!(handle.slot_id(), Some(3));
    assert_eq!(handle.is_active(&pool), Ok(true));
    assert_eq!(pool.slot(3).unwrap().metadata.thread_hint, ThreadHint(0));
    assert_eq!(pool.slot(3).unwrap().metadata.name_len, 4);
    assert_eq!(pool.free_count(), 3);
}

#[test]
fn a_refused_hint_takes_no_slot() {
    let mut pool = SlotPool::new(4);
    let bad = ThreadHintArg::String("nope".to_string());
    let result = TrackerHandle::new(&mut pool, "main".to_string(), 0x100, &bad);
    assert_eq!(result.err(), Some(UsageError::UnknownHint));
    let zero = ThreadHintArg::Int(0);
    let result = TrackerHandle::new(&mut pool, "main".to_string(), 0x100, &zero);
    assert_eq!(result.err(), Some(UsageError::ZeroThreadId));
    assert_eq!(pool.free_count(), 4);
}

#[test]
fn a_full_pool_gives_no_handle() {
    let mut pool = SlotPool::new(1);
    let _held = TrackerHandle::new(&mut pool, "a".to_string(), 0x100, &gil()).unwrap();
    let result = TrackerHandle::new(&mut pool, "b".to_string(), 0x200, &gil());
    assert_eq!(result.err(), Some(UsageError::OutOfSlots));
}

#[test]
fn entering_twice_is_an_error() {
    let mut pool = SlotPool::new(2);
    let handle = TrackerHandle::new(&mut pool, "a".to_string(), 0x100, &gil()).unwrap();
    assert_eq!(handle.go_active(&mut pool), Err(UsageError::AlreadyActive));
    assert_eq!(pool.slot(1).unwrap().count, 1);
}

#[test]
fn leaving_twice_is_an_error() {
    let mut pool = SlotPool::new(2);
    let handle = TrackerHandle::new(&mut pool, "a".to_string(), 0x100, &gil()).unwrap();
    assert_eq!(handle.go_idle(&mut pool), Ok(()));
    assert_eq!(handle.is_active(&pool), Ok(false));
    assert_eq!(handle.go_idle(&mut pool), Err(UsageError::AlreadyIdle));
    assert_eq!(pool.slot(1).unwrap().count, 2);
}

#[test]
fn entering_and_leaving_count_up() {
    let mut pool = SlotPool::new(2);
    let handle = TrackerHandle::new(&mut pool, "a".to_string(), 0x100, &gil()).unwrap();
    assert_eq!(handle.go_idle(&mut pool), Ok(()));
    for round in 0..5u64 {
        assert_eq!(handle.go_active(&mut pool), Ok(()));
        assert_eq!(handle.is_active(&pool), Ok(true));
        assert_eq!(pool.slot(1).unwrap().count, 3 + 2 * round);
        assert_eq!(handle.go_idle(&mut pool), Ok(()));
        assert_eq!(handle.is_active(&pool), Ok(false));
    }
    assert_eq!(pool.slot(1).unwrap().count, 12);
}

#[test]
fn closing_gives_the_slot_back() {
    let mut pool = SlotPool::new(2);
    let mut handle = TrackerHandle::new(&mut pool, "a".to_string(), 0x100, &gil()).unwrap();
    handle.go_idle(&mut pool).unwrap();
    assert_eq!(handle.close(&mut pool), Ok(()));
    assert_eq!(handle.slot_id(), None);
    assert_eq!(pool.free_count(), 2);
    assert!(!pool.allocated(1));
}

#[test]
fn a_closed_handle_is_of_no_use() {
    let mut pool = SlotPool::new(2);
    let mut handle = TrackerHandle::new(&mut pool, "a".to_string(), 0x100, &gil()).unwrap();
    handle.go_idle(&mut pool).unwrap();
    handle.close(&mut pool).unwrap();
    assert_eq!(handle.is_active(&pool), Err(UsageError::Closed));
    assert_eq!(handle.go_active(&mut pool), Err(UsageError::Closed));
    assert_eq!(handle.go_idle(&mut pool), Err(UsageError::Closed));
    let region = SlotRegion { slots_ptr: 0x1020, slots_count: 2 };
    assert_eq!(handle.counter_address(&region), Err(UsageError::Closed));
    assert_eq!(handle.close(&mut pool), Ok(()));
    assert_eq!(pool.free_count(), 2);
}

#[test]
fn closing_an_active_handle_is_an_error_and_closes_it() {
    let mut pool = SlotPool::new(2);
    let mut handle = TrackerHandle::new(&mut pool, "a".to_string(), 0x100, &gil()).unwrap();
    assert_eq!(handle.close(&mut pool), Err(UsageError::ReleaseWhileActive));
    assert_eq!(handle.slot_id(), None);
    assert!(pool.allocated(1));
    assert!(pool.slot(1).unwrap().is_active());
    assert_eq!(pool.free_count(), 1);
    assert_eq!(handle.close(&mut pool), Ok(()));
}

#[test]
fn the_counter_lies_at_the_start_of_the_slot() {
    let mut pool = SlotPool::new(4);
    let first = TrackerHandle::new(&mut pool, "a".to_string(), 0x100, &gil()).unwrap();
    let second = TrackerHandle::new(&mut pool, "b".to_string(), 0x200, &gil()).unwrap();
    let region = SlotRegion { slots_ptr: 0x7000_0020, slots_count: 4 };
    assert_eq!(first.counter_address(&region), Ok(0x7000_0020 + 3 * slot_size()));
    assert_eq!(second.counter_address(&region), Ok(0x7000_0020 + 2 * slot_size()));
    let small = SlotRegion { slots_ptr: 0x7000_0020, slots_count: 3 };
    assert_eq!(first.counter_address(&small), Err(UsageError::Closed));
}
