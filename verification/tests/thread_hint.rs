use perpetuo::shmem::{ThreadHint, ThreadHintError};

#[test]
fn thread_id_zero_is_refused() {
    assert_eq!(ThreadHint::from_thread_id(0), Err(ThreadHintError::ZeroThreadId));
}

#[test]
fn thread_id_round_trips() {
    let hint = ThreadHint::from_thread_id(4242).unwrap();
    assert!(!hint.is_gil());
    assert_eq!(hint.thread_id(), Ok(4242));
}

#[test]
fn gil_hint_names_no_thread() {
    let hint = ThreadHint::gil();
    assert!(hint.is_gil());
    assert_eq!(hint.thread_id(), Err(ThreadHintError::NotAThread));
}
