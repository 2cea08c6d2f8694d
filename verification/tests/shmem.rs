use perpetuo::layout::{header_size, pointer_size, slot_size, write_word, ByteOrder};
use perpetuo::shmem::{
    decode_slots, magic_bytes, ShmemHeader, SlotMetadata, StallTracker, ThreadHint, VERSION,
};

const MAGIC: [u8; 16] = [
    0xad, 0xce, b'a', b't', 0x17, b'I', 0xff, b'A', 0xe8, 0xd4, 0xe8, b'\n', b'P', 0xb1, 0xfc,
    0x86,
];

fn slot(count: u64, name_ptr: usize, name_len: usize, hint: usize) -> StallTracker {
    StallTracker {
        count,
        metadata: SlotMetadata { name_ptr, name_len, thread_hint: ThreadHint(hint) },
    }
}

#[test]
fn magic_is_the_fixed_constant() {
    assert_eq!(magic_bytes(), MAGIC);
}

#[test]
fn new_header_carries_magic_address_and_version() {
    let header = ShmemHeader::new(0x7f00_1000);
    assert_eq!(header.magic, MAGIC);
    assert_eq!(header.self_address, 0x7f00_1000);
    assert_eq!(header.version, VERSION);
    assert_eq!(VERSION, 0);
    assert!(header.has_magic());
}

#[test]
fn a_changed_magic_is_noticed() {
    for i in 0..16 {
        let mut header = ShmemHeader::new(1);
        header.magic[i] ^= 1;
        assert!(!header.has_magic());
    }
}

#[test]
fn header_bytes_are_magic_then_two_words() {
    let header = ShmemHeader { magic: MAGIC, self_address: 0x1000, version: 3 };
    let bytes = header.to_bytes(ByteOrder::Little);
    let p = pointer_size();
    assert_eq!(bytes.len(), header_size());
    assert_eq!(&bytes[..16], &MAGIC);
    let mut words = Vec::new();
    write_word(&mut words, 0x1000, ByteOrder::Little);
    write_word(&mut words, 3, ByteOrder::Little);
    assert_eq!(&bytes[16..], &words[..]);
    assert_eq!(bytes[16], 0x00);
    assert_eq!(bytes[17], 0x10);
    assert_eq!(bytes[16 + p], 3);
}

#[test]
fn header_survives_a_round_trip() {
    for order in [ByteOrder::Little, ByteOrder::Big] {
        let header = ShmemHeader { magic: MAGIC, self_address: usize::MAX - 4095, version: 999 };
        let mut bytes = header.to_bytes(order);
        assert_eq!(ShmemHeader::from_bytes(&bytes, order), Some(header));
        bytes.extend_from_slice(&[1, 2, 3]);
        assert_eq!(ShmemHeader::from_bytes(&bytes, order), Some(header));
    }
}

#[test]
fn a_short_header_is_refused() {
    let bytes = ShmemHeader::new(4096).to_bytes(ByteOrder::Little);
    assert_eq!(ShmemHeader::from_bytes(&bytes[..bytes.len() - 1], ByteOrder::Little), None);
    assert_eq!(ShmemHeader::from_bytes(&[], ByteOrder::Little), None);
}

#[test]
fn zero_bytes_are_a_header_without_magic() {
    let bytes = vec![0u8; header_size()];
    let header = ShmemHeader::from_bytes(&bytes, ByteOrder::Little).unwrap();
    assert!(!header.has_magic());
    assert_eq!(header.self_address, 0);
    assert_eq!(header.version, 0);
}

#[test]
fn toggle_flips_parity() {
    let mut tracker = slot(0, 0, 0, 0);
    assert!(!tracker.is_active());
    tracker.toggle();
    assert_eq!(tracker.count, 1);
    assert!(tracker.is_active());
    tracker.toggle();
    assert_eq!(tracker.count, 2);
    assert!(!tracker.is_active());
}

#[test]
fn toggle_leaves_the_metadata_alone() {
    let mut tracker = slot(6, 0x5000, 11, 42);
    tracker.toggle();
    assert_eq!(tracker, slot(7, 0x5000, 11, 42));
}

#[test]
fn toggle_wraps_at_the_end_of_the_counter() {
    let mut tracker = slot(u64::MAX, 0, 0, 0);
    assert!(tracker.is_active());
    tracker.toggle();
    assert_eq!(tracker.count, 0);
    assert!(!tracker.is_active());
}

#[test]
fn parity_after_many_toggles() {
    let mut tracker = slot(10, 0, 0, 0);
    for n in 1..=101u64 {
        tracker.toggle();
        assert_eq!(tracker.is_active(), n % 2 == 1);
    }
    assert_eq!(tracker.count, 111);
}

#[test]
fn slot_bytes_are_counter_then_three_words_then_padding() {
    let tracker = slot(0x0102, 0x1000, 5, 7);
    let bytes = tracker.to_bytes(ByteOrder::Little);
    let p = pointer_size();
    assert_eq!(bytes.len(), slot_size());
    assert_eq!(&bytes[..8], &[2, 1, 0, 0, 0, 0, 0, 0]);
    assert_eq!(bytes[8], 0x00);
    assert_eq!(bytes[9], 0x10);
    assert_eq!(bytes[8 + p], 5);
    assert_eq!(bytes[8 + 2 * p], 7);
    assert!(bytes[8 + 3 * p..].iter().all(|b| *b == 0));
}

#[test]
fn slot_survives_a_round_trip() {
    for order in [ByteOrder::Little, ByteOrder::Big] {
        let tracker = slot(u64::MAX - 2, usize::MAX, 1234, 99);
        let bytes = tracker.to_bytes(order);
        assert_eq!(StallTracker::from_bytes(&bytes, order), Some(tracker));
        assert_eq!(StallTracker::read_at(&bytes, 0, order), tracker);
    }
}

#[test]
fn a_blank_slot_is_all_zero_bytes() {
    let bytes = slot(0, 0, 0, 0).to_bytes(ByteOrder::Big);
    assert_eq!(bytes, vec![0u8; slot_size()]);
    assert_eq!(StallTracker::from_bytes(&bytes, ByteOrder::Big), Some(slot(0, 0, 0, 0)));
}

#[test]
fn a_short_slot_is_refused() {
    let bytes = vec![0u8; slot_size() - 1];
    assert_eq!(StallTracker::from_bytes(&bytes, ByteOrder::Little), None);
}

#[test]
fn slots_are_decoded_one_after_the_other() {
    let order = ByteOrder::Little;
    let all = [slot(1, 0x10, 1, 0), slot(2, 0x20, 2, 5), slot(3, 0x30, 3, 6)];
    let mut bytes = Vec::new();
    for tracker in &all {
        bytes.extend_from_slice(&tracker.to_bytes(order));
    }
    assert_eq!(decode_slots(&bytes, order), all.to_vec());
}

#[test]
fn bytes_behind_the_last_whole_slot_are_ignored() {
    let order = ByteOrder::Big;
    let mut bytes = slot(9, 1, 2, 3).to_bytes(order);
    bytes.extend_from_slice(&vec![0xaa; slot_size() - 1]);
    assert_eq!(decode_slots(&bytes, order), vec![slot(9, 1, 2, 3)]);
    assert_eq!(decode_slots(&[], order), Vec::new());
}
