//! The records of the shared page and the hint that names a responsible thread.

use crate::layout::{
    header_size, lemma_u64_roundtrip, lemma_word_roundtrip, pointer_size, slot_size,
    spec_header_size, spec_slot_size, u64_at, u64_bytes, word_at, word_bytes, word_size,
    word_value, write_u64, write_word, ByteOrder,
};
use vstd::prelude::*;

verus! {

/// The layout version that this library writes and accepts.
pub const VERSION: usize = 0;

/// The sixteen bytes that open the shared page.
pub open spec fn magic() -> Seq<u8> {
    seq![
        0xadu8, 0xceu8, 0x61u8, 0x74u8, 0x17u8, 0x49u8, 0xffu8, 0x41u8,
        0xe8u8, 0xd4u8, 0xe8u8, 0x0au8, 0x50u8, 0xb1u8, 0xfcu8, 0x86u8,
    ]
}

/// The sixteen bytes that open the shared page.
pub fn magic_bytes() -> (r: [u8; 16])
    ensures
        r@ == magic(),
{
    let r: [u8; 16] = [
        0xad, 0xce, 0x61, 0x74, 0x17, 0x49, 0xff, 0x41,
        0xe8, 0xd4, 0xe8, 0x0a, 0x50, 0xb1, 0xfc, 0x86,
    ];
    proof {
        assert(r@ =~= magic());
    }
    r
}

/// Why a thread hint could not be made or read.
#[derive(Clone, Copy, Debug, PartialEq, Eq, Structural)]
pub enum ThreadHintError {
    /// Zero was given where a thread id was meant.
    ZeroThreadId,
    /// The hint names the holder of the global lock, not a thread.
    NotAThread,
}

/// Who is expected to do the work that a slot watches: the holder of the
/// global lock (the raw value zero), or the thread with the given id.
#[derive(Clone, Copy, Debug, PartialEq, Eq, Structural)]
pub struct ThreadHint(pub usize);

impl ThreadHint {
    /// The hint that stands for the holder of the global lock.
    pub fn gil() -> (r: ThreadHint)
        ensures
            r == ThreadHint(0),
    {
        ThreadHint(0)
    }

    /// The hint for the thread `id`; zero is refused, since it is the raw
    /// value of the global-lock hint.
    pub fn from_thread_id(id: usize) -> (r: Result<ThreadHint, ThreadHintError>)
        ensures
            id == 0 ==> r == Err::<ThreadHint, ThreadHintError>(ThreadHintError::ZeroThreadId),
            id != 0 ==> r == Ok::<ThreadHint, ThreadHintError>(ThreadHint(id)),
    {
        if id == 0 {
            return Err(ThreadHintError::ZeroThreadId);
        }
        Ok(ThreadHint(id))
    }

    /// Whether the hint stands for the holder of the global lock.
    pub fn is_gil(self) -> (r: bool)
        ensures
            r == (self.0 == 0),
    {
        self.0 == 0
    }

    /// The thread id that the hint names, unless it is the global-lock hint.
    pub fn thread_id(self) -> (r: Result<usize, ThreadHintError>)
        ensures
            self.0 == 0 ==> r == Err::<usize, ThreadHintError>(ThreadHintError::NotAThread),
            self.0 != 0 ==> r == Ok::<usize, ThreadHintError>(self.0),
    {
        if self.is_gil() {
            return Err(ThreadHintError::NotAThread);
        }
        Ok(self.0)
    }
}

/// The header at the start of the shared page.
#[derive(Clone, Copy, Debug, PartialEq, Eq)]
pub struct ShmemHeader {
    /// The bytes that mark the page.
    pub magic: [u8; 16],
    /// The address at which the page is mapped in the process that made it.
    pub self_address: usize,
    /// The layout version of the page.
    pub version: usize,
}

impl ShmemHeader {
    /// The bytes of the header: the magic, then the two words.
    pub open spec fn bytes(self, order: ByteOrder) -> Seq<u8> {
        self.magic@ + word_bytes(self.self_address, order) + word_bytes(self.version, order)
    }

    /// Whether the header is what the first bytes of `bytes` hold.
    pub open spec fn read_from(self, bytes: Seq<u8>, order: ByteOrder) -> bool {
        &&& self.magic@ == bytes.subrange(0, 16)
        &&& self.self_address == word_value(bytes.subrange(16, 16 + word_size() as int), order)
        &&& self.version == word_value(
            bytes.subrange(16 + word_size() as int, 16 + 2 * (word_size() as int)),
            order,
        )
    }

    /// The header of a page of this version that is mapped at `self_address`.
    pub fn new(self_address: usize) -> (r: ShmemHeader)
        ensures
            r.magic@ == magic(),
            r.self_address == self_address,
            r.version == VERSION,
    {
        ShmemHeader { magic: magic_bytes(), self_address, version: VERSION }
    }

    /// Whether the header carries the magic of this library.
    pub fn has_magic(&self) -> (r: bool)
        ensures
            r == (self.magic@ == magic()),
    {
        let expected = magic_bytes();
        let mut i: usize = 0;
        while i < 16
            invariant
                i <= 16,
                expected@ == magic(),
                forall|j: int| 0 <= j < i ==> self.magic@[j] == expected@[j],
            decreases 16 - i,
        {
            if self.magic[i] != expected[i] {
                return false;
            }
            i = i + 1;
        }
        proof {
            assert(self.magic@ =~= magic());
        }
        true
    }

    /// The bytes of the header, as they lie at the start of the page.
    pub fn to_bytes(&self, order: ByteOrder) -> (r: Vec<u8>)
        ensures
            r@ == self.bytes(order),
            r@.len() == spec_header_size(),
    {
        let mut out: Vec<u8> = Vec::new();
        let mut i: usize = 0;
        while i < 16
            invariant
                i <= 16,
                out@ == self.magic@.subrange(0, i as int),
            decreases 16 - i,
        {
            out.push(self.magic[i]);
            proof {
                assert(out@ =~= self.magic@.subrange(0, i + 1));
            }
            i = i + 1;
        }
        proof {
            assert(self.magic@.subrange(0, 16) =~= self.magic@);
            lemma_word_roundtrip(self.self_address, order);
            lemma_word_roundtrip(self.version, order);
        }
        write_word(&mut out, self.self_address, order);
        write_word(&mut out, self.version, order);
        out
    }

    /// Reads a header from the start of `bytes`; `None` where `bytes` is
    /// shorter than a header.
    pub fn from_bytes(bytes: &[u8], order: ByteOrder) -> (r: Option<ShmemHeader>)
        ensures
            r.is_some() <==> bytes@.len() >= spec_header_size(),
            r.is_some() ==> r.unwrap().read_from(bytes@, order),
    {
        if bytes.len() < header_size() {
            return None;
        }
        let p = pointer_size();
        let mut magic: [u8; 16] = [0u8; 16];
        let mut i: usize = 0;
        while i < 16
            invariant
                i <= 16,
                bytes@.len() >= 16,
                forall|j: int| 0 <= j < i ==> magic@[j] == bytes@[j],
            decreases 16 - i,
        {
            magic[i] = bytes[i];
            i = i + 1;
        }
        proof {
            assert(magic@ =~= bytes@.subrange(0, 16));
        }
        let self_address = word_at(bytes, 16, order);
        let version = word_at(bytes, 16 + p, order);
        Some(ShmemHeader { magic, self_address, version })
    }

    /// A header is read back from its own bytes, whatever follows them.
    pub proof fn lemma_roundtrip(self, rest: Seq<u8>, order: ByteOrder)
        ensures
            (self.bytes(order) + rest).len() >= spec_header_size(),
            self.read_from(self.bytes(order) + rest, order),
    {
        lemma_word_roundtrip(self.self_address, order);
        lemma_word_roundtrip(self.version, order);
        let all = self.bytes(order) + rest;
        let p = word_size() as int;
        assert(all.subrange(0, 16) =~= self.magic@);
        assert(all.subrange(16, 16 + p) =~= word_bytes(self.self_address, order));
        assert(all.subrange(16 + p, 16 + 2 * p) =~= word_bytes(self.version, order));
    }
}

/// What a slot says of the region that it watches.
#[derive(Clone, Copy, Debug, PartialEq, Eq, Structural)]
pub struct SlotMetadata {
    /// The address of the region's name in the process that owns the slot.
    pub name_ptr: usize,
    /// The length of that name in bytes.
    pub name_len: usize,
    /// Who is expected to do the region's work.
    pub thread_hint: ThreadHint,
}

/// One slot of the shared page, as a value: the progress counter and the
/// metadata beside it. The counter is odd while the region is active.
#[derive(Clone, Copy, Debug, PartialEq, Eq, Structural)]
pub struct StallTracker {
    /// The progress counter: each entry and each exit adds one.
    pub count: u64,
    /// The metadata, written before the counter first becomes odd.
    pub metadata: SlotMetadata,
}

impl StallTracker {
    /// Whether the region is active: the counter is odd.
    pub open spec fn spec_is_active(&self) -> bool {
        self.count % 2 == 1
    }

    /// The slot after one more entry or exit.
    pub open spec fn toggled(self) -> StallTracker {
        StallTracker {
            count: if self.count == u64::MAX {
                0
            } else {
                (self.count + 1) as u64
            },
            metadata: self.metadata,
        }
    }

    /// The slot after `n` entries and exits.
    pub open spec fn toggled_times(self, n: nat) -> StallTracker
        decreases n,
    {
        if n == 0 {
            self
        } else {
            self.toggled_times((n - 1) as nat).toggled()
        }
    }

    /// Parity tells whether the region is active: every entry and every exit
    /// flips it, so after `n` of them the region is active exactly if it was
    /// active before and `n` is even, or idle before and `n` is odd. The
    /// metadata stays as it was.
    pub proof fn lemma_parity(self, n: nat)
        ensures
            self.toggled_times(n).spec_is_active() == (self.spec_is_active() != (n % 2 == 1)),
            self.toggled_times(n).metadata == self.metadata,
        decreases n,
    {
        if n > 0 {
            self.lemma_parity((n - 1) as nat);
        }
    }

    /// The bytes of the slot: the counter, the three words of metadata, and
    /// zeros up to the slot's size.
    pub open spec fn bytes(self, order: ByteOrder) -> Seq<u8> {
        u64_bytes(self.count, order) + word_bytes(self.metadata.name_ptr, order) + word_bytes(
            self.metadata.name_len,
            order,
        ) + word_bytes(self.metadata.thread_hint.0, order) + Seq::new(
            (spec_slot_size() - 8 - 3 * word_size()) as nat,
            |i: int| 0u8,
        )
    }

    /// The slot that the first bytes of `bytes` hold.
    pub open spec fn read_from(bytes: Seq<u8>, order: ByteOrder) -> StallTracker {
        let p = word_size() as int;
        StallTracker {
            count: word_value(bytes.subrange(0, 8), order) as u64,
            metadata: SlotMetadata {
                name_ptr: word_value(bytes.subrange(8, 8 + p), order) as usize,
                name_len: word_value(bytes.subrange(8 + p, 8 + 2 * p), order) as usize,
                thread_hint: ThreadHint(
                    word_value(bytes.subrange(8 + 2 * p, 8 + 3 * p), order) as usize,
                ),
            },
        }
    }

    /// Marks one entry into the region or one exit from it: the counter goes
    /// up by one, so its parity flips.
    pub fn toggle(&mut self)
        ensures
            *final(self) == old(self).toggled(),
            final(self).spec_is_active() == !old(self).spec_is_active(),
    {
        self.count = self.count.wrapping_add(1);
    }

    /// Whether the region is active.
    #[verifier::when_used_as_spec(spec_is_active)]
    pub fn is_active(&self) -> (r: bool)
        ensures
            r == self.spec_is_active(),
    {
        self.count % 2 == 1
    }

    /// The slot that lies at `at` in `bytes`.
    pub fn read_at(bytes: &[u8], at: usize, order: ByteOrder) -> (r: StallTracker)
        requires
            at + spec_slot_size() <= bytes@.len(),
        ensures
            r == StallTracker::read_from(bytes@.subrange(at as int, at + spec_slot_size()), order),
    {
        let p = pointer_size();
        let s = slot_size();
        let len = bytes.len();
        let ghost whole = bytes@.subrange(at as int, at + s);
        proof {
            assert(whole.subrange(0, 8) =~= bytes@.subrange(at as int, at + 8));
            assert(whole.subrange(8, 8 + p) =~= bytes@.subrange(at + 8, at + 8 + p));
            assert(whole.subrange(8 + p, 8 + 2 * p) =~= bytes@.subrange(
                at + 8 + p,
                at + 8 + p + p,
            ));
            assert(whole.subrange(8 + 2 * p, 8 + 3 * p) =~= bytes@.subrange(
                at + 8 + 2 * p,
                at + 8 + 2 * p + p,
            ));
        }
        let count = u64_at(bytes, at, order);
        let name_ptr = word_at(bytes, at + 8, order);
        let name_len = word_at(bytes, at + 8 + p, order);
        let hint = word_at(bytes, at + 8 + 2 * p, order);
        StallTracker {
            count,
            metadata: SlotMetadata { name_ptr, name_len, thread_hint: ThreadHint(hint) },
        }
    }

    /// Reads a slot from the start of `bytes`; `None` where `bytes` is
    /// shorter than a slot.
    pub fn from_bytes(bytes: &[u8], order: ByteOrder) -> (r: Option<StallTracker>)
        ensures
            r.is_some() <==> bytes@.len() >= spec_slot_size(),
            r.is_some() ==> r.unwrap() == StallTracker::read_from(bytes@, order),
    {
        if bytes.len() < slot_size() {
            return None;
        }
        let r = StallTracker::read_at(bytes, 0, order);
        proof {
            let p = word_size() as int;
            let head = bytes@.subrange(0, 0 + spec_slot_size() as int);
            assert(head.subrange(0, 8) =~= bytes@.subrange(0, 8));
            assert(head.subrange(8, 8 + p) =~= bytes@.subrange(8, 8 + p));
            assert(head.subrange(8 + p, 8 + 2 * p) =~= bytes@.subrange(8 + p, 8 + 2 * p));
            assert(head.subrange(8 + 2 * p, 8 + 3 * p) =~= bytes@.subrange(8 + 2 * p, 8 + 3 * p));
        }
        Some(r)
    }

    /// The bytes of the slot, as they lie in the page.
    pub fn to_bytes(&self, order: ByteOrder) -> (r: Vec<u8>)
        ensures
            r@ == self.bytes(order),
            r@.len() == spec_slot_size(),
    {
        let p = pointer_size();
        let s = slot_size();
        let mut out: Vec<u8> = Vec::new();
        write_u64(&mut out, self.count, order);
        write_word(&mut out, self.metadata.name_ptr, order);
        write_word(&mut out, self.metadata.name_len, order);
        write_word(&mut out, self.metadata.thread_hint.0, order);
        proof {
            lemma_u64_roundtrip(self.count, order);
            lemma_word_roundtrip(self.metadata.name_ptr, order);
            lemma_word_roundtrip(self.metadata.name_len, order);
            lemma_word_roundtrip(self.metadata.thread_hint.0, order);
        }
        let ghost body = out@;
        let pad = s - 8 - 3 * p;
        let mut i: usize = 0;
        while i < pad
            invariant
                i <= pad,
                out@ == body + Seq::new(i as nat, |j: int| 0u8),
            decreases pad - i,
        {
            out.push(0u8);
            proof {
                assert(out@ =~= body + Seq::new((i + 1) as nat, |j: int| 0u8));
            }
            i = i + 1;
        }
        out
    }

    /// A slot is read back from its own bytes, whatever follows them.
    pub proof fn lemma_roundtrip(self, rest: Seq<u8>, order: ByteOrder)
        ensures
            self.bytes(order).len() == spec_slot_size(),
            StallTracker::read_from(self.bytes(order) + rest, order) == self,
    {
        lemma_u64_roundtrip(self.count, order);
        lemma_word_roundtrip(self.metadata.name_ptr, order);
        lemma_word_roundtrip(self.metadata.name_len, order);
        lemma_word_roundtrip(self.metadata.thread_hint.0, order);
        let all = self.bytes(order) + rest;
        let p = word_size() as int;
        assert(all.subrange(0, 8) =~= u64_bytes(self.count, order));
        assert(all.subrange(8, 8 + p) =~= word_bytes(self.metadata.name_ptr, order));
        assert(all.subrange(8 + p, 8 + 2 * p) =~= word_bytes(self.metadata.name_len, order));
        assert(all.subrange(8 + 2 * p, 8 + 3 * p) =~= word_bytes(
            self.metadata.thread_hint.0,
            order,
        ));
    }
}

/// The slots that `bytes` hold, one after the other; bytes behind the last
/// whole slot are ignored.
pub open spec fn slots_in(bytes: Seq<u8>, order: ByteOrder) -> Seq<StallTracker> {
    Seq::new(
        bytes.len() / spec_slot_size(),
        |i: int|
            StallTracker::read_from(
                bytes.subrange(i * spec_slot_size(), (i + 1) * spec_slot_size()),
                order,
            ),
    )
}

/// Reads the slot array of a page from the bytes that were copied out of the
/// target.
pub fn decode_slots(bytes: &[u8], order: ByteOrder) -> (r: Vec<StallTracker>)
    ensures
        r@ == slots_in(bytes@, order),
{
    let s = slot_size();
    let len = bytes.len();
    let count = len / s;
    let mut slots: Vec<StallTracker> = Vec::new();
    let mut i: usize = 0;
    proof {
        assert(count * s <= len) by (nonlinear_arith)
            requires
                count == len / s,
                s > 0,
        ;
    }
    while i < count
        invariant
            i <= count,
            s == spec_slot_size(),
            len == bytes@.len(),
            count == len / s,
            count * s <= len,
            slots@.len() == i,
            forall|j: int|
                0 <= j < i ==> slots@[j] == StallTracker::read_from(
                    bytes@.subrange(j * spec_slot_size(), (j + 1) * spec_slot_size()),
                    order,
                ),
        decreases count - i,
    {
        proof {
            assert(i * s + s <= count * s) by (nonlinear_arith)
                requires
                    i < count,
                    s > 0,
            ;
            assert((i + 1) * s == i * s + s) by (nonlinear_arith);
        }
        let slot = StallTracker::read_at(bytes, i * s, order);
        slots.push(slot);
        i = i + 1;
    }
    proof {
        assert(slots@ =~= slots_in(bytes@, order));
    }
    slots
}

} // verus!
