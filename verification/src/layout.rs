//! How the shared page is laid out in bytes: words of pointer width in either
//! byte order, and the arithmetic that places the slots behind the header.

use vstd::prelude::*;

verus! {

/// The order in which the bytes of a word lie in memory.
#[derive(Clone, Copy, Debug, PartialEq, Eq, Structural)]
pub enum ByteOrder {
    /// Least significant byte first.
    Little,
    /// Most significant byte first.
    Big,
}

/// The number of bytes in a word of pointer width: 4 or 8.
pub open spec fn word_size() -> nat {
    (usize::BITS / 8) as nat
}

/// 256 to the power `n`: the number of values that `n` bytes can hold.
pub open spec fn radix(n: nat) -> nat
    decreases n,
{
    if n == 0 {
        1
    } else {
        256 * radix((n - 1) as nat)
    }
}

/// The number that `b` holds, least significant byte first.
pub open spec fn le_value(b: Seq<u8>) -> nat
    decreases b.len(),
{
    if b.len() == 0 {
        0
    } else {
        b[0] as nat + 256 * le_value(b.drop_first())
    }
}

/// The number that `b` holds, most significant byte first.
pub open spec fn be_value(b: Seq<u8>) -> nat
    decreases b.len(),
{
    if b.len() == 0 {
        0
    } else {
        256 * be_value(b.drop_last()) + b.last() as nat
    }
}

/// The number that `b` holds in the given byte order.
pub open spec fn word_value(b: Seq<u8>, order: ByteOrder) -> nat {
    match order {
        ByteOrder::Little => le_value(b),
        ByteOrder::Big => be_value(b),
    }
}

/// The `n` low bytes of `v`, least significant first.
pub open spec fn le_bytes(v: nat, n: nat) -> Seq<u8>
    decreases n,
{
    if n == 0 {
        Seq::<u8>::empty()
    } else {
        seq![(v % 256) as u8] + le_bytes(v / 256, (n - 1) as nat)
    }
}

/// The `n` low bytes of `v`, most significant first.
pub open spec fn be_bytes(v: nat, n: nat) -> Seq<u8>
    decreases n,
{
    if n == 0 {
        Seq::<u8>::empty()
    } else {
        be_bytes(v / 256, (n - 1) as nat).push((v % 256) as u8)
    }
}

/// The bytes of a word of pointer width that holds `v`.
pub open spec fn word_bytes(v: usize, order: ByteOrder) -> Seq<u8> {
    match order {
        ByteOrder::Little => le_bytes(v as nat, word_size()),
        ByteOrder::Big => be_bytes(v as nat, word_size()),
    }
}

/// `radix` grows with its argument.
pub proof fn lemma_radix_monotone(a: nat, b: nat)
    requires
        a <= b,
    ensures
        0 < radix(a) <= radix(b),
    decreases b,
{
    if b == 0 {
    } else if a == b {
        lemma_radix_monotone((a - 1) as nat, (b - 1) as nat);
    } else {
        lemma_radix_monotone(a, (b - 1) as nat);
    }
}

/// The values of `radix` that the machine's word sizes need.
pub proof fn lemma_radix_values()
    ensures
        radix(4) == 0x1_0000_0000,
        radix(8) == 0x1_0000_0000_0000_0000,
        radix(word_size()) == usize::MAX + 1,
{
    reveal_with_fuel(radix, 9);
}

/// `n` bytes hold a number below `radix(n)`, in either order.
pub proof fn lemma_value_bound(b: Seq<u8>)
    ensures
        le_value(b) < radix(b.len()),
        be_value(b) < radix(b.len()),
    decreases b.len(),
{
    if b.len() > 0 {
        lemma_value_bound(b.drop_first());
        lemma_value_bound(b.drop_last());
    }
}

/// A word of pointer width holds a number that fits in `usize`.
pub proof fn lemma_word_fits(b: Seq<u8>, order: ByteOrder)
    requires
        b.len() == word_size(),
    ensures
        word_value(b, order) <= usize::MAX,
{
    lemma_value_bound(b);
    lemma_radix_values();
}

/// Writing `v` in `n` bytes and reading it back gives `v`, if `n` bytes can
/// hold it.
pub proof fn lemma_value_of_bytes(v: nat, n: nat)
    requires
        v < radix(n),
    ensures
        le_bytes(v, n).len() == n,
        be_bytes(v, n).len() == n,
        le_value(le_bytes(v, n)) == v,
        be_value(be_bytes(v, n)) == v,
    decreases n,
{
    if n > 0 {
        let m = (n - 1) as nat;
        lemma_value_of_bytes(v / 256, m);
        let l = le_bytes(v, n);
        assert(l.drop_first() =~= le_bytes(v / 256, m));
        let b = be_bytes(v, n);
        assert(b.drop_last() =~= be_bytes(v / 256, m));
    }
}

/// Reading `b` and writing the number back in as many bytes gives `b`.
pub proof fn lemma_bytes_of_value(b: Seq<u8>)
    ensures
        le_bytes(le_value(b), b.len()) == b,
        be_bytes(be_value(b), b.len()) == b,
    decreases b.len(),
{
    if b.len() > 0 {
        lemma_bytes_of_value(b.drop_first());
        lemma_bytes_of_value(b.drop_last());
    }
    assert(le_bytes(le_value(b), b.len()) =~= b);
    assert(be_bytes(be_value(b), b.len()) =~= b);
}

/// A word survives being written and read back in the same byte order.
pub proof fn lemma_word_roundtrip(v: usize, order: ByteOrder)
    ensures
        word_bytes(v, order).len() == word_size(),
        word_value(word_bytes(v, order), order) == v,
{
    lemma_radix_values();
    lemma_value_of_bytes(v as nat, word_size());
}

/// The bytes of a word survive being read and written back in the same byte
/// order.
pub proof fn lemma_word_bytes_roundtrip(b: Seq<u8>, order: ByteOrder)
    requires
        b.len() == word_size(),
    ensures
        word_bytes(word_value(b, order) as usize, order) == b,
{
    lemma_word_fits(b, order);
    lemma_bytes_of_value(b);
}

/// The number of bytes in a word of pointer width on this machine.
pub fn pointer_size() -> (p: usize)
    ensures
        p == word_size(),
        p == 4 || p == 8,
{
    (usize::BITS / 8) as usize
}

/// The number that the `n` bytes at `at` in `bytes` hold.
fn uint_at(bytes: &[u8], at: usize, n: usize, order: ByteOrder) -> (r: u64)
    requires
        n <= 8,
        at + n <= bytes@.len(),
    ensures
        r == word_value(bytes@.subrange(at as int, at + n), order),
{
    let len = bytes.len();
    let ghost w = bytes@.subrange(at as int, at + n);
    let mut acc: u64 = 0;
    proof {
        lemma_radix_values();
    }
    match order {
        ByteOrder::Little => {
            let mut i: usize = n;
            while i > 0
                invariant
                    i <= n <= 8,
                    at + n <= len,
                    len == bytes@.len(),
                    radix(8) == 0x1_0000_0000_0000_0000,
                    w == bytes@.subrange(at as int, at + n),
                    acc == le_value(w.subrange(i as int, n as int)),
                    acc < radix((n - i) as nat),
                decreases i,
            {
                i = i - 1;
                proof {
                    let cur = w.subrange(i as int, n as int);
                    assert(cur.drop_first() =~= w.subrange(i + 1, n as int));
                    assert(cur[0] == bytes@[at + i]);
                    lemma_radix_monotone((n - i - 1) as nat, 7);
                    lemma_radix_monotone(7, 8);
                }
                acc = acc * 256 + bytes[at + i] as u64;
            }
            proof {
                assert(w.subrange(0, n as int) =~= w);
            }
        },
        ByteOrder::Big => {
            let mut i: usize = 0;
            while i < n
                invariant
                    i <= n <= 8,
                    at + n <= len,
                    len == bytes@.len(),
                    radix(8) == 0x1_0000_0000_0000_0000,
                    w == bytes@.subrange(at as int, at + n),
                    acc == be_value(w.subrange(0, i as int)),
                    acc < radix(i as nat),
                decreases n - i,
            {
                proof {
                    let next = w.subrange(0, i + 1);
                    assert(next.drop_last() =~= w.subrange(0, i as int));
                    assert(next.last() == bytes@[at + i]);
                    lemma_radix_monotone(i as nat, 7);
                    lemma_radix_monotone(7, 8);
                }
                acc = acc * 256 + bytes[at + i] as u64;
                i = i + 1;
            }
            proof {
                assert(w.subrange(0, n as int) =~= w);
            }
        },
    }
    acc
}

/// The word of pointer width that lies at `at` in `bytes`.
pub fn word_at(bytes: &[u8], at: usize, order: ByteOrder) -> (r: usize)
    requires
        at + word_size() <= bytes@.len(),
    ensures
        r == word_value(bytes@.subrange(at as int, at + word_size()), order),
{
    let v = uint_at(bytes, at, pointer_size(), order);
    proof {
        lemma_word_fits(bytes@.subrange(at as int, at + word_size()), order);
    }
    v as usize
}

/// The 64-bit number that lies at `at` in `bytes`.
pub fn u64_at(bytes: &[u8], at: usize, order: ByteOrder) -> (r: u64)
    requires
        at + 8 <= bytes@.len(),
    ensures
        r == word_value(bytes@.subrange(at as int, at + 8), order),
{
    uint_at(bytes, at, 8, order)
}

/// Reads one word of pointer width: `bytes` must be exactly that word.
pub fn read_word(bytes: &[u8], order: ByteOrder) -> (r: Option<usize>)
    ensures
        bytes@.len() == word_size() ==> r == Some(word_value(bytes@, order) as usize),
        bytes@.len() != word_size() ==> r.is_none(),
{
    if bytes.len() != pointer_size() {
        return None;
    }
    proof {
        assert(bytes@.subrange(0, 0 + word_size() as int) =~= bytes@);
    }
    Some(word_at(bytes, 0, order))
}

/// Appends the `n` low bytes of `v`, least significant first.
fn push_le(out: &mut Vec<u8>, v: u64, n: usize)
    ensures
        final(out)@ == old(out)@ + le_bytes(v as nat, n as nat),
    decreases n,
{
    if n > 0 {
        out.push((v % 256) as u8);
        push_le(out, v / 256, n - 1);
    }
    proof {
        assert(final(out)@ =~= old(out)@ + le_bytes(v as nat, n as nat));
    }
}

/// Appends the `n` low bytes of `v`, most significant first.
fn push_be(out: &mut Vec<u8>, v: u64, n: usize)
    ensures
        final(out)@ == old(out)@ + be_bytes(v as nat, n as nat),
    decreases n,
{
    if n > 0 {
        push_be(out, v / 256, n - 1);
        out.push((v % 256) as u8);
    }
    proof {
        assert(final(out)@ =~= old(out)@ + be_bytes(v as nat, n as nat));
    }
}

/// The eight bytes of a 64-bit number.
pub open spec fn u64_bytes(v: u64, order: ByteOrder) -> Seq<u8> {
    match order {
        ByteOrder::Little => le_bytes(v as nat, 8),
        ByteOrder::Big => be_bytes(v as nat, 8),
    }
}

/// A 64-bit number survives being written and read back in the same byte
/// order.
pub proof fn lemma_u64_roundtrip(v: u64, order: ByteOrder)
    ensures
        u64_bytes(v, order).len() == 8,
        word_value(u64_bytes(v, order), order) == v,
{
    lemma_radix_values();
    lemma_value_of_bytes(v as nat, 8);
}

/// Appends `v` to `out` as one word of pointer width.
pub fn write_word(out: &mut Vec<u8>, v: usize, order: ByteOrder)
    ensures
        final(out)@ == old(out)@ + word_bytes(v, order),
{
    match order {
        ByteOrder::Little => push_le(out, v as u64, pointer_size()),
        ByteOrder::Big => push_be(out, v as u64, pointer_size()),
    }
}

/// Appends `v` to `out` as eight bytes.
pub fn write_u64(out: &mut Vec<u8>, v: u64, order: ByteOrder)
    ensures
        final(out)@ == old(out)@ + u64_bytes(v, order),
{
    match order {
        ByteOrder::Little => push_le(out, v, 8),
        ByteOrder::Big => push_be(out, v, 8),
    }
}

/// The alignment of a slot: that of its 64-bit counter.
pub const SLOT_ALIGN: usize = 8;

/// The size of the header: the magic and two words.
pub open spec fn spec_header_size() -> nat {
    16 + 2 * word_size()
}

/// The size of one slot, padding included: a 64-bit counter and three words,
/// rounded up to the slot's alignment.
pub open spec fn spec_slot_size() -> nat {
    spec_round_up(8 + 3 * (word_size() as int), 8) as nat
}

/// The least multiple of `multiple` that is not below `value`.
pub open spec fn spec_round_up(value: int, multiple: int) -> int {
    (value + (multiple - 1)) / multiple * multiple
}

/// What rounding up promises: a multiple, not below the value, less than one
/// step above it.
pub proof fn lemma_round_up(value: int, multiple: int)
    requires
        0 <= value,
        0 < multiple,
    ensures
        spec_round_up(value, multiple) % multiple == 0,
        value <= spec_round_up(value, multiple) < value + multiple,
        value % multiple == 0 ==> spec_round_up(value, multiple) == value,
{
    let x = value + multiple - 1;
    let q = x / multiple;
    assert(x == q * multiple + x % multiple && 0 <= x % multiple < multiple) by (nonlinear_arith)
        requires
            0 < multiple,
            q == x / multiple,
    ;
    assert((q * multiple) % multiple == 0) by (nonlinear_arith)
        requires
            0 < multiple,
    ;
    if value % multiple == 0 {
        let k = value / multiple;
        assert(value == k * multiple) by (nonlinear_arith)
            requires
                0 < multiple,
                k == value / multiple,
                value % multiple == 0,
        ;
        assert(q == k) by (nonlinear_arith)
            requires
                0 < multiple,
                value == k * multiple,
                k * multiple <= q * multiple + (multiple - 1),
                q * multiple <= k * multiple + (multiple - 1),
        ;
    }
}

/// Rounds `value` up to the next multiple of `multiple`.
pub fn round_up_to_multiple(value: usize, multiple: usize) -> (r: usize)
    requires
        multiple > 0,
        value + multiple - 1 <= usize::MAX,
    ensures
        r == spec_round_up(value as int, multiple as int),
        r % multiple == 0,
        value <= r < value + multiple,
{
    proof {
        lemma_round_up(value as int, multiple as int);
    }
    (value + (multiple - 1)) / multiple * multiple
}

/// Rounds `value` up to the next multiple of `multiple`, or gives `None`
/// where `multiple` is zero or the result would not fit.
pub fn checked_round_up(value: usize, multiple: usize) -> (r: Option<usize>)
    ensures
        r.is_some() <==> (multiple > 0 && spec_round_up(value as int, multiple as int) <= usize::MAX),
        r.is_some() ==> r.unwrap() == spec_round_up(value as int, multiple as int),
{
    if multiple == 0 {
        return None;
    }
    proof {
        lemma_round_up(value as int, multiple as int);
    }
    let rem = value % multiple;
    if rem == 0 {
        return Some(value);
    }
    let step = multiple - rem;
    proof {
        let v = value as int;
        let m = multiple as int;
        let k = v / m;
        assert(v == k * m + v % m) by (nonlinear_arith)
            requires
                0 < m,
                k == v / m,
        ;
        let up = spec_round_up(v, m);
        let q = (v + m - 1) / m;
        assert(up == q * m);
        assert(q == k + 1) by (nonlinear_arith)
            requires
                0 < m,
                v == k * m + v % m,
                0 < v % m < m,
                v <= q * m < v + m,
        ;
        assert((k + 1) * m == k * m + m) by (nonlinear_arith);
        assert(up == v + (m - v % m));
    }
    value.checked_add(step)
}

/// The size of the header on this machine.
pub fn header_size() -> (r: usize)
    ensures
        r == spec_header_size(),
        r == 24 || r == 32,
{
    16 + 2 * pointer_size()
}

/// The size of one slot on this machine.
pub fn slot_size() -> (r: usize)
    ensures
        r == spec_slot_size(),
        r == 24 || r == 32,
        r % 8 == 0,
{
    round_up_to_multiple(8 + 3 * pointer_size(), SLOT_ALIGN)
}

} // verus!
