//! Little-endian words.

use vstd::prelude::*;

verus! {

/// The number of a little-endian byte sequence.
pub open spec fn value_of(bytes: Seq<u8>) -> nat
    decreases bytes.len(),
{
    if bytes.len() == 0 {
        0
    } else {
        bytes[0] as nat + 256 * value_of(bytes.skip(1))
    }
}

/// The lowest `n` bytes of a number, least significant first.
pub open spec fn bytes_of(value: nat, n: nat) -> Seq<u8>
    decreases n,
{
    if n == 0 {
        seq![]
    } else {
        seq![(value % 256) as u8] + bytes_of(value / 256, (n - 1) as nat)
    }
}

/// How many numbers `n` bytes can hold.
pub open spec fn bound_of(n: nat) -> nat
    decreases n,
{
    if n == 0 {
        1
    } else {
        256 * bound_of((n - 1) as nat)
    }
}

/// Bytes hold numbers below their bound, and there are `n` of them.
pub proof fn lemma_words(value: nat, n: nat)
    ensures
        bytes_of(value, n).len() == n,
    decreases n,
{
    if n > 0 {
        lemma_words(value / 256, (n - 1) as nat);
    }
}

/// A number below the bound reads back.
pub proof fn lemma_value_of_bytes(value: nat, n: nat)
    requires
        value < bound_of(n),
    ensures
        value_of(bytes_of(value, n)) == value,
    decreases n,
{
    if n > 0 {
        lemma_words(value, n);
        let rest = bytes_of(value / 256, (n - 1) as nat);
        lemma_value_of_bytes(value / 256, (n - 1) as nat);
        assert(bytes_of(value, n).skip(1) =~= rest);
    }
}

/// Bytes are the bytes of their number.
pub proof fn lemma_bytes_of_value(bytes: Seq<u8>)
    ensures
        bytes_of(value_of(bytes), bytes.len()) == bytes,
        value_of(bytes) < bound_of(bytes.len()),
    decreases bytes.len(),
{
    if bytes.len() > 0 {
        let rest = bytes.skip(1);
        lemma_bytes_of_value(rest);
        let value = value_of(bytes);
        assert(value % 256 == bytes[0] as nat);
        assert(value / 256 == value_of(rest));
        assert(bytes_of(value, bytes.len()) =~= bytes);
    } else {
        assert(bytes_of(0, 0) =~= bytes);
    }
}

/// The bounds of the two word sizes.
pub proof fn lemma_bounds()
    ensures
        bound_of(4) == 0x1_0000_0000,
        bound_of(8) == 0x1_0000_0000_0000_0000,
{
    reveal_with_fuel(bound_of, 9);
}

/// Append the lowest `n` bytes of a number.
pub fn put(out: &mut Vec<u8>, value: u64, n: usize)
    ensures
        final(out)@ == old(out)@ + bytes_of(value as nat, n as nat),
{
    let ghost start = out@;
    let mut rest: u64 = value;
    let mut left: usize = n;
    assert(start + Seq::<u8>::empty() =~= start);
    while left > 0
        invariant
            left <= n,
            start + bytes_of(value as nat, n as nat) == out@ + bytes_of(rest as nat, left as nat),
        decreases left,
    {
        let byte: u8 = (rest % 256) as u8;
        proof {
            let tail = bytes_of((rest / 256) as nat, (left - 1) as nat);
            assert(bytes_of(rest as nat, left as nat) == seq![byte] + tail);
            assert(out@ + (seq![byte] + tail) =~= out@.push(byte) + tail);
        }
        out.push(byte);
        rest = rest / 256;
        left = left - 1;
    }
    assert(out@ + Seq::<u8>::empty() =~= out@);
}

/// Append a 32-bit word.
pub fn put_u32(out: &mut Vec<u8>, value: u32)
    ensures
        final(out)@ == old(out)@ + bytes_of(value as nat, 4),
{
    put(out, value as u64, 4);
}

/// Append a 64-bit word.
pub fn put_u64(out: &mut Vec<u8>, value: u64)
    ensures
        final(out)@ == old(out)@ + bytes_of(value as nat, 8),
{
    put(out, value, 8);
}

/// The 32-bit word at an offset.
pub open spec fn u32_at(bytes: Seq<u8>, offset: int) -> u32 {
    value_of(bytes.subrange(offset, offset + 4)) as u32
}

/// The 64-bit word at an offset.
pub open spec fn u64_at(bytes: Seq<u8>, offset: int) -> u64 {
    value_of(bytes.subrange(offset, offset + 8)) as u64
}

proof fn lemma_value_four(b: Seq<u8>)
    requires
        b.len() == 4,
    ensures
        value_of(b) == b[0] + 256 * b[1] + 65536 * b[2] + 16777216 * b[3],
{
    reveal_with_fuel(value_of, 5);
    let b1 = b.skip(1);
    let b2 = b1.skip(1);
    let b3 = b2.skip(1);
    assert(b1[0] == b[1]);
    assert(b2[0] == b[2]);
    assert(b3[0] == b[3]);
    assert(b3.skip(1).len() == 0);
}

/// Read the 32-bit word at an offset.
pub fn get_u32(bytes: &[u8], offset: usize) -> (r: u32)
    requires
        offset + 4 <= bytes@.len(),
    ensures
        r == u32_at(bytes@, offset as int),
        r == value_of(bytes@.subrange(offset as int, offset + 4)),
{
    proof {
        let b = bytes@.subrange(offset as int, offset + 4);
        lemma_value_four(b);
    }
    bytes[offset] as u32 + 256 * bytes[offset + 1] as u32 + 65536 * bytes[offset + 2] as u32
        + 16777216 * bytes[offset + 3] as u32
}

proof fn lemma_value_split(b: Seq<u8>)
    requires
        b.len() == 8,
    ensures
        value_of(b) == value_of(b.take(4)) + 0x1_0000_0000 * value_of(b.skip(4)),
{
    reveal_with_fuel(value_of, 5);
    lemma_value_four(b.take(4));
    let b1 = b.skip(1);
    let b2 = b1.skip(1);
    let b3 = b2.skip(1);
    let b4 = b3.skip(1);
    assert(b1[0] == b[1]);
    assert(b2[0] == b[2]);
    assert(b3[0] == b[3]);
    assert(b4 =~= b.skip(4));
}

/// Read the 64-bit word at an offset.
pub fn get_u64(bytes: &[u8], offset: usize) -> (r: u64)
    requires
        offset + 8 <= bytes@.len(),
    ensures
        r == u64_at(bytes@, offset as int),
        r == value_of(bytes@.subrange(offset as int, offset + 8)),
{
    proof {
        let b = bytes@.subrange(offset as int, offset + 8);
        lemma_value_split(b);
        assert(b.take(4) =~= bytes@.subrange(offset as int, offset + 4));
        assert(b.skip(4) =~= bytes@.subrange(offset + 4, offset + 8));
    }
    let total: usize = bytes.len();
    assert(offset + 8 <= total);
    let low = get_u32(bytes, offset);
    let high = get_u32(bytes, offset + 4);
    low as u64 + 0x1_0000_0000 * high as u64
}

/// Whether every byte from an offset on is zero.
pub open spec fn zero_from(bytes: Seq<u8>, offset: int) -> bool {
    forall|i: int| offset <= i < bytes.len() ==> bytes[i] == 0
}

/// Whether every byte from an offset on is zero.
pub fn is_zero_from(bytes: &[u8], offset: usize) -> (r: bool)
    requires
        offset <= bytes@.len(),
    ensures
        r == zero_from(bytes@, offset as int),
{
    let mut i: usize = offset;
    while i < bytes.len()
        invariant
            offset <= i <= bytes@.len(),
            forall|k: int| offset <= k < i ==> bytes@[k] == 0,
        decreases bytes@.len() - i,
    {
        if bytes[i] != 0 {
            return false;
        }
        i = i + 1;
    }
    true
}

/// Words are little-endian: the lowest byte comes first.
pub proof fn the_lowest_byte_comes_first(low: u8, high: nat, n: nat, rest: Seq<u8>)
    ensures
        bytes_of(low as nat + 256 * high, n + 1) == seq![low] + bytes_of(high, n),
        value_of(seq![low] + rest) == low + 256 * value_of(rest),
{
    assert((low as nat + 256 * high) % 256 == low);
    assert((low as nat + 256 * high) / 256 == high);
    assert((seq![low] + rest).skip(1) =~= rest);
}

} // verus!
