//! Unsigned numbers in bytes, most significant byte first.

use vstd::prelude::*;

verus! {

/// 256 to the power of `n`.
pub open spec fn pow256(n: nat) -> nat
    decreases n,
{
    if n == 0 {
        1
    } else {
        256 * pow256((n - 1) as nat)
    }
}

/// The number that `bytes` write, most significant byte first.
pub open spec fn be_value(bytes: Seq<u8>) -> nat
    decreases bytes.len(),
{
    if bytes.len() == 0 {
        0
    } else {
        256 * be_value(bytes.drop_last()) + bytes.last() as nat
    }
}

/// The `width` bytes that write `value`, most significant byte first. A value that needs more
/// bytes loses its upper part.
pub open spec fn be_bytes(value: nat, width: nat) -> Seq<u8>
    decreases width,
{
    if width == 0 {
        Seq::empty()
    } else {
        be_bytes(value / 256, (width - 1) as nat).push((value % 256) as u8)
    }
}

/// The first powers of 256.
pub proof fn lemma_pow256()
    ensures
        pow256(0) == 1,
        pow256(1) == 0x100,
        pow256(2) == 0x1_0000,
        pow256(3) == 0x100_0000,
        pow256(4) == 0x1_0000_0000,
        pow256(5) == 0x100_0000_0000,
        pow256(6) == 0x1_0000_0000_0000,
        pow256(7) == 0x100_0000_0000_0000,
        pow256(8) == 0x1_0000_0000_0000_0000,
{
    reveal_with_fuel(pow256, 9);
}

/// `n` bytes write a number below 256 to the power of `n`.
pub proof fn lemma_be_value_bound(bytes: Seq<u8>)
    ensures
        be_value(bytes) < pow256(bytes.len()),
    decreases bytes.len(),
{
    if bytes.len() > 0 {
        lemma_be_value_bound(bytes.drop_last());
    }
}

/// `be_bytes` gives `width` bytes.
pub proof fn lemma_be_bytes_len(value: nat, width: nat)
    ensures
        be_bytes(value, width).len() == width,
    decreases width,
{
    if width > 0 {
        lemma_be_bytes_len(value / 256, (width - 1) as nat);
    }
}

/// Reading what was written gives the value back, if it fits the width.
pub proof fn lemma_be_value_of_be_bytes(value: nat, width: nat)
    requires
        value < pow256(width),
    ensures
        be_value(be_bytes(value, width)) == value,
    decreases width,
{
    if width > 0 {
        let upper = be_bytes(value / 256, (width - 1) as nat);
        lemma_be_value_of_be_bytes(value / 256, (width - 1) as nat);
        assert(upper.push((value % 256) as u8).drop_last() =~= upper);
    }
}

/// Reads the number that the `width` bytes from `at` on write.
pub fn read_be(bytes: &[u8], at: usize, width: usize) -> (value: u64)
    requires
        width <= 8,
        at + width <= bytes@.len(),
    ensures
        value == be_value(bytes@.subrange(at as int, at + width)),
{
    let length = bytes.len();
    let mut value: u64 = 0;
    let mut read: usize = 0;
    while read < width
        invariant
            read <= width <= 8,
            at + width <= length == bytes@.len(),
            value == be_value(bytes@.subrange(at as int, at + read)),
        decreases width - read,
    {
        proof {
            let so_far = bytes@.subrange(at as int, at + read);
            let next = bytes@.subrange(at as int, at + read + 1);
            lemma_be_value_bound(so_far);
            lemma_pow256();
            assert(pow256(so_far.len()) <= pow256(7)) by {
                reveal_with_fuel(pow256, 9);
            }
            assert(next.drop_last() =~= so_far);
        }
        value = value * 256 + bytes[at + read] as u64;
        read = read + 1;
    }
    value
}

/// Reads the `u16` that the two bytes from `at` on write.
pub fn read_u16(bytes: &[u8], at: usize) -> (value: u16)
    requires
        at + 2 <= bytes@.len(),
    ensures
        value == be_value(bytes@.subrange(at as int, at + 2)),
{
    proof {
        lemma_be_value_bound(bytes@.subrange(at as int, at + 2));
        lemma_pow256();
    }
    read_be(bytes, at, 2) as u16
}

/// Reads the `u32` that the four bytes from `at` on write.
pub fn read_u32(bytes: &[u8], at: usize) -> (value: u32)
    requires
        at + 4 <= bytes@.len(),
    ensures
        value == be_value(bytes@.subrange(at as int, at + 4)),
{
    proof {
        lemma_be_value_bound(bytes@.subrange(at as int, at + 4));
        lemma_pow256();
    }
    read_be(bytes, at, 4) as u32
}

/// Reads the `u64` that the eight bytes from `at` on write.
pub fn read_u64(bytes: &[u8], at: usize) -> (value: u64)
    requires
        at + 8 <= bytes@.len(),
    ensures
        value == be_value(bytes@.subrange(at as int, at + 8)),
{
    read_be(bytes, at, 8)
}

/// Appends the `width` bytes that write `value`.
pub fn write_be(out: &mut Vec<u8>, value: u64, width: usize)
    requires
        width <= 8,
    ensures
        final(out)@ == old(out)@ + be_bytes(value as nat, width as nat),
    decreases width,
{
    if width > 0 {
        write_be(out, value / 256, width - 1);
        out.push((value % 256) as u8);
    }
}

} // verus!
