//! Little-endian integers in byte sequences.

use vstd::prelude::*;

verus! {

/// The number that `bytes` spells, least significant byte first.
pub open spec fn le(bytes: Seq<u8>) -> nat
    decreases bytes.len(),
{
    if bytes.len() == 0 {
        0
    } else {
        bytes[0] as nat + 256 * le(bytes.drop_first())
    }
}

/// As many values as the bytes have, no more.
pub open spec fn values_of(width: nat) -> nat
    decreases width,
{
    if width == 0 {
        1
    } else {
        256 * values_of((width - 1) as nat)
    }
}

/// A number has no more bytes than spell it.
pub proof fn le_is_bounded(bytes: Seq<u8>)
    ensures
        le(bytes) < values_of(bytes.len()),
        bytes.len() == 2 ==> values_of(bytes.len()) == 0x1_0000,
        bytes.len() == 4 ==> values_of(bytes.len()) == 0x1_0000_0000,
        bytes.len() == 8 ==> values_of(bytes.len()) == 0x1_0000_0000_0000_0000,
    decreases bytes.len(),
{
    reveal_with_fuel(values_of, 9);
    if bytes.len() > 0 {
        le_is_bounded(bytes.drop_first());
    }
}

/// Different bytes spell different numbers.
pub proof fn le_is_injective(a: Seq<u8>, b: Seq<u8>)
    requires
        a.len() == b.len(),
        le(a) == le(b),
    ensures
        a == b,
    decreases a.len(),
{
    if a.len() > 0 {
        le_is_injective(a.drop_first(), b.drop_first());
        assert(a =~= seq![a[0]] + a.drop_first());
        assert(b =~= seq![b[0]] + b.drop_first());
    } else {
        assert(a =~= b);
    }
}

/// What two bytes spell.
proof fn le_of_two(bytes: Seq<u8>)
    requires
        bytes.len() == 2,
    ensures
        le(bytes) == bytes[0] + 0x100 * bytes[1],
{
    reveal_with_fuel(le, 3);
}

/// What four bytes spell.
proof fn le_of_four(bytes: Seq<u8>)
    requires
        bytes.len() == 4,
    ensures
        le(bytes) == bytes[0] + 0x100 * bytes[1] + 0x1_0000 * bytes[2] + 0x100_0000 * bytes[3],
{
    reveal_with_fuel(le, 5);
}

/// What eight bytes spell, by their two halves.
proof fn le_of_eight(bytes: Seq<u8>)
    requires
        bytes.len() == 8,
    ensures
        le(bytes) == le(bytes.take(4)) + 0x1_0000_0000 * le(bytes.skip(4)),
{
    reveal_with_fuel(le, 9);
    assert(bytes.skip(4) =~= bytes.drop_first().drop_first().drop_first().drop_first());
    le_of_four(bytes.take(4));
}

/// The unsigned 16-bit number at `at`.
pub fn read_u16(bytes: &[u8], at: usize) -> (n: u16)
    requires
        at + 2 <= bytes.len(),
    ensures
        n == le(bytes@.subrange(at as int, at + 2)),
{
    proof {
        le_of_two(bytes@.subrange(at as int, at + 2));
    }
    bytes[at] as u16 + 0x100 * bytes[at + 1] as u16
}

/// The unsigned 32-bit number at `at`.
pub fn read_u32(bytes: &[u8], at: usize) -> (n: u32)
    requires
        at + 4 <= bytes.len(),
    ensures
        n == le(bytes@.subrange(at as int, at + 4)),
{
    proof {
        le_of_four(bytes@.subrange(at as int, at + 4));
    }
    bytes[at] as u32 + 0x100 * bytes[at + 1] as u32 + 0x1_0000 * bytes[at + 2] as u32 + 0x100_0000
        * bytes[at + 3] as u32
}

/// The unsigned 64-bit number at `at`.
pub fn read_u64(bytes: &[u8], at: usize) -> (n: u64)
    requires
        at + 8 <= bytes.len(),
    ensures
        n == le(bytes@.subrange(at as int, at + 8)),
{
    let low: u32 = read_u32(bytes, at);
    let high: u32 = read_u32(bytes, at + 4);
    proof {
        let whole = bytes@.subrange(at as int, at + 8);
        le_of_eight(whole);
        assert(whole.take(4) =~= bytes@.subrange(at as int, at + 4));
        assert(whole.skip(4) =~= bytes@.subrange(at + 4, at + 8));
    }
    low as u64 + 0x1_0000_0000 * high as u64
}

} // verus!
