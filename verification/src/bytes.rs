//! Little-endian integers inside byte buffers.

use vstd::prelude::*;
use vstd::arithmetic::power2::*;
use vstd::utf8::*;

verus! {

/// The 16-bit little-endian value at `off`.
pub open spec fn le_u16(s: Seq<u8>, off: int) -> int {
    s[off] + 0x100 * s[off + 1]
}

/// The 32-bit little-endian value at `off`.
pub open spec fn le_u32(s: Seq<u8>, off: int) -> int {
    s[off] + 0x100 * s[off + 1] + 0x1_0000 * s[off + 2] + 0x100_0000 * s[off + 3]
}

/// The 64-bit little-endian value at `off`.
pub open spec fn le_u64(s: Seq<u8>, off: int) -> int {
    le_u32(s, off) + 0x1_0000_0000 * le_u32(s, off + 4)
}

/// The value of a whole little-endian number of any width, least significant byte first.
pub open spec fn le_value(s: Seq<u8>) -> nat
    decreases s.len(),
{
    if s.len() == 0 {
        0
    } else {
        s[0] as nat + 0x100 * le_value(s.drop_first())
    }
}

/// Reads the 16-bit little-endian value at `off`.
pub fn read_u16_le(buf: &[u8], off: usize) -> (value: u16)
    requires
        off + 2 <= buf@.len(),
    ensures
        value == le_u16(buf@, off as int),
{
    buf[off] as u16 + buf[off + 1] as u16 * 0x100
}

/// Reads the 32-bit little-endian value at `off`.
pub fn read_u32_le(buf: &[u8], off: usize) -> (value: u32)
    requires
        off + 4 <= buf@.len(),
    ensures
        value == le_u32(buf@, off as int),
{
    buf[off] as u32 + buf[off + 1] as u32 * 0x100 + buf[off + 2] as u32 * 0x1_0000
        + buf[off + 3] as u32 * 0x100_0000
}

/// Reads the 64-bit little-endian value at `off`.
pub fn read_u64_le(buf: &[u8], off: usize) -> (value: u64)
    requires
        off + 8 <= buf@.len(),
    ensures
        value == le_u64(buf@, off as int),
{
    assert(off + 8 <= buf.len());
    let low: u32 = read_u32_le(buf, off);
    let high: u32 = read_u32_le(buf, off + 4);
    low as u64 + high as u64 * 0x1_0000_0000
}

/// Bytes as an array.
pub fn array_of<const N: usize>(data: &[u8]) -> (array: [u8; N])
    requires
        data@.len() == N,
    ensures
        array@ == data@,
{
    let mut array: [u8; N] = [0u8; N];
    let mut i: usize = 0;
    while i < N
        invariant
            data@.len() == N,
            i <= N,
            forall|j: int| 0 <= j < i ==> array@[j] == data@[j],
        decreases N - i,
    {
        array[i] = data[i];
        i = i + 1;
    }
    assert(array@ =~= data@);
    array
}

/// Whether the bytes from `off` on spell the ASCII text `tag`.
pub open spec fn has_tag(s: Seq<u8>, off: int, tag: Seq<char>) -> bool {
    forall|i: int| 0 <= i < tag.len() ==> s[off + i] == #[trigger] tag[i] as u8
}

/// Tells whether the bytes from `off` on spell the ASCII text `tag`.
pub fn tag_at(buf: &[u8], off: usize, tag: &str) -> (answer: bool)
    requires
        is_ascii_chars(tag@),
        off + tag@.len() <= buf@.len(),
    ensures
        answer == has_tag(buf@, off as int, tag@),
{
    proof {
        is_ascii_chars_encode_utf8(tag@);
    }
    let t = tag.as_bytes();
    let n: usize = buf.len();
    let mut i: usize = 0;
    while i < t.len()
        invariant
            n == buf@.len(),
            off + t@.len() <= n,
            t@.len() == tag@.len(),
            forall|j: int| 0 <= j < t@.len() ==> t@[j] == #[trigger] tag@[j] as u8,
            i <= t@.len(),
            forall|j: int| 0 <= j < i ==> buf@[off + j] == #[trigger] tag@[j] as u8,
        decreases t@.len() - i,
    {
        if buf[off + i] != t[i] {
            assert(buf@[off + i] != tag@[i as int] as u8);
            return false;
        }
        i = i + 1;
    }
    true
}

/// Whether a number is a power of two.
pub open spec fn power_of_two(n: int) -> bool {
    exists|k: nat| n == #[trigger] pow2(k)
}

/// Tells whether a number is a power of two.
pub fn is_power_of_two(n: u16) -> (answer: bool)
    ensures
        answer == power_of_two(n as int),
{
    let mut p: u32 = 1;
    let ghost mut k: nat = 0;
    proof {
        lemma2_to64();
    }
    while p < n as u32
        invariant
            p == pow2(k),
            1 <= p <= 0x2_0000,
            forall|j: nat| j < k ==> #[trigger] pow2(j) < n,
        decreases 0x2_0000 - p,
    {
        proof {
            lemma_pow2_unfold(k + 1);
            k = k + 1;
        }
        p = p * 2;
        assert(forall|j: nat| j < k ==> #[trigger] pow2(j) < n);
    }
    proof {
        if p > n {
            assert forall|j: nat| n != #[trigger] pow2(j) by {
                if j > k {
                    lemma_pow2_strictly_increases(k, j);
                }
            }
        }
    }
    p == n as u32
}

/// Two to the power of `shift`.
pub fn two_to_the(shift: u8) -> (value: u32)
    requires
        shift < 32,
    ensures
        value == pow2(shift as nat),
{
    proof {
        lemma2_to64();
    }
    let mut value: u32 = 1;
    let mut i: u8 = 0;
    while i < shift
        invariant
            i <= shift < 32,
            value == pow2(i as nat),
            pow2(31) == 0x8000_0000,
        decreases shift - i,
    {
        proof {
            lemma_pow2_unfold((i + 1) as nat);
            if i + 1 < 31 {
                lemma_pow2_strictly_increases((i + 1) as nat, 31);
            }
        }
        value = value * 2;
        i = i + 1;
    }
    value
}

/// The fixed-width values are the general value of their bytes, so a 32-bit value is two 16-bit
/// halves and a 64-bit value is two 32-bit halves.
pub proof fn law_widths_agree(s: Seq<u8>, off: int)
    requires
        0 <= off,
        off + 8 <= s.len(),
    ensures
        le_u16(s, off) == le_value(s.subrange(off, off + 2)),
        le_u32(s, off) == le_value(s.subrange(off, off + 4)),
        le_u64(s, off) == le_value(s.subrange(off, off + 8)),
        le_u32(s, off) == le_u16(s, off) + 0x1_0000 * le_u16(s, off + 2),
        le_u64(s, off) == le_u32(s, off) + 0x1_0000_0000 * le_u32(s, off + 4),
{
    reveal_with_fuel(le_value, 9);
}

} // verus!
