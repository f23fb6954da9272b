//! Numbers as they are stored on a device, byte by byte with the lowest first, and what is read of
//! them: the number that was stored, whatever stands around it.

use vstd::prelude::*;
use vstd::arithmetic::power2::*;
use crate::bytes::{has_tag, le_u16, le_u32, le_u64, power_of_two};

verus! {

/// Whether the two bytes at `off` store a number.
pub open spec fn stores_u16(s: Seq<u8>, off: int, n: int) -> bool {
    &&& 0 <= n < 0x1_0000
    &&& s[off] == n % 0x100
    &&& s[off + 1] == n / 0x100
}

/// Whether the four bytes at `off` store a number.
pub open spec fn stores_u32(s: Seq<u8>, off: int, n: int) -> bool {
    &&& 0 <= n < 0x1_0000_0000
    &&& s[off] == n % 0x100
    &&& s[off + 1] == n / 0x100 % 0x100
    &&& s[off + 2] == n / 0x1_0000 % 0x100
    &&& s[off + 3] == n / 0x100_0000
}

/// Whether the eight bytes at `off` store a number.
pub open spec fn stores_u64(s: Seq<u8>, off: int, n: int) -> bool {
    &&& 0 <= n < 0x1_0000_0000_0000_0000
    &&& stores_u32(s, off, n % 0x1_0000_0000)
    &&& stores_u32(s, off + 4, n / 0x1_0000_0000)
}

/// Whether the bytes at `off` are these.
pub open spec fn stores_bytes(s: Seq<u8>, off: int, bytes: Seq<u8>) -> bool {
    forall|i: int| 0 <= i < bytes.len() ==> s[off + i] == #[trigger] bytes[i]
}

/// A stored number of two bytes is read back.
pub proof fn law_stored_u16_is_read_back(s: Seq<u8>, off: int, n: int)
    requires
        stores_u16(s, off, n),
    ensures
        le_u16(s, off) == n,
{
}

/// A stored number of four bytes is read back.
pub proof fn law_stored_u32_is_read_back(s: Seq<u8>, off: int, n: int)
    requires
        stores_u32(s, off, n),
    ensures
        le_u32(s, off) == n,
{
}

/// A stored number of eight bytes is read back.
pub proof fn law_stored_u64_is_read_back(s: Seq<u8>, off: int, n: int)
    requires
        stores_u64(s, off, n),
    ensures
        le_u64(s, off) == n,
{
    law_stored_u32_is_read_back(s, off, n % 0x1_0000_0000);
    law_stored_u32_is_read_back(s, off + 4, n / 0x1_0000_0000);
}

/// A tag is there exactly where its characters stand, each as one byte.
pub proof fn law_tag_is_recognized(s: Seq<u8>, off: int, tag: Seq<char>)
    ensures
        has_tag(s, off, tag) <==> stores_bytes(s, off, tag.map_values(|c: char| c as u8)),
{
    let bytes = tag.map_values(|c: char| c as u8);
    if has_tag(s, off, tag) {
        assert forall|i: int| 0 <= i < bytes.len() implies s[off + i] == #[trigger] bytes[i] by {
            assert(s[off + i] == tag[i] as u8);
        }
    }
    if stores_bytes(s, off, bytes) {
        assert forall|i: int| 0 <= i < tag.len() implies s[off + i] == #[trigger] tag[i] as u8 by {
            assert(s[off + i] == bytes[i]);
        }
    }
}

/// One is a power of two; twice a number is one exactly where the number is; nothing else is.
pub proof fn law_powers_of_two(n: int)
    ensures
        power_of_two(1),
        power_of_two(2 * n) <==> power_of_two(n),
        power_of_two(2 * n + 1) ==> n == 0,
{
    lemma2_to64();
    assert(pow2(0) == 1);
    if power_of_two(n) {
        let k = choose|k: nat| n == #[trigger] pow2(k);
        lemma_pow2_unfold(k + 1);
        assert(2 * n == pow2(k + 1));
    }
    if power_of_two(2 * n) {
        let k = choose|k: nat| 2 * n == #[trigger] pow2(k);
        assert(k > 0);
        lemma_pow2_unfold(k);
        assert(n == pow2((k - 1) as nat));
    }
    if power_of_two(2 * n + 1) {
        let k = choose|k: nat| 2 * n + 1 == #[trigger] pow2(k);
        if k > 0 {
            lemma_pow2_unfold(k);
        }
    }
}

} // verus!
