//! Reads in whole sectors: a raw device answers no others.

use vstd::prelude::*;
use vstd::arithmetic::div_mod::{
    lemma_fundamental_div_mod, lemma_mod_breakdown, lemma_mod_multiples_basic,
};
use vstd::arithmetic::power2::*;
use crate::bytes::power_of_two;
use crate::walk::Request;

verus! {

/// The number of bytes in the largest sectors. As long as the sectors of a device are not known, it
/// is read in units of this size, which are whole sectors of every smaller size too.
pub const MAX_SECTOR_LEN: u64 = 4096;

/// Where the sector begins that holds a byte.
pub open spec fn sector_start(offset: int, sector_len: u64) -> int {
    offset / sector_len as int * sector_len
}

/// Where the last sector ends that holds a part of a request.
pub open spec fn sector_end(request: Request, sector_len: u64) -> int {
    sector_start(request.offset + request.len + sector_len - 1, sector_len)
}

/// A sector begins where the byte stands, less the remainder.
proof fn lemma_sector_start(offset: int, sector_len: u64)
    requires
        sector_len > 0,
    ensures
        sector_start(offset, sector_len) == offset - offset % sector_len as int,
        0 <= offset % (sector_len as int) < sector_len,
{
    let n = sector_len as int;
    lemma_fundamental_div_mod(offset, n);
    assert(offset / n * n == n * (offset / n)) by (nonlinear_arith);
}

/// The read of the sectors that hold what is asked for, where they have addresses.
pub fn whole_sectors(request: Request, sector_len: u64) -> (sectors: Option<Request>)
    requires
        sector_len > 0,
    ensures
        sectors is Some <==> sector_end(request, sector_len) <= u64::MAX && sector_end(
            request,
            sector_len,
        ) - sector_start(request.offset as int, sector_len) <= usize::MAX,
        sectors matches Some(r) ==> {
            &&& r.offset == sector_start(request.offset as int, sector_len)
            &&& r.len == sector_end(request, sector_len) - sector_start(
                request.offset as int,
                sector_len,
            )
            &&& r.offset as int % sector_len as int == 0
            &&& r.len as int % sector_len as int == 0
        },
{
    proof {
        law_sectors_hold_the_request(request, sector_len);
        lemma_sector_start(request.offset as int, sector_len);
        lemma_sector_start(request.offset + request.len + sector_len - 1, sector_len);
    }
    let start: u64 = request.offset - request.offset % sector_len;
    let last: u128 = request.offset as u128 + request.len as u128 + sector_len as u128 - 1;
    let end: u128 = last - last % sector_len as u128;
    if end > u64::MAX as u128 || end - start as u128 > usize::MAX as u128 {
        return None;
    }
    Some(Request { offset: start, len: (end - start as u128) as usize })
}

/// What is asked for, out of the sectors that hold it; nothing where a device ended before they
/// were all there and what is asked for is not.
pub fn cut_out(request: Request, sector_len: u64, sectors: &[u8]) -> (data: Option<Vec<u8>>)
    requires
        sector_len > 0,
    ensures
        data is Some <==> request.offset + request.len - sector_start(
            request.offset as int,
            sector_len,
        ) <= sectors@.len(),
        data matches Some(d) ==> d@ == sectors@.subrange(
            request.offset - sector_start(request.offset as int, sector_len),
            request.offset + request.len - sector_start(request.offset as int, sector_len),
        ),
{
    proof {
        lemma_sector_start(request.offset as int, sector_len);
    }
    let from: u64 = request.offset % sector_len;
    let size: usize = sectors.len();
    if from as u128 + request.len as u128 > size as u128 {
        return None;
    }
    let at: usize = from as usize;
    Some(vstd::slice::slice_to_vec(vstd::slice::slice_subrange(sectors, at, at + request.len)))
}

/// The sectors of a request are whole, hold all that is asked for, and are no more than needed.
pub proof fn law_sectors_hold_the_request(request: Request, sector_len: u64)
    requires
        sector_len > 0,
    ensures
        0 <= sector_start(request.offset as int, sector_len) <= request.offset,
        sector_start(request.offset as int, sector_len) % sector_len as int == 0,
        sector_end(request, sector_len) % sector_len as int == 0,
        (sector_end(request, sector_len) - sector_start(request.offset as int, sector_len))
            % sector_len as int == 0,
        request.offset + request.len <= sector_end(request, sector_len),
        request.offset - sector_start(request.offset as int, sector_len) < sector_len,
        sector_end(request, sector_len) - (request.offset + request.len) < sector_len,
{
    let n = sector_len as int;
    let last = request.offset + request.len + n - 1;
    let (a, b) = (request.offset as int / n, last / n);
    lemma_sector_start(request.offset as int, sector_len);
    lemma_sector_start(last, sector_len);
    lemma_mod_multiples_basic(a, n);
    lemma_mod_multiples_basic(b, n);
    lemma_mod_multiples_basic(b - a, n);
    assert((b - a) * n == b * n - a * n) by (nonlinear_arith);
    assert(0 <= a * n) by (nonlinear_arith)
        requires
            0 <= a,
            0 < n,
    ;
}

/// Cut out of its sectors, what is asked for is what the device holds there, also where the device
/// ends within the last of them.
pub proof fn law_cut_out_is_the_answer(contents: Seq<u8>, request: Request, sector_len: u64)
    requires
        sector_len > 0,
        request.offset + request.len <= contents.len(),
    ensures
        ({
            let start = sector_start(request.offset as int, sector_len);
            let end = if sector_end(request, sector_len) <= contents.len() {
                sector_end(request, sector_len)
            } else {
                contents.len() as int
            };
            &&& request.offset + request.len - start <= end - start
            &&& contents.subrange(start, end).subrange(
                request.offset - start,
                request.offset + request.len - start,
            ) == contents.subrange(request.offset as int, request.offset + request.len)
        }),
{
    law_sectors_hold_the_request(request, sector_len);
    let start = sector_start(request.offset as int, sector_len);
    let end = if sector_end(request, sector_len) <= contents.len() {
        sector_end(request, sector_len)
    } else {
        contents.len() as int
    };
    assert(contents.subrange(start, end).subrange(
        request.offset - start,
        request.offset + request.len - start,
    ) =~= contents.subrange(request.offset as int, request.offset + request.len));
}

/// What is a whole number of the largest sectors is a whole number of sectors of every size.
pub proof fn law_largest_sectors_are_whole(n: nat, sector_len: u64)
    requires
        power_of_two(sector_len as int),
        sector_len <= MAX_SECTOR_LEN,
        n as int % MAX_SECTOR_LEN as int == 0,
    ensures
        n as int % sector_len as int == 0,
{
    let k = choose|k: nat| sector_len == #[trigger] pow2(k);
    lemma2_to64();
    if k > 12 {
        lemma_pow2_strictly_increases(12, k);
    }
    let s = sector_len as int;
    let rest = pow2((12 - k) as nat) as int;
    lemma_pow2_adds(k, (12 - k) as nat);
    lemma_pow2_pos(k);
    lemma_pow2_pos((12 - k) as nat);
    assert(s * rest == 4096);
    lemma_mod_breakdown(n as int, s, rest);
    let q = n as int % s;
    let p = (n as int / s) % rest;
    assert(q == 0) by (nonlinear_arith)
        requires
            s * p + q == 0,
            s > 0,
            p >= 0,
            q >= 0,
    ;
}

} // verus!
