//! The data runs of an NTFS attribute: where the clusters of a file are.

use vstd::prelude::*;
use vstd::arithmetic::power2::*;
use crate::bytes::{le_u16, le_value, read_u16_le};

verus! {

// ---------------------------------------------------------------------------------------------
// Numbers of any width
// ---------------------------------------------------------------------------------------------

/// The value of a whole little-endian number in two's complement; zero where it has no bytes.
pub open spec fn signed_value(s: Seq<u8>) -> int {
    if s.len() > 0 && s.last() >= 0x80 {
        le_value(s) - pow2(8 * s.len())
    } else {
        le_value(s) as int
    }
}

proof fn lemma_pow2_by_bytes(n: nat)
    ensures
        pow2(8 * (n + 1)) == 0x100 * pow2(8 * n),
{
    lemma_pow2_adds(8, 8 * n);
    lemma2_to64();
}

proof fn lemma_le_value_bound(s: Seq<u8>)
    ensures
        le_value(s) < pow2(8 * s.len()),
    decreases s.len(),
{
    if s.len() > 0 {
        lemma_le_value_bound(s.drop_first());
        lemma_pow2_by_bytes((s.len() - 1) as nat);
    } else {
        lemma2_to64();
    }
}

proof fn lemma_le_value_last(s: Seq<u8>)
    requires
        s.len() > 0,
    ensures
        le_value(s) == le_value(s.drop_last()) + s.last() * pow2((8 * (s.len() - 1)) as nat),
    decreases s.len(),
{
    lemma2_to64();
    if s.len() > 1 {
        let t = s.drop_first();
        lemma_le_value_last(t);
        assert(t.drop_last() =~= s.drop_last().drop_first());
        lemma_pow2_by_bytes((s.len() - 2) as nat);
        let p = pow2((8 * (s.len() - 2)) as nat) as int;
        let q = pow2((8 * (s.len() - 1)) as nat) as int;
        let b = s.last() as int;
        assert(b * q == 0x100 * (b * p)) by (nonlinear_arith)
            requires
                q == 0x100 * p,
        ;
    } else {
        let b = s.last() as int;
        let q = pow2((8 * (s.len() - 1)) as nat) as int;
        assert(b * q == b) by (nonlinear_arith)
            requires
                q == 1,
        ;
        assert(le_value(s.drop_first()) == 0);
        assert(le_value(s.drop_last()) == 0);
    }
}

proof fn lemma_byte_powers()
    ensures
        pow2(0) == 1,
        pow2(8) == 0x100,
        pow2(16) == 0x1_0000,
        pow2(24) == 0x100_0000,
        pow2(32) == 0x1_0000_0000,
        pow2(40) == 0x100_0000_0000,
        pow2(48) == 0x1_0000_0000_0000,
        pow2(56) == 0x100_0000_0000_0000,
        pow2(64) == 0x1_0000_0000_0000_0000,
{
    lemma2_to64();
    lemma_pow2_by_bytes(0);
    lemma_pow2_by_bytes(1);
    lemma_pow2_by_bytes(2);
    lemma_pow2_by_bytes(3);
    lemma_pow2_by_bytes(4);
    lemma_pow2_by_bytes(5);
    lemma_pow2_by_bytes(6);
    lemma_pow2_by_bytes(7);
}

proof fn lemma_pow2_at_most(n: nat, m: nat)
    requires
        n <= m,
    ensures
        pow2(n) <= pow2(m),
{
    if n < m {
        lemma_pow2_strictly_increases(n, m);
    }
}

/// Reads the little-endian number of `n` bytes at `at`.
pub fn read_le(s: &[u8], at: usize, n: usize) -> (value: u64)
    requires
        n <= 8,
        at + n <= s@.len(),
    ensures
        value == le_value(s@.subrange(at as int, at + n)),
{
    let size: usize = s.len();
    let mut value: u64 = 0;
    let mut i: usize = n;
    assert(le_value(s@.subrange(at + n, at + n)) == 0);
    while i > 0
        invariant
            size == s@.len(),
            n <= 8,
            at + n <= size,
            i <= n,
            value == le_value(s@.subrange(at + i, at + n)),
        decreases i,
    {
        let ghost sub = s@.subrange(at + i - 1, at + n);
        proof {
            assert(sub.drop_first() =~= s@.subrange(at + i, at + n));
            lemma_le_value_bound(sub);
            lemma_byte_powers();
            lemma_pow2_at_most(8 * sub.len(), 64);
        }
        value = value * 0x100 + s[at + i - 1] as u64;
        i = i - 1;
    }
    value
}

/// Reads the little-endian number of `n` bytes at `at` in two's complement.
pub fn read_signed_le(s: &[u8], at: usize, n: usize) -> (value: i64)
    requires
        n <= 8,
        at + n <= s@.len(),
        n == 8 ==> s@[at + 7] < 0x80,
    ensures
        value == signed_value(s@.subrange(at as int, at + n)),
{
    let ghost sub = s@.subrange(at as int, at + n);
    let size: usize = s.len();
    let raw: u64 = read_le(s, at, n);
    proof {
        lemma_le_value_bound(sub);
        lemma_byte_powers();
    }
    if n == 0 {
        return 0;
    }
    if s[at + n - 1] >= 0x80 {
        let mut power: u64 = 1;
        let mut i: usize = 0;
        while i < n
            invariant
                i <= n <= 7,
                power == pow2(8 * i as nat),
            decreases n - i,
        {
            proof {
                lemma_pow2_by_bytes(i as nat);
                lemma_byte_powers();
                lemma_pow2_at_most(8 * (i + 1) as nat, 56);
            }
            power = power * 0x100;
            i = i + 1;
        }
        proof {
            lemma_pow2_at_most(8 * n as nat, 56);
        }
        raw as i64 - power as i64
    } else {
        proof {
            lemma_le_value_last(sub);
            lemma_le_value_bound(sub.drop_last());
            let p = pow2((8 * (n - 1)) as nat) as int;
            lemma_pow2_at_most((8 * (n - 1)) as nat, 56);
            let b = sub.last() as int;
            assert(b * p <= 0x7F * p) by (nonlinear_arith)
                requires
                    b <= 0x7F,
                    p >= 0,
            ;
        }
        raw as i64
    }
}

// ---------------------------------------------------------------------------------------------
// Runs
// ---------------------------------------------------------------------------------------------

/// The number of bytes that state the length of a run.
pub open spec fn count_width(header: u8) -> int {
    header as int % 16
}

/// The number of bytes that state how far a run lies from the one before.
pub open spec fn offset_width(header: u8) -> int {
    header as int / 16
}

/// Where the run at `at` ends.
pub open spec fn run_end(s: Seq<u8>, at: int) -> int {
    at + 1 + count_width(s[at]) + offset_width(s[at])
}

/// Whether there is a run at `at`, whole and with a length.
pub open spec fn run_there(s: Seq<u8>, at: int) -> bool {
    0 <= at < s.len() && s[at] != 0 && count_width(s[at]) != 0 && run_end(s, at) <= s.len()
}

/// The number of clusters in the run at `at`.
pub open spec fn run_count(s: Seq<u8>, at: int) -> nat {
    le_value(s.subrange(at + 1, at + 1 + count_width(s[at])))
}

/// How far the first cluster of the run at `at` lies from that of the run before.
pub open spec fn run_delta(s: Seq<u8>, at: int) -> int {
    signed_value(s.subrange(at + 1 + count_width(s[at]), run_end(s, at)))
}

/// The first cluster of the run at `at`, after one that began at `previous`.
pub open spec fn run_start(s: Seq<u8>, at: int, previous: i64) -> i64 {
    previous.wrapping_add(run_delta(s, at) as i64)
}

/// Whether the runs go on behind the run at `at`: one that lies beyond the volume ends them, one
/// that lies before it is passed over.
pub open spec fn run_goes_on(s: Seq<u8>, at: int, previous: i64, max_clusters: u64) -> bool {
    let start = run_start(s, at, previous);
    start < 0 || start + run_count(s, at) <= max_clusters
}

/// The runs from `at` on, each as its first cluster and its number of clusters.
pub open spec fn runs_from(s: Seq<u8>, at: int, previous: i64, max_clusters: u64) -> Seq<(u64, u64)>
    decreases s.len() - at,
{
    if !run_there(s, at) || !run_goes_on(s, at, previous, max_clusters) {
        seq![]
    } else {
        let start = run_start(s, at, previous);
        let rest = runs_from(s, run_end(s, at), start, max_clusters);
        if start >= 0 {
            seq![(start as u64, run_count(s, at) as u64)] + rest
        } else {
            rest
        }
    }
}

/// Whether the numbers of the runs from `at` on, as far as they are read, can be held: no number
/// has more than eight bytes, and an offset of eight bytes is not negative.
pub open spec fn decodable_from(s: Seq<u8>, at: int, previous: i64, max_clusters: u64) -> bool
    decreases s.len() - at,
{
    run_there(s, at) ==> {
        let start = run_start(s, at, previous);
        &&& count_width(s[at]) <= 8
        &&& offset_width(s[at]) <= 8
        &&& offset_width(s[at]) == 8 ==> s[run_end(s, at) - 1] < 0x80
        &&& run_goes_on(s, at, previous, max_clusters) ==> decodable_from(
            s,
            run_end(s, at),
            start,
            max_clusters,
        )
    }
}

/// Whether an attribute has runs: it is long enough and not resident.
pub open spec fn has_runs(attr: Seq<u8>) -> bool {
    attr.len() >= 0x40 && attr[8] != 0
}

/// The runs of an attribute within a volume of `max_clusters` clusters.
pub open spec fn data_runs(attr: Seq<u8>, max_clusters: u64) -> Seq<(u64, u64)> {
    if has_runs(attr) {
        runs_from(attr, le_u16(attr, 0x20), 0, max_clusters)
    } else {
        seq![]
    }
}

/// Whether the runs of an attribute can be read.
pub open spec fn runs_decodable(attr: Seq<u8>, max_clusters: u64) -> bool {
    has_runs(attr) ==> decodable_from(attr, le_u16(attr, 0x20), 0, max_clusters)
}

/// Reads the runs of an attribute, where they can be read.
pub fn read_data_runs(attr: &[u8], max_clusters: u64) -> (runs: Option<Vec<(u64, u64)>>)
    ensures
        runs is Some <==> runs_decodable(attr@, max_clusters),
        runs matches Some(list) ==> list@ == data_runs(attr@, max_clusters),
{
    let mut runs: Vec<(u64, u64)> = Vec::new();
    let size: usize = attr.len();
    if size < 0x40 || attr[8] == 0 {
        assert(runs@ =~= seq![]);
        return Some(runs);
    }
    let mut at: usize = read_u16_le(attr, 0x20) as usize;
    let mut previous: i64 = 0;
    let mut go_on: bool = true;
    let ghost first = at as int;
    while go_on && at < size && attr[at] != 0 && attr[at] % 16 != 0
        invariant
            size == attr@.len(),
            go_on ==> runs@ + runs_from(attr@, at as int, previous, max_clusters) =~= runs_from(
                attr@,
                first,
                0,
                max_clusters,
            ),
            go_on ==> decodable_from(attr@, first, 0, max_clusters) == decodable_from(
                attr@,
                at as int,
                previous,
                max_clusters,
            ),
            !go_on ==> runs@ =~= runs_from(attr@, first, 0, max_clusters),
            !go_on ==> decodable_from(attr@, first, 0, max_clusters),
            has_runs(attr@),
            first == le_u16(attr@, 0x20),
        decreases size - at + (if go_on { 1int } else { 0 }),
    {
        let header: u8 = attr[at];
        let count_bytes: usize = (header % 16) as usize;
        let offset_bytes: usize = (header / 16) as usize;
        if count_bytes + offset_bytes > size - at - 1 {
            go_on = false;
        } else {
            if count_bytes > 8 || offset_bytes > 8 || (offset_bytes == 8 && attr[at
                + count_bytes + 8] >= 0x80) {
                return None;
            }
            let count: u64 = read_le(attr, at + 1, count_bytes);
            let delta: i64 = read_signed_le(attr, at + 1 + count_bytes, offset_bytes);
            let start: i64 = previous.wrapping_add(delta);
            assert(start == run_start(attr@, at as int, previous));
            if start >= 0 {
                let lcn: u64 = start as u64;
                if lcn <= max_clusters && count <= max_clusters - lcn {
                    runs.push((lcn, count));
                } else {
                    go_on = false;
                }
            }
            if go_on {
                previous = start;
                at = at + 1 + count_bytes + offset_bytes;
            }
        }
    }
    assert(go_on ==> runs_from(attr@, at as int, previous, max_clusters) =~= seq![]);
    Some(runs)
}

/// Tells whether the runs of an attribute can be read.
pub fn are_runs_decodable(attr: &[u8], max_clusters: u64) -> (answer: bool)
    ensures
        answer == runs_decodable(attr@, max_clusters),
{
    read_data_runs(attr, max_clusters).is_some()
}

/// The runs of an attribute within a volume of `max_clusters` clusters.
pub fn parse_data_runs(attr: &[u8], max_clusters: u64) -> (runs: Vec<(u64, u64)>)
    requires
        runs_decodable(attr@, max_clusters),
    ensures
        runs@ == data_runs(attr@, max_clusters),
{
    match read_data_runs(attr, max_clusters) {
        Some(runs) => runs,
        None => {
            assert(false);
            Vec::new()
        },
    }
}

/// Whether the runs from `at` on have lengths of at most eight bytes and offsets of at most seven.
pub open spec fn narrow_from(s: Seq<u8>, at: int) -> bool
    decreases s.len() - at,
{
    run_there(s, at) ==> {
        &&& count_width(s[at]) <= 8
        &&& offset_width(s[at]) <= 7
        &&& narrow_from(s, run_end(s, at))
    }
}

/// Runs with numbers of these widths can be read wherever they say that they lie, also where no
/// volume reaches.
pub proof fn law_narrow_runs_are_decodable(attr: Seq<u8>, max_clusters: u64)
    requires
        narrow_from(attr, le_u16(attr, 0x20)),
    ensures
        runs_decodable(attr, max_clusters),
{
    lemma_narrow_runs(attr, le_u16(attr, 0x20), 0, max_clusters);
}

proof fn lemma_narrow_runs(s: Seq<u8>, at: int, previous: i64, max_clusters: u64)
    requires
        narrow_from(s, at),
    ensures
        decodable_from(s, at, previous, max_clusters),
    decreases s.len() - at,
{
    if run_there(s, at) {
        lemma_narrow_runs(s, run_end(s, at), run_start(s, at, previous), max_clusters);
    }
}

/// Every run that is read lies within the volume.
pub proof fn law_runs_lie_in_the_volume(attr: Seq<u8>, max_clusters: u64)
    ensures
        forall|i: int|
            0 <= i < data_runs(attr, max_clusters).len() ==> {
                let run = #[trigger] data_runs(attr, max_clusters)[i];
                run.0 + run.1 <= max_clusters
            },
{
    if has_runs(attr) {
        lemma_runs_lie_in_the_volume(attr, le_u16(attr, 0x20), 0, max_clusters);
    }
}

proof fn lemma_runs_lie_in_the_volume(s: Seq<u8>, at: int, previous: i64, max_clusters: u64)
    ensures
        forall|i: int|
            0 <= i < runs_from(s, at, previous, max_clusters).len() ==> {
                let run = #[trigger] runs_from(s, at, previous, max_clusters)[i];
                run.0 + run.1 <= max_clusters
            },
    decreases s.len() - at,
{
    if run_there(s, at) && run_goes_on(s, at, previous, max_clusters) {
        lemma_runs_lie_in_the_volume(
            s,
            run_end(s, at),
            run_start(s, at, previous),
            max_clusters,
        );
        let rest = runs_from(s, run_end(s, at), run_start(s, at, previous), max_clusters);
        assert forall|i: int| 0 <= i < runs_from(s, at, previous, max_clusters).len() implies {
            let run = #[trigger] runs_from(s, at, previous, max_clusters)[i];
            run.0 + run.1 <= max_clusters
        } by {
            if run_start(s, at, previous) >= 0 {
                if i > 0 {
                    assert(runs_from(s, at, previous, max_clusters)[i] == rest[i - 1]);
                }
            } else {
                assert(runs_from(s, at, previous, max_clusters)[i] == rest[i]);
            }
        }
    }
}

// ---------------------------------------------------------------------------------------------
// Stored runs
// ---------------------------------------------------------------------------------------------

/// A number as `n` little-endian bytes.
pub open spec fn le_bytes(value: nat, n: nat) -> Seq<u8>
    decreases n,
{
    if n == 0 {
        seq![]
    } else {
        seq![(value % 0x100) as u8] + le_bytes(value / 0x100, (n - 1) as nat)
    }
}

/// A number as `n` little-endian bytes in two's complement.
pub open spec fn signed_bytes(value: int, n: nat) -> Seq<u8> {
    if value >= 0 {
        le_bytes(value as nat, n)
    } else {
        le_bytes((value + pow2(8 * n)) as nat, n)
    }
}

proof fn lemma_le_bytes(value: nat, n: nat)
    requires
        value < pow2(8 * n),
    ensures
        le_bytes(value, n).len() == n,
        le_value(le_bytes(value, n)) == value,
    decreases n,
{
    lemma2_to64();
    if n > 0 {
        lemma_pow2_by_bytes((n - 1) as nat);
        lemma_le_bytes(value / 0x100, (n - 1) as nat);
        assert(le_bytes(value, n).drop_first() =~= le_bytes(value / 0x100, (n - 1) as nat));
    }
}

proof fn lemma_signed_bytes(value: int, n: nat)
    requires
        n >= 1,
        -pow2((8 * n - 1) as nat) <= value < pow2((8 * n - 1) as nat),
    ensures
        signed_bytes(value, n).len() == n,
        signed_value(signed_bytes(value, n)) == value,
{
    lemma2_to64();
    let whole = pow2(8 * n) as int;
    let low = pow2((8 * (n - 1)) as nat) as int;
    lemma_pow2_unfold(8 * n);
    lemma_pow2_adds(7, (8 * (n - 1)) as nat);
    assert(whole == 0x100 * low);
    let raw = if value >= 0 {
        value
    } else {
        value + whole
    };
    lemma_le_bytes(raw as nat, n);
    let s = signed_bytes(value, n);
    lemma_le_value_last(s);
    lemma_le_value_bound(s.drop_last());
    let b = s.last() as int;
    if b >= 0x80 {
        assert(b * low >= 0x80 * low) by (nonlinear_arith)
            requires
                b >= 0x80,
                low >= 0,
        ;
    } else {
        assert(b * low <= 0x7F * low) by (nonlinear_arith)
            requires
                b <= 0x7F,
                low >= 0,
        ;
    }
}

/// Runs as they are stored: each as a byte that gives the widths of its two numbers, its length,
/// and how far it lies from the run before. Behind the last, a zero byte ends them.
pub open spec fn stored_runs(
    runs: Seq<(u64, u64)>,
    widths: Seq<(nat, nat)>,
    previous: int,
) -> Seq<u8>
    decreases runs.len(),
{
    if runs.len() == 0 {
        seq![]
    } else {
        seq![(widths[0].0 + 16 * widths[0].1) as u8] + le_bytes(runs[0].1 as nat, widths[0].0)
            + signed_bytes(runs[0].0 - previous, widths[0].1) + stored_runs(
            runs.drop_first(),
            widths.drop_first(),
            runs[0].0 as int,
        )
    }
}

/// Whether a run can be stored in these widths after one that began at `previous`, and lies within
/// the volume.
pub open spec fn run_fits(
    run: (u64, u64),
    width: (nat, nat),
    previous: int,
    max_clusters: u64,
) -> bool {
    &&& 1 <= width.0 <= 8
    &&& width.1 <= 7
    &&& run.1 < pow2(8 * width.0)
    &&& width.1 == 0 ==> run.0 == previous
    &&& width.1 > 0 ==> -pow2((8 * width.1 - 1) as nat) <= run.0 - previous < pow2(
        (8 * width.1 - 1) as nat,
    )
    &&& run.0 <= i64::MAX
    &&& run.0 + run.1 <= max_clusters
}

/// Whether each of the runs can be stored after the one before.
pub open spec fn runs_fit(
    runs: Seq<(u64, u64)>,
    widths: Seq<(nat, nat)>,
    previous: int,
    max_clusters: u64,
) -> bool
    decreases runs.len(),
{
    &&& widths.len() == runs.len()
    &&& runs.len() > 0 ==> run_fits(runs[0], widths[0], previous, max_clusters) && runs_fit(
        runs.drop_first(),
        widths.drop_first(),
        runs[0].0 as int,
        max_clusters,
    )
}

/// Where the last of the runs begins, or `previous` where there are none.
pub open spec fn last_start(runs: Seq<(u64, u64)>, previous: i64) -> i64 {
    if runs.len() == 0 {
        previous
    } else {
        runs.last().0 as i64
    }
}

/// Runs within the volume are read back as they were stored, whatever stands before them, and then
/// what stands behind them is read.
proof fn lemma_stored_runs(
    before: Seq<u8>,
    after: Seq<u8>,
    runs: Seq<(u64, u64)>,
    widths: Seq<(nat, nat)>,
    previous: i64,
    max_clusters: u64,
)
    requires
        previous >= 0,
        runs_fit(runs, widths, previous as int, max_clusters),
    ensures
        ({
            let stored = stored_runs(runs, widths, previous as int);
            let s = before + stored + after;
            let (at, end) = (before.len() as int, (before.len() + stored.len()) as int);
            let last = last_start(runs, previous);
            &&& runs_from(s, at, previous, max_clusters) == runs + runs_from(
                s,
                end,
                last,
                max_clusters,
            )
            &&& decodable_from(s, at, previous, max_clusters) == decodable_from(
                s,
                end,
                last,
                max_clusters,
            )
        }),
    decreases runs.len(),
{
    let stored = stored_runs(runs, widths, previous as int);
    let s = before + stored + after;
    let at = before.len() as int;
    let end = (before.len() + stored.len()) as int;
    let tail = runs_from(s, end, last_start(runs, previous), max_clusters);
    if runs.len() == 0 {
        assert(runs + tail =~= tail);
    } else {
        let count = le_bytes(runs[0].1 as nat, widths[0].0);
        let offset = signed_bytes(runs[0].0 - previous, widths[0].1);
        let header = (widths[0].0 + 16 * widths[0].1) as u8;
        let rest = stored_runs(runs.drop_first(), widths.drop_first(), runs[0].0 as int);
        lemma_le_bytes(runs[0].1 as nat, widths[0].0);
        if widths[0].1 > 0 {
            lemma_signed_bytes(runs[0].0 - previous, widths[0].1);
        }
        assert(stored =~= seq![header] + count + offset + rest);
        assert(s[at] == header);
        assert(count_width(header) == widths[0].0);
        assert(offset_width(header) == widths[0].1);
        assert(s.subrange(at + 1, at + 1 + count.len()) =~= count);
        assert(s.subrange(at + 1 + count.len(), at + 1 + count.len() + offset.len()) =~= offset);
        let front = before + seq![header] + count + offset;
        assert(s =~= front + rest + after);
        lemma_stored_runs(
            front,
            after,
            runs.drop_first(),
            widths.drop_first(),
            runs[0].0 as i64,
            max_clusters,
        );
        assert(run_start(s, at, previous) == runs[0].0);
        assert(seq![runs[0]] + (runs.drop_first() + tail) =~= runs + tail);
    }
}

/// Runs within the volume are read back as they were stored, whatever stands before them and behind
/// their end and in whichever widths their numbers were stored.
pub proof fn law_stored_runs_are_read_back(
    before: Seq<u8>,
    after: Seq<u8>,
    runs: Seq<(u64, u64)>,
    widths: Seq<(nat, nat)>,
    previous: i64,
    max_clusters: u64,
)
    requires
        previous >= 0,
        runs_fit(runs, widths, previous as int, max_clusters),
    ensures
        ({
            let s = before + stored_runs(runs, widths, previous as int) + seq![0u8] + after;
            &&& runs_from(s, before.len() as int, previous, max_clusters) == runs
            &&& decodable_from(s, before.len() as int, previous, max_clusters)
        }),
{
    let stored = stored_runs(runs, widths, previous as int);
    let s = before + stored + seq![0u8] + after;
    assert(s =~= before + stored + (seq![0u8] + after));
    lemma_stored_runs(before, seq![0u8] + after, runs, widths, previous, max_clusters);
    assert(s[(before.len() + stored.len()) as int] == 0);
    assert(runs + Seq::<(u64, u64)>::empty() =~= runs);
}

/// A run that begins before the volume is passed over: the next is taken as if it followed one that
/// began there.
pub proof fn law_runs_before_the_volume_are_passed_over(
    s: Seq<u8>,
    at: int,
    previous: i64,
    max_clusters: u64,
)
    requires
        run_there(s, at),
        run_start(s, at, previous) < 0,
    ensures
        runs_from(s, at, previous, max_clusters) == runs_from(
            s,
            run_end(s, at),
            run_start(s, at, previous),
            max_clusters,
        ),
{
}

/// A corrupt run, which begins in the volume or behind it and ends behind it, ends the runs for
/// good, whatever follows; those before it are kept.
pub proof fn law_runs_before_a_corrupt_one_are_kept(
    before: Seq<u8>,
    after: Seq<u8>,
    runs: Seq<(u64, u64)>,
    widths: Seq<(nat, nat)>,
    previous: i64,
    max_clusters: u64,
)
    requires
        previous >= 0,
        runs_fit(runs, widths, previous as int, max_clusters),
        run_there(after, 0),
        run_start(after, 0, last_start(runs, previous)) >= 0,
        run_start(after, 0, last_start(runs, previous)) + run_count(after, 0) > max_clusters,
    ensures
        runs_from(
            before + stored_runs(runs, widths, previous as int) + after,
            before.len() as int,
            previous,
            max_clusters,
        ) == runs,
{
    let stored = stored_runs(runs, widths, previous as int);
    let s = before + stored + after;
    let end = (before.len() + stored.len()) as int;
    lemma_stored_runs(before, after, runs, widths, previous, max_clusters);
    let header = after[0];
    assert(s[end] == header);
    let (a, b) = (1 + count_width(header), 1 + count_width(header) + offset_width(header));
    assert(s.subrange(end + 1, end + a) =~= after.subrange(1, a));
    assert(s.subrange(end + a, end + b) =~= after.subrange(a, b));
    assert(!run_goes_on(s, end, last_start(runs, previous), max_clusters));
    assert(runs + Seq::<(u64, u64)>::empty() =~= runs);
}

} // verus!
