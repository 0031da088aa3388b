//! Silence detection: non-overlapping RMS windows classified against a
//! power threshold, runs of silent windows turned into segments, and
//! segments closer than a tenth of a second merged.
//!
//! Samples are signed 16-bit values. A threshold is a mean-square level in
//! sample units squared: a window is silent when the mean of its squared
//! samples is below it (the RMS compared with the square root of it).
//! Times are in microseconds.
use vstd::prelude::*;
use vstd::arithmetic::div_mod::*;
use vstd::arithmetic::mul::*;
use crate::cache::SampleCache;

verus! {

/// Mean-square level of a full-scale signal: 32768 squared.
pub const FULL_SCALE_POWER: u64 = 1073741824;

/// Two silences whose gap is at most this many microseconds are merged.
pub const MERGE_GAP_US: u64 = 100000;

/// Microseconds in a second.
pub const US_PER_SEC: u64 = 1000000;

/// A contiguous silent stretch of the input.
#[derive(Clone, Copy, Debug, PartialEq, Eq)]
pub struct SilenceSegment {
    pub start_us: u64,
    pub end_us: u64,
    pub duration_us: u64,
    /// Mean of the squared samples over the silent windows, in sample units
    /// squared.
    pub average_power: u64,
}

impl SilenceSegment {
    /// A segment is well formed when it is non-empty, its duration matches
    /// its bounds and its level does not exceed full scale.
    pub open spec fn wf(self) -> bool {
        &&& self.start_us < self.end_us
        &&& self.duration_us == self.end_us - self.start_us
        &&& self.average_power <= FULL_SCALE_POWER
    }

    pub fn new(start_us: u64, end_us: u64, average_power: u64) -> (r: SilenceSegment)
        requires
            start_us <= end_us,
        ensures
            r.start_us == start_us,
            r.end_us == end_us,
            r.duration_us == end_us - start_us,
            r.average_power == average_power,
    {
        SilenceSegment { start_us, end_us, duration_us: end_us - start_us, average_power }
    }
}

pub open spec fn all_wf(s: Seq<SilenceSegment>) -> bool {
    forall|i: int| 0 <= i < s.len() ==> (#[trigger] s[i]).wf()
}

/// Start times never decrease.
pub open spec fn sorted_by_start(s: Seq<SilenceSegment>) -> bool {
    forall|i: int, j: int| 0 <= i <= j < s.len() ==> s[i].start_us <= s[j].start_us
}

/// Each segment begins more than the merge gap after the previous one ends.
pub open spec fn gaps_exceed_merge(s: Seq<SilenceSegment>) -> bool {
    forall|i: int|
        0 <= i < s.len() - 1 ==> #[trigger] s[i + 1].start_us > s[i].end_us + MERGE_GAP_US
}

/// `next` begins at most the merge gap after `cur` ends (or overlaps it).
pub open spec fn is_close(cur: SilenceSegment, next: SilenceSegment) -> bool {
    next.start_us <= cur.end_us + MERGE_GAP_US
}

/// Duration-weighted mean of two levels.
pub open spec fn weighted_power(p1: int, d1: int, p2: int, d2: int) -> int {
    (p1 * d1 + p2 * d2) / (d1 + d2)
}

/// `cur` extended to the end of `next`.
pub open spec fn join(cur: SilenceSegment, next: SilenceSegment) -> SilenceSegment {
    SilenceSegment {
        start_us: cur.start_us,
        end_us: next.end_us,
        duration_us: (next.end_us - cur.start_us) as u64,
        average_power: weighted_power(
            cur.average_power as int,
            cur.duration_us as int,
            next.average_power as int,
            next.duration_us as int,
        ) as u64,
    }
}

/// Left fold that merges `cur` with each following close segment.
pub open spec fn merge_from(cur: SilenceSegment, rest: Seq<SilenceSegment>) -> Seq<SilenceSegment>
    decreases rest.len(),
{
    if rest.len() == 0 {
        seq![cur]
    } else if is_close(cur, rest[0]) {
        merge_from(join(cur, rest[0]), rest.drop_first())
    } else {
        seq![cur] + merge_from(rest[0], rest.drop_first())
    }
}

/// The segments with every close neighbour merged.
pub open spec fn merged(s: Seq<SilenceSegment>) -> Seq<SilenceSegment> {
    if s.len() == 0 {
        Seq::empty()
    } else {
        merge_from(s[0], s.drop_first())
    }
}

proof fn lemma_weighted_le_max(p1: int, d1: int, p2: int, d2: int, m: int)
    requires
        0 <= p1 <= m,
        0 <= p2 <= m,
        d1 > 0,
        d2 >= 0,
    ensures
        0 <= weighted_power(p1, d1, p2, d2) <= m,
{
    assert(p1 * d1 <= m * d1) by (nonlinear_arith)
        requires
            p1 <= m,
            d1 > 0,
    ;
    assert(p2 * d2 <= m * d2) by (nonlinear_arith)
        requires
            p2 <= m,
            d2 >= 0,
    ;
    assert(p1 * d1 >= 0 && p2 * d2 >= 0) by (nonlinear_arith)
        requires
            p1 >= 0,
            p2 >= 0,
            d1 > 0,
            d2 >= 0,
    ;
    lemma_mul_is_distributive_add(m, d1, d2);
    lemma_div_is_ordered(p1 * d1 + p2 * d2, m * (d1 + d2), d1 + d2);
    lemma_div_by_multiple(m, d1 + d2);
    lemma_div_pos_is_pos(p1 * d1 + p2 * d2, d1 + d2);
}

proof fn lemma_join_wf(cur: SilenceSegment, next: SilenceSegment, bound: int)
    requires
        cur.wf(),
        next.wf(),
        cur.start_us <= next.start_us,
        cur.average_power <= bound,
        next.average_power <= bound,
    ensures
        join(cur, next).wf(),
        join(cur, next).average_power <= bound,
        join(cur, next).start_us == cur.start_us,
{
    let m = if bound < FULL_SCALE_POWER { bound } else { FULL_SCALE_POWER as int };
    lemma_weighted_le_max(
        cur.average_power as int,
        cur.duration_us as int,
        next.average_power as int,
        next.duration_us as int,
        m,
    );
}

/// What the fold keeps true: every output segment is well formed, no
/// louder than `bound`, and separated from the next by more than the gap;
/// the first one starts where `cur` starts.
proof fn lemma_merge_from_props(cur: SilenceSegment, rest: Seq<SilenceSegment>, bound: int)
    requires
        cur.wf(),
        cur.average_power <= bound,
        all_wf(rest),
        sorted_by_start(rest),
        forall|i: int| 0 <= i < rest.len() ==> (#[trigger] rest[i]).average_power <= bound,
        rest.len() > 0 ==> cur.start_us <= rest[0].start_us,
    ensures
        merge_from(cur, rest).len() > 0,
        merge_from(cur, rest)[0].start_us == cur.start_us,
        all_wf(merge_from(cur, rest)),
        gaps_exceed_merge(merge_from(cur, rest)),
        forall|i: int|
            0 <= i < merge_from(cur, rest).len() ==> (#[trigger] merge_from(
                cur,
                rest,
            )[i]).average_power <= bound,
    decreases rest.len(),
{
    if rest.len() > 0 {
        let tail = rest.drop_first();
        if is_close(cur, rest[0]) {
            lemma_join_wf(cur, rest[0], bound);
            lemma_merge_from_props(join(cur, rest[0]), tail, bound);
        } else {
            lemma_merge_from_props(rest[0], tail, bound);
            let out = merge_from(cur, rest);
            let inner = merge_from(rest[0], tail);
            assert(out == seq![cur] + inner);
            assert forall|i: int| 0 <= i < out.len() - 1 implies #[trigger] out[i + 1].start_us
                > out[i].end_us + MERGE_GAP_US by {
                if i > 0 {
                    assert(out[i] == inner[i - 1]);
                    assert(out[i + 1] == inner[(i - 1) + 1]);
                }
            }
            assert forall|i: int| 0 <= i < out.len() implies (#[trigger] out[i]).wf()
                && out[i].average_power <= bound by {
                if i > 0 {
                    assert(out[i] == inner[i - 1]);
                }
            }
        }
    }
}

/// Properties of a merge result, for well-formed input sorted by start.
pub proof fn lemma_merged_props(s: Seq<SilenceSegment>, bound: int)
    requires
        all_wf(s),
        sorted_by_start(s),
        forall|i: int| 0 <= i < s.len() ==> (#[trigger] s[i]).average_power <= bound,
    ensures
        all_wf(merged(s)),
        gaps_exceed_merge(merged(s)),
        forall|i: int| 0 <= i < merged(s).len() ==> (#[trigger] merged(s)[i]).average_power <= bound,
        s.len() == 0 <==> merged(s).len() == 0,
{
    if s.len() > 0 {
        let tail = s.drop_first();
        assert(forall|i: int| 0 <= i < tail.len() ==> tail[i] == s[i + 1]);
        lemma_merge_from_props(s[0], tail, bound);
    }
}

proof fn lemma_merge_from_separated(s: Seq<SilenceSegment>, i: int)
    requires
        0 <= i < s.len(),
        gaps_exceed_merge(s),
    ensures
        merge_from(s[i], s.subrange(i + 1, s.len() as int)) == s.subrange(i, s.len() as int),
    decreases s.len() - i,
{
    let rest = s.subrange(i + 1, s.len() as int);
    if rest.len() == 0 {
        assert(s.subrange(i, s.len() as int) =~= seq![s[i]]);
    } else {
        assert(rest[0] == s[i + 1]);
        assert(s[i + 1].start_us > s[i].end_us + MERGE_GAP_US);
        assert(rest.drop_first() =~= s.subrange(i + 2, s.len() as int));
        lemma_merge_from_separated(s, i + 1);
        assert(s.subrange(i, s.len() as int) =~= seq![s[i]] + s.subrange(i + 1, s.len() as int));
    }
}

/// Segments that are already far enough apart are left as they are.
pub proof fn lemma_merged_separated_is_identity(s: Seq<SilenceSegment>)
    requires
        gaps_exceed_merge(s),
    ensures
        merged(s) == s,
{
    if s.len() > 0 {
        lemma_merge_from_separated(s, 0);
        assert(s.drop_first() =~= s.subrange(1, s.len() as int));
        assert(s.subrange(0, s.len() as int) =~= s);
    }
}

/// Merging is idempotent: merging a merge result again changes nothing.
pub proof fn lemma_merge_idempotent(s: Seq<SilenceSegment>)
    requires
        all_wf(s),
        sorted_by_start(s),
    ensures
        merged(merged(s)) == merged(s),
{
    lemma_merged_props(s, FULL_SCALE_POWER as int);
    lemma_merged_separated_is_identity(merged(s));
}

/// Joins `next` onto `cur`; the level is the duration-weighted mean.
fn join_exec(cur: SilenceSegment, next: SilenceSegment) -> (r: SilenceSegment)
    requires
        cur.wf(),
        next.wf(),
        cur.start_us <= next.start_us,
    ensures
        r == join(cur, next),
{
    proof {
        assert(cur.average_power as u128 * cur.duration_us as u128 <= 0x4000_0000_0000_0000_0000_0000u128) by (nonlinear_arith)
            requires
                cur.average_power <= FULL_SCALE_POWER,
                cur.duration_us <= u64::MAX,
        ;
        assert(next.average_power as u128 * next.duration_us as u128 <= 0x4000_0000_0000_0000_0000_0000u128) by (nonlinear_arith)
            requires
                next.average_power <= FULL_SCALE_POWER,
                next.duration_us <= u64::MAX,
        ;
        lemma_weighted_le_max(
            cur.average_power as int,
            cur.duration_us as int,
            next.average_power as int,
            next.duration_us as int,
            FULL_SCALE_POWER as int,
        );
    }
    let a: u128 = cur.average_power as u128 * cur.duration_us as u128;
    let b: u128 = next.average_power as u128 * next.duration_us as u128;
    let num: u128 = a + b;
    let den: u128 = cur.duration_us as u128 + next.duration_us as u128;
    let p = num / den;
    SilenceSegment {
        start_us: cur.start_us,
        end_us: next.end_us,
        duration_us: next.end_us - cur.start_us,
        average_power: p as u64,
    }
}

/// Merges each silence with the following ones that start within a tenth
/// of a second of its end; the level of a merged segment is the
/// duration-weighted mean of the levels of its parts.
pub fn merge_close_silences(silences: Vec<SilenceSegment>) -> (r: Vec<SilenceSegment>)
    requires
        all_wf(silences@),
        sorted_by_start(silences@),
    ensures
        r@ == merged(silences@),
        all_wf(r@),
        gaps_exceed_merge(r@),
{
    proof {
        lemma_merged_props(silences@, FULL_SCALE_POWER as int);
    }
    let n = silences.len();
    if n == 0 {
        return Vec::new();
    }
    let mut out: Vec<SilenceSegment> = Vec::new();
    let mut cur = silences[0];
    let mut i: usize = 1;
    proof {
        assert(silences@.drop_first() =~= silences@.subrange(1, n as int));
    }
    while i < n
        invariant
            1 <= i <= n,
            n == silences@.len(),
            all_wf(silences@),
            sorted_by_start(silences@),
            cur.wf(),
            cur.start_us <= silences@[i - 1].start_us,
            merged(silences@) == out@ + merge_from(cur, silences@.subrange(i as int, n as int)),
        decreases n - i,
    {
        let next = silences[i];
        let ghost rest = silences@.subrange(i as int, n as int);
        proof {
            assert(rest[0] == next);
            assert(rest.drop_first() =~= silences@.subrange(i + 1, n as int));
        }
        if next.start_us as u128 <= cur.end_us as u128 + MERGE_GAP_US as u128 {
            proof {
                lemma_join_wf(cur, next, FULL_SCALE_POWER as int);
            }
            cur = join_exec(cur, next);
        } else {
            out.push(cur);
            proof {
                assert(merged(silences@) == out@ + merge_from(next, silences@.subrange(i + 1, n as int)));
            }
            cur = next;
        }
        i = i + 1;
    }
    out.push(cur);
    proof {
        assert(silences@.subrange(n as int, n as int).len() == 0);
        assert(out@ =~= merged(silences@));
    }
    out
}


/// Sum of the squared samples in `[a, b)`.
pub open spec fn sq_sum(s: Seq<i16>, a: int, b: int) -> int
    decreases b - a,
{
    if b <= a {
        0
    } else {
        sq_sum(s, a, b - 1) + s[b - 1] as int * s[b - 1] as int
    }
}

/// Number of windows of `w` samples needed to cover `len` samples; the
/// last one may be shorter.
pub open spec fn num_windows(len: int, w: int) -> int {
    if len % w == 0 {
        len / w
    } else {
        len / w + 1
    }
}

/// Where window `k` starts (clamped to the end of the input).
pub open spec fn win_start(len: int, w: int, k: int) -> int {
    if k * w < len {
        k * w
    } else {
        len
    }
}

/// Window `k` is silent when its mean square is below `t`.
pub open spec fn window_silent(s: Seq<i16>, w: int, t: int, k: int) -> bool {
    let a = win_start(s.len() as int, w, k);
    let b = win_start(s.len() as int, w, k + 1);
    sq_sum(s, a, b) < (b - a) * t
}

/// Sample index converted to microseconds (rounded down).
pub open spec fn samples_to_us(x: int, rate: int) -> int {
    x * 1000000 / rate
}

/// The shortest silence kept, in samples.
pub open spec fn min_samples(min_ms: int, rate: int) -> int {
    min_ms * rate / 1000
}

/// Window length in samples: 20 ms.
pub open spec fn window_len(rate: int) -> int {
    rate / 50
}

/// The segment for the silent run `[a, b)`.
pub open spec fn run_segment(s: Seq<i16>, rate: int, a: int, b: int) -> SilenceSegment {
    let st = samples_to_us(a, rate);
    let en = samples_to_us(b, rate);
    SilenceSegment {
        start_us: st as u64,
        end_us: en as u64,
        duration_us: (en - st) as u64,
        average_power: (sq_sum(s, a, b) / (b - a)) as u64,
    }
}

/// The run `[a, b)` as output: kept only when at least `m` samples long.
pub open spec fn emit(s: Seq<i16>, rate: int, m: int, a: int, b: int) -> Seq<SilenceSegment> {
    if b - a >= m {
        seq![run_segment(s, rate, a, b)]
    } else {
        Seq::empty()
    }
}

/// The maximal runs of silent windows from window `k` on, long enough to
/// keep, in order. `open` is the start of a run still in progress.
pub open spec fn scan(
    s: Seq<i16>,
    w: int,
    t: int,
    m: int,
    rate: int,
    k: int,
    open: Option<int>,
) -> Seq<SilenceSegment>
    decreases num_windows(s.len() as int, w) - k,
{
    if k >= num_windows(s.len() as int, w) {
        match open {
            Some(a) => emit(s, rate, m, a, s.len() as int),
            None => Seq::empty(),
        }
    } else if window_silent(s, w, t, k) {
        let o = match open {
            Some(a) => Some(a),
            None => Some(k * w),
        };
        scan(s, w, t, m, rate, k + 1, o)
    } else {
        match open {
            Some(a) => emit(s, rate, m, a, k * w) + scan(s, w, t, m, rate, k + 1, None),
            None => scan(s, w, t, m, rate, k + 1, None),
        }
    }
}

/// The silences detected in `s`: runs of silent 20 ms windows lasting at
/// least `min_ms`, with close neighbours merged.
pub open spec fn detected(s: Seq<i16>, rate: int, t: int, min_ms: int) -> Seq<SilenceSegment> {
    merged(scan(s, window_len(rate), t, min_samples(min_ms, rate), rate, 0, None))
}

/// Inputs longer than this would overflow a microsecond time.
pub const MAX_SAMPLES: u64 = 18446744073709;

proof fn lemma_sq_sum_split(s: Seq<i16>, a: int, b: int, c: int)
    requires
        a <= b <= c,
    ensures
        sq_sum(s, a, c) == sq_sum(s, a, b) + sq_sum(s, b, c),
    decreases c - b,
{
    if c > b {
        lemma_sq_sum_split(s, a, b, c - 1);
    }
}

proof fn lemma_sq_sum_bounds(s: Seq<i16>, a: int, b: int)
    requires
        a <= b,
    ensures
        0 <= sq_sum(s, a, b) <= (b - a) * FULL_SCALE_POWER,
    decreases b - a,
{
    if b > a {
        lemma_sq_sum_bounds(s, a, b - 1);
        let x = s[b - 1] as int;
        assert(0 <= x * x <= FULL_SCALE_POWER) by (nonlinear_arith)
            requires
                -32768 <= x <= 32767,
        ;
    }
}

/// A run at least `min_samples` long spans at least one microsecond.
proof fn lemma_run_us_strict(a: int, b: int, rate: int, min_ms: int)
    requires
        0 <= a < b,
        b - a >= min_samples(min_ms, rate),
        min_ms >= 1,
        rate >= 1,
    ensures
        samples_to_us(a, rate) < samples_to_us(b, rate),
{
    let m = min_samples(min_ms, rate);
    if rate <= 1000000 {
        assert((b - a) * 1000000 >= rate) by (nonlinear_arith)
            requires
                b - a >= 1,
                rate <= 1000000,
        ;
    } else {
        lemma_fundamental_div_mod(min_ms * rate, 1000);
        assert(min_ms * rate >= rate) by (nonlinear_arith)
            requires
                min_ms >= 1,
                rate >= 1,
        ;
        assert(m * 1000 >= rate - 999);
        assert((b - a) * 1000000 >= rate) by (nonlinear_arith)
            requires
                b - a >= m,
                m * 1000 >= rate - 999,
                rate > 1000000,
        ;
    }
    assert(b * 1000000 >= a * 1000000 + rate) by (nonlinear_arith)
        requires
            (b - a) * 1000000 >= rate,
    ;
    lemma_div_is_ordered(a * 1000000 + rate, b * 1000000, rate);
    lemma_hoist_over_denominator(a * 1000000, 1, rate as nat);
}

proof fn lemma_us_monotone(x: int, y: int, rate: int)
    requires
        0 <= x <= y,
        rate >= 1,
    ensures
        samples_to_us(x, rate) <= samples_to_us(y, rate),
        0 <= samples_to_us(x, rate),
{
    lemma_mul_inequality(x, y, 1000000);
    lemma_div_is_ordered(x * 1000000, y * 1000000, rate);
    lemma_div_pos_is_pos(x * 1000000, rate);
}

proof fn lemma_us_fits(x: int, rate: int)
    requires
        0 <= x <= MAX_SAMPLES,
        rate >= 1,
    ensures
        samples_to_us(x, rate) <= u64::MAX,
{
    lemma_us_monotone(x, MAX_SAMPLES as int, rate);
    lemma_div_is_ordered_by_denominator(MAX_SAMPLES * 1000000, 1, rate);
}

/// Window `k` lies inside the input when `k` is below the window count.
pub proof fn lemma_window_inside(len: int, w: int, k: int)
    requires
        w > 0,
        len >= 0,
        0 <= k < num_windows(len, w),
    ensures
        k * w < len,
{
    lemma_fundamental_div_mod(len, w);
    lemma_mod_bound(len, w);
    let q = len / w;
    if k < q {
        assert(k * w + w <= q * w) by (nonlinear_arith)
            requires
                k + 1 <= q,
                w > 0,
        ;
    } else {
        assert(k * w == q * w);
    }
}

proof fn lemma_windows_cover(len: int, w: int, k: int)
    requires
        w > 0,
        len >= 0,
        k >= num_windows(len, w),
    ensures
        k * w >= len,
{
    lemma_fundamental_div_mod(len, w);
    lemma_mod_bound(len, w);
    let q = num_windows(len, w);
    assert(k * w >= q * w) by (nonlinear_arith)
        requires
            k >= q,
            w > 0,
    ;
    if len % w != 0 {
        assert(q * w == (len / w) * w + w) by (nonlinear_arith)
            requires
                q == len / w + 1,
        ;
    }
}

/// The one segment of a silent run is well formed, below the threshold,
/// and lies within `[a, b)`.
proof fn lemma_run_segment(s: Seq<i16>, rate: int, t: int, min_ms: int, a: int, b: int)
    requires
        0 <= a < b <= s.len() <= MAX_SAMPLES,
        b - a >= min_samples(min_ms, rate),
        sq_sum(s, a, b) < (b - a) * t,
        min_ms >= 1,
        rate >= 1,
    ensures
        run_segment(s, rate, a, b).wf(),
        run_segment(s, rate, a, b).average_power < t,
        run_segment(s, rate, a, b).start_us == samples_to_us(a, rate),
        run_segment(s, rate, a, b).end_us == samples_to_us(b, rate),
{
    lemma_run_us_strict(a, b, rate, min_ms);
    lemma_us_monotone(a, b, rate);
    lemma_us_fits(b, rate);
    lemma_sq_sum_bounds(s, a, b);
    let e = sq_sum(s, a, b);
    lemma_div_is_ordered(e, (b - a) * FULL_SCALE_POWER, b - a);
    lemma_div_by_multiple(FULL_SCALE_POWER as int, b - a);
    lemma_mul_is_commutative(b - a, FULL_SCALE_POWER as int);
    lemma_div_pos_is_pos(e, b - a);
    lemma_fundamental_div_mod(e, b - a);
    lemma_mod_bound(e, b - a);
    assert(e / (b - a) < t) by (nonlinear_arith)
        requires
            e == (b - a) * (e / (b - a)) + e % (b - a),
            e % (b - a) >= 0,
            e < (b - a) * t,
            b - a > 0,
    ;
}

/// Every segment found from window `k` on is well formed, below the
/// threshold, in order, and starts no earlier than the run in progress (or
/// window `k`).
proof fn lemma_scan_props(
    s: Seq<i16>,
    rate: int,
    t: int,
    min_ms: int,
    k: int,
    open: Option<int>,
)
    requires
        rate >= 50,
        min_ms >= 1,
        s.len() <= MAX_SAMPLES,
        0 <= k <= num_windows(s.len() as int, window_len(rate)),
        open matches Some(a) ==> 0 <= a < win_start(s.len() as int, window_len(rate), k) && sq_sum(
            s,
            a,
            win_start(s.len() as int, window_len(rate), k),
        ) < (win_start(s.len() as int, window_len(rate), k) - a) * t,
    ensures
        ({
            let out = scan(s, window_len(rate), t, min_samples(min_ms, rate), rate, k, open);
            let lower = match open {
                Some(a) => a,
                None => win_start(s.len() as int, window_len(rate), k),
            };
            &&& all_wf(out)
            &&& sorted_by_start(out)
            &&& forall|i: int| 0 <= i < out.len() ==> (#[trigger] out[i]).average_power < t
            &&& forall|i: int|
                0 <= i < out.len() ==> (#[trigger] out[i]).start_us >= samples_to_us(lower, rate)
        }),
    decreases num_windows(s.len() as int, window_len(rate)) - k,
{
    let w = window_len(rate);
    let len = s.len() as int;
    let m = min_samples(min_ms, rate);
    let nw = num_windows(len, w);
    let out = scan(s, w, t, m, rate, k, open);
    if k >= nw {
        lemma_windows_cover(len, w, k);
        if let Some(a) = open {
            if len - a >= m {
                lemma_run_segment(s, rate, t, min_ms, a, len);
            }
        }
    } else {
        lemma_window_inside(len, w, k);
        let a0 = win_start(len, w, k);
        let b0 = win_start(len, w, k + 1);
        assert(a0 == k * w);
        assert(a0 < b0) by (nonlinear_arith)
            requires
                a0 == k * w,
                a0 < len,
                w > 0,
                b0 == if (k + 1) * w < len {
                    (k + 1) * w
                } else {
                    len
                },
        ;
        if window_silent(s, w, t, k) {
            let o = match open {
                Some(a) => a,
                None => k * w,
            };
            lemma_sq_sum_split(s, o, a0, b0);
            if open is None {
                assert(sq_sum(s, o, a0) == 0);
            }
            assert((a0 - o) * t + (b0 - a0) * t == (b0 - o) * t) by (nonlinear_arith);
            assert(sq_sum(s, o, a0) <= (a0 - o) * t);
            lemma_scan_props(s, rate, t, min_ms, k + 1, Some(o));
        } else {
            lemma_scan_props(s, rate, t, min_ms, k + 1, None);
            let rest = scan(s, w, t, m, rate, k + 1, None);
            lemma_us_monotone(a0, b0, rate);
            if let Some(a) = open {
                if a0 - a >= m {
                    lemma_run_segment(s, rate, t, min_ms, a, a0);
                    let seg = run_segment(s, rate, a, a0);
                    assert(out == seq![seg] + rest);
                    lemma_us_monotone(a, a0, rate);
                    assert forall|i: int| 0 <= i < out.len() implies (#[trigger] out[i]).wf()
                        && out[i].average_power < t && out[i].start_us >= samples_to_us(a, rate) by {
                        if i > 0 {
                            assert(out[i] == rest[i - 1]);
                        }
                    }
                    assert forall|i: int, j: int| 0 <= i <= j < out.len() implies out[i].start_us
                        <= out[j].start_us by {
                        if i > 0 {
                            assert(out[i] == rest[i - 1]);
                            assert(out[j] == rest[j - 1]);
                        } else if j > 0 {
                            assert(out[j] == rest[j - 1]);
                        }
                    }
                } else {
                    assert(out == rest);
                    lemma_us_monotone(a, b0, rate);
                }
            }
        }
    }
}

/// Detection output is well formed, in order, below the threshold, and
/// adjacent silences lie more than the merge gap apart.
pub proof fn lemma_detected_props(s: Seq<i16>, rate: int, t: int, min_ms: int)
    requires
        rate >= 50,
        min_ms >= 1,
        s.len() <= MAX_SAMPLES,
    ensures
        all_wf(detected(s, rate, t, min_ms)),
        gaps_exceed_merge(detected(s, rate, t, min_ms)),
        forall|i: int|
            0 <= i < detected(s, rate, t, min_ms).len() ==> (#[trigger] detected(
                s,
                rate,
                t,
                min_ms,
            )[i]).average_power < t,
{
    lemma_scan_props(s, rate, t, min_ms, 0, None);
    let raw = scan(s, window_len(rate), t, min_samples(min_ms, rate), rate, 0, None);
    lemma_merged_props(raw, t - 1);
}


/// Why detection could not run.
#[derive(Clone, Copy, Debug, PartialEq, Eq)]
pub enum DetectError {
    /// Neither cached samples nor a fallback buffer were available.
    NoSamples,
    /// The minimum silence duration is zero.
    InvalidArgument,
    /// The sample rate gives windows of zero samples.
    SampleRateTooLow,
}

/// What detection gives on `s`: nothing for an empty buffer, an error for
/// a zero minimum duration or a rate below 50 Hz, else the detected
/// silences.
pub open spec fn detect_outcome(s: Seq<i16>, rate: int, t: int, min_ms: int) -> Result<
    Seq<SilenceSegment>,
    DetectError,
> {
    if s.len() == 0 {
        Ok(Seq::empty())
    } else if min_ms == 0 {
        Err(DetectError::InvalidArgument)
    } else if rate < 50 {
        Err(DetectError::SampleRateTooLow)
    } else {
        Ok(detected(s, rate, t, min_ms))
    }
}

/// A detection result with the vector seen as a sequence.
pub open spec fn outcome(r: Result<Vec<SilenceSegment>, DetectError>) -> Result<
    Seq<SilenceSegment>,
    DetectError,
> {
    match r {
        Ok(v) => Ok(v@),
        Err(e) => Err(e),
    }
}

/// The buffer detection runs on: the cached one for `key`, else the
/// fallback.
pub open spec fn chosen_samples(
    cache: Map<Seq<char>, Vec<i16>>,
    key: Seq<char>,
    fallback: Option<Seq<i16>>,
) -> Option<Seq<i16>> {
    if cache.contains_key(key) {
        Some(cache[key]@)
    } else {
        fallback
    }
}

/// Sum of the squared samples in `[a, b)`.
fn window_energy(samples: &[i16], a: usize, b: usize) -> (r: u128)
    requires
        a <= b <= samples@.len(),
    ensures
        r == sq_sum(samples@, a as int, b as int),
{
    let mut acc: u128 = 0;
    let mut i: usize = a;
    while i < b
        invariant
            a <= i <= b <= samples@.len(),
            acc == sq_sum(samples@, a as int, i as int),
        decreases b - i,
    {
        proof {
            lemma_sq_sum_bounds(samples@, a as int, i as int);
            assert((i - a) * FULL_SCALE_POWER <= 0x4000_0000_0000_0000_0000_0000u128) by (nonlinear_arith)
                requires
                    i - a <= usize::MAX,
            ;
        }
        let x: i64 = samples[i] as i64;
        proof {
            assert(0 <= x * x <= FULL_SCALE_POWER) by (nonlinear_arith)
                requires
                    -32768 <= x <= 32767,
            ;
        }
        let sq: u128 = (x * x) as u128;
        acc = acc + sq;
        i = i + 1;
    }
    acc
}

/// The segment of the silent run `[a, b)` whose squared samples sum to
/// `energy`.
fn make_run_segment(
    Ghost(s): Ghost<Seq<i16>>,
    rate: u32,
    a: usize,
    b: usize,
    energy: u128,
) -> (r: SilenceSegment)
    requires
        0 <= a < b <= s.len() <= MAX_SAMPLES,
        rate >= 1,
        energy == sq_sum(s, a as int, b as int),
    ensures
        r == run_segment(s, rate as int, a as int, b as int),
{
    proof {
        lemma_us_monotone(a as int, b as int, rate as int);
        lemma_us_fits(b as int, rate as int);
        lemma_sq_sum_bounds(s, a as int, b as int);
        lemma_div_is_ordered(energy as int, (b - a) * FULL_SCALE_POWER, (b - a) as int);
        lemma_mul_is_commutative((b - a) as int, FULL_SCALE_POWER as int);
        lemma_div_by_multiple(FULL_SCALE_POWER as int, (b - a) as int);
        assert(a as u128 * 1000000u128 <= b as u128 * 1000000u128) by (nonlinear_arith)
            requires
                a <= b,
        ;
        assert(b as u128 * 1000000u128 <= MAX_SAMPLES * 1000000) by (nonlinear_arith)
            requires
                b <= MAX_SAMPLES,
        ;
    }
    let st: u128 = (a as u128 * 1000000u128) / rate as u128;
    let en: u128 = (b as u128 * 1000000u128) / rate as u128;
    let p: u128 = energy / ((b - a) as u128);
    SilenceSegment {
        start_us: st as u64,
        end_us: en as u64,
        duration_us: (en - st) as u64,
        average_power: p as u64,
    }
}

/// Detects silences in `samples`: windows of 20 ms whose mean square is
/// below `threshold_power` are silent; runs of silent windows lasting at
/// least `min_silence_ms` become segments, and segments separated by at
/// most 100 ms are merged.
pub fn detect_in_samples(
    samples: &[i16],
    sample_rate: u32,
    threshold_power: u64,
    min_silence_ms: u64,
) -> (r: Result<Vec<SilenceSegment>, DetectError>)
    requires
        samples@.len() <= MAX_SAMPLES,
    ensures
        outcome(r) == detect_outcome(
            samples@,
            sample_rate as int,
            threshold_power as int,
            min_silence_ms as int,
        ),
{
    let len = samples.len();
    if len == 0 {
        return Ok(Vec::new());
    }
    if min_silence_ms == 0 {
        return Err(DetectError::InvalidArgument);
    }
    if sample_rate < 50 {
        return Err(DetectError::SampleRateTooLow);
    }
    let ghost s = samples@;
    let ghost rate = sample_rate as int;
    let ghost tt = threshold_power as int;
    let w: usize = (sample_rate / 50) as usize;
    let nw: usize = if len % w == 0 {
        len / w
    } else {
        proof {
            lemma_div_decreases(len as int, w as int);
        }
        len / w + 1
    };
    proof {
        assert(min_silence_ms as u128 * sample_rate as u128 <= 0xffff_ffff_ffff_ffff_ffff_ffffu128) by (nonlinear_arith)
            requires
                min_silence_ms <= u64::MAX,
                sample_rate <= u32::MAX,
        ;
    }
    let m: u128 = (min_silence_ms as u128 * sample_rate as u128) / 1000;
    let t: u128 = threshold_power as u128;
    let ghost gw = w as int;
    let ghost gm = m as int;
    let mut raw: Vec<SilenceSegment> = Vec::new();
    let mut open = false;
    let mut run_start: usize = 0;
    let mut run_energy: u128 = 0;
    let mut k: usize = 0;
    while k < nw
        invariant
            s == samples@,
            len == s.len(),
            0 < len <= MAX_SAMPLES,
            rate == sample_rate,
            rate >= 50,
            tt == threshold_power,
            t == tt,
            gw == w,
            w == window_len(rate),
            w > 0,
            nw == num_windows(len as int, gw),
            k <= nw,
            gm == m,
            m == min_samples(min_silence_ms as int, rate),
            scan(s, gw, tt, gm, rate, 0, None) == raw@ + scan(
                s,
                gw,
                tt,
                gm,
                rate,
                k as int,
                if open {
                    Some(run_start as int)
                } else {
                    None
                },
            ),
            open ==> run_start < win_start(len as int, gw, k as int) && run_energy == sq_sum(
                s,
                run_start as int,
                win_start(len as int, gw, k as int),
            ),
        decreases nw - k,
    {
        proof {
            lemma_window_inside(len as int, gw, k as int);
            assert((k + 1) * gw == k * gw + gw) by (nonlinear_arith);
        }
        let a = k * w;
        let b = if len - a > w {
            a + w
        } else {
            len
        };
        let e = window_energy(samples, a, b);
        proof {
            assert(b as int == win_start(len as int, gw, k as int + 1));
            let d = (b - a) as int;
            assert(d * t <= 0xffff_ffff_ffff_ffff_ffff_ffff_ffff_ffffu128) by (nonlinear_arith)
                requires
                    0 <= d <= 0x1_0000_0000,
                    0 <= t <= u64::MAX,
            ;
            if open {
                lemma_sq_sum_split(s, run_start as int, a as int, b as int);
                lemma_sq_sum_bounds(s, run_start as int, b as int);
                lemma_sq_sum_bounds(s, a as int, b as int);
                lemma_sq_sum_bounds(s, run_start as int, a as int);
                assert((b - run_start) * FULL_SCALE_POWER <= 0x4000_0000_0000_0000_0000_0000u128) by (nonlinear_arith)
                    requires
                        b - run_start <= usize::MAX,
                ;
            }
        }
        let silent = e < (b - a) as u128 * t;
        if silent {
            if !open {
                open = true;
                run_start = a;
                run_energy = e;
            } else {
                run_energy = run_energy + e;
            }
        } else if open {
            open = false;
            if (a - run_start) as u128 >= m {
                let seg = make_run_segment(Ghost(s), sample_rate, run_start, a, run_energy);
                raw.push(seg);
                proof {
                    assert(raw@ + scan(s, gw, tt, gm, rate, k + 1, None) =~= raw@.drop_last() + (
                    seq![seg] + scan(s, gw, tt, gm, rate, k + 1, None)));
                }
            }
        }
        k = k + 1;
    }
    proof {
        lemma_windows_cover(len as int, gw, k as int);
    }
    if open {
        if (len - run_start) as u128 >= m {
            let seg = make_run_segment(Ghost(s), sample_rate, run_start, len, run_energy);
            raw.push(seg);
        }
    }
    proof {
        assert(raw@ =~= scan(s, gw, tt, gm, rate, 0, None));
        lemma_scan_props(s, rate, tt, min_silence_ms as int, 0, None);
    }
    let merged_out = merge_close_silences(raw);
    Ok(merged_out)
}

/// Detects silences in the buffer cached under `cache_id`, or in
/// `fallback` when the cache holds none; fails with `NoSamples` when
/// neither is there.
pub fn detect_silences(
    cache: &SampleCache,
    cache_id: &str,
    fallback: Option<&[i16]>,
    sample_rate: u32,
    threshold_power: u64,
    min_silence_ms: u64,
) -> (r: Result<Vec<SilenceSegment>, DetectError>)
    requires
        cache@.contains_key(cache_id@) ==> cache@[cache_id@]@.len() <= MAX_SAMPLES,
        fallback matches Some(f) ==> f@.len() <= MAX_SAMPLES,
    ensures
        outcome(r) == match chosen_samples(
            cache@,
            cache_id@,
            match fallback {
                Some(f) => Some(f@),
                None => None,
            },
        ) {
            Some(s) => detect_outcome(s, sample_rate as int, threshold_power as int, min_silence_ms as int),
            None => Err(DetectError::NoSamples),
        },
{
    match cache.get(cache_id) {
        Some(v) => detect_in_samples(v.as_slice(), sample_rate, threshold_power, min_silence_ms),
        None => match fallback {
            Some(f) => detect_in_samples(f, sample_rate, threshold_power, min_silence_ms),
            None => Err(DetectError::NoSamples),
        },
    }
}

proof fn lemma_scan_all_silent(s: Seq<i16>, w: int, t: int, m: int, rate: int, k: int)
    requires
        w > 0,
        1 <= k <= num_windows(s.len() as int, w),
        forall|j: int| 0 <= j < num_windows(s.len() as int, w) ==> window_silent(s, w, t, j),
    ensures
        scan(s, w, t, m, rate, k, Some(0)) == emit(s, rate, m, 0, s.len() as int),
    decreases num_windows(s.len() as int, w) - k,
{
    if k < num_windows(s.len() as int, w) {
        lemma_scan_all_silent(s, w, t, m, rate, k + 1);
    }
}

/// A non-empty input whose windows are all silent and which lasts at least
/// the minimum yields exactly one silence, from the first sample to the
/// end.
pub proof fn lemma_all_silent_is_one_segment(s: Seq<i16>, rate: int, t: int, min_ms: int)
    requires
        rate >= 50,
        min_ms >= 1,
        0 < s.len() <= MAX_SAMPLES,
        s.len() >= min_samples(min_ms, rate),
        forall|j: int|
            0 <= j < num_windows(s.len() as int, window_len(rate)) ==> window_silent(
                s,
                window_len(rate),
                t,
                j,
            ),
    ensures
        detected(s, rate, t, min_ms) == seq![run_segment(s, rate, 0, s.len() as int)],
        detected(s, rate, t, min_ms)[0].start_us == 0,
        detected(s, rate, t, min_ms)[0].end_us == samples_to_us(s.len() as int, rate),
{
    let w = window_len(rate);
    let m = min_samples(min_ms, rate);
    lemma_fundamental_div_mod(s.len() as int, w);
    lemma_div_pos_is_pos(s.len() as int, w);
    if s.len() as int / w == 0 {
        assert(s.len() as int % w != 0);
    }
    assert(num_windows(s.len() as int, w) >= 1);
    lemma_scan_all_silent(s, w, t, m, rate, 1);
    assert(window_silent(s, w, t, 0));
    let raw = scan(s, w, t, m, rate, 0, None);
    assert(raw == seq![run_segment(s, rate, 0, s.len() as int)]);
    assert(raw.drop_first().len() == 0);
    lemma_us_fits(s.len() as int, rate);
    assert(samples_to_us(0, rate) == 0);
}

/// Detection is stable: its result is a fixed point of merging, and the
/// same input always gives the same silences.
pub proof fn lemma_detection_stable(s: Seq<i16>, rate: int, t: int, min_ms: int)
    requires
        rate >= 50,
        min_ms >= 1,
        s.len() <= MAX_SAMPLES,
    ensures
        merged(detected(s, rate, t, min_ms)) == detected(s, rate, t, min_ms),
        detect_outcome(s, rate, t, min_ms) == detect_outcome(s, rate, t, min_ms),
{
    lemma_detected_props(s, rate, t, min_ms);
    lemma_merged_separated_is_identity(detected(s, rate, t, min_ms));
}

/// The smallest sample (the largest when `max`).
pub open spec fn extreme(s: Seq<i16>, max: bool) -> i16
    decreases s.len(),
{
    if s.len() == 0 {
        if max {
            i16::MIN
        } else {
            i16::MAX
        }
    } else {
        let e = extreme(s.drop_last(), max);
        let x = s.last();
        if (max && x > e) || (!max && x < e) {
            x
        } else {
            e
        }
    }
}

/// Windows quieter than -40 dB full scale: mean square below 32768² / 10⁴.
pub open spec fn quiet_window(s: Seq<i16>, w: int, k: int) -> bool {
    let a = win_start(s.len() as int, w, k);
    let b = win_start(s.len() as int, w, k + 1);
    sq_sum(s, a, b) * 10000 < (b - a) * FULL_SCALE_POWER
}

/// Number of quiet windows among the first `k`.
pub open spec fn quiet_count(s: Seq<i16>, w: int, k: int) -> int
    decreases k,
{
    if k <= 0 {
        0
    } else {
        quiet_count(s, w, k - 1) + if quiet_window(s, w, k - 1) {
            1int
        } else {
            0
        }
    }
}

/// Level statistics of a buffer.
#[derive(Debug)]
pub struct AudioStatistics {
    pub sample_count: usize,
    pub duration_us: u64,
    pub min_value: i16,
    pub max_value: i16,
    /// Mean of the squared samples.
    pub mean_power: u64,
    /// Largest absolute sample.
    pub peak: u16,
    /// 20 ms windows quieter than -40 dB.
    pub silent_windows: usize,
    pub total_windows: usize,
    pub detected_silences: usize,
}

/// Computes sample count, duration, extremes, mean square, peak and how
/// many 20 ms windows are quieter than -40 dB; all zero for no samples.
pub fn calculate_statistics(audio_data: &[i16], sample_rate: u32) -> (r: AudioStatistics)
    requires
        audio_data@.len() <= MAX_SAMPLES,
        audio_data@.len() > 0 ==> sample_rate >= 50,
    ensures
        ({
            let s = audio_data@;
            let w = window_len(sample_rate as int);
            if s.len() == 0 {
                r.sample_count == 0 && r.duration_us == 0 && r.min_value == 0 && r.max_value == 0
                    && r.mean_power == 0 && r.peak == 0 && r.silent_windows == 0
                    && r.total_windows == 0
            } else {
                &&& r.sample_count == s.len()
                &&& r.duration_us == samples_to_us(s.len() as int, sample_rate as int)
                &&& r.min_value == extreme(s, false)
                &&& r.max_value == extreme(s, true)
                &&& r.mean_power == sq_sum(s, 0, s.len() as int) / (s.len() as int)
                &&& r.peak == crate::pcm::max_abs(s)
                &&& r.total_windows == num_windows(s.len() as int, w)
                &&& r.silent_windows == quiet_count(s, w, num_windows(s.len() as int, w))
            }
        }),
        r.detected_silences == 0,
{
    let n = audio_data.len();
    if n == 0 {
        return AudioStatistics {
            sample_count: 0,
            duration_us: 0,
            min_value: 0,
            max_value: 0,
            mean_power: 0,
            peak: 0,
            silent_windows: 0,
            total_windows: 0,
            detected_silences: 0,
        };
    }
    let ghost s = audio_data@;
    let mut lo: i16 = i16::MAX;
    let mut hi: i16 = i16::MIN;
    let mut i: usize = 0;
    proof {
        assert(s.subrange(0, 0) =~= Seq::<i16>::empty());
    }
    while i < n
        invariant
            i <= n == s.len(),
            s == audio_data@,
            lo == extreme(s.subrange(0, i as int), false),
            hi == extreme(s.subrange(0, i as int), true),
        decreases n - i,
    {
        let x = audio_data[i];
        proof {
            assert(s.subrange(0, i + 1).drop_last() =~= s.subrange(0, i as int));
        }
        if x < lo {
            lo = x;
        }
        if x > hi {
            hi = x;
        }
        i = i + 1;
    }
    proof {
        assert(s.subrange(0, n as int) =~= s);
    }
    let energy = window_energy(audio_data, 0, n);
    let peak = crate::pcm::max_abs_range(audio_data, 0, n);
    proof {
        lemma_sq_sum_bounds(s, 0, n as int);
        lemma_div_is_ordered(energy as int, n * FULL_SCALE_POWER, n as int);
        lemma_mul_is_commutative(n as int, FULL_SCALE_POWER as int);
        lemma_div_by_multiple(FULL_SCALE_POWER as int, n as int);
        lemma_us_fits(n as int, sample_rate as int);
        assert(n as u128 * 1000000u128 <= MAX_SAMPLES * 1000000) by (nonlinear_arith)
            requires
                n <= MAX_SAMPLES,
        ;
    }
    let w: usize = (sample_rate / 50) as usize;
    let nw: usize = if n % w == 0 {
        n / w
    } else {
        proof {
            lemma_div_decreases(n as int, w as int);
        }
        n / w + 1
    };
    let mut quiet: usize = 0;
    let mut k: usize = 0;
    while k < nw
        invariant
            n == s.len(),
            s == audio_data@,
            w == window_len(sample_rate as int),
            w > 0,
            nw == num_windows(n as int, w as int),
            k <= nw,
            quiet == quiet_count(s, w as int, k as int),
            quiet <= k,
        decreases nw - k,
    {
        proof {
            lemma_window_inside(n as int, w as int, k as int);
            assert((k + 1) * w == k * w + w) by (nonlinear_arith);
        }
        let a = k * w;
        let b = if n - a > w {
            a + w
        } else {
            n
        };
        let e = window_energy(audio_data, a, b);
        proof {
            lemma_sq_sum_bounds(s, a as int, b as int);
            assert(e * 10000 <= 0xffff_ffff_ffff_ffff_ffff_ffff_ffff_ffffu128) by (nonlinear_arith)
                requires
                    e <= (b - a) * FULL_SCALE_POWER,
                    b - a <= 0x1_0000_0000,
            ;
            let d = (b - a) as int;
            assert(d * FULL_SCALE_POWER <= 0xffff_ffff_ffff_ffff_ffff_ffff_ffff_ffffu128) by (nonlinear_arith)
                requires
                    0 <= d <= 0x1_0000_0000,
            ;
            assert(b as int == win_start(n as int, w as int, k + 1));
        }
        if e * 10000 < (b - a) as u128 * FULL_SCALE_POWER as u128 {
            quiet = quiet + 1;
        }
        k = k + 1;
    }
    AudioStatistics {
        sample_count: n,
        duration_us: ((n as u128 * 1000000u128) / sample_rate as u128) as u64,
        min_value: lo,
        max_value: hi,
        mean_power: (energy / n as u128) as u64,
        peak,
        silent_windows: quiet,
        total_windows: nw,
        detected_silences: 0,
    }
}

} // verus!
