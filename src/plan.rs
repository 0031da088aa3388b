//! Excision planning: the stretches to keep between silences, their
//! grouping into render batches, and the figures reported for a job.
use vstd::prelude::*;
use crate::detect::{SilenceSegment, num_windows, lemma_window_inside};

verus! {

/// A stretch of the source that is kept, in microseconds.
#[derive(Clone, Copy, Debug, PartialEq, Eq)]
pub struct SpeechSegment {
    pub start_us: u64,
    pub end_us: u64,
}

/// Slices shorter than this at a silence edge are not kept.
pub const EDGE_TOLERANCE_US: u64 = 10000;

/// Most segments rendered by one batch.
pub const SEGMENTS_PER_BATCH: usize = 10;

/// The kept stretches from silence `i` on, the previous silence having
/// ended at `last_end`.
pub open spec fn speech_from(sil: Seq<SilenceSegment>, i: int, last_end: int, total: int) -> Seq<
    SpeechSegment,
>
    decreases sil.len() - i,
{
    if i >= sil.len() {
        if last_end + EDGE_TOLERANCE_US < total {
            seq![SpeechSegment { start_us: last_end as u64, end_us: total as u64 }]
        } else {
            Seq::empty()
        }
    } else {
        let s = sil[i];
        let here = if s.start_us > last_end + EDGE_TOLERANCE_US {
            seq![SpeechSegment { start_us: last_end as u64, end_us: s.start_us }]
        } else {
            Seq::empty()
        };
        here + speech_from(sil, i + 1, s.end_us as int, total)
    }
}

/// The stretches kept when the silences are cut out of `[0, total)`.
pub open spec fn speech_segments(sil: Seq<SilenceSegment>, total: int) -> Seq<SpeechSegment> {
    speech_from(sil, 0, 0, total)
}

/// Each silence is non-empty or a point, and starts never decrease.
pub open spec fn silences_ordered(sil: Seq<SilenceSegment>) -> bool {
    &&& forall|i: int| 0 <= i < sil.len() ==> (#[trigger] sil[i]).start_us <= sil[i].end_us
    &&& forall|i: int, j: int| 0 <= i <= j < sil.len() ==> sil[i].start_us <= sil[j].start_us
}

/// Kept stretches are non-empty, pairwise disjoint and in increasing order.
pub open spec fn speech_ordered(sp: Seq<SpeechSegment>) -> bool {
    &&& forall|a: int| 0 <= a < sp.len() ==> (#[trigger] sp[a]).start_us < sp[a].end_us
    &&& forall|a: int, b: int|
        0 <= a < b < sp.len() ==> sp[a].end_us <= sp[b].start_us && sp[a].start_us
            < sp[b].start_us
}

proof fn lemma_speech_from_ordered(sil: Seq<SilenceSegment>, i: int, last_end: int, total: int)
    requires
        0 <= i <= sil.len(),
        0 <= last_end <= u64::MAX,
        0 <= total <= u64::MAX,
        silences_ordered(sil),
    ensures
        speech_ordered(speech_from(sil, i, last_end, total)),
        forall|a: int|
            0 <= a < speech_from(sil, i, last_end, total).len() ==> (#[trigger] speech_from(
                sil,
                i,
                last_end,
                total,
            )[a]).start_us >= if i < sil.len() && sil[i].start_us < last_end {
                sil[i].start_us as int
            } else {
                last_end
            },
    decreases sil.len() - i,
{
    if i < sil.len() {
        let s = sil[i];
        lemma_speech_from_ordered(sil, i + 1, s.end_us as int, total);
        let rest = speech_from(sil, i + 1, s.end_us as int, total);
        if i + 1 < sil.len() {
            assert(sil[i].start_us <= sil[i + 1].start_us);
        }
        if s.start_us > last_end + EDGE_TOLERANCE_US {
            let first = SpeechSegment { start_us: last_end as u64, end_us: s.start_us };
            let out = speech_from(sil, i, last_end, total);
            assert(out == seq![first] + rest);
            assert forall|a: int, b: int| 0 <= a < b < out.len() implies out[a].end_us
                <= out[b].start_us && out[a].start_us < out[b].start_us by {
                if a > 0 {
                    assert(out[a] == rest[a - 1]);
                }
                assert(out[b] == rest[b - 1]);
            }
            assert forall|a: int| 0 <= a < out.len() implies (#[trigger] out[a]).start_us
                < out[a].end_us by {
                if a > 0 {
                    assert(out[a] == rest[a - 1]);
                }
            }
            assert forall|a: int| 0 <= a < out.len() implies (#[trigger] out[a]).start_us
                >= last_end by {
                if a > 0 {
                    assert(out[a] == rest[a - 1]);
                }
            }
        } else {
            assert(speech_from(sil, i, last_end, total) == rest);
        }
    }
}

/// Kept stretches are pairwise disjoint and strictly increasing in start,
/// for silences sorted by start.
pub proof fn lemma_speech_segments_ordered(sil: Seq<SilenceSegment>, total: int)
    requires
        silences_ordered(sil),
        0 <= total <= u64::MAX,
    ensures
        speech_ordered(speech_segments(sil, total)),
{
    lemma_speech_from_ordered(sil, 0, 0, total);
}

/// The stretches to keep: the gaps between consecutive silences (and before
/// the first and after the last) longer than 10 ms.
pub fn plan_speech_segments(silences: &[SilenceSegment], total_us: u64) -> (r: Vec<SpeechSegment>)
    ensures
        r@ == speech_segments(silences@, total_us as int),
{
    let mut out: Vec<SpeechSegment> = Vec::new();
    let mut last_end: u64 = 0;
    let mut i: usize = 0;
    while i < silences.len()
        invariant
            i <= silences@.len(),
            speech_segments(silences@, total_us as int) == out@ + speech_from(
                silences@,
                i as int,
                last_end as int,
                total_us as int,
            ),
        decreases silences@.len() - i,
    {
        let s = silences[i];
        if s.start_us as u128 > last_end as u128 + EDGE_TOLERANCE_US as u128 {
            out.push(SpeechSegment { start_us: last_end, end_us: s.start_us });
            proof {
                assert(out@ + speech_from(silences@, i + 1, s.end_us as int, total_us as int)
                    =~= out@.drop_last() + (seq![out@.last()] + speech_from(
                    silences@,
                    i + 1,
                    s.end_us as int,
                    total_us as int,
                )));
            }
        } else {
            proof {
                assert(out@ + speech_from(silences@, i + 1, s.end_us as int, total_us as int)
                    =~= out@ + (Seq::<SpeechSegment>::empty() + speech_from(
                    silences@,
                    i + 1,
                    s.end_us as int,
                    total_us as int,
                )));
            }
        }
        last_end = s.end_us;
        i = i + 1;
    }
    if (last_end as u128) + (EDGE_TOLERANCE_US as u128) < total_us as u128 {
        out.push(SpeechSegment { start_us: last_end, end_us: total_us });
    }
    proof {
        assert(out@ =~= speech_segments(silences@, total_us as int));
    }
    out
}

/// A group of consecutive kept stretches rendered by one transcoder job,
/// which seeks to the start of its first stretch.
#[derive(Debug)]
pub struct Batch {
    pub index: usize,
    pub seek_start_us: u64,
    pub segments: Vec<SpeechSegment>,
}

pub open spec fn batch_count(n: int) -> int {
    num_windows(n, SEGMENTS_PER_BATCH as int)
}

pub open spec fn batch_end(n: int, b: int) -> int {
    if (b + 1) * SEGMENTS_PER_BATCH < n {
        (b + 1) * SEGMENTS_PER_BATCH
    } else {
        n
    }
}

/// `batches` splits `speech` into consecutive non-empty groups of ten (the
/// last one shorter), numbered from zero, each seeking to its first start.
pub open spec fn batches_match(batches: Seq<Batch>, speech: Seq<SpeechSegment>) -> bool {
    &&& batches.len() == batch_count(speech.len() as int)
    &&& forall|b: int|
        0 <= b < batches.len() ==> {
            &&& (#[trigger] batches[b]).index == b
            &&& batches[b].segments@ == speech.subrange(
                b * SEGMENTS_PER_BATCH,
                batch_end(speech.len() as int, b),
            )
            &&& batches[b].segments@.len() > 0
            &&& batches[b].seek_start_us == speech[b * SEGMENTS_PER_BATCH].start_us
        }
}

/// Splits the stretches into batches of ten, in order; the last batch takes
/// what is left.
pub fn plan_batches(speech: &[SpeechSegment]) -> (r: Vec<Batch>)
    ensures
        batches_match(r@, speech@),
{
    let n = speech.len();
    let nb: usize = if n % SEGMENTS_PER_BATCH == 0 {
        n / SEGMENTS_PER_BATCH
    } else {
        n / SEGMENTS_PER_BATCH + 1
    };
    let mut out: Vec<Batch> = Vec::new();
    let mut b: usize = 0;
    while b < nb
        invariant
            n == speech@.len(),
            nb == batch_count(n as int),
            b <= nb,
            out@.len() == b,
            forall|j: int|
                0 <= j < b ==> {
                    &&& (#[trigger] out@[j]).index == j
                    &&& out@[j].segments@ == speech@.subrange(
                        j * SEGMENTS_PER_BATCH,
                        batch_end(n as int, j),
                    )
                    &&& out@[j].segments@.len() > 0
                    &&& out@[j].seek_start_us == speech@[j * SEGMENTS_PER_BATCH].start_us
                },
        decreases nb - b,
    {
        proof {
            lemma_window_inside(n as int, SEGMENTS_PER_BATCH as int, b as int);
            assert((b + 1) * SEGMENTS_PER_BATCH == b * SEGMENTS_PER_BATCH + SEGMENTS_PER_BATCH) by (nonlinear_arith);
        }
        let start = b * SEGMENTS_PER_BATCH;
        let end = if n - start > SEGMENTS_PER_BATCH {
            start + SEGMENTS_PER_BATCH
        } else {
            n
        };
        let mut segs: Vec<SpeechSegment> = Vec::new();
        let mut i = start;
        while i < end
            invariant
                start <= i <= end <= n,
                n == speech@.len(),
                segs@ == speech@.subrange(start as int, i as int),
            decreases end - i,
        {
            segs.push(speech[i]);
            proof {
                assert(segs@ =~= speech@.subrange(start as int, i + 1));
            }
            i = i + 1;
        }
        out.push(Batch { index: b, seek_start_us: speech[start].start_us, segments: segs });
        b = b + 1;
    }
    out
}

/// What a job does with its source.
#[derive(Debug)]
pub enum ExcisionPlan {
    /// Nothing to cut: the source is copied as it is.
    CopySource,
    /// The kept stretches, rendered batch by batch and stitched.
    Render { speech: Vec<SpeechSegment>, batches: Vec<Batch> },
}

/// Plans a job: with no silences the source is copied verbatim; otherwise
/// the kept stretches are computed and split into batches.
pub fn plan_excision(silences: &[SilenceSegment], total_us: u64) -> (r: ExcisionPlan)
    ensures
        silences@.len() == 0 <==> r is CopySource,
        r matches ExcisionPlan::Render { speech, batches } ==> speech@ == speech_segments(
            silences@,
            total_us as int,
        ) && batches_match(batches@, speech@),
{
    if silences.len() == 0 {
        return ExcisionPlan::CopySource;
    }
    let speech = plan_speech_segments(silences, total_us);
    let batches = plan_batches(speech.as_slice());
    ExcisionPlan::Render { speech, batches }
}

/// Total duration of the silences.
pub open spec fn total_silence(sil: Seq<SilenceSegment>) -> int
    decreases sil.len(),
{
    if sil.len() == 0 {
        0
    } else {
        total_silence(sil.drop_last()) + sil.last().duration_us
    }
}

proof fn lemma_total_silence_nonneg(sil: Seq<SilenceSegment>)
    ensures
        total_silence(sil) >= 0,
    decreases sil.len(),
{
    if sil.len() > 0 {
        lemma_total_silence_nonneg(sil.drop_last());
    }
}

/// Total duration of the silences, or `None` when it does not fit in 64
/// bits.
pub fn total_silence_us(silences: &[SilenceSegment]) -> (r: Option<u64>)
    ensures
        total_silence(silences@) >= 0,
        r == if total_silence(silences@) <= u64::MAX {
            Some(total_silence(silences@) as u64)
        } else {
            None::<u64>
        },
{
    let mut acc: u128 = 0;
    let mut i: usize = 0;
    while i < silences.len()
        invariant
            i <= silences@.len(),
            acc == total_silence(silences@.subrange(0, i as int)),
            acc <= i * 0x1_0000_0000_0000_0000u128,
        decreases silences@.len() - i,
    {
        proof {
            assert(silences@.subrange(0, i + 1).drop_last() =~= silences@.subrange(0, i as int));
            assert(i * 0x1_0000_0000_0000_0000u128 <= 0xffff_ffff_ffff_ffff_0000_0000_0000_0000u128) by (nonlinear_arith)
                requires
                    i < 0x1_0000_0000_0000_0000u128,
            ;
        }
        acc = acc + silences[i].duration_us as u128;
        i = i + 1;
    }
    proof {
        assert(silences@.subrange(0, i as int) =~= silences@);
        lemma_total_silence_nonneg(silences@);
    }
    if acc <= u64::MAX as u128 {
        Some(acc as u64)
    } else {
        None
    }
}

/// The figures reported for a finished job.
#[derive(Debug)]
pub struct ProcessResult {
    pub input_path: String,
    pub output_path: String,
    pub original_duration_us: u64,
    /// Source duration minus the silences removed; negative only when the
    /// silences claim more time than the source has.
    pub processed_duration_us: i128,
    pub silence_segments: usize,
    pub total_silence_removed_us: u64,
    pub processing_time_ms: u64,
    pub success: bool,
    pub error_message: Option<String>,
}

/// Reports a successful job: the processed duration is the source duration
/// minus the total duration of the silences.
pub fn summarize_job(
    input_path: String,
    output_path: String,
    original_duration_us: u64,
    silences: &[SilenceSegment],
    processing_time_ms: u64,
) -> (r: ProcessResult)
    requires
        total_silence(silences@) <= u64::MAX,
    ensures
        r.input_path == input_path,
        r.output_path == output_path,
        r.original_duration_us == original_duration_us,
        r.total_silence_removed_us == total_silence(silences@),
        r.processed_duration_us + r.total_silence_removed_us == r.original_duration_us,
        r.silence_segments == silences@.len(),
        r.processing_time_ms == processing_time_ms,
        r.success,
        r.error_message is None,
{
    let removed = match total_silence_us(silences) {
        Some(t) => t,
        None => 0,
    };
    ProcessResult {
        input_path,
        output_path,
        original_duration_us,
        processed_duration_us: original_duration_us as i128 - removed as i128,
        silence_segments: silences.len(),
        total_silence_removed_us: removed,
        processing_time_ms,
        success: true,
        error_message: None,
    }
}

} // verus!
