//! Transcoder invocations: the filter graph and arguments that render one
//! batch of kept stretches, the stitch list and command, the extraction and
//! probe commands, and the progress of a render.
use vstd::prelude::*;
use crate::detect::SilenceSegment;
use crate::plan::{Batch, SpeechSegment};
use crate::text::{dec, push_dec, push_zpad, zpad};

verus! {

/// Seconds with three decimals, from microseconds rounded to the nearest
/// millisecond (halves up).
pub open spec fn secs3(us: u64) -> Seq<char> {
    let ms = (us as int + 500) / 1000;
    dec((ms / 1000) as nat) + seq!['.'] + zpad((ms % 1000) as nat, 3)
}

/// Seconds with six decimals, exactly.
pub open spec fn secs6(us: u64) -> Seq<char> {
    dec((us / 1000000) as nat) + seq!['.'] + zpad((us % 1000000) as nat, 6)
}

pub fn push_secs3(s: &mut String, us: u64)
    ensures
        final(s)@ == old(s)@ + secs3(us),
{
    let ms: u64 = ((us as u128 + 500) / 1000) as u64;
    push_dec(s, ms / 1000);
    s.append(".");
    push_zpad(s, ms % 1000, 3);
    proof {
        reveal_strlit(".");
        assert(final(s)@ =~= old(s)@ + secs3(us));
    }
}

pub fn push_secs6(s: &mut String, us: u64)
    ensures
        final(s)@ == old(s)@ + secs6(us),
{
    push_dec(s, us / 1000000);
    s.append(".");
    push_zpad(s, us % 1000000, 6);
    proof {
        reveal_strlit(".");
        assert(final(s)@ =~= old(s)@ + secs6(us));
    }
}

/// A time made relative to the seek point, never below zero.
pub open spec fn rel(t: u64, seek: u64) -> u64 {
    if t > seek {
        (t - seek) as u64
    } else {
        0
    }
}

/// One trim filter: video (`trim`, `setpts`, label `[v<i>]`) or audio
/// (`atrim`, `asetpts`, label `[a<i>]`).
pub open spec fn trim_text(video: bool, s: Seq<char>, e: Seq<char>, i: nat) -> Seq<char> {
    if video {
        "[0:v]trim=start="@ + s + ":end="@ + e + ",setpts=PTS-STARTPTS[v"@ + dec(i) + "];"@
    } else {
        "[0:a]atrim=start="@ + s + ":end="@ + e + ",asetpts=PTS-STARTPTS[a"@ + dec(i) + "];"@
    }
}

/// The trims of stretch `i`: video (when there is video) and audio.
pub open spec fn trim_part(seg: SpeechSegment, seek: u64, i: nat, video: bool) -> Seq<char> {
    let s = secs3(rel(seg.start_us, seek));
    let e = secs3(rel(seg.end_us, seek));
    let v = if video {
        trim_text(true, s, e, i)
    } else {
        Seq::empty()
    };
    v + trim_text(false, s, e, i)
}

fn push_trim(out: &mut String, video: bool, s: u64, e: u64, i: usize)
    ensures
        final(out)@ == old(out)@ + trim_text(video, secs3(s), secs3(e), i as nat),
{
    if video {
        out.append("[0:v]trim=start=");
    } else {
        out.append("[0:a]atrim=start=");
    }
    push_secs3(out, s);
    out.append(":end=");
    push_secs3(out, e);
    if video {
        out.append(",setpts=PTS-STARTPTS[v");
    } else {
        out.append(",asetpts=PTS-STARTPTS[a");
    }
    push_dec(out, i as u64);
    out.append("];");
    proof {
        assert(final(out)@ =~= old(out)@ + trim_text(video, secs3(s), secs3(e), i as nat));
    }
}

fn push_label(out: &mut String, prefix: &str, i: usize)
    ensures
        final(out)@ == old(out)@ + prefix@ + dec(i as nat) + "]"@,
{
    out.append(prefix);
    push_dec(out, i as u64);
    out.append("]");
    proof {
        assert(final(out)@ =~= old(out)@ + prefix@ + dec(i as nat) + "]"@);
    }
}

/// Trims of the first `k` stretches.
pub open spec fn trims(segs: Seq<SpeechSegment>, seek: u64, video: bool, k: nat) -> Seq<char>
    decreases k,
{
    if k == 0 {
        Seq::empty()
    } else {
        trims(segs, seek, video, (k - 1) as nat) + trim_part(
            segs[k - 1],
            seek,
            (k - 1) as nat,
            video,
        )
    }
}

/// `[x0][x1]...` for the first `k` labels with prefix `x`.
pub open spec fn labels(x: Seq<char>, k: nat) -> Seq<char>
    decreases k,
{
    if k == 0 {
        Seq::empty()
    } else {
        labels(x, (k - 1) as nat) + x + dec((k - 1) as nat) + "]"@
    }
}

/// The filter graph of a batch: every stretch trimmed relative to the seek
/// point, then the pieces concatenated into `[fv]` (with video) and `[fa]`.
pub open spec fn batch_filter(segs: Seq<SpeechSegment>, seek: u64, video: bool) -> Seq<char> {
    let n = segs.len();
    let v = if video {
        labels("[v"@, n) + "concat=n="@ + dec(n) + ":v=1:a=0[fv];"@
    } else {
        Seq::empty()
    };
    trims(segs, seek, video, n) + v + labels("[a"@, n) + "concat=n="@ + dec(n) + ":v=0:a=1[fa]"@
}

/// Builds the filter graph that cuts and joins the stretches of a batch
/// whose input is read from `seek_start_us` on.
pub fn batch_filter_graph(segments: &[SpeechSegment], seek_start_us: u64, has_video: bool) -> (r:
    String)
    ensures
        r@ == batch_filter(segments@, seek_start_us, has_video),
{
    let n = segments.len();
    let mut filter = String::new();
    let mut v_concat = String::new();
    let mut a_concat = String::new();
    let mut i: usize = 0;
    while i < n
        invariant
            i <= n == segments@.len(),
            filter@ == trims(segments@, seek_start_us, has_video, i as nat),
            has_video ==> v_concat@ == labels("[v"@, i as nat),
            a_concat@ == labels("[a"@, i as nat),
        decreases n - i,
    {
        let seg = segments[i];
        let s = if seg.start_us > seek_start_us {
            seg.start_us - seek_start_us
        } else {
            0
        };
        let e = if seg.end_us > seek_start_us {
            seg.end_us - seek_start_us
        } else {
            0
        };
        let ghost f0 = filter@;
        if has_video {
            push_trim(&mut filter, true, s, e, i);
            push_label(&mut v_concat, "[v", i);
        }
        push_trim(&mut filter, false, s, e, i);
        push_label(&mut a_concat, "[a", i);
        proof {
            assert(filter@ =~= f0 + trim_part(seg, seek_start_us, i as nat, has_video));
        }
        i = i + 1;
    }
    if has_video {
        filter.append(v_concat.as_str());
        filter.append("concat=n=");
        push_dec(&mut filter, n as u64);
        filter.append(":v=1:a=0[fv];");
    }
    filter.append(a_concat.as_str());
    filter.append("concat=n=");
    push_dec(&mut filter, n as u64);
    filter.append(":v=0:a=1[fa]");
    proof {
        assert(filter@ =~= batch_filter(segments@, seek_start_us, has_video));
    }
    filter
}

/// How video is encoded in the intermediate segments.
#[derive(Clone, Copy, Debug, PartialEq, Eq)]
pub enum VideoEncoder {
    /// The platform's hardware encoder (VideoToolbox).
    Hardware,
    /// Software x264 at its fastest preset.
    Software,
}

pub open spec fn arg_views(v: Seq<String>) -> Seq<Seq<char>> {
    Seq::new(v.len(), |i: int| v[i]@)
}

pub open spec fn encoder_args(enc: VideoEncoder) -> Seq<Seq<char>> {
    match enc {
        VideoEncoder::Hardware => seq!["-c:v"@, "h264_videotoolbox"@, "-b:v"@, "5000k"@],
        VideoEncoder::Software => seq!["-c:v"@, "libx264"@, "-preset"@, "ultrafast"@],
    }
}

/// Arguments that render one batch into an MPEG-TS file: seek before the
/// input, apply the batch's filter graph, encode video (when there is
/// video) and AAC audio at 128 kb/s.
pub open spec fn batch_args_of(
    input: Seq<char>,
    output: Seq<char>,
    segs: Seq<SpeechSegment>,
    seek: u64,
    video: bool,
    enc: VideoEncoder,
) -> Seq<Seq<char>> {
    let head = seq![
        "-nostdin"@,
        "-ss"@,
        secs6(seek),
        "-i"@,
        input,
        "-filter_complex"@,
        batch_filter(segs, seek, video),
    ];
    let v = if video {
        seq!["-map"@, "[fv]"@] + encoder_args(enc)
    } else {
        Seq::empty()
    };
    head + v + seq![
        "-map"@,
        "[fa]"@,
        "-c:a"@,
        "aac"@,
        "-b:a"@,
        "128k"@,
        "-f"@,
        "mpegts"@,
        "-y"@,
        output,
    ]
}

fn arg(v: &mut Vec<String>, a: &str)
    ensures
        arg_views(final(v)@) == arg_views(old(v)@).push(a@),
{
    v.push(String::from_str(a));
    proof {
        assert(arg_views(final(v)@) =~= arg_views(old(v)@).push(a@));
    }
}

fn arg_string(v: &mut Vec<String>, a: String)
    ensures
        arg_views(final(v)@) == arg_views(old(v)@).push(a@),
{
    let ghost av = a@;
    v.push(a);
    proof {
        assert(arg_views(final(v)@) =~= arg_views(old(v)@).push(av));
    }
}

/// The transcoder arguments that render `batch` of `input` into `output`.
pub fn batch_args(input: &str, output: &str, batch: &Batch, has_video: bool, encoder: VideoEncoder) -> (r:
    Vec<String>)
    ensures
        arg_views(r@) == batch_args_of(
            input@,
            output@,
            batch.segments@,
            batch.seek_start_us,
            has_video,
            encoder,
        ),
{
    let mut v: Vec<String> = Vec::new();
    arg(&mut v, "-nostdin");
    arg(&mut v, "-ss");
    let mut seek = String::new();
    push_secs6(&mut seek, batch.seek_start_us);
    arg_string(&mut v, seek);
    arg(&mut v, "-i");
    arg(&mut v, input);
    arg(&mut v, "-filter_complex");
    arg_string(
        &mut v,
        batch_filter_graph(batch.segments.as_slice(), batch.seek_start_us, has_video),
    );
    if has_video {
        arg(&mut v, "-map");
        arg(&mut v, "[fv]");
        match encoder {
            VideoEncoder::Hardware => {
                arg(&mut v, "-c:v");
                arg(&mut v, "h264_videotoolbox");
                arg(&mut v, "-b:v");
                arg(&mut v, "5000k");
            },
            VideoEncoder::Software => {
                arg(&mut v, "-c:v");
                arg(&mut v, "libx264");
                arg(&mut v, "-preset");
                arg(&mut v, "ultrafast");
            },
        }
    }
    arg(&mut v, "-map");
    arg(&mut v, "[fa]");
    arg(&mut v, "-c:a");
    arg(&mut v, "aac");
    arg(&mut v, "-b:a");
    arg(&mut v, "128k");
    arg(&mut v, "-f");
    arg(&mut v, "mpegts");
    arg(&mut v, "-y");
    arg(&mut v, output);
    proof {
        assert(arg_views(v@) =~= batch_args_of(
            input@,
            output@,
            batch.segments@,
            batch.seek_start_us,
            has_video,
            encoder,
        ));
    }
    v
}

/// File name of the intermediate segment of batch `i`.
pub open spec fn part_name(i: nat) -> Seq<char> {
    "part_"@ + dec(i) + ".ts"@
}

pub fn part_file_name(i: usize) -> (r: String)
    ensures
        r@ == part_name(i as nat),
{
    let mut s = String::from_str("part_");
    push_dec(&mut s, i as u64);
    s.append(".ts");
    s
}

/// The concat list: one `file 'part_<i>.ts'` line per batch, in batch
/// order.
pub open spec fn concat_list_of(k: nat) -> Seq<char>
    decreases k,
{
    if k == 0 {
        Seq::empty()
    } else {
        concat_list_of((k - 1) as nat) + "file '"@ + part_name((k - 1) as nat) + "'\n"@
    }
}

pub fn concat_list(num_batches: usize) -> (r: String)
    ensures
        r@ == concat_list_of(num_batches as nat),
{
    let mut s = String::new();
    let mut i: usize = 0;
    while i < num_batches
        invariant
            i <= num_batches,
            s@ == concat_list_of(i as nat),
        decreases num_batches - i,
    {
        s.append("file '");
        let name = part_file_name(i);
        s.append(name.as_str());
        s.append("'\n");
        i = i + 1;
    }
    s
}

/// Arguments that join the listed segments by stream copy.
pub open spec fn stitch_args_of(list: Seq<char>, output: Seq<char>) -> Seq<Seq<char>> {
    seq![
        "-f"@,
        "concat"@,
        "-safe"@,
        "0"@,
        "-i"@,
        list,
        "-c"@,
        "copy"@,
        "-movflags"@,
        "+faststart"@,
        "-y"@,
        output,
    ]
}

pub fn stitch_args(list_path: &str, output: &str) -> (r: Vec<String>)
    ensures
        arg_views(r@) == stitch_args_of(list_path@, output@),
{
    let mut v: Vec<String> = Vec::new();
    arg(&mut v, "-f");
    arg(&mut v, "concat");
    arg(&mut v, "-safe");
    arg(&mut v, "0");
    arg(&mut v, "-i");
    arg(&mut v, list_path);
    arg(&mut v, "-c");
    arg(&mut v, "copy");
    arg(&mut v, "-movflags");
    arg(&mut v, "+faststart");
    arg(&mut v, "-y");
    arg(&mut v, output);
    proof {
        assert(arg_views(v@) =~= stitch_args_of(list_path@, output@));
    }
    v
}

/// Arguments that stream the audio of `source` as raw mono 16-bit
/// little-endian PCM to standard output.
pub open spec fn stream_extract_args_of(source: Seq<char>, rate: u32) -> Seq<Seq<char>> {
    seq!["-i"@, source, "-vn"@, "-ac"@, "1"@, "-ar"@, dec(rate as nat), "-f"@, "s16le"@, "-"@]
}

pub fn stream_extract_args(source: &str, sample_rate: u32) -> (r: Vec<String>)
    ensures
        arg_views(r@) == stream_extract_args_of(source@, sample_rate),
{
    let mut v: Vec<String> = Vec::new();
    arg(&mut v, "-i");
    arg(&mut v, source);
    arg(&mut v, "-vn");
    arg(&mut v, "-ac");
    arg(&mut v, "1");
    arg(&mut v, "-ar");
    let mut r = String::new();
    push_dec(&mut r, sample_rate as u64);
    arg_string(&mut v, r);
    arg(&mut v, "-f");
    arg(&mut v, "s16le");
    arg(&mut v, "-");
    proof {
        assert(arg_views(v@) =~= stream_extract_args_of(source@, sample_rate));
    }
    v
}

/// Arguments that extract the audio of `source` into a mono 16-bit WAVE
/// file, reporting progress on standard error.
pub open spec fn wav_extract_args_of(source: Seq<char>, rate: u32, target: Seq<char>) -> Seq<
    Seq<char>,
> {
    seq![
        "-i"@,
        source,
        "-vn"@,
        "-ac"@,
        "1"@,
        "-ar"@,
        dec(rate as nat),
        "-acodec"@,
        "pcm_s16le"@,
        "-f"@,
        "wav"@,
        "-progress"@,
        "pipe:2"@,
        "-y"@,
        target,
    ]
}

pub fn wav_extract_args(source: &str, sample_rate: u32, target: &str) -> (r: Vec<String>)
    ensures
        arg_views(r@) == wav_extract_args_of(source@, sample_rate, target@),
{
    let mut v: Vec<String> = Vec::new();
    arg(&mut v, "-i");
    arg(&mut v, source);
    arg(&mut v, "-vn");
    arg(&mut v, "-ac");
    arg(&mut v, "1");
    arg(&mut v, "-ar");
    let mut r = String::new();
    push_dec(&mut r, sample_rate as u64);
    arg_string(&mut v, r);
    arg(&mut v, "-acodec");
    arg(&mut v, "pcm_s16le");
    arg(&mut v, "-f");
    arg(&mut v, "wav");
    arg(&mut v, "-progress");
    arg(&mut v, "pipe:2");
    arg(&mut v, "-y");
    arg(&mut v, target);
    proof {
        assert(arg_views(v@) =~= wav_extract_args_of(source@, sample_rate, target@));
    }
    v
}

/// Probe arguments that print format and streams of `path` as JSON.
pub open spec fn probe_args_of(path: Seq<char>) -> Seq<Seq<char>> {
    seq!["-v"@, "quiet"@, "-print_format"@, "json"@, "-show_format"@, "-show_streams"@, path]
}

pub fn probe_args(path: &str) -> (r: Vec<String>)
    ensures
        arg_views(r@) == probe_args_of(path@),
{
    let mut v: Vec<String> = Vec::new();
    arg(&mut v, "-v");
    arg(&mut v, "quiet");
    arg(&mut v, "-print_format");
    arg(&mut v, "json");
    arg(&mut v, "-show_format");
    arg(&mut v, "-show_streams");
    arg(&mut v, path);
    proof {
        assert(arg_views(v@) =~= probe_args_of(path@));
    }
    v
}

/// Progress of the render phase in hundredths of a percent: from 1% to 91%
/// as batches complete.
pub open spec fn render_percent(completed: int, total: int) -> int {
    100 + 9000 * completed / total
}

/// Estimated time left: the mean time per finished batch times the batches
/// left.
pub open spec fn render_eta(elapsed_ms: int, completed: int, total: int) -> int {
    elapsed_ms * (total - completed) / completed
}

/// What the render loop observed.
#[derive(Clone, Copy, Debug, PartialEq, Eq)]
pub enum RenderEvent {
    BatchFinished,
    BatchFailed,
    /// The periodic wake-up; carries whether cancellation was asked for.
    Tick { cancel_requested: bool },
}

/// What the render loop does next.
#[derive(Clone, Copy, Debug, PartialEq, Eq)]
pub enum RenderAction {
    /// Report progress and keep waiting.
    Report { percent_bp: u64, eta_ms: u128 },
    /// Keep waiting.
    Wait,
    /// Abort the outstanding batches, remove the temporary files and end
    /// the job as cancelled.
    Abort,
    /// End the job with the batch's error.
    Fail,
}

/// Counts finished batches of a render.
pub struct RenderProgress {
    pub total: usize,
    pub completed: usize,
}

impl RenderProgress {
    pub open spec fn wf(&self) -> bool {
        self.completed <= self.total
    }

    pub fn new(total: usize) -> (r: RenderProgress)
        ensures
            r.wf(),
            r.total == total,
            r.completed == 0,
    {
        RenderProgress { total, completed: 0 }
    }

    /// Whether every batch has finished.
    pub fn is_done(&self) -> (r: bool)
        ensures
            r == (self.completed == self.total),
    {
        self.completed == self.total
    }

    /// Takes one event: a finished batch is counted and reported, a failed
    /// one fails the job, a tick aborts it when cancellation was asked for.
    pub fn step(&mut self, event: RenderEvent, elapsed_ms: u64) -> (r: RenderAction)
        requires
            old(self).wf(),
            event == RenderEvent::BatchFinished ==> old(self).completed < old(self).total,
        ensures
            final(self).wf(),
            final(self).total == old(self).total,
            match event {
                RenderEvent::BatchFinished => {
                    &&& final(self).completed == old(self).completed + 1
                    &&& r == RenderAction::Report {
                        percent_bp: render_percent(
                            final(self).completed as int,
                            final(self).total as int,
                        ) as u64,
                        eta_ms: render_eta(
                            elapsed_ms as int,
                            final(self).completed as int,
                            final(self).total as int,
                        ) as u128,
                    }
                },
                RenderEvent::BatchFailed => final(self).completed == old(self).completed && r
                    == RenderAction::Fail,
                RenderEvent::Tick { cancel_requested } => final(self).completed == old(
                    self,
                ).completed && r == if cancel_requested {
                    RenderAction::Abort
                } else {
                    RenderAction::Wait
                },
            },
    {
        match event {
            RenderEvent::BatchFinished => {
                self.completed = self.completed + 1;
                let c = self.completed as u128;
                let t = self.total as u128;
                proof {
                    let ci = c as int;
                    let ti = t as int;
                    let ei = elapsed_ms as int;
                    assert(9000 * ci / ti <= 9000) by (nonlinear_arith)
                        requires
                            ci <= ti,
                            ti > 0,
                    ;
                    assert(ei * (ti - ci) <= 0xffff_ffff_ffff_ffff_ffff_ffff_ffff_ffffu128) by (nonlinear_arith)
                        requires
                            0 <= ei <= u64::MAX,
                            0 <= ti - ci <= u64::MAX,
                    ;
                    assert(ei * (ti - ci) / ci <= ei * (ti - ci)) by (nonlinear_arith)
                        requires
                            ci >= 1,
                            ei * (ti - ci) >= 0,
                    ;
                    assert(ei * (ti - ci) >= 0) by (nonlinear_arith)
                        requires
                            ei >= 0,
                            ti - ci >= 0,
                    ;
                }
                let percent = 100 + 9000 * c / t;
                let eta = elapsed_ms as u128 * (t - c) / c;
                RenderAction::Report { percent_bp: percent as u64, eta_ms: eta }
            },
            RenderEvent::BatchFailed => RenderAction::Fail,
            RenderEvent::Tick { cancel_requested } => {
                if cancel_requested {
                    RenderAction::Abort
                } else {
                    RenderAction::Wait
                }
            },
        }
    }
}

/// Reported progress never goes back as batches finish.
pub proof fn lemma_render_percent_monotone(c1: int, c2: int, total: int)
    requires
        0 <= c1 <= c2 <= total,
        total > 0,
    ensures
        render_percent(c1, total) <= render_percent(c2, total),
        render_percent(total, total) == 9100,
{
    assert(9000 * c1 <= 9000 * c2);
    vstd::arithmetic::div_mod::lemma_div_is_ordered(9000 * c1, 9000 * c2, total);
    vstd::arithmetic::div_mod::lemma_div_by_multiple(9000, total);
    assert(9000 * total == total * 9000) by (nonlinear_arith);
}

/// The stretches between silences, without any edge tolerance, for a
/// single-pass graph over the whole source.
pub open spec fn whole_kept(sil: Seq<SilenceSegment>, i: int, last_end: int, total: int) -> Seq<
    SpeechSegment,
>
    decreases sil.len() - i,
{
    if i >= sil.len() {
        if last_end < total {
            seq![SpeechSegment { start_us: last_end as u64, end_us: total as u64 }]
        } else {
            Seq::empty()
        }
    } else {
        let s = sil[i];
        let here = if s.start_us > last_end {
            seq![SpeechSegment { start_us: last_end as u64, end_us: s.start_us }]
        } else {
            Seq::empty()
        };
        here + whole_kept(sil, i + 1, s.end_us as int, total)
    }
}

/// Items joined with `;`.
pub open spec fn join_semi(xs: Seq<Seq<char>>) -> Seq<char>
    decreases xs.len(),
{
    if xs.len() == 0 {
        Seq::empty()
    } else if xs.len() == 1 {
        xs[0]
    } else {
        join_semi(xs.drop_last()) + ";"@ + xs.last()
    }
}

/// Trim filters of one kept stretch, labelled `[v<j>]` and `[a<j>]`, with
/// times in seconds to the microsecond.
pub open spec fn whole_trims(seg: SpeechSegment, j: nat, video: bool) -> Seq<Seq<char>> {
    let s = secs6(seg.start_us);
    let e = secs6(seg.end_us);
    let a = "[0:a]atrim=start="@ + s + ":end="@ + e + ",asetpts=PTS-STARTPTS[a"@ + dec(j) + "]"@;
    if video {
        seq!["[0:v]trim=start="@ + s + ":end="@ + e + ",setpts=PTS-STARTPTS[v"@ + dec(j) + "]"@, a]
    } else {
        seq![a]
    }
}

pub open spec fn whole_items(segs: Seq<SpeechSegment>, video: bool, k: nat) -> Seq<Seq<char>>
    decreases k,
{
    if k == 0 {
        Seq::empty()
    } else {
        whole_items(segs, video, (k - 1) as nat) + whole_trims(segs[k - 1], (k - 1) as nat, video)
    }
}

pub open spec fn whole_inputs(video: bool, k: nat) -> Seq<char>
    decreases k,
{
    if k == 0 {
        Seq::empty()
    } else {
        whole_inputs(video, (k - 1) as nat) + if video {
            "[v"@ + dec((k - 1) as nat) + "]"@ + "[a"@ + dec((k - 1) as nat) + "]"@
        } else {
            "[a"@ + dec((k - 1) as nat) + "]"@
        }
    }
}

/// A single-pass graph that cuts the silences out of the whole source:
/// every kept stretch trimmed and the pieces concatenated into `[v]` and
/// `[a]`; one piece is copied through; with no piece the input streams are
/// copied as they are.
pub open spec fn whole_filter(sil: Seq<SilenceSegment>, total: u64, video: bool) -> Seq<char> {
    let segs = whole_kept(sil, 0, 0, total as int);
    let n = segs.len();
    let items = whole_items(segs, video, n);
    if n == 0 {
        if video {
            "[0:v]copy[v];[0:a]copy[a]"@
        } else {
            "[0:a]copy[a]"@
        }
    } else if n == 1 {
        join_semi(
            items + if video {
                seq!["[v0]copy[v]"@, "[a0]copy[a]"@]
            } else {
                seq!["[a0]copy[a]"@]
            },
        )
    } else {
        join_semi(
            items + seq![
                whole_inputs(video, n) + if video {
                    "concat=n="@ + dec(n) + ":v=1:a=1[v][a]"@
                } else {
                    "concat=n="@ + dec(n) + ":v=0:a=1[a]"@
                },
            ],
        )
    }
}

fn push_item(out: &mut String, Ghost(items): Ghost<Seq<Seq<char>>>, first: bool, item: &str)
    requires
        old(out)@ == join_semi(items),
        first == (items.len() == 0),
    ensures
        final(out)@ == join_semi(items.push(item@)),
{
    if !first {
        out.append(";");
    }
    out.append(item);
    proof {
        assert(items.push(item@).drop_last() =~= items);
        if items.len() == 0 {
            assert(final(out)@ =~= item@);
        }
    }
}

fn trim_item(video: bool, seg: SpeechSegment, j: usize) -> (r: String)
    ensures
        r@ == (if video {
            whole_trims(seg, j as nat, true)[0]
        } else {
            whole_trims(seg, j as nat, false)[0]
        }),
{
    let mut t = String::new();
    if video {
        t.append("[0:v]trim=start=");
    } else {
        t.append("[0:a]atrim=start=");
    }
    push_secs6(&mut t, seg.start_us);
    t.append(":end=");
    push_secs6(&mut t, seg.end_us);
    if video {
        t.append(",setpts=PTS-STARTPTS[v");
    } else {
        t.append(",asetpts=PTS-STARTPTS[a");
    }
    push_dec(&mut t, j as u64);
    t.append("]");
    proof {
        assert(t@ =~= (if video {
            whole_trims(seg, j as nat, true)[0]
        } else {
            whole_trims(seg, j as nat, false)[0]
        }));
    }
    t
}

fn whole_kept_exec(silences: &[SilenceSegment], total_us: u64) -> (r: Vec<SpeechSegment>)
    ensures
        r@ == whole_kept(silences@, 0, 0, total_us as int),
{
    let mut out: Vec<SpeechSegment> = Vec::new();
    let mut last_end: u64 = 0;
    let mut i: usize = 0;
    while i < silences.len()
        invariant
            i <= silences@.len(),
            whole_kept(silences@, 0, 0, total_us as int) == out@ + whole_kept(
                silences@,
                i as int,
                last_end as int,
                total_us as int,
            ),
        decreases silences@.len() - i,
    {
        let s = silences[i];
        if s.start_us > last_end {
            out.push(SpeechSegment { start_us: last_end, end_us: s.start_us });
            proof {
                assert(out@ + whole_kept(silences@, i + 1, s.end_us as int, total_us as int)
                    =~= out@.drop_last() + (seq![out@.last()] + whole_kept(
                    silences@,
                    i + 1,
                    s.end_us as int,
                    total_us as int,
                )));
            }
        } else {
            proof {
                assert(out@ + whole_kept(silences@, i + 1, s.end_us as int, total_us as int)
                    =~= out@ + (Seq::<SpeechSegment>::empty() + whole_kept(
                    silences@,
                    i + 1,
                    s.end_us as int,
                    total_us as int,
                )));
            }
        }
        last_end = s.end_us;
        i = i + 1;
    }
    if last_end < total_us {
        out.push(SpeechSegment { start_us: last_end, end_us: total_us });
    }
    proof {
        assert(out@ =~= whole_kept(silences@, 0, 0, total_us as int));
    }
    out
}

/// Builds the single-pass graph that removes `silences` from a source of
/// `total_us`.
pub fn build_filter_complex(silences: &[SilenceSegment], total_us: u64, has_video: bool) -> (r:
    String)
    ensures
        r@ == whole_filter(silences@, total_us, has_video),
{
    let segs = whole_kept_exec(silences, total_us);
    let n = segs.len();
    if n == 0 {
        return if has_video {
            String::from_str("[0:v]copy[v];[0:a]copy[a]")
        } else {
            String::from_str("[0:a]copy[a]")
        };
    }
    let mut out = String::new();
    let mut inputs = String::new();
    let ghost mut items: Seq<Seq<char>> = Seq::empty();
    let mut j: usize = 0;
    while j < n
        invariant
            j <= n == segs@.len(),
            items == whole_items(segs@, has_video, j as nat),
            items.len() == if has_video { 2 * j } else { j as int },
            out@ == join_semi(items),
            inputs@ == whole_inputs(has_video, j as nat),
        decreases n - j,
    {
        let seg = segs[j];
        let ghost before = items;
        if has_video {
            let v = trim_item(true, seg, j);
            push_item(&mut out, Ghost(items), j == 0, v.as_str());
            proof {
                items = items.push(v@);
            }
        }
        let a = trim_item(false, seg, j);
        push_item(&mut out, Ghost(items), j == 0 && !has_video, a.as_str());
        proof {
            items = items.push(a@);
            assert(items =~= before + whole_trims(seg, j as nat, has_video));
            assert(whole_items(segs@, has_video, (j + 1) as nat) == before + whole_trims(
                segs@[j as int],
                j as nat,
                has_video,
            ));
        }
        if has_video {
            inputs.append("[v");
            push_dec(&mut inputs, j as u64);
            inputs.append("]");
        }
        inputs.append("[a");
        push_dec(&mut inputs, j as u64);
        inputs.append("]");
        proof {
            assert(inputs@ =~= whole_inputs(has_video, (j + 1) as nat));
        }
        j = j + 1;
    }
    if n == 1 {
        if has_video {
            push_item(&mut out, Ghost(items), false, "[v0]copy[v]");
            proof {
                items = items.push("[v0]copy[v]"@);
            }
        }
        push_item(&mut out, Ghost(items), false, "[a0]copy[a]");
        proof {
            items = items.push("[a0]copy[a]"@);
        }
    } else {
        let mut tail = inputs;
        tail.append("concat=n=");
        push_dec(&mut tail, n as u64);
        if has_video {
            tail.append(":v=1:a=1[v][a]");
        } else {
            tail.append(":v=0:a=1[a]");
        }
        proof {
            let c = if has_video {
                "concat=n="@ + dec(n as nat) + ":v=1:a=1[v][a]"@
            } else {
                "concat=n="@ + dec(n as nat) + ":v=0:a=1[a]"@
            };
            assert(tail@ =~= whole_inputs(has_video, n as nat) + c);
        }
        push_item(&mut out, Ghost(items), false, tail.as_str());
        proof {
            items = items.push(tail@);
        }
    }
    proof {
        let base = whole_items(segs@, has_video, n as nat);
        if n == 1 {
            if has_video {
                assert(items =~= base + seq!["[v0]copy[v]"@, "[a0]copy[a]"@]);
            } else {
                assert(items =~= base + seq!["[a0]copy[a]"@]);
            }
        } else {
            assert(items =~= base + seq![
                whole_inputs(has_video, n as nat) + if has_video {
                    "concat=n="@ + dec(n as nat) + ":v=1:a=1[v][a]"@
                } else {
                    "concat=n="@ + dec(n as nat) + ":v=0:a=1[a]"@
                },
            ]);
        }
    }
    out
}

} // verus!
