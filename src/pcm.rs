//! Streaming decode of raw signed 16-bit little-endian mono PCM, with the
//! peak envelope built as samples arrive.
use vstd::prelude::*;
use vstd::arithmetic::div_mod::*;
use crate::detect::{num_windows, win_start, lemma_window_inside};

verus! {

/// Peaks handed out together while streaming.
pub const PEAKS_PER_BATCH: usize = 10;

/// A complete envelope is reported only up to this many peaks.
pub const MAX_REPORTED_PEAKS: usize = 500000;

/// The sample whose little-endian bytes are `lo`, `hi`.
pub open spec fn le_i16(lo: u8, hi: u8) -> i16 {
    let v = lo as int + 256 * hi as int;
    (if v >= 32768 {
        v - 65536
    } else {
        v
    }) as i16
}

/// The samples encoded by `b`, two bytes each; a trailing odd byte is not
/// (yet) a sample.
pub open spec fn decode_le(b: Seq<u8>) -> Seq<i16> {
    Seq::new(b.len() / 2, |i: int| le_i16(b[2 * i], b[2 * i + 1]))
}

pub open spec fn abs16(x: i16) -> u16 {
    (if x < 0 {
        -x
    } else {
        x as int
    }) as u16
}

/// Largest absolute sample value, 0 for no samples.
pub open spec fn max_abs(s: Seq<i16>) -> u16
    decreases s.len(),
{
    if s.len() == 0 {
        0
    } else {
        let m = max_abs(s.drop_last());
        let a = abs16(s.last());
        if m >= a {
            m
        } else {
            a
        }
    }
}

/// One peak per complete window of `w` samples.
pub open spec fn peaks_of(s: Seq<i16>, w: int) -> Seq<u16> {
    Seq::new((s.len() as int / w) as nat, |k: int| max_abs(s.subrange(k * w, k * w + w)))
}

/// Window of the streaming envelope: 20 ms, at least one sample.
pub open spec fn peak_window(rate: u32) -> int {
    if rate / 50 >= 1 {
        (rate / 50) as int
    } else {
        1
    }
}

/// Ten consecutive peaks, with the number of samples decoded when the last
/// of them was complete.
#[derive(Debug)]
pub struct PeakBatch {
    pub peaks: Vec<u16>,
    pub samples_decoded: usize,
}

/// Number of complete batches in an envelope.
pub open spec fn full_batches(p: Seq<u16>) -> int {
    p.len() as int / PEAKS_PER_BATCH as int
}

/// The batches numbered `from` up to `to` of the envelope `p` of windows of
/// `w` samples.
pub open spec fn batches_between(b: Seq<PeakBatch>, p: Seq<u16>, w: int, from: int, to: int) -> bool {
    &&& b.len() == to - from
    &&& forall|j: int|
        0 <= j < b.len() ==> {
            &&& (#[trigger] b[j]).peaks@ == p.subrange(
                (from + j) * PEAKS_PER_BATCH,
                (from + j) * PEAKS_PER_BATCH + PEAKS_PER_BATCH,
            )
            &&& b[j].samples_decoded == (from + j + 1) * PEAKS_PER_BATCH * w
        }
}

/// Samples and the envelope of their complete windows.
#[derive(Debug)]
pub struct DecodedAudio {
    pub samples: Vec<i16>,
    pub peaks: Vec<u16>,
}

/// Decoder state: bytes are fed in pieces of any size.
pub struct PcmStream {
    fed: Ghost<Seq<u8>>,
    samples: Vec<i16>,
    carry: Option<u8>,
    window: usize,
    current_peak: u16,
    in_window: usize,
    peaks: Vec<u16>,
}

impl View for PcmStream {
    /// The bytes fed so far and the envelope window.
    type V = (Seq<u8>, int);

    closed spec fn view(&self) -> (Seq<u8>, int) {
        (self.fed@, self.window as int)
    }
}

proof fn lemma_decode_push(b: Seq<u8>, x: u8)
    ensures
        decode_le(b.push(x)) == if b.len() % 2 == 0 {
            decode_le(b)
        } else {
            decode_le(b).push(le_i16(b.last(), x))
        },
{
    let b2 = b.push(x);
    if b.len() % 2 == 0 {
        assert(b2.len() / 2 == b.len() / 2);
        assert(decode_le(b2) =~= decode_le(b));
    } else {
        assert(b2.len() / 2 == b.len() / 2 + 1);
        assert(decode_le(b2) =~= decode_le(b).push(le_i16(b.last(), x)));
    }
}

pub proof fn lemma_max_abs_push(s: Seq<i16>, x: i16)
    ensures
        max_abs(s.push(x)) == if max_abs(s) >= abs16(x) {
            max_abs(s)
        } else {
            abs16(x)
        },
{
    assert(s.push(x).drop_last() =~= s);
}

/// Batch `first + j` lies inside an envelope of `len` peaks when it is
/// among its complete batches.
proof fn lemma_batch_inside(first: int, j: int, len: int)
    requires
        0 <= first,
        0 <= j,
        0 <= len,
        first + j + 1 <= len / PEAKS_PER_BATCH as int,
    ensures
        (first + j) * PEAKS_PER_BATCH + PEAKS_PER_BATCH <= len,
{
    lemma_fundamental_div_mod(len, 10);
    assert((first + j) * 10 + 10 <= (len / 10) * 10) by (nonlinear_arith)
        requires
            first + j + 1 <= len / 10,
    ;
}

impl PcmStream {
    pub closed spec fn wf(&self) -> bool {
        let ghost s = self.samples@;
        let w = self.window as int;
        &&& w >= 1
        &&& s == decode_le(self.fed@)
        &&& self.carry == if self.fed@.len() % 2 == 1 {
            Some(self.fed@.last())
        } else {
            None::<u8>
        }
        &&& self.in_window < w
        &&& s.len() == self.peaks@.len() * w + self.in_window
        &&& self.current_peak == max_abs(s.subrange(s.len() - self.in_window, s.len() as int))
        &&& self.peaks@ == peaks_of(s, w)
    }

    /// A decoder whose envelope has one peak per 20 ms at `sample_rate`.
    pub fn new(sample_rate: u32) -> (r: PcmStream)
        ensures
            r.wf(),
            r@ == (Seq::<u8>::empty(), peak_window(sample_rate)),
    {
        let w = if sample_rate / 50 >= 1 {
            (sample_rate / 50) as usize
        } else {
            1
        };
        let ghost e = Seq::<i16>::empty();
        let r = PcmStream {
            fed: Ghost(Seq::empty()),
            samples: Vec::new(),
            carry: None,
            window: w,
            current_peak: 0,
            in_window: 0,
            peaks: Vec::new(),
        };
        proof {
            assert(decode_le(Seq::<u8>::empty()) =~= Seq::<i16>::empty());
            assert(peaks_of(Seq::<i16>::empty(), w as int) =~= Seq::<u16>::empty());
            assert(Seq::<i16>::empty().subrange(0, 0) =~= Seq::<i16>::empty());
            assert(r.samples@ == decode_le(r.fed@));
            assert(r.samples@.subrange(0, 0) =~= e);
            assert(max_abs(e) == 0);
            assert(r.peaks@ == peaks_of(r.samples@, w as int));
        }
        r
    }

    /// Number of samples decoded so far.
    pub fn samples_decoded(&self) -> (r: usize)
        requires
            self.wf(),
        ensures
            r == decode_le(self@.0).len(),
    {
        self.samples.len()
    }

    /// Adds one sample; returns the newly completed batch, if any.
    fn push_sample(&mut self, x: i16) -> (r: Option<PeakBatch>)
        requires
            old(self).wf(),
            old(self).samples@.len() < usize::MAX,
            old(self).fed@.len() % 2 == 1,
        ensures
            final(self).window == old(self).window,
            final(self).samples@ == old(self).samples@.push(x),
            final(self).peaks@ == peaks_of(final(self).samples@, final(self).window as int),
            final(self).in_window < final(self).window,
            final(self).samples@.len() == final(self).peaks@.len() * final(self).window
                + final(self).in_window,
            final(self).current_peak == max_abs(
                final(self).samples@.subrange(
                    final(self).samples@.len() - final(self).in_window,
                    final(self).samples@.len() as int,
                ),
            ),
            final(self).fed == old(self).fed,
            final(self).carry == old(self).carry,
            old(self).peaks@.len() <= final(self).peaks@.len(),
            final(self).peaks@.subrange(0, old(self).peaks@.len() as int) == old(self).peaks@,
            match r {
                Some(b) => full_batches(old(self).peaks@) + 1 == full_batches(final(self).peaks@) && batches_between(
                    seq![b],
                    final(self).peaks@,
                    final(self).window as int,
                    full_batches(old(self).peaks@),
                    full_batches(final(self).peaks@),
                ),
                None => full_batches(old(self).peaks@) == full_batches(final(self).peaks@),
            },
    {
        let ghost s0 = self.samples@;
        let ghost w = self.window as int;
        let ghost p0 = self.peaks@;
        self.samples.push(x);
        let a: u16 = if x < 0 {
            (-(x as i32)) as u16
        } else {
            x as u16
        };
        proof {
            let n0 = s0.len() as int;
            let st = n0 - self.in_window;
            lemma_max_abs_push(s0.subrange(st, n0), x);
            assert(s0.subrange(st, n0).push(x) =~= self.samples@.subrange(st, n0 + 1));
        }
        if a > self.current_peak {
            self.current_peak = a;
        }
        self.in_window = self.in_window + 1;
        let ghost s = self.samples@;
        if self.in_window == self.window {
            let peak = self.current_peak;
            self.peaks.push(peak);
            self.current_peak = 0;
            self.in_window = 0;
            proof {
                assert(self.peaks@.subrange(0, p0.len() as int) =~= p0);
                let n = s.len() as int;
                let k = p0.len() as int;
                assert(n == (k + 1) * w) by (nonlinear_arith)
                    requires
                        n == k * w + w,
                ;
                lemma_div_by_multiple(k + 1, w);
                lemma_div_by_multiple(k, w);
                lemma_fundamental_div_mod_converse(s0.len() as int, w, k, w - 1);
                assert forall|j: int| 0 <= j < k implies #[trigger] peaks_of(s, w)[j] == p0[j] by {
                    assert(j * w + w <= k * w) by (nonlinear_arith)
                        requires
                            j < k,
                            w >= 1,
                    ;
                    assert(s.subrange(j * w, j * w + w) =~= s0.subrange(j * w, j * w + w));
                }
                assert(k * w == n - w) by (nonlinear_arith)
                    requires
                        n == (k + 1) * w,
                ;
                assert(self.peaks@ =~= peaks_of(s, w));
                assert(s.subrange(n, n) =~= Seq::<i16>::empty());
            }
            if self.peaks.len() % PEAKS_PER_BATCH == 0 {
                let start = self.peaks.len() - PEAKS_PER_BATCH;
                let mut batch: Vec<u16> = Vec::new();
                let mut i = start;
                while i < self.peaks.len()
                    invariant
                        start <= i <= self.peaks@.len(),
                        batch@ == self.peaks@.subrange(start as int, i as int),
                    decreases self.peaks@.len() - i,
                {
                    batch.push(self.peaks[i]);
                    proof {
                        assert(batch@ =~= self.peaks@.subrange(start as int, i + 1));
                    }
                    i = i + 1;
                }
                proof {
                    let k1 = self.peaks@.len() as int;
                    lemma_fundamental_div_mod(k1, 10);
                    assert(k1 / 10 * 10 == k1);
                    assert((k1 - 1) / 10 == k1 / 10 - 1) by {
                        lemma_fundamental_div_mod_converse(k1 - 1, 10, k1 / 10 - 1, 9);
                    }
                    assert(s.len() == k1 * w);
                    assert((k1 / 10 - 1 + 1) * 10 * w == k1 * w);
                    assert((k1 / 10 - 1) * 10 == start) by (nonlinear_arith)
                        requires
                            k1 / 10 * 10 == k1,
                            start == k1 - 10,
                    ;
                }
                return Some(PeakBatch { peaks: batch, samples_decoded: self.samples.len() });
            } else {
                proof {
                    let k1 = self.peaks@.len() as int;
                    lemma_fundamental_div_mod(k1, 10);
                    lemma_fundamental_div_mod(k1 - 1, 10);
                    lemma_mod_bound(k1, 10);
                    lemma_mod_bound(k1 - 1, 10);
                    assert(k1 % 10 != 0);
                    lemma_fundamental_div_mod_converse(k1 - 1, 10, k1 / 10, k1 % 10 - 1);
                }
            }
        } else {
            proof {
                assert(self.peaks@.subrange(0, p0.len() as int) =~= p0);
                let n = s.len() as int;
                let k = p0.len() as int;
                lemma_fundamental_div_mod_converse(n, w, k, self.in_window as int);
                lemma_fundamental_div_mod_converse(s0.len() as int, w, k, self.in_window - 1);
                assert forall|j: int| 0 <= j < k implies #[trigger] peaks_of(s, w)[j] == p0[j] by {
                    assert(j * w + w <= k * w) by (nonlinear_arith)
                        requires
                            j < k,
                            w >= 1,
                    ;
                    assert(s.subrange(j * w, j * w + w) =~= s0.subrange(j * w, j * w + w));
                }
                assert(self.peaks@ =~= peaks_of(s, w));
            }
        }
        None
    }

    /// Feeds the next bytes of the stream; returns the batches of ten peaks
    /// completed by them, in order.
    pub fn feed(&mut self, data: &[u8]) -> (r: Vec<PeakBatch>)
        requires
            old(self).wf(),
            old(self)@.0.len() + data@.len() <= usize::MAX,
        ensures
            final(self).wf(),
            final(self)@ == (old(self)@.0 + data@, old(self)@.1),
            batches_between(
                r@,
                peaks_of(decode_le(final(self)@.0), final(self)@.1),
                final(self)@.1,
                full_batches(peaks_of(decode_le(old(self)@.0), old(self)@.1)),
                full_batches(peaks_of(decode_le(final(self)@.0), final(self)@.1)),
            ),
    {
        let ghost f0 = self.fed@;
        let ghost first = full_batches(self.peaks@);
        let mut out: Vec<PeakBatch> = Vec::new();
        let mut i: usize = 0;
        while i < data.len()
            invariant
                self.wf(),
                i <= data@.len(),
                f0.len() + data@.len() <= usize::MAX,
                self.fed@ == f0 + data@.subrange(0, i as int),
                self.window == old(self).window,
                first == full_batches(peaks_of(decode_le(f0), self.window as int)),
                batches_between(
                    out@,
                    self.peaks@,
                    self.window as int,
                    first,
                    full_batches(self.peaks@),
                ),
            decreases data@.len() - i,
        {
            let b = data[i];
            let ghost fprev = self.fed@;
            proof {
                lemma_decode_push(fprev, b);
                assert(f0 + data@.subrange(0, i + 1) =~= fprev.push(b));
                assert(self.samples@.len() <= fprev.len() / 2);
            }
            match self.carry {
                Some(lo) => {
                    let v: i32 = lo as i32 + 256 * (b as i32);
                    let x: i16 = if v >= 32768 {
                        (v - 65536) as i16
                    } else {
                        v as i16
                    };
                    let ghost pk = self.peaks@;
                    let got = self.push_sample(x);
                    self.carry = None;
                    self.fed = Ghost(fprev.push(b));
                    proof {
                        assert forall|a: int, c: int| 0 <= a <= c <= pk.len() implies #[trigger] self.peaks@.subrange(a, c)
                            == pk.subrange(a, c) by {
                            assert(self.peaks@.subrange(a, c) =~= self.peaks@.subrange(0, pk.len() as int).subrange(a, c));
                        }
                        lemma_fundamental_div_mod(pk.len() as int, 10);
                    }
                    match got {
                        Some(batch) => {
                            let ghost old_out = out@;
                            out.push(batch);
                            proof {
                                let lo_b = old_out.len() as int;
                                assert(out@ == old_out.push(batch));
                                assert forall|j: int| 0 <= j < out@.len() implies {
                                    &&& (#[trigger] out@[j]).peaks@ == self.peaks@.subrange(
                                        (first + j) * PEAKS_PER_BATCH,
                                        (first + j) * PEAKS_PER_BATCH + PEAKS_PER_BATCH,
                                    )
                                    &&& out@[j].samples_decoded == (first + j + 1) * PEAKS_PER_BATCH
                                        * self.window
                                } by {
                                    if j < lo_b {
                                        assert(out@[j] == old_out[j]);
                                        lemma_batch_inside(first, j, pk.len() as int);
                                    } else {
                                        assert(out@[j] == batch);
                                        assert(seq![batch][0] == batch);
                                    }
                                }
                            }
                        },
                        None => {
                            proof {
                                assert forall|j: int| 0 <= j < out@.len() implies (
                                #[trigger] out@[j]).peaks@ == self.peaks@.subrange(
                                    (first + j) * PEAKS_PER_BATCH,
                                    (first + j) * PEAKS_PER_BATCH + PEAKS_PER_BATCH,
                                ) by {
                                    lemma_batch_inside(first, j, pk.len() as int);
                                    assert(self.peaks@.subrange(
                                        (first + j) * PEAKS_PER_BATCH,
                                        (first + j) * PEAKS_PER_BATCH + PEAKS_PER_BATCH,
                                    ) =~= pk.subrange(
                                        (first + j) * PEAKS_PER_BATCH,
                                        (first + j) * PEAKS_PER_BATCH + PEAKS_PER_BATCH,
                                    ));
                                }
                            }
                        },
                    }
                },
                None => {
                    self.carry = Some(b);
                    self.fed = Ghost(fprev.push(b));
                },
            }
            i = i + 1;
        }
        proof {
            assert(data@.subrange(0, i as int) =~= data@);
        }
        out
    }

    /// Ends the stream: the decoded samples and the envelope of their
    /// complete windows (a trailing odd byte is dropped).
    pub fn finish(self) -> (r: DecodedAudio)
        requires
            self.wf(),
        ensures
            r.samples@ == decode_le(self@.0),
            r.peaks@ == peaks_of(r.samples@, self@.1),
    {
        DecodedAudio { samples: self.samples, peaks: self.peaks }
    }
}

/// The envelope sent when streaming ends: all of it when there are at most
/// 500 000 peaks, else none.
pub fn reported_peaks(peaks: Vec<u16>) -> (r: Vec<u16>)
    ensures
        r@ == if peaks@.len() <= MAX_REPORTED_PEAKS {
            peaks@
        } else {
            Seq::empty()
        },
{
    if peaks.len() <= MAX_REPORTED_PEAKS {
        peaks
    } else {
        Vec::new()
    }
}

/// Largest absolute value of `v[a..b]`.
pub fn max_abs_range(v: &[i16], a: usize, b: usize) -> (r: u16)
    requires
        a <= b <= v@.len(),
    ensures
        r == max_abs(v@.subrange(a as int, b as int)),
{
    let mut m: u16 = 0;
    let mut i = a;
    proof {
        assert(v@.subrange(a as int, a as int) =~= Seq::<i16>::empty());
    }
    while i < b
        invariant
            a <= i <= b <= v@.len(),
            m == max_abs(v@.subrange(a as int, i as int)),
        decreases b - i,
    {
        let x = v[i];
        let ax: u16 = if x < 0 {
            (-(x as i32)) as u16
        } else {
            x as u16
        };
        proof {
            lemma_max_abs_push(v@.subrange(a as int, i as int), x);
            assert(v@.subrange(a as int, i + 1) =~= v@.subrange(a as int, i as int).push(x));
        }
        if ax > m {
            m = ax;
        }
        i = i + 1;
    }
    m
}

/// One peak per window of `w` samples, the last window possibly shorter.
pub open spec fn chunk_peaks_of(s: Seq<i16>, w: int) -> Seq<u16> {
    Seq::new(
        num_windows(s.len() as int, w) as nat,
        |k: int| max_abs(s.subrange(win_start(s.len() as int, w, k), win_start(s.len() as int, w, k + 1))),
    )
}

/// The envelope of `samples` in windows of `window` samples, including a
/// shorter last window.
pub fn chunk_peaks(samples: &[i16], window: usize) -> (r: Vec<u16>)
    requires
        window > 0,
    ensures
        r@ == chunk_peaks_of(samples@, window as int),
{
    let n = samples.len();
    let nw: usize = if n % window == 0 {
        n / window
    } else {
        proof {
            if window == 1 {
                assert(n % 1 == 0);
            }
            if n == 0 {
                assert(0int % (window as int) == 0);
            }
            lemma_div_decreases(n as int, window as int);
        }
        n / window + 1
    };
    let mut out: Vec<u16> = Vec::new();
    let mut k: usize = 0;
    while k < nw
        invariant
            n == samples@.len(),
            window > 0,
            nw == num_windows(n as int, window as int),
            k <= nw,
            out@ == chunk_peaks_of(samples@, window as int).subrange(0, k as int),
        decreases nw - k,
    {
        proof {
            lemma_window_inside(n as int, window as int, k as int);
            assert((k + 1) * window == k * window + window) by (nonlinear_arith);
        }
        let a = k * window;
        let b = if n - a > window {
            a + window
        } else {
            n
        };
        let p = max_abs_range(samples, a, b);
        out.push(p);
        proof {
            assert(out@ =~= chunk_peaks_of(samples@, window as int).subrange(0, k + 1));
        }
        k = k + 1;
    }
    proof {
        assert(out@ =~= chunk_peaks_of(samples@, window as int));
    }
    out
}

/// Audio extracted from a media file; the samples themselves stay in the
/// cache under `cache_id`.
#[derive(Debug)]
pub struct AudioData {
    pub samples: Option<Vec<i16>>,
    pub peaks: Vec<u16>,
    pub sample_rate: u32,
    pub duration_us: u64,
    pub channels: u32,
    pub format: String,
    pub bit_depth: u32,
    pub cache_id: String,
}

impl AudioData {
    /// The summary of mono 16-bit audio of `duration_us` with envelope
    /// `peaks`, in `format`, cached under `cache_id`.
    pub fn summary(cache_id: String, sample_rate: u32, duration_us: u64, peaks: Vec<u16>, format: &str) -> (r:
        AudioData)
        ensures
            r.samples is None,
            r.peaks == peaks,
            r.sample_rate == sample_rate,
            r.duration_us == duration_us,
            r.channels == 1,
            r.format@ == format@,
            r.bit_depth == 16,
            r.cache_id == cache_id,
    {
        AudioData {
            samples: None,
            peaks,
            sample_rate,
            duration_us,
            channels: 1,
            format: String::from_str(format),
            bit_depth: 16,
            cache_id,
        }
    }
}

} // verus!
