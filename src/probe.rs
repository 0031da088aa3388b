//! Media facts from the probe tool's report: duration, codecs, resolution,
//! frame rate, bit rate, and which kinds of streams are present.
use vstd::prelude::*;
use crate::paths::{file_name, file_name_of};
use crate::text::{
    chars_eq, chars_of, decimal_micros, find_char, find_from, parse_decimal_micros_at, parse_u64_at,
    parse_u64_spec,
};

verus! {

/// One stream entry of the report, with the fields that are read.
#[derive(Clone, Debug)]
pub struct ProbeStream {
    pub codec_type: Option<String>,
    pub codec_name: Option<String>,
    pub width: Option<u64>,
    pub height: Option<u64>,
    pub avg_frame_rate: Option<String>,
    pub duration: Option<String>,
}

/// The format entry of the report.
#[derive(Clone, Debug)]
pub struct ProbeFormat {
    pub duration: Option<String>,
    pub format_name: Option<String>,
    pub bit_rate: Option<String>,
}

/// A probe report: `streams` is `None` when the report has no stream list.
#[derive(Clone, Debug)]
pub struct ProbeOutput {
    pub streams: Option<Vec<ProbeStream>>,
    pub format: Option<ProbeFormat>,
}

/// A frame rate as the ratio `num / den`, both in millionths.
#[derive(Clone, Copy, Debug, PartialEq, Eq)]
pub struct Framerate {
    pub num: u64,
    pub den: u64,
}

/// What is known of a media file.
#[derive(Debug)]
pub struct VideoInfo {
    pub path: String,
    pub filename: String,
    pub size_bytes: u64,
    pub duration_us: u64,
    pub format: Option<String>,
    pub codec_video: Option<String>,
    pub codec_audio: Option<String>,
    pub resolution: Option<(u32, u32)>,
    pub framerate: Option<Framerate>,
    pub bitrate: Option<u64>,
    pub has_video: bool,
    pub has_audio: bool,
}

pub open spec fn opt_view(o: Option<String>) -> Option<Seq<char>> {
    match o {
        Some(s) => Some(s@),
        None => None,
    }
}

pub open spec fn is_kind(st: ProbeStream, kind: Seq<char>) -> bool {
    opt_view(st.codec_type) == Some(kind)
}

/// The value `f` gives for the last stream for which it gives one.
pub open spec fn last_found<T>(s: Seq<ProbeStream>, f: spec_fn(ProbeStream) -> Option<T>) -> Option<
    T,
>
    decreases s.len(),
{
    if s.len() == 0 {
        None
    } else {
        match f(s.last()) {
            Some(x) => Some(x),
            None => last_found(s.drop_last(), f),
        }
    }
}

/// Frame rate of a stream: `avg_frame_rate` split at `/`; an unreadable
/// numerator counts as 0 and an unreadable denominator as 1; a zero
/// denominator gives none.
pub open spec fn stream_rate(a: Seq<char>) -> Option<Framerate> {
    let d = find_from(a, '/', 0);
    if d >= a.len() {
        None
    } else {
        let n = match decimal_micros(a.subrange(0, d)) {
            Some(x) => x,
            None => 0,
        };
        let q = match decimal_micros(a.subrange(d + 1, a.len() as int)) {
            Some(x) => x,
            None => 1000000,
        };
        if q == 0 {
            None
        } else {
            Some(Framerate { num: n, den: q })
        }
    }
}

pub open spec fn video_codec_f() -> spec_fn(ProbeStream) -> Option<Option<Seq<char>>> {
    |st: ProbeStream| if is_kind(st, "video"@) {
        Some(opt_view(st.codec_name))
    } else {
        None
    }
}

pub open spec fn audio_codec_f() -> spec_fn(ProbeStream) -> Option<Option<Seq<char>>> {
    |st: ProbeStream| if is_kind(st, "audio"@) {
        Some(opt_view(st.codec_name))
    } else {
        None
    }
}

pub open spec fn resolution_f() -> spec_fn(ProbeStream) -> Option<(u32, u32)> {
    |st: ProbeStream|
        if is_kind(st, "video"@) && st.width is Some && st.height is Some {
            Some((st.width->0 as u32, st.height->0 as u32))
        } else {
            None
        }
}

pub open spec fn framerate_f() -> spec_fn(ProbeStream) -> Option<Framerate> {
    |st: ProbeStream|
        if is_kind(st, "video"@) && st.avg_frame_rate is Some {
            stream_rate(st.avg_frame_rate->0@)
        } else {
            None
        }
}

pub open spec fn flatten<T>(o: Option<Option<T>>) -> Option<T> {
    match o {
        Some(x) => x,
        None => None,
    }
}

pub open spec fn streams_of(p: ProbeOutput) -> Seq<ProbeStream> {
    match p.streams {
        Some(v) => v@,
        None => Seq::empty(),
    }
}

/// Duration: the format's, else the first stream's, else zero.
pub open spec fn duration_of(p: ProbeOutput) -> u64 {
    let from_format = match p.format {
        Some(f) => match f.duration {
            Some(d) => decimal_micros(d@),
            None => None,
        },
        None => None,
    };
    let s = streams_of(p);
    let from_stream = if s.len() > 0 {
        match s[0].duration {
            Some(d) => decimal_micros(d@),
            None => None,
        }
    } else {
        None
    };
    match from_format {
        Some(x) => x,
        None => match from_stream {
            Some(x) => x,
            None => 0,
        },
    }
}

/// The facts about the file at `path` of `size_bytes` bytes given by the
/// probe report `p`.
pub open spec fn video_info_matches(r: VideoInfo, path: Seq<char>, size_bytes: u64, p: ProbeOutput) -> bool {
    let s = streams_of(p);
    &&& r.path@ == path
    &&& r.filename@ == match file_name_of(path) {
        Some(n) => n,
        None => "unknown"@,
    }
    &&& r.size_bytes == size_bytes
    &&& r.duration_us == duration_of(p)
    &&& opt_view(r.format) == match p.format {
        Some(f) => opt_view(f.format_name),
        None => None,
    }
    &&& r.bitrate == match p.format {
        Some(f) => match f.bit_rate {
            Some(b) => parse_u64_spec(b@),
            None => None,
        },
        None => None,
    }
    &&& r.has_video == (exists|i: int| 0 <= i < s.len() && is_kind(#[trigger] s[i], "video"@))
    &&& r.has_audio == (exists|i: int| 0 <= i < s.len() && is_kind(#[trigger] s[i], "audio"@))
    &&& opt_view(r.codec_video) == flatten(last_found(s, video_codec_f()))
    &&& opt_view(r.codec_audio) == flatten(last_found(s, audio_codec_f()))
    &&& r.resolution == last_found(s, resolution_f())
    &&& r.framerate == last_found(s, framerate_f())
}

fn clone_opt(o: &Option<String>) -> (r: Option<String>)
    ensures
        opt_view(r) == opt_view(*o),
{
    match o {
        Some(s) => Some(s.clone()),
        None => None,
    }
}

fn kind_is(st: &ProbeStream, kind: &str) -> (r: bool)
    ensures
        r == is_kind(*st, kind@),
{
    match &st.codec_type {
        Some(t) => chars_eq(chars_of(t.as_str()).as_slice(), chars_of(kind).as_slice()),
        None => false,
    }
}

fn rate_of(a: &str) -> (r: Option<Framerate>)
    ensures
        r == stream_rate(a@),
{
    let v = chars_of(a);
    let d = find_char(v.as_slice(), '/', 0);
    if d >= v.len() {
        return None;
    }
    let n = match parse_decimal_micros_at(v.as_slice(), 0, d) {
        Some(x) => x,
        None => 0,
    };
    let q = match parse_decimal_micros_at(v.as_slice(), d + 1, v.len()) {
        Some(x) => x,
        None => 1000000,
    };
    if q == 0 {
        None
    } else {
        Some(Framerate { num: n, den: q })
    }
}

/// Reads the probe report of the file at `path`, which is `size_bytes`
/// long.
pub fn video_info_from_probe(path: &str, size_bytes: u64, probe: &ProbeOutput) -> (r: VideoInfo)
    ensures
        video_info_matches(r, path@, size_bytes, *probe),
{
    let ghost s = streams_of(*probe);
    let mut has_video = false;
    let mut has_audio = false;
    let mut codec_video: Option<String> = None;
    let mut codec_audio: Option<String> = None;
    let mut resolution: Option<(u32, u32)> = None;
    let mut framerate: Option<Framerate> = None;
    let mut found_video: bool = false;
    let mut found_audio: bool = false;
    let mut first_duration: Option<u64> = None;
    match &probe.streams {
        Some(streams) => {
            let n = streams.len();
            if n > 0 {
                first_duration = match &streams[0].duration {
                    Some(d) => {
                        let v = chars_of(d.as_str());
                        proof {
                            assert(v@.subrange(0, v@.len() as int) =~= d@);
                        }
                        parse_decimal_micros_at(v.as_slice(), 0, v.len())
                    },
                    None => None,
                };
            }
            let mut i: usize = 0;
            while i < n
                invariant
                    i <= n == streams@.len(),
                    s == streams@,
                    has_video == (exists|j: int| 0 <= j < i && is_kind(#[trigger] s[j], "video"@)),
                    has_audio == (exists|j: int| 0 <= j < i && is_kind(#[trigger] s[j], "audio"@)),
                    found_video == (last_found(s.subrange(0, i as int), video_codec_f()) is Some),
                    found_video ==> opt_view(codec_video) == flatten(
                        last_found(s.subrange(0, i as int), video_codec_f()),
                    ),
                    !found_video ==> codec_video is None,
                    found_audio == (last_found(s.subrange(0, i as int), audio_codec_f()) is Some),
                    found_audio ==> opt_view(codec_audio) == flatten(
                        last_found(s.subrange(0, i as int), audio_codec_f()),
                    ),
                    !found_audio ==> codec_audio is None,
                    resolution == last_found(s.subrange(0, i as int), resolution_f()),
                    framerate == last_found(s.subrange(0, i as int), framerate_f()),
                decreases n - i,
            {
                let st = &streams[i];
                let ghost pre = s.subrange(0, i as int);
                proof {
                    assert(s.subrange(0, i + 1).drop_last() =~= pre);
                    assert(s.subrange(0, i + 1).last() == s[i as int]);
                }
                if kind_is(st, "video") {
                    has_video = true;
                    found_video = true;
                    codec_video = clone_opt(&st.codec_name);
                    match (st.width, st.height) {
                        (Some(w), Some(h)) => {
                            resolution = Some((#[verifier::truncate] (w as u32), #[verifier::truncate] (h as u32)));
                        },
                        _ => {},
                    }
                    match &st.avg_frame_rate {
                        Some(a) => {
                            match rate_of(a.as_str()) {
                                Some(fr) => {
                                    framerate = Some(fr);
                                },
                                None => {},
                            }
                        },
                        None => {},
                    }
                    proof {
                        reveal_strlit("audio");
                        reveal_strlit("video");
                        assert("video"@[0] != "audio"@[0]);
                        assert(!is_kind(s[i as int], "audio"@));
                    }
                } else if kind_is(st, "audio") {
                    has_audio = true;
                    found_audio = true;
                    codec_audio = clone_opt(&st.codec_name);
                }
                i = i + 1;
            }
            proof {
                assert(s.subrange(0, n as int) =~= s);
            }
        },
        None => {
            proof {
                assert(s.subrange(0, 0) =~= Seq::<ProbeStream>::empty());
            }
        },
    }
    let mut format: Option<String> = None;
    let mut bitrate: Option<u64> = None;
    let mut format_duration: Option<u64> = None;
    match &probe.format {
        Some(f) => {
            format = clone_opt(&f.format_name);
            bitrate = match &f.bit_rate {
                Some(b) => {
                    let v = chars_of(b.as_str());
                    proof {
                        assert(v@.subrange(0, v@.len() as int) =~= b@);
                    }
                    parse_u64_at(v.as_slice(), 0, v.len())
                },
                None => None,
            };
            format_duration = match &f.duration {
                Some(d) => {
                    let v = chars_of(d.as_str());
                    proof {
                        assert(v@.subrange(0, v@.len() as int) =~= d@);
                    }
                    parse_decimal_micros_at(v.as_slice(), 0, v.len())
                },
                None => None,
            };
        },
        None => {},
    }
    let duration_us = match format_duration {
        Some(x) => x,
        None => match first_duration {
            Some(x) => x,
            None => 0,
        },
    };
    let filename = match file_name(path) {
        Some(n) => String::from_str(n),
        None => String::from_str("unknown"),
    };
    VideoInfo {
        path: String::from_str(path),
        filename,
        size_bytes,
        duration_us,
        format,
        codec_video,
        codec_audio,
        resolution,
        framerate,
        bitrate,
        has_video,
        has_audio,
    }
}

} // verus!
