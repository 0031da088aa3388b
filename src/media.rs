//! Local media over a custom URI scheme: the file path named by a URI, its
//! MIME type, and byte-range replies.
use vstd::prelude::*;
use crate::paths::{extension_of, get_file_extension};
use crate::text::{
    ascii_ieq, ascii_ieq_exec, chars_of, contains_char, dec, find_char, find_from, parse_u64_at,
    parse_u64_spec, push_dec, starts_with_at, trim, trim_bounds,
};

verus! {

/// Largest body served for an explicit range: 5 MiB.
pub const MAX_RANGE_CHUNK: u64 = 5242880;

/// Body served when no range is asked for: the first 2 MiB.
pub const INITIAL_CHUNK: u64 = 2097152;

/// A parsed `Range: bytes=...` header.
#[derive(Clone, Copy, Debug, PartialEq, Eq)]
pub enum RangeSpec {
    /// `bytes=-N`: the last N bytes.
    Suffix(u64),
    /// `bytes=a-b` or `bytes=a-`; `end` is `None` when absent or unreadable.
    Bounded { start: u64, end: Option<u64> },
}

/// What is served.
#[derive(Clone, Copy, Debug, PartialEq, Eq)]
pub enum RangeReply {
    /// `206 Partial Content`: `length` bytes from `start` of a file of
    /// `total` bytes.
    Partial { start: u64, length: u64, total: u64 },
    /// `416 Range Not Satisfiable`.
    NotSatisfiable { total: u64 },
}

pub open spec fn has_prefix(t: Seq<char>, p: Seq<char>) -> bool {
    p.len() <= t.len() && t.subrange(0, p.len() as int) == p
}

pub open spec fn unwrap_or_zero(o: Option<u64>) -> u64 {
    match o {
        Some(v) => v,
        None => 0,
    }
}

/// The range a header asks for; `None` when it is not a `bytes=` range.
pub open spec fn range_spec_of(h: Seq<char>) -> Option<RangeSpec> {
    let t = trim(h);
    let p = "bytes="@;
    if has_prefix(t, p) {
        let v = trim(t.subrange(p.len() as int, t.len() as int));
        if v.len() > 0 && v[0] == '-' {
            Some(RangeSpec::Suffix(unwrap_or_zero(parse_u64_spec(v.subrange(1, v.len() as int)))))
        } else {
            let d = find_from(v, '-', 0);
            let start = unwrap_or_zero(parse_u64_spec(v.subrange(0, d)));
            let end = if d < v.len() {
                let d2 = find_from(v, '-', d + 1);
                if d2 > d + 1 {
                    parse_u64_spec(v.subrange(d + 1, d2))
                } else {
                    None
                }
            } else {
                None
            };
            Some(RangeSpec::Bounded { start, end })
        }
    } else {
        None
    }
}

/// Parses a `Range` header value.
pub fn parse_range_header(header: &str) -> (r: Option<RangeSpec>)
    ensures
        r == range_spec_of(header@),
{
    let hv = chars_of(header);
    let (a, b) = trim_bounds(hv.as_slice());
    let t = &hv.as_slice()[a..b];
    let pv = chars_of("bytes=");
    if !starts_with_at(t, pv.as_slice()) {
        return None;
    }
    let rest = &t[pv.len()..t.len()];
    let (c, e) = trim_bounds(rest);
    let v = &rest[c..e];
    proof {
        assert(t@ == trim(header@));
        assert(rest@ == t@.subrange(pv@.len() as int, t@.len() as int));
        assert(v@ == trim(rest@));
    }
    if v.len() > 0 && v[0] == '-' {
        let n = parse_u64_at(v, 1, v.len());
        let n = match n {
            Some(x) => x,
            None => 0,
        };
        return Some(RangeSpec::Suffix(n));
    }
    let d = find_char(v, '-', 0);
    let start = match parse_u64_at(v, 0, d) {
        Some(x) => x,
        None => 0,
    };
    let end = if d < v.len() {
        let d2 = find_char(v, '-', d + 1);
        if d2 > d + 1 {
            parse_u64_at(v, d + 1, d2)
        } else {
            None
        }
    } else {
        None
    };
    Some(RangeSpec::Bounded { start, end })
}

pub open spec fn min_u64(a: u64, b: u64) -> u64 {
    if a < b {
        a
    } else {
        b
    }
}

/// The reply to a request for `spec` on a file of `len` bytes. Without a
/// range the first 2 MiB are served; a range is clamped to the file and to
/// 5 MiB; an empty file or a start past the end is not satisfiable.
pub open spec fn resolve(spec: Option<RangeSpec>, len: u64) -> RangeReply {
    match spec {
        None => RangeReply::Partial { start: 0, length: min_u64(len, INITIAL_CHUNK), total: len },
        Some(rs) => if len == 0 {
            RangeReply::NotSatisfiable { total: 0 }
        } else {
            let last = (len - 1) as u64;
            let (start, end) = match rs {
                RangeSpec::Suffix(n) => (
                    if len > n {
                        (len - n) as u64
                    } else {
                        0u64
                    },
                    last,
                ),
                RangeSpec::Bounded { start, end } => (
                    start,
                    match end {
                        Some(e) => min_u64(e, last),
                        None => last,
                    },
                ),
            };
            if start > end {
                RangeReply::NotSatisfiable { total: len }
            } else {
                RangeReply::Partial {
                    start,
                    length: min_u64((end - start + 1) as u64, MAX_RANGE_CHUNK),
                    total: len,
                }
            }
        },
    }
}

/// A partial reply lies inside its file.
pub open spec fn within_file(reply: RangeReply) -> bool {
    match reply {
        RangeReply::Partial { start, length, total } => start + length <= total,
        RangeReply::NotSatisfiable { .. } => true,
    }
}

/// Decides what to serve of a file of `file_len` bytes.
pub fn resolve_range(spec: Option<RangeSpec>, file_len: u64) -> (r: RangeReply)
    ensures
        r == resolve(spec, file_len),
        within_file(r),
{
    match spec {
        None => RangeReply::Partial {
            start: 0,
            length: if file_len < INITIAL_CHUNK {
                file_len
            } else {
                INITIAL_CHUNK
            },
            total: file_len,
        },
        Some(rs) => {
            if file_len == 0 {
                return RangeReply::NotSatisfiable { total: 0 };
            }
            let last = file_len - 1;
            let (start, end) = match rs {
                RangeSpec::Suffix(n) => (
                    if file_len > n {
                        file_len - n
                    } else {
                        0
                    },
                    last,
                ),
                RangeSpec::Bounded { start, end } => (
                    start,
                    match end {
                        Some(e) => if e < last {
                            e
                        } else {
                            last
                        },
                        None => last,
                    },
                ),
            };
            if start > end {
                RangeReply::NotSatisfiable { total: file_len }
            } else {
                let span = end - start + 1;
                RangeReply::Partial {
                    start,
                    length: if span < MAX_RANGE_CHUNK {
                        span
                    } else {
                        MAX_RANGE_CHUNK
                    },
                    total: file_len,
                }
            }
        },
    }
}

/// The bytes a reply carries, out of the whole file.
pub open spec fn served(file: Seq<u8>, reply: RangeReply) -> Seq<u8> {
    match reply {
        RangeReply::Partial { start, length, total } => file.subrange(
            start as int,
            start + length,
        ),
        RangeReply::NotSatisfiable { .. } => Seq::empty(),
    }
}

/// The bodies of the requests `bytes=pos-(pos+k-1)`, `bytes=(pos+k)-...`,
/// and so on up to the end of the file, one after another.
pub open spec fn consecutive_ranges(file: Seq<u8>, k: u64, pos: int) -> Seq<u8>
    decreases file.len() - pos,
{
    if pos >= file.len() || k == 0 {
        Seq::empty()
    } else {
        let piece = served(
            file,
            resolve(
                Some(RangeSpec::Bounded { start: pos as u64, end: Some((pos + k - 1) as u64) }),
                file.len() as u64,
            ),
        );
        if pos + k >= file.len() {
            piece
        } else {
            piece + consecutive_ranges(file, k, pos + k)
        }
    }
}

proof fn lemma_consecutive_ranges(file: Seq<u8>, k: u64, pos: int)
    requires
        0 < k <= MAX_RANGE_CHUNK,
        0 <= pos <= file.len(),
        file.len() + k <= u64::MAX,
    ensures
        consecutive_ranges(file, k, pos) == file.subrange(pos, file.len() as int),
    decreases file.len() - pos,
{
    let len = file.len() as int;
    if pos < len {
        if pos + k >= len {
            assert(file.subrange(pos, len) =~= file.subrange(pos, len));
        } else {
            lemma_consecutive_ranges(file, k, pos + k);
            assert(file.subrange(pos, pos + k) + file.subrange(pos + k, len) =~= file.subrange(
                pos,
                len,
            ));
        }
    } else {
        assert(file.subrange(pos, len) =~= Seq::<u8>::empty());
    }
}

/// Reading a file in consecutive ranges of `k` bytes (at most 5 MiB each),
/// from the first byte on, and joining the bodies gives the file back.
pub proof fn lemma_ranges_reassemble(file: Seq<u8>, k: u64)
    requires
        0 < k <= MAX_RANGE_CHUNK,
        file.len() + k <= u64::MAX,
    ensures
        consecutive_ranges(file, k, 0) == file,
{
    lemma_consecutive_ranges(file, k, 0);
    assert(file.subrange(0, file.len() as int) =~= file);
}

/// HTTP status of a reply.
pub open spec fn status_of(reply: RangeReply) -> u16 {
    match reply {
        RangeReply::Partial { .. } => 206,
        RangeReply::NotSatisfiable { .. } => 416,
    }
}

pub fn status_code(reply: &RangeReply) -> (r: u16)
    ensures
        r == status_of(*reply),
{
    match reply {
        RangeReply::Partial { .. } => 206,
        RangeReply::NotSatisfiable { .. } => 416,
    }
}

/// The `Content-Range` value: `bytes a-b/len` (`bytes 0-0/0` for an empty
/// first chunk), or `bytes */len`.
pub open spec fn content_range_of(reply: RangeReply) -> Seq<char> {
    match reply {
        RangeReply::Partial { start, length, total } => "bytes "@ + dec(start as nat) + "-"@ + dec(
            if length == 0 {
                0
            } else {
                (start + length - 1) as nat
            },
        ) + "/"@ + dec(total as nat),
        RangeReply::NotSatisfiable { total } => "bytes */"@ + dec(total as nat),
    }
}

pub fn content_range(reply: &RangeReply) -> (r: String)
    requires
        within_file(*reply),
    ensures
        r@ == content_range_of(*reply),
{
    match reply {
        RangeReply::Partial { start, length, total } => {
            let mut s = String::from_str("bytes ");
            push_dec(&mut s, *start);
            s.append("-");
            let last = if *length == 0 {
                0
            } else {
                *start + (*length - 1)
            };
            push_dec(&mut s, last);
            s.append("/");
            push_dec(&mut s, *total);
            s
        },
        RangeReply::NotSatisfiable { total } => {
            let mut s = String::from_str("bytes */");
            push_dec(&mut s, *total);
            s
        },
    }
}

/// Headers of a reply, in order. Every reply carries `Accept-Ranges` and
/// the CORS headers; a partial reply adds its length, type and methods.
pub open spec fn headers_of(reply: RangeReply, mime: Seq<char>) -> Seq<(Seq<char>, Seq<char>)> {
    let common = seq![
        ("Content-Range"@, content_range_of(reply)),
        ("Accept-Ranges"@, "bytes"@),
        ("Access-Control-Allow-Origin"@, "*"@),
        ("Access-Control-Allow-Headers"@, "Range, Accept-Encoding"@),
        ("Access-Control-Expose-Headers"@, "Content-Range, Content-Length, Accept-Ranges"@),
    ];
    match reply {
        RangeReply::Partial { length, .. } => common + seq![
            ("Content-Length"@, dec(length as nat)),
            ("Content-Type"@, mime),
            ("Access-Control-Allow-Methods"@, "GET, OPTIONS"@),
        ],
        RangeReply::NotSatisfiable { .. } => common,
    }
}

pub open spec fn header_views(h: Seq<(String, String)>) -> Seq<(Seq<char>, Seq<char>)> {
    Seq::new(h.len(), |i: int| (h[i].0@, h[i].1@))
}

fn header(name: &str, value: String) -> (r: (String, String))
    ensures
        r.0@ == name@,
        r.1@ == value@,
{
    (String::from_str(name), value)
}

/// The headers of a reply whose body has type `mime`.
pub fn response_headers(reply: &RangeReply, mime: &str) -> (r: Vec<(String, String)>)
    requires
        within_file(*reply),
    ensures
        header_views(r@) == headers_of(*reply, mime@),
{
    let mut h: Vec<(String, String)> = Vec::new();
    h.push(header("Content-Range", content_range(reply)));
    h.push(header("Accept-Ranges", String::from_str("bytes")));
    h.push(header("Access-Control-Allow-Origin", String::from_str("*")));
    h.push(header("Access-Control-Allow-Headers", String::from_str("Range, Accept-Encoding")));
    h.push(
        header(
            "Access-Control-Expose-Headers",
            String::from_str("Content-Range, Content-Length, Accept-Ranges"),
        ),
    );
    match reply {
        RangeReply::Partial { length, .. } => {
            let mut n = String::new();
            push_dec(&mut n, *length);
            h.push(header("Content-Length", n));
            h.push(header("Content-Type", String::from_str(mime)));
            h.push(header("Access-Control-Allow-Methods", String::from_str("GET, OPTIONS")));
        },
        RangeReply::NotSatisfiable { .. } => {},
    }
    proof {
        assert(header_views(h@) =~= headers_of(*reply, mime@));
    }
    h
}

/// MIME type by file extension (ignoring ASCII case).
pub open spec fn mime_of(path: Seq<char>) -> Seq<char> {
    match extension_of(path) {
        Some(x) => if ascii_ieq(x, "mp3"@) {
            "audio/mpeg"@
        } else if ascii_ieq(x, "wav"@) {
            "audio/wav"@
        } else if ascii_ieq(x, "aac"@) {
            "audio/aac"@
        } else if ascii_ieq(x, "m4a"@) {
            "audio/mp4"@
        } else if ascii_ieq(x, "webm"@) {
            "video/webm"@
        } else if ascii_ieq(x, "ogg"@) || ascii_ieq(x, "ogv"@) {
            "video/ogg"@
        } else if ascii_ieq(x, "mov"@) || ascii_ieq(x, "qt"@) {
            "video/quicktime"@
        } else if ascii_ieq(x, "mp4"@) || ascii_ieq(x, "m4v"@) {
            "video/mp4"@
        } else if ascii_ieq(x, "mkv"@) {
            "video/x-matroska"@
        } else if ascii_ieq(x, "avi"@) {
            "video/x-msvideo"@
        } else {
            "application/octet-stream"@
        },
        None => "application/octet-stream"@,
    }
}

fn ext_is(x: &[char], lit: &str) -> (r: bool)
    ensures
        r == ascii_ieq(x@, lit@),
{
    ascii_ieq_exec(x, chars_of(lit).as_slice())
}

/// The MIME type served for `path`.
pub fn mime_type_for(path: &str) -> (r: &'static str)
    ensures
        r@ == mime_of(path@),
{
    match get_file_extension(path) {
        Some(x) => {
            let xv = chars_of(x);
            let xs = xv.as_slice();
            if ext_is(xs, "mp3") {
                "audio/mpeg"
            } else if ext_is(xs, "wav") {
                "audio/wav"
            } else if ext_is(xs, "aac") {
                "audio/aac"
            } else if ext_is(xs, "m4a") {
                "audio/mp4"
            } else if ext_is(xs, "webm") {
                "video/webm"
            } else if ext_is(xs, "ogg") || ext_is(xs, "ogv") {
                "video/ogg"
            } else if ext_is(xs, "mov") || ext_is(xs, "qt") {
                "video/quicktime"
            } else if ext_is(xs, "mp4") || ext_is(xs, "m4v") {
                "video/mp4"
            } else if ext_is(xs, "mkv") {
                "video/x-matroska"
            } else if ext_is(xs, "avi") {
                "video/x-msvideo"
            } else {
                "application/octet-stream"
            }
        },
        None => "application/octet-stream",
    }
}

/// What `percent_encoding::percent_decode_str(s).decode_utf8_lossy()`
/// returns on `s`.
pub uninterp spec fn percent_decoded(s: Seq<char>) -> Seq<char>;

/// Relies on `percent_encoding::percent_decode_str` and
/// `PercentDecode::decode_utf8_lossy`: `%XX` escapes are decoded and the
/// bytes read as UTF-8, invalid sequences replaced; text without `%` comes
/// back unchanged.
#[verifier::external_body]
fn percent_decode_lossy(s: &str) -> (r: String)
    ensures
        r@ == percent_decoded(s@),
        !s@.contains('%') ==> r@ == s@,
{
    percent_encoding::percent_decode_str(s).decode_utf8_lossy().to_string()
}

/// The still-encoded path of a `video-stream:` URI, after whichever of the
/// host forms it uses.
pub open spec fn uri_path_part(u: Seq<char>) -> Option<Seq<char>> {
    if has_prefix(u, "video-stream://localhost/"@) {
        Some(u.subrange("video-stream://localhost/"@.len() as int, u.len() as int))
    } else if has_prefix(u, "video-stream://localhost"@) {
        Some(u.subrange("video-stream://localhost"@.len() as int, u.len() as int))
    } else if has_prefix(u, "video-stream:/"@) {
        Some(u.subrange("video-stream:/"@.len() as int, u.len() as int))
    } else if has_prefix(u, "video-stream:"@) {
        Some(u.subrange("video-stream:"@.len() as int, u.len() as int))
    } else {
        None
    }
}

/// A path that neither starts with `/` nor holds a drive colon gets a
/// leading `/`.
pub open spec fn anchored(p: Seq<char>) -> Seq<char> {
    if (p.len() == 0 || p[0] != '/') && !p.contains(':') {
        seq!['/'] + p
    } else {
        p
    }
}

fn strip_prefix_str<'a>(uri: &'a str, uv: &[char], p: &str) -> (r: Option<&'a str>)
    requires
        uv@ == uri@,
    ensures
        match r {
            Some(x) => has_prefix(uri@, p@) && x@ == uri@.subrange(p@.len() as int, uri@.len() as int),
            None => !has_prefix(uri@, p@),
        },
{
    let pv = chars_of(p);
    if starts_with_at(uv, pv.as_slice()) {
        Some(uri.substring_char(pv.len(), uv.len()))
    } else {
        None
    }
}

/// The local file path named by a `video-stream:` URI, percent-decoded and
/// anchored at `/`; `None` for a URI of another scheme.
pub fn stream_path_from_uri(uri: &str) -> (r: Option<String>)
    ensures
        match r {
            Some(p) => uri_path_part(uri@) matches Some(part) && p@ == anchored(
                percent_decoded(part),
            ),
            None => uri_path_part(uri@) is None,
        },
{
    let uv = chars_of(uri);
    let part = match strip_prefix_str(uri, uv.as_slice(), "video-stream://localhost/") {
        Some(x) => x,
        None => match strip_prefix_str(uri, uv.as_slice(), "video-stream://localhost") {
            Some(x) => x,
            None => match strip_prefix_str(uri, uv.as_slice(), "video-stream:/") {
                Some(x) => x,
                None => match strip_prefix_str(uri, uv.as_slice(), "video-stream:") {
                    Some(x) => x,
                    None => {
                        return None;
                    },
                },
            },
        },
    };
    let decoded = percent_decode_lossy(part);
    let dv = chars_of(decoded.as_str());
    let leading_slash = dv.len() > 0 && dv[0] == '/';
    if !leading_slash && !contains_char(dv.as_slice(), ':') {
        let mut p = String::from_str("/");
        p.append(decoded.as_str());
        proof {
            reveal_strlit("/");
        }
        Some(p)
    } else {
        Some(decoded)
    }
}

} // verus!
