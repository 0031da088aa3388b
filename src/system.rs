//! Application state, the export cancellation flag, transcoder discovery
//! names and the transcoder version check.
use vstd::prelude::*;
use std::sync::Arc;
use std::sync::atomic::{AtomicBool, Ordering};
use crate::probe::opt_view;
use crate::text::{chars_of, find_from, is_space, skip_space, starts_with_at};

verus! {

/// Where the transcoder and probe tools were found.
#[derive(Debug)]
pub struct AppState {
    pub ffmpeg_available: bool,
    pub ffmpeg_path: Option<String>,
    pub ffprobe_path: Option<String>,
    pub processing_count: u32,
}

impl AppState {
    /// The tools are usable only when both were found.
    pub fn new(ffmpeg_path: Option<String>, ffprobe_path: Option<String>) -> (r: AppState)
        ensures
            r.ffmpeg_available == (ffmpeg_path is Some && ffprobe_path is Some),
            r.ffmpeg_path == ffmpeg_path,
            r.ffprobe_path == ffprobe_path,
            r.processing_count == 0,
    {
        let available = ffmpeg_path.is_some() && ffprobe_path.is_some();
        AppState { ffmpeg_available: available, ffmpeg_path, ffprobe_path, processing_count: 0 }
    }
}

/// The cancellation flag of the running export, shared with its workers.
pub struct ExportState {
    pub is_cancelled: Arc<AtomicBool>,
}

impl ExportState {
    pub fn new() -> (r: ExportState) {
        ExportState { is_cancelled: Arc::new(AtomicBool::new(false)) }
    }

    /// Asks the running export to stop.
    pub fn cancel(&self) {
        let flag: &AtomicBool = &self.is_cancelled;
        flag.store(true, Ordering::SeqCst);
    }

    /// Clears a cancellation left over from an earlier export.
    pub fn reset(&self) {
        let flag: &AtomicBool = &self.is_cancelled;
        flag.store(false, Ordering::SeqCst);
    }

    pub fn is_cancelled(&self) -> bool {
        let flag: &AtomicBool = &self.is_cancelled;
        flag.load(Ordering::SeqCst)
    }
}

/// Target triple of the bundled tools for an OS and architecture.
pub open spec fn triple_of(os: Seq<char>, arch: Seq<char>) -> Option<Seq<char>> {
    if os == "macos"@ && arch == "aarch64"@ {
        Some("aarch64-apple-darwin"@)
    } else if os == "macos"@ && arch == "x86_64"@ {
        Some("x86_64-apple-darwin"@)
    } else if os == "windows"@ && arch == "x86_64"@ {
        Some("x86_64-pc-windows-msvc"@)
    } else if os == "linux"@ && arch == "x86_64"@ {
        Some("x86_64-unknown-linux-gnu"@)
    } else {
        None
    }
}

fn same(a: &str, b: &str) -> (r: bool)
    ensures
        r == (a@ == b@),
{
    crate::text::chars_eq(chars_of(a).as_slice(), chars_of(b).as_slice())
}

pub fn sidecar_triple(os: &str, arch: &str) -> (r: Option<&'static str>)
    ensures
        match r {
            Some(t) => triple_of(os@, arch@) == Some(t@),
            None => triple_of(os@, arch@) is None,
        },
{
    if same(os, "macos") && same(arch, "aarch64") {
        Some("aarch64-apple-darwin")
    } else if same(os, "macos") && same(arch, "x86_64") {
        Some("x86_64-apple-darwin")
    } else if same(os, "windows") && same(arch, "x86_64") {
        Some("x86_64-pc-windows-msvc")
    } else if same(os, "linux") && same(arch, "x86_64") {
        Some("x86_64-unknown-linux-gnu")
    } else {
        None
    }
}

/// File names a bundled tool may have: plain and with the target triple,
/// with `.exe` on Windows.
#[derive(Debug)]
pub struct SidecarNames {
    pub plain: String,
    pub with_triple: String,
}

pub open spec fn exe_suffix(os: Seq<char>) -> Seq<char> {
    if os == "windows"@ {
        ".exe"@
    } else {
        Seq::empty()
    }
}

/// The names under which the tool `name` is looked for; `None` on a
/// platform without bundled tools.
pub fn sidecar_names(name: &str, os: &str, arch: &str) -> (r: Option<SidecarNames>)
    ensures
        match r {
            Some(n) => triple_of(os@, arch@) matches Some(t) && n.plain@ == name@ + exe_suffix(os@)
                && n.with_triple@ == name@ + "-"@ + t + exe_suffix(os@),
            None => triple_of(os@, arch@) is None,
        },
{
    let triple = match sidecar_triple(os, arch) {
        Some(t) => t,
        None => {
            return None;
        },
    };
    let windows = same(os, "windows");
    let mut plain = String::from_str(name);
    let mut with_triple = String::from_str(name);
    with_triple.append("-");
    with_triple.append(triple);
    if windows {
        plain.append(".exe");
        with_triple.append(".exe");
    }
    proof {
        assert(plain@ =~= name@ + exe_suffix(os@));
        assert(with_triple@ =~= name@ + "-"@ + triple@ + exe_suffix(os@));
    }
    Some(SidecarNames { plain, with_triple })
}

/// What `char::is_numeric` says of `c` (Unicode numeric categories).
pub uninterp spec fn numeric_char(c: char) -> bool;

/// Relies on `char::is_numeric`: true for the Unicode numeric categories,
/// which include the ASCII digits.
#[verifier::external_body]
fn char_is_numeric(c: char) -> (r: bool)
    ensures
        r == numeric_char(c),
        '0' <= c && c <= '9' ==> r,
{
    c.is_numeric()
}

/// End of the word starting at `i`.
pub open spec fn word_end(s: Seq<char>, i: int) -> int
    decreases s.len() - i,
{
    if i >= s.len() || i < 0 || is_space(s[i]) {
        i
    } else {
        word_end(s, i + 1)
    }
}

/// Bounds of the `k`-th whitespace-separated word from `i` on.
pub open spec fn nth_word(s: Seq<char>, i: int, k: nat) -> Option<(int, int)>
    decreases k,
{
    let a = skip_space(s, i);
    if a >= s.len() || i < 0 || a < i {
        None
    } else if k == 0 {
        Some((a, word_end(s, a)))
    } else if word_end(s, a) <= i {
        None
    } else {
        nth_word(s, word_end(s, a), (k - 1) as nat)
    }
}

/// The version printed on the first line of `ffmpeg -version`: the third
/// word of a line starting `ffmpeg version`, when it starts with a numeric
/// character.
pub open spec fn version_of(line: Seq<char>) -> Option<Seq<char>> {
    let p = "ffmpeg version"@;
    if p.len() <= line.len() && line.subrange(0, p.len() as int) == p {
        match nth_word(line, 0, 2) {
            Some((a, e)) => if numeric_char(line[a]) {
                Some(line.subrange(a, e))
            } else {
                None
            },
            None => None,
        }
    } else {
        None
    }
}

proof fn lemma_word_end_bounds(s: Seq<char>, i: int)
    requires
        0 <= i <= s.len(),
    ensures
        i <= word_end(s, i) <= s.len(),
    decreases s.len() - i,
{
    if i < s.len() && !is_space(s[i]) {
        lemma_word_end_bounds(s, i + 1);
    }
}

fn word_bounds(v: &[char], i: usize, k: u32) -> (r: Option<(usize, usize)>)
    requires
        i <= v@.len(),
    ensures
        match r {
            Some((a, e)) => nth_word(v@, i as int, k as nat) == Some((a as int, e as int)) && a < e
                <= v@.len(),
            None => nth_word(v@, i as int, k as nat) is None,
        },
    decreases k,
{
    let mut a = i;
    while a < v.len() && crate::text::is_space_exec(v[a])
        invariant
            i <= a <= v@.len(),
            skip_space(v@, i as int) == skip_space(v@, a as int),
        decreases v@.len() - a,
    {
        a = a + 1;
    }
    if a >= v.len() {
        return None;
    }
    let mut e = a;
    while e < v.len() && !crate::text::is_space_exec(v[e])
        invariant
            a <= e <= v@.len(),
            word_end(v@, a as int) == word_end(v@, e as int),
        decreases v@.len() - e,
    {
        e = e + 1;
    }
    if k == 0 {
        Some((a, e))
    } else {
        word_bounds(v, e, k - 1)
    }
}

/// Extracts the version from the first line of `ffmpeg -version`.
pub fn extract_ffmpeg_version(line: &str) -> (r: Option<String>)
    ensures
        opt_view(r) == version_of(line@),
{
    let v = chars_of(line);
    let p = chars_of("ffmpeg version");
    if !starts_with_at(v.as_slice(), p.as_slice()) {
        return None;
    }
    match word_bounds(v.as_slice(), 0, 2) {
        Some((a, e)) => {
            if char_is_numeric(v[a]) {
                Some(String::from_str(line.substring_char(a, e)))
            } else {
                None
            }
        },
        None => None,
    }
}

/// The outcome of running `ffmpeg -version`.
#[derive(Debug)]
pub enum FfmpegRun {
    /// It ran; what it printed on standard output.
    Ran { stdout: String },
    /// No such program.
    NotFound,
    /// It could not be started for another reason.
    Failed { reason: String },
}

/// Whether the transcoder is usable, its version and a message for the
/// user.
#[derive(Debug)]
pub struct FfmpegInfo {
    pub available: bool,
    pub version: Option<String>,
    pub path: Option<String>,
    pub message: String,
}

/// The first line of `s` as `str::lines` gives it (empty for empty text).
pub open spec fn first_line(s: Seq<char>) -> Seq<char> {
    let e = find_from(s, '\n', 0);
    if e < s.len() && e > 0 && s[e - 1] == '\r' {
        s.subrange(0, e - 1)
    } else {
        s.subrange(0, e)
    }
}

pub open spec fn ffmpeg_info_matches(r: FfmpegInfo, path: Option<Seq<char>>, run: FfmpegRun) -> bool {
    &&& opt_view(r.path) == path
    &&& match run {
        FfmpegRun::Ran { stdout } => {
            &&& r.available
            &&& opt_view(r.version) == version_of(first_line(stdout@))
            &&& r.message@ == "FFmpeg 可用: "@ + first_line(stdout@)
        },
        FfmpegRun::NotFound => {
            &&& !r.available
            &&& r.version is None
            &&& r.message@ == "FFmpeg 未安装，请先安装 FFmpeg"@
        },
        FfmpegRun::Failed { reason } => {
            &&& !r.available
            &&& r.version is None
            &&& r.message@ == "FFmpeg 检查失败: "@ + reason@
        },
    }
}

/// Describes the transcoder at `path` from the outcome of running it.
pub fn ffmpeg_info(path: Option<String>, run: FfmpegRun) -> (r: FfmpegInfo)
    ensures
        ffmpeg_info_matches(r, opt_view(path), run),
{
    match run {
        FfmpegRun::Ran { stdout } => {
            let v = chars_of(stdout.as_str());
            let e = crate::text::find_char(v.as_slice(), '\n', 0);
            let end = if e < v.len() && e > 0 && v[e - 1] == '\r' {
                e - 1
            } else {
                e
            };
            let line = stdout.as_str().substring_char(0, end);
            let version = extract_ffmpeg_version(line);
            let mut message = String::from_str("FFmpeg 可用: ");
            message.append(line);
            FfmpegInfo { available: true, version, path, message }
        },
        FfmpegRun::NotFound => FfmpegInfo {
            available: false,
            version: None,
            path,
            message: String::from_str("FFmpeg 未安装，请先安装 FFmpeg"),
        },
        FfmpegRun::Failed { reason } => {
            let mut message = String::from_str("FFmpeg 检查失败: ");
            message.append(reason.as_str());
            FfmpegInfo { available: false, version: None, path, message }
        },
    }
}

/// What the shell reports about the application.
#[derive(Debug)]
pub struct SystemInfo {
    pub app_name: String,
    pub app_version: String,
    pub rust_version: String,
    pub os: String,
    pub ffmpeg_available: bool,
    pub ffmpeg_version: Option<String>,
    pub timestamp: String,
}

impl SystemInfo {
    /// The report for an application of version `app_version` on `os`,
    /// with the transcoder described by `ffmpeg`, taken at `timestamp`.
    pub fn new(app_version: &str, os: &str, ffmpeg: &FfmpegInfo, timestamp: String) -> (r:
        SystemInfo)
        ensures
            r.app_name@ == "Silence Cutter"@,
            r.app_version@ == app_version@,
            r.rust_version@ == app_version@,
            r.os@ == os@,
            r.ffmpeg_available == ffmpeg.available,
            opt_view(r.ffmpeg_version) == opt_view(ffmpeg.version),
            r.timestamp == timestamp,
    {
        let version = match &ffmpeg.version {
            Some(v) => Some(v.clone()),
            None => None,
        };
        SystemInfo {
            app_name: String::from_str("Silence Cutter"),
            app_version: String::from_str(app_version),
            rust_version: String::from_str(app_version),
            os: String::from_str(os),
            ffmpeg_available: ffmpeg.available,
            ffmpeg_version: version,
            timestamp,
        }
    }
}

} // verus!
