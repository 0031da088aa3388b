//! Reading the transcoder's progress lines (`time=...`, `speed=...x`) and
//! clock-style times, and formatting times for display.
use vstd::prelude::*;
use crate::probe::opt_view;
use crate::text::{
    chars_of, dec, decimal_micros, find_char, find_from, is_digit, parse_decimal_micros_at,
    parse_u64_at, parse_u64_spec, push_dec, push_zpad, zpad,
};

verus! {

/// Characters of a progress time: digits, `:` and `.`.
pub open spec fn time_class(c: char) -> bool {
    is_digit(c) || c == ':' || c == '.'
}

/// Characters of a speed factor: digits and `.`.
pub open spec fn speed_class(c: char) -> bool {
    is_digit(c) || c == '.'
}

/// End of the longest run of characters of the class from `i`.
pub open spec fn run_end(s: Seq<char>, i: int, class: spec_fn(char) -> bool) -> int
    decreases s.len() - i,
{
    if i >= s.len() || i < 0 || !class(s[i]) {
        i
    } else {
        run_end(s, i + 1, class)
    }
}

pub open spec fn tagged_at(s: Seq<char>, i: int, tag: Seq<char>) -> bool {
    0 <= i && i + tag.len() <= s.len() && s.subrange(i, i + tag.len() as int) == tag
}

/// `time=` followed by at least one time character starts at `i`.
pub open spec fn time_match_at(s: Seq<char>, i: int) -> bool {
    let t = "time="@;
    tagged_at(s, i, t) && run_end(s, i + t.len(), |c: char| time_class(c)) > i + t.len()
}

/// `speed=`, at least one speed character, then `x`, starts at `i`.
pub open spec fn speed_match_at(s: Seq<char>, i: int) -> bool {
    let t = "speed="@;
    let e = run_end(s, i + t.len(), |c: char| speed_class(c));
    tagged_at(s, i, t) && e > i + t.len() && e < s.len() && s[e] == 'x'
}

/// The first `i` at or after `from` where `m` holds.
pub open spec fn first_match(s: Seq<char>, from: int, m: spec_fn(Seq<char>, int) -> bool) -> Option<
    int,
>
    decreases s.len() - from,
{
    if from >= s.len() || from < 0 {
        None
    } else if m(s, from) {
        Some(from)
    } else {
        first_match(s, from + 1, m)
    }
}

/// What `time=([0-9:.]+)` captures in `s`: the run of time characters
/// after the leftmost `time=` that is followed by one.
pub open spec fn time_capture(s: Seq<char>) -> Option<Seq<char>> {
    match first_match(s, 0, |t: Seq<char>, i: int| time_match_at(t, i)) {
        Some(i) => Some(s.subrange(i + 5, run_end(s, i + 5, |c: char| time_class(c)))),
        None => None,
    }
}

/// What `speed=([0-9.]+)x` captures in `s`.
pub open spec fn speed_capture(s: Seq<char>) -> Option<Seq<char>> {
    match first_match(s, 0, |t: Seq<char>, i: int| speed_match_at(t, i)) {
        Some(i) => Some(s.subrange(i + 6, run_end(s, i + 6, |c: char| speed_class(c)))),
        None => None,
    }
}

pub open spec fn is_time_pattern(p: Seq<char>) -> bool {
    p == "time=([0-9:.]+)"@
}

pub open spec fn is_speed_pattern(p: Seq<char>) -> bool {
    p == "speed=([0-9.]+)x"@
}

/// Relies on `regex::Regex::new`, `Regex::captures` and `Captures::get`:
/// the first group of the leftmost match. For `time=([0-9:.]+)` that is the
/// longest run after the leftmost `time=` followed by a time character;
/// for `speed=([0-9.]+)x` the run after the leftmost `speed=` whose longest
/// run is followed by `x` (a shorter run ends before a digit or dot, never
/// before `x`).
#[verifier::external_body]
fn regex_first_group(pattern: &str, text: &str) -> (r: Option<String>)
    requires
        is_time_pattern(pattern@) || is_speed_pattern(pattern@),
    ensures
        is_time_pattern(pattern@) ==> opt_view(r) == time_capture(text@),
        is_speed_pattern(pattern@) ==> opt_view(r) == speed_capture(text@),
{
    regex::Regex::new(pattern).ok().and_then(
        |re| re.captures(text).and_then(|c| c.get(1)).map(|m| m.as_str().to_string()),
    )
}

/// The time field of a progress line.
pub fn progress_time_field(line: &str) -> (r: Option<String>)
    ensures
        opt_view(r) == time_capture(line@),
{
    regex_first_group("time=([0-9:.]+)", line)
}

/// The speed field of a progress line (without the `x`).
pub fn progress_speed_field(line: &str) -> (r: Option<String>)
    ensures
        opt_view(r) == speed_capture(line@),
{
    regex_first_group("speed=([0-9.]+)x", line)
}

/// A clock time `H:M:S`, `M:S` or `S`, each part a decimal number, in
/// microseconds; `None` for more parts, a malformed part or overflow.
pub open spec fn clock_time(s: Seq<char>) -> Option<u64> {
    let d1 = find_from(s, ':', 0);
    let d2 = find_from(s, ':', d1 + 1);
    let d3 = find_from(s, ':', d2 + 1);
    if d1 >= s.len() {
        decimal_micros(s)
    } else if d2 >= s.len() {
        match (decimal_micros(s.subrange(0, d1)), decimal_micros(s.subrange(d1 + 1, s.len() as int))) {
            (Some(m), Some(x)) => if m * 60 + x <= u64::MAX {
                Some((m * 60 + x) as u64)
            } else {
                None
            },
            _ => None,
        }
    } else if d3 >= s.len() {
        match (
            decimal_micros(s.subrange(0, d1)),
            decimal_micros(s.subrange(d1 + 1, d2)),
            decimal_micros(s.subrange(d2 + 1, s.len() as int)),
        ) {
            (Some(h), Some(m), Some(x)) => if h * 3600 + m * 60 + x <= u64::MAX {
                Some((h * 3600 + m * 60 + x) as u64)
            } else {
                None
            },
            _ => None,
        }
    } else {
        None
    }
}

fn scaled_sum(a: u64, ka: u64, b: u64, kb: u64, c: u64) -> (r: Option<u64>)
    requires
        ka <= 3600,
        kb <= 3600,
    ensures
        r == if a * ka + b * kb + c <= u64::MAX {
            Some((a * ka + b * kb + c) as u64)
        } else {
            None::<u64>
        },
{
    proof {
        assert(0 <= a * ka <= u64::MAX * 3600) by (nonlinear_arith)
            requires
                a <= u64::MAX,
                ka <= 3600,
        ;
        assert(0 <= b * kb <= u64::MAX * 3600) by (nonlinear_arith)
            requires
                b <= u64::MAX,
                kb <= 3600,
        ;
    }
    let t: u128 = a as u128 * ka as u128 + b as u128 * kb as u128 + c as u128;
    if t <= u64::MAX as u128 {
        Some(t as u64)
    } else {
        None
    }
}

/// Parses a clock time as the transcoder prints it after `time=`.
pub fn parse_progress_time(time_str: &str) -> (r: Option<u64>)
    ensures
        r == clock_time(time_str@),
{
    let v = chars_of(time_str);
    let n = v.len();
    let d1 = find_char(v.as_slice(), ':', 0);
    if d1 >= n {
        proof {
            assert(v@.subrange(0, n as int) =~= v@);
        }
        return parse_decimal_micros_at(v.as_slice(), 0, n);
    }
    let d2 = find_char(v.as_slice(), ':', d1 + 1);
    if d2 >= n {
        let m = parse_decimal_micros_at(v.as_slice(), 0, d1);
        let x = parse_decimal_micros_at(v.as_slice(), d1 + 1, n);
        return match (m, x) {
            (Some(m), Some(x)) => scaled_sum(m, 60, 0, 0, x),
            _ => None,
        };
    }
    let d3 = find_char(v.as_slice(), ':', d2 + 1);
    if d3 >= n {
        let h = parse_decimal_micros_at(v.as_slice(), 0, d1);
        let m = parse_decimal_micros_at(v.as_slice(), d1 + 1, d2);
        let x = parse_decimal_micros_at(v.as_slice(), d2 + 1, n);
        return match (h, m, x) {
            (Some(h), Some(m), Some(x)) => scaled_sum(h, 3600, m, 60, x),
            _ => None,
        };
    }
    None
}

/// Index of the first `:` or `.` at or after `i`, or the length.
pub open spec fn find_sep(s: Seq<char>, i: int) -> int
    decreases s.len() - i,
{
    if i >= s.len() || i < 0 {
        s.len() as int
    } else if s[i] == ':' || s[i] == '.' {
        i
    } else {
        find_sep(s, i + 1)
    }
}

proof fn lemma_find_sep_bounds(s: Seq<char>, i: int)
    requires
        0 <= i <= s.len(),
    ensures
        i <= find_sep(s, i) <= s.len(),
    decreases s.len() - i,
{
    if i < s.len() && !(s[i] == ':' || s[i] == '.') {
        lemma_find_sep_bounds(s, i + 1);
    }
}

fn find_sep_exec(v: &[char], i: usize) -> (r: usize)
    requires
        i <= v@.len(),
    ensures
        r == find_sep(v@, i as int),
        i <= r <= v@.len(),
{
    proof {
        lemma_find_sep_bounds(v@, i as int);
    }
    let mut j = i;
    while j < v.len() && !(v[j] == ':' || v[j] == '.')
        invariant
            i <= j <= v@.len(),
            find_sep(v@, i as int) == find_sep(v@, j as int),
        decreases v@.len() - j,
    {
        j = j + 1;
    }
    j
}

/// `MM:SS.mmm` or `HH:MM:SS.mmm` (either separator anywhere), each part
/// read as `u64::from_str` reads it, in microseconds; the last part counts
/// thousandths of a second.
pub open spec fn display_time(s: Seq<char>) -> Option<u64> {
    let a = find_sep(s, 0);
    let b = find_sep(s, a + 1);
    let c = find_sep(s, b + 1);
    let d = find_sep(s, c + 1);
    if a < s.len() && b < s.len() && c >= s.len() {
        match (
            parse_u64_spec(s.subrange(0, a)),
            parse_u64_spec(s.subrange(a + 1, b)),
            parse_u64_spec(s.subrange(b + 1, s.len() as int)),
        ) {
            (Some(m), Some(x), Some(ms)) => if m * 60000000 + x * 1000000 + ms * 1000 <= u64::MAX {
                Some((m * 60000000 + x * 1000000 + ms * 1000) as u64)
            } else {
                None
            },
            _ => None,
        }
    } else if a < s.len() && b < s.len() && c < s.len() && d >= s.len() {
        match (
            parse_u64_spec(s.subrange(0, a)),
            parse_u64_spec(s.subrange(a + 1, b)),
            parse_u64_spec(s.subrange(b + 1, c)),
            parse_u64_spec(s.subrange(c + 1, s.len() as int)),
        ) {
            (Some(h), Some(m), Some(x), Some(ms)) => if h * 3600000000 + m * 60000000 + x
                * 1000000 + ms * 1000 <= u64::MAX {
                Some((h * 3600000000 + m * 60000000 + x * 1000000 + ms * 1000) as u64)
            } else {
                None
            },
            _ => None,
        }
    } else {
        None
    }
}

fn scaled_sum4(h: u64, m: u64, x: u64, ms: u64) -> (r: Option<u64>)
    ensures
        r == if h * 3600000000 + m * 60000000 + x * 1000000 + ms * 1000 <= u64::MAX {
            Some((h * 3600000000 + m * 60000000 + x * 1000000 + ms * 1000) as u64)
        } else {
            None::<u64>
        },
{
    proof {
        assert(h * 3600000000 <= u64::MAX * 3600000000) by (nonlinear_arith)
            requires
                h <= u64::MAX,
        ;
        assert(m * 60000000 <= u64::MAX * 60000000) by (nonlinear_arith)
            requires
                m <= u64::MAX,
        ;
        assert(x * 1000000 <= u64::MAX * 1000000) by (nonlinear_arith)
            requires
                x <= u64::MAX,
        ;
        assert(ms * 1000 <= u64::MAX * 1000) by (nonlinear_arith)
            requires
                ms <= u64::MAX,
        ;
    }
    let t: u128 = h as u128 * 3600000000 + m as u128 * 60000000 + x as u128 * 1000000 + ms as u128
        * 1000;
    if t <= u64::MAX as u128 {
        Some(t as u64)
    } else {
        None
    }
}

/// Parses a displayed time such as `01:02.500` or `1:01:02.500`.
pub fn parse_time(time_str: &str) -> (r: Option<u64>)
    ensures
        r == display_time(time_str@),
{
    let v = chars_of(time_str);
    let n = v.len();
    let a = find_sep_exec(v.as_slice(), 0);
    if a >= n {
        return None;
    }
    let b = find_sep_exec(v.as_slice(), a + 1);
    if b >= n {
        return None;
    }
    let c = find_sep_exec(v.as_slice(), b + 1);
    if c >= n {
        let m = parse_u64_at(v.as_slice(), 0, a);
        let x = parse_u64_at(v.as_slice(), a + 1, b);
        let ms = parse_u64_at(v.as_slice(), b + 1, n);
        return match (m, x, ms) {
            (Some(m), Some(x), Some(ms)) => scaled_sum4(0, m, x, ms),
            _ => None,
        };
    }
    let d = find_sep_exec(v.as_slice(), c + 1);
    if d >= n {
        let h = parse_u64_at(v.as_slice(), 0, a);
        let m = parse_u64_at(v.as_slice(), a + 1, b);
        let x = parse_u64_at(v.as_slice(), b + 1, c);
        let ms = parse_u64_at(v.as_slice(), c + 1, n);
        return match (h, m, x, ms) {
            (Some(h), Some(m), Some(x), Some(ms)) => scaled_sum4(h, m, x, ms),
            _ => None,
        };
    }
    None
}

/// `HH:MM:SS.mmm` when there are hours, else `MM:SS.mmm`, from a duration
/// in microseconds cut to whole milliseconds.
pub open spec fn clock_text(us: u64) -> Seq<char> {
    let t = us / 1000;
    let h = t / 3600000;
    let m = t % 3600000 / 60000;
    let s = t % 60000 / 1000;
    let ms = t % 1000;
    let tail = zpad(m as nat, 2) + ":"@ + zpad(s as nat, 2) + "."@ + zpad(ms as nat, 3);
    if h > 0 {
        zpad(h as nat, 2) + ":"@ + tail
    } else {
        tail
    }
}

pub fn format_time(duration_us: u64) -> (r: String)
    ensures
        r@ == clock_text(duration_us),
{
    let t = duration_us / 1000;
    let h = t / 3600000;
    let m = t % 3600000 / 60000;
    let s = t % 60000 / 1000;
    let ms = t % 1000;
    let mut out = String::new();
    if h > 0 {
        push_zpad(&mut out, h, 2);
        out.append(":");
    }
    push_zpad(&mut out, m, 2);
    out.append(":");
    push_zpad(&mut out, s, 2);
    out.append(".");
    push_zpad(&mut out, ms, 3);
    proof {
        assert(out@ =~= clock_text(duration_us));
    }
    out
}

/// Progress of a WAVE extraction, read from one line of the transcoder.
#[derive(Debug)]
pub struct ExtractionProgress {
    pub current_us: u64,
    /// Hundredths of a percent, at most 95%.
    pub percent_bp: u64,
    /// Thousandths of real time.
    pub speed_milli: u64,
    pub eta_secs: u64,
    pub message: String,
}

pub open spec fn percent_of(current: u64, duration: u64) -> u64 {
    if duration == 0 || current as int * 10000 / duration as int >= 9500 {
        9500
    } else {
        (current as int * 10000 / duration as int) as u64
    }
}

pub open spec fn speed_of(line: Seq<char>) -> u64 {
    match speed_capture(line) {
        Some(c) => match decimal_micros(c) {
            Some(v) => v / 1000,
            None => 1000,
        },
        None => 1000,
    }
}

/// Whole seconds left at `speed_milli` (at least 0.01x).
pub open spec fn eta_of(current: u64, duration: u64, speed_milli: u64) -> u64 {
    let sp = if speed_milli < 10 {
        10
    } else {
        speed_milli as int
    };
    if duration > current {
        ((duration - current) * 1000 / sp / 1000000) as u64
    } else {
        0
    }
}

/// `M分S秒` when there are whole minutes, else `S秒`.
pub open spec fn eta_text(eta_secs: u64) -> Seq<char> {
    if eta_secs / 60 > 0 {
        dec((eta_secs / 60) as nat) + "分"@ + dec((eta_secs % 60) as nat) + "秒"@
    } else {
        dec((eta_secs % 60) as nat) + "秒"@
    }
}

/// The speed with two decimals (rounded half up) and the time left.
pub open spec fn progress_message(speed_milli: u64, eta_secs: u64) -> Seq<char> {
    let hundredths = (speed_milli as int + 5) / 10;
    "正在提取音频... 速度: "@ + dec((hundredths / 100) as nat) + "."@ + zpad((hundredths % 100) as nat, 2)
        + "x, 预计剩余: "@ + eta_text(eta_secs)
}

pub open spec fn progress_of(line: Seq<char>, duration: u64) -> Option<(u64, u64, u64, u64)> {
    match time_capture(line) {
        Some(t) => match clock_time(t) {
            Some(cur) => Some(
                (cur, percent_of(cur, duration), speed_of(line), eta_of(cur, duration, speed_of(line))),
            ),
            None => None,
        },
        None => None,
    }
}

/// Reads a progress line of a WAVE extraction of `duration_us`; `None` when
/// it carries no readable time.
pub fn extraction_progress(line: &str, duration_us: u64) -> (r: Option<ExtractionProgress>)
    ensures
        match r {
            Some(p) => progress_of(line@, duration_us) == Some(
                (p.current_us, p.percent_bp, p.speed_milli, p.eta_secs),
            ) && p.message@ == progress_message(p.speed_milli, p.eta_secs),
            None => progress_of(line@, duration_us) is None,
        },
{
    let t = match progress_time_field(line) {
        Some(t) => t,
        None => {
            return None;
        },
    };
    let cur = match parse_progress_time(t.as_str()) {
        Some(c) => c,
        None => {
            return None;
        },
    };
    let percent = if duration_us == 0 {
        9500
    } else {
        let p = (cur as u128 * 10000) / duration_us as u128;
        if p >= 9500 {
            9500
        } else {
            p as u64
        }
    };
    let speed = match progress_speed_field(line) {
        Some(c) => {
            let cv = chars_of(c.as_str());
            proof {
                assert(cv@.subrange(0, cv@.len() as int) =~= c@);
            }
            match parse_decimal_micros_at(cv.as_slice(), 0, cv.len()) {
                Some(v) => v / 1000,
                None => 1000,
            }
        },
        None => 1000,
    };
    let sp: u64 = if speed < 10 {
        10
    } else {
        speed
    };
    let eta: u64 = if duration_us > cur {
        proof {
            let g = (duration_us - cur) as int;
            let spi = sp as int;
            assert(g * 1000 / spi / 1000000 <= u64::MAX) by (nonlinear_arith)
                requires
                    0 <= g <= u64::MAX,
                    spi >= 10,
            ;
        }
        (((duration_us - cur) as u128 * 1000 / sp as u128) / 1000000) as u64
    } else {
        0
    };
    let mut msg = String::from_str("正在提取音频... 速度: ");
    let hundredths = (speed as u128 + 5) / 10;
    push_dec(&mut msg, (hundredths / 100) as u64);
    msg.append(".");
    push_zpad(&mut msg, (hundredths % 100) as u64, 2);
    msg.append("x, 预计剩余: ");
    if eta / 60 > 0 {
        push_dec(&mut msg, eta / 60);
        msg.append("分");
    }
    push_dec(&mut msg, eta % 60);
    msg.append("秒");
    proof {
        assert(msg@ =~= progress_message(speed, eta));
    }
    Some(
        ExtractionProgress {
            current_us: cur,
            percent_bp: percent,
            speed_milli: speed,
            eta_secs: eta,
            message: msg,
        },
    )
}

} // verus!
