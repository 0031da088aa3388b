//! Path pieces on `/`-separated paths, as `std::path::Path` gives them:
//! the file name, its stem and its extension.
use vstd::prelude::*;
use crate::text::{after_last, after_last_char, ascii_ieq, ascii_ieq_exec, chars_of};

verus! {

/// End of `s[..e]` with trailing separators removed.
pub open spec fn trim_seps_end(s: Seq<char>, e: int) -> int
    decreases e,
{
    if e <= 0 {
        0
    } else if s[e - 1] == '/' {
        trim_seps_end(s, e - 1)
    } else {
        e
    }
}

/// Bounds of the last component of `s`.
pub open spec fn name_bounds(s: Seq<char>) -> (int, int) {
    let e = trim_seps_end(s, s.len() as int);
    (after_last(s, '/', e), e)
}

/// The last component, unless it is empty, `.` or `..`.
pub open spec fn file_name_of(s: Seq<char>) -> Option<Seq<char>> {
    let (b, e) = name_bounds(s);
    let n = s.subrange(b, e);
    if n.len() == 0 || n == seq!['.'] || n == seq!['.', '.'] {
        None
    } else {
        Some(n)
    }
}

/// Index just after the last dot of a file name, 0 when it has none.
pub open spec fn dot_end(n: Seq<char>) -> int {
    after_last(n, '.', n.len() as int)
}

/// What follows the last dot of a file name that has a dot past its first
/// character.
pub open spec fn extension_of(s: Seq<char>) -> Option<Seq<char>> {
    match file_name_of(s) {
        Some(n) => if dot_end(n) <= 1 {
            None
        } else {
            Some(n.subrange(dot_end(n), n.len() as int))
        },
        None => None,
    }
}

/// The file name without its extension.
pub open spec fn stem_of(s: Seq<char>) -> Option<Seq<char>> {
    match file_name_of(s) {
        Some(n) => if dot_end(n) <= 1 {
            Some(n)
        } else {
            Some(n.subrange(0, dot_end(n) - 1))
        },
        None => None,
    }
}

proof fn lemma_trim_seps_bounds(s: Seq<char>, e: int)
    requires
        0 <= e <= s.len(),
    ensures
        0 <= trim_seps_end(s, e) <= e,
    decreases e,
{
    if e > 0 && s[e - 1] == '/' {
        lemma_trim_seps_bounds(s, e - 1);
    }
}

/// Bounds of the file name of `v`, if it has one.
fn file_name_range(v: &[char]) -> (r: Option<(usize, usize)>)
    ensures
        match r {
            Some((b, e)) => b <= e <= v@.len() && file_name_of(v@) == Some(v@.subrange(b as int, e as int))
                && name_bounds(v@) == (b as int, e as int),
            None => file_name_of(v@) is None,
        },
{
    let mut e = v.len();
    proof {
        lemma_trim_seps_bounds(v@, e as int);
    }
    while e > 0 && v[e - 1] == '/'
        invariant
            e <= v@.len(),
            trim_seps_end(v@, v@.len() as int) == trim_seps_end(v@, e as int),
        decreases e,
    {
        e = e - 1;
    }
    let b = after_last_char(v, '/', e);
    let n = e - b;
    if n == 0 {
        return None;
    }
    if n == 1 && v[b] == '.' {
        proof {
            assert(v@.subrange(b as int, e as int) =~= seq!['.']);
        }
        return None;
    }
    if n == 2 && v[b] == '.' && v[b + 1] == '.' {
        proof {
            assert(v@.subrange(b as int, e as int) =~= seq!['.', '.']);
        }
        return None;
    }
    proof {
        let m = v@.subrange(b as int, e as int);
        if n == 1 {
            assert(m[0] != '.');
        }
        if n == 2 {
            assert(m[0] != '.' || m[1] != '.');
        }
    }
    Some((b, e))
}

/// The file name of `path`.
pub fn file_name(path: &str) -> (r: Option<&str>)
    ensures
        match r {
            Some(n) => file_name_of(path@) == Some(n@),
            None => file_name_of(path@) is None,
        },
{
    let v = chars_of(path);
    match file_name_range(v.as_slice()) {
        Some((b, e)) => Some(path.substring_char(b, e)),
        None => None,
    }
}

/// The extension of the file name of `path`: what follows its last dot,
/// unless that dot is the first character.
pub fn get_file_extension(path: &str) -> (r: Option<&str>)
    ensures
        match r {
            Some(x) => extension_of(path@) == Some(x@),
            None => extension_of(path@) is None,
        },
{
    let v = chars_of(path);
    match file_name_range(v.as_slice()) {
        Some((b, e)) => {
            let name = path.substring_char(b, e);
            let nv = chars_of(name);
            let d = after_last_char(nv.as_slice(), '.', nv.len());
            if d <= 1 {
                None
            } else {
                Some(name.substring_char(d, nv.len()))
            }
        },
        None => None,
    }
}

/// The file name of `path` without its extension.
pub fn file_stem(path: &str) -> (r: Option<&str>)
    ensures
        match r {
            Some(x) => stem_of(path@) == Some(x@),
            None => stem_of(path@) is None,
        },
{
    let v = chars_of(path);
    match file_name_range(v.as_slice()) {
        Some((b, e)) => {
            let name = path.substring_char(b, e);
            let nv = chars_of(name);
            let d = after_last_char(nv.as_slice(), '.', nv.len());
            if d <= 1 {
                Some(name)
            } else {
                Some(name.substring_char(0, d - 1))
            }
        },
        None => None,
    }
}

/// Extensions taken for video containers.
pub open spec fn is_video_extension(x: Seq<char>) -> bool {
    ascii_ieq(x, "mp4"@) || ascii_ieq(x, "mov"@) || ascii_ieq(x, "avi"@) || ascii_ieq(x, "mkv"@)
        || ascii_ieq(x, "webm"@) || ascii_ieq(x, "flv"@) || ascii_ieq(x, "wmv"@) || ascii_ieq(
        x,
        "m4v"@,
    ) || ascii_ieq(x, "mpg"@) || ascii_ieq(x, "mpeg"@)
}

/// Whether `path` has a video extension, compared ignoring ASCII case.
pub fn is_video_file(path: &str) -> (r: bool)
    ensures
        r == match extension_of(path@) {
            Some(x) => is_video_extension(x),
            None => false,
        },
{
    match get_file_extension(path) {
        Some(x) => {
            let xv = chars_of(x);
            let xs = xv.as_slice();
            ascii_ieq_exec(xs, chars_of("mp4").as_slice()) || ascii_ieq_exec(xs, chars_of("mov").as_slice())
                || ascii_ieq_exec(xs, chars_of("avi").as_slice()) || ascii_ieq_exec(xs, chars_of("mkv").as_slice())
                || ascii_ieq_exec(xs, chars_of("webm").as_slice()) || ascii_ieq_exec(xs, chars_of("flv").as_slice())
                || ascii_ieq_exec(xs, chars_of("wmv").as_slice()) || ascii_ieq_exec(xs, chars_of("m4v").as_slice())
                || ascii_ieq_exec(xs, chars_of("mpg").as_slice()) || ascii_ieq_exec(xs, chars_of("mpeg").as_slice())
        },
        None => false,
    }
}

pub proof fn lemma_name_bounds(s: Seq<char>)
    ensures
        0 <= name_bounds(s).0 <= name_bounds(s).1 <= s.len(),
{
    lemma_trim_seps_bounds(s, s.len() as int);
    crate::text::lemma_after_last_bounds(s, '/', trim_seps_end(s, s.len() as int));
}

/// Where the last component of `v` starts.
pub fn name_start(v: &[char]) -> (r: usize)
    ensures
        r == name_bounds(v@).0,
{
    let mut e = v.len();
    proof {
        lemma_trim_seps_bounds(v@, e as int);
    }
    while e > 0 && v[e - 1] == '/'
        invariant
            e <= v@.len(),
            trim_seps_end(v@, v@.len() as int) == trim_seps_end(v@, e as int),
        decreases e,
    {
        e = e - 1;
    }
    after_last_char(v, '/', e)
}

} // verus!
