//! Names of the files a job writes: the default output path, temporary
//! files and batch outputs.
use vstd::prelude::*;
use chrono::{Datelike, Timelike};
use crate::paths::{extension_of, file_name_of, file_stem, get_file_extension, name_bounds, stem_of};
use crate::text::{chars_of, dec, push_dec, push_zpad, zpad};

verus! {

/// A local wall-clock time.
#[derive(Clone, Copy, Debug, PartialEq, Eq)]
pub struct LocalStamp {
    pub year: i32,
    pub month: u32,
    pub day: u32,
    pub hour: u32,
    pub minute: u32,
    pub second: u32,
}

/// Relies on `chrono::Local::now` with `Datelike` and `Timelike`: months
/// 1 to 12, days 1 to 31, hours 0 to 23, minutes and seconds 0 to 59.
#[verifier::external_body]
fn local_now() -> (r: LocalStamp)
    ensures
        1 <= r.month <= 12,
        1 <= r.day <= 31,
        r.hour <= 23,
        r.minute <= 59,
        r.second <= 59,
{
    let now = chrono::Local::now();
    LocalStamp {
        year: now.year(),
        month: now.month(),
        day: now.day(),
        hour: now.hour(),
        minute: now.minute(),
        second: now.second(),
    }
}

/// Relies on `chrono::Local::now` and `DateTime::timestamp`: seconds since
/// the Unix epoch.
#[verifier::external_body]
fn unix_now() -> (r: i64) {
    chrono::Local::now().timestamp()
}

/// Relies on `rand::random`: a value drawn from the thread-local
/// generator; nothing is promised of it.
pub assume_specification<T>[ rand::random::<T> ]() -> (r: T)
    where
        rand::distributions::Standard: rand::distributions::Distribution<T>,
;

/// `%Y`: four digits, with a sign outside 0 to 9999.
pub open spec fn year_text(y: i32) -> Seq<char> {
    if 0 <= y && y <= 9999 {
        zpad(y as nat, 4)
    } else if y > 9999 {
        seq!['+'] + zpad(y as nat, 4)
    } else {
        seq!['-'] + zpad((-y) as nat, 4)
    }
}

/// `%Y%m%d_%H%M%S`.
pub open spec fn stamp_text(t: LocalStamp) -> Seq<char> {
    year_text(t.year) + zpad(t.month as nat, 2) + zpad(t.day as nat, 2) + "_"@ + zpad(
        t.hour as nat,
        2,
    ) + zpad(t.minute as nat, 2) + zpad(t.second as nat, 2)
}

fn push_stamp(s: &mut String, t: LocalStamp)
    ensures
        final(s)@ == old(s)@ + stamp_text(t),
{
    if 0 <= t.year && t.year <= 9999 {
        push_zpad(s, t.year as u64, 4);
    } else if t.year > 9999 {
        s.append("+");
        proof {
            reveal_strlit("+");
        }
        push_zpad(s, t.year as u64, 4);
    } else {
        s.append("-");
        proof {
            reveal_strlit("-");
        }
        push_zpad(s, (-(t.year as i64)) as u64, 4);
    }
    push_zpad(s, t.month as u64, 2);
    push_zpad(s, t.day as u64, 2);
    s.append("_");
    push_zpad(s, t.hour as u64, 2);
    push_zpad(s, t.minute as u64, 2);
    push_zpad(s, t.second as u64, 2);
    proof {
        assert(final(s)@ =~= old(s)@ + stamp_text(t));
    }
}

/// The directory part of `path` with its trailing separator: everything
/// before the file name, or `./` when the path has no file name.
pub open spec fn dir_prefix(path: Seq<char>) -> Seq<char> {
    match file_name_of(path) {
        Some(_) => path.subrange(0, name_bounds(path).0),
        None => "./"@,
    }
}

/// `<dir>/<stem>_<stamp>_cut.<ext>`, with stem `output` and extension
/// `mp4` when the input has none.
pub open spec fn output_path_of(input: Seq<char>, t: LocalStamp) -> Seq<char> {
    let stem = match stem_of(input) {
        Some(s) => s,
        None => "output"@,
    };
    let ext = match extension_of(input) {
        Some(x) => x,
        None => "mp4"@,
    };
    dir_prefix(input) + stem + "_"@ + stamp_text(t) + "_cut."@ + ext
}

/// The default output path for `input_path` at local time `t`.
pub fn generate_output_path_at(input_path: &str, t: LocalStamp) -> (r: String)
    ensures
        r@ == output_path_of(input_path@, t),
{
    let v = chars_of(input_path);
    let mut out = match crate::paths::file_name(input_path) {
        Some(_) => {
            proof {
                crate::paths::lemma_name_bounds(input_path@);
            }
            let b = crate::paths::name_start(v.as_slice());
            String::from_str(input_path.substring_char(0, b))
        },
        None => String::from_str("./"),
    };
    match file_stem(input_path) {
        Some(s) => out.append(s),
        None => out.append("output"),
    }
    out.append("_");
    push_stamp(&mut out, t);
    out.append("_cut.");
    match get_file_extension(input_path) {
        Some(x) => out.append(x),
        None => out.append("mp4"),
    }
    proof {
        assert(out@ =~= output_path_of(input_path@, t));
    }
    out
}

/// The default output path for `input_path`, stamped with the local time
/// now.
pub fn generate_output_path(input_path: &str) -> (r: String)
    ensures
        exists|t: LocalStamp| r@ == output_path_of(input_path@, t),
{
    let t = local_now();
    generate_output_path_at(input_path, t)
}

/// `/tmp/silence_cutter_<timestamp>_<random>.<ext>`.
pub open spec fn temp_path_of(timestamp: i64, random: u32, ext: Seq<char>) -> Seq<char> {
    let ts = if timestamp >= 0 {
        dec(timestamp as nat)
    } else {
        seq!['-'] + dec((-timestamp) as nat)
    };
    "/tmp/silence_cutter_"@ + ts + "_"@ + dec(random as nat) + "."@ + ext
}

pub fn temp_file_path_from(timestamp: i64, random: u32, extension: &str) -> (r: String)
    ensures
        r@ == temp_path_of(timestamp, random, extension@),
{
    let mut s = String::from_str("/tmp/silence_cutter_");
    if timestamp >= 0 {
        push_dec(&mut s, timestamp as u64);
    } else {
        s.append("-");
        proof {
            reveal_strlit("-");
        }
        push_dec(&mut s, (-(timestamp as i128)) as u64);
    }
    s.append("_");
    push_dec(&mut s, random as u64);
    s.append(".");
    s.append(extension);
    proof {
        assert(s@ =~= temp_path_of(timestamp, random, extension@));
    }
    s
}

/// A fresh temporary file path with extension `extension`, from the clock
/// and a random number.
pub fn get_temp_file_path(extension: &str) -> (r: String)
    ensures
        exists|ts: i64, k: u32| r@ == temp_path_of(ts, k, extension@),
{
    let ts = unix_now();
    let k: u32 = rand::random::<u32>();
    temp_file_path_from(ts, k, extension)
}

/// Output path of the `index`-th file (from zero) of a batch job.
pub open spec fn batch_output_path_of(dir: Seq<char>, index: nat) -> Seq<char> {
    dir + "/processed_"@ + dec(index + 1) + ".mp4"@
}

pub fn batch_output_path(output_dir: &str, index: usize) -> (r: String)
    requires
        index < usize::MAX,
    ensures
        r@ == batch_output_path_of(output_dir@, index as nat),
{
    let mut s = String::from_str(output_dir);
    s.append("/processed_");
    push_dec(&mut s, (index + 1) as u64);
    s.append(".mp4");
    s
}

} // verus!
