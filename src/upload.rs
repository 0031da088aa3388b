//! Chunked upload: the suffix kept from the uploaded name, session ids,
//! chunk decoding and the name of the finished file.
use vstd::prelude::*;
use crate::text::{after_last_char, chars_of};

verus! {

/// What `after_last` gives for the last `.` of a name: the text after it,
/// or the whole name when there is none (as `rsplit('.').next()` does).
pub open spec fn last_dot_part(name: Seq<char>) -> Seq<char> {
    name.subrange(crate::text::after_last(name, '.', name.len() as int), name.len() as int)
}

/// The suffix a temporary upload file gets: a dot and the last
/// dot-separated part of the uploaded name.
pub fn upload_suffix(filename: &str) -> (r: String)
    ensures
        r@ == seq!['.'] + last_dot_part(filename@),
{
    let v = chars_of(filename);
    let d = after_last_char(v.as_slice(), '.', v.len());
    let mut s = String::from_str(".");
    s.append(filename.substring_char(d, v.len()));
    proof {
        reveal_strlit(".");
    }
    s
}

/// Lower-case hexadecimal digit.
pub open spec fn hex_char(d: nat) -> char {
    if d < 10 {
        crate::text::digit_char(d)
    } else if d == 10 {
        'a'
    } else if d == 11 {
        'b'
    } else if d == 12 {
        'c'
    } else if d == 13 {
        'd'
    } else if d == 14 {
        'e'
    } else {
        'f'
    }
}

/// The last `k` hexadecimal digits of `v`, zero-padded.
pub open spec fn hex_digits(v: nat, k: nat) -> Seq<char>
    decreases k,
{
    if k == 0 {
        Seq::empty()
    } else {
        hex_digits(v / 16, (k - 1) as nat) + seq![hex_char(v % 16)]
    }
}

fn hex_str(d: u8) -> (r: &'static str)
    requires
        d < 16,
    ensures
        r@ == seq![hex_char(d as nat)],
{
    proof {
        reveal_strlit("0");
        reveal_strlit("1");
        reveal_strlit("2");
        reveal_strlit("3");
        reveal_strlit("4");
        reveal_strlit("5");
        reveal_strlit("6");
        reveal_strlit("7");
        reveal_strlit("8");
        reveal_strlit("9");
        reveal_strlit("a");
        reveal_strlit("b");
        reveal_strlit("c");
        reveal_strlit("d");
        reveal_strlit("e");
        reveal_strlit("f");
    }
    if d == 0 {
        "0"
    } else if d == 1 {
        "1"
    } else if d == 2 {
        "2"
    } else if d == 3 {
        "3"
    } else if d == 4 {
        "4"
    } else if d == 5 {
        "5"
    } else if d == 6 {
        "6"
    } else if d == 7 {
        "7"
    } else if d == 8 {
        "8"
    } else if d == 9 {
        "9"
    } else if d == 10 {
        "a"
    } else if d == 11 {
        "b"
    } else if d == 12 {
        "c"
    } else if d == 13 {
        "d"
    } else if d == 14 {
        "e"
    } else {
        "f"
    }
}

fn push_hex(s: &mut String, v: u128, k: u32)
    ensures
        final(s)@ == old(s)@ + hex_digits(v as nat, k as nat),
    decreases k,
{
    if k > 0 {
        push_hex(s, v / 16, k - 1);
        s.append(hex_str((v % 16) as u8));
        proof {
            assert(final(s)@ =~= old(s)@ + hex_digits(v as nat, k as nat));
        }
    }
}

/// A session id: the 32 lower-case hexadecimal digits of `v`.
pub fn session_id_from(v: u128) -> (r: String)
    ensures
        r@ == hex_digits(v as nat, 32),
{
    let mut s = String::new();
    push_hex(&mut s, v, 32);
    s
}

/// A fresh random session id of 32 hexadecimal digits.
pub fn gen_session_id() -> (r: String)
    ensures
        exists|v: u128| r@ == hex_digits(v as nat, 32),
{
    let v: u128 = rand::random::<u128>();
    session_id_from(v)
}

/// The error of `base64::decode`, carried through unread.
#[verifier::external_type_specification]
#[verifier::external_body]
pub struct ExDecodeError(base64::DecodeError);

/// What the standard base64 engine decodes `s` to, `None` when it rejects
/// it.
pub uninterp spec fn standard_base64(s: Seq<char>) -> Option<Seq<u8>>;

/// Relies on `base64::decode` (the standard alphabet with padding): the
/// decoded bytes, or its error; empty text decodes to no bytes.
#[verifier::external_body]
#[allow(deprecated)]
fn base64_decode(s: &str) -> (r: Result<Vec<u8>, base64::DecodeError>)
    ensures
        match r {
            Ok(v) => standard_base64(s@) == Some(v@),
            Err(_) => standard_base64(s@) is None,
        },
        r is Err ==> s@.len() > 0,
        r matches Ok(v) ==> (s@.len() == 0 ==> v@.len() == 0),
{
    base64::decode(s)
}

/// Why a chunk was refused.
#[derive(Clone, Copy, Debug, PartialEq, Eq)]
pub enum UploadError {
    /// The chunk is not valid base64.
    BadChunk,
}

/// Decodes one base64 chunk of an upload.
pub fn decode_chunk(chunk_base64: &str) -> (r: Result<Vec<u8>, UploadError>)
    ensures
        match r {
            Ok(v) => standard_base64(chunk_base64@) == Some(v@),
            Err(e) => standard_base64(chunk_base64@) is None && e == UploadError::BadChunk,
        },
{
    match base64_decode(chunk_base64) {
        Ok(v) => Ok(v),
        Err(_) => Err(UploadError::BadChunk),
    }
}

/// Name of a finished upload in the temporary directory.
pub open spec fn upload_file_name_of(session_id: Seq<char>, suffix: Seq<char>) -> Seq<char> {
    "silence_cutter_upload_"@ + session_id + suffix
}

pub fn upload_file_name(session_id: &str, suffix: &str) -> (r: String)
    ensures
        r@ == upload_file_name_of(session_id@, suffix@),
{
    let mut s = String::from_str("silence_cutter_upload_");
    s.append(session_id);
    s.append(suffix);
    s
}

} // verus!
