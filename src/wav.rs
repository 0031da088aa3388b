//! Reading 16-bit PCM samples out of a RIFF/WAVE file image.
use vstd::prelude::*;
use vstd::arithmetic::div_mod::*;
use crate::pcm::le_i16;

verus! {

/// Why a WAVE image could not be read.
#[derive(Clone, Copy, Debug, PartialEq, Eq)]
pub enum WavError {
    /// Shorter than the 12-byte RIFF header.
    TooShort,
    NotRiff,
    NotWave,
    /// A chunk runs past the end of the image.
    Truncated,
    /// The `fmt ` chunk is shorter than 16 bytes.
    FormatChunkTooShort,
    NoDataChunk,
    UnsupportedBitDepth(u16),
    NoChannels,
}

pub open spec fn u16_le(b: Seq<u8>, i: int) -> nat {
    b[i] as nat + 256 * (b[i + 1] as nat)
}

pub open spec fn u32_le(b: Seq<u8>, i: int) -> nat {
    b[i] as nat + 256 * (b[i + 1] as nat) + 65536 * (b[i + 2] as nat) + 16777216 * (b[i + 3] as nat)
}

pub open spec fn tag_riff() -> Seq<u8> {
    seq![0x52u8, 0x49u8, 0x46u8, 0x46u8]
}

pub open spec fn tag_wave() -> Seq<u8> {
    seq![0x57u8, 0x41u8, 0x56u8, 0x45u8]
}

pub open spec fn tag_fmt() -> Seq<u8> {
    seq![0x66u8, 0x6du8, 0x74u8, 0x20u8]
}

pub open spec fn tag_data() -> Seq<u8> {
    seq![0x64u8, 0x61u8, 0x74u8, 0x61u8]
}

/// What the chunk walk has found: channel count and bit depth from the
/// last `fmt ` chunk, offset and size of the last `data` chunk.
pub struct WavLayout {
    pub channels: int,
    pub bits: int,
    pub data_offset: int,
    pub data_size: int,
}

pub open spec fn empty_layout() -> WavLayout {
    WavLayout { channels: 0, bits: 0, data_offset: 0, data_size: 0 }
}

/// Walks the chunks from `pos` while `pos` is below `limit` and a whole
/// chunk header is left; chunks are padded to even sizes.
pub open spec fn walk(b: Seq<u8>, pos: int, limit: int, found: WavLayout) -> Result<WavLayout, WavError>
    decreases limit - pos,
{
    if pos >= limit || pos + 8 > b.len() || pos < 0 {
        Ok(found)
    } else {
        let id = b.subrange(pos, pos + 4);
        let size = u32_le(b, pos + 4) as int;
        let next = pos + 8 + size + size % 2;
        let step = if id == tag_fmt() {
            if pos + 8 + size > b.len() {
                Err(WavError::Truncated)
            } else if size < 16 {
                Err(WavError::FormatChunkTooShort)
            } else {
                Ok(
                    WavLayout {
                        channels: u16_le(b, pos + 10) as int,
                        bits: u16_le(b, pos + 22) as int,
                        ..found
                    },
                )
            }
        } else if id == tag_data() {
            Ok(WavLayout { data_offset: pos + 8, data_size: size, ..found })
        } else {
            Ok(found)
        };
        match step {
            Err(e) => Err(e),
            Ok(l) => if next >= limit {
                Ok(l)
            } else {
                walk(b, next, limit, l)
            },
        }
    }
}

/// The samples of the first channel of a 16-bit WAVE image.
pub open spec fn wav_samples(b: Seq<u8>) -> Result<Seq<i16>, WavError> {
    if b.len() < 12 {
        Err(WavError::TooShort)
    } else if b.subrange(0, 4) != tag_riff() {
        Err(WavError::NotRiff)
    } else if b.subrange(8, 12) != tag_wave() {
        Err(WavError::NotWave)
    } else {
        match walk(b, 12, u32_le(b, 4) + 8int, empty_layout()) {
            Err(e) => Err(e),
            Ok(l) => wav_samples_of_layout(b, l),
        }
    }
}

/// The samples described by a finished chunk walk.
pub open spec fn wav_samples_of_layout(b: Seq<u8>, l: WavLayout) -> Result<Seq<i16>, WavError> {
            if l.data_size == 0 {
                Err(WavError::NoDataChunk)
            } else if l.bits != 16 {
                Err(WavError::UnsupportedBitDepth(l.bits as u16))
            } else if l.data_offset + l.data_size > b.len() {
                Err(WavError::Truncated)
            } else if l.channels == 0 {
                Err(WavError::NoChannels)
            } else {
                Ok(
                    Seq::new(
                        (l.data_size / 2 / l.channels) as nat,
                        |i: int|
                            le_i16(
                                b[l.data_offset + i * l.channels * 2],
                                b[l.data_offset + i * l.channels * 2 + 1],
                            ),
                    ),
                )
            }
}

fn read_u16(b: &[u8], i: usize) -> (r: u64)
    requires
        i + 2 <= b@.len(),
    ensures
        r == u16_le(b@, i as int),
{
    b[i] as u64 + 256 * (b[i + 1] as u64)
}

fn read_u32(b: &[u8], i: usize) -> (r: u64)
    requires
        i + 4 <= b@.len(),
    ensures
        r == u32_le(b@, i as int),
{
    b[i] as u64 + 256 * (b[i + 1] as u64) + 65536 * (b[i + 2] as u64) + 16777216 * (b[i + 3] as u64)
}

fn tag_is(b: &[u8], i: usize, t0: u8, t1: u8, t2: u8, t3: u8) -> (r: bool)
    requires
        i + 4 <= b@.len(),
    ensures
        r == (b@.subrange(i as int, i + 4) == seq![t0, t1, t2, t3]),
{
    let r = b[i] == t0 && b[i + 1] == t1 && b[i + 2] == t2 && b[i + 3] == t3;
    proof {
        if r {
            assert(b@.subrange(i as int, i + 4) =~= seq![t0, t1, t2, t3]);
        } else {
            let s = b@.subrange(i as int, i + 4);
            assert(s[0] != t0 || s[1] != t1 || s[2] != t2 || s[3] != t3);
        }
    }
    r
}

/// Reads the samples of a WAVE file image: walks its chunks, takes the
/// channel count and bit depth from `fmt ` and the samples from `data`,
/// keeping the first channel of each frame. Only 16-bit PCM is read.
pub fn parse_wav(bytes: &[u8]) -> (r: Result<Vec<i16>, WavError>)
    ensures
        match r {
            Ok(v) => wav_samples(bytes@) == Ok::<Seq<i16>, WavError>(v@),
            Err(e) => wav_samples(bytes@) == Err::<Seq<i16>, WavError>(e),
        },
{
    let n = bytes.len();
    if n < 12 {
        return Err(WavError::TooShort);
    }
    if !tag_is(bytes, 0, 0x52, 0x49, 0x46, 0x46) {
        return Err(WavError::NotRiff);
    }
    if !tag_is(bytes, 8, 0x57, 0x41, 0x56, 0x45) {
        return Err(WavError::NotWave);
    }
    let limit: u64 = read_u32(bytes, 4) + 8;
    let mut pos: u64 = 12;
    let mut channels: u64 = 0;
    let mut bits: u64 = 0;
    let mut data_offset: u64 = 0;
    let mut data_size: u64 = 0;
    let ghost b = bytes@;
    let ghost start = empty_layout();
    while pos < limit && pos + 8 <= n as u64
        invariant
            b == bytes@,
            n == b.len(),
            n >= 12,
            b.subrange(0, 4) == tag_riff(),
            b.subrange(8, 12) == tag_wave(),
            limit == u32_le(b, 4) + 8,
            limit <= 0x1_0000_0007u64,
            pos <= 0x2_0000_0020u64,
            channels < 65536,
            bits < 65536,
            data_size < 0x1_0000_0000u64,
            data_offset <= 0x2_0000_0030u64,
            start == empty_layout(),
            walk(b, 12, limit as int, start) == walk(
                b,
                pos as int,
                limit as int,
                WavLayout {
                    channels: channels as int,
                    bits: bits as int,
                    data_offset: data_offset as int,
                    data_size: data_size as int,
                },
            ),
        decreases limit - pos,
    {
        let p = pos as usize;
        let size = read_u32(bytes, p + 4);
        let next = pos + 8 + size + size % 2;
        if tag_is(bytes, p, 0x66, 0x6d, 0x74, 0x20) {
            if pos + 8 + size > n as u64 {
                return Err(WavError::Truncated);
            }
            if size < 16 {
                return Err(WavError::FormatChunkTooShort);
            }
            channels = read_u16(bytes, p + 10);
            bits = read_u16(bytes, p + 22);
        } else if tag_is(bytes, p, 0x64, 0x61, 0x74, 0x61) {
            data_offset = pos + 8;
            data_size = size;
        }
        pos = if next > limit {
            limit
        } else {
            next
        };
    }
    if data_size == 0 {
        return Err(WavError::NoDataChunk);
    }
    if bits != 16 {
        return Err(WavError::UnsupportedBitDepth(bits as u16));
    }
    if data_offset + data_size > n as u64 {
        return Err(WavError::Truncated);
    }
    if channels == 0 {
        return Err(WavError::NoChannels);
    }
    let off = data_offset as usize;
    let count = (data_size / 2 / channels) as usize;
    let stride = (channels * 2) as usize;
    let ghost sp = Seq::new(
        count as nat,
        |i: int| le_i16(b[off + i * channels * 2], b[off + i * channels * 2 + 1]),
    );
    let mut out: Vec<i16> = Vec::new();
    let mut i: usize = 0;
    while i < count
        invariant
            b == bytes@,
            n == b.len(),
            off + data_size <= n,
            channels >= 1,
            channels < 65536,
            stride == channels * 2,
            count == data_size / 2 / channels,
            sp.len() == count,
            i <= count,
            forall|k: int| 0 <= k < count ==> #[trigger] sp[k] == le_i16(b[off + k * channels * 2], b[off + k * channels * 2 + 1]),
            out@ == sp.subrange(0, i as int),
        decreases count - i,
    {
        proof {
            lemma_fundamental_div_mod(data_size as int, 2);
            lemma_fundamental_div_mod((data_size / 2) as int, channels as int);
            assert(i * channels * 2 + 2 <= data_size) by (nonlinear_arith)
                requires
                    i < count,
                    count == data_size / 2 / channels,
                    channels >= 1,
                    data_size / 2 == channels * (data_size / 2 / channels) + (data_size / 2) % channels,
                    (data_size / 2) % channels >= 0,
                    data_size == 2 * (data_size / 2) + data_size % 2,
                    data_size % 2 >= 0,
            ;
            assert(i * stride == i * channels * 2) by (nonlinear_arith)
                requires
                    stride == channels * 2,
            ;
        }
        let at = off + i * stride;
        let lo = bytes[at];
        let hi = bytes[at + 1];
        let v: i32 = lo as i32 + 256 * (hi as i32);
        let x: i16 = if v >= 32768 {
            (v - 65536) as i16
        } else {
            v as i16
        };
        out.push(x);
        proof {
            assert(out@ =~= sp.subrange(0, i + 1));
        }
        i = i + 1;
    }
    proof {
        assert(out@ =~= sp);
        assert(wav_samples(b) == Ok::<Seq<i16>, WavError>(sp));
    }
    Ok(out)
}

} // verus!
