use silence_cutter::pcm::{chunk_peaks, reported_peaks, AudioData, PcmStream};
use silence_cutter::wav::{parse_wav, WavError};

fn le(samples: &[i16]) -> Vec<u8> {
    samples.iter().flat_map(|s| s.to_le_bytes()).collect()
}

#[test]
fn stream_decodes_across_odd_reads() {
    let samples: Vec<i16> = (0..1000).map(|i| ((i * 37) % 2000 - 1000) as i16).collect();
    let bytes = le(&samples);
    let mut st = PcmStream::new(500);
    let mut batches = Vec::new();
    for piece in bytes.chunks(7) {
        batches.extend(st.feed(piece));
    }
    assert_eq!(st.samples_decoded(), 1000);
    let out = st.finish();
    assert_eq!(out.samples, samples);
    // 500 Hz: windows of 10 samples, 100 peaks, 10 batches of 10
    assert_eq!(out.peaks.len(), 100);
    assert_eq!(batches.len(), 10);
    for (j, b) in batches.iter().enumerate() {
        assert_eq!(b.peaks, out.peaks[j * 10..j * 10 + 10].to_vec());
        assert_eq!(b.samples_decoded, (j + 1) * 100);
    }
    let first = samples[0..10].iter().map(|s| s.unsigned_abs()).max().unwrap();
    assert_eq!(out.peaks[0], first);
}

#[test]
fn stream_keeps_trailing_odd_byte_out() {
    let mut st = PcmStream::new(16000);
    assert!(st.feed(&[0x00, 0x80, 0xff]).is_empty());
    assert_eq!(st.samples_decoded(), 1);
    st.feed(&[0x7f]);
    let out = st.finish();
    assert_eq!(out.samples, vec![-32768, 32767]);
    assert!(out.peaks.is_empty());
}

#[test]
fn envelope_reported_only_up_to_limit() {
    assert_eq!(reported_peaks(vec![1, 2, 3]), vec![1, 2, 3]);
    assert!(reported_peaks(vec![0; 500001]).is_empty());
    assert_eq!(reported_peaks(vec![0; 500000]).len(), 500000);
}

#[test]
fn chunk_envelope_includes_short_tail() {
    let s = [1i16, -9, 3, 4, -2, 7, 0];
    assert_eq!(chunk_peaks(&s, 3), vec![9, 7, 0]);
    let a = AudioData::summary("/x.mp4".into(), 16000, 1_500_000, vec![9, 7], "WAV");
    assert_eq!(a.channels, 1);
    assert_eq!(a.bit_depth, 16);
    assert_eq!(a.format, "WAV");
    assert!(a.samples.is_none());
}

fn wav(channels: u16, bits: u16, data: &[u8], extra: &[u8]) -> Vec<u8> {
    let mut fmt = Vec::new();
    fmt.extend(1u16.to_le_bytes());
    fmt.extend(channels.to_le_bytes());
    fmt.extend(16000u32.to_le_bytes());
    fmt.extend((16000u32 * channels as u32 * 2).to_le_bytes());
    fmt.extend((channels * 2).to_le_bytes());
    fmt.extend(bits.to_le_bytes());
    let mut body = Vec::new();
    body.extend(b"WAVE");
    body.extend(b"fmt ");
    body.extend((fmt.len() as u32).to_le_bytes());
    body.extend(&fmt);
    body.extend(extra);
    body.extend(b"data");
    body.extend((data.len() as u32).to_le_bytes());
    body.extend(data);
    let mut out = Vec::new();
    out.extend(b"RIFF");
    out.extend((body.len() as u32).to_le_bytes());
    out.extend(body);
    out
}

#[test]
fn wav_mono_samples() {
    let data = le(&[1, -2, 300, -32768]);
    assert_eq!(parse_wav(&wav(1, 16, &data, &[])), Ok(vec![1, -2, 300, -32768]));
}

#[test]
fn wav_stereo_keeps_first_channel_and_skips_odd_chunks() {
    let data = le(&[10, 20, -30, -40]);
    let mut extra = Vec::new();
    extra.extend(b"LIST");
    extra.extend(3u32.to_le_bytes());
    extra.extend([1, 2, 3, 0]);
    assert_eq!(parse_wav(&wav(2, 16, &data, &extra)), Ok(vec![10, -30]));
}

#[test]
fn wav_errors() {
    assert_eq!(parse_wav(b"RIFF"), Err(WavError::TooShort));
    assert_eq!(parse_wav(b"RIFX\0\0\0\0WAVE"), Err(WavError::NotRiff));
    assert_eq!(parse_wav(b"RIFF\0\0\0\0WAVX"), Err(WavError::NotWave));
    assert_eq!(parse_wav(&wav(1, 8, &[1, 2], &[])), Err(WavError::UnsupportedBitDepth(8)));
    assert_eq!(parse_wav(&wav(0, 16, &[1, 2], &[])), Err(WavError::NoChannels));
    assert_eq!(parse_wav(&wav(1, 16, &[], &[])), Err(WavError::NoDataChunk));
    let mut cut = wav(1, 16, &[1, 2, 3, 4], &[]);
    cut.truncate(cut.len() - 2);
    assert_eq!(parse_wav(&cut), Err(WavError::Truncated));
    let mut short = Vec::new();
    short.extend(b"RIFF");
    short.extend(16u32.to_le_bytes());
    short.extend(b"WAVEfmt ");
    short.extend(4u32.to_le_bytes());
    short.extend([1, 0, 1, 0]);
    assert_eq!(parse_wav(&short), Err(WavError::FormatChunkTooShort));
}
