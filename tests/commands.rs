use silence_cutter::detect::SilenceSegment;
use silence_cutter::plan::{plan_batches, SpeechSegment};
use silence_cutter::render::{
    batch_args, batch_filter_graph, build_filter_complex, concat_list, part_file_name, probe_args, stitch_args,
    stream_extract_args, wav_extract_args, VideoEncoder,
};

fn sp(a: u64, b: u64) -> SpeechSegment {
    SpeechSegment { start_us: a, end_us: b }
}

#[test]
fn filter_graph_audio_only() {
    let g = batch_filter_graph(&[sp(2_000_000, 3_500_000), sp(4_000_400, 5_000_000)], 2_000_000, false);
    assert_eq!(
        g,
        "[0:a]atrim=start=0.000:end=1.500,asetpts=PTS-STARTPTS[a0];\
[0:a]atrim=start=2.000:end=3.000,asetpts=PTS-STARTPTS[a1];\
[a0][a1]concat=n=2:v=0:a=1[fa]"
    );
}

#[test]
fn filter_graph_with_video() {
    let g = batch_filter_graph(&[sp(1_000_000, 2_000_600)], 1_000_000, true);
    assert_eq!(
        g,
        "[0:v]trim=start=0.000:end=1.001,setpts=PTS-STARTPTS[v0];\
[0:a]atrim=start=0.000:end=1.001,asetpts=PTS-STARTPTS[a0];\
[v0]concat=n=1:v=1:a=0[fv];[a0]concat=n=1:v=0:a=1[fa]"
    );
}

#[test]
fn batch_arguments() {
    let batches = plan_batches(&[sp(1_250_000, 2_000_000)]);
    let a = batch_args("in.mov", "/t/part_0.ts", &batches[0], true, VideoEncoder::Software);
    assert_eq!(&a[0..5], &["-nostdin", "-ss", "1.250000", "-i", "in.mov"]);
    assert_eq!(a[5], "-filter_complex");
    assert_eq!(
        &a[7..],
        &[
            "-map", "[fv]", "-c:v", "libx264", "-preset", "ultrafast", "-map", "[fa]", "-c:a",
            "aac", "-b:a", "128k", "-f", "mpegts", "-y", "/t/part_0.ts"
        ]
    );
    let h = batch_args("in.mov", "o.ts", &batches[0], true, VideoEncoder::Hardware);
    assert_eq!(&h[9..13], &["-c:v", "h264_videotoolbox", "-b:v", "5000k"]);
    let audio = batch_args("in.wav", "o.ts", &batches[0], false, VideoEncoder::Hardware);
    assert_eq!(audio.len(), 17);
    assert_eq!(audio[7], "-map");
    assert_eq!(audio[8], "[fa]");
}

#[test]
fn stitch_list_and_arguments() {
    assert_eq!(part_file_name(12), "part_12.ts");
    assert_eq!(concat_list(3), "file 'part_0.ts'\nfile 'part_1.ts'\nfile 'part_2.ts'\n");
    assert_eq!(concat_list(0), "");
    assert_eq!(
        stitch_args("/t/list.txt", "/o.mp4"),
        vec![
            "-f", "concat", "-safe", "0", "-i", "/t/list.txt", "-c", "copy", "-movflags",
            "+faststart", "-y", "/o.mp4"
        ]
    );
}

#[test]
fn extraction_and_probe_arguments() {
    assert_eq!(
        stream_extract_args("a.mp4", 16000),
        vec!["-i", "a.mp4", "-vn", "-ac", "1", "-ar", "16000", "-f", "s16le", "-"]
    );
    assert_eq!(
        wav_extract_args("a.mp4", 8000, "/tmp/x.wav"),
        vec![
            "-i", "a.mp4", "-vn", "-ac", "1", "-ar", "8000", "-acodec", "pcm_s16le", "-f", "wav",
            "-progress", "pipe:2", "-y", "/tmp/x.wav"
        ]
    );
    assert_eq!(
        probe_args("a.mp4"),
        vec!["-v", "quiet", "-print_format", "json", "-show_format", "-show_streams", "a.mp4"]
    );
}

#[test]
fn single_pass_graph_joins_pieces() {
    let sil = [SilenceSegment::new(1_000_000, 2_000_000, 0)];
    assert_eq!(
        build_filter_complex(&sil, 3_000_000, true),
        "[0:v]trim=start=0.000000:end=1.000000,setpts=PTS-STARTPTS[v0];\
[0:a]atrim=start=0.000000:end=1.000000,asetpts=PTS-STARTPTS[a0];\
[0:v]trim=start=2.000000:end=3.000000,setpts=PTS-STARTPTS[v1];\
[0:a]atrim=start=2.000000:end=3.000000,asetpts=PTS-STARTPTS[a1];\
[v0][a0][v1][a1]concat=n=2:v=1:a=1[v][a]"
    );
}

#[test]
fn single_pass_graph_one_piece_and_none() {
    let sil = [SilenceSegment::new(0, 1_000_000, 0)];
    assert_eq!(
        build_filter_complex(&sil, 3_000_000, false),
        "[0:a]atrim=start=1.000000:end=3.000000,asetpts=PTS-STARTPTS[a0];[a0]copy[a]"
    );
    let all = [SilenceSegment::new(0, 3_000_000, 0)];
    assert_eq!(build_filter_complex(&all, 3_000_000, true), "[0:v]copy[v];[0:a]copy[a]");
    assert_eq!(build_filter_complex(&all, 3_000_000, false), "[0:a]copy[a]");
}
