use silence_cutter::error::AppError;
use silence_cutter::naming::{
    batch_output_path, generate_output_path, generate_output_path_at, get_temp_file_path,
    temp_file_path_from, LocalStamp,
};
use silence_cutter::paths::{file_name, file_stem, get_file_extension, is_video_file};
use silence_cutter::probe::{
    video_info_from_probe, Framerate, ProbeFormat, ProbeOutput, ProbeStream,
};
use silence_cutter::progress::{
    extraction_progress, format_time, parse_progress_time, parse_time, progress_time_field,
};
use silence_cutter::system::{
    extract_ffmpeg_version, ffmpeg_info, sidecar_names, AppState, ExportState, FfmpegRun,
    SystemInfo,
};
use silence_cutter::upload::{
    decode_chunk, gen_session_id, session_id_from, upload_file_name, upload_suffix, UploadError,
};

#[test]
fn file_name_pieces() {
    assert_eq!(get_file_extension("/a/b/clip.Final.MP4"), Some("MP4"));
    assert_eq!(get_file_extension("/a/.hidden"), None);
    assert_eq!(get_file_extension("/a/noext"), None);
    assert_eq!(get_file_extension("/a/b.mp4/"), Some("mp4"));
    assert_eq!(file_stem("/a/clip.tar.gz"), Some("clip.tar"));
    assert_eq!(file_name("/a/.."), None);
    assert_eq!(file_name("movie.mkv"), Some("movie.mkv"));
    assert!(is_video_file("/x/y.MOV"));
    assert!(is_video_file("z.mpeg"));
    assert!(!is_video_file("z.mp3"));
    assert!(!is_video_file("mp4"));
}

#[test]
fn output_path_names() {
    let t = LocalStamp { year: 2024, month: 3, day: 7, hour: 9, minute: 5, second: 1 };
    assert_eq!(generate_output_path_at("/v/talk.mov", t), "/v/talk_20240307_090501_cut.mov");
    assert_eq!(generate_output_path_at("talk", t), "talk_20240307_090501_cut.mp4");
    assert_eq!(generate_output_path_at("", t), "./output_20240307_090501_cut.mp4");
    let p = generate_output_path("/v/talk.mov");
    assert!(p.starts_with("/v/talk_") && p.ends_with("_cut.mov"));
    assert_eq!(p.len(), "/v/talk_20240307_090501_cut.mov".len());
    assert_eq!(temp_file_path_from(1700000000, 42, "wav"), "/tmp/silence_cutter_1700000000_42.wav");
    assert!(get_temp_file_path("wav").starts_with("/tmp/silence_cutter_"));
    assert_eq!(batch_output_path("/out", 0), "/out/processed_1.mp4");
}

#[test]
fn progress_lines() {
    let line = "frame=1 size=12kB time=00:01:05.50 bitrate=1.4kbits/s speed=2.5x";
    assert_eq!(progress_time_field(line), Some("00:01:05.50".to_string()));
    let p = extraction_progress(line, 130_000_000).unwrap();
    assert_eq!(p.current_us, 65_500_000);
    assert_eq!(p.percent_bp, 5038);
    assert_eq!(p.speed_milli, 2500);
    assert_eq!(p.eta_secs, 25);
    assert_eq!(p.message, "正在提取音频... 速度: 2.50x, 预计剩余: 25秒");
    let slow = extraction_progress("time=10 speed=0.5x", 200_000_000).unwrap();
    assert_eq!(slow.eta_secs, 380);
    assert_eq!(slow.message, "正在提取音频... 速度: 0.50x, 预计剩余: 6分20秒");
    let nospeed = extraction_progress("out_time time=1:00.0", 0).unwrap();
    assert_eq!(nospeed.percent_bp, 9500);
    assert_eq!(nospeed.speed_milli, 1000);
    assert!(extraction_progress("speed=1x", 10).is_none());
    assert!(extraction_progress("time=N/A", 10).is_none());
}

#[test]
fn clock_times() {
    assert_eq!(parse_progress_time("01:02:03.5"), Some(3_723_500_000));
    assert_eq!(parse_progress_time("2:03"), Some(123_000_000));
    assert_eq!(parse_progress_time("7.25"), Some(7_250_000));
    assert_eq!(parse_progress_time("1:2:3:4"), None);
    assert_eq!(parse_progress_time("."), None);
    assert_eq!(parse_time("01:02.500"), Some(62_500_000));
    assert_eq!(parse_time("1:01:02.5"), Some(3_662_005_000));
    assert_eq!(parse_time("12"), None);
    assert_eq!(parse_time("a:b.c"), None);
    assert_eq!(format_time(62_500_000), "01:02.500");
    assert_eq!(format_time(3_723_004_999), "01:02:03.004");
    assert_eq!(format_time(0), "00:00.000");
}

#[test]
fn probe_report_to_video_info() {
    let video = ProbeStream {
        codec_type: Some("video".into()),
        codec_name: Some("h264".into()),
        width: Some(1920),
        height: Some(1080),
        avg_frame_rate: Some("30000/1001".into()),
        duration: Some("12.500000".into()),
    };
    let audio = ProbeStream {
        codec_type: Some("audio".into()),
        codec_name: Some("aac".into()),
        width: None,
        height: None,
        avg_frame_rate: Some("0/0".into()),
        duration: None,
    };
    let probe = ProbeOutput {
        streams: Some(vec![video.clone(), audio.clone()]),
        format: Some(ProbeFormat {
            duration: Some("N/A".into()),
            format_name: Some("mov,mp4".into()),
            bit_rate: Some("1200000".into()),
        }),
    };
    let info = video_info_from_probe("/m/clip.mp4", 4096, &probe);
    assert_eq!(info.filename, "clip.mp4");
    assert_eq!(info.size_bytes, 4096);
    assert_eq!(info.duration_us, 12_500_000);
    assert_eq!(info.format.as_deref(), Some("mov,mp4"));
    assert_eq!(info.codec_video.as_deref(), Some("h264"));
    assert_eq!(info.codec_audio.as_deref(), Some("aac"));
    assert_eq!(info.resolution, Some((1920, 1080)));
    assert_eq!(info.framerate, Some(Framerate { num: 30_000_000_000, den: 1_001_000_000 }));
    assert_eq!(info.bitrate, Some(1_200_000));
    assert!(info.has_video && info.has_audio);
    let bare = ProbeOutput { streams: Some(vec![audio]), format: None };
    let info = video_info_from_probe("/", 0, &bare);
    assert_eq!(info.filename, "unknown");
    assert_eq!(info.duration_us, 0);
    assert!(!info.has_video && info.has_audio);
    assert_eq!(info.framerate, None);
}

#[test]
fn ffmpeg_version_and_info() {
    assert_eq!(
        extract_ffmpeg_version("ffmpeg version 6.1.1 Copyright (c) 2000-2023"),
        Some("6.1.1".to_string())
    );
    assert_eq!(extract_ffmpeg_version("ffmpeg version n6.1 Copyright"), None);
    assert_eq!(extract_ffmpeg_version("ffprobe version 6.1"), None);
    let info = ffmpeg_info(
        Some("/usr/bin/ffmpeg".into()),
        FfmpegRun::Ran { stdout: "ffmpeg version 7.0 Copyright\r\nbuilt with gcc\n".into() },
    );
    assert!(info.available);
    assert_eq!(info.version.as_deref(), Some("7.0"));
    assert_eq!(info.message, "FFmpeg 可用: ffmpeg version 7.0 Copyright");
    let missing = ffmpeg_info(None, FfmpegRun::NotFound);
    assert!(!missing.available);
    assert_eq!(missing.message, "FFmpeg 未安装，请先安装 FFmpeg");
    let failed = ffmpeg_info(None, FfmpegRun::Failed { reason: "denied".into() });
    assert_eq!(failed.message, "FFmpeg 检查失败: denied");
    let sys = SystemInfo::new("1.2.0", "linux", &info, "now".into());
    assert_eq!(sys.app_name, "Silence Cutter");
    assert_eq!(sys.ffmpeg_version.as_deref(), Some("7.0"));
}

#[test]
fn tool_discovery_names() {
    let n = sidecar_names("ffmpeg", "windows", "x86_64").unwrap();
    assert_eq!(n.plain, "ffmpeg.exe");
    assert_eq!(n.with_triple, "ffmpeg-x86_64-pc-windows-msvc.exe");
    let n = sidecar_names("ffprobe", "macos", "aarch64").unwrap();
    assert_eq!(n.with_triple, "ffprobe-aarch64-apple-darwin");
    assert!(sidecar_names("ffmpeg", "linux", "riscv64").is_none());
    let s = AppState::new(Some("/bin/ffmpeg".into()), None);
    assert!(!s.ffmpeg_available);
    let s = AppState::new(Some("/bin/ffmpeg".into()), Some("/bin/ffprobe".into()));
    assert!(s.ffmpeg_available);
}

#[test]
fn export_cancellation_flag() {
    let e = ExportState::new();
    assert!(!e.is_cancelled());
    e.cancel();
    assert!(e.is_cancelled());
    e.reset();
    assert!(!e.is_cancelled());
}

#[test]
fn upload_helpers() {
    assert_eq!(upload_suffix("talk.final.mp4"), ".mp4");
    assert_eq!(upload_suffix("noext"), ".noext");
    assert_eq!(session_id_from(255), "000000000000000000000000000000ff");
    let id = gen_session_id();
    assert_eq!(id.len(), 32);
    assert!(id.chars().all(|c| c.is_ascii_hexdigit() && !c.is_ascii_uppercase()));
    assert_eq!(decode_chunk("aGVsbG8="), Ok(b"hello".to_vec()));
    assert_eq!(decode_chunk(""), Ok(vec![]));
    assert_eq!(decode_chunk("***"), Err(UploadError::BadChunk));
    assert_eq!(upload_file_name("abc", ".mp4"), "silence_cutter_upload_abc.mp4");
}

#[test]
fn error_messages() {
    assert_eq!(AppError::Ffmpeg("exit 1".into()).message(), "FFmpeg错误: exit 1");
    assert_eq!(AppError::InvalidArgument("x".into()).message(), "参数错误: x");
    assert_eq!(AppError::Io("disk".into()).message(), "IO错误: disk");
}
