use silence_cutter::media::{
    content_range, mime_type_for, parse_range_header, resolve_range, response_headers,
    status_code, stream_path_from_uri, RangeReply, RangeSpec,
};

fn reply_for(header: Option<&str>, len: u64) -> RangeReply {
    resolve_range(header.and_then(parse_range_header), len)
}

#[test]
fn scenario_suffix_range_on_large_file() {
    let r = reply_for(Some("bytes=-500"), 20971752);
    assert_eq!(status_code(&r), 206);
    assert_eq!(content_range(&r), "bytes 20971252-20971751/20971752");
    let h = response_headers(&r, "video/mp4");
    assert!(h.contains(&("Content-Length".to_string(), "500".to_string())));
    assert!(h.contains(&("Content-Range".to_string(), "bytes 20971252-20971751/20971752".to_string())));
    assert!(h.contains(&("Accept-Ranges".to_string(), "bytes".to_string())));
    assert!(h.contains(&("Access-Control-Allow-Origin".to_string(), "*".to_string())));
    assert!(h.contains(&(
        "Access-Control-Allow-Headers".to_string(),
        "Range, Accept-Encoding".to_string()
    )));
    assert!(h.contains(&(
        "Access-Control-Expose-Headers".to_string(),
        "Content-Range, Content-Length, Accept-Ranges".to_string()
    )));
}

#[test]
fn consecutive_ranges_reassemble_the_file() {
    let file: Vec<u8> = (0..12345u32).map(|i| (i * 7 % 251) as u8).collect();
    let k = 1000u64;
    let mut out = Vec::new();
    let mut pos = 0u64;
    while pos < file.len() as u64 {
        let h = format!("bytes={}-{}", pos, pos + k - 1);
        match reply_for(Some(&h), file.len() as u64) {
            RangeReply::Partial { start, length, .. } => {
                out.extend_from_slice(&file[start as usize..(start + length) as usize]);
            }
            RangeReply::NotSatisfiable { .. } => panic!("range refused"),
        }
        pos += k;
    }
    assert_eq!(out, file);
}

#[test]
fn no_range_serves_first_two_mib() {
    assert_eq!(
        reply_for(None, 10_000_000),
        RangeReply::Partial { start: 0, length: 2097152, total: 10_000_000 }
    );
    let small = reply_for(None, 100);
    assert_eq!(content_range(&small), "bytes 0-99/100");
    let empty = reply_for(None, 0);
    assert_eq!(content_range(&empty), "bytes 0-0/0");
    assert_eq!(status_code(&empty), 206);
    assert_eq!(reply_for(Some("items=0-5"), 100), small);
}

#[test]
fn explicit_ranges_are_clamped() {
    assert_eq!(
        reply_for(Some("bytes=0-"), 20_000_000),
        RangeReply::Partial { start: 0, length: 5242880, total: 20_000_000 }
    );
    assert_eq!(
        reply_for(Some(" bytes= 10-19 "), 100),
        RangeReply::Partial { start: 10, length: 10, total: 100 }
    );
    assert_eq!(
        reply_for(Some("bytes=90-500"), 100),
        RangeReply::Partial { start: 90, length: 10, total: 100 }
    );
    assert_eq!(
        reply_for(Some("bytes=10-abc"), 100),
        RangeReply::Partial { start: 10, length: 90, total: 100 }
    );
    assert_eq!(
        reply_for(Some("bytes=-1000"), 100),
        RangeReply::Partial { start: 0, length: 100, total: 100 }
    );
}

#[test]
fn unsatisfiable_ranges() {
    let r = reply_for(Some("bytes=200-300"), 100);
    assert_eq!(r, RangeReply::NotSatisfiable { total: 100 });
    assert_eq!(status_code(&r), 416);
    assert_eq!(content_range(&r), "bytes */100");
    assert_eq!(reply_for(Some("bytes=-"), 100), RangeReply::NotSatisfiable { total: 100 });
    assert_eq!(reply_for(Some("bytes=0-10"), 0), RangeReply::NotSatisfiable { total: 0 });
    let h = response_headers(&r, "video/mp4");
    assert!(!h.iter().any(|(k, _)| k == "Content-Length"));
    assert!(h.iter().any(|(k, _)| k == "Access-Control-Allow-Origin"));
}

#[test]
fn range_header_forms() {
    assert_eq!(parse_range_header("bytes=-500"), Some(RangeSpec::Suffix(500)));
    assert_eq!(
        parse_range_header("bytes=5-"),
        Some(RangeSpec::Bounded { start: 5, end: None })
    );
    assert_eq!(
        parse_range_header("bytes=5-9-12"),
        Some(RangeSpec::Bounded { start: 5, end: Some(9) })
    );
    assert_eq!(
        parse_range_header("bytes=x-9"),
        Some(RangeSpec::Bounded { start: 0, end: Some(9) })
    );
    assert_eq!(parse_range_header("bits=0-1"), None);
}

#[test]
fn mime_types_by_extension() {
    assert_eq!(mime_type_for("/a/b.MP4"), "video/mp4");
    assert_eq!(mime_type_for("/a/b.mp3"), "audio/mpeg");
    assert_eq!(mime_type_for("/a/b.ogv"), "video/ogg");
    assert_eq!(mime_type_for("/a/b.qt"), "video/quicktime");
    assert_eq!(mime_type_for("/a/b.mkv"), "video/x-matroska");
    assert_eq!(mime_type_for("/a/b.avi"), "video/x-msvideo");
    assert_eq!(mime_type_for("/a/b.m4a"), "audio/mp4");
    assert_eq!(mime_type_for("/a/b.xyz"), "application/octet-stream");
    assert_eq!(mime_type_for("/a/noext"), "application/octet-stream");
}

#[test]
fn uri_paths_are_decoded_and_anchored() {
    assert_eq!(
        stream_path_from_uri("video-stream://localhost/Users/me/My%20Video.mp4"),
        Some("/Users/me/My Video.mp4".to_string())
    );
    assert_eq!(
        stream_path_from_uri("video-stream://localhost%2Ftmp%2Fa.mp4"),
        Some("/tmp/a.mp4".to_string())
    );
    assert_eq!(stream_path_from_uri("video-stream:/tmp/a.mp4"), Some("/tmp/a.mp4".to_string()));
    assert_eq!(stream_path_from_uri("video-stream:tmp/a.mp4"), Some("/tmp/a.mp4".to_string()));
    assert_eq!(
        stream_path_from_uri("video-stream://localhost/C:%5Cclip.mp4"),
        Some("C:\\clip.mp4".to_string())
    );
    assert_eq!(stream_path_from_uri("https://example.com/a.mp4"), None);
}
