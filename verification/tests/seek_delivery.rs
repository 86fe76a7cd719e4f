use pharos_server::seek::{
    ByteRange, ContentRange, CutTolerance, DeliveryMime, DirectPlayDelivery, ResyncWitness,
    SeekAccuracy, SeekableDelivery, SegmentDelivery, Source,
};

fn item(container: Option<&str>, _video_codec: Option<&str>, path: &str) -> Source {
    Source { path: path.to_string(), container: container.map(String::from) }
}

#[test]
fn content_range_past_eof_is_unrepresentable() {
    // offset == total and offset > total both yield None → caller sends 416.
    assert!(ContentRange::from_offset(100, 100).is_none());
    assert!(ContentRange::from_offset(200, 100).is_none());
}

#[test]
fn content_range_is_always_206_with_known_length() {
    let cr = ContentRange::from_offset(10, 100).unwrap();
    assert_eq!(cr.status(), 206);
    assert_eq!(cr.content_length(), 90);
    assert_eq!(cr.offset(), 10);
    assert_eq!(cr.total(), 100);
    assert_eq!(cr.header_value(), "bytes 10-99/100");
}

#[test]
fn content_range_whole_file_still_206() {
    // A Range spanning the whole file is partial by
    // definition and must never be a 200.
    let cr = ContentRange::from_offset(0, 100).unwrap();
    assert_eq!(cr.status(), 206);
    assert_eq!(cr.header_value(), "bytes 0-99/100");
}

#[test]
fn content_range_window_caps_to_max_len() {
    // A window well inside the file is exactly max_len bytes.
    let cr = ContentRange::window(10, 1000, 100).unwrap();
    assert_eq!(cr.status(), 206);
    assert_eq!(cr.offset(), 10);
    assert_eq!(cr.end(), 109);
    assert_eq!(cr.content_length(), 100);
    assert_eq!(cr.header_value(), "bytes 10-109/1000");
}

#[test]
fn content_range_window_clamps_to_eof() {
    // Near EOF the window is shorter than max_len (never past the last byte).
    let cr = ContentRange::window(950, 1000, 100).unwrap();
    assert_eq!(cr.end(), 999);
    assert_eq!(cr.content_length(), 50);
    assert_eq!(cr.header_value(), "bytes 950-999/1000");
}

#[test]
fn content_range_window_rejects_past_eof_and_zero_len() {
    assert!(ContentRange::window(1000, 1000, 100).is_none()); // at EOF
    assert!(ContentRange::window(1001, 1000, 100).is_none()); // past EOF
    assert!(ContentRange::window(10, 1000, 0).is_none()); // zero cap
}

#[test]
fn byte_range_parses_open_and_closed() {
    assert_eq!(
        ByteRange::parse("bytes=100-"),
        Some(ByteRange {
            start: 100,
            end: None
        })
    );
    assert_eq!(
        ByteRange::parse("bytes=100-199"),
        Some(ByteRange {
            start: 100,
            end: Some(199)
        })
    );
    assert_eq!(
        ByteRange::parse("bytes=0-"),
        Some(ByteRange {
            start: 0,
            end: None
        })
    );
}

#[test]
fn byte_range_rejects_suffix_multi_and_garbage() {
    assert_eq!(ByteRange::parse("bytes=-500"), None); // suffix → NamedFile
    assert_eq!(ByteRange::parse("bytes=0-99,200-299"), None); // multi-range
    assert_eq!(ByteRange::parse("bytes=200-100"), None); // inverted
    assert_eq!(ByteRange::parse("bytes=abc"), None);
    assert_eq!(ByteRange::parse("items=0-5"), None); // wrong unit
}

#[test]
fn byte_range_served_len() {
    // Open-ended resolves to EOF.
    assert_eq!(
        ByteRange {
            start: 100,
            end: None
        }
        .served_len(1000),
        Some(900)
    );
    // Closed range is end-inclusive.
    assert_eq!(
        ByteRange {
            start: 100,
            end: Some(199)
        }
        .served_len(1000),
        Some(100)
    );
    // Start at/after EOF → None (→ 416).
    assert_eq!(
        ByteRange {
            start: 1000,
            end: None
        }
        .served_len(1000),
        None
    );
}

#[test]
fn delivery_mime_never_calls_a_matroska_webm() {
    // A vp9/av1 .mkv is NOT a WebM file. Serving it as `video/webm`
    // did not make Firefox play it (no Matroska demuxer, DocType checked),
    // it only misdescribed the bytes.
    let mkv_vp9 = item(Some("matroska,webm"), Some("vp9"), "/m/x.mkv");
    assert_eq!(
        DeliveryMime::for_source(&mkv_vp9).header(),
        "video/x-matroska"
    );
}

#[test]
fn delivery_mime_serves_a_genuine_webm_as_webm() {
    // Same ffprobe alias list, real WebM file — the extension decides.
    let webm_av1 = item(Some("matroska,webm"), Some("av1"), "/m/x.webm");
    assert_eq!(
        DeliveryMime::for_source(&webm_av1).header(),
        "video/webm"
    );
}

#[test]
fn delivery_mime_leaves_mp4_and_h264_mkv_alone() {
    let mp4 = item(Some("mp4"), Some("h264"), "/m/x.mp4");
    assert_eq!(
        DeliveryMime::for_source(&mp4).header(),
        "video/mp4"
    );
    let mkv_h264 = item(Some("matroska"), Some("h264"), "/m/x.mkv");
    assert_eq!(
        DeliveryMime::for_source(&mkv_h264).header(),
        "video/x-matroska"
    );
}

#[test]
fn cut_tolerance_gates_the_headerless_slice_bug() {
    // mp4/mkv/webm CANNOT be interior-cut → no ResyncWitness → a
    // StartTimeTicks byte-range on them is unrepresentable.
    for (c, e) in [
        ("mp4", "/x.mp4"),
        ("matroska", "/x.mkv"),
        ("webm", "/x.webm"),
    ] {
        let it = item(Some(c), Some("h264"), e);
        assert_eq!(CutTolerance::for_source(&it), CutTolerance::HeaderPrefixed);
        assert!(ResyncWitness::of(CutTolerance::for_source(&it)).is_none());
    }
    // MPEG-TS / ADTS / MP3 resync from any packet → witness available.
    for (c, e) in [("mpegts", "/x.ts"), ("aac", "/x.aac"), ("mp3", "/x.mp3")] {
        let it = item(Some(c), None, e);
        assert_eq!(CutTolerance::for_source(&it), CutTolerance::Resync);
        assert!(ResyncWitness::of(CutTolerance::for_source(&it)).is_some());
    }
}

#[test]
fn unknown_container_is_conservatively_header_prefixed() {
    let it = item(None, Some("h264"), "/x.unknownext");
    assert_eq!(CutTolerance::for_source(&it), CutTolerance::HeaderPrefixed);
}
#[test]
fn directplay_declares_byte_exact_and_source_cut_tolerance() {
    let mp4 = item(Some("mp4"), Some("h264"), "/x.mp4");
    let d = DirectPlayDelivery { item: &mp4 };
    assert_eq!(d.accuracy(), SeekAccuracy::ByteExact);
    assert_eq!(d.cut_tolerance(), CutTolerance::HeaderPrefixed);
}

#[test]
fn segment_delivery_declares_grid_accuracy() {
    let d = SegmentDelivery;
    assert_eq!(d.accuracy(), SeekAccuracy::SegmentGrid { seg_secs: 6 });
}

#[test]
fn written_ranges_read_back() {
    for (start, end) in [(0, None), (7, Some(7)), (12, Some(u64::MAX)), (u64::MAX, None)] {
        let tail = match end {
            Some(e) => format!("{e}"),
            None => String::new(),
        };
        let read = ByteRange::parse(&format!("bytes={start}-{tail}"));
        assert_eq!(read, Some(ByteRange { start, end }));
    }
}
