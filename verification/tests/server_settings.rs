use pharos_server::client_log::{report_file_name, report_snippet, INLINE_CAP};
use pharos_server::system::{
    bitrate_test, build_media_segments, classify_chapter_title, custom_name,
    default_bitrate_size, default_client, default_library_options, default_section,
    derive_local_address, device_name, localization_cultures, localization_parental_ratings,
    overlay, require_admin, require_device, system_configuration_named, Chapter, Culture, DetectedSegment,
};
use pharos_server::trickplay::{map_cache_err, tile, tile_in_layout, tile_item, TileFailure};
use pharos_server::waveform::{
    astats_filter, parse_bins, plan_waveform, read_levels, WaveformCache, DEFAULT_BINS,
};
use pharos_server::wire::{
    is_json_content_type, query_result, take_chunk, SimdJson, MAX_BODY,
};
use pharos_server::media::MediaKind;

#[test]
fn classify_chapter_title_branches() {
    assert_eq!(classify_chapter_title("Opening"), Some("Intro"));
    assert_eq!(classify_chapter_title("Intro 1"), Some("Intro"));
    assert_eq!(classify_chapter_title("End credits"), Some("Outro"));
    assert_eq!(classify_chapter_title("Credits"), Some("Outro"));
    assert_eq!(classify_chapter_title("Previously on"), Some("Recap"));
    assert_eq!(classify_chapter_title("Recap"), Some("Recap"));
    assert_eq!(classify_chapter_title("Next on"), Some("Preview"));
    assert_eq!(classify_chapter_title("Commercial break"), Some("Commercial"));
    assert_eq!(classify_chapter_title("Chapter 4"), None);
    assert_eq!(classify_chapter_title("The Beach"), None);
}

fn chapter(title: &str, start_ms: u64, end_ms: u64) -> Chapter {
    Chapter { title: title.into(), start_ms, end_ms }
}

fn detected(kind: &str, start_ms: u64, end_ms: u64) -> DetectedSegment {
    DetectedSegment { kind: kind.into(), start_ms, end_ms }
}

#[test]
fn chapters_go_before_what_was_found() {
    let segments = build_media_segments(
        &vec![chapter("Cold open", 0, 10), chapter("Intro", 10, 70), chapter("Credits", 90, 90)],
        &vec![detected("Intro", 1, 2), detected("Recap", 3, 5)],
    );
    let names: Vec<&str> = segments.iter().map(|s| s.name.as_str()).collect();
    assert_eq!(names, vec!["1", "2", "d1"]);
    assert_eq!((segments[0].start_ticks, segments[0].end_ticks), (100_000, 700_000));
    assert_eq!(segments[1].end_ticks, 900_000 + 300_000_000);
    assert_eq!(segments[2].kind, "Recap");
    assert_eq!((segments[2].start_ticks, segments[2].end_ticks), (30_000, 50_000));
}

#[test]
fn a_chapter_without_an_end_lasts_thirty_seconds() {
    let segments = build_media_segments(&vec![chapter("Intro", 1_000, 1_000)], &vec![]);
    assert_eq!(segments.len(), 1);
    assert_eq!(segments[0].kind, "Intro");
    assert_eq!((segments[0].start_ticks, segments[0].end_ticks), (10_000_000, 310_000_000));
    let late = build_media_segments(&vec![chapter("Intro", u64::MAX, 0)], &vec![]);
    assert_eq!(late[0].end_ticks, u64::MAX);
}

#[test]
fn languages_and_ratings_are_listed() {
    let cultures = localization_cultures();
    assert_eq!(cultures.len(), 28);
    let french = &cultures[2];
    assert_eq!(
        (french.name, french.two_letter_iso_language_name, french.three_letter_iso_language_name),
        ("French", "fr", "fre")
    );
    assert_eq!(Culture::new("X", "xx", "xxx").display_name, "X");
    let ratings = localization_parental_ratings();
    assert_eq!(ratings.len(), 12);
    assert!(ratings.windows(2).all(|w| w[0].value <= w[1].value));
    assert_eq!((ratings[6].name, ratings[6].value), ("PG-13", 7));
}

fn value(settings: &[(String, String)], name: &str) -> Option<String> {
    settings.iter().rev().find(|(k, _)| k == name).map(|(_, v)| v.clone())
}

#[test]
fn stored_settings_cover_the_defaults() {
    let base = default_section("network");
    assert_eq!(base.len(), 21);
    assert_eq!(value(&base, "InternalHttpPort"), Some("8096".to_string()));
    assert_eq!(value(&base, "VirtualInterfaceNames"), Some("[\"veth\"]".to_string()));
    let stored: Vec<(String, String)> = vec![
        ("InternalHttpPort".into(), "9000".into()),
        ("Extra".into(), "true".into()),
        ("InternalHttpPort".into(), "9001".into()),
    ];
    let shown = overlay(base, &stored);
    assert_eq!(value(&shown, "InternalHttpPort"), Some("9001".to_string()));
    assert_eq!(value(&shown, "Extra"), Some("true".to_string()));
    assert_eq!(value(&shown, "EnableIPv4"), Some("true".to_string()));
    assert_eq!(shown.len(), 22);
    let named = system_configuration_named("NetWork", &Some(stored));
    assert_eq!(value(&named, "InternalHttpPort"), Some("9001".to_string()));
    assert_eq!(system_configuration_named("encoding", &None).len(), 5);
    assert_eq!(default_section("livetv").len(), 9);
    assert_eq!(default_section("encoding").len(), 5);
    assert!(default_section("unknown").is_empty());
    assert_eq!(
        value(&default_library_options(), "SeasonZeroDisplayName"),
        Some("\"Specials\"".to_string())
    );
}

#[test]
fn devices_and_limits() {
    assert_eq!(bitrate_test(10), 10);
    assert_eq!(bitrate_test(usize::MAX), 50 * 1024 * 1024);
    assert_eq!(default_bitrate_size(), 500_000);
    assert_eq!(default_client(), "emby");
    assert_eq!(derive_local_address("http", "tv:8096"), "http://tv:8096");
    assert_eq!(device_name(&Some("Den".into()), "d"), "Den");
    assert_eq!(device_name(&Some(String::new()), "d"), "d");
    assert_eq!(device_name(&None, "d"), "d");
    assert_eq!(custom_name(&Some(" Den ".into())), "Den");
    assert_eq!(custom_name(&None), "");
    assert!(require_admin(true).is_ok());
    assert_eq!(require_admin(false).unwrap_err().message(), "admin required");
    assert_eq!(require_device(true, Some("d")).unwrap(), "d");
    assert_eq!(require_device(false, Some("d")).unwrap_err().status(), 403);
    assert_eq!(require_device(true, Some("")).unwrap_err().message(), "missing id");
}

// ------------------------------------------------------------------------ bodies

#[test]
fn bodies_are_limited() {
    let mut body = vec![1u8, 2];
    assert!(take_chunk(&mut body, &[3]).is_ok());
    assert_eq!(body, vec![1, 2, 3]);
    let big = vec![0u8; MAX_BODY];
    let refused = take_chunk(&mut body, &big).unwrap_err();
    assert_eq!((refused.status(), refused.message()), (400, "request body too large".to_string()));
    assert_eq!(body, vec![1, 2, 3]);
    let mut empty = vec![];
    assert!(take_chunk(&mut empty, &big).is_ok());
    assert_eq!(SimdJson(5u8).into_inner(), 5);
    let page = query_result(vec!["a"], 9, 4);
    assert_eq!((page.items.len(), page.total_record_count, page.start_index), (1, 9, 4));
    assert!(is_json_content_type(Some("application/json; charset=utf-8")));
    assert!(!is_json_content_type(Some("text/plain")));
    assert!(!is_json_content_type(None));
}

#[test]
fn reports_get_safe_names() {
    assert_eq!(report_file_name(17, &Some("Android TV/../x".into())), "17_Android_TV____x.log");
    assert_eq!(report_file_name(17, &None), "17_client.log");
}

#[test]
fn long_reports_are_cut() {
    let short = report_snippet(b"boom \xff");
    assert_eq!(short.text, "boom \u{fffd}");
    assert!(!short.truncated);
    let long = report_snippet("é".repeat(INLINE_CAP + 1).as_bytes());
    assert!(long.truncated);
    assert_eq!(long.text.chars().count(), INLINE_CAP);
}

// ------------------------------------------------------------------------- tiles

#[test]
fn tiles_are_refused_for_a_reason() {
    let widths = vec![320];
    assert_eq!(tile_item(&widths, 320, true, "42").unwrap(), 42);
    let message = |w, on, id| tile_item(&widths, w, on, id).unwrap_err().message();
    assert_eq!(message(100, true, "42"), "unknown trickplay width");
    assert_eq!(message(320, false, "42"), "trickplay disabled");
    assert_eq!(message(320, true, "4x"), "invalid id");
    assert!(tile_in_layout(Some(3), 2).is_ok());
    assert_eq!(tile_in_layout(Some(3), 3).unwrap_err().message(), "tile index out of range");
    assert_eq!(
        tile_in_layout(None, 0).unwrap_err().message(),
        "no trickplay layout (missing probe data)"
    );
    assert_eq!(tile(Some(1)).unwrap(), 1);
    assert_eq!(tile::<u8>(None).unwrap_err().message(), "trickplay not generated yet");
    assert_eq!(map_cache_err(TileFailure::OutOfRange).status(), 404);
    assert_eq!(map_cache_err(TileFailure::UnknownDuration).message(), "source duration unknown");
    let other = map_cache_err(TileFailure::Other("io".into()));
    assert_eq!((other.status(), other.message()), (500, "trickplay: io".to_string()));
}

// --------------------------------------------------------------------- waveforms

#[test]
fn parse_bins_picks_query_value() {
    assert_eq!(parse_bins("bins=512"), 512);
    assert_eq!(parse_bins("Bins=64&other=zz"), 64);
    assert_eq!(parse_bins(""), DEFAULT_BINS);
    assert_eq!(parse_bins("bins=notanumber"), DEFAULT_BINS);
}

#[test]
fn waveform_cache_memoises_by_key() {
    let mut cache: WaveformCache<Vec<f32>> = WaveformCache::new();
    let key = (42, 1000, 256);
    assert!(cache.get(&key).is_none(), "cold key must miss");
    let stored = vec![0.1, 0.2, 0.3];
    cache.store(key, stored.clone());
    assert_eq!(cache.get(&key).unwrap().as_slice(), stored.as_slice());
    // A different bin count is a distinct output: still a miss.
    assert!(cache.get(&(42, 1000, 128)).is_none());
    // A re-encode (new mtime) invalidates.
    assert!(cache.get(&(42, 1001, 256)).is_none());
}

#[test]
fn a_newer_waveform_takes_the_place_of_the_older() {
    let mut cache: WaveformCache<u8> = WaveformCache::new();
    cache.store((1, 2, 3), 10);
    cache.store((1, 2, 4), 20);
    cache.store((1, 2, 3), 30);
    assert_eq!(cache.get(&(1, 2, 3)), Some(&30));
    assert_eq!(cache.get(&(1, 2, 4)), Some(&20));
}

#[test]
fn waveforms_are_planned() {
    let p = plan_waveform(MediaKind::Audio, Some(10_000), None, "bins=4").unwrap();
    assert_eq!((p.bins, p.samples_per_bin), (8, 55_125));
    let most = plan_waveform(MediaKind::Audio, Some(1), Some(8_000), "bins=9999").unwrap();
    assert_eq!((most.bins, most.samples_per_bin), (2048, 1));
    assert_eq!(
        plan_waveform(MediaKind::Movie, Some(1), None, "").unwrap_err().message(),
        "waveform only available for Audio items"
    );
    assert_eq!(
        plan_waveform(MediaKind::Audio, Some(0), None, "").unwrap_err().message(),
        "unknown duration; cannot bin"
    );
    assert_eq!(
        astats_filter(12),
        "aresample=async=1,aformat=channel_layouts=mono,asetnsamples=12,astats=metadata=1:reset=1,\
ametadata=print:key=lavfi.astats.Overall.RMS_level"
    );
}

#[test]
fn levels_are_read_line_by_line() {
    let printed = "frame 0\nlavfi.RMS_level=-20.5 x\nother\nlavfi.RMS_level=-inf\r\nRMS_level=\n";
    assert_eq!(read_levels(printed, 2), vec!["-20.5", "-inf"]);
    assert_eq!(read_levels(printed, 5), vec!["-20.5", "-inf", "", "", ""]);
}
