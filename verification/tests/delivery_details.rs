use pharos_server::answer::{require_found, ApiError, Fetched};
use pharos_server::live_tv::{channel_image_primary, default_window_hours, Channel, Lineup};
use pharos_server::path_text::stem_of_name;
use pharos_server::seek::{CutTolerance, ResyncWitness, Source};
use pharos_server::stream::{
    deliver_stream, query_value_ci, serve_from_offset, stream_transcoded_webm, wants_live_webm,
    DeliveryPlan, StreamPath,
};
use pharos_server::stream_select::{
    audio_facts, sorted_by_score, subtitle_facts, AdvertisedStream, StreamFacts,
};
use pharos_server::subtitles::{
    find_subdir_ci, plan_srt, pre_extract_kind, subtitle_style_for, DirEntry, ExtractKind,
    SubtitlePlan, TrackInfo,
};

fn source(path: &str, container: &str) -> Source {
    Source { path: path.into(), container: Some(container.into()) }
}

#[test]
fn only_files_that_resync_are_cut() {
    let ts = source("/m/a.ts", "mpegts");
    let mp4 = source("/m/a.mp4", "mp4");
    let at = |s: &Source, ranged: bool, ticks: u64| {
        deliver_stream(s, ranged, ticks, Some(1_000_000), Some(60_000), None)
    };
    assert_eq!(at(&ts, false, 10_000_000), DeliveryPlan::FromOffset { offset: 125_000 });
    assert_eq!(at(&ts, true, 10_000_000), DeliveryPlan::WholeFile);
    assert_eq!(at(&ts, false, 0), DeliveryPlan::WholeFile);
    assert_eq!(at(&mp4, false, 10_000_000), DeliveryPlan::WholeFile);
}

#[test]
fn a_cut_file_starts_at_the_offset() {
    let ts = source("/m/a.ts", "mpegts");
    let witness = || ResyncWitness::of(CutTolerance::for_source(&ts)).unwrap();
    let head = serve_from_offset(&ts, 10, 100, Some("now".into()), witness()).unwrap();
    assert_eq!(head.status, 206);
    assert_eq!(head.content_range, "bytes 10-99/100");
    assert_eq!(head.content_length, 90);
    assert_eq!(head.last_modified, Some("now".to_string()));
    assert!(head.buffered);
    let long = serve_from_offset(&ts, 1, 16_777_218, None, witness()).unwrap();
    assert!(!long.buffered);
    let past = serve_from_offset(&ts, 100, 100, None, witness()).unwrap_err();
    assert_eq!(past.status(), 416);
}

#[test]
fn a_webm_path_is_encoded_unless_it_is_static() {
    let webm = StreamPath { id: "abc".into(), ext: Some("WebM".into()) };
    assert_eq!(webm.id_str(), "abc");
    assert!(wants_live_webm(&webm, "a=b"));
    assert!(!wants_live_webm(&webm, "static=true"));
    assert!(!wants_live_webm(&StreamPath { id: "abc".into(), ext: Some("mp4".into()) }, ""));
    assert!(!wants_live_webm(&StreamPath { id: "abc".into(), ext: None }, ""));
}

#[test]
fn webm_bitrates_have_limits() {
    let o = stream_transcoded_webm("", &[1, 2], &[3]);
    assert_eq!(o.video_bitrate_bps, 3_000_000);
    assert_eq!(o.audio_bitrate_bps, 128_000);
    assert_eq!(o.start_position_ticks, 0);
    assert_eq!(o.audio_source_stream_index, None);
    assert_eq!(stream_transcoded_webm("MaxStreamingBitrate=1", &[], &[]).video_bitrate_bps, 500_000);
    let o = stream_transcoded_webm(
        "maxstreamingbitrate=99000000&AudioStreamIndex=2&SubtitleStreamIndex=3&StartTimeTicks=7",
        &[1, 2],
        &[3],
    );
    assert_eq!(o.video_bitrate_bps, 6_000_000);
    assert_eq!(o.audio_source_stream_index, Some(1));
    assert_eq!(o.burn_subtitle_stream_index, Some(0));
    assert_eq!(o.start_position_ticks, 7);
}

#[test]
fn query_values_have_no_case_in_their_names() {
    assert_eq!(query_value_ci("a=1&PlaySessionId=x", "playsessionid"), Some("x".to_string()));
    assert_eq!(query_value_ci("a=1", "b"), None);
}

#[test]
fn tracks_are_gathered_by_kind() {
    let stream = |kind: &str, index: u32| AdvertisedStream {
        kind: kind.into(),
        facts: StreamFacts { index, ..Default::default() },
    };
    let all = [stream("Video", 0), stream("Audio", 1), stream("Subtitle", 2), stream("Audio", 3)];
    let audio: Vec<u32> = audio_facts(&all).iter().map(|f| f.index).collect();
    assert_eq!(audio, vec![1, 3]);
    let subtitles: Vec<u32> = subtitle_facts(&all).iter().map(|f| f.index).collect();
    assert_eq!(subtitles, vec![2]);
}

#[test]
fn better_tracks_come_first_and_equal_ones_stay() {
    let track = |index: u32, language: &str| StreamFacts {
        index,
        language: Some(language.into()),
        ..Default::default()
    };
    let all = [track(1, "ger"), track(2, "fre"), track(3, "eng"), track(4, "ger")];
    let prefs = ["eng".to_string(), "fre".to_string()];
    let order: Vec<u32> = sorted_by_score(&all, &prefs).iter().map(|f| f.index).collect();
    assert_eq!(order, vec![3, 2, 1, 4]);
}

#[test]
fn a_channel_shows_its_logo() {
    let lineup = |logo: Option<&str>| {
        Lineup::Channels(vec![Channel {
            id: "c1".into(),
            name: "One".into(),
            number: None,
            group_title: None,
            logo_url: logo.map(String::from),
            stream_url: "http://s".into(),
        }])
    };
    let url = channel_image_primary(&lineup(Some("http://l")), "c1").unwrap();
    assert_eq!(url, "http://l");
    assert_eq!(channel_image_primary(&lineup(None), "c1").unwrap_err().status(), 404);
    assert_eq!(channel_image_primary(&lineup(None), "c2").unwrap_err().status(), 404);
    assert_eq!(default_window_hours(), 6);
}

#[test]
fn subtitle_folders_have_no_case() {
    let entry = |name: &str, is_dir: bool| DirEntry {
        name: name.into(),
        path: format!("/m/{name}"),
        is_dir,
    };
    let entries = vec![entry("subs", false), entry("Subs", true), entry("SUBS", true)];
    assert_eq!(find_subdir_ci(&entries, "subs"), Some("/m/Subs".to_string()));
    assert_eq!(find_subdir_ci(&entries, "subtitles"), None);
}

#[test]
fn srt_is_never_made_of_bitmaps() {
    let tracks = vec![TrackInfo {
        stream_index: 2,
        codec: Some("hdmv_pgs_subtitle".into()),
        is_forced: false,
    }];
    match plan_srt(2, &tracks, false) {
        SubtitlePlan::CannotConvert { body } => assert_eq!(
            body,
            "{\"error\":\"image-based subtitles cannot convert to SRT\",\"codec\":\"hdmv_pgs_subtitle\"}"
        ),
        other => panic!("{other:?}"),
    }
    assert_eq!(pre_extract_kind(&Some("hdmv_pgs_subtitle".into())), None);
    assert_eq!(pre_extract_kind(&Some("ass".into())), Some(ExtractKind::EmbeddedAss));
    assert_eq!(pre_extract_kind(&Some("subrip".into())), Some(ExtractKind::Embedded));
    assert_eq!(pre_extract_kind(&None), Some(ExtractKind::Embedded));
}

#[test]
fn subtitle_settings_may_be_nested_or_older() {
    let pair = |k: &str, v: &str| (k.to_string(), v.to_string());
    let flat = vec![pair("SubtitleColor", "red"), pair("FontSize", "2em")];
    let style = subtitle_style_for(&None, &flat);
    assert_eq!(style.color, Some("red".to_string()));
    assert_eq!(style.font_size, Some("2em".to_string()));
    assert_eq!(style.position, None);
    let nested = subtitle_style_for(&Some(vec![pair("Color", "blue")]), &flat);
    assert_eq!(nested.color, Some("blue".to_string()));
    assert_eq!(nested.font_size, None);
}

#[test]
fn fetches_fail_in_their_own_way() {
    assert!(matches!(require_found(Fetched::Found(3u32), "no item"), Ok(3)));
    let missing: Result<u32, ApiError> = require_found(Fetched::Missing, "no item");
    assert!(matches!(missing, Err(ApiError::NotFound(m)) if m == "no item"));
    let failed: Result<u32, ApiError> = require_found(Fetched::Failed("down".into()), "no item");
    assert!(matches!(failed, Err(ApiError::Internal(m)) if m == "down"));
}

#[test]
fn a_stem_ends_at_the_last_dot() {
    assert_eq!(stem_of_name("a.b.mkv"), "a.b");
    assert_eq!(stem_of_name(".hidden"), ".hidden");
    assert_eq!(stem_of_name("plain"), "plain");
}
