use std::collections::BTreeSet;

use pharos_server::sidecar_cache::SidecarCache;
use pharos_server::subtitle_burn::{decide_segment_burn, BurnVerdict};
use pharos_server::subtitle_delivery::{
    decide_subtitle_delivery, SubtitleDelivery, SubtitleProfile,
};
use pharos_server::subtitles::{
    discover_sidecars, extract_args, is_image_subtitle_codec, is_styled_text_subtitle_codec,
    parse_forced_only, parse_vtt_ts, pick_sidecar, plan_ass, plan_js, plan_vtt, sanitise_css_value, vtt_body,
    webvtt_to_track_events, webvtt_to_track_events_json, DirEntry, Sidecar, SidecarKind,
    SidecarListings, SubtitlePlan, SubtitleStyle, TrackInfo, SIDECAR_BASE_INDEX,
};

// ------------------------------------------------------------------ segment burn

/// Every one of the file's text tracks can be rendered by the client, and it
/// still names one on every segment.
#[test]
fn a_text_track_the_client_renders_is_not_burned() {
    let none_burn = BTreeSet::new();
    let v = decide_segment_burn(Some("subrip"), Some(3), Some(&none_burn));
    assert_eq!(v, BurnVerdict::ClientRendersTextItself);
    assert!(!v.burns(), "a renderable text sub must not burn");
}

#[test]
fn a_text_track_the_client_cannot_render_still_burns() {
    let burn: BTreeSet<u32> = [3].into_iter().collect();
    let v = decide_segment_burn(Some("ass"), Some(3), Some(&burn));
    assert_eq!(v, BurnVerdict::ClientCannotRenderText);
    assert!(v.burns());
}

/// An image subtitle has no text to fall back to, so it burns whatever the
/// session says.
#[test]
fn an_image_track_always_burns() {
    let none_burn = BTreeSet::new();
    let v = decide_segment_burn(Some("hdmv_pgs_subtitle"), Some(3), Some(&none_burn));
    assert_eq!(v, BurnVerdict::ImageSubtitle);
    assert!(v.burns());
}

#[test]
fn no_request_means_no_burn() {
    assert_eq!(decide_segment_burn(Some("subrip"), None, None), BurnVerdict::NotRequested);
    assert!(!BurnVerdict::NotRequested.burns());
}

#[test]
fn an_unknown_track_or_codec_does_not_burn() {
    assert_eq!(decide_segment_burn(None, Some(99), None), BurnVerdict::UnknownTrack);
    assert_eq!(
        decide_segment_burn(Some("bin_data"), Some(3), None),
        BurnVerdict::UnsupportedCodec
    );
    assert!(!BurnVerdict::UnknownTrack.burns());
    assert!(!BurnVerdict::UnsupportedCodec.burns());
}

/// Without a session the client's capabilities are unknown, so it burns.
#[test]
fn a_sessionless_text_request_burns() {
    let v = decide_segment_burn(Some("subrip"), Some(3), None);
    assert_eq!(v, BurnVerdict::TextNoSession);
    assert!(v.burns());
}

#[test]
fn verdict_labels_are_distinct() {
    let all = [
        BurnVerdict::NotRequested,
        BurnVerdict::UnknownTrack,
        BurnVerdict::UnsupportedCodec,
        BurnVerdict::ImageSubtitle,
        BurnVerdict::ClientCannotRenderText,
        BurnVerdict::ClientRendersTextItself,
        BurnVerdict::TextNoSession,
    ];
    let labels: BTreeSet<_> = all.iter().map(|v| v.label()).collect();
    assert_eq!(labels.len(), all.len());
}

// ---------------------------------------------------------------------- delivery

fn prof(fmt: &str, method: &str) -> SubtitleProfile {
    SubtitleProfile { format: fmt.into(), method: method.into() }
}

#[test]
fn web_declares_ass_external_gets_external() {
    let p = [prof("ass", "External"), prof("subrip", "External")];
    assert!(matches!(
        decide_subtitle_delivery(Some("ass"), &p),
        SubtitleDelivery::External
    ));
}

#[test]
fn client_declaring_ass_encode_gets_burn() {
    let p = [prof("ass", "Encode"), prof("subrip", "External")];
    assert!(matches!(decide_subtitle_delivery(Some("ass"), &p), SubtitleDelivery::Burn));
}

#[test]
fn client_without_ass_profile_gets_burn() {
    let p = [prof("subrip", "External"), prof("vtt", "External")];
    assert!(matches!(decide_subtitle_delivery(Some("ass"), &p), SubtitleDelivery::Burn));
}

#[test]
fn image_codec_burns_when_the_client_cannot_render_it() {
    let p = [prof("ass", "External"), prof("vtt", "External")];
    assert!(matches!(
        decide_subtitle_delivery(Some("hdmv_pgs_subtitle"), &p),
        SubtitleDelivery::Burn
    ));
}

#[test]
fn a_client_that_renders_pgs_itself_gets_it_externally() {
    let p = [prof("vtt", "External"), prof("pgssub", "External")];
    assert!(matches!(
        decide_subtitle_delivery(Some("pgssub"), &p),
        SubtitleDelivery::External
    ));
}

/// What a browser declares that renders styled text and images itself: it names
/// `vtt` for all plain text and expects the server to convert.
fn browser_profiles() -> [SubtitleProfile; 4] {
    [
        prof("vtt", "External"),
        prof("ass", "External"),
        prof("ssa", "External"),
        prof("pgssub", "External"),
    ]
}

#[test]
fn a_vtt_profile_delivers_subrip_externally() {
    assert!(matches!(
        decide_subtitle_delivery(Some("subrip"), &browser_profiles()),
        SubtitleDelivery::External
    ));
}

#[test]
fn jellyfin_web_never_burns_a_plain_text_track() {
    for codec in [
        "subrip",
        "srt",
        "webvtt",
        "vtt",
        "mov_text",
        "text",
        "subviewer",
        "microdvd",
    ] {
        assert!(
            matches!(
                decide_subtitle_delivery(Some(codec), &browser_profiles()),
                SubtitleDelivery::External
            ),
            "{codec} must be delivered, not burned"
        );
    }
}

#[test]
fn a_client_declaring_only_ass_burns_subrip() {
    let p = [prof("ass", "External")];
    assert!(matches!(
        decide_subtitle_delivery(Some("subrip"), &p),
        SubtitleDelivery::Burn
    ));
}

#[test]
fn empty_profiles_text_defaults_external() {
    assert!(matches!(
        decide_subtitle_delivery(Some("ass"), &[]),
        SubtitleDelivery::External
    ));
}

// ------------------------------------------------------------------------ tracks

#[test]
fn vtt_ts_parses_to_ticks() {
    // 1s = 10,000,000 ticks.
    assert_eq!(parse_vtt_ts("00:00:01.000"), Some(10_000_000));
    assert_eq!(parse_vtt_ts("01:02:03.500"), Some(37_235_000_000)); // 3723.5s
    assert_eq!(parse_vtt_ts("00:05.250"), Some(52_500_000)); // MM:SS form
    assert_eq!(parse_vtt_ts("garbage"), None);
}

#[test]
fn malformed_stamps_are_none() {
    assert_eq!(parse_vtt_ts("00:00:01,000"), Some(10_000_000));
    assert_eq!(parse_vtt_ts("100:00:00.000"), Some(3_600_000_000_000));
    for stamp in [
        "00:00:01.5",
        "00:00:01.50",
        "00:00:01.5000",
        "00:00:01.",
        "00:00:01",
        "1:02.000",
        "00:1.000",
        "0:00:01.000",
        "00:-1:00.000",
        "+1:00.000",
        "00:00:00:01.000",
        "99999999999999999999:00:00.000",
    ] {
        assert_eq!(parse_vtt_ts(stamp), None, "{stamp}");
    }
}

const TWO_CUES: &[u8] = b"WEBVTT\n\n1\n00:00:01.000 --> 00:00:04.000\nHello world\n\n\
00:00:05.000 --> 00:00:06.500 line:90%\nSecond\ncue\n";

#[test]
fn webvtt_converts_to_trackevents_json() {
    let json = webvtt_to_track_events_json(TWO_CUES);
    let v: serde_json::Value = serde_json::from_str(&json).unwrap();
    let events = v["TrackEvents"].as_array().unwrap();
    assert_eq!(events.len(), 2);
    assert_eq!(events[0]["Text"], "Hello world");
    assert_eq!(events[0]["StartPositionTicks"], 10_000_000);
    assert_eq!(events[0]["EndPositionTicks"], 40_000_000);
    // Lines of a cue are joined; settings behind the times are ignored.
    assert_eq!(events[1]["Text"], "Second\ncue");
    assert_eq!(events[1]["StartPositionTicks"], 50_000_000);
}

#[test]
fn track_events_quote_what_json_must_quote() {
    let vtt = b"WEBVTT\n\n00:00:01.000 --> 00:00:02.000\nShe said \"no\"\\maybe\n";
    let json = webvtt_to_track_events_json(vtt);
    let v: serde_json::Value = serde_json::from_str(&json).unwrap();
    assert_eq!(v["TrackEvents"][0]["Text"], "She said \"no\"\\maybe");
    assert!(json.contains("\\\"no\\\""));
}

#[test]
fn bytes_that_are_no_text_do_not_stop_the_conversion() {
    let vtt = b"WEBVTT\n\n00:00:01.000 --> 00:00:02.000\nbad \xff byte\n";
    let json = webvtt_to_track_events_json(vtt);
    let v: serde_json::Value = serde_json::from_str(&json).unwrap();
    assert_eq!(v["TrackEvents"][0]["Text"], "bad \u{fffd} byte");
}

#[test]
fn cues_without_a_readable_time_are_left_out() {
    let events = webvtt_to_track_events("WEBVTT\n\nxx --> yy\nlost\n\n00:01.000 --> 00:02.000\nkept\n");
    assert_eq!(events.len(), 1);
    assert_eq!(events[0].text, "kept");
}

// ----------------------------------------------------------------------- styling

#[test]
fn empty_style_renders_no_block() {
    let s = SubtitleStyle::default();
    assert!(s.is_empty());
    assert!(s.render_style_block().is_empty());
}

#[test]
fn styled_block_includes_color_and_background_in_cue_rule() {
    let s = SubtitleStyle {
        color: Some("#ffff00".into()),
        background: Some("rgba(0,0,0,0.5)".into()),
        font_size: Some("120%".into()),
        position: None,
    };
    let block = s.render_style_block();
    let text = std::str::from_utf8(&block).unwrap();
    assert!(text.starts_with("STYLE\n::cue {\n"));
    assert!(text.contains("color: #ffff00;"));
    assert!(text.contains("background-color: rgba(0,0,0,0.5);"));
    assert!(text.contains("font-size: 120%;"));
    assert!(text.ends_with("}\n\n"));
}

#[test]
fn css_injection_via_style_value_gets_rejected() {
    let s = SubtitleStyle {
        color: Some("#fff; } body { display:none; ::cue {".into()),
        background: Some("red\nINJECT".into()),
        font_size: Some("12px}".into()),
        position: None,
    };
    let block = s.render_style_block();
    let text = std::str::from_utf8(&block).unwrap();
    assert!(!text.contains("body"), "got: {text}");
    assert!(!text.contains("INJECT"), "got: {text}");
    // The style was not empty, so the block opens, but with all values rejected
    // its rule is empty.
    assert!(text.starts_with("STYLE\n::cue {\n"));
    assert!(!text.contains("color:"));
    assert!(!text.contains("background-color:"));
    assert!(!text.contains("font-size:"));
}

#[test]
fn a_safe_style_value_passes_and_an_unsafe_one_does_not() {
    assert_eq!(sanitise_css_value(&Some("red".into())), Some("red".to_string()));
    assert_eq!(sanitise_css_value(&Some("red;".into())), None);
    assert_eq!(sanitise_css_value(&None), None);
}

#[test]
fn a_body_without_styling_is_served_as_it_is() {
    let body = b"WEBVTT\n\n00:01.000 --> 00:02.000\nhi\n".to_vec();
    assert_eq!(vtt_body(body.clone(), false, &SubtitleStyle::default()), body);
    let lossy = vtt_body(body, true, &SubtitleStyle::default());
    let text = String::from_utf8(lossy).unwrap();
    assert!(text.starts_with(
        "WEBVTT\nNOTE Source format was ASS/SSA; styling lost in WebVTT conversion.\n\n"
    ));
    assert!(text.ends_with("00:01.000 --> 00:02.000\nhi\n"));
}

// ---------------------------------------------------------------------- sidecars

fn file(dir: &str, name: &str) -> DirEntry {
    DirEntry { name: name.into(), path: format!("{dir}/{name}"), is_dir: false }
}

fn nowhere() -> SidecarListings {
    SidecarListings {
        beside: vec![],
        subs: vec![],
        subs_episode: vec![],
        subtitles: vec![],
        subtitles_episode: vec![],
        episode: vec![],
    }
}

#[test]
fn discover_sidecars_returns_vtt_and_srt_in_order() {
    let listings = SidecarListings {
        beside: vec![
            file("/m", "show.mkv"),
            file("/m", "show.srt"),
            file("/m", "show.fra.vtt"),
            file("/m", "show.eng.vtt"),
            // Decoy file that shouldn't match.
            file("/m", "other.vtt"),
        ],
        ..nowhere()
    };
    let found = discover_sidecars("show", &listings);
    assert_eq!(found.len(), 3);
    // Sorted lexicographically: show.eng.vtt, show.fra.vtt, show.srt.
    assert!(found[0].path.ends_with("show.eng.vtt"));
    assert_eq!(found[0].kind, SidecarKind::Vtt);
    assert!(found[2].path.ends_with("show.srt"));
    assert_eq!(found[2].kind, SidecarKind::Convert);
}

#[test]
fn discover_sidecars_finds_ass_and_subfolders() {
    let listings = SidecarListings {
        beside: vec![
            file("/m", "Episode 01.mkv"),
            file("/m", "Episode 01.eng.ass"),
            // An image subtitle must be ignored.
            file("/m", "Episode 01.sup"),
        ],
        subs_episode: vec![file("/m/Subs/Episode 01", "English.srt")],
        episode: vec![file("/m/Episode 01", "eng.ssa")],
        ..nowhere()
    };
    let found = discover_sidecars("Episode 01", &listings);
    let names: Vec<String> =
        found.iter().map(|s| s.path.rsplit('/').next().unwrap().to_string()).collect();
    assert!(names.contains(&"Episode 01.eng.ass".to_string()), "{names:?}");
    assert!(names.contains(&"English.srt".to_string()), "{names:?}");
    assert!(names.contains(&"eng.ssa".to_string()), "{names:?}");
    assert!(!names.iter().any(|n| n.ends_with(".sup")), "image sub leaked: {names:?}");
    // All three text sidecars, none is passed through.
    assert!(found.iter().all(|s| s.kind == SidecarKind::Convert));
}

#[test]
fn discover_sidecars_requires_dot_after_stem() {
    let listings = SidecarListings {
        // Not a sidecar: no dot between the stem and the rest.
        beside: vec![file("/m", "show.mkv"), file("/m", "shownotsidecar.vtt")],
        ..nowhere()
    };
    assert!(discover_sidecars("show", &listings).is_empty());
}

#[test]
fn sidecars_are_picked_by_their_number() {
    let found = vec![
        Sidecar { path: "/m/a.vtt".into(), kind: SidecarKind::Vtt },
        Sidecar { path: "/m/b.srt".into(), kind: SidecarKind::Convert },
    ];
    assert_eq!(pick_sidecar(&found, 1).unwrap().path, "/m/b.srt");
    assert_eq!(pick_sidecar(&found, 2).unwrap_err().status(), 404);
    assert!(matches!(
        plan_vtt(SIDECAR_BASE_INDEX + 1, &vec![], false),
        SubtitlePlan::Sidecar { offset: 1 }
    ));
    assert!(matches!(
        plan_ass(SIDECAR_BASE_INDEX),
        SubtitlePlan::Sidecar { offset: 0 }
    ));
}

fn track(stream_index: u32, codec: &str, is_forced: bool) -> TrackInfo {
    TrackInfo { stream_index, codec: Some(codec.into()), is_forced }
}

#[test]
fn image_tracks_are_not_converted() {
    let tracks = vec![track(2, "hdmv_pgs_subtitle", false), track(3, "ass", false)];
    match plan_vtt(2, &tracks, false) {
        SubtitlePlan::CannotConvert { body } => assert_eq!(
            body,
            "{\"error\":\"image-based subtitles cannot convert to WebVTT\",\"codec\":\"hdmv_pgs_subtitle\"}"
        ),
        other => panic!("{other:?}"),
    }
    assert_eq!(plan_js(2, &tracks).unwrap_err().status(), 415);
    assert!(matches!(plan_vtt(3, &tracks, false), SubtitlePlan::Extract { style_lossy: true }));
    assert!(matches!(plan_js(3, &tracks), Ok(SubtitlePlan::Extract { style_lossy: false })));
}

#[test]
fn forced_only_refuses_full_tracks() {
    let tracks = vec![track(2, "subrip", false), track(3, "subrip", true)];
    assert!(matches!(plan_vtt(2, &tracks, true), SubtitlePlan::NotForced { .. }));
    assert!(matches!(plan_vtt(3, &tracks, true), SubtitlePlan::Extract { style_lossy: false }));
    assert!(parse_forced_only("ForcedOnly=yes"));
    assert!(parse_forced_only("a=b&forcedonly=1"));
    assert!(!parse_forced_only("ForcedOnly=no"));
}

#[test]
fn extraction_names_its_stream() {
    let args = extract_args("/m/a.mkv", Some(3), "webvtt", "webvtt");
    let joined = args.join(" ");
    assert!(joined.contains("-i /m/a.mkv"), "{joined}");
    assert!(joined.contains("0:3"), "{joined}");
}

// ------------------------------------------------------------------------ codecs

#[test]
fn image_codec_detection_covers_common_names() {
    for c in [
        "hdmv_pgs_subtitle",
        "PGS",
        "pgssub",
        "dvb_subtitle",
        "DVDSub",
        "VobSub",
    ] {
        assert!(is_image_subtitle_codec(c), "{c} should be flagged");
    }
    for c in ["subrip", "srt", "webvtt", "ass", "ssa", "mov_text"] {
        assert!(!is_image_subtitle_codec(c), "{c} should NOT be flagged");
    }
}

#[test]
fn styled_codec_detection_covers_ass_ssa() {
    for c in ["ass", "ASS", "ssa", "advanced substation alpha"] {
        assert!(is_styled_text_subtitle_codec(c), "{c} should be flagged");
    }
    for c in ["subrip", "webvtt", "mov_text", "pgssub"] {
        assert!(!is_styled_text_subtitle_codec(c), "{c} should NOT be flagged");
    }
}

#[test]
fn a_style_block_is_one_rule() {
    let value = |v: &str| Some(v.to_string());
    let style = SubtitleStyle {
        color: value("red; } ::cue { x: y"),
        background: value(" #000 "),
        font_size: value("2em\r"),
        position: value("top"),
    };
    let block = String::from_utf8(style.render_style_block()).unwrap();
    assert_eq!(block, "STYLE\n::cue {\n  background-color: #000;\n  font-size: 2em;\n}\n\n");
    let quoted = SubtitleStyle { color: value("'red'"), ..SubtitleStyle::default() };
    let block = String::from_utf8(quoted.render_style_block()).unwrap();
    assert_eq!(block, "STYLE\n::cue {\n}\n\n");
}

#[test]
fn an_arrow_in_the_text_is_text() {
    let doc = "WEBVTT\n\n7\n00:01.000 --> 00:02.000 align:start\nA --> B\nC\n";
    let events = webvtt_to_track_events(doc);
    assert_eq!(events.len(), 1);
    assert_eq!(events[0].text, "A --> B\nC");
    assert_eq!(events[0].start_position_ticks, 10_000_000);
    assert_eq!(events[0].end_position_ticks, 20_000_000);
}

#[test]
fn findings_last_while_the_directory_does() {
    let found = |name: &str| vec![Sidecar { path: name.into(), kind: SidecarKind::Vtt }];
    let mut cache = SidecarCache::new();
    assert!(cache.get("/m/a.mkv", 5).is_none());
    cache.store("/m/a.mkv", 5, &found("/m/a.vtt"));
    cache.store("/m/b.mkv", 5, &vec![]);
    let again = cache.get("/m/a.mkv", 5).unwrap();
    assert_eq!(again.len(), 1);
    assert_eq!(again[0].path, "/m/a.vtt");
    assert_eq!(again[0].kind, SidecarKind::Vtt);
    assert!(cache.get("/m/b.mkv", 5).unwrap().is_empty());
    // The directory has changed.
    assert!(cache.get("/m/a.mkv", 6).is_none());
    cache.store("/m/a.mkv", 6, &found("/m/a.en.vtt"));
    assert_eq!(cache.get("/m/a.mkv", 6).unwrap()[0].path, "/m/a.en.vtt");
    assert!(cache.get("/m/a.mkv", 5).is_none());
    assert!(cache.get("/m/b.mkv", 5).is_some());
}
