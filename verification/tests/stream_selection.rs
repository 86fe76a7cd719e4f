use pharos_server::stream_select::{
    default_audio_stream_index, default_subtitle_stream_index, normalize_language, stream_score,
    StreamFacts, SubtitleMode,
};

fn langs(v: &[&str]) -> Vec<String> {
    v.iter().map(|s| (*s).to_string()).collect()
}

fn audio(index: u32, language: &str, is_default: bool) -> StreamFacts {
    StreamFacts {
        index,
        language: Some(language.into()),
        is_default,
        ..Default::default()
    }
}

/// The scores are observable, so a divergence here is one that a client can
/// see.
#[test]
fn stream_scores_match_upstreams_table() {
    let prefs = langs(&["eng", "fre"]);
    let base = StreamFacts::default();
    assert_eq!(stream_score(&base, &prefs), 111_111);
    assert_eq!(
        stream_score(
            &StreamFacts {
                language: Some("eng".into()),
                ..Default::default()
            },
            &prefs
        ),
        10_111_111
    );
    assert_eq!(
        stream_score(
            &StreamFacts {
                language: Some("fre".into()),
                ..Default::default()
            },
            &prefs
        ),
        10_011_111
    );
    assert_eq!(
        stream_score(
            &StreamFacts {
                is_forced: true,
                ..Default::default()
            },
            &prefs
        ),
        121_111
    );
    assert_eq!(
        stream_score(
            &StreamFacts {
                is_default: true,
                ..Default::default()
            },
            &prefs
        ),
        112_111
    );
    assert_eq!(
        stream_score(
            &StreamFacts {
                supports_external_stream: true,
                ..Default::default()
            },
            &prefs
        ),
        111_211
    );
    assert_eq!(
        stream_score(
            &StreamFacts {
                is_external: true,
                ..Default::default()
            },
            &prefs
        ),
        111_112
    );
    assert_eq!(
        stream_score(
            &StreamFacts {
                language: Some("eng".into()),
                is_forced: true,
                is_default: true,
                supports_external_stream: true,
                is_external: true,
                ..Default::default()
            },
            &prefs
        ),
        10_122_212
    );
}

/// A French default track and an English one that is not: the default wins over
/// the language where the viewer prefers default tracks.
#[test]
fn audio_selection_matches_upstreams_table() {
    let streams = vec![audio(1, "fre", true), audio(2, "eng", false)];
    let cases: &[(&[&str], bool, u32)] = &[
        (&[], false, 1),
        (&[], true, 1),
        (&["eng"], false, 2),
        (&["eng"], true, 1),
        (&["eng", "fre"], false, 2),
        (&["fre", "eng"], false, 1),
        (&["eng", "fre"], true, 1),
    ];
    for (prefs, prefer_default, want) in cases {
        let got = default_audio_stream_index(&streams, &langs(prefs), *prefer_default);
        assert_eq!(
            got,
            Some(*want),
            "prefs {prefs:?} prefer_default {prefer_default}"
        );
    }
}

#[test]
fn audio_selection_of_nothing_is_none() {
    for prefer_default in [true, false] {
        assert_eq!(
            default_audio_stream_index(&[], &langs(&["eng"]), prefer_default),
            None
        );
    }
}

/// The only default-flagged audio is in a language that the viewer does not
/// speak. The preference alone does not rescue it.
#[test]
fn a_default_flagged_dub_beats_the_language_preference_until_that_setting_is_off() {
    let streams = vec![
        audio(1, "ukr", true),
        audio(2, "ukr", false),
        audio(3, "ukr", false),
        audio(4, "eng", false),
    ];
    let prefs = langs(&["eng"]);
    assert_eq!(
        default_audio_stream_index(&streams, &prefs, true),
        Some(1),
        "prefer_default_track on: the Ukrainian default wins"
    );
    assert_eq!(
        default_audio_stream_index(&streams, &prefs, false),
        Some(4),
        "prefer_default_track off: the English track wins"
    );
}

#[test]
fn subtitle_mode_none_selects_nothing() {
    let subs = vec![StreamFacts {
        index: 5,
        language: Some("eng".into()),
        is_default: true,
        ..Default::default()
    }];
    assert_eq!(
        default_subtitle_stream_index(&subs, &langs(&["eng"]), SubtitleMode::Off, Some("jpn")),
        None
    );
}

/// Smart is the mode that gives "Japanese audio with English subtitles" for
/// anime and no subtitles for an English film, from ONE setting.
#[test]
fn smart_subtitles_appear_only_when_the_audio_is_foreign() {
    let subs = vec![StreamFacts {
        index: 5,
        language: Some("eng".into()),
        ..Default::default()
    }];
    let prefs = langs(&["eng"]);
    assert_eq!(
        default_subtitle_stream_index(&subs, &prefs, SubtitleMode::Smart, Some("jpn")),
        Some(5),
        "foreign audio → the readable subtitle track"
    );
    assert_eq!(
        default_subtitle_stream_index(&subs, &prefs, SubtitleMode::Smart, Some("eng")),
        None,
        "audio already readable → nothing but forced tracks"
    );
}

/// With readable audio, Smart still surfaces a FORCED track — the
/// signs-and-songs case.
#[test]
fn smart_still_shows_forced_tracks_under_readable_audio() {
    let subs = vec![
        StreamFacts {
            index: 5,
            language: Some("eng".into()),
            ..Default::default()
        },
        StreamFacts {
            index: 6,
            language: Some("eng".into()),
            is_forced: true,
            ..Default::default()
        },
    ];
    assert_eq!(
        default_subtitle_stream_index(
            &subs,
            &langs(&["eng"]),
            SubtitleMode::Smart,
            Some("eng")
        ),
        Some(6)
    );
}

#[test]
fn only_forced_accepts_an_undefined_language_tag() {
    for tag in [None, Some("und"), Some("mul"), Some("zxx"), Some("")] {
        let subs = vec![StreamFacts {
            index: 7,
            language: tag.map(str::to_string),
            is_forced: true,
            ..Default::default()
        }];
        assert_eq!(
            default_subtitle_stream_index(
                &subs,
                &langs(&["eng"]),
                SubtitleMode::OnlyForced,
                Some("jpn")
            ),
            Some(7),
            "tag {tag:?}"
        );
    }
}

#[test]
fn always_prefers_a_full_track_over_a_forced_one() {
    let subs = vec![
        StreamFacts {
            index: 6,
            language: Some("eng".into()),
            is_forced: true,
            ..Default::default()
        },
        StreamFacts {
            index: 7,
            language: Some("eng".into()),
            ..Default::default()
        },
    ];
    assert_eq!(
        default_subtitle_stream_index(
            &subs,
            &langs(&["eng"]),
            SubtitleMode::Always,
            Some("jpn")
        ),
        Some(7)
    );
}

#[test]
fn language_normalization_covers_the_tags_files_actually_carry() {
    assert_eq!(normalize_language("eng"), vec!["en", "eng"]);
    assert_eq!(normalize_language("en"), vec!["en", "eng"]);
    assert_eq!(normalize_language("en-US"), vec!["en", "eng"]);
    assert_eq!(normalize_language("ja"), vec!["ja", "jpn"]);
    // 639-2/B and /T differ for these, and files use both.
    assert_eq!(normalize_language("fre"), vec!["fr", "fra", "fre"]);
    assert_eq!(normalize_language("ger"), vec!["de", "deu", "ger"]);
    // Unknown codes still match themselves rather than vanishing.
    assert_eq!(normalize_language("qya"), vec!["qya"]);
    assert!(normalize_language("  ").is_empty());
}

#[test]
fn an_unset_preference_matches_any_language() {
    let streams = vec![audio(1, "ukr", false), audio(2, "eng", false)];
    assert_eq!(default_audio_stream_index(&streams, &[], false), Some(1));
}

#[test]
fn subtitle_mode_parses_the_strings_jellyfin_web_posts() {
    assert_eq!(SubtitleMode::from_config("None"), SubtitleMode::Off);
    assert_eq!(SubtitleMode::from_config("Always"), SubtitleMode::Always);
    assert_eq!(
        SubtitleMode::from_config("OnlyForced"),
        SubtitleMode::OnlyForced
    );
    assert_eq!(SubtitleMode::from_config("Smart"), SubtitleMode::Smart);
    assert_eq!(SubtitleMode::from_config("Default"), SubtitleMode::Default);
    assert_eq!(SubtitleMode::from_config("nonsense"), SubtitleMode::Default);
}

#[test]
fn regions_and_spellings_give_the_same_tags() {
    let german = vec!["de", "deu", "ger"];
    for spelling in ["de", "DEU", "Ger", "de-AT", "ger_x", " de-  ", "deu-\u{e9}"] {
        assert_eq!(normalize_language(spelling), german, "{spelling}");
    }
    assert!(normalize_language(" \t").is_empty());
    assert_eq!(normalize_language("-"), vec!["-", ""]);
}
