use pharos_server::stream_select::SubtitleMode;
use pharos_server::user_prefs::{
    seed_default_configuration, track_preference, TrackPreference, UserConfiguration, UserDefaults,
};

#[test]
fn an_unconfigured_user_gets_jellyfins_defaults() {
    let p = TrackPreference::from_configuration(&UserConfiguration::default());
    assert!(p.audio_languages.is_empty());
    assert!(p.prefer_default_audio_track, "on by default");
    assert_eq!(p.subtitle_mode, SubtitleMode::Default);
    assert!(!p.audio_original_language);
}

#[test]
fn a_configured_language_expands_to_the_tags_files_carry() {
    let cfg = UserConfiguration {
        audio_language_preference: "eng".into(),
        subtitle_language_preference: "jpn".into(),
        subtitle_mode: "Smart".into(),
        play_default_audio_track: false,
        ..Default::default()
    };
    let p = TrackPreference::from_configuration(&cfg);
    assert_eq!(p.audio_languages, vec!["en", "eng"]);
    assert_eq!(p.subtitle_languages, vec!["ja", "jpn"]);
    assert_eq!(p.subtitle_mode, SubtitleMode::Smart);
    assert!(!p.prefer_default_audio_track);
}

/// `OriginalLanguage` is not a language: it defers to the item.
#[test]
fn original_language_defers_to_the_item() {
    let cfg = UserConfiguration {
        audio_language_preference: "OriginalLanguage".into(),
        ..Default::default()
    };
    let p = TrackPreference::from_configuration(&cfg);
    assert!(p.audio_original_language);
    assert!(p.audio_languages.is_empty());
    assert_eq!(p.audio_languages_for(Some("jpn")), vec!["ja", "jpn"]);
    // Nothing recorded for the item: no preference, not a wrong one.
    assert!(p.audio_languages_for(None).is_empty());
}

fn stock_defaults() -> UserDefaults {
    let stock = UserConfiguration::default();
    UserDefaults {
        audio_language_preference: stock.audio_language_preference,
        subtitle_language_preference: stock.subtitle_language_preference,
        subtitle_mode: stock.subtitle_mode,
        play_default_audio_track: stock.play_default_audio_track,
    }
}

/// Where nothing is configured, nothing is written to new accounts.
#[test]
fn stock_defaults_write_no_configuration_at_all() {
    assert!(seed_default_configuration(&stock_defaults()).is_none());
}

/// A configured default lands as a real configuration.
#[test]
fn a_configured_default_is_stored_for_a_new_user() {
    let defaults = UserDefaults {
        audio_language_preference: "OriginalLanguage".into(),
        subtitle_language_preference: "eng".into(),
        subtitle_mode: "Smart".into(),
        play_default_audio_track: false,
    };
    let cfg = seed_default_configuration(&defaults).expect("a configuration was written");
    assert_eq!(cfg.audio_language_preference, "OriginalLanguage");
    assert_eq!(cfg.subtitle_mode, "Smart");
    assert!(!cfg.play_default_audio_track);

    // And it resolves into the preferences that selection uses.
    let prefs = TrackPreference::from_configuration(&cfg);
    assert!(prefs.audio_original_language);
    assert_eq!(prefs.subtitle_mode, SubtitleMode::Smart);
    assert!(!prefs.prefer_default_audio_track);
}

#[test]
fn a_fixed_preference_ignores_the_items_original_language() {
    let cfg = UserConfiguration {
        audio_language_preference: "eng".into(),
        ..Default::default()
    };
    let p = TrackPreference::from_configuration(&cfg);
    assert_eq!(p.audio_languages_for(Some("jpn")), vec!["en", "eng"]);
}

#[test]
fn no_stored_configuration_is_the_stock_one() {
    let p = track_preference(None);
    assert!(p.prefer_default_audio_track);
    assert!(p.subtitle_languages.is_empty());
}
