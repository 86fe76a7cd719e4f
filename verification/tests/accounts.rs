use pharos_server::live_tv::{
    channel, channels, programs, program_window, Channel, Lineup, Program, ProgramsQuery,
};
use pharos_server::media::MediaKind;
use pharos_server::playlists::{
    create_playlist, move_item, parse_str_csv, playlist_items, require_playlist, PlaylistEntry,
};
use pharos_server::remote_items::{
    add_remote_item, remote_failure, remote_library_name, remote_library_root, remote_url,
    AddRemoteBody,
};
use pharos_server::path_text::is_below;
use pharos_server::sessions::{playing_started, UserItemData};
use pharos_server::shows::{EpisodeRow, SeriesRow};
use pharos_server::user_data::{
    check_bearer, folder_record, mutate_synth_folder, put_mark, require_bearer_match, Mark,
};
use pharos_server::users::{
    authenticate_with_quick_connect, pick_param, query_param_ci, quick_connect_authorize,
    quick_connect_code, quick_connect_connect, quick_connect_credential, quick_connect_secret,
    session_device_id, sign_in_notice, sign_in_refusal, AuthFailure, PendingEntry,
};

// ---------------------------------------------------------------------- sign-in

#[test]
fn parameters_are_decoded_and_have_no_case() {
    assert_eq!(query_param_ci("x=1&Secret=a%20b%2Bc", "secret"), Some("a b+c".to_string()));
    assert_eq!(query_param_ci("secret=a+b", "SECRET"), Some("a b".to_string()));
    assert_eq!(query_param_ci("x=1", "secret"), None);
    let pairs: Vec<(String, String)> = vec![
        ("Code".into(), "1".into()),
        ("code".into(), "2".into()),
        ("Code".into(), "3".into()),
    ];
    assert_eq!(pick_param(&pairs, "CODE"), Some("3".to_string()));
}

#[test]
fn quick_connect_needs_its_parameters() {
    assert_eq!(quick_connect_code("code=123456").unwrap(), "123456");
    assert_eq!(quick_connect_code("code=%20").unwrap_err().message(), "Code query param required");
    assert_eq!(quick_connect_secret("Secret=s").unwrap(), "s");
    assert_eq!(quick_connect_secret("").unwrap_err().message(), "Secret query param required");
    assert_eq!(quick_connect_credential("s".into()).unwrap(), "s");
    assert_eq!(quick_connect_credential(" ".into()).unwrap_err().message(), "Secret required");
    assert!(quick_connect_authorize(true).is_ok());
    assert_eq!(quick_connect_authorize(false).unwrap_err().message(), "unknown code");
}

fn pending(by: Option<&str>) -> PendingEntry {
    PendingEntry {
        code: "123".into(),
        secret: "s".into(),
        device_id: "tv".into(),
        authorized_by: by.map(String::from),
    }
}

#[test]
fn quick_connect_waits_for_a_user() {
    let waiting = quick_connect_connect(Some(pending(None))).unwrap();
    assert_eq!((waiting.secret.as_str(), waiting.authenticated), ("s", false));
    assert!(quick_connect_connect(Some(pending(Some("u")))).unwrap().authenticated);
    let gone = match quick_connect_connect(None) {
        Ok(_) => panic!("no entry"),
        Err(e) => e,
    };
    assert_eq!((gone.status(), gone.message()), (404, "unknown or expired secret".to_string()));
    assert_eq!(
        authenticate_with_quick_connect(Some(pending(Some("u")))).unwrap(),
        ("u".to_string(), "tv".to_string())
    );
    assert_eq!(authenticate_with_quick_connect(None).unwrap_err().status(), 401);
    assert_eq!(authenticate_with_quick_connect(Some(pending(None))).unwrap_err().status(), 500);
}

#[test]
fn sign_ins_have_a_device() {
    assert_eq!(session_device_id(&Some("id".into()), &Some("TV".into())), "id");
    assert_eq!(session_device_id(&None, &Some("TV".into())), "TV");
    let made_up = session_device_id(&None, &None);
    assert_eq!(made_up.len(), 32);
    assert_ne!(made_up, session_device_id(&None, &None));
    assert_eq!(sign_in_notice("jana", false), "jana logged in");
    assert_eq!(sign_in_notice("jana", true), "jana logged in via Quick Connect");
}

#[test]
fn a_failed_sign_in_says_little() {
    let wrong = sign_in_refusal(AuthFailure::InvalidCredentials);
    let unknown = sign_in_refusal(AuthFailure::UserNotFound);
    assert_eq!((wrong.status(), wrong.message()), (unknown.status(), unknown.message()));
    assert_eq!(wrong.status(), 401);
    assert_eq!(sign_in_refusal(AuthFailure::Other("db".into())).message(), "db");
}

#[test]
fn sessions_start_with_what_the_client_says() {
    let s = playing_started(Some("p".into()), &None, &Some("TV".into()), "42", None);
    assert_eq!((s.session_id.as_str(), s.device_id.as_str()), ("p", "TV"));
    assert_eq!((s.item_id.as_str(), s.position_ticks), ("42", 0));
    let t = playing_started(None, &None, &None, "42", Some(9));
    assert_eq!((t.session_id.len(), t.device_id.as_str(), t.position_ticks), (32, "unknown", 9));
}

// ------------------------------------------------------------------------- marks

#[test]
fn marks_change_a_record() {
    let d = UserItemData { last_played_position_ticks: 5, ..Default::default() };
    let played = put_mark(d, Mark::Played, 77);
    assert_eq!((played.played, played.play_count), (true, 1));
    assert_eq!((played.last_played_position_ticks, played.last_played_at), (0, 77));
    assert!(!put_mark(played, Mark::Unplayed, 78).played);
    let favorite = put_mark(d, Mark::Favorite, 77);
    assert!(favorite.is_favorite);
    assert_eq!(put_mark(favorite, Mark::NotFavorite, 77), d);
    let full = UserItemData { play_count: u32::MAX, ..d };
    assert_eq!(put_mark(full, Mark::Played, 0).play_count, u32::MAX);
    assert_eq!(folder_record(Mark::Played, 7).play_count, 1);
}

#[test]
fn only_the_viewer_marks_their_record() {
    let id = "0123456789abcdef0123456789abcdef";
    assert!(require_bearer_match(id, id).is_ok());
    assert_eq!(require_bearer_match(id, "other").unwrap_err().message(), "user mismatch");
    assert_eq!(require_bearer_match("me", "me").unwrap_err().message(), "invalid user id");
    assert_eq!(check_bearer("me", "me", false).unwrap_err().status(), 400);
    assert!(check_bearer("me", "me", true).is_ok());
}

fn episode(season: u32) -> EpisodeRow {
    EpisodeRow {
        kind: MediaKind::Episode,
        id: "e".into(),
        played: false,
        series: Some(SeriesRow {
            key: "k".into(),
            name: "n".into(),
            series_id: "s".into(),
            season_id: Some(format!("s{season}")),
            season_number: Some(season),
            episode_number: None,
        }),
    }
}

#[test]
fn a_mark_on_a_series_goes_to_its_episodes() {
    let rows = vec![episode(1), episode(2), episode(1)];
    assert_eq!(mutate_synth_folder(&rows, "s").unwrap(), vec![0, 1, 2]);
    assert_eq!(mutate_synth_folder(&rows, "s1").unwrap(), vec![0, 2]);
    let none = mutate_synth_folder(&rows, "x").unwrap_err();
    assert_eq!((none.status(), none.message()), (404, "item not found".to_string()));
}

// --------------------------------------------------------------------- playlists

#[test]
fn playlists_have_defaults() {
    let p = create_playlist(Some("  "), None);
    assert_eq!((p.name.as_str(), p.media_type.as_str()), ("New Playlist", "Video"));
    let q = create_playlist(Some(" Mix "), Some("Audio"));
    assert_eq!((q.name.as_str(), q.media_type.as_str()), ("Mix", "Audio"));
    assert_eq!(parse_str_csv(Some("a, ,b")), vec!["a", "b"]);
    assert!(parse_str_csv(None).is_empty());
}

#[test]
fn playlists_keep_their_order_and_repeats() {
    let entry = |id: &str, item: Option<u64>| PlaylistEntry { entry_id: id.into(), item };
    let rows = playlist_items(&vec![entry("a", Some(2)), entry("b", None), entry("c", Some(2))]);
    assert_eq!(rows, vec![("a".to_string(), 2), ("c".to_string(), 2)]);
    assert!(require_playlist(true).is_ok());
    assert_eq!(require_playlist(false).unwrap_err().message(), "playlist not found");
    assert!(move_item(Some(true)).is_ok());
    assert_eq!(move_item(Some(false)).unwrap_err().message(), "playlist entry not found");
    assert_eq!(move_item(None).unwrap_err().message(), "playlist not found");
}

// ----------------------------------------------------------------------- the web

#[test]
fn the_remote_library_root_captures_synthetic_paths_and_nothing_else() {
    let root = remote_library_root();
    assert!(is_below("ytdlp://youtube/dQw4w9WgXcQ", root));
    // A different site still lands in the same library.
    assert!(is_below("ytdlp://vimeo/76979871", root));
    for real in ["/media", "/media/Movies/Arrival.mkv", "/var/lib/pharos/media"] {
        assert!(!is_below(real, root), "{real} must not fall in the remote library");
    }
    assert_eq!(remote_library_name(), "Web Videos");
}

#[test]
fn web_items_are_asked_for_by_address() {
    let body = AddRemoteBody { url: "  https://x/y ".into() };
    assert_eq!(remote_url(true, "off", &body).unwrap(), "https://x/y");
    let off = remote_url(false, "off", &body).unwrap_err();
    assert_eq!((off.status(), off.message()), (503, "off".to_string()));
    let blank = remote_url(true, "off", &AddRemoteBody { url: " ".into() }).unwrap_err();
    assert_eq!(blank.message(), "url is required");
    let failed = remote_failure("https://x", "private");
    assert_eq!((failed.status(), failed.message()), (502, "could not read https://x: private".to_string()));
    let r = add_remote_item("id", "Title", Some(1_500), true);
    assert_eq!((r.run_time_ticks, r.already_present), (Some(15_000_000), true));
    assert_eq!(add_remote_item("id", "Title", None, false).run_time_ticks, None);
}

// -------------------------------------------------------------------- television

fn tuner() -> Lineup {
    Lineup::Channels(vec![Channel {
        id: "c1".into(),
        name: "One".into(),
        number: None,
        group_title: None,
        logo_url: None,
        stream_url: "http://s".into(),
    }])
}

#[test]
fn channels_are_listed_and_found() {
    assert_eq!(channel(&tuner(), "c1").unwrap(), 0);
    assert_eq!(channel(&tuner(), "c2").unwrap_err().status(), 404);
    assert_eq!(channels(tuner()).unwrap().len(), 1);
    assert!(channels(Lineup::NoTuner).unwrap().is_empty());
    assert_eq!(channels(Lineup::Failed("io".into())).unwrap_err().status(), 500);
}

#[test]
fn programmes_have_dates() {
    let items = programs(&vec![Program {
        channel_id: "c1".into(),
        title: "News".into(),
        description: None,
        start_unix_ms: 1_700_000_000_000,
        end_unix_ms: 1_700_000_060_000,
    }]);
    assert_eq!(items[0].id, "c1-1700000000000");
    assert_eq!(items[0].start_date, "2023-11-14T22:13:20.000Z");
    assert_eq!(items[0].end_date, "2023-11-14T22:14:20.000Z");
    let q = ProgramsQuery {
        min_start_date: Some("2023-11-14T22:13:20Z".into()),
        max_end_date: None,
        window_hours: 6,
    };
    assert_eq!(program_window(&q, 0), (1_700_000_000_000, 1_700_021_600_000));
}
