use pharos_server::dates::{
    parse_time_ms, unix_ms_to_iso8601, unix_to_ymd_hms, ymd_hms_to_unix,
};
use pharos_server::media::MediaKind;
use pharos_server::playback::{
    playback_info, AlternateSource, Decision, ListedStream, PlaybackRequest, ResumeRecord,
    SubtitleTrack, TranscodingProfile,
};
use pharos_server::search::{
    build_suggestions, default_limit, pick_suggestions, plan_search, search_hints, Catalogue, CorpusItem, ItemRef,
    NameRef, SearchPlan, SearchQuery, Viewing,
};
use pharos_server::sessions::{
    canonical_command, list_sessions, playing_progress, playing_stopped, reported_item,
    title_case, SessionRow, UserItemData,
};
use pharos_server::shuffle::{pseudo_seed, seed_from, xorshift_shuffle};
use pharos_server::socket::{
    farewell, greeting, group_joined, group_left, handle_connection, handle_inbound, takes_event,
    Connection, Frame, GroupCommand, GroupRef, InboundAction, ServerMsg, SocketAction, SocketEvent,
    IDLE_DROP_MS,
};
use pharos_server::socket_messages::{Inbound, Outbound, Payload, SyncPlaySeekData};
use pharos_server::syncplay::{dispatch, Caller, SyncPlayRequest};

// ---------------------------------------------------------------------- playback

const BROWSER: &str = "Mozilla/5.0 (X11; Linux x86_64) Firefox/130.0";

fn request(decision: Decision) -> PlaybackRequest {
    PlaybackRequest {
        item_id: "42".into(),
        title: "Film".into(),
        is_video: true,
        container: "mkv".into(),
        video_codec: Some("h264".into()),
        audio_codec: Some("aac".into()),
        run_time_ticks: Some(600),
        size_bytes: Some(9),
        bitrate_bps: Some(8),
        subtitle_tracks: vec![],
        streams: vec![],
        alternates: vec![],
        decision,
        transcoding_profiles: vec![],
        direct_play_profiles: vec![],
        user_agent: Some("TV".into()),
        linux_firefox_h264: false,
        query: String::new(),
        body_audio_index: None,
        body_subtitle_index: None,
        api_key: "k".into(),
        play_session_id: "p".into(),
        resume: None,
    }
}

#[test]
fn a_file_that_plays_has_no_stream() {
    let info = playback_info(&request(Decision::DirectPlay));
    assert_eq!(info.media_sources.len(), 1);
    let s = &info.media_sources[0];
    assert!(s.supports_direct_play);
    assert_eq!(s.transcoding_url, None);
    assert_eq!(info.play_session_id, "p");
}

#[test]
fn a_stream_carries_the_picked_tracks() {
    let mut q = request(Decision::Transcode { target_video_codec: Some("h264".into()) });
    q.body_audio_index = Some(2);
    q.subtitle_tracks =
        vec![SubtitleTrack { stream_index: 5, is_default: false, is_text: false }];
    q.query = "SubtitleStreamIndex=5".into();
    let info = playback_info(&q);
    assert_eq!(
        info.media_sources[0].transcoding_url.as_deref(),
        Some("/videos/42/master.m3u8?PlaySessionId=p&api_key=k&AudioStreamIndex=2&SubtitleStreamIndex=5")
    );
    assert!(!info.media_sources[0].supports_direct_play);
}

#[test]
fn text_subtitles_are_not_in_the_stream() {
    let mut q = request(Decision::AudioRemux);
    q.subtitle_tracks = vec![SubtitleTrack { stream_index: 5, is_default: false, is_text: true }];
    q.query = "SubtitleStreamIndex=5".into();
    assert_eq!(
        playback_info(&q).media_sources[0].transcoding_url.as_deref(),
        Some("/videos/42/master.m3u8?PlaySessionId=p&api_key=k")
    );
}

#[test]
fn native_players_resume_by_the_address() {
    let mut q = request(Decision::AudioRemux);
    q.resume = Some(ResumeRecord { played: false, position_ticks: 77 });
    let info = playback_info(&q);
    assert_eq!(info.start_position_ticks, 77);
    assert!(info.media_sources[0]
        .transcoding_url
        .as_deref()
        .unwrap()
        .ends_with("&StartTimeTicks=77"));
    // A browser seeks by itself, and what is played starts over.
    q.user_agent = Some("Mozilla/5.0 (Macintosh)".into());
    assert!(!playback_info(&q).media_sources[0]
        .transcoding_url
        .as_deref()
        .unwrap()
        .contains("StartTimeTicks"));
    q.resume = Some(ResumeRecord { played: true, position_ticks: 77 });
    assert_eq!(playback_info(&q).start_position_ticks, 0);
}

#[test]
fn a_doubtful_browser_gets_another_codec() {
    let mut q = request(Decision::DirectPlay);
    q.user_agent = Some(BROWSER.into());
    q.transcoding_profiles =
        vec![TranscodingProfile { kind: "Video".into(), video_codec: "vp9,h264".into() }];
    assert!(playback_info(&q).media_sources[0]
        .transcoding_url
        .as_deref()
        .unwrap()
        .starts_with("/videos/42/vp9/master.m3u8"));
    q.linux_firefox_h264 = true;
    assert_eq!(playback_info(&q).media_sources[0].transcoding_url, None);
}

#[test]
fn default_streams_and_other_editions() {
    let stream = |kind: &str, index: u32, is_default: bool, language: &str| ListedStream {
        kind: kind.into(),
        index,
        is_default,
        language: Some(language.into()),
    };
    let mut q = request(Decision::DirectPlay);
    q.streams = vec![
        stream("Video", 0, true, "und"),
        stream("Audio", 1, false, "jpn"),
        stream("Subtitle", 2, false, "fre"),
        stream("Subtitle", 3, false, "ENG"),
    ];
    q.alternates = vec![AlternateSource {
        id: "43".into(),
        name: Some("Director's cut".into()),
        container: None,
        duration_ms: Some(5),
        size_bytes: None,
        bitrate_bps: None,
    }];
    let info = playback_info(&q);
    assert_eq!(info.media_sources[0].default_audio_stream_index, Some(1));
    assert_eq!(info.media_sources[0].default_subtitle_stream_index, Some(3));
    assert_eq!(info.media_sources.len(), 2);
    assert_eq!(info.media_sources[1].id, "42-43");
    assert_eq!(info.media_sources[1].run_time_ticks, Some(50_000));
}

// ------------------------------------------------------------------------ search

fn name(id: &str, n: &str) -> Option<NameRef> {
    Some(NameRef { id: id.into(), name: n.into() })
}

fn corpus() -> Vec<CorpusItem> {
    let item = |id: &str, title: &str| ItemRef {
        id: id.into(),
        title: title.into(),
        kind: MediaKind::Audio,
        run_time_ticks: None,
    };
    vec![
        CorpusItem {
            item: item("1", "One"),
            artist: name("a", "Électra"),
            album_artist: name("a", "Électra"),
            album: name("b", "Blue"),
            genre: None,
        },
        CorpusItem {
            item: item("2", "Two"),
            artist: name("a", "Électra"),
            album_artist: None,
            album: None,
            genre: name("g", "Electro"),
        },
    ]
}

fn nothing_else() -> Catalogue {
    Catalogue { people: vec![], studios: vec![], collections: vec![], tags: vec![] }
}

fn query(term: &str) -> SearchQuery {
    SearchQuery {
        search_term: Some(term.into()),
        limit: default_limit(),
        start_index: 0,
        include_item_types: None,
    }
}

#[test]
fn names_are_hinted_once_whatever_their_case() {
    let hints = search_hints(&query(" ÉLEC "), &corpus(), &vec![], &nothing_else());
    let shown: Vec<(&str, &str)> =
        hints.search_hints.iter().map(|h| (h.name.as_str(), h.kind)).collect();
    assert_eq!(shown, vec![("Électra", "MusicArtist")]);
    assert_eq!(hints.total_record_count, 1);
}

#[test]
fn listed_types_say_which_names_are_hinted_at() {
    let catalogue = Catalogue { people: vec![NameRef { id: "p".into(), name: "Electra King".into() }], ..nothing_else() };
    let kinds = |types: Option<&str>, term: &str| -> Vec<&'static str> {
        let q = SearchQuery { include_item_types: types.map(String::from), ..query(term) };
        let r = search_hints(&q, &corpus(), &vec![], &catalogue);
        r.search_hints.iter().map(|h| h.kind).collect()
    };
    assert_eq!(kinds(None, "elec"), vec!["Genre", "Person"]);
    for types in ["Person", "Studio", "Tag", "Movie, person"] {
        assert_eq!(kinds(Some(types), "elec"), vec!["Person"], "{types}");
    }
    assert_eq!(kinds(Some("genre"), "elec"), vec!["Genre", "Person"]);
    assert_eq!(kinds(Some("MusicAlbum"), "électra"), vec!["MusicArtist"]);
    assert!(kinds(Some("Movie"), "elec").is_empty());
}

#[test]
fn a_search_is_planned() {
    assert!(matches!(plan_search(&query("  ")), SearchPlan::Browse));
    match plan_search(&SearchQuery { include_item_types: Some("Movie".into()), ..query(" x ") }) {
        SearchPlan::Lookup { term, kinds, limit } => {
            assert_eq!(term, "x");
            assert_eq!(kinds, vec![MediaKind::Movie]);
            assert_eq!(limit, 225);
        }
        SearchPlan::Browse => panic!("a look-up"),
    }
}

#[test]
fn suggestions_are_unplayed() {
    let items: Vec<Viewing> = (0..20)
        .map(|i| Viewing { kind: MediaKind::Movie, played: i % 2 == 0 })
        .collect();
    // A third of the limit for each kind.
    let picks = pick_suggestions(&items, 12, 11);
    assert_eq!(picks.len(), 4);
    assert!(picks.iter().all(|k| !items[*k].played));
    assert_eq!(picks, pick_suggestions(&items, 12, 11));
    let drawn = build_suggestions(&items, 12);
    assert_eq!(drawn.len(), 4);
    assert!(drawn.iter().all(|k| !items[*k].played));
}

#[test]
fn seeds_are_odd() {
    assert_eq!(pseudo_seed() % 2, 1);
    assert_eq!(seed_from(Some([2, 0, 0, 0, 0, 0, 0, 0])), 3);
    assert_eq!(seed_from(None), 0x0807_0605_0403_0201);
    let mut v = vec![1, 2, 3];
    let mut state = 1u64;
    xorshift_shuffle(&mut v, &mut state);
    v.sort();
    assert_eq!(v, vec![1, 2, 3]);
    assert_ne!(state, 1);
}

// ------------------------------------------------------------------------- dates

#[test]
fn dates_are_written_and_read() {
    assert_eq!(unix_to_ymd_hms(0), (1970, 1, 1, 0, 0, 0));
    assert_eq!(unix_to_ymd_hms(951_782_400), (2000, 2, 29, 0, 0, 0));
    assert_eq!(unix_to_ymd_hms(-1), (1969, 12, 31, 23, 59, 59));
    assert_eq!(ymd_hms_to_unix(2000, 2, 29, 0, 0, 0), Some(951_782_400));
    assert_eq!(ymd_hms_to_unix(2000, 13, 1, 0, 0, 0), None);
    let text = unix_ms_to_iso8601(1_700_000_000_999);
    assert_eq!(text, "2023-11-14T22:13:20.000Z");
    assert_eq!(parse_time_ms(&text), Some(1_700_000_000_000));
    assert_eq!(parse_time_ms("1700000000123"), Some(1_700_000_000_123));
    assert_eq!(parse_time_ms("2023-11-14"), None);
    assert_eq!(parse_time_ms("yesterday at noon, really"), None);
}

// ---------------------------------------------------------------------- sessions

#[test]
fn stopping_near_the_end_counts_as_played() {
    let d = UserItemData::default();
    let seen = playing_stopped(d, Some(95), Some(100), 7);
    assert!(seen.played);
    assert_eq!((seen.play_count, seen.last_played_position_ticks), (1, 0));
    let left = playing_stopped(d, Some(50), Some(100), 7);
    assert!(!left.played);
    assert_eq!(left.last_played_position_ticks, 50);
    assert!(!playing_stopped(d, Some(50), None, 7).played);
    assert_eq!(playing_progress(d, None, 9).last_played_at, 9);
    assert_eq!(reported_item("42"), Some(42));
    assert_eq!(reported_item("x"), None);
}

#[test]
fn sessions_are_listed_to_their_owner() {
    let rows = || {
        vec![
            SessionRow { id: "1".into(), user_id: "a".into() },
            SessionRow { id: "2".into(), user_id: "b".into() },
        ]
    };
    assert_eq!(list_sessions(rows(), true, "a").len(), 2);
    let own = list_sessions(rows(), false, "b");
    assert_eq!(own.len(), 1);
    assert_eq!(own[0].id, "2");
}

#[test]
fn commands_have_their_usual_spelling() {
    assert_eq!(title_case("pause"), "Pause");
    assert_eq!(title_case(""), "");
    assert_eq!(canonical_command("nexttrack"), "NextTrack");
}

#[test]
fn a_command_keeps_its_name() {
    for s in ["NextTrack", "nexttrack", "SETAUDIOSTREAMINDEX", "goHome", ""] {
        let name = canonical_command(s);
        assert_eq!(canonical_command(&name), name);
        assert_eq!(canonical_command(&name.to_ascii_lowercase()), name);
        assert!(name.eq_ignore_ascii_case(s));
    }
    assert_eq!(canonical_command("goHome"), "Gohome");
}

// ------------------------------------------------------------------- connections

fn connection() -> Connection {
    Connection {
        bound_user_id: "u".into(),
        group_id: None,
        current_pli: None,
        current_group: None,
        last_client_seen_ms: 0,
    }
}

#[test]
fn silent_clients_are_dropped() {
    let mut c = connection();
    let early: SocketAction<u64> =
        handle_connection(&mut c, SocketEvent::Tick, IDLE_DROP_MS - 1, 0);
    assert!(!matches!(early, SocketAction::Hang));
    let late: SocketAction<u64> =
        handle_connection(&mut c, SocketEvent::Tick, IDLE_DROP_MS + 1, 0);
    assert!(matches!(late, SocketAction::Hang));
    let mut d = connection();
    let pong: SocketAction<u64> =
        handle_connection(&mut d, SocketEvent::FromClient(Some(Frame::Ping)), 50, 0);
    assert!(matches!(pong, SocketAction::Pong));
    assert_eq!(d.last_client_seen_ms, 50);
    let end: SocketAction<u64> = handle_connection(&mut d, SocketEvent::FromClient(None), 60, 0);
    assert!(matches!(end, SocketAction::Hang));
}

#[test]
fn the_groups_messages_are_passed_on() {
    let mut c = connection();
    let joined = ServerMsg::Joined { group_id: "g".into(), members: vec![] };
    let out: SocketAction<u64> = handle_connection(
        &mut c,
        SocketEvent::FromGroup { msg: joined, hub_epoch: Some(0) },
        0,
        0,
    );
    assert!(matches!(out, SocketAction::Send(_)));
    assert_eq!(c.group_id, Some("g".to_string()));
    let hello: Outbound<u64> = greeting();
    assert!(matches!(hello.data, Payload::Number(_)));
    let _ = farewell(&c, true);
}

#[test]
fn a_joined_group_stays_until_it_is_left() {
    let mut c = connection();
    let group = |id: &str| GroupRef { id: id.into(), epoch_unix_ms: 5 };
    group_joined(&mut c, None);
    assert!(c.current_group.is_none());
    group_joined(&mut c, Some(group("a")));
    group_joined(&mut c, None);
    assert_eq!(c.current_group.as_ref().map(|g| g.id.as_str()), Some("a"));
    group_joined(&mut c, Some(group("b")));
    assert_eq!(group_left(&mut c).map(|g| g.id), Some("b".to_string()));
    assert!(c.current_group.is_none());
    assert!(group_left(&mut c).is_none());
}

#[test]
fn times_that_do_not_fit_are_not_taken() {
    let mut c = connection();
    let play = |at_server_ms: u64, position_ms: u64| -> SocketEvent<u64> {
        SocketEvent::FromGroup {
            msg: ServerMsg::Play { at_server_ms, position_ms },
            hub_epoch: Some(10),
        }
    };
    assert!(takes_event(&c, &play(u64::MAX - 10, 0)));
    assert!(!takes_event(&c, &play(u64::MAX - 9, 0)));
    assert!(!takes_event(&c, &play(0, u64::MAX / 10_000 + 1)));
    // The group that was joined here counts before the hub's.
    c.current_group = Some(GroupRef { id: "g".into(), epoch_unix_ms: 0 });
    assert!(takes_event(&c, &play(u64::MAX, 0)));
    let tick: SocketEvent<u64> = SocketEvent::Tick;
    assert!(takes_event(&c, &tick));
}

fn inbound(message_type: &str) -> Inbound {
    Inbound {
        message_type: message_type.into(),
        message_id: None,
        join: None,
        play: None,
        seek: Some(SyncPlaySeekData { position_ticks: 70_000 }),
    }
}

#[test]
fn clients_act_on_their_group() {
    assert!(matches!(
        handle_inbound(&inbound("SyncPlayCreateGroup"), false),
        InboundAction::CreateGroup
    ));
    assert!(matches!(
        handle_inbound(&inbound("SyncPlaySeek"), true),
        InboundAction::Tell(GroupCommand::LeaderSeek { position_ms: 7 })
    ));
    assert!(matches!(
        handle_inbound(&inbound("SyncPlaySeek"), false),
        InboundAction::Ignore
    ));
    assert!(matches!(
        dispatch(Caller::InGroup, SyncPlayRequest::Seek { position_ticks: 70_000 }),
        Some(GroupCommand::SeekTo { position_ms: 7 })
    ));
    assert!(dispatch(Caller::NoGroup, SyncPlayRequest::Pause).is_none());
}
