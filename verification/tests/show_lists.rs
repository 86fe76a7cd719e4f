use pharos_server::browse::{ListQuery, ParentResolution, UserPolicy};
use pharos_server::media::MediaKind;
use pharos_server::shows::{
    episodes_in_order, list_virtual_shows, lowered_matches_letter, maybe_list_virtual_shows,
    name_matches_letter, resolve_episode_window, shows_episodes, shows_next_up, shows_seasons,
    synth_series_or_season, virtual_show_kind, EpisodeRow, SeriesRow, ShowFolderKind, ShowItem,
    ShowsPlan,
};

#[test]
fn episode_window_paginates_by_start_index() {
    let ids: Vec<String> = (1..=23).map(|n| n.to_string()).collect();
    // Page 3 of a 23-item season: StartIndex=20, Limit=10 → eps 21,22,23.
    let w = resolve_episode_window(&ids, Some(20), None, Some(10));
    assert_eq!(w, 20..23, "StartIndex must skip, not return from the top");
    // First page.
    assert_eq!(resolve_episode_window(&ids, Some(0), None, Some(10)), 0..10);
    // No params → the whole list.
    assert_eq!(resolve_episode_window(&ids, None, None, None), 0..23);
    // StartIndex past the end → empty page, not a wrap.
    assert_eq!(resolve_episode_window(&ids, Some(100), None, Some(10)), 23..23);
}

#[test]
fn episode_window_start_item_id_wins_and_falls_back() {
    let ids: Vec<String> = (1..=23).map(|n| n.to_string()).collect();
    // StartItemId takes precedence over StartIndex and windows from that item.
    let w = resolve_episode_window(&ids, Some(0), Some("21"), Some(5));
    assert_eq!(w, 20..23);
    // Unknown id → fall back to the top (not an empty page).
    assert_eq!(resolve_episode_window(&ids, None, Some("nope"), Some(3)), 0..3);
}

#[test]
fn letter_prefix_is_case_insensitive_and_trims() {
    assert!(name_matches_letter("Angel", "a"));
    assert!(name_matches_letter("angel", "a"));
    assert!(name_matches_letter("  Angel", "a")); // leading space trimmed
    assert!(!name_matches_letter("Breaking Bad", "a"));
    assert!(name_matches_letter("An Idiot Abroad", "an"));
}

#[test]
fn hash_bucket_matches_non_letters() {
    assert!(name_matches_letter("24", "#"));
    assert!(name_matches_letter("3%", "#"));
    assert!(name_matches_letter("[REC]", "#"));
    assert!(!name_matches_letter("Angel", "#"));
}

#[test]
fn letters_beyond_ascii_are_lowered_too() {
    assert!(name_matches_letter("ÉTÉ", "é"));
    assert!(!lowered_matches_letter("ÉTÉ", "ÉTÉ", "é"));
    // Its lower case begins with an ASCII letter, the name itself does not.
    assert!(name_matches_letter("\u{212a}elvin", "#"));
    assert!(name_matches_letter("\u{212a}elvin", "k"));
    assert!(lowered_matches_letter("\u{212a}elvin", "kelvin", "#"));
    assert!(name_matches_letter("  ", "#"));
}

fn episode(series: &str, season: u32, number: u32, played: bool) -> EpisodeRow {
    EpisodeRow {
        kind: MediaKind::Episode,
        id: format!("{series}-{season}-{number}"),
        played,
        series: Some(SeriesRow {
            key: format!("/tv/{series}"),
            name: series.to_string(),
            series_id: format!("id-{series}"),
            season_id: Some(format!("id-{series}-s{season}")),
            season_number: Some(season),
            episode_number: Some(number),
        }),
    }
}

fn library() -> Vec<EpisodeRow> {
    vec![
        episode("Beta", 2, 1, false),
        episode("Beta", 1, 2, false),
        episode("Beta", 1, 1, true),
        episode("Alpha", 1, 1, false),
        EpisodeRow { kind: MediaKind::Movie, id: "film".into(), played: false, series: None },
    ]
}

#[test]
fn next_up_is_the_first_unplayed_of_each_series() {
    let rows = library();
    assert_eq!(shows_next_up(&rows, None, 10), vec![3, 1]);
    assert_eq!(shows_next_up(&rows, None, 1), vec![3]);
    // A limit of none still gives one.
    assert_eq!(shows_next_up(&rows, None, 0), vec![3]);
    assert_eq!(shows_next_up(&rows, Some("id-Beta"), 10), vec![1]);
    assert!(shows_next_up(&rows, Some("id-Gamma"), 10).is_empty());
}

#[test]
fn episodes_are_in_season_and_number_order() {
    let rows = library();
    assert_eq!(episodes_in_order(&rows, "id-Beta", None), vec![2, 1, 0]);
    assert_eq!(episodes_in_order(&rows, "id-Beta", Some("id-Beta-s1")), vec![2, 1]);
    let page = shows_episodes(&rows, "id-Beta", None, Some(1), None, Some(1));
    assert_eq!((page.items, page.total, page.start), (vec![1], 3, 1));
    let from = shows_episodes(&rows, "id-Beta", None, None, Some("Beta-1-2"), None);
    assert_eq!((from.items, from.total, from.start), (vec![1, 0], 3, 1));
}

#[test]
fn seasons_stand_once_and_in_order() {
    let rows = library();
    assert_eq!(shows_seasons(&rows, "id-Beta"), vec![1, 0]);
    assert!(shows_seasons(&rows, "id-Gamma").is_empty());
}

#[test]
fn ids_name_series_before_seasons() {
    let rows = library();
    assert_eq!(synth_series_or_season(&rows, "id-Beta"), Some(ShowItem::Series(0)));
    assert_eq!(synth_series_or_season(&rows, "id-Beta-s1"), Some(ShowItem::Season(1)));
    assert_eq!(synth_series_or_season(&rows, "other"), None);
}

#[test]
fn only_show_types_are_show_lists() {
    assert_eq!(virtual_show_kind(Some("Series")), Some(ShowFolderKind::Series));
    assert_eq!(virtual_show_kind(Some("series, Season")), Some(ShowFolderKind::Season));
    assert_eq!(virtual_show_kind(Some("Series,Movie")), None);
    assert_eq!(virtual_show_kind(Some(" , ")), None);
    assert_eq!(virtual_show_kind(None), None);
}

#[test]
fn shows_collapse_to_one_folder_each() {
    let rows = library();
    let q = ListQuery::default();
    let page = list_virtual_shows(&rows, ShowFolderKind::Series, &q);
    assert_eq!((page.items, page.total), (vec![3, 0], 2));
    let down = ListQuery { sort_order: Some("descending".into()), ..Default::default() };
    assert_eq!(list_virtual_shows(&rows, ShowFolderKind::Series, &down).items, vec![0, 3]);
    let letter = ListQuery { name_starts_with: Some("B".into()), ..Default::default() };
    assert_eq!(list_virtual_shows(&rows, ShowFolderKind::Series, &letter).items, vec![0]);
    let seasons = list_virtual_shows(&rows, ShowFolderKind::Season, &q);
    assert_eq!(seasons.items, vec![1, 0]);
    // The letter is about the series whose seasons these are.
    assert_eq!(list_virtual_shows(&rows, ShowFolderKind::Season, &letter).items, vec![1, 0]);
    let none = ListQuery { name_starts_with: Some("Z".into()), ..Default::default() };
    assert!(list_virtual_shows(&rows, ShowFolderKind::Season, &none).items.is_empty());
}

fn open_policy() -> UserPolicy {
    UserPolicy {
        enable_all_folders: true,
        enabled_folders: vec![],
        max_parental_rating: None,
        block_unrated_items: vec![],
    }
}

#[test]
fn show_lists_ask_for_all_episodes() {
    let q = ListQuery {
        include_item_types: Some("Series".into()),
        name_starts_with: Some("A".into()),
        ..Default::default()
    };
    match maybe_list_virtual_shows("u", &open_policy(), &vec![], &q, ParentResolution::All) {
        ShowsPlan::Ask(kind, mq) => {
            assert_eq!(kind, ShowFolderKind::Series);
            assert_eq!(mq.kinds, vec![MediaKind::Episode]);
            assert_eq!(mq.limit, None);
            // The letter is about the series, not the episodes' titles.
            assert_eq!(mq.filters.name_starts_with, None);
        }
        _ => panic!("a series list"),
    }
    assert!(matches!(
        maybe_list_virtual_shows("u", &open_policy(), &vec![], &q, ParentResolution::Empty),
        ShowsPlan::Nothing
    ));
    assert!(matches!(
        maybe_list_virtual_shows(
            "u",
            &open_policy(),
            &vec![],
            &ListQuery::default(),
            ParentResolution::All
        ),
        ShowsPlan::NotShows
    ));
}
