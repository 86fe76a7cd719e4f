use pharos_server::browse::{
    apply_policy_scope, apply_tags_filter, apply_userdata_filter, boxset_only_request,
    build_media_query, default_limit, effective_sort_seed, fields_requests,
    music_album_only_request, parse_id_csv, playlist_only_request, require_same_user,
    run_items_list, shuffle_in_place, shuffled_candidates, shuffled_page, sort_keys, sort_primary, split_tag_csv, user_data_filter,
    ListPlan, ListQuery, ParentFilter, ParentResolution, SortDir, SortKey, SortPrimary,
    UserDataFilter, UserPolicy,
};
use pharos_server::folder_items::{list_items, ListRoute};
use pharos_server::library::{
    build_facet_base, facet_years, filter_by_kinds, items_counts, latest_items, resume_items,
    CountRow, FiltersQuery,
};
use pharos_server::media::MediaKind;
use pharos_server::search::parse_include_item_types;
use pharos_server::seqs::cut_page;
use pharos_server::sessions::UserItemData;
use pharos_server::shows::ShowFolderKind;

#[test]
fn parses_include_item_types() {
    let kinds = parse_include_item_types(Some("Movie,Audio")).unwrap();
    assert!(kinds.contains(&MediaKind::Movie));
    assert!(kinds.contains(&MediaKind::Audio));
    assert!(!kinds.contains(&MediaKind::Episode));
}

#[test]
fn empty_include_returns_none() {
    assert!(parse_include_item_types(None).is_none());
    assert!(parse_include_item_types(Some("")).is_none());
    assert!(parse_include_item_types(Some("Unknown")).is_none());
}

fn types(t: &str) -> ListQuery {
    ListQuery { include_item_types: Some(t.into()), ..Default::default() }
}

#[test]
fn lists_of_one_type_are_told_apart() {
    assert!(boxset_only_request(&types("BoxSet, boxset")));
    assert!(!boxset_only_request(&types("BoxSet,Movie")));
    assert!(!boxset_only_request(&types(" , ")));
    assert!(!boxset_only_request(&ListQuery::default()));
    assert!(playlist_only_request(&types("playlist")));
    assert!(music_album_only_request(&types("MusicAlbum")));
    assert_eq!(default_limit(), 100);
}

#[test]
fn list_requests_go_where_they_belong() {
    assert_eq!(list_items(&types("BoxSet"), false), ListRoute::BoxSets);
    assert_eq!(list_items(&types("Playlist"), true), ListRoute::Playlists);
    assert_eq!(list_items(&types("MusicAlbum"), false), ListRoute::Music);
    assert_eq!(list_items(&ListQuery::default(), true), ListRoute::Music);
    assert_eq!(list_items(&types("Series"), false), ListRoute::Shows(ShowFolderKind::Series));
    assert_eq!(list_items(&types("Movie"), true), ListRoute::Items);
    assert_eq!(list_items(&ListQuery::default(), false), ListRoute::Items);
}

#[test]
fn name_lists_are_split_at_bars_and_commas() {
    assert_eq!(split_tag_csv(Some(" a | b,, c ")), vec!["a", "b", "c"]);
    assert!(split_tag_csv(None).is_empty());
}

#[test]
fn ids_that_are_too_long_are_dropped() {
    let dashed = "00000000-0000-0000-0000-00000000002a";
    let long = "x".repeat(37);
    assert_eq!(parse_id_csv(Some(&format!("42, {dashed},,{long}"))), vec!["42", dashed]);
    // Bytes count, not characters.
    let wide = "é".repeat(19);
    assert!(parse_id_csv(Some(&wide)).is_empty());
    assert_eq!(parse_id_csv(Some(&"é".repeat(18))).len(), 1);
}

#[test]
fn fields_are_asked_for_in_any_case() {
    assert!(fields_requests(Some("ItemCounts, people"), "People"));
    assert!(!fields_requests(Some("ItemCounts"), "People"));
    assert!(!fields_requests(None, "People"));
}

#[test]
fn user_filters_must_all_hold() {
    let f = UserDataFilter::parse("IsFavorite, IsUnplayed,IsResumable,Nonsense");
    assert_eq!(f.is_favorite, Some(true));
    assert_eq!(f.is_played, Some(false));
    assert!(f.is_resumable);
    assert!(f.is_active());
    assert!(!UserDataFilter::parse("isfavorite").is_active());
    let played = UserItemData { played: true, ..Default::default() };
    let liked = UserItemData { is_favorite: true, ..Default::default() };
    let untouched = UserItemData::default();
    for list in ["IsPlayed,IsUnplayed", "IsUnplayed,IsPlayed", "IsPlayed,IsUnplayed,IsPlayed"] {
        let f = UserDataFilter::parse(list);
        assert!(f.is_active());
        assert!(!f.matches(untouched) && !f.matches(played), "{list}");
    }
    let f = UserDataFilter::parse("IsFavorite,IsNotFavorite");
    assert!(!f.matches(untouched) && !f.matches(liked));
    assert!(UserDataFilter::parse("IsPlayed,IsPlayed").matches(played));
    assert!(apply_userdata_filter(&vec![1, 2], &vec![liked, untouched], f).is_empty());
}

#[test]
fn switches_ask_as_tokens_do() {
    let liked = UserItemData { is_favorite: true, ..Default::default() };
    let asked = |filters: &str, is_favorite: Option<bool>| {
        user_data_filter(&ListQuery {
            filters: Some(filters.into()),
            is_favorite,
            ..Default::default()
        })
    };
    assert!(asked("IsUnplayed", Some(true)).matches(liked));
    assert!(!asked("IsUnplayed", Some(false)).matches(liked));
    let both = asked("IsFavorite", Some(false));
    assert!(!both.matches(liked) && !both.matches(UserItemData::default()));
    let q = ListQuery { filters: Some("IsPlayed,IsUnplayed".into()), ..Default::default() };
    let mq = build_media_query("u", &q, ParentResolution::All, false);
    assert!(mq.user_data.is_impossible);
    assert_eq!(mq.user_data.user, Some("u".to_string()));
}

fn left_at(ticks: u64) -> UserItemData {
    UserItemData { last_played_position_ticks: ticks, ..Default::default() }
}

#[test]
fn resumable_items_were_left_in_the_middle() {
    let f = UserDataFilter::parse("IsResumable");
    assert!(f.matches(left_at(5)));
    assert!(!f.matches(left_at(0)));
    assert!(!f.matches(UserItemData { played: true, ..left_at(5) }));
}

#[test]
fn lists_are_filtered_by_records_and_tags() {
    let f = UserDataFilter::parse("IsResumable");
    assert_eq!(apply_userdata_filter(&vec![7, 8, 9], &vec![left_at(1), left_at(0)], f), vec![7]);
    let none = UserDataFilter::parse("");
    assert_eq!(apply_userdata_filter(&vec![7, 8], &vec![], none), vec![7, 8]);
    assert_eq!(apply_tags_filter(&vec![1, 2, 3], &vec![vec![2, 3], vec![3, 1]]), vec![3]);
    assert_eq!(apply_tags_filter(&vec![1, 2, 3], &vec![]), vec![1, 2, 3]);
    assert!(apply_tags_filter(&vec![1, 2], &vec![vec![]]).is_empty());
}

#[test]
fn sort_names_have_families() {
    assert_eq!(sort_primary(None), SortPrimary::Name);
    assert_eq!(sort_primary(Some(" , ")), SortPrimary::Name);
    assert_eq!(sort_primary(Some(",Random,Album")), SortPrimary::Random);
    assert_eq!(sort_primary(Some("Default")), SortPrimary::Unsorted);
    assert_eq!(sort_primary(Some("DateAdded")), SortPrimary::DateCreated);
    assert_eq!(sort_primary(Some("ParentIndexNumber,IndexNumber")), SortPrimary::TrackOrder);
    assert_eq!(sort_primary(Some("CommunityRating")), SortPrimary::Name);
}

#[test]
fn sort_chains_are_turned_whole() {
    assert_eq!(sort_keys(SortPrimary::Name, false), vec![(SortKey::Name, SortDir::Asc)]);
    assert_eq!(
        sort_keys(SortPrimary::Name, true),
        vec![(SortKey::Name, SortDir::Desc), (SortKey::Id, SortDir::Desc)]
    );
    // The date is newest first unless the client turns it round.
    assert_eq!(
        sort_keys(SortPrimary::DateCreated, false),
        vec![(SortKey::DateCreated, SortDir::Desc), (SortKey::Id, SortDir::Desc)]
    );
    assert_eq!(
        sort_keys(SortPrimary::DateCreated, true),
        vec![(SortKey::DateCreated, SortDir::Asc)]
    );
    assert_eq!(
        sort_keys(SortPrimary::TrackOrder, false),
        vec![
            (SortKey::DiscNumber, SortDir::Asc),
            (SortKey::TrackNumber, SortDir::Asc),
            (SortKey::Name, SortDir::Asc),
        ]
    );
    assert!(sort_keys(SortPrimary::Random, true).is_empty());
}

#[test]
fn a_request_becomes_a_query() {
    let q = ListQuery {
        start_index: 20,
        limit: 10,
        search_term: Some(" code ".into()),
        include_item_types: Some("Movie,Unknown".into()),
        media_types: Some("audio".into()),
        tags: Some("a|b".into()),
        filters: Some("IsPlayed".into()),
        ids: Some("1,2".into()),
        name_starts_with_or_greater: Some("m".into()),
        sort_order: Some("Descending".into()),
        ..Default::default()
    };
    let mq = build_media_query("u", &q, ParentResolution::PathPrefix("/m".into()), false);
    assert!(mq.parent.is_none());
    assert_eq!(mq.kinds, vec![MediaKind::Movie]);
    assert_eq!(mq.search_term, Some(" code ".to_string()));
    assert_eq!(mq.tag_names, vec!["a", "b"]);
    assert_eq!(mq.user_data.user, Some("u".to_string()));
    assert_eq!(mq.user_data.is_played, Some(true));
    assert_eq!(mq.filters.path_prefix, Some("/m".to_string()));
    assert_eq!(mq.filters.media_type_kinds, vec![MediaKind::Audio]);
    assert!(mq.filters.ids_present);
    assert_eq!(mq.filters.ids, vec!["1", "2"]);
    assert_eq!(mq.filters.name_starts_with, Some("m".to_string()));
    assert_eq!(mq.sort, sort_keys(SortPrimary::Name, true));
    assert_eq!((mq.start_index, mq.limit), (20, Some(10)));

    let whole = build_media_query("u", &q, ParentResolution::All, true);
    assert!(whole.tag_names.is_empty());
    assert_eq!(whole.user_data.user, None);
    assert_eq!((whole.start_index, whole.limit), (0, None));
}

#[test]
fn a_collection_keeps_its_own_order() {
    let parent = || ParentResolution::Filter(ParentFilter::Collection { wire_id: "c".into() });
    assert!(build_media_query("u", &ListQuery::default(), parent(), false).sort.is_empty());
    let sorted = ListQuery { sort_by: Some("SortName".into()), ..Default::default() };
    assert_eq!(build_media_query("u", &sorted, parent(), false).sort.len(), 1);
}

fn policy(all: bool, folders: &[&str], max: Option<i32>) -> UserPolicy {
    UserPolicy {
        enable_all_folders: all,
        enabled_folders: folders.iter().map(|s| s.to_string()).collect(),
        max_parental_rating: max,
        block_unrated_items: vec![],
    }
}

#[test]
fn a_policy_narrows_a_query() {
    let mut mq = build_media_query("u", &ListQuery::default(), ParentResolution::All, false);
    apply_policy_scope(&mut mq, &policy(true, &[], None), &vec![]);
    assert!(mq.allowed_library_wire_ids.is_empty());
    assert!(mq.parental.is_none());
    apply_policy_scope(&mut mq, &policy(false, &["lib"], Some(7)), &vec!["pg".to_string()]);
    assert_eq!(mq.allowed_library_wire_ids, vec!["lib"]);
    let scope = mq.parental.as_ref().unwrap();
    assert_eq!(scope.allowed_ratings_lc, vec!["pg"]);
    assert!(!scope.block_unrated);
    // A user who may see no library is not asked about all of them.
    apply_policy_scope(&mut mq, &policy(false, &[], None), &vec![]);
    assert_eq!(mq.allowed_library_wire_ids, vec!["\0__none__"]);
}

#[test]
fn list_requests_are_planned() {
    let user = [7u8; 16];
    let open = policy(true, &[], None);
    let q = ListQuery::default();
    assert!(matches!(
        run_items_list("u", &user, &open, &vec![], &q, ParentResolution::Empty),
        ListPlan::Nothing
    ));
    assert!(matches!(
        run_items_list("u", &user, &open, &vec![], &q, ParentResolution::All),
        ListPlan::Page(_)
    ));
    let random = ListQuery {
        sort_by: Some("Random".into()),
        sort_seed: Some(6),
        ..Default::default()
    };
    match run_items_list("u", &user, &open, &vec![], &random, ParentResolution::All) {
        ListPlan::Shuffle(mq, seed) => {
            assert_eq!(seed, 7);
            assert_eq!(mq.limit, None);
        }
        _ => panic!("a shuffled list"),
    }
}

#[test]
fn the_users_id_is_the_seed_where_none_is_given() {
    let mut user = [0u8; 16];
    user[0] = 2;
    user[1] = 1;
    assert_eq!(effective_sort_seed(None, &user), 259);
    assert_eq!(effective_sort_seed(Some(8), &user), 9);
    assert_eq!(effective_sort_seed(Some(9), &user), 9);
}

#[test]
fn a_shuffle_keeps_its_items_and_repeats() {
    let mut a: Vec<u64> = (0..50).collect();
    let mut b = a.clone();
    shuffle_in_place(&mut a, 41);
    shuffle_in_place(&mut b, 41);
    assert_eq!(a, b);
    assert_ne!(a, (0..50).collect::<Vec<u64>>());
    let mut sorted = a.clone();
    sorted.sort();
    assert_eq!(sorted, (0..50).collect::<Vec<u64>>());
    let first = cut_page(&a, 0, 20);
    let second = cut_page(&a, 20, 40);
    assert_eq!([first, second].concat(), a);
    assert!(cut_page(&a, 50, 5).is_empty());
}

#[test]
fn users_list_their_own_items() {
    assert!(require_same_user("a", "a").is_ok());
    let refused = require_same_user("a", "b").unwrap_err();
    assert_eq!((refused.status(), refused.message()), (403, "user mismatch".to_string()));
}

// ----------------------------------------------------------------------- library

fn count_row(kind: MediaKind, series: Option<&str>, artist: Option<&str>) -> CountRow {
    CountRow {
        kind,
        series_key: series.map(String::from),
        artist: artist.map(String::from),
        album_artist: Some("Band".into()),
        album: None,
        genre: Some("Rock".into()),
    }
}

#[test]
fn counts_are_of_different_names() {
    let c = items_counts(&vec![
        count_row(MediaKind::Movie, Some("ignored"), None),
        count_row(MediaKind::Episode, Some("s"), None),
        count_row(MediaKind::Episode, Some("s"), None),
        count_row(MediaKind::Audio, None, Some("Singer")),
    ]);
    assert_eq!((c.movies, c.episodes, c.songs, c.items), (1, 2, 1, 4));
    assert_eq!((c.series, c.artists, c.albums, c.genres), (1, 2, 0, 1));
}

#[test]
fn facets_are_counted_over_a_parent() {
    let q = FiltersQuery {
        include_item_types: Some("Movie".into()),
        is_favorite: Some(true),
        is_played: None,
    };
    assert!(build_facet_base("u", &q, ParentResolution::Empty).is_none());
    let mq = build_facet_base("u", &q, ParentResolution::GenreProbe("Rock".into())).unwrap();
    assert_eq!(mq.filters.genre_probe_token, Some("Rock".to_string()));
    assert_eq!(mq.user_data.user, Some("u".to_string()));
    assert_eq!(mq.limit, None);
    let years: Vec<String> = ["1999", "unknown", "-5"].iter().map(|s| s.to_string()).collect();
    assert_eq!(facet_years(&years), vec![1999, -5]);
}

#[test]
fn the_latest_are_of_the_kinds_asked_for() {
    let kinds = vec![MediaKind::Movie, MediaKind::Audio, MediaKind::Movie];
    let movies = Some("Movie".to_string());
    assert_eq!(filter_by_kinds(&vec![2, 1, 0], &kinds, &movies), vec![2, 0]);
    assert_eq!(filter_by_kinds(&vec![2, 1, 0], &kinds, &Some("X".into())), vec![2, 1, 0]);
    assert_eq!(latest_items(&vec![0, 1, 2], &kinds, &movies, 1), vec![0]);
    let many: Vec<MediaKind> = vec![MediaKind::Movie; 150];
    let all: Vec<usize> = (0..150).collect();
    assert_eq!(latest_items(&all, &many, &None, 500).len(), 100);
}

#[test]
fn resume_rows_have_their_media_types() {
    let kinds = vec![MediaKind::Movie, MediaKind::Audio, MediaKind::Episode];
    assert_eq!(resume_items(&kinds, ""), vec![0, 1, 2]);
    assert_eq!(resume_items(&kinds, "a=b&mediatypes=Video"), vec![0, 2]);
    assert_eq!(resume_items(&kinds, "MediaTypes=Audio,Video"), vec![0, 1, 2]);
    assert!(resume_items(&kinds, "MediaTypes=Book").is_empty());
}

#[test]
fn a_shuffled_list_keeps_its_order_from_page_to_page() {
    let ids: Vec<u64> = (1..=9).collect();
    let tagged = vec![vec![1, 2, 3, 4, 5, 6]];
    let kept = shuffled_candidates(ids.clone(), 7, &tagged);
    let mut order = ids;
    shuffle_in_place(&mut order, 7);
    let expected: Vec<u64> = order.into_iter().filter(|id| *id <= 6).collect();
    assert_eq!(kept, expected);
    let page = |start_index: u32, limit: u32| {
        shuffled_page(&kept, &vec![], &ListQuery { start_index, limit, ..Default::default() })
    };
    assert_eq!(page(0, 4).total_record_count, 6);
    assert_eq!(page(4, 4).start_index, 4);
    assert_eq!([page(0, 4).items, page(4, 4).items].concat(), kept);
    let liked = UserItemData { is_favorite: true, ..Default::default() };
    let favorites = ListQuery { is_favorite: Some(true), ..Default::default() };
    let shown = shuffled_page(&kept, &vec![liked], &favorites);
    assert_eq!(shown.items, vec![kept[0]]);
    assert_eq!(shown.total_record_count, 1);
}
