use pharos_server::browse::ListQuery;
use pharos_server::entities::{
    list_boxsets_page, list_collections, list_genres, list_persons, list_playlists_page,
    list_studios, list_tags, CollectionRow, EntityRow, PersonRow, PlaylistRow,
};
use pharos_server::folders::update_virtual_folder_options;
use pharos_server::item_pages::{build_items_page, build_items_page_with_fields, PageRow};
use pharos_server::library::{
    items_filters2, items_filters_legacy, FacetValue, Facets,
};
use pharos_server::live_tv::info;
use pharos_server::parents::RootRow;
use pharos_server::sessions::UserItemData;
use pharos_server::single_flight::{fetch_step, FetchAction, FetchEvent, FetchState};
use pharos_server::subtitles::{vtt_response, SubtitleStyle};
use pharos_server::syncplay::{
    add_caller_to_group, join_group, leave_group, new_group, Caller, GroupStep,
};
use pharos_server::system::{
    default_prefs, devices_list, display_preferences, system_configuration, DeviceRow, UserDevices,
};
use pharos_server::users::{
    open_session, quick_connect_initiate, ClientLabels, PendingEntry,
};

fn entity(id: &str, name: &str, item_count: u32) -> EntityRow {
    EntityRow { id: id.into(), name: name.into(), item_count }
}

fn strings(v: &[&str]) -> Vec<String> {
    v.iter().map(|s| (*s).to_string()).collect()
}

#[test]
fn entities_are_listed_with_their_counts() {
    let rows = vec![entity("g1", "Drama", 3), entity("g2", "Jazz", 0)];
    let genres = list_genres(&rows);
    assert_eq!(genres.total_record_count, 2);
    assert_eq!(genres.start_index, 0);
    assert_eq!(genres.items[0].id, "g1");
    assert_eq!(genres.items[0].kind, "Genre");
    assert_eq!(genres.items[1].child_count, Some(0));
    assert_eq!(list_studios(&rows).items[0].kind, "Studio");
    assert_eq!(list_tags(&rows).items[1].kind, "Folder");
}

#[test]
fn people_show_the_portraits_that_they_have() {
    let person = |id: &str, has_portrait: bool| PersonRow {
        id: id.into(),
        name: "N".into(),
        has_portrait,
        item_count: 2,
    };
    let list = list_persons(&vec![person("a", true), person("b", false)]);
    assert_eq!(list.items[0].image_tags, vec![("Primary".to_string(), "a".to_string())]);
    assert!(list.items[1].image_tags.is_empty());
    assert_eq!(list.items[1].child_count, Some(2));
}

#[test]
fn box_sets_and_playlists_come_in_pages() {
    let set = |id: &str| CollectionRow {
        id: id.into(),
        name: "Set".into(),
        overview: Some(String::new()),
        item_count: 4,
    };
    let sets = vec![set("a"), set("b"), set("c")];
    let q = ListQuery { start_index: 1, limit: 1, ..Default::default() };
    let page = list_boxsets_page(&sets, &q);
    assert_eq!(page.items.len(), 1);
    assert_eq!(page.items[0].id, "b");
    assert_eq!(page.items[0].overview, None);
    assert_eq!((page.total_record_count, page.start_index), (3, 1));
    assert_eq!(list_collections(&sets).items.len(), 3);

    let list = |id: &str, entries: Option<u32>| PlaylistRow {
        id: id.into(),
        name: "List".into(),
        media_type: "Audio".into(),
        entries,
    };
    let lists = vec![list("p", Some(5)), list("q", None)];
    let page = list_playlists_page(&lists, &q);
    assert_eq!(page.items.len(), 1);
    assert_eq!(page.items[0].id, "q");
    assert_eq!(page.items[0].child_count, Some(0));
    assert_eq!(page.items[0].media_type, Some("Audio".to_string()));
}

fn facets() -> Facets {
    let plain = |v: &str| FacetValue { value: v.into(), wire_id: None, count: 1 };
    Facets {
        genres: vec![FacetValue { value: "Drama".into(), wire_id: Some("g1".into()), count: 7 }],
        studios: vec![],
        tags: vec![plain("4k")],
        official_ratings: vec![plain("PG")],
        years: vec![plain("1999"), plain("n/a")],
    }
}

#[test]
fn filters_show_what_was_counted() {
    let old = items_filters_legacy(&Some(facets()));
    assert_eq!(old.genres, strings(&["Drama"]));
    assert_eq!(old.tags, strings(&["4k"]));
    assert_eq!(old.official_ratings, strings(&["PG"]));
    assert_eq!(old.years, vec![1999]);
    assert!(items_filters_legacy(&None).genres.is_empty());

    let new = items_filters2(&Some(facets()));
    assert_eq!(new.genres, vec![("Drama".to_string(), Some("g1".to_string()))]);
    assert_eq!(new.years, vec![1999]);
    assert_eq!(new.counts.genres[0].count, 7);
    assert_eq!(new.counts.years.len(), 2);
    let none = items_filters2(&None);
    assert!(none.genres.is_empty() && none.counts.tags.is_empty());
}

#[test]
fn pages_are_filled_in_on_request() {
    let row = |id: u64, people: Option<Vec<String>>| PageRow {
        id,
        path: "/m/a.mkv".into(),
        parent_id: None,
        people,
        studios: Some(strings(&["S"])),
        tags: None,
    };
    let rows = vec![row(1, Some(strings(&["P"]))), row(2, None)];
    let seen = UserItemData { played: true, play_count: 2, ..Default::default() };
    let roots = vec![RootRow { path: "/m".into(), id: "lib".into() }];
    let page = build_items_page_with_fields(
        &rows,
        &vec![seen],
        &roots,
        9,
        4,
        Some("Overview, people ,Tags"),
    );
    assert_eq!((page.total_record_count, page.start_index), (9, 4));
    assert_eq!(page.items[0].people, Some(strings(&["P"])));
    assert_eq!(page.items[0].studios, None);
    assert_eq!(page.items[0].tags, None);
    assert_eq!(page.items[0].user_data, seen);
    assert_eq!(page.items[0].parent_id, Some("lib".to_string()));
    assert_eq!(page.items[1].people, None);
    assert_eq!(page.items[1].user_data, UserItemData::default());
    let plain = build_items_page(&rows, &vec![], &vec![], 2, 0);
    assert_eq!(plain.items[0].people, None);
    assert_eq!(plain.items[0].parent_id, None);
}

#[test]
fn devices_go_by_the_names_that_they_were_given() {
    let device = |id: &str, name: Option<&str>| DeviceRow {
        device_id: id.into(),
        given_name: name.map(String::from),
    };
    let users = vec![
        UserDevices {
            user_id: "u1".into(),
            user_name: "ann".into(),
            devices: vec![device("d1", Some("Den")), device("d2", Some(""))],
        },
        UserDevices { user_id: "u2".into(), user_name: "bo".into(), devices: vec![device("d3", None)] },
    ];
    let list = devices_list(true, &users).unwrap_or_default();
    let seen: Vec<(&str, &str, &str)> = list
        .iter()
        .map(|d| (d.id.as_str(), d.name.as_str(), d.last_user_name.as_str()))
        .collect();
    assert_eq!(seen, vec![("d1", "Den", "ann"), ("d2", "d2", "ann"), ("d3", "d3", "bo")]);
    assert_eq!(list[0].app_name, "Jellyfin");
    assert_eq!(list[0].date_last_activity, "1970-01-01T00:00:00.0000000Z");
    assert!(matches!(devices_list(false, &users), Err(e) if e.status() == 403));
}

#[test]
fn preferences_have_defaults() {
    let value = |v: &[(String, String)], k: &str| {
        v.iter().find(|p| p.0 == k).map(|p| p.1.clone())
    };
    let prefs = default_prefs("use\"r", "emby");
    assert_eq!(prefs.len(), 13);
    assert_eq!(value(&prefs, "Id"), Some("\"use\\\"r\"".to_string()));
    assert_eq!(value(&prefs, "SortBy"), Some("\"SortName\"".to_string()));
    assert_eq!(value(&prefs, "Client"), Some("\"emby\"".to_string()));
    let kept = vec![("SortBy".to_string(), "\"Date\"".to_string())];
    assert_eq!(display_preferences(Some(kept.clone()), "u", "c"), kept);
    assert_eq!(display_preferences(None, "use\"r", "emby"), prefs);
    let server = system_configuration();
    assert_eq!(server.len(), 11);
    assert_eq!(value(&server, "UICulture"), Some("\"en-US\"".to_string()));
}

#[test]
fn library_options_are_kept_without_their_paths() {
    let options = vec![
        ("Enabled".to_string(), "true".to_string()),
        ("PathInfos".to_string(), "[]".to_string()),
    ];
    let (key, kept) = update_virtual_folder_options(true, Some("l1"), &Some(options)).unwrap();
    assert_eq!(key, "libopts:l1");
    assert_eq!(kept, vec![("Enabled".to_string(), "true".to_string())]);
    let (_, kept) = update_virtual_folder_options(true, Some("l1"), &None).unwrap();
    assert!(kept.is_empty());
    let missing = update_virtual_folder_options(true, None, &None).unwrap_err();
    assert_eq!(missing.status(), 400);
    let barred = update_virtual_folder_options(false, Some("l1"), &None).unwrap_err();
    assert_eq!(barred.status(), 403);
}

#[test]
fn founders_join_before_the_group_is_named() {
    let ann = Some("ann".to_string());
    let steps = new_group(true, true, &ann, &Some("  ".to_string()));
    assert!(matches!(steps[0], GroupStep::Attach));
    assert!(matches!(&steps[1], GroupStep::AddMember { name } if name == "ann"));
    assert!(matches!(&steps[2], GroupStep::SetGroupName { name } if name == "ann's Group"));
    assert_eq!(steps.len(), 3);
    assert_eq!(new_group(true, true, &None, &None).len(), 1);
    assert!(new_group(false, true, &ann, &None).is_empty());
    assert!(new_group(true, false, &ann, &None).is_empty());
    assert_eq!(join_group(true, true, &ann).len(), 2);
    assert!(join_group(true, false, &ann).is_empty());
    assert!(add_caller_to_group(&None).is_empty());
    let left = leave_group(Caller::InGroup);
    assert!(matches!(left[..], [GroupStep::Detach, GroupStep::RemoveMember]));
    assert!(leave_group(Caller::NoGroup).is_empty());
}

#[test]
fn a_thing_is_made_after_two_misses() {
    let mut state = FetchState::Start;
    let mut done = Vec::new();
    for event in [
        FetchEvent::Asked { cached: true },
        FetchEvent::Looked { hit: false },
        FetchEvent::Locked,
        FetchEvent::Looked { hit: false },
        FetchEvent::Made { ok: true },
        FetchEvent::Kept,
    ] {
        let (next, action) = fetch_step(state, event).unwrap();
        state = next;
        done.push(action);
    }
    assert_eq!(
        done,
        vec![
            FetchAction::Look,
            FetchAction::Lock,
            FetchAction::Look,
            FetchAction::Make,
            FetchAction::Keep,
            FetchAction::Answer,
        ]
    );
    assert_eq!(state, FetchState::Done);
    assert_eq!(fetch_step(state, FetchEvent::Locked), None);
    assert_eq!(
        fetch_step(FetchState::Start, FetchEvent::Asked { cached: false }),
        Some((FetchState::Making { cached: false }, FetchAction::Make))
    );
    assert_eq!(
        fetch_step(FetchState::Making { cached: true }, FetchEvent::Made { ok: false }),
        Some((FetchState::Done, FetchAction::Fail))
    );
}

#[test]
fn webvtt_answers_tell_of_lost_styling() {
    let lossy = vtt_response(b"WEBVTT\n\nx".to_vec(), true, &SubtitleStyle::default());
    assert_eq!(lossy.content_type, "text/vtt; charset=utf-8");
    assert_eq!(lossy.cache_control, "public, max-age=3600");
    assert_eq!(lossy.style_lossy, Some("true"));
    assert!(lossy.body.starts_with(b"WEBVTT\nNOTE "));
    let plain = vtt_response(b"WEBVTT\n\nx".to_vec(), false, &SubtitleStyle::default());
    assert_eq!(plain.style_lossy, None);
    assert_eq!(plain.body, b"WEBVTT\n\nx".to_vec());
}

#[test]
fn live_television_needs_a_tuner() {
    assert_eq!(info(true).services, strings(&["M3U/XMLTV"]));
    assert!(info(true).is_enabled);
    assert!(info(false).services.is_empty());
}

#[test]
fn sessions_and_codes_name_the_client() {
    let labels = ClientLabels {
        device_name: "TV".into(),
        client: "web".into(),
        application_version: "1".into(),
    };
    let s = open_session("u1", "ann", "d1".into(), labels, "srv", "now");
    assert_eq!(s.id.len(), 32);
    assert_eq!((s.user_id.as_str(), s.user_name.as_str()), ("u1", "ann"));
    assert_eq!((s.device_name.as_str(), s.last_activity_date.as_str()), ("TV", "now"));
    assert!(s.is_active && !s.supports_media_control);
    let entry = PendingEntry {
        code: "123456".into(),
        secret: "s".into(),
        device_id: "d".into(),
        authorized_by: None,
    };
    let start = quick_connect_initiate(entry, &Some("TV".into()), &None, &None, "t".into());
    assert_eq!(start.code, "123456");
    assert_eq!(start.device_name, "TV");
    assert_eq!(start.app_name, "");
    assert!(!start.authenticated);
    assert_eq!(start.date_added, "t");
}
