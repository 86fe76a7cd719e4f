use pharos_server::answer::ApiError;
use pharos_server::browse::{ParentFilter, ParentResolution};
use pharos_server::folders::{
    add_media_path, add_media_path_target, add_virtual_folder, create_collection, environment_directory_contents,
    fill_parent_id, folder_locations, library_id_for_root, library_name, library_paths,
    library_view_for_id, library_views, new_roots, picker_path, remove_media_path,
    remove_media_path_target, remove_virtual_folder, rename_virtual_folder, require_changed,
    virtual_folders, wire_collection_type, wire_id_for_library_name, DirectoryEntry, Library,
};
use pharos_server::parents::{
    fetch_item_dto, parse_media_id, resolve_parent_filter, restrict_to_parent,
    synth_album_or_artist, ItemFacts, ItemRow, ItemSource, KeyRow, LibraryRow, MusicItem,
    ParentFacts, RootRow,
};
use pharos_server::music::Track;
use pharos_server::path_text::is_below;
use pharos_server::shows::ShowItem;

const ZEROS: &str = "00000000000000000000000000000000";

fn key(id: &str, name: &str) -> KeyRow {
    KeyRow { id: id.into(), folder: None, name: name.into(), season: None }
}

fn no_facts() -> ParentFacts {
    ParentFacts {
        libraries: vec![],
        roots: vec![],
        series: Ok(vec![]),
        seasons: Ok(vec![]),
        artists: Ok(vec![]),
        albums: Ok(vec![]),
        genre_items: Ok(vec![]),
        genre_names: Ok(vec![]),
        person_items: Ok(vec![]),
        studio_items: Ok(vec![]),
        collection: Ok(false),
        collection_members: vec![],
        tag_items: Ok(vec![]),
    }
}

fn resolved(pid: &str, f: &ParentFacts) -> ParentResolution {
    resolve_parent_filter(Some(pid), f).unwrap()
}

#[test]
fn a_parent_that_names_nothing_is_everything_or_nothing() {
    assert!(matches!(resolve_parent_filter(None, &no_facts()), Ok(ParentResolution::All)));
    assert!(matches!(resolved("", &no_facts()), ParentResolution::All));
    assert!(matches!(resolved(ZEROS, &no_facts()), ParentResolution::All));
    assert!(matches!(resolved("unknown", &no_facts()), ParentResolution::Empty));
}

#[test]
fn libraries_go_first() {
    let f = ParentFacts {
        libraries: vec![
            LibraryRow { wire_id: "l".into(), root_path: "/m".into(), item_ids: vec![] },
            LibraryRow { wire_id: "k".into(), root_path: "/n".into(), item_ids: vec![4] },
        ],
        roots: vec![RootRow { id: "r".into(), path: "/r".into() }],
        series: Err("not reached".into()),
        ..no_facts()
    };
    assert!(matches!(resolved("l", &f), ParentResolution::PathPrefix(p) if p == "/m"));
    assert!(matches!(
        resolved("k", &f),
        ParentResolution::Filter(ParentFilter::Library { wire_id }) if wire_id == "k"
    ));
    assert!(matches!(resolved("r", &f), ParentResolution::PathPrefix(p) if p == "/r"));
    // Anything else comes to the look-up that failed.
    let e = resolve_parent_filter(Some("x"), &f).unwrap_err();
    assert_eq!((e.status(), e.message()), (500, "not reached".to_string()));
}

#[test]
fn every_kind_of_parent_is_found() {
    let f = ParentFacts {
        series: Ok(vec![key("s", "Show")]),
        seasons: Ok(vec![
            KeyRow { season: Some(-1), ..key("n", "Show") },
            KeyRow { season: Some(2), ..key("n", "Show") },
        ]),
        artists: Ok(vec![key("a", "Singer")]),
        albums: Ok(vec![key("b", "Record")]),
        genre_names: Ok(vec![key("g", "Rock")]),
        ..no_facts()
    };
    assert!(matches!(
        resolved("s", &f),
        ParentResolution::Filter(ParentFilter::Series { name, .. }) if name == "Show"
    ));
    assert!(matches!(
        resolved("n", &f),
        ParentResolution::Filter(ParentFilter::Season { season: 2, .. })
    ));
    assert!(matches!(
        resolved("a", &f),
        ParentResolution::Filter(ParentFilter::Artist { name }) if name == "Singer"
    ));
    assert!(matches!(
        resolved("b", &f),
        ParentResolution::Filter(ParentFilter::Album { name }) if name == "Record"
    ));
    assert!(matches!(resolved("g", &f), ParentResolution::GenreProbe(g) if g == "Rock"));
    let genre = ParentFacts { genre_items: Ok(vec![1]), ..no_facts() };
    assert!(matches!(
        resolved("e", &genre),
        ParentResolution::Filter(ParentFilter::Genre { wire_id }) if wire_id == "e"
    ));
    let person = ParentFacts { person_items: Ok(vec![1]), ..no_facts() };
    assert!(matches!(
        resolved("e", &person),
        ParentResolution::Filter(ParentFilter::Person { .. })
    ));
    let studio = ParentFacts { studio_items: Ok(vec![1]), ..no_facts() };
    assert!(matches!(
        resolved("e", &studio),
        ParentResolution::Filter(ParentFilter::Studio { .. })
    ));
    let collection = ParentFacts { collection: Ok(true), ..no_facts() };
    assert!(matches!(
        resolved("e", &collection),
        ParentResolution::Filter(ParentFilter::Collection { .. })
    ));
    let tag = ParentFacts { tag_items: Ok(vec![1]), ..no_facts() };
    assert!(matches!(resolved("e", &tag), ParentResolution::Filter(ParentFilter::Tag { .. })));
}

fn row(id: u64, path: &str) -> ItemRow {
    ItemRow {
        id,
        path: path.into(),
        series_id: None,
        season_id: None,
        artist_id: None,
        album_artist_id: None,
        album_id: None,
        genre_ids: vec![],
    }
}

#[test]
fn items_lie_under_their_parents() {
    let mut items = vec![row(1, "/m/a.mkv"), row(2, "/mm/b.mkv"), row(3, "/m/c.mp3")];
    items[2].artist_id = Some("artist".into());
    items[1].genre_ids = vec!["genre".into()];
    let f = ParentFacts {
        roots: vec![RootRow { id: "root".into(), path: "/m".into() }],
        ..no_facts()
    };
    assert_eq!(restrict_to_parent(&items, None, &f), vec![0, 1, 2]);
    // A directory holds what lies below it, not what its name begins.
    assert_eq!(restrict_to_parent(&items, Some("root"), &f), vec![0, 2]);
    assert_eq!(restrict_to_parent(&items, Some("artist"), &f), vec![2]);
    assert_eq!(restrict_to_parent(&items, Some("genre"), &f), vec![1]);
    assert!(restrict_to_parent(&items, Some("unknown"), &f).is_empty());
    // A collection keeps its own order, each member once.
    let collection = ParentFacts {
        collection: Ok(true),
        collection_members: vec![3, 9, 1, 3],
        ..no_facts()
    };
    assert_eq!(restrict_to_parent(&items, Some("c"), &collection), vec![2, 0]);
    // A look-up that failed found nothing.
    let failed = ParentFacts {
        genre_items: Err("gone".into()),
        tag_items: Ok(vec![2]),
        ..no_facts()
    };
    assert_eq!(restrict_to_parent(&items, Some("t"), &failed), vec![1]);
}

#[test]
fn paths_are_compared_part_by_part() {
    assert!(is_below("/media/a.mkv", "/media"));
    assert!(is_below("/media//./a.mkv", "/media/"));
    assert!(is_below("/media", "/media"));
    assert!(!is_below("/media2/a.mkv", "/media"));
    assert!(!is_below("media/a.mkv", "/media"));
    assert!(!is_below("./media/a.mkv", "media"));
}

fn item_facts() -> ItemFacts {
    ItemFacts {
        numeric: None,
        is_view: false,
        show: Ok(None),
        collection: Ok(false),
        playlist: Ok(false),
        music: Ok(None),
    }
}

#[test]
fn single_items_are_found_in_order() {
    let numeric = ItemFacts { numeric: Some(7), is_view: true, ..item_facts() };
    assert!(matches!(fetch_item_dto("7", numeric), Ok(ItemSource::Media(7))));
    let view = ItemFacts { is_view: true, ..item_facts() };
    assert!(matches!(fetch_item_dto("v", view), Ok(ItemSource::View)));
    assert!(matches!(fetch_item_dto(ZEROS, item_facts()), Ok(ItemSource::AllMedia)));
    let show = ItemFacts { show: Ok(Some(ShowItem::Season(2))), ..item_facts() };
    assert!(matches!(fetch_item_dto("s", show), Ok(ItemSource::Show(ShowItem::Season(2)))));
    let collection = ItemFacts { collection: Ok(true), ..item_facts() };
    assert!(matches!(fetch_item_dto("c", collection), Ok(ItemSource::Collection)));
    let playlist = ItemFacts { playlist: Ok(true), ..item_facts() };
    assert!(matches!(fetch_item_dto("p", playlist), Ok(ItemSource::Playlist)));
    let failed = ItemFacts { collection: Err("down".into()), ..item_facts() };
    assert!(matches!(fetch_item_dto("c", failed), Err(ApiError::Internal(m)) if m == "down"));
    let unknown = fetch_item_dto("x", item_facts());
    assert!(matches!(unknown, Err(ApiError::BadRequest(m)) if m == "invalid id"));
    assert_eq!(parse_media_id(Some(3)).unwrap(), 3);
    assert_eq!(parse_media_id(None).unwrap_err().message(), "invalid item id");
}

fn track(album: &str, artist: Option<&str>) -> Track {
    Track {
        audio: true,
        album: Some(album.into()),
        album_artist: None,
        artist: artist.map(String::from),
        year: None,
        genre: None,
        album_id: None,
        album_artist_id: None,
        artist_id: artist.map(|a| format!("id-{a}")),
    }
}

#[test]
fn albums_and_artists_open_as_items() {
    let albums = Ok(vec![key("b", "Record")]);
    let artists = Ok(vec![key("a", "Singer")]);
    let tracks = Ok(vec![track("Record", None), track("Record", Some("Singer")), track("X", None)]);
    match synth_album_or_artist("b", &albums, &artists, &tracks).unwrap().unwrap() {
        MusicItem::Album { name, artist, artist_id, tracks } => {
            assert_eq!(name, "Record");
            assert_eq!(artist, Some("Singer".to_string()));
            assert_eq!(artist_id, Some("id-Singer".to_string()));
            assert_eq!(tracks, 2);
        }
        MusicItem::Artist { .. } => panic!("an album"),
    }
    assert!(matches!(
        synth_album_or_artist("a", &albums, &artists, &tracks),
        Ok(Some(MusicItem::Artist { name })) if name == "Singer"
    ));
    assert!(matches!(synth_album_or_artist("z", &albums, &artists, &tracks), Ok(None)));
    let gone: Result<Vec<KeyRow>, String> = Err("gone".into());
    assert!(synth_album_or_artist("a", &gone, &artists, &tracks).is_err());
}

// ----------------------------------------------------------------------- folders

fn library(name: &str, ct: &str) -> Library {
    Library {
        wire_id: format!("id-{name}"),
        name: name.into(),
        root_path: format!("/m/{name}"),
        collection_type: ct.into(),
    }
}

fn root(path: &str) -> RootRow {
    RootRow { id: format!("id{path}"), path: path.into() }
}

#[test]
fn libraries_are_views() {
    let views = library_views(&vec![library("Films", "movies"), library("All", "mixed")], &vec![]);
    assert_eq!(views[0].collection_type, Some("movies".to_string()));
    assert_eq!(views[1].collection_type, None);
    assert_eq!(library_view_for_id(&views, "id-All"), Some(1));
    assert_eq!(library_view_for_id(&views, "other"), None);
    let plain = library_views(&vec![], &vec![root("/data/tv"), root("/")]);
    assert_eq!(plain[0].name, "tv");
    assert_eq!(plain[1].name, "Media");
    let none = library_views(&vec![], &vec![]);
    assert_eq!((none[0].id.as_str(), none[0].name.as_str()), (ZEROS, "All Media"));
    assert_eq!(wire_collection_type(""), None);
}

#[test]
fn folders_have_their_locations() {
    let folders = virtual_folders(&vec![], &vec![root("/data/tv")]);
    assert_eq!(folders[0].collection_type, "mixed");
    assert_eq!(folders[0].root_path, "/data/tv");
    assert_eq!(virtual_folders(&vec![], &vec![])[0].wire_id, ZEROS);
    let extra = vec!["/more".to_string()];
    assert_eq!(folder_locations("/data", &extra), vec!["/data", "/more"]);
    assert_eq!(folder_locations("", &extra), vec!["/more"]);
}

#[test]
fn library_ids_are_thirty_two_digits() {
    assert_eq!(library_id_for_root(0xabc), "0000000000000abc0000000000000abc");
    assert_eq!(library_id_for_root(u64::MAX), "f".repeat(32));
}

#[test]
fn items_get_their_library_as_parent() {
    let roots = vec![root("/m"), root("/n")];
    assert_eq!(fill_parent_id(&None, "/n/x.mkv", &roots), Some("id/n".to_string()));
    assert_eq!(fill_parent_id(&Some("own".into()), "/n/x.mkv", &roots), Some("own".to_string()));
    assert_eq!(fill_parent_id(&None, "/z/x.mkv", &roots), None);
}

#[test]
fn a_new_library_needs_a_path() {
    let body: Vec<String> = vec![" ".into(), "/a".into()];
    assert_eq!(library_paths(&body, Some("/q")).unwrap(), vec!["/a"]);
    assert_eq!(library_paths(&vec![], Some("/q")).unwrap(), vec!["/q"]);
    let e = library_paths(&vec![], Some("  ")).unwrap_err();
    assert_eq!(e.status(), 400);
    assert_eq!(e.message(), "no library path supplied (LibraryOptions.PathInfos[].Path)");
    assert_eq!(library_name(Some("Films"), true, "/a/b"), "Films");
    assert_eq!(library_name(Some("Films"), false, "/a/b"), "Films (b)");
    assert_eq!(library_name(None, true, "/a/b"), "b");
    assert_eq!(library_name(None, true, "/"), "Media");
    let paths: Vec<String> = vec!["/m/new".into(), "/other".into()];
    assert_eq!(new_roots(&paths, &vec![root("/m")]), vec!["/other"]);
    let plan = match add_virtual_folder(Some("Films"), &paths, None, &vec![root("/m")]) {
        Ok(p) => p,
        Err(e) => panic!("{}", e.message()),
    };
    assert_eq!(
        plan.libraries,
        vec![
            ("Films".to_string(), "/m/new".to_string()),
            ("Films (other)".to_string(), "/other".to_string()),
        ]
    );
    assert_eq!(plan.scan, vec!["/other"]);
    assert!(add_virtual_folder(None, &vec![], None, &vec![]).is_err());
}

#[test]
fn libraries_are_removed_and_renamed() {
    let libs = vec![library("Films", "movies")];
    assert_eq!(remove_virtual_folder(Some("Films"), &libs).unwrap(), "/m/Films");
    assert_eq!(remove_virtual_folder(Some("X"), &libs).unwrap_err().status(), 404);
    assert_eq!(remove_virtual_folder(Some(" "), &libs).unwrap_err().message(), "missing ?name=");
    assert_eq!(
        rename_virtual_folder(Some("id"), Some(" New ")).unwrap(),
        ("id".to_string(), "New".to_string())
    );
    assert_eq!(rename_virtual_folder(Some(""), Some("n")).unwrap_err().message(), "missing id");
    assert_eq!(
        rename_virtual_folder(Some("id"), None).unwrap_err().message(),
        "missing newName"
    );
    assert!(require_changed(1).is_ok());
    assert_eq!(require_changed(0).unwrap_err().message(), "no such library");
    assert_eq!(wire_id_for_library_name(&libs, "Films"), Some("id-Films".to_string()));
}

#[test]
fn paths_are_added_once_and_removed() {
    let libs = vec![library("Films", "movies")];
    let target = add_media_path_target(" Films ", " /x ", &libs).unwrap();
    assert_eq!(target, ("id-Films".to_string(), "/x".to_string()));
    assert_eq!(
        add_media_path_target("Films", " ", &libs).unwrap_err().message(),
        "Name and PathInfo.Path required"
    );
    assert_eq!(add_media_path_target("Y", "/x", &libs).unwrap_err().status(), 404);
    let one = add_media_path(&vec!["/a".to_string()], "/x");
    assert_eq!(one, vec!["/a", "/x"]);
    assert_eq!(add_media_path(&one, "/x"), one);
    assert_eq!(remove_media_path(&one, "/x"), vec!["/a"]);
    assert_eq!(remove_media_path_target(Some("Films"), Some("/x"), &libs).unwrap(), "id-Films");
    assert_eq!(
        remove_media_path_target(None, Some("/x"), &libs).unwrap_err().message(),
        "missing name"
    );
    assert_eq!(
        remove_media_path_target(Some("Films"), None, &libs).unwrap_err().message(),
        "missing path"
    );
}

#[test]
fn collections_need_a_name() {
    assert_eq!(create_collection(Some(" Best ")).unwrap(), "Best");
    assert_eq!(create_collection(Some(" ")).unwrap_err().message(), "Name is required");
}

#[test]
fn the_folder_picker_lists_by_name() {
    let entry = |name: &str, is_dir: bool| DirectoryEntry {
        name: name.into(),
        path: format!("/{name}"),
        is_dir,
    };
    let es = vec![entry("b", true), entry(".git", true), entry("file", false), entry("a", true)];
    assert_eq!(environment_directory_contents(&es, false, false), vec![3, 0]);
    assert_eq!(environment_directory_contents(&es, false, true), vec![2]);
    assert_eq!(environment_directory_contents(&es, true, true), vec![3, 0, 2]);
    assert_eq!(picker_path(None), "/");
    assert_eq!(picker_path(Some("")), "/");
    assert_eq!(picker_path(Some("/x")), "/x");
}
