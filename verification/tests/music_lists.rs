use pharos_server::browse::ListQuery;
use pharos_server::folder_items::{
    collection_dto, entity_dto, person_dto, playlist_dto, season_dto, series_dto, synth_album_dto,
};
use pharos_server::media::MediaKind;
use pharos_server::music::{
    aggregate_albums, album_image_tag, default_similar_limit, id_set, items_similar, list_albums,
    list_artists, list_credits, maybe_list_music, order_albums, similarity_score, sort_album_aggs,
    tag_of_number, ItemTraits, MusicEntry, Track,
};
use pharos_server::shows::SeriesRow;
use pharos_server::similar_music::{
    all_genres, genre_tokens, music_similar, similar_artists, SimilarMusic,
};

fn track(album: &str, album_artist: &str, artist: &str, year: Option<u32>, genre: &str) -> Track {
    let some = |s: &str| if s.is_empty() { None } else { Some(s.to_string()) };
    let id = |p: &str, s: &str| if s.is_empty() { None } else { Some(format!("{p}-{s}")) };
    Track {
        audio: true,
        album: some(album),
        album_artist: some(album_artist),
        artist: some(artist),
        year,
        genre: some(genre),
        album_id: id("AL", album),
        album_artist_id: id("AR", album_artist),
        artist_id: id("AR", artist),
    }
}

fn tracks() -> Vec<Track> {
    vec![
        track("Zeta", "Band", "Band", Some(2001), "Rock; Metal"),
        track("alpha", "Band", "Guest", Some(1999), "Rock"),
        track("alpha", "", "Other", Some(1998), "Pop"),
        track("", "Band", "", None, ""),
        track("Beta", "Singer", "Singer", None, "rock/metal"),
    ]
}

#[test]
fn albums_are_made_of_their_tracks() {
    let ts = tracks();
    let albums = aggregate_albums(&ts, &vec![true; ts.len()]);
    let names: Vec<&str> = albums.iter().map(|a| a.name.as_str()).collect();
    // By name, capitals before small letters.
    assert_eq!(names, vec!["Beta", "Zeta", "alpha"]);
    assert_eq!(albums[2].child_count, 2);
    assert_eq!(albums[2].year, Some(1998));
    assert_eq!(albums[2].album_artist, Some("Band".to_string()));
    assert_eq!(albums[0].year, None);
}

#[test]
fn albums_are_ordered_without_case_or_by_year() {
    let ts = tracks();
    let albums = aggregate_albums(&ts, &vec![true; ts.len()]);
    assert_eq!(sort_album_aggs(&albums, &vec![], None, false), vec![2, 0, 1]);
    assert_eq!(sort_album_aggs(&albums, &vec![], None, true), vec![1, 0, 2]);
    assert_eq!(
        sort_album_aggs(&albums, &vec![], Some("ProductionYear,SortName"), false),
        vec![0, 2, 1]
    );
    assert_eq!(sort_album_aggs(&albums, &vec!["al-beta".into()], None, false), vec![2, 1]);
    let lowered: Vec<String> = vec!["b".into(), "a".into(), "a".into()];
    assert_eq!(order_albums(&albums, &lowered, &vec![], false, false), vec![1, 2, 0]);
}

#[test]
fn id_lists_have_no_case() {
    assert_eq!(id_set(Some(" AB , cd,,")), vec!["ab", "cd"]);
    assert!(id_set(None).is_empty());
}

#[test]
fn an_artists_page_has_albums_and_loose_tracks() {
    let ts = tracks();
    let page = maybe_list_music(&ts, Some("band"), &ListQuery::default()).unwrap();
    let names: Vec<&str> = page.albums.iter().map(|a| a.name.as_str()).collect();
    assert_eq!(names, vec!["Zeta", "alpha"]);
    assert_eq!(
        page.page,
        vec![MusicEntry::Album(1), MusicEntry::Album(0), MusicEntry::Loose(3)]
    );
    assert_eq!(page.total, 3);
    let cut = ListQuery { start_index: 2, limit: 5, ..Default::default() };
    let rest = maybe_list_music(&ts, Some("band"), &cut).unwrap();
    assert_eq!((rest.page, rest.total), (vec![MusicEntry::Loose(3)], 3));
    assert!(maybe_list_music(&ts, None, &ListQuery::default()).is_none());
}

#[test]
fn album_lists_are_narrowed_by_artists() {
    let ts = tracks();
    let ask = |f: fn(&mut ListQuery)| {
        let mut q =
            ListQuery { include_item_types: Some("MusicAlbum".into()), ..Default::default() };
        f(&mut q);
        let page = maybe_list_music(&ts, None, &q).unwrap();
        let shown: Vec<String> = page
            .page
            .iter()
            .map(|e| match e {
                MusicEntry::Album(k) => page.albums[*k].name.clone(),
                MusicEntry::Loose(_) => panic!("albums only"),
            })
            .collect();
        shown
    };
    assert_eq!(ask(|_| ()), vec!["alpha", "Beta", "Zeta"]);
    assert_eq!(ask(|q| q.album_artist_ids = Some("ar-band".into())), vec!["alpha", "Zeta"]);
    // An artist appears on what is not the artist's own.
    assert_eq!(ask(|q| q.contributing_artist_ids = Some("AR-Guest".into())), vec!["alpha"]);
    assert!(ask(|q| q.contributing_artist_ids = Some("AR-Band".into())).is_empty());
    assert_eq!(ask(|q| q.artist_ids = Some("AR-Other".into())), vec!["alpha"]);
    assert_eq!(ask(|q| q.exclude_item_ids = Some("AL-Zeta".into())), vec!["alpha", "Beta"]);
    let movies = ListQuery { include_item_types: Some("Movie".into()), ..Default::default() };
    assert!(maybe_list_music(&ts, Some("band"), &movies).is_none());
}

#[test]
fn artists_and_albums_are_listed_by_name() {
    let ts = tracks();
    let credits = list_credits(&ts);
    let names = |at: Vec<usize>| {
        at.iter().map(|k| credits[*k].name.clone()).collect::<Vec<String>>()
    };
    let q = ListQuery::default();
    assert_eq!(names(list_artists(&credits, &q)), vec!["Band", "Guest", "Other", "Singer"]);
    let g = ListQuery { name_starts_with: Some("G".into()), ..Default::default() };
    assert_eq!(names(list_artists(&credits, &g)), vec!["Guest"]);
    let albums = list_albums(&ts, &q);
    assert_eq!(albums.len(), 3);
    let a = ListQuery { name_starts_with: Some("A".into()), ..Default::default() };
    assert_eq!(list_albums(&ts, &a)[0].name, "alpha");
}

#[test]
fn image_tags_are_sixteen_digits() {
    assert_eq!(tag_of_number(0xff), "00000000000000ff");
    // The highest bit is cleared.
    assert_eq!(tag_of_number(u64::MAX), "7fffffffffffffff");
    let tag = album_image_tag("00112233445566778899aabbccddeeff");
    assert_eq!(tag.len(), 16);
    assert_eq!(tag, album_image_tag("00112233445566778899aabbccddeeff"));
    assert_ne!(tag, album_image_tag("another"));
    let h = xxhash_rust::xxh3::xxh3_64(b"another") & 0x7FFF_FFFF_FFFF_FFFF;
    assert_eq!(album_image_tag("another"), format!("{h:016x}"));
}

// ------------------------------------------------------------------- resemblance

fn traits(id: u64, kind: MediaKind, title: &str, genre: &str) -> ItemTraits {
    ItemTraits {
        id,
        kind,
        title: title.into(),
        series_key: None,
        album_artist: None,
        album: None,
        genre: Some(genre.into()),
    }
}

#[test]
fn likeness_is_scored() {
    let mut a = traits(1, MediaKind::Episode, "a", "Drama");
    let mut b = traits(2, MediaKind::Episode, "b", "drama");
    assert_eq!(similarity_score(&a, &b), 25);
    a.series_key = Some("/tv/x".into());
    b.series_key = Some("/TV/X".into());
    assert_eq!(similarity_score(&a, &b), 225);
    assert_eq!(similarity_score(&b, &a), 225);
    // Music is not like a film, whatever the genre.
    assert_eq!(similarity_score(&a, &traits(3, MediaKind::Audio, "c", "Drama")), 0);
    assert_eq!(similarity_score(&a, &traits(4, MediaKind::Movie, "d", "Drama")), 5);
    assert_eq!(default_similar_limit(), 12);
}

#[test]
fn similar_items_are_the_most_alike_first() {
    let items = vec![
        traits(1, MediaKind::Movie, "target", "War"),
        traits(2, MediaKind::Movie, "zebra", "War"),
        traits(3, MediaKind::Movie, "ant", "Peace"),
        traits(4, MediaKind::Movie, "bee", "war"),
        traits(5, MediaKind::Audio, "song", "War"),
        // A film of another genre is nearer to a film than an episode of the same.
        traits(6, MediaKind::Episode, "aardvark", "War"),
    ];
    assert_eq!(items_similar(&items, 1, 10), vec![3, 1, 2, 5]);
    assert_eq!(items_similar(&items, 1, 2), vec![3, 1]);
    assert!(items_similar(&items, 9, 10).is_empty());
}

#[test]
fn tracks_of_the_album_come_before_those_of_its_artist() {
    let song = |id: u64, title: &str, album: &str, album_artist: &str, genre: &str| ItemTraits {
        album: Some(album.into()),
        album_artist: Some(album_artist.into()),
        ..traits(id, MediaKind::Audio, title, genre)
    };
    let items = vec![
        song(1, "target", "Blue", "Ann", "Folk"),
        song(2, "a", "Other", "Other", "folk"),
        song(3, "b", "Other", "ann", "Folk"),
        song(4, "c", "Other", "Ann", "Jazz"),
        song(5, "d", "blue", "Other", "Jazz"),
    ];
    assert_eq!(items_similar(&items, 1, 10), vec![4, 2, 3, 1]);
}

#[test]
fn genres_are_split_and_lowered() {
    assert_eq!(
        genre_tokens(&Some("Rock, Nu Metal;/| ÉLECTRO ".into())),
        vec!["rock", "nu metal", "électro"]
    );
    assert!(genre_tokens(&None).is_empty());
}

#[test]
fn similar_albums_share_artist_or_genres() {
    let ts = tracks();
    match music_similar(&ts, "al-zeta", None, 10) {
        SimilarMusic::Albums { target, albums, picks } => {
            assert_eq!(target.name, "Zeta");
            assert_eq!(target.artist, Some("Band".to_string()));
            let names: Vec<&str> = picks.iter().map(|k| albums[*k].name.as_str()).collect();
            // alpha: the artist and one genre; Beta: two genres.
            assert_eq!(names, vec!["alpha", "Beta"]);
        }
        _ => panic!("albums"),
    }
    match music_similar(&ts, "AL-Zeta", Some("AR-Band"), 10) {
        SimilarMusic::Albums { albums, picks, .. } => {
            let names: Vec<&str> = picks.iter().map(|k| albums[*k].name.as_str()).collect();
            assert_eq!(names, vec!["Beta"]);
        }
        _ => panic!("albums"),
    }
}

#[test]
fn the_artist_counts_for_two_genres() {
    let ts = vec![
        track("One", "Band", "Band", None, "a,b,c,d"),
        track("Two", "Other", "Other", None, "A,B,C,D"),
        track("Three", "band", "Band", None, "x"),
        track("Four", "Other", "Other", None, "a,b"),
    ];
    match music_similar(&ts, "al-one", None, 10) {
        SimilarMusic::Albums { albums, picks, .. } => {
            let names: Vec<&str> = picks.iter().map(|k| albums[*k].name.as_str()).collect();
            assert_eq!(names, vec!["Two", "Three", "Four"]);
        }
        _ => panic!("albums"),
    }
}

#[test]
fn similar_artists_share_genres() {
    let ts = tracks();
    match music_similar(&ts, "ar-band", None, 10) {
        SimilarMusic::Artists { artist: target, credits, picks } => {
            assert_eq!(target, "Band");
            let names: Vec<&str> = picks.iter().map(|k| credits[*k].name.as_str()).collect();
            assert_eq!(names, vec!["Singer", "Guest"]);
        }
        _ => panic!("artists"),
    }
    assert!(matches!(music_similar(&ts, "unknown", None, 10), SimilarMusic::Nothing));
    let credits = list_credits(&ts);
    let lowered: Vec<String> = credits.iter().map(|c| c.name.to_lowercase()).collect();
    let picks = similar_artists(&credits, &lowered, "Guest", &ts, &all_genres(&ts), 1);
    assert_eq!(credits[picks[0]].name, "Band");
}

// ------------------------------------------------------------------------- items

#[test]
fn albums_are_items() {
    let ts = tracks();
    let albums = aggregate_albums(&ts, &vec![true; ts.len()]);
    let item = synth_album_dto("AL-alpha", &albums[2]);
    assert_eq!((item.id.as_str(), item.kind.as_str()), ("AL-alpha", "MusicAlbum"));
    assert_eq!(item.child_count, Some(2));
    assert_eq!(item.production_year, Some(1998));
    assert_eq!(item.album_artist_id, Some("AR-Band".to_string()));
    assert_eq!(item.image_tags, vec![("Primary".to_string(), album_image_tag("AL-alpha"))]);
}

#[test]
fn shows_people_and_lists_are_items() {
    let s = SeriesRow {
        key: "/tv/x".into(),
        name: "X".into(),
        series_id: "sx".into(),
        season_id: None,
        season_number: None,
        episode_number: None,
    };
    let series = series_dto(&s, Some(2008));
    assert_eq!(series.backdrop_image_tags, vec!["sx"]);
    assert_eq!(series.image_tags.len(), 2);
    let season = season_dto(&s, "sx-1", 1, "Season 1");
    assert_eq!(season.series_id, Some("sx".to_string()));
    assert_eq!(season.index_number, Some(1));
    assert!(person_dto("p", "P", false, 3).image_tags.is_empty());
    assert_eq!(person_dto("p", "P", true, 3).image_tags[0].1, "p");
    assert_eq!(collection_dto("c", "C", &Some(String::new()), 0).overview, None);
    assert_eq!(playlist_dto("l", "L", "Audio", 2).media_type, Some("Audio".to_string()));
    assert_eq!(entity_dto("t", "T", "Tag", 1).kind, "Folder");
    assert_eq!(entity_dto("g", "G", "Genre", 1).kind, "Genre");
}
