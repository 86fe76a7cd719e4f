//! The items that stand for something other than a file: albums, artists,
//! series, seasons, people, collections, playlists and channels.

use vstd::prelude::*;
use vstd::string::*;
use crate::browse::{self, boxset_only_request, music_album_only_request, playlist_only_request, ListQuery};
use crate::music::{self, album_image_tag, AlbumAgg};
use crate::shows::{self, virtual_show_kind, SeriesRow, ShowFolderKind};
use crate::text::{self, copy_opt};

verus! {

/// A folder as clients see it.
pub struct FolderItem {
    pub id: String,
    pub name: String,
    pub kind: String,
    pub media_type: Option<String>,
    pub collection_type: Option<String>,
    pub overview: Option<String>,
    pub child_count: Option<u32>,
    pub production_year: Option<i32>,
    pub album_artist: Option<String>,
    pub album_artist_id: Option<String>,
    pub series_name: Option<String>,
    pub series_id: Option<String>,
    pub index_number: Option<u32>,
    /// The roles of the item's images and the tags that they go by.
    pub image_tags: Vec<(String, String)>,
    pub backdrop_image_tags: Vec<String>,
}

pub open spec fn tag_texts(v: Seq<(String, String)>) -> Seq<(Seq<char>, Seq<char>)> {
    Seq::new(v.len(), |i: int| (v[i].0@, v[i].1@))
}

/// A folder as texts and numbers.
#[verifier::ext_equal]
pub struct FolderView {
    pub id: Seq<char>,
    pub name: Seq<char>,
    pub kind: Seq<char>,
    pub media_type: Option<Seq<char>>,
    pub collection_type: Option<Seq<char>>,
    pub overview: Option<Seq<char>>,
    pub child_count: Option<u32>,
    pub production_year: Option<i32>,
    pub album_artist: Option<Seq<char>>,
    pub album_artist_id: Option<Seq<char>>,
    pub series_name: Option<Seq<char>>,
    pub series_id: Option<Seq<char>>,
    pub index_number: Option<u32>,
    pub image_tags: Seq<(Seq<char>, Seq<char>)>,
    pub backdrop_image_tags: Seq<Seq<char>>,
}

impl View for FolderItem {
    type V = FolderView;

    open spec fn view(&self) -> FolderView {
        FolderView {
            id: self.id@,
            name: self.name@,
            kind: self.kind@,
            media_type: text::opt_text(self.media_type),
            collection_type: text::opt_text(self.collection_type),
            overview: text::opt_text(self.overview),
            child_count: self.child_count,
            production_year: self.production_year,
            album_artist: text::opt_text(self.album_artist),
            album_artist_id: text::opt_text(self.album_artist_id),
            series_name: text::opt_text(self.series_name),
            series_id: text::opt_text(self.series_id),
            index_number: self.index_number,
            image_tags: tag_texts(self.image_tags@),
            backdrop_image_tags: text::texts(self.backdrop_image_tags@),
        }
    }
}

/// A folder of which nothing is said but what it is.
pub open spec fn plain_folder(id: Seq<char>, name: Seq<char>, kind: Seq<char>) -> FolderView {
    FolderView {
        id,
        name,
        kind,
        media_type: None,
        collection_type: None,
        overview: None,
        child_count: None,
        production_year: None,
        album_artist: None,
        album_artist_id: None,
        series_name: None,
        series_id: None,
        index_number: None,
        image_tags: Seq::empty(),
        backdrop_image_tags: Seq::empty(),
    }
}

/// A folder of which nothing is said but what it is.
pub fn folder(id: &str, name: &str, kind: &str) -> (r: FolderItem)
    ensures
        r@ == plain_folder(id@, name@, kind@),
{
    let r = FolderItem {
        id: id.to_owned(),
        name: name.to_owned(),
        kind: kind.to_owned(),
        media_type: None,
        collection_type: None,
        overview: None,
        child_count: None,
        production_year: None,
        album_artist: None,
        album_artist_id: None,
        series_name: None,
        series_id: None,
        index_number: None,
        image_tags: Vec::new(),
        backdrop_image_tags: Vec::new(),
    };
    proof {
        assert(tag_texts(r.image_tags@) =~= Seq::<(Seq<char>, Seq<char>)>::empty());
        assert(text::texts(r.backdrop_image_tags@) =~= Seq::<Seq<char>>::empty());
    }
    r
}

fn one_tag(role: &str, tag: String) -> (r: Vec<(String, String)>)
    ensures
        tag_texts(r@) == seq![(role@, tag@)],
{
    let ghost shown = tag@;
    let role_text: String = role.to_owned();
    let r: Vec<(String, String)> = vec![(role_text, tag)];
    proof {
        assert(tag_texts(r@) =~= seq![(role@, shown)]);
    }
    r
}

/// A year as clients write it.
pub open spec fn wire_year(y: Option<u32>) -> Option<i32> {
    match y {
        Some(n) => Some(n as i32),
        None => None,
    }
}

fn year_number(y: Option<u32>) -> (r: Option<i32>)
    ensures
        r == wire_year(y),
{
    match y {
        Some(n) => Some(
            #[verifier::truncate]
            (n as i32),
        ),
        None => None,
    }
}

// ------------------------------------------------------------------- the items

/// An album as an item: with its cover's tag, its artist, its year and the
/// number of its tracks.
pub fn synth_album_dto(id: &str, a: &AlbumAgg) -> (r: FolderItem)
    ensures
        r@ == (FolderView {
            child_count: Some(a.child_count),
            production_year: wire_year(a.year),
            album_artist: text::opt_text(a.album_artist),
            album_artist_id: if a.album_artist is Some {
                text::opt_text(a.album_artist_id)
            } else {
                None
            },
            image_tags: seq![
                (
                    "Primary"@,
                    music::hex_digits(
                        (music::xxh3_of(id@) % 0x8000_0000_0000_0000) as nat,
                        16,
                    ),
                ),
            ],
            ..plain_folder(id@, a.name@, "MusicAlbum"@)
        }),
{
    let mut r = folder(id, a.name.as_str(), "MusicAlbum");
    r.child_count = Some(a.child_count);
    r.production_year = year_number(a.year);
    r.album_artist = copy_opt(&a.album_artist);
    r.album_artist_id = if a.album_artist.is_some() {
        copy_opt(&a.album_artist_id)
    } else {
        None
    };
    r.image_tags = one_tag("Primary", album_image_tag(id));
    r
}

/// A series as an item. Its images go by its own id.
pub fn series_dto(s: &SeriesRow, year: Option<u32>) -> (r: FolderItem)
    ensures
        r@ == (FolderView {
            media_type: Some("Unknown"@),
            production_year: wire_year(year),
            image_tags: seq![("Primary"@, s.series_id@), ("Thumb"@, s.series_id@)],
            backdrop_image_tags: seq![s.series_id@],
            ..plain_folder(s.series_id@, s.name@, "Series"@)
        }),
{
    let mut r = folder(s.series_id.as_str(), s.name.as_str(), "Series");
    r.media_type = Some("Unknown".to_owned());
    r.production_year = year_number(year);
    let primary: String = "Primary".to_owned();
    let thumb: String = "Thumb".to_owned();
    r.image_tags = vec![(primary, s.series_id.clone()), (thumb, s.series_id.clone())];
    r.backdrop_image_tags = vec![s.series_id.clone()];
    proof {
        assert(tag_texts(r.image_tags@) =~= seq![
            ("Primary"@, s.series_id@),
            ("Thumb"@, s.series_id@),
        ]);
        assert(text::texts(r.backdrop_image_tags@) =~= seq![s.series_id@]);
    }
    r
}

/// A season as an item. Its image goes by its own id.
pub fn season_dto(s: &SeriesRow, season_id: &str, number: u32, season_name: &str) -> (r: FolderItem)
    ensures
        r@ == (FolderView {
            media_type: Some("Unknown"@),
            series_name: Some(s.name@),
            series_id: Some(s.series_id@),
            index_number: Some(number),
            image_tags: seq![("Primary"@, season_id@)],
            ..plain_folder(season_id@, season_name@, "Season"@)
        }),
{
    let mut r = folder(season_id, season_name, "Season");
    r.media_type = Some("Unknown".to_owned());
    r.series_name = Some(s.name.clone());
    r.series_id = Some(s.series_id.clone());
    r.index_number = Some(number);
    r.image_tags = one_tag("Primary", season_id.to_owned());
    r
}

/// A person as an item. The portrait, where there is one, goes by the person's
/// id.
pub open spec fn person_folder(
    id: Seq<char>,
    name: Seq<char>,
    has_portrait: bool,
    item_count: u32,
) -> FolderView {
    FolderView {
        child_count: Some(item_count),
        image_tags: if has_portrait {
            seq![("Primary"@, id)]
        } else {
            Seq::empty()
        },
        ..plain_folder(id, name, "Person"@)
    }
}

/// A person as an item.
pub fn person_dto(id: &str, name: &str, has_portrait: bool, item_count: u32) -> (r: FolderItem)
    ensures
        r@ == person_folder(id@, name@, has_portrait, item_count),
{
    let mut r = folder(id, name, "Person");
    r.child_count = Some(item_count);
    if has_portrait {
        r.image_tags = one_tag("Primary", id.to_owned());
    }
    r
}

/// A collection as an item. An overview that is empty is none.
pub open spec fn collection_folder(
    id: Seq<char>,
    name: Seq<char>,
    overview: Option<Seq<char>>,
    item_count: u32,
) -> FolderView {
    FolderView {
        child_count: Some(item_count),
        collection_type: Some("boxsets"@),
        overview: match overview {
            Some(o) if o.len() > 0 => Some(o),
            _ => None,
        },
        ..plain_folder(id, name, "BoxSet"@)
    }
}

/// A collection as an item.
pub fn collection_dto(id: &str, name: &str, overview: &Option<String>, item_count: u32) -> (r:
    FolderItem)
    ensures
        r@ == collection_folder(id@, name@, text::opt_text(*overview), item_count),
{
    let mut r = folder(id, name, "BoxSet");
    r.child_count = Some(item_count);
    r.collection_type = Some("boxsets".to_owned());
    if let Some(o) = overview {
        if !o.as_str().is_empty() {
            r.overview = Some(o.clone());
        }
    }
    r
}

/// A playlist as an item.
pub open spec fn playlist_folder(
    id: Seq<char>,
    name: Seq<char>,
    media_type: Seq<char>,
    child_count: u32,
) -> FolderView {
    FolderView {
        media_type: Some(media_type),
        child_count: Some(child_count),
        ..plain_folder(id, name, "Playlist"@)
    }
}

/// A playlist as an item.
pub fn playlist_dto(id: &str, name: &str, media_type: &str, child_count: u32) -> (r: FolderItem)
    ensures
        r@ == playlist_folder(id@, name@, media_type@, child_count),
{
    let mut r = folder(id, name, "Playlist");
    r.media_type = Some(media_type.to_owned());
    r.child_count = Some(child_count);
    r
}

/// An entity of the store as an item: a genre, a studio, or a tag, which goes as
/// a plain folder because clients know no type for it.
pub open spec fn entity_folder(
    id: Seq<char>,
    name: Seq<char>,
    kind: Seq<char>,
    item_count: u32,
) -> FolderView {
    FolderView {
        child_count: Some(item_count),
        ..plain_folder(
            id,
            name,
            if kind == "Tag"@ {
                "Folder"@
            } else {
                kind
            },
        )
    }
}

/// An entity of the store as an item.
pub fn entity_dto(id: &str, name: &str, kind: &str, item_count: u32) -> (r: FolderItem)
    ensures
        r@ == entity_folder(id@, name@, kind@, item_count),
{
    let shown: &str = if text::eq_text(kind, "Tag") {
        "Folder"
    } else {
        kind
    };
    let mut r = folder(id, name, shown);
    r.child_count = Some(item_count);
    r
}

// ---------------------------------------------------------------- list requests

/// Who answers a list request.
#[derive(Debug, Clone, Copy, PartialEq, Eq, Structural)]
pub enum ListRoute {
    BoxSets,
    Playlists,
    Music,
    Shows(ShowFolderKind),
    Items,
}

/// Who answers a list request: box sets, playlists, albums and show folders are
/// answered apart where it names nothing else, and so is an artist as the
/// parent of a request that names no types.
pub open spec fn route_of(types: Option<Seq<char>>, parent_is_artist: bool) -> ListRoute {
    if browse::only_type(types, "BoxSet"@) {
        ListRoute::BoxSets
    } else if browse::only_type(types, "Playlist"@) {
        ListRoute::Playlists
    } else if browse::only_type(types, "MusicAlbum"@) || (types is None && parent_is_artist) {
        ListRoute::Music
    } else {
        match shows::show_kind(types) {
            Some(kind) => ListRoute::Shows(kind),
            None => ListRoute::Items,
        }
    }
}

/// Decides who answers a list request.
pub fn list_items(q: &ListQuery, parent_is_artist: bool) -> (r: ListRoute)
    ensures
        r == route_of(text::opt_text(q.include_item_types), parent_is_artist),
{
    if boxset_only_request(q) {
        return ListRoute::BoxSets;
    }
    if playlist_only_request(q) {
        return ListRoute::Playlists;
    }
    if music_album_only_request(q) || (q.include_item_types.is_none() && parent_is_artist) {
        return ListRoute::Music;
    }
    let types: Option<&str> = match &q.include_item_types {
        Some(t) => Some(t.as_str()),
        None => None,
    };
    proof {
        assert(browse::opt_str(types) == text::opt_text(q.include_item_types));
    }
    match virtual_show_kind(types) {
        Some(kind) => ListRoute::Shows(kind),
        None => ListRoute::Items,
    }
}

// ------------------------------------------------------------------------ laws

/// A person, a collection, a playlist, a genre, a studio and a tag are folders
/// under their own id and name, of the type that clients know them by, and with
/// the number of items in them.
pub proof fn law_entities_are_folders(
    id: Seq<char>,
    name: Seq<char>,
    overview: Option<Seq<char>>,
    media: Seq<char>,
    n: u32,
)
    ensures
        ({
            let p = person_folder(id, name, true, n);
            p.id == id && p.name == name && p.kind == "Person"@ && p.child_count == Some(n)
                && p.image_tags == seq![("Primary"@, id)]
        }),
        person_folder(id, name, false, n).image_tags.len() == 0,
        ({
            let c = collection_folder(id, name, overview, n);
            c.id == id && c.name == name && c.kind == "BoxSet"@ && c.child_count == Some(n)
                && c.collection_type == Some("boxsets"@) && (overview is Some && overview->0.len() > 0
                ==> c.overview == overview) && (overview is None ==> c.overview is None)
        }),
        ({
            let l = playlist_folder(id, name, media, n);
            l.id == id && l.name == name && l.kind == "Playlist"@ && l.child_count == Some(n)
                && l.media_type == Some(media)
        }),
        ({
            let g = entity_folder(id, name, "Genre"@, n);
            g.id == id && g.name == name && g.kind == "Genre"@ && g.child_count == Some(n)
        }),
        ({
            let s = entity_folder(id, name, "Studio"@, n);
            s.id == id && s.name == name && s.kind == "Studio"@ && s.child_count == Some(n)
        }),
        entity_folder(id, name, "Tag"@, n).kind == "Folder"@,
        entity_folder(id, name, "Tag"@, n).child_count == Some(n),
{
    reveal_strlit("Tag");
    reveal_strlit("Genre");
    reveal_strlit("Studio");
    assert("Tag"@.len() == 3 && "Genre"@.len() == 5 && "Studio"@.len() == 6);
}

/// A list of box sets, of playlists or of albums alone is answered apart, as is
/// an artist as the parent of a request that names no types; series and seasons
/// are made of their episodes; and all else is asked of the store.
pub proof fn law_lists_are_answered_apart(types: Option<Seq<char>>, parent_is_artist: bool)
    ensures
        browse::only_type(types, "BoxSet"@) ==> route_of(types, parent_is_artist)
            == ListRoute::BoxSets,
        browse::only_type(types, "Playlist"@) && !browse::only_type(types, "BoxSet"@) ==> route_of(
            types,
            parent_is_artist,
        ) == ListRoute::Playlists,
        types is None && parent_is_artist ==> route_of(types, parent_is_artist) == ListRoute::Music,
        types is None && !parent_is_artist ==> route_of(types, parent_is_artist)
            == ListRoute::Items,
        browse::only_type(types, "MusicAlbum"@) && !browse::only_type(types, "BoxSet"@)
            && !browse::only_type(types, "Playlist"@) ==> route_of(types, parent_is_artist)
            == ListRoute::Music,
        route_of(types, parent_is_artist) matches ListRoute::Shows(k) ==> shows::show_kind(types)
            == Some(k),
        types is Some && route_of(types, parent_is_artist) == ListRoute::Items ==> shows::show_kind(
            types,
        ) is None && !browse::only_type(types, "MusicAlbum"@),
{
}

} // verus!
