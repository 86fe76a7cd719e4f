//! What a parent id names, and which items lie under it.

use vstd::prelude::*;
use vstd::string::*;
use crate::answer::{ApiError, Refusal};
use crate::browse::{self, holds_id, ParentFilter, ParentResolution};
use crate::music::{self, Track};
use crate::path_text::{self, is_below};
use crate::seqs::{self, marked_places};
use crate::shows::ShowItem;
use crate::text_sets::holds_text;
use crate::text::{self, copy_opt, eq_text};

verus! {

// ---------------------------------------------------------------------- facts

/// A library, and the items that are filed under it.
pub struct LibraryRow {
    pub wire_id: String,
    pub root_path: String,
    pub item_ids: Vec<u64>,
}

/// A directory with media that is no library.
pub struct RootRow {
    pub id: String,
    pub path: String,
}

/// Something with a name that clients know by an id made from it.
pub struct KeyRow {
    pub id: String,
    pub folder: Option<String>,
    pub name: String,
    pub season: Option<i64>,
}

/// What the store knows of a parent id. Each look-up may have failed.
pub struct ParentFacts {
    pub libraries: Vec<LibraryRow>,
    pub roots: Vec<RootRow>,
    pub series: Result<Vec<KeyRow>, String>,
    pub seasons: Result<Vec<KeyRow>, String>,
    pub artists: Result<Vec<KeyRow>, String>,
    pub albums: Result<Vec<KeyRow>, String>,
    pub genre_items: Result<Vec<u64>, String>,
    /// The genres that the items name themselves.
    pub genre_names: Result<Vec<KeyRow>, String>,
    pub person_items: Result<Vec<u64>, String>,
    pub studio_items: Result<Vec<u64>, String>,
    /// Whether there is a collection with the id.
    pub collection: Result<bool, String>,
    pub collection_members: Vec<u64>,
    pub tag_items: Result<Vec<u64>, String>,
}

/// The id that stands for everything.
pub open spec fn everything_id() -> Seq<char> {
    "00000000000000000000000000000000"@
}

/// Whether a parent id narrows nothing.
pub open spec fn names_all(pid: Option<Seq<char>>) -> bool {
    match pid {
        Some(p) => p.len() == 0 || p == everything_id(),
        None => true,
    }
}

/// Whether a parent id is absent or stands for everything.
pub fn is_everything(pid: Option<&str>) -> (r: bool)
    ensures
        r == names_all(browse::opt_str(pid)),
{
    match pid {
        Some(p) => p.is_empty() || eq_text(p, "00000000000000000000000000000000"),
        None => true,
    }
}

/// Whether a row has an id. Season numbers that no season can have do not
/// count.
pub open spec fn has_id(rows: Seq<KeyRow>, id: Seq<char>) -> spec_fn(int) -> bool {
    |i: int|
        rows[i].id@ == id && match rows[i].season {
            Some(n) => 0 <= n <= u32::MAX,
            None => true,
        }
}

pub open spec fn row_at(rows: Seq<KeyRow>, id: Seq<char>) -> Option<int> {
    seqs::first_index(has_id(rows, id), 0, rows.len() as int)
}

pub open spec fn library_with(rows: Seq<LibraryRow>, id: Seq<char>) -> spec_fn(int) -> bool {
    |i: int| rows[i].wire_id@ == id
}

pub open spec fn library_at(rows: Seq<LibraryRow>, id: Seq<char>) -> Option<int> {
    seqs::first_index(library_with(rows, id), 0, rows.len() as int)
}

pub open spec fn root_with(rows: Seq<RootRow>, id: Seq<char>) -> spec_fn(int) -> bool {
    |i: int| rows[i].id@ == id
}

pub open spec fn root_at(rows: Seq<RootRow>, id: Seq<char>) -> Option<int> {
    seqs::first_index(root_with(rows, id), 0, rows.len() as int)
}

/// The view of a place that may not be there.
pub open spec fn opt_place(o: Option<usize>) -> Option<int> {
    match o {
        Some(k) => Some(k as int),
        None => None,
    }
}

fn find_row(rows: &Vec<KeyRow>, id: &str) -> (r: Option<usize>)
    ensures
        opt_place(r) == row_at(rows@, id@),
        r is Some ==> r->0 < rows@.len() && has_id(rows@, id@)(r->0 as int),
{
    let ghost wanted = has_id(rows@, id@);
    let mut i: usize = 0;
    while i < rows.len()
        invariant
            i <= rows@.len(),
            wanted == has_id(rows@, id@),
            forall|j: int| 0 <= j < i ==> !#[trigger] wanted(j),
        decreases rows@.len() - i,
    {
        let fits: bool = match rows[i].season {
            Some(n) => 0 <= n && n <= u32::MAX as i64,
            None => true,
        };
        if eq_text(rows[i].id.as_str(), id) && fits {
            proof {
                seqs::lemma_first_index(wanted, 0, i as int, rows@.len() as int);
            }
            return Some(i);
        }
        i += 1;
    }
    proof {
        seqs::lemma_first_index(wanted, 0, i as int, rows@.len() as int);
    }
    None
}

fn find_library(rows: &Vec<LibraryRow>, id: &str) -> (r: Option<usize>)
    ensures
        opt_place(r) == library_at(rows@, id@),
        r is Some ==> r->0 < rows@.len(),
{
    let ghost wanted = library_with(rows@, id@);
    let mut i: usize = 0;
    while i < rows.len()
        invariant
            i <= rows@.len(),
            wanted == library_with(rows@, id@),
            forall|j: int| 0 <= j < i ==> !#[trigger] wanted(j),
        decreases rows@.len() - i,
    {
        if eq_text(rows[i].wire_id.as_str(), id) {
            proof {
                seqs::lemma_first_index(wanted, 0, i as int, rows@.len() as int);
            }
            return Some(i);
        }
        i += 1;
    }
    proof {
        seqs::lemma_first_index(wanted, 0, i as int, rows@.len() as int);
    }
    None
}

fn find_root(rows: &Vec<RootRow>, id: &str) -> (r: Option<usize>)
    ensures
        opt_place(r) == root_at(rows@, id@),
        r is Some ==> r->0 < rows@.len(),
{
    let ghost wanted = root_with(rows@, id@);
    let mut i: usize = 0;
    while i < rows.len()
        invariant
            i <= rows@.len(),
            wanted == root_with(rows@, id@),
            forall|j: int| 0 <= j < i ==> !#[trigger] wanted(j),
        decreases rows@.len() - i,
    {
        if eq_text(rows[i].id.as_str(), id) {
            proof {
                seqs::lemma_first_index(wanted, 0, i as int, rows@.len() as int);
            }
            return Some(i);
        }
        i += 1;
    }
    proof {
        seqs::lemma_first_index(wanted, 0, i as int, rows@.len() as int);
    }
    None
}

// ------------------------------------------------------------------ resolution

/// Whether an answer is the failure of a look-up.
pub open spec fn failed(r: Result<ParentResolution, ApiError>, why: Seq<char>) -> bool {
    r matches Err(e) && e.says(Refusal::Internal, why)
}

/// Whether an answer narrows to a filter for which `is` holds.
pub open spec fn narrows(
    r: Result<ParentResolution, ApiError>,
    is: spec_fn(ParentFilter) -> bool,
) -> bool {
    r matches Ok(ParentResolution::Filter(f)) && is(f)
}

/// The answer for the entities of the store: genres, people, studios,
/// collections and tags, in this order. A collection counts even while it is
/// empty.
pub open spec fn entity_answer(
    r: Result<ParentResolution, ApiError>,
    pid: Seq<char>,
    f: ParentFacts,
) -> bool {
    match f.genre_items {
        Err(e) => failed(r, e@),
        Ok(ids) => if ids@.len() > 0 {
            narrows(r, |p: ParentFilter| p matches ParentFilter::Genre { wire_id } && wire_id@ == pid)
        } else {
            match f.genre_names {
                Err(e) => failed(r, e@),
                Ok(names) => match row_at(names@, pid) {
                    Some(k) => r matches Ok(ParentResolution::GenreProbe(t)) && t@
                        == names@[k].name@,
                    None => late_answer(r, pid, f),
                },
            }
        },
    }
}

/// The answer for people, studios, collections and tags.
pub open spec fn late_answer(
    r: Result<ParentResolution, ApiError>,
    pid: Seq<char>,
    f: ParentFacts,
) -> bool {
    match f.person_items {
        Err(e) => failed(r, e@),
        Ok(people) => if people@.len() > 0 {
            narrows(
                r,
                |p: ParentFilter| p matches ParentFilter::Person { wire_id } && wire_id@ == pid,
            )
        } else {
            match f.studio_items {
                Err(e) => failed(r, e@),
                Ok(studios) => if studios@.len() > 0 {
                    narrows(
                        r,
                        |p: ParentFilter|
                            p matches ParentFilter::Studio { wire_id } && wire_id@ == pid,
                    )
                } else {
                    match f.collection {
                        Err(e) => failed(r, e@),
                        Ok(there) => if there {
                            narrows(
                                r,
                                |p: ParentFilter|
                                    p matches ParentFilter::Collection { wire_id } && wire_id@
                                        == pid,
                            )
                        } else {
                            match f.tag_items {
                                Err(e) => failed(r, e@),
                                Ok(tags) => if tags@.len() > 0 {
                                    narrows(
                                        r,
                                        |p: ParentFilter|
                                            p matches ParentFilter::Tag { wire_id } && wire_id@
                                                == pid,
                                    )
                                } else {
                                    r matches Ok(ParentResolution::Empty)
                                },
                            }
                        },
                    }
                },
            }
        },
    }
}

/// The answer for artists and albums, and then for the entities.
pub open spec fn music_answer(
    r: Result<ParentResolution, ApiError>,
    pid: Seq<char>,
    f: ParentFacts,
) -> bool {
    match f.artists {
        Err(e) => failed(r, e@),
        Ok(artists) => match row_at(artists@, pid) {
            Some(k) => narrows(
                r,
                |p: ParentFilter|
                    p matches ParentFilter::Artist { name } && name@ == artists@[k].name@,
            ),
            None => match f.albums {
                Err(e) => failed(r, e@),
                Ok(albums) => match row_at(albums@, pid) {
                    Some(k) => narrows(
                        r,
                        |p: ParentFilter|
                            p matches ParentFilter::Album { name } && name@ == albums@[k].name@,
                    ),
                    None => entity_answer(r, pid, f),
                },
            },
        },
    }
}

/// The answer for series and seasons, and then for music and the entities.
pub open spec fn show_answer(
    r: Result<ParentResolution, ApiError>,
    pid: Seq<char>,
    f: ParentFacts,
) -> bool {
    match f.series {
        Err(e) => failed(r, e@),
        Ok(series) => match row_at(series@, pid) {
            Some(k) => narrows(
                r,
                |p: ParentFilter|
                    p matches ParentFilter::Series { folder, name } && name@ == series@[k].name@
                        && text::opt_text(folder) == text::opt_text(series@[k].folder),
            ),
            None => match f.seasons {
                Err(e) => failed(r, e@),
                Ok(seasons) => match row_at(seasons@, pid) {
                    Some(k) => narrows(
                        r,
                        |p: ParentFilter|
                            p matches ParentFilter::Season { folder, name, season } && name@
                                == seasons@[k].name@ && text::opt_text(folder) == text::opt_text(
                                seasons@[k].folder,
                            ) && season == (match seasons@[k].season {
                                Some(n) => n as int,
                                None => 0,
                            }),
                    ),
                    None => music_answer(r, pid, f),
                },
            },
        },
    }
}

/// What a parent id names: a library, a directory, a series, a season, an
/// artist, an album, a genre, a person, a studio, a collection or a tag, the
/// first of these that fits, or the failure of a look-up on the way there.
pub open spec fn parent_answer(
    r: Result<ParentResolution, ApiError>,
    pid: Option<Seq<char>>,
    f: ParentFacts,
) -> bool {
    if names_all(pid) {
        r matches Ok(ParentResolution::All)
    } else {
        match library_at(f.libraries@, pid->0) {
            Some(k) => if f.libraries@[k].item_ids@.len() > 0 {
                narrows(
                    r,
                    |p: ParentFilter|
                        p matches ParentFilter::Library { wire_id } && wire_id@ == pid->0,
                )
            } else {
                r matches Ok(ParentResolution::PathPrefix(p)) && p@ == f.libraries@[k].root_path@
            },
            None => match root_at(f.roots@, pid->0) {
                Some(k) => r matches Ok(ParentResolution::PathPrefix(p)) && p@ == f.roots@[k].path@,
                None => show_answer(r, pid->0, f),
            },
        }
    }
}

fn resolve_entities(pid: &str, f: &ParentFacts) -> (r: Result<ParentResolution, ApiError>)
    ensures
        entity_answer(r, pid@, *f),
{
    match &f.genre_items {
        Err(e) => {
            return Err(ApiError::Internal(e.clone()));
        },
        Ok(ids) => if ids.len() > 0 {
            return Ok(ParentResolution::Filter(ParentFilter::Genre { wire_id: pid.to_owned() }));
        },
    }
    match &f.genre_names {
        Err(e) => {
            return Err(ApiError::Internal(e.clone()));
        },
        Ok(names) => if let Some(k) = find_row(names, pid) {
            return Ok(ParentResolution::GenreProbe(names[k].name.clone()));
        },
    }
    match &f.person_items {
        Err(e) => {
            return Err(ApiError::Internal(e.clone()));
        },
        Ok(ids) => if ids.len() > 0 {
            return Ok(ParentResolution::Filter(ParentFilter::Person { wire_id: pid.to_owned() }));
        },
    }
    match &f.studio_items {
        Err(e) => {
            return Err(ApiError::Internal(e.clone()));
        },
        Ok(ids) => if ids.len() > 0 {
            return Ok(ParentResolution::Filter(ParentFilter::Studio { wire_id: pid.to_owned() }));
        },
    }
    match &f.collection {
        Err(e) => {
            return Err(ApiError::Internal(e.clone()));
        },
        Ok(there) => if *there {
            return Ok(
                ParentResolution::Filter(ParentFilter::Collection { wire_id: pid.to_owned() }),
            );
        },
    }
    match &f.tag_items {
        Err(e) => Err(ApiError::Internal(e.clone())),
        Ok(ids) => if ids.len() > 0 {
            Ok(ParentResolution::Filter(ParentFilter::Tag { wire_id: pid.to_owned() }))
        } else {
            Ok(ParentResolution::Empty)
        },
    }
}

fn resolve_shows_and_music(pid: &str, f: &ParentFacts) -> (r: Result<ParentResolution, ApiError>)
    ensures
        show_answer(r, pid@, *f),
{
    match &f.series {
        Err(e) => {
            return Err(ApiError::Internal(e.clone()));
        },
        Ok(rows) => if let Some(k) = find_row(rows, pid) {
            return Ok(
                ParentResolution::Filter(
                    ParentFilter::Series {
                        folder: copy_opt(&rows[k].folder),
                        name: rows[k].name.clone(),
                    },
                ),
            );
        },
    }
    match &f.seasons {
        Err(e) => {
            return Err(ApiError::Internal(e.clone()));
        },
        Ok(rows) => if let Some(k) = find_row(rows, pid) {
            let season: u32 = match rows[k].season {
                Some(n) => n as u32,
                None => 0,
            };
            return Ok(
                ParentResolution::Filter(
                    ParentFilter::Season {
                        folder: copy_opt(&rows[k].folder),
                        name: rows[k].name.clone(),
                        season,
                    },
                ),
            );
        },
    }
    match &f.artists {
        Err(e) => {
            return Err(ApiError::Internal(e.clone()));
        },
        Ok(rows) => if let Some(k) = find_row(rows, pid) {
            return Ok(
                ParentResolution::Filter(ParentFilter::Artist { name: rows[k].name.clone() }),
            );
        },
    }
    match &f.albums {
        Err(e) => {
            return Err(ApiError::Internal(e.clone()));
        },
        Ok(rows) => if let Some(k) = find_row(rows, pid) {
            return Ok(
                ParentResolution::Filter(ParentFilter::Album { name: rows[k].name.clone() }),
            );
        },
    }
    resolve_entities(pid, f)
}

/// What a parent id names.
pub fn resolve_parent_filter(pid: Option<&str>, f: &ParentFacts) -> (r: Result<
    ParentResolution,
    ApiError,
>)
    ensures
        parent_answer(r, browse::opt_str(pid), *f),
{
    let p: &str = match pid {
        Some(p) => p,
        None => {
            return Ok(ParentResolution::All);
        },
    };
    if is_everything(pid) {
        return Ok(ParentResolution::All);
    }
    if let Some(k) = find_library(&f.libraries, p) {
        let l = &f.libraries[k];
        return if l.item_ids.len() > 0 {
            Ok(ParentResolution::Filter(ParentFilter::Library { wire_id: p.to_owned() }))
        } else {
            Ok(ParentResolution::PathPrefix(l.root_path.clone()))
        };
    }
    if let Some(k) = find_root(&f.roots, p) {
        return Ok(ParentResolution::PathPrefix(f.roots[k].path.clone()));
    }
    resolve_shows_and_music(p, f)
}

// ------------------------------------------------------------- items in memory

/// An item as far as its parents go.
pub struct ItemRow {
    pub id: u64,
    pub path: String,
    pub series_id: Option<String>,
    pub season_id: Option<String>,
    pub artist_id: Option<String>,
    pub album_artist_id: Option<String>,
    pub album_id: Option<String>,
    pub genre_ids: Vec<String>,
}

/// The ways in which an item can lie under a parent.
pub enum Belonging<'a> {
    Everything,
    Listed(&'a Vec<u64>),
    Below(&'a String),
    Series,
    Season,
    Artist,
    Album,
    Genre,
}

/// Whether an item lies under a parent in one way.
pub open spec fn belongs(item: ItemRow, pid: Seq<char>, how: Belonging) -> bool {
    match how {
        Belonging::Everything => true,
        Belonging::Listed(ids) => ids@.contains(item.id),
        Belonging::Below(dir) => path_text::lies_below(item.path@, dir@),
        Belonging::Series => text::opt_text(item.series_id) == Some(pid),
        Belonging::Season => text::opt_text(item.season_id) == Some(pid),
        Belonging::Artist => text::opt_text(item.artist_id) == Some(pid) || text::opt_text(
            item.album_artist_id,
        ) == Some(pid),
        Belonging::Album => text::opt_text(item.album_id) == Some(pid),
        Belonging::Genre => text::texts(item.genre_ids@).contains(pid),
    }
}

/// Which items lie under a parent in one way.
pub open spec fn members(items: Seq<ItemRow>, pid: Seq<char>, how: Belonging) -> Seq<bool> {
    Seq::new(items.len(), |i: int| belongs(items[i], pid, how))
}

/// The places of the items that lie under a parent in one way.
pub open spec fn under(items: Seq<ItemRow>, pid: Seq<char>, how: Belonging) -> Seq<usize> {
    seqs::all_marked(members(items, pid, how))
}

fn is_text(o: &Option<String>, want: &str) -> (r: bool)
    ensures
        r == (text::opt_text(*o) == Some(want@)),
{
    match o {
        Some(s) => eq_text(s.as_str(), want),
        None => false,
    }
}

fn is_member(item: &ItemRow, pid: &str, how: &Belonging) -> (r: bool)
    ensures
        r == belongs(*item, pid@, *how),
{
    match how {
        Belonging::Everything => true,
        Belonging::Listed(ids) => holds_id(ids, item.id),
        Belonging::Below(dir) => is_below(item.path.as_str(), dir.as_str()),
        Belonging::Series => is_text(&item.series_id, pid),
        Belonging::Season => is_text(&item.season_id, pid),
        Belonging::Artist => is_text(&item.artist_id, pid) || is_text(&item.album_artist_id, pid),
        Belonging::Album => is_text(&item.album_id, pid),
        Belonging::Genre => holds_text(&item.genre_ids, pid),
    }
}

fn pick_members(items: &Vec<ItemRow>, pid: &str, how: Belonging) -> (r: Vec<usize>)
    ensures
        r@ == under(items@, pid@, how),
{
    let ghost all = members(items@, pid@, how);
    let mut flags: Vec<bool> = Vec::new();
    let mut i: usize = 0;
    while i < items.len()
        invariant
            i <= items@.len(),
            all == members(items@, pid@, how),
            flags@ == all.take(i as int),
        decreases items@.len() - i,
    {
        flags.push(is_member(&items[i], pid, &how));
        i += 1;
        proof {
            assert(all.take(i as int) == all.take(i - 1).push(all[i - 1]));
        }
    }
    proof {
        assert(all.take(i as int) == all);
    }
    marked_places(&flags)
}

/// The last place of an id among the first `n` items.
pub open spec fn last_place(items: Seq<ItemRow>, id: u64, n: int) -> Option<usize>
    decreases n,
{
    if n <= 0 {
        None
    } else if items[n - 1].id == id {
        Some((n - 1) as usize)
    } else {
        last_place(items, id, n - 1)
    }
}

/// The places of a collection's first `n` members in their own order, each
/// once.
pub open spec fn in_member_order(items: Seq<ItemRow>, ids: Seq<u64>, n: int) -> Seq<usize>
    decreases n,
{
    if n <= 0 {
        Seq::empty()
    } else {
        let before = in_member_order(items, ids, n - 1);
        match last_place(items, ids[n - 1], items.len() as int) {
            Some(k) => if ids.take(n - 1).contains(ids[n - 1]) {
                before
            } else {
                before.push(k)
            },
            None => before,
        }
    }
}

fn find_last(items: &Vec<ItemRow>, id: u64) -> (r: Option<usize>)
    ensures
        r == last_place(items@, id, items@.len() as int),
        r is Some ==> r->0 < items@.len(),
{
    let mut n: usize = items.len();
    while n > 0
        invariant
            n <= items@.len(),
            last_place(items@, id, n as int) == last_place(items@, id, items@.len() as int),
        decreases n,
    {
        if items[n - 1].id == id {
            return Some(n - 1);
        }
        n -= 1;
    }
    None
}

fn pick_collection(items: &Vec<ItemRow>, ids: &Vec<u64>) -> (r: Vec<usize>)
    ensures
        r@ == in_member_order(items@, ids@, ids@.len() as int),
{
    let mut out: Vec<usize> = Vec::new();
    let mut seen: Vec<u64> = Vec::new();
    let mut i: usize = 0;
    while i < ids.len()
        invariant
            i <= ids@.len(),
            seen@ == ids@.take(i as int),
            out@ == in_member_order(items@, ids@, i as int),
        decreases ids@.len() - i,
    {
        if let Some(k) = find_last(items, ids[i]) {
            if !holds_id(&seen, ids[i]) {
                out.push(k);
            }
        }
        seen.push(ids[i]);
        i += 1;
        proof {
            assert(ids@.take(i as int) == ids@.take(i - 1).push(ids@[i - 1]));
        }
    }
    out
}

/// Whether a look-up found something. One that failed found nothing.
pub open spec fn found(r: Result<Vec<u64>, String>) -> bool {
    r is Ok && r->Ok_0@.len() > 0
}

/// The items under an entity of the store.
pub open spec fn under_entity(items: Seq<ItemRow>, pid: Seq<char>, f: ParentFacts) -> Seq<usize> {
    if found(f.genre_items) {
        under(items, pid, Belonging::Listed(&f.genre_items->Ok_0))
    } else if under(items, pid, Belonging::Genre).len() > 0 {
        under(items, pid, Belonging::Genre)
    } else if found(f.person_items) {
        under(items, pid, Belonging::Listed(&f.person_items->Ok_0))
    } else if found(f.studio_items) {
        under(items, pid, Belonging::Listed(&f.studio_items->Ok_0))
    } else if f.collection == Ok::<bool, String>(true) {
        in_member_order(items, f.collection_members@, f.collection_members@.len() as int)
    } else if found(f.tag_items) {
        under(items, pid, Belonging::Listed(&f.tag_items->Ok_0))
    } else {
        Seq::empty()
    }
}

/// The items under a parent: all of them where it narrows nothing, none where
/// it names nothing, and a collection's in its own order.
pub open spec fn under_parent(items: Seq<ItemRow>, pid: Option<Seq<char>>, f: ParentFacts) -> Seq<
    usize,
> {
    if names_all(pid) {
        under(items, Seq::empty(), Belonging::Everything)
    } else {
        let p = pid->0;
        match library_at(f.libraries@, p) {
            Some(k) => if f.libraries@[k].item_ids@.len() > 0 {
                under(items, p, Belonging::Listed(&f.libraries@[k].item_ids))
            } else {
                under(items, p, Belonging::Below(&f.libraries@[k].root_path))
            },
            None => match root_at(f.roots@, p) {
                Some(k) => under(items, p, Belonging::Below(&f.roots@[k].path)),
                None => if under(items, p, Belonging::Series).len() > 0 {
                    under(items, p, Belonging::Series)
                } else if under(items, p, Belonging::Season).len() > 0 {
                    under(items, p, Belonging::Season)
                } else if under(items, p, Belonging::Artist).len() > 0 {
                    under(items, p, Belonging::Artist)
                } else if under(items, p, Belonging::Album).len() > 0 {
                    under(items, p, Belonging::Album)
                } else {
                    under_entity(items, p, f)
                },
            },
        }
    }
}

fn restrict_to_entity(items: &Vec<ItemRow>, p: &str, f: &ParentFacts) -> (r: Vec<usize>)
    ensures
        r@ == under_entity(items@, p@, *f),
{
    if let Ok(ids) = &f.genre_items {
        if ids.len() > 0 {
            return pick_members(items, p, Belonging::Listed(ids));
        }
    }
    let genre = pick_members(items, p, Belonging::Genre);
    if genre.len() > 0 {
        return genre;
    }
    if let Ok(ids) = &f.person_items {
        if ids.len() > 0 {
            return pick_members(items, p, Belonging::Listed(ids));
        }
    }
    if let Ok(ids) = &f.studio_items {
        if ids.len() > 0 {
            return pick_members(items, p, Belonging::Listed(ids));
        }
    }
    if let Ok(there) = &f.collection {
        if *there {
            return pick_collection(items, &f.collection_members);
        }
    }
    if let Ok(ids) = &f.tag_items {
        if ids.len() > 0 {
            return pick_members(items, p, Belonging::Listed(ids));
        }
    }
    Vec::new()
}

/// The places of the items under a parent.
pub fn restrict_to_parent(items: &Vec<ItemRow>, pid: Option<&str>, f: &ParentFacts) -> (r: Vec<
    usize,
>)
    ensures
        r@ == under_parent(items@, browse::opt_str(pid), *f),
{
    let p: &str = match pid {
        Some(p) => p,
        None => "",
    };
    if is_everything(pid) {
        proof {
            assert(members(items@, p@, Belonging::Everything) == members(
                items@,
                Seq::empty(),
                Belonging::Everything,
            ));
        }
        return pick_members(items, p, Belonging::Everything);
    }
    if let Some(k) = find_library(&f.libraries, p) {
        let l: &LibraryRow = &f.libraries[k];
        if l.item_ids.len() > 0 {
            return pick_members(items, p, Belonging::Listed(&l.item_ids));
        }
        return pick_members(items, p, Belonging::Below(&l.root_path));
    }
    if let Some(k) = find_root(&f.roots, p) {
        return pick_members(items, p, Belonging::Below(&f.roots[k].path));
    }
    let series = pick_members(items, p, Belonging::Series);
    if series.len() > 0 {
        return series;
    }
    let season = pick_members(items, p, Belonging::Season);
    if season.len() > 0 {
        return season;
    }
    let artist = pick_members(items, p, Belonging::Artist);
    if artist.len() > 0 {
        return artist;
    }
    let album = pick_members(items, p, Belonging::Album);
    if album.len() > 0 {
        return album;
    }
    restrict_to_entity(items, p, f)
}

// ---------------------------------------------------------------- single items

/// An album or an artist as an item of its own.
pub enum MusicItem {
    Album { name: String, artist: Option<String>, artist_id: Option<String>, tracks: u32 },
    Artist { name: String },
}

/// Whether a track has an album of this name.
pub open spec fn titled(ts: Seq<Track>, name: Seq<char>) -> spec_fn(int) -> bool {
    |i: int| text::opt_text(ts[i].album) == Some(name)
}

/// Whether a track has an album of this name and an artist.
pub open spec fn titled_and_credited(ts: Seq<Track>, name: Seq<char>) -> spec_fn(int) -> bool {
    |i: int| text::opt_text(ts[i].album) == Some(name) && music::credit(ts[i]) is Some
}

/// How many of the first `n` tracks have an album of this name.
pub open spec fn titled_count(ts: Seq<Track>, name: Seq<char>, n: int) -> int
    decreases n,
{
    if n <= 0 {
        0
    } else if titled(ts, name)(n - 1) {
        titled_count(ts, name, n - 1) + 1
    } else {
        titled_count(ts, name, n - 1)
    }
}

/// Whether an item is the album of this name: under the first artist that its
/// tracks name, with all of them counted.
pub open spec fn is_album_item(m: MusicItem, ts: Seq<Track>, title: Seq<char>) -> bool {
    let by = seqs::first_index(titled_and_credited(ts, title), 0, ts.len() as int);
    m matches MusicItem::Album { name, artist, artist_id, tracks } && {
        &&& name@ == title
        &&& text::opt_text(artist) == (match by {
            Some(k) => music::credit(ts[k]),
            None => None,
        })
        &&& text::opt_text(artist_id) == (match by {
            Some(k) => music::credit_id(ts[k]),
            None => None,
        })
        &&& tracks == titled_count(ts, title, ts.len() as int)
    }
}

fn album_item(ts: &Vec<Track>, title: &str) -> (r: MusicItem)
    requires
        ts@.len() <= u32::MAX,
    ensures
        is_album_item(r, ts@, title@),
{
    let ghost wanted = titled_and_credited(ts@, title@);
    let n: usize = ts.len();
    let mut artist: Option<String> = None;
    let mut artist_id: Option<String> = None;
    let mut credited: bool = false;
    let mut tracks: u32 = 0;
    let ghost mut by: int = 0;
    let mut i: usize = 0;
    while i < n
        invariant
            i <= n,
            n == ts@.len(),
            n <= u32::MAX,
            tracks <= i,
            wanted == titled_and_credited(ts@, title@),
            tracks == titled_count(ts@, title@, i as int),
            !credited ==> artist is None && artist_id is None && forall|j: int|
                0 <= j < i ==> !#[trigger] wanted(j),
            credited ==> {
                &&& 0 <= by < i
                &&& seqs::first_index(wanted, 0, n as int) == Some(by)
                &&& text::opt_text(artist) == music::credit(ts@[by])
                &&& text::opt_text(artist_id) == music::credit_id(ts@[by])
            },
        decreases n - i,
    {
        let t: &Track = &ts[i];
        if is_text(&t.album, title) {
            tracks += 1;
            if !credited && (t.album_artist.is_some() || t.artist.is_some()) {
                credited = true;
                if t.album_artist.is_some() {
                    artist = copy_opt(&t.album_artist);
                    artist_id = copy_opt(&t.album_artist_id);
                } else {
                    artist = copy_opt(&t.artist);
                    artist_id = copy_opt(&t.artist_id);
                }
                proof {
                    by = i as int;
                    seqs::lemma_first_index(wanted, 0, i as int, n as int);
                }
            }
        }
        i += 1;
    }
    proof {
        if !credited {
            seqs::lemma_first_index(wanted, 0, n as int, n as int);
        }
    }
    MusicItem::Album { name: title.to_owned(), artist, artist_id, tracks }
}

/// Whether an answer is what an id names among the albums and, if none of them,
/// the artists.
pub open spec fn music_item_answer(
    r: Result<Option<MusicItem>, ApiError>,
    id: Seq<char>,
    albums: Result<Vec<KeyRow>, String>,
    artists: Result<Vec<KeyRow>, String>,
    tracks: Result<Vec<Track>, String>,
) -> bool {
    match albums {
        Err(why) => r matches Err(e) && e.says(Refusal::Internal, why@),
        Ok(rows) => match row_at(rows@, id) {
            Some(k) => match tracks {
                Err(why) => r matches Err(e) && e.says(Refusal::Internal, why@),
                Ok(ts) => r matches Ok(Some(m)) && is_album_item(m, ts@, rows@[k].name@),
            },
            None => match artists {
                Err(why) => r matches Err(e) && e.says(Refusal::Internal, why@),
                Ok(people) => match row_at(people@, id) {
                    Some(k) => r matches Ok(Some(MusicItem::Artist { name })) && name@
                        == people@[k].name@,
                    None => r matches Ok(None),
                },
            },
        },
    }
}

/// What an id names among the albums and, if none of them, the artists.
pub fn synth_album_or_artist(
    id: &str,
    albums: &Result<Vec<KeyRow>, String>,
    artists: &Result<Vec<KeyRow>, String>,
    tracks: &Result<Vec<Track>, String>,
) -> (r: Result<Option<MusicItem>, ApiError>)
    requires
        tracks is Ok ==> tracks->Ok_0@.len() <= u32::MAX,
    ensures
        music_item_answer(r, id@, *albums, *artists, *tracks),
{
    match albums {
        Err(e) => {
            return Err(ApiError::Internal(e.clone()));
        },
        Ok(rows) => if let Some(k) = find_row(rows, id) {
            return match tracks {
                Err(e) => Err(ApiError::Internal(e.clone())),
                Ok(ts) => Ok(Some(album_item(ts, rows[k].name.as_str()))),
            };
        },
    }
    match artists {
        Err(e) => Err(ApiError::Internal(e.clone())),
        Ok(rows) => match find_row(rows, id) {
            Some(k) => Ok(Some(MusicItem::Artist { name: rows[k].name.clone() })),
            None => Ok(None),
        },
    }
}

/// What the store knows of an id that may name a single item.
pub struct ItemFacts {
    /// The number of the media item, if the id is one.
    pub numeric: Option<u64>,
    /// Whether the id is that of a library view.
    pub is_view: bool,
    pub show: Result<Option<ShowItem>, String>,
    pub collection: Result<bool, String>,
    pub playlist: Result<bool, String>,
    pub music: Result<Option<MusicItem>, ApiError>,
}

/// What a single item is made from.
pub enum ItemSource {
    Media(u64),
    View,
    AllMedia,
    Show(ShowItem),
    Collection,
    Playlist,
    Music(MusicItem),
}

/// Whether an answer is what an id names: a media item where it is the number
/// of one, and else a view, a series or season, a collection, a playlist, an
/// album or an artist, the first of these that fits.
pub open spec fn item_answer(r: Result<ItemSource, ApiError>, id: Seq<char>, f: ItemFacts) -> bool {
    if f.numeric is Some {
        r matches Ok(ItemSource::Media(n)) && n == f.numeric->0
    } else if f.is_view {
        r matches Ok(ItemSource::View)
    } else if id == everything_id() {
        r matches Ok(ItemSource::AllMedia)
    } else {
        match f.show {
            Err(why) => r matches Err(e) && e.says(Refusal::Internal, why@),
            Ok(Some(s)) => r matches Ok(ItemSource::Show(t)) && t == s,
            Ok(None) => match f.collection {
                Err(why) => r matches Err(e) && e.says(Refusal::Internal, why@),
                Ok(true) => r matches Ok(ItemSource::Collection),
                Ok(false) => match f.playlist {
                    Err(why) => r matches Err(e) && e.says(Refusal::Internal, why@),
                    Ok(true) => r matches Ok(ItemSource::Playlist),
                    Ok(false) => match f.music {
                        Err(why) => r matches Err(e) && e == why,
                        Ok(Some(m)) => r matches Ok(ItemSource::Music(n)) && n == m,
                        Ok(None) => r matches Err(e) && e.says(
                            Refusal::BadRequest,
                            "invalid id"@,
                        ),
                    },
                },
            },
        }
    }
}

/// What an id names as a single item.
pub fn fetch_item_dto(id: &str, f: ItemFacts) -> (r: Result<ItemSource, ApiError>)
    ensures
        item_answer(r, id@, f),
{
    if let Some(n) = f.numeric {
        return Ok(ItemSource::Media(n));
    }
    if f.is_view {
        return Ok(ItemSource::View);
    }
    if eq_text(id, "00000000000000000000000000000000") {
        return Ok(ItemSource::AllMedia);
    }
    match f.show {
        Err(e) => {
            return Err(ApiError::Internal(e));
        },
        Ok(Some(s)) => {
            return Ok(ItemSource::Show(s));
        },
        Ok(None) => {},
    }
    match f.collection {
        Err(e) => {
            return Err(ApiError::Internal(e));
        },
        Ok(there) => if there {
            return Ok(ItemSource::Collection);
        },
    }
    match f.playlist {
        Err(e) => {
            return Err(ApiError::Internal(e));
        },
        Ok(there) => if there {
            return Ok(ItemSource::Playlist);
        },
    }
    match f.music {
        Err(e) => Err(e),
        Ok(Some(m)) => Ok(ItemSource::Music(m)),
        Ok(None) => Err(ApiError::BadRequest("invalid id".to_owned())),
    }
}

/// The number of a media item, or the refusal of what is none.
pub fn parse_media_id(numeric: Option<u64>) -> (r: Result<u64, ApiError>)
    ensures
        match numeric {
            Some(n) => r == Ok::<u64, ApiError>(n),
            None => r matches Err(e) && e.says(Refusal::BadRequest, "invalid item id"@),
        },
{
    match numeric {
        Some(n) => Ok(n),
        None => Err(ApiError::BadRequest("invalid item id".to_owned())),
    }
}

// ----------------------------------------------------------------------- laws

/// What lies under a parent stands in the order of the items, each once, but
/// for the members of a collection, which keep their own order.
pub proof fn law_parents_keep_the_order(items: Seq<ItemRow>, pid: Seq<char>, how: Belonging)
    requires
        items.len() <= usize::MAX,
    ensures
        forall|k: usize| #[trigger]
            under(items, pid, how).contains(k) <==> k < items.len() && belongs(
                items[k as int],
                pid,
                how,
            ),
        forall|i: int, j: int|
            0 <= i < j < under(items, pid, how).len() ==> #[trigger] under(items, pid, how)[i]
                < #[trigger] under(items, pid, how)[j],
{
    seqs::lemma_marked(members(items, pid, how), items.len() as int);
    let flags = members(items, pid, how);
    assert(flags.len() == items.len());
    assert(under(items, pid, how) == seqs::marked(flags, items.len() as int));
}

/// A parent that names nothing has nothing under it, in the store's list as
/// among the items in memory.
pub proof fn law_an_unknown_parent_is_empty(
    r: Result<ParentResolution, ApiError>,
    items: Seq<ItemRow>,
    pid: Option<Seq<char>>,
    f: ParentFacts,
)
    requires
        parent_answer(r, pid, f),
        r matches Ok(ParentResolution::Empty),
        under(items, pid->0, Belonging::Series).len() == 0,
        under(items, pid->0, Belonging::Season).len() == 0,
        under(items, pid->0, Belonging::Artist).len() == 0,
        under(items, pid->0, Belonging::Album).len() == 0,
        under(items, pid->0, Belonging::Genre).len() == 0,
    ensures
        under_parent(items, pid, f).len() == 0,
{
}

/// An id that opens as a list of an artist or an album also opens as a single
/// item, unless it names something that comes before both.
pub proof fn law_music_ids_open_both_ways(
    r: Result<ParentResolution, ApiError>,
    m: Result<Option<MusicItem>, ApiError>,
    pid: Seq<char>,
    f: ParentFacts,
    tracks: Result<Vec<Track>, String>,
)
    requires
        parent_answer(r, Some(pid), f),
        music_item_answer(m, pid, f.albums, f.artists, tracks),
        r matches Ok(ParentResolution::Filter(p)) && (p is Artist || p is Album),
        f.albums is Ok,
        tracks is Ok,
    ensures
        m matches Ok(Some(_)),
{
}

// ------------------------------------------------------- laws of parent ids

/// Whether rows hold one under an id, with a season that there can be.
pub open spec fn names_row(rows: Result<Vec<KeyRow>, String>, id: Seq<char>) -> bool {
    rows is Ok && exists|k: int|
        0 <= k < rows->Ok_0@.len() && (#[trigger] rows->Ok_0@[k]).id@ == id && (
        rows->Ok_0@[k].season is None || 0 <= rows->Ok_0@[k].season->0 <= u32::MAX)
}

/// Whether an id is that of a library or of a directory with media.
pub open spec fn names_place(f: ParentFacts, id: Seq<char>) -> bool {
    ||| exists|k: int| 0 <= k < f.libraries@.len() && (#[trigger] f.libraries@[k]).wire_id@ == id
    ||| exists|k: int| 0 <= k < f.roots@.len() && (#[trigger] f.roots@[k]).id@ == id
}

proof fn lemma_row_at(rows: Seq<KeyRow>, id: Seq<char>)
    ensures
        row_at(rows, id) matches Some(k) ==> 0 <= k < rows.len() && rows[k].id@ == id && (
        rows[k].season is None || 0 <= rows[k].season->0 <= u32::MAX),
        row_at(rows, id) is None ==> forall|k: int|
            0 <= k < rows.len() ==> (#[trigger] rows[k]).id@ != id || (rows[k].season is Some && !(0
                <= rows[k].season->0 <= u32::MAX)),
{
    let wanted = has_id(rows, id);
    seqs::law_the_first_place_is_first(wanted, 0, rows.len() as int);
    if row_at(rows, id) is None {
        assert forall|k: int| 0 <= k < rows.len() implies (#[trigger] rows[k]).id@ != id || (
        rows[k].season is Some && !(0 <= rows[k].season->0 <= u32::MAX)) by {
            assert(!wanted(k));
        }
    }
}

proof fn lemma_names_row(rows: Vec<KeyRow>, id: Seq<char>)
    ensures
        names_row(Ok(rows), id) <==> row_at(rows@, id) is Some,
{
    lemma_row_at(rows@, id);
    if let Some(k) = row_at(rows@, id) {
        assert(rows@[k].id@ == id);
    }
}

proof fn lemma_library_at(rows: Seq<LibraryRow>, id: Seq<char>)
    ensures
        match library_at(rows, id) {
            Some(k) => 0 <= k < rows.len() && rows[k].wire_id@ == id && forall|j: int|
                0 <= j < k ==> (#[trigger] rows[j]).wire_id@ != id,
            None => forall|j: int| 0 <= j < rows.len() ==> (#[trigger] rows[j]).wire_id@ != id,
        },
{
    let wanted = library_with(rows, id);
    seqs::law_the_first_place_is_first(wanted, 0, rows.len() as int);
    let n: int = match library_at(rows, id) {
        Some(k) => k,
        None => rows.len() as int,
    };
    assert forall|j: int| 0 <= j < n implies (#[trigger] rows[j]).wire_id@ != id by {
        assert(!wanted(j));
    }
}

proof fn lemma_root_at(rows: Seq<RootRow>, id: Seq<char>)
    ensures
        match root_at(rows, id) {
            Some(k) => 0 <= k < rows.len() && rows[k].id@ == id,
            None => forall|j: int| 0 <= j < rows.len() ==> (#[trigger] rows[j]).id@ != id,
        },
{
    let wanted = root_with(rows, id);
    seqs::law_the_first_place_is_first(wanted, 0, rows.len() as int);
    let n: int = match root_at(rows, id) {
        Some(k) => k,
        None => rows.len() as int,
    };
    assert forall|j: int| 0 <= j < n implies (#[trigger] rows[j]).id@ != id by {
        assert(!wanted(j));
    }
}

proof fn lemma_names_place(f: ParentFacts, id: Seq<char>)
    ensures
        names_place(f, id) <==> library_at(f.libraries@, id) is Some || root_at(f.roots@, id)
            is Some,
{
    lemma_library_at(f.libraries@, id);
    lemma_root_at(f.roots@, id);
    if let Some(k) = library_at(f.libraries@, id) {
        assert(f.libraries@[k].wire_id@ == id);
    }
    if let Some(k) = root_at(f.roots@, id) {
        assert(f.roots@[k].id@ == id);
    }
}

/// No id, the empty one and that of everything narrow nothing.
pub proof fn law_everything_narrows_nothing(r: Result<ParentResolution, ApiError>, f: ParentFacts)
    ensures
        parent_answer(r, None, f) ==> r matches Ok(ParentResolution::All),
        parent_answer(r, Some(Seq::empty()), f) ==> r matches Ok(ParentResolution::All),
        parent_answer(r, Some("00000000000000000000000000000000"@), f)
            ==> r matches Ok(ParentResolution::All),
{
}

/// A library's id narrows to its items, or to what lies below its directory
/// while none are filed under it.
pub proof fn law_libraries_are_parents(
    r: Result<ParentResolution, ApiError>,
    pid: Seq<char>,
    f: ParentFacts,
    k: int,
)
    requires
        parent_answer(r, Some(pid), f),
        !names_all(Some(pid)),
        0 <= k < f.libraries@.len(),
        f.libraries@[k].wire_id@ == pid,
        forall|j: int| 0 <= j < k ==> (#[trigger] f.libraries@[j]).wire_id@ != pid,
    ensures
        f.libraries@[k].item_ids@.len() > 0 ==> (r matches Ok(
            ParentResolution::Filter(ParentFilter::Library { wire_id }),
        ) && wire_id@ == pid),
        f.libraries@[k].item_ids@.len() == 0 ==> (r matches Ok(ParentResolution::PathPrefix(p)) && p@
            == f.libraries@[k].root_path@),
{
    lemma_library_at(f.libraries@, pid);
    assert(library_at(f.libraries@, pid) is Some);
    let n = library_at(f.libraries@, pid)->0;
    assert(n == k) by {
        if n < k {
            assert(f.libraries@[n].wire_id@ != pid);
        }
        if k < n {
            assert(f.libraries@[k].wire_id@ != pid);
        }
    }
}

/// An id narrows to what it is the id of: a series, a season, an artist or an
/// album by name, in this order, where it is that of no library or directory.
pub proof fn law_shows_and_music_are_parents(
    r: Result<ParentResolution, ApiError>,
    pid: Seq<char>,
    f: ParentFacts,
)
    requires
        parent_answer(r, Some(pid), f),
        !names_all(Some(pid)),
        !names_place(f, pid),
        f.series is Ok && f.seasons is Ok && f.artists is Ok && f.albums is Ok,
    ensures
        names_row(f.series, pid) ==> (r matches Ok(
            ParentResolution::Filter(ParentFilter::Series { name, .. }),
        ) && exists|k: int|
            0 <= k < f.series->Ok_0@.len() && (#[trigger] f.series->Ok_0@[k]).id@ == pid
                && f.series->Ok_0@[k].name@ == name@),
        !names_row(f.series, pid) && names_row(f.seasons, pid) ==> (r matches Ok(
            ParentResolution::Filter(ParentFilter::Season { name, season, .. }),
        ) && exists|k: int|
            0 <= k < f.seasons->Ok_0@.len() && (#[trigger] f.seasons->Ok_0@[k]).id@ == pid
                && f.seasons->Ok_0@[k].name@ == name@ && (f.seasons->Ok_0@[k].season is Some
                ==> season == f.seasons->Ok_0@[k].season->0)),
        !names_row(f.series, pid) && !names_row(f.seasons, pid) && names_row(f.artists, pid)
            ==> (r matches Ok(ParentResolution::Filter(ParentFilter::Artist { name }))
            && exists|k: int|
            0 <= k < f.artists->Ok_0@.len() && (#[trigger] f.artists->Ok_0@[k]).id@ == pid
                && f.artists->Ok_0@[k].name@ == name@),
        !names_row(f.series, pid) && !names_row(f.seasons, pid) && !names_row(f.artists, pid)
            && names_row(f.albums, pid) ==> (r matches Ok(
            ParentResolution::Filter(ParentFilter::Album { name }),
        ) && exists|k: int|
            0 <= k < f.albums->Ok_0@.len() && (#[trigger] f.albums->Ok_0@[k]).id@ == pid
                && f.albums->Ok_0@[k].name@ == name@),
{
    lemma_names_place(f, pid);
    lemma_names_row(f.series->Ok_0, pid);
    lemma_names_row(f.seasons->Ok_0, pid);
    lemma_names_row(f.artists->Ok_0, pid);
    lemma_names_row(f.albums->Ok_0, pid);
    lemma_row_at(f.series->Ok_0@, pid);
    lemma_row_at(f.seasons->Ok_0@, pid);
    lemma_row_at(f.artists->Ok_0@, pid);
    lemma_row_at(f.albums->Ok_0@, pid);
    assert(show_answer(r, pid, f));
    if let Some(k) = row_at(f.series->Ok_0@, pid) {
        assert(f.series->Ok_0@[k].id@ == pid);
    } else if let Some(k) = row_at(f.seasons->Ok_0@, pid) {
        assert(f.seasons->Ok_0@[k].id@ == pid);
    } else if let Some(k) = row_at(f.artists->Ok_0@, pid) {
        assert(f.artists->Ok_0@[k].id@ == pid);
    } else if let Some(k) = row_at(f.albums->Ok_0@, pid) {
        assert(f.albums->Ok_0@[k].id@ == pid);
    }
}

/// An id that names no library, directory, show or music narrows to the genre,
/// person, studio, collection or tag that it is the id of, in this order, and
/// to nothing where it is the id of none of them.
pub proof fn law_entities_are_parents(
    r: Result<ParentResolution, ApiError>,
    pid: Seq<char>,
    f: ParentFacts,
)
    requires
        parent_answer(r, Some(pid), f),
        !names_all(Some(pid)),
        !names_place(f, pid),
        f.series is Ok && f.seasons is Ok && f.artists is Ok && f.albums is Ok,
        f.genre_names is Ok && f.genre_items is Ok && f.person_items is Ok && f.studio_items is Ok
            && f.collection is Ok && f.tag_items is Ok,
        !names_row(f.series, pid) && !names_row(f.seasons, pid) && !names_row(f.artists, pid)
            && !names_row(f.albums, pid),
    ensures
        ({
            let genre = f.genre_items->Ok_0@.len() > 0;
            let probe = names_row(f.genre_names, pid);
            let person = f.person_items->Ok_0@.len() > 0;
            let studio = f.studio_items->Ok_0@.len() > 0;
            let collection = f.collection->Ok_0;
            let tag = f.tag_items->Ok_0@.len() > 0;
            &&& genre ==> (r matches Ok(ParentResolution::Filter(ParentFilter::Genre { wire_id }))
                && wire_id@ == pid)
            &&& !genre && probe ==> r is Ok && r->Ok_0 is GenreProbe
            &&& !genre && !probe && person ==> (r matches Ok(
                ParentResolution::Filter(ParentFilter::Person { wire_id }),
            ) && wire_id@ == pid)
            &&& !genre && !probe && !person && studio ==> (r matches Ok(
                ParentResolution::Filter(ParentFilter::Studio { wire_id }),
            ) && wire_id@ == pid)
            &&& !genre && !probe && !person && !studio && collection ==> (r matches Ok(
                ParentResolution::Filter(ParentFilter::Collection { wire_id }),
            ) && wire_id@ == pid)
            &&& !genre && !probe && !person && !studio && !collection && tag ==> (r matches Ok(
                ParentResolution::Filter(ParentFilter::Tag { wire_id }),
            ) && wire_id@ == pid)
            &&& !genre && !probe && !person && !studio && !collection && !tag ==> r is Ok
                && r->Ok_0 is Empty
        }),
{
    lemma_names_place(f, pid);
    lemma_names_row(f.series->Ok_0, pid);
    lemma_names_row(f.seasons->Ok_0, pid);
    lemma_names_row(f.artists->Ok_0, pid);
    lemma_names_row(f.albums->Ok_0, pid);
    lemma_names_row(f.genre_names->Ok_0, pid);
    assert(show_answer(r, pid, f));
    assert(music_answer(r, pid, f));
    assert(entity_answer(r, pid, f));
}

/// An item lies under a series, a season, an artist, an album or a genre where
/// it says so itself, and under a list where the list has it.
pub proof fn law_items_lie_where_they_say(items: Seq<ItemRow>, pid: Seq<char>, ids: Vec<u64>, k: usize)
    requires
        items.len() <= usize::MAX,
        k < items.len(),
    ensures
        under(items, pid, Belonging::Everything).contains(k),
        under(items, pid, Belonging::Listed(&ids)).contains(k) <==> ids@.contains(
            items[k as int].id,
        ),
        under(items, pid, Belonging::Series).contains(k) <==> items[k as int].series_id is Some
            && items[k as int].series_id->0@ == pid,
        under(items, pid, Belonging::Season).contains(k) <==> items[k as int].season_id is Some
            && items[k as int].season_id->0@ == pid,
        under(items, pid, Belonging::Album).contains(k) <==> items[k as int].album_id is Some
            && items[k as int].album_id->0@ == pid,
        under(items, pid, Belonging::Artist).contains(k) <==> (items[k as int].artist_id is Some
            && items[k as int].artist_id->0@ == pid) || (items[k as int].album_artist_id is Some
            && items[k as int].album_artist_id->0@ == pid),
        under(items, pid, Belonging::Genre).contains(k) <==> exists|i: int|
            0 <= i < items[k as int].genre_ids@.len() && (
            #[trigger] items[k as int].genre_ids@[i])@ == pid,
{
    law_parents_keep_the_order(items, pid, Belonging::Everything);
    law_parents_keep_the_order(items, pid, Belonging::Listed(&ids));
    law_parents_keep_the_order(items, pid, Belonging::Series);
    law_parents_keep_the_order(items, pid, Belonging::Season);
    law_parents_keep_the_order(items, pid, Belonging::Album);
    law_parents_keep_the_order(items, pid, Belonging::Artist);
    law_parents_keep_the_order(items, pid, Belonging::Genre);
    let g = text::texts(items[k as int].genre_ids@);
    if g.contains(pid) {
        let i = choose|i: int| 0 <= i < g.len() && g[i] == pid;
        assert(items[k as int].genre_ids@[i]@ == pid);
    }
    if exists|i: int|
        0 <= i < items[k as int].genre_ids@.len() && (#[trigger] items[k as int].genre_ids@[i])@
            == pid {
        let i = choose|i: int|
            0 <= i < items[k as int].genre_ids@.len() && (#[trigger] items[k as int].genre_ids@[i])@
                == pid;
        assert(g[i] == pid);
    }
}

/// The items under an id that is that of no library or directory: those of the
/// series, else those of the season, else those of the artist, else those of
/// the album, the first of these that has any.
pub proof fn law_items_under_shows_and_music(items: Seq<ItemRow>, pid: Seq<char>, f: ParentFacts)
    requires
        !names_all(Some(pid)),
        !names_place(f, pid),
    ensures
        ({
            let a = under(items, pid, Belonging::Series);
            let b = under(items, pid, Belonging::Season);
            let c = under(items, pid, Belonging::Artist);
            let d = under(items, pid, Belonging::Album);
            &&& a.len() > 0 ==> under_parent(items, Some(pid), f) == a
            &&& a.len() == 0 && b.len() > 0 ==> under_parent(items, Some(pid), f) == b
            &&& a.len() == 0 && b.len() == 0 && c.len() > 0 ==> under_parent(items, Some(pid), f)
                == c
            &&& a.len() == 0 && b.len() == 0 && c.len() == 0 && d.len() > 0 ==> under_parent(
                items,
                Some(pid),
                f,
            ) == d
        }),
{
    lemma_names_place(f, pid);
}

/// The items under a library are those that are filed under it.
pub proof fn law_items_under_a_library(items: Seq<ItemRow>, pid: Seq<char>, f: ParentFacts, k: int)
    requires
        !names_all(Some(pid)),
        0 <= k < f.libraries@.len(),
        f.libraries@[k].wire_id@ == pid,
        forall|j: int| 0 <= j < k ==> (#[trigger] f.libraries@[j]).wire_id@ != pid,
    ensures
        f.libraries@[k].item_ids@.len() > 0 ==> under_parent(items, Some(pid), f) == under(
            items,
            pid,
            Belonging::Listed(&f.libraries@[k].item_ids),
        ),
        f.libraries@[k].item_ids@.len() == 0 ==> under_parent(items, Some(pid), f) == under(
            items,
            pid,
            Belonging::Below(&f.libraries@[k].root_path),
        ),
        under_parent(items, None, f) == under(items, Seq::empty(), Belonging::Everything),
{
    lemma_library_at(f.libraries@, pid);
    assert(library_at(f.libraries@, pid) is Some);
    let n = library_at(f.libraries@, pid)->0;
    assert(n == k) by {
        if n < k {
            assert(f.libraries@[n].wire_id@ != pid);
        }
        if k < n {
            assert(f.libraries@[k].wire_id@ != pid);
        }
    }
}

proof fn lemma_last_place(items: Seq<ItemRow>, id: u64, n: int, k: int)
    requires
        0 <= k < n <= items.len() <= usize::MAX,
        items[k].id == id,
    ensures
        last_place(items, id, n) is Some,
        last_place(items, id, n)->0 < n,
        items[last_place(items, id, n)->0 as int].id == id,
    decreases n,
{
    if items[n - 1].id != id {
        lemma_last_place(items, id, n - 1, k);
    }
}

/// Every member of a collection that there is is listed.
pub proof fn law_members_are_listed(items: Seq<ItemRow>, ids: Seq<u64>, n: int, i: int, k: int)
    requires
        items.len() <= usize::MAX,
        0 <= i < n <= ids.len(),
        0 <= k < items.len(),
        items[k].id == ids[i],
    ensures
        exists|m: int|
            0 <= m < in_member_order(items, ids, n).len() && items[(#[trigger] in_member_order(
                items,
                ids,
                n,
            )[m]) as int].id == ids[i],
    decreases n,
{
    let before = in_member_order(items, ids, n - 1);
    let now = in_member_order(items, ids, n);
    if i < n - 1 {
        law_members_are_listed(items, ids, n - 1, i, k);
        let m = choose|m: int|
            0 <= m < before.len() && items[(#[trigger] before[m]) as int].id == ids[i];
        assert(now[m] == before[m]);
    } else {
        lemma_last_place(items, ids[i], items.len() as int, k);
        if ids.take(n - 1).contains(ids[n - 1]) {
            let front = ids.take(n - 1);
            let j = choose|j: int| 0 <= j < front.len() && front[j] == ids[n - 1];
            assert(ids[j] == ids[i]);
            law_members_are_listed(items, ids, n - 1, j, k);
            let m = choose|m: int|
                0 <= m < before.len() && items[(#[trigger] before[m]) as int].id == ids[j];
            assert(now[m] == before[m]);
        } else {
            assert(now[before.len() as int] == last_place(items, ids[i], items.len() as int)->0);
        }
    }
}

/// A number is that of a media item, the id of everything opens everything, and
/// any other id opens what it is the id of. What names nothing is refused.
pub proof fn law_ids_open_items(r: Result<ItemSource, ApiError>, id: Seq<char>, f: ItemFacts)
    requires
        item_answer(r, id, f),
    ensures
        f.numeric is Some ==> (r matches Ok(ItemSource::Media(n)) && n == f.numeric->0),
        f.numeric is None && f.is_view ==> r matches Ok(ItemSource::View),
        f.numeric is None && !f.is_view && id == "00000000000000000000000000000000"@
            ==> r matches Ok(ItemSource::AllMedia),
        f.numeric is None && !f.is_view && id != "00000000000000000000000000000000"@ ==> {
            &&& f.show is Ok && f.show->Ok_0 is Some ==> r is Ok && r->Ok_0 is Show
                && r->Ok_0->Show_0 == f.show->Ok_0->0
            &&& f.show is Ok && f.show->Ok_0 is None && f.collection == Ok::<bool, String>(true)
                ==> r is Ok && r->Ok_0 is Collection
            &&& f.show is Ok && f.show->Ok_0 is None && f.collection == Ok::<bool, String>(false)
                && f.playlist == Ok::<bool, String>(true) ==> r is Ok && r->Ok_0 is Playlist
            &&& f.show is Ok && f.show->Ok_0 is None && f.collection == Ok::<bool, String>(false)
                && f.playlist == Ok::<bool, String>(false) && f.music is Ok ==> (
            f.music->Ok_0 is None ==> r is Err) && (f.music->Ok_0 is Some ==> r is Ok
                && r->Ok_0 is Music && r->Ok_0->Music_0 == f.music->Ok_0->0)
        },
{
}

} // verus!
