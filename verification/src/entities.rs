//! The lists of what the store keeps beside the items: genres, studios, tags,
//! people, collections and playlists.

use vstd::prelude::*;
use vstd::string::*;
use crate::folder_items::{
    self, collection_dto, entity_dto, person_dto, playlist_dto, FolderItem, FolderView,
};
use crate::browse::ListQuery;
use crate::seqs;
use crate::text;
use crate::wire::{query_result, QueryResult};

verus! {

/// A genre, a studio or a tag and the number of its items.
pub struct EntityRow {
    pub id: String,
    pub name: String,
    pub item_count: u32,
}

/// A person and the number of the items that credit them.
pub struct PersonRow {
    pub id: String,
    pub name: String,
    pub has_portrait: bool,
    pub item_count: u32,
}

/// A collection and the number of its items.
pub struct CollectionRow {
    pub id: String,
    pub name: String,
    pub overview: Option<String>,
    pub item_count: u32,
}

/// A playlist and the number of its entries; none where they could not be
/// counted.
pub struct PlaylistRow {
    pub id: String,
    pub name: String,
    pub media_type: String,
    pub entries: Option<u32>,
}

/// Folders as texts and numbers.
pub open spec fn folder_views(v: Seq<FolderItem>) -> Seq<FolderView> {
    Seq::new(v.len(), |i: int| v[i]@)
}

pub open spec fn entity_folders(rows: Seq<EntityRow>, kind: Seq<char>) -> Seq<FolderView> {
    Seq::new(
        rows.len(),
        |i: int|
            folder_items::entity_folder(rows[i].id@, rows[i].name@, kind, rows[i].item_count),
    )
}

pub open spec fn person_folders(rows: Seq<PersonRow>) -> Seq<FolderView> {
    Seq::new(
        rows.len(),
        |i: int|
            folder_items::person_folder(
                rows[i].id@,
                rows[i].name@,
                rows[i].has_portrait,
                rows[i].item_count,
            ),
    )
}

pub open spec fn collection_folders(rows: Seq<CollectionRow>) -> Seq<FolderView> {
    Seq::new(
        rows.len(),
        |i: int|
            folder_items::collection_folder(
                rows[i].id@,
                rows[i].name@,
                text::opt_text(rows[i].overview),
                rows[i].item_count,
            ),
    )
}

/// A playlist whose entries could not be counted is shown as empty.
pub open spec fn playlist_folders(rows: Seq<PlaylistRow>) -> Seq<FolderView> {
    Seq::new(
        rows.len(),
        |i: int|
            folder_items::playlist_folder(
                rows[i].id@,
                rows[i].name@,
                rows[i].media_type@,
                match rows[i].entries {
                    Some(n) => n,
                    None => 0,
                },
            ),
    )
}

/// Whether a result is a page of these folders. The total is that of all of
/// them, in as many bits as it is sent in.
pub open spec fn page_of(
    r: QueryResult<FolderItem>,
    all: Seq<FolderView>,
    start: u32,
    limit: int,
) -> bool {
    &&& folder_views(r.items@) == seqs::page(all, start as int, limit)
    &&& r.total_record_count == all.len() as u32
    &&& r.start_index == start
}

/// Whether a result is the whole list of these folders.
pub open spec fn whole_list(r: QueryResult<FolderItem>, all: Seq<FolderView>) -> bool {
    page_of(r, all, 0, all.len() as int)
}

fn count_of(n: usize) -> (r: u32)
    ensures
        r == n as u32,
{
    #[verifier::truncate]
    (n as u32)
}

fn list_entities(rows: &Vec<EntityRow>, kind: &str) -> (r: QueryResult<FolderItem>)
    ensures
        whole_list(r, entity_folders(rows@, kind@)),
{
    let ghost all = entity_folders(rows@, kind@);
    let mut out: Vec<FolderItem> = Vec::new();
    let mut i: usize = 0;
    while i < rows.len()
        invariant
            i <= rows@.len(),
            all == entity_folders(rows@, kind@),
            folder_views(out@) =~= all.take(i as int),
        decreases rows@.len() - i,
    {
        let ghost before = out@;
        out.push(
            entity_dto(rows[i].id.as_str(), rows[i].name.as_str(), kind, rows[i].item_count),
        );
        i += 1;
        proof {
            assert(folder_views(out@) =~= folder_views(before).push(all[i - 1]));
            assert(all.take(i as int) =~= all.take(i - 1).push(all[i - 1]));
        }
    }
    proof {
        assert(seqs::page(all, 0, all.len() as int) =~= all.take(i as int));
    }
    query_result(out, count_of(rows.len()), 0)
}

/// The genres.
pub fn list_genres(rows: &Vec<EntityRow>) -> (r: QueryResult<FolderItem>)
    ensures
        whole_list(r, entity_folders(rows@, "Genre"@)),
{
    list_entities(rows, "Genre")
}

/// The studios.
pub fn list_studios(rows: &Vec<EntityRow>) -> (r: QueryResult<FolderItem>)
    ensures
        whole_list(r, entity_folders(rows@, "Studio"@)),
{
    list_entities(rows, "Studio")
}

/// The tags.
pub fn list_tags(rows: &Vec<EntityRow>) -> (r: QueryResult<FolderItem>)
    ensures
        whole_list(r, entity_folders(rows@, "Tag"@)),
{
    list_entities(rows, "Tag")
}

/// The people.
pub fn list_persons(rows: &Vec<PersonRow>) -> (r: QueryResult<FolderItem>)
    ensures
        whole_list(r, person_folders(rows@)),
{
    let ghost all = person_folders(rows@);
    let mut out: Vec<FolderItem> = Vec::new();
    let mut i: usize = 0;
    while i < rows.len()
        invariant
            i <= rows@.len(),
            all == person_folders(rows@),
            folder_views(out@) =~= all.take(i as int),
        decreases rows@.len() - i,
    {
        let ghost before = out@;
        let p = &rows[i];
        out.push(person_dto(p.id.as_str(), p.name.as_str(), p.has_portrait, p.item_count));
        i += 1;
        proof {
            assert(folder_views(out@) =~= folder_views(before).push(all[i - 1]));
            assert(all.take(i as int) =~= all.take(i - 1).push(all[i - 1]));
        }
    }
    proof {
        assert(seqs::page(all, 0, all.len() as int) =~= all.take(i as int));
    }
    query_result(out, count_of(rows.len()), 0)
}

fn collections_between(rows: &Vec<CollectionRow>, start: usize, limit: usize) -> (r: Vec<FolderItem>)
    ensures
        folder_views(r@) == seqs::page(collection_folders(rows@), start as int, limit as int),
{
    let ghost all = collection_folders(rows@);
    let mut out: Vec<FolderItem> = Vec::new();
    let n: usize = rows.len();
    let mut i: usize = start;
    while i < n && i - start < limit
        invariant
            n == rows@.len(),
            all == collection_folders(rows@),
            start <= i,
            i <= n || i == start,
            i - start <= limit,
            folder_views(out@) =~= seqs::page(all, start as int, i - start),
        decreases n - i,
    {
        let ghost before = out@;
        let c = &rows[i];
        out.push(collection_dto(c.id.as_str(), c.name.as_str(), &c.overview, c.item_count));
        i += 1;
        proof {
            assert(folder_views(out@) =~= folder_views(before).push(all[i - 1]));
            assert(seqs::page(all, start as int, i - start) =~= seqs::page(
                all,
                start as int,
                i - 1 - start,
            ).push(all[i - 1]));
        }
    }
    proof {
        assert(folder_views(out@) =~= seqs::page(all, start as int, limit as int));
    }
    out
}

/// The collections.
pub fn list_collections(rows: &Vec<CollectionRow>) -> (r: QueryResult<FolderItem>)
    ensures
        whole_list(r, collection_folders(rows@)),
{
    query_result(collections_between(rows, 0, rows.len()), count_of(rows.len()), 0)
}

/// The page of the collections that a list request asks for.
pub fn list_boxsets_page(rows: &Vec<CollectionRow>, q: &ListQuery) -> (r: QueryResult<FolderItem>)
    ensures
        page_of(r, collection_folders(rows@), q.start_index, q.limit as int),
{
    query_result(
        collections_between(rows, q.start_index as usize, q.limit as usize),
        count_of(rows.len()),
        q.start_index,
    )
}

/// The page of the playlists that a list request asks for.
pub fn list_playlists_page(rows: &Vec<PlaylistRow>, q: &ListQuery) -> (r: QueryResult<FolderItem>)
    ensures
        page_of(r, playlist_folders(rows@), q.start_index, q.limit as int),
{
    let ghost all = playlist_folders(rows@);
    let mut out: Vec<FolderItem> = Vec::new();
    let n: usize = rows.len();
    let start: usize = q.start_index as usize;
    let limit: usize = q.limit as usize;
    let mut i: usize = start;
    while i < n && i - start < limit
        invariant
            n == rows@.len(),
            all == playlist_folders(rows@),
            start <= i,
            i <= n || i == start,
            i - start <= limit,
            folder_views(out@) =~= seqs::page(all, start as int, i - start),
        decreases n - i,
    {
        let ghost before = out@;
        let p = &rows[i];
        let count: u32 = match p.entries {
            Some(c) => c,
            None => 0,
        };
        out.push(playlist_dto(p.id.as_str(), p.name.as_str(), p.media_type.as_str(), count));
        i += 1;
        proof {
            assert(folder_views(out@) =~= folder_views(before).push(all[i - 1]));
            assert(seqs::page(all, start as int, i - start) =~= seqs::page(
                all,
                start as int,
                i - 1 - start,
            ).push(all[i - 1]));
        }
    }
    proof {
        assert(folder_views(out@) =~= seqs::page(all, start as int, limit as int));
    }
    query_result(out, count_of(n), q.start_index)
}

// ------------------------------------------------------------------------ laws

/// A list of entities shows each of them under its id and name, in the order of
/// the store, and counts them all.
pub proof fn law_entities_are_listed(r: QueryResult<FolderItem>, rows: Seq<EntityRow>, kind: Seq<char>, i: int)
    requires
        whole_list(r, entity_folders(rows, kind)),
        rows.len() <= u32::MAX,
    ensures
        r.items@.len() == rows.len(),
        r.total_record_count == rows.len(),
        r.start_index == 0,
        0 <= i < rows.len() ==> r.items@[i].id@ == rows[i].id@ && r.items@[i].name@ == rows[i].name@
            && r.items@[i].child_count == Some(rows[i].item_count) && (kind != "Tag"@
            ==> r.items@[i].kind@ == kind),
{
    let all = entity_folders(rows, kind);
    seqs::law_a_page_holds_what_stands_there(all, 0, all.len() as int);
    assert(folder_views(r.items@).len() == r.items@.len());
    if 0 <= i < rows.len() {
        assert(folder_views(r.items@)[i] == all[i]);
        assert(r.items@[i]@ == all[i]);
    }
}

/// A page of folders holds those from its start on, and counts all there are.
pub proof fn law_pages_of_folders(
    r: QueryResult<FolderItem>,
    all: Seq<FolderView>,
    start: u32,
    limit: int,
    i: int,
)
    requires
        page_of(r, all, start, limit),
        limit >= 0,
        all.len() <= u32::MAX,
    ensures
        r.total_record_count == all.len(),
        r.start_index == start,
        r.items@.len() <= limit,
        0 <= i < r.items@.len() ==> r.items@[i]@ == all[start + i],
        start + limit <= all.len() ==> r.items@.len() == limit,
{
    seqs::law_a_page_holds_what_stands_there(all, start as int, limit);
    assert(folder_views(r.items@).len() == r.items@.len());
    if 0 <= i < r.items@.len() {
        assert(folder_views(r.items@)[i] == r.items@[i]@);
    }
}

/// Collections, playlists and people are shown under their ids and names with
/// the number of their items.
pub proof fn law_collections_playlists_and_people(
    cs: Seq<CollectionRow>,
    ps: Seq<PlaylistRow>,
    hs: Seq<PersonRow>,
    i: int,
)
    ensures
        0 <= i < cs.len() ==> collection_folders(cs)[i].id == cs[i].id@ && collection_folders(
            cs,
        )[i].name == cs[i].name@ && collection_folders(cs)[i].child_count == Some(cs[i].item_count),
        0 <= i < ps.len() ==> playlist_folders(ps)[i].id == ps[i].id@ && playlist_folders(
            ps,
        )[i].name == ps[i].name@ && playlist_folders(ps)[i].child_count == Some(
            if ps[i].entries is Some {
                ps[i].entries->0
            } else {
                0
            },
        ),
        0 <= i < hs.len() ==> person_folders(hs)[i].id == hs[i].id@ && person_folders(hs)[i].name
            == hs[i].name@ && person_folders(hs)[i].child_count == Some(hs[i].item_count),
        collection_folders(cs).len() == cs.len(),
        playlist_folders(ps).len() == ps.len(),
        person_folders(hs).len() == hs.len(),
{
}

} // verus!
