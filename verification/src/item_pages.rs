//! Pages of items as they are sent, with what the client asked to have filled in.

use vstd::prelude::*;
use vstd::string::*;
use crate::browse::{self, copy_texts, fields_requests};
use crate::folders::{self, fill_parent_id};
use crate::parents::RootRow;
use crate::sessions::{self, UserItemData};
use crate::text;
use crate::wire::{query_result, QueryResult};

verus! {

/// An item of a page and what the store says of it; of each list, none where it
/// could not be had.
pub struct PageRow {
    pub id: u64,
    pub path: String,
    pub parent_id: Option<String>,
    pub people: Option<Vec<String>>,
    pub studios: Option<Vec<String>>,
    pub tags: Option<Vec<String>>,
}

/// An item as it is sent. A list that is not filled in is none.
pub struct PageItem {
    pub id: u64,
    pub user_data: UserItemData,
    pub parent_id: Option<String>,
    pub people: Option<Vec<String>>,
    pub studios: Option<Vec<String>>,
    pub tags: Option<Vec<String>>,
}

pub open spec fn opt_texts(o: Option<Vec<String>>) -> Option<Seq<Seq<char>>> {
    match o {
        Some(v) => Some(text::texts(v@)),
        None => None,
    }
}

/// A list that was asked for and could be had; that it could not is no failure.
pub open spec fn filled_in(
    found: Option<Vec<String>>,
    fields: Option<Seq<char>>,
    name: Seq<char>,
) -> Option<Seq<Seq<char>>> {
    if browse::asks_for(fields, name) {
        opt_texts(found)
    } else {
        None
    }
}

/// What is on record of the item at a place; nothing where there is no record.
pub open spec fn data_at(data: Seq<UserItemData>, i: int) -> UserItemData {
    if 0 <= i < data.len() {
        data[i]
    } else {
        sessions::untouched()
    }
}

/// Whether an item is sent as it should be.
pub open spec fn sent_as(
    r: PageItem,
    row: PageRow,
    data: UserItemData,
    roots: Seq<RootRow>,
    fields: Option<Seq<char>>,
) -> bool {
    &&& r.id == row.id
    &&& r.user_data == data
    &&& text::opt_text(r.parent_id) == folders::parent_of_item(
        text::opt_text(row.parent_id),
        row.path@,
        roots,
    )
    &&& opt_texts(r.people) == filled_in(row.people, fields, "People"@)
    &&& opt_texts(r.studios) == filled_in(row.studios, fields, "Studios"@)
    &&& opt_texts(r.tags) == filled_in(row.tags, fields, "Tags"@)
}

fn fill_in(found: &Option<Vec<String>>, wanted: bool) -> (r: Option<Vec<String>>)
    ensures
        opt_texts(r) == (if wanted {
            opt_texts(*found)
        } else {
            None
        }),
{
    match found {
        Some(v) => if wanted {
            Some(copy_texts(v))
        } else {
            None
        },
        None => None,
    }
}

/// Makes a page of items: each with what is on record of it, its parent, and the
/// lists among `fields`.
pub fn build_items_page_with_fields(
    rows: &Vec<PageRow>,
    data: &Vec<UserItemData>,
    roots: &Vec<RootRow>,
    total: u32,
    start_index: u32,
    fields: Option<&str>,
) -> (r: QueryResult<PageItem>)
    ensures
        r.total_record_count == total,
        r.start_index == start_index,
        r.items@.len() == rows@.len(),
        forall|i: int|
            0 <= i < rows@.len() ==> sent_as(
                #[trigger] r.items@[i],
                rows@[i],
                data_at(data@, i),
                roots@,
                browse::opt_str(fields),
            ),
{
    let want_people = fields_requests(fields, "People");
    let want_studios = fields_requests(fields, "Studios");
    let want_tags = fields_requests(fields, "Tags");
    let ghost f = browse::opt_str(fields);
    let mut out: Vec<PageItem> = Vec::new();
    let mut i: usize = 0;
    while i < rows.len()
        invariant
            i <= rows@.len(),
            out@.len() == i,
            want_people == browse::asks_for(f, "People"@),
            want_studios == browse::asks_for(f, "Studios"@),
            want_tags == browse::asks_for(f, "Tags"@),
            forall|k: int|
                0 <= k < i ==> sent_as(
                    #[trigger] out@[k],
                    rows@[k],
                    data_at(data@, k),
                    roots@,
                    f,
                ),
        decreases rows@.len() - i,
    {
        let row = &rows[i];
        let user_data: UserItemData = if i < data.len() {
            data[i]
        } else {
            UserItemData::default()
        };
        out.push(
            PageItem {
                id: row.id,
                user_data,
                parent_id: fill_parent_id(&row.parent_id, row.path.as_str(), roots),
                people: fill_in(&row.people, want_people),
                studios: fill_in(&row.studios, want_studios),
                tags: fill_in(&row.tags, want_tags),
            },
        );
        i += 1;
    }
    query_result(out, total, start_index)
}

/// Makes a page of items with nothing filled in.
pub fn build_items_page(
    rows: &Vec<PageRow>,
    data: &Vec<UserItemData>,
    roots: &Vec<RootRow>,
    total: u32,
    start_index: u32,
) -> (r: QueryResult<PageItem>)
    ensures
        r.total_record_count == total,
        r.start_index == start_index,
        r.items@.len() == rows@.len(),
        forall|i: int|
            0 <= i < rows@.len() ==> sent_as(
                #[trigger] r.items@[i],
                rows@[i],
                data_at(data@, i),
                roots@,
                None,
            ),
{
    build_items_page_with_fields(rows, data, roots, total, start_index, None)
}

/// A client that asks for no fields is sent none of the lists.
pub proof fn law_lists_are_sent_on_request(
    r: PageItem,
    row: PageRow,
    data: UserItemData,
    roots: Seq<RootRow>,
)
    requires
        sent_as(r, row, data, roots, None),
    ensures
        r.people is None && r.studios is None && r.tags is None,
{
}

/// An item is sent under its own id and with the user's own record of it, and
/// under its own parent where it has one.
pub proof fn law_items_are_sent_as_they_are(
    r: PageItem,
    row: PageRow,
    data: UserItemData,
    roots: Seq<RootRow>,
    fields: Option<Seq<char>>,
)
    requires
        sent_as(r, row, data, roots, fields),
    ensures
        r.id == row.id,
        r.user_data == data,
        row.parent_id is Some ==> r.parent_id is Some && r.parent_id->0@ == row.parent_id->0@,
        browse::asks_for(fields, "People"@) && row.people is Some ==> r.people is Some
            && text::texts(r.people->0@) == text::texts(row.people->0@),
        browse::asks_for(fields, "Studios"@) && row.studios is Some ==> r.studios is Some
            && text::texts(r.studios->0@) == text::texts(row.studios->0@),
        browse::asks_for(fields, "Tags"@) && row.tags is Some ==> r.tags is Some && text::texts(
            r.tags->0@,
        ) == text::texts(row.tags->0@),
        !browse::asks_for(fields, "People"@) ==> r.people is None,
{
}

/// The record at a place is the one that stands there, and an empty one where
/// there is none.
pub proof fn law_records_stand_at_their_place(data: Seq<UserItemData>, i: int)
    ensures
        0 <= i < data.len() ==> data_at(data, i) == data[i],
        i >= data.len() ==> !data_at(data, i).played && data_at(data, i).play_count == 0,
{
}

} // verus!
