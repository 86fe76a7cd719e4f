//! Playlists: rows of items in an order that their owner gives them.

use vstd::prelude::*;
use vstd::string::*;
use crate::answer::{ApiError, Refusal};
use crate::browse;
use crate::text::{self, csv_entries, trimmed};

verus! {

/// A text, and another where it is blank.
pub open spec fn filled_or(given: Option<Seq<char>>, other: Seq<char>) -> Seq<char> {
    match given {
        Some(s) => if text::trim(s).len() > 0 {
            text::trim(s)
        } else {
            other
        },
        None => other,
    }
}

fn text_or(given: Option<&str>, other: &str) -> (r: String)
    ensures
        r@ == filled_or(browse::opt_str(given), other@),
{
    match given {
        Some(s) => {
            let t = trimmed(s);
            if t.as_str().is_empty() {
                other.to_owned()
            } else {
                t
            }
        },
        None => other.to_owned(),
    }
}

/// The head of a new playlist.
pub struct NewPlaylist {
    pub name: String,
    pub media_type: String,
}

/// The head of a new playlist: a name and a media type, each with a default.
pub fn create_playlist(name: Option<&str>, media_type: Option<&str>) -> (r: NewPlaylist)
    ensures
        r.name@ == filled_or(browse::opt_str(name), "New Playlist"@),
        r.media_type@ == filled_or(browse::opt_str(media_type), "Video"@),
{
    NewPlaylist { name: text_or(name, "New Playlist"), media_type: text_or(media_type, "Video") }
}

/// A playlist that is asked for has to be there.
pub fn require_playlist(there: bool) -> (r: Result<(), ApiError>)
    ensures
        r is Ok <==> there,
        r matches Err(e) ==> e.says(Refusal::NotFound, "playlist not found"@),
{
    if there {
        Ok(())
    } else {
        Err(ApiError::NotFound("playlist not found".to_owned()))
    }
}

/// What moving an entry came to: nothing where there is no such playlist, and
/// `false` where it has no such entry.
pub fn move_item(outcome: Option<bool>) -> (r: Result<(), ApiError>)
    ensures
        r is Ok <==> outcome == Some(true),
        r matches Err(e) ==> e.says(
            Refusal::NotFound,
            if outcome is None {
                "playlist not found"@
            } else {
                "playlist entry not found"@
            },
        ),
{
    match outcome {
        None => Err(ApiError::NotFound("playlist not found".to_owned())),
        Some(moved) => if moved {
            Ok(())
        } else {
            Err(ApiError::NotFound("playlist entry not found".to_owned()))
        },
    }
}

/// An entry of a playlist, with the item that was found for it.
pub struct PlaylistEntry<T> {
    pub entry_id: String,
    pub item: Option<T>,
}

/// The entries among the first `n` whose items are there, in order.
pub open spec fn present<T>(entries: Seq<PlaylistEntry<T>>, n: int) -> Seq<(Seq<char>, T)>
    decreases n,
{
    if n <= 0 {
        Seq::empty()
    } else {
        match entries[n - 1].item {
            Some(t) => present(entries, n - 1).push((entries[n - 1].entry_id@, t)),
            None => present(entries, n - 1),
        }
    }
}

pub open spec fn entry_views<T>(v: Seq<(String, T)>) -> Seq<(Seq<char>, T)> {
    Seq::new(v.len(), |i: int| (v[i].0@, v[i].1))
}

/// The rows of a playlist: its items in its order, each with the id of its
/// entry. One item may stand in it more than once, and entries whose item is
/// gone are left out.
pub fn playlist_items<T: Copy>(entries: &Vec<PlaylistEntry<T>>) -> (r: Vec<(String, T)>)
    ensures
        entry_views(r@) == present(entries@, entries@.len() as int),
{
    let mut out: Vec<(String, T)> = Vec::new();
    let mut i: usize = 0;
    proof {
        assert(entry_views(out@) =~= Seq::<(Seq<char>, T)>::empty());
    }
    while i < entries.len()
        invariant
            i <= entries@.len(),
            entry_views(out@) == present(entries@, i as int),
        decreases entries@.len() - i,
    {
        if let Some(t) = entries[i].item {
            let ghost before = out@;
            out.push((entries[i].entry_id.clone(), t));
            proof {
                assert(entry_views(out@) =~= entry_views(before).push(
                    (entries@[i as int].entry_id@, t),
                ));
            }
        }
        i += 1;
    }
    out
}

/// The entries of a comma-separated list, without the blank ones.
pub fn parse_str_csv(raw: Option<&str>) -> (r: Vec<String>)
    ensures
        text::texts(r@) == (match raw {
            Some(s) => text::csv(s@),
            None => Seq::empty(),
        }),
{
    match raw {
        Some(s) => csv_entries(s),
        None => {
            let r: Vec<String> = Vec::new();
            proof {
                assert(text::texts(r@) =~= Seq::<Seq<char>>::empty());
            }
            r
        },
    }
}

/// A playlist without gaps shows every entry, in order.
pub proof fn law_nothing_present_is_lost<T>(entries: Seq<PlaylistEntry<T>>, n: int)
    requires
        0 <= n <= entries.len(),
        forall|i: int| 0 <= i < n ==> (#[trigger] entries[i]).item is Some,
    ensures
        present(entries, n).len() == n,
        forall|i: int|
            0 <= i < n ==> #[trigger] present(entries, n)[i] == (
                entries[i].entry_id@,
                entries[i].item->0,
            ),
    decreases n,
{
    if n > 0 {
        law_nothing_present_is_lost(entries, n - 1);
        assert(entries[n - 1].item is Some);
    }
}

/// What a new playlist is called and holds is what was given, without white
/// space around it; a name that is blank or not given is left to the default.
pub proof fn law_playlists_have_names(name: Seq<char>, other: Seq<char>)
    ensures
        text::trim(name).len() > 0 ==> filled_or(Some(name), other) == text::trim(name),
        text::trim(name).len() == 0 ==> filled_or(Some(name), other) == other,
        filled_or(None, other) == other,
{
}

proof fn lemma_present<T>(entries: Seq<PlaylistEntry<T>>, n: int, k: int)
    requires
        0 <= k < n <= entries.len(),
        entries[k].item is Some,
    ensures
        present(entries, n).contains((entries[k].entry_id@, entries[k].item->0)),
    decreases n,
{
    let p = present(entries, n - 1);
    if k == n - 1 {
        assert(present(entries, n)[p.len() as int] == (entries[k].entry_id@, entries[k].item->0));
    } else {
        lemma_present(entries, n - 1, k);
        let i = choose|i: int| 0 <= i < p.len() && p[i] == (
            entries[k].entry_id@,
            entries[k].item->0,
        );
        assert(present(entries, n)[i] == p[i]);
    }
}

/// An entry whose item is there is shown, wherever it stands and whatever is
/// missing round it.
pub proof fn law_present_entries_are_shown<T>(entries: Seq<PlaylistEntry<T>>, k: int)
    requires
        0 <= k < entries.len(),
        entries[k].item is Some,
    ensures
        present(entries, entries.len() as int).contains(
            (entries[k].entry_id@, entries[k].item->0),
        ),
{
    lemma_present(entries, entries.len() as int, k);
}

} // verus!
