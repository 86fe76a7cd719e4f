//! Marks that viewers put on items: played, and favourite.

use vstd::prelude::*;
use vstd::string::*;
use crate::answer::{ApiError, Refusal};
use crate::ids::{self, is_uuid};
use crate::seqs::{self, marked_places};
use crate::sessions::{self, count_up, UserItemData};
use crate::shows::EpisodeRow;
use crate::text::{self, eq_text};

verus! {

/// A mark that a viewer sets or takes away.
#[derive(Debug, Clone, Copy, PartialEq, Eq, Structural)]
pub enum Mark {
    Played,
    Unplayed,
    Favorite,
    NotFavorite,
}

/// A record with a mark put on it. What is played starts over, and is counted.
pub open spec fn marked(d: UserItemData, mark: Mark, now: i64) -> UserItemData {
    match mark {
        Mark::Played => UserItemData {
            played: true,
            play_count: sessions::one_more(d.play_count),
            last_played_position_ticks: 0,
            last_played_at: now,
            ..d
        },
        Mark::Unplayed => UserItemData { played: false, ..d },
        Mark::Favorite => UserItemData { is_favorite: true, ..d },
        Mark::NotFavorite => UserItemData { is_favorite: false, ..d },
    }
}

/// A record with a mark put on it, at a time in seconds.
pub fn put_mark(d: UserItemData, mark: Mark, now: i64) -> (r: UserItemData)
    ensures
        r == marked(d, mark, now),
{
    let mut out: UserItemData = d;
    match mark {
        Mark::Played => {
            out.played = true;
            out.play_count = count_up(d.play_count);
            out.last_played_position_ticks = 0;
            out.last_played_at = now;
        },
        Mark::Unplayed => {
            out.played = false;
        },
        Mark::Favorite => {
            out.is_favorite = true;
        },
        Mark::NotFavorite => {
            out.is_favorite = false;
        },
    }
    out
}

/// A viewer may put marks on their own record only, and its id has to be one.
pub open spec fn may_mark(bearer: Seq<char>, path_user: Seq<char>, well_formed: bool) -> Result<
    (),
    Refusal,
> {
    if path_user != bearer {
        Err(Refusal::Forbidden)
    } else if !well_formed {
        Err(Refusal::BadRequest)
    } else {
        Ok(())
    }
}

/// Whether a viewer may put marks on a record, given whether its id reads as
/// one.
pub fn check_bearer(bearer: &str, path_user: &str, well_formed: bool) -> (r: Result<(), ApiError>)
    ensures
        match may_mark(bearer@, path_user@, well_formed) {
            Ok(()) => r is Ok,
            Err(why) => r matches Err(e) && e.says(
                why,
                if why == Refusal::Forbidden {
                    "user mismatch"@
                } else {
                    "invalid user id"@
                },
            ),
        },
{
    if !eq_text(path_user, bearer) {
        Err(ApiError::Forbidden("user mismatch".to_owned()))
    } else if !well_formed {
        Err(ApiError::BadRequest("invalid user id".to_owned()))
    } else {
        Ok(())
    }
}

/// Whether a viewer may put marks on a record.
pub fn require_bearer_match(bearer: &str, path_user: &str) -> (r: Result<(), ApiError>)
    ensures
        match may_mark(bearer@, path_user@, ids::reads_as_uuid(path_user@)) {
            Ok(()) => r is Ok,
            Err(why) => r matches Err(e) && e.says(
                why,
                if why == Refusal::Forbidden {
                    "user mismatch"@
                } else {
                    "invalid user id"@
                },
            ),
        },
{
    let well_formed: bool = is_uuid(path_user);
    check_bearer(bearer, path_user, well_formed)
}

/// Whether an episode is of the series or the season with an id.
pub open spec fn in_folder(row: EpisodeRow, id: Seq<char>) -> bool {
    row.series is Some && (row.series->0.series_id@ == id || (row.series->0.season_number is Some
        && text::opt_text(row.series->0.season_id) == Some(id)))
}

pub open spec fn folder_flags(rows: Seq<EpisodeRow>, id: Seq<char>) -> Seq<bool> {
    Seq::new(rows.len(), |i: int| in_folder(rows[i], id))
}

fn is_in_folder(row: &EpisodeRow, id: &str) -> (r: bool)
    ensures
        r == in_folder(*row, id@),
{
    match &row.series {
        Some(s) => eq_text(s.series_id.as_str(), id) || (s.season_number.is_some()
            && match &s.season_id {
            Some(sid) => eq_text(sid.as_str(), id),
            None => false,
        }),
        None => false,
    }
}

/// The episodes that a mark on a series or a season goes to: their places.
pub fn mutate_synth_folder(rows: &Vec<EpisodeRow>, id: &str) -> (r: Result<Vec<usize>, ApiError>)
    ensures
        match r {
            Ok(at) => at@.len() > 0 && at@ == seqs::all_marked(folder_flags(rows@, id@)),
            Err(e) => seqs::all_marked(folder_flags(rows@, id@)).len() == 0 && e.says(
                Refusal::NotFound,
                "item not found"@,
            ),
        },
{
    let ghost all = folder_flags(rows@, id@);
    let mut flags: Vec<bool> = Vec::new();
    let mut i: usize = 0;
    while i < rows.len()
        invariant
            i <= rows@.len(),
            all == folder_flags(rows@, id@),
            flags@ == all.take(i as int),
        decreases rows@.len() - i,
    {
        flags.push(is_in_folder(&rows[i], id));
        i += 1;
        proof {
            assert(all.take(i as int) == all.take(i - 1).push(all[i - 1]));
        }
    }
    proof {
        assert(all.take(i as int) == all);
    }
    let at = marked_places(&flags);
    if at.len() == 0 {
        Err(ApiError::NotFound("item not found".to_owned()))
    } else {
        Ok(at)
    }
}

/// The record that stands for a series or a season that was marked.
pub fn folder_record(mark: Mark, now: i64) -> (r: UserItemData)
    ensures
        r == marked(sessions::untouched(), mark, now),
{
    put_mark(UserItemData::default(), mark, now)
}

// ----------------------------------------------------------------------- laws

/// A mark that is taken away leaves what the other marks say.
pub proof fn law_marks_are_apart(d: UserItemData, now: i64)
    ensures
        marked(d, Mark::Favorite, now).played == d.played,
        marked(d, Mark::NotFavorite, now).played == d.played,
        marked(d, Mark::Played, now).is_favorite == d.is_favorite,
        marked(d, Mark::Unplayed, now).is_favorite == d.is_favorite,
        marked(marked(d, Mark::Favorite, now), Mark::NotFavorite, now) == (UserItemData {
            is_favorite: false,
            ..d
        }),
        !marked(marked(d, Mark::Played, now), Mark::Unplayed, now).played,
{
}

/// Marking as a favourite twice is as good as once, and what is marked as
/// played does not resume.
pub proof fn law_marks_settle(d: UserItemData, now: i64)
    ensures
        marked(marked(d, Mark::Favorite, now), Mark::Favorite, now) == marked(
            d,
            Mark::Favorite,
            now,
        ),
        marked(d, Mark::Played, now).played,
        marked(d, Mark::Played, now).last_played_position_ticks == 0,
        d.play_count < u32::MAX ==> marked(d, Mark::Played, now).play_count == d.play_count + 1,
{
}

/// A mark says what it says: each sets its own side of the record, what is
/// marked as played is counted and starts over, and what is marked as unplayed
/// or as a favourite keeps its place and its count.
pub proof fn law_marks_say_what_they_say(d: UserItemData, now: i64)
    ensures
        marked(d, Mark::Favorite, now).is_favorite,
        !marked(d, Mark::NotFavorite, now).is_favorite,
        marked(d, Mark::Played, now).played && marked(d, Mark::Played, now).last_played_at == now,
        !marked(d, Mark::Unplayed, now).played,
        forall|m: Mark|
            m != Mark::Played ==> (#[trigger] marked(d, m, now)).play_count == d.play_count
                && marked(d, m, now).last_played_position_ticks == d.last_played_position_ticks
                && marked(d, m, now).last_played_at == d.last_played_at,
{
}

/// A mark on a series or a season goes to each of its episodes and to no other
/// item, in their order.
pub proof fn law_marks_go_to_the_episodes(rows: Seq<EpisodeRow>, id: Seq<char>, k: usize)
    requires
        rows.len() <= usize::MAX,
    ensures
        seqs::all_marked(folder_flags(rows, id)).contains(k) <==> k < rows.len()
            && rows[k as int].series is Some && {
            let s = rows[k as int].series->0;
            s.series_id@ == id || (s.season_number is Some && s.season_id is Some && s.season_id->0@
                == id)
        },
{
    seqs::lemma_marked(folder_flags(rows, id), rows.len() as int);
}

/// Viewers put marks on their own records alone.
pub proof fn law_viewers_mark_their_own(bearer: Seq<char>, path_user: Seq<char>, well_formed: bool)
    ensures
        may_mark(bearer, path_user, well_formed) is Ok <==> path_user == bearer && well_formed,
        path_user != bearer ==> may_mark(bearer, path_user, well_formed) == Err::<(), Refusal>(
            Refusal::Forbidden,
        ),
{
}

} // verus!
