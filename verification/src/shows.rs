//! Series, seasons and episodes. The library keeps episodes only: series and
//! seasons are what the episodes say of themselves.

use std::ops::Range;
use vstd::prelude::*;
use vstd::string::*;
use crate::browse::{self, apply_policy_scope, build_media_query, ListQuery, MediaFilters, MediaQuery, ParentResolution, UserPolicy};
use crate::media::MediaKind;
use crate::seqs::{self, cut_page};
use crate::sort::{self, arrange, first_positions, key_of_text};
use crate::text::{self, chars_of, csv_entries, eq_ignore_case, eq_text, has_prefix, to_lower, to_unicode_lower, trimmed_start};

verus! {

/// What an episode says of its series. The ids are those that the clients know
/// the series and the season by; the key tells series of one name apart.
pub struct SeriesRow {
    pub key: String,
    pub name: String,
    pub series_id: String,
    pub season_id: Option<String>,
    pub season_number: Option<u32>,
    pub episode_number: Option<u32>,
}

/// An item as far as the show lists read it.
pub struct EpisodeRow {
    pub kind: MediaKind,
    pub id: String,
    pub played: bool,
    pub series: Option<SeriesRow>,
}

/// A number that may be missing, which counts as none.
pub open spec fn or_zero(n: Option<u32>) -> int {
    match n {
        Some(v) => v as int,
        None => 0,
    }
}

/// Whether a row is an episode of a series.
pub open spec fn of_series(row: EpisodeRow, series_id: Seq<char>) -> bool {
    row.kind == MediaKind::Episode && row.series is Some && row.series->0.series_id@ == series_id
}

/// The place of an episode in its series.
pub open spec fn place_key(row: EpisodeRow) -> Seq<int> {
    match row.series {
        Some(s) => seq![or_zero(s.season_number), or_zero(s.episode_number)],
        None => seq![0, 0],
    }
}

pub open spec fn place_keys(rows: Seq<EpisodeRow>) -> spec_fn(int) -> Seq<int> {
    |i: int| place_key(rows[i])
}

fn number_or_zero(n: Option<u32>) -> (r: i64)
    ensures
        r == or_zero(n),
{
    match n {
        Some(v) => v as i64,
        None => 0,
    }
}

fn key_of_place(row: &EpisodeRow) -> (r: Vec<i64>)
    ensures
        sort::key_view(r@) == place_key(*row),
{
    let r: Vec<i64> = match &row.series {
        Some(s) => vec![number_or_zero(s.season_number), number_or_zero(s.episode_number)],
        None => vec![0, 0],
    };
    proof {
        assert(sort::key_view(r@) == place_key(*row));
    }
    r
}

fn is_of_series(row: &EpisodeRow, series_id: &str) -> (r: bool)
    ensures
        r == of_series(*row, series_id@),
{
    matches!(row.kind, MediaKind::Episode) && match &row.series {
        Some(s) => eq_text(s.series_id.as_str(), series_id),
        None => false,
    }
}

// ------------------------------------------------------------------- episodes

/// Whether a row is an episode of a series and, where one is asked for, of a
/// season.
pub open spec fn listed(row: EpisodeRow, series_id: Seq<char>, season_id: Option<Seq<char>>) -> bool {
    &&& of_series(row, series_id)
    &&& season_id is Some ==> row.series->0.season_number is Some && text::opt_text(
        row.series->0.season_id,
    ) == season_id
}

fn is_listed(row: &EpisodeRow, series_id: &str, season_id: Option<&str>) -> (r: bool)
    ensures
        r == listed(*row, series_id@, browse::opt_str(season_id)),
{
    if !is_of_series(row, series_id) {
        return false;
    }
    match season_id {
        Some(want) => match &row.series {
            Some(s) => s.season_number.is_some() && match &s.season_id {
                Some(id) => eq_text(id.as_str(), want),
                None => false,
            },
            None => false,
        },
        None => true,
    }
}

/// Whether `r` is the episodes of a series, or of one of its seasons, by season
/// and number.
pub open spec fn episode_list(
    r: Seq<usize>,
    rows: Seq<EpisodeRow>,
    series_id: Seq<char>,
    season_id: Option<Seq<char>>,
) -> bool {
    &&& forall|k: usize| #[trigger]
        r.contains(k) <==> k < rows.len() && listed(rows[k as int], series_id, season_id)
    &&& forall|i: int, j: int|
        0 <= i < j < r.len() ==> sort::key_before(
            place_keys(rows),
            #[trigger] r[i] as int,
            #[trigger] r[j] as int,
        )
}

/// The episodes of a series, or of one of its seasons, by season and number.
pub fn episodes_in_order(
    rows: &Vec<EpisodeRow>,
    series_id: &str,
    season_id: Option<&str>,
) -> (r: Vec<usize>)
    ensures
        episode_list(r@, rows@, series_id@, browse::opt_str(season_id)),
        forall|i: int| 0 <= i < r@.len() ==> #[trigger] r@[i] < rows@.len(),
{
    let ghost season = browse::opt_str(season_id);
    let mut chosen: Vec<usize> = Vec::new();
    let mut keys: Vec<Vec<i64>> = Vec::new();
    let mut i: usize = 0;
    while i < rows.len()
        invariant
            i <= rows@.len(),
            season == browse::opt_str(season_id),
            keys@.len() == chosen@.len(),
            forall|k: usize| #[trigger]
                chosen@.contains(k) <==> k < i && listed(rows@[k as int], series_id@, season),
            forall|a: int, b: int|
                0 <= a < b < chosen@.len() ==> #[trigger] chosen@[a] < #[trigger] chosen@[b],
            forall|a: int| 0 <= a < chosen@.len() ==> #[trigger] chosen@[a] < i,
            forall|a: int|
                0 <= a < chosen@.len() ==> sort::key_view((#[trigger] keys@[a])@) == place_key(
                    rows@[chosen@[a] as int],
                ),
        decreases rows@.len() - i,
    {
        if is_listed(&rows[i], series_id, season_id) {
            let ghost before = chosen@;
            chosen.push(i);
            keys.push(key_of_place(&rows[i]));
            proof {
                sort::lemma_pushed(before, i);
            }
        }
        i += 1;
    }
    let r = arrange(&chosen, &keys, Ghost(place_keys(rows@)));
    proof {
        assert forall|i: int| 0 <= i < r@.len() implies #[trigger] r@[i] < rows@.len() by {
            assert(r@.contains(r@[i]));
        }
    }
    r
}

/// Where an id first stands in a row; the start where it does not.
pub open spec fn start_at_id(ids: Seq<Seq<char>>, want: Seq<char>) -> int
    decreases ids.len(),
{
    if !ids.contains(want) {
        0
    } else if ids[0] == want {
        0
    } else {
        1 + start_at_id(ids.subrange(1, ids.len() as int), want)
    }
}

/// Where a page of episodes starts: at the item that is asked for, and else at
/// the index.
pub open spec fn window_start(
    ids: Seq<Seq<char>>,
    start_index: Option<u32>,
    start_item: Option<Seq<char>>,
) -> int {
    match start_item {
        Some(want) => start_at_id(ids, want),
        None => if or_zero(start_index) <= ids.len() {
            or_zero(start_index)
        } else {
            ids.len() as int
        },
    }
}

/// Where a page of episodes ends. A limit of none counts as one.
pub open spec fn window_end(len: int, start: int, limit: Option<u32>) -> int {
    match limit {
        Some(l) => {
            let take: int = if l == 0 {
                1
            } else {
                l as int
            };
            if start + take <= len {
                start + take
            } else {
                len
            }
        },
        None => len,
    }
}

proof fn lemma_start_at(ids: Seq<Seq<char>>, want: Seq<char>, i: int)
    requires
        0 <= i < ids.len(),
        ids[i] == want,
        forall|k: int| 0 <= k < i ==> #[trigger] ids[k] != want,
    ensures
        start_at_id(ids, want) == i,
    decreases ids.len(),
{
    assert(ids.contains(want));
    if i > 0 {
        let t = ids.subrange(1, ids.len() as int);
        assert(t[i - 1] == want);
        assert forall|k: int| 0 <= k < i - 1 implies #[trigger] t[k] != want by {
            assert(t[k] == ids[k + 1]);
        }
        lemma_start_at(t, want, i - 1);
    }
}

/// The page of an ordered list of episodes. An item to start at goes before an
/// index, and one that is not in the list starts at the top.
pub fn resolve_episode_window(
    ids: &[String],
    start_index: Option<u32>,
    start_item_id: Option<&str>,
    limit: Option<u32>,
) -> (r: Range<usize>)
    ensures
        r.start == window_start(text::texts(ids@), start_index, browse::opt_str(start_item_id)),
        r.end == window_end(ids@.len() as int, r.start as int, limit),
        r.start <= r.end <= ids@.len(),
{
    let len: usize = ids.len();
    let ghost views = text::texts(ids@);
    let start: usize = match start_item_id {
        Some(want) => {
            let mut i: usize = 0;
            while i < len && !eq_text(ids[i].as_str(), want)
                invariant
                    i <= len,
                    len == ids@.len(),
                    views == text::texts(ids@),
                    forall|k: int| 0 <= k < i ==> #[trigger] views[k] != want@,
                decreases len - i,
            {
                i += 1;
            }
            if i < len {
                proof {
                    lemma_start_at(views, want@, i as int);
                }
                i
            } else {
                proof {
                    assert(!views.contains(want@));
                }
                0
            }
        },
        None => {
            let wanted: usize = match start_index {
                Some(n) => n as usize,
                None => 0,
            };
            if wanted < len {
                wanted
            } else {
                len
            }
        },
    };
    let end: usize = match limit {
        Some(l) => {
            let take: usize = if l == 0 {
                1
            } else {
                l as usize
            };
            if take <= len - start {
                start + take
            } else {
                len
            }
        },
        None => len,
    };
    Range { start, end }
}

/// A page of a list of positions.
pub struct EpisodePage {
    pub items: Vec<usize>,
    /// How many there are on all pages.
    pub total: usize,
    pub start: usize,
}

/// The ids at some positions.
pub open spec fn ids_at(rows: Seq<EpisodeRow>, at: Seq<usize>) -> Seq<Seq<char>> {
    Seq::new(at.len(), |i: int| rows[at[i] as int].id@)
}

/// A page of the episodes of a series. The total counts the whole list, so
/// that a client knows where to stop.
pub fn shows_episodes(
    rows: &Vec<EpisodeRow>,
    series_id: &str,
    season_id: Option<&str>,
    start_index: Option<u32>,
    start_item_id: Option<&str>,
    limit: Option<u32>,
) -> (r: EpisodePage)
    ensures
        exists|all: Seq<usize>|
            {
                &&& #[trigger] episode_list(all, rows@, series_id@, browse::opt_str(season_id))
                &&& r.total == all.len()
                &&& r.start == window_start(
                    ids_at(rows@, all),
                    start_index,
                    browse::opt_str(start_item_id),
                )
                &&& r.items@ == all.subrange(
                    r.start as int,
                    window_end(all.len() as int, r.start as int, limit),
                )
            },
{
    let all = episodes_in_order(rows, series_id, season_id);
    let mut ids: Vec<String> = Vec::new();
    let mut i: usize = 0;
    while i < all.len()
        invariant
            i <= all@.len(),
            forall|k: int| 0 <= k < all@.len() ==> #[trigger] all@[k] < rows@.len(),
            text::texts(ids@) == ids_at(rows@, all@).take(i as int),
        decreases all@.len() - i,
    {
        let ghost before = ids@;
        ids.push(rows[all[i]].id.clone());
        i += 1;
        proof {
            assert(text::texts(ids@) == text::texts(before).push(rows@[all@[i - 1] as int].id@));
            assert(ids_at(rows@, all@).take(i as int) == ids_at(rows@, all@).take(i - 1).push(
                ids_at(rows@, all@)[i - 1],
            ));
        }
    }
    proof {
        assert(ids_at(rows@, all@).take(i as int) == ids_at(rows@, all@));
        assert(text::texts(ids@).len() == ids@.len());
    }
    let w = resolve_episode_window(ids.as_slice(), start_index, start_item_id, limit);
    let mut items: Vec<usize> = Vec::new();
    let mut k: usize = w.start;
    while k < w.end
        invariant
            w.start <= k <= w.end <= all@.len(),
            items@ == all@.subrange(w.start as int, k as int),
        decreases w.end - k,
    {
        items.push(all[k]);
        k += 1;
        proof {
            assert(all@.subrange(w.start as int, k as int) == all@.subrange(
                w.start as int,
                k - 1,
            ).push(all@[k - 1]));
        }
    }
    proof {
        assert(episode_list(all@, rows@, series_id@, browse::opt_str(season_id)));
    }
    EpisodePage { items, total: all.len(), start: w.start }
}

// -------------------------------------------------------------------- next up

/// Whether a row is an episode that could come next: not played, and of the
/// series that is asked for, if one is.
pub open spec fn could_be_next(row: EpisodeRow, series_id: Option<Seq<char>>) -> bool {
    &&& row.kind == MediaKind::Episode
    &&& row.series is Some
    &&& !row.played
    &&& series_id is Some ==> row.series->0.series_id@ == series_id->0
}

/// Whether an episode is the next of its series: no other that could be comes
/// before it.
pub open spec fn is_next(rows: Seq<EpisodeRow>, series_id: Option<Seq<char>>, k: int) -> bool {
    &&& 0 <= k < rows.len()
    &&& could_be_next(rows[k], series_id)
    &&& forall|j: int|
        0 <= j < rows.len() && could_be_next(#[trigger] rows[j], series_id)
            && rows[j].series->0.key@ == rows[k].series->0.key@ && j != k ==> sort::key_before(
            place_keys(rows),
            k,
            j,
        )
}

pub open spec fn series_names(rows: Seq<EpisodeRow>) -> spec_fn(int) -> Seq<int> {
    |i: int| sort::text_key(rows[i].series->0.name@)
}

/// Whether `r` is the next episode of each series, by the series' names.
pub open spec fn next_list(
    r: Seq<usize>,
    rows: Seq<EpisodeRow>,
    series_id: Option<Seq<char>>,
) -> bool {
    &&& forall|k: usize| #[trigger] r.contains(k) <==> is_next(rows, series_id, k as int)
    &&& forall|i: int, j: int|
        0 <= i < j < r.len() ==> sort::key_before(
            series_names(rows),
            #[trigger] r[i] as int,
            #[trigger] r[j] as int,
        )
}

fn may_be_next(row: &EpisodeRow, series_id: Option<&str>) -> (r: bool)
    ensures
        r == could_be_next(*row, browse::opt_str(series_id)),
{
    if !matches!(row.kind, MediaKind::Episode) || row.played {
        return false;
    }
    match &row.series {
        Some(s) => match series_id {
            Some(want) => eq_text(s.series_id.as_str(), want),
            None => true,
        },
        None => false,
    }
}

/// Whether episode `j` is of the series of episode `k` and comes before it.
fn goes_before(rows: &Vec<EpisodeRow>, j: usize, k: usize) -> (r: bool)
    requires
        j < rows@.len(),
        k < rows@.len(),
        rows@[j as int].series is Some,
        rows@[k as int].series is Some,
        j != k,
    ensures
        r == (rows@[j as int].series->0.key@ == rows@[k as int].series->0.key@
            && !sort::key_before(place_keys(rows@), k as int, j as int)),
{
    match (&rows[j].series, &rows[k].series) {
        (Some(a), Some(b)) => {
            if !eq_text(a.key.as_str(), b.key.as_str()) {
                return false;
            }
            let kj = key_of_place(&rows[j]);
            let kk = key_of_place(&rows[k]);
            proof {
                sort::lemma_lex_strict(sort::key_view(kj@), sort::key_view(kk@));
            }
            !(sort::lex_before(&kk, &kj) || (!sort::lex_before(&kj, &kk) && k < j))
        },
        _ => false,
    }
}

fn is_next_up(rows: &Vec<EpisodeRow>, series_id: Option<&str>, k: usize) -> (r: bool)
    requires
        k < rows@.len(),
    ensures
        r == is_next(rows@, browse::opt_str(series_id), k as int),
{
    if !may_be_next(&rows[k], series_id) {
        return false;
    }
    let mut j: usize = 0;
    while j < rows.len()
        invariant
            j <= rows@.len(),
            k < rows@.len(),
            could_be_next(rows@[k as int], browse::opt_str(series_id)),
            forall|i: int|
                0 <= i < j && could_be_next(#[trigger] rows@[i], browse::opt_str(series_id))
                    && rows@[i].series->0.key@ == rows@[k as int].series->0.key@ && i != k
                    ==> sort::key_before(place_keys(rows@), k as int, i),
        decreases rows@.len() - j,
    {
        if j != k && may_be_next(&rows[j], series_id) && goes_before(rows, j, k) {
            return false;
        }
        j += 1;
    }
    true
}

/// What to watch next: of each series the first episode that is not played, by
/// the series' names, at most `limit` of them and at least one.
pub fn shows_next_up(rows: &Vec<EpisodeRow>, series_id: Option<&str>, limit: u32) -> (r: Vec<usize>)
    ensures
        exists|all: Seq<usize>|
            {
                &&& #[trigger] next_list(all, rows@, browse::opt_str(series_id))
                &&& r@ == seqs::page(
                    all,
                    0,
                    if limit == 0 {
                        1
                    } else {
                        limit as int
                    },
                )
            },
{
    let ghost series = browse::opt_str(series_id);
    let mut chosen: Vec<usize> = Vec::new();
    let mut keys: Vec<Vec<i64>> = Vec::new();
    let mut i: usize = 0;
    while i < rows.len()
        invariant
            i <= rows@.len(),
            series == browse::opt_str(series_id),
            keys@.len() == chosen@.len(),
            forall|k: usize| #[trigger]
                chosen@.contains(k) <==> k < i && is_next(rows@, series, k as int),
            forall|a: int, b: int|
                0 <= a < b < chosen@.len() ==> #[trigger] chosen@[a] < #[trigger] chosen@[b],
            forall|a: int| 0 <= a < chosen@.len() ==> #[trigger] chosen@[a] < i,
            forall|a: int|
                0 <= a < chosen@.len() ==> sort::key_view((#[trigger] keys@[a])@) == series_names(
                    rows@,
                )(chosen@[a] as int),
        decreases rows@.len() - i,
    {
        if is_next_up(rows, series_id, i) {
            if let Some(s) = &rows[i].series {
                let ghost before = chosen@;
                chosen.push(i);
                keys.push(key_of_text(s.name.as_str()));
                proof {
                    sort::lemma_pushed(before, i);
                }
            }
        }
        i += 1;
    }
    let all = arrange(&chosen, &keys, Ghost(series_names(rows@)));
    proof {
        assert(next_list(all@, rows@, series));
    }
    let take: u32 = if limit == 0 {
        1
    } else {
        limit
    };
    cut_page(&all, 0, take)
}

// -------------------------------------------------------------------- seasons

/// The season that a row stands for in the list of a series' seasons.
pub open spec fn season_key(row: EpisodeRow, series_id: Seq<char>) -> Option<Seq<int>> {
    if of_series(row, series_id) && row.series->0.season_number is Some {
        Some(seq![row.series->0.season_number->0 as int])
    } else {
        None
    }
}

pub open spec fn season_keys(rows: Seq<EpisodeRow>, series_id: Seq<char>) -> Seq<
    Option<Seq<int>>,
> {
    Seq::new(rows.len(), |i: int| season_key(rows[i], series_id))
}

/// Whether `r` is the first episode of each season of a series, by number.
pub open spec fn season_list(r: Seq<usize>, rows: Seq<EpisodeRow>, series_id: Seq<char>) -> bool {
    &&& forall|k: usize| #[trigger]
        r.contains(k) <==> sort::is_first(season_keys(rows, series_id), k as int)
    &&& forall|i: int, j: int|
        0 <= i < j < r.len() ==> rows[#[trigger] r[i] as int].series->0.season_number->0
            < rows[#[trigger] r[j] as int].series->0.season_number->0
}

/// The keys at the positions that are first of theirs.
fn keys_at(keys: &Vec<Option<Vec<i64>>>, at: &Vec<usize>) -> (r: Vec<Vec<i64>>)
    requires
        forall|i: int|
            0 <= i < at@.len() ==> #[trigger] at@[i] < keys@.len() && sort::opt_keys(
                keys@,
            )[at@[i] as int] is Some,
    ensures
        r@.len() == at@.len(),
        forall|i: int|
            0 <= i < at@.len() ==> sort::key_view((#[trigger] r@[i])@) == sort::opt_keys(
                keys@,
            )[at@[i] as int]->0,
{
    let mut out: Vec<Vec<i64>> = Vec::new();
    let mut i: usize = 0;
    while i < at.len()
        invariant
            i <= at@.len(),
            out@.len() == i,
            forall|i: int|
                0 <= i < at@.len() ==> #[trigger] at@[i] < keys@.len() && sort::opt_keys(
                    keys@,
                )[at@[i] as int] is Some,
            forall|k: int|
                0 <= k < i ==> sort::key_view((#[trigger] out@[k])@) == sort::opt_keys(
                    keys@,
                )[at@[k] as int]->0,
        decreases at@.len() - i,
    {
        proof {
            assert(at@[i as int] < keys@.len());
        }
        let mut key: Vec<i64> = Vec::new();
        if let Some(k) = &keys[at[i]] {
            let mut j: usize = 0;
            while j < k.len()
                invariant
                    j <= k@.len(),
                    key@ == k@.take(j as int),
                decreases k@.len() - j,
            {
                key.push(k[j]);
                j += 1;
                proof {
                    assert(k@.take(j as int) == k@.take(j - 1).push(k@[j - 1]));
                }
            }
            proof {
                assert(k@.take(j as int) == k@);
            }
        }
        out.push(key);
        i += 1;
    }
    out
}

pub open spec fn key_at(keys: Seq<Option<Seq<int>>>) -> spec_fn(int) -> Seq<int> {
    |i: int| keys[i]->0
}

/// The first row of each key, in the order of the keys.
pub(crate) fn firsts_in_order(keys: &Vec<Option<Vec<i64>>>) -> (r: Vec<usize>)
    ensures
        forall|k: usize| #[trigger]
            r@.contains(k) <==> sort::is_first(sort::opt_keys(keys@), k as int),
        forall|i: int, j: int|
            0 <= i < j < r@.len() ==> sort::lex_lt(
                sort::opt_keys(keys@)[#[trigger] r@[i] as int]->0,
                sort::opt_keys(keys@)[#[trigger] r@[j] as int]->0,
            ),
        forall|i: int| 0 <= i < r@.len() ==> #[trigger] r@[i] < keys@.len(),
{
    let ghost views = sort::opt_keys(keys@);
    let chosen = first_positions(keys);
    proof {
        assert forall|i: int| 0 <= i < chosen@.len() implies #[trigger] chosen@[i] < keys@.len()
            && views[chosen@[i] as int] is Some by {
            assert(chosen@.contains(chosen@[i]));
        }
    }
    let at = keys_at(keys, &chosen);
    let r = arrange(&chosen, &at, Ghost(key_at(views)));
    proof {
        assert forall|i: int| 0 <= i < r@.len() implies #[trigger] r@[i] < keys@.len() by {
            assert(r@.contains(r@[i]));
        }
        assert forall|k: usize| #[trigger] r@.contains(k) <==> sort::is_first(
            views,
            k as int,
        ) by {
            assert(r@.contains(k) <==> chosen@.contains(k));
        }
        assert forall|i: int, j: int| 0 <= i < j < r@.len() implies sort::lex_lt(
            views[#[trigger] r@[i] as int]->0,
            views[#[trigger] r@[j] as int]->0,
        ) by {
            let a = r@[i] as int;
            let b = r@[j] as int;
            assert(r@.contains(r@[i]) && r@.contains(r@[j]));
            assert(sort::is_first(views, a) && sort::is_first(views, b));
            assert(sort::key_before(key_at(views), a, b));
            if views[a]->0 == views[b]->0 {
                assert(views[a] == views[b]);
            }
        }
    }
    r
}

/// The seasons of a series: for each the first of its episodes, by number.
pub fn shows_seasons(rows: &Vec<EpisodeRow>, series_id: &str) -> (r: Vec<usize>)
    ensures
        season_list(r@, rows@, series_id@),
        forall|i: int| 0 <= i < r@.len() ==> #[trigger] r@[i] < rows@.len(),
{
    let mut keys: Vec<Option<Vec<i64>>> = Vec::new();
    let mut i: usize = 0;
    while i < rows.len()
        invariant
            i <= rows@.len(),
            sort::opt_keys(keys@) == season_keys(rows@, series_id@).take(i as int),
        decreases rows@.len() - i,
    {
        let ghost before = keys@;
        let mut key: Option<Vec<i64>> = None;
        if is_of_series(&rows[i], series_id) {
            if let Some(s) = &rows[i].series {
                if let Some(n) = s.season_number {
                    let k: Vec<i64> = vec![n as i64];
                    proof {
                        assert(sort::key_view(k@) == seq![n as int]);
                    }
                    key = Some(k);
                }
            }
        }
        keys.push(key);
        i += 1;
        proof {
            let wanted = season_keys(rows@, series_id@);
            assert(sort::opt_keys(keys@) == sort::opt_keys(before).push(wanted[i - 1]));
            assert(wanted.take(i as int) == wanted.take(i - 1).push(wanted[i - 1]));
        }
    }
    let ghost views = season_keys(rows@, series_id@);
    proof {
        assert(views.take(i as int) == views);
        assert(sort::opt_keys(keys@).len() == keys@.len());
    }
    let r = firsts_in_order(&keys);
    proof {
        assert forall|i: int, j: int|
            0 <= i < j
                < r@.len() implies rows@[#[trigger] r@[i] as int].series->0.season_number->0
            < rows@[#[trigger] r@[j] as int].series->0.season_number->0 by {
            assert(r@.contains(r@[i]) && r@.contains(r@[j]));
            let a = r@[i] as int;
            let b = r@[j] as int;
            assert(sort::is_first(views, a) && sort::is_first(views, b));
            assert(sort::lex_lt(views[a]->0, views[b]->0));
            assert(views[a]->0.subrange(1, 1) == Seq::<int>::empty());
            assert(views[b]->0.subrange(1, 1) == Seq::<int>::empty());
            assert(!sort::lex_lt(Seq::<int>::empty(), Seq::<int>::empty()));
            assert(views[a] == season_key(rows@[a], series_id@));
            assert(views[b] == season_key(rows@[b], series_id@));
        }
    }
    r
}

/// What an id names among the series and seasons, with the row that says so.
#[derive(Debug, Clone, Copy, PartialEq, Eq, Structural)]
pub enum ShowItem {
    Series(usize),
    Season(usize),
}

pub open spec fn names_series(rows: Seq<EpisodeRow>, id: Seq<char>, k: int) -> bool {
    0 <= k < rows.len() && rows[k].series is Some && rows[k].series->0.series_id@ == id
}

pub open spec fn names_season(rows: Seq<EpisodeRow>, id: Seq<char>, k: int) -> bool {
    &&& 0 <= k < rows.len()
    &&& rows[k].series is Some
    &&& rows[k].series->0.season_number is Some
    &&& text::opt_text(rows[k].series->0.season_id) == Some(id)
}

/// What an id names among the series and, if none of them, the seasons. The
/// first row that says so speaks for it.
pub fn synth_series_or_season(rows: &Vec<EpisodeRow>, id: &str) -> (r: Option<ShowItem>)
    ensures
        match r {
            Some(ShowItem::Series(k)) => names_series(rows@, id@, k as int) && forall|j: int|
                0 <= j < k ==> !#[trigger] names_series(rows@, id@, j),
            Some(ShowItem::Season(k)) => {
                &&& forall|j: int| !#[trigger] names_series(rows@, id@, j)
                &&& names_season(rows@, id@, k as int)
                &&& forall|j: int| 0 <= j < k ==> !#[trigger] names_season(rows@, id@, j)
            },
            None => {
                &&& forall|j: int| !#[trigger] names_series(rows@, id@, j)
                &&& forall|j: int| !#[trigger] names_season(rows@, id@, j)
            },
        },
{
    let mut i: usize = 0;
    while i < rows.len()
        invariant
            i <= rows@.len(),
            forall|j: int| 0 <= j < i ==> !#[trigger] names_series(rows@, id@, j),
        decreases rows@.len() - i,
    {
        if let Some(s) = &rows[i].series {
            if eq_text(s.series_id.as_str(), id) {
                return Some(ShowItem::Series(i));
            }
        }
        i += 1;
    }
    let mut k: usize = 0;
    while k < rows.len()
        invariant
            k <= rows@.len(),
            forall|j: int| !#[trigger] names_series(rows@, id@, j),
            forall|j: int| 0 <= j < k ==> !#[trigger] names_season(rows@, id@, j),
        decreases rows@.len() - k,
    {
        if let Some(s) = &rows[k].series {
            if s.season_number.is_some() {
                if let Some(sid) = &s.season_id {
                    if eq_text(sid.as_str(), id) {
                        return Some(ShowItem::Season(k));
                    }
                }
            }
        }
        k += 1;
    }
    None
}

// ---------------------------------------------------------------- show folders

/// The folders that a list of types may ask for.
#[derive(Debug, Clone, Copy, PartialEq, Eq, Structural)]
pub enum ShowFolderKind {
    Series,
    Season,
}

/// The folders that a list of types asks for: the list names series and
/// seasons only, and where it names both, seasons.
pub open spec fn show_kind(types: Option<Seq<char>>) -> Option<ShowFolderKind> {
    match types {
        Some(t) => {
            let names = text::csv(t);
            if names.len() == 0 || exists|i: int|
                0 <= i < names.len() && !text::eq_ci(#[trigger] names[i], "series"@)
                    && !text::eq_ci(names[i], "season"@) {
                None
            } else if exists|i: int| 0 <= i < names.len() && text::eq_ci(
                #[trigger] names[i],
                "season"@,
            ) {
                Some(ShowFolderKind::Season)
            } else {
                Some(ShowFolderKind::Series)
            }
        },
        None => None,
    }
}

/// The folders of a show that a list request asks for.
pub fn virtual_show_kind(include_item_types: Option<&str>) -> (r: Option<ShowFolderKind>)
    ensures
        r == show_kind(browse::opt_str(include_item_types)),
{
    match include_item_types {
        Some(t) => {
            let names = csv_entries(t);
            let ghost views = text::csv(t@);
            proof {
                assert(text::texts(names@).len() == names@.len());
            }
            if names.len() == 0 {
                return None;
            }
            let mut season: bool = false;
            let mut i: usize = 0;
            while i < names.len()
                invariant
                    i <= names@.len(),
                    names@.len() == views.len(),
                    views == text::csv(t@),
                    include_item_types == Some(t),
                    text::texts(names@) == views,
                    forall|k: int|
                        0 <= k < i ==> text::eq_ci(#[trigger] views[k], "series"@) || text::eq_ci(
                            views[k],
                            "season"@,
                        ),
                    season == exists|k: int|
                        0 <= k < i && text::eq_ci(#[trigger] views[k], "season"@),
                decreases names@.len() - i,
            {
                proof {
                    assert(text::texts(names@)[i as int] == names@[i as int]@);
                    assert(views[i as int] == names@[i as int]@);
                }
                if eq_ignore_case(names[i].as_str(), "season") {
                    season = true;
                } else if !eq_ignore_case(names[i].as_str(), "series") {
                    return None;
                }
                i += 1;
            }
            if season {
                Some(ShowFolderKind::Season)
            } else {
                Some(ShowFolderKind::Series)
            }
        },
        None => None,
    }
}

/// Whether a name falls under a letter, given the name in lower case too: it
/// starts with the letter in whatever case, and `#` stands for every name whose
/// first character is no ASCII letter.
pub open spec fn falls_under(name: Seq<char>, lowered: Seq<char>, letter: Seq<char>) -> bool {
    if letter == "#"@ {
        !(name.len() > 0 && text::is_alpha(name[0]))
    } else {
        text::starts_with(lowered, letter)
    }
}

/// Whether a name falls under a letter. White space before the name does not
/// count.
pub open spec fn under_letter(name: Seq<char>, letter: Seq<char>) -> bool {
    let start = text::trim_start(name);
    falls_under(start, text::unicode_lower(start), letter)
}

fn char_is_alpha(c: char) -> (r: bool)
    ensures
        r == text::is_alpha(c),
{
    ('a' <= c && c <= 'z') || ('A' <= c && c <= 'Z')
}

/// Whether a name falls under a letter, given the name in lower case too.
pub fn lowered_matches_letter(name: &str, lowered: &str, prefix_lower: &str) -> (r: bool)
    ensures
        r == falls_under(name@, lowered@, prefix_lower@),
{
    if eq_text(prefix_lower, "#") {
        let v = chars_of(name);
        !(v.len() > 0 && char_is_alpha(v[0]))
    } else {
        has_prefix(lowered, prefix_lower)
    }
}

/// Whether a name falls under a letter, which is in lower case. White space
/// before the name does not count.
pub fn name_matches_letter(name: &str, prefix_lower: &str) -> (r: bool)
    ensures
        r == under_letter(name@, prefix_lower@),
{
    let start = trimmed_start(name);
    let lowered = to_unicode_lower(start.as_str());
    lowered_matches_letter(start.as_str(), lowered.as_str(), prefix_lower)
}

/// The letter that a list is narrowed to.
pub open spec fn letter_of(starts: Option<Seq<char>>, or_greater: Option<Seq<char>>) -> Option<
    Seq<char>,
> {
    let given = if starts is Some {
        starts
    } else {
        or_greater
    };
    match given {
        Some(s) => if text::unicode_lower(s).len() > 0 {
            Some(text::unicode_lower(s))
        } else {
            None
        },
        None => None,
    }
}

/// The letter that a list is limited to, in lower case.
pub fn letter_prefix(q: &ListQuery) -> (r: Option<String>)
    ensures
        text::opt_text(r) == letter_of(
            text::opt_text(q.name_starts_with),
            text::opt_text(q.name_starts_with_or_greater),
        ),
{
    let given: &Option<String> = if q.name_starts_with.is_some() {
        &q.name_starts_with
    } else {
        &q.name_starts_with_or_greater
    };
    match given {
        Some(s) => {
            let l = to_unicode_lower(s.as_str());
            if l.as_str().is_empty() {
                None
            } else {
                Some(l)
            }
        },
        None => None,
    }
}

/// What a show folder is told apart and sorted by: a series by its name in
/// lower case and its id, a season by its number. Only those of a series that is
/// asked for are shown.
pub open spec fn folder_key(row: EpisodeRow, kind: ShowFolderKind, wanted: bool) -> Option<
    Seq<int>,
> {
    match row.series {
        Some(s) => if !wanted {
            None
        } else {
            match kind {
                ShowFolderKind::Series => Some(
                    sort::text_key(text::lower(s.name@) + seq!['\0'] + s.series_id@),
                ),
                ShowFolderKind::Season => match s.season_number {
                    Some(n) => Some(seq![n as int]),
                    None => None,
                },
            }
        },
        None => None,
    }
}

pub open spec fn folder_keys(
    rows: Seq<EpisodeRow>,
    kind: ShowFolderKind,
    wanted: Seq<bool>,
) -> Seq<Option<Seq<int>>> {
    Seq::new(rows.len(), |i: int| folder_key(rows[i], kind, wanted[i]))
}

/// Whether `r` is the first episode of each folder, by the folders' keys.
pub open spec fn folder_list(
    r: Seq<usize>,
    rows: Seq<EpisodeRow>,
    kind: ShowFolderKind,
    wanted: Seq<bool>,
) -> bool {
    let keys = folder_keys(rows, kind, wanted);
    &&& forall|k: usize| #[trigger] r.contains(k) <==> sort::is_first(keys, k as int)
    &&& forall|i: int, j: int|
        0 <= i < j < r.len() ==> sort::lex_lt(
            keys[#[trigger] r[i] as int]->0,
            keys[#[trigger] r[j] as int]->0,
        )
}

fn key_of_folder(row: &EpisodeRow, kind: ShowFolderKind, wanted: bool) -> (r: Option<Vec<i64>>)
    ensures
        match r {
            Some(k) => folder_key(*row, kind, wanted) == Some(sort::key_view(k@)),
            None => folder_key(*row, kind, wanted) is None,
        },
{
    if !wanted {
        return None;
    }
    match &row.series {
        Some(s) => match kind {
            ShowFolderKind::Series => {
                let mut t = to_lower(s.name.as_str());
                t.push('\0');
                t.append(s.series_id.as_str());
                proof {
                    assert(t@ == text::lower(s.name@) + seq!['\0'] + s.series_id@);
                }
                Some(key_of_text(t.as_str()))
            },
            ShowFolderKind::Season => match s.season_number {
                Some(n) => {
                    let k: Vec<i64> = vec![n as i64];
                    proof {
                        assert(sort::key_view(k@) == seq![n as int]);
                    }
                    Some(k)
                },
                None => None,
            },
        },
        None => None,
    }
}

/// The folders that a set of episodes makes. `wanted` says for each episode
/// whether its series is asked for.
pub fn collapse_shows(
    rows: &Vec<EpisodeRow>,
    kind: ShowFolderKind,
    wanted: &Vec<bool>,
) -> (r: Vec<usize>)
    requires
        wanted@.len() == rows@.len(),
    ensures
        folder_list(r@, rows@, kind, wanted@),
{
    let mut keys: Vec<Option<Vec<i64>>> = Vec::new();
    let ghost views = folder_keys(rows@, kind, wanted@);
    let mut i: usize = 0;
    while i < rows.len()
        invariant
            i <= rows@.len(),
            wanted@.len() == rows@.len(),
            views == folder_keys(rows@, kind, wanted@),
            sort::opt_keys(keys@) == views.take(i as int),
        decreases rows@.len() - i,
    {
        let ghost before = keys@;
        keys.push(key_of_folder(&rows[i], kind, wanted[i]));
        i += 1;
        proof {
            assert(sort::opt_keys(keys@) == sort::opt_keys(before).push(views[i - 1]));
            assert(views.take(i as int) == views.take(i - 1).push(views[i - 1]));
        }
    }
    proof {
        assert(views.take(i as int) == views);
    }
    firsts_in_order(&keys)
}

/// Which episodes are of a series under the letter.
pub open spec fn letter_flags(rows: Seq<EpisodeRow>, letter: Option<Seq<char>>) -> Seq<bool> {
    Seq::new(
        rows.len(),
        |i: int|
            match (letter, rows[i].series) {
                (Some(l), Some(s)) => under_letter(s.name@, l),
                _ => true,
            },
    )
}

/// A row, turned round where that is asked for.
pub open spec fn turned(s: Seq<usize>, descending: bool) -> Seq<usize> {
    if descending {
        s.reverse()
    } else {
        s
    }
}

/// Whether a request wants a list of folders turned round.
pub open spec fn turns(order: Option<Seq<char>>) -> bool {
    order is Some && text::eq_ci(order->0, "Descending"@)
}

/// A page of the series or seasons that a set of episodes makes.
pub fn list_virtual_shows(rows: &Vec<EpisodeRow>, kind: ShowFolderKind, q: &ListQuery) -> (r:
    EpisodePage)
    ensures
        exists|all: Seq<usize>|
            {
                &&& #[trigger] folder_list(
                    all,
                    rows@,
                    kind,
                    letter_flags(
                        rows@,
                        letter_of(
                            text::opt_text(q.name_starts_with),
                            text::opt_text(q.name_starts_with_or_greater),
                        ),
                    ),
                )
                &&& r.total == all.len()
                &&& r.items@ == seqs::page(
                    turned(all, turns(text::opt_text(q.sort_order))),
                    q.start_index as int,
                    q.limit as int,
                )
            },
        r.start == q.start_index,
{
    let letter = letter_prefix(q);
    let ghost views = letter_flags(rows@, text::opt_text(letter));
    let mut wanted: Vec<bool> = Vec::new();
    let mut i: usize = 0;
    while i < rows.len()
        invariant
            i <= rows@.len(),
            views == letter_flags(rows@, text::opt_text(letter)),
            wanted@ == views.take(i as int),
        decreases rows@.len() - i,
    {
        let ok: bool = match (&letter, &rows[i].series) {
            (Some(l), Some(s)) => name_matches_letter(s.name.as_str(), l.as_str()),
            _ => true,
        };
        wanted.push(ok);
        i += 1;
        proof {
            assert(views.take(i as int) == views.take(i - 1).push(views[i - 1]));
        }
    }
    proof {
        assert(views.take(i as int) == views);
    }
    let all = collapse_shows(rows, kind, &wanted);
    let descending: bool = match &q.sort_order {
        Some(o) => eq_ignore_case(o.as_str(), "Descending"),
        None => false,
    };
    proof {
        assert(folder_list(all@, rows@, kind, wanted@));
    }
    let total: usize = all.len();
    let list: Vec<usize> = if descending {
        reversed(&all)
    } else {
        all
    };
    EpisodePage {
        items: cut_page(&list, q.start_index, q.limit),
        total,
        start: q.start_index as usize,
    }
}

/// A row from its end to its start.
pub fn reversed(v: &Vec<usize>) -> (r: Vec<usize>)
    ensures
        r@ == v@.reverse(),
{
    let mut out: Vec<usize> = Vec::new();
    let n: usize = v.len();
    let mut i: usize = n;
    while i > 0
        invariant
            i <= n,
            n == v@.len(),
            out@ == v@.reverse().take(n - i),
        decreases i,
    {
        i -= 1;
        out.push(v[i]);
        proof {
            assert(v@.reverse().take(n - i) == v@.reverse().take(n - i - 1).push(
                v@.reverse()[n - i - 1],
            ));
        }
    }
    proof {
        assert(v@.reverse().take(n as int) == v@.reverse());
    }
    out
}

/// What is done with a request that may ask for series or seasons.
pub enum ShowsPlan {
    /// It asks for something else.
    NotShows,
    /// The parent names nothing: an empty page.
    Nothing,
    /// The episodes that the folders are made of.
    Ask(ShowFolderKind, MediaQuery),
}

/// Whether a query is for all the episodes that a request covers, whatever
/// their titles: a letter is about the series.
pub open spec fn episode_query(
    mq: MediaQuery,
    user_id: Seq<char>,
    policy: UserPolicy,
    allowed: Seq<Seq<char>>,
    q: ListQuery,
    parent: ParentResolution,
) -> bool {
    &&& mq.kinds@ == seq![MediaKind::Episode]
    &&& mq.sort@.len() == 0
    &&& mq.filters.name_starts_with is None
    &&& exists|base: MediaQuery|
        {
            &&& #[trigger] browse::query_for(base, user_id, q, parent, true)
            &&& browse::scoped(base, policy, allowed)
            &&& mq == (MediaQuery {
                kinds: mq.kinds,
                sort: mq.sort,
                filters: MediaFilters { name_starts_with: None, ..base.filters },
                ..base
            })
        }
}

/// Plans a request that may ask for series or seasons.
pub fn maybe_list_virtual_shows(
    user_id: &str,
    policy: &UserPolicy,
    allowed_ratings: &Vec<String>,
    q: &ListQuery,
    parent: ParentResolution,
) -> (r: ShowsPlan)
    ensures
        match r {
            ShowsPlan::NotShows => show_kind(text::opt_text(q.include_item_types)) is None,
            ShowsPlan::Nothing => show_kind(text::opt_text(q.include_item_types)) is Some
                && parent is Empty,
            ShowsPlan::Ask(kind, mq) => {
                &&& show_kind(text::opt_text(q.include_item_types)) == Some(kind)
                &&& !(parent is Empty)
                &&& episode_query(
                    mq,
                    user_id@,
                    *policy,
                    text::texts(allowed_ratings@),
                    *q,
                    parent,
                )
            },
        },
{
    let types: Option<&str> = match &q.include_item_types {
        Some(t) => Some(t.as_str()),
        None => None,
    };
    proof {
        assert(browse::opt_str(types) == text::opt_text(q.include_item_types));
    }
    let kind = match virtual_show_kind(types) {
        Some(k) => k,
        None => {
            return ShowsPlan::NotShows;
        },
    };
    if let ParentResolution::Empty = parent {
        return ShowsPlan::Nothing;
    }
    let ghost given = parent;
    let mut mq = build_media_query(user_id, q, parent, true);
    proof {
        assert(text::texts(mq.allowed_library_wire_ids@) == Seq::<Seq<char>>::empty());
    }
    apply_policy_scope(&mut mq, policy, allowed_ratings);
    let ghost base = mq;
    proof {
        assert(browse::query_for(base, user_id@, *q, given, true));
    }
    mq.kinds = vec![MediaKind::Episode];
    mq.sort = Vec::new();
    mq.filters.name_starts_with = None;
    proof {
        assert(mq == (MediaQuery {
            kinds: mq.kinds,
            sort: mq.sort,
            filters: MediaFilters { name_starts_with: None, ..base.filters },
            ..base
        }));
        assert(mq.kinds@ == seq![MediaKind::Episode]);
        assert(episode_query(
            mq,
            user_id@,
            *policy,
            text::texts(allowed_ratings@),
            *q,
            given,
        ));
    }
    ShowsPlan::Ask(kind, mq)
}

// ----------------------------------------------------------------------- laws

/// A page of episodes that starts where the last one stopped goes on from
/// there: nothing is shown twice, nothing is passed over.
pub proof fn law_episode_pages_follow_on(ids: Seq<Seq<char>>, start: u32, limit: u32)
    requires
        limit > 0,
        start + limit <= u32::MAX,
    ensures
        window_end(ids.len() as int, window_start(ids, Some(start), None), Some(limit))
            == window_start(ids, Some((start + limit) as u32), None),
{
}

/// A page of episodes is never empty while there is something from its start
/// on.
pub proof fn law_an_episode_page_moves_on(len: int, start: int, limit: Option<u32>)
    requires
        0 <= start < len,
    ensures
        start < window_end(len, start, limit) <= len,
{
}

/// Each series has one next episode at most.
pub proof fn law_one_next_per_series(
    rows: Seq<EpisodeRow>,
    series_id: Option<Seq<char>>,
    a: int,
    b: int,
)
    requires
        is_next(rows, series_id, a),
        is_next(rows, series_id, b),
        rows[a].series->0.key@ == rows[b].series->0.key@,
    ensures
        a == b,
{
    if a != b {
        assert(could_be_next(rows[a], series_id) && could_be_next(rows[b], series_id));
        assert(sort::key_before(place_keys(rows), a, b));
        assert(sort::key_before(place_keys(rows), b, a));
        sort::lemma_lex_strict(place_key(rows[a]), place_key(rows[b]));
    }
}

/// A series with an episode that is not played has a next one.
pub proof fn law_an_unfinished_series_has_a_next(
    rows: Seq<EpisodeRow>,
    series_id: Option<Seq<char>>,
    k: int,
) -> (next: int)
    requires
        0 <= k < rows.len(),
        could_be_next(rows[k], series_id),
    ensures
        is_next(rows, series_id, next),
        rows[next].series->0.key@ == rows[k].series->0.key@,
{
    lemma_next_below(rows, series_id, k, rows.len() as int)
}

/// The first, among the rows below `n`, of those that could be next in the
/// series of row `k`; `k` itself where there is none.
proof fn lemma_next_below(
    rows: Seq<EpisodeRow>,
    series_id: Option<Seq<char>>,
    k: int,
    n: int,
) -> (next: int)
    requires
        0 <= k < rows.len(),
        0 <= n <= rows.len(),
        could_be_next(rows[k], series_id),
    ensures
        0 <= next < rows.len(),
        could_be_next(rows[next], series_id),
        rows[next].series->0.key@ == rows[k].series->0.key@,
        forall|j: int|
            0 <= j < n && could_be_next(#[trigger] rows[j], series_id)
                && rows[j].series->0.key@ == rows[k].series->0.key@ && j != next
                ==> sort::key_before(place_keys(rows), next, j),
    decreases n,
{
    if n == 0 {
        k
    } else {
        let m = lemma_next_below(rows, series_id, k, n - 1);
        let j = n - 1;
        let keys = place_keys(rows);
        if could_be_next(rows[j], series_id) && rows[j].series->0.key@ == rows[k].series->0.key@
            && j != m && !sort::key_before(keys, m, j) {
            sort::lemma_key_before(keys, m, j, m);
            assert forall|i: int|
                0 <= i < n && could_be_next(#[trigger] rows[i], series_id)
                    && rows[i].series->0.key@ == rows[k].series->0.key@ && i
                    != j implies sort::key_before(keys, j, i) by {
                sort::lemma_key_before(keys, j, m, i);
                if i != m {
                    assert(sort::key_before(keys, m, i));
                    sort::lemma_key_before(keys, m, i, j);
                }
            }
            j
        } else {
            m
        }
    }
}

/// The number of the season that an episode is of, none counting as zero.
pub open spec fn season_of(row: EpisodeRow) -> int {
    if row.series is Some && row.series->0.season_number is Some {
        row.series->0.season_number->0 as int
    } else {
        0
    }
}

/// The number that an episode has in its season, none counting as zero.
pub open spec fn number_of(row: EpisodeRow) -> int {
    if row.series is Some && row.series->0.episode_number is Some {
        row.series->0.episode_number->0 as int
    } else {
        0
    }
}

/// Whether an episode comes before another, or at the same place.
pub open spec fn no_later(a: EpisodeRow, b: EpisodeRow) -> bool {
    season_of(a) < season_of(b) || (season_of(a) == season_of(b) && number_of(a) <= number_of(b))
}

proof fn lemma_place(rows: Seq<EpisodeRow>, i: int, j: int)
    requires
        sort::key_before(place_keys(rows), i, j),
    ensures
        no_later(rows[i], rows[j]),
{
    let a = place_key(rows[i]);
    let b = place_key(rows[j]);
    assert(a =~= seq![season_of(rows[i]), number_of(rows[i])]);
    assert(b =~= seq![season_of(rows[j]), number_of(rows[j])]);
    sort::law_pairs_are_ordered(
        season_of(rows[i]),
        number_of(rows[i]),
        season_of(rows[j]),
        number_of(rows[j]),
    );
    if a == b {
        assert(a[0] == b[0] && a[1] == b[1]);
    }
}

/// The episodes of a series are all listed, and of a season those that say they
/// are of it, season by season and number by number.
pub proof fn law_episodes_are_listed_in_order(
    r: Seq<usize>,
    rows: Seq<EpisodeRow>,
    series_id: Seq<char>,
    season_id: Option<Seq<char>>,
)
    requires
        episode_list(r, rows, series_id, season_id),
    ensures
        forall|k: usize| #[trigger]
            r.contains(k) <==> k < rows.len() && rows[k as int].kind == MediaKind::Episode
                && rows[k as int].series is Some && rows[k as int].series->0.series_id@
                == series_id && (season_id is None || (rows[k as int].series->0.season_number is Some
                && rows[k as int].series->0.season_id is Some
                && rows[k as int].series->0.season_id->0@ == season_id->0)),
        forall|i: int, j: int|
            0 <= i < j < r.len() ==> no_later(
                rows[#[trigger] r[i] as int],
                rows[#[trigger] r[j] as int],
            ),
{
    assert forall|i: int, j: int| 0 <= i < j < r.len() implies no_later(
        rows[#[trigger] r[i] as int],
        rows[#[trigger] r[j] as int],
    ) by {
        lemma_place(rows, r[i] as int, r[j] as int);
    }
}

/// What comes next is an episode that is not played, and no earlier episode of
/// its series is waiting to be played.
pub proof fn law_the_next_is_the_first_unplayed(
    r: Seq<usize>,
    rows: Seq<EpisodeRow>,
    series_id: Option<Seq<char>>,
    k: usize,
    j: int,
)
    requires
        next_list(r, rows, series_id),
        r.contains(k),
    ensures
        k < rows.len(),
        rows[k as int].kind == MediaKind::Episode,
        rows[k as int].series is Some,
        !rows[k as int].played,
        series_id is Some ==> rows[k as int].series->0.series_id@ == series_id->0,
        0 <= j < rows.len() && rows[j].kind == MediaKind::Episode && rows[j].series is Some
            && !rows[j].played && rows[j].series->0.key@ == rows[k as int].series->0.key@ && (
        series_id is None || rows[j].series->0.series_id@ == series_id->0) ==> no_later(
            rows[k as int],
            rows[j],
        ),
{
    assert(is_next(rows, series_id, k as int));
    if 0 <= j < rows.len() && could_be_next(rows[j], series_id) && rows[j].series->0.key@
        == rows[k as int].series->0.key@ && j != k {
        assert(sort::key_before(place_keys(rows), k as int, j));
        lemma_place(rows, k as int, j);
    }
}

/// Every series with an episode that is not played is in the list of what comes
/// next.
pub proof fn law_no_series_is_left_out(
    r: Seq<usize>,
    rows: Seq<EpisodeRow>,
    k: int,
)
    requires
        next_list(r, rows, None),
        rows.len() <= usize::MAX,
        0 <= k < rows.len(),
        rows[k].kind == MediaKind::Episode,
        rows[k].series is Some,
        !rows[k].played,
    ensures
        exists|n: usize|
            #[trigger] r.contains(n) && n < rows.len() && rows[n as int].series is Some
                && rows[n as int].series->0.key@ == rows[k].series->0.key@,
{
    let n = law_an_unfinished_series_has_a_next(rows, None, k);
    assert(r.contains(n as usize));
}

proof fn lemma_first_of(keys: Seq<Option<Seq<int>>>, j: int) -> (f: int)
    requires
        0 <= j < keys.len(),
        keys[j] is Some,
    ensures
        0 <= f <= j,
        keys[f] == keys[j],
        sort::is_first(keys, f),
    decreases j,
{
    if sort::is_first(keys, j) {
        j
    } else {
        let i = choose|i: int| 0 <= i < j && #[trigger] keys[i] == keys[j];
        lemma_first_of(keys, i)
    }
}

/// The seasons of a series are those that its episodes say they are of: each of
/// them is listed, once, and the lower number first.
pub proof fn law_seasons_are_those_of_the_episodes(
    r: Seq<usize>,
    rows: Seq<EpisodeRow>,
    series_id: Seq<char>,
    k: int,
)
    requires
        season_list(r, rows, series_id),
        rows.len() <= usize::MAX,
    ensures
        0 <= k < rows.len() && rows[k].kind == MediaKind::Episode && rows[k].series is Some
            && rows[k].series->0.series_id@ == series_id && rows[k].series->0.season_number is Some
            ==> exists|n: usize|
            #[trigger] r.contains(n) && season_of(rows[n as int]) == season_of(rows[k]),
        forall|n: usize| #[trigger]
            r.contains(n) ==> n < rows.len() && rows[n as int].kind == MediaKind::Episode
                && rows[n as int].series is Some && rows[n as int].series->0.series_id@ == series_id
                && rows[n as int].series->0.season_number is Some,
        forall|i: int, j: int|
            0 <= i < j < r.len() ==> season_of(rows[#[trigger] r[i] as int]) < season_of(
                rows[#[trigger] r[j] as int],
            ),
{
    let keys = season_keys(rows, series_id);
    assert forall|n: usize| #[trigger] r.contains(n) implies n < rows.len() && rows[n as int].kind
        == MediaKind::Episode && rows[n as int].series is Some
        && rows[n as int].series->0.series_id@ == series_id
        && rows[n as int].series->0.season_number is Some by {
        assert(sort::is_first(keys, n as int));
        assert(keys[n as int] == season_key(rows[n as int], series_id));
    }
    assert forall|i: int, j: int| 0 <= i < j < r.len() implies season_of(
        rows[#[trigger] r[i] as int],
    ) < season_of(rows[#[trigger] r[j] as int]) by {
        assert(r.contains(r[i]) && r.contains(r[j]));
    }
    if 0 <= k < rows.len() && rows[k].kind == MediaKind::Episode && rows[k].series is Some
        && rows[k].series->0.series_id@ == series_id && rows[k].series->0.season_number is Some {
        assert(keys[k] == season_key(rows[k], series_id));
        let f = lemma_first_of(keys, k);
        assert(keys[f] == season_key(rows[f], series_id));
        let a = keys[k]->0;
        assert(a[0] == season_of(rows[k]));
        assert(keys[f]->0 == a);
        assert(keys[f]->0[0] == season_of(rows[f]));
        assert(r.contains(f as usize));
    }
}

/// A page of episodes starts at the item that is asked for where the list holds
/// it, and else at the index, and holds as many as are asked for, or what is
/// left.
pub proof fn law_episode_pages(
    ids: Seq<Seq<char>>,
    start: u32,
    want: Seq<char>,
    limit: u32,
)
    ensures
        start <= ids.len() ==> window_start(ids, Some(start), None) == start,
        window_start(ids, None, None) == 0,
        ids.contains(want) ==> 0 <= window_start(ids, Some(start), Some(want)) < ids.len()
            && ids[window_start(ids, Some(start), Some(want))] == want,
        !ids.contains(want) ==> window_start(ids, Some(start), Some(want)) == 0,
        window_end(ids.len() as int, 0, None) == ids.len(),
        0 < limit && limit <= ids.len() ==> window_end(ids.len() as int, 0, Some(limit)) == limit,
        limit > ids.len() ==> window_end(ids.len() as int, 0, Some(limit)) == ids.len(),
{
    lemma_start_at_id(ids, want);
}

proof fn lemma_start_at_id(ids: Seq<Seq<char>>, want: Seq<char>)
    ensures
        ids.contains(want) ==> 0 <= start_at_id(ids, want) < ids.len() && ids[start_at_id(ids, want)]
            == want,
        !ids.contains(want) ==> start_at_id(ids, want) == 0,
    decreases ids.len(),
{
    if ids.contains(want) && ids[0] != want {
        let t = ids.subrange(1, ids.len() as int);
        let i = choose|i: int| 0 <= i < ids.len() && ids[i] == want;
        assert(t[i - 1] == want);
        lemma_start_at_id(t, want);
        assert(ids[1 + start_at_id(t, want)] == t[start_at_id(t, want)]);
    }
}

/// Series alone, or seasons alone, are lists of such folders, in any case of the
/// letters; with seasons among them they are lists of seasons. With any other
/// type among them they are not.
pub proof fn law_which_lists_are_of_folders(t: Seq<char>)
    ensures
        show_kind(Some(t)) == Some(ShowFolderKind::Series) <==> text::csv(t).len() > 0 && forall|
            i: int,
        |
            0 <= i < text::csv(t).len() ==> text::lower(#[trigger] text::csv(t)[i]) == "series"@,
        show_kind(Some(t)) is Some <==> text::csv(t).len() > 0 && forall|i: int|
            0 <= i < text::csv(t).len() ==> text::lower(#[trigger] text::csv(t)[i]) == "series"@
                || text::lower(text::csv(t)[i]) == "season"@,
        show_kind(None) is None,
{
    reveal_strlit("series");
    reveal_strlit("season");
    assert(text::lower("series"@) =~= "series"@);
    assert(text::lower("season"@) =~= "season"@);
    assert("series"@[1] == 'e' && "series"@[2] == 'r' && "season"@[2] == 'a');
}

/// A name falls under `#` where its first character that is not white space is
/// no ASCII letter, and under a letter where it starts with it, in whatever
/// case.
pub proof fn law_names_fall_under_letters(name: Seq<char>, letter: Seq<char>)
    ensures
        letter != "#"@ ==> (under_letter(name, letter) <==> text::starts_with(
            text::unicode_lower(text::trim_start(name)),
            letter,
        )),
        text::trim_start(name).len() == 0 ==> under_letter(name, "#"@),
        text::trim_start(name).len() > 0 ==> (under_letter(name, "#"@) <==> !('a'
            <= text::trim_start(name)[0] <= 'z') && !('A' <= text::trim_start(name)[0] <= 'Z')),
{
}

/// The letter is the one that the client gives, in lower case, under either of
/// its two names.
pub proof fn law_the_letter_of_a_request(starts: Option<Seq<char>>, or_greater: Option<Seq<char>>)
    ensures
        starts is Some && text::unicode_lower(starts->0).len() > 0 ==> letter_of(starts, or_greater)
            == Some(text::unicode_lower(starts->0)),
        starts is None && or_greater is Some && text::unicode_lower(or_greater->0).len() > 0
            ==> letter_of(starts, or_greater) == Some(text::unicode_lower(or_greater->0)),
        starts is None && or_greater is None ==> letter_of(starts, or_greater) is None,
{
}

/// Every series under the letter is shown, and only those; so is every season of
/// such a series. Each stands there once, and seasons by their number.
pub proof fn law_folders_are_those_of_the_episodes(
    r: Seq<usize>,
    rows: Seq<EpisodeRow>,
    kind: ShowFolderKind,
    letter: Option<Seq<char>>,
    k: int,
)
    requires
        folder_list(r, rows, kind, letter_flags(rows, letter)),
        rows.len() <= usize::MAX,
    ensures
        kind == ShowFolderKind::Series && 0 <= k < rows.len() && rows[k].series is Some && (
        letter is None || under_letter(rows[k].series->0.name@, letter->0)) ==> exists|n: usize|
            #[trigger] r.contains(n) && rows[n as int].series is Some && text::lower(
                rows[n as int].series->0.name@,
            ) + seq!['\0'] + rows[n as int].series->0.series_id@ == text::lower(
                rows[k].series->0.name@,
            ) + seq!['\0'] + rows[k].series->0.series_id@,
        kind == ShowFolderKind::Season && 0 <= k < rows.len() && rows[k].series is Some
            && rows[k].series->0.season_number is Some && (letter is None || under_letter(
            rows[k].series->0.name@,
            letter->0,
        )) ==> exists|n: usize|
            #[trigger] r.contains(n) && season_of(rows[n as int]) == season_of(rows[k]),
        forall|n: usize| #[trigger]
            r.contains(n) ==> n < rows.len() && rows[n as int].series is Some && (letter is None
                || under_letter(rows[n as int].series->0.name@, letter->0)),
        kind == ShowFolderKind::Season ==> forall|i: int, j: int|
            0 <= i < j < r.len() ==> season_of(rows[#[trigger] r[i] as int]) < season_of(
                rows[#[trigger] r[j] as int],
            ),
{
    let flags = letter_flags(rows, letter);
    let keys = folder_keys(rows, kind, flags);
    assert forall|n: usize| #[trigger] r.contains(n) implies n < rows.len()
        && rows[n as int].series is Some && (letter is None || under_letter(
        rows[n as int].series->0.name@,
        letter->0,
    )) by {
        assert(sort::is_first(keys, n as int));
        assert(keys[n as int] == folder_key(rows[n as int], kind, flags[n as int]));
    }
    if kind == ShowFolderKind::Season {
        assert forall|i: int, j: int| 0 <= i < j < r.len() implies season_of(
            rows[#[trigger] r[i] as int],
        ) < season_of(rows[#[trigger] r[j] as int]) by {
            let a = r[i] as int;
            let b = r[j] as int;
            assert(r.contains(r[i]) && r.contains(r[j]));
            assert(sort::is_first(keys, a) && sort::is_first(keys, b));
            assert(keys[a] == folder_key(rows[a], kind, flags[a]));
            assert(keys[b] == folder_key(rows[b], kind, flags[b]));
            sort::law_pairs_are_ordered(season_of(rows[a]), 0, season_of(rows[b]), 0);
            assert(keys[a]->0 =~= seq![season_of(rows[a])]);
            assert(keys[b]->0 =~= seq![season_of(rows[b])]);
        }
    }
    if 0 <= k < rows.len() && rows[k].series is Some && (letter is None || under_letter(
        rows[k].series->0.name@,
        letter->0,
    )) && (kind == ShowFolderKind::Series || rows[k].series->0.season_number is Some) {
        assert(keys[k] == folder_key(rows[k], kind, flags[k]));
        assert(flags[k]);
        let f = lemma_first_of(keys, k);
        assert(keys[f] == folder_key(rows[f], kind, flags[f]));
        assert(r.contains(f as usize));
        if kind == ShowFolderKind::Season {
            assert(keys[k]->0[0] == season_of(rows[k]));
            assert(keys[f]->0[0] == season_of(rows[f]));
        } else {
            let x = text::lower(rows[k].series->0.name@) + seq!['\0']
                + rows[k].series->0.series_id@;
            let y = text::lower(rows[f].series->0.name@) + seq!['\0']
                + rows[f].series->0.series_id@;
            assert(sort::text_key(x) == sort::text_key(y));
            assert(x.len() == y.len()) by {
                assert(sort::text_key(x).len() == sort::text_key(y).len());
            }
            assert forall|i: int| 0 <= i < x.len() implies x[i] == y[i] by {
                assert(sort::text_key(x)[i] == sort::text_key(y)[i]);
            }
            assert(x =~= y);
        }
    }
}

/// A list of folders is turned round where a request says so, whatever the case,
/// and stands as it is for any other word or none.
pub proof fn law_lists_of_folders_are_turned(order: Seq<char>)
    ensures
        turns(Some(order)) <==> text::lower(order) == text::lower("Descending"@),
        !turns(None),
{
}

/// The episodes behind a list of shows are those that the request covers: a
/// letter is about the series and narrows no episode, and everything else that
/// the request says of items holds of the episodes.
pub proof fn law_shows_are_made_of_episodes(
    mq: MediaQuery,
    user_id: Seq<char>,
    policy: UserPolicy,
    allowed: Seq<Seq<char>>,
    q: ListQuery,
    parent: ParentResolution,
)
    requires
        episode_query(mq, user_id, policy, allowed, q, parent),
    ensures
        mq.kinds@.contains(MediaKind::Episode),
        forall|k: MediaKind| mq.kinds@.contains(k) ==> k == MediaKind::Episode,
        mq.filters.name_starts_with is None,
        mq.sort@.len() == 0,
        exists|base: MediaQuery|
            #[trigger] browse::query_for(base, user_id, q, parent, true) && browse::scoped(
                base,
                policy,
                allowed,
            ) && mq.filters.name_less_than == base.filters.name_less_than
                && mq.filters.has_subtitles == base.filters.has_subtitles && mq.user_data
                == base.user_data,
{
    assert(mq.kinds@[0] == MediaKind::Episode);
}

} // verus!
