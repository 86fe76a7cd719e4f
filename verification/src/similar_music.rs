//! Albums and artists that resemble one another by what their tracks are
//! tagged with.

use vstd::prelude::*;
use vstd::string::*;
use crate::browse;
use crate::music::{self, aggregate_albums, id_set, list_credits, AlbumAgg, Credit, Track};
use crate::seqs::{self, cut_page};
use crate::sort::{self, first_positions, key_of_text, rank};
use crate::text_sets::{count_common, holds_text, merge_texts};
use crate::text::{self, chars_of, copy_opt, eq_ignore_case, split_on, text_of, to_lower, to_unicode_lower, trimmed};

verus! {

// --------------------------------------------------------------------- genres

/// Whether a character stands between the genres of a tag.
pub open spec fn is_genre_mark(c: char) -> bool {
    c == ',' || c == ';' || c == '/' || c == '|'
}

/// A tag with commas between its genres.
pub open spec fn with_commas(s: Seq<char>) -> Seq<char> {
    Seq::new(s.len(), |i: int| if is_genre_mark(s[i]) { ',' } else { s[i] })
}

/// The genres among the pieces of a tag: trimmed, in lower case, without the
/// empty ones.
pub open spec fn genres_of(pieces: Seq<Seq<char>>) -> Seq<Seq<char>>
    decreases pieces.len(),
{
    if pieces.len() == 0 {
        Seq::empty()
    } else {
        let rest = genres_of(pieces.drop_last());
        let genre = text::unicode_lower(text::trim(pieces.last()));
        if genre.len() > 0 {
            rest.push(genre)
        } else {
            rest
        }
    }
}

/// The genres of a tag.
pub open spec fn genres_in(tag: Option<Seq<char>>) -> Seq<Seq<char>> {
    match tag {
        Some(s) => genres_of(text::split(with_commas(s), ',')),
        None => Seq::empty(),
    }
}

fn commas_for_marks(s: &str) -> (r: String)
    ensures
        r@ == with_commas(s@),
{
    let v = chars_of(s);
    let mut out: Vec<char> = Vec::new();
    let mut i: usize = 0;
    while i < v.len()
        invariant
            i <= v@.len(),
            v@ == s@,
            out@ == with_commas(s@).take(i as int),
        decreases v@.len() - i,
    {
        let c: char = v[i];
        out.push(
            if c == ',' || c == ';' || c == '/' || c == '|' {
                ','
            } else {
                c
            },
        );
        i += 1;
        proof {
            assert(with_commas(s@).take(i as int) == with_commas(s@).take(i - 1).push(
                with_commas(s@)[i - 1],
            ));
        }
    }
    proof {
        assert(with_commas(s@).take(i as int) == with_commas(s@));
    }
    text_of(out.as_slice())
}

/// The genres of a tag.
pub fn genre_tokens(tag: &Option<String>) -> (r: Vec<String>)
    ensures
        text::texts(r@) == genres_in(text::opt_text(*tag)),
{
    let mut out: Vec<String> = Vec::new();
    proof {
        assert(text::texts(out@) == Seq::<Seq<char>>::empty());
    }
    match tag {
        Some(s) => {
            let pieces = split_on(commas_for_marks(s.as_str()).as_str(), ',');
            let ghost all = text::split(with_commas(s@), ',');
            let mut i: usize = 0;
            proof {
                assert(all.take(0) == Seq::<Seq<char>>::empty());
            }
            while i < pieces.len()
                invariant
                    i <= pieces@.len(),
                    all == text::split(with_commas(s@), ','),
                    text::texts(pieces@) == all,
                    text::texts(out@) == genres_of(all.take(i as int)),
                decreases pieces@.len() - i,
            {
                let ghost before = out@;
                proof {
                    assert(text::texts(pieces@)[i as int] == pieces@[i as int]@);
                    assert(all.take(i + 1).drop_last() == all.take(i as int));
                    assert(all.take(i + 1).last() == all[i as int]);
                }
                let piece = trimmed(pieces[i].as_str());
                let genre = to_unicode_lower(piece.as_str());
                if !genre.as_str().is_empty() {
                    out.push(genre);
                    proof {
                        assert(text::texts(out@) == text::texts(before).push(genre@));
                    }
                }
                i += 1;
            }
            proof {
                assert(text::texts(pieces@).len() == pieces@.len());
                assert(all.take(i as int) == all);
            }
            out
        },
        None => out,
    }
}

/// The genres of each track.
pub open spec fn genre_rows(ts: Seq<Track>) -> Seq<Seq<Seq<char>>> {
    Seq::new(ts.len(), |i: int| genres_in(text::opt_text(ts[i].genre)))
}

/// The views of rows of texts.
pub open spec fn row_views(v: Seq<Vec<String>>) -> Seq<Seq<Seq<char>>> {
    Seq::new(v.len(), |i: int| text::texts(v[i]@))
}

/// The genres of each track.
pub fn all_genres(ts: &Vec<Track>) -> (r: Vec<Vec<String>>)
    ensures
        row_views(r@) == genre_rows(ts@),
        r@.len() == ts@.len(),
{
    let mut out: Vec<Vec<String>> = Vec::new();
    let mut i: usize = 0;
    while i < ts.len()
        invariant
            i <= ts@.len(),
            out@.len() == i,
            row_views(out@) == genre_rows(ts@).take(i as int),
        decreases ts@.len() - i,
    {
        let ghost before = out@;
        out.push(genre_tokens(&ts[i].genre));
        i += 1;
        proof {
            assert(row_views(out@) == row_views(before).push(genre_rows(ts@)[i - 1]));
            assert(genre_rows(ts@).take(i as int) == genre_rows(ts@).take(i - 1).push(
                genre_rows(ts@)[i - 1],
            ));
        }
    }
    proof {
        assert(genre_rows(ts@).take(i as int) == genre_rows(ts@));
    }
    out
}

// ------------------------------------------------------------- sets of genres

/// The genres that stand in the first `n` rows that are marked.
pub open spec fn genre_set(rows: Seq<Seq<Seq<char>>>, marked: Seq<bool>, n: int) -> Set<Seq<char>>
    decreases n,
{
    if n <= 0 {
        Set::empty()
    } else if marked[n - 1] {
        genre_set(rows, marked, n - 1).union(rows[n - 1].to_set())
    } else {
        genre_set(rows, marked, n - 1)
    }
}

/// The genres of the marked rows.
pub open spec fn genres_marked(rows: Seq<Seq<Seq<char>>>, marked: Seq<bool>) -> Set<Seq<char>> {
    genre_set(rows, marked, rows.len() as int)
}

/// The genres of the marked rows, each once.
fn collect_genres(rows: &Vec<Vec<String>>, marked: &Vec<bool>) -> (r: Vec<String>)
    requires
        marked@.len() == rows@.len(),
    ensures
        text::texts(r@).no_duplicates(),
        text::texts(r@).to_set() == genres_marked(row_views(rows@), marked@),
{
    let mut out: Vec<String> = Vec::new();
    let mut i: usize = 0;
    proof {
        assert(text::texts(out@).to_set() =~= Set::<Seq<char>>::empty());
    }
    while i < rows.len()
        invariant
            i <= rows@.len(),
            marked@.len() == rows@.len(),
            text::texts(out@).no_duplicates(),
            text::texts(out@).to_set() == genre_set(row_views(rows@), marked@, i as int),
        decreases rows@.len() - i,
    {
        if marked[i] {
            merge_texts(&mut out, &rows[i]);
        }
        i += 1;
    }
    proof {
        assert(row_views(rows@).len() == rows@.len());
    }
    out
}

// --------------------------------------------------------------------- scores

/// How much two albums or artists have in common, as far as a counter goes:
/// fifty for the artist, and twenty for each genre.
pub open spec fn music_score(same_artist: bool, common: int) -> int {
    let n = music::points(same_artist, 50) + 20 * common;
    if n <= u32::MAX {
        n
    } else {
        u32::MAX as int
    }
}

fn score_of(same_artist: bool, common: usize) -> (r: u32)
    ensures
        r == music_score(same_artist, common as int),
{
    if common >= 0x1000_0000 {
        return u32::MAX;
    }
    let n: u64 = (if same_artist {
        50u64
    } else {
        0u64
    }) + 20 * common as u64;
    if n <= u32::MAX as u64 {
        n as u32
    } else {
        u32::MAX
    }
}

// --------------------------------------------------------------------- albums

/// The items of an album, by its name, whatever the case.
pub open spec fn on_album(ts: Seq<Track>, name: Seq<char>) -> Seq<bool> {
    Seq::new(ts.len(), |i: int| music::named_in(text::opt_text(ts[i].album), name))
}

fn mark_album(ts: &Vec<Track>, name: &str) -> (r: Vec<bool>)
    ensures
        r@ == on_album(ts@, name@),
{
    let ghost all = on_album(ts@, name@);
    let mut out: Vec<bool> = Vec::new();
    let mut i: usize = 0;
    while i < ts.len()
        invariant
            i <= ts@.len(),
            all == on_album(ts@, name@),
            out@ == all.take(i as int),
        decreases ts@.len() - i,
    {
        let yes: bool = match &ts[i].album {
            Some(a) => eq_ignore_case(a.as_str(), name),
            None => false,
        };
        out.push(yes);
        i += 1;
        proof {
            assert(all.take(i as int) == all.take(i - 1).push(all[i - 1]));
        }
    }
    proof {
        assert(all.take(i as int) == all);
    }
    out
}

/// The album that is compared with the others.
pub struct AlbumTarget {
    pub name: String,
    pub artist: Option<String>,
}

/// How much an album has in common with the one that is looked at.
pub open spec fn album_score(
    a: AlbumAgg,
    target: AlbumTarget,
    ts: Seq<Track>,
    genres: Seq<Seq<Seq<char>>>,
) -> int {
    music_score(
        music::same_name(text::opt_text(target.artist), text::opt_text(a.album_artist)),
        genres_marked(genres, on_album(ts, a.name@)).intersect(
            genres_marked(genres, on_album(ts, target.name@)),
        ).len() as int,
    )
}

/// Whether an album is offered: another than the one that is looked at, not by
/// an excluded artist, and with something in common.
pub open spec fn album_offered(
    albums: Seq<AlbumAgg>,
    target: AlbumTarget,
    ts: Seq<Track>,
    genres: Seq<Seq<Seq<char>>>,
    excluded: Seq<Seq<char>>,
) -> spec_fn(int) -> bool {
    |i: int|
        {
            &&& !text::eq_ci(albums[i].name@, target.name@)
            &&& !(albums[i].album_artist is Some && music::in_ids(
                excluded,
                text::opt_text(albums[i].album_artist_id),
            ))
            &&& album_score(albums[i], target, ts, genres) > 0
        }
}

/// What the offered albums are ordered by: the most in common first, and then
/// by name.
pub open spec fn album_rank(
    albums: Seq<AlbumAgg>,
    lowered: Seq<Seq<char>>,
    target: AlbumTarget,
    ts: Seq<Track>,
    genres: Seq<Seq<Seq<char>>>,
) -> spec_fn(int) -> Seq<int> {
    |i: int|
        seq![0 - album_score(albums[i], target, ts, genres)] + sort::text_key(lowered[i])
}

fn is_excluded(excluded: &Vec<String>, a: &AlbumAgg) -> (r: bool)
    ensures
        r == (a.album_artist is Some && music::in_ids(
            text::texts(excluded@),
            text::opt_text(a.album_artist_id),
        )),
{
    match &a.album_artist_id {
        Some(id) => a.album_artist.is_some() && holds_text(excluded, to_lower(id.as_str()).as_str()),
        None => false,
    }
}

/// The albums similar to one, given the genres of the tracks and the albums'
/// names in lower case.
pub fn similar_albums(
    albums: &Vec<AlbumAgg>,
    lowered: &Vec<String>,
    target: &AlbumTarget,
    ts: &Vec<Track>,
    genres: &Vec<Vec<String>>,
    excluded: &Vec<String>,
    limit: u32,
) -> (r: Vec<usize>)
    requires
        lowered@.len() == albums@.len(),
        genres@.len() == ts@.len(),
    ensures
        exists|all: Seq<usize>|
            #[trigger] sort::ranked(
                all,
                albums@.len() as int,
                album_offered(
                    albums@,
                    *target,
                    ts@,
                    row_views(genres@),
                    text::texts(excluded@),
                ),
                album_rank(albums@, text::texts(lowered@), *target, ts@, row_views(genres@)),
            ) && r@ == seqs::page(all, 0, limit as int),
{
    let ghost rows = row_views(genres@);
    let ghost wanted = album_offered(albums@, *target, ts@, rows, text::texts(excluded@));
    let ghost key = album_rank(albums@, text::texts(lowered@), *target, ts@, rows);
    let theirs = collect_genres(genres, &mark_album(ts, target.name.as_str()));
    let mut keys: Vec<Option<Vec<i64>>> = Vec::new();
    let mut i: usize = 0;
    while i < albums.len()
        invariant
            i <= albums@.len(),
            keys@.len() == i,
            lowered@.len() == albums@.len(),
            genres@.len() == ts@.len(),
            rows == row_views(genres@),
            text::texts(theirs@).to_set() == genres_marked(rows, on_album(ts@, target.name@)),
            wanted == album_offered(albums@, *target, ts@, rows, text::texts(excluded@)),
            key == album_rank(albums@, text::texts(lowered@), *target, ts@, rows),
            forall|k: int|
                0 <= k < i ==> (#[trigger] sort::opt_keys(keys@)[k]) == (if wanted(k) {
                    Some(key(k))
                } else {
                    None
                }),
        decreases albums@.len() - i,
    {
        let ghost before = keys@;
        let a: &AlbumAgg = &albums[i];
        let own = collect_genres(genres, &mark_album(ts, a.name.as_str()));
        let same: bool = match (&target.artist, &a.album_artist) {
            (Some(x), Some(y)) => eq_ignore_case(x.as_str(), y.as_str()),
            _ => false,
        };
        let score: u32 = score_of(same, count_common(&own, &theirs));
        proof {
            assert(score == album_score(*a, *target, ts@, rows));
        }
        let k: Option<Vec<i64>> = if !eq_ignore_case(a.name.as_str(), target.name.as_str())
            && !is_excluded(excluded, a) && score > 0 {
            Some(music::key_of_score(score, lowered[i].as_str()))
        } else {
            None
        };
        keys.push(k);
        proof {
            assert forall|k: int| 0 <= k < i + 1 implies (#[trigger] sort::opt_keys(keys@)[k]) == (
            if wanted(k) {
                Some(key(k))
            } else {
                None
            }) by {
                if k < i {
                    assert(sort::opt_keys(keys@)[k] == sort::opt_keys(before)[k]);
                } else {
                    assert(text::texts(lowered@)[k] == lowered@[k]@);
                }
            }
        }
        i += 1;
    }
    let ghost views = sort::opt_keys(keys@);
    let all = rank(keys, Ghost(key));
    proof {
        assert forall|k: usize| #[trigger] all@.contains(k) <==> k < albums@.len() && wanted(
            k as int,
        ) by {
            if k < albums@.len() {
                assert(views[k as int] is Some <==> wanted(k as int));
            }
        }
        assert(sort::ranked(all@, albums@.len() as int, wanted, key));
    }
    cut_page(&all, 0, limit)
}

// -------------------------------------------------------------------- artists

/// The items that name an artist, whatever the case.
pub open spec fn by_artist(ts: Seq<Track>, name: Seq<char>) -> Seq<bool> {
    Seq::new(
        ts.len(),
        |i: int|
            music::named_in(text::opt_text(ts[i].album_artist), name) || music::named_in(
                text::opt_text(ts[i].artist),
                name,
            ),
    )
}

fn mark_artist(ts: &Vec<Track>, name: &str) -> (r: Vec<bool>)
    ensures
        r@ == by_artist(ts@, name@),
{
    let ghost all = by_artist(ts@, name@);
    let mut out: Vec<bool> = Vec::new();
    let mut i: usize = 0;
    while i < ts.len()
        invariant
            i <= ts@.len(),
            all == by_artist(ts@, name@),
            out@ == all.take(i as int),
        decreases ts@.len() - i,
    {
        let own: bool = match &ts[i].album_artist {
            Some(a) => eq_ignore_case(a.as_str(), name),
            None => false,
        };
        let performs: bool = match &ts[i].artist {
            Some(a) => eq_ignore_case(a.as_str(), name),
            None => false,
        };
        out.push(own || performs);
        i += 1;
        proof {
            assert(all.take(i as int) == all.take(i - 1).push(all[i - 1]));
        }
    }
    proof {
        assert(all.take(i as int) == all);
    }
    out
}

/// How much an artist has in common with the one that is looked at.
pub open spec fn artist_score(
    name: Seq<char>,
    target: Seq<char>,
    ts: Seq<Track>,
    genres: Seq<Seq<Seq<char>>>,
) -> int {
    music_score(
        false,
        genres_marked(genres, by_artist(ts, name)).intersect(
            genres_marked(genres, by_artist(ts, target)),
        ).len() as int,
    )
}

/// What the other artists are told apart by: their names in lower case.
pub open spec fn other_artists(
    cs: Seq<Credit>,
    lowered: Seq<Seq<char>>,
    target: Seq<char>,
) -> Seq<Option<Seq<int>>> {
    Seq::new(
        cs.len(),
        |i: int|
            if text::eq_ci(cs[i].name@, target) {
                None
            } else {
                Some(sort::text_key(lowered[i]))
            },
    )
}

/// Whether a mention of an artist is offered: the first of another artist with
/// something in common.
pub open spec fn artist_offered(
    cs: Seq<Credit>,
    lowered: Seq<Seq<char>>,
    target: Seq<char>,
    ts: Seq<Track>,
    genres: Seq<Seq<Seq<char>>>,
) -> spec_fn(int) -> bool {
    |i: int|
        sort::is_first(other_artists(cs, lowered, target), i) && artist_score(
            cs[i].name@,
            target,
            ts,
            genres,
        ) > 0
}

/// What the offered artists are ordered by: the most in common first, and then
/// by name.
pub open spec fn artist_rank(
    cs: Seq<Credit>,
    lowered: Seq<Seq<char>>,
    target: Seq<char>,
    ts: Seq<Track>,
    genres: Seq<Seq<Seq<char>>>,
) -> spec_fn(int) -> Seq<int> {
    |i: int|
        seq![0 - artist_score(cs[i].name@, target, ts, genres)] + sort::text_key(lowered[i])
}

/// Which positions stand in a row.
fn flags_of(at: &Vec<usize>, n: usize) -> (r: Vec<bool>)
    requires
        forall|i: int| 0 <= i < at@.len() ==> #[trigger] at@[i] < n,
    ensures
        r@.len() == n,
        forall|k: int| 0 <= k < n ==> #[trigger] r@[k] == at@.contains(k as usize),
{
    let mut out: Vec<bool> = Vec::new();
    let mut k: usize = 0;
    while k < n
        invariant
            k <= n,
            out@.len() == k,
            forall|i: int| 0 <= i < k ==> #[trigger] out@[i] == false,
        decreases n - k,
    {
        out.push(false);
        k += 1;
    }
    let mut i: usize = 0;
    while i < at.len()
        invariant
            i <= at@.len(),
            out@.len() == n,
            forall|j: int| 0 <= j < at@.len() ==> #[trigger] at@[j] < n,
            forall|k: int|
                0 <= k < n ==> #[trigger] out@[k] == at@.take(i as int).contains(k as usize),
        decreases at@.len() - i,
    {
        let ghost before = out@;
        out.set(at[i], true);
        proof {
            assert(at@.take(i + 1) == at@.take(i as int).push(at@[i as int]));
            sort::lemma_pushed(at@.take(i as int), at@[i as int]);
        }
        i += 1;
    }
    proof {
        assert(at@.take(i as int) == at@);
    }
    out
}

/// The artists similar to one, given the genres of the tracks and the artists'
/// names in lower case: their places among the mentions.
pub fn similar_artists(
    cs: &Vec<Credit>,
    lowered: &Vec<String>,
    target: &str,
    ts: &Vec<Track>,
    genres: &Vec<Vec<String>>,
    limit: u32,
) -> (r: Vec<usize>)
    requires
        lowered@.len() == cs@.len(),
        genres@.len() == ts@.len(),
    ensures
        exists|all: Seq<usize>|
            #[trigger] sort::ranked(
                all,
                cs@.len() as int,
                artist_offered(cs@, text::texts(lowered@), target@, ts@, row_views(genres@)),
                artist_rank(cs@, text::texts(lowered@), target@, ts@, row_views(genres@)),
            ) && r@ == seqs::page(all, 0, limit as int),
{
    let ghost rows = row_views(genres@);
    let ghost low = text::texts(lowered@);
    let ghost others = other_artists(cs@, low, target@);
    let ghost wanted = artist_offered(cs@, low, target@, ts@, rows);
    let ghost key = artist_rank(cs@, low, target@, ts@, rows);
    let n: usize = cs.len();
    let mut names: Vec<Option<Vec<i64>>> = Vec::new();
    let mut i: usize = 0;
    while i < n
        invariant
            i <= n,
            n == cs@.len(),
            lowered@.len() == n,
            low == text::texts(lowered@),
            others == other_artists(cs@, low, target@),
            sort::opt_keys(names@) == others.take(i as int),
        decreases n - i,
    {
        let ghost before = names@;
        let k: Option<Vec<i64>> = if eq_ignore_case(cs[i].name.as_str(), target) {
            None
        } else {
            Some(key_of_text(lowered[i].as_str()))
        };
        names.push(k);
        i += 1;
        proof {
            assert(low[i - 1] == lowered@[i - 1]@);
            assert(sort::opt_keys(names@) == sort::opt_keys(before).push(others[i - 1]));
            assert(others.take(i as int) == others.take(i - 1).push(others[i - 1]));
        }
    }
    proof {
        assert(others.take(i as int) == others);
        assert(sort::opt_keys(names@).len() == names@.len());
    }
    let at = first_positions(&names);
    proof {
        assert forall|i: int| 0 <= i < at@.len() implies #[trigger] at@[i] < n by {
            assert(at@.contains(at@[i]));
        }
    }
    let first = flags_of(&at, n);
    let theirs = collect_genres(genres, &mark_artist(ts, target));
    let mut keys: Vec<Option<Vec<i64>>> = Vec::new();
    let mut j: usize = 0;
    while j < n
        invariant
            j <= n,
            n == cs@.len(),
            keys@.len() == j,
            lowered@.len() == n,
            genres@.len() == ts@.len(),
            low == text::texts(lowered@),
            rows == row_views(genres@),
            others == other_artists(cs@, low, target@),
            sort::firsts(at@, others),
            others.len() == n,
            first@.len() == n,
            forall|k: int| 0 <= k < n ==> #[trigger] first@[k] == at@.contains(k as usize),
            text::texts(theirs@).to_set() == genres_marked(rows, by_artist(ts@, target@)),
            wanted == artist_offered(cs@, low, target@, ts@, rows),
            key == artist_rank(cs@, low, target@, ts@, rows),
            forall|k: int|
                0 <= k < j ==> (#[trigger] sort::opt_keys(keys@)[k]) == (if wanted(k) {
                    Some(key(k))
                } else {
                    None
                }),
        decreases n - j,
    {
        let ghost before = keys@;
        let mut k: Option<Vec<i64>> = None;
        proof {
            assert(first@[j as int] == at@.contains(j));
            assert(first@[j as int] == sort::is_first(others, j as int));
        }
        if first[j] {
            let own = collect_genres(genres, &mark_artist(ts, cs[j].name.as_str()));
            let score: u32 = score_of(false, count_common(&own, &theirs));
            proof {
                assert(score == artist_score(cs@[j as int].name@, target@, ts@, rows));
            }
            if score > 0 {
                k = Some(music::key_of_score(score, lowered[j].as_str()));
            }
        }
        keys.push(k);
        proof {
            assert forall|k: int| 0 <= k < j + 1 implies (#[trigger] sort::opt_keys(keys@)[k]) == (
            if wanted(k) {
                Some(key(k))
            } else {
                None
            }) by {
                if k < j {
                    assert(sort::opt_keys(keys@)[k] == sort::opt_keys(before)[k]);
                } else {
                    assert(low[k] == lowered@[k]@);
                }
            }
        }
        j += 1;
    }
    let ghost views = sort::opt_keys(keys@);
    let all = rank(keys, Ghost(key));
    proof {
        assert forall|k: usize| #[trigger] all@.contains(k) <==> k < n && wanted(k as int) by {
            if k < n {
                assert(views[k as int] is Some <==> wanted(k as int));
            }
        }
        assert(sort::ranked(all@, n as int, wanted, key));
    }
    cut_page(&all, 0, limit)
}

// ------------------------------------------------------------ more of the same

/// What is offered beside an album or an artist.
pub enum SimilarMusic {
    Albums { target: AlbumTarget, albums: Vec<AlbumAgg>, picks: Vec<usize> },
    Artists { artist: String, credits: Vec<Credit>, picks: Vec<usize> },
    Nothing,
}

/// Whether a track is of the album with this id.
pub open spec fn of_album(ts: Seq<Track>, id: Seq<char>, k: int) -> bool {
    &&& 0 <= k < ts.len()
    &&& ts[k].audio
    &&& ts[k].album is Some
    &&& music::named_in(text::opt_text(ts[k].album_id), id)
}

/// Whether a mention is of the artist with this id.
pub open spec fn of_artist(cs: Seq<(Seq<char>, Option<Seq<char>>)>, id: Seq<char>, k: int) -> bool {
    0 <= k < cs.len() && music::named_in(cs[k].1, id)
}

pub open spec fn audio_members(ts: Seq<Track>) -> Seq<bool> {
    Seq::new(ts.len(), |i: int| ts[i].audio)
}

/// The names of mentions in lower case.
pub open spec fn lowered_credits(cs: Seq<Credit>) -> Seq<Seq<char>> {
    Seq::new(cs.len(), |i: int| text::unicode_lower(cs[i].name@))
}

fn mark_audio(ts: &Vec<Track>) -> (r: Vec<bool>)
    ensures
        r@ == audio_members(ts@),
{
    let mut out: Vec<bool> = Vec::new();
    let mut i: usize = 0;
    while i < ts.len()
        invariant
            i <= ts@.len(),
            out@ == audio_members(ts@).take(i as int),
        decreases ts@.len() - i,
    {
        out.push(ts[i].audio);
        i += 1;
        proof {
            assert(audio_members(ts@).take(i as int) == audio_members(ts@).take(i - 1).push(
                audio_members(ts@)[i - 1],
            ));
        }
    }
    proof {
        assert(audio_members(ts@).take(i as int) == audio_members(ts@));
    }
    out
}

fn lower_credits(cs: &Vec<Credit>) -> (r: Vec<String>)
    ensures
        text::texts(r@) == lowered_credits(cs@),
        r@.len() == cs@.len(),
{
    let mut out: Vec<String> = Vec::new();
    let mut i: usize = 0;
    while i < cs.len()
        invariant
            i <= cs@.len(),
            out@.len() == i,
            text::texts(out@) == lowered_credits(cs@).take(i as int),
        decreases cs@.len() - i,
    {
        let ghost before = out@;
        out.push(to_unicode_lower(cs[i].name.as_str()));
        i += 1;
        proof {
            assert(text::texts(out@) == text::texts(before).push(lowered_credits(cs@)[i - 1]));
            assert(lowered_credits(cs@).take(i as int) == lowered_credits(cs@).take(i - 1).push(
                lowered_credits(cs@)[i - 1],
            ));
        }
    }
    proof {
        assert(lowered_credits(cs@).take(i as int) == lowered_credits(cs@));
    }
    out
}

fn find_album(ts: &Vec<Track>, id: &str) -> (r: Option<usize>)
    ensures
        match r {
            Some(k) => of_album(ts@, id@, k as int) && forall|j: int|
                0 <= j < k ==> !#[trigger] of_album(ts@, id@, j),
            None => forall|j: int| !#[trigger] of_album(ts@, id@, j),
        },
{
    let mut i: usize = 0;
    while i < ts.len()
        invariant
            i <= ts@.len(),
            forall|j: int| 0 <= j < i ==> !#[trigger] of_album(ts@, id@, j),
        decreases ts@.len() - i,
    {
        let same: bool = match &ts[i].album_id {
            Some(a) => eq_ignore_case(a.as_str(), id),
            None => false,
        };
        if ts[i].audio && ts[i].album.is_some() && same {
            return Some(i);
        }
        i += 1;
    }
    None
}

fn find_artist(cs: &Vec<Credit>, id: &str) -> (r: Option<usize>)
    ensures
        match r {
            Some(k) => of_artist(music::credit_views(cs@), id@, k as int) && forall|j: int|
                0 <= j < k ==> !#[trigger] of_artist(music::credit_views(cs@), id@, j),
            None => forall|j: int| !#[trigger] of_artist(music::credit_views(cs@), id@, j),
        },
{
    let ghost views = music::credit_views(cs@);
    let mut i: usize = 0;
    while i < cs.len()
        invariant
            i <= cs@.len(),
            views == music::credit_views(cs@),
            forall|j: int| 0 <= j < i ==> !#[trigger] of_artist(views, id@, j),
        decreases cs@.len() - i,
    {
        proof {
            assert(views[i as int].1 == text::opt_text(cs@[i as int].id));
        }
        let same: bool = match &cs[i].id {
            Some(a) => eq_ignore_case(a.as_str(), id),
            None => false,
        };
        if same {
            return Some(i);
        }
        i += 1;
    }
    None
}

/// Whether an answer is what is offered beside the album that track `s` is of.
pub open spec fn albums_beside(
    r: SimilarMusic,
    ts: Seq<Track>,
    s: int,
    excluded: Seq<Seq<char>>,
    limit: int,
) -> bool {
    match r {
        SimilarMusic::Albums { target, albums, picks } => {
            &&& target.name@ == ts[s].album->0@
            &&& text::opt_text(target.artist) == music::credit(ts[s])
            &&& music::albums_of(albums@, ts, audio_members(ts))
            &&& exists|all: Seq<usize>|
                #[trigger] sort::ranked(
                    all,
                    albums@.len() as int,
                    album_offered(albums@, target, ts, genre_rows(ts), excluded),
                    album_rank(
                        albums@,
                        music::lowered_names(albums@),
                        target,
                        ts,
                        genre_rows(ts),
                    ),
                ) && picks@ == seqs::page(all, 0, limit)
        },
        _ => false,
    }
}

/// Whether an answer is what is offered beside the artist of mention `k`.
pub open spec fn artists_beside(r: SimilarMusic, ts: Seq<Track>, k: int, limit: int) -> bool {
    match r {
        SimilarMusic::Artists { artist: target, credits, picks } => {
            &&& music::credit_views(credits@) == music::credits(ts)
            &&& target@ == music::credits(ts)[k].0
            &&& exists|all: Seq<usize>|
                #[trigger] sort::ranked(
                    all,
                    credits@.len() as int,
                    artist_offered(
                        credits@,
                        lowered_credits(credits@),
                        target@,
                        ts,
                        genre_rows(ts),
                    ),
                    artist_rank(
                        credits@,
                        lowered_credits(credits@),
                        target@,
                        ts,
                        genre_rows(ts),
                    ),
                ) && picks@ == seqs::page(all, 0, limit)
        },
        _ => false,
    }
}

/// What is offered beside the album or, if it is none, the artist with an id.
pub fn music_similar(ts: &Vec<Track>, id: &str, exclude_artist_ids: Option<&str>, limit: u32) -> (r:
    SimilarMusic)
    requires
        ts@.len() <= u32::MAX,
    ensures
        forall|s: int| #[trigger]
            of_album(ts@, id@, s) && (forall|j: int|
                0 <= j < s ==> !#[trigger] of_album(ts@, id@, j)) ==> albums_beside(
                r,
                ts@,
                s,
                music::ids_in(browse::opt_str(exclude_artist_ids)),
                limit as int,
            ),
        (forall|j: int| !#[trigger] of_album(ts@, id@, j)) ==> {
            &&& forall|k: int| #[trigger]
                of_artist(music::credits(ts@), id@, k) && (forall|j: int|
                    0 <= j < k ==> !#[trigger] of_artist(music::credits(ts@), id@, j))
                    ==> artists_beside(r, ts@, k, limit as int)
            &&& (forall|k: int| !#[trigger] of_artist(music::credits(ts@), id@, k))
                ==> r is Nothing
        },
{
    let genres = all_genres(ts);
    match find_album(ts, id) {
        Some(s) => {
            let name: String = match &ts[s].album {
                Some(a) => a.clone(),
                None => String::new(),
            };
            let artist: Option<String> = if ts[s].album_artist.is_some() {
                copy_opt(&ts[s].album_artist)
            } else {
                copy_opt(&ts[s].artist)
            };
            let target = AlbumTarget { name, artist };
            let albums = aggregate_albums(ts, &mark_audio(ts));
            let lowered = music::lower_names(&albums);
            let excluded = id_set(exclude_artist_ids);
            let picks = similar_albums(&albums, &lowered, &target, ts, &genres, &excluded, limit);
            let r = SimilarMusic::Albums { target, albums, picks };
            proof {
                assert(albums_beside(
                    r,
                    ts@,
                    s as int,
                    music::ids_in(browse::opt_str(exclude_artist_ids)),
                    limit as int,
                ));
                assert forall|u: int| #[trigger]
                    of_album(ts@, id@, u) && (forall|j: int|
                        0 <= j < u ==> !#[trigger] of_album(ts@, id@, j)) implies u == s by {
                    if u < s {
                        assert(!of_album(ts@, id@, u));
                    }
                    if s < u {
                        assert(of_album(ts@, id@, s as int));
                    }
                }
            }
            r
        },
        None => {
            let credits = list_credits(ts);
            match find_artist(&credits, id) {
                Some(k) => {
                    let target: String = credits[k].name.clone();
                    let lowered = lower_credits(&credits);
                    let picks = similar_artists(
                        &credits,
                        &lowered,
                        target.as_str(),
                        ts,
                        &genres,
                        limit,
                    );
                    proof {
                        assert(music::credit_views(credits@)[k as int].0 == target@);
                    }
                    let r = SimilarMusic::Artists { artist: target, credits, picks };
                    proof {
                        assert(artists_beside(r, ts@, k as int, limit as int));
                        assert forall|u: int| #[trigger]
                            of_artist(music::credits(ts@), id@, u) && (forall|j: int|
                                0 <= j < u ==> !#[trigger] of_artist(
                                    music::credits(ts@),
                                    id@,
                                    j,
                                )) implies u == k by {
                            if u < k {
                                assert(!of_artist(music::credits(ts@), id@, u));
                            }
                            if k < u {
                                assert(of_artist(music::credits(ts@), id@, k as int));
                            }
                        }
                    }
                    r
                },
                None => SimilarMusic::Nothing,
            }
        },
    }
}

// ----------------------------------------------------------------------- laws

/// An album is never offered beside itself, nor one by an artist that the
/// client has excluded.
pub proof fn law_albums_are_not_offered_twice(
    albums: Seq<AlbumAgg>,
    target: AlbumTarget,
    ts: Seq<Track>,
    genres: Seq<Seq<Seq<char>>>,
    excluded: Seq<Seq<char>>,
    i: int,
)
    ensures
        text::eq_ci(albums[i].name@, target.name@) ==> !album_offered(
            albums,
            target,
            ts,
            genres,
            excluded,
        )(i),
        albums[i].album_artist is Some && music::in_ids(
            excluded,
            text::opt_text(albums[i].album_artist_id),
        ) ==> !album_offered(albums, target, ts, genres, excluded)(i),
{
}

/// The album's artist counts for more than two genres and for less than three,
/// and each further genre counts.
pub proof fn law_the_artist_counts_for_two_genres(same: bool, a: int, b: int)
    requires
        0 <= a < b < 100_000_000,
    ensures
        music_score(same, a) < music_score(same, b),
        music_score(true, a) > music_score(false, a + 2),
        music_score(true, a) < music_score(false, a + 3),
        music_score(same, b) > 0,
        music_score(true, 0) > 0,
        music_score(false, 0) == 0,
{
}

proof fn lemma_genres_join(a: Seq<Seq<char>>, b: Seq<Seq<char>>)
    ensures
        genres_of(a + b) == genres_of(a) + genres_of(b),
    decreases b.len(),
{
    if b.len() == 0 {
        assert(a + b =~= a);
        assert(genres_of(a) + genres_of(b) =~= genres_of(a));
    } else {
        assert((a + b).drop_last() =~= a + b.drop_last());
        assert((a + b).last() == b.last());
        lemma_genres_join(a, b.drop_last());
        assert(genres_of(a + b) =~= genres_of(a) + genres_of(b));
    }
}

/// The genres of a tag stand between commas, semicolons, slashes and bars; each
/// is taken in lower case and without white space around it.
pub proof fn law_tags_hold_genres(a: Seq<char>, mark: char, b: Seq<char>)
    requires
        mark == ',' || mark == ';' || mark == '/' || mark == '|',
    ensures
        genres_in(Some(a.push(mark) + b)) == genres_in(Some(a)) + genres_in(Some(b)),
        !a.contains(',') && !a.contains(';') && !a.contains('/') && !a.contains('|')
            && text::unicode_lower(text::trim(a)).len() > 0 ==> genres_in(Some(a)) == seq![
            text::unicode_lower(text::trim(a)),
        ],
        genres_in(None).len() == 0,
{
    let x = with_commas(a);
    let y = with_commas(b);
    assert(with_commas(a.push(mark) + b) =~= x.push(',') + y);
    text::law_texts_split_at_the_mark(x, ',', y);
    lemma_genres_join(text::split(x, ','), text::split(y, ','));
    if !a.contains(',') && !a.contains(';') && !a.contains('/') && !a.contains('|') {
        assert(x =~= a) by {
            assert forall|i: int| 0 <= i < a.len() implies x[i] == a[i] by {
                assert(a.contains(a[i]));
            }
        }
        let one = seq![a];
        assert(one.drop_last() =~= Seq::<Seq<char>>::empty());
        assert(genres_of(one.drop_last()) =~= Seq::<Seq<char>>::empty());
        assert(one.last() == a);
        if text::unicode_lower(text::trim(a)).len() > 0 {
            assert(genres_of(one) =~= seq![text::unicode_lower(text::trim(a))]);
        }
    }
}

proof fn lemma_genre_set(
    rows: Seq<Seq<Seq<char>>>,
    marked: Seq<bool>,
    n: int,
    g: Seq<char>,
)
    requires
        0 <= n <= rows.len(),
    ensures
        genre_set(rows, marked, n).contains(g) <==> exists|i: int|
            0 <= i < n && marked[i] && (#[trigger] rows[i]).contains(g),
        genre_set(rows, marked, n).finite(),
    decreases n,
{
    if n > 0 {
        lemma_genre_set(rows, marked, n - 1, g);
        if marked[n - 1] && rows[n - 1].contains(g) {
            assert(genre_set(rows, marked, n).contains(g));
        }
    }
}

/// Another album is offered where it is by the same artist, or where a track of
/// it has a genre that a track of the one that is looked at has too, unless its
/// artist is excluded.
pub proof fn law_albums_with_something_in_common_are_offered(
    albums: Seq<AlbumAgg>,
    target: AlbumTarget,
    ts: Seq<Track>,
    genres: Seq<Seq<Seq<char>>>,
    excluded: Seq<Seq<char>>,
    i: int,
    j: int,
    k: int,
    g: Seq<char>,
)
    requires
        0 <= i < albums.len(),
        genres.len() == ts.len(),
        text::lower(albums[i].name@) != text::lower(target.name@),
        albums[i].album_artist_id is None || !excluded.contains(
            text::lower(albums[i].album_artist_id->0@),
        ),
    ensures
        target.artist is Some && albums[i].album_artist is Some && text::lower(target.artist->0@)
            == text::lower(albums[i].album_artist->0@) ==> album_offered(
            albums,
            target,
            ts,
            genres,
            excluded,
        )(i),
        0 <= j < ts.len() && 0 <= k < ts.len() && ts[j].album is Some && ts[k].album is Some
            && text::lower(ts[j].album->0@) == text::lower(albums[i].name@) && text::lower(
            ts[k].album->0@,
        ) == text::lower(target.name@) && genres[j].contains(g) && genres[k].contains(g)
            ==> album_offered(albums, target, ts, genres, excluded)(i),
{
    let a = genres_marked(genres, on_album(ts, albums[i].name@));
    let b = genres_marked(genres, on_album(ts, target.name@));
    lemma_genre_set(genres, on_album(ts, albums[i].name@), genres.len() as int, g);
    lemma_genre_set(genres, on_album(ts, target.name@), genres.len() as int, g);
    let both = a.intersect(b);
    if 0 <= j < ts.len() && 0 <= k < ts.len() && ts[j].album is Some && ts[k].album is Some
        && text::lower(ts[j].album->0@) == text::lower(albums[i].name@) && text::lower(
        ts[k].album->0@,
    ) == text::lower(target.name@) && genres[j].contains(g) && genres[k].contains(g) {
        assert(on_album(ts, albums[i].name@)[j]);
        assert(on_album(ts, target.name@)[k]);
        assert(a.contains(g) && b.contains(g));
        assert(both.contains(g));
        assert(both.finite());
        assert(both.len() > 0) by {
            if both.len() == 0 {
                both.lemma_len0_is_empty();
            }
        }
    }
}

/// Offered albums stand by how much they have in common with the one that is
/// looked at.
pub proof fn law_the_nearest_albums_come_first(
    all: Seq<usize>,
    albums: Seq<AlbumAgg>,
    lowered: Seq<Seq<char>>,
    target: AlbumTarget,
    ts: Seq<Track>,
    genres: Seq<Seq<Seq<char>>>,
    excluded: Seq<Seq<char>>,
    i: int,
    j: int,
)
    requires
        sort::ranked(
            all,
            albums.len() as int,
            album_offered(albums, target, ts, genres, excluded),
            album_rank(albums, lowered, target, ts, genres),
        ),
        0 <= i < j < all.len(),
    ensures
        album_score(albums[all[i] as int], target, ts, genres) >= album_score(
            albums[all[j] as int],
            target,
            ts,
            genres,
        ),
{
    let key = album_rank(albums, lowered, target, ts, genres);
    assert(sort::key_before(key, all[i] as int, all[j] as int));
    let a = key(all[i] as int);
    let b = key(all[j] as int);
    assert(a[0] == 0 - album_score(albums[all[i] as int], target, ts, genres));
    assert(b[0] == 0 - album_score(albums[all[j] as int], target, ts, genres));
}

/// Artists have in common the genres of their tracks, in either role, and
/// nothing else counts.
pub proof fn law_artists_share_genres(
    name: Seq<char>,
    target: Seq<char>,
    ts: Seq<Track>,
    genres: Seq<Seq<Seq<char>>>,
    j: int,
    k: int,
    g: Seq<char>,
)
    requires
        genres.len() == ts.len(),
        0 <= j < ts.len(),
        0 <= k < ts.len(),
        (ts[j].artist is Some && text::lower(ts[j].artist->0@) == text::lower(name)) || (
        ts[j].album_artist is Some && text::lower(ts[j].album_artist->0@) == text::lower(name)),
        (ts[k].artist is Some && text::lower(ts[k].artist->0@) == text::lower(target)) || (
        ts[k].album_artist is Some && text::lower(ts[k].album_artist->0@) == text::lower(target)),
        genres[j].contains(g),
        genres[k].contains(g),
    ensures
        artist_score(name, target, ts, genres) >= 20,
{
    let a = genres_marked(genres, by_artist(ts, name));
    let b = genres_marked(genres, by_artist(ts, target));
    lemma_genre_set(genres, by_artist(ts, name), genres.len() as int, g);
    lemma_genre_set(genres, by_artist(ts, target), genres.len() as int, g);
    assert(by_artist(ts, name)[j] && by_artist(ts, target)[k]);
    let both = a.intersect(b);
    assert(both.contains(g));
    assert(both.len() > 0) by {
        if both.len() == 0 {
            both.lemma_len0_is_empty();
        }
    }
}

/// What is offered beside an album, where there is room for everything, has
/// each other album by the same artist that is not excluded, and never the
/// album itself.
pub proof fn law_an_artists_other_albums_are_offered(
    r: SimilarMusic,
    ts: Seq<Track>,
    s: int,
    excluded: Seq<Seq<char>>,
    limit: int,
    i: int,
)
    requires
        albums_beside(r, ts, s, excluded, limit),
        0 <= s < ts.len(),
        0 <= limit,
        0 <= i < r->albums@.len() <= usize::MAX,
        ts[s].album_artist is Some,
        r->albums@[i].album_artist is Some,
        text::lower(r->albums@[i].album_artist->0@) == text::lower(ts[s].album_artist->0@),
    ensures
        text::lower(r->albums@[i].name@) != text::lower(ts[s].album->0@) && (
        r->albums@[i].album_artist_id is None || !excluded.contains(
            text::lower(r->albums@[i].album_artist_id->0@),
        )) && r->Albums_picks@.len() < limit ==> r->Albums_picks@.contains(i as usize),
        text::lower(r->albums@[i].name@) == text::lower(ts[s].album->0@)
            ==> !r->Albums_picks@.contains(i as usize),
{
    let albums = r->albums@;
    let target = r->target;
    let genres = genre_rows(ts);
    let picks = r->Albums_picks@;
    let offered = album_offered(albums, target, ts, genres, excluded);
    let all = choose|all: Seq<usize>|
        #[trigger] sort::ranked(
            all,
            albums.len() as int,
            offered,
            album_rank(albums, music::lowered_names(albums), target, ts, genres),
        ) && picks == seqs::page(all, 0, limit);
    assert(text::opt_text(target.artist) == Some(ts[s].album_artist->0@));
    if text::lower(albums[i].name@) == text::lower(ts[s].album->0@) {
        assert(!offered(i));
        assert(!all.contains(i as usize));
        if picks.contains(i as usize) {
            let k = choose|k: int| 0 <= k < picks.len() && picks[k] == i as usize;
            assert(all[k] == i as usize);
        }
    } else if (albums[i].album_artist_id is None || !excluded.contains(
        text::lower(albums[i].album_artist_id->0@),
    )) && picks.len() < limit {
        law_albums_with_something_in_common_are_offered(
            albums,
            target,
            ts,
            genres,
            excluded,
            i,
            0,
            0,
            Seq::empty(),
        );
        assert(offered(i));
        assert(all.contains(i as usize));
        assert(picks =~= all);
    }
}

/// Another artist whose tracks have a genre of the one that is looked at is
/// offered, once, under the first mention; the artist is never offered beside
/// the artist's own name.
pub proof fn law_artists_with_a_genre_in_common_are_offered(
    cs: Seq<Credit>,
    target: Seq<char>,
    ts: Seq<Track>,
    genres: Seq<Seq<Seq<char>>>,
    i: int,
)
    requires
        0 <= i < cs.len(),
    ensures
        text::lower(cs[i].name@) != text::lower(target) && artist_score(
            cs[i].name@,
            target,
            ts,
            genres,
        ) > 0 && (forall|j: int|
            0 <= j < i ==> text::lower(#[trigger] cs[j].name@) == text::lower(target)
                || text::unicode_lower(cs[j].name@) != text::unicode_lower(cs[i].name@))
            ==> artist_offered(cs, lowered_credits(cs), target, ts, genres)(i),
        text::lower(cs[i].name@) == text::lower(target) ==> !artist_offered(
            cs,
            lowered_credits(cs),
            target,
            ts,
            genres,
        )(i),
        artist_score(cs[i].name@, target, ts, genres) == 0 ==> !artist_offered(
            cs,
            lowered_credits(cs),
            target,
            ts,
            genres,
        )(i),
{
    let low = lowered_credits(cs);
    let keys = other_artists(cs, low, target);
    if text::lower(cs[i].name@) != text::lower(target) && (forall|j: int|
        0 <= j < i ==> text::lower(#[trigger] cs[j].name@) == text::lower(target)
            || text::unicode_lower(cs[j].name@) != text::unicode_lower(cs[i].name@)) {
        assert forall|j: int| 0 <= j < i implies #[trigger] keys[j] != keys[i] by {
            assert(cs[j].name@ == cs[j].name@);
            if text::lower(cs[j].name@) != text::lower(target) {
                sort::law_keys_spell_the_text(low[j]);
                sort::law_keys_spell_the_text(low[i]);
                if keys[j] == keys[i] {
                    assert(sort::text_key(low[j]) == sort::text_key(low[i]));
                    assert(low[j] =~= low[i]);
                }
            }
        }
    }
}

/// Offered artists stand by how much they have in common with the one that is
/// looked at.
pub proof fn law_the_nearest_artists_come_first(
    all: Seq<usize>,
    cs: Seq<Credit>,
    target: Seq<char>,
    ts: Seq<Track>,
    genres: Seq<Seq<Seq<char>>>,
    i: int,
    j: int,
)
    requires
        sort::ranked(
            all,
            cs.len() as int,
            artist_offered(cs, lowered_credits(cs), target, ts, genres),
            artist_rank(cs, lowered_credits(cs), target, ts, genres),
        ),
        0 <= i < j < all.len(),
    ensures
        artist_score(cs[all[i] as int].name@, target, ts, genres) >= artist_score(
            cs[all[j] as int].name@,
            target,
            ts,
            genres,
        ),
{
    let key = artist_rank(cs, lowered_credits(cs), target, ts, genres);
    assert(sort::key_before(key, all[i] as int, all[j] as int));
    let a = key(all[i] as int);
    let b = key(all[j] as int);
    assert(a[0] == 0 - artist_score(cs[all[i] as int].name@, target, ts, genres));
    assert(b[0] == 0 - artist_score(cs[all[j] as int].name@, target, ts, genres));
}

} // verus!
