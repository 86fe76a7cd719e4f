//! Albums and artists. The library keeps tracks only: albums and artists are
//! what the tracks say of themselves.

use vstd::prelude::*;
use vstd::string::*;
use crate::browse::{self, music_album_only_request, wants_descending, ListQuery};
use crate::media::MediaKind;
use crate::seqs::{self, cut_page};
use crate::shows::{self, firsts_in_order, letter_prefix, name_matches_letter, reversed};
use crate::sort::{self, key_of_text, rank};
use crate::text_sets::holds_text;
use crate::text::{self, copy_opt, csv_entries, eq_ignore_case, eq_text, split_on, to_lower, to_unicode_lower, trimmed};

verus! {

/// An item as far as the music lists read it. The ids are those that the
/// clients know the album and the artists by.
pub struct Track {
    pub audio: bool,
    pub album: Option<String>,
    pub album_artist: Option<String>,
    pub artist: Option<String>,
    pub year: Option<u32>,
    pub genre: Option<String>,
    pub album_id: Option<String>,
    pub album_artist_id: Option<String>,
    pub artist_id: Option<String>,
}

/// An album: the tracks that name it, taken together.
pub struct AlbumAgg {
    pub name: String,
    pub album_id: Option<String>,
    pub album_artist: Option<String>,
    pub album_artist_id: Option<String>,
    /// The earliest year on a track.
    pub year: Option<u32>,
    pub child_count: u32,
}

// --------------------------------------------------------------------- albums

/// Whether a track counts towards an album.
pub open spec fn in_album(t: Track, member: bool, name: Seq<char>) -> bool {
    member && text::opt_text(t.album) == Some(name) && name.len() > 0
}

/// The artist that an album goes under by one of its tracks.
pub open spec fn credit(t: Track) -> Option<Seq<char>> {
    if t.album_artist is Some {
        text::opt_text(t.album_artist)
    } else {
        text::opt_text(t.artist)
    }
}

pub open spec fn credit_id(t: Track) -> Option<Seq<char>> {
    if t.album_artist is Some {
        text::opt_text(t.album_artist_id)
    } else {
        text::opt_text(t.artist_id)
    }
}

/// The first of the first `n` tracks of an album that names an artist.
pub open spec fn credited(ts: Seq<Track>, member: Seq<bool>, name: Seq<char>, n: int) -> Option<int>
    decreases n,
{
    if n <= 0 {
        None
    } else if credited(ts, member, name, n - 1) is Some {
        credited(ts, member, name, n - 1)
    } else if in_album(ts[n - 1], member[n - 1], name) && credit(ts[n - 1]) is Some {
        Some(n - 1)
    } else {
        None
    }
}

/// The earliest year on the first `n` tracks of an album.
pub open spec fn first_year(ts: Seq<Track>, member: Seq<bool>, name: Seq<char>, n: int) -> Option<
    u32,
>
    decreases n,
{
    if n <= 0 {
        None
    } else {
        let before = first_year(ts, member, name, n - 1);
        let here = ts[n - 1].year;
        if !in_album(ts[n - 1], member[n - 1], name) || here is None {
            before
        } else if before is Some && before->0 <= here->0 {
            before
        } else {
            here
        }
    }
}

/// How many of the first `n` tracks are of an album.
pub open spec fn track_count(ts: Seq<Track>, member: Seq<bool>, name: Seq<char>, n: int) -> int
    decreases n,
{
    if n <= 0 {
        0
    } else {
        track_count(ts, member, name, n - 1) + (if in_album(ts[n - 1], member[n - 1], name) {
            1int
        } else {
            0int
        })
    }
}

/// Whether an album is what its tracks make of it.
pub open spec fn album_is(a: AlbumAgg, ts: Seq<Track>, member: Seq<bool>) -> bool {
    let n = ts.len() as int;
    let by = credited(ts, member, a.name@, n);
    &&& text::opt_text(a.album_artist) == (if by is Some {
        credit(ts[by->0])
    } else {
        None
    })
    &&& text::opt_text(a.album_artist_id) == (if by is Some {
        credit_id(ts[by->0])
    } else {
        None
    })
    &&& a.year == first_year(ts, member, a.name@, n)
    &&& a.child_count == track_count(ts, member, a.name@, n)
}

/// What albums are told apart by.
pub open spec fn album_keys(ts: Seq<Track>, member: Seq<bool>) -> Seq<Option<Seq<int>>> {
    Seq::new(
        ts.len(),
        |i: int|
            match ts[i].album {
                Some(a) => if member[i] && a@.len() > 0 {
                    Some(sort::text_key(a@))
                } else {
                    None
                },
                None => None,
            },
    )
}

/// Whether `at` is the first track of each album, by the albums' names.
pub open spec fn album_firsts(at: Seq<usize>, ts: Seq<Track>, member: Seq<bool>) -> bool {
    let keys = album_keys(ts, member);
    &&& forall|k: usize| #[trigger] at.contains(k) <==> sort::is_first(keys, k as int)
    &&& forall|i: int, j: int|
        0 <= i < j < at.len() ==> sort::lex_lt(
            keys[#[trigger] at[i] as int]->0,
            keys[#[trigger] at[j] as int]->0,
        )
}

/// Whether `r` is the albums that the tracks make, by their names.
pub open spec fn albums_of(r: Seq<AlbumAgg>, ts: Seq<Track>, member: Seq<bool>) -> bool {
    exists|at: Seq<usize>|
        {
            &&& #[trigger] album_firsts(at, ts, member)
            &&& r.len() == at.len()
            &&& forall|i: int|
                0 <= i < r.len() ==> {
                    &&& (#[trigger] r[i]).name@ == ts[at[i] as int].album->0@
                    &&& text::opt_text(r[i].album_id) == text::opt_text(ts[at[i] as int].album_id)
                    &&& album_is(r[i], ts, member)
                }
        }
}

fn is_in_album(t: &Track, member: bool, name: &str) -> (r: bool)
    ensures
        r == in_album(*t, member, name@),
{
    match &t.album {
        Some(a) => member && eq_text(a.as_str(), name) && !name.is_empty(),
        None => false,
    }
}

/// An album out of the tracks that name it.
fn album_named(ts: &Vec<Track>, member: &Vec<bool>, name: String, album_id: Option<String>) -> (r:
    AlbumAgg)
    requires
        member@.len() == ts@.len(),
        ts@.len() <= u32::MAX,
    ensures
        r.name == name,
        r.album_id == album_id,
        album_is(r, ts@, member@),
{
    let mut album_artist: Option<String> = None;
    let mut album_artist_id: Option<String> = None;
    let mut has_credit: bool = false;
    let mut year: Option<u32> = None;
    let mut count: u32 = 0;
    let mut i: usize = 0;
    while i < ts.len()
        invariant
            i <= ts@.len(),
            member@.len() == ts@.len(),
            ts@.len() <= u32::MAX,
            count <= i,
            count == track_count(ts@, member@, name@, i as int),
            year == first_year(ts@, member@, name@, i as int),
            has_credit == (credited(ts@, member@, name@, i as int) is Some),
            has_credit ==> 0 <= credited(ts@, member@, name@, i as int)->0 < i,
            text::opt_text(album_artist) == (if has_credit {
                credit(ts@[credited(ts@, member@, name@, i as int)->0])
            } else {
                None
            }),
            text::opt_text(album_artist_id) == (if has_credit {
                credit_id(ts@[credited(ts@, member@, name@, i as int)->0])
            } else {
                None
            }),
        decreases ts@.len() - i,
    {
        let t: &Track = &ts[i];
        if is_in_album(t, member[i], name.as_str()) {
            count += 1;
            if !has_credit {
                if t.album_artist.is_some() {
                    album_artist = copy_opt(&t.album_artist);
                    album_artist_id = copy_opt(&t.album_artist_id);
                    has_credit = true;
                } else if t.artist.is_some() {
                    album_artist = copy_opt(&t.artist);
                    album_artist_id = copy_opt(&t.artist_id);
                    has_credit = true;
                }
            }
            if let Some(y) = t.year {
                year = match year {
                    Some(b) => if b <= y {
                        Some(b)
                    } else {
                        Some(y)
                    },
                    None => Some(y),
                };
            }
        }
        i += 1;
    }
    AlbumAgg { name, album_id, album_artist, album_artist_id, year, child_count: count }
}

/// The albums that the tracks make. Only the tracks that `member` marks count.
pub fn aggregate_albums(ts: &Vec<Track>, member: &Vec<bool>) -> (r: Vec<AlbumAgg>)
    requires
        member@.len() == ts@.len(),
        ts@.len() <= u32::MAX,
    ensures
        albums_of(r@, ts@, member@),
{
    let mut keys: Vec<Option<Vec<i64>>> = Vec::new();
    let ghost views = album_keys(ts@, member@);
    let mut i: usize = 0;
    while i < ts.len()
        invariant
            i <= ts@.len(),
            member@.len() == ts@.len(),
            views == album_keys(ts@, member@),
            sort::opt_keys(keys@) == views.take(i as int),
        decreases ts@.len() - i,
    {
        let ghost before = keys@;
        let key: Option<Vec<i64>> = match &ts[i].album {
            Some(a) => if member[i] && !a.as_str().is_empty() {
                Some(key_of_text(a.as_str()))
            } else {
                None
            },
            None => None,
        };
        keys.push(key);
        i += 1;
        proof {
            assert(sort::opt_keys(keys@) == sort::opt_keys(before).push(views[i - 1]));
            assert(views.take(i as int) == views.take(i - 1).push(views[i - 1]));
        }
    }
    proof {
        assert(views.take(i as int) == views);
        assert(sort::opt_keys(keys@).len() == keys@.len());
    }
    let at = firsts_in_order(&keys);
    let mut out: Vec<AlbumAgg> = Vec::new();
    let mut k: usize = 0;
    while k < at.len()
        invariant
            k <= at@.len(),
            out@.len() == k,
            member@.len() == ts@.len(),
            ts@.len() <= u32::MAX,
            views == album_keys(ts@, member@),
            album_firsts(at@, ts@, member@),
            forall|i: int| 0 <= i < at@.len() ==> #[trigger] at@[i] < ts@.len(),
            forall|i: int|
                0 <= i < k ==> {
                    &&& (#[trigger] out@[i]).name@ == ts@[at@[i] as int].album->0@
                    &&& text::opt_text(out@[i].album_id) == text::opt_text(
                        ts@[at@[i] as int].album_id,
                    )
                    &&& album_is(out@[i], ts@, member@)
                },
        decreases at@.len() - k,
    {
        proof {
            assert(at@.contains(at@[k as int]));
            assert(views[at@[k as int] as int] is Some);
        }
        let t: &Track = &ts[at[k]];
        let name: String = match &t.album {
            Some(a) => a.clone(),
            None => String::new(),
        };
        out.push(album_named(ts, member, name, copy_opt(&t.album_id)));
        k += 1;
    }
    proof {
        assert(album_firsts(at@, ts@, member@));
    }
    out
}

// -------------------------------------------------------------- order of albums

/// Whether a sort list puts the year first.
pub open spec fn by_year(sort_by: Option<Seq<char>>) -> bool {
    match sort_by {
        Some(s) => {
            let first = text::trim(text::split(s, ',')[0]);
            first == "PremiereDate"@ || first == "ProductionYear"@
        },
        None => false,
    }
}

fn sorts_by_year(sort_by: Option<&str>) -> (r: bool)
    ensures
        r == by_year(browse::opt_str(sort_by)),
{
    match sort_by {
        Some(s) => {
            let pieces = split_on(s, ',');
            proof {
                assert(text::texts(pieces@).len() == pieces@.len());
                assert(text::split(s@, ',').len() > 0);
                assert(text::texts(pieces@)[0] == pieces@[0]@);
            }
            let first = trimmed(pieces[0].as_str());
            eq_text(first.as_str(), "PremiereDate") || eq_text(first.as_str(), "ProductionYear")
        },
        None => false,
    }
}

/// What an album is sorted by, given its name in lower case. Albums without a
/// year come before the others.
pub open spec fn album_key(a: AlbumAgg, lowered: Seq<char>, year_first: bool) -> Seq<int> {
    if year_first {
        (match a.year {
            Some(y) => seq![1int, y as int],
            None => seq![0int, 0int],
        }) + sort::text_key(lowered)
    } else {
        sort::text_key(lowered)
    }
}

pub open spec fn album_sort(
    albums: Seq<AlbumAgg>,
    lowered: Seq<Seq<char>>,
    year_first: bool,
) -> spec_fn(int) -> Seq<int> {
    |i: int| album_key(albums[i], lowered[i], year_first)
}

/// Whether an album is not one of the excluded ones.
pub open spec fn not_excluded(albums: Seq<AlbumAgg>, excluded: Seq<Seq<char>>) -> spec_fn(
    int,
) -> bool {
    |i: int| !in_ids(excluded, text::opt_text(albums[i].album_id))
}

/// Whether `r` is the albums that are not excluded in the order that is asked
/// for.
pub open spec fn album_list(
    r: Seq<usize>,
    albums: Seq<AlbumAgg>,
    lowered: Seq<Seq<char>>,
    excluded: Seq<Seq<char>>,
    year_first: bool,
    descending: bool,
) -> bool {
    sort::ranked(
        shows::turned(r, descending),
        albums.len() as int,
        not_excluded(albums, excluded),
        album_sort(albums, lowered, year_first),
    )
}

fn key_of_album(a: &AlbumAgg, lowered: &str, year_first: bool) -> (r: Vec<i64>)
    ensures
        sort::key_view(r@) == album_key(*a, lowered@, year_first),
{
    let name = key_of_text(lowered);
    if !year_first {
        return name;
    }
    let mut out: Vec<i64> = match a.year {
        Some(y) => vec![1, y as i64],
        None => vec![0, 0],
    };
    let ghost head = sort::key_view(out@);
    let mut i: usize = 0;
    while i < name.len()
        invariant
            i <= name@.len(),
            sort::key_view(out@) == head + sort::key_view(name@).take(i as int),
        decreases name@.len() - i,
    {
        let ghost before = out@;
        out.push(name[i]);
        i += 1;
        proof {
            assert(sort::key_view(out@) == sort::key_view(before).push(name@[i - 1] as int));
            assert(sort::key_view(name@).take(i as int) == sort::key_view(name@).take(i - 1).push(
                sort::key_view(name@)[i - 1],
            ));
        }
    }
    proof {
        assert(sort::key_view(name@).take(i as int) == sort::key_view(name@));
        assert(head == (match a.year {
            Some(y) => seq![1int, y as int],
            None => seq![0int, 0int],
        }));
    }
    out
}

/// The albums in the order that is asked for, given their names in lower case.
pub fn order_albums(
    albums: &Vec<AlbumAgg>,
    lowered: &Vec<String>,
    excluded: &Vec<String>,
    year_first: bool,
    descending: bool,
) -> (r: Vec<usize>)
    requires
        lowered@.len() == albums@.len(),
    ensures
        album_list(
            r@,
            albums@,
            text::texts(lowered@),
            text::texts(excluded@),
            year_first,
            descending,
        ),
{
    let ghost key = album_sort(albums@, text::texts(lowered@), year_first);
    let ghost wanted = not_excluded(albums@, text::texts(excluded@));
    let mut keys: Vec<Option<Vec<i64>>> = Vec::new();
    let mut i: usize = 0;
    while i < albums.len()
        invariant
            i <= albums@.len(),
            keys@.len() == i,
            lowered@.len() == albums@.len(),
            key == album_sort(albums@, text::texts(lowered@), year_first),
            wanted == not_excluded(albums@, text::texts(excluded@)),
            forall|k: int|
                0 <= k < i ==> (#[trigger] sort::opt_keys(keys@)[k]) == (if wanted(k) {
                    Some(key(k))
                } else {
                    None
                }),
        decreases albums@.len() - i,
    {
        let ghost before = keys@;
        let k: Option<Vec<i64>> = if holds_ci(excluded, &albums[i].album_id) {
            None
        } else {
            Some(key_of_album(&albums[i], lowered[i].as_str(), year_first))
        };
        keys.push(k);
        proof {
            assert forall|k: int| 0 <= k < i + 1 implies (#[trigger] sort::opt_keys(keys@)[k]) == (
            if wanted(k) {
                Some(key(k))
            } else {
                None
            }) by {
                if k < i {
                    assert(sort::opt_keys(keys@)[k] == sort::opt_keys(before)[k]);
                } else {
                    assert(text::texts(lowered@)[k] == lowered@[k]@);
                }
            }
        }
        i += 1;
    }
    proof {
        assert(sort::opt_keys(keys@).len() == keys@.len());
    }
    let ghost views = sort::opt_keys(keys@);
    let up = rank(keys, Ghost(key));
    proof {
        assert forall|k: usize| #[trigger] up@.contains(k) <==> k < albums@.len() && wanted(
            k as int,
        ) by {
            if k < albums@.len() {
                assert(views[k as int] is Some <==> wanted(k as int));
            }
        }
        assert(up@.reverse().reverse() =~= up@);
    }
    if descending {
        reversed(&up)
    } else {
        up
    }
}

pub open spec fn lowered_names(albums: Seq<AlbumAgg>) -> Seq<Seq<char>> {
    Seq::new(albums.len(), |i: int| text::unicode_lower(albums[i].name@))
}

/// The names of albums in lower case.
pub fn lower_names(albums: &Vec<AlbumAgg>) -> (r: Vec<String>)
    ensures
        text::texts(r@) == lowered_names(albums@),
        r@.len() == albums@.len(),
{
    let mut out: Vec<String> = Vec::new();
    let mut i: usize = 0;
    while i < albums.len()
        invariant
            i <= albums@.len(),
            out@.len() == i,
            text::texts(out@) == lowered_names(albums@).take(i as int),
        decreases albums@.len() - i,
    {
        let ghost before = out@;
        out.push(to_unicode_lower(albums[i].name.as_str()));
        i += 1;
        proof {
            assert(text::texts(out@) == text::texts(before).push(lowered_names(albums@)[i - 1]));
            assert(lowered_names(albums@).take(i as int) == lowered_names(albums@).take(
                i - 1,
            ).push(lowered_names(albums@)[i - 1]));
        }
    }
    proof {
        assert(lowered_names(albums@).take(i as int) == lowered_names(albums@));
    }
    out
}

/// The albums in the order that a request asks for: by year and name, or by
/// name, without regard to case.
pub fn sort_album_aggs(
    albums: &Vec<AlbumAgg>,
    excluded: &Vec<String>,
    sort_by: Option<&str>,
    descending: bool,
) -> (r: Vec<usize>)
    ensures
        album_list(
            r@,
            albums@,
            lowered_names(albums@),
            text::texts(excluded@),
            by_year(browse::opt_str(sort_by)),
            descending,
        ),
{
    let lowered = lower_names(albums);
    order_albums(albums, &lowered, excluded, sorts_by_year(sort_by), descending)
}

// ------------------------------------------------------------------- id lists

/// The lower-case forms of a row of texts.
pub open spec fn lowered_all(s: Seq<Seq<char>>) -> Seq<Seq<char>> {
    Seq::new(s.len(), |i: int| text::lower(s[i]))
}

/// The ids in a list, in lower case.
pub open spec fn ids_in(list: Option<Seq<char>>) -> Seq<Seq<char>> {
    match list {
        Some(l) => lowered_all(text::csv(l)),
        None => Seq::empty(),
    }
}

/// Whether an id is in a row of ids in lower case.
pub open spec fn in_ids(ids: Seq<Seq<char>>, id: Option<Seq<char>>) -> bool {
    id is Some && ids.contains(text::lower(id->0))
}

/// The ids in a comma-separated list, in lower case.
pub fn id_set(raw: Option<&str>) -> (r: Vec<String>)
    ensures
        text::texts(r@) == ids_in(browse::opt_str(raw)),
{
    let mut out: Vec<String> = Vec::new();
    match raw {
        Some(l) => {
            let entries = csv_entries(l);
            let mut i: usize = 0;
            let ghost all = lowered_all(text::csv(l@));
            while i < entries.len()
                invariant
                    i <= entries@.len(),
                    text::texts(entries@) == text::csv(l@),
                    all == lowered_all(text::csv(l@)),
                    text::texts(out@) == all.take(i as int),
                decreases entries@.len() - i,
            {
                let ghost before = out@;
                out.push(to_lower(entries[i].as_str()));
                i += 1;
                proof {
                    assert(text::texts(entries@)[i - 1] == entries@[i - 1]@);
                    assert(text::texts(out@) == text::texts(before).push(all[i - 1]));
                    assert(all.take(i as int) == all.take(i - 1).push(all[i - 1]));
                }
            }
            proof {
                assert(text::texts(entries@).len() == entries@.len());
                assert(all.take(i as int) == all);
            }
            out
        },
        None => {
            proof {
                assert(text::texts(out@) == Seq::<Seq<char>>::empty());
            }
            out
        },
    }
}

fn holds_ci(ids: &Vec<String>, id: &Option<String>) -> (r: bool)
    ensures
        r == in_ids(text::texts(ids@), text::opt_text(*id)),
{
    match id {
        Some(i) => holds_text(ids, to_lower(i.as_str()).as_str()),
        None => false,
    }
}

/// Whether a track passes a request's lists of artists: the album's artist is
/// one of the first, an artist of the second performs on it without being the
/// album's, and either is one of the third. An empty list asks nothing.
pub open spec fn artists_pass(
    t: Track,
    album_artists: Seq<Seq<char>>,
    contributing: Seq<Seq<char>>,
    either: Seq<Seq<char>>,
) -> bool {
    let own = text::opt_text(t.album_artist_id);
    let performer = text::opt_text(t.artist_id);
    &&& album_artists.len() > 0 ==> in_ids(album_artists, own)
    &&& contributing.len() > 0 ==> in_ids(contributing, performer) && !in_ids(contributing, own)
    &&& either.len() > 0 ==> in_ids(either, own) || in_ids(either, performer)
}

/// The tracks that count towards the albums of a request.
pub open spec fn request_members(ts: Seq<Track>, q: ListQuery) -> Seq<bool> {
    Seq::new(
        ts.len(),
        |i: int|
            ts[i].audio && artists_pass(
                ts[i],
                ids_in(text::opt_text(q.album_artist_ids)),
                ids_in(text::opt_text(q.contributing_artist_ids)),
                ids_in(text::opt_text(q.artist_ids)),
            ),
    )
}

fn str_of(o: &Option<String>) -> (r: Option<&str>)
    ensures
        browse::opt_str(r) == text::opt_text(*o),
{
    match o {
        Some(s) => Some(s.as_str()),
        None => None,
    }
}

fn mark_request_members(ts: &Vec<Track>, q: &ListQuery) -> (r: Vec<bool>)
    ensures
        r@ == request_members(ts@, *q),
{
    let own = id_set(str_of(&q.album_artist_ids));
    let contributing = id_set(str_of(&q.contributing_artist_ids));
    let either = id_set(str_of(&q.artist_ids));
    let ghost all = request_members(ts@, *q);
    let mut out: Vec<bool> = Vec::new();
    let mut i: usize = 0;
    proof {
        assert(text::texts(own@).len() == own@.len());
        assert(text::texts(contributing@).len() == contributing@.len());
        assert(text::texts(either@).len() == either@.len());
    }
    while i < ts.len()
        invariant
            i <= ts@.len(),
            all == request_members(ts@, *q),
            text::texts(own@) == ids_in(text::opt_text(q.album_artist_ids)),
            text::texts(contributing@) == ids_in(text::opt_text(q.contributing_artist_ids)),
            text::texts(either@) == ids_in(text::opt_text(q.artist_ids)),
            text::texts(own@).len() == own@.len(),
            text::texts(contributing@).len() == contributing@.len(),
            text::texts(either@).len() == either@.len(),
            out@ == all.take(i as int),
        decreases ts@.len() - i,
    {
        let t: &Track = &ts[i];
        let mut ok: bool = t.audio;
        if own.len() > 0 && !holds_ci(&own, &t.album_artist_id) {
            ok = false;
        }
        if contributing.len() > 0 && (!holds_ci(&contributing, &t.artist_id) || holds_ci(
            &contributing,
            &t.album_artist_id,
        )) {
            ok = false;
        }
        if either.len() > 0 && !holds_ci(&either, &t.album_artist_id) && !holds_ci(
            &either,
            &t.artist_id,
        ) {
            ok = false;
        }
        out.push(ok);
        i += 1;
        proof {
            assert(all.take(i as int) == all.take(i - 1).push(all[i - 1]));
        }
    }
    proof {
        assert(all.take(i as int) == all);
    }
    out
}

// ---------------------------------------------------------------- music lists

/// A row of a music list.
#[derive(Debug, Clone, Copy, PartialEq, Eq, Structural)]
pub enum MusicEntry {
    /// An album, by its place among the albums.
    Album(usize),
    /// A track of no album, by its place among the tracks.
    Loose(usize),
}

/// A page of music: the albums that it speaks of, its entries, and how many
/// there are in all.
pub struct MusicPage {
    pub albums: Vec<AlbumAgg>,
    pub page: Vec<MusicEntry>,
    /// How many rows there are on all pages.
    pub total: usize,
}

/// Whether an artist is named by one of two optional names, whatever the case.
pub open spec fn named_in(a: Option<Seq<char>>, artist: Seq<char>) -> bool {
    a is Some && text::eq_ci(a->0, artist)
}

/// The tracks that count towards an artist's own albums.
pub open spec fn own_members(ts: Seq<Track>, artist: Seq<char>) -> Seq<bool> {
    Seq::new(ts.len(), |i: int| ts[i].audio && named_in(credit(ts[i]), artist))
}

/// Whether a track is one of an artist's that belongs to no album.
pub open spec fn is_loose(t: Track, artist: Seq<char>) -> bool {
    &&& t.audio
    &&& t.album is None || t.album->0@.len() == 0
    &&& named_in(text::opt_text(t.artist), artist) || named_in(
        text::opt_text(t.album_artist),
        artist,
    )
}

/// The rows for albums in an order.
pub open spec fn album_rows(order: Seq<usize>) -> Seq<MusicEntry> {
    Seq::new(order.len(), |i: int| MusicEntry::Album(order[i]))
}

/// The rows for an artist's loose tracks among the first `n`.
pub open spec fn loose_rows(ts: Seq<Track>, artist: Seq<char>, n: int) -> Seq<MusicEntry>
    decreases n,
{
    if n <= 0 {
        Seq::empty()
    } else if is_loose(ts[n - 1], artist) {
        loose_rows(ts, artist, n - 1).push(MusicEntry::Loose((n - 1) as usize))
    } else {
        loose_rows(ts, artist, n - 1)
    }
}

fn is_named(a: &Option<String>, artist: &str) -> (r: bool)
    ensures
        r == named_in(text::opt_text(*a), artist@),
{
    match a {
        Some(n) => eq_ignore_case(n.as_str(), artist),
        None => false,
    }
}

fn mark_own_members(ts: &Vec<Track>, artist: &str) -> (r: Vec<bool>)
    ensures
        r@ == own_members(ts@, artist@),
{
    let ghost all = own_members(ts@, artist@);
    let mut out: Vec<bool> = Vec::new();
    let mut i: usize = 0;
    while i < ts.len()
        invariant
            i <= ts@.len(),
            all == own_members(ts@, artist@),
            out@ == all.take(i as int),
        decreases ts@.len() - i,
    {
        let t: &Track = &ts[i];
        let named: bool = if t.album_artist.is_some() {
            is_named(&t.album_artist, artist)
        } else {
            is_named(&t.artist, artist)
        };
        out.push(t.audio && named);
        i += 1;
        proof {
            assert(all.take(i as int) == all.take(i - 1).push(all[i - 1]));
        }
    }
    proof {
        assert(all.take(i as int) == all);
    }
    out
}

fn rows_of_albums(order: &Vec<usize>) -> (r: Vec<MusicEntry>)
    ensures
        r@ == album_rows(order@),
{
    let mut out: Vec<MusicEntry> = Vec::new();
    let mut i: usize = 0;
    while i < order.len()
        invariant
            i <= order@.len(),
            out@ == album_rows(order@).take(i as int),
        decreases order@.len() - i,
    {
        out.push(MusicEntry::Album(order[i]));
        i += 1;
        proof {
            assert(album_rows(order@).take(i as int) == album_rows(order@).take(i - 1).push(
                album_rows(order@)[i - 1],
            ));
        }
    }
    proof {
        assert(album_rows(order@).take(i as int) == album_rows(order@));
    }
    out
}

/// Whether a page is that of an artist: the albums under the artist's name in
/// the order that is asked for, and then the loose tracks.
pub open spec fn is_discography(p: MusicPage, ts: Seq<Track>, artist: Seq<char>, q: ListQuery) -> bool {
    &&& albums_of(p.albums@, ts, own_members(ts, artist))
    &&& exists|order: Seq<usize>|
        {
            let rows = album_rows(order) + loose_rows(ts, artist, ts.len() as int);
            &&& #[trigger] album_list(
                order,
                p.albums@,
                lowered_names(p.albums@),
                Seq::empty(),
                by_year(text::opt_text(q.sort_by)),
                browse::is_descending(text::opt_text(q.sort_order)),
            )
            &&& p.total == rows.len()
            &&& p.page@ == seqs::page(rows, q.start_index as int, q.limit as int)
        }
}

/// A page of an artist's albums and loose tracks.
pub fn list_discography(ts: &Vec<Track>, artist: &str, q: &ListQuery) -> (r: MusicPage)
    requires
        ts@.len() <= u32::MAX,
    ensures
        is_discography(r, ts@, artist@, *q),
{
    let member = mark_own_members(ts, artist);
    let albums = aggregate_albums(ts, &member);
    let nothing: Vec<String> = Vec::new();
    proof {
        assert(text::texts(nothing@) == Seq::<Seq<char>>::empty());
    }
    let order = sort_album_aggs(
        &albums,
        &nothing,
        str_of(&q.sort_by),
        wants_descending(&q.sort_order),
    );
    let mut rows = rows_of_albums(&order);
    let ghost head = rows@;
    let mut i: usize = 0;
    while i < ts.len()
        invariant
            i <= ts@.len(),
            rows@ == head + loose_rows(ts@, artist@, i as int),
        decreases ts@.len() - i,
    {
        let t: &Track = &ts[i];
        let albumless: bool = match &t.album {
            Some(a) => a.as_str().is_empty(),
            None => true,
        };
        if t.audio && albumless && (is_named(&t.artist, artist) || is_named(
            &t.album_artist,
            artist,
        )) {
            rows.push(MusicEntry::Loose(i));
            proof {
                assert(rows@ =~= head + loose_rows(ts@, artist@, i + 1));
            }
        }
        i += 1;
    }
    let page = cut_page(&rows, q.start_index, q.limit);
    MusicPage { albums, page, total: rows.len() }
}

/// Whether a page is that of the albums which a request asks for.
pub open spec fn is_album_page(p: MusicPage, ts: Seq<Track>, q: ListQuery) -> bool {
    &&& albums_of(p.albums@, ts, request_members(ts, q))
    &&& exists|order: Seq<usize>|
        {
            &&& #[trigger] album_list(
                order,
                p.albums@,
                lowered_names(p.albums@),
                ids_in(text::opt_text(q.exclude_item_ids)),
                by_year(text::opt_text(q.sort_by)),
                browse::is_descending(text::opt_text(q.sort_order)),
            )
            &&& p.total == order.len()
            &&& p.page@ == seqs::page(album_rows(order), q.start_index as int, q.limit as int)
        }
}

/// A page of the albums that a request asks for.
pub fn list_album_page(ts: &Vec<Track>, q: &ListQuery) -> (r: MusicPage)
    requires
        ts@.len() <= u32::MAX,
    ensures
        is_album_page(r, ts@, *q),
{
    let member = mark_request_members(ts, q);
    let albums = aggregate_albums(ts, &member);
    let excluded = id_set(str_of(&q.exclude_item_ids));
    let order = sort_album_aggs(
        &albums,
        &excluded,
        str_of(&q.sort_by),
        wants_descending(&q.sort_order),
    );
    let rows = rows_of_albums(&order);
    let page = cut_page(&rows, q.start_index, q.limit);
    MusicPage { albums, page, total: rows.len() }
}

/// The music list that a request asks for, if it asks for one: an artist's
/// where its parent is an artist and it names no types, and albums where it
/// names albums alone.
pub fn maybe_list_music(ts: &Vec<Track>, artist_parent: Option<&str>, q: &ListQuery) -> (r: Option<
    MusicPage,
>)
    requires
        ts@.len() <= u32::MAX,
    ensures
        match r {
            Some(p) => if q.include_item_types is None {
                artist_parent is Some && is_discography(p, ts@, artist_parent->0@, *q)
            } else {
                browse::only_type(text::opt_text(q.include_item_types), "MusicAlbum"@)
                    && is_album_page(p, ts@, *q)
            },
            None => if q.include_item_types is None {
                artist_parent is None
            } else {
                !browse::only_type(text::opt_text(q.include_item_types), "MusicAlbum"@)
            },
        },
{
    if q.include_item_types.is_none() {
        return match artist_parent {
            Some(artist) => Some(list_discography(ts, artist, q)),
            None => None,
        };
    }
    if music_album_only_request(q) {
        Some(list_album_page(ts, q))
    } else {
        None
    }
}

// -------------------------------------------------------------- names of music

/// An artist that a track names.
pub struct Credit {
    pub name: String,
    pub id: Option<String>,
}

/// Names and ids as texts.
pub open spec fn credit_views(v: Seq<Credit>) -> Seq<(Seq<char>, Option<Seq<char>>)> {
    Seq::new(v.len(), |i: int| (v[i].name@, text::opt_text(v[i].id)))
}

/// A row with one more name, unless there is none.
pub open spec fn with_credit(
    before: Seq<(Seq<char>, Option<Seq<char>>)>,
    name: Option<Seq<char>>,
    id: Option<Seq<char>>,
) -> Seq<(Seq<char>, Option<Seq<char>>)> {
    match name {
        Some(n) => if n.len() > 0 {
            before.push((n, id))
        } else {
            before
        },
        None => before,
    }
}

/// The artists that the first `n` tracks name, each track's album artist first.
pub open spec fn credits_below(ts: Seq<Track>, n: int) -> Seq<(Seq<char>, Option<Seq<char>>)>
    decreases n,
{
    if n <= 0 {
        Seq::empty()
    } else {
        let t = ts[n - 1];
        with_credit(
            with_credit(
                credits_below(ts, n - 1),
                text::opt_text(t.album_artist),
                text::opt_text(t.album_artist_id),
            ),
            text::opt_text(t.artist),
            text::opt_text(t.artist_id),
        )
    }
}

pub open spec fn credits(ts: Seq<Track>) -> Seq<(Seq<char>, Option<Seq<char>>)> {
    credits_below(ts, ts.len() as int)
}

fn push_credit(out: &mut Vec<Credit>, name: &Option<String>, id: &Option<String>)
    ensures
        credit_views(final(out)@) == with_credit(
            credit_views(old(out)@),
            text::opt_text(*name),
            text::opt_text(*id),
        ),
{
    if let Some(n) = name {
        if !n.as_str().is_empty() {
            let ghost before = out@;
            out.push(Credit { name: n.clone(), id: copy_opt(id) });
            proof {
                assert(credit_views(out@) == credit_views(before).push((n@, text::opt_text(*id))));
            }
        }
    }
}

/// The artists that the tracks name.
pub fn list_credits(ts: &Vec<Track>) -> (r: Vec<Credit>)
    ensures
        credit_views(r@) == credits(ts@),
{
    let mut out: Vec<Credit> = Vec::new();
    let mut i: usize = 0;
    proof {
        assert(credit_views(out@) == Seq::<(Seq<char>, Option<Seq<char>>)>::empty());
    }
    while i < ts.len()
        invariant
            i <= ts@.len(),
            credit_views(out@) == credits_below(ts@, i as int),
        decreases ts@.len() - i,
    {
        push_credit(&mut out, &ts[i].album_artist, &ts[i].album_artist_id);
        push_credit(&mut out, &ts[i].artist, &ts[i].artist_id);
        i += 1;
    }
    out
}

/// Whether a name falls under the letter of a request, if it has one.
pub open spec fn letter_ok(name: Seq<char>, letter: Option<Seq<char>>) -> bool {
    letter is Some ==> shows::under_letter(name, letter->0)
}

fn is_letter_ok(name: &str, letter: &Option<String>) -> (r: bool)
    ensures
        r == letter_ok(name@, text::opt_text(*letter)),
{
    match letter {
        Some(l) => name_matches_letter(name, l.as_str()),
        None => true,
    }
}

/// What artists are told apart by.
pub open spec fn artist_keys(
    cs: Seq<(Seq<char>, Option<Seq<char>>)>,
    letter: Option<Seq<char>>,
) -> Seq<Option<Seq<int>>> {
    Seq::new(
        cs.len(),
        |i: int|
            if letter_ok(cs[i].0, letter) {
                Some(sort::text_key(cs[i].0))
            } else {
                None
            },
    )
}

/// Whether `at` is the first mention of each artist, by name.
pub open spec fn artist_list(
    at: Seq<usize>,
    cs: Seq<(Seq<char>, Option<Seq<char>>)>,
    letter: Option<Seq<char>>,
) -> bool {
    let keys = artist_keys(cs, letter);
    &&& forall|k: usize| #[trigger] at.contains(k) <==> sort::is_first(keys, k as int)
    &&& forall|i: int, j: int|
        0 <= i < j < at.len() ==> sort::lex_lt(
            keys[#[trigger] at[i] as int]->0,
            keys[#[trigger] at[j] as int]->0,
        )
}

/// The artists by name, each once, under the letter of a request: their places
/// among the mentions.
pub fn list_artists(cs: &Vec<Credit>, q: &ListQuery) -> (r: Vec<usize>)
    ensures
        artist_list(
            r@,
            credit_views(cs@),
            shows::letter_of(
                text::opt_text(q.name_starts_with),
                text::opt_text(q.name_starts_with_or_greater),
            ),
        ),
{
    let letter = letter_prefix(q);
    let ghost views = artist_keys(credit_views(cs@), text::opt_text(letter));
    let mut keys: Vec<Option<Vec<i64>>> = Vec::new();
    let mut i: usize = 0;
    while i < cs.len()
        invariant
            i <= cs@.len(),
            views == artist_keys(credit_views(cs@), text::opt_text(letter)),
            sort::opt_keys(keys@) == views.take(i as int),
        decreases cs@.len() - i,
    {
        let ghost before = keys@;
        let name: &str = cs[i].name.as_str();
        let key: Option<Vec<i64>> = if is_letter_ok(name, &letter) {
            Some(key_of_text(name))
        } else {
            None
        };
        keys.push(key);
        i += 1;
        proof {
            assert(credit_views(cs@)[i - 1].0 == cs@[i - 1].name@);
            assert(sort::opt_keys(keys@) == sort::opt_keys(before).push(views[i - 1]));
            assert(views.take(i as int) == views.take(i - 1).push(views[i - 1]));
        }
    }
    proof {
        assert(views.take(i as int) == views);
    }
    firsts_in_order(&keys)
}

/// The items that count towards the albums under a letter.
pub open spec fn letter_members(ts: Seq<Track>, letter: Option<Seq<char>>) -> Seq<bool> {
    Seq::new(ts.len(), |i: int| ts[i].album is Some && letter_ok(ts[i].album->0@, letter))
}

/// The albums by name under the letter of a request.
pub fn list_albums(ts: &Vec<Track>, q: &ListQuery) -> (r: Vec<AlbumAgg>)
    requires
        ts@.len() <= u32::MAX,
    ensures
        albums_of(
            r@,
            ts@,
            letter_members(
                ts@,
                shows::letter_of(
                    text::opt_text(q.name_starts_with),
                    text::opt_text(q.name_starts_with_or_greater),
                ),
            ),
        ),
{
    let letter = letter_prefix(q);
    let ghost all = letter_members(ts@, text::opt_text(letter));
    let mut member: Vec<bool> = Vec::new();
    let mut i: usize = 0;
    while i < ts.len()
        invariant
            i <= ts@.len(),
            all == letter_members(ts@, text::opt_text(letter)),
            member@ == all.take(i as int),
        decreases ts@.len() - i,
    {
        let ok: bool = match &ts[i].album {
            Some(a) => is_letter_ok(a.as_str(), &letter),
            None => false,
        };
        member.push(ok);
        i += 1;
        proof {
            assert(all.take(i as int) == all.take(i - 1).push(all[i - 1]));
        }
    }
    proof {
        assert(all.take(i as int) == all);
    }
    aggregate_albums(ts, &member)
}

// ----------------------------------------------------------------- image tags

/// What `xxh3_64` makes of the bytes of a text.
pub uninterp spec fn xxh3_of(s: Seq<char>) -> u64;

/// `xxhash_rust::xxh3::xxh3_64` of the UTF-8 bytes of a text: a number that
/// depends on the bytes alone.
#[verifier::external_body]
fn xxh3_text(s: &str) -> (r: u64)
    ensures
        r == xxh3_of(s@),
{
    xxhash_rust::xxh3::xxh3_64(s.as_bytes())
}

/// The digit of a number below sixteen.
pub open spec fn hex_digit(d: int) -> char {
    if d < 10 {
        ((48 + d) as u8) as char
    } else {
        ((87 + d) as u8) as char
    }
}

/// The last `n` hexadecimal digits of a number.
pub open spec fn hex_digits(x: nat, n: nat) -> Seq<char>
    decreases n,
{
    if n == 0 {
        Seq::empty()
    } else {
        hex_digits(x / 16, (n - 1) as nat).push(hex_digit((x % 16) as int))
    }
}

fn digit_char(d: u64) -> (r: char)
    requires
        d < 16,
    ensures
        r == hex_digit(d as int),
{
    if d < 10 {
        (48 + d as u8) as char
    } else {
        (87 + d as u8) as char
    }
}

pub(crate) fn hex_text(x: u64, n: usize) -> (r: String)
    ensures
        r@ == hex_digits(x as nat, n as nat),
    decreases n,
{
    if n == 0 {
        String::new()
    } else {
        let mut head = hex_text(x / 16, n - 1);
        head.push(digit_char(x % 16));
        head
    }
}

/// The image tag that a number makes: sixteen hexadecimal digits, the highest
/// bit cleared.
pub fn tag_of_number(h: u64) -> (r: String)
    ensures
        r@ == hex_digits((h % 0x8000_0000_0000_0000) as nat, 16),
{
    hex_text(h % 0x8000_0000_0000_0000, 16)
}

/// The tag of an album's cover. It changes with the album's id alone.
pub fn album_image_tag(album_id: &str) -> (r: String)
    ensures
        r@ == hex_digits((xxh3_of(album_id@) % 0x8000_0000_0000_0000) as nat, 16),
{
    tag_of_number(xxh3_text(album_id))
}

// ----------------------------------------------------------------- resemblance

/// An item as far as the resemblance of items goes. The series key tells series
/// of one name apart.
pub struct ItemTraits {
    pub id: u64,
    pub kind: MediaKind,
    pub title: String,
    pub series_key: Option<String>,
    pub album_artist: Option<String>,
    pub album: Option<String>,
    pub genre: Option<String>,
}

/// Whether two optional names are there and the same, whatever the case.
pub open spec fn same_name(a: Option<Seq<char>>, b: Option<Seq<char>>) -> bool {
    a is Some && b is Some && text::eq_ci(a->0, b->0)
}

fn is_same_name(a: &Option<String>, b: &Option<String>) -> (r: bool)
    ensures
        r == same_name(text::opt_text(*a), text::opt_text(*b)),
{
    match (a, b) {
        (Some(x), Some(y)) => eq_ignore_case(x.as_str(), y.as_str()),
        _ => false,
    }
}

pub open spec fn points(yes: bool, n: int) -> int {
    if yes {
        n
    } else {
        0
    }
}

pub open spec fn same_series(t: ItemTraits, c: ItemTraits) -> bool {
    same_name(text::opt_text(t.series_key), text::opt_text(c.series_key))
}

pub open spec fn same_album(t: ItemTraits, c: ItemTraits) -> bool {
    same_name(text::opt_text(t.album), text::opt_text(c.album))
}

pub open spec fn same_album_artist(t: ItemTraits, c: ItemTraits) -> bool {
    same_name(text::opt_text(t.album_artist), text::opt_text(c.album_artist))
}

pub open spec fn same_genre(t: ItemTraits, c: ItemTraits) -> bool {
    same_name(text::opt_text(t.genre), text::opt_text(c.genre))
}

/// How much two items have in common. Music has nothing in common with what is
/// not. The series counts for more than all that follows together, then the
/// album, then the album's artist, then the kind, then the genre.
pub open spec fn resemblance(t: ItemTraits, c: ItemTraits) -> int {
    if (t.kind == MediaKind::Audio) != (c.kind == MediaKind::Audio) {
        0
    } else {
        points(same_series(t, c), 200) + points(same_album(t, c), 80) + points(
            same_album_artist(t, c),
            40,
        ) + points(t.kind == c.kind, 20) + points(same_genre(t, c), 5)
    }
}

/// How much two items have in common.
pub fn similarity_score(target: &ItemTraits, candidate: &ItemTraits) -> (r: u32)
    ensures
        r == resemblance(*target, *candidate),
{
    if matches!(target.kind, MediaKind::Audio) != matches!(candidate.kind, MediaKind::Audio) {
        return 0;
    }
    let mut s: u32 = 0;
    if is_same_name(&target.series_key, &candidate.series_key) {
        s += 200;
    }
    if is_same_name(&target.album, &candidate.album) {
        s += 80;
    }
    if is_same_name(&target.album_artist, &candidate.album_artist) {
        s += 40;
    }
    if target.kind == candidate.kind {
        s += 20;
    }
    if is_same_name(&target.genre, &candidate.genre) {
        s += 5;
    }
    s
}

/// How many items are offered as similar where the client does not say.
pub fn default_similar_limit() -> (r: u32)
    ensures
        r == 12,
{
    12
}

/// Where an item is first found.
pub open spec fn found_at(items: Seq<ItemTraits>, id: u64, t: int) -> bool {
    &&& 0 <= t < items.len()
    &&& items[t].id == id
    &&& forall|k: int| 0 <= k < t ==> (#[trigger] items[k]).id != id
}

/// What the similar items are ordered by: the most in common first, and then by
/// title.
pub open spec fn similar_key(items: Seq<ItemTraits>, t: int) -> spec_fn(int) -> Seq<int> {
    |i: int| seq![0 - resemblance(items[t], items[i])] + sort::text_key(items[i].title@)
}

/// Whether an item is another one that has something in common.
pub open spec fn is_similar(items: Seq<ItemTraits>, t: int) -> spec_fn(int) -> bool {
    |i: int| items[i].id != items[t].id && resemblance(items[t], items[i]) > 0
}

/// A score and a name as a key: the highest score first.
pub(crate) fn key_of_score(score: u32, name: &str) -> (r: Vec<i64>)
    ensures
        sort::key_view(r@) == seq![0 - score as int] + sort::text_key(name@),
{
    let tail = key_of_text(name);
    let head: i64 = 0 - score as i64;
    let mut out: Vec<i64> = vec![head];
    let mut i: usize = 0;
    proof {
        assert(sort::key_view(out@) == seq![0 - score as int]);
    }
    while i < tail.len()
        invariant
            i <= tail@.len(),
            sort::key_view(out@) == seq![0 - score as int] + sort::key_view(tail@).take(i as int),
        decreases tail@.len() - i,
    {
        let ghost before = out@;
        out.push(tail[i]);
        i += 1;
        proof {
            assert(sort::key_view(out@) == sort::key_view(before).push(tail@[i - 1] as int));
            assert(sort::key_view(tail@).take(i as int) == sort::key_view(tail@).take(i - 1).push(
                sort::key_view(tail@)[i - 1],
            ));
        }
    }
    proof {
        assert(sort::key_view(tail@).take(i as int) == sort::key_view(tail@));
    }
    out
}

/// The items similar to one, at most `limit` of them. An item that is not there
/// has none.
pub fn items_similar(items: &Vec<ItemTraits>, id: u64, limit: u32) -> (r: Vec<usize>)
    ensures
        (forall|t: int| !#[trigger] found_at(items@, id, t)) ==> r@.len() == 0,
        forall|t: int| #[trigger]
            found_at(items@, id, t) ==> exists|all: Seq<usize>|
                #[trigger] sort::ranked(
                    all,
                    items@.len() as int,
                    is_similar(items@, t),
                    similar_key(items@, t),
                ) && r@ == seqs::page(all, 0, limit as int),
{
    let mut t: usize = 0;
    while t < items.len() && items[t].id != id
        invariant
            t <= items@.len(),
            forall|k: int| 0 <= k < t ==> (#[trigger] items@[k]).id != id,
        decreases items@.len() - t,
    {
        t += 1;
    }
    if t == items.len() {
        return Vec::new();
    }
    proof {
        assert(found_at(items@, id, t as int));
    }
    let ghost key = similar_key(items@, t as int);
    let ghost wanted = is_similar(items@, t as int);
    let mut keys: Vec<Option<Vec<i64>>> = Vec::new();
    let mut i: usize = 0;
    while i < items.len()
        invariant
            i <= items@.len(),
            t < items@.len(),
            keys@.len() == i,
            key == similar_key(items@, t as int),
            wanted == is_similar(items@, t as int),
            forall|k: int|
                0 <= k < i ==> (#[trigger] sort::opt_keys(keys@)[k]) == (if wanted(k) {
                    Some(key(k))
                } else {
                    None
                }),
        decreases items@.len() - i,
    {
        let ghost before = keys@;
        let score: u32 = similarity_score(&items[t], &items[i]);
        let k: Option<Vec<i64>> = if items[i].id != items[t].id && score > 0 {
            Some(key_of_score(score, items[i].title.as_str()))
        } else {
            None
        };
        keys.push(k);
        proof {
            assert forall|k: int| 0 <= k < i + 1 implies (#[trigger] sort::opt_keys(keys@)[k]) == (
            if wanted(k) {
                Some(key(k))
            } else {
                None
            }) by {
                if k < i {
                    assert(sort::opt_keys(keys@)[k] == sort::opt_keys(before)[k]);
                }
            }
        }
        i += 1;
    }
    let ghost views = sort::opt_keys(keys@);
    let all = rank(keys, Ghost(key));
    proof {
        assert forall|k: usize| #[trigger] all@.contains(k) <==> k < items@.len() && wanted(
            k as int,
        ) by {
            if k < items@.len() {
                assert(views[k as int] is Some <==> wanted(k as int));
            }
        }
        assert(sort::ranked(all@, items@.len() as int, wanted, key));
        assert forall|u: int| #[trigger] found_at(items@, id, u) implies u == t by {
            if u < t {
                assert(items@[u].id != id);
            }
        }
    }
    cut_page(&all, 0, limit)
}

// ----------------------------------------------------------------------- laws

/// Music is never offered beside what is not music, nor the other way round.
pub proof fn law_music_stays_with_music(t: ItemTraits, c: ItemTraits)
    requires
        (t.kind == MediaKind::Audio) != (c.kind == MediaKind::Audio),
    ensures
        resemblance(t, c) == 0,
{
}

/// Two items have as much in common the one way as the other.
pub proof fn law_resemblance_is_mutual(t: ItemTraits, c: ItemTraits)
    ensures
        resemblance(t, c) == resemblance(c, t),
{
}

/// Items come in the order of what they share: those of the series first, then
/// those of the album, then those of the album's artist, then those of the kind,
/// then those of the genre. What comes later in this order never makes up for
/// what comes earlier.
pub proof fn law_what_is_shared_goes_by_rank(t: ItemTraits, a: ItemTraits, b: ItemTraits)
    requires
        (t.kind == MediaKind::Audio) == (a.kind == MediaKind::Audio),
    ensures
        same_series(t, a) && !same_series(t, b) ==> resemblance(t, a) > resemblance(t, b),
        same_series(t, a) == same_series(t, b) && same_album(t, a) && !same_album(t, b)
            ==> resemblance(t, a) > resemblance(t, b),
        same_series(t, a) == same_series(t, b) && same_album(t, a) == same_album(t, b)
            && same_album_artist(t, a) && !same_album_artist(t, b) ==> resemblance(t, a)
            > resemblance(t, b),
        same_series(t, a) == same_series(t, b) && same_album(t, a) == same_album(t, b)
            && same_album_artist(t, a) == same_album_artist(t, b) && t.kind == a.kind && t.kind
            != b.kind ==> resemblance(t, a) > resemblance(t, b),
        same_series(t, a) == same_series(t, b) && same_album(t, a) == same_album(t, b)
            && same_album_artist(t, a) == same_album_artist(t, b) && (t.kind == a.kind) == (t.kind
            == b.kind) && same_genre(t, a) && !same_genre(t, b) ==> resemblance(t, a)
            > resemblance(t, b),
{
}

/// The tracks of an album are counted with at least the one that names it.
pub proof fn law_albums_have_tracks(ts: Seq<Track>, member: Seq<bool>, k: int)
    requires
        0 <= k < ts.len(),
        member.len() == ts.len(),
        member[k],
        ts[k].album is Some,
        ts[k].album->0@.len() > 0,
    ensures
        1 <= track_count(ts, member, ts[k].album->0@, ts.len() as int) <= ts.len(),
{
    lemma_count_bounds(ts, member, ts[k].album->0@, ts.len() as int, k);
}

proof fn lemma_count_bounds(ts: Seq<Track>, member: Seq<bool>, name: Seq<char>, n: int, k: int)
    requires
        0 <= n <= ts.len(),
        0 <= k < ts.len(),
        in_album(ts[k], member[k], name),
    ensures
        0 <= track_count(ts, member, name, n) <= n,
        k < n ==> track_count(ts, member, name, n) >= 1,
    decreases n,
{
    if n > 0 {
        lemma_count_bounds(ts, member, name, n - 1, k);
    }
}

// ------------------------------------------------------------- laws of albums

proof fn lemma_same_text_key(a: Seq<char>, b: Seq<char>)
    requires
        sort::text_key(a) == sort::text_key(b),
    ensures
        a == b,
{
    assert(sort::text_key(a).len() == a.len() && sort::text_key(b).len() == b.len());
    assert(a.len() == b.len());
    assert forall|i: int| 0 <= i < a.len() implies a[i] == b[i] by {
        sort::law_keys_spell_the_text(a);
        sort::law_keys_spell_the_text(b);
        assert(sort::text_key(a)[i] == sort::text_key(b)[i]);
        assert(a[i] as int == b[i] as int);
    }
    assert(a =~= b);
}

proof fn lemma_some_first(keys: Seq<Option<Seq<int>>>, j: int) -> (f: int)
    requires
        0 <= j < keys.len(),
        keys[j] is Some,
    ensures
        0 <= f <= j,
        keys[f] == keys[j],
        sort::is_first(keys, f),
    decreases j,
{
    if sort::is_first(keys, j) {
        j
    } else {
        let i = choose|i: int| 0 <= i < j && #[trigger] keys[i] == keys[j];
        lemma_some_first(keys, i)
    }
}

proof fn lemma_year_below(ts: Seq<Track>, member: Seq<bool>, name: Seq<char>, n: int, k: int)
    requires
        0 <= k < n <= ts.len(),
        in_album(ts[k], member[k], name),
        ts[k].year is Some,
    ensures
        first_year(ts, member, name, n) is Some,
        first_year(ts, member, name, n)->0 <= ts[k].year->0,
    decreases n,
{
    if k < n - 1 {
        lemma_year_below(ts, member, name, n - 1, k);
    }
}

proof fn lemma_credited(ts: Seq<Track>, member: Seq<bool>, name: Seq<char>, n: int, k: int)
    requires
        0 <= k < n <= ts.len(),
        in_album(ts[k], member[k], name),
        credit(ts[k]) is Some,
    ensures
        credited(ts, member, name, n) is Some,
        0 <= credited(ts, member, name, n)->0 <= k,
        in_album(
            ts[credited(ts, member, name, n)->0],
            member[credited(ts, member, name, n)->0],
            name,
        ),
        credit(ts[credited(ts, member, name, n)->0]) is Some,
    decreases n,
{
    if k < n - 1 {
        lemma_credited(ts, member, name, n - 1, k);
    } else if credited(ts, member, name, n - 1) is Some {
        lemma_credited_back(ts, member, name, n - 1);
    }
}

proof fn lemma_credited_back(ts: Seq<Track>, member: Seq<bool>, name: Seq<char>, n: int)
    requires
        0 <= n <= ts.len(),
        credited(ts, member, name, n) is Some,
    ensures
        0 <= credited(ts, member, name, n)->0 < n,
        in_album(
            ts[credited(ts, member, name, n)->0],
            member[credited(ts, member, name, n)->0],
            name,
        ),
        credit(ts[credited(ts, member, name, n)->0]) is Some,
    decreases n,
{
    if n > 0 && credited(ts, member, name, n - 1) is Some {
        lemma_credited_back(ts, member, name, n - 1);
    }
}

/// The tracks of an album make it: under its name it is listed, with no later
/// year than any of them has, and under the artist of one of them.
pub proof fn law_tracks_make_albums(r: Seq<AlbumAgg>, ts: Seq<Track>, member: Seq<bool>, k: int)
    requires
        albums_of(r, ts, member),
        member.len() == ts.len(),
        ts.len() <= usize::MAX,
        0 <= k < ts.len(),
        member[k],
        ts[k].album is Some,
        ts[k].album->0@.len() > 0,
    ensures
        exists|i: int|
            0 <= i < r.len() && (#[trigger] r[i]).name@ == ts[k].album->0@ && r[i].child_count >= 1
                && (ts[k].year is Some ==> r[i].year is Some && r[i].year->0 <= ts[k].year->0) && (
            ts[k].album_artist is Some || ts[k].artist is Some ==> r[i].album_artist is Some
                && exists|j: int|
                0 <= j <= k && text::opt_text((#[trigger] ts[j]).album) == Some(ts[k].album->0@) && (
                text::opt_text(ts[j].album_artist) == text::opt_text(r[i].album_artist) || (
                ts[j].album_artist is None && text::opt_text(ts[j].artist) == text::opt_text(
                    r[i].album_artist,
                )))),
{
    let at = choose|at: Seq<usize>|
        {
            &&& #[trigger] album_firsts(at, ts, member)
            &&& r.len() == at.len()
            &&& forall|i: int|
                0 <= i < r.len() ==> {
                    &&& (#[trigger] r[i]).name@ == ts[at[i] as int].album->0@
                    &&& text::opt_text(r[i].album_id) == text::opt_text(ts[at[i] as int].album_id)
                    &&& album_is(r[i], ts, member)
                }
        };
    let keys = album_keys(ts, member);
    let name = ts[k].album->0@;
    assert(keys[k] == Some(sort::text_key(name)));
    let f = lemma_some_first(keys, k);
    assert(at.contains(f as usize));
    let i = choose|i: int| 0 <= i < at.len() && at[i] == f as usize;
    assert(ts[f].album is Some && member[f]) by {
        assert(keys[f] is Some);
    }
    assert(keys[f] == Some(sort::text_key(ts[f].album->0@)));
    lemma_same_text_key(ts[f].album->0@, name);
    assert(r[i].name@ == name);
    let n = ts.len() as int;
    assert(album_is(r[i], ts, member));
    assert(in_album(ts[k], member[k], name));
    law_albums_have_tracks(ts, member, k);
    if ts[k].year is Some {
        lemma_year_below(ts, member, name, n, k);
    }
    if ts[k].album_artist is Some || ts[k].artist is Some {
        lemma_credited(ts, member, name, n, k);
        let j = credited(ts, member, name, n)->0;
        assert(text::opt_text(ts[j].album) == Some(name));
    }
}

/// No album is listed twice, and none without a track.
pub proof fn law_albums_are_listed_once(r: Seq<AlbumAgg>, ts: Seq<Track>, member: Seq<bool>)
    requires
        albums_of(r, ts, member),
        member.len() == ts.len(),
    ensures
        forall|i: int, j: int|
            0 <= i < j < r.len() ==> (#[trigger] r[i]).name@ != (#[trigger] r[j]).name@,
        forall|i: int|
            0 <= i < r.len() ==> exists|k: int|
                0 <= k < ts.len() && (#[trigger] ts[k]).album is Some && ts[k].album->0@
                    == (#[trigger] r[i]).name@ && member[k],
{
    let at = choose|at: Seq<usize>|
        {
            &&& #[trigger] album_firsts(at, ts, member)
            &&& r.len() == at.len()
            &&& forall|i: int|
                0 <= i < r.len() ==> {
                    &&& (#[trigger] r[i]).name@ == ts[at[i] as int].album->0@
                    &&& text::opt_text(r[i].album_id) == text::opt_text(ts[at[i] as int].album_id)
                    &&& album_is(r[i], ts, member)
                }
        };
    let keys = album_keys(ts, member);
    assert forall|i: int| 0 <= i < r.len() implies exists|k: int|
        0 <= k < ts.len() && (#[trigger] ts[k]).album is Some && ts[k].album->0@
            == (#[trigger] r[i]).name@ && member[k] by {
        let k = at[i] as int;
        assert(at.contains(at[i]));
        assert(sort::is_first(keys, k));
        assert(ts[k].album is Some);
    }
    assert forall|i: int, j: int| 0 <= i < j < r.len() implies (#[trigger] r[i]).name@ != (
    #[trigger] r[j]).name@ by {
        let a = at[i] as int;
        let b = at[j] as int;
        assert(at.contains(at[i]) && at.contains(at[j]));
        assert(sort::is_first(keys, a) && sort::is_first(keys, b));
        assert(sort::lex_lt(keys[a]->0, keys[b]->0));
        sort::lemma_lex_strict(keys[a]->0, keys[b]->0);
        assert(keys[a] == Some(sort::text_key(ts[a].album->0@)));
        assert(keys[b] == Some(sort::text_key(ts[b].album->0@)));
    }
}

/// An artist's own albums are made of the tracks under the artist's name: that
/// of the album, or where the album has none, that of the track.
pub proof fn law_own_albums_are_under_the_name(ts: Seq<Track>, artist: Seq<char>, i: int)
    requires
        0 <= i < ts.len(),
    ensures
        own_members(ts, artist).len() == ts.len(),
        ts[i].album_artist is Some ==> (own_members(ts, artist)[i] <==> ts[i].audio && text::lower(
            ts[i].album_artist->0@,
        ) == text::lower(artist)),
        ts[i].album_artist is None && ts[i].artist is Some ==> (own_members(ts, artist)[i]
            <==> ts[i].audio && text::lower(ts[i].artist->0@) == text::lower(artist)),
        ts[i].album_artist is None && ts[i].artist is None ==> !own_members(ts, artist)[i],
{
}

proof fn lemma_loose(ts: Seq<Track>, artist: Seq<char>, n: int, i: int)
    requires
        0 <= i < n <= ts.len(),
        n <= usize::MAX,
        is_loose(ts[i], artist),
    ensures
        loose_rows(ts, artist, n).contains(MusicEntry::Loose(i as usize)),
    decreases n,
{
    let now = loose_rows(ts, artist, n);
    if i == n - 1 {
        assert(now.last() == MusicEntry::Loose(i as usize));
        assert(now[now.len() - 1] == MusicEntry::Loose(i as usize));
    } else {
        lemma_loose(ts, artist, n - 1, i);
        let before = loose_rows(ts, artist, n - 1);
        let k = choose|k: int| 0 <= k < before.len() && before[k] == MusicEntry::Loose(i as usize);
        assert(now[k] == before[k]);
    }
}

/// A song of an artist's that is on no album is on the artist's page.
pub proof fn law_loose_songs_are_shown(ts: Seq<Track>, artist: Seq<char>, i: int)
    requires
        0 <= i < ts.len() <= usize::MAX,
        ts[i].audio,
        ts[i].album is None || ts[i].album->0@.len() == 0,
        (ts[i].artist is Some && text::lower(ts[i].artist->0@) == text::lower(artist)) || (
        ts[i].album_artist is Some && text::lower(ts[i].album_artist->0@) == text::lower(artist)),
    ensures
        loose_rows(ts, artist, ts.len() as int).contains(MusicEntry::Loose(i as usize)),
{
    lemma_loose(ts, artist, ts.len() as int, i);
}

/// The albums of a request are made of the songs whose artists it names: as the
/// album's own, as performing on it without its being theirs, or in either role.
/// A request that names none takes every song.
pub proof fn law_requests_name_artists(ts: Seq<Track>, q: ListQuery, i: int)
    requires
        0 <= i < ts.len(),
    ensures
        q.album_artist_ids is None && q.contributing_artist_ids is None && q.artist_ids is None
            ==> request_members(ts, q)[i] == ts[i].audio,
        !ts[i].audio ==> !request_members(ts, q)[i],
        request_members(ts, q)[i] && q.album_artist_ids is Some && ids_in(
            Some(q.album_artist_ids->0@),
        ).len() > 0 ==> ts[i].album_artist_id is Some && ids_in(
            Some(q.album_artist_ids->0@),
        ).contains(text::lower(ts[i].album_artist_id->0@)),
        request_members(ts, q)[i] && q.contributing_artist_ids is Some && ids_in(
            Some(q.contributing_artist_ids->0@),
        ).len() > 0 ==> ts[i].artist_id is Some && ids_in(
            Some(q.contributing_artist_ids->0@),
        ).contains(text::lower(ts[i].artist_id->0@)) && !(ts[i].album_artist_id is Some && ids_in(
            Some(q.contributing_artist_ids->0@),
        ).contains(text::lower(ts[i].album_artist_id->0@))),
        q.contributing_artist_ids is None && q.artist_ids is None && q.album_artist_ids is Some
            && ts[i].audio && ts[i].album_artist_id is Some && ids_in(
            Some(q.album_artist_ids->0@),
        ).contains(text::lower(ts[i].album_artist_id->0@)) ==> request_members(ts, q)[i],
        q.contributing_artist_ids is None && q.album_artist_ids is None && q.artist_ids is Some
            && ts[i].audio && ((ts[i].album_artist_id is Some && ids_in(
            Some(q.artist_ids->0@),
        ).contains(text::lower(ts[i].album_artist_id->0@))) || (ts[i].artist_id is Some && ids_in(
            Some(q.artist_ids->0@),
        ).contains(text::lower(ts[i].artist_id->0@)))) ==> request_members(ts, q)[i],
{
}

/// The ids of a list are its entries, in lower case.
pub proof fn law_ids_are_listed(a: Seq<char>, b: Seq<char>)
    ensures
        ids_in(Some(a.push(',') + b)) == ids_in(Some(a)) + ids_in(Some(b)),
        !a.contains(',') && text::trim(a).len() > 0 ==> ids_in(Some(a)) == seq![
            text::lower(text::trim(a)),
        ],
        ids_in(None).len() == 0,
{
    text::law_lists_join_at_the_comma(a, b);
    assert(ids_in(Some(a.push(',') + b)) =~= ids_in(Some(a)) + ids_in(Some(b)));
    if !a.contains(',') && text::trim(a).len() > 0 {
        assert(ids_in(Some(a)) =~= seq![text::lower(text::trim(a))]);
    }
}

/// Albums are listed by their names, and where that is asked for by the year
/// first; a list that is turned round runs the other way. Excluded albums are
/// left out, and no others.
pub proof fn law_albums_are_in_order(
    r: Seq<usize>,
    albums: Seq<AlbumAgg>,
    lowered: Seq<Seq<char>>,
    excluded: Seq<Seq<char>>,
    year_first: bool,
    i: int,
    j: int,
)
    requires
        album_list(r, albums, lowered, excluded, year_first, false),
        0 <= i < j < r.len(),
    ensures
        r[i] < albums.len() && r[j] < albums.len(),
        !(albums[r[i] as int].album_id is Some && excluded.contains(
            text::lower(albums[r[i] as int].album_id->0@),
        )),
        !year_first ==> !sort::lex_lt(
            sort::text_key(lowered[r[j] as int]),
            sort::text_key(lowered[r[i] as int]),
        ),
        year_first && albums[r[i] as int].year is Some ==> albums[r[j] as int].year is Some
            && albums[r[i] as int].year->0 <= albums[r[j] as int].year->0,
{
    assert(r.contains(r[i]) && r.contains(r[j]));
    let a = r[i] as int;
    let b = r[j] as int;
    let key = album_sort(albums, lowered, year_first);
    assert(not_excluded(albums, excluded)(a));
    assert(sort::key_before(key, a, b));
    if !year_first {
        sort::lemma_lex_strict(sort::text_key(lowered[a]), sort::text_key(lowered[b]));
        assert(key(a) == sort::text_key(lowered[a]) && key(b) == sort::text_key(lowered[b]));
        if sort::lex_lt(sort::text_key(lowered[b]), sort::text_key(lowered[a])) {
            sort::lemma_lex_strict(sort::text_key(lowered[b]), sort::text_key(lowered[a]));
        }
    } else if albums[a].year is Some {
        let x = key(a);
        let y = key(b);
        assert(x[0] == 1 && x[1] == albums[a].year->0);
        if albums[b].year is Some {
            assert(y[0] == 1 && y[1] == albums[b].year->0);
            if y[1] < x[1] {
                lemma_second_decides(x, y);
            }
        } else {
            assert(y[0] == 0);
            assert(!sort::lex_lt(x, y));
        }
    }
}

proof fn lemma_second_decides(x: Seq<int>, y: Seq<int>)
    requires
        x.len() >= 2,
        y.len() >= 2,
        x[0] == y[0],
        y[1] < x[1],
    ensures
        !sort::lex_lt(x, y),
        x != y,
{
    reveal_with_fuel(sort::lex_lt, 3);
    let a = x.subrange(1, x.len() as int);
    let b = y.subrange(1, y.len() as int);
    assert(a[0] == x[1] && b[0] == y[1]);
}

/// A list that is turned round is the other one from its end.
pub proof fn law_turned_lists_run_back(
    r: Seq<usize>,
    s: Seq<usize>,
    albums: Seq<AlbumAgg>,
    lowered: Seq<Seq<char>>,
    excluded: Seq<Seq<char>>,
    year_first: bool,
)
    requires
        album_list(r, albums, lowered, excluded, year_first, false),
        album_list(s, albums, lowered, excluded, year_first, true),
    ensures
        s.reverse() == r,
{
    sort::law_there_is_one_ranking(
        r,
        s.reverse(),
        albums.len() as int,
        not_excluded(albums, excluded),
        album_sort(albums, lowered, year_first),
    );
}

/// The year goes first where the first name of the sort order is that of the
/// premiere or of the year.
pub proof fn law_lists_by_year(sort_by: Seq<char>)
    ensures
        by_year(Some(sort_by)) <==> text::trim(text::split(sort_by, ',')[0]) == "PremiereDate"@
            || text::trim(text::split(sort_by, ',')[0]) == "ProductionYear"@,
        !by_year(None),
{
}

// ------------------------------------------------------------ laws of artists

proof fn lemma_credits_grow(ts: Seq<Track>, n: int, m: int, x: (Seq<char>, Option<Seq<char>>))
    requires
        0 <= n <= m <= ts.len(),
        credits_below(ts, n).contains(x),
    ensures
        credits_below(ts, m).contains(x),
    decreases m - n,
{
    if n < m {
        lemma_credits_grow(ts, n, m - 1, x);
        let before = credits_below(ts, m - 1);
        let k = choose|k: int| 0 <= k < before.len() && before[k] == x;
        assert(credits_below(ts, m)[k] == x);
    }
}

/// Every artist that a track names is among the artists, in either role.
pub proof fn law_artists_are_credited(ts: Seq<Track>, i: int)
    requires
        0 <= i < ts.len(),
    ensures
        ts[i].artist is Some && ts[i].artist->0@.len() > 0 ==> credits(ts).contains(
            (ts[i].artist->0@, text::opt_text(ts[i].artist_id)),
        ),
        ts[i].album_artist is Some && ts[i].album_artist->0@.len() > 0 ==> credits(ts).contains(
            (ts[i].album_artist->0@, text::opt_text(ts[i].album_artist_id)),
        ),
{
    let before = credits_below(ts, i);
    let now = credits_below(ts, i + 1);
    if ts[i].artist is Some && ts[i].artist->0@.len() > 0 {
        let x = (ts[i].artist->0@, text::opt_text(ts[i].artist_id));
        assert(now.last() == x);
        assert(now[now.len() - 1] == x);
        lemma_credits_grow(ts, i + 1, ts.len() as int, x);
    }
    if ts[i].album_artist is Some && ts[i].album_artist->0@.len() > 0 {
        let x = (ts[i].album_artist->0@, text::opt_text(ts[i].album_artist_id));
        assert(now[before.len() as int] == x);
        lemma_credits_grow(ts, i + 1, ts.len() as int, x);
    }
}

/// Every artist under the letter is listed, once, and only those.
pub proof fn law_artists_are_listed_once(
    at: Seq<usize>,
    cs: Seq<(Seq<char>, Option<Seq<char>>)>,
    letter: Option<Seq<char>>,
    k: int,
)
    requires
        artist_list(at, cs, letter),
        cs.len() <= usize::MAX,
    ensures
        0 <= k < cs.len() && (letter is None || shows::under_letter(cs[k].0, letter->0)) ==> exists|
            n: usize,
        |
            #[trigger] at.contains(n) && n < cs.len() && cs[n as int].0 == cs[k].0,
        forall|i: int, j: int|
            0 <= i < j < at.len() ==> cs[#[trigger] at[i] as int].0 != cs[#[trigger] at[j] as int].0,
        forall|n: usize| #[trigger]
            at.contains(n) ==> n < cs.len() && (letter is None || shows::under_letter(
                cs[n as int].0,
                letter->0,
            )),
{
    let keys = artist_keys(cs, letter);
    assert forall|n: usize| #[trigger] at.contains(n) implies n < cs.len() && (letter is None
        || shows::under_letter(cs[n as int].0, letter->0)) by {
        assert(sort::is_first(keys, n as int));
    }
    assert forall|i: int, j: int| 0 <= i < j < at.len() implies cs[#[trigger] at[i] as int].0
        != cs[#[trigger] at[j] as int].0 by {
        assert(at.contains(at[i]) && at.contains(at[j]));
        let a = at[i] as int;
        let b = at[j] as int;
        assert(sort::is_first(keys, a) && sort::is_first(keys, b));
        sort::lemma_lex_strict(keys[a]->0, keys[b]->0);
    }
    if 0 <= k < cs.len() && letter_ok(cs[k].0, letter) {
        let f = lemma_some_first(keys, k);
        assert(at.contains(f as usize));
        lemma_same_text_key(cs[f].0, cs[k].0);
    }
}

/// Items of a kind are always offered beside one another, and no item beside
/// itself.
pub proof fn law_what_is_offered(items: Seq<ItemTraits>, t: int, i: int)
    requires
        0 <= t < items.len(),
        0 <= i < items.len(),
    ensures
        items[i].id != items[t].id && items[i].kind == items[t].kind ==> is_similar(items, t)(i),
        items[i].id == items[t].id ==> !is_similar(items, t)(i),
        (items[t].kind == MediaKind::Audio) != (items[i].kind == MediaKind::Audio) ==> !is_similar(
            items,
            t,
        )(i),
{
}

/// The items that are offered stand by how much they have in common with the
/// one that is looked at.
pub proof fn law_the_most_alike_come_first(r: Seq<usize>, items: Seq<ItemTraits>, t: int, i: int, j: int)
    requires
        sort::ranked(r, items.len() as int, is_similar(items, t), similar_key(items, t)),
        0 <= i < j < r.len(),
    ensures
        resemblance(items[t], items[r[i] as int]) >= resemblance(items[t], items[r[j] as int]),
{
    let a = similar_key(items, t)(r[i] as int);
    let b = similar_key(items, t)(r[j] as int);
    assert(a[0] == 0 - resemblance(items[t], items[r[i] as int]));
    assert(b[0] == 0 - resemblance(items[t], items[r[j] as int]));
    assert(sort::key_before(similar_key(items, t), r[i] as int, r[j] as int));
}

proof fn lemma_list_covers(
    order: Seq<usize>,
    albums: Seq<AlbumAgg>,
    lowered: Seq<Seq<char>>,
    excluded: Seq<Seq<char>>,
    year_first: bool,
    descending: bool,
    k: int,
)
    requires
        album_list(order, albums, lowered, excluded, year_first, descending),
        0 <= k < albums.len() <= usize::MAX,
        not_excluded(albums, excluded)(k),
    ensures
        order.contains(k as usize),
{
    let t = shows::turned(order, descending);
    assert(t.contains(k as usize));
    let i = choose|i: int| 0 <= i < t.len() && t[i] == k as usize;
    if descending {
        assert(order[order.len() - 1 - i] == k as usize);
    } else {
        assert(order[i] == k as usize);
    }
}

/// An artist's page that holds everything shows each of the artist's own
/// albums, and behind them each song of the artist's that belongs to none.
pub proof fn law_an_artists_page_is_whole(
    p: MusicPage,
    ts: Seq<Track>,
    artist: Seq<char>,
    q: ListQuery,
    k: int,
    s: int,
)
    requires
        is_discography(p, ts, artist, q),
        q.start_index == 0,
        q.limit >= p.total,
        p.albums@.len() <= usize::MAX,
        ts.len() <= usize::MAX,
        0 <= k < p.albums@.len(),
        0 <= s < ts.len(),
        ts[s].audio,
        ts[s].album is None,
        ts[s].artist is Some,
        text::eq_ci(ts[s].artist->0@, artist),
    ensures
        exists|a: int, b: int|
            0 <= a < b < p.page@.len() && #[trigger] p.page@[a] == MusicEntry::Album(k as usize)
                && #[trigger] p.page@[b] == MusicEntry::Loose(s as usize),
{
    let order = choose|order: Seq<usize>|
        {
            let rows = album_rows(order) + loose_rows(ts, artist, ts.len() as int);
            &&& #[trigger] album_list(
                order,
                p.albums@,
                lowered_names(p.albums@),
                Seq::empty(),
                by_year(text::opt_text(q.sort_by)),
                browse::is_descending(text::opt_text(q.sort_order)),
            )
            &&& p.total == rows.len()
            &&& p.page@ == seqs::page(rows, q.start_index as int, q.limit as int)
        };
    let l = loose_rows(ts, artist, ts.len() as int);
    let rows = album_rows(order) + l;
    assert(p.page@ =~= rows);
    lemma_list_covers(
        order,
        p.albums@,
        lowered_names(p.albums@),
        Seq::empty(),
        by_year(text::opt_text(q.sort_by)),
        browse::is_descending(text::opt_text(q.sort_order)),
        k,
    );
    let a = choose|a: int| 0 <= a < order.len() && order[a] == k as usize;
    assert(rows[a] == MusicEntry::Album(k as usize));
    law_loose_songs_are_shown(ts, artist, s);
    assert(l.contains(MusicEntry::Loose(s as usize)));
    let b = choose|b: int| 0 <= b < l.len() && l[b] == MusicEntry::Loose(s as usize);
    assert(rows[order.len() + b] == MusicEntry::Loose(s as usize));
    assert(p.page@[a] == MusicEntry::Album(k as usize));
    assert(p.page@[order.len() + b] == MusicEntry::Loose(s as usize));
}

/// A page of albums that holds everything shows each album of the request that
/// is not excluded by its id, and nothing but albums.
pub proof fn law_a_page_of_albums_is_whole(p: MusicPage, ts: Seq<Track>, q: ListQuery, k: int)
    requires
        is_album_page(p, ts, q),
        q.start_index == 0,
        q.limit >= p.total,
        p.albums@.len() <= usize::MAX,
        0 <= k < p.albums@.len(),
        p.albums@[k].album_id is None || !ids_in(text::opt_text(q.exclude_item_ids)).contains(
            text::lower(p.albums@[k].album_id->0@),
        ),
    ensures
        p.page@.contains(MusicEntry::Album(k as usize)),
        p.page@.len() == p.total,
        forall|i: int| 0 <= i < p.page@.len() ==> #[trigger] p.page@[i] is Album,
{
    let excluded = ids_in(text::opt_text(q.exclude_item_ids));
    let order = choose|order: Seq<usize>|
        {
            &&& #[trigger] album_list(
                order,
                p.albums@,
                lowered_names(p.albums@),
                excluded,
                by_year(text::opt_text(q.sort_by)),
                browse::is_descending(text::opt_text(q.sort_order)),
            )
            &&& p.total == order.len()
            &&& p.page@ == seqs::page(album_rows(order), q.start_index as int, q.limit as int)
        };
    assert(p.page@ =~= album_rows(order));
    lemma_list_covers(
        order,
        p.albums@,
        lowered_names(p.albums@),
        excluded,
        by_year(text::opt_text(q.sort_by)),
        browse::is_descending(text::opt_text(q.sort_order)),
        k,
    );
    let a = choose|a: int| 0 <= a < order.len() && order[a] == k as usize;
    assert(p.page@[a] == MusicEntry::Album(k as usize));
}

} // verus!
