//! Libraries: their views, their folders, and what they hold in numbers.

use vstd::prelude::*;
use vstd::string::*;
use crate::browse::{self, MediaFilters, MediaQuery, ParentFilter, ParentResolution, UserDataQuery};
use crate::media::{self, passes, read_kinds, read_wanted_kinds, MediaKind};
use crate::query_string::{self, read_pairs};
use crate::seqs::{self, cut_page, marked_places};
use crate::text_sets::{self, holds_text, note_text};
use crate::text::{self, copy_opt, csv_entries, eq_ignore_case, parse_i64, to_lower};

verus! {

// ---------------------------------------------------------------------- counts

/// An item as far as the counts go.
pub struct CountRow {
    pub kind: MediaKind,
    pub series_key: Option<String>,
    pub artist: Option<String>,
    pub album_artist: Option<String>,
    pub album: Option<String>,
    pub genre: Option<String>,
}

/// What a library holds in numbers.
#[derive(Debug, Clone, Copy, PartialEq, Eq, Structural)]
pub struct Counts {
    pub movies: u32,
    pub series: u32,
    pub episodes: u32,
    pub artists: u32,
    pub songs: u32,
    pub albums: u32,
    pub genres: u32,
    pub items: u32,
}

pub open spec fn kind_count(rows: Seq<CountRow>, kind: MediaKind, n: int) -> int
    decreases n,
{
    if n <= 0 {
        0
    } else {
        kind_count(rows, kind, n - 1) + (if rows[n - 1].kind == kind {
            1int
        } else {
            0int
        })
    }
}

/// The names that the first `n` rows have under `name`.
pub open spec fn names_below(
    rows: Seq<CountRow>,
    name: spec_fn(CountRow) -> Option<Seq<char>>,
    n: int,
) -> Set<Seq<char>>
    decreases n,
{
    if n <= 0 {
        Set::empty()
    } else {
        text_sets::with_text(names_below(rows, name, n - 1), name(rows[n - 1]))
    }
}

/// The series of an episode.
pub open spec fn series_of() -> spec_fn(CountRow) -> Option<Seq<char>> {
    |r: CountRow|
        if r.kind == MediaKind::Episode {
            text::opt_text(r.series_key)
        } else {
            None
        }
}

/// The artists that the first `n` rows name, in either role.
pub open spec fn artists_below(rows: Seq<CountRow>, n: int) -> Set<Seq<char>>
    decreases n,
{
    if n <= 0 {
        Set::empty()
    } else {
        text_sets::with_text(
            text_sets::with_text(
                artists_below(rows, n - 1),
                text::opt_text(rows[n - 1].artist),
            ),
            text::opt_text(rows[n - 1].album_artist),
        )
    }
}

pub open spec fn albums_in() -> spec_fn(CountRow) -> Option<Seq<char>> {
    |r: CountRow| text::opt_text(r.album)
}

pub open spec fn genres_in() -> spec_fn(CountRow) -> Option<Seq<char>> {
    |r: CountRow| text::opt_text(r.genre)
}

/// How many distinct texts a row without duplicates has.
proof fn lemma_distinct_len(v: Seq<String>)
    requires
        text::texts(v).no_duplicates(),
    ensures
        text::texts(v).to_set().len() == v.len(),
{
    text::texts(v).unique_seq_to_set();
    assert(text::texts(v).len() == v.len());
}

/// What a library holds in numbers: its films, episodes and songs, and the
/// different series, artists, albums and genres that they name.
pub fn items_counts(rows: &Vec<CountRow>) -> (r: Counts)
    requires
        rows@.len() <= 0x7fff_ffff,
    ensures
        r.movies == kind_count(rows@, MediaKind::Movie, rows@.len() as int),
        r.episodes == kind_count(rows@, MediaKind::Episode, rows@.len() as int),
        r.songs == kind_count(rows@, MediaKind::Audio, rows@.len() as int),
        r.items == rows@.len(),
        r.series == names_below(rows@, series_of(), rows@.len() as int).len(),
        r.artists == artists_below(rows@, rows@.len() as int).len(),
        r.albums == names_below(rows@, albums_in(), rows@.len() as int).len(),
        r.genres == names_below(rows@, genres_in(), rows@.len() as int).len(),
{
    let mut movies: u32 = 0;
    let mut episodes: u32 = 0;
    let mut songs: u32 = 0;
    let mut series: Vec<String> = Vec::new();
    let mut artists: Vec<String> = Vec::new();
    let mut albums: Vec<String> = Vec::new();
    let mut genres: Vec<String> = Vec::new();
    let mut i: usize = 0;
    proof {
        assert(text::texts(series@).to_set() =~= Set::<Seq<char>>::empty());
    }
    while i < rows.len()
        invariant
            i <= rows@.len() <= 0x7fff_ffff,
            movies <= i,
            episodes <= i,
            songs <= i,
            movies == kind_count(rows@, MediaKind::Movie, i as int),
            episodes == kind_count(rows@, MediaKind::Episode, i as int),
            songs == kind_count(rows@, MediaKind::Audio, i as int),
            series@.len() <= i,
            artists@.len() <= 2 * i,
            albums@.len() <= i,
            genres@.len() <= i,
            text::texts(series@).no_duplicates(),
            text::texts(artists@).no_duplicates(),
            text::texts(albums@).no_duplicates(),
            text::texts(genres@).no_duplicates(),
            text::texts(series@).to_set() == names_below(rows@, series_of(), i as int),
            text::texts(artists@).to_set() == artists_below(rows@, i as int),
            text::texts(albums@).to_set() == names_below(rows@, albums_in(), i as int),
            text::texts(genres@).to_set() == names_below(rows@, genres_in(), i as int),
        decreases rows@.len() - i,
    {
        let row: &CountRow = &rows[i];
        match row.kind {
            MediaKind::Movie => {
                movies += 1;
            },
            MediaKind::Episode => {
                episodes += 1;
                note_text(&mut series, &row.series_key);
            },
            MediaKind::Audio => {
                songs += 1;
            },
        }
        note_text(&mut artists, &row.artist);
        note_text(&mut artists, &row.album_artist);
        note_text(&mut albums, &row.album);
        note_text(&mut genres, &row.genre);
        i += 1;
    }
    proof {
        lemma_distinct_len(series@);
        lemma_distinct_len(artists@);
        lemma_distinct_len(albums@);
        lemma_distinct_len(genres@);
    }
    Counts {
        movies,
        series: series.len() as u32,
        episodes,
        artists: artists.len() as u32,
        songs,
        albums: albums.len() as u32,
        genres: genres.len() as u32,
        items: rows.len() as u32,
    }
}

// ---------------------------------------------------------------------- facets

/// What the facets of a list are counted over.
pub struct FiltersQuery {
    pub include_item_types: Option<String>,
    pub is_favorite: Option<bool>,
    pub is_played: Option<bool>,
}

/// Whether a query is the set that facets are counted over: the parent, the
/// kinds and the user's records, unsorted and unpaged.
pub open spec fn facet_query(
    mq: MediaQuery,
    user_id: Seq<char>,
    q: FiltersQuery,
    parent: ParentResolution,
) -> bool {
    &&& mq.parent == (match parent {
        ParentResolution::Filter(pf) => Some(pf),
        _ => None,
    })
    &&& text::opt_text(mq.filters.path_prefix) == (match parent {
        ParentResolution::PathPrefix(p) => Some(p@),
        _ => None,
    })
    &&& text::opt_text(mq.filters.genre_probe_token) == (match parent {
        ParentResolution::GenreProbe(t) => Some(t@),
        _ => None,
    })
    &&& mq.kinds@ == browse::opt_kinds_in(text::opt_text(q.include_item_types))
    &&& browse::user_query_for(
        mq.user_data,
        browse::user_filter(None, q.is_favorite, q.is_played),
        user_id,
    )
    &&& mq.search_term is None && mq.tag_names@.len() == 0 && mq.sort@.len() == 0
    &&& mq.start_index == 0 && mq.limit is None
    &&& mq.allowed_library_wire_ids@.len() == 0 && mq.parental is None
    &&& bare_filters(mq.filters)
}

/// Whether the filters ask nothing but where the items lie.
pub open spec fn bare_filters(f: MediaFilters) -> bool {
    &&& f.exclude_kinds@.len() == 0 && f.media_type_kinds@.len() == 0
    &&& f.has_subtitles is None && f.is_4k is None && f.is_hd is None && f.is_3d is None
    &&& f.min_width is None && f.max_width is None
    &&& f.min_index_number is None && f.max_index_number is None
    &&& f.name_starts_with is None && f.name_less_than is None
    &&& !f.ids_present && f.ids@.len() == 0 && f.genre_probe_names@.len() == 0
}

/// The set that the facets of a list are counted over, and none where the
/// parent names nothing.
pub fn build_facet_base(user_id: &str, q: &FiltersQuery, parent: ParentResolution) -> (r: Option<
    MediaQuery,
>)
    ensures
        r is None <==> parent is Empty,
        r matches Some(mq) ==> facet_query(mq, user_id@, *q, parent),
{
    let mut pivot: Option<ParentFilter> = None;
    let mut path_prefix: Option<String> = None;
    let mut genre: Option<String> = None;
    match parent {
        ParentResolution::Filter(pf) => {
            pivot = Some(pf);
        },
        ParentResolution::PathPrefix(p) => {
            path_prefix = Some(p);
        },
        ParentResolution::GenreProbe(t) => {
            genre = Some(t);
        },
        ParentResolution::All => {},
        ParentResolution::Empty => {
            return None;
        },
    }
    let kinds: Vec<MediaKind> = match &q.include_item_types {
        Some(l) => read_kinds(l.as_str()),
        None => vec![],
    };
    let user: Option<String> = if q.is_favorite.is_some() || q.is_played.is_some() {
        Some(user_id.to_owned())
    } else {
        None
    };
    Some(
        MediaQuery {
            parent: pivot,
            kinds,
            search_term: None,
            tag_names: vec![],
            user_data: UserDataQuery {
                user,
                is_favorite: q.is_favorite,
                is_played: q.is_played,
                is_resumable: false,
                is_impossible: false,
            },
            filters: MediaFilters {
                path_prefix,
                genre_probe_token: genre,
                exclude_kinds: vec![],
                media_type_kinds: vec![],
                has_subtitles: None,
                is_4k: None,
                is_hd: None,
                is_3d: None,
                min_width: None,
                max_width: None,
                min_index_number: None,
                max_index_number: None,
                name_starts_with: None,
                name_less_than: None,
                ids_present: false,
                ids: vec![],
                genre_probe_names: vec![],
            },
            sort: vec![],
            start_index: 0,
            limit: None,
            allowed_library_wire_ids: vec![],
            parental: None,
        },
    )
}

/// The years among the first `n` values: those that are numbers.
pub open spec fn years_below(values: Seq<Seq<char>>, n: int) -> Seq<i64>
    decreases n,
{
    if n <= 0 {
        Seq::empty()
    } else {
        match text::parse_signed(values[n - 1]) {
            Some(y) => years_below(values, n - 1).push(y as i64),
            None => years_below(values, n - 1),
        }
    }
}

/// The years among the values of a facet.
pub fn facet_years(values: &Vec<String>) -> (r: Vec<i64>)
    ensures
        r@ == years_below(text::texts(values@), values@.len() as int),
{
    let mut out: Vec<i64> = Vec::new();
    let mut i: usize = 0;
    while i < values.len()
        invariant
            i <= values@.len(),
            out@ == years_below(text::texts(values@), i as int),
        decreases values@.len() - i,
    {
        proof {
            assert(text::texts(values@)[i as int] == values@[i as int]@);
        }
        if let Some(y) = parse_i64(values[i].as_str()) {
            out.push(y);
        }
        i += 1;
    }
    out
}

/// A value that items are counted by, and the number of its items. Genres and
/// studios have ids.
pub struct FacetValue {
    pub value: String,
    pub wire_id: Option<String>,
    pub count: u64,
}

/// The values of each facet.
pub struct Facets {
    pub genres: Vec<FacetValue>,
    pub studios: Vec<FacetValue>,
    pub tags: Vec<FacetValue>,
    pub official_ratings: Vec<FacetValue>,
    pub years: Vec<FacetValue>,
}

/// A value as text, id and number.
pub type FacetText = (Seq<char>, Option<Seq<char>>, u64);

pub open spec fn facet_texts(v: Seq<FacetValue>) -> Seq<FacetText> {
    Seq::new(v.len(), |i: int| (v[i].value@, text::opt_text(v[i].wire_id), v[i].count))
}

pub open spec fn value_texts(v: Seq<FacetValue>) -> Seq<Seq<char>> {
    Seq::new(v.len(), |i: int| v[i].value@)
}

fn facet_values(v: &Vec<FacetValue>) -> (r: Vec<String>)
    ensures
        text::texts(r@) == value_texts(v@),
{
    let mut out: Vec<String> = Vec::new();
    let mut i: usize = 0;
    while i < v.len()
        invariant
            i <= v@.len(),
            text::texts(out@) =~= value_texts(v@).take(i as int),
        decreases v@.len() - i,
    {
        let ghost before = out@;
        out.push(v[i].value.clone());
        i += 1;
        proof {
            assert(text::texts(out@) =~= text::texts(before).push(v@[i - 1].value@));
            assert(value_texts(v@).take(i as int) =~= value_texts(v@).take(i - 1).push(
                v@[i - 1].value@,
            ));
        }
    }
    proof {
        assert(value_texts(v@).take(i as int) =~= value_texts(v@));
    }
    out
}

fn copy_facet(v: &Vec<FacetValue>) -> (r: Vec<FacetValue>)
    ensures
        facet_texts(r@) == facet_texts(v@),
{
    let mut out: Vec<FacetValue> = Vec::new();
    let mut i: usize = 0;
    while i < v.len()
        invariant
            i <= v@.len(),
            facet_texts(out@) =~= facet_texts(v@).take(i as int),
        decreases v@.len() - i,
    {
        let ghost before = out@;
        out.push(
            FacetValue {
                value: v[i].value.clone(),
                wire_id: copy_opt(&v[i].wire_id),
                count: v[i].count,
            },
        );
        i += 1;
        proof {
            assert(facet_texts(out@) =~= facet_texts(before).push(facet_texts(v@)[i - 1]));
            assert(facet_texts(v@).take(i as int) =~= facet_texts(v@).take(i - 1).push(
                facet_texts(v@)[i - 1],
            ));
        }
    }
    proof {
        assert(facet_texts(v@).take(i as int) =~= facet_texts(v@));
    }
    out
}

/// What a list can be filtered by, in the older form: values alone.
pub struct LegacyFilters {
    pub genres: Vec<String>,
    pub tags: Vec<String>,
    pub official_ratings: Vec<String>,
    pub years: Vec<i64>,
}

/// The filters of a list in the older form. Without a set to count over there
/// are none.
pub fn items_filters_legacy(facets: &Option<Facets>) -> (r: LegacyFilters)
    ensures
        match *facets {
            Some(f) => {
                &&& text::texts(r.genres@) == value_texts(f.genres@)
                &&& text::texts(r.tags@) == value_texts(f.tags@)
                &&& text::texts(r.official_ratings@) == value_texts(f.official_ratings@)
                &&& r.years@ == years_below(value_texts(f.years@), f.years@.len() as int)
            },
            None => r.genres@.len() == 0 && r.tags@.len() == 0 && r.official_ratings@.len() == 0
                && r.years@.len() == 0,
        },
{
    match facets {
        Some(f) => LegacyFilters {
            genres: facet_values(&f.genres),
            tags: facet_values(&f.tags),
            official_ratings: facet_values(&f.official_ratings),
            years: years_of(&f.years),
        },
        None => LegacyFilters {
            genres: vec![],
            tags: vec![],
            official_ratings: vec![],
            years: vec![],
        },
    }
}

fn years_of(v: &Vec<FacetValue>) -> (r: Vec<i64>)
    ensures
        r@ == years_below(value_texts(v@), v@.len() as int),
{
    let values = facet_values(v);
    proof {
        assert(text::texts(values@).len() == values@.len());
        assert(value_texts(v@).len() == v@.len());
    }
    facet_years(&values)
}

/// What a list can be filtered by: the entities with their ids, the other
/// values alone, and how many items each of them has.
pub struct Filters {
    pub genres: Vec<(String, Option<String>)>,
    pub studios: Vec<(String, Option<String>)>,
    pub tags: Vec<String>,
    pub official_ratings: Vec<String>,
    pub years: Vec<i64>,
    pub counts: Facets,
}

pub open spec fn pair_texts(v: Seq<(String, Option<String>)>) -> Seq<(Seq<char>, Option<Seq<char>>)> {
    Seq::new(v.len(), |i: int| (v[i].0@, text::opt_text(v[i].1)))
}

pub open spec fn facet_pairs(v: Seq<FacetValue>) -> Seq<(Seq<char>, Option<Seq<char>>)> {
    Seq::new(v.len(), |i: int| (v[i].value@, text::opt_text(v[i].wire_id)))
}

fn name_pairs(v: &Vec<FacetValue>) -> (r: Vec<(String, Option<String>)>)
    ensures
        pair_texts(r@) == facet_pairs(v@),
{
    let mut out: Vec<(String, Option<String>)> = Vec::new();
    let mut i: usize = 0;
    while i < v.len()
        invariant
            i <= v@.len(),
            pair_texts(out@) =~= facet_pairs(v@).take(i as int),
        decreases v@.len() - i,
    {
        let ghost before = out@;
        out.push((v[i].value.clone(), copy_opt(&v[i].wire_id)));
        i += 1;
        proof {
            assert(pair_texts(out@) =~= pair_texts(before).push(facet_pairs(v@)[i - 1]));
            assert(facet_pairs(v@).take(i as int) =~= facet_pairs(v@).take(i - 1).push(
                facet_pairs(v@)[i - 1],
            ));
        }
    }
    proof {
        assert(facet_pairs(v@).take(i as int) =~= facet_pairs(v@));
    }
    out
}

/// Whether the filters show all that was counted.
pub open spec fn filters_of(r: Filters, f: Facets) -> bool {
    &&& pair_texts(r.genres@) == facet_pairs(f.genres@)
    &&& pair_texts(r.studios@) == facet_pairs(f.studios@)
    &&& text::texts(r.tags@) == value_texts(f.tags@)
    &&& text::texts(r.official_ratings@) == value_texts(f.official_ratings@)
    &&& r.years@ == years_below(value_texts(f.years@), f.years@.len() as int)
    &&& facet_texts(r.counts.genres@) == facet_texts(f.genres@)
    &&& facet_texts(r.counts.studios@) == facet_texts(f.studios@)
    &&& facet_texts(r.counts.tags@) == facet_texts(f.tags@)
    &&& facet_texts(r.counts.official_ratings@) == facet_texts(f.official_ratings@)
    &&& facet_texts(r.counts.years@) == facet_texts(f.years@)
}

/// No filters at all.
pub open spec fn no_filters(r: Filters) -> bool {
    &&& r.genres@.len() == 0 && r.studios@.len() == 0 && r.tags@.len() == 0
    &&& r.official_ratings@.len() == 0 && r.years@.len() == 0
    &&& r.counts.genres@.len() == 0 && r.counts.studios@.len() == 0 && r.counts.tags@.len() == 0
    &&& r.counts.official_ratings@.len() == 0 && r.counts.years@.len() == 0
}

/// The filters of a list. Without a set to count over there are none.
pub fn items_filters2(facets: &Option<Facets>) -> (r: Filters)
    ensures
        match *facets {
            Some(f) => filters_of(r, f),
            None => no_filters(r),
        },
{
    match facets {
        Some(f) => Filters {
            genres: name_pairs(&f.genres),
            studios: name_pairs(&f.studios),
            tags: facet_values(&f.tags),
            official_ratings: facet_values(&f.official_ratings),
            years: years_of(&f.years),
            counts: Facets {
                genres: copy_facet(&f.genres),
                studios: copy_facet(&f.studios),
                tags: copy_facet(&f.tags),
                official_ratings: copy_facet(&f.official_ratings),
                years: copy_facet(&f.years),
            },
        },
        None => Filters {
            genres: vec![],
            studios: vec![],
            tags: vec![],
            official_ratings: vec![],
            years: vec![],
            counts: Facets {
                genres: vec![],
                studios: vec![],
                tags: vec![],
                official_ratings: vec![],
                years: vec![],
            },
        },
    }
}

// ---------------------------------------------------------------------- latest

/// Whether the item at a place is of a kind that a request is limited to.
pub open spec fn kind_at(kinds: Seq<MediaKind>, limit: Option<Seq<MediaKind>>) -> spec_fn(
    usize,
) -> bool {
    |k: usize| media::kind_passes(limit, kinds[k as int])
}

/// The items at some places that are of the kinds asked for.
pub fn filter_by_kinds(at: &Vec<usize>, kinds: &Vec<MediaKind>, types: &Option<String>) -> (r: Vec<
    usize,
>)
    requires
        forall|i: int| 0 <= i < at@.len() ==> #[trigger] at@[i] < kinds@.len(),
    ensures
        r@ == seqs::keep(
            at@,
            kind_at(kinds@, media::wanted_kinds(text::opt_text(*types))),
        ),
{
    let limit = read_wanted_kinds(types);
    let ghost wanted = kind_at(kinds@, media::wanted_kinds(text::opt_text(*types)));
    let mut out: Vec<usize> = Vec::new();
    let mut i: usize = 0;
    proof {
        assert(at@.take(0) == Seq::<usize>::empty());
    }
    while i < at.len()
        invariant
            i <= at@.len(),
            forall|i: int| 0 <= i < at@.len() ==> #[trigger] at@[i] < kinds@.len(),
            media::opt_kinds(limit) == media::wanted_kinds(text::opt_text(*types)),
            wanted == kind_at(kinds@, media::wanted_kinds(text::opt_text(*types))),
            out@ == seqs::keep(at@.take(i as int), wanted),
        decreases at@.len() - i,
    {
        proof {
            seqs::lemma_keep_step(at@, wanted, i as int);
        }
        if passes(&limit, kinds[at[i]]) {
            out.push(at[i]);
        }
        i += 1;
    }
    proof {
        assert(at@.take(i as int) == at@);
    }
    out
}

/// The latest items under a parent: those of the kinds asked for, at most a
/// hundred of them.
pub fn latest_items(
    under: &Vec<usize>,
    kinds: &Vec<MediaKind>,
    types: &Option<String>,
    limit: u32,
) -> (r: Vec<usize>)
    requires
        forall|i: int| 0 <= i < under@.len() ==> #[trigger] under@[i] < kinds@.len(),
    ensures
        r@ == seqs::page(
            seqs::keep(
                under@,
                kind_at(kinds@, media::wanted_kinds(text::opt_text(*types))),
            ),
            0,
            if limit <= 100 {
                limit as int
            } else {
                100
            },
        ),
{
    let typed = filter_by_kinds(under, kinds, types);
    cut_page(
        &typed,
        0,
        if limit <= 100 {
            limit
        } else {
            100
        },
    )
}

// ---------------------------------------------------------------------- resume

/// The media types that a query string limits a list to, in lower case.
pub open spec fn resume_types(qs: Seq<char>) -> Seq<Seq<char>> {
    match seqs::first_such(
        query_string::pairs(qs),
        |p: query_string::Pair| text::eq_ci(p.0, "MediaTypes"@),
    ) {
        Some(p) => Seq::new(text::csv(p.1).len(), |i: int| text::lower(text::csv(p.1)[i])),
        None => Seq::empty(),
    }
}

/// The media type of a kind.
pub open spec fn type_of(k: MediaKind) -> Seq<char> {
    if k == MediaKind::Audio {
        "audio"@
    } else {
        "video"@
    }
}

/// Whether an item belongs in a list that is limited to some media types.
pub open spec fn resumes(types: Seq<Seq<char>>, k: MediaKind) -> bool {
    types.len() == 0 || types.contains(type_of(k))
}

pub open spec fn resume_flags(kinds: Seq<MediaKind>, qs: Seq<char>) -> Seq<bool> {
    Seq::new(kinds.len(), |i: int| resumes(resume_types(qs), kinds[i]))
}

fn read_resume_types(qs: &str) -> (r: Vec<String>)
    ensures
        text::texts(r@) == resume_types(qs@),
{
    let pairs = read_pairs(qs);
    let ghost views = query_string::pairs(qs@);
    let ghost wanted = |p: query_string::Pair| text::eq_ci(p.0, "MediaTypes"@);
    let mut i: usize = 0;
    while i < pairs.len() && !eq_ignore_case(pairs[i].0.as_str(), "MediaTypes")
        invariant
            i <= pairs@.len(),
            query_string::pair_views(pairs@) == views,
            views == query_string::pairs(qs@),
            wanted == (|p: query_string::Pair| text::eq_ci(p.0, "MediaTypes"@)),
            forall|k: int| 0 <= k < i ==> !wanted(#[trigger] views[k]),
        decreases pairs@.len() - i,
    {
        proof {
            assert(query_string::pair_views(pairs@)[i as int] == (
                pairs@[i as int].0@,
                pairs@[i as int].1@,
            ));
        }
        i += 1;
    }
    let mut out: Vec<String> = Vec::new();
    proof {
        assert(query_string::pair_views(pairs@).len() == pairs@.len());
        if i < pairs@.len() {
            assert(query_string::pair_views(pairs@)[i as int] == (
                pairs@[i as int].0@,
                pairs@[i as int].1@,
            ));
            assert(wanted(views[i as int]));
        }
        seqs::lemma_first_such(views, wanted, i as int);
        assert(text::texts(out@) == Seq::<Seq<char>>::empty());
    }
    if i == pairs.len() {
        return out;
    }
    let entries = csv_entries(pairs[i].1.as_str());
    let ghost all = resume_types(qs@);
    proof {
        assert(text::texts(entries@).len() == entries@.len());
    }
    let mut k: usize = 0;
    while k < entries.len()
        invariant
            k <= entries@.len(),
            entries@.len() == all.len(),
            i < pairs@.len(),
            text::texts(entries@) == text::csv(pairs@[i as int].1@),
            all == Seq::new(
                text::csv(pairs@[i as int].1@).len(),
                |j: int| text::lower(text::csv(pairs@[i as int].1@)[j]),
            ),
            text::texts(out@) == all.take(k as int),
        decreases entries@.len() - k,
    {
        let ghost before = out@;
        out.push(to_lower(entries[k].as_str()));
        k += 1;
        proof {
            assert(text::texts(entries@)[k - 1] == entries@[k - 1]@);
            assert(text::texts(out@) == text::texts(before).push(all[k - 1]));
            assert(all.take(k as int) == all.take(k - 1).push(all[k - 1]));
        }
    }
    proof {
        assert(all.take(k as int) == all);
    }
    out
}

/// The items to go on with, limited to the media types that the query string
/// names: their places.
pub fn resume_items(kinds: &Vec<MediaKind>, qs: &str) -> (r: Vec<usize>)
    ensures
        r@ == seqs::all_marked(resume_flags(kinds@, qs@)),
{
    let types = read_resume_types(qs);
    let ghost all = resume_flags(kinds@, qs@);
    let mut flags: Vec<bool> = Vec::new();
    let mut i: usize = 0;
    proof {
        assert(text::texts(types@).len() == types@.len());
    }
    while i < kinds.len()
        invariant
            i <= kinds@.len(),
            text::texts(types@) == resume_types(qs@),
            text::texts(types@).len() == types@.len(),
            all == resume_flags(kinds@, qs@),
            flags@ == all.take(i as int),
        decreases kinds@.len() - i,
    {
        let name: &str = match kinds[i] {
            MediaKind::Audio => "audio",
            _ => "video",
        };
        flags.push(types.len() == 0 || holds_text(&types, name));
        i += 1;
        proof {
            assert(all.take(i as int) == all.take(i - 1).push(all[i - 1]));
        }
    }
    proof {
        assert(all.take(i as int) == all);
    }
    marked_places(&flags)
}

// ------------------------------------------------------------------------ laws

/// Counting goes row by row: one more film is one more, and an item of another
/// kind is none.
pub proof fn law_kinds_are_counted(rows: Seq<CountRow>, kind: MediaKind, n: int)
    requires
        0 <= n < rows.len(),
    ensures
        kind_count(rows, kind, 0) == 0,
        rows[n].kind == kind ==> kind_count(rows, kind, n + 1) == kind_count(rows, kind, n) + 1,
        rows[n].kind != kind ==> kind_count(rows, kind, n + 1) == kind_count(rows, kind, n),
        kind_count(rows, MediaKind::Movie, n) + kind_count(rows, MediaKind::Episode, n)
            + kind_count(rows, MediaKind::Audio, n) == n,
    decreases n,
{
    if n > 0 {
        law_kinds_are_counted(rows, MediaKind::Movie, n - 1);
    }
}

proof fn lemma_names_below(
    rows: Seq<CountRow>,
    name: spec_fn(CountRow) -> Option<Seq<char>>,
    n: int,
    t: Seq<char>,
)
    requires
        0 <= n <= rows.len(),
    ensures
        names_below(rows, name, n).contains(t) <==> exists|i: int|
            0 <= i < n && name(#[trigger] rows[i]) == Some(t),
    decreases n,
{
    if n > 0 {
        lemma_names_below(rows, name, n - 1, t);
        if name(rows[n - 1]) == Some(t) {
            assert(names_below(rows, name, n).contains(t));
        }
    }
}

/// The names that are counted are those that the items have: the series of
/// episodes, the albums and the genres of all items, each once.
pub proof fn law_names_are_counted_once(rows: Seq<CountRow>, t: Seq<char>)
    ensures
        names_below(rows, series_of(), rows.len() as int).contains(t) <==> exists|i: int|
            0 <= i < rows.len() && (#[trigger] rows[i]).kind == MediaKind::Episode
                && rows[i].series_key is Some && rows[i].series_key->0@ == t,
        names_below(rows, albums_in(), rows.len() as int).contains(t) <==> exists|i: int|
            0 <= i < rows.len() && (#[trigger] rows[i]).album is Some && rows[i].album->0@ == t,
        names_below(rows, genres_in(), rows.len() as int).contains(t) <==> exists|i: int|
            0 <= i < rows.len() && (#[trigger] rows[i]).genre is Some && rows[i].genre->0@ == t,
{
    let n = rows.len() as int;
    lemma_names_below(rows, series_of(), n, t);
    lemma_names_below(rows, albums_in(), n, t);
    lemma_names_below(rows, genres_in(), n, t);
    assert forall|i: int| 0 <= i < n implies (series_of()(#[trigger] rows[i]) == Some(t)) == (
    rows[i].kind == MediaKind::Episode && rows[i].series_key is Some && rows[i].series_key->0@
        == t) by {}
    assert forall|i: int| 0 <= i < n implies (albums_in()(#[trigger] rows[i]) == Some(t)) == (
    rows[i].album is Some && rows[i].album->0@ == t) by {}
    assert forall|i: int| 0 <= i < n implies (genres_in()(#[trigger] rows[i]) == Some(t)) == (
    rows[i].genre is Some && rows[i].genre->0@ == t) by {}
}

/// The artists that are counted are those that the items name, in either role,
/// each once.
pub proof fn law_artists_are_counted_once(rows: Seq<CountRow>, n: int, t: Seq<char>)
    requires
        0 <= n <= rows.len(),
    ensures
        artists_below(rows, n).contains(t) <==> exists|i: int|
            0 <= i < n && (((#[trigger] rows[i]).artist is Some && rows[i].artist->0@ == t) || (
            rows[i].album_artist is Some && rows[i].album_artist->0@ == t)),
    decreases n,
{
    if n > 0 {
        law_artists_are_counted_once(rows, n - 1, t);
        let r = rows[n - 1];
        if (r.artist is Some && r.artist->0@ == t) || (r.album_artist is Some
            && r.album_artist->0@ == t) {
            assert(artists_below(rows, n).contains(t));
        }
    }
}

/// What is counted over is what the request covers: its parent and its kinds,
/// and nothing is left out for its title, its page or its tags.
pub proof fn law_facets_are_counted_over_the_request(
    mq: MediaQuery,
    user_id: Seq<char>,
    q: FiltersQuery,
    parent: ParentResolution,
)
    requires
        facet_query(mq, user_id, q, parent),
    ensures
        parent matches ParentResolution::Filter(pf) ==> mq.parent == Some(pf),
        parent is All ==> mq.parent is None && mq.filters.path_prefix is None,
        parent matches ParentResolution::PathPrefix(p) ==> mq.filters.path_prefix is Some
            && mq.filters.path_prefix->0@ == p@,
        parent matches ParentResolution::GenreProbe(g) ==> mq.filters.genre_probe_token is Some
            && mq.filters.genre_probe_token->0@ == g@,
        q.include_item_types is None ==> mq.kinds@.len() == 0,
        q.include_item_types is Some ==> mq.kinds@ == media::kinds_in(q.include_item_types->0@),
        q.is_favorite is Some ==> mq.user_data.is_favorite == q.is_favorite
            && mq.user_data.user is Some && mq.user_data.user->0@ == user_id,
        q.is_played is Some ==> mq.user_data.is_played == q.is_played && mq.user_data.user is Some
            && mq.user_data.user->0@ == user_id,
        q.is_favorite is None && q.is_played is None ==> mq.user_data.user is None,
        !mq.user_data.is_impossible && !mq.user_data.is_resumable,
        mq.limit is None && mq.start_index == 0 && mq.search_term is None,
{
}

/// The years of a list are those of its values that are numbers, in their order.
pub proof fn law_years_are_numbers(values: Seq<Seq<char>>, n: int)
    requires
        0 <= n < values.len(),
    ensures
        years_below(values, 0).len() == 0,
        text::parse_signed(values[n]) is None ==> years_below(values, n + 1) == years_below(
            values,
            n,
        ),
        text::parse_signed(values[n]) is Some ==> years_below(values, n + 1) == years_below(
            values,
            n,
        ).push(text::parse_signed(values[n])->0 as i64),
{
}

/// A list of filters shows every genre and studio with its id, and every tag,
/// rating and year that was counted, with its number.
pub proof fn law_filters_show_what_was_counted(r: Filters, f: Facets, i: int)
    requires
        filters_of(r, f),
    ensures
        r.genres@.len() == f.genres@.len() && r.studios@.len() == f.studios@.len(),
        r.tags@.len() == f.tags@.len() && r.official_ratings@.len() == f.official_ratings@.len(),
        r.counts.genres@.len() == f.genres@.len() && r.counts.years@.len() == f.years@.len(),
        0 <= i < f.genres@.len() ==> r.genres@[i].0@ == f.genres@[i].value@ && text::opt_text(
            r.genres@[i].1,
        ) == text::opt_text(f.genres@[i].wire_id) && r.counts.genres@[i].count
            == f.genres@[i].count && r.counts.genres@[i].value@ == f.genres@[i].value@,
        0 <= i < f.studios@.len() ==> r.studios@[i].0@ == f.studios@[i].value@ && text::opt_text(
            r.studios@[i].1,
        ) == text::opt_text(f.studios@[i].wire_id),
        0 <= i < f.tags@.len() ==> r.tags@[i]@ == f.tags@[i].value@,
        0 <= i < f.official_ratings@.len() ==> r.official_ratings@[i]@
            == f.official_ratings@[i].value@,
{
    let a = pair_texts(r.genres@);
    let b = facet_pairs(f.genres@);
    assert(a.len() == r.genres@.len() && b.len() == f.genres@.len());
    let c = pair_texts(r.studios@);
    let d = facet_pairs(f.studios@);
    assert(c.len() == r.studios@.len() && d.len() == f.studios@.len());
    assert(text::texts(r.tags@).len() == value_texts(f.tags@).len());
    assert(text::texts(r.official_ratings@).len() == value_texts(f.official_ratings@).len());
    assert(facet_texts(r.counts.genres@).len() == facet_texts(f.genres@).len());
    assert(facet_texts(r.counts.years@).len() == facet_texts(f.years@).len());
    if 0 <= i < f.genres@.len() {
        assert(a[i] == b[i]);
        assert(facet_texts(r.counts.genres@)[i] == facet_texts(f.genres@)[i]);
    }
    if 0 <= i < f.studios@.len() {
        assert(c[i] == d[i]);
    }
    if 0 <= i < f.tags@.len() {
        assert(text::texts(r.tags@)[i] == value_texts(f.tags@)[i]);
    }
    if 0 <= i < f.official_ratings@.len() {
        assert(text::texts(r.official_ratings@)[i] == value_texts(f.official_ratings@)[i]);
    }
}

/// What is gone on with is of the media types that the query string names:
/// `Audio` for songs and `Video` for all else, and everything where it names
/// none.
pub proof fn law_what_is_gone_on_with(kinds: Seq<MediaKind>, qs: Seq<char>, k: usize)
    requires
        kinds.len() <= usize::MAX,
    ensures
        query_string::value_of(qs, "MediaTypes"@) is None ==> (seqs::all_marked(
            resume_flags(kinds, qs),
        ).contains(k) <==> k < kinds.len()),
        query_string::value_of(qs, "MediaTypes"@) is Some ==> {
            let listed = text::csv(query_string::value_of(qs, "MediaTypes"@)->0);
            seqs::all_marked(resume_flags(kinds, qs)).contains(k) <==> k < kinds.len() && (
            listed.len() == 0 || exists|i: int|
                0 <= i < listed.len() && text::lower(#[trigger] listed[i]) == (if kinds[k as int]
                    == MediaKind::Audio {
                    "audio"@
                } else {
                    "video"@
                }))
        },
{
    seqs::lemma_marked(resume_flags(kinds, qs), kinds.len() as int);
    let f = |p: query_string::Pair| text::eq_ci(p.0, "MediaTypes"@);
    let all = query_string::pairs(qs);
    assert(seqs::first_such(all, f) == seqs::first_such(
        all,
        query_string::has_key("MediaTypes"@),
    )) by {
        seqs::law_the_first_is_first(all, f);
        if let Some(x) = seqs::first_such(all, f) {
            let i = choose|i: int|
                0 <= i < all.len() && #[trigger] all[i] == x && f(all[i]) && forall|k: int|
                    0 <= k < i ==> !f(#[trigger] all[k]);
            assert forall|k: int| 0 <= k < i implies !query_string::has_key("MediaTypes"@)(
                #[trigger] all[k],
            ) by {
                assert(!f(all[k]));
            }
            seqs::lemma_first_such(all, query_string::has_key("MediaTypes"@), i);
        } else {
            assert forall|k: int| 0 <= k < all.len() implies !query_string::has_key("MediaTypes"@)(
                #[trigger] all[k],
            ) by {
                assert(!f(all[k]));
            }
            seqs::lemma_first_such(
                all,
                query_string::has_key("MediaTypes"@),
                all.len() as int,
            );
        }
    }
    if query_string::value_of(qs, "MediaTypes"@) is Some && k < kinds.len() {
        let listed = text::csv(query_string::value_of(qs, "MediaTypes"@)->0);
        let types = resume_types(qs);
        assert(types =~= Seq::new(listed.len(), |i: int| text::lower(listed[i])));
        let name = type_of(kinds[k as int]);
        if types.contains(name) {
            let i = choose|i: int| 0 <= i < types.len() && types[i] == name;
            assert(text::lower(listed[i]) == name);
        }
        if exists|i: int| 0 <= i < listed.len() && text::lower(#[trigger] listed[i]) == name {
            let i = choose|i: int| 0 <= i < listed.len() && text::lower(#[trigger] listed[i]) == name;
            assert(types[i] == name);
        }
    }
}

} // verus!
