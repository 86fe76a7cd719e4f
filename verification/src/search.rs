//! The search box: hints for a term, and suggestions without one.

use vstd::prelude::*;
use crate::media::{self, passes, read_kinds, read_wanted_kinds, MediaKind};
use crate::seqs::{self, page};
use crate::shuffle::{self, pseudo_seed, xorshift_shuffle};
use crate::text::{self, csv_has_name, eq_text, has_part, to_unicode_lower, trimmed};

verus! {

/// What a search request holds.
#[derive(Debug)]
pub struct SearchQuery {
    pub search_term: Option<String>,
    pub limit: u32,
    pub start_index: u32,
    pub include_item_types: Option<String>,
}

/// The page size of a search that names none.
pub fn default_limit() -> (r: u32)
    ensures
        r == 25,
{
    25
}

/// An item that a hint can point to.
#[derive(Debug)]
pub struct ItemRef {
    pub id: String,
    pub title: String,
    pub kind: MediaKind,
    pub run_time_ticks: Option<u64>,
}

/// A named thing with the id that it goes by on the wire.
#[derive(Debug)]
pub struct NameRef {
    pub id: String,
    pub name: String,
}

/// An item of the library with the names that its tags carry.
#[derive(Debug)]
pub struct CorpusItem {
    pub item: ItemRef,
    pub artist: Option<NameRef>,
    pub album_artist: Option<NameRef>,
    pub album: Option<NameRef>,
    pub genre: Option<NameRef>,
}

/// What a name is the name of.
#[derive(Debug, Clone, Copy, PartialEq, Eq, Structural)]
pub enum Category {
    MusicArtist,
    MusicAlbum,
    Genre,
    Person,
    Studio,
    BoxSet,
    Tag,
}

/// A name that may become a hint, with its lower-case form.
#[derive(Debug)]
pub struct Candidate {
    pub category: Category,
    pub id: String,
    pub name: String,
    pub folded: String,
}

/// One search hint.
#[derive(Debug)]
pub struct SearchHint {
    pub item_id: String,
    pub id: String,
    pub name: String,
    pub kind: &'static str,
    pub media_type: &'static str,
    pub run_time_ticks: Option<u64>,
    pub matched_term: String,
    pub is_folder: bool,
}

/// A page of hints and how many there are in all.
#[derive(Debug)]
pub struct SearchHintsResult {
    pub search_hints: Vec<SearchHint>,
    pub total_record_count: u32,
}

/// Where the items of a search come from.
#[derive(Debug)]
pub enum SearchPlan {
    /// Every item of the library.
    Browse,
    /// The store's full-text index.
    Lookup { term: String, kinds: Vec<MediaKind>, limit: u32 },
}

// ---------------------------------------------------------------------- models

pub ghost struct HintView {
    pub id: Seq<char>,
    pub name: Seq<char>,
    pub kind: Seq<char>,
    pub media_type: Seq<char>,
    pub run_time_ticks: Option<u64>,
    pub matched_term: Seq<char>,
    pub is_folder: bool,
}

pub ghost struct CandidateView {
    pub category: Category,
    pub id: Seq<char>,
    pub name: Seq<char>,
    pub folded: Seq<char>,
}

/// A hint shows its id twice; the two are the same.
pub open spec fn hint_is(h: SearchHint, v: HintView) -> bool {
    &&& h.item_id@ == v.id
    &&& h.id@ == v.id
    &&& h.name@ == v.name
    &&& h.kind@ == v.kind
    &&& h.media_type@ == v.media_type
    &&& h.run_time_ticks == v.run_time_ticks
    &&& h.matched_term@ == v.matched_term
    &&& h.is_folder == v.is_folder
}

pub open spec fn hints_are(hs: Seq<SearchHint>, vs: Seq<HintView>) -> bool {
    hs.len() == vs.len() && forall|i: int|
        0 <= i < hs.len() ==> hint_is(#[trigger] hs[i], vs[i])
}

pub open spec fn candidate_view(c: Candidate) -> CandidateView {
    CandidateView { category: c.category, id: c.id@, name: c.name@, folded: c.folded@ }
}

pub open spec fn candidate_views(cs: Seq<Candidate>) -> Seq<CandidateView> {
    cs.map_values(|c: Candidate| candidate_view(c))
}

pub open spec fn kind_label(k: MediaKind) -> Seq<char> {
    match k {
        MediaKind::Movie => "Movie"@,
        MediaKind::Episode => "Episode"@,
        MediaKind::Audio => "Audio"@,
    }
}

pub open spec fn media_label(k: MediaKind) -> Seq<char> {
    match k {
        MediaKind::Audio => "Audio"@,
        _ => "Video"@,
    }
}

pub open spec fn category_label(c: Category) -> Seq<char> {
    match c {
        Category::MusicArtist => "MusicArtist"@,
        Category::MusicAlbum => "MusicAlbum"@,
        Category::Genre => "Genre"@,
        Category::Person => "Person"@,
        Category::Studio => "Studio"@,
        Category::BoxSet => "BoxSet"@,
        Category::Tag => "Tag"@,
    }
}

pub open spec fn item_hint(i: ItemRef, term: Seq<char>) -> HintView {
    HintView {
        id: i.id@,
        name: i.title@,
        kind: kind_label(i.kind),
        media_type: media_label(i.kind),
        run_time_ticks: i.run_time_ticks,
        matched_term: term,
        is_folder: false,
    }
}

pub open spec fn name_hint(c: CandidateView, term: Seq<char>) -> HintView {
    HintView {
        id: c.id,
        name: c.name,
        kind: category_label(c.category),
        media_type: "Unknown"@,
        run_time_ticks: None,
        matched_term: term,
        is_folder: true,
    }
}

pub open spec fn item_hints(items: Seq<ItemRef>, term: Seq<char>) -> Seq<HintView> {
    items.map_values(|i: ItemRef| item_hint(i, term))
}

pub open spec fn name_hints(cs: Seq<CandidateView>, term: Seq<char>) -> Seq<HintView> {
    cs.map_values(|c: CandidateView| name_hint(c, term))
}

pub open spec fn name_matches(needle: Seq<char>) -> spec_fn(CandidateView) -> bool {
    |c: CandidateView| text::contains(c.folded, needle)
}

/// Whether a name of this category stands among `cs`.
pub open spec fn listed(cs: Seq<CandidateView>, category: Category, name: Seq<char>) -> bool {
    exists|i: int|
        0 <= i < cs.len() && (#[trigger] cs[i]).category == category && cs[i].name == name
}

/// The matching names, each at its first occurrence within its category.
pub open spec fn first_matches(cs: Seq<CandidateView>, needle: Seq<char>) -> Seq<CandidateView>
    decreases cs.len(),
{
    if cs.len() == 0 {
        Seq::empty()
    } else {
        let rest = first_matches(cs.drop_last(), needle);
        let c = cs.last();
        if name_matches(needle)(c) && !listed(rest, c.category, c.name) {
            rest.push(c)
        } else {
            rest
        }
    }
}

/// The types of the names that stand in the items' tags.
pub open spec fn tag_types() -> Seq<Seq<char>> {
    seq!["musicartist"@, "musicalbum"@, "genre"@]
}

/// The types of all names.
pub open spec fn name_types() -> Seq<Seq<char>> {
    seq!["musicartist"@, "musicalbum"@, "genre"@, "person"@, "studio"@, "tag"@]
}

/// The names in the items' tags are hinted at unless the request lists types
/// and none of them is an artist, an album or a genre.
pub open spec fn wants_tagged(types: Option<Seq<char>>) -> bool {
    types matches Some(t) ==> text::csv_names(t, tag_types())
}

/// The names in the catalogue are hinted at unless the request lists types and
/// none of them is that of a name.
pub open spec fn wants_catalogued(types: Option<Seq<char>>) -> bool {
    types matches Some(t) ==> text::csv_names(t, name_types())
}

/// All hints: first the items, then the names in the items' tags, then the
/// names in the catalogue.
pub open spec fn all_hints(
    term: Seq<char>,
    needle: Seq<char>,
    items: Seq<HintView>,
    with_tagged: bool,
    tagged: Seq<CandidateView>,
    with_catalogued: bool,
    catalogued: Seq<CandidateView>,
) -> Seq<HintView> {
    let first = if with_tagged && needle.len() > 0 {
        items + name_hints(first_matches(tagged, needle), term)
    } else {
        items
    };
    if with_catalogued && needle.len() > 0 {
        first + name_hints(seqs::keep(catalogued, name_matches(needle)), term)
    } else {
        first
    }
}

// ------------------------------------------------------------------- functions

/// The type name of an item.
pub fn jellyfin_type(k: MediaKind) -> (r: &'static str)
    ensures
        r@ == kind_label(k),
{
    match k {
        MediaKind::Movie => "Movie",
        MediaKind::Episode => "Episode",
        MediaKind::Audio => "Audio",
    }
}

/// The media type name of an item.
pub fn media_type(k: MediaKind) -> (r: &'static str)
    ensures
        r@ == media_label(k),
{
    match k {
        MediaKind::Audio => "Audio",
        _ => "Video",
    }
}

fn category_type(c: Category) -> (r: &'static str)
    ensures
        r@ == category_label(c),
{
    match c {
        Category::MusicArtist => "MusicArtist",
        Category::MusicAlbum => "MusicAlbum",
        Category::Genre => "Genre",
        Category::Person => "Person",
        Category::Studio => "Studio",
        Category::BoxSet => "BoxSet",
        Category::Tag => "Tag",
    }
}

/// The kinds that a search is limited to.
pub fn parse_include_item_types(s: Option<&str>) -> (r: Option<Vec<MediaKind>>)
    ensures
        media::opt_kinds(r) == media::wanted_kinds(match s {
            Some(l) => Some(l@),
            None => None,
        }),
{
    match s {
        Some(l) => {
            let ks = read_kinds(l);
            if ks.len() > 0 {
                Some(ks)
            } else {
                None
            }
        },
        None => None,
    }
}

fn tagged_wanted(types: &Option<String>) -> (r: bool)
    ensures
        r == wants_tagged(text::opt_text(*types)),
{
    match types {
        Some(t) => {
            let wanted: Vec<&str> = vec!["musicartist", "musicalbum", "genre"];
            proof {
                assert(text::names(wanted@) == tag_types());
            }
            csv_has_name(t.as_str(), &wanted)
        },
        None => true,
    }
}

fn catalogued_wanted(types: &Option<String>) -> (r: bool)
    ensures
        r == wants_catalogued(text::opt_text(*types)),
{
    match types {
        Some(t) => {
            let wanted: Vec<&str> =
                vec!["musicartist", "musicalbum", "genre", "person", "studio", "tag"];
            proof {
                assert(text::names(wanted@) == name_types());
            }
            csv_has_name(t.as_str(), &wanted)
        },
        None => true,
    }
}

fn hint_of_item(i: &ItemRef, term: &str) -> (r: SearchHint)
    ensures
        hint_is(r, item_hint(*i, term@)),
{
    SearchHint {
        item_id: i.id.clone(),
        id: i.id.clone(),
        name: i.title.clone(),
        kind: jellyfin_type(i.kind),
        media_type: media_type(i.kind),
        run_time_ticks: i.run_time_ticks,
        matched_term: term.to_owned(),
        is_folder: false,
    }
}

fn hint_of_name(c: &Candidate, term: &str) -> (r: SearchHint)
    ensures
        hint_is(r, name_hint(candidate_view(*c), term@)),
{
    SearchHint {
        item_id: c.id.clone(),
        id: c.id.clone(),
        name: c.name.clone(),
        kind: category_type(c.category),
        media_type: "Unknown",
        run_time_ticks: None,
        matched_term: term.to_owned(),
        is_folder: true,
    }
}

fn copy_hint(h: &SearchHint) -> (r: SearchHint)
    ensures
        forall|v: HintView| hint_is(*h, v) ==> hint_is(r, v),
{
    SearchHint {
        item_id: h.item_id.clone(),
        id: h.id.clone(),
        name: h.name.clone(),
        kind: h.kind,
        media_type: h.media_type,
        run_time_ticks: h.run_time_ticks,
        matched_term: h.matched_term.clone(),
        is_folder: h.is_folder,
    }
}

/// Appends a hint for each matching name at its first occurrence.
fn push_first_matches(
    hints: &mut Vec<SearchHint>,
    cs: &Vec<Candidate>,
    needle: &str,
    term: &str,
    Ghost(before): Ghost<Seq<HintView>>,
)
    requires
        hints_are(old(hints)@, before),
    ensures
        hints_are(
            final(hints)@,
            before + name_hints(first_matches(candidate_views(cs@), needle@), term@),
        ),
{
    let mut taken: Vec<usize> = Vec::new();
    let mut i: usize = 0;
    let ghost views = candidate_views(cs@);
    proof {
        assert(views.take(0) == Seq::<CandidateView>::empty());
        assert(before + name_hints(Seq::empty(), term@) == before);
    }
    while i < cs.len()
        invariant
            i <= cs.len(),
            views == candidate_views(cs@),
            hints_are(
                hints@,
                before + name_hints(first_matches(views.take(i as int), needle@), term@),
            ),
            taken@.len() == first_matches(views.take(i as int), needle@).len(),
            forall|k: int|
                0 <= k < taken@.len() ==> #[trigger] taken@[k] < cs@.len() && first_matches(
                    views.take(i as int),
                    needle@,
                )[k] == views[taken@[k] as int],
        decreases cs.len() - i,
    {
        let ghost sofar = first_matches(views.take(i as int), needle@);
        proof {
            assert(views.take(i + 1).drop_last() == views.take(i as int));
            assert(views.take(i + 1).last() == views[i as int]);
        }
        let matching = has_part(cs[i].folded.as_str(), needle);
        let mut seen: bool = false;
        let mut k: usize = 0;
        while k < taken.len()
            invariant
                i < cs.len(),
                k <= taken.len(),
                views == candidate_views(cs@),
                taken@.len() == sofar.len(),
                forall|j: int|
                    0 <= j < taken@.len() ==> #[trigger] taken@[j] < cs@.len() && sofar[j]
                        == views[taken@[j] as int],
                seen <==> exists|j: int|
                    0 <= j < k && (#[trigger] sofar[j]).category == views[i as int].category
                        && sofar[j].name == views[i as int].name,
            decreases taken.len() - k,
        {
            proof {
                assert(taken@[k as int] < cs@.len());
            }
            if cs[taken[k]].category == cs[i].category && eq_text(
                cs[taken[k]].name.as_str(),
                cs[i].name.as_str(),
            ) {
                proof {
                    assert(sofar[k as int].category == views[i as int].category);
                }
                seen = true;
            }
            k += 1;
        }
        if matching && !seen {
            hints.push(hint_of_name(&cs[i], term));
            taken.push(i);
            proof {
                let now = first_matches(views.take(i + 1), needle@);
                assert(now == sofar.push(views[i as int]));
                assert(name_hints(now, term@) == name_hints(sofar, term@).push(
                    name_hint(views[i as int], term@),
                ));
                assert(before + name_hints(now, term@) == (before + name_hints(sofar, term@)).push(
                    name_hint(views[i as int], term@),
                ));
            }
        }
        i += 1;
    }
    proof {
        assert(views.take(i as int) == views);
    }
}

/// Appends a hint for each matching name.
fn push_matches(
    hints: &mut Vec<SearchHint>,
    cs: &Vec<Candidate>,
    needle: &str,
    term: &str,
    Ghost(before): Ghost<Seq<HintView>>,
)
    requires
        hints_are(old(hints)@, before),
    ensures
        hints_are(
            final(hints)@,
            before + name_hints(seqs::keep(candidate_views(cs@), name_matches(needle@)), term@),
        ),
{
    let mut i: usize = 0;
    let ghost views = candidate_views(cs@);
    let ghost wanted = name_matches(needle@);
    proof {
        assert(views.take(0) == Seq::<CandidateView>::empty());
        assert(before + name_hints(Seq::empty(), term@) == before);
    }
    while i < cs.len()
        invariant
            i <= cs.len(),
            views == candidate_views(cs@),
            wanted == name_matches(needle@),
            hints_are(hints@, before + name_hints(seqs::keep(views.take(i as int), wanted), term@)),
        decreases cs.len() - i,
    {
        let ghost sofar = seqs::keep(views.take(i as int), wanted);
        proof {
            seqs::lemma_keep_step(views, wanted, i as int);
        }
        if has_part(cs[i].folded.as_str(), needle) {
            hints.push(hint_of_name(&cs[i], term));
            proof {
                let now = seqs::keep(views.take(i + 1), wanted);
                assert(name_hints(now, term@) == name_hints(sofar, term@).push(
                    name_hint(views[i as int], term@),
                ));
                assert(before + name_hints(now, term@) == (before + name_hints(sofar, term@)).push(
                    name_hint(views[i as int], term@),
                ));
            }
        }
        i += 1;
    }
    proof {
        assert(views.take(i as int) == views);
    }
}

/// Puts the hints together, given each name's lower-case form.
pub fn assemble_hints(
    term: &str,
    needle: &str,
    items: &Vec<ItemRef>,
    with_tagged: bool,
    tagged: &Vec<Candidate>,
    with_catalogued: bool,
    catalogued: &Vec<Candidate>,
) -> (r: Vec<SearchHint>)
    ensures
        hints_are(
            r@,
            all_hints(
                term@,
                needle@,
                item_hints(items@, term@),
                with_tagged,
                candidate_views(tagged@),
                with_catalogued,
                candidate_views(catalogued@),
            ),
        ),
{
    let mut hints: Vec<SearchHint> = Vec::new();
    let mut i: usize = 0;
    while i < items.len()
        invariant
            i <= items.len(),
            hints@.len() == i,
            forall|k: int|
                0 <= k < i ==> hint_is(#[trigger] hints@[k], item_hints(items@, term@)[k]),
        decreases items.len() - i,
    {
        hints.push(hint_of_item(&items[i], term));
        i += 1;
    }
    let ghost mut sofar = item_hints(items@, term@);
    if with_tagged && !needle.is_empty() {
        push_first_matches(&mut hints, tagged, needle, term, Ghost(sofar));
        proof {
            sofar = sofar + name_hints(
                first_matches(candidate_views(tagged@), needle@),
                term@,
            );
        }
    }
    if with_catalogued && !needle.is_empty() {
        push_matches(&mut hints, catalogued, needle, term, Ghost(sofar));
    }
    hints
}

/// A page of the hints, and their number.
pub fn page_of_hints(hints: &Vec<SearchHint>, start_index: u32, limit: u32) -> (r:
    SearchHintsResult)
    ensures
        r.total_record_count == hints@.len() as u32,
        forall|vs: Seq<HintView>|
            hints_are(hints@, vs) ==> #[trigger] hints_are(
                r.search_hints@,
                page(vs, start_index as int, limit as int),
            ),
{
    let n: usize = hints.len();
    let mut out: Vec<SearchHint> = Vec::new();
    let mut i: usize = 0;
    let end: u64 = start_index as u64 + limit as u64;
    while i < n
        invariant
            i <= n,
            n == hints@.len(),
            end == start_index + limit,
            out@.len() == page(hints@.take(i as int), start_index as int, limit as int).len(),
            forall|k: int, v: HintView|
                0 <= k < out@.len() && hint_is(hints@[start_index + k], v) ==> #[trigger] hint_is(
                    out@[k],
                    v,
                ),
        decreases n - i,
    {
        if i as u64 >= start_index as u64 && (i as u64) < end {
            out.push(copy_hint(&hints[i]));
        }
        i += 1;
    }
    proof {
        assert(hints@.take(i as int) == hints@);
        assert forall|vs: Seq<HintView>| hints_are(hints@, vs) implies #[trigger] hints_are(
            out@,
            page(vs, start_index as int, limit as int),
        ) by {
            let p = page(vs, start_index as int, limit as int);
            assert forall|k: int| 0 <= k < out@.len() implies hint_is(#[trigger] out@[k], p[k]) by {
                assert(p[k] == vs[start_index + k]);
                assert(hint_is(hints@[start_index + k], p[k]));
            }
        }
    }
    SearchHintsResult { search_hints: out, total_record_count: n as u32 }
}

// ------------------------------------------------------------- the whole search

pub open spec fn term_of(q: SearchQuery) -> Seq<char> {
    match text::opt_text(q.search_term) {
        Some(t) => t,
        None => Seq::empty(),
    }
}

/// What is looked for: the term without white space around it, in lower case.
pub open spec fn needle_of(q: SearchQuery) -> Seq<char> {
    text::unicode_lower(text::trim(term_of(q)))
}

/// How many items the index is asked for: enough for the page, and two hundred
/// more for the names to draw on.
pub open spec fn lookup_limit(q: SearchQuery) -> int {
    if q.start_index + q.limit + 200 > u32::MAX {
        u32::MAX as int
    } else {
        q.start_index + q.limit + 200
    }
}

/// Whether a plan is the one for this query, given what is looked for.
pub open spec fn plan_is(plan: SearchPlan, q: SearchQuery, needle: Seq<char>) -> bool {
    match plan {
        SearchPlan::Browse => needle.len() == 0,
        SearchPlan::Lookup { term, kinds, limit } => {
            &&& needle.len() > 0
            &&& term@ == text::trim(term_of(q))
            &&& kinds@ == (match media::wanted_kinds(text::opt_text(q.include_item_types)) {
                Some(ks) => ks,
                None => Seq::empty(),
            })
            &&& limit == lookup_limit(q)
        },
    }
}

/// The items that hints are made of: those of the index, or where nothing is
/// looked for, those of the library that the kinds let pass.
pub open spec fn searched_items(
    q: SearchQuery,
    needle: Seq<char>,
    corpus: Seq<CorpusItem>,
    found: Seq<ItemRef>,
) -> Seq<HintView> {
    if needle.len() == 0 {
        browsed(
            corpus,
            media::wanted_kinds(text::opt_text(q.include_item_types)),
            term_of(q),
        )
    } else {
        item_hints(found, term_of(q))
    }
}

/// Hints for the items of the library that the kinds let pass.
pub open spec fn browsed(
    corpus: Seq<CorpusItem>,
    kinds: Option<Seq<MediaKind>>,
    term: Seq<char>,
) -> Seq<HintView>
    decreases corpus.len(),
{
    if corpus.len() == 0 {
        Seq::empty()
    } else {
        let rest = browsed(corpus.drop_last(), kinds, term);
        if media::kind_passes(kinds, corpus.last().item.kind) {
            rest.push(item_hint(corpus.last().item, term))
        } else {
            rest
        }
    }
}

/// A name as a candidate, in lower case too.
pub open spec fn as_candidate(category: Category, n: NameRef) -> CandidateView {
    CandidateView { category, id: n.id@, name: n.name@, folded: text::unicode_lower(n.name@) }
}

pub open spec fn opt_candidate(category: Category, n: Option<NameRef>) -> Seq<CandidateView> {
    match n {
        Some(x) => seq![as_candidate(category, x)],
        None => Seq::empty(),
    }
}

/// The names in an item's tags.
pub open spec fn item_names(i: CorpusItem) -> Seq<CandidateView> {
    opt_candidate(Category::MusicArtist, i.artist) + opt_candidate(
        Category::MusicArtist,
        i.album_artist,
    ) + opt_candidate(Category::MusicAlbum, i.album) + opt_candidate(Category::Genre, i.genre)
}

/// The names in all items' tags.
pub open spec fn tagged_names(corpus: Seq<CorpusItem>) -> Seq<CandidateView>
    decreases corpus.len(),
{
    if corpus.len() == 0 {
        Seq::empty()
    } else {
        tagged_names(corpus.drop_last()) + item_names(corpus.last())
    }
}

pub open spec fn all_candidates(category: Category, ns: Seq<NameRef>) -> Seq<CandidateView> {
    ns.map_values(|n: NameRef| as_candidate(category, n))
}

/// The catalogue: people, studios, collections and tags.
#[derive(Debug)]
pub struct Catalogue {
    pub people: Vec<NameRef>,
    pub studios: Vec<NameRef>,
    pub collections: Vec<NameRef>,
    pub tags: Vec<NameRef>,
}

pub open spec fn catalogued_names(c: Catalogue) -> Seq<CandidateView> {
    all_candidates(Category::Person, c.people@) + all_candidates(Category::Studio, c.studios@)
        + all_candidates(Category::BoxSet, c.collections@) + all_candidates(Category::Tag, c.tags@)
}

fn search_term(q: &SearchQuery) -> (r: String)
    ensures
        r@ == term_of(*q),
{
    match &q.search_term {
        Some(t) => t.clone(),
        None => String::new(),
    }
}

/// Where the items come from, given what is looked for.
pub fn plan_for(q: &SearchQuery, needle: &str) -> (r: SearchPlan)
    ensures
        plan_is(r, *q, needle@),
{
    if needle.is_empty() {
        return SearchPlan::Browse;
    }
    let kinds: Vec<MediaKind> = match read_wanted_kinds(&q.include_item_types) {
        Some(ks) => ks,
        None => Vec::new(),
    };
    let wide: u64 = q.start_index as u64 + q.limit as u64 + 200;
    let limit: u32 = if wide > u32::MAX as u64 {
        u32::MAX
    } else {
        wide as u32
    };
    SearchPlan::Lookup { term: trimmed(search_term(q).as_str()), kinds, limit }
}

/// Where the items of a search come from.
pub fn plan_search(q: &SearchQuery) -> (r: SearchPlan)
    ensures
        plan_is(r, *q, needle_of(*q)),
{
    let needle = to_unicode_lower(trimmed(search_term(q).as_str()).as_str());
    plan_for(q, needle.as_str())
}

fn push_candidate(out: &mut Vec<Candidate>, category: Category, n: &NameRef)
    ensures
        candidate_views(final(out)@) == candidate_views(old(out)@).push(as_candidate(category, *n)),
{
    let c = Candidate {
        category,
        id: n.id.clone(),
        name: n.name.clone(),
        folded: to_unicode_lower(n.name.as_str()),
    };
    out.push(c);
    proof {
        assert(candidate_views(out@) == candidate_views(old(out)@).push(candidate_view(c)));
    }
}

fn push_opt_candidate(out: &mut Vec<Candidate>, category: Category, n: &Option<NameRef>)
    ensures
        candidate_views(final(out)@) == candidate_views(old(out)@) + opt_candidate(category, *n),
{
    let ghost before = candidate_views(out@);
    match n {
        Some(x) => {
            push_candidate(out, category, x);
            proof {
                assert(before.push(as_candidate(category, *x)) == before + seq![
                    as_candidate(category, *x),
                ]);
            }
        },
        None => {
            proof {
                assert(before + Seq::<CandidateView>::empty() == before);
            }
        },
    }
}

fn push_candidates(out: &mut Vec<Candidate>, category: Category, ns: &Vec<NameRef>)
    ensures
        candidate_views(final(out)@) == candidate_views(old(out)@) + all_candidates(category, ns@),
{
    let ghost before = candidate_views(out@);
    let ghost added = all_candidates(category, ns@);
    let mut i: usize = 0;
    proof {
        assert(before + added.take(0) == before);
    }
    while i < ns.len()
        invariant
            i <= ns.len(),
            added == all_candidates(category, ns@),
            candidate_views(out@) == before + added.take(i as int),
        decreases ns.len() - i,
    {
        push_candidate(out, category, &ns[i]);
        proof {
            assert(before + added.take(i + 1) == (before + added.take(i as int)).push(
                added[i as int],
            ));
        }
        i += 1;
    }
    proof {
        assert(added.take(i as int) == added);
    }
}

fn gather_tagged(corpus: &Vec<CorpusItem>) -> (r: Vec<Candidate>)
    ensures
        candidate_views(r@) == tagged_names(corpus@),
{
    let mut out: Vec<Candidate> = Vec::new();
    let mut i: usize = 0;
    proof {
        assert(candidate_views(out@) == Seq::<CandidateView>::empty());
        assert(corpus@.take(0) == Seq::<CorpusItem>::empty());
    }
    while i < corpus.len()
        invariant
            i <= corpus.len(),
            candidate_views(out@) == tagged_names(corpus@.take(i as int)),
        decreases corpus.len() - i,
    {
        let ghost before = candidate_views(out@);
        push_opt_candidate(&mut out, Category::MusicArtist, &corpus[i].artist);
        push_opt_candidate(&mut out, Category::MusicArtist, &corpus[i].album_artist);
        push_opt_candidate(&mut out, Category::MusicAlbum, &corpus[i].album);
        push_opt_candidate(&mut out, Category::Genre, &corpus[i].genre);
        proof {
            assert(corpus@.take(i + 1).drop_last() == corpus@.take(i as int));
            assert(corpus@.take(i + 1).last() == corpus@[i as int]);
            assert(candidate_views(out@) == before + item_names(corpus@[i as int]));
        }
        i += 1;
    }
    proof {
        assert(corpus@.take(i as int) == corpus@);
    }
    out
}

fn gather_catalogued(c: &Catalogue) -> (r: Vec<Candidate>)
    ensures
        candidate_views(r@) == catalogued_names(*c),
{
    let mut out: Vec<Candidate> = Vec::new();
    push_candidates(&mut out, Category::Person, &c.people);
    push_candidates(&mut out, Category::Studio, &c.studios);
    push_candidates(&mut out, Category::BoxSet, &c.collections);
    push_candidates(&mut out, Category::Tag, &c.tags);
    proof {
        assert(candidate_views(out@) == catalogued_names(*c));
    }
    out
}

fn copy_item(i: &ItemRef) -> (r: ItemRef)
    ensures
        forall|t: Seq<char>| item_hint(r, t) == #[trigger] item_hint(*i, t),
{
    ItemRef {
        id: i.id.clone(),
        title: i.title.clone(),
        kind: i.kind,
        run_time_ticks: i.run_time_ticks,
    }
}

/// The items of the library that the kinds let pass.
pub fn browse_items(corpus: &Vec<CorpusItem>, kinds: &Option<Vec<MediaKind>>) -> (r: Vec<ItemRef>)
    ensures
        forall|t: Seq<char>| #[trigger]
            item_hints(r@, t) == browsed(corpus@, media::opt_kinds(*kinds), t),
{
    let mut out: Vec<ItemRef> = Vec::new();
    let mut i: usize = 0;
    let ghost ks = media::opt_kinds(*kinds);
    proof {
        assert(corpus@.take(0) == Seq::<CorpusItem>::empty());
        assert forall|t: Seq<char>| #[trigger]
            item_hints(out@, t) == browsed(corpus@.take(0), ks, t) by {
            assert(item_hints(out@, t) == Seq::<HintView>::empty());
        }
    }
    while i < corpus.len()
        invariant
            i <= corpus.len(),
            ks == media::opt_kinds(*kinds),
            forall|t: Seq<char>| #[trigger]
                item_hints(out@, t) == browsed(corpus@.take(i as int), ks, t),
        decreases corpus.len() - i,
    {
        let ghost before = out@;
        proof {
            assert(corpus@.take(i + 1).drop_last() == corpus@.take(i as int));
            assert(corpus@.take(i + 1).last() == corpus@[i as int]);
        }
        if passes(kinds, corpus[i].item.kind) {
            let c = copy_item(&corpus[i].item);
            out.push(c);
            proof {
                assert forall|t: Seq<char>| #[trigger]
                    item_hints(out@, t) == browsed(corpus@.take(i + 1), ks, t) by {
                    assert(item_hints(before, t) == browsed(corpus@.take(i as int), ks, t));
                    assert(item_hints(out@, t) == item_hints(before, t).push(item_hint(c, t)));
                }
            }
        } else {
            proof {
                assert forall|t: Seq<char>| #[trigger]
                    item_hints(out@, t) == browsed(corpus@.take(i + 1), ks, t) by {
                    assert(item_hints(before, t) == browsed(corpus@.take(i as int), ks, t));
                }
            }
        }
        i += 1;
    }
    proof {
        assert(corpus@.take(i as int) == corpus@);
    }
    out
}

/// The hints for a query: `found` is what the index gave for the plan, and
/// counts only where something is looked for.
pub fn search_hints(
    q: &SearchQuery,
    corpus: &Vec<CorpusItem>,
    found: &Vec<ItemRef>,
    catalogue: &Catalogue,
) -> (r: SearchHintsResult)
    ensures
        ({
            let hints = all_hints(
                term_of(*q),
                needle_of(*q),
                searched_items(*q, needle_of(*q), corpus@, found@),
                wants_tagged(text::opt_text(q.include_item_types)),
                tagged_names(corpus@),
                wants_catalogued(text::opt_text(q.include_item_types)),
                catalogued_names(*catalogue),
            );
            &&& r.total_record_count == hints.len() as u32
            &&& hints_are(
                r.search_hints@,
                page(hints, q.start_index as int, q.limit as int),
            )
        }),
{
    let term = search_term(q);
    let needle = to_unicode_lower(trimmed(term.as_str()).as_str());
    let tagged = gather_tagged(corpus);
    let catalogued = gather_catalogued(catalogue);
    let with_tagged = tagged_wanted(&q.include_item_types);
    let with_catalogued = catalogued_wanted(&q.include_item_types);
    if needle.as_str().is_empty() {
        let kinds = read_wanted_kinds(&q.include_item_types);
        let items = browse_items(corpus, &kinds);
        let hints = assemble_hints(
            term.as_str(),
            needle.as_str(),
            &items,
            with_tagged,
            &tagged,
            with_catalogued,
            &catalogued,
        );
        proof {
            assert(item_hints(items@, term@) == searched_items(*q, needle@, corpus@, found@));
        }
        page_of_hints(&hints, q.start_index, q.limit)
    } else {
        let hints = assemble_hints(
            term.as_str(),
            needle.as_str(),
            found,
            with_tagged,
            &tagged,
            with_catalogued,
            &catalogued,
        );
        page_of_hints(&hints, q.start_index, q.limit)
    }
}

// ----------------------------------------------------------------- suggestions

/// What suggestions need to know of an item.
#[derive(Debug, Clone, Copy)]
pub struct Viewing {
    pub kind: MediaKind,
    pub played: bool,
}

/// The positions of the items of one kind that have not been played, up to
/// `n`.
pub open spec fn unplayed(items: Seq<Viewing>, kind: MediaKind, n: int) -> Seq<usize>
    decreases n,
{
    if n <= 0 {
        Seq::empty()
    } else {
        let rest = unplayed(items, kind, n - 1);
        if items[n - 1].kind == kind && !items[n - 1].played {
            rest.push((n - 1) as usize)
        } else {
            rest
        }
    }
}

/// The first `n` of a row, or all of it.
pub open spec fn first_n<T>(s: Seq<T>, n: int) -> Seq<T> {
    if s.len() <= n {
        s
    } else {
        s.take(n)
    }
}

/// A third of the suggestions for each kind, but at least one.
pub open spec fn share(limit: int) -> int {
    if limit / 3 < 1 {
        1
    } else {
        limit / 3
    }
}

/// Draws from one kind: its unplayed items are shuffled, and its share taken.
pub open spec fn drawn(items: Seq<Viewing>, kind: MediaKind, limit: int, seed: u64) -> (
    Seq<usize>,
    u64,
) {
    let pool = unplayed(items, kind, items.len() as int);
    let mixed = shuffle::shuffled(pool, pool.len(), seed);
    (first_n(mixed.0, share(limit)), mixed.1)
}

/// The suggestions for a seed: a draw from each kind, mixed once more.
pub open spec fn suggested(items: Seq<Viewing>, limit: int, seed: u64) -> Seq<usize> {
    let movies = drawn(items, MediaKind::Movie, limit, seed);
    let episodes = drawn(items, MediaKind::Episode, limit, movies.1);
    let audio = drawn(items, MediaKind::Audio, limit, episodes.1);
    let all = movies.0 + episodes.0 + audio.0;
    first_n(shuffle::shuffled(all, all.len(), audio.1).0, limit)
}

fn find_unplayed(items: &Vec<Viewing>, kind: MediaKind) -> (r: Vec<usize>)
    ensures
        r@ == unplayed(items@, kind, items@.len() as int),
{
    let mut out: Vec<usize> = Vec::new();
    let mut i: usize = 0;
    while i < items.len()
        invariant
            i <= items.len(),
            out@ == unplayed(items@, kind, i as int),
        decreases items.len() - i,
    {
        if items[i].kind == kind && !items[i].played {
            out.push(i);
        }
        i += 1;
    }
    out
}

fn draw(items: &Vec<Viewing>, kind: MediaKind, limit: usize, seed: &mut u64) -> (r: Vec<usize>)
    ensures
        (r@, *final(seed)) == drawn(items@, kind, limit as int, *old(seed)),
{
    let mut pool = find_unplayed(items, kind);
    xorshift_shuffle(&mut pool, seed);
    let n: usize = if limit / 3 < 1 {
        1
    } else {
        limit / 3
    };
    if pool.len() > n {
        pool.truncate(n);
    }
    pool
}

/// Picks items to suggest, by their positions.
pub fn pick_suggestions(items: &Vec<Viewing>, limit: usize, seed: u64) -> (r: Vec<usize>)
    ensures
        r@ == suggested(items@, limit as int, seed),
{
    let mut state: u64 = seed;
    let mut all = draw(items, MediaKind::Movie, limit, &mut state);
    let mut episodes = draw(items, MediaKind::Episode, limit, &mut state);
    let mut audio = draw(items, MediaKind::Audio, limit, &mut state);
    all.append(&mut episodes);
    all.append(&mut audio);
    xorshift_shuffle(&mut all, &mut state);
    if all.len() > limit {
        all.truncate(limit);
    }
    all
}

/// Suggests items that have not been played, by a seed of chance.
pub fn build_suggestions(items: &Vec<Viewing>, limit: usize) -> (r: Vec<usize>)
    ensures
        exists|seed: u64| seed % 2 == 1 && r@ == #[trigger] suggested(items@, limit as int, seed),
{
    let seed: u64 = pseudo_seed();
    pick_suggestions(items, limit, seed)
}

// ------------------------------------------------------------------------ laws

/// A name in the items' tags is hinted at once for each category, however
/// often it occurs, and only where it matches.
pub proof fn law_names_are_hinted_at_once(cs: Seq<CandidateView>, needle: Seq<char>)
    ensures
        forall|i: int, j: int|
            0 <= i < j < first_matches(cs, needle).len() ==> {
                let a = #[trigger] first_matches(cs, needle)[i];
                let b = #[trigger] first_matches(cs, needle)[j];
                a.category != b.category || a.name != b.name
            },
        forall|i: int|
            0 <= i < first_matches(cs, needle).len() ==> text::contains(
                (#[trigger] first_matches(cs, needle)[i]).folded,
                needle,
            ),
        forall|i: int|
            0 <= i < cs.len() && text::contains((#[trigger] cs[i]).folded, needle) ==> listed(
                first_matches(cs, needle),
                cs[i].category,
                cs[i].name,
            ),
    decreases cs.len(),
{
    if cs.len() > 0 {
        let front = cs.drop_last();
        law_names_are_hinted_at_once(front, needle);
        let rest = first_matches(front, needle);
        let all = first_matches(cs, needle);
        let c = cs.last();
        assert forall|i: int|
            0 <= i < cs.len() && text::contains((#[trigger] cs[i]).folded, needle) implies listed(
            all,
            cs[i].category,
            cs[i].name,
        ) by {
            if i < front.len() {
                assert(front[i] == cs[i]);
                assert(listed(rest, cs[i].category, cs[i].name));
                let k = choose|k: int|
                    0 <= k < rest.len() && (#[trigger] rest[k]).category == cs[i].category
                        && rest[k].name == cs[i].name;
                assert(all[k] == rest[k]);
            } else if listed(rest, c.category, c.name) {
                let k = choose|k: int|
                    0 <= k < rest.len() && (#[trigger] rest[k]).category == c.category
                        && rest[k].name == c.name;
                assert(all[k] == rest[k]);
            } else {
                assert(all == rest.push(c));
                assert(all[rest.len() as int] == c);
            }
        }
        assert forall|i: int, j: int| 0 <= i < j < all.len() implies {
            let a = #[trigger] all[i];
            let b = #[trigger] all[j];
            a.category != b.category || a.name != b.name
        } by {
            if j < rest.len() {
                assert(all[i] == rest[i] && all[j] == rest[j]);
            } else {
                assert(all[i] == rest[i]);
                assert(!listed(rest, c.category, c.name));
            }
        }
    }
}

/// Whether `s` holds positions of unplayed items, no position twice.
pub open spec fn sound_draw(items: Seq<Viewing>, s: Seq<usize>) -> bool {
    s.no_duplicates() && forall|i: int|
        0 <= i < s.len() ==> (#[trigger] s[i]) < items.len() && !items[s[i] as int].played
}

pub open spec fn all_of_kind(items: Seq<Viewing>, s: Seq<usize>, kind: MediaKind) -> bool {
    forall|i: int| 0 <= i < s.len() ==> items[#[trigger] s[i] as int].kind == kind
}

proof fn lemma_unplayed(items: Seq<Viewing>, kind: MediaKind, n: int)
    requires
        0 <= n <= items.len() <= usize::MAX,
    ensures
        sound_draw(items, unplayed(items, kind, n)),
        all_of_kind(items, unplayed(items, kind, n), kind),
        forall|i: int|
            0 <= i < unplayed(items, kind, n).len() ==> #[trigger] unplayed(items, kind, n)[i] < n,
    decreases n,
{
    if n > 0 {
        lemma_unplayed(items, kind, n - 1);
    }
}

/// Any shuffle of a sound draw is one too.
proof fn lemma_shuffled_draw(items: Seq<Viewing>, s: Seq<usize>, seed: u64)
    requires
        sound_draw(items, s),
    ensures
        sound_draw(items, shuffle::shuffled(s, s.len(), seed).0),
        forall|k: MediaKind|
            all_of_kind(items, s, k) ==> #[trigger] all_of_kind(
                items,
                shuffle::shuffled(s, s.len(), seed).0,
                k,
            ),
{
    broadcast use vstd::seq_lib::group_to_multiset_ensures;

    shuffle::law_shuffle_is_a_permutation(s, s.len(), seed);
    let t = shuffle::shuffled(s, s.len(), seed).0;
    s.lemma_multiset_has_no_duplicates();
    t.lemma_multiset_has_no_duplicates_conv();
    assert forall|i: int| 0 <= i < t.len() implies s.contains(#[trigger] t[i]) by {
        assert(t.contains(t[i]));
        assert(t.to_multiset().contains(t[i]));
    }
}

proof fn lemma_drawn(items: Seq<Viewing>, kind: MediaKind, limit: int, seed: u64)
    requires
        items.len() <= usize::MAX,
    ensures
        sound_draw(items, drawn(items, kind, limit, seed).0),
        all_of_kind(items, drawn(items, kind, limit, seed).0, kind),
        drawn(items, kind, limit, seed).0.len() <= share(limit),
{
    let pool = unplayed(items, kind, items.len() as int);
    lemma_unplayed(items, kind, items.len() as int);
    lemma_shuffled_draw(items, pool, seed);
    assert(all_of_kind(items, shuffle::shuffled(pool, pool.len(), seed).0, kind));
}

/// Suggestions are items that have not been played, none of them twice and no
/// more of them than were asked for, whatever the seed.
pub proof fn law_suggestions_are_unplayed(items: Seq<Viewing>, limit: nat, seed: u64)
    requires
        items.len() <= usize::MAX,
    ensures
        sound_draw(items, suggested(items, limit as int, seed)),
        suggested(items, limit as int, seed).len() <= limit,
{
    let l = limit as int;
    let movies = drawn(items, MediaKind::Movie, l, seed);
    let episodes = drawn(items, MediaKind::Episode, l, movies.1);
    let audio = drawn(items, MediaKind::Audio, l, episodes.1);
    lemma_drawn(items, MediaKind::Movie, l, seed);
    lemma_drawn(items, MediaKind::Episode, l, movies.1);
    lemma_drawn(items, MediaKind::Audio, l, episodes.1);
    let all = movies.0 + episodes.0 + audio.0;
    assert forall|i: int| 0 <= i < all.len() implies (#[trigger] all[i]) < items.len()
        && !items[all[i] as int].played by {
        if i < movies.0.len() {
            assert(all[i] == movies.0[i]);
        } else if i < movies.0.len() + episodes.0.len() {
            assert(all[i] == episodes.0[i - movies.0.len()]);
        } else {
            assert(all[i] == audio.0[i - movies.0.len() - episodes.0.len()]);
        }
    }
    assert forall|i: int, j: int| 0 <= i < j < all.len() implies all[i] != all[j] by {
        let a = movies.0.len();
        let b = a + episodes.0.len();
        if j < a {
        } else if j < b {
            assert(items[episodes.0[j - a] as int].kind == MediaKind::Episode);
            if i < a {
                assert(items[movies.0[i] as int].kind == MediaKind::Movie);
            } else {
                assert(all[i] == episodes.0[i - a]);
            }
        } else {
            assert(items[audio.0[j - b] as int].kind == MediaKind::Audio);
            if i < a {
                assert(items[movies.0[i] as int].kind == MediaKind::Movie);
            } else if i < b {
                assert(items[episodes.0[i - a] as int].kind == MediaKind::Episode);
            } else {
                assert(all[i] == audio.0[i - b]);
            }
        }
    }
    lemma_shuffled_draw(items, all, audio.1);
}

// ------------------------------------------------------------- laws of hints

/// All hints for a query, before a page of them is cut out.
pub open spec fn hints_for(
    q: SearchQuery,
    corpus: Seq<CorpusItem>,
    found: Seq<ItemRef>,
    catalogue: Catalogue,
) -> Seq<HintView> {
    all_hints(
        term_of(q),
        needle_of(q),
        searched_items(q, needle_of(q), corpus, found),
        wants_tagged(text::opt_text(q.include_item_types)),
        tagged_names(corpus),
        wants_catalogued(text::opt_text(q.include_item_types)),
        catalogued_names(catalogue),
    )
}

/// Whether a list of hints holds one for a name, under the type that it is the
/// name of.
pub open spec fn hints_at(hints: Seq<HintView>, name: Seq<char>, kind: Seq<char>) -> bool {
    exists|k: int|
        0 <= k < hints.len() && (#[trigger] hints[k]).name == name && hints[k].kind == kind
            && hints[k].is_folder
}

/// Whether a list of types is given and names this one.
pub open spec fn lists_type(types: Option<String>, name: Seq<char>) -> bool {
    types is Some && exists|i: int|
        0 <= i < text::split(types->0@, ',').len() && text::lower(
            text::trim(#[trigger] text::split(types->0@, ',')[i]),
        ) == name
}

proof fn lemma_lists_type(types: Seq<char>, wanted: Seq<Seq<char>>, i: int)
    requires
        0 <= i < text::split(types, ',').len(),
        wanted.contains(text::lower(text::trim(text::split(types, ',')[i]))),
    ensures
        text::csv_names(types, wanted),
{
}

proof fn lemma_tagged_wanted(types: Option<String>)
    requires
        types is None || lists_type(types, "musicartist"@) || lists_type(types, "musicalbum"@)
            || lists_type(types, "genre"@),
    ensures
        wants_tagged(text::opt_text(types)),
        wants_catalogued(text::opt_text(types)),
{
    let a = tag_types();
    let b = name_types();
    assert(a[0] == "musicartist"@ && a[1] == "musicalbum"@ && a[2] == "genre"@);
    assert(b[0] == "musicartist"@ && b[1] == "musicalbum"@ && b[2] == "genre"@);
    if types is Some {
        let t = types->0@;
        let s = text::split(t, ',');
        if lists_type(types, "musicartist"@) {
            let i = choose|i: int|
                0 <= i < text::split(t, ',').len() && text::lower(
                    text::trim(#[trigger] text::split(t, ',')[i]),
                ) == "musicartist"@;
            lemma_lists_type(t, a, i);
            lemma_lists_type(t, b, i);
        } else if lists_type(types, "musicalbum"@) {
            let i = choose|i: int|
                0 <= i < text::split(t, ',').len() && text::lower(
                    text::trim(#[trigger] text::split(t, ',')[i]),
                ) == "musicalbum"@;
            lemma_lists_type(t, a, i);
            lemma_lists_type(t, b, i);
        } else {
            let i = choose|i: int|
                0 <= i < text::split(t, ',').len() && text::lower(
                    text::trim(#[trigger] text::split(t, ',')[i]),
                ) == "genre"@;
            lemma_lists_type(t, a, i);
            lemma_lists_type(t, b, i);
        }
    }
}

proof fn lemma_tagged_holds(corpus: Seq<CorpusItem>, i: int, c: CandidateView)
    requires
        0 <= i < corpus.len(),
        item_names(corpus[i]).contains(c),
    ensures
        tagged_names(corpus).contains(c),
    decreases corpus.len(),
{
    let front = tagged_names(corpus.drop_last());
    let last = item_names(corpus.last());
    if i == corpus.len() - 1 {
        let k = choose|k: int| 0 <= k < last.len() && last[k] == c;
        assert((front + last)[front.len() + k] == c);
    } else {
        assert(corpus.drop_last()[i] == corpus[i]);
        lemma_tagged_holds(corpus.drop_last(), i, c);
        let k = choose|k: int| 0 <= k < front.len() && front[k] == c;
        assert((front + last)[k] == c);
    }
}

/// A name in an item's tags is hinted at wherever it is looked for.
proof fn lemma_tag_is_hinted_at(
    q: SearchQuery,
    corpus: Seq<CorpusItem>,
    found: Seq<ItemRef>,
    catalogue: Catalogue,
    i: int,
    category: Category,
    n: NameRef,
)
    requires
        0 <= i < corpus.len(),
        item_names(corpus[i]).contains(as_candidate(category, n)),
        needle_of(q).len() > 0,
        text::contains(text::unicode_lower(n.name@), needle_of(q)),
        wants_tagged(text::opt_text(q.include_item_types)),
    ensures
        hints_at(hints_for(q, corpus, found, catalogue), n.name@, category_label(category)),
{
    let c = as_candidate(category, n);
    let needle = needle_of(q);
    lemma_tagged_holds(corpus, i, c);
    let cs = tagged_names(corpus);
    let k = choose|k: int| 0 <= k < cs.len() && cs[k] == c;
    law_names_are_hinted_at_once(cs, needle);
    let first = first_matches(cs, needle);
    assert(text::contains(cs[k].folded, needle));
    let m = choose|m: int|
        0 <= m < first.len() && (#[trigger] first[m]).category == category && first[m].name
            == n.name@;
    let items = searched_items(q, needle, corpus, found);
    let hints = hints_for(q, corpus, found, catalogue);
    let h = name_hints(first, term_of(q));
    assert(h[m] == name_hint(first[m], term_of(q)));
    assert(hints[items.len() + m] == h[m]);
}

/// Whatever a client looks for, an item's artist, album artist, album and genre
/// are hinted at where their name contains it, each under its own type, unless
/// the client lists types and none of them is one of these.
pub proof fn law_names_in_tags_are_found(
    q: SearchQuery,
    corpus: Seq<CorpusItem>,
    found: Seq<ItemRef>,
    catalogue: Catalogue,
    i: int,
)
    requires
        0 <= i < corpus.len(),
        needle_of(q).len() > 0,
        q.include_item_types is None || lists_type(q.include_item_types, "musicartist"@)
            || lists_type(q.include_item_types, "musicalbum"@) || lists_type(
            q.include_item_types,
            "genre"@,
        ),
    ensures
        corpus[i].artist is Some && text::contains(
            text::unicode_lower(corpus[i].artist->0.name@),
            needle_of(q),
        ) ==> hints_at(
            hints_for(q, corpus, found, catalogue),
            corpus[i].artist->0.name@,
            "MusicArtist"@,
        ),
        corpus[i].album_artist is Some && text::contains(
            text::unicode_lower(corpus[i].album_artist->0.name@),
            needle_of(q),
        ) ==> hints_at(
            hints_for(q, corpus, found, catalogue),
            corpus[i].album_artist->0.name@,
            "MusicArtist"@,
        ),
        corpus[i].album is Some && text::contains(
            text::unicode_lower(corpus[i].album->0.name@),
            needle_of(q),
        ) ==> hints_at(
            hints_for(q, corpus, found, catalogue),
            corpus[i].album->0.name@,
            "MusicAlbum"@,
        ),
        corpus[i].genre is Some && text::contains(
            text::unicode_lower(corpus[i].genre->0.name@),
            needle_of(q),
        ) ==> hints_at(
            hints_for(q, corpus, found, catalogue),
            corpus[i].genre->0.name@,
            "Genre"@,
        ),
{
    lemma_tagged_wanted(q.include_item_types);
    let it = corpus[i];
    let a = opt_candidate(Category::MusicArtist, it.artist);
    let b = opt_candidate(Category::MusicArtist, it.album_artist);
    let c = opt_candidate(Category::MusicAlbum, it.album);
    let d = opt_candidate(Category::Genre, it.genre);
    let all = item_names(it);
    assert(all == a + b + c + d);
    if it.artist is Some && text::contains(text::unicode_lower(it.artist->0.name@), needle_of(q)) {
        assert(all[0] == as_candidate(Category::MusicArtist, it.artist->0));
        lemma_tag_is_hinted_at(
            q,
            corpus,
            found,
            catalogue,
            i,
            Category::MusicArtist,
            it.artist->0,
        );
    }
    if it.album_artist is Some && text::contains(
        text::unicode_lower(it.album_artist->0.name@),
        needle_of(q),
    ) {
        assert(all[a.len() as int] == as_candidate(Category::MusicArtist, it.album_artist->0));
        lemma_tag_is_hinted_at(
            q,
            corpus,
            found,
            catalogue,
            i,
            Category::MusicArtist,
            it.album_artist->0,
        );
    }
    if it.album is Some && text::contains(text::unicode_lower(it.album->0.name@), needle_of(q)) {
        assert(all[(a.len() + b.len()) as int] == as_candidate(Category::MusicAlbum, it.album->0));
        lemma_tag_is_hinted_at(q, corpus, found, catalogue, i, Category::MusicAlbum, it.album->0);
    }
    if it.genre is Some && text::contains(text::unicode_lower(it.genre->0.name@), needle_of(q)) {
        assert(all[(a.len() + b.len() + c.len()) as int] == as_candidate(
            Category::Genre,
            it.genre->0,
        ));
        lemma_tag_is_hinted_at(q, corpus, found, catalogue, i, Category::Genre, it.genre->0);
    }
}

proof fn lemma_catalogued_is_hinted_at(
    q: SearchQuery,
    corpus: Seq<CorpusItem>,
    found: Seq<ItemRef>,
    catalogue: Catalogue,
    category: Category,
    n: NameRef,
)
    requires
        catalogued_names(catalogue).contains(as_candidate(category, n)),
        needle_of(q).len() > 0,
        text::contains(text::unicode_lower(n.name@), needle_of(q)),
        wants_catalogued(text::opt_text(q.include_item_types)),
    ensures
        hints_at(hints_for(q, corpus, found, catalogue), n.name@, category_label(category)),
{
    let needle = needle_of(q);
    let c = as_candidate(category, n);
    let cs = catalogued_names(catalogue);
    let wanted = name_matches(needle);
    seqs::lemma_keep_members(cs, wanted);
    let kept = seqs::keep(cs, wanted);
    assert(wanted(c));
    assert(kept.contains(c));
    let m = choose|m: int| 0 <= m < kept.len() && kept[m] == c;
    let h = name_hints(kept, term_of(q));
    assert(h[m] == name_hint(c, term_of(q)));
    let hints = hints_for(q, corpus, found, catalogue);
    let before = hints.len() - h.len();
    assert(hints[before + m] == h[m]);
}

/// Whether a list of types names something that is known by its name alone, or
/// there is no list.
pub open spec fn lists_names(types: Option<String>) -> bool {
    ||| types is None
    ||| lists_type(types, "person"@)
    ||| lists_type(types, "studio"@)
    ||| lists_type(types, "tag"@)
    ||| lists_type(types, "musicartist"@)
    ||| lists_type(types, "musicalbum"@)
    ||| lists_type(types, "genre"@)
}

proof fn lemma_catalogued_wanted(types: Option<String>)
    requires
        lists_names(types),
    ensures
        wants_catalogued(text::opt_text(types)),
{
    let b = name_types();
    assert(b[3] == "person"@ && b[4] == "studio"@ && b[5] == "tag"@);
    if types is None || lists_type(types, "musicartist"@) || lists_type(types, "musicalbum"@)
        || lists_type(types, "genre"@) {
        lemma_tagged_wanted(types);
    } else {
        let t = types->0@;
        if lists_type(types, "person"@) {
            let i = choose|i: int|
                0 <= i < text::split(t, ',').len() && text::lower(
                    text::trim(#[trigger] text::split(t, ',')[i]),
                ) == "person"@;
            lemma_lists_type(t, b, i);
        } else if lists_type(types, "studio"@) {
            let i = choose|i: int|
                0 <= i < text::split(t, ',').len() && text::lower(
                    text::trim(#[trigger] text::split(t, ',')[i]),
                ) == "studio"@;
            lemma_lists_type(t, b, i);
        } else {
            let i = choose|i: int|
                0 <= i < text::split(t, ',').len() && text::lower(
                    text::trim(#[trigger] text::split(t, ',')[i]),
                ) == "tag"@;
            lemma_lists_type(t, b, i);
        }
    }
}

/// People, studios, collections and tags are hinted at where their name contains
/// what is looked for, each under its own type, unless the client lists types
/// and none of them is that of a name.
pub proof fn law_names_in_the_catalogue_are_found(
    q: SearchQuery,
    corpus: Seq<CorpusItem>,
    found: Seq<ItemRef>,
    catalogue: Catalogue,
    i: int,
)
    requires
        needle_of(q).len() > 0,
        lists_names(q.include_item_types),
    ensures
        0 <= i < catalogue.people@.len() && text::contains(
            text::unicode_lower(catalogue.people@[i].name@),
            needle_of(q),
        ) ==> hints_at(
            hints_for(q, corpus, found, catalogue),
            catalogue.people@[i].name@,
            "Person"@,
        ),
        0 <= i < catalogue.studios@.len() && text::contains(
            text::unicode_lower(catalogue.studios@[i].name@),
            needle_of(q),
        ) ==> hints_at(
            hints_for(q, corpus, found, catalogue),
            catalogue.studios@[i].name@,
            "Studio"@,
        ),
        0 <= i < catalogue.collections@.len() && text::contains(
            text::unicode_lower(catalogue.collections@[i].name@),
            needle_of(q),
        ) ==> hints_at(
            hints_for(q, corpus, found, catalogue),
            catalogue.collections@[i].name@,
            "BoxSet"@,
        ),
        0 <= i < catalogue.tags@.len() && text::contains(
            text::unicode_lower(catalogue.tags@[i].name@),
            needle_of(q),
        ) ==> hints_at(hints_for(q, corpus, found, catalogue), catalogue.tags@[i].name@, "Tag"@),
{
    lemma_catalogued_wanted(q.include_item_types);
    let a = all_candidates(Category::Person, catalogue.people@);
    let b = all_candidates(Category::Studio, catalogue.studios@);
    let c = all_candidates(Category::BoxSet, catalogue.collections@);
    let d = all_candidates(Category::Tag, catalogue.tags@);
    let all = catalogued_names(catalogue);
    assert(all == a + b + c + d);
    let needle = needle_of(q);
    if 0 <= i < a.len() && text::contains(
        text::unicode_lower(catalogue.people@[i].name@),
        needle,
    ) {
        let n = catalogue.people@[i];
        assert(all[i] == as_candidate(Category::Person, n));
        lemma_catalogued_is_hinted_at(q, corpus, found, catalogue, Category::Person, n);
    }
    if 0 <= i < b.len() && text::contains(
        text::unicode_lower(catalogue.studios@[i].name@),
        needle,
    ) {
        let n = catalogue.studios@[i];
        assert(all[a.len() + i] == as_candidate(Category::Studio, n));
        lemma_catalogued_is_hinted_at(q, corpus, found, catalogue, Category::Studio, n);
    }
    if 0 <= i < c.len() && text::contains(
        text::unicode_lower(catalogue.collections@[i].name@),
        needle,
    ) {
        let n = catalogue.collections@[i];
        assert(all[a.len() + b.len() + i] == as_candidate(Category::BoxSet, n));
        lemma_catalogued_is_hinted_at(q, corpus, found, catalogue, Category::BoxSet, n);
    }
    if 0 <= i < d.len() && text::contains(text::unicode_lower(catalogue.tags@[i].name@), needle) {
        let n = catalogue.tags@[i];
        assert(all[a.len() + b.len() + c.len() + i] == as_candidate(Category::Tag, n));
        lemma_catalogued_is_hinted_at(q, corpus, found, catalogue, Category::Tag, n);
    }
}

/// Whether a hint points to an item.
pub open spec fn points_to(h: HintView, i: ItemRef, term: Seq<char>) -> bool {
    &&& h.id == i.id@
    &&& h.name == i.title@
    &&& i.kind == MediaKind::Movie ==> h.kind == "Movie"@ && h.media_type == "Video"@
    &&& i.kind == MediaKind::Episode ==> h.kind == "Episode"@ && h.media_type == "Video"@
    &&& i.kind == MediaKind::Audio ==> h.kind == "Audio"@ && h.media_type == "Audio"@
    &&& h.run_time_ticks == i.run_time_ticks
    &&& h.matched_term == term
    &&& !h.is_folder
}

proof fn lemma_browsed(corpus: Seq<CorpusItem>, kinds: Option<Seq<MediaKind>>, term: Seq<char>, i: int)
    requires
        0 <= i < corpus.len(),
        media::kind_passes(kinds, corpus[i].item.kind),
    ensures
        browsed(corpus, kinds, term).contains(item_hint(corpus[i].item, term)),
    decreases corpus.len(),
{
    let rest = browsed(corpus.drop_last(), kinds, term);
    let all = browsed(corpus, kinds, term);
    let h = item_hint(corpus[i].item, term);
    if i == corpus.len() - 1 {
        assert(all[rest.len() as int] == h);
    } else {
        assert(corpus.drop_last()[i] == corpus[i]);
        lemma_browsed(corpus.drop_last(), kinds, term, i);
        let k = choose|k: int| 0 <= k < rest.len() && rest[k] == h;
        assert(all[k] == h);
    }
}

/// The items that the index has found are hinted at first, in its order. Where
/// nothing is looked for, the items of the library are, those of the listed
/// kinds where the client lists any.
pub proof fn law_items_are_hinted_at_first(
    q: SearchQuery,
    corpus: Seq<CorpusItem>,
    found: Seq<ItemRef>,
    catalogue: Catalogue,
    i: int,
)
    ensures
        needle_of(q).len() > 0 && 0 <= i < found.len() ==> hints_for(
            q,
            corpus,
            found,
            catalogue,
        ).len() > i && points_to(
            hints_for(q, corpus, found, catalogue)[i],
            found[i],
            term_of(q),
        ),
        needle_of(q).len() == 0 && 0 <= i < corpus.len() && (q.include_item_types is None
            || media::kinds_in(q.include_item_types->0@).len() == 0 || media::kinds_in(
            q.include_item_types->0@,
        ).contains(corpus[i].item.kind)) ==> exists|k: int|
            0 <= k < hints_for(q, corpus, found, catalogue).len() && points_to(
                #[trigger] hints_for(q, corpus, found, catalogue)[k],
                corpus[i].item,
                term_of(q),
            ),
{
    let hints = hints_for(q, corpus, found, catalogue);
    if needle_of(q).len() > 0 && 0 <= i < found.len() {
        let items = item_hints(found, term_of(q));
        assert(items[i] == item_hint(found[i], term_of(q)));
        assert(hints[i] == items[i]);
    }
    if needle_of(q).len() == 0 && 0 <= i < corpus.len() && (q.include_item_types is None
        || media::kinds_in(q.include_item_types->0@).len() == 0 || media::kinds_in(
        q.include_item_types->0@,
    ).contains(corpus[i].item.kind)) {
        let kinds = media::wanted_kinds(text::opt_text(q.include_item_types));
        lemma_browsed(corpus, kinds, term_of(q), i);
        let items = browsed(corpus, kinds, term_of(q));
        let k = choose|k: int|
            0 <= k < items.len() && items[k] == item_hint(corpus[i].item, term_of(q));
        assert(hints[k] == items[k]);
    }
}

proof fn lemma_first_matches_from(cs: Seq<CandidateView>, needle: Seq<char>, k: int)
    requires
        0 <= k < first_matches(cs, needle).len(),
    ensures
        cs.contains(first_matches(cs, needle)[k]),
        text::contains(first_matches(cs, needle)[k].folded, needle),
    decreases cs.len(),
{
    if cs.len() > 0 {
        let rest = first_matches(cs.drop_last(), needle);
        if k < rest.len() {
            lemma_first_matches_from(cs.drop_last(), needle, k);
            let j = choose|j: int|
                0 <= j < cs.drop_last().len() && cs.drop_last()[j] == rest[k];
            assert(cs[j] == rest[k]);
        } else {
            assert(cs[cs.len() - 1] == cs.last());
        }
    }
}

proof fn lemma_tagged_from(corpus: Seq<CorpusItem>, c: CandidateView)
    requires
        tagged_names(corpus).contains(c),
    ensures
        c.folded == text::unicode_lower(c.name),
        c.category == Category::MusicArtist || c.category == Category::MusicAlbum || c.category
            == Category::Genre,
    decreases corpus.len(),
{
    if corpus.len() > 0 {
        let front = tagged_names(corpus.drop_last());
        let last = item_names(corpus.last());
        let k = choose|k: int| 0 <= k < (front + last).len() && (front + last)[k] == c;
        if k < front.len() {
            assert(front[k] == c);
            lemma_tagged_from(corpus.drop_last(), c);
        } else {
            assert(last[k - front.len()] == c);
        }
    }
}

/// No name is hinted at that does not contain what is looked for, and none at
/// all where nothing is looked for, or where the client lists types and none of
/// them is that of a name.
pub proof fn law_only_matching_names_are_found(
    q: SearchQuery,
    corpus: Seq<CorpusItem>,
    found: Seq<ItemRef>,
    catalogue: Catalogue,
    k: int,
)
    requires
        0 <= k < hints_for(q, corpus, found, catalogue).len(),
        needle_of(q).len() > 0,
        found.len() <= k,
    ensures
        text::contains(
            text::unicode_lower(hints_for(q, corpus, found, catalogue)[k].name),
            needle_of(q),
        ),
        hints_for(q, corpus, found, catalogue)[k].is_folder,
        lists_names(q.include_item_types),
{
    let needle = needle_of(q);
    let items = item_hints(found, term_of(q));
    let wt = wants_tagged(text::opt_text(q.include_item_types));
    let tagged = tagged_names(corpus);
    let first = first_matches(tagged, needle);
    let h1 = name_hints(first, term_of(q));
    let cat = catalogued_names(catalogue);
    let kept = seqs::keep(cat, name_matches(needle));
    let h2 = name_hints(kept, term_of(q));
    let hints = hints_for(q, corpus, found, catalogue);
    if q.include_item_types is Some {
        let t = q.include_item_types->0@;
        let a = tag_types();
        let b = name_types();
        if wt {
            let i = choose|i: int|
                0 <= i < text::split(t, ',').len() && a.contains(
                    text::lower(text::trim(#[trigger] text::split(t, ',')[i])),
                );
            let x = text::lower(text::trim(text::split(t, ',')[i]));
            let m = choose|m: int| 0 <= m < a.len() && a[m] == x;
            assert(a[0] == "musicartist"@ && a[1] == "musicalbum"@ && a[2] == "genre"@);
        } else {
            let i = choose|i: int|
                0 <= i < text::split(t, ',').len() && b.contains(
                    text::lower(text::trim(#[trigger] text::split(t, ',')[i])),
                );
            let x = text::lower(text::trim(text::split(t, ',')[i]));
            let m = choose|m: int| 0 <= m < b.len() && b[m] == x;
            assert(b[0] == "musicartist"@ && b[1] == "musicalbum"@ && b[2] == "genre"@ && b[3]
                == "person"@ && b[4] == "studio"@ && b[5] == "tag"@);
        }
    }
    if wt && k < items.len() + h1.len() {
        let m = k - items.len();
        assert(hints[k] == h1[m]);
        assert(h1[m] == name_hint(first[m], term_of(q)));
        lemma_first_matches_from(tagged, needle, m);
        lemma_tagged_from(corpus, first[m]);
    } else {
        let before = if wt {
            items.len() + h1.len()
        } else {
            items.len()
        };
        let m = k - before;
        assert(hints[k] == h2[m]);
        assert(h2[m] == name_hint(kept[m], term_of(q)));
        seqs::lemma_keep_members(cat, name_matches(needle));
        assert(kept.contains(kept[m]));
        assert(cat.contains(kept[m]) && name_matches(needle)(kept[m]));
        let j = choose|j: int| 0 <= j < cat.len() && cat[j] == kept[m];
        assert(cat[j].folded == text::unicode_lower(cat[j].name)) by {
            let a = all_candidates(Category::Person, catalogue.people@);
            let b = all_candidates(Category::Studio, catalogue.studios@);
            let c = all_candidates(Category::BoxSet, catalogue.collections@);
            let d = all_candidates(Category::Tag, catalogue.tags@);
            if j < a.len() {
                assert(cat[j] == a[j]);
            } else if j < a.len() + b.len() {
                assert(cat[j] == b[j - a.len()]);
            } else if j < a.len() + b.len() + c.len() {
                assert(cat[j] == c[j - a.len() - b.len()]);
            } else {
                assert(cat[j] == d[j - a.len() - b.len() - c.len()]);
            }
        }
    }
}

/// The index is asked where something is looked for, for the term without white
/// space around it, and for more than the page holds.
pub proof fn law_the_index_is_asked(plan: SearchPlan, q: SearchQuery, needle: Seq<char>)
    requires
        plan_is(plan, q, needle),
    ensures
        plan is Browse <==> needle.len() == 0,
        plan matches SearchPlan::Lookup { term, kinds, limit } ==> {
            &&& q.search_term is Some ==> term@ == text::trim(q.search_term->0@)
            &&& q.include_item_types is None ==> kinds@.len() == 0
            &&& q.include_item_types is Some ==> kinds@ == media::kinds_in(
                q.include_item_types->0@,
            )
            &&& q.start_index <= 1_000_000_000 && q.limit <= 1_000_000_000 ==> limit
                == q.start_index + q.limit + 200
            &&& limit >= 200
        },
{
    if q.include_item_types is Some {
        let ks = media::kinds_in(q.include_item_types->0@);
        if ks.len() == 0 {
            assert(ks =~= Seq::empty());
        }
    }
}

/// Where there is something of a kind that has not been played, something of
/// that kind is suggested, as long as at least three are asked for.
pub proof fn law_every_kind_is_suggested(
    items: Seq<Viewing>,
    limit: nat,
    seed: u64,
    i: int,
)
    requires
        items.len() <= usize::MAX,
        0 <= i < items.len(),
        !items[i].played,
        limit >= 3,
    ensures
        exists|k: int|
            0 <= k < suggested(items, limit as int, seed).len() && items[(#[trigger] suggested(
                items,
                limit as int,
                seed,
            )[k]) as int].kind == items[i].kind,
{
    let l = limit as int;
    let movies = drawn(items, MediaKind::Movie, l, seed);
    let episodes = drawn(items, MediaKind::Episode, l, movies.1);
    let audio = drawn(items, MediaKind::Audio, l, episodes.1);
    lemma_drawn(items, MediaKind::Movie, l, seed);
    lemma_drawn(items, MediaKind::Episode, l, movies.1);
    lemma_drawn(items, MediaKind::Audio, l, episodes.1);
    let all = movies.0 + episodes.0 + audio.0;
    assert(all.len() <= 3 * share(l) && 3 * share(l) <= l);
    lemma_something_drawn(items, items[i].kind, l, seed, i);
    lemma_something_drawn(items, items[i].kind, l, movies.1, i);
    lemma_something_drawn(items, items[i].kind, l, episodes.1, i);
    let m = if items[i].kind == MediaKind::Movie {
        0
    } else if items[i].kind == MediaKind::Episode {
        movies.0.len() as int
    } else {
        (movies.0.len() + episodes.0.len()) as int
    };
    assert(items[all[m] as int].kind == items[i].kind) by {
        if items[i].kind == MediaKind::Movie {
            assert(all[m] == movies.0[0]);
        } else if items[i].kind == MediaKind::Episode {
            assert(all[m] == episodes.0[0]);
        } else {
            assert(all[m] == audio.0[0]);
        }
    }
    shuffle::law_shuffle_is_a_permutation(all, all.len(), audio.1);
    let mixed = shuffle::shuffled(all, all.len(), audio.1).0;
    broadcast use vstd::seq_lib::group_to_multiset_ensures;

    assert(all.to_multiset().count(all[m]) > 0) by {
        assert(all.contains(all[m]));
    }
    assert(mixed.contains(all[m]));
    let k = choose|k: int| 0 <= k < mixed.len() && mixed[k] == all[m];
    assert(mixed.len() == all.len());
    assert(suggested(items, l, seed)[k] == all[m]);
}

proof fn lemma_something_drawn(
    items: Seq<Viewing>,
    kind: MediaKind,
    limit: int,
    seed: u64,
    i: int,
)
    requires
        items.len() <= usize::MAX,
        0 <= i < items.len(),
        !items[i].played,
        items[i].kind == kind,
    ensures
        drawn(items, kind, limit, seed).0.len() > 0,
{
    let pool = unplayed(items, kind, items.len() as int);
    lemma_unplayed_holds(items, kind, items.len() as int, i);
    broadcast use vstd::seq_lib::group_to_multiset_ensures;

    shuffle::law_shuffle_is_a_permutation(pool, pool.len(), seed);
    let mixed = shuffle::shuffled(pool, pool.len(), seed).0;
    assert(mixed.len() == pool.len());
}

proof fn lemma_unplayed_holds(items: Seq<Viewing>, kind: MediaKind, n: int, i: int)
    requires
        0 <= i < n <= items.len(),
        !items[i].played,
        items[i].kind == kind,
    ensures
        unplayed(items, kind, n).len() > 0,
    decreases n,
{
    if i < n - 1 {
        lemma_unplayed_holds(items, kind, n - 1, i);
    }
}

proof fn lemma_browsed_are_items(
    corpus: Seq<CorpusItem>,
    kinds: Option<Seq<MediaKind>>,
    term: Seq<char>,
)
    ensures
        browsed(corpus, kinds, term).len() <= corpus.len(),
        forall|k: int|
            0 <= k < browsed(corpus, kinds, term).len() ==> exists|i: int|
                0 <= i < corpus.len() && #[trigger] browsed(corpus, kinds, term)[k] == item_hint(
                    (#[trigger] corpus[i]).item,
                    term,
                ),
    decreases corpus.len(),
{
    if corpus.len() > 0 {
        let front = corpus.drop_last();
        let rest = browsed(front, kinds, term);
        let all = browsed(corpus, kinds, term);
        lemma_browsed_are_items(front, kinds, term);
        assert forall|k: int| 0 <= k < all.len() implies exists|i: int|
            0 <= i < corpus.len() && #[trigger] all[k] == item_hint(
                (#[trigger] corpus[i]).item,
                term,
            ) by {
            if k < rest.len() {
                assert(all[k] == rest[k]);
                let i = choose|i: int|
                    0 <= i < front.len() && rest[k] == item_hint((#[trigger] front[i]).item, term);
                assert(corpus[i] == front[i]);
            } else {
                assert(all[k] == item_hint(corpus[corpus.len() - 1].item, term));
            }
        }
    }
}

/// Where nothing is looked for, the hints are at items of the library alone, each
/// at most once: no name is hinted at, whatever the catalogue holds, and the
/// index has no say.
pub proof fn law_an_empty_search_hints_at_items_only(
    q: SearchQuery,
    corpus: Seq<CorpusItem>,
    found: Seq<ItemRef>,
    catalogue: Catalogue,
    found2: Seq<ItemRef>,
    catalogue2: Catalogue,
)
    requires
        needle_of(q).len() == 0,
    ensures
        hints_for(q, corpus, found, catalogue).len() <= corpus.len(),
        forall|k: int|
            0 <= k < hints_for(q, corpus, found, catalogue).len() ==> exists|i: int|
                0 <= i < corpus.len() && points_to(
                    #[trigger] hints_for(q, corpus, found, catalogue)[k],
                    (#[trigger] corpus[i]).item,
                    term_of(q),
                ),
        hints_for(q, corpus, found, catalogue) == hints_for(q, corpus, found2, catalogue2),
{
    let kinds = media::wanted_kinds(text::opt_text(q.include_item_types));
    let term = term_of(q);
    let hints = hints_for(q, corpus, found, catalogue);
    lemma_browsed_are_items(corpus, kinds, term);
    assert(hints == browsed(corpus, kinds, term));
    assert forall|k: int| 0 <= k < hints.len() implies exists|i: int|
        0 <= i < corpus.len() && points_to(#[trigger] hints[k], (#[trigger] corpus[i]).item, term) by {
        let i = choose|i: int|
            0 <= i < corpus.len() && hints[k] == item_hint((#[trigger] corpus[i]).item, term);
        assert(points_to(hints[k], corpus[i].item, term));
    }
}

} // verus!
