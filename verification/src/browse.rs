//! The list requests: from a client's query to the question that is put to the
//! store, and from what the store gives to the page that is sent.

use vstd::prelude::*;
use vstd::string::*;
use crate::answer::{ApiError, Refusal};
use crate::media::{self, read_kinds, MediaKind};
use crate::seqs::{self, cut_page};
use crate::sessions::{self, UserItemData};
use crate::shuffle::{self, seed_from, xorshift_shuffle};
use crate::text::{self, chars_of, copy_opt, csv_entries, eq_ignore_case, eq_text, split_on, text_of, trimmed};
use crate::wire::{query_result, QueryResult};

verus! {

// ------------------------------------------------------------------- requests

/// What a client may ask of a list.
pub struct ListQuery {
    pub start_index: u32,
    pub limit: u32,
    pub search_term: Option<String>,
    pub include_item_types: Option<String>,
    pub fields: Option<String>,
    pub sort_by: Option<String>,
    pub sort_order: Option<String>,
    pub parent_id: Option<String>,
    pub filters: Option<String>,
    pub ids: Option<String>,
    pub sort_seed: Option<u64>,
    pub genres: Option<String>,
    pub tags: Option<String>,
    pub name_starts_with: Option<String>,
    pub name_starts_with_or_greater: Option<String>,
    pub name_less_than: Option<String>,
    pub exclude_item_types: Option<String>,
    pub media_types: Option<String>,
    pub is_favorite: Option<bool>,
    pub is_played: Option<bool>,
    pub min_index_number: Option<u32>,
    pub max_index_number: Option<u32>,
    pub has_subtitles: Option<bool>,
    pub is_4k: Option<bool>,
    pub is_hd: Option<bool>,
    pub is_3d: Option<bool>,
    pub min_width: Option<u32>,
    pub max_width: Option<u32>,
    pub album_artist_ids: Option<String>,
    pub contributing_artist_ids: Option<String>,
    pub artist_ids: Option<String>,
    pub exclude_item_ids: Option<String>,
}

/// How many rows a list has where the client does not say.
pub fn default_limit() -> (r: u32)
    ensures
        r == 100,
{
    100
}

impl Default for ListQuery {
    /// A request for everything, a page at a time.
    fn default() -> (r: Self)
        ensures
            r.start_index == 0 && r.limit == 100,
            r.search_term is None && r.include_item_types is None && r.fields is None,
            r.sort_by is None && r.sort_order is None && r.parent_id is None && r.filters is None,
            r.ids is None && r.sort_seed is None && r.genres is None && r.tags is None,
            r.name_starts_with is None && r.name_starts_with_or_greater is None,
            r.name_less_than is None && r.exclude_item_types is None && r.media_types is None,
            r.is_favorite is None && r.is_played is None && r.min_index_number is None,
            r.max_index_number is None && r.has_subtitles is None && r.is_4k is None,
            r.is_hd is None && r.is_3d is None && r.min_width is None && r.max_width is None,
            r.album_artist_ids is None && r.contributing_artist_ids is None,
            r.artist_ids is None && r.exclude_item_ids is None,
    {
        ListQuery {
            start_index: 0,
            limit: default_limit(),
            search_term: None,
            include_item_types: None,
            fields: None,
            sort_by: None,
            sort_order: None,
            parent_id: None,
            filters: None,
            ids: None,
            sort_seed: None,
            genres: None,
            tags: None,
            name_starts_with: None,
            name_starts_with_or_greater: None,
            name_less_than: None,
            exclude_item_types: None,
            media_types: None,
            is_favorite: None,
            is_played: None,
            min_index_number: None,
            max_index_number: None,
            has_subtitles: None,
            is_4k: None,
            is_hd: None,
            is_3d: None,
            min_width: None,
            max_width: None,
            album_artist_ids: None,
            contributing_artist_ids: None,
            artist_ids: None,
            exclude_item_ids: None,
        }
    }
}

/// A list request of one user may not ask for another user's items.
pub fn require_same_user(path_user: &str, bearer: &str) -> (r: Result<(), ApiError>)
    ensures
        r is Ok <==> path_user@ == bearer@,
        r matches Err(e) ==> e.says(Refusal::Forbidden, "user mismatch"@),
{
    if eq_text(path_user, bearer) {
        Ok(())
    } else {
        Err(ApiError::Forbidden("user mismatch".to_owned()))
    }
}

/// Whether a list of types names this one type and no other.
pub open spec fn only_type(list: Option<Seq<char>>, name: Seq<char>) -> bool {
    match list {
        Some(l) => {
            &&& text::csv(l).len() > 0
            &&& forall|i: int| 0 <= i < text::csv(l).len() ==> text::eq_ci(#[trigger] text::csv(l)[i], name)
        },
        None => false,
    }
}

fn names_only(list: &Option<String>, name: &str) -> (r: bool)
    ensures
        r == only_type(text::opt_text(*list), name@),
{
    match list {
        Some(l) => {
            let entries = csv_entries(l.as_str());
            let mut i: usize = 0;
            while i < entries.len()
                invariant
                    i <= entries@.len(),
                    *list == Some(*l),
                    text::texts(entries@) == text::csv(l@),
                    forall|k: int|
                        0 <= k < i ==> text::eq_ci(#[trigger] text::csv(l@)[k], name@),
                decreases entries@.len() - i,
            {
                proof {
                    assert(text::texts(entries@)[i as int] == entries@[i as int]@);
                }
                if !eq_ignore_case(entries[i].as_str(), name) {
                    return false;
                }
                i += 1;
            }
            proof {
                assert(text::texts(entries@).len() == entries@.len());
            }
            entries.len() > 0
        },
        None => false,
    }
}

/// Whether a request asks for box sets alone.
pub fn boxset_only_request(q: &ListQuery) -> (r: bool)
    ensures
        r == only_type(text::opt_text(q.include_item_types), "BoxSet"@),
{
    names_only(&q.include_item_types, "BoxSet")
}

/// Whether a request asks for playlists alone.
pub fn playlist_only_request(q: &ListQuery) -> (r: bool)
    ensures
        r == only_type(text::opt_text(q.include_item_types), "Playlist"@),
{
    names_only(&q.include_item_types, "Playlist")
}

/// Whether a request asks for albums alone.
pub fn music_album_only_request(q: &ListQuery) -> (r: bool)
    ensures
        r == only_type(text::opt_text(q.include_item_types), "MusicAlbum"@),
{
    names_only(&q.include_item_types, "MusicAlbum")
}

/// Whether a list of fields names this one.
pub open spec fn asks_for(fields: Option<Seq<char>>, name: Seq<char>) -> bool {
    match fields {
        Some(f) => exists|i: int|
            0 <= i < text::split(f, ',').len() && text::eq_ci(
                text::trim(#[trigger] text::split(f, ',')[i]),
                name,
            ),
        None => false,
    }
}

/// Whether the fields that a client wants filled in name this one.
pub fn fields_requests(fields: Option<&str>, name: &str) -> (r: bool)
    ensures
        r == asks_for(opt_str(fields), name@),
{
    match fields {
        Some(f) => {
            let pieces = split_on(f, ',');
            let mut i: usize = 0;
            while i < pieces.len()
                invariant
                    i <= pieces@.len(),
                    fields == Some(f),
                    text::texts(pieces@) == text::split(f@, ','),
                    forall|k: int|
                        0 <= k < i ==> !text::eq_ci(
                            text::trim(#[trigger] text::split(f@, ',')[k]),
                            name@,
                        ),
                decreases pieces@.len() - i,
            {
                proof {
                    assert(text::texts(pieces@)[i as int] == pieces@[i as int]@);
                }
                if eq_ignore_case(trimmed(pieces[i].as_str()).as_str(), name) {
                    proof {
                        assert(text::texts(pieces@).len() == pieces@.len());
                        let k = i as int;
                        assert(0 <= k < text::split(f@, ',').len());
                        assert(text::eq_ci(text::trim(text::split(f@, ',')[k]), name@));
                        assert(asks_for(Some(f@), name@));
                        assert(opt_str(fields) == Some(f@));
                    }
                    return true;
                }
                i += 1;
            }
            false
        },
        None => false,
    }
}

// ----------------------------------------------------------------- name lists

/// A text with a comma in place of each bar.
pub open spec fn bars_to_commas(s: Seq<char>) -> Seq<char> {
    Seq::new(s.len(), |i: int| if s[i] == '|' { ',' } else { s[i] })
}

/// A list with bars or commas between its names: the names, trimmed, without
/// the empty ones.
pub open spec fn name_list(s: Seq<char>) -> Seq<Seq<char>> {
    text::csv(bars_to_commas(s))
}

/// The same of a list that may be absent.
pub open spec fn opt_name_list(s: Option<Seq<char>>) -> Seq<Seq<char>> {
    match s {
        Some(l) => name_list(l),
        None => Seq::empty(),
    }
}

/// The view of an optional string slice.
pub open spec fn opt_str(s: Option<&str>) -> Option<Seq<char>> {
    match s {
        Some(l) => Some(l@),
        None => None,
    }
}

fn read_name_list(s: &str) -> (r: Vec<String>)
    ensures
        text::texts(r@) == name_list(s@),
{
    let v = chars_of(s);
    let mut out: Vec<char> = Vec::new();
    let mut i: usize = 0;
    while i < v.len()
        invariant
            i <= v@.len(),
            v@ == s@,
            out@ == bars_to_commas(s@).take(i as int),
        decreases v@.len() - i,
    {
        out.push(if v[i] == '|' { ',' } else { v[i] });
        i += 1;
        proof {
            assert(bars_to_commas(s@).take(i as int) == bars_to_commas(s@).take(i - 1).push(
                bars_to_commas(s@)[i - 1],
            ));
        }
    }
    proof {
        assert(bars_to_commas(s@).take(i as int) == bars_to_commas(s@));
    }
    csv_entries(text_of(out.as_slice()).as_str())
}

/// The tag names in a list.
pub fn split_tag_csv(raw: Option<&str>) -> (r: Vec<String>)
    ensures
        text::texts(r@) == opt_name_list(opt_str(raw)),
{
    match raw {
        Some(s) => read_name_list(s),
        None => {
            let r: Vec<String> = Vec::new();
            proof {
                assert(text::texts(r@) == Seq::<Seq<char>>::empty());
            }
            r
        },
    }
}

/// How many bytes a character takes in UTF-8.
pub open spec fn utf8_width(c: char) -> int {
    if (c as int) < 0x80 {
        1
    } else if (c as int) < 0x800 {
        2
    } else if (c as int) < 0x1_0000 {
        3
    } else {
        4
    }
}

/// How many bytes a text takes in UTF-8.
pub open spec fn utf8_len(s: Seq<char>) -> int
    decreases s.len(),
{
    if s.len() == 0 {
        0
    } else {
        utf8_len(s.drop_last()) + utf8_width(s.last())
    }
}

fn char_width(c: char) -> (r: usize)
    ensures
        r == utf8_width(c),
        1 <= r <= 4,
{
    let n: u32 = c as u32;
    if n < 0x80 {
        1
    } else if n < 0x800 {
        2
    } else if n < 0x1_0000 {
        3
    } else {
        4
    }
}

proof fn lemma_utf8_len_grows(s: Seq<char>, i: int)
    requires
        0 <= i <= s.len(),
    ensures
        utf8_len(s.take(i)) <= utf8_len(s),
    decreases s.len() - i,
{
    if i < s.len() {
        lemma_utf8_len_grows(s, i + 1);
        assert(s.take(i + 1).drop_last() == s.take(i));
    } else {
        assert(s.take(i) == s);
    }
}

/// Whether a text takes at most `max` bytes.
fn fits_in(s: &str, max: usize) -> (r: bool)
    requires
        max <= 1000,
    ensures
        r == (utf8_len(s@) <= max),
{
    let v = chars_of(s);
    let mut n: usize = 0;
    let mut i: usize = 0;
    proof {
        assert(s@.take(0) == Seq::<char>::empty());
    }
    while i < v.len()
        invariant
            i <= v@.len(),
            v@ == s@,
            n == utf8_len(s@.take(i as int)),
            n <= max,
            max <= 1000,
        decreases v@.len() - i,
    {
        n += char_width(v[i]);
        i += 1;
        proof {
            assert(s@.take(i as int).drop_last() == s@.take(i - 1));
        }
        if n > max {
            proof {
                lemma_utf8_len_grows(s@, i as int);
            }
            return false;
        }
    }
    proof {
        assert(s@.take(i as int) == s@);
    }
    true
}

/// Whether an entry of a list of ids can be one: a dashed id is the longest.
pub open spec fn may_be_id() -> spec_fn(Seq<char>) -> bool {
    |s: Seq<char>| utf8_len(s) <= 36
}

/// The entries of a list of ids that can be ids.
pub open spec fn id_list(s: Option<Seq<char>>) -> Seq<Seq<char>> {
    match s {
        Some(l) => seqs::keep(text::csv(l), may_be_id()),
        None => Seq::empty(),
    }
}

/// The entries of a comma-separated list of item ids, without what is too long
/// to be one.
pub fn parse_id_csv(raw: Option<&str>) -> (r: Vec<String>)
    ensures
        text::texts(r@) == id_list(opt_str(raw)),
{
    let mut out: Vec<String> = Vec::new();
    proof {
        assert(text::texts(out@) == Seq::<Seq<char>>::empty());
    }
    match raw {
        Some(s) => {
            let entries = csv_entries(s);
            let mut i: usize = 0;
            let ghost all = text::csv(s@);
            proof {
                assert(all.take(0) == Seq::<Seq<char>>::empty());
            }
            while i < entries.len()
                invariant
                    i <= entries@.len(),
                    all == text::csv(s@),
                    text::texts(entries@) == all,
                    text::texts(out@) == seqs::keep(all.take(i as int), may_be_id()),
                decreases entries@.len() - i,
            {
                proof {
                    seqs::lemma_keep_step(all, may_be_id(), i as int);
                    assert(text::texts(entries@)[i as int] == entries@[i as int]@);
                }
                if fits_in(entries[i].as_str(), 36) {
                    let ghost before = out@;
                    out.push(entries[i].clone());
                    proof {
                        assert(text::texts(out@) == text::texts(before).push(all[i as int]));
                    }
                }
                i += 1;
            }
            proof {
                assert(text::texts(entries@).len() == entries@.len());
                assert(all.take(i as int) == all);
            }
            out
        },
        None => out,
    }
}

// ---------------------------------------------------------- user data filters

/// What a list asks of a user's record of each item. Everything that is asked
/// must hold.
#[derive(Debug, Clone, Copy, PartialEq, Eq)]
pub struct UserDataFilter {
    pub is_favorite: Option<bool>,
    pub is_played: Option<bool>,
    pub is_resumable: bool,
    /// Whether a thing and its opposite are asked for, which no record meets.
    pub is_impossible: bool,
}

/// Whether a record has what a token asks for. A token that is not known asks
/// for nothing. An item can be resumed where it was left in the middle and is
/// not played.
pub open spec fn token_holds(token: Seq<char>, d: UserItemData) -> bool {
    &&& token == "IsFavorite"@ ==> d.is_favorite
    &&& token == "IsNotFavorite"@ ==> !d.is_favorite
    &&& token == "IsPlayed"@ ==> d.played
    &&& token == "IsUnplayed"@ ==> !d.played
    &&& token == "IsResumable"@ ==> !d.played && d.last_played_position_ticks != 0
}

/// Whether asking for `want` goes against what was asked before.
pub open spec fn clashes(before: Option<bool>, want: bool) -> bool {
    before == Some(!want)
}

/// A filter that asks about favourites too.
pub open spec fn with_favorite(f: UserDataFilter, want: bool) -> UserDataFilter {
    UserDataFilter {
        is_favorite: Some(want),
        is_impossible: f.is_impossible || clashes(f.is_favorite, want),
        ..f
    }
}

/// A filter that asks about what is played too.
pub open spec fn with_played(f: UserDataFilter, want: bool) -> UserDataFilter {
    UserDataFilter {
        is_played: Some(want),
        is_impossible: f.is_impossible || clashes(f.is_played, want),
        ..f
    }
}

/// A filter with one more token read. Tokens that are not known change nothing.
pub open spec fn with_token(f: UserDataFilter, token: Seq<char>) -> UserDataFilter {
    if token == "IsFavorite"@ {
        with_favorite(f, true)
    } else if token == "IsNotFavorite"@ {
        with_favorite(f, false)
    } else if token == "IsPlayed"@ {
        with_played(f, true)
    } else if token == "IsUnplayed"@ {
        with_played(f, false)
    } else if token == "IsResumable"@ {
        UserDataFilter { is_resumable: true, ..f }
    } else {
        f
    }
}

/// A filter that asks nothing.
pub open spec fn no_filter() -> UserDataFilter {
    UserDataFilter {
        is_favorite: None,
        is_played: None,
        is_resumable: false,
        is_impossible: false,
    }
}

/// The filter that a row of tokens makes: all of them must hold.
pub open spec fn filter_of(tokens: Seq<Seq<char>>) -> UserDataFilter
    decreases tokens.len(),
{
    if tokens.len() == 0 {
        no_filter()
    } else {
        with_token(filter_of(tokens.drop_last()), text::trim(tokens.last()))
    }
}

/// Whether every token of a row holds of a record.
pub open spec fn all_tokens_hold(tokens: Seq<Seq<char>>, d: UserItemData) -> bool {
    forall|i: int| 0 <= i < tokens.len() ==> token_holds(text::trim(#[trigger] tokens[i]), d)
}

proof fn lemma_token_names()
    ensures
        "IsFavorite"@ != "IsNotFavorite"@ && "IsFavorite"@ != "IsPlayed"@ && "IsFavorite"@
            != "IsUnplayed"@ && "IsFavorite"@ != "IsResumable"@,
        "IsNotFavorite"@ != "IsPlayed"@ && "IsNotFavorite"@ != "IsUnplayed"@ && "IsNotFavorite"@
            != "IsResumable"@,
        "IsPlayed"@ != "IsUnplayed"@ && "IsPlayed"@ != "IsResumable"@,
        "IsUnplayed"@ != "IsResumable"@,
{
    reveal_strlit("IsFavorite");
    reveal_strlit("IsNotFavorite");
    reveal_strlit("IsPlayed");
    reveal_strlit("IsUnplayed");
    reveal_strlit("IsResumable");
    assert("IsFavorite"@[2] == 'F');
    assert("IsPlayed"@[2] == 'P');
    assert("IsUnplayed"@[2] == 'U');
    assert("IsResumable"@[2] == 'R');
    assert("IsNotFavorite"@[2] == 'N');
}

/// A record passes the filter of a row of tokens exactly where every token holds
/// of it: a token never undoes another.
pub proof fn law_filters_must_all_hold(tokens: Seq<Seq<char>>, d: UserItemData)
    ensures
        filter_of(tokens).passes(d) <==> all_tokens_hold(tokens, d),
    decreases tokens.len(),
{
    if tokens.len() > 0 {
        let front = tokens.drop_last();
        let last = text::trim(tokens.last());
        law_filters_must_all_hold(front, d);
        lemma_token_names();
        assert(filter_of(tokens).passes(d) <==> filter_of(front).passes(d) && token_holds(last, d));
        if all_tokens_hold(tokens, d) {
            assert forall|i: int| 0 <= i < front.len() implies token_holds(
                text::trim(#[trigger] front[i]),
                d,
            ) by {
                assert(front[i] == tokens[i]);
            }
            assert(token_holds(text::trim(tokens[tokens.len() - 1]), d));
        }
        if all_tokens_hold(front, d) && token_holds(last, d) {
            assert forall|i: int| 0 <= i < tokens.len() implies token_holds(
                text::trim(#[trigger] tokens[i]),
                d,
            ) by {
                if i < front.len() {
                    assert(front[i] == tokens[i]);
                }
            }
        }
    }
}

impl UserDataFilter {
    pub open spec fn active(self) -> bool {
        self.is_favorite is Some || self.is_played is Some || self.is_resumable
            || self.is_impossible
    }

    /// Whether a record passes.
    pub open spec fn passes(self, d: UserItemData) -> bool {
        &&& !self.is_impossible
        &&& self.is_favorite is Some ==> d.is_favorite == self.is_favorite->0
        &&& self.is_played is Some ==> d.played == self.is_played->0
        &&& self.is_resumable ==> !d.played && d.last_played_position_ticks != 0
    }

    /// A filter that asks nothing.
    fn nothing() -> (r: Self)
        ensures
            r == no_filter(),
    {
        UserDataFilter {
            is_favorite: None,
            is_played: None,
            is_resumable: false,
            is_impossible: false,
        }
    }

    /// Asks about favourites too.
    fn ask_favorite(&mut self, want: bool)
        ensures
            *final(self) == with_favorite(*old(self), want),
    {
        if let Some(before) = self.is_favorite {
            if before != want {
                self.is_impossible = true;
            }
        }
        self.is_favorite = Some(want);
    }

    /// Asks about what is played too.
    fn ask_played(&mut self, want: bool)
        ensures
            *final(self) == with_played(*old(self), want),
    {
        if let Some(before) = self.is_played {
            if before != want {
                self.is_impossible = true;
            }
        }
        self.is_played = Some(want);
    }

    /// Reads a comma-separated list of tokens, all of which must hold.
    pub fn parse(raw: &str) -> (r: Self)
        ensures
            r == filter_of(text::split(raw@, ',')),
            forall|d: UserItemData| #[trigger]
                r.passes(d) <==> all_tokens_hold(text::split(raw@, ','), d),
    {
        let pieces = split_on(raw, ',');
        let mut f = UserDataFilter::nothing();
        let mut i: usize = 0;
        let ghost all = text::split(raw@, ',');
        proof {
            assert(all.take(0) == Seq::<Seq<char>>::empty());
        }
        while i < pieces.len()
            invariant
                i <= pieces@.len(),
                all == text::split(raw@, ','),
                text::texts(pieces@) == all,
                f == filter_of(all.take(i as int)),
            decreases pieces@.len() - i,
        {
            let token = trimmed(pieces[i].as_str());
            proof {
                assert(text::texts(pieces@)[i as int] == pieces@[i as int]@);
                assert(all.take(i + 1).drop_last() == all.take(i as int));
                assert(all.take(i + 1).last() == all[i as int]);
            }
            let t: &str = token.as_str();
            if eq_text(t, "IsFavorite") {
                f.ask_favorite(true);
            } else if eq_text(t, "IsNotFavorite") {
                f.ask_favorite(false);
            } else if eq_text(t, "IsPlayed") {
                f.ask_played(true);
            } else if eq_text(t, "IsUnplayed") {
                f.ask_played(false);
            } else if eq_text(t, "IsResumable") {
                f.is_resumable = true;
            }
            i += 1;
        }
        proof {
            assert(text::texts(pieces@).len() == pieces@.len());
            assert(all.take(i as int) == all);
            assert forall|d: UserItemData| #[trigger] f.passes(d) <==> all_tokens_hold(all, d) by {
                law_filters_must_all_hold(all, d);
            }
        }
        f
    }

    /// Whether the filter asks for anything.
    pub fn is_active(&self) -> (r: bool)
        ensures
            r == self.active(),
    {
        self.is_favorite.is_some() || self.is_played.is_some() || self.is_resumable
            || self.is_impossible
    }

    /// Whether a record passes the filter.
    pub fn matches(&self, ud: UserItemData) -> (r: bool)
        ensures
            r == self.passes(ud),
    {
        if self.is_impossible {
            return false;
        }
        if let Some(want) = self.is_favorite {
            if ud.is_favorite != want {
                return false;
            }
        }
        if let Some(want) = self.is_played {
            if ud.played != want {
                return false;
            }
        }
        if self.is_resumable && (ud.played || ud.last_played_position_ticks == 0) {
            return false;
        }
        true
    }
}

/// The filter of a request: its tokens, and the two switches, which ask as the
/// tokens do.
pub open spec fn user_filter(
    filters: Option<Seq<char>>,
    favorite: Option<bool>,
    played: Option<bool>,
) -> UserDataFilter {
    let f = match filters {
        Some(raw) => filter_of(text::split(raw, ',')),
        None => no_filter(),
    };
    let g = match favorite {
        Some(want) => with_favorite(f, want),
        None => f,
    };
    match played {
        Some(want) => with_played(g, want),
        None => g,
    }
}

/// The filter that a request puts on the user's records. A switch asks for as
/// much as its token does, beside the tokens.
pub fn user_data_filter(q: &ListQuery) -> (r: UserDataFilter)
    ensures
        r == user_filter(text::opt_text(q.filters), q.is_favorite, q.is_played),
{
    let mut f = match &q.filters {
        Some(raw) => UserDataFilter::parse(raw.as_str()),
        None => UserDataFilter::nothing(),
    };
    if let Some(want) = q.is_favorite {
        f.ask_favorite(want);
    }
    if let Some(want) = q.is_played {
        f.ask_played(want);
    }
    f
}

/// A record passes the filter of a request exactly where it passes its tokens
/// and each switch that is set.
pub proof fn law_switches_ask_as_tokens_do(
    filters: Seq<char>,
    favorite: Option<bool>,
    played: Option<bool>,
    d: UserItemData,
)
    ensures
        user_filter(Some(filters), favorite, played).passes(d) <==> {
            &&& all_tokens_hold(text::split(filters, ','), d)
            &&& favorite is Some ==> d.is_favorite == favorite->0
            &&& played is Some ==> d.played == played->0
        },
{
    law_filters_must_all_hold(text::split(filters, ','), d);
}

// -------------------------------------------------------------------- sorting

/// The families of sort keys.
#[derive(Debug, Clone, Copy, PartialEq, Eq, Structural)]
pub enum SortPrimary {
    Unsorted,
    Random,
    DateCreated,
    Runtime,
    AlbumArtist,
    Album,
    TrackOrder,
    Name,
}

/// The columns that the store sorts by.
#[derive(Debug, Clone, Copy, PartialEq, Eq, Structural)]
pub enum SortKey {
    Name,
    DateCreated,
    Runtime,
    AlbumArtist,
    Album,
    DiscNumber,
    TrackNumber,
    Id,
}

/// Which way a key runs.
#[derive(Debug, Clone, Copy, PartialEq, Eq, Structural)]
pub enum SortDir {
    Asc,
    Desc,
}

/// The family that a sort name belongs to.
pub open spec fn primary_named(name: Seq<char>) -> SortPrimary {
    if name == "None"@ || name == "Default"@ {
        SortPrimary::Unsorted
    } else if name == "Random"@ {
        SortPrimary::Random
    } else if name == "DateCreated"@ || name == "DateAdded"@ {
        SortPrimary::DateCreated
    } else if name == "RuntimeTicks"@ || name == "Runtime"@ {
        SortPrimary::Runtime
    } else if name == "AlbumArtist"@ {
        SortPrimary::AlbumArtist
    } else if name == "Album"@ {
        SortPrimary::Album
    } else if name == "ParentIndexNumber"@ || name == "IndexNumber"@ {
        SortPrimary::TrackOrder
    } else {
        SortPrimary::Name
    }
}

/// The family that a request sorts by: that of the first name in its list, and
/// by name where there is none.
pub open spec fn primary_of(sort_by: Option<Seq<char>>) -> SortPrimary {
    match sort_by {
        Some(s) => if text::csv(s).len() > 0 {
            primary_named(text::csv(s)[0])
        } else {
            SortPrimary::Name
        },
        None => SortPrimary::Name,
    }
}

/// What a list is sorted by first.
pub fn sort_primary(sort_by: Option<&str>) -> (r: SortPrimary)
    ensures
        r == primary_of(opt_str(sort_by)),
{
    match sort_by {
        Some(s) => {
            let entries = csv_entries(s);
            proof {
                assert(text::texts(entries@).len() == entries@.len());
            }
            if entries.len() == 0 {
                return SortPrimary::Name;
            }
            proof {
                assert(text::texts(entries@)[0] == entries@[0]@);
            }
            let t: &str = entries[0].as_str();
            if eq_text(t, "None") || eq_text(t, "Default") {
                SortPrimary::Unsorted
            } else if eq_text(t, "Random") {
                SortPrimary::Random
            } else if eq_text(t, "DateCreated") || eq_text(t, "DateAdded") {
                SortPrimary::DateCreated
            } else if eq_text(t, "RuntimeTicks") || eq_text(t, "Runtime") {
                SortPrimary::Runtime
            } else if eq_text(t, "AlbumArtist") {
                SortPrimary::AlbumArtist
            } else if eq_text(t, "Album") {
                SortPrimary::Album
            } else if eq_text(t, "ParentIndexNumber") || eq_text(t, "IndexNumber") {
                SortPrimary::TrackOrder
            } else {
                SortPrimary::Name
            }
        },
        None => SortPrimary::Name,
    }
}

/// The columns of a family, in order, without the tie-break.
pub open spec fn sort_columns(p: SortPrimary) -> Seq<SortKey> {
    match p {
        SortPrimary::Unsorted | SortPrimary::Random => seq![],
        SortPrimary::DateCreated => seq![SortKey::DateCreated],
        SortPrimary::Runtime => seq![SortKey::Runtime],
        SortPrimary::AlbumArtist => seq![SortKey::AlbumArtist, SortKey::Name],
        SortPrimary::Album => seq![SortKey::Album, SortKey::Name],
        SortPrimary::TrackOrder => seq![
            SortKey::DiscNumber,
            SortKey::TrackNumber,
            SortKey::Name,
        ],
        SortPrimary::Name => seq![SortKey::Name],
    }
}

/// Whether a family runs downward in the store: as the client asks, but for the
/// date, which is newest first unless the client turns it round.
pub open spec fn runs_down(p: SortPrimary, descending: bool) -> bool {
    if p == SortPrimary::DateCreated {
        !descending
    } else {
        descending
    }
}

/// The sort chain: the family's columns all in one direction, and where that
/// is downward the row number downward too, so that the whole list is turned.
pub open spec fn sort_chain(p: SortPrimary, descending: bool) -> Seq<(SortKey, SortDir)> {
    let down = runs_down(p, descending);
    let columns = sort_columns(p);
    if columns.len() == 0 {
        seq![]
    } else if down {
        Seq::new(columns.len(), |i: int| (columns[i], SortDir::Desc)).push(
            (SortKey::Id, SortDir::Desc),
        )
    } else {
        Seq::new(columns.len(), |i: int| (columns[i], SortDir::Asc))
    }
}

/// The sort chain of a family.
pub fn sort_keys(p: SortPrimary, descending: bool) -> (r: Vec<(SortKey, SortDir)>)
    ensures
        r@ == sort_chain(p, descending),
{
    let columns: Vec<SortKey> = match p {
        SortPrimary::Unsorted | SortPrimary::Random => vec![],
        SortPrimary::DateCreated => vec![SortKey::DateCreated],
        SortPrimary::Runtime => vec![SortKey::Runtime],
        SortPrimary::AlbumArtist => vec![SortKey::AlbumArtist, SortKey::Name],
        SortPrimary::Album => vec![SortKey::Album, SortKey::Name],
        SortPrimary::TrackOrder => vec![SortKey::DiscNumber, SortKey::TrackNumber, SortKey::Name],
        SortPrimary::Name => vec![SortKey::Name],
    };
    proof {
        assert(columns@ == sort_columns(p));
    }
    let newest_first: bool = matches!(p, SortPrimary::DateCreated);
    let down: bool = descending != newest_first;
    let dir: SortDir = if down {
        SortDir::Desc
    } else {
        SortDir::Asc
    };
    let mut out: Vec<(SortKey, SortDir)> = Vec::new();
    let mut i: usize = 0;
    while i < columns.len()
        invariant
            i <= columns@.len(),
            out@ == Seq::new(i as nat, |k: int| (columns@[k], dir)),
        decreases columns@.len() - i,
    {
        out.push((columns[i], dir));
        i += 1;
    }
    if down && columns.len() > 0 {
        out.push((SortKey::Id, SortDir::Desc));
    }
    out
}

// ------------------------------------------------------------ the store query

/// What a list is narrowed to by its parent.
#[derive(Debug)]
pub enum ParentFilter {
    Library { wire_id: String },
    Series { folder: Option<String>, name: String },
    Season { folder: Option<String>, name: String, season: u32 },
    Artist { name: String },
    Album { name: String },
    Genre { wire_id: String },
    Person { wire_id: String },
    Studio { wire_id: String },
    Collection { wire_id: String },
    Tag { wire_id: String },
}

/// What a parent id was found to name.
#[derive(Debug)]
pub enum ParentResolution {
    /// No narrowing.
    All,
    Filter(ParentFilter),
    /// The files below a directory.
    PathPrefix(String),
    /// The items whose own genre field holds this name.
    GenreProbe(String),
    /// Nothing that is known.
    Empty,
}

/// The plain filters of a store query.
pub struct MediaFilters {
    pub path_prefix: Option<String>,
    pub genre_probe_token: Option<String>,
    pub exclude_kinds: Vec<MediaKind>,
    pub media_type_kinds: Vec<MediaKind>,
    pub has_subtitles: Option<bool>,
    pub is_4k: Option<bool>,
    pub is_hd: Option<bool>,
    pub is_3d: Option<bool>,
    pub min_width: Option<u32>,
    pub max_width: Option<u32>,
    pub min_index_number: Option<u32>,
    pub max_index_number: Option<u32>,
    pub name_starts_with: Option<String>,
    pub name_less_than: Option<String>,
    pub ids_present: bool,
    /// The ids as the client wrote them.
    pub ids: Vec<String>,
    pub genre_probe_names: Vec<String>,
}

/// What is asked of the user's records.
pub struct UserDataQuery {
    pub user: Option<String>,
    pub is_favorite: Option<bool>,
    pub is_played: Option<bool>,
    pub is_resumable: bool,
    /// Whether no record can meet what is asked.
    pub is_impossible: bool,
}

/// What a user may see by rating.
pub struct ParentalScope {
    /// The ratings, in lower case.
    pub allowed_ratings_lc: Vec<String>,
    pub block_unrated: bool,
}

/// The question to the store.
pub struct MediaQuery {
    pub parent: Option<ParentFilter>,
    pub kinds: Vec<MediaKind>,
    pub search_term: Option<String>,
    /// All of these tags, by name.
    pub tag_names: Vec<String>,
    pub user_data: UserDataQuery,
    pub filters: MediaFilters,
    pub sort: Vec<(SortKey, SortDir)>,
    pub start_index: u64,
    pub limit: Option<u32>,
    /// The libraries to stay in. Empty for all of them.
    pub allowed_library_wire_ids: Vec<String>,
    pub parental: Option<ParentalScope>,
}

pub open spec fn opt_kinds_in(list: Option<Seq<char>>) -> Seq<MediaKind> {
    match list {
        Some(l) => media::kinds_in(l),
        None => Seq::empty(),
    }
}

fn read_opt_kinds(list: &Option<String>) -> (r: Vec<MediaKind>)
    ensures
        r@ == opt_kinds_in(text::opt_text(*list)),
{
    match list {
        Some(l) => read_kinds(l.as_str()),
        None => vec![],
    }
}

/// The kinds behind a list of media types: `Audio` is music, and `Video` is
/// films and episodes.
pub open spec fn media_type_kinds(list: Option<Seq<char>>) -> Seq<MediaKind> {
    let audio: Seq<MediaKind> = if asks_for(list, "Audio"@) {
        seq![MediaKind::Audio]
    } else {
        seq![]
    };
    if asks_for(list, "Video"@) {
        audio.push(MediaKind::Movie).push(MediaKind::Episode)
    } else {
        audio
    }
}

fn str_of(o: &Option<String>) -> (r: Option<&str>)
    ensures
        opt_str(r) == text::opt_text(*o),
{
    match o {
        Some(s) => Some(s.as_str()),
        None => None,
    }
}

fn read_media_types(list: &Option<String>) -> (r: Vec<MediaKind>)
    ensures
        r@ == media_type_kinds(text::opt_text(*list)),
{
    let mut kinds: Vec<MediaKind> = Vec::new();
    if fields_requests(str_of(list), "Audio") {
        kinds.push(MediaKind::Audio);
    }
    if fields_requests(str_of(list), "Video") {
        kinds.push(MediaKind::Movie);
        kinds.push(MediaKind::Episode);
    }
    kinds
}

/// The search term of a query, unless it is blank.
pub open spec fn search_text(term: Option<Seq<char>>) -> Option<Seq<char>> {
    match term {
        Some(t) if text::trim(t).len() > 0 => Some(t),
        _ => None,
    }
}

fn read_search_term(term: &Option<String>) -> (r: Option<String>)
    ensures
        text::opt_text(r) == search_text(text::opt_text(*term)),
{
    match term {
        Some(t) => if trimmed(t.as_str()).as_str().is_empty() {
            None
        } else {
            Some(t.clone())
        },
        None => None,
    }
}

/// Whether the plain filters are those that a request and its parent ask for.
pub open spec fn filters_for(f: MediaFilters, q: ListQuery, parent: ParentResolution) -> bool {
    &&& text::opt_text(f.path_prefix) == (match parent {
        ParentResolution::PathPrefix(p) => Some(p@),
        _ => None,
    })
    &&& text::opt_text(f.genre_probe_token) == (match parent {
        ParentResolution::GenreProbe(t) => Some(t@),
        _ => None,
    })
    &&& f.exclude_kinds@ == opt_kinds_in(text::opt_text(q.exclude_item_types))
    &&& f.media_type_kinds@ == media_type_kinds(text::opt_text(q.media_types))
    &&& f.has_subtitles == q.has_subtitles
    &&& f.is_4k == q.is_4k
    &&& f.is_hd == q.is_hd
    &&& f.is_3d == q.is_3d
    &&& f.min_width == q.min_width
    &&& f.max_width == q.max_width
    &&& f.min_index_number == q.min_index_number
    &&& f.max_index_number == q.max_index_number
    &&& text::opt_text(f.name_starts_with) == (if q.name_starts_with is Some {
        text::opt_text(q.name_starts_with)
    } else {
        text::opt_text(q.name_starts_with_or_greater)
    })
    &&& text::opt_text(f.name_less_than) == text::opt_text(q.name_less_than)
    &&& f.ids_present == (q.ids is Some)
    &&& text::texts(f.ids@) == id_list(text::opt_text(q.ids))
    &&& text::texts(f.genre_probe_names@) == opt_name_list(text::opt_text(q.genres))
}

fn build_filters(q: &ListQuery, path_prefix: Option<String>, genre: Option<String>) -> (f:
    MediaFilters)
    ensures
        forall|parent: ParentResolution|
            #![trigger filters_for(f, *q, parent)]
            text::opt_text(path_prefix) == (match parent {
                ParentResolution::PathPrefix(p) => Some(p@),
                _ => None,
            }) && text::opt_text(genre) == (match parent {
                ParentResolution::GenreProbe(t) => Some(t@),
                _ => None,
            }) ==> filters_for(f, *q, parent),
{
    let name_starts_with = match &q.name_starts_with {
        Some(s) => Some(s.clone()),
        None => copy_opt(&q.name_starts_with_or_greater),
    };
    MediaFilters {
        path_prefix,
        genre_probe_token: genre,
        exclude_kinds: read_opt_kinds(&q.exclude_item_types),
        media_type_kinds: read_media_types(&q.media_types),
        has_subtitles: q.has_subtitles,
        is_4k: q.is_4k,
        is_hd: q.is_hd,
        is_3d: q.is_3d,
        min_width: q.min_width,
        max_width: q.max_width,
        min_index_number: q.min_index_number,
        max_index_number: q.max_index_number,
        name_starts_with,
        name_less_than: copy_opt(&q.name_less_than),
        ids_present: q.ids.is_some(),
        ids: parse_id_csv(str_of(&q.ids)),
        genre_probe_names: split_tag_csv(str_of(&q.genres)),
    }
}

/// Whether the query about the user's records is the one that a filter asks
/// for.
pub open spec fn user_query_for(u: UserDataQuery, f: UserDataFilter, user: Seq<char>) -> bool {
    if f.active() {
        &&& text::opt_text(u.user) == Some(user)
        &&& u.is_favorite == f.is_favorite
        &&& u.is_played == f.is_played
        &&& u.is_resumable == f.is_resumable
        &&& u.is_impossible == f.is_impossible
    } else {
        u.user is None && u.is_favorite is None && u.is_played is None && !u.is_resumable
            && !u.is_impossible
    }
}

/// Whether the parent is a collection, whose own order stands unless the
/// client asks for another.
pub open spec fn keeps_own_order(q: ListQuery, parent: ParentResolution) -> bool {
    q.sort_by is None && (match parent {
        ParentResolution::Filter(ParentFilter::Collection { .. }) => true,
        _ => false,
    })
}

pub open spec fn is_descending(order: Option<Seq<char>>) -> bool {
    order == Some("Descending"@)
}

/// Whether a request wants its list turned round.
pub fn wants_descending(order: &Option<String>) -> (r: bool)
    ensures
        r == is_descending(text::opt_text(*order)),
{
    match order {
        Some(o) => eq_text(o.as_str(), "Descending"),
        None => false,
    }
}

/// Whether a query is the one that a request makes. With `whole` set it is for
/// the unpaged set, without the tags and the user's records.
pub open spec fn query_for(
    mq: MediaQuery,
    user_id: Seq<char>,
    q: ListQuery,
    parent: ParentResolution,
    whole: bool,
) -> bool {
    &&& mq.parent == (match parent {
        ParentResolution::Filter(pf) => Some(pf),
        _ => None,
    })
    &&& mq.kinds@ == opt_kinds_in(text::opt_text(q.include_item_types))
    &&& text::opt_text(mq.search_term) == search_text(text::opt_text(q.search_term))
    &&& text::texts(mq.tag_names@) == (if whole {
        Seq::empty()
    } else {
        opt_name_list(text::opt_text(q.tags))
    })
    &&& user_query_for(
        mq.user_data,
        if whole {
            no_filter()
        } else {
            user_filter(text::opt_text(q.filters), q.is_favorite, q.is_played)
        },
        user_id,
    )
    &&& filters_for(mq.filters, q, parent)
    &&& mq.sort@ == (if keeps_own_order(q, parent) {
        seq![]
    } else {
        sort_chain(
            primary_of(text::opt_text(q.sort_by)),
            is_descending(text::opt_text(q.sort_order)),
        )
    })
    &&& mq.start_index == (if whole {
        0
    } else {
        q.start_index as int
    })
    &&& mq.limit == (if whole {
        None
    } else {
        Some(q.limit)
    })
}

/// The question that a list request puts to the store. Where the whole set is
/// to be shuffled, it is asked for unpaged, and the tags and the user's records
/// are left for after the shuffle.
pub fn build_media_query(
    user_id: &str,
    q: &ListQuery,
    parent: ParentResolution,
    force_unpaged: bool,
) -> (mq: MediaQuery)
    ensures
        query_for(mq, user_id@, *q, parent, force_unpaged),
        mq.allowed_library_wire_ids@.len() == 0,
        mq.parental is None,
{
    let curated: bool = q.sort_by.is_none() && matches!(
        parent,
        ParentResolution::Filter(ParentFilter::Collection { .. })
    );
    let sort: Vec<(SortKey, SortDir)> = if curated {
        vec![]
    } else {
        sort_keys(sort_primary(str_of(&q.sort_by)), wants_descending(&q.sort_order))
    };
    let tag_names: Vec<String> = if force_unpaged {
        split_tag_csv(None)
    } else {
        split_tag_csv(str_of(&q.tags))
    };
    let f: UserDataFilter = if force_unpaged {
        UserDataFilter::nothing()
    } else {
        user_data_filter(q)
    };
    let user: Option<String> = if f.is_active() {
        Some(user_id.to_owned())
    } else {
        None
    };
    let user_data = UserDataQuery {
        user,
        is_favorite: f.is_favorite,
        is_played: f.is_played,
        is_resumable: f.is_resumable,
        is_impossible: f.is_impossible,
    };
    let ghost given = parent;
    let mut pivot: Option<ParentFilter> = None;
    let mut path_prefix: Option<String> = None;
    let mut genre: Option<String> = None;
    match parent {
        ParentResolution::Filter(pf) => {
            pivot = Some(pf);
        },
        ParentResolution::PathPrefix(p) => {
            path_prefix = Some(p);
        },
        ParentResolution::GenreProbe(t) => {
            genre = Some(t);
        },
        ParentResolution::All => {},
        ParentResolution::Empty => {},
    }
    let filters = build_filters(q, path_prefix, genre);
    proof {
        assert(filters_for(filters, *q, given));
    }
    MediaQuery {
        parent: pivot,
        kinds: read_opt_kinds(&q.include_item_types),
        search_term: read_search_term(&q.search_term),
        tag_names,
        user_data,
        filters,
        sort,
        start_index: if force_unpaged {
            0
        } else {
            q.start_index as u64
        },
        limit: if force_unpaged {
            None
        } else {
            Some(q.limit)
        },
        allowed_library_wire_ids: vec![],
        parental: None,
    }
}

// --------------------------------------------------------------------- policy

/// What a user may see.
pub struct UserPolicy {
    pub enable_all_folders: bool,
    pub enabled_folders: Vec<String>,
    pub max_parental_rating: Option<i32>,
    /// The types whose unrated items are blocked. Any entry blocks them all.
    pub block_unrated_items: Vec<String>,
}

/// The library name that no library has.
pub open spec fn no_library() -> Seq<char> {
    "\0__none__"@
}

/// The libraries that a policy keeps a query in. A policy that allows none
/// names one that does not exist, because an empty row allows all.
pub open spec fn allowed_libraries(policy: UserPolicy, before: Seq<Seq<char>>) -> Seq<Seq<char>> {
    if policy.enable_all_folders {
        before
    } else if policy.enabled_folders@.len() == 0 {
        seq![no_library()]
    } else {
        text::texts(policy.enabled_folders@)
    }
}

/// Copies a row of texts.
pub fn copy_texts(v: &Vec<String>) -> (r: Vec<String>)
    ensures
        text::texts(r@) == text::texts(v@),
{
    let mut out: Vec<String> = Vec::new();
    let mut i: usize = 0;
    while i < v.len()
        invariant
            i <= v@.len(),
            text::texts(out@) == text::texts(v@).take(i as int),
        decreases v@.len() - i,
    {
        let ghost before = out@;
        out.push(v[i].clone());
        i += 1;
        proof {
            assert(text::texts(out@) == text::texts(before).push(v@[i - 1]@));
            assert(text::texts(v@).take(i as int) == text::texts(v@).take(i - 1).push(
                text::texts(v@)[i - 1],
            ));
        }
    }
    proof {
        assert(text::texts(v@).take(i as int) == text::texts(v@));
    }
    out
}

/// Narrows a query to what a user's policy permits. `allowed_ratings` are the
/// ratings, in lower case, up to the policy's highest.
pub fn apply_policy_scope(mq: &mut MediaQuery, policy: &UserPolicy, allowed_ratings: &Vec<String>)
    ensures
        text::texts(final(mq).allowed_library_wire_ids@) == allowed_libraries(
            *policy,
            text::texts(old(mq).allowed_library_wire_ids@),
        ),
        policy.max_parental_rating is None ==> final(mq).parental == old(mq).parental,
        policy.max_parental_rating is Some ==> {
            &&& final(mq).parental is Some
            &&& text::texts(final(mq).parental->0.allowed_ratings_lc@) == text::texts(
                allowed_ratings@,
            )
            &&& final(mq).parental->0.block_unrated == (policy.block_unrated_items@.len() > 0)
        },
        final(mq).parent == old(mq).parent,
        final(mq).kinds == old(mq).kinds,
        final(mq).search_term == old(mq).search_term,
        final(mq).tag_names == old(mq).tag_names,
        final(mq).user_data == old(mq).user_data,
        final(mq).filters == old(mq).filters,
        final(mq).sort == old(mq).sort,
        final(mq).start_index == old(mq).start_index,
        final(mq).limit == old(mq).limit,
{
    if !policy.enable_all_folders {
        if policy.enabled_folders.len() == 0 {
            let name: String = "\0__none__".to_owned();
            let only: Vec<String> = vec![name];
            proof {
                assert(text::texts(only@) == seq![no_library()]);
            }
            mq.allowed_library_wire_ids = only;
        } else {
            mq.allowed_library_wire_ids = copy_texts(&policy.enabled_folders);
        }
    }
    if policy.max_parental_rating.is_some() {
        mq.parental = Some(
            ParentalScope {
                allowed_ratings_lc: copy_texts(allowed_ratings),
                block_unrated: policy.block_unrated_items.len() > 0,
            },
        );
    }
}

// -------------------------------------------------------------- the list plan

/// What is done with a list request once its parent is known.
pub enum ListPlan {
    /// The parent names nothing: an empty page, without asking the store.
    Nothing,
    /// The store's answer is the page.
    Page(MediaQuery),
    /// The store's answer is shuffled with this seed, filtered and paged.
    Shuffle(MediaQuery, u64),
}

/// The seed of a shuffled list: the client's, or one from the user's own id, so
/// that the order stays the same from page to page.
pub open spec fn sort_seed(given: Option<u64>, user: Seq<u8>) -> int {
    match given {
        Some(s) => if s % 2 == 0 {
            s + 1
        } else {
            s as int
        },
        None => shuffle::seed_of(Some(user.take(8))),
    }
}

/// The seed that a list is shuffled with.
pub fn effective_sort_seed(given: Option<u64>, user: &[u8; 16]) -> (r: u64)
    ensures
        r == sort_seed(given, user@),
{
    match given {
        Some(s) => if s % 2 == 0 {
            s + 1
        } else {
            s
        },
        None => {
            let head: [u8; 8] = [
                user[0],
                user[1],
                user[2],
                user[3],
                user[4],
                user[5],
                user[6],
                user[7],
            ];
            proof {
                assert(head@ == user@.take(8));
            }
            seed_from(Some(head))
        },
    }
}

/// Whether a query keeps to a policy.
pub open spec fn scoped(mq: MediaQuery, policy: UserPolicy, allowed: Seq<Seq<char>>) -> bool {
    &&& text::texts(mq.allowed_library_wire_ids@) == allowed_libraries(policy, Seq::empty())
    &&& match policy.max_parental_rating {
        None => mq.parental is None,
        Some(_) => {
            &&& mq.parental is Some
            &&& text::texts(mq.parental->0.allowed_ratings_lc@) == allowed
            &&& mq.parental->0.block_unrated == (policy.block_unrated_items@.len() > 0)
        },
    }
}

/// Plans a list request: nothing for a parent that is not known, and else a
/// query that keeps to the policy.
pub fn run_items_list(
    user_id: &str,
    user_bytes: &[u8; 16],
    policy: &UserPolicy,
    allowed_ratings: &Vec<String>,
    q: &ListQuery,
    parent: ParentResolution,
) -> (r: ListPlan)
    ensures
        match r {
            ListPlan::Nothing => parent is Empty,
            ListPlan::Page(mq) => {
                &&& !(parent is Empty)
                &&& primary_of(text::opt_text(q.sort_by)) != SortPrimary::Random
                &&& query_for(mq, user_id@, *q, parent, false)
                &&& scoped(mq, *policy, text::texts(allowed_ratings@))
            },
            ListPlan::Shuffle(mq, seed) => {
                &&& !(parent is Empty)
                &&& primary_of(text::opt_text(q.sort_by)) == SortPrimary::Random
                &&& query_for(mq, user_id@, *q, parent, true)
                &&& scoped(mq, *policy, text::texts(allowed_ratings@))
                &&& seed == sort_seed(q.sort_seed, user_bytes@)
            },
        },
{
    if let ParentResolution::Empty = parent {
        return ListPlan::Nothing;
    }
    let ghost given = parent;
    let random: bool = matches!(sort_primary(str_of(&q.sort_by)), SortPrimary::Random);
    let mut mq = build_media_query(user_id, q, parent, random);
    proof {
        assert(text::texts(mq.allowed_library_wire_ids@) == Seq::<Seq<char>>::empty());
    }
    apply_policy_scope(&mut mq, policy, allowed_ratings);
    proof {
        assert(query_for(mq, user_id@, *q, given, random));
    }
    if random {
        ListPlan::Shuffle(mq, effective_sort_seed(q.sort_seed, user_bytes))
    } else {
        ListPlan::Page(mq)
    }
}

// -------------------------------------------------------------- shuffled lists

/// The order of a shuffled list.
pub open spec fn shuffled_list(ids: Seq<u64>, seed: u64) -> Seq<u64> {
    shuffle::shuffled(ids, ids.len(), if seed % 2 == 0 { (seed + 1) as u64 } else { seed }).0
}

/// Shuffles a list with a seed: the same list and seed give the same order.
pub fn shuffle_in_place(items: &mut Vec<u64>, seed: u64)
    ensures
        final(items)@ == shuffled_list(old(items)@, seed),
{
    let mut state: u64 = if seed % 2 == 0 {
        seed + 1
    } else {
        seed
    };
    xorshift_shuffle(items, &mut state);
}

/// Whether every row holds an id.
pub open spec fn in_every(rows: Seq<Seq<u64>>) -> spec_fn(u64) -> bool {
    |id: u64| forall|i: int| 0 <= i < rows.len() ==> (#[trigger] rows[i]).contains(id)
}

/// The views of rows of ids.
pub open spec fn id_rows(v: Seq<Vec<u64>>) -> Seq<Seq<u64>> {
    Seq::new(v.len(), |i: int| v[i]@)
}

/// Whether a row of ids holds one.
pub fn holds_id(row: &Vec<u64>, id: u64) -> (r: bool)
    ensures
        r == row@.contains(id),
{
    let mut i: usize = 0;
    while i < row.len()
        invariant
            i <= row@.len(),
            forall|k: int| 0 <= k < i ==> #[trigger] row@[k] != id,
        decreases row@.len() - i,
    {
        if row[i] == id {
            return true;
        }
        i += 1;
    }
    false
}

fn every_row_holds(rows: &Vec<Vec<u64>>, id: u64) -> (r: bool)
    ensures
        r == in_every(id_rows(rows@))(id),
{
    let mut i: usize = 0;
    while i < rows.len()
        invariant
            i <= rows@.len(),
            forall|k: int| 0 <= k < i ==> (#[trigger] id_rows(rows@)[k]).contains(id),
        decreases rows@.len() - i,
    {
        proof {
            assert(id_rows(rows@)[i as int] == rows@[i as int]@);
        }
        if !holds_id(&rows[i], id) {
            return false;
        }
        i += 1;
    }
    true
}

/// The items that carry every wanted tag. `tagged` has a row for each wanted
/// tag: the items that carry it. Without a wanted tag all items stay.
pub fn apply_tags_filter(items: &Vec<u64>, tagged: &Vec<Vec<u64>>) -> (r: Vec<u64>)
    ensures
        r@ == seqs::keep(items@, in_every(id_rows(tagged@))),
{
    let mut out: Vec<u64> = Vec::new();
    let mut i: usize = 0;
    proof {
        assert(items@.take(0) == Seq::<u64>::empty());
    }
    while i < items.len()
        invariant
            i <= items@.len(),
            out@ == seqs::keep(items@.take(i as int), in_every(id_rows(tagged@))),
        decreases items@.len() - i,
    {
        proof {
            seqs::lemma_keep_step(items@, in_every(id_rows(tagged@)), i as int);
        }
        if every_row_holds(tagged, items[i]) {
            out.push(items[i]);
        }
        i += 1;
    }
    proof {
        assert(items@.take(i as int) == items@);
    }
    out
}

/// The record at a place, and an untouched one where there is none.
pub open spec fn record_at(data: Seq<UserItemData>, i: int) -> UserItemData {
    if i < data.len() {
        data[i]
    } else {
        sessions::untouched()
    }
}

/// The items among the first `n` whose record passes, in order.
pub open spec fn passing(
    items: Seq<u64>,
    data: Seq<UserItemData>,
    f: UserDataFilter,
    n: int,
) -> Seq<u64>
    decreases n,
{
    if n <= 0 {
        Seq::empty()
    } else if f.passes(record_at(data, n - 1)) {
        passing(items, data, f, n - 1).push(items[n - 1])
    } else {
        passing(items, data, f, n - 1)
    }
}

/// The items whose record passes a filter. `data` are the user's records of
/// the items, in their order.
pub fn apply_userdata_filter(
    items: &Vec<u64>,
    data: &Vec<UserItemData>,
    f: UserDataFilter,
) -> (r: Vec<u64>)
    ensures
        !f.active() ==> r@ == items@,
        r@ == passing(items@, data@, f, items@.len() as int),
{
    let mut out: Vec<u64> = Vec::new();
    let mut i: usize = 0;
    while i < items.len()
        invariant
            i <= items@.len(),
            out@ == passing(items@, data@, f, i as int),
            !f.active() ==> out@ == items@.take(i as int),
        decreases items@.len() - i,
    {
        let d: UserItemData = if i < data.len() {
            data[i]
        } else {
            UserItemData::default()
        };
        if f.matches(d) {
            out.push(items[i]);
        }
        i += 1;
        proof {
            assert(items@.take(i as int) == items@.take(i - 1).push(items@[i - 1]));
        }
    }
    proof {
        assert(items@.take(i as int) == items@);
    }
    out
}

/// The items of a shuffled list that carry every wanted tag. The list is
/// shuffled first: a tag takes items out of the order and does not change it.
pub fn shuffled_candidates(items: Vec<u64>, seed: u64, tagged: &Vec<Vec<u64>>) -> (r: Vec<u64>)
    ensures
        r@ == seqs::keep(shuffled_list(items@, seed), in_every(id_rows(tagged@))),
{
    let mut order: Vec<u64> = items;
    shuffle_in_place(&mut order, seed);
    apply_tags_filter(&order, tagged)
}

/// The rows of a shuffled list that the request's filter lets pass.
pub open spec fn shuffled_rows(
    candidates: Seq<u64>,
    data: Seq<UserItemData>,
    q: ListQuery,
) -> Seq<u64> {
    passing(
        candidates,
        data,
        user_filter(text::opt_text(q.filters), q.is_favorite, q.is_played),
        candidates.len() as int,
    )
}

/// A page of a shuffled list. `data` are the user's records of the candidates,
/// in their order. The total is that of all rows that pass, in as many bits as
/// it is sent in.
pub fn shuffled_page(candidates: &Vec<u64>, data: &Vec<UserItemData>, q: &ListQuery) -> (r:
    QueryResult<u64>)
    ensures
        r.items@ == seqs::page(
            shuffled_rows(candidates@, data@, *q),
            q.start_index as int,
            q.limit as int,
        ),
        r.total_record_count == shuffled_rows(candidates@, data@, *q).len() as u32,
        r.start_index == q.start_index,
{
    let rows = apply_userdata_filter(candidates, data, user_data_filter(q));
    let total: u32 = #[verifier::truncate]
    (rows.len() as u32);
    query_result(cut_page(&rows, q.start_index, q.limit), total, q.start_index)
}

// ----------------------------------------------------------------------- laws

/// Turning a list round turns every column and the tie-break with it, so that
/// the list is exactly reversed: no column runs against another.
pub proof fn law_a_chain_runs_one_way(p: SortPrimary, descending: bool)
    ensures
        forall|i: int|
            0 <= i < sort_chain(p, descending).len() ==> (#[trigger] sort_chain(p, descending)[i]).1
                == (if runs_down(p, descending) {
                SortDir::Desc
            } else {
                SortDir::Asc
            }),
        sort_chain(p, descending).len() > 0 && runs_down(p, descending) ==> sort_chain(
            p,
            descending,
        ).last().0 == SortKey::Id,
        runs_down(p, descending) != runs_down(p, !descending),
{
}

/// A user without restrictions sees what the request asks for: the policy
/// changes nothing.
pub proof fn law_an_open_policy_changes_nothing(policy: UserPolicy, before: Seq<Seq<char>>)
    requires
        policy.enable_all_folders,
    ensures
        allowed_libraries(policy, before) == before,
{
}

/// A user who may see some libraries only is never asked about all of them: the
/// row of libraries is not empty.
pub proof fn law_a_closed_policy_names_a_library(policy: UserPolicy, before: Seq<Seq<char>>)
    requires
        !policy.enable_all_folders,
    ensures
        allowed_libraries(policy, before).len() > 0,
{
}

/// A shuffled list is the list itself in another order: a client that keeps its
/// seed and goes from page to page sees every item once.
pub proof fn law_a_shuffled_list_keeps_its_items(ids: Seq<u64>, seed: u64)
    ensures
        shuffled_list(ids, seed).to_multiset() == ids.to_multiset(),
{
    shuffle::law_shuffle_is_a_permutation(
        ids,
        ids.len(),
        if seed % 2 == 0 {
            (seed + 1) as u64
        } else {
            seed
        },
    );
}

/// A favourite cannot pass a filter that asks for what is not a favourite, nor
/// a played item one that asks for what can be resumed. A filter that asks
/// nothing lets everything pass.
pub proof fn law_filters_exclude(f: UserDataFilter, d: UserItemData)
    ensures
        f.is_favorite == Some(false) && d.is_favorite ==> !f.passes(d),
        f.is_resumable && d.played ==> !f.passes(d),
        !f.active() ==> f.passes(d),
{
}

proof fn lemma_keep_no_duplicates(s: Seq<u64>, wanted: spec_fn(u64) -> bool)
    requires
        s.no_duplicates(),
    ensures
        seqs::keep(s, wanted).no_duplicates(),
    decreases s.len(),
{
    if s.len() > 0 {
        let front = s.drop_last();
        assert(front.no_duplicates());
        lemma_keep_no_duplicates(front, wanted);
        seqs::lemma_keep_members(front, wanted);
        assert(!front.contains(s.last()));
        assert(!seqs::keep(front, wanted).contains(s.last()));
    }
}

proof fn lemma_passing_no_duplicates(
    items: Seq<u64>,
    data: Seq<UserItemData>,
    f: UserDataFilter,
    n: int,
)
    requires
        items.no_duplicates(),
        0 <= n <= items.len(),
    ensures
        passing(items, data, f, n).no_duplicates(),
        forall|x: u64| #[trigger]
            passing(items, data, f, n).contains(x) ==> items.take(n).contains(x),
    decreases n,
{
    if n > 0 {
        lemma_passing_no_duplicates(items, data, f, n - 1);
        let before = passing(items, data, f, n - 1);
        let x = items[n - 1];
        assert(items.take(n) =~= items.take(n - 1).push(x));
        assert(!items.take(n - 1).contains(x));
        assert(!before.contains(x));
        assert forall|y: u64| #[trigger] passing(items, data, f, n).contains(y) implies items.take(
            n,
        ).contains(y) by {
            if y == x {
                assert(items.take(n)[n - 1] == y);
            } else {
                let w = choose|w: int|
                    0 <= w < passing(items, data, f, n).len() && passing(items, data, f, n)[w]
                        == y;
                assert(before[w] == y);
                assert(before.contains(y));
                let earlier = items.take(n - 1);
                let k = choose|k: int| 0 <= k < earlier.len() && earlier[k] == y;
                assert(items.take(n)[k] == y);
            }
        }
    } else {
        assert(items.take(0) =~= Seq::<u64>::empty());
    }
}

/// A shuffled list shows no item twice, on whatever pages: the order that a seed
/// gives stays the same from page to page, and no filter repeats an item.
pub proof fn law_a_shuffled_list_repeats_nothing(
    ids: Seq<u64>,
    seed: u64,
    tagged: Seq<Seq<u64>>,
    data: Seq<UserItemData>,
    q: ListQuery,
)
    requires
        ids.no_duplicates(),
    ensures
        shuffled_rows(
            seqs::keep(shuffled_list(ids, seed), in_every(tagged)),
            data,
            q,
        ).no_duplicates(),
{
    let state = if seed % 2 == 0 {
        (seed + 1) as u64
    } else {
        seed
    };
    shuffle::law_shuffle_is_a_permutation(ids, ids.len(), state);
    let order = shuffled_list(ids, seed);
    ids.lemma_multiset_has_no_duplicates();
    order.lemma_multiset_has_no_duplicates_conv();
    let kept = seqs::keep(order, in_every(tagged));
    lemma_keep_no_duplicates(order, in_every(tagged));
    lemma_passing_no_duplicates(
        kept,
        data,
        user_filter(text::opt_text(q.filters), q.is_favorite, q.is_played),
        kept.len() as int,
    );
}

// ------------------------------------------------------- laws of list requests

/// A list is sorted by what its sort order is named after, then by name where
/// that leaves rows alike, and turned round as a whole, down to the row number.
/// The newest come first unless the list is turned round.
pub proof fn law_lists_are_sorted_by_what_is_named()
    ensures
        sort_chain(SortPrimary::Name, false) == seq![(SortKey::Name, SortDir::Asc)],
        sort_chain(SortPrimary::Name, true) == seq![
            (SortKey::Name, SortDir::Desc),
            (SortKey::Id, SortDir::Desc),
        ],
        sort_chain(SortPrimary::DateCreated, false) == seq![
            (SortKey::DateCreated, SortDir::Desc),
            (SortKey::Id, SortDir::Desc),
        ],
        sort_chain(SortPrimary::DateCreated, true) == seq![(SortKey::DateCreated, SortDir::Asc)],
        sort_chain(SortPrimary::Runtime, false) == seq![(SortKey::Runtime, SortDir::Asc)],
        sort_chain(SortPrimary::Runtime, true) == seq![
            (SortKey::Runtime, SortDir::Desc),
            (SortKey::Id, SortDir::Desc),
        ],
        sort_chain(SortPrimary::AlbumArtist, false) == seq![
            (SortKey::AlbumArtist, SortDir::Asc),
            (SortKey::Name, SortDir::Asc),
        ],
        sort_chain(SortPrimary::AlbumArtist, true) == seq![
            (SortKey::AlbumArtist, SortDir::Desc),
            (SortKey::Name, SortDir::Desc),
            (SortKey::Id, SortDir::Desc),
        ],
        sort_chain(SortPrimary::Album, false) == seq![
            (SortKey::Album, SortDir::Asc),
            (SortKey::Name, SortDir::Asc),
        ],
        sort_chain(SortPrimary::Album, true) == seq![
            (SortKey::Album, SortDir::Desc),
            (SortKey::Name, SortDir::Desc),
            (SortKey::Id, SortDir::Desc),
        ],
        sort_chain(SortPrimary::TrackOrder, false) == seq![
            (SortKey::DiscNumber, SortDir::Asc),
            (SortKey::TrackNumber, SortDir::Asc),
            (SortKey::Name, SortDir::Asc),
        ],
        sort_chain(SortPrimary::TrackOrder, true) == seq![
            (SortKey::DiscNumber, SortDir::Desc),
            (SortKey::TrackNumber, SortDir::Desc),
            (SortKey::Name, SortDir::Desc),
            (SortKey::Id, SortDir::Desc),
        ],
        forall|d: bool| (#[trigger] sort_chain(SortPrimary::Unsorted, d)).len() == 0,
        forall|d: bool| (#[trigger] sort_chain(SortPrimary::Random, d)).len() == 0,
{
    assert(sort_chain(SortPrimary::Name, false) =~= seq![(SortKey::Name, SortDir::Asc)]);
    assert(sort_chain(SortPrimary::Name, true) =~= seq![
        (SortKey::Name, SortDir::Desc),
        (SortKey::Id, SortDir::Desc),
    ]);
    assert(sort_chain(SortPrimary::DateCreated, false) =~= seq![
        (SortKey::DateCreated, SortDir::Desc),
        (SortKey::Id, SortDir::Desc),
    ]);
    assert(sort_chain(SortPrimary::DateCreated, true) =~= seq![
        (SortKey::DateCreated, SortDir::Asc),
    ]);
    assert(sort_chain(SortPrimary::Runtime, false) =~= seq![(SortKey::Runtime, SortDir::Asc)]);
    assert(sort_chain(SortPrimary::Runtime, true) =~= seq![
        (SortKey::Runtime, SortDir::Desc),
        (SortKey::Id, SortDir::Desc),
    ]);
    assert(sort_chain(SortPrimary::AlbumArtist, false) =~= seq![
        (SortKey::AlbumArtist, SortDir::Asc),
        (SortKey::Name, SortDir::Asc),
    ]);
    assert(sort_chain(SortPrimary::AlbumArtist, true) =~= seq![
        (SortKey::AlbumArtist, SortDir::Desc),
        (SortKey::Name, SortDir::Desc),
        (SortKey::Id, SortDir::Desc),
    ]);
    assert(sort_chain(SortPrimary::Album, false) =~= seq![
        (SortKey::Album, SortDir::Asc),
        (SortKey::Name, SortDir::Asc),
    ]);
    assert(sort_chain(SortPrimary::Album, true) =~= seq![
        (SortKey::Album, SortDir::Desc),
        (SortKey::Name, SortDir::Desc),
        (SortKey::Id, SortDir::Desc),
    ]);
    assert(sort_chain(SortPrimary::TrackOrder, false) =~= seq![
        (SortKey::DiscNumber, SortDir::Asc),
        (SortKey::TrackNumber, SortDir::Asc),
        (SortKey::Name, SortDir::Asc),
    ]);
    assert(sort_chain(SortPrimary::TrackOrder, true) =~= seq![
        (SortKey::DiscNumber, SortDir::Desc),
        (SortKey::TrackNumber, SortDir::Desc),
        (SortKey::Name, SortDir::Desc),
        (SortKey::Id, SortDir::Desc),
    ]);
}

proof fn lemma_sort_names()
    ensures
        primary_named("None"@) == SortPrimary::Unsorted,
        primary_named("Default"@) == SortPrimary::Unsorted,
        primary_named("Random"@) == SortPrimary::Random,
        primary_named("DateCreated"@) == SortPrimary::DateCreated,
        primary_named("DateAdded"@) == SortPrimary::DateCreated,
        primary_named("Runtime"@) == SortPrimary::Runtime,
        primary_named("RuntimeTicks"@) == SortPrimary::Runtime,
        primary_named("AlbumArtist"@) == SortPrimary::AlbumArtist,
        primary_named("Album"@) == SortPrimary::Album,
        primary_named("ParentIndexNumber"@) == SortPrimary::TrackOrder,
        primary_named("IndexNumber"@) == SortPrimary::TrackOrder,
        primary_named("SortName"@) == SortPrimary::Name,
{
    reveal_strlit("None");
    reveal_strlit("Default");
    reveal_strlit("Random");
    reveal_strlit("DateCreated");
    reveal_strlit("DateAdded");
    reveal_strlit("Runtime");
    reveal_strlit("RuntimeTicks");
    reveal_strlit("AlbumArtist");
    reveal_strlit("Album");
    reveal_strlit("ParentIndexNumber");
    reveal_strlit("IndexNumber");
    reveal_strlit("SortName");
    assert("None"@[0] == 'N' && "None"@.len() == 4);
    assert("Default"@[1] == 'e' && "Default"@.len() == 7);
    assert("Random"@[0] == 'R' && "Random"@.len() == 6);
    assert("DateCreated"@[0] == 'D' && "DateCreated"@.len() == 11);
    assert("DateAdded"@[0] == 'D' && "DateAdded"@.len() == 9);
    assert("Runtime"@[0] == 'R' && "Runtime"@.len() == 7);
    assert("Default"@[0] == 'D');
    assert("RuntimeTicks"@.len() == 12);
    assert("AlbumArtist"@[0] == 'A' && "AlbumArtist"@.len() == 11);
    assert("Album"@.len() == 5);
    assert("ParentIndexNumber"@.len() == 17);
    assert("IndexNumber"@[0] == 'I' && "IndexNumber"@.len() == 11);
    assert("SortName"@.len() == 8);
}

/// A request that names a sort order gets it: the first name in its list
/// decides, and `Descending` turns the list round.
pub proof fn law_requests_are_sorted_as_they_ask(
    mq: MediaQuery,
    user_id: Seq<char>,
    q: ListQuery,
    parent: ParentResolution,
    whole: bool,
    first: Seq<char>,
)
    requires
        query_for(mq, user_id, q, parent, whole),
        q.sort_by is Some,
        text::csv(q.sort_by->0@).len() > 0,
        first == text::csv(q.sort_by->0@)[0],
    ensures
        first == "SortName"@ ==> mq.sort@.len() > 0 && mq.sort@[0].0 == SortKey::Name,
        first == "Runtime"@ || first == "RuntimeTicks"@ ==> mq.sort@.len() > 0 && mq.sort@[0].0
            == SortKey::Runtime,
        first == "DateCreated"@ || first == "DateAdded"@ ==> mq.sort@.len() > 0 && mq.sort@[0].0
            == SortKey::DateCreated && mq.sort@[0].1 == (if q.sort_order is Some
            && q.sort_order->0@ == "Descending"@ {
            SortDir::Asc
        } else {
            SortDir::Desc
        }),
        first == "AlbumArtist"@ ==> mq.sort@.len() > 1 && mq.sort@[0].0 == SortKey::AlbumArtist
            && mq.sort@[1].0 == SortKey::Name,
        first == "Album"@ ==> mq.sort@.len() > 1 && mq.sort@[0].0 == SortKey::Album && mq.sort@[1].0
            == SortKey::Name,
        first == "ParentIndexNumber"@ || first == "IndexNumber"@ ==> mq.sort@.len() > 2
            && mq.sort@[0].0 == SortKey::DiscNumber && mq.sort@[1].0 == SortKey::TrackNumber
            && mq.sort@[2].0 == SortKey::Name,
        first == "None"@ || first == "Default"@ || first == "Random"@ ==> mq.sort@.len() == 0,
        first != "DateCreated"@ && first != "DateAdded"@ ==> forall|i: int|
            0 <= i < mq.sort@.len() ==> (#[trigger] mq.sort@[i]).1 == (if q.sort_order is Some
                && q.sort_order->0@ == "Descending"@ {
                SortDir::Desc
            } else {
                SortDir::Asc
            }),
{
    law_lists_are_sorted_by_what_is_named();
    lemma_sort_names();
}

/// A request without a sort order is sorted by name, but for a collection, which
/// keeps its own order.
pub proof fn law_lists_are_sorted_by_name_by_default(
    mq: MediaQuery,
    user_id: Seq<char>,
    q: ListQuery,
    parent: ParentResolution,
    whole: bool,
)
    requires
        query_for(mq, user_id, q, parent, whole),
        q.sort_by is None,
        q.sort_order is None,
    ensures
        parent matches ParentResolution::Filter(ParentFilter::Collection { .. }) ==> mq.sort@.len()
            == 0,
        !(parent is Filter) ==> mq.sort@ == seq![(SortKey::Name, SortDir::Asc)],
        parent matches ParentResolution::Filter(pf) ==> pf is Collection || mq.sort@ == seq![
            (SortKey::Name, SortDir::Asc),
        ],
{
    law_lists_are_sorted_by_what_is_named();
}

/// A request becomes the query that asks for what it asks: its page, its parent
/// and each of its limits as the client gave them.
pub proof fn law_a_query_asks_for_what_is_requested(
    mq: MediaQuery,
    user_id: Seq<char>,
    q: ListQuery,
    parent: ParentResolution,
)
    requires
        query_for(mq, user_id, q, parent, false),
    ensures
        mq.start_index == q.start_index,
        mq.limit == Some(q.limit),
        parent matches ParentResolution::Filter(pf) ==> mq.parent == Some(pf),
        parent is All ==> mq.parent is None && mq.filters.path_prefix is None
            && mq.filters.genre_probe_token is None,
        parent matches ParentResolution::PathPrefix(p) ==> mq.filters.path_prefix is Some
            && mq.filters.path_prefix->0@ == p@ && mq.parent is None,
        parent matches ParentResolution::GenreProbe(g) ==> mq.filters.genre_probe_token is Some
            && mq.filters.genre_probe_token->0@ == g@ && mq.parent is None,
        q.search_term is Some && text::trim(q.search_term->0@).len() > 0 ==> mq.search_term is Some
            && mq.search_term->0@ == q.search_term->0@,
        q.search_term is None || text::trim(q.search_term->0@).len() == 0 ==> mq.search_term is None,
        q.include_item_types is None ==> mq.kinds@.len() == 0,
        q.include_item_types is Some ==> mq.kinds@ == media::kinds_in(q.include_item_types->0@),
        q.exclude_item_types is None ==> mq.filters.exclude_kinds@.len() == 0,
        q.exclude_item_types is Some ==> mq.filters.exclude_kinds@ == media::kinds_in(
            q.exclude_item_types->0@,
        ),
        q.tags is Some ==> text::texts(mq.tag_names@) == name_list(q.tags->0@),
        q.tags is None ==> mq.tag_names@.len() == 0,
        q.genres is Some ==> text::texts(mq.filters.genre_probe_names@) == name_list(q.genres->0@),
        q.genres is None ==> mq.filters.genre_probe_names@.len() == 0,
        mq.filters.has_subtitles == q.has_subtitles,
        mq.filters.is_4k == q.is_4k && mq.filters.is_hd == q.is_hd && mq.filters.is_3d == q.is_3d,
        mq.filters.min_width == q.min_width && mq.filters.max_width == q.max_width,
        mq.filters.min_index_number == q.min_index_number,
        mq.filters.max_index_number == q.max_index_number,
        q.name_starts_with is Some ==> mq.filters.name_starts_with is Some
            && mq.filters.name_starts_with->0@ == q.name_starts_with->0@,
        q.name_starts_with is None && q.name_starts_with_or_greater is Some
            ==> mq.filters.name_starts_with is Some && mq.filters.name_starts_with->0@
            == q.name_starts_with_or_greater->0@,
        q.name_starts_with is None && q.name_starts_with_or_greater is None
            ==> mq.filters.name_starts_with is None,
        q.name_less_than is Some <==> mq.filters.name_less_than is Some,
        q.name_less_than is Some ==> mq.filters.name_less_than->0@ == q.name_less_than->0@,
        mq.filters.ids_present <==> q.ids is Some,
{
    assert(q.tags is None ==> text::texts(mq.tag_names@).len() == mq.tag_names@.len());
    assert(q.genres is None ==> text::texts(mq.filters.genre_probe_names@).len()
        == mq.filters.genre_probe_names@.len());
}

/// Whether a record has what is asked of the user's records.
pub open spec fn record_meets(u: UserDataQuery, d: UserItemData) -> bool {
    &&& !u.is_impossible
    &&& u.is_favorite is None || u.is_favorite == Some(d.is_favorite)
    &&& u.is_played is None || u.is_played == Some(d.played)
    &&& u.is_resumable ==> !d.played && d.last_played_position_ticks > 0
}

/// What is asked of the user's records is what the request asks: a record meets
/// it exactly where it has all that the tokens name and is as each switch says.
/// The records that are asked about are those of the user who asks.
pub proof fn law_a_query_asks_about_the_users_records(
    mq: MediaQuery,
    user_id: Seq<char>,
    q: ListQuery,
    parent: ParentResolution,
    d: UserItemData,
)
    requires
        query_for(mq, user_id, q, parent, false),
    ensures
        record_meets(mq.user_data, d) <==> {
            &&& q.is_favorite is Some ==> d.is_favorite == q.is_favorite->0
            &&& q.is_played is Some ==> d.played == q.is_played->0
            &&& q.filters is Some ==> forall|i: int|
                0 <= i < text::split(q.filters->0@, ',').len() ==> {
                    let t = text::trim(#[trigger] text::split(q.filters->0@, ',')[i]);
                    &&& t == "IsFavorite"@ ==> d.is_favorite
                    &&& t == "IsNotFavorite"@ ==> !d.is_favorite
                    &&& t == "IsPlayed"@ ==> d.played
                    &&& t == "IsUnplayed"@ ==> !d.played
                    &&& t == "IsResumable"@ ==> !d.played && d.last_played_position_ticks > 0
                }
        },
        q.is_favorite is Some || q.is_played is Some ==> mq.user_data.user is Some
            && mq.user_data.user->0@ == user_id,
{
    let f = user_filter(text::opt_text(q.filters), q.is_favorite, q.is_played);
    assert(record_meets(mq.user_data, d) <==> f.passes(d));
    if q.filters is Some {
        law_switches_ask_as_tokens_do(q.filters->0@, q.is_favorite, q.is_played, d);
        let all = text::split(q.filters->0@, ',');
        if all_tokens_hold(all, d) {
            assert forall|i: int| 0 <= i < all.len() implies {
                let t = text::trim(#[trigger] all[i]);
                &&& t == "IsFavorite"@ ==> d.is_favorite
                &&& t == "IsNotFavorite"@ ==> !d.is_favorite
                &&& t == "IsPlayed"@ ==> d.played
                &&& t == "IsUnplayed"@ ==> !d.played
                &&& t == "IsResumable"@ ==> !d.played && d.last_played_position_ticks > 0
            } by {
                assert(token_holds(text::trim(all[i]), d));
            }
        } else {
            let i = choose|i: int|
                0 <= i < all.len() && !token_holds(text::trim(#[trigger] all[i]), d);
            let t = text::trim(all[i]);
        }
    }
}

/// The media types stand for kinds: music for `Audio`, films and episodes for
/// `Video`, whatever else is in the list.
pub proof fn law_media_types_stand_for_kinds(
    mq: MediaQuery,
    user_id: Seq<char>,
    q: ListQuery,
    parent: ParentResolution,
    whole: bool,
)
    requires
        query_for(mq, user_id, q, parent, whole),
    ensures
        q.media_types is None ==> mq.filters.media_type_kinds@.len() == 0,
        q.media_types is Some ==> {
            let listed = text::split(q.media_types->0@, ',');
            &&& mq.filters.media_type_kinds@.contains(MediaKind::Audio) <==> exists|i: int|
                0 <= i < listed.len() && text::lower(text::trim(#[trigger] listed[i])) == "audio"@
            &&& mq.filters.media_type_kinds@.contains(MediaKind::Movie) <==> exists|i: int|
                0 <= i < listed.len() && text::lower(text::trim(#[trigger] listed[i])) == "video"@
            &&& mq.filters.media_type_kinds@.contains(MediaKind::Episode) <==> exists|i: int|
                0 <= i < listed.len() && text::lower(text::trim(#[trigger] listed[i])) == "video"@
        },
{
    reveal_strlit("Audio");
    reveal_strlit("audio");
    reveal_strlit("Video");
    reveal_strlit("video");
    assert(text::lower("Audio"@) =~= "audio"@);
    assert(text::lower("Video"@) =~= "video"@);
    if q.media_types is Some {
        let list = text::opt_text(q.media_types);
        let kinds = media_type_kinds(list);
        let listed = text::split(q.media_types->0@, ',');
        if asks_for(list, "Audio"@) {
            assert(kinds[0] == MediaKind::Audio);
        }
        if asks_for(list, "Video"@) {
            assert(kinds[kinds.len() - 2] == MediaKind::Movie);
            assert(kinds[kinds.len() - 1] == MediaKind::Episode);
        }
        assert(asks_for(list, "Audio"@) <==> exists|i: int|
            0 <= i < listed.len() && text::lower(text::trim(#[trigger] listed[i])) == "audio"@);
        assert(asks_for(list, "Video"@) <==> exists|i: int|
            0 <= i < listed.len() && text::lower(text::trim(#[trigger] listed[i])) == "video"@);
    }
}

/// Names in a list stand between commas or bars, and blank ones do not count.
pub proof fn law_name_lists_join(a: Seq<char>, b: Seq<char>)
    ensures
        name_list(a.push(',') + b) == name_list(a) + name_list(b),
        name_list(a.push('|') + b) == name_list(a) + name_list(b),
        !a.contains(',') && !a.contains('|') && text::trim(a).len() > 0 ==> name_list(a) == seq![
            text::trim(a),
        ],
{
    text::law_lists_join_at_the_comma(bars_to_commas(a), bars_to_commas(b));
    assert(bars_to_commas(a.push(',') + b) =~= bars_to_commas(a).push(',') + bars_to_commas(b));
    assert(bars_to_commas(a.push('|') + b) =~= bars_to_commas(a).push(',') + bars_to_commas(b));
    if !a.contains(',') && !a.contains('|') {
        assert(bars_to_commas(a) =~= a) by {
            assert forall|i: int| 0 <= i < a.len() implies bars_to_commas(a)[i] == a[i] by {
                assert(a.contains(a[i]));
            }
        }
    }
}

proof fn lemma_asks_for(list: Seq<char>, name: Seq<char>, i: int)
    requires
        0 <= i < text::split(list, ',').len(),
        text::eq_ci(text::trim(text::split(list, ',')[i]), name),
    ensures
        asks_for(Some(list), name),
{
    let fields = Some(list);
    match fields {
        Some(f) => {
            assert(text::eq_ci(text::trim(text::split(f, ',')[i]), name));
        },
        None => {},
    }
}

/// A list names a field where one of its entries does, in any case.
pub proof fn law_fields_are_named(a: Seq<char>, b: Seq<char>, name: Seq<char>)
    ensures
        asks_for(Some(a.push(',') + b), name) <==> asks_for(Some(a), name) || asks_for(
            Some(b),
            name,
        ),
        !a.contains(',') ==> (asks_for(Some(a), name) <==> text::lower(text::trim(a))
            == text::lower(name)),
        !asks_for(None, name),
{
    let both = a.push(',') + b;
    let x = text::split(a, ',');
    let y = text::split(b, ',');
    let z = text::split(both, ',');
    text::law_texts_split_at_the_mark(a, ',', b);
    if asks_for(Some(a), name) {
        let i = choose|i: int|
            0 <= i < text::split(a, ',').len() && text::eq_ci(
                text::trim(#[trigger] text::split(a, ',')[i]),
                name,
            );
        assert(z[i] == x[i]);
        assert(0 <= i < text::split(both, ',').len());
        assert(text::eq_ci(text::trim(text::split(both, ',')[i]), name));
        lemma_asks_for(both, name, i);
    }
    if asks_for(Some(b), name) {
        let i = choose|i: int|
            0 <= i < text::split(b, ',').len() && text::eq_ci(
                text::trim(#[trigger] text::split(b, ',')[i]),
                name,
            );
        let k = x.len() + i;
        assert(z[k] == y[i]);
        assert(0 <= k < text::split(both, ',').len());
        assert(text::eq_ci(text::trim(text::split(both, ',')[k]), name));
        lemma_asks_for(both, name, k);
    }
    if asks_for(Some(both), name) {
        let i = choose|i: int|
            0 <= i < text::split(both, ',').len() && text::eq_ci(
                text::trim(#[trigger] text::split(both, ',')[i]),
                name,
            );
        if i < x.len() {
            assert(z[i] == x[i]);
            assert(text::eq_ci(text::trim(text::split(a, ',')[i]), name));
            lemma_asks_for(a, name, i);
        } else {
            let k = i - x.len();
            assert(z[i] == y[k]);
            assert(text::eq_ci(text::trim(text::split(b, ',')[k]), name));
            lemma_asks_for(b, name, k);
        }
    }
    if !a.contains(',') {
        assert(x == seq![a]);
        assert(text::split(a, ',')[0] == a);
        if text::eq_ci(text::trim(a), name) {
            assert(text::eq_ci(text::trim(text::split(a, ',')[0]), name));
            lemma_asks_for(a, name, 0);
        }
    }
}

/// A list is of one type alone where every entry that is not blank names it, and
/// there is one.
pub proof fn law_lists_of_one_type(a: Seq<char>, b: Seq<char>, name: Seq<char>)
    ensures
        !a.contains(',') ==> (only_type(Some(a), name) <==> text::trim(a).len() > 0 && text::lower(
            text::trim(a),
        ) == text::lower(name)),
        only_type(Some(a), name) && only_type(Some(b), name) ==> only_type(
            Some(a.push(',') + b),
            name,
        ),
        only_type(Some(a.push(',') + b), name) ==> (only_type(Some(a), name) || text::csv(a).len()
            == 0) && (only_type(Some(b), name) || text::csv(b).len() == 0),
        !only_type(None, name),
{
    text::law_lists_join_at_the_comma(a, b);
    let x = text::csv(a);
    let y = text::csv(b);
    let z = text::csv(a.push(',') + b);
    assert forall|i: int| 0 <= i < x.len() implies #[trigger] x[i] == z[i] by {}
    assert forall|i: int| 0 <= i < y.len() implies #[trigger] y[i] == z[x.len() + i] by {}
    if only_type(Some(a), name) && only_type(Some(b), name) {
        assert forall|i: int| 0 <= i < z.len() implies text::eq_ci(#[trigger] z[i], name) by {
            if i < x.len() {
                assert(text::eq_ci(x[i], name));
            } else {
                assert(text::eq_ci(y[i - x.len()], name));
            }
        }
    }
    if only_type(Some(a.push(',') + b), name) {
        assert forall|i: int| 0 <= i < x.len() implies text::eq_ci(#[trigger] x[i], name) by {
            assert(text::eq_ci(z[i], name));
        }
        assert forall|i: int| 0 <= i < y.len() implies text::eq_ci(#[trigger] y[i], name) by {
            assert(text::eq_ci(z[x.len() + i], name));
        }
    }
    if !a.contains(',') && text::trim(a).len() > 0 {
        assert(x == seq![text::trim(a)]);
        assert(x[0] == text::trim(a));
    }
}

/// A query that keeps to a policy stays in the libraries that it names, and in
/// all where it names none because it opens all; one that opens none stays in
/// none that there is. With a highest rating only what is rated and allowed, or
/// what is unrated and not blocked, comes through.
pub proof fn law_a_query_keeps_to_the_policy(
    mq: MediaQuery,
    policy: UserPolicy,
    allowed: Seq<Seq<char>>,
)
    requires
        scoped(mq, policy, allowed),
    ensures
        policy.enable_all_folders ==> mq.allowed_library_wire_ids@.len() == 0,
        !policy.enable_all_folders ==> mq.allowed_library_wire_ids@.len() > 0,
        !policy.enable_all_folders && policy.enabled_folders@.len() > 0 ==> text::texts(
            mq.allowed_library_wire_ids@,
        ) == text::texts(policy.enabled_folders@),
        !policy.enable_all_folders && policy.enabled_folders@.len() == 0
            ==> mq.allowed_library_wire_ids@.len() == 1 && mq.allowed_library_wire_ids@[0]@
            == "\0__none__"@,
        policy.max_parental_rating is Some <==> mq.parental is Some,
        mq.parental is Some ==> text::texts(mq.parental->0.allowed_ratings_lc@) == allowed && (
        mq.parental->0.block_unrated <==> policy.block_unrated_items@.len() > 0),
{
    let got = text::texts(mq.allowed_library_wire_ids@);
    assert(got.len() == mq.allowed_library_wire_ids@.len());
    assert(text::texts(policy.enabled_folders@).len() == policy.enabled_folders@.len());
    if !policy.enable_all_folders && policy.enabled_folders@.len() == 0 {
        assert(got == seq![no_library()]);
        assert(got[0] == mq.allowed_library_wire_ids@[0]@);
    }
}

/// A list is shuffled exactly where the first name of its sort order is
/// `Random`.
pub proof fn law_lists_are_shuffled_on_request(sort_by: Seq<char>)
    ensures
        primary_of(Some(sort_by)) == SortPrimary::Random <==> text::csv(sort_by).len() > 0
            && text::csv(sort_by)[0] == "Random"@,
        primary_of(None) != SortPrimary::Random,
{
    lemma_sort_names();
}

proof fn lemma_passing(items: Seq<u64>, data: Seq<UserItemData>, f: UserDataFilter, n: int, i: int)
    requires
        0 <= i < n <= items.len(),
        f.passes(record_at(data, i)),
    ensures
        passing(items, data, f, n).contains(items[i]),
    decreases n,
{
    let now = passing(items, data, f, n);
    if i == n - 1 {
        assert(now.last() == items[i]);
        assert(now[now.len() - 1] == items[i]);
    } else {
        lemma_passing(items, data, f, n - 1, i);
        let before = passing(items, data, f, n - 1);
        let k = choose|k: int| 0 <= k < before.len() && before[k] == items[i];
        assert(now[k] == items[i]);
    }
}

proof fn lemma_passing_back(
    items: Seq<u64>,
    data: Seq<UserItemData>,
    f: UserDataFilter,
    n: int,
    k: int,
)
    requires
        0 <= n <= items.len(),
        0 <= k < passing(items, data, f, n).len(),
    ensures
        exists|i: int|
            0 <= i < n && #[trigger] items[i] == passing(items, data, f, n)[k] && f.passes(
                record_at(data, i),
            ),
    decreases n,
{
    if n > 0 {
        let before = passing(items, data, f, n - 1);
        if k < before.len() {
            lemma_passing_back(items, data, f, n - 1, k);
            let i = choose|i: int|
                0 <= i < n - 1 && #[trigger] items[i] == before[k] && f.passes(record_at(data, i));
            assert(items[i] == passing(items, data, f, n)[k]);
        } else {
            assert(items[n - 1] == passing(items, data, f, n)[k]);
        }
    }
}

/// Of a shuffled list every item is shown whose record is as the switches ask,
/// and no other.
pub proof fn law_switches_hold_of_shuffled_lists(
    candidates: Seq<u64>,
    data: Seq<UserItemData>,
    q: ListQuery,
    i: int,
    k: int,
)
    requires
        q.filters is None,
        data.len() == candidates.len(),
        0 <= i < candidates.len(),
    ensures
        (q.is_favorite is Some ==> data[i].is_favorite == q.is_favorite->0) && (
        q.is_played is Some ==> data[i].played == q.is_played->0) ==> shuffled_rows(
            candidates,
            data,
            q,
        ).contains(candidates[i]),
        0 <= k < shuffled_rows(candidates, data, q).len() ==> exists|j: int|
            0 <= j < candidates.len() && #[trigger] candidates[j] == shuffled_rows(
                candidates,
                data,
                q,
            )[k] && (q.is_favorite is Some ==> data[j].is_favorite == q.is_favorite->0) && (
            q.is_played is Some ==> data[j].played == q.is_played->0),
{
    let f = user_filter(text::opt_text(q.filters), q.is_favorite, q.is_played);
    let n = candidates.len() as int;
    if f.passes(data[i]) {
        lemma_passing(candidates, data, f, n, i);
    }
    if 0 <= k < shuffled_rows(candidates, data, q).len() {
        lemma_passing_back(candidates, data, f, n, k);
        let j = choose|j: int|
            0 <= j < n && #[trigger] candidates[j] == passing(candidates, data, f, n)[k]
                && f.passes(record_at(data, j));
        assert(f.passes(data[j]));
    }
}

/// A list is shuffled with the seed that the client gives, or the odd number
/// above it; without one, the user's id alone decides, so that each page of a
/// user's list is cut from the same order.
pub proof fn law_shuffles_stay_the_same(given: u64, user: Seq<u8>, other: Seq<u8>)
    requires
        user.len() == 16,
        other.len() == 16,
    ensures
        given % 2 == 1 ==> sort_seed(Some(given), user) == given,
        given % 2 == 0 ==> sort_seed(Some(given), user) == given + 1,
        (forall|i: int| 0 <= i < 8 ==> user[i] == other[i]) ==> sort_seed(None, user) == sort_seed(
            None,
            other,
        ),
        user[0] % 2 == 1 && (forall|i: int| 1 <= i < 8 ==> user[i] == 0) ==> sort_seed(None, user)
            == user[0],
{
    if forall|i: int| 0 <= i < 8 ==> user[i] == other[i] {
        assert(user.take(8) =~= other.take(8));
    }
    if forall|i: int| 1 <= i < 8 ==> user[i] == 0 {
        reveal_with_fuel(shuffle::little_endian, 9);
        let u = user.take(8);
        assert(u.subrange(1, 8) =~= seq![0u8, 0, 0, 0, 0, 0, 0]);
        let z = seq![0u8, 0, 0, 0, 0, 0, 0];
        assert(z.subrange(1, 7) =~= seq![0u8, 0, 0, 0, 0, 0]);
        assert(seq![0u8, 0, 0, 0, 0, 0].subrange(1, 6) =~= seq![0u8, 0, 0, 0, 0]);
        assert(seq![0u8, 0, 0, 0, 0].subrange(1, 5) =~= seq![0u8, 0, 0, 0]);
        assert(seq![0u8, 0, 0, 0].subrange(1, 4) =~= seq![0u8, 0, 0]);
        assert(seq![0u8, 0, 0].subrange(1, 3) =~= seq![0u8, 0]);
        assert(seq![0u8, 0].subrange(1, 2) =~= seq![0u8]);
        assert(seq![0u8].subrange(1, 1) =~= Seq::<u8>::empty());
        assert(shuffle::little_endian(z) == 0);
        assert(shuffle::little_endian(u) == user[0]);
    }
}

} // verus!
