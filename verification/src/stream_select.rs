//! Which audio and which subtitle track playback starts with.

use vstd::prelude::*;
use crate::seqs;
use crate::sort::{self, stable_order};
use crate::text::{self, chars_of, eq_ignore_case, eq_text, find_from, slice_text, to_lower, trimmed};

verus! {

/// What selection depends on.
#[derive(Debug)]
pub struct StreamFacts {
    pub index: u32,
    pub language: Option<String>,
    pub is_default: bool,
    pub is_forced: bool,
    pub is_external: bool,
    pub supports_external_stream: bool,
    pub is_text_subtitle_stream: bool,
}

impl Default for StreamFacts {
    fn default() -> (r: Self)
        ensures
            r.index == 0,
            r.language is None,
            !r.is_default && !r.is_forced && !r.is_external,
            !r.supports_external_stream && !r.is_text_subtitle_stream,
    {
        StreamFacts {
            index: 0,
            language: None,
            is_default: false,
            is_forced: false,
            is_external: false,
            supports_external_stream: false,
            is_text_subtitle_stream: false,
        }
    }
}

impl StreamFacts {
    /// Whether two have the same facts.
    pub open spec fn same(self, other: StreamFacts) -> bool {
        &&& self.index == other.index
        &&& text::opt_text(self.language) == text::opt_text(other.language)
        &&& self.is_default == other.is_default
        &&& self.is_forced == other.is_forced
        &&& self.is_external == other.is_external
        &&& self.supports_external_stream == other.supports_external_stream
        &&& self.is_text_subtitle_stream == other.is_text_subtitle_stream
    }
}

/// A stream as it is advertised.
#[derive(Debug)]
pub struct AdvertisedStream {
    pub kind: String,
    pub facts: StreamFacts,
}

/// When subtitles are shown.
#[derive(Debug, Clone, Copy, PartialEq, Eq, Structural)]
pub enum SubtitleMode {
    Default,
    Always,
    OnlyForced,
    Off,
    Smart,
}

pub open spec fn mode_named(s: Seq<char>) -> SubtitleMode {
    let m = text::lower(text::trim(s));
    if m == "always"@ {
        SubtitleMode::Always
    } else if m == "onlyforced"@ {
        SubtitleMode::OnlyForced
    } else if m == "none"@ {
        SubtitleMode::Off
    } else if m == "smart"@ {
        SubtitleMode::Smart
    } else {
        SubtitleMode::Default
    }
}

impl SubtitleMode {
    /// Reads the configured mode; what is not known is the default.
    pub fn from_config(s: &str) -> (r: Self)
        ensures
            r == mode_named(s@),
    {
        let m = to_lower(trimmed(s).as_str());
        if eq_text(m.as_str(), "always") {
            SubtitleMode::Always
        } else if eq_text(m.as_str(), "onlyforced") {
            SubtitleMode::OnlyForced
        } else if eq_text(m.as_str(), "none") {
            SubtitleMode::Off
        } else if eq_text(m.as_str(), "smart") {
            SubtitleMode::Smart
        } else {
            SubtitleMode::Default
        }
    }
}

// ------------------------------------------------------------------- languages

/// The view of an optional text.
pub open spec fn opt_str(o: Option<&str>) -> Option<Seq<char>> {
    match o {
        Some(s) => Some(s@),
        None => None,
    }
}

/// Whether a track's language is the preferred one.
pub open spec fn language_is(pref: Seq<char>, language: Option<Seq<char>>) -> bool {
    language matches Some(l) && text::eq_ci(l, pref)
}

/// Whether a track's language is one of the preferred ones.
pub open spec fn language_among(prefs: Seq<Seq<char>>, language: Option<Seq<char>>) -> bool {
    exists|i: int| 0 <= i < prefs.len() && language_is(#[trigger] prefs[i], language)
}

/// Without a preference any language will do.
pub open spec fn preferred(language: Option<Seq<char>>, prefs: Seq<Seq<char>>) -> bool {
    prefs.len() == 0 || language_among(prefs, language)
}

pub open spec fn undefined_names() -> Seq<Seq<char>> {
    seq!["und"@, "unknown"@, "undetermined"@, "mul"@, "zxx"@]
}

/// Whether a track does not say which language it is in.
pub open spec fn undefined(language: Option<Seq<char>>) -> bool {
    match language {
        None => true,
        Some(l) => text::trim(l).len() == 0 || undefined_names().contains(
            text::lower(text::trim(l)),
        ),
    }
}

/// How far down the preferences a language stands.
pub open spec fn rank(prefs: Seq<Seq<char>>, language: Option<Seq<char>>) -> Option<int>
    decreases prefs.len(),
{
    if prefs.len() == 0 {
        None
    } else if language_is(prefs[0], language) {
        Some(0)
    } else {
        match rank(prefs.subrange(1, prefs.len() as int), language) {
            Some(i) => Some(i + 1),
            None => None,
        }
    }
}

fn lang_eq(pref: &str, language: &Option<String>) -> (r: bool)
    ensures
        r == language_is(pref@, text::opt_text(*language)),
{
    match language {
        Some(l) => eq_ignore_case(l.as_str(), pref),
        None => false,
    }
}

proof fn lemma_rank(prefs: Seq<Seq<char>>, language: Option<Seq<char>>, i: int)
    requires
        0 <= i <= prefs.len(),
        forall|k: int| 0 <= k < i ==> !language_is(#[trigger] prefs[k], language),
        i < prefs.len() ==> language_is(prefs[i], language),
    ensures
        rank(prefs, language) == (if i < prefs.len() {
            Some(i)
        } else {
            None
        }),
    decreases prefs.len(),
{
    if i > 0 {
        let t = prefs.subrange(1, prefs.len() as int);
        assert forall|k: int| 0 <= k < i - 1 implies !language_is(#[trigger] t[k], language) by {
            assert(t[k] == prefs[k + 1]);
        }
        lemma_rank(t, language, i - 1);
    }
}

fn find_rank(prefs: &[String], language: &Option<String>) -> (r: Option<usize>)
    ensures
        match r {
            Some(i) => rank(text::texts(prefs@), text::opt_text(*language)) == Some(i as int)
                && language_among(text::texts(prefs@), text::opt_text(*language)) && i < prefs@.len(),
            None => rank(text::texts(prefs@), text::opt_text(*language)) is None && !language_among(
                text::texts(prefs@),
                text::opt_text(*language),
            ),
        },
{
    let mut i: usize = 0;
    let ghost views = text::texts(prefs@);
    let ghost lang = text::opt_text(*language);
    while i < prefs.len()
        invariant
            i <= prefs@.len(),
            views == text::texts(prefs@),
            lang == text::opt_text(*language),
            forall|k: int| 0 <= k < i ==> !language_is(#[trigger] views[k], lang),
        decreases prefs@.len() - i,
    {
        if lang_eq(prefs[i].as_str(), language) {
            proof {
                assert(language_is(views[i as int], lang));
                lemma_rank(views, lang, i as int);
            }
            return Some(i);
        }
        i += 1;
    }
    proof {
        lemma_rank(views, lang, i as int);
    }
    None
}

fn matches_preferred(language: &Option<String>, prefs: &[String]) -> (r: bool)
    ensures
        r == preferred(text::opt_text(*language), text::texts(prefs@)),
{
    prefs.len() == 0 || find_rank(prefs, language).is_some()
}

fn is_language_undefined(language: &Option<String>) -> (r: bool)
    ensures
        r == undefined(text::opt_text(*language)),
{
    match language {
        None => true,
        Some(l) => {
            let t = trimmed(l.as_str());
            let wanted: Vec<&str> = vec!["und", "unknown", "undetermined", "mul", "zxx"];
            proof {
                assert(text::names(wanted@) == undefined_names());
            }
            t.as_str().is_empty() || text::one_of(to_lower(t.as_str()).as_str(), &wanted)
        },
    }
}

// ---------------------------------------------------------------------- scores

pub open spec fn flag(b: bool) -> int {
    if b {
        2
    } else {
        1
    }
}

/// The score of a stream: the language comes first, the flags break ties.
pub open spec fn score_of(f: StreamFacts, prefs: Seq<Seq<char>>) -> int {
    let language = match rank(prefs, text::opt_text(f.language)) {
        Some(i) => 101 - i,
        None => 1,
    };
    language * 100_000 + flag(f.is_forced) * 10_000 + flag(f.is_default) * 1_000 + flag(
        f.supports_external_stream,
    ) * 100 + flag(f.is_text_subtitle_stream) * 10 + flag(f.is_external)
}

fn score_wide(f: &StreamFacts, prefs: &[String]) -> (r: i128)
    ensures
        r == score_of(*f, text::texts(prefs@)),
        -0x10_0000_0000_0000_0000_0000 < r < 0x10_0000_0000_0000_0000_0000,
        prefs@.len() <= 0x100_0000_0000 ==> i64::MIN <= r <= i64::MAX,
{
    let language: i128 = match find_rank(prefs, &f.language) {
        Some(i) => 101 - i as i128,
        None => 1,
    };
    let forced: i128 = if f.is_forced { 2 } else { 1 };
    let default: i128 = if f.is_default { 2 } else { 1 };
    let supports: i128 = if f.supports_external_stream { 2 } else { 1 };
    let textual: i128 = if f.is_text_subtitle_stream { 2 } else { 1 };
    let outside: i128 = if f.is_external { 2 } else { 1 };
    language * 100_000 + forced * 10_000 + default * 1_000 + supports * 100 + textual * 10 + outside
}

/// The score of a stream.
pub fn stream_score(stream: &StreamFacts, preferred_languages: &[String]) -> (r: i64)
    requires
        preferred_languages@.len() <= 0x100_0000_0000,
    ensures
        r == score_of(*stream, text::texts(preferred_languages@)),
{
    score_wide(stream, preferred_languages) as i64
}

fn copy_facts(f: &StreamFacts) -> (r: StreamFacts)
    ensures
        r.same(*f),
{
    StreamFacts {
        index: f.index,
        language: text::copy_opt(&f.language),
        is_default: f.is_default,
        is_forced: f.is_forced,
        is_external: f.is_external,
        supports_external_stream: f.supports_external_stream,
        is_text_subtitle_stream: f.is_text_subtitle_stream,
    }
}

/// Whether the stream at `a` has the higher score.
pub open spec fn scores_higher(streams: Seq<StreamFacts>, prefs: Seq<Seq<char>>) -> spec_fn(
    int,
    int,
) -> bool {
    |a: int, b: int| score_of(streams[a], prefs) > score_of(streams[b], prefs)
}

/// The streams, the best first; equals keep the container's order.
pub fn sorted_by_score(streams: &[StreamFacts], preferred_languages: &[String]) -> (r: Vec<
    StreamFacts,
>)
    ensures
        exists|order: Seq<usize>| #[trigger]
            sort::in_order(
                order,
                streams@.len() as int,
                scores_higher(streams@, text::texts(preferred_languages@)),
            ) && r@.len() == streams@.len() && forall|i: int|
                0 <= i < r@.len() ==> (#[trigger] r@[i]).same(streams@[order[i] as int]),
{
    let ghost lt = scores_higher(streams@, text::texts(preferred_languages@));
    let n: usize = streams.len();
    let before = |a: usize, b: usize| -> (c: bool)
        requires
            a < n,
            b < n,
            n == streams@.len(),
        ensures
            c == lt(a as int, b as int),
        { score_wide(&streams[a], preferred_languages) > score_wide(&streams[b], preferred_languages)
        };
    let order = stable_order(n, before, Ghost(lt));
    let mut out: Vec<StreamFacts> = Vec::new();
    let mut i: usize = 0;
    while i < n
        invariant
            i <= n,
            n == streams@.len(),
            sort::in_order(order@, n as int, lt),
            out@.len() == i,
            forall|k: int| 0 <= k < i ==> (#[trigger] out@[k]).same(streams@[order@[k] as int]),
        decreases n - i,
    {
        out.push(copy_facts(&streams[order[i]]));
        i += 1;
    }
    out
}

// ------------------------------------------------------------------- selection

/// Whether the stream at `i` is the best of the wanted ones: none of them
/// scores higher, and none before it scores the same.
pub open spec fn is_best(
    s: Seq<StreamFacts>,
    wanted: spec_fn(StreamFacts) -> bool,
    score: spec_fn(StreamFacts) -> int,
    i: int,
) -> bool {
    &&& 0 <= i < s.len()
    &&& wanted(s[i])
    &&& forall|j: int|
        0 <= j < s.len() && wanted(#[trigger] s[j]) ==> score(s[j]) < score(s[i]) || (score(s[j])
            == score(s[i]) && i <= j)
}

/// Whether `r` is the index of the best of the wanted streams; none where none
/// is wanted.
pub open spec fn picks(
    r: Option<u32>,
    s: Seq<StreamFacts>,
    wanted: spec_fn(StreamFacts) -> bool,
    score: spec_fn(StreamFacts) -> int,
) -> bool {
    match r {
        Some(x) => exists|i: int| #[trigger] is_best(s, wanted, score, i) && s[i].index == x,
        None => forall|j: int| 0 <= j < s.len() ==> !wanted(#[trigger] s[j]),
    }
}

/// Picks the best of the accepted streams.
fn pick_best(
    s: &[StreamFacts],
    accepted: &Vec<bool>,
    scores: &Vec<i128>,
    Ghost(wanted): Ghost<spec_fn(StreamFacts) -> bool>,
    Ghost(score): Ghost<spec_fn(StreamFacts) -> int>,
) -> (r: Option<u32>)
    requires
        accepted@.len() == s@.len(),
        scores@.len() == s@.len(),
        forall|i: int| 0 <= i < s@.len() ==> #[trigger] accepted@[i] == wanted(s@[i]),
        forall|i: int| 0 <= i < s@.len() ==> #[trigger] scores@[i] == score(s@[i]),
    ensures
        picks(r, s@, wanted, score),
{
    let n: usize = s.len();
    let mut best: usize = n;
    let mut i: usize = 0;
    while i < n
        invariant
            i <= n,
            n == s@.len(),
            accepted@.len() == n,
            scores@.len() == n,
            forall|k: int| 0 <= k < n ==> #[trigger] accepted@[k] == wanted(s@[k]),
            forall|k: int| 0 <= k < n ==> #[trigger] scores@[k] == score(s@[k]),
            best < i || best == n,
            best < n ==> wanted(s@[best as int]) && forall|j: int|
                0 <= j < i && wanted(#[trigger] s@[j]) ==> score(s@[j]) < score(s@[best as int])
                    || (score(s@[j]) == score(s@[best as int]) && best <= j),
            best == n ==> forall|j: int| 0 <= j < i ==> !wanted(#[trigger] s@[j]),
        decreases n - i,
    {
        proof {
            assert(accepted@[i as int] == wanted(s@[i as int]));
            assert(scores@[i as int] == score(s@[i as int]));
        }
        if accepted[i] {
            if best == n {
                best = i;
            } else {
                proof {
                    assert(scores@[best as int] == score(s@[best as int]));
                }
                if scores[i] > scores[best] {
                    best = i;
                }
            }
        }
        i += 1;
    }
    if best < n {
        proof {
            assert(is_best(s@, wanted, score, best as int));
        }
        Some(s[best].index)
    } else {
        None
    }
}

pub open spec fn marked_default() -> spec_fn(StreamFacts) -> bool {
    |f: StreamFacts| f.is_default
}

pub open spec fn anything() -> spec_fn(StreamFacts) -> bool {
    |f: StreamFacts| true
}

pub open spec fn has_default(s: Seq<StreamFacts>) -> bool {
    exists|i: int| 0 <= i < s.len() && (#[trigger] s[i]).is_default
}

/// The audio streams that are in the running: where the container's own mark
/// is to be followed and there is one, the marked ones.
pub open spec fn audio_wanted(s: Seq<StreamFacts>, prefer_default: bool) -> spec_fn(
    StreamFacts,
) -> bool {
    if prefer_default && has_default(s) {
        marked_default()
    } else {
        anything()
    }
}

pub open spec fn by_score(prefs: Seq<Seq<char>>) -> spec_fn(StreamFacts) -> int {
    |f: StreamFacts| score_of(f, prefs)
}

/// The audio track that playback starts with.
pub fn default_audio_stream_index(
    audio: &[StreamFacts],
    preferred_languages: &[String],
    prefer_default_track: bool,
) -> (r: Option<u32>)
    ensures
        picks(
            r,
            audio@,
            audio_wanted(audio@, prefer_default_track),
            by_score(text::texts(preferred_languages@)),
        ),
{
    let n: usize = audio.len();
    let ghost prefs = text::texts(preferred_languages@);
    let mut any: bool = false;
    let mut flags: Vec<bool> = Vec::new();
    let mut all: Vec<bool> = Vec::new();
    let mut scores: Vec<i128> = Vec::new();
    let mut i: usize = 0;
    while i < n
        invariant
            i <= n,
            n == audio@.len(),
            prefs == text::texts(preferred_languages@),
            flags@.len() == i,
            all@.len() == i,
            scores@.len() == i,
            forall|k: int| 0 <= k < i ==> #[trigger] flags@[k] == audio@[k].is_default,
            forall|k: int| 0 <= k < i ==> #[trigger] all@[k],
            forall|k: int| 0 <= k < i ==> #[trigger] scores@[k] == score_of(audio@[k], prefs),
            any <==> exists|k: int| 0 <= k < i && (#[trigger] audio@[k]).is_default,
        decreases n - i,
    {
        if audio[i].is_default {
            any = true;
        }
        flags.push(audio[i].is_default);
        all.push(true);
        scores.push(score_wide(&audio[i], preferred_languages));
        i += 1;
    }
    if prefer_default_track && any {
        pick_best(audio, &flags, &scores, Ghost(marked_default()), Ghost(by_score(prefs)))
    } else {
        pick_best(audio, &all, &scores, Ghost(anything()), Ghost(by_score(prefs)))
    }
}

/// 1 for true.
pub open spec fn bit(b: bool) -> int {
    if b {
        1
    } else {
        0
    }
}

/// The order of subtitles: outside ones first, then marked ones, then full
/// ones in a preferred language, then forced ones in a preferred language, in
/// none, in any.
pub open spec fn subtitle_rank(f: StreamFacts, prefs: Seq<Seq<char>>) -> int {
    let language = text::opt_text(f.language);
    let pref = preferred(language, prefs);
    32 * bit(f.is_external) + 16 * bit(f.is_default) + 8 * bit(!f.is_forced && pref) + 4 * bit(
        f.is_forced && pref,
    ) + 2 * bit(f.is_forced && undefined(language)) + bit(f.is_forced)
}

/// The order of forced subtitles: those in a preferred language first, then
/// those that state none, and among these the order above.
pub open spec fn forced_rank(f: StreamFacts, prefs: Seq<Seq<char>>) -> int {
    let language = text::opt_text(f.language);
    128 * bit(preferred(language, prefs)) + 64 * bit(undefined(language)) + subtitle_rank(f, prefs)
}

/// Forced tracks that the viewer can read.
pub open spec fn readable_forced(f: StreamFacts, prefs: Seq<Seq<char>>) -> bool {
    f.is_forced && (preferred(text::opt_text(f.language), prefs) || undefined(
        text::opt_text(f.language),
    ))
}

/// Whether an accepted subtitle is chosen by its own order or by that of the
/// forced ones.
pub open spec fn ranked(prefs: Seq<Seq<char>>, forced: bool) -> spec_fn(StreamFacts) -> int {
    |f: StreamFacts|
        if forced {
            forced_rank(f, prefs)
        } else {
            subtitle_rank(f, prefs)
        }
}

pub open spec fn forced_only(prefs: Seq<Seq<char>>) -> spec_fn(StreamFacts) -> bool {
    |f: StreamFacts| readable_forced(f, prefs)
}

pub open spec fn marked() -> spec_fn(StreamFacts) -> bool {
    |f: StreamFacts| f.is_external || f.is_default || f.is_forced
}

pub open spec fn in_language(prefs: Seq<Seq<char>>) -> spec_fn(StreamFacts) -> bool {
    |f: StreamFacts| preferred(text::opt_text(f.language), prefs)
}

pub open spec fn full_in_language(prefs: Seq<Seq<char>>) -> spec_fn(StreamFacts) -> bool {
    |f: StreamFacts| !f.is_forced && preferred(text::opt_text(f.language), prefs)
}

pub open spec fn some_wanted(s: Seq<StreamFacts>, wanted: spec_fn(StreamFacts) -> bool) -> bool {
    exists|i: int| 0 <= i < s.len() && wanted(#[trigger] s[i])
}

/// Which subtitle a mode picks.
pub open spec fn subtitle_pick(
    r: Option<u32>,
    s: Seq<StreamFacts>,
    prefs: Seq<Seq<char>>,
    mode: SubtitleMode,
    audio_language: Option<Seq<char>>,
) -> bool {
    match mode {
        SubtitleMode::Off => r is None,
        SubtitleMode::Default => picks(r, s, marked(), ranked(prefs, false)),
        SubtitleMode::OnlyForced => picks(r, s, forced_only(prefs), ranked(prefs, true)),
        SubtitleMode::Smart => if language_among(prefs, audio_language) {
            picks(r, s, forced_only(prefs), ranked(prefs, true))
        } else {
            picks(r, s, in_language(prefs), ranked(prefs, false))
        },
        SubtitleMode::Always => if some_wanted(s, full_in_language(prefs)) {
            picks(r, s, full_in_language(prefs), ranked(prefs, false))
        } else {
            picks(r, s, forced_only(prefs), ranked(prefs, true))
        },
    }
}

fn bit_of(b: bool) -> (r: i128)
    ensures
        r == bit(b),
{
    if b {
        1
    } else {
        0
    }
}

fn rank_subtitle(f: &StreamFacts, prefs: &[String], forced: bool) -> (r: i128)
    ensures
        r == ranked(text::texts(prefs@), forced)(*f),
{
    let pref = matches_preferred(&f.language, prefs);
    let undef = is_language_undefined(&f.language);
    let base: i128 = 32 * bit_of(f.is_external) + 16 * bit_of(f.is_default) + 8 * bit_of(
        !f.is_forced && pref,
    ) + 4 * bit_of(f.is_forced && pref) + 2 * bit_of(f.is_forced && undef) + bit_of(f.is_forced);
    if forced {
        128 * bit_of(pref) + 64 * bit_of(undef) + base
    } else {
        base
    }
}

/// Picks the best of the accepted subtitles.
fn pick_subtitle(
    s: &[StreamFacts],
    prefs: &[String],
    accepted: &Vec<bool>,
    forced: bool,
    Ghost(wanted): Ghost<spec_fn(StreamFacts) -> bool>,
) -> (r: Option<u32>)
    requires
        accepted@.len() == s@.len(),
        forall|i: int| 0 <= i < s@.len() ==> #[trigger] accepted@[i] == wanted(s@[i]),
    ensures
        picks(r, s@, wanted, ranked(text::texts(prefs@), forced)),
{
    let ghost score = ranked(text::texts(prefs@), forced);
    let mut scores: Vec<i128> = Vec::new();
    let mut i: usize = 0;
    while i < s.len()
        invariant
            i <= s@.len(),
            score == ranked(text::texts(prefs@), forced),
            scores@.len() == i,
            forall|k: int| 0 <= k < i ==> #[trigger] scores@[k] == score(s@[k]),
        decreases s@.len() - i,
    {
        scores.push(rank_subtitle(&s[i], prefs, forced));
        i += 1;
    }
    pick_best(s, accepted, &scores, Ghost(wanted), Ghost(score))
}

fn behavior_only_forced(s: &[StreamFacts], prefs: &[String]) -> (r: Option<u32>)
    ensures
        picks(r, s@, forced_only(text::texts(prefs@)), ranked(text::texts(prefs@), true)),
{
    let mut accepted: Vec<bool> = Vec::new();
    let mut i: usize = 0;
    let ghost wanted = forced_only(text::texts(prefs@));
    while i < s.len()
        invariant
            i <= s@.len(),
            wanted == forced_only(text::texts(prefs@)),
            accepted@.len() == i,
            forall|k: int| 0 <= k < i ==> #[trigger] accepted@[k] == wanted(s@[k]),
        decreases s@.len() - i,
    {
        accepted.push(
            s[i].is_forced && (matches_preferred(&s[i].language, prefs) || is_language_undefined(
                &s[i].language,
            )),
        );
        i += 1;
    }
    pick_subtitle(s, prefs, &accepted, true, Ghost(wanted))
}

/// The subtitle track that playback starts with, given the language of the
/// audio track.
pub fn default_subtitle_stream_index(
    subtitles: &[StreamFacts],
    preferred_languages: &[String],
    mode: SubtitleMode,
    audio_language: Option<&str>,
) -> (r: Option<u32>)
    ensures
        subtitle_pick(
            r,
            subtitles@,
            text::texts(preferred_languages@),
            mode,
            opt_str(audio_language),
        ),
{
    let ghost prefs = text::texts(preferred_languages@);
    let n: usize = subtitles.len();
    let mut is_marked: Vec<bool> = Vec::new();
    let mut is_readable: Vec<bool> = Vec::new();
    let mut is_full: Vec<bool> = Vec::new();
    let mut any_full: bool = false;
    let mut i: usize = 0;
    while i < n
        invariant
            i <= n,
            n == subtitles@.len(),
            prefs == text::texts(preferred_languages@),
            is_marked@.len() == i,
            is_readable@.len() == i,
            is_full@.len() == i,
            forall|k: int| 0 <= k < i ==> #[trigger] is_marked@[k] == marked()(subtitles@[k]),
            forall|k: int|
                0 <= k < i ==> #[trigger] is_readable@[k] == in_language(prefs)(subtitles@[k]),
            forall|k: int|
                0 <= k < i ==> #[trigger] is_full@[k] == full_in_language(prefs)(subtitles@[k]),
            any_full <==> exists|k: int|
                0 <= k < i && full_in_language(prefs)(#[trigger] subtitles@[k]),
        decreases n - i,
    {
        let f = &subtitles[i];
        let readable = matches_preferred(&f.language, preferred_languages);
        is_marked.push(f.is_external || f.is_default || f.is_forced);
        is_readable.push(readable);
        is_full.push(!f.is_forced && readable);
        if !f.is_forced && readable {
            proof {
                assert(full_in_language(prefs)(subtitles@[i as int]));
            }
            any_full = true;
        }
        i += 1;
    }
    match mode {
        SubtitleMode::Off => None,
        SubtitleMode::Default => pick_subtitle(
            subtitles,
            preferred_languages,
            &is_marked,
            false,
            Ghost(marked()),
        ),
        SubtitleMode::OnlyForced => behavior_only_forced(subtitles, preferred_languages),
        SubtitleMode::Smart => {
            let spoken: Option<String> = match audio_language {
                Some(l) => Some(l.to_owned()),
                None => None,
            };
            if find_rank(preferred_languages, &spoken).is_some() {
                behavior_only_forced(subtitles, preferred_languages)
            } else {
                pick_subtitle(
                    subtitles,
                    preferred_languages,
                    &is_readable,
                    false,
                    Ghost(in_language(prefs)),
                )
            }
        },
        SubtitleMode::Always => if any_full {
            pick_subtitle(
                subtitles,
                preferred_languages,
                &is_full,
                false,
                Ghost(full_in_language(prefs)),
            )
        } else {
            behavior_only_forced(subtitles, preferred_languages)
        },
    }
}

// ------------------------------------------------------------------ expansions

/// A language's two-letter code and its two three-letter codes.
struct LanguageRow {
    two: &'static str,
    three: &'static str,
    bibliographic: &'static str,
}

spec fn row_view(r: LanguageRow) -> (Seq<char>, Seq<char>, Seq<char>) {
    (r.two@, r.three@, r.bibliographic@)
}

/// The languages that are known by more than one code.
pub open spec fn language_table() -> Seq<(Seq<char>, Seq<char>, Seq<char>)> {
    seq![
        ("en"@, "eng"@, "eng"@),
        ("ja"@, "jpn"@, "jpn"@),
        ("de"@, "deu"@, "ger"@),
        ("fr"@, "fra"@, "fre"@),
        ("es"@, "spa"@, "spa"@),
        ("it"@, "ita"@, "ita"@),
        ("pt"@, "por"@, "por"@),
        ("ru"@, "rus"@, "rus"@),
        ("uk"@, "ukr"@, "ukr"@),
        ("pl"@, "pol"@, "pol"@),
        ("nl"@, "nld"@, "dut"@),
        ("sv"@, "swe"@, "swe"@),
        ("da"@, "dan"@, "dan"@),
        ("no"@, "nor"@, "nor"@),
        ("fi"@, "fin"@, "fin"@),
        ("cs"@, "ces"@, "cze"@),
        ("hu"@, "hun"@, "hun"@),
        ("tr"@, "tur"@, "tur"@),
        ("ar"@, "ara"@, "ara"@),
        ("he"@, "heb"@, "heb"@),
        ("hi"@, "hin"@, "hin"@),
        ("ko"@, "kor"@, "kor"@),
        ("zh"@, "zho"@, "chi"@),
    ]
}

/// A tag without its region.
pub open spec fn base_tag(p: Seq<char>) -> Seq<char> {
    let a = text::find_char(p, '-');
    let b = text::find_char(p, '_');
    if a < b {
        p.subrange(0, a)
    } else {
        p.subrange(0, b)
    }
}

pub open spec fn row_of(base: Seq<char>) -> spec_fn((Seq<char>, Seq<char>, Seq<char>)) -> bool {
    |r: (Seq<char>, Seq<char>, Seq<char>)| base == r.0 || base == r.1 || base == r.2
}

/// The tags that a configured language is matched by: the codes of the table's
/// row where there is one, else the tag itself and its base.
pub open spec fn tags_of(pref: Seq<char>) -> Seq<Seq<char>> {
    let p = text::lower(text::trim(pref));
    let base = base_tag(p);
    if p.len() == 0 {
        Seq::empty()
    } else {
        match seqs::first_such(language_table(), row_of(base)) {
            Some(r) => if r.1 == r.2 {
                seq![r.0, r.1]
            } else {
                seq![r.0, r.1, r.2]
            },
            None => if base == p {
                seq![p]
            } else {
                seq![p, base]
            },
        }
    }
}

fn row(two: &'static str, three: &'static str, bibliographic: &'static str) -> (r: LanguageRow)
    ensures
        row_view(r) == (two@, three@, bibliographic@),
{
    LanguageRow { two, three, bibliographic }
}

fn build_table() -> (r: Vec<LanguageRow>)
    ensures
        r@.map_values(|x: LanguageRow| row_view(x)) == language_table(),
{
    let t: Vec<LanguageRow> =
        vec![
        row("en", "eng", "eng"),
        row("ja", "jpn", "jpn"),
        row("de", "deu", "ger"),
        row("fr", "fra", "fre"),
        row("es", "spa", "spa"),
        row("it", "ita", "ita"),
        row("pt", "por", "por"),
        row("ru", "rus", "rus"),
        row("uk", "ukr", "ukr"),
        row("pl", "pol", "pol"),
        row("nl", "nld", "dut"),
        row("sv", "swe", "swe"),
        row("da", "dan", "dan"),
        row("no", "nor", "nor"),
        row("fi", "fin", "fin"),
        row("cs", "ces", "cze"),
        row("hu", "hun", "hun"),
        row("tr", "tur", "tur"),
        row("ar", "ara", "ara"),
        row("he", "heb", "heb"),
        row("hi", "hin", "hin"),
        row("ko", "kor", "kor"),
        row("zh", "zho", "chi"),
    ];
    proof {
        assert(t@.map_values(|x: LanguageRow| row_view(x)) =~= language_table());
    }
    t
}

fn strip_region(p: &str) -> (r: String)
    ensures
        r@ == base_tag(p@),
{
    let v = chars_of(p);
    proof {
        assert(v@.subrange(0, v@.len() as int) == p@);
    }
    let a = find_from(v.as_slice(), 0, '-');
    let b = find_from(v.as_slice(), 0, '_');
    if a < b {
        slice_text(v.as_slice(), 0, a)
    } else {
        slice_text(v.as_slice(), 0, b)
    }
}

/// Expands a configured language into the tags that files carry.
pub fn normalize_language(pref: &str) -> (r: Vec<String>)
    ensures
        text::texts(r@) == tags_of(pref@),
{
    let p = to_lower(trimmed(pref).as_str());
    if p.as_str().is_empty() {
        let none: Vec<String> = Vec::new();
        proof {
            assert(text::texts(none@) == Seq::<Seq<char>>::empty());
        }
        return none;
    }
    let base = strip_region(p.as_str());
    let table = build_table();
    let ghost views = table@.map_values(|x: LanguageRow| row_view(x));
    let mut i: usize = 0;
    while i < table.len()
        invariant
            i <= table.len(),
            views == table@.map_values(|x: LanguageRow| row_view(x)),
            views == language_table(),
            p@ == text::lower(text::trim(pref@)),
            p@.len() > 0,
            base@ == base_tag(p@),
            forall|k: int| 0 <= k < i ==> !row_of(base@)(#[trigger] views[k]),
        decreases table.len() - i,
    {
        proof {
            assert(views[i as int] == row_view(table@[i as int]));
        }
        let b = base.as_str();
        if eq_text(b, table[i].two) || eq_text(b, table[i].three) || eq_text(
            b,
            table[i].bibliographic,
        ) {
            proof {
                seqs::lemma_first_such(views, row_of(base@), i as int);
            }
            let mut out: Vec<String> = Vec::new();
            out.push(table[i].two.to_owned());
            out.push(table[i].three.to_owned());
            if !eq_text(table[i].bibliographic, table[i].three) {
                out.push(table[i].bibliographic.to_owned());
            }
            proof {
                assert(text::texts(out@) =~= tags_of(pref@));
            }
            return out;
        }
        i += 1;
    }
    proof {
        seqs::lemma_first_such(views, row_of(base@), i as int);
    }
    let same = eq_text(base.as_str(), p.as_str());
    let mut out: Vec<String> = Vec::new();
    out.push(p);
    if !same {
        out.push(base);
    }
    proof {
        assert(text::texts(out@) =~= tags_of(pref@));
    }
    out
}

// ------------------------------------------------------------ advertised streams

pub open spec fn of_kind(kind: Seq<char>) -> spec_fn(AdvertisedStream) -> bool {
    |s: AdvertisedStream| s.kind@ == kind
}

/// Whether `r` is the facts of the streams of one kind, in their order.
pub open spec fn facts_of_kind(
    r: Seq<StreamFacts>,
    streams: Seq<AdvertisedStream>,
    kind: Seq<char>,
) -> bool {
    let kept = seqs::keep(streams, of_kind(kind));
    r.len() == kept.len() && forall|i: int|
        0 <= i < r.len() ==> (#[trigger] r[i]).same(kept[i].facts)
}

fn gather_facts(streams: &[AdvertisedStream], kind: &str) -> (r: Vec<StreamFacts>)
    ensures
        facts_of_kind(r@, streams@, kind@),
{
    let mut out: Vec<StreamFacts> = Vec::new();
    let mut i: usize = 0;
    proof {
        assert(streams@.take(0) == Seq::<AdvertisedStream>::empty());
    }
    while i < streams.len()
        invariant
            i <= streams@.len(),
            facts_of_kind(out@, streams@.take(i as int), kind@),
        decreases streams@.len() - i,
    {
        proof {
            seqs::lemma_keep_step(streams@, of_kind(kind@), i as int);
        }
        if eq_text(streams[i].kind.as_str(), kind) {
            out.push(copy_facts(&streams[i].facts));
        }
        i += 1;
    }
    proof {
        assert(streams@.take(i as int) == streams@);
    }
    out
}

/// The audio tracks of an advertised list, in its order.
pub fn audio_facts(streams: &[AdvertisedStream]) -> (r: Vec<StreamFacts>)
    ensures
        facts_of_kind(r@, streams@, "Audio"@),
{
    gather_facts(streams, "Audio")
}

/// The subtitle tracks of an advertised list, in its order.
pub fn subtitle_facts(streams: &[AdvertisedStream]) -> (r: Vec<StreamFacts>)
    ensures
        facts_of_kind(r@, streams@, "Subtitle"@),
{
    gather_facts(streams, "Subtitle")
}

// ------------------------------------------------------------------------ laws

/// The language comes before every flag: a track further up the preferences
/// outscores one further down, and one among the first hundred preferences
/// outscores one that is not preferred at all.
pub proof fn law_language_outranks_the_flags(
    a: StreamFacts,
    b: StreamFacts,
    prefs: Seq<Seq<char>>,
    i: int,
)
    requires
        rank(prefs, text::opt_text(a.language)) == Some(i),
        match rank(prefs, text::opt_text(b.language)) {
            Some(j) => i < j,
            None => i < 100,
        },
    ensures
        score_of(a, prefs) > score_of(b, prefs),
{
}

/// Without a preference no track is filtered away for its language.
pub proof fn law_no_preference_takes_any_language(language: Option<Seq<char>>)
    ensures
        preferred(language, Seq::empty()),
{
}

/// The choice of a track is a choice: two that are both best are the same.
pub proof fn law_the_best_track_is_one(
    s: Seq<StreamFacts>,
    wanted: spec_fn(StreamFacts) -> bool,
    score: spec_fn(StreamFacts) -> int,
    i: int,
    j: int,
)
    requires
        is_best(s, wanted, score, i),
        is_best(s, wanted, score, j),
    ensures
        i == j,
{
}

/// Where the container's mark is followed and a track carries it, only a
/// marked track is chosen, whatever the languages.
pub proof fn law_a_marked_track_beats_the_language(
    s: Seq<StreamFacts>,
    prefs: Seq<Seq<char>>,
    r: Option<u32>,
)
    requires
        has_default(s),
        picks(r, s, audio_wanted(s, true), by_score(prefs)),
    ensures
        exists|i: int| 0 <= i < s.len() && (#[trigger] s[i]).is_default && r == Some(s[i].index),
{
    let k = choose|k: int| 0 <= k < s.len() && (#[trigger] s[k]).is_default;
    assert(marked_default()(s[k]));
    match r {
        Some(x) => {
            let i = choose|i: int| #[trigger]
                is_best(s, marked_default(), by_score(prefs), i) && s[i].index == x;
            assert(marked_default()(s[i]));
        },
        None => {},
    }
}

// ---------------------------------------------------------- laws of languages

/// Whether a text is a code of some language of the table.
pub open spec fn known_code(s: Seq<char>) -> bool {
    exists|i: int| 0 <= i < language_table().len() && #[trigger] row_of(s)(language_table()[i])
}

/// Two or three letters in lower case.
spec fn is_code(s: Seq<char>) -> bool {
    2 <= s.len() <= 3 && forall|i: int| 0 <= i < s.len() ==> 'a' <= #[trigger] s[i] <= 'z'
}

/// A code as a number: a byte for each letter.
spec fn code_number(s: Seq<char>) -> int {
    s[0] as int * 0x10000 + s[1] as int * 0x100 + (if s.len() >= 3 {
        s[2] as int
    } else {
        0
    })
}

/// The row that a code stands in, by its number.
spec fn row_by_number(k: int) -> int {
    if k == 0x656e00 || k == 0x656e67 {
        0
    } else if k == 0x6a6100 || k == 0x6a706e {
        1
    } else if k == 0x646500 || k == 0x646575 || k == 0x676572 {
        2
    } else if k == 0x667200 || k == 0x667261 || k == 0x667265 {
        3
    } else if k == 0x657300 || k == 0x737061 {
        4
    } else if k == 0x697400 || k == 0x697461 {
        5
    } else if k == 0x707400 || k == 0x706f72 {
        6
    } else if k == 0x727500 || k == 0x727573 {
        7
    } else if k == 0x756b00 || k == 0x756b72 {
        8
    } else if k == 0x706c00 || k == 0x706f6c {
        9
    } else if k == 0x6e6c00 || k == 0x6e6c64 || k == 0x647574 {
        10
    } else if k == 0x737600 || k == 0x737765 {
        11
    } else if k == 0x646100 || k == 0x64616e {
        12
    } else if k == 0x6e6f00 || k == 0x6e6f72 {
        13
    } else if k == 0x666900 || k == 0x66696e {
        14
    } else if k == 0x637300 || k == 0x636573 || k == 0x637a65 {
        15
    } else if k == 0x687500 || k == 0x68756e {
        16
    } else if k == 0x747200 || k == 0x747572 {
        17
    } else if k == 0x617200 || k == 0x617261 {
        18
    } else if k == 0x686500 || k == 0x686562 {
        19
    } else if k == 0x686900 || k == 0x68696e {
        20
    } else if k == 0x6b6f00 || k == 0x6b6f72 {
        21
    } else if k == 0x7a6800 || k == 0x7a686f || k == 0x636869 {
        22
    } else {
        23
    }
}

proof fn lemma_row(i: int)
    requires
        0 <= i < language_table().len(),
    ensures
        ({
            let r = language_table()[i];
            &&& is_code(r.0) && is_code(r.1) && is_code(r.2)
            &&& r.0.len() == 2 && r.1.len() == 3 && r.2.len() == 3
            &&& row_by_number(code_number(r.0)) == i
            &&& row_by_number(code_number(r.1)) == i
            &&& row_by_number(code_number(r.2)) == i
        }),
{
    if i == 0 {
        reveal_strlit("en");
        reveal_strlit("eng");
    } else if i == 1 {
        reveal_strlit("ja");
        reveal_strlit("jpn");
    } else if i == 2 {
        reveal_strlit("de");
        reveal_strlit("deu");
        reveal_strlit("ger");
    } else if i == 3 {
        reveal_strlit("fr");
        reveal_strlit("fra");
        reveal_strlit("fre");
    } else if i == 4 {
        reveal_strlit("es");
        reveal_strlit("spa");
    } else if i == 5 {
        reveal_strlit("it");
        reveal_strlit("ita");
    } else if i == 6 {
        reveal_strlit("pt");
        reveal_strlit("por");
    } else if i == 7 {
        reveal_strlit("ru");
        reveal_strlit("rus");
    } else if i == 8 {
        reveal_strlit("uk");
        reveal_strlit("ukr");
    } else if i == 9 {
        reveal_strlit("pl");
        reveal_strlit("pol");
    } else if i == 10 {
        reveal_strlit("nl");
        reveal_strlit("nld");
        reveal_strlit("dut");
    } else if i == 11 {
        reveal_strlit("sv");
        reveal_strlit("swe");
    } else if i == 12 {
        reveal_strlit("da");
        reveal_strlit("dan");
    } else if i == 13 {
        reveal_strlit("no");
        reveal_strlit("nor");
    } else if i == 14 {
        reveal_strlit("fi");
        reveal_strlit("fin");
    } else if i == 15 {
        reveal_strlit("cs");
        reveal_strlit("ces");
        reveal_strlit("cze");
    } else if i == 16 {
        reveal_strlit("hu");
        reveal_strlit("hun");
    } else if i == 17 {
        reveal_strlit("tr");
        reveal_strlit("tur");
    } else if i == 18 {
        reveal_strlit("ar");
        reveal_strlit("ara");
    } else if i == 19 {
        reveal_strlit("he");
        reveal_strlit("heb");
    } else if i == 20 {
        reveal_strlit("hi");
        reveal_strlit("hin");
    } else if i == 21 {
        reveal_strlit("ko");
        reveal_strlit("kor");
    } else if i == 22 {
        reveal_strlit("zh");
        reveal_strlit("zho");
        reveal_strlit("chi");
    }
}

/// A code stands in one row only.
proof fn lemma_one_row(s: Seq<char>, i: int)
    requires
        0 <= i < language_table().len(),
        row_of(s)(language_table()[i]),
    ensures
        is_code(s),
        seqs::first_such(language_table(), row_of(s)) == Some(language_table()[i]),
{
    lemma_row(i);
    assert forall|k: int| 0 <= k < i implies !row_of(s)(#[trigger] language_table()[k]) by {
        lemma_row(k);
    }
    seqs::lemma_first_such(language_table(), row_of(s), i);
}

/// A code is its own base.
proof fn lemma_code_is_plain(s: Seq<char>)
    requires
        is_code(s),
    ensures
        text::lower(text::trim(s)) == s,
        base_tag(s) == s,
{
    assert('a' <= s[0] <= 'z' && 'a' <= s.last() <= 'z');
    text::lemma_trim_keeps(s, s.len() as int);
    assert(text::trim(s) =~= s);
    assert(text::lower(s) =~= s);
    text::lemma_find_char(s, '-', s.len() as int);
    text::lemma_find_char(s, '_', s.len() as int);
    assert(s.subrange(0, s.len() as int) =~= s);
}

/// What a known code, in whatever case, looks like.
proof fn lemma_code_letters(b: Seq<char>)
    requires
        is_code(text::lower(b)),
    ensures
        forall|i: int|
            0 <= i < b.len() ==> !text::is_white(#[trigger] b[i]) && b[i] != '-' && b[i] != '_',
{
    assert forall|i: int| 0 <= i < b.len() implies !text::is_white(#[trigger] b[i]) && b[i] != '-'
        && b[i] != '_' by {
        assert(text::lower(b)[i] == text::lower_char(b[i]));
        assert('a' <= text::lower(b)[i] <= 'z');
    }
}

/// The tags of a row.
spec fn row_tags(r: (Seq<char>, Seq<char>, Seq<char>)) -> Seq<Seq<char>> {
    if r.1 == r.2 {
        seq![r.0, r.1]
    } else {
        seq![r.0, r.1, r.2]
    }
}

proof fn lemma_tags_of_known(b: Seq<char>, i: int)
    requires
        0 <= i < language_table().len(),
        row_of(text::lower(b))(language_table()[i]),
    ensures
        tags_of(b) == row_tags(language_table()[i]),
{
    let p = text::lower(b);
    lemma_one_row(p, i);
    lemma_code_letters(b);
    assert(b.len() == p.len());
    assert(!text::is_white(b[0]) && !text::is_white(b[b.len() - 1]));
    text::lemma_trim_keeps(b, b.len() as int);
    assert(text::trim(b) =~= b);
    lemma_code_is_plain(p);
}

/// A region changes nothing: a known code with one is matched by the tags that
/// the code alone is matched by.
pub proof fn law_a_region_changes_nothing(b: Seq<char>, mark: char, region: Seq<char>)
    requires
        known_code(text::lower(b)),
        mark == '-' || mark == '_',
    ensures
        tags_of(b + seq![mark] + region) == tags_of(b),
{
    let c = text::lower(b);
    let i = choose|i: int|
        0 <= i < language_table().len() && #[trigger] row_of(c)(language_table()[i]);
    lemma_tags_of_known(b, i);
    lemma_one_row(c, i);
    lemma_code_letters(b);
    let n = b.len() as int;
    let s = b + seq![mark] + region;
    assert(s[0] == b[0] && s[n] == mark);
    assert(!text::is_white(s[0]) && !text::is_white(s[n]));
    text::lemma_trim_keeps(s, n + 1);
    let t = text::trim(s);
    assert(t =~= s.take(t.len() as int));
    assert(t[n] == mark);
    let p = text::lower(t);
    assert(p[n] == mark);
    assert forall|k: int| 0 <= k < n implies p[k] == #[trigger] c[k] by {
        assert(t[k] == b[k]);
    }
    assert forall|k: int| 0 <= k < n implies p[k] != '-' && p[k] != '_' by {
        assert('a' <= c[k] <= 'z');
    }
    text::lemma_find_char(p, mark, n);
    let other = if mark == '-' {
        '_'
    } else {
        '-'
    };
    text::lemma_find_char_bounds(p, other);
    assert(text::find_char(p, other) > n) by {
        let f = text::find_char(p, other);
        if f < n {
            assert(p[f] == other);
        } else if f == n {
            assert(p[f] == other);
        }
    }
    assert(base_tag(p) =~= c);
}

/// A language is one row of tags: the code that it was asked for by stands in
/// it, and each of its tags gives the same row.
pub proof fn law_a_language_is_one_row_of_tags(b: Seq<char>, t: Seq<char>)
    requires
        known_code(text::lower(b)),
    ensures
        tags_of(b).contains(text::lower(b)),
        tags_of(b).contains(t) ==> tags_of(t) == tags_of(b),
{
    let c = text::lower(b);
    let i = choose|i: int|
        0 <= i < language_table().len() && #[trigger] row_of(c)(language_table()[i]);
    let r = language_table()[i];
    lemma_tags_of_known(b, i);
    let tags = row_tags(r);
    if c == r.0 {
        assert(tags[0] == c);
    } else if c == r.1 {
        assert(tags[1] == c);
    } else {
        assert(tags[2] == c);
    }
    if tags.contains(t) {
        assert(row_of(t)(r));
        lemma_one_row(t, i);
        assert(text::lower(t) =~= t);
        lemma_tags_of_known(t, i);
    }
}

/// No tag of a language occurs twice, and only a blank text has none.
pub proof fn law_only_a_blank_language_has_no_tags(p: Seq<char>)
    ensures
        tags_of(p).no_duplicates(),
        tags_of(p).len() == 0 <==> text::trim(p).len() == 0,
{
    let low = text::lower(text::trim(p));
    let base = base_tag(low);
    seqs::lemma_first_such_member(language_table(), row_of(base));
    match seqs::first_such(language_table(), row_of(base)) {
        Some(r) => {
            let i = choose|i: int| 0 <= i < language_table().len() && language_table()[i] == r;
            lemma_row(i);
        },
        None => {},
    }
}

// ---------------------------------------------------------- laws of selection

/// Whether a track says that it is in one of the languages.
pub open spec fn says_one_of(f: StreamFacts, prefs: Seq<Seq<char>>) -> bool {
    f.language is Some && exists|k: int|
        0 <= k < prefs.len() && text::lower(#[trigger] prefs[k]) == text::lower(f.language->0@)
}

/// Whether a track does not say which language it is in.
pub open spec fn says_no_language(f: StreamFacts) -> bool {
    f.language is None || {
        let l = text::lower(text::trim(f.language->0@));
        l.len() == 0 || l == "und"@ || l == "unknown"@ || l == "undetermined"@ || l == "mul"@ || l
            == "zxx"@
    }
}

/// Whether a viewer with these preferences can read a track.
pub open spec fn can_read(f: StreamFacts, prefs: Seq<Seq<char>>) -> bool {
    prefs.len() == 0 || says_one_of(f, prefs)
}

proof fn lemma_can_read(f: StreamFacts, prefs: Seq<Seq<char>>)
    ensures
        preferred(text::opt_text(f.language), prefs) == can_read(f, prefs),
        undefined(text::opt_text(f.language)) == says_no_language(f),
{
    if says_one_of(f, prefs) {
        let k = choose|k: int|
            0 <= k < prefs.len() && text::lower(#[trigger] prefs[k]) == text::lower(
                f.language->0@,
            );
        assert(language_is(prefs[k], text::opt_text(f.language)));
    }
    if language_among(prefs, text::opt_text(f.language)) {
        let k = choose|k: int|
            0 <= k < prefs.len() && language_is(#[trigger] prefs[k], text::opt_text(f.language));
        assert(text::lower(prefs[k]) == text::lower(f.language->0@));
    }
    if f.language is Some {
        let t = text::trim(f.language->0@);
        assert(text::lower(t).len() == t.len());
        let l = text::lower(t);
        let u = undefined_names();
        assert(u[0] == "und"@ && u[1] == "unknown"@ && u[2] == "undetermined"@ && u[3] == "mul"@
            && u[4] == "zxx"@);
        if u.contains(l) {
            let k = choose|k: int| 0 <= k < u.len() && u[k] == l;
        }
    }
}

/// In the default mode the track that is shown is one that was put there to be
/// shown: a file beside the media before a track with the default mark, and
/// that before a forced one. Nothing is shown exactly where there is no such
/// track.
pub proof fn law_the_default_mode_follows_the_marks(
    r: Option<u32>,
    s: Seq<StreamFacts>,
    prefs: Seq<Seq<char>>,
    audio_language: Option<Seq<char>>,
)
    requires
        subtitle_pick(r, s, prefs, SubtitleMode::Default, audio_language),
    ensures
        r is None <==> forall|i: int|
            0 <= i < s.len() ==> !(#[trigger] s[i]).is_external && !s[i].is_default
                && !s[i].is_forced,
        r matches Some(x) ==> exists|i: int|
            0 <= i < s.len() && (#[trigger] s[i]).index == x && {
                ||| s[i].is_external
                ||| s[i].is_default && forall|j: int|
                    0 <= j < s.len() ==> !(#[trigger] s[j]).is_external
                ||| s[i].is_forced && forall|j: int|
                    0 <= j < s.len() ==> !(#[trigger] s[j]).is_external && !s[j].is_default
            },
{
    match r {
        Some(x) => {
            let i = choose|i: int| #[trigger]
                is_best(s, marked(), ranked(prefs, false), i) && s[i].index == x;
            assert(marked()(s[i]));
            assert forall|j: int| 0 <= j < s.len() && (#[trigger] s[j]).is_external implies
                s[i].is_external by {
                assert(marked()(s[j]));
            }
            assert forall|j: int| 0 <= j < s.len() && (#[trigger] s[j]).is_default implies
                s[i].is_external || s[i].is_default by {
                assert(marked()(s[j]));
            }
        },
        None => {
            assert forall|i: int| 0 <= i < s.len() implies !(#[trigger] s[i]).is_external
                && !s[i].is_default && !s[i].is_forced by {
                assert(!marked()(s[i]));
            }
        },
    }
}

/// Of two tracks the one further up stands outside the file, or has the default
/// mark, or is a full one that the viewer can read, or a forced one that they
/// can read, or a forced one that states no language, or is forced: the first of
/// these in which the two differ decides.
pub proof fn law_subtitles_have_an_order(f: StreamFacts, g: StreamFacts, prefs: Seq<Seq<char>>)
    ensures
        f.is_external && !g.is_external ==> subtitle_rank(f, prefs) > subtitle_rank(g, prefs),
        f.is_external == g.is_external && f.is_default && !g.is_default ==> subtitle_rank(f, prefs)
            > subtitle_rank(g, prefs),
        f.is_external == g.is_external && f.is_default == g.is_default && !f.is_forced && can_read(
            f,
            prefs,
        ) && (g.is_forced || !can_read(g, prefs)) ==> subtitle_rank(f, prefs) > subtitle_rank(
            g,
            prefs,
        ),
        f.is_external == g.is_external && f.is_default == g.is_default && f.is_forced && can_read(
            f,
            prefs,
        ) && !can_read(g, prefs) ==> subtitle_rank(f, prefs) > subtitle_rank(g, prefs),
        f.is_external == g.is_external && f.is_default == g.is_default && f.is_forced && !can_read(
            f,
            prefs,
        ) && says_no_language(f) && !can_read(g, prefs) && !(g.is_forced && says_no_language(g))
            ==> subtitle_rank(f, prefs) > subtitle_rank(g, prefs),
        f.is_external == g.is_external && f.is_default == g.is_default && f.is_forced
            && !g.is_forced && !can_read(g, prefs) ==> subtitle_rank(f, prefs) > subtitle_rank(
            g,
            prefs,
        ),
{
    lemma_can_read(f, prefs);
    lemma_can_read(g, prefs);
}

/// Where only forced tracks are shown, the one that is shown is forced and in a
/// language that the viewer can read, or in none that it states; one that they
/// can read goes first. Nothing is shown exactly where there is no such track.
pub proof fn law_only_forced_tracks_are_shown(
    r: Option<u32>,
    s: Seq<StreamFacts>,
    prefs: Seq<Seq<char>>,
    audio_language: Option<Seq<char>>,
)
    requires
        subtitle_pick(r, s, prefs, SubtitleMode::OnlyForced, audio_language),
    ensures
        r is None <==> forall|i: int|
            0 <= i < s.len() && (#[trigger] s[i]).is_forced ==> !can_read(s[i], prefs)
                && !says_no_language(s[i]),
        r matches Some(x) ==> exists|i: int|
            0 <= i < s.len() && (#[trigger] s[i]).index == x && s[i].is_forced && {
                ||| can_read(s[i], prefs)
                ||| says_no_language(s[i]) && forall|j: int|
                    0 <= j < s.len() && (#[trigger] s[j]).is_forced ==> !can_read(s[j], prefs)
            },
{
    assert forall|i: int| 0 <= i < s.len() implies forced_only(prefs)(#[trigger] s[i]) == (
    s[i].is_forced && (can_read(s[i], prefs) || says_no_language(s[i]))) by {
        lemma_can_read(s[i], prefs);
    }
    match r {
        Some(x) => {
            let i = choose|i: int| #[trigger]
                is_best(s, forced_only(prefs), ranked(prefs, true), i) && s[i].index == x;
            assert(forced_only(prefs)(s[i]));
            lemma_can_read(s[i], prefs);
            assert forall|j: int|
                0 <= j < s.len() && (#[trigger] s[j]).is_forced && can_read(s[j], prefs) implies
                can_read(s[i], prefs) by {
                lemma_can_read(s[j], prefs);
                assert(forced_only(prefs)(s[j]));
            }
        },
        None => {
            assert forall|i: int| 0 <= i < s.len() && (#[trigger] s[i]).is_forced implies !can_read(
                s[i],
                prefs,
            ) && !says_no_language(s[i]) by {
                assert(!forced_only(prefs)(s[i]));
            }
        },
    }
}

/// The smart mode shows forced tracks only where the audio is in a language that
/// the viewer prefers. Else it shows a track that they can read, wherever there
/// is one, and a file beside the media before any other.
pub proof fn law_the_smart_mode_listens(
    r: Option<u32>,
    s: Seq<StreamFacts>,
    prefs: Seq<Seq<char>>,
    audio_language: Option<Seq<char>>,
)
    requires
        subtitle_pick(r, s, prefs, SubtitleMode::Smart, audio_language),
    ensures
        audio_language is Some && (exists|k: int|
            0 <= k < prefs.len() && text::lower(#[trigger] prefs[k]) == text::lower(
                audio_language->0,
            )) ==> subtitle_pick(r, s, prefs, SubtitleMode::OnlyForced, audio_language),
        audio_language is None || (forall|k: int|
            0 <= k < prefs.len() ==> text::lower(#[trigger] prefs[k]) != text::lower(
                audio_language->0,
            )) ==> {
            &&& r is None <==> forall|i: int|
                0 <= i < s.len() ==> !can_read(#[trigger] s[i], prefs)
            &&& r matches Some(x) ==> exists|i: int|
                0 <= i < s.len() && (#[trigger] s[i]).index == x && can_read(s[i], prefs) && (
                s[i].is_external || forall|j: int|
                    0 <= j < s.len() && can_read(#[trigger] s[j], prefs) ==> !s[j].is_external)
        },
{
    if audio_language is Some && exists|k: int|
        0 <= k < prefs.len() && text::lower(#[trigger] prefs[k]) == text::lower(
            audio_language->0,
        ) {
        let k = choose|k: int|
            0 <= k < prefs.len() && text::lower(#[trigger] prefs[k]) == text::lower(
                audio_language->0,
            );
        assert(language_is(prefs[k], audio_language));
    } else {
        assert(!language_among(prefs, audio_language));
        assert forall|i: int| 0 <= i < s.len() implies in_language(prefs)(#[trigger] s[i])
            == can_read(s[i], prefs) by {
            lemma_can_read(s[i], prefs);
        }
        match r {
            Some(x) => {
                let i = choose|i: int| #[trigger]
                    is_best(s, in_language(prefs), ranked(prefs, false), i) && s[i].index == x;
                assert(in_language(prefs)(s[i]));
                assert forall|j: int|
                    0 <= j < s.len() && can_read(#[trigger] s[j], prefs) && s[j].is_external implies
                    s[i].is_external by {
                    assert(in_language(prefs)(s[j]));
                    law_subtitles_have_an_order(s[j], s[i], prefs);
                }
            },
            None => {
                assert forall|i: int| 0 <= i < s.len() implies !can_read(#[trigger] s[i], prefs) by {
                    assert(!in_language(prefs)(s[i]));
                }
            },
        }
    }
}

/// Where subtitles are always shown, a full track that the viewer can read is,
/// wherever there is one; else it goes as where only forced ones are shown.
pub proof fn law_subtitles_are_always_shown(
    r: Option<u32>,
    s: Seq<StreamFacts>,
    prefs: Seq<Seq<char>>,
    audio_language: Option<Seq<char>>,
)
    requires
        subtitle_pick(r, s, prefs, SubtitleMode::Always, audio_language),
    ensures
        (exists|i: int|
            0 <= i < s.len() && !(#[trigger] s[i]).is_forced && can_read(s[i], prefs)) ==> exists|
            i: int,
        |
            0 <= i < s.len() && r == Some((#[trigger] s[i]).index) && !s[i].is_forced && can_read(
                s[i],
                prefs,
            ),
        (forall|i: int|
            0 <= i < s.len() && !(#[trigger] s[i]).is_forced ==> !can_read(s[i], prefs))
            ==> subtitle_pick(r, s, prefs, SubtitleMode::OnlyForced, audio_language),
{
    let full = full_in_language(prefs);
    assert forall|i: int| 0 <= i < s.len() implies full(#[trigger] s[i]) == (!s[i].is_forced
        && can_read(s[i], prefs)) by {
        lemma_can_read(s[i], prefs);
    }
    if exists|i: int| 0 <= i < s.len() && !(#[trigger] s[i]).is_forced && can_read(s[i], prefs) {
        let k = choose|i: int|
            0 <= i < s.len() && !(#[trigger] s[i]).is_forced && can_read(s[i], prefs);
        assert(full(s[k]));
        assert(some_wanted(s, full));
        let x = r->0;
        let i = choose|i: int| #[trigger]
            is_best(s, full, ranked(prefs, false), i) && s[i].index == x;
        assert(full(s[i]));
    } else {
        assert(!some_wanted(s, full));
    }
}

/// Where subtitles are off, none is shown.
pub proof fn law_no_subtitles_where_they_are_off(
    r: Option<u32>,
    s: Seq<StreamFacts>,
    prefs: Seq<Seq<char>>,
    audio_language: Option<Seq<char>>,
)
    requires
        subtitle_pick(r, s, prefs, SubtitleMode::Off, audio_language),
    ensures
        r is None,
{
}

proof fn lemma_rank_found(prefs: Seq<Seq<char>>, language: Option<Seq<char>>)
    ensures
        rank(prefs, language) matches Some(p) ==> 0 <= p < prefs.len() && language_is(
            prefs[p],
            language,
        ) && forall|q: int| 0 <= q < p ==> !language_is(#[trigger] prefs[q], language),
        rank(prefs, language) is None ==> forall|q: int|
            0 <= q < prefs.len() ==> !language_is(#[trigger] prefs[q], language),
    decreases prefs.len(),
{
    if prefs.len() > 0 && !language_is(prefs[0], language) {
        let t = prefs.subrange(1, prefs.len() as int);
        lemma_rank_found(t, language);
        assert forall|q: int| 1 <= q < prefs.len() implies #[trigger] prefs[q] == t[q - 1] by {}
        if let Some(p) = rank(t, language) {
            assert(prefs[p + 1] == t[p]);
            assert forall|q: int| 0 <= q < p + 1 implies !language_is(
                #[trigger] prefs[q],
                language,
            ) by {
                if q > 0 {
                    assert(prefs[q] == t[q - 1]);
                }
            }
        }
    }
}

/// There is an audio track to start with wherever there is one at all. Unless
/// the default mark goes first, it is in the language furthest up the
/// preferences, and among tracks in one language a forced one goes first, then
/// one with the default mark.
pub proof fn law_audio_is_in_the_preferred_language(
    r: Option<u32>,
    s: Seq<StreamFacts>,
    prefs: Seq<Seq<char>>,
    prefer_default: bool,
)
    requires
        picks(r, s, audio_wanted(s, prefer_default), by_score(prefs)),
    ensures
        r is None <==> s.len() == 0,
        !prefer_default && r is Some ==> exists|i: int|
            0 <= i < s.len() && r == Some((#[trigger] s[i]).index) && (forall|j: int, p: int|
                0 <= j < s.len() && 0 <= p < prefs.len() && p < 100 && (
                #[trigger] s[j]).language is Some && text::lower(s[j].language->0@) == text::lower(
                    #[trigger] prefs[p],
                ) ==> s[i].language is Some && exists|p2: int|
                    0 <= p2 <= p && text::lower(#[trigger] prefs[p2]) == text::lower(
                        s[i].language->0@,
                    )) && (forall|j: int|
                0 <= j < s.len() && text::opt_text((#[trigger] s[j]).language) == text::opt_text(
                    s[i].language,
                ) && s[j].is_forced ==> s[i].is_forced) && (forall|j: int|
                0 <= j < s.len() && text::opt_text((#[trigger] s[j]).language) == text::opt_text(
                    s[i].language,
                ) && s[j].is_forced == s[i].is_forced && s[j].is_default ==> s[i].is_default),
{
    let wanted = audio_wanted(s, prefer_default);
    if s.len() > 0 {
        if has_default(s) {
            let k = choose|k: int| 0 <= k < s.len() && (#[trigger] s[k]).is_default;
            assert(wanted(s[k]));
        } else {
            assert(wanted(s[0]));
        }
    }
    if !prefer_default && r is Some {
        let i = choose|i: int| #[trigger]
            is_best(s, wanted, by_score(prefs), i) && s[i].index == r->0;
        let li = text::opt_text(s[i].language);
        lemma_rank_found(prefs, li);
        assert forall|j: int, p: int|
            0 <= j < s.len() && 0 <= p < prefs.len() && p < 100 && (
            #[trigger] s[j]).language is Some && text::lower(s[j].language->0@) == text::lower(
                #[trigger] prefs[p],
            ) implies s[i].language is Some && exists|p2: int|
            0 <= p2 <= p && text::lower(#[trigger] prefs[p2]) == text::lower(
                s[i].language->0@,
            ) by {
            let lj = text::opt_text(s[j].language);
            lemma_rank_found(prefs, lj);
            assert(language_is(prefs[p], lj));
            assert(wanted(s[j]));
            let pj = rank(prefs, lj)->0;
            if rank(prefs, li) is None || rank(prefs, li)->0 > p {
                law_language_outranks_the_flags(s[j], s[i], prefs, pj);
            }
            let p2 = rank(prefs, li)->0;
            assert(language_is(prefs[p2], li));
            assert(text::lower(prefs[p2]) == text::lower(s[i].language->0@));
        }
        assert forall|j: int|
            0 <= j < s.len() && text::opt_text((#[trigger] s[j]).language) == li
                && s[j].is_forced implies s[i].is_forced by {
            assert(wanted(s[j]));
        }
        assert forall|j: int|
            0 <= j < s.len() && text::opt_text((#[trigger] s[j]).language) == li && s[j].is_forced
                == s[i].is_forced && s[j].is_default implies s[i].is_default by {
            assert(wanted(s[j]));
        }
    }
}

/// The names of the modes, in any case and with white space around them; any
/// other text is the default.
pub proof fn law_modes_have_names(s: Seq<char>)
    ensures
        mode_named(s) == SubtitleMode::Always <==> text::eq_ci(text::trim(s), "Always"@),
        mode_named(s) == SubtitleMode::OnlyForced <==> text::eq_ci(text::trim(s), "OnlyForced"@),
        mode_named(s) == SubtitleMode::Off <==> text::eq_ci(text::trim(s), "None"@),
        mode_named(s) == SubtitleMode::Smart <==> text::eq_ci(text::trim(s), "Smart"@),
{
    reveal_strlit("always");
    reveal_strlit("Always");
    reveal_strlit("onlyforced");
    reveal_strlit("OnlyForced");
    reveal_strlit("none");
    reveal_strlit("None");
    reveal_strlit("smart");
    reveal_strlit("Smart");
    assert(text::lower("Always"@) =~= "always"@);
    assert(text::lower("OnlyForced"@) =~= "onlyforced"@);
    assert(text::lower("None"@) =~= "none"@);
    assert(text::lower("Smart"@) =~= "smart"@);
    let m = text::lower(text::trim(s));
    assert(m == "always"@ ==> m[0] == 'a');
    assert(m == "onlyforced"@ ==> m[0] == 'o');
    assert(m == "none"@ ==> m[0] == 'n');
    assert(m == "smart"@ ==> m[0] == 's');
}

} // verus!
