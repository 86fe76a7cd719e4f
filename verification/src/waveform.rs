//! Waveforms: how loud a track is from start to end.

use vstd::prelude::*;
use vstd::string::*;
use crate::answer::{ApiError, Refusal};
use crate::lines::{self, cut_by_text, split_lines};
use crate::media::MediaKind;
use crate::query_string::{self, read_pairs, Pair};
use crate::text::{self, char_is_white, chars_of, decimal_text, eq_ignore_case, parse_u32, slice_text, trimmed_start};

verus! {

// ------------------------------------------------------------------------ bins

/// How many readings a waveform has where the client does not say.
pub const DEFAULT_BINS: u32 = 256;

/// The most readings that a waveform has.
pub const MAX_BINS: u32 = 2048;

/// The number of readings that the pairs ask for: the first that is a number.
pub open spec fn bins_in(pairs: Seq<Pair>) -> int
    decreases pairs.len(),
{
    if pairs.len() == 0 {
        DEFAULT_BINS as int
    } else if text::eq_ci(pairs[0].0, "bins"@) && text::parse_unsigned(
        pairs[0].1,
        u32::MAX as int,
    ) is Some {
        text::parse_unsigned(pairs[0].1, u32::MAX as int)->0
    } else {
        bins_in(pairs.subrange(1, pairs.len() as int))
    }
}

/// The number of readings that a query string asks for.
pub fn parse_bins(qs: &str) -> (r: u32)
    ensures
        r == bins_in(query_string::pairs(qs@)),
{
    let pairs = read_pairs(qs);
    let ghost views = query_string::pairs(qs@);
    let mut i: usize = 0;
    proof {
        assert(views.subrange(0, views.len() as int) =~= views);
        assert(query_string::pair_views(pairs@).len() == pairs@.len());
    }
    while i < pairs.len()
        invariant
            i <= pairs@.len(),
            views == query_string::pairs(qs@),
            query_string::pair_views(pairs@) == views,
            views.len() == pairs@.len(),
            bins_in(views) == bins_in(views.subrange(i as int, views.len() as int)),
        decreases pairs@.len() - i,
    {
        proof {
            let rest = views.subrange(i as int, views.len() as int);
            assert(rest[0] == views[i as int]);
            assert(query_string::pair_views(pairs@)[i as int] == (
                pairs@[i as int].0@,
                pairs@[i as int].1@,
            ));
            assert(rest.subrange(1, rest.len() as int) =~= views.subrange(
                i + 1,
                views.len() as int,
            ));
        }
        if eq_ignore_case(pairs[i].0.as_str(), "bins") {
            if let Some(n) = parse_u32(pairs[i].1.as_str()) {
                return n;
            }
        }
        i += 1;
    }
    DEFAULT_BINS
}

/// What a waveform is made with.
#[derive(Debug, Clone, Copy, PartialEq, Eq, Structural)]
pub struct WaveformPlan {
    pub duration_ms: u64,
    pub bins: u32,
    pub samples_per_bin: u64,
}

/// A number of readings within the limits.
pub open spec fn clamped(n: int) -> int {
    if n < 8 {
        8
    } else if n > MAX_BINS {
        MAX_BINS as int
    } else {
        n
    }
}

/// How many samples a track has, as far as the counter goes.
pub open spec fn sample_count(duration_ms: u64, rate: u32) -> int {
    (if duration_ms * rate <= u64::MAX {
        duration_ms * rate
    } else {
        u64::MAX as int
    }) / 1000
}

/// How many samples go into a reading: an equal part of the track, and at least
/// one.
pub open spec fn bin_width(duration_ms: u64, rate: u32, bins: int) -> int {
    let n = sample_count(duration_ms, rate) / bins;
    if n >= 1 {
        n
    } else {
        1
    }
}

/// What a waveform of an item is made with. Only music has one, and only where
/// its length is known.
pub fn plan_waveform(
    kind: MediaKind,
    duration_ms: Option<u64>,
    sample_rate: Option<u32>,
    qs: &str,
) -> (r: Result<WaveformPlan, ApiError>)
    ensures
        match r {
            Ok(p) => {
                &&& kind == MediaKind::Audio
                &&& duration_ms is Some && duration_ms->0 > 0 && p.duration_ms == duration_ms->0
                &&& p.bins == clamped(bins_in(query_string::pairs(qs@)))
                &&& p.samples_per_bin == bin_width(
                    p.duration_ms,
                    if sample_rate is Some {
                        sample_rate->0
                    } else {
                        44_100
                    },
                    p.bins as int,
                )
            },
            Err(e) => if kind != MediaKind::Audio {
                e.says(Refusal::BadRequest, "waveform only available for Audio items"@)
            } else {
                (duration_ms is None || duration_ms->0 == 0) && e.says(
                    Refusal::BadRequest,
                    "unknown duration; cannot bin"@,
                )
            },
        },
{
    if !matches!(kind, MediaKind::Audio) {
        return Err(ApiError::BadRequest("waveform only available for Audio items".to_owned()));
    }
    let duration: u64 = match duration_ms {
        Some(d) => d,
        None => 0,
    };
    if duration == 0 {
        return Err(ApiError::BadRequest("unknown duration; cannot bin".to_owned()));
    }
    let asked: u32 = parse_bins(qs);
    let bins: u32 = if asked < 8 {
        8
    } else if asked > MAX_BINS {
        MAX_BINS
    } else {
        asked
    };
    let rate: u32 = match sample_rate {
        Some(n) => n,
        None => 44_100,
    };
    proof {
        assert(duration as u128 * rate as u128 <= 0xffff_ffff_ffff_ffff * 0xffff_ffff)
            by (nonlinear_arith)
            requires
                duration <= 0xffff_ffff_ffff_ffff,
                rate <= 0xffff_ffff,
        ;
    }
    let product: u128 = duration as u128 * rate as u128;
    let samples: u64 = if product <= u64::MAX as u128 {
        product as u64
    } else {
        u64::MAX
    };
    let width: u64 = samples / 1000 / (bins as u64);
    Ok(
        WaveformPlan {
            duration_ms: duration,
            bins,
            samples_per_bin: if width >= 1 {
                width
            } else {
                1
            },
        },
    )
}

/// The filter that measures a track in windows of some samples.
pub fn astats_filter(samples_per_bin: u64) -> (r: String)
    ensures
        r@ == "aresample=async=1,aformat=channel_layouts=mono,asetnsamples="@ + text::decimal(
            samples_per_bin as nat,
        )
            + ",astats=metadata=1:reset=1,ametadata=print:key=lavfi.astats.Overall.RMS_level"@,
{
    let mut out: String =
        "aresample=async=1,aformat=channel_layouts=mono,asetnsamples=".to_owned();
    out.append(decimal_text(samples_per_bin).as_str());
    out.append(",astats=metadata=1:reset=1,ametadata=print:key=lavfi.astats.Overall.RMS_level");
    out
}

// -------------------------------------------------------------------- readings

/// How many characters stand before the first white space.
pub open spec fn word_len(s: Seq<char>) -> int
    decreases s.len(),
{
    if s.len() == 0 || text::is_white(s[0]) {
        0
    } else {
        1 + word_len(s.subrange(1, s.len() as int))
    }
}

/// The first word of a text, and nothing where there is none.
pub open spec fn first_word(s: Seq<char>) -> Seq<char> {
    let t = text::trim_start(s);
    t.take(word_len(t))
}

proof fn lemma_word_len(s: Seq<char>, n: int)
    requires
        0 <= n <= s.len(),
        forall|k: int| 0 <= k < n ==> !text::is_white(#[trigger] s[k]),
        n < s.len() ==> text::is_white(s[n]),
    ensures
        word_len(s) == n,
    decreases s.len(),
{
    if n > 0 {
        let t = s.subrange(1, s.len() as int);
        assert(!text::is_white(s[0]));
        assert forall|k: int| 0 <= k < n - 1 implies !text::is_white(#[trigger] t[k]) by {
            assert(t[k] == s[k + 1]);
        }
        lemma_word_len(t, n - 1);
    }
}

fn word_at_start(s: &str) -> (r: String)
    ensures
        r@ == first_word(s@),
{
    let t = trimmed_start(s);
    let v = chars_of(t.as_str());
    let mut n: usize = 0;
    while n < v.len() && !char_is_white(v[n])
        invariant
            n <= v@.len(),
            v@ == t@,
            forall|k: int| 0 <= k < n ==> !text::is_white(#[trigger] t@[k]),
        decreases v@.len() - n,
    {
        n += 1;
    }
    proof {
        lemma_word_len(t@, n as int);
        assert(t@.subrange(0, n as int) =~= t@.take(n as int));
    }
    slice_text(v.as_slice(), 0, n)
}

/// The reading on a line, if it has one.
pub open spec fn reading_on(line: Seq<char>) -> Option<Seq<char>> {
    match lines::cut_by(line, "RMS_level="@) {
        Some((_, tail)) => Some(first_word(tail)),
        None => None,
    }
}

/// The readings on the first `n` lines.
pub open spec fn readings_below(ls: Seq<Seq<char>>, n: int) -> Seq<Seq<char>>
    decreases n,
{
    if n <= 0 {
        Seq::empty()
    } else {
        match reading_on(ls[n - 1]) {
            Some(v) => readings_below(ls, n - 1).push(v),
            None => readings_below(ls, n - 1),
        }
    }
}

/// A row of readings of a given length: cut where it is longer, and with empty
/// ones at its end where it is shorter.
pub open spec fn fitted(rs: Seq<Seq<char>>, n: int) -> Seq<Seq<char>> {
    Seq::new(
        n as nat,
        |i: int|
            if i < rs.len() {
                rs[i]
            } else {
                Seq::empty()
            },
    )
}

/// The readings in what the measuring prints, as many as are asked for. An
/// empty one stands for silence.
pub fn read_levels(printed: &str, bins: u32) -> (r: Vec<String>)
    ensures
        text::texts(r@) == fitted(
            readings_below(lines::lines_of(printed@), lines::lines_of(printed@).len() as int),
            bins as int,
        ),
{
    let rows = split_lines(printed);
    let ghost ls = lines::lines_of(printed@);
    let mut found: Vec<String> = Vec::new();
    let mut i: usize = 0;
    proof {
        reveal_strlit("RMS_level=");
        assert(text::texts(found@) =~= Seq::<Seq<char>>::empty());
        assert(text::texts(rows@).len() == rows@.len());
    }
    while i < rows.len()
        invariant
            i <= rows@.len(),
            ls == lines::lines_of(printed@),
            text::texts(rows@) == ls,
            ls.len() == rows@.len(),
            "RMS_level="@.len() > 0,
            text::texts(found@) == readings_below(ls, i as int),
        decreases rows@.len() - i,
    {
        proof {
            assert(text::texts(rows@)[i as int] == rows@[i as int]@);
        }
        if let Some((_, tail)) = cut_by_text(rows[i].as_str(), "RMS_level=") {
            let ghost before = found@;
            let v = word_at_start(tail.as_str());
            let ghost shown = v@;
            found.push(v);
            proof {
                assert(text::texts(found@) =~= text::texts(before).push(shown));
            }
        }
        i += 1;
    }
    let ghost all = readings_below(ls, ls.len() as int);
    let ghost want = fitted(all, bins as int);
    let mut out: Vec<String> = Vec::new();
    let mut k: usize = 0;
    let n: usize = bins as usize;
    proof {
        assert(text::texts(found@).len() == found@.len());
    }
    while k < n
        invariant
            k <= n,
            n == bins,
            text::texts(found@) == all,
            found@.len() == all.len(),
            want == fitted(all, bins as int),
            text::texts(out@) == want.take(k as int),
        decreases n - k,
    {
        let ghost before = out@;
        let v: String = if k < found.len() {
            found[k].clone()
        } else {
            String::new()
        };
        proof {
            if k < found@.len() {
                assert(text::texts(found@)[k as int] == found@[k as int]@);
            } else {
                assert(v@ =~= Seq::<char>::empty());
            }
        }
        let ghost shown = v@;
        out.push(v);
        k += 1;
        proof {
            assert(text::texts(out@) =~= text::texts(before).push(shown));
            assert(want.take(k as int) =~= want.take(k - 1).push(want[k - 1]));
        }
    }
    proof {
        assert(want.take(k as int) =~= want);
    }
    out
}

// ----------------------------------------------------------------------- cache

/// What a waveform is kept under: the item, the time of its file, and the number
/// of readings.
pub type WaveKey = (u64, i64, u32);

/// Waveforms that were made before.
pub struct WaveformCache<V> {
    entries: Vec<(WaveKey, V)>,
}

/// The entries as a map: of two under one key the later counts.
pub open spec fn kept<V>(entries: Seq<(WaveKey, V)>) -> Map<WaveKey, V>
    decreases entries.len(),
{
    if entries.len() == 0 {
        Map::empty()
    } else {
        kept(entries.drop_last()).insert(entries.last().0, entries.last().1)
    }
}

impl<V> WaveformCache<V> {
    /// The waveforms by their keys.
    pub closed spec fn view(self) -> Map<WaveKey, V> {
        kept(self.entries@)
    }

    /// A cache without waveforms.
    pub fn new() -> (r: Self)
        ensures
            r.view() == Map::<WaveKey, V>::empty(),
    {
        WaveformCache { entries: Vec::new() }
    }

    /// The waveform under a key.
    pub fn get(&self, key: &WaveKey) -> (r: Option<&V>)
        ensures
            match r {
                Some(v) => self.view().dom().contains(*key) && self.view()[*key] == *v,
                None => !self.view().dom().contains(*key),
            },
    {
        let mut n: usize = self.entries.len();
        let ghost all = self.entries@;
        proof {
            assert(all.take(n as int) =~= all);
        }
        while n > 0
            invariant
                n <= self.entries@.len(),
                all == self.entries@,
                self.view() == kept(all),
                kept(all).dom().contains(*key) == kept(all.take(n as int)).dom().contains(*key),
                kept(all).dom().contains(*key) ==> kept(all)[*key] == kept(
                    all.take(n as int),
                )[*key],
            decreases n,
        {
            proof {
                assert(all.take(n as int).drop_last() =~= all.take(n - 1));
                assert(all.take(n as int).last() == all[n - 1]);
            }
            let e: &(WaveKey, V) = &self.entries[n - 1];
            if e.0.0 == key.0 && e.0.1 == key.1 && e.0.2 == key.2 {
                return Some(&e.1);
            }
            n -= 1;
        }
        proof {
            assert(all.take(0) =~= Seq::<(WaveKey, V)>::empty());
        }
        None
    }

    /// Keeps a waveform under a key, in the place of one that was kept there.
    pub fn store(&mut self, key: WaveKey, peaks: V)
        ensures
            final(self).view() == old(self).view().insert(key, peaks),
    {
        let ghost before = self.entries@;
        let mut n: usize = self.entries.len();
        while n > 0
            invariant
                n <= before.len(),
                before == old(self).entries@,
                self.entries@ == before,
                forall|k: int| n <= k < before.len() ==> (#[trigger] before[k]).0 != key,
            decreases n,
        {
            n -= 1;
            let k: WaveKey = self.entries[n].0;
            if k.0 == key.0 && k.1 == key.1 && k.2 == key.2 {
                self.entries.set(n, (key, peaks));
                proof {
                    lemma_replaced(before, n as int, key, peaks);
                }
                return;
            }
        }
        self.entries.push((key, peaks));
        proof {
            assert(self.entries@.drop_last() =~= before);
        }
    }
}

/// To replace the last entry under a key is to keep something else there.
proof fn lemma_replaced<V>(entries: Seq<(WaveKey, V)>, at: int, key: WaveKey, v: V)
    requires
        0 <= at < entries.len(),
        entries[at].0 == key,
        forall|k: int| at < k < entries.len() ==> (#[trigger] entries[k]).0 != key,
    ensures
        kept(entries.update(at, (key, v))) == kept(entries).insert(key, v),
    decreases entries.len(),
{
    let new = entries.update(at, (key, v));
    let front = entries.drop_last();
    if at == entries.len() - 1 {
        assert(new.drop_last() =~= front);
        assert(kept(new) =~= kept(entries).insert(key, v));
    } else {
        assert forall|k: int| at < k < front.len() implies (#[trigger] front[k]).0 != key by {
            assert(front[k] == entries[k]);
        }
        lemma_replaced(front, at, key, v);
        assert(new.drop_last() =~= front.update(at, (key, v)));
        assert(entries[entries.len() - 1].0 != key);
        assert(kept(new) =~= kept(entries).insert(key, v));
    }
}

// ----------------------------------------------------------------------- laws

/// A waveform that was kept is found again under its key, and the others are
/// what they were: another number of readings, or a newer file, is another
/// waveform.
pub proof fn law_kept_waveforms_are_found<V>(
    cache: Map<WaveKey, V>,
    key: WaveKey,
    other: WaveKey,
    peaks: V,
)
    requires
        other != key,
    ensures
        cache.insert(key, peaks)[key] == peaks,
        cache.insert(key, peaks).dom().contains(other) == cache.dom().contains(other),
{
}

/// A waveform has as many readings as were asked for, within the limits, and
/// its windows never reach past the end by more than one each.
pub proof fn law_windows_fit_the_track(duration_ms: u64, rate: u32, bins: int)
    requires
        8 <= bins <= MAX_BINS,
    ensures
        bin_width(duration_ms, rate, bins) >= 1,
        sample_count(duration_ms, rate) >= bins ==> bin_width(duration_ms, rate, bins) * bins
            <= sample_count(duration_ms, rate),
{
    let n = sample_count(duration_ms, rate);
    assert((n / bins) * bins <= n) by (nonlinear_arith)
        requires
            bins > 0,
            n >= 0,
    ;
    assert(n >= bins ==> n / bins >= 1) by (nonlinear_arith)
        requires
            bins > 0,
    ;
}

/// A waveform has as many readings as the query string asks for, under the first
/// `bins` that is a number, and the usual number where it asks for none; never
/// fewer than eight nor more than the limit.
pub proof fn law_readings_are_asked_for(n: nat, rest: Seq<Pair>, key: Seq<char>, word: Seq<char>)
    requires
        n <= u32::MAX,
    ensures
        text::lower(key) == "bins"@ ==> bins_in(seq![(key, text::decimal(n))] + rest) == n,
        text::lower(key) != "bins"@ ==> bins_in(seq![(key, word)] + rest) == bins_in(rest),
        bins_in(Seq::empty()) == 256,
        8 <= n <= 2048 ==> clamped(n as int) == n,
        n < 8 ==> clamped(n as int) == 8,
        n > 2048 ==> clamped(n as int) == 2048,
{
    text::law_decimal_reads_back(n, u32::MAX as int);
    reveal_strlit("bins");
    assert(text::lower("bins"@) =~= "bins"@);
    let a = seq![(key, text::decimal(n))] + rest;
    assert(a[0] == (key, text::decimal(n)));
    let b = seq![(key, word)] + rest;
    assert(b[0] == (key, word));
    assert(b.subrange(1, b.len() as int) =~= rest);
}

/// A track of so many seconds has so many times its rate samples, and a reading
/// covers its equal part of them.
pub proof fn law_samples_are_counted(secs: u64, rate: u32, bins: int)
    requires
        secs * 1000 <= u64::MAX,
        secs * 1000 * rate <= u64::MAX,
        bins > 0,
        secs * rate >= bins,
    ensures
        sample_count((secs * 1000) as u64, rate) == secs * rate,
        bin_width((secs * 1000) as u64, rate, bins) == (secs * rate) / bins,
{
    let d = secs * 1000;
    assert(d * rate == (secs * rate) * 1000) by (nonlinear_arith)
        requires
            d == secs * 1000,
    ;
    assert(secs * rate >= 0) by (nonlinear_arith)
        requires
            secs >= 0,
            rate >= 0,
    ;
    let n = secs * rate;
    assert(n / bins >= 1) by (nonlinear_arith)
        requires
            n >= bins,
            bins > 0,
    ;
}

/// The readings stand in the order of the lines that hold them.
pub proof fn law_readings_stand_in_order(ls: Seq<Seq<char>>, n: int)
    requires
        0 <= n < ls.len(),
    ensures
        reading_on(ls[n]) is Some ==> readings_below(ls, n + 1) == readings_below(ls, n).push(
            reading_on(ls[n])->0,
        ),
        reading_on(ls[n]) is None ==> readings_below(ls, n + 1) == readings_below(ls, n),
{
}

/// A line that names a level has the reading behind its name, up to the next
/// white space. The row of readings is filled up or cut to the length that was
/// asked for.
pub proof fn law_levels_are_read(
    before: Seq<char>,
    level: Seq<char>,
    rest: Seq<char>,
    rs: Seq<Seq<char>>,
    n: int,
    i: int,
)
    requires
        forall|k: int|
            0 <= k < before.len() ==> !text::occurs_at(
                before + "RMS_level="@ + (level.push(' ') + rest),
                "RMS_level="@,
                k,
            ),
        level.len() > 0,
        forall|k: int| 0 <= k < level.len() ==> !text::is_white(#[trigger] level[k]),
        0 <= i < n,
    ensures
        reading_on(before + "RMS_level="@ + (level.push(' ') + rest)) == Some(level),
        fitted(rs, n).len() == n,
        i < rs.len() ==> fitted(rs, n)[i] == rs[i],
        i >= rs.len() ==> fitted(rs, n)[i].len() == 0,
{
    reveal_strlit("RMS_level=");
    let tail = level.push(' ') + rest;
    lines::law_texts_are_cut_at_the_mark(before, "RMS_level="@, tail);
    assert(tail[0] == level[0]);
    assert(text::trim_start(tail) == tail);
    assert forall|k: int| 0 <= k < level.len() implies !text::is_white(#[trigger] tail[k]) by {
        assert(tail[k] == level[k]);
    }
    assert(tail[level.len() as int] == ' ');
    lemma_word_len(tail, level.len() as int);
    assert(tail.take(level.len() as int) =~= level);
}

} // verus!
