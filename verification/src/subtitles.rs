//! Subtitle tracks: their codecs, how they are extracted and converted, the
//! viewer's styling, and the files beside the media that hold them.

use vstd::prelude::*;
use vstd::string::*;
use crate::answer::{ApiError, Refusal};
use crate::lines::{self, cut_by_text, join_texts, split_by_text, split_lines, without_filler};
use crate::query_string::{self, read_pairs};
use crate::seqs;
use crate::sort::{self, key_of_path, order_by_keys};
use crate::text::{
    self, chars_of, cut_at, decimal_text, eq_ignore_case, eq_text, has_prefix, has_suffix, one_of,
    parse_i64, signed_decimal_text, split_on, to_lossy_text, to_lower,
    trimmed,
};

verus! {

/// Files beside the media are numbered from here on, so that their numbers
/// never meet those of the tracks inside.
pub const SIDECAR_BASE_INDEX: u32 = 1_000_000;

// --------------------------------------------------------------------- codecs

pub open spec fn image_names() -> Seq<Seq<char>> {
    seq![
        "hdmv_pgs_subtitle"@,
        "pgs"@,
        "pgssub"@,
        "dvb_subtitle"@,
        "dvbsub"@,
        "dvd_subtitle"@,
        "dvdsub"@,
        "vobsub"@,
    ]
}

pub open spec fn ass_names() -> Seq<Seq<char>> {
    seq!["ass"@, "ssa"@, "advanced substation alpha"@]
}

pub open spec fn text_names() -> Seq<Seq<char>> {
    seq![
        "subrip"@,
        "srt"@,
        "webvtt"@,
        "vtt"@,
        "ass"@,
        "ssa"@,
        "advanced substation alpha"@,
        "mov_text"@,
        "text"@,
        "subviewer"@,
        "microdvd"@,
    ]
}

/// Whether a codec is made of bitmaps.
pub open spec fn image_codec(codec: Seq<char>) -> bool {
    image_names().contains(text::lower(codec))
}

/// Whether a codec is made of text.
pub open spec fn text_codec(codec: Seq<char>) -> bool {
    text_names().contains(text::lower(codec))
}

/// Whether a codec is text with styling that WebVTT cannot hold.
pub open spec fn styled_codec(codec: Seq<char>) -> bool {
    ass_names().contains(text::lower(codec))
}

/// Whether a codec is made of bitmaps.
pub fn is_image_subtitle_codec(codec: &str) -> (r: bool)
    ensures
        r == image_codec(codec@),
{
    let wanted: Vec<&str> =
        vec![
        "hdmv_pgs_subtitle",
        "pgs",
        "pgssub",
        "dvb_subtitle",
        "dvbsub",
        "dvd_subtitle",
        "dvdsub",
        "vobsub",
    ];
    proof {
        assert(text::names(wanted@) == image_names());
    }
    one_of(to_lower(codec).as_str(), &wanted)
}

/// Whether a codec is made of text.
pub fn is_text_subtitle_codec(codec: &str) -> (r: bool)
    ensures
        r == text_codec(codec@),
{
    let wanted: Vec<&str> =
        vec![
        "subrip",
        "srt",
        "webvtt",
        "vtt",
        "ass",
        "ssa",
        "advanced substation alpha",
        "mov_text",
        "text",
        "subviewer",
        "microdvd",
    ];
    proof {
        assert(text::names(wanted@) == text_names());
    }
    one_of(to_lower(codec).as_str(), &wanted)
}

/// Whether a codec's name, in lower case, is that of a styled text format.
pub fn is_ass_like(codec: &str) -> (r: bool)
    ensures
        r == ass_names().contains(codec@),
{
    let wanted: Vec<&str> = vec!["ass", "ssa", "advanced substation alpha"];
    proof {
        assert(text::names(wanted@) == ass_names());
    }
    one_of(codec, &wanted)
}

/// Whether a codec is text with styling that WebVTT cannot hold.
pub fn is_styled_text_subtitle_codec(codec: &str) -> (r: bool)
    ensures
        r == styled_codec(codec@),
{
    is_ass_like(to_lower(codec).as_str())
}

// ------------------------------------------------------------------ time stamps

/// A number in a time stamp: digits alone, no fewer and no more of them than
/// these.
pub open spec fn stamp_field(s: Seq<char>, least: int, most: int) -> Option<int> {
    if least <= s.len() <= most && text::all_digits(s) {
        text::parse_unsigned(s, i64::MAX as int)
    } else {
        None
    }
}

/// Hours, minutes and seconds, the hours optional. Minutes and seconds have two
/// digits, hours two or more.
pub open spec fn clock_seconds(parts: Seq<Seq<char>>) -> Option<int> {
    if parts.len() == 3 {
        match (
            stamp_field(parts[0], 2, parts[0].len() as int),
            stamp_field(parts[1], 2, 2),
            stamp_field(parts[2], 2, 2),
        ) {
            (Some(h), Some(m), Some(s)) => Some(h * 3600 + m * 60 + s),
            _ => None,
        }
    } else if parts.len() == 2 {
        match (stamp_field(parts[0], 2, 2), stamp_field(parts[1], 2, 2)) {
            (Some(m), Some(s)) => Some(m * 60 + s),
            _ => None,
        }
    } else {
        None
    }
}

/// A stamp cut into clock and fraction, at the first dot or else the first
/// comma.
pub open spec fn stamp_parts(s: Seq<char>) -> Option<(Seq<char>, Seq<char>)> {
    match text::split_once(s, '.') {
        Some(p) => Some(p),
        None => text::split_once(s, ','),
    }
}

/// The ticks that a time stamp writes down, a tick being a hundred nanoseconds.
/// The fraction is a number of milliseconds in three digits.
pub open spec fn stamp_ticks(s: Seq<char>) -> Option<int> {
    match stamp_parts(s) {
        Some((clock, fraction)) => match (
            stamp_field(fraction, 3, 3),
            clock_seconds(text::split(clock, ':')),
        ) {
            (Some(ms), Some(secs)) => Some((secs * 1000 + ms) * 10_000),
            _ => None,
        },
        None => None,
    }
}

/// A stamp whose ticks fit a signed 64-bit number.
pub open spec fn fitting_ticks(s: Seq<char>) -> Option<int> {
    match stamp_ticks(s) {
        Some(t) => if i64::MIN <= t <= i64::MAX {
            Some(t)
        } else {
            None
        },
        None => None,
    }
}

fn read_field(s: &str, least: usize, most: usize) -> (r: Option<i64>)
    ensures
        match r {
            Some(n) => stamp_field(s@, least as int, most as int) == Some(n as int) && n >= 0,
            None => stamp_field(s@, least as int, most as int) is None,
        },
{
    let v = chars_of(s);
    if v.len() < least || v.len() > most {
        return None;
    }
    let mut i: usize = 0;
    while i < v.len()
        invariant
            i <= v@.len(),
            v@ == s@,
            forall|k: int| 0 <= k < i ==> text::is_digit(#[trigger] s@[k]),
        decreases v@.len() - i,
    {
        if !('0' <= v[i] && v[i] <= '9') {
            proof {
                assert(!text::is_digit(s@[i as int]));
            }
            return None;
        }
        i += 1;
    }
    proof {
        assert(s@.len() > 0 ==> text::is_digit(s@[0]));
        text::lemma_digits_value_nonneg(s@);
    }
    parse_i64(s)
}

fn read_seconds(clock: &str) -> (r: Option<i128>)
    ensures
        match r {
            Some(n) => clock_seconds(text::split(clock@, ':')) == Some(n as int) && 0 <= n
                < 0x1000_0000_0000_0000_0000,
            None => clock_seconds(text::split(clock@, ':')) is None,
        },
{
    let parts = split_on(clock, ':');
    let ghost views = text::split(clock@, ':');
    proof {
        assert(text::texts(parts@) == views);
        assert(forall|i: int| 0 <= i < parts@.len() ==> views[i] == #[trigger] parts@[i]@);
    }
    if parts.len() == 3 {
        let hours: usize = chars_of(parts[0].as_str()).len();
        match (
            read_field(parts[0].as_str(), 2, hours),
            read_field(parts[1].as_str(), 2, 2),
            read_field(parts[2].as_str(), 2, 2),
        ) {
            (Some(h), Some(m), Some(s)) => Some(h as i128 * 3600 + m as i128 * 60 + s as i128),
            _ => None,
        }
    } else if parts.len() == 2 {
        match (read_field(parts[0].as_str(), 2, 2), read_field(parts[1].as_str(), 2, 2)) {
            (Some(m), Some(s)) => Some(m as i128 * 60 + s as i128),
            _ => None,
        }
    } else {
        None
    }
}

/// Reads a time stamp, `HH:MM:SS.mmm` or `MM:SS.mmm`, as ticks. A stamp that
/// is malformed, or too large to be held, is none.
pub fn parse_vtt_ts(s: &str) -> (r: Option<i64>)
    ensures
        match r {
            Some(t) => fitting_ticks(s@) == Some(t as int),
            None => fitting_ticks(s@) is None,
        },
{
    let cut = match cut_at(s, '.') {
        Some(p) => Some(p),
        None => cut_at(s, ','),
    };
    match cut {
        Some((clock, fraction)) => match (
            read_field(fraction.as_str(), 3, 3),
            read_seconds(clock.as_str()),
        ) {
            (Some(ms), Some(secs)) => {
                let t: i128 = (secs * 1000 + ms as i128) * 10_000;
                if t <= i64::MAX as i128 {
                    Some(t as i64)
                } else {
                    None
                }
            },
            _ => None,
        },
        None => None,
    }
}

// ------------------------------------------------------------------------ cues

/// One subtitle with the time it is shown for.
#[derive(Debug)]
pub struct TrackEvent {
    pub id: String,
    pub text: String,
    pub start_position_ticks: i64,
    pub end_position_ticks: i64,
}

pub ghost struct Cue {
    pub text: Seq<char>,
    pub start: int,
    pub end: int,
}

/// What has been read of a block so far.
pub ghost struct BlockState {
    pub timing: Option<(int, int)>,
    pub cue_lines: Seq<Seq<char>>,
}

/// The times on either side of the arrow; settings behind the second are
/// passed over.
pub open spec fn timing_of(a: Seq<char>, b: Seq<char>) -> Option<(int, int)> {
    match (fitting_ticks(text::trim(a)), fitting_ticks(text::split(text::trim(b), ' ')[0])) {
        (Some(s), Some(e)) => Some((s, e)),
        _ => None,
    }
}

/// The first line with times round an arrow sets the times; all that follows it
/// is cue text, and what stands before it is passed over.
pub open spec fn read_block(block_lines: Seq<Seq<char>>) -> BlockState
    decreases block_lines.len(),
{
    if block_lines.len() == 0 {
        BlockState { timing: None, cue_lines: Seq::empty() }
    } else {
        let st = read_block(block_lines.drop_last());
        if st.timing is Some {
            BlockState { timing: st.timing, cue_lines: st.cue_lines.push(block_lines.last()) }
        } else {
            match lines::cut_by(block_lines.last(), "-->"@) {
                Some((a, b)) => BlockState { timing: timing_of(a, b), cue_lines: st.cue_lines },
                None => st,
            }
        }
    }
}

/// The cue that a block holds.
pub open spec fn block_cue(block: Seq<char>) -> Option<Cue> {
    let b = lines::strip_filler(block);
    if b.len() == 0 || text::starts_with(b, "WEBVTT"@) || text::starts_with(b, "NOTE"@) {
        None
    } else {
        let st = read_block(lines::lines_of(b));
        let t = lines::joined(st.cue_lines, "\n"@);
        match st.timing {
            Some((start, end)) => if text::trim(t).len() > 0 {
                Some(Cue { text: t, start, end })
            } else {
                None
            },
            None => None,
        }
    }
}

/// The cues of a row of blocks.
pub open spec fn block_cues(blocks: Seq<Seq<char>>) -> Seq<Cue>
    decreases blocks.len(),
{
    if blocks.len() == 0 {
        Seq::empty()
    } else {
        let rest = block_cues(blocks.drop_last());
        match block_cue(blocks.last()) {
            Some(c) => rest.push(c),
            None => rest,
        }
    }
}

/// The cues of a row of outer blocks, each cut once more.
pub open spec fn outer_cues(outer: Seq<Seq<char>>) -> Seq<Cue>
    decreases outer.len(),
{
    if outer.len() == 0 {
        Seq::empty()
    } else {
        outer_cues(outer.drop_last()) + block_cues(lines::split_by(outer.last(), "\r\n\r\n"@))
    }
}

/// The cues of a WebVTT document; empty lines separate its blocks.
pub open spec fn cues_of(doc: Seq<char>) -> Seq<Cue> {
    outer_cues(lines::split_by(doc, "\n\n"@))
}

/// Whether the event at `i` is that cue.
pub open spec fn event_is(e: TrackEvent, c: Cue, i: int) -> bool {
    &&& e.id@ == text::decimal(i as nat)
    &&& e.text@ == c.text
    &&& e.start_position_ticks == c.start
    &&& e.end_position_ticks == c.end
}

pub open spec fn events_are(es: Seq<TrackEvent>, cs: Seq<Cue>) -> bool {
    es.len() == cs.len() && forall|i: int|
        0 <= i < es.len() ==> event_is(#[trigger] es[i], cs[i], i)
}

fn read_timing(a: &str, b: &str) -> (r: Option<(i64, i64)>)
    ensures
        match r {
            Some((s, e)) => timing_of(a@, b@) == Some((s as int, e as int)),
            None => timing_of(a@, b@) is None,
        },
{
    let tail = trimmed(b);
    let pieces = split_on(tail.as_str(), ' ');
    proof {
        assert(text::split(text::trim(b@), ' ').len() > 0);
        assert(text::texts(pieces@)[0] == pieces@[0]@);
    }
    match (parse_vtt_ts(trimmed(a).as_str()), parse_vtt_ts(pieces[0].as_str())) {
        (Some(s), Some(e)) => Some((s, e)),
        _ => None,
    }
}

fn read_cue(block: &str) -> (r: Option<(String, i64, i64)>)
    ensures
        match r {
            Some((t, s, e)) => block_cue(block@) == Some(
                (Cue { text: t@, start: s as int, end: e as int }),
            ),
            None => block_cue(block@) is None,
        },
{
    let b = without_filler(block);
    if b.as_str().is_empty() || has_prefix(b.as_str(), "WEBVTT") || has_prefix(b.as_str(), "NOTE") {
        return None;
    }
    let all = split_lines(b.as_str());
    let ghost views = lines::lines_of(b@);
    let mut timing: Option<(i64, i64)> = None;
    let mut cue_lines: Vec<String> = Vec::new();
    let mut i: usize = 0;
    proof {
        reveal_strlit("-->");
        assert(views.take(0) == Seq::<Seq<char>>::empty());
        assert(text::texts(cue_lines@) == Seq::<Seq<char>>::empty());
    }
    while i < all.len()
        invariant
            i <= all.len(),
            "-->"@.len() > 0,
            text::texts(all@) == views,
            read_block(views.take(i as int)).cue_lines == text::texts(cue_lines@),
            read_block(views.take(i as int)).timing == (match timing {
                Some((s, e)) => Some((s as int, e as int)),
                None => None,
            }),
        decreases all.len() - i,
    {
        proof {
            assert(views.take(i + 1).drop_last() == views.take(i as int));
            assert(views.take(i + 1).last() == all@[i as int]@);
        }
        if timing.is_some() {
            let ghost before = cue_lines@;
            let line = all[i].clone();
            cue_lines.push(line);
            proof {
                assert(text::texts(cue_lines@) == text::texts(before).push(line@));
            }
        } else if let Some((a, c)) = cut_by_text(all[i].as_str(), "-->") {
            timing = read_timing(a.as_str(), c.as_str());
        }
        i += 1;
    }
    proof {
        assert(views.take(i as int) == views);
    }
    match timing {
        Some((s, e)) => {
            let t = join_texts(&cue_lines, "\n");
            if trimmed(t.as_str()).as_str().is_empty() {
                None
            } else {
                Some((t, s, e))
            }
        },
        None => None,
    }
}

/// Appends the cues of an outer block.
fn push_cues(out: &mut Vec<TrackEvent>, outer: &str, Ghost(before): Ghost<Seq<Cue>>)
    requires
        events_are(old(out)@, before),
    ensures
        events_are(
            final(out)@,
            before + block_cues(lines::split_by(outer@, "\r\n\r\n"@)),
        ),
{
    proof {
        reveal_strlit("\r\n\r\n");
    }
    let blocks = split_by_text(outer, "\r\n\r\n");
    let ghost views = lines::split_by(outer@, "\r\n\r\n"@);
    let mut i: usize = 0;
    proof {
        assert(views.take(0) == Seq::<Seq<char>>::empty());
        assert(before + Seq::<Cue>::empty() == before);
    }
    while i < blocks.len()
        invariant
            i <= blocks.len(),
            text::texts(blocks@) == views,
            events_are(out@, before + block_cues(views.take(i as int))),
        decreases blocks.len() - i,
    {
        let ghost sofar = block_cues(views.take(i as int));
        proof {
            assert(views.take(i + 1).drop_last() == views.take(i as int));
            assert(views.take(i + 1).last() == blocks@[i as int]@);
        }
        if let Some((t, s, e)) = read_cue(blocks[i].as_str()) {
            let id = decimal_text(out.len() as u64);
            let ghost cue = Cue { text: t@, start: s as int, end: e as int };
            out.push(
                TrackEvent { id, text: t, start_position_ticks: s, end_position_ticks: e },
            );
            proof {
                assert(before + sofar.push(cue) == (before + sofar).push(cue));
            }
        }
        i += 1;
    }
    proof {
        assert(views.take(i as int) == views);
    }
}

/// Reads the cues of a WebVTT document.
pub fn webvtt_to_track_events(doc: &str) -> (r: Vec<TrackEvent>)
    ensures
        events_are(r@, cues_of(doc@)),
{
    proof {
        reveal_strlit("\n\n");
    }
    let outer = split_by_text(doc, "\n\n");
    let ghost views = lines::split_by(doc@, "\n\n"@);
    let mut out: Vec<TrackEvent> = Vec::new();
    let mut i: usize = 0;
    proof {
        assert(views.take(0) == Seq::<Seq<char>>::empty());
    }
    while i < outer.len()
        invariant
            i <= outer.len(),
            text::texts(outer@) == views,
            events_are(out@, outer_cues(views.take(i as int))),
        decreases outer.len() - i,
    {
        proof {
            assert(views.take(i + 1).drop_last() == views.take(i as int));
            assert(views.take(i + 1).last() == outer@[i as int]@);
        }
        push_cues(&mut out, outer[i].as_str(), Ghost(outer_cues(views.take(i as int))));
        i += 1;
    }
    proof {
        assert(views.take(i as int) == views);
    }
    out
}

// ------------------------------------------------------------------ cues as JSON

/// How `serde_json` writes a text as a JSON string, quotes and all.
pub uninterp spec fn json_quoted(s: Seq<char>) -> Seq<char>;

/// The text of a `serde_json::Value` that is a string: the JSON string that
/// stands for it.
#[verifier::external_body]
pub(crate) fn to_json_quoted(s: &str) -> (r: String)
    ensures
        r@ == json_quoted(s@),
{
    serde_json::Value::String(s.to_owned()).to_string()
}

/// A cue as a JSON object, given its text and id as JSON strings.
pub open spec fn event_json(id: Seq<char>, txt: Seq<char>, start: int, end: int) -> Seq<char> {
    "{\"EndPositionTicks\":"@ + text::signed_decimal(end) + ",\"Id\":"@ + id
        + ",\"StartPositionTicks\":"@ + text::signed_decimal(start) + ",\"Text\":"@ + txt + "}"@
}

pub open spec fn event_jsons(cs: Seq<Cue>) -> Seq<Seq<char>> {
    Seq::new(
        cs.len(),
        |i: int|
            event_json(
                json_quoted(text::decimal(i as nat)),
                json_quoted(cs[i].text),
                cs[i].start,
                cs[i].end,
            ),
    )
}

/// The document that the player's own renderer reads.
pub open spec fn events_document(cs: Seq<Cue>) -> Seq<char> {
    "{\"TrackEvents\":["@ + lines::joined(event_jsons(cs), ","@) + "]}"@
}

fn write_event(id: &str, txt: &str, start: i64, end: i64) -> (r: String)
    ensures
        r@ == event_json(id@, txt@, start as int, end as int),
{
    let mut out: String = String::new();
    out.append("{\"EndPositionTicks\":");
    out.append(signed_decimal_text(end).as_str());
    out.append(",\"Id\":");
    out.append(id);
    out.append(",\"StartPositionTicks\":");
    out.append(signed_decimal_text(start).as_str());
    out.append(",\"Text\":");
    out.append(txt);
    out.append("}");
    proof {
        assert(out@ == event_json(id@, txt@, start as int, end as int));
    }
    out
}

/// Writes cues as the document that the player's own renderer reads.
pub fn track_events_json(events: &Vec<TrackEvent>) -> (r: String)
    ensures
        forall|cs: Seq<Cue>| #[trigger] events_are(events@, cs) ==> r@ == events_document(cs),
{
    let mut parts: Vec<String> = Vec::new();
    let mut i: usize = 0;
    while i < events.len()
        invariant
            i <= events.len(),
            parts@.len() == i,
            forall|k: int|
                0 <= k < i ==> #[trigger] parts@[k]@ == event_json(
                    json_quoted(events@[k].id@),
                    json_quoted(events@[k].text@),
                    events@[k].start_position_ticks as int,
                    events@[k].end_position_ticks as int,
                ),
        decreases events.len() - i,
    {
        let id = to_json_quoted(events[i].id.as_str());
        let txt = to_json_quoted(events[i].text.as_str());
        parts.push(
            write_event(
                id.as_str(),
                txt.as_str(),
                events[i].start_position_ticks,
                events[i].end_position_ticks,
            ),
        );
        i += 1;
    }
    let mut out: String = String::new();
    out.append("{\"TrackEvents\":[");
    out.append(join_texts(&parts, ",").as_str());
    out.append("]}");
    proof {
        assert forall|cs: Seq<Cue>| #[trigger] events_are(events@, cs) implies out@
            == events_document(cs) by {
            assert(text::texts(parts@) =~= event_jsons(cs)) by {
                assert forall|k: int| 0 <= k < parts@.len() implies text::texts(parts@)[k]
                    == event_jsons(cs)[k] by {
                    assert(event_is(events@[k], cs[k], k));
                    assert(parts@[k]@ == text::texts(parts@)[k]);
                }
            }
        }
    }
    out
}

/// Turns a WebVTT file into the document that the player's own renderer reads.
pub fn webvtt_to_track_events_json(vtt: &[u8]) -> (r: String)
    ensures
        r@ == events_document(cues_of(text::lossy_text(vtt@))),
{
    let doc = to_lossy_text(vtt);
    let events = webvtt_to_track_events(doc.as_str());
    track_events_json(&events)
}

// --------------------------------------------------------------------- styling

/// The viewer's styling of subtitles.
#[derive(Debug)]
pub struct SubtitleStyle {
    pub color: Option<String>,
    pub background: Option<String>,
    pub font_size: Option<String>,
    pub position: Option<String>,
}

impl Default for SubtitleStyle {
    /// No styling.
    fn default() -> (r: Self)
        ensures
            r.unset(),
    {
        SubtitleStyle { color: None, background: None, font_size: None, position: None }
    }
}

/// Whether a character could end a style rule.
pub open spec fn breaks_out(c: char) -> bool {
    c == ';' || c == '{' || c == '}' || c == '\n' || c == '\r' || c == '"' || c == '\''
}

/// A style value that is safe to write down: trimmed, not empty, and without a
/// character that could end the rule.
pub open spec fn safe_value(v: Option<Seq<char>>) -> Option<Seq<char>> {
    match v {
        Some(s) => if text::trim(s).len() > 0 && forall|i: int|
            0 <= i < text::trim(s).len() ==> !breaks_out(#[trigger] text::trim(s)[i]) {
            Some(text::trim(s))
        } else {
            None
        },
        None => None,
    }
}

/// A declaration of a style rule, or nothing.
pub open spec fn declaration(property: Seq<char>, value: Option<Seq<char>>) -> Seq<char> {
    match value {
        Some(v) => "  "@ + property + ": "@ + v + ";\n"@,
        None => Seq::empty(),
    }
}

/// Checks a style value.
pub fn sanitise_css_value(v: &Option<String>) -> (r: Option<String>)
    ensures
        text::opt_text(r) == safe_value(text::opt_text(*v)),
{
    match v {
        Some(s) => {
            let t = trimmed(s.as_str());
            if t.as_str().is_empty() {
                return None;
            }
            let cs = chars_of(t.as_str());
            let mut i: usize = 0;
            while i < cs.len()
                invariant
                    i <= cs@.len(),
                    cs@ == t@,
                    t@ == text::trim(s@),
                    text::opt_text(*v) == Some(s@),
                    forall|k: int| 0 <= k < i ==> !breaks_out(#[trigger] cs@[k]),
                decreases cs@.len() - i,
            {
                let c: char = cs[i];
                if c == ';' || c == '{' || c == '}' || c == '\n' || c == '\r' || c == '"' || c == '\'' {
                    proof {
                        assert(breaks_out(text::trim(s@)[i as int]));
                    }
                    return None;
                }
                i += 1;
            }
            Some(t)
        },
        None => None,
    }
}

fn push_declaration(out: &mut String, property: &str, value: &Option<String>)
    ensures
        final(out)@ == old(out)@ + declaration(property@, safe_value(text::opt_text(*value))),
{
    match sanitise_css_value(value) {
        Some(v) => {
            out.append("  ");
            out.append(property);
            out.append(": ");
            out.append(v.as_str());
            out.append(";\n");
            proof {
                assert(out@ == old(out)@ + declaration(property@, Some(v@)));
            }
        },
        None => {
            proof {
                assert(out@ == old(out)@ + Seq::<char>::empty());
            }
        },
    }
}

impl SubtitleStyle {
    /// Whether nothing is set.
    pub open spec fn unset(self) -> bool {
        self.color is None && self.background is None && self.font_size is None && self.position
            is None
    }

    /// The style block as text.
    pub open spec fn block(self) -> Seq<char> {
        if self.unset() {
            Seq::empty()
        } else {
            "STYLE\n::cue {\n"@ + declaration("color"@, safe_value(text::opt_text(self.color)))
                + declaration("background-color"@, safe_value(text::opt_text(self.background)))
                + declaration("font-size"@, safe_value(text::opt_text(self.font_size))) + "}\n\n"@
        }
    }

    /// Whether nothing is set.
    pub fn is_empty(&self) -> (r: bool)
        ensures
            r == self.unset(),
    {
        self.color.is_none() && self.background.is_none() && self.font_size.is_none()
            && self.position.is_none()
    }

    /// The style block that applies the styling to every cue; empty where
    /// nothing is set.
    pub fn render_style_block(&self) -> (r: Vec<u8>)
        ensures
            r@ == vstd::utf8::encode_utf8(self.block()),
            self.unset() ==> r@.len() == 0,
            !self.unset() ==> r@.len() > 0,
    {
        if self.is_empty() {
            return Vec::new();
        }
        let mut out: String = String::new();
        out.append("STYLE\n::cue {\n");
        push_declaration(&mut out, "color", &self.color);
        push_declaration(&mut out, "background-color", &self.background);
        push_declaration(&mut out, "font-size", &self.font_size);
        out.append("}\n\n");
        proof {
            reveal_strlit("STYLE\n::cue {\n");
            assert(out@ == self.block());
            assert(out@[0] == 'S');
            assert(vstd::utf8::encode_utf8(out@).len() > 0) by {
                assert(out@.len() > 0);
                assert(vstd::utf8::encode_scalar(out@[0] as u32).len() > 0);
            }
        }
        out.as_str().as_bytes_vec()
    }
}

/// The value of the first entry with this key.
pub open spec fn setting(settings: Seq<(String, String)>, key: Seq<char>) -> Option<Seq<char>>
    decreases settings.len(),
{
    if settings.len() == 0 {
        None
    } else if settings[0].0@ == key {
        Some(settings[0].1@)
    } else {
        setting(settings.subrange(1, settings.len() as int), key)
    }
}

/// The setting under its name, or under its older one.
pub open spec fn either_setting(
    settings: Seq<(String, String)>,
    key: Seq<char>,
    older: Seq<char>,
) -> Option<Seq<char>> {
    match setting(settings, key) {
        Some(v) => Some(v),
        None => setting(settings, older),
    }
}

fn find_setting(settings: &Vec<(String, String)>, key: &str) -> (r: Option<String>)
    ensures
        text::opt_text(r) == setting(settings@, key@),
{
    let mut i: usize = 0;
    proof {
        assert(settings@.subrange(0, settings@.len() as int) == settings@);
    }
    while i < settings.len()
        invariant
            i <= settings@.len(),
            setting(settings@, key@) == setting(
                settings@.subrange(i as int, settings@.len() as int),
                key@,
            ),
        decreases settings@.len() - i,
    {
        let ghost rest = settings@.subrange(i as int, settings@.len() as int);
        if eq_text(settings[i].0.as_str(), key) {
            return Some(settings[i].1.clone());
        }
        proof {
            assert(rest.subrange(1, rest.len() as int) == settings@.subrange(
                i + 1,
                settings@.len() as int,
            ));
        }
        i += 1;
    }
    None
}

fn find_either(settings: &Vec<(String, String)>, key: &str, older: &str) -> (r: Option<String>)
    ensures
        text::opt_text(r) == either_setting(settings@, key@, older@),
{
    match find_setting(settings, key) {
        Some(v) => Some(v),
        None => find_setting(settings, older),
    }
}

/// The styling in a user's settings. `nested` is the block of subtitle settings
/// where there is one; without it the settings themselves are looked at.
pub fn subtitle_style_for(
    nested: &Option<Vec<(String, String)>>,
    settings: &Vec<(String, String)>,
) -> (r: SubtitleStyle)
    ensures
        ({
            let s = match *nested {
                Some(n) => n@,
                None => settings@,
            };
            &&& text::opt_text(r.color) == either_setting(s, "Color"@, "SubtitleColor"@)
            &&& text::opt_text(r.background) == either_setting(
                s,
                "Background"@,
                "SubtitleBackground"@,
            )
            &&& text::opt_text(r.font_size) == either_setting(s, "FontSize"@, "SubtitleFontSize"@)
            &&& text::opt_text(r.position) == either_setting(s, "Position"@, "SubtitlePosition"@)
        }),
{
    let s = match nested {
        Some(n) => n,
        None => settings,
    };
    SubtitleStyle {
        color: find_either(s, "Color", "SubtitleColor"),
        background: find_either(s, "Background", "SubtitleBackground"),
        font_size: find_either(s, "FontSize", "SubtitleFontSize"),
        position: find_either(s, "Position", "SubtitlePosition"),
    }
}

// ------------------------------------------------------------------ WebVTT bodies

/// Whether bytes begin with these.
pub open spec fn begins(body: Seq<u8>, head: Seq<u8>) -> bool {
    body.len() >= head.len() && body.subrange(0, head.len() as int) == head
}

/// Where a byte first stands; the length where it does not.
pub open spec fn find_byte(body: Seq<u8>, b: u8) -> int
    decreases body.len(),
{
    if body.len() == 0 || body[0] == b {
        0
    } else {
        1 + find_byte(body.subrange(1, body.len() as int), b)
    }
}

/// The bytes of a text.
pub open spec fn bytes_of(s: Seq<char>) -> Seq<u8> {
    vstd::utf8::encode_utf8(s)
}

/// A WebVTT body without its signature line.
pub open spec fn without_signature(body: Seq<u8>) -> Seq<u8> {
    if begins(body, bytes_of("WEBVTT"@)) && find_byte(body, 10) < body.len() {
        body.subrange(find_byte(body, 10) + 1, body.len() as int)
    } else {
        body
    }
}

/// A body without the line feed that it begins with.
pub open spec fn without_blank(body: Seq<u8>) -> Seq<u8> {
    if body.len() > 0 && body[0] == 10 {
        body.subrange(1, body.len() as int)
    } else {
        body
    }
}

/// The body that is served: the one that was extracted, with a note where
/// styling was lost and the viewer's own styling where there is one.
pub open spec fn served_body(body: Seq<u8>, style_lossy: bool, style: SubtitleStyle) -> Seq<u8> {
    if style_lossy || !style.unset() {
        bytes_of("WEBVTT\n"@) + bytes_of(
            if style_lossy {
                "NOTE Source format was ASS/SSA; styling lost in WebVTT conversion.\n\n"@
            } else {
                "\n"@
            },
        ) + bytes_of(style.block()) + without_blank(without_signature(body))
    } else {
        body
    }
}

proof fn lemma_find_byte(body: Seq<u8>, b: u8, i: int)
    requires
        0 <= i <= body.len(),
        forall|k: int| 0 <= k < i ==> body[k] != b,
        i < body.len() ==> body[i] == b,
    ensures
        find_byte(body, b) == i,
    decreases body.len(),
{
    if i > 0 {
        let t = body.subrange(1, body.len() as int);
        assert forall|k: int| 0 <= k < i - 1 implies t[k] != b by {
            assert(t[k] == body[k + 1]);
        }
        lemma_find_byte(t, b, i - 1);
    }
}

fn body_begins(body: &Vec<u8>, head: &Vec<u8>) -> (r: bool)
    ensures
        r == begins(body@, head@),
{
    if body.len() < head.len() {
        return false;
    }
    let mut i: usize = 0;
    while i < head.len()
        invariant
            i <= head@.len() <= body@.len(),
            forall|k: int| 0 <= k < i ==> body@[k] == head@[k],
        decreases head@.len() - i,
    {
        if body[i] != head[i] {
            proof {
                assert(body@.subrange(0, head@.len() as int)[i as int] != head@[i as int]);
            }
            return false;
        }
        i += 1;
    }
    proof {
        assert(body@.subrange(0, head@.len() as int) =~= head@);
    }
    true
}

/// How much of the body is dropped before something is put in front of it.
fn served_from(body: &Vec<u8>) -> (r: usize)
    ensures
        r <= body@.len(),
        body@.subrange(r as int, body@.len() as int) == without_blank(without_signature(body@)),
{
    let n: usize = body.len();
    let mut from: usize = 0;
    let head = "WEBVTT".as_bytes_vec();
    if body_begins(body, &head) {
        let mut i: usize = 0;
        while i < n && body[i] != 10
            invariant
                n == body@.len(),
                i <= n,
                forall|k: int| 0 <= k < i ==> body@[k] != 10,
            decreases n - i,
        {
            i += 1;
        }
        proof {
            lemma_find_byte(body@, 10, i as int);
        }
        if i < n {
            from = i + 1;
        }
    }
    proof {
        assert(body@.subrange(from as int, n as int) =~= without_signature(body@));
    }
    if from < n && body[from] == 10 {
        proof {
            let t = without_signature(body@);
            assert(t[0] == body@[from as int]);
            assert(t.subrange(1, t.len() as int) =~= body@.subrange(from + 1, n as int));
        }
        from = from + 1;
    } else {
        proof {
            let t = without_signature(body@);
            if t.len() > 0 {
                assert(t[0] == body@[from as int]);
            }
        }
    }
    from
}

fn push_bytes(out: &mut Vec<u8>, more: &Vec<u8>, from: usize)
    requires
        from <= more@.len(),
    ensures
        final(out)@ == old(out)@ + more@.subrange(from as int, more@.len() as int),
{
    let mut i: usize = from;
    let ghost before = out@;
    proof {
        assert(before + more@.subrange(from as int, from as int) == before);
    }
    while i < more.len()
        invariant
            from <= i <= more@.len(),
            out@ == before + more@.subrange(from as int, i as int),
        decreases more@.len() - i,
    {
        out.push(more[i]);
        proof {
            assert(more@.subrange(from as int, i + 1) == more@.subrange(from as int, i as int).push(
                more@[i as int],
            ));
        }
        i += 1;
    }
}

/// Puts the body of a WebVTT answer together.
pub fn vtt_body(body: Vec<u8>, style_lossy: bool, style: &SubtitleStyle) -> (r: Vec<u8>)
    ensures
        r@ == served_body(body@, style_lossy, *style),
{
    if !style_lossy && style.is_empty() {
        return body;
    }
    let mut out: Vec<u8> = Vec::new();
    push_bytes(&mut out, &"WEBVTT\n".as_bytes_vec(), 0);
    let second = if style_lossy {
        "NOTE Source format was ASS/SSA; styling lost in WebVTT conversion.\n\n".as_bytes_vec()
    } else {
        "\n".as_bytes_vec()
    };
    push_bytes(&mut out, &second, 0);
    let block = style.render_style_block();
    push_bytes(&mut out, &block, 0);
    let from = served_from(&body);
    push_bytes(&mut out, &body, from);
    proof {
        let a = bytes_of("WEBVTT\n"@);
        assert(a.subrange(0, a.len() as int) =~= a);
        assert(second@.subrange(0, second@.len() as int) =~= second@);
        assert(block@.subrange(0, block@.len() as int) =~= block@);
        assert(out@ =~= served_body(body@, style_lossy, *style));
    }
    out
}

/// An answer with WebVTT: its headers and its body.
#[derive(Debug)]
pub struct VttAnswer {
    pub content_type: &'static str,
    pub cache_control: &'static str,
    /// The header `X-Subtitle-Style-Lossy`.
    pub style_lossy: Option<&'static str>,
    pub body: Vec<u8>,
}

/// Answers with WebVTT. That styling was lost is told in a header too.
pub fn vtt_response(body: Vec<u8>, style_lossy: bool, style: &SubtitleStyle) -> (r: VttAnswer)
    ensures
        r.content_type@ == "text/vtt; charset=utf-8"@,
        r.cache_control@ == "public, max-age=3600"@,
        match r.style_lossy {
            Some(v) => style_lossy && v@ == "true"@,
            None => !style_lossy,
        },
        r.body@ == served_body(body@, style_lossy, *style),
{
    VttAnswer {
        content_type: "text/vtt; charset=utf-8",
        cache_control: "public, max-age=3600",
        style_lossy: if style_lossy {
            Some("true")
        } else {
            None
        },
        body: vtt_body(body, style_lossy, style),
    }
}

// -------------------------------------------------------------------- requests

/// What is known of a subtitle track inside the container.
#[derive(Debug)]
pub struct TrackInfo {
    pub stream_index: u32,
    pub codec: Option<String>,
    pub is_forced: bool,
}

/// What is to be done for a request for a subtitle.
#[derive(Debug)]
pub enum SubtitlePlan {
    /// Serve the file beside the media with this number.
    Sidecar { offset: u32 },
    /// Extract the track.
    Extract { style_lossy: bool },
    /// Bitmaps cannot be converted; answered with this body.
    CannotConvert { body: String },
    /// The track holds more than forced lines; answered with this body.
    NotForced { body: String },
}

pub open spec fn at_stream(index: u32) -> spec_fn(TrackInfo) -> bool {
    |t: TrackInfo| t.stream_index == index
}

pub open spec fn forced_values() -> Seq<Seq<char>> {
    seq!["1"@, "true"@, "yes"@]
}

/// Whether only forced lines are asked for.
pub open spec fn forced_asked(qs: Seq<char>) -> bool {
    exists|i: int|
        0 <= i < query_string::pairs(qs).len() && text::eq_ci(
            (#[trigger] query_string::pairs(qs)[i]).0,
            "ForcedOnly"@,
        ) && forced_values().contains(text::lower(query_string::pairs(qs)[i].1))
}

pub open spec fn cannot_convert_body(target: Seq<char>, codec: Seq<char>) -> Seq<char> {
    "{\"error\":\"image-based subtitles cannot convert to "@ + target + "\",\"codec\":\""@ + codec
        + "\"}"@
}

pub open spec fn not_forced_body() -> Seq<char> {
    "{\"error\":\"track is not a forced-only track; pick the forced disposition track\"}"@
}

pub open spec fn track_codec(t: Option<TrackInfo>) -> Option<Seq<char>> {
    match t {
        Some(x) => text::opt_text(x.codec),
        None => None,
    }
}

/// The plan for a track inside the container that is asked for as `target`. A
/// track that is not known is left to the extraction to find.
pub open spec fn embedded_plan_is(
    p: SubtitlePlan,
    index: u32,
    tracks: Seq<TrackInfo>,
    forced: bool,
    target: Seq<char>,
) -> bool {
    let t = seqs::first_such(tracks, at_stream(index));
    match track_codec(t) {
        Some(c) if image_codec(c) => p matches SubtitlePlan::CannotConvert { body } && body@
            == cannot_convert_body(target, c),
        c => if t is Some && forced && !t->0.is_forced {
            p matches SubtitlePlan::NotForced { body } && body@ == not_forced_body()
        } else {
            p matches SubtitlePlan::Extract { style_lossy } && style_lossy == (c is Some
                && styled_codec(c->0))
        },
    }
}

/// Reads whether only forced lines are asked for.
pub fn parse_forced_only(qs: &str) -> (r: bool)
    ensures
        r == forced_asked(qs@),
{
    let ps = read_pairs(qs);
    let wanted: Vec<&str> = vec!["1", "true", "yes"];
    proof {
        assert(text::names(wanted@) == forced_values());
    }
    let mut i: usize = 0;
    while i < ps.len()
        invariant
            i <= ps.len(),
            text::names(wanted@) == forced_values(),
            query_string::pair_views(ps@) == query_string::pairs(qs@),
            forall|k: int|
                0 <= k < i ==> !(text::eq_ci(
                    (#[trigger] query_string::pairs(qs@)[k]).0,
                    "ForcedOnly"@,
                ) && forced_values().contains(text::lower(query_string::pairs(qs@)[k].1))),
        decreases ps.len() - i,
    {
        proof {
            assert(query_string::pair_views(ps@)[i as int] == (
                ps@[i as int].0@,
                ps@[i as int].1@,
            ));
        }
        if eq_ignore_case(ps[i].0.as_str(), "ForcedOnly") && one_of(
            to_lower(ps[i].1.as_str()).as_str(),
            &wanted,
        ) {
            return true;
        }
        i += 1;
    }
    false
}

/// The position of the track with this number; the number of tracks where there
/// is none.
fn find_track(tracks: &Vec<TrackInfo>, index: u32) -> (r: usize)
    ensures
        r <= tracks@.len(),
        seqs::first_such(tracks@, at_stream(index)) == (if r < tracks@.len() {
            Some(tracks@[r as int])
        } else {
            None
        }),
{
    let mut i: usize = 0;
    while i < tracks.len() && tracks[i].stream_index != index
        invariant
            i <= tracks@.len(),
            forall|k: int| 0 <= k < i ==> !at_stream(index)(#[trigger] tracks@[k]),
        decreases tracks@.len() - i,
    {
        i += 1;
    }
    proof {
        seqs::lemma_first_such(tracks@, at_stream(index), i as int);
    }
    i
}

/// Plans for a track inside the container.
pub fn plan_embedded(
    stream_index: u32,
    tracks: &Vec<TrackInfo>,
    forced_only: bool,
    target: &str,
) -> (r: SubtitlePlan)
    ensures
        embedded_plan_is(r, stream_index, tracks@, forced_only, target@),
{
    let i = find_track(tracks, stream_index);
    let mut style_lossy: bool = false;
    if i < tracks.len() {
        if let Some(c) = &tracks[i].codec {
            if is_image_subtitle_codec(c.as_str()) {
                let mut body: String = String::new();
                body.append("{\"error\":\"image-based subtitles cannot convert to ");
                body.append(target);
                body.append("\",\"codec\":\"");
                body.append(c.as_str());
                body.append("\"}");
                proof {
                    assert(body@ == cannot_convert_body(target@, c@));
                }
                return SubtitlePlan::CannotConvert { body };
            }
            style_lossy = is_styled_text_subtitle_codec(c.as_str());
        }
        if forced_only && !tracks[i].is_forced {
            return SubtitlePlan::NotForced {
                body:
                    "{\"error\":\"track is not a forced-only track; pick the forced disposition track\"}".to_owned(),
            };
        }
    }
    SubtitlePlan::Extract { style_lossy }
}

/// Plans a request for a subtitle as WebVTT.
pub fn plan_vtt(stream_index: u32, tracks: &Vec<TrackInfo>, forced_only: bool) -> (r: SubtitlePlan)
    ensures
        if stream_index >= SIDECAR_BASE_INDEX {
            r matches SubtitlePlan::Sidecar { offset } && offset == stream_index
                - SIDECAR_BASE_INDEX
        } else {
            embedded_plan_is(r, stream_index, tracks@, forced_only, "WebVTT"@)
        },
{
    if stream_index >= SIDECAR_BASE_INDEX {
        SubtitlePlan::Sidecar { offset: stream_index - SIDECAR_BASE_INDEX }
    } else {
        plan_embedded(stream_index, tracks, forced_only, "WebVTT")
    }
}

/// Plans a request for a subtitle as SRT.
pub fn plan_srt(stream_index: u32, tracks: &Vec<TrackInfo>, forced_only: bool) -> (r: SubtitlePlan)
    ensures
        embedded_plan_is(r, stream_index, tracks@, forced_only, "SRT"@),
{
    plan_embedded(stream_index, tracks, forced_only, "SRT")
}

/// Plans a request for a styled subtitle as it is.
pub fn plan_ass(stream_index: u32) -> (r: SubtitlePlan)
    ensures
        if stream_index >= SIDECAR_BASE_INDEX {
            r matches SubtitlePlan::Sidecar { offset } && offset == stream_index
                - SIDECAR_BASE_INDEX
        } else {
            r == (SubtitlePlan::Extract { style_lossy: false })
        },
{
    if stream_index >= SIDECAR_BASE_INDEX {
        SubtitlePlan::Sidecar { offset: stream_index - SIDECAR_BASE_INDEX }
    } else {
        SubtitlePlan::Extract { style_lossy: false }
    }
}

/// Plans a request for a subtitle's cues. Bitmaps have none.
pub fn plan_js(stream_index: u32, tracks: &Vec<TrackInfo>) -> (r: Result<SubtitlePlan, ApiError>)
    ensures
        match track_codec(seqs::first_such(tracks@, at_stream(stream_index))) {
            Some(c) if image_codec(c) => r matches Err(e) && e.says(
                Refusal::UnsupportedMediaType,
                "image subtitles render via burn-in, not Stream.js"@,
            ),
            _ => if stream_index >= SIDECAR_BASE_INDEX {
                r matches Ok(SubtitlePlan::Sidecar { offset }) && offset == stream_index
                    - SIDECAR_BASE_INDEX
            } else {
                r matches Ok(SubtitlePlan::Extract { style_lossy }) && !style_lossy
            },
        },
{
    let i = find_track(tracks, stream_index);
    if i < tracks.len() {
        if let Some(c) = &tracks[i].codec {
            if is_image_subtitle_codec(c.as_str()) {
                return Err(
                    ApiError::UnsupportedMediaType(
                        "image subtitles render via burn-in, not Stream.js".to_owned(),
                    ),
                );
            }
        }
    }
    Ok(plan_ass(stream_index))
}

/// The file beside the media with this number.
pub fn pick_sidecar(sidecars: &Vec<Sidecar>, offset: u32) -> (r: Result<Sidecar, ApiError>)
    ensures
        match r {
            Ok(s) => offset < sidecars@.len() && s.path@ == sidecars@[offset as int].path@ && s.kind
                == sidecars@[offset as int].kind,
            Err(e) => offset >= sidecars@.len() && e.says(
                Refusal::NotFound,
                "no sidecar at that index"@,
            ),
        },
{
    if offset as u64 >= sidecars.len() as u64 {
        return Err(ApiError::NotFound("no sidecar at that index".to_owned()));
    }
    let s = &sidecars[offset as usize];
    Ok(Sidecar { path: s.path.clone(), kind: s.kind })
}

/// The form that a track is extracted in ahead of time.
#[derive(Debug, Clone, Copy, PartialEq, Eq, Structural)]
pub enum ExtractKind {
    /// As WebVTT.
    Embedded,
    /// As it is, styling kept.
    EmbeddedAss,
}

/// How a track is extracted ahead of time; bitmaps are not.
pub fn pre_extract_kind(codec: &Option<String>) -> (r: Option<ExtractKind>)
    ensures
        r == (match text::opt_text(*codec) {
            Some(c) => if image_codec(c) {
                None
            } else if styled_codec(c) {
                Some(ExtractKind::EmbeddedAss)
            } else {
                Some(ExtractKind::Embedded)
            },
            None => Some(ExtractKind::Embedded),
        }),
{
    match codec {
        Some(c) => if is_image_subtitle_codec(c.as_str()) {
            None
        } else if is_styled_text_subtitle_codec(c.as_str()) {
            Some(ExtractKind::EmbeddedAss)
        } else {
            Some(ExtractKind::Embedded)
        },
        None => Some(ExtractKind::Embedded),
    }
}

/// The arguments that extract one track with ffmpeg; without a track number the
/// whole file is converted.
pub fn extract_args(input: &str, stream_index: Option<u32>, codec: &str, format: &str) -> (r: Vec<
    String,
>)
    ensures
        text::texts(r@) == seq!["-hide_banner"@, "-loglevel"@, "error"@, "-nostdin"@, "-i"@, input@]
            + (match stream_index {
            Some(i) => seq!["-map"@, "0:"@ + text::decimal(i as nat)],
            None => Seq::empty(),
        }) + seq!["-c:s"@, codec@, "-f"@, format@, "pipe:1"@],
{
    let mut args: Vec<String> =
        vec![
        "-hide_banner".to_owned(),
        "-loglevel".to_owned(),
        "error".to_owned(),
        "-nostdin".to_owned(),
        "-i".to_owned(),
        input.to_owned(),
    ];
    if let Some(i) = stream_index {
        args.push("-map".to_owned());
        let mut spec: String = "0:".to_owned();
        spec.append(decimal_text(i as u64).as_str());
        args.push(spec);
    }
    args.push("-c:s".to_owned());
    args.push(codec.to_owned());
    args.push("-f".to_owned());
    args.push(format.to_owned());
    args.push("pipe:1".to_owned());
    proof {
        assert(text::texts(args@) =~= seq![
            "-hide_banner"@,
            "-loglevel"@,
            "error"@,
            "-nostdin"@,
            "-i"@,
            input@,
        ] + (match stream_index {
            Some(i) => seq!["-map"@, "0:"@ + text::decimal(i as nat)],
            None => Seq::empty(),
        }) + seq!["-c:s"@, codec@, "-f"@, format@, "pipe:1"@]);
    }
    args
}

// -------------------------------------------------------------------- sidecars

/// What is done with a subtitle file beside the media.
#[derive(Debug, Clone, Copy, PartialEq, Eq, Structural)]
pub enum SidecarKind {
    /// Served as it is.
    Vtt,
    /// Converted to WebVTT.
    Convert,
}

/// A subtitle file beside the media.
#[derive(Debug)]
pub struct Sidecar {
    pub path: String,
    pub kind: SidecarKind,
}

/// An entry of a directory.
#[derive(Debug)]
pub struct DirEntry {
    pub name: String,
    pub path: String,
    pub is_dir: bool,
}

/// The kind of a file by its name in lower case.
pub open spec fn sidecar_kind(lower_name: Seq<char>) -> Option<SidecarKind> {
    if text::ends_with(lower_name, ".vtt"@) {
        Some(SidecarKind::Vtt)
    } else if text::ends_with(lower_name, ".srt"@) || text::ends_with(lower_name, ".ass"@)
        || text::ends_with(lower_name, ".ssa"@) {
        Some(SidecarKind::Convert)
    } else {
        None
    }
}

/// Whether a name is a stem followed by a dot.
pub open spec fn after_stem(lower_name: Seq<char>, stem: Seq<char>) -> bool {
    text::starts_with(lower_name, stem.push('.'))
}

/// Whether a file is a subtitle, of this media where a stem is given.
pub open spec fn entry_kind(e: DirEntry, stem: Option<Seq<char>>) -> Option<SidecarKind> {
    match stem {
        Some(s) => if after_stem(text::lower(e.name@), s) {
            sidecar_kind(text::lower(e.name@))
        } else {
            None
        },
        None => sidecar_kind(text::lower(e.name@)),
    }
}

/// The subtitle files of a directory: their paths and kinds.
pub open spec fn found_in(entries: Seq<DirEntry>, stem: Option<Seq<char>>) -> Seq<
    (Seq<char>, SidecarKind),
>
    decreases entries.len(),
{
    if entries.len() == 0 {
        Seq::empty()
    } else {
        let rest = found_in(entries.drop_last(), stem);
        match entry_kind(entries.last(), stem) {
            Some(k) => rest.push((entries.last().path@, k)),
            None => rest,
        }
    }
}

pub open spec fn sidecar_views(s: Seq<Sidecar>) -> Seq<(Seq<char>, SidecarKind)> {
    Seq::new(s.len(), |i: int| (s[i].path@, s[i].kind))
}

/// Classifies a file by its name in lower case.
pub fn sidecar_kind_for_name(lower_name: &str) -> (r: Option<SidecarKind>)
    ensures
        r == sidecar_kind(lower_name@),
{
    if has_suffix(lower_name, ".vtt") {
        Some(SidecarKind::Vtt)
    } else if has_suffix(lower_name, ".srt") || has_suffix(lower_name, ".ass") || has_suffix(
        lower_name,
        ".ssa",
    ) {
        Some(SidecarKind::Convert)
    } else {
        None
    }
}

/// Appends the subtitle files of a directory: those of this media where a stem
/// is given, else all.
pub fn scan_entries(entries: &Vec<DirEntry>, stem_lower: Option<&str>, found: &mut Vec<Sidecar>)
    ensures
        sidecar_views(final(found)@) == sidecar_views(old(found)@) + found_in(
            entries@,
            crate::stream_select::opt_str(stem_lower),
        ),
{
    let prefix: Option<String> = match stem_lower {
        Some(s) => {
            let mut p: String = s.to_owned();
            p.push('.');
            Some(p)
        },
        None => None,
    };
    let ghost stem = crate::stream_select::opt_str(stem_lower);
    let ghost before = sidecar_views(found@);
    let mut i: usize = 0;
    proof {
        assert(entries@.take(0) == Seq::<DirEntry>::empty());
        assert(before + Seq::<(Seq<char>, SidecarKind)>::empty() == before);
    }
    while i < entries.len()
        invariant
            i <= entries.len(),
            stem == crate::stream_select::opt_str(stem_lower),
            text::opt_text(prefix) == (match stem {
                Some(s) => Some(s.push('.')),
                None => None,
            }),
            sidecar_views(found@) == before + found_in(entries@.take(i as int), stem),
        decreases entries.len() - i,
    {
        proof {
            assert(entries@.take(i + 1).drop_last() == entries@.take(i as int));
            assert(entries@.take(i + 1).last() == entries@[i as int]);
        }
        let lower = to_lower(entries[i].name.as_str());
        let ours = match &prefix {
            Some(p) => has_prefix(lower.as_str(), p.as_str()),
            None => true,
        };
        if ours {
            if let Some(kind) = sidecar_kind_for_name(lower.as_str()) {
                let ghost sofar = found_in(entries@.take(i as int), stem);
                let ghost prior = found@;
                let path = entries[i].path.clone();
                found.push(Sidecar { path, kind });
                proof {
                    assert(sidecar_views(found@) == sidecar_views(prior).push((path@, kind)));
                    assert(before + sofar.push((path@, kind)) == (before + sofar).push(
                        (path@, kind),
                    ));
                }
            }
        }
        i += 1;
    }
    proof {
        assert(entries@.take(i as int) == entries@);
    }
}

pub open spec fn is_subdir(name_lower: Seq<char>) -> spec_fn(DirEntry) -> bool {
    |e: DirEntry| e.is_dir && text::lower(e.name@) == name_lower
}

/// The first sub-directory of this name, whatever its case.
pub fn find_subdir_ci(entries: &Vec<DirEntry>, name_lower: &str) -> (r: Option<String>)
    ensures
        text::opt_text(r) == (match seqs::first_such(entries@, is_subdir(name_lower@)) {
            Some(e) => Some(e.path@),
            None => None,
        }),
{
    let mut i: usize = 0;
    while i < entries.len()
        invariant
            i <= entries@.len(),
            forall|k: int| 0 <= k < i ==> !is_subdir(name_lower@)(#[trigger] entries@[k]),
        decreases entries@.len() - i,
    {
        if entries[i].is_dir && eq_text(to_lower(entries[i].name.as_str()).as_str(), name_lower) {
            proof {
                seqs::lemma_first_such(entries@, is_subdir(name_lower@), i as int);
            }
            return Some(entries[i].path.clone());
        }
        i += 1;
    }
    proof {
        seqs::lemma_first_such(entries@, is_subdir(name_lower@), i as int);
    }
    None
}

/// Whether a path stands among these.
pub open spec fn has_path(s: Seq<(Seq<char>, SidecarKind)>, p: Seq<char>) -> bool {
    exists|i: int| 0 <= i < s.len() && (#[trigger] s[i]).0 == p
}

/// Whether `r` is what was found, each path once and in the order of the paths,
/// so that a file keeps its number however the directories were walked.
pub open spec fn merged(
    r: Seq<(Seq<char>, SidecarKind)>,
    found: Seq<(Seq<char>, SidecarKind)>,
) -> bool {
    &&& forall|i: int, j: int|
        0 <= i < j < r.len() ==> sort::lex_lt(
            sort::path_key((#[trigger] r[i]).0),
            sort::path_key((#[trigger] r[j]).0),
        )
    &&& forall|i: int| 0 <= i < r.len() ==> found.contains(#[trigger] r[i])
    &&& forall|k: int| 0 <= k < found.len() ==> has_path(r, (#[trigger] found[k]).0)
}

/// Brings what was found into order, each path once.
pub fn merge_sidecars(found: &Vec<Sidecar>) -> (r: Vec<Sidecar>)
    ensures
        merged(sidecar_views(r@), sidecar_views(found@)),
{
    let n: usize = found.len();
    let mut keys: Vec<Vec<i64>> = Vec::new();
    let mut i: usize = 0;
    while i < n
        invariant
            i <= n,
            n == found@.len(),
            keys@.len() == i,
            forall|k: int| 0 <= k < i ==> sort::key_view(#[trigger] keys@[k]@) == sort::path_key(found@[k].path@),
        decreases n - i,
    {
        keys.push(key_of_path(found[i].path.as_str()));
        i += 1;
    }
    let order = order_by_keys(&keys);
    let ghost lt = sort::by_keys(sort::key_views(keys@));
    let ghost views = sidecar_views(found@);
    proof {
        sort::lemma_by_keys_orders(sort::key_views(keys@));
        sort::lemma_in_order_onto(order@, n as int, lt);
    }
    let mut out: Vec<Sidecar> = Vec::new();
    let ghost mut from: Seq<int> = Seq::empty();
    let mut j: usize = 0;
    while j < n
        invariant
            j <= n,
            n == found@.len(),
            keys@.len() == n,
            forall|k: int| 0 <= k < n ==> sort::key_view(#[trigger] keys@[k]@) == sort::path_key(found@[k].path@),
            lt == sort::by_keys(sort::key_views(keys@)),
            sort::in_order(order@, n as int, lt),
            views == sidecar_views(found@),
            from.len() == out@.len(),
            out@.len() <= j,
            forall|k: int|
                0 <= k < from.len() ==> 0 <= #[trigger] from[k] < j && sidecar_views(out@)[k]
                    == views[order@[from[k]] as int],
            forall|a: int, b: int|
                0 <= a < b < from.len() ==> sort::lex_lt(
                    sort::path_key((#[trigger] sidecar_views(out@)[a]).0),
                    sort::path_key((#[trigger] sidecar_views(out@)[b]).0),
                ),
            forall|k: int|
                0 <= k < j ==> has_path(sidecar_views(out@), views[#[trigger] order@[k] as int].0),
            j > 0 ==> out@.len() > 0 && out@[out@.len() - 1].path@ == views[order@[j
                - 1] as int].0,
        decreases n - j,
    {
        let p = order[j];
        let last: usize = out.len();
        let fresh = last == 0 || !eq_text(out[last - 1].path.as_str(), found[p].path.as_str());
        let ghost prior = sidecar_views(out@);
        if fresh {
            let item = Sidecar { path: found[p].path.clone(), kind: found[p].kind };
            proof {
                if last > 0 {
                    let q = order@[j - 1] as int;
                    assert(sort::precedes(lt, q, p as int));
                    sort::lemma_lex_strict(sort::path_key(found@[q].path@), sort::path_key(
                        found@[p as int].path@,
                    ));
                    if !lt(q, p as int) {
                        sort::lemma_path_key(found@[q].path@, found@[p as int].path@);
                    }
                    assert(prior[last - 1].0 == found@[q].path@);
                    assert forall|a: int| 0 <= a < last implies sort::lex_lt(
                        sort::path_key((#[trigger] prior[a]).0),
                        sort::path_key(found@[p as int].path@),
                    ) by {
                        if a < last - 1 {
                            sort::lemma_lex_between(
                                sort::path_key(prior[a].0),
                                sort::path_key(prior[last - 1].0),
                                sort::path_key(found@[p as int].path@),
                            );
                            sort::lemma_lex_strict(
                                sort::path_key(found@[q].path@),
                                sort::path_key(found@[p as int].path@),
                            );
                        }
                    }
                }
            }
            out.push(item);
            proof {
                from = from.push(j as int);
                assert(sidecar_views(out@) == prior.push((item.path@, item.kind)));
            }
        }
        proof {
            assert forall|k: int| 0 <= k < j + 1 implies has_path(
                sidecar_views(out@),
                views[#[trigger] order@[k] as int].0,
            ) by {
                if k < j {
                    assert(has_path(prior, views[order@[k] as int].0));
                    let w = choose|w: int|
                        0 <= w < prior.len() && (#[trigger] prior[w]).0 == views[order@[k] as int].0;
                    assert(sidecar_views(out@)[w].0 == views[order@[k] as int].0);
                } else {
                    let w = out@.len() - 1;
                    assert(sidecar_views(out@)[w].0 == views[p as int].0);
                }
            }
        }
        j += 1;
    }
    proof {
        let r = sidecar_views(out@);
        assert forall|i: int| 0 <= i < r.len() implies views.contains(#[trigger] r[i]) by {
            assert(0 <= from[i] < n);
            assert(r[i] == views[order@[from[i]] as int]);
        }
        assert forall|k: int| 0 <= k < views.len() implies has_path(r, (#[trigger] views[k]).0) by {
            assert(sort::stands_in(order@, k));
            let w = choose|w: int| 0 <= w < order@.len() && #[trigger] order@[w] == k;
            assert(has_path(r, views[order@[w] as int].0));
        }
    }
    out
}

/// What the directories around the media hold; a directory that is not there
/// holds nothing.
#[derive(Debug)]
pub struct SidecarListings {
    /// The directory of the media itself.
    pub beside: Vec<DirEntry>,
    /// The directory `subs` in it, and in that the one named after the media.
    pub subs: Vec<DirEntry>,
    pub subs_episode: Vec<DirEntry>,
    /// The directory `subtitles` in it, and in that the one named after the
    /// media.
    pub subtitles: Vec<DirEntry>,
    pub subtitles_episode: Vec<DirEntry>,
    /// The directory named after the media.
    pub episode: Vec<DirEntry>,
}

/// All subtitle files around the media. In a directory named after the media
/// every subtitle file counts, elsewhere those that its name begins.
pub open spec fn all_found(l: SidecarListings, stem: Seq<char>) -> Seq<(Seq<char>, SidecarKind)> {
    found_in(l.beside@, Some(stem)) + found_in(l.subs@, Some(stem)) + found_in(
        l.subs_episode@,
        None,
    ) + found_in(l.subtitles@, Some(stem)) + found_in(l.subtitles_episode@, None) + found_in(
        l.episode@,
        None,
    )
}

/// Finds the subtitle files around the media with this stem.
pub fn discover_sidecars(stem: &str, l: &SidecarListings) -> (r: Vec<Sidecar>)
    ensures
        merged(sidecar_views(r@), all_found(*l, text::lower(stem@))),
{
    let low = to_lower(stem);
    let mut found: Vec<Sidecar> = Vec::new();
    scan_entries(&l.beside, Some(low.as_str()), &mut found);
    scan_entries(&l.subs, Some(low.as_str()), &mut found);
    scan_entries(&l.subs_episode, None, &mut found);
    scan_entries(&l.subtitles, Some(low.as_str()), &mut found);
    scan_entries(&l.subtitles_episode, None, &mut found);
    scan_entries(&l.episode, None, &mut found);
    proof {
        assert(sidecar_views(found@) =~= all_found(*l, low@));
    }
    merge_sidecars(&found)
}

// ------------------------------------------------------------------------ laws

/// Whether paths stand in ascending order.
pub open spec fn ascending(r: Seq<Seq<char>>) -> bool {
    forall|i: int, j: int|
        0 <= i < j < r.len() ==> sort::lex_lt(
            sort::path_key(#[trigger] r[i]),
            sort::path_key(#[trigger] r[j]),
        )
}

proof fn lemma_ascending_unique(a: Seq<Seq<char>>, b: Seq<Seq<char>>)
    requires
        ascending(a),
        ascending(b),
        forall|p: Seq<char>| #[trigger] a.contains(p) <==> b.contains(p),
    ensures
        a == b,
    decreases a.len(),
{
    if a.len() == 0 {
        if b.len() > 0 {
            assert(b.contains(b[0]));
            assert(a.contains(b[0]));
        }
        assert(a =~= b);
    } else {
        assert(a.contains(a[0]));
        let j = choose|j: int| 0 <= j < b.len() && b[j] == a[0];
        assert(b.contains(b[0]));
        assert(a.contains(b[0]));
        let i = choose|i: int| 0 <= i < a.len() && a[i] == b[0];
        if a[0] != b[0] {
            sort::lemma_lex_strict(sort::path_key(a[0]), sort::path_key(b[0]));
            assert(sort::lex_lt(sort::path_key(a[0]), sort::path_key(a[i])));
            assert(sort::lex_lt(sort::path_key(b[0]), sort::path_key(b[j])));
        }
        let ta = a.subrange(1, a.len() as int);
        let tb = b.subrange(1, b.len() as int);
        assert forall|p: Seq<char>| #[trigger] ta.contains(p) <==> tb.contains(p) by {
            if ta.contains(p) {
                let k = choose|k: int| 0 <= k < ta.len() && ta[k] == p;
                assert(a[k + 1] == p);
                assert(a.contains(p));
                assert(b.contains(p));
                sort::lemma_lex_strict(sort::path_key(a[0]), sort::path_key(a[k + 1]));
                let m = choose|m: int| 0 <= m < b.len() && b[m] == p;
                assert(m > 0);
                assert(tb[m - 1] == p);
            }
            if tb.contains(p) {
                let k = choose|k: int| 0 <= k < tb.len() && tb[k] == p;
                assert(b[k + 1] == p);
                assert(b.contains(p));
                assert(a.contains(p));
                sort::lemma_lex_strict(sort::path_key(b[0]), sort::path_key(b[k + 1]));
                let m = choose|m: int| 0 <= m < a.len() && a[m] == p;
                assert(m > 0);
                assert(ta[m - 1] == p);
            }
        }
        assert(ascending(ta)) by {
            assert forall|x: int, y: int| 0 <= x < y < ta.len() implies sort::lex_lt(
                sort::path_key(#[trigger] ta[x]),
                sort::path_key(#[trigger] ta[y]),
            ) by {
                assert(ta[x] == a[x + 1] && ta[y] == a[y + 1]);
            }
        }
        assert(ascending(tb)) by {
            assert forall|x: int, y: int| 0 <= x < y < tb.len() implies sort::lex_lt(
                sort::path_key(#[trigger] tb[x]),
                sort::path_key(#[trigger] tb[y]),
            ) by {
                assert(tb[x] == b[x + 1] && tb[y] == b[y + 1]);
            }
        }
        lemma_ascending_unique(ta, tb);
        assert(a =~= seq![a[0]] + ta);
        assert(b =~= seq![b[0]] + tb);
    }
}

pub open spec fn paths_of(s: Seq<(Seq<char>, SidecarKind)>) -> Seq<Seq<char>> {
    s.map_values(|x: (Seq<char>, SidecarKind)| x.0)
}

/// The number that a file goes by does not depend on how the directories were
/// walked: two walks that found the same files list them alike.
pub proof fn law_sidecar_numbers_are_stable(
    found1: Seq<(Seq<char>, SidecarKind)>,
    found2: Seq<(Seq<char>, SidecarKind)>,
    r1: Seq<(Seq<char>, SidecarKind)>,
    r2: Seq<(Seq<char>, SidecarKind)>,
)
    requires
        merged(r1, found1),
        merged(r2, found2),
        forall|p: Seq<char>| #[trigger] has_path(found1, p) <==> has_path(found2, p),
    ensures
        paths_of(r1) == paths_of(r2),
{
    let a = paths_of(r1);
    let b = paths_of(r2);
    assert forall|p: Seq<char>| #[trigger] a.contains(p) <==> b.contains(p) by {
        lemma_merged_paths(r1, found1, p);
        lemma_merged_paths(r2, found2, p);
    }
    lemma_ascending_unique(a, b);
}

proof fn lemma_merged_paths(
    r: Seq<(Seq<char>, SidecarKind)>,
    found: Seq<(Seq<char>, SidecarKind)>,
    p: Seq<char>,
)
    requires
        merged(r, found),
    ensures
        paths_of(r).contains(p) <==> has_path(found, p),
{
    if paths_of(r).contains(p) {
        let i = choose|i: int| 0 <= i < paths_of(r).len() && paths_of(r)[i] == p;
        assert(found.contains(r[i]));
        let k = choose|k: int| 0 <= k < found.len() && found[k] == r[i];
        assert(found[k].0 == p);
    }
    if has_path(found, p) {
        let k = choose|k: int| 0 <= k < found.len() && (#[trigger] found[k]).0 == p;
        assert(has_path(r, found[k].0));
        let i = choose|i: int| 0 <= i < r.len() && (#[trigger] r[i]).0 == p;
        assert(paths_of(r)[i] == p);
    }
}

/// Nothing that a style value holds can end the rule that it stands in.
pub proof fn law_style_values_stay_in_their_rule(v: Option<Seq<char>>, i: int)
    requires
        safe_value(v) is Some,
        0 <= i < safe_value(v)->0.len(),
    ensures
        !breaks_out(safe_value(v)->0[i]),
{
}

/// A value with a character that could end the rule contributes no declaration.
pub proof fn law_unsafe_style_values_are_left_out(property: Seq<char>, v: Seq<char>, i: int)
    requires
        0 <= i < text::trim(v).len(),
        breaks_out(text::trim(v)[i]),
    ensures
        declaration(property, safe_value(Some(v))) == Seq::<char>::empty(),
{
}

/// How often a character stands among the first `n` of a text.
pub open spec fn times_below(s: Seq<char>, c: char, n: int) -> int
    decreases n,
{
    if n <= 0 {
        0
    } else if s[n - 1] == c {
        times_below(s, c, n - 1) + 1
    } else {
        times_below(s, c, n - 1)
    }
}

/// How often a character stands in a text.
pub open spec fn times(s: Seq<char>, c: char) -> int {
    times_below(s, c, s.len() as int)
}

proof fn lemma_times_of_front(a: Seq<char>, b: Seq<char>, c: char, n: int)
    requires
        n <= a.len(),
    ensures
        times_below(a + b, c, n) == times_below(a, c, n),
    decreases n,
{
    if n > 0 {
        assert((a + b)[n - 1] == a[n - 1]);
        lemma_times_of_front(a, b, c, n - 1);
    }
}

proof fn lemma_times_of_both(a: Seq<char>, b: Seq<char>, c: char, n: int)
    requires
        0 <= n <= b.len(),
    ensures
        times_below(a + b, c, a.len() + n) == times(a, c) + times_below(b, c, n),
    decreases n,
{
    if n > 0 {
        assert((a + b)[a.len() + n - 1] == b[n - 1]);
        lemma_times_of_both(a, b, c, n - 1);
    } else {
        lemma_times_of_front(a, b, c, a.len() as int);
    }
}

proof fn lemma_times_join(a: Seq<char>, b: Seq<char>, c: char)
    ensures
        times(a + b, c) == times(a, c) + times(b, c),
{
    lemma_times_of_both(a, b, c, b.len() as int);
}

proof fn lemma_times_none(s: Seq<char>, c: char, n: int)
    requires
        n <= s.len(),
        forall|i: int| 0 <= i < s.len() ==> #[trigger] s[i] != c,
    ensures
        times_below(s, c, n) == 0,
    decreases n,
{
    if n > 0 {
        lemma_times_none(s, c, n - 1);
    }
}

/// The characters that a rule is made of or ended by.
spec fn is_mark(c: char) -> bool {
    c == '{' || c == '}' || c == ';' || c == '"' || c == '\'' || c == '\r'
}

proof fn lemma_marks_of_declaration(property: Seq<char>, value: Option<Seq<char>>, c: char)
    requires
        is_mark(c),
        times(property, c) == 0,
        value is Some ==> forall|i: int|
            0 <= i < value->0.len() ==> !breaks_out(#[trigger] value->0[i]),
    ensures
        times(declaration(property, value), c) == (if value is Some && c == ';' {
            1int
        } else {
            0
        }),
{
    match value {
        Some(v) => {
            reveal_strlit("  ");
            reveal_strlit(": ");
            reveal_strlit(";\n");
            reveal_with_fuel(times_below, 3);
            assert forall|i: int| 0 <= i < v.len() implies #[trigger] v[i] != c by {
                assert(!breaks_out(v[i]));
            }
            lemma_times_none(v, c, v.len() as int);
            lemma_times_join("  "@, property, c);
            lemma_times_join("  "@ + property, ": "@, c);
            lemma_times_join("  "@ + property + ": "@, v, c);
            lemma_times_join("  "@ + property + ": "@ + v, ";\n"@, c);
        },
        None => {},
    }
}

proof fn lemma_marks_of_block(style: SubtitleStyle, c: char)
    requires
        !style.unset(),
        is_mark(c),
    ensures
        times(style.block(), c) == (if c == '{' || c == '}' {
            1int
        } else if c == ';' {
            (if safe_value(text::opt_text(style.color)) is Some {
                1int
            } else {
                0
            }) + (if safe_value(text::opt_text(style.background)) is Some {
                1int
            } else {
                0
            }) + (if safe_value(text::opt_text(style.font_size)) is Some {
                1int
            } else {
                0
            })
        } else {
            0
        }),
{
    let head = "STYLE\n::cue {\n"@;
    let tail = "}\n\n"@;
    reveal_strlit("STYLE\n::cue {\n");
    reveal_strlit("}\n\n");
    reveal_strlit("color");
    reveal_strlit("background-color");
    reveal_strlit("font-size");
    reveal_with_fuel(times_below, 17);
    assert(times(head, c) == (if c == '{' {
        1int
    } else {
        0
    }));
    assert(times(tail, c) == (if c == '}' {
        1int
    } else {
        0
    }));
    assert(times("color"@, c) == 0);
    assert(times("background-color"@, c) == 0);
    assert(times("font-size"@, c) == 0);
    let first = declaration("color"@, safe_value(text::opt_text(style.color)));
    let second = declaration("background-color"@, safe_value(text::opt_text(style.background)));
    let third = declaration("font-size"@, safe_value(text::opt_text(style.font_size)));
    lemma_marks_of_declaration("color"@, safe_value(text::opt_text(style.color)), c);
    lemma_marks_of_declaration(
        "background-color"@,
        safe_value(text::opt_text(style.background)),
        c,
    );
    lemma_marks_of_declaration("font-size"@, safe_value(text::opt_text(style.font_size)), c);
    lemma_times_join(head, first, c);
    lemma_times_join(head + first, second, c);
    lemma_times_join(head + first + second, third, c);
    lemma_times_join(head + first + second + third, tail, c);
}

/// A style block is one rule, whatever the values are: it starts and ends as a
/// rule does, has one brace of each kind and at most three declarations, and
/// holds no quote and no carriage return.
pub proof fn law_a_style_block_is_one_rule(style: SubtitleStyle)
    requires
        !style.unset(),
    ensures
        text::starts_with(style.block(), "STYLE\n::cue {\n"@),
        text::ends_with(style.block(), "}\n\n"@),
        times(style.block(), '{') == 1,
        times(style.block(), '}') == 1,
        times(style.block(), ';') <= 3,
        times(style.block(), '"') == 0,
        times(style.block(), '\'') == 0,
        times(style.block(), '\r') == 0,
{
    lemma_marks_of_block(style, '{');
    lemma_marks_of_block(style, '}');
    lemma_marks_of_block(style, ';');
    lemma_marks_of_block(style, '"');
    lemma_marks_of_block(style, '\'');
    lemma_marks_of_block(style, '\r');
    let b = style.block();
    let head = "STYLE\n::cue {\n"@;
    let tail = "}\n\n"@;
    assert(b.subrange(0, head.len() as int) =~= head);
    assert(b.subrange(b.len() - tail.len(), b.len() as int) =~= tail);
}

/// A viewer without styling gets the body as it was extracted, unless styling
/// was lost on the way.
pub proof fn law_no_styling_leaves_the_body(body: Seq<u8>, style: SubtitleStyle)
    requires
        style.unset(),
    ensures
        served_body(body, false, style) == body,
{
}

// --------------------------------------------------------------- laws of cues

/// A time stamp of hours, minutes, seconds and milliseconds is the ticks that
/// they make together; without hours it is those of the rest.
pub proof fn law_stamps_are_times(h: Seq<char>, m: Seq<char>, s: Seq<char>, ms: Seq<char>)
    requires
        text::all_digits(h) && h.len() >= 2 && text::digits_value(h) <= i64::MAX,
        text::all_digits(m) && m.len() == 2,
        text::all_digits(s) && s.len() == 2,
        text::all_digits(ms) && ms.len() == 3,
    ensures
        stamp_ticks(h.push(':') + (m.push(':') + s).push('.') + ms) == Some(
            ((text::digits_value(h) * 60 + text::digits_value(m)) * 60 + text::digits_value(s))
                * 10_000_000 + text::digits_value(ms) * 10_000,
        ),
        stamp_ticks((m.push(':') + s).push('.') + ms) == Some(
            (text::digits_value(m) * 60 + text::digits_value(s)) * 10_000_000 + text::digits_value(
                ms,
            ) * 10_000,
        ),
{
    let short = m.push(':') + s;
    let long = h.push(':') + short;
    lemma_no_mark(h, '.');
    lemma_no_mark(m, '.');
    lemma_no_mark(s, '.');
    lemma_no_mark(h, ':');
    lemma_no_mark(m, ':');
    lemma_no_mark(s, ':');
    assert(!short.contains('.')) by {
        assert forall|i: int| 0 <= i < short.len() implies short[i] != '.' by {
            if i < m.len() {
                assert(m.contains(m[i]));
                assert(short[i] == m[i]);
            } else if i > m.len() {
                assert(s.contains(s[i - m.len() - 1]));
                assert(short[i] == s[i - m.len() - 1]);
            }
        }
    }
    assert(!long.contains('.')) by {
        assert forall|i: int| 0 <= i < long.len() implies long[i] != '.' by {
            if i < h.len() {
                assert(h.contains(h[i]));
                assert(long[i] == h[i]);
            } else if i > h.len() {
                assert(short.contains(short[i - h.len() - 1]));
                assert(long[i] == short[i - h.len() - 1]);
            }
        }
    }
    text::law_a_text_is_cut_once(short, '.', ms);
    text::law_a_text_is_cut_once(long, '.', ms);
    assert(h.push(':') + (m.push(':') + s).push('.') + ms =~= long.push('.') + ms);
    text::law_texts_split_at_the_mark(s, ':', Seq::empty());
    text::law_texts_split_at_the_mark(m, ':', s);
    text::law_texts_split_at_the_mark(h, ':', short);
    assert(text::split(short, ':') =~= seq![m, s]);
    assert(text::split(long, ':') =~= seq![h, m, s]);
    lemma_small(m);
    lemma_small(s);
    lemma_small(ms);
    lemma_read(h);
    lemma_read(m);
    lemma_read(s);
    lemma_read(ms);
}

proof fn lemma_no_mark(d: Seq<char>, c: char)
    requires
        text::all_digits(d),
        !text::is_digit(c),
    ensures
        !d.contains(c),
{
    assert forall|i: int| 0 <= i < d.len() implies d[i] != c by {
        assert(text::is_digit(d[i]));
    }
}

proof fn lemma_small(d: Seq<char>)
    requires
        text::all_digits(d),
        d.len() <= 3,
    ensures
        0 <= text::digits_value(d) < 1000,
{
    reveal_with_fuel(text::digits_value, 4);
    text::lemma_digits_value_nonneg(d);
    if d.len() > 0 {
        assert(text::is_digit(d[d.len() - 1]));
    }
    if d.len() > 1 {
        assert(text::is_digit(d[d.len() - 2]));
        assert(d.drop_last().last() == d[d.len() - 2]);
    }
    if d.len() > 2 {
        assert(text::is_digit(d[d.len() - 3]));
        assert(d.drop_last().drop_last().last() == d[d.len() - 3]);
    }
}

proof fn lemma_read(d: Seq<char>)
    requires
        text::all_digits(d),
        d.len() > 0,
        text::digits_value(d) <= i64::MAX,
    ensures
        text::parse_unsigned(d, i64::MAX as int) == Some(text::digits_value(d)),
{
    text::law_what_a_number_looks_like(d, i64::MAX as int);
}

proof fn lemma_before_the_times(before: Seq<Seq<char>>)
    requires
        forall|i: int| 0 <= i < before.len() ==> lines::cut_by(#[trigger] before[i], "-->"@) is None,
    ensures
        read_block(before).timing is None,
        read_block(before).cue_lines.len() == 0,
    decreases before.len(),
{
    if before.len() > 0 {
        assert forall|i: int| 0 <= i < before.drop_last().len() implies lines::cut_by(
            #[trigger] before.drop_last()[i],
            "-->"@,
        ) is None by {
            assert(before.drop_last()[i] == before[i]);
        }
        lemma_before_the_times(before.drop_last());
        assert(before.last() == before[before.len() - 1]);
    }
}

/// A block is read as it stands: what comes before the line with the arrow does
/// not count, the times stand on its two sides, and all lines after it are the
/// text.
pub proof fn law_a_block_is_times_and_text(
    before: Seq<Seq<char>>,
    line: Seq<char>,
    start: Seq<char>,
    end: Seq<char>,
    after: Seq<Seq<char>>,
)
    requires
        forall|i: int| 0 <= i < before.len() ==> lines::cut_by(#[trigger] before[i], "-->"@) is None,
        lines::cut_by(line, "-->"@) == Some((start, end)),
        stamp_ticks(text::trim(start)) is Some,
        stamp_ticks(text::trim(start))->0 <= i64::MAX,
        stamp_ticks(text::split(text::trim(end), ' ')[0]) is Some,
        stamp_ticks(text::split(text::trim(end), ' ')[0])->0 <= i64::MAX,
        stamp_ticks(text::trim(start))->0 >= 0,
        stamp_ticks(text::split(text::trim(end), ' ')[0])->0 >= 0,
    ensures
        read_block(before.push(line) + after).timing == Some(
            (
                stamp_ticks(text::trim(start))->0,
                stamp_ticks(text::split(text::trim(end), ' ')[0])->0,
            ),
        ),
        read_block(before.push(line) + after).cue_lines == after,
    decreases after.len(),
{
    let all = before.push(line) + after;
    if after.len() == 0 {
        assert(all =~= before.push(line));
        assert(all.drop_last() =~= before);
        lemma_before_the_times(before);
        assert(read_block(all).cue_lines =~= after);
    } else {
        assert(all.drop_last() =~= before.push(line) + after.drop_last());
        assert(all.last() == after.last());
        law_a_block_is_times_and_text(before, line, start, end, after.drop_last());
        assert(read_block(all).cue_lines =~= after);
    }
}

/// A block with times and a text that is not blank is a cue with that text and
/// those times, unless it is the signature or a note.
pub proof fn law_a_block_is_a_cue(block: Seq<char>)
    requires
        ({
            let b = lines::strip_filler(block);
            b.len() > 0 && !text::starts_with(b, "WEBVTT"@) && !text::starts_with(b, "NOTE"@)
        }),
    ensures
        ({
            let st = read_block(lines::lines_of(lines::strip_filler(block)));
            let words = lines::joined(st.cue_lines, "\n"@);
            &&& st.timing is Some && text::trim(words).len() > 0 ==> block_cue(block) is Some
                && block_cue(block)->0.text == words && st.timing == Some(
                (block_cue(block)->0.start, block_cue(block)->0.end),
            )
            &&& st.timing is None || text::trim(words).len() == 0 ==> block_cue(block) is None
        }),
{
}

proof fn lemma_block_cues_hold(blocks: Seq<Seq<char>>, k: int)
    requires
        0 <= k < blocks.len(),
        block_cue(blocks[k]) is Some,
    ensures
        block_cues(blocks).contains(block_cue(blocks[k])->0),
    decreases blocks.len(),
{
    let rest = block_cues(blocks.drop_last());
    let all = block_cues(blocks);
    let c = block_cue(blocks[k])->0;
    if k == blocks.len() - 1 {
        assert(all[rest.len() as int] == c);
    } else {
        assert(blocks.drop_last()[k] == blocks[k]);
        lemma_block_cues_hold(blocks.drop_last(), k);
        let j = choose|j: int| 0 <= j < rest.len() && rest[j] == c;
        assert(all[j] == c);
    }
}

proof fn lemma_outer_cues_hold(outer: Seq<Seq<char>>, n: int, k: int)
    requires
        0 <= n < outer.len(),
        0 <= k < lines::split_by(outer[n], "\r\n\r\n"@).len(),
        block_cue(lines::split_by(outer[n], "\r\n\r\n"@)[k]) is Some,
    ensures
        outer_cues(outer).contains(block_cue(lines::split_by(outer[n], "\r\n\r\n"@)[k])->0),
    decreases outer.len(),
{
    let a = outer_cues(outer.drop_last());
    let b = block_cues(lines::split_by(outer.last(), "\r\n\r\n"@));
    let c = block_cue(lines::split_by(outer[n], "\r\n\r\n"@)[k])->0;
    if n == outer.len() - 1 {
        lemma_block_cues_hold(lines::split_by(outer[n], "\r\n\r\n"@), k);
        let j = choose|j: int| 0 <= j < b.len() && b[j] == c;
        assert((a + b)[a.len() + j] == c);
    } else {
        assert(outer.drop_last()[n] == outer[n]);
        lemma_outer_cues_hold(outer.drop_last(), n, k);
        let j = choose|j: int| 0 <= j < a.len() && a[j] == c;
        assert((a + b)[j] == c);
    }
}

/// No cue of a document is lost: every block between blank lines that is a cue
/// is among its cues.
pub proof fn law_no_cue_is_lost(doc: Seq<char>, n: int, k: int)
    requires
        0 <= n < lines::split_by(doc, "\n\n"@).len(),
        0 <= k < lines::split_by(lines::split_by(doc, "\n\n"@)[n], "\r\n\r\n"@).len(),
        block_cue(lines::split_by(lines::split_by(doc, "\n\n"@)[n], "\r\n\r\n"@)[k]) is Some,
    ensures
        cues_of(doc).contains(
            block_cue(lines::split_by(lines::split_by(doc, "\n\n"@)[n], "\r\n\r\n"@)[k])->0,
        ),
{
    lemma_outer_cues_hold(lines::split_by(doc, "\n\n"@), n, k);
}

/// An event is a cue under its number: with its text, from its start to its end.
pub proof fn law_events_are_the_cues(es: Seq<TrackEvent>, doc: Seq<char>, i: int)
    requires
        events_are(es, cues_of(doc)),
        0 <= i < cues_of(doc).len(),
    ensures
        es.len() == cues_of(doc).len(),
        es[i].text@ == cues_of(doc)[i].text,
        es[i].start_position_ticks == cues_of(doc)[i].start,
        es[i].end_position_ticks == cues_of(doc)[i].end,
        es[i].id@ == text::decimal(i as nat),
{
    assert(event_is(es[i], cues_of(doc)[i], i));
}

/// An event as JSON names its start, its end, its id and its text.
pub proof fn law_events_are_written_out(id: Seq<char>, txt: Seq<char>, start: nat, end: nat)
    ensures
        text::contains(
            event_json(id, txt, start as int, end as int),
            "\"StartPositionTicks\":"@ + text::decimal(start),
        ),
        text::contains(
            event_json(id, txt, start as int, end as int),
            "\"EndPositionTicks\":"@ + text::decimal(end),
        ),
        text::contains(event_json(id, txt, start as int, end as int), "\"Id\":"@ + id),
        text::contains(event_json(id, txt, start as int, end as int), "\"Text\":"@ + txt),
{
    reveal_strlit("\"StartPositionTicks\":");
    reveal_strlit(",\"StartPositionTicks\":");
    reveal_strlit("\"EndPositionTicks\":");
    reveal_strlit("{\"EndPositionTicks\":");
    reveal_strlit("\"Id\":");
    reveal_strlit(",\"Id\":");
    reveal_strlit("\"Text\":");
    reveal_strlit(",\"Text\":");
    let j = event_json(id, txt, start as int, end as int);
    let a = "{\"EndPositionTicks\":"@ + text::decimal(end);
    let b = a + ",\"Id\":"@ + id;
    let c = b + ",\"StartPositionTicks\":"@ + text::decimal(start);
    assert(j =~= c + ",\"Text\":"@ + txt + "}"@);
    let p1 = "\"EndPositionTicks\":"@ + text::decimal(end);
    assert(j.subrange(1, 1int + p1.len()) =~= p1);
    assert(text::occurs_at(j, p1, 1));
    let p2 = "\"Id\":"@ + id;
    let n2 = a.len() as int + 1;
    assert(j.subrange(n2, n2 + p2.len()) =~= p2);
    assert(text::occurs_at(j, p2, n2));
    let p3 = "\"StartPositionTicks\":"@ + text::decimal(start);
    let n3 = b.len() as int + 1;
    assert(j.subrange(n3, n3 + p3.len()) =~= p3);
    assert(text::occurs_at(j, p3, n3));
    let p4 = "\"Text\":"@ + txt;
    let n4 = c.len() as int + 1;
    assert(j.subrange(n4, n4 + p4.len()) =~= p4);
    assert(text::occurs_at(j, p4, n4));
}

// -------------------------------------------------------- laws of the formats

/// The codecs that are bitmaps, by their names in any case.
pub proof fn law_bitmap_codecs(codec: Seq<char>)
    ensures
        image_codec(codec) <==> {
            let c = text::lower(codec);
            c == "hdmv_pgs_subtitle"@ || c == "pgs"@ || c == "pgssub"@ || c == "dvb_subtitle"@ || c
                == "dvbsub"@ || c == "dvd_subtitle"@ || c == "dvdsub"@ || c == "vobsub"@
        },
{
    let n = image_names();
    assert(n[0] == "hdmv_pgs_subtitle"@ && n[1] == "pgs"@ && n[2] == "pgssub"@ && n[3]
        == "dvb_subtitle"@ && n[4] == "dvbsub"@ && n[5] == "dvd_subtitle"@ && n[6] == "dvdsub"@
        && n[7] == "vobsub"@);
    if n.contains(text::lower(codec)) {
        let k = choose|k: int| 0 <= k < n.len() && n[k] == text::lower(codec);
    }
}

/// The codecs that are text, and those of them that are styled, by their names
/// in any case.
pub proof fn law_text_codecs(codec: Seq<char>)
    ensures
        text_codec(codec) <==> {
            let c = text::lower(codec);
            c == "subrip"@ || c == "srt"@ || c == "webvtt"@ || c == "vtt"@ || c == "mov_text"@ || c
                == "text"@ || c == "subviewer"@ || c == "microdvd"@ || c == "ass"@ || c == "ssa"@
                || c == "advanced substation alpha"@
        },
        styled_codec(codec) <==> {
            let c = text::lower(codec);
            c == "ass"@ || c == "ssa"@ || c == "advanced substation alpha"@
        },
{
    let n = text_names();
    assert(n[0] == "subrip"@ && n[1] == "srt"@ && n[2] == "webvtt"@ && n[3] == "vtt"@ && n[4]
        == "ass"@ && n[5] == "ssa"@ && n[6] == "advanced substation alpha"@ && n[7] == "mov_text"@
        && n[8] == "text"@ && n[9] == "subviewer"@ && n[10] == "microdvd"@);
    if n.contains(text::lower(codec)) {
        let k = choose|k: int| 0 <= k < n.len() && n[k] == text::lower(codec);
    }
    let a = ass_names();
    assert(a[0] == "ass"@ && a[1] == "ssa"@ && a[2] == "advanced substation alpha"@);
    if a.contains(text::lower(codec)) {
        let k = choose|k: int| 0 <= k < a.len() && a[k] == text::lower(codec);
    }
}

/// A track of bitmaps is refused; where only forced tracks are asked for, so is
/// one that is not forced; any other is extracted, and the client is told where
/// styling is lost.
pub proof fn law_what_is_extracted(
    p: SubtitlePlan,
    index: u32,
    tracks: Seq<TrackInfo>,
    forced: bool,
    target: Seq<char>,
    i: int,
)
    requires
        embedded_plan_is(p, index, tracks, forced, target),
        0 <= i < tracks.len(),
        tracks[i].stream_index == index,
        forall|k: int| 0 <= k < i ==> (#[trigger] tracks[k]).stream_index != index,
    ensures
        p is CannotConvert <==> tracks[i].codec is Some && image_codec(tracks[i].codec->0@),
        p is NotForced <==> !(tracks[i].codec is Some && image_codec(tracks[i].codec->0@)) && forced
            && !tracks[i].is_forced,
        p matches SubtitlePlan::Extract { style_lossy } ==> style_lossy == (tracks[i].codec is Some
            && {
            let c = text::lower(tracks[i].codec->0@);
            c == "ass"@ || c == "ssa"@ || c == "advanced substation alpha"@
        }),
        p is CannotConvert || p is NotForced || p is Extract,
{
    assert forall|k: int| 0 <= k < i implies !at_stream(index)(#[trigger] tracks[k]) by {}
    seqs::lemma_first_such(tracks, at_stream(index), i);
    if tracks[i].codec is Some {
        law_text_codecs(tracks[i].codec->0@);
    }
}

/// Forced tracks alone are asked for by the parameter of that name, with a value
/// that says yes.
pub proof fn law_forced_tracks_are_asked_for(qs: Seq<char>)
    ensures
        forced_asked(qs) <==> exists|i: int|
            0 <= i < query_string::pairs(qs).len() && text::eq_ci(
                (#[trigger] query_string::pairs(qs)[i]).0,
                "ForcedOnly"@,
            ) && (text::lower(query_string::pairs(qs)[i].1) == "1"@ || text::lower(
                query_string::pairs(qs)[i].1,
            ) == "true"@ || text::lower(query_string::pairs(qs)[i].1) == "yes"@),
{
    let f = forced_values();
    assert(f[0] == "1"@ && f[1] == "true"@ && f[2] == "yes"@);
    assert forall|v: Seq<char>| #[trigger] f.contains(v) <==> v == "1"@ || v == "true"@ || v
        == "yes"@ by {
        if f.contains(v) {
            let k = choose|k: int| 0 <= k < f.len() && f[k] == v;
        }
    }
}

/// The viewer's colour, background and size are written into the block, as they
/// are set, where they are safe.
pub proof fn law_the_style_is_written_out(style: SubtitleStyle)
    ensures
        safe_value(text::opt_text(style.color)) matches Some(v) ==> text::contains(
            style.block(),
            "color: "@ + v + ";"@,
        ),
        safe_value(text::opt_text(style.background)) matches Some(v) ==> text::contains(
            style.block(),
            "background-color: "@ + v + ";"@,
        ),
        safe_value(text::opt_text(style.font_size)) matches Some(v) ==> text::contains(
            style.block(),
            "font-size: "@ + v + ";"@,
        ),
{
    let b = style.block();
    let head = "STYLE\n::cue {\n"@;
    let c = declaration("color"@, safe_value(text::opt_text(style.color)));
    let g = declaration("background-color"@, safe_value(text::opt_text(style.background)));
    let z = declaration("font-size"@, safe_value(text::opt_text(style.font_size)));
    let tail = "}\n\n"@;
    reveal_strlit("  ");
    reveal_strlit(": ");
    reveal_strlit(";\n");
    reveal_strlit(";");
    reveal_strlit("color");
    reveal_strlit("color: ");
    reveal_strlit("background-color");
    reveal_strlit("background-color: ");
    reveal_strlit("font-size");
    reveal_strlit("font-size: ");
    if let Some(v) = safe_value(text::opt_text(style.color)) {
        let p = "color: "@ + v + ";"@;
        let n = head.len() as int + 2;
        assert(b.subrange(n, n + p.len()) =~= p);
        assert(text::occurs_at(b, p, n));
    }
    if let Some(v) = safe_value(text::opt_text(style.background)) {
        let p = "background-color: "@ + v + ";"@;
        let n = head.len() as int + c.len() + 2;
        assert(b.subrange(n, n + p.len()) =~= p);
        assert(text::occurs_at(b, p, n));
    }
    if let Some(v) = safe_value(text::opt_text(style.font_size)) {
        let p = "font-size: "@ + v + ";"@;
        let n = head.len() as int + c.len() + g.len() + 2;
        assert(b.subrange(n, n + p.len()) =~= p);
        assert(text::occurs_at(b, p, n));
    }
}

/// A styled body is the signature, the note where styling was lost, the style
/// block, and then all that stood behind the signature line.
pub proof fn law_a_styled_body_keeps_its_cues(
    header: Seq<u8>,
    rest: Seq<u8>,
    lossy: bool,
    style: SubtitleStyle,
)
    requires
        lossy || !style.unset(),
        !header.contains(10u8),
        begins(header, bytes_of("WEBVTT"@)),
        rest.len() == 0 || rest[0] != 10,
    ensures
        served_body(header.push(10u8).push(10u8) + rest, lossy, style) == bytes_of("WEBVTT\n"@)
            + bytes_of(
            if lossy {
                "NOTE Source format was ASS/SSA; styling lost in WebVTT conversion.\n\n"@
            } else {
                "\n"@
            },
        ) + bytes_of(style.block()) + rest,
        served_body(header.push(10u8) + rest, lossy, style) == bytes_of("WEBVTT\n"@) + bytes_of(
            if lossy {
                "NOTE Source format was ASS/SSA; styling lost in WebVTT conversion.\n\n"@
            } else {
                "\n"@
            },
        ) + bytes_of(style.block()) + rest,
{
    let a = header.push(10u8).push(10u8) + rest;
    let b = header.push(10u8) + rest;
    let w = bytes_of("WEBVTT"@);
    assert(a.subrange(0, w.len() as int) =~= header.subrange(0, w.len() as int));
    assert(b.subrange(0, w.len() as int) =~= header.subrange(0, w.len() as int));
    assert forall|k: int| 0 <= k < header.len() implies a[k] != 10 && b[k] != 10 by {
        assert(header.contains(header[k]));
        assert(a[k] == header[k] && b[k] == header[k]);
    }
    lemma_find_byte(a, 10, header.len() as int);
    lemma_find_byte(b, 10, header.len() as int);
    let x = without_signature(a);
    assert(x =~= seq![10u8] + rest);
    assert(x.subrange(1, x.len() as int) =~= rest);
    assert(without_signature(b) =~= rest);
}

/// A setting is the value of its first entry, under its name, or else under its
/// older one.
pub proof fn law_settings_are_looked_up(
    settings: Seq<(String, String)>,
    key: Seq<char>,
    older: Seq<char>,
    i: int,
)
    requires
        0 <= i < settings.len(),
        forall|k: int| 0 <= k < i ==> (#[trigger] settings[k]).0@ != key,
        settings[i].0@ == key,
    ensures
        setting(settings, key) == Some(settings[i].1@),
        either_setting(settings, key, older) == Some(settings[i].1@),
    decreases i,
{
    if i > 0 {
        let t = settings.subrange(1, settings.len() as int);
        assert forall|k: int| 0 <= k < i - 1 implies (#[trigger] t[k]).0@ != key by {
            assert(t[k] == settings[k + 1]);
        }
        assert(settings[0].0@ != key);
        law_settings_are_looked_up(t, key, older, i - 1);
    }
}

// ------------------------------------------------------- laws of the sidecars

proof fn lemma_found_in(entries: Seq<DirEntry>, stem: Option<Seq<char>>, k: int)
    requires
        0 <= k < entries.len(),
        entry_kind(entries[k], stem) is Some,
    ensures
        found_in(entries, stem).contains((entries[k].path@, entry_kind(entries[k], stem)->0)),
    decreases entries.len(),
{
    let rest = found_in(entries.drop_last(), stem);
    let all = found_in(entries, stem);
    let x = (entries[k].path@, entry_kind(entries[k], stem)->0);
    if k == entries.len() - 1 {
        assert(all[rest.len() as int] == x);
    } else {
        assert(entries.drop_last()[k] == entries[k]);
        lemma_found_in(entries.drop_last(), stem, k);
        let j = choose|j: int| 0 <= j < rest.len() && rest[j] == x;
        assert(all[j] == x);
    }
}

proof fn lemma_found_listed(
    r: Seq<(Seq<char>, SidecarKind)>,
    l: SidecarListings,
    stem: Seq<char>,
    a: Seq<(Seq<char>, SidecarKind)>,
    part: Seq<(Seq<char>, SidecarKind)>,
    b: Seq<(Seq<char>, SidecarKind)>,
    x: (Seq<char>, SidecarKind),
)
    requires
        merged(r, all_found(l, stem)),
        all_found(l, stem) == a + part + b,
        part.contains(x),
    ensures
        has_path(r, x.0),
{
    let j = choose|j: int| 0 <= j < part.len() && part[j] == x;
    assert((a + part + b)[a.len() + j] == x);
    assert(all_found(l, stem)[a.len() + j] == x);
}

/// Whether a name, in any case, is that of a subtitle file.
pub open spec fn names_subtitle(name: Seq<char>) -> bool {
    let n = text::lower(name);
    text::ends_with(n, ".vtt"@) || text::ends_with(n, ".srt"@) || text::ends_with(n, ".ass"@)
        || text::ends_with(n, ".ssa"@)
}

/// Subtitle files are found wherever they lie: beside the media and in its
/// directories for subtitles under the name of the media, and in a directory
/// named after the media under any name.
pub proof fn law_sidecars_are_found(
    r: Seq<(Seq<char>, SidecarKind)>,
    l: SidecarListings,
    stem: Seq<char>,
    k: int,
)
    requires
        merged(r, all_found(l, stem)),
    ensures
        0 <= k < l.beside@.len() && names_subtitle(l.beside@[k].name@) && text::starts_with(
            text::lower(l.beside@[k].name@),
            stem.push('.'),
        ) ==> has_path(r, l.beside@[k].path@),
        0 <= k < l.subs@.len() && names_subtitle(l.subs@[k].name@) && text::starts_with(
            text::lower(l.subs@[k].name@),
            stem.push('.'),
        ) ==> has_path(r, l.subs@[k].path@),
        0 <= k < l.subtitles@.len() && names_subtitle(l.subtitles@[k].name@) && text::starts_with(
            text::lower(l.subtitles@[k].name@),
            stem.push('.'),
        ) ==> has_path(r, l.subtitles@[k].path@),
        0 <= k < l.subs_episode@.len() && names_subtitle(l.subs_episode@[k].name@) ==> has_path(
            r,
            l.subs_episode@[k].path@,
        ),
        0 <= k < l.subtitles_episode@.len() && names_subtitle(l.subtitles_episode@[k].name@)
            ==> has_path(r, l.subtitles_episode@[k].path@),
        0 <= k < l.episode@.len() && names_subtitle(l.episode@[k].name@) ==> has_path(
            r,
            l.episode@[k].path@,
        ),
{
    let a = found_in(l.beside@, Some(stem));
    let b = found_in(l.subs@, Some(stem));
    let c = found_in(l.subs_episode@, None);
    let d = found_in(l.subtitles@, Some(stem));
    let e = found_in(l.subtitles_episode@, None);
    let f = found_in(l.episode@, None);
    let all = all_found(l, stem);
    let none = Seq::<(Seq<char>, SidecarKind)>::empty();
    assert(all =~= none + a + (b + c + d + e + f));
    assert(all =~= a + b + (c + d + e + f));
    assert(all =~= (a + b) + c + (d + e + f));
    assert(all =~= (a + b + c) + d + (e + f));
    assert(all =~= (a + b + c + d) + e + f);
    assert(all =~= (a + b + c + d + e) + f + none);
    if 0 <= k < l.beside@.len() && entry_kind(l.beside@[k], Some(stem)) is Some {
        lemma_found_in(l.beside@, Some(stem), k);
        let x = (l.beside@[k].path@, entry_kind(l.beside@[k], Some(stem))->0);
        lemma_found_listed(r, l, stem, none, a, b + c + d + e + f, x);
    }
    if 0 <= k < l.subs@.len() && entry_kind(l.subs@[k], Some(stem)) is Some {
        lemma_found_in(l.subs@, Some(stem), k);
        let x = (l.subs@[k].path@, entry_kind(l.subs@[k], Some(stem))->0);
        lemma_found_listed(r, l, stem, a, b, c + d + e + f, x);
    }
    if 0 <= k < l.subs_episode@.len() && entry_kind(l.subs_episode@[k], None) is Some {
        lemma_found_in(l.subs_episode@, None, k);
        let x = (l.subs_episode@[k].path@, entry_kind(l.subs_episode@[k], None)->0);
        lemma_found_listed(r, l, stem, a + b, c, d + e + f, x);
    }
    if 0 <= k < l.subtitles@.len() && entry_kind(l.subtitles@[k], Some(stem)) is Some {
        lemma_found_in(l.subtitles@, Some(stem), k);
        let x = (l.subtitles@[k].path@, entry_kind(l.subtitles@[k], Some(stem))->0);
        lemma_found_listed(r, l, stem, a + b + c, d, e + f, x);
    }
    if 0 <= k < l.subtitles_episode@.len() && entry_kind(l.subtitles_episode@[k], None) is Some {
        lemma_found_in(l.subtitles_episode@, None, k);
        let x = (l.subtitles_episode@[k].path@, entry_kind(l.subtitles_episode@[k], None)->0);
        lemma_found_listed(r, l, stem, a + b + c + d, e, f, x);
    }
    if 0 <= k < l.episode@.len() && entry_kind(l.episode@[k], None) is Some {
        lemma_found_in(l.episode@, None, k);
        let x = (l.episode@[k].path@, entry_kind(l.episode@[k], None)->0);
        lemma_found_listed(r, l, stem, a + b + c + d + e, f, none, x);
    }
}

/// A file that is WebVTT already is served as it is, and any other format of
/// text is converted.
pub proof fn law_sidecars_are_served_as_webvtt(name: Seq<char>)
    ensures
        text::ends_with(name, ".vtt"@) ==> sidecar_kind(name) == Some(SidecarKind::Vtt),
        !text::ends_with(name, ".vtt"@) && (text::ends_with(name, ".srt"@) || text::ends_with(
            name,
            ".ass"@,
        ) || text::ends_with(name, ".ssa"@)) ==> sidecar_kind(name) == Some(SidecarKind::Convert),
        !text::ends_with(name, ".vtt"@) && !text::ends_with(name, ".srt"@) && !text::ends_with(
            name,
            ".ass"@,
        ) && !text::ends_with(name, ".ssa"@) ==> sidecar_kind(name) is None,
{
}

/// The document for the player's own renderer begins and ends as a list of
/// events; one without cues is the empty list, and one cue more is written
/// behind a comma.
pub proof fn law_documents_list_their_events(cs: Seq<Cue>)
    ensures
        text::starts_with(events_document(cs), "{\"TrackEvents\":["@),
        text::ends_with(events_document(cs), "]}"@),
        cs.len() == 0 ==> events_document(cs) == "{\"TrackEvents\":[]}"@,
{
    let a = "{\"TrackEvents\":["@;
    let m = lines::joined(event_jsons(cs), ","@);
    let z = "]}"@;
    let d = events_document(cs);
    assert(d.take(a.len() as int) =~= a);
    assert(d.subrange(d.len() - z.len(), d.len() as int) =~= z);
    if cs.len() == 0 {
        reveal_strlit("{\"TrackEvents\":[");
        reveal_strlit("]}");
        reveal_strlit("{\"TrackEvents\":[]}");
        assert(m =~= Seq::<char>::empty());
        assert(d =~= "{\"TrackEvents\":[]}"@);
    }
}

} // verus!
