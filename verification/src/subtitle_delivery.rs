//! How a subtitle reaches a client: beside the stream, or drawn into the
//! picture.

use vstd::prelude::*;
use crate::stream_select;
use crate::subtitles::{self, is_ass_like, is_image_subtitle_codec, is_text_subtitle_codec};
use crate::text::{self, eq_text, one_of, to_lower};

verus! {

/// A format that a client takes, and the way it takes it.
#[derive(Debug)]
pub struct SubtitleProfile {
    pub format: String,
    pub method: String,
}

/// How a subtitle reaches the viewer.
#[derive(Debug, Clone, Copy, PartialEq, Eq, Structural)]
pub enum SubtitleDelivery {
    External,
    Burn,
}

/// Whether a format that a client takes is the one of a codec; formats that go
/// by several names count as one.
pub open spec fn format_fits(codec: Seq<char>, format: Seq<char>) -> bool {
    let c = text::lower(codec);
    let f = text::lower(format);
    ||| c == f
    ||| subtitles::ass_names().contains(c) && seq!["ass"@, "ssa"@].contains(f)
    ||| c == "subrip"@ && seq!["subrip"@, "srt"@].contains(f)
}

pub open spec fn external_methods() -> Seq<Seq<char>> {
    seq!["external"@, "embed"@, "hls"@]
}

pub open spec fn text_formats() -> Seq<Seq<char>> {
    seq!["vtt"@, "webvtt"@, "srt"@, "subrip"@]
}

pub open spec fn takes_externally(p: SubtitleProfile) -> bool {
    external_methods().contains(text::lower(p.method@))
}

/// Whether some profile takes the codec's own format beside the stream.
pub open spec fn takes_codec(profiles: Seq<SubtitleProfile>, codec: Seq<char>) -> bool {
    exists|i: int|
        0 <= i < profiles.len() && format_fits(codec, (#[trigger] profiles[i]).format@)
            && takes_externally(profiles[i])
}

/// Whether some profile takes plain text beside the stream, in any format that
/// plain text can be turned into.
pub open spec fn takes_text(profiles: Seq<SubtitleProfile>) -> bool {
    exists|i: int|
        0 <= i < profiles.len() && text_formats().contains(
            text::lower((#[trigger] profiles[i]).format@),
        ) && takes_externally(profiles[i])
}

/// How a subtitle is delivered. A bitmap or styled one goes beside the stream
/// only to a client that takes that very format; plain text to one that takes
/// any plain text, and to one that says nothing of itself. What is not known is
/// drawn.
pub open spec fn delivery(
    codec: Option<Seq<char>>,
    profiles: Seq<SubtitleProfile>,
) -> SubtitleDelivery {
    let c = match codec {
        Some(c) => c,
        None => Seq::empty(),
    };
    let external = if subtitles::image_codec(c) {
        takes_codec(profiles, c)
    } else if !subtitles::text_codec(c) {
        false
    } else if profiles.len() == 0 {
        true
    } else if subtitles::ass_names().contains(text::lower(c)) {
        takes_codec(profiles, c)
    } else {
        takes_text(profiles)
    };
    if external {
        SubtitleDelivery::External
    } else {
        SubtitleDelivery::Burn
    }
}

fn format_matches(codec: &str, fmt: &str) -> (r: bool)
    ensures
        r == format_fits(codec@, fmt@),
{
    let c = to_lower(codec);
    let f = to_lower(fmt);
    let ass: Vec<&str> = vec!["ass", "ssa"];
    let srt: Vec<&str> = vec!["subrip", "srt"];
    proof {
        assert(text::names(ass@) == seq!["ass"@, "ssa"@]);
        assert(text::names(srt@) == seq!["subrip"@, "srt"@]);
    }
    eq_text(c.as_str(), f.as_str()) || (is_ass_like(c.as_str()) && one_of(f.as_str(), &ass)) || (
    eq_text(c.as_str(), "subrip") && one_of(f.as_str(), &srt))
}

fn method_is_external(method: &str) -> (r: bool)
    ensures
        r == external_methods().contains(text::lower(method@)),
{
    let wanted: Vec<&str> = vec!["external", "embed", "hls"];
    proof {
        assert(text::names(wanted@) == external_methods());
    }
    one_of(to_lower(method).as_str(), &wanted)
}

fn is_convertible_text_format(fmt: &str) -> (r: bool)
    ensures
        r == text_formats().contains(text::lower(fmt@)),
{
    let wanted: Vec<&str> = vec!["vtt", "webvtt", "srt", "subrip"];
    proof {
        assert(text::names(wanted@) == text_formats());
    }
    one_of(to_lower(fmt).as_str(), &wanted)
}

fn client_takes_codec(profiles: &[SubtitleProfile], codec: &str) -> (r: bool)
    ensures
        r == takes_codec(profiles@, codec@),
{
    let mut i: usize = 0;
    while i < profiles.len()
        invariant
            i <= profiles@.len(),
            forall|k: int|
                0 <= k < i ==> !(format_fits(codec@, (#[trigger] profiles@[k]).format@)
                    && takes_externally(profiles@[k])),
        decreases profiles@.len() - i,
    {
        if format_matches(codec, profiles[i].format.as_str()) && method_is_external(
            profiles[i].method.as_str(),
        ) {
            return true;
        }
        i += 1;
    }
    false
}

fn client_takes_text(profiles: &[SubtitleProfile]) -> (r: bool)
    ensures
        r == takes_text(profiles@),
{
    let mut i: usize = 0;
    while i < profiles.len()
        invariant
            i <= profiles@.len(),
            forall|k: int|
                0 <= k < i ==> !(text_formats().contains(
                    text::lower((#[trigger] profiles@[k]).format@),
                ) && takes_externally(profiles@[k])),
        decreases profiles@.len() - i,
    {
        if is_convertible_text_format(profiles[i].format.as_str()) && method_is_external(
            profiles[i].method.as_str(),
        ) {
            return true;
        }
        i += 1;
    }
    false
}

/// Decides how a subtitle reaches a client.
pub fn decide_subtitle_delivery(codec: Option<&str>, client_profiles: &[SubtitleProfile]) -> (r:
    SubtitleDelivery)
    ensures
        r == delivery(stream_select::opt_str(codec), client_profiles@),
{
    let name: String = match codec {
        Some(c) => c.to_owned(),
        None => String::new(),
    };
    let c = name.as_str();
    let external = if is_image_subtitle_codec(c) {
        client_takes_codec(client_profiles, c)
    } else if !is_text_subtitle_codec(c) {
        false
    } else if client_profiles.len() == 0 {
        true
    } else if is_ass_like(to_lower(c).as_str()) {
        client_takes_codec(client_profiles, c)
    } else {
        client_takes_text(client_profiles)
    };
    if external {
        SubtitleDelivery::External
    } else {
        SubtitleDelivery::Burn
    }
}

/// A client that takes WebVTT beside the stream never has a plain-text track
/// drawn into its picture.
pub proof fn law_plain_text_is_delivered_to_webvtt_clients(
    codec: Seq<char>,
    profiles: Seq<SubtitleProfile>,
    i: int,
)
    requires
        subtitles::text_codec(codec),
        !subtitles::image_codec(codec),
        !subtitles::ass_names().contains(text::lower(codec)),
        0 <= i < profiles.len(),
        text::lower(profiles[i].format@) == "vtt"@,
        text::lower(profiles[i].method@) == "external"@,
    ensures
        delivery(Some(codec), profiles) == SubtitleDelivery::External,
{
    assert(text_formats()[0] == "vtt"@);
    assert(external_methods()[0] == "external"@);
}

/// Whether a method is one of those that leave a subtitle outside the picture.
pub open spec fn leaves_outside(method: Seq<char>) -> bool {
    let m = text::lower(method);
    m == "external"@ || m == "embed"@ || m == "hls"@
}

proof fn lemma_leaves_outside(p: SubtitleProfile)
    ensures
        takes_externally(p) == leaves_outside(p.method@),
{
    let e = external_methods();
    assert(e[0] == "external"@ && e[1] == "embed"@ && e[2] == "hls"@);
    if e.contains(text::lower(p.method@)) {
        let k = choose|k: int| 0 <= k < e.len() && e[k] == text::lower(p.method@);
    }
}

/// A bitmap subtitle goes beside the stream to a client that names its very
/// format, and is drawn for every client that does not.
pub proof fn law_bitmaps_are_drawn_unless_taken(codec: Seq<char>, profiles: Seq<SubtitleProfile>)
    requires
        subtitles::image_codec(codec),
    ensures
        delivery(Some(codec), profiles) == SubtitleDelivery::External <==> exists|i: int|
            0 <= i < profiles.len() && text::lower((#[trigger] profiles[i]).format@) == text::lower(
                codec,
            ) && leaves_outside(profiles[i].method@),
{
    subtitles::law_bitmap_codecs(codec);
    let c = text::lower(codec);
    let a = subtitles::ass_names();
    assert(!a.contains(c) && c != "subrip"@) by {
        lemma_bitmap_names();
        assert(a[0] == "ass"@ && a[1] == "ssa"@ && a[2] == "advanced substation alpha"@);
        if a.contains(c) {
            let k = choose|k: int| 0 <= k < a.len() && a[k] == c;
        }
    }
    assert forall|i: int| 0 <= i < profiles.len() implies (format_fits(
        codec,
        (#[trigger] profiles[i]).format@,
    ) && takes_externally(profiles[i])) == (text::lower(profiles[i].format@) == c
        && leaves_outside(profiles[i].method@)) by {
        lemma_leaves_outside(profiles[i]);
    }
}

proof fn lemma_bitmap_names()
    ensures
        "hdmv_pgs_subtitle"@.len() == 17 && "pgs"@.len() == 3 && "pgssub"@.len() == 6
            && "dvb_subtitle"@.len() == 12 && "dvbsub"@.len() == 6 && "dvd_subtitle"@.len() == 12
            && "dvdsub"@.len() == 6 && "vobsub"@.len() == 6,
        "pgs"@[0] == 'p' && "pgssub"@[0] == 'p' && "dvbsub"@[0] == 'd' && "dvdsub"@[0] == 'd'
            && "vobsub"@[0] == 'v',
        "ass"@.len() == 3 && "ass"@[0] == 'a' && "ssa"@.len() == 3 && "ssa"@[0] == 's',
        "advanced substation alpha"@.len() == 25,
        "subrip"@.len() == 6 && "subrip"@[0] == 's',
{
    reveal_strlit("hdmv_pgs_subtitle");
    reveal_strlit("pgs");
    reveal_strlit("pgssub");
    reveal_strlit("dvb_subtitle");
    reveal_strlit("dvbsub");
    reveal_strlit("dvd_subtitle");
    reveal_strlit("dvdsub");
    reveal_strlit("vobsub");
    reveal_strlit("ass");
    reveal_strlit("ssa");
    reveal_strlit("advanced substation alpha");
    reveal_strlit("subrip");
}

/// A styled subtitle goes beside the stream to a client that takes ASS or SSA
/// there, and is drawn for one that says what it takes and does not name them.
pub proof fn law_styled_text_is_drawn_unless_taken(codec: Seq<char>, profiles: Seq<SubtitleProfile>)
    requires
        text::lower(codec) == "ass"@ || text::lower(codec) == "ssa"@,
        profiles.len() > 0,
    ensures
        delivery(Some(codec), profiles) == SubtitleDelivery::External <==> exists|i: int|
            0 <= i < profiles.len() && (text::lower((#[trigger] profiles[i]).format@) == "ass"@
                || text::lower(profiles[i].format@) == "ssa"@) && leaves_outside(
                profiles[i].method@,
            ),
{
    subtitles::law_bitmap_codecs(codec);
    subtitles::law_text_codecs(codec);
    lemma_bitmap_names();
    let c = text::lower(codec);
    let a = subtitles::ass_names();
    assert(a[0] == "ass"@ && a[1] == "ssa"@);
    assert(a.contains(c));
    let two = seq!["ass"@, "ssa"@];
    assert(two[0] == "ass"@ && two[1] == "ssa"@);
    assert forall|i: int| 0 <= i < profiles.len() implies (format_fits(
        codec,
        (#[trigger] profiles[i]).format@,
    ) && takes_externally(profiles[i])) == ((text::lower(profiles[i].format@) == "ass"@
        || text::lower(profiles[i].format@) == "ssa"@) && leaves_outside(profiles[i].method@)) by {
        lemma_leaves_outside(profiles[i]);
        let f = text::lower(profiles[i].format@);
        if two.contains(f) {
            let k = choose|k: int| 0 <= k < two.len() && two[k] == f;
        }
    }
}

/// Plain text goes beside the stream to a client that takes any plain text
/// there, or says nothing of itself, and is drawn for any other. What is neither
/// text nor a known bitmap is drawn.
pub proof fn law_plain_text_is_drawn_unless_taken(codec: Seq<char>, profiles: Seq<SubtitleProfile>)
    ensures
        !subtitles::image_codec(codec) && !subtitles::text_codec(codec) ==> delivery(
            Some(codec),
            profiles,
        ) == SubtitleDelivery::Burn,
        delivery(None, profiles) == SubtitleDelivery::Burn,
        text::lower(codec) == "subrip"@ && profiles.len() == 0 ==> delivery(Some(codec), profiles)
            == SubtitleDelivery::External,
        text::lower(codec) == "subrip"@ && profiles.len() > 0 ==> (delivery(Some(codec), profiles)
            == SubtitleDelivery::External <==> exists|i: int|
            0 <= i < profiles.len() && {
                let f = text::lower((#[trigger] profiles[i]).format@);
                f == "vtt"@ || f == "webvtt"@ || f == "srt"@ || f == "subrip"@
            } && leaves_outside(profiles[i].method@)),
{
    subtitles::law_bitmap_codecs(codec);
    subtitles::law_text_codecs(codec);
    let none = Seq::<char>::empty();
    subtitles::law_bitmap_codecs(none);
    subtitles::law_text_codecs(none);
    assert(text::lower(none).len() == 0);
    lemma_bitmap_names();
    lemma_text_names();
    if text::lower(codec) == "subrip"@ {
        let a = subtitles::ass_names();
        assert(a[0] == "ass"@ && a[1] == "ssa"@ && a[2] == "advanced substation alpha"@);
        if a.contains(text::lower(codec)) {
            let k = choose|k: int| 0 <= k < a.len() && a[k] == text::lower(codec);
        }
        let t = text_formats();
        assert(t[0] == "vtt"@ && t[1] == "webvtt"@ && t[2] == "srt"@ && t[3] == "subrip"@);
        assert forall|i: int| 0 <= i < profiles.len() implies (t.contains(
            text::lower((#[trigger] profiles[i]).format@),
        ) && takes_externally(profiles[i])) == ({
            let f = text::lower(profiles[i].format@);
            f == "vtt"@ || f == "webvtt"@ || f == "srt"@ || f == "subrip"@
        } && leaves_outside(profiles[i].method@)) by {
            lemma_leaves_outside(profiles[i]);
            let f = text::lower(profiles[i].format@);
            if t.contains(f) {
                let k = choose|k: int| 0 <= k < t.len() && t[k] == f;
            }
        }
    }
}

proof fn lemma_text_names()
    ensures
        "srt"@.len() == 3 && "webvtt"@.len() == 6 && "vtt"@.len() == 3 && "mov_text"@.len() == 8
            && "text"@.len() == 4 && "subviewer"@.len() == 9 && "microdvd"@.len() == 8,
{
    reveal_strlit("srt");
    reveal_strlit("webvtt");
    reveal_strlit("vtt");
    reveal_strlit("mov_text");
    reveal_strlit("text");
    reveal_strlit("subviewer");
    reveal_strlit("microdvd");
}

} // verus!
