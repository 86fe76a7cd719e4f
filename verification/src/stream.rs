//! Serving the media itself: what a request asks for, and how it is answered.

use vstd::prelude::*;
use vstd::string::*;
use crate::answer::{ApiError, Refusal};
use crate::query_string::{self, find_filled_value, find_flag, find_value, read_pairs};
use crate::seek::{self, ContentRange, CutTolerance, DeliveryMime, ResyncWitness, Source};
use crate::seqs;
use crate::text::{
    self, csv_entries, decimal_text, eq_ignore_case, eq_text, parse_u32, parse_u64, to_lower,
};

verus! {

/// Ticks of a hundred nanoseconds in a second.
pub const TICKS_PER_SECOND: u64 = 10_000_000;

// -------------------------------------------------------------- request parameters

/// The audio codecs that a client accepts.
pub open spec fn accepted_codecs(qs: Seq<char>) -> Seq<Seq<char>> {
    match query_string::filled_value_of(qs, "AudioCodec"@) {
        Some(v) => text::csv(v),
        None => Seq::empty(),
    }
}

/// The number that the first pair with this key holds, up to `max`.
pub open spec fn number_of(qs: Seq<char>, key: Seq<char>, max: int) -> Option<int> {
    match query_string::value_of(qs, key) {
        Some(v) => text::parse_unsigned(v, max),
        None => None,
    }
}

/// Where playback is to start; from the beginning where that cannot be read.
pub open spec fn start_ticks(qs: Seq<char>) -> int {
    match number_of(qs, "StartTimeTicks"@, u64::MAX as int) {
        Some(n) => n,
        None => 0,
    }
}

/// Reads the audio codecs that a client accepts.
pub fn parse_audio_codec_list(qs: &str) -> (r: Vec<String>)
    ensures
        text::texts(r@) == accepted_codecs(qs@),
{
    match find_filled_value(qs, "AudioCodec") {
        Some(v) => csv_entries(v.as_str()),
        None => {
            let none: Vec<String> = Vec::new();
            proof {
                assert(text::texts(none@) =~= Seq::<Seq<char>>::empty());
            }
            none
        },
    }
}

/// Reads the highest bitrate that a client takes.
pub fn parse_max_streaming_bitrate(qs: &str) -> (r: Option<u64>)
    ensures
        match r {
            Some(n) => number_of(qs@, "MaxStreamingBitrate"@, u64::MAX as int) == Some(n as int),
            None => number_of(qs@, "MaxStreamingBitrate"@, u64::MAX as int) is None,
        },
{
    match find_value(qs, "MaxStreamingBitrate") {
        Some(v) => parse_u64(v.as_str()),
        None => None,
    }
}

/// Reads the largest number of audio channels that a client takes.
pub fn parse_max_audio_channels(qs: &str) -> (r: Option<u32>)
    ensures
        match r {
            Some(n) => number_of(qs@, "MaxAudioChannels"@, u32::MAX as int) == Some(n as int),
            None => number_of(qs@, "MaxAudioChannels"@, u32::MAX as int) is None,
        },
{
    parse_query_u32(qs, "MaxAudioChannels")
}

/// Reads a number from a request.
pub fn parse_query_u32(qs: &str, name: &str) -> (r: Option<u32>)
    ensures
        match r {
            Some(n) => number_of(qs@, name@, u32::MAX as int) == Some(n as int),
            None => number_of(qs@, name@, u32::MAX as int) is None,
        },
{
    match find_value(qs, name) {
        Some(v) => parse_u32(v.as_str()),
        None => None,
    }
}

/// Reads where playback is to start.
pub fn parse_start_time_ticks(qs: &str) -> (r: u64)
    ensures
        r == start_ticks(qs@),
{
    match find_value(qs, "StartTimeTicks") {
        Some(v) => match parse_u64(v.as_str()) {
            Some(n) => n,
            None => 0,
        },
        None => 0,
    }
}

/// The first value of a key that is not empty.
pub fn query_value_ci(qs: &str, key: &str) -> (r: Option<String>)
    ensures
        text::opt_text(r) == query_string::filled_value_of(qs@, key@),
{
    find_filled_value(qs, key)
}

pub open spec fn api_key_pair() -> spec_fn(query_string::Pair) -> bool {
    |p: query_string::Pair|
        (text::eq_ci(p.0, "api_key"@) || text::eq_ci(p.0, "ApiKey"@)) && p.1.len() > 0
}

/// The key that a request carries in its query string, under either name.
pub fn api_key_query_value(qs: &str) -> (r: Option<String>)
    ensures
        text::opt_text(r) == (match seqs::first_such(query_string::pairs(qs@), api_key_pair()) {
            Some(p) => Some(p.1),
            None => None,
        }),
{
    let ps = read_pairs(qs);
    let ghost all = query_string::pairs(qs@);
    let mut i: usize = 0;
    while i < ps.len()
        invariant
            i <= ps.len(),
            query_string::pair_views(ps@) == all,
            all == query_string::pairs(qs@),
            forall|k: int| 0 <= k < i ==> !api_key_pair()(#[trigger] all[k]),
        decreases ps.len() - i,
    {
        proof {
            assert(all[i as int] == (ps@[i as int].0@, ps@[i as int].1@));
        }
        if (eq_ignore_case(ps[i].0.as_str(), "api_key") || eq_ignore_case(
            ps[i].0.as_str(),
            "ApiKey",
        )) && !ps[i].1.as_str().is_empty() {
            proof {
                seqs::lemma_first_such(all, api_key_pair(), i as int);
            }
            return Some(ps[i].1.clone());
        }
        i += 1;
    }
    proof {
        seqs::lemma_first_such(all, api_key_pair(), i as int);
    }
    None
}

/// Whether a flag is set to `true`.
pub fn qs_flag(qs: &str, name: &str) -> (r: bool)
    ensures
        r == query_string::flag_set(qs@, name@),
{
    find_flag(qs, name)
}

/// The first place of a stream's number in a row of them.
pub open spec fn place_of(indices: Seq<u32>, abs: u32) -> Option<int>
    decreases indices.len(),
{
    if indices.len() == 0 {
        None
    } else if indices[0] == abs {
        Some(0)
    } else {
        match place_of(indices.subrange(1, indices.len() as int), abs) {
            Some(i) => Some(i + 1),
            None => None,
        }
    }
}

proof fn lemma_place_of(indices: Seq<u32>, abs: u32, i: int)
    requires
        0 <= i <= indices.len(),
        forall|k: int| 0 <= k < i ==> indices[k] != abs,
        i < indices.len() ==> indices[i] == abs,
    ensures
        place_of(indices, abs) == (if i < indices.len() {
            Some(i)
        } else {
            None
        }),
    decreases indices.len(),
{
    if i > 0 {
        let t = indices.subrange(1, indices.len() as int);
        assert forall|k: int| 0 <= k < i - 1 implies t[k] != abs by {
            assert(t[k] == indices[k + 1]);
        }
        lemma_place_of(t, abs, i - 1);
    }
}

/// The place of a stream among those of its own kind.
pub fn codec_relative_index(abs_indices: &[u32], abs: u32) -> (r: Option<u32>)
    ensures
        match r {
            Some(i) => place_of(abs_indices@, abs) matches Some(p) && i == p as u32,
            None => place_of(abs_indices@, abs) is None,
        },
{
    let mut i: usize = 0;
    while i < abs_indices.len()
        invariant
            i <= abs_indices@.len(),
            forall|k: int| 0 <= k < i ==> abs_indices@[k] != abs,
        decreases abs_indices@.len() - i,
    {
        if abs_indices[i] == abs {
            proof {
                lemma_place_of(abs_indices@, abs, i as int);
            }
            return Some(i as u32);
        }
        i += 1;
    }
    proof {
        lemma_place_of(abs_indices@, abs, i as int);
    }
    None
}

/// The path of a stream request.
#[derive(Debug)]
pub struct StreamPath {
    pub id: String,
    pub ext: Option<String>,
}

impl StreamPath {
    /// The id in the path.
    pub fn id_str(&self) -> (r: &str)
        ensures
            r@ == self.id@,
    {
        self.id.as_str()
    }
}

/// Whether a request is for a WebM file made while it is sent: its path ends
/// so, and it does not ask for the file as it is.
pub fn wants_live_webm(path: &StreamPath, qs: &str) -> (r: bool)
    ensures
        r == (text::opt_text(path.ext) matches Some(e) && text::eq_ci(e, "webm"@)
            && !query_string::flag_set(qs@, "Static"@)),
{
    match &path.ext {
        Some(e) => eq_ignore_case(e.as_str(), "webm") && !qs_flag(qs, "Static"),
        None => false,
    }
}

// ----------------------------------------------------------------- authorization

/// What was found of the credentials that a request carries: whether its token
/// is good, and for which item each capability stands.
#[derive(Debug)]
pub struct Credentials {
    pub token_valid: bool,
    pub tag_media_id: Option<u64>,
    pub play_session_media_id: Option<u64>,
}

/// A good token opens everything; a capability opens the item it stands for.
pub open spec fn authorized(c: Credentials, media_id: u64) -> bool {
    c.token_valid || c.tag_media_id == Some(media_id) || c.play_session_media_id == Some(media_id)
}

/// Decides whether a request may have an item.
pub fn authorize_media(c: &Credentials, media_id: u64) -> (r: Result<(), ApiError>)
    ensures
        match r {
            Ok(_) => authorized(*c, media_id),
            Err(e) => !authorized(*c, media_id) && e.says(Refusal::Unauthorized, "missing token"@),
        },
{
    if c.token_valid {
        return Ok(());
    }
    if let Some(id) = c.tag_media_id {
        if id == media_id {
            return Ok(());
        }
    }
    if let Some(id) = c.play_session_media_id {
        if id == media_id {
            return Ok(());
        }
    }
    Err(ApiError::Unauthorized("missing token".to_owned()))
}

// --------------------------------------------------------------- universal audio

/// What is done for a request for audio.
#[derive(Debug)]
pub enum AudioPlan {
    /// The file is sent as it is.
    Direct,
    /// The audio is encoded anew while it is sent.
    Remux {
        target: String,
        bitrate_bps: Option<u64>,
        max_channels: Option<u32>,
        start_ticks: u64,
    },
}

/// Whether a list of codecs holds this one, in any case.
pub open spec fn accepts(codecs: Seq<Seq<char>>, codec: Seq<char>) -> bool {
    exists|i: int| 0 <= i < codecs.len() && text::eq_ci(#[trigger] codecs[i], codec)
}

/// Whether the source has more channels than the client takes.
pub open spec fn too_many_channels(channels: Option<u32>, cap: Option<u32>) -> bool {
    match (channels, cap) {
        (Some(n), Some(c)) => n > c,
        _ => false,
    }
}

pub open spec fn plays_directly(
    qs: Seq<char>,
    codec: Option<Seq<char>>,
    channels: Option<u32>,
    cap: Option<u32>,
) -> bool {
    !too_many_channels(channels, cap) && (accepted_codecs(qs).len() == 0 || accepts(
        accepted_codecs(qs),
        match codec {
            Some(c) => c,
            None => Seq::empty(),
        },
    ))
}

/// Whether audio can be encoded to a codec.
pub open spec fn can_emit() -> spec_fn(Seq<char>) -> bool {
    |c: Seq<char>| format_of(c) is Some
}

/// The codec that audio is encoded to: the first that the client accepts and the
/// server can emit, in the client's spelling, and else AAC.
pub open spec fn remux_target(codecs: Seq<Seq<char>>) -> Seq<char> {
    match seqs::first_such(codecs, can_emit()) {
        Some(c) => c,
        None => "aac"@,
    }
}

fn list_accepts(codecs: &Vec<String>, codec: &str) -> (r: bool)
    ensures
        r == accepts(text::texts(codecs@), codec@),
{
    let mut i: usize = 0;
    let ghost views = text::texts(codecs@);
    while i < codecs.len()
        invariant
            i <= codecs.len(),
            views == text::texts(codecs@),
            forall|k: int| 0 <= k < i ==> !text::eq_ci(#[trigger] views[k], codec@),
        decreases codecs.len() - i,
    {
        if eq_ignore_case(codecs[i].as_str(), codec) {
            proof {
                assert(text::eq_ci(views[i as int], codec@));
            }
            return true;
        }
        i += 1;
    }
    false
}

fn pick_target(codecs: &Vec<String>) -> (r: String)
    ensures
        r@ == remux_target(text::texts(codecs@)),
{
    let mut i: usize = 0;
    let ghost views = text::texts(codecs@);
    let ghost wanted = can_emit();
    while i < codecs.len()
        invariant
            i <= codecs.len(),
            views == text::texts(codecs@),
            wanted == can_emit(),
            forall|k: int| 0 <= k < i ==> !wanted(#[trigger] views[k]),
        decreases codecs.len() - i,
    {
        proof {
            assert(views[i as int] == codecs@[i as int]@);
        }
        if remux_format(codecs[i].as_str()).is_ok() {
            proof {
                assert(wanted(views[i as int]));
                seqs::lemma_first_such(views, wanted, i as int);
            }
            return codecs[i].clone();
        }
        i += 1;
    }
    proof {
        seqs::lemma_first_such(views, wanted, i as int);
    }
    "aac".to_owned()
}

/// Decides how a request for audio is answered.
pub fn audio_universal(qs: &str, source_codec: &Option<String>, source_channels: Option<u32>) -> (r:
    AudioPlan)
    ensures
        ({
            let cap: Option<int> = number_of(qs@, "MaxAudioChannels"@, u32::MAX as int);
            let limit: Option<u32> = match cap {
                Some(n) => Some(n as u32),
                None => None,
            };
            match r {
                AudioPlan::Direct => plays_directly(
                    qs@,
                    text::opt_text(*source_codec),
                    source_channels,
                    limit,
                ),
                AudioPlan::Remux { target, bitrate_bps, max_channels, start_ticks: start } => {
                    &&& !plays_directly(qs@, text::opt_text(*source_codec), source_channels, limit)
                    &&& target@ == remux_target(accepted_codecs(qs@))
                    &&& max_channels == limit
                    &&& start == start_ticks(qs@)
                    &&& (match bitrate_bps {
                        Some(b) => number_of(qs@, "MaxStreamingBitrate"@, u64::MAX as int) == Some(
                            b as int,
                        ),
                        None => number_of(qs@, "MaxStreamingBitrate"@, u64::MAX as int) is None,
                    })
                },
            }
        }),
{
    let acceptable = parse_audio_codec_list(qs);
    let bitrate_bps = parse_max_streaming_bitrate(qs);
    let max_channels = parse_max_audio_channels(qs);
    let codec: String = match source_codec {
        Some(c) => c.clone(),
        None => String::new(),
    };
    let downmix = match (source_channels, max_channels) {
        (Some(n), Some(c)) => n > c,
        _ => false,
    };
    if !downmix && (acceptable.len() == 0 || list_accepts(&acceptable, codec.as_str())) {
        return AudioPlan::Direct;
    }
    AudioPlan::Remux {
        target: pick_target(&acceptable),
        bitrate_bps,
        max_channels,
        start_ticks: parse_start_time_ticks(qs),
    }
}

/// How a target is encoded: the encoder, the container and the content type.
#[derive(Debug)]
pub struct RemuxFormat {
    pub encoder: &'static str,
    pub muxer: &'static str,
    pub content_type: &'static str,
}

pub open spec fn format_of(target: Seq<char>) -> Option<(Seq<char>, Seq<char>, Seq<char>)> {
    let t = text::lower(target);
    if t == "aac"@ {
        Some(("aac"@, "adts"@, "audio/aac"@))
    } else if t == "mp3"@ {
        Some(("libmp3lame"@, "mp3"@, "audio/mpeg"@))
    } else if t == "opus"@ {
        Some(("libopus"@, "ogg"@, "audio/ogg"@))
    } else {
        None
    }
}

/// How a target is encoded; one that cannot be is refused.
pub fn remux_format(target_codec: &str) -> (r: Result<RemuxFormat, ApiError>)
    ensures
        match r {
            Ok(f) => format_of(target_codec@) == Some(
                (f.encoder@, f.muxer@, f.content_type@),
            ),
            Err(e) => format_of(target_codec@) is None && e.says(
                Refusal::BadRequest,
                "unsupported audio remux target: "@ + text::lower(target_codec@),
            ),
        },
{
    let t = to_lower(target_codec);
    if eq_text(t.as_str(), "aac") {
        Ok(RemuxFormat { encoder: "aac", muxer: "adts", content_type: "audio/aac" })
    } else if eq_text(t.as_str(), "mp3") {
        Ok(RemuxFormat { encoder: "libmp3lame", muxer: "mp3", content_type: "audio/mpeg" })
    } else if eq_text(t.as_str(), "opus") {
        Ok(RemuxFormat { encoder: "libopus", muxer: "ogg", content_type: "audio/ogg" })
    } else {
        let mut m: String = "unsupported audio remux target: ".to_owned();
        m.append(t.as_str());
        Err(ApiError::BadRequest(m))
    }
}

/// The bitrate that audio is encoded at: what the client asks for, or 192 kbit
/// a second.
pub fn remux_bitrate(asked: Option<u64>) -> (r: u64)
    ensures
        r == (match asked {
            Some(b) => b,
            None => 192_000,
        }),
{
    match asked {
        Some(b) => b,
        None => 192_000,
    }
}

/// The part of the arguments that seeks: before the input, so that decoding
/// starts there. `seconds` is the offset as text.
pub open spec fn seek_args(ticks: u64, seconds: Seq<char>) -> Seq<Seq<char>> {
    if ticks > 0 {
        seq!["-ss"@, seconds]
    } else {
        Seq::empty()
    }
}

pub open spec fn channel_args(max_channels: Option<u32>) -> Seq<Seq<char>> {
    match max_channels {
        Some(n) => if n > 0 {
            seq!["-ac"@, text::decimal(n as nat)]
        } else {
            Seq::empty()
        },
        None => Seq::empty(),
    }
}

/// The arguments that encode audio with ffmpeg.
pub open spec fn remux_arguments(
    input: Seq<char>,
    encoder: Seq<char>,
    muxer: Seq<char>,
    bitrate: u64,
    max_channels: Option<u32>,
    ticks: u64,
    seconds: Seq<char>,
) -> Seq<Seq<char>> {
    seq!["-hide_banner"@, "-loglevel"@, "error"@, "-nostdin"@] + seek_args(ticks, seconds) + seq![
        "-i"@,
        input,
        "-vn"@,
        "-c:a"@,
        encoder,
        "-b:a"@,
        text::decimal(bitrate as nat),
    ] + channel_args(max_channels) + seq!["-f"@, muxer, "pipe:1"@]
}

/// Appends a text to a row of texts.
fn push_text(out: &mut Vec<String>, s: String)
    ensures
        text::texts(final(out)@) == text::texts(old(out)@).push(s@),
{
    out.push(s);
    proof {
        assert(text::texts(out@) =~= text::texts(old(out)@).push(s@));
    }
}

/// The arguments that encode audio with ffmpeg. `seconds` is the offset,
/// written out with three decimals.
pub fn audio_remux_args(
    input: &str,
    ffmpeg_codec: &str,
    muxer: &str,
    bitrate: u64,
    max_channels: Option<u32>,
    start_ticks: u64,
    seconds: &str,
) -> (r: Vec<String>)
    ensures
        text::texts(r@) == remux_arguments(
            input@,
            ffmpeg_codec@,
            muxer@,
            bitrate,
            max_channels,
            start_ticks,
            seconds@,
        ),
{
    let mut args: Vec<String> = Vec::new();
    push_text(&mut args, "-hide_banner".to_owned());
    push_text(&mut args, "-loglevel".to_owned());
    push_text(&mut args, "error".to_owned());
    push_text(&mut args, "-nostdin".to_owned());
    if start_ticks > 0 {
        push_text(&mut args, "-ss".to_owned());
        push_text(&mut args, seconds.to_owned());
    }
    push_text(&mut args, "-i".to_owned());
    push_text(&mut args, input.to_owned());
    push_text(&mut args, "-vn".to_owned());
    push_text(&mut args, "-c:a".to_owned());
    push_text(&mut args, ffmpeg_codec.to_owned());
    push_text(&mut args, "-b:a".to_owned());
    push_text(&mut args, decimal_text(bitrate));
    if let Some(n) = max_channels {
        if n > 0 {
            push_text(&mut args, "-ac".to_owned());
            push_text(&mut args, decimal_text(n as u64));
        }
    }
    push_text(&mut args, "-f".to_owned());
    push_text(&mut args, muxer.to_owned());
    push_text(&mut args, "pipe:1".to_owned());
    proof {
        assert(text::texts(args@) =~= remux_arguments(
            input@,
            ffmpeg_codec@,
            muxer@,
            bitrate,
            max_channels,
            start_ticks,
            seconds@,
        ));
    }
    args
}

// ------------------------------------------------------------------- live WebM

/// How a WebM stream is encoded while it is sent.
#[derive(Debug, Clone, Copy, PartialEq, Eq, Structural)]
pub struct WebmOptions {
    pub video_bitrate_bps: u64,
    pub audio_bitrate_bps: u64,
    pub start_position_ticks: u64,
    pub audio_source_stream_index: Option<u32>,
    pub burn_subtitle_stream_index: Option<u32>,
}

/// The bitrate of the picture: what the client takes, within limits.
pub open spec fn webm_bitrate(asked: Option<int>) -> int {
    let n = match asked {
        Some(b) => b,
        None => 3_000_000,
    };
    if n < 500_000 {
        500_000
    } else if n > 6_000_000 {
        6_000_000
    } else {
        n
    }
}

/// The place of the asked-for stream among those of its kind.
pub open spec fn relative(qs: Seq<char>, key: Seq<char>, indices: Seq<u32>) -> Option<u32> {
    match number_of(qs, key, u32::MAX as int) {
        Some(n) => match place_of(indices, n as u32) {
            Some(p) => Some(p as u32),
            None => None,
        },
        None => None,
    }
}

fn read_relative(qs: &str, key: &str, indices: &[u32]) -> (r: Option<u32>)
    ensures
        r == relative(qs@, key@, indices@),
{
    match parse_query_u32(qs, key) {
        Some(n) => codec_relative_index(indices, n),
        None => None,
    }
}

/// The options for a WebM stream. `audio` and `subtitles` are the numbers of
/// the file's streams of each kind.
pub fn stream_transcoded_webm(qs: &str, audio: &[u32], subtitles: &[u32]) -> (r: WebmOptions)
    ensures
        r.video_bitrate_bps == webm_bitrate(
            number_of(qs@, "MaxStreamingBitrate"@, u64::MAX as int),
        ),
        r.audio_bitrate_bps == 128_000,
        r.start_position_ticks == start_ticks(qs@),
        r.audio_source_stream_index == relative(qs@, "AudioStreamIndex"@, audio@),
        r.burn_subtitle_stream_index == relative(qs@, "SubtitleStreamIndex"@, subtitles@),
{
    let asked: u64 = match parse_max_streaming_bitrate(qs) {
        Some(b) => b,
        None => 3_000_000,
    };
    let cap: u64 = if asked < 500_000 {
        500_000
    } else if asked > 6_000_000 {
        6_000_000
    } else {
        asked
    };
    WebmOptions {
        video_bitrate_bps: cap,
        audio_bitrate_bps: 128_000,
        start_position_ticks: parse_start_time_ticks(qs),
        audio_source_stream_index: read_relative(qs, "AudioStreamIndex", audio),
        burn_subtitle_stream_index: read_relative(qs, "SubtitleStreamIndex", subtitles),
    }
}

// --------------------------------------------------------------------- delivery

/// `a * b / c`, at most the largest 64-bit number.
pub open spec fn scaled(a: int, b: int, c: int) -> int {
    let q = a * b / c;
    if q > u64::MAX {
        u64::MAX as int
    } else {
        q
    }
}

/// Where in the file a moment lies: by the bitrate, and where that is not
/// known by the share of the duration.
pub open spec fn byte_offset(
    ticks: u64,
    bitrate_bps: Option<u64>,
    duration_ms: Option<u64>,
    size_bytes: Option<u64>,
) -> Option<int> {
    if ticks == 0 {
        Some(0)
    } else {
        match bitrate_bps {
            Some(bps) => Some(scaled(ticks as int, bps as int, 80_000_000)),
            None => match (duration_ms, size_bytes) {
                (Some(ms), Some(size)) => if ms > 0 {
                    Some(
                        scaled(
                            ticks as int,
                            size as int,
                            crate::playback::millis_to_ticks(ms) as int,
                        ),
                    )
                } else {
                    None
                },
                _ => None,
            },
        }
    }
}

fn scale(a: u64, b: u64, c: u64) -> (r: u64)
    requires
        c > 0,
    ensures
        r == scaled(a as int, b as int, c as int),
{
    proof {
        assert(a * b <= u64::MAX * u64::MAX) by (nonlinear_arith)
            requires
                a <= u64::MAX,
                b <= u64::MAX,
        ;
        assert(0 <= a * b) by (nonlinear_arith);
    }
    let product: u128 = a as u128 * b as u128;
    let q: u128 = product / c as u128;
    if q > u64::MAX as u128 {
        u64::MAX
    } else {
        q as u64
    }
}

/// Where in the file a moment lies. `size_bytes` is the probed size, or that of
/// the file itself.
pub fn byte_offset_from_ticks(
    start_ticks: u64,
    bitrate_bps: Option<u64>,
    duration_ms: Option<u64>,
    size_bytes: Option<u64>,
) -> (r: Option<u64>)
    ensures
        match r {
            Some(n) => byte_offset(start_ticks, bitrate_bps, duration_ms, size_bytes) == Some(
                n as int,
            ),
            None => byte_offset(start_ticks, bitrate_bps, duration_ms, size_bytes) is None,
        },
{
    if start_ticks == 0 {
        return Some(0);
    }
    match bitrate_bps {
        Some(bps) => Some(scale(start_ticks, bps, 80_000_000)),
        None => match (duration_ms, size_bytes) {
            (Some(ms), Some(size)) => if ms > 0 {
                Some(scale(start_ticks, size, crate::playback::ticks_of_millis(ms)))
            } else {
                None
            },
            _ => None,
        },
    }
}

/// How a file is sent.
#[derive(Debug, Clone, Copy, PartialEq, Eq, Structural)]
pub enum DeliveryPlan {
    /// The whole file, by whatever ranges the client asks for.
    WholeFile,
    /// From this byte to the end.
    FromOffset { offset: u64 },
}

/// A start time without a range is honoured by cutting the file, and a file is
/// cut only where its container resyncs.
pub open spec fn delivery_plan(
    s: Source,
    has_range: bool,
    ticks: u64,
    offset: Option<int>,
) -> DeliveryPlan {
    match offset {
        Some(o) if !has_range && ticks > 0 && seek::resyncs(s) => DeliveryPlan::FromOffset {
            offset: o as u64,
        },
        _ => DeliveryPlan::WholeFile,
    }
}

/// Decides how a file is sent.
pub fn deliver_stream(
    source: &Source,
    has_range: bool,
    start_ticks: u64,
    bitrate_bps: Option<u64>,
    duration_ms: Option<u64>,
    size_bytes: Option<u64>,
) -> (r: DeliveryPlan)
    ensures
        r == delivery_plan(
            *source,
            has_range,
            start_ticks,
            byte_offset(start_ticks, bitrate_bps, duration_ms, size_bytes),
        ),
{
    if !has_range && start_ticks > 0 {
        if ResyncWitness::of(CutTolerance::for_source(source)).is_some() {
            if let Some(offset) = byte_offset_from_ticks(
                start_ticks,
                bitrate_bps,
                duration_ms,
                size_bytes,
            ) {
                return DeliveryPlan::FromOffset { offset };
            }
        }
    }
    DeliveryPlan::WholeFile
}

/// The status of an answer to a range request: one that says which part of the
/// file it holds is partial, even where that is all of it.
pub fn range_status(has_range: bool, status: u16, has_content_range: bool) -> (r: u16)
    ensures
        r == (if has_range && status == 200 && has_content_range {
            206
        } else {
            status
        }),
{
    if has_range && status == 200 && has_content_range {
        206
    } else {
        status
    }
}

/// The head of an answer that starts within the file.
#[derive(Debug)]
pub struct PartialHead {
    pub status: u16,
    pub content_type: String,
    pub content_range: String,
    pub content_length: u64,
    pub last_modified: Option<String>,
    /// Whether the rest of the file is small enough to be read at once.
    pub buffered: bool,
}

/// The date that `httpdate` reads from a header, in seconds since 1970.
pub uninterp spec fn http_date_seconds(header: Seq<char>) -> Option<u64>;

/// `httpdate::parse_http_date`: the moment that an HTTP date names, in whole
/// seconds since 1970, which is all that such a date holds. None where it is
/// not a date.
#[verifier::external_body]
fn read_http_date(header: &str) -> (r: Option<u64>)
    ensures
        r == http_date_seconds(header@),
{
    match httpdate::parse_http_date(header) {
        Ok(t) => t.duration_since(std::time::UNIX_EPOCH).ok().map(|d| d.as_secs()),
        Err(_) => None,
    }
}

/// How `httpdate` writes a moment.
pub uninterp spec fn http_date_text(seconds: u64) -> Seq<char>;

/// `httpdate::fmt_http_date`: the HTTP date of a moment, given in seconds since
/// 1970. It is defined up to the end of the year 9999. `httpdate` reads the
/// date that it writes as the same second.
#[verifier::external_body]
fn write_http_date(seconds: u64) -> (r: String)
    requires
        seconds < 253_402_300_800,
    ensures
        r@ == http_date_text(seconds),
        http_date_seconds(r@) == Some(seconds),
{
    httpdate::fmt_http_date(std::time::UNIX_EPOCH + std::time::Duration::from_secs(seconds))
}

/// Whether a copy of this date is still current. `nanos` says whether the file
/// changed within the second rather than at its start: a date holds no more
/// than seconds.
pub open spec fn copy_is_current(since: Option<u64>, modified: u64, nanos: bool) -> bool {
    since matches Some(t) && (modified < t || (modified == t && !nanos))
}

/// Whether a copy of this date is still current.
pub fn is_current(since: Option<u64>, modified_secs: u64, nanos: bool) -> (r: bool)
    ensures
        r == copy_is_current(since, modified_secs, nanos),
{
    match since {
        Some(t) => modified_secs < t || (modified_secs == t && !nanos),
        None => false,
    }
}

/// Whether the client's copy is still current, by the date that it gives.
pub fn not_modified(if_modified_since: &Option<String>, modified_secs: u64, nanos: bool) -> (r: bool)
    ensures
        r == copy_is_current(
            match text::opt_text(*if_modified_since) {
                Some(h) => http_date_seconds(h),
                None => None,
            },
            modified_secs,
            nanos,
        ),
{
    match if_modified_since {
        Some(h) => is_current(read_http_date(h.as_str()), modified_secs, nanos),
        None => false,
    }
}

/// The value of the `Last-Modified` header, for a change up to the end of the
/// year 9999.
pub fn last_modified(modified_secs: Option<u64>) -> (r: Option<String>)
    ensures
        match modified_secs {
            Some(t) if t < 253_402_300_800 => text::opt_text(r) == Some(http_date_text(t))
                && http_date_seconds(http_date_text(t)) == Some(t),
            _ => r is None,
        },
{
    match modified_secs {
        Some(t) => if t < 253_402_300_800 {
            Some(write_http_date(t))
        } else {
            None
        },
        None => None,
    }
}

/// The head of an answer from `offset` on; one past the end is refused.
pub fn serve_from_offset(
    source: &Source,
    offset: u64,
    total: u64,
    last_modified: Option<String>,
    _witness: ResyncWitness,
) -> (r: Result<PartialHead, ApiError>)
    ensures
        match r {
            Ok(h) => {
                &&& offset < total
                &&& h.status == 206
                &&& h.content_type@ == seek::mime_of(*source)
                &&& h.content_length == total - offset
                &&& h.content_range@ == "bytes "@ + text::decimal(offset as nat) + "-"@
                    + text::decimal((total - 1) as nat) + "/"@ + text::decimal(total as nat)
                &&& h.last_modified == last_modified
                &&& h.buffered == (total - offset <= 16_777_216)
            },
            Err(e) => offset >= total && e.says(
                Refusal::RangeNotSatisfiable,
                "StartTimeTicks past EOF"@,
            ),
        },
{
    match ContentRange::from_offset(offset, total) {
        Some(range) => {
            let n: u64 = range.content_length();
            Ok(
                PartialHead {
                    status: range.status(),
                    content_type: DeliveryMime::for_source(source).header(),
                    content_range: range.header_value(),
                    content_length: n,
                    last_modified,
                    buffered: n <= 16_777_216,
                },
            )
        },
        None => Err(ApiError::RangeNotSatisfiable("StartTimeTicks past EOF".to_owned())),
    }
}

// ------------------------------------------------------------------------ laws

/// A client that gives back the date it was given is told that nothing has
/// changed, as long as the file has not: dates hold whole seconds, so this is
/// for a file that changed at the start of one.
pub proof fn law_echoed_dates_are_current(seconds: u64, modified: u64)
    requires
        http_date_seconds(http_date_text(seconds)) == Some(seconds),
        modified <= seconds,
    ensures
        copy_is_current(http_date_seconds(http_date_text(seconds)), modified, false),
{
}

/// A file whose container does not resync is never cut, whatever is asked for.
pub proof fn law_only_resyncing_files_are_cut(
    s: Source,
    has_range: bool,
    ticks: u64,
    offset: Option<int>,
)
    requires
        !seek::resyncs(s),
    ensures
        delivery_plan(s, has_range, ticks, offset) == DeliveryPlan::WholeFile,
{
}

/// A capability opens the one item it stands for and no other.
pub proof fn law_a_capability_opens_one_item(c: Credentials, a: u64, b: u64)
    requires
        !c.token_valid,
        c.play_session_media_id is None,
        authorized(c, a),
        authorized(c, b),
    ensures
        a == b,
{
}

/// With the arguments that encode audio, a seek stands before the input.
pub proof fn law_seeks_precede_the_input(
    input: Seq<char>,
    encoder: Seq<char>,
    muxer: Seq<char>,
    bitrate: u64,
    max_channels: Option<u32>,
    ticks: u64,
    seconds: Seq<char>,
)
    requires
        ticks > 0,
    ensures
        ({
            let args = remux_arguments(
                input,
                encoder,
                muxer,
                bitrate,
                max_channels,
                ticks,
                seconds,
            );
            args[4] == "-ss"@ && args[5] == seconds && args[6] == "-i"@ && args[7] == input
        }),
{
}

/// Whether audio can be sent in a codec: AAC, MP3 or Opus.
pub open spec fn is_sent_in(codec: Seq<char>) -> bool {
    text::lower(codec) == "aac"@ || text::lower(codec) == "mp3"@ || text::lower(codec) == "opus"@
}

/// Audio that the client takes is sent as it is: where it names no codecs, or
/// names this one, and the channels are not too many for it.
pub proof fn law_audio_is_sent_as_it_is(
    qs: Seq<char>,
    codec: Seq<char>,
    channels: Option<u32>,
    cap: Option<u32>,
)
    ensures
        plays_directly(qs, Some(codec), channels, cap) <==> (channels is None || cap is None
            || channels->0 <= cap->0) && (query_string::filled_value_of(qs, "AudioCodec"@) is None
            || text::csv(query_string::filled_value_of(qs, "AudioCodec"@)->0).len() == 0 || exists|
            i: int,
        |
            0 <= i < text::csv(query_string::filled_value_of(qs, "AudioCodec"@)->0).len()
                && text::lower(
                #[trigger] text::csv(query_string::filled_value_of(qs, "AudioCodec"@)->0)[i],
            ) == text::lower(codec)),
{
    let codecs = accepted_codecs(qs);
    if query_string::filled_value_of(qs, "AudioCodec"@) is Some {
        let list = text::csv(query_string::filled_value_of(qs, "AudioCodec"@)->0);
        assert(codecs == list);
        if accepts(codecs, codec) {
            let i = choose|i: int| 0 <= i < codecs.len() && text::eq_ci(#[trigger] codecs[i], codec);
            assert(text::lower(list[i]) == text::lower(codec));
        }
        if exists|i: int|
            0 <= i < list.len() && text::lower(#[trigger] list[i]) == text::lower(codec) {
            let i = choose|i: int|
                0 <= i < list.len() && text::lower(#[trigger] list[i]) == text::lower(codec);
            assert(text::eq_ci(codecs[i], codec));
        }
    }
}

/// Audio that is encoded is encoded to the first codec that the client names and
/// that can be sent, and to AAC where it names none of them.
pub proof fn law_audio_is_encoded_for_the_client(codecs: Seq<Seq<char>>)
    ensures
        (forall|i: int| 0 <= i < codecs.len() ==> !is_sent_in(#[trigger] codecs[i])) ==> remux_target(
            codecs,
        ) == "aac"@,
        (exists|i: int| 0 <= i < codecs.len() && is_sent_in(#[trigger] codecs[i])) ==> exists|i: int|
            0 <= i < codecs.len() && #[trigger] codecs[i] == remux_target(codecs) && is_sent_in(
                codecs[i],
            ) && forall|k: int| 0 <= k < i ==> !is_sent_in(#[trigger] codecs[k]),
{
    seqs::law_the_first_is_first(codecs, can_emit());
    assert forall|i: int| 0 <= i < codecs.len() implies can_emit()(#[trigger] codecs[i])
        == is_sent_in(codecs[i]) by {}
    if exists|i: int| 0 <= i < codecs.len() && is_sent_in(#[trigger] codecs[i]) {
        let j = choose|i: int| 0 <= i < codecs.len() && is_sent_in(#[trigger] codecs[i]);
        assert(can_emit()(codecs[j]));
        let x = seqs::first_such(codecs, can_emit())->0;
        let i = choose|i: int|
            0 <= i < codecs.len() && #[trigger] codecs[i] == x && can_emit()(codecs[i]) && forall|
                k: int,
            |
                0 <= k < i ==> !can_emit()(#[trigger] codecs[k]);
        assert(is_sent_in(codecs[i]));
        assert forall|k: int| 0 <= k < i implies !is_sent_in(#[trigger] codecs[k]) by {
            assert(!can_emit()(codecs[k]));
        }
    } else {
        assert forall|i: int| 0 <= i < codecs.len() implies !can_emit()(#[trigger] codecs[i]) by {
            assert(!is_sent_in(codecs[i]));
        }
    }
}

/// Each codec has its encoder, its container and its content type.
pub proof fn law_codecs_are_sent_in_their_containers(target: Seq<char>)
    ensures
        text::lower(target) == "aac"@ ==> format_of(target) == Some(
            ("aac"@, "adts"@, "audio/aac"@),
        ),
        text::lower(target) == "mp3"@ ==> format_of(target) == Some(
            ("libmp3lame"@, "mp3"@, "audio/mpeg"@),
        ),
        text::lower(target) == "opus"@ ==> format_of(target) == Some(
            ("libopus"@, "ogg"@, "audio/ogg"@),
        ),
        format_of(target) is Some <==> is_sent_in(target),
{
    reveal_strlit("aac");
    reveal_strlit("mp3");
    reveal_strlit("opus");
    assert("aac"@[0] == 'a' && "mp3"@[0] == 'm');
}

/// The encoder reads the input, leaves out pictures, encodes with the encoder at
/// the bitrate, with no more channels than asked for, and writes the container
/// to its output.
pub proof fn law_the_encoder_is_told(
    input: Seq<char>,
    encoder: Seq<char>,
    muxer: Seq<char>,
    bitrate: u64,
    max_channels: Option<u32>,
    ticks: u64,
    seconds: Seq<char>,
)
    ensures
        ({
            let args = remux_arguments(
                input,
                encoder,
                muxer,
                bitrate,
                max_channels,
                ticks,
                seconds,
            );
            let n: int = if ticks > 0 {
                6
            } else {
                4
            };
            &&& args[n] == "-i"@ && args[n + 1] == input
            &&& args[n + 2] == "-vn"@
            &&& args[n + 3] == "-c:a"@ && args[n + 4] == encoder
            &&& args[n + 5] == "-b:a"@ && args[n + 6] == text::decimal(bitrate as nat)
            &&& args.len() >= 3 && args[args.len() - 1] == "pipe:1"@ && args[args.len() - 2]
                == muxer && args[args.len() - 3] == "-f"@
            &&& max_channels is Some && max_channels->0 > 0 ==> args[n + 7] == "-ac"@ && args[n + 8]
                == text::decimal(max_channels->0 as nat)
            &&& max_channels is None || max_channels->0 == 0 ==> args.len() == n + 10
        }),
{
}

/// A number in the query string is read from its first pair.
pub proof fn law_numbers_in_the_query(qs: Seq<char>, key: Seq<char>, n: nat, max: int)
    requires
        n <= max,
    ensures
        query_string::value_of(qs, key) == Some(text::decimal(n)) ==> number_of(qs, key, max)
            == Some(n as int),
        query_string::value_of(qs, key) is None ==> number_of(qs, key, max) is None,
        query_string::value_of(qs, "StartTimeTicks"@) == Some(text::decimal(n)) && n <= u64::MAX
            ==> start_ticks(qs) == n,
        query_string::value_of(qs, "StartTimeTicks"@) is None ==> start_ticks(qs) == 0,
{
    text::law_decimal_reads_back(n, max);
    if n <= u64::MAX {
        text::law_decimal_reads_back(n, u64::MAX as int);
    }
}

/// The picture has the bitrate that is asked for, between half a million and six
/// million bits, and three million where none is.
pub proof fn law_the_picture_has_its_bitrate(asked: int)
    ensures
        500_000 <= asked <= 6_000_000 ==> webm_bitrate(Some(asked)) == asked,
        asked < 500_000 ==> webm_bitrate(Some(asked)) == 500_000,
        asked > 6_000_000 ==> webm_bitrate(Some(asked)) == 6_000_000,
        webm_bitrate(None) == 3_000_000,
{
}

proof fn lemma_place_found(indices: Seq<u32>, abs: u32)
    ensures
        place_of(indices, abs) matches Some(p) ==> 0 <= p < indices.len() && indices[p] == abs,
        place_of(indices, abs) is None ==> forall|k: int|
            0 <= k < indices.len() ==> #[trigger] indices[k] != abs,
    decreases indices.len(),
{
    if indices.len() > 0 && indices[0] != abs {
        let t = indices.subrange(1, indices.len() as int);
        lemma_place_found(t, abs);
        if let Some(p) = place_of(t, abs) {
            assert(indices[p + 1] == t[p]);
        } else {
            assert forall|k: int| 0 <= k < indices.len() implies #[trigger] indices[k] != abs by {
                if k > 0 {
                    assert(indices[k] == t[k - 1]);
                }
            }
        }
    }
}

/// A stream that is asked for by its number in the file is the one that stands
/// at the place given among those of its kind.
pub proof fn law_streams_are_found_by_number(qs: Seq<char>, key: Seq<char>, indices: Seq<u32>, n: u32)
    requires
        indices.len() <= u32::MAX,
        query_string::value_of(qs, key) == Some(text::decimal(n as nat)),
    ensures
        match relative(qs, key, indices) {
            Some(p) => p < indices.len() && indices[p as int] == n,
            None => !indices.contains(n),
        },
{
    text::law_decimal_reads_back(n as nat, u32::MAX as int);
    lemma_place_found(indices, n);
}

/// A moment lies as many bytes into the file as the bitrate has sent by then: so
/// many seconds at so many bytes a second. At the start it lies at the start.
pub proof fn law_moments_have_their_bytes(secs: u64, rate: u64, duration: Option<u64>, size: Option<u64>)
    requires
        secs * 10_000_000 <= u64::MAX,
        rate * 8 <= u64::MAX,
        secs * rate <= u64::MAX,
    ensures
        byte_offset((secs * 10_000_000) as u64, Some((rate * 8) as u64), duration, size) == Some(
            secs * rate,
        ),
        byte_offset(0, Some(rate), duration, size) == Some(0int),
        byte_offset(0, None, duration, size) == Some(0int),
{
    let t = secs * 10_000_000;
    let r = rate * 8;
    assert(t * r == (secs * rate) * 80_000_000) by (nonlinear_arith)
        requires
            t == secs * 10_000_000,
            r == rate * 8,
    ;
    assert((secs * rate) * 80_000_000 / 80_000_000 == secs * rate) by (nonlinear_arith);
    assert(secs * rate >= 0) by (nonlinear_arith)
        requires
            secs >= 0,
            rate >= 0,
    ;
    assert(secs == 0 ==> secs * rate == 0) by (nonlinear_arith);
    assert(scaled(t as int, r as int, 80_000_000) == secs * rate);
}

/// Without a bitrate, the end of the title lies at the end of the file, and where
/// neither is known nothing is said.
pub proof fn law_the_end_lies_at_the_end(ms: u64, size: u64)
    requires
        0 < ms,
        ms * 10_000 <= u64::MAX,
    ensures
        byte_offset((ms * 10_000) as u64, None, Some(ms), Some(size)) == Some(size as int),
        byte_offset((ms * 10_000) as u64, None, None, Some(size)) is None,
        byte_offset((ms * 10_000) as u64, None, Some(ms), None) is None,
{
    let t = ms * 10_000;
    assert(t * size / t == size) by (nonlinear_arith)
        requires
            t > 0,
            size >= 0,
    ;
}

/// A start time is honoured by cutting the file there, where the client asks for
/// no range of its own and the container can be cut. In all other cases the
/// file is sent whole.
pub proof fn law_files_are_cut_where_playback_starts(s: Source, ticks: u64, offset: int)
    requires
        0 <= offset <= u64::MAX,
    ensures
        seek::resyncs(s) && ticks > 0 ==> delivery_plan(s, false, ticks, Some(offset)) == (
        DeliveryPlan::FromOffset { offset: offset as u64 }),
        delivery_plan(s, true, ticks, Some(offset)) == DeliveryPlan::WholeFile,
        delivery_plan(s, false, 0, Some(offset)) == DeliveryPlan::WholeFile,
        delivery_plan(s, false, ticks, None) == DeliveryPlan::WholeFile,
{
}

/// A good token opens every item, and a capability opens its own.
pub proof fn law_tokens_and_capabilities_open(c: Credentials, id: u64)
    ensures
        c.token_valid ==> authorized(c, id),
        c.tag_media_id == Some(id) ==> authorized(c, id),
        c.play_session_media_id == Some(id) ==> authorized(c, id),
        !c.token_valid && c.tag_media_id != Some(id) && c.play_session_media_id != Some(id)
            ==> !authorized(c, id),
{
}

/// A copy is current where the file has not changed since the copy's date, and a
/// copy without a date never is.
pub proof fn law_stale_copies_are_replaced(since: u64, modified: u64, nanos: bool)
    ensures
        modified > since ==> !copy_is_current(Some(since), modified, nanos),
        modified < since ==> copy_is_current(Some(since), modified, nanos),
        !copy_is_current(None, modified, nanos),
{
}

/// A request carries its key under either name, whatever the case, and the first
/// that is not empty counts.
pub proof fn law_keys_are_carried_under_either_name(p: query_string::Pair)
    ensures
        text::eq_ci(p.0, "api_key"@) && p.1.len() > 0 ==> api_key_pair()(p),
        text::eq_ci(p.0, "apikey"@) && p.1.len() > 0 ==> api_key_pair()(p),
        p.1.len() == 0 ==> !api_key_pair()(p),
        api_key_pair()(p) ==> text::eq_ci(p.0, "api_key"@) || text::eq_ci(p.0, "apikey"@),
{
    reveal_strlit("ApiKey");
    reveal_strlit("apikey");
    assert(text::lower("ApiKey"@) =~= text::lower("apikey"@));
}

} // verus!
