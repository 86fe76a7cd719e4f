//! What a player is told when it asks how to play an item: whether the file can
//! be played as it is, which stream to fetch where it cannot, and which tracks
//! are on by default.

use vstd::prelude::*;
use vstd::string::*;
use crate::query_string::{self, find_value};
use crate::seqs;
use crate::text::{self, csv_has_name, decimal_text, eq_ignore_case, eq_text, has_part, one_of, parse_u32, signed_decimal_text, to_lower, trimmed};

verus! {

/// The outcome of negotiating a source against a client's device profile.
#[derive(Debug)]
pub enum Decision {
    DirectPlay,
    AudioRemux,
    VideoRemux { target_container: String },
    Transcode { target_video_codec: Option<String> },
}

/// A transcode target that a client offers: the kind of media and a
/// comma-separated list of video codecs.
#[derive(Debug)]
pub struct TranscodingProfile {
    pub kind: String,
    pub video_codec: String,
}

/// A shape that a client plays without help: the kind of media and
/// comma-separated lists of containers and video codecs.
#[derive(Debug)]
pub struct DirectPlayProfile {
    pub kind: String,
    pub container: String,
    pub video_codec: String,
}

/// A subtitle track inside the container. `is_text` says that its codec is a
/// text format rather than bitmaps.
#[derive(Debug, Clone, Copy)]
pub struct SubtitleTrack {
    pub stream_index: u32,
    pub is_default: bool,
    pub is_text: bool,
}

/// A stream as it is listed to the client.
#[derive(Debug)]
pub struct ListedStream {
    pub kind: String,
    pub index: u32,
    pub is_default: bool,
    pub language: Option<String>,
}

/// Another edition of the same title.
#[derive(Debug)]
pub struct AlternateSource {
    pub id: String,
    pub name: Option<String>,
    pub container: Option<String>,
    pub duration_ms: Option<u64>,
    pub size_bytes: Option<u64>,
    pub bitrate_bps: Option<u64>,
}

/// Where the viewer stopped, as far as it is on record.
#[derive(Debug, Clone, Copy)]
pub struct ResumeRecord {
    pub played: bool,
    pub position_ticks: u64,
}

/// Everything that the answer depends on.
#[derive(Debug)]
pub struct PlaybackRequest {
    pub item_id: String,
    pub title: String,
    pub is_video: bool,
    pub container: String,
    pub video_codec: Option<String>,
    pub audio_codec: Option<String>,
    pub run_time_ticks: Option<u64>,
    pub size_bytes: Option<u64>,
    pub bitrate_bps: Option<u64>,
    pub subtitle_tracks: Vec<SubtitleTrack>,
    pub streams: Vec<ListedStream>,
    pub alternates: Vec<AlternateSource>,
    pub decision: Decision,
    pub transcoding_profiles: Vec<TranscodingProfile>,
    pub direct_play_profiles: Vec<DirectPlayProfile>,
    pub user_agent: Option<String>,
    pub linux_firefox_h264: bool,
    pub query: String,
    pub body_audio_index: Option<u32>,
    pub body_subtitle_index: Option<i64>,
    pub api_key: String,
    pub play_session_id: String,
    pub resume: Option<ResumeRecord>,
}

/// One playable source of the item. The tag is what the client echoes back to
/// be let at the file; only the primary source carries one.
#[derive(Debug)]
pub struct MediaSource {
    pub id: String,
    pub container: String,
    pub e_tag: Option<String>,
    pub name: String,
    pub run_time_ticks: Option<u64>,
    pub size: Option<u64>,
    pub bitrate: Option<u64>,
    pub supports_direct_play: bool,
    pub supports_direct_stream: bool,
    pub transcoding_url: Option<String>,
    pub transcoding_sub_protocol: String,
    pub default_audio_stream_index: Option<u32>,
    pub default_subtitle_stream_index: Option<u32>,
    pub start_position_ticks: u64,
}

/// The answer: the primary source, then the other editions.
#[derive(Debug)]
pub struct PlaybackInfo {
    pub media_sources: Vec<MediaSource>,
    pub play_session_id: String,
    pub start_position_ticks: u64,
}

// ------------------------------------------------------------ the client's kind

pub open spec fn web_client(agent: Option<Seq<char>>) -> bool {
    agent matches Some(ua) && text::contains(ua, "Mozilla"@)
}

/// Desktop Firefox on Linux, unless it has been declared fit for H.264.
pub open spec fn doubtful_h264_client(agent: Option<Seq<char>>, h264_allowed: bool) -> bool {
    &&& agent matches Some(ua)
    &&& text::contains(ua, "Firefox"@)
    &&& text::contains(ua, "Linux"@)
    &&& !text::contains(ua, "Android"@)
    &&& !h264_allowed
}

/// Whether the client is a browser.
pub fn is_web_client(agent: &Option<String>) -> (r: bool)
    ensures
        r == web_client(text::opt_text(*agent)),
{
    match agent {
        Some(ua) => has_part(ua.as_str(), "Mozilla"),
        None => false,
    }
}

/// Whether the client is a browser that may not decode H.264.
pub fn is_doubtful_h264_client(agent: &Option<String>, h264_allowed: bool) -> (r: bool)
    ensures
        r == doubtful_h264_client(text::opt_text(*agent), h264_allowed),
{
    match agent {
        Some(ua) => has_part(ua.as_str(), "Firefox") && has_part(ua.as_str(), "Linux") && !has_part(
            ua.as_str(),
            "Android",
        ) && !h264_allowed,
        None => false,
    }
}

// ------------------------------------------------------------------ codec names

pub open spec fn vp_names() -> Seq<Seq<char>> {
    seq!["vp9"@, "vp8"@, "vp09"@, "vp08"@]
}

pub open spec fn webm_video_names() -> Seq<Seq<char>> {
    seq!["vp9"@, "vp09"@, "vp8"@, "vp08"@, "av1"@, "av01"@]
}

pub open spec fn webm_audio_names() -> Seq<Seq<char>> {
    seq!["opus"@, "vorbis"@]
}

pub open spec fn is_webm_video(codec: Option<Seq<char>>) -> bool {
    codec matches Some(c) && webm_video_names().contains(text::lower(c))
}

fn is_vp_name(codec: &str) -> (r: bool)
    ensures
        r == vp_names().contains(text::lower(codec@)),
{
    let wanted: Vec<&str> = vec!["vp9", "vp8", "vp09", "vp08"];
    proof {
        assert(text::names(wanted@) == vp_names());
    }
    one_of(to_lower(codec).as_str(), &wanted)
}

/// Whether WebM allows a video codec.
pub fn is_webm_video_name(codec: &str) -> (r: bool)
    ensures
        r == webm_video_names().contains(text::lower(codec@)),
{
    let wanted: Vec<&str> = vec!["vp9", "vp09", "vp8", "vp08", "av1", "av01"];
    proof {
        assert(text::names(wanted@) == webm_video_names());
    }
    one_of(to_lower(codec).as_str(), &wanted)
}

fn is_webm_audio_name(codec: &str) -> (r: bool)
    ensures
        r == webm_audio_names().contains(text::lower(codec@)),
{
    let wanted: Vec<&str> = vec!["opus", "vorbis"];
    proof {
        assert(text::names(wanted@) == webm_audio_names());
    }
    one_of(to_lower(codec).as_str(), &wanted)
}

/// A profile speaks of video where it names no kind at all, or names that one.
pub open spec fn covers_video(kind: Seq<char>) -> bool {
    kind.len() == 0 || text::eq_ci(kind, "Video"@)
}

fn profile_covers_video(kind: &str) -> (r: bool)
    ensures
        r == covers_video(kind@),
{
    kind.is_empty() || eq_ignore_case(kind, "Video")
}

/// Whether some transcode target for video lists a codec of the VP family.
pub open spec fn offers_vp(profiles: Seq<TranscodingProfile>) -> bool {
    exists|i: int|
        0 <= i < profiles.len() && covers_video((#[trigger] profiles[i]).kind@) && text::csv_names(
            profiles[i].video_codec@,
            vp_names(),
        )
}

/// Whether the client takes a transcode to a codec of the VP family.
pub fn client_offers_vp(profiles: &Vec<TranscodingProfile>) -> (r: bool)
    ensures
        r == offers_vp(profiles@),
{
    let wanted: Vec<&str> = vec!["vp9", "vp8", "vp09", "vp08"];
    proof {
        assert(text::names(wanted@) == vp_names());
    }
    let mut i: usize = 0;
    while i < profiles.len()
        invariant
            i <= profiles.len(),
            text::names(wanted@) == vp_names(),
            forall|k: int|
                0 <= k < i ==> !(covers_video((#[trigger] profiles@[k]).kind@) && text::csv_names(
                    profiles@[k].video_codec@,
                    vp_names(),
                )),
        decreases profiles.len() - i,
    {
        if profile_covers_video(profiles[i].kind.as_str()) && csv_has_name(
            profiles[i].video_codec.as_str(),
            &wanted,
        ) {
            return true;
        }
        i += 1;
    }
    false
}

// ------------------------------------------------- direct play, direct stream

pub open spec fn is_direct(d: Decision) -> bool {
    d is DirectPlay
}

/// Whether a browser that may not decode H.264 must be given VP9 instead: it
/// offers VP9, and the source is not one that it would play directly anyway.
pub open spec fn forced_vp9(q: PlaybackRequest) -> bool {
    &&& q.is_video
    &&& doubtful_h264_client(text::opt_text(q.user_agent), q.linux_firefox_h264)
    &&& offers_vp(q.transcoding_profiles@)
    &&& !(is_direct(q.decision) && is_webm_video(text::opt_text(q.video_codec)))
}

pub open spec fn direct_play(q: PlaybackRequest) -> bool {
    is_direct(q.decision) && !forced_vp9(q)
}

pub open spec fn matroska(container: Seq<char>) -> bool {
    ||| text::contains(text::lower(container), "matroska"@)
    ||| text::contains(text::lower(container), "webm"@)
    ||| text::contains(text::lower(container), "mkv"@)
}

/// Whether some direct-play profile for video takes a WebM file with this
/// video codec.
pub open spec fn plays_webm(profiles: Seq<DirectPlayProfile>, codec: Seq<char>) -> bool {
    exists|i: int|
        0 <= i < profiles.len() && covers_video((#[trigger] profiles[i]).kind@) && text::csv_names(
            profiles[i].container@,
            seq!["webm"@],
        ) && text::csv_names(profiles[i].video_codec@, seq![text::lower(codec)])
}

/// Whether the file plays as it is once it is labelled as WebM: a Matroska
/// file whose video and audio WebM allows, and a client that plays such video.
pub open spec fn relabel_playable(q: PlaybackRequest) -> bool {
    &&& matroska(q.container@)
    &&& text::opt_text(q.video_codec) matches Some(c)
    &&& plays_webm(q.direct_play_profiles@, c)
    &&& webm_video_names().contains(text::lower(c))
    &&& text::opt_text(q.audio_codec) matches Some(a) ==> webm_audio_names().contains(
        text::lower(a),
    )
}

pub open spec fn direct_stream(q: PlaybackRequest) -> bool {
    &&& !forced_vp9(q)
    &&& direct_play(q) || ((q.decision is VideoRemux || q.decision is AudioRemux)
        && relabel_playable(q))
}

/// Whether the client must be given VP9.
pub fn force_vp9(q: &PlaybackRequest) -> (r: bool)
    ensures
        r == forced_vp9(*q),
{
    if !q.is_video || !is_doubtful_h264_client(&q.user_agent, q.linux_firefox_h264)
        || !client_offers_vp(&q.transcoding_profiles) {
        return false;
    }
    match (&q.decision, &q.video_codec) {
        (Decision::DirectPlay, Some(c)) => !is_webm_video_name(c.as_str()),
        _ => true,
    }
}

fn container_is_matroska(container: &str) -> (r: bool)
    ensures
        r == matroska(container@),
{
    let low = to_lower(container);
    has_part(low.as_str(), "matroska") || has_part(low.as_str(), "webm") || has_part(
        low.as_str(),
        "mkv",
    )
}

fn client_plays_webm(profiles: &Vec<DirectPlayProfile>, codec: &str) -> (r: bool)
    ensures
        r == plays_webm(profiles@, codec@),
{
    let low = to_lower(codec);
    let webm: Vec<&str> = vec!["webm"];
    let video: Vec<&str> = vec![low.as_str()];
    proof {
        assert(text::names(webm@) == seq!["webm"@]);
        assert(text::names(video@) == seq![text::lower(codec@)]);
    }
    let mut i: usize = 0;
    while i < profiles.len()
        invariant
            i <= profiles.len(),
            text::names(webm@) == seq!["webm"@],
            text::names(video@) == seq![text::lower(codec@)],
            forall|k: int|
                0 <= k < i ==> !(covers_video((#[trigger] profiles@[k]).kind@) && text::csv_names(
                    profiles@[k].container@,
                    seq!["webm"@],
                ) && text::csv_names(profiles@[k].video_codec@, seq![text::lower(codec@)])),
        decreases profiles.len() - i,
    {
        if profile_covers_video(profiles[i].kind.as_str()) && csv_has_name(
            profiles[i].container.as_str(),
            &webm,
        ) && csv_has_name(profiles[i].video_codec.as_str(), &video) {
            return true;
        }
        i += 1;
    }
    false
}

/// Whether the file plays as it is once it is labelled as WebM.
pub fn webm_relabel_playable(q: &PlaybackRequest) -> (r: bool)
    ensures
        r == relabel_playable(*q),
{
    let audio_fits = match &q.audio_codec {
        Some(a) => is_webm_audio_name(a.as_str()),
        None => true,
    };
    match &q.video_codec {
        Some(c) => container_is_matroska(q.container.as_str()) && client_plays_webm(
            &q.direct_play_profiles,
            c.as_str(),
        ) && is_webm_video_name(c.as_str()) && audio_fits,
        None => false,
    }
}

/// Whether the file can be streamed as it is.
pub fn supports_direct_stream(q: &PlaybackRequest) -> (r: bool)
    ensures
        r == direct_stream(*q),
{
    if force_vp9(q) {
        return false;
    }
    match &q.decision {
        Decision::DirectPlay => true,
        Decision::VideoRemux { .. } => webm_relabel_playable(q),
        Decision::AudioRemux => webm_relabel_playable(q),
        Decision::Transcode { .. } => false,
    }
}

// -------------------------------------------------------------- track selection

/// A value that the query string gives: that of the first pair with the key,
/// where it is not empty.
pub open spec fn picked(query: Seq<char>, key: Seq<char>) -> Option<Seq<char>> {
    match query_string::value_of(query, key) {
        Some(v) => if v.len() > 0 {
            Some(v)
        } else {
            None
        },
        None => None,
    }
}

/// The audio track that was asked for; the query string goes before the body.
pub open spec fn picked_audio(query: Seq<char>, body: Option<u32>) -> Option<Seq<char>> {
    match picked(query, "AudioStreamIndex"@) {
        Some(v) => Some(v),
        None => match body {
            Some(n) => Some(text::decimal(n as nat)),
            None => None,
        },
    }
}

/// The subtitle track that was asked for; the query string goes before the
/// body.
pub open spec fn picked_subtitle(query: Seq<char>, body: Option<i64>) -> Option<Seq<char>> {
    match picked(query, "SubtitleStreamIndex"@) {
        Some(v) => Some(v),
        None => match body {
            Some(n) => Some(text::signed_decimal(n as int)),
            None => None,
        },
    }
}

pub open spec fn at_index(index: int) -> spec_fn(SubtitleTrack) -> bool {
    |t: SubtitleTrack| t.stream_index == index
}

pub open spec fn default_image() -> spec_fn(SubtitleTrack) -> bool {
    |t: SubtitleTrack| t.is_default && !t.is_text
}

/// Whether an asked-for subtitle goes into the stream: "off" does, and so does
/// the index of a bitmap track; a text track is delivered beside the stream.
pub open spec fn rides_along(v: Seq<char>, tracks: Seq<SubtitleTrack>) -> bool {
    text::trim(v) == "-1"@ || match text::parse_unsigned(text::trim(v), u32::MAX as int) {
        Some(n) => seqs::first_such(tracks, at_index(n)) matches Some(t) && !t.is_text,
        None => false,
    }
}

/// The subtitle index that the stream URL carries. With none asked for it is
/// that of the default bitmap track.
pub open spec fn stream_subtitle(q: PlaybackRequest) -> Option<Seq<char>> {
    match picked_subtitle(q.query@, q.body_subtitle_index) {
        Some(v) => if rides_along(v, q.subtitle_tracks@) {
            Some(v)
        } else {
            None
        },
        None => match seqs::first_such(q.subtitle_tracks@, default_image()) {
            Some(t) => Some(text::decimal(t.stream_index as nat)),
            None => None,
        },
    }
}

/// One more parameter of a URL, or nothing.
pub open spec fn parameter(key: Seq<char>, value: Option<Seq<char>>) -> Seq<char> {
    match value {
        Some(v) => "&"@ + key + "="@ + v,
        None => Seq::empty(),
    }
}

pub open spec fn selection(q: PlaybackRequest) -> Seq<char> {
    parameter("AudioStreamIndex"@, picked_audio(q.query@, q.body_audio_index)) + parameter(
        "SubtitleStreamIndex"@,
        stream_subtitle(q),
    )
}

fn pick(query: &str, key: &str) -> (r: Option<String>)
    ensures
        text::opt_text(r) == picked(query@, key@),
{
    match find_value(query, key) {
        Some(v) => if v.as_str().is_empty() {
            None
        } else {
            Some(v)
        },
        None => None,
    }
}

fn pick_audio(query: &str, body: Option<u32>) -> (r: Option<String>)
    ensures
        text::opt_text(r) == picked_audio(query@, body),
{
    match pick(query, "AudioStreamIndex") {
        Some(v) => Some(v),
        None => match body {
            Some(n) => Some(decimal_text(n as u64)),
            None => None,
        },
    }
}

fn pick_subtitle(query: &str, body: Option<i64>) -> (r: Option<String>)
    ensures
        text::opt_text(r) == picked_subtitle(query@, body),
{
    match pick(query, "SubtitleStreamIndex") {
        Some(v) => Some(v),
        None => match body {
            Some(n) => Some(signed_decimal_text(n)),
            None => None,
        },
    }
}

fn track_at(tracks: &Vec<SubtitleTrack>, index: u32) -> (r: Option<SubtitleTrack>)
    ensures
        r == seqs::first_such(tracks@, at_index(index as int)),
{
    let mut i: usize = 0;
    while i < tracks.len()
        invariant
            i <= tracks.len(),
            forall|k: int| 0 <= k < i ==> !at_index(index as int)(#[trigger] tracks@[k]),
        decreases tracks.len() - i,
    {
        if tracks[i].stream_index == index {
            proof {
                seqs::lemma_first_such(tracks@, at_index(index as int), i as int);
            }
            return Some(tracks[i]);
        }
        i += 1;
    }
    proof {
        seqs::lemma_first_such(tracks@, at_index(index as int), i as int);
    }
    None
}

fn default_image_track(tracks: &Vec<SubtitleTrack>) -> (r: Option<SubtitleTrack>)
    ensures
        r == seqs::first_such(tracks@, default_image()),
{
    let mut i: usize = 0;
    while i < tracks.len()
        invariant
            i <= tracks.len(),
            forall|k: int| 0 <= k < i ==> !default_image()(#[trigger] tracks@[k]),
        decreases tracks.len() - i,
    {
        if tracks[i].is_default && !tracks[i].is_text {
            proof {
                seqs::lemma_first_such(tracks@, default_image(), i as int);
            }
            return Some(tracks[i]);
        }
        i += 1;
    }
    proof {
        seqs::lemma_first_such(tracks@, default_image(), i as int);
    }
    None
}

fn goes_into_stream(v: &str, tracks: &Vec<SubtitleTrack>) -> (r: bool)
    ensures
        r == rides_along(v@, tracks@),
{
    let t = trimmed(v);
    if eq_text(t.as_str(), "-1") {
        return true;
    }
    match parse_u32(t.as_str()) {
        Some(n) => match track_at(tracks, n) {
            Some(track) => !track.is_text,
            None => false,
        },
        None => false,
    }
}

fn pick_stream_subtitle(q: &PlaybackRequest) -> (r: Option<String>)
    ensures
        text::opt_text(r) == stream_subtitle(*q),
{
    match pick_subtitle(q.query.as_str(), q.body_subtitle_index) {
        Some(v) => if goes_into_stream(v.as_str(), &q.subtitle_tracks) {
            Some(v)
        } else {
            None
        },
        None => match default_image_track(&q.subtitle_tracks) {
            Some(t) => Some(decimal_text(t.stream_index as u64)),
            None => None,
        },
    }
}

fn push_parameter(out: &mut String, key: &str, value: &Option<String>)
    ensures
        final(out)@ == old(out)@ + parameter(key@, text::opt_text(*value)),
{
    if let Some(v) = value {
        out.append("&");
        out.append(key);
        out.append("=");
        out.append(v.as_str());
        proof {
            assert(out@ == old(out)@ + ("&"@ + key@ + "="@ + v@));
        }
    } else {
        proof {
            assert(out@ == old(out)@ + Seq::<char>::empty());
        }
    }
}

/// The track parameters of the stream URL.
pub fn stream_selection(q: &PlaybackRequest) -> (r: String)
    ensures
        r@ == selection(*q),
{
    let mut out: String = String::new();
    let audio = pick_audio(q.query.as_str(), q.body_audio_index);
    push_parameter(&mut out, "AudioStreamIndex", &audio);
    let subtitle = pick_stream_subtitle(q);
    push_parameter(&mut out, "SubtitleStreamIndex", &subtitle);
    proof {
        assert(out@ == selection(*q));
    }
    out
}

// ------------------------------------------------------------------ stream URL

pub open spec fn stream_path(
    prefix: Seq<char>,
    q: PlaybackRequest,
    suffix: Seq<char>,
) -> Seq<char> {
    prefix + q.item_id@ + suffix + "?PlaySessionId="@ + q.play_session_id@ + "&api_key="@
        + q.api_key@
}

pub open spec fn vp9_url(q: PlaybackRequest) -> Seq<char> {
    stream_path("/videos/"@, q, "/vp9/master.m3u8"@) + selection(q)
}

pub open spec fn hls_url(q: PlaybackRequest) -> Seq<char> {
    stream_path("/videos/"@, q, "/master.m3u8"@) + selection(q)
}

pub open spec fn audio_url(q: PlaybackRequest) -> Seq<char> {
    stream_path("/audio/"@, q, "/universal"@)
}

/// The stream that stands in for the file, where the file is not played as it
/// is.
pub open spec fn stream_url(q: PlaybackRequest) -> Option<Seq<char>> {
    if forced_vp9(q) {
        Some(vp9_url(q))
    } else {
        match q.decision {
            Decision::DirectPlay => None,
            Decision::VideoRemux { .. } => Some(hls_url(q)),
            Decision::AudioRemux => Some(
                if q.is_video {
                    hls_url(q)
                } else {
                    audio_url(q)
                },
            ),
            Decision::Transcode { target_video_codec } => Some(
                if !q.is_video {
                    audio_url(q)
                } else if text::opt_text(target_video_codec) matches Some(c)
                    && vp_names().contains(text::lower(c)) {
                    vp9_url(q)
                } else {
                    hls_url(q)
                },
            ),
        }
    }
}

/// Where playback resumes: a title that was played to the end starts over.
pub open spec fn resume_ticks(r: Option<ResumeRecord>) -> u64 {
    match r {
        Some(rec) => if rec.played {
            0
        } else {
            rec.position_ticks
        },
        None => 0,
    }
}

/// A native player fetches the URL as it is, so the resume point rides on it.
pub open spec fn transcoding_url(q: PlaybackRequest) -> Option<Seq<char>> {
    match stream_url(q) {
        Some(u) => if !web_client(text::opt_text(q.user_agent)) && resume_ticks(q.resume) > 0
            && !text::contains(u, "StartTimeTicks"@) {
            Some(u + "&StartTimeTicks="@ + text::decimal(resume_ticks(q.resume) as nat))
        } else {
            Some(u)
        },
        None => None,
    }
}

pub open spec fn sub_protocol(url: Option<Seq<char>>) -> Seq<char> {
    match url {
        Some(u) => if text::contains(u, ".webm"@) {
            "http"@
        } else {
            "hls"@
        },
        None => "http"@,
    }
}

fn build_stream_path(prefix: &str, q: &PlaybackRequest, suffix: &str) -> (r: String)
    ensures
        r@ == stream_path(prefix@, *q, suffix@),
{
    let mut out: String = String::new();
    out.append(prefix);
    out.append(q.item_id.as_str());
    out.append(suffix);
    out.append("?PlaySessionId=");
    out.append(q.play_session_id.as_str());
    out.append("&api_key=");
    out.append(q.api_key.as_str());
    proof {
        assert(out@ == stream_path(prefix@, *q, suffix@));
    }
    out
}

fn build_video_url(q: &PlaybackRequest, suffix: &str) -> (r: String)
    ensures
        r@ == stream_path("/videos/"@, *q, suffix@) + selection(*q),
{
    let mut out = build_stream_path("/videos/", q, suffix);
    out.append(stream_selection(q).as_str());
    out
}

fn build_stream_url(q: &PlaybackRequest) -> (r: Option<String>)
    ensures
        text::opt_text(r) == stream_url(*q),
{
    if force_vp9(q) {
        return Some(build_video_url(q, "/vp9/master.m3u8"));
    }
    match &q.decision {
        Decision::DirectPlay => None,
        Decision::VideoRemux { .. } => Some(build_video_url(q, "/master.m3u8")),
        Decision::AudioRemux => if q.is_video {
            Some(build_video_url(q, "/master.m3u8"))
        } else {
            Some(build_stream_path("/audio/", q, "/universal"))
        },
        Decision::Transcode { target_video_codec } => {
            if !q.is_video {
                return Some(build_stream_path("/audio/", q, "/universal"));
            }
            if let Some(c) = target_video_codec {
                if is_vp_name(c.as_str()) {
                    return Some(build_video_url(q, "/vp9/master.m3u8"));
                }
            }
            Some(build_video_url(q, "/master.m3u8"))
        },
    }
}

/// Where playback resumes.
pub fn resume_point(r: &Option<ResumeRecord>) -> (t: u64)
    ensures
        t == resume_ticks(*r),
{
    match r {
        Some(rec) => if rec.played {
            0
        } else {
            rec.position_ticks
        },
        None => 0,
    }
}

/// The URL that the client is sent to, with the resume point where it belongs.
pub fn build_transcoding_url(q: &PlaybackRequest) -> (r: Option<String>)
    ensures
        text::opt_text(r) == transcoding_url(*q),
{
    match build_stream_url(q) {
        Some(u) => {
            let ticks: u64 = resume_point(&q.resume);
            if !is_web_client(&q.user_agent) && ticks > 0 && !has_part(u.as_str(), "StartTimeTicks") {
                let mut out = u;
                out.append("&StartTimeTicks=");
                out.append(decimal_text(ticks).as_str());
                Some(out)
            } else {
                Some(u)
            }
        },
        None => None,
    }
}

/// `hls` for a playlist, `http` for a file; never absent.
pub fn transcoding_sub_protocol(url: &Option<String>) -> (r: String)
    ensures
        r@ == sub_protocol(text::opt_text(*url)),
{
    match url {
        Some(u) => if has_part(u.as_str(), ".webm") {
            "http".to_owned()
        } else {
            "hls".to_owned()
        },
        None => "http".to_owned(),
    }
}

// ---------------------------------------------------------------- default tracks

pub open spec fn audio_stream() -> spec_fn(ListedStream) -> bool {
    |s: ListedStream| s.kind@ == "Audio"@
}

pub open spec fn subtitle_stream() -> spec_fn(ListedStream) -> bool {
    |s: ListedStream| s.kind@ == "Subtitle"@
}

pub open spec fn default_subtitle() -> spec_fn(ListedStream) -> bool {
    |s: ListedStream| s.kind@ == "Subtitle"@ && s.is_default
}

pub open spec fn is_english(language: Option<Seq<char>>) -> bool {
    language matches Some(l) && (text::eq_ci(l, "eng"@) || text::eq_ci(l, "en"@))
}

pub open spec fn english_subtitle() -> spec_fn(ListedStream) -> bool {
    |s: ListedStream| s.kind@ == "Subtitle"@ && is_english(text::opt_text(s.language))
}

pub open spec fn stream_index(s: Option<ListedStream>) -> Option<u32> {
    match s {
        Some(x) => Some(x.index),
        None => None,
    }
}

/// The first audio stream.
pub open spec fn default_audio_of(streams: Seq<ListedStream>) -> Option<u32> {
    stream_index(seqs::first_such(streams, audio_stream()))
}

/// The first subtitle that is marked as default; without one, the first
/// English one; without that, the first of all.
pub open spec fn default_subtitle_of(streams: Seq<ListedStream>) -> Option<u32> {
    if seqs::first_such(streams, default_subtitle()) is Some {
        stream_index(seqs::first_such(streams, default_subtitle()))
    } else if seqs::first_such(streams, english_subtitle()) is Some {
        stream_index(seqs::first_such(streams, english_subtitle()))
    } else {
        stream_index(seqs::first_such(streams, subtitle_stream()))
    }
}

/// The audio track that is played unless another is picked.
pub fn default_audio_index(streams: &Vec<ListedStream>) -> (r: Option<u32>)
    ensures
        r == default_audio_of(streams@),
{
    let mut i: usize = 0;
    while i < streams.len()
        invariant
            i <= streams.len(),
            forall|k: int| 0 <= k < i ==> !audio_stream()(#[trigger] streams@[k]),
        decreases streams.len() - i,
    {
        if eq_text(streams[i].kind.as_str(), "Audio") {
            proof {
                seqs::lemma_first_such(streams@, audio_stream(), i as int);
            }
            return Some(streams[i].index);
        }
        i += 1;
    }
    proof {
        seqs::lemma_first_such(streams@, audio_stream(), i as int);
    }
    None
}

fn language_is_english(language: &Option<String>) -> (r: bool)
    ensures
        r == is_english(text::opt_text(*language)),
{
    match language {
        Some(l) => eq_ignore_case(l.as_str(), "eng") || eq_ignore_case(l.as_str(), "en"),
        None => false,
    }
}

/// The subtitle track that is shown unless another is picked.
pub fn default_subtitle_index(streams: &Vec<ListedStream>) -> (r: Option<u32>)
    ensures
        r == default_subtitle_of(streams@),
{
    let n: usize = streams.len();
    let mut flagged: usize = n;
    let mut english: usize = n;
    let mut any: usize = n;
    let mut i: usize = 0;
    while i < n
        invariant
            n == streams@.len(),
            i <= n,
            flagged < i || flagged == n,
            english < i || english == n,
            any < i || any == n,
            forall|k: int|
                0 <= k < (if flagged < n { flagged as int } else { i as int })
                    ==> !default_subtitle()(#[trigger] streams@[k]),
            forall|k: int|
                0 <= k < (if english < n { english as int } else { i as int })
                    ==> !english_subtitle()(#[trigger] streams@[k]),
            forall|k: int|
                0 <= k < (if any < n { any as int } else { i as int })
                    ==> !subtitle_stream()(#[trigger] streams@[k]),
            flagged < n ==> default_subtitle()(streams@[flagged as int]),
            english < n ==> english_subtitle()(streams@[english as int]),
            any < n ==> subtitle_stream()(streams@[any as int]),
        decreases n - i,
    {
        let subtitle = eq_text(streams[i].kind.as_str(), "Subtitle");
        if flagged == n && subtitle && streams[i].is_default {
            flagged = i;
        }
        if english == n && subtitle && language_is_english(&streams[i].language) {
            english = i;
        }
        if any == n && subtitle {
            any = i;
        }
        i += 1;
    }
    proof {
        seqs::lemma_first_such(streams@, default_subtitle(), flagged as int);
        seqs::lemma_first_such(streams@, english_subtitle(), english as int);
        seqs::lemma_first_such(streams@, subtitle_stream(), any as int);
    }
    if flagged < n {
        Some(streams[flagged].index)
    } else if english < n {
        Some(streams[english].index)
    } else if any < n {
        Some(streams[any].index)
    } else {
        None
    }
}

// ------------------------------------------------------------------ the answer

/// The container that the client is told of: that of a video remux is the one
/// it is remuxed to.
pub open spec fn advertised_container(q: PlaybackRequest) -> Seq<char> {
    match q.decision {
        Decision::VideoRemux { target_container } => target_container@,
        _ => q.container@,
    }
}

pub open spec fn millis_to_ticks(ms: u64) -> u64 {
    if ms * 10_000 > u64::MAX {
        u64::MAX
    } else {
        (ms * 10_000) as u64
    }
}

/// `a` where there is one, else `b`.
pub open spec fn first_of<T>(a: Option<T>, b: Option<T>) -> Option<T> {
    if a is Some {
        a
    } else {
        b
    }
}

pub open spec fn is_primary_source(q: PlaybackRequest, s: MediaSource) -> bool {
    &&& s.id@ == q.item_id@
    &&& s.container@ == advertised_container(q)
    &&& text::opt_text(s.e_tag) == Some(q.play_session_id@)
    &&& s.name@ == q.title@
    &&& s.run_time_ticks == q.run_time_ticks
    &&& s.size == q.size_bytes
    &&& s.bitrate == q.bitrate_bps
    &&& s.supports_direct_play == direct_play(q)
    &&& s.supports_direct_stream == direct_stream(q)
    &&& text::opt_text(s.transcoding_url) == transcoding_url(q)
    &&& s.transcoding_sub_protocol@ == sub_protocol(transcoding_url(q))
    &&& s.default_audio_stream_index == default_audio_of(q.streams@)
    &&& s.default_subtitle_stream_index == default_subtitle_of(q.streams@)
    &&& s.start_position_ticks == resume_ticks(q.resume)
}

/// Another edition is listed without a stream of its own; what it does not
/// know of itself it takes from the primary source.
pub open spec fn is_alternate_source(
    q: PlaybackRequest,
    a: AlternateSource,
    s: MediaSource,
) -> bool {
    &&& s.id@ == q.item_id@ + "-"@ + a.id@
    &&& s.container@ == (match text::opt_text(a.container) {
        Some(c) => c,
        None => advertised_container(q),
    })
    &&& s.e_tag is None
    &&& s.name@ == (match text::opt_text(a.name) {
        Some(n) => n,
        None => q.title@,
    })
    &&& s.run_time_ticks == (match a.duration_ms {
        Some(ms) => Some(millis_to_ticks(ms)),
        None => None,
    })
    &&& s.size == first_of(a.size_bytes, q.size_bytes)
    &&& s.bitrate == first_of(a.bitrate_bps, q.bitrate_bps)
    &&& !s.supports_direct_play
    &&& !s.supports_direct_stream
    &&& s.transcoding_url is None
    &&& s.transcoding_sub_protocol@ == "http"@
    &&& s.default_audio_stream_index == default_audio_of(q.streams@)
    &&& s.default_subtitle_stream_index == default_subtitle_of(q.streams@)
    &&& s.start_position_ticks == 0
}

fn advertise_container(q: &PlaybackRequest) -> (r: String)
    ensures
        r@ == advertised_container(*q),
{
    match &q.decision {
        Decision::VideoRemux { target_container } => target_container.clone(),
        _ => q.container.clone(),
    }
}

/// Milliseconds as ticks of a hundred nanoseconds, saturating.
pub fn ticks_of_millis(ms: u64) -> (r: u64)
    ensures
        r == millis_to_ticks(ms),
{
    match ms.checked_mul(10_000) {
        Some(t) => t,
        None => u64::MAX,
    }
}

fn primary_source(q: &PlaybackRequest) -> (s: MediaSource)
    ensures
        is_primary_source(*q, s),
{
    let url = build_transcoding_url(q);
    let protocol = transcoding_sub_protocol(&url);
    let direct = match &q.decision {
        Decision::DirectPlay => !force_vp9(q),
        _ => false,
    };
    MediaSource {
        id: q.item_id.clone(),
        container: advertise_container(q),
        e_tag: Some(q.play_session_id.clone()),
        name: q.title.clone(),
        run_time_ticks: q.run_time_ticks,
        size: q.size_bytes,
        bitrate: q.bitrate_bps,
        supports_direct_play: direct,
        supports_direct_stream: supports_direct_stream(q),
        transcoding_url: url,
        transcoding_sub_protocol: protocol,
        default_audio_stream_index: default_audio_index(&q.streams),
        default_subtitle_stream_index: default_subtitle_index(&q.streams),
        start_position_ticks: resume_point(&q.resume),
    }
}

fn alternate_source(q: &PlaybackRequest, a: &AlternateSource) -> (s: MediaSource)
    ensures
        is_alternate_source(*q, *a, s),
{
    let mut id: String = q.item_id.clone();
    id.append("-");
    id.append(a.id.as_str());
    let container = match &a.container {
        Some(c) => c.clone(),
        None => advertise_container(q),
    };
    let name = match &a.name {
        Some(n) => n.clone(),
        None => q.title.clone(),
    };
    let run_time_ticks = match a.duration_ms {
        Some(ms) => Some(ticks_of_millis(ms)),
        None => None,
    };
    MediaSource {
        id,
        container,
        e_tag: None,
        name,
        run_time_ticks,
        size: if a.size_bytes.is_some() {
            a.size_bytes
        } else {
            q.size_bytes
        },
        bitrate: if a.bitrate_bps.is_some() {
            a.bitrate_bps
        } else {
            q.bitrate_bps
        },
        supports_direct_play: false,
        supports_direct_stream: false,
        transcoding_url: None,
        transcoding_sub_protocol: "http".to_owned(),
        default_audio_stream_index: default_audio_index(&q.streams),
        default_subtitle_stream_index: default_subtitle_index(&q.streams),
        start_position_ticks: 0,
    }
}

/// Answers a client that asks how to play an item.
pub fn playback_info(q: &PlaybackRequest) -> (r: PlaybackInfo)
    ensures
        r.play_session_id@ == q.play_session_id@,
        r.start_position_ticks == resume_ticks(q.resume),
        r.media_sources@.len() == 1 + q.alternates@.len(),
        is_primary_source(*q, r.media_sources@[0]),
        forall|i: int|
            0 <= i < q.alternates@.len() ==> is_alternate_source(
                *q,
                #[trigger] q.alternates@[i],
                r.media_sources@[i + 1],
            ),
{
    let mut sources: Vec<MediaSource> = Vec::new();
    sources.push(primary_source(q));
    let mut i: usize = 0;
    while i < q.alternates.len()
        invariant
            i <= q.alternates.len(),
            sources@.len() == 1 + i,
            is_primary_source(*q, sources@[0]),
            forall|k: int|
                0 <= k < i ==> is_alternate_source(
                    *q,
                    #[trigger] q.alternates@[k],
                    sources@[k + 1],
                ),
        decreases q.alternates.len() - i,
    {
        sources.push(alternate_source(q, &q.alternates[i]));
        i += 1;
    }
    PlaybackInfo {
        media_sources: sources,
        play_session_id: q.play_session_id.clone(),
        start_position_ticks: resume_point(&q.resume),
    }
}

// ------------------------------------------------------------------------ laws

/// A client is sent to a stream exactly where it is not told to play the file
/// as it is, so it always has something to play.
pub proof fn law_a_stream_or_the_file(q: PlaybackRequest)
    ensures
        transcoding_url(q) is None <==> direct_play(q),
        direct_play(q) ==> direct_stream(q),
{
}

/// Of the tracks in the container, only a bitmap one is ever asked to be drawn
/// into the picture: an index that rides on a stream URL is that of such a
/// track.
pub proof fn law_only_bitmap_subtitles_ride_along(q: PlaybackRequest, v: Seq<char>)
    requires
        stream_subtitle(q) == Some(v),
        text::trim(v) != "-1"@,
    ensures
        exists|i: int|
            0 <= i < q.subtitle_tracks@.len() && !(#[trigger] q.subtitle_tracks@[i]).is_text
                && text::parse_unsigned(text::trim(v), u32::MAX as int) == Some(
                q.subtitle_tracks@[i].stream_index as int,
            ),
{
    let tracks = q.subtitle_tracks@;
    match picked_subtitle(q.query@, q.body_subtitle_index) {
        Some(_) => {
            let n = text::parse_unsigned(text::trim(v), u32::MAX as int)->0;
            seqs::lemma_first_such_member(tracks, at_index(n));
        },
        None => {
            seqs::lemma_first_such_member(tracks, default_image());
            let t = seqs::first_such(tracks, default_image())->0;
            text::lemma_decimal_digits(t.stream_index as nat);
            text::lemma_trim_digits(v);
            text::law_decimal_reads_back(t.stream_index as nat, u32::MAX as int);
        },
    }
}

/// A title that has been played to the end starts over: neither the answer nor
/// the stream URL carries a resume point.
pub proof fn law_played_titles_start_over(q: PlaybackRequest)
    requires
        q.resume matches Some(r) && r.played,
    ensures
        resume_ticks(q.resume) == 0,
        transcoding_url(q) == stream_url(q),
{
}

/// A browser seeks by itself: its stream URL never depends on the resume point.
pub proof fn law_browsers_get_the_plain_url(q: PlaybackRequest)
    requires
        web_client(text::opt_text(q.user_agent)),
    ensures
        transcoding_url(q) == stream_url(q),
{
}

// ------------------------------------------------------- laws of the answer

/// Whether a text is one of the names of the VP codecs, in any case.
pub open spec fn names_vp(codec: Seq<char>) -> bool {
    let c = text::lower(codec);
    c == "vp9"@ || c == "vp8"@ || c == "vp09"@ || c == "vp08"@
}

proof fn lemma_names_vp(codec: Seq<char>)
    ensures
        vp_names().contains(text::lower(codec)) == names_vp(codec),
{
    let v = vp_names();
    assert(v[0] == "vp9"@ && v[1] == "vp8"@ && v[2] == "vp09"@ && v[3] == "vp08"@);
}

/// A video that is not played as it is is streamed as video: the client is sent
/// to the item's playlist, with its session and its key, and with the audio
/// track that was picked in the request's body where the query string names
/// none. Only what is not video is ever sent to the audio endpoint.
pub proof fn law_video_is_streamed_as_video(q: PlaybackRequest, s: MediaSource)
    requires
        is_primary_source(q, s),
        q.is_video || q.decision is VideoRemux,
        s.transcoding_url is Some,
    ensures
        exists|playlist: Seq<char>, rest: Seq<char>|
            {
                &&& playlist == "/master.m3u8"@ || playlist == "/vp9/master.m3u8"@
                &&& s.transcoding_url->0@ == #[trigger] (("/videos/"@ + q.item_id@ + playlist
                    + "?PlaySessionId="@ + q.play_session_id@ + "&api_key="@ + q.api_key@) + rest)
                &&& q.body_audio_index is Some && query_string::value_of(
                    q.query@,
                    "AudioStreamIndex"@,
                ) is None ==> text::starts_with(
                    rest,
                    "&AudioStreamIndex="@ + text::decimal(q.body_audio_index->0 as nat),
                )
                &&& query_string::value_of(q.query@, "AudioStreamIndex"@) is Some
                    && query_string::value_of(q.query@, "AudioStreamIndex"@)->0.len() > 0
                    ==> text::starts_with(
                    rest,
                    "&AudioStreamIndex="@ + query_string::value_of(
                        q.query@,
                        "AudioStreamIndex"@,
                    )->0,
                )
            },
{
    let u = s.transcoding_url->0@;
    let u0 = stream_url(q)->0;
    let playlist = if u0 == vp9_url(q) {
        "/vp9/master.m3u8"@
    } else {
        "/master.m3u8"@
    };
    let head = "/videos/"@ + q.item_id@ + playlist + "?PlaySessionId="@ + q.play_session_id@
        + "&api_key="@ + q.api_key@;
    assert(u0 == head + selection(q));
    let rest = u.subrange(head.len() as int, u.len() as int);
    assert(text::starts_with(u, u0)) by {
        assert(u.subrange(0, u0.len() as int) =~= u0);
    }
    assert(u =~= head + rest) by {
        assert(u.subrange(0, u0.len() as int) == u0);
        assert forall|i: int| 0 <= i < head.len() implies u[i] == head[i] by {
            assert(u.subrange(0, u0.len() as int)[i] == u0[i]);
        }
    }
    reveal_strlit("&");
    reveal_strlit("=");
    reveal_strlit("AudioStreamIndex");
    reveal_strlit("&AudioStreamIndex=");
    match picked_audio(q.query@, q.body_audio_index) {
        Some(v) => {
            let part = "&AudioStreamIndex="@ + v;
            assert("&"@ + "AudioStreamIndex"@ + "="@ =~= "&AudioStreamIndex="@);
            assert(parameter("AudioStreamIndex"@, Some(v)) =~= part);
            assert(rest.subrange(0, part.len() as int) =~= part) by {
                assert forall|i: int| 0 <= i < part.len() implies rest[i] == part[i] by {
                    assert(selection(q)[i] == part[i]);
                    assert(u.subrange(0, u0.len() as int)[head.len() + i] == u0[head.len() + i]);
                }
            }
        },
        None => {},
    }
}

/// A client is sent to the VP9 playlist where what it is to get is VP9, and to
/// the plain one else.
pub proof fn law_vp9_has_its_own_playlist(q: PlaybackRequest, s: MediaSource, codec: String)
    requires
        is_primary_source(q, s),
        q.is_video,
        q.decision == (Decision::Transcode { target_video_codec: Some(codec) }),
    ensures
        s.transcoding_url is Some,
        names_vp(codec@) ==> text::starts_with(
            s.transcoding_url->0@,
            "/videos/"@ + q.item_id@ + "/vp9/master.m3u8?"@,
        ),
        !names_vp(codec@) && (q.user_agent is None || !text::contains(
            q.user_agent->0@,
            "Firefox"@,
        )) ==> text::starts_with(
            s.transcoding_url->0@,
            "/videos/"@ + q.item_id@ + "/master.m3u8?"@,
        ),
{
    lemma_names_vp(codec@);
    reveal_strlit("/vp9/master.m3u8");
    reveal_strlit("/vp9/master.m3u8?");
    reveal_strlit("/master.m3u8");
    reveal_strlit("/master.m3u8?");
    reveal_strlit("?PlaySessionId=");
    let u = s.transcoding_url->0@;
    let a = "/videos/"@ + q.item_id@ + "/vp9/master.m3u8?"@;
    let b = "/videos/"@ + q.item_id@ + "/master.m3u8?"@;
    assert(stream_url(q) == Some(vp9_url(q)) ==> u.subrange(0, a.len() as int) =~= a);
    assert(stream_url(q) == Some(hls_url(q)) ==> u.subrange(0, b.len() as int) =~= b);
}

/// Sound that is not played as it is is fetched from the audio endpoint, with
/// the session and the key.
pub proof fn law_sound_is_streamed_as_sound(q: PlaybackRequest, s: MediaSource)
    requires
        is_primary_source(q, s),
        !q.is_video,
        q.decision is Transcode || q.decision is AudioRemux,
        q.resume is None,
    ensures
        text::opt_text(s.transcoding_url) == Some(
            "/audio/"@ + q.item_id@ + "/universal"@ + "?PlaySessionId="@ + q.play_session_id@
                + "&api_key="@ + q.api_key@,
        ),
        s.transcoding_url is Some,
{
}

/// What is decided to be played as it is is, with no stream to fetch instead;
/// only a Firefox on Linux that offers to take VP9 is sent to one, and is told
/// that it is VP9. All else has a stream to fetch.
pub proof fn law_the_decision_is_followed(q: PlaybackRequest, s: MediaSource)
    requires
        is_primary_source(q, s),
    ensures
        s.supports_direct_play ==> q.decision is DirectPlay && s.transcoding_url is None
            && s.supports_direct_stream && s.transcoding_sub_protocol@ == "http"@,
        !(q.decision is DirectPlay) ==> s.transcoding_url is Some,
        q.decision is DirectPlay && !s.supports_direct_play ==> {
            &&& q.is_video
            &&& !q.linux_firefox_h264
            &&& q.user_agent is Some
            &&& text::contains(q.user_agent->0@, "Firefox"@)
            &&& text::contains(q.user_agent->0@, "Linux"@)
            &&& !text::contains(q.user_agent->0@, "Android"@)
            &&& exists|i: int|
                0 <= i < q.transcoding_profiles@.len() && ((
                #[trigger] q.transcoding_profiles@[i]).kind@.len() == 0 || text::eq_ci(
                    q.transcoding_profiles@[i].kind@,
                    "Video"@,
                ))
            &&& !s.supports_direct_stream
            &&& s.transcoding_url is Some
            &&& text::starts_with(
                s.transcoding_url->0@,
                "/videos/"@ + q.item_id@ + "/vp9/master.m3u8"@,
            )
        },
        q.decision is Transcode ==> !s.supports_direct_play && !s.supports_direct_stream,
{
    let a = "/videos/"@ + q.item_id@ + "/vp9/master.m3u8"@;
    if forced_vp9(q) {
        let u = s.transcoding_url->0@;
        assert(u.subrange(0, a.len() as int) =~= a);
        let i = choose|i: int|
            0 <= i < q.transcoding_profiles@.len() && covers_video(
                (#[trigger] q.transcoding_profiles@[i]).kind@,
            ) && text::csv_names(q.transcoding_profiles@[i].video_codec@, vp_names());
        assert(covers_video(q.transcoding_profiles@[i].kind@));
    }
}

/// A Firefox on Linux that is not known to decode H.264, and that offers to take
/// a VP codec, is given it, whatever was decided, unless the file is in a codec
/// that it plays and was to be played as it is.
pub proof fn law_firefox_gets_vp9(q: PlaybackRequest, s: MediaSource, i: int, k: int)
    requires
        is_primary_source(q, s),
        q.is_video,
        !q.linux_firefox_h264,
        q.user_agent is Some,
        text::contains(q.user_agent->0@, "Firefox"@),
        text::contains(q.user_agent->0@, "Linux"@),
        !text::contains(q.user_agent->0@, "Android"@),
        0 <= i < q.transcoding_profiles@.len(),
        q.transcoding_profiles@[i].kind@.len() == 0 || text::eq_ci(
            q.transcoding_profiles@[i].kind@,
            "Video"@,
        ),
        0 <= k < text::split(q.transcoding_profiles@[i].video_codec@, ',').len(),
        names_vp(text::trim(text::split(q.transcoding_profiles@[i].video_codec@, ',')[k])),
        !(q.decision is DirectPlay) || q.video_codec is None || {
            let c = text::lower(q.video_codec->0@);
            c != "vp9"@ && c != "vp09"@ && c != "vp8"@ && c != "vp08"@ && c != "av1"@ && c
                != "av01"@
        },
    ensures
        !s.supports_direct_play,
        !s.supports_direct_stream,
        s.transcoding_url is Some,
        text::starts_with(
            s.transcoding_url->0@,
            "/videos/"@ + q.item_id@ + "/vp9/master.m3u8"@,
        ),
{
    lemma_names_vp(text::trim(text::split(q.transcoding_profiles@[i].video_codec@, ',')[k]));
    assert(text::csv_names(q.transcoding_profiles@[i].video_codec@, vp_names()));
    assert(covers_video(q.transcoding_profiles@[i].kind@));
    assert(offers_vp(q.transcoding_profiles@));
    if q.video_codec is Some {
        let w = webm_video_names();
        let c = text::lower(q.video_codec->0@);
        if w.contains(c) {
            let n = choose|n: int| 0 <= n < w.len() && w[n] == c;
            assert(w[0] == "vp9"@ && w[1] == "vp09"@ && w[2] == "vp8"@ && w[3] == "vp08"@ && w[4]
                == "av1"@ && w[5] == "av01"@);
        }
    }
    assert(forced_vp9(q));
    let a = "/videos/"@ + q.item_id@ + "/vp9/master.m3u8"@;
    let u = s.transcoding_url->0@;
    assert(u.subrange(0, a.len() as int) =~= a);
}

/// A remux is only said to be playable as a file where it is Matroska with
/// picture and sound that WebM allows, and where it is, a client that plays
/// WebM with this picture is told so.
pub proof fn law_only_webm_is_played_under_its_name(q: PlaybackRequest, s: MediaSource)
    requires
        is_primary_source(q, s),
        q.decision is VideoRemux || q.decision is AudioRemux,
    ensures
        s.supports_direct_stream ==> {
            let cont = text::lower(q.container@);
            &&& text::contains(cont, "matroska"@) || text::contains(cont, "webm"@)
                || text::contains(cont, "mkv"@)
            &&& q.video_codec is Some && {
                let c = text::lower(q.video_codec->0@);
                c == "vp9"@ || c == "vp09"@ || c == "vp8"@ || c == "vp08"@ || c == "av1"@ || c
                    == "av01"@
            }
            &&& q.audio_codec is Some ==> text::lower(q.audio_codec->0@) == "opus"@ || text::lower(
                q.audio_codec->0@,
            ) == "vorbis"@
            &&& exists|i: int|
                0 <= i < q.direct_play_profiles@.len() && ((
                #[trigger] q.direct_play_profiles@[i]).kind@.len() == 0 || text::eq_ci(
                    q.direct_play_profiles@[i].kind@,
                    "Video"@,
                )) && text::csv_names(q.direct_play_profiles@[i].container@, seq!["webm"@])
                    && text::csv_names(
                    q.direct_play_profiles@[i].video_codec@,
                    seq![text::lower(q.video_codec->0@)],
                )
        },
{
    if s.supports_direct_stream {
        let w = webm_video_names();
        let c = text::lower(q.video_codec->0@);
        let n = choose|n: int| 0 <= n < w.len() && w[n] == c;
        assert(w[0] == "vp9"@ && w[1] == "vp09"@ && w[2] == "vp8"@ && w[3] == "vp08"@ && w[4]
            == "av1"@ && w[5] == "av01"@);
        if q.audio_codec is Some {
            let a = webm_audio_names();
            let m = choose|m: int| 0 <= m < a.len() && a[m] == text::lower(q.audio_codec->0@);
            assert(a[0] == "opus"@ && a[1] == "vorbis"@);
        }
        let i = choose|i: int|
            0 <= i < q.direct_play_profiles@.len() && covers_video(
                (#[trigger] q.direct_play_profiles@[i]).kind@,
            ) && text::csv_names(q.direct_play_profiles@[i].container@, seq!["webm"@])
                && text::csv_names(
                q.direct_play_profiles@[i].video_codec@,
                seq![text::lower(q.video_codec->0@)],
            );
        assert(covers_video(q.direct_play_profiles@[i].kind@));
    }
}

/// A remux that is Matroska with WebM's own picture and sound is played under
/// the name of WebM by every client that plays such WebM.
pub proof fn law_webm_in_matroska_is_played(q: PlaybackRequest, s: MediaSource, i: int)
    requires
        is_primary_source(q, s),
        q.decision is VideoRemux || q.decision is AudioRemux,
        q.user_agent is None || !text::contains(q.user_agent->0@, "Firefox"@),
        text::contains(text::lower(q.container@), "matroska"@) || text::contains(
            text::lower(q.container@),
            "mkv"@,
        ) || text::contains(text::lower(q.container@), "webm"@),
        q.video_codec is Some,
        ({
            let c = text::lower(q.video_codec->0@);
            c == "vp9"@ || c == "vp09"@ || c == "vp8"@ || c == "vp08"@ || c == "av1"@ || c
                == "av01"@
        }),
        q.audio_codec is None || text::lower(q.audio_codec->0@) == "opus"@ || text::lower(
            q.audio_codec->0@,
        ) == "vorbis"@,
        0 <= i < q.direct_play_profiles@.len(),
        q.direct_play_profiles@[i].kind@.len() == 0 || text::eq_ci(
            q.direct_play_profiles@[i].kind@,
            "Video"@,
        ),
        text::csv_names(q.direct_play_profiles@[i].container@, seq!["webm"@]),
        text::csv_names(
            q.direct_play_profiles@[i].video_codec@,
            seq![text::lower(q.video_codec->0@)],
        ),
    ensures
        s.supports_direct_stream,
{
    assert(covers_video(q.direct_play_profiles@[i].kind@));
    assert(plays_webm(q.direct_play_profiles@, q.video_codec->0@));
    let w = webm_video_names();
    assert(w[0] == "vp9"@ && w[1] == "vp09"@ && w[2] == "vp8"@ && w[3] == "vp08"@ && w[4]
        == "av1"@ && w[5] == "av01"@);
    let a = webm_audio_names();
    assert(a[0] == "opus"@ && a[1] == "vorbis"@);
    assert(relabel_playable(q));
    assert(!forced_vp9(q));
}

/// Playback starts where the viewer stopped, and at the start where they have
/// seen the title to its end or have not begun it. A player that is no browser
/// is told so on the stream's address too.
pub proof fn law_playback_resumes(q: PlaybackRequest, s: MediaSource, s0: MediaSource)
    requires
        is_primary_source(q, s),
        is_primary_source(PlaybackRequest { resume: None, ..q }, s0),
    ensures
        q.resume matches Some(r) ==> s.start_position_ticks == (if r.played {
            0
        } else {
            r.position_ticks
        }),
        q.resume is None ==> s.start_position_ticks == 0,
        s0.start_position_ticks == 0,
        s.transcoding_url is Some <==> s0.transcoding_url is Some,
        s.transcoding_url is Some && q.resume is Some && !q.resume->0.played
            && q.resume->0.position_ticks > 0 && (q.user_agent is None || !text::contains(
            q.user_agent->0@,
            "Mozilla"@,
        )) && !text::contains(s0.transcoding_url->0@, "StartTimeTicks"@)
            ==> s.transcoding_url->0@ == s0.transcoding_url->0@ + "&StartTimeTicks="@
            + text::decimal(q.resume->0.position_ticks as nat),
        s.transcoding_url is Some && q.user_agent is Some && text::contains(
            q.user_agent->0@,
            "Mozilla"@,
        ) ==> s.transcoding_url->0@ == s0.transcoding_url->0@,
        s.transcoding_url is Some && q.resume is Some && q.resume->0.played
            ==> s.transcoding_url->0@ == s0.transcoding_url->0@,
{
    let q0 = PlaybackRequest { resume: None, ..q };
    assert(forced_vp9(q) == forced_vp9(q0));
    assert(picked_audio(q.query@, q.body_audio_index) == picked_audio(
        q0.query@,
        q0.body_audio_index,
    ));
    assert(stream_subtitle(q) == stream_subtitle(q0));
    assert(selection(q) == selection(q0));
    assert(stream_url(q) == stream_url(q0));
}

/// The sound that a source starts with is its first audio stream, and there is
/// none exactly where it has no audio.
pub proof fn law_sound_starts_with_the_first(q: PlaybackRequest, s: MediaSource)
    requires
        is_primary_source(q, s),
    ensures
        match s.default_audio_stream_index {
            Some(x) => exists|i: int|
                0 <= i < q.streams@.len() && (#[trigger] q.streams@[i]).kind@ == "Audio"@
                    && q.streams@[i].index == x && forall|k: int|
                    0 <= k < i ==> (#[trigger] q.streams@[k]).kind@ != "Audio"@,
            None => forall|k: int|
                0 <= k < q.streams@.len() ==> (#[trigger] q.streams@[k]).kind@ != "Audio"@,
        },
{
    seqs::law_the_first_is_first(q.streams@, audio_stream());
    if let Some(x) = seqs::first_such(q.streams@, audio_stream()) {
        let i = choose|i: int|
            0 <= i < q.streams@.len() && #[trigger] q.streams@[i] == x && audio_stream()(
                q.streams@[i],
            ) && forall|k: int| 0 <= k < i ==> !audio_stream()(#[trigger] q.streams@[k]);
        assert(q.streams@[i].kind@ == "Audio"@);
        assert forall|k: int| 0 <= k < i implies (#[trigger] q.streams@[k]).kind@ != "Audio"@ by {
            assert(!audio_stream()(q.streams@[k]));
        }
    } else {
        assert forall|k: int| 0 <= k < q.streams@.len() implies (#[trigger] q.streams@[k]).kind@
            != "Audio"@ by {
            assert(!audio_stream()(q.streams@[k]));
        }
    }
}

/// The subtitles that a source is announced with: those with the default mark,
/// else those in English, else any; the first of them. There are none exactly
/// where it has no subtitles.
pub proof fn law_announced_subtitles(q: PlaybackRequest, s: MediaSource)
    requires
        is_primary_source(q, s),
    ensures
        s.default_subtitle_stream_index is None <==> forall|k: int|
            0 <= k < q.streams@.len() ==> (#[trigger] q.streams@[k]).kind@ != "Subtitle"@,
        s.default_subtitle_stream_index matches Some(x) ==> exists|i: int|
            0 <= i < q.streams@.len() && (#[trigger] q.streams@[i]).kind@ == "Subtitle"@
                && q.streams@[i].index == x && {
                ||| q.streams@[i].is_default && forall|k: int|
                    0 <= k < i ==> (#[trigger] q.streams@[k]).kind@ != "Subtitle"@
                        || !q.streams@[k].is_default
                ||| says_english(q.streams@[i]) && (forall|k: int|
                    0 <= k < q.streams@.len() && (#[trigger] q.streams@[k]).kind@ == "Subtitle"@
                        ==> !q.streams@[k].is_default) && forall|k: int|
                    0 <= k < i && (#[trigger] q.streams@[k]).kind@ == "Subtitle"@ ==> !says_english(
                        q.streams@[k],
                    )
                ||| (forall|k: int|
                    0 <= k < q.streams@.len() && (#[trigger] q.streams@[k]).kind@ == "Subtitle"@
                        ==> !q.streams@[k].is_default && !says_english(q.streams@[k])) && forall|
                    k: int,
                |
                    0 <= k < i ==> (#[trigger] q.streams@[k]).kind@ != "Subtitle"@
            },
{
    let v = q.streams@;
    let a = default_subtitle();
    let b = english_subtitle();
    let c = subtitle_stream();
    reveal_strlit("en");
    reveal_strlit("eng");
    assert(text::lower("en"@) =~= "en"@);
    assert(text::lower("eng"@) =~= "eng"@);
    assert forall|k: int| 0 <= k < v.len() implies b(#[trigger] v[k]) == (v[k].kind@ == "Subtitle"@
        && says_english(v[k])) by {}
    seqs::law_the_first_is_first(v, a);
    seqs::law_the_first_is_first(v, b);
    seqs::law_the_first_is_first(v, c);
    if let Some(x) = seqs::first_such(v, a) {
        let i = choose|i: int|
            0 <= i < v.len() && #[trigger] v[i] == x && a(v[i]) && forall|k: int|
                0 <= k < i ==> !a(#[trigger] v[k]);
        assert(a(v[i]));
        assert forall|k: int| 0 <= k < i implies (#[trigger] v[k]).kind@ != "Subtitle"@
            || !v[k].is_default by {
            assert(!a(v[k]));
        }
    } else {
        assert forall|k: int| 0 <= k < v.len() && (#[trigger] v[k]).kind@
            == "Subtitle"@ implies !v[k].is_default by {
            assert(!a(v[k]));
        }
        if let Some(x) = seqs::first_such(v, b) {
            let i = choose|i: int|
                0 <= i < v.len() && #[trigger] v[i] == x && b(v[i]) && forall|k: int|
                    0 <= k < i ==> !b(#[trigger] v[k]);
            assert(b(v[i]));
            assert forall|k: int| 0 <= k < i && (#[trigger] v[k]).kind@
                == "Subtitle"@ implies !says_english(v[k]) by {
                assert(!b(v[k]));
            }
        } else {
            assert forall|k: int| 0 <= k < v.len() && (#[trigger] v[k]).kind@
                == "Subtitle"@ implies !says_english(v[k]) by {
                assert(!b(v[k]));
            }
            if let Some(x) = seqs::first_such(v, c) {
                let i = choose|i: int|
                    0 <= i < v.len() && #[trigger] v[i] == x && c(v[i]) && forall|k: int|
                        0 <= k < i ==> !c(#[trigger] v[k]);
                assert(c(v[i]));
                assert forall|k: int| 0 <= k < i implies (#[trigger] v[k]).kind@
                    != "Subtitle"@ by {
                    assert(!c(v[k]));
                }
            } else {
                assert forall|k: int| 0 <= k < v.len() implies (#[trigger] v[k]).kind@
                    != "Subtitle"@ by {
                    assert(!c(v[k]));
                }
            }
        }
    }
}

/// Whether a stream says that it is in English.
pub open spec fn says_english(s: ListedStream) -> bool {
    s.language is Some && (text::lower(s.language->0@) == "en"@ || text::lower(s.language->0@)
        == "eng"@)
}

/// A bitmap track that is picked, or that is on by default where none is
/// picked, goes into the stream; so does the wish to have none. A text track
/// does not.
pub proof fn law_picked_bitmaps_are_drawn(q: PlaybackRequest, i: int)
    requires
        0 <= i < q.subtitle_tracks@.len(),
        forall|k: int|
            0 <= k < i ==> (#[trigger] q.subtitle_tracks@[k]).stream_index
                != q.subtitle_tracks@[i].stream_index,
        query_string::value_of(q.query@, "SubtitleStreamIndex"@) is None,
        q.body_subtitle_index == Some(q.subtitle_tracks@[i].stream_index as i64),
    ensures
        text::ends_with(
            selection(q),
            "&SubtitleStreamIndex="@ + text::decimal(q.subtitle_tracks@[i].stream_index as nat),
        ) || q.subtitle_tracks@[i].is_text,
        q.subtitle_tracks@[i].is_text ==> stream_subtitle(q) is None,
{
    let n = q.subtitle_tracks@[i].stream_index;
    let v = text::decimal(n as nat);
    assert(picked_subtitle(q.query@, q.body_subtitle_index) == Some(v));
    text::lemma_decimal_digits(n as nat);
    text::lemma_trim_digits(v);
    text::law_decimal_reads_back(n as nat, u32::MAX as int);
    reveal_strlit("-1");
    assert(text::trim(v) != "-1"@) by {
        assert(text::is_digit(v[0]));
        assert("-1"@[0] == '-');
    }
    assert forall|k: int| 0 <= k < i implies !at_index(n as int)(
        #[trigger] q.subtitle_tracks@[k],
    ) by {}
    seqs::lemma_first_such(q.subtitle_tracks@, at_index(n as int), i);
    reveal_strlit("&");
    reveal_strlit("=");
    reveal_strlit("SubtitleStreamIndex");
    reveal_strlit("&SubtitleStreamIndex=");
    if !q.subtitle_tracks@[i].is_text {
        let part = "&SubtitleStreamIndex="@ + v;
        assert("&"@ + "SubtitleStreamIndex"@ + "="@ =~= "&SubtitleStreamIndex="@);
        assert(parameter("SubtitleStreamIndex"@, Some(v)) =~= part);
        let sel = selection(q);
        assert(sel.subrange(sel.len() - part.len(), sel.len() as int) =~= part);
    }
}

/// With no subtitle picked, the first default bitmap track goes into the stream.
/// "Off" is passed on as it is.
pub proof fn law_default_bitmaps_are_drawn(q: PlaybackRequest)
    ensures
        query_string::value_of(q.query@, "SubtitleStreamIndex"@) is None && q.body_subtitle_index
            is None ==> match stream_subtitle(q) {
            Some(v) => exists|i: int|
                0 <= i < q.subtitle_tracks@.len() && (#[trigger] q.subtitle_tracks@[i]).is_default
                    && !q.subtitle_tracks@[i].is_text && v == text::decimal(
                    q.subtitle_tracks@[i].stream_index as nat,
                ) && forall|k: int|
                    0 <= k < i ==> !(#[trigger] q.subtitle_tracks@[k]).is_default
                        || q.subtitle_tracks@[k].is_text,
            None => forall|k: int|
                0 <= k < q.subtitle_tracks@.len() ==> !(
                #[trigger] q.subtitle_tracks@[k]).is_default || q.subtitle_tracks@[k].is_text,
        },
        query_string::value_of(q.query@, "SubtitleStreamIndex"@) is None && q.body_subtitle_index
            == Some(-1i64) ==> stream_subtitle(q) == Some("-1"@),
{
    let v = q.subtitle_tracks@;
    let d = default_image();
    seqs::law_the_first_is_first(v, d);
    if let Some(x) = seqs::first_such(v, d) {
        let i = choose|i: int|
            0 <= i < v.len() && #[trigger] v[i] == x && d(v[i]) && forall|k: int|
                0 <= k < i ==> !d(#[trigger] v[k]);
        assert(d(v[i]));
        assert forall|k: int| 0 <= k < i implies !(#[trigger] v[k]).is_default || v[k].is_text by {
            assert(!d(v[k]));
        }
    } else {
        assert forall|k: int| 0 <= k < v.len() implies !(#[trigger] v[k]).is_default
            || v[k].is_text by {
            assert(!d(v[k]));
        }
    }
    reveal_strlit("-1");
    let one = text::signed_decimal(-1);
    assert(text::decimal(1) =~= seq!['1']);
    assert(one =~= "-1"@);
    text::lemma_trim_keeps("-1"@, 2);
    assert(text::trim("-1"@) =~= "-1"@);
}

/// What the client is told of the file is what the file is: its name, length,
/// size and rate, and its own container but for a remux, which has the one it
/// is put into.
pub proof fn law_a_source_is_described(q: PlaybackRequest, s: MediaSource)
    requires
        is_primary_source(q, s),
    ensures
        s.id@ == q.item_id@,
        s.name@ == q.title@,
        s.e_tag is Some && s.e_tag->0@ == q.play_session_id@,
        s.run_time_ticks == q.run_time_ticks,
        s.size == q.size_bytes,
        s.bitrate == q.bitrate_bps,
        !(q.decision is VideoRemux) ==> s.container@ == q.container@,
        q.decision matches Decision::VideoRemux { target_container } ==> s.container@
            == target_container@,
        s.transcoding_url is Some && !text::contains(s.transcoding_url->0@, ".webm"@)
            ==> s.transcoding_sub_protocol@ == "hls"@,
        s.transcoding_url is None ==> s.transcoding_sub_protocol@ == "http"@,
{
}

/// Another edition is listed under the item's id and its own, by its own name
/// and with its own length, and is never offered as a file.
pub proof fn law_editions_are_listed(q: PlaybackRequest, a: AlternateSource, s: MediaSource)
    requires
        is_alternate_source(q, a, s),
    ensures
        s.id@ == q.item_id@ + "-"@ + a.id@,
        s.name@ == (if a.name is Some {
            a.name->0@
        } else {
            q.title@
        }),
        a.container is Some ==> s.container@ == a.container->0@,
        a.container is None && !(q.decision is VideoRemux) ==> s.container@ == q.container@,
        a.duration_ms is None ==> s.run_time_ticks is None,
        a.duration_ms matches Some(ms) ==> s.run_time_ticks is Some && (ms <= 1_000_000_000_000_000
            ==> s.run_time_ticks->0 == ms * 10_000),
        a.size_bytes is Some ==> s.size == a.size_bytes,
        a.size_bytes is None ==> s.size == q.size_bytes,
        a.bitrate_bps is Some ==> s.bitrate == a.bitrate_bps,
        a.bitrate_bps is None ==> s.bitrate == q.bitrate_bps,
        !s.supports_direct_play && !s.supports_direct_stream,
        s.transcoding_url is None && s.e_tag is None,
        s.start_position_ticks == 0,
{
}

} // verus!
