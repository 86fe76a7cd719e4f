//! Live television: channels, and the programme guide.

use vstd::prelude::*;
use vstd::string::*;
use crate::answer::{ApiError, Refusal};
use crate::dates::{self, parse_time_ms, unix_ms_to_iso8601};
use crate::seqs;
use crate::text::{self, copy_opt, decimal_text, eq_text};

verus! {

/// A channel of the tuner.
#[derive(Debug)]
pub struct Channel {
    pub id: String,
    pub name: String,
    pub number: Option<String>,
    pub group_title: Option<String>,
    pub logo_url: Option<String>,
    pub stream_url: String,
}

/// What came of asking the tuner for its channels.
#[derive(Debug)]
pub enum Lineup {
    /// No tuner is configured.
    NoTuner,
    Failed(String),
    Channels(Vec<Channel>),
}

/// Whether there is live television, and the services that it comes from.
#[derive(Debug)]
pub struct LiveTvInfo {
    pub is_enabled: bool,
    pub services: Vec<String>,
}

/// Whether there is live television: there is with a tuner.
pub fn info(tuner: bool) -> (r: LiveTvInfo)
    ensures
        r.is_enabled == tuner,
        text::texts(r.services@) == (if tuner {
            seq!["M3U/XMLTV"@]
        } else {
            Seq::empty()
        }),
{
    let mut services: Vec<String> = Vec::new();
    if tuner {
        services.push("M3U/XMLTV".to_owned());
    }
    proof {
        assert(text::texts(services@) =~= (if tuner {
            seq!["M3U/XMLTV"@]
        } else {
            Seq::empty()
        }));
    }
    LiveTvInfo { is_enabled: tuner, services }
}

/// The window that a guide shows where the request does not end it, in hours.
pub fn default_window_hours() -> (r: u64)
    ensures
        r == 6,
{
    6
}

/// The window that a request for the guide asks for.
#[derive(Debug)]
pub struct ProgramsQuery {
    pub min_start_date: Option<String>,
    pub max_end_date: Option<String>,
    pub window_hours: u64,
}

/// A moment that a request names, where it can be read.
pub open spec fn named_time(s: Option<Seq<char>>) -> Option<int> {
    match s {
        Some(t) => dates::time_of(t),
        None => None,
    }
}

pub open spec fn window_start(q: ProgramsQuery, now_ms: u64) -> int {
    match named_time(text::opt_text(q.min_start_date)) {
        Some(t) => t,
        None => now_ms as int,
    }
}

/// The end of the window; one that lies too far ahead is the last moment.
pub open spec fn window_end(q: ProgramsQuery, now_ms: u64) -> int {
    match named_time(text::opt_text(q.max_end_date)) {
        Some(t) => t,
        None => {
            let end = window_start(q, now_ms) + q.window_hours * 3_600_000;
            if end > u64::MAX {
                u64::MAX as int
            } else {
                end
            }
        },
    }
}

fn read_time(s: &Option<String>) -> (r: Option<u64>)
    ensures
        match r {
            Some(n) => named_time(text::opt_text(*s)) == Some(n as int),
            None => named_time(text::opt_text(*s)) is None,
        },
{
    match s {
        Some(t) => parse_time_ms(t.as_str()),
        None => None,
    }
}

/// The window of the guide, in milliseconds since 1970.
pub fn program_window(q: &ProgramsQuery, now_ms: u64) -> (r: (u64, u64))
    ensures
        r.0 == window_start(*q, now_ms),
        r.1 == window_end(*q, now_ms),
{
    let start: u64 = match read_time(&q.min_start_date) {
        Some(t) => t,
        None => now_ms,
    };
    let end: u64 = match read_time(&q.max_end_date) {
        Some(t) => t,
        None => {
            let wide: u128 = start as u128 + q.window_hours as u128 * 3_600_000;
            if wide > u64::MAX as u128 {
                u64::MAX
            } else {
                wide as u64
            }
        },
    };
    (start, end)
}

/// The id of a programme: its channel and when it starts.
pub fn program_id(channel_id: &str, start_unix_ms: u64) -> (r: String)
    ensures
        r@ == channel_id@ + "-"@ + text::decimal(start_unix_ms as nat),
{
    let mut out: String = channel_id.to_owned();
    out.append("-");
    out.append(decimal_text(start_unix_ms).as_str());
    out
}

pub open spec fn with_id(id: Seq<char>) -> spec_fn(Channel) -> bool {
    |c: Channel| c.id@ == id
}

/// Whether `r` is the place of the channel with this id, or the refusal.
pub open spec fn channel_found(r: Result<usize, ApiError>, l: Lineup, id: Seq<char>) -> bool {
    match l {
        Lineup::NoTuner => r matches Err(e) && e.says(Refusal::NotFound, Seq::empty()),
        Lineup::Failed(m) => r matches Err(e) && e.says(Refusal::Internal, m@),
        Lineup::Channels(cs) => match r {
            Ok(i) => i < cs@.len() && seqs::first_such(cs@, with_id(id)) == Some(cs@[i as int]),
            Err(e) => seqs::first_such(cs@, with_id(id)) is None && e.says(
                Refusal::NotFound,
                Seq::empty(),
            ),
        },
    }
}

/// The place of the channel with an id.
pub fn channel(l: &Lineup, id: &str) -> (r: Result<usize, ApiError>)
    ensures
        channel_found(r, *l, id@),
{
    match l {
        Lineup::NoTuner => Err(ApiError::NotFound(String::new())),
        Lineup::Failed(m) => Err(ApiError::Internal(m.clone())),
        Lineup::Channels(cs) => {
            let mut i: usize = 0;
            while i < cs.len()
                invariant
                    i <= cs@.len(),
                    *l == Lineup::Channels(*cs),
                    forall|k: int| 0 <= k < i ==> !with_id(id@)(#[trigger] cs@[k]),
                decreases cs@.len() - i,
            {
                if eq_text(cs[i].id.as_str(), id) {
                    proof {
                        seqs::lemma_first_such(cs@, with_id(id@), i as int);
                    }
                    return Ok(i);
                }
                i += 1;
            }
            proof {
                seqs::lemma_first_such(cs@, with_id(id@), i as int);
            }
            Err(ApiError::NotFound(String::new()))
        },
    }
}

/// The channel that a lineup holds under this id.
pub open spec fn channel_of(l: Lineup, id: Seq<char>) -> Option<Channel> {
    match l {
        Lineup::Channels(cs) => seqs::first_such(cs@, with_id(id)),
        _ => None,
    }
}

/// Why a lineup has nothing to show for an id.
pub open spec fn lineup_refusal(e: ApiError, l: Lineup) -> bool {
    match l {
        Lineup::Failed(m) => e.says(Refusal::Internal, m@),
        _ => e.says(Refusal::NotFound, Seq::empty()),
    }
}

/// Where the channel's stream is to be had.
pub fn stream(l: &Lineup, id: &str) -> (r: Result<String, ApiError>)
    ensures
        match r {
            Ok(url) => channel_of(*l, id@) matches Some(c) && url@ == c.stream_url@,
            Err(e) => channel_of(*l, id@) is None && lineup_refusal(e, *l),
        },
{
    match channel(l, id) {
        Ok(i) => match l {
            Lineup::Channels(cs) => Ok(cs[i].stream_url.clone()),
            _ => Err(ApiError::NotFound(String::new())),
        },
        Err(e) => Err(e),
    }
}

/// Where the channel's logo is to be had.
pub fn channel_image_primary(l: &Lineup, id: &str) -> (r: Result<String, ApiError>)
    ensures
        match r {
            Ok(url) => channel_of(*l, id@) matches Some(c) && text::opt_text(c.logo_url) == Some(
                url@,
            ),
            Err(e) => match channel_of(*l, id@) {
                Some(c) => c.logo_url is None && e.says(Refusal::NotFound, Seq::empty()),
                None => lineup_refusal(e, *l),
            },
        },
{
    match channel(l, id) {
        Ok(i) => match l {
            Lineup::Channels(cs) => match &cs[i].logo_url {
                Some(u) => Ok(u.clone()),
                None => Err(ApiError::NotFound(String::new())),
            },
            _ => Err(ApiError::NotFound(String::new())),
        },
        Err(e) => Err(e),
    }
}

/// The channels to list. A server without a tuner has none.
pub fn channels(l: Lineup) -> (r: Result<Vec<Channel>, ApiError>)
    ensures
        match l {
            Lineup::NoTuner => r matches Ok(v) && v@.len() == 0,
            Lineup::Failed(m) => r matches Err(e) && e.says(Refusal::Internal, m@),
            Lineup::Channels(cs) => r == Ok::<Vec<Channel>, ApiError>(cs),
        },
{
    match l {
        Lineup::NoTuner => Ok(Vec::new()),
        Lineup::Failed(m) => Err(ApiError::Internal(m)),
        Lineup::Channels(cs) => Ok(cs),
    }
}

/// A programme of the guide.
pub struct Program {
    pub channel_id: String,
    pub title: String,
    pub description: Option<String>,
    pub start_unix_ms: u64,
    pub end_unix_ms: u64,
}

/// A programme as clients see it.
pub struct ProgramItem {
    pub id: String,
    pub name: String,
    pub overview: Option<String>,
    pub channel_id: String,
    pub start_date: String,
    pub end_date: String,
}

/// Whether an item is a programme as clients see it.
pub open spec fn is_program_item(i: ProgramItem, p: Program) -> bool {
    &&& i.id@ == p.channel_id@ + "-"@ + text::decimal(p.start_unix_ms as nat)
    &&& i.name@ == p.title@
    &&& text::opt_text(i.overview) == text::opt_text(p.description)
    &&& i.channel_id@ == p.channel_id@
    &&& dates::writes_moment(i.start_date@, p.start_unix_ms)
    &&& dates::writes_moment(i.end_date@, p.end_unix_ms)
}

/// The programmes of the guide as clients see them.
pub fn programs(ps: &Vec<Program>) -> (r: Vec<ProgramItem>)
    ensures
        r@.len() == ps@.len(),
        forall|i: int| 0 <= i < ps@.len() ==> is_program_item(#[trigger] r@[i], ps@[i]),
{
    let mut out: Vec<ProgramItem> = Vec::new();
    let mut i: usize = 0;
    while i < ps.len()
        invariant
            i <= ps@.len(),
            out@.len() == i,
            forall|k: int| 0 <= k < i ==> is_program_item(#[trigger] out@[k], ps@[k]),
        decreases ps@.len() - i,
    {
        let p: &Program = &ps[i];
        out.push(
            ProgramItem {
                id: program_id(p.channel_id.as_str(), p.start_unix_ms),
                name: p.title.clone(),
                overview: copy_opt(&p.description),
                channel_id: p.channel_id.clone(),
                start_date: unix_ms_to_iso8601(p.start_unix_ms),
                end_date: unix_ms_to_iso8601(p.end_unix_ms),
            },
        );
        i += 1;
    }
    out
}

// ------------------------------------------------------------------------ laws

/// The guide shows the window that is asked for: from the given start, or from
/// now, to the given end, or for the given number of hours.
pub proof fn law_the_guide_shows_its_window(q: ProgramsQuery, now_ms: u64)
    ensures
        q.min_start_date is None ==> window_start(q, now_ms) == now_ms,
        q.min_start_date is Some && dates::time_of(q.min_start_date->0@) is Some ==> window_start(
            q,
            now_ms,
        ) == dates::time_of(q.min_start_date->0@)->0,
        q.min_start_date is Some && dates::time_of(q.min_start_date->0@) is None ==> window_start(
            q,
            now_ms,
        ) == now_ms,
        q.max_end_date is Some && dates::time_of(q.max_end_date->0@) is Some ==> window_end(
            q,
            now_ms,
        ) == dates::time_of(q.max_end_date->0@)->0,
        q.max_end_date is None && q.min_start_date is None && now_ms <= 100_000_000_000_000
            && q.window_hours <= 1_000_000 ==> window_end(q, now_ms) == now_ms + q.window_hours * 60
            * 60 * 1000,
{
}

/// A channel is found under its own id, the first of those that have it.
pub proof fn law_channels_are_found_by_id(r: Result<usize, ApiError>, cs: Vec<Channel>, id: Seq<char>)
    requires
        channel_found(r, Lineup::Channels(cs), id),
    ensures
        r matches Ok(i) ==> i < cs@.len() && cs@[i as int].id@ == id,
        (exists|i: int| 0 <= i < cs@.len() && (#[trigger] cs@[i]).id@ == id) ==> r is Ok
            && channel_of(Lineup::Channels(cs), id) is Some && channel_of(
            Lineup::Channels(cs),
            id,
        )->0.id@ == id,
{
    seqs::law_the_first_is_first(cs@, with_id(id));
    if exists|i: int| 0 <= i < cs@.len() && (#[trigger] cs@[i]).id@ == id {
        let i = choose|i: int| 0 <= i < cs@.len() && (#[trigger] cs@[i]).id@ == id;
        assert(with_id(id)(cs@[i]));
        seqs::lemma_first_such_member(cs@, with_id(id));
    }
    if r is Ok {
        seqs::lemma_first_such_member(cs@, with_id(id));
        assert(with_id(id)(cs@[r->Ok_0 as int]));
    }
}

/// A programme is shown as the guide has it: by its title, with its text, under
/// its channel and an id of its own, and with its times.
pub proof fn law_programmes_are_shown_as_they_are(i: ProgramItem, p: Program)
    requires
        is_program_item(i, p),
    ensures
        i.name@ == p.title@,
        i.channel_id@ == p.channel_id@,
        i.id@ == p.channel_id@ + seq!['-'] + text::decimal(p.start_unix_ms as nat),
        p.description is Some <==> i.overview is Some,
        p.description is Some ==> i.overview->0@ == p.description->0@,
        dates::writes_moment(i.start_date@, p.start_unix_ms),
        dates::writes_moment(i.end_date@, p.end_unix_ms),
{
    reveal_strlit("-");
    assert("-"@ =~= seq!['-']);
}

/// A lineup that could not be read is a fault of the server, in its own words;
/// a channel that a lineup does not hold is not found.
pub proof fn law_lineups_are_answered(e: ApiError, l: Lineup)
    requires
        lineup_refusal(e, l),
    ensures
        l matches Lineup::Failed(m) ==> e.says(Refusal::Internal, m@),
        l is Channels ==> e.says(Refusal::NotFound, Seq::empty()),
{
}

} // verus!
