//! Playback reports and remote control.

use vstd::prelude::*;
use vstd::string::*;
use crate::ids::{self, random_id};
use crate::seqs;
use crate::text::{self, char_to_upper, chars_of, eq_text, parse_u64, slice_text, to_lower};

verus! {

/// What is on record of a viewer and an item.
#[derive(Debug, Clone, Copy, PartialEq, Eq, Structural)]
pub struct UserItemData {
    pub played: bool,
    pub play_count: u32,
    pub is_favorite: bool,
    pub last_played_position_ticks: u64,
    pub last_played_at: i64,
}

impl Default for UserItemData {
    /// Nothing seen yet.
    fn default() -> (r: Self)
        ensures
            r == untouched(),
    {
        UserItemData {
            played: false,
            play_count: 0,
            is_favorite: false,
            last_played_position_ticks: 0,
            last_played_at: 0,
        }
    }
}

pub open spec fn untouched() -> UserItemData {
    UserItemData {
        played: false,
        play_count: 0,
        is_favorite: false,
        last_played_position_ticks: 0,
        last_played_at: 0,
    }
}

/// One more, as far as the counter goes.
pub open spec fn one_more(n: u32) -> u32 {
    if n == u32::MAX {
        n
    } else {
        (n + 1) as u32
    }
}

/// Counts one more, as far as the counter goes.
pub fn count_up(n: u32) -> (r: u32)
    ensures
        r == one_more(n),
{
    if n == u32::MAX {
        n
    } else {
        n + 1
    }
}

/// Whether a title that was stopped here counts as seen to the end: no more
/// than the last tenth of it is left.
pub open spec fn seen_to_the_end(position: u64, runtime: u64) -> bool {
    runtime > 0 && position >= runtime - runtime / 10
}

/// The record after a report of progress.
pub open spec fn after_progress(d: UserItemData, position: u64, now: i64) -> UserItemData {
    UserItemData { last_played_position_ticks: position, last_played_at: now, ..d }
}

/// The record after playback stopped. A title that was seen to the end is
/// played and starts over; any other is resumed where it was stopped.
pub open spec fn after_stop(
    d: UserItemData,
    position: u64,
    runtime: u64,
    now: i64,
) -> UserItemData {
    if seen_to_the_end(position, runtime) {
        UserItemData {
            played: true,
            play_count: one_more(d.play_count),
            last_played_position_ticks: 0,
            last_played_at: now,
            ..d
        }
    } else {
        after_progress(d, position, now)
    }
}

/// Applies a report of progress.
pub fn playing_progress(d: UserItemData, position_ticks: Option<u64>, now: i64) -> (r: UserItemData)
    ensures
        r == after_progress(
            d,
            match position_ticks {
                Some(p) => p,
                None => 0,
            },
            now,
        ),
        position_ticks matches Some(p) ==> r.last_played_position_ticks == p,
        r.last_played_at == now,
        r.played == d.played && r.play_count == d.play_count && r.is_favorite == d.is_favorite,
{
    let position: u64 = match position_ticks {
        Some(p) => p,
        None => 0,
    };
    UserItemData { last_played_position_ticks: position, last_played_at: now, ..d }
}

/// Applies a report that playback stopped.
pub fn playing_stopped(
    d: UserItemData,
    position_ticks: Option<u64>,
    run_time_ticks: Option<u64>,
    now: i64,
) -> (r: UserItemData)
    ensures
        r == after_stop(
            d,
            match position_ticks {
                Some(p) => p,
                None => 0,
            },
            match run_time_ticks {
                Some(t) => t,
                None => 0,
            },
            now,
        ),
{
    let position: u64 = match position_ticks {
        Some(p) => p,
        None => 0,
    };
    let runtime: u64 = match run_time_ticks {
        Some(t) => t,
        None => 0,
    };
    if runtime > 0 && position >= runtime - runtime / 10 {
        UserItemData {
            played: true,
            play_count: count_up(d.play_count),
            last_played_position_ticks: 0,
            last_played_at: now,
            ..d
        }
    } else {
        UserItemData { last_played_position_ticks: position, last_played_at: now, ..d }
    }
}

/// The item that a report is about, where it names one.
pub fn reported_item(item_id: &str) -> (r: Option<u64>)
    ensures
        match r {
            Some(n) => text::parse_unsigned(item_id@, u64::MAX as int) == Some(n as int),
            None => text::parse_unsigned(item_id@, u64::MAX as int) is None,
        },
{
    parse_u64(item_id)
}

// -------------------------------------------------------------------- sessions

/// A session that starts to play.
pub struct StartedSession {
    pub session_id: String,
    pub device_id: String,
    pub item_id: String,
    pub position_ticks: u64,
}

/// The session that a report of a start opens: under the id that the client
/// gives, and else under a new one of thirty-two hexadecimal digits.
pub fn playing_started(
    play_session_id: Option<String>,
    device_id: &Option<String>,
    device: &Option<String>,
    item_id: &str,
    position_ticks: Option<u64>,
) -> (r: StartedSession)
    ensures
        match play_session_id {
            Some(s) => r.session_id == s,
            None => r.session_id@.len() == 32 && forall|i: int|
                0 <= i < 32 ==> ids::is_lower_hex(#[trigger] r.session_id@[i]),
        },
        r.device_id@ == (if device_id is Some {
            device_id->0@
        } else if device is Some {
            device->0@
        } else {
            "unknown"@
        }),
        r.item_id@ == item_id@,
        r.position_ticks == (match position_ticks {
            Some(p) => p,
            None => 0,
        }),
{
    let session_id: String = match play_session_id {
        Some(s) => s,
        None => random_id(),
    };
    let device_id: String = match device_id {
        Some(d) => d.clone(),
        None => match device {
            Some(d) => d.clone(),
            None => "unknown".to_owned(),
        },
    };
    StartedSession {
        session_id,
        device_id,
        item_id: item_id.to_owned(),
        position_ticks: match position_ticks {
            Some(p) => p,
            None => 0,
        },
    }
}

/// A session as it is listed.
#[derive(Debug)]
pub struct SessionRow {
    pub id: String,
    pub user_id: String,
}

pub open spec fn owned_by(user: Seq<char>) -> spec_fn(SessionRow) -> bool {
    |s: SessionRow| s.user_id@ == user
}

pub open spec fn rows_are(r: Seq<SessionRow>, s: Seq<SessionRow>) -> bool {
    r.len() == s.len() && forall|i: int|
        0 <= i < r.len() ==> (#[trigger] r[i]).id@ == s[i].id@ && r[i].user_id@ == s[i].user_id@
}

/// The sessions that a user may see: an administrator all, anyone else their
/// own.
pub open spec fn visible_sessions(all: Seq<SessionRow>, admin: bool, user: Seq<char>) -> Seq<
    SessionRow,
> {
    if admin {
        all
    } else {
        seqs::keep(all, owned_by(user))
    }
}

/// The sessions that a user may see.
pub fn list_sessions(all: Vec<SessionRow>, admin: bool, bearer: &str) -> (r: Vec<SessionRow>)
    ensures
        rows_are(r@, visible_sessions(all@, admin, bearer@)),
{
    if admin {
        return all;
    }
    let mut out: Vec<SessionRow> = Vec::new();
    let mut i: usize = 0;
    let ghost wanted = owned_by(bearer@);
    proof {
        assert(all@.take(0) == Seq::<SessionRow>::empty());
    }
    while i < all.len()
        invariant
            i <= all@.len(),
            wanted == owned_by(bearer@),
            rows_are(out@, seqs::keep(all@.take(i as int), wanted)),
        decreases all@.len() - i,
    {
        proof {
            seqs::lemma_keep_step(all@, wanted, i as int);
        }
        if eq_text(all[i].user_id.as_str(), bearer) {
            out.push(SessionRow { id: all[i].id.clone(), user_id: all[i].user_id.clone() });
        }
        i += 1;
    }
    proof {
        assert(all@.take(i as int) == all@);
    }
    out
}

// -------------------------------------------------------------------- commands

/// The spellings of the known commands.
pub open spec fn known_command(low: Seq<char>) -> Option<Seq<char>> {
    if low == "play"@ {
        Some("Play"@)
    } else if low == "pause"@ {
        Some("Pause"@)
    } else if low == "unpause"@ {
        Some("Unpause"@)
    } else if low == "stop"@ {
        Some("Stop"@)
    } else if low == "seek"@ {
        Some("Seek"@)
    } else if low == "nexttrack"@ {
        Some("NextTrack"@)
    } else if low == "previoustrack"@ {
        Some("PreviousTrack"@)
    } else if low == "rewind"@ {
        Some("Rewind"@)
    } else if low == "fastforward"@ {
        Some("FastForward"@)
    } else if low == "playpause"@ {
        Some("PlayPause"@)
    } else if low == "setvolume"@ {
        Some("SetVolume"@)
    } else if low == "setrepeatmode"@ {
        Some("SetRepeatMode"@)
    } else if low == "setshufflequeue"@ {
        Some("SetShuffleQueue"@)
    } else if low == "setaudiostreamindex"@ {
        Some("SetAudioStreamIndex"@)
    } else if low == "setsubtitlestreamindex"@ {
        Some("SetSubtitleStreamIndex"@)
    } else if low == "togglemute"@ {
        Some("ToggleMute"@)
    } else if low == "togglefullscreen"@ {
        Some("ToggleFullscreen"@)
    } else if low == "displaycontent"@ {
        Some("DisplayContent"@)
    } else if low == "displaymessage"@ {
        Some("DisplayMessage"@)
    } else if low == "channelup"@ {
        Some("ChannelUp"@)
    } else if low == "channeldown"@ {
        Some("ChannelDown"@)
    } else {
        None
    }
}

/// A text with its first letter in upper case.
pub open spec fn titled(s: Seq<char>) -> Seq<char> {
    if s.len() == 0 {
        s
    } else {
        seq![text::upper_char(s[0])] + s.subrange(1, s.len() as int)
    }
}

/// The spelling of a command: that of the known ones, and for any other the
/// lower-case one with its first letter in upper case.
pub open spec fn canonical(s: Seq<char>) -> Seq<char> {
    match known_command(text::lower(s)) {
        Some(c) => c,
        None => titled(text::lower(s)),
    }
}

/// A text with its first letter in upper case.
pub fn title_case(s: &str) -> (r: String)
    ensures
        r@ == titled(s@),
{
    let v = chars_of(s);
    let n: usize = v.len();
    if n == 0 {
        return String::new();
    }
    let mut out: String = String::new();
    out.push(char_to_upper(v[0]));
    out.append(slice_text(v.as_slice(), 1, n).as_str());
    proof {
        assert(out@ =~= titled(s@));
    }
    out
}

fn spell_known(low: &str) -> (r: Option<&'static str>)
    ensures
        match r {
            Some(c) => known_command(low@) == Some(c@),
            None => known_command(low@) is None,
        },
{
    if eq_text(low, "play") {
        Some("Play")
    } else if eq_text(low, "pause") {
        Some("Pause")
    } else if eq_text(low, "unpause") {
        Some("Unpause")
    } else if eq_text(low, "stop") {
        Some("Stop")
    } else if eq_text(low, "seek") {
        Some("Seek")
    } else if eq_text(low, "nexttrack") {
        Some("NextTrack")
    } else if eq_text(low, "previoustrack") {
        Some("PreviousTrack")
    } else if eq_text(low, "rewind") {
        Some("Rewind")
    } else if eq_text(low, "fastforward") {
        Some("FastForward")
    } else if eq_text(low, "playpause") {
        Some("PlayPause")
    } else if eq_text(low, "setvolume") {
        Some("SetVolume")
    } else if eq_text(low, "setrepeatmode") {
        Some("SetRepeatMode")
    } else if eq_text(low, "setshufflequeue") {
        Some("SetShuffleQueue")
    } else if eq_text(low, "setaudiostreamindex") {
        Some("SetAudioStreamIndex")
    } else if eq_text(low, "setsubtitlestreamindex") {
        Some("SetSubtitleStreamIndex")
    } else if eq_text(low, "togglemute") {
        Some("ToggleMute")
    } else if eq_text(low, "togglefullscreen") {
        Some("ToggleFullscreen")
    } else if eq_text(low, "displaycontent") {
        Some("DisplayContent")
    } else if eq_text(low, "displaymessage") {
        Some("DisplayMessage")
    } else if eq_text(low, "channelup") {
        Some("ChannelUp")
    } else if eq_text(low, "channeldown") {
        Some("ChannelDown")
    } else {
        None
    }
}

/// The spelling of a command as the receiving client knows it.
pub fn canonical_command(s: &str) -> (r: String)
    ensures
        r@ == canonical(s@),
{
    let low = to_lower(s);
    match spell_known(low.as_str()) {
        Some(c) => c.to_owned(),
        None => title_case(low.as_str()),
    }
}

// ------------------------------------------------------------------------ laws

/// The case in which a command arrives does not matter.
pub proof fn law_commands_ignore_case(a: Seq<char>, b: Seq<char>)
    requires
        text::eq_ci(a, b),
    ensures
        canonical(a) == canonical(b),
{
}

proof fn lemma_lower_of_titled(s: Seq<char>)
    ensures
        text::lower(titled(text::lower(s))) == text::lower(s),
{
    let low = text::lower(s);
    let r = text::lower(titled(low));
    assert(r.len() == low.len());
    assert forall|i: int| 0 <= i < low.len() implies r[i] == low[i] by {
        if i > 0 {
            assert(titled(low)[i] == low[i]);
        }
    }
    assert(r =~= low);
}

proof fn lemma_known_spellings(low: Seq<char>)
    ensures
        known_command(low) matches Some(c) ==> text::lower(c) == low,
{
    reveal_strlit("play");
    reveal_strlit("Play");
    reveal_strlit("pause");
    reveal_strlit("Pause");
    reveal_strlit("unpause");
    reveal_strlit("Unpause");
    reveal_strlit("stop");
    reveal_strlit("Stop");
    reveal_strlit("seek");
    reveal_strlit("Seek");
    reveal_strlit("nexttrack");
    reveal_strlit("NextTrack");
    reveal_strlit("previoustrack");
    reveal_strlit("PreviousTrack");
    reveal_strlit("rewind");
    reveal_strlit("Rewind");
    reveal_strlit("fastforward");
    reveal_strlit("FastForward");
    reveal_strlit("playpause");
    reveal_strlit("PlayPause");
    reveal_strlit("setvolume");
    reveal_strlit("SetVolume");
    reveal_strlit("setrepeatmode");
    reveal_strlit("SetRepeatMode");
    reveal_strlit("setshufflequeue");
    reveal_strlit("SetShuffleQueue");
    reveal_strlit("setaudiostreamindex");
    reveal_strlit("SetAudioStreamIndex");
    reveal_strlit("setsubtitlestreamindex");
    reveal_strlit("SetSubtitleStreamIndex");
    reveal_strlit("togglemute");
    reveal_strlit("ToggleMute");
    reveal_strlit("togglefullscreen");
    reveal_strlit("ToggleFullscreen");
    reveal_strlit("displaycontent");
    reveal_strlit("DisplayContent");
    reveal_strlit("displaymessage");
    reveal_strlit("DisplayMessage");
    reveal_strlit("channelup");
    reveal_strlit("ChannelUp");
    reveal_strlit("channeldown");
    reveal_strlit("ChannelDown");
    match known_command(low) {
        Some(c) => {
            assert(text::lower(c) =~= low);
        },
        None => {},
    }
}

/// A command is named once and for all: to name it again changes nothing, its
/// name differs from what arrived in the case of letters alone, and the name
/// comes out of a path that was put in lower case as it went in.
pub proof fn law_a_command_keeps_its_name(s: Seq<char>)
    ensures
        canonical(canonical(s)) == canonical(s),
        text::eq_ci(canonical(s), s),
        canonical(text::lower(canonical(s))) == canonical(s),
{
    let low = text::lower(s);
    lemma_lower_of_titled(s);
    lemma_known_spellings(low);
    assert(text::lower(canonical(s)) == low);
    assert(text::lower(low) =~= low);
}

/// Only an administrator sees a session of someone else.
pub proof fn law_sessions_are_not_leaked(all: Seq<SessionRow>, user: Seq<char>, i: int)
    requires
        0 <= i < visible_sessions(all, false, user).len(),
    ensures
        visible_sessions(all, false, user)[i].user_id@ == user,
{
    seqs::lemma_keep_members(all, owned_by(user));
    let kept = seqs::keep(all, owned_by(user));
    assert(kept.contains(kept[i]));
}

/// Stopping a title never takes away that it has been played, and a title that
/// was seen to the end is not offered for resuming.
pub proof fn law_stopping_keeps_what_was_played(d: UserItemData, position: u64, runtime: u64, now: i64)
    ensures
        d.played ==> after_stop(d, position, runtime, now).played,
        d.play_count <= after_stop(d, position, runtime, now).play_count,
        after_stop(d, position, runtime, now).is_favorite == d.is_favorite,
        seen_to_the_end(position, runtime) ==> after_stop(
            d,
            position,
            runtime,
            now,
        ).last_played_position_ticks == 0,
{
}

/// A reported position is the one that playback resumes at, and nothing else on
/// the record changes but the time of the report. A later report takes the place
/// of an earlier one.
pub proof fn law_reported_positions_are_kept(d: UserItemData, p: u64, now: i64, p2: u64, later: i64)
    ensures
        after_progress(d, p, now).last_played_position_ticks == p,
        after_progress(d, p, now).last_played_at == now,
        after_progress(d, p, now).played == d.played,
        after_progress(d, p, now).play_count == d.play_count,
        after_progress(d, p, now).is_favorite == d.is_favorite,
        after_progress(after_progress(d, p, now), p2, later) == after_progress(d, p2, later),
{
}

/// A title that is stopped in its last tenth, or behind its end, is played and
/// counts once more, and starts over. One that is stopped before that, or whose
/// length is not known, is resumed where it was stopped and is played as much
/// as it was.
pub proof fn law_titles_are_seen_to_the_end(d: UserItemData, position: u64, runtime: u64, now: i64)
    ensures
        ({
            let r = after_stop(d, position, runtime, now);
            &&& r.last_played_at == now
            &&& r.is_favorite == d.is_favorite
            &&& runtime > 0 && 10 * position >= 9 * runtime ==> r.played
                && r.last_played_position_ticks == 0 && (d.play_count < u32::MAX ==> r.play_count
                == d.play_count + 1)
            &&& runtime == 0 || 10 * position < 9 * runtime ==> r.played == d.played
                && r.play_count == d.play_count && r.last_played_position_ticks == position
        }),
{
    assert(runtime > 0 ==> (position >= runtime - runtime / 10 <==> 10 * position >= 9 * runtime));
}

/// Nothing is on the record of a title that was never begun.
pub proof fn law_an_untouched_record_is_empty()
    ensures
        !untouched().played && untouched().play_count == 0 && !untouched().is_favorite,
        untouched().last_played_position_ticks == 0 && untouched().last_played_at == 0,
{
}

/// An administrator sees every session, and anyone else every session of their
/// own.
pub proof fn law_own_sessions_are_seen(all: Seq<SessionRow>, user: Seq<char>, i: int)
    requires
        0 <= i < all.len(),
    ensures
        visible_sessions(all, true, user) == all,
        all[i].user_id@ == user ==> visible_sessions(all, false, user).contains(all[i]),
{
    seqs::lemma_keep_members(all, owned_by(user));
    assert(all.contains(all[i]));
    assert(owned_by(user)(all[i]) <==> all[i].user_id@ == user);
}

/// A command that is known goes by its usual name, and any other by its own
/// with a capital letter in front.
pub proof fn law_commands_have_names(s: Seq<char>)
    ensures
        text::lower(s) == "playpause"@ ==> canonical(s) == "PlayPause"@,
        text::lower(s) == "nexttrack"@ ==> canonical(s) == "NextTrack"@,
        text::lower(s) == "previoustrack"@ ==> canonical(s) == "PreviousTrack"@,
        text::lower(s) == "fastforward"@ ==> canonical(s) == "FastForward"@,
        text::lower(s) == "setvolume"@ ==> canonical(s) == "SetVolume"@,
        text::lower(s) == "togglemute"@ ==> canonical(s) == "ToggleMute"@,
        text::lower(s) == "displaymessage"@ ==> canonical(s) == "DisplayMessage"@,
        text::lower(s) == "setaudiostreamindex"@ ==> canonical(s) == "SetAudioStreamIndex"@,
        text::lower(s) == "setsubtitlestreamindex"@ ==> canonical(s) == "SetSubtitleStreamIndex"@,
        text::lower(s) == "stop"@ ==> canonical(s) == "Stop"@,
        text::lower(s) == "pause"@ ==> canonical(s) == "Pause"@,
        text::lower(s) == "unpause"@ ==> canonical(s) == "Unpause"@,
        text::lower(s) == "seek"@ ==> canonical(s) == "Seek"@,
        s.len() > 0 ==> 'A' <= canonical(s)[0] <= 'Z' || !text::is_alpha(s[0]),
{
    reveal_strlit("play");
    reveal_strlit("pause");
    reveal_strlit("unpause");
    reveal_strlit("stop");
    reveal_strlit("seek");
    reveal_strlit("nexttrack");
    reveal_strlit("previoustrack");
    reveal_strlit("rewind");
    reveal_strlit("fastforward");
    reveal_strlit("playpause");
    reveal_strlit("setvolume");
    reveal_strlit("setrepeatmode");
    reveal_strlit("setshufflequeue");
    reveal_strlit("setaudiostreamindex");
    reveal_strlit("setsubtitlestreamindex");
    reveal_strlit("togglemute");
    reveal_strlit("togglefullscreen");
    reveal_strlit("displaycontent");
    reveal_strlit("displaymessage");
    reveal_strlit("channelup");
    reveal_strlit("channeldown");
    reveal_strlit("Play");
    reveal_strlit("Pause");
    reveal_strlit("Unpause");
    reveal_strlit("Stop");
    reveal_strlit("Seek");
    reveal_strlit("NextTrack");
    reveal_strlit("PreviousTrack");
    reveal_strlit("Rewind");
    reveal_strlit("FastForward");
    reveal_strlit("PlayPause");
    reveal_strlit("SetVolume");
    reveal_strlit("SetRepeatMode");
    reveal_strlit("SetShuffleQueue");
    reveal_strlit("SetAudioStreamIndex");
    reveal_strlit("SetSubtitleStreamIndex");
    reveal_strlit("ToggleMute");
    reveal_strlit("ToggleFullscreen");
    reveal_strlit("DisplayContent");
    reveal_strlit("DisplayMessage");
    reveal_strlit("ChannelUp");
    reveal_strlit("ChannelDown");
    let l = text::lower(s);
    assert("stop"@[1] == 't' && "seek"@[1] == 'e' && "play"@[0] == 'p');
    assert("playpause"@[4] == 'p' && "setvolume"@[0] == 's' && "nexttrack"@[0] == 'n'
        && "channelup"@[0] == 'c');
    assert("fastforward"@[0] == 'f' && "channeldown"@[0] == 'c');
    assert("displaycontent"@[7] == 'c' && "displaymessage"@[7] == 'm');
    assert("stop"@[0] == 's' && "seek"@[0] == 's');
    assert("playpause"@[0] == 'p');
    assert("playpause"@ != "nexttrack"@) by {
        assert("nexttrack"@[0] == 'n');
    }
    assert("playpause"@.len() == 9 && "fastforward"@.len() == 11 && "rewind"@.len() == 6);
    assert("previoustrack"@[0] == 'p' && "setrepeatmode"@[0] == 's');
}

} // verus!
