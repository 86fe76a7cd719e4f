//! A client's web socket: what it is sent, what it asks for, and how long it is
//! kept.

use vstd::prelude::*;
use crate::query_string::{self, find_value};
use crate::socket_messages::{
    CommandData, GroupUpdateData, Inbound, Outbound, Payload, PlayQueueUpdate, QueuePlaylistItem,
    UpdateBody,
};
use crate::text::{self, eq_text, one_of, to_lossy_text};

verus! {

/// Ticks of a hundred nanoseconds in a millisecond.
pub const POSITION_TICKS_PER_MS: u64 = 10_000;

// ------------------------------------------------------------------- the device

/// The value of a hexadecimal digit.
pub open spec fn hex_digit(b: u8) -> Option<int> {
    if 48 <= b <= 57 {
        Some(b - 48)
    } else if 97 <= b <= 102 {
        Some(b - 87)
    } else if 65 <= b <= 70 {
        Some(b - 55)
    } else {
        None
    }
}

/// The bytes that a query value stands for: `%` and two digits for a byte, `+`
/// for a blank, anything else for itself.
pub open spec fn decoded(s: Seq<u8>) -> Seq<u8>
    decreases s.len(),
{
    if s.len() == 0 {
        Seq::empty()
    } else if s[0] == 37 && s.len() > 2 && hex_digit(s[1]) is Some && hex_digit(s[2]) is Some {
        seq![(hex_digit(s[1])->0 * 16 + hex_digit(s[2])->0) as u8] + decoded(
            s.subrange(3, s.len() as int),
        )
    } else {
        seq![
            if s[0] == 43 {
                32u8
            } else {
                s[0]
            },
        ] + decoded(s.subrange(1, s.len() as int))
    }
}

fn read_hex(b: u8) -> (r: Option<u8>)
    ensures
        match r {
            Some(n) => hex_digit(b) == Some(n as int) && n < 16,
            None => hex_digit(b) is None,
        },
{
    if 48 <= b && b <= 57 {
        Some(b - 48)
    } else if 97 <= b && b <= 102 {
        Some(b - 87)
    } else if 65 <= b && b <= 70 {
        Some(b - 55)
    } else {
        None
    }
}

fn decode_bytes(bytes: &[u8]) -> (r: Vec<u8>)
    ensures
        r@ == decoded(bytes@),
{
    let n: usize = bytes.len();
    let mut out: Vec<u8> = Vec::new();
    let mut i: usize = 0;
    proof {
        assert(bytes@.subrange(0, n as int) == bytes@);
        assert(out@ + decoded(bytes@) =~= decoded(bytes@));
    }
    while i < n
        invariant
            n == bytes@.len(),
            i <= n,
            out@ + decoded(bytes@.subrange(i as int, n as int)) == decoded(bytes@),
        decreases n - i,
    {
        let ghost rest = bytes@.subrange(i as int, n as int);
        let ghost before = out@;
        let b: u8 = bytes[i];
        let mut step: usize = 1;
        let mut value: u8 = if b == 43 {
            32
        } else {
            b
        };
        if b == 37 && n - i > 2 {
            proof {
                assert(rest[1] == bytes@[i + 1] && rest[2] == bytes@[i + 2]);
            }
            if let (Some(hi), Some(lo)) = (read_hex(bytes[i + 1]), read_hex(bytes[i + 2])) {
                value = hi * 16 + lo;
                step = 3;
            }
        }
        out.push(value);
        proof {
            assert(rest[0] == b);
            assert(rest.subrange(step as int, rest.len() as int) =~= bytes@.subrange(
                i + step,
                n as int,
            ));
            assert(decoded(rest) == seq![value] + decoded(bytes@.subrange(i + step, n as int)));
            assert(out@ + decoded(bytes@.subrange(i + step, n as int)) =~= before + decoded(rest));
        }
        i = i + step;
    }
    proof {
        assert(bytes@.subrange(i as int, n as int) =~= Seq::<u8>::empty());
        assert(out@ + decoded(Seq::<u8>::empty()) =~= out@);
    }
    out
}

/// Decodes a query value.
pub fn percent_decode(s: &str) -> (r: String)
    ensures
        r@ == text::lossy_text(decoded(vstd::utf8::encode_utf8(s@))),
{
    let bytes = decode_bytes(s.as_bytes());
    to_lossy_text(bytes.as_slice())
}

/// The device that a socket belongs to, by its query string.
pub fn device_id_from_query(qs: &str) -> (r: Option<String>)
    ensures
        text::opt_text(r) == (match query_string::value_of(qs@, "deviceid"@) {
            Some(v) => Some(text::lossy_text(decoded(vstd::utf8::encode_utf8(v)))),
            None => None,
        }),
{
    match find_value(qs, "deviceid") {
        Some(v) => Some(percent_decode(v.as_str())),
        None => None,
    }
}

// ------------------------------------------------------------- the group's messages

/// What a group is doing.
#[derive(Debug, Clone, Copy, PartialEq, Eq, Structural)]
pub enum GroupPlayState {
    Idle,
    Waiting,
    Playing,
    Paused,
}

/// A member of a group.
#[derive(Debug)]
pub struct Member {
    pub id: String,
    pub name: String,
}

/// What a group tells a member.
#[derive(Debug)]
pub enum ServerMsg {
    Play { at_server_ms: u64, position_ms: u64 },
    Pause { at_server_ms: u64, position_ms: u64 },
    Seek { at_server_ms: u64, position_ms: u64 },
    Joined { group_id: String, members: Vec<Member> },
    MemberJoined { member: Member },
    MemberLeft { member_id: String, name: String },
    StateUpdate { state: GroupPlayState, reason: String },
    PlayQueue {
        reason: String,
        items: Vec<QueuePlaylistItem>,
        playing_index: usize,
        start_position_ms: u64,
        is_playing: bool,
        repeat_mode: String,
        shuffle_mode: String,
        last_update_unix_ms: u64,
    },
    LeaderChange,
    NotInGroup,
    GroupLeft,
    Welcome,
    Pong,
    Error,
}

/// What is known of the group when a message is passed on.
#[derive(Debug)]
pub struct TranslateCtx {
    pub group_id: Option<String>,
    /// The moment from which the group counts, in milliseconds since 1970.
    pub epoch_unix_ms: u64,
    /// The entry of the queue that is playing.
    pub current_pli: Option<String>,
}

pub open spec fn state_label(s: GroupPlayState) -> Seq<char> {
    match s {
        GroupPlayState::Idle => "Idle"@,
        GroupPlayState::Waiting => "Waiting"@,
        GroupPlayState::Playing => "Playing"@,
        GroupPlayState::Paused => "Paused"@,
    }
}

/// The name of a group's state.
pub fn play_state_str(s: GroupPlayState) -> (r: &'static str)
    ensures
        r@ == state_label(s),
{
    match s {
        GroupPlayState::Idle => "Idle",
        GroupPlayState::Waiting => "Waiting",
        GroupPlayState::Playing => "Playing",
        GroupPlayState::Paused => "Paused",
    }
}

/// The client's name for why a queue changed. A member who joins late loads
/// the queue like a new one.
pub open spec fn queue_reason(r: Seq<char>) -> Seq<char> {
    if r == "set_current_item"@ {
        "SetCurrentItem"@
    } else if r == "next_item"@ {
        "NextItem"@
    } else if r == "previous_item"@ {
        "PreviousItem"@
    } else if r == "repeat_mode"@ {
        "RepeatMode"@
    } else if r == "shuffle_mode"@ {
        "ShuffleMode"@
    } else {
        "NewPlaylist"@
    }
}

/// The client's name for why a queue changed.
pub fn play_queue_reason(r: &str) -> (out: &'static str)
    ensures
        out@ == queue_reason(r@),
{
    if eq_text(r, "set_current_item") {
        "SetCurrentItem"
    } else if eq_text(r, "next_item") {
        "NextItem"
    } else if eq_text(r, "previous_item") {
        "PreviousItem"
    } else if eq_text(r, "repeat_mode") {
        "RepeatMode"
    } else if eq_text(r, "shuffle_mode") {
        "ShuffleMode"
    } else {
        "NewPlaylist"
    }
}

/// The id that stands for none.
pub open spec fn empty_guid() -> Seq<char> {
    "00000000000000000000000000000000"@
}

pub open spec fn or_empty_guid(o: Option<Seq<char>>) -> Seq<char> {
    match o {
        Some(s) => s,
        None => empty_guid(),
    }
}

pub open spec fn or_nothing(o: Option<Seq<char>>) -> Seq<char> {
    match o {
        Some(s) => s,
        None => Seq::empty(),
    }
}

/// Whether the times in a message fit their fields.
pub open spec fn times_fit(m: ServerMsg, epoch: u64) -> bool {
    match m {
        ServerMsg::Play { at_server_ms, position_ms } => epoch + at_server_ms <= u64::MAX
            && position_ms * 10_000 <= u64::MAX,
        ServerMsg::Pause { at_server_ms, position_ms } => epoch + at_server_ms <= u64::MAX
            && position_ms * 10_000 <= u64::MAX,
        ServerMsg::Seek { at_server_ms, position_ms } => epoch + at_server_ms <= u64::MAX
            && position_ms * 10_000 <= u64::MAX,
        ServerMsg::PlayQueue { start_position_ms, .. } => start_position_ms * 10_000 <= u64::MAX,
        _ => true,
    }
}

/// A playback command: when, where in the title, and for which entry of the
/// queue. Group and entry are always given, by the id that stands for none
/// where there is none.
pub open spec fn is_command<V>(
    p: Payload<V>,
    ctx: TranslateCtx,
    name: Seq<char>,
    at: u64,
    position: u64,
    now: i64,
) -> bool {
    p matches Payload::Command(c) && {
        &&& c.group_id@ == or_empty_guid(text::opt_text(ctx.group_id))
        &&& c.command@ == name
        &&& c.position_ticks == Some((position * 10_000) as u64)
        &&& c.when_unix_ms == ctx.epoch_unix_ms + at
        &&& c.emitted_at_unix_ms == now
        &&& c.playlist_item_id@ == or_empty_guid(text::opt_text(ctx.current_pli))
    }
}

pub open spec fn member_names(ms: Seq<Member>) -> Seq<Seq<char>> {
    Seq::new(ms.len(), |i: int| ms[i].name@)
}

pub open spec fn queue_views(q: Seq<QueuePlaylistItem>) -> Seq<(Seq<char>, Seq<char>)> {
    Seq::new(q.len(), |i: int| (q[i].item_id@, q[i].playlist_item_id@))
}

/// Whether an update says what the message tells.
pub open spec fn update_says(b: UpdateBody, m: ServerMsg, now: i64) -> bool {
    match m {
        ServerMsg::Joined { group_id, members } => b matches UpdateBody::Info {
            group_id: g,
            group_name,
            state,
            participants,
            last_updated_unix_ms,
        } && {
            &&& g@ == group_id@
            &&& group_name@ == "SyncPlay"@
            &&& state@ == "Idle"@
            &&& text::texts(participants@) == member_names(members@)
            &&& last_updated_unix_ms == now
        },
        ServerMsg::MemberJoined { member } => b matches UpdateBody::Name(n) && n@ == member.name@,
        ServerMsg::MemberLeft { member_id, name } => b matches UpdateBody::Name(n) && n@ == (
        if name@.len() == 0 {
            member_id@
        } else {
            name@
        }),
        ServerMsg::StateUpdate { state, reason } => b matches UpdateBody::State {
            state: s,
            reason: r,
        } && s@ == state_label(state) && r@ == reason@,
        ServerMsg::PlayQueue {
            reason,
            items,
            playing_index,
            start_position_ms,
            is_playing,
            repeat_mode,
            shuffle_mode,
            last_update_unix_ms,
        } => b matches UpdateBody::Queue(u) && {
            &&& u.reason@ == queue_reason(reason@)
            &&& u.last_update_unix_ms == last_update_unix_ms
            &&& queue_views(u.playlist@) == queue_views(items@)
            &&& u.playing_item_index == playing_index
            &&& u.start_position_ticks == start_position_ms * 10_000
            &&& u.is_playing == is_playing
            &&& u.shuffle_mode@ == shuffle_mode@
            &&& u.repeat_mode@ == repeat_mode@
        },
        _ => b == UpdateBody::Nothing,
    }
}

/// The kind of update that a message is passed on as.
pub open spec fn update_kind(m: ServerMsg) -> Seq<char> {
    match m {
        ServerMsg::Joined { .. } => "GroupJoined"@,
        ServerMsg::MemberJoined { .. } => "UserJoined"@,
        ServerMsg::MemberLeft { .. } => "UserLeft"@,
        ServerMsg::StateUpdate { .. } => "StateUpdate"@,
        ServerMsg::PlayQueue { .. } => "PlayQueue"@,
        ServerMsg::NotInGroup => "NotInGroup"@,
        _ => "GroupLeft"@,
    }
}

/// Messages that clients have no use for.
pub open spec fn stays_inside(m: ServerMsg) -> bool {
    m is LeaderChange || m is Welcome || m is Pong || m is Error
}

/// What a client is sent for a message of its group.
pub open spec fn translated<V>(
    r: Option<Outbound<V>>,
    m: ServerMsg,
    ctx: TranslateCtx,
    now: i64,
) -> bool {
    match r {
        None => stays_inside(m),
        Some(o) => match m {
            ServerMsg::Play { at_server_ms, position_ms } => o.message_type@ == "SyncPlayCommand"@
                && is_command(o.data, ctx, "Unpause"@, at_server_ms, position_ms, now),
            ServerMsg::Pause { at_server_ms, position_ms } => o.message_type@ == "SyncPlayCommand"@
                && is_command(o.data, ctx, "Pause"@, at_server_ms, position_ms, now),
            ServerMsg::Seek { at_server_ms, position_ms } => o.message_type@ == "SyncPlayCommand"@
                && is_command(o.data, ctx, "Seek"@, at_server_ms, position_ms, now),
            _ => {
                &&& !stays_inside(m)
                &&& o.message_type@ == "SyncPlayGroupUpdate"@
                &&& o.data matches Payload::GroupUpdate(u)
                &&& u.kind@ == update_kind(m)
                &&& u.group_id@ == (match m {
                    ServerMsg::Joined { group_id, .. } => group_id@,
                    _ => or_nothing(text::opt_text(ctx.group_id)),
                })
                &&& update_says(u.data, m, now)
            },
        },
    }
}

fn id_or_empty_guid(o: &Option<String>) -> (r: String)
    ensures
        r@ == or_empty_guid(text::opt_text(*o)),
{
    match o {
        Some(s) => s.clone(),
        None => "00000000000000000000000000000000".to_owned(),
    }
}

fn command<V>(
    ctx: &TranslateCtx,
    kind: &'static str,
    at_server_ms: u64,
    position_ms: u64,
    now: i64,
) -> (r: Outbound<V>)
    requires
        ctx.epoch_unix_ms + at_server_ms <= u64::MAX,
        position_ms * 10_000 <= u64::MAX,
    ensures
        r.message_type@ == "SyncPlayCommand"@,
        is_command(r.data, *ctx, kind@, at_server_ms, position_ms, now),
{
    Outbound::new(
        "SyncPlayCommand",
        Payload::Command(
            CommandData {
                group_id: id_or_empty_guid(&ctx.group_id),
                command: kind,
                position_ticks: Some(position_ms * POSITION_TICKS_PER_MS),
                when_unix_ms: ctx.epoch_unix_ms + at_server_ms,
                emitted_at_unix_ms: now,
                playlist_item_id: id_or_empty_guid(&ctx.current_pli),
            },
        ),
    )
}

fn group_update<V>(ctx: &TranslateCtx, kind: &'static str, data: UpdateBody) -> (r: Outbound<V>)
    ensures
        r.message_type@ == "SyncPlayGroupUpdate"@,
        r.data matches Payload::GroupUpdate(u) && u.kind@ == kind@ && u.group_id@ == or_nothing(
            text::opt_text(ctx.group_id),
        ) && u.data == data,
{
    let group_id: String = match &ctx.group_id {
        Some(g) => g.clone(),
        None => String::new(),
    };
    Outbound::new(
        "SyncPlayGroupUpdate",
        Payload::GroupUpdate(GroupUpdateData { kind, group_id, data }),
    )
}

fn copy_names(ms: &Vec<Member>) -> (r: Vec<String>)
    ensures
        text::texts(r@) == member_names(ms@),
{
    let mut out: Vec<String> = Vec::new();
    let mut i: usize = 0;
    while i < ms.len()
        invariant
            i <= ms@.len(),
            out@.len() == i,
            forall|k: int| 0 <= k < i ==> #[trigger] out@[k]@ == ms@[k].name@,
        decreases ms@.len() - i,
    {
        out.push(ms[i].name.clone());
        i += 1;
    }
    proof {
        assert(text::texts(out@) =~= member_names(ms@));
    }
    out
}

fn copy_queue(q: &Vec<QueuePlaylistItem>) -> (r: Vec<QueuePlaylistItem>)
    ensures
        queue_views(r@) == queue_views(q@),
{
    let mut out: Vec<QueuePlaylistItem> = Vec::new();
    let mut i: usize = 0;
    while i < q.len()
        invariant
            i <= q@.len(),
            out@.len() == i,
            forall|k: int|
                0 <= k < i ==> (#[trigger] out@[k]).item_id@ == q@[k].item_id@
                    && out@[k].playlist_item_id@ == q@[k].playlist_item_id@,
        decreases q@.len() - i,
    {
        out.push(
            QueuePlaylistItem {
                item_id: q[i].item_id.clone(),
                playlist_item_id: q[i].playlist_item_id.clone(),
            },
        );
        i += 1;
    }
    proof {
        assert(queue_views(out@) =~= queue_views(q@));
    }
    out
}

/// Turns a message of the group into what the client is sent. `now` is the
/// present moment, in milliseconds since 1970.
pub fn translate_outbound<V>(msg: &ServerMsg, ctx: &TranslateCtx, now: i64) -> (r: Option<
    Outbound<V>,
>)
    requires
        times_fit(*msg, ctx.epoch_unix_ms),
    ensures
        translated(r, *msg, *ctx, now),
{
    match msg {
        ServerMsg::Play { at_server_ms, position_ms } => Some(
            command(ctx, "Unpause", *at_server_ms, *position_ms, now),
        ),
        ServerMsg::Pause { at_server_ms, position_ms } => Some(
            command(ctx, "Pause", *at_server_ms, *position_ms, now),
        ),
        ServerMsg::Seek { at_server_ms, position_ms } => Some(
            command(ctx, "Seek", *at_server_ms, *position_ms, now),
        ),
        ServerMsg::Joined { group_id, members } => Some(
            Outbound::new(
                "SyncPlayGroupUpdate",
                Payload::GroupUpdate(
                    GroupUpdateData {
                        kind: "GroupJoined",
                        group_id: group_id.clone(),
                        data: UpdateBody::Info {
                            group_id: group_id.clone(),
                            group_name: "SyncPlay",
                            state: "Idle",
                            participants: copy_names(members),
                            last_updated_unix_ms: now,
                        },
                    },
                ),
            ),
        ),
        ServerMsg::MemberJoined { member } => Some(
            group_update(ctx, "UserJoined", UpdateBody::Name(member.name.clone())),
        ),
        ServerMsg::MemberLeft { member_id, name } => {
            let who: String = if name.as_str().is_empty() {
                member_id.clone()
            } else {
                name.clone()
            };
            Some(group_update(ctx, "UserLeft", UpdateBody::Name(who)))
        },
        ServerMsg::StateUpdate { state, reason } => Some(
            group_update(
                ctx,
                "StateUpdate",
                UpdateBody::State { state: play_state_str(*state), reason: reason.clone() },
            ),
        ),
        ServerMsg::PlayQueue {
            reason,
            items,
            playing_index,
            start_position_ms,
            is_playing,
            repeat_mode,
            shuffle_mode,
            last_update_unix_ms,
        } => Some(
            group_update(
                ctx,
                "PlayQueue",
                UpdateBody::Queue(
                    PlayQueueUpdate {
                        reason: play_queue_reason(reason.as_str()),
                        last_update_unix_ms: *last_update_unix_ms,
                        playlist: copy_queue(items),
                        playing_item_index: *playing_index,
                        start_position_ticks: *start_position_ms * POSITION_TICKS_PER_MS,
                        is_playing: *is_playing,
                        shuffle_mode: shuffle_mode.clone(),
                        repeat_mode: repeat_mode.clone(),
                    },
                ),
            ),
        ),
        ServerMsg::NotInGroup => Some(group_update(ctx, "NotInGroup", UpdateBody::Nothing)),
        ServerMsg::GroupLeft => Some(group_update(ctx, "GroupLeft", UpdateBody::Nothing)),
        ServerMsg::LeaderChange => None,
        ServerMsg::Welcome => None,
        ServerMsg::Pong => None,
        ServerMsg::Error => None,
    }
}

// ------------------------------------------------------------------- broadcasts

/// What the server tells all sockets. `V` is whatever values are passed on as
/// they came; of a command's argument the seek position is picked out.
#[derive(Debug)]
pub enum SocketBroadcast<V> {
    LibraryChanged { added: Vec<String>, removed: Vec<String> },
    UserDataChanged { user_id: String, entries: Vec<V> },
    SessionCommand {
        session_id: String,
        command: String,
        arg: V,
        seek_position_ticks: Option<V>,
    },
    PlaybackProgress {
        session_id: String,
        user_id: String,
        item_id: String,
        position_ticks: u64,
        is_paused: bool,
    },
}

pub open spec fn playstate_names() -> Seq<Seq<char>> {
    seq![
        "Play"@,
        "Pause"@,
        "Unpause"@,
        "PlayPause"@,
        "Stop"@,
        "Seek"@,
        "NextTrack"@,
        "PreviousTrack"@,
        "Rewind"@,
        "FastForward"@,
    ]
}

/// Whether a command drives playback.
pub fn is_playstate_command(cmd: &str) -> (r: bool)
    ensures
        r == playstate_names().contains(cmd@),
{
    let wanted: Vec<&str> =
        vec![
        "Play",
        "Pause",
        "Unpause",
        "PlayPause",
        "Stop",
        "Seek",
        "NextTrack",
        "PreviousTrack",
        "Rewind",
        "FastForward",
    ];
    proof {
        assert(text::names(wanted@) == playstate_names());
    }
    one_of(cmd, &wanted)
}

/// Whether a message passes a broadcast on.
pub open spec fn broadcast_as<V>(o: Outbound<V>, b: SocketBroadcast<V>) -> bool {
    match b {
        SocketBroadcast::LibraryChanged { added, removed } => {
            &&& o.message_type@ == "LibraryChanged"@
            &&& o.data == (Payload::<V>::LibraryChanged {
                items_added: added,
                items_removed: removed,
                is_empty: added@.len() == 0 && removed@.len() == 0,
            })
        },
        SocketBroadcast::UserDataChanged { user_id, entries } => {
            &&& o.message_type@ == "UserDataChanged"@
            &&& o.data == (Payload::<V>::UserDataChanged { user_id, user_data_list: entries })
        },
        SocketBroadcast::SessionCommand { session_id, command, arg, seek_position_ticks } => {
            if playstate_names().contains(command@) {
                &&& o.message_type@ == "PlayState"@
                &&& o.data == (Payload::<V>::PlayState { session_id, command, seek_position_ticks })
            } else {
                &&& o.message_type@ == "GeneralCommand"@
                &&& o.data == (Payload::<V>::GeneralCommand {
                    session_id,
                    name: command,
                    arguments: arg,
                })
            }
        },
        SocketBroadcast::PlaybackProgress {
            session_id,
            user_id,
            item_id,
            position_ticks,
            is_paused,
        } => {
            &&& o.message_type@ == "Sessions"@
            &&& o.data == (Payload::<V>::Sessions {
                id: session_id,
                user_id,
                item_id,
                position_ticks,
                is_paused,
            })
        },
    }
}

/// Turns a broadcast into what a client is sent.
pub fn translate_broadcast<V>(b: SocketBroadcast<V>) -> (r: Outbound<V>)
    ensures
        broadcast_as(r, b),
{
    match b {
        SocketBroadcast::LibraryChanged { added, removed } => {
            let is_empty = added.len() == 0 && removed.len() == 0;
            Outbound::new(
                "LibraryChanged",
                Payload::LibraryChanged { items_added: added, items_removed: removed, is_empty },
            )
        },
        SocketBroadcast::UserDataChanged { user_id, entries } => Outbound::new(
            "UserDataChanged",
            Payload::UserDataChanged { user_id, user_data_list: entries },
        ),
        SocketBroadcast::SessionCommand { session_id, command, arg, seek_position_ticks } => {
            if is_playstate_command(command.as_str()) {
                Outbound::new(
                    "PlayState",
                    Payload::PlayState { session_id, command, seek_position_ticks },
                )
            } else {
                Outbound::new(
                    "GeneralCommand",
                    Payload::GeneralCommand { session_id, name: command, arguments: arg },
                )
            }
        },
        SocketBroadcast::PlaybackProgress {
            session_id,
            user_id,
            item_id,
            position_ticks,
            is_paused,
        } => Outbound::new(
            "Sessions",
            Payload::Sessions { id: session_id, user_id, item_id, position_ticks, is_paused },
        ),
    }
}

/// Whose eyes a broadcast is for; none where it is for everyone's.
pub open spec fn meant_for<V>(b: SocketBroadcast<V>) -> Option<Seq<char>> {
    match b {
        SocketBroadcast::UserDataChanged { user_id, .. } => Some(user_id@),
        SocketBroadcast::PlaybackProgress { user_id, .. } => Some(user_id@),
        _ => None,
    }
}

/// Whether a broadcast may go to the socket of this user.
pub open spec fn may_see<V>(b: SocketBroadcast<V>, user: Seq<char>) -> bool {
    meant_for(b) matches Some(u) ==> u == user
}

/// Passes a broadcast on to the socket of a user, where it may.
pub fn forward_broadcast<V>(b: SocketBroadcast<V>, bound_user_id: &str) -> (r: Option<Outbound<V>>)
    ensures
        match r {
            Some(o) => may_see(b, bound_user_id@) && broadcast_as(o, b),
            None => !may_see(b, bound_user_id@),
        },
{
    let allowed = match &b {
        SocketBroadcast::UserDataChanged { user_id, .. } => eq_text(
            user_id.as_str(),
            bound_user_id,
        ),
        SocketBroadcast::PlaybackProgress { user_id, .. } => eq_text(
            user_id.as_str(),
            bound_user_id,
        ),
        _ => true,
    };
    if allowed {
        Some(translate_broadcast(b))
    } else {
        None
    }
}

// ------------------------------------------------------------ what a client asks for

/// What a group is told on behalf of a member.
#[derive(Debug)]
pub enum GroupCommand {
    LeaderPlay { position_ms: u64 },
    LeaderPause,
    LeaderSeek { position_ms: u64 },
    BufferingStart { position_ms: u64, playlist_item: Option<String> },
    BufferingEnd,
    RemoveMember,
    ResyncMember,
    MemberPing,
    SetNewQueue { item_ids: Vec<String>, playing_index: usize, start_position_ms: u64 },
    Unpause,
    PauseShared,
    SeekTo { position_ms: u64 },
    MemberReady { position_ms: u64 },
    SetPlaylistItem { playlist_item_id: String },
    NextItem,
    PreviousItem,
    SetRepeatMode { mode: String },
    SetShuffleMode { mode: String },
}

/// What is done about a message from a client.
#[derive(Debug)]
pub enum InboundAction {
    /// Nothing.
    Ignore,
    /// Found a group and join it.
    CreateGroup,
    /// Join this group.
    JoinGroup { group_id: String },
    /// Leave the group.
    LeaveGroup,
    /// Tell the group.
    Tell(GroupCommand),
}

/// What is done about a message, by whether the client is in a group.
pub open spec fn inbound_action(a: InboundAction, m: Inbound, in_group: bool) -> bool {
    let t = m.message_type@;
    if t == "SyncPlayCreateGroup"@ {
        if in_group {
            a is Ignore
        } else {
            a is CreateGroup
        }
    } else if t == "SyncPlayJoinGroup"@ {
        match m.join {
            Some(d) => a matches InboundAction::JoinGroup { group_id } && group_id@ == d.group_id@,
            None => a is Ignore,
        }
    } else if !in_group {
        a is Ignore
    } else if t == "SyncPlayLeaveGroup"@ {
        a is LeaveGroup
    } else if t == "SyncPlayPlay"@ {
        a == InboundAction::Tell(
            GroupCommand::LeaderPlay {
                position_ms: match m.play {
                    Some(d) => (d.playback_position_ticks / 10_000) as u64,
                    None => 0,
                },
            },
        )
    } else if t == "SyncPlayPause"@ || t == "SyncPlayUnpause"@ {
        a == InboundAction::Tell(GroupCommand::LeaderPause)
    } else if t == "SyncPlaySeek"@ {
        match m.seek {
            Some(d) => a == InboundAction::Tell(
                GroupCommand::LeaderSeek { position_ms: (d.position_ticks / 10_000) as u64 },
            ),
            None => a is Ignore,
        }
    } else if t == "SyncPlayBuffering"@ {
        a == InboundAction::Tell(
            GroupCommand::BufferingStart { position_ms: 0, playlist_item: None },
        )
    } else if t == "SyncPlayReady"@ {
        a == InboundAction::Tell(GroupCommand::BufferingEnd)
    } else {
        a is Ignore
    }
}

/// Decides what is done about a message from a client.
pub fn handle_inbound(m: &Inbound, in_group: bool) -> (r: InboundAction)
    ensures
        inbound_action(r, *m, in_group),
{
    let t = m.message_type.as_str();
    if eq_text(t, "SyncPlayCreateGroup") {
        return if in_group {
            InboundAction::Ignore
        } else {
            InboundAction::CreateGroup
        };
    }
    if eq_text(t, "SyncPlayJoinGroup") {
        return match &m.join {
            Some(d) => InboundAction::JoinGroup { group_id: d.group_id.clone() },
            None => InboundAction::Ignore,
        };
    }
    if !in_group {
        return InboundAction::Ignore;
    }
    if eq_text(t, "SyncPlayLeaveGroup") {
        InboundAction::LeaveGroup
    } else if eq_text(t, "SyncPlayPlay") {
        let position_ms: u64 = match m.play {
            Some(d) => d.playback_position_ticks / POSITION_TICKS_PER_MS,
            None => 0,
        };
        InboundAction::Tell(GroupCommand::LeaderPlay { position_ms })
    } else if eq_text(t, "SyncPlayPause") || eq_text(t, "SyncPlayUnpause") {
        InboundAction::Tell(GroupCommand::LeaderPause)
    } else if eq_text(t, "SyncPlaySeek") {
        match m.seek {
            Some(d) => InboundAction::Tell(
                GroupCommand::LeaderSeek { position_ms: d.position_ticks / POSITION_TICKS_PER_MS },
            ),
            None => InboundAction::Ignore,
        }
    } else if eq_text(t, "SyncPlayBuffering") {
        InboundAction::Tell(
            GroupCommand::BufferingStart { position_ms: 0, playlist_item: None },
        )
    } else if eq_text(t, "SyncPlayReady") {
        InboundAction::Tell(GroupCommand::BufferingEnd)
    } else {
        InboundAction::Ignore
    }
}

// --------------------------------------------------------------- the connection

/// A client that has not been heard of for this long, in milliseconds, is
/// dropped.
pub const IDLE_DROP_MS: u64 = 120_000;

/// A group as the socket knows it.
#[derive(Debug)]
pub struct GroupRef {
    pub id: String,
    pub epoch_unix_ms: u64,
}

/// What a connection remembers.
#[derive(Debug)]
pub struct Connection {
    /// The user that the socket belongs to.
    pub bound_user_id: String,
    /// The group that the group's own messages have named.
    pub group_id: Option<String>,
    /// The entry of the queue that is playing.
    pub current_pli: Option<String>,
    /// The group that was joined over this socket.
    pub current_group: Option<GroupRef>,
    /// When the client was last heard of, in milliseconds.
    pub last_client_seen_ms: u64,
}

/// A frame that came from the client.
#[derive(Debug)]
pub enum Frame {
    /// A text; none where it is not a message.
    Text(Option<Inbound>),
    Ping,
    Close,
    Broken,
    Other,
}

/// What happens to a connection.
#[derive(Debug)]
pub enum SocketEvent<V> {
    /// The timer.
    Tick,
    /// A message of the group; `hub_epoch` is the epoch of the group that the
    /// device is in, as far as the hub knows.
    FromGroup { msg: ServerMsg, hub_epoch: Option<u64> },
    /// A broadcast; none where some were missed.
    Broadcast(Option<SocketBroadcast<V>>),
    /// A frame; none at the end of the stream.
    FromClient(Option<Frame>),
}

/// What is done next.
#[derive(Debug)]
pub enum SocketAction<V> {
    Wait,
    Send(Outbound<V>),
    /// Answer the client's sign of life, and tell the group of it.
    SendAndPing(Outbound<V>),
    Pong,
    Act(InboundAction),
    Hang,
}

pub open spec fn keep_alive<V>(o: Outbound<V>) -> bool {
    o.message_type@ == "KeepAlive"@ && o.data == Payload::<V>::Nothing
}

/// The epoch of the group: that of the one joined here, or the hub's.
pub open spec fn epoch_of(c: Connection, hub_epoch: Option<u64>) -> u64 {
    match c.current_group {
        Some(g) => g.epoch_unix_ms,
        None => match hub_epoch {
            Some(e) => e,
            None => 0,
        },
    }
}

/// What the connection remembers of the group after a message.
pub open spec fn group_id_after(c: Connection, m: ServerMsg) -> Option<Seq<char>> {
    match m {
        ServerMsg::Joined { group_id, .. } => Some(group_id@),
        _ => text::opt_text(c.group_id),
    }
}

pub open spec fn pli_after(c: Connection, m: ServerMsg) -> Option<Seq<char>> {
    match m {
        ServerMsg::PlayQueue { items, playing_index, .. } => if playing_index < items@.len() {
            Some(items@[playing_index as int].playlist_item_id@)
        } else {
            None
        },
        _ => text::opt_text(c.current_pli),
    }
}

/// The group that a message is passed on for.
pub open spec fn ctx_group(c: Connection, m: ServerMsg) -> Option<Seq<char>> {
    match group_id_after(c, m) {
        Some(g) => Some(g),
        None => match c.current_group {
            Some(g) => Some(g.id@),
            None => None,
        },
    }
}

/// Whether a context is the one that a message is passed on in.
pub open spec fn ctx_is(t: TranslateCtx, c: Connection, m: ServerMsg, hub_epoch: Option<u64>) -> bool {
    &&& text::opt_text(t.group_id) == ctx_group(c, m)
    &&& t.epoch_unix_ms == epoch_of(c, hub_epoch)
    &&& text::opt_text(t.current_pli) == pli_after(c, m)
}

/// Whether the times in an event fit their fields.
pub open spec fn event_fits<V>(c: Connection, e: SocketEvent<V>) -> bool {
    e matches SocketEvent::FromGroup { msg, hub_epoch } ==> times_fit(msg, epoch_of(c, hub_epoch))
}

fn group_epoch(c: &Connection, hub_epoch: Option<u64>) -> (r: u64)
    ensures
        r == epoch_of(*c, hub_epoch),
{
    match &c.current_group {
        Some(g) => g.epoch_unix_ms,
        None => match hub_epoch {
            Some(h) => h,
            None => 0,
        },
    }
}

fn has_fitting_times(m: &ServerMsg, epoch: u64) -> (r: bool)
    ensures
        r == times_fit(*m, epoch),
{
    match m {
        ServerMsg::Play { at_server_ms, position_ms } => epoch.checked_add(
            *at_server_ms,
        ).is_some() && position_ms.checked_mul(10_000).is_some(),
        ServerMsg::Pause { at_server_ms, position_ms } => epoch.checked_add(
            *at_server_ms,
        ).is_some() && position_ms.checked_mul(10_000).is_some(),
        ServerMsg::Seek { at_server_ms, position_ms } => epoch.checked_add(
            *at_server_ms,
        ).is_some() && position_ms.checked_mul(10_000).is_some(),
        ServerMsg::PlayQueue { start_position_ms, .. } => start_position_ms.checked_mul(
            10_000,
        ).is_some(),
        _ => true,
    }
}

/// Whether an event can be taken in: one whose times do not fit their fields
/// cannot be passed on.
pub fn takes_event<V>(c: &Connection, e: &SocketEvent<V>) -> (r: bool)
    ensures
        r == event_fits(*c, *e),
{
    match e {
        SocketEvent::FromGroup { msg, hub_epoch } => has_fitting_times(
            msg,
            group_epoch(c, *hub_epoch),
        ),
        _ => true,
    }
}

/// What an event leads to. `mono_ms` is the connection's own clock, `now` the
/// present moment.
pub open spec fn reaction<V>(
    a: SocketAction<V>,
    c: Connection,
    e: SocketEvent<V>,
    mono_ms: u64,
    now: i64,
) -> bool {
    match e {
        SocketEvent::Tick => if mono_ms - c.last_client_seen_ms > IDLE_DROP_MS {
            a is Hang
        } else {
            a matches SocketAction::Send(o) && keep_alive(o)
        },
        SocketEvent::FromGroup { msg, hub_epoch } => match a {
            SocketAction::Send(o) => exists|t: TranslateCtx| #[trigger]
                ctx_is(t, c, msg, hub_epoch) && translated(Some(o), msg, t, now),
            SocketAction::Wait => stays_inside(msg),
            _ => false,
        },
        SocketEvent::Broadcast(b) => match b {
            Some(x) => if may_see(x, c.bound_user_id@) {
                a matches SocketAction::Send(o) && broadcast_as(o, x)
            } else {
                a is Wait
            },
            None => a is Wait,
        },
        SocketEvent::FromClient(f) => match f {
            None => a is Hang,
            Some(Frame::Close) => a is Hang,
            Some(Frame::Broken) => a is Hang,
            Some(Frame::Ping) => a is Pong,
            Some(Frame::Other) => a is Wait,
            Some(Frame::Text(None)) => a is Wait,
            Some(Frame::Text(Some(m))) => if m.message_type@ == "KeepAlive"@ {
                a matches SocketAction::SendAndPing(o) && keep_alive(o)
            } else {
                a matches SocketAction::Act(x) && inbound_action(x, m, c.current_group is Some)
            },
        },
    }
}

/// What the connection remembers after an event: what the group's messages tell
/// of the group and its queue, and when the client was heard of.
pub open spec fn remembers<V>(
    new: Connection,
    c: Connection,
    e: SocketEvent<V>,
    mono_ms: u64,
) -> bool {
    &&& new.bound_user_id@ == c.bound_user_id@
    &&& new.current_group == c.current_group
    &&& (match e {
        SocketEvent::FromGroup { msg, .. } => text::opt_text(new.group_id) == group_id_after(c, msg)
            && text::opt_text(new.current_pli) == pli_after(c, msg),
        _ => text::opt_text(new.group_id) == text::opt_text(c.group_id) && text::opt_text(
            new.current_pli,
        ) == text::opt_text(c.current_pli),
    })
    &&& new.last_client_seen_ms == (match e {
        SocketEvent::FromClient(Some(_)) => mono_ms,
        _ => c.last_client_seen_ms,
    })
}

/// Takes in an event and says what is done next.
pub fn handle_connection<V>(c: &mut Connection, e: SocketEvent<V>, mono_ms: u64, now: i64) -> (r:
    SocketAction<V>)
    requires
        event_fits(*old(c), e),
        old(c).last_client_seen_ms <= mono_ms,
    ensures
        reaction(r, *old(c), e, mono_ms, now),
        remembers(*final(c), *old(c), e, mono_ms),
{
    match e {
        SocketEvent::Tick => {
            if mono_ms - c.last_client_seen_ms > IDLE_DROP_MS {
                SocketAction::Hang
            } else {
                SocketAction::Send(Outbound::new("KeepAlive", Payload::Nothing))
            }
        },
        SocketEvent::FromGroup { msg, hub_epoch } => {
            match &msg {
                ServerMsg::Joined { group_id, .. } => {
                    c.group_id = Some(group_id.clone());
                },
                ServerMsg::PlayQueue { items, playing_index, .. } => {
                    c.current_pli = if *playing_index < items.len() {
                        Some(items[*playing_index].playlist_item_id.clone())
                    } else {
                        None
                    };
                },
                _ => {},
            }
            let epoch: u64 = group_epoch(c, hub_epoch);
            let group: Option<String> = match &c.group_id {
                Some(g) => Some(g.clone()),
                None => match &c.current_group {
                    Some(g) => Some(g.id.clone()),
                    None => None,
                },
            };
            let ctx = TranslateCtx {
                group_id: group,
                epoch_unix_ms: epoch,
                current_pli: text::copy_opt(&c.current_pli),
            };
            proof {
                assert(ctx_is(ctx, *old(c), msg, hub_epoch));
            }
            match translate_outbound(&msg, &ctx, now) {
                Some(o) => SocketAction::Send(o),
                None => SocketAction::Wait,
            }
        },
        SocketEvent::Broadcast(b) => match b {
            Some(x) => match forward_broadcast(x, c.bound_user_id.as_str()) {
                Some(o) => SocketAction::Send(o),
                None => SocketAction::Wait,
            },
            None => SocketAction::Wait,
        },
        SocketEvent::FromClient(f) => match f {
            None => SocketAction::Hang,
            Some(frame) => {
                c.last_client_seen_ms = mono_ms;
                match frame {
                    Frame::Close => SocketAction::Hang,
                    Frame::Broken => SocketAction::Hang,
                    Frame::Ping => SocketAction::Pong,
                    Frame::Other => SocketAction::Wait,
                    Frame::Text(t) => match t {
                        None => SocketAction::Wait,
                        Some(m) => if eq_text(m.message_type.as_str(), "KeepAlive") {
                            SocketAction::SendAndPing(
                                Outbound::new("KeepAlive", Payload::Nothing),
                            )
                        } else {
                            SocketAction::Act(handle_inbound(&m, c.current_group.is_some()))
                        },
                    },
                }
            },
        },
    }
}

/// Whether two states of a connection differ in the joined group at most.
pub open spec fn same_but_group(new: Connection, c: Connection) -> bool {
    &&& new.bound_user_id == c.bound_user_id
    &&& new.group_id == c.group_id
    &&& new.current_pli == c.current_pli
    &&& new.last_client_seen_ms == c.last_client_seen_ms
}

/// Takes in how an attempt to join a group went: the group that has let the
/// member in is the joined one. Where none has, the one from before stays.
pub fn group_joined(c: &mut Connection, admitted: Option<GroupRef>)
    ensures
        final(c).current_group == (if admitted is Some {
            admitted
        } else {
            old(c).current_group
        }),
        same_but_group(*final(c), *old(c)),
{
    if admitted.is_some() {
        c.current_group = admitted;
    }
}

/// Forgets the joined group, and says which one is to let the member go.
pub fn group_left(c: &mut Connection) -> (r: Option<GroupRef>)
    ensures
        r == old(c).current_group,
        final(c).current_group is None,
        same_but_group(*final(c), *old(c)),
{
    c.current_group.take()
}

/// What is said to a client when its socket opens: how many seconds of silence
/// it may keep.
pub fn greeting<V>() -> (r: Outbound<V>)
    ensures
        r.message_type@ == "ForceKeepAlive"@,
        r.data == Payload::<V>::Number(60),
{
    Outbound::new("ForceKeepAlive", Payload::Number(60))
}

/// What is done when a socket is gone.
#[derive(Debug, Clone, Copy, PartialEq, Eq, Structural)]
pub struct Farewell {
    /// Take the member out of the group that was joined over the socket.
    pub remove_from_group: bool,
    /// Take the device's membership away later, unless it comes back.
    pub schedule_teardown: bool,
}

/// Decides what is done when a socket is gone. A server that is shutting down
/// leaves every membership for the next one to take over.
pub fn farewell(c: &Connection, shutting_down: bool) -> (r: Farewell)
    ensures
        r.remove_from_group == (!shutting_down && c.current_group is Some),
        r.schedule_teardown == !shutting_down,
{
    Farewell {
        remove_from_group: !shutting_down && c.current_group.is_some(),
        schedule_teardown: !shutting_down,
    }
}

/// Whether a membership is taken away when the time is up: not while the server
/// shuts down, and not where a newer socket has taken its place.
pub fn teardown_due(shutting_down: bool, generation: u64, current_generation: u64) -> (r: bool)
    ensures
        r == (!shutting_down && generation == current_generation),
{
    !shutting_down && generation == current_generation
}

// ------------------------------------------------------------------------ laws

/// What one user does is never told to the socket of another.
pub proof fn law_users_do_not_see_each_other<V>(
    a: SocketAction<V>,
    c: Connection,
    b: SocketBroadcast<V>,
    mono_ms: u64,
    now: i64,
)
    requires
        reaction(a, c, SocketEvent::Broadcast(Some(b)), mono_ms, now),
        meant_for(b) matches Some(u) && u != c.bound_user_id@,
    ensures
        a is Wait,
{
}

/// A pause always says where in the title it is, so that no client jumps to the
/// start.
pub proof fn law_pauses_carry_a_position<V>(
    o: Outbound<V>,
    at_server_ms: u64,
    position_ms: u64,
    ctx: TranslateCtx,
    now: i64,
)
    requires
        position_ms * 10_000 <= u64::MAX,
        translated(Some(o), ServerMsg::Pause { at_server_ms, position_ms }, ctx, now),
    ensures
        o.data matches Payload::Command(c) && c.position_ticks matches Some(t) && t == position_ms
            * 10_000,
{
}

/// A client that is heard of within the time it has is kept, whatever else
/// happens; one that is not is dropped at the next tick.
pub proof fn law_silent_clients_are_dropped<V>(
    a: SocketAction<V>,
    c: Connection,
    mono_ms: u64,
    now: i64,
)
    requires
        reaction(a, c, SocketEvent::Tick, mono_ms, now),
    ensures
        a is Hang <==> mono_ms - c.last_client_seen_ms > IDLE_DROP_MS,
{
}

/// The epoch that a group's times count from: that of the group that was joined
/// over this socket, else that of the group that the hub has the device in.
pub open spec fn counts_from(c: Connection, hub_epoch: Option<u64>) -> int {
    if c.current_group is Some {
        c.current_group->0.epoch_unix_ms as int
    } else if hub_epoch is Some {
        hub_epoch->0 as int
    } else {
        0
    }
}

/// Whether a client is sent a playback command with this name, for this moment
/// and this place in the title.
pub open spec fn sends_command<V>(
    a: SocketAction<V>,
    name: Seq<char>,
    when: int,
    position_ms: int,
) -> bool {
    a matches SocketAction::Send(o) && o.message_type@ == "SyncPlayCommand"@ && (
    o.data matches Payload::Command(d) && d.command@ == name && d.when_unix_ms == when
        && d.position_ticks is Some && d.position_ticks->0 == position_ms * 10_000)
}

/// What the group does together, each of its clients is told to do: to play on,
/// to pause or to seek, at the group's moment and at its place in the title.
pub proof fn law_the_group_acts_together<V>(
    a: SocketAction<V>,
    c: Connection,
    at_server_ms: u64,
    position_ms: u64,
    hub_epoch: Option<u64>,
    mono_ms: u64,
    now: i64,
)
    requires
        position_ms * 10_000 <= u64::MAX,
    ensures
        reaction(
            a,
            c,
            SocketEvent::FromGroup {
                msg: ServerMsg::Play { at_server_ms, position_ms },
                hub_epoch,
            },
            mono_ms,
            now,
        ) ==> sends_command(
            a,
            "Unpause"@,
            counts_from(c, hub_epoch) + at_server_ms,
            position_ms as int,
        ),
        reaction(
            a,
            c,
            SocketEvent::FromGroup {
                msg: ServerMsg::Pause { at_server_ms, position_ms },
                hub_epoch,
            },
            mono_ms,
            now,
        ) ==> sends_command(
            a,
            "Pause"@,
            counts_from(c, hub_epoch) + at_server_ms,
            position_ms as int,
        ),
        reaction(
            a,
            c,
            SocketEvent::FromGroup {
                msg: ServerMsg::Seek { at_server_ms, position_ms },
                hub_epoch,
            },
            mono_ms,
            now,
        ) ==> sends_command(
            a,
            "Seek"@,
            counts_from(c, hub_epoch) + at_server_ms,
            position_ms as int,
        ),
{
}

/// Whether a client is sent an update of its group of this kind.
pub open spec fn sends_update<V>(a: SocketAction<V>, kind: Seq<char>) -> bool {
    a matches SocketAction::Send(o) && o.message_type@ == "SyncPlayGroupUpdate"@ && (
    o.data matches Payload::GroupUpdate(u) && u.kind@ == kind)
}

/// What happens in the group its clients hear of: who comes and goes, by name,
/// what the group does and why, and that a client is not in the group or has
/// left it.
pub proof fn law_the_group_is_heard_of<V>(
    a: SocketAction<V>,
    c: Connection,
    m: ServerMsg,
    hub_epoch: Option<u64>,
    mono_ms: u64,
    now: i64,
)
    requires
        reaction(a, c, SocketEvent::FromGroup { msg: m, hub_epoch }, mono_ms, now),
    ensures
        m matches ServerMsg::Joined { group_id, members } ==> sends_update(a, "GroupJoined"@) && (
        a->Send_0.data matches Payload::GroupUpdate(u) && u.group_id@ == group_id@ && (
        u.data matches UpdateBody::Info { group_id: g, participants, .. } && g@ == group_id@
            && participants@.len() == members@.len() && forall|i: int|
            0 <= i < members@.len() ==> (#[trigger] participants@[i])@ == members@[i].name@)),
        m matches ServerMsg::MemberJoined { member } ==> sends_update(a, "UserJoined"@) && (
        a->Send_0.data matches Payload::GroupUpdate(u) && (u.data matches UpdateBody::Name(n) && n@
            == member.name@)),
        m matches ServerMsg::MemberLeft { member_id, name } ==> sends_update(a, "UserLeft"@) && (
        a->Send_0.data matches Payload::GroupUpdate(u) && (u.data matches UpdateBody::Name(n) && (
        name@.len() > 0 ==> n@ == name@) && (name@.len() == 0 ==> n@ == member_id@))),
        m matches ServerMsg::StateUpdate { state, reason } ==> sends_update(a, "StateUpdate"@) && (
        a->Send_0.data matches Payload::GroupUpdate(u) && (u.data matches UpdateBody::State {
            state: s,
            reason: r,
        } && r@ == reason@ && (state == GroupPlayState::Idle ==> s@ == "Idle"@) && (state
            == GroupPlayState::Waiting ==> s@ == "Waiting"@) && (state == GroupPlayState::Playing
            ==> s@ == "Playing"@) && (state == GroupPlayState::Paused ==> s@ == "Paused"@))),
        m is NotInGroup ==> sends_update(a, "NotInGroup"@),
        m is GroupLeft ==> sends_update(a, "GroupLeft"@),
        m is LeaderChange || m is Welcome || m is Pong || m is Error ==> a is Wait,
{
    if let ServerMsg::Joined { group_id, members } = m {
        if let SocketAction::Send(o) = a {
            if let Payload::GroupUpdate(u) = o.data {
                if let UpdateBody::Info { participants, .. } = u.data {
                    let x = text::texts(participants@);
                    assert(x.len() == participants@.len());
                    assert(member_names(members@).len() == members@.len());
                    assert forall|i: int| 0 <= i < members@.len() implies (
                    #[trigger] participants@[i])@ == members@[i].name@ by {
                        assert(x[i] == member_names(members@)[i]);
                    }
                }
            }
        }
    }
}

/// A client that joins a group, or whose group gets another queue, is told the
/// whole queue: its entries in order, the one that plays, where it starts and
/// how it runs.
pub proof fn law_the_queue_is_passed_on<V>(
    a: SocketAction<V>,
    c: Connection,
    m: ServerMsg,
    hub_epoch: Option<u64>,
    mono_ms: u64,
    now: i64,
)
    requires
        m is PlayQueue,
        reaction(a, c, SocketEvent::FromGroup { msg: m, hub_epoch }, mono_ms, now),
    ensures
        sends_update(a, "PlayQueue"@),
        a->Send_0.data matches Payload::GroupUpdate(u) && (u.data matches UpdateBody::Queue(q)
            && q.playlist@.len() == m->items@.len() && q.playing_item_index == m->playing_index
            && q.start_position_ticks == m->start_position_ms * 10_000 && q.is_playing
            == m->is_playing && q.repeat_mode@ == m->repeat_mode@ && q.shuffle_mode@
            == m->shuffle_mode@ && (forall|i: int|
            0 <= i < q.playlist@.len() ==> (#[trigger] q.playlist@[i]).item_id@
                == m->items@[i].item_id@ && q.playlist@[i].playlist_item_id@
                == m->items@[i].playlist_item_id@) && (m->PlayQueue_reason@ == "next_item"@
            ==> q.reason@ == "NextItem"@) && (m->PlayQueue_reason@ == "previous_item"@ ==> q.reason@
            == "PreviousItem"@) && (m->PlayQueue_reason@ == "set_current_item"@ ==> q.reason@
            == "SetCurrentItem"@) && (m->PlayQueue_reason@ == "new_playlist"@
            || m->PlayQueue_reason@ == "user_joined"@ ==> q.reason@ == "NewPlaylist"@)),
{
    reveal_strlit("set_current_item");
    reveal_strlit("next_item");
    reveal_strlit("previous_item");
    reveal_strlit("repeat_mode");
    reveal_strlit("shuffle_mode");
    reveal_strlit("new_playlist");
    reveal_strlit("user_joined");
    assert("next_item"@.len() == 9 && "previous_item"@.len() == 13);
    assert("new_playlist"@[0] == 'n' && "shuffle_mode"@[0] == 's');
    assert("user_joined"@[0] == 'u' && "repeat_mode"@[0] == 'r');
    if let SocketAction::Send(o) = a {
        if let Payload::GroupUpdate(u) = o.data {
            if let UpdateBody::Queue(q) = u.data {
                let x = queue_views(q.playlist@);
                let y = queue_views(m->items@);
                assert(x.len() == q.playlist@.len() && y.len() == m->items@.len());
                assert forall|i: int| 0 <= i < q.playlist@.len() implies (
                #[trigger] q.playlist@[i]).item_id@ == m->items@[i].item_id@
                    && q.playlist@[i].playlist_item_id@ == m->items@[i].playlist_item_id@ by {
                    assert(x[i] == y[i]);
                }
            }
        }
    }
}

/// A connection remembers the group that it was told it is in, and the entry of
/// the queue that plays.
pub proof fn law_connections_remember<V>(
    new: Connection,
    c: Connection,
    m: ServerMsg,
    hub_epoch: Option<u64>,
    mono_ms: u64,
)
    requires
        remembers(new, c, SocketEvent::<V>::FromGroup { msg: m, hub_epoch }, mono_ms),
    ensures
        m matches ServerMsg::Joined { group_id, .. } ==> new.group_id is Some && new.group_id->0@
            == group_id@,
        m matches ServerMsg::PlayQueue { items, playing_index, .. } ==> (playing_index < items@.len()
            ==> new.current_pli is Some && new.current_pli->0@
            == items@[playing_index as int].playlist_item_id@) && (playing_index >= items@.len()
            ==> new.current_pli is None),
        new.last_client_seen_ms == c.last_client_seen_ms,
        new.bound_user_id@ == c.bound_user_id@,
{
}

/// A client that says anything at all has been heard of.
pub proof fn law_clients_are_heard_of<V>(
    new: Connection,
    c: Connection,
    f: Frame,
    mono_ms: u64,
)
    requires
        remembers(new, c, SocketEvent::<V>::FromClient(Some(f)), mono_ms),
    ensures
        new.last_client_seen_ms == mono_ms,
{
}

/// A client's sign of life is answered with one, a ping with a pong, and a
/// closed or broken stream ends the connection.
pub proof fn law_signs_of_life_are_answered<V>(
    a: SocketAction<V>,
    c: Connection,
    m: Inbound,
    mono_ms: u64,
    now: i64,
)
    ensures
        reaction(a, c, SocketEvent::FromClient(None), mono_ms, now) ==> a is Hang,
        reaction(a, c, SocketEvent::FromClient(Some(Frame::Close)), mono_ms, now) ==> a is Hang,
        reaction(a, c, SocketEvent::FromClient(Some(Frame::Broken)), mono_ms, now) ==> a is Hang,
        reaction(a, c, SocketEvent::FromClient(Some(Frame::Ping)), mono_ms, now) ==> a is Pong,
        m.message_type@ == "KeepAlive"@ && reaction(
            a,
            c,
            SocketEvent::FromClient(Some(Frame::Text(Some(m)))),
            mono_ms,
            now,
        ) ==> a is SendAndPing && a->SendAndPing_0.message_type@ == "KeepAlive"@,
{
}

/// What a client asks of its group is passed on to it: to play from a place, to
/// pause, to seek to a place, that it waits for data and that it is ready. Ticks
/// become milliseconds.
pub proof fn law_members_drive_the_group(a: InboundAction, m: Inbound)
    requires
        inbound_action(a, m, true),
    ensures
        m.message_type@ == "SyncPlayPlay"@ && m.play is Some ==> a == InboundAction::Tell(
            GroupCommand::LeaderPlay {
                position_ms: (m.play->0.playback_position_ticks / 10_000) as u64,
            },
        ),
        m.message_type@ == "SyncPlayPause"@ ==> a == InboundAction::Tell(GroupCommand::LeaderPause),
        m.message_type@ == "SyncPlaySeek"@ && m.seek is Some ==> a == InboundAction::Tell(
            GroupCommand::LeaderSeek { position_ms: (m.seek->0.position_ticks / 10_000) as u64 },
        ),
        m.message_type@ == "SyncPlayBuffering"@ ==> a matches InboundAction::Tell(
            GroupCommand::BufferingStart { .. },
        ),
        m.message_type@ == "SyncPlayReady"@ ==> a == InboundAction::Tell(
            GroupCommand::BufferingEnd,
        ),
        m.message_type@ == "SyncPlayLeaveGroup"@ ==> a is LeaveGroup,
        m.message_type@ == "SyncPlayJoinGroup"@ && m.join is Some ==> a is JoinGroup
            && a->group_id@ == m.join->0.group_id@,
        m.message_type@ == "SyncPlayCreateGroup"@ ==> a is Ignore,
{
    lemma_message_types();
}

/// A client in no group can found one or join one, and nothing else.
pub proof fn law_outsiders_only_join(a: InboundAction, m: Inbound)
    requires
        inbound_action(a, m, false),
    ensures
        m.message_type@ == "SyncPlayCreateGroup"@ ==> a is CreateGroup,
        m.message_type@ == "SyncPlayJoinGroup"@ && m.join is Some ==> a is JoinGroup
            && a->group_id@ == m.join->0.group_id@,
        m.message_type@ != "SyncPlayCreateGroup"@ && m.message_type@ != "SyncPlayJoinGroup"@
            ==> a is Ignore,
{
    lemma_message_types();
}

proof fn lemma_message_types()
    ensures
        "SyncPlayCreateGroup"@.len() == 19,
        "SyncPlayJoinGroup"@.len() == 17,
        "SyncPlayLeaveGroup"@.len() == 18,
        "SyncPlayPlay"@.len() == 12,
        "SyncPlayPause"@.len() == 13 && "SyncPlayPause"@[9] == 'a',
        "SyncPlayUnpause"@.len() == 15,
        "SyncPlaySeek"@.len() == 12,
        "SyncPlayPlay"@[8] == 'P' && "SyncPlaySeek"@[8] == 'S',
        "SyncPlayBuffering"@.len() == 17,
        "SyncPlayBuffering"@[8] == 'B' && "SyncPlayJoinGroup"@[8] == 'J',
        "SyncPlayReady"@.len() == 13,
        "SyncPlayReady"@[8] == 'R' && "SyncPlayPause"@[8] == 'P',
{
    reveal_strlit("SyncPlayCreateGroup");
    reveal_strlit("SyncPlayJoinGroup");
    reveal_strlit("SyncPlayLeaveGroup");
    reveal_strlit("SyncPlayPlay");
    reveal_strlit("SyncPlayPause");
    reveal_strlit("SyncPlayUnpause");
    reveal_strlit("SyncPlaySeek");
    reveal_strlit("SyncPlayBuffering");
    reveal_strlit("SyncPlayReady");
}

/// A change to the library, and a command for a session, goes to every socket; a
/// change to a user's records, and how far they have got, to that user's.
pub proof fn law_broadcasts_reach_their_users<V>(
    a: SocketAction<V>,
    c: Connection,
    b: SocketBroadcast<V>,
    mono_ms: u64,
    now: i64,
)
    requires
        reaction(a, c, SocketEvent::Broadcast(Some(b)), mono_ms, now),
    ensures
        b matches SocketBroadcast::LibraryChanged { added, removed } ==> a is Send
            && a->Send_0.message_type@ == "LibraryChanged"@ && (
        a->Send_0.data matches Payload::LibraryChanged { items_added, items_removed, .. }
            && items_added == added && items_removed == removed),
        b matches SocketBroadcast::UserDataChanged { user_id, entries } ==> (user_id@
            == c.bound_user_id@ ==> a is Send && a->Send_0.message_type@ == "UserDataChanged"@ && (
        a->Send_0.data matches Payload::UserDataChanged { user_data_list, .. } && user_data_list
            == entries)) && (user_id@ != c.bound_user_id@ ==> a is Wait),
        b matches SocketBroadcast::PlaybackProgress { user_id, item_id, position_ticks, is_paused, .. }
            ==> (user_id@ == c.bound_user_id@ ==> a is Send && a->Send_0.message_type@
            == "Sessions"@ && (a->Send_0.data matches Payload::Sessions {
            item_id: i,
            position_ticks: p,
            is_paused: z,
            ..
        } && i == item_id && p == position_ticks && z == is_paused)) && (user_id@
            != c.bound_user_id@ ==> a is Wait),
        b matches SocketBroadcast::SessionCommand { session_id, command, seek_position_ticks, .. }
            ==> a is Send && (command@ == "Pause"@ || command@ == "Unpause"@ || command@ == "Stop"@
            || command@ == "Seek"@ || command@ == "PlayPause"@ || command@ == "NextTrack"@ || command@
            == "PreviousTrack"@ ==> a->Send_0.message_type@ == "PlayState"@ && (
        a->Send_0.data matches Payload::PlayState {
            session_id: s,
            command: k,
            seek_position_ticks: t,
        } && s == session_id && k == command && t == seek_position_ticks)),
{
    let n = playstate_names();
    assert(n[1] == "Pause"@ && n[2] == "Unpause"@ && n[3] == "PlayPause"@ && n[4] == "Stop"@ && n[5]
        == "Seek"@ && n[6] == "NextTrack"@ && n[7] == "PreviousTrack"@);
}

/// A command that does not drive playback is passed on as a general one, by its
/// name and with what it carries.
pub proof fn law_general_commands_are_passed_on<V>(
    a: SocketAction<V>,
    c: Connection,
    b: SocketBroadcast<V>,
    mono_ms: u64,
    now: i64,
)
    requires
        reaction(a, c, SocketEvent::Broadcast(Some(b)), mono_ms, now),
        b is SessionCommand,
        b->command@ == "SetVolume"@ || b->command@ == "DisplayMessage"@ || b->command@
            == "ToggleMute"@,
    ensures
        a is Send && a->Send_0.message_type@ == "GeneralCommand"@,
        a->Send_0.data matches Payload::GeneralCommand { session_id, name, arguments } && session_id
            == b->SessionCommand_session_id && name == b->command && arguments == b->arg,
{
    let n = playstate_names();
    reveal_strlit("SetVolume");
    reveal_strlit("DisplayMessage");
    reveal_strlit("ToggleMute");
    reveal_strlit("Play");
    reveal_strlit("Pause");
    reveal_strlit("Unpause");
    reveal_strlit("PlayPause");
    reveal_strlit("Stop");
    reveal_strlit("Seek");
    reveal_strlit("NextTrack");
    reveal_strlit("PreviousTrack");
    reveal_strlit("Rewind");
    reveal_strlit("FastForward");
    assert("SetVolume"@.len() == 9 && "SetVolume"@[0] == 'S');
    assert("NextTrack"@[0] == 'N' && "PlayPause"@[0] == 'P');
    assert("SetVolume"@ != "NextTrack"@ && "SetVolume"@ != "PlayPause"@);
    assert("DisplayMessage"@.len() == 14 && "ToggleMute"@.len() == 10);
    assert("Play"@.len() == 4 && "Pause"@.len() == 5 && "Unpause"@.len() == 7 && "PlayPause"@.len()
        == 9 && "Stop"@.len() == 4 && "Seek"@.len() == 4 && "NextTrack"@.len() == 9
        && "PreviousTrack"@.len() == 13 && "Rewind"@.len() == 6 && "FastForward"@.len() == 11);
    if n.contains(b->command@) {
        let k = choose|k: int| 0 <= k < n.len() && n[k] == b->command@;
        assert(n[0] == "Play"@ && n[1] == "Pause"@ && n[2] == "Unpause"@ && n[3] == "PlayPause"@
            && n[4] == "Stop"@ && n[5] == "Seek"@ && n[6] == "NextTrack"@ && n[7]
            == "PreviousTrack"@ && n[8] == "Rewind"@ && n[9] == "FastForward"@);
    }
}

/// An encoded byte is read back from its two digits, a plus is a blank, and all
/// else stands for itself.
pub proof fn law_query_values_are_decoded(b: u8, hi: u8, lo: u8, rest: Seq<u8>)
    ensures
        b != 37 && b != 43 ==> decoded(seq![b] + rest) == seq![b] + decoded(rest),
        decoded(seq![43u8] + rest) == seq![32u8] + decoded(rest),
        decoded(Seq::empty()) == Seq::<u8>::empty(),
        48 <= hi <= 57 && 48 <= lo <= 57 ==> decoded(seq![37u8, hi, lo] + rest) == seq![
            ((hi - 48) * 16 + (lo - 48)) as u8,
        ] + decoded(rest),
        48 <= hi <= 57 && 65 <= lo <= 70 ==> decoded(seq![37u8, hi, lo] + rest) == seq![
            ((hi - 48) * 16 + (lo - 65 + 10)) as u8,
        ] + decoded(rest),
        48 <= hi <= 57 && 97 <= lo <= 102 ==> decoded(seq![37u8, hi, lo] + rest) == seq![
            ((hi - 48) * 16 + (lo - 97 + 10)) as u8,
        ] + decoded(rest),
        97 <= hi <= 102 && 97 <= lo <= 102 ==> decoded(seq![37u8, hi, lo] + rest) == seq![
            ((hi - 97 + 10) * 16 + (lo - 97 + 10)) as u8,
        ] + decoded(rest),
{
    let s = seq![b] + rest;
    assert(s.subrange(1, s.len() as int) =~= rest);
    let p = seq![43u8] + rest;
    assert(p.subrange(1, p.len() as int) =~= rest);
    let t = seq![37u8, hi, lo] + rest;
    assert(t[1] == hi && t[2] == lo);
    assert(t.subrange(3, t.len() as int) =~= rest);
}

} // verus!
