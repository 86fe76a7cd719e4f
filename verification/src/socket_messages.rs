//! What travels over the web socket.

use vstd::prelude::*;
use crate::ids::{self, random_id};

verus! {

/// What a client sends when it joins a group.
#[derive(Debug)]
pub struct SyncPlayJoinData {
    pub group_id: String,
}

/// What a client sends when it starts playback.
#[derive(Debug, Clone, Copy, PartialEq, Eq, Structural)]
pub struct SyncPlayPlayData {
    pub playback_position_ticks: u64,
}

/// What a client sends when it seeks.
#[derive(Debug, Clone, Copy, PartialEq, Eq, Structural)]
pub struct SyncPlaySeekData {
    pub position_ticks: u64,
}

/// What a client sends when it is buffering.
#[derive(Debug, Clone, Copy, PartialEq, Eq, Structural)]
pub struct SyncPlayBufferingData {
    pub is_playing: bool,
    pub playback_position_ticks: u64,
}

/// A playback command to the members of a group. The two moments are in
/// milliseconds since 1970.
#[derive(Debug)]
pub struct CommandData {
    pub group_id: String,
    pub command: &'static str,
    pub position_ticks: Option<u64>,
    pub when_unix_ms: u64,
    pub emitted_at_unix_ms: i64,
    pub playlist_item_id: String,
}

/// An entry of the group's queue.
#[derive(Debug)]
pub struct QueuePlaylistItem {
    pub item_id: String,
    pub playlist_item_id: String,
}

/// The group's queue.
#[derive(Debug)]
pub struct PlayQueueUpdate {
    pub reason: &'static str,
    pub last_update_unix_ms: u64,
    pub playlist: Vec<QueuePlaylistItem>,
    pub playing_item_index: usize,
    pub start_position_ticks: u64,
    pub is_playing: bool,
    pub shuffle_mode: String,
    pub repeat_mode: String,
}

/// What a group update tells.
#[derive(Debug)]
pub enum UpdateBody {
    Info {
        group_id: String,
        group_name: &'static str,
        state: &'static str,
        participants: Vec<String>,
        last_updated_unix_ms: i64,
    },
    Name(String),
    State { state: &'static str, reason: String },
    Queue(PlayQueueUpdate),
    Nothing,
}

/// An update to the members of a group.
#[derive(Debug)]
pub struct GroupUpdateData {
    pub kind: &'static str,
    pub group_id: String,
    pub data: UpdateBody,
}

/// What a message to a client carries. `V` is whatever values are passed on as
/// they came.
#[derive(Debug)]
pub enum Payload<V> {
    Nothing,
    Number(u64),
    Command(CommandData),
    GroupUpdate(GroupUpdateData),
    LibraryChanged { items_added: Vec<String>, items_removed: Vec<String>, is_empty: bool },
    UserDataChanged { user_id: String, user_data_list: Vec<V> },
    PlayState { session_id: String, command: String, seek_position_ticks: Option<V> },
    GeneralCommand { session_id: String, name: String, arguments: V },
    Sessions {
        id: String,
        user_id: String,
        item_id: String,
        position_ticks: u64,
        is_paused: bool,
    },
}

/// A message to a client.
#[derive(Debug)]
pub struct Outbound<V> {
    pub message_type: &'static str,
    pub message_id: String,
    pub data: Payload<V>,
}

/// A message from a client: its type, and its payload read as each of the
/// shapes that a payload can have.
#[derive(Debug)]
pub struct Inbound {
    pub message_type: String,
    pub message_id: Option<String>,
    pub join: Option<SyncPlayJoinData>,
    pub play: Option<SyncPlayPlayData>,
    pub seek: Option<SyncPlaySeekData>,
}

impl<V> Outbound<V> {
    /// A message with an id of its own.
    pub fn new(message_type: &'static str, data: Payload<V>) -> (r: Self)
        ensures
            r.message_type@ == message_type@,
            r.data == data,
            r.message_id@.len() == 32,
            forall|i: int| 0 <= i < 32 ==> ids::is_lower_hex(#[trigger] r.message_id@[i]),
    {
        Outbound { message_type, message_id: random_id(), data }
    }
}

} // verus!
