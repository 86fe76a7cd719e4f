use vstd::prelude::*;

pub mod answer;
pub mod browse;
pub mod client_log;
pub mod dates;
pub mod entities;
pub mod folder_items;
pub mod folders;
pub mod ids;
pub mod item_pages;
pub mod library;
pub mod lines;
pub mod live_tv;
pub mod media;
pub mod music;
pub mod parents;
pub mod path_text;
pub mod playback;
pub mod playlists;
pub mod query_string;
pub mod remote_items;
pub mod search;
pub mod seek;
pub mod seqs;
pub mod sessions;
pub mod shows;
pub mod shuffle;
pub mod sidecar_cache;
pub mod similar_music;
pub mod single_flight;
pub mod socket;
pub mod socket_messages;
pub mod sort;
pub mod stream;
pub mod stream_select;
pub mod subtitle_burn;
pub mod subtitle_delivery;
pub mod subtitles;
pub mod syncplay;
pub mod system;
pub mod text;
pub mod text_sets;
pub mod trickplay;
pub mod user_data;
pub mod user_prefs;
pub mod users;
pub mod waveform;
pub mod wire;

verus! {

} // verus!
