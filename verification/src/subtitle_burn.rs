//! Whether a video segment draws a subtitle into the picture, and why.

use std::collections::BTreeSet;
use vstd::prelude::*;
use crate::stream_select;
use crate::subtitles::{self, is_image_subtitle_codec, is_text_subtitle_codec};

verus! {

broadcast use vstd::std_specs::btree::group_btree_axioms;

/// The verdict for one segment request.
#[derive(Debug, Clone, Copy, PartialEq, Eq, Structural)]
pub enum BurnVerdict {
    /// No subtitle was asked for.
    NotRequested,
    /// There is no such track.
    UnknownTrack,
    /// The track is neither text nor a known bitmap format.
    UnsupportedCodec,
    /// A bitmap subtitle has no other way to be shown.
    ImageSubtitle,
    /// A text subtitle that the client cannot render.
    ClientCannotRenderText,
    /// A text subtitle that the client renders itself.
    ClientRendersTextItself,
    /// A text subtitle, and nothing known of the client.
    TextNoSession,
}

impl BurnVerdict {
    /// Whether the verdict is to draw.
    pub open spec fn draws(self) -> bool {
        self is ImageSubtitle || self is ClientCannotRenderText || self is TextNoSession
    }

    pub open spec fn name(self) -> Seq<char> {
        match self {
            BurnVerdict::NotRequested => "not_requested"@,
            BurnVerdict::UnknownTrack => "unknown_track"@,
            BurnVerdict::UnsupportedCodec => "unsupported_codec"@,
            BurnVerdict::ImageSubtitle => "image_subtitle"@,
            BurnVerdict::ClientCannotRenderText => "client_cannot_render_text"@,
            BurnVerdict::ClientRendersTextItself => "client_renders_text_itself"@,
            BurnVerdict::TextNoSession => "text_no_session"@,
        }
    }

    /// Whether the verdict is to draw.
    pub fn burns(self) -> (r: bool)
        ensures
            r == self.draws(),
    {
        match self {
            BurnVerdict::ImageSubtitle => true,
            BurnVerdict::ClientCannotRenderText => true,
            BurnVerdict::TextNoSession => true,
            _ => false,
        }
    }

    /// The name that the verdict is counted under.
    pub fn label(self) -> (r: &'static str)
        ensures
            r@ == self.name(),
    {
        match self {
            BurnVerdict::NotRequested => "not_requested",
            BurnVerdict::UnknownTrack => "unknown_track",
            BurnVerdict::UnsupportedCodec => "unsupported_codec",
            BurnVerdict::ImageSubtitle => "image_subtitle",
            BurnVerdict::ClientCannotRenderText => "client_cannot_render_text",
            BurnVerdict::ClientRendersTextItself => "client_renders_text_itself",
            BurnVerdict::TextNoSession => "text_no_session",
        }
    }
}

/// The verdict on a request. `burn_indices` is the set of tracks that this
/// client cannot render; it is absent where nothing is known of the client.
pub open spec fn verdict(
    codec: Option<Seq<char>>,
    requested: Option<u32>,
    burn_indices: Option<Set<u32>>,
) -> BurnVerdict {
    match (requested, codec) {
        (None, _) => BurnVerdict::NotRequested,
        (Some(_), None) => BurnVerdict::UnknownTrack,
        (Some(index), Some(c)) => if subtitles::image_codec(c) {
            BurnVerdict::ImageSubtitle
        } else if !subtitles::text_codec(c) {
            BurnVerdict::UnsupportedCodec
        } else {
            match burn_indices {
                Some(set) => if set.contains(index) {
                    BurnVerdict::ClientCannotRenderText
                } else {
                    BurnVerdict::ClientRendersTextItself
                },
                None => BurnVerdict::TextNoSession,
            }
        },
    }
}

/// Decides whether a segment must draw the subtitle that was asked for.
pub fn decide_segment_burn(
    codec: Option<&str>,
    requested_abs_index: Option<u32>,
    burn_indices: Option<&BTreeSet<u32>>,
) -> (r: BurnVerdict)
    ensures
        r == verdict(
            stream_select::opt_str(codec),
            requested_abs_index,
            match burn_indices {
                Some(s) => Some(s@),
                None => None,
            },
        ),
{
    let index: u32 = match requested_abs_index {
        Some(i) => i,
        None => {
            return BurnVerdict::NotRequested;
        },
    };
    let name = match codec {
        Some(c) => c,
        None => {
            return BurnVerdict::UnknownTrack;
        },
    };
    if is_image_subtitle_codec(name) {
        return BurnVerdict::ImageSubtitle;
    }
    if !is_text_subtitle_codec(name) {
        return BurnVerdict::UnsupportedCodec;
    }
    match burn_indices {
        Some(set) => if set.contains(&index) {
            BurnVerdict::ClientCannotRenderText
        } else {
            BurnVerdict::ClientRendersTextItself
        },
        None => BurnVerdict::TextNoSession,
    }
}

// ------------------------------------------------------------------------ laws

/// No two verdicts share a label.
pub proof fn law_labels_are_distinct(a: BurnVerdict, b: BurnVerdict)
    requires
        a.name() == b.name(),
    ensures
        a == b,
{
    reveal_strlit("not_requested");
    reveal_strlit("unknown_track");
    reveal_strlit("unsupported_codec");
    reveal_strlit("image_subtitle");
    reveal_strlit("client_cannot_render_text");
    reveal_strlit("client_renders_text_itself");
    reveal_strlit("text_no_session");
    assert("not_requested"@.len() == 13 && "unknown_track"@.len() == 13);
    assert("unsupported_codec"@.len() == 17 && "image_subtitle"@.len() == 14);
    assert("client_cannot_render_text"@.len() == 25);
    assert("client_renders_text_itself"@.len() == 26);
    assert("text_no_session"@.len() == 15);
    assert("not_requested"@[0] == 'n' && "unknown_track"@[0] == 'u');
}

/// A bitmap subtitle is drawn whatever the client can do; a text one that the
/// client renders itself never is.
pub proof fn law_what_is_drawn(codec: Seq<char>, index: u32, set: Set<u32>)
    ensures
        subtitles::image_codec(codec) ==> verdict(Some(codec), Some(index), Some(set)).draws()
            && verdict(Some(codec), Some(index), None).draws(),
        !subtitles::image_codec(codec) && !set.contains(index) ==> !verdict(
            Some(codec),
            Some(index),
            Some(set),
        ).draws(),
{
}

/// Nothing is drawn that was not asked for or that is not there. A text that the
/// client cannot render is drawn, and so is one where nothing is known of the
/// client.
pub proof fn law_what_is_asked_for_is_drawn(codec: Seq<char>, index: u32, set: Set<u32>)
    ensures
        verdict(Some(codec), None, Some(set)) is NotRequested,
        verdict(None, Some(index), Some(set)) is UnknownTrack,
        !verdict(Some(codec), None, Some(set)).draws() && !verdict(None, Some(index), None).draws(),
        !subtitles::image_codec(codec) && subtitles::text_codec(codec) && set.contains(index)
            ==> verdict(Some(codec), Some(index), Some(set)) is ClientCannotRenderText && verdict(
            Some(codec),
            Some(index),
            Some(set),
        ).draws(),
        !subtitles::image_codec(codec) && subtitles::text_codec(codec) && !set.contains(index)
            ==> verdict(Some(codec), Some(index), Some(set)) is ClientRendersTextItself,
        !subtitles::image_codec(codec) && subtitles::text_codec(codec) ==> verdict(
            Some(codec),
            Some(index),
            None,
        ) is TextNoSession && verdict(Some(codec), Some(index), None).draws(),
        !subtitles::image_codec(codec) && !subtitles::text_codec(codec) ==> verdict(
            Some(codec),
            Some(index),
            Some(set),
        ) is UnsupportedCodec && !verdict(Some(codec), Some(index), None).draws(),
{
}

} // verus!
