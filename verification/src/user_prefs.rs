//! The track preferences that a user has configured.

use vstd::prelude::*;
use crate::stream_select::{self, normalize_language, SubtitleMode};
use crate::text::{self, eq_ignore_case};

verus! {

/// What a user has configured, as far as tracks go.
#[derive(Debug)]
pub struct UserConfiguration {
    pub audio_language_preference: String,
    pub subtitle_language_preference: String,
    pub subtitle_mode: String,
    pub play_default_audio_track: bool,
    pub remember_audio_selections: bool,
    pub remember_subtitle_selections: bool,
}

impl Default for UserConfiguration {
    /// What holds until something is configured.
    fn default() -> (r: Self)
        ensures
            r.audio_language_preference@.len() == 0,
            r.subtitle_language_preference@.len() == 0,
            r.subtitle_mode@ == "Default"@,
            r.play_default_audio_track,
            r.remember_audio_selections,
            r.remember_subtitle_selections,
    {
        UserConfiguration {
            audio_language_preference: String::new(),
            subtitle_language_preference: String::new(),
            subtitle_mode: "Default".to_owned(),
            play_default_audio_track: true,
            remember_audio_selections: true,
            remember_subtitle_selections: true,
        }
    }
}

/// What track selection needs to know of a user.
#[derive(Debug)]
pub struct TrackPreference {
    pub audio_languages: Vec<String>,
    pub subtitle_languages: Vec<String>,
    pub subtitle_mode: SubtitleMode,
    pub prefer_default_audio_track: bool,
    pub remember_audio: bool,
    pub remember_subtitle: bool,
    pub audio_original_language: bool,
}

/// Whether the user wants whatever language a title was made in.
pub open spec fn wants_original(preference: Seq<char>) -> bool {
    text::eq_ci(preference, "originallanguage"@)
}

impl TrackPreference {
    /// Whether these are the preferences that a configuration amounts to.
    pub open spec fn is_for(self, cfg: UserConfiguration) -> bool {
        &&& self.audio_original_language == wants_original(cfg.audio_language_preference@)
        &&& text::texts(self.audio_languages@) == (if wants_original(
            cfg.audio_language_preference@,
        ) {
            Seq::empty()
        } else {
            stream_select::tags_of(cfg.audio_language_preference@)
        })
        &&& text::texts(self.subtitle_languages@) == stream_select::tags_of(
            cfg.subtitle_language_preference@,
        )
        &&& self.subtitle_mode == stream_select::mode_named(cfg.subtitle_mode@)
        &&& self.prefer_default_audio_track == cfg.play_default_audio_track
        &&& self.remember_audio == cfg.remember_audio_selections
        &&& self.remember_subtitle == cfg.remember_subtitle_selections
    }

    /// Whether these are the preferences of a user who has configured nothing.
    pub open spec fn is_stock(self) -> bool {
        &&& self.audio_languages@.len() == 0
        &&& self.subtitle_languages@.len() == 0
        &&& self.subtitle_mode == SubtitleMode::Default
        &&& self.prefer_default_audio_track
        &&& self.remember_audio
        &&& self.remember_subtitle
        &&& !self.audio_original_language
    }

    /// Turns a configuration into preferences.
    pub fn from_configuration(cfg: &UserConfiguration) -> (r: Self)
        ensures
            r.is_for(*cfg),
    {
        let original = eq_ignore_case(cfg.audio_language_preference.as_str(), "originallanguage");
        let audio_languages: Vec<String> = if original {
            Vec::new()
        } else {
            normalize_language(cfg.audio_language_preference.as_str())
        };
        proof {
            if original {
                assert(text::texts(audio_languages@) == Seq::<Seq<char>>::empty());
            }
        }
        TrackPreference {
            audio_languages,
            subtitle_languages: normalize_language(cfg.subtitle_language_preference.as_str()),
            subtitle_mode: SubtitleMode::from_config(cfg.subtitle_mode.as_str()),
            prefer_default_audio_track: cfg.play_default_audio_track,
            remember_audio: cfg.remember_audio_selections,
            remember_subtitle: cfg.remember_subtitle_selections,
            audio_original_language: original,
        }
    }

    /// The audio languages for an item, given the one it was made in.
    pub fn audio_languages_for(&self, original_language: Option<&str>) -> (r: Vec<String>)
        ensures
            text::texts(r@) == (match stream_select::opt_str(original_language) {
                Some(l) if self.audio_original_language => stream_select::tags_of(l),
                _ => text::texts(self.audio_languages@),
            }),
    {
        match original_language {
            Some(l) if self.audio_original_language => normalize_language(l),
            _ => copy_texts(&self.audio_languages),
        }
    }
}

impl Default for TrackPreference {
    /// The preferences of a user who has configured nothing.
    fn default() -> (r: Self)
        ensures
            r.is_stock(),
    {
        TrackPreference {
            audio_languages: Vec::new(),
            subtitle_languages: Vec::new(),
            subtitle_mode: SubtitleMode::Default,
            prefer_default_audio_track: true,
            remember_audio: true,
            remember_subtitle: true,
            audio_original_language: false,
        }
    }
}

fn copy_texts(v: &Vec<String>) -> (r: Vec<String>)
    ensures
        text::texts(r@) == text::texts(v@),
{
    let mut out: Vec<String> = Vec::new();
    let mut i: usize = 0;
    while i < v.len()
        invariant
            i <= v.len(),
            text::texts(out@) == text::texts(v@).take(i as int),
        decreases v.len() - i,
    {
        let s = v[i].clone();
        let ghost before = out@;
        out.push(s);
        proof {
            assert(text::texts(out@) == text::texts(before).push(s@));
            assert(text::texts(v@).take(i + 1) == text::texts(v@).take(i as int).push(v@[i as int]@));
        }
        i += 1;
    }
    proof {
        assert(text::texts(v@).take(i as int) == text::texts(v@));
    }
    out
}

/// The preferences of a user: those of the configuration on record, or the
/// stock ones where there is none or it could not be read.
pub fn track_preference(stored: Option<UserConfiguration>) -> (r: TrackPreference)
    ensures
        match stored {
            Some(cfg) => r.is_for(cfg),
            None => r.is_stock(),
        },
{
    match stored {
        Some(cfg) => TrackPreference::from_configuration(&cfg),
        None => TrackPreference::default(),
    }
}

/// What the operator has set for new users.
#[derive(Debug)]
pub struct UserDefaults {
    pub audio_language_preference: String,
    pub subtitle_language_preference: String,
    pub subtitle_mode: String,
    pub play_default_audio_track: bool,
}

/// Whether the operator has left everything as it is.
pub open spec fn stock_defaults(d: UserDefaults) -> bool {
    &&& d.audio_language_preference@.len() == 0
    &&& d.subtitle_language_preference@.len() == 0
    &&& d.subtitle_mode@ == "Default"@
    &&& d.play_default_audio_track
}

/// The configuration that a new account starts with: none where the operator
/// has set nothing.
pub fn seed_default_configuration(d: &UserDefaults) -> (r: Option<UserConfiguration>)
    ensures
        match r {
            Some(cfg) => !stock_defaults(*d) && cfg.audio_language_preference@
                == d.audio_language_preference@ && cfg.subtitle_language_preference@
                == d.subtitle_language_preference@ && cfg.subtitle_mode@ == d.subtitle_mode@
                && cfg.play_default_audio_track == d.play_default_audio_track
                && cfg.remember_audio_selections && cfg.remember_subtitle_selections,
            None => stock_defaults(*d),
        },
{
    if d.audio_language_preference.as_str().is_empty()
        && d.subtitle_language_preference.as_str().is_empty() && text::eq_text(
        d.subtitle_mode.as_str(),
        "Default",
    ) && d.play_default_audio_track {
        return None;
    }
    Some(
        UserConfiguration {
            audio_language_preference: d.audio_language_preference.clone(),
            subtitle_language_preference: d.subtitle_language_preference.clone(),
            subtitle_mode: d.subtitle_mode.clone(),
            play_default_audio_track: d.play_default_audio_track,
            remember_audio_selections: true,
            remember_subtitle_selections: true,
        },
    )
}

/// A user whose configuration is the untouched one has the stock preferences.
pub proof fn law_an_untouched_configuration_is_stock(cfg: UserConfiguration, p: TrackPreference)
    requires
        cfg.audio_language_preference@.len() == 0,
        cfg.subtitle_language_preference@.len() == 0,
        cfg.subtitle_mode@ == "Default"@,
        cfg.play_default_audio_track,
        cfg.remember_audio_selections,
        cfg.remember_subtitle_selections,
        p.is_for(cfg),
    ensures
        p.is_stock(),
{
    reveal_strlit("originallanguage");
    reveal_strlit("Default");
    reveal_strlit("always");
    reveal_strlit("onlyforced");
    reveal_strlit("none");
    reveal_strlit("smart");
    let m = cfg.subtitle_mode@;
    assert(text::trim(m) == m);
    assert(text::lower(m).len() == 7);
    assert(text::lower(m)[0] == 'd');
    assert(text::texts(p.audio_languages@).len() == 0);
    assert(text::texts(p.subtitle_languages@).len() == 0);
    assert(text::lower(cfg.audio_language_preference@).len() == 0);
    assert(text::lower("originallanguage"@).len() == 16);
}

/// What a user has configured is what counts: a fixed language as all of its
/// tags, the language that a title was made in as none yet, and each switch and
/// mode as it is set.
pub proof fn law_configurations_count(p: TrackPreference, cfg: UserConfiguration)
    requires
        p.is_for(cfg),
    ensures
        text::lower(cfg.audio_language_preference@) == "originallanguage"@
            ==> p.audio_original_language && p.audio_languages@.len() == 0,
        text::lower(cfg.audio_language_preference@) != "originallanguage"@
            ==> !p.audio_original_language && text::texts(p.audio_languages@)
            == stream_select::tags_of(cfg.audio_language_preference@),
        text::texts(p.subtitle_languages@) == stream_select::tags_of(
            cfg.subtitle_language_preference@,
        ),
        p.prefer_default_audio_track == cfg.play_default_audio_track,
        p.remember_audio == cfg.remember_audio_selections,
        p.remember_subtitle == cfg.remember_subtitle_selections,
        p.subtitle_mode == SubtitleMode::Smart <==> text::eq_ci(
            text::trim(cfg.subtitle_mode@),
            "Smart"@,
        ),
        p.subtitle_mode == SubtitleMode::Always <==> text::eq_ci(
            text::trim(cfg.subtitle_mode@),
            "Always"@,
        ),
        p.subtitle_mode == SubtitleMode::OnlyForced <==> text::eq_ci(
            text::trim(cfg.subtitle_mode@),
            "OnlyForced"@,
        ),
        p.subtitle_mode == SubtitleMode::Off <==> text::eq_ci(
            text::trim(cfg.subtitle_mode@),
            "None"@,
        ),
{
    stream_select::law_modes_have_names(cfg.subtitle_mode@);
    reveal_strlit("originallanguage");
    assert(text::lower("originallanguage"@) =~= "originallanguage"@);
    assert(text::texts(p.audio_languages@).len() == p.audio_languages@.len());
}

/// An operator who has set a language, a mode or the choice of tracks has set
/// something; one who has set none of them has not.
pub proof fn law_new_accounts_take_what_was_set(d: UserDefaults)
    ensures
        d.audio_language_preference@.len() > 0 ==> !stock_defaults(d),
        d.subtitle_language_preference@.len() > 0 ==> !stock_defaults(d),
        d.subtitle_mode@ != "Default"@ ==> !stock_defaults(d),
        !d.play_default_audio_track ==> !stock_defaults(d),
        d.audio_language_preference@.len() == 0 && d.subtitle_language_preference@.len() == 0
            && d.subtitle_mode@ == "Default"@ && d.play_default_audio_track ==> stock_defaults(d),
{
}

} // verus!
