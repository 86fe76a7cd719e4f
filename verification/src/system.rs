//! Settings, lists and segments that clients ask the server for.

use vstd::prelude::*;
use vstd::string::*;
use crate::answer::{ApiError, Refusal};
use crate::browse;
use crate::subtitles::{self, to_json_quoted};
use crate::text::{self, decimal_text, eq_text, has_part, has_prefix, to_lower, trimmed};

verus! {

// ------------------------------------------------------------------- languages

/// A language that clients offer.
#[derive(Debug, Clone, Copy)]
pub struct Culture {
    pub name: &'static str,
    pub display_name: &'static str,
    pub two_letter_iso_language_name: &'static str,
    pub three_letter_iso_language_name: &'static str,
}

/// A language's name and its two codes.
pub type CultureTexts = (Seq<char>, Seq<char>, Seq<char>);

impl Culture {
    pub open spec fn texts(self) -> CultureTexts {
        (self.name@, self.two_letter_iso_language_name@, self.three_letter_iso_language_name@)
    }

    /// A language, shown under its own name.
    pub fn new(name: &'static str, two: &'static str, three: &'static str) -> (r: Self)
        ensures
            r.texts() == (name@, two@, three@),
            r.display_name@ == name@,
    {
        Culture {
            name,
            display_name: name,
            two_letter_iso_language_name: two,
            three_letter_iso_language_name: three,
        }
    }
}

pub open spec fn culture_texts(v: Seq<Culture>) -> Seq<CultureTexts> {
    Seq::new(v.len(), |i: int| v[i].texts())
}

/// The languages that clients offer, by name and codes.
pub open spec fn cultures() -> Seq<CultureTexts> {
    seq![
        ("English"@, "en"@, "eng"@),
        ("Spanish"@, "es"@, "spa"@),
        ("French"@, "fr"@, "fre"@),
        ("German"@, "de"@, "ger"@),
        ("Italian"@, "it"@, "ita"@),
        ("Portuguese"@, "pt"@, "por"@),
        ("Dutch"@, "nl"@, "dut"@),
        ("Russian"@, "ru"@, "rus"@),
        ("Polish"@, "pl"@, "pol"@),
        ("Turkish"@, "tr"@, "tur"@),
        ("Czech"@, "cs"@, "cze"@),
        ("Swedish"@, "sv"@, "swe"@),
        ("Norwegian"@, "no"@, "nor"@),
        ("Danish"@, "da"@, "dan"@),
        ("Finnish"@, "fi"@, "fin"@),
        ("Greek"@, "el"@, "gre"@),
        ("Hungarian"@, "hu"@, "hun"@),
        ("Romanian"@, "ro"@, "rum"@),
        ("Arabic"@, "ar"@, "ara"@),
        ("Hebrew"@, "he"@, "heb"@),
        ("Hindi"@, "hi"@, "hin"@),
        ("Japanese"@, "ja"@, "jpn"@),
        ("Korean"@, "ko"@, "kor"@),
        ("Chinese"@, "zh"@, "chi"@),
        ("Vietnamese"@, "vi"@, "vie"@),
        ("Thai"@, "th"@, "tha"@),
        ("Ukrainian"@, "uk"@, "ukr"@),
        ("Indonesian"@, "id"@, "ind"@),
    ]
}

/// The languages that clients offer.
pub fn localization_cultures() -> (r: Vec<Culture>)
    ensures
        culture_texts(r@) == cultures(),
{
    let r: Vec<Culture> = vec![
        Culture::new("English", "en", "eng"),
        Culture::new("Spanish", "es", "spa"),
        Culture::new("French", "fr", "fre"),
        Culture::new("German", "de", "ger"),
        Culture::new("Italian", "it", "ita"),
        Culture::new("Portuguese", "pt", "por"),
        Culture::new("Dutch", "nl", "dut"),
        Culture::new("Russian", "ru", "rus"),
        Culture::new("Polish", "pl", "pol"),
        Culture::new("Turkish", "tr", "tur"),
        Culture::new("Czech", "cs", "cze"),
        Culture::new("Swedish", "sv", "swe"),
        Culture::new("Norwegian", "no", "nor"),
        Culture::new("Danish", "da", "dan"),
        Culture::new("Finnish", "fi", "fin"),
        Culture::new("Greek", "el", "gre"),
        Culture::new("Hungarian", "hu", "hun"),
        Culture::new("Romanian", "ro", "rum"),
        Culture::new("Arabic", "ar", "ara"),
        Culture::new("Hebrew", "he", "heb"),
        Culture::new("Hindi", "hi", "hin"),
        Culture::new("Japanese", "ja", "jpn"),
        Culture::new("Korean", "ko", "kor"),
        Culture::new("Chinese", "zh", "chi"),
        Culture::new("Vietnamese", "vi", "vie"),
        Culture::new("Thai", "th", "tha"),
        Culture::new("Ukrainian", "uk", "ukr"),
        Culture::new("Indonesian", "id", "ind"),
    ];
    proof {
        assert(culture_texts(r@) =~= cultures());
    }
    r
}

// --------------------------------------------------------------------- ratings

/// A parental rating and how restrictive it is.
#[derive(Debug, Clone, Copy)]
pub struct ParentalRating {
    pub name: &'static str,
    pub value: u32,
}

impl ParentalRating {
    /// A rating and how strict it is.
    pub fn new(name: &'static str, value: u32) -> (r: Self)
        ensures
            r.name@ == name@,
            r.value == value,
    {
        ParentalRating { name, value }
    }
}

pub open spec fn rating_texts(v: Seq<ParentalRating>) -> Seq<(Seq<char>, u32)> {
    Seq::new(v.len(), |i: int| (v[i].name@, v[i].value))
}

/// The ratings, the least restrictive first.
pub open spec fn ratings() -> Seq<(Seq<char>, u32)> {
    seq![
        ("Approved"@, 1u32),
        ("G"@, 1u32),
        ("TV-Y"@, 1u32),
        ("TV-G"@, 1u32),
        ("PG"@, 5u32),
        ("TV-PG"@, 5u32),
        ("PG-13"@, 7u32),
        ("TV-14"@, 7u32),
        ("R"@, 9u32),
        ("TV-MA"@, 9u32),
        ("NC-17"@, 10u32),
        ("X"@, 10u32),
    ]
}

/// The ratings, the least restrictive first.
pub fn localization_parental_ratings() -> (r: Vec<ParentalRating>)
    ensures
        rating_texts(r@) == ratings(),
{
    let r: Vec<ParentalRating> = vec![
        ParentalRating::new("Approved", 1),
        ParentalRating::new("G", 1),
        ParentalRating::new("TV-Y", 1),
        ParentalRating::new("TV-G", 1),
        ParentalRating::new("PG", 5),
        ParentalRating::new("TV-PG", 5),
        ParentalRating::new("PG-13", 7),
        ParentalRating::new("TV-14", 7),
        ParentalRating::new("R", 9),
        ParentalRating::new("TV-MA", 9),
        ParentalRating::new("NC-17", 10),
        ParentalRating::new("X", 10),
    ];
    proof {
        assert(rating_texts(r@) =~= ratings());
    }
    r
}

/// The ratings run from the least to the most restrictive, so that a limit cuts
/// the list in two.
pub proof fn law_ratings_grow_stricter(i: int, j: int)
    requires
        0 <= i < j < ratings().len(),
    ensures
        ratings()[i].1 <= ratings()[j].1,
{
}

// -------------------------------------------------------------------- settings

/// A setting: its name, and its value as JSON text.
pub type Setting = (Seq<char>, Seq<char>);

pub open spec fn setting_texts(v: Seq<(String, String)>) -> Seq<Setting> {
    Seq::new(v.len(), |i: int| (v[i].0@, v[i].1@))
}

pub open spec fn literal_texts(v: Seq<(&'static str, &'static str)>) -> Seq<Setting> {
    Seq::new(v.len(), |i: int| (v[i].0@, v[i].1@))
}

/// The network settings where nothing is set.
pub open spec fn network_defaults() -> Seq<Setting> {
    seq![
        ("BaseUrl"@, "\"\""@),
        ("EnableHttps"@, "false"@),
        ("RequireHttps"@, "false"@),
        ("InternalHttpPort"@, "8096"@),
        ("InternalHttpsPort"@, "8920"@),
        ("PublicHttpPort"@, "8096"@),
        ("PublicHttpsPort"@, "8920"@),
        ("AutoDiscovery"@, "false"@),
        ("EnableUPnP"@, "false"@),
        ("EnableRemoteAccess"@, "true"@),
        ("EnableIPv4"@, "true"@),
        ("EnableIPv6"@, "false"@),
        ("IgnoreVirtualInterfaces"@, "true"@),
        ("EnablePublishedServerUriByRequest"@, "false"@),
        ("LocalNetworkSubnets"@, "[]"@),
        ("LocalNetworkAddresses"@, "[]"@),
        ("KnownProxies"@, "[]"@),
        ("RemoteIPFilter"@, "[]"@),
        ("IsRemoteIPFilterBlacklist"@, "false"@),
        ("PublishedServerUriBySubnet"@, "[]"@),
        ("VirtualInterfaceNames"@, "[\"veth\"]"@),
    ]
}

fn network_settings() -> (r: Vec<(&'static str, &'static str)>)
    ensures
        literal_texts(r@) == network_defaults(),
{
    let r: Vec<(&'static str, &'static str)> = vec![
        ("BaseUrl", "\"\""),
        ("EnableHttps", "false"),
        ("RequireHttps", "false"),
        ("InternalHttpPort", "8096"),
        ("InternalHttpsPort", "8920"),
        ("PublicHttpPort", "8096"),
        ("PublicHttpsPort", "8920"),
        ("AutoDiscovery", "false"),
        ("EnableUPnP", "false"),
        ("EnableRemoteAccess", "true"),
        ("EnableIPv4", "true"),
        ("EnableIPv6", "false"),
        ("IgnoreVirtualInterfaces", "true"),
        ("EnablePublishedServerUriByRequest", "false"),
        ("LocalNetworkSubnets", "[]"),
        ("LocalNetworkAddresses", "[]"),
        ("KnownProxies", "[]"),
        ("RemoteIPFilter", "[]"),
        ("IsRemoteIPFilterBlacklist", "false"),
        ("PublishedServerUriBySubnet", "[]"),
        ("VirtualInterfaceNames", "[\"veth\"]"),
    ];
    proof {
        assert(literal_texts(r@) =~= network_defaults());
    }
    r
}

/// The live television settings where nothing is set.
pub open spec fn live_tv_defaults() -> Seq<Setting> {
    seq![
        ("GuideDays"@, "null"@),
        ("EnableMovieProviders"@, "true"@),
        ("RecordingPath"@, "\"\""@),
        ("MovieRecordingPath"@, "\"\""@),
        ("SeriesRecordingPath"@, "\"\""@),
        ("EnableRecordingSubfolders"@, "false"@),
        ("EnableOriginalAudioWithEncodedRecordings"@, "false"@),
        ("TunerHosts"@, "[]"@),
        ("ListingProviders"@, "[]"@),
    ]
}

fn live_tv_settings() -> (r: Vec<(&'static str, &'static str)>)
    ensures
        literal_texts(r@) == live_tv_defaults(),
{
    let r: Vec<(&'static str, &'static str)> = vec![
        ("GuideDays", "null"),
        ("EnableMovieProviders", "true"),
        ("RecordingPath", "\"\""),
        ("MovieRecordingPath", "\"\""),
        ("SeriesRecordingPath", "\"\""),
        ("EnableRecordingSubfolders", "false"),
        ("EnableOriginalAudioWithEncodedRecordings", "false"),
        ("TunerHosts", "[]"),
        ("ListingProviders", "[]"),
    ];
    proof {
        assert(literal_texts(r@) =~= live_tv_defaults());
    }
    r
}

/// The encoding settings where nothing is set.
pub open spec fn encoding_defaults() -> Seq<Setting> {
    seq![
        ("EncodingThreadCount"@, "-1"@),
        ("HardwareAccelerationType"@, "\"none\""@),
        ("EnableThrottling"@, "false"@),
        ("TranscodingTempPath"@, "\"\""@),
        ("AllowHevcEncoding"@, "true"@),
    ]
}

fn encoding_settings() -> (r: Vec<(&'static str, &'static str)>)
    ensures
        literal_texts(r@) == encoding_defaults(),
{
    let r: Vec<(&'static str, &'static str)> = vec![
        ("EncodingThreadCount", "-1"),
        ("HardwareAccelerationType", "\"none\""),
        ("EnableThrottling", "false"),
        ("TranscodingTempPath", "\"\""),
        ("AllowHevcEncoding", "true"),
    ];
    proof {
        assert(literal_texts(r@) =~= encoding_defaults());
    }
    r
}

/// The settings of a library where nothing is set.
pub open spec fn library_defaults() -> Seq<Setting> {
    seq![
        ("Enabled"@, "true"@),
        ("EnablePhotos"@, "true"@),
        ("EnableRealtimeMonitor"@, "false"@),
        ("EnableChapterImageExtraction"@, "false"@),
        ("ExtractChapterImagesDuringLibraryScan"@, "false"@),
        ("EnableInternetProviders"@, "false"@),
        ("SaveLocalMetadata"@, "false"@),
        ("PreferredMetadataLanguage"@, "\"en\""@),
        ("MetadataCountryCode"@, "\"US\""@),
        ("SeasonZeroDisplayName"@, "\"Specials\""@),
        ("AutomaticallyAddToCollection"@, "false"@),
        ("MetadataSavers"@, "[]"@),
        ("DisabledLocalMetadataReaders"@, "[]"@),
        ("LocalMetadataReaderOrder"@, "[\"Nfo\"]"@),
        ("TypeOptions"@, "[]"@),
        ("PathInfos"@, "[]"@),
    ]
}

fn library_settings() -> (r: Vec<(&'static str, &'static str)>)
    ensures
        literal_texts(r@) == library_defaults(),
{
    let r: Vec<(&'static str, &'static str)> = vec![
        ("Enabled", "true"),
        ("EnablePhotos", "true"),
        ("EnableRealtimeMonitor", "false"),
        ("EnableChapterImageExtraction", "false"),
        ("ExtractChapterImagesDuringLibraryScan", "false"),
        ("EnableInternetProviders", "false"),
        ("SaveLocalMetadata", "false"),
        ("PreferredMetadataLanguage", "\"en\""),
        ("MetadataCountryCode", "\"US\""),
        ("SeasonZeroDisplayName", "\"Specials\""),
        ("AutomaticallyAddToCollection", "false"),
        ("MetadataSavers", "[]"),
        ("DisabledLocalMetadataReaders", "[]"),
        ("LocalMetadataReaderOrder", "[\"Nfo\"]"),
        ("TypeOptions", "[]"),
        ("PathInfos", "[]"),
    ];
    proof {
        assert(literal_texts(r@) =~= library_defaults());
    }
    r
}

/// The settings of a section where nothing is set. A section that is not known
/// has none.
pub open spec fn section_defaults(key: Seq<char>) -> Seq<Setting> {
    if key == "network"@ {
        network_defaults()
    } else if key == "livetv"@ {
        live_tv_defaults()
    } else if key == "encoding"@ {
        encoding_defaults()
    } else {
        seq![]
    }
}

fn own_settings(v: Vec<(&'static str, &'static str)>) -> (r: Vec<(String, String)>)
    ensures
        setting_texts(r@) == literal_texts(v@),
{
    let mut out: Vec<(String, String)> = Vec::new();
    let mut i: usize = 0;
    while i < v.len()
        invariant
            i <= v@.len(),
            setting_texts(out@) == literal_texts(v@).take(i as int),
        decreases v@.len() - i,
    {
        let ghost before = out@;
        let row: (&'static str, &'static str) = v[i];
        out.push((row.0.to_owned(), row.1.to_owned()));
        i += 1;
        proof {
            assert(setting_texts(out@) == setting_texts(before).push(literal_texts(v@)[i - 1]));
            assert(literal_texts(v@).take(i as int) == literal_texts(v@).take(i - 1).push(
                literal_texts(v@)[i - 1],
            ));
        }
    }
    proof {
        assert(literal_texts(v@).take(i as int) == literal_texts(v@));
    }
    out
}

/// The settings of a section where nothing is set.
pub fn default_section(key: &str) -> (r: Vec<(String, String)>)
    ensures
        setting_texts(r@) == section_defaults(key@),
{
    if eq_text(key, "network") {
        own_settings(network_settings())
    } else if eq_text(key, "livetv") {
        own_settings(live_tv_settings())
    } else if eq_text(key, "encoding") {
        own_settings(encoding_settings())
    } else {
        let r: Vec<(String, String)> = Vec::new();
        proof {
            assert(setting_texts(r@) =~= Seq::<Setting>::empty());
        }
        r
    }
}

/// The settings of a library where nothing is set.
pub fn default_library_options() -> (r: Vec<(String, String)>)
    ensures
        setting_texts(r@) == library_defaults(),
{
    own_settings(library_settings())
}

/// Settings as a map: of two with one name the later counts.
pub open spec fn as_map(v: Seq<Setting>) -> Map<Seq<char>, Seq<char>>
    decreases v.len(),
{
    if v.len() == 0 {
        Map::empty()
    } else {
        as_map(v.drop_last()).insert(v.last().0, v.last().1)
    }
}

/// Settings with one set.
pub open spec fn with_setting(v: Seq<Setting>, name: Seq<char>, value: Seq<char>) -> Seq<Setting>
    decreases v.len(),
{
    if v.len() == 0 {
        seq![(name, value)]
    } else if v.last().0 == name {
        v.drop_last().push((name, value))
    } else {
        with_setting(v.drop_last(), name, value).push(v.last())
    }
}

proof fn lemma_with_setting(v: Seq<Setting>, name: Seq<char>, value: Seq<char>)
    ensures
        as_map(with_setting(v, name, value)) == as_map(v).insert(name, value),
    decreases v.len(),
{
    if v.len() == 0 {
        let one: Seq<Setting> = seq![(name, value)];
        assert(one.drop_last() =~= Seq::<Setting>::empty());
        assert(one.last() == (name, value));
        assert(as_map(one.drop_last()) == Map::<Seq<char>, Seq<char>>::empty());
        assert(as_map(v) == Map::<Seq<char>, Seq<char>>::empty());
    } else {
        let front = v.drop_last();
        if v.last().0 == name {
            assert(front.push((name, value)).drop_last() =~= front);
            assert(front.push((name, value)).last() == (name, value));
            assert(as_map(v).insert(name, value) =~= as_map(front).insert(name, value));
        } else {
            lemma_with_setting(front, name, value);
            let changed = with_setting(front, name, value);
            assert(changed.push(v.last()).drop_last() =~= changed);
            assert(as_map(changed.push(v.last())) =~= as_map(v).insert(name, value));
        }
    }
}

/// Where a setting was last set among the first `n`.
fn find_setting(v: &Vec<(String, String)>, name: &str) -> (r: Option<usize>)
    ensures
        match r {
            Some(k) => k < v@.len() && v@[k as int].0@ == name@ && forall|j: int|
                k < j < v@.len() ==> (#[trigger] v@[j]).0@ != name@,
            None => forall|j: int| 0 <= j < v@.len() ==> (#[trigger] v@[j]).0@ != name@,
        },
{
    let mut n: usize = v.len();
    while n > 0
        invariant
            n <= v@.len(),
            forall|j: int| n <= j < v@.len() ==> (#[trigger] v@[j]).0@ != name@,
        decreases n,
    {
        if eq_text(v[n - 1].0.as_str(), name) {
            return Some(n - 1);
        }
        n -= 1;
    }
    None
}

proof fn lemma_set_at(v: Seq<Setting>, name: Seq<char>, value: Seq<char>, k: int)
    requires
        -1 <= k < v.len(),
        k >= 0 ==> v[k].0 == name,
        forall|j: int| k < j < v.len() ==> (#[trigger] v[j]).0 != name,
    ensures
        with_setting(v, name, value) == (if k >= 0 {
            v.update(k, (name, value))
        } else {
            seq![(name, value)] + v
        }),
    decreases v.len(),
{
    if v.len() == 0 {
        assert(seq![(name, value)] + v =~= seq![(name, value)]);
    } else if k == v.len() - 1 {
        assert(v.update(k, (name, value)) =~= v.drop_last().push((name, value)));
    } else {
        let front = v.drop_last();
        assert(v[v.len() - 1].0 != name);
        lemma_set_at(front, name, value, k);
        if k >= 0 {
            assert(v.update(k, (name, value)) =~= front.update(k, (name, value)).push(v.last()));
        } else {
            assert(seq![(name, value)] + v =~= (seq![(name, value)] + front).push(v.last()));
        }
    }
}

/// Settings with the stored ones over them: what is stored counts, and what is
/// not keeps its default.
pub fn overlay(base: Vec<(String, String)>, stored: &Vec<(String, String)>) -> (r: Vec<
    (String, String),
>)
    ensures
        as_map(setting_texts(r@)) == as_map(setting_texts(base@)).union_prefer_right(
            as_map(setting_texts(stored@)),
        ),
{
    let ghost start = as_map(setting_texts(base@));
    let ghost all = setting_texts(stored@);
    let mut out: Vec<(String, String)> = base;
    let mut i: usize = 0;
    proof {
        assert(all.take(0) =~= Seq::<Setting>::empty());
        assert(start.union_prefer_right(Map::empty()) =~= start);
    }
    while i < stored.len()
        invariant
            i <= stored@.len(),
            all == setting_texts(stored@),
            as_map(setting_texts(out@)) == start.union_prefer_right(as_map(all.take(i as int))),
        decreases stored@.len() - i,
    {
        let name: String = stored[i].0.clone();
        let value: String = stored[i].1.clone();
        let ghost before = setting_texts(out@);
        let at = find_setting(&out, name.as_str());
        proof {
            assert(all[i as int] == (name@, value@));
            assert(all.take(i + 1).drop_last() =~= all.take(i as int));
            assert(forall|j: int|
                0 <= j < out@.len() ==> (#[trigger] before[j]).0 == out@[j].0@);
            lemma_set_at(
                before,
                name@,
                value@,
                match at {
                    Some(k) => k as int,
                    None => -1,
                },
            );
            lemma_with_setting(before, name@, value@);
        }
        match at {
            Some(k) => {
                let ghost pair = (name, value);
                out.set(k, (name, value));
                proof {
                    assert(setting_texts(out@) =~= before.update(k as int, (pair.0@, pair.1@)));
                }
            },
            None => {
                let ghost pair = (name, value);
                out.insert(0, (name, value));
                proof {
                    assert(setting_texts(out@) =~= seq![(pair.0@, pair.1@)] + before);
                }
            },
        }
        i += 1;
        proof {
            assert(as_map(setting_texts(out@)) =~= start.union_prefer_right(
                as_map(all.take(i as int)),
            ));
        }
    }
    proof {
        assert(all.take(i as int) =~= all);
    }
    out
}

/// The settings of a section, whatever the case of its name: the stored ones
/// over the defaults.
pub fn system_configuration_named(key: &str, stored: &Option<Vec<(String, String)>>) -> (r: Vec<
    (String, String),
>)
    ensures
        as_map(setting_texts(r@)) == (match stored {
            Some(v) => as_map(section_defaults(text::lower(key@))).union_prefer_right(
                as_map(setting_texts(v@)),
            ),
            None => as_map(section_defaults(text::lower(key@))),
        }),
{
    let base = default_section(to_lower(key).as_str());
    match stored {
        Some(v) => overlay(base, v),
        None => base,
    }
}

/// The server's own settings.
pub open spec fn server_settings() -> Seq<Setting> {
    seq![
        ("EnableMetrics"@, "true"@),
        ("EnableNormalizedItemByNameIds"@, "true"@),
        ("EnableCaseSensitiveItemIds"@, "true"@),
        ("EnableExternalContentInSuggestions"@, "false"@),
        ("DisableLiveTvChannelUserDataName"@, "true"@),
        ("ServerName"@, "\"pharos\""@),
        ("UICulture"@, "\"en-US\""@),
        ("PreferredMetadataLanguage"@, "\"en\""@),
        ("MetadataCountryCode"@, "\"US\""@),
        ("QuickConnectAvailable"@, "true"@),
        ("StartupWizardCompleted"@, "true"@),
    ]
}

/// The server's own settings.
pub fn system_configuration() -> (r: Vec<(String, String)>)
    ensures
        setting_texts(r@) == server_settings(),
{
    let v: Vec<(&'static str, &'static str)> = vec![
        ("EnableMetrics", "true"),
        ("EnableNormalizedItemByNameIds", "true"),
        ("EnableCaseSensitiveItemIds", "true"),
        ("EnableExternalContentInSuggestions", "false"),
        ("DisableLiveTvChannelUserDataName", "true"),
        ("ServerName", "\"pharos\""),
        ("UICulture", "\"en-US\""),
        ("PreferredMetadataLanguage", "\"en\""),
        ("MetadataCountryCode", "\"US\""),
        ("QuickConnectAvailable", "true"),
        ("StartupWizardCompleted", "true"),
    ];
    proof {
        assert(literal_texts(v@) =~= server_settings());
    }
    own_settings(v)
}

/// How a client shows things where it has stored nothing.
pub open spec fn prefs_settings(id: Seq<char>, client: Seq<char>) -> Seq<Setting> {
    seq![
        ("Id"@, subtitles::json_quoted(id)),
        ("ViewType"@, "\"\""@),
        ("SortBy"@, "\"SortName\""@),
        ("RememberIndexing"@, "false"@),
        ("PrimaryImageHeight"@, "0"@),
        ("PrimaryImageWidth"@, "0"@),
        ("CustomPrefs"@, "{}"@),
        ("ScrollDirection"@, "\"Vertical\""@),
        ("ShowBackdrop"@, "true"@),
        ("RememberSorting"@, "false"@),
        ("SortOrder"@, "\"Ascending\""@),
        ("ShowSidebar"@, "false"@),
        ("Client"@, subtitles::json_quoted(client)),
    ]
}

/// How a client shows things where it has stored nothing.
pub fn default_prefs(id: &str, client: &str) -> (r: Vec<(String, String)>)
    ensures
        setting_texts(r@) == prefs_settings(id@, client@),
{
    let own_id = to_json_quoted(id);
    let own_client = to_json_quoted(client);
    let v: Vec<(&'static str, &'static str)> = vec![
        ("ViewType", "\"\""),
        ("SortBy", "\"SortName\""),
        ("RememberIndexing", "false"),
        ("PrimaryImageHeight", "0"),
        ("PrimaryImageWidth", "0"),
        ("CustomPrefs", "{}"),
        ("ScrollDirection", "\"Vertical\""),
        ("ShowBackdrop", "true"),
        ("RememberSorting", "false"),
        ("SortOrder", "\"Ascending\""),
        ("ShowSidebar", "false"),
    ];
    let mut r = own_settings(v);
    let ghost mid = setting_texts(r@);
    let ghost quoted_id = own_id@;
    let ghost quoted_client = own_client@;
    r.insert(0, ("Id".to_owned(), own_id));
    r.push(("Client".to_owned(), own_client));
    proof {
        assert(mid =~= literal_texts(v@));
        assert(setting_texts(r@) =~= seq![("Id"@, quoted_id)] + mid + seq![
            ("Client"@, quoted_client),
        ]);
        assert(setting_texts(r@) =~= prefs_settings(id@, client@));
    }
    r
}

/// What a client has stored of how it shows things, and else the defaults.
pub fn display_preferences(
    stored: Option<Vec<(String, String)>>,
    id: &str,
    client: &str,
) -> (r: Vec<(String, String)>)
    ensures
        setting_texts(r@) == (match stored {
            Some(v) => setting_texts(v@),
            None => prefs_settings(id@, client@),
        }),
{
    match stored {
        Some(v) => v,
        None => default_prefs(id, client),
    }
}

/// Stored settings can be read back: they count over the defaults, and storing
/// nothing leaves the defaults.
pub proof fn law_stored_settings_count(base: Map<Seq<char>, Seq<char>>, stored: Map<Seq<char>, Seq<char>>)
    ensures
        forall|k: Seq<char>| #[trigger]
            stored.dom().contains(k) ==> base.union_prefer_right(stored)[k] == stored[k],
        forall|k: Seq<char>|
            base.dom().contains(k) && !stored.dom().contains(k) ==> #[trigger]
                base.union_prefer_right(stored)[k] == base[k],
        base.union_prefer_right(Map::empty()) == base,
{
    assert(base.union_prefer_right(Map::empty()) =~= base);
}

// --------------------------------------------------------------------- devices

/// How many bytes the speed test sends where the client does not say.
pub fn default_bitrate_size() -> (r: usize)
    ensures
        r == 500_000,
{
    500_000
}

/// How many bytes the speed test sends: what is asked for, up to fifty
/// mebibytes.
pub fn bitrate_test(size: usize) -> (r: usize)
    ensures
        r == (if size <= 52_428_800 {
            size as int
        } else {
            52_428_800
        }),
{
    if size <= 52_428_800 {
        size
    } else {
        52_428_800
    }
}

/// The client that display preferences are kept for where it does not say.
pub fn default_client() -> (r: String)
    ensures
        r@ == "emby"@,
{
    "emby".to_owned()
}

/// The address that clients tell each other to connect to.
pub fn derive_local_address(scheme: &str, host: &str) -> (r: String)
    ensures
        r@ == scheme@ + "://"@ + host@,
{
    let mut out: String = scheme.to_owned();
    out.append("://");
    out.append(host);
    out
}

/// The name that a device is listed under: the one that it was given, and else
/// its id.
pub fn device_name(given: &Option<String>, id: &str) -> (r: String)
    ensures
        r@ == (if given is Some && given->0@.len() > 0 {
            given->0@
        } else {
            id@
        }),
{
    match given {
        Some(n) => if n.as_str().is_empty() {
            id.to_owned()
        } else {
            n.clone()
        },
        None => id.to_owned(),
    }
}

/// A device that a user has signed in from, and the name that it was given.
pub struct DeviceRow {
    pub device_id: String,
    pub given_name: Option<String>,
}

/// A user and the devices that they have signed in from.
pub struct UserDevices {
    pub user_id: String,
    pub user_name: String,
    pub devices: Vec<DeviceRow>,
}

/// A device as it is listed.
pub struct DeviceItem {
    pub id: String,
    pub name: String,
    pub app_name: String,
    pub app_version: String,
    pub last_user_id: String,
    pub last_user_name: String,
    pub date_last_activity: String,
}

/// The name that a device is listed under.
pub open spec fn listed_name(d: DeviceRow) -> Seq<char> {
    match d.given_name {
        Some(n) if n@.len() > 0 => n@,
        _ => d.device_id@,
    }
}

/// A listed device as texts: its id, its name, and the id and name of the user.
pub type DeviceText = (Seq<char>, Seq<char>, Seq<char>, Seq<char>);

pub open spec fn device_text(u: UserDevices, d: DeviceRow) -> DeviceText {
    (d.device_id@, listed_name(d), u.user_id@, u.user_name@)
}

pub open spec fn devices_of(u: UserDevices) -> Seq<DeviceText> {
    Seq::new(u.devices@.len(), |i: int| device_text(u, u.devices@[i]))
}

/// The devices of the first `n` users, user by user.
pub open spec fn devices_below(users: Seq<UserDevices>, n: int) -> Seq<DeviceText>
    decreases n,
{
    if n <= 0 {
        Seq::empty()
    } else {
        devices_below(users, n - 1) + devices_of(users[n - 1])
    }
}

pub open spec fn item_texts(v: Seq<DeviceItem>) -> Seq<DeviceText> {
    Seq::new(v.len(), |i: int| (v[i].id@, v[i].name@, v[i].last_user_id@, v[i].last_user_name@))
}

/// What is said of every device alike.
pub open spec fn plain_device(d: DeviceItem) -> bool {
    &&& d.app_name@ == "Jellyfin"@
    &&& d.app_version@ == "0"@
    &&& d.date_last_activity@ == "1970-01-01T00:00:00.0000000Z"@
}

/// The devices of all users, for an administrator.
pub fn devices_list(admin: bool, users: &Vec<UserDevices>) -> (r: Result<Vec<DeviceItem>, ApiError>)
    ensures
        match r {
            Ok(v) => {
                &&& admin
                &&& item_texts(v@) == devices_below(users@, users@.len() as int)
                &&& forall|i: int| 0 <= i < v@.len() ==> plain_device(#[trigger] v@[i])
            },
            Err(e) => !admin && e.says(Refusal::Forbidden, "admin required"@),
        },
{
    if !admin {
        return Err(ApiError::Forbidden("admin required".to_owned()));
    }
    let mut out: Vec<DeviceItem> = Vec::new();
    let mut n: usize = 0;
    while n < users.len()
        invariant
            n <= users@.len(),
            item_texts(out@) =~= devices_below(users@, n as int),
            forall|i: int| 0 <= i < out@.len() ==> plain_device(#[trigger] out@[i]),
        decreases users@.len() - n,
    {
        let u = &users[n];
        let ghost start = item_texts(out@);
        let ghost own = devices_of(*u);
        let mut i: usize = 0;
        while i < u.devices.len()
            invariant
                i <= u.devices@.len(),
                own == devices_of(*u),
                item_texts(out@) =~= start + own.take(i as int),
                forall|k: int| 0 <= k < out@.len() ==> plain_device(#[trigger] out@[k]),
            decreases u.devices@.len() - i,
        {
            let ghost before = out@;
            let d = &u.devices[i];
            out.push(
                DeviceItem {
                    id: d.device_id.clone(),
                    name: device_name(&d.given_name, d.device_id.as_str()),
                    app_name: "Jellyfin".to_owned(),
                    app_version: "0".to_owned(),
                    last_user_id: u.user_id.clone(),
                    last_user_name: u.user_name.clone(),
                    date_last_activity: "1970-01-01T00:00:00.0000000Z".to_owned(),
                },
            );
            i += 1;
            proof {
                assert(item_texts(out@) =~= item_texts(before).push(own[i - 1]));
                assert(own.take(i as int) =~= own.take(i - 1).push(own[i - 1]));
            }
        }
        proof {
            assert(own.take(i as int) =~= own);
        }
        n += 1;
    }
    Ok(out)
}

/// What only an administrator may do.
pub fn require_admin(admin: bool) -> (r: Result<(), ApiError>)
    ensures
        r is Ok <==> admin,
        r matches Err(e) ==> e.says(Refusal::Forbidden, "admin required"@),
{
    if admin {
        Ok(())
    } else {
        Err(ApiError::Forbidden("admin required".to_owned()))
    }
}

/// The device that an administrator wants to change.
pub fn require_device(admin: bool, id: Option<&str>) -> (r: Result<String, ApiError>)
    ensures
        match r {
            Ok(d) => admin && id is Some && id->0@.len() > 0 && d@ == id->0@,
            Err(e) => if !admin {
                e.says(Refusal::Forbidden, "admin required"@)
            } else {
                (id is None || id->0@.len() == 0) && e.says(Refusal::BadRequest, "missing id"@)
            },
        },
{
    if !admin {
        return Err(ApiError::Forbidden("admin required".to_owned()));
    }
    match id {
        Some(d) => if d.is_empty() {
            Err(ApiError::BadRequest("missing id".to_owned()))
        } else {
            Ok(d.to_owned())
        },
        None => Err(ApiError::BadRequest("missing id".to_owned())),
    }
}

/// The name to keep for a device. An empty one takes the name away.
pub fn custom_name(given: &Option<String>) -> (r: String)
    ensures
        r@ == (match given {
            Some(n) => text::trim(n@),
            None => Seq::empty(),
        }),
{
    match given {
        Some(n) => trimmed(n.as_str()),
        None => {
            let r: String = String::new();
            proof {
                assert(r@ =~= Seq::<char>::empty());
            }
            r
        },
    }
}

// -------------------------------------------------------------------- segments

/// The segment that a chapter's title names, in lower case.
pub open spec fn segment_named(title: Seq<char>) -> Option<Seq<char>> {
    if text::contains(title, "intro"@) || text::contains(title, "opening"@) {
        Some("Intro"@)
    } else if text::contains(title, "outro"@) || text::contains(title, "end credits"@)
        || text::contains(title, "closing"@) || text::starts_with(title, "credits"@) {
        Some("Outro"@)
    } else if text::contains(title, "recap"@) || text::contains(title, "previously on"@) {
        Some("Recap"@)
    } else if text::contains(title, "preview"@) || text::contains(title, "next on"@) {
        Some("Preview"@)
    } else if text::contains(title, "commercial"@) {
        Some("Commercial"@)
    } else {
        None
    }
}

/// The segment that a chapter is by its title, whatever the case.
pub fn classify_chapter_title(title: &str) -> (r: Option<&'static str>)
    ensures
        browse::opt_str(r) == segment_named(text::lower(title@)),
{
    let lc = to_lower(title);
    let t: &str = lc.as_str();
    if has_part(t, "intro") || has_part(t, "opening") {
        Some("Intro")
    } else if has_part(t, "outro") || has_part(t, "end credits") || has_part(t, "closing")
        || has_prefix(t, "credits") {
        Some("Outro")
    } else if has_part(t, "recap") || has_part(t, "previously on") {
        Some("Recap")
    } else if has_part(t, "preview") || has_part(t, "next on") {
        Some("Preview")
    } else if has_part(t, "commercial") {
        Some("Commercial")
    } else {
        None
    }
}

/// A chapter of a file.
pub struct Chapter {
    pub title: String,
    pub start_ms: u64,
    pub end_ms: u64,
}

/// A segment that was found in a file.
pub struct DetectedSegment {
    pub kind: String,
    pub start_ms: u64,
    pub end_ms: u64,
}

/// A segment that clients can skip. The name tells the segments of an item
/// apart.
pub struct Segment {
    pub name: String,
    pub start_ticks: u64,
    pub end_ticks: u64,
    pub kind: String,
}

/// A segment's name, start, end and kind.
pub type SegmentTexts = (Seq<char>, u64, u64, Seq<char>);

pub open spec fn segment_texts(v: Seq<Segment>) -> Seq<SegmentTexts> {
    Seq::new(v.len(), |i: int| (v[i].name@, v[i].start_ticks, v[i].end_ticks, v[i].kind@))
}

/// Milliseconds as ticks, as far as the counter goes.
pub open spec fn ticks(ms: u64) -> u64 {
    if ms * 10_000 <= u64::MAX {
        (ms * 10_000) as u64
    } else {
        u64::MAX
    }
}

/// Where the segment of a chapter ends. A chapter that does not say is taken to
/// last thirty seconds.
pub open spec fn chapter_end(c: Chapter) -> u64 {
    if c.end_ms > c.start_ms {
        ticks(c.end_ms)
    } else if ticks(c.start_ms) + 300_000_000 <= u64::MAX {
        (ticks(c.start_ms) + 300_000_000) as u64
    } else {
        u64::MAX
    }
}

/// The segments that the first `n` chapters name.
pub open spec fn chapter_segments(cs: Seq<Chapter>, n: int) -> Seq<SegmentTexts>
    decreases n,
{
    if n <= 0 {
        Seq::empty()
    } else {
        let c = cs[n - 1];
        match segment_named(text::lower(c.title@)) {
            Some(kind) => chapter_segments(cs, n - 1).push(
                (text::decimal((n - 1) as nat), ticks(c.start_ms), chapter_end(c), kind),
            ),
            None => chapter_segments(cs, n - 1),
        }
    }
}

/// Whether a chapter names a kind of segment.
pub open spec fn named_by_chapter(cs: Seq<Chapter>, kind: Seq<char>) -> bool {
    exists|i: int|
        0 <= i < cs.len() && segment_named(text::lower((#[trigger] cs[i]).title@)) == Some(kind)
}

/// The segments among the first `n` that were found, of the kinds that no
/// chapter names.
pub open spec fn found_segments(cs: Seq<Chapter>, ds: Seq<DetectedSegment>, n: int) -> Seq<
    SegmentTexts,
>
    decreases n,
{
    if n <= 0 {
        Seq::empty()
    } else if named_by_chapter(cs, ds[n - 1].kind@) {
        found_segments(cs, ds, n - 1)
    } else {
        found_segments(cs, ds, n - 1).push(
            (
                seq!['d'] + text::decimal((n - 1) as nat),
                ticks(ds[n - 1].start_ms),
                ticks(ds[n - 1].end_ms),
                ds[n - 1].kind@,
            ),
        )
    }
}

fn ticks_of(ms: u64) -> (r: u64)
    ensures
        r == ticks(ms),
{
    if ms <= 1_844_674_407_370_955 {
        ms * 10_000
    } else {
        u64::MAX
    }
}

fn chapter_names(cs: &Vec<Chapter>, kind: &str) -> (r: bool)
    ensures
        r == named_by_chapter(cs@, kind@),
{
    let mut i: usize = 0;
    while i < cs.len()
        invariant
            i <= cs@.len(),
            forall|k: int|
                0 <= k < i ==> segment_named(text::lower((#[trigger] cs@[k]).title@)) != Some(
                    kind@,
                ),
        decreases cs@.len() - i,
    {
        if let Some(k) = classify_chapter_title(cs[i].title.as_str()) {
            if eq_text(k, kind) {
                proof {
                    assert(segment_named(text::lower(cs@[i as int].title@)) == Some(kind@));
                }
                return true;
            }
        }
        i += 1;
    }
    false
}

/// The segments of an item that clients can skip: those that its chapters name,
/// and those that were found of the kinds that no chapter names.
pub fn build_media_segments(cs: &Vec<Chapter>, ds: &Vec<DetectedSegment>) -> (r: Vec<Segment>)
    ensures
        segment_texts(r@) == chapter_segments(cs@, cs@.len() as int) + found_segments(
            cs@,
            ds@,
            ds@.len() as int,
        ),
{
    let mut out: Vec<Segment> = Vec::new();
    let mut i: usize = 0;
    proof {
        assert(segment_texts(out@) =~= Seq::<SegmentTexts>::empty());
    }
    while i < cs.len()
        invariant
            i <= cs@.len(),
            segment_texts(out@) == chapter_segments(cs@, i as int),
        decreases cs@.len() - i,
    {
        let c: &Chapter = &cs[i];
        if let Some(kind) = classify_chapter_title(c.title.as_str()) {
            let start_ticks: u64 = ticks_of(c.start_ms);
            let end_ticks: u64 = if c.end_ms > c.start_ms {
                ticks_of(c.end_ms)
            } else if start_ticks <= u64::MAX - 300_000_000 {
                start_ticks + 300_000_000
            } else {
                u64::MAX
            };
            let ghost before = out@;
            out.push(
                Segment {
                    name: decimal_text(i as u64),
                    start_ticks,
                    end_ticks,
                    kind: kind.to_owned(),
                },
            );
            proof {
                assert(segment_texts(out@) =~= segment_texts(before).push(
                    (text::decimal(i as nat), ticks(c.start_ms), chapter_end(*c), kind@),
                ));
            }
        }
        i += 1;
    }
    let ghost head = segment_texts(out@);
    let mut k: usize = 0;
    proof {
        assert(head + found_segments(cs@, ds@, 0) =~= head);
    }
    while k < ds.len()
        invariant
            k <= ds@.len(),
            segment_texts(out@) == head + found_segments(cs@, ds@, k as int),
        decreases ds@.len() - k,
    {
        let d: &DetectedSegment = &ds[k];
        if !chapter_names(cs, d.kind.as_str()) {
            let ghost before = out@;
            let mut name: String = String::new();
            name.push('d');
            name.append(decimal_text(k as u64).as_str());
            proof {
                assert(name@ =~= seq!['d'] + text::decimal(k as nat));
            }
            let ghost named = name@;
            out.push(
                Segment {
                    name,
                    start_ticks: ticks_of(d.start_ms),
                    end_ticks: ticks_of(d.end_ms),
                    kind: d.kind.clone(),
                },
            );
            proof {
                assert(segment_texts(out@) =~= segment_texts(before).push(
                    (named, ticks(d.start_ms), ticks(d.end_ms), d.kind@),
                ));
                assert(segment_texts(out@) =~= head + found_segments(cs@, ds@, k + 1));
            }
        }
        k += 1;
    }
    out
}

/// What an author has marked goes before what was found: no segment that was
/// found is of a kind that a chapter names.
pub proof fn law_chapters_go_first(cs: Seq<Chapter>, ds: Seq<DetectedSegment>, n: int)
    requires
        0 <= n <= ds.len(),
    ensures
        forall|i: int|
            0 <= i < found_segments(cs, ds, n).len() ==> !named_by_chapter(
                cs,
                (#[trigger] found_segments(cs, ds, n)[i]).3,
            ),
    decreases n,
{
    if n > 0 {
        law_chapters_go_first(cs, ds, n - 1);
        let before = found_segments(cs, ds, n - 1);
        assert forall|i: int| 0 <= i < found_segments(cs, ds, n).len() implies !named_by_chapter(
            cs,
            (#[trigger] found_segments(cs, ds, n)[i]).3,
        ) by {
            if i < before.len() {
                assert(found_segments(cs, ds, n)[i] == before[i]);
            }
        }
    }
}

// ------------------------------------------------------------ laws of segments

/// What a chapter's title says it is: an intro before all else, then an outro,
/// a recap, a preview and a commercial.
pub proof fn law_titles_name_segments(t: Seq<char>)
    ensures
        text::contains(t, "intro"@) || text::contains(t, "opening"@) ==> segment_named(t) == Some(
            "Intro"@,
        ),
        segment_named(t) == Some("Intro"@) || segment_named(t) == Some("Outro"@) || segment_named(t)
            == Some("Recap"@) || segment_named(t) == Some("Preview"@) || segment_named(t) == Some(
            "Commercial"@,
        ) || segment_named(t) is None,
        !text::contains(t, "intro"@) && !text::contains(t, "opening"@) && (text::contains(
            t,
            "outro"@,
        ) || text::contains(t, "end credits"@) || text::contains(t, "closing"@)
            || text::starts_with(t, "credits"@)) ==> segment_named(t) == Some("Outro"@),
        segment_named(t) is None ==> !text::contains(t, "recap"@) && !text::contains(
            t,
            "previously on"@,
        ) && !text::contains(t, "preview"@) && !text::contains(t, "next on"@) && !text::contains(
            t,
            "commercial"@,
        ),
        segment_named(t) == Some("Recap"@) ==> text::contains(t, "recap"@) || text::contains(
            t,
            "previously on"@,
        ),
        segment_named(t) == Some("Preview"@) ==> text::contains(t, "preview"@) || text::contains(
            t,
            "next on"@,
        ),
        segment_named(t) == Some("Commercial"@) ==> text::contains(t, "commercial"@),
        segment_named(t) == Some("Intro"@) ==> text::contains(t, "intro"@) || text::contains(
            t,
            "opening"@,
        ),
{
    reveal_strlit("Intro");
    reveal_strlit("Outro");
    reveal_strlit("Recap");
    reveal_strlit("Preview");
    reveal_strlit("Commercial");
    assert("Intro"@[0] == 'I' && "Outro"@[0] == 'O' && "Recap"@[0] == 'R' && "Preview"@[0] == 'P'
        && "Commercial"@[0] == 'C');
}

proof fn lemma_chapter_listed(cs: Seq<Chapter>, n: int, i: int)
    requires
        0 <= i < n <= cs.len(),
        segment_named(text::lower(cs[i].title@)) is Some,
    ensures
        chapter_segments(cs, n).contains(
            (
                text::decimal(i as nat),
                ticks(cs[i].start_ms),
                chapter_end(cs[i]),
                segment_named(text::lower(cs[i].title@))->0,
            ),
        ),
    decreases n,
{
    let now = chapter_segments(cs, n);
    let x = (
        text::decimal(i as nat),
        ticks(cs[i].start_ms),
        chapter_end(cs[i]),
        segment_named(text::lower(cs[i].title@))->0,
    );
    if i == n - 1 {
        assert(now.last() == x);
        assert(now[now.len() - 1] == x);
    } else {
        lemma_chapter_listed(cs, n - 1, i);
        let before = chapter_segments(cs, n - 1);
        let k = choose|k: int| 0 <= k < before.len() && before[k] == x;
        assert(now[k] == x);
    }
}

proof fn lemma_detected_listed(cs: Seq<Chapter>, ds: Seq<DetectedSegment>, n: int, i: int)
    requires
        0 <= i < n <= ds.len(),
        !named_by_chapter(cs, ds[i].kind@),
    ensures
        found_segments(cs, ds, n).contains(
            (
                seq!['d'] + text::decimal(i as nat),
                ticks(ds[i].start_ms),
                ticks(ds[i].end_ms),
                ds[i].kind@,
            ),
        ),
    decreases n,
{
    let now = found_segments(cs, ds, n);
    let x = (
        seq!['d'] + text::decimal(i as nat),
        ticks(ds[i].start_ms),
        ticks(ds[i].end_ms),
        ds[i].kind@,
    );
    if i == n - 1 {
        assert(now.last() == x);
        assert(now[now.len() - 1] == x);
    } else {
        lemma_detected_listed(cs, ds, n - 1, i);
        let before = found_segments(cs, ds, n - 1);
        let k = choose|k: int| 0 <= k < before.len() && before[k] == x;
        assert(now[k] == x);
    }
}

/// A chapter that is named after a kind of segment is one, from its start to its
/// end, and for thirty seconds where it does not say when it ends.
pub proof fn law_named_chapters_can_be_skipped(r: Seq<Segment>, cs: Seq<Chapter>, ds: Seq<DetectedSegment>, i: int)
    requires
        segment_texts(r) == chapter_segments(cs, cs.len() as int) + found_segments(
            cs,
            ds,
            ds.len() as int,
        ),
        0 <= i < cs.len(),
        cs[i].start_ms <= 1_000_000_000_000_000,
        cs[i].end_ms <= 1_000_000_000_000_000,
        segment_named(text::lower(cs[i].title@)) is Some,
    ensures
        exists|k: int|
            0 <= k < r.len() && (#[trigger] r[k]).start_ticks == cs[i].start_ms * 10_000
                && r[k].end_ticks == (if cs[i].end_ms > cs[i].start_ms {
                cs[i].end_ms * 10_000
            } else {
                cs[i].start_ms * 10_000 + 30 * 10_000_000
            }) && r[k].kind@ == segment_named(text::lower(cs[i].title@))->0,
{
    lemma_chapter_listed(cs, cs.len() as int, i);
    let a = chapter_segments(cs, cs.len() as int);
    let x = (
        text::decimal(i as nat),
        ticks(cs[i].start_ms),
        chapter_end(cs[i]),
        segment_named(text::lower(cs[i].title@))->0,
    );
    let k = choose|k: int| 0 <= k < a.len() && a[k] == x;
    assert(segment_texts(r)[k] == x);
    assert(segment_texts(r).len() == r.len());
    assert(r[k].start_ticks == ticks(cs[i].start_ms));
}

/// A segment that was found is one where no chapter names its kind, from its
/// start to its end.
pub proof fn law_found_segments_can_be_skipped(
    r: Seq<Segment>,
    cs: Seq<Chapter>,
    ds: Seq<DetectedSegment>,
    i: int,
)
    requires
        segment_texts(r) == chapter_segments(cs, cs.len() as int) + found_segments(
            cs,
            ds,
            ds.len() as int,
        ),
        0 <= i < ds.len(),
        ds[i].start_ms <= 1_000_000_000_000_000,
        ds[i].end_ms <= 1_000_000_000_000_000,
        forall|j: int|
            0 <= j < cs.len() ==> segment_named(text::lower((#[trigger] cs[j]).title@)) != Some(
                ds[i].kind@,
            ),
    ensures
        exists|k: int|
            0 <= k < r.len() && (#[trigger] r[k]).start_ticks == ds[i].start_ms * 10_000
                && r[k].end_ticks == ds[i].end_ms * 10_000 && r[k].kind@ == ds[i].kind@,
{
    assert(!named_by_chapter(cs, ds[i].kind@));
    lemma_detected_listed(cs, ds, ds.len() as int, i);
    let a = chapter_segments(cs, cs.len() as int);
    let b = found_segments(cs, ds, ds.len() as int);
    let x = (
        seq!['d'] + text::decimal(i as nat),
        ticks(ds[i].start_ms),
        ticks(ds[i].end_ms),
        ds[i].kind@,
    );
    let k = choose|k: int| 0 <= k < b.len() && b[k] == x;
    let m = a.len() as int + k;
    assert(segment_texts(r)[m] == x);
    assert(segment_texts(r).len() == r.len());
    assert(r[m].start_ticks == ticks(ds[i].start_ms));
}

// ------------------------------------------------------- laws of the settings

/// A section where nothing is stored has its defaults, and a name in any case is
/// that of the section. The server listens on its usual ports.
pub proof fn law_sections_have_defaults()
    ensures
        section_defaults("network"@) == network_defaults(),
        section_defaults("livetv"@) == live_tv_defaults(),
        section_defaults("encoding"@) == encoding_defaults(),
        network_defaults().contains(("InternalHttpPort"@, "8096"@)),
        network_defaults().contains(("InternalHttpsPort"@, "8920"@)),
        network_defaults().contains(("PublicHttpPort"@, "8096"@)),
        network_defaults().contains(("EnableRemoteAccess"@, "true"@)),
        network_defaults().contains(("EnableHttps"@, "false"@)),
        encoding_defaults().contains(("HardwareAccelerationType"@, "\"none\""@)),
        encoding_defaults().contains(("EncodingThreadCount"@, "-1"@)),
        live_tv_defaults().contains(("TunerHosts"@, "[]"@)),
        library_defaults().contains(("PreferredMetadataLanguage"@, "\"en\""@)),
        library_defaults().contains(("LocalMetadataReaderOrder"@, "[\"Nfo\"]"@)),
        library_defaults().contains(("Enabled"@, "true"@)),
        server_settings().contains(("StartupWizardCompleted"@, "true"@)),
        server_settings().contains(("QuickConnectAvailable"@, "true"@)),
{
    reveal_strlit("network");
    reveal_strlit("livetv");
    reveal_strlit("encoding");
    assert("network"@.len() == 7 && "livetv"@.len() == 6 && "encoding"@.len() == 8);
    let n = network_defaults();
    assert(n[1] == ("EnableHttps"@, "false"@));
    assert(n[3] == ("InternalHttpPort"@, "8096"@));
    assert(n[4] == ("InternalHttpsPort"@, "8920"@));
    assert(n[5] == ("PublicHttpPort"@, "8096"@));
    assert(n[9] == ("EnableRemoteAccess"@, "true"@));
    let e = encoding_defaults();
    assert(e[0] == ("EncodingThreadCount"@, "-1"@));
    assert(e[1] == ("HardwareAccelerationType"@, "\"none\""@));
    let l = live_tv_defaults();
    assert(l[7] == ("TunerHosts"@, "[]"@));
    let b = library_defaults();
    assert(b[0] == ("Enabled"@, "true"@));
    assert(b[7] == ("PreferredMetadataLanguage"@, "\"en\""@));
    assert(b[13] == ("LocalMetadataReaderOrder"@, "[\"Nfo\"]"@));
    let s = server_settings();
    assert(s[9] == ("QuickConnectAvailable"@, "true"@));
    assert(s[10] == ("StartupWizardCompleted"@, "true"@));
}

/// Settings hold what was set last under each name.
pub proof fn law_settings_hold_what_was_set(v: Seq<Setting>, name: Seq<char>, value: Seq<char>, other: Seq<char>)
    ensures
        as_map(v.push((name, value)))[name] == value,
        as_map(v.push((name, value))).dom().contains(name),
        other != name ==> as_map(v.push((name, value))).dom().contains(other) == as_map(
            v,
        ).dom().contains(other),
        other != name && as_map(v).dom().contains(other) ==> as_map(v.push((name, value)))[other]
            == as_map(v)[other],
        as_map(with_setting(v, name, value)) == as_map(v).insert(name, value),
{
    assert(v.push((name, value)).drop_last() =~= v);
    lemma_with_setting(v, name, value);
}

/// The usual ratings have their severity.
pub proof fn law_ratings_have_their_severity()
    ensures
        ratings().contains(("G"@, 1u32)) && ratings().contains(("TV-Y"@, 1u32)),
        ratings().contains(("PG"@, 5u32)) && ratings().contains(("TV-PG"@, 5u32)),
        ratings().contains(("PG-13"@, 7u32)) && ratings().contains(("TV-14"@, 7u32)),
        ratings().contains(("R"@, 9u32)) && ratings().contains(("TV-MA"@, 9u32)),
        ratings().contains(("NC-17"@, 10u32)),
{
    let r = ratings();
    assert(r[1] == ("G"@, 1u32) && r[2] == ("TV-Y"@, 1u32));
    assert(r[4] == ("PG"@, 5u32) && r[5] == ("TV-PG"@, 5u32));
    assert(r[6] == ("PG-13"@, 7u32) && r[7] == ("TV-14"@, 7u32));
    assert(r[8] == ("R"@, 9u32) && r[9] == ("TV-MA"@, 9u32));
    assert(r[10] == ("NC-17"@, 10u32));
}

proof fn lemma_device_listed(users: Seq<UserDevices>, n: int, i: int, k: int)
    requires
        0 <= i < n <= users.len(),
        0 <= k < users[i].devices@.len(),
    ensures
        devices_below(users, n).contains(device_text(users[i], users[i].devices@[k])),
    decreases n,
{
    let x = device_text(users[i], users[i].devices@[k]);
    let a = devices_below(users, n - 1);
    let b = devices_of(users[n - 1]);
    if i == n - 1 {
        assert((a + b)[a.len() + k] == x);
    } else {
        lemma_device_listed(users, n - 1, i, k);
        let j = choose|j: int| 0 <= j < a.len() && a[j] == x;
        assert((a + b)[j] == x);
    }
}

/// Every device that a user has signed in from is listed with its user, under
/// the name that it was given, or else under its id.
pub proof fn law_devices_are_listed(v: Seq<DeviceItem>, users: Seq<UserDevices>, i: int, k: int)
    requires
        item_texts(v) == devices_below(users, users.len() as int),
        0 <= i < users.len(),
        0 <= k < users[i].devices@.len(),
    ensures
        exists|j: int|
            0 <= j < v.len() && (#[trigger] v[j]).id@ == users[i].devices@[k].device_id@
                && v[j].last_user_id@ == users[i].user_id@ && v[j].last_user_name@
                == users[i].user_name@ && v[j].name@ == (if users[i].devices@[k].given_name is Some
                && users[i].devices@[k].given_name->0@.len() > 0 {
                users[i].devices@[k].given_name->0@
            } else {
                users[i].devices@[k].device_id@
            }),
{
    lemma_device_listed(users, users.len() as int, i, k);
    let all = devices_below(users, users.len() as int);
    let x = device_text(users[i], users[i].devices@[k]);
    let j = choose|j: int| 0 <= j < all.len() && all[j] == x;
    assert(item_texts(v)[j] == x);
    assert(item_texts(v).len() == v.len());
    assert(v[j].id@ == users[i].devices@[k].device_id@);
}

/// Each language that is offered has its two codes.
pub proof fn law_languages_have_their_codes()
    ensures
        cultures().contains(("English"@, "en"@, "eng"@)),
        cultures().contains(("German"@, "de"@, "ger"@)),
        cultures().contains(("French"@, "fr"@, "fre"@)),
        cultures().contains(("Spanish"@, "es"@, "spa"@)),
        cultures().contains(("Italian"@, "it"@, "ita"@)),
        cultures().contains(("Japanese"@, "ja"@, "jpn"@)),
        cultures().contains(("Russian"@, "ru"@, "rus"@)),
        cultures().contains(("Dutch"@, "nl"@, "dut"@)),
        cultures().contains(("Chinese"@, "zh"@, "chi"@)),
{
    let c = cultures();
    assert(c[0] == ("English"@, "en"@, "eng"@));
    assert(c[1] == ("Spanish"@, "es"@, "spa"@));
    assert(c[2] == ("French"@, "fr"@, "fre"@));
    assert(c[3] == ("German"@, "de"@, "ger"@));
    assert(c[4] == ("Italian"@, "it"@, "ita"@));
    assert(c[6] == ("Dutch"@, "nl"@, "dut"@));
    assert(c[7] == ("Russian"@, "ru"@, "rus"@));
    assert(c[21] == ("Japanese"@, "ja"@, "jpn"@));
    assert(c[23] == ("Chinese"@, "zh"@, "chi"@));
}

/// Where a client has stored nothing, its preferences are under its own id and
/// name, sorted by name and ascending.
pub proof fn law_preferences_are_the_clients_own(id: Seq<char>, client: Seq<char>)
    ensures
        prefs_settings(id, client).contains(("Id"@, subtitles::json_quoted(id))),
        prefs_settings(id, client).contains(("Client"@, subtitles::json_quoted(client))),
        prefs_settings(id, client).contains(("SortBy"@, "\"SortName\""@)),
        prefs_settings(id, client).contains(("SortOrder"@, "\"Ascending\""@)),
        prefs_settings(id, client).contains(("ShowBackdrop"@, "true"@)),
        prefs_settings(id, client).contains(("ShowSidebar"@, "false"@)),
        prefs_settings(id, client).contains(("RememberSorting"@, "false"@)),
        prefs_settings(id, client).contains(("RememberIndexing"@, "false"@)),
        prefs_settings(id, client).contains(("CustomPrefs"@, "{}"@)),
        prefs_settings(id, client).contains(("ScrollDirection"@, "\"Vertical\""@)),
        prefs_settings(id, client).len() == 13,
{
    let p = prefs_settings(id, client);
    assert(p[0] == ("Id"@, subtitles::json_quoted(id)));
    assert(p[12] == ("Client"@, subtitles::json_quoted(client)));
    assert(p[2] == ("SortBy"@, "\"SortName\""@));
    assert(p[10] == ("SortOrder"@, "\"Ascending\""@));
    assert(p[8] == ("ShowBackdrop"@, "true"@));
    assert(p[11] == ("ShowSidebar"@, "false"@));
    assert(p[9] == ("RememberSorting"@, "false"@));
    assert(p[3] == ("RememberIndexing"@, "false"@));
    assert(p[6] == ("CustomPrefs"@, "{}"@));
    assert(p[7] == ("ScrollDirection"@, "\"Vertical\""@));
}

} // verus!
