//! Byte windows of a source file, the type it is served as, and whether it may
//! be cut at an interior byte.

use vstd::prelude::*;
use vstd::string::*;
use crate::path_text::{self, extension_of};
use crate::text::{
    self, chars_of, cut_at, decimal_text, eq_ignore_case, eq_text, has_part, has_prefix, parse_u64,
    slice_text, to_lower, trimmed,
};

verus! {

/// What delivery needs to know of a source: where it lies and what its
/// container was found to be.
#[derive(Debug)]
pub struct Source {
    pub path: String,
    pub container: Option<String>,
}

// ---------------------------------------------------------------- ContentRange

/// A window of bytes of a file, never empty and never past the end.
#[derive(Clone, Copy, Debug, PartialEq, Eq, Structural)]
pub struct ContentRange {
    offset: u64,
    end: u64,
    total: u64,
}

/// The last byte of a window of at most `max_len` bytes.
pub open spec fn window_last(offset: int, total: int, max_len: int) -> int {
    if offset + max_len <= total {
        offset + max_len - 1
    } else {
        total - 1
    }
}

impl ContentRange {
    /// The first byte.
    pub closed spec fn first(self) -> int {
        self.offset as int
    }

    /// The last byte.
    pub closed spec fn last(self) -> int {
        self.end as int
    }

    /// The length of the file.
    pub closed spec fn file_len(self) -> int {
        self.total as int
    }

    #[verifier::type_invariant]
    spec fn inv(self) -> bool {
        self.offset <= self.end < self.total
    }

    /// How many bytes there are in the window.
    pub open spec fn len(self) -> int {
        self.last() - self.first() + 1
    }

    pub open spec fn header(self) -> Seq<char> {
        "bytes "@ + text::decimal(self.first() as nat) + "-"@ + text::decimal(self.last() as nat)
            + "/"@ + text::decimal(self.file_len() as nat)
    }

    /// The window from `offset` to the end of the file.
    pub fn from_offset(offset: u64, total: u64) -> (r: Option<Self>)
        ensures
            match r {
                Some(w) => offset < total && w.first() == offset && w.last() == total - 1
                    && w.file_len() == total,
                None => offset >= total,
            },
    {
        if offset < total {
            Some(ContentRange { offset, end: total - 1, total })
        } else {
            None
        }
    }

    /// The window from `offset` on, at most `max_len` long and at most to the
    /// end of the file.
    pub fn window(offset: u64, total: u64, max_len: u64) -> (r: Option<Self>)
        ensures
            match r {
                Some(w) => offset < total && max_len > 0 && w.first() == offset && w.last()
                    == window_last(offset as int, total as int, max_len as int) && w.file_len()
                    == total,
                None => offset >= total || max_len == 0,
            },
    {
        if offset >= total || max_len == 0 {
            return None;
        }
        let end: u64 = if max_len <= total - offset {
            offset + (max_len - 1)
        } else {
            total - 1
        };
        Some(ContentRange { offset, end, total })
    }

    /// The status that a window is answered with: partial content, always.
    pub fn status(&self) -> (r: u16)
        ensures
            r == 206,
    {
        206
    }

    /// The value of the `Content-Range` header.
    pub fn header_value(&self) -> (r: String)
        ensures
            r@ == self.header(),
    {
        let mut out: String = String::new();
        out.append("bytes ");
        out.append(decimal_text(self.offset).as_str());
        out.append("-");
        out.append(decimal_text(self.end).as_str());
        out.append("/");
        out.append(decimal_text(self.total).as_str());
        proof {
            assert(out@ == self.header());
        }
        out
    }

    /// The number of bytes in the window.
    pub fn content_length(&self) -> (r: u64)
        ensures
            r == self.len(),
            1 <= r <= self.file_len() - self.first(),
    {
        proof {
            use_type_invariant(self);
        }
        self.end - self.offset + 1
    }

    /// The last byte of the window.
    pub fn end(&self) -> (r: u64)
        ensures
            r == self.last(),
            self.first() <= r < self.file_len(),
    {
        proof {
            use_type_invariant(self);
        }
        self.end
    }

    /// The first byte of the window.
    pub fn offset(&self) -> (r: u64)
        ensures
            r == self.first(),
    {
        self.offset
    }

    /// The length of the file.
    pub fn total(&self) -> (r: u64)
        ensures
            r == self.file_len(),
    {
        self.total
    }
}

// ------------------------------------------------------------------- ByteRange

/// A single range that a client asks for; without an end it is open.
#[derive(Clone, Copy, Debug, PartialEq, Eq, Structural)]
pub struct ByteRange {
    pub start: u64,
    pub end: Option<u64>,
}

/// A range written as `START-` or `START-END`.
pub open spec fn bounds_of(spec: Seq<char>) -> Option<(int, Option<int>)> {
    match text::split_once(spec, '-') {
        Some((a, b)) => match text::parse_unsigned(text::trim(a), u64::MAX as int) {
            Some(start) => if text::trim(b).len() == 0 {
                Some((start, None))
            } else {
                match text::parse_unsigned(text::trim(b), u64::MAX as int) {
                    Some(end) => if end < start {
                        None
                    } else {
                        Some((start, Some(end)))
                    },
                    None => None,
                }
            },
            None => None,
        },
        None => None,
    }
}

/// The single range of bytes that a `Range` header asks for.
pub open spec fn range_of(header: Seq<char>) -> Option<(int, Option<int>)> {
    let h = text::trim(header);
    if text::starts_with(h, "bytes="@) && !h.subrange(6, h.len() as int).contains(',') {
        bounds_of(h.subrange(6, h.len() as int))
    } else {
        None
    }
}

/// The last byte of a range in a file of `total` bytes.
pub open spec fn last_byte(end: Option<u64>, total: int) -> int {
    match end {
        Some(e) => if e < total {
            e as int
        } else {
            total - 1
        },
        None => total - 1,
    }
}

fn has_comma(v: &[char]) -> (r: bool)
    ensures
        r == v@.contains(','),
{
    let mut i: usize = 0;
    while i < v.len()
        invariant
            i <= v@.len(),
            forall|k: int| 0 <= k < i ==> #[trigger] v@[k] != ',',
        decreases v@.len() - i,
    {
        if v[i] == ',' {
            return true;
        }
        i += 1;
    }
    false
}

fn read_bounds(spec: &str) -> (r: Option<ByteRange>)
    ensures
        match r {
            Some(b) => bounds_of(spec@) == Some(
                (
                    b.start as int,
                    match b.end {
                        Some(e) => Some(e as int),
                        None => None,
                    },
                ),
            ),
            None => bounds_of(spec@) is None,
        },
{
    match cut_at(spec, '-') {
        Some((a, b)) => match parse_u64(trimmed(a.as_str()).as_str()) {
            Some(start) => {
                let tail = trimmed(b.as_str());
                if tail.as_str().is_empty() {
                    return Some(ByteRange { start, end: None });
                }
                match parse_u64(tail.as_str()) {
                    Some(end) => if end < start {
                        None
                    } else {
                        Some(ByteRange { start, end: Some(end) })
                    },
                    None => None,
                }
            },
            None => None,
        },
        None => None,
    }
}

impl ByteRange {
    /// Reads a `Range` header. Suffix ranges, several ranges at once and
    /// inverted ones are not single ranges.
    pub fn parse(header: &str) -> (r: Option<Self>)
        ensures
            match r {
                Some(b) => range_of(header@) == Some(
                    (
                        b.start as int,
                        match b.end {
                            Some(e) => Some(e as int),
                            None => None,
                        },
                    ),
                ),
                None => range_of(header@) is None,
            },
    {
        let h = trimmed(header);
        if !has_prefix(h.as_str(), "bytes=") {
            return None;
        }
        let v = chars_of(h.as_str());
        proof {
            reveal_strlit("bytes=");
        }
        let spec = slice_text(v.as_slice(), 6, v.len());
        let cs = chars_of(spec.as_str());
        if has_comma(cs.as_slice()) {
            return None;
        }
        read_bounds(spec.as_str())
    }

    /// How many bytes of a file the range covers; none where it starts at or
    /// past the end. A range that ends before it starts is not one.
    pub fn served_len(&self, total: u64) -> (r: Option<u64>)
        requires
            self.end matches Some(e) ==> self.start <= e,
        ensures
            match r {
                Some(n) => self.start < total && n == last_byte(self.end, total as int) - self.start
                    + 1,
                None => self.start >= total,
            },
    {
        if self.start >= total {
            return None;
        }
        let end: u64 = match self.end {
            Some(e) => if e < total {
                e
            } else {
                total - 1
            },
            None => total - 1,
        };
        Some(end - self.start + 1)
    }
}

// ---------------------------------------------------------------- DeliveryMime

/// The content type that a source is served as.
#[derive(Debug)]
pub struct DeliveryMime(String);

/// What `mime_guess` finds first for a file extension.
pub uninterp spec fn guessed_mime(ext: Seq<char>) -> Seq<char>;

/// `mime_guess::from_ext`, and of the types it knows the first, or
/// `application/octet-stream`: a look into a fixed table.
#[verifier::external_body]
fn guess_mime(ext: &str) -> (r: String)
    ensures
        r@ == guessed_mime(ext@),
{
    mime_guess::from_ext(ext).first_or_octet_stream().to_string()
}

/// Whether a source is a WebM file: its name says so, or its probe says that
/// and nothing else.
pub open spec fn is_webm(s: Source) -> bool {
    ||| path_text::extension(s.path@) matches Some(e) && text::eq_ci(e, "webm"@)
    ||| text::opt_text(s.container) matches Some(c) && text::eq_ci(c, "webm"@)
}

/// The type of a source, given what its extension is taken for.
pub open spec fn mime_given(s: Source, guessed: Option<Seq<char>>) -> Seq<char> {
    if is_webm(s) {
        "video/webm"@
    } else {
        match guessed {
            Some(g) => g,
            None => "application/octet-stream"@,
        }
    }
}

pub open spec fn mime_of(s: Source) -> Seq<char> {
    mime_given(
        s,
        match path_text::extension(s.path@) {
            Some(e) => Some(guessed_mime(e)),
            None => None,
        },
    )
}

/// Whether a source is a WebM file.
pub fn source_is_webm_legal(s: &Source) -> (r: bool)
    ensures
        r == is_webm(*s),
{
    let named = match extension_of(s.path.as_str()) {
        Some(e) => eq_ignore_case(e.as_str(), "webm"),
        None => false,
    };
    let probed = match &s.container {
        Some(c) => eq_ignore_case(c.as_str(), "webm"),
        None => false,
    };
    named || probed
}

impl DeliveryMime {
    pub closed spec fn value(&self) -> Seq<char> {
        self.0@
    }

    /// The type of a source, given what its extension is taken for.
    pub fn for_guess(s: &Source, guessed: Option<String>) -> (r: Self)
        ensures
            r.value() == mime_given(*s, text::opt_text(guessed)),
    {
        if source_is_webm_legal(s) {
            return DeliveryMime("video/webm".to_owned());
        }
        match guessed {
            Some(g) => DeliveryMime(g),
            None => DeliveryMime("application/octet-stream".to_owned()),
        }
    }

    /// The type that a source is served as.
    pub fn for_source(s: &Source) -> (r: Self)
        ensures
            r.value() == mime_of(*s),
    {
        let guessed = match extension_of(s.path.as_str()) {
            Some(e) => Some(guess_mime(e.as_str())),
            None => None,
        };
        DeliveryMime::for_guess(s, guessed)
    }

    /// The value of the `Content-Type` header.
    pub fn header(&self) -> (r: String)
        ensures
            r@ == self.value(),
    {
        self.0.clone()
    }
}

// --------------------------------------------------------------- cut tolerance

/// Whether a container can be cut at any interior byte and still decode.
#[derive(Clone, Copy, Debug, PartialEq, Eq, Structural)]
pub enum CutTolerance {
    /// The index stands at the start or the end: a slice cannot be decoded.
    HeaderPrefixed,
    /// Self-framing: decoding picks up at the next packet.
    Resync,
}

/// Whether a source is of a sort: its container's name contains the tag, or
/// its extension is the tag.
pub open spec fn tagged(s: Source, tag: Seq<char>) -> bool {
    ||| text::opt_text(s.container) matches Some(c) && text::contains(text::lower(c), tag)
    ||| path_text::extension(s.path@) matches Some(e) && text::lower(e) == tag
}

pub open spec fn resyncs(s: Source) -> bool {
    tagged(s, "mpegts"@) || tagged(s, "ts"@) || tagged(s, "aac"@) || tagged(s, "adts"@) || tagged(
        s,
        "mp3"@,
    ) || tagged(s, "mpeg"@)
}

pub open spec fn tolerance_of(s: Source) -> CutTolerance {
    if resyncs(s) {
        CutTolerance::Resync
    } else {
        CutTolerance::HeaderPrefixed
    }
}

fn has_tag(s: &Source, tag: &str) -> (r: bool)
    ensures
        r == tagged(*s, tag@),
{
    let probed = match &s.container {
        Some(c) => has_part(to_lower(c.as_str()).as_str(), tag),
        None => false,
    };
    let named = match extension_of(s.path.as_str()) {
        Some(e) => eq_text(to_lower(e.as_str()).as_str(), tag),
        None => false,
    };
    probed || named
}

impl CutTolerance {
    /// What is not known to resync is taken not to.
    pub fn for_source(s: &Source) -> (r: Self)
        ensures
            r == tolerance_of(*s),
    {
        if has_tag(s, "mpegts") || has_tag(s, "ts") || has_tag(s, "aac") || has_tag(s, "adts")
            || has_tag(s, "mp3") || has_tag(s, "mpeg") {
            CutTolerance::Resync
        } else {
            CutTolerance::HeaderPrefixed
        }
    }
}

/// Evidence that a container resyncs.
#[derive(Clone, Copy, Debug)]
pub struct ResyncWitness(());

impl ResyncWitness {
    /// There is evidence exactly where the container resyncs.
    pub fn of(tolerance: CutTolerance) -> (r: Option<Self>)
        ensures
            r is Some <==> tolerance is Resync,
    {
        match tolerance {
            CutTolerance::Resync => Some(ResyncWitness(())),
            CutTolerance::HeaderPrefixed => None,
        }
    }
}

// ------------------------------------------------------------ seekable delivery

/// The length of a segment, in seconds.
pub const SEGMENT_SECONDS: u32 = 6;

/// How exactly a delivery path honours a seek.
#[derive(Clone, Copy, Debug, PartialEq, Eq, Structural)]
pub enum SeekAccuracy {
    /// To the byte, by the client's own ranges.
    ByteExact,
    /// To the start of a segment.
    SegmentGrid { seg_secs: u32 },
}

/// What every delivery path declares of itself.
pub trait SeekableDelivery {
    spec fn tolerance(&self) -> CutTolerance;

    spec fn exactness(&self) -> SeekAccuracy;

    /// Whether the path may serve a cut from an interior byte.
    fn cut_tolerance(&self) -> (r: CutTolerance)
        ensures
            r == self.tolerance(),
    ;

    /// How exact a seek is.
    fn accuracy(&self) -> (r: SeekAccuracy)
        ensures
            r == self.exactness(),
    ;
}

/// The source file itself, by byte ranges.
pub struct DirectPlayDelivery<'a> {
    pub item: &'a Source,
}

impl<'a> SeekableDelivery for DirectPlayDelivery<'a> {
    open spec fn tolerance(&self) -> CutTolerance {
        tolerance_of(*self.item)
    }

    open spec fn exactness(&self) -> SeekAccuracy {
        SeekAccuracy::ByteExact
    }

    fn cut_tolerance(&self) -> (r: CutTolerance) {
        CutTolerance::for_source(self.item)
    }

    fn accuracy(&self) -> (r: SeekAccuracy) {
        SeekAccuracy::ByteExact
    }
}

/// Whole segments of a fixed length.
pub struct SegmentDelivery;

impl SeekableDelivery for SegmentDelivery {
    open spec fn tolerance(&self) -> CutTolerance {
        CutTolerance::HeaderPrefixed
    }

    open spec fn exactness(&self) -> SeekAccuracy {
        SeekAccuracy::SegmentGrid { seg_secs: SEGMENT_SECONDS }
    }

    fn cut_tolerance(&self) -> (r: CutTolerance) {
        CutTolerance::HeaderPrefixed
    }

    fn accuracy(&self) -> (r: SeekAccuracy) {
        SeekAccuracy::SegmentGrid { seg_secs: SEGMENT_SECONDS }
    }
}

// ------------------------------------------------------------------------ laws

/// A client that asks for one capped window after the other gets every byte
/// once: a window is never empty, never longer than the cap, never past the end
/// of the file, and shorter than the cap only where it ends with the file.
pub proof fn law_windows_cover_the_file(offset: int, total: int, max_len: int)
    requires
        0 <= offset < total,
        max_len > 0,
    ensures
        offset <= window_last(offset, total, max_len) < total,
        window_last(offset, total, max_len) - offset + 1 <= max_len,
        window_last(offset, total, max_len) + 1 < total ==> window_last(offset, total, max_len)
            - offset + 1 == max_len,
{
}

/// What a client is told a range holds is what the window over it holds: the
/// number of bytes served for an open range is the length of the window that
/// starts there.
pub proof fn law_open_ranges_reach_the_end(start: int, total: int)
    requires
        0 <= start < total,
    ensures
        last_byte(None, total) == window_last(start, total, total - start),
        forall|cap: int| #[trigger]
            window_last(start, total, cap) <= last_byte(None, total),
{
}

/// The header that asks for a range.
pub open spec fn range_text(start: u64, end: Option<u64>) -> Seq<char> {
    "bytes="@ + text::decimal(start as nat) + seq!['-'] + match end {
        Some(e) => text::decimal(e as nat),
        None => Seq::empty(),
    }
}

/// A range that is written into a header is read back as it was.
pub proof fn law_written_ranges_read_back(start: u64, end: Option<u64>)
    requires
        end matches Some(e) ==> start <= e,
    ensures
        range_of(range_text(start, end)) == Some(
            (
                start as int,
                match end {
                    Some(e) => Some(e as int),
                    None => None,
                },
            ),
        ),
{
    reveal_strlit("bytes=");
    let a = text::decimal(start as nat);
    let b = match end {
        Some(e) => text::decimal(e as nat),
        None => Seq::empty(),
    };
    text::lemma_decimal_digits(start as nat);
    text::law_decimal_reads_back(start as nat, u64::MAX as int);
    if let Some(e) = end {
        text::lemma_decimal_digits(e as nat);
        text::law_decimal_reads_back(e as nat, u64::MAX as int);
    }
    text::lemma_trim_digits(a);
    text::lemma_trim_digits(b);
    let h = range_text(start, end);
    let spec = a + seq!['-'] + b;
    assert(h =~= "bytes="@ + spec);
    assert(spec.last() == '-' || text::is_digit(spec.last())) by {
        if b.len() > 0 {
            assert(spec.last() == b.last());
            assert(text::is_digit(b[b.len() - 1]));
        }
    }
    assert(h[0] == 'b');
    assert(h.last() == spec.last());
    assert(text::trim(h) == h);
    assert(h.subrange(0, 6) =~= "bytes="@);
    assert(h.subrange(6, h.len() as int) =~= spec);
    assert forall|i: int| 0 <= i < a.len() implies spec[i] != '-' && spec[i] != ',' by {
        assert(spec[i] == a[i]);
        assert(text::is_digit(a[i]));
    }
    assert forall|i: int| a.len() < i < spec.len() implies spec[i] != ',' by {
        assert(spec[i] == b[i - a.len() - 1]);
        assert(text::is_digit(b[i - a.len() - 1]));
    }
    assert(spec[a.len() as int] == '-');
    assert(!spec.contains(','));
    text::lemma_find_char(spec, '-', a.len() as int);
    assert(spec.subrange(0, a.len() as int) =~= a);
    assert(spec.subrange(a.len() as int + 1, spec.len() as int) =~= b);
}

/// A container that frames itself can be cut anywhere: MPEG transport streams,
/// ADTS and MP3, by what the probe says or by the name of the file. Any other is
/// taken not to.
pub proof fn law_what_can_be_cut(s: Source)
    ensures
        s.container is Some && (text::contains(text::lower(s.container->0@), "mpegts"@)
            || text::contains(text::lower(s.container->0@), "aac"@) || text::contains(
            text::lower(s.container->0@),
            "mp3"@,
        )) ==> tolerance_of(s) == CutTolerance::Resync,
        path_text::extension(s.path@) is Some && {
            let e = text::lower(path_text::extension(s.path@)->0);
            e == "ts"@ || e == "aac"@ || e == "mp3"@
        } ==> tolerance_of(s) == CutTolerance::Resync,
        s.container is None && path_text::extension(s.path@) is Some && {
            let e = text::lower(path_text::extension(s.path@)->0);
            e == "mp4"@ || e == "mkv"@ || e == "webm"@ || e == "flac"@
        } ==> tolerance_of(s) == CutTolerance::HeaderPrefixed,
        s.container is None && path_text::extension(s.path@) is None ==> tolerance_of(s)
            == CutTolerance::HeaderPrefixed,
        tolerance_of(s) == CutTolerance::Resync <==> resyncs(s),
{
    reveal_strlit("mpegts");
    reveal_strlit("ts");
    reveal_strlit("aac");
    reveal_strlit("adts");
    reveal_strlit("mp3");
    reveal_strlit("mpeg");
    reveal_strlit("mp4");
    reveal_strlit("mkv");
    reveal_strlit("webm");
    reveal_strlit("flac");
    assert("mp4"@[2] == '4' && "mp3"@[2] == '3' && "aac"@[0] == 'a' && "mkv"@[1] == 'k' && "mp3"@[1]
        == 'p' && "mp4"@[0] == 'm' && "mkv"@[0] == 'm');
    assert("webm"@[0] == 'w' && "flac"@[0] == 'f' && "adts"@[0] == 'a' && "mpeg"@[0] == 'm');
}

/// A WebM file is served as WebM, and any other as what its extension is taken
/// for.
pub proof fn law_files_are_served_as_what_they_are(s: Source, guess: Seq<char>)
    ensures
        path_text::extension(s.path@) is Some && text::lower(path_text::extension(s.path@)->0)
            == "webm"@ ==> mime_given(s, Some(guess)) == "video/webm"@,
        s.container is Some && text::lower(s.container->0@) == "webm"@ ==> mime_given(s, Some(guess))
            == "video/webm"@,
        !is_webm(s) ==> mime_given(s, Some(guess)) == guess && mime_given(s, None)
            == "application/octet-stream"@,
        is_webm(s) ==> (path_text::extension(s.path@) is Some && text::lower(
            path_text::extension(s.path@)->0,
        ) == "webm"@) || (s.container is Some && text::lower(s.container->0@) == "webm"@),
{
    reveal_strlit("webm");
    assert(text::lower("webm"@) =~= "webm"@);
}

/// The header of a window names its first byte, its last byte and the length of
/// the file.
pub proof fn law_headers_name_their_bytes(w: ContentRange)
    ensures
        text::starts_with(w.header(), "bytes "@ + text::decimal(w.first() as nat) + "-"@),
        text::ends_with(
            w.header(),
            "-"@ + text::decimal(w.last() as nat) + "/"@ + text::decimal(w.file_len() as nat),
        ),
        w.len() == w.last() - w.first() + 1,
{
    let h = w.header();
    let a = "bytes "@ + text::decimal(w.first() as nat) + "-"@;
    let b = "-"@ + text::decimal(w.last() as nat) + "/"@ + text::decimal(w.file_len() as nat);
    assert(h.subrange(0, a.len() as int) =~= a);
    assert(h.subrange(h.len() - b.len(), h.len() as int) =~= b);
}

} // verus!
