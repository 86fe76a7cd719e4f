//! Text as sequences of characters: the small vocabulary of string operations
//! that requests, headers and query strings are read with.

use vstd::prelude::*;
use vstd::string::*;

verus! {

/// `String::push` of std: appends one character at the end.
pub assume_specification[ String::push ](s: &mut String, c: char)
    ensures
        final(s)@ == old(s)@.push(c),
;

// ---------------------------------------------------------------- characters

/// The ASCII lower-case counterpart of a character.
pub open spec fn lower_char(c: char) -> char {
    if 'A' <= c <= 'Z' {
        (c as u32 + 32) as char
    } else {
        c
    }
}

/// The ASCII upper-case counterpart of a character.
pub open spec fn upper_char(c: char) -> char {
    if 'a' <= c <= 'z' {
        (c as u32 - 32) as char
    } else {
        c
    }
}

pub open spec fn is_digit(c: char) -> bool {
    '0' <= c <= '9'
}

pub open spec fn is_alpha(c: char) -> bool {
    'a' <= c <= 'z' || 'A' <= c <= 'Z'
}

/// The characters that Unicode calls white space.
pub open spec fn is_white(c: char) -> bool {
    ||| 0x9u32 <= c as u32 <= 0xdu32
    ||| c as u32 == 0x20u32
    ||| c as u32 == 0x85u32
    ||| c as u32 == 0xa0u32
    ||| c as u32 == 0x1680u32
    ||| 0x2000u32 <= c as u32 <= 0x200au32
    ||| c as u32 == 0x2028u32
    ||| c as u32 == 0x2029u32
    ||| c as u32 == 0x202fu32
    ||| c as u32 == 0x205fu32
    ||| c as u32 == 0x3000u32
}

/// A character in ASCII lower case.
pub fn char_to_lower(c: char) -> (r: char)
    ensures
        r == lower_char(c),
{
    if 'A' <= c && c <= 'Z' {
        (c as u8 + 32) as char
    } else {
        c
    }
}

/// A character in ASCII upper case.
pub fn char_to_upper(c: char) -> (r: char)
    ensures
        r == upper_char(c),
{
    if 'a' <= c && c <= 'z' {
        (c as u8 - 32) as char
    } else {
        c
    }
}

/// Whether a character is white space.
pub fn char_is_white(c: char) -> (r: bool)
    ensures
        r == is_white(c),
{
    let u: u32 = c as u32;
    (0x9 <= u && u <= 0xd) || u == 0x20 || u == 0x85 || u == 0xa0 || u == 0x1680 || (0x2000 <= u && u
        <= 0x200a) || u == 0x2028 || u == 0x2029 || u == 0x202f || u == 0x205f || u == 0x3000
}

// ------------------------------------------------------------------- models

/// ASCII lower-casing, character by character.
pub open spec fn lower(s: Seq<char>) -> Seq<char> {
    Seq::new(s.len(), |i: int| lower_char(s[i]))
}

/// Equality up to ASCII case.
pub open spec fn eq_ci(a: Seq<char>, b: Seq<char>) -> bool {
    lower(a) == lower(b)
}

pub open spec fn trim_start(s: Seq<char>) -> Seq<char>
    decreases s.len(),
{
    if s.len() > 0 && is_white(s[0]) {
        trim_start(s.subrange(1, s.len() as int))
    } else {
        s
    }
}

pub open spec fn trim_end(s: Seq<char>) -> Seq<char>
    decreases s.len(),
{
    if s.len() > 0 && is_white(s.last()) {
        trim_end(s.drop_last())
    } else {
        s
    }
}

/// The text without white space at either end.
pub open spec fn trim(s: Seq<char>) -> Seq<char> {
    trim_end(trim_start(s))
}

/// Where `c` first stands in `s`; the length of `s` where it does not.
pub open spec fn find_char(s: Seq<char>, c: char) -> int
    decreases s.len(),
{
    if s.len() == 0 || s[0] == c {
        0
    } else {
        1 + find_char(s.subrange(1, s.len() as int), c)
    }
}

/// The pieces of `s` between the occurrences of `c`, empty ones kept.
pub open spec fn split(s: Seq<char>, c: char) -> Seq<Seq<char>>
    decreases s.len(),
{
    let i = find_char(s, c);
    if 0 <= i < s.len() {
        seq![s.subrange(0, i)] + split(s.subrange(i + 1, s.len() as int), c)
    } else {
        seq![s]
    }
}

/// `s` cut at the first `c`.
pub open spec fn split_once(s: Seq<char>, c: char) -> Option<(Seq<char>, Seq<char>)> {
    let i = find_char(s, c);
    if 0 <= i < s.len() {
        Some((s.subrange(0, i), s.subrange(i + 1, s.len() as int)))
    } else {
        None
    }
}

/// Whether `part` stands in `s` at `i`.
pub open spec fn occurs_at(s: Seq<char>, part: Seq<char>, i: int) -> bool {
    0 <= i && i + part.len() <= s.len() && s.subrange(i, i + part.len()) == part
}

pub open spec fn contains(s: Seq<char>, part: Seq<char>) -> bool {
    exists|i: int| occurs_at(s, part, i)
}

pub open spec fn starts_with(s: Seq<char>, part: Seq<char>) -> bool {
    occurs_at(s, part, 0)
}

pub open spec fn ends_with(s: Seq<char>, part: Seq<char>) -> bool {
    occurs_at(s, part, s.len() - part.len())
}

pub open spec fn all_digits(s: Seq<char>) -> bool {
    forall|i: int| 0 <= i < s.len() ==> is_digit(#[trigger] s[i])
}

/// The number that a row of decimal digits writes down.
pub open spec fn digits_value(s: Seq<char>) -> int
    decreases s.len(),
{
    if s.len() == 0 {
        0
    } else {
        digits_value(s.drop_last()) * 10 + (s.last() as int - '0' as int)
    }
}

/// What is left behind an optional leading `+`.
pub open spec fn unsigned_digits(s: Seq<char>) -> Seq<char> {
    if s.len() > 0 && s[0] == '+' {
        s.subrange(1, s.len() as int)
    } else {
        s
    }
}

/// An unsigned decimal number no larger than `max`: one or more digits, with an
/// optional `+` in front.
pub open spec fn parse_unsigned(s: Seq<char>, max: int) -> Option<int> {
    let d = unsigned_digits(s);
    if d.len() > 0 && all_digits(d) && digits_value(d) <= max {
        Some(digits_value(d))
    } else {
        None
    }
}

/// A signed 64-bit decimal number.
pub open spec fn parse_signed(s: Seq<char>) -> Option<int> {
    if s.len() > 0 && s[0] == '-' {
        let d = s.subrange(1, s.len() as int);
        if d.len() > 0 && all_digits(d) && digits_value(d) <= 0x8000_0000_0000_0000 {
            Some(-digits_value(d))
        } else {
            None
        }
    } else {
        parse_unsigned(s, i64::MAX as int)
    }
}

/// The decimal writing of a natural number.
pub open spec fn decimal(n: nat) -> Seq<char>
    decreases n,
{
    if n < 10 {
        seq![('0' as u32 + n) as char]
    } else {
        decimal(n / 10).push(('0' as u32 + n % 10) as char)
    }
}

/// The decimal writing of an integer.
pub open spec fn signed_decimal(n: int) -> Seq<char> {
    if n < 0 {
        seq!['-'] + decimal((-n) as nat)
    } else {
        decimal(n as nat)
    }
}

/// The view of an optional string.
pub open spec fn opt_text(o: Option<String>) -> Option<Seq<char>> {
    match o {
        Some(s) => Some(s@),
        None => None,
    }
}

/// The views of a row of string slices.
pub open spec fn names(v: Seq<&str>) -> Seq<Seq<char>> {
    Seq::new(v.len(), |i: int| v[i]@)
}

/// The trimmed pieces that are not empty.
pub open spec fn filled(pieces: Seq<Seq<char>>) -> Seq<Seq<char>>
    decreases pieces.len(),
{
    if pieces.len() == 0 {
        Seq::empty()
    } else {
        let rest = filled(pieces.drop_last());
        if trim(pieces.last()).len() > 0 {
            rest.push(trim(pieces.last()))
        } else {
            rest
        }
    }
}

/// A comma-separated list: its entries, trimmed, without the empty ones.
pub open spec fn csv(s: Seq<char>) -> Seq<Seq<char>> {
    filled(split(s, ','))
}

/// Whether an entry of a comma-separated list, trimmed and in lower case, is
/// one of `wanted`.
pub open spec fn csv_names(s: Seq<char>, wanted: Seq<Seq<char>>) -> bool {
    exists|i: int|
        0 <= i < split(s, ',').len() && wanted.contains(lower(trim(#[trigger] split(s, ',')[i])))
}

// ------------------------------------------------------------ basic functions

/// The characters of a text.
pub fn chars_of(s: &str) -> (r: Vec<char>)
    ensures
        r@ == s@,
{
    let mut out: Vec<char> = Vec::new();
    for c in it: s.chars()
        invariant
            out@ == it.seq().take(it.index()),
            it.seq() == s@,
    {
        out.push(c);
    }
    assert(out@ == s@);
    out
}

/// The text made of a row of characters.
pub fn text_of(v: &[char]) -> (r: String)
    ensures
        r@ == v@,
{
    let mut out: String = String::new();
    let mut i: usize = 0;
    while i < v.len()
        invariant
            i <= v.len(),
            out@ == v@.take(i as int),
        decreases v.len() - i,
    {
        out.push(v[i]);
        i += 1;
        assert(v@.take(i as int) == v@.take(i - 1).push(v@[i - 1]));
    }
    assert(v@.take(i as int) == v@);
    out
}

/// Whether two texts are the same.
pub fn eq_text(a: &str, b: &str) -> (r: bool)
    ensures
        r == (a@ == b@),
{
    a.to_owned() == b.to_owned()
}

/// A copy of an optional string.
pub fn copy_opt(o: &Option<String>) -> (r: Option<String>)
    ensures
        opt_text(r) == opt_text(*o),
{
    match o {
        Some(s) => Some(s.clone()),
        None => None,
    }
}

/// ASCII lower-casing.
pub fn to_lower(s: &str) -> (r: String)
    ensures
        r@ == lower(s@),
{
    let v = chars_of(s);
    let mut out: String = String::new();
    let mut i: usize = 0;
    while i < v.len()
        invariant
            i <= v.len(),
            v@ == s@,
            out@ == lower(s@).take(i as int),
        decreases v.len() - i,
    {
        out.push(char_to_lower(v[i]));
        i += 1;
        assert(lower(s@).take(i as int) == lower(s@).take(i - 1).push(lower(s@)[i - 1]));
    }
    assert(lower(s@).take(i as int) == lower(s@));
    out
}

/// Whether two texts are the same but for ASCII case.
pub fn eq_ignore_case(a: &str, b: &str) -> (r: bool)
    ensures
        r == eq_ci(a@, b@),
{
    to_lower(a) == to_lower(b)
}

// -------------------------------------------------------------------- search

/// The shape that `find_char` returns is the only one it can have.
pub proof fn lemma_find_char(s: Seq<char>, c: char, i: int)
    requires
        0 <= i <= s.len(),
        forall|k: int| 0 <= k < i ==> s[k] != c,
        i < s.len() ==> s[i] == c,
    ensures
        find_char(s, c) == i,
    decreases s.len(),
{
    if i > 0 {
        let t = s.subrange(1, s.len() as int);
        assert forall|k: int| 0 <= k < i - 1 implies t[k] != c by {
            assert(t[k] == s[k + 1]);
        }
        lemma_find_char(t, c, i - 1);
    }
}

/// A text that starts with no white space keeps all up to a character that is
/// none when it is trimmed.
pub proof fn lemma_trim_keeps(s: Seq<char>, n: int)
    requires
        0 < n <= s.len(),
        !is_white(s[0]),
        !is_white(s[n - 1]),
    ensures
        n <= trim(s).len() <= s.len(),
        trim(s) == s.take(trim(s).len() as int),
    decreases s.len(),
{
    if is_white(s.last()) {
        let front = s.drop_last();
        assert(front[0] == s[0] && front[n - 1] == s[n - 1]);
        lemma_trim_keeps(front, n);
        assert(trim(s) == trim(front));
        assert(s.take(trim(s).len() as int) =~= front.take(trim(s).len() as int));
    } else {
        assert(s.take(s.len() as int) =~= s);
    }
}

/// `find_char` stays within the text, and stops at the first `c`.
pub proof fn lemma_find_char_bounds(s: Seq<char>, c: char)
    ensures
        0 <= find_char(s, c) <= s.len(),
        forall|k: int| 0 <= k < find_char(s, c) ==> s[k] != c,
        find_char(s, c) < s.len() ==> s[find_char(s, c)] == c,
    decreases s.len(),
{
    if s.len() > 0 && s[0] != c {
        let t = s.subrange(1, s.len() as int);
        lemma_find_char_bounds(t, c);
        assert forall|k: int| 0 <= k < find_char(s, c) implies s[k] != c by {
            if k > 0 {
                assert(s[k] == t[k - 1]);
            }
        }
    }
}

/// Where `c` first stands in `v` at or after `from`.
pub fn find_from(v: &[char], from: usize, c: char) -> (r: usize)
    requires
        from <= v@.len(),
    ensures
        from <= r <= v@.len(),
        r == from + find_char(v@.subrange(from as int, v@.len() as int), c),
{
    let mut i: usize = from;
    while i < v.len() && v[i] != c
        invariant
            from <= i <= v@.len(),
            forall|k: int| from <= k < i ==> v@[k] != c,
        decreases v@.len() - i,
    {
        i += 1;
    }
    proof {
        let t = v@.subrange(from as int, v@.len() as int);
        assert forall|k: int| 0 <= k < i - from implies t[k] != c by {
            assert(t[k] == v@[from + k]);
        }
        lemma_find_char(t, c, i - from);
    }
    i
}

/// The views of a row of strings.
pub open spec fn texts(v: Seq<String>) -> Seq<Seq<char>> {
    Seq::new(v.len(), |i: int| v[i]@)
}

/// A copy of the characters from `a` up to `b`.
pub fn slice_text(v: &[char], a: usize, b: usize) -> (r: String)
    requires
        a <= b <= v@.len(),
    ensures
        r@ == v@.subrange(a as int, b as int),
{
    let mut out: String = String::new();
    let mut i: usize = a;
    while i < b
        invariant
            a <= i <= b <= v@.len(),
            out@ == v@.subrange(a as int, i as int),
        decreases b - i,
    {
        out.push(v[i]);
        i += 1;
        assert(v@.subrange(a as int, i as int) == v@.subrange(a as int, i - 1).push(v@[i - 1]));
    }
    out
}

/// The pieces of a text between the occurrences of `c`.
pub fn split_on(s: &str, c: char) -> (r: Vec<String>)
    ensures
        texts(r@) == split(s@, c),
{
    let v = chars_of(s);
    let mut out: Vec<String> = Vec::new();
    let mut from: usize = 0;
    let mut done: bool = false;
    proof {
        assert(v@.subrange(0, v@.len() as int) == s@);
        assert(texts(out@) == Seq::<Seq<char>>::empty());
        assert(split(s@, c) == texts(out@) + split(s@, c));
    }
    while !done
        invariant
            v@ == s@,
            from <= v@.len(),
            !done ==> split(s@, c) == texts(out@) + split(
                v@.subrange(from as int, v@.len() as int),
                c,
            ),
            done ==> split(s@, c) == texts(out@),
        decreases (if done { 0int } else { 1 + v@.len() - from }),
    {
        let ghost rest = v@.subrange(from as int, v@.len() as int);
        let ghost before = texts(out@);
        let i = find_from(v.as_slice(), from, c);
        let piece = slice_text(v.as_slice(), from, i);
        out.push(piece);
        proof {
            assert(texts(out@) == before.push(piece@));
            assert(piece@ == rest.subrange(0, i - from));
        }
        if i < v.len() {
            proof {
                let tail = v@.subrange(i + 1, v@.len() as int);
                assert(tail == rest.subrange(i - from + 1, rest.len() as int));
                assert(split(rest, c) == seq![piece@] + split(tail, c));
                assert(before + (seq![piece@] + split(tail, c)) == texts(out@) + split(tail, c));
            }
            from = i + 1;
        } else {
            proof {
                assert(piece@ == rest);
                assert(split(rest, c) == seq![piece@]);
                assert(before + seq![piece@] == texts(out@));
            }
            done = true;
        }
    }
    out
}

/// Cuts a text at the first `c`.
pub fn cut_at(s: &str, c: char) -> (r: Option<(String, String)>)
    ensures
        match r {
            Some((a, b)) => split_once(s@, c) == Some((a@, b@)),
            None => split_once(s@, c) is None,
        },
{
    let v = chars_of(s);
    let i = find_from(v.as_slice(), 0, c);
    proof {
        assert(v@.subrange(0, v@.len() as int) == s@);
    }
    if i < v.len() {
        Some((slice_text(v.as_slice(), 0, i), slice_text(v.as_slice(), i + 1, v.len())))
    } else {
        None
    }
}

/// Whether `part` stands in `v` at `i`.
pub fn part_at(v: &[char], part: &[char], i: usize) -> (r: bool)
    ensures
        r == occurs_at(v@, part@, i as int),
{
    if i > v.len() || part.len() > v.len() - i {
        return false;
    }
    let n: usize = v.len();
    let mut k: usize = 0;
    while k < part.len()
        invariant
            n == v@.len(),
            i + part@.len() <= n,
            k <= part@.len(),
            forall|j: int| 0 <= j < k ==> v@[i + j] == part@[j],
        decreases part@.len() - k,
    {
        if v[i + k] != part[k] {
            proof {
                assert(v@.subrange(i as int, i + part@.len())[k as int] == v@[i + k]);
            }
            return false;
        }
        k += 1;
    }
    assert(v@.subrange(i as int, i + part@.len()) == part@);
    true
}

/// Whether a text holds another.
pub fn has_part(s: &str, part: &str) -> (r: bool)
    ensures
        r == contains(s@, part@),
{
    let v = chars_of(s);
    let p = chars_of(part);
    let mut i: usize = 0;
    while i < v.len()
        invariant
            v@ == s@,
            p@ == part@,
            i <= v@.len(),
            forall|k: int| 0 <= k < i ==> !occurs_at(s@, part@, k),
        decreases v@.len() - i,
    {
        if part_at(v.as_slice(), p.as_slice(), i) {
            return true;
        }
        i += 1;
    }
    part_at(v.as_slice(), p.as_slice(), i)
}

/// Whether a text begins with another.
pub fn has_prefix(s: &str, part: &str) -> (r: bool)
    ensures
        r == starts_with(s@, part@),
{
    let v = chars_of(s);
    let p = chars_of(part);
    part_at(v.as_slice(), p.as_slice(), 0)
}

/// Whether a text ends with another.
pub fn has_suffix(s: &str, part: &str) -> (r: bool)
    ensures
        r == ends_with(s@, part@),
{
    let v = chars_of(s);
    let p = chars_of(part);
    if p.len() > v.len() {
        return false;
    }
    part_at(v.as_slice(), p.as_slice(), v.len() - p.len())
}

// ------------------------------------------------------------------ trimming

proof fn lemma_trim_start(s: Seq<char>, i: int)
    requires
        0 <= i <= s.len(),
        forall|k: int| 0 <= k < i ==> is_white(s[k]),
        i < s.len() ==> !is_white(s[i]),
    ensures
        trim_start(s) == s.subrange(i, s.len() as int),
    decreases s.len(),
{
    if i > 0 {
        let t = s.subrange(1, s.len() as int);
        assert forall|k: int| 0 <= k < i - 1 implies is_white(t[k]) by {
            assert(t[k] == s[k + 1]);
        }
        lemma_trim_start(t, i - 1);
        assert(t.subrange(i - 1, t.len() as int) == s.subrange(i, s.len() as int));
    } else {
        assert(s.subrange(0, s.len() as int) == s);
    }
}

proof fn lemma_trim_end(s: Seq<char>, j: int)
    requires
        0 <= j <= s.len(),
        forall|k: int| j <= k < s.len() ==> is_white(s[k]),
        j > 0 ==> !is_white(s[j - 1]),
    ensures
        trim_end(s) == s.subrange(0, j),
    decreases s.len(),
{
    if j < s.len() {
        let t = s.drop_last();
        lemma_trim_end(t, j);
        assert(t.subrange(0, j) == s.subrange(0, j));
    } else {
        assert(s.subrange(0, j) == s);
    }
}

/// A number has no white space to lose.
pub proof fn lemma_trim_digits(s: Seq<char>)
    requires
        all_digits(s),
    ensures
        trim(s) == s,
{
    if s.len() > 0 {
        assert(is_digit(s[0]) && is_digit(s[s.len() - 1]));
    }
}

/// The text without white space at its start.
pub fn trimmed_start(s: &str) -> (r: String)
    ensures
        r@ == trim_start(s@),
{
    let v = chars_of(s);
    let mut a: usize = 0;
    while a < v.len() && char_is_white(v[a])
        invariant
            v@ == s@,
            a <= v@.len(),
            forall|k: int| 0 <= k < a ==> is_white(s@[k]),
        decreases v@.len() - a,
    {
        a += 1;
    }
    proof {
        lemma_trim_start(s@, a as int);
    }
    slice_text(v.as_slice(), a, v.len())
}

/// The text without white space at either end.
pub fn trimmed(s: &str) -> (r: String)
    ensures
        r@ == trim(s@),
{
    let v = chars_of(s);
    let mut a: usize = 0;
    while a < v.len() && char_is_white(v[a])
        invariant
            v@ == s@,
            a <= v@.len(),
            forall|k: int| 0 <= k < a ==> is_white(s@[k]),
        decreases v@.len() - a,
    {
        a += 1;
    }
    let mut b: usize = v.len();
    while b > a && char_is_white(v[b - 1])
        invariant
            v@ == s@,
            a <= b <= v@.len(),
            forall|k: int| b <= k < v@.len() ==> is_white(s@[k]),
        decreases b,
    {
        b -= 1;
    }
    proof {
        lemma_trim_start(s@, a as int);
        let t = trim_start(s@);
        assert forall|k: int| b - a <= k < t.len() implies is_white(t[k]) by {
            assert(t[k] == s@[k + a]);
        }
        if b > a {
            assert(t[b - a - 1] == s@[b - 1]);
        }
        lemma_trim_end(t, b - a);
        assert(t.subrange(0, b - a) == s@.subrange(a as int, b as int));
    }
    slice_text(v.as_slice(), a, b)
}

// --------------------------------------------------------------------- lists

/// Whether a text is one of `wanted`.
pub fn one_of(s: &str, wanted: &Vec<&str>) -> (r: bool)
    ensures
        r == names(wanted@).contains(s@),
{
    let mut i: usize = 0;
    while i < wanted.len()
        invariant
            i <= wanted.len(),
            forall|k: int| 0 <= k < i ==> #[trigger] names(wanted@)[k] != s@,
        decreases wanted.len() - i,
    {
        if eq_text(s, wanted[i]) {
            proof {
                assert(names(wanted@)[i as int] == s@);
            }
            return true;
        }
        i += 1;
    }
    false
}

/// Splits a comma-separated list into its trimmed entries, without the empty
/// ones.
pub fn csv_entries(s: &str) -> (r: Vec<String>)
    ensures
        texts(r@) == csv(s@),
{
    let pieces = split_on(s, ',');
    let mut out: Vec<String> = Vec::new();
    let mut i: usize = 0;
    proof {
        assert(texts(out@) == Seq::<Seq<char>>::empty());
        assert(texts(pieces@).take(0) == Seq::<Seq<char>>::empty());
    }
    while i < pieces.len()
        invariant
            i <= pieces.len(),
            texts(pieces@) == split(s@, ','),
            texts(out@) == filled(texts(pieces@).take(i as int)),
        decreases pieces.len() - i,
    {
        let ghost before = out@;
        let t = trimmed(pieces[i].as_str());
        proof {
            let taken = texts(pieces@).take(i + 1);
            assert(taken.drop_last() == texts(pieces@).take(i as int));
            assert(taken.last() == pieces@[i as int]@);
        }
        if !t.as_str().is_empty() {
            out.push(t);
            proof {
                assert(texts(out@) == texts(before).push(t@));
            }
        }
        i += 1;
    }
    proof {
        assert(texts(pieces@).take(i as int) == texts(pieces@));
    }
    out
}

/// Whether an entry of a comma-separated list, trimmed and in lower case, is
/// one of `wanted`.
pub fn csv_has_name(s: &str, wanted: &Vec<&str>) -> (r: bool)
    ensures
        r == csv_names(s@, names(wanted@)),
{
    let pieces = split_on(s, ',');
    let mut i: usize = 0;
    while i < pieces.len()
        invariant
            i <= pieces.len(),
            texts(pieces@) == split(s@, ','),
            forall|k: int|
                0 <= k < i ==> !names(wanted@).contains(lower(trim(#[trigger] split(s@, ',')[k]))),
        decreases pieces.len() - i,
    {
        proof {
            assert(texts(pieces@)[i as int] == pieces@[i as int]@);
        }
        if one_of(to_lower(trimmed(pieces[i].as_str()).as_str()).as_str(), wanted) {
            return true;
        }
        i += 1;
    }
    false
}

// ------------------------------------------------------------------- numbers

/// More digits never make a smaller number.
proof fn lemma_digits_value_grows(s: Seq<char>, i: int)
    requires
        0 <= i <= s.len(),
        all_digits(s),
    ensures
        0 <= digits_value(s.take(i)) <= digits_value(s),
    decreases s.len() - i, s.len(),
{
    if i == s.len() {
        assert(s.take(i) == s);
        lemma_digits_value_nonneg(s);
    } else {
        lemma_digits_value_nonneg(s.take(i));
        let t = s.take(i + 1);
        assert(t.drop_last() == s.take(i));
        assert(is_digit(s[i]));
        lemma_digits_value_grows(s, i + 1);
    }
}

pub proof fn lemma_digits_value_nonneg(s: Seq<char>)
    requires
        all_digits(s),
    ensures
        0 <= digits_value(s),
    decreases s.len(),
{
    if s.len() > 0 {
        assert(is_digit(s[s.len() - 1]));
        assert(all_digits(s.drop_last()));
        lemma_digits_value_nonneg(s.drop_last());
    }
}

/// Reads `v` from `from` on as decimal digits, up to `max`.
fn parse_digits(v: &[char], from: usize, max: u64) -> (r: Option<u64>)
    requires
        from <= v@.len(),
    ensures
        ({
            let d = v@.subrange(from as int, v@.len() as int);
            match r {
                Some(n) => d.len() > 0 && all_digits(d) && digits_value(d) == n && n <= max,
                None => !(d.len() > 0 && all_digits(d) && digits_value(d) <= max),
            }
        }),
{
    let ghost d = v@.subrange(from as int, v@.len() as int);
    if from == v.len() {
        return None;
    }
    let mut acc: u64 = 0;
    let mut i: usize = from;
    proof {
        assert(d.take(0) == Seq::<char>::empty());
    }
    while i < v.len()
        invariant
            from <= i <= v@.len(),
            d == v@.subrange(from as int, v@.len() as int),
            acc == digits_value(d.take(i - from)),
            acc <= max,
            forall|k: int| 0 <= k < i - from ==> is_digit(#[trigger] d[k]),
        decreases v@.len() - i,
    {
        let c: char = v[i];
        proof {
            assert(d[i - from] == c);
            assert(d.take(i - from + 1).drop_last() == d.take(i - from));
        }
        if !('0' <= c && c <= '9') {
            return None;
        }
        let next: u128 = acc as u128 * 10 + (c as u32 - '0' as u32) as u128;
        proof {
            assert(next == digits_value(d.take(i - from + 1)));
        }
        if next > max as u128 {
            proof {
                if all_digits(d) {
                    lemma_digits_value_grows(d, i - from + 1);
                }
            }
            return None;
        }
        acc = next as u64;
        i += 1;
    }
    proof {
        assert(d.take(i - from) == d);
    }
    Some(acc)
}

/// `str::parse` to an unsigned number no larger than `max`.
pub fn parse_up_to(s: &str, max: u64) -> (r: Option<u64>)
    ensures
        match r {
            Some(n) => parse_unsigned(s@, max as int) == Some(n as int),
            None => parse_unsigned(s@, max as int) is None,
        },
{
    let v = chars_of(s);
    if v.len() > 0 && v[0] == '+' {
        parse_digits(v.as_slice(), 1, max)
    } else {
        proof {
            assert(v@.subrange(0, v@.len() as int) == s@);
        }
        parse_digits(v.as_slice(), 0, max)
    }
}

/// Reads a number of up to 64 bits.
pub fn parse_u64(s: &str) -> (r: Option<u64>)
    ensures
        match r {
            Some(n) => parse_unsigned(s@, u64::MAX as int) == Some(n as int),
            None => parse_unsigned(s@, u64::MAX as int) is None,
        },
{
    parse_up_to(s, u64::MAX)
}

/// Reads a number of up to 32 bits.
pub fn parse_u32(s: &str) -> (r: Option<u32>)
    ensures
        match r {
            Some(n) => parse_unsigned(s@, u32::MAX as int) == Some(n as int),
            None => parse_unsigned(s@, u32::MAX as int) is None,
        },
{
    match parse_up_to(s, u32::MAX as u64) {
        Some(n) => {
            proof {
                lemma_parse_unsigned_range(s@, u32::MAX as int);
            }
            Some(n as u32)
        },
        None => None,
    }
}

/// What is read never exceeds the bound.
proof fn lemma_parse_unsigned_range(s: Seq<char>, max: int)
    ensures
        parse_unsigned(s, max) matches Some(n) ==> 0 <= n <= max,
{
    let d = unsigned_digits(s);
    if all_digits(d) {
        lemma_digits_value_nonneg(d);
    }
}

/// Reads a signed number of up to 64 bits.
pub fn parse_i64(s: &str) -> (r: Option<i64>)
    ensures
        match r {
            Some(n) => parse_signed(s@) == Some(n as int),
            None => parse_signed(s@) is None,
        },
{
    let v = chars_of(s);
    if v.len() > 0 && v[0] == '-' {
        match parse_digits(v.as_slice(), 1, 0x8000_0000_0000_0000) {
            Some(n) => if n == 0x8000_0000_0000_0000 {
                Some(i64::MIN)
            } else {
                Some(-(n as i64))
            },
            None => None,
        }
    } else {
        match parse_up_to(s, i64::MAX as u64) {
            Some(n) => {
                proof {
                    lemma_parse_unsigned_range(s@, i64::MAX as int);
                }
                Some(n as i64)
            },
            None => None,
        }
    }
}

/// The decimal writing of a number.
pub fn decimal_text(n: u64) -> (r: String)
    ensures
        r@ == decimal(n as nat),
    decreases n,
{
    if n < 10 {
        let mut s: String = String::new();
        s.push((48 + n as u8) as char);
        s
    } else {
        let mut s = decimal_text(n / 10);
        s.push((48 + (n % 10) as u8) as char);
        s
    }
}

/// The decimal writing of an integer.
pub fn signed_decimal_text(n: i64) -> (r: String)
    ensures
        r@ == signed_decimal(n as int),
{
    if n < 0 {
        let mut s: String = String::new();
        s.push('-');
        let m: u64 = if n == i64::MIN {
            0x8000_0000_0000_0000
        } else {
            (-n) as u64
        };
        s.append(decimal_text(m).as_str());
        s
    } else {
        decimal_text(n as u64)
    }
}

/// Reading back the decimal writing of a number gives the number.
pub proof fn law_decimal_reads_back(n: nat, max: int)
    requires
        n <= max,
    ensures
        parse_unsigned(decimal(n), max) == Some(n as int),
{
    lemma_decimal_digits(n);
    assert(unsigned_digits(decimal(n)) == decimal(n)) by {
        assert(is_digit(decimal(n)[0]));
    }
}

pub proof fn lemma_decimal_digits(n: nat)
    ensures
        decimal(n).len() > 0,
        all_digits(decimal(n)),
        digits_value(decimal(n)) == n,
    decreases n,
{
    if n < 10 {
        assert(decimal(n).drop_last() == Seq::<char>::empty());
        assert(digits_value(Seq::<char>::empty()) == 0);
    } else {
        lemma_decimal_digits(n / 10);
        assert(decimal(n).drop_last() == decimal(n / 10));
    }
}

// ----------------------------------------------------------- what std computes

/// What `String::from_utf8_lossy` of std makes of bytes.
pub uninterp spec fn lossy_text(bytes: Seq<u8>) -> Seq<char>;

/// `String::from_utf8_lossy` of std: the bytes read as UTF-8, with a
/// replacement character for what is not.
#[verifier::external_body]
pub(crate) fn to_lossy_text(bytes: &[u8]) -> (r: String)
    ensures
        r@ == lossy_text(bytes@),
{
    String::from_utf8_lossy(bytes).into_owned()
}

/// What `str::to_lowercase` of std makes of a text.
pub uninterp spec fn unicode_lower(s: Seq<char>) -> Seq<char>;

/// `str::to_lowercase` of std: the text in lower case by Unicode's rules, a
/// function of the text alone.
#[verifier::external_body]
pub(crate) fn to_unicode_lower(s: &str) -> (r: String)
    ensures
        r@ == unicode_lower(s@),
{
    s.to_lowercase()
}

// ------------------------------------------------------------------------ laws

/// A capital letter has the small letter at its place in the alphabet, and the
/// other way round; nothing else has a counterpart.
pub proof fn law_letters_have_counterparts(c: char)
    ensures
        'A' <= c <= 'Z' ==> lower_char(c) as int - 'a' as int == c as int - 'A' as int,
        !('A' <= c <= 'Z') ==> lower_char(c) == c,
        'a' <= c <= 'z' ==> upper_char(c) as int - 'A' as int == c as int - 'a' as int,
        !('a' <= c <= 'z') ==> upper_char(c) == c,
        'a' <= c <= 'z' ==> lower_char(upper_char(c)) == c,
{
}

/// Texts are alike up to case exactly where they are as long as each other and
/// each letter is the other's or its counterpart.
pub proof fn law_alike_up_to_case(a: Seq<char>, b: Seq<char>)
    ensures
        eq_ci(a, b) <==> a.len() == b.len() && forall|i: int|
            0 <= i < a.len() ==> lower_char(#[trigger] a[i]) == lower_char(b[i]),
        lower(a).len() == a.len(),
        lower(lower(a)) == lower(a),
        eq_ci(a, lower(a)),
{
    if eq_ci(a, b) {
        assert(lower(a).len() == lower(b).len());
        assert forall|i: int| 0 <= i < a.len() implies lower_char(#[trigger] a[i]) == lower_char(
            b[i],
        ) by {
            assert(lower(a)[i] == lower(b)[i]);
        }
    }
    if a.len() == b.len() && forall|i: int|
        0 <= i < a.len() ==> lower_char(#[trigger] a[i]) == lower_char(b[i]) {
        assert(lower(a) =~= lower(b));
    }
    assert(lower(lower(a)) =~= lower(a));
}

/// A text is its trimmed self with white space around it, and the trimmed one
/// neither begins nor ends with any.
pub proof fn law_trimming_takes_white_space(s: Seq<char>)
    ensures
        exists|a: int, b: int|
            {
                &&& 0 <= a <= b <= s.len()
                &&& trim(s) == #[trigger] s.subrange(a, b)
                &&& forall|i: int| 0 <= i < a ==> is_white(#[trigger] s[i])
                &&& forall|i: int| b <= i < s.len() ==> is_white(#[trigger] s[i])
            },
        trim(s).len() > 0 ==> !is_white(trim(s)[0]) && !is_white(trim(s).last()),
{
    lemma_trim_start_cut(s);
    let a = choose|a: int|
        0 <= a <= s.len() && trim_start(s) == #[trigger] s.subrange(a, s.len() as int) && (forall|
            i: int,
        |
            0 <= i < a ==> is_white(#[trigger] s[i])) && (a < s.len() ==> !is_white(s[a]));
    let t = trim_start(s);
    lemma_trim_end_cut(t);
    let n = choose|n: int|
        0 <= n <= t.len() && trim_end(t) == #[trigger] t.subrange(0, n) && (forall|i: int|
            n <= i < t.len() ==> is_white(#[trigger] t[i])) && (n > 0 ==> !is_white(t[n - 1]));
    let b = a + n;
    assert(trim(s) =~= s.subrange(a, b));
    assert forall|i: int| b <= i < s.len() implies is_white(#[trigger] s[i]) by {
        assert(s[i] == t[i - a]);
    }
}

proof fn lemma_trim_start_cut(s: Seq<char>)
    ensures
        exists|a: int|
            0 <= a <= s.len() && trim_start(s) == #[trigger] s.subrange(a, s.len() as int) && (
            forall|i: int| 0 <= i < a ==> is_white(#[trigger] s[i])) && (a < s.len() ==> !is_white(
                s[a],
            )),
    decreases s.len(),
{
    if s.len() > 0 && is_white(s[0]) {
        let t = s.subrange(1, s.len() as int);
        lemma_trim_start_cut(t);
        let a = choose|a: int|
            0 <= a <= t.len() && trim_start(t) == #[trigger] t.subrange(a, t.len() as int) && (
            forall|i: int| 0 <= i < a ==> is_white(#[trigger] t[i])) && (a < t.len() ==> !is_white(
                t[a],
            ));
        assert(trim_start(s) =~= s.subrange(a + 1, s.len() as int));
        assert forall|i: int| 0 <= i < a + 1 implies is_white(#[trigger] s[i]) by {
            if i > 0 {
                assert(s[i] == t[i - 1]);
            }
        }
        assert(a + 1 < s.len() ==> s[a + 1] == t[a]);
    } else {
        assert(trim_start(s) =~= s.subrange(0, s.len() as int));
    }
}

proof fn lemma_trim_end_cut(s: Seq<char>)
    ensures
        exists|n: int|
            0 <= n <= s.len() && trim_end(s) == #[trigger] s.subrange(0, n) && (forall|i: int|
                n <= i < s.len() ==> is_white(#[trigger] s[i])) && (n > 0 ==> !is_white(s[n - 1])),
    decreases s.len(),
{
    if s.len() > 0 && is_white(s.last()) {
        let t = s.drop_last();
        lemma_trim_end_cut(t);
        let n = choose|n: int|
            0 <= n <= t.len() && trim_end(t) == #[trigger] t.subrange(0, n) && (forall|i: int|
                n <= i < t.len() ==> is_white(#[trigger] t[i])) && (n > 0 ==> !is_white(t[n - 1]));
        assert(trim_end(s) =~= s.subrange(0, n));
        assert forall|i: int| n <= i < s.len() implies is_white(#[trigger] s[i]) by {
            if i < t.len() {
                assert(s[i] == t[i]);
            }
        }
    } else {
        assert(trim_end(s) =~= s.subrange(0, s.len() as int));
    }
}

/// A text starts with a part where it is that part and something behind it, and
/// ends with one where something stands before it. It contains a part that
/// stands anywhere in it.
pub proof fn law_parts_of_a_text(a: Seq<char>, part: Seq<char>, b: Seq<char>)
    ensures
        starts_with(part + b, part),
        ends_with(a + part, part),
        contains(a + part + b, part),
{
    assert((part + b).subrange(0, part.len() as int) =~= part);
    assert((a + part).subrange(a.len() as int, a.len() as int + part.len()) =~= part);
    assert((a + part + b).subrange(a.len() as int, a.len() as int + part.len()) =~= part);
    assert(occurs_at(a + part + b, part, a.len() as int));
}

/// A text that starts with, ends with or contains a part is made of it.
pub proof fn law_a_text_is_made_of_its_parts(s: Seq<char>, part: Seq<char>)
    ensures
        starts_with(s, part) ==> s == part + s.subrange(part.len() as int, s.len() as int),
        ends_with(s, part) ==> s == s.subrange(0, s.len() - part.len()) + part,
        contains(s, part) ==> exists|a: Seq<char>, b: Seq<char>| s == #[trigger] (a + part + b),
{
    if starts_with(s, part) {
        assert(s =~= s.subrange(0, part.len() as int) + s.subrange(
            part.len() as int,
            s.len() as int,
        ));
    }
    if ends_with(s, part) {
        let n = s.len() - part.len();
        assert(s =~= s.subrange(0, n) + s.subrange(n, n + part.len()));
    }
    if contains(s, part) {
        let i = choose|i: int| occurs_at(s, part, i);
        let a = s.subrange(0, i);
        let b = s.subrange(i + part.len(), s.len() as int);
        assert(s =~= a + s.subrange(i, i + part.len()) + b);
        assert(s == a + part + b);
    }
}

/// A text without the mark is one piece; two texts with the mark between them
/// have the pieces of both.
pub proof fn law_texts_split_at_the_mark(a: Seq<char>, c: char, b: Seq<char>)
    ensures
        !a.contains(c) ==> split(a, c) == seq![a],
        split(a.push(c) + b, c) == split(a, c) + split(b, c),
        split(a, c).len() > 0,
    decreases a.len(),
{
    let s = a.push(c) + b;
    lemma_find_char_bounds(a, c);
    lemma_find_char_bounds(s, c);
    let i = find_char(a, c);
    if i < a.len() {
        assert(s[i] == c);
        assert forall|k: int| 0 <= k < i implies s[k] != c by {
            assert(s[k] == a[k]);
        }
        lemma_find_char(s, c, i);
        let t = a.subrange(i + 1, a.len() as int);
        law_texts_split_at_the_mark(t, c, b);
        assert(s.subrange(0, i) =~= a.subrange(0, i));
        assert(s.subrange(i + 1, s.len() as int) =~= t.push(c) + b);
        assert(split(s, c) =~= split(a, c) + split(b, c));
        assert(a.contains(c));
    } else {
        assert forall|k: int| 0 <= k < a.len() implies s[k] != c by {
            assert(s[k] == a[k]);
        }
        lemma_find_char(s, c, a.len() as int);
        assert(s.subrange(0, a.len() as int) =~= a);
        assert(s.subrange(a.len() as int + 1, s.len() as int) =~= b);
        assert(split(s, c) =~= split(a, c) + split(b, c));
    }
}

proof fn lemma_filled_joins(a: Seq<Seq<char>>, b: Seq<Seq<char>>)
    ensures
        filled(a + b) == filled(a) + filled(b),
    decreases b.len(),
{
    if b.len() == 0 {
        assert(a + b =~= a);
        assert(filled(a) + filled(b) =~= filled(a));
    } else {
        assert((a + b).drop_last() =~= a + b.drop_last());
        assert((a + b).last() == b.last());
        lemma_filled_joins(a, b.drop_last());
        assert(filled(a + b) =~= filled(a) + filled(b));
    }
}

/// A list without a comma is its one entry, trimmed, unless it is blank; two
/// lists with a comma between them have the entries of both.
pub proof fn law_lists_join_at_the_comma(a: Seq<char>, b: Seq<char>)
    ensures
        !a.contains(',') && trim(a).len() > 0 ==> csv(a) == seq![trim(a)],
        !a.contains(',') && trim(a).len() == 0 ==> csv(a).len() == 0,
        csv(a.push(',') + b) == csv(a) + csv(b),
{
    law_texts_split_at_the_mark(a, ',', b);
    lemma_filled_joins(split(a, ','), split(b, ','));
    if !a.contains(',') {
        let one = seq![a];
        assert(one.drop_last() =~= Seq::<Seq<char>>::empty());
        assert(one.last() == a);
        assert(filled(one.drop_last()) =~= Seq::<Seq<char>>::empty());
        assert(filled(one) =~= (if trim(a).len() > 0 {
            seq![trim(a)]
        } else {
            Seq::empty()
        }));
    }
}

/// A text is cut at its first mark, where it has one.
pub proof fn law_a_text_is_cut_once(a: Seq<char>, c: char, b: Seq<char>)
    requires
        !a.contains(c),
    ensures
        split_once(a.push(c) + b, c) == Some((a, b)),
        split_once(a, c) is None,
{
    let s = a.push(c) + b;
    assert forall|k: int| 0 <= k < a.len() implies s[k] != c by {
        assert(s[k] == a[k]);
    }
    lemma_find_char(s, c, a.len() as int);
    assert forall|k: int| 0 <= k < a.len() implies a[k] != c by {}
    lemma_find_char(a, c, a.len() as int);
    assert(s.subrange(0, a.len() as int) =~= a);
    assert(s.subrange(a.len() as int + 1, s.len() as int) =~= b);
}

/// Numbers are written in the ten digits, the last of them for the ones, and
/// are read as they are written.
pub proof fn law_numbers_are_decimal(n: nat, d: nat, s: Seq<char>, c: char)
    requires
        d < 10,
        '0' <= c <= '9',
    ensures
        decimal(d) == seq![('0' as u32 + d) as char],
        n > 0 ==> decimal(10 * n + d) == decimal(n).push(('0' as u32 + d) as char),
        digits_value(Seq::empty()) == 0,
        digits_value(s.push(c)) == 10 * digits_value(s) + (c as int - '0' as int),
        signed_decimal(n as int) == decimal(n),
        n > 0 ==> signed_decimal(-(n as int)) == seq!['-'] + decimal(n),
{
    assert(s.push(c).drop_last() =~= s);
    if n > 0 {
        assert((10 * n + d) / 10 == n && (10 * n + d) % 10 == d);
    }
}

/// A text is a number where it is digits, with a plus before them or not, and
/// the number is not too large.
pub proof fn law_what_a_number_looks_like(s: Seq<char>, max: int)
    ensures
        s.len() > 0 && all_digits(s) ==> parse_unsigned(s, max) == (if digits_value(s) <= max {
            Some(digits_value(s))
        } else {
            None
        }) && parse_unsigned(seq!['+'] + s, max) == parse_unsigned(s, max),
        parse_unsigned(s, max) matches Some(n) ==> 0 <= n <= max && s.len() > 0 && (s[0] == '+'
            || is_digit(s[0])) && forall|i: int| 1 <= i < s.len() ==> is_digit(#[trigger] s[i]),
        parse_unsigned(Seq::empty(), max) is None,
{
    if s.len() > 0 && all_digits(s) {
        assert(is_digit(s[0]));
        let p = seq!['+'] + s;
        assert(p.subrange(1, p.len() as int) =~= s);
    }
    if parse_unsigned(s, max) is Some {
        let d = unsigned_digits(s);
        lemma_digits_value_nonneg(d);
        assert forall|i: int| 1 <= i < s.len() implies is_digit(#[trigger] s[i]) by {
            if s[0] == '+' {
                assert(d[i - 1] == s[i]);
            } else {
                assert(d[i] == s[i]);
            }
        }
        if s[0] != '+' {
            assert(d[0] == s[0]);
        }
    }
}

} // verus!
