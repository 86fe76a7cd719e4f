//! Texts cut at separators of more than one character, and into lines.

use vstd::prelude::*;
use vstd::string::*;
use crate::text::{self, chars_of, part_at, slice_text, split_on};

verus! {

/// Where `part` first stands in `s` at or after `from`; the length of `s` where
/// it does not.
pub open spec fn find_part(s: Seq<char>, part: Seq<char>, from: int) -> int
    decreases s.len() - from,
{
    if from >= s.len() {
        s.len() as int
    } else if text::occurs_at(s, part, from) {
        from
    } else {
        find_part(s, part, from + 1)
    }
}

/// The pieces of `s` between the occurrences of `sep`, taken from the left.
pub open spec fn split_by(s: Seq<char>, sep: Seq<char>) -> Seq<Seq<char>>
    decreases s.len(),
{
    let i = find_part(s, sep, 0);
    if sep.len() > 0 && 0 <= i && i + sep.len() <= s.len() {
        seq![s.subrange(0, i)] + split_by(s.subrange(i + sep.len(), s.len() as int), sep)
    } else {
        seq![s]
    }
}

/// `s` cut at the first `sep`.
pub open spec fn cut_by(s: Seq<char>, sep: Seq<char>) -> Option<(Seq<char>, Seq<char>)> {
    let i = find_part(s, sep, 0);
    if sep.len() > 0 && 0 <= i && i + sep.len() <= s.len() {
        Some((s.subrange(0, i), s.subrange(i + sep.len(), s.len() as int)))
    } else {
        None
    }
}

/// A line without the carriage return before its end.
pub open spec fn strip_cr(s: Seq<char>) -> Seq<char> {
    if s.len() > 0 && s.last() == '\r' {
        s.drop_last()
    } else {
        s
    }
}

/// The lines of a text. A line ends with a line feed, or with a carriage return
/// and a line feed; the last one may end with the text.
pub open spec fn lines_of(s: Seq<char>) -> Seq<Seq<char>> {
    let p = text::split(s, '\n');
    let ended = p.drop_last().map_values(|l: Seq<char>| strip_cr(l));
    if p.last().len() == 0 {
        ended
    } else {
        ended.push(p.last())
    }
}

/// The texts with `sep` between each two.
pub open spec fn joined(parts: Seq<Seq<char>>, sep: Seq<char>) -> Seq<char>
    decreases parts.len(),
{
    if parts.len() == 0 {
        Seq::empty()
    } else if parts.len() == 1 {
        parts[0]
    } else {
        joined(parts.drop_last(), sep) + sep + parts.last()
    }
}

/// Line ends and blanks.
pub open spec fn is_filler(c: char) -> bool {
    c == '\r' || c == '\n' || c == ' '
}

pub open spec fn strip_filler_start(s: Seq<char>) -> Seq<char>
    decreases s.len(),
{
    if s.len() > 0 && is_filler(s[0]) {
        strip_filler_start(s.subrange(1, s.len() as int))
    } else {
        s
    }
}

pub open spec fn strip_filler_end(s: Seq<char>) -> Seq<char>
    decreases s.len(),
{
    if s.len() > 0 && is_filler(s.last()) {
        strip_filler_end(s.drop_last())
    } else {
        s
    }
}

/// The text without line ends and blanks around it.
pub open spec fn strip_filler(s: Seq<char>) -> Seq<char> {
    strip_filler_end(strip_filler_start(s))
}

proof fn lemma_find_part(s: Seq<char>, part: Seq<char>, from: int, i: int)
    requires
        0 <= from <= i <= s.len(),
        forall|k: int| from <= k < i ==> !text::occurs_at(s, part, k),
        i < s.len() ==> text::occurs_at(s, part, i),
    ensures
        find_part(s, part, from) == i,
    decreases s.len() - from,
{
    if from < i {
        assert(!text::occurs_at(s, part, from));
        lemma_find_part(s, part, from + 1, i);
    }
}

/// Looking in what is left is looking in the whole from there on.
proof fn lemma_find_part_tail(s: Seq<char>, part: Seq<char>, from: int, i: int)
    requires
        0 <= from <= i <= s.len(),
        part.len() > 0,
        forall|k: int| from <= k < i ==> !text::occurs_at(s, part, k),
        i < s.len() ==> text::occurs_at(s, part, i),
    ensures
        find_part(s.subrange(from, s.len() as int), part, 0) == i - from,
{
    let t = s.subrange(from, s.len() as int);
    assert forall|k: int| 0 <= k < i - from implies !text::occurs_at(t, part, k) by {
        if text::occurs_at(t, part, k) {
            assert(t.subrange(k, k + part.len()) == s.subrange(from + k, from + k + part.len()));
            assert(text::occurs_at(s, part, from + k));
        }
    }
    if i < s.len() {
        assert(t.subrange(i - from, i - from + part.len()) == s.subrange(i, i + part.len()));
    }
    lemma_find_part(t, part, 0, i - from);
}

/// Where `part` first stands in `v` at or after `from`.
fn find_part_from(v: &[char], part: &[char], from: usize) -> (r: usize)
    requires
        from <= v@.len(),
        part@.len() > 0,
    ensures
        from <= r <= v@.len(),
        r - from == find_part(v@.subrange(from as int, v@.len() as int), part@, 0),
        r < v@.len() ==> r + part@.len() <= v@.len(),
{
    let mut i: usize = from;
    while i < v.len() && !part_at(v, part, i)
        invariant
            from <= i <= v@.len(),
            forall|k: int| from <= k < i ==> !text::occurs_at(v@, part@, k),
        decreases v@.len() - i,
    {
        i += 1;
    }
    proof {
        lemma_find_part_tail(v@, part@, from as int, i as int);
    }
    i
}

/// Splits a text at a separator.
pub fn split_by_text(s: &str, sep: &str) -> (r: Vec<String>)
    requires
        sep@.len() > 0,
    ensures
        text::texts(r@) == split_by(s@, sep@),
{
    let v = chars_of(s);
    let p = chars_of(sep);
    let mut out: Vec<String> = Vec::new();
    let mut from: usize = 0;
    let mut done: bool = false;
    proof {
        assert(v@.subrange(0, v@.len() as int) == s@);
        assert(text::texts(out@) == Seq::<Seq<char>>::empty());
        assert(split_by(s@, sep@) == text::texts(out@) + split_by(s@, sep@));
    }
    while !done
        invariant
            v@ == s@,
            p@ == sep@,
            p@.len() > 0,
            from <= v@.len(),
            !done ==> split_by(s@, sep@) == text::texts(out@) + split_by(
                v@.subrange(from as int, v@.len() as int),
                sep@,
            ),
            done ==> split_by(s@, sep@) == text::texts(out@),
        decreases (if done { 0int } else { 1 + v@.len() - from }),
    {
        let ghost rest = v@.subrange(from as int, v@.len() as int);
        let ghost before = text::texts(out@);
        let i = find_part_from(v.as_slice(), p.as_slice(), from);
        let piece = slice_text(v.as_slice(), from, i);
        out.push(piece);
        proof {
            assert(text::texts(out@) == before.push(piece@));
            assert(piece@ == rest.subrange(0, i - from));
        }
        if i < v.len() {
            proof {
                let tail = v@.subrange(i + p@.len(), v@.len() as int);
                assert(tail == rest.subrange(i - from + p@.len(), rest.len() as int));
                assert(split_by(rest, sep@) == seq![piece@] + split_by(tail, sep@));
                assert(before + (seq![piece@] + split_by(tail, sep@)) == text::texts(out@)
                    + split_by(tail, sep@));
            }
            from = i + p.len();
        } else {
            proof {
                assert(piece@ == rest);
                assert(split_by(rest, sep@) == seq![piece@]);
                assert(before + seq![piece@] == text::texts(out@));
            }
            done = true;
        }
    }
    out
}

/// Cuts a text at the first occurrence of a separator.
pub fn cut_by_text(s: &str, sep: &str) -> (r: Option<(String, String)>)
    requires
        sep@.len() > 0,
    ensures
        match r {
            Some((a, b)) => cut_by(s@, sep@) == Some((a@, b@)),
            None => cut_by(s@, sep@) is None,
        },
{
    let v = chars_of(s);
    let p = chars_of(sep);
    let n: usize = v.len();
    let i = find_part_from(v.as_slice(), p.as_slice(), 0);
    proof {
        assert(v@.subrange(0, v@.len() as int) == s@);
    }
    if i < n {
        Some((slice_text(v.as_slice(), 0, i), slice_text(v.as_slice(), i + p.len(), n)))
    } else {
        None
    }
}

/// The lines of a text.
pub fn split_lines(s: &str) -> (r: Vec<String>)
    ensures
        text::texts(r@) == lines_of(s@),
{
    let pieces = split_on(s, '\n');
    let ghost p = text::split(s@, '\n');
    let ghost ended = p.drop_last().map_values(|l: Seq<char>| strip_cr(l));
    let mut out: Vec<String> = Vec::new();
    let mut i: usize = 0;
    let n: usize = pieces.len();
    proof {
        assert(p.len() > 0);
        assert(text::texts(out@) == ended.take(0));
    }
    while i + 1 < n
        invariant
            n == pieces@.len(),
            n > 0,
            i < n,
            text::texts(pieces@) == p,
            ended == p.drop_last().map_values(|l: Seq<char>| strip_cr(l)),
            text::texts(out@) == ended.take(i as int),
        decreases n - i,
    {
        let ghost before = text::texts(out@);
        let v = chars_of(pieces[i].as_str());
        let len: usize = v.len();
        proof {
            assert(p[i as int] == pieces@[i as int]@);
        }
        let line = if len > 0 && v[len - 1] == '\r' {
            slice_text(v.as_slice(), 0, len - 1)
        } else {
            pieces[i].clone()
        };
        proof {
            assert(line@ == strip_cr(p[i as int])) by {
                if len > 0 && v@[len - 1] == '\r' {
                    assert(v@.subrange(0, len - 1) == v@.drop_last());
                }
            }
            assert(ended[i as int] == line@);
            assert(ended.take(i + 1) == ended.take(i as int).push(line@));
        }
        out.push(line);
        proof {
            assert(text::texts(out@) == before.push(line@));
        }
        i += 1;
    }
    proof {
        assert(ended.take(i as int) == ended);
        assert(p.last() == pieces@[n - 1]@);
    }
    if !pieces[n - 1].as_str().is_empty() {
        let ghost before = text::texts(out@);
        let last = pieces[n - 1].clone();
        out.push(last);
        proof {
            assert(text::texts(out@) == before.push(last@));
        }
    }
    out
}

/// Joins texts with a separator.
pub fn join_texts(parts: &Vec<String>, sep: &str) -> (r: String)
    ensures
        r@ == joined(text::texts(parts@), sep@),
{
    let mut out: String = String::new();
    let mut i: usize = 0;
    let ghost views = text::texts(parts@);
    proof {
        assert(views.take(0) == Seq::<Seq<char>>::empty());
    }
    while i < parts.len()
        invariant
            i <= parts.len(),
            views == text::texts(parts@),
            out@ == joined(views.take(i as int), sep@),
        decreases parts.len() - i,
    {
        proof {
            assert(views.take(i + 1).drop_last() == views.take(i as int));
            assert(views.take(i + 1).last() == parts@[i as int]@);
        }
        if i > 0 {
            out.append(sep);
        }
        out.append(parts[i].as_str());
        proof {
            if i == 0 {
                assert(out@ == views.take(1)[0]);
            }
        }
        i += 1;
    }
    proof {
        assert(views.take(i as int) == views);
    }
    out
}

fn char_is_filler(c: char) -> (r: bool)
    ensures
        r == is_filler(c),
{
    c == '\r' || c == '\n' || c == ' '
}

proof fn lemma_strip_filler_start(s: Seq<char>, i: int)
    requires
        0 <= i <= s.len(),
        forall|k: int| 0 <= k < i ==> is_filler(s[k]),
        i < s.len() ==> !is_filler(s[i]),
    ensures
        strip_filler_start(s) == s.subrange(i, s.len() as int),
    decreases s.len(),
{
    if i > 0 {
        let t = s.subrange(1, s.len() as int);
        assert forall|k: int| 0 <= k < i - 1 implies is_filler(t[k]) by {
            assert(t[k] == s[k + 1]);
        }
        lemma_strip_filler_start(t, i - 1);
        assert(t.subrange(i - 1, t.len() as int) == s.subrange(i, s.len() as int));
    } else {
        assert(s.subrange(0, s.len() as int) == s);
    }
}

proof fn lemma_strip_filler_end(s: Seq<char>, j: int)
    requires
        0 <= j <= s.len(),
        forall|k: int| j <= k < s.len() ==> is_filler(s[k]),
        j > 0 ==> !is_filler(s[j - 1]),
    ensures
        strip_filler_end(s) == s.subrange(0, j),
    decreases s.len(),
{
    if j < s.len() {
        let t = s.drop_last();
        lemma_strip_filler_end(t, j);
        assert(t.subrange(0, j) == s.subrange(0, j));
    } else {
        assert(s.subrange(0, j) == s);
    }
}

/// The text without line ends and blanks around it.
pub fn without_filler(s: &str) -> (r: String)
    ensures
        r@ == strip_filler(s@),
{
    let v = chars_of(s);
    let mut a: usize = 0;
    while a < v.len() && char_is_filler(v[a])
        invariant
            v@ == s@,
            a <= v@.len(),
            forall|k: int| 0 <= k < a ==> is_filler(s@[k]),
        decreases v@.len() - a,
    {
        a += 1;
    }
    let mut b: usize = v.len();
    while b > a && char_is_filler(v[b - 1])
        invariant
            v@ == s@,
            a <= b <= v@.len(),
            forall|k: int| b <= k < v@.len() ==> is_filler(s@[k]),
        decreases b,
    {
        b -= 1;
    }
    proof {
        lemma_strip_filler_start(s@, a as int);
        let t = strip_filler_start(s@);
        assert forall|k: int| b - a <= k < t.len() implies is_filler(t[k]) by {
            assert(t[k] == s@[k + a]);
        }
        if b > a {
            assert(t[b - a - 1] == s@[b - 1]);
        }
        lemma_strip_filler_end(t, b - a);
        assert(t.subrange(0, b - a) == s@.subrange(a as int, b as int));
    }
    slice_text(v.as_slice(), a, b)
}

// ------------------------------------------------------------------------ laws

/// A text is cut at the first place where the mark stands.
pub proof fn law_texts_are_cut_at_the_mark(a: Seq<char>, sep: Seq<char>, b: Seq<char>)
    requires
        sep.len() > 0,
        forall|k: int| 0 <= k < a.len() ==> !text::occurs_at(a + sep + b, sep, k),
    ensures
        cut_by(a + sep + b, sep) == Some((a, b)),
        split_by(a + sep + b, sep) == seq![a] + split_by(b, sep),
{
    let s = a + sep + b;
    assert(s.subrange(a.len() as int, a.len() as int + sep.len()) =~= sep);
    assert(text::occurs_at(s, sep, a.len() as int));
    lemma_find_part(s, sep, 0, a.len() as int);
    assert(s.subrange(0, a.len() as int) =~= a);
    assert(s.subrange(a.len() as int + sep.len(), s.len() as int) =~= b);
}

/// A text without the mark is one piece.
pub proof fn law_texts_without_the_mark_are_whole(s: Seq<char>, sep: Seq<char>)
    requires
        !text::contains(s, sep),
        sep.len() > 0,
    ensures
        cut_by(s, sep) is None,
        split_by(s, sep) == seq![s],
{
    assert forall|k: int| 0 <= k < s.len() implies !text::occurs_at(s, sep, k) by {}
    lemma_find_part(s, sep, 0, s.len() as int);
}

/// Texts are joined with the mark between each two, and nothing at the ends.
pub proof fn law_texts_are_joined(parts: Seq<Seq<char>>, last: Seq<char>, sep: Seq<char>)
    requires
        parts.len() > 0,
    ensures
        joined(seq![last], sep) == last,
        joined(parts.push(last), sep) == joined(parts, sep) + sep + last,
        joined(Seq::empty(), sep).len() == 0,
{
    assert(parts.push(last).drop_last() =~= parts);
}

/// Lines end with a line feed, with or without a carriage return before it.
pub proof fn law_lines_end(line: Seq<char>, rest: Seq<char>)
    requires
        !line.contains('\n'),
        rest.len() > 0,
    ensures
        line.len() == 0 || line.last() != '\r' ==> lines_of(line.push('\n') + rest) == seq![line]
            + lines_of(rest),
        lines_of(line.push('\r').push('\n') + rest) == seq![line] + lines_of(rest),
{
    text::law_texts_split_at_the_mark(line, '\n', rest);
    let cr = line.push('\r');
    assert(!cr.contains('\n')) by {
        assert forall|i: int| 0 <= i < cr.len() implies cr[i] != '\n' by {
            if i < line.len() {
                assert(line.contains(line[i]));
            }
        }
    }
    text::law_texts_split_at_the_mark(cr, '\n', rest);
    text::law_texts_split_at_the_mark(rest, '\n', rest);
    let p = text::split(rest, '\n');
    let f = |l: Seq<char>| strip_cr(l);
    let a = seq![line] + p;
    assert(a.drop_last() =~= seq![line] + p.drop_last());
    assert(a.drop_last().map_values(f) =~= seq![strip_cr(line)] + p.drop_last().map_values(f));
    let b = seq![cr] + p;
    assert(b.drop_last() =~= seq![cr] + p.drop_last());
    assert(strip_cr(cr) =~= line);
    assert(b.drop_last().map_values(f) =~= seq![line] + p.drop_last().map_values(f));
    assert(lines_of(cr.push('\n') + rest) =~= seq![line] + lines_of(rest));
    if line.len() == 0 || line.last() != '\r' {
        assert(lines_of(line.push('\n') + rest) =~= seq![line] + lines_of(rest));
    }
}

} // verus!
