//! File paths as text, their parts separated by slashes.

use vstd::prelude::*;
use crate::text::{self, chars_of, eq_text, slice_text, split_on};

verus! {

/// Where `c` last stands in `s`; -1 where it does not.
pub open spec fn find_last(s: Seq<char>, c: char) -> int
    decreases s.len(),
{
    if s.len() == 0 {
        -1
    } else if s.last() == c {
        s.len() - 1
    } else {
        find_last(s.drop_last(), c)
    }
}

/// Whether a part names something: empty parts and `.` do not.
pub open spec fn names_something(part: Seq<char>) -> bool {
    part.len() > 0 && part != "."@
}

/// The last part that names something.
pub open spec fn last_part(parts: Seq<Seq<char>>) -> Option<Seq<char>>
    decreases parts.len(),
{
    if parts.len() == 0 {
        None
    } else if names_something(parts.last()) {
        Some(parts.last())
    } else {
        last_part(parts.drop_last())
    }
}

/// The name of the file that a path leads to.
pub open spec fn file_name(path: Seq<char>) -> Option<Seq<char>> {
    match last_part(text::split(path, '/')) {
        Some(n) => if n == ".."@ {
            None
        } else {
            Some(n)
        },
        None => None,
    }
}

/// What follows the last dot of a name, unless the name begins with it.
pub open spec fn name_extension(name: Seq<char>) -> Option<Seq<char>> {
    let i = find_last(name, '.');
    if i > 0 {
        Some(name.subrange(i + 1, name.len() as int))
    } else {
        None
    }
}

/// A name without its extension.
pub open spec fn name_stem(name: Seq<char>) -> Seq<char> {
    let i = find_last(name, '.');
    if i > 0 {
        name.subrange(0, i)
    } else {
        name
    }
}

pub open spec fn extension(path: Seq<char>) -> Option<Seq<char>> {
    match file_name(path) {
        Some(n) => name_extension(n),
        None => None,
    }
}

proof fn lemma_find_last(s: Seq<char>, c: char, i: int)
    requires
        -1 <= i < s.len(),
        forall|k: int| i < k < s.len() ==> s[k] != c,
        i >= 0 ==> s[i] == c,
    ensures
        find_last(s, c) == i,
    decreases s.len(),
{
    if s.len() > 0 && i < s.len() - 1 {
        lemma_find_last(s.drop_last(), c, i);
    }
}

/// Where the last dot of a name stands, unless the name begins with it.
fn dot_of(v: &Vec<char>) -> (r: Option<usize>)
    ensures
        match r {
            Some(i) => 0 < i < v@.len() && find_last(v@, '.') == i,
            None => find_last(v@, '.') <= 0,
        },
{
    let mut i: usize = v.len();
    while i > 0
        invariant
            i <= v@.len(),
            forall|k: int| i <= k < v@.len() ==> v@[k] != '.',
        decreases i,
    {
        if v[i - 1] == '.' {
            proof {
                lemma_find_last(v@, '.', i - 1);
            }
            return if i - 1 > 0 {
                Some(i - 1)
            } else {
                None
            };
        }
        i -= 1;
    }
    proof {
        lemma_find_last(v@, '.', -1);
    }
    None
}

/// The extension of a file's name.
pub fn extension_of_name(name: &str) -> (r: Option<String>)
    ensures
        text::opt_text(r) == name_extension(name@),
{
    let v = chars_of(name);
    let n: usize = v.len();
    match dot_of(&v) {
        Some(i) => Some(slice_text(v.as_slice(), i + 1, n)),
        None => None,
    }
}

/// A file's name without its extension.
pub fn stem_of_name(name: &str) -> (r: String)
    ensures
        r@ == name_stem(name@),
{
    let v = chars_of(name);
    match dot_of(&v) {
        Some(i) => slice_text(v.as_slice(), 0, i),
        None => name.to_owned(),
    }
}

/// The name of the file that a path leads to.
pub fn file_name_of(path: &str) -> (r: Option<String>)
    ensures
        text::opt_text(r) == file_name(path@),
{
    let parts = split_on(path, '/');
    let ghost all = text::texts(parts@);
    let mut i: usize = parts.len();
    proof {
        assert(all.take(i as int) == all);
    }
    while i > 0
        invariant
            i <= parts.len(),
            all == text::texts(parts@),
            all == text::split(path@, '/'),
            last_part(all) == last_part(all.take(i as int)),
        decreases i,
    {
        proof {
            assert(all.take(i as int).last() == parts@[i - 1]@);
            assert(all.take(i as int).drop_last() == all.take(i - 1));
        }
        let part = parts[i - 1].as_str();
        if !part.is_empty() && !eq_text(part, ".") {
            return if eq_text(part, "..") {
                None
            } else {
                Some(part.to_owned())
            };
        }
        i -= 1;
    }
    proof {
        assert(all.take(0) == Seq::<Seq<char>>::empty());
    }
    None
}

/// The extension of the file that a path leads to.
pub fn extension_of(path: &str) -> (r: Option<String>)
    ensures
        text::opt_text(r) == extension(path@),
{
    match file_name_of(path) {
        Some(n) => extension_of_name(n.as_str()),
        None => None,
    }
}

// --------------------------------------------------------------- paths by part

/// The parts among the first `n` pieces of a path. Empty pieces are none, nor is
/// a dot but at the start.
pub open spec fn parts_below(pieces: Seq<Seq<char>>, n: int) -> Seq<Seq<char>>
    decreases n,
{
    if n <= 0 {
        Seq::empty()
    } else if pieces[n - 1].len() > 0 && (pieces[n - 1] != seq!['.'] || n == 1) {
        parts_below(pieces, n - 1).push(pieces[n - 1])
    } else {
        parts_below(pieces, n - 1)
    }
}

/// The parts of a path, the root among them where it starts there.
pub open spec fn path_parts(path: Seq<char>) -> Seq<Seq<char>> {
    let pieces = text::split(path, '/');
    let rest = parts_below(pieces, pieces.len() as int);
    if path.len() > 0 && path[0] == '/' {
        seq![seq!['/']] + rest
    } else {
        rest
    }
}

/// Whether a path is a directory or lies below it, part by part.
pub open spec fn lies_below(path: Seq<char>, dir: Seq<char>) -> bool {
    let p = path_parts(path);
    let d = path_parts(dir);
    d.len() <= p.len() && p.take(d.len() as int) == d
}

fn split_parts(path: &str) -> (r: Vec<String>)
    ensures
        text::texts(r@) == path_parts(path@),
{
    let pieces = split_on(path, '/');
    let ghost all = text::split(path@, '/');
    let v = chars_of(path);
    let mut out: Vec<String> = Vec::new();
    let ghost mut head: Seq<Seq<char>> = Seq::empty();
    proof {
        assert(text::texts(out@) == head);
    }
    if v.len() > 0 && v[0] == '/' {
        let mut root: String = String::new();
        root.push('/');
        proof {
            assert(root@ == seq!['/']);
        }
        out.push(root);
        proof {
            head = seq![seq!['/']];
            assert(text::texts(out@) == head);
        }
    }
    let mut i: usize = 0;
    proof {
        assert(head + parts_below(all, 0) == head);
    }
    while i < pieces.len()
        invariant
            i <= pieces@.len(),
            all == text::split(path@, '/'),
            text::texts(pieces@) == all,
            text::texts(out@) == head + parts_below(all, i as int),
        decreases pieces@.len() - i,
    {
        proof {
            assert(text::texts(pieces@)[i as int] == pieces@[i as int]@);
        }
        let cs = chars_of(pieces[i].as_str());
        let dot: bool = cs.len() == 1 && cs[0] == '.';
        proof {
            if dot {
                assert(cs@ =~= seq!['.']);
            }
        }
        if cs.len() > 0 && (!dot || i == 0) {
            let ghost before = out@;
            out.push(pieces[i].clone());
            proof {
                assert(text::texts(out@) == text::texts(before).push(all[i as int]));
                assert(text::texts(out@) =~= head + parts_below(all, i + 1));
            }
        }
        i += 1;
    }
    proof {
        assert(text::texts(pieces@).len() == pieces@.len());
        assert(head + parts_below(all, i as int) =~= path_parts(path@));
    }
    out
}

/// Whether a path is a directory or lies below it, part by part.
pub fn is_below(path: &str, dir: &str) -> (r: bool)
    ensures
        r == lies_below(path@, dir@),
{
    let p = split_parts(path);
    let d = split_parts(dir);
    let ghost pv = path_parts(path@);
    let ghost dv = path_parts(dir@);
    proof {
        assert(text::texts(p@).len() == p@.len());
        assert(text::texts(d@).len() == d@.len());
    }
    if d.len() > p.len() {
        return false;
    }
    let mut i: usize = 0;
    while i < d.len()
        invariant
            i <= d@.len() <= p@.len(),
            text::texts(p@) == pv,
            text::texts(d@) == dv,
            pv == path_parts(path@),
            dv == path_parts(dir@),
            dv.len() == d@.len(),
            pv.len() == p@.len(),
            forall|k: int| 0 <= k < i ==> pv[k] == #[trigger] dv[k],
        decreases d@.len() - i,
    {
        proof {
            assert(text::texts(p@)[i as int] == p@[i as int]@);
            assert(text::texts(d@)[i as int] == d@[i as int]@);
        }
        if !eq_text(p[i].as_str(), d[i].as_str()) {
            proof {
                assert(pv.take(dv.len() as int)[i as int] != dv[i as int]);
            }
            return false;
        }
        i += 1;
    }
    proof {
        assert(pv.take(dv.len() as int) =~= dv);
    }
    true
}

// ------------------------------------------------------------------------ laws

/// A file is named by what follows the last separator, and its extension is what
/// follows the last dot of the name.
pub proof fn law_files_have_names(dir: Seq<char>, stem: Seq<char>, ext: Seq<char>)
    requires
        stem.len() > 0,
        !stem.contains('/') && !ext.contains('/'),
        !ext.contains('.'),
        ext.len() > 0,
    ensures
        file_name(dir.push('/') + (stem.push('.') + ext)) == Some(stem.push('.') + ext),
        extension(dir.push('/') + (stem.push('.') + ext)) == Some(ext),
        name_stem(stem.push('.') + ext) == stem,
{
    let name = stem.push('.') + ext;
    assert(!name.contains('/')) by {
        assert forall|i: int| 0 <= i < name.len() implies name[i] != '/' by {
            if i < stem.len() {
                assert(stem.contains(stem[i]));
                assert(name[i] == stem[i]);
            } else if i > stem.len() {
                assert(ext.contains(ext[i - stem.len() - 1]));
                assert(name[i] == ext[i - stem.len() - 1]);
            }
        }
    }
    text::law_texts_split_at_the_mark(name, '/', Seq::empty());
    text::law_texts_split_at_the_mark(dir, '/', name);
    let parts = text::split(dir.push('/') + name, '/');
    assert(parts =~= text::split(dir, '/') + seq![name]);
    assert(parts.last() == name);
    reveal_strlit(".");
    reveal_strlit("..");
    assert(name.len() >= 3);
    assert forall|k: int| stem.len() < k < name.len() implies name[k] != '.' by {
        assert(ext.contains(ext[k - stem.len() - 1]));
        assert(name[k] == ext[k - stem.len() - 1]);
    }
    assert(name[stem.len() as int] == '.');
    lemma_find_last(name, '.', stem.len() as int);
    assert(name.subrange(stem.len() as int + 1, name.len() as int) =~= ext);
    assert(name.subrange(0, stem.len() as int) =~= stem);
}

/// What lies below a directory lies below it part by part: a directory lies
/// below itself, and what lies below one that lies below another lies below
/// that one too.
pub proof fn law_directories_nest(a: Seq<char>, b: Seq<char>, c: Seq<char>)
    ensures
        lies_below(a, a),
        lies_below(a, b) && lies_below(b, c) ==> lies_below(a, c),
        lies_below(a, b) && lies_below(b, a) ==> path_parts(a) == path_parts(b),
        lies_below(a, b) ==> path_parts(b).len() <= path_parts(a).len(),
{
    let x = path_parts(a);
    let y = path_parts(b);
    let z = path_parts(c);
    assert(x.take(x.len() as int) =~= x);
    if lies_below(a, b) && lies_below(b, c) {
        assert(x.take(z.len() as int) =~= x.take(y.len() as int).take(z.len() as int));
    }
    if lies_below(a, b) && lies_below(b, a) {
        assert(x.len() == y.len());
        assert(x.take(y.len() as int) =~= x);
    }
}

} // verus!
