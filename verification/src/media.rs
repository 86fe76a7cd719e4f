//! Kinds of media and the way lists of them are written in a request.

use vstd::prelude::*;
use crate::text::{self, eq_ignore_case, split_on, trimmed};

verus! {

/// What an item is.
#[derive(Debug, Clone, Copy, PartialEq, Eq, Structural)]
pub enum MediaKind {
    Movie,
    Episode,
    Audio,
}

/// The kind that a name stands for, white space and ASCII case aside.
pub open spec fn kind_named(name: Seq<char>) -> Option<MediaKind> {
    if text::eq_ci(text::trim(name), "Movie"@) {
        Some(MediaKind::Movie)
    } else if text::eq_ci(text::trim(name), "Episode"@) {
        Some(MediaKind::Episode)
    } else if text::eq_ci(text::trim(name), "Audio"@) {
        Some(MediaKind::Audio)
    } else {
        None
    }
}

/// The kinds that a row of names stands for; names of anything else are
/// passed over.
pub open spec fn kinds_named(names: Seq<Seq<char>>) -> Seq<MediaKind>
    decreases names.len(),
{
    if names.len() == 0 {
        Seq::empty()
    } else {
        let rest = kinds_named(names.drop_last());
        match kind_named(names.last()) {
            Some(k) => rest.push(k),
            None => rest,
        }
    }
}

/// The kinds in a comma-separated list.
pub open spec fn kinds_in(list: Seq<char>) -> Seq<MediaKind> {
    kinds_named(text::split(list, ','))
}

/// The kinds that a request is limited to: none are named, no limit.
pub open spec fn wanted_kinds(list: Option<Seq<char>>) -> Option<Seq<MediaKind>> {
    match list {
        Some(l) => if kinds_in(l).len() > 0 {
            Some(kinds_in(l))
        } else {
            None
        },
        None => None,
    }
}

/// Whether a kind passes such a limit.
pub open spec fn kind_passes(limit: Option<Seq<MediaKind>>, k: MediaKind) -> bool {
    limit matches Some(ks) ==> ks.contains(k)
}

impl MediaKind {
    /// Reads a kind's name.
    pub fn from_wire(name: &str) -> (r: Option<MediaKind>)
        ensures
            r == kind_named(name@),
    {
        let t = trimmed(name);
        if eq_ignore_case(t.as_str(), "Movie") {
            Some(MediaKind::Movie)
        } else if eq_ignore_case(t.as_str(), "Episode") {
            Some(MediaKind::Episode)
        } else if eq_ignore_case(t.as_str(), "Audio") {
            Some(MediaKind::Audio)
        } else {
            None
        }
    }
}

/// Reads a comma-separated list of kinds.
pub fn read_kinds(list: &str) -> (r: Vec<MediaKind>)
    ensures
        r@ == kinds_in(list@),
{
    let pieces = split_on(list, ',');
    let mut out: Vec<MediaKind> = Vec::new();
    let mut i: usize = 0;
    proof {
        assert(text::texts(pieces@).take(0) == Seq::<Seq<char>>::empty());
    }
    while i < pieces.len()
        invariant
            i <= pieces.len(),
            text::texts(pieces@) == text::split(list@, ','),
            out@ == kinds_named(text::texts(pieces@).take(i as int)),
        decreases pieces.len() - i,
    {
        proof {
            let t = text::texts(pieces@).take(i + 1);
            assert(t.drop_last() == text::texts(pieces@).take(i as int));
            assert(t.last() == pieces@[i as int]@);
        }
        if let Some(k) = MediaKind::from_wire(pieces[i].as_str()) {
            out.push(k);
        }
        i += 1;
    }
    proof {
        assert(text::texts(pieces@).take(i as int) == text::texts(pieces@));
    }
    out
}

/// The view of an optional row of kinds.
pub open spec fn opt_kinds(o: Option<Vec<MediaKind>>) -> Option<Seq<MediaKind>> {
    match o {
        Some(v) => Some(v@),
        None => None,
    }
}

/// The kinds that a request is limited to.
pub fn read_wanted_kinds(list: &Option<String>) -> (r: Option<Vec<MediaKind>>)
    ensures
        opt_kinds(r) == wanted_kinds(text::opt_text(*list)),
{
    match list {
        Some(l) => {
            let ks = read_kinds(l.as_str());
            if ks.len() > 0 {
                Some(ks)
            } else {
                None
            }
        },
        None => None,
    }
}

/// Whether a row of kinds holds this one.
pub fn has_kind(ks: &Vec<MediaKind>, k: MediaKind) -> (r: bool)
    ensures
        r == ks@.contains(k),
{
    let mut i: usize = 0;
    while i < ks.len()
        invariant
            i <= ks.len(),
            forall|j: int| 0 <= j < i ==> #[trigger] ks@[j] != k,
        decreases ks.len() - i,
    {
        if ks[i] == k {
            return true;
        }
        i += 1;
    }
    false
}

/// Whether a kind passes a limit.
pub fn passes(limit: &Option<Vec<MediaKind>>, k: MediaKind) -> (r: bool)
    ensures
        r == kind_passes(opt_kinds(*limit), k),
{
    match limit {
        Some(ks) => has_kind(ks, k),
        None => true,
    }
}

// ------------------------------------------------------------------------ laws

/// The three kinds have their names, in any case and with white space around
/// them; no other text is the name of a kind.
pub proof fn law_kinds_have_names(name: Seq<char>)
    ensures
        kind_named(name) == Some(MediaKind::Movie) <==> text::lower(text::trim(name)) == "movie"@,
        kind_named(name) == Some(MediaKind::Episode) <==> text::lower(text::trim(name))
            == "episode"@,
        kind_named(name) == Some(MediaKind::Audio) <==> text::lower(text::trim(name)) == "audio"@,
{
    reveal_strlit("Movie");
    reveal_strlit("movie");
    reveal_strlit("Episode");
    reveal_strlit("episode");
    reveal_strlit("Audio");
    reveal_strlit("audio");
    assert(text::lower("Movie"@) =~= "movie"@);
    assert(text::lower("Episode"@) =~= "episode"@);
    assert(text::lower("Audio"@) =~= "audio"@);
    assert("movie"@[0] == 'm' && "episode"@[0] == 'e' && "audio"@[0] == 'a');
}

proof fn lemma_kinds_join(a: Seq<Seq<char>>, b: Seq<Seq<char>>)
    ensures
        kinds_named(a + b) == kinds_named(a) + kinds_named(b),
    decreases b.len(),
{
    if b.len() == 0 {
        assert(a + b =~= a);
        assert(kinds_named(a) + kinds_named(b) =~= kinds_named(a));
    } else {
        assert((a + b).drop_last() =~= a + b.drop_last());
        assert((a + b).last() == b.last());
        lemma_kinds_join(a, b.drop_last());
        assert(kinds_named(a + b) =~= kinds_named(a) + kinds_named(b));
    }
}

/// A list of kinds is read entry by entry: one that names a kind adds it, and
/// any other adds nothing. A request that names kinds is limited to them, and
/// one that names none is not limited.
pub proof fn law_lists_of_kinds(a: Seq<char>, b: Seq<char>, k: MediaKind)
    ensures
        kinds_in(a.push(',') + b) == kinds_in(a) + kinds_in(b),
        !a.contains(',') && kind_named(a) is Some ==> kinds_in(a) == seq![kind_named(a)->0],
        !a.contains(',') && kind_named(a) is None ==> kinds_in(a).len() == 0,
        kind_passes(wanted_kinds(None), k),
        kind_passes(wanted_kinds(Some(a)), k) <==> kinds_in(a).len() == 0 || kinds_in(a).contains(k),
{
    text::law_texts_split_at_the_mark(a, ',', b);
    lemma_kinds_join(text::split(a, ','), text::split(b, ','));
    if !a.contains(',') {
        let one = seq![a];
        assert(one.drop_last() =~= Seq::<Seq<char>>::empty());
        assert(one.last() == a);
        assert(kinds_named(one.drop_last()) =~= Seq::<MediaKind>::empty());
        assert(kinds_named(one) =~= (match kind_named(a) {
            Some(x) => seq![x],
            None => Seq::empty(),
        }));
    }
}

} // verus!
