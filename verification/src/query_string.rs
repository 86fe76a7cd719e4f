//! Query strings as rows of key and value pairs, looked up by key without
//! regard to ASCII case.

use vstd::prelude::*;
use crate::seqs;
use crate::text::{self, cut_at, eq_ignore_case, split_on};

verus! {

/// A key and its value.
pub type Pair = (Seq<char>, Seq<char>);

/// The pieces that hold a `=`, each cut at the first one; the others are
/// dropped.
pub open spec fn pairs_of(pieces: Seq<Seq<char>>) -> Seq<Pair>
    decreases pieces.len(),
{
    if pieces.len() == 0 {
        Seq::empty()
    } else {
        let rest = pairs_of(pieces.drop_last());
        match text::split_once(pieces.last(), '=') {
            Some(p) => rest.push(p),
            None => rest,
        }
    }
}

/// The key and value pairs of a query string.
pub open spec fn pairs(qs: Seq<char>) -> Seq<Pair> {
    pairs_of(text::split(qs, '&'))
}

/// Accepts the pairs with this key.
pub open spec fn has_key(key: Seq<char>) -> spec_fn(Pair) -> bool {
    |p: Pair| text::eq_ci(p.0, key)
}

/// Accepts the pairs with this key whose value is not empty.
pub open spec fn has_key_and_value(key: Seq<char>) -> spec_fn(Pair) -> bool {
    |p: Pair| text::eq_ci(p.0, key) && p.1.len() > 0
}

/// The value of the first pair with this key.
pub open spec fn value_of(qs: Seq<char>, key: Seq<char>) -> Option<Seq<char>> {
    match seqs::first_such(pairs(qs), has_key(key)) {
        Some(p) => Some(p.1),
        None => None,
    }
}

/// The value of the first pair with this key whose value is not empty.
pub open spec fn filled_value_of(qs: Seq<char>, key: Seq<char>) -> Option<Seq<char>> {
    match seqs::first_such(pairs(qs), has_key_and_value(key)) {
        Some(p) => Some(p.1),
        None => None,
    }
}

/// Whether some pair has this key and the value `true`, in any case.
pub open spec fn flag_set(qs: Seq<char>, key: Seq<char>) -> bool {
    exists|i: int|
        0 <= i < pairs(qs).len() && text::eq_ci((#[trigger] pairs(qs)[i]).0, key) && text::eq_ci(
            pairs(qs)[i].1,
            "true"@,
        )
}

/// The views of a row of pairs.
pub open spec fn pair_views(v: Seq<(String, String)>) -> Seq<Pair> {
    Seq::new(v.len(), |i: int| (v[i].0@, v[i].1@))
}

/// Reads a query string into its pairs.
pub fn read_pairs(qs: &str) -> (r: Vec<(String, String)>)
    ensures
        pair_views(r@) == pairs(qs@),
{
    let pieces = split_on(qs, '&');
    let mut out: Vec<(String, String)> = Vec::new();
    let mut i: usize = 0;
    proof {
        assert(pair_views(out@) == Seq::<Pair>::empty());
        assert(text::texts(pieces@).take(0) == Seq::<Seq<char>>::empty());
    }
    while i < pieces.len()
        invariant
            i <= pieces.len(),
            text::texts(pieces@) == text::split(qs@, '&'),
            pair_views(out@) == pairs_of(text::texts(pieces@).take(i as int)),
        decreases pieces.len() - i,
    {
        let ghost before = out@;
        let cut = cut_at(pieces[i].as_str(), '=');
        proof {
            let t = text::texts(pieces@).take(i + 1);
            assert(t.drop_last() == text::texts(pieces@).take(i as int));
            assert(t.last() == pieces@[i as int]@);
        }
        if let Some(p) = cut {
            out.push(p);
            proof {
                assert(pair_views(out@) == pair_views(before).push((p.0@, p.1@)));
            }
        }
        i += 1;
    }
    proof {
        assert(text::texts(pieces@).take(i as int) == text::texts(pieces@));
    }
    out
}

/// The value of the first pair with this key.
pub fn find_value(qs: &str, key: &str) -> (r: Option<String>)
    ensures
        text::opt_text(r) == value_of(qs@, key@),
{
    let ps = read_pairs(qs);
    let mut i: usize = 0;
    while i < ps.len()
        invariant
            i <= ps.len(),
            pair_views(ps@) == pairs(qs@),
            forall|k: int| 0 <= k < i ==> !text::eq_ci((#[trigger] pairs(qs@)[k]).0, key@),
        decreases ps.len() - i,
    {
        proof {
            assert(pair_views(ps@)[i as int] == (ps@[i as int].0@, ps@[i as int].1@));
        }
        if eq_ignore_case(ps[i].0.as_str(), key) {
            proof {
                seqs::lemma_first_such(pairs(qs@), has_key(key@), i as int);
            }
            return Some(ps[i].1.clone());
        }
        i += 1;
    }
    proof {
        seqs::lemma_first_such(pairs(qs@), has_key(key@), i as int);
    }
    None
}

/// The value of the first pair with this key whose value is not empty.
pub fn find_filled_value(qs: &str, key: &str) -> (r: Option<String>)
    ensures
        text::opt_text(r) == filled_value_of(qs@, key@),
{
    let ps = read_pairs(qs);
    let mut i: usize = 0;
    while i < ps.len()
        invariant
            i <= ps.len(),
            pair_views(ps@) == pairs(qs@),
            forall|k: int|
                0 <= k < i ==> !(text::eq_ci((#[trigger] pairs(qs@)[k]).0, key@) && pairs(
                    qs@,
                )[k].1.len() > 0),
        decreases ps.len() - i,
    {
        proof {
            assert(pair_views(ps@)[i as int] == (ps@[i as int].0@, ps@[i as int].1@));
        }
        if eq_ignore_case(ps[i].0.as_str(), key) && !ps[i].1.as_str().is_empty() {
            proof {
                seqs::lemma_first_such(pairs(qs@), has_key_and_value(key@), i as int);
            }
            return Some(ps[i].1.clone());
        }
        i += 1;
    }
    proof {
        seqs::lemma_first_such(pairs(qs@), has_key_and_value(key@), i as int);
    }
    None
}

/// Whether some pair has this key and the value `true`, in any case.
pub fn find_flag(qs: &str, key: &str) -> (r: bool)
    ensures
        r == flag_set(qs@, key@),
{
    let ps = read_pairs(qs);
    let mut i: usize = 0;
    while i < ps.len()
        invariant
            i <= ps.len(),
            pair_views(ps@) == pairs(qs@),
            forall|k: int|
                0 <= k < i ==> !(text::eq_ci((#[trigger] pairs(qs@)[k]).0, key@) && text::eq_ci(
                    pairs(qs@)[k].1,
                    "true"@,
                )),
        decreases ps.len() - i,
    {
        proof {
            assert(pair_views(ps@)[i as int] == (ps@[i as int].0@, ps@[i as int].1@));
        }
        if eq_ignore_case(ps[i].0.as_str(), key) && eq_ignore_case(ps[i].1.as_str(), "true") {
            return true;
        }
        i += 1;
    }
    false
}

// ------------------------------------------------------------------------ laws

proof fn lemma_pairs_join(a: Seq<Seq<char>>, b: Seq<Seq<char>>)
    ensures
        pairs_of(a + b) == pairs_of(a) + pairs_of(b),
    decreases b.len(),
{
    if b.len() == 0 {
        assert(a + b =~= a);
        assert(pairs_of(a) + pairs_of(b) =~= pairs_of(a));
    } else {
        assert((a + b).drop_last() =~= a + b.drop_last());
        assert((a + b).last() == b.last());
        lemma_pairs_join(a, b.drop_last());
        assert(pairs_of(a + b) =~= pairs_of(a) + pairs_of(b));
    }
}

/// A query string is read pair by pair: `key=value`, with `&` between them. A
/// value may hold further `=`.
pub proof fn law_query_strings_are_pairs(
    key: Seq<char>,
    value: Seq<char>,
    rest: Seq<char>,
)
    requires
        !key.contains('=') && !key.contains('&') && !value.contains('&'),
    ensures
        pairs(key.push('=') + value) == seq![(key, value)],
        pairs((key.push('=') + value).push('&') + rest) == seq![(key, value)] + pairs(rest),
        pairs(key).len() == 0,
{
    let one = key.push('=') + value;
    assert(!one.contains('&')) by {
        assert forall|i: int| 0 <= i < one.len() implies one[i] != '&' by {
            if i < key.len() {
                assert(key.contains(key[i]));
                assert(one[i] == key[i]);
            } else if i > key.len() {
                assert(value.contains(value[i - key.len() - 1]));
                assert(one[i] == value[i - key.len() - 1]);
            }
        }
    }
    text::law_texts_split_at_the_mark(one, '&', rest);
    text::law_texts_split_at_the_mark(key, '&', rest);
    text::law_a_text_is_cut_once(key, '=', value);
    lemma_pairs_join(seq![one], text::split(rest, '&'));
    let p = seq![one];
    assert(p.drop_last() =~= Seq::<Seq<char>>::empty());
    assert(pairs_of(p.drop_last()) =~= Seq::<Pair>::empty());
    assert(pairs_of(p) =~= seq![(key, value)]);
    let k = seq![key];
    assert(k.drop_last() =~= Seq::<Seq<char>>::empty());
    assert(pairs_of(k.drop_last()) =~= Seq::<Pair>::empty());
}

/// The value of a key is that of the first pair under it, in any case of the
/// letters.
pub proof fn law_the_first_pair_counts(
    key: Seq<char>,
    value: Seq<char>,
    rest: Seq<char>,
    wanted: Seq<char>,
)
    requires
        !key.contains('=') && !key.contains('&') && !value.contains('&'),
    ensures
        text::lower(key) == text::lower(wanted) ==> value_of(
            (key.push('=') + value).push('&') + rest,
            wanted,
        ) == Some(value),
        text::lower(key) != text::lower(wanted) ==> value_of(
            (key.push('=') + value).push('&') + rest,
            wanted,
        ) == value_of(rest, wanted),
        text::lower(key) == text::lower(wanted) && value.len() > 0 ==> filled_value_of(
            (key.push('=') + value).push('&') + rest,
            wanted,
        ) == Some(value),
        text::lower(key) != text::lower(wanted) || value.len() == 0 ==> filled_value_of(
            (key.push('=') + value).push('&') + rest,
            wanted,
        ) == filled_value_of(rest, wanted),
        flag_set((key.push('=') + value).push('&') + rest, wanted) <==> flag_set(rest, wanted) || (
        text::lower(key) == text::lower(wanted) && text::lower(value) == "true"@),
{
    law_query_strings_are_pairs(key, value, rest);
    reveal_strlit("true");
    assert(text::lower("true"@) =~= "true"@);
    let whole = (key.push('=') + value).push('&') + rest;
    let all = pairs(whole);
    let tail = pairs(rest);
    assert(all[0] == (key, value));
    assert(all.subrange(1, all.len() as int) =~= tail);
    if flag_set(whole, wanted) {
        let i = choose|i: int|
            0 <= i < pairs(whole).len() && text::eq_ci((#[trigger] pairs(whole)[i]).0, wanted)
                && text::eq_ci(pairs(whole)[i].1, "true"@);
        if i > 0 {
            assert(tail[i - 1] == all[i]);
        }
    }
    if flag_set(rest, wanted) {
        let i = choose|i: int|
            0 <= i < pairs(rest).len() && text::eq_ci((#[trigger] pairs(rest)[i]).0, wanted)
                && text::eq_ci(pairs(rest)[i].1, "true"@);
        assert(all[i + 1] == tail[i]);
    }
    if text::lower(key) == text::lower(wanted) && text::lower(value) == "true"@ {
        assert(text::eq_ci(pairs(whole)[0].0, wanted) && text::eq_ci(pairs(whole)[0].1, "true"@));
    }
}

} // verus!
