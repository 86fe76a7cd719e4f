//! Rows of texts taken as sets.

use vstd::prelude::*;
use crate::text::{self, eq_text};

verus! {

/// Whether a text stands in a row.
pub fn holds_text(row: &Vec<String>, want: &str) -> (r: bool)
    ensures
        r == text::texts(row@).contains(want@),
{
    let mut i: usize = 0;
    while i < row.len()
        invariant
            i <= row@.len(),
            forall|k: int| 0 <= k < i ==> #[trigger] text::texts(row@)[k] != want@,
        decreases row@.len() - i,
    {
        if eq_text(row[i].as_str(), want) {
            proof {
                assert(text::texts(row@)[i as int] == want@);
            }
            return true;
        }
        i += 1;
    }
    proof {
        assert(text::texts(row@).len() == row@.len());
    }
    false
}

/// One more text in a row is one more in its set.
pub proof fn lemma_to_set_push(s: Seq<Seq<char>>, x: Seq<char>)
    ensures
        s.push(x).to_set() == s.to_set().insert(x),
{
    assert forall|e: Seq<char>| s.push(x).to_set().contains(e) <==> #[trigger] s.to_set().insert(
        x,
    ).contains(e) by {
        if s.contains(e) {
            let w = choose|w: int| 0 <= w < s.len() && s[w] == e;
            assert(s.push(x)[w] == e);
        }
        if e == x {
            assert(s.push(x)[s.len() as int] == e);
        }
        if s.push(x).contains(e) && e != x {
            let w = choose|w: int| 0 <= w < s.push(x).len() && s.push(x)[w] == e;
            assert(s[w] == e);
        }
    }
    assert(s.push(x).to_set() =~= s.to_set().insert(x));
}

/// Puts the texts of a row that are not there yet at the end of another.
pub fn merge_texts(out: &mut Vec<String>, row: &Vec<String>)
    requires
        text::texts(old(out)@).no_duplicates(),
    ensures
        text::texts(final(out)@).no_duplicates(),
        text::texts(final(out)@).to_set() == text::texts(old(out)@).to_set().union(
            text::texts(row@).to_set(),
        ),
{
    let ghost start = text::texts(out@).to_set();
    let ghost all = text::texts(row@);
    let mut i: usize = 0;
    proof {
        assert(all.take(0).to_set() =~= Set::<Seq<char>>::empty());
        assert(start.union(Set::<Seq<char>>::empty()) =~= start);
    }
    while i < row.len()
        invariant
            i <= row@.len(),
            all == text::texts(row@),
            text::texts(out@).no_duplicates(),
            text::texts(out@).to_set() == start.union(all.take(i as int).to_set()),
        decreases row@.len() - i,
    {
        proof {
            assert(all[i as int] == row@[i as int]@);
            assert(all.take(i + 1) == all.take(i as int).push(all[i as int]));
            lemma_to_set_push(all.take(i as int), all[i as int]);
        }
        let ghost before = text::texts(out@);
        if !holds_text(out, row[i].as_str()) {
            out.push(row[i].clone());
            proof {
                assert(text::texts(out@) == before.push(all[i as int]));
                lemma_to_set_push(before, all[i as int]);
            }
        } else {
            proof {
                assert(before.to_set().contains(all[i as int]));
            }
        }
        proof {
            assert(text::texts(out@).to_set() =~= start.union(all.take(i + 1).to_set()));
        }
        i += 1;
    }
    proof {
        assert(all.len() == row@.len());
        assert(all.take(i as int) == all);
    }
}

/// How many texts two rows have in common.
pub fn count_common(a: &Vec<String>, b: &Vec<String>) -> (r: usize)
    requires
        text::texts(a@).no_duplicates(),
    ensures
        r == text::texts(a@).to_set().intersect(text::texts(b@).to_set()).len(),
{
    let ghost all = text::texts(a@);
    let ghost other = text::texts(b@).to_set();
    let mut n: usize = 0;
    let mut i: usize = 0;
    proof {
        assert(all.len() == a@.len());
        assert(all.take(0).to_set().intersect(other) =~= Set::<Seq<char>>::empty());
    }
    while i < a.len()
        invariant
            i <= a@.len(),
            n <= i,
            all == text::texts(a@),
            all.len() == a@.len(),
            all.no_duplicates(),
            other == text::texts(b@).to_set(),
            n == all.take(i as int).to_set().intersect(other).len(),
        decreases a@.len() - i,
    {
        proof {
            let x = all[i as int];
            let s = all.take(i as int).to_set();
            assert(x == a@[i as int]@);
            assert(all.take(i + 1) == all.take(i as int).push(x));
            lemma_to_set_push(all.take(i as int), x);
            assert(!s.contains(x)) by {
                if s.contains(x) {
                    let w = choose|w: int| 0 <= w < i && all.take(i as int)[w] == x;
                    assert(all[w] == all[i as int]);
                }
            }
            vstd::seq_lib::seq_to_set_is_finite(all.take(i as int));
            if other.contains(x) {
                assert(s.insert(x).intersect(other) =~= s.intersect(other).insert(x));
            } else {
                assert(s.insert(x).intersect(other) =~= s.intersect(other));
            }
        }
        if holds_text(b, a[i].as_str()) {
            n += 1;
        }
        i += 1;
    }
    proof {
        assert(all.take(i as int) == all);
    }
    n
}

/// A set with one more text, if there is one.
pub open spec fn with_text(s: Set<Seq<char>>, o: Option<Seq<char>>) -> Set<Seq<char>> {
    match o {
        Some(t) => s.insert(t),
        None => s,
    }
}

/// Puts a text at the end of a row, unless it is there.
pub fn note_text(out: &mut Vec<String>, o: &Option<String>)
    requires
        text::texts(old(out)@).no_duplicates(),
    ensures
        text::texts(final(out)@).no_duplicates(),
        text::texts(final(out)@).to_set() == with_text(
            text::texts(old(out)@).to_set(),
            text::opt_text(*o),
        ),
        final(out)@.len() <= old(out)@.len() + 1,
{
    if let Some(t) = o {
        let ghost before = text::texts(out@);
        if !holds_text(out, t.as_str()) {
            out.push(t.clone());
            proof {
                assert(text::texts(out@) == before.push(t@));
                lemma_to_set_push(before, t@);
            }
        } else {
            proof {
                assert(before.to_set().contains(t@));
                assert(before.to_set().insert(t@) =~= before.to_set());
            }
        }
    }
}

} // verus!
