//! Facts about finite sequences that several modules share.

use vstd::prelude::*;

verus! {

/// The first element that `wanted` accepts.
pub open spec fn first_such<T>(s: Seq<T>, wanted: spec_fn(T) -> bool) -> Option<T>
    decreases s.len(),
{
    if s.len() == 0 {
        None
    } else if wanted(s[0]) {
        Some(s[0])
    } else {
        first_such(s.subrange(1, s.len() as int), wanted)
    }
}

/// The elements that `wanted` accepts, in their order.
pub open spec fn keep<T>(s: Seq<T>, wanted: spec_fn(T) -> bool) -> Seq<T>
    decreases s.len(),
{
    if s.len() == 0 {
        Seq::empty()
    } else {
        let rest = keep(s.drop_last(), wanted);
        if wanted(s.last()) {
            rest.push(s.last())
        } else {
            rest
        }
    }
}

/// The first element that `wanted` accepts is the one before which none is
/// accepted.
pub proof fn lemma_first_such<T>(s: Seq<T>, wanted: spec_fn(T) -> bool, i: int)
    requires
        0 <= i <= s.len(),
        forall|k: int| 0 <= k < i ==> !wanted(#[trigger] s[k]),
        i < s.len() ==> wanted(s[i]),
    ensures
        first_such(s, wanted) == (if i < s.len() {
            Some(s[i])
        } else {
            None
        }),
    decreases s.len(),
{
    if i > 0 {
        let t = s.subrange(1, s.len() as int);
        assert forall|k: int| 0 <= k < i - 1 implies !wanted(#[trigger] t[k]) by {
            assert(t[k] == s[k + 1]);
        }
        lemma_first_such(t, wanted, i - 1);
    }
}

/// What `first_such` returns is accepted and stands in the sequence.
pub proof fn lemma_first_such_member<T>(s: Seq<T>, wanted: spec_fn(T) -> bool)
    ensures
        match first_such(s, wanted) {
            Some(x) => wanted(x) && s.contains(x),
            None => forall|k: int| 0 <= k < s.len() ==> !wanted(#[trigger] s[k]),
        },
    decreases s.len(),
{
    if s.len() > 0 {
        if wanted(s[0]) {
            assert(s.contains(s[0]));
        } else {
            let t = s.subrange(1, s.len() as int);
            lemma_first_such_member(t, wanted);
            match first_such(t, wanted) {
                Some(x) => {
                    let k = choose|k: int| 0 <= k < t.len() && t[k] == x;
                    assert(s[k + 1] == x);
                },
                None => {
                    assert forall|k: int| 0 <= k < s.len() implies !wanted(#[trigger] s[k]) by {
                        if k > 0 {
                            assert(t[k - 1] == s[k]);
                        }
                    }
                },
            }
        }
    }
}

/// One more element at the end is kept or not on its own merits.
pub proof fn lemma_keep_step<T>(s: Seq<T>, wanted: spec_fn(T) -> bool, i: int)
    requires
        0 <= i < s.len(),
    ensures
        keep(s.take(i + 1), wanted) == (if wanted(s[i]) {
            keep(s.take(i), wanted).push(s[i])
        } else {
            keep(s.take(i), wanted)
        }),
{
    assert(s.take(i + 1).drop_last() == s.take(i));
    assert(s.take(i + 1).last() == s[i]);
}

/// Everything that is kept was there and is accepted, and nothing that is
/// accepted is lost.
pub proof fn lemma_keep_members<T>(s: Seq<T>, wanted: spec_fn(T) -> bool)
    ensures
        keep(s, wanted).len() <= s.len(),
        forall|x: T| #[trigger]
            keep(s, wanted).contains(x) <==> s.contains(x) && wanted(x),
    decreases s.len(),
{
    if s.len() > 0 {
        let front = s.drop_last();
        lemma_keep_members(front, wanted);
        let kept = keep(front, wanted);
        assert forall|x: T| #[trigger] keep(s, wanted).contains(x) <==> s.contains(x) && wanted(
            x,
        ) by {
            if s.contains(x) && wanted(x) {
                let k = choose|k: int| 0 <= k < s.len() && s[k] == x;
                if k < front.len() {
                    assert(front[k] == x);
                    assert(kept.contains(x));
                    let j = choose|j: int| 0 <= j < kept.len() && kept[j] == x;
                    assert(keep(s, wanted)[j] == x);
                } else {
                    assert(keep(s, wanted)[kept.len() as int] == x);
                }
            }
            if keep(s, wanted).contains(x) {
                let j = choose|j: int| 0 <= j < keep(s, wanted).len() && keep(s, wanted)[j] == x;
                if j < kept.len() {
                    assert(kept[j] == x);
                    assert(kept.contains(x));
                    let k = choose|k: int| 0 <= k < front.len() && front[k] == x;
                    assert(s[k] == x);
                } else {
                    assert(s[s.len() - 1] == x);
                }
            }
        }
    }
}

/// The part of a list from `start` on, at most `limit` long.
pub open spec fn page<T>(s: Seq<T>, start: int, limit: int) -> Seq<T> {
    if start >= s.len() {
        Seq::empty()
    } else if start + limit >= s.len() {
        s.subrange(start, s.len() as int)
    } else {
        s.subrange(start, start + limit)
    }
}

/// Cuts a page out of a row.
pub fn cut_page<T: Copy>(all: &Vec<T>, start: u32, limit: u32) -> (r: Vec<T>)
    ensures
        r@ == page(all@, start as int, limit as int),
{
    let mut out: Vec<T> = Vec::new();
    let n: usize = all.len();
    let from: usize = start as usize;
    let mut i: usize = from;
    while i < n && i - from < limit as usize
        invariant
            n == all@.len(),
            from == start,
            from <= i,
            i <= n || i == from,
            i - from <= limit,
            out@ == page(all@, start as int, i - from),
        decreases n - i,
    {
        out.push(all[i]);
        i += 1;
        proof {
            assert(page(all@, start as int, i - from) == page(
                all@,
                start as int,
                i - 1 - from,
            ).push(all@[i - 1]));
        }
    }
    proof {
        assert(out@ == page(all@, start as int, limit as int));
    }
    out
}

/// Pages that follow each other join up: nothing is shown twice and nothing is
/// passed over.
pub proof fn law_pages_join<T>(s: Seq<T>, start: int, first: int, second: int)
    requires
        start >= 0,
        first >= 0,
        second >= 0,
    ensures
        page(s, start, first) + page(s, start + first, second) == page(s, start, first + second),
{
    assert(page(s, start, first) + page(s, start + first, second) =~= page(
        s,
        start,
        first + second,
    ));
}

/// The first place from `i` on, below `n`, that `wanted` accepts.
pub open spec fn first_index(wanted: spec_fn(int) -> bool, i: int, n: int) -> Option<int>
    decreases n - i,
{
    if i >= n {
        None
    } else if wanted(i) {
        Some(i)
    } else {
        first_index(wanted, i + 1, n)
    }
}

/// Places that are not accepted can be passed over.
pub proof fn lemma_first_index(wanted: spec_fn(int) -> bool, i: int, k: int, n: int)
    requires
        i <= k <= n,
        forall|j: int| i <= j < k ==> !#[trigger] wanted(j),
    ensures
        first_index(wanted, i, n) == first_index(wanted, k, n),
    decreases k - i,
{
    if i < k {
        assert(!wanted(i));
        lemma_first_index(wanted, i + 1, k, n);
    }
}

/// The places among the first `n` that are marked.
pub open spec fn marked(flags: Seq<bool>, n: int) -> Seq<usize>
    decreases n,
{
    if n <= 0 {
        Seq::empty()
    } else if flags[n - 1] {
        marked(flags, n - 1).push((n - 1) as usize)
    } else {
        marked(flags, n - 1)
    }
}

/// The places that are marked, in order.
pub open spec fn all_marked(flags: Seq<bool>) -> Seq<usize> {
    marked(flags, flags.len() as int)
}

/// The places that are marked, in order.
pub fn marked_places(flags: &Vec<bool>) -> (r: Vec<usize>)
    ensures
        r@ == all_marked(flags@),
{
    let mut out: Vec<usize> = Vec::new();
    let mut i: usize = 0;
    while i < flags.len()
        invariant
            i <= flags@.len(),
            out@ == marked(flags@, i as int),
        decreases flags@.len() - i,
    {
        if flags[i] {
            out.push(i);
        }
        i += 1;
    }
    out
}

/// The marked places are those whose flag is set.
pub proof fn lemma_marked(flags: Seq<bool>, n: int)
    requires
        0 <= n <= flags.len() <= usize::MAX,
    ensures
        forall|k: usize| #[trigger] marked(flags, n).contains(k) <==> k < n && flags[k as int],
        forall|i: int, j: int|
            0 <= i < j < marked(flags, n).len() ==> #[trigger] marked(flags, n)[i]
                < #[trigger] marked(flags, n)[j],
    decreases n,
{
    if n > 0 {
        lemma_marked(flags, n - 1);
        let before = marked(flags, n - 1);
        let x = (n - 1) as usize;
        assert forall|k: usize| #[trigger] marked(flags, n).contains(k) <==> k < n
            && flags[k as int] by {
            if before.contains(k) {
                let w = choose|w: int| 0 <= w < before.len() && before[w] == k;
                assert(marked(flags, n)[w] == k);
            }
            if k == x && flags[n - 1] {
                assert(marked(flags, n)[before.len() as int] == k);
            }
            if marked(flags, n).contains(k) && k != x {
                let w = choose|w: int| 0 <= w < marked(flags, n).len() && marked(flags, n)[w] == k;
                assert(before[w] == k);
                assert(before.contains(k));
            }
        }
        assert forall|i: int, j: int| 0 <= i < j < marked(flags, n).len() implies #[trigger] marked(
            flags,
            n,
        )[i] < #[trigger] marked(flags, n)[j] by {
            if j == before.len() {
                assert(before.contains(before[i]));
            }
        }
    }
}

/// A page holds what stands from its start on, in the same order: all of it, or
/// as much as the limit lets through.
pub proof fn law_a_page_holds_what_stands_there<T>(s: Seq<T>, start: int, limit: int)
    requires
        start >= 0,
        limit >= 0,
    ensures
        page(s, start, limit).len() == (if start >= s.len() {
            0
        } else if s.len() - start < limit {
            s.len() - start
        } else {
            limit
        }),
        forall|i: int|
            0 <= i < page(s, start, limit).len() ==> #[trigger] page(s, start, limit)[i] == s[start
                + i],
{
}

/// What is found first is wanted, and nothing before it is; nothing is found
/// exactly where nothing is wanted.
pub proof fn law_the_first_is_first<T>(s: Seq<T>, wanted: spec_fn(T) -> bool)
    ensures
        match first_such(s, wanted) {
            Some(x) => exists|i: int|
                0 <= i < s.len() && #[trigger] s[i] == x && wanted(s[i]) && forall|k: int|
                    0 <= k < i ==> !wanted(#[trigger] s[k]),
            None => forall|k: int| 0 <= k < s.len() ==> !wanted(#[trigger] s[k]),
        },
    decreases s.len(),
{
    if s.len() > 0 && !wanted(s[0]) {
        let t = s.subrange(1, s.len() as int);
        law_the_first_is_first(t, wanted);
        match first_such(t, wanted) {
            Some(x) => {
                let i = choose|i: int|
                    0 <= i < t.len() && #[trigger] t[i] == x && wanted(t[i]) && forall|k: int|
                        0 <= k < i ==> !wanted(#[trigger] t[k]);
                assert(s[i + 1] == x);
                assert forall|k: int| 0 <= k < i + 1 implies !wanted(#[trigger] s[k]) by {
                    if k > 0 {
                        assert(s[k] == t[k - 1]);
                    }
                }
            },
            None => {
                assert forall|k: int| 0 <= k < s.len() implies !wanted(#[trigger] s[k]) by {
                    if k > 0 {
                        assert(s[k] == t[k - 1]);
                    }
                }
            },
        }
    }
}

/// The first place that is wanted is wanted, and none before it is; there is
/// none exactly where none is wanted.
pub proof fn law_the_first_place_is_first(wanted: spec_fn(int) -> bool, i: int, n: int)
    ensures
        match first_index(wanted, i, n) {
            Some(k) => i <= k < n && wanted(k) && forall|j: int| i <= j < k ==> !#[trigger] wanted(j),
            None => forall|j: int| i <= j < n ==> !#[trigger] wanted(j),
        },
    decreases n - i,
{
    if i < n && !wanted(i) {
        law_the_first_place_is_first(wanted, i + 1, n);
        match first_index(wanted, i + 1, n) {
            Some(k) => {
                assert forall|j: int| i <= j < k implies !#[trigger] wanted(j) by {
                    if j > i {
                        assert(i + 1 <= j);
                    }
                }
            },
            None => {
                assert forall|j: int| i <= j < n implies !#[trigger] wanted(j) by {
                    if j > i {
                        assert(i + 1 <= j);
                    }
                }
            },
        }
    }
}

} // verus!
