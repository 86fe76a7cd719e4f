//! Stable sorts of positions, and the first of each kind.

use vstd::prelude::*;
use crate::text::chars_of;

verus! {

/// Whether `lt` orders the positions below `n`: strict, and with ties that
/// are ties with everything alike.
pub open spec fn orders(lt: spec_fn(int, int) -> bool, n: int) -> bool {
    &&& forall|a: int, b: int|
        #![trigger lt(a, b)]
        0 <= a < n && 0 <= b < n && lt(a, b) ==> !lt(b, a)
    &&& forall|a: int, b: int, c: int|
        #![trigger lt(a, b), lt(a, c)]
        0 <= a < n && 0 <= b < n && 0 <= c < n && lt(a, b) ==> lt(a, c) || lt(c, b)
}

/// Whether position `a` comes before position `b`: by `lt`, and between equals
/// the lower one first.
pub open spec fn precedes(lt: spec_fn(int, int) -> bool, a: int, b: int) -> bool {
    lt(a, b) || (!lt(b, a) && a < b)
}

/// Whether `r` is the positions below `n` in order. There is one such row.
pub open spec fn in_order(r: Seq<usize>, n: int, lt: spec_fn(int, int) -> bool) -> bool {
    &&& r.len() == n
    &&& forall|i: int| 0 <= i < n ==> #[trigger] r[i] < n
    &&& forall|i: int, j: int|
        0 <= i < j < n ==> precedes(lt, #[trigger] r[i] as int, #[trigger] r[j] as int)
}

/// Every position stands in the order once.
pub proof fn lemma_in_order_distinct(r: Seq<usize>, n: int, lt: spec_fn(int, int) -> bool)
    requires
        in_order(r, n, lt),
        orders(lt, n),
    ensures
        r.no_duplicates(),
{
    assert forall|i: int, j: int| 0 <= i < j < r.len() implies r[i] != r[j] by {
        assert(precedes(lt, r[i] as int, r[j] as int));
    }
}

/// Whether a position stands in a row.
pub open spec fn stands_in(r: Seq<usize>, k: int) -> bool {
    exists|w: int| 0 <= w < r.len() && #[trigger] r[w] == k
}

/// Every position below `n` stands in the order.
pub proof fn lemma_in_order_onto(r: Seq<usize>, n: int, lt: spec_fn(int, int) -> bool)
    requires
        in_order(r, n, lt),
        orders(lt, n),
    ensures
        r.no_duplicates(),
        forall|k: int| 0 <= k < n ==> #[trigger] stands_in(r, k),
{
    lemma_in_order_distinct(r, n, lt);
    let dom = vstd::set_lib::set_int_range(0, n);
    let ints = r.map_values(|x: usize| x as int);
    assert(ints.no_duplicates()) by {
        assert forall|i: int, j: int| 0 <= i < ints.len() && 0 <= j < ints.len() && i
            != j implies ints[i] != ints[j] by {
            assert(r[i] != r[j]);
        }
    }
    let image = ints.to_set();
    vstd::seq_lib::seq_to_set_is_finite(ints);
    ints.unique_seq_to_set();
    vstd::set_lib::lemma_int_range(0, n);
    assert(image.subset_of(dom)) by {
        assert forall|x: int| image.contains(x) implies dom.contains(x) by {
            let i = choose|i: int| 0 <= i < ints.len() && ints[i] == x;
            assert(r[i] < n);
        }
    }
    vstd::set_lib::lemma_subset_equality(image, dom);
    assert forall|k: int| 0 <= k < n implies #[trigger] stands_in(r, k) by {
        assert(dom.contains(k));
        assert(image.contains(k));
        let i = choose|i: int| 0 <= i < ints.len() && ints[i] == k;
        assert(r[i] == k);
    }
}

/// Where position `k` goes among the ones below it.
fn place<F: Fn(usize, usize) -> bool>(
    r: &Vec<usize>,
    k: usize,
    before: &F,
    Ghost(lt): Ghost<spec_fn(int, int) -> bool>,
) -> (p: usize)
    requires
        in_order(r@, k as int, lt),
        orders(lt, k + 1),
        forall|a: usize, b: usize| a <= k && b <= k ==> #[trigger] call_requires(*before, (a, b)),
        forall|a: usize, b: usize, c: bool| #[trigger]
            call_ensures(*before, (a, b), c) && a <= k && b <= k ==> c == lt(a as int, b as int),
    ensures
        p <= k,
        forall|i: int| 0 <= i < p ==> !lt(k as int, #[trigger] r@[i] as int),
        forall|i: int| p <= i < k ==> lt(k as int, #[trigger] r@[i] as int),
{
    let mut p: usize = r.len();
    while p > 0
        invariant
            p <= k,
            in_order(r@, k as int, lt),
            orders(lt, k + 1),
            forall|a: usize, b: usize|
                a <= k && b <= k ==> #[trigger] call_requires(*before, (a, b)),
            forall|a: usize, b: usize, c: bool| #[trigger]
                call_ensures(*before, (a, b), c) && a <= k && b <= k ==> c == lt(
                    a as int,
                    b as int,
                ),
            forall|i: int| p <= i < k ==> lt(k as int, #[trigger] r@[i] as int),
        decreases p,
    {
        if !before(k, r[p - 1]) {
            proof {
                let e = r@[p - 1] as int;
                assert forall|i: int| 0 <= i < p implies !lt(k as int, #[trigger] r@[i] as int) by {
                    if i < p - 1 && lt(k as int, r@[i] as int) {
                        assert(precedes(lt, r@[i] as int, e));
                        assert(lt(k as int, e) || lt(e, r@[i] as int));
                    }
                }
            }
            return p;
        }
        p -= 1;
    }
    p
}

/// The positions below `n` in the order that `before` gives.
pub(crate) fn stable_order<F: Fn(usize, usize) -> bool>(
    n: usize,
    before: F,
    Ghost(lt): Ghost<spec_fn(int, int) -> bool>,
) -> (r: Vec<usize>)
    requires
        orders(lt, n as int),
        forall|a: usize, b: usize| a < n && b < n ==> #[trigger] call_requires(before, (a, b)),
        forall|a: usize, b: usize, c: bool| #[trigger]
            call_ensures(before, (a, b), c) && a < n && b < n ==> c == lt(a as int, b as int),
    ensures
        in_order(r@, n as int, lt),
{
    let mut r: Vec<usize> = Vec::new();
    let mut k: usize = 0;
    while k < n
        invariant
            k <= n,
            in_order(r@, k as int, lt),
            orders(lt, n as int),
            forall|a: usize, b: usize| a < n && b < n ==> #[trigger] call_requires(before, (a, b)),
            forall|a: usize, b: usize, c: bool| #[trigger]
                call_ensures(before, (a, b), c) && a < n && b < n ==> c == lt(a as int, b as int),
        decreases n - k,
    {
        let p = place(&r, k, &before, Ghost(lt));
        let ghost old_r = r@;
        r.insert(p, k);
        proof {
            assert forall|i: int, j: int| 0 <= i < j < k + 1 implies precedes(
                lt,
                #[trigger] r@[i] as int,
                #[trigger] r@[j] as int,
            ) by {
                let oi = if i < p { i } else { i - 1 };
                let oj = if j < p { j } else { j - 1 };
                if i != p {
                    assert(r@[i] == old_r[oi]);
                }
                if j != p {
                    assert(r@[j] == old_r[oj]);
                }
            }
        }
        k += 1;
    }
    r
}

// ------------------------------------------------------------ lexicographic order

/// Whether row `a` comes before row `b`: at the first difference the smaller
/// number decides, and a row comes before what extends it.
pub open spec fn lex_lt(a: Seq<int>, b: Seq<int>) -> bool
    decreases a.len(),
{
    if b.len() == 0 {
        false
    } else if a.len() == 0 {
        true
    } else if a[0] != b[0] {
        a[0] < b[0]
    } else {
        lex_lt(a.subrange(1, a.len() as int), b.subrange(1, b.len() as int))
    }
}

pub proof fn lemma_lex_strict(a: Seq<int>, b: Seq<int>)
    ensures
        lex_lt(a, b) ==> !lex_lt(b, a),
        !lex_lt(a, b) && !lex_lt(b, a) ==> a == b,
    decreases a.len(),
{
    if a.len() > 0 && b.len() > 0 && a[0] == b[0] {
        let ta = a.subrange(1, a.len() as int);
        let tb = b.subrange(1, b.len() as int);
        lemma_lex_strict(ta, tb);
        if ta == tb {
            assert(a =~= seq![a[0]] + ta);
            assert(b =~= seq![b[0]] + tb);
        }
    } else if a.len() == 0 && b.len() == 0 {
        assert(a =~= b);
    }
}

pub proof fn lemma_lex_between(a: Seq<int>, b: Seq<int>, c: Seq<int>)
    requires
        lex_lt(a, b),
    ensures
        lex_lt(a, c) || lex_lt(c, b),
    decreases a.len(),
{
    if a.len() > 0 && c.len() > 0 && a[0] == b[0] && a[0] == c[0] {
        lemma_lex_between(
            a.subrange(1, a.len() as int),
            b.subrange(1, b.len() as int),
            c.subrange(1, c.len() as int),
        );
    }
}

/// Whether row `a` comes before row `b`.
pub fn lex_before(a: &Vec<i64>, b: &Vec<i64>) -> (r: bool)
    ensures
        r == lex_lt(key_view(a@), key_view(b@)),
{
    let mut i: usize = 0;
    let ghost ka = key_view(a@);
    let ghost kb = key_view(b@);
    proof {
        assert(ka.subrange(0, ka.len() as int) == ka);
        assert(kb.subrange(0, kb.len() as int) == kb);
    }
    while i < a.len() && i < b.len()
        invariant
            i <= a@.len(),
            i <= b@.len(),
            ka == key_view(a@),
            kb == key_view(b@),
            lex_lt(ka, kb) == lex_lt(
                ka.subrange(i as int, ka.len() as int),
                kb.subrange(i as int, kb.len() as int),
            ),
        decreases a@.len() - i,
    {
        if a[i] != b[i] {
            return a[i] < b[i];
        }
        proof {
            let ta = ka.subrange(i as int, ka.len() as int);
            let tb = kb.subrange(i as int, kb.len() as int);
            assert(ta.subrange(1, ta.len() as int) == ka.subrange(i + 1, ka.len() as int));
            assert(tb.subrange(1, tb.len() as int) == kb.subrange(i + 1, kb.len() as int));
        }
        i += 1;
    }
    i < b.len()
}

/// The order of positions by their keys.
pub open spec fn by_keys(keys: Seq<Seq<int>>) -> spec_fn(int, int) -> bool {
    |a: int, b: int| lex_lt(keys[a], keys[b])
}

/// A row of machine numbers as one of numbers.
pub open spec fn key_view(k: Seq<i64>) -> Seq<int> {
    Seq::new(k.len(), |i: int| k[i] as int)
}

/// The keys' views.
pub open spec fn key_views(keys: Seq<Vec<i64>>) -> Seq<Seq<int>> {
    Seq::new(keys.len(), |i: int| key_view(keys[i]@))
}

pub proof fn lemma_by_keys_orders(keys: Seq<Seq<int>>)
    ensures
        orders(by_keys(keys), keys.len() as int),
{
    let lt = by_keys(keys);
    let n = keys.len() as int;
    assert forall|a: int, b: int|
        #![trigger lt(a, b)]
        0 <= a < n && 0 <= b < n && lt(a, b) implies !lt(b, a) by {
        lemma_lex_strict(keys[a], keys[b]);
    }
    assert forall|a: int, b: int, c: int|
        #![trigger lt(a, b), lt(a, c)]
        0 <= a < n && 0 <= b < n && 0 <= c < n && lt(a, b) implies lt(a, c) || lt(c, b) by {
        lemma_lex_between(keys[a], keys[b], keys[c]);
    }
}

/// The positions in the order of their keys, equals in their own order.
pub fn order_by_keys(keys: &Vec<Vec<i64>>) -> (r: Vec<usize>)
    ensures
        in_order(r@, keys@.len() as int, by_keys(key_views(keys@))),
{
    let ghost views = key_views(keys@);
    let ghost lt = by_keys(views);
    let n: usize = keys.len();
    proof {
        lemma_by_keys_orders(views);
    }
    let before = |a: usize, b: usize| -> (c: bool)
        requires
            a < n,
            b < n,
            n == keys@.len(),
        ensures
            c == lex_lt(key_view(keys@[a as int]@), key_view(keys@[b as int]@)),
        { lex_before(&keys[a], &keys[b]) };
    stable_order(n, before, Ghost(lt))
}

/// The characters of a text as numbers.
pub open spec fn text_key(s: Seq<char>) -> Seq<int> {
    Seq::new(s.len(), |i: int| s[i] as int)
}

/// The characters of a path as numbers, with the separator below all others, so
/// that paths are ordered part by part.
pub open spec fn path_key(s: Seq<char>) -> Seq<int> {
    Seq::new(
        s.len(),
        |i: int|
            if s[i] == '/' {
                -1
            } else {
                s[i] as int
            },
    )
}

proof fn lemma_char_at_least_zero(c: char)
    ensures
        c as int >= 0,
{
}

proof fn lemma_same_char(a: char, b: char)
    requires
        a as int == b as int,
    ensures
        a == b,
{
}

/// Different paths have different keys.
pub proof fn lemma_path_key(a: Seq<char>, b: Seq<char>)
    requires
        path_key(a) == path_key(b),
    ensures
        a == b,
{
    assert(path_key(a).len() == a.len() && path_key(b).len() == b.len());
    assert forall|i: int| 0 <= i < a.len() implies a[i] == b[i] by {
        assert(path_key(a)[i] == path_key(b)[i]);
        assert(path_key(a)[i] == (if a[i] == '/' { -1 } else { a[i] as int }));
        assert(path_key(b)[i] == (if b[i] == '/' { -1 } else { b[i] as int }));
        if a[i] as int == b[i] as int {
            lemma_same_char(a[i], b[i]);
        }
        lemma_char_at_least_zero(a[i]);
        lemma_char_at_least_zero(b[i]);
    }
    assert(a =~= b);
}

fn char_number(c: char) -> (r: i64)
    ensures
        r == c as int,
{
    c as u32 as i64
}

/// The key that sorts as a text does.
pub fn key_of_text(s: &str) -> (r: Vec<i64>)
    ensures
        key_view(r@) == text_key(s@),
{
    let v = chars_of(s);
    let mut out: Vec<i64> = Vec::new();
    let mut i: usize = 0;
    while i < v.len()
        invariant
            i <= v@.len(),
            v@ == s@,
            key_view(out@) == text_key(s@).take(i as int),
        decreases v@.len() - i,
    {
        let c: char = v[i];
        let k: i64 = char_number(c);
        let ghost before = key_view(out@);
        out.push(k);
        proof {
            assert(key_view(out@) == before.push(k as int));
            assert(text_key(s@).take(i + 1) == text_key(s@).take(i as int).push(k as int));
        }
        i += 1;
    }
    proof {
        assert(text_key(s@).take(i as int) == text_key(s@));
    }
    out
}

/// The key that sorts as a path does.
pub fn key_of_path(s: &str) -> (r: Vec<i64>)
    ensures
        key_view(r@) == path_key(s@),
{
    let v = chars_of(s);
    let mut out: Vec<i64> = Vec::new();
    let mut i: usize = 0;
    while i < v.len()
        invariant
            i <= v@.len(),
            v@ == s@,
            key_view(out@) == path_key(s@).take(i as int),
        decreases v@.len() - i,
    {
        let c: char = v[i];
        let k: i64 = if c == '/' {
            -1
        } else {
            char_number(c)
        };
        let ghost before = key_view(out@);
        out.push(k);
        proof {
            assert(key_view(out@) == before.push(k as int));
            assert(path_key(s@).take(i + 1) == path_key(s@).take(i as int).push(k as int));
        }
        i += 1;
    }
    proof {
        assert(path_key(s@).take(i as int) == path_key(s@));
    }
    out
}

// ----------------------------------------------------- sorts of chosen positions

/// Whether position `a` comes before position `b`: by key, and between equal
/// keys the lower one first.
pub open spec fn key_before(key: spec_fn(int) -> Seq<int>, a: int, b: int) -> bool {
    lex_lt(key(a), key(b)) || (key(a) == key(b) && a < b)
}

/// Whether `r` is the chosen positions in the order of their keys. There is one
/// such row.
pub open spec fn arranged(
    r: Seq<usize>,
    chosen: Seq<usize>,
    key: spec_fn(int) -> Seq<int>,
) -> bool {
    &&& r.len() == chosen.len()
    &&& forall|k: usize| #[trigger] r.contains(k) <==> chosen.contains(k)
    &&& forall|i: int, j: int|
        0 <= i < j < r.len() ==> key_before(key, #[trigger] r[i] as int, #[trigger] r[j] as int)
}

/// The order of the places of a row of positions.
pub open spec fn by_chosen(
    chosen: Seq<usize>,
    key: spec_fn(int) -> Seq<int>,
) -> spec_fn(int, int) -> bool {
    |a: int, b: int| key_before(key, chosen[a] as int, chosen[b] as int)
}

/// Positions in the order of their keys are in one order.
pub proof fn lemma_key_before(key: spec_fn(int) -> Seq<int>, a: int, b: int, c: int)
    ensures
        key_before(key, a, b) ==> !key_before(key, b, a),
        key_before(key, a, b) ==> key_before(key, a, c) || key_before(key, c, b),
        a != b ==> key_before(key, a, b) || key_before(key, b, a),
{
    lemma_lex_strict(key(a), key(b));
    lemma_lex_strict(key(a), key(c));
    lemma_lex_strict(key(c), key(b));
    if lex_lt(key(a), key(b)) {
        lemma_lex_between(key(a), key(b), key(c));
    }
}

proof fn lemma_arranged_prefix(
    r: Seq<usize>,
    s: Seq<usize>,
    key: spec_fn(int) -> Seq<int>,
    n: int,
)
    requires
        r.len() == s.len(),
        0 <= n <= r.len(),
        forall|k: usize| #[trigger] r.contains(k) <==> s.contains(k),
        forall|i: int, j: int|
            0 <= i < j < r.len() ==> key_before(
                key,
                #[trigger] r[i] as int,
                #[trigger] r[j] as int,
            ),
        forall|i: int, j: int|
            0 <= i < j < s.len() ==> key_before(
                key,
                #[trigger] s[i] as int,
                #[trigger] s[j] as int,
            ),
    ensures
        forall|i: int| 0 <= i < n ==> r[i] == s[i],
    decreases n,
{
    if n > 0 {
        lemma_arranged_prefix(r, s, key, n - 1);
        let a = r[n - 1];
        let b = s[n - 1];
        if a != b {
            assert(r.contains(a) && s.contains(b));
            assert(s.contains(a) && r.contains(b));
            let i = choose|i: int| 0 <= i < s.len() && s[i] == a;
            let j = choose|j: int| 0 <= j < r.len() && r[j] == b;
            lemma_key_before(key, a as int, b as int, a as int);
            if i < n - 1 {
                assert(r[i] == s[i]);
                assert(key_before(key, r[i] as int, r[n - 1] as int));
                lemma_key_before(key, a as int, a as int, a as int);
            }
            if j < n - 1 {
                assert(r[j] == s[j]);
                assert(key_before(key, s[j] as int, s[n - 1] as int));
                lemma_key_before(key, b as int, b as int, b as int);
            }
            assert(i > n - 1 && j > n - 1);
            assert(key_before(key, s[n - 1] as int, s[i] as int));
            assert(key_before(key, r[n - 1] as int, r[j] as int));
        }
    }
}

/// The chosen positions in the order of their keys, equal keys by position.
pub(crate) fn arrange(
    chosen: &Vec<usize>,
    keys: &Vec<Vec<i64>>,
    Ghost(key): Ghost<spec_fn(int) -> Seq<int>>,
) -> (r: Vec<usize>)
    requires
        chosen@.no_duplicates(),
        keys@.len() == chosen@.len(),
        forall|i: int|
            0 <= i < chosen@.len() ==> key_view((#[trigger] keys@[i])@) == key(chosen@[i] as int),
    ensures
        arranged(r@, chosen@, key),
{
    let n: usize = chosen.len();
    let ghost lt = by_chosen(chosen@, key);
    proof {
        assert forall|a: int, b: int|
            #![trigger lt(a, b)]
            0 <= a < n && 0 <= b < n && lt(a, b) implies !lt(b, a) by {
            lemma_key_before(key, chosen@[a] as int, chosen@[b] as int, 0);
        }
        assert forall|a: int, b: int, c: int|
            #![trigger lt(a, b), lt(a, c)]
            0 <= a < n && 0 <= b < n && 0 <= c < n && lt(a, b) implies lt(a, c) || lt(c, b) by {
            lemma_key_before(key, chosen@[a] as int, chosen@[b] as int, chosen@[c] as int);
        }
        assert(orders(lt, n as int));
    }
    let before = |a: usize, b: usize| -> (c: bool)
        requires
            a < n,
            b < n,
            n == keys@.len(),
            n == chosen@.len(),
        ensures
            c == (lex_lt(key_view(keys@[a as int]@), key_view(keys@[b as int]@)) || (!lex_lt(
                key_view(keys@[b as int]@),
                key_view(keys@[a as int]@),
            ) && chosen@[a as int] < chosen@[b as int])),
        {
            lex_before(&keys[a], &keys[b]) || (!lex_before(&keys[b], &keys[a]) && chosen[a]
                < chosen[b])
        };
    proof {
        assert forall|a: usize, b: usize, c: bool| #[trigger]
            call_ensures(before, (a, b), c) && a < n && b < n implies c == lt(
            a as int,
            b as int,
        ) by {
            lemma_lex_strict(key(chosen@[a as int] as int), key(chosen@[b as int] as int));
            assert(key_view(keys@[a as int]@) == key(chosen@[a as int] as int));
            assert(key_view(keys@[b as int]@) == key(chosen@[b as int] as int));
        }
    }
    let order = stable_order(n, before, Ghost(lt));
    proof {
        lemma_in_order_onto(order@, n as int, lt);
    }
    let mut out: Vec<usize> = Vec::new();
    let mut i: usize = 0;
    while i < n
        invariant
            i <= n,
            n == chosen@.len(),
            n == order@.len(),
            forall|k: int| 0 <= k < n ==> #[trigger] order@[k] < n,
            out@ == Seq::new(i as nat, |k: int| chosen@[order@[k] as int]),
        decreases n - i,
    {
        out.push(chosen[order[i]]);
        i += 1;
    }
    proof {
        assert forall|i: int, j: int| 0 <= i < j < out@.len() implies key_before(
            key,
            #[trigger] out@[i] as int,
            #[trigger] out@[j] as int,
        ) by {
            let a = order@[i] as int;
            let b = order@[j] as int;
            assert(precedes(lt, a, b));
            assert(a != b);
            assert(chosen@[a] != chosen@[b]);
            lemma_key_before(key, chosen@[a] as int, chosen@[b] as int, 0);
        }
        assert forall|k: usize| #[trigger] out@.contains(k) <==> chosen@.contains(k) by {
            if chosen@.contains(k) {
                let a = choose|a: int| 0 <= a < n && chosen@[a] == k;
                assert(stands_in(order@, a));
                let w = choose|w: int| 0 <= w < order@.len() && order@[w] == a;
                assert(out@[w] == k);
            }
        }
    }
    out
}

// ---------------------------------------------------------- the first of a kind

/// The views of optional keys.
pub open spec fn opt_keys(keys: Seq<Option<Vec<i64>>>) -> Seq<Option<Seq<int>>> {
    Seq::new(
        keys.len(),
        |i: int|
            match keys[i] {
                Some(k) => Some(key_view(k@)),
                None => None,
            },
    )
}

/// Whether a position has a key that none before it has.
pub open spec fn is_first(keys: Seq<Option<Seq<int>>>, k: int) -> bool {
    &&& 0 <= k < keys.len()
    &&& keys[k] is Some
    &&& forall|j: int| 0 <= j < k ==> #[trigger] keys[j] != keys[k]
}

/// Whether `r` is the positions below `n` that are first of their key, in
/// order. There is one such row.
pub open spec fn firsts_below(r: Seq<usize>, keys: Seq<Option<Seq<int>>>, n: int) -> bool {
    &&& forall|k: usize| #[trigger] r.contains(k) <==> k < n && is_first(keys, k as int)
    &&& forall|i: int, j: int| 0 <= i < j < r.len() ==> #[trigger] r[i] < #[trigger] r[j]
}

/// Whether `r` is the positions that are first of their key, in order.
pub open spec fn firsts(r: Seq<usize>, keys: Seq<Option<Seq<int>>>) -> bool {
    firsts_below(r, keys, keys.len() as int)
}

fn same_key(a: &Vec<i64>, b: &Vec<i64>) -> (r: bool)
    ensures
        r == (key_view(a@) == key_view(b@)),
{
    proof {
        lemma_lex_strict(key_view(a@), key_view(b@));
        lemma_lex_strict(key_view(b@), key_view(a@));
    }
    !lex_before(a, b) && !lex_before(b, a)
}

/// Whether a key stands at one of some positions.
fn key_among(keys: &Vec<Option<Vec<i64>>>, at: &Vec<usize>, k: usize) -> (r: bool)
    requires
        k < keys@.len(),
        opt_keys(keys@)[k as int] is Some,
        firsts_below(at@, opt_keys(keys@), k as int),
    ensures
        r == !is_first(opt_keys(keys@), k as int),
{
    let ghost views = opt_keys(keys@);
    let mut i: usize = 0;
    while i < at.len()
        invariant
            i <= at@.len(),
            k < keys@.len(),
            views == opt_keys(keys@),
            views[k as int] is Some,
            firsts_below(at@, views, k as int),
            forall|j: int| 0 <= j < i ==> views[#[trigger] at@[j] as int] != views[k as int],
        decreases at@.len() - i,
    {
        proof {
            assert(at@.contains(at@[i as int]));
            assert(views[at@[i as int] as int] is Some);
        }
        let same: bool = match (&keys[at[i]], &keys[k]) {
            (Some(a), Some(b)) => same_key(a, b),
            _ => false,
        };
        if same {
            return true;
        }
        i += 1;
    }
    proof {
        assert forall|j: int| 0 <= j < k implies #[trigger] views[j] != views[k as int] by {
            if views[j] == views[k as int] {
                let f = lemma_some_first(views, j);
                assert(at@.contains(f as usize));
                let w = choose|w: int| 0 <= w < at@.len() && at@[w] == f as usize;
                assert(views[at@[w] as int] != views[k as int]);
            }
        }
    }
    false
}

/// The first position with the key that stands at `j`.
proof fn lemma_some_first(views: Seq<Option<Seq<int>>>, j: int) -> (f: int)
    requires
        0 <= j < views.len(),
        views[j] is Some,
    ensures
        0 <= f <= j,
        views[f] == views[j],
        is_first(views, f),
    decreases j,
{
    if is_first(views, j) {
        j
    } else {
        let i = choose|i: int| 0 <= i < j && views[i] == views[j];
        lemma_some_first(views, i)
    }
}

/// The positions that are first of their key, in order.
pub(crate) fn first_positions(keys: &Vec<Option<Vec<i64>>>) -> (r: Vec<usize>)
    ensures
        firsts(r@, opt_keys(keys@)),
        r@.no_duplicates(),
{
    let ghost views = opt_keys(keys@);
    let mut out: Vec<usize> = Vec::new();
    let mut k: usize = 0;
    while k < keys.len()
        invariant
            k <= keys@.len(),
            views == opt_keys(keys@),
            firsts_below(out@, views, k as int),
        decreases keys@.len() - k,
    {
        let ghost before = out@;
        let fresh: bool = keys[k].is_some() && !key_among(keys, &out, k);
        if fresh {
            out.push(k);
            proof {
                assert forall|m: usize| #[trigger] out@.contains(m) <==> m < k + 1 && is_first(
                    views,
                    m as int,
                ) by {
                    if m == k {
                        assert(out@[before.len() as int] == m);
                    }
                    if before.contains(m) {
                        let w = choose|w: int| 0 <= w < before.len() && before[w] == m;
                        assert(out@[w] == m);
                    }
                    if out@.contains(m) && m != k {
                        let w = choose|w: int| 0 <= w < out@.len() && out@[w] == m;
                        assert(before[w] == m);
                        assert(before.contains(m));
                    }
                }
                assert forall|i: int, j: int| 0 <= i < j < out@.len() implies #[trigger] out@[i]
                    < #[trigger] out@[j] by {
                    assert(before.contains(before[i]));
                }
            }
        }
        k += 1;
    }
    out
}

// -------------------------------------------------------------- ranked positions

/// Whether `r` is the positions below `n` that `wanted` accepts, in the order of
/// their keys. There is one such row.
pub open spec fn ranked(
    r: Seq<usize>,
    n: int,
    wanted: spec_fn(int) -> bool,
    key: spec_fn(int) -> Seq<int>,
) -> bool {
    &&& forall|k: usize| #[trigger] r.contains(k) <==> k < n && wanted(k as int)
    &&& forall|i: int, j: int|
        0 <= i < j < r.len() ==> key_before(key, #[trigger] r[i] as int, #[trigger] r[j] as int)
}

/// A row with one more at its end holds what it held and that one.
pub proof fn lemma_pushed(before: Seq<usize>, x: usize)
    ensures
        forall|k: usize| #[trigger]
            before.push(x).contains(k) <==> before.contains(k) || k == x,
{
    assert forall|k: usize| #[trigger] before.push(x).contains(k) <==> before.contains(k) || k
        == x by {
        if before.contains(k) {
            let w = choose|w: int| 0 <= w < before.len() && before[w] == k;
            assert(before.push(x)[w] == k);
        }
        if k == x {
            assert(before.push(x)[before.len() as int] == k);
        }
        if before.push(x).contains(k) && k != x {
            let w = choose|w: int| 0 <= w < before.push(x).len() && before.push(x)[w] == k;
            assert(before[w] == k);
        }
    }
}

/// The positions that have a key, in the order of their keys.
pub(crate) fn rank(
    keys: Vec<Option<Vec<i64>>>,
    Ghost(key): Ghost<spec_fn(int) -> Seq<int>>,
) -> (r: Vec<usize>)
    requires
        forall|i: int|
            0 <= i < keys@.len() && (#[trigger] opt_keys(keys@)[i]) is Some ==> opt_keys(
                keys@,
            )[i]->0 == key(i),
    ensures
        ranked(r@, keys@.len() as int, |i: int| opt_keys(keys@)[i] is Some, key),
        forall|i: int| 0 <= i < r@.len() ==> #[trigger] r@[i] < keys@.len(),
{
    let ghost views = opt_keys(keys@);
    let n: usize = keys.len();
    let mut chosen: Vec<usize> = Vec::new();
    let mut found: Vec<Vec<i64>> = Vec::new();
    let mut i: usize = 0;
    let mut rest: Vec<Option<Vec<i64>>> = keys;
    while i < n
        invariant
            i <= n,
            n == views.len(),
            rest@.len() == n,
            forall|k: int| i <= k < n ==> opt_keys(rest@)[k] == #[trigger] views[k],
            forall|k: int|
                0 <= k < n && (#[trigger] views[k]) is Some ==> views[k]->0 == key(k),
            found@.len() == chosen@.len(),
            forall|k: usize| #[trigger]
                chosen@.contains(k) <==> k < i && views[k as int] is Some,
            forall|a: int, b: int|
                0 <= a < b < chosen@.len() ==> #[trigger] chosen@[a] < #[trigger] chosen@[b],
            forall|a: int| 0 <= a < chosen@.len() ==> #[trigger] chosen@[a] < i,
            forall|a: int|
                0 <= a < chosen@.len() ==> key_view((#[trigger] found@[a])@) == key(
                    chosen@[a] as int,
                ),
        decreases n - i,
    {
        proof {
            assert(views[i as int] == opt_keys(rest@)[i as int]);
        }
        let mut none: Option<Vec<i64>> = None;
        let ghost before_rest = rest@;
        rest.set_and_swap(i, &mut none);
        proof {
            assert forall|k: int| i < k < n implies opt_keys(rest@)[k] == #[trigger] views[k] by {
                assert(rest@[k] == before_rest[k]);
                assert(opt_keys(before_rest)[k] == views[k]);
            }
        }
        if let Some(k) = none {
            let ghost before = chosen@;
            chosen.push(i);
            found.push(k);
            proof {
                lemma_pushed(before, i);
            }
        }
        i += 1;
    }
    let r = arrange(&chosen, &found, Ghost(key));
    proof {
        assert forall|i: int| 0 <= i < r@.len() implies #[trigger] r@[i] < n by {
            assert(r@.contains(r@[i]));
        }
    }
    r
}

proof fn lemma_ranked_distinct(r: Seq<usize>, key: spec_fn(int) -> Seq<int>)
    requires
        forall|i: int, j: int|
            0 <= i < j < r.len() ==> key_before(key, #[trigger] r[i] as int, #[trigger] r[j] as int),
    ensures
        r.no_duplicates(),
{
    assert forall|i: int, j: int| 0 <= i < r.len() && 0 <= j < r.len() && i != j implies r[i]
        != r[j] by {
        lemma_key_before(key, r[i] as int, r[j] as int, 0);
        if i < j {
            assert(key_before(key, r[i] as int, r[j] as int));
        } else {
            assert(key_before(key, r[j] as int, r[i] as int));
        }
    }
}

/// A ranking is settled by what is ranked and its keys: there is one.
pub proof fn law_there_is_one_ranking(
    r: Seq<usize>,
    s: Seq<usize>,
    n: int,
    wanted: spec_fn(int) -> bool,
    key: spec_fn(int) -> Seq<int>,
)
    requires
        ranked(r, n, wanted, key),
        ranked(s, n, wanted, key),
    ensures
        r == s,
{
    lemma_ranked_distinct(r, key);
    lemma_ranked_distinct(s, key);
    assert(r.to_set() =~= s.to_set()) by {
        assert forall|k: usize| r.to_set().contains(k) <==> s.to_set().contains(k) by {
            assert(r.contains(k) <==> s.contains(k));
        }
    }
    r.unique_seq_to_set();
    s.unique_seq_to_set();
    assert(r.len() == s.len());
    assert forall|k: usize| #[trigger] r.contains(k) <==> s.contains(k) by {}
    lemma_arranged_prefix(r, s, key, r.len() as int);
    assert(r =~= s);
}

/// Rows are ordered by the first number in which they differ, and a row that
/// another begins with comes before that one.
pub proof fn law_the_first_difference_decides(p: Seq<int>, a: Seq<int>, b: Seq<int>, x: int, y: int)
    ensures
        lex_lt(p + seq![x] + a, p + seq![y] + b) <==> x < y || (x == y && lex_lt(a, b)),
        lex_lt(p, p + seq![x] + a),
        !lex_lt(p, p),
    decreases p.len(),
{
    let s = p + seq![x] + a;
    let t = p + seq![y] + b;
    if p.len() == 0 {
        assert(s[0] == x && t[0] == y);
        assert(s.subrange(1, s.len() as int) =~= a);
        assert(t.subrange(1, t.len() as int) =~= b);
    } else {
        let q = p.subrange(1, p.len() as int);
        law_the_first_difference_decides(q, a, b, x, y);
        assert(s[0] == p[0] && t[0] == p[0]);
        assert(s.subrange(1, s.len() as int) =~= q + seq![x] + a);
        assert(t.subrange(1, t.len() as int) =~= q + seq![y] + b);
        assert(!lex_lt(p, p)) by {
            lemma_lex_strict(p, p);
        }
    }
}

/// Pairs of numbers are ordered by the first and then by the second.
pub proof fn law_pairs_are_ordered(a: int, b: int, c: int, d: int)
    ensures
        lex_lt(seq![a, b], seq![c, d]) <==> a < c || (a == c && b < d),
        lex_lt(seq![a], seq![c]) <==> a < c,
{
    reveal_with_fuel(lex_lt, 3);
    let s = seq![a, b];
    let t = seq![c, d];
    assert(s.subrange(1, 2) =~= seq![b]);
    assert(t.subrange(1, 2) =~= seq![d]);
}

/// Texts are ordered by the numbers of their characters, and paths part by part.
pub proof fn law_keys_spell_the_text(s: Seq<char>)
    ensures
        text_key(s).len() == s.len() && path_key(s).len() == s.len(),
        forall|i: int|
            #![trigger s[i]]
            0 <= i < s.len() ==> text_key(s)[i] == s[i] as int && path_key(s)[i] == (if s[i] == '/' {
                -1
            } else {
                s[i] as int
            }),
{
}

} // verus!
