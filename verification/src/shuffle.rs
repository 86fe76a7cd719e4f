//! A seeded shuffle, and where its seed comes from.

use vstd::prelude::*;

verus! {

/// One step of the 64-bit xorshift generator.
pub open spec fn xorshift(x: u64) -> u64 {
    let a = x ^ (x << 13u64);
    let b = a ^ (a >> 7u64);
    b ^ (b << 17u64)
}

/// `s` with two elements exchanged.
pub open spec fn swapped<T>(s: Seq<T>, i: int, j: int) -> Seq<T> {
    s.update(i, s[j]).update(j, s[i])
}

/// The shuffle of the first `n` elements: the last of them changes places with
/// one that the generator picks, then the ones before it are shuffled. The
/// second component is the state that the generator is left in.
pub open spec fn shuffled<T>(s: Seq<T>, n: nat, state: u64) -> (Seq<T>, u64)
    decreases n,
{
    if n <= 1 {
        (s, state)
    } else {
        let next = xorshift(state);
        let j = (next as usize) as int % n as int;
        shuffled(swapped(s, n - 1, j), (n - 1) as nat, next)
    }
}

/// `<[T]>::swap` of std: exchanges two elements.
#[verifier::external_body]
fn swap_elements<T>(items: &mut Vec<T>, a: usize, b: usize)
    requires
        a < old(items)@.len(),
        b < old(items)@.len(),
    ensures
        final(items)@ == swapped(old(items)@, a as int, b as int),
{
    items.swap(a, b);
}

/// Shuffles in place, and leaves the generator's state behind for the next
/// shuffle.
pub fn xorshift_shuffle<T>(items: &mut Vec<T>, state: &mut u64)
    ensures
        (final(items)@, *final(state)) == shuffled(old(items)@, old(items)@.len(), *old(state)),
{
    let ghost items0 = items@;
    let ghost state0 = *state;
    let mut n: usize = items.len();
    while n > 1
        invariant
            n <= items@.len(),
            items@.len() == items0.len(),
            shuffled(items@, n as nat, *state) == shuffled(items0, items0.len(), state0),
        decreases n,
    {
        let mut x: u64 = *state;
        x = x ^ (x << 13);
        x = x ^ (x >> 7);
        x = x ^ (x << 17);
        *state = x;
        let j: usize = (x as usize) % n;
        swap_elements(items, n - 1, j);
        n -= 1;
    }
}

/// The number that eight bytes write down, the lowest first.
pub open spec fn little_endian(b: Seq<u8>) -> int
    decreases b.len(),
{
    if b.len() == 0 {
        0
    } else {
        b[0] as int + 256 * little_endian(b.subrange(1, b.len() as int))
    }
}

/// The bytes that stand in where the system has no random ones to give.
pub open spec fn fallback_bytes() -> Seq<u8> {
    seq![1u8, 2, 3, 4, 5, 6, 7, 8]
}

/// The seed that eight bytes make: their number, made odd so that the
/// generator does not stand still.
pub open spec fn seed_of(bytes: Option<Seq<u8>>) -> int {
    let n = little_endian(match bytes {
        Some(b) => b,
        None => fallback_bytes(),
    });
    if n % 2 == 0 {
        n + 1
    } else {
        n
    }
}

/// `getrandom::getrandom`: eight bytes from the system's random source, or
/// nothing where it reports a failure. Which bytes come is chance, so nothing
/// is said of them.
#[verifier::external_body]
fn random_bytes() -> (r: Option<[u8; 8]>)
{
    let mut buf = [0u8; 8];
    match getrandom::getrandom(&mut buf) {
        Ok(()) => Some(buf),
        Err(_) => None,
    }
}

proof fn lemma_little_endian_8(b: Seq<u8>)
    requires
        b.len() == 8,
    ensures
        little_endian(b) == b[0] + 0x100 * b[1] + 0x1_0000 * b[2] + 0x100_0000 * b[3]
            + 0x1_0000_0000 * b[4] + 0x100_0000_0000 * b[5] + 0x1_0000_0000_0000 * b[6]
            + 0x100_0000_0000_0000 * b[7],
{
    reveal_with_fuel(little_endian, 9);
    let b1 = b.subrange(1, 8);
    let b2 = b1.subrange(1, 7);
    let b3 = b2.subrange(1, 6);
    let b4 = b3.subrange(1, 5);
    let b5 = b4.subrange(1, 4);
    let b6 = b5.subrange(1, 3);
    let b7 = b6.subrange(1, 2);
    assert(little_endian(b7) == b[7]);
    assert(little_endian(b6) == b[6] + 256 * little_endian(b7));
    assert(little_endian(b5) == b[5] + 256 * little_endian(b6));
    assert(little_endian(b4) == b[4] + 256 * little_endian(b5));
    assert(little_endian(b3) == b[3] + 256 * little_endian(b4));
    assert(little_endian(b2) == b[2] + 256 * little_endian(b3));
    assert(little_endian(b1) == b[1] + 256 * little_endian(b2));
}

/// The seed for the bytes that the random source gave.
pub fn seed_from(bytes: Option<[u8; 8]>) -> (r: u64)
    ensures
        r == seed_of(match bytes {
            Some(b) => Some(b@),
            None => None,
        }),
{
    let b: [u8; 8] = match bytes {
        Some(b) => b,
        None => [1, 2, 3, 4, 5, 6, 7, 8],
    };
    proof {
        lemma_little_endian_8(b@);
        assert(bytes is None ==> b@ == fallback_bytes());
    }
    let n: u64 = b[0] as u64 + 0x100 * b[1] as u64 + 0x1_0000 * b[2] as u64 + 0x100_0000
        * b[3] as u64 + 0x1_0000_0000 * b[4] as u64 + 0x100_0000_0000 * b[5] as u64
        + 0x1_0000_0000_0000 * b[6] as u64 + 0x100_0000_0000_0000 * b[7] as u64;
    if n % 2 == 0 {
        n + 1
    } else {
        n
    }
}

/// A seed from the system's random source.
pub fn pseudo_seed() -> (r: u64)
    ensures
        r % 2 == 1,
{
    seed_from(random_bytes())
}

// ------------------------------------------------------------------------ laws

proof fn lemma_swapped<T>(s: Seq<T>, i: int, j: int)
    requires
        0 <= i < s.len(),
        0 <= j < s.len(),
    ensures
        swapped(s, i, j).to_multiset() == s.to_multiset(),
{
    broadcast use vstd::seq_lib::group_to_multiset_ensures;

    let a = s.update(i, s[j]);
    vstd::seq_lib::to_multiset_update(s, i, s[j]);
    vstd::seq_lib::to_multiset_update(a, j, s[i]);
    if i == j {
        assert(swapped(s, i, j) == s);
    } else {
        assert(a[j] == s[j]);
        assert(s.contains(s[i]));
        assert(s.to_multiset().count(s[i]) > 0);
        assert(swapped(s, i, j).to_multiset() =~= s.to_multiset());
    }
}

/// A shuffle loses nothing and makes nothing up: the same elements come out,
/// each as often as it went in.
pub proof fn law_shuffle_is_a_permutation<T>(s: Seq<T>, n: nat, state: u64)
    requires
        n <= s.len(),
    ensures
        shuffled(s, n, state).0.to_multiset() == s.to_multiset(),
        shuffled(s, n, state).0.len() == s.len(),
    decreases n,
{
    if n > 1 {
        let next = xorshift(state);
        let j = (next as usize) as int % n as int;
        assert(0 <= j < n) by (nonlinear_arith)
            requires
                j == (next as usize) as int % n as int,
                n > 1,
        ;
        lemma_swapped(s, n - 1, j);
        law_shuffle_is_a_permutation(swapped(s, n - 1, j), (n - 1) as nat, next);
    }
}

/// The generator never comes to a stand: a state other than zero is followed
/// by one other than zero.
pub proof fn law_the_generator_keeps_moving(x: u64)
    requires
        x != 0,
    ensures
        xorshift(x) != 0,
{
    let a = x ^ (x << 13u64);
    assert(a != 0) by (bit_vector)
        requires
            x != 0,
            a == x ^ (x << 13u64),
    ;
    let b = a ^ (a >> 7u64);
    assert(b != 0) by (bit_vector)
        requires
            a != 0,
            b == a ^ (a >> 7u64),
    ;
    assert(b ^ (b << 17u64) != 0) by (bit_vector)
        requires
            b != 0,
    ;
}

/// Every seed starts the generator off in a state other than zero, whatever
/// bytes it was made of.
pub proof fn law_seeds_are_odd(bytes: Option<Seq<u8>>)
    ensures
        seed_of(bytes) % 2 == 1,
{
}

} // verus!
