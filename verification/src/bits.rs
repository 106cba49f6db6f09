//! Bit-level groundwork over 64-bit words: single-bit queries, extensional
//! equality, population count, the highest set bit, and assembling a word
//! whose bits are drawn from another word under an index map.

use vstd::prelude::*;

verus! {

/// True iff bit `i` of `b` is set.
pub open spec fn nth_bit(b: u64, i: u64) -> bool
    recommends
        i < 64,
{
    (b >> i) & 1u64 == 1u64
}

/// The mask with the `n` lowest bits set.
pub open spec fn low_mask(n: u64) -> u64 {
    if n < 64 {
        ((1u64 << n) - 1) as u64
    } else {
        0xffff_ffff_ffff_ffffu64
    }
}

/// No bit of zero is set.
pub proof fn lemma_bit_zero(j: u64)
    by (bit_vector)
    ensures
        !nth_bit(0u64, j),
{
}

/// A bit of a union is set iff it is set on either side.
pub proof fn lemma_bit_or(x: u64, y: u64, j: u64)
    by (bit_vector)
    ensures
        nth_bit(x | y, j) == (nth_bit(x, j) || nth_bit(y, j)),
{
}

/// The single-bit word `1 << t` has exactly bit `t` set.
pub proof fn lemma_bit_single(t: u64, j: u64)
    by (bit_vector)
    requires
        t < 64,
        j < 64,
    ensures
        nth_bit(1u64 << t, j) == (j == t),
{
}

/// Clearing bit `t` leaves every other bit unchanged.
pub proof fn lemma_bit_clear(x: u64, t: u64, j: u64)
    by (bit_vector)
    requires
        t < 64,
        j < 64,
    ensures
        nth_bit(x & !(1u64 << t), j) == (nth_bit(x, j) && j != t),
{
}

/// Bit `c` of the row-`r` byte of `b` is bit `r * 8 + c` of `b`.
pub proof fn lemma_byte_bits(b: u64, r: u64, c: u64)
    by (bit_vector)
    requires
        r < 8,
        c < 8,
    ensures
        nth_bit((b >> (r * 8)) & 0xff, c) == nth_bit(b, (r * 8 + c) as u64),
        (b >> (r * 8)) & 0xff < 256,
{
}

/// A word below 256 has no bit set at index 8 or above.
pub proof fn lemma_small_bit(b: u64, j: u64)
    by (bit_vector)
    requires
        b < 256,
        8 <= j < 64,
    ensures
        !nth_bit(b, j),
{
}

proof fn lemma_ext_step(x: u64, y: u64, n: u64)
    by (bit_vector)
    requires
        n < 64,
        x & low_mask(n) == y & low_mask(n),
        nth_bit(x, n) == nth_bit(y, n),
    ensures
        x & low_mask((n + 1) as u64) == y & low_mask((n + 1) as u64),
{
}

proof fn lemma_ext_upto(x: u64, y: u64, n: u64)
    requires
        n <= 64,
        forall|j: u64| j < n ==> nth_bit(x, j) == nth_bit(y, j),
    ensures
        x & low_mask(n) == y & low_mask(n),
    decreases n,
{
    if n == 0 {
        assert(x & low_mask(0) == y & low_mask(0)) by (bit_vector);
    } else {
        lemma_ext_upto(x, y, (n - 1) as u64);
        lemma_ext_step(x, y, (n - 1) as u64);
    }
}

/// Two 64-bit words that agree on each of their 64 bits are equal.
pub proof fn lemma_u64_ext(x: u64, y: u64)
    requires
        forall|j: u64| j < 64 ==> nth_bit(x, j) == nth_bit(y, j),
    ensures
        x == y,
{
    lemma_ext_upto(x, y, 64);
    assert(x == y) by (bit_vector)
        requires
            x & low_mask(64) == y & low_mask(64),
    ;
}

/// A nonzero word has at least one set bit.
pub proof fn lemma_nonzero_has_bit(x: u64)
    requires
        x != 0,
    ensures
        exists|j: u64| j < 64 && nth_bit(x, j),
{
    if forall|j: u64| j < 64 ==> !nth_bit(x, j) {
        assert forall|j: u64| j < 64 implies nth_bit(x, j) == nth_bit(0u64, j) by {
            lemma_bit_zero(j);
        }
        lemma_u64_ext(x, 0);
        assert(false);
    }
}

/// The number of set bits of `b` among bit indices below `n`.
pub open spec fn popcnt_rec(b: u64, n: int) -> nat
    decreases n,
{
    if n <= 0 {
        0
    } else {
        popcnt_rec(b, n - 1) + if nth_bit(b, (n - 1) as u64) {
            1nat
        } else {
            0nat
        }
    }
}

/// The number of set bits of a 64-bit word.
pub open spec fn popcnt64(b: u64) -> nat {
    popcnt_rec(b, 64)
}

/// At most `n` bits are set among the `n` lowest bit indices.
pub proof fn lemma_popcnt_le(b: u64, n: int)
    requires
        0 <= n,
    ensures
        popcnt_rec(b, n) <= n,
    decreases n,
{
    if n > 0 {
        lemma_popcnt_le(b, n - 1);
    }
}

/// Zero has no set bits.
pub proof fn lemma_popcnt_zero(n: int)
    ensures
        popcnt_rec(0u64, n) == 0,
    decreases n,
{
    if n > 0 {
        lemma_popcnt_zero(n - 1);
        lemma_bit_zero((n - 1) as u64);
    }
}

proof fn lemma_popcnt_clear_rec(x: u64, t: u64, n: int)
    requires
        t < 64,
        n <= 64,
    ensures
        popcnt_rec(x & !(1u64 << t), n) == popcnt_rec(x, n) - (if t < n && nth_bit(x, t) {
            1int
        } else {
            0int
        }),
    decreases n,
{
    if n > 0 {
        lemma_popcnt_clear_rec(x, t, n - 1);
        lemma_bit_clear(x, t, (n - 1) as u64);
    }
}

/// Clearing a set bit lowers the population count by exactly one.
pub proof fn lemma_popcnt_clear(x: u64, t: u64)
    requires
        t < 64,
        nth_bit(x, t),
    ensures
        popcnt64(x) == popcnt64(x & !(1u64 << t)) + 1,
{
    lemma_popcnt_clear_rec(x, t, 64);
}

/// A single-bit word has population count one.
pub proof fn lemma_popcnt_single(t: u64)
    requires
        t < 64,
    ensures
        popcnt64(1u64 << t) == 1,
{
    lemma_bit_single(t, t);
    assert((1u64 << t) & !(1u64 << t) == 0) by (bit_vector);
    lemma_popcnt_clear(1u64 << t, t);
    lemma_popcnt_zero(64);
}

/// Counts the set bits of a 64-bit word.
pub fn popcount_u64(v: u64) -> (n: u8)
    ensures
        n as nat == popcnt64(v),
{
    let mut n: u8 = 0;
    let mut i: u64 = 0;
    while i < 64
        invariant
            i <= 64,
            n <= i,
            n as nat == popcnt_rec(v, i as int),
        decreases 64 - i,
    {
        if (v >> i) & 1 == 1 {
            n = n + 1;
        }
        i = i + 1;
    }
    n
}

/// Index of the highest set bit of `b` among bit indices below `n`.
pub open spec fn msb_rec(b: u64, n: int) -> u64
    decreases n,
{
    if n <= 0 {
        0
    } else if nth_bit(b, (n - 1) as u64) {
        (n - 1) as u64
    } else {
        msb_rec(b, n - 1)
    }
}

/// Index of the highest set bit (meaningful only for a nonzero word).
pub open spec fn msb64(b: u64) -> u64 {
    msb_rec(b, 64)
}

proof fn lemma_msb_rec(b: u64, n: int)
    requires
        0 <= n <= 64,
        exists|j: u64| j < n && nth_bit(b, j),
    ensures
        msb_rec(b, n) < n,
        nth_bit(b, msb_rec(b, n)),
        forall|k: u64| msb_rec(b, n) < k && k < n ==> !nth_bit(b, k),
    decreases n,
{
    if n > 0 && !nth_bit(b, (n - 1) as u64) {
        let j = choose|j: u64| j < n && nth_bit(b, j);
        assert(j < n - 1);
        lemma_msb_rec(b, n - 1);
    }
}

/// For a nonzero word, `msb64` is a set bit with no set bit above it.
pub proof fn lemma_msb(b: u64)
    requires
        b != 0,
    ensures
        msb64(b) < 64,
        nth_bit(b, msb64(b)),
        forall|k: u64| msb64(b) < k && k < 64 ==> !nth_bit(b, k),
{
    lemma_nonzero_has_bit(b);
    lemma_msb_rec(b, 64);
}

/// The word whose bit `j` (for `j < n`) is bit `f(j)` of `b`.
pub open spec fn gather(b: u64, f: spec_fn(u64) -> u64, n: int) -> u64
    decreases n,
{
    if n <= 0 {
        0u64
    } else {
        gather(b, f, n - 1) | (if nth_bit(b, f((n - 1) as u64)) {
            1u64 << ((n - 1) as u64)
        } else {
            0u64
        })
    }
}

/// Each bit of a gathered word is the mapped source bit.
pub proof fn lemma_gather_bit(b: u64, f: spec_fn(u64) -> u64, n: int, j: u64)
    requires
        0 <= n <= 64,
        j < 64,
    ensures
        nth_bit(gather(b, f, n), j) == (j < n && nth_bit(b, f(j))),
    decreases n,
{
    if n <= 0 {
        lemma_bit_zero(j);
    } else {
        lemma_gather_bit(b, f, n - 1, j);
        let k = (n - 1) as u64;
        let m = if nth_bit(b, f(k)) {
            1u64 << k
        } else {
            0u64
        };
        lemma_bit_or(gather(b, f, n - 1), m, j);
        lemma_bit_single(k, j);
        lemma_bit_zero(j);
    }
}

/// A word whose bits are a permutation of another word's bits has the
/// same population count.
pub proof fn lemma_popcnt_permute(x: u64, y: u64, f: spec_fn(u64) -> u64, g: spec_fn(u64) -> u64)
    requires
        forall|j: u64| j < 64 ==> #[trigger] f(j) < 64,
        forall|j: u64| j < 64 ==> #[trigger] g(j) < 64,
        forall|j: u64| j < 64 ==> #[trigger] g(f(j)) == j,
        forall|j: u64| j < 64 ==> #[trigger] f(g(j)) == j,
        forall|j: u64| j < 64 ==> nth_bit(y, j) == nth_bit(x, #[trigger] f(j)),
    ensures
        popcnt64(y) == popcnt64(x),
    decreases popcnt64(x),
{
    if x == 0 {
        assert forall|j: u64| j < 64 implies nth_bit(y, j) == nth_bit(0u64, j) by {
            lemma_bit_zero(j);
            lemma_bit_zero(f(j));
        }
        lemma_u64_ext(y, 0);
        lemma_popcnt_zero(64);
    } else {
        lemma_nonzero_has_bit(x);
        let m = choose|j: u64| j < 64 && nth_bit(x, j);
        let gm = g(m);
        let x2 = x & !(1u64 << m);
        let y2 = y & !(1u64 << gm);
        assert(nth_bit(y, gm) == nth_bit(x, f(gm)));
        assert(f(gm) == m);
        assert forall|j: u64| j < 64 implies nth_bit(y2, j) == nth_bit(x2, f(j)) by {
            lemma_bit_clear(y, gm, j);
            lemma_bit_clear(x, m, f(j));
            if j != gm && f(j) == m {
                assert(g(f(j)) == j);
                assert(false);
            }
        }
        lemma_popcnt_clear(x, m);
        lemma_popcnt_clear(y, gm);
        lemma_popcnt_permute(x2, y2, f, g);
    }
}

} // verus!
