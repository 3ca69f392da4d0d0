//! Sets of small numbers as the bits of a 64-bit word.
//!
//! Everything the rest of the crate proves about words goes through
//! [`has_bit`]: the lemmas here say, bit by bit, what `|`, `&` and `!` do,
//! and what the number of set bits is.

use vstd::prelude::*;

verus! {

/// Whether bit `i` of `x` is set.
pub open spec fn has_bit(x: u64, i: int) -> bool {
    0 <= i < 64 && (x >> (i as u64)) & 1 == 1
}

/// The number of set bits of `x` among the positions below `n`.
pub open spec fn ones_below(x: u64, n: int) -> nat
    decreases n,
{
    if n <= 0 {
        0
    } else {
        ones_below(x, n - 1) + if has_bit(x, n - 1) {
            1nat
        } else {
            0nat
        }
    }
}

/// The number of set bits of `x`.
pub open spec fn popcount(x: u64) -> nat {
    ones_below(x, 64)
}

/// The positions of the set bits of `x`.
pub open spec fn bit_set(x: u64) -> Set<int> {
    Set::new(|i: int| has_bit(x, i))
}

/// `u64::count_ones` of std: the number of ones in the binary
/// representation of the word. Verus takes this on trust.
pub assume_specification[ u64::count_ones ](x: u64) -> (r: u32)
    ensures
        r == popcount(x),
;

/// No bit of zero is set.
pub proof fn lemma_bit_zero()
    ensures
        forall|i: int| !has_bit(0, i),
{
    assert forall|i: int| !has_bit(0, i) by {
        if 0 <= i < 64 {
            let k = i as u64;
            assert((0u64 >> k) & 1 == 0) by (bit_vector);
        }
    }
}

/// A bit of `a | b` is set when it is set in `a` or in `b`.
pub proof fn lemma_bit_or(a: u64, b: u64)
    ensures
        forall|i: int| #[trigger] has_bit(a | b, i) <==> has_bit(a, i) || has_bit(b, i),
{
    assert forall|i: int| #[trigger] has_bit(a | b, i) <==> has_bit(a, i) || has_bit(b, i) by {
        if 0 <= i < 64 {
            let k = i as u64;
            assert(((a | b) >> k) & 1 == 1 <==> (a >> k) & 1 == 1 || (b >> k) & 1 == 1)
                by (bit_vector);
        }
    }
}

/// A bit of `a & b` is set when it is set in `a` and in `b`.
pub proof fn lemma_bit_and(a: u64, b: u64)
    ensures
        forall|i: int| #[trigger] has_bit(a & b, i) <==> has_bit(a, i) && has_bit(b, i),
{
    assert forall|i: int| #[trigger] has_bit(a & b, i) <==> has_bit(a, i) && has_bit(b, i) by {
        if 0 <= i < 64 {
            let k = i as u64;
            assert(((a & b) >> k) & 1 == 1 <==> (a >> k) & 1 == 1 && (b >> k) & 1 == 1)
                by (bit_vector);
        }
    }
}

/// A bit of `a & !b` is set when it is set in `a` and not in `b`.
pub proof fn lemma_bit_and_not(a: u64, b: u64)
    ensures
        forall|i: int| #[trigger] has_bit(a & !b, i) <==> has_bit(a, i) && !has_bit(b, i),
{
    assert forall|i: int| #[trigger] has_bit(a & !b, i) <==> has_bit(a, i) && !has_bit(b, i) by {
        if 0 <= i < 64 {
            let k = i as u64;
            assert(((a & !b) >> k) & 1 == 1 <==> (a >> k) & 1 == 1 && !((b >> k) & 1 == 1))
                by (bit_vector);
        }
    }
}

/// The word `1 << c` has bit `c` set and no other.
pub proof fn lemma_bit_single(c: u64)
    requires
        c < 64,
    ensures
        forall|i: int| #[trigger] has_bit(1u64 << c, i) <==> i == c,
{
    assert forall|i: int| #[trigger] has_bit(1u64 << c, i) <==> i == c by {
        if 0 <= i < 64 {
            let k = i as u64;
            assert(((1u64 << c) >> k) & 1 == 1 <==> k == c) by (bit_vector)
                requires
                    c < 64,
                    k < 64,
            ;
        }
    }
}

/// Masking keeps disjoint words disjoint, and the mask of their union is
/// the union of their masks.
pub proof fn lemma_and_distributes(a: u64, b: u64, m: u64)
    requires
        a & b == 0,
    ensures
        (a | b) & m == (a & m) | (b & m),
        (a & m) & (b & m) == 0,
{
    assert((a | b) & m == (a & m) | (b & m) && (a & m) & (b & m) == 0) by (bit_vector)
        requires
            a & b == 0,
    ;
}

/// The union of a word with four others, taken one by one or at once.
pub proof fn lemma_or_four(t: u64, a: u64, b: u64, c: u64, d: u64)
    ensures
        (((t | a) | b) | c) | d == t | (a | b | c | d),
{
    assert((((t | a) | b) | c) | d == t | (a | b | c | d)) by (bit_vector);
}

/// The word with the bits below `n` set.
spec fn low_mask(n: int) -> u64 {
    if n >= 64 {
        u64::MAX
    } else if n <= 0 {
        0
    } else {
        ((1u64 << (n as u64)) - 1) as u64
    }
}

/// Two words with the same bits below `n` are equal below `n`.
proof fn lemma_low_bits_equal(a: u64, b: u64, n: int)
    requires
        0 <= n <= 64,
        forall|i: int| 0 <= i < n ==> (has_bit(a, i) <==> has_bit(b, i)),
    ensures
        a & low_mask(n) == b & low_mask(n),
    decreases n,
{
    if n == 0 {
        assert(a & 0 == b & 0) by (bit_vector);
    } else {
        lemma_low_bits_equal(a, b, n - 1);
        let k = (n - 1) as u64;
        let m0 = low_mask(n - 1);
        let m1 = low_mask(n);
        let one_k: u64 = 1u64 << k;
        assert(has_bit(a, n - 1) <==> has_bit(b, n - 1));
        assert(one_k >= 1 && (k == 0 ==> one_k == 1) && (k < 63 ==> (1u64 << ((k + 1) as u64)) == 2
            * one_k && one_k < 0x8000_0000_0000_0000u64)) by (bit_vector)
            requires
                k < 64,
                one_k == 1u64 << k,
        ;
        assert(a & m1 == b & m1) by (bit_vector)
            requires
                k < 64,
                one_k == 1u64 << k,
                one_k >= 1,
                m0 == (one_k - 1) as u64,
                m1 == if k == 63 {
                    0xFFFF_FFFF_FFFF_FFFFu64
                } else {
                    (2 * one_k - 1) as u64
                },
                a & m0 == b & m0,
                (a >> k) & 1 == 1 <==> (b >> k) & 1 == 1,
        ;
    }
}

/// Two words with the same bits are equal.
pub proof fn lemma_bits_equal(a: u64, b: u64)
    requires
        forall|i: int| 0 <= i < 64 ==> (has_bit(a, i) <==> has_bit(b, i)),
    ensures
        a == b,
{
    lemma_low_bits_equal(a, b, 64);
    assert(a & 0xFFFF_FFFF_FFFF_FFFFu64 == a) by (bit_vector);
    assert(b & 0xFFFF_FFFF_FFFF_FFFFu64 == b) by (bit_vector);
}

/// At most `n` bits are set below position `n`.
pub proof fn lemma_ones_below_bound(x: u64, n: int)
    requires
        0 <= n,
    ensures
        ones_below(x, n) <= n,
    decreases n,
{
    if n > 0 {
        lemma_ones_below_bound(x, n - 1);
    }
}

/// If every bit of `a` below `n` is also set in `b`, then `b` has at least as
/// many bits set below `n`; with the same bits, as many.
pub proof fn lemma_ones_below_subset(a: u64, b: u64, n: int)
    requires
        forall|i: int| 0 <= i < n && has_bit(a, i) ==> has_bit(b, i),
    ensures
        ones_below(a, n) <= ones_below(b, n),
        (forall|i: int| 0 <= i < n ==> (has_bit(a, i) <==> has_bit(b, i))) ==> ones_below(a, n)
            == ones_below(b, n),
    decreases n,
{
    if n > 0 {
        lemma_ones_below_subset(a, b, n - 1);
    }
}

/// Below `n`, the bits of two disjoint words add up.
pub proof fn lemma_ones_below_disjoint(a: u64, b: u64, n: int)
    requires
        a & b == 0,
    ensures
        ones_below(a | b, n) == ones_below(a, n) + ones_below(b, n),
    decreases n,
{
    if n > 0 {
        lemma_ones_below_disjoint(a, b, n - 1);
        lemma_bit_or(a, b);
        lemma_bit_and(a, b);
        lemma_bit_zero();
        assert(!has_bit(a & b, n - 1));
    }
}

/// The set bits of two disjoint words add up.
pub proof fn lemma_popcount_disjoint(a: u64, b: u64)
    requires
        a & b == 0,
    ensures
        popcount(a | b) == popcount(a) + popcount(b),
{
    lemma_ones_below_disjoint(a, b, 64);
}

/// A word whose set bits are exactly the positions `lo..hi` has `hi - lo`
/// of them below any `n` past `hi`.
pub proof fn lemma_ones_below_interval(x: u64, lo: int, hi: int, n: int)
    requires
        0 <= lo <= hi <= 64,
        forall|i: int| has_bit(x, i) <==> lo <= i < hi,
    ensures
        ones_below(x, n) == if n <= lo {
            0
        } else if n <= hi {
            n - lo
        } else {
            hi - lo
        },
    decreases n,
{
    if n > 0 {
        lemma_ones_below_interval(x, lo, hi, n - 1);
    }
}

/// A word has no bit set exactly when it is zero.
pub proof fn lemma_popcount_zero(x: u64)
    ensures
        popcount(x) == 0 <==> x == 0,
        x == 0 <==> (forall|i: int| !has_bit(x, i)),
{
    lemma_bit_zero();
    if x == 0 {
        lemma_ones_below_interval(x, 0, 0, 64);
    }
    if popcount(x) == 0 {
        assert forall|i: int| 0 <= i < 64 implies !has_bit(x, i) by {
            if has_bit(x, i) {
                lemma_ones_below_positive(x, i, 64);
            }
        }
    }
    if forall|i: int| 0 <= i < 64 ==> !has_bit(x, i) {
        lemma_bits_equal(x, 0);
    }
}

/// A set bit below `n` is counted.
pub proof fn lemma_ones_below_positive(x: u64, i: int, n: int)
    requires
        0 <= i < n,
        has_bit(x, i),
    ensures
        ones_below(x, n) >= 1,
    decreases n,
{
    if n - 1 > i {
        lemma_ones_below_positive(x, i, n - 1);
    }
}

/// One bit alone counts one.
pub proof fn lemma_popcount_single(c: u64)
    requires
        c < 64,
    ensures
        popcount(1u64 << c) == 1,
{
    lemma_bit_single(c);
    lemma_ones_below_interval(1u64 << c, c as int, c + 1, 64);
}

/// The positions below `n` of the set bits of `x`.
pub open spec fn bit_set_below(x: u64, n: int) -> Set<int> {
    Set::new(|i: int| i < n && has_bit(x, i))
}

/// The set bits below `n` form a finite set of `ones_below(x, n)` positions.
pub proof fn lemma_bit_set_below(x: u64, n: int)
    ensures
        bit_set_below(x, n).finite(),
        bit_set_below(x, n).len() == ones_below(x, n),
    decreases n,
{
    if n <= 0 {
        assert(bit_set_below(x, n) =~= Set::<int>::empty());
    } else {
        lemma_bit_set_below(x, n - 1);
        if has_bit(x, n - 1) {
            assert(bit_set_below(x, n) =~= bit_set_below(x, n - 1).insert(n - 1));
        } else {
            assert(bit_set_below(x, n) =~= bit_set_below(x, n - 1));
        }
    }
}

/// The set bits of a word form a finite set of `popcount(x)` positions.
pub proof fn lemma_bit_set_len(x: u64)
    ensures
        bit_set(x).finite(),
        bit_set(x).len() == popcount(x),
{
    lemma_bit_set_below(x, 64);
    assert(bit_set(x) =~= bit_set_below(x, 64));
}

/// Two words are disjoint exactly when no bit is set in both.
pub proof fn lemma_disjoint(a: u64, b: u64)
    ensures
        a & b == 0 <==> (forall|i: int| !(has_bit(a, i) && #[trigger] has_bit(b, i))),
{
    lemma_bit_and(a, b);
    lemma_popcount_zero(a & b);
    if a & b != 0 {
        let i = choose|i: int| has_bit(a & b, i);
        assert(has_bit(a, i) && has_bit(b, i));
    } else {
        assert forall|i: int| !(has_bit(a, i) && #[trigger] has_bit(b, i)) by {
            assert(!has_bit(a & b, i));
        }
    }
    if forall|i: int| !(has_bit(a, i) && #[trigger] has_bit(b, i)) {
        assert forall|i: int| !has_bit(a & b, i) by {
            assert(!(has_bit(a, i) && has_bit(b, i)));
        }
    }
}

/// Clearing a set bit leaves one bit fewer.
pub proof fn lemma_popcount_remove(x: u64, c: u64)
    requires
        c < 64,
        has_bit(x, c as int),
    ensures
        popcount(x & !(1u64 << c)) + 1 == popcount(x),
{
    let bit = 1u64 << c;
    let less = x & !bit;
    lemma_bit_single(c);
    lemma_bit_and_not(x, bit);
    lemma_bit_or(less, bit);
    lemma_bits_equal(less | bit, x);
    lemma_disjoint(less, bit);
    lemma_popcount_disjoint(less, bit);
    lemma_popcount_single(c);
}

/// Setting bit `k` of a 16-bit word sets that bit and leaves the others.
pub proof fn lemma_mark_bit(marks: u16, k: u16)
    requires
        k < 16,
    ensures
        forall|i: int| #[trigger]
            has_bit((marks | (1u16 << k)) as u64, i) <==> has_bit(marks as u64, i) || i == k,
{
    let wide = marks as u64;
    let next = (marks | (1u16 << k)) as u64;
    let at = k as u64;
    assert(next == wide | (1u64 << at)) by (bit_vector)
        requires
            k < 16,
            wide == marks as u64,
            next == (marks | (1u16 << k)) as u64,
            at == k as u64,
    ;
    lemma_bit_or(wide, 1u64 << at);
    lemma_bit_single(at);
}

} // verus!
