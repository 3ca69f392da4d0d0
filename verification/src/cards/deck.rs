//! Sets of cards that share the deck among them.
//!
//! During a deal every card is in exactly one place: a hand, the table, or
//! a pile of tricks taken. Each place is a word, and this module says what
//! it means for a sequence of words to split the deck, and proves that
//! moving cards from one place to another keeps it split.

use vstd::prelude::*;
use crate::cards::bits;
use crate::cards::bits::has_bit;
use crate::cards::bits::popcount;
use crate::cards::lemma_deck;
use crate::cards::lemma_in_deck;
use crate::cards::DECK;

verus! {

/// 1 if the word holds the card with index `i`, else 0.
pub open spec fn holds(w: u64, i: int) -> nat {
    if has_bit(w, i) {
        1
    } else {
        0
    }
}

/// How many of the words hold the card with index `i`.
pub open spec fn holders(words: Seq<u64>, i: int) -> nat
    decreases words.len(),
{
    if words.len() == 0 {
        0
    } else {
        holders(words.drop_last(), i) + holds(words.last(), i)
    }
}

/// How many cards the words hold in all, each word counted by itself.
pub open spec fn total(words: Seq<u64>) -> nat
    decreases words.len(),
{
    if words.len() == 0 {
        0
    } else {
        total(words.drop_last()) + popcount(words.last())
    }
}

/// The words split the deck: each holds cards only, and each of the 48
/// cards is in exactly one of them.
pub open spec fn is_partition(words: Seq<u64>) -> bool {
    &&& forall|j: int| 0 <= j < words.len() ==> #[trigger] words[j] <= DECK
    &&& forall|i: int| 0 <= i < 48 ==> #[trigger] holders(words, i) == 1
}

/// One more word adds what it holds.
pub proof fn lemma_push(words: Seq<u64>, w: u64)
    ensures
        forall|i: int| #[trigger] holders(words.push(w), i) == holders(words, i) + holds(w, i),
        total(words.push(w)) == total(words) + popcount(w),
{
    assert(words.push(w).drop_last() =~= words);
}

/// Replacing one word changes the number of holders by what the old word
/// held and the new one holds.
pub proof fn lemma_holders_update(words: Seq<u64>, j: int, w: u64, i: int)
    requires
        0 <= j < words.len(),
    ensures
        holders(words.update(j, w), i) + holds(words[j], i) == holders(words, i) + holds(w, i),
    decreases words.len(),
{
    let next = words.update(j, w);
    if j == words.len() - 1 {
        assert(next.drop_last() =~= words.drop_last());
    } else {
        assert(next.drop_last() =~= words.drop_last().update(j, w));
        lemma_holders_update(words.drop_last(), j, w, i);
    }
}

/// A card that two of the words hold has two holders at least; a card that
/// one of them holds has one at least.
pub proof fn lemma_holders_count(words: Seq<u64>, a: int, b: int, i: int)
    requires
        0 <= a < words.len(),
        0 <= b < words.len(),
        has_bit(words[a], i),
    ensures
        holders(words, i) >= 1,
        a != b && has_bit(words[b], i) ==> holders(words, i) >= 2,
    decreases words.len(),
{
    let n = words.len() - 1;
    if a < n && b < n {
        lemma_holders_count(words.drop_last(), a, b, i);
    } else if a < n {
        lemma_holders_count(words.drop_last(), a, a, i);
    } else if b < n && has_bit(words[b], i) {
        lemma_holders_count(words.drop_last(), b, b, i);
    }
}

/// Of words that split the deck no two have a card in common.
pub proof fn lemma_partition_disjoint(words: Seq<u64>, a: int, b: int)
    requires
        is_partition(words),
        0 <= a < words.len(),
        0 <= b < words.len(),
        a != b,
    ensures
        words[a] & words[b] == 0,
{
    assert forall|i: int| !(has_bit(words[a], i) && #[trigger] has_bit(words[b], i)) by {
        if has_bit(words[a], i) && has_bit(words[b], i) {
            lemma_in_deck(words[a]);
            lemma_holders_count(words, a, b, i);
        }
    }
    bits::lemma_disjoint(words[a], words[b]);
}

/// Taking the card `c` out of one word and putting it into another keeps
/// the deck split.
pub proof fn lemma_partition_move(words: Seq<u64>, from: int, to: int, c: u64)
    requires
        is_partition(words),
        0 <= from < words.len(),
        0 <= to < words.len(),
        from != to,
        c < 48,
        has_bit(words[from], c as int),
    ensures
        is_partition(
            words.update(from, words[from] & !(1u64 << c)).update(to, words[to] | (1u64 << c)),
        ),
{
    let bit = 1u64 << c;
    let less = words[from] & !bit;
    let more = words[to] | bit;
    let mid = words.update(from, less);
    let next = mid.update(to, more);
    bits::lemma_bit_single(c);
    bits::lemma_bit_and_not(words[from], bit);
    bits::lemma_bit_or(words[to], bit);
    lemma_in_deck(words[from]);
    lemma_in_deck(words[to]);
    lemma_in_deck(less);
    lemma_in_deck(more);
    assert forall|i: int| 0 <= i < 48 implies #[trigger] holders(next, i) == 1 by {
        lemma_holders_update(words, from, less, i);
        lemma_holders_update(mid, to, more, i);
        if i == c {
            lemma_holders_count(words, from, to, i);
        }
    }
}

/// Emptying one word into another keeps the deck split.
pub proof fn lemma_partition_merge(words: Seq<u64>, from: int, to: int)
    requires
        is_partition(words),
        0 <= from < words.len(),
        0 <= to < words.len(),
        from != to,
    ensures
        is_partition(words.update(to, words[to] | words[from]).update(from, 0)),
{
    let more = words[to] | words[from];
    let mid = words.update(to, more);
    let next = mid.update(from, 0);
    bits::lemma_bit_zero();
    bits::lemma_bit_or(words[to], words[from]);
    lemma_in_deck(words[from]);
    lemma_in_deck(words[to]);
    lemma_in_deck(more);
    assert forall|i: int| 0 <= i < 48 implies #[trigger] holders(next, i) == 1 by {
        lemma_holders_update(words, to, more, i);
        lemma_holders_update(mid, from, 0, i);
        if has_bit(words[from], i) {
            lemma_holders_count(words, from, to, i);
        }
    }
}

/// The union of the words.
pub open spec fn union(words: Seq<u64>) -> u64
    decreases words.len(),
{
    if words.len() == 0 {
        0
    } else {
        union(words.drop_last()) | words.last()
    }
}

/// A card is in the union of the words exactly when one of them holds it.
pub proof fn lemma_union_bits(words: Seq<u64>)
    ensures
        forall|i: int| #[trigger] has_bit(union(words), i) <==> holders(words, i) >= 1,
    decreases words.len(),
{
    if words.len() == 0 {
        bits::lemma_bit_zero();
    } else {
        lemma_union_bits(words.drop_last());
        bits::lemma_bit_or(union(words.drop_last()), words.last());
    }
}

/// Words of which no two share a card hold as many cards as their union.
pub proof fn lemma_union_total(words: Seq<u64>)
    requires
        forall|i: int| #[trigger] holders(words, i) <= 1,
    ensures
        popcount(union(words)) == total(words),
    decreases words.len(),
{
    if words.len() == 0 {
        bits::lemma_popcount_zero(0);
    } else {
        let front = words.drop_last();
        let u = union(front);
        let w = words.last();
        assert forall|i: int| #[trigger] holders(front, i) <= 1 by {
            assert(holders(words, i) <= 1);
        }
        lemma_union_total(front);
        lemma_union_bits(front);
        bits::lemma_bit_and(u, w);
        assert forall|i: int| !has_bit(u & w, i) by {
            assert(holders(words, i) <= 1);
        }
        bits::lemma_popcount_zero(u & w);
        bits::lemma_popcount_disjoint(u, w);
    }
}

/// A card that no word holds has no holder.
pub proof fn lemma_holders_none(words: Seq<u64>, i: int)
    requires
        forall|j: int| 0 <= j < words.len() ==> !has_bit(#[trigger] words[j], i),
    ensures
        holders(words, i) == 0,
    decreases words.len(),
{
    if words.len() > 0 {
        assert(!has_bit(words[words.len() - 1], i));
        lemma_holders_none(words.drop_last(), i);
    }
}

/// Words that split the deck have the deck as their union and hold 48
/// cards in all.
pub proof fn lemma_partition_total(words: Seq<u64>)
    requires
        is_partition(words),
    ensures
        union(words) == DECK,
        total(words) == 48,
        forall|i: int| #[trigger] holders(words, i) <= 1,
{
    assert forall|i: int| #[trigger] holders(words, i) <= 1 by {
        if !(0 <= i < 48) {
            assert forall|j: int| 0 <= j < words.len() implies !has_bit(#[trigger] words[j], i) by {
                lemma_in_deck(words[j]);
            }
            lemma_holders_none(words, i);
        }
    }
    lemma_union_total(words);
    lemma_union_bits(words);
    lemma_deck();
    assert forall|i: int| 0 <= i < 64 implies (has_bit(union(words), i) <==> has_bit(DECK, i)) by {
        assert(holders(words, i) <= 1);
        if 0 <= i < 48 {
            assert(holders(words, i) == 1);
        } else {
            assert forall|j: int| 0 <= j < words.len() implies !has_bit(#[trigger] words[j], i) by {
                lemma_in_deck(words[j]);
            }
            lemma_holders_none(words, i);
        }
    }
    bits::lemma_bits_equal(union(words), DECK);
}

/// Whether the words split the deck.
pub fn splits_deck(words: &[u64]) -> (r: bool)
    ensures
        r == is_partition(words@),
{
    let mut seen: u64 = 0;
    let mut ok = true;
    let mut j: usize = 0;
    proof {
        assert(words@.take(0) =~= Seq::<u64>::empty());
    }
    while j < words.len()
        invariant
            j <= words.len(),
            seen == union(words@.take(j as int)),
            ok <==> (forall|k: int| 0 <= k < j ==> #[trigger] words[k] <= DECK) && (forall|i: int|
                #[trigger] holders(words@.take(j as int), i) <= 1),
        decreases words.len() - j,
    {
        let w = words[j];
        proof {
            let front = words@.take(j as int);
            let next = words@.take(j + 1);
            assert(next.drop_last() =~= front);
            assert(next.last() == w);
            lemma_union_bits(front);
            bits::lemma_bit_and(seen, w);
            bits::lemma_popcount_zero(seen & w);
            if seen & w != 0 {
                let i = choose|i: int| has_bit(seen & w, i);
                assert(has_bit(seen & w, i));
                assert(holders(next, i) >= 2);
            } else {
                assert forall|i: int| holders(front, i) <= 1 implies #[trigger] holders(next, i)
                    <= 1 by {
                    assert(!has_bit(seen & w, i));
                }
            }
            if !(forall|i: int| #[trigger] holders(front, i) <= 1) {
                let i = choose|i: int| !(#[trigger] holders(front, i) <= 1);
                assert(holders(next, i) >= 2);
            }
        }
        if w > DECK || seen & w != 0 {
            ok = false;
        }
        seen = seen | w;
        j += 1;
    }
    proof {
        assert(words@.take(j as int) =~= words@);
        if ok {
            lemma_union_bits(words@);
            lemma_deck();
            if seen == DECK {
                assert forall|i: int| 0 <= i < 48 implies #[trigger] holders(words@, i) == 1 by {
                    assert(has_bit(seen, i));
                    assert(holders(words@, i) <= 1);
                }
            } else if is_partition(words@) {
                lemma_partition_total(words@);
            }
        }
        if is_partition(words@) {
            lemma_partition_total(words@);
        }
    }
    ok && seen == DECK
}

/// The lowest card of a set, or `None` if the set is empty.
pub fn first_card(cards: u64) -> (r: Option<u16>)
    ensures
        match r {
            Some(c) => has_bit(cards, c as int) && forall|j: int| 0 <= j < c ==> !has_bit(cards, j),
            None => cards == 0,
        },
{
    let mut i: u16 = 0;
    while i < 64
        invariant
            i <= 64,
            forall|j: int| 0 <= j < i ==> !has_bit(cards, j),
        decreases 64 - i,
    {
        if (cards >> (i as u64)) & 1 == 1 {
            return Some(i);
        }
        i += 1;
    }
    proof {
        bits::lemma_popcount_zero(cards);
    }
    None
}

} // verus!
