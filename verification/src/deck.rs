//! Building, shuffling and ordering the deck.

use vstd::prelude::*;
use crate::cards::{Card, Suit, LOWEST_RANK};

verus! {

/// The suits in deck order.
pub open spec fn suit_at(k: int) -> Suit {
    if k == 0 {
        Suit::Clubs
    } else if k == 1 {
        Suit::Diamonds
    } else if k == 2 {
        Suit::Hearts
    } else {
        Suit::Spades
    }
}

/// The card at position `i` of a freshly built deck: suits in the order
/// clubs, diamonds, hearts, spades, each with ranks 2 to 14 in turn, and
/// the Comet in place of the 9 of Diamonds.
pub open spec fn fresh_card(i: int) -> Card {
    let suit = suit_at(i / 13);
    let rank = (2 + i % 13) as u8;
    if rank == 9 && suit == Suit::Diamonds {
        Card::Comet
    } else {
        Card::Normal { rank, suit }
    }
}

/// A standard 52-card deck with the 9 of Diamonds replaced by the Comet.
pub open spec fn fresh_deck() -> Seq<Card> {
    Seq::new(52, |i: int| fresh_card(i))
}

/// Builds a standard 52-card deck (ranks 2..=14, four suits) with the
/// normal 9 of Diamonds swapped out for the wildcard Comet card.
pub fn build_deck() -> (deck: Vec<Card>)
    ensures
        deck@ == fresh_deck(),
{
    let suits: [Suit; 4] = [Suit::Clubs, Suit::Diamonds, Suit::Hearts, Suit::Spades];
    let mut deck: Vec<Card> = Vec::with_capacity(52);
    let mut k: usize = 0;
    while k < 4
        invariant
            0 <= k <= 4,
            suits@ == seq![Suit::Clubs, Suit::Diamonds, Suit::Hearts, Suit::Spades],
            deck@ == fresh_deck().take(13 * k as int),
        decreases 4 - k,
    {
        let suit = suits[k];
        let mut rank: u8 = LOWEST_RANK;
        while rank <= 14
            invariant
                0 <= k < 4,
                2 <= rank <= 15,
                suit == suit_at(k as int),
                deck@ == fresh_deck().take(13 * k + rank - 2),
            decreases 15 - rank,
        {
            let ghost i: int = 13 * k + rank - 2;
            assert(i / 13 == k && i % 13 == rank - 2) by (nonlinear_arith)
                requires
                    i == 13 * k + rank - 2,
                    2 <= rank <= 14,
            ;
            if rank == 9 && suit == Suit::Diamonds {
                deck.push(Card::Comet);
            } else {
                deck.push(Card::Normal { rank, suit });
            }
            assert(deck@ =~= fresh_deck().take(i + 1));
            rank = rank + 1;
        }
        k = k + 1;
    }
    assert(deck@ =~= fresh_deck());
    deck
}

/// `s` with the elements at `i` and `j` exchanged.
pub open spec fn swapped<T>(s: Seq<T>, i: int, j: int) -> Seq<T> {
    s.update(i, s[j]).update(j, s[i])
}

/// The Fisher-Yates steps for positions `i`, `i - 1`, ..., `1` of `deck`:
/// the step for position `p` exchanges it with position
/// `min(draws[deck.len() - 1 - p], p)`.
pub open spec fn fisher_yates_from(deck: Seq<Card>, draws: Seq<usize>, i: int) -> Seq<Card>
    decreases i,
{
    if i < 1 {
        deck
    } else {
        let d = draws[deck.len() - 1 - i] as int;
        let j = if d < i { d } else { i };
        fisher_yates_from(swapped(deck, i, j), draws, i - 1)
    }
}

/// The deck after a full Fisher-Yates pass: the step for position `p`,
/// taken from the last position down to position 1, uses draw number
/// `deck.len() - 1 - p`.
pub open spec fn fisher_yates(deck: Seq<Card>, draws: Seq<usize>) -> Seq<Card> {
    fisher_yates_from(deck, draws, deck.len() - 1)
}

/// Fisher-Yates shuffle driven by caller-supplied draws: the step for
/// position `i` (from the last position down to 1) exchanges it with
/// position `min(draws[deck.len() - 1 - i], i)`.
pub fn shuffle(deck: &mut Vec<Card>, draws: &Vec<usize>)
    requires
        old(deck)@.len() <= draws@.len() + 1,
    ensures
        final(deck)@ == fisher_yates(old(deck)@, draws@),
{
    let n = deck.len();
    if n < 2 {
        return;
    }
    let mut i: usize = n - 1;
    while i >= 1
        invariant
            n == deck@.len(),
            n <= draws@.len() + 1,
            i < n,
            fisher_yates_from(deck@, draws@, i as int) == fisher_yates(old(deck)@, draws@),
        decreases i,
    {
        let d = draws[n - 1 - i];
        let j = if d < i { d } else { i };
        let ghost before = deck@;
        let a = deck[i];
        let b = deck[j];
        deck.set(i, b);
        deck.set(j, a);
        assert(deck@ =~= swapped(before, i as int, j as int));
        i = i - 1;
    }
}


/// Exchanging two positions keeps the same cards.
pub proof fn lemma_swapped_same_cards<T>(s: Seq<T>, i: int, j: int)
    requires
        0 <= i < s.len(),
        0 <= j < s.len(),
    ensures
        swapped(s, i, j).to_multiset() == s.to_multiset(),
{
    broadcast use vstd::seq_lib::group_to_multiset_ensures;
    broadcast use vstd::multiset::group_multiset_axioms;

    if i == j {
        assert(swapped(s, i, j) =~= s);
    } else {
        let s1 = s.update(i, s[j]);
        assert(s1[j] == s[j]);
        assert(s1.to_multiset() == s.to_multiset().insert(s[j]).remove(s[i]));
        assert(s1.update(j, s[i]).to_multiset() == s1.to_multiset().insert(s[i]).remove(s[j]));
        assert(s1.update(j, s[i]).to_multiset() =~= s.to_multiset());
    }
}

proof fn lemma_fisher_yates_from_same_cards(deck: Seq<Card>, draws: Seq<usize>, i: int)
    requires
        i < deck.len(),
        deck.len() <= draws.len() + 1,
    ensures
        fisher_yates_from(deck, draws, i).to_multiset() == deck.to_multiset(),
        fisher_yates_from(deck, draws, i).len() == deck.len(),
    decreases i,
{
    if i >= 1 {
        let d = draws[deck.len() - 1 - i] as int;
        let j = if d < i { d } else { i };
        lemma_swapped_same_cards(deck, i, j);
        lemma_fisher_yates_from_same_cards(swapped(deck, i, j), draws, i - 1);
    }
}

/// Shuffling only reorders the deck: it holds the same cards as before.
pub proof fn law_shuffle_keeps_cards(deck: Seq<Card>, draws: Seq<usize>)
    requires
        deck.len() <= draws.len() + 1,
    ensures
        fisher_yates(deck, draws).to_multiset() == deck.to_multiset(),
        fisher_yates(deck, draws).len() == deck.len(),
{
    if deck.len() > 0 {
        lemma_fisher_yates_from_same_cards(deck, draws, deck.len() - 1);
    }
}

proof fn lemma_fisher_yates_from_keeps_last(s: Seq<Card>, draws: Seq<usize>, i: int)
    requires
        s.len() >= 1,
        i <= s.len() - 2,
        s.len() <= draws.len() + 1,
    ensures
        fisher_yates_from(s, draws, i) == fisher_yates_from(s.drop_last(), draws.drop_first(), i).push(s.last()),
    decreases i,
{
    let t = s.drop_last();
    let e = draws.drop_first();
    if i < 1 {
        assert(s =~= t.push(s.last()));
    } else {
        let d = draws[s.len() - 1 - i] as int;
        assert(e[t.len() - 1 - i] == draws[s.len() - 1 - i]);
        let j = if d < i { d } else { i };
        let sw = swapped(s, i, j);
        assert(sw.drop_last() =~= swapped(t, i, j));
        assert(sw.last() == s.last());
        lemma_fisher_yates_from_keeps_last(sw, draws, i - 1);
    }
}

/// How a shuffle decides the last position and the rest: the first draw
/// picks the card that ends up last, `deck[min(draws[0], n - 1)]`, and the
/// remaining positions are that deck, with the picked card exchanged into
/// the last position and left out, shuffled by the remaining draws.
pub proof fn law_shuffle_first_draw_picks_the_last_card(deck: Seq<Card>, draws: Seq<usize>)
    requires
        deck.len() >= 2,
        deck.len() <= draws.len() + 1,
    ensures
        ({
            let n = deck.len() as int;
            let j0 = if (draws[0] as int) < n - 1 { draws[0] as int } else { n - 1 };
            &&& fisher_yates(deck, draws) == fisher_yates(swapped(deck, n - 1, j0).drop_last(), draws.drop_first()).push(deck[j0])
            &&& fisher_yates(deck, draws)[n - 1] == deck[j0]
        }),
{
    let n = deck.len() as int;
    let j0 = if (draws[0] as int) < n - 1 { draws[0] as int } else { n - 1 };
    let sw = swapped(deck, n - 1, j0);
    assert(fisher_yates(deck, draws) == fisher_yates_from(sw, draws, n - 2));
    lemma_fisher_yates_from_keeps_last(sw, draws, n - 2);
    law_shuffle_keeps_cards(sw.drop_last(), draws.drop_first());
}

/// A deck of at most one card is left as it is.
pub proof fn law_shuffle_leaves_a_single_card(deck: Seq<Card>, draws: Seq<usize>)
    requires
        deck.len() <= 1,
    ensures
        fisher_yates(deck, draws) == deck,
{
}

/// A fresh deck has 52 cards, no card twice, and exactly one Comet.
pub proof fn law_fresh_deck()
    ensures
        fresh_deck().len() == 52,
        fresh_deck().no_duplicates(),
        fresh_deck().to_multiset().count(Card::Comet) == 1,
        fresh_deck()[20] == Card::Comet,
{
    let d = fresh_deck();
    assert forall|i: int, j: int| 0 <= i < 52 && 0 <= j < 52 && i != j implies d[i] != d[j] by {
        assert(i == 13 * (i / 13) + i % 13 && j == 13 * (j / 13) + j % 13) by (nonlinear_arith)
            requires 0 <= i, 0 <= j;
        assert(0 <= i / 13 < 4 && 0 <= j / 13 < 4) by (nonlinear_arith)
            requires 0 <= i < 52, 0 <= j < 52;
        assert(0 <= i % 13 < 13 && 0 <= j % 13 < 13) by (nonlinear_arith)
            requires 0 <= i, 0 <= j;
    }
    assert(d[20] == Card::Comet) by {
        assert(20int / 13 == 1 && 20int % 13 == 7);
    }
    d.lemma_multiset_has_no_duplicates();
    broadcast use vstd::seq_lib::group_to_multiset_ensures;
    assert(d.contains(Card::Comet));
}


/// Where a suit comes among suits of equal rank when a hand is sorted.
pub open spec fn suit_order(suit: Suit) -> u8 {
    match suit {
        Suit::Clubs => 0,
        Suit::Diamonds => 1,
        Suit::Hearts => 2,
        Suit::Spades => 3,
    }
}

/// Sort key: real cards first by rank, then by suit; the Comet sorts
/// alongside the 9s, after them, since that's the card it replaces.
pub open spec fn sort_key(card: Card) -> (u8, u8) {
    match card {
        Card::Normal { rank, suit } => (rank, suit_order(suit)),
        Card::Comet => (9, 4),
    }
}

/// `a` comes no later than `b` in sorted order.
pub open spec fn key_le(a: Card, b: Card) -> bool {
    let ka = sort_key(a);
    let kb = sort_key(b);
    ka.0 < kb.0 || (ka.0 == kb.0 && ka.1 <= kb.1)
}

/// The cards of `s` come in ascending order of their sort keys.
pub open spec fn sorted_by_key(s: Seq<Card>) -> bool {
    forall|i: int, j: int| 0 <= i < j < s.len() ==> key_le(#[trigger] s[i], #[trigger] s[j])
}

/// No two different cards share a sort key.
pub proof fn lemma_sort_key_identifies_card(a: Card, b: Card)
    requires
        sort_key(a) == sort_key(b),
    ensures
        a == b,
{
}

/// A sorted hand is determined by the cards in it: two sorted orderings
/// of the same cards are the same sequence, so sorting a hand has exactly
/// one possible result.
pub proof fn law_sorted_order_is_unique(s1: Seq<Card>, s2: Seq<Card>)
    requires
        sorted_by_key(s1),
        sorted_by_key(s2),
        s1.to_multiset() == s2.to_multiset(),
    ensures
        s1 == s2,
    decreases s1.len(),
{
    broadcast use vstd::seq_lib::group_to_multiset_ensures;

    if s1.len() == 0 {
        assert(s2.to_multiset().len() == 0);
        assert(s1 =~= s2);
    } else {
        assert(s1.to_multiset().len() == s2.to_multiset().len());
        let a = s1[0];
        let b = s2[0];
        assert(s1.contains(a));
        assert(s2.to_multiset().count(a) > 0);
        assert(s2.contains(a));
        let j = choose|j: int| 0 <= j < s2.len() && s2[j] == a;
        assert(s1.contains(b)) by {
            assert(s2.contains(b));
            assert(s1.to_multiset().count(b) > 0);
        }
        let i = choose|i: int| 0 <= i < s1.len() && s1[i] == b;
        if j > 0 {
            assert(key_le(s2[0], s2[j]));
        }
        if i > 0 {
            assert(key_le(s1[0], s1[i]));
        }
        lemma_sort_key_identifies_card(a, b);
        let t1 = s1.remove(0);
        let t2 = s2.remove(0);
        assert(t1.to_multiset() == t2.to_multiset());
        assert(sorted_by_key(t1)) by {
            assert forall|x: int, y: int| 0 <= x < y < t1.len() implies key_le(#[trigger] t1[x], #[trigger] t1[y]) by {
                assert(t1[x] == s1[x + 1] && t1[y] == s1[y + 1]);
            }
        }
        assert(sorted_by_key(t2)) by {
            assert forall|x: int, y: int| 0 <= x < y < t2.len() implies key_le(#[trigger] t2[x], #[trigger] t2[y]) by {
                assert(t2[x] == s2[x + 1] && t2[y] == s2[y + 1]);
            }
        }
        law_sorted_order_is_unique(t1, t2);
        assert(s1 =~= s2) by {
            assert forall|k: int| 0 <= k < s1.len() implies s1[k] == s2[k] by {
                if k > 0 {
                    assert(s1[k] == t1[k - 1]);
                    assert(s2[k] == t2[k - 1]);
                }
            }
        }
    }
}

fn suit_index(suit: Suit) -> (k: u8)
    ensures
        k == suit_order(suit),
{
    match suit {
        Suit::Clubs => 0,
        Suit::Diamonds => 1,
        Suit::Hearts => 2,
        Suit::Spades => 3,
    }
}

impl Card {
    fn sort_key(self) -> (k: (u8, u8))
        ensures
            k == sort_key(self),
    {
        match self {
            Card::Normal { rank, suit } => (rank, suit_index(suit)),
            Card::Comet => (9, 4),
        }
    }
}

fn comes_before(a: Card, b: Card) -> (r: bool)
    ensures
        r == (key_le(a, b) && sort_key(a) != sort_key(b)),
{
    let ka = a.sort_key();
    let kb = b.sort_key();
    ka.0 < kb.0 || (ka.0 == kb.0 && ka.1 < kb.1)
}

/// Sorts a hand by the cards' sort keys.
pub fn sort_hand(hand: &mut Vec<Card>)
    ensures
        final(hand)@.to_multiset() == old(hand)@.to_multiset(),
        final(hand)@.len() == old(hand)@.len(),
        sorted_by_key(final(hand)@),
{
    let n = hand.len();
    let mut i: usize = 0;
    while i < n
        invariant
            n == hand@.len(),
            i <= n,
            hand@.to_multiset() == old(hand)@.to_multiset(),
            forall|a: int, b: int| 0 <= a < b < i ==> key_le(#[trigger] hand@[a], #[trigger] hand@[b]),
            forall|a: int, b: int| 0 <= a < i <= b < n ==> key_le(#[trigger] hand@[a], #[trigger] hand@[b]),
        decreases n - i,
    {
        let mut m: usize = i;
        let mut k: usize = i + 1;
        while k < n
            invariant
                n == hand@.len(),
                i <= m < n,
                i < k <= n,
                m < k,
                forall|b: int| i <= b < k ==> key_le(hand@[m as int], #[trigger] hand@[b]),
            decreases n - k,
        {
            if comes_before(hand[k], hand[m]) {
                m = k;
            }
            k = k + 1;
        }
        let ghost before = hand@;
        let a = hand[i];
        let b = hand[m];
        hand.set(i, b);
        hand.set(m, a);
        proof {
            assert(hand@ =~= swapped(before, i as int, m as int));
            lemma_swapped_same_cards(before, i as int, m as int);
        }
        i = i + 1;
    }
}

} // verus!
