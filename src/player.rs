use vstd::prelude::*;

use crate::board::distinct_real_cards;
use crate::card::{is_card_value, Card};

verus! {

/// `cards` without any card of the value of `card`.
pub open spec fn without_value(cards: Seq<Card>, card: Card) -> Seq<Card> {
    cards.filter(differs_from(card))
}

/// Whether a card is of another value than `card`.
pub open spec fn differs_from(card: Card) -> spec_fn(Card) -> bool {
    |c: Card| c.0 != card.0
}

/// Removing the value of a card that is held makes the hand shorter.
pub proof fn lemma_without_held_value_shrinks(cards: Seq<Card>, card: Card)
    requires
        exists|i: int| 0 <= i < cards.len() && cards[i].0 == card.0,
    ensures
        without_value(cards, card).len() < cards.len(),
    decreases cards.len(),
{
    let p = differs_from(card);
    let rest = cards.drop_last();
    assert(cards =~= rest.push(cards.last()));
    rest.lemma_filter_len_push(p, cards.last());
    rest.lemma_filter_len(p);
    if cards.last().0 != card.0 {
        let i = choose|i: int| 0 <= i < cards.len() && cards[i].0 == card.0;
        assert(rest[i] == cards[i]);
        lemma_without_held_value_shrinks(rest, card);
    }
}

/// Taking cards out of the second part keeps a sequence of distinct real
/// cards distinct.
pub proof fn lemma_without_value_keeps_distinct(a: Seq<Card>, b: Seq<Card>, card: Card)
    requires
        distinct_real_cards(a + b),
    ensures
        distinct_real_cards(a + without_value(b, card)),
    decreases b.len(),
{
    let p = differs_from(card);
    if b.len() == 0 {
        assert(without_value(b, card) =~= b) by {
            reveal(Seq::filter);
        }
    } else {
        let b0 = b.drop_last();
        let x = b.last();
        assert(b =~= b0.push(x));
        b0.lemma_filter_push(x, p);
        assert((a + b0) =~= (a + b).subrange(0, (a + b).len() - 1));
        lemma_without_value_keeps_distinct(a, b0, card);
        let f0 = without_value(b0, card);
        if p(x) {
            assert(a + without_value(b, card) =~= (a + f0).push(x));
            assert forall|i: int| 0 <= i < (a + f0).len() implies (a + f0)[i] != x by {
                let ab = a + b;
                assert(ab[ab.len() - 1] == x);
                if i < a.len() {
                    assert(ab[i] == (a + f0)[i]);
                } else {
                    let y = f0[i - a.len()];
                    b0.lemma_filter_contains_rev(p, y);
                    assert(f0.contains(y));
                    let k = choose|k: int| 0 <= k < b0.len() && b0[k] == y;
                    assert(ab[a.len() + k] == y);
                }
            }
            let s = (a + f0).push(x);
            assert forall|i: int| 0 <= i < s.len() implies is_card_value(#[trigger] s[i].0 as int) by {
                if i < s.len() - 1 {
                    assert(s[i] == (a + f0)[i]);
                } else {
                    assert((a + b)[(a + b).len() - 1] == x);
                }
            }
            assert forall|i: int, j: int| 0 <= i < s.len() && 0 <= j < s.len() && i != j implies s[i]
                != s[j] by {
                if i < s.len() - 1 && j < s.len() - 1 {
                    assert(s[i] == (a + f0)[i] && s[j] == (a + f0)[j]);
                }
            }
        } else {
            assert(a + without_value(b, card) =~= a + f0);
        }
    }
}

/// The player: a name and the cards in hand, in the order they were dealt.
#[derive(Debug)]
pub struct Player {
    name: String,
    cards: Vec<Card>,
}

impl Player {
    /// The cards in hand, in the order they were dealt.
    pub closed spec fn hand(&self) -> Seq<Card> {
        self.cards@
    }

    pub closed spec fn name_view(&self) -> Seq<char> {
        self.name@
    }

    /// A player with an empty hand.
    pub fn new(name: String) -> (r: Player)
        ensures
            r.name_view() == name@,
            r.hand() == Seq::<Card>::empty(),
    {
        Player { name, cards: Vec::new() }
    }

    /// Appends `cards` to the hand, after the cards already there.
    pub fn add_cards(&mut self, cards: Vec<Card>)
        ensures
            final(self).hand() == old(self).hand() + cards@,
            final(self).name_view() == old(self).name_view(),
    {
        let mut cards = cards;
        self.cards.append(&mut cards);
    }

    /// A copy of the hand.
    pub fn get_cards(&self) -> (r: Vec<Card>)
        ensures
            r@ == self.hand(),
    {
        let mut r: Vec<Card> = Vec::new();
        let mut i: usize = 0;
        while i < self.cards.len()
            invariant
                i <= self.cards@.len(),
                r@ == self.cards@.subrange(0, i as int),
            decreases self.cards@.len() - i,
        {
            r.push(self.cards[i]);
            i = i + 1;
            assert(r@ =~= self.cards@.subrange(0, i as int));
        }
        assert(self.cards@.subrange(0, i as int) =~= self.cards@);
        r
    }

    /// Number of cards in hand.
    pub fn hand_len(&self) -> (r: usize)
        ensures
            r == self.hand().len(),
    {
        self.cards.len()
    }

    /// Whether the hand holds a card of the value of `card`.
    pub fn holds(&self, card: Card) -> (r: bool)
        ensures
            r == exists|i: int| 0 <= i < self.hand().len() && self.hand()[i].0 == card.0,
    {
        let mut i: usize = 0;
        while i < self.cards.len()
            invariant
                i <= self.cards@.len(),
                forall|j: int| 0 <= j < i ==> self.cards@[j].0 != card.0,
            decreases self.cards@.len() - i,
        {
            if self.cards[i].0 == card.0 {
                assert(self.hand()[i as int].0 == card.0);
                return true;
            }
            i = i + 1;
        }
        false
    }

    /// Takes every card of the value of `card` out of the hand, keeping the
    /// order of the others.
    pub fn play_card(&mut self, card: Card)
        ensures
            final(self).hand() == without_value(old(self).hand(), card),
            final(self).name_view() == old(self).name_view(),
    {
        let mut kept: Vec<Card> = Vec::new();
        let mut i: usize = 0;
        while i < self.cards.len()
            invariant
                i <= self.cards@.len(),
                self.cards@ == old(self).cards@,
                kept@ == without_value(self.cards@.subrange(0, i as int), card),
            decreases self.cards@.len() - i,
        {
            let c = self.cards[i];
            proof {
                assert(self.cards@.subrange(0, i + 1) =~= self.cards@.subrange(0, i as int).push(c));
                self.cards@.subrange(0, i as int).lemma_filter_push(c, differs_from(card));
            }
            if c.0 != card.0 {
                kept.push(c);
            }
            i = i + 1;
        }
        assert(self.cards@.subrange(0, i as int) =~= self.cards@);
        self.cards = kept;
    }

    pub fn get_name(&self) -> (r: String)
        ensures
            r@ == self.name_view(),
    {
        self.name.clone()
    }
}

} // verus!
