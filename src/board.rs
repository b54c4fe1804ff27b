use vstd::prelude::*;

use crate::card::{is_card_value, Card, Pile, PileDirection, MAX_CARD, MIN_CARD};
use crate::error::GameError;

verus! {

broadcast use vstd::seq_lib::group_to_multiset_ensures;

/// Number of piles on the board.
pub const NUM_PILES: usize = 4;

/// Number of distinct cards in a game.
pub const DECK_SIZE: usize = 98;

/// The piles of a new board: two ascending, then two descending, each on a
/// value outside the range of real cards.
pub open spec fn initial_piles() -> Seq<Pile> {
    let asc = Pile { direction: PileDirection::Ascending, top: Card((MIN_CARD - 1) as u8) };
    let desc = Pile { direction: PileDirection::Descending, top: Card((MAX_CARD + 1) as u8) };
    seq![asc, asc, desc, desc]
}

/// Every real card once, in increasing order.
pub open spec fn full_deck() -> Seq<Card> {
    Seq::new(DECK_SIZE as nat, |i: int| Card((i + MIN_CARD) as u8))
}

/// Whether `cards` holds real cards only, no value twice.
pub open spec fn distinct_real_cards(cards: Seq<Card>) -> bool {
    &&& forall|i: int| 0 <= i < cards.len() ==> is_card_value(#[trigger] cards[i].0 as int)
    &&& cards.no_duplicates()
}

/// Whether `cards` is an order of the whole deck: every real card exactly once.
pub open spec fn is_full_deck(cards: Seq<Card>) -> bool {
    cards.len() == DECK_SIZE && distinct_real_cards(cards)
}

/// Whether some card of `cards` can be placed on some pile of `piles`.
pub open spec fn any_move(piles: Seq<Pile>, cards: Seq<Card>) -> bool {
    exists|i: int, j: int|
        0 <= i < piles.len() && 0 <= j < cards.len() && #[trigger] piles[i].accepts_card(
            #[trigger] cards[j],
        )
}

/// Whether the values of `cards` never decrease.
pub open spec fn sorted_by_value(cards: Seq<Card>) -> bool {
    forall|i: int, j: int| 0 <= i <= j < cards.len() ==> cards[i].0 <= cards[j].0
}

/// Relies on `rand::rng`: a handle on the thread-local random generator.
#[verifier::external_body]
fn thread_rng() -> rand::rngs::ThreadRng {
    rand::rng()
}

/// Relies on rand's `SliceRandom::shuffle`, which only swaps elements: the
/// same cards come back, in an order that depends on the generator.
#[verifier::external_body]
fn shuffle_cards(cards: &mut Vec<Card>, rng: &mut rand::rngs::ThreadRng)
    ensures
        final(cards)@.to_multiset() == old(cards)@.to_multiset(),
{
    rand::seq::SliceRandom::shuffle(cards.as_mut_slice(), rng)
}

/// Relies on `slice::sort_unstable_by_key`, keyed by the card's value: the
/// same cards come back, in increasing order of value.
#[verifier::external_body]
fn sort_by_value(cards: &mut Vec<Card>)
    ensures
        final(cards)@.to_multiset() == old(cards)@.to_multiset(),
        sorted_by_value(final(cards)@),
{
    cards.sort_unstable_by_key(|c| c.0)
}

#[verifier::external_type_specification]
#[verifier::external_body]
pub struct ExThreadRng(rand::rngs::ThreadRng);

/// A sequence that holds the same cards as one of distinct real cards holds
/// distinct real cards too.
pub proof fn lemma_same_cards_distinct(a: Seq<Card>, b: Seq<Card>)
    requires
        distinct_real_cards(a),
        a.to_multiset() == b.to_multiset(),
    ensures
        distinct_real_cards(b),
{
    a.lemma_multiset_has_no_duplicates();
    b.lemma_multiset_has_no_duplicates_conv();
    assert forall|i: int| 0 <= i < b.len() implies is_card_value(#[trigger] b[i].0 as int) by {
        assert(b.to_multiset().contains(b[i]));
        assert(a.contains(b[i]));
    }
}

/// The four piles and the cards not dealt yet.
#[derive(Debug)]
pub struct Board {
    piles: [Pile; 4],
    deck: Vec<Card>,
}

impl Board {
    /// The piles, in their fixed order.
    pub closed spec fn piles_view(&self) -> Seq<Pile> {
        self.piles@
    }

    /// The cards not dealt yet; the next ones dealt stand at the back.
    pub closed spec fn deck_view(&self) -> Seq<Card> {
        self.deck@
    }

    /// The deck holds real cards only, no value twice.
    pub open spec fn wf(&self) -> bool {
        &&& self.piles_view().len() == NUM_PILES
        &&& distinct_real_cards(self.deck_view())
    }

    fn initial_pile_array() -> (r: [Pile; 4])
        ensures
            r@ == initial_piles(),
    {
        let r = [Pile::new_asc(), Pile::new_asc(), Pile::new_desc(), Pile::new_desc()];
        assert(r@ =~= initial_piles());
        r
    }

    /// Every real card once, in increasing order.
    fn ordered_deck() -> (r: Vec<Card>)
        ensures
            r@ == full_deck(),
    {
        let mut deck: Vec<Card> = Vec::new();
        let mut v: u8 = MIN_CARD;
        while v <= MAX_CARD
            invariant
                MIN_CARD <= v <= MAX_CARD + 1,
                deck@ =~= Seq::new((v - MIN_CARD) as nat, |i: int| Card((i + MIN_CARD) as u8)),
            decreases MAX_CARD + 1 - v,
        {
            deck.push(Card(v));
            v = v + 1;
        }
        deck
    }

    /// A board with the whole deck in random order and the piles on their
    /// starting values.
    pub fn new() -> (r: Board)
        ensures
            r.wf(),
            r.piles_view() == initial_piles(),
            r.deck_view().len() == DECK_SIZE,
            r.deck_view().to_multiset() == full_deck().to_multiset(),
    {
        let mut deck = Self::ordered_deck();
        let mut rng = thread_rng();
        shuffle_cards(&mut deck, &mut rng);
        proof {
            assert forall|i: int, j: int|
                0 <= i < full_deck().len() && 0 <= j < full_deck().len() && i != j implies
                full_deck()[i] != full_deck()[j] by {}
            lemma_same_cards_distinct(full_deck(), deck@);
            vstd::seq_lib::to_multiset_len(deck@);
            vstd::seq_lib::to_multiset_len(full_deck());
        }
        Board { piles: Self::initial_pile_array(), deck }
    }

    /// A board whose deck is `cards`, dealt from the back, with the piles on
    /// their starting values; `None` unless `cards` is an order of the whole
    /// deck.
    pub fn from_deck(cards: Vec<Card>) -> (r: Option<Board>)
        ensures
            r is Some <==> is_full_deck(cards@),
            r is Some ==> r->0.wf() && r->0.piles_view() == initial_piles()
                && r->0.deck_view() == cards@,
    {
        if cards.len() != DECK_SIZE {
            return None;
        }
        let mut seen: Vec<bool> = Vec::new();
        while seen.len() <= MAX_CARD as usize
            invariant
                seen@.len() <= MAX_CARD + 1,
                forall|v: int| 0 <= v < seen@.len() ==> !seen@[v],
            decreases MAX_CARD + 1 - seen@.len(),
        {
            seen.push(false);
        }
        let mut i: usize = 0;
        while i < cards.len()
            invariant
                i <= cards@.len(),
                seen@.len() == MAX_CARD + 1,
                distinct_real_cards(cards@.subrange(0, i as int)),
                forall|v: int|
                    0 <= v <= MAX_CARD ==> (#[trigger] seen@[v] <==> exists|j: int|
                        0 <= j < i && cards@[j].0 == v),
            decreases cards@.len() - i,
        {
            let c = cards[i];
            if !c.is_valid() {
                assert(!distinct_real_cards(cards@)) by {
                    assert(!is_card_value(cards@[i as int].0 as int));
                }
                return None;
            }
            if seen[c.0 as usize] {
                assert(!distinct_real_cards(cards@)) by {
                    let j = choose|j: int| 0 <= j < i && cards@[j].0 == c.0;
                    assert(cards@[j] == cards@[i as int]);
                }
                return None;
            }
            seen.set(c.0 as usize, true);
            i = i + 1;
            assert(distinct_real_cards(cards@.subrange(0, i as int))) by {
                let s = cards@.subrange(0, i as int);
                assert forall|a: int, b: int| 0 <= a < s.len() && 0 <= b < s.len() && a != b implies s[a]
                    != s[b] by {
                    if a == i - 1 && s[a] == s[b] {
                        assert(cards@[b].0 == c.0);
                    } else if b == i - 1 && s[a] == s[b] {
                        assert(cards@[a].0 == c.0);
                    }
                }
            }
        }
        assert(cards@.subrange(0, i as int) =~= cards@);
        Some(Board { piles: Self::initial_pile_array(), deck: cards })
    }

    /// Takes `number_of_cards` cards off the back of the deck, or the whole
    /// deck where fewer are left, and hands them out in deck order.
    pub fn deal_hand(&mut self, number_of_cards: usize) -> (r: Vec<Card>)
        requires
            old(self).wf(),
        ensures
            final(self).wf(),
            r@.len() == if number_of_cards < old(self).deck_view().len() {
                number_of_cards as int
            } else {
                old(self).deck_view().len() as int
            },
            final(self).deck_view().len() == old(self).deck_view().len() - r@.len(),
            final(self).deck_view() + r@ == old(self).deck_view(),
            final(self).piles_view() == old(self).piles_view(),
    {
        let remaining_cards = self.deck.len();
        let cards_to_deal = if number_of_cards < remaining_cards {
            number_of_cards
        } else {
            remaining_cards
        };
        let r = self.deck.split_off(remaining_cards - cards_to_deal);
        assert(self.deck@ + r@ =~= old(self).deck@);
        r
    }

    /// Places `card` on the pile at `pile_position`. Refused where there is no
    /// such pile or where that pile does not take the card; a refused play
    /// changes nothing. The deck is never touched.
    pub fn play_card(&mut self, card: Card, pile_position: usize) -> (r: Result<(), GameError>)
        requires
            old(self).wf(),
        ensures
            final(self).wf(),
            final(self).deck_view() == old(self).deck_view(),
            pile_position >= NUM_PILES ==> r == Err::<(), GameError>(
                GameError::InvalidPileIndex { index: pile_position },
            ),
            pile_position < NUM_PILES ==> (r is Ok <==> old(self).piles_view()[pile_position as int].accepts_card(card)),
            r is Ok ==> final(self).piles_view() == old(self).piles_view().update(
                pile_position as int,
                old(self).piles_view()[pile_position as int].placed(card),
            ),
            r is Err ==> final(self).piles_view() == old(self).piles_view(),
            pile_position < NUM_PILES && r is Err ==> r == Err::<(), GameError>(
                old(self).piles_view()[pile_position as int].refusal(card),
            ),
    {
        if pile_position >= NUM_PILES {
            return Err(GameError::InvalidPileIndex { index: pile_position });
        }
        let mut pile = self.piles[pile_position];
        let r = pile.play_card(card);
        if r.is_ok() {
            self.piles[pile_position] = pile;
            assert(self.piles@ =~= old(self).piles@.update(pile_position as int, pile));
        }
        r
    }

    /// Whether some card of `cards` can be placed on some pile.
    pub fn any_move_available(&self, cards: Vec<Card>) -> (r: bool)
        ensures
            r == any_move(self.piles_view(), cards@),
    {
        let mut i: usize = 0;
        while i < NUM_PILES
            invariant
                i <= NUM_PILES,
                self.piles@.len() == NUM_PILES,
                forall|a: int, b: int|
                    0 <= a < i && 0 <= b < cards@.len() ==> !(#[trigger] self.piles@[a].accepts_card(
                        #[trigger] cards@[b],
                    )),
            decreases NUM_PILES - i,
        {
            let mut j: usize = 0;
            while j < cards.len()
                invariant
                    i < NUM_PILES,
                    j <= cards@.len(),
                    self.piles@.len() == NUM_PILES,
                    forall|a: int, b: int|
                        0 <= a < i && 0 <= b < cards@.len() ==> !(#[trigger] self.piles@[a].accepts_card(
                            #[trigger] cards@[b],
                        )),
                    forall|b: int| 0 <= b < j ==> !self.piles@[i as int].accepts_card(#[trigger] cards@[b]),
                decreases cards@.len() - j,
            {
                if self.piles[i].can_play_card(cards[j]) {
                    assert(self.piles@[i as int].accepts_card(cards@[j as int]));
                    return true;
                }
                j = j + 1;
            }
            i = i + 1;
        }
        false
    }

    /// The undealt cards, back of the deck last.
    pub fn missing_cards(&self) -> (r: Vec<Card>)
        ensures
            r@ == self.deck_view(),
    {
        let r = self.deck.clone();
        assert(r@ =~= self.deck@);
        r
    }

    /// Number of undealt cards.
    pub fn deck_len(&self) -> (r: usize)
        ensures
            r == self.deck_view().len(),
    {
        self.deck.len()
    }

    /// A copy of the four piles.
    pub fn piles(&self) -> (r: [Pile; 4])
        ensures
            r@ == self.piles_view(),
    {
        self.piles
    }

    /// The undealt cards in increasing order of value.
    pub fn deck(&self) -> (r: Vec<Card>)
        ensures
            r@.to_multiset() == self.deck_view().to_multiset(),
            sorted_by_value(r@),
    {
        let mut cards = self.missing_cards();
        sort_by_value(&mut cards);
        cards
    }
}

} // verus!
