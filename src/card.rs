use vstd::prelude::*;

use crate::error::GameError;

verus! {

/// Smallest value of a real card.
pub const MIN_CARD: u8 = 2;

/// Largest value of a real card.
pub const MAX_CARD: u8 = 99;

/// Number of cards a hand is refilled to at the end of a turn.
pub const HAND_SIZE: usize = 8;

/// Distance of the jump back that a pile accepts against its direction.
pub const JUMP: u8 = 10;

/// A card, identified by its value. Real cards run from `MIN_CARD` to
/// `MAX_CARD`; the piles start on values just outside that range.
#[derive(Debug, Clone, Copy, PartialEq, Eq, Structural)]
pub struct Card(pub u8);

/// Whether `v` is the value of a real card.
pub open spec fn is_card_value(v: int) -> bool {
    MIN_CARD <= v <= MAX_CARD
}

impl Card {
    /// The card of the given value. Range checks are the caller's business:
    /// see `is_valid`.
    pub fn of(value: u8) -> (r: Card)
        ensures
            r.0 == value,
    {
        Card(value)
    }

    pub fn value(&self) -> (r: u8)
        ensures
            r == self.0,
    {
        self.0
    }

    /// Whether this is one of the real cards.
    pub fn is_valid(&self) -> (r: bool)
        ensures
            r == is_card_value(self.0 as int),
    {
        MIN_CARD <= self.0 && self.0 <= MAX_CARD
    }
}

/// The direction in which a pile grows.
#[derive(Debug, Clone, Copy, PartialEq, Eq, Structural)]
pub enum PileDirection {
    Ascending,
    Descending,
}

/// The placement rule: an ascending pile takes a higher card or one exactly
/// `JUMP` lower than its top; a descending pile takes a lower card or one
/// exactly `JUMP` higher.
pub open spec fn accepts(direction: PileDirection, top: int, card: int) -> bool {
    match direction {
        PileDirection::Ascending => card > top || card == top - JUMP,
        PileDirection::Descending => card < top || card == top + JUMP,
    }
}

/// One of the four piles: its direction and the card on top of it.
#[derive(Debug, Clone, Copy, PartialEq, Eq, Structural)]
pub struct Pile {
    pub direction: PileDirection,
    pub top: Card,
}

impl Pile {
    /// Whether this pile takes `card` now.
    pub open spec fn accepts_card(self, card: Card) -> bool {
        accepts(self.direction, self.top.0 as int, card.0 as int)
    }

    /// The pile as it is after `card` was placed on it.
    pub open spec fn placed(self, card: Card) -> Pile {
        Pile { direction: self.direction, top: card }
    }

    /// The error that refuses `card` on this pile.
    pub open spec fn refusal(self, card: Card) -> GameError {
        GameError::RuleViolation { card: card.0, direction: self.direction, top: self.top.0 }
    }

    /// An ascending pile, on the value just below every real card.
    pub fn new_asc() -> (r: Pile)
        ensures
            r.direction == PileDirection::Ascending,
            r.top.0 == MIN_CARD - 1,
    {
        Pile { direction: PileDirection::Ascending, top: Card(MIN_CARD - 1) }
    }

    /// A descending pile, on the value just above every real card.
    pub fn new_desc() -> (r: Pile)
        ensures
            r.direction == PileDirection::Descending,
            r.top.0 == MAX_CARD + 1,
    {
        Pile { direction: PileDirection::Descending, top: Card(MAX_CARD + 1) }
    }

    pub fn get_direction(&self) -> (r: PileDirection)
        ensures
            r == self.direction,
    {
        self.direction
    }

    pub fn get_top(&self) -> (r: u8)
        ensures
            r == self.top.0,
    {
        self.top.0
    }

    pub fn can_play_card(&self, card: Card) -> (r: bool)
        ensures
            r == self.accepts_card(card),
    {
        let top = self.top.0 as u16;
        let value = card.0 as u16;
        match self.direction {
            PileDirection::Ascending => top < value || value + JUMP as u16 == top,
            PileDirection::Descending => top > value || top + JUMP as u16 == value,
        }
    }

    /// Places `card` on the pile if the pile takes it; otherwise refuses it
    /// and leaves the pile as it was.
    pub fn play_card(&mut self, card: Card) -> (r: Result<(), GameError>)
        ensures
            r is Ok <==> old(self).accepts_card(card),
            r is Ok ==> *final(self) == old(self).placed(card),
            r is Err ==> *final(self) == *old(self) && r == Err::<(), GameError>(
                old(self).refusal(card),
            ),
    {
        if !self.can_play_card(card) {
            Err(GameError::RuleViolation { card: card.0, direction: self.direction, top: self.top.0 })
        } else {
            self.top = card;
            Ok(())
        }
    }
}

} // verus!
