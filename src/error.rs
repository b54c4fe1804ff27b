use vstd::prelude::*;

use crate::card::PileDirection;

verus! {

/// Every way a command of the engine can be refused. A refused command
/// leaves the engine as it was.
#[derive(Debug, Clone, Copy, PartialEq, Eq, Structural)]
pub enum GameError {
    /// The value lies outside the range of real cards.
    InvalidCardValue { value: u8 },
    /// The player does not hold a card of that value.
    CardNotInHand { value: u8 },
    /// The pile does not accept the card, given its direction and its top.
    RuleViolation { card: u8, direction: PileDirection, top: u8 },
    /// There is no pile at that position.
    InvalidPileIndex { index: usize },
}

} // verus!
