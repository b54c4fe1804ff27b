use vstd::prelude::*;

use crate::board::{
    any_move, distinct_real_cards, initial_piles, lemma_same_cards_distinct, Board, DECK_SIZE,
    NUM_PILES,
};
use crate::card::{is_card_value, Card, Pile, HAND_SIZE};
use crate::error::GameError;
use crate::player::{
    lemma_without_held_value_shrinks, lemma_without_value_keeps_distinct, without_value, Player,
};

verus! {

/// Where a game stands.
#[derive(Debug, Clone, Copy, PartialEq, Eq, Structural)]
pub enum GameResult {
    /// Hand and deck are both empty: the player has won.
    PlayerWin,
    /// The turn cannot be completed and no card in hand can be placed: the
    /// player has lost.
    GameOver,
    /// Play goes on.
    InProgress,
}

/// Fewest placements that close a turn: two while cards are left to deal,
/// one once the deck is empty.
pub open spec fn min_moves(deck: Seq<Card>) -> nat {
    if deck.len() == 0 {
        1
    } else {
        2
    }
}

/// Whether `hand` holds a card of value `value`.
pub open spec fn holds_value(hand: Seq<Card>, value: u8) -> bool {
    exists|i: int| 0 <= i < hand.len() && hand[i].0 == value
}

/// One game: the player, the board, and the placements of the current turn.
#[derive(Debug)]
pub struct Game {
    player: Player,
    board: Board,
    movements_count: u8,
}

impl Game {
    pub closed spec fn piles_view(&self) -> Seq<Pile> {
        self.board.piles_view()
    }

    pub closed spec fn deck_view(&self) -> Seq<Card> {
        self.board.deck_view()
    }

    pub closed spec fn hand(&self) -> Seq<Card> {
        self.player.hand()
    }

    pub closed spec fn name_view(&self) -> Seq<char> {
        self.player.name_view()
    }

    /// Placements made since the turn began.
    pub closed spec fn moves(&self) -> nat {
        self.movements_count as nat
    }

    /// No card is in two places: deck and hand together hold distinct real
    /// cards. The hand and the placements of this turn together never exceed
    /// a full hand.
    pub closed spec fn wf(&self) -> bool {
        &&& self.board.wf()
        &&& distinct_real_cards(self.board.deck_view() + self.player.hand())
        &&& self.player.hand().len() + self.movements_count <= HAND_SIZE
    }

    /// Whether enough placements were made to end the turn.
    pub open spec fn turn_done(&self) -> bool {
        self.moves() >= min_moves(self.deck_view())
    }

    /// Whether the player is stuck: the turn cannot be ended and no card in
    /// hand fits any pile.
    pub open spec fn stuck(&self) -> bool {
        !self.turn_done() && !any_move(self.piles_view(), self.hand())
    }

    /// Where the game stands.
    pub open spec fn status(&self) -> GameResult {
        if self.hand().len() == 0 && self.deck_view().len() == 0 {
            GameResult::PlayerWin
        } else if self.stuck() {
            GameResult::GameOver
        } else {
            GameResult::InProgress
        }
    }

    /// `post` is `pre` after one accepted placement of `value` on `pile`.
    pub open spec fn placed(pre: Game, post: Game, value: u8, pile: usize) -> bool {
        &&& post.piles_view() == pre.piles_view().update(
            pile as int,
            pre.piles_view()[pile as int].placed(Card(value)),
        )
        &&& post.hand() == without_value(pre.hand(), Card(value))
        &&& post.moves() == pre.moves() + 1
        &&& post.deck_view() == pre.deck_view()
        &&& post.name_view() == pre.name_view()
    }

    /// `post` is `pre` with nothing changed.
    pub open spec fn unchanged(pre: Game, post: Game) -> bool {
        &&& post.piles_view() == pre.piles_view()
        &&& post.hand() == pre.hand()
        &&& post.moves() == pre.moves()
        &&& post.deck_view() == pre.deck_view()
        &&& post.name_view() == pre.name_view()
    }

    /// The error that refuses placing `value` on `pile`, if any.
    pub open spec fn refusal(&self, value: u8, pile: usize) -> Option<GameError> {
        if !is_card_value(value as int) {
            Some(GameError::InvalidCardValue { value })
        } else if !holds_value(self.hand(), value) {
            Some(GameError::CardNotInHand { value })
        } else if pile >= NUM_PILES {
            Some(GameError::InvalidPileIndex { index: pile })
        } else if !self.piles_view()[pile as int].accepts_card(Card(value)) {
            Some(self.piles_view()[pile as int].refusal(Card(value)))
        } else {
            None
        }
    }

    /// A game on `board`: the player, named `player_name`, is dealt a full
    /// hand, or the whole deck where less is left.
    pub fn with_board(player_name: String, board: Board) -> (r: Game)
        requires
            board.wf(),
        ensures
            r.wf(),
            r.name_view() == player_name@,
            r.piles_view() == board.piles_view(),
            r.moves() == 0,
            r.deck_view() + r.hand() == board.deck_view(),
            r.hand().len() == if board.deck_view().len() < HAND_SIZE {
                board.deck_view().len() as int
            } else {
                HAND_SIZE as int
            },
    {
        let ghost old_deck = board.deck_view();
        let mut player = Player::new(player_name);
        let mut board = board;
        let cards = board.deal_hand(HAND_SIZE);
        player.add_cards(cards);
        assert(player.hand() =~= cards@);
        assert(board.deck_view() + player.hand() == old_deck);
        Game { player, board, movements_count: 0 }
    }

    /// A new game on a freshly shuffled board, with a full hand dealt.
    pub fn new(player_name: String) -> (r: Game)
        ensures
            r.wf(),
            r.name_view() == player_name@,
            r.piles_view() == initial_piles(),
            r.moves() == 0,
            r.hand().len() == HAND_SIZE,
            r.deck_view().len() == DECK_SIZE - HAND_SIZE,
    {
        Game::with_board(player_name, Board::new())
    }

    /// Places the card of value `card` from the hand on the pile at `pile`.
    /// The value must be a real card, held, and taken by an existing pile;
    /// otherwise the first of these that fails is reported and nothing
    /// changes. An accepted placement takes the card out of the hand and
    /// counts as one move of the turn.
    pub fn play_card(&mut self, card: u8, pile: usize) -> (r: Result<(), GameError>)
        requires
            old(self).wf(),
        ensures
            final(self).wf(),
            r is Ok <==> old(self).refusal(card, pile) is None,
            r is Ok ==> Game::placed(*old(self), *final(self), card, pile),
            r is Err ==> Game::unchanged(*old(self), *final(self)),
            r is Err ==> r == Err::<(), GameError>(old(self).refusal(card, pile)->0),
    {
        let c = Card::of(card);
        if !c.is_valid() {
            return Err(GameError::InvalidCardValue { value: card });
        }
        if !self.player.holds(c) {
            return Err(GameError::CardNotInHand { value: card });
        }
        let played = self.board.play_card(c, pile);
        match played {
            Ok(()) => {
                self.player.play_card(c);
                proof {
                    lemma_without_held_value_shrinks(old(self).player.hand(), c);
                    lemma_without_value_keeps_distinct(
                        old(self).board.deck_view(),
                        old(self).player.hand(),
                        c,
                    );
                }
                self.movements_count = self.movements_count + 1;
                Ok(())
            },
            Err(e) => Err(e),
        }
    }

    /// Whether enough placements were made this turn to end it.
    pub fn can_finish_turn(&self) -> (r: bool)
        ensures
            r == self.turn_done(),
    {
        let min_movements: u8 = if self.board.deck_len() == 0 {
            1
        } else {
            2
        };
        self.movements_count >= min_movements
    }

    /// Ends the turn: the move count starts over and the hand is refilled
    /// from the back of the deck up to a full hand, or with what is left.
    /// Returns where the game then stands.
    pub fn finnish_turn(&mut self) -> (r: GameResult)
        requires
            old(self).wf(),
        ensures
            final(self).wf(),
            final(self).moves() == 0,
            final(self).piles_view() == old(self).piles_view(),
            final(self).name_view() == old(self).name_view(),
            final(self).hand().len() == old(self).hand().len() + if HAND_SIZE - old(self).hand().len()
                < old(self).deck_view().len() {
                HAND_SIZE - old(self).hand().len()
            } else {
                old(self).deck_view().len() as int
            },
            final(self).hand().subrange(0, old(self).hand().len() as int) == old(self).hand(),
            final(self).deck_view() + final(self).hand().subrange(
                old(self).hand().len() as int,
                final(self).hand().len() as int,
            ) == old(self).deck_view(),
            r == final(self).status(),
    {
        self.movements_count = 0;
        let cards_needed = HAND_SIZE - self.player.hand_len();
        let new_cards = self.board.deal_hand(cards_needed);
        self.player.add_cards(new_cards);
        proof {
            let h = self.player.hand();
            let n = old(self).player.hand().len() as int;
            assert(h.subrange(0, n) =~= old(self).player.hand());
            assert(h.subrange(n, h.len() as int) =~= new_cards@);
            let d = self.board.deck_view();
            let old_h = old(self).player.hand();
            vstd::seq_lib::lemma_multiset_commutative(d, h);
            vstd::seq_lib::lemma_multiset_commutative(old_h, new_cards@);
            vstd::seq_lib::lemma_multiset_commutative(d, new_cards@);
            vstd::seq_lib::lemma_multiset_commutative(old(self).board.deck_view(), old_h);
            assert(h == old_h + new_cards@);
            assert((d + h).to_multiset() =~= (old(self).board.deck_view() + old_h).to_multiset());
            lemma_same_cards_distinct(old(self).board.deck_view() + old_h, d + h);
        }
        self.current_status()
    }

    /// Whether the player is stuck with no way to end the turn.
    pub fn lose_condition(&self) -> (r: bool)
        ensures
            r == self.stuck(),
    {
        !self.can_finish_turn() && !self.board.any_move_available(self.player.get_cards())
    }

    /// Where the game stands: won once hand and deck are both empty, lost
    /// once the player is stuck, in progress otherwise.
    pub fn current_status(&self) -> (r: GameResult)
        ensures
            r == self.status(),
    {
        if self.player.hand_len() == 0 && self.board.deck_len() == 0 {
            return GameResult::PlayerWin;
        }
        if self.lose_condition() {
            return GameResult::GameOver;
        }
        GameResult::InProgress
    }

    /// A copy of the four piles, in their fixed order.
    pub fn show_piles(&self) -> (r: [Pile; 4])
        ensures
            r@ == self.piles_view(),
    {
        self.board.piles()
    }

    /// A copy of the hand, in the order it was dealt.
    pub fn player_cards(&self) -> (r: Vec<Card>)
        ensures
            r@ == self.hand(),
    {
        self.player.get_cards()
    }

    pub fn player_name(&self) -> (r: String)
        ensures
            r@ == self.name_view(),
    {
        self.player.get_name()
    }

    /// The undealt cards in increasing order of value.
    pub fn remaining_cards(&self) -> (r: Vec<Card>)
        ensures
            r@.to_multiset() == self.deck_view().to_multiset(),
            crate::board::sorted_by_value(r@),
    {
        self.board.deck()
    }
}

/// A well-formed game never holds a card in two places: deck and hand
/// together are distinct real cards, and the hand never exceeds a full hand.
pub proof fn lemma_cards_in_one_place(g: Game)
    requires
        g.wf(),
    ensures
        distinct_real_cards(g.deck_view() + g.hand()),
        g.hand().len() <= HAND_SIZE,
{
}

/// A turn starts with no placement and cannot end there. While cards are
/// left to deal, one accepted placement does not end it and two do; once the
/// deck is empty, one does.
pub proof fn lemma_turn_minimum(
    start: Game,
    one: Game,
    two: Game,
    first: u8,
    first_pile: usize,
    second: u8,
    second_pile: usize,
)
    requires
        start.moves() == 0,
        Game::placed(start, one, first, first_pile),
        Game::placed(one, two, second, second_pile),
    ensures
        !start.turn_done(),
        start.deck_view().len() > 0 ==> !one.turn_done() && two.turn_done(),
        start.deck_view().len() == 0 ==> one.turn_done(),
{
}

/// A card that is real, held, and aimed at an existing pile that does not
/// take it is refused as a rule violation naming the card and the pile.
pub proof fn lemma_illegal_card_refused(g: Game, value: u8, pile: usize)
    requires
        is_card_value(value as int),
        holds_value(g.hand(), value),
        pile < NUM_PILES,
        !g.piles_view()[pile as int].accepts_card(Card(value)),
    ensures
        g.refusal(value, pile) == Some(
            GameError::RuleViolation {
                card: value,
                direction: g.piles_view()[pile as int].direction,
                top: g.piles_view()[pile as int].top.0,
            },
        ),
{
}

/// The player has won exactly when hand and deck are both empty; either one
/// empty alone is no win.
pub proof fn lemma_win_iff_hand_and_deck_empty(g: Game)
    ensures
        (g.status() == GameResult::PlayerWin) <==> (g.hand().len() == 0 && g.deck_view().len()
            == 0),
{
}

/// Where some card in hand fits some pile the player is not stuck, whatever
/// the count of the turn.
pub proof fn lemma_playable_hand_not_lost(g: Game)
    requires
        any_move(g.piles_view(), g.hand()),
    ensures
        g.status() != GameResult::GameOver,
{
}

} // verus!
