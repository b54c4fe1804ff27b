use the_game::board::Board;
use the_game::card::{Card, PileDirection};

/// Every real card once, laid out so that `back` is dealt first, in order.
fn order_ending_with(back: &[u8]) -> Vec<Card> {
    let mut order: Vec<Card> = (2..=99u8)
        .filter(|v| !back.contains(v))
        .map(Card::of)
        .collect();
    order.extend(back.iter().map(|v| Card::of(*v)));
    order
}

fn values(cards: &[Card]) -> Vec<u8> {
    cards.iter().map(|c| c.value()).collect()
}

#[test]
fn test_new() {
    let board = Board::new();
    assert_eq!(board.piles().len(), 4);
    assert_eq!(board.missing_cards().len(), 98);
}

#[test]
fn test_deal_hand() {
    let mut board = Board::new();
    let hand = board.deal_hand(5);
    assert_eq!(hand.len(), 5);
    assert_eq!(board.missing_cards().len(), 93);
}

#[test]
fn test_not_more_available_moves() {
    let mut board = Board::new();

    board.play_card(Card::of(90), 0).expect("Error playing card");
    board.play_card(Card::of(80), 1).expect("Error playing card");
    board.play_card(Card::of(10), 2).expect("Error playing card");
    board.play_card(Card::of(11), 3).expect("Error playing card");

    // 20 would fit the descending pile on 10 by the jump back, so the hand
    // holds 25 in its place
    let cards = vec![Card::of(25), Card::of(30), Card::of(40), Card::of(50)];

    assert!(!board.any_move_available(cards));
}

#[test]
fn jump_value_fits_descending_pile() {
    let mut board = Board::new();
    board.play_card(Card::of(90), 0).expect("Error playing card");
    board.play_card(Card::of(80), 1).expect("Error playing card");
    board.play_card(Card::of(10), 2).expect("Error playing card");
    board.play_card(Card::of(11), 3).expect("Error playing card");
    let cards = vec![Card::of(20), Card::of(30), Card::of(40), Card::of(50)];
    assert!(board.any_move_available(cards));
    assert!(board.piles()[2].can_play_card(Card::of(20)));
    assert!(board.piles()[3].can_play_card(Card::of(21)));
}

#[test]
fn test_some_available_moves() {
    let mut board = Board::new();

    board.play_card(Card::of(90), 0).expect("Error playing card");
    board.play_card(Card::of(80), 1).expect("Error playing card");
    board.play_card(Card::of(10), 2).expect("Error playing card");
    board.play_card(Card::of(11), 3).expect("Error playing card");

    let cards = vec![Card::of(2), Card::of(30), Card::of(40), Card::of(50)];

    assert!(board.any_move_available(cards));
}

#[test]
fn new_board_holds_every_card_once_shuffled() {
    let board = Board::new();
    let deck = values(&board.missing_cards());
    let mut sorted = deck.clone();
    sorted.sort();
    assert_eq!(sorted, (2..=99u8).collect::<Vec<u8>>());
    assert_ne!(deck, sorted);
    let piles = board.piles();
    assert_eq!(piles[0].direction, PileDirection::Ascending);
    assert_eq!(piles[1].direction, PileDirection::Ascending);
    assert_eq!(piles[2].direction, PileDirection::Descending);
    assert_eq!(piles[3].direction, PileDirection::Descending);
    assert_eq!(piles[0].top.0, 1);
    assert_eq!(piles[3].top.0, 100);
}

#[test]
fn deal_takes_the_back_of_the_deck() {
    let mut board = Board::from_deck(order_ending_with(&[40, 41, 42])).unwrap();
    let hand = board.deal_hand(2);
    assert_eq!(values(&hand), vec![41, 42]);
    assert_eq!(board.missing_cards().len(), 96);
    assert_eq!(board.missing_cards().last(), Some(&Card::of(40)));
}

#[test]
fn deal_more_than_left_and_from_empty_deck() {
    let mut board = Board::from_deck(order_ending_with(&[])).unwrap();
    assert_eq!(board.deal_hand(0).len(), 0);
    assert_eq!(board.deal_hand(90).len(), 90);
    assert_eq!(board.deal_hand(20).len(), 8);
    assert_eq!(board.missing_cards().len(), 0);
    assert!(board.deal_hand(8).is_empty());
    assert_eq!(board.missing_cards().len(), 0);
}

#[test]
fn from_deck_refuses_what_is_not_the_whole_deck() {
    let mut short = order_ending_with(&[]);
    short.pop();
    assert!(Board::from_deck(short).is_none());

    let mut twice = order_ending_with(&[]);
    twice[0] = Card::of(99);
    assert!(Board::from_deck(twice).is_none());

    let mut unreal = order_ending_with(&[]);
    unreal[5] = Card::of(100);
    assert!(Board::from_deck(unreal).is_none());

    assert!(Board::from_deck(order_ending_with(&[])).is_some());
}

#[test]
fn play_on_missing_pile_is_refused() {
    let mut board = Board::new();
    let r = board.play_card(Card::of(50), 4);
    assert_eq!(r, Err(the_game::error::GameError::InvalidPileIndex { index: 4 }));
    assert_eq!(board.missing_cards().len(), 98);
    assert_eq!(board.piles()[0].top.0, 1);
}

#[test]
fn deck_is_sorted_for_display() {
    let board = Board::from_deck(order_ending_with(&[70, 3, 55])).unwrap();
    let dealt_order = values(&board.missing_cards());
    assert_eq!(&dealt_order[95..], &[70, 3, 55]);
    assert_eq!(values(&board.deck()), (2..=99u8).collect::<Vec<u8>>());
}

#[test]
fn no_move_with_empty_candidates() {
    let board = Board::new();
    assert!(!board.any_move_available(Vec::new()));
}
