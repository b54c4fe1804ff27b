use the_game::card::Card;
use the_game::player::Player;

#[test]
pub fn add_cards() {
    let mut player = Player::new("test".to_string());

    let cards = vec![Card::of(1), Card::of(2), Card::of(3)];
    player.add_cards(cards);

    player.play_card(Card::of(1));

    assert_eq!(player.get_cards(), vec![Card::of(2), Card::of(3)]);
}

#[test]
fn add_cards_appends_in_order_and_keeps_name() {
    let mut player = Player::new("Ada".to_string());
    player.add_cards(vec![Card::of(7), Card::of(3)]);
    player.add_cards(vec![Card::of(50)]);
    assert_eq!(player.get_cards(), vec![Card::of(7), Card::of(3), Card::of(50)]);
    assert_eq!(player.hand_len(), 3);
    assert_eq!(player.get_name(), "Ada".to_string());
}

#[test]
fn play_card_removes_every_card_of_that_value() {
    let mut player = Player::new("p".to_string());
    player.add_cards(vec![Card::of(5), Card::of(9), Card::of(5), Card::of(6)]);
    assert!(player.holds(Card::of(5)));
    player.play_card(Card::of(5));
    assert_eq!(player.get_cards(), vec![Card::of(9), Card::of(6)]);
    assert!(!player.holds(Card::of(5)));
    player.play_card(Card::of(40));
    assert_eq!(player.get_cards(), vec![Card::of(9), Card::of(6)]);
}
