use solo::deck::{Card, Deck, Suit, Value};

#[test]
fn new_deck() {
    let deck = Deck::new();
    assert_eq!(deck.len(), 52);
}

#[test]
fn deal_deck() {
    let mut deck = Deck::new();
    let card = deck.deal();
    assert_eq!(deck.len(), 51);
    assert_eq!(card.is_some(), true);
}

#[test]
fn shuffle_deck() {
    let mut deck = Deck::new();
    let mut unshuffled = Deck::new();
    deck.shuffle();

    let mut same = true;
    while let Some(card) = deck.deal() {
        let other = unshuffled.deal().unwrap();
        if card.suit != other.suit || card.value != other.value {
            same = false;
            break;
        }
    }
    assert_eq!(same, false);
}

#[test]
fn red_card() {
    let card = Card::new(Suit::Hearts, Value::Ace);
    assert_eq!(card.is_red(), true);
}

#[test]
fn black_card() {
    let card = Card::new(Suit::Spades, Value::Ace);
    assert_eq!(card.is_red(), false);
}

#[test]
fn can_move_over() {
    let mut card = Card::new(Suit::Spades, Value::Nine);
    let mut other = Card::new(Suit::Hearts, Value::Ten);

    card.set_visible();
    other.set_visible();

    assert_eq!(card.can_move_over(&other), true);
}

#[test]
fn cannot_move_over() {
    let mut card = Card::new(Suit::Spades, Value::Ace);
    let mut other = Card::new(Suit::Hearts, Value::Three);

    card.set_visible();
    other.set_visible();

    assert_eq!(card.can_move_over(&other), false);
}

#[test]
fn cannot_move_if_some_are_hidden() {
    let card = Card::new(Suit::Spades, Value::Two);
    let other = Card::new(Suit::Hearts, Value::Ace);

    assert_eq!(card.can_move_over(&other), false);
}

#[test]
fn cannot_move_over_same_color() {
    let mut card = Card::new(Suit::Spades, Value::Two);
    let mut other = Card::new(Suit::Clubs, Value::Ace);

    card.set_visible();
    other.set_visible();

    assert_eq!(card.can_move_over(&other), false);
}

#[test]
fn cannot_move_over_when_only_one_is_hidden() {
    let mut card = Card::new(Suit::Hearts, Value::Queen);
    let other = Card::new(Suit::Clubs, Value::King);
    card.set_visible();
    assert_eq!(card.can_move_over(&other), false);
}

#[test]
fn cannot_move_higher_rank_over_lower() {
    let mut card = Card::new(Suit::Hearts, Value::King);
    let mut other = Card::new(Suit::Clubs, Value::Queen);
    card.set_visible();
    other.set_visible();
    assert_eq!(card.can_move_over(&other), false);
}

#[test]
fn ace_over_two_of_other_colour() {
    let mut card = Card::new(Suit::Diamonds, Value::Ace);
    let mut other = Card::new(Suit::Spades, Value::Two);
    card.set_visible();
    other.set_visible();
    assert_eq!(card.can_move_over(&other), true);
}

#[test]
fn ranks_run_from_ace_to_king() {
    assert_eq!(Value::Ace.rank(), 1);
    assert_eq!(Value::Ten.rank(), 10);
    assert_eq!(Value::King.rank(), 13);
}

#[test]
fn card_text() {
    let mut ten = Card::new(Suit::Hearts, Value::Ten);
    assert_eq!(ten.to_string(), "** *");
    ten.set_visible();
    assert_eq!(ten.to_string(), "10 ♥️");
    let mut ace = Card::new(Suit::Spades, Value::Ace);
    ace.set_visible();
    assert_eq!(ace.to_string(), " A ♠️");
    let mut queen = Card::new(Suit::Diamonds, Value::Queen);
    queen.set_visible();
    assert_eq!(queen.to_string(), " Q ♦️");
}

#[test]
fn fresh_deck_order() {
    let mut deck = Deck::new();
    let top = *deck.last().unwrap();
    assert_eq!(top, Card::new(Suit::Diamonds, Value::King));
    let mut count = 0;
    while let Some(card) = deck.deal() {
        assert!(!card.face_up);
        count += 1;
        if count == 52 {
            assert_eq!(card, Card::new(Suit::Spades, Value::Ace));
        }
    }
    assert_eq!(count, 52);
    assert!(deck.is_empty());
    assert!(deck.last().is_none());
    assert!(deck.deal().is_none());
}

#[test]
fn rotate_moves_top_to_bottom_and_shows_new_top() {
    let mut deck = Deck::new();
    deck.rotate_cards();
    assert_eq!(deck.len(), 52);
    let top = *deck.last().unwrap();
    assert_eq!(top.suit, Suit::Diamonds);
    assert_eq!(top.value, Value::Queen);
    assert!(top.face_up);
    let mut last = None;
    while let Some(card) = deck.deal() {
        last = Some(card);
    }
    let bottom = last.unwrap();
    assert_eq!(bottom.suit, Suit::Diamonds);
    assert_eq!(bottom.value, Value::King);
    assert!(!bottom.face_up);
}

#[test]
fn rotate_single_card_deck() {
    let mut deck = Deck::new();
    for _ in 0..51 {
        deck.deal();
    }
    deck.rotate_cards();
    assert_eq!(deck.len(), 1);
    let top = *deck.last().unwrap();
    assert_eq!(top.value, Value::Ace);
    assert!(top.face_up);
}
