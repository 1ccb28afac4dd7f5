use solo::board::Board;
use solo::deck::{Card, Suit, Value};

fn shown(suit: Suit, value: Value) -> Card {
    let mut c = Card::new(suit, value);
    c.set_visible();
    c
}

#[test]
fn fresh_board_shape() {
    let board = Board::new();
    assert_eq!(board.game_cols.len(), 7);
    assert_eq!(board.objectives_cols.len(), 4);
    for (i, col) in board.game_cols.iter().enumerate() {
        assert_eq!(col.len(), i + 1);
        for (j, card) in col.iter().enumerate() {
            assert_eq!(card.face_up, j == i);
        }
    }
    assert_eq!(board.game_cols[0].len(), 1);
    assert!(board.game_cols[0][0].face_up);
    assert_eq!(board.game_cols[6].len(), 7);
    assert!(board.game_cols[6][6].face_up);
    assert!(board.objectives_cols.iter().all(|f| f.is_empty()));
    assert_eq!(board.deck.len(), 24);
}

#[test]
fn fresh_board_holds_every_card_once() {
    let mut board = Board::new();
    let mut seen = vec![0u32; 52];
    let mut all: Vec<Card> = Vec::new();
    for col in &board.game_cols {
        all.extend(col.iter().copied());
    }
    while let Some(card) = board.deck.deal() {
        all.push(card);
    }
    for card in all {
        let s = match card.suit {
            Suit::Spades => 0,
            Suit::Hearts => 1,
            Suit::Clubs => 2,
            Suit::Diamonds => 3,
        };
        seen[s * 13 + card.value.rank() as usize - 1] += 1;
    }
    assert!(seen.iter().all(|&n| n == 1));
}

#[test]
fn get_card_out_of_range_is_none() {
    let board = Board::new();
    assert!(board.get_card(7, 0).is_none());
    assert!(board.get_card(0, 1).is_none());
    assert!(board.get_card(6, 7).is_none());
    assert_eq!(*board.get_card(6, 6).unwrap(), board.game_cols[6][6]);
}

#[test]
fn move_card_moves_the_whole_run_in_order() {
    let mut board = Board::new();
    board.game_cols[1].push(shown(Suit::Hearts, Value::Nine));
    board.game_cols[1].push(shown(Suit::Spades, Value::Eight));
    let under = board.game_cols[1][1];
    let target_len = board.game_cols[5].len();
    board.move_card((1, 1), (5, 0));
    assert_eq!(board.game_cols[1].len(), 1);
    assert!(board.game_cols[1][0].face_up);
    assert_eq!(board.game_cols[5].len(), target_len + 3);
    assert_eq!(board.game_cols[5][target_len], under);
    assert_eq!(board.game_cols[5][target_len + 1], shown(Suit::Hearts, Value::Nine));
    assert_eq!(board.game_cols[5][target_len + 2], shown(Suit::Spades, Value::Eight));
}

#[test]
fn move_card_onto_its_own_column_keeps_it() {
    let mut board = Board::new();
    let before = board.game_cols[3].clone();
    board.move_card((3, 1), (3, 0));
    assert_eq!(board.game_cols[3], before);
}

#[test]
fn foundation_takes_next_rank_of_same_suit() {
    let mut board = Board::new();
    board.game_cols[0].push(shown(Suit::Clubs, Value::Ace));
    board.add_to_objective((0, 1), 1);
    assert_eq!(board.objectives_cols[1].len(), 1);

    board.game_cols[0].push(shown(Suit::Hearts, Value::Two));
    board.add_to_objective((0, 1), 1);
    assert_eq!(board.objectives_cols[1].len(), 1);
    assert_eq!(board.game_cols[0].len(), 2);

    board.game_cols[0].push(shown(Suit::Clubs, Value::Three));
    board.add_to_objective((0, 2), 1);
    assert_eq!(board.objectives_cols[1].len(), 1);

    board.game_cols[0].push(shown(Suit::Clubs, Value::Two));
    board.add_to_objective((0, 3), 1);
    assert_eq!(board.objectives_cols[1].len(), 2);
    assert_eq!(board.objectives_cols[1][1], shown(Suit::Clubs, Value::Two));
    assert_eq!(board.game_cols[0].len(), 3);
}

#[test]
fn foundation_add_out_of_range_does_nothing() {
    let mut board = Board::new();
    board.add_to_objective((0, 5), 0);
    board.add_to_objective((9, 0), 0);
    assert!(board.objectives_cols[0].is_empty());
    assert_eq!(board.game_cols[0].len(), 1);
}

#[test]
fn draw_card_rotates() {
    let mut board = Board::new();
    board.draw_card();
    assert_eq!(board.deck.len(), 24);
    assert!(board.deck.last().unwrap().face_up);
}

#[test]
fn rejected_foundation_move_changes_nothing() {
    let mut board = Board::new();
    board.game_cols[0].push(Card::new(Suit::Hearts, Value::Two));
    let before = board.game_cols.clone();
    board.add_to_objective((0, 1), 0);
    assert_eq!(board.game_cols, before);
    assert!(!board.game_cols[0][1].face_up);
    assert!(board.objectives_cols[0].is_empty());

    board.game_cols[0].push(shown(Suit::Spades, Value::Ace));
    board.add_to_objective((0, 2), 0);
    assert_eq!(board.objectives_cols[0].len(), 1);
    assert!(board.game_cols[0][1].face_up);

    board.game_cols[0].push(Card::new(Suit::Hearts, Value::King));
    let before = board.game_cols.clone();
    board.add_to_objective((0, 2), 0);
    assert_eq!(board.game_cols, before);
    assert!(!board.game_cols[0][2].face_up);
    assert_eq!(board.objectives_cols[0].len(), 1);
}

#[test]
fn foundation_index_unused_without_a_card() {
    let mut board = Board::new();
    board.add_to_objective((0, 5), 9);
    assert_eq!(board.game_cols[0].len(), 1);
    assert!(board.objectives_cols.iter().all(|f| f.is_empty()));
}

#[test]
fn fresh_draw_pile_is_face_down() {
    let mut board = Board::new();
    let mut n = 0;
    while let Some(card) = board.deck.deal() {
        assert!(!card.face_up);
        n += 1;
    }
    assert_eq!(n, 24);
}
