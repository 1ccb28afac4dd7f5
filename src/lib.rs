//! A Klondike-style solitaire engine: cards and a draw pile, a board of
//! tableau columns and foundation piles, and a cursor-driven command layer.

pub mod deck;
pub mod board;
pub mod game;
