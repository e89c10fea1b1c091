//! Nestor, a patience for one player.
//!
//! Forty-eight cards lie in six rows of eight columns, and four more lie
//! beside them as extra cards. A turn names two positions; when the two cards
//! reached through them have the same rank, both leave the table. The game is
//! won when no card is left.

pub mod board;
pub mod card;
pub mod deck;
pub mod game;
pub mod input;
pub mod layout;
pub mod render;
pub mod turn;
