//! Rules engine for a turn-based trading-card game: cards of six colors and
//! five ascending value tiers move between a shared table and player hands
//! through validated actions (draw, flip, trade, buy, leap).

pub mod card;
pub mod game;
pub mod player;
pub mod table;
