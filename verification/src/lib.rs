//! A rules engine for the four-player trick-taking card game Big Two:
//! a card model with the game's non-standard rank order, classification of
//! card sets into ranked hand categories, a cross-category hand comparator,
//! per-turn legality checking, and a rotating, pass-aware game state machine.

pub mod card;
pub mod deck;
pub mod game;
pub mod hand;
pub mod player;
