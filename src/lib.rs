//! A card game library: a 52-card deck, hands, meld detection and scoring.

pub mod cards;
pub mod game;
