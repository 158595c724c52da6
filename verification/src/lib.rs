//! A multi-hand blackjack rules engine with a provably fair shuffle protocol.
//!
//! The house and the player each feed entropy into a deterministic
//! counter-based generator; the resulting deck order is fixed before betting
//! and can be re-derived afterwards from the revealed seeds, so either side
//! can verify that the order was never manipulated.

pub mod card;
pub mod deck;
pub mod digest;
pub mod game;
pub mod pcg;
pub mod player;
pub mod rules;
