//! A standard deck of playing cards: building it, shuffling it, registering
//! players and dealing the deck to them round-robin, and rendering the result
//! as text lines.

pub mod card;
pub mod deck;
pub mod deal;
pub mod player;
pub mod shuffle;
pub mod display;
