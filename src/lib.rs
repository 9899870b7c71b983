//! Typed decoding of game records (cards, decks, characters and narrative
//! events) out of a generic parsed document tree, with cross-references
//! between events and characters.

pub mod yaml;
pub mod data;
pub mod interface;
pub mod text;
