//! Cheat-code activation for a platformer: a catalog of codes, each bound to a
//! three-word phrase, an inventory of collected words and keycaps that pays for
//! an activation, and the generator that draws the phrases from a word pool.

pub mod inventory;
pub mod phrase;
pub mod cheat_codes;
pub mod word_pool;
pub mod console;
