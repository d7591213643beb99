//! The rules engine of the Comet shedding card game, together with the
//! small pieces of desktop and game-window logic that decide what a click
//! or a timer tick does. Everything here is plain data and rules; drawing,
//! timing and browser plumbing live outside this library.

pub mod cards;
pub mod deck;
pub mod game;
pub mod laws;
pub mod desktop;
pub mod glyph;
