//! A two-player grid battle game engine: boards of cells with reversible
//! overlays, ship placement, guesses, fleets and the turn loop.
pub mod board;
pub mod ship;
pub mod player;
mod rng;
pub mod game;
pub mod menu;
pub mod setup;
