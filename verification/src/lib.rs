pub mod ai;
pub mod clock;
pub mod game;
pub mod piece;
pub mod player;
pub mod rng;
