//! A turn-based creature simulation on a toroidal hexagonal grid.
pub mod hex;
pub mod map;
pub mod creature;
pub mod game;
pub mod rng;
pub mod ai;
