//! A sliding-tile merge game (2048) on a square grid of configurable size:
//! a grid of optional tile values, a deterministic slide-and-merge engine,
//! game state with scoring and random tile spawning, and a set of
//! move-selecting controllers (random and Monte-Carlo rollout).

pub mod cli;
pub mod controller;
pub mod game;
pub mod game_manager;
pub mod grid;
pub mod grid_displayer;
pub mod prelude;
pub mod resolution;
mod rng;
pub mod text;
