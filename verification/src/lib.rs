//! A Monte Carlo Tree Search engine for chess.
//!
//! The engine builds a fresh search tree for every move decision, runs a
//! configured number of selection/expansion/simulation/backpropagation
//! iterations, and returns the move whose subtree received the most visits.
//! Board representation, legal-move generation, and move application come
//! from the `chess` crate through a small trusted adapter; randomness comes
//! from `rand`. Everything else is verified.

pub mod adapter;
pub mod engine;
pub mod game;
pub mod score;
