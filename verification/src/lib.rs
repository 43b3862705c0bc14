//! Simulation core of a two-player, grid-based bomb arena: terrain, bombs,
//! blast propagation, chain reactions and player bookkeeping.

mod seqs;
pub mod legend;
pub mod map;
pub mod collision;
pub mod player;
pub mod bomb;
pub mod explosion;
pub mod chain;
pub mod world;
