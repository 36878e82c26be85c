//! An artificial-life simulation core: agents ("cells") that perceive a 2D
//! world through a vision cone, choose actions with a small feed-forward
//! network, move, eat, age, reproduce with gene blending and network
//! crossover, and die.
//!
//! All quantities are fixed-point integers: one unit of a position, a speed
//! or a gene is written as `fixed::ONE` (1000); resource levels count in
//! millionths (`cell::LEVEL_ONE`), so that a per-second rate times a step in
//! milliseconds is exact; angles are in milli-degrees and durations in
//! milliseconds.
pub mod fixed;
pub mod random;
pub mod neural_network;
pub mod genes;
pub mod perception;
pub mod cell;
pub mod world;
pub mod todo;
