//! A simulation of the Central Limit Theorem: many independent random walks
//! are run, their endpoints are binned into a histogram, and the histogram is
//! regenerated on a fixed tick.
pub mod engine;
pub mod laws;
pub mod random;
pub mod state;
pub mod ticker;
