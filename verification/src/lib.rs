//! Payout-control core of a slot-machine style game: a shared pot that
//! accumulates a fraction of every wager and releases it back along a
//! wave-shaped trajectory generated by a recursive golden-ratio subdivision.

pub mod fruit;
pub mod pool;
pub mod rng;
pub mod wave;
