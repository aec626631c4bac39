//! Estimates a player's vertical progress through a multi-area platforming game
//! from screenshots or decoded video frames.
//!
//! The verified core covers scene classification by perceptual hash, template
//! search with mirroring, the reduction of a battery of pose templates to one
//! position, and the arithmetic that turns an area and a local pixel offset into
//! a share of the whole world's height.

pub mod area;
pub mod progress;
pub mod pixels;
pub mod hashing;
pub mod catalog;
pub mod matcher;
pub mod locator;
pub mod pipeline;
pub mod score;
