//! Colour quantisation of raster images by k-means clustering.
//!
//! Pixels are four-channel samples with eight bits per channel.  Cluster
//! centres are kept as exact rationals (a channel-wise sum and a count), so
//! every comparison the engine makes is the comparison of the real numbers it
//! stands for, and the contracts are stated over those reals.

pub mod metric;
pub mod centroid;
pub mod lloyd;
pub mod model;
pub mod seeding;
pub mod cost;
pub mod laws;
pub mod cli;
pub mod render;
pub mod naming;
pub mod dispatch;
pub mod job;
