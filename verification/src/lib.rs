//! Noise fields on a rectangular grid.
//!
//! A field holds one fixed-point sample per cell. Four strategies fill it:
//! white noise in every cell, a sparse sublattice of key points, a
//! checkerboard of anchors, and the checkerboard with its gaps relaxed to the
//! mean of their neighbours. A field is rendered by quantizing every sample
//! to eight bits of luminance.

pub mod error;
pub mod generate;
pub mod grid;
pub mod random;
pub mod render;
pub mod sample;
pub mod shape;
pub mod strategy;

pub use crate::error::NoiseError;
pub use crate::generate::{
    count_draws, generate, generate_from, lattice_noise, padded_noise, smooth_lattice_noise,
    static_noise,
};
pub use crate::grid::Noise;
pub use crate::random::draw_words;
pub use crate::render::{render, to_image, Picture};
pub use crate::sample::{brightness, mean_of_four, sample_from_word, HALF, ONE};
pub use crate::strategy::Strategy;
