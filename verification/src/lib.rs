//! Signal-processing core of a terminal audio-file analyzer.
//!
//! The crate turns multichannel PCM audio into two views, an amplitude
//! envelope and a time-frequency magnitude map, and lets a zoom viewport
//! address any sub-range of either. Every quantity is an integer: ratios are
//! counted in parts per billion of one whole (see [`utils::UNIT`]), samples are
//! 32-bit fixed point and decibels are counted in thousandths.

pub mod dsp;
pub mod render;
pub mod utils;
