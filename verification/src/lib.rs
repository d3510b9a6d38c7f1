//! A streaming frame-processing pipeline that turns raw audio samples
//! into normalized, bucketed spectral magnitudes for bar-graph display.
//!
//! Every stage here works over exact values: samples and bar heights as
//! fixed-point integers on the grid of [`fixed::VALUE_ONE`], smoothing
//! weights as exact rationals ([`fraction::Fraction`]). The spectral
//! transform, the taper and perceptual-curve tables, and the decibel map
//! need transcendental arithmetic, so callers compute those outside and
//! hand the results in as plain values; everything the pipeline then
//! does with them is specified and verified.

pub mod binner;
pub mod channeled;
pub mod config;
pub mod errors;
pub mod fixed;
pub mod fraction;
pub mod framed;
pub mod level;
pub mod savitzky_golay;
pub mod sliding;
pub mod smoothing;
pub mod spectral;
pub mod timer;
pub mod util;
pub mod wav;
pub mod window;
