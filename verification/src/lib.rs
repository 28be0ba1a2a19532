//! Discrete backlight brightness control.
//!
//! The library models a backlight whose brightness moves along a fixed,
//! non-uniform ladder of levels and is animated between levels by a linear
//! integer ramp. Reading and writing the hardware interface is left to the
//! surrounding program; everything here is pure computation with proofs.

pub mod brightness;
pub mod text;
pub mod tween;
