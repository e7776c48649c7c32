//! Conway's Game of Life on a bit-packed square grid.
//!
//! The grid is a row-major bitmap, one bit per cell, most-significant-bit
//! first within each byte. The engine evolves a grid by the standard
//! birth/survival rule under one of two boundary policies (clamped or
//! toroidal), and a small formatter renders a fixed-width generation label.

pub mod codec;
pub mod engine;
pub mod label;
