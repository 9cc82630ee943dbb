//! The rendering core of an interactive Mandelbrot-set viewer: the
//! escape-time iterator with a smooth escape count, the rotating palette, the
//! viewport and its pixel transform, the row renderer, and the decisions of
//! the frame loop (key bindings, pacing, palette rotation).
//!
//! All real quantities are fixed-point integers (see `fixed`), so every
//! result is exact, reproducible on any machine, and stated in the contracts.
pub mod fixed;
pub mod escape;
pub mod palette;
pub mod viewport;
pub mod render;
pub mod control;
pub mod report;
