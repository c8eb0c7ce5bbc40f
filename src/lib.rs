//! A tick-driven simulation of circular cells drifting on a fixed-size canvas.
//!
//! Positions are fixed-point: one canvas unit is `UNIT` position steps, and a
//! heading carries its unit direction vector scaled by `UNIT`. Elapsed time is
//! counted in nanoseconds.
pub mod error;
pub mod motion;
pub mod pipeline;
pub mod canvas;
