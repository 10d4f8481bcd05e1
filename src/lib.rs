//! Unrolls a radial (circular) animation frame into a linear strip of
//! columns and rows, as used to drive a ring of LEDs laid out in a row.

pub mod config;
pub mod frame;
pub mod geometry;
pub mod resample;
pub mod laws;
pub mod encode;
