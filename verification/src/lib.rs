//! A cycle-accurate model of a tiny two-instruction processor and of the
//! raster display it drives.
//!
//! The processor executes a program made of `Noop` (one cycle, no effect)
//! and `Addx` (two cycles, adds its operand to the single register when the
//! second cycle completes).  The display samples the register once per cycle,
//! before the cycle runs, to decide whether the pixel for that cycle is lit.

pub mod instructions;
pub mod machines;
pub mod screens;
