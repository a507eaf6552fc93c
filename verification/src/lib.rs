//! Simulation core of a small arcade space shooter: motion integration with
//! per-tick drag, pairwise circle collision detection, and the game rules that
//! turn collision reports into despawns, score and scene resets.
//!
//! All physical quantities are fixed-point integers: positions and rotations
//! in micro-units (one millionth of a world unit or radian), linear and
//! angular velocities in micro-units per millisecond, drag coefficients in
//! milli-units per second, and time in milliseconds.
pub mod collide;
pub mod game;
pub mod motion;
