//! A rigid-body simulation on exact fixed-point arithmetic: convex overlap
//! tests by separating axes, the per-tick collision graph of a set of unit
//! cubes, and a fixed-timestep integrator with elastic reflection.
//!
//! Every quantity is an integer. Lengths, velocities, forces and masses count
//! thousandths of a unit ([`fixed::SCALE`]); time counts microseconds.

pub mod fixed;
pub mod vector;
pub mod collision;
pub mod hull;
pub mod body;
pub mod game;
pub mod boxes;
pub mod terrain;
pub mod shader;

