//! Core of an explicit-scheme, cell-based 2D overland flow simulator.
//!
//! A thin layer of water redistributes across a raster terrain over time,
//! driven by elevation gradients and a Gauckler-Manning-Strickler roughness
//! based flow law.  All physical quantities (meters, seconds, Strickler
//! coefficients) are carried as fixed-point integers with six decimal places
//! (see [`fixed`]), so every formula and the per-timestep update are exact
//! integer computations with proved contracts.

pub mod fixed;
pub mod grid;
pub mod hydraulics;
pub mod node;
pub mod plotting;
pub mod rastercell;
pub mod simulation;
