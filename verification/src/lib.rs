//! Planar rigid-body flight dynamics, verified.
//!
//! All physical quantities are held in fixed-point form: an `i64` counts
//! millionths of the unit in question (metres, radians, kilograms, and so
//! on), so that every arithmetic step has an exact integer meaning that
//! contracts can state and Verus can check.

pub mod aero;
pub mod atmosphere;
pub mod fixed;
pub mod geom;
pub mod interpolate;
pub mod rk4;
pub mod sim;
pub mod trig;
