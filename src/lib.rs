//! Light-transport core of a spectral renderer: exact bounding-box tests, a
//! bounding volume hierarchy with its stackless flattened form, samplers,
//! the random walk shared by the estimators, the path tracer and photon
//! mapping with their importance-sampling weights, and film accumulation.
//!
//! Geometry is integral, ray parameters are exact rationals, and energies,
//! throughputs and densities are unsigned fixed-point values.

pub mod aabb;
pub mod bvh;
pub mod flat_bvh;
pub mod mis;
pub mod film;
pub mod sample;
pub mod instance;
pub mod integrator;
pub mod walk;
pub mod pt;
pub mod sppm;
