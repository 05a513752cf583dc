//! An exact-arithmetic kernel for a ray-based renderer: 3D vectors, points,
//! planes, rays, quaternion rotations and sphere-intersection tests.
//!
//! All coordinates are rational numbers (`rat::Rat`), so every geometric
//! operation either returns its mathematically exact result or reports that
//! it cannot: a degenerate input (a zero divisor, a zero-length normal, a
//! parallel direction), an irrational square root, or a value whose reduced
//! fraction leaves the `i64` range yields `None` instead of a rounded result.
//! Each operation's contract states the returned value exactly, over
//! unbounded-fraction models of the types.

pub mod rat;
pub mod vec3;
pub mod point;
pub mod plane;
pub mod ray;
pub mod quat;
pub mod sphere;
