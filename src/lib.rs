//! The discrete core of an electrostatic particle-in-cell simulation on a
//! structured 3-D mesh: mesh shape and node volumes, the per-node field
//! container, cloud-in-cell cell and corner selection, the difference
//! stencils of the electric field, the control of the relaxation solver, and
//! the particle-side decisions (wall reflection, quiet-start weights). Laws
//! over exact (real) arithmetic state what the floating-point arithmetic built
//! on these pieces computes.
use vstd::prelude::*;

pub mod difference;
pub mod field;
pub mod interpolation;
pub mod mesh;
pub mod particles;
pub mod solver;

verus! {

} // verus!
