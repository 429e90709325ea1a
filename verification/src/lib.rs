//! A Gray-Scott reaction-diffusion engine on a periodic grid, with its
//! structure proved: the neighbour topology, the split of a step into
//! worker tasks, the double-buffered step itself and the pixel packing.
//!
//! The engine is generic in the scalar type of the two concentrations and is
//! handed the per-cell update rule by its caller, so no arithmetic on the
//! concentrations themselves happens here.

pub mod color;
pub mod grid;
pub mod laws;
pub mod partition;
pub mod sim;
