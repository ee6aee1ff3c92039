//! The exact core of a curve-to-tube mesh generator.
//!
//! A tube is made by sweeping a circle along a sampled path. This crate holds
//! the discrete side of that: how a curve is sampled and when sampling
//! fails, the arc-length table and its lookup, the recurrence that carries a
//! frame along the path, the layout and the triangulation of the tube
//! surface, and the selection of the edges and vertices that a wireframe
//! overlay marks.
//!
//! The crate holds no floating-point arithmetic. Lengths are counted in
//! integers, in a unit that the caller picks, and parameters are ratios of
//! integers. Positions and directions are values of a type `V` that the
//! caller picks; whatever has to be measured or rotated is handed to a
//! closure of the caller, and the contracts say which values each closure
//! is handed and where its results end up.

pub mod curves;
pub mod error;
pub mod frames;
pub mod mesh;
pub mod tube;
pub mod wireframe;
