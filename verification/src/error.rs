use vstd::prelude::*;

verus! {

/// Why a generation call gave no result. A call that fails returns nothing
/// else: no partial table, frame sequence or mesh.
#[derive(Clone, Copy, Debug, PartialEq, Eq, Structural)]
pub enum GeometryError {
    /// A sample inside the parameter range has no position.
    InvalidCurveDomain,
    /// The path has fewer than two distinct sample points, or a direction
    /// that has to be normalised has no length.
    DegenerateCurve,
    /// A triangle refers to a vertex that the position buffer does not hold.
    MalformedMeshTopology,
}

} // verus!
