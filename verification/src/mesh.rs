use vstd::prelude::*;
use three_d_asset::TriMesh;
use crate::error::GeometryError;
use crate::wireframe::{edge_instances, marked_edges, well_indexed, Edge};

verus! {

/// `three_d_asset::TriMesh`, the triangle mesh of the asset crate: positions,
/// an index buffer of 8, 16 or 32 bits or none, and per-vertex attributes.
/// Nothing inside it is visible here; the two names below stand for what the
/// wireframe rules read of it.
#[verifier::external_type_specification]
#[verifier::external_body]
pub struct ExTriMesh(three_d_asset::TriMesh);

/// What `Indices::to_u32` returns for the index buffer of a mesh: its
/// indices in their order, each widened to 32 bits, or nothing for a mesh
/// that has no index buffer.
pub uninterp spec fn mesh_indices(mesh: TriMesh) -> Option<Seq<u32>>;

/// What `TriMesh::vertex_count` returns for a mesh: the number of positions
/// that it holds.
pub uninterp spec fn mesh_vertex_count(mesh: TriMesh) -> nat;

/// Calls `Indices::to_u32` on the index buffer of the mesh. Not proved: that
/// the call returns the indices that `mesh_indices` names, and nothing for a
/// mesh without indices.
#[verifier::external_body]
fn indices_of(mesh: &TriMesh) -> (indices: Option<Vec<u32>>)
    ensures
        indices matches Some(v) ==> mesh_indices(*mesh) == Some(v@),
        indices is None ==> mesh_indices(*mesh) is None,
{
    mesh.indices.to_u32()
}

/// Calls `TriMesh::vertex_count`. Not proved: that the call returns the
/// number that `mesh_vertex_count` names.
#[verifier::external_body]
fn vertex_count_of(mesh: &TriMesh) -> (count: usize)
    ensures
        count == mesh_vertex_count(*mesh),
{
    mesh.vertex_count()
}

/// Selects the edges of a triangle mesh that a wireframe overlay marks, as
/// `edge_instances` does for its index buffer and its number of positions.
/// A mesh without an index buffer has no shared edges to select among and
/// gives nothing.
pub fn mesh_edge_instances(mesh: &TriMesh) -> (edges: Option<Result<Vec<Edge>, GeometryError>>)
    ensures
        edges is Some <==> mesh_indices(*mesh) is Some,
        edges matches Some(found) ==> {
            let indices = mesh_indices(*mesh)->Some_0;
            &&& found is Ok <==> well_indexed(indices, mesh_vertex_count(*mesh))
            &&& found matches Ok(list) ==> list@ == marked_edges(indices)
            &&& found matches Err(e) ==> e == GeometryError::MalformedMeshTopology
        },
{
    match indices_of(mesh) {
        Some(indices) => Some(edge_instances(&indices, vertex_count_of(mesh))),
        None => None,
    }
}

} // verus!
