use vstd::prelude::*;
use vstd::seq_lib::to_multiset_build;
use vstd::seq_lib::to_multiset_contains;
use crate::error::GeometryError;

verus! {

/// A directed edge of a triangle, from the vertex `start` to the vertex
/// `end`, each named by its place in the position buffer.
#[derive(Clone, Copy, Debug, PartialEq, Eq, Structural)]
pub struct Edge {
    pub start: u32,
    pub end: u32,
}

/// Number of whole triangles in an index buffer; trailing indices that do
/// not make up a triangle are not part of the mesh.
pub open spec fn triangle_count(indices: Seq<u32>) -> int {
    indices.len() as int / 3
}

/// Directed edge `k` of the mesh: in triangle `k / 3`, from corner `k % 3`
/// to the corner after it.
pub open spec fn half_edge(indices: Seq<u32>, k: int) -> Edge {
    let base = 3 * (k / 3);
    Edge { start: indices[base + k % 3], end: indices[base + (k + 1) % 3] }
}

/// All directed edges of the mesh, triangle by triangle.
pub open spec fn half_edges(indices: Seq<u32>) -> Seq<Edge> {
    Seq::new((3 * triangle_count(indices)) as nat, |k: int| half_edge(indices, k))
}

/// The rule by which one of the two directions of an edge is picked: the
/// one that runs from the lower to the higher vertex.
pub open spec fn ascending(e: Edge) -> bool {
    e.start < e.end
}

/// The rule `ascending` as a predicate to filter by.
pub open spec fn ascending_rule() -> spec_fn(Edge) -> bool {
    |e: Edge| ascending(e)
}

/// The edges that get a marker: the ascending directed edges, in the order
/// of the triangles.
pub open spec fn marked_edges(indices: Seq<u32>) -> Seq<Edge> {
    half_edges(indices).filter(ascending_rule())
}

/// Every corner of every triangle names a vertex of the position buffer.
pub open spec fn well_indexed(indices: Seq<u32>, vertex_count: nat) -> bool {
    forall|k: int| 0 <= k < 3 * triangle_count(indices) ==> (#[trigger] indices[k]) < vertex_count
}

/// Selects the edges of an indexed triangle mesh that a wireframe overlay
/// marks. Of the three directed edges of each triangle those that ascend are
/// taken, so that an edge shared by two triangles of opposite winding is
/// taken once. A corner outside the position buffer fails the call.
pub fn edge_instances(indices: &Vec<u32>, vertex_count: usize) -> (edges: Result<
    Vec<Edge>,
    GeometryError,
>)
    ensures
        edges is Ok <==> well_indexed(indices@, vertex_count as nat),
        edges matches Ok(list) ==> list@ == marked_edges(indices@),
        edges matches Err(e) ==> e == GeometryError::MalformedMeshTopology,
{
    let ghost all = half_edges(indices@);
    let count: usize = indices.len();
    let triangles: usize = count / 3;
    let mut list: Vec<Edge> = Vec::new();
    let mut f: usize = 0;
    while f < triangles
        invariant
            f <= triangles,
            triangles == triangle_count(indices@),
            3 * triangles <= count == indices@.len(),
            all == half_edges(indices@),
            forall|k: int| 0 <= k < 3 * f ==> (#[trigger] indices@[k]) < vertex_count,
            list@ == all.take(3 * f).filter(ascending_rule()),
        decreases triangles - f,
    {
        let i1: u32 = indices[3 * f];
        let i2: u32 = indices[3 * f + 1];
        let i3: u32 = indices[3 * f + 2];
        if i1 as usize >= vertex_count || i2 as usize >= vertex_count || i3 as usize
            >= vertex_count {
            return Err(GeometryError::MalformedMeshTopology);
        }
        let e1 = Edge { start: i1, end: i2 };
        let e2 = Edge { start: i2, end: i3 };
        let e3 = Edge { start: i3, end: i1 };
        proof {
            let done = all.take(3 * f);
            assert(all.take(3 * f + 3) =~= done.push(e1).push(e2).push(e3));
            done.lemma_filter_push(e1, ascending_rule());
            done.push(e1).lemma_filter_push(e2, ascending_rule());
            done.push(e1).push(e2).lemma_filter_push(e3, ascending_rule());
        }
        if i1 < i2 {
            list.push(e1);
        }
        if i2 < i3 {
            list.push(e2);
        }
        if i3 < i1 {
            list.push(e3);
        }
        f = f + 1;
    }
    proof {
        assert(all.take(3 * triangles) =~= all);
    }
    Ok(list)
}

/// Places one marker at each vertex of a mesh: for each position, in the
/// order of the buffer, the transformation that `translation` makes of it.
pub fn vertex_transformations<V: Copy, M, F: Fn(V) -> M>(positions: &Vec<V>, translation: F) -> (out:
    Vec<M>)
    requires
        forall|i: int|
            0 <= i < positions@.len() ==> #[trigger] call_requires(translation, (positions@[i],)),
    ensures
        out@.len() == positions@.len(),
        forall|i: int|
            0 <= i < positions@.len() ==> call_ensures(
                translation,
                (positions@[i],),
                #[trigger] out@[i],
            ),
{
    let mut out: Vec<M> = Vec::new();
    let mut i: usize = 0;
    while i < positions.len()
        invariant
            i <= positions@.len(),
            out@.len() == i,
            forall|k: int|
                0 <= k < i ==> call_ensures(translation, (positions@[k],), #[trigger] out@[k]),
            forall|k: int|
                0 <= k < positions@.len() ==> #[trigger] call_requires(
                    translation,
                    (positions@[k],),
                ),
        decreases positions@.len() - i,
    {
        out.push(translation(positions[i]));
        i = i + 1;
    }
    out
}

/// Places one marker along each marked edge of a mesh: for each edge that
/// `edge_instances` selects, in its order, the transformation that
/// `edge_transform` makes of the positions of its start and its end. A
/// corner outside the position buffer fails the call.
pub fn edge_transformations<V: Copy, M, F: Fn(V, V) -> M>(
    positions: &Vec<V>,
    indices: &Vec<u32>,
    edge_transform: F,
) -> (out: Result<Vec<M>, GeometryError>)
    requires
        forall|i: int, j: int|
            0 <= i < positions@.len() && 0 <= j < positions@.len() ==> #[trigger] call_requires(
                edge_transform,
                (positions@[i], positions@[j]),
            ),
    ensures
        out is Ok <==> well_indexed(indices@, positions@.len()),
        out matches Err(e) ==> e == GeometryError::MalformedMeshTopology,
        out matches Ok(list) ==> {
            &&& list@.len() == marked_edges(indices@).len()
            &&& forall|k: int|
                0 <= k < list@.len() ==> call_ensures(
                    edge_transform,
                    (
                        positions@[marked_edges(indices@)[k].start as int],
                        positions@[marked_edges(indices@)[k].end as int],
                    ),
                    #[trigger] list@[k],
                )
        },
{
    let edges = match edge_instances(indices, positions.len()) {
        Ok(edges) => edges,
        Err(e) => {
            return Err(e);
        },
    };
    proof {
        lemma_marked_edges_in_range(indices@, positions@.len());
    }
    let mut list: Vec<M> = Vec::new();
    let mut k: usize = 0;
    while k < edges.len()
        invariant
            k <= edges@.len(),
            edges@ == marked_edges(indices@),
            list@.len() == k,
            forall|i: int|
                0 <= i < edges@.len() ==> (#[trigger] edges@[i]).start < positions@.len()
                    && edges@[i].end < positions@.len(),
            forall|i: int|
                0 <= i < k ==> call_ensures(
                    edge_transform,
                    (positions@[edges@[i].start as int], positions@[edges@[i].end as int]),
                    #[trigger] list@[i],
                ),
            forall|i: int, j: int|
                0 <= i < positions@.len() && 0 <= j < positions@.len() ==> #[trigger] call_requires(
                    edge_transform,
                    (positions@[i], positions@[j]),
                ),
        decreases edges@.len() - k,
    {
        let edge = edges[k];
        list.push(edge_transform(positions[edge.start as usize], positions[edge.end as usize]));
        k = k + 1;
    }
    Ok(list)
}

/// The marked edges of a mesh whose corners all lie in the position buffer
/// start and end in the buffer.
pub proof fn lemma_marked_edges_in_range(indices: Seq<u32>, vertex_count: nat)
    requires
        well_indexed(indices, vertex_count),
    ensures
        forall|i: int|
            0 <= i < marked_edges(indices).len() ==> (#[trigger] marked_edges(indices)[i]).start
                < vertex_count && marked_edges(indices)[i].end < vertex_count,
{
    let all = half_edges(indices);
    let marked = marked_edges(indices);
    assert forall|i: int| 0 <= i < marked.len() implies (#[trigger] marked[i]).start < vertex_count
        && marked[i].end < vertex_count by {
        let e = marked[i];
        assert(marked.contains(e));
        all.lemma_filter_contains_rev(ascending_rule(), e);
        let k = choose|k: int| 0 <= k < all.len() && all[k] == e;
        let base = 3 * (k / 3);
        assert(indices[base + k % 3] < vertex_count);
        assert(indices[base + (k + 1) % 3] < vertex_count);
    }
}

/// An edge between two different vertices.
pub open spec fn proper(e: Edge) -> bool {
    e.start != e.end
}

/// The edge without its direction: written from its lower to its higher
/// vertex.
pub open spec fn undirected(e: Edge) -> Edge {
    if e.start <= e.end {
        e
    } else {
        Edge { start: e.end, end: e.start }
    }
}

/// The undirected edges of the mesh: each proper edge of a triangle, once,
/// whatever its direction and however many triangles share it.
pub open spec fn mesh_edges(indices: Seq<u32>) -> Set<Edge> {
    Set::new(
        |u: Edge|
            exists|k: int|
                0 <= k < half_edges(indices).len() && proper(#[trigger] half_edges(indices)[k])
                    && undirected(half_edges(indices)[k]) == u,
    )
}

/// The mesh runs along each of its edges exactly once from the lower to the
/// higher vertex. A closed surface with one winding does: each edge then
/// lies in two triangles, which run along it in opposite directions.
pub open spec fn evenly_wound(indices: Seq<u32>) -> bool {
    forall|u: Edge| #[trigger]
        mesh_edges(indices).contains(u) ==> half_edges(indices).to_multiset().count(u) == 1
}

/// Filtering keeps the number of times that an accepted item occurs, and
/// removes every other item.
proof fn lemma_filter_count<A>(s: Seq<A>, rule: spec_fn(A) -> bool, x: A)
    ensures
        s.filter(rule).to_multiset().count(x) == if rule(x) {
            s.to_multiset().count(x)
        } else {
            0
        },
    decreases s.len(),
{
    if s.len() == 0 {
        assert(s.filter(rule) =~= Seq::<A>::empty()) by {
            reveal(Seq::filter);
        }
        to_multiset_contains(s, x);
        to_multiset_contains(Seq::<A>::empty(), x);
    } else {
        let rest = s.drop_last();
        let last = s.last();
        assert(s =~= rest.push(last));
        lemma_filter_count(rest, rule, x);
        rest.lemma_filter_push(last, rule);
        to_multiset_build(rest, last);
        if rule(last) {
            to_multiset_build(rest.filter(rule), last);
        }
    }
}

/// The marked edges are the undirected edges of the mesh, none marked twice
/// and none left out, exactly on the meshes that run along each of their
/// edges once in ascending direction. There are then as many markers as
/// edges.
pub proof fn lemma_one_marker_per_edge(indices: Seq<u32>)
    ensures
        evenly_wound(indices) <==> marked_edges(indices).no_duplicates() && marked_edges(
            indices,
        ).to_set() == mesh_edges(indices),
        evenly_wound(indices) ==> mesh_edges(indices).finite() && marked_edges(indices).len()
            == mesh_edges(indices).len(),
{
    let all = half_edges(indices);
    let marked = marked_edges(indices);
    assert forall|e: Edge| marked.contains(e) implies mesh_edges(indices).contains(e) by {
        all.lemma_filter_contains_rev(ascending_rule(), e);
        let k = choose|k: int| 0 <= k < all.len() && all[k] == e;
        assert(proper(all[k]) && undirected(all[k]) == e);
    }
    if evenly_wound(indices) {
        assert forall|e: Edge| marked.to_multiset().contains(e) implies marked.to_multiset().count(
            e,
        ) == 1 by {
            to_multiset_contains(marked, e);
            assert(mesh_edges(indices).contains(e));
            all.lemma_filter_contains_rev(ascending_rule(), e);
            lemma_filter_count(all, ascending_rule(), e);
        }
        marked.lemma_multiset_has_no_duplicates_conv();
        assert forall|u: Edge| mesh_edges(indices).contains(u) implies marked.contains(u) by {
            let k = choose|k: int|
                0 <= k < all.len() && proper(#[trigger] all[k]) && undirected(all[k]) == u;
            assert(ascending(u));
            to_multiset_contains(all, u);
            lemma_filter_count(all, ascending_rule(), u);
            to_multiset_contains(marked, u);
        }
        assert(marked.to_set() =~= mesh_edges(indices));
        marked.unique_seq_to_set();
        vstd::seq_lib::seq_to_set_is_finite(marked);
    }
    if marked.no_duplicates() && marked.to_set() == mesh_edges(indices) {
        marked.lemma_multiset_has_no_duplicates();
        assert forall|u: Edge| #[trigger] mesh_edges(indices).contains(u) implies all.to_multiset().count(
            u,
        ) == 1 by {
            assert(marked.to_set().contains(u));
            assert(marked.contains(u));
            to_multiset_contains(marked, u);
            all.lemma_filter_contains_rev(ascending_rule(), u);
            lemma_filter_count(all, ascending_rule(), u);
        }
    }
}

} // verus!
