use vstd::prelude::*;
use vstd::arithmetic::div_mod::lemma_fundamental_div_mod_converse;
use vstd::arithmetic::div_mod::lemma_fundamental_div_mod;
use crate::error::GeometryError;
use crate::frames::FrenetFrame;

verus! {

/// Number of bands of quads along the path: one between each ring and its
/// successor. A closed path also joins its last ring to its first.
pub open spec fn ring_intervals(tubular: nat, closed: bool) -> nat {
    if tubular == 0 {
        0
    } else if closed {
        tubular
    } else {
        (tubular - 1) as nat
    }
}

/// Position of a vertex in the buffers: rings follow one another, and within
/// a ring the radial slots.
pub open spec fn vertex_slot(radial: nat, ring: int, slot: int) -> int {
    ring * radial + slot
}

/// Corner `corner` (0 to 5) of the two triangles that cover the quad between
/// ring `i` and the next ring, from slot `j` to the next slot. The next slot
/// wraps around the ring; the next ring wraps only on the band that closes a
/// closed path.
pub open spec fn quad_corner(tubular: nat, radial: nat, i: int, j: int, corner: int) -> int {
    let next_i = (i + 1) % (tubular as int);
    let next_j = (j + 1) % (radial as int);
    if corner == 0 {
        vertex_slot(radial, i, j)
    } else if corner == 1 || corner == 4 {
        vertex_slot(radial, next_i, j)
    } else if corner == 2 || corner == 3 {
        vertex_slot(radial, i, next_j)
    } else {
        vertex_slot(radial, next_i, next_j)
    }
}

/// The triangle list of a tube with `tubular` rings of `radial` vertices:
/// band after band, quad after quad, six corners each.
pub open spec fn tube_indices(tubular: nat, radial: nat, closed: bool) -> Seq<int> {
    Seq::new(
        6 * ring_intervals(tubular, closed) * radial,
        |k: int| quad_corner(tubular, radial, (k / 6) / (radial as int), (k / 6) % (radial as int), k % 6),
    )
}

/// An index buffer read as mathematical integers.
pub open spec fn as_ints(indices: Seq<u32>) -> Seq<int> {
    indices.map_values(|v: u32| v as int)
}

/// Products of a ring below `tubular` and a slot below `radial` stay below
/// the vertex count.
proof fn lemma_slot_in_range(tubular: nat, radial: nat, ring: int, slot: int)
    requires
        0 <= ring < tubular,
        0 <= slot < radial,
    ensures
        0 <= vertex_slot(radial, ring, slot) < tubular * radial,
{
    assert(0 <= ring * radial && (ring + 1) * radial <= tubular * radial) by (nonlinear_arith)
        requires
            0 <= ring < tubular,
            0 <= radial,
    ;
    assert((ring + 1) * radial == ring * radial + radial) by (nonlinear_arith);
}

/// Every corner of a quad inside the tube names a vertex of the tube.
proof fn lemma_quad_corner_in_range(tubular: nat, radial: nat, i: int, j: int, corner: int)
    requires
        0 <= i < tubular,
        0 <= j < radial,
    ensures
        0 <= quad_corner(tubular, radial, i, j, corner) < tubular * radial,
{
    let next_i = (i + 1) % (tubular as int);
    let next_j = (j + 1) % (radial as int);
    lemma_slot_in_range(tubular, radial, i, j);
    lemma_slot_in_range(tubular, radial, next_i, j);
    lemma_slot_in_range(tubular, radial, i, next_j);
    lemma_slot_in_range(tubular, radial, next_i, next_j);
}

/// The triangle list of a tube has six indices for each quad, and each of
/// them names one of the `tubular * radial` vertices of the tube.
pub proof fn lemma_tube_indices_in_range(tubular: nat, radial: nat, closed: bool)
    ensures
        tube_indices(tubular, radial, closed).len() == 6 * ring_intervals(tubular, closed) * radial,
        forall|k: int|
            0 <= k < tube_indices(tubular, radial, closed).len() ==> 0 <= #[trigger] tube_indices(
                tubular,
                radial,
                closed,
            )[k] < tubular * radial,
{
    let intervals = ring_intervals(tubular, closed) as int;
    let all = tube_indices(tubular, radial, closed);
    assert forall|k: int| 0 <= k < all.len() implies 0 <= #[trigger] all[k] < tubular * radial by {
        let quad = k / 6;
        assert(6 * intervals * radial == 6 * (intervals * radial)) by (nonlinear_arith);
        lemma_fundamental_div_mod(quad, radial as int);
        let i = quad / (radial as int);
        let j = quad % (radial as int);
        assert(0 <= i < intervals) by (nonlinear_arith)
            requires
                quad == radial * i + j,
                0 <= j < radial,
                0 <= quad < intervals * radial,
        ;
        lemma_quad_corner_in_range(tubular, radial, i, j, k % 6);
    }
}

/// Between a ring `i` and the ring `i + 1` after it, the quad from slot `j`
/// to the slot `j' = (j + 1) mod R` is covered by the triangles
/// `(i*R + j, (i+1)*R + j, i*R + j')` and
/// `(i*R + j', (i+1)*R + j, (i+1)*R + j')`, which stand at place
/// `6 * (i*R + j)` of the triangle list.
pub proof fn lemma_quad_triangles(tubular: nat, radial: nat, closed: bool, i: int, j: int)
    requires
        0 <= i,
        i + 1 < tubular,
        0 <= j < radial,
    ensures
        ({
            let all = tube_indices(tubular, radial, closed);
            let base = 6 * (i * radial + j);
            let next_j = (j + 1) % (radial as int);
            &&& 0 <= base
            &&& base + 6 <= all.len()
            &&& all[base] == i * radial + j
            &&& all[base + 1] == (i + 1) * radial + j
            &&& all[base + 2] == i * radial + next_j
            &&& all[base + 3] == i * radial + next_j
            &&& all[base + 4] == (i + 1) * radial + j
            &&& all[base + 5] == (i + 1) * radial + next_j
        }),
{
    let intervals = ring_intervals(tubular, closed) as int;
    let quad = i * radial + j;
    lemma_slot_in_range(intervals as nat, radial, i, j);
    assert(6 * intervals * radial == 6 * (intervals * radial)) by (nonlinear_arith);
    lemma_fundamental_div_mod_converse(quad, radial as int, i, j);
    vstd::arithmetic::div_mod::lemma_small_mod((i + 1) as nat, tubular);
}

/// Writes the triangle list of a tube: for each band `i` and each slot `j`,
/// the triangles `(i*R+j, i'*R+j, i*R+j')` and `(i*R+j', i'*R+j, i'*R+j')`,
/// where `i'` is the next ring and `j'` the next slot around the ring.
pub fn generate_indices(tubular_segments: usize, radial_segments: usize, closed: bool) -> (indices:
    Vec<u32>)
    requires
        tubular_segments * radial_segments <= 0x1_0000_0000,
    ensures
        indices@.len() == 6 * ring_intervals(tubular_segments as nat, closed) * radial_segments,
        as_ints(indices@) == tube_indices(tubular_segments as nat, radial_segments as nat, closed),
        forall|k: int|
            0 <= k < indices@.len() ==> (#[trigger] indices@[k]) < tubular_segments
                * radial_segments,
{
    let ghost tubular = tubular_segments as nat;
    let ghost radial = radial_segments as nat;
    let mut indices: Vec<u32> = Vec::new();
    let intervals: usize = if tubular_segments == 0 {
        0
    } else if closed {
        tubular_segments
    } else {
        tubular_segments - 1
    };
    let mut i: usize = 0;
    while i < intervals
        invariant
            i <= intervals,
            intervals == ring_intervals(tubular, closed),
            intervals <= tubular_segments,
            tubular == tubular_segments,
            radial == radial_segments,
            tubular * radial <= 0x1_0000_0000,
            indices@.len() == 6 * (i * radial),
            forall|k: int|
                0 <= k < indices@.len() ==> (#[trigger] indices@[k]) as int == quad_corner(
                    tubular,
                    radial,
                    (k / 6) / (radial as int),
                    (k / 6) % (radial as int),
                    k % 6,
                ),
            forall|k: int| 0 <= k < indices@.len() ==> (#[trigger] indices@[k]) < tubular * radial,
        decreases intervals - i,
    {
        let next_i: usize = if i + 1 == tubular_segments {
            0
        } else {
            i + 1
        };
        assert(next_i == (i + 1) % (tubular as int)) by {
            if i + 1 < tubular {
                vstd::arithmetic::div_mod::lemma_small_mod((i + 1) as nat, tubular);
            } else {
                vstd::arithmetic::div_mod::lemma_mod_self_0(tubular as int);
            }
        }
        let mut j: usize = 0;
        while j < radial_segments
            invariant
                j <= radial_segments,
                i < intervals,
                intervals <= tubular_segments,
                next_i < tubular_segments,
                next_i == (i + 1) % (tubular as int),
                tubular == tubular_segments,
                radial == radial_segments,
                tubular * radial <= 0x1_0000_0000,
                indices@.len() == 6 * (i * radial + j),
                forall|k: int|
                    0 <= k < indices@.len() ==> (#[trigger] indices@[k]) as int == quad_corner(
                        tubular,
                        radial,
                        (k / 6) / (radial as int),
                        (k / 6) % (radial as int),
                        k % 6,
                    ),
                forall|k: int| 0 <= k < indices@.len() ==> (#[trigger] indices@[k]) < tubular * radial,
            decreases radial_segments - j,
        {
            let next_j: usize = if j + 1 == radial_segments {
                0
            } else {
                j + 1
            };
            proof {
                if j + 1 < radial {
                    vstd::arithmetic::div_mod::lemma_small_mod((j + 1) as nat, radial);
                } else {
                    vstd::arithmetic::div_mod::lemma_mod_self_0(radial as int);
                }
                lemma_slot_in_range(tubular, radial, i as int, j as int);
                lemma_slot_in_range(tubular, radial, next_i as int, j as int);
                lemma_slot_in_range(tubular, radial, i as int, next_j as int);
                lemma_slot_in_range(tubular, radial, next_i as int, next_j as int);
            }
            let near: usize = i * radial_segments;
            let far: usize = next_i * radial_segments;
            let current: u32 = (near + j) as u32;
            let next: u32 = (far + j) as u32;
            let current_next: u32 = (near + next_j) as u32;
            let next_next: u32 = (far + next_j) as u32;
            indices.push(current);
            indices.push(next);
            indices.push(current_next);
            indices.push(current_next);
            indices.push(next);
            indices.push(next_next);
            proof {
                let quad = i * radial + j;
                lemma_fundamental_div_mod_converse(quad, radial as int, i as int, j as int);
            }
            j = j + 1;
        }
        proof {
            assert(6 * (i * radial + radial) == 6 * ((i + 1) * radial)) by (nonlinear_arith);
        }
        i = i + 1;
    }
    proof {
        assert(6 * (intervals * radial) == 6 * intervals * radial) by (nonlinear_arith);
    }
    indices
}

/// Place of the vertex of ring `ring`, radial slot `slot`, in the vertex and
/// normal buffers of a tube with `radial_segments` vertices per ring.
pub fn vertex_index(radial_segments: usize, ring: usize, slot: usize) -> (index: usize)
    requires
        slot < radial_segments,
        vertex_slot(radial_segments as nat, ring as int, slot as int) <= usize::MAX,
    ensures
        index == vertex_slot(radial_segments as nat, ring as int, slot as int),
{
    ring * radial_segments + slot
}

/// Ring and radial slot of the vertex at place `index` of the buffers: the
/// inverse of `vertex_index`.
pub fn ring_slot(radial_segments: usize, index: usize) -> (place: (usize, usize))
    requires
        radial_segments > 0,
    ensures
        place.1 < radial_segments,
        index == vertex_slot(radial_segments as nat, place.0 as int, place.1 as int),
{
    proof {
        lemma_fundamental_div_mod(index as int, radial_segments as int);
        assert(radial_segments * (index / radial_segments) == (index / radial_segments)
            * radial_segments) by (nonlinear_arith);
    }
    (index / radial_segments, index % radial_segments)
}

/// A direction at a point of the path, as an overlay draws it.
#[derive(Debug)]
pub struct VPair<V> {
    pub point: V,
    pub direction: V,
}

/// The directions, each at the point with the same place in its sequence,
/// as far as both sequences go.
pub open spec fn paired<V>(points: Seq<V>, directions: Seq<V>) -> Seq<VPair<V>> {
    Seq::new(
        if points.len() <= directions.len() {
            points.len()
        } else {
            directions.len()
        },
        |i: int| VPair { point: points[i], direction: directions[i] },
    )
}

/// Pairs each direction with the point at which it stands.
pub fn pair_up<V: Copy>(points: &Vec<V>, directions: &Vec<V>) -> (pairs: Vec<VPair<V>>)
    ensures
        pairs@ == paired(points@, directions@),
{
    let count = if points.len() <= directions.len() {
        points.len()
    } else {
        directions.len()
    };
    let mut pairs: Vec<VPair<V>> = Vec::new();
    let mut i: usize = 0;
    while i < count
        invariant
            i <= count,
            count <= points@.len(),
            count <= directions@.len(),
            pairs@.len() == i,
            forall|k: int|
                0 <= k < i ==> #[trigger] pairs@[k] == (VPair {
                    point: points@[k],
                    direction: directions@[k],
                }),
        decreases count - i,
    {
        pairs.push(VPair { point: points[i], direction: directions[i] });
        i = i + 1;
    }
    pairs
}

/// A tube around a sampled path: a ring of `radial_segments` vertices around
/// each path point, ring after ring, with one normal per vertex and the
/// triangles that join each ring to the next; and the path points and
/// frames that the rings were made from.
#[derive(Debug)]
pub struct Tube<V> {
    pub vertices: Vec<V>,
    pub indices: Vec<u32>,
    pub center_points: Vec<V>,
    pub normals: Vec<V>,
    pub normals_frame: Vec<V>,
    pub binormals_frame: Vec<V>,
    pub tangents_frame: Vec<V>,
    pub radial_segments: usize,
    pub closed: bool,
}

/// The two buffers hold, for every ring `i` and every slot `j`, the vertex
/// and the normal that `ring_vertex` makes of path point `i`, the normal and
/// the binormal of its frame, the slot and the number of slots.
pub open spec fn rings_filled<V, F: Fn(V, V, V, usize, usize) -> (V, V)>(
    ring_vertex: F,
    points: Seq<V>,
    frame_n: Seq<V>,
    frame_b: Seq<V>,
    radial: nat,
    vertices: Seq<V>,
    normals: Seq<V>,
) -> bool {
    &&& vertices.len() == points.len() * radial
    &&& normals.len() == points.len() * radial
    &&& forall|i: int, j: int|
        0 <= i < points.len() && 0 <= j < radial ==> call_ensures(
            ring_vertex,
            (points[i], frame_n[i], frame_b[i], j as usize, radial as usize),
            (
                vertices[#[trigger] vertex_slot(radial, i, j)],
                normals[vertex_slot(radial, i, j)],
            ),
        )
}

impl<V: Copy> Tube<V> {
    /// The tube has at least two rings, one per path point, and a frame for
    /// each; the buffers hold one vertex and one normal per ring and slot;
    /// and the triangles are those of the tube and name vertices of the
    /// buffer only.
    pub open spec fn well_formed(&self) -> bool {
        let rings = self.center_points@.len();
        &&& rings >= 2
        &&& self.tangents_frame@.len() == rings
        &&& self.normals_frame@.len() == rings
        &&& self.binormals_frame@.len() == rings
        &&& self.vertices@.len() == rings * self.radial_segments
        &&& self.normals@.len() == self.vertices@.len()
        &&& self.indices@.len() == 6 * ring_intervals(rings, self.closed) * self.radial_segments
        &&& as_ints(self.indices@) == tube_indices(rings, self.radial_segments as nat, self.closed)
        &&& forall|k: int|
            0 <= k < self.indices@.len() ==> (#[trigger] self.indices@[k]) < self.vertices@.len()
    }

    /// The tangents of the frames, each at its path point.
    pub fn tangents(&self) -> (pairs: Vec<VPair<V>>)
        ensures
            pairs@ == paired(self.center_points@, self.tangents_frame@),
    {
        pair_up(&self.center_points, &self.tangents_frame)
    }

    /// The normals of the frames, each at its path point.
    pub fn frame_normals(&self) -> (pairs: Vec<VPair<V>>)
        ensures
            pairs@ == paired(self.center_points@, self.normals_frame@),
    {
        pair_up(&self.center_points, &self.normals_frame)
    }

    /// The binormals of the frames, each at its path point.
    pub fn binormals(&self) -> (pairs: Vec<VPair<V>>)
        ensures
            pairs@ == paired(self.center_points@, self.binormals_frame@),
    {
        pair_up(&self.center_points, &self.binormals_frame)
    }

    /// Appends the ring around one path point to the buffers: for each slot
    /// around the ring, what `ring_vertex` makes of the point, the normal and
    /// the binormal of its frame, the slot and the number of slots; the
    /// vertex goes to `vertices` and its normal to `normals`.
    fn generate_segment<F: Fn(V, V, V, usize, usize) -> (V, V)>(
        vertices: &mut Vec<V>,
        normals: &mut Vec<V>,
        point: V,
        radial_segments: usize,
        frame_n: V,
        frame_b: V,
        ring_vertex: F,
    )
        requires
            old(vertices)@.len() == old(normals)@.len(),
            forall|j: usize|
                j < radial_segments ==> #[trigger] call_requires(
                    ring_vertex,
                    (point, frame_n, frame_b, j, radial_segments),
                ),
        ensures
            final(vertices)@.len() == old(vertices)@.len() + radial_segments,
            final(normals)@.len() == old(normals)@.len() + radial_segments,
            final(vertices)@.subrange(0, old(vertices)@.len() as int) == old(vertices)@,
            final(normals)@.subrange(0, old(normals)@.len() as int) == old(normals)@,
            forall|j: int|
                0 <= j < radial_segments ==> call_ensures(
                    ring_vertex,
                    (point, frame_n, frame_b, j as usize, radial_segments),
                    (
                        #[trigger] final(vertices)@[old(vertices)@.len() + j],
                        final(normals)@[old(normals)@.len() + j],
                    ),
                ),
    {
        let ghost base = vertices@.len() as int;
        let mut j: usize = 0;
        while j < radial_segments
            invariant
                j <= radial_segments,
                base == old(vertices)@.len() == old(normals)@.len(),
                vertices@.len() == base + j,
                normals@.len() == base + j,
                vertices@.subrange(0, base) == old(vertices)@,
                normals@.subrange(0, base) == old(normals)@,
                forall|k: int|
                    0 <= k < j ==> call_ensures(
                        ring_vertex,
                        (point, frame_n, frame_b, k as usize, radial_segments),
                        (#[trigger] vertices@[base + k], normals@[base + k]),
                    ),
                forall|k: usize|
                    k < radial_segments ==> #[trigger] call_requires(
                        ring_vertex,
                        (point, frame_n, frame_b, k, radial_segments),
                    ),
            decreases radial_segments - j,
        {
            let (vertex, normal) = ring_vertex(point, frame_n, frame_b, j, radial_segments);
            vertices.push(vertex);
            normals.push(normal);
            j = j + 1;
        }
    }

    /// Fills the vertex and normal buffers of a tube, ring after ring along
    /// the path points.
    fn generate_buffer<F: Fn(V, V, V, usize, usize) -> (V, V)>(
        points: &Vec<V>,
        radial_segments: usize,
        frame_n: &Vec<V>,
        frame_b: &Vec<V>,
        ring_vertex: F,
    ) -> (buffers: (Vec<V>, Vec<V>))
        requires
            frame_n@.len() == points@.len(),
            frame_b@.len() == points@.len(),
            forall|i: int, j: usize|
                0 <= i < points@.len() && j < radial_segments ==> #[trigger] call_requires(
                    ring_vertex,
                    (points@[i], frame_n@[i], frame_b@[i], j, radial_segments),
                ),
        ensures
            rings_filled(
                ring_vertex,
                points@,
                frame_n@,
                frame_b@,
                radial_segments as nat,
                buffers.0@,
                buffers.1@,
            ),
    {
        let ghost radial = radial_segments as nat;
        let mut vertices: Vec<V> = Vec::new();
        let mut normals: Vec<V> = Vec::new();
        let count = points.len();
        let mut i: usize = 0;
        while i < count
            invariant
                i <= count == points@.len(),
                frame_n@.len() == points@.len(),
                frame_b@.len() == points@.len(),
                radial == radial_segments,
                rings_filled(
                    ring_vertex,
                    points@.take(i as int),
                    frame_n@,
                    frame_b@,
                    radial,
                    vertices@,
                    normals@,
                ),
                forall|k: int, j: usize|
                    0 <= k < points@.len() && j < radial_segments ==> #[trigger] call_requires(
                        ring_vertex,
                        (points@[k], frame_n@[k], frame_b@[k], j, radial_segments),
                    ),
            decreases count - i,
        {
            let ghost base = i * radial_segments;
            Self::generate_segment(
                &mut vertices,
                &mut normals,
                points[i],
                radial_segments,
                frame_n[i],
                frame_b[i],
                &ring_vertex,
            );
            proof {
                let seen = points@.take(i + 1);
                assert((i + 1) * radial_segments == base + radial_segments) by (nonlinear_arith)
                    requires
                        base == i * radial_segments,
                ;
                assert forall|p: int, q: int| 0 <= p < seen.len() && 0 <= q < radial implies call_ensures(
                    ring_vertex,
                    (seen[p], frame_n@[p], frame_b@[p], q as usize, radial as usize),
                    (
                        vertices@[#[trigger] vertex_slot(radial, p, q)],
                        normals@[vertex_slot(radial, p, q)],
                    ),
                ) by {
                    if p < i {
                        lemma_slot_in_range(i as nat, radial, p, q);
                    }
                }
            }
            i = i + 1;
        }
        (vertices, normals)
    }

    /// Builds the tube around the given path points, which come with a
    /// frame each. The vertex and the normal of ring `i`, slot `j`, are what
    /// `ring_vertex` makes of path point `i`, the normal and the binormal of
    /// its frame, `j` and the number of slots; the triangles join each ring
    /// to the next and, on a closed path, the last ring to the first. A path
    /// of fewer than two points is degenerate. Narrow rings, of fewer than
    /// three slots, are accepted.
    pub fn new<F: Fn(V, V, V, usize, usize) -> (V, V)>(
        center_points: Vec<V>,
        frame: FrenetFrame<V>,
        closed: bool,
        radial_segments: usize,
        ring_vertex: F,
    ) -> (tube: Result<Tube<V>, GeometryError>)
        requires
            frame.tangents@.len() == center_points@.len(),
            frame.normals@.len() == center_points@.len(),
            frame.binormals@.len() == center_points@.len(),
            center_points@.len() * radial_segments <= 0x1_0000_0000,
            forall|i: int, j: usize|
                0 <= i < center_points@.len() && j < radial_segments ==> #[trigger] call_requires(
                    ring_vertex,
                    (center_points@[i], frame.normals@[i], frame.binormals@[i], j, radial_segments),
                ),
        ensures
            tube is Ok <==> center_points@.len() >= 2,
            tube matches Err(e) ==> e == GeometryError::DegenerateCurve,
            tube matches Ok(t) ==> {
                &&& t.well_formed()
                &&& t.center_points == center_points
                &&& t.tangents_frame == frame.tangents
                &&& t.normals_frame == frame.normals
                &&& t.binormals_frame == frame.binormals
                &&& t.radial_segments == radial_segments
                &&& t.closed == closed
                &&& rings_filled(
                    ring_vertex,
                    center_points@,
                    frame.normals@,
                    frame.binormals@,
                    radial_segments as nat,
                    t.vertices@,
                    t.normals@,
                )
            },
    {
        let tubular_segments = center_points.len();
        if tubular_segments < 2 {
            return Err(GeometryError::DegenerateCurve);
        }
        let (vertices, normals) = Self::generate_buffer(
            &center_points,
            radial_segments,
            &frame.normals,
            &frame.binormals,
            ring_vertex,
        );
        let indices = generate_indices(tubular_segments, radial_segments, closed);
        Ok(
            Tube {
                vertices,
                indices,
                center_points,
                normals,
                normals_frame: frame.normals,
                binormals_frame: frame.binormals,
                tangents_frame: frame.tangents,
                radial_segments,
                closed,
            },
        )
    }
}

/// Corner `corner` (0 to 5) of the two triangles that cover the quad between
/// path point `i` and the next, from angle step `j` to the next step around,
/// in the winding of a straight sweep: `(near j, near j', far j')` and
/// `(near j, far j', far j)`.
pub open spec fn sweep_corner(steps: nat, i: int, j: int, corner: int) -> int {
    let next_j = (j + 1) % (steps as int);
    if corner == 0 || corner == 3 {
        vertex_slot(steps, i, j)
    } else if corner == 1 {
        vertex_slot(steps, i, next_j)
    } else if corner == 2 || corner == 4 {
        vertex_slot(steps, i + 1, next_j)
    } else {
        vertex_slot(steps, i + 1, j)
    }
}

/// Number of angle steps that a signed count stands for: none where it is
/// not positive.
pub open spec fn angle_steps(angle_subdivisions: i32) -> nat {
    if angle_subdivisions > 0 {
        angle_subdivisions as nat
    } else {
        0
    }
}

/// The triangle list of a sweep around `points` path points with `steps`
/// vertices around each: between each point and the next, quad after quad,
/// six corners each.
pub open spec fn sweep_indices(points: nat, steps: nat) -> Seq<int> {
    Seq::new(
        6 * ring_intervals(points, false) * steps,
        |k: int| sweep_corner(steps, (k / 6) / (steps as int), (k / 6) % (steps as int), k % 6),
    )
}

/// Writes the 16-bit triangle list of a ring swept along a path of
/// `path_len` points, with `angle_subdivisions` vertices around each point.
/// The path is open: its last ring is not joined to its first.
pub fn tube_path_indices(path_len: usize, angle_subdivisions: i32) -> (indices: Vec<u16>)
    requires
        path_len >= 1,
        path_len * angle_steps(angle_subdivisions) <= 0x1_0000,
    ensures
        indices@.len() == 6 * ring_intervals(path_len as nat, false) * angle_steps(
            angle_subdivisions,
        ),
        indices@.map_values(|v: u16| v as int) == sweep_indices(
            path_len as nat,
            angle_steps(angle_subdivisions),
        ),
        forall|k: int|
            0 <= k < indices@.len() ==> (#[trigger] indices@[k]) < path_len * angle_steps(
                angle_subdivisions,
            ),
{
    let mut indices: Vec<u16> = Vec::new();
    let ghost points = path_len as nat;
    let ghost steps = angle_steps(angle_subdivisions);
    if angle_subdivisions <= 0 {
        return indices;
    }
    let around: usize = angle_subdivisions as usize;
    let mut i: usize = 0;
    while i + 1 < path_len
        invariant
            i + 1 <= path_len,
            points == path_len,
            steps == around,
            around > 0,
            points * steps <= 0x1_0000,
            indices@.len() == 6 * (i * steps),
            forall|k: int|
                0 <= k < indices@.len() ==> (#[trigger] indices@[k]) as int == sweep_corner(
                    steps,
                    (k / 6) / (steps as int),
                    (k / 6) % (steps as int),
                    k % 6,
                ),
            forall|k: int| 0 <= k < indices@.len() ==> (#[trigger] indices@[k]) < points * steps,
        decreases path_len - i,
    {
        let mut j: usize = 0;
        while j < around
            invariant
                j <= around,
                i + 1 < path_len,
                points == path_len,
                steps == around,
                around > 0,
                points * steps <= 0x1_0000,
                indices@.len() == 6 * (i * steps + j),
                forall|k: int|
                    0 <= k < indices@.len() ==> (#[trigger] indices@[k]) as int == sweep_corner(
                        steps,
                        (k / 6) / (steps as int),
                        (k / 6) % (steps as int),
                        k % 6,
                    ),
                forall|k: int| 0 <= k < indices@.len() ==> (#[trigger] indices@[k]) < points * steps,
            decreases around - j,
        {
            let next_j: usize = if j + 1 == around {
                0
            } else {
                j + 1
            };
            proof {
                if j + 1 < steps {
                    vstd::arithmetic::div_mod::lemma_small_mod((j + 1) as nat, steps);
                } else {
                    vstd::arithmetic::div_mod::lemma_mod_self_0(steps as int);
                }
                lemma_slot_in_range(points, steps, i as int, j as int);
                lemma_slot_in_range(points, steps, i + 1, j as int);
                lemma_slot_in_range(points, steps, i as int, next_j as int);
                lemma_slot_in_range(points, steps, i + 1, next_j as int);
            }
            let near: usize = i * around;
            let far: usize = (i + 1) * around;
            let current: u16 = (near + j) as u16;
            let current_next: u16 = (near + next_j) as u16;
            let next_next: u16 = (far + next_j) as u16;
            let next: u16 = (far + j) as u16;
            indices.push(current);
            indices.push(current_next);
            indices.push(next_next);
            indices.push(current);
            indices.push(next_next);
            indices.push(next);
            proof {
                let quad = i * steps + j;
                lemma_fundamental_div_mod_converse(quad, steps as int, i as int, j as int);
            }
            j = j + 1;
        }
        proof {
            assert(6 * (i * steps + steps) == 6 * ((i + 1) * steps)) by (nonlinear_arith);
        }
        i = i + 1;
    }
    proof {
        assert(6 * ((path_len - 1) * steps) == 6 * (path_len - 1) * steps) by (nonlinear_arith);
    }
    indices
}

} // verus!
