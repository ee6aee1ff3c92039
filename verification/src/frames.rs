use vstd::prelude::*;
use crate::error::GeometryError;

verus! {

/// A coordinate axis.
#[derive(Clone, Copy, Debug, PartialEq, Eq, Structural)]
pub enum Axis {
    X,
    Y,
    Z,
}

/// The axis along which a vector with the given component magnitudes is
/// shortest; of equal magnitudes the earlier axis.
pub open spec fn smallest_axis(x: u64, y: u64, z: u64) -> Axis {
    if x <= y && x <= z {
        Axis::X
    } else if y <= z {
        Axis::Y
    } else {
        Axis::Z
    }
}

/// Picks the axis that seeds the first normal: the one along which the first
/// tangent has its smallest absolute component. The arguments are the
/// magnitudes of the three components, in any common unit.
pub fn seed_axis(x: u64, y: u64, z: u64) -> (axis: Axis)
    ensures
        axis == smallest_axis(x, y, z),
        match axis {
            Axis::X => x <= y && x <= z,
            Axis::Y => y <= x && y <= z,
            Axis::Z => z <= x && z <= y,
        },
{
    if x <= y && x <= z {
        Axis::X
    } else if y <= z {
        Axis::Y
    } else {
        Axis::Z
    }
}

/// `next` is what `transport` makes of the normal `prev` on the way from the
/// tangent `from` to the tangent `to`: the rotated normal where the path
/// turns between the two, and `prev` itself where the path is locally
/// straight and `transport` gives nothing.
pub open spec fn transported<V, F: Fn(V, V, V) -> Option<V>>(
    transport: F,
    from: V,
    to: V,
    prev: V,
    next: V,
) -> bool {
    exists|turn: Option<V>|
        #[trigger] call_ensures(transport, (from, to, prev), turn) && next == match turn {
            Some(rotated) => rotated,
            None => prev,
        }
}

/// `normals` is `first` carried along the tangents: one normal per tangent,
/// each made from the one before it and the two tangents between which it
/// moves.
pub open spec fn propagated<V, F: Fn(V, V, V) -> Option<V>>(
    transport: F,
    tangents: Seq<V>,
    first: V,
    normals: Seq<V>,
) -> bool {
    &&& normals.len() == tangents.len()
    &&& normals.len() >= 1 ==> normals[0] == first
    &&& forall|i: int|
        1 <= i < normals.len() ==> transported(
            transport,
            tangents[i - 1],
            tangents[i],
            normals[i - 1],
            #[trigger] normals[i],
        )
}

/// Carries the first normal along the path, sample by sample. For each
/// sample after the first, `transport` is handed the tangent of the sample
/// before, the tangent of the sample, and the normal of the sample before;
/// it returns that normal rotated by the turn between the two tangents, or
/// nothing where the path does not turn, and the normal is then kept as it
/// is.
pub fn propagate_normals<V: Copy, F: Fn(V, V, V) -> Option<V>>(
    tangents: &Vec<V>,
    first: V,
    transport: F,
) -> (normals: Vec<V>)
    requires
        forall|i: int, prev: V|
            1 <= i < tangents@.len() ==> #[trigger] call_requires(
                transport,
                (tangents@[i - 1], tangents@[i], prev),
            ),
    ensures
        propagated(transport, tangents@, first, normals@),
{
    let mut normals: Vec<V> = Vec::new();
    let count = tangents.len();
    if count == 0 {
        return normals;
    }
    normals.push(first);
    let mut current: V = first;
    let mut i: usize = 1;
    while i < count
        invariant
            1 <= i <= count == tangents@.len(),
            normals@.len() == i,
            normals@[i - 1] == current,
            propagated(transport, tangents@.take(i as int), first, normals@),
            forall|k: int, prev: V|
                1 <= k < tangents@.len() ==> #[trigger] call_requires(
                    transport,
                    (tangents@[k - 1], tangents@[k], prev),
                ),
        decreases count - i,
    {
        match transport(tangents[i - 1], tangents[i], current) {
            Some(rotated) => {
                current = rotated;
            },
            None => {},
        }
        normals.push(current);
        i = i + 1;
    }
    normals
}

/// Along a straight path every normal is the first normal: where all
/// tangents are one and the same, and nothing is rotated between equal
/// tangents, the normal never changes.
pub proof fn lemma_straight_path_keeps_normal<V, F: Fn(V, V, V) -> Option<V>>(
    transport: F,
    tangents: Seq<V>,
    first: V,
    normals: Seq<V>,
)
    requires
        propagated(transport, tangents, first, normals),
        forall|i: int| 0 <= i < tangents.len() ==> #[trigger] tangents[i] == tangents[0],
        forall|t: V, prev: V, turn: Option<V>|
            #[trigger] call_ensures(transport, (t, t, prev), turn) ==> turn is None,
    ensures
        forall|i: int| 0 <= i < normals.len() ==> #[trigger] normals[i] == first,
    decreases normals.len(),
{
    if normals.len() > 1 {
        let shorter = normals.drop_last();
        let fewer = tangents.drop_last();
        lemma_straight_path_keeps_normal(transport, fewer, first, shorter);
        let last = normals.len() - 1;
        assert(shorter[last - 1] == first);
        assert forall|i: int| 0 <= i < normals.len() implies #[trigger] normals[i] == first by {
            if i < last {
                assert(shorter[i] == first);
            }
        }
    }
}

/// What the twist of a closed path is measured between: the tangent and the
/// normal of its first sample, and the normal that was carried to its last.
#[derive(Debug)]
pub struct Seam<V> {
    pub tangent: V,
    pub first: V,
    pub last: V,
}

/// `normals` is `raw` with the closing twist spread over it: the first
/// normal is kept, and each later one is what `twist` makes of it, given its
/// sample, the number of segments, the tangent there and the seam.
pub open spec fn twisted<V, W: Fn(usize, usize, V, V, Seam<V>) -> V>(
    twist: W,
    tangents: Seq<V>,
    raw: Seq<V>,
    normals: Seq<V>,
) -> bool {
    &&& normals.len() == raw.len()
    &&& raw.len() >= 1 ==> normals[0] == raw[0]
    &&& forall|i: int|
        1 <= i < raw.len() ==> call_ensures(
            twist,
            (
                i as usize,
                (raw.len() - 1) as usize,
                tangents[i],
                raw[i],
                Seam { tangent: tangents[0], first: raw[0], last: raw.last() },
            ),
            #[trigger] normals[i],
        )
}

/// Spreads the twist that is left between the two ends of a closed path over
/// its normals. For each sample `i` after the first, `twist` is handed `i`,
/// the number of segments, the tangent and the normal of the sample, and the
/// seam between which the twist is measured; it returns the normal turned
/// about the tangent by `i` shares of the twist. The first normal stays, and
/// so do all normals of an open path.
pub fn distribute_twist<V: Copy, W: Fn(usize, usize, V, V, Seam<V>) -> V>(
    tangents: &Vec<V>,
    normals: Vec<V>,
    closed: bool,
    twist: W,
) -> (out: Vec<V>)
    requires
        tangents@.len() == normals@.len(),
        forall|i: usize, n: V, seam: Seam<V>|
            1 <= i < tangents@.len() ==> #[trigger] call_requires(
                twist,
                (i, (tangents@.len() - 1) as usize, tangents@[i as int], n, seam),
            ),
    ensures
        !closed ==> out@ == normals@,
        closed ==> twisted(twist, tangents@, normals@, out@),
{
    if !closed {
        return normals;
    }
    let mut out: Vec<V> = Vec::new();
    let count = normals.len();
    if count == 0 {
        return out;
    }
    let first_tangent: V = tangents[0];
    let first: V = normals[0];
    let last: V = normals[count - 1];
    let ghost seam = Seam { tangent: first_tangent, first, last };
    out.push(first);
    let mut i: usize = 1;
    while i < count
        invariant
            1 <= i <= count == normals@.len() == tangents@.len(),
            out@.len() == i,
            out@[0] == normals@[0],
            seam == (Seam { tangent: tangents@[0], first: normals@[0], last: normals@.last() }),
            seam == (Seam { tangent: first_tangent, first, last }),
            forall|k: int|
                1 <= k < i ==> call_ensures(
                    twist,
                    (k as usize, (count - 1) as usize, tangents@[k], normals@[k], seam),
                    #[trigger] out@[k],
                ),
            forall|k: usize, n: V, s: Seam<V>|
                1 <= k < tangents@.len() ==> #[trigger] call_requires(
                    twist,
                    (k, (tangents@.len() - 1) as usize, tangents@[k as int], n, s),
                ),
        decreases count - i,
    {
        out.push(
            twist(
                i,
                count - 1,
                tangents[i],
                normals[i],
                Seam { tangent: first_tangent, first, last },
            ),
        );
        i = i + 1;
    }
    out
}

/// The moving frame of a sampled path: for each sample its tangent, its
/// normal and its binormal.
#[derive(Debug)]
pub struct FrenetFrame<V> {
    pub tangents: Vec<V>,
    pub normals: Vec<V>,
    pub binormals: Vec<V>,
}

impl<V> FrenetFrame<V> {
    /// The frame has a tangent, a normal and a binormal for each of at
    /// least two samples.
    pub open spec fn well_formed(&self) -> bool {
        &&& self.tangents@.len() >= 2
        &&& self.normals@.len() == self.tangents@.len()
        &&& self.binormals@.len() == self.tangents@.len()
    }
}

/// `normals` is the normal sequence of a path with the given tangents and
/// first normal: carried along by `transport` and, on a closed path,
/// corrected by `twist`.
pub open spec fn frame_normals<
    V,
    T: Fn(V, V, V) -> Option<V>,
    W: Fn(usize, usize, V, V, Seam<V>) -> V,
>(transport: T, twist: W, tangents: Seq<V>, first_normal: V, closed: bool, normals: Seq<V>) -> bool {
    if closed {
        exists|raw: Seq<V>| #[trigger]
            propagated(transport, tangents, first_normal, raw) && twisted(
                twist,
                tangents,
                raw,
                normals,
            )
    } else {
        propagated(transport, tangents, first_normal, normals)
    }
}

/// `binormals` holds, for each sample, what `binormal` makes of its tangent
/// and its normal.
pub open spec fn frame_binormals<V, B: Fn(V, V) -> V>(
    binormal: B,
    tangents: Seq<V>,
    normals: Seq<V>,
    binormals: Seq<V>,
) -> bool {
    &&& binormals.len() == tangents.len()
    &&& forall|i: int|
        0 <= i < tangents.len() ==> call_ensures(
            binormal,
            (tangents[i], normals[i]),
            #[trigger] binormals[i],
        )
}

/// The first normal of a path is seeded along the axis of the smallest
/// component of its first tangent: `first` is what `seed` makes of that
/// tangent and that axis.
pub open spec fn seeded<V, S: Fn(V, Axis) -> Option<V>>(
    seed: S,
    tangent: V,
    extent: (u64, u64, u64),
    first: Option<V>,
) -> bool {
    call_ensures(seed, (tangent, smallest_axis(extent.0, extent.1, extent.2)), first)
}

/// Builds the frames along a path from its tangents. `extent` holds the
/// magnitudes of the three components of the first tangent, in any common
/// unit. The first normal is what `seed` makes of the first tangent and the
/// axis along which it is shortest; the normals follow from it by
/// `transport`, sample after sample; on a closed path `twist` then spreads
/// the remaining twist over them; the binormal of each sample is what
/// `binormal` makes of its tangent and its final normal. A path of fewer
/// than two samples has no frames, nor has one whose first tangent gives
/// `seed` nothing to normalise.
pub fn compute_frenet_frames<
    V: Copy,
    S: Fn(V, Axis) -> Option<V>,
    T: Fn(V, V, V) -> Option<V>,
    W: Fn(usize, usize, V, V, Seam<V>) -> V,
    B: Fn(V, V) -> V,
>(
    tangents: Vec<V>,
    extent: (u64, u64, u64),
    closed: bool,
    seed: S,
    transport: T,
    twist: W,
    binormal: B,
) -> (frames: Result<FrenetFrame<V>, GeometryError>)
    requires
        tangents@.len() >= 2 ==> call_requires(
            seed,
            (tangents@[0], smallest_axis(extent.0, extent.1, extent.2)),
        ),
        forall|i: int, prev: V|
            1 <= i < tangents@.len() ==> #[trigger] call_requires(
                transport,
                (tangents@[i - 1], tangents@[i], prev),
            ),
        forall|i: usize, n: V, seam: Seam<V>|
            1 <= i < tangents@.len() ==> #[trigger] call_requires(
                twist,
                (i, (tangents@.len() - 1) as usize, tangents@[i as int], n, seam),
            ),
        forall|i: int, n: V|
            0 <= i < tangents@.len() ==> #[trigger] call_requires(binormal, (tangents@[i], n)),
    ensures
        tangents@.len() < 2 ==> frames is Err,
        frames matches Err(e) ==> {
            &&& e == GeometryError::DegenerateCurve
            &&& tangents@.len() < 2 || seeded(seed, tangents@[0], extent, None)
        },
        frames matches Ok(f) ==> {
            &&& f.well_formed()
            &&& f.tangents == tangents
            &&& seeded(seed, tangents@[0], extent, Some(f.normals@[0]))
            &&& frame_normals(transport, twist, tangents@, f.normals@[0], closed, f.normals@)
            &&& frame_binormals(binormal, tangents@, f.normals@, f.binormals@)
        },
{
    let count = tangents.len();
    if count < 2 {
        return Err(GeometryError::DegenerateCurve);
    }
    let first_normal = match seed(tangents[0], seed_axis(extent.0, extent.1, extent.2)) {
        Some(normal) => normal,
        None => {
            return Err(GeometryError::DegenerateCurve);
        },
    };
    let raw = propagate_normals(&tangents, first_normal, transport);
    let normals = distribute_twist(&tangents, raw, closed, twist);
    let mut binormals: Vec<V> = Vec::new();
    let mut i: usize = 0;
    while i < count
        invariant
            i <= count == normals@.len(),
            count == tangents@.len(),
            binormals@.len() == i,
            forall|k: int|
                0 <= k < i ==> call_ensures(
                    binormal,
                    (tangents@[k], normals@[k]),
                    #[trigger] binormals@[k],
                ),
            forall|k: int, n: V|
                0 <= k < tangents@.len() ==> #[trigger] call_requires(binormal, (tangents@[k], n)),
        decreases count - i,
    {
        binormals.push(binormal(tangents[i], normals[i]));
        i = i + 1;
    }
    Ok(FrenetFrame { tangents, normals, binormals })
}

/// Along a straight open path all frames are one and the same: where all
/// tangents are equal, nothing is rotated between equal tangents, and the
/// binormal is a function of tangent and normal, every normal is the first
/// normal and every binormal the first binormal.
pub proof fn lemma_straight_path_has_one_frame<
    V,
    T: Fn(V, V, V) -> Option<V>,
    W: Fn(usize, usize, V, V, Seam<V>) -> V,
    B: Fn(V, V) -> V,
>(transport: T, twist: W, binormal: B, tangents: Seq<V>, first_normal: V, normals: Seq<V>, binormals: Seq<V>)
    requires
        frame_normals(transport, twist, tangents, first_normal, false, normals),
        frame_binormals(binormal, tangents, normals, binormals),
        forall|i: int| 0 <= i < tangents.len() ==> #[trigger] tangents[i] == tangents[0],
        forall|t: V, prev: V, turn: Option<V>|
            #[trigger] call_ensures(transport, (t, t, prev), turn) ==> turn is None,
        forall|t: V, n: V, b: V, c: V|
            #[trigger] call_ensures(binormal, (t, n), b) && #[trigger] call_ensures(binormal, (t, n), c)
                ==> b == c,
    ensures
        forall|i: int| 0 <= i < normals.len() ==> #[trigger] normals[i] == first_normal,
        forall|i: int| 0 <= i < binormals.len() ==> #[trigger] binormals[i] == binormals[0],
{
    lemma_straight_path_keeps_normal(transport, tangents, first_normal, normals);
}

} // verus!
