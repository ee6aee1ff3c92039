use vstd::prelude::*;
use vstd::arithmetic::mul::lemma_mul_inequality;
use crate::error::GeometryError;

verus! {

/// What the sampler asks of a curve besides its positions: how finely the
/// parameter range is cut when its arc length is tabulated.
pub trait Curve {
    /// Number of equal parameter steps between the entries of the arc-length
    /// table: 200, unless the curve supplies a number of its own.
    fn arc_length_divisions(&self) -> (n: usize)
        default_ensures
            n == 200,
    {
        200
    }
}

/// One turn of a helix around the x axis, tabulated at the default density.
#[derive(Clone, Copy, Debug)]
pub struct SineCurve;

impl Curve for SineCurve {
    fn arc_length_divisions(&self) -> (n: usize)
        ensures
            n == 200,
    {
        200
    }
}

/// Samples a curve at `divisions + 1` parameters, evenly spaced from its
/// start to its end. `evaluate` is handed a step `d` and the number of
/// divisions and returns the position at the parameter `d / divisions`, or
/// nothing where the curve has none. Sampling is all or nothing: the first
/// sample without a position fails the whole call.
pub fn get_points<T, F: Fn(usize, usize) -> Option<T>>(divisions: usize, evaluate: F) -> (points:
    Result<Vec<T>, GeometryError>)
    requires
        forall|d: usize| d <= divisions ==> #[trigger] call_requires(evaluate, (d, divisions)),
    ensures
        points matches Ok(p) ==> {
            &&& p@.len() == divisions + 1
            &&& forall|d: int|
                0 <= d <= divisions ==> call_ensures(
                    evaluate,
                    (d as usize, divisions),
                    Some(#[trigger] p@[d]),
                )
        },
        points matches Err(e) ==> {
            &&& e == GeometryError::InvalidCurveDomain
            &&& exists|d: usize|
                d <= divisions && #[trigger] call_ensures(evaluate, (d, divisions), None::<T>)
        },
{
    let mut points: Vec<T> = Vec::new();
    let mut d: usize = 0;
    loop
        invariant_except_break
            d <= divisions,
            points@.len() == d,
        invariant
            forall|k: int|
                0 <= k < points@.len() ==> call_ensures(
                    evaluate,
                    (k as usize, divisions),
                    Some(#[trigger] points@[k]),
                ),
            forall|k: usize| k <= divisions ==> #[trigger] call_requires(evaluate, (k, divisions)),
        ensures
            points@.len() == divisions + 1,
        decreases divisions - d,
    {
        match evaluate(d, divisions) {
            Some(point) => {
                points.push(point);
            },
            None => {
                return Err(GeometryError::InvalidCurveDomain);
            },
        }
        if d == divisions {
            break ;
        }
        d = d + 1;
    }
    Ok(points)
}

/// `tangent` is the direction of a curve between two of its parameters:
/// what `direction` makes of the positions that `evaluate` gives at
/// `before` and at `after`.
pub open spec fn tangent_between<P, T, E: Fn(P) -> Option<T>, N: Fn(T, T) -> Option<T>>(
    evaluate: E,
    direction: N,
    before: P,
    after: P,
    tangent: Option<T>,
) -> bool {
    exists|from: T, to: T|
        {
            &&& #[trigger] call_ensures(evaluate, (before,), Some(from))
            &&& #[trigger] call_ensures(evaluate, (after,), Some(to))
            &&& call_ensures(direction, (from, to), tangent)
        }
}

/// Estimates the unit tangent of a curve from its positions at two nearby
/// parameters, one on each side of the place in question or, at an end of
/// the curve, one at the end itself. `direction` is handed the two positions
/// and returns the normalised difference from the first to the second, or
/// nothing where they coincide. A parameter without a position is outside
/// the domain of the curve; positions without a direction make it
/// degenerate.
pub fn get_tangent<P, T, E: Fn(P) -> Option<T>, N: Fn(T, T) -> Option<T>>(
    before: P,
    after: P,
    evaluate: E,
    direction: N,
) -> (tangent: Result<T, GeometryError>)
    requires
        call_requires(evaluate, (before,)),
        call_requires(evaluate, (after,)),
        forall|from: T, to: T| #[trigger] call_requires(direction, (from, to)),
    ensures
        tangent matches Ok(t) ==> tangent_between(evaluate, direction, before, after, Some(t)),
        tangent matches Err(e) ==> {
            ||| e == GeometryError::InvalidCurveDomain && (call_ensures(
                evaluate,
                (before,),
                None::<T>,
            ) || call_ensures(evaluate, (after,), None::<T>))
            ||| e == GeometryError::DegenerateCurve && tangent_between(
                evaluate,
                direction,
                before,
                after,
                None,
            )
        },
{
    let from = match evaluate(before) {
        Some(point) => point,
        None => {
            return Err(GeometryError::InvalidCurveDomain);
        },
    };
    let to = match evaluate(after) {
        Some(point) => point,
        None => {
            return Err(GeometryError::InvalidCurveDomain);
        },
    };
    match direction(from, to) {
        Some(t) => Ok(t),
        None => Err(GeometryError::DegenerateCurve),
    }
}

/// Length of the path along its first `count` chords.
pub open spec fn chord_sum(chords: Seq<u32>, count: int) -> int
    decreases count,
{
    if count <= 0 {
        0
    } else {
        chord_sum(chords, count - 1) + chords[count - 1]
    }
}

/// What holds of every arc-length table: it starts at zero, never decreases,
/// and ends at a positive total length.
pub open spec fn is_arc_length_table(lengths: Seq<u64>) -> bool {
    &&& lengths.len() >= 2
    &&& lengths[0] == 0
    &&& forall|i: int, j: int| 0 <= i <= j < lengths.len() ==> lengths[i] <= lengths[j]
    &&& lengths.last() > 0
}

proof fn lemma_chord_sum_bounds(chords: Seq<u32>, count: int)
    requires
        0 <= count <= chords.len(),
    ensures
        0 <= chord_sum(chords, count) <= count * 0xffff_ffff,
    decreases count,
{
    if count > 0 {
        lemma_chord_sum_bounds(chords, count - 1);
    }
}

proof fn lemma_chord_sum_monotonic(chords: Seq<u32>, i: int, j: int)
    requires
        0 <= i <= j <= chords.len(),
    ensures
        chord_sum(chords, i) <= chord_sum(chords, j),
    decreases j - i,
{
    if i < j {
        lemma_chord_sum_monotonic(chords, i, j - 1);
    }
}

/// A curve parameter read off an arc-length table of `intervals` equal
/// parameter steps: the parameter is
/// `(index + offset_num / offset_den) / intervals`.
#[derive(Clone, Copy, Debug, PartialEq, Eq, Structural)]
pub struct ArcParameter {
    /// Whole table steps that lie before the parameter.
    pub index: usize,
    /// Numerator of the part of the step after `index` that lies before the
    /// parameter.
    pub offset_num: u128,
    /// Denominator of that part; never zero.
    pub offset_den: u128,
    /// Number of steps in the table.
    pub intervals: usize,
}

/// Numerator of the arc length that a lookup aims at: the given distance, or
/// else the fraction `u_num / u_den` of the total length.
pub open spec fn target_num(total: int, u_num: int, distance: Option<u64>) -> int {
    match distance {
        Some(d) => d as int,
        None => u_num * total,
    }
}

/// Denominator of the arc length that a lookup aims at.
pub open spec fn target_den(u_den: int, distance: Option<u64>) -> int {
    match distance {
        Some(_) => 1,
        None => u_den,
    }
}

/// `p` is where the arc length `tn / td` lies in the table. Where an entry
/// equals the target, `p` names the first such entry and has no offset.
/// Otherwise the target lies strictly between two neighbouring entries, and
/// the offset is the part of their distance that lies before the target.
pub open spec fn locates(lengths: Seq<u64>, tn: int, td: int, p: ArcParameter) -> bool {
    &&& p.intervals == lengths.len() - 1
    &&& 0 <= p.index < lengths.len()
    &&& if lengths[p.index as int] * td == tn {
        &&& forall|k: int| 0 <= k < p.index ==> (#[trigger] lengths[k]) * td < tn
        &&& p.offset_num == 0
        &&& p.offset_den == 1
    } else {
        &&& p.index + 1 < lengths.len()
        &&& lengths[p.index as int] * td < tn < lengths[p.index + 1] * td
        &&& p.offset_num == tn - lengths[p.index as int] * td
        &&& p.offset_den == (lengths[p.index + 1] - lengths[p.index as int]) * td
    }
}

/// `chords` holds, for each point but the last, what `distance` makes of it
/// and the point after it.
pub open spec fn measured<T, D: Fn(T, T) -> u32>(distance: D, points: Seq<T>, chords: Seq<u32>) -> bool {
    &&& points.len() == 0 ==> chords.len() == 0
    &&& points.len() >= 1 ==> chords.len() == points.len() - 1
    &&& forall|i: int|
        0 <= i < chords.len() ==> call_ensures(
            distance,
            (points[i], points[i + 1]),
            #[trigger] chords[i],
        )
}

/// `lengths` is the table of a path with the given chords: the entry of a
/// sample is the sum of the chords before it.
pub open spec fn tabulates(chords: Seq<u32>, lengths: Seq<u64>) -> bool {
    &&& lengths.len() == chords.len() + 1
    &&& forall|k: int| 0 <= k <= chords.len() ==> (#[trigger] lengths[k]) == chord_sum(chords, k)
}

/// The arc-length table of a sampled path: for each sample the length of
/// the path up to it, in the unit of the chords that it was built from.
#[derive(Debug)]
pub struct ArcLengthTable {
    lengths: Vec<u64>,
}

impl View for ArcLengthTable {
    type V = Seq<u64>;

    closed spec fn view(&self) -> Seq<u64> {
        self.lengths@
    }
}

impl ArcLengthTable {
    /// Every table starts at zero, never decreases and ends above zero.
    #[verifier::type_invariant]
    spec fn well_formed(&self) -> bool {
        is_arc_length_table(self.lengths@)
    }

    /// Accumulates the chords between consecutive samples into the table of
    /// a path: the entry of a sample is the length of the path up to it. A
    /// path without a chord, or whose chords all have length zero, has fewer
    /// than two distinct points and no table.
    pub fn new(chords: &Vec<u32>) -> (table: Result<ArcLengthTable, GeometryError>)
        requires
            chords@.len() <= 0x1_0000_0000,
        ensures
            table is Ok <==> chord_sum(chords@, chords@.len() as int) > 0,
            table matches Ok(t) ==> tabulates(chords@, t@) && is_arc_length_table(t@),
            table matches Err(e) ==> e == GeometryError::DegenerateCurve,
    {
        let mut lengths: Vec<u64> = Vec::new();
        lengths.push(0);
        let mut sum: u64 = 0;
        let mut p: usize = 0;
        while p < chords.len()
            invariant
                p <= chords@.len() <= 0x1_0000_0000,
                sum == chord_sum(chords@, p as int),
                lengths@.len() == p + 1,
                forall|k: int| 0 <= k <= p ==> (#[trigger] lengths@[k]) == chord_sum(chords@, k),
            decreases chords@.len() - p,
        {
            proof {
                lemma_chord_sum_bounds(chords@, p + 1);
            }
            sum = sum + chords[p] as u64;
            lengths.push(sum);
            p = p + 1;
        }
        if sum == 0 {
            return Err(GeometryError::DegenerateCurve);
        }
        proof {
            assert forall|i: int, j: int| 0 <= i <= j < lengths@.len() implies lengths@[i]
                <= lengths@[j] by {
                lemma_chord_sum_monotonic(chords@, i, j);
            }
        }
        Ok(ArcLengthTable { lengths })
    }

    /// Measures a sampled path and tabulates its arc length. `distance` is
    /// handed each point with the point after it and returns the length of
    /// the chord between them; the chords are accumulated as `new` does. A
    /// path without two distinct points has no table.
    pub fn measure<T: Copy, D: Fn(T, T) -> u32>(points: &Vec<T>, distance: D) -> (table: Result<
        ArcLengthTable,
        GeometryError,
    >)
        requires
            points@.len() <= 0x1_0000_0000,
            forall|i: int|
                0 <= i < points@.len() - 1 ==> #[trigger] call_requires(
                    distance,
                    (points@[i], points@[i + 1]),
                ),
        ensures
            exists|chords: Seq<u32>| #[trigger]
                measured(distance, points@, chords) && {
                    &&& table is Ok <==> chord_sum(chords, chords.len() as int) > 0
                    &&& table matches Ok(t) ==> tabulates(chords, t@) && is_arc_length_table(t@)
                },
            table matches Err(e) ==> e == GeometryError::DegenerateCurve,
    {
        let mut chords: Vec<u32> = Vec::new();
        let count = points.len();
        let mut i: usize = 0;
        while i + 1 < count
            invariant
                count == points@.len() <= 0x1_0000_0000,
                i + 1 <= count || (i == 0 && count == 0),
                chords@.len() == i,
                forall|k: int|
                    0 <= k < chords@.len() ==> call_ensures(
                        distance,
                        (points@[k], points@[k + 1]),
                        #[trigger] chords@[k],
                    ),
                forall|k: int|
                    0 <= k < points@.len() - 1 ==> #[trigger] call_requires(
                        distance,
                        (points@[k], points@[k + 1]),
                    ),
            decreases count - i,
        {
            chords.push(distance(points[i], points[i + 1]));
            i = i + 1;
        }
        let table = Self::new(&chords);
        proof {
            assert(measured(distance, points@, chords@));
        }
        table
    }

    /// The cumulative lengths, one per sample.
    pub fn get_lengths(&self) -> (lengths: &Vec<u64>)
        ensures
            lengths@ == self@,
            is_arc_length_table(lengths@),
    {
        proof {
            use_type_invariant(self);
        }
        &self.lengths
    }

    /// Total length of the path: the last entry of the table.
    pub fn get_length(&self) -> (total: u64)
        ensures
            total == self@.last(),
            total > 0,
    {
        proof {
            use_type_invariant(self);
        }
        self.lengths[self.lengths.len() - 1]
    }

    /// Maps an arc length to the curve parameter at which the path has run
    /// that far: the explicit `distance` where one is given, else the
    /// fraction `u_num / u_den` of the total length. A binary search finds
    /// the first table entry that reaches the target; between two entries the
    /// parameter is interpolated linearly.
    pub fn get_u_to_t_mapping(&self, u_num: u64, u_den: u64, distance: Option<u64>) -> (t:
        ArcParameter)
        requires
            match distance {
                Some(d) => d <= self@.last(),
                None => u_num <= u_den && u_den > 0,
            },
        ensures
            locates(
                self@,
                target_num(self@.last() as int, u_num as int, distance),
                target_den(u_den as int, distance),
                t,
            ),
    {
        proof {
            use_type_invariant(self);
        }
        let last: usize = self.lengths.len() - 1;
        let total: u64 = self.lengths[last];
        let ghost lengths = self.lengths@;
        let (tn, td): (u128, u64) = match distance {
            Some(d) => (d as u128, 1u64),
            None => {
                assert(u_num * total <= 0xffff_ffff_ffff_ffff * 0xffff_ffff_ffff_ffff)
                    by (nonlinear_arith)
                    requires
                        0 <= u_num <= 0xffff_ffff_ffff_ffff,
                        0 <= total <= 0xffff_ffff_ffff_ffff,
                ;
                ((u_num as u128) * (total as u128), u_den)
            },
        };
        assert(total * td >= tn) by (nonlinear_arith)
            requires
                td >= 1,
                total >= 0,
                match distance {
                    Some(d) => td == 1 && tn == d && d <= total,
                    None => td == u_den && tn == u_num * total && u_num <= u_den,
                },
        ;
        let mut low: usize = 0;
        let mut high: usize = last;
        while low < high
            invariant
                lengths == self.lengths@,
                is_arc_length_table(lengths),
                low <= high <= last,
                last == lengths.len() - 1,
                td >= 1,
                forall|k: int| 0 <= k < low ==> (#[trigger] lengths[k]) * td < tn,
                lengths[high as int] * td >= tn,
            decreases high - low,
        {
            let mid: usize = low + (high - low) / 2;
            let entry: u64 = self.lengths[mid];
            assert(entry * td <= 0xffff_ffff_ffff_ffff * 0xffff_ffff_ffff_ffff) by (nonlinear_arith)
                requires
                    0 <= entry <= 0xffff_ffff_ffff_ffff,
                    0 <= td <= 0xffff_ffff_ffff_ffff,
            ;
            if (entry as u128) * (td as u128) < tn {
                proof {
                    assert forall|k: int| 0 <= k < mid + 1 implies (#[trigger] lengths[k]) * td
                        < tn by {
                        lemma_mul_inequality(lengths[k] as int, entry as int, td as int);
                    }
                }
                low = mid + 1;
            } else {
                high = mid;
            }
        }
        let reached: u64 = self.lengths[low];
        assert(reached * td <= 0xffff_ffff_ffff_ffff * 0xffff_ffff_ffff_ffff) by (nonlinear_arith)
            requires
                0 <= reached <= 0xffff_ffff_ffff_ffff,
                0 <= td <= 0xffff_ffff_ffff_ffff,
        ;
        if (reached as u128) * (td as u128) == tn {
            ArcParameter { index: low, offset_num: 0, offset_den: 1, intervals: last }
        } else {
            // the table starts at zero, which no target lies below: the
            // entry that reaches past the target is not the first
            assert(low > 0);
            let before: u64 = self.lengths[low - 1];
            assert(before < reached);
            assert((reached - before) * td == reached * td - before * td) by (nonlinear_arith);
            let span: u64 = reached - before;
            ArcParameter {
                index: low - 1,
                offset_num: tn - (before as u128) * (td as u128),
                offset_den: (span as u128) * (td as u128),
                intervals: last,
            }
        }
    }
}

/// A table holds at most one location of an arc length.
pub proof fn lemma_location_unique(lengths: Seq<u64>, tn: int, td: int, p: ArcParameter, q: ArcParameter)
    requires
        is_arc_length_table(lengths),
        td >= 1,
        locates(lengths, tn, td, p),
        locates(lengths, tn, td, q),
    ensures
        p == q,
{
    lemma_location_order(lengths, tn, td, p, q);
    lemma_location_order(lengths, tn, td, q, p);
}

/// Of two locations of one arc length, the second does not lie before the
/// first.
proof fn lemma_location_order(lengths: Seq<u64>, tn: int, td: int, p: ArcParameter, q: ArcParameter)
    requires
        is_arc_length_table(lengths),
        td >= 1,
        locates(lengths, tn, td, p),
        locates(lengths, tn, td, q),
    ensures
        p.index <= q.index,
{
    let a = p.index as int;
    let b = q.index as int;
    if b < a {
        if lengths[b] * td == tn {
            if lengths[a] * td != tn {
                lemma_mul_inequality(lengths[b] as int, lengths[a] as int, td);
            }
        } else {
            lemma_mul_inequality(lengths[b + 1] as int, lengths[a] as int, td);
        }
    }
}

/// A located parameter lies in the unit range: at most `intervals` whole
/// steps, an offset below one step, and no offset after the last step.
pub proof fn lemma_parameter_in_range(lengths: Seq<u64>, tn: int, td: int, p: ArcParameter)
    requires
        is_arc_length_table(lengths),
        td >= 1,
        locates(lengths, tn, td, p),
    ensures
        p.index <= p.intervals,
        0 <= p.offset_num < p.offset_den,
        p.index == p.intervals ==> p.offset_num == 0,
{
    let a = p.index as int;
    if lengths[a] * td != tn {
        assert((lengths[a + 1] - lengths[a]) * td == lengths[a + 1] * td - lengths[a] * td)
            by (nonlinear_arith);
    }
}

/// The fraction zero of the total length maps to the parameter zero.
pub proof fn lemma_start_maps_to_zero(lengths: Seq<u64>, u_den: int, p: ArcParameter)
    requires
        is_arc_length_table(lengths),
        u_den >= 1,
        locates(lengths, target_num(lengths.last() as int, 0, None), target_den(u_den, None), p),
    ensures
        p.index == 0,
        p.offset_num == 0,
{
}

/// The whole of the total length maps to a table entry without offset. That
/// entry is the last, and the parameter one, exactly on a path whose last
/// chord has a length; where the path ends in chords of length zero, it is
/// the first entry that holds the total.
pub proof fn lemma_end_maps_to_one(lengths: Seq<u64>, u_den: int, p: ArcParameter)
    requires
        is_arc_length_table(lengths),
        u_den >= 1,
        locates(lengths, target_num(lengths.last() as int, u_den, None), target_den(u_den, None), p),
    ensures
        p.offset_num == 0,
        lengths[p.index as int] == lengths.last(),
        p.index == p.intervals <==> lengths[lengths.len() - 2] < lengths.last(),
{
    let a = p.index as int;
    let total = lengths.last() as int;
    assert(u_den * total == total * u_den) by (nonlinear_arith);
    if lengths[a] * u_den == total * u_den {
        assert(lengths[a] == total) by (nonlinear_arith)
            requires
                lengths[a] * u_den == total * u_den,
                u_den >= 1,
        ;
    } else {
        lemma_mul_inequality(lengths[a + 1] as int, total, u_den);
    }
}

} // verus!
