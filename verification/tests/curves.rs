use rene::curves::{get_points, get_tangent, ArcLengthTable, ArcParameter, Curve, SineCurve};
use rene::error::GeometryError;

struct Coarse;

impl Curve for Coarse {
    fn arc_length_divisions(&self) -> usize {
        8
    }
}

struct Plain;

impl Curve for Plain {}

fn value(p: ArcParameter) -> f64 {
    (p.index as f64 + p.offset_num as f64 / p.offset_den as f64) / p.intervals as f64
}

#[test]
fn sine_curve_uses_the_default_divisions() {
    assert_eq!(SineCurve.arc_length_divisions(), 200);
    assert_eq!(Plain.arc_length_divisions(), 200);
    assert_eq!(Coarse.arc_length_divisions(), 8);
}

#[test]
fn sampling_is_all_or_nothing() {
    assert_eq!(get_points(2, |d, n| Some((d, n))), Ok(vec![(0, 2), (1, 2), (2, 2)]));
    assert_eq!(
        get_points(4, |d, _| if d == 3 { None } else { Some(d) }),
        Err(GeometryError::InvalidCurveDomain)
    );
    assert_eq!(get_points(0, |_, _| None::<u8>), Err(GeometryError::InvalidCurveDomain));
    assert_eq!(get_points(0, |d, _| Some(d)), Ok(vec![0]));
}

#[test]
fn samples_are_evenly_spaced_parameters() {
    let points = get_points(200, |d, n| Some(d as f32 / n as f32)).unwrap();
    assert_eq!(points.len(), 201);
    assert_eq!(points[0], 0.0);
    assert_eq!(points[50], 0.25);
    assert_eq!(points[200], 1.0);
}

#[test]
fn sampling_stops_at_the_first_gap() {
    let calls = std::cell::Cell::new(0);
    let result = get_points(10, |d, _| {
        calls.set(calls.get() + 1);
        if d >= 2 {
            None
        } else {
            Some(d)
        }
    });
    assert_eq!(result, Err(GeometryError::InvalidCurveDomain));
    assert_eq!(calls.get(), 3);
}

#[test]
fn table_accumulates_chords() {
    let table = ArcLengthTable::new(&vec![3, 0, 4, 5]).unwrap();
    assert_eq!(table.get_lengths(), &vec![0, 3, 3, 7, 12]);
    assert_eq!(table.get_length(), 12);
}

#[test]
fn table_is_monotonic_and_ends_at_total() {
    let chords: Vec<u32> = (0..200).map(|k| (k * 7919) % 1000).collect();
    let table = ArcLengthTable::new(&chords).unwrap();
    let lengths = table.get_lengths();
    assert_eq!(lengths.len(), 201);
    assert_eq!(lengths[0], 0);
    assert!(lengths.windows(2).all(|w| w[0] <= w[1]));
    assert_eq!(*lengths.last().unwrap(), table.get_length());
    assert_eq!(table.get_length(), chords.iter().map(|&c| c as u64).sum::<u64>());
}

#[test]
fn largest_chords_do_not_overflow() {
    let table = ArcLengthTable::new(&vec![u32::MAX, u32::MAX]).unwrap();
    assert_eq!(table.get_length(), 2 * (u32::MAX as u64));
}

#[test]
fn path_without_length_is_degenerate() {
    assert_eq!(ArcLengthTable::new(&vec![]).err(), Some(GeometryError::DegenerateCurve));
    assert_eq!(ArcLengthTable::new(&vec![0, 0, 0]).err(), Some(GeometryError::DegenerateCurve));
}

#[test]
fn exact_entries_map_to_their_step() {
    let table = ArcLengthTable::new(&vec![2, 2, 4]).unwrap();
    let at = |d| table.get_u_to_t_mapping(0, 1, Some(d));
    assert_eq!(at(0), ArcParameter { index: 0, offset_num: 0, offset_den: 1, intervals: 3 });
    assert_eq!(at(2), ArcParameter { index: 1, offset_num: 0, offset_den: 1, intervals: 3 });
    assert_eq!(at(4), ArcParameter { index: 2, offset_num: 0, offset_den: 1, intervals: 3 });
    assert_eq!(at(8), ArcParameter { index: 3, offset_num: 0, offset_den: 1, intervals: 3 });
}

#[test]
fn distances_between_entries_are_interpolated() {
    let table = ArcLengthTable::new(&vec![2, 2, 4]).unwrap();
    let at = |d| table.get_u_to_t_mapping(0, 1, Some(d));
    assert_eq!(at(1), ArcParameter { index: 0, offset_num: 1, offset_den: 2, intervals: 3 });
    assert_eq!(at(3), ArcParameter { index: 1, offset_num: 1, offset_den: 2, intervals: 3 });
    assert_eq!(at(5), ArcParameter { index: 2, offset_num: 1, offset_den: 4, intervals: 3 });
    assert_eq!(at(7), ArcParameter { index: 2, offset_num: 3, offset_den: 4, intervals: 3 });
    assert_eq!(value(at(5)), (2.0 + 0.25) / 3.0);
}

#[test]
fn fractions_of_the_total_length() {
    let table = ArcLengthTable::new(&vec![2, 2, 4]).unwrap();
    let half = table.get_u_to_t_mapping(1, 2, None);
    assert_eq!(half, ArcParameter { index: 2, offset_num: 0, offset_den: 1, intervals: 3 });
    let third = table.get_u_to_t_mapping(1, 3, None);
    // a third of 8 lies two thirds of the way from 2 to 4
    assert_eq!(third, ArcParameter { index: 1, offset_num: 2, offset_den: 6, intervals: 3 });
    let most = table.get_u_to_t_mapping(7, 8, None);
    assert_eq!(most, ArcParameter { index: 2, offset_num: 24, offset_den: 32, intervals: 3 });
}

#[test]
fn ends_of_the_range_map_to_the_ends() {
    let table = ArcLengthTable::new(&vec![2, 2, 4]).unwrap();
    for den in [1u64, 2, 7, u64::MAX] {
        let start = table.get_u_to_t_mapping(0, den, None);
        assert_eq!((start.index, start.offset_num), (0, 0));
        assert_eq!(value(start), 0.0);
        let end = table.get_u_to_t_mapping(den, den, None);
        assert_eq!((end.index, end.offset_num, end.intervals), (3, 0, 3));
        assert_eq!(value(end), 1.0);
    }
}

#[test]
fn repeated_entries_map_to_the_first() {
    let table = ArcLengthTable::new(&vec![0, 5, 0, 0]).unwrap();
    assert_eq!(table.get_lengths(), &vec![0, 0, 5, 5, 5]);
    let start = table.get_u_to_t_mapping(0, 1, None);
    assert_eq!((start.index, start.offset_num), (0, 0));
    let end = table.get_u_to_t_mapping(1, 1, None);
    assert_eq!((end.index, end.offset_num, end.intervals), (2, 0, 4));
    let inside = table.get_u_to_t_mapping(0, 1, Some(2));
    assert_eq!(inside, ArcParameter { index: 1, offset_num: 2, offset_den: 5, intervals: 4 });
}

#[test]
fn explicit_distance_overrides_the_fraction() {
    let table = ArcLengthTable::new(&vec![2, 2, 4]).unwrap();
    assert_eq!(table.get_u_to_t_mapping(1, 1, Some(2)), table.get_u_to_t_mapping(0, 1, Some(2)));
}

#[test]
fn lookup_with_the_largest_values() {
    let table = ArcLengthTable::new(&vec![u32::MAX; 4]).unwrap();
    let p = table.get_u_to_t_mapping(u64::MAX - 1, u64::MAX, None);
    assert_eq!(p.index, 3);
    assert!(p.offset_num < p.offset_den);
    assert_eq!(p.intervals, 4);
}

#[test]
fn measured_table_accumulates_the_distances_of_neighbours() {
    let points = vec![0i64, 3, 3, -1, 10];
    let table = ArcLengthTable::measure(&points, |a, b| (b - a).unsigned_abs() as u32).unwrap();
    assert_eq!(table.get_lengths(), &vec![0, 3, 3, 7, 18]);
    assert_eq!(table.get_length(), 18);
}

#[test]
fn measured_path_without_two_distinct_points_is_degenerate() {
    let distance = |a: i64, b: i64| (b - a).unsigned_abs() as u32;
    assert_eq!(ArcLengthTable::measure(&vec![], distance).err(), Some(GeometryError::DegenerateCurve));
    assert_eq!(ArcLengthTable::measure(&vec![4], distance).err(), Some(GeometryError::DegenerateCurve));
    assert_eq!(
        ArcLengthTable::measure(&vec![4, 4, 4], distance).err(),
        Some(GeometryError::DegenerateCurve)
    );
}

#[test]
fn table_of_a_sampled_line() {
    let points = get_points(4, |d, n| Some((d as f32 / n as f32) * 8.0)).unwrap();
    let table = ArcLengthTable::measure(&points, |a, b| ((b - a).abs() * 100.0) as u32).unwrap();
    assert_eq!(table.get_lengths(), &vec![0, 200, 400, 600, 800]);
    let quarter = table.get_u_to_t_mapping(1, 4, None);
    assert_eq!(value(quarter), 0.25);
    let three_eighths = table.get_u_to_t_mapping(3, 8, None);
    assert_eq!(value(three_eighths), 0.375);
}

#[test]
fn tangent_is_the_direction_between_two_positions() {
    let line = |t: f32| if (0.0..=1.0).contains(&t) { Some(3.0 * t + 1.0) } else { None };
    let sign = |from: f32, to: f32| if to == from { None } else { Some((to - from).signum()) };
    assert_eq!(get_tangent(0.25, 0.5, line, sign), Ok(1.0));
    assert_eq!(get_tangent(0.5, 0.25, line, sign), Ok(-1.0));
}

#[test]
fn tangent_outside_the_domain() {
    let line = |t: f32| if (0.0..=1.0).contains(&t) { Some(3.0 * t + 1.0) } else { None };
    let sign = |from: f32, to: f32| if to == from { None } else { Some((to - from).signum()) };
    assert_eq!(get_tangent(-0.1, 0.5, line, sign), Err(GeometryError::InvalidCurveDomain));
    assert_eq!(get_tangent(0.5, 1.5, line, sign), Err(GeometryError::InvalidCurveDomain));
}

#[test]
fn tangent_of_a_curve_that_stands_still() {
    let point = |_: f32| Some(2.0f32);
    let sign = |from: f32, to: f32| if to == from { None } else { Some((to - from).signum()) };
    assert_eq!(get_tangent(0.25, 0.5, point, sign), Err(GeometryError::DegenerateCurve));
}
