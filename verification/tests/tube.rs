use rene::error::GeometryError;
use rene::frames::FrenetFrame;
use rene::tube::{generate_indices, pair_up, ring_slot, tube_path_indices, vertex_index, Tube};

#[test]
fn open_tube_of_three_rings_of_four() {
    let indices = generate_indices(3, 4, false);
    assert_eq!(indices.len(), 48);
    assert_eq!(&indices[0..6], &[0, 4, 1, 1, 4, 5]);
    assert_eq!(&indices[18..24], &[3, 7, 0, 0, 7, 4]);
    assert_eq!(&indices[24..30], &[4, 8, 5, 5, 8, 9]);
    assert_eq!(&indices[42..48], &[7, 11, 4, 4, 11, 8]);
    assert!(indices.iter().all(|&i| i < 12));
}

#[test]
fn closed_tube_joins_last_ring_to_first() {
    let indices = generate_indices(3, 4, true);
    assert_eq!(indices.len(), 72);
    assert_eq!(&indices[48..54], &[8, 0, 9, 9, 0, 1]);
    assert_eq!(&indices[66..72], &[11, 3, 8, 8, 3, 0]);
    assert!(indices.iter().all(|&i| i < 12));
}

#[test]
fn tubes_without_bands_or_slots_have_no_triangles() {
    assert!(generate_indices(0, 4, false).is_empty());
    assert!(generate_indices(0, 4, true).is_empty());
    assert!(generate_indices(1, 4, false).is_empty());
    assert!(generate_indices(5, 0, false).is_empty());
    assert!(generate_indices(5, 0, true).is_empty());
}

#[test]
fn single_slot_ring_wraps_onto_itself() {
    assert_eq!(generate_indices(2, 1, false), vec![0, 1, 0, 0, 1, 1]);
}

#[test]
fn vertex_layout_is_ring_major() {
    assert_eq!(vertex_index(4, 0, 0), 0);
    assert_eq!(vertex_index(4, 2, 3), 11);
    assert_eq!(ring_slot(4, 11), (2, 3));
    assert_eq!(ring_slot(4, 4), (1, 0));
    for index in 0..12 {
        let (ring, slot) = ring_slot(4, index);
        assert_eq!(vertex_index(4, ring, slot), index);
    }
}

fn frame_of(points: usize) -> FrenetFrame<(usize, usize)> {
    FrenetFrame {
        tangents: (0..points).map(|i| (1, i)).collect(),
        normals: (0..points).map(|i| (2, i)).collect(),
        binormals: (0..points).map(|i| (3, i)).collect(),
    }
}

fn path_of(points: usize) -> Vec<(usize, usize)> {
    (0..points).map(|i| (0, i)).collect()
}

#[test]
fn vertices_come_ring_after_ring() {
    let ring_vertex = |p: (usize, usize), n: (usize, usize), b: (usize, usize), j: usize, r: usize| {
        assert_eq!((p.0, n.0, b.0, r), (0, 2, 3, 4));
        assert_eq!((n.1, b.1), (p.1, p.1));
        ((p.1, j), (j, p.1))
    };
    let tube = Tube::new(path_of(3), frame_of(3), false, 4, ring_vertex).unwrap();
    assert_eq!(tube.vertices.len(), 12);
    assert_eq!(tube.normals.len(), 12);
    for ring in 0..3 {
        for slot in 0..4 {
            assert_eq!(tube.vertices[vertex_index(4, ring, slot)], (ring, slot));
            assert_eq!(tube.normals[ring * 4 + slot], (slot, ring));
        }
    }
    assert_eq!(tube.indices, generate_indices(3, 4, false));
    assert!(tube.indices.iter().all(|&i| (i as usize) < tube.vertices.len()));
    assert_eq!(tube.center_points, path_of(3));
    assert_eq!(tube.tangents_frame, frame_of(3).tangents);
    assert_eq!(tube.normals_frame, frame_of(3).normals);
    assert_eq!(tube.binormals_frame, frame_of(3).binormals);
    assert_eq!(tube.radial_segments, 4);
    assert!(!tube.closed);
}

#[test]
fn closed_tube_has_the_same_vertices_and_one_more_band() {
    let open = Tube::new(path_of(5), frame_of(5), false, 6, |p, _, _, j, _| ((p.1, j), (0, 0))).unwrap();
    let closed = Tube::new(path_of(5), frame_of(5), true, 6, |p, _, _, j, _| ((p.1, j), (0, 0))).unwrap();
    assert_eq!(open.vertices, closed.vertices);
    assert_eq!(open.vertices.len(), 30);
    assert_eq!(open.vertices[13], (2, 1));
    assert_eq!(open.indices.len(), 6 * 4 * 6);
    assert_eq!(closed.indices.len(), 6 * 5 * 6);
    assert_eq!(&closed.indices[..open.indices.len()], &open.indices[..]);
    assert!(closed.closed);
}

#[test]
fn path_of_one_point_is_degenerate() {
    let tube = Tube::new(path_of(1), frame_of(1), false, 4, |p, _, _, _, _| (p, p));
    assert_eq!(tube.err(), Some(GeometryError::DegenerateCurve));
    let tube = Tube::new(path_of(0), frame_of(0), true, 4, |p, _, _, _, _| (p, p));
    assert_eq!(tube.err(), Some(GeometryError::DegenerateCurve));
}

#[test]
fn narrow_rings_are_not_rejected() {
    let tube = Tube::new(path_of(2), frame_of(2), false, 2, |p, _, _, _, _| (p, p)).unwrap();
    assert_eq!(tube.indices, vec![0, 2, 1, 1, 2, 3, 1, 3, 0, 0, 3, 2]);
    let empty = Tube::new(path_of(2), frame_of(2), false, 0, |p, _, _, _, _| (p, p)).unwrap();
    assert!(empty.vertices.is_empty() && empty.indices.is_empty());
}

#[test]
fn sweep_of_two_points_and_three_steps() {
    let indices = tube_path_indices(2, 3);
    assert_eq!(indices, vec![0, 1, 4, 0, 4, 3, 1, 2, 5, 1, 5, 4, 2, 0, 3, 2, 3, 5]);
}

#[test]
fn sweep_sizes() {
    assert_eq!(tube_path_indices(16, 16).len(), 6 * 15 * 16);
    assert!(tube_path_indices(16, 16).iter().all(|&i| i < 256));
    assert!(tube_path_indices(1, 16).is_empty());
    assert!(tube_path_indices(4, 0).is_empty());
    assert!(tube_path_indices(4, -3).is_empty());
}

#[test]
fn frame_directions_stand_at_their_path_points() {
    let tube = Tube::new(path_of(3), frame_of(3), false, 4, |p, _, _, _, _| (p, p)).unwrap();
    let tangents = tube.tangents();
    let normals = tube.frame_normals();
    let binormals = tube.binormals();
    assert_eq!((tangents.len(), normals.len(), binormals.len()), (3, 3, 3));
    for i in 0..3 {
        assert_eq!((tangents[i].point, tangents[i].direction), ((0, i), (1, i)));
        assert_eq!((normals[i].point, normals[i].direction), ((0, i), (2, i)));
        assert_eq!((binormals[i].point, binormals[i].direction), ((0, i), (3, i)));
    }
}

#[test]
fn pairs_go_as_far_as_both_sequences() {
    let pairs = pair_up(&vec![1, 2, 3], &vec![10, 20]);
    assert_eq!(pairs.len(), 2);
    assert_eq!((pairs[1].point, pairs[1].direction), (2, 20));
    assert!(pair_up(&Vec::<u8>::new(), &vec![1]).is_empty());
}
