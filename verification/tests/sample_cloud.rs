use isomesh::border_pair::{BorderPair3D, BorderPair3DRelativeNeighborSet};
use isomesh::initial_border_pair::{get_initial_border_pair_3D, ivec3_midpoint};
use isomesh::lattice::{ivec3_manhattan_magnitude, IVec3};
use isomesh::sample_cloud::SampleCloud3D;

fn sphere_field(radius_squared: i32) -> impl Fn(IVec3) -> u32 {
    move |p: IVec3| ((p.x * p.x + p.y * p.y + p.z * p.z - radius_squared) as f32).to_bits()
}

#[test]
fn manhattan_magnitude_adds_absolute_values() {
    assert_eq!(ivec3_manhattan_magnitude(IVec3::new(-3, 4, -5)), 12);
    assert_eq!(ivec3_manhattan_magnitude(IVec3::new(0, 0, 0)), 0);
}

#[test]
fn midpoint_of_distant_points_halves_toward_first() {
    assert_eq!(
        ivec3_midpoint(IVec3::new(0, 0, 0), IVec3::new(5, -5, 2)),
        IVec3::new(2, -2, 1)
    );
    assert_eq!(
        ivec3_midpoint(IVec3::new(5, -5, 2), IVec3::new(0, 0, 0)),
        IVec3::new(3, -3, 1)
    );
}

#[test]
fn midpoint_of_near_points_moves_along_first_differing_axis() {
    assert_eq!(
        ivec3_midpoint(IVec3::new(0, 0, 0), IVec3::new(0, 1, -1)),
        IVec3::new(0, 1, 0)
    );
    assert_eq!(
        ivec3_midpoint(IVec3::new(7, 7, 7), IVec3::new(7, 7, 7)),
        IVec3::new(7, 7, 7)
    );
}

#[test]
fn border_pair_is_ordered_along_its_axis() {
    let pair = BorderPair3D::new(IVec3::new(1, 2, 3), IVec3::new(1, 1, 3));
    assert_eq!(pair.A, IVec3::new(1, 1, 3));
    assert_eq!(pair.B, IVec3::new(1, 2, 3));
    assert_eq!(pair.axis_index, 1);
}

#[test]
fn neighbor_set_has_sixteen_points_and_thirty_two_pairs() {
    for axis in 0..3 {
        let set = BorderPair3DRelativeNeighborSet::new(axis);
        let parent = BorderPair3D::new(IVec3::new(0, 0, 0), IVec3::new(0, 0, 0).with(axis, 1));
        let points = set.absolute_points(parent);
        let pairs = set.absolute_border_pairs(parent);
        assert_eq!(points.len(), 16);
        // 18 points in a 3 x 3 x 2 block: 2 * (2*3*2) edges across + 9 along, minus the pair itself
        assert_eq!(pairs.len(), 12 + 12 + 9 - 1);
        assert!(!pairs.contains(&parent));
        for pair in &pairs {
            assert_eq!(
                (pair.B.x - pair.A.x) + (pair.B.y - pair.A.y) + (pair.B.z - pair.A.z),
                1
            );
        }
    }
}

#[test]
fn initial_pair_straddles_the_sphere() {
    let field = sphere_field(30);
    let pair = get_initial_border_pair_3D(&field, IVec3::new(0, 0, 0), IVec3::new(16, 0, 0));
    assert_eq!(pair.A, IVec3::new(5, 0, 0));
    assert_eq!(pair.B, IVec3::new(6, 0, 0));
    assert_eq!(pair.axis_index, 0);
}

#[test]
fn every_border_pair_of_a_sphere_crosses_the_surface() {
    let field = sphere_field(30);
    let cloud = SampleCloud3D::new(&field, IVec3::new(0, 0, 0), IVec3::new(16, 0, 0)).unwrap();
    assert!(!cloud.border_pairs.is_empty());
    let positive = |p: IVec3| f32::from_bits(field(p)) > 0.0;
    for pair in &cloud.border_pairs {
        let d = IVec3::new(pair.B.x - pair.A.x, pair.B.y - pair.A.y, pair.B.z - pair.A.z);
        assert_eq!(ivec3_manhattan_magnitude(d), 1);
        assert_eq!(d.get(pair.axis_index), 1);
        assert_ne!(positive(pair.A), positive(pair.B));
        assert_eq!(cloud.sample(pair.A), Some(field(pair.A)));
    }
    // the search finds every sign change of the sphere
    let mut expected = 0;
    for x in -8..8 {
        for y in -8..8 {
            for z in -8..8 {
                let p = IVec3::new(x, y, z);
                for axis in 0..3 {
                    let q = p.with(axis, p.get(axis) + 1);
                    if positive(p) != positive(q) {
                        expected += 1;
                        assert!(cloud.border_pairs.contains(&BorderPair3D::new(p, q)));
                    }
                }
            }
        }
    }
    assert_eq!(cloud.border_pairs.len(), expected);
}

#[test]
fn a_second_sphere_is_not_found() {
    // two spheres far apart: only the one between the seeds is walked
    let field = |p: IVec3| {
        let a = p.x * p.x + p.y * p.y + p.z * p.z - 10;
        let q = p.x - 40;
        let b = q * q + p.y * p.y + p.z * p.z - 10;
        (a.min(b) as f32).to_bits()
    };
    let cloud = SampleCloud3D::new(&field, IVec3::new(0, 0, 0), IVec3::new(8, 0, 0)).unwrap();
    for pair in &cloud.border_pairs {
        assert!(pair.A.x < 20);
    }
}

#[test]
fn search_gives_up_at_the_end_of_the_lattice() {
    // a sphere around a point three steps from the largest coordinate
    let field = |p: IVec3| {
        let x = p.x as i64 - (i32::MAX as i64 - 3);
        let (y, z) = (p.y as i64, p.z as i64);
        ((x * x + y * y + z * z - 30) as f32).to_bits()
    };
    let result = SampleCloud3D::new(
        &field,
        IVec3::new(i32::MAX - 3, 0, 0),
        IVec3::new(i32::MAX - 3, 10, 0),
    );
    match result {
        Ok(_) => panic!("the sphere does not fit into the lattice"),
        Err(pair) => assert!(pair.A.x > i32::MAX - 2),
    }
}
