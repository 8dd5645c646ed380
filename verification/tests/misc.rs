use isomesh::border_pair::{
    unique_border_pairs_3D, unique_border_pairs_4D, BorderPair3D, BorderPair4D,
    BorderPair4DRelativeNeighborSet,
};
use isomesh::combinations::{
    combinations_constsize_closure, combinations_constsize_range, Length,
};
use isomesh::field::is_positive;
use isomesh::initial_border_pair::{get_initial_border_pair_4D, ivec4_midpoint};
use isomesh::lattice::{ivec4_manhattan_magnitude, IVec3, IVec4};
use isomesh::program_descriptor::{
    get_program_id, get_program_id_container, ProgramDescriptor, ProgramDescriptorGroup,
};
use isomesh::sample_cloud::SampleCloud4D;
use isomesh::visual_mode::VisualMode;

#[test]
fn zero_and_nan_are_not_positive() {
    assert!(is_positive(1.0f32.to_bits()));
    assert!(is_positive(f32::MIN_POSITIVE.to_bits()));
    assert!(is_positive(f32::INFINITY.to_bits()));
    assert!(is_positive(1u32));
    assert!(!is_positive(0.0f32.to_bits()));
    assert!(!is_positive((-0.0f32).to_bits()));
    assert!(!is_positive((-1.0f32).to_bits()));
    assert!(!is_positive(f32::NAN.to_bits()));
    assert!(!is_positive(f32::NEG_INFINITY.to_bits()));
    for value in [-3.5f32, -0.0, 0.0, 1e-30, 2.0, f32::MAX, f32::NAN] {
        assert_eq!(is_positive(value.to_bits()), value > 0.0);
    }
}

#[test]
fn repeated_border_pairs_are_kept_once() {
    let a = BorderPair3D::new(IVec3::new(0, 0, 0), IVec3::new(1, 0, 0));
    let b = BorderPair3D::new(IVec3::new(0, 0, 0), IVec3::new(0, 1, 0));
    let c = BorderPair3D::new(IVec3::new(5, -2, 0), IVec3::new(5, -2, 1));
    assert_eq!(unique_border_pairs_3D(vec![a, b, a, c, b, a]), vec![a, b, c]);
    assert_eq!(unique_border_pairs_3D(vec![]), vec![]);
    let p = BorderPair4D::new(IVec4::new(0, 0, 0, 7), IVec4::new(0, 0, 0, 8));
    let q = BorderPair4D::new(IVec4::new(0, 0, 0, 0), IVec4::new(0, 0, 0, 1));
    assert_eq!(unique_border_pairs_4D(vec![q, p, p, q]), vec![q, p]);
}

#[test]
fn range_combinations_start_at_the_start() {
    let pairs: Vec<[usize; 2]> = combinations_constsize_range::<2>(3, 6);
    assert_eq!(pairs, vec![[3, 4], [3, 5], [4, 5]]);
    let none: Vec<[usize; 2]> = combinations_constsize_range::<2>(3, 3);
    assert!(none.is_empty());
}

#[test]
fn closure_combinations_ask_the_closure() {
    let squares: Vec<[usize; 3]> = combinations_constsize_closure::<3, usize, _>(|i| i * i, 4);
    assert_eq!(squares, vec![[0, 1, 4], [0, 1, 9], [0, 4, 9], [1, 4, 9]]);
}

#[test]
fn lengths_of_vectors_and_arrays() {
    assert_eq!(vec![1, 2, 3].length(), 3);
    assert_eq!([0u8; 5].length(), 5);
}

#[test]
fn visual_modes_are_numbered_from_one() {
    assert_eq!(VisualMode::from_int(1), VisualMode::Normal3D);
    assert_eq!(VisualMode::from_int(2), VisualMode::Combined3D);
    assert_eq!(VisualMode::from_int(3), VisualMode::Degenerate3D);
    assert_eq!(VisualMode::from_int(4), VisualMode::Degenerate4D);
    assert_eq!(VisualMode::try_from_int(0), None);
    assert_eq!(VisualMode::try_from_int(5), None);
    assert_eq!(VisualMode::try_from_int(3), Some(VisualMode::Degenerate3D));
    assert_eq!(VisualMode::Combined3D.to_string(), "Combined3D");
    assert_eq!(VisualMode::Degenerate4D.to_string(), format!("{:?}", VisualMode::Degenerate4D));
}

#[test]
fn program_descriptors_compare_by_vertex_and_fragment_shader() {
    let plain = ProgramDescriptor::new("a.vert", "a.frag");
    let sliced = ProgramDescriptor::new_with_geometry("a.vert", "a.frag", "sliced.geom");
    let other = ProgramDescriptor::new("a.vert", "b.frag");
    assert_eq!(plain.geometry_shader_path, None);
    assert_eq!(sliced.geometry_shader_path, Some("sliced.geom"));
    assert!(plain.is_equal(&sliced));
    assert!(!plain.is_equal(&other));
    assert!(!other.is_equal(&ProgramDescriptor::new("b.vert", "b.frag")));
    let group = ProgramDescriptorGroup::new_trivial(sliced);
    assert_eq!(group.normal_3D, sliced);
    assert_eq!(group.degenerate_4D_skeleton, sliced);
}

#[test]
fn four_dimensional_points() {
    assert_eq!(ivec4_manhattan_magnitude(IVec4::new(-1, 2, -3, 4)), 10);
    assert_eq!(
        ivec4_midpoint(IVec4::new(0, 0, 0, 0), IVec4::new(4, -4, 1, 7)),
        IVec4::new(2, -2, 0, 3)
    );
    assert_eq!(
        ivec4_midpoint(IVec4::new(0, 0, 0, 0), IVec4::new(0, 0, 1, 1)),
        IVec4::new(0, 0, 1, 0)
    );
    let pair = BorderPair4D::new(IVec4::new(1, 1, 1, 1), IVec4::new(1, 1, 1, 0));
    assert_eq!(pair.A, IVec4::new(1, 1, 1, 0));
    assert_eq!(pair.axis_index, 3);
    assert_eq!(pair.to_array(), [pair.A, pair.B]);
}

#[test]
fn four_dimensional_neighbor_set() {
    for axis in 0..4 {
        let set = BorderPair4DRelativeNeighborSet::new(axis);
        let parent = BorderPair4D::new(IVec4::new(0, 0, 0, 0), IVec4::new(0, 0, 0, 0).with(axis, 1));
        assert_eq!(set.absolute_points(parent).len(), 52);
        // 54 points in a 3 x 3 x 3 x 2 block: 3 * (2*3*3*2) pairs across and 27 along
        let pairs = set.absolute_border_pairs(parent);
        assert_eq!(pairs.len(), 3 * 36 + 27 - 1);
        assert!(!pairs.contains(&parent));
    }
}

fn sphere_4d(p: IVec4) -> u32 {
    ((p.x * p.x + p.y * p.y + p.z * p.z + p.w * p.w - 6) as f32).to_bits()
}

#[test]
fn four_dimensional_search_finds_every_sign_change() {
    let start = get_initial_border_pair_4D(&sphere_4d, IVec4::new(0, 0, 0, 0), IVec4::new(0, 8, 0, 0));
    assert_eq!(start.A, IVec4::new(0, 2, 0, 0));
    assert_eq!(start.axis_index, 1);
    let cloud = SampleCloud4D::new(&sphere_4d, IVec4::new(0, 0, 0, 0), IVec4::new(0, 8, 0, 0)).unwrap();
    let positive = |p: IVec4| f32::from_bits(sphere_4d(p)) > 0.0;
    let mut expected = 0;
    for x in -4..4 {
        for y in -4..4 {
            for z in -4..4 {
                for w in -4..4 {
                    let p = IVec4::new(x, y, z, w);
                    for axis in 0..4 {
                        let q = p.with(axis, p.get(axis) + 1);
                        if positive(p) != positive(q) {
                            expected += 1;
                            assert!(cloud.border_pairs.contains(&BorderPair4D::new(p, q)));
                        }
                    }
                }
            }
        }
    }
    assert_eq!(cloud.border_pairs.len(), expected);
    for pair in &cloud.border_pairs {
        assert_ne!(positive(pair.A), positive(pair.B));
        assert_eq!(pair.B, pair.A.with(pair.axis_index, pair.A.get(pair.axis_index) + 1));
    }
}

#[test]
fn keys_tell_points_apart() {
    let span: u128 = 1 << 32;
    let half: u128 = 1 << 31;
    assert_eq!(IVec3::new(0, 0, 0).key_exec(), half + half * span + half * span * span);
    assert_eq!(IVec3::new(i32::MIN, i32::MIN, i32::MIN).key_exec(), 0);
    assert_eq!(IVec3::new(1, 0, 0).key_exec(), IVec3::new(0, 0, 0).key_exec() + 1);
    assert_eq!(IVec3::new(0, 1, 0).key_exec(), IVec3::new(0, 0, 0).key_exec() + span);
    assert_eq!(IVec4::new(i32::MAX, i32::MAX, i32::MAX, i32::MAX).key_exec(), u128::MAX);
    assert_eq!(
        isomesh::edges::EdgeIndeces::new(3, 2).key_exec(),
        2 * (1u128 << 64) + 3
    );
    assert!(IVec3::new(i32::MAX - 2, 0, i32::MIN + 2).is_inner_exec());
    assert!(!IVec3::new(i32::MAX - 1, 0, 0).is_inner_exec());
    assert!(!IVec4::new(0, 0, 0, i32::MIN + 1).is_inner_exec());
    assert_eq!(IVec3::new(1, 2, 3).swap_axis(0), IVec3::new(3, 2, 1));
    assert_eq!(IVec4::new(1, 2, 3, 4).swap_axis(1), IVec4::new(1, 4, 3, 2));
    assert_eq!(IVec3::new(1, 2, 3).plus(IVec3::new(-1, 0, 4)), IVec3::new(0, 2, 7));
    assert_eq!(IVec3::new(1, 2, 3).manhattan_distance_exec(IVec3::new(-1, 2, 5)), 4);
}

#[test]
fn program_ids_are_first_positions_in_the_table() {
    let table = [
        ProgramDescriptor::new("a.vert", "a.frag"),
        ProgramDescriptor::new("a.vert", "b.frag"),
        ProgramDescriptor::new_with_geometry("a.vert", "b.frag", "g.geom"),
        ProgramDescriptor::new("c.vert", "b.frag"),
    ];
    assert_eq!(get_program_id(&table, ProgramDescriptor::new("a.vert", "a.frag")), 0);
    // the geometry shader is not looked at, so the first equal one is found
    assert_eq!(
        get_program_id(&table, ProgramDescriptor::new_with_geometry("a.vert", "b.frag", "g.geom")),
        1
    );
    assert_eq!(get_program_id(&table, ProgramDescriptor::new("c.vert", "b.frag")), 3);
    let mut group = ProgramDescriptorGroup::new_trivial(table[3]);
    group.degenerate_3D = table[1];
    let ids = get_program_id_container(&table, &group);
    assert_eq!(ids.normal_3D, 3);
    assert_eq!(ids.normal_3D_skeleton, 3);
    assert_eq!(ids.degenerate_3D, 1);
    assert_eq!(ids.degenerate_4D_skeleton, 3);
}
