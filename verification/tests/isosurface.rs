use isomesh::get_vertex::{crossing_edge_samples_3D, crossing_edge_samples_4D};
use isomesh::isosurface::{
    get_connected_isosurface_3D, get_connected_isosurface_3D_no_skeleton,
    get_connected_isosurface_4D, get_connected_isosurface_4D_no_skeleton,
    get_cube_4D_with_nth_axis_as_normal, get_quad_3D_with_nth_axis_as_normal, parity_flag4,
};
use isomesh::lattice::{IVec3, IVec4};
use isomesh::sample_cloud::{SampleCloud3D, SampleCloud4D};
use std::collections::HashMap;

const VOXEL: f32 = 0.2;

fn capped_cylinder(x: f32, y: f32, z: f32) -> f32 {
    let side = (x * x + y * y).sqrt() - 1.0;
    let cap = z.abs() - 0.7;
    side.max(cap)
}

fn cylinder_field(p: IVec3) -> u32 {
    capped_cylinder(VOXEL * p.x as f32, VOXEL * p.y as f32, VOXEL * p.z as f32).to_bits()
}

fn lerp_crossing(ends: (u32, u32), low: f32, high: f32) -> f32 {
    let a = f32::from_bits(ends.0);
    let b = f32::from_bits(ends.1);
    low + (high - low) * (-a / (b - a))
}

fn place_3d(cell: IVec3, cloud: &SampleCloud3D) -> [f32; 3] {
    let mut position = [0.0f32; 3];
    for axis in 0..3 {
        let low = VOXEL * cell.get(axis) as f32;
        let high = low + VOXEL;
        let crossings = crossing_edge_samples_3D(cloud, cell, axis);
        position[axis] = if crossings.is_empty() {
            (low + high) * 0.5
        } else {
            crossings.iter().map(|&ends| lerp_crossing(ends, low, high)).sum::<f32>()
                / crossings.len() as f32
        };
    }
    position
}

fn edge_uses(triangles: &[[usize; 3]]) -> HashMap<(usize, usize), usize> {
    let mut uses = HashMap::new();
    for t in triangles {
        for (a, b) in [(t[0], t[1]), (t[0], t[2]), (t[1], t[2])] {
            *uses.entry((a.min(b), a.max(b))).or_insert(0) += 1;
        }
    }
    uses
}

#[test]
fn oriented_quad_has_its_normal_along_the_axis() {
    let (vertices, triangles) = get_quad_3D_with_nth_axis_as_normal(2);
    assert_eq!(
        vertices,
        vec![
            IVec3::new(0, 0, 0),
            IVec3::new(-1, 0, 0),
            IVec3::new(0, -1, 0),
            IVec3::new(-1, -1, 0)
        ]
    );
    assert_eq!(
        triangles,
        vec![
            [vertices[1], vertices[0], vertices[3]],
            [vertices[2], vertices[3], vertices[0]]
        ]
    );
    let (vertices, _) = get_quad_3D_with_nth_axis_as_normal(0);
    assert_eq!(
        vertices,
        vec![
            IVec3::new(0, 0, 0),
            IVec3::new(0, 0, -1),
            IVec3::new(0, -1, 0),
            IVec3::new(0, -1, -1)
        ]
    );
}

#[test]
fn capped_cylinder_mesh_is_closed_and_near_the_surface() {
    let mesh = get_connected_isosurface_3D_no_skeleton(
        &cylinder_field,
        &place_3d,
        IVec3::new(0, 0, 0),
        IVec3::new(25, 0, 0),
    )
    .unwrap();
    assert!(!mesh.vertices.is_empty());
    assert!(mesh.skeleton_indeces.is_empty());
    for triangle in &mesh.indeces {
        for &i in triangle {
            assert!(i < mesh.vertices.len());
        }
    }
    for (_, uses) in edge_uses(&mesh.indeces) {
        assert_eq!(uses, 2);
    }
    for v in &mesh.vertices {
        assert!(capped_cylinder(v[0], v[1], v[2]).abs() <= VOXEL);
    }
}

#[test]
fn cells_shared_by_pairs_get_one_vertex() {
    let field = |p: IVec3| ((p.x * p.x + p.y * p.y + p.z * p.z - 30) as f32).to_bits();
    let place = |cell: IVec3, _: &SampleCloud3D| cell;
    let mesh =
        get_connected_isosurface_3D_no_skeleton(&field, &place, IVec3::new(0, 0, 0), IVec3::new(9, 0, 0))
            .unwrap();
    let mut seen = std::collections::HashSet::new();
    for v in &mesh.vertices {
        assert!(seen.insert(*v));
    }
    let cloud = SampleCloud3D::new(&field, IVec3::new(0, 0, 0), IVec3::new(9, 0, 0)).unwrap();
    assert_eq!(mesh.indeces.len(), 2 * cloud.border_pairs.len());
}

#[test]
fn skeleton_of_a_coarser_surface_is_attached() {
    let fine = |p: IVec3| ((p.x * p.x + p.y * p.y + p.z * p.z - 30) as f32).to_bits();
    let coarse = |p: IVec3| ((p.x * p.x + p.y * p.y + p.z * p.z - 3) as f32).to_bits();
    let place = |cell: IVec3, _: &SampleCloud3D| cell;
    let main = get_connected_isosurface_3D_no_skeleton(
        &fine,
        &place,
        IVec3::new(0, 0, 0),
        IVec3::new(9, 0, 0),
    )
    .unwrap();
    let skeleton = get_connected_isosurface_3D_no_skeleton(
        &coarse,
        &place,
        IVec3::new(0, 0, 0),
        IVec3::new(3, 0, 0),
    )
    .unwrap();
    let mesh = get_connected_isosurface_3D(
        &fine,
        &place,
        IVec3::new(0, 0, 0),
        IVec3::new(9, 0, 0),
        &coarse,
        &place,
        IVec3::new(0, 0, 0),
        IVec3::new(3, 0, 0),
    )
    .unwrap();
    assert_eq!(mesh.vertices.len(), main.vertices.len() + skeleton.vertices.len());
    assert_eq!(mesh.indeces, main.indeces);
    assert_eq!(mesh.skeleton_indeces.len(), skeleton.vertices.len());
    for (i, point) in mesh.skeleton_indeces.iter().enumerate() {
        assert_eq!(point[0], main.vertices.len() + i);
    }
}

#[test]
fn crossing_edges_are_those_with_a_sign_change() {
    // positive exactly where x + y >= 1
    let field = |p: IVec3| ((p.x + p.y) as f32 - 0.5).to_bits();
    let mut cloud = SampleCloud3D {
        sample_map: HashMap::new(),
        border_pairs: Vec::new(),
    };
    for x in 0..2 {
        for y in 0..2 {
            for z in 0..2 {
                let p = IVec3::new(x, y, z);
                cloud.sample_map.insert(p.key_exec(), field(p));
            }
        }
    }
    let cell = IVec3::new(0, 0, 0);
    let neg = (-0.5f32).to_bits();
    let pos = (0.5f32).to_bits();
    // along x, the edges at y = 0 cross (for z = 0 and z = 1), those at y = 1 do not
    assert_eq!(crossing_edge_samples_3D(&cloud, cell, 0), vec![(neg, pos), (neg, pos)]);
    assert_eq!(crossing_edge_samples_3D(&cloud, cell, 1), vec![(neg, pos), (neg, pos)]);
    assert!(crossing_edge_samples_3D(&cloud, cell, 2).is_empty());
}

#[test]
fn parity_flag_tells_odd_coordinate_sums() {
    assert!(!parity_flag4(IVec4::new(0, 0, 0, 0)));
    assert!(parity_flag4(IVec4::new(1, 0, 0, 0)));
    assert!(parity_flag4(IVec4::new(-1, 2, -4, 0)));
    assert!(!parity_flag4(IVec4::new(-1, 2, -4, 5)));
    assert!(parity_flag4(IVec4::new(i32::MIN, i32::MAX, 0, 0)));
}

#[test]
fn mirrored_cube_flips_the_corner_coordinates() {
    let (plain, tetrahedra) = get_cube_4D_with_nth_axis_as_normal(3, false);
    let (mirrored, _) = get_cube_4D_with_nth_axis_as_normal(3, true);
    assert_eq!(plain[0], IVec4::new(-1, -1, -1, 0));
    assert_eq!(plain[7], IVec4::new(0, 0, 0, 0));
    assert_eq!(mirrored[0], IVec4::new(0, 0, 0, 0));
    assert_eq!(mirrored[7], IVec4::new(-1, -1, -1, 0));
    assert_eq!(tetrahedra.len(), 5);
    assert_eq!(tetrahedra[0], [plain[7], plain[1], plain[2], plain[4]]);
    let (along_x, _) = get_cube_4D_with_nth_axis_as_normal(0, false);
    assert_eq!(along_x[1], IVec4::new(-1, -1, -1, 0).with(0, 0).with(3, 0));
}

fn sphere_field_4d(p: IVec4) -> u32 {
    ((p.x * p.x + p.y * p.y + p.z * p.z + p.w * p.w - 6) as f32).to_bits()
}

#[test]
fn adjacent_cubes_cut_their_shared_face_along_the_same_diagonal() {
    // every face diagonal used by a tetrahedron joins two cells with odd coordinate sum
    let place = |cell: IVec4, _: &SampleCloud4D| cell;
    let mesh = get_connected_isosurface_4D_no_skeleton(
        &sphere_field_4d,
        &place,
        IVec4::new(0, 0, 0, 0),
        IVec4::new(5, 0, 0, 0),
    )
    .unwrap();
    assert!(!mesh.indeces.is_empty());
    let mut diagonals = 0;
    for tetrahedron in &mesh.indeces {
        for a in 0..4 {
            for b in (a + 1)..4 {
                let p = mesh.vertices[tetrahedron[a]];
                let q = mesh.vertices[tetrahedron[b]];
                let distance = (p.x - q.x).abs()
                    + (p.y - q.y).abs()
                    + (p.z - q.z).abs()
                    + (p.w - q.w).abs();
                assert!(distance == 1 || distance == 2);
                if distance == 2 {
                    diagonals += 1;
                    assert!(parity_flag4(p));
                    assert!(parity_flag4(q));
                }
            }
        }
    }
    assert!(diagonals > 0);
}

#[test]
fn four_dimensional_mesh_with_skeleton_has_valid_indices() {
    let place = |cell: IVec4, _: &SampleCloud4D| cell;
    let mesh = get_connected_isosurface_4D(
        &sphere_field_4d,
        &place,
        IVec4::new(0, 0, 0, 0),
        IVec4::new(5, 0, 0, 0),
        &sphere_field_4d,
        &place,
        IVec4::new(0, 0, 0, 0),
        IVec4::new(5, 0, 0, 0),
    )
    .unwrap();
    let half = mesh.vertices.len() / 2;
    assert_eq!(mesh.vertices[..half], mesh.vertices[half..]);
    for tetrahedron in &mesh.indeces {
        for &i in tetrahedron {
            assert!(i < half);
        }
    }
    let mut seen = std::collections::HashSet::new();
    assert!(!mesh.skeleton_indeces.is_empty());
    for edge in &mesh.skeleton_indeces {
        assert!(half <= edge[0] && edge[0] < mesh.vertices.len());
        assert!(half <= edge[1] && edge[1] < mesh.vertices.len());
        assert!(seen.insert(*edge));
    }
}

#[test]
fn crossing_edges_in_four_dimensions() {
    let field = |p: IVec4| ((p.w) as f32 - 0.5).to_bits();
    let mut cloud = SampleCloud4D {
        sample_map: HashMap::new(),
        border_pairs: Vec::new(),
    };
    for x in 0..2 {
        for y in 0..2 {
            for z in 0..2 {
                for w in 0..2 {
                    let p = IVec4::new(x, y, z, w);
                    cloud.sample_map.insert(p.key_exec(), field(p));
                }
            }
        }
    }
    let cell = IVec4::new(0, 0, 0, 0);
    assert_eq!(crossing_edge_samples_4D(&cloud, cell, 3).len(), 8);
    assert!(crossing_edge_samples_4D(&cloud, cell, 0).is_empty());
}

fn face_diagonals(base: IVec4, shared_x: i32) -> Vec<(IVec4, IVec4)> {
    // the cube around the pair from `base` along w, cut as the parity of `base` says
    let mirrored = !parity_flag4(base);
    let (_, tetrahedra) = get_cube_4D_with_nth_axis_as_normal(3, mirrored);
    let mut diagonals = Vec::new();
    for tetrahedron in &tetrahedra {
        let cells: Vec<IVec4> = tetrahedron.iter().map(|relative| relative.plus(base)).collect();
        for a in 0..4 {
            for b in (a + 1)..4 {
                let (p, q) = (cells[a], cells[b]);
                if p.x == shared_x && q.x == shared_x && p.manhattan_distance_exec(q) == 2 {
                    let ordered = if (p.y, p.z) <= (q.y, q.z) { (p, q) } else { (q, p) };
                    if !diagonals.contains(&ordered) {
                        diagonals.push(ordered);
                    }
                }
            }
        }
    }
    diagonals
}

#[test]
fn two_adjacent_cubes_agree_on_the_diagonal_of_their_shared_face() {
    for base in [
        IVec4::new(0, 0, 0, 0),
        IVec4::new(3, -2, 7, 1),
        IVec4::new(-5, 4, 4, -9),
        IVec4::new(10, 11, 12, 13),
    ] {
        let neighbour = base.plus(IVec4::new(1, 0, 0, 0));
        // the cells of the first cube with the largest x are those of the second with the smallest
        let from_first = face_diagonals(base, base.x);
        let from_second = face_diagonals(neighbour, base.x);
        assert_eq!(from_first.len(), 1);
        assert_eq!(from_first, from_second);
    }
}
