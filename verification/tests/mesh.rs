use isomesh::cell_topology::{cube_4D_discrete_vertices, quad_3D_discrete_vertices};
use isomesh::corner_signs::{all_bool_arrays, int_to_bool_array, CornerSigns, Sign};
use isomesh::edges::{all_edges, contains, flat_indeces, index_of, EdgeIndeces};
use isomesh::mesh::{keep_last_per_key, Mesh, Mesh3D, Mesh4D};
use isomesh::primitives::{cube_4D, cube_skeleton_edges, quad_3D};
use isomesh::sphere::{sphere_3D, sphere_3D_no_skeleton, sphere_4D_no_skeleton};
use isomesh::subdivide::octahedron_tetrahedra_positions;
use std::collections::HashSet;

type Point3 = [f32; 3];
type Point4 = [f32; 4];

fn mean3(a: Point3, b: Point3) -> Point3 {
    [(a[0] + b[0]) / 2.0, (a[1] + b[1]) / 2.0, (a[2] + b[2]) / 2.0]
}

fn mean4(a: Point4, b: Point4) -> Point4 {
    [
        (a[0] + b[0]) / 2.0,
        (a[1] + b[1]) / 2.0,
        (a[2] + b[2]) / 2.0,
        (a[3] + b[3]) / 2.0,
    ]
}

fn normalize3(v: Point3) -> Point3 {
    let l = (v[0] * v[0] + v[1] * v[1] + v[2] * v[2]).sqrt();
    [v[0] / l, v[1] / l, v[2] / l]
}

fn normalize4(v: Point4) -> Point4 {
    let l = (v[0] * v[0] + v[1] * v[1] + v[2] * v[2] + v[3] * v[3]).sqrt();
    [v[0] / l, v[1] / l, v[2] / l, v[3] / l]
}

fn quad_vertex(corner: &CornerSigns<2>) -> Point3 {
    let c = corner.map(-0.5f32, 0.5);
    [c[0], c[1], 0.0]
}

fn cube_vertex(corner: &CornerSigns<3>) -> Point4 {
    let c = corner.map(-0.5f32, 0.5);
    [c[0], c[1], c[2], 0.0]
}

#[test]
fn signs_map_and_flip() {
    assert_eq!(Sign::NEG.map(1, 2), 1);
    assert_eq!(Sign::POS.map(1, 2), 2);
    assert_eq!(Sign::NEG.neg(), Sign::POS);
    assert_eq!(Sign::POS.neg(), Sign::NEG);
}

#[test]
fn bool_arrays_hold_binary_digits() {
    assert_eq!(int_to_bool_array::<3>(6), [false, true, true]);
    assert_eq!(
        all_bool_arrays::<2>(),
        vec![[false, false], [true, false], [false, true], [true, true]]
    );
}

#[test]
fn corners_are_numbered_by_their_negative_axes() {
    let corners = CornerSigns::<2>::all();
    assert_eq!(
        corners,
        vec![
            CornerSigns([Sign::POS, Sign::POS]),
            CornerSigns([Sign::NEG, Sign::POS]),
            CornerSigns([Sign::POS, Sign::NEG]),
            CornerSigns([Sign::NEG, Sign::NEG]),
        ]
    );
    assert_eq!(CornerSigns::<3>::all().len(), 8);
    assert_eq!(CornerSigns::<2>::NEG(), corners[3]);
    assert_eq!(CornerSigns::<2>::POS(), corners[0]);
    assert_eq!(CornerSigns::from_bools([true, false]), corners[1]);
    assert_eq!(corners[1].get(0), Sign::NEG);
}

#[test]
fn match_count_counts_equal_signs() {
    let a = CornerSigns([Sign::POS, Sign::NEG, Sign::POS]);
    let b = CornerSigns([Sign::POS, Sign::POS, Sign::NEG]);
    assert_eq!(a.match_count(&b), 1);
    assert_eq!(a.match_count(&a), 3);
    assert_eq!(CornerSigns::<3>::NEG().match_count(&CornerSigns::<3>::POS()), 0);
}

#[test]
fn corner_map_picks_by_sign() {
    assert_eq!(CornerSigns([Sign::POS, Sign::NEG]).map(-1, 0), [0, -1]);
}

#[test]
fn edges_are_stored_smaller_index_first() {
    assert_eq!(EdgeIndeces::new(5, 2), EdgeIndeces { A: 2, B: 5 });
    assert_eq!(EdgeIndeces::new(2, 5), EdgeIndeces { A: 2, B: 5 });
    assert!(EdgeIndeces::new(5, 2).has_index(&5));
    assert!(!EdgeIndeces::new(5, 2).has_index(&3));
    assert_eq!(EdgeIndeces::from_array([7, 1]).to_array(), [1, 7]);
}

#[test]
fn all_edges_of_a_triangle() {
    assert_eq!(
        all_edges(&[9, 4, 6]),
        vec![
            EdgeIndeces { A: 4, B: 9 },
            EdgeIndeces { A: 6, B: 9 },
            EdgeIndeces { A: 4, B: 6 }
        ]
    );
}

#[test]
fn index_of_finds_the_first_match() {
    let corners = CornerSigns::<2>::all();
    assert_eq!(index_of(CornerSigns([Sign::POS, Sign::NEG]), &corners), 2);
    assert!(contains(&corners, &CornerSigns([Sign::NEG, Sign::NEG])));
}

#[test]
fn flat_indeces_lays_rows_end_to_end() {
    assert_eq!(flat_indeces(vec![[1, 2, 3], [4, 5, 6]]), vec![1, 2, 3, 4, 5, 6]);
    assert_eq!(flat_indeces::<2>(vec![]), Vec::<usize>::new());
}

#[test]
fn discrete_quad_has_two_triangles() {
    let (corners, triangles) = quad_3D_discrete_vertices();
    assert_eq!(corners.len(), 4);
    assert_eq!(triangles, vec![[1, 0, 3], [2, 3, 0]]);
}

#[test]
fn discrete_cube_has_five_tetrahedra() {
    let (corners, tetrahedra) = cube_4D_discrete_vertices();
    assert_eq!(corners.len(), 8);
    assert_eq!(
        tetrahedra,
        vec![
            [7, 1, 2, 4],
            [0, 1, 2, 4],
            [3, 2, 1, 7],
            [5, 4, 7, 1],
            [6, 7, 4, 2]
        ]
    );
}

#[test]
fn the_cube_has_twelve_outer_edges() {
    let mesh: Mesh4D<Point4> = cube_4D(&cube_vertex);
    assert_eq!(mesh.vertices.len(), 8);
    assert_eq!(mesh.indeces.len(), 5);
    assert_eq!(mesh.skeleton_indeces.len(), 12);
    let distinct: HashSet<[usize; 2]> = mesh.skeleton_indeces.iter().copied().collect();
    assert_eq!(distinct.len(), 12);
    for edge in &mesh.skeleton_indeces {
        let (a, b) = (mesh.vertices[edge[0]], mesh.vertices[edge[1]]);
        let differing = (0..4).filter(|&i| a[i] != b[i]).count();
        assert_eq!(differing, 1);
    }
    assert_eq!(cube_skeleton_edges(&CornerSigns::<3>::all()), mesh.skeleton_indeces);
}

#[test]
fn the_quad_has_a_point_at_every_corner() {
    let mesh: Mesh3D<Point3> = quad_3D(&quad_vertex);
    assert_eq!(mesh.vertices[0], [0.5, 0.5, 0.0]);
    assert_eq!(mesh.vertices[3], [-0.5, -0.5, 0.0]);
    assert_eq!(mesh.indeces, vec![[1, 0, 3], [2, 3, 0]]);
    assert_eq!(mesh.skeleton_indeces, vec![[0], [1], [2], [3]]);
}

#[test]
fn adding_raises_the_indices_of_the_second_mesh() {
    let mut first: Mesh3D<u8> = Mesh {
        vertices: vec![10, 11, 12],
        indeces: vec![[0, 1, 2]],
        skeleton_indeces: vec![[2]],
    };
    let second: Mesh3D<u8> = Mesh {
        vertices: vec![20, 21, 22, 23],
        indeces: vec![[0, 1, 2], [1, 2, 3]],
        skeleton_indeces: vec![[0], [3]],
    };
    first.add_assign(second.duplicate());
    assert_eq!(first.vertices, vec![10, 11, 12, 20, 21, 22, 23]);
    assert_eq!(first.indeces, vec![[0, 1, 2], [3, 4, 5], [4, 5, 6]]);
    assert_eq!(first.skeleton_indeces, vec![[2], [3], [6]]);
    let total = Mesh::sum(&vec![second.duplicate(), second.duplicate()]);
    assert_eq!(total.vertices.len(), 8);
    assert_eq!(total.indeces[3], [5, 6, 7]);
    let empty: Mesh3D<u8> = Mesh::sum(&vec![]);
    assert!(empty.vertices.is_empty());
    assert_eq!(second.duplicate().add(second).vertices.len(), 8);
}

#[test]
fn full_skeleton_in_four_dimensions_lists_every_edge_once() {
    let mesh: Mesh4D<u8> = Mesh {
        vertices: vec![0, 1, 2, 3, 4],
        indeces: vec![[0, 1, 2, 3], [1, 2, 3, 4]],
        skeleton_indeces: vec![],
    };
    let mesh = mesh.with_full_skeleton();
    assert_eq!(
        mesh.skeleton_indeces,
        vec![
            [0, 1],
            [0, 2],
            [1, 2],
            [0, 3],
            [1, 3],
            [2, 3],
            [1, 4],
            [2, 4],
            [3, 4]
        ]
    );
}

#[test]
fn attached_skeleton_replaces_the_old_one() {
    let mut mesh: Mesh3D<u8> = Mesh {
        vertices: vec![1, 2, 3],
        indeces: vec![[0, 1, 2]],
        skeleton_indeces: vec![[0], [1]],
    };
    let source: Mesh3D<u8> = Mesh {
        vertices: vec![7, 8],
        indeces: vec![[0, 1, 0]],
        skeleton_indeces: vec![],
    };
    mesh.attach_skeleton(source);
    assert_eq!(mesh.vertices, vec![1, 2, 3, 7, 8]);
    assert_eq!(mesh.indeces, vec![[0, 1, 2]]);
    assert_eq!(mesh.skeleton_indeces, vec![[3], [4]]);
}

#[test]
fn transform_replaces_every_vertex() {
    let mut mesh: Mesh3D<i32> = Mesh {
        vertices: vec![1, 2, 3],
        indeces: vec![[0, 1, 2]],
        skeleton_indeces: vec![],
    };
    mesh.transform(&|v: i32| v * 10);
    assert_eq!(mesh.vertices, vec![10, 20, 30]);
    assert_eq!(mesh.as_transformed(&|v: i32| v + 1).vertices, vec![11, 21, 31]);
}

#[test]
fn triangles_that_share_an_edge_share_its_middle() {
    // a quad of two triangles that share the edge between vertices 0 and 3
    let quad: Mesh3D<Point3> = quad_3D(&quad_vertex);
    let fine = quad.subdivide_surface(&mean3);
    // four old vertices and five edges
    assert_eq!(fine.vertices.len(), 9);
    assert_eq!(
        fine.indeces,
        vec![
            [1, 4, 5],
            [0, 4, 6],
            [3, 5, 6],
            [4, 5, 6],
            [2, 7, 8],
            [3, 7, 6],
            [0, 8, 6],
            [7, 8, 6]
        ]
    );
    // vertex 6 is the middle of the shared edge
    assert_eq!(fine.vertices[6], [0.0, 0.0, 0.0]);
    assert_eq!(fine.skeleton_indeces, vec![[0], [1], [2], [3]]);
    for v in &fine.vertices[4..] {
        assert_eq!(fine.vertices.iter().filter(|w| *w == v).count(), 1);
    }
}

#[test]
fn tetrahedra_that_share_a_face_share_the_middles_of_its_edges() {
    // a bipyramid: two tetrahedra over the shared triangle 1, 2, 3
    let mesh: Mesh4D<Point4> = Mesh {
        vertices: vec![
            [0.0, 0.0, 1.0, 0.0],
            [1.0, 0.0, 0.0, 0.0],
            [0.0, 1.0, 0.0, 0.0],
            [-1.0, -1.0, 0.0, 0.0],
            [0.0, 0.0, -1.0, 0.0],
        ],
        indeces: vec![[0, 1, 2, 3], [1, 2, 3, 4]],
        skeleton_indeces: vec![],
    };
    let fine = mesh.subdivide_surface(&mean4);
    // five old vertices and nine edges
    assert_eq!(fine.vertices.len(), 14);
    assert_eq!(fine.indeces.len(), 16);
    // middles in the order of first occurrence: 01 02 12 03 13 23 | 14 24 34
    assert_eq!(
        &fine.indeces[..8],
        &[
            [0, 5, 6, 8],
            [1, 5, 7, 9],
            [2, 6, 7, 10],
            [3, 8, 9, 10],
            [5, 6, 7, 8],
            [5, 7, 8, 9],
            [6, 7, 8, 10],
            [7, 8, 9, 10]
        ]
    );
    // the second tetrahedron uses the middles 12 -> 7, 13 -> 9, 23 -> 10 again
    assert_eq!(fine.indeces[8], [1, 7, 9, 11]);
    assert_eq!(fine.indeces[9], [2, 7, 10, 12]);
    assert_eq!(fine.indeces[10], [3, 9, 10, 13]);
    assert_eq!(fine.indeces[11], [4, 11, 12, 13]);
    assert_eq!(fine.vertices[7], [0.5, 0.5, 0.0, 0.0]);
    for tetrahedron in &fine.indeces {
        let distinct: HashSet<usize> = tetrahedron.iter().copied().collect();
        assert_eq!(distinct.len(), 4);
    }
}

#[test]
fn the_octahedron_is_cut_around_one_diagonal() {
    assert_eq!(
        octahedron_tetrahedra_positions(),
        vec![[0, 1, 2, 3], [0, 2, 3, 4], [1, 2, 3, 5], [2, 3, 4, 5]]
    );
}

fn tetrahedron_vertices() -> Vec<Point3> {
    vec![
        normalize3([1.0, 1.0, 1.0]),
        normalize3([1.0, -1.0, -1.0]),
        normalize3([-1.0, 1.0, -1.0]),
        normalize3([-1.0, -1.0, 1.0]),
    ]
}

#[test]
fn twice_subdivided_sphere_has_thirty_four_unit_vertices() {
    let mesh = sphere_3D_no_skeleton(tetrahedron_vertices(), 2, &mean3, &normalize3);
    // V' = V + E, E' = 2 E + 3 F, F' = 4 F from V, E, F = 4, 6, 4
    assert_eq!(mesh.vertices.len(), 34);
    assert_eq!(mesh.indeces.len(), 64);
    for v in &mesh.vertices {
        let length = (v[0] * v[0] + v[1] * v[1] + v[2] * v[2]).sqrt();
        assert!((length - 1.0).abs() < 1e-5);
    }
    for triangle in &mesh.indeces {
        for &i in triangle {
            assert!(i < mesh.vertices.len());
        }
    }
}

#[test]
fn sphere_skeleton_comes_from_its_own_subdivision() {
    let mesh = sphere_3D(tetrahedron_vertices(), 2, 1, &mean3, &normalize3);
    assert_eq!(mesh.vertices.len(), 34);
    assert_eq!(mesh.skeleton_indeces.len(), 10);
    assert_eq!(mesh.skeleton_indeces[9], [9]);
    let plain = sphere_3D_no_skeleton(tetrahedron_vertices(), 0, &mean3, &normalize3);
    assert_eq!(plain.indeces, vec![[0, 1, 2], [0, 1, 3], [0, 2, 3], [1, 2, 3]]);
}

#[test]
fn four_dimensional_sphere_starts_from_five_tetrahedra() {
    let vertices: Vec<Point4> = vec![
        normalize4([1.0, 1.0, 1.0, -0.5]),
        normalize4([1.0, -1.0, -1.0, -0.5]),
        normalize4([-1.0, 1.0, -1.0, -0.5]),
        normalize4([-1.0, -1.0, 1.0, -0.5]),
        [0.0, 0.0, 0.0, 1.0],
    ];
    let mesh = sphere_4D_no_skeleton(vertices, 1, &mean4, &normalize4);
    // five corners and ten edges
    assert_eq!(mesh.vertices.len(), 15);
    assert_eq!(mesh.indeces.len(), 40);
    for v in &mesh.vertices {
        let length = (v[0] * v[0] + v[1] * v[1] + v[2] * v[2] + v[3] * v[3]).sqrt();
        assert!((length - 1.0).abs() < 1e-5);
    }
}

fn corner_code(v: &[f32]) -> u128 {
    v.iter().enumerate().map(|(i, &c)| if c >= 0.0 { 1u128 << i } else { 0 }).sum()
}

#[test]
fn a_cube_of_six_quads_keeps_eight_skeleton_points() {
    let face: Mesh3D<Point3> = quad_3D(&quad_vertex);
    let mut faces = Vec::new();
    for axis in 0..3 {
        for sign in [-1.0f32, 1.0] {
            let turn = move |v: Point3| {
                let mut lifted = [v[0], v[1], v[2] + 0.5];
                let z = lifted[2];
                lifted[2] = lifted[axis];
                lifted[axis] = sign * z;
                lifted
            };
            faces.push(face.duplicate().as_transformed(&turn));
        }
    }
    let mut mesh = Mesh::sum(&faces);
    assert_eq!(mesh.vertices.len(), 24);
    assert_eq!(mesh.skeleton_indeces.len(), 24);
    let keys: Vec<u128> = mesh
        .skeleton_indeces
        .iter()
        .map(|point| corner_code(&mesh.vertices[point[0]]))
        .collect();
    mesh.skeleton_indeces = keep_last_per_key(&mesh.skeleton_indeces, &keys);
    assert_eq!(mesh.skeleton_indeces.len(), 8);
    let corners: HashSet<u128> = mesh
        .skeleton_indeces
        .iter()
        .map(|point| corner_code(&mesh.vertices[point[0]]))
        .collect();
    assert_eq!(corners.len(), 8);
}

#[test]
fn a_tesseract_of_eight_cubes_keeps_thirty_two_skeleton_edges() {
    let face: Mesh4D<Point4> = cube_4D(&cube_vertex);
    let mut faces = Vec::new();
    for axis in 0..4 {
        for sign in [-1.0f32, 1.0] {
            let turn = move |v: Point4| {
                let mut lifted = [v[0], v[1], v[2], v[3] + 0.5];
                let w = lifted[3];
                lifted[3] = lifted[axis];
                lifted[axis] = sign * w;
                lifted
            };
            faces.push(face.duplicate().as_transformed(&turn));
        }
    }
    let mut mesh = Mesh::sum(&faces);
    assert_eq!(mesh.vertices.len(), 64);
    assert_eq!(mesh.skeleton_indeces.len(), 96);
    let keys: Vec<u128> = mesh
        .skeleton_indeces
        .iter()
        .map(|edge| {
            let a = corner_code(&mesh.vertices[edge[0]]);
            let b = corner_code(&mesh.vertices[edge[1]]);
            a.min(b) * 16 + a.max(b)
        })
        .collect();
    mesh.skeleton_indeces = keep_last_per_key(&mesh.skeleton_indeces, &keys);
    assert_eq!(mesh.skeleton_indeces.len(), 32);
}

#[test]
fn keep_last_per_key_keeps_the_last_row_of_each_key() {
    let rows = vec![[0], [1], [2], [3], [4]];
    let keys = vec![7, 8, 7, 9, 8];
    assert_eq!(keep_last_per_key(&rows, &keys), vec![[2], [4], [3]]);
}

#[test]
fn an_edge_named_from_either_end_is_one_skeleton_edge() {
    let mesh: Mesh4D<u8> = Mesh {
        vertices: vec![0, 1, 2, 3, 4],
        indeces: vec![[0, 1, 2, 3], [3, 2, 1, 4]],
        skeleton_indeces: vec![],
    };
    let mesh = mesh.with_full_skeleton();
    assert_eq!(mesh.vertices, vec![0, 1, 2, 3, 4]);
    assert_eq!(mesh.indeces, vec![[0, 1, 2, 3], [3, 2, 1, 4]]);
    assert_eq!(
        mesh.skeleton_indeces,
        vec![
            [0, 1],
            [0, 2],
            [1, 2],
            [0, 3],
            [1, 3],
            [2, 3],
            [3, 4],
            [2, 4],
            [1, 4]
        ]
    );
    let undirected: HashSet<(usize, usize)> = mesh
        .skeleton_indeces
        .iter()
        .map(|edge| (edge[0].min(edge[1]), edge[0].max(edge[1])))
        .collect();
    assert_eq!(undirected.len(), 9);
}

#[test]
fn skeleton_of_cube_tetrahedra_has_no_edge_twice() {
    let mesh: Mesh4D<u8> = Mesh {
        vertices: vec![0; 8],
        indeces: vec![[7, 1, 2, 4], [3, 2, 1, 7]],
        skeleton_indeces: vec![],
    };
    let mesh = mesh.with_full_skeleton();
    // six edges of the first, and of the second all but 1-2, 1-7 and 2-7
    assert_eq!(mesh.skeleton_indeces.len(), 9);
    for edge in &mesh.skeleton_indeces {
        assert!(edge[0] < edge[1]);
    }
    let undirected: HashSet<[usize; 2]> = mesh.skeleton_indeces.iter().copied().collect();
    assert_eq!(undirected.len(), 9);
}

#[test]
fn sphere_with_coarser_skeleton_has_valid_indices() {
    let mesh = sphere_3D(tetrahedron_vertices(), 2, 1, &mean3, &normalize3);
    for point in &mesh.skeleton_indeces {
        assert!(point[0] < mesh.vertices.len());
    }
    let mesh = isomesh::sphere::sphere_4D(
        vec![
            normalize4([1.0, 1.0, 1.0, -0.5]),
            normalize4([1.0, -1.0, -1.0, -0.5]),
            normalize4([-1.0, 1.0, -1.0, -0.5]),
            normalize4([-1.0, -1.0, 1.0, -0.5]),
            [0.0, 0.0, 0.0, 1.0],
        ],
        1,
        0,
        &mean4,
        &normalize4,
    );
    assert_eq!(mesh.vertices.len(), 15);
    // the ten edges of the five-cell
    assert_eq!(mesh.skeleton_indeces.len(), 10);
    for edge in &mesh.skeleton_indeces {
        assert!(edge[0] < edge[1] && edge[1] < 5);
    }
}
