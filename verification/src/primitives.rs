//! The unit square as a triangle mesh and the unit cube as a tetrahedron
//! mesh, over any vertex type.
use vstd::prelude::*;
use crate::cell_topology::{
    lemma_bits_below_eight,
    cube_4D_discrete_vertices, cube_tetrahedra, is_cube_corners, is_square_corners,
    quad_3D_discrete_vertices, rows_are, square_triangles,
};
use crate::combinations::{
    lemma_pairs_of_eight,
    combinations_constsize, combinations_of, is_combination, lemma_subsets_shape,
};
use crate::corner_signs::{agreeing, bit, CornerSigns, Sign};
use crate::mesh::{rows_are_pairs, rows_below, Mesh, Mesh3D, Mesh4D};

verus! {

/// `vertices` holds, corner by corner, what `corner_signs_to_vertex` makes of `corners`.
pub open spec fn corners_converted<const N: usize, V, F: Fn(&CornerSigns<N>) -> V>(
    corner_signs_to_vertex: F,
    corners: Seq<CornerSigns<N>>,
    vertices: Seq<V>,
) -> bool {
    &&& vertices.len() == corners.len()
    &&& forall|i: int|
        0 <= i < corners.len() ==> call_ensures(
            corner_signs_to_vertex,
            (&corners[i],),
            #[trigger] vertices[i],
        )
}

/// Converts every corner to a vertex.
fn convert_corners<const N: usize, V, F: Fn(&CornerSigns<N>) -> V>(
    corner_signs_to_vertex: &F,
    corners: &Vec<CornerSigns<N>>,
) -> (vertices: Vec<V>)
    requires
        forall|i: int|
            0 <= i < corners@.len() ==> call_requires(
                *corner_signs_to_vertex,
                (&#[trigger] corners@[i],),
            ),
    ensures
        corners_converted(*corner_signs_to_vertex, corners@, vertices@),
{
    let mut vertices: Vec<V> = Vec::new();
    let mut i: usize = 0;
    while i < corners.len()
        invariant
            0 <= i <= corners@.len(),
            forall|k: int|
                0 <= k < corners@.len() ==> call_requires(
                    *corner_signs_to_vertex,
                    (&#[trigger] corners@[k],),
                ),
            corners_converted(*corner_signs_to_vertex, corners@.subrange(0, i as int), vertices@),
        decreases corners@.len() - i,
    {
        let vertex = corner_signs_to_vertex(&corners[i]);
        let ghost before = vertices@;
        vertices.push(vertex);
        proof {
            assert forall|k: int| 0 <= k < i + 1 implies call_ensures(
                *corner_signs_to_vertex,
                (&corners@.subrange(0, i + 1)[k],),
                #[trigger] vertices@[k],
            ) by {
                if k < i {
                    assert(vertices@[k] == before[k]);
                    assert(corners@.subrange(0, i + 1)[k] == corners@.subrange(0, i as int)[k]);
                }
            }
        }
        i += 1;
    }
    proof {
        assert(corners@.subrange(0, corners@.len() as int) =~= corners@);
    }
    vertices
}

/// The mesh with one vertex for each of the given corners, the given
/// triangles, and a skeleton point at every vertex.
pub fn quad_3D_from_discrete_quad<V, F: Fn(&CornerSigns<2>) -> V>(
    vertices: Vec<CornerSigns<2>>,
    indeces: Vec<[usize; 3]>,
    corner_signs_to_vertex: &F,
) -> (mesh: Mesh3D<V>)
    requires
        forall|i: int|
            0 <= i < vertices@.len() ==> call_requires(
                *corner_signs_to_vertex,
                (&#[trigger] vertices@[i],),
            ),
    ensures
        corners_converted(*corner_signs_to_vertex, vertices@, mesh.vertices@),
        mesh.indeces@ == indeces@,
        mesh.skeleton_indeces@.len() == vertices@.len(),
        forall|i: int|
            0 <= i < mesh.skeleton_indeces@.len() ==> (#[trigger] mesh.skeleton_indeces@[i])@[0] == i,
        rows_below(indeces@, vertices@.len() as int) ==> mesh.wf(),
{
    let mesh = Mesh {
        vertices: convert_corners(corner_signs_to_vertex, &vertices),
        indeces,
        skeleton_indeces: Vec::new(),
    };
    mesh.with_full_skeleton()
}

/// Holds of two cube corners that differ along exactly one axis: the ends of
/// an edge of the cube.
pub open spec fn is_outer_edge(corners: Seq<CornerSigns<3>>) -> spec_fn((usize, usize)) -> bool {
    |pair: (usize, usize)| corners[pair.0 as int].spec_match_count(corners[pair.1 as int]) == 2
}

/// The index pairs of `count` elements, in the order of `combinations_of`.
pub open spec fn index_pairs(count: nat) -> Seq<(usize, usize)> {
    Seq::new(
        combinations_of(count, 2).len(),
        |q: int| (combinations_of(count, 2)[q][0] as usize, combinations_of(count, 2)[q][1] as usize),
    )
}

/// The pairs of corners that are the ends of an edge of the cube.
pub open spec fn outer_edges(corners: Seq<CornerSigns<3>>) -> Seq<(usize, usize)> {
    index_pairs(corners.len()).filter(is_outer_edge(corners))
}

/// The skeleton of the cube: the pairs of corners that agree along exactly two axes.
pub fn cube_skeleton_edges(vertices: &Vec<CornerSigns<3>>) -> (skeleton_indeces: Vec<[usize; 2]>)
    ensures
        rows_are_pairs(skeleton_indeces@, outer_edges(vertices@)),
        rows_below(skeleton_indeces@, vertices@.len() as int),
{
    let mut numbers: Vec<usize> = Vec::new();
    let mut i: usize = 0;
    while i < vertices.len()
        invariant
            0 <= i <= vertices@.len(),
            numbers@.len() == i,
            forall|k: int| 0 <= k < i ==> #[trigger] numbers@[k] == k,
        decreases vertices@.len() - i,
    {
        numbers.push(i);
        i += 1;
    }
    let edges: Vec<[usize; 2]> = combinations_constsize::<2, usize>(numbers.as_slice());
    let ghost count = vertices@.len();
    let ghost all = index_pairs(count);
    let ghost keep = is_outer_edge(vertices@);
    proof {
        lemma_subsets_shape(count, 2);
        assert forall|q: int| 0 <= q < all.len() implies (#[trigger] edges@[q])@[0] == all[q].0
            && edges@[q]@[1] == all[q].1 && all[q].0 < count && all[q].1 < count by {
            let combo = combinations_of(count, 2)[q];
            assert(is_combination(combo, count, 2));
            assert(0 <= combo[0] < count && 0 <= combo[1] < count);
            assert(edges@[q]@[0] == numbers@[combo[0]]);
            assert(edges@[q]@[1] == numbers@[combo[1]]);
        }
    }
    let mut skeleton_indeces: Vec<[usize; 2]> = Vec::new();
    let mut q: usize = 0;
    proof {
        reveal(Seq::filter);
        assert(all.subrange(0, 0) =~= Seq::<(usize, usize)>::empty());
    }
    while q < edges.len()
        invariant
            0 <= q <= edges@.len(),
            count == vertices@.len(),
            all == index_pairs(count),
            keep == is_outer_edge(vertices@),
            edges@.len() == all.len(),
            forall|k: int|
                0 <= k < all.len() ==> (#[trigger] edges@[k])@[0] == all[k].0 && edges@[k]@[1]
                    == all[k].1 && all[k].0 < count && all[k].1 < count,
            rows_are_pairs(skeleton_indeces@, all.subrange(0, q as int).filter(keep)),
            rows_below(skeleton_indeces@, count as int),
        decreases edges@.len() - q,
    {
        let edge: [usize; 2] = edges[q];
        proof {
            assert(edges@[q as int]@[0] == all[q as int].0);
            assert(all.subrange(0, q + 1) =~= all.subrange(0, q as int).push(all[q as int]));
            all.subrange(0, q as int).lemma_filter_push(all[q as int], keep);
        }
        let corner_A = vertices[edge[0]];
        let corner_B = vertices[edge[1]];
        let match_count = corner_A.match_count(&corner_B);
        let is_outer_edge = match_count == 2;
        if is_outer_edge {
            let ghost before = skeleton_indeces@;
            skeleton_indeces.push(edge);
            proof {
                let target = all.subrange(0, q + 1).filter(keep);
                assert forall|k: int| 0 <= k < skeleton_indeces@.len() implies ((
                #[trigger] skeleton_indeces@[k])@[0], skeleton_indeces@[k]@[1]) == target[k] by {
                    if k < before.len() {
                        assert(skeleton_indeces@[k] == before[k]);
                    }
                }
                assert forall|k: int, j: int|
                    0 <= k < skeleton_indeces@.len() && 0 <= j < 2 implies (
                #[trigger] skeleton_indeces@[k]@[j]) < count by {
                    if k < before.len() {
                        assert(skeleton_indeces@[k] == before[k]);
                    }
                }
            }
        }
        q += 1;
    }
    proof {
        assert(all.subrange(0, all.len() as int) =~= all);
    }
    skeleton_indeces
}

/// The mesh with one vertex for each of the given corners, the given
/// tetrahedra, and the edges of the cube as skeleton.
pub fn cube_4D_from_discrete_cube<V, F: Fn(&CornerSigns<3>) -> V>(
    vertices: Vec<CornerSigns<3>>,
    indeces: Vec<[usize; 4]>,
    corner_signs_to_vertex: &F,
) -> (mesh: Mesh4D<V>)
    requires
        forall|i: int|
            0 <= i < vertices@.len() ==> call_requires(
                *corner_signs_to_vertex,
                (&#[trigger] vertices@[i],),
            ),
    ensures
        corners_converted(*corner_signs_to_vertex, vertices@, mesh.vertices@),
        mesh.indeces@ == indeces@,
        rows_are_pairs(mesh.skeleton_indeces@, outer_edges(vertices@)),
        rows_below(indeces@, vertices@.len() as int) ==> mesh.wf(),
{
    let skeleton_indeces = cube_skeleton_edges(&vertices);
    Mesh {
        vertices: convert_corners(corner_signs_to_vertex, &vertices),
        indeces,
        skeleton_indeces,
    }
}

/// `corner_signs_to_vertex` may be asked for every corner.
pub open spec fn converts_all_corners<const N: usize, V, F: Fn(&CornerSigns<N>) -> V>(
    corner_signs_to_vertex: F,
) -> bool {
    forall|corner: CornerSigns<N>| #[trigger] call_requires(corner_signs_to_vertex, (&corner,))
}

/// The square as a mesh of two triangles over its four corners, with a
/// skeleton point at every corner.
pub fn quad_3D<V, F: Fn(&CornerSigns<2>) -> V>(corner_signs_to_vertex: &F) -> (mesh: Mesh3D<V>)
    requires
        converts_all_corners(*corner_signs_to_vertex),
    ensures
        mesh.wf(),
        mesh.vertices@.len() == 4,
        rows_are(mesh.indeces@, square_triangles()),
        mesh.skeleton_indeces@.len() == 4,
        forall|i: int| 0 <= i < 4 ==> (#[trigger] mesh.skeleton_indeces@[i])@[0] == i,
        exists|corners: Seq<CornerSigns<2>>|
            is_square_corners(corners) && #[trigger] corners_converted(
                *corner_signs_to_vertex,
                corners,
                mesh.vertices@,
            ),
{
    let (vertices, indeces) = quad_3D_discrete_vertices();
    let ghost corners = vertices@;
    proof {
        assert forall|r: int, j: int| 0 <= r < indeces@.len() && 0 <= j < 3 implies (
        #[trigger] indeces@[r]@[j]) < 4 by {
            assert(indeces@[r]@[j] as int == square_triangles()[r][j]);
        }
    }
    let mesh = quad_3D_from_discrete_quad(vertices, indeces, corner_signs_to_vertex);
    proof {
        assert(corners_converted(*corner_signs_to_vertex, corners, mesh.vertices@));
    }
    mesh
}

/// The cube as a mesh of five tetrahedra over its eight corners, with its
/// edges as skeleton.
pub fn cube_4D<V, F: Fn(&CornerSigns<3>) -> V>(corner_signs_to_vertex: &F) -> (mesh: Mesh4D<V>)
    requires
        converts_all_corners(*corner_signs_to_vertex),
    ensures
        mesh.wf(),
        mesh.vertices@.len() == 8,
        rows_are(mesh.indeces@, cube_tetrahedra()),
        rows_are_pairs(mesh.skeleton_indeces@, cube_outer_edges()),
        mesh.skeleton_indeces@.len() == 12,
        exists|corners: Seq<CornerSigns<3>>|
            is_cube_corners(corners) && #[trigger] corners_converted(
                *corner_signs_to_vertex,
                corners,
                mesh.vertices@,
            ),
{
    let (vertices, indeces) = cube_4D_discrete_vertices();
    let ghost corners = vertices@;
    proof {
        lemma_cube_outer_edges(corners);
        assert forall|r: int, j: int| 0 <= r < indeces@.len() && 0 <= j < 4 implies (
        #[trigger] indeces@[r]@[j]) < 8 by {
            assert(indeces@[r]@[j] as int == cube_tetrahedra()[r][j]);
        }
    }
    let mesh = cube_4D_from_discrete_cube(vertices, indeces, corner_signs_to_vertex);
    proof {
        assert(corners_converted(*corner_signs_to_vertex, corners, mesh.vertices@));
    }
    mesh
}

/// The twelve edges of the cube as pairs of corner numbers: the pairs of
/// corners whose numbers differ in exactly one binary digit, in the order of
/// `combinations_of(8, 2)`.
pub open spec fn cube_outer_edges() -> Seq<(usize, usize)> {
    seq![
        (0usize, 1usize),
        (0usize, 2usize),
        (1usize, 3usize),
        (2usize, 3usize),
        (0usize, 4usize),
        (1usize, 5usize),
        (4usize, 5usize),
        (2usize, 6usize),
        (4usize, 6usize),
        (3usize, 7usize),
        (5usize, 7usize),
        (6usize, 7usize),
    ]
}

/// Which pairs of corners of the cube are the ends of one of its edges.
proof fn lemma_cube_edge_flags(corners: Seq<CornerSigns<3>>)
    requires
        is_cube_corners(corners),
    ensures
        is_outer_edge(corners)((0usize, 1usize)) == true,
        is_outer_edge(corners)((0usize, 2usize)) == true,
        is_outer_edge(corners)((1usize, 2usize)) == false,
        is_outer_edge(corners)((0usize, 3usize)) == false,
        is_outer_edge(corners)((1usize, 3usize)) == true,
        is_outer_edge(corners)((2usize, 3usize)) == true,
        is_outer_edge(corners)((0usize, 4usize)) == true,
        is_outer_edge(corners)((1usize, 4usize)) == false,
        is_outer_edge(corners)((2usize, 4usize)) == false,
        is_outer_edge(corners)((3usize, 4usize)) == false,
        is_outer_edge(corners)((0usize, 5usize)) == false,
        is_outer_edge(corners)((1usize, 5usize)) == true,
        is_outer_edge(corners)((2usize, 5usize)) == false,
        is_outer_edge(corners)((3usize, 5usize)) == false,
        is_outer_edge(corners)((4usize, 5usize)) == true,
        is_outer_edge(corners)((0usize, 6usize)) == false,
        is_outer_edge(corners)((1usize, 6usize)) == false,
        is_outer_edge(corners)((2usize, 6usize)) == true,
        is_outer_edge(corners)((3usize, 6usize)) == false,
        is_outer_edge(corners)((4usize, 6usize)) == true,
        is_outer_edge(corners)((5usize, 6usize)) == false,
        is_outer_edge(corners)((0usize, 7usize)) == false,
        is_outer_edge(corners)((1usize, 7usize)) == false,
        is_outer_edge(corners)((2usize, 7usize)) == false,
        is_outer_edge(corners)((3usize, 7usize)) == true,
        is_outer_edge(corners)((4usize, 7usize)) == false,
        is_outer_edge(corners)((5usize, 7usize)) == true,
        is_outer_edge(corners)((6usize, 7usize)) == true,
{
    lemma_bits_below_eight();
    reveal_with_fuel(agreeing, 4);
    assert forall|i: int| 0 <= i < 8 implies {
        &&& (#[trigger] corners[i]).sign(0) == if bit(i as nat, 0) {
            Sign::NEG
        } else {
            Sign::POS
        }
        &&& corners[i].sign(1) == if bit(i as nat, 1) {
            Sign::NEG
        } else {
            Sign::POS
        }
        &&& corners[i].sign(2) == if bit(i as nat, 2) {
            Sign::NEG
        } else {
            Sign::POS
        }
    } by {
        assert(corners[i].is_numbered(i as nat));
    }
    assert(corners[0].sign(0) == Sign::POS);
    assert(corners[1].sign(0) == Sign::NEG);
    assert(corners[2].sign(0) == Sign::POS);
    assert(corners[3].sign(0) == Sign::NEG);
    assert(corners[4].sign(0) == Sign::POS);
    assert(corners[5].sign(0) == Sign::NEG);
    assert(corners[6].sign(0) == Sign::POS);
    assert(corners[7].sign(0) == Sign::NEG);
}

/// The cube has exactly its twelve edges as outer edges.
pub proof fn lemma_cube_outer_edges(corners: Seq<CornerSigns<3>>)
    requires
        is_cube_corners(corners),
    ensures
        outer_edges(corners) =~= cube_outer_edges(),
        cube_outer_edges().len() == 12,
{
    lemma_pairs_of_eight();
    lemma_cube_edge_flags(corners);
    let all = index_pairs(8);
    let keep = is_outer_edge(corners);
    let expected = cube_outer_edges();
    reveal(Seq::filter);
    assert(all.len() == 28);
    assert(all[0] == (0usize, 1usize));
    assert(all[1] == (0usize, 2usize));
    assert(all[2] == (1usize, 2usize));
    assert(all[3] == (0usize, 3usize));
    assert(all[4] == (1usize, 3usize));
    assert(all[5] == (2usize, 3usize));
    assert(all[6] == (0usize, 4usize));
    assert(all[7] == (1usize, 4usize));
    assert(all[8] == (2usize, 4usize));
    assert(all[9] == (3usize, 4usize));
    assert(all[10] == (0usize, 5usize));
    assert(all[11] == (1usize, 5usize));
    assert(all[12] == (2usize, 5usize));
    assert(all[13] == (3usize, 5usize));
    assert(all[14] == (4usize, 5usize));
    assert(all[15] == (0usize, 6usize));
    assert(all[16] == (1usize, 6usize));
    assert(all[17] == (2usize, 6usize));
    assert(all[18] == (3usize, 6usize));
    assert(all[19] == (4usize, 6usize));
    assert(all[20] == (5usize, 6usize));
    assert(all[21] == (0usize, 7usize));
    assert(all[22] == (1usize, 7usize));
    assert(all[23] == (2usize, 7usize));
    assert(all[24] == (3usize, 7usize));
    assert(all[25] == (4usize, 7usize));
    assert(all[26] == (5usize, 7usize));
    assert(all[27] == (6usize, 7usize));
    assert(all.subrange(0, 0).filter(keep) =~= expected.subrange(0, 0));
    assert(all.subrange(0, 1) =~= all.subrange(0, 0).push(all[0]));
    all.subrange(0, 0).lemma_filter_push(all[0], keep);
    assert(all.subrange(0, 1).filter(keep) =~= expected.subrange(0, 1));
    assert(all.subrange(0, 2) =~= all.subrange(0, 1).push(all[1]));
    all.subrange(0, 1).lemma_filter_push(all[1], keep);
    assert(all.subrange(0, 2).filter(keep) =~= expected.subrange(0, 2));
    assert(all.subrange(0, 3) =~= all.subrange(0, 2).push(all[2]));
    all.subrange(0, 2).lemma_filter_push(all[2], keep);
    assert(all.subrange(0, 3).filter(keep) =~= expected.subrange(0, 2));
    assert(all.subrange(0, 4) =~= all.subrange(0, 3).push(all[3]));
    all.subrange(0, 3).lemma_filter_push(all[3], keep);
    assert(all.subrange(0, 4).filter(keep) =~= expected.subrange(0, 2));
    assert(all.subrange(0, 5) =~= all.subrange(0, 4).push(all[4]));
    all.subrange(0, 4).lemma_filter_push(all[4], keep);
    assert(all.subrange(0, 5).filter(keep) =~= expected.subrange(0, 3));
    assert(all.subrange(0, 6) =~= all.subrange(0, 5).push(all[5]));
    all.subrange(0, 5).lemma_filter_push(all[5], keep);
    assert(all.subrange(0, 6).filter(keep) =~= expected.subrange(0, 4));
    assert(all.subrange(0, 7) =~= all.subrange(0, 6).push(all[6]));
    all.subrange(0, 6).lemma_filter_push(all[6], keep);
    assert(all.subrange(0, 7).filter(keep) =~= expected.subrange(0, 5));
    assert(all.subrange(0, 8) =~= all.subrange(0, 7).push(all[7]));
    all.subrange(0, 7).lemma_filter_push(all[7], keep);
    assert(all.subrange(0, 8).filter(keep) =~= expected.subrange(0, 5));
    assert(all.subrange(0, 9) =~= all.subrange(0, 8).push(all[8]));
    all.subrange(0, 8).lemma_filter_push(all[8], keep);
    assert(all.subrange(0, 9).filter(keep) =~= expected.subrange(0, 5));
    assert(all.subrange(0, 10) =~= all.subrange(0, 9).push(all[9]));
    all.subrange(0, 9).lemma_filter_push(all[9], keep);
    assert(all.subrange(0, 10).filter(keep) =~= expected.subrange(0, 5));
    assert(all.subrange(0, 11) =~= all.subrange(0, 10).push(all[10]));
    all.subrange(0, 10).lemma_filter_push(all[10], keep);
    assert(all.subrange(0, 11).filter(keep) =~= expected.subrange(0, 5));
    assert(all.subrange(0, 12) =~= all.subrange(0, 11).push(all[11]));
    all.subrange(0, 11).lemma_filter_push(all[11], keep);
    assert(all.subrange(0, 12).filter(keep) =~= expected.subrange(0, 6));
    assert(all.subrange(0, 13) =~= all.subrange(0, 12).push(all[12]));
    all.subrange(0, 12).lemma_filter_push(all[12], keep);
    assert(all.subrange(0, 13).filter(keep) =~= expected.subrange(0, 6));
    assert(all.subrange(0, 14) =~= all.subrange(0, 13).push(all[13]));
    all.subrange(0, 13).lemma_filter_push(all[13], keep);
    assert(all.subrange(0, 14).filter(keep) =~= expected.subrange(0, 6));
    assert(all.subrange(0, 15) =~= all.subrange(0, 14).push(all[14]));
    all.subrange(0, 14).lemma_filter_push(all[14], keep);
    assert(all.subrange(0, 15).filter(keep) =~= expected.subrange(0, 7));
    assert(all.subrange(0, 16) =~= all.subrange(0, 15).push(all[15]));
    all.subrange(0, 15).lemma_filter_push(all[15], keep);
    assert(all.subrange(0, 16).filter(keep) =~= expected.subrange(0, 7));
    assert(all.subrange(0, 17) =~= all.subrange(0, 16).push(all[16]));
    all.subrange(0, 16).lemma_filter_push(all[16], keep);
    assert(all.subrange(0, 17).filter(keep) =~= expected.subrange(0, 7));
    assert(all.subrange(0, 18) =~= all.subrange(0, 17).push(all[17]));
    all.subrange(0, 17).lemma_filter_push(all[17], keep);
    assert(all.subrange(0, 18).filter(keep) =~= expected.subrange(0, 8));
    assert(all.subrange(0, 19) =~= all.subrange(0, 18).push(all[18]));
    all.subrange(0, 18).lemma_filter_push(all[18], keep);
    assert(all.subrange(0, 19).filter(keep) =~= expected.subrange(0, 8));
    assert(all.subrange(0, 20) =~= all.subrange(0, 19).push(all[19]));
    all.subrange(0, 19).lemma_filter_push(all[19], keep);
    assert(all.subrange(0, 20).filter(keep) =~= expected.subrange(0, 9));
    assert(all.subrange(0, 21) =~= all.subrange(0, 20).push(all[20]));
    all.subrange(0, 20).lemma_filter_push(all[20], keep);
    assert(all.subrange(0, 21).filter(keep) =~= expected.subrange(0, 9));
    assert(all.subrange(0, 22) =~= all.subrange(0, 21).push(all[21]));
    all.subrange(0, 21).lemma_filter_push(all[21], keep);
    assert(all.subrange(0, 22).filter(keep) =~= expected.subrange(0, 9));
    assert(all.subrange(0, 23) =~= all.subrange(0, 22).push(all[22]));
    all.subrange(0, 22).lemma_filter_push(all[22], keep);
    assert(all.subrange(0, 23).filter(keep) =~= expected.subrange(0, 9));
    assert(all.subrange(0, 24) =~= all.subrange(0, 23).push(all[23]));
    all.subrange(0, 23).lemma_filter_push(all[23], keep);
    assert(all.subrange(0, 24).filter(keep) =~= expected.subrange(0, 9));
    assert(all.subrange(0, 25) =~= all.subrange(0, 24).push(all[24]));
    all.subrange(0, 24).lemma_filter_push(all[24], keep);
    assert(all.subrange(0, 25).filter(keep) =~= expected.subrange(0, 10));
    assert(all.subrange(0, 26) =~= all.subrange(0, 25).push(all[25]));
    all.subrange(0, 25).lemma_filter_push(all[25], keep);
    assert(all.subrange(0, 26).filter(keep) =~= expected.subrange(0, 10));
    assert(all.subrange(0, 27) =~= all.subrange(0, 26).push(all[26]));
    all.subrange(0, 26).lemma_filter_push(all[26], keep);
    assert(all.subrange(0, 27).filter(keep) =~= expected.subrange(0, 11));
    assert(all.subrange(0, 28) =~= all.subrange(0, 27).push(all[27]));
    all.subrange(0, 27).lemma_filter_push(all[27], keep);
    assert(all.subrange(0, 28).filter(keep) =~= expected.subrange(0, 12));
    assert(all.subrange(0, 28) =~= all);
    assert(expected.subrange(0, 12) =~= expected);
}

} // verus!
