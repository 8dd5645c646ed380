//! Building the mesh of a surface from its border pairs: every lattice cell
//! gives one vertex, and every border pair gives the square (in three
//! dimensions) or the cube (in four) between the cells around it, cut into
//! triangles or tetrahedra.
use vstd::prelude::*;
use indexmap::IndexMap;
use std::collections::hash_map::RandomState;
use crate::border_pair::{
    box_points3, box_points4, in_box3, in_box4, lemma_box_covered3, lemma_box_covered4,
    BorderPair3D, BorderPair4D,
};
use crate::cell_topology::{
    cube_4D_discrete_vertices, cube_tetrahedra, is_cube_corners, is_square_corners,
    lemma_bits_below_eight, quad_3D_discrete_vertices, rows_are, square_triangles,
};
use crate::corner_signs::{bit, Sign};
use crate::dedup::{first_occurrences, lemma_first_occurrences};
use crate::field::{is_pure_field, positive_at};
use crate::initial_border_pair::{initial_pair3, initial_pair4};
use crate::lattice::{lemma_key3_injective, lemma_key4_injective, IVec3, IVec4};
use crate::edges::all_edges_of_tetrahedra;
use crate::mesh::{rows_are_edges, rows_shifted, Mesh, Mesh3D, Mesh4D};
use crate::ordered_keys::{
    index_map_get_index_of, index_map_insert_if_absent, index_map_keys, index_map_new,
};
use crate::sample_cloud::{
    box_sampled3, box_sampled4, is_surface_component3, is_surface_component4, key_of3, key_of4,
    reachable3, reachable4, samples_agree3, samples_agree4, SampleCloud3D, SampleCloud4D,
};

verus! {

/// Corner `i` of the square around a pair along `axis`, relative to the
/// lower point of the pair: minus one where the corner is negative, zero
/// where it is positive, and zero along the axis.
pub open spec fn quad_vertex3(i: int, axis: int) -> IVec3 {
    (IVec3 { x: (-(i % 2)) as i32, y: (-(i / 2)) as i32, z: 0 }).axis_swapped(axis)
}

/// The four corners of the square across `axis_index` and its two triangles.
pub fn get_quad_3D_with_nth_axis_as_normal(axis_index: usize) -> (out: (Vec<IVec3>, Vec<[IVec3; 3]>))
    requires
        axis_index < 3,
    ensures
        out.0@.len() == 4,
        forall|i: int| 0 <= i < 4 ==> #[trigger] out.0@[i] == quad_vertex3(i, axis_index as int),
        out.1@.len() == 2,
        forall|t: int, j: int|
            0 <= t < 2 && 0 <= j < 3 ==> (#[trigger] out.1@[t]@[j]) == quad_vertex3(
                square_triangles()[t][j],
                axis_index as int,
            ),
{
    let quad = quad_3D_discrete_vertices();
    proof {
        lemma_bits_below_eight();
    }
    let mut vertices: Vec<IVec3> = Vec::new();
    let mut i: usize = 0;
    while i < quad.0.len()
        invariant
            0 <= i <= 4,
            axis_index < 3,
            is_square_corners(quad.0@),
            vertices@.len() == i,
            forall|t: int| 0 <= t < i ==> #[trigger] vertices@[t] == quad_vertex3(t, axis_index as int),
        decreases 4 - i,
    {
        let corner2 = quad.0[i];
        let array2: [i32; 2] = corner2.map(-1, 0);
        proof {
            lemma_bits_below_eight();
            assert(quad.0@[i as int].is_numbered(i as nat));
            assert(corner2.sign(0) == if bit(i as nat, 0) { Sign::NEG } else { Sign::POS });
            assert(corner2.sign(1) == if bit(i as nat, 1) { Sign::NEG } else { Sign::POS });
            assert(array2@[0] == corner2.sign(0).spec_map(-1i32, 0i32));
            assert(array2@[1] == corner2.sign(1).spec_map(-1i32, 0i32));
        }
        let vertex = IVec3::new(array2[0], array2[1], 0).swap_axis(axis_index);
        vertices.push(vertex);
        i += 1;
    }
    let mut triangles: Vec<[IVec3; 3]> = Vec::new();
    let mut t: usize = 0;
    while t < quad.1.len()
        invariant
            0 <= t <= 2,
            rows_are(quad.1@, square_triangles()),
            vertices@.len() == 4,
            forall|i: int| 0 <= i < 4 ==> #[trigger] vertices@[i] == quad_vertex3(i, axis_index as int),
            triangles@.len() == t,
            forall|r: int, j: int|
                0 <= r < t && 0 <= j < 3 ==> (#[trigger] triangles@[r]@[j]) == quad_vertex3(
                    square_triangles()[r][j],
                    axis_index as int,
                ),
        decreases 2 - t,
    {
        let vertex_indeces: [usize; 3] = quad.1[t];
        proof {
            assert(quad.1@[t as int]@[0] as int == square_triangles()[t as int][0]);
            assert(quad.1@[t as int]@[1] as int == square_triangles()[t as int][1]);
            assert(quad.1@[t as int]@[2] as int == square_triangles()[t as int][2]);
        }
        let triangle: [IVec3; 3] = [
            vertices[vertex_indeces[0]],
            vertices[vertex_indeces[1]],
            vertices[vertex_indeces[2]],
        ];
        let ghost before = triangles@;
        triangles.push(triangle);
        proof {
            assert forall|r: int, j: int| 0 <= r < t + 1 && 0 <= j < 3 implies (
            #[trigger] triangles@[r]@[j]) == quad_vertex3(square_triangles()[r][j], axis_index as int) by {
                if r < t {
                    assert(triangles@[r] == before[r]);
                }
            }
        }
        t += 1;
    }
    (vertices, triangles)
}

/// The four lattice cells around `pair`, each named by its corner with the
/// smallest coordinates.
pub open spec fn pair_cells3(pair: BorderPair3D) -> Seq<IVec3> {
    Seq::new(4, |i: int| quad_vertex3(i, pair.axis_index as int).spec_plus(pair.A))
}

/// The two triangles between the cells around `pair`.
pub open spec fn pair_triangles3(pair: BorderPair3D) -> Seq<Seq<IVec3>> {
    Seq::new(
        2,
        |t: int| Seq::new(3, |j: int| pair_cells3(pair)[square_triangles()[t][j]]),
    )
}

/// The cells around all the pairs, pair after pair.
pub open spec fn all_cells3(pairs: Seq<BorderPair3D>) -> Seq<IVec3>
    decreases pairs.len(),
{
    if pairs.len() == 0 {
        Seq::<IVec3>::empty()
    } else {
        all_cells3(pairs.drop_last()) + pair_cells3(pairs.last())
    }
}

/// The triangles of all the pairs, pair after pair.
pub open spec fn all_triangles3(pairs: Seq<BorderPair3D>) -> Seq<Seq<IVec3>>
    decreases pairs.len(),
{
    if pairs.len() == 0 {
        Seq::<Seq<IVec3>>::empty()
    } else {
        all_triangles3(pairs.drop_last()) + pair_triangles3(pairs.last())
    }
}

/// All eight corners of the lattice cell `cell` have been sampled.
pub open spec fn cell_sampled3(samples: Map<u128, u32>, cell: IVec3) -> bool {
    forall|dx: int, dy: int, dz: int|
        0 <= dx <= 1 && 0 <= dy <= 1 && 0 <= dz <= 1 ==> samples.contains_key(
            key_of3(#[trigger] cell.shifted(dx, dy, dz)),
        )
}

/// The cloud is one that a vertex can be placed from: its pairs are well
/// formed, away from the ends of the lattice, and sampled all around.
pub open spec fn is_meshable3(cloud: SampleCloud3D) -> bool {
    forall|i: int|
        0 <= i < cloud.border_pairs@.len() ==> {
            &&& (#[trigger] cloud.border_pairs@[i]).wf()
            &&& cloud.border_pairs@[i].A.is_inner()
            &&& box_sampled3(cloud.sample_map@, cloud.border_pairs@[i])
        }
}

/// The mesh has one vertex for every lattice cell around a border pair of
/// the cloud, placed by `place` and listed in the order in which the cells
/// first occur, and two triangles for every border pair, in the order of the
/// pairs, whose indices point at the vertices of their cells.
pub open spec fn is_lattice_mesh3<V, P: Fn(IVec3, &SampleCloud3D) -> V>(
    mesh: Mesh3D<V>,
    cloud: SampleCloud3D,
    place: P,
) -> bool {
    let cells = first_occurrences(all_cells3(cloud.border_pairs@));
    let triangles = all_triangles3(cloud.border_pairs@);
    &&& mesh.vertices@.len() == cells.len()
    &&& forall|k: int|
        0 <= k < cells.len() ==> call_ensures(place, (cells[k], &cloud), #[trigger] mesh.vertices@[k])
    &&& mesh.indeces@.len() == triangles.len()
    &&& forall|r: int, j: int|
        0 <= r < triangles.len() && 0 <= j < 3 ==> (#[trigger] mesh.indeces@[r]@[j]) < cells.len()
            && cells[mesh.indeces@[r]@[j] as int] == triangles[r][j]
    &&& mesh.skeleton_indeces@.len() == 0
}

/// A point of the block around `pair` is sampled where the block is.
pub proof fn lemma_box_point_sampled3(samples: Map<u128, u32>, pair: BorderPair3D, offset: IVec3)
    requires
        pair.axis_index < 3,
        box_sampled3(samples, pair),
        in_box3(offset, pair.axis_index as int),
    ensures
        samples.contains_key(key_of3(offset.spec_plus(pair.A))),
{
    let axis = pair.axis_index as int;
    lemma_box_covered3(axis);
    let boxed = box_points3(axis);
    assert(boxed.contains(offset));
    let k = choose|k: int| 0 <= k < boxed.len() && boxed[k] == offset;
    assert(samples.contains_key(key_of3(box_points3(pair.axis_index as int)[k].spec_plus(pair.A))));
}

/// The cells around a pair whose block is sampled are sampled at all corners.
pub proof fn lemma_pair_cells_sampled3(samples: Map<u128, u32>, pair: BorderPair3D, i: int)
    requires
        pair.wf(),
        pair.A.is_inner(),
        box_sampled3(samples, pair),
        0 <= i < 4,
    ensures
        cell_sampled3(samples, pair_cells3(pair)[i]),
{
    let axis = pair.axis_index as int;
    let rel = quad_vertex3(i, axis);
    let cell = pair_cells3(pair)[i];
    assert(cell == rel.spec_plus(pair.A));
    assert forall|dx: int, dy: int, dz: int|
        0 <= dx <= 1 && 0 <= dy <= 1 && 0 <= dz <= 1 implies samples.contains_key(
        key_of3(#[trigger] cell.shifted(dx, dy, dz)),
    ) by {
        let offset = rel.shifted(dx, dy, dz);
        assert(in_box3(offset, axis));
        lemma_box_point_sampled3(samples, pair, offset);
        assert(offset.spec_plus(pair.A) == cell.shifted(dx, dy, dz));
    }
}

/// The key of a cell.
pub open spec fn cell_key3() -> spec_fn(IVec3) -> u128 {
    |cell: IVec3| key_of3(cell)
}

/// Every corner of every triangle is one of the cells.
pub proof fn lemma_triangle_cells_listed3(pairs: Seq<BorderPair3D>)
    ensures
        all_triangles3(pairs).len() == 2 * pairs.len(),
        all_cells3(pairs).len() == 4 * pairs.len(),
        forall|r: int, j: int|
            0 <= r < all_triangles3(pairs).len() && 0 <= j < 3 ==> all_cells3(pairs).contains(
                #[trigger] all_triangles3(pairs)[r][j],
            ),
    decreases pairs.len(),
{
    if pairs.len() > 0 {
        let head = pairs.drop_last();
        let last = pairs.last();
        lemma_triangle_cells_listed3(head);
        let cells = all_cells3(pairs);
        let triangles = all_triangles3(pairs);
        assert forall|r: int, j: int|
            0 <= r < triangles.len() && 0 <= j < 3 implies cells.contains(
            #[trigger] triangles[r][j],
        ) by {
            if r < all_triangles3(head).len() {
                assert(triangles[r] == all_triangles3(head)[r]);
                assert(all_cells3(head).contains(all_triangles3(head)[r][j]));
                let k = choose|k: int|
                    0 <= k < all_cells3(head).len() && all_cells3(head)[k] == triangles[r][j];
                assert(cells[k] == triangles[r][j]);
            } else {
                let t = r - all_triangles3(head).len();
                assert(triangles[r] == pair_triangles3(last)[t]);
                let c = square_triangles()[t][j];
                assert(0 <= c < 4);
                assert(triangles[r][j] == pair_cells3(last)[c]);
                assert(cells[all_cells3(head).len() + c] == pair_cells3(last)[c]);
            }
        }
    }
}

/// The squares across the three axes.
fn relative_quads3() -> (quads: Vec<(Vec<IVec3>, Vec<[IVec3; 3]>)>)
    ensures
        quads@.len() == 3,
        forall|axis: int|
            0 <= axis < 3 ==> {
                &&& (#[trigger] quads@[axis]).0@.len() == 4
                &&& forall|i: int| 0 <= i < 4 ==> #[trigger] quads@[axis].0@[i] == quad_vertex3(i, axis)
                &&& quads@[axis].1@.len() == 2
                &&& forall|t: int, j: int|
                    0 <= t < 2 && 0 <= j < 3 ==> (#[trigger] quads@[axis].1@[t]@[j]) == quad_vertex3(
                        square_triangles()[t][j],
                        axis,
                    )
            },
{
    let mut quads: Vec<(Vec<IVec3>, Vec<[IVec3; 3]>)> = Vec::new();
    quads.push(get_quad_3D_with_nth_axis_as_normal(0));
    quads.push(get_quad_3D_with_nth_axis_as_normal(1));
    quads.push(get_quad_3D_with_nth_axis_as_normal(2));
    quads
}

/// The vertices placed so far are those of the cells `cells`, which the map
/// knows by their keys.
spec fn vertices_placed3<V, P: Fn(IVec3, &SampleCloud3D) -> V>(
    cloud: SampleCloud3D,
    place: P,
    keys: Seq<u128>,
    vertices: Seq<V>,
    cells: Seq<IVec3>,
) -> bool {
    &&& keys == cells.map_values(cell_key3())
    &&& vertices.len() == cells.len()
    &&& forall|k: int|
        0 <= k < cells.len() ==> call_ensures(place, (cells[k], &cloud), #[trigger] vertices[k])
}

/// Makes sure that the cell has its vertex.
fn place_cell3<V, P: Fn(IVec3, &SampleCloud3D) -> V>(
    cloud: &SampleCloud3D,
    place: &P,
    cell: IVec3,
    keys: &mut IndexMap<u128, (), RandomState>,
    vertices: &mut Vec<V>,
    Ghost(flat): Ghost<Seq<IVec3>>,
)
    requires
        call_requires(*place, (cell, cloud)),
        vertices_placed3(
            *cloud,
            *place,
            index_map_keys(*old(keys)),
            old(vertices)@,
            first_occurrences(flat),
        ),
    ensures
        vertices_placed3(
            *cloud,
            *place,
            index_map_keys(*final(keys)),
            final(vertices)@,
            first_occurrences(flat.push(cell)),
        ),
{
    let ghost cells = first_occurrences(flat);
    let ghost old_vertices = vertices@;
    let key: u128 = cell.key_exec();
    let known = index_map_get_index_of(keys, key);
    proof {
        assert(flat.push(cell).drop_last() =~= flat);
        assert(flat.push(cell).last() == cell);
        if cells.contains(cell) {
            let i = choose|i: int| 0 <= i < cells.len() && cells[i] == cell;
            assert(index_map_keys(*keys)[i] == key);
        }
        if index_map_keys(*keys).contains(key) {
            let i = choose|i: int|
                0 <= i < index_map_keys(*keys).len() && index_map_keys(*keys)[i] == key;
            lemma_key3_injective(cells[i], cell);
            assert(cells.contains(cell));
        }
    }
    if known.is_none() {
        let vertex = place(cell, cloud);
        index_map_insert_if_absent(keys, key);
        vertices.push(vertex);
        proof {
            let now = first_occurrences(flat.push(cell));
            assert(now == cells.push(cell));
            assert(index_map_keys(*keys) =~= now.map_values(cell_key3()));
            assert forall|k: int| 0 <= k < now.len() implies call_ensures(
                *place,
                (now[k], cloud),
                #[trigger] vertices@[k],
            ) by {
                if k < cells.len() {
                    assert(vertices@[k] == old_vertices[k]);
                }
            }
        }
    }
}

/// `rows` holds exactly the lattice triangles `triangles`.
spec fn lattice_rows_are3(rows: Seq<[IVec3; 3]>, triangles: Seq<Seq<IVec3>>) -> bool {
    &&& rows.len() == triangles.len()
    &&& forall|r: int, j: int|
        0 <= r < rows.len() && 0 <= j < 3 ==> (#[trigger] rows[r]@[j]) == triangles[r][j]
}

/// The mesh of the surface that the cloud describes: see [`is_lattice_mesh3`].
pub fn mesh_from_sample_cloud_3D<V, P: Fn(IVec3, &SampleCloud3D) -> V>(
    sample_cloud: &SampleCloud3D,
    place: &P,
) -> (mesh: Mesh3D<V>)
    requires
        is_meshable3(*sample_cloud),
        forall|cell: IVec3|
            cell_sampled3(sample_cloud.sample_map@, cell) ==> call_requires(
                *place,
                (cell, sample_cloud),
            ),
    ensures
        is_lattice_mesh3(mesh, *sample_cloud, *place),
        mesh.wf(),
{
    let relative_quads = relative_quads3();
    let mut keys = index_map_new();
    let mut vertices: Vec<V> = Vec::new();
    let mut triangles: Vec<[IVec3; 3]> = Vec::new();
    let ghost pairs = sample_cloud.border_pairs@;
    let ghost mut flat: Seq<IVec3> = Seq::empty();
    let mut b: usize = 0;
    proof {
        assert(pairs.subrange(0, 0) =~= Seq::<BorderPair3D>::empty());
        assert(index_map_keys(keys) =~= first_occurrences(flat).map_values(cell_key3()));
    }
    while b < sample_cloud.border_pairs.len()
        invariant
            0 <= b <= pairs.len(),
            pairs == sample_cloud.border_pairs@,
            is_meshable3(*sample_cloud),
            forall|cell: IVec3|
                cell_sampled3(sample_cloud.sample_map@, cell) ==> call_requires(
                    *place,
                    (cell, sample_cloud),
                ),
            relative_quads@.len() == 3,
            forall|axis: int|
                0 <= axis < 3 ==> {
                    &&& (#[trigger] relative_quads@[axis]).0@.len() == 4
                    &&& forall|i: int|
                        0 <= i < 4 ==> #[trigger] relative_quads@[axis].0@[i] == quad_vertex3(i, axis)
                    &&& relative_quads@[axis].1@.len() == 2
                    &&& forall|t: int, j: int|
                        0 <= t < 2 && 0 <= j < 3 ==> (#[trigger] relative_quads@[axis].1@[t]@[j])
                            == quad_vertex3(square_triangles()[t][j], axis)
                },
            flat == all_cells3(pairs.subrange(0, b as int)),
            vertices_placed3(
                *sample_cloud,
                *place,
                index_map_keys(keys),
                vertices@,
                first_occurrences(flat),
            ),
            lattice_rows_are3(triangles@, all_triangles3(pairs.subrange(0, b as int))),
        decreases pairs.len() - b,
    {
        let border_pair = sample_cloud.border_pairs[b];
        let ghost axis = border_pair.axis_index as int;
        proof {
            assert(pairs[b as int].wf());
            assert(pairs[b as int].A.is_inner());
            assert(pairs.subrange(0, b + 1).drop_last() =~= pairs.subrange(0, b as int));
            assert(pairs.subrange(0, b + 1).last() == border_pair);
        }
        let relative_vertices = &relative_quads[border_pair.axis_index].0;
        let relative_triangles = &relative_quads[border_pair.axis_index].1;
        let ghost flat_before = flat;
        let mut i: usize = 0;
        while i < relative_vertices.len()
            invariant
                0 <= i <= 4,
                0 <= axis < 3,
                axis == border_pair.axis_index,
                border_pair.wf(),
                border_pair.A.is_inner(),
                box_sampled3(sample_cloud.sample_map@, border_pair),
                forall|cell: IVec3|
                    cell_sampled3(sample_cloud.sample_map@, cell) ==> call_requires(
                        *place,
                        (cell, sample_cloud),
                    ),
                relative_vertices@.len() == 4,
                forall|t: int| 0 <= t < 4 ==> #[trigger] relative_vertices@[t] == quad_vertex3(t, axis),
                flat == flat_before + pair_cells3(border_pair).subrange(0, i as int),
                vertices_placed3(
                    *sample_cloud,
                    *place,
                    index_map_keys(keys),
                    vertices@,
                    first_occurrences(flat),
                ),
            decreases 4 - i,
        {
            let relative_vertex = relative_vertices[i];
            proof {
                assert(relative_vertex == quad_vertex3(i as int, axis));
            }
            let discrete_corner_vertex = relative_vertex.plus(border_pair.A);
            proof {
                assert(discrete_corner_vertex == pair_cells3(border_pair)[i as int]);
                lemma_pair_cells_sampled3(sample_cloud.sample_map@, border_pair, i as int);
                assert(flat.push(discrete_corner_vertex) =~= flat_before + pair_cells3(
                    border_pair,
                ).subrange(0, i + 1));
            }
            place_cell3(
                sample_cloud,
                place,
                discrete_corner_vertex,
                &mut keys,
                &mut vertices,
                Ghost(flat),
            );
            proof {
                flat = flat.push(discrete_corner_vertex);
            }
            i += 1;
        }
        proof {
            assert(pair_cells3(border_pair).subrange(0, 4) =~= pair_cells3(border_pair));
        }
        let ghost triangles_before = triangles@;
        let ghost listed = all_triangles3(pairs.subrange(0, b as int));
        let mut t: usize = 0;
        while t < relative_triangles.len()
            invariant
                0 <= t <= 2,
                0 <= axis < 3,
                axis == border_pair.axis_index,
                border_pair.wf(),
                border_pair.A.is_inner(),
                relative_triangles@.len() == 2,
                forall|r: int, j: int|
                    0 <= r < 2 && 0 <= j < 3 ==> (#[trigger] relative_triangles@[r]@[j])
                        == quad_vertex3(square_triangles()[r][j], axis),
                lattice_rows_are3(
                    triangles@,
                    listed + pair_triangles3(border_pair).subrange(0, t as int),
                ),
            decreases 2 - t,
        {
            let relative_triangle: [IVec3; 3] = relative_triangles[t];
            proof {
                assert(relative_triangles@[t as int]@[0] == quad_vertex3(
                    square_triangles()[t as int][0],
                    axis,
                ));
                assert(relative_triangles@[t as int]@[1] == quad_vertex3(
                    square_triangles()[t as int][1],
                    axis,
                ));
                assert(relative_triangles@[t as int]@[2] == quad_vertex3(
                    square_triangles()[t as int][2],
                    axis,
                ));
            }
            let triangle: [IVec3; 3] = [
                relative_triangle[0].plus(border_pair.A),
                relative_triangle[1].plus(border_pair.A),
                relative_triangle[2].plus(border_pair.A),
            ];
            let ghost rows_before = triangles@;
            triangles.push(triangle);
            proof {
                let target = listed + pair_triangles3(border_pair).subrange(0, t + 1);
                let before = listed + pair_triangles3(border_pair).subrange(0, t as int);
                assert forall|r: int, j: int|
                    0 <= r < triangles@.len() && 0 <= j < 3 implies (#[trigger] triangles@[r]@[j])
                    == target[r][j] by {
                    if r < rows_before.len() {
                        assert(triangles@[r] == rows_before[r]);
                        assert(target[r] == before[r]);
                    } else {
                        assert(target[r] == pair_triangles3(border_pair)[t as int]);
                    }
                }
            }
            t += 1;
        }
        proof {
            assert(pair_triangles3(border_pair).subrange(0, 2) =~= pair_triangles3(border_pair));
        }
        b += 1;
    }
    proof {
        assert(pairs.subrange(0, pairs.len() as int) =~= pairs);
        lemma_triangle_cells_listed3(pairs);
        lemma_first_occurrences(flat);
    }
    let ghost cells = first_occurrences(flat);
    let ghost listed = all_triangles3(pairs);
    let mut indeces: Vec<[usize; 3]> = Vec::new();
    let mut r: usize = 0;
    while r < triangles.len()
        invariant
            0 <= r <= triangles@.len(),
            lattice_rows_are3(triangles@, listed),
            index_map_keys(keys) == cells.map_values(cell_key3()),
            cells.no_duplicates(),
            forall|q: int, j: int|
                0 <= q < listed.len() && 0 <= j < 3 ==> cells.contains(#[trigger] listed[q][j]),
            indeces@.len() == r,
            forall|q: int, j: int|
                0 <= q < r && 0 <= j < 3 ==> (#[trigger] indeces@[q]@[j]) < cells.len()
                    && cells[indeces@[q]@[j] as int] == listed[q][j],
        decreases triangles@.len() - r,
    {
        let triangle: [IVec3; 3] = triangles[r];
        proof {
            assert(triangles@[r as int]@[0] == listed[r as int][0]);
            assert(triangles@[r as int]@[1] == listed[r as int][1]);
            assert(triangles@[r as int]@[2] == listed[r as int][2]);
        }
        let a = index_of_cell3(&keys, triangle[0], Ghost(cells));
        let b2 = index_of_cell3(&keys, triangle[1], Ghost(cells));
        let c = index_of_cell3(&keys, triangle[2], Ghost(cells));
        let ghost before = indeces@;
        indeces.push([a, b2, c]);
        proof {
            assert forall|q: int, j: int| 0 <= q < r + 1 && 0 <= j < 3 implies (
            #[trigger] indeces@[q]@[j]) < cells.len() && cells[indeces@[q]@[j] as int]
                == listed[q][j] by {
                if q < r {
                    assert(indeces@[q] == before[q]);
                }
            }
        }
        r += 1;
    }
    Mesh { vertices, indeces, skeleton_indeces: Vec::new() }
}

/// The position of the vertex of `cell`.
fn index_of_cell3(keys: &IndexMap<u128, (), RandomState>, cell: IVec3, Ghost(cells): Ghost<Seq<IVec3>>) -> (index: usize)
    requires
        index_map_keys(*keys) == cells.map_values(cell_key3()),
        cells.contains(cell),
    ensures
        index < cells.len(),
        cells[index as int] == cell,
{
    let key: u128 = cell.key_exec();
    let found = index_map_get_index_of(keys, key);
    proof {
        let i = choose|i: int| 0 <= i < cells.len() && cells[i] == cell;
        assert(index_map_keys(*keys)[i] == key);
        if let Some(k) = found {
            lemma_key3_injective(cells[k as int], cell);
        }
    }
    match found {
        Some(index) => index,
        None => 0,
    }
}

/// `place` may be asked for the vertex of every cell whose corners are all
/// sampled in a cloud of samples of `function`.
pub open spec fn can_place3<V, F: Fn(IVec3) -> u32, P: Fn(IVec3, &SampleCloud3D) -> V>(
    function: F,
    place: P,
) -> bool {
    forall|cloud: SampleCloud3D, cell: IVec3|
        samples_agree3(function, cloud.sample_map@) && cell_sampled3(cloud.sample_map@, cell)
            ==> #[trigger] call_requires(place, (cell, &cloud))
}

/// `mesh` is the mesh of the piece of the surface of `function` that the
/// bisection between the two points leads to, with its vertices placed by `place`.
pub open spec fn is_isosurface_mesh3<V, F: Fn(IVec3) -> u32, P: Fn(IVec3, &SampleCloud3D) -> V>(
    mesh: Mesh3D<V>,
    function: F,
    place: P,
    negative_point: IVec3,
    positive_point: IVec3,
) -> bool {
    exists|cloud: SampleCloud3D|
        is_surface_component3(function, initial_pair3(function, negative_point, positive_point), cloud)
            && #[trigger] is_lattice_mesh3(mesh, cloud, place)
}

/// The search for the surface from the two points came within two steps of
/// the end of the lattice at `pair`.
pub open spec fn leaves_lattice3<F: Fn(IVec3) -> u32>(
    function: F,
    negative_point: IVec3,
    positive_point: IVec3,
    pair: BorderPair3D,
) -> bool {
    reachable3(function, initial_pair3(function, negative_point, positive_point), pair)
        && !pair.A.is_inner()
}

/// The triangle mesh, without skeleton, of the connected piece of the zero
/// level set of `function` that lies between the two points.
pub fn get_connected_isosurface_3D_no_skeleton<
    V,
    F: Fn(IVec3) -> u32,
    P: Fn(IVec3, &SampleCloud3D) -> V,
>(function: &F, place: &P, negative_point: IVec3, positive_point: IVec3) -> (result: Result<
    Mesh3D<V>,
    BorderPair3D,
>)
    requires
        is_pure_field::<IVec3, F>(*function),
        !positive_at(*function, negative_point),
        positive_at(*function, positive_point),
        can_place3(*function, *place),
    ensures
        match result {
            Ok(mesh) => mesh.wf() && is_isosurface_mesh3(
                mesh,
                *function,
                *place,
                negative_point,
                positive_point,
            ),
            Err(pair) => leaves_lattice3(*function, negative_point, positive_point, pair),
        },
{
    match SampleCloud3D::new(function, negative_point, positive_point) {
        Ok(sample_cloud) => {
            proof {
                assert forall|cell: IVec3|
                    cell_sampled3(sample_cloud.sample_map@, cell) implies call_requires(
                    *place,
                    (cell, &sample_cloud),
                ) by {
                    assert(samples_agree3(*function, sample_cloud.sample_map@));
                }
            }
            let mesh = mesh_from_sample_cloud_3D(&sample_cloud, place);
            proof {
                assert(is_lattice_mesh3(mesh, sample_cloud, *place));
            }
            Ok(mesh)
        },
        Err(pair) => Err(pair),
    }
}

/// `mesh` is `main_mesh` with the vertices of `skeleton_mesh` appended and one
/// skeleton point for each of them.
pub open spec fn is_mesh_with_skeleton3<V>(
    mesh: Mesh3D<V>,
    main_mesh: Mesh3D<V>,
    skeleton_mesh: Mesh3D<V>,
) -> bool {
    &&& mesh.vertices@ == main_mesh.vertices@ + skeleton_mesh.vertices@
    &&& mesh.indeces@ == main_mesh.indeces@
    &&& mesh.skeleton_indeces@.len() == skeleton_mesh.vertices@.len()
    &&& forall|i: int|
        0 <= i < mesh.skeleton_indeces@.len() ==> (#[trigger] mesh.skeleton_indeces@[i])@[0]
            == main_mesh.vertices@.len() + i
}

/// The triangle mesh of the surface of `function` between its two points,
/// with the vertices of the surface of `skeleton_function` between its two
/// points attached as skeleton.
pub fn get_connected_isosurface_3D<
    V,
    Field: Fn(IVec3) -> u32,
    Place: Fn(IVec3, &SampleCloud3D) -> V,
    SkeletonField: Fn(IVec3) -> u32,
    SkeletonPlace: Fn(IVec3, &SampleCloud3D) -> V,
>(
    function: &Field,
    place: &Place,
    negative_point: IVec3,
    positive_point: IVec3,
    skeleton_function: &SkeletonField,
    skeleton_place: &SkeletonPlace,
    skeleton_negative_point: IVec3,
    skeleton_positive_point: IVec3,
) -> (result: Result<Mesh3D<V>, BorderPair3D>)
    requires
        is_pure_field::<IVec3, Field>(*function),
        !positive_at(*function, negative_point),
        positive_at(*function, positive_point),
        can_place3(*function, *place),
        is_pure_field::<IVec3, SkeletonField>(*skeleton_function),
        !positive_at(*skeleton_function, skeleton_negative_point),
        positive_at(*skeleton_function, skeleton_positive_point),
        can_place3(*skeleton_function, *skeleton_place),
    ensures
        match result {
            Ok(mesh) => mesh.wf() && exists|main_mesh: Mesh3D<V>, skeleton_mesh: Mesh3D<V>|
                {
                    &&& is_isosurface_mesh3(
                        main_mesh,
                        *function,
                        *place,
                        negative_point,
                        positive_point,
                    )
                    &&& is_isosurface_mesh3(
                        skeleton_mesh,
                        *skeleton_function,
                        *skeleton_place,
                        skeleton_negative_point,
                        skeleton_positive_point,
                    )
                    &&& #[trigger] is_mesh_with_skeleton3(mesh, main_mesh, skeleton_mesh)
                },
            Err(pair) => leaves_lattice3(*function, negative_point, positive_point, pair)
                || leaves_lattice3(
                *skeleton_function,
                skeleton_negative_point,
                skeleton_positive_point,
                pair,
            ),
        },
{
    let main = get_connected_isosurface_3D_no_skeleton(
        function,
        place,
        negative_point,
        positive_point,
    );
    match main {
        Ok(main_mesh) => {
            let skeleton = get_connected_isosurface_3D_no_skeleton(
                skeleton_function,
                skeleton_place,
                skeleton_negative_point,
                skeleton_positive_point,
            );
            match skeleton {
                Ok(skeleton_mesh) => {
                    let mut mesh = main_mesh;
                    let ghost main_ghost = mesh;
                    let ghost skeleton_ghost = skeleton_mesh;
                    mesh.attach_skeleton(skeleton_mesh);
                    proof {
                        assert(is_mesh_with_skeleton3(mesh, main_ghost, skeleton_ghost));
                    }
                    Ok(mesh)
                },
                Err(pair) => Err(pair),
            }
        },
        Err(pair) => Err(pair),
    }
}

/// Corner `i` of the cube around a pair along `axis`, relative to the lower
/// point of the pair. Unmirrored, a coordinate is zero where the corner is
/// negative and minus one where it is positive; mirrored, the other way
/// round. Along the axis it is zero.
pub open spec fn cube_vertex4(i: int, axis: int, mirrored: bool) -> IVec4 {
    (IVec4 {
        x: if (i % 2 == 1) == mirrored { -1i32 } else { 0i32 },
        y: if ((i / 2) % 2 == 1) == mirrored { -1i32 } else { 0i32 },
        z: if ((i / 4) % 2 == 1) == mirrored { -1i32 } else { 0i32 },
        w: 0,
    }).axis_swapped(axis)
}

/// The eight corners of the cube across `axis_index` and its five
/// tetrahedra, in the mirrored or in the unmirrored form.
pub fn get_cube_4D_with_nth_axis_as_normal(axis_index: usize, mirrored: bool) -> (out: (
    Vec<IVec4>,
    Vec<[IVec4; 4]>,
))
    requires
        axis_index < 4,
    ensures
        out.0@.len() == 8,
        forall|i: int|
            0 <= i < 8 ==> #[trigger] out.0@[i] == cube_vertex4(i, axis_index as int, mirrored),
        out.1@.len() == 5,
        forall|t: int, j: int|
            0 <= t < 5 && 0 <= j < 4 ==> (#[trigger] out.1@[t]@[j]) == cube_vertex4(
                cube_tetrahedra()[t][j],
                axis_index as int,
                mirrored,
            ),
{
    let cube = cube_4D_discrete_vertices();
    let coord_A: i32 = if mirrored {
        -1
    } else {
        0
    };
    let coord_B: i32 = if mirrored {
        0
    } else {
        -1
    };
    let mut vertices: Vec<IVec4> = Vec::new();
    let mut i: usize = 0;
    while i < cube.0.len()
        invariant
            0 <= i <= 8,
            axis_index < 4,
            coord_A == (if mirrored { -1i32 } else { 0i32 }),
            coord_B == (if mirrored { 0i32 } else { -1i32 }),
            is_cube_corners(cube.0@),
            vertices@.len() == i,
            forall|t: int|
                0 <= t < i ==> #[trigger] vertices@[t] == cube_vertex4(t, axis_index as int, mirrored),
        decreases 8 - i,
    {
        let corner3 = cube.0[i];
        let array3: [i32; 3] = corner3.map(coord_A, coord_B);
        proof {
            lemma_bits_below_eight();
            assert(cube.0@[i as int].is_numbered(i as nat));
            assert(corner3.sign(0) == if bit(i as nat, 0) { Sign::NEG } else { Sign::POS });
            assert(corner3.sign(1) == if bit(i as nat, 1) { Sign::NEG } else { Sign::POS });
            assert(corner3.sign(2) == if bit(i as nat, 2) { Sign::NEG } else { Sign::POS });
            assert(array3@[0] == corner3.sign(0).spec_map(coord_A, coord_B));
            assert(array3@[1] == corner3.sign(1).spec_map(coord_A, coord_B));
            assert(array3@[2] == corner3.sign(2).spec_map(coord_A, coord_B));
        }
        let vertex = IVec4::new(array3[0], array3[1], array3[2], 0).swap_axis(axis_index);
        vertices.push(vertex);
        i += 1;
    }
    let mut tetrahedra: Vec<[IVec4; 4]> = Vec::new();
    let mut t: usize = 0;
    while t < cube.1.len()
        invariant
            0 <= t <= 5,
            rows_are(cube.1@, cube_tetrahedra()),
            vertices@.len() == 8,
            forall|i: int|
                0 <= i < 8 ==> #[trigger] vertices@[i] == cube_vertex4(i, axis_index as int, mirrored),
            tetrahedra@.len() == t,
            forall|r: int, j: int|
                0 <= r < t && 0 <= j < 4 ==> (#[trigger] tetrahedra@[r]@[j]) == cube_vertex4(
                    cube_tetrahedra()[r][j],
                    axis_index as int,
                    mirrored,
                ),
        decreases 5 - t,
    {
        let vertex_indeces: [usize; 4] = cube.1[t];
        proof {
            assert(cube.1@[t as int]@[0] as int == cube_tetrahedra()[t as int][0]);
            assert(cube.1@[t as int]@[1] as int == cube_tetrahedra()[t as int][1]);
            assert(cube.1@[t as int]@[2] as int == cube_tetrahedra()[t as int][2]);
            assert(cube.1@[t as int]@[3] as int == cube_tetrahedra()[t as int][3]);
        }
        let tetrahedron: [IVec4; 4] = [
            vertices[vertex_indeces[0]],
            vertices[vertex_indeces[1]],
            vertices[vertex_indeces[2]],
            vertices[vertex_indeces[3]],
        ];
        let ghost before = tetrahedra@;
        tetrahedra.push(tetrahedron);
        proof {
            assert forall|r: int, j: int| 0 <= r < t + 1 && 0 <= j < 4 implies (
            #[trigger] tetrahedra@[r]@[j]) == cube_vertex4(
                cube_tetrahedra()[r][j],
                axis_index as int,
                mirrored,
            ) by {
                if r < t {
                    assert(tetrahedra@[r] == before[r]);
                }
            }
        }
        t += 1;
    }
    (vertices, tetrahedra)
}

/// The eight lattice cells around `pair`, each named by its corner with the
/// smallest coordinates.
pub open spec fn pair_cells4(pair: BorderPair4D) -> Seq<IVec4> {
    Seq::new(
        8,
        |i: int| cube_vertex4(i, pair.axis_index as int, pair_mirrored4(pair)).spec_plus(pair.A),
    )
}

/// The five tetrahedra between the cells around `pair`.
pub open spec fn pair_tetrahedra4(pair: BorderPair4D) -> Seq<Seq<IVec4>> {
    Seq::new(
        5,
        |t: int| Seq::new(4, |j: int| pair_cells4(pair)[cube_tetrahedra()[t][j]]),
    )
}

/// The cells around all the pairs, pair after pair.
pub open spec fn all_cells4(pairs: Seq<BorderPair4D>) -> Seq<IVec4>
    decreases pairs.len(),
{
    if pairs.len() == 0 {
        Seq::<IVec4>::empty()
    } else {
        all_cells4(pairs.drop_last()) + pair_cells4(pairs.last())
    }
}

/// The tetrahedra of all the pairs, pair after pair.
pub open spec fn all_tetrahedra4(pairs: Seq<BorderPair4D>) -> Seq<Seq<IVec4>>
    decreases pairs.len(),
{
    if pairs.len() == 0 {
        Seq::<Seq<IVec4>>::empty()
    } else {
        all_tetrahedra4(pairs.drop_last()) + pair_tetrahedra4(pairs.last())
    }
}

/// All sixteen corners of the lattice cell `cell` have been sampled.
pub open spec fn cell_sampled4(samples: Map<u128, u32>, cell: IVec4) -> bool {
    forall|dx: int, dy: int, dz: int, dw: int|
        0 <= dx <= 1 && 0 <= dy <= 1 && 0 <= dz <= 1 && 0 <= dw <= 1 ==> samples.contains_key(
            key_of4(#[trigger] cell.shifted(dx, dy, dz, dw)),
        )
}

/// The cloud is one that a vertex can be placed from: its pairs are well
/// formed, away from the ends of the lattice, and sampled all around.
pub open spec fn is_meshable4(cloud: SampleCloud4D) -> bool {
    forall|i: int|
        0 <= i < cloud.border_pairs@.len() ==> {
            &&& (#[trigger] cloud.border_pairs@[i]).wf()
            &&& cloud.border_pairs@[i].A.is_inner()
            &&& box_sampled4(cloud.sample_map@, cloud.border_pairs@[i])
        }
}

/// The mesh has one vertex for every lattice cell around a border pair of
/// the cloud, placed by `place` and listed in the order in which the cells
/// first occur, and five tetrahedra for every border pair, in the order of the
/// pairs, whose indices point at the vertices of their cells.
pub open spec fn is_lattice_mesh4<V, P: Fn(IVec4, &SampleCloud4D) -> V>(
    mesh: Mesh4D<V>,
    cloud: SampleCloud4D,
    place: P,
) -> bool {
    let cells = first_occurrences(all_cells4(cloud.border_pairs@));
    let tetrahedra = all_tetrahedra4(cloud.border_pairs@);
    &&& mesh.vertices@.len() == cells.len()
    &&& forall|k: int|
        0 <= k < cells.len() ==> call_ensures(place, (cells[k], &cloud), #[trigger] mesh.vertices@[k])
    &&& mesh.indeces@.len() == tetrahedra.len()
    &&& forall|r: int, j: int|
        0 <= r < tetrahedra.len() && 0 <= j < 4 ==> (#[trigger] mesh.indeces@[r]@[j]) < cells.len()
            && cells[mesh.indeces@[r]@[j] as int] == tetrahedra[r][j]
    &&& mesh.skeleton_indeces@.len() == 0
}

/// A point of the block around `pair` is sampled where the block is.
pub proof fn lemma_box_point_sampled4(samples: Map<u128, u32>, pair: BorderPair4D, offset: IVec4)
    requires
        pair.axis_index < 4,
        box_sampled4(samples, pair),
        in_box4(offset, pair.axis_index as int),
    ensures
        samples.contains_key(key_of4(offset.spec_plus(pair.A))),
{
    let axis = pair.axis_index as int;
    lemma_box_covered4(axis);
    let boxed = box_points4(axis);
    assert(boxed.contains(offset));
    let k = choose|k: int| 0 <= k < boxed.len() && boxed[k] == offset;
    assert(samples.contains_key(key_of4(box_points4(pair.axis_index as int)[k].spec_plus(pair.A))));
}

/// The cells around a pair whose block is sampled are sampled at all corners.
pub proof fn lemma_pair_cells_sampled4(samples: Map<u128, u32>, pair: BorderPair4D, i: int)
    requires
        pair.wf(),
        pair.A.is_inner(),
        box_sampled4(samples, pair),
        0 <= i < 8,
    ensures
        cell_sampled4(samples, pair_cells4(pair)[i]),
{
    let axis = pair.axis_index as int;
    let rel = cube_vertex4(i, axis, pair_mirrored4(pair));
    let cell = pair_cells4(pair)[i];
    assert(cell == rel.spec_plus(pair.A));
    assert forall|dx: int, dy: int, dz: int, dw: int|
        0 <= dx <= 1 && 0 <= dy <= 1 && 0 <= dz <= 1 && 0 <= dw <= 1 implies samples.contains_key(
        key_of4(#[trigger] cell.shifted(dx, dy, dz, dw)),
    ) by {
        let offset = rel.shifted(dx, dy, dz, dw);
        assert(in_box4(offset, axis));
        lemma_box_point_sampled4(samples, pair, offset);
        assert(offset.spec_plus(pair.A) == cell.shifted(dx, dy, dz, dw));
    }
}

/// The key of a cell.
pub open spec fn cell_key4() -> spec_fn(IVec4) -> u128 {
    |cell: IVec4| key_of4(cell)
}

/// Every corner of every tetrahedron is one of the cells.
pub proof fn lemma_tetrahedron_cells_listed4(pairs: Seq<BorderPair4D>)
    ensures
        all_tetrahedra4(pairs).len() == 5 * pairs.len(),
        all_cells4(pairs).len() == 8 * pairs.len(),
        forall|r: int, j: int|
            0 <= r < all_tetrahedra4(pairs).len() && 0 <= j < 4 ==> all_cells4(pairs).contains(
                #[trigger] all_tetrahedra4(pairs)[r][j],
            ),
    decreases pairs.len(),
{
    if pairs.len() > 0 {
        let head = pairs.drop_last();
        let last = pairs.last();
        lemma_tetrahedron_cells_listed4(head);
        let cells = all_cells4(pairs);
        let tetrahedra = all_tetrahedra4(pairs);
        assert forall|r: int, j: int|
            0 <= r < tetrahedra.len() && 0 <= j < 4 implies cells.contains(
            #[trigger] tetrahedra[r][j],
        ) by {
            if r < all_tetrahedra4(head).len() {
                assert(tetrahedra[r] == all_tetrahedra4(head)[r]);
                assert(all_cells4(head).contains(all_tetrahedra4(head)[r][j]));
                let k = choose|k: int|
                    0 <= k < all_cells4(head).len() && all_cells4(head)[k] == tetrahedra[r][j];
                assert(cells[k] == tetrahedra[r][j]);
            } else {
                let t = r - all_tetrahedra4(head).len();
                assert(tetrahedra[r] == pair_tetrahedra4(last)[t]);
                let c = cube_tetrahedra()[t][j];
                assert(0 <= c < 8);
                assert(tetrahedra[r][j] == pair_cells4(last)[c]);
                assert(cells[all_cells4(head).len() + c] == pair_cells4(last)[c]);
            }
        }
    }
}

/// `cubes` holds, for each axis, the cube across it with its tetrahedra.
spec fn are_relative_cubes4(cubes: Seq<(Vec<IVec4>, Vec<[IVec4; 4]>)>, mirrored: bool) -> bool {
    &&& cubes.len() == 4
    &&& forall|axis: int|
        0 <= axis < 4 ==> {
            &&& (#[trigger] cubes[axis]).0@.len() == 8
            &&& forall|i: int|
                0 <= i < 8 ==> #[trigger] cubes[axis].0@[i] == cube_vertex4(i, axis, mirrored)
            &&& cubes[axis].1@.len() == 5
            &&& forall|t: int, j: int|
                0 <= t < 5 && 0 <= j < 4 ==> (#[trigger] cubes[axis].1@[t]@[j]) == cube_vertex4(
                    cube_tetrahedra()[t][j],
                    axis,
                    mirrored,
                )
        }
}

/// The cubes across the four axes, all of them mirrored or none.
fn relative_cubes4(mirrored: bool) -> (cubes: Vec<(Vec<IVec4>, Vec<[IVec4; 4]>)>)
    ensures
        are_relative_cubes4(cubes@, mirrored),
{
    let mut cubes: Vec<(Vec<IVec4>, Vec<[IVec4; 4]>)> = Vec::new();
    cubes.push(get_cube_4D_with_nth_axis_as_normal(0, mirrored));
    cubes.push(get_cube_4D_with_nth_axis_as_normal(1, mirrored));
    cubes.push(get_cube_4D_with_nth_axis_as_normal(2, mirrored));
    cubes.push(get_cube_4D_with_nth_axis_as_normal(3, mirrored));
    cubes
}

/// The vertices placed so far are those of the cells `cells`, which the map
/// knows by their keys.
spec fn vertices_placed4<V, P: Fn(IVec4, &SampleCloud4D) -> V>(
    cloud: SampleCloud4D,
    place: P,
    keys: Seq<u128>,
    vertices: Seq<V>,
    cells: Seq<IVec4>,
) -> bool {
    &&& keys == cells.map_values(cell_key4())
    &&& vertices.len() == cells.len()
    &&& forall|k: int|
        0 <= k < cells.len() ==> call_ensures(place, (cells[k], &cloud), #[trigger] vertices[k])
}

/// Makes sure that the cell has its vertex.
fn place_cell4<V, P: Fn(IVec4, &SampleCloud4D) -> V>(
    cloud: &SampleCloud4D,
    place: &P,
    cell: IVec4,
    keys: &mut IndexMap<u128, (), RandomState>,
    vertices: &mut Vec<V>,
    Ghost(flat): Ghost<Seq<IVec4>>,
)
    requires
        call_requires(*place, (cell, cloud)),
        vertices_placed4(
            *cloud,
            *place,
            index_map_keys(*old(keys)),
            old(vertices)@,
            first_occurrences(flat),
        ),
    ensures
        vertices_placed4(
            *cloud,
            *place,
            index_map_keys(*final(keys)),
            final(vertices)@,
            first_occurrences(flat.push(cell)),
        ),
{
    let ghost cells = first_occurrences(flat);
    let ghost old_vertices = vertices@;
    let key: u128 = cell.key_exec();
    let known = index_map_get_index_of(keys, key);
    proof {
        assert(flat.push(cell).drop_last() =~= flat);
        assert(flat.push(cell).last() == cell);
        if cells.contains(cell) {
            let i = choose|i: int| 0 <= i < cells.len() && cells[i] == cell;
            assert(index_map_keys(*keys)[i] == key);
        }
        if index_map_keys(*keys).contains(key) {
            let i = choose|i: int|
                0 <= i < index_map_keys(*keys).len() && index_map_keys(*keys)[i] == key;
            lemma_key4_injective(cells[i], cell);
            assert(cells.contains(cell));
        }
    }
    if known.is_none() {
        let vertex = place(cell, cloud);
        index_map_insert_if_absent(keys, key);
        vertices.push(vertex);
        proof {
            let now = first_occurrences(flat.push(cell));
            assert(now == cells.push(cell));
            assert(index_map_keys(*keys) =~= now.map_values(cell_key4()));
            assert forall|k: int| 0 <= k < now.len() implies call_ensures(
                *place,
                (now[k], cloud),
                #[trigger] vertices@[k],
            ) by {
                if k < cells.len() {
                    assert(vertices@[k] == old_vertices[k]);
                }
            }
        }
    }
}

/// `rows` holds exactly the lattice tetrahedra `tetrahedra`.
spec fn lattice_rows_are4(rows: Seq<[IVec4; 4]>, tetrahedra: Seq<Seq<IVec4>>) -> bool {
    &&& rows.len() == tetrahedra.len()
    &&& forall|r: int, j: int|
        0 <= r < rows.len() && 0 <= j < 4 ==> (#[trigger] rows[r]@[j]) == tetrahedra[r][j]
}

/// Whether the cube around `pair` is cut in its mirrored form: it is where
/// the coordinates of the lower point of the pair add up to an even number.
pub open spec fn pair_mirrored4(pair: BorderPair4D) -> bool {
    pair.A.coord_sum() % 2 == 0
}

/// Whether the coordinates of `p` add up to an odd number.
pub fn parity_flag4(p: IVec4) -> (odd: bool)
    ensures
        odd == (p.coord_sum() % 2 == 1),
{
    let x: i64 = p.x as i64 + 2147483648;
    let y: i64 = p.y as i64 + 2147483648;
    let z: i64 = p.z as i64 + 2147483648;
    let w: i64 = p.w as i64 + 2147483648;
    (x % 2 + y % 2 + z % 2 + w % 2) % 2 == 1
}

/// Adds the eight cells around `border_pair` and their five tetrahedra.
fn add_pair4<V, P: Fn(IVec4, &SampleCloud4D) -> V>(
    sample_cloud: &SampleCloud4D,
    place: &P,
    border_pair: BorderPair4D,
    relative_vertices: &Vec<IVec4>,
    relative_tetrahedra: &Vec<[IVec4; 4]>,
    keys: &mut IndexMap<u128, (), RandomState>,
    vertices: &mut Vec<V>,
    tetrahedra: &mut Vec<[IVec4; 4]>,
    Ghost(flat): Ghost<Seq<IVec4>>,
    Ghost(listed): Ghost<Seq<Seq<IVec4>>>,
)
    requires
        border_pair.wf(),
        border_pair.A.is_inner(),
        box_sampled4(sample_cloud.sample_map@, border_pair),
        forall|cell: IVec4|
            cell_sampled4(sample_cloud.sample_map@, cell) ==> call_requires(
                *place,
                (cell, sample_cloud),
            ),
        relative_vertices@.len() == 8,
        forall|i: int|
            0 <= i < 8 ==> #[trigger] relative_vertices@[i] == cube_vertex4(
                i,
                border_pair.axis_index as int,
                pair_mirrored4(border_pair),
            ),
        relative_tetrahedra@.len() == 5,
        forall|t: int, j: int|
            0 <= t < 5 && 0 <= j < 4 ==> (#[trigger] relative_tetrahedra@[t]@[j]) == cube_vertex4(
                cube_tetrahedra()[t][j],
                border_pair.axis_index as int,
                pair_mirrored4(border_pair),
            ),
        vertices_placed4(
            *sample_cloud,
            *place,
            index_map_keys(*old(keys)),
            old(vertices)@,
            first_occurrences(flat),
        ),
        lattice_rows_are4(old(tetrahedra)@, listed),
    ensures
        vertices_placed4(
            *sample_cloud,
            *place,
            index_map_keys(*final(keys)),
            final(vertices)@,
            first_occurrences(flat + pair_cells4(border_pair)),
        ),
        lattice_rows_are4(final(tetrahedra)@, listed + pair_tetrahedra4(border_pair)),
{
    let ghost axis = border_pair.axis_index as int;
    let ghost mirrored = pair_mirrored4(border_pair);
    let ghost mut flat_now = flat;
    let mut i: usize = 0;
    proof {
        assert(flat + pair_cells4(border_pair).subrange(0, 0) =~= flat);
    }
    while i < relative_vertices.len()
        invariant
            0 <= i <= 8,
            0 <= axis < 4,
            axis == border_pair.axis_index,
            mirrored == pair_mirrored4(border_pair),
            border_pair.wf(),
            border_pair.A.is_inner(),
            box_sampled4(sample_cloud.sample_map@, border_pair),
            forall|cell: IVec4|
                cell_sampled4(sample_cloud.sample_map@, cell) ==> call_requires(
                    *place,
                    (cell, sample_cloud),
                ),
            relative_vertices@.len() == 8,
            forall|t: int|
                0 <= t < 8 ==> #[trigger] relative_vertices@[t] == cube_vertex4(t, axis, mirrored),
            flat_now == flat + pair_cells4(border_pair).subrange(0, i as int),
            vertices_placed4(
                *sample_cloud,
                *place,
                index_map_keys(*keys),
                vertices@,
                first_occurrences(flat_now),
            ),
            tetrahedra@ == old(tetrahedra)@,
        decreases 8 - i,
    {
        let relative_vertex = relative_vertices[i];
        proof {
            assert(relative_vertex == cube_vertex4(i as int, axis, mirrored));
        }
        let discrete_corner_vertex = relative_vertex.plus(border_pair.A);
        proof {
            assert(discrete_corner_vertex == pair_cells4(border_pair)[i as int]);
            lemma_pair_cells_sampled4(sample_cloud.sample_map@, border_pair, i as int);
            assert(flat_now.push(discrete_corner_vertex) =~= flat + pair_cells4(
                border_pair,
            ).subrange(0, i + 1));
        }
        place_cell4(sample_cloud, place, discrete_corner_vertex, keys, vertices, Ghost(flat_now));
        proof {
            flat_now = flat_now.push(discrete_corner_vertex);
        }
        i += 1;
    }
    proof {
        assert(pair_cells4(border_pair).subrange(0, 8) =~= pair_cells4(border_pair));
    }
    let mut t: usize = 0;
    proof {
        assert(listed + pair_tetrahedra4(border_pair).subrange(0, 0) =~= listed);
    }
    while t < relative_tetrahedra.len()
        invariant
            0 <= t <= 5,
            0 <= axis < 4,
            axis == border_pair.axis_index,
            mirrored == pair_mirrored4(border_pair),
            border_pair.wf(),
            border_pair.A.is_inner(),
            relative_tetrahedra@.len() == 5,
            forall|r: int, j: int|
                0 <= r < 5 && 0 <= j < 4 ==> (#[trigger] relative_tetrahedra@[r]@[j]) == cube_vertex4(
                    cube_tetrahedra()[r][j],
                    axis,
                    mirrored,
                ),
            lattice_rows_are4(
                tetrahedra@,
                listed + pair_tetrahedra4(border_pair).subrange(0, t as int),
            ),
        decreases 5 - t,
    {
        let relative_tetrahedron: [IVec4; 4] = relative_tetrahedra[t];
        proof {
            assert(relative_tetrahedra@[t as int]@[0] == cube_vertex4(
                cube_tetrahedra()[t as int][0],
                axis,
                mirrored,
            ));
            assert(relative_tetrahedra@[t as int]@[1] == cube_vertex4(
                cube_tetrahedra()[t as int][1],
                axis,
                mirrored,
            ));
            assert(relative_tetrahedra@[t as int]@[2] == cube_vertex4(
                cube_tetrahedra()[t as int][2],
                axis,
                mirrored,
            ));
            assert(relative_tetrahedra@[t as int]@[3] == cube_vertex4(
                cube_tetrahedra()[t as int][3],
                axis,
                mirrored,
            ));
        }
        let tetrahedron: [IVec4; 4] = [
            relative_tetrahedron[0].plus(border_pair.A),
            relative_tetrahedron[1].plus(border_pair.A),
            relative_tetrahedron[2].plus(border_pair.A),
            relative_tetrahedron[3].plus(border_pair.A),
        ];
        let ghost rows_before = tetrahedra@;
        tetrahedra.push(tetrahedron);
        proof {
            let target = listed + pair_tetrahedra4(border_pair).subrange(0, t + 1);
            let before = listed + pair_tetrahedra4(border_pair).subrange(0, t as int);
            assert forall|r: int, j: int|
                0 <= r < tetrahedra@.len() && 0 <= j < 4 implies (#[trigger] tetrahedra@[r]@[j])
                == target[r][j] by {
                if r < rows_before.len() {
                    assert(tetrahedra@[r] == rows_before[r]);
                    assert(target[r] == before[r]);
                } else {
                    assert(target[r] == pair_tetrahedra4(border_pair)[t as int]);
                }
            }
        }
        t += 1;
    }
    proof {
        assert(pair_tetrahedra4(border_pair).subrange(0, 5) =~= pair_tetrahedra4(border_pair));
    }
}

/// The mesh of the surface that the cloud describes: see [`is_lattice_mesh4`].
pub fn mesh_from_sample_cloud_4D<V, P: Fn(IVec4, &SampleCloud4D) -> V>(
    sample_cloud: &SampleCloud4D,
    place: &P,
) -> (mesh: Mesh4D<V>)
    requires
        is_meshable4(*sample_cloud),
        forall|cell: IVec4|
            cell_sampled4(sample_cloud.sample_map@, cell) ==> call_requires(
                *place,
                (cell, sample_cloud),
            ),
    ensures
        is_lattice_mesh4(mesh, *sample_cloud, *place),
        mesh.wf(),
{
    let relative_cubes = relative_cubes4(false);
    let relative_cubes_mirrored = relative_cubes4(true);
    let mut keys = index_map_new();
    let mut vertices: Vec<V> = Vec::new();
    let mut tetrahedra: Vec<[IVec4; 4]> = Vec::new();
    let ghost pairs = sample_cloud.border_pairs@;
    let ghost mut flat: Seq<IVec4> = Seq::empty();
    let mut b: usize = 0;
    proof {
        assert(pairs.subrange(0, 0) =~= Seq::<BorderPair4D>::empty());
        assert(index_map_keys(keys) =~= first_occurrences(flat).map_values(cell_key4()));
    }
    while b < sample_cloud.border_pairs.len()
        invariant
            0 <= b <= pairs.len(),
            pairs == sample_cloud.border_pairs@,
            is_meshable4(*sample_cloud),
            forall|cell: IVec4|
                cell_sampled4(sample_cloud.sample_map@, cell) ==> call_requires(
                    *place,
                    (cell, sample_cloud),
                ),
            are_relative_cubes4(relative_cubes@, false),
            are_relative_cubes4(relative_cubes_mirrored@, true),
            flat == all_cells4(pairs.subrange(0, b as int)),
            vertices_placed4(
                *sample_cloud,
                *place,
                index_map_keys(keys),
                vertices@,
                first_occurrences(flat),
            ),
            lattice_rows_are4(tetrahedra@, all_tetrahedra4(pairs.subrange(0, b as int))),
        decreases pairs.len() - b,
    {
        let border_pair = sample_cloud.border_pairs[b];
        proof {
            assert(pairs[b as int].wf());
            assert(pairs[b as int].A.is_inner());
            assert(pairs.subrange(0, b + 1).drop_last() =~= pairs.subrange(0, b as int));
            assert(pairs.subrange(0, b + 1).last() == border_pair);
        }
        let parity_flag = parity_flag4(border_pair.A);
        let cube_source = if parity_flag {
            &relative_cubes
        } else {
            &relative_cubes_mirrored
        };
        proof {
            assert(are_relative_cubes4(cube_source@, pair_mirrored4(border_pair)));
        }
        let relative_vertices = &cube_source[border_pair.axis_index].0;
        let relative_tetrahedra = &cube_source[border_pair.axis_index].1;
        add_pair4(
            sample_cloud,
            place,
            border_pair,
            relative_vertices,
            relative_tetrahedra,
            &mut keys,
            &mut vertices,
            &mut tetrahedra,
            Ghost(flat),
            Ghost(all_tetrahedra4(pairs.subrange(0, b as int))),
        );
        proof {
            flat = flat + pair_cells4(border_pair);
        }
        b += 1;
    }
    proof {
        assert(pairs.subrange(0, pairs.len() as int) =~= pairs);
        lemma_tetrahedron_cells_listed4(pairs);
        lemma_first_occurrences(flat);
    }
    let ghost cells = first_occurrences(flat);
    let ghost listed = all_tetrahedra4(pairs);
    let mut indeces: Vec<[usize; 4]> = Vec::new();
    let mut r: usize = 0;
    while r < tetrahedra.len()
        invariant
            0 <= r <= tetrahedra@.len(),
            lattice_rows_are4(tetrahedra@, listed),
            index_map_keys(keys) == cells.map_values(cell_key4()),
            cells.no_duplicates(),
            forall|q: int, j: int|
                0 <= q < listed.len() && 0 <= j < 4 ==> cells.contains(#[trigger] listed[q][j]),
            indeces@.len() == r,
            forall|q: int, j: int|
                0 <= q < r && 0 <= j < 4 ==> (#[trigger] indeces@[q]@[j]) < cells.len()
                    && cells[indeces@[q]@[j] as int] == listed[q][j],
        decreases tetrahedra@.len() - r,
    {
        let tetrahedron: [IVec4; 4] = tetrahedra[r];
        proof {
            assert(tetrahedra@[r as int]@[0] == listed[r as int][0]);
            assert(tetrahedra@[r as int]@[1] == listed[r as int][1]);
            assert(tetrahedra@[r as int]@[2] == listed[r as int][2]);
            assert(tetrahedra@[r as int]@[3] == listed[r as int][3]);
        }
        let a = index_of_cell4(&keys, tetrahedron[0], Ghost(cells));
        let b2 = index_of_cell4(&keys, tetrahedron[1], Ghost(cells));
        let c = index_of_cell4(&keys, tetrahedron[2], Ghost(cells));
        let d = index_of_cell4(&keys, tetrahedron[3], Ghost(cells));
        let ghost before = indeces@;
        indeces.push([a, b2, c, d]);
        proof {
            assert forall|q: int, j: int| 0 <= q < r + 1 && 0 <= j < 4 implies (
            #[trigger] indeces@[q]@[j]) < cells.len() && cells[indeces@[q]@[j] as int]
                == listed[q][j] by {
                if q < r {
                    assert(indeces@[q] == before[q]);
                }
            }
        }
        r += 1;
    }
    Mesh { vertices, indeces, skeleton_indeces: Vec::new() }
}

/// The position of the vertex of `cell`.
fn index_of_cell4(keys: &IndexMap<u128, (), RandomState>, cell: IVec4, Ghost(cells): Ghost<Seq<IVec4>>) -> (index: usize)
    requires
        index_map_keys(*keys) == cells.map_values(cell_key4()),
        cells.contains(cell),
    ensures
        index < cells.len(),
        cells[index as int] == cell,
{
    let key: u128 = cell.key_exec();
    let found = index_map_get_index_of(keys, key);
    proof {
        let i = choose|i: int| 0 <= i < cells.len() && cells[i] == cell;
        assert(index_map_keys(*keys)[i] == key);
        if let Some(k) = found {
            lemma_key4_injective(cells[k as int], cell);
        }
    }
    match found {
        Some(index) => index,
        None => 0,
    }
}

/// `place` may be asked for the vertex of every cell whose corners are all
/// sampled in a cloud of samples of `function`.
pub open spec fn can_place4<V, F: Fn(IVec4) -> u32, P: Fn(IVec4, &SampleCloud4D) -> V>(
    function: F,
    place: P,
) -> bool {
    forall|cloud: SampleCloud4D, cell: IVec4|
        samples_agree4(function, cloud.sample_map@) && cell_sampled4(cloud.sample_map@, cell)
            ==> #[trigger] call_requires(place, (cell, &cloud))
}

/// `mesh` is the mesh of the piece of the surface of `function` that the
/// bisection between the two points leads to, with its vertices placed by `place`.
pub open spec fn is_isosurface_mesh4<V, F: Fn(IVec4) -> u32, P: Fn(IVec4, &SampleCloud4D) -> V>(
    mesh: Mesh4D<V>,
    function: F,
    place: P,
    negative_point: IVec4,
    positive_point: IVec4,
) -> bool {
    exists|cloud: SampleCloud4D|
        is_surface_component4(function, initial_pair4(function, negative_point, positive_point), cloud)
            && #[trigger] is_lattice_mesh4(mesh, cloud, place)
}

/// The search for the surface from the two points came within two steps of
/// the end of the lattice at `pair`.
pub open spec fn leaves_lattice4<F: Fn(IVec4) -> u32>(
    function: F,
    negative_point: IVec4,
    positive_point: IVec4,
    pair: BorderPair4D,
) -> bool {
    reachable4(function, initial_pair4(function, negative_point, positive_point), pair)
        && !pair.A.is_inner()
}

/// The tetrahedron mesh, without skeleton, of the connected piece of the zero
/// level set of `function` that lies between the two points.
pub fn get_connected_isosurface_4D_no_skeleton<
    V,
    F: Fn(IVec4) -> u32,
    P: Fn(IVec4, &SampleCloud4D) -> V,
>(function: &F, place: &P, negative_point: IVec4, positive_point: IVec4) -> (result: Result<
    Mesh4D<V>,
    BorderPair4D,
>)
    requires
        is_pure_field::<IVec4, F>(*function),
        !positive_at(*function, negative_point),
        positive_at(*function, positive_point),
        can_place4(*function, *place),
    ensures
        match result {
            Ok(mesh) => mesh.wf() && is_isosurface_mesh4(
                mesh,
                *function,
                *place,
                negative_point,
                positive_point,
            ),
            Err(pair) => leaves_lattice4(*function, negative_point, positive_point, pair),
        },
{
    match SampleCloud4D::new(function, negative_point, positive_point) {
        Ok(sample_cloud) => {
            proof {
                assert forall|cell: IVec4|
                    cell_sampled4(sample_cloud.sample_map@, cell) implies call_requires(
                    *place,
                    (cell, &sample_cloud),
                ) by {
                    assert(samples_agree4(*function, sample_cloud.sample_map@));
                }
            }
            let mesh = mesh_from_sample_cloud_4D(&sample_cloud, place);
            proof {
                assert(is_lattice_mesh4(mesh, sample_cloud, *place));
            }
            Ok(mesh)
        },
        Err(pair) => Err(pair),
    }
}

/// `mesh` is `main_mesh` with the vertices of `skeleton_mesh` appended and
/// one skeleton edge for every edge of the tetrahedra of `skeleton_mesh`, in
/// the order in which the edges first occur, each listed once whichever of
/// its ends a tetrahedron names first.
pub open spec fn is_mesh_with_skeleton4<V>(
    mesh: Mesh4D<V>,
    main_mesh: Mesh4D<V>,
    skeleton_mesh: Mesh4D<V>,
) -> bool {
    &&& mesh.vertices@ == main_mesh.vertices@ + skeleton_mesh.vertices@
    &&& mesh.indeces@ == main_mesh.indeces@
    &&& exists|skeleton: Seq<[usize; 2]>|
        rows_are_edges(skeleton, first_occurrences(all_edges_of_tetrahedra(skeleton_mesh.indeces@)))
            && #[trigger] rows_shifted(
            mesh.skeleton_indeces@,
            skeleton,
            main_mesh.vertices@.len() as int,
        )
}

/// The tetrahedron mesh of the surface of `function` between its two points,
/// with the edges of the surface of `skeleton_function` between its two
/// points attached as skeleton.
pub fn get_connected_isosurface_4D<
    V,
    Field: Fn(IVec4) -> u32,
    Place: Fn(IVec4, &SampleCloud4D) -> V,
    SkeletonField: Fn(IVec4) -> u32,
    SkeletonPlace: Fn(IVec4, &SampleCloud4D) -> V,
>(
    function: &Field,
    place: &Place,
    negative_point: IVec4,
    positive_point: IVec4,
    skeleton_function: &SkeletonField,
    skeleton_place: &SkeletonPlace,
    skeleton_negative_point: IVec4,
    skeleton_positive_point: IVec4,
) -> (result: Result<Mesh4D<V>, BorderPair4D>)
    requires
        is_pure_field::<IVec4, Field>(*function),
        !positive_at(*function, negative_point),
        positive_at(*function, positive_point),
        can_place4(*function, *place),
        is_pure_field::<IVec4, SkeletonField>(*skeleton_function),
        !positive_at(*skeleton_function, skeleton_negative_point),
        positive_at(*skeleton_function, skeleton_positive_point),
        can_place4(*skeleton_function, *skeleton_place),
    ensures
        match result {
            Ok(mesh) => mesh.wf() && exists|main_mesh: Mesh4D<V>, skeleton_mesh: Mesh4D<V>|
                {
                    &&& is_isosurface_mesh4(
                        main_mesh,
                        *function,
                        *place,
                        negative_point,
                        positive_point,
                    )
                    &&& is_isosurface_mesh4(
                        skeleton_mesh,
                        *skeleton_function,
                        *skeleton_place,
                        skeleton_negative_point,
                        skeleton_positive_point,
                    )
                    &&& #[trigger] is_mesh_with_skeleton4(mesh, main_mesh, skeleton_mesh)
                },
            Err(pair) => leaves_lattice4(*function, negative_point, positive_point, pair)
                || leaves_lattice4(
                *skeleton_function,
                skeleton_negative_point,
                skeleton_positive_point,
                pair,
            ),
        },
{
    let main = get_connected_isosurface_4D_no_skeleton(
        function,
        place,
        negative_point,
        positive_point,
    );
    match main {
        Ok(main_mesh) => {
            let skeleton = get_connected_isosurface_4D_no_skeleton(
                skeleton_function,
                skeleton_place,
                skeleton_negative_point,
                skeleton_positive_point,
            );
            match skeleton {
                Ok(skeleton_mesh) => {
                    let mut mesh = main_mesh;
                    let ghost main_ghost = mesh;
                    let ghost skeleton_ghost = skeleton_mesh;
                    mesh.attach_skeleton(skeleton_mesh);
                    proof {
                        assert(is_mesh_with_skeleton4(mesh, main_ghost, skeleton_ghost));
                    }
                    Ok(mesh)
                },
                Err(pair) => Err(pair),
            }
        },
        Err(pair) => Err(pair),
    }
}


/// `p` is a corner of the unit square that starts at `origin` and spans the
/// two distinct axes `i` and `j`.
pub open spec fn on_unit_square4(p: IVec4, origin: IVec4, i: int, j: int) -> bool {
    exists|a: int, b: int|
        0 <= a <= 1 && 0 <= b <= 1 && p == #[trigger] origin.spec_with(
            i,
            (origin.coord(i) + a) as i32,
        ).spec_with(j, (origin.coord(j) + b) as i32)
}

/// Two corners of a tetrahedron of the cube around a border pair are one
/// step apart, or two steps apart across a face of the cube; in the second
/// case the coordinates of each of them add up to an odd number. So whether
/// a lattice point ends a face diagonal depends on the point alone, not on
/// the cube that the tetrahedron belongs to.
pub proof fn lemma_diagonals_join_odd_cells4(pair: BorderPair4D, t: int, a: int, b: int)
    requires
        pair.wf(),
        pair.A.is_inner(),
        0 <= t < 5,
        0 <= a < 4,
        0 <= b < 4,
        a != b,
    ensures
        pair_tetrahedra4(pair)[t][a].manhattan_distance(pair_tetrahedra4(pair)[t][b]) == 1
            || pair_tetrahedra4(pair)[t][a].manhattan_distance(pair_tetrahedra4(pair)[t][b]) == 2,
        pair_tetrahedra4(pair)[t][a].manhattan_distance(pair_tetrahedra4(pair)[t][b]) == 2 ==> {
            &&& pair_tetrahedra4(pair)[t][a].coord_sum() % 2 == 1
            &&& pair_tetrahedra4(pair)[t][b].coord_sum() % 2 == 1
        },
{
    let cells = pair_cells4(pair);
    let ia = cube_tetrahedra()[t][a];
    let ib = cube_tetrahedra()[t][b];
    assert(0 <= ia < 8 && 0 <= ib < 8);
    assert(pair_tetrahedra4(pair)[t][a] == cells[ia]);
    assert(pair_tetrahedra4(pair)[t][b] == cells[ib]);
    let axis = pair.axis_index as int;
    let mirrored = pair_mirrored4(pair);
    assert(cells[ia] == cube_vertex4(ia, axis, mirrored).spec_plus(pair.A));
    assert(cells[ib] == cube_vertex4(ib, axis, mirrored).spec_plus(pair.A));
}

/// Of the four corners of a unit square of the lattice, exactly two have
/// coordinates that add up to an odd number, and they lie across from one
/// another. So two diagonals of one square that both join such corners are
/// the same diagonal: cubes that share a face cut it the same way.
pub proof fn lemma_shared_face_same_diagonal4(
    origin: IVec4,
    i: int,
    j: int,
    p1: IVec4,
    q1: IVec4,
    p2: IVec4,
    q2: IVec4,
)
    requires
        origin.is_inner(),
        0 <= i < j < 4,
        on_unit_square4(p1, origin, i, j),
        on_unit_square4(q1, origin, i, j),
        on_unit_square4(p2, origin, i, j),
        on_unit_square4(q2, origin, i, j),
        p1 != q1,
        p2 != q2,
        p1.coord_sum() % 2 == 1,
        q1.coord_sum() % 2 == 1,
        p2.coord_sum() % 2 == 1,
        q2.coord_sum() % 2 == 1,
    ensures
        (p1 == p2 && q1 == q2) || (p1 == q2 && q1 == p2),
{
}

} // verus!
