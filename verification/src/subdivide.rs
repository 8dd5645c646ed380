//! Subdividing the surface of a mesh: every edge gets a vertex at its
//! middle, shared by all primitives that the edge belongs to, and every
//! primitive is replaced by smaller ones.
use vstd::prelude::*;
use std::collections::HashMap;
use crate::cell_topology::rows_are;
use crate::combinations::{
    array_0_to_N, combinations_constsize, combinations_of, lemma_pairs_of_four, lemma_pairs_of_six,
    lemma_pairs_of_three, lemma_quadruples_of_six, picks,
};
use crate::dedup::{first_occurrences, lemma_first_occurrences};
use crate::edges::{
    all_edges, all_edges_of_tetrahedra, edges_of, edges_of_tetrahedron, lemma_edge_key_injective,
    EdgeIndeces,
};
use crate::mesh::{rows_below, Mesh, Mesh3D, Mesh4D};

verus! {

broadcast use vstd::std_specs::hash::group_hash_axioms;

/// What stands at one place of a primitive of the subdivided mesh: a corner
/// of the old primitive, or the middle of one of its edges.
pub enum Slot {
    Corner(usize),
    Middle(EdgeIndeces),
}

/// The key under which the middle of an edge is kept.
pub open spec fn edge_key(e: EdgeIndeces) -> u128 {
    e.key() as u128
}

/// `index` is the index of the vertex made for the middle of `edge`, where
/// the mesh had `n` vertices before and `edges` lists the edges in the order
/// in which their middles were made.
pub open spec fn is_middle_of(index: usize, edge: EdgeIndeces, n: int, edges: Seq<EdgeIndeces>) -> bool {
    n <= index < n + edges.len() && edges[index - n] == edge
}

/// `index` is what `slot` asks for.
pub open spec fn fills_slot(index: usize, slot: Slot, n: int, edges: Seq<EdgeIndeces>) -> bool {
    match slot {
        Slot::Corner(corner) => index == corner,
        Slot::Middle(edge) => is_middle_of(index, edge, n, edges),
    }
}

/// `rows` fill the slots `slots`, place by place.
pub open spec fn rows_fill_slots<const K: usize>(
    rows: Seq<[usize; K]>,
    slots: Seq<Seq<Slot>>,
    n: int,
    edges: Seq<EdgeIndeces>,
) -> bool {
    &&& rows.len() == slots.len()
    &&& forall|r: int, j: int|
        0 <= r < rows.len() && 0 <= j < K ==> fills_slot(#[trigger] rows[r]@[j], slots[r][j], n, edges)
}

/// The three edges of a triangle.
pub open spec fn triangle_edges(t: [usize; 3]) -> Seq<EdgeIndeces> {
    seq![
        EdgeIndeces::spec_new(t@[0], t@[1]),
        EdgeIndeces::spec_new(t@[0], t@[2]),
        EdgeIndeces::spec_new(t@[1], t@[2]),
    ]
}

/// The edges of all the triangles, triangle after triangle.
pub open spec fn all_triangle_edges(triangles: Seq<[usize; 3]>) -> Seq<EdgeIndeces>
    decreases triangles.len(),
{
    if triangles.len() == 0 {
        Seq::<EdgeIndeces>::empty()
    } else {
        all_triangle_edges(triangles.drop_last()) + triangle_edges(triangles.last())
    }
}

/// The four triangles that replace a triangle: one at each corner, made of
/// the corner and the middles of its two edges, and one between the middles
/// of the three edges.
pub open spec fn triangle_slots(t: [usize; 3]) -> Seq<Seq<Slot>> {
    let e = triangle_edges(t);
    seq![
        seq![Slot::Corner(t@[0]), Slot::Middle(e[0]), Slot::Middle(e[1])],
        seq![Slot::Corner(t@[1]), Slot::Middle(e[0]), Slot::Middle(e[2])],
        seq![Slot::Corner(t@[2]), Slot::Middle(e[1]), Slot::Middle(e[2])],
        seq![Slot::Middle(e[0]), Slot::Middle(e[1]), Slot::Middle(e[2])],
    ]
}

/// The slots of the triangles that replace all the triangles.
pub open spec fn all_triangle_slots(triangles: Seq<[usize; 3]>) -> Seq<Seq<Slot>>
    decreases triangles.len(),
{
    if triangles.len() == 0 {
        Seq::<Seq<Slot>>::empty()
    } else {
        all_triangle_slots(triangles.drop_last()) + triangle_slots(triangles.last())
    }
}

/// No primitive names a vertex twice.
pub open spec fn rows_distinct<const K: usize>(rows: Seq<[usize; K]>) -> bool {
    forall|r: int, i: int, j: int|
        0 <= r < rows.len() && 0 <= i < j < K ==> #[trigger] rows[r]@[i] != #[trigger] rows[r]@[j]
}

/// `mean` may be asked for the middle of any two vertices.
pub open spec fn can_average<V, M: Fn(V, V) -> V>(mean: M, vertices: Seq<V>) -> bool {
    forall|a: int, b: int|
        0 <= a < vertices.len() && 0 <= b < vertices.len() ==> call_requires(
            mean,
            (#[trigger] vertices[a], #[trigger] vertices[b]),
        )
}

/// The vertices `after` are the vertices `before` followed by one vertex for
/// each of `edges`, made by `mean` from the two ends of the edge.
pub open spec fn middles_appended<V, M: Fn(V, V) -> V>(
    mean: M,
    before: Seq<V>,
    after: Seq<V>,
    edges: Seq<EdgeIndeces>,
) -> bool {
    &&& after.len() == before.len() + edges.len()
    &&& forall|i: int| 0 <= i < before.len() ==> #[trigger] after[i] == before[i]
    &&& forall|k: int|
        0 <= k < edges.len() ==> {
            &&& (#[trigger] edges[k]).A < before.len()
            &&& edges[k].B < before.len()
            &&& call_ensures(
                mean,
                (before[edges[k].A as int], before[edges[k].B as int]),
                after[before.len() + k],
            )
        }
}

/// The map knows the middle of exactly the edges `edges`, each by its index.
spec fn middles_known(map: Map<u128, usize>, n: int, edges: Seq<EdgeIndeces>) -> bool {
    &&& forall|e: EdgeIndeces| map.contains_key(#[trigger] edge_key(e)) <==> edges.contains(e)
    &&& forall|k: int| 0 <= k < edges.len() ==> map[edge_key(#[trigger] edges[k])] == n + k
}

/// The index of the vertex at the middle of `edge`, which is made if the
/// edge was not met before.
fn middle_of_edge<V: Copy, M: Fn(V, V) -> V>(
    mean: &M,
    edge: EdgeIndeces,
    edge_vertex_index_from_edge: &mut HashMap<u128, usize>,
    vertices: &mut Vec<V>,
    Ghost(before): Ghost<Seq<V>>,
    Ghost(flat): Ghost<Seq<EdgeIndeces>>,
) -> (index: usize)
    requires
        edge.A < before.len(),
        edge.B < before.len(),
        can_average(*mean, before),
        middles_appended(*mean, before, old(vertices)@, first_occurrences(flat)),
        middles_known(
            old(edge_vertex_index_from_edge)@,
            before.len() as int,
            first_occurrences(flat),
        ),
    ensures
        middles_appended(*mean, before, final(vertices)@, first_occurrences(flat.push(edge))),
        middles_known(
            final(edge_vertex_index_from_edge)@,
            before.len() as int,
            first_occurrences(flat.push(edge)),
        ),
        is_middle_of(index, edge, before.len() as int, first_occurrences(flat.push(edge))),
        forall|other: usize, e: EdgeIndeces|
            is_middle_of(other, e, before.len() as int, first_occurrences(flat)) ==> is_middle_of(
                other,
                e,
                before.len() as int,
                first_occurrences(flat.push(edge)),
            ),
{
    let ghost edges = first_occurrences(flat);
    let ghost n = before.len() as int;
    let ghost old_vertices = vertices@;
    let key: u128 = edge.key_exec();
    proof {
        assert(flat.push(edge).drop_last() =~= flat);
        assert(flat.push(edge).last() == edge);
        assert(edge_vertex_index_from_edge@.contains_key(edge_key(edge)) <==> edges.contains(edge));
    }
    let known = edge_vertex_index_from_edge.get(&key);
    match known {
        Some(index) => {
            proof {
                let k = choose|k: int| 0 <= k < edges.len() && edges[k] == edge;
                assert(edge_vertex_index_from_edge@[edge_key(edges[k])] == n + k);
            }
            *index
        },
        None => {
            let a = vertices[edge.A];
            let b = vertices[edge.B];
            let middle = mean(a, b);
            vertices.push(middle);
            let index = vertices.len() - 1;
            edge_vertex_index_from_edge.insert(key, index);
            proof {
                let now = edges.push(edge);
                assert(first_occurrences(flat.push(edge)) == now);
                assert forall|e: EdgeIndeces|
                    edge_vertex_index_from_edge@.contains_key(#[trigger] edge_key(e))
                        <==> now.contains(e) by {
                    if edge_key(e) == key {
                        lemma_edge_key_injective(e, edge);
                    }
                    if edges.contains(e) {
                        let k = choose|k: int| 0 <= k < edges.len() && edges[k] == e;
                        assert(now[k] == e);
                    }
                    if now.contains(e) {
                        let k = choose|k: int| 0 <= k < now.len() && now[k] == e;
                        if k < edges.len() {
                            assert(edges[k] == e);
                        }
                    }
                    assert(now[edges.len() as int] == edge);
                }
                assert forall|k: int| 0 <= k < now.len() implies edge_vertex_index_from_edge@[edge_key(
                    #[trigger] now[k],
                )] == n + k by {
                    if k < edges.len() {
                        assert(now[k] == edges[k]);
                        assert(edges.contains(edges[k]));
                        if edge_key(edges[k]) == key {
                            lemma_edge_key_injective(edges[k], edge);
                        }
                    }
                }
                assert forall|k: int| 0 <= k < now.len() implies {
                    &&& (#[trigger] now[k]).A < before.len()
                    &&& now[k].B < before.len()
                    &&& call_ensures(
                        *mean,
                        (before[now[k].A as int], before[now[k].B as int]),
                        vertices@[before.len() + k],
                    )
                } by {
                    if k < edges.len() {
                        assert(now[k] == edges[k]);
                        assert(vertices@[before.len() + k] == old_vertices[before.len() + k]);
                    }
                }
            }
            index
        },
    }
}

/// Of the first `upto` edges, the middles of those that end at `corner`.
pub open spec fn middles_at_corner(
    edges: Seq<EdgeIndeces>,
    middles: Seq<usize>,
    corner: usize,
    upto: nat,
) -> Seq<usize>
    decreases upto,
{
    if upto == 0 {
        Seq::<usize>::empty()
    } else if edges[upto - 1].spec_has_index(corner) {
        middles_at_corner(edges, middles, corner, (upto - 1) as nat).push(middles[upto - 1])
    } else {
        middles_at_corner(edges, middles, corner, (upto - 1) as nat)
    }
}

/// The middles of the edges of a primitive that end at one of its corners.
fn corner_edge_middles(
    primitive_edges: &Vec<EdgeIndeces>,
    all_edge_vertex_indeces: &Vec<usize>,
    corner_index: usize,
) -> (middles: Vec<usize>)
    requires
        primitive_edges@.len() == all_edge_vertex_indeces@.len(),
    ensures
        middles@ == middles_at_corner(
            primitive_edges@,
            all_edge_vertex_indeces@,
            corner_index,
            primitive_edges@.len(),
        ),
{
    let mut middles: Vec<usize> = Vec::new();
    let mut k: usize = 0;
    while k < primitive_edges.len()
        invariant
            0 <= k <= primitive_edges@.len(),
            primitive_edges@.len() == all_edge_vertex_indeces@.len(),
            middles@ == middles_at_corner(
                primitive_edges@,
                all_edge_vertex_indeces@,
                corner_index,
                k as nat,
            ),
        decreases primitive_edges@.len() - k,
    {
        if primitive_edges[k].has_index(&corner_index) {
            middles.push(all_edge_vertex_indeces[k]);
        }
        k += 1;
    }
    middles
}

/// Slots that are filled stay filled when more middles are made.
proof fn lemma_slots_stay_filled<const K: usize>(
    rows: Seq<[usize; K]>,
    slots: Seq<Seq<Slot>>,
    n: int,
    edges: Seq<EdgeIndeces>,
    more_edges: Seq<EdgeIndeces>,
)
    requires
        rows_fill_slots(rows, slots, n, edges),
        forall|other: usize, e: EdgeIndeces|
            is_middle_of(other, e, n, edges) ==> is_middle_of(other, e, n, more_edges),
    ensures
        rows_fill_slots(rows, slots, n, more_edges),
{
    assert forall|r: int, j: int| 0 <= r < rows.len() && 0 <= j < K implies fills_slot(
        #[trigger] rows[r]@[j],
        slots[r][j],
        n,
        more_edges,
    ) by {
        assert(fills_slot(rows[r]@[j], slots[r][j], n, edges));
    }
}

/// Makes the middles of the edges of one primitive.
fn middles_of_edges<V: Copy, M: Fn(V, V) -> V>(
    mean: &M,
    primitive_edges: &Vec<EdgeIndeces>,
    edge_vertex_index_from_edge: &mut HashMap<u128, usize>,
    vertices: &mut Vec<V>,
    Ghost(before): Ghost<Seq<V>>,
    Ghost(flat): Ghost<Seq<EdgeIndeces>>,
) -> (all_edge_vertex_indeces: Vec<usize>)
    requires
        forall|k: int|
            0 <= k < primitive_edges@.len() ==> (#[trigger] primitive_edges@[k]).A < before.len()
                && primitive_edges@[k].B < before.len(),
        can_average(*mean, before),
        middles_appended(*mean, before, old(vertices)@, first_occurrences(flat)),
        middles_known(
            old(edge_vertex_index_from_edge)@,
            before.len() as int,
            first_occurrences(flat),
        ),
    ensures
        middles_appended(
            *mean,
            before,
            final(vertices)@,
            first_occurrences(flat + primitive_edges@),
        ),
        middles_known(
            final(edge_vertex_index_from_edge)@,
            before.len() as int,
            first_occurrences(flat + primitive_edges@),
        ),
        all_edge_vertex_indeces@.len() == primitive_edges@.len(),
        forall|k: int|
            0 <= k < primitive_edges@.len() ==> is_middle_of(
                #[trigger] all_edge_vertex_indeces@[k],
                primitive_edges@[k],
                before.len() as int,
                first_occurrences(flat + primitive_edges@),
            ),
        forall|other: usize, e: EdgeIndeces|
            is_middle_of(other, e, before.len() as int, first_occurrences(flat)) ==> is_middle_of(
                other,
                e,
                before.len() as int,
                first_occurrences(flat + primitive_edges@),
            ),
{
    let mut all_edge_vertex_indeces: Vec<usize> = Vec::new();
    let ghost n = before.len() as int;
    let ghost mut flat_now = flat;
    let mut k: usize = 0;
    proof {
        assert(flat + primitive_edges@.subrange(0, 0) =~= flat);
    }
    while k < primitive_edges.len()
        invariant
            0 <= k <= primitive_edges@.len(),
            n == before.len(),
            forall|i: int|
                0 <= i < primitive_edges@.len() ==> (#[trigger] primitive_edges@[i]).A < before.len()
                    && primitive_edges@[i].B < before.len(),
            can_average(*mean, before),
            flat_now == flat + primitive_edges@.subrange(0, k as int),
            middles_appended(*mean, before, vertices@, first_occurrences(flat_now)),
            middles_known(edge_vertex_index_from_edge@, n, first_occurrences(flat_now)),
            all_edge_vertex_indeces@.len() == k,
            forall|i: int|
                0 <= i < k ==> is_middle_of(
                    #[trigger] all_edge_vertex_indeces@[i],
                    primitive_edges@[i],
                    n,
                    first_occurrences(flat_now),
                ),
            forall|other: usize, e: EdgeIndeces|
                is_middle_of(other, e, n, first_occurrences(flat)) ==> is_middle_of(
                    other,
                    e,
                    n,
                    first_occurrences(flat_now),
                ),
        decreases primitive_edges@.len() - k,
    {
        let edge = primitive_edges[k];
        let ghost made = all_edge_vertex_indeces@;
        let ghost edges_then = first_occurrences(flat_now);
        let edge_vertex_index = middle_of_edge(
            mean,
            edge,
            edge_vertex_index_from_edge,
            vertices,
            Ghost(before),
            Ghost(flat_now),
        );
        all_edge_vertex_indeces.push(edge_vertex_index);
        proof {
            assert(flat_now.push(edge) =~= flat + primitive_edges@.subrange(0, k + 1));
            flat_now = flat_now.push(edge);
            let edges_now = first_occurrences(flat_now);
            assert forall|i: int| 0 <= i < k + 1 implies is_middle_of(
                #[trigger] all_edge_vertex_indeces@[i],
                primitive_edges@[i],
                n,
                edges_now,
            ) by {
                if i < k {
                    assert(all_edge_vertex_indeces@[i] == made[i]);
                    assert(is_middle_of(made[i], primitive_edges@[i], n, edges_then));
                }
            }
        }
        k += 1;
    }
    proof {
        assert(primitive_edges@.subrange(0, primitive_edges@.len() as int) =~= primitive_edges@);
    }
    all_edge_vertex_indeces
}

/// Replaces one triangle by four.
fn subdivide_triangle<V: Copy, M: Fn(V, V) -> V>(
    mean: &M,
    triangle: [usize; 3],
    edge_vertex_index_from_edge: &mut HashMap<u128, usize>,
    vertices: &mut Vec<V>,
    indeces: &mut Vec<[usize; 3]>,
    Ghost(before): Ghost<Seq<V>>,
    Ghost(flat): Ghost<Seq<EdgeIndeces>>,
    Ghost(slots): Ghost<Seq<Seq<Slot>>>,
)
    requires
        triangle@[0] < before.len() && triangle@[1] < before.len() && triangle@[2] < before.len(),
        triangle@[0] != triangle@[1] && triangle@[0] != triangle@[2] && triangle@[1] != triangle@[2],
        can_average(*mean, before),
        middles_appended(*mean, before, old(vertices)@, first_occurrences(flat)),
        middles_known(
            old(edge_vertex_index_from_edge)@,
            before.len() as int,
            first_occurrences(flat),
        ),
        rows_fill_slots(old(indeces)@, slots, before.len() as int, first_occurrences(flat)),
    ensures
        middles_appended(
            *mean,
            before,
            final(vertices)@,
            first_occurrences(flat + triangle_edges(triangle)),
        ),
        middles_known(
            final(edge_vertex_index_from_edge)@,
            before.len() as int,
            first_occurrences(flat + triangle_edges(triangle)),
        ),
        rows_fill_slots(
            final(indeces)@,
            slots + triangle_slots(triangle),
            before.len() as int,
            first_occurrences(flat + triangle_edges(triangle)),
        ),
{
    let ghost n = before.len() as int;
    let primitive_edges: Vec<EdgeIndeces> = all_edges(triangle.as_slice());
    proof {
        lemma_pairs_of_three();
        assert(primitive_edges@ =~= triangle_edges(triangle));
    }
    let all_edge_vertex_indeces = middles_of_edges(
        mean,
        &primitive_edges,
        edge_vertex_index_from_edge,
        vertices,
        Ghost(before),
        Ghost(flat),
    );
    let ghost edges = first_occurrences(flat + triangle_edges(triangle));
    proof {
        lemma_slots_stay_filled(indeces@, slots, n, first_occurrences(flat), edges);
    }
    let ghost wanted = triangle_slots(triangle);
    let ghost rows_start = indeces@;
    let mut c: usize = 0;
    proof {
        assert(slots + wanted.subrange(0, 0) =~= slots);
    }
    while c < 3
        invariant
            0 <= c <= 3,
            n == before.len(),
            triangle@[0] != triangle@[1] && triangle@[0] != triangle@[2] && triangle@[1]
                != triangle@[2],
            primitive_edges@ == triangle_edges(triangle),
            wanted == triangle_slots(triangle),
            all_edge_vertex_indeces@.len() == 3,
            forall|k: int|
                0 <= k < 3 ==> is_middle_of(
                    #[trigger] all_edge_vertex_indeces@[k],
                    primitive_edges@[k],
                    n,
                    edges,
                ),
            rows_fill_slots(indeces@, slots + wanted.subrange(0, c as int), n, edges),
        decreases 3 - c,
    {
        let corner_index = triangle[c];
        let corner_edge_vertex_indeces = corner_edge_middles(
            &primitive_edges,
            &all_edge_vertex_indeces,
            corner_index,
        );
        proof {
            reveal_with_fuel(middles_at_corner, 4);
            assert(corner_edge_vertex_indeces@.len() == 2);
            assert(is_middle_of(all_edge_vertex_indeces@[0], primitive_edges@[0], n, edges));
            assert(is_middle_of(all_edge_vertex_indeces@[1], primitive_edges@[1], n, edges));
            assert(is_middle_of(all_edge_vertex_indeces@[2], primitive_edges@[2], n, edges));
        }
        let row: [usize; 3] = [
            corner_index,
            corner_edge_vertex_indeces[0],
            corner_edge_vertex_indeces[1],
        ];
        let ghost rows_then = indeces@;
        indeces.push(row);
        proof {
            let target = slots + wanted.subrange(0, c + 1);
            let had = slots + wanted.subrange(0, c as int);
            assert forall|r: int, j: int| 0 <= r < indeces@.len() && 0 <= j < 3 implies fills_slot(
                #[trigger] indeces@[r]@[j],
                target[r][j],
                n,
                edges,
            ) by {
                if r < rows_then.len() {
                    assert(indeces@[r] == rows_then[r]);
                    assert(target[r] == had[r]);
                    assert(fills_slot(rows_then[r]@[j], had[r][j], n, edges));
                } else {
                    assert(target[r] == wanted[c as int]);
                }
            }
        }
        c += 1;
    }
    let row: [usize; 3] = [
        all_edge_vertex_indeces[0],
        all_edge_vertex_indeces[1],
        all_edge_vertex_indeces[2],
    ];
    let ghost rows_then = indeces@;
    indeces.push(row);
    proof {
        let target = slots + wanted;
        let had = slots + wanted.subrange(0, 3);
        assert(is_middle_of(all_edge_vertex_indeces@[0], primitive_edges@[0], n, edges));
        assert(is_middle_of(all_edge_vertex_indeces@[1], primitive_edges@[1], n, edges));
        assert(is_middle_of(all_edge_vertex_indeces@[2], primitive_edges@[2], n, edges));
        assert forall|r: int, j: int| 0 <= r < indeces@.len() && 0 <= j < 3 implies fills_slot(
            #[trigger] indeces@[r]@[j],
            target[r][j],
            n,
            edges,
        ) by {
            if r < rows_then.len() {
                assert(indeces@[r] == rows_then[r]);
                assert(target[r] == had[r]);
                assert(fills_slot(rows_then[r]@[j], had[r][j], n, edges));
            } else {
                assert(target[r] == wanted[3]);
            }
        }
    }
}

/// `out` is `input` with its surface subdivided: the old vertices are
/// followed by one vertex for the middle of every edge, in the order in which
/// the edges first occur; every triangle is replaced by four; the skeleton
/// is as it was.
pub open spec fn is_subdivision3<V, M: Fn(V, V) -> V>(
    out: Mesh3D<V>,
    input: Mesh3D<V>,
    mean: M,
) -> bool {
    let edges = first_occurrences(all_triangle_edges(input.indeces@));
    &&& middles_appended(mean, input.vertices@, out.vertices@, edges)
    &&& rows_fill_slots(
        out.indeces@,
        all_triangle_slots(input.indeces@),
        input.vertices@.len() as int,
        edges,
    )
    &&& out.skeleton_indeces@ == input.skeleton_indeces@
}

impl<V: Copy> Mesh<V, 3, 1> {
    /// Subdivides every triangle into four; the skeleton is not subdivided.
    pub fn subdivide_surface<M: Fn(V, V) -> V>(self, mean: &M) -> (out: Self)
        requires
            rows_below(self.indeces@, self.vertices@.len() as int),
            rows_distinct(self.indeces@),
            can_average(*mean, self.vertices@),
        ensures
            is_subdivision3(out, self, *mean),
            rows_distinct(out.indeces@),
            self.wf() ==> out.wf(),
    {
        let ghost before = self.vertices@;
        let ghost triangles = self.indeces@;
        let ghost n = before.len() as int;
        let mut vertices = self.vertices;
        let old_indeces = self.indeces;
        let skeleton_indeces = self.skeleton_indeces;
        let mut indeces: Vec<[usize; 3]> = Vec::new();
        let mut edge_vertex_index_from_edge: HashMap<u128, usize> = HashMap::new();
        let ghost mut flat: Seq<EdgeIndeces> = Seq::empty();
        let mut t: usize = 0;
        proof {
            assert(triangles.subrange(0, 0) =~= Seq::<[usize; 3]>::empty());
        }
        while t < old_indeces.len()
            invariant
                0 <= t <= triangles.len(),
                old_indeces@ == triangles,
                n == before.len(),
                rows_below(triangles, n),
                rows_distinct(triangles),
                can_average(*mean, before),
                flat == all_triangle_edges(triangles.subrange(0, t as int)),
                middles_appended(*mean, before, vertices@, first_occurrences(flat)),
                middles_known(edge_vertex_index_from_edge@, n, first_occurrences(flat)),
                rows_fill_slots(
                    indeces@,
                    all_triangle_slots(triangles.subrange(0, t as int)),
                    n,
                    first_occurrences(flat),
                ),
            decreases triangles.len() - t,
        {
            let triangle: [usize; 3] = old_indeces[t];
            proof {
                assert(triangles[t as int]@[0] < n && triangles[t as int]@[1] < n
                    && triangles[t as int]@[2] < n);
                assert(triangles[t as int]@[0] != triangles[t as int]@[1]);
                assert(triangles[t as int]@[0] != triangles[t as int]@[2]);
                assert(triangles[t as int]@[1] != triangles[t as int]@[2]);
                assert(triangles.subrange(0, t + 1).drop_last() =~= triangles.subrange(0, t as int));
                assert(triangles.subrange(0, t + 1).last() == triangle);
            }
            subdivide_triangle(
                mean,
                triangle,
                &mut edge_vertex_index_from_edge,
                &mut vertices,
                &mut indeces,
                Ghost(before),
                Ghost(flat),
                Ghost(all_triangle_slots(triangles.subrange(0, t as int))),
            );
            proof {
                flat = flat + triangle_edges(triangle);
            }
            t += 1;
        }
        proof {
            assert(triangles.subrange(0, triangles.len() as int) =~= triangles);
        }
        let out = Mesh { vertices, indeces, skeleton_indeces };
        proof {
            lemma_triangle_slots_differ(triangles, n);
            lemma_filled_rows_distinct(
                out.indeces@,
                all_triangle_slots(triangles),
                n,
                first_occurrences(flat),
            );
            if self.wf() {
                lemma_triangle_slots_below(triangles, n);
                lemma_filled_rows_below(
                    out.indeces@,
                    all_triangle_slots(triangles),
                    n,
                    first_occurrences(flat),
                );
            }
        }
        out
    }
}

/// Every corner slot of the triangles that replace triangles with indices
/// below `n` is below `n`.
pub proof fn lemma_triangle_slots_below(triangles: Seq<[usize; 3]>, n: int)
    requires
        rows_below(triangles, n),
    ensures
        all_triangle_slots(triangles).len() == 4 * triangles.len(),
        forall|r: int, j: int|
            0 <= r < all_triangle_slots(triangles).len() && 0 <= j < 3 ==> (
            #[trigger] all_triangle_slots(triangles)[r][j] matches Slot::Corner(c) ==> c < n),
    decreases triangles.len(),
{
    if triangles.len() > 0 {
        let head = triangles.drop_last();
        let last = triangles.last();
        assert forall|i: int, j: int| 0 <= i < head.len() && 0 <= j < 3 implies (
        #[trigger] head[i]@[j]) < n by {
            assert(triangles[i]@[j] < n);
        }
        lemma_triangle_slots_below(head, n);
        assert(last == triangles[triangles.len() - 1]);
        assert(last@[0] < n && last@[1] < n && last@[2] < n);
        let all = all_triangle_slots(triangles);
        let before = all_triangle_slots(head);
        assert forall|r: int, j: int| 0 <= r < all.len() && 0 <= j < 3 implies (
        #[trigger] all[r][j] matches Slot::Corner(c) ==> c < n) by {
            if r < before.len() {
                assert(all[r] == before[r]);
            } else {
                assert(all[r] == triangle_slots(last)[r - before.len()]);
            }
        }
    }
}

/// Rows that fill slots whose corners are below `n` are below the number of
/// vertices of the subdivided mesh.
pub proof fn lemma_filled_rows_below<const K: usize>(
    rows: Seq<[usize; K]>,
    slots: Seq<Seq<Slot>>,
    n: int,
    edges: Seq<EdgeIndeces>,
)
    requires
        rows_fill_slots(rows, slots, n, edges),
        forall|r: int, j: int|
            0 <= r < slots.len() && 0 <= j < K ==> (#[trigger] slots[r][j] matches Slot::Corner(c)
                ==> c < n),
    ensures
        rows_below(rows, n + edges.len()),
{
    assert forall|r: int, j: int| 0 <= r < rows.len() && 0 <= j < K implies (#[trigger] rows[r]@[j])
        < n + edges.len() by {
        assert(fills_slot(rows[r]@[j], slots[r][j], n, edges));
        assert(slots[r][j] matches Slot::Corner(c) ==> c < n);
    }
}

/// The four tetrahedra that fill the octahedron between the middles of the
/// six edges of a tetrahedron, as quadruples of positions in the list of
/// those middles. Of the three diagonals of the octahedron, the one between
/// the middles at positions 2 and 3 is the one that every tetrahedron holds.
pub open spec fn octahedron_tetrahedra() -> Seq<Seq<int>> {
    seq![seq![0int, 1, 2, 3], seq![0int, 2, 3, 4], seq![1int, 2, 3, 5], seq![2int, 3, 4, 5]]
}

/// Whether the edge between positions `x < y` of the octahedron is kept:
/// all are but the diagonals between positions 0 and 5 and between 1 and 4.
pub open spec fn is_kept_edge(x: int, y: int) -> bool {
    0 <= x < y < 6 && !(x == 0 && y == 5) && !(x == 1 && y == 4)
}

/// The edges between the six positions without the two diagonals, in order.
spec fn kept_edges() -> Seq<EdgeIndeces> {
    seq![
        EdgeIndeces { A: 0, B: 1 },
        EdgeIndeces { A: 0, B: 2 },
        EdgeIndeces { A: 1, B: 2 },
        EdgeIndeces { A: 0, B: 3 },
        EdgeIndeces { A: 1, B: 3 },
        EdgeIndeces { A: 2, B: 3 },
        EdgeIndeces { A: 0, B: 4 },
        EdgeIndeces { A: 2, B: 4 },
        EdgeIndeces { A: 3, B: 4 },
        EdgeIndeces { A: 1, B: 5 },
        EdgeIndeces { A: 2, B: 5 },
        EdgeIndeces { A: 3, B: 5 },
        EdgeIndeces { A: 4, B: 5 },
    ]
}

spec fn kept_done(i: int) -> int {
    if i <= 7 {
        i
    } else if i <= 10 {
        i - 1
    } else {
        i - 2
    }
}

spec fn kept_position(x: int, y: int) -> int {
    if y == 1 {
        0
    } else if y == 2 {
        1 + x
    } else if y == 3 {
        3 + x
    } else if y == 4 {
        if x == 0 {
            6
        } else {
            5 + x
        }
    } else {
        8 + x
    }
}

/// An edge between two positions is in the list of kept edges exactly if it is kept.
proof fn lemma_kept_edges(x: int, y: int)
    requires
        0 <= x < y < 6,
    ensures
        kept_edges().contains(EdgeIndeces { A: x as usize, B: y as usize }) <==> is_kept_edge(x, y),
{
    let e = EdgeIndeces { A: x as usize, B: y as usize };
    let kept = kept_edges();
    if is_kept_edge(x, y) {
        assert(kept[kept_position(x, y)] == e);
    } else {
        assert forall|j: int| 0 <= j < kept.len() implies kept[j] != e by {}
    }
}

fn edge_list_contains(list: &Vec<EdgeIndeces>, edge: EdgeIndeces) -> (found: bool)
    ensures
        found == list@.contains(edge),
{
    let mut i: usize = 0;
    while i < list.len()
        invariant
            0 <= i <= list@.len(),
            forall|j: int| 0 <= j < i ==> list@[j] != edge,
        decreases list@.len() - i,
    {
        if list[i] == edge {
            return true;
        }
        i += 1;
    }
    false
}

/// Whether all six edges of the tetrahedron are among `edges`.
fn has_all_edges(edges: &Vec<EdgeIndeces>, tetrahedron: &[usize; 4]) -> (all: bool)
    ensures
        all == forall|a: int, b: int|
            0 <= a < b < 4 ==> edges@.contains(
                #[trigger] EdgeIndeces::spec_new(tetrahedron@[a], tetrahedron@[b]),
            ),
{
    let own = all_edges(tetrahedron.as_slice());
    proof {
        lemma_pairs_of_four();
        assert(own@.len() == 6);
        assert(own@[0] == EdgeIndeces::spec_new(tetrahedron@[0], tetrahedron@[1]));
        assert(own@[1] == EdgeIndeces::spec_new(tetrahedron@[0], tetrahedron@[2]));
        assert(own@[2] == EdgeIndeces::spec_new(tetrahedron@[1], tetrahedron@[2]));
        assert(own@[3] == EdgeIndeces::spec_new(tetrahedron@[0], tetrahedron@[3]));
        assert(own@[4] == EdgeIndeces::spec_new(tetrahedron@[1], tetrahedron@[3]));
        assert(own@[5] == EdgeIndeces::spec_new(tetrahedron@[2], tetrahedron@[3]));
    }
    let mut k: usize = 0;
    while k < own.len()
        invariant
            0 <= k <= 6,
            own@.len() == 6,
            own@[0] == EdgeIndeces::spec_new(tetrahedron@[0], tetrahedron@[1]),
            own@[1] == EdgeIndeces::spec_new(tetrahedron@[0], tetrahedron@[2]),
            own@[2] == EdgeIndeces::spec_new(tetrahedron@[1], tetrahedron@[2]),
            own@[3] == EdgeIndeces::spec_new(tetrahedron@[0], tetrahedron@[3]),
            own@[4] == EdgeIndeces::spec_new(tetrahedron@[1], tetrahedron@[3]),
            own@[5] == EdgeIndeces::spec_new(tetrahedron@[2], tetrahedron@[3]),
            forall|j: int| 0 <= j < k ==> edges@.contains(#[trigger] own@[j]),
        decreases 6 - k,
    {
        if !edge_list_contains(edges, own[k]) {
            proof {
                let a: int = if k == 0 || k == 1 || k == 3 {
                    0
                } else if k == 2 || k == 4 {
                    1
                } else {
                    2
                };
                let b: int = if k == 0 {
                    1
                } else if k == 1 || k == 2 {
                    2
                } else {
                    3
                };
                assert(own@[k as int] == EdgeIndeces::spec_new(tetrahedron@[a], tetrahedron@[b]));
                assert(!edges@.contains(EdgeIndeces::spec_new(tetrahedron@[a], tetrahedron@[b])));
            }
            return false;
        }
        k += 1;
    }
    proof {
        assert(edges@.contains(own@[0]) && edges@.contains(own@[1]) && edges@.contains(own@[2])
            && edges@.contains(own@[3]) && edges@.contains(own@[4]) && edges@.contains(own@[5]));
    }
    true
}

spec fn octahedron_done(q: int) -> int {
    if q <= 0 {
        0
    } else if q <= 3 {
        1
    } else if q <= 8 {
        2
    } else if q <= 14 {
        3
    } else {
        4
    }
}

/// The tetrahedra of the octahedron: of all quadruples of positions, those
/// whose six edges are all kept. See [`octahedron_tetrahedra`].
pub fn octahedron_tetrahedra_positions() -> (tetrahedra: Vec<[usize; 4]>)
    ensures
        rows_are(tetrahedra@, octahedron_tetrahedra()),
{
    let positions: [usize; 6] = array_0_to_N::<6>();
    let diagonal_A = EdgeIndeces::new(positions[0], positions[5]);
    let diagonal_B = EdgeIndeces::new(positions[1], positions[4]);
    let edges = all_edges(positions.as_slice());
    proof {
        lemma_pairs_of_six();
        assert(positions@ =~= seq![0usize, 1, 2, 3, 4, 5]);
        assert(edges@.len() == 15);
    }
    let mut kept: Vec<EdgeIndeces> = Vec::new();
    let mut i: usize = 0;
    while i < edges.len()
        invariant
            0 <= i <= 15,
            edges@ == edges_of(seq![0usize, 1, 2, 3, 4, 5]),
            edges@.len() == 15,
            diagonal_A == (EdgeIndeces { A: 0, B: 5 }),
            diagonal_B == (EdgeIndeces { A: 1, B: 4 }),
            kept@ =~= kept_edges().subrange(0, kept_done(i as int)),
        decreases 15 - i,
    {
        let edge = edges[i];
        proof {
            lemma_pairs_of_six();
        }
        if edge != diagonal_A && edge != diagonal_B {
            kept.push(edge);
        }
        i += 1;
    }
    proof {
        assert(kept@ =~= kept_edges());
    }
    let quadruples: Vec<[usize; 4]> = combinations_constsize::<4, usize>(positions.as_slice());
    proof {
        lemma_quadruples_of_six();
        assert(quadruples@.len() == 15);
    }
    let mut tetrahedra: Vec<[usize; 4]> = Vec::new();
    let mut q: usize = 0;
    while q < quadruples.len()
        invariant
            0 <= q <= 15,
            quadruples@.len() == 15,
            picks(quadruples@, seq![0usize, 1, 2, 3, 4, 5], combinations_of(6, 4)),
            kept@ == kept_edges(),
            rows_are(tetrahedra@, octahedron_tetrahedra().subrange(0, octahedron_done(q as int))),
        decreases 15 - q,
    {
        let tetrahedron: [usize; 4] = quadruples[q];
        let keep = has_all_edges(&kept, &tetrahedron);
        proof {
            lemma_quadruples_of_six();
            let source = seq![0usize, 1, 2, 3, 4, 5];
            let combo = combinations_of(6, 4)[q as int];
            assert(tetrahedron@[0] == source[combo[0]]);
            assert(tetrahedron@[1] == source[combo[1]]);
            assert(tetrahedron@[2] == source[combo[2]]);
            assert(tetrahedron@[3] == source[combo[3]]);
            let (p0, p1, p2, p3) = (
                tetrahedron@[0] as int,
                tetrahedron@[1] as int,
                tetrahedron@[2] as int,
                tetrahedron@[3] as int,
            );
            assert(0 <= p0 < p1 < p2 < p3 < 6);
            lemma_kept_edges(p0, p1);
            lemma_kept_edges(p0, p2);
            lemma_kept_edges(p0, p3);
            lemma_kept_edges(p1, p2);
            lemma_kept_edges(p1, p3);
            lemma_kept_edges(p2, p3);
            assert(EdgeIndeces::spec_new(tetrahedron@[0], tetrahedron@[1]) == (EdgeIndeces {
                A: p0 as usize,
                B: p1 as usize,
            }));
            assert(EdgeIndeces::spec_new(tetrahedron@[0], tetrahedron@[2]) == (EdgeIndeces {
                A: p0 as usize,
                B: p2 as usize,
            }));
            assert(EdgeIndeces::spec_new(tetrahedron@[0], tetrahedron@[3]) == (EdgeIndeces {
                A: p0 as usize,
                B: p3 as usize,
            }));
            assert(EdgeIndeces::spec_new(tetrahedron@[1], tetrahedron@[2]) == (EdgeIndeces {
                A: p1 as usize,
                B: p2 as usize,
            }));
            assert(EdgeIndeces::spec_new(tetrahedron@[1], tetrahedron@[3]) == (EdgeIndeces {
                A: p1 as usize,
                B: p3 as usize,
            }));
            assert(EdgeIndeces::spec_new(tetrahedron@[2], tetrahedron@[3]) == (EdgeIndeces {
                A: p2 as usize,
                B: p3 as usize,
            }));
            assert(keep == (is_kept_edge(p0, p1) && is_kept_edge(p0, p2) && is_kept_edge(p0, p3)
                && is_kept_edge(p1, p2) && is_kept_edge(p1, p3) && is_kept_edge(p2, p3)));
        }
        if keep {
            let ghost before = tetrahedra@;
            tetrahedra.push(tetrahedron);
            proof {
                let target = octahedron_tetrahedra().subrange(0, octahedron_done(q + 1));
                assert(q == 0 || q == 3 || q == 8 || q == 14);
                assert forall|r: int, j: int|
                    0 <= r < tetrahedra@.len() && 0 <= j < 4 implies (#[trigger] tetrahedra@[r]@[j]) as int
                    == target[r][j] by {
                    if r < before.len() {
                        assert(tetrahedra@[r] == before[r]);
                    }
                }
            }
        } else {
            proof {
                assert(!(q == 0 || q == 3 || q == 8 || q == 14));
            }
        }
        q += 1;
    }
    proof {
        assert(octahedron_tetrahedra().subrange(0, 4) =~= octahedron_tetrahedra());
    }
    tetrahedra
}

/// The eight tetrahedra that replace a tetrahedron: one at each corner, made
/// of the corner and the middles of its three edges, and four that fill the
/// octahedron between the middles of the six edges.
pub open spec fn tetrahedron_slots(t: [usize; 4]) -> Seq<Seq<Slot>> {
    let e = edges_of_tetrahedron(t);
    seq![
        seq![Slot::Corner(t@[0]), Slot::Middle(e[0]), Slot::Middle(e[1]), Slot::Middle(e[3])],
        seq![Slot::Corner(t@[1]), Slot::Middle(e[0]), Slot::Middle(e[2]), Slot::Middle(e[4])],
        seq![Slot::Corner(t@[2]), Slot::Middle(e[1]), Slot::Middle(e[2]), Slot::Middle(e[5])],
        seq![Slot::Corner(t@[3]), Slot::Middle(e[3]), Slot::Middle(e[4]), Slot::Middle(e[5])],
        seq![Slot::Middle(e[0]), Slot::Middle(e[1]), Slot::Middle(e[2]), Slot::Middle(e[3])],
        seq![Slot::Middle(e[0]), Slot::Middle(e[2]), Slot::Middle(e[3]), Slot::Middle(e[4])],
        seq![Slot::Middle(e[1]), Slot::Middle(e[2]), Slot::Middle(e[3]), Slot::Middle(e[5])],
        seq![Slot::Middle(e[2]), Slot::Middle(e[3]), Slot::Middle(e[4]), Slot::Middle(e[5])],
    ]
}

/// The slots of the tetrahedra that replace all the tetrahedra.
pub open spec fn all_tetrahedron_slots(tetrahedra: Seq<[usize; 4]>) -> Seq<Seq<Slot>>
    decreases tetrahedra.len(),
{
    if tetrahedra.len() == 0 {
        Seq::<Seq<Slot>>::empty()
    } else {
        all_tetrahedron_slots(tetrahedra.drop_last()) + tetrahedron_slots(tetrahedra.last())
    }
}

/// Replaces one tetrahedron by eight.
fn subdivide_tetrahedron<V: Copy, M: Fn(V, V) -> V>(
    mean: &M,
    tetrahedron: [usize; 4],
    octahedron: &Vec<[usize; 4]>,
    edge_vertex_index_from_edge: &mut HashMap<u128, usize>,
    vertices: &mut Vec<V>,
    indeces: &mut Vec<[usize; 4]>,
    Ghost(before): Ghost<Seq<V>>,
    Ghost(flat): Ghost<Seq<EdgeIndeces>>,
    Ghost(slots): Ghost<Seq<Seq<Slot>>>,
)
    requires
        forall|j: int| 0 <= j < 4 ==> #[trigger] tetrahedron@[j] < before.len(),
        forall|i: int, j: int| 0 <= i < j < 4 ==> #[trigger] tetrahedron@[i] != #[trigger] tetrahedron@[j],
        rows_are(octahedron@, octahedron_tetrahedra()),
        can_average(*mean, before),
        middles_appended(*mean, before, old(vertices)@, first_occurrences(flat)),
        middles_known(
            old(edge_vertex_index_from_edge)@,
            before.len() as int,
            first_occurrences(flat),
        ),
        rows_fill_slots(old(indeces)@, slots, before.len() as int, first_occurrences(flat)),
    ensures
        middles_appended(
            *mean,
            before,
            final(vertices)@,
            first_occurrences(flat + edges_of_tetrahedron(tetrahedron)),
        ),
        middles_known(
            final(edge_vertex_index_from_edge)@,
            before.len() as int,
            first_occurrences(flat + edges_of_tetrahedron(tetrahedron)),
        ),
        rows_fill_slots(
            final(indeces)@,
            slots + tetrahedron_slots(tetrahedron),
            before.len() as int,
            first_occurrences(flat + edges_of_tetrahedron(tetrahedron)),
        ),
{
    let ghost n = before.len() as int;
    let primitive_edges: Vec<EdgeIndeces> = all_edges(tetrahedron.as_slice());
    proof {
        lemma_pairs_of_four();
        assert(tetrahedron@[0] < n && tetrahedron@[1] < n && tetrahedron@[2] < n && tetrahedron@[3]
            < n);
        assert(primitive_edges@ =~= edges_of_tetrahedron(tetrahedron));
    }
    let all_edge_vertex_indeces = middles_of_edges(
        mean,
        &primitive_edges,
        edge_vertex_index_from_edge,
        vertices,
        Ghost(before),
        Ghost(flat),
    );
    let ghost edges = first_occurrences(flat + edges_of_tetrahedron(tetrahedron));
    proof {
        lemma_slots_stay_filled(indeces@, slots, n, first_occurrences(flat), edges);
    }
    let ghost wanted = tetrahedron_slots(tetrahedron);
    let mut c: usize = 0;
    proof {
        assert(slots + wanted.subrange(0, 0) =~= slots);
    }
    while c < 4
        invariant
            0 <= c <= 4,
            n == before.len(),
            forall|i: int, j: int|
                0 <= i < j < 4 ==> #[trigger] tetrahedron@[i] != #[trigger] tetrahedron@[j],
            primitive_edges@ == edges_of_tetrahedron(tetrahedron),
            wanted == tetrahedron_slots(tetrahedron),
            all_edge_vertex_indeces@.len() == 6,
            forall|k: int|
                0 <= k < 6 ==> is_middle_of(
                    #[trigger] all_edge_vertex_indeces@[k],
                    primitive_edges@[k],
                    n,
                    edges,
                ),
            rows_fill_slots(indeces@, slots + wanted.subrange(0, c as int), n, edges),
        decreases 4 - c,
    {
        let corner_index = tetrahedron[c];
        let corner_edge_vertex_indeces = corner_edge_middles(
            &primitive_edges,
            &all_edge_vertex_indeces,
            corner_index,
        );
        proof {
            reveal_with_fuel(middles_at_corner, 7);
            assert(tetrahedron@[0] != tetrahedron@[1] && tetrahedron@[0] != tetrahedron@[2]
                && tetrahedron@[0] != tetrahedron@[3] && tetrahedron@[1] != tetrahedron@[2]
                && tetrahedron@[1] != tetrahedron@[3] && tetrahedron@[2] != tetrahedron@[3]);
            assert(corner_edge_vertex_indeces@.len() == 3);
            assert(is_middle_of(all_edge_vertex_indeces@[0], primitive_edges@[0], n, edges));
            assert(is_middle_of(all_edge_vertex_indeces@[1], primitive_edges@[1], n, edges));
            assert(is_middle_of(all_edge_vertex_indeces@[2], primitive_edges@[2], n, edges));
            assert(is_middle_of(all_edge_vertex_indeces@[3], primitive_edges@[3], n, edges));
            assert(is_middle_of(all_edge_vertex_indeces@[4], primitive_edges@[4], n, edges));
            assert(is_middle_of(all_edge_vertex_indeces@[5], primitive_edges@[5], n, edges));
        }
        let row: [usize; 4] = [
            corner_index,
            corner_edge_vertex_indeces[0],
            corner_edge_vertex_indeces[1],
            corner_edge_vertex_indeces[2],
        ];
        let ghost rows_then = indeces@;
        indeces.push(row);
        proof {
            let target = slots + wanted.subrange(0, c + 1);
            let had = slots + wanted.subrange(0, c as int);
            assert forall|r: int, j: int| 0 <= r < indeces@.len() && 0 <= j < 4 implies fills_slot(
                #[trigger] indeces@[r]@[j],
                target[r][j],
                n,
                edges,
            ) by {
                if r < rows_then.len() {
                    assert(indeces@[r] == rows_then[r]);
                    assert(target[r] == had[r]);
                    assert(fills_slot(rows_then[r]@[j], had[r][j], n, edges));
                } else {
                    assert(target[r] == wanted[c as int]);
                }
            }
        }
        c += 1;
    }
    let mut o: usize = 0;
    while o < octahedron.len()
        invariant
            0 <= o <= 4,
            n == before.len(),
            rows_are(octahedron@, octahedron_tetrahedra()),
            primitive_edges@ == edges_of_tetrahedron(tetrahedron),
            wanted == tetrahedron_slots(tetrahedron),
            all_edge_vertex_indeces@.len() == 6,
            forall|k: int|
                0 <= k < 6 ==> is_middle_of(
                    #[trigger] all_edge_vertex_indeces@[k],
                    primitive_edges@[k],
                    n,
                    edges,
                ),
            rows_fill_slots(indeces@, slots + wanted.subrange(0, 4 + o), n, edges),
        decreases 4 - o,
    {
        let places: [usize; 4] = octahedron[o];
        proof {
            assert(octahedron@[o as int]@[0] as int == octahedron_tetrahedra()[o as int][0]);
            assert(octahedron@[o as int]@[1] as int == octahedron_tetrahedra()[o as int][1]);
            assert(octahedron@[o as int]@[2] as int == octahedron_tetrahedra()[o as int][2]);
            assert(octahedron@[o as int]@[3] as int == octahedron_tetrahedra()[o as int][3]);
        }
        let row: [usize; 4] = [
            all_edge_vertex_indeces[places[0]],
            all_edge_vertex_indeces[places[1]],
            all_edge_vertex_indeces[places[2]],
            all_edge_vertex_indeces[places[3]],
        ];
        let ghost rows_then = indeces@;
        indeces.push(row);
        proof {
            let target = slots + wanted.subrange(0, 4 + o + 1);
            let had = slots + wanted.subrange(0, 4 + o);
            assert(is_middle_of(all_edge_vertex_indeces@[0], primitive_edges@[0], n, edges));
            assert(is_middle_of(all_edge_vertex_indeces@[1], primitive_edges@[1], n, edges));
            assert(is_middle_of(all_edge_vertex_indeces@[2], primitive_edges@[2], n, edges));
            assert(is_middle_of(all_edge_vertex_indeces@[3], primitive_edges@[3], n, edges));
            assert(is_middle_of(all_edge_vertex_indeces@[4], primitive_edges@[4], n, edges));
            assert(is_middle_of(all_edge_vertex_indeces@[5], primitive_edges@[5], n, edges));
            assert forall|r: int, j: int| 0 <= r < indeces@.len() && 0 <= j < 4 implies fills_slot(
                #[trigger] indeces@[r]@[j],
                target[r][j],
                n,
                edges,
            ) by {
                if r < rows_then.len() {
                    assert(indeces@[r] == rows_then[r]);
                    assert(target[r] == had[r]);
                    assert(fills_slot(rows_then[r]@[j], had[r][j], n, edges));
                } else {
                    assert(target[r] == wanted[4 + o]);
                }
            }
        }
        o += 1;
    }
    proof {
        assert(wanted.subrange(0, 8) =~= wanted);
    }
}

/// `out` is `input` with its surface subdivided: the old vertices are
/// followed by one vertex for the middle of every edge, in the order in which
/// the edges first occur; every tetrahedron is replaced by eight; the
/// skeleton is as it was.
pub open spec fn is_subdivision4<V, M: Fn(V, V) -> V>(
    out: Mesh4D<V>,
    input: Mesh4D<V>,
    mean: M,
) -> bool {
    let edges = first_occurrences(all_edges_of_tetrahedra(input.indeces@));
    &&& middles_appended(mean, input.vertices@, out.vertices@, edges)
    &&& rows_fill_slots(
        out.indeces@,
        all_tetrahedron_slots(input.indeces@),
        input.vertices@.len() as int,
        edges,
    )
    &&& out.skeleton_indeces@ == input.skeleton_indeces@
}

impl<V: Copy> Mesh<V, 4, 2> {
    /// Subdivides every tetrahedron into eight; the skeleton is not subdivided.
    pub fn subdivide_surface<M: Fn(V, V) -> V>(self, mean: &M) -> (out: Self)
        requires
            rows_below(self.indeces@, self.vertices@.len() as int),
            rows_distinct(self.indeces@),
            can_average(*mean, self.vertices@),
        ensures
            is_subdivision4(out, self, *mean),
            rows_distinct(out.indeces@),
            self.wf() ==> out.wf(),
    {
        let ghost before = self.vertices@;
        let ghost tetrahedra = self.indeces@;
        let ghost n = before.len() as int;
        let octahedron = octahedron_tetrahedra_positions();
        let mut vertices = self.vertices;
        let old_indeces = self.indeces;
        let skeleton_indeces = self.skeleton_indeces;
        let mut indeces: Vec<[usize; 4]> = Vec::new();
        let mut edge_vertex_index_from_edge: HashMap<u128, usize> = HashMap::new();
        let ghost mut flat: Seq<EdgeIndeces> = Seq::empty();
        let mut t: usize = 0;
        proof {
            assert(tetrahedra.subrange(0, 0) =~= Seq::<[usize; 4]>::empty());
        }
        while t < old_indeces.len()
            invariant
                0 <= t <= tetrahedra.len(),
                old_indeces@ == tetrahedra,
                n == before.len(),
                rows_below(tetrahedra, n),
                rows_distinct(tetrahedra),
                rows_are(octahedron@, octahedron_tetrahedra()),
                can_average(*mean, before),
                flat == all_edges_of_tetrahedra(tetrahedra.subrange(0, t as int)),
                middles_appended(*mean, before, vertices@, first_occurrences(flat)),
                middles_known(edge_vertex_index_from_edge@, n, first_occurrences(flat)),
                rows_fill_slots(
                    indeces@,
                    all_tetrahedron_slots(tetrahedra.subrange(0, t as int)),
                    n,
                    first_occurrences(flat),
                ),
            decreases tetrahedra.len() - t,
        {
            let tetrahedron: [usize; 4] = old_indeces[t];
            proof {
                assert forall|j: int| 0 <= j < 4 implies #[trigger] tetrahedron@[j] < before.len() by {
                    assert(tetrahedra[t as int]@[j] < n);
                }
                assert forall|i: int, j: int| 0 <= i < j < 4 implies #[trigger] tetrahedron@[i]
                    != #[trigger] tetrahedron@[j] by {
                    assert(tetrahedra[t as int]@[i] != tetrahedra[t as int]@[j]);
                }
                assert(tetrahedra.subrange(0, t + 1).drop_last() =~= tetrahedra.subrange(
                    0,
                    t as int,
                ));
                assert(tetrahedra.subrange(0, t + 1).last() == tetrahedron);
            }
            subdivide_tetrahedron(
                mean,
                tetrahedron,
                &octahedron,
                &mut edge_vertex_index_from_edge,
                &mut vertices,
                &mut indeces,
                Ghost(before),
                Ghost(flat),
                Ghost(all_tetrahedron_slots(tetrahedra.subrange(0, t as int))),
            );
            proof {
                flat = flat + edges_of_tetrahedron(tetrahedron);
            }
            t += 1;
        }
        proof {
            assert(tetrahedra.subrange(0, tetrahedra.len() as int) =~= tetrahedra);
        }
        let out = Mesh { vertices, indeces, skeleton_indeces };
        proof {
            lemma_tetrahedron_slots_differ(tetrahedra, n);
            lemma_filled_rows_distinct(
                out.indeces@,
                all_tetrahedron_slots(tetrahedra),
                n,
                first_occurrences(flat),
            );
            if self.wf() {
                lemma_tetrahedron_slots_below(tetrahedra, n);
                lemma_filled_rows_below(
                    out.indeces@,
                    all_tetrahedron_slots(tetrahedra),
                    n,
                    first_occurrences(flat),
                );
            }
        }
        out
    }
}

/// Every corner slot of the tetrahedra that replace tetrahedra with indices
/// below `n` is below `n`.
pub proof fn lemma_tetrahedron_slots_below(tetrahedra: Seq<[usize; 4]>, n: int)
    requires
        rows_below(tetrahedra, n),
    ensures
        all_tetrahedron_slots(tetrahedra).len() == 8 * tetrahedra.len(),
        forall|r: int, j: int|
            0 <= r < all_tetrahedron_slots(tetrahedra).len() && 0 <= j < 4 ==> (
            #[trigger] all_tetrahedron_slots(tetrahedra)[r][j] matches Slot::Corner(c) ==> c < n),
    decreases tetrahedra.len(),
{
    if tetrahedra.len() > 0 {
        let head = tetrahedra.drop_last();
        let last = tetrahedra.last();
        assert forall|i: int, j: int| 0 <= i < head.len() && 0 <= j < 4 implies (
        #[trigger] head[i]@[j]) < n by {
            assert(tetrahedra[i]@[j] < n);
        }
        lemma_tetrahedron_slots_below(head, n);
        assert(last == tetrahedra[tetrahedra.len() - 1]);
        assert(last@[0] < n && last@[1] < n && last@[2] < n && last@[3] < n);
        let all = all_tetrahedron_slots(tetrahedra);
        let before = all_tetrahedron_slots(head);
        assert forall|r: int, j: int| 0 <= r < all.len() && 0 <= j < 4 implies (
        #[trigger] all[r][j] matches Slot::Corner(c) ==> c < n) by {
            if r < before.len() {
                assert(all[r] == before[r]);
            } else {
                assert(all[r] == tetrahedron_slots(last)[r - before.len()]);
            }
        }
    }
}

/// Two places of the subdivided mesh that stand for the middle of the same
/// edge hold the same vertex index: primitives that share an edge share the
/// vertex at its middle.
pub proof fn lemma_shared_edge_shares_middle<const K: usize>(
    rows: Seq<[usize; K]>,
    slots: Seq<Seq<Slot>>,
    n: int,
    edges: Seq<EdgeIndeces>,
    r1: int,
    j1: int,
    r2: int,
    j2: int,
)
    requires
        rows_fill_slots(rows, slots, n, edges),
        edges.no_duplicates(),
        0 <= r1 < rows.len(),
        0 <= r2 < rows.len(),
        0 <= j1 < K,
        0 <= j2 < K,
        slots[r1][j1] is Middle,
        slots[r1][j1] == slots[r2][j2],
    ensures
        rows[r1]@[j1] == rows[r2]@[j2],
{
    assert(fills_slot(rows[r1]@[j1], slots[r1][j1], n, edges));
    assert(fills_slot(rows[r2]@[j2], slots[r2][j2], n, edges));
}

/// The middles of different edges are different vertices.
pub proof fn lemma_middles_differ(
    n: int,
    edges: Seq<EdgeIndeces>,
    first: usize,
    second: usize,
    e: EdgeIndeces,
    f: EdgeIndeces,
)
    requires
        is_middle_of(first, e, n, edges),
        is_middle_of(second, f, n, edges),
        e != f,
    ensures
        first != second,
{
}

/// Two slots that cannot be filled by the same index: a corner below `n`
/// and a middle, or the middles of two different edges.
pub open spec fn slots_differ(a: Slot, b: Slot, n: int) -> bool {
    match (a, b) {
        (Slot::Corner(c), Slot::Corner(d)) => c != d,
        (Slot::Corner(c), Slot::Middle(_)) => c < n,
        (Slot::Middle(_), Slot::Corner(d)) => d < n,
        (Slot::Middle(e), Slot::Middle(f)) => e != f,
    }
}

/// Rows that fill slots which differ within every row name no vertex twice.
pub proof fn lemma_filled_rows_distinct<const K: usize>(
    rows: Seq<[usize; K]>,
    slots: Seq<Seq<Slot>>,
    n: int,
    edges: Seq<EdgeIndeces>,
)
    requires
        rows_fill_slots(rows, slots, n, edges),
        forall|r: int, i: int, j: int|
            0 <= r < slots.len() && 0 <= i < j < K ==> slots_differ(
                #[trigger] slots[r][i],
                #[trigger] slots[r][j],
                n,
            ),
    ensures
        rows_distinct(rows),
{
    assert forall|r: int, i: int, j: int| 0 <= r < rows.len() && 0 <= i < j < K implies #[trigger] rows[r]@[i]
        != #[trigger] rows[r]@[j] by {
        assert(fills_slot(rows[r]@[i], slots[r][i], n, edges));
        assert(fills_slot(rows[r]@[j], slots[r][j], n, edges));
        assert(slots_differ(slots[r][i], slots[r][j], n));
    }
}

/// The slots of the triangles that replace triangles with distinct corners
/// below `n` differ within every row.
pub proof fn lemma_triangle_slots_differ(triangles: Seq<[usize; 3]>, n: int)
    requires
        rows_below(triangles, n),
        rows_distinct(triangles),
    ensures
        forall|r: int, i: int, j: int|
            0 <= r < all_triangle_slots(triangles).len() && 0 <= i < j < 3 ==> slots_differ(
                #[trigger] all_triangle_slots(triangles)[r][i],
                #[trigger] all_triangle_slots(triangles)[r][j],
                n,
            ),
    decreases triangles.len(),
{
    if triangles.len() > 0 {
        let head = triangles.drop_last();
        let last = triangles.last();
        assert forall|i: int, j: int| 0 <= i < head.len() && 0 <= j < 3 implies (
        #[trigger] head[i]@[j]) < n by {
            assert(triangles[i]@[j] < n);
        }
        assert forall|r: int, i: int, j: int|
            0 <= r < head.len() && 0 <= i < j < 3 implies #[trigger] head[r]@[i]
            != #[trigger] head[r]@[j] by {
            assert(triangles[r]@[i] != triangles[r]@[j]);
        }
        lemma_triangle_slots_differ(head, n);
        assert(last == triangles[triangles.len() - 1]);
        assert(last@[0] < n && last@[1] < n && last@[2] < n);
        assert(last@[0] != last@[1] && last@[0] != last@[2] && last@[1] != last@[2]);
        let all = all_triangle_slots(triangles);
        let before = all_triangle_slots(head);
        assert forall|r: int, i: int, j: int|
            0 <= r < all.len() && 0 <= i < j < 3 implies slots_differ(
            #[trigger] all[r][i],
            #[trigger] all[r][j],
            n,
        ) by {
            if r < before.len() {
                assert(all[r] == before[r]);
                assert(slots_differ(before[r][i], before[r][j], n));
            } else {
                assert(all[r] == triangle_slots(last)[r - before.len()]);
            }
        }
    }
}

/// The slots of the tetrahedra that replace tetrahedra with distinct corners
/// below `n` differ within every row.
pub proof fn lemma_tetrahedron_slots_differ(tetrahedra: Seq<[usize; 4]>, n: int)
    requires
        rows_below(tetrahedra, n),
        rows_distinct(tetrahedra),
    ensures
        forall|r: int, i: int, j: int|
            0 <= r < all_tetrahedron_slots(tetrahedra).len() && 0 <= i < j < 4 ==> slots_differ(
                #[trigger] all_tetrahedron_slots(tetrahedra)[r][i],
                #[trigger] all_tetrahedron_slots(tetrahedra)[r][j],
                n,
            ),
    decreases tetrahedra.len(),
{
    if tetrahedra.len() > 0 {
        let head = tetrahedra.drop_last();
        let last = tetrahedra.last();
        assert forall|i: int, j: int| 0 <= i < head.len() && 0 <= j < 4 implies (
        #[trigger] head[i]@[j]) < n by {
            assert(tetrahedra[i]@[j] < n);
        }
        assert forall|r: int, i: int, j: int|
            0 <= r < head.len() && 0 <= i < j < 4 implies #[trigger] head[r]@[i]
            != #[trigger] head[r]@[j] by {
            assert(tetrahedra[r]@[i] != tetrahedra[r]@[j]);
        }
        lemma_tetrahedron_slots_differ(head, n);
        assert(last == tetrahedra[tetrahedra.len() - 1]);
        assert(last@[0] < n && last@[1] < n && last@[2] < n && last@[3] < n);
        assert(last@[0] != last@[1] && last@[0] != last@[2] && last@[0] != last@[3] && last@[1]
            != last@[2] && last@[1] != last@[3] && last@[2] != last@[3]);
        let all = all_tetrahedron_slots(tetrahedra);
        let before = all_tetrahedron_slots(head);
        assert forall|r: int, i: int, j: int|
            0 <= r < all.len() && 0 <= i < j < 4 implies slots_differ(
            #[trigger] all[r][i],
            #[trigger] all[r][j],
            n,
        ) by {
            if r < before.len() {
                assert(all[r] == before[r]);
                assert(slots_differ(before[r][i], before[r][j], n));
            } else {
                assert(all[r] == tetrahedron_slots(last)[r - before.len()]);
            }
        }
    }
}

/// The slots and the list of edges fix the rows that fill them.
pub proof fn lemma_filled_rows_unique<const K: usize>(
    first: Seq<[usize; K]>,
    second: Seq<[usize; K]>,
    slots: Seq<Seq<Slot>>,
    n: int,
    edges: Seq<EdgeIndeces>,
)
    requires
        rows_fill_slots(first, slots, n, edges),
        rows_fill_slots(second, slots, n, edges),
        edges.no_duplicates(),
    ensures
        first == second,
{
    assert forall|r: int| 0 <= r < first.len() implies first[r] == second[r] by {
        assert forall|j: int| 0 <= j < K implies first[r][j] == second[r][j] by {
            assert(fills_slot(first[r]@[j], slots[r][j], n, edges));
            assert(fills_slot(second[r]@[j], slots[r][j], n, edges));
        }
        assert(first[r] =~= second[r]);
    }
    assert(first =~= second);
}

/// Subdividing meshes with the same triangles and as many vertices gives
/// the same triangles and as many vertices.
pub proof fn lemma_subdivision_unique3<V, M: Fn(V, V) -> V>(
    first: Mesh3D<V>,
    second: Mesh3D<V>,
    first_input: Mesh3D<V>,
    second_input: Mesh3D<V>,
    mean: M,
)
    requires
        is_subdivision3(first, first_input, mean),
        is_subdivision3(second, second_input, mean),
        first_input.indeces@ == second_input.indeces@,
        first_input.vertices@.len() == second_input.vertices@.len(),
    ensures
        first.indeces@ == second.indeces@,
        first.vertices@.len() == second.vertices@.len(),
{
    let edges = first_occurrences(all_triangle_edges(first_input.indeces@));
    lemma_first_occurrences(all_triangle_edges(first_input.indeces@));
    lemma_filled_rows_unique(
        first.indeces@,
        second.indeces@,
        all_triangle_slots(first_input.indeces@),
        first_input.vertices@.len() as int,
        edges,
    );
}

/// Subdividing meshes with the same tetrahedra and as many vertices gives
/// the same tetrahedra and as many vertices.
pub proof fn lemma_subdivision_unique4<V, M: Fn(V, V) -> V>(
    first: Mesh4D<V>,
    second: Mesh4D<V>,
    first_input: Mesh4D<V>,
    second_input: Mesh4D<V>,
    mean: M,
)
    requires
        is_subdivision4(first, first_input, mean),
        is_subdivision4(second, second_input, mean),
        first_input.indeces@ == second_input.indeces@,
        first_input.vertices@.len() == second_input.vertices@.len(),
    ensures
        first.indeces@ == second.indeces@,
        first.vertices@.len() == second.vertices@.len(),
{
    let edges = first_occurrences(all_edges_of_tetrahedra(first_input.indeces@));
    lemma_first_occurrences(all_edges_of_tetrahedra(first_input.indeces@));
    lemma_filled_rows_unique(
        first.indeces@,
        second.indeces@,
        all_tetrahedron_slots(first_input.indeces@),
        first_input.vertices@.len() as int,
        edges,
    );
}

/// Every triangle is replaced by four rows.
pub proof fn lemma_triangle_slots_len(triangles: Seq<[usize; 3]>)
    ensures
        all_triangle_slots(triangles).len() == 4 * triangles.len(),
    decreases triangles.len(),
{
    if triangles.len() > 0 {
        lemma_triangle_slots_len(triangles.drop_last());
    }
}

/// Row `c` of the four rows that replace triangle `i`.
pub proof fn lemma_triangle_slots_at(triangles: Seq<[usize; 3]>, i: int, c: int)
    requires
        0 <= i < triangles.len(),
        0 <= c < 4,
    ensures
        all_triangle_slots(triangles).len() == 4 * triangles.len(),
        all_triangle_slots(triangles)[4 * i + c] == triangle_slots(triangles[i])[c],
    decreases triangles.len(),
{
    let head = triangles.drop_last();
    lemma_triangle_slots_len(triangles);
    lemma_triangle_slots_len(head);
    if i < head.len() {
        lemma_triangle_slots_at(head, i, c);
        assert(head[i] == triangles[i]);
        assert(all_triangle_slots(triangles)[4 * i + c] == all_triangle_slots(head)[4 * i + c]);
    } else {
        assert(triangles.last() == triangles[i]);
        assert(all_triangle_slots(triangles)[4 * i + c] == triangle_slots(triangles.last())[c]);
    }
}

/// Every tetrahedron is replaced by eight rows.
pub proof fn lemma_tetrahedron_slots_len(tetrahedra: Seq<[usize; 4]>)
    ensures
        all_tetrahedron_slots(tetrahedra).len() == 8 * tetrahedra.len(),
    decreases tetrahedra.len(),
{
    if tetrahedra.len() > 0 {
        lemma_tetrahedron_slots_len(tetrahedra.drop_last());
    }
}

/// Row `c` of the eight rows that replace tetrahedron `i`.
pub proof fn lemma_tetrahedron_slots_at(tetrahedra: Seq<[usize; 4]>, i: int, c: int)
    requires
        0 <= i < tetrahedra.len(),
        0 <= c < 8,
    ensures
        all_tetrahedron_slots(tetrahedra).len() == 8 * tetrahedra.len(),
        all_tetrahedron_slots(tetrahedra)[8 * i + c] == tetrahedron_slots(tetrahedra[i])[c],
    decreases tetrahedra.len(),
{
    let head = tetrahedra.drop_last();
    lemma_tetrahedron_slots_len(tetrahedra);
    lemma_tetrahedron_slots_len(head);
    if i < head.len() {
        lemma_tetrahedron_slots_at(head, i, c);
        assert(head[i] == tetrahedra[i]);
        assert(all_tetrahedron_slots(tetrahedra)[8 * i + c] == all_tetrahedron_slots(head)[8 * i + c]);
    } else {
        assert(tetrahedra.last() == tetrahedra[i]);
        assert(all_tetrahedron_slots(tetrahedra)[8 * i + c] == tetrahedron_slots(tetrahedra.last())[c]);
    }
}

/// Where two triangles share an edge, the triangles between the middles of
/// their edges hold the same vertex for the middle of that edge: edge `a`
/// of triangle `i` and edge `b` of triangle `j` being the same edge, place
/// `a` of the last of the four rows of `i` equals place `b` of the last of
/// the four rows of `j`.
pub proof fn lemma_shared_edge_same_middle3<V, M: Fn(V, V) -> V>(
    out: Mesh3D<V>,
    input: Mesh3D<V>,
    mean: M,
    i: int,
    a: int,
    j: int,
    b: int,
)
    requires
        is_subdivision3(out, input, mean),
        0 <= i < input.indeces@.len(),
        0 <= j < input.indeces@.len(),
        0 <= a < 3,
        0 <= b < 3,
        triangle_edges(input.indeces@[i])[a] == triangle_edges(input.indeces@[j])[b],
    ensures
        out.indeces@.len() == 4 * input.indeces@.len(),
        out.indeces@[4 * i + 3]@[a] == out.indeces@[4 * j + 3]@[b],
{
    let triangles = input.indeces@;
    let slots = all_triangle_slots(triangles);
    let edges = first_occurrences(all_triangle_edges(triangles));
    lemma_first_occurrences(all_triangle_edges(triangles));
    lemma_triangle_slots_at(triangles, i, 3);
    lemma_triangle_slots_at(triangles, j, 3);
    assert(slots[4 * i + 3][a] == Slot::Middle(triangle_edges(triangles[i])[a]));
    assert(slots[4 * j + 3][b] == Slot::Middle(triangle_edges(triangles[j])[b]));
    lemma_shared_edge_shares_middle(
        out.indeces@,
        slots,
        input.vertices@.len() as int,
        edges,
        4 * i + 3,
        a,
        4 * j + 3,
        b,
    );
}

/// The row, among the eight rows that replace a tetrahedron, in which the
/// middle of its edge `a` is looked up, and the place in that row.
pub open spec fn place_of_middle4(a: int) -> (int, int) {
    if a < 4 {
        (4, a)
    } else {
        (7, a - 2)
    }
}

/// Where two tetrahedra share an edge, their octahedra hold the same vertex
/// for the middle of that edge: edge `a` of tetrahedron `i` and edge `b` of
/// tetrahedron `j` being the same edge, the places of their middles hold
/// the same index.
pub proof fn lemma_shared_edge_same_middle4<V, M: Fn(V, V) -> V>(
    out: Mesh4D<V>,
    input: Mesh4D<V>,
    mean: M,
    i: int,
    a: int,
    j: int,
    b: int,
)
    requires
        is_subdivision4(out, input, mean),
        0 <= i < input.indeces@.len(),
        0 <= j < input.indeces@.len(),
        0 <= a < 6,
        0 <= b < 6,
        edges_of_tetrahedron(input.indeces@[i])[a] == edges_of_tetrahedron(input.indeces@[j])[b],
    ensures
        out.indeces@.len() == 8 * input.indeces@.len(),
        out.indeces@[8 * i + place_of_middle4(a).0]@[place_of_middle4(a).1] == out.indeces@[8 * j
            + place_of_middle4(b).0]@[place_of_middle4(b).1],
{
    let tetrahedra = input.indeces@;
    let slots = all_tetrahedron_slots(tetrahedra);
    let edges = first_occurrences(all_edges_of_tetrahedra(tetrahedra));
    lemma_first_occurrences(all_edges_of_tetrahedra(tetrahedra));
    let (ra, ca) = place_of_middle4(a);
    let (rb, cb) = place_of_middle4(b);
    lemma_tetrahedron_slots_at(tetrahedra, i, ra);
    lemma_tetrahedron_slots_at(tetrahedra, j, rb);
    assert(slots[8 * i + ra][ca] == Slot::Middle(edges_of_tetrahedron(tetrahedra[i])[a]));
    assert(slots[8 * j + rb][cb] == Slot::Middle(edges_of_tetrahedron(tetrahedra[j])[b]));
    lemma_shared_edge_shares_middle(
        out.indeces@,
        slots,
        input.vertices@.len() as int,
        edges,
        8 * i + ra,
        ca,
        8 * j + rb,
        cb,
    );
}

} // verus!
