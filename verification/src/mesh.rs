//! Indexed meshes over any vertex type: triangles with point skeletons in
//! three dimensions, tetrahedra with edge skeletons in four.
use vstd::prelude::*;
use std::collections::{HashMap, HashSet};
use crate::combinations::{combinations_constsize, lemma_pairs_of_four};
use crate::dedup::{first_occurrences, lemma_first_occurrences};
use crate::edges::{
    all_edges_of_tetrahedra, edges_of_tetrahedron, lemma_edge_key_injective, EdgeIndeces,
};

verus! {

/// Vertices, surface primitives of `P` vertex indices each, and skeleton
/// primitives of `S` vertex indices each.
#[derive(Debug, Clone)]
pub struct Mesh<V, const P: usize, const S: usize> {
    pub vertices: Vec<V>,
    pub indeces: Vec<[usize; P]>,
    pub skeleton_indeces: Vec<[usize; S]>,
}

/// A triangle mesh; its skeleton is made of points.
pub type Mesh3D<V> = Mesh<V, 3, 1>;

/// A tetrahedron mesh; its skeleton is made of edges.
pub type Mesh4D<V> = Mesh<V, 4, 2>;

/// Every entry of every row is below `bound`.
pub open spec fn rows_below<const K: usize>(rows: Seq<[usize; K]>, bound: int) -> bool {
    forall|i: int, j: int| 0 <= i < rows.len() && 0 <= j < K ==> (#[trigger] rows[i]@[j]) < bound
}

/// `shifted` is `rows` with `offset` added to every entry.
pub open spec fn rows_shifted<const K: usize>(
    shifted: Seq<[usize; K]>,
    rows: Seq<[usize; K]>,
    offset: int,
) -> bool {
    &&& shifted.len() == rows.len()
    &&& forall|i: int, j: int|
        0 <= i < rows.len() && 0 <= j < K ==> (#[trigger] shifted[i]@[j]) == rows[i]@[j] + offset
}

/// `joined` is `head` followed by `tail` with `offset` added to every entry.
pub open spec fn rows_joined<const K: usize>(
    joined: Seq<[usize; K]>,
    head: Seq<[usize; K]>,
    tail: Seq<[usize; K]>,
    offset: int,
) -> bool {
    &&& joined.len() == head.len() + tail.len()
    &&& joined.subrange(0, head.len() as int) =~= head
    &&& rows_shifted(joined.subrange(head.len() as int, joined.len() as int), tail, offset)
}

/// Appends to `target` the rows of `rows`, each entry raised by `offset`.
fn extend_shifted<const K: usize>(target: &mut Vec<[usize; K]>, rows: &Vec<[usize; K]>, offset: usize, bound: usize)
    requires
        rows_below(rows@, bound as int),
        bound + offset <= usize::MAX,
    ensures
        rows_joined(final(target)@, old(target)@, rows@, offset as int),
{
    let mut i: usize = 0;
    assert(target@.subrange(target@.len() as int, target@.len() as int) =~= rows@.subrange(0, 0));
    while i < rows.len()
        invariant
            0 <= i <= rows@.len(),
            rows_below(rows@, bound as int),
            bound + offset <= usize::MAX,
            rows_joined(target@, old(target)@, rows@.subrange(0, i as int), offset as int),
        decreases rows@.len() - i,
    {
        let mut row: [usize; K] = rows[i];
        let mut j: usize = 0;
        while j < K
            invariant
                0 <= j <= K,
                0 <= i < rows@.len(),
                rows_below(rows@, bound as int),
                bound + offset <= usize::MAX,
                forall|t: int| 0 <= t < j ==> #[trigger] row@[t] == rows@[i as int]@[t] + offset,
                forall|t: int| j <= t < K ==> #[trigger] row@[t] == rows@[i as int]@[t],
            decreases K - j,
        {
            assert(rows@[i as int]@[j as int] < bound);
            row[j] = row[j] + offset;
            j += 1;
        }
        let ghost before = target@;
        target.push(row);
        proof {
            let head = old(target)@;
            assert(target@.subrange(0, head.len() as int) =~= before.subrange(0, head.len() as int));
            let now = target@.subrange(head.len() as int, target@.len() as int);
            let was = before.subrange(head.len() as int, before.len() as int);
            assert forall|a: int, b: int| 0 <= a < i + 1 && 0 <= b < K implies (#[trigger] now[a]@[b])
                == rows@.subrange(0, i + 1)[a]@[b] + offset by {
                if a < i {
                    assert(now[a] == was[a]);
                    assert(rows@.subrange(0, i + 1)[a] == rows@.subrange(0, i as int)[a]);
                }
            }
        }
        i += 1;
    }
    proof {
        assert(rows@.subrange(0, rows@.len() as int) =~= rows@);
    }
}

impl<V, const P: usize, const S: usize> Mesh<V, P, S> {
    /// Every index of the mesh points at one of its vertices.
    pub open spec fn wf(&self) -> bool {
        &&& rows_below(self.indeces@, self.vertices@.len() as int)
        &&& rows_below(self.skeleton_indeces@, self.vertices@.len() as int)
    }

    /// The mesh without vertices.
    pub fn empty() -> (mesh: Self)
        ensures
            mesh.vertices@.len() == 0,
            mesh.indeces@.len() == 0,
            mesh.skeleton_indeces@.len() == 0,
            mesh.wf(),
    {
        Mesh { vertices: Vec::new(), indeces: Vec::new(), skeleton_indeces: Vec::new() }
    }

    /// Appends `rhs`: its vertices follow those of `self`, and its indices are
    /// raised by the number of vertices that `self` had.
    pub fn add_assign(&mut self, rhs: Self)
        requires
            rhs.wf(),
        ensures
            final(self).vertices@ == old(self).vertices@ + rhs.vertices@,
            rows_joined(
                final(self).indeces@,
                old(self).indeces@,
                rhs.indeces@,
                old(self).vertices@.len() as int,
            ),
            rows_joined(
                final(self).skeleton_indeces@,
                old(self).skeleton_indeces@,
                rhs.skeleton_indeces@,
                old(self).vertices@.len() as int,
            ),
            old(self).wf() ==> final(self).wf(),
    {
        let index_ofset: usize = self.vertices.len();
        let mut rhs = rhs;
        let count: usize = rhs.vertices.len();
        self.vertices.append(&mut rhs.vertices);
        let total: usize = self.vertices.len();
        assert(index_ofset + count == total);
        extend_shifted(&mut self.indeces, &rhs.indeces, index_ofset, count);
        extend_shifted(&mut self.skeleton_indeces, &rhs.skeleton_indeces, index_ofset, count);
        proof {
            lemma_joined_below(self.indeces@, old(self).indeces@, rhs.indeces@, index_ofset as int, count as int);
            lemma_joined_below(self.skeleton_indeces@, old(self).skeleton_indeces@, rhs.skeleton_indeces@, index_ofset as int, count as int);
        }
    }

    /// The two meshes joined as by [`Mesh::add_assign`].
    pub fn add(self, rhs: Self) -> (sum: Self)
        requires
            rhs.wf(),
        ensures
            sum.vertices@ == self.vertices@ + rhs.vertices@,
            rows_joined(sum.indeces@, self.indeces@, rhs.indeces@, self.vertices@.len() as int),
            rows_joined(
                sum.skeleton_indeces@,
                self.skeleton_indeces@,
                rhs.skeleton_indeces@,
                self.vertices@.len() as int,
            ),
            self.wf() ==> sum.wf(),
    {
        let mut sum = self;
        sum.add_assign(rhs);
        sum
    }
}

/// Rows joined from rows below `offset` and shifted rows below `count` stay
/// below `offset + count`.
pub proof fn lemma_joined_below<const K: usize>(
    joined: Seq<[usize; K]>,
    head: Seq<[usize; K]>,
    tail: Seq<[usize; K]>,
    offset: int,
    count: int,
)
    requires
        rows_joined(joined, head, tail, offset),
        rows_below(tail, count),
        count >= 0,
    ensures
        rows_below(head, offset) ==> rows_below(joined, offset + count),
{
    if rows_below(head, offset) {
        assert forall|i: int, j: int| 0 <= i < joined.len() && 0 <= j < K implies (
        #[trigger] joined[i]@[j]) < offset + count by {
            if i < head.len() {
                assert(joined[i] == joined.subrange(0, head.len() as int)[i]);
                assert(head[i]@[j] < offset);
            } else {
                let t = joined.subrange(head.len() as int, joined.len() as int);
                assert(joined[i] == t[i - head.len()]);
                assert(t[i - head.len()]@[j] == tail[i - head.len()]@[j] + offset);
            }
        }
    }
}

/// `rows` holds exactly the index pairs `pairs`.
pub open spec fn rows_are_pairs(rows: Seq<[usize; 2]>, pairs: Seq<(usize, usize)>) -> bool {
    &&& rows.len() == pairs.len()
    &&& forall|i: int|
        0 <= i < rows.len() ==> ((#[trigger] rows[i])@[0], rows[i]@[1]) == pairs[i]
}

/// `rows` holds exactly the edges `edges`, each with its smaller index first.
pub open spec fn rows_are_edges(rows: Seq<[usize; 2]>, edges: Seq<EdgeIndeces>) -> bool {
    &&& rows.len() == edges.len()
    &&& forall|i: int|
        0 <= i < rows.len() ==> (#[trigger] rows[i])@[0] == edges[i].A && rows[i]@[1] == edges[i].B
}

/// The key under which an edge is remembered.
pub open spec fn key_of_edge(e: EdgeIndeces) -> u128 {
    e.key() as u128
}

broadcast use vstd::std_specs::hash::group_hash_axioms;

impl<V> Mesh<V, 3, 1> {
    /// The mesh with one skeleton point for every vertex, in vertex order.
    pub fn with_full_skeleton(self) -> (out: Self)
        ensures
            out.vertices@ == self.vertices@,
            out.indeces@ == self.indeces@,
            out.skeleton_indeces@.len() == self.vertices@.len(),
            forall|i: int|
                0 <= i < out.skeleton_indeces@.len() ==> (#[trigger] out.skeleton_indeces@[i])@[0]
                    == i,
            rows_below(self.indeces@, self.vertices@.len() as int) ==> out.wf(),
    {
        let mut out = self;
        let mut skeleton: Vec<[usize; 1]> = Vec::new();
        let mut i: usize = 0;
        while i < out.vertices.len()
            invariant
                0 <= i <= out.vertices@.len(),
                skeleton@.len() == i,
                forall|t: int| 0 <= t < i ==> (#[trigger] skeleton@[t])@[0] == t,
            decreases out.vertices@.len() - i,
        {
            skeleton.push([i]);
            i += 1;
        }
        out.skeleton_indeces = skeleton;
        out
    }

    /// Replaces the skeleton of `self` by the full skeleton of
    /// `skeleton_source`, whose vertices are appended to those of `self`.
    pub fn attach_skeleton(&mut self, skeleton_source: Self)
        ensures
            final(self).vertices@ == old(self).vertices@ + skeleton_source.vertices@,
            final(self).indeces@ == old(self).indeces@,
            final(self).skeleton_indeces@.len() == skeleton_source.vertices@.len(),
            forall|i: int|
                0 <= i < final(self).skeleton_indeces@.len() ==> (
                #[trigger] final(self).skeleton_indeces@[i])@[0] == old(self).vertices@.len() + i,
            rows_below(old(self).indeces@, old(self).vertices@.len() as int) ==> final(self).wf(),
    {
        let mut skeleton_source = skeleton_source.with_full_skeleton();
        skeleton_source.indeces.clear();
        self.skeleton_indeces.clear();
        let ghost mid = *self;
        self.add_assign(skeleton_source);
        proof {
            let offset = mid.vertices@.len() as int;
            let tail = self.skeleton_indeces@.subrange(0, self.skeleton_indeces@.len() as int);
            assert(tail =~= self.skeleton_indeces@);
            assert(self.indeces@.subrange(0, mid.indeces@.len() as int) =~= self.indeces@);
            assert forall|i: int| 0 <= i < self.skeleton_indeces@.len() implies (
            #[trigger] self.skeleton_indeces@[i])@[0] == offset + i by {
                assert(tail[i]@[0] == skeleton_source.skeleton_indeces@[i]@[0] + offset);
            }
        }
    }
}

/// Every edge of tetrahedra whose indices are below `bound` ends below `bound`.
pub proof fn lemma_tetrahedron_edges_below(tetrahedra: Seq<[usize; 4]>, bound: int)
    requires
        rows_below(tetrahedra, bound),
    ensures
        forall|i: int|
            0 <= i < all_edges_of_tetrahedra(tetrahedra).len() ==> (
            #[trigger] all_edges_of_tetrahedra(tetrahedra)[i]).A < bound && all_edges_of_tetrahedra(
                tetrahedra,
            )[i].B < bound,
    decreases tetrahedra.len(),
{
    if tetrahedra.len() > 0 {
        let head = tetrahedra.drop_last();
        let t = tetrahedra.last();
        assert forall|i: int, j: int| 0 <= i < head.len() && 0 <= j < 4 implies (
        #[trigger] head[i]@[j]) < bound by {
            assert(tetrahedra[i]@[j] < bound);
        }
        lemma_tetrahedron_edges_below(head, bound);
        assert(t == tetrahedra[tetrahedra.len() - 1]);
        assert(t@[0] < bound && t@[1] < bound && t@[2] < bound && t@[3] < bound);
        let before = all_edges_of_tetrahedra(head);
        let all = all_edges_of_tetrahedra(tetrahedra);
        assert forall|i: int| 0 <= i < all.len() implies (#[trigger] all[i]).A < bound && all[i].B
            < bound by {
            if i < before.len() {
                assert(all[i] == before[i]);
            } else {
                assert(all[i] == edges_of_tetrahedron(t)[i - before.len()]);
            }
        }
    }
}

impl<V> Mesh<V, 4, 2> {
    /// The mesh with one skeleton edge for every edge of its tetrahedra, in
    /// the order in which the edges first occur. An edge is the same edge
    /// whichever of its ends a tetrahedron names first; it is listed once,
    /// smaller index first.
    pub fn with_full_skeleton(self) -> (out: Self)
        ensures
            out.vertices@ == self.vertices@,
            out.indeces@ == self.indeces@,
            rows_are_edges(
                out.skeleton_indeces@,
                first_occurrences(all_edges_of_tetrahedra(self.indeces@)),
            ),
            rows_below(self.indeces@, self.vertices@.len() as int) ==> out.wf(),
    {
        let mut out = self;
        let mut seen: HashSet<u128> = HashSet::new();
        let mut skeleton: Vec<[usize; 2]> = Vec::new();
        let ghost mut flat: Seq<EdgeIndeces> = Seq::empty();
        let mut t: usize = 0;
        while t < out.indeces.len()
            invariant
                0 <= t <= out.indeces@.len(),
                out.vertices@ == self.vertices@,
                out.indeces@ == self.indeces@,
                flat == all_edges_of_tetrahedra(out.indeces@.subrange(0, t as int)),
                rows_are_edges(skeleton@, first_occurrences(flat)),
                forall|e: EdgeIndeces|
                    seen@.contains(#[trigger] key_of_edge(e)) <==> first_occurrences(flat).contains(e),
            decreases out.indeces@.len() - t,
        {
            let primitive: [usize; 4] = out.indeces[t];
            let pairs: Vec<[usize; 2]> = combinations_constsize::<2, usize>(primitive.as_slice());
            let ghost start = flat;
            let ghost edges = edges_of_tetrahedron(primitive);
            proof {
                lemma_pairs_of_four();
                assert(pairs@.len() == 6);
            }
            let mut p: usize = 0;
            while p < pairs.len()
                invariant
                    0 <= p <= 6,
                    pairs@.len() == 6,
                    edges == edges_of_tetrahedron(primitive),
                    forall|i: int|
                        0 <= i < 6 ==> EdgeIndeces::spec_new(
                            (#[trigger] pairs@[i])@[0],
                            pairs@[i]@[1],
                        ) == edges[i],
                    flat == start + edges.subrange(0, p as int),
                    rows_are_edges(skeleton@, first_occurrences(flat)),
                    forall|e: EdgeIndeces|
                        seen@.contains(#[trigger] key_of_edge(e)) <==> first_occurrences(
                            flat,
                        ).contains(e),
                decreases 6 - p,
            {
                let edge = EdgeIndeces::from_array(pairs[p]);
                let key: u128 = edge.key_exec();
                let ghost old_first = first_occurrences(flat);
                let ghost old_skeleton = skeleton@;
                let fresh = seen.insert(key);
                proof {
                    assert(edge == edges[p as int]);
                    assert(flat.push(edge).drop_last() =~= flat);
                    assert(flat.push(edge).last() == edge);
                    assert(flat.push(edge) =~= start + edges.subrange(0, p + 1));
                    assert(key == key_of_edge(edge));
                    assert(fresh == !old_first.contains(edge));
                }
                if fresh {
                    skeleton.push(edge.to_array());
                }
                proof {
                    flat = flat.push(edge);
                    let new_first = first_occurrences(flat);
                    assert forall|e: EdgeIndeces|
                        seen@.contains(#[trigger] key_of_edge(e)) <==> new_first.contains(e) by {
                        if key_of_edge(e) == key_of_edge(edge) {
                            lemma_edge_key_injective(e, edge);
                        }
                        if fresh {
                            if old_first.contains(e) {
                                let j = choose|j: int| 0 <= j < old_first.len() && old_first[j] == e;
                                assert(new_first[j] == e);
                            }
                            if new_first.contains(e) {
                                let j = choose|j: int| 0 <= j < new_first.len() && new_first[j] == e;
                                if j < old_first.len() {
                                    assert(old_first[j] == e);
                                }
                            }
                            assert(new_first[old_first.len() as int] == edge);
                        }
                    }
                    assert forall|i: int| 0 <= i < skeleton@.len() implies (
                    #[trigger] skeleton@[i])@[0] == new_first[i].A && skeleton@[i]@[1]
                        == new_first[i].B by {
                        if i < old_skeleton.len() {
                            assert(skeleton@[i] == old_skeleton[i]);
                        }
                    }
                }
                p += 1;
            }
            proof {
                assert(edges.subrange(0, 6) =~= edges);
                let next = out.indeces@.subrange(0, t + 1);
                assert(next.drop_last() =~= out.indeces@.subrange(0, t as int));
                assert(next.last() == primitive);
            }
            t += 1;
        }
        proof {
            assert(out.indeces@.subrange(0, t as int) =~= out.indeces@);
            if rows_below(self.indeces@, self.vertices@.len() as int) {
                lemma_tetrahedron_edges_below(self.indeces@, self.vertices@.len() as int);
                lemma_first_occurrences(flat);
                let first = first_occurrences(flat);
                assert forall|i: int, j: int| 0 <= i < skeleton@.len() && 0 <= j < 2 implies (
                #[trigger] skeleton@[i]@[j]) < self.vertices@.len() by {
                    assert(skeleton@[i]@[0] == first[i].A && skeleton@[i]@[1] == first[i].B);
                    assert(first.contains(first[i]));
                    assert(flat.contains(first[i]));
                    let k = choose|k: int| 0 <= k < flat.len() && flat[k] == first[i];
                    assert(flat[k].A < self.vertices@.len());
                }
            }
        }
        out.skeleton_indeces = skeleton;
        out
    }

    /// Replaces the skeleton of `self` by the full skeleton of
    /// `skeleton_source`, whose vertices are appended to those of `self`.
    pub fn attach_skeleton(&mut self, skeleton_source: Self)
        requires
            rows_below(skeleton_source.indeces@, skeleton_source.vertices@.len() as int),
        ensures
            final(self).vertices@ == old(self).vertices@ + skeleton_source.vertices@,
            final(self).indeces@ == old(self).indeces@,
            exists|skeleton: Seq<[usize; 2]>|
                rows_are_edges(
                    skeleton,
                    first_occurrences(all_edges_of_tetrahedra(skeleton_source.indeces@)),
                ) && #[trigger] rows_shifted(
                    final(self).skeleton_indeces@,
                    skeleton,
                    old(self).vertices@.len() as int,
                ),
            rows_below(old(self).indeces@, old(self).vertices@.len() as int) ==> final(self).wf(),
    {
        let mut skeleton_source = skeleton_source.with_full_skeleton();
        let ghost skeleton = skeleton_source.skeleton_indeces@;
        skeleton_source.indeces.clear();
        self.skeleton_indeces.clear();
        let ghost mid = *self;
        self.add_assign(skeleton_source);
        proof {
            let offset = mid.vertices@.len() as int;
            let tail = self.skeleton_indeces@.subrange(0, self.skeleton_indeces@.len() as int);
            assert(tail =~= self.skeleton_indeces@);
            assert(self.indeces@.subrange(0, mid.indeces@.len() as int) =~= self.indeces@);
            assert(rows_shifted(self.skeleton_indeces@, skeleton, offset));
        }
    }
}

/// `sum` is `head` with `tail` appended as by [`Mesh::add_assign`].
pub open spec fn is_joined<V, const P: usize, const S: usize>(
    sum: Mesh<V, P, S>,
    head: Mesh<V, P, S>,
    tail: Mesh<V, P, S>,
) -> bool {
    &&& sum.vertices@ == head.vertices@ + tail.vertices@
    &&& rows_joined(sum.indeces@, head.indeces@, tail.indeces@, head.vertices@.len() as int)
    &&& rows_joined(
        sum.skeleton_indeces@,
        head.skeleton_indeces@,
        tail.skeleton_indeces@,
        head.vertices@.len() as int,
    )
}

/// `sum` is the meshes appended one after another, starting from the mesh
/// without vertices.
pub open spec fn is_sum_of<V, const P: usize, const S: usize>(
    sum: Mesh<V, P, S>,
    meshes: Seq<Mesh<V, P, S>>,
) -> bool
    decreases meshes.len(),
{
    if meshes.len() == 0 {
        sum.vertices@.len() == 0 && sum.indeces@.len() == 0 && sum.skeleton_indeces@.len() == 0
    } else {
        exists|before: Mesh<V, P, S>|
            is_sum_of(before, meshes.drop_last()) && #[trigger] is_joined(
                sum,
                before,
                meshes.last(),
            )
    }
}

/// `after` holds, vertex by vertex, what `transformation` makes of `before`.
pub open spec fn vertices_transformed<V, T: Fn(V) -> V>(
    transformation: T,
    before: Seq<V>,
    after: Seq<V>,
) -> bool {
    &&& after.len() == before.len()
    &&& forall|i: int|
        0 <= i < before.len() ==> call_ensures(transformation, (before[i],), #[trigger] after[i])
}

impl<V: Copy, const P: usize, const S: usize> Mesh<V, P, S> {
    /// A mesh with the same vertices and indices.
    pub fn duplicate(&self) -> (copy: Self)
        ensures
            copy.vertices@ == self.vertices@,
            copy.indeces@ == self.indeces@,
            copy.skeleton_indeces@ == self.skeleton_indeces@,
    {
        let mut vertices: Vec<V> = Vec::new();
        let mut i: usize = 0;
        while i < self.vertices.len()
            invariant
                0 <= i <= self.vertices@.len(),
                vertices@ == self.vertices@.subrange(0, i as int),
            decreases self.vertices@.len() - i,
        {
            vertices.push(self.vertices[i]);
            assert(vertices@ =~= self.vertices@.subrange(0, i + 1));
            i += 1;
        }
        let mut indeces: Vec<[usize; P]> = Vec::new();
        let mut j: usize = 0;
        while j < self.indeces.len()
            invariant
                0 <= j <= self.indeces@.len(),
                indeces@ == self.indeces@.subrange(0, j as int),
            decreases self.indeces@.len() - j,
        {
            indeces.push(self.indeces[j]);
            assert(indeces@ =~= self.indeces@.subrange(0, j + 1));
            j += 1;
        }
        let mut skeleton_indeces: Vec<[usize; S]> = Vec::new();
        let mut k: usize = 0;
        while k < self.skeleton_indeces.len()
            invariant
                0 <= k <= self.skeleton_indeces@.len(),
                skeleton_indeces@ == self.skeleton_indeces@.subrange(0, k as int),
            decreases self.skeleton_indeces@.len() - k,
        {
            skeleton_indeces.push(self.skeleton_indeces[k]);
            assert(skeleton_indeces@ =~= self.skeleton_indeces@.subrange(0, k + 1));
            k += 1;
        }
        proof {
            assert(self.vertices@.subrange(0, self.vertices@.len() as int) =~= self.vertices@);
            assert(self.indeces@.subrange(0, self.indeces@.len() as int) =~= self.indeces@);
            assert(self.skeleton_indeces@.subrange(0, self.skeleton_indeces@.len() as int)
                =~= self.skeleton_indeces@);
        }
        Mesh { vertices, indeces, skeleton_indeces }
    }

    /// The meshes appended one after another.
    pub fn sum(meshes: &Vec<Self>) -> (total: Self)
        requires
            forall|i: int| 0 <= i < meshes@.len() ==> (#[trigger] meshes@[i]).wf(),
        ensures
            is_sum_of(total, meshes@),
            total.wf(),
    {
        let mut total = Self::empty();
        let mut i: usize = 0;
        proof {
            assert(meshes@.subrange(0, 0) =~= Seq::<Self>::empty());
        }
        while i < meshes.len()
            invariant
                0 <= i <= meshes@.len(),
                forall|k: int| 0 <= k < meshes@.len() ==> (#[trigger] meshes@[k]).wf(),
                is_sum_of(total, meshes@.subrange(0, i as int)),
                total.wf(),
            decreases meshes@.len() - i,
        {
            let ghost before = total;
            let next = meshes[i].duplicate();
            proof {
                assert(meshes@[i as int].wf());
                assert(next.wf());
            }
            total.add_assign(next);
            proof {
                let part = meshes@.subrange(0, i + 1);
                assert(part.drop_last() =~= meshes@.subrange(0, i as int));
                assert(part.last() == meshes@[i as int]);
                assert(is_joined(total, before, part.last()));
            }
            i += 1;
        }
        proof {
            assert(meshes@.subrange(0, meshes@.len() as int) =~= meshes@);
        }
        total
    }

    /// Replaces every vertex by what `transformation` makes of it.
    pub fn transform<T: Fn(V) -> V>(&mut self, transformation: &T)
        requires
            forall|i: int|
                0 <= i < old(self).vertices@.len() ==> call_requires(
                    *transformation,
                    (#[trigger] old(self).vertices@[i],),
                ),
        ensures
            vertices_transformed(*transformation, old(self).vertices@, final(self).vertices@),
            final(self).indeces@ == old(self).indeces@,
            final(self).skeleton_indeces@ == old(self).skeleton_indeces@,
    {
        let mut vertices: Vec<V> = Vec::new();
        let mut i: usize = 0;
        while i < self.vertices.len()
            invariant
                0 <= i <= self.vertices@.len(),
                *self == *old(self),
                forall|k: int|
                    0 <= k < self.vertices@.len() ==> call_requires(
                        *transformation,
                        (#[trigger] self.vertices@[k],),
                    ),
                vertices@.len() == i,
                forall|k: int|
                    0 <= k < i ==> call_ensures(
                        *transformation,
                        (self.vertices@[k],),
                        #[trigger] vertices@[k],
                    ),
            decreases self.vertices@.len() - i,
        {
            let vertex = transformation(self.vertices[i]);
            vertices.push(vertex);
            i += 1;
        }
        self.vertices = vertices;
    }

    /// The mesh with every vertex replaced by what `transformation` makes of it.
    pub fn as_transformed<T: Fn(V) -> V>(self, transformation: &T) -> (out: Self)
        requires
            forall|i: int|
                0 <= i < self.vertices@.len() ==> call_requires(
                    *transformation,
                    (#[trigger] self.vertices@[i],),
                ),
        ensures
            vertices_transformed(*transformation, self.vertices@, out.vertices@),
            out.indeces@ == self.indeces@,
            out.skeleton_indeces@ == self.skeleton_indeces@,
    {
        let mut out = self;
        out.transform(transformation);
        out
    }
}

/// Position `i` is the last one at which `keys` holds the key that stands there.
pub open spec fn is_last_with_key(keys: Seq<u128>, i: int) -> bool {
    0 <= i < keys.len() && forall|j: int| i < j < keys.len() ==> keys[j] != keys[i]
}

/// `row` is the last of `rows` whose key is `key`.
pub open spec fn is_last_row_with_key<const S: usize>(
    rows: Seq<[usize; S]>,
    keys: Seq<u128>,
    key: u128,
    row: [usize; S],
) -> bool {
    exists|i: int| #[trigger] is_last_with_key(keys, i) && keys[i] == key && row == rows[i]
}

/// Of the rows that share a key, keeps the last one; the rows kept come in
/// the order in which their keys first occur.
pub fn keep_last_per_key<const S: usize>(rows: &Vec<[usize; S]>, keys: &Vec<u128>) -> (kept: Vec<
    [usize; S],
>)
    requires
        rows@.len() == keys@.len(),
    ensures
        kept@.len() == first_occurrences(keys@).len(),
        forall|k: int|
            0 <= k < kept@.len() ==> is_last_row_with_key(
                rows@,
                keys@,
                first_occurrences(keys@)[k],
                #[trigger] kept@[k],
            ),
{
    let mut kept: Vec<[usize; S]> = Vec::new();
    let mut place_of_key: HashMap<u128, usize> = HashMap::new();
    let ghost mut last_at: Seq<int> = Seq::empty();
    let mut i: usize = 0;
    proof {
        assert(keys@.subrange(0, 0) =~= Seq::<u128>::empty());
    }
    while i < rows.len()
        invariant
            0 <= i <= rows@.len(),
            rows@.len() == keys@.len(),
            kept@.len() == first_occurrences(keys@.subrange(0, i as int)).len(),
            last_at.len() == kept@.len(),
            forall|key: u128|
                place_of_key@.contains_key(key) <==> first_occurrences(
                    keys@.subrange(0, i as int),
                ).contains(key),
            forall|k: int|
                0 <= k < kept@.len() ==> place_of_key@[#[trigger] first_occurrences(
                    keys@.subrange(0, i as int),
                )[k]] == k,
            forall|k: int|
                0 <= k < kept@.len() ==> {
                    &&& 0 <= #[trigger] last_at[k] < i
                    &&& keys@[last_at[k]] == first_occurrences(keys@.subrange(0, i as int))[k]
                    &&& kept@[k] == rows@[last_at[k]]
                    &&& forall|j: int|
                        last_at[k] < j < i ==> keys@[j] != first_occurrences(
                            keys@.subrange(0, i as int),
                        )[k]
                },
        decreases rows@.len() - i,
    {
        let key = keys[i];
        let row = rows[i];
        let ghost firsts = first_occurrences(keys@.subrange(0, i as int));
        let ghost kept_before = kept@;
        let ghost last_before = last_at;
        proof {
            let next = keys@.subrange(0, i + 1);
            assert(next.drop_last() =~= keys@.subrange(0, i as int));
            assert(next.last() == key);
            lemma_first_occurrences(keys@.subrange(0, i as int));
        }
        let known = place_of_key.get(&key);
        match known {
            Some(place) => {
                let place: usize = *place;
                proof {
                    let k = choose|k: int| 0 <= k < firsts.len() && firsts[k] == key;
                    assert(place_of_key@[firsts[k]] == k);
                }
                kept.set(place, row);
                proof {
                    last_at = last_at.update(place as int, i as int);
                    assert forall|k: int| 0 <= k < kept@.len() implies {
                        &&& 0 <= #[trigger] last_at[k] < i + 1
                        &&& keys@[last_at[k]] == firsts[k]
                        &&& kept@[k] == rows@[last_at[k]]
                        &&& forall|j: int| last_at[k] < j < i + 1 ==> keys@[j] != firsts[k]
                    } by {
                        if k != place {
                            assert(last_at[k] == last_before[k]);
                            assert(kept@[k] == kept_before[k]);
                            assert(firsts[k] != firsts[place as int]);
                        }
                    }
                }
            },
            None => {
                kept.push(row);
                place_of_key.insert(key, kept.len() - 1);
                proof {
                    last_at = last_at.push(i as int);
                    let now = firsts.push(key);
                    assert forall|other: u128|
                        place_of_key@.contains_key(other) <==> now.contains(other) by {
                        if firsts.contains(other) {
                            let k = choose|k: int| 0 <= k < firsts.len() && firsts[k] == other;
                            assert(now[k] == other);
                        }
                        if now.contains(other) {
                            let k = choose|k: int| 0 <= k < now.len() && now[k] == other;
                            if k < firsts.len() {
                                assert(firsts[k] == other);
                            }
                        }
                        assert(now[firsts.len() as int] == key);
                    }
                    assert forall|k: int| 0 <= k < kept@.len() implies place_of_key@[#[trigger] now[k]]
                        == k by {
                        if k < firsts.len() {
                            assert(now[k] == firsts[k]);
                            assert(firsts.contains(firsts[k]));
                        }
                    }
                    assert forall|k: int| 0 <= k < kept@.len() implies {
                        &&& 0 <= #[trigger] last_at[k] < i + 1
                        &&& keys@[last_at[k]] == now[k]
                        &&& kept@[k] == rows@[last_at[k]]
                        &&& forall|j: int| last_at[k] < j < i + 1 ==> keys@[j] != now[k]
                    } by {
                        if k < firsts.len() {
                            assert(last_at[k] == last_before[k]);
                            assert(kept@[k] == kept_before[k]);
                            assert(now[k] == firsts[k]);
                            assert(firsts.contains(firsts[k]));
                        }
                    }
                }
            },
        }
        i += 1;
    }
    proof {
        assert(keys@.subrange(0, keys@.len() as int) =~= keys@);
        let firsts = first_occurrences(keys@);
        assert forall|k: int| 0 <= k < kept@.len() implies is_last_row_with_key(
            rows@,
            keys@,
            firsts[k],
            #[trigger] kept@[k],
        ) by {
            assert(is_last_with_key(keys@, last_at[k]));
        }
    }
    kept
}

} // verus!
