//! Pairs of neighbouring lattice points between which the field changes
//! sign, and the fixed neighbourhood that the surface search looks at around
//! such a pair.
use vstd::prelude::*;
use crate::combinations::{
    combinations_constsize, combinations_of, is_combination, lemma_pairs_complete,
    lemma_subsets_shape,
};
use crate::dedup::{
    first_occurrences, lemma_filter_of_distinct, lemma_first_occurrences,
    lemma_first_occurrences_map, unique_rows,
};
use crate::lattice::{IVec3, IVec4};

verus! {

/// Two lattice points one step apart along `axis_index`, `A` being the one
/// with the smaller coordinate along that axis.
#[derive(Clone, Copy, Debug, PartialEq, Eq, Structural, Hash)]
pub struct BorderPair3D {
    pub A: IVec3,
    pub B: IVec3,
    pub axis_index: usize,
}

impl BorderPair3D {
    /// `B` is `A` moved one step up along `axis_index`.
    pub open spec fn wf(self) -> bool {
        &&& self.axis_index < 3
        &&& self.A.coord(self.axis_index as int) < i32::MAX
        &&& self.B == self.A.spec_with(
            self.axis_index as int,
            (self.A.coord(self.axis_index as int) + 1) as i32,
        )
    }

    /// The pair made of two points one step apart, ordered along the axis on
    /// which they differ.
    pub open spec fn spec_new(a: IVec3, b: IVec3) -> BorderPair3D {
        let axis: usize = if a.x != b.x {
            0
        } else if a.y != b.y {
            1
        } else {
            2
        };
        if a.coord(axis as int) > b.coord(axis as int) {
            BorderPair3D { A: b, B: a, axis_index: axis }
        } else {
            BorderPair3D { A: a, B: b, axis_index: axis }
        }
    }

    /// The pair made of two points one step apart.
    pub fn new(A: IVec3, B: IVec3) -> (pair: BorderPair3D)
        requires
            A.manhattan_distance(B) == 1,
        ensures
            pair == Self::spec_new(A, B),
            pair.wf(),
    {
        let axis_index: usize = if A.x != B.x {
            0
        } else if A.y != B.y {
            1
        } else {
            2
        };
        if A.get(axis_index) > B.get(axis_index) {
            BorderPair3D { A: B, B: A, axis_index }
        } else {
            BorderPair3D { A, B, axis_index }
        }
    }

    /// The pair moved by `base`.
    pub open spec fn moved_by(self, base: IVec3) -> BorderPair3D {
        BorderPair3D {
            A: self.A.spec_plus(base),
            B: self.B.spec_plus(base),
            axis_index: self.axis_index,
        }
    }

    /// The pair as a tuple of integers: the coordinates of `A`, a zero, and the axis.
    pub open spec fn row(self) -> (i32, i32, i32, i32, i32) {
        (self.A.x, self.A.y, self.A.z, 0i32, self.axis_index as i32)
    }

    /// The two points as an array, `A` first.
    pub fn to_array(self) -> (out: [IVec3; 2])
        ensures
            out@[0] == self.A,
            out@[1] == self.B,
    {
        [self.A, self.B]
    }
}

/// Whether `p` lies in the block of offsets around a pair along `axis`: zero
/// or one along the axis, between minus one and one along the others.
pub open spec fn in_box3(p: IVec3, axis: int) -> bool {
    let q = p.axis_swapped(axis);
    -1 <= q.x <= 1 && -1 <= q.y <= 1 && 0 <= q.z <= 1
}

/// Offset number `k` of the block around a pair along `axis`.
pub open spec fn box_point3(k: int, axis: int) -> IVec3 {
    (IVec3 { x: (k / 6 - 1) as i32, y: ((k / 2) % 3 - 1) as i32, z: (k % 2) as i32 }).axis_swapped(
        axis,
    )
}

/// The eighteen offsets of the block around a pair along `axis`.
pub open spec fn box_points3(axis: int) -> Seq<IVec3> {
    Seq::new(18, |k: int| box_point3(k, axis))
}

/// The pair from the origin to the unit step along `axis`.
pub open spec fn parent_pair3(axis: int) -> BorderPair3D {
    BorderPair3D { A: IVec3::ZERO(), B: IVec3::unit(axis), axis_index: axis as usize }
}

/// Holds of every point but the two points of the pair along `axis` at the origin.
pub open spec fn off_parent3(axis: int) -> spec_fn(IVec3) -> bool {
    |p: IVec3| p != IVec3::ZERO() && p != IVec3::unit(axis)
}

/// Holds of two points one step apart.
pub open spec fn one_step_apart3() -> spec_fn((IVec3, IVec3)) -> bool {
    |pr: (IVec3, IVec3)| pr.0.manhattan_distance(pr.1) == 1
}

/// Makes the border pair of two points.
pub open spec fn pair_maker3() -> spec_fn((IVec3, IVec3)) -> BorderPair3D {
    |pr: (IVec3, IVec3)| BorderPair3D::spec_new(pr.0, pr.1)
}

/// Holds of every pair but the pair along `axis` at the origin.
pub open spec fn not_parent3(axis: int) -> spec_fn(BorderPair3D) -> bool {
    |bp: BorderPair3D| bp != parent_pair3(axis)
}

/// Writes a pair as its tuple of integers.
pub open spec fn row_maker3() -> spec_fn(BorderPair3D) -> (i32, i32, i32, i32, i32) {
    |bp: BorderPair3D| bp.row()
}

/// The offsets of the block other than the two points of the pair itself.
pub open spec fn neighbor_points3(axis: int) -> Seq<IVec3> {
    box_points3(axis).filter(off_parent3(axis))
}

/// The pairs of offsets of the block, in the order of `combinations_of(18, 2)`.
pub open spec fn box_point_pairs3(axis: int) -> Seq<(IVec3, IVec3)> {
    Seq::new(
        combinations_of(18, 2).len(),
        |q: int|
            (
                box_points3(axis)[combinations_of(18, 2)[q][0]],
                box_points3(axis)[combinations_of(18, 2)[q][1]],
            ),
    )
}

/// The pairs of offsets one step apart, as border pairs.
pub open spec fn adjacent_box_pairs3(axis: int) -> Seq<BorderPair3D> {
    box_point_pairs3(axis).filter(one_step_apart3()).map_values(pair_maker3())
}

/// The pairs, relative to the lower point of a pair along `axis`, that the
/// surface search tests next: every pair of the block but the pair itself.
pub open spec fn neighbor_pairs3(axis: int) -> Seq<BorderPair3D> {
    first_occurrences(adjacent_box_pairs3(axis)).filter(not_parent3(axis))
}

/// The border pair of two distinct points one step apart is well formed and
/// made of those two points.
pub proof fn lemma_new_pair3(a: IVec3, b: IVec3)
    requires
        a.manhattan_distance(b) == 1,
    ensures
        BorderPair3D::spec_new(a, b).wf(),
        BorderPair3D::spec_new(a, b) == BorderPair3D::spec_new(b, a),
        (BorderPair3D::spec_new(a, b).A == a && BorderPair3D::spec_new(a, b).B == b) || (
        BorderPair3D::spec_new(a, b).A == b && BorderPair3D::spec_new(a, b).B == a),
{
}

/// The block of offsets around a pair along `axis`, computed.
fn box_points_exec3(axis: usize) -> (points: Vec<IVec3>)
    requires
        axis < 3,
    ensures
        points@ == box_points3(axis as int),
        forall|k: int| 0 <= k < 18 ==> in_box3(#[trigger] points@[k], axis as int),
{
    let mut points: Vec<IVec3> = Vec::new();
    let mut x: i32 = -1;
    while x <= 1
        invariant
            -1 <= x <= 2,
            axis < 3,
            points@ =~= box_points3(axis as int).subrange(0, (x + 1) * 6),
        decreases 2 - x,
    {
        let mut y: i32 = -1;
        while y <= 1
            invariant
                -1 <= x <= 1,
                -1 <= y <= 2,
                axis < 3,
                points@ =~= box_points3(axis as int).subrange(0, (x + 1) * 6 + (y + 1) * 2),
            decreases 2 - y,
        {
            let mut z: i32 = 0;
            while z <= 1
                invariant
                    -1 <= x <= 1,
                    -1 <= y <= 1,
                    0 <= z <= 2,
                    axis < 3,
                    points@ =~= box_points3(axis as int).subrange(
                        0,
                        (x + 1) * 6 + (y + 1) * 2 + z,
                    ),
                decreases 2 - z,
            {
                let p = IVec3::new(x, y, z).swap_axis(axis);
                proof {
                    let k = (x + 1) * 6 + (y + 1) * 2 + z;
                    assert(box_point3(k, axis as int) == p);
                }
                points.push(p);
                z += 1;
            }
            y += 1;
        }
        x += 1;
    }
    proof {
        assert(box_points3(axis as int).subrange(0, 18) =~= box_points3(axis as int));
        assert forall|k: int| 0 <= k < 18 implies in_box3(#[trigger] points@[k], axis as int) by {
            assert(points@[k] == box_point3(k, axis as int));
        }
    }
    points
}

/// Every pair of `pairs` is well formed with both points in the block along `axis`.
pub open spec fn pairs_in_box3(pairs: Seq<BorderPair3D>, axis: int) -> bool {
    forall|t: int|
        0 <= t < pairs.len() ==> (#[trigger] pairs[t]).wf() && in_box3(pairs[t].A, axis) && in_box3(
            pairs[t].B,
            axis,
        )
}

/// The pairs of block offsets one step apart.
fn adjacent_pairs3(points: &Vec<IVec3>, axis: usize) -> (found: Vec<BorderPair3D>)
    requires
        axis < 3,
        points@ == box_points3(axis as int),
        forall|k: int| 0 <= k < 18 ==> in_box3(#[trigger] points@[k], axis as int),
    ensures
        found@ == adjacent_box_pairs3(axis as int),
        pairs_in_box3(found@, axis as int),
{
    let pairs: Vec<[IVec3; 2]> = combinations_constsize::<2, IVec3>(points.as_slice());
    let ghost all = box_point_pairs3(axis as int);
    let ghost combos = combinations_of(18, 2);
    proof {
        lemma_subsets_shape(18, 2);
        assert(pairs@.len() == all.len());
        assert forall|q: int| 0 <= q < all.len() implies (#[trigger] pairs@[q])@[0] == all[q].0
            && pairs@[q]@[1] == all[q].1 && in_box3(all[q].0, axis as int) && in_box3(
            all[q].1,
            axis as int,
        ) by {
            assert(is_combination(combos[q], 18, 2));
            assert(0 <= combos[q][0] < 18 && 0 <= combos[q][1] < 18);
            assert(pairs@[q]@[0] == points@[combos[q][0]]);
            assert(pairs@[q]@[1] == points@[combos[q][1]]);
        }
    }
    let mut found: Vec<BorderPair3D> = Vec::new();
    let ghost mut cands: Seq<BorderPair3D> = Seq::empty();
    let mut i: usize = 0;
    proof {
        reveal(Seq::filter);
        assert(all.subrange(0, 0) =~= Seq::<(IVec3, IVec3)>::empty());
        assert(all.subrange(0, 0).filter(one_step_apart3()).map_values(pair_maker3()) =~= cands);
    }
    while i < pairs.len()
        invariant
            0 <= i <= pairs@.len(),
            axis < 3,
            pairs@.len() == all.len(),
            all == box_point_pairs3(axis as int),
            forall|q: int|
                0 <= q < all.len() ==> (#[trigger] pairs@[q])@[0] == all[q].0 && pairs@[q]@[1]
                    == all[q].1 && in_box3(all[q].0, axis as int) && in_box3(all[q].1, axis as int),
            cands == all.subrange(0, i as int).filter(one_step_apart3()).map_values(pair_maker3()),
            found@ == cands,
            pairs_in_box3(cands, axis as int),
        decreases pairs@.len() - i,
    {
        let pair: [IVec3; 2] = pairs[i];
        let a: IVec3 = pair[0];
        let b: IVec3 = pair[1];
        proof {
            assert(pairs@[i as int]@[0] == all[i as int].0);
            assert(all.subrange(0, i + 1) =~= all.subrange(0, i as int).push(all[i as int]));
            all.subrange(0, i as int).lemma_filter_push(all[i as int], one_step_apart3());
        }
        if a.manhattan_distance_exec(b) == 1 {
            let bp = BorderPair3D::new(a, b);
            proof {
                lemma_new_pair3(a, b);
                let kept = all.subrange(0, i as int).filter(one_step_apart3());
                assert(kept.push(all[i as int]).map_values(pair_maker3()) =~= cands.push(bp));
                cands = cands.push(bp);
            }
            found.push(bp);
        }
        i += 1;
    }
    proof {
        assert(all.subrange(0, all.len() as int) =~= all);
    }
    found
}

/// Two well-formed pairs written as the same tuple are the same pair.
pub proof fn lemma_row_injective3(a: BorderPair3D, b: BorderPair3D)
    requires
        a.wf(),
        b.wf(),
        a.row() == b.row(),
    ensures
        a == b,
{
}

/// The pairs in their order, each only where it stands first.
pub fn unique_border_pairs_3D(pairs: Vec<BorderPair3D>) -> (unique: Vec<BorderPair3D>)
    requires
        forall|i: int| 0 <= i < pairs@.len() ==> (#[trigger] pairs@[i]).wf(),
    ensures
        unique@ == first_occurrences(pairs@),
{
    let mut rows: Vec<(i32, i32, i32, i32, i32)> = Vec::new();
    let mut i: usize = 0;
    while i < pairs.len()
        invariant
            0 <= i <= pairs@.len(),
            forall|k: int| 0 <= k < pairs@.len() ==> (#[trigger] pairs@[k]).wf(),
            rows@ =~= pairs@.subrange(0, i as int).map_values(row_maker3()),
        decreases pairs@.len() - i,
    {
        let pair = pairs[i];
        assert(pairs@[i as int].wf());
        rows.push((pair.A.x, pair.A.y, pair.A.z, 0i32, pair.axis_index as i32));
        i += 1;
    }
    let unique_rows = unique_rows(rows);
    let ghost first = first_occurrences(pairs@);
    proof {
        assert(pairs@.subrange(0, pairs@.len() as int) =~= pairs@);
        assert forall|i: int, j: int|
            0 <= i < pairs@.len() && 0 <= j < pairs@.len() && row_maker3()(pairs@[i])
                == row_maker3()(pairs@[j]) implies pairs@[i] == pairs@[j] by {
            lemma_row_injective3(pairs@[i], pairs@[j]);
        }
        lemma_first_occurrences_map(pairs@, row_maker3());
        lemma_first_occurrences(pairs@);
        assert forall|t: int| 0 <= t < first.len() implies (#[trigger] first[t]).wf() by {
            assert(first.contains(first[t]));
            assert(pairs@.contains(first[t]));
            let j = choose|j: int| 0 <= j < pairs@.len() && pairs@[j] == first[t];
            assert(pairs@[j].wf());
        }
    }
    let mut unique: Vec<BorderPair3D> = Vec::new();
    let mut t: usize = 0;
    while t < unique_rows.len()
        invariant
            0 <= t <= unique_rows@.len(),
            unique_rows@ == first.map_values(row_maker3()),
            forall|k: int| 0 <= k < first.len() ==> (#[trigger] first[k]).wf(),
            unique@ == first.subrange(0, t as int),
        decreases unique_rows@.len() - t,
    {
        let row = unique_rows[t];
        proof {
            assert(unique_rows@[t as int] == first[t as int].row());
            assert(first[t as int].wf());
        }
        let a = IVec3::new(row.0, row.1, row.2);
        let axis_of_pair: usize = row.4 as usize;
        let b = a.with(axis_of_pair, a.get(axis_of_pair) + 1);
        let pair = BorderPair3D { A: a, B: b, axis_index: axis_of_pair };
        assert(pair == first[t as int]);
        unique.push(pair);
        assert(unique@ =~= first.subrange(0, t + 1));
        t += 1;
    }
    proof {
        assert(first.subrange(0, first.len() as int) =~= first);
    }
    unique
}

/// The points and the pairs that the surface search looks at around a pair
/// along one axis, relative to the lower point of that pair.
pub struct BorderPair3DRelativeNeighborSet {
    axis_index: usize,
    points: Vec<IVec3>,
    border_pairs: Vec<BorderPair3D>,
}

impl BorderPair3DRelativeNeighborSet {
    /// The axis that the set was made for.
    pub closed spec fn spec_axis(&self) -> int {
        self.axis_index as int
    }

    /// The relative points to sample.
    pub closed spec fn points_view(&self) -> Seq<IVec3> {
        self.points@
    }

    /// The relative pairs to test.
    pub closed spec fn pairs_view(&self) -> Seq<BorderPair3D> {
        self.border_pairs@
    }

    /// The set holds what `neighbor_points3` and `neighbor_pairs3` say for
    /// its axis, all of it inside the block around the pair.
    pub open spec fn wf(&self) -> bool {
        &&& 0 <= self.spec_axis() < 3
        &&& self.points_view() == neighbor_points3(self.spec_axis())
        &&& self.pairs_view() == neighbor_pairs3(self.spec_axis())
        &&& forall|k: int|
            0 <= k < self.points_view().len() ==> in_box3(
                #[trigger] self.points_view()[k],
                self.spec_axis(),
            )
        &&& pairs_in_box3(self.pairs_view(), self.spec_axis())
    }

    /// The neighbourhood of a pair along `axis_index`.
    pub fn new(axis_index: usize) -> (set: Self)
        requires
            axis_index < 3,
        ensures
            set.wf(),
            set.spec_axis() == axis_index,
    {
        let ghost axis = axis_index as int;
        let point_offsets = box_points_exec3(axis_index);
        let zero = IVec3::new(0, 0, 0);
        let v = zero.with(axis_index, 1);
        let parent_pair = BorderPair3D::new(zero, v);
        assert(parent_pair == parent_pair3(axis));
        let candidates = adjacent_pairs3(&point_offsets, axis_index);
        let ghost cands = adjacent_box_pairs3(axis);
        let ghost first = first_occurrences(cands);
        proof {
            lemma_first_occurrences(cands);
            assert forall|t: int| 0 <= t < first.len() implies (#[trigger] first[t]).wf() && in_box3(
                first[t].A,
                axis,
            ) && in_box3(first[t].B, axis) by {
                assert(first.contains(first[t]));
                assert(cands.contains(first[t]));
                let j = choose|j: int| 0 <= j < cands.len() && cands[j] == first[t];
                assert(cands[j].wf());
            }
        }
        let unique = unique_border_pairs_3D(candidates);
        let mut border_pairs: Vec<BorderPair3D> = Vec::new();
        let mut t: usize = 0;
        proof {
            reveal(Seq::filter);
            assert(first.subrange(0, 0) =~= Seq::<BorderPair3D>::empty());
        }
        while t < unique.len()
            invariant
                0 <= t <= unique@.len(),
                axis == axis_index,
                parent_pair == parent_pair3(axis),
                unique@ == first,
                pairs_in_box3(first, axis),
                border_pairs@ == first.subrange(0, t as int).filter(not_parent3(axis)),
                pairs_in_box3(border_pairs@, axis),
            decreases unique@.len() - t,
        {
            let pair = unique[t];
            proof {
                assert(first[t as int].wf());
                assert(first.subrange(0, t + 1) =~= first.subrange(0, t as int).push(first[t as int]));
                first.subrange(0, t as int).lemma_filter_push(first[t as int], not_parent3(axis));
            }
            if pair != parent_pair {
                border_pairs.push(pair);
            }
            t += 1;
        }
        proof {
            assert(first.subrange(0, first.len() as int) =~= first);
        }
        let mut points: Vec<IVec3> = Vec::new();
        let mut k: usize = 0;
        let ghost boxed = box_points3(axis);
        proof {
            assert(boxed.subrange(0, 0) =~= Seq::<IVec3>::empty());
        }
        while k < point_offsets.len()
            invariant
                0 <= k <= point_offsets@.len(),
                axis == axis_index,
                axis_index < 3,
                parent_pair == parent_pair3(axis),
                boxed == box_points3(axis),
                point_offsets@ == boxed,
                forall|j: int| 0 <= j < 18 ==> in_box3(#[trigger] point_offsets@[j], axis),
                points@ == boxed.subrange(0, k as int).filter(off_parent3(axis)),
                forall|j: int| 0 <= j < points@.len() ==> in_box3(#[trigger] points@[j], axis),
            decreases point_offsets@.len() - k,
        {
            let p = point_offsets[k];
            proof {
                assert(boxed.subrange(0, k + 1) =~= boxed.subrange(0, k as int).push(boxed[k as int]));
                boxed.subrange(0, k as int).lemma_filter_push(boxed[k as int], off_parent3(axis));
            }
            if p != parent_pair.A && p != parent_pair.B {
                points.push(p);
            }
            k += 1;
        }
        proof {
            assert(boxed.subrange(0, 18) =~= boxed);
        }
        BorderPair3DRelativeNeighborSet { axis_index, points, border_pairs }
    }
}

impl BorderPair3DRelativeNeighborSet {
    /// The points to sample around `parent_pair`.
    pub fn absolute_points(&self, parent_pair: BorderPair3D) -> (points: Vec<IVec3>)
        requires
            self.wf(),
            parent_pair.A.is_inner(),
        ensures
            points@.len() == self.points_view().len(),
            forall|i: int|
                0 <= i < points@.len() ==> #[trigger] points@[i] == self.points_view()[i].spec_plus(
                    parent_pair.A,
                ),
    {
        let mut points: Vec<IVec3> = Vec::new();
        let mut i: usize = 0;
        while i < self.points.len()
            invariant
                0 <= i <= self.points@.len(),
                self.wf(),
                parent_pair.A.is_inner(),
                points@.len() == i,
                forall|t: int|
                    0 <= t < i ==> #[trigger] points@[t] == self.points_view()[t].spec_plus(
                        parent_pair.A,
                    ),
            decreases self.points@.len() - i,
        {
            let p = self.points[i];
            assert(in_box3(self.points_view()[i as int], self.spec_axis()));
            points.push(p.plus(parent_pair.A));
            i += 1;
        }
        points
    }

    /// The pairs to test around `parent_pair`.
    pub fn absolute_border_pairs(&self, parent_pair: BorderPair3D) -> (pairs: Vec<BorderPair3D>)
        requires
            self.wf(),
            parent_pair.A.is_inner(),
        ensures
            pairs@.len() == self.pairs_view().len(),
            forall|i: int|
                0 <= i < pairs@.len() ==> #[trigger] pairs@[i] == self.pairs_view()[i].moved_by(
                    parent_pair.A,
                ) && pairs@[i].wf(),
    {
        let mut pairs: Vec<BorderPair3D> = Vec::new();
        let mut i: usize = 0;
        while i < self.border_pairs.len()
            invariant
                0 <= i <= self.border_pairs@.len(),
                self.wf(),
                parent_pair.A.is_inner(),
                pairs@.len() == i,
                forall|t: int|
                    0 <= t < i ==> #[trigger] pairs@[t] == self.pairs_view()[t].moved_by(
                        parent_pair.A,
                    ) && pairs@[t].wf(),
            decreases self.border_pairs@.len() - i,
        {
            let pair = self.border_pairs[i];
            proof {
                let rel = self.pairs_view()[i as int];
                assert(rel.wf() && in_box3(rel.A, self.spec_axis()) && in_box3(
                    rel.B,
                    self.spec_axis(),
                ));
            }
            let out = BorderPair3D {
                A: pair.A.plus(parent_pair.A),
                B: pair.B.plus(parent_pair.A),
                axis_index: pair.axis_index,
            };
            pairs.push(out);
            i += 1;
        }
        pairs
    }
}

/// Every offset of the block is one of the two points of the pair or one of
/// the points to sample, and every point of the block is one of its offsets.
pub proof fn lemma_box_covered3(axis: int)
    requires
        0 <= axis < 3,
    ensures
        forall|k: int|
            0 <= k < 18 ==> #[trigger] box_points3(axis)[k] == IVec3::ZERO() || box_points3(axis)[k]
                == IVec3::unit(axis) || neighbor_points3(axis).contains(box_points3(axis)[k]),
        forall|p: IVec3| in_box3(p, axis) ==> #[trigger] box_points3(axis).contains(p),
{
    let boxed = box_points3(axis);
    assert forall|k: int| 0 <= k < 18 implies #[trigger] boxed[k] == IVec3::ZERO() || boxed[k]
        == IVec3::unit(axis) || neighbor_points3(axis).contains(boxed[k]) by {
        if off_parent3(axis)(boxed[k]) {
            boxed.lemma_filter_contains(off_parent3(axis), k);
        }
    }
    assert forall|p: IVec3| in_box3(p, axis) implies #[trigger] boxed.contains(p) by {
        let q = p.axis_swapped(axis);
        let k = (q.x + 1) * 6 + (q.y + 1) * 2 + q.z;
        assert(box_point3(k, axis) == p);
        assert(boxed[k] == p);
    }
}

/// Two lattice points one step apart along `axis_index`, `A` being the one
/// with the smaller coordinate along that axis.
#[derive(Clone, Copy, Debug, PartialEq, Eq, Structural, Hash)]
pub struct BorderPair4D {
    pub A: IVec4,
    pub B: IVec4,
    pub axis_index: usize,
}

impl BorderPair4D {
    /// `B` is `A` moved one step up along `axis_index`.
    pub open spec fn wf(self) -> bool {
        &&& self.axis_index < 4
        &&& self.A.coord(self.axis_index as int) < i32::MAX
        &&& self.B == self.A.spec_with(
            self.axis_index as int,
            (self.A.coord(self.axis_index as int) + 1) as i32,
        )
    }

    /// The pair made of two points one step apart, ordered along the axis on
    /// which they differ.
    pub open spec fn spec_new(a: IVec4, b: IVec4) -> BorderPair4D {
        let axis: usize = if a.x != b.x {
            0
        } else if a.y != b.y {
            1
        } else if a.z != b.z {
            2
        } else {
            3
        };
        if a.coord(axis as int) > b.coord(axis as int) {
            BorderPair4D { A: b, B: a, axis_index: axis }
        } else {
            BorderPair4D { A: a, B: b, axis_index: axis }
        }
    }

    /// The pair made of two points one step apart.
    pub fn new(A: IVec4, B: IVec4) -> (pair: BorderPair4D)
        requires
            A.manhattan_distance(B) == 1,
        ensures
            pair == Self::spec_new(A, B),
            pair.wf(),
    {
        let axis_index: usize = if A.x != B.x {
            0
        } else if A.y != B.y {
            1
        } else if A.z != B.z {
            2
        } else {
            3
        };
        if A.get(axis_index) > B.get(axis_index) {
            BorderPair4D { A: B, B: A, axis_index }
        } else {
            BorderPair4D { A, B, axis_index }
        }
    }

    /// The pair moved by `base`.
    pub open spec fn moved_by(self, base: IVec4) -> BorderPair4D {
        BorderPair4D {
            A: self.A.spec_plus(base),
            B: self.B.spec_plus(base),
            axis_index: self.axis_index,
        }
    }

    /// The pair as a tuple of integers: the coordinates of `A` and the axis.
    pub open spec fn row(self) -> (i32, i32, i32, i32, i32) {
        (self.A.x, self.A.y, self.A.z, self.A.w, self.axis_index as i32)
    }

    /// The two points as an array, `A` first.
    pub fn to_array(self) -> (out: [IVec4; 2])
        ensures
            out@[0] == self.A,
            out@[1] == self.B,
    {
        [self.A, self.B]
    }
}

/// Whether `p` lies in the block of offsets around a pair along `axis`: zero
/// or one along the axis, between minus one and one along the others.
pub open spec fn in_box4(p: IVec4, axis: int) -> bool {
    let q = p.axis_swapped(axis);
    -1 <= q.x <= 1 && -1 <= q.y <= 1 && -1 <= q.z <= 1 && 0 <= q.w <= 1
}

/// Offset number `k` of the block around a pair along `axis`.
pub open spec fn box_point4(k: int, axis: int) -> IVec4 {
    (IVec4 {
        x: (k / 18 - 1) as i32,
        y: ((k / 6) % 3 - 1) as i32,
        z: ((k / 2) % 3 - 1) as i32,
        w: (k % 2) as i32,
    }).axis_swapped(axis)
}

/// The fifty-four offsets of the block around a pair along `axis`.
pub open spec fn box_points4(axis: int) -> Seq<IVec4> {
    Seq::new(54, |k: int| box_point4(k, axis))
}

/// The pair from the origin to the unit step along `axis`.
pub open spec fn parent_pair4(axis: int) -> BorderPair4D {
    BorderPair4D { A: IVec4::ZERO(), B: IVec4::unit(axis), axis_index: axis as usize }
}

/// Holds of every point but the two points of the pair along `axis` at the origin.
pub open spec fn off_parent4(axis: int) -> spec_fn(IVec4) -> bool {
    |p: IVec4| p != IVec4::ZERO() && p != IVec4::unit(axis)
}

/// Holds of two points one step apart.
pub open spec fn one_step_apart4() -> spec_fn((IVec4, IVec4)) -> bool {
    |pr: (IVec4, IVec4)| pr.0.manhattan_distance(pr.1) == 1
}

/// Makes the border pair of two points.
pub open spec fn pair_maker4() -> spec_fn((IVec4, IVec4)) -> BorderPair4D {
    |pr: (IVec4, IVec4)| BorderPair4D::spec_new(pr.0, pr.1)
}

/// Holds of every pair but the pair along `axis` at the origin.
pub open spec fn not_parent4(axis: int) -> spec_fn(BorderPair4D) -> bool {
    |bp: BorderPair4D| bp != parent_pair4(axis)
}

/// Writes a pair as its tuple of integers.
pub open spec fn row_maker4() -> spec_fn(BorderPair4D) -> (i32, i32, i32, i32, i32) {
    |bp: BorderPair4D| bp.row()
}

/// The offsets of the block other than the two points of the pair itself.
pub open spec fn neighbor_points4(axis: int) -> Seq<IVec4> {
    box_points4(axis).filter(off_parent4(axis))
}

/// The pairs of offsets of the block, in the order of `combinations_of(54, 2)`.
pub open spec fn box_point_pairs4(axis: int) -> Seq<(IVec4, IVec4)> {
    Seq::new(
        combinations_of(54, 2).len(),
        |q: int|
            (
                box_points4(axis)[combinations_of(54, 2)[q][0]],
                box_points4(axis)[combinations_of(54, 2)[q][1]],
            ),
    )
}

/// The pairs of offsets one step apart, as border pairs.
pub open spec fn adjacent_box_pairs4(axis: int) -> Seq<BorderPair4D> {
    box_point_pairs4(axis).filter(one_step_apart4()).map_values(pair_maker4())
}

/// The pairs, relative to the lower point of a pair along `axis`, that the
/// surface search tests next: every pair of the block but the pair itself.
pub open spec fn neighbor_pairs4(axis: int) -> Seq<BorderPair4D> {
    first_occurrences(adjacent_box_pairs4(axis)).filter(not_parent4(axis))
}

/// The border pair of two distinct points one step apart is well formed and
/// made of those two points.
pub proof fn lemma_new_pair4(a: IVec4, b: IVec4)
    requires
        a.manhattan_distance(b) == 1,
    ensures
        BorderPair4D::spec_new(a, b).wf(),
        BorderPair4D::spec_new(a, b) == BorderPair4D::spec_new(b, a),
        (BorderPair4D::spec_new(a, b).A == a && BorderPair4D::spec_new(a, b).B == b) || (
        BorderPair4D::spec_new(a, b).A == b && BorderPair4D::spec_new(a, b).B == a),
{
}

/// The block of offsets around a pair along `axis`, computed.
fn box_points_exec4(axis: usize) -> (points: Vec<IVec4>)
    requires
        axis < 4,
    ensures
        points@ == box_points4(axis as int),
        forall|k: int| 0 <= k < 54 ==> in_box4(#[trigger] points@[k], axis as int),
{
    let mut points: Vec<IVec4> = Vec::new();
    let mut x: i32 = -1;
    while x <= 1
        invariant
            -1 <= x <= 2,
            axis < 4,
            points@ =~= box_points4(axis as int).subrange(0, (x + 1) * 18),
        decreases 2 - x,
    {
        let mut y: i32 = -1;
        while y <= 1
            invariant
                -1 <= x <= 1,
                -1 <= y <= 2,
                axis < 4,
                points@ =~= box_points4(axis as int).subrange(0, (x + 1) * 18 + (y + 1) * 6),
            decreases 2 - y,
        {
            let mut z: i32 = -1;
            while z <= 1
                invariant
                    -1 <= x <= 1,
                    -1 <= y <= 1,
                    -1 <= z <= 2,
                    axis < 4,
                    points@ =~= box_points4(axis as int).subrange(
                        0,
                        (x + 1) * 18 + (y + 1) * 6 + (z + 1) * 2,
                    ),
                decreases 2 - z,
            {
                let mut w: i32 = 0;
                while w <= 1
                    invariant
                        -1 <= x <= 1,
                        -1 <= y <= 1,
                        -1 <= z <= 1,
                        0 <= w <= 2,
                        axis < 4,
                        points@ =~= box_points4(axis as int).subrange(
                            0,
                            (x + 1) * 18 + (y + 1) * 6 + (z + 1) * 2 + w,
                        ),
                    decreases 2 - w,
                {
                    let p = IVec4::new(x, y, z, w).swap_axis(axis);
                    proof {
                        let k = (x + 1) * 18 + (y + 1) * 6 + (z + 1) * 2 + w;
                        assert(box_point4(k, axis as int) == p);
                    }
                    points.push(p);
                    w += 1;
                }
                z += 1;
            }
            y += 1;
        }
        x += 1;
    }
    proof {
        assert(box_points4(axis as int).subrange(0, 54) =~= box_points4(axis as int));
        assert forall|k: int| 0 <= k < 54 implies in_box4(#[trigger] points@[k], axis as int) by {
            assert(points@[k] == box_point4(k, axis as int));
        }
    }
    points
}

/// Every pair of `pairs` is well formed with both points in the block along `axis`.
pub open spec fn pairs_in_box4(pairs: Seq<BorderPair4D>, axis: int) -> bool {
    forall|t: int|
        0 <= t < pairs.len() ==> (#[trigger] pairs[t]).wf() && in_box4(pairs[t].A, axis) && in_box4(
            pairs[t].B,
            axis,
        )
}

/// The pairs of block offsets one step apart.
fn adjacent_pairs4(points: &Vec<IVec4>, axis: usize) -> (found: Vec<BorderPair4D>)
    requires
        axis < 4,
        points@ == box_points4(axis as int),
        forall|k: int| 0 <= k < 54 ==> in_box4(#[trigger] points@[k], axis as int),
    ensures
        found@ == adjacent_box_pairs4(axis as int),
        pairs_in_box4(found@, axis as int),
{
    let pairs: Vec<[IVec4; 2]> = combinations_constsize::<2, IVec4>(points.as_slice());
    let ghost all = box_point_pairs4(axis as int);
    let ghost combos = combinations_of(54, 2);
    proof {
        lemma_subsets_shape(54, 2);
        assert(pairs@.len() == all.len());
        assert forall|q: int| 0 <= q < all.len() implies (#[trigger] pairs@[q])@[0] == all[q].0
            && pairs@[q]@[1] == all[q].1 && in_box4(all[q].0, axis as int) && in_box4(
            all[q].1,
            axis as int,
        ) by {
            assert(is_combination(combos[q], 54, 2));
            assert(0 <= combos[q][0] < 54 && 0 <= combos[q][1] < 54);
            assert(pairs@[q]@[0] == points@[combos[q][0]]);
            assert(pairs@[q]@[1] == points@[combos[q][1]]);
        }
    }
    let mut found: Vec<BorderPair4D> = Vec::new();
    let ghost mut cands: Seq<BorderPair4D> = Seq::empty();
    let mut i: usize = 0;
    proof {
        reveal(Seq::filter);
        assert(all.subrange(0, 0) =~= Seq::<(IVec4, IVec4)>::empty());
        assert(all.subrange(0, 0).filter(one_step_apart4()).map_values(pair_maker4()) =~= cands);
    }
    while i < pairs.len()
        invariant
            0 <= i <= pairs@.len(),
            axis < 4,
            pairs@.len() == all.len(),
            all == box_point_pairs4(axis as int),
            forall|q: int|
                0 <= q < all.len() ==> (#[trigger] pairs@[q])@[0] == all[q].0 && pairs@[q]@[1]
                    == all[q].1 && in_box4(all[q].0, axis as int) && in_box4(all[q].1, axis as int),
            cands == all.subrange(0, i as int).filter(one_step_apart4()).map_values(pair_maker4()),
            found@ == cands,
            pairs_in_box4(cands, axis as int),
        decreases pairs@.len() - i,
    {
        let pair: [IVec4; 2] = pairs[i];
        let a: IVec4 = pair[0];
        let b: IVec4 = pair[1];
        proof {
            assert(pairs@[i as int]@[0] == all[i as int].0);
            assert(all.subrange(0, i + 1) =~= all.subrange(0, i as int).push(all[i as int]));
            all.subrange(0, i as int).lemma_filter_push(all[i as int], one_step_apart4());
        }
        if a.manhattan_distance_exec(b) == 1 {
            let bp = BorderPair4D::new(a, b);
            proof {
                lemma_new_pair4(a, b);
                let kept = all.subrange(0, i as int).filter(one_step_apart4());
                assert(kept.push(all[i as int]).map_values(pair_maker4()) =~= cands.push(bp));
                cands = cands.push(bp);
            }
            found.push(bp);
        }
        i += 1;
    }
    proof {
        assert(all.subrange(0, all.len() as int) =~= all);
    }
    found
}

/// Two well-formed pairs written as the same tuple are the same pair.
pub proof fn lemma_row_injective4(a: BorderPair4D, b: BorderPair4D)
    requires
        a.wf(),
        b.wf(),
        a.row() == b.row(),
    ensures
        a == b,
{
}

/// The pairs in their order, each only where it stands first.
pub fn unique_border_pairs_4D(pairs: Vec<BorderPair4D>) -> (unique: Vec<BorderPair4D>)
    requires
        forall|i: int| 0 <= i < pairs@.len() ==> (#[trigger] pairs@[i]).wf(),
    ensures
        unique@ == first_occurrences(pairs@),
{
    let mut rows: Vec<(i32, i32, i32, i32, i32)> = Vec::new();
    let mut i: usize = 0;
    while i < pairs.len()
        invariant
            0 <= i <= pairs@.len(),
            forall|k: int| 0 <= k < pairs@.len() ==> (#[trigger] pairs@[k]).wf(),
            rows@ =~= pairs@.subrange(0, i as int).map_values(row_maker4()),
        decreases pairs@.len() - i,
    {
        let pair = pairs[i];
        assert(pairs@[i as int].wf());
        rows.push((pair.A.x, pair.A.y, pair.A.z, pair.A.w, pair.axis_index as i32));
        i += 1;
    }
    let unique_rows = unique_rows(rows);
    let ghost first = first_occurrences(pairs@);
    proof {
        assert(pairs@.subrange(0, pairs@.len() as int) =~= pairs@);
        assert forall|i: int, j: int|
            0 <= i < pairs@.len() && 0 <= j < pairs@.len() && row_maker4()(pairs@[i])
                == row_maker4()(pairs@[j]) implies pairs@[i] == pairs@[j] by {
            lemma_row_injective4(pairs@[i], pairs@[j]);
        }
        lemma_first_occurrences_map(pairs@, row_maker4());
        lemma_first_occurrences(pairs@);
        assert forall|t: int| 0 <= t < first.len() implies (#[trigger] first[t]).wf() by {
            assert(first.contains(first[t]));
            assert(pairs@.contains(first[t]));
            let j = choose|j: int| 0 <= j < pairs@.len() && pairs@[j] == first[t];
            assert(pairs@[j].wf());
        }
    }
    let mut unique: Vec<BorderPair4D> = Vec::new();
    let mut t: usize = 0;
    while t < unique_rows.len()
        invariant
            0 <= t <= unique_rows@.len(),
            unique_rows@ == first.map_values(row_maker4()),
            forall|k: int| 0 <= k < first.len() ==> (#[trigger] first[k]).wf(),
            unique@ == first.subrange(0, t as int),
        decreases unique_rows@.len() - t,
    {
        let row = unique_rows[t];
        proof {
            assert(unique_rows@[t as int] == first[t as int].row());
            assert(first[t as int].wf());
        }
        let a = IVec4::new(row.0, row.1, row.2, row.3);
        let axis_of_pair: usize = row.4 as usize;
        let b = a.with(axis_of_pair, a.get(axis_of_pair) + 1);
        let pair = BorderPair4D { A: a, B: b, axis_index: axis_of_pair };
        assert(pair == first[t as int]);
        unique.push(pair);
        assert(unique@ =~= first.subrange(0, t + 1));
        t += 1;
    }
    proof {
        assert(first.subrange(0, first.len() as int) =~= first);
    }
    unique
}

/// The points and the pairs that the surface search looks at around a pair
/// along one axis, relative to the lower point of that pair.
pub struct BorderPair4DRelativeNeighborSet {
    axis_index: usize,
    points: Vec<IVec4>,
    border_pairs: Vec<BorderPair4D>,
}

impl BorderPair4DRelativeNeighborSet {
    /// The axis that the set was made for.
    pub closed spec fn spec_axis(&self) -> int {
        self.axis_index as int
    }

    /// The relative points to sample.
    pub closed spec fn points_view(&self) -> Seq<IVec4> {
        self.points@
    }

    /// The relative pairs to test.
    pub closed spec fn pairs_view(&self) -> Seq<BorderPair4D> {
        self.border_pairs@
    }

    /// The set holds what `neighbor_points4` and `neighbor_pairs4` say for
    /// its axis, all of it inside the block around the pair.
    pub open spec fn wf(&self) -> bool {
        &&& 0 <= self.spec_axis() < 4
        &&& self.points_view() == neighbor_points4(self.spec_axis())
        &&& self.pairs_view() == neighbor_pairs4(self.spec_axis())
        &&& forall|k: int|
            0 <= k < self.points_view().len() ==> in_box4(
                #[trigger] self.points_view()[k],
                self.spec_axis(),
            )
        &&& pairs_in_box4(self.pairs_view(), self.spec_axis())
    }

    /// The neighbourhood of a pair along `axis_index`.
    pub fn new(axis_index: usize) -> (set: Self)
        requires
            axis_index < 4,
        ensures
            set.wf(),
            set.spec_axis() == axis_index,
    {
        let ghost axis = axis_index as int;
        let point_offsets = box_points_exec4(axis_index);
        let zero = IVec4::new(0, 0, 0, 0);
        let v = zero.with(axis_index, 1);
        let parent_pair = BorderPair4D::new(zero, v);
        assert(parent_pair == parent_pair4(axis));
        let candidates = adjacent_pairs4(&point_offsets, axis_index);
        let ghost cands = adjacent_box_pairs4(axis);
        let ghost first = first_occurrences(cands);
        proof {
            lemma_first_occurrences(cands);
            assert forall|t: int| 0 <= t < first.len() implies (#[trigger] first[t]).wf() && in_box4(
                first[t].A,
                axis,
            ) && in_box4(first[t].B, axis) by {
                assert(first.contains(first[t]));
                assert(cands.contains(first[t]));
                let j = choose|j: int| 0 <= j < cands.len() && cands[j] == first[t];
                assert(cands[j].wf());
            }
        }
        let unique = unique_border_pairs_4D(candidates);
        let mut border_pairs: Vec<BorderPair4D> = Vec::new();
        let mut t: usize = 0;
        proof {
            reveal(Seq::filter);
            assert(first.subrange(0, 0) =~= Seq::<BorderPair4D>::empty());
        }
        while t < unique.len()
            invariant
                0 <= t <= unique@.len(),
                axis == axis_index,
                parent_pair == parent_pair4(axis),
                unique@ == first,
                pairs_in_box4(first, axis),
                border_pairs@ == first.subrange(0, t as int).filter(not_parent4(axis)),
                pairs_in_box4(border_pairs@, axis),
            decreases unique@.len() - t,
        {
            let pair = unique[t];
            proof {
                assert(first[t as int].wf());
                assert(first.subrange(0, t + 1) =~= first.subrange(0, t as int).push(first[t as int]));
                first.subrange(0, t as int).lemma_filter_push(first[t as int], not_parent4(axis));
            }
            if pair != parent_pair {
                border_pairs.push(pair);
            }
            t += 1;
        }
        proof {
            assert(first.subrange(0, first.len() as int) =~= first);
        }
        let mut points: Vec<IVec4> = Vec::new();
        let mut k: usize = 0;
        let ghost boxed = box_points4(axis);
        proof {
            assert(boxed.subrange(0, 0) =~= Seq::<IVec4>::empty());
        }
        while k < point_offsets.len()
            invariant
                0 <= k <= point_offsets@.len(),
                axis == axis_index,
                axis_index < 4,
                parent_pair == parent_pair4(axis),
                boxed == box_points4(axis),
                point_offsets@ == boxed,
                forall|j: int| 0 <= j < 54 ==> in_box4(#[trigger] point_offsets@[j], axis),
                points@ == boxed.subrange(0, k as int).filter(off_parent4(axis)),
                forall|j: int| 0 <= j < points@.len() ==> in_box4(#[trigger] points@[j], axis),
            decreases point_offsets@.len() - k,
        {
            let p = point_offsets[k];
            proof {
                assert(boxed.subrange(0, k + 1) =~= boxed.subrange(0, k as int).push(boxed[k as int]));
                boxed.subrange(0, k as int).lemma_filter_push(boxed[k as int], off_parent4(axis));
            }
            if p != parent_pair.A && p != parent_pair.B {
                points.push(p);
            }
            k += 1;
        }
        proof {
            assert(boxed.subrange(0, 54) =~= boxed);
        }
        BorderPair4DRelativeNeighborSet { axis_index, points, border_pairs }
    }
}

impl BorderPair4DRelativeNeighborSet {
    /// The points to sample around `parent_pair`.
    pub fn absolute_points(&self, parent_pair: BorderPair4D) -> (points: Vec<IVec4>)
        requires
            self.wf(),
            parent_pair.A.is_inner(),
        ensures
            points@.len() == self.points_view().len(),
            forall|i: int|
                0 <= i < points@.len() ==> #[trigger] points@[i] == self.points_view()[i].spec_plus(
                    parent_pair.A,
                ),
    {
        let mut points: Vec<IVec4> = Vec::new();
        let mut i: usize = 0;
        while i < self.points.len()
            invariant
                0 <= i <= self.points@.len(),
                self.wf(),
                parent_pair.A.is_inner(),
                points@.len() == i,
                forall|t: int|
                    0 <= t < i ==> #[trigger] points@[t] == self.points_view()[t].spec_plus(
                        parent_pair.A,
                    ),
            decreases self.points@.len() - i,
        {
            let p = self.points[i];
            assert(in_box4(self.points_view()[i as int], self.spec_axis()));
            points.push(p.plus(parent_pair.A));
            i += 1;
        }
        points
    }

    /// The pairs to test around `parent_pair`.
    pub fn absolute_border_pairs(&self, parent_pair: BorderPair4D) -> (pairs: Vec<BorderPair4D>)
        requires
            self.wf(),
            parent_pair.A.is_inner(),
        ensures
            pairs@.len() == self.pairs_view().len(),
            forall|i: int|
                0 <= i < pairs@.len() ==> #[trigger] pairs@[i] == self.pairs_view()[i].moved_by(
                    parent_pair.A,
                ) && pairs@[i].wf(),
    {
        let mut pairs: Vec<BorderPair4D> = Vec::new();
        let mut i: usize = 0;
        while i < self.border_pairs.len()
            invariant
                0 <= i <= self.border_pairs@.len(),
                self.wf(),
                parent_pair.A.is_inner(),
                pairs@.len() == i,
                forall|t: int|
                    0 <= t < i ==> #[trigger] pairs@[t] == self.pairs_view()[t].moved_by(
                        parent_pair.A,
                    ) && pairs@[t].wf(),
            decreases self.border_pairs@.len() - i,
        {
            let pair = self.border_pairs[i];
            proof {
                let rel = self.pairs_view()[i as int];
                assert(rel.wf() && in_box4(rel.A, self.spec_axis()) && in_box4(
                    rel.B,
                    self.spec_axis(),
                ));
            }
            let out = BorderPair4D {
                A: pair.A.plus(parent_pair.A),
                B: pair.B.plus(parent_pair.A),
                axis_index: pair.axis_index,
            };
            pairs.push(out);
            i += 1;
        }
        pairs
    }
}

/// Every offset of the block is one of the two points of the pair or one of
/// the points to sample, and every point of the block is one of its offsets.
pub proof fn lemma_box_covered4(axis: int)
    requires
        0 <= axis < 4,
    ensures
        forall|k: int|
            0 <= k < 54 ==> #[trigger] box_points4(axis)[k] == IVec4::ZERO() || box_points4(axis)[k]
                == IVec4::unit(axis) || neighbor_points4(axis).contains(box_points4(axis)[k]),
        forall|p: IVec4| in_box4(p, axis) ==> #[trigger] box_points4(axis).contains(p),
{
    let boxed = box_points4(axis);
    assert forall|k: int| 0 <= k < 54 implies #[trigger] boxed[k] == IVec4::ZERO() || boxed[k]
        == IVec4::unit(axis) || neighbor_points4(axis).contains(boxed[k]) by {
        if off_parent4(axis)(boxed[k]) {
            boxed.lemma_filter_contains(off_parent4(axis), k);
        }
    }
    assert forall|p: IVec4| in_box4(p, axis) implies #[trigger] boxed.contains(p) by {
        let q = p.axis_swapped(axis);
        let k = (q.x + 1) * 18 + (q.y + 1) * 6 + (q.z + 1) * 2 + q.w;
        assert(box_point4(k, axis) == p);
        assert(boxed[k] == p);
    }
}


/// Every pair of two block points one step apart is well formed with both
/// points in the block.
proof fn lemma_adjacent_pairs_sound3(axis: int, bp: BorderPair3D)
    requires
        0 <= axis < 3,
        adjacent_box_pairs3(axis).contains(bp),
    ensures
        bp.wf(),
        in_box3(bp.A, axis),
        in_box3(bp.B, axis),
{
    let all = box_point_pairs3(axis);
    let near = all.filter(one_step_apart3());
    let cands = adjacent_box_pairs3(axis);
    let combos = combinations_of(18, 2);
    lemma_subsets_shape(18, 2);
    let j = choose|j: int| 0 <= j < cands.len() && cands[j] == bp;
    let pr = near[j];
    assert(bp == BorderPair3D::spec_new(pr.0, pr.1));
    all.lemma_filter_pred(one_step_apart3(), j);
    assert(near.contains(pr));
    all.lemma_filter_contains_rev(one_step_apart3(), pr);
    let q = choose|q: int| 0 <= q < all.len() && all[q] == pr;
    assert(is_combination(combos[q], 18, 2));
    assert(0 <= combos[q][0] < 18 && 0 <= combos[q][1] < 18);
    assert(pr.0 == box_point3(combos[q][0], axis));
    assert(pr.1 == box_point3(combos[q][1], axis));
    assert(in_box3(pr.0, axis));
    assert(in_box3(pr.1, axis));
    lemma_new_pair3(pr.0, pr.1);
}

/// Every well-formed pair with both points in the block is the pair of two
/// block points one step apart.
proof fn lemma_adjacent_pairs_complete3(axis: int, bp: BorderPair3D)
    requires
        0 <= axis < 3,
        bp.wf(),
        in_box3(bp.A, axis),
        in_box3(bp.B, axis),
    ensures
        adjacent_box_pairs3(axis).contains(bp),
{
    let boxed = box_points3(axis);
    let all = box_point_pairs3(axis);
    let near = all.filter(one_step_apart3());
    let cands = adjacent_box_pairs3(axis);
    let combos = combinations_of(18, 2);
    lemma_box_covered3(axis);
    assert(boxed.contains(bp.A));
    assert(boxed.contains(bp.B));
    let i = choose|i: int| 0 <= i < boxed.len() && boxed[i] == bp.A;
    let j = choose|j: int| 0 <= j < boxed.len() && boxed[j] == bp.B;
    assert(bp.A != bp.B);
    assert(i != j);
    let lo = if i < j { i } else { j };
    let hi = if i < j { j } else { i };
    lemma_pairs_complete(18, lo, hi);
    let q = choose|q: int| 0 <= q < combos.len() && #[trigger] combos[q] =~= seq![lo, hi];
    assert(combos[q][0] == lo && combos[q][1] == hi);
    let pr = all[q];
    assert(pr == (boxed[lo], boxed[hi]));
    lemma_new_pair3(bp.A, bp.B);
    assert(one_step_apart3()(pr));
    all.lemma_filter_contains(one_step_apart3(), q);
    let t = choose|t: int| 0 <= t < near.len() && near[t] == pr;
    assert(cands[t] == BorderPair3D::spec_new(pr.0, pr.1));
    assert(cands[t] == bp);
}

/// The pairs that the search tests around a pair along `axis` are exactly
/// the well-formed pairs with both points in the block around it, but for
/// the pair itself; none is listed twice.
pub proof fn lemma_neighbor_pairs_are_block_pairs3(axis: int)
    requires
        0 <= axis < 3,
    ensures
        neighbor_pairs3(axis).no_duplicates(),
        forall|bp: BorderPair3D|
            neighbor_pairs3(axis).contains(bp) <==> bp.wf() && in_box3(bp.A, axis) && in_box3(
                bp.B,
                axis,
            ) && bp != parent_pair3(axis),
{
    let cands = adjacent_box_pairs3(axis);
    let first = first_occurrences(cands);
    lemma_first_occurrences(cands);
    lemma_filter_of_distinct(first, not_parent3(axis));
    assert forall|bp: BorderPair3D|
        neighbor_pairs3(axis).contains(bp) <==> bp.wf() && in_box3(bp.A, axis) && in_box3(
            bp.B,
            axis,
        ) && bp != parent_pair3(axis) by {
        assert(neighbor_pairs3(axis).contains(bp) <==> first.contains(bp) && not_parent3(axis)(bp));
        assert(first.contains(bp) <==> cands.contains(bp));
        if cands.contains(bp) {
            lemma_adjacent_pairs_sound3(axis, bp);
        }
        if bp.wf() && in_box3(bp.A, axis) && in_box3(bp.B, axis) {
            lemma_adjacent_pairs_complete3(axis, bp);
        }
    }
}

/// Every pair of two block points one step apart is well formed with both
/// points in the block.
proof fn lemma_adjacent_pairs_sound4(axis: int, bp: BorderPair4D)
    requires
        0 <= axis < 4,
        adjacent_box_pairs4(axis).contains(bp),
    ensures
        bp.wf(),
        in_box4(bp.A, axis),
        in_box4(bp.B, axis),
{
    let all = box_point_pairs4(axis);
    let near = all.filter(one_step_apart4());
    let cands = adjacent_box_pairs4(axis);
    let combos = combinations_of(54, 2);
    lemma_subsets_shape(54, 2);
    let j = choose|j: int| 0 <= j < cands.len() && cands[j] == bp;
    let pr = near[j];
    assert(bp == BorderPair4D::spec_new(pr.0, pr.1));
    all.lemma_filter_pred(one_step_apart4(), j);
    assert(near.contains(pr));
    all.lemma_filter_contains_rev(one_step_apart4(), pr);
    let q = choose|q: int| 0 <= q < all.len() && all[q] == pr;
    assert(is_combination(combos[q], 54, 2));
    assert(0 <= combos[q][0] < 54 && 0 <= combos[q][1] < 54);
    assert(pr.0 == box_point4(combos[q][0], axis));
    assert(pr.1 == box_point4(combos[q][1], axis));
    assert(in_box4(pr.0, axis));
    assert(in_box4(pr.1, axis));
    lemma_new_pair4(pr.0, pr.1);
}

/// Every well-formed pair with both points in the block is the pair of two
/// block points one step apart.
proof fn lemma_adjacent_pairs_complete4(axis: int, bp: BorderPair4D)
    requires
        0 <= axis < 4,
        bp.wf(),
        in_box4(bp.A, axis),
        in_box4(bp.B, axis),
    ensures
        adjacent_box_pairs4(axis).contains(bp),
{
    let boxed = box_points4(axis);
    let all = box_point_pairs4(axis);
    let near = all.filter(one_step_apart4());
    let cands = adjacent_box_pairs4(axis);
    let combos = combinations_of(54, 2);
    lemma_box_covered4(axis);
    assert(boxed.contains(bp.A));
    assert(boxed.contains(bp.B));
    let i = choose|i: int| 0 <= i < boxed.len() && boxed[i] == bp.A;
    let j = choose|j: int| 0 <= j < boxed.len() && boxed[j] == bp.B;
    assert(bp.A != bp.B);
    assert(i != j);
    let lo = if i < j { i } else { j };
    let hi = if i < j { j } else { i };
    lemma_pairs_complete(54, lo, hi);
    let q = choose|q: int| 0 <= q < combos.len() && #[trigger] combos[q] =~= seq![lo, hi];
    assert(combos[q][0] == lo && combos[q][1] == hi);
    let pr = all[q];
    assert(pr == (boxed[lo], boxed[hi]));
    lemma_new_pair4(bp.A, bp.B);
    assert(one_step_apart4()(pr));
    all.lemma_filter_contains(one_step_apart4(), q);
    let t = choose|t: int| 0 <= t < near.len() && near[t] == pr;
    assert(cands[t] == BorderPair4D::spec_new(pr.0, pr.1));
    assert(cands[t] == bp);
}

/// The pairs that the search tests around a pair along `axis` are exactly
/// the well-formed pairs with both points in the block around it, but for
/// the pair itself; none is listed twice.
pub proof fn lemma_neighbor_pairs_are_block_pairs4(axis: int)
    requires
        0 <= axis < 4,
    ensures
        neighbor_pairs4(axis).no_duplicates(),
        forall|bp: BorderPair4D|
            neighbor_pairs4(axis).contains(bp) <==> bp.wf() && in_box4(bp.A, axis) && in_box4(
                bp.B,
                axis,
            ) && bp != parent_pair4(axis),
{
    let cands = adjacent_box_pairs4(axis);
    let first = first_occurrences(cands);
    lemma_first_occurrences(cands);
    lemma_filter_of_distinct(first, not_parent4(axis));
    assert forall|bp: BorderPair4D|
        neighbor_pairs4(axis).contains(bp) <==> bp.wf() && in_box4(bp.A, axis) && in_box4(
            bp.B,
            axis,
        ) && bp != parent_pair4(axis) by {
        assert(neighbor_pairs4(axis).contains(bp) <==> first.contains(bp) && not_parent4(axis)(bp));
        assert(first.contains(bp) <==> cands.contains(bp));
        if cands.contains(bp) {
            lemma_adjacent_pairs_sound4(axis, bp);
        }
        if bp.wf() && in_box4(bp.A, axis) && in_box4(bp.B, axis) {
            lemma_adjacent_pairs_complete4(axis, bp);
        }
    }
}

} // verus!
