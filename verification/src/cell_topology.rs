//! How a square is cut into two triangles and a cube into five tetrahedra,
//! over the corners numbered as `CornerSigns::all` lists them.
use vstd::prelude::*;
use crate::corner_signs::{agreeing, bit, shifted_right, two_pow, CornerSigns, Sign};
use crate::edges::{contains, index_of};


verus! {

/// The binary digits of the numbers below eight.
pub proof fn lemma_bits_below_eight()
    ensures
        !bit(0, 0) && !bit(0, 1) && !bit(0, 2),
        bit(1, 0) && !bit(1, 1) && !bit(1, 2),
        !bit(2, 0) && bit(2, 1) && !bit(2, 2),
        bit(3, 0) && bit(3, 1) && !bit(3, 2),
        !bit(4, 0) && !bit(4, 1) && bit(4, 2),
        bit(5, 0) && !bit(5, 1) && bit(5, 2),
        !bit(6, 0) && bit(6, 1) && bit(6, 2),
        bit(7, 0) && bit(7, 1) && bit(7, 2),
        two_pow(2) == 4,
        two_pow(3) == 8,
{
    reveal_with_fuel(shifted_right, 4);
    reveal_with_fuel(two_pow, 4);
}

/// The four corners of the square are numbered as their signs say.
pub open spec fn is_square_corners(corners: Seq<CornerSigns<2>>) -> bool {
    &&& corners.len() == 4
    &&& forall|i: int| 0 <= i < 4 ==> (#[trigger] corners[i]).is_numbered(i as nat)
}

/// The eight corners of the cube are numbered as their signs say.
pub open spec fn is_cube_corners(corners: Seq<CornerSigns<3>>) -> bool {
    &&& corners.len() == 8
    &&& forall|i: int| 0 <= i < 8 ==> (#[trigger] corners[i]).is_numbered(i as nat)
}

/// The number of the square corner `c`: digit `j` is set where `c` is negative.
pub open spec fn square_number(c: CornerSigns<2>) -> int {
    (if c.sign(0) == Sign::NEG {
        1int
    } else {
        0int
    }) + (if c.sign(1) == Sign::NEG {
        2int
    } else {
        0int
    })
}

/// The number of the cube corner `c`: digit `j` is set where `c` is negative.
pub open spec fn cube_number(c: CornerSigns<3>) -> int {
    (if c.sign(0) == Sign::NEG {
        1int
    } else {
        0int
    }) + (if c.sign(1) == Sign::NEG {
        2int
    } else {
        0int
    }) + (if c.sign(2) == Sign::NEG {
        4int
    } else {
        0int
    })
}

/// In a numbered corner list, a corner stands at its own number and nowhere else.
pub proof fn lemma_square_corner_position(corners: Seq<CornerSigns<2>>, c: CornerSigns<2>)
    requires
        is_square_corners(corners),
    ensures
        0 <= square_number(c) < 4,
        corners[square_number(c)] == c,
        forall|i: int| 0 <= i < 4 && #[trigger] corners[i] == c ==> i == square_number(c),
{
    lemma_bits_below_eight();
    let n = square_number(c);
    assert(corners[0].is_numbered(0) && corners[1].is_numbered(1) && corners[2].is_numbered(2)
        && corners[3].is_numbered(3));
    assert(corners[n].sign(0) == c.sign(0));
    assert(corners[n].sign(1) == c.sign(1));
    assert(corners[n].0 =~= c.0);
    assert forall|i: int| 0 <= i < 4 && #[trigger] corners[i] == c implies i == n by {
        assert(corners[i].sign(0) == c.sign(0));
        assert(corners[i].sign(1) == c.sign(1));
    }
}

/// In a numbered corner list, a corner stands at its own number and nowhere else.
pub proof fn lemma_cube_corner_position(corners: Seq<CornerSigns<3>>, c: CornerSigns<3>)
    requires
        is_cube_corners(corners),
    ensures
        0 <= cube_number(c) < 8,
        corners[cube_number(c)] == c,
        forall|i: int| 0 <= i < 8 && #[trigger] corners[i] == c ==> i == cube_number(c),
{
    lemma_bits_below_eight();
    let n = cube_number(c);
    assert(corners[0].is_numbered(0) && corners[1].is_numbered(1) && corners[2].is_numbered(2)
        && corners[3].is_numbered(3) && corners[4].is_numbered(4) && corners[5].is_numbered(5)
        && corners[6].is_numbered(6) && corners[7].is_numbered(7));
    assert(corners[n].sign(0) == c.sign(0));
    assert(corners[n].sign(1) == c.sign(1));
    assert(corners[n].sign(2) == c.sign(2));
    assert(corners[n].0 =~= c.0);
    assert forall|i: int| 0 <= i < 8 && #[trigger] corners[i] == c implies i == n by {
        assert(corners[i].sign(0) == c.sign(0));
        assert(corners[i].sign(1) == c.sign(1));
        assert(corners[i].sign(2) == c.sign(2));
    }
}

/// `rows` holds exactly the index tuples `expected`.
pub open spec fn rows_are<const K: usize>(rows: Seq<[usize; K]>, expected: Seq<Seq<int>>) -> bool {
    &&& rows.len() == expected.len()
    &&& forall|i: int, j: int|
        0 <= i < rows.len() && 0 <= j < K ==> (#[trigger] rows[i]@[j]) as int == expected[i][j]
}

/// The two triangles of the square: each corner off the diagonal between the
/// all-negative and the all-positive corner, followed by the corner reached by
/// flipping its first sign and the one reached by flipping its second.
pub open spec fn square_triangles() -> Seq<Seq<int>> {
    seq![seq![1int, 0, 3], seq![2int, 3, 0]]
}

/// The five tetrahedra of the cube: first the central one, spanned by the
/// all-negative corner and the three corners that agree with it along exactly
/// one axis; then each remaining corner with the three corners reached by
/// flipping one of its signs, first sign first.
pub open spec fn cube_tetrahedra() -> Seq<Seq<int>> {
    seq![
        seq![7int, 1, 2, 4],
        seq![0int, 1, 2, 4],
        seq![3int, 2, 1, 7],
        seq![5int, 4, 7, 1],
        seq![6int, 7, 4, 2],
    ]
}

spec fn square_done(i: int) -> int {
    if i <= 1 {
        0
    } else if i == 2 {
        1
    } else {
        2
    }
}

spec fn cube_done(i: int) -> int {
    if i <= 0 {
        1
    } else if i <= 3 {
        2
    } else if i <= 5 {
        3
    } else if i == 6 {
        4
    } else {
        5
    }
}

spec fn diagonal_so_far(corners: Seq<CornerSigns<2>>, i: int) -> Seq<CornerSigns<2>> {
    if i <= 0 {
        seq![corners[3]]
    } else {
        seq![corners[3], corners[0]]
    }
}

spec fn central_so_far(corners: Seq<CornerSigns<3>>, i: int) -> Seq<CornerSigns<3>> {
    seq![corners[7]] + (if i > 1 {
        seq![corners[1]]
    } else {
        Seq::empty()
    }) + (if i > 2 {
        seq![corners[2]]
    } else {
        Seq::empty()
    }) + (if i > 4 {
        seq![corners[4]]
    } else {
        Seq::empty()
    })
}

proof fn lemma_square_signs(corners: Seq<CornerSigns<2>>)
    requires
        is_square_corners(corners),
    ensures
        forall|i: int| 0 <= i < 4 ==> square_number(#[trigger] corners[i]) == i,
{
    lemma_bits_below_eight();
    assert forall|i: int| 0 <= i < 4 implies square_number(#[trigger] corners[i]) == i by {
        assert(corners[i].is_numbered(i as nat));
        assert(corners[i].sign(0) == if bit(i as nat, 0) { Sign::NEG } else { Sign::POS });
        assert(corners[i].sign(1) == if bit(i as nat, 1) { Sign::NEG } else { Sign::POS });
    }
}

proof fn lemma_cube_signs(corners: Seq<CornerSigns<3>>)
    requires
        is_cube_corners(corners),
    ensures
        forall|i: int| 0 <= i < 8 ==> cube_number(#[trigger] corners[i]) == i,
{
    lemma_bits_below_eight();
    assert forall|i: int| 0 <= i < 8 implies cube_number(#[trigger] corners[i]) == i by {
        assert(corners[i].is_numbered(i as nat));
        assert(corners[i].sign(0) == if bit(i as nat, 0) { Sign::NEG } else { Sign::POS });
        assert(corners[i].sign(1) == if bit(i as nat, 1) { Sign::NEG } else { Sign::POS });
        assert(corners[i].sign(2) == if bit(i as nat, 2) { Sign::NEG } else { Sign::POS });
    }
}

/// The corners of the square and its two triangles as triples of corner
/// positions: see [`square_triangles`].
pub fn quad_3D_discrete_vertices() -> (out: (Vec<CornerSigns<2>>, Vec<[usize; 3]>))
    ensures
        is_square_corners(out.0@),
        rows_are(out.1@, square_triangles()),
{
    let corners = CornerSigns::<2>::all();
    proof {
        lemma_bits_below_eight();
        lemma_square_signs(corners@);
    }
    let neg = CornerSigns::<2>::NEG();
    proof {
        lemma_square_corner_position(corners@, neg);
        assert(neg.sign(0) == Sign::NEG && neg.sign(1) == Sign::NEG);
    }
    let mut corners_of_diagonal: Vec<CornerSigns<2>> = Vec::new();
    corners_of_diagonal.push(neg);
    let mut i: usize = 0;
    while i < corners.len()
        invariant
            0 <= i <= 4,
            is_square_corners(corners@),
            forall|t: int| 0 <= t < 4 ==> square_number(#[trigger] corners@[t]) == t,
            corners_of_diagonal@ =~= diagonal_so_far(corners@, i as int),
        decreases 4 - i,
    {
        let corner = corners[i];
        let match_count = corners_of_diagonal[0].match_count(&corner);
        proof {
            reveal_with_fuel(agreeing, 3);
            assert(square_number(corners@[i as int]) == i);
            assert(square_number(corners@[3]) == 3);
        }
        if match_count == 0 {
            corners_of_diagonal.push(corner);
        }
        i += 1;
    }
    let mut indeces: Vec<[usize; 3]> = Vec::new();
    let mut i: usize = 0;
    while i < corners.len()
        invariant
            0 <= i <= 4,
            is_square_corners(corners@),
            forall|t: int| 0 <= t < 4 ==> square_number(#[trigger] corners@[t]) == t,
            corners_of_diagonal@ =~= diagonal_so_far(corners@, 4),
            rows_are(indeces@, square_triangles().subrange(0, square_done(i as int))),
        decreases 4 - i,
    {
        let corner_i = corners[i];
        proof {
            assert(square_number(corners@[i as int]) == i);
            assert(square_number(corners@[3]) == 3);
            assert(square_number(corners@[0]) == 0);
            assert(corners_of_diagonal@[0] == corners@[3]);
            assert(corners_of_diagonal@[1] == corners@[0]);
        }
        if !contains(&corners_of_diagonal, &corner_i) {
            let first = CornerSigns::<2>([corner_i.get(0).neg(), corner_i.get(1)]);
            let second = CornerSigns::<2>([corner_i.get(0), corner_i.get(1).neg()]);
            proof {
                lemma_square_corner_position(corners@, first);
                lemma_square_corner_position(corners@, second);
            }
            let a = index_of(first, &corners);
            let b = index_of(second, &corners);
            let ghost before = indeces@;
            indeces.push([i, a, b]);
            proof {
                let target = square_triangles().subrange(0, square_done(i + 1));
                assert(i == 1 || i == 2);
                assert forall|r: int, c: int|
                    0 <= r < indeces@.len() && 0 <= c < 3 implies (#[trigger] indeces@[r]@[c]) as int
                    == target[r][c] by {
                    if r < before.len() {
                        assert(indeces@[r] == before[r]);
                    }
                }
            }
        }
        i += 1;
    }
    proof {
        assert(square_triangles().subrange(0, 2) =~= square_triangles());
    }
    (corners, indeces)
}

/// The corners of the cube and its five tetrahedra as quadruples of corner
/// positions: see [`cube_tetrahedra`].
pub fn cube_4D_discrete_vertices() -> (out: (Vec<CornerSigns<3>>, Vec<[usize; 4]>))
    ensures
        is_cube_corners(out.0@),
        rows_are(out.1@, cube_tetrahedra()),
{
    let corners = CornerSigns::<3>::all();
    proof {
        lemma_bits_below_eight();
        lemma_cube_signs(corners@);
    }
    let neg = CornerSigns::<3>::NEG();
    proof {
        lemma_cube_corner_position(corners@, neg);
        assert(neg.sign(0) == Sign::NEG && neg.sign(1) == Sign::NEG && neg.sign(2) == Sign::NEG);
    }
    let mut corners_of_central: Vec<CornerSigns<3>> = Vec::new();
    corners_of_central.push(neg);
    let mut i: usize = 0;
    while i < corners.len()
        invariant
            0 <= i <= 8,
            is_cube_corners(corners@),
            forall|t: int| 0 <= t < 8 ==> cube_number(#[trigger] corners@[t]) == t,
            corners_of_central@ =~= central_so_far(corners@, i as int),
        decreases 8 - i,
    {
        let corner = corners[i];
        let match_count = corners_of_central[0].match_count(&corner);
        proof {
            reveal_with_fuel(agreeing, 4);
            assert(cube_number(corners@[i as int]) == i);
            assert(cube_number(corners@[7]) == 7);
        }
        if match_count == 1 {
            corners_of_central.push(corner);
        }
        i += 1;
    }
    proof {
        assert(corners_of_central@ =~= seq![corners@[7], corners@[1], corners@[2], corners@[4]]);
        lemma_cube_corner_position(corners@, corners@[7]);
        lemma_cube_corner_position(corners@, corners@[1]);
        lemma_cube_corner_position(corners@, corners@[2]);
        lemma_cube_corner_position(corners@, corners@[4]);
    }
    let c0 = index_of(corners_of_central[0], &corners);
    let c1 = index_of(corners_of_central[1], &corners);
    let c2 = index_of(corners_of_central[2], &corners);
    let c3 = index_of(corners_of_central[3], &corners);
    let mut indeces: Vec<[usize; 4]> = Vec::new();
    indeces.push([c0, c1, c2, c3]);
    let mut i: usize = 0;
    while i < corners.len()
        invariant
            0 <= i <= 8,
            is_cube_corners(corners@),
            forall|t: int| 0 <= t < 8 ==> cube_number(#[trigger] corners@[t]) == t,
            corners_of_central@ =~= seq![corners@[7], corners@[1], corners@[2], corners@[4]],
            rows_are(indeces@, cube_tetrahedra().subrange(0, cube_done(i as int))),
        decreases 8 - i,
    {
        let corner_i = corners[i];
        proof {
            assert(cube_number(corners@[i as int]) == i);
            assert(cube_number(corners@[7]) == 7);
            assert(cube_number(corners@[1]) == 1);
            assert(cube_number(corners@[2]) == 2);
            assert(cube_number(corners@[4]) == 4);
            assert(corners_of_central@[0] == corners@[7]);
            assert(corners_of_central@[1] == corners@[1]);
            assert(corners_of_central@[2] == corners@[2]);
            assert(corners_of_central@[3] == corners@[4]);
        }
        if !contains(&corners_of_central, &corner_i) {
            let first = CornerSigns::<3>([corner_i.get(0).neg(), corner_i.get(1), corner_i.get(2)]);
            let second = CornerSigns::<3>([corner_i.get(0), corner_i.get(1).neg(), corner_i.get(2)]);
            let third = CornerSigns::<3>([corner_i.get(0), corner_i.get(1), corner_i.get(2).neg()]);
            proof {
                lemma_cube_corner_position(corners@, first);
                lemma_cube_corner_position(corners@, second);
                lemma_cube_corner_position(corners@, third);
            }
            let a = index_of(first, &corners);
            let b = index_of(second, &corners);
            let c = index_of(third, &corners);
            let ghost before = indeces@;
            indeces.push([i, a, b, c]);
            proof {
                let target = cube_tetrahedra().subrange(0, cube_done(i + 1));
                assert(i == 0 || i == 3 || i == 5 || i == 6);
                assert forall|r: int, q: int|
                    0 <= r < indeces@.len() && 0 <= q < 4 implies (#[trigger] indeces@[r]@[q]) as int
                    == target[r][q] by {
                    if r < before.len() {
                        assert(indeces@[r] == before[r]);
                    }
                }
            }
        }
        i += 1;
    }
    proof {
        assert(cube_tetrahedra().subrange(0, 5) =~= cube_tetrahedra());
    }
    (corners, indeces)
}

} // verus!
