//! Finding the first border pair by bisecting the segment between a point
//! where the field is not positive and a point where it is.
use vstd::prelude::*;
use crate::border_pair::{BorderPair3D, BorderPair4D};
use crate::field::{is_positive, is_pure_field, positive_at, sample_field};
use crate::lattice::{abs, half_toward_zero, IVec3, IVec4};

verus! {

/// The lattice point halfway from `a` to `b`. Where the two points differ
/// by at most one along every axis, it is `a` moved onto `b` along the first
/// axis on which they differ; otherwise every coordinate of `a` moves half
/// of the way, rounded toward `a`.
pub open spec fn midpoint3(a: IVec3, b: IVec3) -> IVec3 {
    if abs(b.x - a.x) <= 1 && abs(b.y - a.y) <= 1 && abs(b.z - a.z) <= 1 {
        if a.x != b.x {
            IVec3 { x: b.x, ..a }
        } else if a.y != b.y {
            IVec3 { y: b.y, ..a }
        } else {
            IVec3 { z: b.z, ..a }
        }
    } else {
        IVec3 {
            x: (a.x + half_toward_zero(b.x - a.x)) as i32,
            y: (a.y + half_toward_zero(b.y - a.y)) as i32,
            z: (a.z + half_toward_zero(b.z - a.z)) as i32,
        }
    }
}

fn half_step(a: i32, b: i32) -> (m: i32)
    ensures
        m == a + half_toward_zero(b - a),
{
    let d: i64 = b as i64 - a as i64;
    let h: i64 = if d >= 0 {
        d / 2
    } else {
        -((-d) / 2)
    };
    (a as i64 + h) as i32
}

fn within_one(a: i32, b: i32) -> (r: bool)
    ensures
        r == (abs(b - a) <= 1),
{
    let d: i64 = b as i64 - a as i64;
    -1 <= d && d <= 1
}

/// The lattice point halfway from `a` to `b`: see [`midpoint3`].
pub fn ivec3_midpoint(a: IVec3, b: IVec3) -> (m: IVec3)
    ensures
        m == midpoint3(a, b),
{
    if within_one(a.x, b.x) && within_one(a.y, b.y) && within_one(a.z, b.z) {
        if a.x != b.x {
            IVec3 { x: b.x, y: a.y, z: a.z }
        } else if a.y != b.y {
            IVec3 { x: a.x, y: b.y, z: a.z }
        } else {
            IVec3 { x: a.x, y: a.y, z: b.z }
        }
    } else {
        IVec3 { x: half_step(a.x, b.x), y: half_step(a.y, b.y), z: half_step(a.z, b.z) }
    }
}

/// The midpoint of two points more than one step apart is nearer to each of
/// them than they are to one another.
pub proof fn lemma_midpoint_nearer3(a: IVec3, b: IVec3)
    requires
        a.manhattan_distance(b) > 1,
    ensures
        1 <= a.manhattan_distance(midpoint3(a, b)) < a.manhattan_distance(b),
        1 <= midpoint3(a, b).manhattan_distance(b) < a.manhattan_distance(b),
{
}

/// The pair at which the bisection between `negative_point` and
/// `positive_point` ends: while the two are more than one step apart, their
/// midpoint replaces the positive one where the field is positive there, and
/// the negative one where it is not.
pub open spec fn initial_pair3<F: Fn(IVec3) -> u32>(
    field: F,
    negative_point: IVec3,
    positive_point: IVec3,
) -> BorderPair3D
    decreases negative_point.manhattan_distance(positive_point),
{
    if negative_point.manhattan_distance(positive_point) <= 1 {
        BorderPair3D::spec_new(negative_point, positive_point)
    } else {
        let midpoint = midpoint3(negative_point, positive_point);
        if positive_at(field, midpoint) {
            initial_pair3(field, negative_point, midpoint)
        } else {
            initial_pair3(field, midpoint, positive_point)
        }
    }
}

/// The field changes sign between the two points of `pair`.
pub open spec fn crossing3<F: Fn(IVec3) -> u32>(field: F, pair: BorderPair3D) -> bool {
    positive_at(field, pair.A) != positive_at(field, pair.B)
}

/// Bisects from a point where the field is not positive and one where it is
/// down to two neighbouring points between which it changes sign.
pub fn get_initial_border_pair_3D<F: Fn(IVec3) -> u32>(
    normalized_function: &F,
    negative_point: IVec3,
    positive_point: IVec3,
) -> (pair: BorderPair3D)
    requires
        is_pure_field::<IVec3, F>(*normalized_function),
        !positive_at(*normalized_function, negative_point),
        positive_at(*normalized_function, positive_point),
    ensures
        pair == initial_pair3(*normalized_function, negative_point, positive_point),
        pair.wf(),
        crossing3(*normalized_function, pair),
{
    let mut negative_point = negative_point;
    let mut positive_point = positive_point;
    let ghost start_negative = negative_point;
    let ghost start_positive = positive_point;
    while negative_point.manhattan_distance_exec(positive_point) > 1
        invariant
            is_pure_field::<IVec3, F>(*normalized_function),
            !positive_at(*normalized_function, negative_point),
            positive_at(*normalized_function, positive_point),
            initial_pair3(*normalized_function, negative_point, positive_point) == initial_pair3(
                *normalized_function,
                start_negative,
                start_positive,
            ),
        decreases negative_point.manhattan_distance(positive_point),
    {
        let midpoint = ivec3_midpoint(negative_point, positive_point);
        proof {
            lemma_midpoint_nearer3(negative_point, positive_point);
        }
        let midpoint_is_positive = is_positive(sample_field(normalized_function, midpoint));
        if midpoint_is_positive {
            positive_point = midpoint;
        } else {
            negative_point = midpoint;
        }
    }
    proof {
        assert(negative_point != positive_point);
        crate::border_pair::lemma_new_pair3(negative_point, positive_point);
    }
    BorderPair3D::new(negative_point, positive_point)
}

/// The lattice point halfway from `a` to `b`. Where the two points differ
/// by at most one along every axis, it is `a` moved onto `b` along the first
/// axis on which they differ; otherwise every coordinate of `a` moves half
/// of the way, rounded toward `a`.
pub open spec fn midpoint4(a: IVec4, b: IVec4) -> IVec4 {
    if abs(b.x - a.x) <= 1 && abs(b.y - a.y) <= 1 && abs(b.z - a.z) <= 1 && abs(b.w - a.w) <= 1 {
        if a.x != b.x {
            IVec4 { x: b.x, ..a }
        } else if a.y != b.y {
            IVec4 { y: b.y, ..a }
        } else if a.z != b.z {
            IVec4 { z: b.z, ..a }
        } else {
            IVec4 { w: b.w, ..a }
        }
    } else {
        IVec4 {
            x: (a.x + half_toward_zero(b.x - a.x)) as i32,
            y: (a.y + half_toward_zero(b.y - a.y)) as i32,
            z: (a.z + half_toward_zero(b.z - a.z)) as i32,
            w: (a.w + half_toward_zero(b.w - a.w)) as i32,
        }
    }
}

/// The lattice point halfway from `a` to `b`: see [`midpoint4`].
pub fn ivec4_midpoint(a: IVec4, b: IVec4) -> (m: IVec4)
    ensures
        m == midpoint4(a, b),
{
    if within_one(a.x, b.x) && within_one(a.y, b.y) && within_one(a.z, b.z) && within_one(
        a.w,
        b.w,
    ) {
        if a.x != b.x {
            IVec4 { x: b.x, y: a.y, z: a.z, w: a.w }
        } else if a.y != b.y {
            IVec4 { x: a.x, y: b.y, z: a.z, w: a.w }
        } else if a.z != b.z {
            IVec4 { x: a.x, y: a.y, z: b.z, w: a.w }
        } else {
            IVec4 { x: a.x, y: a.y, z: a.z, w: b.w }
        }
    } else {
        IVec4 {
            x: half_step(a.x, b.x),
            y: half_step(a.y, b.y),
            z: half_step(a.z, b.z),
            w: half_step(a.w, b.w),
        }
    }
}

/// The midpoint of two points more than one step apart is nearer to each of
/// them than they are to one another.
pub proof fn lemma_midpoint_nearer4(a: IVec4, b: IVec4)
    requires
        a.manhattan_distance(b) > 1,
    ensures
        1 <= a.manhattan_distance(midpoint4(a, b)) < a.manhattan_distance(b),
        1 <= midpoint4(a, b).manhattan_distance(b) < a.manhattan_distance(b),
{
}

/// The pair at which the bisection between `negative_point` and
/// `positive_point` ends: while the two are more than one step apart, their
/// midpoint replaces the positive one where the field is positive there, and
/// the negative one where it is not.
pub open spec fn initial_pair4<F: Fn(IVec4) -> u32>(
    field: F,
    negative_point: IVec4,
    positive_point: IVec4,
) -> BorderPair4D
    decreases negative_point.manhattan_distance(positive_point),
{
    if negative_point.manhattan_distance(positive_point) <= 1 {
        BorderPair4D::spec_new(negative_point, positive_point)
    } else {
        let midpoint = midpoint4(negative_point, positive_point);
        if positive_at(field, midpoint) {
            initial_pair4(field, negative_point, midpoint)
        } else {
            initial_pair4(field, midpoint, positive_point)
        }
    }
}

/// The field changes sign between the two points of `pair`.
pub open spec fn crossing4<F: Fn(IVec4) -> u32>(field: F, pair: BorderPair4D) -> bool {
    positive_at(field, pair.A) != positive_at(field, pair.B)
}

/// Bisects from a point where the field is not positive and one where it is
/// down to two neighbouring points between which it changes sign.
pub fn get_initial_border_pair_4D<F: Fn(IVec4) -> u32>(
    normalized_function: &F,
    negative_point: IVec4,
    positive_point: IVec4,
) -> (pair: BorderPair4D)
    requires
        is_pure_field::<IVec4, F>(*normalized_function),
        !positive_at(*normalized_function, negative_point),
        positive_at(*normalized_function, positive_point),
    ensures
        pair == initial_pair4(*normalized_function, negative_point, positive_point),
        pair.wf(),
        crossing4(*normalized_function, pair),
{
    let mut negative_point = negative_point;
    let mut positive_point = positive_point;
    let ghost start_negative = negative_point;
    let ghost start_positive = positive_point;
    while negative_point.manhattan_distance_exec(positive_point) > 1
        invariant
            is_pure_field::<IVec4, F>(*normalized_function),
            !positive_at(*normalized_function, negative_point),
            positive_at(*normalized_function, positive_point),
            initial_pair4(*normalized_function, negative_point, positive_point) == initial_pair4(
                *normalized_function,
                start_negative,
                start_positive,
            ),
        decreases negative_point.manhattan_distance(positive_point),
    {
        let midpoint = ivec4_midpoint(negative_point, positive_point);
        proof {
            lemma_midpoint_nearer4(negative_point, positive_point);
        }
        let midpoint_is_positive = is_positive(sample_field(normalized_function, midpoint));
        if midpoint_is_positive {
            positive_point = midpoint;
        } else {
            negative_point = midpoint;
        }
    }
    proof {
        assert(negative_point != positive_point);
        crate::border_pair::lemma_new_pair4(negative_point, positive_point);
    }
    BorderPair4D::new(negative_point, positive_point)
}


} // verus!
