//! The part of placing a vertex inside a lattice cell that is decided on the
//! lattice: which edges of the cell the surface crosses, and the samples at
//! their ends.
use vstd::prelude::*;
use crate::field::{is_positive, is_positive_bits};
use crate::isosurface::{cell_sampled3, cell_sampled4};
use crate::lattice::{IVec3, IVec4};
use crate::sample_cloud::{key_of3, key_of4, SampleCloud3D, SampleCloud4D};

verus! {

/// The lower end, relative to the corner of the cell, of edge `e` of the
/// four edges of a cell that run along `axis`.
pub open spec fn edge_start3(e: int, axis: int) -> IVec3 {
    if axis == 0 {
        IVec3 { x: 0, y: (e / 2) as i32, z: (e % 2) as i32 }
    } else if axis == 1 {
        IVec3 { x: (e / 2) as i32, y: 0, z: (e % 2) as i32 }
    } else {
        IVec3 { x: (e / 2) as i32, y: (e % 2) as i32, z: 0 }
    }
}

/// The samples at the lower and the upper end of each of the four edges of
/// the cell at `cell` that run along `axis`.
pub open spec fn edge_samples3(samples: Map<u128, u32>, cell: IVec3, axis: int) -> Seq<(u32, u32)> {
    Seq::new(
        4,
        |e: int|
            (
                samples[key_of3(edge_start3(e, axis).spec_plus(cell))],
                samples[key_of3(edge_start3(e, axis).spec_plus(IVec3::unit(axis)).spec_plus(cell))],
            ),
    )
}

/// Holds of two samples of which exactly one is positive.
pub open spec fn sign_change() -> spec_fn((u32, u32)) -> bool {
    |ends: (u32, u32)| is_positive_bits(ends.0) != is_positive_bits(ends.1)
}

fn edge_start_exec3(e: usize, axis: usize) -> (start: IVec3)
    requires
        e < 4,
        axis < 3,
    ensures
        start == edge_start3(e as int, axis as int),
{
    let high: i32 = (e / 2) as i32;
    let low: i32 = (e % 2) as i32;
    if axis == 0 {
        IVec3 { x: 0, y: high, z: low }
    } else if axis == 1 {
        IVec3 { x: high, y: 0, z: low }
    } else {
        IVec3 { x: high, y: low, z: 0 }
    }
}

/// The samples at the ends of those edges of the cell along `axis` on which
/// the field changes sign, in the order of the edges.
pub fn crossing_edge_samples_3D(
    sample_cloud: &SampleCloud3D,
    discrete_corner_vertex: IVec3,
    axis: usize,
) -> (crossings: Vec<(u32, u32)>)
    requires
        axis < 3,
        discrete_corner_vertex.x < i32::MAX,
        discrete_corner_vertex.y < i32::MAX,
        discrete_corner_vertex.z < i32::MAX,
        cell_sampled3(sample_cloud.sample_map@, discrete_corner_vertex),
    ensures
        crossings@ == edge_samples3(
            sample_cloud.sample_map@,
            discrete_corner_vertex,
            axis as int,
        ).filter(sign_change()),
{
    let ghost samples = sample_cloud.sample_map@;
    let ghost all = edge_samples3(samples, discrete_corner_vertex, axis as int);
    let mut crossings: Vec<(u32, u32)> = Vec::new();
    let mut e: usize = 0;
    proof {
        reveal(Seq::filter);
        assert(all.subrange(0, 0) =~= Seq::<(u32, u32)>::empty());
    }
    while e < 4
        invariant
            0 <= e <= 4,
            axis < 3,
            discrete_corner_vertex.x < i32::MAX,
            discrete_corner_vertex.y < i32::MAX,
            discrete_corner_vertex.z < i32::MAX,
            samples == sample_cloud.sample_map@,
            cell_sampled3(samples, discrete_corner_vertex),
            all == edge_samples3(samples, discrete_corner_vertex, axis as int),
            crossings@ == all.subrange(0, e as int).filter(sign_change()),
        decreases 4 - e,
    {
        let offset_A = edge_start_exec3(e, axis);
        let offset_B = offset_A.with(axis, 1);
        let point_A = offset_A.plus(discrete_corner_vertex);
        let point_B = offset_B.plus(discrete_corner_vertex);
        proof {
            let cell = discrete_corner_vertex;
            assert(point_A == cell.shifted(offset_A.x as int, offset_A.y as int, offset_A.z as int));
            assert(point_B == cell.shifted(offset_B.x as int, offset_B.y as int, offset_B.z as int));
            assert(samples.contains_key(
                key_of3(cell.shifted(offset_A.x as int, offset_A.y as int, offset_A.z as int)),
            ));
            assert(samples.contains_key(
                key_of3(cell.shifted(offset_B.x as int, offset_B.y as int, offset_B.z as int)),
            ));
            assert(point_A == edge_start3(e as int, axis as int).spec_plus(cell));
            assert(point_B == edge_start3(e as int, axis as int).spec_plus(
                IVec3::unit(axis as int),
            ).spec_plus(cell));
        }
        let value_A = sample_cloud.sample(point_A).unwrap();
        let value_B = sample_cloud.sample(point_B).unwrap();
        proof {
            assert((value_A, value_B) == all[e as int]);
            assert(all.subrange(0, e + 1) =~= all.subrange(0, e as int).push(all[e as int]));
            all.subrange(0, e as int).lemma_filter_push(all[e as int], sign_change());
        }
        if is_positive(value_A) != is_positive(value_B) {
            crossings.push((value_A, value_B));
        }
        e += 1;
    }
    proof {
        assert(all.subrange(0, 4) =~= all);
    }
    crossings
}

/// The lower end, relative to the corner of the cell, of edge `e` of the
/// eight edges of a four-dimensional cell that run along `axis`.
pub open spec fn edge_start4(e: int, axis: int) -> IVec4 {
    if axis == 0 {
        IVec4 { x: 0, y: (e / 4) as i32, z: ((e / 2) % 2) as i32, w: (e % 2) as i32 }
    } else if axis == 1 {
        IVec4 { x: (e / 4) as i32, y: 0, z: ((e / 2) % 2) as i32, w: (e % 2) as i32 }
    } else if axis == 2 {
        IVec4 { x: (e / 4) as i32, y: ((e / 2) % 2) as i32, z: 0, w: (e % 2) as i32 }
    } else {
        IVec4 { x: (e / 4) as i32, y: ((e / 2) % 2) as i32, z: (e % 2) as i32, w: 0 }
    }
}

/// The samples at the lower and the upper end of each of the eight edges of
/// the cell at `cell` that run along `axis`.
pub open spec fn edge_samples4(samples: Map<u128, u32>, cell: IVec4, axis: int) -> Seq<(u32, u32)> {
    Seq::new(
        8,
        |e: int|
            (
                samples[key_of4(edge_start4(e, axis).spec_plus(cell))],
                samples[key_of4(edge_start4(e, axis).spec_plus(IVec4::unit(axis)).spec_plus(cell))],
            ),
    )
}

fn edge_start_exec4(e: usize, axis: usize) -> (start: IVec4)
    requires
        e < 8,
        axis < 4,
    ensures
        start == edge_start4(e as int, axis as int),
{
    let high: i32 = (e / 4) as i32;
    let mid: i32 = ((e / 2) % 2) as i32;
    let low: i32 = (e % 2) as i32;
    if axis == 0 {
        IVec4 { x: 0, y: high, z: mid, w: low }
    } else if axis == 1 {
        IVec4 { x: high, y: 0, z: mid, w: low }
    } else if axis == 2 {
        IVec4 { x: high, y: mid, z: 0, w: low }
    } else {
        IVec4 { x: high, y: mid, z: low, w: 0 }
    }
}

/// The samples at the ends of those edges of the cell along `axis` on which
/// the field changes sign, in the order of the edges.
pub fn crossing_edge_samples_4D(
    sample_cloud: &SampleCloud4D,
    discrete_corner_vertex: IVec4,
    axis: usize,
) -> (crossings: Vec<(u32, u32)>)
    requires
        axis < 4,
        discrete_corner_vertex.x < i32::MAX,
        discrete_corner_vertex.y < i32::MAX,
        discrete_corner_vertex.z < i32::MAX,
        discrete_corner_vertex.w < i32::MAX,
        cell_sampled4(sample_cloud.sample_map@, discrete_corner_vertex),
    ensures
        crossings@ == edge_samples4(
            sample_cloud.sample_map@,
            discrete_corner_vertex,
            axis as int,
        ).filter(sign_change()),
{
    let ghost samples = sample_cloud.sample_map@;
    let ghost all = edge_samples4(samples, discrete_corner_vertex, axis as int);
    let mut crossings: Vec<(u32, u32)> = Vec::new();
    let mut e: usize = 0;
    proof {
        reveal(Seq::filter);
        assert(all.subrange(0, 0) =~= Seq::<(u32, u32)>::empty());
    }
    while e < 8
        invariant
            0 <= e <= 8,
            axis < 4,
            discrete_corner_vertex.x < i32::MAX,
            discrete_corner_vertex.y < i32::MAX,
            discrete_corner_vertex.z < i32::MAX,
            discrete_corner_vertex.w < i32::MAX,
            samples == sample_cloud.sample_map@,
            cell_sampled4(samples, discrete_corner_vertex),
            all == edge_samples4(samples, discrete_corner_vertex, axis as int),
            crossings@ == all.subrange(0, e as int).filter(sign_change()),
        decreases 8 - e,
    {
        let offset_A = edge_start_exec4(e, axis);
        let offset_B = offset_A.with(axis, 1);
        let point_A = offset_A.plus(discrete_corner_vertex);
        let point_B = offset_B.plus(discrete_corner_vertex);
        proof {
            let cell = discrete_corner_vertex;
            assert(point_A == cell.shifted(
                offset_A.x as int,
                offset_A.y as int,
                offset_A.z as int,
                offset_A.w as int,
            ));
            assert(point_B == cell.shifted(
                offset_B.x as int,
                offset_B.y as int,
                offset_B.z as int,
                offset_B.w as int,
            ));
            assert(samples.contains_key(
                key_of4(
                    cell.shifted(
                        offset_A.x as int,
                        offset_A.y as int,
                        offset_A.z as int,
                        offset_A.w as int,
                    ),
                ),
            ));
            assert(samples.contains_key(
                key_of4(
                    cell.shifted(
                        offset_B.x as int,
                        offset_B.y as int,
                        offset_B.z as int,
                        offset_B.w as int,
                    ),
                ),
            ));
            assert(point_A == edge_start4(e as int, axis as int).spec_plus(cell));
            assert(point_B == edge_start4(e as int, axis as int).spec_plus(
                IVec4::unit(axis as int),
            ).spec_plus(cell));
        }
        let value_A = sample_cloud.sample(point_A).unwrap();
        let value_B = sample_cloud.sample(point_B).unwrap();
        proof {
            assert((value_A, value_B) == all[e as int]);
            assert(all.subrange(0, e + 1) =~= all.subrange(0, e as int).push(all[e as int]));
            all.subrange(0, e as int).lemma_filter_push(all[e as int], sign_change());
        }
        if is_positive(value_A) != is_positive(value_B) {
            crossings.push((value_A, value_B));
        }
        e += 1;
    }
    proof {
        assert(all.subrange(0, 8) =~= all);
    }
    crossings
}

} // verus!
