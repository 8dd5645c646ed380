//! The search for all border pairs of one connected piece of the surface,
//! with the samples of the field that it takes on the way.
use vstd::prelude::*;
use std::collections::{HashMap, HashSet};
use crate::border_pair::{
    box_points3, box_points4, in_box3, in_box4, lemma_box_covered3, lemma_box_covered4,
    lemma_neighbor_pairs_are_block_pairs3, lemma_neighbor_pairs_are_block_pairs4, neighbor_pairs3,
    neighbor_pairs4, neighbor_points3, neighbor_points4, off_parent3, off_parent4, pairs_in_box3,
    pairs_in_box4,
    parent_pair3, parent_pair4, BorderPair3D, BorderPair3DRelativeNeighborSet, BorderPair4D,
    BorderPair4DRelativeNeighborSet,
};
use crate::field::{field_value, is_positive, is_pure_field, positive_at, sample_field};
use crate::initial_border_pair::{
    crossing3, crossing4, get_initial_border_pair_3D, get_initial_border_pair_4D, initial_pair3,
    initial_pair4,
};
use crate::lattice::{lemma_key3_injective, lemma_key4_injective, IVec3, IVec4};

verus! {

broadcast use vstd::std_specs::hash::group_hash_axioms;

/// The samples taken of a field and the border pairs found.
#[derive(Clone, Debug)]
pub struct SampleCloud3D {
    /// The samples, each under the key of its lattice point.
    pub sample_map: HashMap<u128, u32>,
    /// Pairs of neighbouring points between which the field changes sign.
    pub border_pairs: Vec<BorderPair3D>,
}

/// The key under which the sample at `p` is kept.
pub open spec fn key_of3(p: IVec3) -> u128 {
    p.key() as u128
}

/// Every sample kept in `samples` is the value of the field at its point.
pub open spec fn samples_agree3<F: Fn(IVec3) -> u32>(field: F, samples: Map<u128, u32>) -> bool {
    forall|p: IVec3|
        samples.contains_key(#[trigger] key_of3(p)) ==> samples[key_of3(p)] == field_value(field, p)
}

/// All eighteen points of the block around `pair` have been sampled.
pub open spec fn box_sampled3(samples: Map<u128, u32>, pair: BorderPair3D) -> bool {
    forall|k: int|
        0 <= k < 18 ==> samples.contains_key(
            key_of3((#[trigger] box_points3(pair.axis_index as int)[k]).spec_plus(pair.A)),
        )
}

/// Point number `k` of the block around `pair`.
pub open spec fn block_point3(pair: BorderPair3D, k: int) -> IVec3 {
    box_points3(pair.axis_index as int)[k].spec_plus(pair.A)
}

/// `key` is the key of a point of the block around one of the pairs.
pub open spec fn is_block_key3(key: u128, pairs: Seq<BorderPair3D>) -> bool {
    exists|i: int, k: int|
        0 <= i < pairs.len() && 0 <= k < 18 && key == key_of3(#[trigger] block_point3(pairs[i], k))
}

/// Nothing is sampled but points of the blocks around the pairs: the search
/// looks at the field next to the surface and nowhere else.
pub open spec fn sampled_near_pairs3(samples: Map<u128, u32>, pairs: Seq<BorderPair3D>) -> bool {
    forall|key: u128| samples.contains_key(key) ==> is_block_key3(key, pairs)
}

/// Candidate number `k` around `pair`.
pub open spec fn neighbor_of3(pair: BorderPair3D, k: int) -> BorderPair3D {
    neighbor_pairs3(pair.axis_index as int)[k].moved_by(pair.A)
}

/// `next` is one of the candidates around `pair`.
pub open spec fn is_neighbor_pair3(pair: BorderPair3D, next: BorderPair3D) -> bool {
    exists|k: int|
        0 <= k < neighbor_pairs3(pair.axis_index as int).len() && next == #[trigger] neighbor_of3(
            pair,
            k,
        )
}

/// A walk over the surface: border pairs between whose points the field
/// changes sign, each one a candidate around the one before it.
pub open spec fn is_surface_path3<F: Fn(IVec3) -> u32>(field: F, path: Seq<BorderPair3D>) -> bool {
    &&& path.len() > 0
    &&& forall|i: int| 0 <= i < path.len() ==> (#[trigger] path[i]).wf() && crossing3(field, path[i])
    &&& forall|i: int|
        0 <= i < path.len() - 1 ==> (#[trigger] path[i]).A.is_inner() && is_neighbor_pair3(
            path[i],
            path[i + 1],
        )
}

/// `pair` can be walked to from `start` over the surface.
pub open spec fn reachable3<F: Fn(IVec3) -> u32>(
    field: F,
    start: BorderPair3D,
    pair: BorderPair3D,
) -> bool {
    exists|path: Seq<BorderPair3D>|
        #[trigger] is_surface_path3(field, path) && path[0] == start && path.last() == pair
}

/// The block around `pair` is sampled, and every candidate around it
/// between whose points the field changes sign is among `found`.
pub open spec fn settled3<F: Fn(IVec3) -> u32>(
    field: F,
    samples: Map<u128, u32>,
    pair: BorderPair3D,
    found: Seq<BorderPair3D>,
) -> bool {
    &&& pair.A.is_inner()
    &&& box_sampled3(samples, pair)
    &&& forall|k: int|
        0 <= k < neighbor_pairs3(pair.axis_index as int).len() && crossing3(
            field,
            #[trigger] neighbor_of3(pair, k),
        ) ==> found.contains(neighbor_of3(pair, k))
}

/// What the search hands back when it succeeds: exactly the border pairs
/// that can be walked to from `start`, each once, each with its block
/// sampled, and samples that are values of the field, taken at the points of
/// those blocks and nowhere else.
pub open spec fn is_surface_component3<F: Fn(IVec3) -> u32>(
    field: F,
    start: BorderPair3D,
    cloud: SampleCloud3D,
) -> bool {
    &&& cloud.border_pairs@.no_duplicates()
    &&& forall|pair: BorderPair3D|
        cloud.border_pairs@.contains(pair) <==> reachable3(field, start, pair)
    &&& forall|i: int|
        0 <= i < cloud.border_pairs@.len() ==> {
            &&& (#[trigger] cloud.border_pairs@[i]).wf()
            &&& cloud.border_pairs@[i].A.is_inner()
            &&& crossing3(field, cloud.border_pairs@[i])
            &&& box_sampled3(cloud.sample_map@, cloud.border_pairs@[i])
        }
    &&& samples_agree3(field, cloud.sample_map@)
    &&& sampled_near_pairs3(cloud.sample_map@, cloud.border_pairs@)
}

/// The start can be walked to from itself.
pub proof fn lemma_reachable_start3<F: Fn(IVec3) -> u32>(field: F, start: BorderPair3D)
    requires
        start.wf(),
        crossing3(field, start),
    ensures
        reachable3(field, start, start),
{
    let path = seq![start];
    assert(is_surface_path3(field, path));
    assert(path[0] == start && path.last() == start);
}

/// A candidate around a pair that can be walked to can be walked to.
pub proof fn lemma_reachable_step3<F: Fn(IVec3) -> u32>(
    field: F,
    start: BorderPair3D,
    pair: BorderPair3D,
    k: int,
)
    requires
        reachable3(field, start, pair),
        pair.A.is_inner(),
        0 <= k < neighbor_pairs3(pair.axis_index as int).len(),
        neighbor_of3(pair, k).wf(),
        crossing3(field, neighbor_of3(pair, k)),
    ensures
        reachable3(field, start, neighbor_of3(pair, k)),
{
    let path = choose|path: Seq<BorderPair3D>|
        #[trigger] is_surface_path3(field, path) && path[0] == start && path.last() == pair;
    let next = neighbor_of3(pair, k);
    let longer = path.push(next);
    assert forall|i: int| 0 <= i < longer.len() implies (#[trigger] longer[i]).wf() && crossing3(
        field,
        longer[i],
    ) by {
        if i < path.len() {
            assert(longer[i] == path[i]);
        }
    }
    assert forall|i: int| 0 <= i < longer.len() - 1 implies (#[trigger] longer[i]).A.is_inner()
        && is_neighbor_pair3(longer[i], longer[i + 1]) by {
        assert(longer[i] == path[i]);
        if i < path.len() - 1 {
            assert(longer[i + 1] == path[i + 1]);
            assert(path[i].A.is_inner() && is_neighbor_pair3(path[i], path[i + 1]));
        } else {
            assert(longer[i] == pair);
            assert(longer[i + 1] == next);
        }
    }
    assert(is_surface_path3(field, longer));
    assert(longer[0] == start && longer.last() == next);
}

/// A list that holds the start and is settled throughout holds every pair
/// that can be walked to.
pub proof fn lemma_settled_holds_reachable3<F: Fn(IVec3) -> u32>(
    field: F,
    samples: Map<u128, u32>,
    start: BorderPair3D,
    found: Seq<BorderPair3D>,
    path: Seq<BorderPair3D>,
)
    requires
        found.contains(start),
        forall|i: int| 0 <= i < found.len() ==> settled3(field, samples, #[trigger] found[i], found),
        is_surface_path3(field, path),
        path[0] == start,
    ensures
        found.contains(path.last()),
    decreases path.len(),
{
    if path.len() > 1 {
        let head = path.drop_last();
        assert(is_surface_path3(field, head)) by {
            assert forall|i: int| 0 <= i < head.len() implies (#[trigger] head[i]).wf()
                && crossing3(field, head[i]) by {
                assert(head[i] == path[i]);
            }
            assert forall|i: int| 0 <= i < head.len() - 1 implies (#[trigger] head[i]).A.is_inner()
                && is_neighbor_pair3(head[i], head[i + 1]) by {
                assert(head[i] == path[i]);
                assert(head[i + 1] == path[i + 1]);
                assert(path[i].A.is_inner() && is_neighbor_pair3(path[i], path[i + 1]));
            }
        }
        lemma_settled_holds_reachable3(field, samples, start, found, head);
        let before = head.last();
        let last = path.last();
        assert(before == path[path.len() - 2]);
        assert(path[path.len() - 2].A.is_inner() && is_neighbor_pair3(
            path[path.len() - 2],
            path[path.len() - 2 + 1],
        ));
        let k = choose|k: int|
            0 <= k < neighbor_pairs3(before.axis_index as int).len() && last == #[trigger] neighbor_of3(
                before,
                k,
            );
        let j = choose|j: int| 0 <= j < found.len() && found[j] == before;
        assert(settled3(field, samples, found[j], found));
        assert(crossing3(field, path[path.len() - 1]));
        assert(found.contains(neighbor_of3(before, k)));
    }
}

/// Pairs stay settled when more is sampled and more is found.
pub proof fn lemma_settled_monotone3<F: Fn(IVec3) -> u32>(
    field: F,
    samples: Map<u128, u32>,
    more_samples: Map<u128, u32>,
    pair: BorderPair3D,
    found: Seq<BorderPair3D>,
    more_found: Seq<BorderPair3D>,
)
    requires
        settled3(field, samples, pair, found),
        forall|key: u128| samples.contains_key(key) ==> more_samples.contains_key(key),
        forall|other: BorderPair3D| found.contains(other) ==> more_found.contains(other),
    ensures
        settled3(field, more_samples, pair, more_found),
{
    assert forall|k: int| 0 <= k < 18 implies more_samples.contains_key(
        key_of3((#[trigger] box_points3(pair.axis_index as int)[k]).spec_plus(pair.A)),
    ) by {
        assert(samples.contains_key(
            key_of3(box_points3(pair.axis_index as int)[k].spec_plus(pair.A)),
        ));
    }
}

/// What a sequence holds, it still holds after a push, and it holds what was pushed.
pub proof fn lemma_push_contains<T>(s: Seq<T>, x: T)
    ensures
        s.push(x).contains(x),
        forall|y: T| s.contains(y) ==> s.push(x).contains(y),
{
    assert(s.push(x)[s.len() as int] == x);
    assert forall|y: T| s.contains(y) implies s.push(x).contains(y) by {
        let i = choose|i: int| 0 <= i < s.len() && s[i] == y;
        assert(s.push(x)[i] == y);
    }
}

/// The border pairs found so far, findable by lower point and axis.
struct PairSet3D {
    along_x: HashSet<u128>,
    along_y: HashSet<u128>,
    along_z: HashSet<u128>,
}

impl PairSet3D {
    spec fn has(&self, pair: BorderPair3D) -> bool {
        if pair.axis_index == 0 {
            self.along_x@.contains(key_of3(pair.A))
        } else if pair.axis_index == 1 {
            self.along_y@.contains(key_of3(pair.A))
        } else {
            self.along_z@.contains(key_of3(pair.A))
        }
    }

    fn new() -> (set: Self)
        ensures
            forall|pair: BorderPair3D| !set.has(pair),
    {
        PairSet3D { along_x: HashSet::new(), along_y: HashSet::new(), along_z: HashSet::new() }
    }

    fn contains(&self, pair: &BorderPair3D) -> (found: bool)
        ensures
            found == self.has(*pair),
    {
        let key: u128 = pair.A.key_exec();
        if pair.axis_index == 0 {
            self.along_x.contains(&key)
        } else if pair.axis_index == 1 {
            self.along_y.contains(&key)
        } else {
            self.along_z.contains(&key)
        }
    }

    fn insert(&mut self, pair: &BorderPair3D)
        requires
            pair.wf(),
        ensures
            forall|other: BorderPair3D|
                other.wf() ==> (final(self).has(other) <==> old(self).has(other) || other == *pair),
    {
        let key: u128 = pair.A.key_exec();
        if pair.axis_index == 0 {
            self.along_x.insert(key);
        } else if pair.axis_index == 1 {
            self.along_y.insert(key);
        } else {
            self.along_z.insert(key);
        }
        proof {
            assert forall|other: BorderPair3D| other.wf() implies (self.has(other) <==> old(
                self,
            ).has(other) || other == *pair) by {
                if key_of3(other.A) == key_of3(pair.A) {
                    lemma_key3_injective(other.A, pair.A);
                }
            }
        }
    }
}

/// Samples the field at `p` unless a sample is already kept.
fn ensure_sampled3<F: Fn(IVec3) -> u32>(field: &F, sample_map: &mut HashMap<u128, u32>, p: IVec3)
    requires
        is_pure_field::<IVec3, F>(*field),
        samples_agree3(*field, old(sample_map)@),
    ensures
        samples_agree3(*field, final(sample_map)@),
        final(sample_map)@.contains_key(key_of3(p)),
        forall|key: u128| old(sample_map)@.contains_key(key) ==> final(sample_map)@.contains_key(key),
        forall|key: u128|
            final(sample_map)@.contains_key(key) ==> old(sample_map)@.contains_key(key) || key
                == key_of3(p),
{
    let key: u128 = p.key_exec();
    if !sample_map.contains_key(&key) {
        let value = sample_field(field, p);
        sample_map.insert(key, value);
        proof {
            assert forall|q: IVec3| sample_map@.contains_key(#[trigger] key_of3(q)) implies sample_map@[key_of3(
                q,
            )] == field_value(*field, q) by {
                if key_of3(q) == key {
                    lemma_key3_injective(q, p);
                }
            }
        }
    }
}

/// Whether the kept sample at `p` is positive.
fn sampled_sign3<F: Fn(IVec3) -> u32>(
    field: &F,
    sample_map: &HashMap<u128, u32>,
    p: IVec3,
) -> (positive: bool)
    requires
        samples_agree3(*field, sample_map@),
        sample_map@.contains_key(key_of3(p)),
    ensures
        positive == positive_at(*field, p),
{
    let key: u128 = p.key_exec();
    let value = sample_map.get(&key);
    match value {
        Some(bits) => is_positive(*bits),
        None => false,
    }
}

impl SampleCloud3D {
    /// The sample kept for `p`, if there is one.
    pub fn sample(&self, p: IVec3) -> (value: Option<u32>)
        ensures
            value == if self.sample_map@.contains_key(key_of3(p)) {
                Some(self.sample_map@[key_of3(p)])
            } else {
                None
            },
    {
        let key: u128 = p.key_exec();
        match self.sample_map.get(&key) {
            Some(bits) => Some(*bits),
            None => None,
        }
    }
}

/// The facts that the search keeps about the pairs found so far.
spec fn search_state3<F: Fn(IVec3) -> u32>(
    field: F,
    start: BorderPair3D,
    samples: Map<u128, u32>,
    found: Seq<BorderPair3D>,
    seen: PairSet3D,
) -> bool {
    &&& samples_agree3(field, samples)
    &&& found.no_duplicates()
    &&& found.len() > 0
    &&& found[0] == start
    &&& forall|i: int|
        0 <= i < found.len() ==> {
            &&& (#[trigger] found[i]).wf()
            &&& crossing3(field, found[i])
            &&& reachable3(field, start, found[i])
            &&& samples.contains_key(key_of3(found[i].A))
            &&& samples.contains_key(key_of3(found[i].B))
        }
    &&& forall|pair: BorderPair3D| pair.wf() ==> (seen.has(pair) <==> found.contains(pair))
}

/// Every pair found is still waiting, is the one in hand, or is settled.
spec fn all_accounted3<F: Fn(IVec3) -> u32>(
    field: F,
    samples: Map<u128, u32>,
    found: Seq<BorderPair3D>,
    waiting: Seq<BorderPair3D>,
    in_hand: Option<BorderPair3D>,
) -> bool {
    forall|i: int|
        0 <= i < found.len() ==> waiting.contains(#[trigger] found[i]) || in_hand == Some(found[i])
            || settled3(field, samples, found[i], found)
}

/// A key of a block around one of some pairs is one around one of more pairs.
proof fn lemma_block_key_more3(key: u128, pairs: Seq<BorderPair3D>, more: Seq<BorderPair3D>)
    requires
        is_block_key3(key, pairs),
        forall|i: int| 0 <= i < pairs.len() ==> more.contains(#[trigger] pairs[i]),
    ensures
        is_block_key3(key, more),
{
    let (i, k) = choose|i: int, k: int|
        0 <= i < pairs.len() && 0 <= k < 18 && key == key_of3(#[trigger] block_point3(pairs[i], k));
    assert(more.contains(pairs[i]));
    let j = choose|j: int| 0 <= j < more.len() && more[j] == pairs[i];
    assert(key == key_of3(block_point3(more[j], k)));
}

/// What is sampled near some pairs is sampled near more pairs.
proof fn lemma_sampled_near_more3(
    samples: Map<u128, u32>,
    pairs: Seq<BorderPair3D>,
    more: Seq<BorderPair3D>,
)
    requires
        sampled_near_pairs3(samples, pairs),
        forall|i: int| 0 <= i < pairs.len() ==> more.contains(#[trigger] pairs[i]),
    ensures
        sampled_near_pairs3(samples, more),
{
    assert forall|key: u128| samples.contains_key(key) implies is_block_key3(key, more) by {
        lemma_block_key_more3(key, pairs, more);
    }
}

/// Every pair that waits has been found.
spec fn waiting_found3(waiting: Seq<BorderPair3D>, found: Seq<BorderPair3D>) -> bool {
    forall|j: int| 0 <= j < waiting.len() ==> found.contains(#[trigger] waiting[j])
}

/// Samples the points around `pair` that are not sampled yet.
fn sample_block3<F: Fn(IVec3) -> u32>(
    field: &F,
    sample_map: &mut HashMap<u128, u32>,
    relative_neighbors: &BorderPair3DRelativeNeighborSet,
    pair: BorderPair3D,
)
    requires
        is_pure_field::<IVec3, F>(*field),
        samples_agree3(*field, old(sample_map)@),
        relative_neighbors.wf(),
        relative_neighbors.spec_axis() == pair.axis_index,
        pair.wf(),
        pair.A.is_inner(),
        old(sample_map)@.contains_key(key_of3(pair.A)),
        old(sample_map)@.contains_key(key_of3(pair.B)),
    ensures
        samples_agree3(*field, final(sample_map)@),
        forall|key: u128| old(sample_map)@.contains_key(key) ==> final(sample_map)@.contains_key(key),
        forall|key: u128|
            final(sample_map)@.contains_key(key) ==> old(sample_map)@.contains_key(key)
                || is_block_key3(key, seq![pair]),
        box_sampled3(final(sample_map)@, pair),
{
    let ghost axis = pair.axis_index as int;
    let ghost samples_before = sample_map@;
    let points = relative_neighbors.absolute_points(pair);
    let mut n: usize = 0;
    while n < points.len()
        invariant
            0 <= n <= points@.len(),
            is_pure_field::<IVec3, F>(*field),
            samples_agree3(*field, sample_map@),
            forall|key: u128| samples_before.contains_key(key) ==> sample_map@.contains_key(key),
            forall|t: int| 0 <= t < n ==> sample_map@.contains_key(key_of3(#[trigger] points@[t])),
            forall|key: u128|
                sample_map@.contains_key(key) ==> samples_before.contains_key(key) || exists|t: int|
                    0 <= t < n && key == key_of3(#[trigger] points@[t]),
        decreases points@.len() - n,
    {
        let point = points[n];
        let ghost samples_then = sample_map@;
        ensure_sampled3(field, sample_map, point);
        proof {
            assert forall|key: u128| sample_map@.contains_key(key) implies samples_before.contains_key(
                key,
            ) || exists|t: int| 0 <= t < n + 1 && key == key_of3(#[trigger] points@[t]) by {
                if samples_then.contains_key(key) {
                    if !samples_before.contains_key(key) {
                        let t = choose|t: int| 0 <= t < n && key == key_of3(#[trigger] points@[t]);
                        assert(0 <= t < n + 1 && key == key_of3(points@[t]));
                    }
                } else {
                    assert(key == key_of3(points@[n as int]));
                }
            }
        }
        n += 1;
    }
    proof {
        lemma_box_covered3(axis);
        let boxed = box_points3(axis);
        let rel_points = neighbor_points3(axis);
        assert forall|k: int| 0 <= k < 18 implies sample_map@.contains_key(
            key_of3((#[trigger] box_points3(pair.axis_index as int)[k]).spec_plus(pair.A)),
        ) by {
            if boxed[k] == IVec3::ZERO() {
                assert(boxed[k].spec_plus(pair.A) == pair.A);
                assert(samples_before.contains_key(key_of3(pair.A)));
            } else if boxed[k] == IVec3::unit(axis) {
                assert(boxed[k].spec_plus(pair.A) == pair.B);
                assert(samples_before.contains_key(key_of3(pair.B)));
            } else {
                assert(rel_points.contains(boxed[k]));
                let t = choose|t: int| 0 <= t < rel_points.len() && rel_points[t] == boxed[k];
                assert(points@[t] == rel_points[t].spec_plus(pair.A));
            }
        }
        let only = seq![pair];
        assert forall|key: u128| sample_map@.contains_key(key) implies samples_before.contains_key(
            key,
        ) || is_block_key3(key, only) by {
            if !samples_before.contains_key(key) {
                let t = choose|t: int| 0 <= t < points@.len() && key == key_of3(#[trigger] points@[t]);
                assert(points@[t] == rel_points[t].spec_plus(pair.A));
                assert(rel_points.contains(rel_points[t]));
                boxed.lemma_filter_contains_rev(off_parent3(axis), rel_points[t]);
                let k = choose|k: int| 0 <= k < boxed.len() && boxed[k] == rel_points[t];
                assert(block_point3(only[0], k) == points@[t]);
            }
        }
    }
}

/// Both points of candidate `c` around `pair` are sampled once the block is.
proof fn lemma_candidate_sampled3(samples: Map<u128, u32>, pair: BorderPair3D, c: int)
    requires
        pair.wf(),
        pair.A.is_inner(),
        box_sampled3(samples, pair),
        pairs_in_box3(neighbor_pairs3(pair.axis_index as int), pair.axis_index as int),
        0 <= c < neighbor_pairs3(pair.axis_index as int).len(),
    ensures
        samples.contains_key(key_of3(neighbor_of3(pair, c).A)),
        samples.contains_key(key_of3(neighbor_of3(pair, c).B)),
{
    let axis = pair.axis_index as int;
    lemma_box_covered3(axis);
    let rel = neighbor_pairs3(axis)[c];
    assert(rel.wf() && in_box3(rel.A, axis) && in_box3(rel.B, axis));
    let boxed = box_points3(axis);
    assert(boxed.contains(rel.A));
    assert(boxed.contains(rel.B));
    let ka = choose|k: int| 0 <= k < boxed.len() && boxed[k] == rel.A;
    let kb = choose|k: int| 0 <= k < boxed.len() && boxed[k] == rel.B;
    assert(samples.contains_key(key_of3(box_points3(pair.axis_index as int)[ka].spec_plus(pair.A))));
    assert(samples.contains_key(key_of3(box_points3(pair.axis_index as int)[kb].spec_plus(pair.A))));
}

/// The state of the search after one more pair was found.
proof fn lemma_found_one_more3<F: Fn(IVec3) -> u32>(
    field: F,
    start: BorderPair3D,
    samples: Map<u128, u32>,
    found: Seq<BorderPair3D>,
    waiting: Seq<BorderPair3D>,
    seen: PairSet3D,
    seen_after: PairSet3D,
    pair: BorderPair3D,
    next: BorderPair3D,
)
    requires
        search_state3(field, start, samples, found, seen),
        waiting_found3(waiting, found),
        all_accounted3(field, samples, found, waiting, Some(pair)),
        next.wf(),
        crossing3(field, next),
        reachable3(field, start, next),
        samples.contains_key(key_of3(next.A)),
        samples.contains_key(key_of3(next.B)),
        !seen.has(next),
        forall|other: BorderPair3D|
            other.wf() ==> (seen_after.has(other) <==> seen.has(other) || other == next),
    ensures
        search_state3(field, start, samples, found.push(next), seen_after),
        waiting_found3(waiting.push(next), found.push(next)),
        all_accounted3(field, samples, found.push(next), waiting.push(next), Some(pair)),
        forall|other: BorderPair3D| found.contains(other) ==> found.push(next).contains(other),
{
    lemma_push_contains(found, next);
    lemma_push_contains(waiting, next);
    let found_now = found.push(next);
    let waiting_now = waiting.push(next);
    assert(!found.contains(next));
    assert forall|i: int| 0 <= i < found_now.len() implies {
        &&& (#[trigger] found_now[i]).wf()
        &&& crossing3(field, found_now[i])
        &&& reachable3(field, start, found_now[i])
        &&& samples.contains_key(key_of3(found_now[i].A))
        &&& samples.contains_key(key_of3(found_now[i].B))
    } by {
        if i < found.len() {
            assert(found_now[i] == found[i]);
        }
    }
    assert forall|other: BorderPair3D| other.wf() implies (seen_after.has(other)
        <==> found_now.contains(other)) by {
        if found_now.contains(other) {
            let i = choose|i: int| 0 <= i < found_now.len() && found_now[i] == other;
            if i < found.len() {
                assert(found[i] == other);
                assert(found.contains(other));
            }
        }
    }
    assert(found_now.no_duplicates()) by {
        assert forall|i: int, j: int|
            0 <= i < found_now.len() && 0 <= j < found_now.len() && i != j implies found_now[i]
            != found_now[j] by {
            if i < found.len() && j < found.len() {
                assert(found[i] != found[j]);
            } else if i < found.len() {
                assert(found[i] == found_now[i]);
                assert(found.contains(found_now[i]));
            } else {
                assert(found[j] == found_now[j]);
                assert(found.contains(found_now[j]));
            }
        }
    }
    assert(found_now[0] == found[0]);
    assert forall|j: int| 0 <= j < waiting_now.len() implies found_now.contains(
        #[trigger] waiting_now[j],
    ) by {
        if j < waiting.len() {
            assert(waiting_now[j] == waiting[j]);
            assert(found.contains(waiting[j]));
        }
    }
    assert forall|i: int| 0 <= i < found_now.len() implies waiting_now.contains(
        #[trigger] found_now[i],
    ) || Some(pair) == Some(found_now[i]) || settled3(field, samples, found_now[i], found_now) by {
        if i < found.len() {
            assert(found_now[i] == found[i]);
            if settled3(field, samples, found[i], found) {
                lemma_settled_monotone3(field, samples, samples, found[i], found, found_now);
            }
        }
    }
}

/// Tests the candidates around `pair` and takes up those between whose
/// points the field changes sign and that were not found before.
fn test_candidates3<F: Fn(IVec3) -> u32>(
    normalized_function: &F,
    Ghost(start): Ghost<BorderPair3D>,
    sample_map: &HashMap<u128, u32>,
    relative_neighbors: &BorderPair3DRelativeNeighborSet,
    pair: BorderPair3D,
    all_border_pairs: &mut Vec<BorderPair3D>,
    unprocessed_border_pairs: &mut Vec<BorderPair3D>,
    seen: &mut PairSet3D,
)
    requires
        relative_neighbors.wf(),
        relative_neighbors.spec_axis() == pair.axis_index,
        pair.wf(),
        pair.A.is_inner(),
        box_sampled3(sample_map@, pair),
        search_state3(*normalized_function, start, sample_map@, old(all_border_pairs)@, *old(seen)),
        sampled_near_pairs3(sample_map@, old(all_border_pairs)@),
        reachable3(*normalized_function, start, pair),
        waiting_found3(old(unprocessed_border_pairs)@, old(all_border_pairs)@),
        all_accounted3(
            *normalized_function,
            sample_map@,
            old(all_border_pairs)@,
            old(unprocessed_border_pairs)@,
            Some(pair),
        ),
    ensures
        search_state3(*normalized_function, start, sample_map@, final(all_border_pairs)@, *final(seen)),
        sampled_near_pairs3(sample_map@, final(all_border_pairs)@),
        waiting_found3(final(unprocessed_border_pairs)@, final(all_border_pairs)@),
        all_accounted3(
            *normalized_function,
            sample_map@,
            final(all_border_pairs)@,
            final(unprocessed_border_pairs)@,
            None::<BorderPair3D>,
        ),
        final(all_border_pairs)@.len() - old(all_border_pairs)@.len()
            == final(unprocessed_border_pairs)@.len() - old(unprocessed_border_pairs)@.len(),
        final(all_border_pairs)@.len() >= old(all_border_pairs)@.len(),
{
    let ghost axis = pair.axis_index as int;
    let candidates = relative_neighbors.absolute_border_pairs(pair);
    let mut c: usize = 0;
    while c < candidates.len()
        invariant
            0 <= c <= candidates@.len(),
            0 <= axis < 3,
            axis == pair.axis_index,
            pair.wf(),
            pair.A.is_inner(),
            box_sampled3(sample_map@, pair),
            pairs_in_box3(neighbor_pairs3(axis), axis),
            candidates@.len() == neighbor_pairs3(axis).len(),
            forall|i: int|
                0 <= i < candidates@.len() ==> #[trigger] candidates@[i] == neighbor_of3(pair, i)
                    && candidates@[i].wf(),
            search_state3(*normalized_function, start, sample_map@, all_border_pairs@, *seen),
            sampled_near_pairs3(sample_map@, all_border_pairs@),
            reachable3(*normalized_function, start, pair),
            waiting_found3(unprocessed_border_pairs@, all_border_pairs@),
            all_accounted3(
                *normalized_function,
                sample_map@,
                all_border_pairs@,
                unprocessed_border_pairs@,
                Some(pair),
            ),
            forall|k: int|
                0 <= k < c && crossing3(*normalized_function, #[trigger] neighbor_of3(pair, k))
                    ==> all_border_pairs@.contains(neighbor_of3(pair, k)),
            all_border_pairs@.len() - old(all_border_pairs)@.len() == unprocessed_border_pairs@.len()
                - old(unprocessed_border_pairs)@.len(),
            all_border_pairs@.len() >= old(all_border_pairs)@.len(),
        decreases candidates@.len() - c,
    {
        let border_pair = candidates[c];
        proof {
            assert(border_pair == neighbor_of3(pair, c as int));
        }
        if !seen.contains(&border_pair) {
            proof {
                lemma_candidate_sampled3(sample_map@, pair, c as int);
            }
            let A_is_positive = sampled_sign3(normalized_function, sample_map, border_pair.A);
            let B_is_positive = sampled_sign3(normalized_function, sample_map, border_pair.B);
            if A_is_positive != B_is_positive {
                let ghost found_then = all_border_pairs@;
                let ghost waiting_then = unprocessed_border_pairs@;
                let ghost seen_then = *seen;
                seen.insert(&border_pair);
                all_border_pairs.push(border_pair);
                unprocessed_border_pairs.push(border_pair);
                proof {
                    lemma_reachable_step3(*normalized_function, start, pair, c as int);
                    lemma_found_one_more3(
                        *normalized_function,
                        start,
                        sample_map@,
                        found_then,
                        waiting_then,
                        seen_then,
                        *seen,
                        pair,
                        border_pair,
                    );
                    lemma_push_contains(found_then, border_pair);
                    assert forall|i: int| 0 <= i < found_then.len() implies all_border_pairs@.contains(
                        #[trigger] found_then[i],
                    ) by {
                        assert(found_then.contains(found_then[i]));
                    }
                    lemma_sampled_near_more3(sample_map@, found_then, all_border_pairs@);
                }
            }
        } else {
            proof {
                assert(all_border_pairs@.contains(border_pair));
            }
        }
        c += 1;
    }
    proof {
        let found_now = all_border_pairs@;
        assert(settled3(*normalized_function, sample_map@, pair, found_now));
        assert forall|i: int| 0 <= i < found_now.len() implies unprocessed_border_pairs@.contains(
            #[trigger] found_now[i],
        ) || None::<BorderPair3D> == Some(found_now[i]) || settled3(
            *normalized_function,
            sample_map@,
            found_now[i],
            found_now,
        ) by {
            if Some(pair) == Some(found_now[i]) {
                assert(found_now[i] == pair);
            }
        }
    }
}

/// The state of the search after the last waiting pair was taken in hand
/// and the points around it were sampled.
proof fn lemma_taken_in_hand3<F: Fn(IVec3) -> u32>(
    field: F,
    start: BorderPair3D,
    samples: Map<u128, u32>,
    more_samples: Map<u128, u32>,
    found: Seq<BorderPair3D>,
    waiting: Seq<BorderPair3D>,
    seen: PairSet3D,
)
    requires
        waiting.len() > 0,
        search_state3(field, start, samples, found, seen),
        waiting_found3(waiting, found),
        all_accounted3(field, samples, found, waiting, None::<BorderPair3D>),
        samples_agree3(field, more_samples),
        forall|key: u128| samples.contains_key(key) ==> more_samples.contains_key(key),
    ensures
        found.contains(waiting.last()),
        waiting.last().wf(),
        reachable3(field, start, waiting.last()),
        samples.contains_key(key_of3(waiting.last().A)),
        samples.contains_key(key_of3(waiting.last().B)),
        search_state3(field, start, more_samples, found, seen),
        waiting_found3(waiting.drop_last(), found),
        all_accounted3(field, more_samples, found, waiting.drop_last(), Some(waiting.last())),
{
    let pair = waiting.last();
    let rest = waiting.drop_last();
    assert(pair == waiting[waiting.len() - 1]);
    assert(found.contains(pair));
    let i0 = choose|i: int| 0 <= i < found.len() && found[i] == pair;
    assert(found[i0].wf());
    assert forall|j: int| 0 <= j < rest.len() implies found.contains(#[trigger] rest[j]) by {
        assert(rest[j] == waiting[j]);
    }
    assert forall|i: int| 0 <= i < found.len() implies rest.contains(#[trigger] found[i]) || Some(
        pair,
    ) == Some(found[i]) || settled3(field, more_samples, found[i], found) by {
        if waiting.contains(found[i]) {
            let j = choose|j: int| 0 <= j < waiting.len() && waiting[j] == found[i];
            if j < waiting.len() - 1 {
                assert(rest[j] == found[i]);
            }
        } else {
            lemma_settled_monotone3(field, samples, more_samples, found[i], found, found);
        }
    }
    assert forall|i: int| 0 <= i < found.len() implies {
        &&& (#[trigger] found[i]).wf()
        &&& crossing3(field, found[i])
        &&& reachable3(field, start, found[i])
        &&& more_samples.contains_key(key_of3(found[i].A))
        &&& more_samples.contains_key(key_of3(found[i].B))
    } by {
        assert(samples.contains_key(key_of3(found[i].A)));
        assert(samples.contains_key(key_of3(found[i].B)));
    }
}

/// A search that has nothing waiting has found exactly what can be walked to.
proof fn lemma_search_done3<F: Fn(IVec3) -> u32>(
    field: F,
    start: BorderPair3D,
    samples: Map<u128, u32>,
    found: Seq<BorderPair3D>,
    seen: PairSet3D,
)
    requires
        search_state3(field, start, samples, found, seen),
        all_accounted3(field, samples, found, Seq::<BorderPair3D>::empty(), None::<BorderPair3D>),
    ensures
        forall|pair: BorderPair3D| found.contains(pair) <==> reachable3(field, start, pair),
        forall|i: int|
            0 <= i < found.len() ==> (#[trigger] found[i]).A.is_inner() && box_sampled3(
                samples,
                found[i],
            ),
{
    let none = Seq::<BorderPair3D>::empty();
    assert(found.contains(start)) by {
        assert(found[0] == start);
    }
    assert forall|i: int| 0 <= i < found.len() implies settled3(
        field,
        samples,
        #[trigger] found[i],
        found,
    ) by {
        if none.contains(found[i]) {
            assert(false);
        }
    }
    assert forall|pair: BorderPair3D| found.contains(pair) <==> reachable3(field, start, pair) by {
        if found.contains(pair) {
            let i = choose|i: int| 0 <= i < found.len() && found[i] == pair;
            assert(reachable3(field, start, found[i]));
        }
        if reachable3(field, start, pair) {
            let path = choose|path: Seq<BorderPair3D>|
                #[trigger] is_surface_path3(field, path) && path[0] == start && path.last() == pair;
            lemma_settled_holds_reachable3(field, samples, start, found, path);
        }
    }
    assert forall|i: int| 0 <= i < found.len() implies (#[trigger] found[i]).A.is_inner()
        && box_sampled3(samples, found[i]) by {
        assert(settled3(field, samples, found[i], found));
    }
}

impl SampleCloud3D {
    /// Searches the surface from the border pair that the bisection between
    /// the two points ends at. Hands back the pairs found and the samples
    /// taken, or the pair at which the search came within two steps of the
    /// end of the `i32` range and gave up.
    pub fn new<F: Fn(IVec3) -> u32>(
        normalized_function: &F,
        negative_point: IVec3,
        positive_point: IVec3,
    ) -> (result: Result<SampleCloud3D, BorderPair3D>)
        requires
            is_pure_field::<IVec3, F>(*normalized_function),
            !positive_at(*normalized_function, negative_point),
            positive_at(*normalized_function, positive_point),
        ensures
            match result {
                Ok(cloud) => is_surface_component3(
                    *normalized_function,
                    initial_pair3(*normalized_function, negative_point, positive_point),
                    cloud,
                ),
                Err(pair) => reachable3(
                    *normalized_function,
                    initial_pair3(*normalized_function, negative_point, positive_point),
                    pair,
                ) && !pair.A.is_inner(),
            },
    {
        let ghost field = *normalized_function;
        let neighbors_x = BorderPair3DRelativeNeighborSet::new(0);
        let neighbors_y = BorderPair3DRelativeNeighborSet::new(1);
        let neighbors_z = BorderPair3DRelativeNeighborSet::new(2);
        let initial_border_pair = get_initial_border_pair_3D(
            normalized_function,
            negative_point,
            positive_point,
        );
        let ghost start = initial_border_pair;
        let mut sample_map: HashMap<u128, u32> = HashMap::new();
        ensure_sampled3(normalized_function, &mut sample_map, initial_border_pair.A);
        ensure_sampled3(normalized_function, &mut sample_map, initial_border_pair.B);
        let mut unprocessed_border_pairs: Vec<BorderPair3D> = Vec::new();
        unprocessed_border_pairs.push(initial_border_pair);
        let mut all_border_pairs: Vec<BorderPair3D> = Vec::new();
        all_border_pairs.push(initial_border_pair);
        let mut seen = PairSet3D::new();
        seen.insert(&initial_border_pair);
        proof {
            lemma_reachable_start3(field, start);
            assert(all_border_pairs@ =~= seq![start]);
            assert(unprocessed_border_pairs@[0] == start);
            assert forall|pair: BorderPair3D| pair.wf() implies (seen.has(pair)
                <==> all_border_pairs@.contains(pair)) by {
                if pair == start {
                    assert(all_border_pairs@[0] == pair);
                }
            }
            assert(all_border_pairs@.contains(start)) by {
                assert(all_border_pairs@[0] == start);
            }
            assert(unprocessed_border_pairs@.contains(start)) by {
                assert(unprocessed_border_pairs@[0] == start);
            }
            let axis = start.axis_index as int;
            lemma_box_covered3(axis);
            let boxed = box_points3(axis);
            assert(in_box3(IVec3::ZERO(), axis) && in_box3(IVec3::unit(axis), axis));
            assert(boxed.contains(IVec3::ZERO()));
            assert(boxed.contains(IVec3::unit(axis)));
            let ka = choose|k: int| 0 <= k < boxed.len() && boxed[k] == IVec3::ZERO();
            let kb = choose|k: int| 0 <= k < boxed.len() && boxed[k] == IVec3::unit(axis);
            assert(block_point3(all_border_pairs@[0], ka) == start.A);
            assert(block_point3(all_border_pairs@[0], kb) == start.B);
            assert forall|key: u128| sample_map@.contains_key(key) implies is_block_key3(
                key,
                all_border_pairs@,
            ) by {
                assert(key == key_of3(start.A) || key == key_of3(start.B));
            }
        }
        while unprocessed_border_pairs.len() > 0
            invariant
                is_pure_field::<IVec3, F>(*normalized_function),
                field == *normalized_function,
                start == initial_pair3(*normalized_function, negative_point, positive_point),
                neighbors_x.wf() && neighbors_x.spec_axis() == 0,
                neighbors_y.wf() && neighbors_y.spec_axis() == 1,
                neighbors_z.wf() && neighbors_z.spec_axis() == 2,
                search_state3(field, start, sample_map@, all_border_pairs@, seen),
                sampled_near_pairs3(sample_map@, all_border_pairs@),
                waiting_found3(unprocessed_border_pairs@, all_border_pairs@),
                all_accounted3(
                    field,
                    sample_map@,
                    all_border_pairs@,
                    unprocessed_border_pairs@,
                    None::<BorderPair3D>,
                ),
            decreases usize::MAX - all_border_pairs@.len(), unprocessed_border_pairs@.len(),
        {
            let ghost found_before = all_border_pairs@;
            let ghost waiting_before = unprocessed_border_pairs@;
            let ghost samples_before = sample_map@;
            proof {
                lemma_taken_in_hand3(
                    field,
                    start,
                    samples_before,
                    samples_before,
                    found_before,
                    waiting_before,
                    seen,
                );
            }
            let pair = unprocessed_border_pairs.pop().unwrap();
            proof {
                assert(pair == waiting_before.last());
                assert(unprocessed_border_pairs@ =~= waiting_before.drop_last());
            }
            if !pair.A.is_inner_exec() {
                return Err(pair);
            }
            let relative_neighbors = if pair.axis_index == 0 {
                &neighbors_x
            } else if pair.axis_index == 1 {
                &neighbors_y
            } else {
                &neighbors_z
            };
            sample_block3(normalized_function, &mut sample_map, relative_neighbors, pair);
            proof {
                assert forall|key: u128| sample_map@.contains_key(key) implies is_block_key3(
                    key,
                    found_before,
                ) by {
                    if !samples_before.contains_key(key) {
                        let only = seq![pair];
                        assert forall|i: int| 0 <= i < only.len() implies found_before.contains(
                            #[trigger] only[i],
                        ) by {}
                        lemma_block_key_more3(key, only, found_before);
                    }
                }
                lemma_taken_in_hand3(
                    field,
                    start,
                    samples_before,
                    sample_map@,
                    found_before,
                    waiting_before,
                    seen,
                );
            }
            test_candidates3(
                normalized_function,
                Ghost(start),
                &sample_map,
                relative_neighbors,
                pair,
                &mut all_border_pairs,
                &mut unprocessed_border_pairs,
                &mut seen,
            );
            let found_count: usize = all_border_pairs.len();
            proof {
                assert(all_border_pairs@.len() == found_count);
                assert(all_border_pairs@.len() - found_before.len() == unprocessed_border_pairs@.len()
                    - (waiting_before.len() - 1));
            }
        }
        proof {
            assert(unprocessed_border_pairs@ =~= Seq::<BorderPair3D>::empty());
            lemma_search_done3(field, start, sample_map@, all_border_pairs@, seen);
        }
        Ok(SampleCloud3D { sample_map, border_pairs: all_border_pairs })
    }
}

/// The samples taken of a field and the border pairs found.
#[derive(Clone, Debug)]
pub struct SampleCloud4D {
    /// The samples, each under the key of its lattice point.
    pub sample_map: HashMap<u128, u32>,
    /// Pairs of neighbouring points between which the field changes sign.
    pub border_pairs: Vec<BorderPair4D>,
}

/// The key under which the sample at `p` is kept.
pub open spec fn key_of4(p: IVec4) -> u128 {
    p.key() as u128
}

/// Every sample kept in `samples` is the value of the field at its point.
pub open spec fn samples_agree4<F: Fn(IVec4) -> u32>(field: F, samples: Map<u128, u32>) -> bool {
    forall|p: IVec4|
        samples.contains_key(#[trigger] key_of4(p)) ==> samples[key_of4(p)] == field_value(field, p)
}

/// All fifty-four points of the block around `pair` have been sampled.
pub open spec fn box_sampled4(samples: Map<u128, u32>, pair: BorderPair4D) -> bool {
    forall|k: int|
        0 <= k < 54 ==> samples.contains_key(
            key_of4((#[trigger] box_points4(pair.axis_index as int)[k]).spec_plus(pair.A)),
        )
}

/// Point number `k` of the block around `pair`.
pub open spec fn block_point4(pair: BorderPair4D, k: int) -> IVec4 {
    box_points4(pair.axis_index as int)[k].spec_plus(pair.A)
}

/// `key` is the key of a point of the block around one of the pairs.
pub open spec fn is_block_key4(key: u128, pairs: Seq<BorderPair4D>) -> bool {
    exists|i: int, k: int|
        0 <= i < pairs.len() && 0 <= k < 54 && key == key_of4(#[trigger] block_point4(pairs[i], k))
}

/// Nothing is sampled but points of the blocks around the pairs: the search
/// looks at the field next to the surface and nowhere else.
pub open spec fn sampled_near_pairs4(samples: Map<u128, u32>, pairs: Seq<BorderPair4D>) -> bool {
    forall|key: u128| samples.contains_key(key) ==> is_block_key4(key, pairs)
}

/// Candidate number `k` around `pair`.
pub open spec fn neighbor_of4(pair: BorderPair4D, k: int) -> BorderPair4D {
    neighbor_pairs4(pair.axis_index as int)[k].moved_by(pair.A)
}

/// `next` is one of the candidates around `pair`.
pub open spec fn is_neighbor_pair4(pair: BorderPair4D, next: BorderPair4D) -> bool {
    exists|k: int|
        0 <= k < neighbor_pairs4(pair.axis_index as int).len() && next == #[trigger] neighbor_of4(
            pair,
            k,
        )
}

/// A walk over the surface: border pairs between whose points the field
/// changes sign, each one a candidate around the one before it.
pub open spec fn is_surface_path4<F: Fn(IVec4) -> u32>(field: F, path: Seq<BorderPair4D>) -> bool {
    &&& path.len() > 0
    &&& forall|i: int| 0 <= i < path.len() ==> (#[trigger] path[i]).wf() && crossing4(field, path[i])
    &&& forall|i: int|
        0 <= i < path.len() - 1 ==> (#[trigger] path[i]).A.is_inner() && is_neighbor_pair4(
            path[i],
            path[i + 1],
        )
}

/// `pair` can be walked to from `start` over the surface.
pub open spec fn reachable4<F: Fn(IVec4) -> u32>(
    field: F,
    start: BorderPair4D,
    pair: BorderPair4D,
) -> bool {
    exists|path: Seq<BorderPair4D>|
        #[trigger] is_surface_path4(field, path) && path[0] == start && path.last() == pair
}

/// The block around `pair` is sampled, and every candidate around it
/// between whose points the field changes sign is among `found`.
pub open spec fn settled4<F: Fn(IVec4) -> u32>(
    field: F,
    samples: Map<u128, u32>,
    pair: BorderPair4D,
    found: Seq<BorderPair4D>,
) -> bool {
    &&& pair.A.is_inner()
    &&& box_sampled4(samples, pair)
    &&& forall|k: int|
        0 <= k < neighbor_pairs4(pair.axis_index as int).len() && crossing4(
            field,
            #[trigger] neighbor_of4(pair, k),
        ) ==> found.contains(neighbor_of4(pair, k))
}

/// What the search hands back when it succeeds: exactly the border pairs
/// that can be walked to from `start`, each once, each with its block
/// sampled, and samples that are values of the field, taken at the points of
/// those blocks and nowhere else.
pub open spec fn is_surface_component4<F: Fn(IVec4) -> u32>(
    field: F,
    start: BorderPair4D,
    cloud: SampleCloud4D,
) -> bool {
    &&& cloud.border_pairs@.no_duplicates()
    &&& forall|pair: BorderPair4D|
        cloud.border_pairs@.contains(pair) <==> reachable4(field, start, pair)
    &&& forall|i: int|
        0 <= i < cloud.border_pairs@.len() ==> {
            &&& (#[trigger] cloud.border_pairs@[i]).wf()
            &&& cloud.border_pairs@[i].A.is_inner()
            &&& crossing4(field, cloud.border_pairs@[i])
            &&& box_sampled4(cloud.sample_map@, cloud.border_pairs@[i])
        }
    &&& samples_agree4(field, cloud.sample_map@)
    &&& sampled_near_pairs4(cloud.sample_map@, cloud.border_pairs@)
}

/// The start can be walked to from itself.
pub proof fn lemma_reachable_start4<F: Fn(IVec4) -> u32>(field: F, start: BorderPair4D)
    requires
        start.wf(),
        crossing4(field, start),
    ensures
        reachable4(field, start, start),
{
    let path = seq![start];
    assert(is_surface_path4(field, path));
    assert(path[0] == start && path.last() == start);
}

/// A candidate around a pair that can be walked to can be walked to.
pub proof fn lemma_reachable_step4<F: Fn(IVec4) -> u32>(
    field: F,
    start: BorderPair4D,
    pair: BorderPair4D,
    k: int,
)
    requires
        reachable4(field, start, pair),
        pair.A.is_inner(),
        0 <= k < neighbor_pairs4(pair.axis_index as int).len(),
        neighbor_of4(pair, k).wf(),
        crossing4(field, neighbor_of4(pair, k)),
    ensures
        reachable4(field, start, neighbor_of4(pair, k)),
{
    let path = choose|path: Seq<BorderPair4D>|
        #[trigger] is_surface_path4(field, path) && path[0] == start && path.last() == pair;
    let next = neighbor_of4(pair, k);
    let longer = path.push(next);
    assert forall|i: int| 0 <= i < longer.len() implies (#[trigger] longer[i]).wf() && crossing4(
        field,
        longer[i],
    ) by {
        if i < path.len() {
            assert(longer[i] == path[i]);
        }
    }
    assert forall|i: int| 0 <= i < longer.len() - 1 implies (#[trigger] longer[i]).A.is_inner()
        && is_neighbor_pair4(longer[i], longer[i + 1]) by {
        assert(longer[i] == path[i]);
        if i < path.len() - 1 {
            assert(longer[i + 1] == path[i + 1]);
            assert(path[i].A.is_inner() && is_neighbor_pair4(path[i], path[i + 1]));
        } else {
            assert(longer[i] == pair);
            assert(longer[i + 1] == next);
        }
    }
    assert(is_surface_path4(field, longer));
    assert(longer[0] == start && longer.last() == next);
}

/// A list that holds the start and is settled throughout holds every pair
/// that can be walked to.
pub proof fn lemma_settled_holds_reachable4<F: Fn(IVec4) -> u32>(
    field: F,
    samples: Map<u128, u32>,
    start: BorderPair4D,
    found: Seq<BorderPair4D>,
    path: Seq<BorderPair4D>,
)
    requires
        found.contains(start),
        forall|i: int| 0 <= i < found.len() ==> settled4(field, samples, #[trigger] found[i], found),
        is_surface_path4(field, path),
        path[0] == start,
    ensures
        found.contains(path.last()),
    decreases path.len(),
{
    if path.len() > 1 {
        let head = path.drop_last();
        assert(is_surface_path4(field, head)) by {
            assert forall|i: int| 0 <= i < head.len() implies (#[trigger] head[i]).wf()
                && crossing4(field, head[i]) by {
                assert(head[i] == path[i]);
            }
            assert forall|i: int| 0 <= i < head.len() - 1 implies (#[trigger] head[i]).A.is_inner()
                && is_neighbor_pair4(head[i], head[i + 1]) by {
                assert(head[i] == path[i]);
                assert(head[i + 1] == path[i + 1]);
                assert(path[i].A.is_inner() && is_neighbor_pair4(path[i], path[i + 1]));
            }
        }
        lemma_settled_holds_reachable4(field, samples, start, found, head);
        let before = head.last();
        let last = path.last();
        assert(before == path[path.len() - 2]);
        assert(path[path.len() - 2].A.is_inner() && is_neighbor_pair4(
            path[path.len() - 2],
            path[path.len() - 2 + 1],
        ));
        let k = choose|k: int|
            0 <= k < neighbor_pairs4(before.axis_index as int).len() && last == #[trigger] neighbor_of4(
                before,
                k,
            );
        let j = choose|j: int| 0 <= j < found.len() && found[j] == before;
        assert(settled4(field, samples, found[j], found));
        assert(crossing4(field, path[path.len() - 1]));
        assert(found.contains(neighbor_of4(before, k)));
    }
}

/// Pairs stay settled when more is sampled and more is found.
pub proof fn lemma_settled_monotone4<F: Fn(IVec4) -> u32>(
    field: F,
    samples: Map<u128, u32>,
    more_samples: Map<u128, u32>,
    pair: BorderPair4D,
    found: Seq<BorderPair4D>,
    more_found: Seq<BorderPair4D>,
)
    requires
        settled4(field, samples, pair, found),
        forall|key: u128| samples.contains_key(key) ==> more_samples.contains_key(key),
        forall|other: BorderPair4D| found.contains(other) ==> more_found.contains(other),
    ensures
        settled4(field, more_samples, pair, more_found),
{
    assert forall|k: int| 0 <= k < 54 implies more_samples.contains_key(
        key_of4((#[trigger] box_points4(pair.axis_index as int)[k]).spec_plus(pair.A)),
    ) by {
        assert(samples.contains_key(
            key_of4(box_points4(pair.axis_index as int)[k].spec_plus(pair.A)),
        ));
    }
}

/// The border pairs found so far, findable by lower point and axis.
struct PairSet4D {
    along_x: HashSet<u128>,
    along_y: HashSet<u128>,
    along_z: HashSet<u128>,
    along_w: HashSet<u128>,
}

impl PairSet4D {
    spec fn has(&self, pair: BorderPair4D) -> bool {
        if pair.axis_index == 0 {
            self.along_x@.contains(key_of4(pair.A))
        } else if pair.axis_index == 1 {
            self.along_y@.contains(key_of4(pair.A))
        } else if pair.axis_index == 2 {
            self.along_z@.contains(key_of4(pair.A))
        } else {
            self.along_w@.contains(key_of4(pair.A))
        }
    }

    fn new() -> (set: Self)
        ensures
            forall|pair: BorderPair4D| !set.has(pair),
    {
        PairSet4D {
            along_x: HashSet::new(),
            along_y: HashSet::new(),
            along_z: HashSet::new(),
            along_w: HashSet::new(),
        }
    }

    fn contains(&self, pair: &BorderPair4D) -> (found: bool)
        ensures
            found == self.has(*pair),
    {
        let key: u128 = pair.A.key_exec();
        if pair.axis_index == 0 {
            self.along_x.contains(&key)
        } else if pair.axis_index == 1 {
            self.along_y.contains(&key)
        } else if pair.axis_index == 2 {
            self.along_z.contains(&key)
        } else {
            self.along_w.contains(&key)
        }
    }

    fn insert(&mut self, pair: &BorderPair4D)
        requires
            pair.wf(),
        ensures
            forall|other: BorderPair4D|
                other.wf() ==> (final(self).has(other) <==> old(self).has(other) || other == *pair),
    {
        let key: u128 = pair.A.key_exec();
        if pair.axis_index == 0 {
            self.along_x.insert(key);
        } else if pair.axis_index == 1 {
            self.along_y.insert(key);
        } else if pair.axis_index == 2 {
            self.along_z.insert(key);
        } else {
            self.along_w.insert(key);
        }
        proof {
            assert forall|other: BorderPair4D| other.wf() implies (self.has(other) <==> old(
                self,
            ).has(other) || other == *pair) by {
                if key_of4(other.A) == key_of4(pair.A) {
                    lemma_key4_injective(other.A, pair.A);
                }
            }
        }
    }
}

/// Samples the field at `p` unless a sample is already kept.
fn ensure_sampled4<F: Fn(IVec4) -> u32>(field: &F, sample_map: &mut HashMap<u128, u32>, p: IVec4)
    requires
        is_pure_field::<IVec4, F>(*field),
        samples_agree4(*field, old(sample_map)@),
    ensures
        samples_agree4(*field, final(sample_map)@),
        final(sample_map)@.contains_key(key_of4(p)),
        forall|key: u128| old(sample_map)@.contains_key(key) ==> final(sample_map)@.contains_key(key),
        forall|key: u128|
            final(sample_map)@.contains_key(key) ==> old(sample_map)@.contains_key(key) || key
                == key_of4(p),
{
    let key: u128 = p.key_exec();
    if !sample_map.contains_key(&key) {
        let value = sample_field(field, p);
        sample_map.insert(key, value);
        proof {
            assert forall|q: IVec4| sample_map@.contains_key(#[trigger] key_of4(q)) implies sample_map@[key_of4(
                q,
            )] == field_value(*field, q) by {
                if key_of4(q) == key {
                    lemma_key4_injective(q, p);
                }
            }
        }
    }
}

/// Whether the kept sample at `p` is positive.
fn sampled_sign4<F: Fn(IVec4) -> u32>(
    field: &F,
    sample_map: &HashMap<u128, u32>,
    p: IVec4,
) -> (positive: bool)
    requires
        samples_agree4(*field, sample_map@),
        sample_map@.contains_key(key_of4(p)),
    ensures
        positive == positive_at(*field, p),
{
    let key: u128 = p.key_exec();
    let value = sample_map.get(&key);
    match value {
        Some(bits) => is_positive(*bits),
        None => false,
    }
}

impl SampleCloud4D {
    /// The sample kept for `p`, if there is one.
    pub fn sample(&self, p: IVec4) -> (value: Option<u32>)
        ensures
            value == if self.sample_map@.contains_key(key_of4(p)) {
                Some(self.sample_map@[key_of4(p)])
            } else {
                None
            },
    {
        let key: u128 = p.key_exec();
        match self.sample_map.get(&key) {
            Some(bits) => Some(*bits),
            None => None,
        }
    }
}

/// The facts that the search keeps about the pairs found so far.
spec fn search_state4<F: Fn(IVec4) -> u32>(
    field: F,
    start: BorderPair4D,
    samples: Map<u128, u32>,
    found: Seq<BorderPair4D>,
    seen: PairSet4D,
) -> bool {
    &&& samples_agree4(field, samples)
    &&& found.no_duplicates()
    &&& found.len() > 0
    &&& found[0] == start
    &&& forall|i: int|
        0 <= i < found.len() ==> {
            &&& (#[trigger] found[i]).wf()
            &&& crossing4(field, found[i])
            &&& reachable4(field, start, found[i])
            &&& samples.contains_key(key_of4(found[i].A))
            &&& samples.contains_key(key_of4(found[i].B))
        }
    &&& forall|pair: BorderPair4D| pair.wf() ==> (seen.has(pair) <==> found.contains(pair))
}

/// Every pair found is still waiting, is the one in hand, or is settled.
spec fn all_accounted4<F: Fn(IVec4) -> u32>(
    field: F,
    samples: Map<u128, u32>,
    found: Seq<BorderPair4D>,
    waiting: Seq<BorderPair4D>,
    in_hand: Option<BorderPair4D>,
) -> bool {
    forall|i: int|
        0 <= i < found.len() ==> waiting.contains(#[trigger] found[i]) || in_hand == Some(found[i])
            || settled4(field, samples, found[i], found)
}

/// A key of a block around one of some pairs is one around one of more pairs.
proof fn lemma_block_key_more4(key: u128, pairs: Seq<BorderPair4D>, more: Seq<BorderPair4D>)
    requires
        is_block_key4(key, pairs),
        forall|i: int| 0 <= i < pairs.len() ==> more.contains(#[trigger] pairs[i]),
    ensures
        is_block_key4(key, more),
{
    let (i, k) = choose|i: int, k: int|
        0 <= i < pairs.len() && 0 <= k < 54 && key == key_of4(#[trigger] block_point4(pairs[i], k));
    assert(more.contains(pairs[i]));
    let j = choose|j: int| 0 <= j < more.len() && more[j] == pairs[i];
    assert(key == key_of4(block_point4(more[j], k)));
}

/// What is sampled near some pairs is sampled near more pairs.
proof fn lemma_sampled_near_more4(
    samples: Map<u128, u32>,
    pairs: Seq<BorderPair4D>,
    more: Seq<BorderPair4D>,
)
    requires
        sampled_near_pairs4(samples, pairs),
        forall|i: int| 0 <= i < pairs.len() ==> more.contains(#[trigger] pairs[i]),
    ensures
        sampled_near_pairs4(samples, more),
{
    assert forall|key: u128| samples.contains_key(key) implies is_block_key4(key, more) by {
        lemma_block_key_more4(key, pairs, more);
    }
}

/// Every pair that waits has been found.
spec fn waiting_found4(waiting: Seq<BorderPair4D>, found: Seq<BorderPair4D>) -> bool {
    forall|j: int| 0 <= j < waiting.len() ==> found.contains(#[trigger] waiting[j])
}

/// Samples the points around `pair` that are not sampled yet.
fn sample_block4<F: Fn(IVec4) -> u32>(
    field: &F,
    sample_map: &mut HashMap<u128, u32>,
    relative_neighbors: &BorderPair4DRelativeNeighborSet,
    pair: BorderPair4D,
)
    requires
        is_pure_field::<IVec4, F>(*field),
        samples_agree4(*field, old(sample_map)@),
        relative_neighbors.wf(),
        relative_neighbors.spec_axis() == pair.axis_index,
        pair.wf(),
        pair.A.is_inner(),
        old(sample_map)@.contains_key(key_of4(pair.A)),
        old(sample_map)@.contains_key(key_of4(pair.B)),
    ensures
        samples_agree4(*field, final(sample_map)@),
        forall|key: u128| old(sample_map)@.contains_key(key) ==> final(sample_map)@.contains_key(key),
        forall|key: u128|
            final(sample_map)@.contains_key(key) ==> old(sample_map)@.contains_key(key)
                || is_block_key4(key, seq![pair]),
        box_sampled4(final(sample_map)@, pair),
{
    let ghost axis = pair.axis_index as int;
    let ghost samples_before = sample_map@;
    let points = relative_neighbors.absolute_points(pair);
    let mut n: usize = 0;
    while n < points.len()
        invariant
            0 <= n <= points@.len(),
            is_pure_field::<IVec4, F>(*field),
            samples_agree4(*field, sample_map@),
            forall|key: u128| samples_before.contains_key(key) ==> sample_map@.contains_key(key),
            forall|t: int| 0 <= t < n ==> sample_map@.contains_key(key_of4(#[trigger] points@[t])),
            forall|key: u128|
                sample_map@.contains_key(key) ==> samples_before.contains_key(key) || exists|t: int|
                    0 <= t < n && key == key_of4(#[trigger] points@[t]),
        decreases points@.len() - n,
    {
        let point = points[n];
        let ghost samples_then = sample_map@;
        ensure_sampled4(field, sample_map, point);
        proof {
            assert forall|key: u128| sample_map@.contains_key(key) implies samples_before.contains_key(
                key,
            ) || exists|t: int| 0 <= t < n + 1 && key == key_of4(#[trigger] points@[t]) by {
                if samples_then.contains_key(key) {
                    if !samples_before.contains_key(key) {
                        let t = choose|t: int| 0 <= t < n && key == key_of4(#[trigger] points@[t]);
                        assert(0 <= t < n + 1 && key == key_of4(points@[t]));
                    }
                } else {
                    assert(key == key_of4(points@[n as int]));
                }
            }
        }
        n += 1;
    }
    proof {
        lemma_box_covered4(axis);
        let boxed = box_points4(axis);
        let rel_points = neighbor_points4(axis);
        assert forall|k: int| 0 <= k < 54 implies sample_map@.contains_key(
            key_of4((#[trigger] box_points4(pair.axis_index as int)[k]).spec_plus(pair.A)),
        ) by {
            if boxed[k] == IVec4::ZERO() {
                assert(boxed[k].spec_plus(pair.A) == pair.A);
                assert(samples_before.contains_key(key_of4(pair.A)));
            } else if boxed[k] == IVec4::unit(axis) {
                assert(boxed[k].spec_plus(pair.A) == pair.B);
                assert(samples_before.contains_key(key_of4(pair.B)));
            } else {
                assert(rel_points.contains(boxed[k]));
                let t = choose|t: int| 0 <= t < rel_points.len() && rel_points[t] == boxed[k];
                assert(points@[t] == rel_points[t].spec_plus(pair.A));
            }
        }
        let only = seq![pair];
        assert forall|key: u128| sample_map@.contains_key(key) implies samples_before.contains_key(
            key,
        ) || is_block_key4(key, only) by {
            if !samples_before.contains_key(key) {
                let t = choose|t: int| 0 <= t < points@.len() && key == key_of4(#[trigger] points@[t]);
                assert(points@[t] == rel_points[t].spec_plus(pair.A));
                assert(rel_points.contains(rel_points[t]));
                boxed.lemma_filter_contains_rev(off_parent4(axis), rel_points[t]);
                let k = choose|k: int| 0 <= k < boxed.len() && boxed[k] == rel_points[t];
                assert(block_point4(only[0], k) == points@[t]);
            }
        }
    }
}

/// Both points of candidate `c` around `pair` are sampled once the block is.
proof fn lemma_candidate_sampled4(samples: Map<u128, u32>, pair: BorderPair4D, c: int)
    requires
        pair.wf(),
        pair.A.is_inner(),
        box_sampled4(samples, pair),
        pairs_in_box4(neighbor_pairs4(pair.axis_index as int), pair.axis_index as int),
        0 <= c < neighbor_pairs4(pair.axis_index as int).len(),
    ensures
        samples.contains_key(key_of4(neighbor_of4(pair, c).A)),
        samples.contains_key(key_of4(neighbor_of4(pair, c).B)),
{
    let axis = pair.axis_index as int;
    lemma_box_covered4(axis);
    let rel = neighbor_pairs4(axis)[c];
    assert(rel.wf() && in_box4(rel.A, axis) && in_box4(rel.B, axis));
    let boxed = box_points4(axis);
    assert(boxed.contains(rel.A));
    assert(boxed.contains(rel.B));
    let ka = choose|k: int| 0 <= k < boxed.len() && boxed[k] == rel.A;
    let kb = choose|k: int| 0 <= k < boxed.len() && boxed[k] == rel.B;
    assert(samples.contains_key(key_of4(box_points4(pair.axis_index as int)[ka].spec_plus(pair.A))));
    assert(samples.contains_key(key_of4(box_points4(pair.axis_index as int)[kb].spec_plus(pair.A))));
}

/// The state of the search after one more pair was found.
proof fn lemma_found_one_more4<F: Fn(IVec4) -> u32>(
    field: F,
    start: BorderPair4D,
    samples: Map<u128, u32>,
    found: Seq<BorderPair4D>,
    waiting: Seq<BorderPair4D>,
    seen: PairSet4D,
    seen_after: PairSet4D,
    pair: BorderPair4D,
    next: BorderPair4D,
)
    requires
        search_state4(field, start, samples, found, seen),
        waiting_found4(waiting, found),
        all_accounted4(field, samples, found, waiting, Some(pair)),
        next.wf(),
        crossing4(field, next),
        reachable4(field, start, next),
        samples.contains_key(key_of4(next.A)),
        samples.contains_key(key_of4(next.B)),
        !seen.has(next),
        forall|other: BorderPair4D|
            other.wf() ==> (seen_after.has(other) <==> seen.has(other) || other == next),
    ensures
        search_state4(field, start, samples, found.push(next), seen_after),
        waiting_found4(waiting.push(next), found.push(next)),
        all_accounted4(field, samples, found.push(next), waiting.push(next), Some(pair)),
        forall|other: BorderPair4D| found.contains(other) ==> found.push(next).contains(other),
{
    lemma_push_contains(found, next);
    lemma_push_contains(waiting, next);
    let found_now = found.push(next);
    let waiting_now = waiting.push(next);
    assert(!found.contains(next));
    assert forall|i: int| 0 <= i < found_now.len() implies {
        &&& (#[trigger] found_now[i]).wf()
        &&& crossing4(field, found_now[i])
        &&& reachable4(field, start, found_now[i])
        &&& samples.contains_key(key_of4(found_now[i].A))
        &&& samples.contains_key(key_of4(found_now[i].B))
    } by {
        if i < found.len() {
            assert(found_now[i] == found[i]);
        }
    }
    assert forall|other: BorderPair4D| other.wf() implies (seen_after.has(other)
        <==> found_now.contains(other)) by {
        if found_now.contains(other) {
            let i = choose|i: int| 0 <= i < found_now.len() && found_now[i] == other;
            if i < found.len() {
                assert(found[i] == other);
                assert(found.contains(other));
            }
        }
    }
    assert(found_now.no_duplicates()) by {
        assert forall|i: int, j: int|
            0 <= i < found_now.len() && 0 <= j < found_now.len() && i != j implies found_now[i]
            != found_now[j] by {
            if i < found.len() && j < found.len() {
                assert(found[i] != found[j]);
            } else if i < found.len() {
                assert(found[i] == found_now[i]);
                assert(found.contains(found_now[i]));
            } else {
                assert(found[j] == found_now[j]);
                assert(found.contains(found_now[j]));
            }
        }
    }
    assert(found_now[0] == found[0]);
    assert forall|j: int| 0 <= j < waiting_now.len() implies found_now.contains(
        #[trigger] waiting_now[j],
    ) by {
        if j < waiting.len() {
            assert(waiting_now[j] == waiting[j]);
            assert(found.contains(waiting[j]));
        }
    }
    assert forall|i: int| 0 <= i < found_now.len() implies waiting_now.contains(
        #[trigger] found_now[i],
    ) || Some(pair) == Some(found_now[i]) || settled4(field, samples, found_now[i], found_now) by {
        if i < found.len() {
            assert(found_now[i] == found[i]);
            if settled4(field, samples, found[i], found) {
                lemma_settled_monotone4(field, samples, samples, found[i], found, found_now);
            }
        }
    }
}

/// Tests the candidates around `pair` and takes up those between whose
/// points the field changes sign and that were not found before.
fn test_candidates4<F: Fn(IVec4) -> u32>(
    normalized_function: &F,
    Ghost(start): Ghost<BorderPair4D>,
    sample_map: &HashMap<u128, u32>,
    relative_neighbors: &BorderPair4DRelativeNeighborSet,
    pair: BorderPair4D,
    all_border_pairs: &mut Vec<BorderPair4D>,
    unprocessed_border_pairs: &mut Vec<BorderPair4D>,
    seen: &mut PairSet4D,
)
    requires
        relative_neighbors.wf(),
        relative_neighbors.spec_axis() == pair.axis_index,
        pair.wf(),
        pair.A.is_inner(),
        box_sampled4(sample_map@, pair),
        search_state4(*normalized_function, start, sample_map@, old(all_border_pairs)@, *old(seen)),
        sampled_near_pairs4(sample_map@, old(all_border_pairs)@),
        reachable4(*normalized_function, start, pair),
        waiting_found4(old(unprocessed_border_pairs)@, old(all_border_pairs)@),
        all_accounted4(
            *normalized_function,
            sample_map@,
            old(all_border_pairs)@,
            old(unprocessed_border_pairs)@,
            Some(pair),
        ),
    ensures
        search_state4(*normalized_function, start, sample_map@, final(all_border_pairs)@, *final(seen)),
        sampled_near_pairs4(sample_map@, final(all_border_pairs)@),
        waiting_found4(final(unprocessed_border_pairs)@, final(all_border_pairs)@),
        all_accounted4(
            *normalized_function,
            sample_map@,
            final(all_border_pairs)@,
            final(unprocessed_border_pairs)@,
            None::<BorderPair4D>,
        ),
        final(all_border_pairs)@.len() - old(all_border_pairs)@.len()
            == final(unprocessed_border_pairs)@.len() - old(unprocessed_border_pairs)@.len(),
        final(all_border_pairs)@.len() >= old(all_border_pairs)@.len(),
{
    let ghost axis = pair.axis_index as int;
    let candidates = relative_neighbors.absolute_border_pairs(pair);
    let mut c: usize = 0;
    while c < candidates.len()
        invariant
            0 <= c <= candidates@.len(),
            0 <= axis < 4,
            axis == pair.axis_index,
            pair.wf(),
            pair.A.is_inner(),
            box_sampled4(sample_map@, pair),
            pairs_in_box4(neighbor_pairs4(axis), axis),
            candidates@.len() == neighbor_pairs4(axis).len(),
            forall|i: int|
                0 <= i < candidates@.len() ==> #[trigger] candidates@[i] == neighbor_of4(pair, i)
                    && candidates@[i].wf(),
            search_state4(*normalized_function, start, sample_map@, all_border_pairs@, *seen),
            sampled_near_pairs4(sample_map@, all_border_pairs@),
            reachable4(*normalized_function, start, pair),
            waiting_found4(unprocessed_border_pairs@, all_border_pairs@),
            all_accounted4(
                *normalized_function,
                sample_map@,
                all_border_pairs@,
                unprocessed_border_pairs@,
                Some(pair),
            ),
            forall|k: int|
                0 <= k < c && crossing4(*normalized_function, #[trigger] neighbor_of4(pair, k))
                    ==> all_border_pairs@.contains(neighbor_of4(pair, k)),
            all_border_pairs@.len() - old(all_border_pairs)@.len() == unprocessed_border_pairs@.len()
                - old(unprocessed_border_pairs)@.len(),
            all_border_pairs@.len() >= old(all_border_pairs)@.len(),
        decreases candidates@.len() - c,
    {
        let border_pair = candidates[c];
        proof {
            assert(border_pair == neighbor_of4(pair, c as int));
        }
        if !seen.contains(&border_pair) {
            proof {
                lemma_candidate_sampled4(sample_map@, pair, c as int);
            }
            let A_is_positive = sampled_sign4(normalized_function, sample_map, border_pair.A);
            let B_is_positive = sampled_sign4(normalized_function, sample_map, border_pair.B);
            if A_is_positive != B_is_positive {
                let ghost found_then = all_border_pairs@;
                let ghost waiting_then = unprocessed_border_pairs@;
                let ghost seen_then = *seen;
                seen.insert(&border_pair);
                all_border_pairs.push(border_pair);
                unprocessed_border_pairs.push(border_pair);
                proof {
                    lemma_reachable_step4(*normalized_function, start, pair, c as int);
                    lemma_found_one_more4(
                        *normalized_function,
                        start,
                        sample_map@,
                        found_then,
                        waiting_then,
                        seen_then,
                        *seen,
                        pair,
                        border_pair,
                    );
                    lemma_push_contains(found_then, border_pair);
                    assert forall|i: int| 0 <= i < found_then.len() implies all_border_pairs@.contains(
                        #[trigger] found_then[i],
                    ) by {
                        assert(found_then.contains(found_then[i]));
                    }
                    lemma_sampled_near_more4(sample_map@, found_then, all_border_pairs@);
                }
            }
        } else {
            proof {
                assert(all_border_pairs@.contains(border_pair));
            }
        }
        c += 1;
    }
    proof {
        let found_now = all_border_pairs@;
        assert(settled4(*normalized_function, sample_map@, pair, found_now));
        assert forall|i: int| 0 <= i < found_now.len() implies unprocessed_border_pairs@.contains(
            #[trigger] found_now[i],
        ) || None::<BorderPair4D> == Some(found_now[i]) || settled4(
            *normalized_function,
            sample_map@,
            found_now[i],
            found_now,
        ) by {
            if Some(pair) == Some(found_now[i]) {
                assert(found_now[i] == pair);
            }
        }
    }
}

/// The state of the search after the last waiting pair was taken in hand
/// and the points around it were sampled.
proof fn lemma_taken_in_hand4<F: Fn(IVec4) -> u32>(
    field: F,
    start: BorderPair4D,
    samples: Map<u128, u32>,
    more_samples: Map<u128, u32>,
    found: Seq<BorderPair4D>,
    waiting: Seq<BorderPair4D>,
    seen: PairSet4D,
)
    requires
        waiting.len() > 0,
        search_state4(field, start, samples, found, seen),
        waiting_found4(waiting, found),
        all_accounted4(field, samples, found, waiting, None::<BorderPair4D>),
        samples_agree4(field, more_samples),
        forall|key: u128| samples.contains_key(key) ==> more_samples.contains_key(key),
    ensures
        found.contains(waiting.last()),
        waiting.last().wf(),
        reachable4(field, start, waiting.last()),
        samples.contains_key(key_of4(waiting.last().A)),
        samples.contains_key(key_of4(waiting.last().B)),
        search_state4(field, start, more_samples, found, seen),
        waiting_found4(waiting.drop_last(), found),
        all_accounted4(field, more_samples, found, waiting.drop_last(), Some(waiting.last())),
{
    let pair = waiting.last();
    let rest = waiting.drop_last();
    assert(pair == waiting[waiting.len() - 1]);
    assert(found.contains(pair));
    let i0 = choose|i: int| 0 <= i < found.len() && found[i] == pair;
    assert(found[i0].wf());
    assert forall|j: int| 0 <= j < rest.len() implies found.contains(#[trigger] rest[j]) by {
        assert(rest[j] == waiting[j]);
    }
    assert forall|i: int| 0 <= i < found.len() implies rest.contains(#[trigger] found[i]) || Some(
        pair,
    ) == Some(found[i]) || settled4(field, more_samples, found[i], found) by {
        if waiting.contains(found[i]) {
            let j = choose|j: int| 0 <= j < waiting.len() && waiting[j] == found[i];
            if j < waiting.len() - 1 {
                assert(rest[j] == found[i]);
            }
        } else {
            lemma_settled_monotone4(field, samples, more_samples, found[i], found, found);
        }
    }
    assert forall|i: int| 0 <= i < found.len() implies {
        &&& (#[trigger] found[i]).wf()
        &&& crossing4(field, found[i])
        &&& reachable4(field, start, found[i])
        &&& more_samples.contains_key(key_of4(found[i].A))
        &&& more_samples.contains_key(key_of4(found[i].B))
    } by {
        assert(samples.contains_key(key_of4(found[i].A)));
        assert(samples.contains_key(key_of4(found[i].B)));
    }
}

/// A search that has nothing waiting has found exactly what can be walked to.
proof fn lemma_search_done4<F: Fn(IVec4) -> u32>(
    field: F,
    start: BorderPair4D,
    samples: Map<u128, u32>,
    found: Seq<BorderPair4D>,
    seen: PairSet4D,
)
    requires
        search_state4(field, start, samples, found, seen),
        all_accounted4(field, samples, found, Seq::<BorderPair4D>::empty(), None::<BorderPair4D>),
    ensures
        forall|pair: BorderPair4D| found.contains(pair) <==> reachable4(field, start, pair),
        forall|i: int|
            0 <= i < found.len() ==> (#[trigger] found[i]).A.is_inner() && box_sampled4(
                samples,
                found[i],
            ),
{
    let none = Seq::<BorderPair4D>::empty();
    assert(found.contains(start)) by {
        assert(found[0] == start);
    }
    assert forall|i: int| 0 <= i < found.len() implies settled4(
        field,
        samples,
        #[trigger] found[i],
        found,
    ) by {
        if none.contains(found[i]) {
            assert(false);
        }
    }
    assert forall|pair: BorderPair4D| found.contains(pair) <==> reachable4(field, start, pair) by {
        if found.contains(pair) {
            let i = choose|i: int| 0 <= i < found.len() && found[i] == pair;
            assert(reachable4(field, start, found[i]));
        }
        if reachable4(field, start, pair) {
            let path = choose|path: Seq<BorderPair4D>|
                #[trigger] is_surface_path4(field, path) && path[0] == start && path.last() == pair;
            lemma_settled_holds_reachable4(field, samples, start, found, path);
        }
    }
    assert forall|i: int| 0 <= i < found.len() implies (#[trigger] found[i]).A.is_inner()
        && box_sampled4(samples, found[i]) by {
        assert(settled4(field, samples, found[i], found));
    }
}

impl SampleCloud4D {
    /// Searches the surface from the border pair that the bisection between
    /// the two points ends at. Hands back the pairs found and the samples
    /// taken, or the pair at which the search came within two steps of the
    /// end of the `i32` range and gave up.
    pub fn new<F: Fn(IVec4) -> u32>(
        normalized_function: &F,
        negative_point: IVec4,
        positive_point: IVec4,
    ) -> (result: Result<SampleCloud4D, BorderPair4D>)
        requires
            is_pure_field::<IVec4, F>(*normalized_function),
            !positive_at(*normalized_function, negative_point),
            positive_at(*normalized_function, positive_point),
        ensures
            match result {
                Ok(cloud) => is_surface_component4(
                    *normalized_function,
                    initial_pair4(*normalized_function, negative_point, positive_point),
                    cloud,
                ),
                Err(pair) => reachable4(
                    *normalized_function,
                    initial_pair4(*normalized_function, negative_point, positive_point),
                    pair,
                ) && !pair.A.is_inner(),
            },
    {
        let ghost field = *normalized_function;
        let neighbors_x = BorderPair4DRelativeNeighborSet::new(0);
        let neighbors_y = BorderPair4DRelativeNeighborSet::new(1);
        let neighbors_z = BorderPair4DRelativeNeighborSet::new(2);
        let neighbors_w = BorderPair4DRelativeNeighborSet::new(3);
        let initial_border_pair = get_initial_border_pair_4D(
            normalized_function,
            negative_point,
            positive_point,
        );
        let ghost start = initial_border_pair;
        let mut sample_map: HashMap<u128, u32> = HashMap::new();
        ensure_sampled4(normalized_function, &mut sample_map, initial_border_pair.A);
        ensure_sampled4(normalized_function, &mut sample_map, initial_border_pair.B);
        let mut unprocessed_border_pairs: Vec<BorderPair4D> = Vec::new();
        unprocessed_border_pairs.push(initial_border_pair);
        let mut all_border_pairs: Vec<BorderPair4D> = Vec::new();
        all_border_pairs.push(initial_border_pair);
        let mut seen = PairSet4D::new();
        seen.insert(&initial_border_pair);
        proof {
            lemma_reachable_start4(field, start);
            assert(all_border_pairs@ =~= seq![start]);
            assert(unprocessed_border_pairs@[0] == start);
            assert forall|pair: BorderPair4D| pair.wf() implies (seen.has(pair)
                <==> all_border_pairs@.contains(pair)) by {
                if pair == start {
                    assert(all_border_pairs@[0] == pair);
                }
            }
            assert(all_border_pairs@.contains(start)) by {
                assert(all_border_pairs@[0] == start);
            }
            assert(unprocessed_border_pairs@.contains(start)) by {
                assert(unprocessed_border_pairs@[0] == start);
            }
            let axis = start.axis_index as int;
            lemma_box_covered4(axis);
            let boxed = box_points4(axis);
            assert(in_box4(IVec4::ZERO(), axis) && in_box4(IVec4::unit(axis), axis));
            assert(boxed.contains(IVec4::ZERO()));
            assert(boxed.contains(IVec4::unit(axis)));
            let ka = choose|k: int| 0 <= k < boxed.len() && boxed[k] == IVec4::ZERO();
            let kb = choose|k: int| 0 <= k < boxed.len() && boxed[k] == IVec4::unit(axis);
            assert(block_point4(all_border_pairs@[0], ka) == start.A);
            assert(block_point4(all_border_pairs@[0], kb) == start.B);
            assert forall|key: u128| sample_map@.contains_key(key) implies is_block_key4(
                key,
                all_border_pairs@,
            ) by {
                assert(key == key_of4(start.A) || key == key_of4(start.B));
            }
        }
        while unprocessed_border_pairs.len() > 0
            invariant
                is_pure_field::<IVec4, F>(*normalized_function),
                field == *normalized_function,
                start == initial_pair4(*normalized_function, negative_point, positive_point),
                neighbors_x.wf() && neighbors_x.spec_axis() == 0,
                neighbors_y.wf() && neighbors_y.spec_axis() == 1,
                neighbors_z.wf() && neighbors_z.spec_axis() == 2,
                neighbors_w.wf() && neighbors_w.spec_axis() == 3,
                search_state4(field, start, sample_map@, all_border_pairs@, seen),
                sampled_near_pairs4(sample_map@, all_border_pairs@),
                waiting_found4(unprocessed_border_pairs@, all_border_pairs@),
                all_accounted4(
                    field,
                    sample_map@,
                    all_border_pairs@,
                    unprocessed_border_pairs@,
                    None::<BorderPair4D>,
                ),
            decreases usize::MAX - all_border_pairs@.len(), unprocessed_border_pairs@.len(),
        {
            let ghost found_before = all_border_pairs@;
            let ghost waiting_before = unprocessed_border_pairs@;
            let ghost samples_before = sample_map@;
            proof {
                lemma_taken_in_hand4(
                    field,
                    start,
                    samples_before,
                    samples_before,
                    found_before,
                    waiting_before,
                    seen,
                );
            }
            let pair = unprocessed_border_pairs.pop().unwrap();
            proof {
                assert(pair == waiting_before.last());
                assert(unprocessed_border_pairs@ =~= waiting_before.drop_last());
            }
            if !pair.A.is_inner_exec() {
                return Err(pair);
            }
            let relative_neighbors = if pair.axis_index == 0 {
                &neighbors_x
            } else if pair.axis_index == 1 {
                &neighbors_y
            } else if pair.axis_index == 2 {
                &neighbors_z
            } else {
                &neighbors_w
            };
            sample_block4(normalized_function, &mut sample_map, relative_neighbors, pair);
            proof {
                assert forall|key: u128| sample_map@.contains_key(key) implies is_block_key4(
                    key,
                    found_before,
                ) by {
                    if !samples_before.contains_key(key) {
                        let only = seq![pair];
                        assert forall|i: int| 0 <= i < only.len() implies found_before.contains(
                            #[trigger] only[i],
                        ) by {}
                        lemma_block_key_more4(key, only, found_before);
                    }
                }
                lemma_taken_in_hand4(
                    field,
                    start,
                    samples_before,
                    sample_map@,
                    found_before,
                    waiting_before,
                    seen,
                );
            }
            test_candidates4(
                normalized_function,
                Ghost(start),
                &sample_map,
                relative_neighbors,
                pair,
                &mut all_border_pairs,
                &mut unprocessed_border_pairs,
                &mut seen,
            );
            let found_count: usize = all_border_pairs.len();
            proof {
                assert(all_border_pairs@.len() == found_count);
                assert(all_border_pairs@.len() - found_before.len() == unprocessed_border_pairs@.len()
                    - (waiting_before.len() - 1));
            }
        }
        proof {
            assert(unprocessed_border_pairs@ =~= Seq::<BorderPair4D>::empty());
            lemma_search_done4(field, start, sample_map@, all_border_pairs@, seen);
        }
        Ok(SampleCloud4D { sample_map, border_pairs: all_border_pairs })
    }
}

/// Every border pair that a successful search hands back is made of two
/// lattice points that are one step apart, differ along the axis of the pair
/// and nowhere else, and lie on different sides of the surface.
pub proof fn lemma_found_pairs_cross_the_surface3<F: Fn(IVec3) -> u32>(
    field: F,
    start: BorderPair3D,
    cloud: SampleCloud3D,
    i: int,
)
    requires
        is_surface_component3(field, start, cloud),
        0 <= i < cloud.border_pairs@.len(),
    ensures
        cloud.border_pairs@[i].A.manhattan_distance(cloud.border_pairs@[i].B) == 1,
        cloud.border_pairs@[i].axis_index < 3,
        forall|axis: int|
            0 <= axis < 3 ==> cloud.border_pairs@[i].B.coord(axis) == cloud.border_pairs@[i].A.coord(
                axis,
            ) + if axis == cloud.border_pairs@[i].axis_index {
                1int
            } else {
                0int
            },
        positive_at(field, cloud.border_pairs@[i].A) != positive_at(field, cloud.border_pairs@[i].B),
{
    let pair = cloud.border_pairs@[i];
    assert(pair.wf());
    assert(crossing3(field, pair));
}

/// Every border pair that a successful search hands back is made of two
/// lattice points that are one step apart, differ along the axis of the pair
/// and nowhere else, and lie on different sides of the surface.
pub proof fn lemma_found_pairs_cross_the_surface4<F: Fn(IVec4) -> u32>(
    field: F,
    start: BorderPair4D,
    cloud: SampleCloud4D,
    i: int,
)
    requires
        is_surface_component4(field, start, cloud),
        0 <= i < cloud.border_pairs@.len(),
    ensures
        cloud.border_pairs@[i].A.manhattan_distance(cloud.border_pairs@[i].B) == 1,
        cloud.border_pairs@[i].axis_index < 4,
        forall|axis: int|
            0 <= axis < 4 ==> cloud.border_pairs@[i].B.coord(axis) == cloud.border_pairs@[i].A.coord(
                axis,
            ) + if axis == cloud.border_pairs@[i].axis_index {
                1int
            } else {
                0int
            },
        positive_at(field, cloud.border_pairs@[i].A) != positive_at(field, cloud.border_pairs@[i].B),
{
    let pair = cloud.border_pairs@[i];
    assert(pair.wf());
    assert(crossing4(field, pair));
}

/// Around a pair away from the ends of the lattice, the candidates of the
/// search are exactly the other well-formed pairs whose two points lie in
/// the block around the pair: at most one step from the pair along every
/// axis, and level with it or one step up along its own axis.
pub proof fn lemma_neighbors_are_the_pairs_nearby3(pair: BorderPair3D, next: BorderPair3D)
    requires
        pair.wf(),
        pair.A.is_inner(),
    ensures
        is_neighbor_pair3(pair, next) <==> {
            &&& next.wf()
            &&& next != pair
            &&& in_box3_around(next.A, pair)
            &&& in_box3_around(next.B, pair)
        },
{
    let axis = pair.axis_index as int;
    let list = neighbor_pairs3(axis);
    lemma_neighbor_pairs_are_block_pairs3(axis);
    if is_neighbor_pair3(pair, next) {
        let k = choose|k: int| 0 <= k < list.len() && next == #[trigger] neighbor_of3(pair, k);
        assert(list.contains(list[k]));
        assert(list[k].wf() && in_box3(list[k].A, axis) && in_box3(list[k].B, axis));
    }
    if next.wf() && next != pair && in_box3_around(next.A, pair) && in_box3_around(next.B, pair) {
        let rel = BorderPair3D {
            A: IVec3 {
                x: (next.A.x - pair.A.x) as i32,
                y: (next.A.y - pair.A.y) as i32,
                z: (next.A.z - pair.A.z) as i32,
            },
            B: IVec3 {
                x: (next.B.x - pair.A.x) as i32,
                y: (next.B.y - pair.A.y) as i32,
                z: (next.B.z - pair.A.z) as i32,
            },
            axis_index: next.axis_index,
        };
        assert(rel.wf());
        assert(in_box3(rel.A, axis) && in_box3(rel.B, axis));
        assert(rel != parent_pair3(axis));
        assert(list.contains(rel));
        let k = choose|k: int| 0 <= k < list.len() && list[k] == rel;
        assert(neighbor_of3(pair, k) == next);
    }
}

/// Whether `p` lies in the block around `pair`.
pub open spec fn in_box3_around(p: IVec3, pair: BorderPair3D) -> bool {
    in_box3(
        IVec3 {
            x: (p.x - pair.A.x) as i32,
            y: (p.y - pair.A.y) as i32,
            z: (p.z - pair.A.z) as i32,
        },
        pair.axis_index as int,
    ) && -1 <= p.x - pair.A.x <= 1 && -1 <= p.y - pair.A.y <= 1 && -1 <= p.z - pair.A.z <= 1
}

/// Around a pair away from the ends of the lattice, the candidates of the
/// search are exactly the other well-formed pairs whose two points lie in
/// the block around the pair: at most one step from the pair along every
/// axis, and level with it or one step up along its own axis.
pub proof fn lemma_neighbors_are_the_pairs_nearby4(pair: BorderPair4D, next: BorderPair4D)
    requires
        pair.wf(),
        pair.A.is_inner(),
    ensures
        is_neighbor_pair4(pair, next) <==> {
            &&& next.wf()
            &&& next != pair
            &&& in_box4_around(next.A, pair)
            &&& in_box4_around(next.B, pair)
        },
{
    let axis = pair.axis_index as int;
    let list = neighbor_pairs4(axis);
    lemma_neighbor_pairs_are_block_pairs4(axis);
    if is_neighbor_pair4(pair, next) {
        let k = choose|k: int| 0 <= k < list.len() && next == #[trigger] neighbor_of4(pair, k);
        assert(list.contains(list[k]));
        assert(list[k].wf() && in_box4(list[k].A, axis) && in_box4(list[k].B, axis));
    }
    if next.wf() && next != pair && in_box4_around(next.A, pair) && in_box4_around(next.B, pair) {
        let rel = BorderPair4D {
            A: IVec4 {
                x: (next.A.x - pair.A.x) as i32,
                y: (next.A.y - pair.A.y) as i32,
                z: (next.A.z - pair.A.z) as i32,
                w: (next.A.w - pair.A.w) as i32,
            },
            B: IVec4 {
                x: (next.B.x - pair.A.x) as i32,
                y: (next.B.y - pair.A.y) as i32,
                z: (next.B.z - pair.A.z) as i32,
                w: (next.B.w - pair.A.w) as i32,
            },
            axis_index: next.axis_index,
        };
        assert(rel.wf());
        assert(in_box4(rel.A, axis) && in_box4(rel.B, axis));
        assert(rel != parent_pair4(axis));
        assert(list.contains(rel));
        let k = choose|k: int| 0 <= k < list.len() && list[k] == rel;
        assert(neighbor_of4(pair, k) == next);
    }
}

/// Whether `p` lies in the block around `pair`.
pub open spec fn in_box4_around(p: IVec4, pair: BorderPair4D) -> bool {
    in_box4(
        IVec4 {
            x: (p.x - pair.A.x) as i32,
            y: (p.y - pair.A.y) as i32,
            z: (p.z - pair.A.z) as i32,
            w: (p.w - pair.A.w) as i32,
        },
        pair.axis_index as int,
    ) && -1 <= p.x - pair.A.x <= 1 && -1 <= p.y - pair.A.y <= 1 && -1 <= p.z - pair.A.z <= 1 && -1
        <= p.w - pair.A.w <= 1
}

} // verus!
