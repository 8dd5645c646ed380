//! Edges between vertex indices, and small searches over vectors.
use vstd::prelude::*;
use vstd::std_specs::cmp::PartialEqSpec;
use crate::combinations::{combinations_constsize, combinations_of, picks};

verus! {

/// An undirected edge between two vertex indices, stored with `A <= B`.
#[derive(Debug, Copy, Clone, PartialEq, Eq, Structural, Hash)]
pub struct EdgeIndeces {
    pub A: usize,
    pub B: usize,
}

impl EdgeIndeces {
    /// The edge between `a` and `b`, smaller index first.
    pub open spec fn spec_new(a: usize, b: usize) -> EdgeIndeces {
        if a <= b {
            EdgeIndeces { A: a, B: b }
        } else {
            EdgeIndeces { A: b, B: a }
        }
    }

    /// The edge between `a` and `b`.
    pub fn new(a: usize, b: usize) -> (e: EdgeIndeces)
        ensures
            e == Self::spec_new(a, b),
            e.A <= e.B,
    {
        if a <= b {
            EdgeIndeces { A: a, B: b }
        } else {
            EdgeIndeces { A: b, B: a }
        }
    }

    /// Whether `i` is one of the two ends.
    pub open spec fn spec_has_index(self, i: usize) -> bool {
        self.A == i || self.B == i
    }

    /// Whether the edge ends at `i`.
    pub fn has_index(&self, i: &usize) -> (b: bool)
        ensures
            b == self.spec_has_index(*i),
    {
        self.A == *i || self.B == *i
    }

    /// The edge between the two entries of `value`.
    pub fn from_array(value: [usize; 2]) -> (e: EdgeIndeces)
        ensures
            e == Self::spec_new(value@[0], value@[1]),
    {
        Self::new(value[0], value[1])
    }

    /// The two ends, smaller first as stored.
    pub fn to_array(self) -> (out: [usize; 2])
        ensures
            out@[0] == self.A,
            out@[1] == self.B,
    {
        [self.A, self.B]
    }

    /// An integer that identifies the edge: distinct edges have distinct keys.
    pub open spec fn key(self) -> int {
        self.A * 18446744073709551616 + self.B
    }

    /// The key of the edge.
    pub fn key_exec(&self) -> (k: u128)
        ensures
            k == self.key(),
    {
        let a: u128 = self.A as u128;
        let b: u128 = self.B as u128;
        a * 18446744073709551616u128 + b
    }
}

/// Distinct edges have distinct keys.
pub proof fn lemma_edge_key_injective(e: EdgeIndeces, f: EdgeIndeces)
    requires
        e.key() == f.key(),
    ensures
        e == f,
{
}

/// The position of the first element of `vec` equal to `element`.
pub fn index_of<T: PartialEq>(element: T, vec: &Vec<T>) -> (index: usize)
    requires
        T::obeys_eq_spec(),
        exists|i: int| 0 <= i < vec@.len() && (#[trigger] vec@[i]).eq_spec(&element),
    ensures
        index < vec@.len(),
        vec@[index as int].eq_spec(&element),
        forall|j: int| 0 <= j < index ==> !(#[trigger] vec@[j]).eq_spec(&element),
{
    let mut i: usize = 0;
    while i < vec.len()
        invariant
            0 <= i <= vec@.len(),
            T::obeys_eq_spec(),
            forall|j: int| 0 <= j < i ==> !(#[trigger] vec@[j]).eq_spec(&element),
        decreases vec@.len() - i,
    {
        if vec[i] == element {
            return i;
        }
        i += 1;
    }
    proof {
        assert(false);
    }
    0
}

/// Whether some element of `vec` equals `element`.
pub fn contains<T: PartialEq>(vec: &Vec<T>, element: &T) -> (found: bool)
    requires
        T::obeys_eq_spec(),
    ensures
        found == exists|i: int| 0 <= i < vec@.len() && (#[trigger] vec@[i]).eq_spec(element),
{
    let mut i: usize = 0;
    while i < vec.len()
        invariant
            0 <= i <= vec@.len(),
            T::obeys_eq_spec(),
            forall|j: int| 0 <= j < i ==> !(#[trigger] vec@[j]).eq_spec(element),
        decreases vec@.len() - i,
    {
        if vec[i] == *element {
            return true;
        }
        i += 1;
    }
    false
}

/// The edges between all pairs of entries of `source`, in the order of
/// `combinations_of(source.len(), 2)`.
pub open spec fn edges_of(source: Seq<usize>) -> Seq<EdgeIndeces> {
    Seq::new(
        combinations_of(source.len(), 2).len(),
        |i: int|
            EdgeIndeces::spec_new(
                source[combinations_of(source.len(), 2)[i][0]],
                source[combinations_of(source.len(), 2)[i][1]],
            ),
    )
}

/// The edges between all pairs of entries of `source`: see [`edges_of`].
pub fn all_edges(source: &[usize]) -> (edges: Vec<EdgeIndeces>)
    ensures
        edges@ == edges_of(source@),
{
    let pairs: Vec<[usize; 2]> = combinations_constsize::<2, usize>(source);
    let mut edges: Vec<EdgeIndeces> = Vec::new();
    let mut i: usize = 0;
    while i < pairs.len()
        invariant
            0 <= i <= pairs.len(),
            picks(pairs@, source@, combinations_of(source@.len(), 2)),
            edges@.len() == i,
            forall|t: int| 0 <= t < i ==> #[trigger] edges@[t] == edges_of(source@)[t],
        decreases pairs.len() - i,
    {
        let pair: [usize; 2] = pairs[i];
        assert(pairs@[i as int]@[0] == source@[combinations_of(source@.len(), 2)[i as int][0]]);
        assert(pairs@[i as int]@[1] == source@[combinations_of(source@.len(), 2)[i as int][1]]);
        edges.push(EdgeIndeces::from_array(pair));
        i += 1;
    }
    assert(edges@ =~= edges_of(source@));
    edges
}

/// The rows of `nested` laid out one after another.
pub open spec fn flattened<const N: usize>(nested: Seq<[usize; N]>) -> Seq<usize>
    decreases nested.len(),
{
    if nested.len() == 0 {
        Seq::<usize>::empty()
    } else {
        flattened(nested.drop_last()) + nested.last()@
    }
}

/// The rows of `nested_indeces` laid out one after another.
pub fn flat_indeces<const N: usize>(nested_indeces: Vec<[usize; N]>) -> (flat: Vec<usize>)
    ensures
        flat@ == flattened(nested_indeces@),
{
    let mut flat: Vec<usize> = Vec::new();
    let mut i: usize = 0;
    while i < nested_indeces.len()
        invariant
            0 <= i <= nested_indeces@.len(),
            flat@ == flattened(nested_indeces@.subrange(0, i as int)),
        decreases nested_indeces@.len() - i,
    {
        let row: [usize; N] = nested_indeces[i];
        let ghost start = flat@;
        let mut j: usize = 0;
        while j < N
            invariant
                0 <= j <= N,
                flat@ == start + row@.subrange(0, j as int),
            decreases N - j,
        {
            flat.push(row[j]);
            assert(flat@ =~= start + row@.subrange(0, j + 1));
            j += 1;
        }
        proof {
            let next = nested_indeces@.subrange(0, i + 1);
            assert(next.drop_last() =~= nested_indeces@.subrange(0, i as int));
            assert(next.last() == row);
            assert(row@.subrange(0, N as int) =~= row@);
        }
        i += 1;
    }
    assert(nested_indeces@.subrange(0, nested_indeces@.len() as int) =~= nested_indeces@);
    flat
}

/// The six edges of a tetrahedron.
pub open spec fn edges_of_tetrahedron(t: [usize; 4]) -> Seq<EdgeIndeces> {
    seq![
        EdgeIndeces::spec_new(t@[0], t@[1]),
        EdgeIndeces::spec_new(t@[0], t@[2]),
        EdgeIndeces::spec_new(t@[1], t@[2]),
        EdgeIndeces::spec_new(t@[0], t@[3]),
        EdgeIndeces::spec_new(t@[1], t@[3]),
        EdgeIndeces::spec_new(t@[2], t@[3]),
    ]
}

/// The edges of all the tetrahedra, tetrahedron after tetrahedron.
pub open spec fn all_edges_of_tetrahedra(tetrahedra: Seq<[usize; 4]>) -> Seq<EdgeIndeces>
    decreases tetrahedra.len(),
{
    if tetrahedra.len() == 0 {
        Seq::<EdgeIndeces>::empty()
    } else {
        all_edges_of_tetrahedra(tetrahedra.drop_last()) + edges_of_tetrahedron(tetrahedra.last())
    }
}

} // verus!
