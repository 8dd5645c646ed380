//! Fixed-size combinations of the elements of a sequence, in the order in
//! which a counter that advances its lowest position first produces them.
use vstd::prelude::*;

verus! {

/// All `k`-element subsets of `0 .. n`, each written in increasing order,
/// listed by their largest element first: the subsets that avoid `n - 1`
/// come before those that contain it.
pub open spec fn subsets_colex(n: nat, k: nat) -> Seq<Seq<int>>
    decreases n,
{
    if k == 0 {
        seq![Seq::<int>::empty()]
    } else if n == 0 {
        Seq::<Seq<int>>::empty()
    } else {
        subsets_colex((n - 1) as nat, k) + Seq::new(
            subsets_colex((n - 1) as nat, (k - 1) as nat).len(),
            |i: int| subsets_colex((n - 1) as nat, (k - 1) as nat)[i].push(n - 1),
        )
    }
}

/// The index tuples that the combination functions walk through: the
/// `k`-element subsets of `0 .. n` for `k > 0`, and nothing at all for `k == 0`.
pub open spec fn combinations_of(n: nat, k: nat) -> Seq<Seq<int>> {
    if k == 0 {
        Seq::<Seq<int>>::empty()
    } else {
        subsets_colex(n, k)
    }
}

/// `rows` holds exactly the index tuples `combos`.
pub open spec fn rows_match(rows: Seq<Vec<usize>>, combos: Seq<Seq<int>>) -> bool {
    &&& rows.len() == combos.len()
    &&& forall|i: int| 0 <= i < rows.len() ==> (#[trigger] rows[i])@.len() == combos[i].len()
    &&& forall|i: int, j: int|
        0 <= i < rows.len() && 0 <= j < combos[i].len() ==> (#[trigger] rows[i]@[j]) as int
            == combos[i][j]
}

/// `c` lists `k` strictly increasing indices below `n`.
pub open spec fn is_combination(c: Seq<int>, n: nat, k: nat) -> bool {
    &&& c.len() == k
    &&& forall|j: int| 0 <= j < k ==> 0 <= #[trigger] c[j] < n
    &&& forall|a: int, b: int| 0 <= a < b < k ==> #[trigger] c[a] < #[trigger] c[b]
}

/// Every tuple of `subsets_colex(n, k)` has `k` strictly increasing entries
/// taken from `0 .. n`.
pub proof fn lemma_subsets_shape(n: nat, k: nat)
    ensures
        forall|i: int|
            0 <= i < subsets_colex(n, k).len() ==> is_combination(
                #[trigger] subsets_colex(n, k)[i],
                n,
                k,
            ),
    decreases n,
{
    if k == 0 || n == 0 {
    } else {
        let left = subsets_colex((n - 1) as nat, k);
        let base = subsets_colex((n - 1) as nat, (k - 1) as nat);
        lemma_subsets_shape((n - 1) as nat, k);
        lemma_subsets_shape((n - 1) as nat, (k - 1) as nat);
        assert forall|i: int| 0 <= i < subsets_colex(n, k).len() implies is_combination(
            #[trigger] subsets_colex(n, k)[i],
            n,
            k,
        ) by {
            let c = subsets_colex(n, k)[i];
            if i < left.len() {
                assert(c == left[i]);
                assert(is_combination(left[i], (n - 1) as nat, k));
            } else {
                let b = base[i - left.len()];
                assert(c == b.push(n - 1));
                assert(is_combination(b, (n - 1) as nat, (k - 1) as nat));
                assert forall|j: int| 0 <= j < k implies 0 <= #[trigger] c[j] < n by {
                    if j < k - 1 {
                        assert(c[j] == b[j]);
                    }
                }
                assert forall|x: int, y: int| 0 <= x < y < k implies #[trigger] c[x]
                    < #[trigger] c[y] by {
                    assert(c[x] == b[x]);
                    if y < k - 1 {
                        assert(c[y] == b[y]);
                    }
                }
            }
        }
    }
}

/// A type that knows how many elements it holds.
pub trait Length {
    spec fn spec_length(&self) -> nat;

    fn length(&self) -> (n: usize)
        ensures
            n == self.spec_length(),
    ;
}

impl<T> Length for Vec<T> {
    open spec fn spec_length(&self) -> nat {
        self@.len()
    }

    fn length(&self) -> (n: usize) {
        self.len()
    }
}

impl<T, const N: usize> Length for [T; N] {
    open spec fn spec_length(&self) -> nat {
        N as nat
    }

    fn length(&self) -> (n: usize) {
        N
    }
}

/// The index tuples `subsets_colex(n, k)`, computed.
fn index_subsets(n: usize, k: usize) -> (rows: Vec<Vec<usize>>)
    ensures
        rows_match(rows@, subsets_colex(n as nat, k as nat)),
    decreases n,
{
    if k == 0 {
        let mut rows: Vec<Vec<usize>> = Vec::new();
        rows.push(Vec::new());
        rows
    } else if n == 0 {
        Vec::new()
    } else {
        let mut rows = index_subsets(n - 1, k);
        let base = index_subsets(n - 1, k - 1);
        let ghost left = subsets_colex((n - 1) as nat, k as nat);
        let ghost right = subsets_colex((n - 1) as nat, (k - 1) as nat);
        let ghost all = subsets_colex(n as nat, k as nat);
        proof {
            lemma_subsets_shape((n - 1) as nat, (k - 1) as nat);
        }
        let mut i: usize = 0;
        while i < base.len()
            invariant
                0 <= i <= base.len(),
                n > 0,
                k > 0,
                rows_match(base@, right),
                left == subsets_colex((n - 1) as nat, k as nat),
                right == subsets_colex((n - 1) as nat, (k - 1) as nat),
                all == subsets_colex(n as nat, k as nat),
                rows_match(rows@, all.subrange(0, left.len() + i)),
                forall|r: int| 0 <= r < right.len() ==> (#[trigger] right[r]).len() == k - 1,
            decreases base.len() - i,
        {
            let mut row: Vec<usize> = Vec::new();
            let mut j: usize = 0;
            while j < base[i].len()
                invariant
                    0 <= i < base.len(),
                    0 <= j <= base[i as int]@.len(),
                    rows_match(base@, right),
                    row@.len() == j,
                    forall|t: int| 0 <= t < j ==> (#[trigger] row@[t]) as int == right[i as int][t],
                decreases base[i as int]@.len() - j,
            {
                row.push(base[i][j]);
                j += 1;
            }
            row.push(n - 1);
            proof {
                assert(all[left.len() + i] == right[i as int].push(n - 1));
            }
            let ghost before = rows@;
            rows.push(row);
            proof {
                let target = all.subrange(0, left.len() + i + 1);
                assert forall|a: int| 0 <= a < rows@.len() implies (#[trigger] rows@[a])@.len()
                    == target[a].len() by {
                    if a < before.len() {
                        assert(rows@[a] == before[a]);
                        assert(target[a] == all.subrange(0, left.len() + i)[a]);
                    }
                }
                assert forall|a: int, b: int|
                    0 <= a < rows@.len() && 0 <= b < target[a].len() implies (
                #[trigger] rows@[a]@[b]) as int == target[a][b] by {
                    if a < before.len() {
                        assert(rows@[a] == before[a]);
                        assert(target[a] == all.subrange(0, left.len() + i)[a]);
                    }
                }
            }
            i += 1;
        }
        proof {
            assert(all.subrange(0, left.len() + base.len()) =~= all);
        }
        rows
    }
}

/// `out` lists, tuple by tuple, the elements of `source` at the indices `combos`.
pub open spec fn picks<T, const K: usize>(
    out: Seq<[T; K]>,
    source: Seq<T>,
    combos: Seq<Seq<int>>,
) -> bool {
    &&& out.len() == combos.len()
    &&& forall|i: int, j: int|
        0 <= i < out.len() && 0 <= j < K ==> (#[trigger] out[i]@[j]) == source[combos[i][j]]
}

/// The array `[0, 1, .., N - 1]`.
pub fn array_0_to_N<const N: usize>() -> (array: [usize; N])
    ensures
        forall|i: int| 0 <= i < N ==> #[trigger] array@[i] == i,
{
    let mut array: [usize; N] = [0usize; N];
    let mut i: usize = 0;
    while i < N
        invariant
            0 <= i <= N,
            forall|t: int| 0 <= t < i ==> #[trigger] array@[t] == t,
        decreases N - i,
    {
        array[i] = i;
        i += 1;
    }
    array
}

/// All `K`-element combinations of `source`, each in the order of `source`,
/// listed in the order of `combinations_of`.
pub fn combinations_constsize<const K: usize, T: Copy>(source: &[T]) -> (out: Vec<[T; K]>)
    ensures
        picks(out@, source@, combinations_of(source@.len(), K as nat)),
{
    let mut out: Vec<[T; K]> = Vec::new();
    if K == 0 {
        return out;
    }
    let n: usize = source.len();
    let rows = index_subsets(n, K);
    let ghost combos = subsets_colex(n as nat, K as nat);
    proof {
        lemma_subsets_shape(n as nat, K as nat);
    }
    let mut i: usize = 0;
    while i < rows.len()
        invariant
            0 <= i <= rows.len(),
            K > 0,
            n == source@.len(),
            combos == subsets_colex(n as nat, K as nat),
            rows_match(rows@, combos),
            forall|r: int| 0 <= r < combos.len() ==> is_combination(#[trigger] combos[r], n as nat, K as nat),
            picks(out@, source@, combos.subrange(0, i as int)),
        decreases rows.len() - i,
    {
        let row = &rows[i];
        assert(is_combination(combos[i as int], n as nat, K as nat));
        assert(row@.len() == K);
        assert(row@[0] as int == combos[i as int][0]);
        let mut tuple: [T; K] = [source[row[0]]; K];
        let mut j: usize = 0;
        while j < K
            invariant
                0 <= j <= K,
                0 <= i < rows.len(),
                row == rows@[i as int],
                row@.len() == K,
                n == source@.len(),
                rows_match(rows@, combos),
                is_combination(combos[i as int], n as nat, K as nat),
                forall|t: int| 0 <= t < j ==> #[trigger] tuple@[t] == source@[combos[i as int][t]],
            decreases K - j,
        {
            assert(row@[j as int] as int == combos[i as int][j as int]);
            tuple[j] = source[row[j]];
            j += 1;
        }
        let ghost before = out@;
        out.push(tuple);
        proof {
            let target = combos.subrange(0, i + 1);
            assert forall|a: int, b: int| 0 <= a < out@.len() && 0 <= b < K implies (
            #[trigger] out@[a]@[b]) == source@[target[a][b]] by {
                if a < before.len() {
                    assert(out@[a] == before[a]);
                    assert(target[a] == combos.subrange(0, i as int)[a]);
                }
            }
        }
        i += 1;
    }
    proof {
        assert(combos.subrange(0, rows.len() as int) =~= combos);
    }
    out
}

/// As [`combinations_constsize`], for a vector that is handed over.
pub fn combinations_constsize_owned<const K: usize, T: Copy>(source: Vec<T>) -> (out: Vec<[T; K]>)
    ensures
        picks(out@, source@, combinations_of(source@.len(), K as nat)),
{
    combinations_constsize(source.as_slice())
}

/// The pairs out of four, in order.
pub proof fn lemma_pairs_of_four()
    ensures
        combinations_of(4, 2) =~= seq![
            seq![0int, 1],
            seq![0int, 2],
            seq![1int, 2],
            seq![0int, 3],
            seq![1int, 3],
            seq![2int, 3],
        ],
{
    reveal_with_fuel(subsets_colex, 6);
    assert(subsets_colex(0, 1) =~= Seq::<Seq<int>>::empty());
    assert(subsets_colex(1, 1) =~= seq![seq![0int]]);
    assert(subsets_colex(2, 1) =~= seq![seq![0int], seq![1int]]);
    assert(subsets_colex(3, 1) =~= seq![seq![0int], seq![1int], seq![2int]]);
    assert(subsets_colex(0, 2) =~= Seq::<Seq<int>>::empty());
    assert(subsets_colex(1, 2) =~= Seq::<Seq<int>>::empty());
    assert(subsets_colex(2, 2) =~= seq![seq![0int, 1]]) by {
        assert(subsets_colex(2, 2)[0] =~= seq![0int, 1]);
    }
    assert(subsets_colex(3, 2) =~= seq![seq![0int, 1], seq![0int, 2], seq![1int, 2]]) by {
        assert(subsets_colex(3, 2)[1] =~= seq![0int, 2]);
        assert(subsets_colex(3, 2)[2] =~= seq![1int, 2]);
    }
    let all = subsets_colex(4, 2);
    assert(all[3] =~= seq![0int, 3]);
    assert(all[4] =~= seq![1int, 3]);
    assert(all[5] =~= seq![2int, 3]);
}

/// The pairs out of three, in order.
pub proof fn lemma_pairs_of_three()
    ensures
        combinations_of(3, 2) =~= seq![seq![0int, 1], seq![0int, 2], seq![1int, 2]],
{
    reveal_with_fuel(subsets_colex, 5);
    assert(subsets_colex(0, 1) =~= Seq::<Seq<int>>::empty());
    assert(subsets_colex(1, 1) =~= seq![seq![0int]]);
    assert(subsets_colex(2, 1) =~= seq![seq![0int], seq![1int]]);
    assert(subsets_colex(1, 2) =~= Seq::<Seq<int>>::empty());
    assert(subsets_colex(2, 2) =~= seq![seq![0int, 1]]) by {
        assert(subsets_colex(2, 2)[0] =~= seq![0int, 1]);
    }
    let all = subsets_colex(3, 2);
    assert(all[1] =~= seq![0int, 2]);
    assert(all[2] =~= seq![1int, 2]);
}

/// The pairs out of six, in order.
pub proof fn lemma_pairs_of_six()
    ensures
        combinations_of(6, 2) =~= seq![
            seq![0int, 1],
            seq![0int, 2],
            seq![1int, 2],
            seq![0int, 3],
            seq![1int, 3],
            seq![2int, 3],
            seq![0int, 4],
            seq![1int, 4],
            seq![2int, 4],
            seq![3int, 4],
            seq![0int, 5],
            seq![1int, 5],
            seq![2int, 5],
            seq![3int, 5],
            seq![4int, 5],
        ],
{
    reveal_with_fuel(subsets_colex, 3);
    assert(subsets_colex(0, 1) =~= Seq::<Seq<int>>::empty());
    assert(subsets_colex(1, 1) =~= seq![
        seq![0int],
    ]) by {
        assert(subsets_colex(1, 1)[0] =~= seq![0int]);
    }
    assert(subsets_colex(2, 1) =~= seq![
        seq![0int],
        seq![1int],
    ]) by {
        assert(subsets_colex(2, 1)[0] =~= seq![0int]);
        assert(subsets_colex(2, 1)[1] =~= seq![1int]);
    }
    assert(subsets_colex(3, 1) =~= seq![
        seq![0int],
        seq![1int],
        seq![2int],
    ]) by {
        assert(subsets_colex(3, 1)[0] =~= seq![0int]);
        assert(subsets_colex(3, 1)[1] =~= seq![1int]);
        assert(subsets_colex(3, 1)[2] =~= seq![2int]);
    }
    assert(subsets_colex(4, 1) =~= seq![
        seq![0int],
        seq![1int],
        seq![2int],
        seq![3int],
    ]) by {
        assert(subsets_colex(4, 1)[0] =~= seq![0int]);
        assert(subsets_colex(4, 1)[1] =~= seq![1int]);
        assert(subsets_colex(4, 1)[2] =~= seq![2int]);
        assert(subsets_colex(4, 1)[3] =~= seq![3int]);
    }
    assert(subsets_colex(5, 1) =~= seq![
        seq![0int],
        seq![1int],
        seq![2int],
        seq![3int],
        seq![4int],
    ]) by {
        assert(subsets_colex(5, 1)[0] =~= seq![0int]);
        assert(subsets_colex(5, 1)[1] =~= seq![1int]);
        assert(subsets_colex(5, 1)[2] =~= seq![2int]);
        assert(subsets_colex(5, 1)[3] =~= seq![3int]);
        assert(subsets_colex(5, 1)[4] =~= seq![4int]);
    }
    assert(subsets_colex(0, 2) =~= Seq::<Seq<int>>::empty());
    assert(subsets_colex(1, 2) =~= Seq::<Seq<int>>::empty());
    assert(subsets_colex(2, 2) =~= seq![
        seq![0int, 1],
    ]) by {
        assert(subsets_colex(2, 2)[0] =~= seq![0int, 1]);
    }
    assert(subsets_colex(3, 2) =~= seq![
        seq![0int, 1],
        seq![0int, 2],
        seq![1int, 2],
    ]) by {
        assert(subsets_colex(3, 2)[0] =~= seq![0int, 1]);
        assert(subsets_colex(3, 2)[1] =~= seq![0int, 2]);
        assert(subsets_colex(3, 2)[2] =~= seq![1int, 2]);
    }
    assert(subsets_colex(4, 2) =~= seq![
        seq![0int, 1],
        seq![0int, 2],
        seq![1int, 2],
        seq![0int, 3],
        seq![1int, 3],
        seq![2int, 3],
    ]) by {
        assert(subsets_colex(4, 2)[0] =~= seq![0int, 1]);
        assert(subsets_colex(4, 2)[1] =~= seq![0int, 2]);
        assert(subsets_colex(4, 2)[2] =~= seq![1int, 2]);
        assert(subsets_colex(4, 2)[3] =~= seq![0int, 3]);
        assert(subsets_colex(4, 2)[4] =~= seq![1int, 3]);
        assert(subsets_colex(4, 2)[5] =~= seq![2int, 3]);
    }
    assert(subsets_colex(5, 2) =~= seq![
        seq![0int, 1],
        seq![0int, 2],
        seq![1int, 2],
        seq![0int, 3],
        seq![1int, 3],
        seq![2int, 3],
        seq![0int, 4],
        seq![1int, 4],
        seq![2int, 4],
        seq![3int, 4],
    ]) by {
        assert(subsets_colex(5, 2)[0] =~= seq![0int, 1]);
        assert(subsets_colex(5, 2)[1] =~= seq![0int, 2]);
        assert(subsets_colex(5, 2)[2] =~= seq![1int, 2]);
        assert(subsets_colex(5, 2)[3] =~= seq![0int, 3]);
        assert(subsets_colex(5, 2)[4] =~= seq![1int, 3]);
        assert(subsets_colex(5, 2)[5] =~= seq![2int, 3]);
        assert(subsets_colex(5, 2)[6] =~= seq![0int, 4]);
        assert(subsets_colex(5, 2)[7] =~= seq![1int, 4]);
        assert(subsets_colex(5, 2)[8] =~= seq![2int, 4]);
        assert(subsets_colex(5, 2)[9] =~= seq![3int, 4]);
    }
    assert(subsets_colex(6, 2) =~= seq![
        seq![0int, 1],
        seq![0int, 2],
        seq![1int, 2],
        seq![0int, 3],
        seq![1int, 3],
        seq![2int, 3],
        seq![0int, 4],
        seq![1int, 4],
        seq![2int, 4],
        seq![3int, 4],
        seq![0int, 5],
        seq![1int, 5],
        seq![2int, 5],
        seq![3int, 5],
        seq![4int, 5],
    ]) by {
        assert(subsets_colex(6, 2)[0] =~= seq![0int, 1]);
        assert(subsets_colex(6, 2)[1] =~= seq![0int, 2]);
        assert(subsets_colex(6, 2)[2] =~= seq![1int, 2]);
        assert(subsets_colex(6, 2)[3] =~= seq![0int, 3]);
        assert(subsets_colex(6, 2)[4] =~= seq![1int, 3]);
        assert(subsets_colex(6, 2)[5] =~= seq![2int, 3]);
        assert(subsets_colex(6, 2)[6] =~= seq![0int, 4]);
        assert(subsets_colex(6, 2)[7] =~= seq![1int, 4]);
        assert(subsets_colex(6, 2)[8] =~= seq![2int, 4]);
        assert(subsets_colex(6, 2)[9] =~= seq![3int, 4]);
        assert(subsets_colex(6, 2)[10] =~= seq![0int, 5]);
        assert(subsets_colex(6, 2)[11] =~= seq![1int, 5]);
        assert(subsets_colex(6, 2)[12] =~= seq![2int, 5]);
        assert(subsets_colex(6, 2)[13] =~= seq![3int, 5]);
        assert(subsets_colex(6, 2)[14] =~= seq![4int, 5]);
    }
}

/// The quadruples out of six, in order.
pub proof fn lemma_quadruples_of_six()
    ensures
        combinations_of(6, 4) =~= seq![
            seq![0int, 1, 2, 3],
            seq![0int, 1, 2, 4],
            seq![0int, 1, 3, 4],
            seq![0int, 2, 3, 4],
            seq![1int, 2, 3, 4],
            seq![0int, 1, 2, 5],
            seq![0int, 1, 3, 5],
            seq![0int, 2, 3, 5],
            seq![1int, 2, 3, 5],
            seq![0int, 1, 4, 5],
            seq![0int, 2, 4, 5],
            seq![1int, 2, 4, 5],
            seq![0int, 3, 4, 5],
            seq![1int, 3, 4, 5],
            seq![2int, 3, 4, 5],
        ],
{
    reveal_with_fuel(subsets_colex, 3);
    assert(subsets_colex(0, 1) =~= Seq::<Seq<int>>::empty());
    assert(subsets_colex(1, 1) =~= seq![
        seq![0int],
    ]) by {
        assert(subsets_colex(1, 1)[0] =~= seq![0int]);
    }
    assert(subsets_colex(2, 1) =~= seq![
        seq![0int],
        seq![1int],
    ]) by {
        assert(subsets_colex(2, 1)[0] =~= seq![0int]);
        assert(subsets_colex(2, 1)[1] =~= seq![1int]);
    }
    assert(subsets_colex(3, 1) =~= seq![
        seq![0int],
        seq![1int],
        seq![2int],
    ]) by {
        assert(subsets_colex(3, 1)[0] =~= seq![0int]);
        assert(subsets_colex(3, 1)[1] =~= seq![1int]);
        assert(subsets_colex(3, 1)[2] =~= seq![2int]);
    }
    assert(subsets_colex(0, 2) =~= Seq::<Seq<int>>::empty());
    assert(subsets_colex(1, 2) =~= Seq::<Seq<int>>::empty());
    assert(subsets_colex(2, 2) =~= seq![
        seq![0int, 1],
    ]) by {
        assert(subsets_colex(2, 2)[0] =~= seq![0int, 1]);
    }
    assert(subsets_colex(3, 2) =~= seq![
        seq![0int, 1],
        seq![0int, 2],
        seq![1int, 2],
    ]) by {
        assert(subsets_colex(3, 2)[0] =~= seq![0int, 1]);
        assert(subsets_colex(3, 2)[1] =~= seq![0int, 2]);
        assert(subsets_colex(3, 2)[2] =~= seq![1int, 2]);
    }
    assert(subsets_colex(4, 2) =~= seq![
        seq![0int, 1],
        seq![0int, 2],
        seq![1int, 2],
        seq![0int, 3],
        seq![1int, 3],
        seq![2int, 3],
    ]) by {
        assert(subsets_colex(4, 2)[0] =~= seq![0int, 1]);
        assert(subsets_colex(4, 2)[1] =~= seq![0int, 2]);
        assert(subsets_colex(4, 2)[2] =~= seq![1int, 2]);
        assert(subsets_colex(4, 2)[3] =~= seq![0int, 3]);
        assert(subsets_colex(4, 2)[4] =~= seq![1int, 3]);
        assert(subsets_colex(4, 2)[5] =~= seq![2int, 3]);
    }
    assert(subsets_colex(0, 3) =~= Seq::<Seq<int>>::empty());
    assert(subsets_colex(1, 3) =~= Seq::<Seq<int>>::empty());
    assert(subsets_colex(2, 3) =~= Seq::<Seq<int>>::empty());
    assert(subsets_colex(3, 3) =~= seq![
        seq![0int, 1, 2],
    ]) by {
        assert(subsets_colex(3, 3)[0] =~= seq![0int, 1, 2]);
    }
    assert(subsets_colex(4, 3) =~= seq![
        seq![0int, 1, 2],
        seq![0int, 1, 3],
        seq![0int, 2, 3],
        seq![1int, 2, 3],
    ]) by {
        assert(subsets_colex(4, 3)[0] =~= seq![0int, 1, 2]);
        assert(subsets_colex(4, 3)[1] =~= seq![0int, 1, 3]);
        assert(subsets_colex(4, 3)[2] =~= seq![0int, 2, 3]);
        assert(subsets_colex(4, 3)[3] =~= seq![1int, 2, 3]);
    }
    assert(subsets_colex(5, 3) =~= seq![
        seq![0int, 1, 2],
        seq![0int, 1, 3],
        seq![0int, 2, 3],
        seq![1int, 2, 3],
        seq![0int, 1, 4],
        seq![0int, 2, 4],
        seq![1int, 2, 4],
        seq![0int, 3, 4],
        seq![1int, 3, 4],
        seq![2int, 3, 4],
    ]) by {
        assert(subsets_colex(5, 3)[0] =~= seq![0int, 1, 2]);
        assert(subsets_colex(5, 3)[1] =~= seq![0int, 1, 3]);
        assert(subsets_colex(5, 3)[2] =~= seq![0int, 2, 3]);
        assert(subsets_colex(5, 3)[3] =~= seq![1int, 2, 3]);
        assert(subsets_colex(5, 3)[4] =~= seq![0int, 1, 4]);
        assert(subsets_colex(5, 3)[5] =~= seq![0int, 2, 4]);
        assert(subsets_colex(5, 3)[6] =~= seq![1int, 2, 4]);
        assert(subsets_colex(5, 3)[7] =~= seq![0int, 3, 4]);
        assert(subsets_colex(5, 3)[8] =~= seq![1int, 3, 4]);
        assert(subsets_colex(5, 3)[9] =~= seq![2int, 3, 4]);
    }
    assert(subsets_colex(0, 4) =~= Seq::<Seq<int>>::empty());
    assert(subsets_colex(1, 4) =~= Seq::<Seq<int>>::empty());
    assert(subsets_colex(2, 4) =~= Seq::<Seq<int>>::empty());
    assert(subsets_colex(3, 4) =~= Seq::<Seq<int>>::empty());
    assert(subsets_colex(4, 4) =~= seq![
        seq![0int, 1, 2, 3],
    ]) by {
        assert(subsets_colex(4, 4)[0] =~= seq![0int, 1, 2, 3]);
    }
    assert(subsets_colex(5, 4) =~= seq![
        seq![0int, 1, 2, 3],
        seq![0int, 1, 2, 4],
        seq![0int, 1, 3, 4],
        seq![0int, 2, 3, 4],
        seq![1int, 2, 3, 4],
    ]) by {
        assert(subsets_colex(5, 4)[0] =~= seq![0int, 1, 2, 3]);
        assert(subsets_colex(5, 4)[1] =~= seq![0int, 1, 2, 4]);
        assert(subsets_colex(5, 4)[2] =~= seq![0int, 1, 3, 4]);
        assert(subsets_colex(5, 4)[3] =~= seq![0int, 2, 3, 4]);
        assert(subsets_colex(5, 4)[4] =~= seq![1int, 2, 3, 4]);
    }
    assert(subsets_colex(6, 4) =~= seq![
        seq![0int, 1, 2, 3],
        seq![0int, 1, 2, 4],
        seq![0int, 1, 3, 4],
        seq![0int, 2, 3, 4],
        seq![1int, 2, 3, 4],
        seq![0int, 1, 2, 5],
        seq![0int, 1, 3, 5],
        seq![0int, 2, 3, 5],
        seq![1int, 2, 3, 5],
        seq![0int, 1, 4, 5],
        seq![0int, 2, 4, 5],
        seq![1int, 2, 4, 5],
        seq![0int, 3, 4, 5],
        seq![1int, 3, 4, 5],
        seq![2int, 3, 4, 5],
    ]) by {
        assert(subsets_colex(6, 4)[0] =~= seq![0int, 1, 2, 3]);
        assert(subsets_colex(6, 4)[1] =~= seq![0int, 1, 2, 4]);
        assert(subsets_colex(6, 4)[2] =~= seq![0int, 1, 3, 4]);
        assert(subsets_colex(6, 4)[3] =~= seq![0int, 2, 3, 4]);
        assert(subsets_colex(6, 4)[4] =~= seq![1int, 2, 3, 4]);
        assert(subsets_colex(6, 4)[5] =~= seq![0int, 1, 2, 5]);
        assert(subsets_colex(6, 4)[6] =~= seq![0int, 1, 3, 5]);
        assert(subsets_colex(6, 4)[7] =~= seq![0int, 2, 3, 5]);
        assert(subsets_colex(6, 4)[8] =~= seq![1int, 2, 3, 5]);
        assert(subsets_colex(6, 4)[9] =~= seq![0int, 1, 4, 5]);
        assert(subsets_colex(6, 4)[10] =~= seq![0int, 2, 4, 5]);
        assert(subsets_colex(6, 4)[11] =~= seq![1int, 2, 4, 5]);
        assert(subsets_colex(6, 4)[12] =~= seq![0int, 3, 4, 5]);
        assert(subsets_colex(6, 4)[13] =~= seq![1int, 3, 4, 5]);
        assert(subsets_colex(6, 4)[14] =~= seq![2int, 3, 4, 5]);
    }
}

/// `out` lists, tuple by tuple, what `source` hands back for the indices `combos`.
pub open spec fn picks_by_call<T, const K: usize, F: Fn(usize) -> T>(
    out: Seq<[T; K]>,
    source: F,
    combos: Seq<Seq<int>>,
) -> bool {
    &&& out.len() == combos.len()
    &&& forall|i: int, j: int|
        0 <= i < out.len() && 0 <= j < K ==> call_ensures(
            source,
            (combos[i][j] as usize,),
            #[trigger] out[i]@[j],
        )
}

/// All `K`-element combinations of the values that `source` hands back for
/// the indices below `source_length`, in the order of `combinations_of`.
pub fn combinations_constsize_closure<const K: usize, T: Copy, F: Fn(usize) -> T>(
    source: F,
    source_length: usize,
) -> (out: Vec<[T; K]>)
    requires
        forall|i: usize| i < source_length ==> call_requires(source, (i,)),
    ensures
        picks_by_call(out@, source, combinations_of(source_length as nat, K as nat)),
{
    let mut out: Vec<[T; K]> = Vec::new();
    if K == 0 {
        return out;
    }
    let rows = index_subsets(source_length, K);
    let ghost combos = subsets_colex(source_length as nat, K as nat);
    proof {
        lemma_subsets_shape(source_length as nat, K as nat);
    }
    let mut i: usize = 0;
    while i < rows.len()
        invariant
            0 <= i <= rows.len(),
            K > 0,
            forall|t: usize| t < source_length ==> call_requires(source, (t,)),
            combos == subsets_colex(source_length as nat, K as nat),
            rows_match(rows@, combos),
            forall|r: int|
                0 <= r < combos.len() ==> is_combination(
                    #[trigger] combos[r],
                    source_length as nat,
                    K as nat,
                ),
            picks_by_call(out@, source, combos.subrange(0, i as int)),
        decreases rows.len() - i,
    {
        let row = &rows[i];
        assert(is_combination(combos[i as int], source_length as nat, K as nat));
        assert(row@.len() == K);
        assert(row@[0] as int == combos[i as int][0]);
        let first = source(row[0]);
        let mut tuple: [T; K] = [first; K];
        let mut j: usize = 1;
        while j < K
            invariant
                1 <= j <= K,
                0 <= i < rows.len(),
                row == rows@[i as int],
                row@.len() == K,
                forall|t: usize| t < source_length ==> call_requires(source, (t,)),
                rows_match(rows@, combos),
                is_combination(combos[i as int], source_length as nat, K as nat),
                forall|t: int|
                    0 <= t < j ==> call_ensures(
                        source,
                        (combos[i as int][t] as usize,),
                        #[trigger] tuple@[t],
                    ),
            decreases K - j,
        {
            assert(row@[j as int] as int == combos[i as int][j as int]);
            let value = source(row[j]);
            let ghost before = tuple@;
            tuple[j] = value;
            proof {
                assert forall|t: int| 0 <= t < j + 1 implies call_ensures(
                    source,
                    (combos[i as int][t] as usize,),
                    #[trigger] tuple@[t],
                ) by {
                    if t < j {
                        assert(tuple@[t] == before[t]);
                    }
                }
            }
            j += 1;
        }
        let ghost before = out@;
        out.push(tuple);
        proof {
            let target = combos.subrange(0, i + 1);
            assert forall|a: int, b: int| 0 <= a < out@.len() && 0 <= b < K implies call_ensures(
                source,
                (target[a][b] as usize,),
                #[trigger] out@[a]@[b],
            ) by {
                if a < before.len() {
                    assert(out@[a] == before[a]);
                    assert(target[a] == combos.subrange(0, i as int)[a]);
                }
            }
        }
        i += 1;
    }
    proof {
        assert(combos.subrange(0, rows.len() as int) =~= combos);
    }
    out
}

/// All `K`-element combinations of the numbers from `start` up to, but not
/// including, `end`, in the order of `combinations_of`.
pub fn combinations_constsize_range<const K: usize>(start: usize, end: usize) -> (out: Vec<
    [usize; K],
>)
    requires
        start <= end,
    ensures
        out@.len() == combinations_of((end - start) as nat, K as nat).len(),
        forall|i: int, j: int|
            0 <= i < out@.len() && 0 <= j < K ==> (#[trigger] out@[i]@[j]) == start
                + combinations_of((end - start) as nat, K as nat)[i][j],
{
    let length: usize = end - start;
    let getter = |i: usize| -> (value: usize)
        requires
            i < length,
            start + length <= usize::MAX,
        ensures
            value == start + i,
        { start + i };
    let out = combinations_constsize_closure::<K, usize, _>(getter, length);
    proof {
        let combos = combinations_of(length as nat, K as nat);
        if K > 0 {
            lemma_subsets_shape(length as nat, K as nat);
        }
        assert forall|i: int, j: int| 0 <= i < out@.len() && 0 <= j < K implies (
        #[trigger] out@[i]@[j]) == start + combos[i][j] by {
            assert(is_combination(combos[i], length as nat, K as nat));
            assert(0 <= combos[i][j] < length);
            assert(call_ensures(getter, (combos[i][j] as usize,), out@[i]@[j]));
        }
    }
    out
}

/// The one-element tuples are the indices in order.
pub proof fn lemma_singles(n: nat)
    ensures
        subsets_colex(n, 1).len() == n,
        forall|i: int| 0 <= i < n ==> #[trigger] subsets_colex(n, 1)[i] =~= seq![i],
    decreases n,
{
    if n > 0 {
        lemma_singles((n - 1) as nat);
        assert(subsets_colex((n - 1) as nat, 0) =~= seq![Seq::<int>::empty()]);
        assert(subsets_colex(n, 1)[n - 1] =~= seq![n - 1]);
    }
}

/// Every pair of indices in increasing order is among the pairs.
pub proof fn lemma_pairs_complete(n: nat, a: int, b: int)
    requires
        0 <= a < b < n,
    ensures
        exists|q: int|
            0 <= q < combinations_of(n, 2).len() && #[trigger] combinations_of(n, 2)[q] =~= seq![a, b],
    decreases n,
{
    let all = subsets_colex(n, 2);
    let left = subsets_colex((n - 1) as nat, 2);
    if b < n - 1 {
        lemma_pairs_complete((n - 1) as nat, a, b);
        let q = choose|q: int|
            0 <= q < combinations_of((n - 1) as nat, 2).len() && #[trigger] combinations_of(
                (n - 1) as nat,
                2,
            )[q] =~= seq![a, b];
        assert(all[q] == left[q]);
        assert(combinations_of(n, 2)[q] =~= seq![a, b]);
    } else {
        lemma_singles((n - 1) as nat);
        let q = left.len() + a;
        assert(all[q] == subsets_colex((n - 1) as nat, 1)[a].push(n - 1));
        assert(combinations_of(n, 2)[q] =~= seq![a, b]);
    }
}

/// The pairs out of eight, in order.
pub proof fn lemma_pairs_of_eight()
    ensures
        combinations_of(8, 2) =~= seq![
            seq![0int, 1],
            seq![0int, 2],
            seq![1int, 2],
            seq![0int, 3],
            seq![1int, 3],
            seq![2int, 3],
            seq![0int, 4],
            seq![1int, 4],
            seq![2int, 4],
            seq![3int, 4],
            seq![0int, 5],
            seq![1int, 5],
            seq![2int, 5],
            seq![3int, 5],
            seq![4int, 5],
            seq![0int, 6],
            seq![1int, 6],
            seq![2int, 6],
            seq![3int, 6],
            seq![4int, 6],
            seq![5int, 6],
            seq![0int, 7],
            seq![1int, 7],
            seq![2int, 7],
            seq![3int, 7],
            seq![4int, 7],
            seq![5int, 7],
            seq![6int, 7],
        ],
{
    reveal_with_fuel(subsets_colex, 3);
    assert(subsets_colex(0, 1) =~= Seq::<Seq<int>>::empty());
    assert(subsets_colex(1, 1) =~= seq![
        seq![0int],
    ]) by {
        assert(subsets_colex(1, 1)[0] =~= seq![0int]);
    }
    assert(subsets_colex(2, 1) =~= seq![
        seq![0int],
        seq![1int],
    ]) by {
        assert(subsets_colex(2, 1)[0] =~= seq![0int]);
        assert(subsets_colex(2, 1)[1] =~= seq![1int]);
    }
    assert(subsets_colex(3, 1) =~= seq![
        seq![0int],
        seq![1int],
        seq![2int],
    ]) by {
        assert(subsets_colex(3, 1)[0] =~= seq![0int]);
        assert(subsets_colex(3, 1)[1] =~= seq![1int]);
        assert(subsets_colex(3, 1)[2] =~= seq![2int]);
    }
    assert(subsets_colex(4, 1) =~= seq![
        seq![0int],
        seq![1int],
        seq![2int],
        seq![3int],
    ]) by {
        assert(subsets_colex(4, 1)[0] =~= seq![0int]);
        assert(subsets_colex(4, 1)[1] =~= seq![1int]);
        assert(subsets_colex(4, 1)[2] =~= seq![2int]);
        assert(subsets_colex(4, 1)[3] =~= seq![3int]);
    }
    assert(subsets_colex(5, 1) =~= seq![
        seq![0int],
        seq![1int],
        seq![2int],
        seq![3int],
        seq![4int],
    ]) by {
        assert(subsets_colex(5, 1)[0] =~= seq![0int]);
        assert(subsets_colex(5, 1)[1] =~= seq![1int]);
        assert(subsets_colex(5, 1)[2] =~= seq![2int]);
        assert(subsets_colex(5, 1)[3] =~= seq![3int]);
        assert(subsets_colex(5, 1)[4] =~= seq![4int]);
    }
    assert(subsets_colex(6, 1) =~= seq![
        seq![0int],
        seq![1int],
        seq![2int],
        seq![3int],
        seq![4int],
        seq![5int],
    ]) by {
        assert(subsets_colex(6, 1)[0] =~= seq![0int]);
        assert(subsets_colex(6, 1)[1] =~= seq![1int]);
        assert(subsets_colex(6, 1)[2] =~= seq![2int]);
        assert(subsets_colex(6, 1)[3] =~= seq![3int]);
        assert(subsets_colex(6, 1)[4] =~= seq![4int]);
        assert(subsets_colex(6, 1)[5] =~= seq![5int]);
    }
    assert(subsets_colex(7, 1) =~= seq![
        seq![0int],
        seq![1int],
        seq![2int],
        seq![3int],
        seq![4int],
        seq![5int],
        seq![6int],
    ]) by {
        assert(subsets_colex(7, 1)[0] =~= seq![0int]);
        assert(subsets_colex(7, 1)[1] =~= seq![1int]);
        assert(subsets_colex(7, 1)[2] =~= seq![2int]);
        assert(subsets_colex(7, 1)[3] =~= seq![3int]);
        assert(subsets_colex(7, 1)[4] =~= seq![4int]);
        assert(subsets_colex(7, 1)[5] =~= seq![5int]);
        assert(subsets_colex(7, 1)[6] =~= seq![6int]);
    }
    assert(subsets_colex(0, 2) =~= Seq::<Seq<int>>::empty());
    assert(subsets_colex(1, 2) =~= Seq::<Seq<int>>::empty());
    assert(subsets_colex(2, 2) =~= seq![
        seq![0int, 1],
    ]) by {
        assert(subsets_colex(2, 2)[0] =~= seq![0int, 1]);
    }
    assert(subsets_colex(3, 2) =~= seq![
        seq![0int, 1],
        seq![0int, 2],
        seq![1int, 2],
    ]) by {
        assert(subsets_colex(3, 2)[0] =~= seq![0int, 1]);
        assert(subsets_colex(3, 2)[1] =~= seq![0int, 2]);
        assert(subsets_colex(3, 2)[2] =~= seq![1int, 2]);
    }
    assert(subsets_colex(4, 2) =~= seq![
        seq![0int, 1],
        seq![0int, 2],
        seq![1int, 2],
        seq![0int, 3],
        seq![1int, 3],
        seq![2int, 3],
    ]) by {
        assert(subsets_colex(4, 2)[0] =~= seq![0int, 1]);
        assert(subsets_colex(4, 2)[1] =~= seq![0int, 2]);
        assert(subsets_colex(4, 2)[2] =~= seq![1int, 2]);
        assert(subsets_colex(4, 2)[3] =~= seq![0int, 3]);
        assert(subsets_colex(4, 2)[4] =~= seq![1int, 3]);
        assert(subsets_colex(4, 2)[5] =~= seq![2int, 3]);
    }
    assert(subsets_colex(5, 2) =~= seq![
        seq![0int, 1],
        seq![0int, 2],
        seq![1int, 2],
        seq![0int, 3],
        seq![1int, 3],
        seq![2int, 3],
        seq![0int, 4],
        seq![1int, 4],
        seq![2int, 4],
        seq![3int, 4],
    ]) by {
        assert(subsets_colex(5, 2)[0] =~= seq![0int, 1]);
        assert(subsets_colex(5, 2)[1] =~= seq![0int, 2]);
        assert(subsets_colex(5, 2)[2] =~= seq![1int, 2]);
        assert(subsets_colex(5, 2)[3] =~= seq![0int, 3]);
        assert(subsets_colex(5, 2)[4] =~= seq![1int, 3]);
        assert(subsets_colex(5, 2)[5] =~= seq![2int, 3]);
        assert(subsets_colex(5, 2)[6] =~= seq![0int, 4]);
        assert(subsets_colex(5, 2)[7] =~= seq![1int, 4]);
        assert(subsets_colex(5, 2)[8] =~= seq![2int, 4]);
        assert(subsets_colex(5, 2)[9] =~= seq![3int, 4]);
    }
    assert(subsets_colex(6, 2) =~= seq![
        seq![0int, 1],
        seq![0int, 2],
        seq![1int, 2],
        seq![0int, 3],
        seq![1int, 3],
        seq![2int, 3],
        seq![0int, 4],
        seq![1int, 4],
        seq![2int, 4],
        seq![3int, 4],
        seq![0int, 5],
        seq![1int, 5],
        seq![2int, 5],
        seq![3int, 5],
        seq![4int, 5],
    ]) by {
        assert(subsets_colex(6, 2)[0] =~= seq![0int, 1]);
        assert(subsets_colex(6, 2)[1] =~= seq![0int, 2]);
        assert(subsets_colex(6, 2)[2] =~= seq![1int, 2]);
        assert(subsets_colex(6, 2)[3] =~= seq![0int, 3]);
        assert(subsets_colex(6, 2)[4] =~= seq![1int, 3]);
        assert(subsets_colex(6, 2)[5] =~= seq![2int, 3]);
        assert(subsets_colex(6, 2)[6] =~= seq![0int, 4]);
        assert(subsets_colex(6, 2)[7] =~= seq![1int, 4]);
        assert(subsets_colex(6, 2)[8] =~= seq![2int, 4]);
        assert(subsets_colex(6, 2)[9] =~= seq![3int, 4]);
        assert(subsets_colex(6, 2)[10] =~= seq![0int, 5]);
        assert(subsets_colex(6, 2)[11] =~= seq![1int, 5]);
        assert(subsets_colex(6, 2)[12] =~= seq![2int, 5]);
        assert(subsets_colex(6, 2)[13] =~= seq![3int, 5]);
        assert(subsets_colex(6, 2)[14] =~= seq![4int, 5]);
    }
    assert(subsets_colex(7, 2) =~= seq![
        seq![0int, 1],
        seq![0int, 2],
        seq![1int, 2],
        seq![0int, 3],
        seq![1int, 3],
        seq![2int, 3],
        seq![0int, 4],
        seq![1int, 4],
        seq![2int, 4],
        seq![3int, 4],
        seq![0int, 5],
        seq![1int, 5],
        seq![2int, 5],
        seq![3int, 5],
        seq![4int, 5],
        seq![0int, 6],
        seq![1int, 6],
        seq![2int, 6],
        seq![3int, 6],
        seq![4int, 6],
        seq![5int, 6],
    ]) by {
        assert(subsets_colex(7, 2)[0] =~= seq![0int, 1]);
        assert(subsets_colex(7, 2)[1] =~= seq![0int, 2]);
        assert(subsets_colex(7, 2)[2] =~= seq![1int, 2]);
        assert(subsets_colex(7, 2)[3] =~= seq![0int, 3]);
        assert(subsets_colex(7, 2)[4] =~= seq![1int, 3]);
        assert(subsets_colex(7, 2)[5] =~= seq![2int, 3]);
        assert(subsets_colex(7, 2)[6] =~= seq![0int, 4]);
        assert(subsets_colex(7, 2)[7] =~= seq![1int, 4]);
        assert(subsets_colex(7, 2)[8] =~= seq![2int, 4]);
        assert(subsets_colex(7, 2)[9] =~= seq![3int, 4]);
        assert(subsets_colex(7, 2)[10] =~= seq![0int, 5]);
        assert(subsets_colex(7, 2)[11] =~= seq![1int, 5]);
        assert(subsets_colex(7, 2)[12] =~= seq![2int, 5]);
        assert(subsets_colex(7, 2)[13] =~= seq![3int, 5]);
        assert(subsets_colex(7, 2)[14] =~= seq![4int, 5]);
        assert(subsets_colex(7, 2)[15] =~= seq![0int, 6]);
        assert(subsets_colex(7, 2)[16] =~= seq![1int, 6]);
        assert(subsets_colex(7, 2)[17] =~= seq![2int, 6]);
        assert(subsets_colex(7, 2)[18] =~= seq![3int, 6]);
        assert(subsets_colex(7, 2)[19] =~= seq![4int, 6]);
        assert(subsets_colex(7, 2)[20] =~= seq![5int, 6]);
    }
    assert(subsets_colex(8, 2) =~= seq![
        seq![0int, 1],
        seq![0int, 2],
        seq![1int, 2],
        seq![0int, 3],
        seq![1int, 3],
        seq![2int, 3],
        seq![0int, 4],
        seq![1int, 4],
        seq![2int, 4],
        seq![3int, 4],
        seq![0int, 5],
        seq![1int, 5],
        seq![2int, 5],
        seq![3int, 5],
        seq![4int, 5],
        seq![0int, 6],
        seq![1int, 6],
        seq![2int, 6],
        seq![3int, 6],
        seq![4int, 6],
        seq![5int, 6],
        seq![0int, 7],
        seq![1int, 7],
        seq![2int, 7],
        seq![3int, 7],
        seq![4int, 7],
        seq![5int, 7],
        seq![6int, 7],
    ]) by {
        assert(subsets_colex(8, 2)[0] =~= seq![0int, 1]);
        assert(subsets_colex(8, 2)[1] =~= seq![0int, 2]);
        assert(subsets_colex(8, 2)[2] =~= seq![1int, 2]);
        assert(subsets_colex(8, 2)[3] =~= seq![0int, 3]);
        assert(subsets_colex(8, 2)[4] =~= seq![1int, 3]);
        assert(subsets_colex(8, 2)[5] =~= seq![2int, 3]);
        assert(subsets_colex(8, 2)[6] =~= seq![0int, 4]);
        assert(subsets_colex(8, 2)[7] =~= seq![1int, 4]);
        assert(subsets_colex(8, 2)[8] =~= seq![2int, 4]);
        assert(subsets_colex(8, 2)[9] =~= seq![3int, 4]);
        assert(subsets_colex(8, 2)[10] =~= seq![0int, 5]);
        assert(subsets_colex(8, 2)[11] =~= seq![1int, 5]);
        assert(subsets_colex(8, 2)[12] =~= seq![2int, 5]);
        assert(subsets_colex(8, 2)[13] =~= seq![3int, 5]);
        assert(subsets_colex(8, 2)[14] =~= seq![4int, 5]);
        assert(subsets_colex(8, 2)[15] =~= seq![0int, 6]);
        assert(subsets_colex(8, 2)[16] =~= seq![1int, 6]);
        assert(subsets_colex(8, 2)[17] =~= seq![2int, 6]);
        assert(subsets_colex(8, 2)[18] =~= seq![3int, 6]);
        assert(subsets_colex(8, 2)[19] =~= seq![4int, 6]);
        assert(subsets_colex(8, 2)[20] =~= seq![5int, 6]);
        assert(subsets_colex(8, 2)[21] =~= seq![0int, 7]);
        assert(subsets_colex(8, 2)[22] =~= seq![1int, 7]);
        assert(subsets_colex(8, 2)[23] =~= seq![2int, 7]);
        assert(subsets_colex(8, 2)[24] =~= seq![3int, 7]);
        assert(subsets_colex(8, 2)[25] =~= seq![4int, 7]);
        assert(subsets_colex(8, 2)[26] =~= seq![5int, 7]);
        assert(subsets_colex(8, 2)[27] =~= seq![6int, 7]);
    }
}

} // verus!
