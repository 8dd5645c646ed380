//! Sign vectors of the corners of a square or a cube.
use vstd::prelude::*;
use vstd::std_specs::cmp::PartialEqSpecImpl;

verus! {

/// On which side of zero a corner lies along one axis.
#[derive(Clone, Copy, Debug, PartialEq, Eq, Structural)]
pub enum Sign {
    /// negative
    NEG,
    /// positive
    POS,
}

impl Sign {
    /// `if_neg` for `NEG`, `if_pos` for `POS`.
    pub open spec fn spec_map<T>(self, if_neg: T, if_pos: T) -> T {
        match self {
            Sign::NEG => if_neg,
            Sign::POS => if_pos,
        }
    }

    /// `if_neg` for `NEG`, `if_pos` for `POS`.
    pub fn map<T>(&self, if_neg: T, if_pos: T) -> (out: T)
        ensures
            out == self.spec_map(if_neg, if_pos),
    {
        match self {
            Sign::NEG => if_neg,
            Sign::POS => if_pos,
        }
    }

    /// The opposite sign.
    pub open spec fn spec_neg(self) -> Sign {
        match self {
            Sign::NEG => Sign::POS,
            Sign::POS => Sign::NEG,
        }
    }

    /// The opposite sign.
    pub fn neg(self) -> (out: Sign)
        ensures
            out == self.spec_neg(),
    {
        match self {
            Sign::NEG => Sign::POS,
            Sign::POS => Sign::NEG,
        }
    }
}

/// `v` with its lowest `i` binary digits dropped.
pub open spec fn shifted_right(v: nat, i: nat) -> nat
    decreases i,
{
    if i == 0 {
        v
    } else {
        shifted_right(v, (i - 1) as nat) / 2
    }
}

/// Binary digit `i` of `v`.
pub open spec fn bit(v: nat, i: nat) -> bool {
    shifted_right(v, i) % 2 == 1
}

/// Two to the power `n`.
pub open spec fn two_pow(n: nat) -> nat
    decreases n,
{
    if n == 0 {
        1
    } else {
        2 * two_pow((n - 1) as nat)
    }
}

/// The sign vector of one corner of an `N`-dimensional cube.
#[derive(Clone, Copy, Debug, Eq)]
pub struct CornerSigns<const N: usize>(pub [Sign; N]);

impl<const N: usize> PartialEq for CornerSigns<N> {
    fn eq(&self, other: &Self) -> (r: bool) {
        let mut i: usize = 0;
        while i < N
            invariant
                0 <= i <= N,
                forall|t: int| 0 <= t < i ==> self.0@[t] == other.0@[t],
            decreases N - i,
        {
            if self.0[i] != other.0[i] {
                return false;
            }
            i += 1;
        }
        assert(self.0 =~= other.0);
        true
    }
}

impl<const N: usize> PartialEqSpecImpl for CornerSigns<N> {
    open spec fn obeys_eq_spec() -> bool {
        true
    }

    open spec fn eq_spec(&self, other: &Self) -> bool {
        *self == *other
    }
}

/// How many of the first `upto` components of `a` and `b` agree.
pub open spec fn agreeing(a: Seq<Sign>, b: Seq<Sign>, upto: nat) -> nat
    decreases upto,
{
    if upto == 0 {
        0
    } else {
        agreeing(a, b, (upto - 1) as nat) + if a[upto - 1] == b[upto - 1] {
            1nat
        } else {
            0nat
        }
    }
}

/// The array whose component `i` says whether binary digit `i` of `value` is set.
pub fn int_to_bool_array<const N: usize>(value: u32) -> (bools: [bool; N])
    ensures
        forall|i: int| 0 <= i < N ==> #[trigger] bools@[i] == bit(value as nat, i as nat),
{
    let mut bools: [bool; N] = [false; N];
    let mut rest: u32 = value;
    let mut i: usize = 0;
    while i < N
        invariant
            0 <= i <= N,
            rest == shifted_right(value as nat, i as nat),
            forall|t: int| 0 <= t < i ==> #[trigger] bools@[t] == bit(value as nat, t as nat),
        decreases N - i,
    {
        bools[i] = rest % 2 == 1;
        rest = rest / 2;
        i += 1;
    }
    bools
}

impl<const N: usize> CornerSigns<N> {
    /// The sign of the corner along axis `i`.
    pub open spec fn sign(self, i: int) -> Sign {
        self.0@[i]
    }

    /// The corner that is negative along every axis.
    pub fn NEG() -> (c: Self)
        ensures
            forall|i: int| 0 <= i < N ==> #[trigger] c.sign(i) == Sign::NEG,
    {
        CornerSigns([Sign::NEG; N])
    }

    /// The corner that is positive along every axis.
    pub fn POS() -> (c: Self)
        ensures
            forall|i: int| 0 <= i < N ==> #[trigger] c.sign(i) == Sign::POS,
    {
        CornerSigns([Sign::POS; N])
    }

    /// The sign of the corner along axis `i`.
    pub fn get(&self, i: usize) -> (s: Sign)
        requires
            i < N,
        ensures
            s == self.sign(i as int),
    {
        self.0[i]
    }

    /// The corner with `NEG` where `value` is `true` and `POS` where it is `false`.
    pub fn from_bools(value: [bool; N]) -> (c: Self)
        ensures
            forall|i: int|
                0 <= i < N ==> #[trigger] c.sign(i) == if value@[i] {
                    Sign::NEG
                } else {
                    Sign::POS
                },
    {
        let mut signs: [Sign; N] = [Sign::POS; N];
        let mut i: usize = 0;
        while i < N
            invariant
                0 <= i <= N,
                forall|t: int|
                    0 <= t < i ==> #[trigger] signs@[t] == if value@[t] {
                        Sign::NEG
                    } else {
                        Sign::POS
                    },
            decreases N - i,
        {
            signs[i] = if value[i] {
                Sign::NEG
            } else {
                Sign::POS
            };
            i += 1;
        }
        CornerSigns(signs)
    }

    /// The number of axes along which the two corners have the same sign.
    pub open spec fn spec_match_count(self, other: Self) -> nat {
        agreeing(self.0@, other.0@, N as nat)
    }

    /// The number of axes along which the two corners have the same sign.
    pub fn match_count(&self, other: &Self) -> (count: usize)
        ensures
            count == self.spec_match_count(*other),
            count <= N,
    {
        let mut count: usize = 0;
        let mut i: usize = 0;
        while i < N
            invariant
                0 <= i <= N,
                count == agreeing(self.0@, other.0@, i as nat),
                count <= i,
            decreases N - i,
        {
            if self.0[i] == other.0[i] {
                count += 1;
            }
            i += 1;
        }
        count
    }

    /// Component by component, `if_neg` for `NEG` and `if_pos` for `POS`.
    pub fn map<T: Copy>(&self, if_neg: T, if_pos: T) -> (out: [T; N])
        ensures
            forall|i: int| 0 <= i < N ==> #[trigger] out@[i] == self.sign(i).spec_map(if_neg, if_pos),
    {
        let mut out: [T; N] = [if_neg; N];
        let mut i: usize = 0;
        while i < N
            invariant
                0 <= i <= N,
                forall|t: int|
                    0 <= t < i ==> #[trigger] out@[t] == self.sign(t).spec_map(if_neg, if_pos),
            decreases N - i,
        {
            out[i] = self.0[i].map(if_neg, if_pos);
            i += 1;
        }
        out
    }
}

/// `two_pow` does not decrease, and `two_pow(31)` is `2^31`.
pub proof fn lemma_two_pow_bound(n: nat)
    requires
        n <= 31,
    ensures
        1 <= two_pow(n) <= 2147483648,
    decreases 31 - n,
{
    if n == 31 {
        reveal_with_fuel(two_pow, 32);
    } else {
        lemma_two_pow_bound(n + 1);
    }
}

/// The number of corners of an `N`-dimensional cube, for `N` below 32.
fn corner_count<const N: usize>() -> (total: u32)
    requires
        N < 32,
    ensures
        total == two_pow(N as nat),
{
    let mut total: u32 = 1;
    let mut k: usize = 0;
    while k < N
        invariant
            0 <= k <= N,
            N < 32,
            total == two_pow(k as nat),
        decreases N - k,
    {
        proof {
            lemma_two_pow_bound((k + 1) as nat);
        }
        total = total * 2;
        k += 1;
    }
    total
}

/// The arrays of `N` booleans, one for each number below `2^N`, in the order
/// of the numbers whose binary digits they hold.
pub fn all_bool_arrays<const N: usize>() -> (out: Vec<[bool; N]>)
    requires
        N < 32,
    ensures
        out@.len() == two_pow(N as nat),
        forall|i: int, j: int|
            0 <= i < out@.len() && 0 <= j < N ==> (#[trigger] out@[i]@[j]) == bit(
                i as nat,
                j as nat,
            ),
{
    let total: u32 = corner_count::<N>();
    let mut out: Vec<[bool; N]> = Vec::new();
    let mut v: u32 = 0;
    while v < total
        invariant
            0 <= v <= total,
            out@.len() == v,
            forall|i: int, j: int|
                0 <= i < out@.len() && 0 <= j < N ==> (#[trigger] out@[i]@[j]) == bit(
                    i as nat,
                    j as nat,
                ),
        decreases total - v,
    {
        let bools: [bool; N] = int_to_bool_array(v);
        out.push(bools);
        v += 1;
    }
    out
}

impl<const N: usize> CornerSigns<N> {
    /// The corner is the one numbered `i`: negative exactly along the axes
    /// whose binary digit in `i` is set.
    pub open spec fn is_numbered(self, i: nat) -> bool {
        forall|j: int|
            0 <= j < N ==> #[trigger] self.sign(j) == if bit(i, j as nat) {
                Sign::NEG
            } else {
                Sign::POS
            }
    }

    /// All `2^N` corners, corner `i` of the list being the one numbered `i`.
    pub fn all() -> (corners: Vec<Self>)
        requires
            N < 32,
        ensures
            corners@.len() == two_pow(N as nat),
            forall|i: int| 0 <= i < corners@.len() ==> (#[trigger] corners@[i]).is_numbered(i as nat),
    {
        let bools = all_bool_arrays::<N>();
        let mut corners: Vec<Self> = Vec::new();
        let mut i: usize = 0;
        while i < bools.len()
            invariant
                0 <= i <= bools.len(),
                corners@.len() == i,
                forall|a: int, j: int|
                    0 <= a < bools@.len() && 0 <= j < N ==> (#[trigger] bools@[a]@[j]) == bit(
                        a as nat,
                        j as nat,
                    ),
                forall|a: int| 0 <= a < i ==> (#[trigger] corners@[a]).is_numbered(a as nat),
            decreases bools.len() - i,
        {
            let corner = CornerSigns::from_bools(bools[i]);
            assert(corner.is_numbered(i as nat)) by {
                assert forall|j: int| 0 <= j < N implies #[trigger] corner.sign(j) == if bit(
                    i as nat,
                    j as nat,
                ) {
                    Sign::NEG
                } else {
                    Sign::POS
                } by {
                    assert(bools@[i as int]@[j] == bit(i as nat, j as nat));
                }
            }
            corners.push(corner);
            i += 1;
        }
        corners
    }
}

} // verus!
