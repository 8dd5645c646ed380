//! Integer lattice points in three and four dimensions.
use vstd::prelude::*;

verus! {

/// A point of the three-dimensional integer lattice.
#[derive(Clone, Copy, Debug, PartialEq, Eq, Structural, Hash)]
pub struct IVec3 {
    pub x: i32,
    pub y: i32,
    pub z: i32,
}

/// A point of the four-dimensional integer lattice.
#[derive(Clone, Copy, Debug, PartialEq, Eq, Structural, Hash)]
pub struct IVec4 {
    pub x: i32,
    pub y: i32,
    pub z: i32,
    pub w: i32,
}

/// Absolute value of a mathematical integer.
pub open spec fn abs(v: int) -> int {
    if v < 0 {
        -v
    } else {
        v
    }
}

/// Half of `d`, rounded toward zero.
pub open spec fn half_toward_zero(d: int) -> int {
    if d >= 0 {
        d / 2
    } else {
        -((-d) / 2)
    }
}

/// Offset that places every `i32` coordinate in `0 .. 2^32`.
pub const COORD_BIAS: i64 = 2147483648;

/// Number of values one coordinate can take.
pub const COORD_SPAN: u128 = 4294967296;

/// The coordinate moved into `0 .. 2^32`.
pub open spec fn biased(c: i32) -> int {
    c + 2147483648
}

fn biased_exec(c: i32) -> (r: u128)
    ensures
        r == biased(c),
        r < COORD_SPAN,
{
    let s: i64 = c as i64 + COORD_BIAS;
    s as u128
}

impl IVec3 {
    /// The origin.
    pub open spec fn ZERO() -> IVec3 {
        IVec3 { x: 0, y: 0, z: 0 }
    }

    /// The point with the given coordinates.
    pub fn new(x: i32, y: i32, z: i32) -> (p: IVec3)
        ensures
            p == (IVec3 { x, y, z }),
    {
        IVec3 { x, y, z }
    }

    /// The coordinate along axis `i` (0 for x, 1 for y, anything else for z).
    pub open spec fn coord(self, i: int) -> int {
        if i == 0 {
            self.x as int
        } else if i == 1 {
            self.y as int
        } else {
            self.z as int
        }
    }

    /// The point shifted by the mathematical offsets; meaningful while every
    /// coordinate stays an `i32`.
    pub open spec fn shifted(self, dx: int, dy: int, dz: int) -> IVec3 {
        IVec3 { x: (self.x + dx) as i32, y: (self.y + dy) as i32, z: (self.z + dz) as i32 }
    }

    /// The component-wise sum of the two points.
    pub open spec fn spec_plus(self, o: IVec3) -> IVec3 {
        self.shifted(o.x as int, o.y as int, o.z as int)
    }

    /// The point with the coordinate along `axis` exchanged with the last one.
    pub open spec fn axis_swapped(self, axis: int) -> IVec3 {
        if axis == 0 {
            IVec3 { x: self.z, y: self.y, z: self.x }
        } else if axis == 1 {
            IVec3 { x: self.x, y: self.z, z: self.y }
        } else {
            self
        }
    }

    /// The point with the coordinate along `axis` exchanged with the last one.
    pub fn swap_axis(&self, axis: usize) -> (p: IVec3)
        ensures
            p == self.axis_swapped(axis as int),
    {
        if axis == 0 {
            IVec3 { x: self.z, y: self.y, z: self.x }
        } else if axis == 1 {
            IVec3 { x: self.x, y: self.z, z: self.y }
        } else {
            *self
        }
    }

    /// The unit step along `axis`.
    pub open spec fn unit(axis: int) -> IVec3 {
        IVec3::ZERO().spec_with(axis, 1)
    }

    /// Sum of the absolute differences of the coordinates.
    pub open spec fn manhattan_distance(self, other: IVec3) -> int {
        abs(other.x - self.x) + abs(other.y - self.y) + abs(other.z - self.z)
    }

    /// Sum of the absolute values of the coordinates.
    pub open spec fn manhattan(self) -> int {
        abs(self.x as int) + abs(self.y as int) + abs(self.z as int)
    }

    /// Sum of the coordinates.
    pub open spec fn coord_sum(self) -> int {
        self.x + self.y + self.z
    }

    /// Every coordinate keeps a margin of two to the ends of `i32`, so that
    /// all lattice neighbours used by the surface search are representable.
    pub open spec fn is_inner(self) -> bool {
        &&& i32::MIN + 2 <= self.x <= i32::MAX - 2
        &&& i32::MIN + 2 <= self.y <= i32::MAX - 2
        &&& i32::MIN + 2 <= self.z <= i32::MAX - 2
    }

    /// An integer that identifies the point: distinct points have distinct keys.
    pub open spec fn key(self) -> int {
        biased(self.x) + biased(self.y) * 4294967296 + biased(self.z) * 4294967296 * 4294967296
    }

    /// The coordinate along axis `i`.
    pub fn get(&self, i: usize) -> (c: i32)
        requires
            i < 3,
        ensures
            c == self.coord(i as int),
    {
        if i == 0 {
            self.x
        } else if i == 1 {
            self.y
        } else {
            self.z
        }
    }

    /// The point with the coordinate along axis `i` replaced by `c`.
    pub open spec fn spec_with(self, i: int, c: i32) -> IVec3 {
        if i == 0 {
            IVec3 { x: c, ..self }
        } else if i == 1 {
            IVec3 { y: c, ..self }
        } else {
            IVec3 { z: c, ..self }
        }
    }

    /// The point with the coordinate along axis `i` replaced by `c`.
    pub fn with(&self, i: usize, c: i32) -> (p: IVec3)
        requires
            i < 3,
        ensures
            p == self.spec_with(i as int, c),
    {
        if i == 0 {
            IVec3 { x: c, y: self.y, z: self.z }
        } else if i == 1 {
            IVec3 { x: self.x, y: c, z: self.z }
        } else {
            IVec3 { x: self.x, y: self.y, z: c }
        }
    }

    /// Whether every coordinate keeps a margin of two to the ends of `i32`.
    pub fn is_inner_exec(&self) -> (b: bool)
        ensures
            b == self.is_inner(),
    {
        i32::MIN + 2 <= self.x && self.x <= i32::MAX - 2 && i32::MIN + 2 <= self.y && self.y
            <= i32::MAX - 2 && i32::MIN + 2 <= self.z && self.z <= i32::MAX - 2
    }

    /// The key of the point.
    pub fn key_exec(&self) -> (k: u128)
        ensures
            k == self.key(),
    {
        let a: u128 = biased_exec(self.x);
        let b: u128 = biased_exec(self.y);
        let c: u128 = biased_exec(self.z);
        a + b * COORD_SPAN + c * COORD_SPAN * COORD_SPAN
    }

    /// Component-wise sum; the caller keeps every coordinate inside `i32`.
    pub fn plus(&self, o: IVec3) -> (p: IVec3)
        requires
            i32::MIN <= self.x + o.x <= i32::MAX,
            i32::MIN <= self.y + o.y <= i32::MAX,
            i32::MIN <= self.z + o.z <= i32::MAX,
        ensures
            p == self.shifted(o.x as int, o.y as int, o.z as int),
            p.x == self.x + o.x,
            p.y == self.y + o.y,
            p.z == self.z + o.z,
    {
        IVec3 { x: self.x + o.x, y: self.y + o.y, z: self.z + o.z }
    }

    /// Sum of the absolute differences of the coordinates.
    pub fn manhattan_distance_exec(&self, other: IVec3) -> (d: u64)
        ensures
            d == self.manhattan_distance(other),
    {
        abs_diff(self.x, other.x) + abs_diff(self.y, other.y) + abs_diff(self.z, other.z)
    }
}

/// Distinct lattice points have distinct keys.
pub proof fn lemma_key3_injective(p: IVec3, q: IVec3)
    requires
        p.key() == q.key(),
    ensures
        p == q,
{
}

impl IVec4 {
    /// The origin.
    pub open spec fn ZERO() -> IVec4 {
        IVec4 { x: 0, y: 0, z: 0, w: 0 }
    }

    /// The point with the given coordinates.
    pub fn new(x: i32, y: i32, z: i32, w: i32) -> (p: IVec4)
        ensures
            p == (IVec4 { x, y, z, w }),
    {
        IVec4 { x, y, z, w }
    }

    /// The coordinate along axis `i` (0 for x, 1 for y, 2 for z, anything else for w).
    pub open spec fn coord(self, i: int) -> int {
        if i == 0 {
            self.x as int
        } else if i == 1 {
            self.y as int
        } else if i == 2 {
            self.z as int
        } else {
            self.w as int
        }
    }

    /// The point shifted by the mathematical offsets; meaningful while every
    /// coordinate stays an `i32`.
    pub open spec fn shifted(self, dx: int, dy: int, dz: int, dw: int) -> IVec4 {
        IVec4 {
            x: (self.x + dx) as i32,
            y: (self.y + dy) as i32,
            z: (self.z + dz) as i32,
            w: (self.w + dw) as i32,
        }
    }

    /// The component-wise sum of the two points.
    pub open spec fn spec_plus(self, o: IVec4) -> IVec4 {
        self.shifted(o.x as int, o.y as int, o.z as int, o.w as int)
    }

    /// The point with the coordinate along `axis` exchanged with the last one.
    pub open spec fn axis_swapped(self, axis: int) -> IVec4 {
        if axis == 0 {
            IVec4 { x: self.w, y: self.y, z: self.z, w: self.x }
        } else if axis == 1 {
            IVec4 { x: self.x, y: self.w, z: self.z, w: self.y }
        } else if axis == 2 {
            IVec4 { x: self.x, y: self.y, z: self.w, w: self.z }
        } else {
            self
        }
    }

    /// The point with the coordinate along `axis` exchanged with the last one.
    pub fn swap_axis(&self, axis: usize) -> (p: IVec4)
        ensures
            p == self.axis_swapped(axis as int),
    {
        if axis == 0 {
            IVec4 { x: self.w, y: self.y, z: self.z, w: self.x }
        } else if axis == 1 {
            IVec4 { x: self.x, y: self.w, z: self.z, w: self.y }
        } else if axis == 2 {
            IVec4 { x: self.x, y: self.y, z: self.w, w: self.z }
        } else {
            *self
        }
    }

    /// The unit step along `axis`.
    pub open spec fn unit(axis: int) -> IVec4 {
        IVec4::ZERO().spec_with(axis, 1)
    }

    /// Sum of the absolute differences of the coordinates.
    pub open spec fn manhattan_distance(self, other: IVec4) -> int {
        abs(other.x - self.x) + abs(other.y - self.y) + abs(other.z - self.z) + abs(
            other.w - self.w,
        )
    }

    /// Sum of the absolute values of the coordinates.
    pub open spec fn manhattan(self) -> int {
        abs(self.x as int) + abs(self.y as int) + abs(self.z as int) + abs(self.w as int)
    }

    /// Sum of the coordinates.
    pub open spec fn coord_sum(self) -> int {
        self.x + self.y + self.z + self.w
    }

    /// Every coordinate keeps a margin of two to the ends of `i32`, so that
    /// all lattice neighbours used by the surface search are representable.
    pub open spec fn is_inner(self) -> bool {
        &&& i32::MIN + 2 <= self.x <= i32::MAX - 2
        &&& i32::MIN + 2 <= self.y <= i32::MAX - 2
        &&& i32::MIN + 2 <= self.z <= i32::MAX - 2
        &&& i32::MIN + 2 <= self.w <= i32::MAX - 2
    }

    /// An integer that identifies the point: distinct points have distinct keys.
    pub open spec fn key(self) -> int {
        biased(self.x) + biased(self.y) * 4294967296 + biased(self.z) * 4294967296 * 4294967296
            + biased(self.w) * 4294967296 * 4294967296 * 4294967296
    }

    /// The coordinate along axis `i`.
    pub fn get(&self, i: usize) -> (c: i32)
        requires
            i < 4,
        ensures
            c == self.coord(i as int),
    {
        if i == 0 {
            self.x
        } else if i == 1 {
            self.y
        } else if i == 2 {
            self.z
        } else {
            self.w
        }
    }

    /// The point with the coordinate along axis `i` replaced by `c`.
    pub open spec fn spec_with(self, i: int, c: i32) -> IVec4 {
        if i == 0 {
            IVec4 { x: c, ..self }
        } else if i == 1 {
            IVec4 { y: c, ..self }
        } else if i == 2 {
            IVec4 { z: c, ..self }
        } else {
            IVec4 { w: c, ..self }
        }
    }

    /// The point with the coordinate along axis `i` replaced by `c`.
    pub fn with(&self, i: usize, c: i32) -> (p: IVec4)
        requires
            i < 4,
        ensures
            p == self.spec_with(i as int, c),
    {
        if i == 0 {
            IVec4 { x: c, y: self.y, z: self.z, w: self.w }
        } else if i == 1 {
            IVec4 { x: self.x, y: c, z: self.z, w: self.w }
        } else if i == 2 {
            IVec4 { x: self.x, y: self.y, z: c, w: self.w }
        } else {
            IVec4 { x: self.x, y: self.y, z: self.z, w: c }
        }
    }

    /// Whether every coordinate keeps a margin of two to the ends of `i32`.
    pub fn is_inner_exec(&self) -> (b: bool)
        ensures
            b == self.is_inner(),
    {
        i32::MIN + 2 <= self.x && self.x <= i32::MAX - 2 && i32::MIN + 2 <= self.y && self.y
            <= i32::MAX - 2 && i32::MIN + 2 <= self.z && self.z <= i32::MAX - 2 && i32::MIN + 2
            <= self.w && self.w <= i32::MAX - 2
    }

    /// The key of the point.
    pub fn key_exec(&self) -> (k: u128)
        ensures
            k == self.key(),
    {
        let a: u128 = biased_exec(self.x);
        let b: u128 = biased_exec(self.y);
        let c: u128 = biased_exec(self.z);
        let d: u128 = biased_exec(self.w);
        a + b * COORD_SPAN + c * COORD_SPAN * COORD_SPAN + d * COORD_SPAN * COORD_SPAN * COORD_SPAN
    }

    /// Component-wise sum; the caller keeps every coordinate inside `i32`.
    pub fn plus(&self, o: IVec4) -> (p: IVec4)
        requires
            i32::MIN <= self.x + o.x <= i32::MAX,
            i32::MIN <= self.y + o.y <= i32::MAX,
            i32::MIN <= self.z + o.z <= i32::MAX,
            i32::MIN <= self.w + o.w <= i32::MAX,
        ensures
            p == self.spec_plus(o),
            p.x == self.x + o.x,
            p.y == self.y + o.y,
            p.z == self.z + o.z,
            p.w == self.w + o.w,
    {
        IVec4 { x: self.x + o.x, y: self.y + o.y, z: self.z + o.z, w: self.w + o.w }
    }

    /// Sum of the absolute differences of the coordinates.
    pub fn manhattan_distance_exec(&self, other: IVec4) -> (d: u64)
        ensures
            d == self.manhattan_distance(other),
    {
        abs_diff(self.x, other.x) + abs_diff(self.y, other.y) + abs_diff(self.z, other.z)
            + abs_diff(self.w, other.w)
    }
}

/// Distinct lattice points have distinct keys.
pub proof fn lemma_key4_injective(p: IVec4, q: IVec4)
    requires
        p.key() == q.key(),
    ensures
        p == q,
{
}

fn abs_diff(a: i32, b: i32) -> (d: u64)
    ensures
        d == abs(b - a),
        d <= 4294967295,
{
    let x: i64 = a as i64;
    let y: i64 = b as i64;
    if x <= y {
        (y - x) as u64
    } else {
        (x - y) as u64
    }
}

/// Sum of the absolute values of the coordinates of `vec`.
pub fn ivec3_manhattan_magnitude(vec: IVec3) -> (m: i32)
    requires
        vec.manhattan() <= i32::MAX,
    ensures
        m == vec.manhattan(),
{
    let m: u64 = abs_diff(0, vec.x) + abs_diff(0, vec.y) + abs_diff(0, vec.z);
    m as i32
}

/// Sum of the absolute values of the coordinates of `vec`.
pub fn ivec4_manhattan_magnitude(vec: IVec4) -> (m: i32)
    requires
        vec.manhattan() <= i32::MAX,
    ensures
        m == vec.manhattan(),
{
    let m: u64 = abs_diff(0, vec.x) + abs_diff(0, vec.y) + abs_diff(0, vec.z) + abs_diff(0, vec.w);
    m as i32
}

} // verus!
