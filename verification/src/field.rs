//! Scalar fields over lattice points, as the surface search sees them.
//!
//! A field hands back each sample as the bit pattern of a single-precision
//! IEEE 754 number; the search itself only ever asks whether a sample is
//! greater than zero.
use vstd::prelude::*;

verus! {

/// Whether the number with bit pattern `bits` is greater than zero: its sign
/// bit is clear and it is neither a zero nor a NaN.
pub open spec fn is_positive_bits(bits: u32) -> bool {
    0 < bits <= 0x7F80_0000
}

/// Whether the number with bit pattern `bits` is greater than zero.
pub fn is_positive(bits: u32) -> (positive: bool)
    ensures
        positive == is_positive_bits(bits),
{
    0 < bits && bits <= 0x7F80_0000
}

/// The field can be asked at every point and always answers the same.
pub open spec fn is_pure_field<P, F: Fn(P) -> u32>(field: F) -> bool {
    &&& forall|p: P| #[trigger] call_requires(field, (p,))
    &&& forall|p: P, v: u32, w: u32|
        #[trigger] call_ensures(field, (p,), v) && #[trigger] call_ensures(field, (p,), w) ==> v == w
}

/// The sample of the field at `p`.
pub open spec fn field_value<P, F: Fn(P) -> u32>(field: F, p: P) -> u32 {
    choose|v: u32| call_ensures(field, (p,), v)
}

/// Whether the field is greater than zero at `p`.
pub open spec fn positive_at<P, F: Fn(P) -> u32>(field: F, p: P) -> bool {
    is_positive_bits(field_value(field, p))
}

/// Asks the field at `p`.
pub fn sample_field<P, F: Fn(P) -> u32>(field: &F, p: P) -> (v: u32)
    requires
        is_pure_field::<P, F>(*field),
    ensures
        v == field_value::<P, F>(*field, p),
{
    let v = field(p);
    proof {
        let w = field_value::<P, F>(*field, p);
        assert(call_ensures(*field, (p,), v));
        assert(call_ensures(*field, (p,), w));
    }
    v
}

} // verus!
