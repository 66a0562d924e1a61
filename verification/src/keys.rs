use vstd::prelude::*;

verus! {

/// A real-valued quantity of the search (an erasure rate or a redundancy
/// information), held by its order key.
///
/// `Some(key)` holds a number that is not NaN; keys compare as the numbers do
/// (for an IEEE-754 double: its bits with the sign bit set when the number is
/// non-negative and all bits inverted when it is negative, `-0.0` taken as
/// `+0.0`). `None` holds NaN, which compares with nothing: no `<`, `<=`, `>`
/// holds with it on either side.
pub type RealKey = Option<u64>;

/// The key of the largest finite double, `f64::MAX`.
pub const LARGEST_FINITE_KEY: u64 = 0xFFEF_FFFF_FFFF_FFFF;

/// `a < b`.
pub open spec fn key_lt(a: RealKey, b: RealKey) -> bool {
    match (a, b) {
        (Some(x), Some(y)) => x < y,
        _ => false,
    }
}

/// `a <= b`.
pub open spec fn key_le(a: RealKey, b: RealKey) -> bool {
    match (a, b) {
        (Some(x), Some(y)) => x <= y,
        _ => false,
    }
}

/// `a > b`.
pub open spec fn key_gt(a: RealKey, b: RealKey) -> bool {
    key_lt(b, a)
}

/// Decides `a < b`.
pub fn real_lt(a: RealKey, b: RealKey) -> (r: bool)
    ensures
        r == key_lt(a, b),
{
    match (a, b) {
        (Some(x), Some(y)) => x < y,
        _ => false,
    }
}

/// Decides `a <= b`.
pub fn real_le(a: RealKey, b: RealKey) -> (r: bool)
    ensures
        r == key_le(a, b),
{
    match (a, b) {
        (Some(x), Some(y)) => x <= y,
        _ => false,
    }
}

/// Decides `a > b`.
pub fn real_gt(a: RealKey, b: RealKey) -> (r: bool)
    ensures
        r == key_gt(a, b),
{
    real_lt(b, a)
}

/// No number is both above and at most another: `a > b` excludes `a <= b`,
/// and `a < b` gives `a <= b`. NaN satisfies none of the three.
pub proof fn lemma_key_order(a: RealKey, b: RealKey)
    ensures
        key_gt(a, b) ==> !key_le(a, b),
        key_lt(a, b) ==> key_le(a, b),
        a is None ==> !key_lt(a, b) && !key_le(a, b) && !key_gt(a, b),
        b is None ==> !key_lt(a, b) && !key_le(a, b) && !key_gt(a, b),
{
}

} // verus!
