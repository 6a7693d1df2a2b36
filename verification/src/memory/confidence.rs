//! Confidence scores. A score is held by the bits of a double; doubles other than NaN are ordered like
//! the integers below.
use vstd::prelude::*;

verus! {

/// The bit that holds the sign.
pub const SIGN_BIT: u64 = 0x8000_0000_0000_0000;

/// The bits of the double infinity.
pub const INFINITY_BITS: u64 = 0x7FF0_0000_0000_0000;

/// The bits of the double 0.
pub const ZERO_BITS: u64 = 0;

/// The bits of the double 1.
pub const ONE_BITS: u64 = 0x3FF0_0000_0000_0000;

/// The bits of the double nearest to 0.8, the least confidence of an entry whose flag was resolved.
pub const RESOLVED_FLOOR_BITS: u64 = 0x3FE9_9999_9999_999A;

/// The bits of the double nearest to 0.9, the confidence of an entry that the agent makes.
pub const AGENT_CONFIDENCE_BITS: u64 = 0x3FEC_CCCC_CCCC_CCCD;

/// The bits without the sign.
pub open spec fn magnitude(bits: u64) -> int {
    if bits >= SIGN_BIT {
        bits - SIGN_BIT
    } else {
        bits as int
    }
}

/// The bits are those of a NaN.
pub open spec fn is_nan(bits: u64) -> bool {
    magnitude(bits) > INFINITY_BITS
}

/// The integer by which doubles other than NaN are ordered.
pub open spec fn order_key(bits: u64) -> int {
    if bits >= SIGN_BIT {
        -magnitude(bits)
    } else {
        magnitude(bits)
    }
}

/// A score brought into the range from `low` to `high`; NaN stays.
pub open spec fn clamped(bits: u64, low: u64, high: u64) -> u64 {
    if is_nan(bits) {
        bits
    } else if order_key(bits) < order_key(low) {
        low
    } else if order_key(bits) > order_key(high) {
        high
    } else {
        bits
    }
}

/// The integer by which doubles other than NaN are ordered.
pub fn score_key(bits: u64) -> (r: i128)
    ensures
        r == order_key(bits),
{
    if bits >= SIGN_BIT {
        0i128 - ((bits - SIGN_BIT) as i128)
    } else {
        bits as i128
    }
}

/// A score brought into the range from `low` to `high`; NaN stays.
pub fn clamp_score(bits: u64, low: u64, high: u64) -> (r: u64)
    requires
        !is_nan(low),
        !is_nan(high),
        order_key(low) <= order_key(high),
    ensures
        r == clamped(bits, low, high),
{
    let m: u64 = if bits >= SIGN_BIT {
        bits - SIGN_BIT
    } else {
        bits
    };
    if m > INFINITY_BITS {
        bits
    } else if score_key(bits) < score_key(low) {
        low
    } else if score_key(bits) > score_key(high) {
        high
    } else {
        bits
    }
}

/// A clamped score lies in the range, unless it is NaN, and clamping again changes nothing.
pub proof fn clamping_bounds(bits: u64, low: u64, high: u64)
    requires
        !is_nan(low),
        !is_nan(high),
        order_key(low) <= order_key(high),
    ensures
        !is_nan(bits) ==> order_key(low) <= order_key(clamped(bits, low, high)) <= order_key(high),
        clamped(clamped(bits, low, high), low, high) == clamped(bits, low, high),
{
}

/// A score is at most another; NaN is at most nothing.
pub open spec fn at_most(bits: u64, limit: u64) -> bool {
    !is_nan(bits) && !is_nan(limit) && order_key(bits) <= order_key(limit)
}

/// Whether a score is at most another.
pub fn is_at_most(bits: u64, limit: u64) -> (r: bool)
    ensures
        r == at_most(bits, limit),
{
    let m: u64 = if bits >= SIGN_BIT {
        bits - SIGN_BIT
    } else {
        bits
    };
    let n: u64 = if limit >= SIGN_BIT {
        limit - SIGN_BIT
    } else {
        limit
    };
    m <= INFINITY_BITS && n <= INFINITY_BITS && score_key(bits) <= score_key(limit)
}

/// Scores are ordered as doubles are: of two that are not negative the one with the greater bits is greater,
/// a negative one is less than any positive one, and of two negative ones the one with the greater bits is
/// less.
pub proof fn scores_are_ordered_as_doubles(a: u64, b: u64)
    requires
        a < b,
    ensures
        b < 0x8000_0000_0000_0000 ==> order_key(a) < order_key(b),
        0 < a < 0x8000_0000_0000_0000 <= b ==> order_key(b) < order_key(a),
        a >= 0x8000_0000_0000_0000 ==> order_key(b) < order_key(a),
        order_key(0) == order_key(0x8000_0000_0000_0000),
{
}

/// A score in the range stays, one below it becomes the lower end, and one above it the upper end.
pub proof fn clamping_takes_the_nearest(bits: u64, low: u64, high: u64)
    requires
        !is_nan(low),
        !is_nan(high),
        !is_nan(bits),
        order_key(low) <= order_key(high),
    ensures
        order_key(low) <= order_key(bits) <= order_key(high) ==> clamped(bits, low, high) == bits,
        order_key(bits) < order_key(low) ==> clamped(bits, low, high) == low,
        order_key(bits) > order_key(high) ==> clamped(bits, low, high) == high,
        at_most(bits, high) == (order_key(bits) <= order_key(high)),
{
}

}
