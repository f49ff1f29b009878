//! Doubles as bit patterns.
//!
//! The library carries a double as its IEEE 754 binary64 bit pattern and
//! works on it with integer arithmetic only.

use vstd::prelude::*;

verus! {

/// Two to the power 52: the weight of the hidden bit of a double's
/// significand.
pub const HIDDEN_BIT: u64 = 0x10_0000_0000_0000;

/// Two to the power 63: the sign bit of a double.
pub const SIGN_BIT: u64 = 0x8000_0000_0000_0000;

/// The bit pattern of positive infinity. A pattern whose magnitude is larger
/// is no number.
pub const INFINITY_BITS: u64 = 0x7ff0_0000_0000_0000;

/// The bit pattern without its sign.
pub open spec fn magnitude(bits: u64) -> int {
    if bits >= SIGN_BIT {
        bits - SIGN_BIT
    } else {
        bits as int
    }
}

/// Whether the bit pattern stands for no number.
pub open spec fn is_nan(bits: u64) -> bool {
    magnitude(bits) > INFINITY_BITS
}

/// An integer that orders bit patterns as the numbers they stand for: both
/// zeros give zero, negative numbers give negative integers.
pub open spec fn order_key(bits: u64) -> int {
    if bits >= SIGN_BIT {
        -magnitude(bits)
    } else {
        magnitude(bits)
    }
}

/// Whether the double `a` is less than the double `b`. Nothing is less than,
/// and nothing is more than, a pattern that stands for no number.
pub open spec fn double_lt(a: u64, b: u64) -> bool {
    !is_nan(a) && !is_nan(b) && order_key(a) < order_key(b)
}

/// Whether the double `a` is less than the double `b`.
pub fn double_less(a: u64, b: u64) -> (r: bool)
    ensures
        r == double_lt(a, b),
{
    let a_negative = a >= SIGN_BIT;
    let b_negative = b >= SIGN_BIT;
    let a_magnitude = if a_negative {
        a - SIGN_BIT
    } else {
        a
    };
    let b_magnitude = if b_negative {
        b - SIGN_BIT
    } else {
        b
    };
    if a_magnitude > INFINITY_BITS || b_magnitude > INFINITY_BITS {
        false
    } else if a_negative && b_negative {
        a_magnitude > b_magnitude
    } else if a_negative {
        a_magnitude > 0 || b_magnitude > 0
    } else if b_negative {
        false
    } else {
        a_magnitude < b_magnitude
    }
}

/// The bit pattern of `q` times two to the power `exponent - 1075`, where `q`
/// is positive and below two to the power 53: `q` is doubled, and the exponent
/// lowered, until the hidden bit is set. A positive `q` needs at most 52
/// doublings.
pub open spec fn widened(q: nat, exponent: nat) -> nat
    decreases exponent,
{
    if q < HIDDEN_BIT && exponent > 1023 {
        widened(2 * q, (exponent - 1) as nat)
    } else {
        (exponent * HIDDEN_BIT + q - HIDDEN_BIT) as nat
    }
}

/// The bit pattern of the double nearest to `q` times two to the power
/// `exponent - 1075`, plus what was cut off: `q` is halved, and the exponent
/// raised, until it fits below two to the power 53. `guard` is the last bit
/// that was cut off and `sticky` tells whether any bit before it was set. A
/// number that lies halfway goes to the even neighbour.
pub open spec fn narrowed(q: nat, guard: bool, sticky: bool, exponent: nat) -> nat
    decreases q,
{
    if q >= 2 * HIDDEN_BIT {
        narrowed(q / 2, q % 2 == 1, sticky || guard, exponent + 1)
    } else {
        let up: nat = if guard && (sticky || q % 2 == 1) {
            1
        } else {
            0
        };
        (exponent * HIDDEN_BIT + q + up - HIDDEN_BIT) as nat
    }
}

/// The bit pattern of the double nearest to the natural number `m`.
pub open spec fn double_of_nat(m: nat) -> nat {
    if m == 0 {
        0
    } else if m < 2 * HIDDEN_BIT {
        widened(m, 1075)
    } else {
        narrowed(m, false, false, 1075)
    }
}

/// The bit pattern of the double nearest to the integer `i`: what converting
/// a 64-bit integer to a double gives.
pub open spec fn double_of_int(i: int) -> nat {
    if i < 0 {
        (SIGN_BIT + double_of_nat((-i) as nat)) as nat
    } else {
        double_of_nat(i as nat)
    }
}

/// The largest significand that narrowing can hold while the exponent stands
/// at `exponent`, for a number of at most two to the power 63.
spec fn cap(exponent: nat) -> nat
    decreases exponent,
{
    if exponent <= 1075 {
        SIGN_BIT as nat
    } else {
        cap((exponent - 1) as nat) / 2
    }
}

fn double_from_magnitude(m: u64) -> (bits: u64)
    requires
        m <= SIGN_BIT,
    ensures
        bits == double_of_nat(m as nat),
        bits < SIGN_BIT,
{
    if m == 0 {
        return 0;
    }
    let mut q: u64 = m;
    let mut exponent: u64 = 1075;
    if m < 2 * HIDDEN_BIT {
        while q < HIDDEN_BIT && exponent > 1023
            invariant
                q < 2 * HIDDEN_BIT,
                1023 <= exponent <= 1075,
                double_of_nat(m as nat) == widened(q as nat, exponent as nat),
            decreases exponent,
        {
            q = 2 * q;
            exponent = exponent - 1;
        }
        exponent * HIDDEN_BIT + q - HIDDEN_BIT
    } else {
        let mut guard = false;
        let mut sticky = false;
        while q >= 2 * HIDDEN_BIT
            invariant
                1075 <= exponent <= 1086,
                q <= cap(exponent as nat),
                double_of_nat(m as nat) == narrowed(q as nat, guard, sticky, exponent as nat),
            decreases q,
        {
            proof {
                reveal_with_fuel(cap, 12);
                assert(exponent < 1086);
            }
            sticky = sticky || guard;
            guard = q % 2 == 1;
            q = q / 2;
            exponent = exponent + 1;
        }
        let up: u64 = if guard && (sticky || q % 2 == 1) {
            1
        } else {
            0
        };
        exponent * HIDDEN_BIT + q + up - HIDDEN_BIT
    }
}

/// The bit pattern of the double nearest to `i`.
pub fn double_from_int(i: i64) -> (bits: u64)
    ensures
        bits == double_of_int(i as int),
{
    if i < 0 {
        let m: u64 = if i == -0x8000_0000_0000_0000 {
            SIGN_BIT
        } else {
            (-i) as u64
        };
        SIGN_BIT + double_from_magnitude(m)
    } else {
        double_from_magnitude(i as u64)
    }
}

/// Whether the doubles `a` and `b` are equal as numbers: the two zeros are
/// equal, and a pattern that stands for no number equals nothing.
pub open spec fn double_eq(a: u64, b: u64) -> bool {
    !is_nan(a) && !is_nan(b) && order_key(a) == order_key(b)
}

/// Whether the doubles `a` and `b` are equal as numbers.
pub fn double_equal(a: u64, b: u64) -> (r: bool)
    ensures
        r == double_eq(a, b),
{
    let a_magnitude = if a >= SIGN_BIT {
        a - SIGN_BIT
    } else {
        a
    };
    let b_magnitude = if b >= SIGN_BIT {
        b - SIGN_BIT
    } else {
        b
    };
    if a_magnitude > INFINITY_BITS || b_magnitude > INFINITY_BITS {
        false
    } else if a_magnitude == 0 && b_magnitude == 0 {
        true
    } else {
        a == b
    }
}

} // verus!
