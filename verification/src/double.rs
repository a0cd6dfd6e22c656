//! Double-precision numbers by their bits: how two of them compare.

use vstd::arithmetic::power2::{lemma_pow2_adds, lemma_pow2_pos, lemma_pow2_strictly_increases, pow2};
use vstd::prelude::*;

verus! {

/// Half of the values that 64 bits have: the weight of the sign.
pub const SIGN: u64 = 0x8000_0000_0000_0000;

/// The number of values of a fraction.
pub const FRACTIONS: u64 = 0x10_0000_0000_0000;

/// The exponent of infinities and of what is no number.
pub const SPECIAL: u64 = 2047;

/// The bits without the sign.
pub open spec fn magnitude_bits(bits: u64) -> u64 {
    bits % SIGN
}

/// The exponent field.
pub open spec fn exponent(bits: u64) -> nat {
    (magnitude_bits(bits) / FRACTIONS) as nat
}

/// The fraction field.
pub open spec fn fraction(bits: u64) -> nat {
    (magnitude_bits(bits) % FRACTIONS) as nat
}

/// Whether the bits stand for no number.
pub open spec fn is_nan(bits: u64) -> bool {
    exponent(bits) == SPECIAL && fraction(bits) != 0
}

/// The magnitude of a number, in units of the smallest positive one. An infinity counts as the
/// number that would come after the largest one.
pub open spec fn magnitude(bits: u64) -> nat {
    if exponent(bits) == 0 {
        fraction(bits)
    } else {
        (FRACTIONS as nat + fraction(bits)) * pow2((exponent(bits) - 1) as nat)
    }
}

/// A number in units of the smallest positive one.
pub open spec fn value(bits: u64) -> int {
    if bits >= SIGN {
        -(magnitude(bits) as int)
    } else {
        magnitude(bits) as int
    }
}

/// Whether one number is less than the other; what is no number is not.
pub open spec fn less(a: u64, b: u64) -> bool {
    !is_nan(a) && !is_nan(b) && value(a) < value(b)
}

/// Larger bits stand for a larger magnitude.
pub proof fn lemma_magnitude_increases(a: u64, b: u64)
    requires
        magnitude_bits(a) < magnitude_bits(b),
    ensures
        magnitude(a) < magnitude(b),
{
    let (ea, fa) = (exponent(a), fraction(a));
    let (eb, fb) = (exponent(b), fraction(b));
    let f = FRACTIONS as nat;
    assert(ea < eb || (ea == eb && fa < fb)) by {
        let x = magnitude_bits(a);
        let y = magnitude_bits(b);
        assert(x == x / FRACTIONS * FRACTIONS + x % FRACTIONS) by (nonlinear_arith);
        assert(y == y / FRACTIONS * FRACTIONS + y % FRACTIONS) by (nonlinear_arith);
    }
    if ea == eb {
        if ea > 0 {
            let p = pow2((ea - 1) as nat);
            lemma_pow2_pos((ea - 1) as nat);
            assert((f + fa) * p < (f + fb) * p) by (nonlinear_arith)
                requires
                    fa < fb,
                    p > 0,
            ;
        }
    } else {
        let q = pow2((eb - 1) as nat);
        lemma_pow2_pos((eb - 1) as nat);
        assert((f + fb) * q >= f * q) by (nonlinear_arith)
            requires
                q > 0,
        ;
        if ea == 0 {
            assert(f * q >= f) by (nonlinear_arith)
                requires
                    q >= 1,
            ;
        } else {
            let p = pow2((ea - 1) as nat);
            lemma_pow2_pos((ea - 1) as nat);
            lemma_pow2_adds((eb - ea) as nat, (ea - 1) as nat);
            let r = pow2((eb - ea) as nat);
            assert(r >= 2) by {
                lemma_pow2_strictly_increases(0, (eb - ea) as nat);
                assert(pow2(0) == 1) by {
                    vstd::arithmetic::power2::lemma2_to64();
                }
            }
            assert((f + fa) * p < f * q) by (nonlinear_arith)
                requires
                    fa < f,
                    p > 0,
                    q == r * p,
                    r >= 2,
                    f > 0,
            ;
        }
    }
}

/// Numbers with the same bits apart from the sign have the same magnitude.
pub proof fn lemma_magnitude_by_bits(a: u64, b: u64)
    ensures
        magnitude_bits(a) == magnitude_bits(b) ==> magnitude(a) == magnitude(b),
        magnitude_bits(a) > 0 ==> magnitude(a) > 0,
{
    if magnitude_bits(a) > 0 {
        lemma_magnitude_increases(0, a);
    }
}

/// Whether one number is less than the other; what is no number is not.
pub fn is_less(a: u64, b: u64) -> (r: bool)
    ensures
        r == less(a, b),
{
    let x: u64 = a % SIGN;
    let y: u64 = b % SIGN;
    let first_is_number = !(x / FRACTIONS == SPECIAL && x % FRACTIONS != 0);
    let second_is_number = !(y / FRACTIONS == SPECIAL && y % FRACTIONS != 0);
    proof {
        if x < y {
            lemma_magnitude_increases(a, b);
        } else if y < x {
            lemma_magnitude_increases(b, a);
        }
        lemma_magnitude_by_bits(a, b);
        lemma_magnitude_by_bits(b, a);
        assert(magnitude(0) == 0);
        lemma_magnitude_by_bits(a, 0);
        lemma_magnitude_by_bits(b, 0);
    }
    if !first_is_number || !second_is_number {
        return false;
    }
    if a < SIGN {
        b < SIGN && x < y
    } else if b < SIGN {
        x > 0 || y > 0
    } else {
        y < x
    }
}

} // verus!
