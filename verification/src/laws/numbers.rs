//! Bit patterns and the numbers that they encode.

use crate::float_bits::{F32, F64};
use vstd::arithmetic::div_mod::lemma_fundamental_div_mod;
use vstd::arithmetic::power2::{lemma_pow2_pos, lemma_pow2_unfold, pow2};
use vstd::prelude::*;

verus! {

/// The magnitude that a pattern without its sign encodes, in units of the smallest
/// one, where `unit` patterns share an exponent: a fraction of its own below the first
/// exponent, and from there on the fraction behind an implicit one, doubled with each
/// exponent.  Infinity stands where the next number would.
pub open spec fn encoded(pattern: int, unit: int) -> int {
    let (exponent, fraction) = (pattern / unit, pattern % unit);
    if exponent == 0 {
        fraction
    } else {
        (unit + fraction) * (pow2((exponent - 1) as nat) as int)
    }
}

/// The number that a binary32 pattern encodes, in units of the smallest magnitude.
pub open spec fn number32(bits: u32) -> int {
    if bits < 0x8000_0000 {
        encoded(bits as int, 0x80_0000)
    } else {
        -encoded(bits - 0x8000_0000, 0x80_0000)
    }
}

/// The number that a binary64 pattern encodes, in units of the smallest magnitude.
pub open spec fn number64(bits: u64) -> int {
    if bits < 0x8000_0000_0000_0000 {
        encoded(bits as int, 0x10_0000_0000_0000)
    } else {
        -encoded(bits - 0x8000_0000_0000_0000, 0x10_0000_0000_0000)
    }
}

/// A binary32 pattern is no number: its exponent is all ones and its fraction is not 0.
pub open spec fn no_number32(bits: u32) -> bool {
    let pattern = (bits as int) % 0x8000_0000;
    pattern / 0x80_0000 == 255 && pattern % 0x80_0000 != 0
}

/// A binary64 pattern is no number.
pub open spec fn no_number64(bits: u64) -> bool {
    let pattern = (bits as int) % 0x8000_0000_0000_0000;
    pattern / 0x10_0000_0000_0000 == 2047 && pattern % 0x10_0000_0000_0000 != 0
}

/// Larger patterns encode larger magnitudes.
proof fn lemma_encoded_ascends(a: int, b: int, unit: int)
    requires
        unit > 0,
        0 <= a < b,
    ensures
        0 <= encoded(a, unit) < encoded(b, unit),
{
    lemma_fundamental_div_mod(a, unit);
    lemma_fundamental_div_mod(b, unit);
    let (ea, fa, eb, fb) = (a / unit, a % unit, b / unit, b % unit);
    assert(ea >= 0) by (nonlinear_arith)
        requires
            a == unit * ea + fa,
            0 <= a,
            fa < unit,
            unit > 0,
    ;
    assert(ea <= eb) by (nonlinear_arith)
        requires
            a == unit * ea + fa,
            b == unit * eb + fb,
            a < b,
            0 <= fa,
            fb < unit,
            unit > 0,
    ;
    if ea > 0 {
        lemma_pow2_pos((ea - 1) as nat);
        assert(0 <= (unit + fa) * (pow2((ea - 1) as nat) as int)) by (nonlinear_arith)
            requires
                unit > 0,
                fa >= 0,
                pow2((ea - 1) as nat) > 0,
        ;
    }
    if ea == eb {
        if ea > 0 {
            let p = pow2((ea - 1) as nat) as int;
            assert((unit + fa) * p < (unit + fb) * p) by (nonlinear_arith)
                requires
                    fa < fb,
                    p > 0,
            ;
        }
    } else {
        lemma_pow2_pos(ea as nat);
        lemma_pow2_pos((eb - 1) as nat);
        let top = unit * (pow2(ea as nat) as int);
        assert(encoded(a, unit) < top) by {
            if ea == 0 {
                vstd::arithmetic::power2::lemma2_to64();
                assert(top == unit * 1);
            } else {
                lemma_pow2_unfold(ea as nat);
                let p = pow2((ea - 1) as nat) as int;
                assert(pow2(ea as nat) as int == 2 * p);
                assert((unit + fa) * p < unit * (2 * p)) by (nonlinear_arith)
                    requires
                        fa < unit,
                        p > 0,
                ;
            }
        }
        if ea < eb - 1 {
            vstd::arithmetic::power2::lemma_pow2_strictly_increases(ea as nat, (eb - 1) as nat);
        }
        let q = pow2((eb - 1) as nat) as int;
        assert(top <= (unit + fb) * q) by (nonlinear_arith)
            requires
                top == unit * (pow2(ea as nat) as int),
                pow2(ea as nat) <= q,
                fb >= 0,
                unit > 0,
                q > 0,
        ;
    }
}

/// The order of two patterns is that of the numbers they encode.
proof fn lemma_encoded_order(a: int, b: int, unit: int)
    requires
        unit > 0,
        0 <= a,
        0 <= b,
    ensures
        0 <= encoded(a, unit),
        a == 0 ==> encoded(a, unit) == 0,
        a > 0 ==> encoded(a, unit) > 0,
        a < b <==> encoded(a, unit) < encoded(b, unit),
{
    lemma_fundamental_div_mod(0, unit);
    assert(0int / unit == 0 && 0int % unit == 0) by (nonlinear_arith)
        requires
            unit > 0,
    ;
    lemma_encoded_ascends(a, a + 1, unit);
    if a > 0 {
        lemma_encoded_ascends(0, a, unit);
    }
    if a < b {
        lemma_encoded_ascends(a, b, unit);
    } else if b < a {
        lemma_encoded_ascends(b, a, unit);
    }
}

/// Law: the order of binary32 patterns is the order of the numbers that they encode, and
/// one that encodes no number comes before and after nothing.
pub proof fn law_f32_order(a: F32, b: F32)
    ensures
        a.nan() == no_number32(a.bits),
        a.less(b) == (!no_number32(a.bits) && !no_number32(b.bits) && number32(a.bits) < number32(
            b.bits,
        )),
        F32::neg_infinity().bits == 0xff80_0000,
        !a.nan() && !b.nan() ==> (a.key() <= b.key() <==> number32(a.bits) <= number32(b.bits)),
{
    let u = 0x80_0000int;
    let (pa, pb) = (a.magnitude(), b.magnitude());
    assert(a.bits < 0x8000_0000 ==> (a.bits as int) % 0x8000_0000 == pa);
    assert(b.bits < 0x8000_0000 ==> (b.bits as int) % 0x8000_0000 == pb);
    lemma_encoded_order(pa, pb, u);
    lemma_encoded_order(pb, pa, u);
}

/// Law: [`F32::lt`] compares the numbers that the patterns encode.
pub proof fn law_f32_lt(a: F32, b: F32, res: bool)
    requires
        call_ensures(F32::lt, (&a, &b), res),
    ensures
        res == (!no_number32(a.bits) && !no_number32(b.bits) && number32(a.bits) < number32(
            b.bits,
        )),
{
    law_f32_order(a, b);
}

/// Law: [`F32::is_nan`] tells what encodes no number.
pub proof fn law_f32_is_nan(a: F32, res: bool)
    requires
        call_ensures(F32::is_nan, (&a,), res),
    ensures
        res == no_number32(a.bits),
{
    law_f32_order(a, a);
}

/// Law: the order of binary64 patterns is the order of the numbers that they encode.
pub proof fn law_f64_order(a: F64, b: F64)
    ensures
        a.nan() == no_number64(a.bits),
        a.key() < b.key() <==> number64(a.bits) < number64(b.bits),
{
    let u = 0x10_0000_0000_0000int;
    let (pa, pb) = (a.magnitude(), b.magnitude());
    assert(a.bits < 0x8000_0000_0000_0000 ==> (a.bits as int) % 0x8000_0000_0000_0000 == pa);
    assert(b.bits < 0x8000_0000_0000_0000 ==> (b.bits as int) % 0x8000_0000_0000_0000 == pb);
    lemma_encoded_order(pa, pb, u);
    lemma_encoded_order(pb, pa, u);
}

/// Law: [`F64::gt`] compares the numbers that the patterns encode.
pub proof fn law_f64_gt(a: F64, b: F64, res: bool)
    requires
        call_ensures(F64::gt, (&a, &b), res),
    ensures
        res == (number64(a.bits) > number64(b.bits)),
{
    law_f64_order(b, a);
}

/// Law: [`F64::is_nan`] tells what encodes no number.
pub proof fn law_f64_is_nan(a: F64, res: bool)
    requires
        call_ensures(F64::is_nan, (&a,), res),
    ensures
        res == no_number64(a.bits),
{
    law_f64_order(a, a);
}

} // verus!
