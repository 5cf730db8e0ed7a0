//! Multiple-importance-sampling weights.
//!
//! Densities are unsigned fixed-point integers on any common scale: the
//! power heuristic does not change when both densities are scaled alike.
//! Weights are exact fractions.

use vstd::prelude::*;

verus! {

/// The fraction `num / den`.
#[derive(Clone, Copy, Debug, PartialEq, Eq, Structural)]
pub struct Weight {
    pub num: u128,
    pub den: u128,
}

/// The power heuristic (exponent two): `a² / (a² + b²)`, and 0 when both
/// densities are 0.
pub open spec fn power_weight(pdf_a: u32, pdf_b: u32) -> Weight {
    let a = pdf_a as int;
    let b = pdf_b as int;
    if a == 0 && b == 0 {
        Weight { num: 0, den: 1 }
    } else {
        Weight { num: (a * a) as u128, den: (a * a + b * b) as u128 }
    }
}

/// The weight of a sample drawn with density `pdf_a` against a competing
/// strategy of density `pdf_b`.
pub fn power_heuristic(pdf_a: u32, pdf_b: u32) -> (w: Weight)
    ensures
        w == power_weight(pdf_a, pdf_b),
        w.den > 0,
        w.num <= w.den,
        w.den <= 0x2_0000_0000_0000_0000,
{
    if pdf_a == 0 && pdf_b == 0 {
        return Weight { num: 0, den: 1 };
    }
    let a = pdf_a as u128;
    let b = pdf_b as u128;
    assert(a * a <= 0x1_0000_0000_0000_0000int) by (nonlinear_arith)
        requires
            a <= 0xffff_ffff,
    ;
    assert(b * b <= 0x1_0000_0000_0000_0000int) by (nonlinear_arith)
        requires
            b <= 0xffff_ffff,
    ;
    assert(a * a <= 0xffff_ffff_ffff_ffff && b * b <= 0xffff_ffff_ffff_ffff) by (nonlinear_arith)
        requires
            a <= 0xffff_ffff,
            b <= 0xffff_ffff,
    ;
    assert(a * a + b * b > 0) by (nonlinear_arith)
        requires
            a > 0 || b > 0,
    ;
    Weight { num: a * a, den: a * a + b * b }
}

/// The power heuristic's laws: a strategy that could not have produced the
/// sample (density 0) gets weight 0 against one that could; two equal
/// densities share the weight half and half; and the weights of the two
/// strategies for one sample add up to 1, `w(a, b) = 1 - w(b, a)`, as
/// fractions. The last needs one of the densities to be positive: with both
/// 0 neither strategy could have produced the sample and both weights are 0.
pub proof fn lemma_power_heuristic_laws(a: u32, b: u32)
    ensures
        b > 0 ==> power_weight(0, b).num == 0,
        a > 0 ==> 2 * power_weight(a, a).num == power_weight(a, a).den,
        (a > 0 || b > 0) ==> power_weight(a, b).num * power_weight(b, a).den + power_weight(
            b,
            a,
        ).num * power_weight(a, b).den == power_weight(a, b).den * power_weight(b, a).den,
{
    let (x, y) = (a as int, b as int);
    assert(x * x <= 0x1_0000_0000_0000_0000int) by (nonlinear_arith)
        requires
            0 <= x <= 0xffff_ffff,
    ;
    assert(y * y <= 0x1_0000_0000_0000_0000int) by (nonlinear_arith)
        requires
            0 <= y <= 0xffff_ffff,
    ;
    assert(0 <= x * x && 0 <= y * y) by (nonlinear_arith);
    if a > 0 || b > 0 {
        let d = x * x + y * y;
        assert(x * x * d + y * y * d == d * d) by (nonlinear_arith)
            requires
                d == x * x + y * y,
        ;
    }
}

} // verus!
