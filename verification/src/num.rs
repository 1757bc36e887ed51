//! Exact numeric values for the evaluation engine.
//!
//! Every quantity the engine computes (scores, rates, areas, error means) is a
//! `Num`: an exact rational with a signed 64-bit numerator and a positive
//! 64-bit denominator, extended with `Nan`, `PosInf` and `NegInf` for the
//! degenerate outcomes the engine must tolerate (zero denominators, division
//! by zero, results outside the exact 64-bit range). Zero is unsigned; a
//! division of a nonzero value by zero yields the infinity with the sign of
//! the dividend.
//!
//! Arithmetic normalises results by their greatest common divisor. A result
//! whose reduced form still falls outside the 64-bit range is reported as
//! `Nan`; every contract states this exactly through the `spec_*` mirrors.

use vstd::prelude::*;

verus! {

/// Largest magnitude representable in a finite `Num` component.
pub const FIN_MAX: i64 = 0x7fff_ffff_ffff_ffff;

/// An exact numeric value: `Nan`, a signed infinity, or a rational
/// `num / den` with `1 <= den` and `-FIN_MAX <= num`.
#[derive(Clone, Copy, PartialEq, Eq, Structural, Debug)]
pub enum Num {
    Nan,
    NegInf,
    PosInf,
    Fin { num: i64, den: i64 },
}

/// Well-formedness: finite values keep a positive denominator and a
/// numerator whose negation still fits in an `i64`.
pub open spec fn num_wf(a: Num) -> bool {
    a matches Num::Fin { num, den } ==> 1 <= den && -FIN_MAX <= num
}

/// Euclid's greatest common divisor on non-negative integers.
pub open spec fn gcd_spec(a: int, b: int) -> int
    recommends
        0 <= a,
        0 <= b,
    decreases b,
    when 0 <= b
{
    if b == 0 {
        a
    } else {
        gcd_spec(b, a % b)
    }
}

/// The normal form the engine stores for an exact rational `n / d` with
/// `1 <= d`: zero is `0 / 1`; otherwise the fraction is reduced by the
/// greatest common divisor, and a value whose reduced numerator or
/// denominator exceeds `FIN_MAX` becomes `Nan`.
pub open spec fn norm_spec(n: int, d: int) -> Num
    recommends
        1 <= d,
{
    if n == 0 {
        Num::Fin { num: 0, den: 1 }
    } else {
        let m = if n < 0 {
            -n
        } else {
            n
        };
        let g = gcd_spec(m, d);
        if 1 <= g && m % g == 0 && d % g == 0 && m / g <= FIN_MAX && 1 <= d / g && d / g
            <= FIN_MAX {
            Num::Fin {
                num: if n < 0 {
                    (-(m / g)) as i64
                } else {
                    (m / g) as i64
                },
                den: (d / g) as i64,
            }
        } else if m <= FIN_MAX && d <= FIN_MAX {
            Num::Fin { num: n as i64, den: d as i64 }
        } else {
            Num::Nan
        }
    }
}

/// Sum with `Nan` absorbing and opposite infinities cancelling to `Nan`.
pub open spec fn spec_add(a: Num, b: Num) -> Num {
    match (a, b) {
        (Num::Nan, _) => Num::Nan,
        (_, Num::Nan) => Num::Nan,
        (Num::PosInf, Num::NegInf) => Num::Nan,
        (Num::NegInf, Num::PosInf) => Num::Nan,
        (Num::PosInf, _) => Num::PosInf,
        (_, Num::PosInf) => Num::PosInf,
        (Num::NegInf, _) => Num::NegInf,
        (_, Num::NegInf) => Num::NegInf,
        (Num::Fin { num: an, den: ad }, Num::Fin { num: bn, den: bd }) => norm_spec(
            an * bd + bn * ad,
            ad * bd,
        ),
    }
}

/// Negation; `Nan` stays `Nan` and the infinities swap.
pub open spec fn spec_neg(a: Num) -> Num {
    match a {
        Num::Nan => Num::Nan,
        Num::PosInf => Num::NegInf,
        Num::NegInf => Num::PosInf,
        Num::Fin { num, den } => Num::Fin { num: (-(num as int)) as i64, den },
    }
}

/// Difference, defined as addition of the negation.
pub open spec fn spec_sub(a: Num, b: Num) -> Num {
    spec_add(a, spec_neg(b))
}

/// Product with `Nan` absorbing and zero times an infinity yielding `Nan`.
pub open spec fn spec_mul(a: Num, b: Num) -> Num {
    match (a, b) {
        (Num::Nan, _) => Num::Nan,
        (_, Num::Nan) => Num::Nan,
        (Num::PosInf, Num::PosInf) => Num::PosInf,
        (Num::PosInf, Num::NegInf) => Num::NegInf,
        (Num::NegInf, Num::PosInf) => Num::NegInf,
        (Num::NegInf, Num::NegInf) => Num::PosInf,
        (Num::PosInf, Num::Fin { num: bn, .. }) => if bn == 0 {
            Num::Nan
        } else if bn > 0 {
            Num::PosInf
        } else {
            Num::NegInf
        },
        (Num::Fin { num: an, .. }, Num::PosInf) => if an == 0 {
            Num::Nan
        } else if an > 0 {
            Num::PosInf
        } else {
            Num::NegInf
        },
        (Num::NegInf, Num::Fin { num: bn, .. }) => if bn == 0 {
            Num::Nan
        } else if bn > 0 {
            Num::NegInf
        } else {
            Num::PosInf
        },
        (Num::Fin { num: an, .. }, Num::NegInf) => if an == 0 {
            Num::Nan
        } else if an > 0 {
            Num::NegInf
        } else {
            Num::PosInf
        },
        (Num::Fin { num: an, den: ad }, Num::Fin { num: bn, den: bd }) => norm_spec(
            an * bn,
            ad * bd,
        ),
    }
}

/// Quotient: division of a nonzero finite value by zero yields the infinity
/// with the dividend's sign, zero by zero yields `Nan`, a finite value over
/// an infinity yields zero, and an infinity over an infinity yields `Nan`.
pub open spec fn spec_div(a: Num, b: Num) -> Num {
    match (a, b) {
        (Num::Nan, _) => Num::Nan,
        (_, Num::Nan) => Num::Nan,
        (Num::PosInf, Num::PosInf) => Num::Nan,
        (Num::PosInf, Num::NegInf) => Num::Nan,
        (Num::NegInf, Num::PosInf) => Num::Nan,
        (Num::NegInf, Num::NegInf) => Num::Nan,
        (Num::PosInf, Num::Fin { num: bn, .. }) => if bn < 0 {
            Num::NegInf
        } else {
            Num::PosInf
        },
        (Num::NegInf, Num::Fin { num: bn, .. }) => if bn < 0 {
            Num::PosInf
        } else {
            Num::NegInf
        },
        (Num::Fin { .. }, Num::PosInf) => Num::Fin { num: 0, den: 1 },
        (Num::Fin { .. }, Num::NegInf) => Num::Fin { num: 0, den: 1 },
        (Num::Fin { num: an, den: ad }, Num::Fin { num: bn, den: bd }) => if bn == 0 {
            if an == 0 {
                Num::Nan
            } else if an > 0 {
                Num::PosInf
            } else {
                Num::NegInf
            }
        } else {
            if ad * bn < 0 {
                norm_spec(-(an * bd), -(ad * bn))
            } else {
                norm_spec(an * bd, ad * bn)
            }
        },
    }
}

/// Absolute value; both infinities map to `PosInf`.
pub open spec fn spec_abs(a: Num) -> Num {
    match a {
        Num::Nan => Num::Nan,
        Num::PosInf => Num::PosInf,
        Num::NegInf => Num::PosInf,
        Num::Fin { num, den } => Num::Fin {
            num: if num < 0 {
                (-(num as int)) as i64
            } else {
                num
            },
            den,
        },
    }
}

/// Strict order; any comparison against `Nan` is false.
pub open spec fn spec_lt(a: Num, b: Num) -> bool {
    match (a, b) {
        (Num::Nan, _) => false,
        (_, Num::Nan) => false,
        (Num::NegInf, Num::NegInf) => false,
        (Num::NegInf, _) => true,
        (Num::PosInf, _) => false,
        (_, Num::PosInf) => true,
        (_, Num::NegInf) => false,
        (Num::Fin { num: an, den: ad }, Num::Fin { num: bn, den: bd }) => an * bd < bn * ad,
    }
}

/// Non-strict order; any comparison against `Nan` is false.
pub open spec fn spec_ge(a: Num, b: Num) -> bool {
    match (a, b) {
        (Num::Nan, _) => false,
        (_, Num::Nan) => false,
        (Num::PosInf, _) => true,
        (_, Num::NegInf) => true,
        (Num::NegInf, _) => false,
        (_, Num::PosInf) => false,
        (Num::Fin { num: an, den: ad }, Num::Fin { num: bn, den: bd }) => an * bd >= bn * ad,
    }
}

/// Equivalence of values: finite values compare as fractions, the infinities
/// match by sign, and two `Nan`s count as equivalent (this relation compares
/// representations, unlike the IEEE `==`).
pub open spec fn spec_eqv(a: Num, b: Num) -> bool {
    match (a, b) {
        (Num::Nan, Num::Nan) => true,
        (Num::PosInf, Num::PosInf) => true,
        (Num::NegInf, Num::NegInf) => true,
        (Num::Fin { num: an, den: ad }, Num::Fin { num: bn, den: bd }) => an * bd == bn * ad,
        _ => false,
    }
}

proof fn lemma_i64_mul_fits(x: int, y: int)
    by (nonlinear_arith)
    requires
        -0x8000_0000_0000_0000 <= x <= 0x7fff_ffff_ffff_ffff,
        -0x8000_0000_0000_0000 <= y <= 0x7fff_ffff_ffff_ffff,
    ensures
        -0x4000_0000_0000_0000_0000_0000_0000_0000 <= x * y
            <= 0x4000_0000_0000_0000_0000_0000_0000_0000,
{
}

proof fn lemma_wf_mul(x: int, y: int)
    by (nonlinear_arith)
    requires
        -0x7fff_ffff_ffff_ffff <= x <= 0x7fff_ffff_ffff_ffff,
        -0x7fff_ffff_ffff_ffff <= y <= 0x7fff_ffff_ffff_ffff,
    ensures
        -0x3fff_ffff_ffff_ffff_0000_0000_0000_0001 <= x * y
            <= 0x3fff_ffff_ffff_ffff_0000_0000_0000_0001,
        (1 <= x && 1 <= y) ==> 1 <= x * y,
        (1 <= x && y <= -1) ==> x * y <= -1,
        (0 <= x && 0 <= y) ==> 0 <= x * y,
        x == y ==> 0 <= x * y,
{
}

fn gcd_u128(a: u128, b: u128) -> (g: u128)
    ensures
        g as int == gcd_spec(a as int, b as int),
{
    let mut x: u128 = a;
    let mut y: u128 = b;
    while y > 0
        invariant
            gcd_spec(x as int, y as int) == gcd_spec(a as int, b as int),
        decreases y,
    {
        let r: u128 = x % y;
        x = y;
        y = r;
    }
    x
}

fn norm(n: i128, d: i128) -> (r: Num)
    requires
        1 <= d,
        -0x7fff_ffff_ffff_ffff_ffff_ffff_ffff_ffff <= n,
    ensures
        r == norm_spec(n as int, d as int),
        num_wf(r),
{
    if n == 0 {
        return Num::Fin { num: 0, den: 1 };
    }
    let m: u128 = if n < 0 {
        (-n) as u128
    } else {
        n as u128
    };
    let du: u128 = d as u128;
    let g: u128 = gcd_u128(m, du);
    if 1 <= g && m % g == 0 && du % g == 0 {
        let mg: u128 = m / g;
        let dg: u128 = du / g;
        if mg <= FIN_MAX as u128 && 1 <= dg && dg <= FIN_MAX as u128 {
            let num: i64 = if n < 0 {
                -(mg as i64)
            } else {
                mg as i64
            };
            return Num::Fin { num, den: dg as i64 };
        }
    }
    if m <= FIN_MAX as u128 && du <= FIN_MAX as u128 {
        Num::Fin { num: n as i64, den: d as i64 }
    } else {
        Num::Nan
    }
}

/// Exact sum of two well-formed values.
pub fn num_add(a: Num, b: Num) -> (r: Num)
    requires
        num_wf(a),
        num_wf(b),
    ensures
        r == spec_add(a, b),
        num_wf(r),
{
    match (a, b) {
        (Num::Nan, _) => Num::Nan,
        (_, Num::Nan) => Num::Nan,
        (Num::PosInf, Num::NegInf) => Num::Nan,
        (Num::NegInf, Num::PosInf) => Num::Nan,
        (Num::PosInf, _) => Num::PosInf,
        (_, Num::PosInf) => Num::PosInf,
        (Num::NegInf, _) => Num::NegInf,
        (_, Num::NegInf) => Num::NegInf,
        (Num::Fin { num: an, den: ad }, Num::Fin { num: bn, den: bd }) => {
            proof {
                lemma_wf_mul(an as int, bd as int);
                lemma_wf_mul(bn as int, ad as int);
                lemma_wf_mul(ad as int, bd as int);
            }
            let n: i128 = (an as i128) * (bd as i128) + (bn as i128) * (ad as i128);
            let d: i128 = (ad as i128) * (bd as i128);
            norm(n, d)
        },
    }
}

/// Negation of a well-formed value.
pub fn num_neg(a: Num) -> (r: Num)
    requires
        num_wf(a),
    ensures
        r == spec_neg(a),
        num_wf(r),
{
    match a {
        Num::Nan => Num::Nan,
        Num::PosInf => Num::NegInf,
        Num::NegInf => Num::PosInf,
        Num::Fin { num, den } => Num::Fin { num: -num, den },
    }
}

/// Exact difference of two well-formed values.
pub fn num_sub(a: Num, b: Num) -> (r: Num)
    requires
        num_wf(a),
        num_wf(b),
    ensures
        r == spec_sub(a, b),
        num_wf(r),
{
    num_add(a, num_neg(b))
}

/// Exact product of two well-formed values.
pub fn num_mul(a: Num, b: Num) -> (r: Num)
    requires
        num_wf(a),
        num_wf(b),
    ensures
        r == spec_mul(a, b),
        num_wf(r),
{
    match (a, b) {
        (Num::Nan, _) => Num::Nan,
        (_, Num::Nan) => Num::Nan,
        (Num::PosInf, Num::PosInf) => Num::PosInf,
        (Num::PosInf, Num::NegInf) => Num::NegInf,
        (Num::NegInf, Num::PosInf) => Num::NegInf,
        (Num::NegInf, Num::NegInf) => Num::PosInf,
        (Num::PosInf, Num::Fin { num: bn, .. }) => if bn == 0 {
            Num::Nan
        } else if bn > 0 {
            Num::PosInf
        } else {
            Num::NegInf
        },
        (Num::Fin { num: an, .. }, Num::PosInf) => if an == 0 {
            Num::Nan
        } else if an > 0 {
            Num::PosInf
        } else {
            Num::NegInf
        },
        (Num::NegInf, Num::Fin { num: bn, .. }) => if bn == 0 {
            Num::Nan
        } else if bn > 0 {
            Num::NegInf
        } else {
            Num::PosInf
        },
        (Num::Fin { num: an, .. }, Num::NegInf) => if an == 0 {
            Num::Nan
        } else if an > 0 {
            Num::NegInf
        } else {
            Num::PosInf
        },
        (Num::Fin { num: an, den: ad }, Num::Fin { num: bn, den: bd }) => {
            proof {
                lemma_wf_mul(an as int, bn as int);
                lemma_wf_mul(ad as int, bd as int);
            }
            norm((an as i128) * (bn as i128), (ad as i128) * (bd as i128))
        },
    }
}

/// Exact quotient of two well-formed values.
pub fn num_div(a: Num, b: Num) -> (r: Num)
    requires
        num_wf(a),
        num_wf(b),
    ensures
        r == spec_div(a, b),
        num_wf(r),
{
    match (a, b) {
        (Num::Nan, _) => Num::Nan,
        (_, Num::Nan) => Num::Nan,
        (Num::PosInf, Num::PosInf) => Num::Nan,
        (Num::PosInf, Num::NegInf) => Num::Nan,
        (Num::NegInf, Num::PosInf) => Num::Nan,
        (Num::NegInf, Num::NegInf) => Num::Nan,
        (Num::PosInf, Num::Fin { num: bn, .. }) => if bn < 0 {
            Num::NegInf
        } else {
            Num::PosInf
        },
        (Num::NegInf, Num::Fin { num: bn, .. }) => if bn < 0 {
            Num::PosInf
        } else {
            Num::NegInf
        },
        (Num::Fin { .. }, Num::PosInf) => Num::Fin { num: 0, den: 1 },
        (Num::Fin { .. }, Num::NegInf) => Num::Fin { num: 0, den: 1 },
        (Num::Fin { num: an, den: ad }, Num::Fin { num: bn, den: bd }) => {
            if bn == 0 {
                if an == 0 {
                    Num::Nan
                } else if an > 0 {
                    Num::PosInf
                } else {
                    Num::NegInf
                }
            } else {
                proof {
                    lemma_wf_mul(an as int, bd as int);
                    lemma_wf_mul(ad as int, bn as int);
                }
                let n0: i128 = (an as i128) * (bd as i128);
                let d0: i128 = (ad as i128) * (bn as i128);
                if d0 < 0 {
                    norm(-n0, -d0)
                } else {
                    norm(n0, d0)
                }
            }
        },
    }
}

/// Absolute value of a well-formed value.
pub fn num_abs(a: Num) -> (r: Num)
    requires
        num_wf(a),
    ensures
        r == spec_abs(a),
        num_wf(r),
{
    match a {
        Num::Nan => Num::Nan,
        Num::PosInf => Num::PosInf,
        Num::NegInf => Num::PosInf,
        Num::Fin { num, den } => Num::Fin {
            num: if num < 0 {
                -num
            } else {
                num
            },
            den,
        },
    }
}

/// Strict comparison; false whenever either side is `Nan`.
pub fn num_lt(a: Num, b: Num) -> (r: bool)
    ensures
        r == spec_lt(a, b),
{
    match (a, b) {
        (Num::Nan, _) => false,
        (_, Num::Nan) => false,
        (Num::NegInf, Num::NegInf) => false,
        (Num::NegInf, _) => true,
        (Num::PosInf, _) => false,
        (_, Num::PosInf) => true,
        (_, Num::NegInf) => false,
        (Num::Fin { num: an, den: ad }, Num::Fin { num: bn, den: bd }) => {
            proof {
                lemma_i64_mul_fits(an as int, bd as int);
                lemma_i64_mul_fits(bn as int, ad as int);
            }
            (an as i128) * (bd as i128) < (bn as i128) * (ad as i128)
        },
    }
}

/// Non-strict comparison; false whenever either side is `Nan`.
pub fn num_ge(a: Num, b: Num) -> (r: bool)
    ensures
        r == spec_ge(a, b),
{
    match (a, b) {
        (Num::Nan, _) => false,
        (_, Num::Nan) => false,
        (Num::PosInf, _) => true,
        (_, Num::NegInf) => true,
        (Num::NegInf, _) => false,
        (_, Num::PosInf) => false,
        (Num::Fin { num: an, den: ad }, Num::Fin { num: bn, den: bd }) => {
            proof {
                lemma_i64_mul_fits(an as int, bd as int);
                lemma_i64_mul_fits(bn as int, ad as int);
            }
            (an as i128) * (bd as i128) >= (bn as i128) * (ad as i128)
        },
    }
}

/// Value equivalence (see `spec_eqv`); compares fractions exactly.
pub fn num_eqv(a: Num, b: Num) -> (r: bool)
    ensures
        r == spec_eqv(a, b),
{
    match (a, b) {
        (Num::Nan, Num::Nan) => true,
        (Num::PosInf, Num::PosInf) => true,
        (Num::NegInf, Num::NegInf) => true,
        (Num::Fin { num: an, den: ad }, Num::Fin { num: bn, den: bd }) => {
            proof {
                lemma_i64_mul_fits(an as int, bd as int);
                lemma_i64_mul_fits(bn as int, ad as int);
            }
            (an as i128) * (bd as i128) == (bn as i128) * (ad as i128)
        },
        _ => false,
    }
}

/// Normalisation of a non-negative exact fraction never yields an infinity
/// or a negative numerator.
pub proof fn lemma_norm_nonneg(n: int, d: int)
    requires
        0 <= n,
        1 <= d,
    ensures
        !(norm_spec(n, d) is NegInf),
        !(norm_spec(n, d) is PosInf),
        norm_spec(n, d) matches Num::Fin { num, .. } ==> num >= 0,
{
}

/// A value that is not negative: `Nan` and `PosInf` count, a finite value
/// counts when its numerator is non-negative.
pub open spec fn num_nonneg(a: Num) -> bool {
    !(a is NegInf) && (a matches Num::Fin { num, .. } ==> num >= 0)
}

/// Normalisation of a fraction with a positive denominator is well-formed.
pub proof fn lemma_norm_wf(n: int, d: int)
    requires
        1 <= d,
    ensures
        num_wf(norm_spec(n, d)),
        !(norm_spec(n, d) is NegInf),
        !(norm_spec(n, d) is PosInf),
{
}

/// The sum of well-formed values is well-formed, and of non-negative
/// values non-negative.
pub proof fn lemma_spec_add_props(a: Num, b: Num)
    requires
        num_wf(a),
        num_wf(b),
    ensures
        num_wf(spec_add(a, b)),
        num_nonneg(a) && num_nonneg(b) ==> num_nonneg(spec_add(a, b)),
{
    match (a, b) {
        (Num::Fin { num: an, den: ad }, Num::Fin { num: bn, den: bd }) => {
            lemma_wf_mul(an as int, bd as int);
            lemma_wf_mul(bn as int, ad as int);
            lemma_wf_mul(ad as int, bd as int);
            lemma_norm_wf(an * bd + bn * ad, ad * bd);
            if an >= 0 && bn >= 0 {
                lemma_norm_nonneg(an * bd + bn * ad, ad * bd);
            }
        },
        _ => {},
    }
}

/// Negation of a well-formed value is well-formed.
pub proof fn lemma_spec_neg_wf(a: Num)
    requires
        num_wf(a),
    ensures
        num_wf(spec_neg(a)),
{
}

/// The difference of well-formed values is well-formed.
pub proof fn lemma_spec_sub_wf(a: Num, b: Num)
    requires
        num_wf(a),
        num_wf(b),
    ensures
        num_wf(spec_sub(a, b)),
{
    lemma_spec_neg_wf(b);
    lemma_spec_add_props(a, spec_neg(b));
}

/// The product of well-formed values is well-formed; a product of
/// non-negative values, and any square, is non-negative.
pub proof fn lemma_spec_mul_props(a: Num, b: Num)
    requires
        num_wf(a),
        num_wf(b),
    ensures
        num_wf(spec_mul(a, b)),
        num_nonneg(a) && num_nonneg(b) ==> num_nonneg(spec_mul(a, b)),
        a == b ==> num_nonneg(spec_mul(a, b)),
{
    match (a, b) {
        (Num::Fin { num: an, den: ad }, Num::Fin { num: bn, den: bd }) => {
            lemma_wf_mul(an as int, bn as int);
            lemma_wf_mul(ad as int, bd as int);
            lemma_norm_wf(an * bn, ad * bd);
            if (an >= 0 && bn >= 0) || a == b {
                lemma_norm_nonneg(an * bn, ad * bd);
            }
        },
        _ => {},
    }
}

/// The quotient of well-formed values is well-formed; a non-negative value
/// over a non-negative finite one stays non-negative.
pub proof fn lemma_spec_div_props(a: Num, b: Num)
    requires
        num_wf(a),
        num_wf(b),
    ensures
        num_wf(spec_div(a, b)),
        num_nonneg(a) && (b matches Num::Fin { num: bn, .. } && bn >= 0) ==> num_nonneg(
            spec_div(a, b),
        ),
{
    match (a, b) {
        (Num::Fin { num: an, den: ad }, Num::Fin { num: bn, den: bd }) => {
            if bn != 0 {
                lemma_wf_mul(an as int, bd as int);
                lemma_wf_mul(ad as int, bn as int);
                if ad * bn < 0 {
                    lemma_norm_wf(-(an * bd), -(ad * bn));
                } else {
                    lemma_norm_wf(an * bd, ad * bn);
                    if an >= 0 && bn >= 0 {
                        lemma_norm_nonneg(an * bd, ad * bn);
                    }
                }
            }
        },
        _ => {},
    }
}

/// The absolute value of a well-formed value is well-formed and
/// non-negative.
pub proof fn lemma_spec_abs_props(a: Num)
    requires
        num_wf(a),
    ensures
        num_wf(spec_abs(a)),
        num_nonneg(spec_abs(a)),
{
}

} // verus!
