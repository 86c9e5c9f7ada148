//! Exact numbers for parameter values.
//!
//! A query parameter value is either an integer or a decimal fraction
//! `mant / 10^scale`. Keeping the two apart preserves the distinction between
//! an integer literal and a fractional literal through parsing, validation and
//! binding, while comparisons (for `min`/`max` bounds) are exact rational
//! comparisons, free of rounding.

use vstd::prelude::*;
use vstd::arithmetic::power::{pow, lemma_pow_adds, lemma_pow_positive, lemma_pow_increases};

verus! {

/// Mathematical model of a number: an integer, or a decimal fraction
/// `mant / 10^scale`.
pub enum NumV {
    Int(int),
    Dec { mant: int, scale: nat },
}

/// An exact number as carried by query parameters. `Dec { mant, scale }`
/// stands for `mant / 10^scale`; `Int` and `Dec` are kept distinct so that an
/// integer literal and a fractional literal never compare equal structurally,
/// mirroring how a dynamically typed document store tells them apart.
#[derive(Clone, Copy, Debug, PartialEq)]
pub enum Number {
    Int(i64),
    Dec { mant: i64, scale: u32 },
}

impl View for Number {
    type V = NumV;

    open spec fn view(&self) -> NumV {
        match *self {
            Number::Int(i) => NumV::Int(i as int),
            Number::Dec { mant, scale } => NumV::Dec { mant: mant as int, scale: scale as nat },
        }
    }
}

/// The numerator of a number's rational value.
pub open spec fn mant_of(n: NumV) -> int {
    match n {
        NumV::Int(i) => i,
        NumV::Dec { mant, .. } => mant,
    }
}

/// The power-of-ten denominator exponent of a number's rational value.
pub open spec fn scale_of(n: NumV) -> nat {
    match n {
        NumV::Int(_) => 0,
        NumV::Dec { scale, .. } => scale,
    }
}

/// `a`'s numerator brought to `b`'s denominator: the left side of every
/// cross-multiplied comparison.
pub open spec fn cross(a: NumV, b: NumV) -> int {
    mant_of(a) * pow(10, scale_of(b))
}

/// Exact numeric strict order on numbers.
pub open spec fn num_lt(a: NumV, b: NumV) -> bool {
    cross(a, b) < cross(b, a)
}

/// Exact numeric equality (`1/10 == 10/100`, but `Int(3)` and
/// `Dec { mant: 3, scale: 0 }` are also numerically equal).
pub open spec fn num_eq(a: NumV, b: NumV) -> bool {
    cross(a, b) == cross(b, a)
}

/// Ten to the `e`-th, as a literal, for the exponents a 128-bit product can
/// carry.
pub proof fn lemma_pow10_lit()
    ensures
        pow(10, 19) == 10_000_000_000_000_000_000,
        pow(10, 20) == 100_000_000_000_000_000_000,
{
    reveal_with_fuel(pow, 25);
    assert(pow(10, 0) == 1);
    assert(pow(10, 1) == 10 * pow(10, 0));
    assert(pow(10, 2) == 10 * pow(10, 1));
    assert(pow(10, 3) == 10 * pow(10, 2));
    assert(pow(10, 4) == 10 * pow(10, 3));
    assert(pow(10, 5) == 10 * pow(10, 4));
    assert(pow(10, 6) == 10 * pow(10, 5));
    assert(pow(10, 7) == 10 * pow(10, 6));
    assert(pow(10, 8) == 10 * pow(10, 7));
    assert(pow(10, 9) == 10 * pow(10, 8));
    assert(pow(10, 10) == 10 * pow(10, 9));
    assert(pow(10, 11) == 10 * pow(10, 10));
    assert(pow(10, 12) == 10 * pow(10, 11));
    assert(pow(10, 13) == 10 * pow(10, 12));
    assert(pow(10, 14) == 10 * pow(10, 13));
    assert(pow(10, 15) == 10 * pow(10, 14));
    assert(pow(10, 16) == 10 * pow(10, 15));
    assert(pow(10, 17) == 10 * pow(10, 16));
    assert(pow(10, 18) == 10 * pow(10, 17));
    assert(pow(10, 19) == 10 * pow(10, 18));
    assert(pow(10, 20) == 10 * pow(10, 19));
}

/// Ten to the `e`-th is positive and, for `e <= 19`, fits well inside `i128`.
proof fn lemma_pow10_small(e: nat)
    requires
        e <= 19,
    ensures
        1 <= pow(10, e),
        pow(10, e) <= 10_000_000_000_000_000_000,
{
    lemma_pow_positive(10, e);
    lemma_pow_increases(10, e, 19);
    lemma_pow10_lit();
}

/// Ten to the `e`-th, computed, for exponents small enough that scaling a
/// 64-bit mantissa cannot overflow an `i128`.
pub(crate) fn pow10_i128(d: u32) -> (r: i128)
    requires
        d <= 19,
    ensures
        r == pow(10, d as nat),
        1 <= r <= 10_000_000_000_000_000_000,
{
    let mut r: i128 = 1;
    let mut i: u32 = 0;
    proof {
        assert(pow(10, 0) == 1) by {
            reveal_with_fuel(pow, 1);
        }
    }
    while i < d
        invariant
            i <= d,
            d <= 19,
            r == pow(10, i as nat),
            1 <= r <= 10_000_000_000_000_000_000,
        decreases d - i,
    {
        proof {
            assert(pow(10, (i + 1) as nat) == 10 * pow(10, i as nat)) by {
                reveal_with_fuel(pow, 2);
            }
            lemma_pow10_small((i + 1) as nat);
        }
        r = r * 10;
        i = i + 1;
    }
    proof {
        lemma_pow10_small(d as nat);
    }
    r
}

/// Ten to an exponent of nineteen or more exceeds the 64-bit range.
pub proof fn lemma_pow10_ge_19(k: nat)
    requires
        k >= 19,
    ensures
        pow(10, k) >= 10_000_000_000_000_000_000,
{
    lemma_pow10_lit();
    lemma_pow_increases(10, 19, k);
}

/// Compares `x * 10^d` against `y`, returning the sign of the difference.
fn cmp_scaled(x: i64, y: i64, d: u32) -> (r: i8)
    ensures
        -1 <= r <= 1,
        (r == -1) <==> x * pow(10, d as nat) < y,
        (r == 0) <==> x * pow(10, d as nat) == y,
{
    if d <= 19 {
        let p: i128 = pow10_i128(d);
        proof {
            assert((x as i128) * p == (x as int) * pow(10, d as nat)
                && -170141183460469231731687303715884105728 <= (x as i128) * p
                && (x as i128) * p <= 170141183460469231731687303715884105727) by (nonlinear_arith)
                requires
                    p == pow(10, d as nat),
                    1 <= p <= 10_000_000_000_000_000_000,
                    -9223372036854775808 <= x <= 9223372036854775807,
            ;
        }
        let xs: i128 = (x as i128) * p;
        let ys: i128 = y as i128;
        if xs < ys {
            -1
        } else if xs == ys {
            0
        } else {
            1
        }
    } else {
        // 10^d exceeds any 64-bit value, so only the sign of `x` matters.
        proof {
            lemma_pow_increases(10, 20, d as nat);
            lemma_pow10_lit();
            lemma_pow_positive(10, d as nat);
            let p = pow(10, d as nat);
            assert(x >= 1 ==> x * p >= p) by (nonlinear_arith)
                requires
                    p >= 1,
            ;
            assert(x <= -1 ==> x * p <= -p) by (nonlinear_arith)
                requires
                    p >= 1,
            ;
            assert(x == 0 ==> x * p == 0) by (nonlinear_arith);
        }
        if x > 0 {
            1
        } else if x < 0 {
            -1
        } else {
            if y > 0 {
                -1
            } else if y == 0 {
                0
            } else {
                1
            }
        }
    }
}

/// Compares two numbers by their exact rational values, returning the sign of
/// the difference.
pub fn num_cmp(a: &Number, b: &Number) -> (r: i8)
    ensures
        -1 <= r <= 1,
        (r == -1) <==> num_lt(a@, b@),
        (r == 1) <==> num_lt(b@, a@),
        (r == 0) <==> num_eq(a@, b@),
{
    let (ma, sa): (i64, u32) = match a {
        Number::Int(i) => (*i, 0u32),
        Number::Dec { mant, scale } => (*mant, *scale),
    };
    let (mb, sb): (i64, u32) = match b {
        Number::Int(i) => (*i, 0u32),
        Number::Dec { mant, scale } => (*mant, *scale),
    };
    if sa <= sb {
        let d: u32 = sb - sa;
        let r: i8 = cmp_scaled(ma, mb, d);
        proof {
            lemma_cross_scale(ma as int, mb as int, sa as nat, sb as nat);
        }
        r
    } else {
        let d: u32 = sa - sb;
        let r: i8 = cmp_scaled(mb, ma, d);
        proof {
            lemma_cross_scale(mb as int, ma as int, sb as nat, sa as nat);
        }
        if r == 1 {
            -1
        } else if r == -1 {
            1
        } else {
            0
        }
    }
}

/// Cross-multiplied comparison agrees with comparison after bringing the
/// smaller-scale mantissa up to the larger scale.
proof fn lemma_cross_scale(ma: int, mb: int, sa: nat, sb: nat)
    requires
        sa <= sb,
    ensures
        (ma * pow(10, (sb - sa) as nat) < mb) <==> (ma * pow(10, sb) < mb * pow(10, sa)),
        (ma * pow(10, (sb - sa) as nat) == mb) <==> (ma * pow(10, sb) == mb * pow(10, sa)),
{
    let d: nat = (sb - sa) as nat;
    let pd = pow(10, d);
    let pa = pow(10, sa);
    lemma_pow_positive(10, sa);
    lemma_pow_positive(10, d);
    lemma_pow_adds(10, d, sa);
    assert(pow(10, sb) == pd * pa);
    assert((ma * pd < mb) <==> (ma * (pd * pa) < mb * pa)) by (nonlinear_arith)
        requires
            pa >= 1,
    ;
    assert((ma * pd == mb) <==> (ma * (pd * pa) == mb * pa)) by (nonlinear_arith)
        requires
            pa >= 1,
    ;
}

impl Number {
    /// Exact numeric `<` between two numbers.
    pub fn lt(&self, other: &Number) -> (r: bool)
        ensures
            r == num_lt(self@, other@),
    {
        num_cmp(self, other) == -1
    }

    /// Exact numeric `>` between two numbers.
    pub fn gt(&self, other: &Number) -> (r: bool)
        ensures
            r == num_lt(other@, self@),
    {
        num_cmp(self, other) == 1
    }

    /// Builds a decimal fraction `mant / 10^scale` in normal form: trailing
    /// zero digits of the mantissa are folded into the scale, so that two
    /// numerically equal fractions are also structurally equal.
    pub fn dec(mant: i64, scale: u32) -> (r: Number)
        ensures
            r is Dec,
            num_eq(r@, NumV::Dec { mant: mant as int, scale: scale as nat }),
            dec_normal(r@),
    {
        let mut m: i64 = mant;
        let mut s: u32 = scale;
        proof {
            lemma_pow_positive(10, scale as nat);
        }
        while m % 10 == 0 && m != 0 && s > 0
            invariant
                num_eq(NumV::Dec { mant: m as int, scale: s as nat },
                       NumV::Dec { mant: mant as int, scale: scale as nat }),
            decreases s,
        {
            proof {
                lemma_drop_zero(m as int, s as nat, mant as int, scale as nat);
            }
            m = m / 10;
            s = s - 1;
        }
        if m == 0 {
            proof {
                if s != 0 {
                    lemma_zero_any_scale(s as nat, mant as int, scale as nat);
                }
            }
            Number::Dec { mant: 0, scale: 0 }
        } else {
            Number::Dec { mant: m, scale: s }
        }
    }
}

/// A decimal fraction in normal form: a zero mantissa has scale zero, and a
/// nonzero mantissa has no trailing zero digit unless the scale is already
/// zero.
pub open spec fn dec_normal(n: NumV) -> bool {
    match n {
        NumV::Int(_) => true,
        NumV::Dec { mant, scale } => (mant == 0 ==> scale == 0) && (scale > 0 ==> mant % 10 != 0),
    }
}

/// Dividing a mantissa ending in zero by ten and lowering the scale by one
/// keeps the rational value.
proof fn lemma_drop_zero(m: int, s: nat, m0: int, s0: nat)
    requires
        m % 10 == 0,
        s >= 1,
        num_eq(NumV::Dec { mant: m, scale: s }, NumV::Dec { mant: m0, scale: s0 }),
    ensures
        num_eq(NumV::Dec { mant: m / 10, scale: (s - 1) as nat }, NumV::Dec { mant: m0, scale: s0 }),
{
    let q = m / 10;
    assert(m == 10 * q);
    assert(pow(10, s) == 10 * pow(10, (s - 1) as nat)) by {
        reveal_with_fuel(pow, 2);
    }
    lemma_pow_positive(10, (s - 1) as nat);
    lemma_pow_positive(10, s0);
    assert(m * pow(10, s0) == m0 * pow(10, s));
    assert(q * pow(10, s0) == m0 * pow(10, (s - 1) as nat)) by (nonlinear_arith)
        requires
            m == 10 * q,
            m * pow(10, s0) == m0 * pow(10, s),
            pow(10, s) == 10 * pow(10, (s - 1) as nat),
    ;
}

/// A zero mantissa means value zero, at any scale.
proof fn lemma_zero_any_scale(s: nat, m0: int, s0: nat)
    requires
        num_eq(NumV::Dec { mant: 0, scale: s }, NumV::Dec { mant: m0, scale: s0 }),
    ensures
        num_eq(NumV::Dec { mant: 0, scale: 0 }, NumV::Dec { mant: m0, scale: s0 }),
{
    assert(pow(10, 0) == 1) by {
        reveal_with_fuel(pow, 1);
    }
    lemma_pow_positive(10, s);
    lemma_pow_positive(10, s0);
    assert(0 * pow(10, s0) == 0) by (nonlinear_arith);
    assert(m0 * pow(10, s) == 0);
    assert(m0 == 0) by (nonlinear_arith)
        requires
            m0 * pow(10, s) == 0,
            pow(10, s) >= 1,
    ;
    assert(m0 * 1 == 0);
}

} // verus!
// Uniqueness of the normal form: two normal-form numbers with the same
// rational value and the same variant are structurally equal.

verus! {

/// Numeric equality is transitive.
pub proof fn lemma_num_eq_trans(a: NumV, b: NumV, c: NumV)
    requires
        num_eq(a, b),
        num_eq(b, c),
    ensures
        num_eq(a, c),
{
    let (ma, sa) = (mant_of(a), scale_of(a));
    let (mb, sb) = (mant_of(b), scale_of(b));
    let (mc, sc) = (mant_of(c), scale_of(c));
    lemma_pow_positive(10, sa);
    lemma_pow_positive(10, sb);
    lemma_pow_positive(10, sc);
    let pa = pow(10, sa);
    let pb = pow(10, sb);
    let pc = pow(10, sc);
    assert(ma * pc == mc * pa) by (nonlinear_arith)
        requires
            ma * pb == mb * pa,
            mb * pc == mc * pb,
            pb >= 1,
    ;
}

/// A number in normal form is determined by its rational value and by
/// whether it is an integer or a fraction.
pub proof fn lemma_normal_unique(a: NumV, b: NumV)
    requires
        num_eq(a, b),
        a is Int <==> b is Int,
        dec_normal(a),
        dec_normal(b),
    ensures
        a == b,
{
    let (ma, sa) = (mant_of(a), scale_of(a));
    let (mb, sb) = (mant_of(b), scale_of(b));
    assert(pow(10, 0) == 1) by {
        reveal_with_fuel(pow, 1);
    }
    if sa <= sb {
        lemma_normal_unique_ordered(ma, sa, mb, sb);
    } else {
        lemma_normal_unique_ordered(mb, sb, ma, sa);
    }
}

/// The ordered core of normal-form uniqueness: with `sa <= sb`, equal values
/// under the normality conditions force equal mantissas and scales.
proof fn lemma_normal_unique_ordered(ma: int, sa: nat, mb: int, sb: nat)
    requires
        sa <= sb,
        ma * pow(10, sb) == mb * pow(10, sa),
        mb == 0 ==> sb == 0,
        sb > 0 ==> mb % 10 != 0,
        ma == 0 ==> sa == 0,
        sa > 0 ==> ma % 10 != 0,
    ensures
        ma == mb,
        sa == sb,
{
    let d: nat = (sb - sa) as nat;
    let pa = pow(10, sa);
    let pd = pow(10, d);
    lemma_pow_positive(10, sa);
    lemma_pow_positive(10, d);
    lemma_pow_adds(10, d, sa);
    assert(pow(10, sb) == pd * pa);
    assert(ma * pd == mb) by (nonlinear_arith)
        requires
            ma * (pd * pa) == mb * pa,
            pa >= 1,
    ;
    if d > 0 {
        assert(pow(10, d) == 10 * pow(10, (d - 1) as nat)) by {
            reveal_with_fuel(pow, 2);
        }
        lemma_pow_positive(10, (d - 1) as nat);
        let q = ma * pow(10, (d - 1) as nat);
        assert(mb == 10 * q) by (nonlinear_arith)
            requires
                mb == ma * (10 * pow(10, (d - 1) as nat)),
                q == ma * pow(10, (d - 1) as nat),
        ;
        assert(mb % 10 == 0) by (nonlinear_arith)
            requires
                mb == 10 * q,
        ;
        if mb == 0 {
            assert(sb == 0);
            assert(false);
        } else {
            assert(sb > 0);
            assert(false);
        }
    }
    assert(pow(10, 0) == 1) by {
        reveal_with_fuel(pow, 1);
    }
}

} // verus!
