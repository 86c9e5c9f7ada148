//! Verified parsing of numeric and boolean parameter literals.
//!
//! The grammar matches what the untyped front end hands over: an optional
//! sign and digits for integers; sign, digits, an optional fraction and an
//! optional decimal exponent for fractions; and the case-insensitive boolean
//! literals. Values whose exact representation does not fit the 64-bit
//! mantissa are rejected rather than rounded.

use vstd::prelude::*;
use vstd::arithmetic::power::{pow, lemma_pow_positive};
use vstd::string::StrSliceExecFns;
use crate::num::{Number, NumV, num_eq};
use crate::text::{is_digit, is_space};

verus! {

/// The numeric value of one digit character.
pub open spec fn digit_val(c: char) -> int {
    c as int - 48
}

/// Every character of `s` in `[i, j)` is a decimal digit.
pub open spec fn digits_in(s: Seq<char>, i: int, j: int) -> bool {
    forall|k: int| i <= k < j ==> is_digit(#[trigger] s[k])
}

/// The value of a digit string, most significant digit first.
pub open spec fn digits_val(s: Seq<char>) -> int
    decreases s.len(),
{
    if s.len() == 0 {
        0
    } else {
        digits_val(s.drop_last()) * 10 + digit_val(s.last())
    }
}

/// A digit string's value is nonnegative.
pub proof fn lemma_digits_val_nonneg(s: Seq<char>)
    requires
        digits_in(s, 0, s.len() as int),
    ensures
        digits_val(s) >= 0,
    decreases s.len(),
{
    if s.len() > 0 {
        lemma_digits_val_nonneg(s.drop_last());
    }
}

/// Extending a digit string on the right can only grow its value.
pub proof fn lemma_digits_val_prefix(s: Seq<char>, m: int)
    requires
        digits_in(s, 0, s.len() as int),
        0 <= m <= s.len(),
    ensures
        digits_val(s) >= digits_val(s.take(m)),
    decreases s.len() - m,
{
    if m < s.len() {
        lemma_digits_val_prefix(s, m + 1);
        let t = s.take(m + 1);
        assert(t.drop_last() =~= s.take(m));
        assert(digits_in(s.take(m), 0, m));
        lemma_digits_val_nonneg(s.take(m));
        assert(digits_val(t) == digits_val(s.take(m)) * 10 + digit_val(s[m]));
    } else {
        assert(s.take(m) =~= s);
    }
}

/// The sign-stripped body of an integer literal.
pub open spec fn int_body(s: Seq<char>) -> Seq<char> {
    if s.len() >= 1 && (s[0] == '+' || s[0] == '-') {
        s.skip(1)
    } else {
        s
    }
}

/// The sign of an integer literal.
pub open spec fn int_sign(s: Seq<char>) -> int {
    if s.len() >= 1 && s[0] == '-' {
        -1
    } else {
        1
    }
}

/// An integer literal: an optional sign followed by one or more digits.
pub open spec fn is_int_literal(s: Seq<char>) -> bool {
    &&& int_body(s).len() >= 1
    &&& digits_in(int_body(s), 0, int_body(s).len() as int)
}

/// The mathematical value of an integer literal.
pub open spec fn int_lit_val(s: Seq<char>) -> int {
    int_sign(s) * digits_val(int_body(s))
}

/// Parses a signed 64-bit integer literal. Returns the value exactly when
/// the text is an integer literal whose value fits in `i64`.
pub fn parse_i64_chars(s: &Vec<char>) -> (r: Option<i64>)
    ensures
        match r {
            Some(v) => is_int_literal(s@) && v as int == int_lit_val(s@),
            None => !(is_int_literal(s@) && -0x8000_0000_0000_0000 <= int_lit_val(s@)
                < 0x8000_0000_0000_0000),
        },
{
    let n: usize = s.len();
    if n == 0 {
        return None;
    }
    let (neg, start): (bool, usize) = if s[0] == '-' {
        (true, 1)
    } else if s[0] == '+' {
        (false, 1)
    } else {
        (false, 0)
    };
    let ghost body = int_body(s@);
    proof {
        assert(body =~= s@.skip(start as int));
    }
    if n == start {
        return None;
    }
    let mut acc: u128 = 0;
    let mut i: usize = start;
    while i < n
        invariant
            start <= i <= n,
            n == s@.len(),
            start + body.len() == n,
            body == s@.skip(start as int),
            body == int_body(s@),
            int_sign(s@) == (if neg { -1int } else { 1int }),
            digits_in(body, 0, (i - start) as int),
            acc == digits_val(body.take((i - start) as int)),
            acc <= 0x8000_0000_0000_0000,
        decreases n - i,
    {
        let c: char = s[i];
        if !('0' <= c && c <= '9') {
            proof {
                let m = (i - start) as int;
                assert(body[m] == s@[i as int]);
                assert(!is_digit(body[m]));
            }
            return None;
        }
        let d: u128 = (c as u32 - 48) as u128;
        proof {
            let m = (i - start) as int;
            assert(body[m] == s@[i as int]);
            assert(body.take(m + 1).drop_last() =~= body.take(m));
            assert(digits_val(body.take(m + 1)) == digits_val(body.take(m)) * 10 + digit_val(
                body[m],
            ));
        }
        acc = acc * 10 + d;
        if acc > 0x8000_0000_0000_0000 {
            proof {
                let m = (i - start) as int + 1;
                assert(digits_in(body, 0, body.len() as int) ==> digits_val(body)
                    >= digits_val(body.take(m))) by {
                    if digits_in(body, 0, body.len() as int) {
                        lemma_digits_val_prefix(body, m);
                    }
                }
            }
            return None;
        }
        i += 1;
    }
    proof {
        assert(body.take(body.len() as int) =~= body);
        assert(is_int_literal(s@));
    }
    if neg {
        let v: i64 = (-(acc as i128)) as i64;
        Some(v)
    } else {
        if acc == 0x8000_0000_0000_0000 {
            return None;
        }
        Some(acc as i64)
    }
}

/// First position at or after `i` in `s` that does not hold a digit.
pub open spec fn digits_end(s: Seq<char>, i: int) -> int
    decreases s.len() - i,
{
    if i < 0 || i >= s.len() {
        i
    } else if is_digit(s[i]) {
        digits_end(s, i + 1)
    } else {
        i
    }
}

proof fn lemma_digits_end(s: Seq<char>, i: int)
    requires
        0 <= i <= s.len(),
    ensures
        i <= digits_end(s, i) <= s.len(),
        digits_in(s, i, digits_end(s, i)),
        digits_end(s, i) < s.len() ==> !is_digit(s[digits_end(s, i)]),
    decreases s.len() - i,
{
    if i < s.len() && is_digit(s[i]) {
        lemma_digits_end(s, i + 1);
    }
}

/// Scans digits from `i` on, returning the first non-digit position.
fn scan_digits(s: &Vec<char>, i: usize) -> (j: usize)
    requires
        i <= s@.len(),
    ensures
        j == digits_end(s@, i as int),
        i <= j <= s@.len(),
{
    let mut j: usize = i;
    while j < s.len() && '0' <= s[j] && s[j] <= '9'
        invariant
            i <= j <= s@.len(),
            digits_end(s@, i as int) == digits_end(s@, j as int),
        decreases s@.len() - j,
    {
        j += 1;
    }
    j
}

} // verus!
// Decimal fraction literals: sign, digits, optional fraction, optional
// decimal exponent. The decomposition below is the deterministic greedy scan
// of that grammar.

verus! {

/// Start of the digits: one past a leading sign, if any.
pub open spec fn dec_i0(s: Seq<char>) -> int {
    if s.len() >= 1 && (s[0] == '+' || s[0] == '-') {
        1
    } else {
        0
    }
}

/// End of the integer-part digits.
pub open spec fn dec_i1(s: Seq<char>) -> int {
    digits_end(s, dec_i0(s))
}

/// Whether a decimal point follows the integer part.
pub open spec fn dec_has_dot(s: Seq<char>) -> bool {
    dec_i1(s) < s.len() && s[dec_i1(s)] == '.'
}

/// Start of the fraction digits.
pub open spec fn dec_i2(s: Seq<char>) -> int {
    if dec_has_dot(s) {
        dec_i1(s) + 1
    } else {
        dec_i1(s)
    }
}

/// End of the fraction digits.
pub open spec fn dec_i3(s: Seq<char>) -> int {
    digits_end(s, dec_i2(s))
}

/// The mantissa digits: integer part and fraction part, concatenated.
pub open spec fn dec_mant_digits(s: Seq<char>) -> Seq<char> {
    s.subrange(dec_i0(s), dec_i1(s)) + s.subrange(dec_i2(s), dec_i3(s))
}

/// The number of fraction digits.
pub open spec fn dec_frac_len(s: Seq<char>) -> int {
    dec_i3(s) - dec_i2(s)
}

/// Whether an exponent marker follows the digits.
pub open spec fn dec_has_exp(s: Seq<char>) -> bool {
    dec_i3(s) < s.len() && (s[dec_i3(s)] == 'e' || s[dec_i3(s)] == 'E')
}

/// Sign of the exponent.
pub open spec fn dec_esign(s: Seq<char>) -> int {
    if dec_has_exp(s) && dec_i3(s) + 1 < s.len() && s[dec_i3(s) + 1] == '-' {
        -1
    } else {
        1
    }
}

/// Start of the exponent digits: past the marker and an optional sign.
pub open spec fn dec_e0(s: Seq<char>) -> int {
    if dec_has_exp(s) && dec_i3(s) + 1 < s.len() && (s[dec_i3(s) + 1] == '+' || s[dec_i3(s) + 1]
        == '-') {
        dec_i3(s) + 2
    } else {
        dec_i3(s) + 1
    }
}

/// End of the exponent digits.
pub open spec fn dec_e1(s: Seq<char>) -> int {
    digits_end(s, dec_e0(s))
}

/// A decimal fraction literal: at least one mantissa digit, and either no
/// exponent and nothing after the digits, or an exponent marker followed by
/// one or more digits reaching the end.
pub open spec fn is_dec_literal(s: Seq<char>) -> bool {
    &&& dec_mant_digits(s).len() >= 1
    &&& if dec_has_exp(s) {
        dec_e1(s) == s.len() && dec_e1(s) > dec_e0(s)
    } else {
        dec_i3(s) == s.len()
    }
}

/// The signed, unscaled mantissa of a decimal literal.
pub open spec fn dec_mant(s: Seq<char>) -> int {
    (if s.len() >= 1 && s[0] == '-' {
        -1int
    } else {
        1int
    }) * digits_val(dec_mant_digits(s))
}

/// The signed exponent value of a decimal literal.
pub open spec fn dec_exp_val(s: Seq<char>) -> int {
    if dec_has_exp(s) {
        dec_esign(s) * digits_val(s.subrange(dec_e0(s), dec_e1(s)))
    } else {
        0
    }
}

/// The literal's net power-of-ten scale: fraction digits minus the exponent.
pub open spec fn dec_net_scale(s: Seq<char>) -> int {
    dec_frac_len(s) - dec_exp_val(s)
}

/// The exact number a decimal literal denotes, as mantissa and scale.
pub open spec fn dec_ideal(m: int, sc: int) -> NumV {
    if sc >= 0 {
        NumV::Dec { mant: m, scale: sc as nat }
    } else {
        NumV::Dec { mant: m * pow(10, (-sc) as nat), scale: 0 }
    }
}

/// Whether the literal's exact value fits the 64-bit mantissa representation.
pub open spec fn dec_representable(s: Seq<char>) -> bool {
    let m = dec_mant(s);
    let sc = dec_net_scale(s);
    if m == 0 {
        true
    } else {
        &&& -0x7fff_ffff_ffff_ffff <= m <= 0x7fff_ffff_ffff_ffff
        &&& (sc >= 0 ==> sc <= 0xffff_ffff)
        &&& (sc < 0 ==> -0x7fff_ffff_ffff_ffff <= m * pow(10, (-sc) as nat)
            <= 0x7fff_ffff_ffff_ffff)
    }
}

/// Parses a decimal fraction literal into an exact number. Returns the
/// normal-form fraction exactly when the text is a decimal literal whose
/// exact value is representable.
#[verifier::rlimit(100)]
pub fn parse_decimal_chars(s: &Vec<char>) -> (r: Option<Number>)
    ensures
        match r {
            Some(num) => {
                &&& is_dec_literal(s@)
                &&& dec_representable(s@)
                &&& num is Dec
                &&& crate::num::dec_normal(num@)
                &&& num_eq(num@, dec_ideal(dec_mant(s@), dec_net_scale(s@)))
            },
            None => !(is_dec_literal(s@) && dec_representable(s@)),
        },
{
    let n: usize = s.len();
    if n == 0 {
        return None;
    }
    let (neg, i0): (bool, usize) = if s[0] == '-' {
        (true, 1)
    } else if s[0] == '+' {
        (false, 1)
    } else {
        (false, 0)
    };
    let i1: usize = scan_digits(s, i0);
    let (has_dot, i2): (bool, usize) = if i1 < n && s[i1] == '.' {
        (true, i1 + 1)
    } else {
        (false, i1)
    };
    let i3: usize = scan_digits(s, i2);
    proof {
        lemma_digits_end(s@, i0 as int);
        lemma_digits_end(s@, i2 as int);
        assert(dec_i0(s@) == i0 as int);
        assert(dec_i1(s@) == i1 as int);
        assert(dec_i2(s@) == i2 as int);
        assert(dec_i3(s@) == i3 as int);
    }
    let ghost md = dec_mant_digits(s@);
    proof {
        assert(md.len() == (i1 - i0) + (i3 - i2));
        assert(digits_in(md, 0, md.len() as int)) by {
            assert forall|k: int| 0 <= k < md.len() implies is_digit(md[k]) by {
                if k < i1 - i0 {
                    assert(md[k] == s@[i0 + k]);
                } else {
                    assert(md[k] == s@[i2 + (k - (i1 - i0))]);
                }
            }
        }
    }
    if i1 - i0 == 0 && i3 - i2 == 0 {
        return None;
    }
    // Accumulate the mantissa magnitude over the two digit segments.
    let mut mag: u128 = 0;
    let mut j: usize = i0;
    while j < i1
        invariant
            i0 <= j <= i1 <= n,
            n == s@.len(),
            i1 as int == dec_i1(s@),
            i0 as int == dec_i0(s@),
            md == dec_mant_digits(s@),
            digits_in(md, 0, md.len() as int),
            md.len() >= i1 - i0,
            forall|k: int| 0 <= k < i1 - i0 ==> md[k] == s@[i0 + k],
            mag == digits_val(md.take((j - i0) as int)),
            mag <= 0x7fff_ffff_ffff_ffff,
        decreases i1 - j,
    {
        let c: char = s[j];
        proof {
            let m = (j - i0) as int;
            assert(md[m] == s@[j as int]);
            assert(is_digit(md[m]));
            assert(md.take(m + 1).drop_last() =~= md.take(m));
        }
        let d: u128 = (c as u32 - 48) as u128;
        mag = mag * 10 + d;
        if mag > 0x7fff_ffff_ffff_ffff {
            proof {
                lemma_digits_val_prefix(md, (j - i0) as int + 1);
                lemma_mag_too_big(s@, digits_val(md));
            }
            return None;
        }
        j += 1;
    }
    let mut j2: usize = i2;
    while j2 < i3
        invariant
            i2 <= j2 <= i3 <= n,
            n == s@.len(),
            i1 as int == dec_i1(s@),
            i0 as int == dec_i0(s@),
            i2 as int == dec_i2(s@),
            i3 as int == dec_i3(s@),
            md == dec_mant_digits(s@),
            digits_in(md, 0, md.len() as int),
            md.len() == (i1 - i0) + (i3 - i2),
            forall|k: int| i1 - i0 <= k < md.len() ==> md[k] == s@[i2 + (k - (i1 - i0))],
            mag == digits_val(md.take((i1 - i0) + (j2 - i2) as int)),
            mag <= 0x7fff_ffff_ffff_ffff,
        decreases i3 - j2,
    {
        let c: char = s[j2];
        proof {
            let m = (i1 - i0) + (j2 - i2) as int;
            assert(md[m] == s@[j2 as int]);
            assert(is_digit(md[m]));
            assert(md.take(m + 1).drop_last() =~= md.take(m));
        }
        let d: u128 = (c as u32 - 48) as u128;
        mag = mag * 10 + d;
        if mag > 0x7fff_ffff_ffff_ffff {
            proof {
                lemma_digits_val_prefix(md, (i1 - i0) + (j2 - i2) as int + 1);
                lemma_mag_too_big(s@, digits_val(md));
            }
            return None;
        }
        j2 += 1;
    }
    proof {
        assert(md.take(md.len() as int) =~= md);
    }
    // The exponent part.
    let has_exp: bool = i3 < n && (s[i3] == 'e' || s[i3] == 'E');
    if !has_exp {
        if i3 != n {
            return None;
        }
    }
    let mut eneg: bool = false;
    let mut e0: usize = i3;
    if has_exp {
        e0 = i3 + 1;
        if i3 + 1 < n && (s[i3 + 1] == '+' || s[i3 + 1] == '-') {
            eneg = s[i3 + 1] == '-';
            e0 = i3 + 2;
        }
    }
    let mut expv: u128 = 0;
    let ghost ed = s@.subrange(dec_e0(s@), dec_e1(s@));
    if has_exp {
        let e1: usize = scan_digits(s, if e0 <= n { e0 } else { n });
        proof {
            lemma_digits_end(s@, e0 as int);
            assert(dec_e0(s@) == e0 as int);
            assert(dec_e1(s@) == e1 as int);
        }
        if e1 != n || e1 == e0 {
            return None;
        }
        // Exponent digits, saturating high so that absurd exponents are
        // still classified correctly.
        let mut k: usize = e0;
        while k < e1
            invariant
                e0 <= k <= e1 <= n,
                n == s@.len(),
                e0 as int == dec_e0(s@),
                e1 as int == dec_e1(s@),
                ed == s@.subrange(dec_e0(s@), dec_e1(s@)),
                digits_in(s@, e0 as int, e1 as int),
                expv == sat_cap(digits_val(ed.take((k - e0) as int))),
                digits_in(ed, 0, ed.len() as int),
            decreases e1 - k,
        {
            let c: char = s[k];
            proof {
                let m = (k - e0) as int;
                assert(ed[m] == s@[k as int]);
                assert(is_digit(ed[m]));
                assert(ed.take(m + 1).drop_last() =~= ed.take(m));
                lemma_digits_val_nonneg(ed.take(m));
            }
            let d: u128 = (c as u32 - 48) as u128;
            expv = expv * 10 + d;
            if expv > 0x10_0000_0000_0000_0000_0000_0000 {
                expv = 0x10_0000_0000_0000_0000_0000_0000;
            }
            proof {
                let m = (k - e0) as int;
                lemma_sat_step(digits_val(ed.take(m)), digit_val(ed[m]));
            }
            k += 1;
        }
        proof {
            assert(ed.take(ed.len() as int) =~= ed);
        }
    }
    // Combine mantissa and scale.
    if mag == 0 {
        proof {
            assert(dec_mant(s@) == 0) by {
                assert(1 * digits_val(md) == digits_val(md)) by (nonlinear_arith);
                assert((-1) * digits_val(md) == -digits_val(md)) by (nonlinear_arith);
            }
            lemma_zero_ideal(dec_mant(s@), dec_net_scale(s@));
            assert(is_dec_literal(s@));
        }
        return Some(Number::Dec { mant: 0, scale: 0 });
    }
    let m_i64: i64 = if neg {
        (-(mag as i128)) as i64
    } else {
        mag as i64
    };
    proof {
        assert(1 * digits_val(md) == digits_val(md)) by (nonlinear_arith);
        assert((-1) * digits_val(md) == -digits_val(md)) by (nonlinear_arith);
        assert(m_i64 as int == dec_mant(s@));
        assert(m_i64 != 0);
        assert(is_dec_literal(s@));
        if has_exp {
            assert(eneg <==> dec_esign(s@) == -1);
        }
    }
    let frac_len: usize = i3 - i2;
    combine_dec(m_i64, frac_len, has_exp, eneg, expv, Ghost(s@))
}

/// Combines a parsed mantissa with the fraction length and exponent into the
/// final exact number, rejecting unrepresentable magnitudes and scales.
fn combine_dec(
    m_i64: i64,
    frac_len: usize,
    has_exp: bool,
    eneg: bool,
    expv: u128,
    Ghost(sv): Ghost<Seq<char>>,
) -> (r: Option<Number>)
    requires
        is_dec_literal(sv),
        m_i64 as int == dec_mant(sv),
        m_i64 != 0,
        -0x7fff_ffff_ffff_ffff <= m_i64 <= 0x7fff_ffff_ffff_ffff,
        frac_len as int == dec_frac_len(sv),
        has_exp == dec_has_exp(sv),
        has_exp ==> dec_e1(sv) == sv.len() && dec_e1(sv) > dec_e0(sv),
        has_exp ==> (eneg <==> dec_esign(sv) == -1),
        has_exp ==> digits_in(sv, dec_e0(sv), dec_e1(sv)) && expv as int == sat_cap(
            digits_val(sv.subrange(dec_e0(sv), dec_e1(sv))),
        ),
        !has_exp ==> expv == 0,
        expv <= 0x10_0000_0000_0000_0000_0000_0000,
    ensures
        match r {
            Some(num) => {
                &&& dec_representable(sv)
                &&& num is Dec
                &&& crate::num::dec_normal(num@)
                &&& num_eq(num@, dec_ideal(dec_mant(sv), dec_net_scale(sv)))
            },
            None => !dec_representable(sv),
        },
{
    let sc: i128 = if has_exp && !eneg {
        (frac_len as i128) - (expv as i128)
    } else if has_exp {
        (frac_len as i128) + (expv as i128)
    } else {
        frac_len as i128
    };
    proof {
        lemma_sat_scale(sv, frac_len as int, expv as int, has_exp, eneg, sc as int);
    }
    if sc >= 0 {
        if sc > 0xffff_ffff {
            proof {
                if dec_net_scale(sv) < 0 {
                    lemma_scaled_too_big(dec_mant(sv), (-dec_net_scale(sv)) as nat);
                }
            }
            return None;
        }
        Some(Number::dec(m_i64, sc as u32))
    } else {
        let kk: i128 = -sc;
        if kk >= 19 {
            proof {
                let sct = dec_net_scale(sv);
                lemma_scaled_too_big(dec_mant(sv), (-sct) as nat);
            }
            return None;
        }
        let p: i128 = crate::num::pow10_i128(kk as u32);
        proof {
            assert((m_i64 as i128) * p == (m_i64 as int) * pow(10, (-(sc as int)) as nat)
                && -0x8000_0000_0000_0000_0000_0000_0000_0000 <= (m_i64 as i128) * p
                && (m_i64 as i128) * p <= 0x7fff_ffff_ffff_ffff_ffff_ffff_ffff_ffff)
                by (nonlinear_arith)
                requires
                    p == pow(10, (-(sc as int)) as nat),
                    1 <= p <= 10_000_000_000_000_000_000,
                    -0x7fff_ffff_ffff_ffff <= m_i64 <= 0x7fff_ffff_ffff_ffff,
            ;
        }
        let prod: i128 = (m_i64 as i128) * p;
        proof {
            assert(sc as int == dec_net_scale(sv));
            assert(dec_ideal(dec_mant(sv), dec_net_scale(sv)) == NumV::Dec {
                mant: (m_i64 as int) * pow(10, (-(sc as int)) as nat),
                scale: 0,
            });
        }
        if prod < -0x7fff_ffff_ffff_ffff || prod > 0x7fff_ffff_ffff_ffff {
            return None;
        }
        Some(Number::dec(prod as i64, 0))
    }
}

/// The saturation cap applied while reading exponent digits.
pub open spec fn sat_cap(v: int) -> int {
    if v > 0x10_0000_0000_0000_0000_0000_0000 {
        0x10_0000_0000_0000_0000_0000_0000
    } else {
        v
    }
}

/// One saturated accumulation step agrees with saturating the true value.
proof fn lemma_sat_step(v: int, d: int)
    requires
        v >= 0,
        0 <= d <= 9,
    ensures
        ({
            let step = sat_cap(v) * 10 + d;
            let capped = if step > 0x10_0000_0000_0000_0000_0000_0000 {
                0x10_0000_0000_0000_0000_0000_0000int
            } else {
                step
            };
            capped == sat_cap(v * 10 + d)
        }),
{
}

/// A mantissa magnitude beyond the 64-bit range makes a nonzero literal
/// unrepresentable.
proof fn lemma_mag_too_big(s: Seq<char>, dv: int)
    requires
        digits_val(dec_mant_digits(s)) == dv,
        dv > 0x7fff_ffff_ffff_ffff,
    ensures
        !dec_representable(s),
{
    assert(dec_mant(s) == dv || dec_mant(s) == -1 * dv);
}

/// A zero mantissa denotes zero at every scale.
proof fn lemma_zero_ideal(m: int, sc: int)
    requires
        m == 0,
    ensures
        num_eq(NumV::Dec { mant: 0, scale: 0 }, dec_ideal(m, sc)),
{
    let ideal = dec_ideal(m, sc);
    lemma_pow_positive(10, crate::num::scale_of(ideal));
    assert(0 * pow(10, crate::num::scale_of(ideal)) == 0) by (nonlinear_arith);
    if sc < 0 {
        assert(0 * pow(10, (-sc) as nat) == 0) by (nonlinear_arith);
    }
    assert(crate::num::mant_of(ideal) == 0);
    assert(crate::num::mant_of(ideal) * pow(10, 0) == 0) by (nonlinear_arith)
        requires
            crate::num::mant_of(ideal) == 0,
    ;
}

/// A nonzero mantissa scaled up nineteen or more decimal places leaves the
/// 64-bit range.
proof fn lemma_scaled_too_big(m: int, k: nat)
    requires
        m != 0,
        -0x7fff_ffff_ffff_ffff <= m <= 0x7fff_ffff_ffff_ffff,
        k >= 19,
    ensures
        !(-0x7fff_ffff_ffff_ffff <= m * pow(10, k) <= 0x7fff_ffff_ffff_ffff),
{
    crate::num::lemma_pow10_ge_19(k);
    let p = pow(10, k);
    assert(m >= 1 ==> m * p >= p) by (nonlinear_arith)
        requires
            p >= 1,
    ;
    assert(m <= -1 ==> m * p <= -p) by (nonlinear_arith)
        requires
            p >= 1,
    ;
}

/// Relates the saturated exponent to the true net scale: the computed scale
/// is exact when the saturation cap was not reached, and on the same side of
/// every decision threshold when it was.
proof fn lemma_sat_scale(s: Seq<char>, frac_len: int, expv: int, has_exp: bool, eneg: bool, sc: int)
    requires
        frac_len == dec_frac_len(s),
        0 <= frac_len,
        has_exp == dec_has_exp(s),
        has_exp ==> dec_e1(s) == s.len() && dec_e1(s) > dec_e0(s),
        has_exp ==> (eneg <==> dec_esign(s) == -1),
        has_exp ==> digits_in(s, dec_e0(s), dec_e1(s)) && expv == sat_cap(
            digits_val(s.subrange(dec_e0(s), dec_e1(s))),
        ),
        !has_exp ==> expv == 0,
        sc == (if has_exp && !eneg {
            frac_len - expv
        } else if has_exp {
            frac_len + expv
        } else {
            frac_len
        }),
        frac_len <= 0xffff_ffff_ffff_ffff,
    ensures
        (0 <= sc <= 0xffff_ffff) ==> sc == dec_net_scale(s),
        (sc > 0xffff_ffff) ==> !(0 <= dec_net_scale(s) <= 0xffff_ffff),
        (sc >= 0 && dec_net_scale(s) < 0) ==> -dec_net_scale(s) >= 19,
        (sc < 0) ==> dec_net_scale(s) < 0 && (-dec_net_scale(s) >= 19 <==> -sc >= 19),
        (sc < 0 && -sc < 19) ==> sc == dec_net_scale(s),
{
    if has_exp {
        let ed = s.subrange(dec_e0(s), dec_e1(s));
        assert(digits_in(ed, 0, ed.len() as int)) by {
            assert forall|k: int| 0 <= k < ed.len() implies is_digit(ed[k]) by {
                assert(ed[k] == s[dec_e0(s) + k]);
            }
        }
        lemma_digits_val_nonneg(ed);
        let dv = digits_val(ed);
        if dv > 0x10_0000_0000_0000_0000_0000_0000 {
            assert(expv == 0x10_0000_0000_0000_0000_0000_0000);
        } else {
            assert(expv == dv);
        }
        if eneg {
            assert(dec_exp_val(s) == -1 * dv);
            assert(dec_net_scale(s) == frac_len + dv);
        } else {
            assert(dec_exp_val(s) == 1 * dv);
            assert(dec_net_scale(s) == frac_len - dv);
        }
    }
}

} // verus!
// Boolean literals, compared ASCII-case-insensitively.

verus! {

/// ASCII lowercase of one character.
pub open spec fn lower_char(c: char) -> char {
    if 'A' <= c && c <= 'Z' {
        (((c as u32) + 32) as u8) as char
    } else {
        c
    }
}

/// ASCII lowercase of a character sequence.
pub open spec fn lower_seq(s: Seq<char>) -> Seq<char> {
    Seq::new(
        s.len(),
        |i: int|
            if 0 <= i < s.len() {
                lower_char(s[i])
            } else {
                ' '
            },
    )
}

/// Whether the ASCII-lowercased text equals the given literal.
pub fn ascii_lower_eq(s: &Vec<char>, lit: &str) -> (r: bool)
    ensures
        r == (lower_seq(s@) == lit@),
{
    let n: usize = lit.unicode_len();
    if s.len() != n {
        proof {
            assert(lower_seq(s@).len() == s@.len());
        }
        return false;
    }
    let mut i: usize = 0;
    while i < n
        invariant
            i <= n,
            n == s@.len(),
            n == lit@.len(),
            forall|j: int| 0 <= j < i ==> lower_seq(s@)[j] == lit@[j],
        decreases n - i,
    {
        let c: char = s[i];
        let lc: char = if 'A' <= c && c <= 'Z' {
            (((c as u32) + 32) as u8) as char
        } else {
            c
        };
        if lc != lit.get_char(i) {
            proof {
                assert(lower_seq(s@)[i as int] != lit@[i as int]);
            }
            return false;
        }
        i += 1;
    }
    proof {
        assert(lower_seq(s@) =~= lit@);
    }
    true
}

/// The boolean a literal denotes: `true`/`1`/`yes` and `false`/`0`/`no`,
/// case-insensitively; anything else is no boolean literal.
pub open spec fn bool_lit(s: Seq<char>) -> Option<bool> {
    if lower_seq(s) == "true"@ || lower_seq(s) == "1"@ || lower_seq(s) == "yes"@ {
        Some(true)
    } else if lower_seq(s) == "false"@ || lower_seq(s) == "0"@ || lower_seq(s) == "no"@ {
        Some(false)
    } else {
        None
    }
}

/// Parses a boolean literal.
pub fn parse_bool_chars(s: &Vec<char>) -> (r: Option<bool>)
    ensures
        r == bool_lit(s@),
{
    if ascii_lower_eq(s, "true") || ascii_lower_eq(s, "1") || ascii_lower_eq(s, "yes") {
        Some(true)
    } else if ascii_lower_eq(s, "false") || ascii_lower_eq(s, "0") || ascii_lower_eq(s, "no") {
        Some(false)
    } else {
        None
    }
}

} // verus!
