//! Rendering of numbers and dynamic values into the strings that error
//! messages carry: decimal digit strings, JSON-style value text, and
//! comma-joined lists.

use vstd::prelude::*;
use crate::num::{Number, NumV};
use crate::values::{JsonValue, JsonV, view_of};
use crate::text::string_of_chars;

verus! {

broadcast use vstd::std_specs::vec::group_vec_axioms;

/// The character for one decimal digit.
pub open spec fn digit_char(d: int) -> char {
    if d == 0 {
        '0'
    } else if d == 1 {
        '1'
    } else if d == 2 {
        '2'
    } else if d == 3 {
        '3'
    } else if d == 4 {
        '4'
    } else if d == 5 {
        '5'
    } else if d == 6 {
        '6'
    } else if d == 7 {
        '7'
    } else if d == 8 {
        '8'
    } else {
        '9'
    }
}

/// The decimal digits of a nonnegative integer, most significant first.
pub open spec fn dec_digits(n: nat) -> Seq<char>
    decreases n,
{
    if n < 10 {
        seq![digit_char(n as int)]
    } else {
        dec_digits(n / 10).push(digit_char((n % 10) as int))
    }
}

/// The usual decimal rendering of an integer, with a leading minus sign when
/// negative.
pub open spec fn int_chars(i: int) -> Seq<char> {
    if i < 0 {
        seq!['-'] + dec_digits((-i) as nat)
    } else {
        dec_digits(i as nat)
    }
}

/// `n` zero characters.
pub open spec fn zero_chars(n: nat) -> Seq<char> {
    Seq::new(n, |i: int| '0')
}

/// Digits padded on the left with zeros up to width `w`.
pub open spec fn pad_left(d: Seq<char>, w: nat) -> Seq<char> {
    if d.len() >= w {
        d
    } else {
        zero_chars((w - d.len()) as nat) + d
    }
}

/// The rendering of a number. An integer renders as its digits. A decimal
/// fraction `mant / 10^scale` renders with a decimal point `scale` digits
/// from the right; with scale zero it renders as digits followed by `.0` when
/// `json_style` is set (the JSON float form), and as bare digits otherwise.
pub open spec fn num_chars(n: NumV, json_style: bool) -> Seq<char> {
    match n {
        NumV::Int(i) => int_chars(i),
        NumV::Dec { mant, scale } => {
            if scale == 0 {
                if json_style {
                    int_chars(mant) + seq!['.', '0']
                } else {
                    int_chars(mant)
                }
            } else {
                let sign: Seq<char> = if mant < 0 {
                    seq!['-']
                } else {
                    seq![]
                };
                let mag: nat = if mant < 0 {
                    (-mant) as nat
                } else {
                    mant as nat
                };
                let d = pad_left(dec_digits(mag), scale + 1);
                sign + d.take(d.len() - scale) + seq!['.'] + d.skip(d.len() - scale)
            }
        },
    }
}

/// The digit character of `d`, executable.
fn digit_char_exec(d: u64) -> (c: char)
    requires
        d < 10,
    ensures
        c == digit_char(d as int),
{
    if d == 0 {
        '0'
    } else if d == 1 {
        '1'
    } else if d == 2 {
        '2'
    } else if d == 3 {
        '3'
    } else if d == 4 {
        '4'
    } else if d == 5 {
        '5'
    } else if d == 6 {
        '6'
    } else if d == 7 {
        '7'
    } else if d == 8 {
        '8'
    } else {
        '9'
    }
}

/// The decimal digits of `n`, most significant first.
pub fn digits_u64(n: u64) -> (v: Vec<char>)
    ensures
        v@ == dec_digits(n as nat),
        v@.len() >= 1,
    decreases n,
{
    if n < 10 {
        let mut v: Vec<char> = Vec::new();
        v.push(digit_char_exec(n));
        proof {
            assert(v@ =~= dec_digits(n as nat));
        }
        v
    } else {
        let mut v: Vec<char> = digits_u64(n / 10);
        v.push(digit_char_exec(n % 10));
        v
    }
}

/// The magnitude of a 64-bit integer as an unsigned value.
fn abs_u64(i: i64) -> (m: u64)
    ensures
        m == (if i < 0 {
            (-(i as int))
        } else {
            i as int
        }),
{
    if i < 0 {
        (-(i as i128)) as u64
    } else {
        i as u64
    }
}

/// The decimal rendering of a signed integer, as characters.
pub fn int_chars_exec(i: i64) -> (v: Vec<char>)
    ensures
        v@ == int_chars(i as int),
{
    let mag: u64 = abs_u64(i);
    let digits: Vec<char> = digits_u64(mag);
    if i < 0 {
        let mut v: Vec<char> = Vec::new();
        v.push('-');
        let mut d: Vec<char> = digits;
        v.append(&mut d);
        proof {
            assert(v@ =~= int_chars(i as int));
        }
        v
    } else {
        digits
    }
}

/// The rendering of a number, as characters.
pub fn num_chars_exec(n: &Number, json_style: bool) -> (v: Vec<char>)
    ensures
        v@ == num_chars(n@, json_style),
{
    match n {
        Number::Int(i) => int_chars_exec(*i),
        Number::Dec { mant, scale } => {
            if *scale == 0 {
                let mut v: Vec<char> = int_chars_exec(*mant);
                if json_style {
                    v.push('.');
                    v.push('0');
                    proof {
                        assert(v@ =~= int_chars(*mant as int) + seq!['.', '0']);
                    }
                }
                v
            } else {
                let s64: u64 = *scale as u64;
                let mag: u64 = abs_u64(*mant);
                let digits: Vec<char> = digits_u64(mag);
                let ghost dd = dec_digits(mag as nat);
                // Pad on the left with zeros up to scale + 1 digits.
                let mut padded: Vec<char> = Vec::new();
                let mut k: u64 = digits.len() as u64;
                while k < s64 + 1
                    invariant
                        s64 <= 0xffff_ffffu64,
                        digits@.len() <= k,
                        k <= s64 + 1 || k == digits@.len(),
                        padded@ =~= zero_chars((k - digits@.len()) as nat),
                    decreases s64 + 1 - k,
                {
                    padded.push('0');
                    proof {
                        assert(padded@ =~= zero_chars((k + 1 - digits@.len()) as nat));
                    }
                    k += 1;
                }
                let mut d: Vec<char> = digits;
                padded.append(&mut d);
                proof {
                    if dd.len() >= *scale as nat + 1 {
                        assert(zero_chars(0) + dd =~= dd);
                        assert(padded@ =~= pad_left(dd, *scale as nat + 1));
                    } else {
                        assert(padded@ =~= pad_left(dd, *scale as nat + 1));
                    }
                }
                // Sign, integer part, point, fraction part.
                let mut v: Vec<char> = Vec::new();
                if *mant < 0 {
                    v.push('-');
                }
                proof {
                    assert(pad_left(dd, *scale as nat + 1).len() >= *scale as nat + 1);
                }
                let s: usize = *scale as usize;
                let cut: usize = padded.len() - s;
                let mut i: usize = 0;
                let ghost before_int = v@;
                while i < cut
                    invariant
                        i <= cut,
                        cut <= padded@.len(),
                        v@ =~= before_int + padded@.take(i as int),
                    decreases cut - i,
                {
                    v.push(padded[i]);
                    i += 1;
                }
                v.push('.');
                let ghost before_frac = v@;
                let mut j: usize = cut;
                while j < padded.len()
                    invariant
                        cut <= j <= padded@.len(),
                        v@ =~= before_frac + padded@.take(j as int).skip(cut as int),
                    decreases padded@.len() - j,
                {
                    v.push(padded[j]);
                    proof {
                        assert(padded@.take(j + 1 as int).skip(cut as int) =~= padded@.take(
                            j as int,
                        ).skip(cut as int).push(padded@[j as int]));
                    }
                    j += 1;
                }
                proof {
                    let pd = pad_left(dd, *scale as nat + 1);
                    assert(padded@.take(padded@.len() as int).skip(cut as int) =~= pd.skip(
                        pd.len() - *scale as nat,
                    ));
                    assert(padded@.take(cut as int) =~= pd.take(pd.len() - *scale as nat));
                    assert(v@ =~= num_chars(n@, json_style));
                }
                v
            }
        },
    }
}

/// The rendering of a number as a `String`, in the plain style used inside
/// range-error messages.
pub fn num_display(n: &Number) -> (s: String)
    ensures
        s@ == num_chars(n@, false),
{
    let v: Vec<char> = num_chars_exec(n, false);
    string_of_chars(&v)
}

} // verus!
// JSON-style rendering of dynamic values, used for the offending-literal text
// inside validation error messages.

use crate::text::chars_of;

verus! {

/// A lowercase hexadecimal digit character.
pub open spec fn hex_char(d: int) -> char {
    if d < 10 {
        digit_char(d)
    } else if d == 10 {
        'a'
    } else if d == 11 {
        'b'
    } else if d == 12 {
        'c'
    } else if d == 13 {
        'd'
    } else if d == 14 {
        'e'
    } else {
        'f'
    }
}

/// The JSON escape of one string character.
pub open spec fn esc_char(c: char) -> Seq<char> {
    if c == '"' {
        seq!['\\', '"']
    } else if c == '\\' {
        seq!['\\', '\\']
    } else if c == '\n' {
        seq!['\\', 'n']
    } else if c == '\r' {
        seq!['\\', 'r']
    } else if c == '\t' {
        seq!['\\', 't']
    } else if (c as int) < 0x20 {
        seq!['\\', 'u', '0', '0', hex_char((c as int) / 16), hex_char((c as int) % 16)]
    } else {
        seq![c]
    }
}

/// The JSON escapes of a string's characters from position `i` on.
pub open spec fn esc_from(s: Seq<char>, i: int) -> Seq<char>
    decreases s.len() - i,
{
    if i < 0 || i >= s.len() {
        Seq::empty()
    } else {
        esc_char(s[i]) + esc_from(s, i + 1)
    }
}

/// The JSON text of a string value, quotes included.
pub open spec fn str_json(s: Seq<char>) -> Seq<char> {
    seq!['"'] + esc_from(s, 0) + seq!['"']
}

/// The JSON text of a dynamic value: `null`, `true`/`false`, a number, a
/// quoted escaped string, or a compact array/object rendering.
pub open spec fn render_json(v: JsonV) -> Seq<char>
    decreases v, 0int,
{
    match v {
        JsonV::Null => "null"@,
        JsonV::Bool(b) => if b {
            "true"@
        } else {
            "false"@
        },
        JsonV::Num(n) => num_chars(n, true),
        JsonV::Str(s) => str_json(s),
        JsonV::Arr(items) => seq!['['] + arr_items_from(items, 0) + seq![']'],
        JsonV::Obj(fields) => seq!['{'] + obj_fields_from(fields, 0) + seq!['}'],
    }
}

/// The comma-separated JSON texts of an array's items from position `i` on.
pub open spec fn arr_items_from(items: Seq<JsonV>, i: int) -> Seq<char>
    decreases items, items.len() - i,
{
    if i < 0 || i >= items.len() {
        Seq::empty()
    } else {
        let sep: Seq<char> = if i > 0 {
            seq![',']
        } else {
            Seq::empty()
        };
        sep + render_json(items[i]) + arr_items_from(items, i + 1)
    }
}

/// The comma-separated `"key":value` JSON texts of an object's fields from
/// position `i` on.
pub open spec fn obj_fields_from(fields: Seq<(Seq<char>, JsonV)>, i: int) -> Seq<char>
    decreases fields, fields.len() - i,
{
    if i < 0 || i >= fields.len() {
        Seq::empty()
    } else {
        let sep: Seq<char> = if i > 0 {
            seq![',']
        } else {
            Seq::empty()
        };
        sep + str_json(fields[i].0) + seq![':'] + render_json(fields[i].1) + obj_fields_from(
            fields,
            i + 1,
        )
    }
}

/// Appends the JSON escape of one character.
fn push_escaped(out: &mut Vec<char>, c: char)
    ensures
        final(out)@ == old(out)@ + esc_char(c),
{
    let ghost start = out@;
    if c == '"' {
        out.push('\\');
        out.push('"');
    } else if c == '\\' {
        out.push('\\');
        out.push('\\');
    } else if c == '\n' {
        out.push('\\');
        out.push('n');
    } else if c == '\r' {
        out.push('\\');
        out.push('r');
    } else if c == '\t' {
        out.push('\\');
        out.push('t');
    } else if (c as u32) < 0x20 {
        let code: u64 = (c as u32) as u64;
        out.push('\\');
        out.push('u');
        out.push('0');
        out.push('0');
        let hi: u64 = code / 16;
        let lo: u64 = code % 16;
        out.push(if hi == 0 { '0' } else { '1' });
        out.push(
            if lo < 10 {
                digit_char_exec(lo)
            } else if lo == 10 {
                'a'
            } else if lo == 11 {
                'b'
            } else if lo == 12 {
                'c'
            } else if lo == 13 {
                'd'
            } else if lo == 14 {
                'e'
            } else {
                'f'
            },
        );
        proof {
            assert(hex_char((c as int) / 16) == (if hi == 0 { '0' } else { '1' }));
        }
    } else {
        out.push(c);
    }
    proof {
        assert(out@ =~= start + esc_char(c));
    }
}

/// Appends the quoted, escaped JSON text of a string.
fn push_str_json(out: &mut Vec<char>, s: &str)
    ensures
        final(out)@ == old(out)@ + str_json(s@),
{
    let ghost start = out@;
    let cs: Vec<char> = chars_of(s);
    out.push('"');
    let mut i: usize = 0;
    while i < cs.len()
        invariant
            i <= cs@.len(),
            cs@ == s@,
            start + seq!['"'] + esc_from(s@, 0) =~= out@ + esc_from(s@, i as int),
        decreases cs@.len() - i,
    {
        let ghost before = out@;
        push_escaped(out, cs[i]);
        proof {
            assert(esc_from(s@, i as int) =~= esc_char(s@[i as int]) + esc_from(s@, i + 1));
            assert(before + (esc_char(s@[i as int]) + esc_from(s@, i + 1)) =~= (before + esc_char(
                s@[i as int],
            )) + esc_from(s@, i + 1));
        }
        i += 1;
    }
    out.push('"');
    proof {
        assert(esc_from(s@, s@.len() as int) =~= Seq::<char>::empty());
        assert(out@ =~= start + str_json(s@));
    }
}

/// The JSON text of a dynamic value, as characters.
pub fn render_chars(v: &JsonValue) -> (out: Vec<char>)
    ensures
        out@ == render_json(v@),
    decreases *v,
{
    let mut out: Vec<char> = Vec::new();
    match v {
        JsonValue::Null => {
            out.push('n');
            out.push('u');
            out.push('l');
            out.push('l');
            proof {
                reveal_strlit("null");
                assert(out@ =~= "null"@);
            }
        },
        JsonValue::Bool(b) => {
            if *b {
                out.push('t');
                out.push('r');
                out.push('u');
                out.push('e');
                proof {
                    reveal_strlit("true");
                    assert(out@ =~= "true"@);
                }
            } else {
                out.push('f');
                out.push('a');
                out.push('l');
                out.push('s');
                out.push('e');
                proof {
                    reveal_strlit("false");
                    assert(out@ =~= "false"@);
                }
            }
        },
        JsonValue::Num(n) => {
            let mut cs: Vec<char> = num_chars_exec(n, true);
            out.append(&mut cs);
            proof {
                assert(out@ =~= render_json(v@));
            }
        },
        JsonValue::Str(s) => {
            push_str_json(&mut out, s.as_str());
            proof {
                assert(out@ =~= render_json(v@));
            }
        },
        JsonValue::Arr(items) => {
            let ghost va = view_of(*v)->Arr_0;
            proof {
                assert(*v is Arr && v->Arr_0 == *items);
                assert(va.len() == items@.len());
            }
            out.push('[');
            let mut i: usize = 0;
            while i < items.len()
                invariant
                    i <= items@.len(),
                    va == view_of(*v)->Arr_0,
                    *v is Arr && v->Arr_0 == *items,
                    va.len() == items@.len(),
                    seq!['['] + arr_items_from(va, 0) =~= out@ + arr_items_from(va, i as int),
                decreases items@.len() - i,
            {
                let ghost before = out@;
                if i > 0 {
                    out.push(',');
                }
                let mut piece: Vec<char> = render_chars(&items[i]);
                proof {
                    assert(piece@ == render_json(va[i as int]));
                }
                out.append(&mut piece);
                proof {
                    let sep: Seq<char> = if i > 0 {
                        seq![',']
                    } else {
                        Seq::empty()
                    };
                    assert(out@ =~= before + (sep + render_json(va[i as int])));
                    assert(arr_items_from(va, i as int) =~= (sep + render_json(va[i as int]))
                        + arr_items_from(va, i + 1));
                    assert(before + ((sep + render_json(va[i as int])) + arr_items_from(
                        va,
                        i + 1,
                    )) =~= (before + (sep + render_json(va[i as int]))) + arr_items_from(
                        va,
                        i + 1,
                    ));
                }
                i += 1;
            }
            out.push(']');
            proof {
                assert(arr_items_from(va, va.len() as int) =~= Seq::<char>::empty());
                assert(out@ =~= seq!['['] + arr_items_from(va, 0) + seq![']']);
                assert(out@ =~= render_json(v@));
            }
        },
        JsonValue::Obj(fields) => {
            let ghost vf = view_of(*v)->Obj_0;
            proof {
                assert(*v is Obj && v->Obj_0 == *fields);
                assert(vf.len() == fields@.len());
            }
            out.push('{');
            let mut i: usize = 0;
            while i < fields.len()
                invariant
                    i <= fields@.len(),
                    vf == view_of(*v)->Obj_0,
                    *v is Obj && v->Obj_0 == *fields,
                    vf.len() == fields@.len(),
                    seq!['{'] + obj_fields_from(vf, 0) =~= out@ + obj_fields_from(vf, i as int),
                decreases fields@.len() - i,
            {
                let ghost before = out@;
                if i > 0 {
                    out.push(',');
                }
                push_str_json(&mut out, fields[i].0.as_str());
                out.push(':');
                let mut piece: Vec<char> = render_chars(&fields[i].1);
                proof {
                    assert(piece@ == render_json(vf[i as int].1));
                    assert(fields@[i as int].0@ == vf[i as int].0);
                }
                out.append(&mut piece);
                proof {
                    let sep: Seq<char> = if i > 0 {
                        seq![',']
                    } else {
                        Seq::empty()
                    };
                    let head = sep + str_json(vf[i as int].0) + seq![':'] + render_json(
                        vf[i as int].1,
                    );
                    assert(out@ =~= before + head);
                    assert(obj_fields_from(vf, i as int) =~= head + obj_fields_from(vf, i + 1));
                    assert(before + (head + obj_fields_from(vf, i + 1)) =~= (before + head)
                        + obj_fields_from(vf, i + 1));
                }
                i += 1;
            }
            out.push('}');
            proof {
                assert(obj_fields_from(vf, vf.len() as int) =~= Seq::<char>::empty());
                assert(out@ =~= seq!['{'] + obj_fields_from(vf, 0) + seq!['}']);
                assert(out@ =~= render_json(v@));
            }
        },
    }
    out
}

/// The JSON text of a dynamic value, as a `String`.
pub fn render_value(v: &JsonValue) -> (s: String)
    ensures
        s@ == render_json(v@),
{
    let cs: Vec<char> = render_chars(v);
    string_of_chars(&cs)
}

} // verus!
