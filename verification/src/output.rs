//! Output helpers that are pure text transformations; everything that
//! writes to a stream lives in the surrounding program.

use vstd::prelude::*;
use crate::text::{chars_of, string_of_chars};

verus! {

/// A character that forces CSV quoting.
pub open spec fn csv_special(c: char) -> bool {
    c == ',' || c == '"' || c == '\n'
}

/// The CSV escape of one character inside a quoted field: a double quote is
/// doubled.
pub open spec fn csv_esc_char(c: char) -> Seq<char> {
    if c == '"' {
        seq!['"', '"']
    } else {
        seq![c]
    }
}

/// The CSV escapes of a field's characters from position `i` on.
pub open spec fn csv_esc_from(s: Seq<char>, i: int) -> Seq<char>
    decreases s.len() - i,
{
    if i < 0 || i >= s.len() {
        Seq::empty()
    } else {
        csv_esc_char(s[i]) + csv_esc_from(s, i + 1)
    }
}

/// The CSV rendering of a field: unchanged when it holds no comma, quote or
/// newline; otherwise quoted with inner quotes doubled.
pub open spec fn csv_escape_spec(s: Seq<char>) -> Seq<char> {
    if exists|i: int| 0 <= i < s.len() && csv_special(s[i]) {
        seq!['"'] + csv_esc_from(s, 0) + seq!['"']
    } else {
        s
    }
}

/// Escapes a value for CSV output.
pub fn csv_escape(value: &str) -> (r: String)
    ensures
        r@ == csv_escape_spec(value@),
{
    let cs: Vec<char> = chars_of(value);
    let mut needs: bool = false;
    let mut i: usize = 0;
    while i < cs.len()
        invariant
            i <= cs@.len(),
            cs@ == value@,
            needs ==> (exists|j: int| 0 <= j < value@.len() && csv_special(value@[j])),
            !needs ==> forall|j: int| 0 <= j < i ==> !csv_special(value@[j]),
        decreases cs@.len() - i,
    {
        let c: char = cs[i];
        if c == ',' || c == '"' || c == '\n' {
            needs = true;
        }
        i += 1;
    }
    if !needs {
        return value.to_owned();
    }
    let mut out: Vec<char> = Vec::new();
    out.push('"');
    let mut j: usize = 0;
    while j < cs.len()
        invariant
            j <= cs@.len(),
            cs@ == value@,
            seq!['"'] + csv_esc_from(value@, 0) =~= out@ + csv_esc_from(value@, j as int),
        decreases cs@.len() - j,
    {
        let ghost before = out@;
        let c: char = cs[j];
        if c == '"' {
            out.push('"');
            out.push('"');
        } else {
            out.push(c);
        }
        proof {
            assert(out@ =~= before + csv_esc_char(value@[j as int]));
            assert(csv_esc_from(value@, j as int) =~= csv_esc_char(value@[j as int])
                + csv_esc_from(value@, j + 1));
            assert(before + (csv_esc_char(value@[j as int]) + csv_esc_from(value@, j + 1)) =~= (
            before + csv_esc_char(value@[j as int])) + csv_esc_from(value@, j + 1));
        }
        j += 1;
    }
    out.push('"');
    proof {
        assert(csv_esc_from(value@, value@.len() as int) =~= Seq::<char>::empty());
        assert(out@ =~= csv_escape_spec(value@));
    }
    string_of_chars(&out)
}

} // verus!
