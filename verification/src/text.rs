//! Small string utilities: random-access character vectors, string building,
//! and character classification shared by the parsers in this crate.

use vstd::prelude::*;
use vstd::string::StrSliceExecFns;

verus! {

/// Relies on std's `String::push`: appends one character at the end of the
/// string.
#[verifier::external_body]
pub(crate) fn push_char(s: &mut String, c: char)
    ensures
        final(s)@ == old(s)@.push(c),
{
    s.push(c);
}

/// The characters of a string slice as a vector, for random access.
pub fn chars_of(s: &str) -> (v: Vec<char>)
    ensures
        v@ == s@,
{
    let n: usize = s.unicode_len();
    let mut v: Vec<char> = Vec::new();
    let mut i: usize = 0;
    while i < n
        invariant
            i <= n,
            n == s@.len(),
            v@ == s@.take(i as int),
        decreases n - i,
    {
        let c: char = s.get_char(i);
        v.push(c);
        proof {
            assert(s@.take(i + 1 as int) =~= s@.take(i as int).push(s@[i as int]));
        }
        i += 1;
    }
    proof {
        assert(s@.take(n as int) =~= s@);
    }
    v
}

/// Builds a string out of a sequence of characters.
pub fn string_of_chars(v: &Vec<char>) -> (s: String)
    ensures
        s@ == v@,
{
    let mut s: String = String::new();
    let mut i: usize = 0;
    while i < v.len()
        invariant
            i <= v@.len(),
            s@ == v@.take(i as int),
        decreases v@.len() - i,
    {
        push_char(&mut s, v[i]);
        proof {
            assert(v@.take(i + 1 as int) =~= v@.take(i as int).push(v@[i as int]));
        }
        i += 1;
    }
    proof {
        assert(v@.take(v@.len() as int) =~= v@);
    }
    s
}

/// Character-by-character equality of two string slices.
pub fn str_eq(a: &str, b: &str) -> (r: bool)
    ensures
        r == (a@ == b@),
{
    let na: usize = a.unicode_len();
    let nb: usize = b.unicode_len();
    if na != nb {
        return false;
    }
    let mut i: usize = 0;
    while i < na
        invariant
            i <= na,
            na == a@.len(),
            na == b@.len(),
            forall|j: int| 0 <= j < i ==> a@[j] == b@[j],
        decreases na - i,
    {
        if a.get_char(i) != b.get_char(i) {
            return false;
        }
        i += 1;
    }
    proof {
        assert(a@ =~= b@);
    }
    true
}

/// Character-by-character equality of two character vectors.
pub fn chars_eq(a: &Vec<char>, b: &Vec<char>) -> (r: bool)
    ensures
        r == (a@ == b@),
{
    if a.len() != b.len() {
        return false;
    }
    let mut i: usize = 0;
    while i < a.len()
        invariant
            i <= a@.len(),
            a@.len() == b@.len(),
            forall|j: int| 0 <= j < i ==> a@[j] == b@[j],
        decreases a@.len() - i,
    {
        if a[i] != b[i] {
            return false;
        }
        i += 1;
    }
    proof {
        assert(a@ =~= b@);
    }
    true
}

/// An ASCII decimal digit.
pub open spec fn is_digit(c: char) -> bool {
    '0' <= c && c <= '9'
}

/// A character that may appear in a parameter or step identifier:
/// ASCII letters, digits, and the underscore.
pub open spec fn is_ident_char(c: char) -> bool {
    ('a' <= c && c <= 'z') || ('A' <= c && c <= 'Z') || is_digit(c) || c == '_'
}

/// Executable twin of `is_ident_char`.
pub fn ident_char(c: char) -> (r: bool)
    ensures
        r == is_ident_char(c),
{
    ('a' <= c && c <= 'z') || ('A' <= c && c <= 'Z') || ('0' <= c && c <= '9') || c == '_'
}

/// The ASCII whitespace characters trimmed at the edges of query bodies and
/// provider messages.
pub open spec fn is_space(c: char) -> bool {
    c == ' ' || c == '\t' || c == '\n' || c == '\r'
}

/// Executable twin of `is_space`.
pub fn space_char(c: char) -> (r: bool)
    ensures
        r == is_space(c),
{
    c == ' ' || c == '\t' || c == '\n' || c == '\r'
}

} // verus!
// Substring search and trimming over character sequences.

verus! {

/// Whether `pat` occurs in `s` starting at position `i`.
pub open spec fn occurs_at(s: Seq<char>, pat: Seq<char>, i: int) -> bool {
    0 <= i && i + pat.len() <= s.len() && s.subrange(i, i + pat.len()) == pat
}

/// The first position at or after `i` where `pat` occurs in `s`, or the
/// length of `s` when it does not occur.
pub open spec fn find_from(s: Seq<char>, pat: Seq<char>, i: int) -> int
    decreases s.len() - i,
{
    if i < 0 || i > s.len() {
        s.len() as int
    } else if occurs_at(s, pat, i) {
        i
    } else if i >= s.len() {
        s.len() as int
    } else {
        find_from(s, pat, i + 1)
    }
}

/// Positions below the found one hold no occurrence, and the found position
/// (when inside the text) holds one.
pub proof fn lemma_find_from(s: Seq<char>, pat: Seq<char>, i: int)
    requires
        0 <= i <= s.len(),
    ensures
        i <= find_from(s, pat, i) <= s.len(),
        forall|j: int| i <= j < find_from(s, pat, i) ==> !occurs_at(s, pat, j),
        find_from(s, pat, i) + pat.len() <= s.len() ==> (occurs_at(s, pat, find_from(s, pat, i))
            || find_from(s, pat, i) == s.len()),
    decreases s.len() - i,
{
    if !occurs_at(s, pat, i) && i < s.len() {
        lemma_find_from(s, pat, i + 1);
    }
}

/// Whether `pat` occurs at `i`, tested by characters.
pub fn occurs_at_exec(s: &Vec<char>, pat: &Vec<char>, i: usize) -> (r: bool)
    requires
        i <= s@.len(),
    ensures
        r == occurs_at(s@, pat@, i as int),
{
    if pat.len() > s.len() - i {
        return false;
    }
    let mut k: usize = 0;
    while k < pat.len()
        invariant
            k <= pat@.len(),
            i + pat@.len() <= s@.len(),
            s@.len() <= usize::MAX,
            forall|j: int| 0 <= j < k ==> s@[i + j] == pat@[j],
        decreases pat@.len() - k,
    {
        if s[i + k] != pat[k] {
            proof {
                assert(s@.subrange(i as int, i + pat@.len())[k as int] == s@[i + k]);
            }
            return false;
        }
        k += 1;
    }
    proof {
        assert(s@.subrange(i as int, i + pat@.len()) =~= pat@);
    }
    true
}

/// Finds the first occurrence of `pat` at or after `from`, returning the
/// text's length when there is none.
pub fn find_sub(s: &Vec<char>, pat: &Vec<char>, from: usize) -> (r: usize)
    requires
        from <= s@.len(),
    ensures
        r == find_from(s@, pat@, from as int),
{
    let mut i: usize = from;
    while i < s.len()
        invariant
            from <= i <= s@.len(),
            find_from(s@, pat@, from as int) == find_from(s@, pat@, i as int),
        decreases s@.len() - i,
    {
        if occurs_at_exec(s, pat, i) {
            return i;
        }
        i += 1;
    }
    i
}

/// First non-whitespace position in `[i, upto)`, or `upto`.
pub open spec fn skip_spaces(s: Seq<char>, i: int, upto: int) -> int
    decreases upto - i,
{
    if i < 0 || i >= upto || i >= s.len() {
        i
    } else if is_space(s[i]) {
        skip_spaces(s, i + 1, upto)
    } else {
        i
    }
}

/// One past the last non-whitespace position in `[lo, j)`, or `lo`.
pub open spec fn rskip_spaces(s: Seq<char>, lo: int, j: int) -> int
    decreases j,
{
    if j <= lo || j <= 0 || j > s.len() {
        j
    } else if is_space(s[j - 1]) {
        rskip_spaces(s, lo, j - 1)
    } else {
        j
    }
}

/// The characters of `s` in `[from, upto)` with whitespace removed at both
/// ends.
pub open spec fn trim_in(s: Seq<char>, from: int, upto: int) -> Seq<char> {
    let a = skip_spaces(s, from, upto);
    let b = rskip_spaces(s, a, upto);
    if 0 <= a <= b <= s.len() {
        s.subrange(a, b)
    } else {
        Seq::empty()
    }
}

/// A whole character sequence, trimmed.
pub open spec fn trim_spec(s: Seq<char>) -> Seq<char> {
    trim_in(s, 0, s.len() as int)
}

/// The characters of `s` in `[from, upto)`, trimmed of whitespace at both
/// ends.
pub fn trim_range(s: &Vec<char>, from: usize, upto: usize) -> (r: Vec<char>)
    requires
        from <= upto <= s@.len(),
    ensures
        r@ == trim_in(s@, from as int, upto as int),
{
    let mut a: usize = from;
    while a < upto && space_char(s[a])
        invariant
            from <= a <= upto,
            upto <= s@.len(),
            skip_spaces(s@, from as int, upto as int) == skip_spaces(s@, a as int, upto as int),
        decreases upto - a,
    {
        a += 1;
    }
    let mut b: usize = upto;
    while b > a && space_char(s[b - 1])
        invariant
            a <= b <= upto,
            upto <= s@.len(),
            rskip_spaces(s@, a as int, upto as int) == rskip_spaces(s@, a as int, b as int),
        decreases b,
    {
        b -= 1;
    }
    let mut out: Vec<char> = Vec::new();
    let mut i: usize = a;
    while i < b
        invariant
            a <= i <= b <= s@.len(),
            out@ =~= s@.subrange(a as int, i as int),
        decreases b - i,
    {
        out.push(s[i]);
        proof {
            assert(s@.subrange(a as int, i + 1 as int) =~= s@.subrange(a as int, i as int).push(
                s@[i as int],
            ));
        }
        i += 1;
    }
    proof {
        assert(out@ =~= trim_in(s@, from as int, upto as int));
    }
    out
}

} // verus!
