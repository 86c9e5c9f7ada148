//! Static extraction of cross-step references from a step's SQL text: every
//! `@<stepName>.<fieldName>` whose step name is one of the known steps. A
//! parameter reference `@name` that merely shares a prefix with a step name
//! is not a step reference: the identifier after `@` is read maximally and
//! must equal a known step name exactly, followed by a dot and a field
//! identifier.

use vstd::prelude::*;
use vstd::string::StrSliceExecFns;
use crate::text::{is_ident_char, ident_char, chars_of, string_of_chars};

verus! {

/// First position at or after `i` that does not hold an identifier
/// character.
pub open spec fn ident_end(s: Seq<char>, i: int) -> int
    decreases s.len() - i,
{
    if i < 0 || i >= s.len() {
        if i < 0 {
            0
        } else {
            s.len() as int
        }
    } else if is_ident_char(s[i]) {
        ident_end(s, i + 1)
    } else {
        i
    }
}

proof fn lemma_ident_end(s: Seq<char>, i: int)
    requires
        0 <= i <= s.len(),
    ensures
        i <= ident_end(s, i) <= s.len(),
    decreases s.len() - i,
{
    if i < s.len() && is_ident_char(s[i]) {
        lemma_ident_end(s, i + 1);
    }
}

/// Scans identifier characters from `i` on.
fn ident_end_exec(s: &Vec<char>, i: usize) -> (j: usize)
    requires
        i <= s@.len(),
    ensures
        j == ident_end(s@, i as int),
        i <= j <= s@.len(),
{
    let mut j: usize = i;
    while j < s.len() && ident_char(s[j])
        invariant
            i <= j <= s@.len(),
            ident_end(s@, i as int) == ident_end(s@, j as int),
        decreases s@.len() - j,
    {
        j += 1;
    }
    j
}

/// The views of a vector of names.
pub open spec fn name_views(v: Vec<String>) -> Seq<Seq<char>> {
    Seq::new(
        v@.len(),
        |i: int|
            if 0 <= i < v@.len() {
                v@[i]@
            } else {
                Seq::<char>::empty()
            },
    )
}

/// Whether `name` is among the known names.
pub open spec fn contains_name(nv: Seq<Seq<char>>, name: Seq<char>) -> bool {
    exists|k: int| 0 <= k < nv.len() && nv[k] == name
}

/// A step reference sits at `i`: an `@`, a maximal identifier equal to a
/// known step name, a dot, and a nonempty field identifier.
pub open spec fn is_ref_at(s: Seq<char>, nv: Seq<Seq<char>>, i: int) -> bool {
    &&& 0 <= i < s.len()
    &&& s[i] == '@'
    &&& ({
        let ne = ident_end(s, i + 1);
        &&& contains_name(nv, s.subrange(i + 1, ne))
        &&& ne < s.len()
        &&& s[ne] == '.'
        &&& ident_end(s, ne + 1) > ne + 1
    })
}

/// The (step name, field name) pair of a reference at `i`.
pub open spec fn ref_pair(s: Seq<char>, i: int) -> (Seq<char>, Seq<char>) {
    let ne = ident_end(s, i + 1);
    (s.subrange(i + 1, ne), s.subrange(ne + 1, ident_end(s, ne + 1)))
}

/// The pair stems from some reference in the text.
pub open spec fn from_some_ref(s: Seq<char>, nv: Seq<Seq<char>>, p: (Seq<char>, Seq<char>)) -> bool {
    exists|i: int| is_ref_at(s, nv, i) && ref_pair(s, i) == p
}

/// Whether an equal pair is already among the collected ones.
pub open spec fn pair_in(pairs: Seq<(Seq<char>, Seq<char>)>, p: (Seq<char>, Seq<char>)) -> bool {
    exists|k: int| 0 <= k < pairs.len() && pairs[k] == p
}

/// Spec view of collected reference pairs.
pub open spec fn pairs_view(v: Vec<(String, String)>) -> Seq<(Seq<char>, Seq<char>)> {
    Seq::new(
        v@.len(),
        |i: int|
            if 0 <= i < v@.len() {
                (v@[i].0@, v@[i].1@)
            } else {
                (Seq::<char>::empty(), Seq::<char>::empty())
            },
    )
}

/// Whether the characters of `s` in `[from, to)` equal the string `t`.
fn seg_eq_str(s: &Vec<char>, from: usize, to: usize, t: &str) -> (r: bool)
    requires
        from <= to <= s@.len(),
    ensures
        r == (s@.subrange(from as int, to as int) == t@),
{
    let n: usize = t.unicode_len();
    if to - from != n {
        proof {
            assert(s@.subrange(from as int, to as int).len() == to - from);
        }
        return false;
    }
    let mut k: usize = 0;
    while k < n
        invariant
            k <= n,
            from + n == to,
            to <= s@.len(),
            n == t@.len(),
            forall|j: int| 0 <= j < k ==> s@[from + j] == t@[j],
        decreases n - k,
    {
        if s[from + k] != t.get_char(k) {
            proof {
                assert(s@.subrange(from as int, to as int)[k as int] == s@[from + k]);
            }
            return false;
        }
        k += 1;
    }
    proof {
        assert(s@.subrange(from as int, to as int) =~= t@);
    }
    true
}

/// Finds every distinct `@step.field` reference in a SQL text whose step
/// name is one of the known names, in order of first occurrence.
pub fn find_step_references(sql: &str, step_names: &Vec<String>) -> (out: Vec<(String, String)>)
    ensures
        ({
            let s = sql@;
            let nv = name_views(*step_names);
            let pv = pairs_view(out);
            &&& forall|i: int|
                is_ref_at(s, nv, i) ==> pair_in(pv, #[trigger] ref_pair(s, i))
            &&& forall|k: int| 0 <= k < pv.len() ==> from_some_ref(s, nv, #[trigger] pv[k])
            &&& forall|k1: int, k2: int| 0 <= k1 < k2 < pv.len() ==> pv[k1] != pv[k2]
        }),
{
    let cs: Vec<char> = chars_of(sql);
    let ghost s = sql@;
    let ghost nv = name_views(*step_names);
    let mut out: Vec<(String, String)> = Vec::new();
    let n: usize = cs.len();
    let mut pos: usize = 0;
    while pos < n
        invariant
            pos <= n,
            n == cs@.len(),
            cs@ == s,
            nv == name_views(*step_names),
            forall|i: int|
                0 <= i < pos && is_ref_at(s, nv, i) ==> pair_in(pairs_view(out), #[trigger]
                ref_pair(s, i)),
            forall|k: int|
                0 <= k < pairs_view(out).len() ==> from_some_ref(s, nv, #[trigger] pairs_view(
                    out,
                )[k]),
            forall|k1: int, k2: int|
                0 <= k1 < k2 < pairs_view(out).len() ==> pairs_view(out)[k1] != pairs_view(
                    out,
                )[k2],
        decreases n - pos,
    {
        if cs[pos] == '@' {
            let ne: usize = ident_end_exec(&cs, pos + 1);
            // Is the identifier a known step name?
            let mut known: bool = false;
            let mut k: usize = 0;
            while k < step_names.len()
                invariant
                    k <= step_names@.len(),
                    nv == name_views(*step_names),
                    pos + 1 <= ne <= n,
                    n == cs@.len(),
                    cs@ == s,
                    known ==> contains_name(nv, s.subrange(pos + 1 as int, ne as int)),
                    !known ==> forall|k1: int|
                        0 <= k1 < k ==> nv[k1] != s.subrange(pos + 1 as int, ne as int),
                decreases step_names@.len() - k,
            {
                if !known {
                    if seg_eq_str(&cs, pos + 1, ne, step_names[k].as_str()) {
                        known = true;
                        proof {
                            assert(nv[k as int] == s.subrange(pos + 1 as int, ne as int));
                        }
                    }
                }
                k += 1;
            }
            if known && ne < n && cs[ne] == '.' {
                let fe: usize = ident_end_exec(&cs, ne + 1);
                if fe > ne + 1 {
                    // A complete reference; collect it if it is new.
                    let name_chars: Vec<char> = crate::stored_query::sub_chars(&cs, pos + 1, ne);
                    let field_chars: Vec<char> = crate::stored_query::sub_chars(&cs, ne + 1, fe);
                    proof {
                        assert(is_ref_at(s, nv, pos as int));
                        assert(ref_pair(s, pos as int) == (name_chars@, field_chars@));
                    }
                    let mut dup: bool = false;
                    let mut k2: usize = 0;
                    while k2 < out.len()
                        invariant
                            k2 <= out@.len(),
                            name_chars@ == ref_pair(s, pos as int).0,
                            field_chars@ == ref_pair(s, pos as int).1,
                            dup ==> pair_in(pairs_view(out), ref_pair(s, pos as int)),
                            !dup ==> forall|k3: int|
                                0 <= k3 < k2 ==> pairs_view(out)[k3] != ref_pair(s, pos as int),
                        decreases out@.len() - k2,
                    {
                        if !dup {
                            let same_name: bool = crate::text::chars_eq(
                                &chars_of(out[k2].0.as_str()),
                                &name_chars,
                            );
                            let same_field: bool = crate::text::chars_eq(
                                &chars_of(out[k2].1.as_str()),
                                &field_chars,
                            );
                            if same_name && same_field {
                                dup = true;
                                proof {
                                    assert(pairs_view(out)[k2 as int] == ref_pair(s, pos as int));
                                }
                            }
                        }
                        k2 += 1;
                    }
                    if !dup {
                        let ghost before = pairs_view(out);
                        out.push((string_of_chars(&name_chars), string_of_chars(&field_chars)));
                        proof {
                            assert(pairs_view(out) =~= before.push(ref_pair(s, pos as int)));
                            assert forall|i: int|
                                0 <= i < pos + 1 && is_ref_at(s, nv, i) implies pair_in(
                                pairs_view(out), #[trigger] ref_pair(s, i)) by {
                                if i < pos {
                                    let p = ref_pair(s, i);
                                    assert(pair_in(before, p));
                                    let kk = choose|kk: int|
                                        0 <= kk < before.len() && before[kk] == p;
                                    assert(pairs_view(out)[kk] == p);
                                } else {
                                    assert(pairs_view(out)[before.len() as int] == ref_pair(
                                        s,
                                        pos as int,
                                    ));
                                }
                            }
                            assert forall|k4: int|
                                0 <= k4 < pairs_view(out).len() implies from_some_ref(s, nv,
                                #[trigger] pairs_view(out)[k4]) by {
                                if k4 < before.len() {
                                    assert(pairs_view(out)[k4] == before[k4]);
                                    assert(from_some_ref(s, nv, before[k4]));
                                } else {
                                    assert(pairs_view(out)[k4] == ref_pair(s, pos as int));
                                    assert(is_ref_at(s, nv, pos as int));
                                }
                            }
                            assert forall|k5: int, k6: int|
                                0 <= k5 < k6 < pairs_view(out).len() implies pairs_view(out)[k5]
                                != pairs_view(out)[k6] by {
                                assert(pairs_view(out)[k5] == before[k5]);
                                if k6 < before.len() {
                                    assert(pairs_view(out)[k6] == before[k6]);
                                } else {
                                    assert(pairs_view(out)[k6] == ref_pair(s, pos as int));
                                }
                            }
                        }
                    } else {
                        proof {
                            assert forall|i: int|
                                0 <= i < pos + 1 && is_ref_at(s, nv, i) implies pair_in(
                                pairs_view(out), #[trigger] ref_pair(s, i)) by {}
                        }
                    }
                }
            }
        }
        pos += 1;
    }
    proof {
        assert forall|i: int| is_ref_at(s, nv, i) implies pair_in(pairs_view(out), #[trigger]
        ref_pair(s, i)) by {
            assert(0 <= i < s.len());
        }
    }
    out
}

} // verus!
