//! Stored queries: metadata, parameter resolution with its precedence chain,
//! the wire-level parameter array, front matter splitting and the step-body
//! delimiter convention for multi-step queries.

use vstd::prelude::*;
use vstd::string::{StringExecFns, StrSliceExecFns};
use crate::num::{Number, NumV, num_eq};
use crate::values::{JsonValue, JsonV, view_of, val_eq, val_clone, views_of_vec};
use crate::params::{
    ParamDef, ParamType, StoredQueryError, parsed_value, parse_param_value_public,
    spec_is_required,
};
use crate::text::{
    trim_spec,
    chars_of, string_of_chars, str_eq, trim_in, occurs_at, find_from, skip_spaces, trim_range,
    find_sub, occurs_at_exec,
};

verus! {

/// Spec view of a vector of string pairs.
pub open spec fn str_entries_view(v: Vec<(String, String)>) -> Seq<(Seq<char>, Seq<char>)> {
    Seq::new(
        v@.len(),
        |i: int|
            if 0 <= i < v@.len() {
                (v@[i].0@, v@[i].1@)
            } else {
                (Seq::<char>::empty(), Seq::<char>::empty())
            },
    )
}

/// The value bound to `key`: the first entry with that name, if any.
pub open spec fn str_lookup(entries: Seq<(Seq<char>, Seq<char>)>, key: Seq<char>) -> Option<
    Seq<char>,
>
    decreases entries.len(),
{
    if entries.len() == 0 {
        None
    } else if entries[0].0 == key {
        Some(entries[0].1)
    } else {
        str_lookup(entries.drop_first(), key)
    }
}

/// An ordered map from names to raw string values, as handed over by the
/// command line.
#[derive(Debug)]
pub struct StringMap {
    pub entries: Vec<(String, String)>,
}

impl StringMap {
    /// The map's lookup function.
    pub open spec fn spec_get(&self, key: Seq<char>) -> Option<Seq<char>> {
        str_lookup(str_entries_view(self.entries), key)
    }

    /// An empty map.
    pub fn new() -> (r: StringMap)
        ensures
            r.entries@.len() == 0,
            forall|k: Seq<char>| r.spec_get(k) is None,
    {
        let r = StringMap { entries: Vec::new() };
        proof {
            assert(forall|k: Seq<char>| r.spec_get(k) is None);
        }
        r
    }

    /// The number of entries.
    pub fn len(&self) -> (n: usize)
        ensures
            n == self.entries@.len(),
    {
        self.entries.len()
    }

    /// Whether the map holds no entry.
    pub fn is_empty(&self) -> (r: bool)
        ensures
            r == (self.entries@.len() == 0),
    {
        self.entries.len() == 0
    }

    /// The value bound to `key`, if any.
    pub fn get(&self, key: &str) -> (r: Option<&String>)
        ensures
            match r {
                Some(v) => self.spec_get(key@) == Some(v@),
                None => self.spec_get(key@) is None,
            },
    {
        let ghost es = str_entries_view(self.entries);
        let mut i: usize = 0;
        proof {
            assert(es.skip(0) =~= es);
        }
        while i < self.entries.len()
            invariant
                i <= self.entries@.len(),
                es == str_entries_view(self.entries),
                es.len() == self.entries@.len(),
                str_lookup(es, key@) == str_lookup(es.skip(i as int), key@),
            decreases self.entries@.len() - i,
        {
            let hit: bool = str_eq(self.entries[i].0.as_str(), key);
            proof {
                assert(es.skip(i as int)[0] == es[i as int]);
                assert(es.skip(i as int).drop_first() =~= es.skip(i + 1 as int));
            }
            if hit {
                return Some(&self.entries[i].1);
            }
            i += 1;
        }
        proof {
            assert(es.skip(es.len() as int).len() == 0);
        }
        None
    }

    /// Binds `key` to `value`, replacing an existing binding.
    pub fn insert(&mut self, key: String, value: String)
        ensures
            forall|k: Seq<char>|
                final(self).spec_get(k) == (if k == key@ {
                    Some(value@)
                } else {
                    old(self).spec_get(k)
                }),
    {
        let ghost es0 = str_entries_view(old(self).entries);
        let mut i: usize = 0;
        while i < self.entries.len()
            invariant
                i <= self.entries@.len(),
                self == old(self),
                es0 == str_entries_view(self.entries),
                es0.len() == self.entries@.len(),
                forall|j: int| 0 <= j < i ==> str_entries_view(self.entries)[j].0 != key@,
            decreases self.entries@.len() - i,
        {
            let hit: bool = str_eq(self.entries[i].0.as_str(), key.as_str());
            if hit {
                proof {
                    assert(str_entries_view(self.entries)[i as int].0 == key@);
                }
                self.entries[i] = (key, value);
                proof {
                    lemma_str_lookup_update(es0, str_entries_view(self.entries), i as int, key@,
                        value@);
                }
                return ;
            }
            i += 1;
        }
        self.entries.push((key, value));
        proof {
            lemma_str_lookup_append(es0, str_entries_view(self.entries), key@, value@);
        }
    }
}

/// Replacing the first entry whose key is `key` rewrites that key's binding
/// and no other.
proof fn lemma_str_lookup_update(
    es0: Seq<(Seq<char>, Seq<char>)>,
    es1: Seq<(Seq<char>, Seq<char>)>,
    i: int,
    key: Seq<char>,
    value: Seq<char>,
)
    requires
        0 <= i < es0.len(),
        es1.len() == es0.len(),
        forall|j: int| 0 <= j < es0.len() && j != i ==> es1[j] == es0[j],
        es1[i] == (key, value),
        es0[i].0 == key,
        forall|j: int| 0 <= j < i ==> es0[j].0 != key,
    ensures
        forall|k: Seq<char>|
            str_lookup(es1, k) == (if k == key {
                Some(value)
            } else {
                str_lookup(es0, k)
            }),
    decreases es0.len(),
{
    assert forall|k: Seq<char>|
        str_lookup(es1, k) == (if k == key {
            Some(value)
        } else {
            str_lookup(es0, k)
        }) by {
        lemma_str_lookup_update_one(es0, es1, i, key, value, k);
    }
}

proof fn lemma_str_lookup_update_one(
    es0: Seq<(Seq<char>, Seq<char>)>,
    es1: Seq<(Seq<char>, Seq<char>)>,
    i: int,
    key: Seq<char>,
    value: Seq<char>,
    k: Seq<char>,
)
    requires
        0 <= i < es0.len(),
        es1.len() == es0.len(),
        forall|j: int| 0 <= j < es0.len() && j != i ==> es1[j] == es0[j],
        es1[i] == (key, value),
        es0[i].0 == key,
        forall|j: int| 0 <= j < i ==> es0[j].0 != key,
    ensures
        str_lookup(es1, k) == (if k == key {
            Some(value)
        } else {
            str_lookup(es0, k)
        }),
    decreases es0.len(),
{
    if i == 0 {
        if k != key && es0.len() > 1 {
            assert(es1.drop_first() =~= es0.drop_first());
        } else if k != key {
            assert(es1.drop_first() =~= es0.drop_first());
        }
    } else {
        assert(es0[0] == es1[0]);
        lemma_str_lookup_update_one(
            es0.drop_first(),
            es1.drop_first(),
            i - 1,
            key,
            value,
            k,
        );
    }
}

/// Appending an entry with a fresh key binds that key and no other.
proof fn lemma_str_lookup_append(
    es0: Seq<(Seq<char>, Seq<char>)>,
    es1: Seq<(Seq<char>, Seq<char>)>,
    key: Seq<char>,
    value: Seq<char>,
)
    requires
        es1.len() == es0.len() + 1,
        forall|j: int| 0 <= j < es0.len() ==> es1[j] == es0[j],
        es1[es0.len() as int] == (key, value),
        forall|j: int| 0 <= j < es0.len() ==> es0[j].0 != key,
    ensures
        forall|k: Seq<char>|
            str_lookup(es1, k) == (if k == key {
                Some(value)
            } else {
                str_lookup(es0, k)
            }),
    decreases es0.len(),
{
    if es0.len() == 0 {
        assert forall|k: Seq<char>|
            str_lookup(es1, k) == (if k == key {
                Some(value)
            } else {
                str_lookup(es0, k)
            }) by {
            assert(es1[0] == (key, value));
            if k != key {
                assert(str_lookup(es1.drop_first(), k) is None);
            }
        }
    } else {
        let t0 = es0.drop_first();
        let t1 = es1.drop_first();
        assert(t1.len() == t0.len() + 1);
        assert(t1[t0.len() as int] == es1[es0.len() as int]);
        assert forall|j: int| 0 <= j < t0.len() implies t1[j] == t0[j] by {
            assert(t1[j] == es1[j + 1]);
            assert(t0[j] == es0[j + 1]);
        }
        assert forall|j: int| 0 <= j < t0.len() implies t0[j].0 != key by {
            assert(t0[j] == es0[j + 1]);
        }
        lemma_str_lookup_append(t0, t1, key, value);
        assert forall|k: Seq<char>|
            str_lookup(es1, k) == (if k == key {
                Some(value)
            } else {
                str_lookup(es0, k)
            }) by {
            assert(es1[0] == es0[0]);
            assert(es0[0].0 != key);
            if es1[0].0 != k {
                assert(str_lookup(es1, k) == str_lookup(t1, k));
                assert(str_lookup(es0, k) == str_lookup(t0, k));
            }
        }
    }
}

} // verus!
// The resolved parameter set: an ordered map from parameter names to typed
// values, built once per invocation.

verus! {

use crate::values::{FieldViewExt, field_lookup, get_field};

/// A mapping from parameter names to resolved typed values, in resolution
/// order. Every entry has passed `validate` for its definition before being
/// added.
#[derive(Debug)]
pub struct ResolvedParams {
    pub entries: Vec<(String, JsonValue)>,
}

impl ResolvedParams {
    /// The map's lookup function.
    pub open spec fn spec_get(&self, key: Seq<char>) -> Option<JsonV> {
        field_lookup(self.entries.deep_field_view(), key)
    }

    /// An empty set.
    pub fn new() -> (r: ResolvedParams)
        ensures
            r.entries@.len() == 0,
            forall|k: Seq<char>| r.spec_get(k) is None,
    {
        let r = ResolvedParams { entries: Vec::new() };
        proof {
            assert(forall|k: Seq<char>| r.spec_get(k) is None);
        }
        r
    }

    /// The number of resolved parameters.
    pub fn len(&self) -> (n: usize)
        ensures
            n == self.entries@.len(),
    {
        self.entries.len()
    }

    /// Whether no parameter was resolved.
    pub fn is_empty(&self) -> (r: bool)
        ensures
            r == (self.entries@.len() == 0),
    {
        self.entries.len() == 0
    }

    /// The value resolved for `key`, if any.
    pub fn get(&self, key: &str) -> (r: Option<&JsonValue>)
        ensures
            match r {
                Some(v) => self.spec_get(key@) == Some(v@),
                None => self.spec_get(key@) is None,
            },
    {
        get_field(&self.entries, key)
    }

    /// Binds `key` to `value`, replacing an existing binding.
    pub fn insert(&mut self, key: String, value: JsonValue)
        ensures
            final(self).spec_get(key@) == Some(value@),
            forall|k: Seq<char>|
                k != key@ ==> final(self).spec_get(k) == old(self).spec_get(k),
            final(self).entries@.len() <= old(self).entries@.len() + 1,
            forall|k2: int|
                0 <= k2 < final(self).entries@.len()
                    ==> ((#[trigger] final(self).entries@[k2].0)@ == key@ || (exists|k1: int|
                    0 <= k1 < old(self).entries@.len()
                        && old(self).entries@[k1].0@ == final(self).entries@[k2].0@)),
    {
        let ghost es0 = old(self).entries.deep_field_view();
        let mut i: usize = 0;
        while i < self.entries.len()
            invariant
                i <= self.entries@.len(),
                self == old(self),
                es0 == self.entries.deep_field_view(),
                es0.len() == self.entries@.len(),
                forall|j: int| 0 <= j < i ==> self.entries.deep_field_view()[j].0 != key@,
            decreases self.entries@.len() - i,
        {
            let hit: bool = str_eq(self.entries[i].0.as_str(), key.as_str());
            if hit {
                proof {
                    assert(self.entries.deep_field_view()[i as int].0 == key@);
                }
                self.entries[i] = (key, value);
                proof {
                    lemma_field_lookup_update(es0, self.entries.deep_field_view(), i as int,
                        key@, value@);
                    assert forall|k2: int|
                        0 <= k2 < self.entries@.len() implies (#[trigger] self.entries@[k2].0)@
                        == key@ || (exists|k1: int|
                            0 <= k1 < es0.len() && old(self).entries@[k1].0@
                                == self.entries@[k2].0@) by {
                        if k2 != i {
                            assert(old(self).entries@[k2].0@ == self.entries@[k2].0@);
                        }
                    }
                }
                return ;
            }
            i += 1;
        }
        self.entries.push((key, value));
        proof {
            lemma_field_lookup_append(es0, self.entries.deep_field_view(), key@, value@);
            assert forall|k2: int|
                0 <= k2 < self.entries@.len() implies (#[trigger] self.entries@[k2].0)@ == key@
                || (exists|k1: int|
                    0 <= k1 < es0.len() && old(self).entries@[k1].0@ == self.entries@[k2].0@) by {
                if k2 < es0.len() {
                    assert(old(self).entries@[k2].0@ == self.entries@[k2].0@);
                }
            }
        }
    }
}

/// Replacing the first entry whose key is `key` rewrites that key's binding
/// and no other.
proof fn lemma_field_lookup_update(
    es0: Seq<(Seq<char>, JsonV)>,
    es1: Seq<(Seq<char>, JsonV)>,
    i: int,
    key: Seq<char>,
    value: JsonV,
)
    requires
        0 <= i < es0.len(),
        es1.len() == es0.len(),
        forall|j: int| 0 <= j < es0.len() && j != i ==> es1[j] == es0[j],
        es1[i] == (key, value),
        es0[i].0 == key,
        forall|j: int| 0 <= j < i ==> es0[j].0 != key,
    ensures
        forall|k: Seq<char>|
            field_lookup(es1, k) == (if k == key {
                Some(value)
            } else {
                field_lookup(es0, k)
            }),
    decreases es0.len(),
{
    assert forall|k: Seq<char>|
        field_lookup(es1, k) == (if k == key {
            Some(value)
        } else {
            field_lookup(es0, k)
        }) by {
        lemma_field_lookup_update_one(es0, es1, i, key, value, k);
    }
}

proof fn lemma_field_lookup_update_one(
    es0: Seq<(Seq<char>, JsonV)>,
    es1: Seq<(Seq<char>, JsonV)>,
    i: int,
    key: Seq<char>,
    value: JsonV,
    k: Seq<char>,
)
    requires
        0 <= i < es0.len(),
        es1.len() == es0.len(),
        forall|j: int| 0 <= j < es0.len() && j != i ==> es1[j] == es0[j],
        es1[i] == (key, value),
        es0[i].0 == key,
        forall|j: int| 0 <= j < i ==> es0[j].0 != key,
    ensures
        field_lookup(es1, k) == (if k == key {
            Some(value)
        } else {
            field_lookup(es0, k)
        }),
    decreases es0.len(),
{
    if i == 0 {
        if k != key {
            assert(es1.drop_first() =~= es0.drop_first());
        }
    } else {
        assert(es0[0] == es1[0]);
        lemma_field_lookup_update_one(es0.drop_first(), es1.drop_first(), i - 1, key, value, k);
    }
}

/// Appending an entry with a fresh key binds that key and no other.
proof fn lemma_field_lookup_append(
    es0: Seq<(Seq<char>, JsonV)>,
    es1: Seq<(Seq<char>, JsonV)>,
    key: Seq<char>,
    value: JsonV,
)
    requires
        es1.len() == es0.len() + 1,
        forall|j: int| 0 <= j < es0.len() ==> es1[j] == es0[j],
        es1[es0.len() as int] == (key, value),
        forall|j: int| 0 <= j < es0.len() ==> es0[j].0 != key,
    ensures
        forall|k: Seq<char>|
            field_lookup(es1, k) == (if k == key {
                Some(value)
            } else {
                field_lookup(es0, k)
            }),
    decreases es0.len(),
{
    if es0.len() == 0 {
        assert forall|k: Seq<char>|
            field_lookup(es1, k) == (if k == key {
                Some(value)
            } else {
                field_lookup(es0, k)
            }) by {
            assert(es1[0] == (key, value));
            if k != key {
                assert(field_lookup(es1.drop_first(), k) is None);
            }
        }
    } else {
        let t0 = es0.drop_first();
        let t1 = es1.drop_first();
        assert(t1.len() == t0.len() + 1);
        assert(t1[t0.len() as int] == es1[es0.len() as int]);
        assert forall|j: int| 0 <= j < t0.len() implies t1[j] == t0[j] by {
            assert(t1[j] == es1[j + 1]);
            assert(t0[j] == es0[j + 1]);
        }
        assert forall|j: int| 0 <= j < t0.len() implies t0[j].0 != key by {
            assert(t0[j] == es0[j + 1]);
        }
        lemma_field_lookup_append(t0, t1, key, value);
        assert forall|k: Seq<char>|
            field_lookup(es1, k) == (if k == key {
                Some(value)
            } else {
                field_lookup(es0, k)
            }) by {
            assert(es1[0] == es0[0]);
            assert(es0[0].0 != key);
            if es1[0].0 != k {
                assert(field_lookup(es1, k) == field_lookup(t1, k));
                assert(field_lookup(es0, k) == field_lookup(t0, k));
            }
        }
    }
}

} // verus!
// The stored query itself: metadata, front matter splitting, and the
// step-delimiter convention for multi-step bodies.

verus! {

/// One named sub-query of a multi-step stored query, bound to a container.
#[derive(Debug)]
pub struct StepDef {
    /// Step name, unique within the stored query.
    pub name: String,
    /// Target container for this step's query.
    pub container: String,
}

/// Front matter metadata of a stored query.
#[derive(Debug)]
pub struct StoredQueryMetadata {
    /// Brief description of what the query does.
    pub description: String,
    /// Target database, overriding the configured default.
    pub database: Option<String>,
    /// Target container, overriding the configured default.
    pub container: Option<String>,
    /// Parameter definitions.
    pub params: Vec<ParamDef>,
    /// Step declarations of a multi-step query.
    pub steps: Option<Vec<StepDef>>,
    /// Inline output template.
    pub template: Option<String>,
    /// Path to an external template file.
    pub template_file: Option<String>,
    /// Marks the query as generated.
    pub generated_by: Option<String>,
    /// The original prompt a generated query came from.
    pub generated_from: Option<String>,
}

/// A fully parsed stored query: its name, metadata, SQL body, and — for
/// multi-step queries — the per-step SQL bodies keyed by step name.
#[derive(Debug)]
pub struct StoredQuery {
    /// The query's name (the file stem).
    pub name: String,
    /// Metadata from the front matter.
    pub metadata: StoredQueryMetadata,
    /// The SQL body, trimmed.
    pub sql: String,
    /// Per-step SQL bodies, in order of appearance in the body.
    pub step_queries: Vec<(String, String)>,
}

/// Splits a stored-query file into its front matter text and its body. The
/// file must open with `---` (after leading whitespace); the front matter
/// runs to the next line that starts with `---`.
pub fn split_front_matter(contents: &str) -> (r: Result<(String, String), StoredQueryError>)
    ensures
        ({
            let s = contents@;
            let a = skip_spaces(s, 0, s.len() as int);
            let present = occurs_at(s, "---"@, a);
            let c = find_from(s, "\n---"@, a + 3);
            match r {
                Ok((yaml, body)) => {
                    &&& present
                    &&& c + 4 <= s.len()
                    &&& yaml@ == s.subrange(a + 3, c)
                    &&& body@ == s.subrange(c + 4, s.len() as int)
                },
                Err(e) => {
                    &&& e is MissingFrontMatter
                    &&& !(present && c + 4 <= s.len())
                },
            }
        }),
{
    let cs: Vec<char> = chars_of(contents);
    let n: usize = cs.len();
    let mut a: usize = 0;
    while a < n && crate::text::space_char(cs[a])
        invariant
            a <= n,
            n == cs@.len(),
            cs@ == contents@,
            skip_spaces(cs@, 0, n as int) == skip_spaces(cs@, a as int, n as int),
        decreases n - a,
    {
        a += 1;
    }
    let open_pat: Vec<char> = chars_of("---");
    if !occurs_at_exec(&cs, &open_pat, a) {
        return Err(StoredQueryError::MissingFrontMatter);
    }
    proof {
        reveal_strlit("---");
        assert("---"@.len() == 3);
    }
    let close_pat: Vec<char> = chars_of("\n---");
    let c: usize = find_sub(&cs, &close_pat, a + 3);
    proof {
        crate::text::lemma_find_from(cs@, close_pat@, a + 3 as int);
    }
    if n < 4 || c > n - 4 {
        return Err(StoredQueryError::MissingFrontMatter);
    }
    let yaml_chars: Vec<char> = sub_chars(&cs, a + 3, c);
    let body_chars: Vec<char> = sub_chars(&cs, c + 4, n);
    Ok((string_of_chars(&yaml_chars), string_of_chars(&body_chars)))
}

/// The characters of `s` in `[from, upto)`.
pub fn sub_chars(s: &Vec<char>, from: usize, upto: usize) -> (r: Vec<char>)
    requires
        from <= upto <= s@.len(),
    ensures
        r@ == s@.subrange(from as int, upto as int),
{
    let mut out: Vec<char> = Vec::new();
    let mut i: usize = from;
    while i < upto
        invariant
            from <= i <= upto <= s@.len(),
            out@ =~= s@.subrange(from as int, i as int),
        decreases upto - i,
    {
        out.push(s[i]);
        proof {
            assert(s@.subrange(from as int, i + 1 as int) =~= s@.subrange(from as int, i as int)
                .push(s@[i as int]));
        }
        i += 1;
    }
    out
}

/// A step marker: a line that begins with `-- step:`.
pub open spec fn marker_at(s: Seq<char>, i: int) -> bool {
    (i == 0 || (0 < i && s[i - 1] == '\n')) && occurs_at(s, "-- step:"@, i)
}

/// The first marker position at or after `i`, or the text's length.
pub open spec fn next_marker(s: Seq<char>, i: int) -> int
    decreases s.len() - i,
{
    if i < 0 || i >= s.len() {
        s.len() as int
    } else if marker_at(s, i) {
        i
    } else {
        next_marker(s, i + 1)
    }
}

/// The position of the first newline at or after `i`, or the length.
pub open spec fn line_end(s: Seq<char>, i: int) -> int {
    find_from(s, seq!['\n'], i)
}

/// The step entries declared by markers from position `i` on: for each
/// marker, the trimmed rest of its line is the step name, and the text up to
/// the next marker is the step's SQL body, trimmed.
pub open spec fn step_entries_from(s: Seq<char>, i: int) -> Seq<(Seq<char>, Seq<char>)>
    decreases s.len() - i,
{
    let m = next_marker(s, i);
    if m >= s.len() || i > m || i < 0 {
        Seq::empty()
    } else {
        let le = line_end(s, m);
        let name = trim_in(s, m + 8, le);
        let bend = next_marker(s, m + 1);
        let bstart = if le < bend {
            le + 1
        } else {
            bend
        };
        seq![(name, trim_in(s, bstart, bend))] + step_entries_from(s, m + 1)
    }
}

/// All step entries of a body.
pub open spec fn step_entries(s: Seq<char>) -> Seq<(Seq<char>, Seq<char>)> {
    step_entries_from(s, 0)
}

proof fn lemma_next_marker(s: Seq<char>, i: int)
    requires
        0 <= i <= s.len(),
    ensures
        i <= next_marker(s, i) <= s.len(),
        next_marker(s, i) < s.len() ==> marker_at(s, next_marker(s, i)),
    decreases s.len() - i,
{
    if i < s.len() && !marker_at(s, i) {
        lemma_next_marker(s, i + 1);
    }
}

/// Finds the first step marker at or after `i`.
fn next_marker_exec(s: &Vec<char>, pat: &Vec<char>, i: usize) -> (r: usize)
    requires
        i <= s@.len(),
        pat@ == "-- step:"@,
    ensures
        r == next_marker(s@, i as int),
        i <= r <= s@.len(),
{
    let mut j: usize = i;
    while j < s.len()
        invariant
            i <= j <= s@.len(),
            pat@ == "-- step:"@,
            next_marker(s@, i as int) == next_marker(s@, j as int),
        decreases s@.len() - j,
    {
        let at_line_start: bool = j == 0 || s[j - 1] == '\n';
        if at_line_start && occurs_at_exec(s, pat, j) {
            return j;
        }
        j += 1;
    }
    j
}

/// Splits a multi-step body into its step entries, in order of appearance.
pub fn split_step_queries(body: &str) -> (r: Vec<(String, String)>)
    ensures
        str_entries_view(r) == step_entries(body@),
{
    let cs: Vec<char> = chars_of(body);
    let pat: Vec<char> = chars_of("-- step:");
    let nl: Vec<char> = chars_of("\n");
    proof {
        assert(nl@ =~= seq!['\n']) by {
            reveal_strlit("\n");
        }
    }
    let mut out: Vec<(String, String)> = Vec::new();
    let n: usize = cs.len();
    let mut pos: usize = 0;
    let mut m: usize = next_marker_exec(&cs, &pat, 0);
    proof {
        assert(step_entries(cs@) =~= str_entries_view(out) + step_entries_from(cs@, 0));
    }
    while m < n
        invariant
            pos <= m <= n,
            n == cs@.len(),
            cs@ == body@,
            pat@ == "-- step:"@,
            nl@ == seq!['\n'],
            m == next_marker(cs@, pos as int),
            step_entries(cs@) =~= str_entries_view(out) + step_entries_from(cs@, pos as int),
        decreases n - m,
    {
        let ghost before = str_entries_view(out);
        proof {
            lemma_next_marker(cs@, pos as int);
        }
        let le: usize = find_sub(&cs, &nl, m);
        proof {
            crate::text::lemma_find_from(cs@, nl@, m as int);
            assert(m + 8 <= n) by {
                assert(occurs_at(cs@, "-- step:"@, m as int));
                assert("-- step:"@.len() == 8) by {
                    reveal_strlit("-- step:");
                }
            }
        }
        let name_from: usize = if m + 8 <= le {
            m + 8
        } else {
            le
        };
        let name_chars: Vec<char> = trim_range(&cs, name_from, le);
        proof {
            // The spec trims from m + 8 even when the line is shorter; both
            // sides then trim an empty or equal range.
            if m + 8 > le {
                assert(trim_in(cs@, m + 8 as int, le as int) =~= trim_in(cs@, name_from as int,
                    le as int));
            }
        }
        let bend: usize = next_marker_exec(&cs, &pat, m + 1);
        let bstart: usize = if le < bend {
            le + 1
        } else {
            bend
        };
        let body_chars: Vec<char> = trim_range(&cs, bstart, bend);
        out.push((string_of_chars(&name_chars), string_of_chars(&body_chars)));
        proof {
            let sv = cs@;
            let mm = m as int;
            assert(step_entries_from(sv, pos as int) =~= seq![
                (trim_in(sv, mm + 8, line_end(sv, mm)), trim_in(
                    sv,
                    if line_end(sv, mm) < next_marker(sv, mm + 1) {
                        line_end(sv, mm) + 1
                    } else {
                        next_marker(sv, mm + 1)
                    },
                    next_marker(sv, mm + 1),
                )),
            ] + step_entries_from(sv, mm + 1));
            assert(str_entries_view(out) =~= before + seq![
                (name_chars@, body_chars@),
            ]);
            assert(step_entries(sv) =~= str_entries_view(out) + step_entries_from(sv, mm + 1));
        }
        pos = m + 1;
        m = next_marker_exec(&cs, &pat, pos);
    }
    proof {
        assert(step_entries_from(cs@, pos as int).len() == 0) by {
            assert(next_marker(cs@, pos as int) == m);
        }
        assert(step_entries(cs@) =~= str_entries_view(out));
    }
    out
}

} // verus!
// Construction, and the wire-level parameter array.

verus! {

/// A bound parameter in wire form: an object with a `name` field holding
/// `@name` and a `value` field holding the value.
pub open spec fn cosmos_param(name: Seq<char>, v: JsonV) -> JsonV {
    JsonV::Obj(seq![("name"@, JsonV::Str(seq!['@'] + name)), ("value"@, v)])
}

impl StoredQuery {
    /// Builds a stored query from its parts: the body is trimmed and must
    /// not be empty; for a multi-step query the per-step bodies are split
    /// out of it by the step-delimiter convention.
    pub fn new(name: String, metadata: StoredQueryMetadata, body: &str) -> (r: Result<
        StoredQuery,
        StoredQueryError,
    >)
        ensures
            match r {
                Ok(q) => {
                    &&& trim_spec(body@).len() > 0
                    &&& q.name == name
                    &&& q.metadata == metadata
                    &&& q.sql@ == trim_spec(body@)
                    &&& str_entries_view(q.step_queries) == (if metadata.steps is Some {
                        step_entries(trim_spec(body@))
                    } else {
                        Seq::<(Seq<char>, Seq<char>)>::empty()
                    })
                },
                Err(e) => e is EmptyQuery && trim_spec(body@).len() == 0,
            },
    {
        let cs: Vec<char> = chars_of(body);
        let trimmed: Vec<char> = trim_range(&cs, 0, cs.len());
        if trimmed.len() == 0 {
            return Err(StoredQueryError::EmptyQuery);
        }
        let sql: String = string_of_chars(&trimmed);
        let step_queries: Vec<(String, String)> = if metadata.steps.is_some() {
            split_step_queries(sql.as_str())
        } else {
            Vec::new()
        };
        proof {
            if metadata.steps is None {
                assert(str_entries_view(step_queries) =~= Seq::<(Seq<char>, Seq<char>)>::empty());
            }
        }
        Ok(StoredQuery { name, metadata, sql, step_queries })
    }

    /// Whether this stored query declares steps.
    pub fn is_multi_step(&self) -> (r: bool)
        ensures
            r == (self.metadata.steps is Some),
    {
        self.metadata.steps.is_some()
    }

    /// The SQL body of the named step, if any.
    pub fn step_query(&self, name: &str) -> (r: Option<&String>)
        ensures
            match r {
                Some(v) => str_lookup(str_entries_view(self.step_queries), name@) == Some(v@),
                None => str_lookup(str_entries_view(self.step_queries), name@) is None,
            },
    {
        let ghost es = str_entries_view(self.step_queries);
        let mut i: usize = 0;
        proof {
            assert(es.skip(0) =~= es);
        }
        while i < self.step_queries.len()
            invariant
                i <= self.step_queries@.len(),
                es == str_entries_view(self.step_queries),
                es.len() == self.step_queries@.len(),
                str_lookup(es, name@) == str_lookup(es.skip(i as int), name@),
            decreases self.step_queries@.len() - i,
        {
            let hit: bool = str_eq(self.step_queries[i].0.as_str(), name);
            proof {
                assert(es.skip(i as int)[0] == es[i as int]);
                assert(es.skip(i as int).drop_first() =~= es.skip(i + 1 as int));
            }
            if hit {
                return Some(&self.step_queries[i].1);
            }
            i += 1;
        }
        proof {
            assert(es.skip(es.len() as int).len() == 0);
        }
        None
    }

    /// Builds the wire-level parameter array from resolved values: one
    /// `{"name": "@name", "value": value}` object per resolved parameter, in
    /// resolution order.
    pub fn build_cosmos_params(resolved: &ResolvedParams) -> (out: Vec<JsonValue>)
        ensures
            out@.len() == resolved.entries@.len(),
            forall|i: int|
                0 <= i < out@.len() ==> (#[trigger] out@[i]@) == cosmos_param(
                    resolved.entries@[i].0@,
                    resolved.entries@[i].1@,
                ),
    {
        let mut out: Vec<JsonValue> = Vec::new();
        let mut i: usize = 0;
        while i < resolved.entries.len()
            invariant
                i <= resolved.entries@.len(),
                out@.len() == i,
                forall|j: int|
                    0 <= j < i ==> (#[trigger] out@[j]@) == cosmos_param(
                        resolved.entries@[j].0@,
                        resolved.entries@[j].1@,
                    ),
            decreases resolved.entries@.len() - i,
        {
            let mut at_name: String = String::from_str("@");
            at_name.append(resolved.entries[i].0.as_str());
            let v: JsonValue = val_clone(&resolved.entries[i].1);
            let mut fields: Vec<(String, JsonValue)> = Vec::new();
            fields.push((String::from_str("name"), JsonValue::Str(at_name)));
            fields.push((String::from_str("value"), v));
            proof {
                assert(seq!['@'] =~= "@"@) by {
                    reveal_strlit("@");
                }
                assert(view_of(fields@[0].1) == JsonV::Str(seq!['@']
                    + resolved.entries@[i as int].0@));
                assert(view_of(fields@[1].1) == resolved.entries@[i as int].1@);
            }
            let obj = JsonValue::Obj(fields);
            proof {
                assert(view_of(obj)->Obj_0 =~= seq![
                    ("name"@, JsonV::Str(seq!['@'] + resolved.entries@[i as int].0@)),
                    ("value"@, resolved.entries@[i as int].1@),
                ]);
            }
            out.push(obj);
            i += 1;
        }
        out
    }
}

} // verus!
// Parameter resolution: the precedence chain is explicit value, then
// default, then a sole choice; required parameters without a source fail,
// optional ones are skipped. Every resolved value passes validation before
// insertion.

verus! {

use crate::num::{lemma_num_eq_trans, lemma_normal_unique, dec_normal};

use crate::params::resolved_like;

/// Two values standing for the same parsed value are equal.
pub proof fn lemma_resolved_like_unique(a: JsonV, b: JsonV, ideal: JsonV)
    requires
        resolved_like(a, ideal),
        resolved_like(b, ideal),
    ensures
        a == b,
{
    if a is Num && ideal is Num {
        let na = a->Num_0;
        let nb = b->Num_0;
        let ni = ideal->Num_0;
        lemma_num_eq_trans(na, ni, nb);
        lemma_normal_unique(na, nb);
    }
}

/// The parameter name an error speaks of.
pub open spec fn err_param_name(e: StoredQueryError) -> Seq<char> {
    match e {
        StoredQueryError::MissingParam { name } => name@,
        StoredQueryError::InvalidParamType { name, .. } => name@,
        StoredQueryError::BelowMin { name, .. } => name@,
        StoredQueryError::AboveMax { name, .. } => name@,
        StoredQueryError::InvalidChoice { name, .. } => name@,
        StoredQueryError::PatternMismatch { name, .. } => name@,
        _ => Seq::empty(),
    }
}

/// An error raised by a failed constraint check.
pub open spec fn is_validation_err(e: StoredQueryError) -> bool {
    ||| e is InvalidParamType
    ||| e is BelowMin
    ||| e is AboveMax
    ||| e is InvalidChoice
    ||| e is PatternMismatch
}

/// What a successful resolution binds for one parameter: the parsed explicit
/// value, else the default, else a sole choice, else nothing — and whatever
/// is bound has passed validation.
pub open spec fn source_and_ok(
    p: ParamDef,
    pv: Seq<(Seq<char>, Seq<char>)>,
    got: Option<JsonV>,
) -> bool {
    match str_lookup(pv, p.name@) {
        Some(raw) => parsed_value(p.param_type, raw) matches Some(ideal) && (got matches Some(v)
            && resolved_like(v, ideal) && p.validate_ok(v)),
        None => match p.default {
            Some(d) => got == Some(d@) && p.validate_ok(d@),
            None => match p.choices {
                Some(cs) => if cs@.len() == 1 {
                    got == Some(cs@[0]@) && p.validate_ok(cs@[0]@)
                } else {
                    got is None && !spec_is_required(&p)
                },
                None => got is None && !spec_is_required(&p),
            },
        },
    }
}

/// One parameter can be resolved without error.
pub open spec fn param_resolvable(p: ParamDef, pv: Seq<(Seq<char>, Seq<char>)>) -> bool {
    match str_lookup(pv, p.name@) {
        Some(raw) => parsed_value(p.param_type, raw) matches Some(ideal) && (exists|v: JsonV|
            resolved_like(v, ideal) && p.validate_ok(v)),
        None => match p.default {
            Some(d) => p.validate_ok(d@),
            None => match p.choices {
                Some(cs) => if cs@.len() == 1 {
                    p.validate_ok(cs@[0]@)
                } else {
                    !spec_is_required(&p)
                },
                None => !spec_is_required(&p),
            },
        },
    }
}

/// Why resolution fails for one parameter with the given error.
pub open spec fn param_fails_with(
    p: ParamDef,
    pv: Seq<(Seq<char>, Seq<char>)>,
    e: StoredQueryError,
) -> bool {
    err_param_name(e) == p.name@ && match str_lookup(pv, p.name@) {
        Some(raw) => {
            ||| (parsed_value(p.param_type, raw) is None && e is InvalidParamType)
            ||| (parsed_value(p.param_type, raw) matches Some(ideal) && is_validation_err(e)
                && (forall|v: JsonV| resolved_like(v, ideal) ==> !p.validate_ok(v)))
        },
        None => match p.default {
            Some(d) => is_validation_err(e) && !p.validate_ok(d@),
            None => match p.choices {
                Some(cs) => if cs@.len() == 1 {
                    is_validation_err(e) && !p.validate_ok(cs@[0]@)
                } else {
                    spec_is_required(&p) && e is MissingParam
                },
                None => spec_is_required(&p) && e is MissingParam,
            },
        },
    }
}

/// Parameter names are pairwise distinct.
pub open spec fn param_names_unique(ps: Seq<ParamDef>) -> bool {
    forall|i: int, j: int|
        0 <= i < j < ps.len() ==> (#[trigger] ps[i].name)@ != (#[trigger] ps[j].name)@
}

impl StoredQuery {
    /// Resolves every declared parameter, in declaration order, from the
    /// provided raw values, defaults and sole choices; each resolved value
    /// is validated exactly once before insertion. On failure, the error
    /// names the first parameter that cannot be resolved.
    pub fn resolve_params(&self, provided: &StringMap) -> (r: Result<
        ResolvedParams,
        StoredQueryError,
    >)
        requires
            param_names_unique(self.metadata.params@),
        ensures
            ({
                let ps = self.metadata.params@;
                let pv = str_entries_view(provided.entries);
                match r {
                    Ok(rp) => {
                        &&& forall|i: int|
                            0 <= i < ps.len() ==> source_and_ok(
                                #[trigger] ps[i],
                                pv,
                                rp.spec_get(ps[i].name@),
                            )
                        &&& forall|k2: int|
                            0 <= k2 < rp.entries@.len() ==> exists|i: int|
                                0 <= i < ps.len() && ps[i].name@ == (#[trigger] rp.entries@[
                                    k2
                                ].0)@
                    },
                    Err(e) => exists|i: int|
                        {
                            &&& 0 <= i < ps.len()
                            &&& param_fails_with(#[trigger] ps[i], pv, e)
                            &&& forall|j: int| 0 <= j < i ==> param_resolvable(#[trigger] ps[j], pv)
                        },
                }
            }),
    {
        let ghost ps = self.metadata.params@;
        let ghost pv = str_entries_view(provided.entries);
        let mut resolved: ResolvedParams = ResolvedParams::new();
        let mut i: usize = 0;
        while i < self.metadata.params.len()
            invariant
                i <= ps.len(),
                ps == self.metadata.params@,
                pv == str_entries_view(provided.entries),
                param_names_unique(ps),
                forall|j: int|
                    0 <= j < i ==> source_and_ok(#[trigger] ps[j], pv, resolved.spec_get(
                        ps[j].name@,
                    )),
                forall|j: int| 0 <= j < i ==> param_resolvable(#[trigger] ps[j], pv),
                forall|k2: int|
                    0 <= k2 < resolved.entries@.len() ==> exists|j: int|
                        0 <= j < i && ps[j].name@ == (#[trigger] resolved.entries@[k2].0)@,
                forall|j: int|
                    i <= j < ps.len() ==> resolved.spec_get(#[trigger] ps[j].name@) is None,
            decreases ps.len() - i,
        {
            let p: &ParamDef = &self.metadata.params[i];
            let mut value_opt: Option<JsonValue> = None;
            let ghost mut ideal: JsonV = JsonV::Null;
            match provided.get(p.name.as_str()) {
                Some(raw) => {
                    match parse_param_value_public(p.name.as_str(), &p.param_type, raw.as_str()) {
                        Ok(v) => {
                            proof {
                                ideal = parsed_value(p.param_type, raw@)->0;
                            }
                            value_opt = Some(v);
                        },
                        Err(e) => {
                            return Err(e);
                        },
                    }
                },
                None => {
                    if let Some(d) = &p.default {
                        value_opt = Some(val_clone(d));
                    } else if let Some(cs) = &p.choices {
                        if cs.len() == 1 {
                            value_opt = Some(val_clone(&cs[0]));
                        } else if p.is_required() {
                            return Err(StoredQueryError::MissingParam { name: p.name.clone() });
                        }
                    } else if p.is_required() {
                        return Err(StoredQueryError::MissingParam { name: p.name.clone() });
                    }
                },
            }
            if let Some(v) = value_opt {
                match p.validate(&v) {
                    Ok(()) => {},
                    Err(e) => {
                        proof {
                            if str_lookup(pv, ps[i as int].name@) is Some {
                                assert forall|w: JsonV|
                                    resolved_like(w, ideal) implies !ps[i as int].validate_ok(
                                    w,
                                ) by {
                                    lemma_resolved_like_unique(w, v@, ideal);
                                }
                            }
                            assert(param_fails_with(ps[i as int], pv, e));
                        }
                        return Err(e);
                    },
                }
                resolved.insert(p.name.clone(), v);
            }
            proof {
                assert forall|j: int|
                    0 <= j < i + 1 implies source_and_ok(#[trigger] ps[j], pv, resolved.spec_get(
                    ps[j].name@)) by {
                    if j < i {
                        assert(ps[j].name@ != ps[i as int].name@);
                    }
                }
            }
            i += 1;
        }
        Ok(resolved)
    }
}

} // verus!
