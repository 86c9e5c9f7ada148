//! Multi-step pipeline scheduling: the dependency graph over steps, the
//! cycle-checked execution layers, per-step bind-parameter construction with
//! cross-step references resolved from earlier results, and the bookkeeping
//! that merges finished layers into the shared step-result store.

use vstd::prelude::*;
use vstd::string::{StringExecFns, StrSliceExecFns};
use crate::values::{JsonValue, JsonV, views_of_vec, field_lookup, FieldViewExt, val_clone};
use crate::stored_query::{
    StoredQuery, ResolvedParams, StepDef, str_lookup, str_entries_view, cosmos_param,
};
use crate::refs::{
    find_step_references, is_ref_at, ref_pair, pairs_view, pair_in, from_some_ref, name_views,
    contains_name,
};
use crate::graph::{execution_layers, PlanError, groups_view, in_layers, names_unique};
use crate::executor::{QueryResult, ClientError, sat_add64};
use crate::text::{str_eq, chars_of, string_of_chars};
use crate::params::StoredQueryError;

verus! {

/// A failure while planning or executing a multi-step pipeline.
#[derive(Debug)]
pub enum PipelineError {
    /// The stored query declares no steps.
    NotMultiStep,
    /// The dependency graph has a cycle; nothing was executed.
    Plan(PlanError),
    /// A referenced step has no results yet — a planning invariant
    /// violation, not a user error.
    StepNotExecuted { step: String },
    /// A referenced step produced no rows, so its fields cannot be read.
    StepHasNoRows { step: String, field: String },
    /// The referenced field is absent from the step's first document; lists
    /// the fields that are available.
    FieldNotFound { step: String, field: String, available: String },
    /// A step's query failed.
    StepFailed { step: String, source: ClientError },
}

/// Spec view of the step-result store: names paired with document views.
pub open spec fn results_view(v: Vec<(String, Vec<JsonValue>)>) -> Seq<(Seq<char>, Seq<JsonV>)> {
    Seq::new(
        v@.len(),
        |i: int|
            if 0 <= i < v@.len() {
                (v@[i].0@, views_of_vec(v@[i].1))
            } else {
                (Seq::<char>::empty(), Seq::<JsonV>::empty())
            },
    )
}

/// The documents recorded for a step name, if any.
pub open spec fn results_lookup(entries: Seq<(Seq<char>, Seq<JsonV>)>, key: Seq<char>) -> Option<
    Seq<JsonV>,
>
    decreases entries.len(),
{
    if entries.len() == 0 {
        None
    } else if entries[0].0 == key {
        Some(entries[0].1)
    } else {
        results_lookup(entries.drop_first(), key)
    }
}

/// The per-step results of a pipeline, keyed by step name, merged in by the
/// scheduler between layers.
#[derive(Debug)]
pub struct StepResults {
    pub entries: Vec<(String, Vec<JsonValue>)>,
}

impl StepResults {
    /// The store's lookup function.
    pub open spec fn spec_get(&self, key: Seq<char>) -> Option<Seq<JsonV>> {
        results_lookup(results_view(self.entries), key)
    }

    /// An empty store.
    pub fn new() -> (r: StepResults)
        ensures
            r.entries@.len() == 0,
            forall|k: Seq<char>| r.spec_get(k) is None,
    {
        let r = StepResults { entries: Vec::new() };
        proof {
            assert(forall|k: Seq<char>| r.spec_get(k) is None);
        }
        r
    }

    /// The documents of a step, if it has finished.
    pub fn get(&self, key: &str) -> (r: Option<&Vec<JsonValue>>)
        ensures
            match r {
                Some(v) => self.spec_get(key@) == Some(views_of_vec(*v)),
                None => self.spec_get(key@) is None,
            },
    {
        let ghost es = results_view(self.entries);
        let mut i: usize = 0;
        proof {
            assert(es.skip(0) =~= es);
        }
        while i < self.entries.len()
            invariant
                i <= self.entries@.len(),
                es == results_view(self.entries),
                es.len() == self.entries@.len(),
                results_lookup(es, key@) == results_lookup(es.skip(i as int), key@),
            decreases self.entries@.len() - i,
        {
            let hit: bool = str_eq(self.entries[i].0.as_str(), key);
            proof {
                assert(es.skip(i as int)[0] == es[i as int]);
                assert(es.skip(i as int).drop_first() =~= es.skip(i + 1 as int));
            }
            if hit {
                return Some(&self.entries[i].1);
            }
            i += 1;
        }
        proof {
            assert(es.skip(es.len() as int).len() == 0);
        }
        None
    }

    /// Records a finished step's documents. Each step finishes once, so the
    /// name must be fresh.
    pub fn insert(&mut self, key: String, docs: Vec<JsonValue>)
        requires
            old(self).spec_get(key@) is None,
        ensures
            forall|k: Seq<char>|
                final(self).spec_get(k) == (if k == key@ {
                    Some(views_of_vec(docs))
                } else {
                    old(self).spec_get(k)
                }),
    {
        let ghost es0 = results_view(self.entries);
        proof {
            lemma_results_lookup_none(es0, key@);
        }
        let ghost dv = views_of_vec(docs);
        self.entries.push((key, docs));
        proof {
            lemma_results_lookup_append(es0, results_view(self.entries), key@, dv);
        }
    }
}

/// An absent key misses every entry.
proof fn lemma_results_lookup_none(es: Seq<(Seq<char>, Seq<JsonV>)>, key: Seq<char>)
    requires
        results_lookup(es, key) is None,
    ensures
        forall|j: int| 0 <= j < es.len() ==> (#[trigger] es[j]).0 != key,
    decreases es.len(),
{
    if es.len() > 0 {
        lemma_results_lookup_none(es.drop_first(), key);
        assert forall|j: int| 0 <= j < es.len() implies (#[trigger] es[j]).0 != key by {
            if j > 0 {
                assert(es.drop_first()[j - 1] == es[j]);
            }
        }
    }
}

/// Appending an entry with a fresh key binds that key and no other.
proof fn lemma_results_lookup_append(
    es0: Seq<(Seq<char>, Seq<JsonV>)>,
    es1: Seq<(Seq<char>, Seq<JsonV>)>,
    key: Seq<char>,
    value: Seq<JsonV>,
)
    requires
        es1.len() == es0.len() + 1,
        forall|j: int| 0 <= j < es0.len() ==> es1[j] == es0[j],
        es1[es0.len() as int] == (key, value),
        forall|j: int| 0 <= j < es0.len() ==> (#[trigger] es0[j]).0 != key,
    ensures
        forall|k: Seq<char>|
            results_lookup(es1, k) == (if k == key {
                Some(value)
            } else {
                results_lookup(es0, k)
            }),
    decreases es0.len(),
{
    if es0.len() == 0 {
        assert forall|k: Seq<char>|
            results_lookup(es1, k) == (if k == key {
                Some(value)
            } else {
                results_lookup(es0, k)
            }) by {
            assert(es1[0] == (key, value));
            if k != key {
                assert(results_lookup(es1.drop_first(), k) is None);
            }
        }
    } else {
        let t0 = es0.drop_first();
        let t1 = es1.drop_first();
        assert(t1.len() == t0.len() + 1);
        assert(t1[t0.len() as int] == es1[es0.len() as int]);
        assert forall|j: int| 0 <= j < t0.len() implies t1[j] == t0[j] by {
            assert(t1[j] == es1[j + 1]);
            assert(t0[j] == es0[j + 1]);
        }
        assert forall|j: int| 0 <= j < t0.len() implies (#[trigger] t0[j]).0 != key by {
            assert(t0[j] == es0[j + 1]);
        }
        lemma_results_lookup_append(t0, t1, key, value);
        assert forall|k: Seq<char>|
            results_lookup(es1, k) == (if k == key {
                Some(value)
            } else {
                results_lookup(es0, k)
            }) by {
            assert(es1[0] == es0[0]);
            assert(es0[0].0 != key);
            if es1[0].0 != k {
                assert(results_lookup(es1, k) == results_lookup(t1, k));
                assert(results_lookup(es0, k) == results_lookup(t0, k));
            }
        }
    }
}

/// The value a cross-step reference reads: the named top-level field of the
/// first document of the step's results.
pub open spec fn head_field(docs: Seq<JsonV>, f: Seq<char>) -> Option<JsonV> {
    if docs.len() > 0 && docs[0] is Obj {
        field_lookup(docs[0]->Obj_0, f)
    } else {
        None
    }
}

} // verus!
// Bind-parameter construction for one step: the resolved top-level
// parameters first, then one synthetic `@step.field` parameter per distinct
// cross-step reference, bound to the field of the referenced step's first
// row.

verus! {

/// The synthetic wire parameter a reference binds: the literal dotted token
/// as the name, the referenced field's value as the value.
pub open spec fn pair_binding(p: (Seq<char>, Seq<char>), docs: Seq<JsonV>) -> JsonV {
    cosmos_param(p.0 + seq!['.'] + p.1, head_field(docs, p.1)->0)
}

/// The comma-joined field names of an object's fields from `i` on.
pub open spec fn keys_joined_from(fields: Seq<(Seq<char>, JsonV)>, i: int) -> Seq<char>
    decreases fields.len() - i,
{
    if i < 0 || i >= fields.len() {
        Seq::empty()
    } else {
        let sep: Seq<char> = if i > 0 {
            seq![',', ' ']
        } else {
            Seq::empty()
        };
        sep + fields[i].0 + keys_joined_from(fields, i + 1)
    }
}

/// The "available fields" text of a step's first document: its comma-joined
/// keys, or `none` when it is not an object.
pub open spec fn available_spec(docs: Seq<JsonV>) -> Seq<char> {
    if docs.len() > 0 && docs[0] is Obj {
        keys_joined_from(docs[0]->Obj_0, 0)
    } else {
        "none"@
    }
}

/// Renders the comma-joined keys of a document when it is an object.
fn available_text(doc: &JsonValue) -> (s: String)
    ensures
        s@ == (if doc@ is Obj {
            keys_joined_from(doc@->Obj_0, 0)
        } else {
            "none"@
        }),
{
    match doc {
        JsonValue::Obj(fields) => {
            let ghost vf = doc@->Obj_0;
            proof {
                assert(*doc is Obj && doc->Obj_0 == *fields);
                assert(vf.len() == fields@.len());
            }
            let mut out: Vec<char> = Vec::new();
            let mut i: usize = 0;
            while i < fields.len()
                invariant
                    i <= fields@.len(),
                    vf == doc@->Obj_0,
                    *doc is Obj && doc->Obj_0 == *fields,
                    vf.len() == fields@.len(),
                    keys_joined_from(vf, 0) =~= out@ + keys_joined_from(vf, i as int),
                decreases fields@.len() - i,
            {
                let ghost before = out@;
                if i > 0 {
                    out.push(',');
                    out.push(' ');
                }
                let mut piece: Vec<char> = chars_of(fields[i].0.as_str());
                out.append(&mut piece);
                proof {
                    let sep: Seq<char> = if i > 0 {
                        seq![',', ' ']
                    } else {
                        Seq::empty()
                    };
                    assert(fields@[i as int].0@ == vf[i as int].0);
                    assert(out@ =~= before + (sep + vf[i as int].0));
                    assert(keys_joined_from(vf, i as int) =~= (sep + vf[i as int].0)
                        + keys_joined_from(vf, i + 1));
                    assert(before + ((sep + vf[i as int].0) + keys_joined_from(vf, i + 1)) =~= (
                    before + (sep + vf[i as int].0)) + keys_joined_from(vf, i + 1));
                }
                i += 1;
            }
            proof {
                assert(keys_joined_from(vf, vf.len() as int) =~= Seq::<char>::empty());
                assert(out@ =~= keys_joined_from(vf, 0));
            }
            string_of_chars(&out)
        },
        _ => String::from_str("none"),
    }
}

/// The wire parameter stems from some cross-step reference whose step has
/// results holding the referenced field.
pub open spec fn bound_from_ref(
    s: Seq<char>,
    nv: Seq<Seq<char>>,
    rv: Seq<(Seq<char>, Seq<JsonV>)>,
    o: JsonV,
) -> bool {
    exists|p: (Seq<char>, Seq<char>)|
        from_some_ref(s, nv, p) && (results_lookup(rv, p.0) matches Some(docs) && head_field(
            docs,
            p.1,
        ) is Some && o == pair_binding(p, docs))
}

/// The reference at `i` has its binding somewhere in the suffix.
pub open spec fn ref_is_bound(
    s: Seq<char>,
    nv: Seq<Seq<char>>,
    rv: Seq<(Seq<char>, Seq<JsonV>)>,
    i: int,
    outv: Seq<JsonV>,
    plen: int,
) -> bool {
    exists|k: int|
        plen <= k < outv.len() && outv[k] == pair_binding(
            ref_pair(s, i),
            results_lookup(rv, ref_pair(s, i).0)->0,
        )
}

/// Builds the wire parameters for one step: the resolved top-level
/// parameters, then one `@step.field` binding per distinct cross-step
/// reference in the step's SQL, each bound to that field of the referenced
/// step's first result row. Fails when a referenced step has not executed
/// (a planning invariant violation), returned no rows, or lacks the field.
pub fn build_step_params(
    sql: &str,
    step_names: &Vec<String>,
    params: &ResolvedParams,
    step_results: &StepResults,
) -> (r: Result<Vec<JsonValue>, PipelineError>)
    ensures
        ({
            let s = sql@;
            let nv = name_views(*step_names);
            let plen = params.entries@.len();
            match r {
                Ok(out) => {
                    &&& out@.len() >= plen
                    &&& forall|i: int|
                        0 <= i < plen ==> (#[trigger] out@[i]@) == cosmos_param(
                            params.entries@[i].0@,
                            params.entries@[i].1@,
                        )
                    &&& forall|k: int|
                        plen <= k < out@.len() ==> bound_from_ref(
                            s,
                            nv,
                            results_view(step_results.entries),
                            #[trigger] out@[k]@,
                        )
                    &&& forall|i: int|
                        #![trigger ref_pair(s, i)]
                        is_ref_at(s, nv, i) ==> ref_is_bound(
                            s,
                            nv,
                            results_view(step_results.entries),
                            i,
                            views_of_vec(out),
                            plen as int,
                        )
                },
                Err(e) => match e {
                    PipelineError::StepNotExecuted { step } => exists|p: (Seq<char>, Seq<char>)|
                        from_some_ref(s, nv, p) && p.0 == step@ && step_results.spec_get(
                            p.0,
                        ) is None,
                    PipelineError::StepHasNoRows { step, field } => {
                        &&& from_some_ref(s, nv, (step@, field@))
                        &&& step_results.spec_get(step@) == Some(Seq::<JsonV>::empty())
                    },
                    PipelineError::FieldNotFound { step, field, available } => {
                        &&& from_some_ref(s, nv, (step@, field@))
                        &&& step_results.spec_get(step@) matches Some(docs) && docs.len() > 0
                            && head_field(docs, field@) is None && available@ == available_spec(
                            docs,
                        )
                    },
                    _ => false,
                },
            }
        }),
{
    let ghost s = sql@;
    let ghost nv = name_views(*step_names);
    let mut out: Vec<JsonValue> = StoredQuery::build_cosmos_params(params);
    let ghost plen = params.entries@.len();
    let refs: Vec<(String, String)> = find_step_references(sql, step_names);
    let ghost pv = pairs_view(refs);
    let mut k: usize = 0;
    while k < refs.len()
        invariant
            k <= refs@.len(),
            s == sql@,
            nv == name_views(*step_names),
            pv == pairs_view(refs),
            pv.len() == refs@.len(),
            out@.len() == plen + k,
            plen == params.entries@.len(),
            forall|i: int|
                0 <= i < plen ==> (#[trigger] out@[i]@) == cosmos_param(
                    params.entries@[i].0@,
                    params.entries@[i].1@,
                ),
            forall|k2: int| 0 <= k2 < pv.len() ==> from_some_ref(s, nv, #[trigger] pv[k2]),
            forall|k2: int|
                0 <= k2 < k ==> (step_results.spec_get((#[trigger] pv[k2]).0) matches Some(docs)
                    && head_field(docs, pv[k2].1) is Some && out@[plen + k2]@ == pair_binding(
                    pv[k2],
                    docs,
                )),
        decreases refs@.len() - k,
    {
        let step_name: &String = &refs[k].0;
        let field_name: &String = &refs[k].1;
        let docs: &Vec<JsonValue> = match step_results.get(step_name.as_str()) {
            Some(d) => d,
            None => {
                return Err(PipelineError::StepNotExecuted { step: step_name.clone() });
            },
        };
        if docs.len() == 0 {
            proof {
                assert(views_of_vec(*docs) =~= Seq::<JsonV>::empty());
            }
            return Err(
                PipelineError::StepHasNoRows {
                    step: step_name.clone(),
                    field: field_name.clone(),
                },
            );
        }
        let head: &JsonValue = &docs[0];
        let value: &JsonValue = match head {
            JsonValue::Obj(fields) => {
                proof {
                    assert(views_of_vec(*docs)[0] == head@);
                    assert(head@ is Obj);
                }
                match crate::values::get_field(fields, field_name.as_str()) {
                    Some(v) => {
                        proof {
                            assert(head@->Obj_0 =~= fields.deep_field_view());
                        }
                        v
                    },
                    None => {
                        proof {
                            assert(head@->Obj_0 =~= fields.deep_field_view());
                        }
                        return Err(
                            PipelineError::FieldNotFound {
                                step: step_name.clone(),
                                field: field_name.clone(),
                                available: available_text(head),
                            },
                        );
                    },
                }
            },
            _ => {
                proof {
                    assert(views_of_vec(*docs)[0] == head@);
                }
                return Err(
                    PipelineError::FieldNotFound {
                        step: step_name.clone(),
                        field: field_name.clone(),
                        available: available_text(head),
                    },
                );
            },
        };
        // The literal dotted token is the wire parameter name.
        let mut dotted: String = step_name.clone();
        dotted.append(".");
        dotted.append(field_name.as_str());
        let bound: JsonValue = val_clone(value);
        let mut fields_vec: Vec<(String, JsonValue)> = Vec::new();
        let mut at_name: String = String::from_str("@");
        at_name.append(dotted.as_str());
        fields_vec.push((String::from_str("name"), JsonValue::Str(at_name)));
        fields_vec.push((String::from_str("value"), bound));
        proof {
            assert(seq!['@'] =~= "@"@) by {
                reveal_strlit("@");
            }
            assert(seq!['.'] =~= "."@) by {
                reveal_strlit(".");
            }
            assert(crate::values::view_of(fields_vec@[0].1) == JsonV::Str(seq!['@'] + (pv[
                k as int].0 + seq!['.'] + pv[k as int].1)));
            assert(crate::values::view_of(fields_vec@[1].1) == head_field(
                views_of_vec(*docs),
                pv[k as int].1,
            )->0);
        }
        let obj = JsonValue::Obj(fields_vec);
        proof {
            assert(crate::values::view_of(obj)->Obj_0 =~= seq![
                ("name"@, JsonV::Str(seq!['@'] + (pv[k as int].0 + seq!['.'] + pv[k as int].1))),
                ("value"@, head_field(views_of_vec(*docs), pv[k as int].1)->0),
            ]);
            assert(crate::values::view_of(obj) == pair_binding(pv[k as int], views_of_vec(
                *docs,
            )));
        }
        out.push(obj);
        k += 1;
    }
    proof {
        let rv = results_view(step_results.entries);
        assert forall|i: int|
            #![trigger ref_pair(s, i)]
            is_ref_at(s, nv, i) implies ref_is_bound(s, nv, rv, i, views_of_vec(out), plen as int)
            by {
            assert(pair_in(pv, ref_pair(s, i)));
            let kk = choose|kk: int| 0 <= kk < pv.len() && pv[kk] == ref_pair(s, i);
            assert(out@[plen + kk]@ == pair_binding(pv[kk],
                step_results.spec_get(pv[kk].0)->0));
            assert(views_of_vec(out)[plen + kk] == out@[plen + kk]@);
        }
        assert forall|k2: int|
            plen <= k2 < out@.len() implies bound_from_ref(s, nv, rv, #[trigger] out@[k2]@) by {
            let kk = k2 - plen;
            assert(from_some_ref(s, nv, pv[kk]));
            assert(out@[k2]@ == pair_binding(pv[kk], step_results.spec_get(pv[kk].0)->0));
        }
    }
    Ok(out)
}

} // verus!
// Planning: each step's dependency set is the set of step names its SQL
// references; the execution order is the cycle-checked layering of that
// graph.

verus! {

/// The names of the declared steps.
pub open spec fn steps_names_view(steps: Vec<StepDef>) -> Seq<Seq<char>> {
    Seq::new(
        steps@.len(),
        |i: int|
            if 0 <= i < steps@.len() {
                steps@[i].name@
            } else {
                Seq::<char>::empty()
            },
    )
}

/// The SQL body recorded for a step, or empty when none was parsed.
pub open spec fn step_sql_spec(q: &StoredQuery, name: Seq<char>) -> Seq<char> {
    match str_lookup(str_entries_view(q.step_queries), name) {
        Some(b) => b,
        None => Seq::empty(),
    }
}

/// Step `sname` depends on step `d`: the SQL of `sname` holds a reference
/// `@d.field` for some field.
pub open spec fn step_depends(sqlv: Seq<char>, nv: Seq<Seq<char>>, d: Seq<char>) -> bool {
    exists|i: int| is_ref_at(sqlv, nv, i) && ref_pair(sqlv, i).0 == d
}

/// The planning guarantees of an execution order `lv` for query `q` with
/// step names `nv`: nonempty layers that partition the declared steps, every
/// step's dependencies in strictly earlier layers, and each layer maximal.
pub open spec fn exec_order_props(q: &StoredQuery, nv: Seq<Seq<char>>, lv: Seq<Seq<Seq<char>>>) -> bool {
    &&& forall|a: int| 0 <= a < lv.len() ==> (#[trigger] lv[a]).len() > 0
    &&& forall|a: int, b: int|
        0 <= a < lv.len() && 0 <= b < lv[a].len() ==> contains_name(nv, #[trigger] lv[a][b])
    &&& forall|i: int| 0 <= i < nv.len() ==> in_layers(lv, lv.len() as int, #[trigger] nv[i])
    &&& forall|a1: int, b1: int, a2: int, b2: int|
        0 <= a1 < lv.len() && 0 <= b1 < lv[a1].len() && 0 <= a2 < lv.len() && 0 <= b2
            < lv[a2].len() && (a1 != a2 || b1 != b2) ==> #[trigger] lv[a1][b1] != #[trigger]
        lv[a2][b2]
    &&& forall|a: int, i: int|
        #![trigger contains_name(lv[a], nv[i])]
        0 <= a < lv.len() && 0 <= i < nv.len() && contains_name(lv[a], nv[i]) ==> (forall|
            d: Seq<char>,
        | step_depends(step_sql_spec(q, nv[i]), nv, d) ==> in_layers(lv, a, d))
    &&& forall|a: int, i: int|
        #![trigger in_layers(lv, a, nv[i])]
        0 <= a < lv.len() && 0 <= i < nv.len() && !in_layers(lv, a, nv[i]) && (forall|
            d: Seq<char>,
        | step_depends(step_sql_spec(q, nv[i]), nv, d) ==> in_layers(lv, a, d))
            ==> contains_name(lv[a], nv[i])
}

/// A stuck step: a declared step that depends on some member of the stuck
/// set.
pub open spec fn stuck_member(
    q: &StoredQuery,
    nv: Seq<Seq<char>>,
    rv: Seq<Seq<char>>,
    x: Seq<char>,
) -> bool {
    exists|i: int, d: Seq<char>|
        0 <= i < nv.len() && nv[i] == x && step_depends(step_sql_spec(q, nv[i]), nv, d)
            && contains_name(rv, d)
}

/// The cycle report's guarantee: a nonempty set of declared steps, each
/// depending on another member of the set.
pub open spec fn stuck_set_props(q: &StoredQuery, nv: Seq<Seq<char>>, rv: Seq<Seq<char>>) -> bool {
    &&& rv.len() > 0
    &&& forall|t: int| 0 <= t < rv.len() ==> contains_name(nv, #[trigger] rv[t])
    &&& forall|t: int| 0 <= t < rv.len() ==> stuck_member(q, nv, rv, #[trigger] rv[t])
}

impl StoredQuery {
    /// The declared step names, in declaration order.
    pub fn step_names(&self) -> (names: Vec<String>)
        requires
            self.metadata.steps is Some,
        ensures
            name_views(names) == steps_names_view(self.metadata.steps->0),
    {
        let mut names: Vec<String> = Vec::new();
        match &self.metadata.steps {
            Some(steps) => {
                let mut i: usize = 0;
                while i < steps.len()
                    invariant
                        i <= steps@.len(),
                        self.metadata.steps matches Some(ss) && ss == *steps,
                        name_views(names) =~= steps_names_view(*steps).take(i as int),
                    decreases steps@.len() - i,
                {
                    let ghost before = name_views(names);
                    names.push(steps[i].name.clone());
                    proof {
                        assert(name_views(names) =~= before.push(steps@[i as int].name@));
                        assert(steps_names_view(*steps).take(i + 1 as int) =~= steps_names_view(
                            *steps,
                        ).take(i as int).push(steps@[i as int].name@));
                    }
                    i += 1;
                }
                proof {
                    assert(steps_names_view(*steps).take(steps@.len() as int) =~= steps_names_view(
                        *steps,
                    ));
                    assert(name_views(names) =~= steps_names_view(*steps));
                }
            },
            None => {
            },
        }
        names
    }

    /// Each step's dependency list: the step names its SQL references.
    pub fn step_dependencies(&self, names: &Vec<String>) -> (deps: Vec<Vec<String>>)
        ensures
            deps@.len() == names@.len(),
            forall|i: int, d: Seq<char>|
                #![trigger contains_name(name_views(deps@[i]), d)]
                0 <= i < names@.len() ==> (contains_name(name_views(deps@[i]), d)
                    <==> step_depends(step_sql_spec(self, name_views(*names)[i]),
                name_views(*names), d)),
            forall|i: int, k: int|
                0 <= i < deps@.len() && 0 <= k < name_views(deps@[i]).len() ==> contains_name(
                    name_views(*names),
                    #[trigger] name_views(deps@[i])[k],
                ),
    {
        let ghost nv = name_views(*names);
        let mut deps: Vec<Vec<String>> = Vec::new();
        let mut i: usize = 0;
        while i < names.len()
            invariant
                i <= names@.len(),
                nv == name_views(*names),
                deps@.len() == i,
                forall|i2: int, d: Seq<char>|
                    #![trigger contains_name(name_views(deps@[i2]), d)]
                    0 <= i2 < i ==> (contains_name(name_views(deps@[i2]), d) <==> step_depends(
                        step_sql_spec(self, nv[i2]),
                        nv,
                        d,
                    )),
                forall|i2: int, k: int|
                    0 <= i2 < i && 0 <= k < name_views(deps@[i2]).len() ==> contains_name(
                        nv,
                        #[trigger] name_views(deps@[i2])[k],
                    ),
            decreases names@.len() - i,
        {
            let empty: String = String::new();
            let sql_opt: Option<&String> = self.step_query(names[i].as_str());
            let sql: &String = match sql_opt {
                Some(s2) => s2,
                None => &empty,
            };
            proof {
                assert(sql@ == step_sql_spec(self, nv[i as int]));
            }
            let refs: Vec<(String, String)> = find_step_references(sql.as_str(), names);
            let ghost pv = pairs_view(refs);
            let mut dep: Vec<String> = Vec::new();
            let mut k: usize = 0;
            while k < refs.len()
                invariant
                    k <= refs@.len(),
                    pv == pairs_view(refs),
                    pv.len() == refs@.len(),
                    name_views(dep).len() == k,
                    forall|k2: int|
                        0 <= k2 < k ==> #[trigger] name_views(dep)[k2] == pv[k2].0,
                decreases refs@.len() - k,
            {
                let ghost before = name_views(dep);
                dep.push(refs[k].0.clone());
                proof {
                    assert(name_views(dep) =~= before.push(pv[k as int].0));
                }
                k += 1;
            }
            proof {
                let sqlv = step_sql_spec(self, nv[i as int]);
                assert forall|d: Seq<char>|
                    #![trigger contains_name(name_views(dep), d)]
                    contains_name(name_views(dep), d) <==> step_depends(sqlv, nv, d) by {
                    if contains_name(name_views(dep), d) {
                        let k2 = choose|k2: int|
                            0 <= k2 < name_views(dep).len() && name_views(dep)[k2] == d;
                        assert(from_some_ref(sqlv, nv, pv[k2]));
                        let r2 = choose|r2: int|
                            is_ref_at(sqlv, nv, r2) && ref_pair(sqlv, r2) == pv[k2];
                        assert(step_depends(sqlv, nv, d));
                    }
                    if step_depends(sqlv, nv, d) {
                        let r2 = choose|r2: int|
                            is_ref_at(sqlv, nv, r2) && ref_pair(sqlv, r2).0 == d;
                        assert(pair_in(pv, ref_pair(sqlv, r2)));
                        let k2 = choose|k2: int|
                            0 <= k2 < pv.len() && pv[k2] == ref_pair(sqlv, r2);
                        assert(name_views(dep)[k2] == d);
                        assert(contains_name(name_views(dep), d));
                    }
                }
                assert forall|k2: int|
                    0 <= k2 < name_views(dep).len() implies contains_name(
                    nv,
                    #[trigger] name_views(dep)[k2],
                ) by {
                    assert(from_some_ref(sqlv, nv, pv[k2]));
                    let r2 = choose|r2: int|
                        is_ref_at(sqlv, nv, r2) && ref_pair(sqlv, r2) == pv[k2];
                    assert(contains_name(nv, ref_pair(sqlv, r2).0));
                }
            }
            deps.push(dep);
            proof {
                assert forall|i2: int, d: Seq<char>|
                    #![trigger contains_name(name_views(deps@[i2]), d)]
                    0 <= i2 < i + 1 implies (contains_name(name_views(deps@[i2]), d)
                    <==> step_depends(step_sql_spec(self, nv[i2]), nv, d)) by {}
            }
            i += 1;
        }
        deps
    }

    /// Computes the execution order of a multi-step query: layers of steps
    /// whose dependencies all lie in strictly earlier layers, as large as
    /// possible, failing — before anything executes — when the reference
    /// graph has a cycle.
    pub fn execution_order(&self) -> (r: Result<Vec<Vec<String>>, PipelineError>)
        requires
            self.metadata.steps is Some,
            names_unique(steps_names_view(self.metadata.steps->0)),
        ensures
            ({
                let nv = steps_names_view(self.metadata.steps->0);
                match r {
                    Ok(layers) => exec_order_props(self, nv, groups_view(layers)),
                    Err(e) => e matches PipelineError::Plan(
                        PlanError::CyclicDependency { steps },
                    ) && stuck_set_props(self, nv, name_views(steps)),
                }
            }),
    {
        let names: Vec<String> = self.step_names();
        let ghost nv = name_views(names);
        let deps: Vec<Vec<String>> = self.step_dependencies(&names);
        let r = execution_layers(&names, &deps);
        match r {
            Ok(layers) => {
                proof {
                    let lv = groups_view(layers);
                    assert forall|a: int, i: int|
                        #![trigger contains_name(lv[a], nv[i])]
                        0 <= a < lv.len() && 0 <= i < nv.len() && contains_name(lv[a], nv[i])
                        implies (forall|d: Seq<char>|
                        step_depends(step_sql_spec(self, nv[i]), nv, d) ==> in_layers(
                            lv,
                            a,
                            d,
                        )) by {
                        assert forall|d: Seq<char>|
                            step_depends(step_sql_spec(self, nv[i]), nv, d) implies in_layers(
                            lv,
                            a,
                            d,
                        ) by {
                            assert(contains_name(name_views(deps@[i]), d));
                            let k = choose|k: int|
                                0 <= k < name_views(deps@[i]).len() && name_views(deps@[i])[k]
                                    == d;
                            assert(in_layers(lv, a, name_views(deps@[i])[k]));
                        }
                    }
                    assert forall|a: int, i: int|
                        #![trigger in_layers(lv, a, nv[i])]
                        0 <= a < lv.len() && 0 <= i < nv.len() && !in_layers(lv, a, nv[i]) && (
                        forall|d: Seq<char>|
                            step_depends(step_sql_spec(self, nv[i]), nv, d) ==> in_layers(
                                lv,
                                a,
                                d,
                            )) implies contains_name(lv[a], nv[i]) by {
                        assert forall|k: int|
                            0 <= k < name_views(deps@[i]).len() implies in_layers(
                            lv,
                            a,
                            #[trigger] name_views(deps@[i])[k],
                        ) by {
                            assert(contains_name(name_views(deps@[i]),
                                name_views(deps@[i])[k]));
                            assert(step_depends(step_sql_spec(self, nv[i]), nv, name_views(
                                deps@[i],
                            )[k]));
                        }
                    }
                    assert(steps_names_view(self.metadata.steps->0) == nv);
                    assert(exec_order_props(self, nv, groups_view(layers)));
                }
                Ok(layers)
            },
            Err(e) => {
                match &e {
                    PlanError::CyclicDependency { steps } => {
                        proof {
                            assert forall|t: int|
                                0 <= t < name_views(*steps).len() implies stuck_member(self, nv,
                            name_views(*steps), #[trigger] name_views(*steps)[t]) by {
                                let rv = name_views(*steps);
                                let (i, k) = choose|i: int, k: int|
                                    0 <= i < nv.len() && nv[i] == rv[t] && 0 <= k < name_views(
                                        deps@[i],
                                    ).len() && contains_name(rv, name_views(deps@[i])[k]);
                                let d = name_views(deps@[i])[k];
                                assert(contains_name(name_views(deps@[i]), d));
                                assert(step_depends(step_sql_spec(self, nv[i]), nv, d));
                            }
                            assert(steps_names_view(self.metadata.steps->0) == nv);
                            assert(stuck_set_props(self, nv, name_views(*steps)));
                        }
                    },
                }
                Err(PipelineError::Plan(e))
            },
        }
    }
}

} // verus!
// The pipeline driver: planned layers are consumed in order; the caller
// executes a layer's steps (concurrently if it wishes), hands the results
// back, and the scheduler alone merges them into the shared store between
// layers.

verus! {

/// The outcome of a finished pipeline: every step's documents keyed by step
/// name, and the total request charge in millionths of a request unit.
#[derive(Debug)]
pub struct PipelineResult {
    pub step_results: StepResults,
    pub total_charge: u64,
}

/// A planned pipeline mid-execution: the computed layers, the next layer to
/// run, the results of finished steps, and the accumulated charge.
#[derive(Debug)]
pub struct Pipeline {
    pub layers: Vec<Vec<String>>,
    pub next_layer: usize,
    pub results: StepResults,
    pub total_charge: u64,
}

/// The summed charges of a result batch, saturating, from position `i` on.
pub open spec fn batch_charge_from(b: Seq<(String, QueryResult)>, i: int, acc: int) -> int
    decreases b.len() - i,
{
    if i < 0 || i >= b.len() {
        acc
    } else {
        batch_charge_from(b, i + 1, sat_add64(acc, b[i].1.request_charge as int))
    }
}

impl Pipeline {
    /// Plans a multi-step stored query: builds the dependency graph from the
    /// step references and computes the execution layers. A cycle fails the
    /// plan here, before any step executes.
    pub fn plan(query: &StoredQuery) -> (r: Result<Pipeline, PipelineError>)
        requires
            query.metadata.steps is Some,
            names_unique(steps_names_view(query.metadata.steps->0)),
        ensures
            ({
                let nv = steps_names_view(query.metadata.steps->0);
                match r {
                    Ok(p) => {
                        &&& p.next_layer == 0
                        &&& p.results.entries@.len() == 0
                        &&& p.total_charge == 0
                        &&& exec_order_props(query, nv, groups_view(p.layers))
                    },
                    Err(e) => e matches PipelineError::Plan(
                        PlanError::CyclicDependency { steps },
                    ) && stuck_set_props(query, nv, name_views(steps)),
                }
            }),
    {
        let layers: Vec<Vec<String>> = match query.execution_order() {
            Ok(l) => l,
            Err(e) => {
                return Err(e);
            },
        };
        Ok(Pipeline { layers, next_layer: 0, results: StepResults::new(), total_charge: 0 })
    }

    /// Whether every layer has run.
    pub fn is_done(&self) -> (r: bool)
        ensures
            r == (self.next_layer >= self.layers@.len()),
    {
        self.next_layer >= self.layers.len()
    }

    /// The names of the next layer to execute, if one remains.
    pub fn current_layer(&self) -> (r: Option<&Vec<String>>)
        ensures
            match r {
                Some(layer) => self.next_layer < self.layers@.len() && layer
                    == self.layers@[self.next_layer as int],
                None => self.next_layer >= self.layers@.len(),
            },
    {
        if self.next_layer < self.layers.len() {
            Some(&self.layers[self.next_layer])
        } else {
            None
        }
    }

    /// Merges a finished layer's results into the shared store and advances
    /// to the next layer. Only the scheduler calls this, after every task of
    /// the layer has finished.
    pub fn complete_layer(&mut self, batch: Vec<(String, QueryResult)>)
        requires
            old(self).next_layer < old(self).layers@.len(),
            forall|j: int|
                0 <= j < batch@.len() ==> old(self).results.spec_get(
                    (#[trigger] batch@[j].0)@,
                ) is None,
            forall|j1: int, j2: int|
                0 <= j1 < j2 < batch@.len() ==> batch@[j1].0@ != batch@[j2].0@,
        ensures
            final(self).layers == old(self).layers,
            final(self).next_layer == old(self).next_layer + 1,
            final(self).total_charge as int == batch_charge_from(
                batch@,
                0,
                old(self).total_charge as int,
            ),
            forall|j: int|
                0 <= j < batch@.len() ==> final(self).results.spec_get((#[trigger] batch@[j].0)@)
                    == Some(views_of_vec(batch@[j].1.documents)),
            forall|k: Seq<char>|
                (forall|j: int| 0 <= j < batch@.len() ==> (#[trigger] batch@[j].0)@ != k)
                    ==> final(self).results.spec_get(k) == old(self).results.spec_get(k),
    {
        let ghost bv = batch@;
        let mut batch: Vec<(String, QueryResult)> = batch;
        let n0: usize = batch.len();
        let mut j: usize = 0;
        while batch.len() > 0
            invariant
                n0 == bv.len(),
                j + batch@.len() == bv.len(),
                j <= n0,
                forall|j2: int| 0 <= j2 < batch@.len() ==> batch@[j2] == bv[j + j2],
                self.layers == old(self).layers,
                self.next_layer == old(self).next_layer,
                batch_charge_from(bv, j as int, self.total_charge as int) == batch_charge_from(
                    bv,
                    0,
                    old(self).total_charge as int,
                ),
                forall|j2: int|
                    0 <= j2 < j ==> self.results.spec_get((#[trigger] bv[j2].0)@) == Some(
                        views_of_vec(bv[j2].1.documents),
                    ),
                forall|j2: int|
                    j <= j2 < bv.len() ==> self.results.spec_get((#[trigger] bv[j2].0)@) is None,
                forall|k: Seq<char>|
                    (forall|j2: int| 0 <= j2 < bv.len() ==> (#[trigger] bv[j2].0)@ != k)
                        ==> self.results.spec_get(k) == old(self).results.spec_get(k),
                forall|j1: int, j2: int| 0 <= j1 < j2 < bv.len() ==> bv[j1].0@ != bv[j2].0@,
            decreases batch@.len(),
        {
            let (name, res): (String, QueryResult) = batch.remove(0);
            proof {
                assert(bv[j as int].0@ == name@);
                assert(views_of_vec(bv[j as int].1.documents) == views_of_vec(res.documents));
            }
            let add: u64 = res.request_charge;
            self.total_charge = if self.total_charge > 0xffff_ffff_ffff_ffff - add {
                0xffff_ffff_ffff_ffff
            } else {
                self.total_charge + add
            };
            self.results.insert(name, res.documents);
            proof {
                assert forall|j2: int| 0 <= j2 < batch@.len() implies batch@[j2] == bv[
                    j + 1 + j2] by {}
            }
            j += 1;
        }
        proof {
            assert(batch_charge_from(bv, j as int, self.total_charge as int)
                == self.total_charge as int);
        }
        let nl: usize = self.layers.len();
        proof {
            assert(self.next_layer < nl);
        }
        self.next_layer = self.next_layer + 1;
    }

    /// Finishes the pipeline: every step's documents keyed by name, and the
    /// summed charge.
    pub fn finish(self) -> (r: PipelineResult)
        requires
            self.next_layer >= self.layers@.len(),
        ensures
            r.step_results == self.results,
            r.total_charge == self.total_charge,
    {
        PipelineResult { step_results: self.results, total_charge: self.total_charge }
    }
}

} // verus!
// Error message texts.

verus! {

use crate::render::dec_digits;

/// The comma-joined names from position `i` on.
pub open spec fn names_joined_from(ns: Seq<Seq<char>>, i: int) -> Seq<char>
    decreases ns.len() - i,
{
    if i < 0 || i >= ns.len() {
        Seq::empty()
    } else {
        let sep: Seq<char> = if i > 0 {
            seq![',', ' ']
        } else {
            Seq::empty()
        };
        sep + ns[i] + names_joined_from(ns, i + 1)
    }
}

/// Renders a comma-joined name list.
fn names_joined(ns: &Vec<String>) -> (s: String)
    ensures
        s@ == names_joined_from(name_views(*ns), 0),
{
    let ghost nv = name_views(*ns);
    let mut out: Vec<char> = Vec::new();
    let mut i: usize = 0;
    while i < ns.len()
        invariant
            i <= ns@.len(),
            nv == name_views(*ns),
            nv.len() == ns@.len(),
            names_joined_from(nv, 0) =~= out@ + names_joined_from(nv, i as int),
        decreases ns@.len() - i,
    {
        let ghost before = out@;
        if i > 0 {
            out.push(',');
            out.push(' ');
        }
        let mut piece: Vec<char> = chars_of(ns[i].as_str());
        out.append(&mut piece);
        proof {
            let sep: Seq<char> = if i > 0 {
                seq![',', ' ']
            } else {
                Seq::empty()
            };
            assert(ns@[i as int]@ == nv[i as int]);
            assert(out@ =~= before + (sep + nv[i as int]));
            assert(names_joined_from(nv, i as int) =~= (sep + nv[i as int]) + names_joined_from(
                nv,
                i + 1,
            ));
            assert(before + ((sep + nv[i as int]) + names_joined_from(nv, i + 1)) =~= (before + (
            sep + nv[i as int])) + names_joined_from(nv, i + 1));
        }
        i += 1;
    }
    proof {
        assert(names_joined_from(nv, nv.len() as int) =~= Seq::<char>::empty());
        assert(out@ =~= names_joined_from(nv, 0));
    }
    string_of_chars(&out)
}

/// The message text of a pipeline error.
pub open spec fn pipeline_message_spec(e: &PipelineError) -> Seq<char> {
    match e {
        PipelineError::NotMultiStep => "not a multi-step query"@,
        PipelineError::Plan(PlanError::CyclicDependency { steps }) =>
            "cyclic dependency between steps: "@ + names_joined_from(name_views(*steps), 0),
        PipelineError::StepNotExecuted { step } => "step '"@ + step@
            + "' has not been executed yet (dependency error)"@,
        PipelineError::StepHasNoRows { step, field } => "Step '"@ + step@
            + "' returned no results — cannot resolve @"@ + step@ + seq!['.'] + field@,
        PipelineError::FieldNotFound { step, field, available } => "Field '"@ + field@
            + "' not found in step '"@ + step@ + "' result. Available fields: "@ + available@,
        PipelineError::StepFailed { step, source } => "step '"@ + step@ + "' failed: "@
            + (match source {
            ClientError::Api { status, message } => "API error ("@ + dec_digits(*status as nat)
                + "): "@ + message@,
            ClientError::Forbidden { message, hint } => "access denied: "@ + message@
                + "\n\nHint: "@ + hint@,
            ClientError::NoPartitionKeyRanges =>
                "no partition key ranges returned for the container"@,
        }),
    }
}

impl PipelineError {
    /// Renders this error as its message text.
    pub fn message(&self) -> (s: String)
        ensures
            s@ == pipeline_message_spec(self),
    {
        match self {
            PipelineError::NotMultiStep => String::from_str("not a multi-step query"),
            PipelineError::Plan(PlanError::CyclicDependency { steps }) => {
                let mut s = String::from_str("cyclic dependency between steps: ");
                let joined: String = names_joined(steps);
                s.append(joined.as_str());
                proof {
                    assert(s@ =~= pipeline_message_spec(self));
                }
                s
            },
            PipelineError::StepNotExecuted { step } => {
                let mut s = String::from_str("step '");
                s.append(step.as_str());
                s.append("' has not been executed yet (dependency error)");
                proof {
                    assert(s@ =~= pipeline_message_spec(self));
                }
                s
            },
            PipelineError::StepHasNoRows { step, field } => {
                let mut s = String::from_str("Step '");
                s.append(step.as_str());
                s.append("' returned no results — cannot resolve @");
                s.append(step.as_str());
                s.append(".");
                s.append(field.as_str());
                proof {
                    assert(seq!['.'] =~= "."@) by {
                        reveal_strlit(".");
                    }
                    assert(s@ =~= pipeline_message_spec(self));
                }
                s
            },
            PipelineError::FieldNotFound { step, field, available } => {
                let mut s = String::from_str("Field '");
                s.append(field.as_str());
                s.append("' not found in step '");
                s.append(step.as_str());
                s.append("' result. Available fields: ");
                s.append(available.as_str());
                proof {
                    assert(s@ =~= pipeline_message_spec(self));
                }
                s
            },
            PipelineError::StepFailed { step, source } => {
                let mut s = String::from_str("step '");
                s.append(step.as_str());
                s.append("' failed: ");
                let src: String = source.message();
                s.append(src.as_str());
                proof {
                    assert(s@ =~= pipeline_message_spec(self));
                }
                s
            },
        }
    }
}

} // verus!
