//! Dependency-aware planning: cycle-checked topological layering of steps.
//! A layer collects every step whose dependencies all lie in strictly
//! earlier layers; planning fails — before anything executes — when no
//! progress can be made while steps remain.

use vstd::prelude::*;
use crate::refs::{name_views, contains_name};
use crate::text::str_eq;

verus! {

/// Spec views of a vector of name vectors.
pub open spec fn groups_view(v: Vec<Vec<String>>) -> Seq<Seq<Seq<char>>> {
    Seq::new(
        v@.len(),
        |i: int|
            if 0 <= i < v@.len() {
                name_views(v@[i])
            } else {
                Seq::<Seq<char>>::empty()
            },
    )
}

/// Whether `x` appears in one of the first `upto` layers.
pub open spec fn in_layers(lv: Seq<Seq<Seq<char>>>, upto: int, x: Seq<char>) -> bool {
    exists|a: int| 0 <= a < upto && a < lv.len() && contains_name(#[trigger] lv[a], x)
}

/// The number of `true` flags.
pub open spec fn num_true(s: Seq<bool>) -> int
    decreases s.len(),
{
    if s.len() == 0 {
        0
    } else {
        num_true(s.drop_last()) + if s.last() {
            1int
        } else {
            0int
        }
    }
}

proof fn lemma_num_true_bound(s: Seq<bool>)
    ensures
        0 <= num_true(s) <= s.len(),
    decreases s.len(),
{
    if s.len() > 0 {
        lemma_num_true_bound(s.drop_last());
    }
}

proof fn lemma_num_true_update(s: Seq<bool>, i: int)
    requires
        0 <= i < s.len(),
        !s[i],
    ensures
        num_true(s.update(i, true)) == num_true(s) + 1,
    decreases s.len(),
{
    let t = s.update(i, true);
    if i == s.len() - 1 {
        assert(t.drop_last() =~= s.drop_last());
    } else {
        assert(t.drop_last() =~= s.drop_last().update(i, true));
        lemma_num_true_update(s.drop_last(), i);
    }
}

proof fn lemma_num_true_full(s: Seq<bool>)
    requires
        num_true(s) == s.len(),
    ensures
        forall|i: int| 0 <= i < s.len() ==> s[i],
    decreases s.len(),
{
    if s.len() > 0 {
        lemma_num_true_bound(s.drop_last());
        lemma_num_true_full(s.drop_last());
        assert forall|i: int| 0 <= i < s.len() implies s[i] by {
            if i < s.len() - 1 {
                assert(s.drop_last()[i]);
            }
        }
    }
}

/// Whether `j` is among the picked indexes.
pub open spec fn picked_has(p: Seq<usize>, j: int) -> bool {
    exists|q: int| 0 <= q < p.len() && p[q] == j
}

/// A name is some step's name whose flag is clear.
pub open spec fn unsched_name(nv: Seq<Seq<char>>, sv: Seq<bool>, x: Seq<char>) -> bool {
    exists|i2: int| 0 <= i2 < nv.len() && !sv[i2] && nv[i2] == x
}

/// Every dependency in the list is scheduled.
pub open spec fn deps_ready(nv: Seq<Seq<char>>, sv: Seq<bool>, dvj: Vec<String>) -> bool {
    forall|k: int|
        0 <= k < name_views(dvj).len() ==> sched_name(nv, sv, #[trigger] name_views(dvj)[k])
}

/// A name is scheduled: it is some step's name whose flag is set.
pub open spec fn sched_name(nv: Seq<Seq<char>>, sv: Seq<bool>, d: Seq<char>) -> bool {
    exists|j: int| 0 <= j < nv.len() && nv[j] == d && sv[j]
}

/// Pairwise distinct names.
pub open spec fn names_unique(nv: Seq<Seq<char>>) -> bool {
    forall|i: int, j: int| 0 <= i < j < nv.len() ==> nv[i] != nv[j]
}

/// Planning failed: the named steps form a stuck set, each of them waiting
/// on another member of the set.
#[derive(Debug)]
pub enum PlanError {
    CyclicDependency { steps: Vec<String> },
}

/// Computes the execution layers of a step graph: repeatedly peels off every
/// step whose dependencies are all already scheduled. `names` are the step
/// names, `deps[i]` the names `names[i]` depends on. On success the layers
/// partition the steps, each step's dependencies lie in strictly earlier
/// layers, and each layer is as large as possible; otherwise the remaining
/// steps form a cycle-bound stuck set and no layer is produced.
#[verifier::rlimit(100)]
pub fn execution_layers(names: &Vec<String>, deps: &Vec<Vec<String>>) -> (r: Result<
    Vec<Vec<String>>,
    PlanError,
>)
    requires
        deps@.len() == names@.len(),
        names_unique(name_views(*names)),
        forall|i: int, k: int|
            0 <= i < deps@.len() && 0 <= k < name_views(deps@[i]).len() ==> contains_name(
                name_views(*names),
                #[trigger] name_views(deps@[i])[k],
            ),
    ensures
        ({
            let nv = name_views(*names);
            match r {
                Ok(layers) => {
                    let lv = groups_view(layers);
                    &&& forall|a: int| 0 <= a < lv.len() ==> (#[trigger] lv[a]).len() > 0
                    &&& forall|a: int, b: int|
                        0 <= a < lv.len() && 0 <= b < lv[a].len() ==> contains_name(
                            nv,
                            #[trigger] lv[a][b],
                        )
                    &&& forall|i: int|
                        0 <= i < nv.len() ==> in_layers(lv, lv.len() as int, #[trigger] nv[i])
                    &&& forall|a1: int, b1: int, a2: int, b2: int|
                        0 <= a1 < lv.len() && 0 <= b1 < lv[a1].len() && 0 <= a2 < lv.len() && 0
                            <= b2 < lv[a2].len() && (a1 != a2 || b1 != b2) ==> #[trigger] lv[a1][b1]
                            != #[trigger] lv[a2][b2]
                    &&& forall|a: int, i: int|
                        #![trigger contains_name(lv[a], nv[i])]
                        0 <= a < lv.len() && 0 <= i < nv.len() && contains_name(
                            lv[a],
                            nv[i],
                        ) ==> (forall|k: int|
                            0 <= k < name_views(deps@[i]).len() ==> in_layers(
                                lv,
                                a,
                                #[trigger] name_views(deps@[i])[k],
                            ))
                    &&& forall|a: int, i: int|
                        #![trigger in_layers(lv, a, nv[i])]
                        0 <= a < lv.len() && 0 <= i < nv.len() && !in_layers(
                            lv,
                            a,
                            nv[i],
                        ) && (forall|k: int|
                            0 <= k < name_views(deps@[i]).len() ==> in_layers(
                                lv,
                                a,
                                #[trigger] name_views(deps@[i])[k],
                            )) ==> contains_name(lv[a], nv[i])
                },
                Err(PlanError::CyclicDependency { steps }) => {
                    let rv = name_views(steps);
                    &&& rv.len() > 0
                    &&& forall|t: int| 0 <= t < rv.len() ==> contains_name(nv, #[trigger] rv[t])
                    &&& forall|t: int|
                        #![trigger rv[t]]
                        0 <= t < rv.len() ==> (exists|i: int, k: int|
                            0 <= i < nv.len() && nv[i] == rv[t] && 0 <= k < name_views(
                                deps@[i],
                            ).len() && contains_name(rv, name_views(deps@[i])[k]))
                },
            }
        }),
{
    let n: usize = names.len();
    let ghost nv = name_views(*names);
    let mut scheduled: Vec<bool> = Vec::new();
    let mut t: usize = 0;
    while t < n
        invariant
            t <= n,
            scheduled@.len() == t,
            forall|j: int| 0 <= j < t ==> !scheduled@[j],
        decreases n - t,
    {
        scheduled.push(false);
        t += 1;
    }
    proof {
        lemma_num_true_zero(scheduled@);
    }
    let mut count: usize = 0;
    let mut layers: Vec<Vec<String>> = Vec::new();
    while count < n
        invariant
            count <= n,
            n == names@.len(),
            nv == name_views(*names),
            deps@.len() == n,
            names_unique(nv),
            forall|i: int, k: int|
                0 <= i < deps@.len() && 0 <= k < name_views(deps@[i]).len() ==> contains_name(
                    nv,
                    #[trigger] name_views(deps@[i])[k],
                ),
            scheduled@.len() == n,
            count == num_true(scheduled@),
            ({
                let lv = groups_view(layers);
                &&& forall|j: int|
                    0 <= j < n ==> ((#[trigger] scheduled@[j]) <==> in_layers(
                        lv,
                        lv.len() as int,
                        nv[j],
                    ))
                &&& forall|a: int| 0 <= a < lv.len() ==> (#[trigger] lv[a]).len() > 0
                &&& forall|a: int, b: int|
                    0 <= a < lv.len() && 0 <= b < lv[a].len() ==> contains_name(
                        nv,
                        #[trigger] lv[a][b],
                    )
                &&& forall|a1: int, b1: int, a2: int, b2: int|
                    0 <= a1 < lv.len() && 0 <= b1 < lv[a1].len() && 0 <= a2 < lv.len() && 0 <= b2
                        < lv[a2].len() && (a1 != a2 || b1 != b2) ==> #[trigger] lv[a1][b1]
                        != #[trigger] lv[a2][b2]
                &&& forall|a: int, i: int|
                    #![trigger contains_name(lv[a], nv[i])]
                    0 <= a < lv.len() && 0 <= i < nv.len() && contains_name(
                        lv[a],
                        nv[i],
                    ) ==> (forall|k: int|
                        0 <= k < name_views(deps@[i]).len() ==> in_layers(
                            lv,
                            a,
                            #[trigger] name_views(deps@[i])[k],
                        ))
                &&& forall|a: int, i: int|
                    #![trigger in_layers(lv, a, nv[i])]
                    0 <= a < lv.len() && 0 <= i < nv.len() && !in_layers(
                        lv,
                        a,
                        nv[i],
                    ) && (forall|k: int|
                        0 <= k < name_views(deps@[i]).len() ==> in_layers(
                            lv,
                            a,
                            #[trigger] name_views(deps@[i])[k],
                        )) ==> contains_name(lv[a], nv[i])
            }),
        decreases n - count,
    {
        let ghost lv0 = groups_view(layers);
        let ghost sv0 = scheduled@;
        // Collect every unscheduled step whose dependencies are all
        // scheduled.
        let mut layer: Vec<String> = Vec::new();
        let mut picked: Vec<usize> = Vec::new();
        let mut i: usize = 0;
        while i < n
            invariant
                i <= n,
                n == names@.len(),
                nv == name_views(*names),
                deps@.len() == n,
                scheduled@ == sv0,
                sv0.len() == n,
                picked@.len() == layer@.len(),
                forall|q: int|
                    0 <= q < picked@.len() ==> 0 <= #[trigger] picked@[q] < i && !sv0[
                        picked@[q] as int
                    ] && name_views(layer)[q] == nv[picked@[q] as int],
                forall|q1: int, q2: int|
                    0 <= q1 < q2 < picked@.len() ==> picked@[q1] != picked@[q2],
                forall|q: int|
                    #![trigger picked@[q]]
                    0 <= q < picked@.len() ==> (forall|k: int|
                        0 <= k < name_views(deps@[picked@[q] as int]).len() ==> sched_name(
                            nv,
                            sv0,
                            #[trigger] name_views(deps@[picked@[q] as int])[k],
                        )),
                forall|j: int|
                    0 <= j < i && !sv0[j] && (forall|k: int|
                        0 <= k < name_views(deps@[j]).len() ==> sched_name(
                            nv,
                            sv0,
                            #[trigger] name_views(deps@[j])[k],
                        )) ==> picked_has(picked@, j),
            decreases n - i,
        {
            if !scheduled[i] {
                // Are all of this step's dependencies scheduled?
                let mut all_ok: bool = true;
                let ghost dvi = name_views(deps@[i as int]);
                let mut k: usize = 0;
                while k < deps[i].len()
                    invariant
                        k <= deps@[i as int]@.len(),
                        i < n,
                        n == names@.len(),
                        nv == name_views(*names),
                        deps@.len() == n,
                        scheduled@ == sv0,
                        sv0.len() == n,
                        dvi == name_views(deps@[i as int]),
                        dvi.len() == deps@[i as int]@.len(),
                        all_ok ==> forall|k2: int|
                            0 <= k2 < k ==> sched_name(nv, sv0, #[trigger] dvi[k2]),
                        !all_ok ==> (exists|k2: int|
                            0 <= k2 < dvi.len() && !sched_name(nv, sv0, #[trigger] dvi[k2])),
                    decreases deps@[i as int]@.len() - k,
                {
                    if all_ok {
                        // Look the dependency's flag up by name.
                        let mut found: bool = false;
                        let mut j: usize = 0;
                        while j < n
                            invariant
                                j <= n,
                                i < n,
                                k < deps@[i as int]@.len(),
                                n == names@.len(),
                                nv == name_views(*names),
                                deps@.len() == n,
                                scheduled@ == sv0,
                                sv0.len() == n,
                                dvi == name_views(deps@[i as int]),
                                found ==> sched_name(nv, sv0, dvi[k as int]),
                                !found ==> forall|j2: int|
                                    0 <= j2 < j ==> !(nv[j2] == dvi[k as int] && sv0[j2]),
                            decreases n - j,
                        {
                            if !found {
                                if scheduled[j] {
                                    if str_eq(names[j].as_str(), deps[i][k].as_str()) {
                                        found = true;
                                        proof {
                                            assert(nv[j as int] == dvi[k as int]);
                                        }
                                    }
                                }
                            }
                            j += 1;
                        }
                        if !found {
                            all_ok = false;
                            proof {
                                assert(!sched_name(nv, sv0, dvi[k as int]));
                            }
                        }
                    }
                    k += 1;
                }
                if all_ok {
                    proof {
                        assert(dvi.take(dvi.len() as int) =~= dvi);
                    }
                    let ghost before_layer = name_views(layer);
                    let ghost before_picked = picked@;
                    layer.push(names[i].clone());
                    picked.push(i);
                    proof {
                        assert(name_views(layer) =~= before_layer.push(nv[i as int]));
                        assert(picked@[before_picked.len() as int] == i);
                        assert forall|j: int| picked_has(before_picked, j) implies picked_has(
                            picked@, j) by {
                            let q = choose|q: int|
                                0 <= q < before_picked.len() && before_picked[q] == j;
                            assert(picked@[q] == j);
                        }
                        assert(picked_has(picked@, i as int));
                    }
                }
            }
            i += 1;
        }
        if layer.len() == 0 {
            proof {
                assert forall|j: int|
                    0 <= j < n && !scheduled@[j] implies !deps_ready(nv, scheduled@, #[trigger]
                deps@[j]) by {
                    if deps_ready(nv, scheduled@, deps@[j]) {
                        assert(picked_has(picked@, j));
                        assert(false);
                    }
                }
            }
            return Err(stuck_error(names, &scheduled, deps));
        }
        // Mark the layer's steps as scheduled, then append the layer.
        let mut q: usize = 0;
        while q < picked.len()
            invariant
                q <= picked@.len(),
                n == names@.len(),
                nv == name_views(*names),
                scheduled@.len() == n,
                sv0.len() == n,
                count == num_true(sv0),
                picked@.len() == layer@.len(),
                picked@.len() >= 1,
                count + q <= n,
                forall|q2: int|
                    0 <= q2 < picked@.len() ==> 0 <= #[trigger] picked@[q2] < n && !sv0[
                        picked@[q2] as int
                    ] && name_views(layer)[q2] == nv[picked@[q2] as int],
                forall|q1: int, q2: int|
                    0 <= q1 < q2 < picked@.len() ==> picked@[q1] != picked@[q2],
                num_true(scheduled@) == count + q,
                forall|j: int|
                    0 <= j < n ==> ((#[trigger] scheduled@[j]) <==> (sv0[j] || picked_has(
                        picked@.take(q as int),
                        j,
                    ))),
            decreases picked@.len() - q,
        {
            let idx: usize = picked[q];
            proof {
                assert(!scheduled@[idx as int]) by {
                    if scheduled@[idx as int] {
                        if picked_has(picked@.take(q as int), idx as int) {
                            let tk0 = picked@.take(q as int);
                            let q3 = choose|q3: int| 0 <= q3 < tk0.len() && tk0[q3] == idx;
                            assert(picked@[q3] == picked@[q as int] && q3 != q);
                            assert(false);
                        }
                    }
                }
                lemma_num_true_update(scheduled@, idx as int);
                lemma_num_true_bound(scheduled@.update(idx as int, true));
            }
            let ghost sv_before = scheduled@;
            scheduled[idx] = true;
            proof {
                assert(scheduled@ =~= sv_before.update(idx as int, true));
                assert forall|j: int|
                    0 <= j < n implies ((#[trigger] scheduled@[j]) <==> (sv0[j] || picked_has(
                    picked@.take(q + 1 as int), j))) by {
                    if j == idx {
                        assert(picked@.take(q + 1 as int)[q as int] == idx);
                        assert(picked_has(picked@.take(q + 1 as int), j));
                    } else {
                        if picked_has(picked@.take(q as int), j) {
                            let tk0 = picked@.take(q as int);
                            let q3 = choose|q3: int| 0 <= q3 < tk0.len() && tk0[q3] == j;
                            assert(picked@.take(q + 1 as int)[q3] == j);
                        }
                        if picked_has(picked@.take(q + 1 as int), j) {
                            let tk1 = picked@.take(q + 1 as int);
                            let q3 = choose|q3: int| 0 <= q3 < tk1.len() && tk1[q3] == j;
                            if q3 < q {
                                assert(picked@.take(q as int)[q3] == j);
                            }
                        }
                    }
                }
            }
            q += 1;
        }
        let ghost layer_nv = name_views(layer);
        let old_count: usize = count;
        count = count + picked.len();
        layers.push(layer);
        proof {
            assert(picked@.take(picked@.len() as int) =~= picked@);
            let lv = groups_view(layers);
            assert(lv =~= lv0.push(layer_nv));
            assert(lv[lv0.len() as int] == layer_nv);
            lemma_layer_step(lv0, lv, layer_nv, nv, sv0, scheduled@, picked@, deps@);
        }
    }
    proof {
        lemma_num_true_full(scheduled@);
        let lv = groups_view(layers);
        assert forall|i: int| 0 <= i < nv.len() implies in_layers(lv, lv.len() as int, #[trigger]
        nv[i]) by {
            assert(scheduled@[i]);
        }
    }
    Ok(layers)
}

/// A fresh all-false flag vector has no `true`.
proof fn lemma_num_true_zero(s: Seq<bool>)
    requires
        forall|j: int| 0 <= j < s.len() ==> !s[j],
    ensures
        num_true(s) == 0,
    decreases s.len(),
{
    if s.len() > 0 {
        lemma_num_true_zero(s.drop_last());
    }
}

/// Not all flags are set when fewer than all are counted.
proof fn lemma_exists_false(s: Seq<bool>)
    requires
        num_true(s) < s.len(),
    ensures
        exists|i: int| 0 <= i < s.len() && !s[i],
    decreases s.len(),
{
    lemma_num_true_bound(s.drop_last());
    if s.len() > 0 {
        if s.last() {
            lemma_exists_false(s.drop_last());
            let i = choose|i: int| 0 <= i < s.len() - 1 && !s.drop_last()[i];
            assert(!s[i]);
        } else {
            assert(!s[s.len() - 1]);
        }
    }
}

/// Builds the planning error naming the steps that are stuck on each other.
#[verifier::rlimit(100)]
#[verifier::spinoff_prover]
fn stuck_error(names: &Vec<String>, scheduled: &Vec<bool>, deps: &Vec<Vec<String>>) -> (r:
    PlanError)
    requires
        scheduled@.len() == names@.len(),
        deps@.len() == names@.len(),
        num_true(scheduled@) < names@.len(),
        forall|i: int, k: int|
            0 <= i < deps@.len() && 0 <= k < name_views(deps@[i]).len() ==> contains_name(
                name_views(*names),
                #[trigger] name_views(deps@[i])[k],
            ),
        forall|j: int|
            0 <= j < names@.len() && !scheduled@[j] ==> !deps_ready(
                name_views(*names),
                scheduled@,
                #[trigger] deps@[j],
            ),
    ensures
        ({
            let nv = name_views(*names);
            match r {
                PlanError::CyclicDependency { steps } => {
                    let rv = name_views(steps);
                    &&& rv.len() > 0
                    &&& forall|t: int| 0 <= t < rv.len() ==> contains_name(nv, #[trigger] rv[t])
                    &&& forall|t: int|
                        #![trigger rv[t]]
                        0 <= t < rv.len() ==> (exists|i: int, k: int|
                            0 <= i < nv.len() && nv[i] == rv[t] && 0 <= k < name_views(
                                deps@[i],
                            ).len() && contains_name(rv, name_views(deps@[i])[k]))
                },
            }
        }),
{
    let ghost nv = name_views(*names);
    let ghost sv0 = scheduled@;
    let remaining: Vec<String> = collect_remaining(names, scheduled);
    proof {
        lemma_num_true_bound(sv0);
        assert(exists|i2: int| 0 <= i2 < sv0.len() && !sv0[i2]) by {
            lemma_exists_false(sv0);
        }
        lemma_stuck(nv, sv0, name_views(remaining), deps@, names@.len() as int);
    }
    PlanError::CyclicDependency { steps: remaining }
}

/// Collects the names of the steps whose flag is clear.
fn collect_remaining(names: &Vec<String>, scheduled: &Vec<bool>) -> (remaining: Vec<String>)
    requires
        scheduled@.len() == names@.len(),
    ensures
        ({
            let nv = name_views(*names);
            let sv0 = scheduled@;
            &&& forall|t2: int|
                0 <= t2 < name_views(remaining).len() ==> unsched_name(
                    nv,
                    sv0,
                    #[trigger] name_views(remaining)[t2],
                )
            &&& forall|i2: int|
                0 <= i2 < names@.len() && !sv0[i2] ==> contains_name(
                    name_views(remaining),
                    nv[i2],
                )
        }),
{
    let n: usize = names.len();
    let ghost nv = name_views(*names);
    let ghost sv0 = scheduled@;
    let mut remaining: Vec<String> = Vec::new();    let mut j: usize = 0;
    while j < n
        invariant
            j <= n,
            n == names@.len(),
            nv == name_views(*names),
            scheduled@ == sv0,
            sv0.len() == n,
            forall|t2: int|
                0 <= t2 < name_views(remaining).len() ==> unsched_name(
                    nv,
                    sv0,
                    #[trigger] name_views(remaining)[t2],
                ),
            forall|i2: int|
                0 <= i2 < j && !sv0[i2] ==> contains_name(name_views(remaining), nv[i2]),
        decreases n - j,
    {
        if !scheduled[j] {
            let ghost before_rem = name_views(remaining);
            remaining.push(names[j].clone());
            proof {
                assert(name_views(remaining) =~= before_rem.push(nv[j as int]));
                assert(name_views(remaining)[before_rem.len() as int] == nv[j as int]);
                assert forall|t2: int|
                    0 <= t2 < name_views(remaining).len() implies unsched_name(
                    nv,
                    sv0,
                    #[trigger] name_views(remaining)[t2],
                ) by {
                    if t2 < before_rem.len() {
                        assert(name_views(remaining)[t2] == before_rem[t2]);
                        assert(unsched_name(nv, sv0, before_rem[t2]));
                    } else {
                        assert(name_views(remaining)[t2] == nv[j as int]);
                        assert(!sv0[j as int] && nv[j as int] == name_views(remaining)[t2]);
                    }
                }
                assert forall|i2: int|
                    0 <= i2 < j + 1 && !sv0[i2] implies contains_name(
                    name_views(remaining),
                    nv[i2],
                ) by {
                    if i2 < j {
                        assert(contains_name(before_rem, nv[i2]));
                        let t3 = choose|t3: int|
                            0 <= t3 < before_rem.len() && before_rem[t3] == nv[i2];
                        assert(name_views(remaining)[t3] == nv[i2]);
                    } else {
                        assert(name_views(remaining)[before_rem.len() as int] == nv[i2]);
                    }
                }
            }
        }
        j += 1;
    }
    remaining
}

/// When nothing could be picked, the unscheduled steps form a stuck set:
/// each has an unscheduled dependency, which is itself in the set.
proof fn lemma_stuck(
    nv: Seq<Seq<char>>,
    sv0: Seq<bool>,
    rv: Seq<Seq<char>>,
    dv: Seq<Vec<String>>,
    n: int,
)
    requires
        nv.len() == n,
        sv0.len() == n,
        dv.len() == n,
        exists|i2: int| 0 <= i2 < n && !sv0[i2],
        forall|i: int, k: int|
            0 <= i < dv.len() && 0 <= k < name_views(dv[i]).len() ==> contains_name(
                nv,
                #[trigger] name_views(dv[i])[k],
            ),
        forall|j: int|
            0 <= j < n && !sv0[j] ==> !deps_ready(nv, sv0, #[trigger] dv[j]),
        forall|t2: int| 0 <= t2 < rv.len() ==> unsched_name(nv, sv0, #[trigger] rv[t2]),
        forall|i2: int| 0 <= i2 < n && !sv0[i2] ==> contains_name(rv, nv[i2]),
    ensures
        rv.len() > 0,
        forall|t: int| 0 <= t < rv.len() ==> contains_name(nv, #[trigger] rv[t]),
        forall|t: int|
            #![trigger rv[t]]
            0 <= t < rv.len() ==> (exists|i: int, k: int|
                0 <= i < nv.len() && nv[i] == rv[t] && 0 <= k < name_views(dv[i]).len()
                    && contains_name(rv, name_views(dv[i])[k])),
{
    let w = choose|i2: int| 0 <= i2 < n && !sv0[i2];
    assert(contains_name(rv, nv[w]));
    assert(rv.len() > 0);
    assert forall|t: int| 0 <= t < rv.len() implies contains_name(nv, #[trigger] rv[t]) by {
        assert(unsched_name(nv, sv0, rv[t]));
        let i2 = choose|i2: int| 0 <= i2 < nv.len() && !sv0[i2] && nv[i2] == rv[t];
        assert(nv[i2] == rv[t]);
    }
    assert forall|t: int|
        0 <= t < rv.len() implies (exists|i: int, k: int|
        0 <= i < nv.len() && nv[i] == #[trigger] rv[t] && 0 <= k < name_views(dv[i]).len()
            && contains_name(rv, name_views(dv[i])[k])) by {
        assert(unsched_name(nv, sv0, rv[t]));
        let i2 = choose|i2: int| 0 <= i2 < nv.len() && !sv0[i2] && nv[i2] == rv[t];
        assert(!deps_ready(nv, sv0, dv[i2]));
        assert(exists|k2: int|
            0 <= k2 < name_views(dv[i2]).len() && !sched_name(nv, sv0, name_views(dv[i2])[k2]))
            by {
            if forall|k2: int|
                0 <= k2 < name_views(dv[i2]).len() ==> sched_name(
                    nv,
                    sv0,
                    #[trigger] name_views(dv[i2])[k2],
                ) {
                assert(deps_ready(nv, sv0, dv[i2]));
                assert(false);
            }
        }
        let k2 = choose|k2: int|
            0 <= k2 < name_views(dv[i2]).len() && !sched_name(nv, sv0, name_views(dv[i2])[k2]);
        let d = name_views(dv[i2])[k2];
        assert(contains_name(nv, d));
        let j3 = choose|j3: int| 0 <= j3 < nv.len() && nv[j3] == d;
        assert(!sv0[j3]);
        assert(contains_name(rv, nv[j3]));
    }
}

/// Appending one maximal layer of ready steps preserves every planning
/// invariant.
proof fn lemma_layer_step(
    lv0: Seq<Seq<Seq<char>>>,
    lv: Seq<Seq<Seq<char>>>,
    layer_nv: Seq<Seq<char>>,
    nv: Seq<Seq<char>>,
    sv0: Seq<bool>,
    sv: Seq<bool>,
    picked: Seq<usize>,
    dv: Seq<Vec<String>>,
)
    requires
        lv == lv0.push(layer_nv),
        layer_nv.len() == picked.len(),
        picked.len() >= 1,
        sv0.len() == nv.len(),
        sv.len() == nv.len(),
        dv.len() == nv.len(),
        names_unique(nv),
        forall|q: int|
            0 <= q < picked.len() ==> 0 <= #[trigger] picked[q] < nv.len() && !sv0[
                picked[q] as int
            ] && layer_nv[q] == nv[picked[q] as int],
        forall|q1: int, q2: int| 0 <= q1 < q2 < picked.len() ==> picked[q1] != picked[q2],
        forall|q: int|
            #![trigger picked[q]]
            0 <= q < picked.len() ==> (forall|k: int|
                0 <= k < name_views(dv[picked[q] as int]).len() ==> sched_name(
                    nv,
                    sv0,
                    #[trigger] name_views(dv[picked[q] as int])[k],
                )),
        forall|j: int|
            0 <= j < nv.len() && !sv0[j] && (forall|k: int|
                0 <= k < name_views(dv[j]).len() ==> sched_name(
                    nv,
                    sv0,
                    #[trigger] name_views(dv[j])[k],
                )) ==> picked_has(picked, j),
        forall|j: int|
            0 <= j < nv.len() ==> ((#[trigger] sv[j]) <==> (sv0[j] || picked_has(picked, j))),
        forall|j: int|
            0 <= j < nv.len() ==> ((#[trigger] sv0[j]) <==> in_layers(lv0, lv0.len() as int, nv[j])),
        forall|a: int| 0 <= a < lv0.len() ==> (#[trigger] lv0[a]).len() > 0,
        forall|a: int, b: int|
            0 <= a < lv0.len() && 0 <= b < lv0[a].len() ==> contains_name(nv, #[trigger] lv0[a][b]),
        forall|a1: int, b1: int, a2: int, b2: int|
            0 <= a1 < lv0.len() && 0 <= b1 < lv0[a1].len() && 0 <= a2 < lv0.len() && 0 <= b2
                < lv0[a2].len() && (a1 != a2 || b1 != b2) ==> #[trigger] lv0[a1][b1] != #[trigger]
            lv0[a2][b2],
        forall|a: int, i: int|
            #![trigger contains_name(lv0[a], nv[i])]
            0 <= a < lv0.len() && 0 <= i < nv.len() && contains_name(
                lv0[a],
                nv[i],
            ) ==> (forall|k: int|
                0 <= k < name_views(dv[i]).len() ==> in_layers(
                    lv0,
                    a,
                    #[trigger] name_views(dv[i])[k],
                )),
        forall|a: int, i: int|
            #![trigger in_layers(lv0, a, nv[i])]
            0 <= a < lv0.len() && 0 <= i < nv.len() && !in_layers(lv0, a, nv[i]) && (
            forall|k: int|
                0 <= k < name_views(dv[i]).len() ==> in_layers(
                    lv0,
                    a,
                    #[trigger] name_views(dv[i])[k],
                )) ==> contains_name(lv0[a], nv[i]),
    ensures
        forall|j: int|
            0 <= j < nv.len() ==> ((#[trigger] sv[j]) <==> in_layers(lv, lv.len() as int, nv[j])),
        forall|a: int| 0 <= a < lv.len() ==> (#[trigger] lv[a]).len() > 0,
        forall|a: int, b: int|
            0 <= a < lv.len() && 0 <= b < lv[a].len() ==> contains_name(nv, #[trigger] lv[a][b]),
        forall|a1: int, b1: int, a2: int, b2: int|
            0 <= a1 < lv.len() && 0 <= b1 < lv[a1].len() && 0 <= a2 < lv.len() && 0 <= b2
                < lv[a2].len() && (a1 != a2 || b1 != b2) ==> #[trigger] lv[a1][b1] != #[trigger]
            lv[a2][b2],
        forall|a: int, i: int|
            #![trigger contains_name(lv[a], nv[i])]
            0 <= a < lv.len() && 0 <= i < nv.len() && contains_name(
                lv[a],
                nv[i],
            ) ==> (forall|k: int|
                0 <= k < name_views(dv[i]).len() ==> in_layers(
                    lv,
                    a,
                    #[trigger] name_views(dv[i])[k],
                )),
        forall|a: int, i: int|
            #![trigger in_layers(lv, a, nv[i])]
            0 <= a < lv.len() && 0 <= i < nv.len() && !in_layers(lv, a, nv[i]) && (
            forall|k: int|
                0 <= k < name_views(dv[i]).len() ==> in_layers(
                    lv,
                    a,
                    #[trigger] name_views(dv[i])[k],
                )) ==> contains_name(lv[a], nv[i]),
{
    // Membership in the first lv0.len() layers is unchanged.
    assert forall|x: Seq<char>, a: int|
        0 <= a <= lv0.len() implies (in_layers(lv, a, x) <==> in_layers(lv0, a, x)) by {
        assert forall|a2: int| 0 <= a2 < a && a2 < lv0.len() implies lv[a2] == lv0[a2] by {}
        if in_layers(lv, a, x) {
            let a2 = choose|a2: int| 0 <= a2 < a && a2 < lv.len() && contains_name(lv[a2], x);
            assert(contains_name(lv0[a2], x));
        }
        if in_layers(lv0, a, x) {
            let a2 = choose|a2: int| 0 <= a2 < a && a2 < lv0.len() && contains_name(lv0[a2], x);
            assert(contains_name(lv[a2], x));
        }
    }
    // Scheduled flags now reflect membership including the new layer.
    assert forall|j: int|
        0 <= j < nv.len() implies ((#[trigger] sv[j]) <==> in_layers(lv, lv.len() as int, nv[j]))
        by {
        if sv[j] {
            if sv0[j] {
                assert(in_layers(lv0, lv0.len() as int, nv[j]));
                assert(in_layers(lv, lv0.len() as int, nv[j]));
            } else {
                let q = choose|q: int| 0 <= q < picked.len() && picked[q] == j;
                assert(layer_nv[q] == nv[j]);
                assert(contains_name(lv[lv0.len() as int], nv[j]));
            }
        }
        if in_layers(lv, lv.len() as int, nv[j]) && !sv[j] {
            let a = choose|a: int|
                0 <= a < lv.len() && a < lv.len() && contains_name(lv[a], nv[j]);
            if a < lv0.len() {
                assert(in_layers(lv0, lv0.len() as int, nv[j]));
            } else {
                let b = choose|b: int| 0 <= b < layer_nv.len() && layer_nv[b] == nv[j];
                assert(picked[b] as int == j) by {
                    assert(nv[picked[b] as int] == nv[j]);
                    if picked[b] as int != j {
                        assert(names_unique(nv));
                        assert(false);
                    }
                }
            }
            assert(false);
        }
    }
    // Every new-layer member is a step name.
    assert forall|a: int, b: int|
        0 <= a < lv.len() && 0 <= b < lv[a].len() implies contains_name(nv, #[trigger] lv[a][b])
        by {
        if a == lv0.len() {
            assert(lv[a][b] == layer_nv[b]);
            assert(layer_nv[b] == nv[picked[b] as int]);
        }
    }
    // No name appears twice.
    assert forall|a1: int, b1: int, a2: int, b2: int|
        0 <= a1 < lv.len() && 0 <= b1 < lv[a1].len() && 0 <= a2 < lv.len() && 0 <= b2
            < lv[a2].len() && (a1 != a2 || b1 != b2) implies #[trigger] lv[a1][b1] != #[trigger]
        lv[a2][b2] by {
        if a1 == lv0.len() && a2 == lv0.len() {
            assert(lv[a1][b1] == nv[picked[b1] as int]);
            assert(lv[a2][b2] == nv[picked[b2] as int]);
            assert(picked[b1] != picked[b2]);
        } else if a1 == lv0.len() {
            assert(lv[a1][b1] == nv[picked[b1] as int]);
            assert(!sv0[picked[b1] as int]);
            if lv[a1][b1] == lv[a2][b2] {
                assert(contains_name(lv0[a2], nv[picked[b1] as int]));
                assert(in_layers(lv0, lv0.len() as int, nv[picked[b1] as int]));
                assert(false);
            }
        } else if a2 == lv0.len() {
            assert(lv[a2][b2] == nv[picked[b2] as int]);
            assert(!sv0[picked[b2] as int]);
            if lv[a1][b1] == lv[a2][b2] {
                assert(contains_name(lv0[a1], nv[picked[b2] as int]));
                assert(in_layers(lv0, lv0.len() as int, nv[picked[b2] as int]));
                assert(false);
            }
        }
    }
    // Dependencies of each layer member lie strictly earlier.
    assert forall|a: int, i: int|
        #![trigger contains_name(lv[a], nv[i])]
        0 <= a < lv.len() && 0 <= i < nv.len() && contains_name(
            lv[a],
            nv[i],
        ) implies (forall|k: int|
        0 <= k < name_views(dv[i]).len() ==> in_layers(lv, a, #[trigger] name_views(dv[i])[k]))
        by {
        if a < lv0.len() {
            assert(contains_name(lv0[a], nv[i]));
            assert forall|k: int|
                0 <= k < name_views(dv[i]).len() implies in_layers(lv, a, #[trigger] name_views(
                dv[i])[k]) by {
                assert(in_layers(lv0, a, name_views(dv[i])[k]));
            }
        } else {
            let b = choose|b: int| 0 <= b < layer_nv.len() && layer_nv[b] == nv[i];
            assert(picked[b] as int == i) by {
                if picked[b] as int != i {
                    assert(nv[picked[b] as int] == nv[i]);
                    assert(false);
                }
            }
            assert forall|k: int|
                0 <= k < name_views(dv[i]).len() implies in_layers(lv, a, #[trigger] name_views(
                dv[i])[k]) by {
                assert(sched_name(nv, sv0, name_views(dv[i])[k]));
                let j = choose|j: int|
                    0 <= j < nv.len() && nv[j] == name_views(dv[i])[k] && sv0[j];
                assert(in_layers(lv0, lv0.len() as int, nv[j]));
                assert(in_layers(lv, lv0.len() as int, nv[j]));
            }
        }
    }
    // Each layer is maximal.
    assert forall|a: int, i: int|
        #![trigger in_layers(lv, a, nv[i])]
        0 <= a < lv.len() && 0 <= i < nv.len() && !in_layers(lv, a, nv[i]) && (forall|k: int|
            0 <= k < name_views(dv[i]).len() ==> in_layers(
                lv,
                a,
                #[trigger] name_views(dv[i])[k],
            )) implies contains_name(lv[a], nv[i]) by {
        if a < lv0.len() {
            assert(!in_layers(lv0, a, nv[i]));
            assert forall|k: int|
                0 <= k < name_views(dv[i]).len() implies in_layers(lv0, a, #[trigger] name_views(
                dv[i])[k]) by {
                assert(in_layers(lv, a, name_views(dv[i])[k]));
            }
            assert(contains_name(lv0[a], nv[i]));
        } else {
            // The step was unscheduled and all its dependencies were
            // scheduled, so the collection loop picked it.
            assert(!sv0[i]) by {
                if sv0[i] {
                    assert(in_layers(lv0, lv0.len() as int, nv[i]));
                    assert(in_layers(lv, a, nv[i]));
                }
            }
            assert forall|k: int|
                0 <= k < name_views(dv[i]).len() implies sched_name(nv, sv0, #[trigger]
            name_views(dv[i])[k]) by {
                assert(in_layers(lv, lv0.len() as int, name_views(dv[i])[k]));
                assert(in_layers(lv0, lv0.len() as int, name_views(dv[i])[k]));
                let a2 = choose|a2: int|
                    0 <= a2 < lv0.len() && contains_name(lv0[a2], name_views(dv[i])[k]);
                let b2 = choose|b2: int|
                    0 <= b2 < lv0[a2].len() && lv0[a2][b2] == name_views(dv[i])[k];
                assert(contains_name(nv, lv0[a2][b2]));
                let j = choose|j: int| 0 <= j < nv.len() && nv[j] == lv0[a2][b2];
                assert(in_layers(lv0, lv0.len() as int, nv[j]));
                assert(sv0[j]);
            }
            let q = choose|q: int| 0 <= q < picked.len() && picked[q] == i;
            assert(layer_nv[q] == nv[i]);
            assert(contains_name(layer_nv, nv[i]));
        }
    }
}

} // verus!
