//! Cross-page schema unification and table loading. Every binding of every
//! page is scanned exactly once: a variable observed with one and the same
//! declared datatype throughout maps to that datatype's storage type, and
//! any disagreement, or no declaration at all, falls back to text. Row
//! values are always carried as text; inference only picks the destination
//! column type.
use vstd::prelude::*;
use crate::duckdb_util::{escape_sql_identifier, escape_sql_literal, quoted};
use crate::text::{push_char, str_eq};

verus! {

/// One typed term of a result row, as the endpoint declares it.
pub struct Value {
    /// The wire `type` field: `uri`, `literal` or `bnode`.
    pub value_type: String,
    /// The wire `xml:lang` tag, if any.
    pub xml_lang: Option<String>,
    /// The declared datatype IRI, if any.
    pub datatype: Option<String>,
    /// The lexical value, always carried as text.
    pub value: String,
}

/// One result row: variable name to typed term, in wire order.
pub struct Binding {
    pub values: Vec<(String, Value)>,
}

/// The rows of one page.
pub struct Results {
    pub bindings: Vec<Binding>,
}

/// The variable list a page's header declares.
pub struct Head {
    pub vars: Vec<String>,
}

/// One page of results, as decoded from the result payload.
pub struct SparqlResults {
    pub head: Head,
    pub results: Results,
}

/// The number of bindings a page holds: what drives the continuation
/// decision of the fetch loop.
pub fn num_bindings(result: &SparqlResults) -> (r: usize)
    ensures
        r == result.results.bindings@.len(),
{
    result.results.bindings.len()
}

/// The (variable, datatype) observations of a row's terms, in order,
/// keeping only terms with a declared datatype.
pub open spec fn pairs_obs(ps: Seq<(String, Value)>) -> Seq<(Seq<char>, Seq<char>)>
    decreases ps.len(),
{
    if ps.len() == 0 {
        Seq::empty()
    } else {
        pairs_obs(ps.drop_last()) + (match ps.last().1.datatype {
            Some(d) => seq![(ps.last().0@, d@)],
            None => Seq::empty(),
        })
    }
}

/// The observations of a page's rows, in row order.
pub open spec fn bindings_obs(bs: Seq<Binding>) -> Seq<(Seq<char>, Seq<char>)>
    decreases bs.len(),
{
    if bs.len() == 0 {
        Seq::empty()
    } else {
        bindings_obs(bs.drop_last()) + pairs_obs(bs.last().values@)
    }
}

/// The observations of all pages, in page order.
pub open spec fn pages_obs(ps: Seq<SparqlResults>) -> Seq<(Seq<char>, Seq<char>)>
    decreases ps.len(),
{
    if ps.len() == 0 {
        Seq::empty()
    } else {
        pages_obs(ps.drop_last()) + bindings_obs(ps.last().results.bindings@)
    }
}

/// The views of an observation list.
pub open spec fn obs_views(s: Seq<(String, String)>) -> Seq<(Seq<char>, Seq<char>)> {
    s.map_values(|p: (String, String)| (p.0@, p.1@))
}

/// The datatypes declared for `v`, in observation order.
pub open spec fn var_dts(obs: Seq<(Seq<char>, Seq<char>)>, v: Seq<char>) -> Seq<Seq<char>>
    decreases obs.len(),
{
    if obs.len() == 0 {
        Seq::empty()
    } else {
        var_dts(obs.drop_last(), v) + (if obs.last().0 == v {
            seq![obs.last().1]
        } else {
            Seq::empty()
        })
    }
}

/// The one datatype `v` is consistently declared with, if it is observed
/// at all and never with a different declaration.
pub open spec fn consistent_type(obs: Seq<(Seq<char>, Seq<char>)>, v: Seq<char>) -> Option<
    Seq<char>,
> {
    let dts = var_dts(obs, v);
    if dts.len() > 0 && all_agree(dts) {
        Some(dts[0])
    } else {
        None
    }
}

/// All datatypes in `dts` agree with the first one.
pub open spec fn all_agree(dts: Seq<Seq<char>>) -> bool {
    forall|j: int| 0 <= j < dts.len() ==> #[trigger] dts[j] == dts[0]
}

/// Flattens all pages into their (variable, datatype) observations, in
/// page, row and term order.
fn collect_observations(pages: &Vec<SparqlResults>) -> (obs: Vec<(String, String)>)
    ensures
        obs_views(obs@) == pages_obs(pages@),
{
    let mut obs: Vec<(String, String)> = Vec::new();
    let np = pages.len();
    proof {
        assert(pages@.take(0) =~= Seq::<SparqlResults>::empty());
        assert(obs_views(obs@) =~= pages_obs(pages@.take(0)));
    }
    for pi in 0..np
        invariant
            np == pages.len(),
            obs_views(obs@) == pages_obs(pages@.take(pi as int)),
    {
        let bs = &pages[pi].results.bindings;
        let nb = bs.len();
        proof {
            assert(bs@.take(0) =~= Seq::<Binding>::empty());
            assert(obs_views(obs@) + bindings_obs(bs@.take(0)) =~= pages_obs(
                pages@.take(pi as int),
            ));
        }
        for bi in 0..nb
            invariant
                np == pages.len(),
                nb == bs@.len(),
                bs@ == pages@[pi as int].results.bindings@,
                pi < np,
                obs_views(obs@) == pages_obs(pages@.take(pi as int)) + bindings_obs(
                    bs@.take(bi as int),
                ),
        {
            let prs = &bs[bi].values;
            let nk = prs.len();
            proof {
                assert(prs@.take(0) =~= Seq::<(String, Value)>::empty());
                assert(obs_views(obs@) + pairs_obs(prs@.take(0)) =~= pages_obs(
                    pages@.take(pi as int),
                ) + bindings_obs(bs@.take(bi as int)));
            }
            for ki in 0..nk
                invariant
                    np == pages.len(),
                    nb == bs@.len(),
                    bs@ == pages@[pi as int].results.bindings@,
                    pi < np,
                    bi < nb,
                    nk == prs@.len(),
                    prs@ == bs@[bi as int].values@,
                    obs_views(obs@) == pages_obs(pages@.take(pi as int)) + bindings_obs(
                        bs@.take(bi as int),
                    ) + pairs_obs(prs@.take(ki as int)),
            {
                proof {
                    assert(prs@.take(ki + 1).drop_last() =~= prs@.take(ki as int));
                    assert(prs@.take(ki + 1).last() == prs@[ki as int]);
                }
                let ghost o0 = obs@;
                match &prs[ki].1.datatype {
                    Some(d) => {
                        obs.push((prs[ki].0.clone(), d.clone()));
                        proof {
                            assert(prs@[ki as int].1.datatype == Some(*d));
                            assert(obs_views(obs@) =~= obs_views(o0).push(
                                (prs@[ki as int].0@, d@),
                            ));
                            assert(pairs_obs(prs@.take(ki + 1)) =~= pairs_obs(
                                prs@.take(ki as int),
                            ) + seq![(prs@[ki as int].0@, d@)]);
                            assert(obs_views(obs@) =~= pages_obs(pages@.take(pi as int))
                                + bindings_obs(bs@.take(bi as int)) + pairs_obs(
                                prs@.take(ki + 1),
                            ));
                        }
                    },
                    None => {
                        proof {
                            assert(obs_views(obs@) =~= pages_obs(pages@.take(pi as int))
                                + bindings_obs(bs@.take(bi as int)) + pairs_obs(
                                prs@.take(ki + 1),
                            ));
                        }
                    },
                }
            }
            proof {
                assert(prs@.take(nk as int) =~= prs@);
                assert(bs@.take(bi + 1).drop_last() =~= bs@.take(bi as int));
                assert(bs@.take(bi + 1).last() == bs@[bi as int]);
                assert(obs_views(obs@) =~= pages_obs(pages@.take(pi as int)) + bindings_obs(
                    bs@.take(bi + 1),
                ));
            }
        }
        proof {
            assert(bs@.take(nb as int) =~= bs@);
            assert(pages@.take(pi + 1).drop_last() =~= pages@.take(pi as int));
            assert(pages@.take(pi + 1).last() == pages@[pi as int]);
            assert(obs_views(obs@) =~= pages_obs(pages@.take(pi + 1)));
        }
    }
    proof {
        assert(pages@.take(np as int) =~= pages@);
    }
    obs
}

/// The first mapping of `v` in an association list, if any.
pub open spec fn type_lookup(s: Seq<(String, String)>, v: Seq<char>) -> Option<Seq<char>>
    decreases s.len(),
{
    if s.len() == 0 {
        None
    } else if s[0].0@ == v {
        Some(s[0].1@)
    } else {
        type_lookup(s.drop_first(), v)
    }
}

proof fn lemma_type_lookup_push(s: Seq<(String, String)>, e: (String, String), v: Seq<char>)
    ensures
        type_lookup(s.push(e), v) == (if type_lookup(s, v) is Some {
            type_lookup(s, v)
        } else if e.0@ == v {
            Some(e.1@)
        } else {
            None::<Seq<char>>
        }),
    decreases s.len(),
{
    if s.len() == 0 {
        assert(s.push(e)[0] == e);
        assert(s.push(e).drop_first() =~= Seq::<(String, String)>::empty());
        assert(type_lookup(s.push(e).drop_first(), v) is None);
        assert(type_lookup(s, v) is None);
        if e.0@ == v {
            assert(type_lookup(s.push(e), v) == Some(e.1@));
        } else {
            assert(type_lookup(s.push(e), v) is None);
        }
    } else {
        assert(s.push(e)[0] == s[0]);
        if s[0].0@ == v {
            assert(type_lookup(s.push(e), v) == Some(s[0].1@));
            assert(type_lookup(s, v) == Some(s[0].1@));
        } else {
            assert(s.push(e).drop_first() =~= s.drop_first().push(e));
            lemma_type_lookup_push(s.drop_first(), e, v);
            assert(type_lookup(s.push(e), v) == type_lookup(s.drop_first().push(e), v));
            assert(type_lookup(s, v) == type_lookup(s.drop_first(), v));
        }
    }
}

proof fn lemma_type_lookup_absent(s: Seq<(String, String)>, v: Seq<char>)
    requires
        forall|j: int| 0 <= j < s.len() ==> (#[trigger] s[j]).0@ != v,
    ensures
        type_lookup(s, v) is None,
    decreases s.len(),
{
    if s.len() > 0 {
        assert forall|j: int| 0 <= j < s.drop_first().len() implies (#[trigger] s.drop_first()[
            j
        ]).0@ != v by {
            assert(s.drop_first()[j] == s[j + 1]);
        }
        lemma_type_lookup_absent(s.drop_first(), v);
    }
}

/// A variable that no observation names has no declared datatypes.
proof fn lemma_var_dts_absent(obs: Seq<(Seq<char>, Seq<char>)>, v: Seq<char>)
    requires
        forall|j: int| 0 <= j < obs.len() ==> (#[trigger] obs[j]).0 != v,
    ensures
        var_dts(obs, v).len() == 0,
    decreases obs.len(),
{
    if obs.len() > 0 {
        assert forall|j: int| 0 <= j < obs.drop_last().len() implies (#[trigger] obs.drop_last()[
            j
        ]).0 != v by {
            assert(obs.drop_last()[j] == obs[j]);
        }
        lemma_var_dts_absent(obs.drop_last(), v);
        assert(obs.last().0 != v);
    }
}

/// Scans all observations for one variable: its consistently declared
/// datatype, or nothing if it is unobserved or ever disagrees.
fn consistent_for(obs: &Vec<(String, String)>, v: &String) -> (r: Option<String>)
    ensures
        (match r {
            Some(t) => consistent_type(obs_views(obs@), v@) == Some(t@),
            None => consistent_type(obs_views(obs@), v@) is None,
        }),
{
    let mut has_first: bool = false;
    let mut first_val: String = String::new();
    let mut ok: bool = true;
    let n = obs.len();
    let ghost all = obs_views(obs@);
    proof {
        assert(all.take(0) =~= Seq::<(Seq<char>, Seq<char>)>::empty());
        assert(var_dts(all.take(0), v@).len() == 0);
    }
    for i in 0..n
        invariant
            n == obs.len(),
            all == obs_views(obs@),
            !has_first ==> ok && var_dts(all.take(i as int), v@).len() == 0,
            has_first ==> var_dts(all.take(i as int), v@).len() > 0,
            has_first ==> var_dts(all.take(i as int), v@)[0] == first_val@,
            has_first ==> (ok <==> all_agree(var_dts(all.take(i as int), v@))),
    {
        let ghost t1 = all.take(i + 1);
        proof {
            assert(t1.drop_last() =~= all.take(i as int));
            assert(t1.last() == all[i as int]);
            assert(all[i as int] == (obs@[i as int].0@, obs@[i as int].1@));
        }
        if str_eq(obs[i].0.as_str(), v.as_str()) {
            proof {
                assert(var_dts(t1, v@) =~= var_dts(all.take(i as int), v@).push(
                    obs@[i as int].1@,
                ));
            }
            if !has_first {
                has_first = true;
                first_val = obs[i].1.clone();
                proof {
                    let dts = var_dts(t1, v@);
                    assert(dts.len() == 1);
                    assert(dts[0] == obs@[i as int].1@);
                    assert(first_val@ == obs@[i as int].1@);
                    assert(all_agree(dts));
                }
            } else {
                if !str_eq(first_val.as_str(), obs[i].1.as_str()) {
                    ok = false;
                    proof {
                        let dts0 = var_dts(all.take(i as int), v@);
                        let dts = var_dts(t1, v@);
                        assert(dts[0] == dts0[0]);
                        assert(dts[dts.len() - 1] == obs@[i as int].1@);
                        assert(dts[dts.len() - 1] != dts[0]);
                        assert(!all_agree(dts));
                    }
                } else {
                    proof {
                        let dts0 = var_dts(all.take(i as int), v@);
                        let dts = var_dts(t1, v@);
                        assert(dts[0] == dts0[0]);
                        if ok {
                            assert(all_agree(dts0));
                            assert forall|j: int| 0 <= j < dts.len() implies #[trigger] dts[j]
                                == dts[0] by {
                                if j < dts0.len() {
                                    assert(dts0[j] == dts0[0]);
                                    assert(dts[j] == dts0[j]);
                                } else {
                                    assert(dts[j] == obs@[i as int].1@);
                                    assert(obs@[i as int].1@ == first_val@);
                                }
                            }
                            assert(all_agree(dts));
                        } else {
                            assert(!all_agree(dts0));
                            let j = choose|j: int|
                                0 <= j < dts0.len() && #[trigger] dts0[j] != dts0[0];
                            assert(dts[j] == dts0[j]);
                            assert(dts[j] != dts[0]);
                            assert(!all_agree(dts));
                        }
                    }
                }
            }
        } else {
            proof {
                assert(var_dts(t1, v@) =~= var_dts(all.take(i as int), v@));
            }
        }
    }
    proof {
        assert(all.take(n as int) =~= all);
    }
    if !has_first {
        None
    } else if ok {
        Some(first_val)
    } else {
        None
    }
}

/// The distinct variable names the observations mention, in first
/// appearance order.
fn collect_vars(obs: &Vec<(String, String)>) -> (vars: Vec<String>)
    ensures
        forall|p: int, q: int|
            0 <= p < q < vars@.len() ==> (#[trigger] vars@[p])@ != (#[trigger] vars@[q])@,
        forall|j: int|
            0 <= j < obs@.len() ==> crate::catalog::name_views(vars@).contains(
                (#[trigger] obs@[j]).0@,
            ),
{
    let mut vars: Vec<String> = Vec::new();
    let n = obs.len();
    for i in 0..n
        invariant
            n == obs.len(),
            forall|p: int, q: int|
                0 <= p < q < vars@.len() ==> (#[trigger] vars@[p])@ != (#[trigger] vars@[q])@,
            forall|j: int|
                0 <= j < i ==> crate::catalog::name_views(vars@).contains(
                    (#[trigger] obs@[j]).0@,
                ),
    {
        let ghost v0 = vars@;
        if !crate::catalog::contains_name(&vars, &obs[i].0) {
            vars.push(obs[i].0.clone());
            proof {
                assert(crate::catalog::name_views(vars@)[vars@.len() - 1] == obs@[i as int].0@);
                assert forall|p: int, q: int|
                    0 <= p < q < vars@.len() implies (#[trigger] vars@[p])@ != (
                #[trigger] vars@[q])@ by {
                    if q == vars@.len() - 1 {
                        assert(crate::catalog::name_views(v0)[p] == v0[p]@);
                        assert(vars@[p] == v0[p]);
                        assert(vars@[q]@ == obs@[i as int].0@);
                    } else {
                        assert(vars@[p] == v0[p]);
                        assert(vars@[q] == v0[q]);
                    }
                }
                assert forall|j: int|
                    0 <= j <= i implies crate::catalog::name_views(vars@).contains(
                    (#[trigger] obs@[j]).0@,
                ) by {
                    if j < i {
                        let k = choose|k: int|
                            0 <= k < crate::catalog::name_views(v0).len()
                                && crate::catalog::name_views(v0)[k] == obs@[j].0@;
                        assert(crate::catalog::name_views(vars@)[k] == obs@[j].0@);
                    }
                }
            }
        }
    }
    vars
}

/// Derives, for every variable with a consistent declared datatype across
/// all pages, that one datatype; variables that are unobserved or that
/// disagree are absent and fall back to text downstream.
pub fn find_consistent_types(pages: &Vec<SparqlResults>) -> (r: Vec<(String, String)>)
    ensures
        forall|v: Seq<char>|
            #[trigger] type_lookup(r@, v) == consistent_type(pages_obs(pages@), v),
{
    let obs = collect_observations(pages);
    let vars = collect_vars(&obs);
    let ghost all = pages_obs(pages@);
    let mut out: Vec<(String, String)> = Vec::new();
    let n = vars.len();
    for i in 0..n
        invariant
            n == vars.len(),
            all == pages_obs(pages@),
            all == obs_views(obs@),
            forall|p: int, q: int|
                0 <= p < q < vars@.len() ==> (#[trigger] vars@[p])@ != (#[trigger] vars@[q])@,
            forall|j: int|
                0 <= j < obs@.len() ==> crate::catalog::name_views(vars@).contains(
                    (#[trigger] obs@[j]).0@,
                ),
            forall|v: Seq<char>|
                #[trigger] type_lookup(out@, v) == (if crate::catalog::name_views(
                    vars@.take(i as int),
                ).contains(v) {
                    consistent_type(all, v)
                } else {
                    None::<Seq<char>>
                }),
    {
        let ghost o0 = out@;
        let ct = consistent_for(&obs, &vars[i]);
        match ct {
            Some(t) => {
                out.push((vars[i].clone(), t));
                proof {
                    assert(type_lookup(o0, vars@[i as int]@) is None) by {
                        assert(!crate::catalog::name_views(vars@.take(i as int)).contains(
                            vars@[i as int]@,
                        )) by {
                            assert forall|k: int|
                                0 <= k < vars@.take(i as int).len() implies #[trigger] crate::catalog::name_views(
                                vars@.take(i as int),
                            )[k] != vars@[i as int]@ by {
                                assert(crate::catalog::name_views(vars@.take(i as int))[k]
                                    == vars@[k]@);
                            }
                        }
                    }
                }
            },
            None => {},
        }
        proof {
            assert forall|k: int|
                0 <= k < crate::catalog::name_views(vars@.take(i as int)).len()
                    implies #[trigger] crate::catalog::name_views(vars@.take(i as int))[k]
                != vars@[i as int]@ by {
                assert(crate::catalog::name_views(vars@.take(i as int))[k] == vars@[k]@);
            }
            assert(!crate::catalog::name_views(vars@.take(i as int)).contains(
                vars@[i as int]@,
            ));
            assert forall|v: Seq<char>|
                #[trigger] type_lookup(out@, v) == (if crate::catalog::name_views(
                vars@.take(i + 1),
            ).contains(v) {
                consistent_type(all, v)
            } else {
                None::<Seq<char>>
            }) by {
                if out@.len() > o0.len() {
                    lemma_type_lookup_push(o0, out@[out@.len() - 1], v);
                }
                assert(crate::catalog::name_views(vars@.take(i + 1)) =~= crate::catalog::name_views(
                    vars@.take(i as int),
                ).push(vars@[i as int]@));
                if crate::catalog::name_views(vars@.take(i + 1)).contains(v) {
                    if v == vars@[i as int]@ {
                    } else {
                        let k = choose|k: int|
                            0 <= k < crate::catalog::name_views(vars@.take(i + 1)).len()
                                && #[trigger] crate::catalog::name_views(vars@.take(i + 1))[k]
                                == v;
                        assert(crate::catalog::name_views(vars@.take(i as int))[k] == v);
                        assert(crate::catalog::name_views(vars@.take(i as int)).contains(v));
                    }
                } else {
                    assert(!crate::catalog::name_views(vars@.take(i as int)).contains(v)) by {
                        if crate::catalog::name_views(vars@.take(i as int)).contains(v) {
                            let k = choose|k: int|
                                0 <= k < crate::catalog::name_views(vars@.take(i as int)).len()
                                    && #[trigger] crate::catalog::name_views(
                                    vars@.take(i as int),
                                )[k] == v;
                            assert(crate::catalog::name_views(vars@.take(i + 1))[k] == v);
                            assert(crate::catalog::name_views(vars@.take(i + 1)).contains(v));
                        }
                    }
                    assert(v != vars@[i as int]@) by {
                        assert(crate::catalog::name_views(vars@.take(i + 1))[vars@.take(
                            i + 1,
                        ).len() - 1] == vars@[i as int]@);
                    }
                }
            }
        }
    }
    proof {
        assert(vars@.take(n as int) =~= vars@);
        assert forall|v: Seq<char>|
            #[trigger] type_lookup(out@, v) == consistent_type(all, v) by {
            if !crate::catalog::name_views(vars@).contains(v) {
                assert forall|j: int| 0 <= j < all.len() implies (#[trigger] all[j]).0 != v by {
                    assert(all[j] == (obs@[j].0@, obs@[j].1@));
                    if obs@[j].0@ == v {
                        assert(crate::catalog::name_views(vars@).contains(obs@[j].0@));
                    }
                }
                lemma_var_dts_absent(all, v);
            }
        }
    }
    out
}


proof fn lemma_type_lookup_skip(s: Seq<(String, String)>, v: Seq<char>, i: int)
    requires
        0 <= i <= s.len(),
        forall|j: int| 0 <= j < i ==> (#[trigger] s[j]).0@ != v,
    ensures
        type_lookup(s, v) == type_lookup(s.skip(i), v),
    decreases i,
{
    if i == 0 {
        assert(s.skip(0) =~= s);
    } else {
        assert forall|j: int|
            0 <= j < i - 1 implies (#[trigger] s.drop_first()[j]).0@ != v by {
            assert(s.drop_first()[j] == s[j + 1]);
        }
        lemma_type_lookup_skip(s.drop_first(), v, i - 1);
        assert(s.drop_first().skip(i - 1) =~= s.skip(i));
    }
}

/// The first stored datatype for `var`, if one was inferred.
fn lookup_type(types: &Vec<(String, String)>, var: &str) -> (r: Option<String>)
    ensures
        (match r {
            Some(t) => type_lookup(types@, var@) == Some(t@),
            None => type_lookup(types@, var@) is None,
        }),
{
    let n = types.len();
    for i in 0..n
        invariant
            n == types.len(),
            forall|j: int| 0 <= j < i ==> (#[trigger] types@[j]).0@ != var@,
    {
        if str_eq(types[i].0.as_str(), var) {
            proof {
                lemma_type_lookup_skip(types@, var@, i as int);
                assert(types@.skip(i as int)[0] == types@[i as int]);
            }
            return Some(types[i].1.clone());
        }
    }
    proof {
        lemma_type_lookup_absent(types@, var@);
    }
    None
}

/// The storage type a declared datatype maps to: integers, doubles and
/// booleans keep a typed column, everything else is stored as text.
pub open spec fn spec_xsd_to_duckdb(t: Seq<char>) -> Seq<char> {
    if t == "http://www.w3.org/2001/XMLSchema#integer"@ {
        "INT64"@
    } else if t == "http://www.w3.org/2001/XMLSchema#double"@ {
        "DOUBLE"@
    } else if t == "http://www.w3.org/2001/XMLSchema#boolean"@ {
        "BOOLEAN"@
    } else {
        "VARCHAR"@
    }
}

/// Maps a declared datatype IRI to the destination column type.
pub fn xsd_type_to_duckdb_type(xml_type: &str) -> (r: &'static str)
    ensures
        r@ == spec_xsd_to_duckdb(xml_type@),
{
    if str_eq(xml_type, "http://www.w3.org/2001/XMLSchema#integer") {
        "INT64"
    } else if str_eq(xml_type, "http://www.w3.org/2001/XMLSchema#double") {
        "DOUBLE"
    } else if str_eq(xml_type, "http://www.w3.org/2001/XMLSchema#boolean") {
        "BOOLEAN"
    } else {
        "VARCHAR"
    }
}

/// The destination column type of one variable: its consistent datatype's
/// storage type, or text when it has none.
pub open spec fn column_type_of(types: Seq<(String, String)>, var: Seq<char>) -> Seq<char> {
    match type_lookup(types, var) {
        Some(t) => spec_xsd_to_duckdb(t),
        None => "VARCHAR"@,
    }
}

/// One `'var': 'TYPE'` entry of the column structure.
pub open spec fn column_entry(var: Seq<char>, types: Seq<(String, String)>) -> Seq<char> {
    quoted(var, '\'') + ": "@ + quoted(column_type_of(types, var), '\'')
}

/// The column entries of all variables, joined with a comma.
pub open spec fn joined_columns(vars: Seq<String>, types: Seq<(String, String)>) -> Seq<char>
    decreases vars.len(),
{
    if vars.len() == 0 {
        Seq::empty()
    } else if vars.len() == 1 {
        column_entry(vars[0]@, types)
    } else {
        joined_columns(vars.drop_last(), types) + ", "@ + column_entry(vars.last()@, types)
    }
}

/// Renders the `columns` structure handed to the storage engine: one
/// quoted `var: TYPE` entry per declared variable, in header order.
pub fn read_json_columns_struct(vars: &Vec<String>, consistent_types: &Vec<(String, String)>) -> (r:
    String)
    ensures
        r@ == seq!['{'] + joined_columns(vars@, consistent_types@) + seq!['}'],
{
    let mut s = String::new();
    push_char(&mut s, '{');
    let n = vars.len();
    for i in 0..n
        invariant
            n == vars.len(),
            s@ == seq!['{'] + joined_columns(vars@.take(i as int), consistent_types@),
    {
        proof {
            assert(vars@.take(i + 1).drop_last() =~= vars@.take(i as int));
            assert(vars@.take(i + 1).last() == vars@[i as int]);
            assert(vars@.take(i + 1)[0] == vars@[0]);
        }
        if i > 0 {
            vstd::string::StringExecFns::append(&mut s, ", ");
        }
        let esc_var = escape_sql_literal(vars[i].as_str());
        vstd::string::StringExecFns::append(&mut s, esc_var.as_str());
        vstd::string::StringExecFns::append(&mut s, ": ");
        let t: String = match lookup_type(consistent_types, vars[i].as_str()) {
            Some(t) => {
                let mapped = xsd_type_to_duckdb_type(t.as_str());
                escape_sql_literal(mapped)
            },
            None => escape_sql_literal("VARCHAR"),
        };
        vstd::string::StringExecFns::append(&mut s, t.as_str());
        proof {
            assert(s@ =~= seq!['{'] + joined_columns(vars@.take(i + 1), consistent_types@));
        }
    }
    proof {
        assert(vars@.take(n as int) =~= vars@);
    }
    push_char(&mut s, '}');
    proof {
        assert(s@ =~= seq!['{'] + joined_columns(vars@, consistent_types@) + seq!['}']);
    }
    s
}


/// One hexadecimal digit, lower case.
pub open spec fn hex_digit(n: int) -> char {
    if n == 0 { '0' } else if n == 1 { '1' } else if n == 2 { '2' } else if n == 3 { '3' }
    else if n == 4 { '4' } else if n == 5 { '5' } else if n == 6 { '6' } else if n == 7 { '7' }
    else if n == 8 { '8' } else if n == 9 { '9' } else if n == 10 { 'a' } else if n == 11 { 'b' }
    else if n == 12 { 'c' } else if n == 13 { 'd' } else if n == 14 { 'e' } else { 'f' }
}

/// A character as JSON escapes it inside a string: quote and backslash
/// escaped, the named control escapes, other control characters as a
/// `\u00..` sequence, everything else as itself.
pub open spec fn json_escape_char(c: char) -> Seq<char> {
    if c == '"' {
        seq!['\\', '"']
    } else if c == '\\' {
        seq!['\\', '\\']
    } else if c == '\u{8}' {
        seq!['\\', 'b']
    } else if c == '\t' {
        seq!['\\', 't']
    } else if c == '\n' {
        seq!['\\', 'n']
    } else if c == '\u{C}' {
        seq!['\\', 'f']
    } else if c == '\r' {
        seq!['\\', 'r']
    } else if (c as u32) < 32 {
        seq!['\\', 'u', '0', '0', hex_digit(c as u32 as int / 16), hex_digit(c as u32 as int % 16)]
    } else {
        seq![c]
    }
}

pub open spec fn json_escaped(s: Seq<char>) -> Seq<char>
    decreases s.len(),
{
    if s.len() == 0 {
        Seq::empty()
    } else {
        json_escaped(s.drop_last()) + json_escape_char(s.last())
    }
}

/// A JSON string literal holding `s`.
pub open spec fn json_str(s: Seq<char>) -> Seq<char> {
    seq!['"'] + json_escaped(s) + seq!['"']
}

/// The `"name":"value"` members of a row object, in term order; the value
/// is always the term's lexical text.
pub open spec fn row_members(ps: Seq<(String, Value)>) -> Seq<char>
    decreases ps.len(),
{
    if ps.len() == 0 {
        Seq::empty()
    } else if ps.len() == 1 {
        json_str(ps[0].0@) + seq![':'] + json_str(ps[0].1.value@)
    } else {
        row_members(ps.drop_last()) + seq![','] + json_str(ps.last().0@) + seq![':'] + json_str(
            ps.last().1.value@,
        )
    }
}

/// The JSON object a row is spilled as.
pub open spec fn row_json(ps: Seq<(String, Value)>) -> Seq<char> {
    seq!['{'] + row_members(ps) + seq!['}']
}

/// Appends the JSON string literal for `s` onto `out`.
fn append_json_str(out: &mut String, s: &str)
    ensures
        final(out)@ == old(out)@ + json_str(s@),
{
    let chars = crate::text::str_chars(s);
    push_char(out, '"');
    let n = chars.len();
    for i in 0..n
        invariant
            n == chars.len(),
            chars@ == s@,
            out@ == old(out)@ + seq!['"'] + json_escaped(chars@.take(i as int)),
    {
        proof {
            assert(chars@.take(i + 1).drop_last() =~= chars@.take(i as int));
            assert(chars@.take(i + 1).last() == chars@[i as int]);
        }
        let c = chars[i];
        let cu = c as u32;
        if c == '"' {
            push_char(out, '\\');
            push_char(out, '"');
        } else if c == '\\' {
            push_char(out, '\\');
            push_char(out, '\\');
        } else if c == '\u{8}' {
            push_char(out, '\\');
            push_char(out, 'b');
        } else if c == '\t' {
            push_char(out, '\\');
            push_char(out, 't');
        } else if c == '\n' {
            push_char(out, '\\');
            push_char(out, 'n');
        } else if c == '\u{C}' {
            push_char(out, '\\');
            push_char(out, 'f');
        } else if c == '\r' {
            push_char(out, '\\');
            push_char(out, 'r');
        } else if cu < 32 {
            push_char(out, '\\');
            push_char(out, 'u');
            push_char(out, '0');
            push_char(out, '0');
            let hi = hex_char(cu / 16);
            let lo = hex_char(cu % 16);
            push_char(out, hi);
            push_char(out, lo);
        } else {
            push_char(out, c);
        }
        proof {
            assert(out@ =~= old(out)@ + seq!['"'] + json_escaped(chars@.take(i + 1)));
        }
    }
    proof {
        assert(chars@.take(n as int) =~= chars@);
    }
    push_char(out, '"');
    proof {
        assert(final(out)@ =~= old(out)@ + json_str(s@));
    }
}

/// `hex_digit`, executably.
fn hex_char(n: u32) -> (r: char)
    requires
        n < 16,
    ensures
        r == hex_digit(n as int),
{
    if n == 0 { '0' } else if n == 1 { '1' } else if n == 2 { '2' } else if n == 3 { '3' }
    else if n == 4 { '4' } else if n == 5 { '5' } else if n == 6 { '6' } else if n == 7 { '7' }
    else if n == 8 { '8' } else if n == 9 { '9' } else if n == 10 { 'a' } else if n == 11 { 'b' }
    else if n == 12 { 'c' } else if n == 13 { 'd' } else if n == 14 { 'e' } else { 'f' }
}

/// Renders one row as the flat JSON object handed to the storage engine:
/// each variable mapped to its term's lexical text.
pub fn row_to_json(binding: &Binding) -> (r: String)
    ensures
        r@ == row_json(binding.values@),
{
    let mut s = String::new();
    push_char(&mut s, '{');
    let ps = &binding.values;
    let n = ps.len();
    for i in 0..n
        invariant
            n == ps@.len(),
            ps@ == binding.values@,
            s@ == seq!['{'] + row_members(ps@.take(i as int)),
    {
        proof {
            assert(ps@.take(i + 1).drop_last() =~= ps@.take(i as int));
            assert(ps@.take(i + 1).last() == ps@[i as int]);
            assert(ps@.take(i + 1)[0] == ps@[0]);
        }
        if i > 0 {
            push_char(&mut s, ',');
        }
        append_json_str(&mut s, ps[i].0.as_str());
        push_char(&mut s, ':');
        append_json_str(&mut s, ps[i].1.value.as_str());
        proof {
            assert(s@ =~= seq!['{'] + row_members(ps@.take(i + 1)));
        }
    }
    proof {
        assert(ps@.take(n as int) =~= ps@);
    }
    push_char(&mut s, '}');
    proof {
        assert(s@ =~= row_json(binding.values@));
    }
    s
}


/// The variable list the materialized table's columns come from: the one
/// declared by the most recently parsed page's header (pages that disagree
/// on their variable list are resolved in favour of the last).
pub fn header_vars(pages: &Vec<SparqlResults>) -> (r: Vec<String>)
    ensures
        pages@.len() == 0 ==> r@.len() == 0,
        pages@.len() > 0 ==> {
            &&& r@.len() == pages@.last().head.vars@.len()
            &&& (forall|i: int|
                0 <= i < r@.len() ==> (#[trigger] r@[i])@ == pages@.last().head.vars@[i]@)
        },
{
    let mut r: Vec<String> = Vec::new();
    if pages.len() == 0 {
        return r;
    }
    let vars = &pages[pages.len() - 1].head.vars;
    let n = vars.len();
    for i in 0..n
        invariant
            n == vars@.len(),
            vars@ == pages@.last().head.vars@,
            r@.len() == i,
            forall|j: int| 0 <= j < i ==> (#[trigger] r@[j])@ == vars@[j]@,
    {
        r.push(vars[i].clone());
    }
    r
}

/// Law: a variable declared with one and the same datatype in every
/// binding across all pages is typed as that datatype's storage type.
/// `types` is what schema unification derived from the pages.
pub proof fn lemma_uniform_datatype(
    pages: Seq<SparqlResults>,
    types: Seq<(String, String)>,
    v: Seq<char>,
    d: Seq<char>,
)
    requires
        forall|w: Seq<char>|
            #[trigger] type_lookup(types, w) == consistent_type(pages_obs(pages), w),
        var_dts(pages_obs(pages), v).len() > 0,
        forall|i: int|
            0 <= i < var_dts(pages_obs(pages), v).len() ==> #[trigger] var_dts(
                pages_obs(pages),
                v,
            )[i] == d,
    ensures
        column_type_of(types, v) == spec_xsd_to_duckdb(d),
{
    let dts = var_dts(pages_obs(pages), v);
    assert(dts[0] == d);
    assert(all_agree(dts)) by {
        assert forall|j: int| 0 <= j < dts.len() implies #[trigger] dts[j] == dts[0] by {
            assert(var_dts(pages_obs(pages), v)[j] == d);
        }
    }
    assert(consistent_type(pages_obs(pages), v) == Some(d));
    assert(type_lookup(types, v) == Some(d));
}

/// Law: a variable declared with two different datatypes anywhere across
/// the pages falls back to the text storage type.
pub proof fn lemma_conflicting_datatypes(
    pages: Seq<SparqlResults>,
    types: Seq<(String, String)>,
    v: Seq<char>,
    i: int,
    j: int,
)
    requires
        forall|w: Seq<char>|
            #[trigger] type_lookup(types, w) == consistent_type(pages_obs(pages), w),
        0 <= i < var_dts(pages_obs(pages), v).len(),
        0 <= j < var_dts(pages_obs(pages), v).len(),
        var_dts(pages_obs(pages), v)[i] != var_dts(pages_obs(pages), v)[j],
    ensures
        column_type_of(types, v) == "VARCHAR"@,
{
    let dts = var_dts(pages_obs(pages), v);
    assert(!all_agree(dts)) by {
        if all_agree(dts) {
            assert(dts[i] == dts[0]);
            assert(dts[j] == dts[0]);
        }
    }
    assert(consistent_type(pages_obs(pages), v) is None);
    assert(type_lookup(types, v) is None);
}

} // verus!
