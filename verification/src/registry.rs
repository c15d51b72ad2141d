//! The capability registry and its derived format graph.
//!
//! The registry owns the capability table and a directed multigraph over
//! format identifiers whose edges list converter ids. The graph is derived
//! data: it is rebuilt whenever the table changes, and the registry's
//! well-formedness ties the two together — an id sits on edge `(f, t)`
//! exactly when a registered capability with that id declares `f` among its
//! input aliases and `t` among its output aliases.

use vstd::prelude::*;

use crate::capability::{some_alias, CapView, CapabilityRecord, FormatSpec, FormatSpecView, HealthReport, ToolHealth};
use crate::clock::now_millis;
use crate::conversion::ConversionTarget;
use crate::error::AppError;
use crate::text::{clone_strings, contains_str, str_eq};

verus! {

/// One edge bucket of the format graph: every converter that serves the
/// ordered pair `(from, to)`.
pub struct GraphEdge {
    pub from: String,
    pub to: String,
    pub converter_ids: Vec<String>,
}

/// Mathematical model of a [`GraphEdge`].
pub ghost struct EdgeView {
    pub from: Seq<char>,
    pub to: Seq<char>,
    pub ids: Seq<Seq<char>>,
}

impl View for GraphEdge {
    type V = EdgeView;

    open spec fn view(&self) -> EdgeView {
        EdgeView { from: self.from@, to: self.to@, ids: self.converter_ids.deep_view() }
    }
}

impl DeepView for GraphEdge {
    type V = EdgeView;

    open spec fn deep_view(&self) -> EdgeView {
        self.view()
    }
}

/// True when the sequence has no repeated element.
pub open spec fn distinct_seq(s: Seq<Seq<char>>) -> bool {
    forall|i: int, j: int| 0 <= i < j < s.len() ==> s[i] != s[j]
}

/// True when edge `e` is the bucket for the ordered pair `(f, t)`.
pub open spec fn edge_matches(e: EdgeView, f: Seq<char>, t: Seq<char>) -> bool {
    e.from == f && e.to == t
}

/// True when converter `id` sits on edge `(f, t)` of graph `g`.
pub open spec fn has_edge(g: Seq<EdgeView>, f: Seq<char>, t: Seq<char>, id: Seq<char>) -> bool {
    exists|i: int|
        0 <= i < g.len() && edge_matches(g[i], f, t) && g[i].ids.contains(id)
}

/// Structural well-formedness of the graph: one bucket per ordered pair, and
/// no id listed twice on one bucket.
pub open spec fn wf_graph(g: Seq<EdgeView>) -> bool {
    &&& forall|i: int, j: int|
        0 <= i < j < g.len() ==> !(#[trigger] g[i].from == #[trigger] g[j].from && g[i].to == g[j].to)
    &&& forall|i: int| 0 <= i < g.len() ==> distinct_seq(#[trigger] g[i].ids)
}

/// True when some registered capability carries `id` and declares `f` among
/// its input aliases and `t` among its output aliases.
pub open spec fn triple(caps: Seq<CapView>, id: Seq<char>, f: Seq<char>, t: Seq<char>) -> bool {
    exists|j: int|
        0 <= j < caps.len() && caps[j].id == id && caps[j].has_input_alias(f)
            && caps[j].has_output_alias(t)
}

/// The graph lists exactly the capability table's alias pairs.
pub open spec fn graph_matches(caps: Seq<CapView>, g: Seq<EdgeView>) -> bool {
    forall|id: Seq<char>, f: Seq<char>, t: Seq<char>|
        #![trigger has_edge(g, f, t, id)]
        #![trigger triple(caps, id, f, t)]
        has_edge(g, f, t, id) <==> triple(caps, id, f, t)
}

/// Relates a graph to the same graph with one `(f0, t0, x0)` membership
/// added: exactly the given triple becomes present, nothing else changes.
pub open spec fn edge_added(
    g0: Seq<EdgeView>,
    g1: Seq<EdgeView>,
    f0: Seq<char>,
    t0: Seq<char>,
    x0: Seq<char>,
) -> bool {
    forall|f: Seq<char>, t: Seq<char>, x: Seq<char>|
        #![trigger has_edge(g1, f, t, x)]
        has_edge(g1, f, t, x) <==> (has_edge(g0, f, t, x) || (f == f0 && t == t0 && x == x0))
}

/// Records the given converter id on the bucket for `(from, to)`, creating
/// the bucket if the pair is new; all other buckets are untouched.
fn add_edge_id(g: &mut Vec<GraphEdge>, from: &str, to: &str, id: &str)
    requires
        wf_graph(old(g).deep_view()),
    ensures
        wf_graph(final(g).deep_view()),
        edge_added(old(g).deep_view(), final(g).deep_view(), from@, to@, id@),
{
    let ghost g0 = old(g).deep_view();
    let mut i: usize = 0;
    while i < g.len()
        invariant
            i <= g.len(),
            g0 == old(g).deep_view(),
            g.deep_view() == g0,
            wf_graph(g0),
            forall|k: int| 0 <= k < i ==> !edge_matches(g0[k], from@, to@),
        decreases g.len() - i,
    {
        let hit = str_eq(g[i].from.as_str(), from) && str_eq(g[i].to.as_str(), to);
        if hit {
            assert(edge_matches(g0[i as int], from@, to@));
            if !contains_str(&g[i].converter_ids, id) {
                let mut ids = clone_strings(&g[i].converter_ids);
                let ghost ids0 = ids.deep_view();
                ids.push(id.to_owned());
                proof {
                    assert(ids.deep_view() =~= ids0.push(id@));
                }
                let e = GraphEdge {
                    from: g[i].from.clone(),
                    to: g[i].to.clone(),
                    converter_ids: ids,
                };
                assert(e@.from == g0[i as int].from && e@.to == g0[i as int].to);
                assert(e@.ids =~= g0[i as int].ids.push(id@));
                g.set(i, e);
                proof {
                    let gd = g.deep_view();
                    assert(gd =~= g0.update(i as int, e@));
                    // the pushed id is new on this bucket, so ids stay distinct
                    assert forall|a: int, b: int| 0 <= a < b < e@.ids.len() implies e@.ids[a]
                        != e@.ids[b] by {
                        if b == e@.ids.len() - 1 {
                            assert(e@.ids[a] == g0[i as int].ids[a]);
                            assert(g0[i as int].ids.contains(g0[i as int].ids[a]));
                        }
                    }
                    assert forall|f: Seq<char>, t: Seq<char>, x: Seq<char>|
                        #![trigger has_edge(gd, f, t, x)]
                        has_edge(gd, f, t, x) <==> (has_edge(g0, f, t, x) || (f == from@ && t == to@
                            && x == id@)) by {
                        if has_edge(gd, f, t, x) {
                            let k = choose|k: int|
                                0 <= k < gd.len() && edge_matches(gd[k], f, t)
                                    && gd[k].ids.contains(x);
                            if k == i {
                                let n = choose|n: int| 0 <= n < e@.ids.len() && e@.ids[n] == x;
                                if n < g0[i as int].ids.len() {
                                    assert(g0[i as int].ids[n] == x);
                                    assert(has_edge(g0, f, t, x));
                                } else {
                                    assert(x == id@);
                                }
                            } else {
                                assert(has_edge(g0, f, t, x));
                            }
                        }
                        if has_edge(g0, f, t, x) {
                            let k = choose|k: int|
                                0 <= k < g0.len() && edge_matches(g0[k], f, t)
                                    && g0[k].ids.contains(x);
                            if k == i {
                                let n = choose|n: int|
                                    0 <= n < g0[i as int].ids.len() && g0[i as int].ids[n] == x;
                                assert(e@.ids[n] == x);
                                assert(gd[i as int].ids.contains(x));
                            } else {
                                assert(gd[k] == g0[k]);
                            }
                            assert(has_edge(gd, f, t, x));
                        }
                        if f == from@ && t == to@ && x == id@ {
                            assert(e@.ids[e@.ids.len() - 1] == x);
                            assert(gd[i as int].ids.contains(x));
                            assert(edge_matches(gd[i as int], f, t));
                            assert(has_edge(gd, f, t, x));
                        }
                    }
                    assert(edge_added(g0, gd, from@, to@, id@));
                }
            } else {
                proof {
                    let gd = g.deep_view();
                    assert(g0[i as int].ids.contains(id@));
                    assert forall|f: Seq<char>, t: Seq<char>, x: Seq<char>|
                        #![trigger has_edge(gd, f, t, x)]
                        has_edge(gd, f, t, x) <==> (has_edge(g0, f, t, x) || (f == from@ && t == to@
                            && x == id@)) by {
                        if f == from@ && t == to@ && x == id@ {
                            assert(edge_matches(g0[i as int], f, t));
                            assert(has_edge(g0, f, t, x));
                        }
                    }
                    assert(edge_added(g0, gd, from@, to@, id@));
                }
            }
            return ;
        }
        i = i + 1;
    }
    let mut ids: Vec<String> = Vec::new();
    ids.push(id.to_owned());
    assert(ids.deep_view() =~= seq![id@]);
    let e = GraphEdge { from: from.to_owned(), to: to.to_owned(), converter_ids: ids };
    g.push(e);
    proof {
        let gd = g.deep_view();
        assert(gd =~= g0.push(e@));
        assert forall|f: Seq<char>, t: Seq<char>, x: Seq<char>|
            #![trigger has_edge(gd, f, t, x)]
            has_edge(gd, f, t, x) <==> (has_edge(g0, f, t, x) || (f == from@ && t == to@ && x
                == id@)) by {
            if has_edge(gd, f, t, x) {
                let k = choose|k: int|
                    0 <= k < gd.len() && edge_matches(gd[k], f, t) && gd[k].ids.contains(x);
                if k < g0.len() {
                    assert(has_edge(g0, f, t, x));
                } else {
                    assert(gd[k] == e@);
                    assert(e@.ids[0] == x);
                }
            }
            if has_edge(g0, f, t, x) {
                let k = choose|k: int|
                    0 <= k < g0.len() && edge_matches(g0[k], f, t) && g0[k].ids.contains(x);
                assert(gd[k] == g0[k]);
                assert(has_edge(gd, f, t, x));
            }
            if f == from@ && t == to@ && x == id@ {
                assert(gd[gd.len() - 1].ids[0] == x);
                assert(gd[gd.len() - 1].ids.contains(x));
                assert(edge_matches(gd[gd.len() - 1], f, t));
                assert(has_edge(gd, f, t, x));
            }
        }
        assert(edge_added(g0, gd, from@, to@, id@));
        // the new bucket's pair was absent, so pairs stay unique
        assert forall|a: int, b: int| 0 <= a < b < gd.len() implies !(gd[a].from == gd[b].from
            && gd[a].to == gd[b].to) by {
            if b == gd.len() - 1 {
                assert(!edge_matches(g0[a], from@, to@));
            }
        }
    }
}

/// Relates an alias list to the same list extended by every alias of `fs`.
pub open spec fn aliases_extended(r0: Seq<Seq<char>>, r1: Seq<Seq<char>>, fs: FormatSpecView) -> bool {
    forall|m: Seq<char>| #![trigger r1.contains(m)] r1.contains(m) <==> (r0.contains(m) || fs.has_alias(m))
}

/// Appends the MIME identifier and every extension alias of `fs` to `out`.
fn push_aliases(out: &mut Vec<String>, fs: &FormatSpec)
    ensures
        aliases_extended(old(out).deep_view(), final(out).deep_view(), fs@),
{
    let ghost base = old(out).deep_view();
    let ghost r0 = out.deep_view();
    out.push(fs.mime.clone());
    proof {
        assert(out.deep_view() =~= r0.push(fs@.mime));
        assert forall|m: Seq<char>| #![trigger out.deep_view().contains(m)] out.deep_view().contains(
            m,
        ) <==> (base.contains(m) || m == fs@.mime) by {
            crate::text::lemma_push_contains(base, fs@.mime, m);
        }
    }
    let mut j: usize = 0;
    while j < fs.extensions.len()
        invariant
            j <= fs.extensions.len(),
            base == old(out).deep_view(),
            forall|m: Seq<char>| #![trigger out.deep_view().contains(m)]
                out.deep_view().contains(m) <==> (base.contains(m) || m == fs@.mime || exists|l: int|
                    0 <= l < j && fs@.extensions[l] == m),
        decreases fs.extensions.len() - j,
    {
        let ghost prev = out.deep_view();
        out.push(fs.extensions[j].clone());
        proof {
            assert(out.deep_view() =~= prev.push(fs@.extensions[j as int]));
            assert forall|m: Seq<char>| #![trigger out.deep_view().contains(m)]
                out.deep_view().contains(m) <==> (base.contains(m) || m == fs@.mime || exists|l: int|
                    0 <= l < j + 1 && fs@.extensions[l] == m) by {
                crate::text::lemma_push_contains(prev, fs@.extensions[j as int], m);
                if m == fs@.extensions[j as int] {
                    assert(exists|l: int| 0 <= l < j + 1 && fs@.extensions[l] == m);
                }
            }
        }
        j = j + 1;
    }
    proof {
        assert forall|m: Seq<char>| #![trigger out.deep_view().contains(m)]
            out.deep_view().contains(m) <==> (base.contains(m) || fs@.has_alias(m)) by {
            assert((exists|l: int| 0 <= l < fs@.extensions.len() && fs@.extensions[l] == m)
                == fs@.extensions.contains(m));
        }
    }
}

/// Collects every alias (MIME identifier or extension) declared by the given
/// format specifications.
fn aliases_of(specs: &Vec<FormatSpec>) -> (r: Vec<String>)
    ensures
        forall|m: Seq<char>| #![trigger r.deep_view().contains(m)]
            r.deep_view().contains(m) <==> some_alias(specs.deep_view(), m),
{
    let mut r: Vec<String> = Vec::new();
    let mut i: usize = 0;
    while i < specs.len()
        invariant
            i <= specs.len(),
            forall|m: Seq<char>| #![trigger r.deep_view().contains(m)]
                r.deep_view().contains(m) <==> some_alias(
                    specs.deep_view().subrange(0, i as int),
                    m,
                ),
        decreases specs.len() - i,
    {
        let ghost r0 = r.deep_view();
        push_aliases(&mut r, &specs[i]);
        proof {
            let ghost pre = specs.deep_view().subrange(0, i as int);
            let ghost post = specs.deep_view().subrange(0, i as int + 1);
            assert forall|m: Seq<char>| #![trigger r.deep_view().contains(m)]
                r.deep_view().contains(m) <==> some_alias(post, m) by {
                assert(r.deep_view().contains(m) <==> (r0.contains(m) || specs.deep_view()[i as int].has_alias(m)));
                if some_alias(post, m) {
                    let k = choose|k: int| 0 <= k < post.len() && post[k].has_alias(m);
                    if k < i {
                        assert(pre[k].has_alias(m));
                        assert(some_alias(pre, m));
                    } else {
                        assert(specs.deep_view()[i as int].has_alias(m));
                    }
                }
                if some_alias(pre, m) {
                    let k = choose|k: int| 0 <= k < pre.len() && pre[k].has_alias(m);
                    assert(post[k].has_alias(m));
                    assert(some_alias(post, m));
                }
                if specs.deep_view()[i as int].has_alias(m) {
                    assert(post[i as int].has_alias(m));
                    assert(some_alias(post, m));
                }
            }
        }
        i = i + 1;
    }
    proof {
        assert(specs.deep_view().subrange(0, specs.len() as int) =~= specs.deep_view());
    }
    r
}

/// Relates a graph to the same graph with every alias pair of capability `c`
/// added under `c`'s id, and nothing else.
pub open spec fn cap_edges_added(g0: Seq<EdgeView>, g1: Seq<EdgeView>, c: CapView) -> bool {
    forall|f: Seq<char>, t: Seq<char>, x: Seq<char>|
        #![trigger has_edge(g1, f, t, x)]
        has_edge(g1, f, t, x) <==> (has_edge(g0, f, t, x) || (x == c.id && c.has_input_alias(f)
            && c.has_output_alias(t)))
}

/// Inserts every `(input alias, output alias)` edge declared by `cap` into
/// the graph under `cap`'s id.
fn add_cap_edges(g: &mut Vec<GraphEdge>, cap: &CapabilityRecord)
    requires
        wf_graph(old(g).deep_view()),
    ensures
        wf_graph(final(g).deep_view()),
        cap_edges_added(old(g).deep_view(), final(g).deep_view(), cap@),
{
    let ghost g0 = old(g).deep_view();
    let fa = aliases_of(&cap.inputs);
    let ta = aliases_of(&cap.outputs);
    let ghost fav = fa.deep_view();
    let ghost tav = ta.deep_view();
    let mut i: usize = 0;
    while i < fa.len()
        invariant
            i <= fa.len(),
            g0 == old(g).deep_view(),
            fav == fa.deep_view(),
            tav == ta.deep_view(),
            wf_graph(g.deep_view()),
            forall|m: Seq<char>| #![trigger fav.contains(m)]
                fav.contains(m) <==> cap@.has_input_alias(m),
            forall|m: Seq<char>| #![trigger tav.contains(m)]
                tav.contains(m) <==> cap@.has_output_alias(m),
            forall|f: Seq<char>, t: Seq<char>, x: Seq<char>|
                #![trigger has_edge(g.deep_view(), f, t, x)]
                has_edge(g.deep_view(), f, t, x) <==> (has_edge(g0, f, t, x) || (x == cap@.id
                    && (exists|a: int| 0 <= a < i && fav[a] == f) && cap@.has_output_alias(t))),
        decreases fa.len() - i,
    {
        let mut j: usize = 0;
        let ghost gi = g.deep_view();
        while j < ta.len()
            invariant
                j <= ta.len(),
                i < fa.len(),
                fav == fa.deep_view(),
                tav == ta.deep_view(),
                wf_graph(g.deep_view()),
                forall|f: Seq<char>, t: Seq<char>, x: Seq<char>|
                    #![trigger has_edge(g.deep_view(), f, t, x)]
                    has_edge(g.deep_view(), f, t, x) <==> (has_edge(gi, f, t, x) || (x == cap@.id
                        && f == fav[i as int] && (exists|b: int| 0 <= b < j && tav[b] == t))),
            decreases ta.len() - j,
        {
            let ghost gj = g.deep_view();
            add_edge_id(g, fa[i].as_str(), ta[j].as_str(), cap.id.as_str());
            proof {
                assert(edge_added(gj, g.deep_view(), fav[i as int], tav[j as int], cap@.id));
                assert forall|f: Seq<char>, t: Seq<char>, x: Seq<char>|
                    #![trigger has_edge(g.deep_view(), f, t, x)]
                    has_edge(g.deep_view(), f, t, x) <==> (has_edge(gi, f, t, x) || (x == cap@.id
                        && f == fav[i as int] && (exists|b: int| 0 <= b < j + 1 && tav[b]
                        == t))) by {
                    if f == fav[i as int] && t == tav[j as int] && x == cap@.id {
                        assert(exists|b: int| 0 <= b < j + 1 && tav[b] == t);
                    }
                }
            }
            j = j + 1;
        }
        proof {
            assert forall|f: Seq<char>, t: Seq<char>, x: Seq<char>|
                #![trigger has_edge(g.deep_view(), f, t, x)]
                has_edge(g.deep_view(), f, t, x) <==> (has_edge(g0, f, t, x) || (x == cap@.id
                    && (exists|a: int| 0 <= a < i + 1 && fav[a] == f)
                    && cap@.has_output_alias(t))) by {
                if has_edge(g.deep_view(), f, t, x) {
                    if !has_edge(gi, f, t, x) {
                        assert(x == cap@.id && f == fav[i as int]);
                        assert(exists|b: int| 0 <= b < tav.len() && tav[b] == t);
                        assert(tav.contains(t));
                        assert(exists|a: int| 0 <= a < i + 1 && fav[a] == f);
                    } else {
                        if !has_edge(g0, f, t, x) {
                            assert(exists|a: int| 0 <= a < i && fav[a] == f);
                        }
                    }
                }
                if has_edge(g0, f, t, x) {
                    assert(has_edge(gi, f, t, x));
                    assert(has_edge(g.deep_view(), f, t, x));
                }
                if x == cap@.id && (exists|a: int| 0 <= a < i + 1 && fav[a] == f)
                    && cap@.has_output_alias(t) {
                    let a = choose|a: int| 0 <= a < i + 1 && fav[a] == f;
                    if a < i {
                        assert(has_edge(gi, f, t, x));
                        assert(has_edge(g.deep_view(), f, t, x));
                    } else {
                        assert(f == fav[i as int]);
                        assert(tav.contains(t));
                        let b = choose|b: int| 0 <= b < tav.len() && tav[b] == t;
                        assert(has_edge(g.deep_view(), f, t, x));
                    }
                }
            }
        }
        i = i + 1;
    }
    proof {
        assert forall|f: Seq<char>, t: Seq<char>, x: Seq<char>|
            #![trigger has_edge(g.deep_view(), f, t, x)]
            has_edge(g.deep_view(), f, t, x) <==> (has_edge(g0, f, t, x) || (x == cap@.id
                && cap@.has_input_alias(f) && cap@.has_output_alias(t))) by {
            if has_edge(g.deep_view(), f, t, x) && !has_edge(g0, f, t, x) {
                assert(exists|a: int| 0 <= a < fav.len() && fav[a] == f);
                assert(fav.contains(f));
            }
            if x == cap@.id && cap@.has_input_alias(f) && cap@.has_output_alias(t) {
                assert(fav.contains(f));
                let a = choose|a: int| 0 <= a < fav.len() && fav[a] == f;
                assert(exists|a2: int| 0 <= a2 < fa.len() && fav[a2] == f);
            }
        }
        assert(cap_edges_added(g0, g.deep_view(), cap@));
    }
}


/// Builds the format graph of a capability table from scratch.
fn build_graph(caps: &Vec<CapabilityRecord>) -> (g: Vec<GraphEdge>)
    ensures
        wf_graph(g.deep_view()),
        graph_matches(caps.deep_view(), g.deep_view()),
{
    let mut g: Vec<GraphEdge> = Vec::new();
    proof {
        assert(g.deep_view() =~= Seq::<EdgeView>::empty());
        assert(caps.deep_view().subrange(0, 0) =~= Seq::<CapView>::empty());
    }
    let mut i: usize = 0;
    while i < caps.len()
        invariant
            i <= caps.len(),
            wf_graph(g.deep_view()),
            graph_matches(caps.deep_view().subrange(0, i as int), g.deep_view()),
        decreases caps.len() - i,
    {
        let ghost gprev = g.deep_view();
        let ghost pre = caps.deep_view().subrange(0, i as int);
        add_cap_edges(&mut g, &caps[i]);
        proof {
            let post = caps.deep_view().subrange(0, i as int + 1);
            let c = caps.deep_view()[i as int];
            assert(cap_edges_added(gprev, g.deep_view(), c));
            assert forall|id: Seq<char>, f: Seq<char>, t: Seq<char>|
                #![trigger has_edge(g.deep_view(), f, t, id)]
                #![trigger triple(post, id, f, t)]
                has_edge(g.deep_view(), f, t, id) <==> triple(post, id, f, t) by {
                if has_edge(g.deep_view(), f, t, id) {
                    if has_edge(gprev, f, t, id) {
                        assert(triple(pre, id, f, t));
                        let j = choose|j: int|
                            0 <= j < pre.len() && pre[j].id == id && pre[j].has_input_alias(f)
                                && pre[j].has_output_alias(t);
                        assert(post[j] == pre[j]);
                        assert(triple(post, id, f, t));
                    } else {
                        assert(id == c.id && c.has_input_alias(f) && c.has_output_alias(t));
                        assert(post[i as int] == c);
                        assert(triple(post, id, f, t));
                    }
                }
                if triple(post, id, f, t) {
                    let j = choose|j: int|
                        0 <= j < post.len() && post[j].id == id && post[j].has_input_alias(f)
                            && post[j].has_output_alias(t);
                    if j < i {
                        assert(pre[j] == post[j]);
                        assert(triple(pre, id, f, t));
                        assert(has_edge(gprev, f, t, id));
                    } else {
                        assert(post[j] == c);
                    }
                    assert(has_edge(g.deep_view(), f, t, id));
                }
            }
        }
        i = i + 1;
    }
    proof {
        assert(caps.deep_view().subrange(0, caps.len() as int) =~= caps.deep_view());
    }
    g
}

/// The capability registry: the capability table and its derived format
/// graph.
pub struct Registry {
    capabilities: Vec<CapabilityRecord>,
    format_graph: Vec<GraphEdge>,
}

/// Mathematical model of a [`Registry`].
pub ghost struct RegistryView {
    pub caps: Seq<CapView>,
    pub graph: Seq<EdgeView>,
}

impl View for Registry {
    type V = RegistryView;

    closed spec fn view(&self) -> RegistryView {
        RegistryView {
            caps: self.capabilities.deep_view(),
            graph: self.format_graph.deep_view(),
        }
    }
}

impl RegistryView {
    /// No two registered capabilities share an id.
    pub open spec fn ids_distinct(self) -> bool {
        forall|i: int, j: int|
            0 <= i < j < self.caps.len() ==> (#[trigger] self.caps[i]).id != (
            #[trigger] self.caps[j]).id
    }

    /// Well-formedness: distinct ids, valid scores, a structurally sound
    /// graph, and a graph that lists exactly the table's alias pairs.
    pub open spec fn wf(self) -> bool {
        &&& self.ids_distinct()
        &&& forall|i: int| 0 <= i < self.caps.len() ==> (#[trigger] self.caps[i]).wf()
        &&& wf_graph(self.graph)
        &&& graph_matches(self.caps, self.graph)
    }

    /// True when a capability with the given id is registered.
    pub open spec fn has_cap(self, id: Seq<char>) -> bool {
        exists|i: int| 0 <= i < self.caps.len() && (#[trigger] self.caps[i]).id == id
    }
}

impl Registry {
    /// Creates an empty registry.
    pub fn new() -> (r: Registry)
        ensures
            r@.wf(),
            r@.caps == Seq::<CapView>::empty(),
            r@.graph == Seq::<EdgeView>::empty(),
    {
        let r = Registry { capabilities: Vec::new(), format_graph: Vec::new() };
        proof {
            assert(r@.caps =~= Seq::<CapView>::empty());
            assert(r@.graph =~= Seq::<EdgeView>::empty());
        }
        r
    }

    /// Registers a conversion capability and refreshes the format graph for
    /// every `(input alias, output alias)` pair it implies.
    ///
    /// Re-registering an id has explicit replace semantics: the previous
    /// capability under that id and all of its graph edges are removed
    /// before the new ones are inserted, so the graph never holds stale
    /// edges for a changed capability.
    pub fn register(&mut self, capability: CapabilityRecord) -> (r: Result<(), AppError>)
        requires
            old(self)@.wf(),
            capability@.wf(),
        ensures
            final(self)@.wf(),
            r is Ok,
            forall|c: CapView| #![trigger final(self)@.caps.contains(c)]
                final(self)@.caps.contains(c) <==> ((old(self)@.caps.contains(c) && c.id
                    != capability@.id) || c == capability@),
            // a fresh id is a plain append: nothing is removed
            !old(self)@.has_cap(capability@.id) ==> final(self)@.caps == old(self)@.caps.push(
                capability@,
            ),
    {
        let ghost caps0 = old(self)@.caps;
        let mut kept: Vec<CapabilityRecord> = Vec::new();
        proof {
            assert(kept.deep_view() =~= Seq::<CapView>::empty());
        }
        let mut i: usize = 0;
        while i < self.capabilities.len()
            invariant
                i <= self.capabilities.len(),
                caps0 == self.capabilities.deep_view(),
                old(self)@.wf(),
                caps0 == old(self)@.caps,
                capability@.wf(),
                forall|c: CapView| #![trigger kept.deep_view().contains(c)]
                    kept.deep_view().contains(c) <==> (exists|k: int|
                        0 <= k < i && caps0[k] == c && c.id != capability@.id),
                distinct_caps(kept.deep_view()),
                (forall|k: int| 0 <= k < i ==> (#[trigger] caps0[k]).id != capability@.id)
                    ==> kept.deep_view() == caps0.subrange(0, i as int),
            decreases self.capabilities.len() - i,
        {
            let keep = !str_eq(self.capabilities[i].id.as_str(), capability.id.as_str());
            let ghost kv0 = kept.deep_view();
            if keep {
                kept.push(self.capabilities[i].clone());
                proof {
                    assert(kept.deep_view() =~= kv0.push(caps0[i as int]));
                }
            }
            proof {
                if forall|k: int| 0 <= k < i + 1 ==> (#[trigger] caps0[k]).id != capability@.id {
                    assert(caps0[i as int].id != capability@.id);
                    assert(keep);
                    assert(kv0 == caps0.subrange(0, i as int));
                    assert(kept.deep_view() =~= caps0.subrange(0, i as int + 1));
                }
            }
            proof {
                assert forall|c: CapView| #![trigger kept.deep_view().contains(c)]
                    kept.deep_view().contains(c) <==> (exists|k: int|
                        0 <= k < i + 1 && caps0[k] == c && c.id != capability@.id) by {
                    if keep {
                        crate::text::lemma_push_contains(kv0, caps0[i as int], c);
                        if c == caps0[i as int] {
                            assert(exists|k: int|
                                0 <= k < i + 1 && caps0[k] == c && c.id != capability@.id);
                        }
                    }
                    if kept.deep_view().contains(c) && c != caps0[i as int] {
                        assert(kv0.contains(c) || c == caps0[i as int] || kept.deep_view()
                            == kv0);
                    }
                    if exists|k: int| 0 <= k < i + 1 && caps0[k] == c && c.id != capability@.id {
                        let k = choose|k: int|
                            0 <= k < i + 1 && caps0[k] == c && c.id != capability@.id;
                        if k < i {
                            assert(kv0.contains(c));
                            if keep {
                                crate::text::lemma_push_contains(kv0, caps0[i as int], c);
                            }
                        } else {
                            assert(c == caps0[i as int]);
                            assert(keep);
                            crate::text::lemma_push_contains(kv0, caps0[i as int], c);
                        }
                    }
                }
            }
            proof {
                let kv = kept.deep_view();
                assert forall|a: int, b: int| 0 <= a < b < kv.len() implies kv[a] != kv[b] by {
                    if keep && b == kv.len() - 1 {
                        assert(kv[b] == caps0[i as int]);
                        assert(kv[a] == kv0[a]);
                        assert(kv0.contains(kv0[a]));
                        let k = choose|k: int|
                            0 <= k < i && caps0[k] == kv0[a] && kv0[a].id != capability@.id;
                        if kv[a] == kv[b] {
                            assert(caps0[k].id == caps0[i as int].id);
                        }
                    }
                }
            }
            i = i + 1;
        }
        let ghost keptv = kept.deep_view();
        // every kept element stems from the old table, so ids stay distinct
        proof {
            assert forall|a: int, b: int| 0 <= a < b < keptv.len() implies keptv[a].id
                != keptv[b].id by {
                lemma_distinct_ids_sub(caps0, keptv, capability@.id, a, b);
            }
            assert forall|a: int| 0 <= a < keptv.len() implies keptv[a].wf() by {
                assert(keptv.contains(keptv[a]));
                let k = choose|k: int|
                    0 <= k < caps0.len() && caps0[k] == keptv[a] && keptv[a].id != capability@.id;
            }
        }
        let ghost kv1 = kept.deep_view();
        kept.push(capability);
        proof {
            assert(kept.deep_view() =~= kv1.push(capability@));
        }
        self.capabilities = kept;
        let g = build_graph(&self.capabilities);
        self.format_graph = g;
        proof {
            let cv = self.capabilities.deep_view();
            assert forall|c: CapView| #![trigger cv.contains(c)] cv.contains(c) <==> ((
            caps0.contains(c) && c.id != capability@.id) || c == capability@) by {
                crate::text::lemma_push_contains(kv1, capability@, c);
                if kv1.contains(c) {
                    let k = choose|k: int|
                        0 <= k < caps0.len() && caps0[k] == c && c.id != capability@.id;
                    assert(caps0.contains(c));
                }
                if caps0.contains(c) && c.id != capability@.id {
                    let k = choose|k: int| 0 <= k < caps0.len() && caps0[k] == c;
                    assert(exists|k2: int|
                        0 <= k2 < caps0.len() && caps0[k2] == c && c.id != capability@.id);
                    assert(kv1.contains(c));
                }
            }
            // distinctness and validity of the new table
            assert forall|a: int, b: int| 0 <= a < b < cv.len() implies cv[a].id != cv[b].id by {
                if b < cv.len() - 1 {
                    assert(cv[a] == kv1[a] && cv[b] == kv1[b]);
                } else {
                    assert(cv[b] == capability@);
                    assert(cv[a] == kv1[a]);
                    assert(kv1.contains(kv1[a]));
                    let k = choose|k: int|
                        0 <= k < caps0.len() && caps0[k] == kv1[a] && kv1[a].id
                            != capability@.id;
                }
            }
            assert forall|a: int| 0 <= a < cv.len() implies cv[a].wf() by {
                if a < cv.len() - 1 {
                    assert(cv[a] == kv1[a]);
                } else {
                    assert(cv[a] == capability@);
                }
            }
        }
        Ok(())
    }
}

/// Two distinct positions of a filtered table still carry distinct ids,
/// because each stems from a distinct position of the distinct-id source.
proof fn lemma_distinct_ids_sub(
    caps0: Seq<CapView>,
    kept: Seq<CapView>,
    excluded: Seq<char>,
    a: int,
    b: int,
)
    requires
        forall|i: int, j: int|
            0 <= i < j < caps0.len() ==> (#[trigger] caps0[i]).id != (#[trigger] caps0[j]).id,
        forall|c: CapView| #![trigger kept.contains(c)]
            kept.contains(c) <==> (exists|k: int| 0 <= k < caps0.len() && caps0[k] == c && c.id != excluded),
        0 <= a < b < kept.len(),
        distinct_caps(kept),
    ensures
        kept[a].id != kept[b].id,
{
    assert(kept.contains(kept[a]));
    assert(kept.contains(kept[b]));
    let ka = choose|k: int| 0 <= k < caps0.len() && caps0[k] == kept[a] && kept[a].id != excluded;
    let kb = choose|k: int| 0 <= k < caps0.len() && caps0[k] == kept[b] && kept[b].id != excluded;
    if ka == kb {
        assert(kept[a] == kept[b]);
    } else if ka < kb {
        assert(caps0[ka].id != caps0[kb].id);
    } else {
        assert(caps0[kb].id != caps0[ka].id);
    }
}

/// True when no two elements of the sequence are equal.
pub open spec fn distinct_caps(s: Seq<CapView>) -> bool {
    forall|i: int, j: int| 0 <= i < j < s.len() ==> s[i] != s[j]
}


/// True when some capability in `caps` reaches `to` from `from` by one
/// direct edge.
pub open spec fn reachable(caps: Seq<CapView>, from: Seq<char>, to: Seq<char>) -> bool {
    exists|x: Seq<char>| triple(caps, x, from, to)
}

/// True when, among the first `bound` buckets of `g`, some populated edge
/// leads from `from` to `to`.
pub open spec fn edge_reaches(g: Seq<EdgeView>, from: Seq<char>, to: Seq<char>, bound: int) -> bool {
    exists|m: int| 0 <= m < bound && edge_matches(#[trigger] g[m], from, to) && g[m].ids.len() > 0
}

/// True when some listed target carries the format `to`.
pub open spec fn target_listed(ts: Seq<crate::conversion::TargetView>, to: Seq<char>) -> bool {
    exists|k: int| 0 <= k < ts.len() && (#[trigger] ts[k]).format == to
}

/// True when some capability in `caps` requires the external tool `t`.
pub open spec fn requires_tool(caps: Seq<CapView>, t: Seq<char>) -> bool {
    exists|i: int| 0 <= i < caps.len() && (#[trigger] caps[i]).requires.tools.contains(t)
}

impl Registry {
    /// Looks a capability up by id and returns a copy of its record.
    pub fn get(&self, id: &str) -> (r: Option<CapabilityRecord>)
        requires
            self@.wf(),
        ensures
            r is Some <==> self@.has_cap(id@),
            match r {
                Some(c) => c@.id == id@ && self@.caps.contains(c@),
                None => !self@.has_cap(id@),
            },
    {
        let mut i: usize = 0;
        while i < self.capabilities.len()
            invariant
                i <= self.capabilities.len(),
                self@.caps == self.capabilities.deep_view(),
                forall|k: int| 0 <= k < i ==> (#[trigger] self@.caps[k]).id != id@,
            decreases self.capabilities.len() - i,
        {
            if str_eq(self.capabilities[i].id.as_str(), id) {
                let c = self.capabilities[i].clone();
                proof {
                    assert(self@.caps[i as int] == c@);
                    assert(self@.caps.contains(c@));
                }
                return Some(c);
            }
            i = i + 1;
        }
        None
    }

    /// Returns a snapshot of every registered capability, in table order.
    pub fn list_all(&self) -> (r: Vec<CapabilityRecord>)
        ensures
            r.deep_view() == self@.caps,
    {
        let mut r: Vec<CapabilityRecord> = Vec::new();
        let mut i: usize = 0;
        while i < self.capabilities.len()
            invariant
                i <= self.capabilities.len(),
                self@.caps == self.capabilities.deep_view(),
                r.deep_view() =~= self@.caps.subrange(0, i as int),
            decreases self.capabilities.len() - i,
        {
            let ghost prev = r.deep_view();
            r.push(self.capabilities[i].clone());
            proof {
                assert(r.deep_view() =~= prev.push(self@.caps[i as int]));
                assert(r.deep_view() =~= self@.caps.subrange(0, i as int + 1));
            }
            i = i + 1;
        }
        proof {
            assert(r.deep_view() =~= self@.caps);
        }
        r
    }

    /// Reports every converter id serving the direct edge `(from, to)`. An
    /// empty result means "no direct edge", which is data, not an error.
    pub fn find_converters(&self, from: &str, to: &str) -> (r: Vec<String>)
        requires
            self@.wf(),
        ensures
            distinct_seq(r.deep_view()),
            forall|x: Seq<char>| #![trigger r.deep_view().contains(x)]
                r.deep_view().contains(x) <==> triple(self@.caps, x, from@, to@),
    {
        let ghost g = self@.graph;
        let mut i: usize = 0;
        while i < self.format_graph.len()
            invariant
                i <= self.format_graph.len(),
                g == self@.graph,
                g == self.format_graph.deep_view(),
                self@.wf(),
                forall|k: int| 0 <= k < i ==> !edge_matches(g[k], from@, to@),
            decreases self.format_graph.len() - i,
        {
            let hit = str_eq(self.format_graph[i].from.as_str(), from) && str_eq(
                self.format_graph[i].to.as_str(),
                to,
            );
            if hit {
                let r = clone_strings(&self.format_graph[i].converter_ids);
                proof {
                    assert(edge_matches(g[i as int], from@, to@));
                    assert(r.deep_view() == g[i as int].ids);
                    assert forall|x: Seq<char>| #![trigger r.deep_view().contains(x)]
                        r.deep_view().contains(x) <==> triple(self@.caps, x, from@, to@) by {
                        if r.deep_view().contains(x) {
                            assert(has_edge(g, from@, to@, x));
                        }
                        if triple(self@.caps, x, from@, to@) {
                            assert(has_edge(g, from@, to@, x));
                            let k = choose|k: int|
                                0 <= k < g.len() && edge_matches(g[k], from@, to@)
                                    && g[k].ids.contains(x);
                            if k != i {
                                if k < i {
                                    assert(!(g[k].from == g[i as int].from && g[k].to
                                        == g[i as int].to));
                                } else {
                                    assert(!(g[i as int].from == g[k].from && g[i as int].to
                                        == g[k].to));
                                }
                            }
                        }
                    }
                }
                return r;
            }
            i = i + 1;
        }
        let r: Vec<String> = Vec::new();
        proof {
            assert(r.deep_view() =~= Seq::<Seq<char>>::empty());
            assert forall|x: Seq<char>| #![trigger r.deep_view().contains(x)]
                r.deep_view().contains(x) <==> triple(self@.caps, x, from@, to@) by {
                if triple(self@.caps, x, from@, to@) {
                    assert(has_edge(g, from@, to@, x));
                    let k = choose|k: int|
                        0 <= k < g.len() && edge_matches(g[k], from@, to@) && g[k].ids.contains(x);
                }
            }
        }
        r
    }

    /// Reports every format reachable from `source_mime` by at least one
    /// direct edge. Multi-hop reachability is the planner's job.
    pub fn get_targets(&self, source_mime: &str) -> (r: Vec<ConversionTarget>)
        requires
            self@.wf(),
        ensures
            forall|k: int| 0 <= k < r.deep_view().len() ==> {
                let t = #[trigger] r.deep_view()[k];
                &&& t.format == t.mime_type
                &&& t.paths.len() == 0
                &&& !t.recommended
                &&& t.available
                &&& t.missing_requirements.len() == 0
                &&& reachable(self@.caps, source_mime@, t.format)
            },
            forall|to: Seq<char>|
                #![trigger reachable(self@.caps, source_mime@, to)]
                reachable(self@.caps, source_mime@, to) ==> target_listed(r.deep_view(), to),
            forall|k: int, l: int|
                0 <= k < l < r.deep_view().len() ==> (#[trigger] r.deep_view()[k]).format != (
                #[trigger] r.deep_view()[l]).format,
    {
        let ghost g = self@.graph;
        let mut r: Vec<ConversionTarget> = Vec::new();
        proof {
            assert(r.deep_view() =~= Seq::<crate::conversion::TargetView>::empty());
        }
        let mut i: usize = 0;
        while i < self.format_graph.len()
            invariant
                i <= self.format_graph.len(),
                g == self@.graph,
                g == self.format_graph.deep_view(),
                self@.wf(),
                forall|k: int| 0 <= k < r.deep_view().len() ==> {
                    let t = #[trigger] r.deep_view()[k];
                    &&& t.format == t.mime_type
                    &&& t.paths.len() == 0
                    &&& !t.recommended
                    &&& t.available
                    &&& t.missing_requirements.len() == 0
                    &&& reachable(self@.caps, source_mime@, t.format)
                },
                forall|to: Seq<char>| #![trigger edge_reaches(g, source_mime@, to, i as int)]
                    edge_reaches(g, source_mime@, to, i as int) ==> target_listed(
                        r.deep_view(),
                        to,
                    ),
                forall|k: int| 0 <= k < r.deep_view().len() ==> edge_reaches(
                    g,
                    source_mime@,
                    (#[trigger] r.deep_view()[k]).format,
                    i as int,
                ),
                forall|k: int, l: int|
                    0 <= k < l < r.deep_view().len() ==> (#[trigger] r.deep_view()[k]).format != (
                    #[trigger] r.deep_view()[l]).format,
            decreases self.format_graph.len() - i,
        {
            let is_src = str_eq(self.format_graph[i].from.as_str(), source_mime);
            if is_src && self.format_graph[i].converter_ids.len() > 0 {
                let to_mime = self.format_graph[i].to.clone();
                let ghost prev = r.deep_view();
                let t = ConversionTarget {
                    format: to_mime.clone(),
                    mime_type: to_mime,
                    paths: Vec::new(),
                    recommended: false,
                    available: true,
                    missing_requirements: Vec::new(),
                };
                proof {
                    // the edge is populated, so its pair is reachable
                    assert(edge_matches(g[i as int], source_mime@, g[i as int].to));
                    assert(g[i as int].ids.contains(g[i as int].ids[0]));
                    assert(has_edge(g, source_mime@, g[i as int].to, g[i as int].ids[0]));
                    assert(triple(self@.caps, g[i as int].ids[0], source_mime@, g[i as int].to));
                    assert(reachable(self@.caps, source_mime@, g[i as int].to));
                    assert(t@.format == g[i as int].to);
                    assert(t@.paths =~= Seq::<crate::conversion::PathView>::empty());
                    assert(t@.missing_requirements =~= Seq::<Seq<char>>::empty());
                }
                r.push(t);
                proof {
                    assert(r.deep_view() =~= prev.push(t@));
                    assert forall|k: int| 0 <= k < r.deep_view().len() implies edge_reaches(
                        g,
                        source_mime@,
                        (#[trigger] r.deep_view()[k]).format,
                        i as int + 1,
                    ) by {
                        if k < prev.len() {
                            assert(edge_reaches(g, source_mime@, prev[k].format, i as int));
                            let m = choose|m: int|
                                0 <= m < i && edge_matches(#[trigger] g[m], source_mime@, prev[k].format)
                                    && g[m].ids.len() > 0;
                            assert(0 <= m < i + 1 && edge_matches(
                                g[m],
                                source_mime@,
                                r.deep_view()[k].format,
                            ) && g[m].ids.len() > 0);
                        } else {
                            assert(r.deep_view()[k] == t@);
                            assert(0 <= i < i + 1 && edge_matches(
                                g[i as int],
                                source_mime@,
                                r.deep_view()[k].format,
                            ) && g[i as int].ids.len() > 0);
                        }
                    }
                    // a second bucket for the same pair would break pair uniqueness
                    assert forall|k: int, l: int| 0 <= k < l < r.deep_view().len() implies (
                    r.deep_view()[k]).format != (r.deep_view()[l]).format by {
                        if l == r.deep_view().len() - 1 {
                            assert(edge_reaches(g, source_mime@, prev[k].format, i as int));
                            let m = choose|m: int|
                                0 <= m < i && edge_matches(#[trigger] g[m], source_mime@, prev[k].format)
                                    && g[m].ids.len() > 0;
                            if prev[k].format == t@.format {
                                assert(!(g[m].from == g[i as int].from && g[m].to
                                    == g[i as int].to));
                            }
                        }
                    }
                    assert forall|to: Seq<char>| #![trigger edge_reaches(g, source_mime@, to, i as int + 1)]
                        edge_reaches(g, source_mime@, to, i as int + 1) implies target_listed(
                        r.deep_view(),
                        to,
                    ) by {
                        let m = choose|m: int|
                            0 <= m < i + 1 && edge_matches(g[m], source_mime@, to) && g[m].ids.len()
                                > 0;
                        if m < i {
                            assert(edge_reaches(g, source_mime@, to, i as int));
                            let k = choose|k: int|
                                0 <= k < prev.len() && (#[trigger] prev[k]).format == to;
                            assert(r.deep_view()[k].format == to);
                        } else {
                            assert(r.deep_view()[r.deep_view().len() - 1].format == to);
                        }
                    }
                }
            } else {
                proof {
                    assert forall|k: int| 0 <= k < r.deep_view().len() implies edge_reaches(
                        g,
                        source_mime@,
                        (#[trigger] r.deep_view()[k]).format,
                        i as int + 1,
                    ) by {
                        assert(edge_reaches(g, source_mime@, r.deep_view()[k].format, i as int));
                        let m = choose|m: int|
                            0 <= m < i && edge_matches(
                                #[trigger] g[m],
                                source_mime@,
                                r.deep_view()[k].format,
                            ) && g[m].ids.len() > 0;
                        assert(0 <= m < i + 1 && edge_matches(
                            g[m],
                            source_mime@,
                            r.deep_view()[k].format,
                        ) && g[m].ids.len() > 0);
                    }
                    assert forall|to: Seq<char>| #![trigger edge_reaches(g, source_mime@, to, i as int + 1)]
                        edge_reaches(g, source_mime@, to, i as int + 1) implies target_listed(
                        r.deep_view(),
                        to,
                    ) by {
                        let m = choose|m: int|
                            0 <= m < i + 1 && edge_matches(g[m], source_mime@, to) && g[m].ids.len()
                                > 0;
                        assert(m < i);
                        assert(edge_reaches(g, source_mime@, to, i as int));
                    }
                }
            }
            i = i + 1;
        }
        proof {
            assert forall|to: Seq<char>|
                #![trigger reachable(self@.caps, source_mime@, to)]
                reachable(self@.caps, source_mime@, to) implies target_listed(
                r.deep_view(),
                to,
            ) by {
                let x = choose|x: Seq<char>| triple(self@.caps, x, source_mime@, to);
                assert(has_edge(g, source_mime@, to, x));
                let m = choose|m: int|
                    0 <= m < g.len() && edge_matches(g[m], source_mime@, to) && g[m].ids.contains(
                        x,
                    );
                let n = choose|n: int| 0 <= n < g[m].ids.len() && g[m].ids[n] == x;
                assert(g[m].ids.len() > 0);
                assert(edge_reaches(g, source_mime@, to, self.format_graph.len() as int));
            }
        }
        r
    }

    /// Atomically replaces the whole capability set and rebuilds the graph;
    /// the swap is all-or-nothing, so readers never see a mixed set. The new
    /// declarations must carry distinct ids and valid scores, else the
    /// registry is left untouched.
    pub fn refresh(&mut self, capabilities: Vec<CapabilityRecord>) -> (r: Result<(), AppError>)
        requires
            old(self)@.wf(),
        ensures
            final(self)@.wf(),
            r is Ok <==> (forall|a: int, b: int|
                0 <= a < b < capabilities.deep_view().len() ==> (
                #[trigger] capabilities.deep_view()[a]).id != (
                #[trigger] capabilities.deep_view()[b]).id) && (forall|a: int|
                0 <= a < capabilities.deep_view().len() ==> (
                #[trigger] capabilities.deep_view()[a]).wf()),
            match r {
                Ok(_) => final(self)@.caps == capabilities.deep_view(),
                Err(e) => final(self)@ == old(self)@ && e is ValidationError,
            },
    {
        let ghost cv = capabilities.deep_view();
        let mut i: usize = 0;
        while i < capabilities.len()
            invariant
                i <= capabilities.len(),
                cv == capabilities.deep_view(),
                old(self)@.wf(),
                self@ == old(self)@,
                forall|a: int| 0 <= a < i ==> (#[trigger] cv[a]).wf(),
                forall|a: int, b: int| 0 <= a < b < cv.len() && a < i ==> (#[trigger] cv[a]).id
                    != (#[trigger] cv[b]).id,
            decreases capabilities.len() - i,
        {
            let c = &capabilities[i];
            let scores_ok = c.quality <= crate::SCALE && c.speed <= crate::SCALE && c.cost.cpu
                <= crate::SCALE && c.cost.memory <= crate::SCALE && c.cost.gpu <= crate::SCALE;
            if !scores_ok {
                proof {
                    assert(!(#[trigger] capabilities.deep_view()[i as int]).wf());
                }
                return Err(
                    AppError::ValidationError("capability declares a score out of range".to_owned()),
                );
            }
            let mut j: usize = i + 1;
            while j < capabilities.len()
                invariant
                    i < j <= capabilities.len(),
                    cv == capabilities.deep_view(),
                    old(self)@.wf(),
                    self@ == old(self)@,
                    forall|b: int| i < b < j ==> (#[trigger] cv[b]).id != cv[i as int].id,
                decreases capabilities.len() - j,
            {
                if str_eq(capabilities[j].id.as_str(), capabilities[i].id.as_str()) {
                    proof {
                        assert((#[trigger] capabilities.deep_view()[i as int]).id == (
                        #[trigger] capabilities.deep_view()[j as int]).id);
                    }
                    return Err(
                        AppError::ValidationError("duplicate capability id".to_owned()),
                    );
                }
                j = j + 1;
            }
            i = i + 1;
        }
        self.capabilities = capabilities;
        let g = build_graph(&self.capabilities);
        self.format_graph = g;
        Ok(())
    }

    /// Collects the distinct external tool binaries required by registered
    /// capabilities.
    pub fn required_tools(&self) -> (r: Vec<String>)
        ensures
            distinct_seq(r.deep_view()),
            forall|t: Seq<char>| #![trigger r.deep_view().contains(t)]
                r.deep_view().contains(t) <==> requires_tool(self@.caps, t),
    {
        let ghost caps = self@.caps;
        let mut r: Vec<String> = Vec::new();
        proof {
            assert(r.deep_view() =~= Seq::<Seq<char>>::empty());
        }
        let mut i: usize = 0;
        while i < self.capabilities.len()
            invariant
                i <= self.capabilities.len(),
                caps == self@.caps,
                caps == self.capabilities.deep_view(),
                distinct_seq(r.deep_view()),
                forall|t: Seq<char>| #![trigger r.deep_view().contains(t)]
                    r.deep_view().contains(t) <==> (exists|k: int|
                        0 <= k < i && (#[trigger] caps[k]).requires.tools.contains(t)),
            decreases self.capabilities.len() - i,
        {
            let tools = &self.capabilities[i].requires.tools;
            let ghost tv = tools.deep_view();
            let mut j: usize = 0;
            while j < tools.len()
                invariant
                    j <= tools.len(),
                    i < self.capabilities.len(),
                    caps == self@.caps,
                    caps == self.capabilities.deep_view(),
                    tv == caps[i as int].requires.tools,
                    tv == tools.deep_view(),
                    distinct_seq(r.deep_view()),
                    forall|t: Seq<char>| #![trigger r.deep_view().contains(t)]
                        r.deep_view().contains(t) <==> ((exists|k: int|
                            0 <= k < i && (#[trigger] caps[k]).requires.tools.contains(t))
                            || (exists|l: int| 0 <= l < j && tv[l] == t)),
                decreases tools.len() - j,
            {
                let tool = &tools[j];
                if !contains_str(&r, tool.as_str()) {
                    let ghost prev = r.deep_view();
                    r.push(tool.clone());
                    proof {
                        assert(r.deep_view() =~= prev.push(tv[j as int]));
                        assert forall|a: int, b: int| 0 <= a < b < r.deep_view().len() implies r.deep_view()[a]
                            != r.deep_view()[b] by {
                            if b == r.deep_view().len() - 1 {
                                assert(r.deep_view()[a] == prev[a]);
                                assert(prev.contains(prev[a]));
                            }
                        }
                        assert forall|t: Seq<char>| #![trigger r.deep_view().contains(t)]
                            r.deep_view().contains(t) <==> ((exists|k: int|
                                0 <= k < i && (#[trigger] caps[k]).requires.tools.contains(t))
                                || (exists|l: int| 0 <= l < j + 1 && tv[l] == t)) by {
                            crate::text::lemma_push_contains(prev, tv[j as int], t);
                            if t == tv[j as int] {
                                assert(exists|l: int| 0 <= l < j + 1 && tv[l] == t);
                            }
                        }
                    }
                } else {
                    proof {
                        assert(tv[j as int] == tools.deep_view()[j as int]);
                        assert forall|t: Seq<char>| #![trigger r.deep_view().contains(t)]
                            r.deep_view().contains(t) <==> ((exists|k: int|
                                0 <= k < i && (#[trigger] caps[k]).requires.tools.contains(t))
                                || (exists|l: int| 0 <= l < j + 1 && tv[l] == t)) by {
                            if t == tv[j as int] {
                                assert(r.deep_view().contains(t));
                            }
                        }
                    }
                }
                j = j + 1;
            }
            proof {
                assert forall|t: Seq<char>| #![trigger r.deep_view().contains(t)]
                    r.deep_view().contains(t) <==> (exists|k: int|
                        0 <= k < i + 1 && (#[trigger] caps[k]).requires.tools.contains(t)) by {
                    if exists|l: int| 0 <= l < tv.len() && tv[l] == t {
                        assert(caps[i as int].requires.tools.contains(t));
                    }
                    if caps[i as int].requires.tools.contains(t) {
                        let l = choose|l: int| 0 <= l < tv.len() && tv[l] == t;
                        assert(exists|l2: int| 0 <= l2 < tv.len() && tv[l2] == t);
                    }
                    if exists|k: int| 0 <= k < i + 1 && (#[trigger] caps[k]).requires.tools.contains(t) {
                        let k = choose|k: int|
                            0 <= k < i + 1 && (#[trigger] caps[k]).requires.tools.contains(t);
                        if k < i {
                            assert(exists|k2: int|
                                0 <= k2 < i && (#[trigger] caps[k2]).requires.tools.contains(t));
                        }
                    }
                }
            }
            i = i + 1;
        }
        r
    }

    /// Assembles a health report from probe results for the required tools,
    /// stamped with the current time. Probing itself happens outside, so no
    /// registry lock is held while tools are examined.
    pub fn check_health(&self, probes: Vec<ToolHealth>) -> (r: HealthReport)
        ensures
            r@.tools == probes.deep_view(),
    {
        HealthReport { tools: probes, timestamp: now_millis() }
    }
}

/// Every declared `(input alias, output alias)` pair of a registered
/// capability is present as an edge of the format graph under the
/// capability's id; together with [`lemma_graph_edges_sound`] the graph
/// holds exactly the registered capabilities' edges, so replacing a
/// capability removes exactly its stale edges and no others.
pub proof fn lemma_registered_edges_present(
    r: RegistryView,
    c: CapView,
    f: Seq<char>,
    t: Seq<char>,
)
    requires
        r.wf(),
        r.caps.contains(c),
        c.has_input_alias(f),
        c.has_output_alias(t),
    ensures
        has_edge(r.graph, f, t, c.id),
{
    let j = choose|j: int| 0 <= j < r.caps.len() && r.caps[j] == c;
    assert(r.caps[j].id == c.id && r.caps[j].has_input_alias(f) && r.caps[j].has_output_alias(t));
    assert(triple(r.caps, c.id, f, t));
}

/// Every id on a graph edge belongs to a registered capability declaring
/// that alias pair: the graph never holds an edge of an unregistered or
/// replaced capability.
pub proof fn lemma_graph_edges_sound(r: RegistryView, f: Seq<char>, t: Seq<char>, id: Seq<char>)
    requires
        r.wf(),
        has_edge(r.graph, f, t, id),
    ensures
        triple(r.caps, id, f, t),
        exists|j: int|
            0 <= j < r.caps.len() && (#[trigger] r.caps[j]).id == id && r.caps[j].has_input_alias(f)
                && r.caps[j].has_output_alias(t),
{
    assert(triple(r.caps, id, f, t));
}

/// Registration is symmetric with lookup: once a capability is in the
/// table, every declared input alias `f` and output alias `t` yields the
/// triple fact that `find_converters(f, t)`'s contract turns into
/// membership of the capability's id in its result.
pub proof fn lemma_find_converters_symmetry(
    r: RegistryView,
    c: CapView,
    f: Seq<char>,
    t: Seq<char>,
)
    requires
        r.wf(),
        r.caps.contains(c),
        c.has_input_alias(f),
        c.has_output_alias(t),
    ensures
        triple(r.caps, c.id, f, t),
{
    let j = choose|j: int| 0 <= j < r.caps.len() && r.caps[j] == c;
    assert(r.caps[j].id == c.id && r.caps[j].has_input_alias(f) && r.caps[j].has_output_alias(t));
}

} // verus!
