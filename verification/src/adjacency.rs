//! Expanding matched graphs along adjacent edges (`GetAdj`): which edges to
//! load from storage, which of the loaded edges match, and how the matching
//! ones become expansions grouped by the pattern vertex they lead to.

use vstd::prelude::*;
use crate::buckets::{all_wf, ABucket};
use crate::dyn_graph::{DynGraph, GraphView};
use crate::expand_graph::{dangling_fold, dangling_sound, edges_view, law_dangling_edges_leave_graph, DanglingState, ExpandGraph};
use crate::keys::same_key;
use crate::maps::{
    lists_indices, pattern_vertex_items, strs_view, vid_set_items, PatternVertexMap,
    PendingEntry, VidSet,
};
use crate::schemas::{
    satisfies_pattern, spec_satisfies_pattern, DataEdge, DataVertex, EdgeView, PatternEdge, PatternVertex, VertexView,
};

verus! {

/// The end of an edge that an expansion reaches: the target when the
/// expansion leaves from the source, else the source.
pub open spec fn next_vid(e: EdgeView, is_src: bool) -> Seq<char> {
    if is_src { e.2 } else { e.1 }
}

/// Whether some group has key `k`.
pub open spec fn has_group(gs: Seq<(Seq<char>, Seq<EdgeView>)>, k: Seq<char>) -> bool {
    exists|j: int| 0 <= j < gs.len() && (#[trigger] gs[j]).0 == k
}

/// Edges grouped by the vertex they reach, groups in the order their first
/// edge comes, edges in their own order.
pub open spec fn group_by_next(es: Seq<EdgeView>, is_src: bool) -> Seq<(Seq<char>, Seq<EdgeView>)>
    decreases es.len(),
{
    if es.len() == 0 {
        Seq::empty()
    } else {
        let p = group_by_next(es.drop_last(), is_src);
        let e = es.last();
        let k = next_vid(e, is_src);
        if has_group(p, k) {
            let j = choose|j: int| 0 <= j < p.len() && (#[trigger] p[j]).0 == k;
            p.update(j, (k, p[j].1.push(e)))
        } else {
            p.push((k, seq![e]))
        }
    }
}

/// No two groups share a key.
pub open spec fn distinct_groups(gs: Seq<(Seq<char>, Seq<EdgeView>)>) -> bool {
    forall|i: int, j: int| 0 <= i < gs.len() && 0 <= j < gs.len() && i != j ==> (#[trigger] gs[i]).0 != (#[trigger] gs[j]).0
}

/// Grouping never gives two groups the same key.
pub proof fn lemma_group_by_next_distinct(es: Seq<EdgeView>, is_src: bool)
    ensures
        distinct_groups(group_by_next(es, is_src)),
    decreases es.len(),
{
    if es.len() > 0 {
        lemma_group_by_next_distinct(es.drop_last(), is_src);
        let p = group_by_next(es.drop_last(), is_src);
        let k = next_vid(es.last(), is_src);
        if !has_group(p, k) {
            let g = group_by_next(es, is_src);
            assert forall|i: int, j: int| 0 <= i < g.len() && 0 <= j < g.len() && i != j implies (#[trigger] g[i]).0 != (#[trigger] g[j]).0 by {
                if i == p.len() {
                    assert(g[j] == p[j]);
                } else if j == p.len() {
                    assert(g[i] == p[i]);
                } else {
                    assert(g[i] == p[i] && g[j] == p[j]);
                }
            }
        }
    }
}

/// Grouping edges by the vertex they reach puts every edge in the group of
/// the vertex it reaches: no two groups share a vertex, no group is empty,
/// every edge of a group reaches the group's vertex, and every edge lies in
/// some group.
pub proof fn law_group_by_next(es: Seq<EdgeView>, is_src: bool)
    ensures
        distinct_groups(group_by_next(es, is_src)),
        forall|j: int| 0 <= j < group_by_next(es, is_src).len() ==> (#[trigger] group_by_next(es, is_src)[j]).1.len() > 0,
        forall|j: int, t: int| 0 <= j < group_by_next(es, is_src).len() && 0 <= t < group_by_next(es, is_src)[j].1.len()
            ==> next_vid(#[trigger] group_by_next(es, is_src)[j].1[t], is_src) == group_by_next(es, is_src)[j].0,
        forall|i: int| #![trigger es[i]] 0 <= i < es.len() ==> exists|j: int, t: int|
            0 <= j < group_by_next(es, is_src).len() && 0 <= t < group_by_next(es, is_src)[j].1.len()
            && #[trigger] group_by_next(es, is_src)[j].1[t] == es[i],
    decreases es.len(),
{
    lemma_group_by_next_distinct(es, is_src);
    if es.len() > 0 {
        let d = es.drop_last();
        law_group_by_next(d, is_src);
        let p = group_by_next(d, is_src);
        let g = group_by_next(es, is_src);
        let e = es.last();
        let k = next_vid(e, is_src);
        if has_group(p, k) {
            let c = choose|c: int| 0 <= c < p.len() && (#[trigger] p[c]).0 == k;
            assert(g == p.update(c, (k, p[c].1.push(e))));
            assert forall|j: int| 0 <= j < g.len() implies (#[trigger] g[j]).1.len() > 0 by {
                if j != c {
                    assert(g[j] == p[j]);
                }
            }
            assert forall|j: int, t: int| 0 <= j < g.len() && 0 <= t < g[j].1.len()
                implies next_vid(#[trigger] g[j].1[t], is_src) == g[j].0 by {
                if j != c {
                    assert(g[j] == p[j]);
                } else if t < p[c].1.len() {
                    assert(g[j].1[t] == p[c].1[t]);
                }
            }
            assert forall|i: int| #![trigger es[i]] 0 <= i < es.len() implies exists|j: int, t: int|
                0 <= j < g.len() && 0 <= t < g[j].1.len() && #[trigger] g[j].1[t] == es[i] by {
                if i == es.len() - 1 {
                    assert(g[c].1[p[c].1.len() as int] == es[i]);
                } else {
                    assert(d[i] == es[i]);
                    let (j, t) = choose|j: int, t: int| 0 <= j < p.len() && 0 <= t < p[j].1.len() && #[trigger] p[j].1[t] == d[i];
                    if j == c {
                        assert(g[j].1[t] == p[j].1[t]);
                    } else {
                        assert(g[j] == p[j]);
                    }
                }
            }
        } else {
            assert(g == p.push((k, seq![e])));
            assert forall|j: int| 0 <= j < g.len() implies (#[trigger] g[j]).1.len() > 0 by {
                if j < p.len() {
                    assert(g[j] == p[j]);
                }
            }
            assert forall|j: int, t: int| 0 <= j < g.len() && 0 <= t < g[j].1.len()
                implies next_vid(#[trigger] g[j].1[t], is_src) == g[j].0 by {
                if j < p.len() {
                    assert(g[j] == p[j]);
                }
            }
            assert forall|i: int| #![trigger es[i]] 0 <= i < es.len() implies exists|j: int, t: int|
                0 <= j < g.len() && 0 <= t < g[j].1.len() && #[trigger] g[j].1[t] == es[i] by {
                if i == es.len() - 1 {
                    assert(g[p.len() as int].1[0] == es[i]);
                } else {
                    assert(d[i] == es[i]);
                    let (j, t) = choose|j: int, t: int| 0 <= j < p.len() && 0 <= t < p[j].1.len() && #[trigger] p[j].1[t] == d[i];
                    assert(g[j] == p[j]);
                }
            }
        }
    }
}

/// The views of exec groups.
pub open spec fn groups_view(keys: Seq<String>, groups: Seq<Vec<DataEdge>>) -> Seq<(Seq<char>, Seq<EdgeView>)> {
    Seq::new(keys.len(), |i: int| (keys[i]@, edges_view(groups[i]@)))
}

/// Groups edges by the vertex they reach: `(keys[i], groups[i])` is a group.
pub fn group_edges_by_next(edges: Vec<DataEdge>, is_src: bool) -> (r: (Vec<String>, Vec<Vec<DataEdge>>))
    ensures
        r.0@.len() == r.1@.len(),
        groups_view(r.0@, r.1@) == group_by_next(edges_view(edges@), is_src),
{
    let ghost es = edges_view(edges@);
    let ghost orig = edges@;
    let mut rest = edges;
    let mut keys: Vec<String> = Vec::new();
    let mut groups: Vec<Vec<DataEdge>> = Vec::new();
    let ghost mut n: int = 0;
    proof {
        assert(groups_view(keys@, groups@) =~= group_by_next(es.take(0), is_src));
    }
    while rest.len() > 0
        invariant
            0 <= n <= orig.len(),
            es == edges_view(orig),
            rest@ == orig.skip(n),
            keys@.len() == groups@.len(),
            groups_view(keys@, groups@) == group_by_next(es.take(n), is_src),
        decreases rest@.len(),
    {
        let e = rest.remove(0);
        let ghost p = group_by_next(es.take(n), is_src);
        proof {
            assert(orig.skip(n)[0] == e);
            assert(orig[n] == e);
            assert(es[n] == e@);
            assert(es.take(n + 1).drop_last() =~= es.take(n));
            assert(es.take(n + 1).last() == e@);
            lemma_group_by_next_distinct(es.take(n), is_src);
        }
        let k = if is_src { e.dst_vid.clone() } else { e.src_vid.clone() };
        assert(k@ == next_vid(e@, is_src));
        let mut j: usize = 0;
        let mut found = false;
        while !found && j < keys.len()
            invariant
                j <= keys@.len(),
                keys@.len() == groups@.len(),
                groups_view(keys@, groups@) == p,
                found ==> j < keys@.len() && keys@[j as int]@ == k@,
                !found ==> forall|q: int| 0 <= q < j ==> keys@[q]@ != k@,
            decreases keys@.len() - j + (if found { 0int } else { 1int }),
        {
            if same_key(keys[j].as_str(), k.as_str()) {
                found = true;
            } else {
                j = j + 1;
            }
        }
        if found {
            let ghost jj = j as int;
            let ghost og = groups@;
            let mut g = groups.remove(j);
            g.push(e);
            groups.insert(j, g);
            proof {
                assert(groups@.len() == og.len());
                assert(groups@[jj]@ =~= og[jj]@.push(e));
                assert(edges_view(groups@[jj]@) =~= edges_view(og[jj]@).push(e@));
                assert(forall|i: int| 0 <= i < og.len() && i != jj ==> groups@[i] == og[i]);
                assert(p[jj].0 == k@);
                assert(has_group(p, k@));
                let c = choose|c: int| 0 <= c < p.len() && (#[trigger] p[c]).0 == k@;
                assert(c == jj);
                assert(groups_view(keys@, groups@) =~= p.update(jj, (k@, p[jj].1.push(e@))));
            }
        } else {
            proof {
                assert(!has_group(p, k@)) by {
                    if has_group(p, k@) {
                        let c = choose|c: int| 0 <= c < p.len() && (#[trigger] p[c]).0 == k@;
                        assert(groups_view(keys@, groups@)[c].0 == keys@[c]@);
                    }
                }
            }
            keys.push(k);
            let mut g: Vec<DataEdge> = Vec::new();
            g.push(e);
            groups.push(g);
            proof {
                assert(edges_view(seq![e]) =~= seq![e@]);
                assert(groups_view(keys@, groups@) =~= p.push((k@, seq![e@])));
            }
        }
        proof {
            assert(rest@ =~= orig.skip(n + 1));
            n = n + 1;
        }
    }
    proof {
        assert(es.take(n) =~= es);
    }
    (keys, groups)
}

/// The edges of `es` that the graph does not hold yet, in order.
pub open spec fn unmatched_edges(g: GraphView, es: Seq<EdgeView>) -> Seq<EdgeView>
    decreases es.len(),
{
    if es.len() == 0 {
        Seq::empty()
    } else {
        let p = unmatched_edges(g, es.drop_last());
        if g.2.dom().contains(es.last().0) {
            p
        } else {
            p.push(es.last())
        }
    }
}

/// Of the edges loaded for a frontier vertex, those the matched graph does
/// not hold yet, in order.
pub fn incremental_match_candidates(curr_matched_dg: &DynGraph, potential_edges: Vec<DataEdge>) -> (r: Vec<DataEdge>)
    ensures
        edges_view(r@) == unmatched_edges(curr_matched_dg.gview(), edges_view(potential_edges@)),
{
    let ghost orig = potential_edges@;
    let ghost es = edges_view(orig);
    let mut rest = potential_edges;
    let mut r: Vec<DataEdge> = Vec::new();
    let ghost mut n: int = 0;
    while rest.len() > 0
        invariant
            0 <= n <= orig.len(),
            es == edges_view(orig),
            rest@ == orig.skip(n),
            edges_view(r@) == unmatched_edges(curr_matched_dg.gview(), es.take(n)),
        decreases rest@.len(),
    {
        let e = rest.remove(0);
        proof {
            assert(orig.skip(n)[0] == e);
            assert(es[n] == e@);
            assert(es.take(n + 1).drop_last() =~= es.take(n));
            assert(es.take(n + 1).last() == e@);
        }
        let ghost rv = edges_view(r@);
        if !curr_matched_dg.has_eid(e.eid.as_str()) {
            r.push(e);
            assert(edges_view(r@) =~= rv.push(e@));
        }
        proof {
            assert(rest@ =~= orig.skip(n + 1));
            n = n + 1;
        }
    }
    proof {
        assert(es.take(n) =~= es);
    }
    r
}

/// The edges whose reached vertex satisfies the pattern vertex, in order;
/// `vs[i]` is the vertex that `es[i]` reaches.
pub open spec fn satisfying_edges(pat_v: PatternVertex, es: Seq<EdgeView>, vs: Seq<DataVertex>) -> Seq<EdgeView>
    decreases es.len(),
{
    if es.len() == 0 {
        Seq::empty()
    } else {
        let p = satisfying_edges(pat_v, es.drop_last(), vs.drop_last());
        if spec_satisfies_pattern(pat_v, vs.last()) {
            p.push(es.last())
        } else {
            p
        }
    }
}

/// Of the candidate edges, those whose reached vertex, loaded as
/// `next_vertices[i]` for `edges[i]`, satisfies the next pattern vertex.
pub fn incremental_match_select(
    next_pat_v: &PatternVertex,
    edges: Vec<DataEdge>,
    next_vertices: &Vec<DataVertex>,
) -> (r: Vec<DataEdge>)
    requires
        edges@.len() == next_vertices@.len(),
    ensures
        edges_view(r@) == satisfying_edges(*next_pat_v, edges_view(edges@), next_vertices@),
{
    let ghost orig = edges@;
    let ghost es = edges_view(orig);
    let ghost vs = next_vertices@;
    let mut rest = edges;
    let mut r: Vec<DataEdge> = Vec::new();
    let mut n: usize = 0;
    while n < next_vertices.len()
        invariant
            0 <= n <= orig.len(),
            orig.len() == vs.len(),
            vs == next_vertices@,
            es == edges_view(orig),
            rest@ == orig.skip(n as int),
            rest@.len() == orig.len() - n,
            edges_view(r@) == satisfying_edges(*next_pat_v, es.take(n as int), vs.take(n as int)),
        decreases rest@.len(),
    {
        let e = rest.remove(0);
        proof {
            assert(orig.skip(n as int)[0] == e);
            assert(es[n as int] == e@);
            assert(es.take(n + 1).drop_last() =~= es.take(n as int));
            assert(es.take(n + 1).last() == e@);
            assert(vs.take(n + 1).drop_last() =~= vs.take(n as int));
            assert(vs.take(n + 1).last() == vs[n as int]);
        }
        let ghost rv = edges_view(r@);
        if satisfies_pattern(next_pat_v, &next_vertices[n]) {
            r.push(e);
            assert(edges_view(r@) =~= rv.push(e@));
        }
        proof {
            assert(rest@ =~= orig.skip(n + 1));
        }
        n = n + 1;
    }
    proof {
        assert(es.take(n as int) =~= es);
        assert(vs.take(n as int) =~= vs);
    }
    r
}

/// One load of edges that expanding a bucket needs: the data edges that
/// match pattern edge `pattern_es[pat_e_pos]` at frontier vertex
/// `frontier_vid` of matched graph `idx`, leaving that vertex when
/// `is_src_curr_pat`, else reaching it.
pub struct EdgeLoad {
    pub idx: usize,
    pub frontier_vid: String,
    pub pat_e_pos: usize,
    pub is_src_curr_pat: bool,
}

/// What a load holds: graph position, frontier vertex, pattern edge position
/// and direction.
pub type LoadView = (usize, Seq<char>, usize, bool);

impl View for EdgeLoad {
    type V = LoadView;

    open spec fn view(&self) -> LoadView {
        (self.idx, self.frontier_vid@, self.pat_e_pos, self.is_src_curr_pat)
    }
}

/// The views of a list of loads.
pub open spec fn loads_view(ls: Seq<EdgeLoad>) -> Seq<LoadView> {
    ls.map_values(|l: EdgeLoad| l@)
}

/// Whether some edge of the graph matches pattern edge `p`.
pub open spec fn graph_has_e_pattern(g: GraphView, p: Seq<char>) -> bool {
    exists|k: Seq<char>| #[trigger] g.3.dom().contains(k) && g.3[k] == p
}

/// The loads at frontier vertex `fv` of graph `idx` for the first `n`
/// pattern edges: one for each that no edge of the graph matches yet.
pub open spec fn pattern_loads(
    g: GraphView,
    idx: usize,
    fv: Seq<char>,
    pes: Seq<PatternEdge>,
    curr: Seq<char>,
    n: nat,
) -> Seq<LoadView>
    decreases n,
{
    if n == 0 {
        Seq::empty()
    } else {
        let p = pattern_loads(g, idx, fv, pes, curr, (n - 1) as nat);
        let pe = pes[n - 1];
        if graph_has_e_pattern(g, pe.eid@) {
            p
        } else {
            p.push((idx, fv, (n - 1) as usize, curr == pe.src_vid@))
        }
    }
}

/// The loads for the first `m` frontier vertices of graph `idx`.
pub open spec fn frontier_loads(
    g: GraphView,
    idx: usize,
    fvs: Seq<Seq<char>>,
    pes: Seq<PatternEdge>,
    curr: Seq<char>,
    m: nat,
) -> Seq<LoadView>
    decreases m,
{
    if m == 0 {
        Seq::empty()
    } else {
        frontier_loads(g, idx, fvs, pes, curr, (m - 1) as nat) + pattern_loads(g, idx, fvs[m - 1], pes, curr, pes.len())
    }
}

/// The loads for the graphs at the first `k` positions of `ks`, each with
/// its frontier vertices.
pub open spec fn planned_loads(
    ks: Seq<usize>,
    gs: Seq<GraphView>,
    fr: Map<usize, Seq<Seq<char>>>,
    pes: Seq<PatternEdge>,
    curr: Seq<char>,
    k: nat,
) -> Seq<LoadView>
    decreases k,
{
    if k == 0 {
        Seq::empty()
    } else {
        let idx = ks[k - 1];
        planned_loads(ks, gs, fr, pes, curr, (k - 1) as nat) + frontier_loads(gs[idx as int], idx, fr[idx], pes, curr, fr[idx].len())
    }
}

impl ABucket {
    /// The loads that expanding the bucket along `pattern_es` needs: for each
    /// matched graph, in the order of the frontier map, for each of its
    /// frontier vertices, for each pattern edge that no edge of the graph
    /// matches yet, one load, leaving the frontier vertex when the pattern
    /// edge starts at `curr_pat_vid`, else reaching it.
    pub fn plan_edge_loads(&self, pattern_es: &Vec<PatternEdge>) -> (r: Vec<EdgeLoad>)
        requires
            forall|i: usize| #[trigger] self.frontiers().dom().contains(i) ==> i < self.all_matched@.len(),
        ensures
            exists|ks: Seq<usize>|
                lists_indices(ks, self.frontiers().dom())
                && loads_view(r@) == planned_loads(ks, self.graphs(), self.frontiers(), pattern_es@, self.curr_pat_vid@, ks.len()),
    {
        let ghost gs = self.graphs();
        let ghost fr = self.frontiers();
        let ghost pes = pattern_es@;
        let ghost curr = self.curr_pat_vid@;
        let ks = self.matched_with_frontiers.keys();
        let mut r: Vec<EdgeLoad> = Vec::new();
        let mut a: usize = 0;
        while a < ks.len()
            invariant
                a <= ks@.len(),
                lists_indices(ks@, fr.dom()),
                fr == self.frontiers(),
                gs == self.graphs(),
                pes == pattern_es@,
                curr == self.curr_pat_vid@,
                forall|i: usize| #[trigger] fr.dom().contains(i) ==> i < self.all_matched@.len(),
                loads_view(r@) == planned_loads(ks@, gs, fr, pes, curr, a as nat),
            decreases ks@.len() - a,
        {
            let idx = ks[a];
            assert(fr.dom().contains(idx));
            let fvs = self.matched_with_frontiers.get(idx).unwrap();
            let g = &self.all_matched[idx];
            assert(g.gview() == gs[idx as int]);
            let ghost base = loads_view(r@);
            let mut b: usize = 0;
            while b < fvs.len()
                invariant
                    b <= fvs@.len(),
                    idx < gs.len(),
                    strs_view(fvs@) == fr[idx],
                    g.gview() == gs[idx as int],
                    pes == pattern_es@,
                    curr == self.curr_pat_vid@,
                    loads_view(r@) == base + frontier_loads(gs[idx as int], idx, fr[idx], pes, curr, b as nat),
                decreases fvs@.len() - b,
            {
                let ghost fv = fr[idx][b as int];
                assert(fvs@[b as int]@ == fv);
                let ghost mid = loads_view(r@);
                let mut c: usize = 0;
                while c < pattern_es.len()
                    invariant
                        c <= pes.len(),
                        b < fvs@.len(),
                        idx < gs.len(),
                        fvs@[b as int]@ == fv,
                        g.gview() == gs[idx as int],
                        pes == pattern_es@,
                        curr == self.curr_pat_vid@,
                        loads_view(r@) == mid + pattern_loads(gs[idx as int], idx, fv, pes, curr, c as nat),
                    decreases pes.len() - c,
                {
                    let pe = &pattern_es[c];
                    let ghost before = loads_view(r@);
                    if !g.has_e_pattern(pe.eid.as_str()) {
                        let l = EdgeLoad {
                            idx,
                            frontier_vid: fvs[b].clone(),
                            pat_e_pos: c,
                            is_src_curr_pat: same_key(self.curr_pat_vid.as_str(), pe.src_vid.as_str()),
                        };
                        r.push(l);
                        assert(loads_view(r@) =~= before.push(l@));
                    }
                    proof {
                        let g0 = gs[idx as int];
                        assert(g.gview().3 == g0.3);
                        assert(graph_has_e_pattern(g0, pe.eid@) == graph_has_e_pattern(g.gview(), pe.eid@));
                        assert(pes[c as int] == *pe);
                        assert(pattern_loads(g0, idx, fv, pes, curr, (c + 1) as nat) == (if graph_has_e_pattern(g0, pe.eid@) {
                            pattern_loads(g0, idx, fv, pes, curr, c as nat)
                        } else {
                            pattern_loads(g0, idx, fv, pes, curr, c as nat).push((idx, fv, c, curr == pe.src_vid@))
                        }));
                    }
                    c = c + 1;
                }
                assert(loads_view(r@) =~= base + frontier_loads(gs[idx as int], idx, fr[idx], pes, curr, (b + 1) as nat));
                b = b + 1;
            }
            assert(loads_view(r@) =~= planned_loads(ks@, gs, fr, pes, curr, (a + 1) as nat));
            a = a + 1;
        }
        r
    }
}

/// What an expansion holds: the matched graph, the dangling state, the
/// target vertex ids, the target vertices and their patterns.
pub type ExpandView = (
    GraphView,
    DanglingState,
    Seq<Seq<char>>,
    Map<Seq<char>, VertexView>,
    Map<Seq<char>, Seq<char>>,
);

/// The views of the expansions of each group.
pub open spec fn groups_xview(m: Map<Seq<char>, Seq<ExpandGraph>>) -> Map<Seq<char>, Seq<ExpandView>> {
    m.map_values(|s: Seq<ExpandGraph>| s.map_values(|x: ExpandGraph| x.xview()))
}

/// Every expansion of every group is well formed.
pub open spec fn groups_wf(m: Map<Seq<char>, Seq<ExpandGraph>>) -> bool {
    forall|k: Seq<char>, i: int| #[trigger] m.dom().contains(k) && 0 <= i < m[k].len() ==> (#[trigger] m[k][i]).wf()
}

/// The expansion of matched graph `g` by the dangling edges `es`, each
/// matching pattern edge `pat`, with no target vertex confirmed yet.
pub open spec fn fresh_expansion(g: GraphView, es: Seq<EdgeView>, pat: Seq<char>) -> ExpandView {
    (
        g,
        dangling_fold(
            g.0.dom(),
            g.2.dom(),
            (Seq::<PendingEntry>::empty(), Map::<Seq<char>, EdgeView>::empty(), Map::<Seq<char>, Seq<char>>::empty()),
            es,
            Seq::new(es.len(), |i: int| pat),
            es.len(),
        ),
        Seq::<Seq<char>>::empty(),
        Map::<Seq<char>, VertexView>::empty(),
        Map::<Seq<char>, Seq<char>>::empty(),
    )
}

/// Every expansion that a load gives is sound: its pending vertices lie
/// outside the matched graph and each of its dangling edges has exactly one
/// end in it.
pub proof fn law_fresh_expansion_sound(g: GraphView, es: Seq<EdgeView>, pat: Seq<char>)
    ensures
        dangling_sound(g.0.dom(), fresh_expansion(g, es, pat).1),
{
    let st = (Seq::<PendingEntry>::empty(), Map::<Seq<char>, EdgeView>::empty(), Map::<Seq<char>, Seq<char>>::empty());
    law_dangling_edges_leave_graph(g.0.dom(), g.2.dom(), st, es, Seq::new(es.len(), |i: int| pat), es.len());
}

/// The pattern vertex that load `l` leads to.
pub open spec fn load_next_pat(pes: Seq<PatternEdge>, l: LoadView) -> Seq<char> {
    if l.3 { pes[l.2 as int].dst_vid@ } else { pes[l.2 as int].src_vid@ }
}

/// Of the edges `d.0` loaded for `l`, with `d.1` the vertices that the
/// edges the graph lacks reach, those that match: the graph lacks them and
/// the vertex they reach satisfies the next pattern vertex.
pub open spec fn load_selected(
    gs: Seq<GraphView>,
    pes: Seq<PatternEdge>,
    pvs: Map<Seq<char>, PatternVertex>,
    l: LoadView,
    d: (Seq<EdgeView>, Seq<DataVertex>),
) -> Seq<EdgeView> {
    satisfying_edges(pvs[load_next_pat(pes, l)], unmatched_edges(gs[l.0 as int], d.0), d.1)
}

/// The expansions that load `l` gives: one for each vertex that the matching
/// edges reach, holding those edges.
pub open spec fn load_expansions(
    gs: Seq<GraphView>,
    pes: Seq<PatternEdge>,
    pvs: Map<Seq<char>, PatternVertex>,
    l: LoadView,
    d: (Seq<EdgeView>, Seq<DataVertex>),
) -> Seq<ExpandView> {
    group_by_next(load_selected(gs, pes, pvs, l, d), l.3).map_values(
        |grp: (Seq<char>, Seq<EdgeView>)| fresh_expansion(gs[l.0 as int], grp.1, pes[l.2 as int].eid@),
    )
}

/// The groups after the result `d` of load `l`: when some edge matches, the
/// expansions are appended to the group of the next pattern vertex.
pub open spec fn apply_load(
    m: Map<Seq<char>, Seq<ExpandView>>,
    gs: Seq<GraphView>,
    pes: Seq<PatternEdge>,
    pvs: Map<Seq<char>, PatternVertex>,
    l: LoadView,
    d: (Seq<EdgeView>, Seq<DataVertex>),
) -> Map<Seq<char>, Seq<ExpandView>> {
    if load_selected(gs, pes, pvs, l, d).len() == 0 {
        m
    } else {
        let k = load_next_pat(pes, l);
        let prev = if m.dom().contains(k) { m[k] } else { Seq::<ExpandView>::empty() };
        m.insert(k, prev + load_expansions(gs, pes, pvs, l, d))
    }
}

/// The groups after the results of the first `n` loads, in turn.
pub open spec fn apply_loads(
    m: Map<Seq<char>, Seq<ExpandView>>,
    gs: Seq<GraphView>,
    pes: Seq<PatternEdge>,
    pvs: Map<Seq<char>, PatternVertex>,
    ls: Seq<LoadView>,
    ds: Seq<(Seq<EdgeView>, Seq<DataVertex>)>,
    n: nat,
) -> Map<Seq<char>, Seq<ExpandView>>
    decreases n,
{
    if n == 0 {
        m
    } else {
        apply_load(apply_loads(m, gs, pes, pvs, ls, ds, (n - 1) as nat), gs, pes, pvs, ls[n - 1], ds[n - 1])
    }
}

/// A load made while expanding from pattern vertex `curr`, one end of its
/// pattern edge, leads to the other end: the edges it loads are kept when
/// the vertex they reach satisfies that other end, and the expansions they
/// give are appended to that other end's group, every other group staying
/// as it was. So a load whose pattern edge does not start at `curr` leads
/// to the edge's source, and one whose edge starts there to its target.
pub proof fn law_load_leads_to_other_end(
    m: Map<Seq<char>, Seq<ExpandView>>,
    gs: Seq<GraphView>,
    pes: Seq<PatternEdge>,
    pvs: Map<Seq<char>, PatternVertex>,
    l: LoadView,
    d: (Seq<EdgeView>, Seq<DataVertex>),
    curr: Seq<char>,
)
    requires
        l.2 < pes.len(),
        curr == pes[l.2 as int].src_vid@ || curr == pes[l.2 as int].dst_vid@,
        l.3 == (curr == pes[l.2 as int].src_vid@),
    ensures
        ({
            let e = pes[l.2 as int];
            let other = if curr == e.src_vid@ { e.dst_vid@ } else { e.src_vid@ };
            let sel = satisfying_edges(pvs[other], unmatched_edges(gs[l.0 as int], d.0), d.1);
            let r = apply_load(m, gs, pes, pvs, l, d);
            &&& load_selected(gs, pes, pvs, l, d) == sel
            &&& sel.len() == 0 ==> r == m
            &&& sel.len() > 0 ==> r.dom() == m.dom().insert(other)
                && r[other] == (if m.dom().contains(other) { m[other] } else { Seq::<ExpandView>::empty() })
                    + load_expansions(gs, pes, pvs, l, d)
                && forall|k: Seq<char>| k != other && #[trigger] m.dom().contains(k) ==> r[k] == m[k]
        }),
{
    let e = pes[l.2 as int];
    let other = if curr == e.src_vid@ { e.dst_vid@ } else { e.src_vid@ };
    assert(load_next_pat(pes, l) == other);
    let r = apply_load(m, gs, pes, pvs, l, d);
    if load_selected(gs, pes, pvs, l, d).len() > 0 {
        assert(r.dom() =~= m.dom().insert(other));
    }
}

/// The frontier vertices of the first `n` loads for which some edge matched.
pub open spec fn connected_by_loads(
    gs: Seq<GraphView>,
    pes: Seq<PatternEdge>,
    pvs: Map<Seq<char>, PatternVertex>,
    ls: Seq<LoadView>,
    ds: Seq<(Seq<EdgeView>, Seq<DataVertex>)>,
    n: nat,
) -> Set<Seq<char>>
    decreases n,
{
    if n == 0 {
        Set::empty()
    } else {
        let s = connected_by_loads(gs, pes, pvs, ls, ds, (n - 1) as nat);
        if load_selected(gs, pes, pvs, ls[n - 1], ds[n - 1]).len() > 0 {
            s.insert(ls[n - 1].1)
        } else {
            s
        }
    }
}

/// The views of the loaded edges and vertices.
pub open spec fn loaded_view(ds: Seq<(Vec<DataEdge>, Vec<DataVertex>)>) -> Seq<(Seq<EdgeView>, Seq<DataVertex>)> {
    ds.map_values(|d: (Vec<DataEdge>, Vec<DataVertex>)| (edges_view(d.0@), d.1@))
}

/// The result `d` fits load `l`: the load names a graph and a pattern edge,
/// there is one vertex for each loaded edge that the graph lacks, and when
/// there is such an edge the next pattern vertex is known.
pub open spec fn load_fits(
    gs: Seq<GraphView>,
    pes: Seq<PatternEdge>,
    pvs: Map<Seq<char>, PatternVertex>,
    l: LoadView,
    d: (Seq<EdgeView>, Seq<DataVertex>),
) -> bool {
    &&& l.0 < gs.len()
    &&& l.2 < pes.len()
    &&& d.1.len() == unmatched_edges(gs[l.0 as int], d.0).len()
    &&& unmatched_edges(gs[l.0 as int], d.0).len() > 0 ==> pvs.dom().contains(load_next_pat(pes, l))
}

/// The vertex that an edge reaches from the frontier: its target when the
/// load leaves the frontier vertex, else its source.
pub fn reached_vid(e: &DataEdge, is_src_curr_pat: bool) -> (r: &String)
    ensures
        r@ == next_vid(e@, is_src_curr_pat),
{
    if is_src_curr_pat { &e.dst_vid } else { &e.src_vid }
}

/// `n` copies of a name.
fn repeat_name(name: &String, n: usize) -> (r: Vec<String>)
    ensures
        r@.len() == n,
        strs_view(r@) == Seq::new(n as nat, |i: int| name@),
{
    let mut r: Vec<String> = Vec::new();
    let mut i: usize = 0;
    while i < n
        invariant
            i <= n,
            r@.len() == i,
            strs_view(r@) == Seq::new(i as nat, |j: int| name@),
        decreases n - i,
    {
        let ghost before = strs_view(r@);
        r.push(name.clone());
        assert(strs_view(r@) =~= before.push(name@));
        i = i + 1;
        assert(strs_view(r@) =~= Seq::new(i as nat, |j: int| name@));
    }
    r
}

/// Appends one expansion of `g` for each group of edges, each edge matching
/// pattern edge `pat`.
fn push_fresh_expansions(list: &mut Vec<ExpandGraph>, g: &DynGraph, groups: &Vec<Vec<DataEdge>>, pat: &String)
    requires
        g.wf(),
    ensures
        final(list)@.map_values(|x: ExpandGraph| x.xview()) == old(list)@.map_values(|x: ExpandGraph| x.xview())
            + groups@.map_values(|grp: Vec<DataEdge>| fresh_expansion(g.gview(), edges_view(grp@), pat@)),
        all_xwf_seq(old(list)@) ==> all_xwf_seq(final(list)@),
{
    let ghost l0 = list@;
    let ghost want = groups@.map_values(|grp: Vec<DataEdge>| fresh_expansion(g.gview(), edges_view(grp@), pat@));
    let mut j: usize = 0;
    while j < groups.len()
        invariant
            j <= groups@.len(),
            g.wf(),
            want == groups@.map_values(|grp: Vec<DataEdge>| fresh_expansion(g.gview(), edges_view(grp@), pat@)),
            list@.map_values(|x: ExpandGraph| x.xview()) == l0.map_values(|x: ExpandGraph| x.xview()) + want.take(j as int),
            all_xwf_seq(l0) ==> all_xwf_seq(list@),
        decreases groups@.len() - j,
    {
        let grp = &groups[j];
        let mut x = ExpandGraph::from_graph(g.duplicate());
        let pats = repeat_name(pat, grp.len());
        x.update_valid_dangling_edges(grp, &pats);
        proof {
            assert(x.dyn_graph.gview() == g.gview());
            assert(Seq::new(grp@.len(), |i: int| pat@) =~= Seq::new(edges_view(grp@).len(), |i: int| pat@));
            assert(x.xview() == want[j as int]);
        }
        let ghost before = list@;
        list.push(x);
        proof {
            assert(list@.map_values(|x: ExpandGraph| x.xview()) =~= before.map_values(|x: ExpandGraph| x.xview()).push(x.xview()));
            assert(want.take(j + 1) =~= want.take(j as int).push(want[j as int]));
        }
        j = j + 1;
    }
    assert(want.take(j as int) =~= want);
}

/// Every expansion of the list is well formed.
pub open spec fn all_xwf_seq(gs: Seq<ExpandGraph>) -> bool {
    forall|i: int| 0 <= i < gs.len() ==> (#[trigger] gs[i]).wf()
}

impl ABucket {
    /// Takes in the result of one load: the loaded edges `potential` and the
    /// vertices `next_vertices` that the edges the graph lacks reach. When
    /// some edge matches, the frontier vertex joins `connected`, and one
    /// expansion of the graph per reached vertex is appended to the group of
    /// the next pattern vertex.
    fn apply_edge_load(
        &mut self,
        pattern_es: &Vec<PatternEdge>,
        pattern_vs: &PatternVertexMap,
        load: &EdgeLoad,
        potential: Vec<DataEdge>,
        next_vertices: Vec<DataVertex>,
        connected: &mut VidSet,
    )
        requires
            all_wf(old(self).all_matched@),
            load_fits(old(self).graphs(), pattern_es@, pattern_vertex_items(*pattern_vs), load@, (edges_view(potential@), next_vertices@)),
        ensures
            final(self).all_matched == old(self).all_matched,
            final(self).curr_pat_vid == old(self).curr_pat_vid,
            final(self).matched_with_frontiers == old(self).matched_with_frontiers,
            groups_xview(final(self).groups()) == apply_load(
                groups_xview(old(self).groups()),
                old(self).graphs(),
                pattern_es@,
                pattern_vertex_items(*pattern_vs),
                load@,
                (edges_view(potential@), next_vertices@),
            ),
            groups_wf(old(self).groups()) ==> groups_wf(final(self).groups()),
            vid_set_items(*final(connected)) == (if load_selected(
                old(self).graphs(),
                pattern_es@,
                pattern_vertex_items(*pattern_vs),
                load@,
                (edges_view(potential@), next_vertices@),
            ).len() > 0 {
                vid_set_items(*old(connected)).insert(load.frontier_vid@)
            } else {
                vid_set_items(*old(connected))
            }),
    {
        let ghost gs = self.graphs();
        let ghost pvs = pattern_vertex_items(*pattern_vs);
        let ghost d = (edges_view(potential@), next_vertices@);
        let ghost m0 = self.groups();
        let g = &self.all_matched[load.idx];
        assert(g.gview() == gs[load.idx as int]);
        assert(g.wf());
        let pat_e = &pattern_es[load.pat_e_pos];
        let next_pat = if load.is_src_curr_pat { &pat_e.dst_vid } else { &pat_e.src_vid };
        assert(next_pat@ == load_next_pat(pattern_es@, load@));
        let cands = incremental_match_candidates(g, potential);
        if cands.len() == 0 {
            assert(load_selected(gs, pattern_es@, pvs, load@, d) =~= Seq::<EdgeView>::empty());
            return;
        }
        let pv = pattern_vs.get(next_pat.as_str()).unwrap();
        let selected = incremental_match_select(pv, cands, &next_vertices);
        assert(edges_view(selected@) == load_selected(gs, pattern_es@, pvs, load@, d));
        if selected.len() == 0 {
            return;
        }
        connected.insert(load.frontier_vid.clone());
        let (keys, groups) = group_edges_by_next(selected, load.is_src_curr_pat);
        let ghost gb = group_by_next(load_selected(gs, pattern_es@, pvs, load@, d), load.is_src_curr_pat);
        let mut list = match self.next_pat_grouped_expanding.remove(next_pat.as_str()) {
            Some(v) => v,
            None => Vec::new(),
        };
        let ghost l0 = list@;
        proof {
            if m0.dom().contains(next_pat@) {
                assert(l0 == m0[next_pat@]);
            } else {
                assert(l0.map_values(|x: ExpandGraph| x.xview()) =~= Seq::<ExpandView>::empty());
            }
        }
        push_fresh_expansions(&mut list, g, &groups, &pat_e.eid);
        proof {
            let fresh = groups@.map_values(|grp: Vec<DataEdge>| fresh_expansion(g.gview(), edges_view(grp@), pat_e.eid@));
            assert forall|i: int| 0 <= i < groups@.len() implies gb[i].1 == edges_view(#[trigger] groups@[i]@) by {
                assert(groups_view(keys@, groups@)[i] == gb[i]);
            }
            assert(fresh =~= load_expansions(gs, pattern_es@, pvs, load@, d));
        }
        self.next_pat_grouped_expanding.insert(next_pat.clone(), list);
        proof {
            let m1 = self.groups();
            assert(m1 == m0.remove(next_pat@).insert(next_pat@, list@));
            assert(groups_xview(m1) =~= apply_load(groups_xview(m0), gs, pattern_es@, pvs, load@, d));
            if groups_wf(m0) {
                if m0.dom().contains(next_pat@) {
                    assert(all_xwf_seq(l0));
                } else {
                    assert(all_xwf_seq(l0));
                }
                assert(all_xwf_seq(list@));
                assert forall|k: Seq<char>, i: int| #[trigger] m1.dom().contains(k) && 0 <= i < m1[k].len() implies (#[trigger] m1[k][i]).wf() by {
                    if k == next_pat@ {
                        assert(m1[k] == list@);
                    } else {
                        assert(m1[k] == m0[k]);
                    }
                }
            }
        }
    }

    /// `GetAdj`: takes in the results of the planned loads, in turn (see
    /// `plan_edge_loads`; `loaded[i]` holds the edges that `loads[i]` loaded
    /// and the vertices that those the graph lacks reach), appends the
    /// expansions they give to the groups, drops the matched graphs, and
    /// gives back the frontier vertices from which some edge matched.
    pub fn incremental_load_new_edges(
        &mut self,
        pattern_es: &Vec<PatternEdge>,
        pattern_vs: &PatternVertexMap,
        loads: &Vec<EdgeLoad>,
        loaded: Vec<(Vec<DataEdge>, Vec<DataVertex>)>,
    ) -> (r: VidSet)
        requires
            all_wf(old(self).all_matched@),
            loads@.len() == loaded@.len(),
            forall|i: int| 0 <= i < loads@.len() ==> load_fits(
                old(self).graphs(),
                pattern_es@,
                pattern_vertex_items(*pattern_vs),
                #[trigger] loads@[i]@,
                loaded_view(loaded@)[i],
            ),
        ensures
            final(self).all_matched@.len() == 0,
            final(self).curr_pat_vid == old(self).curr_pat_vid,
            final(self).matched_with_frontiers == old(self).matched_with_frontiers,
            groups_xview(final(self).groups()) == apply_loads(
                groups_xview(old(self).groups()),
                old(self).graphs(),
                pattern_es@,
                pattern_vertex_items(*pattern_vs),
                loads_view(loads@),
                loaded_view(loaded@),
                loads@.len() as nat,
            ),
            groups_wf(old(self).groups()) ==> groups_wf(final(self).groups()),
            vid_set_items(r) == connected_by_loads(
                old(self).graphs(),
                pattern_es@,
                pattern_vertex_items(*pattern_vs),
                loads_view(loads@),
                loaded_view(loaded@),
                loads@.len() as nat,
            ),
    {
        let ghost gs = self.graphs();
        let ghost pvs = pattern_vertex_items(*pattern_vs);
        let ghost ls = loads_view(loads@);
        let ghost ds = loaded_view(loaded@);
        let ghost m0 = groups_xview(self.groups());
        let ghost w0 = groups_wf(self.groups());
        let ghost orig = loaded@;
        let mut connected = VidSet::new();
        let mut rest = loaded;
        let mut i: usize = 0;
        while i < loads.len()
            invariant
                i <= loads@.len(),
                loads@.len() == orig.len(),
                rest@ == orig.skip(i as int),
                ls == loads_view(loads@),
                ds == loaded_view(orig),
                gs == self.graphs(),
                all_wf(self.all_matched@),
                pvs == pattern_vertex_items(*pattern_vs),
                forall|j: int| 0 <= j < loads@.len() ==> load_fits(gs, pattern_es@, pvs, #[trigger] loads@[j]@, ds[j]),
                groups_xview(self.groups()) == apply_loads(m0, gs, pattern_es@, pvs, ls, ds, i as nat),
                w0 ==> groups_wf(self.groups()),
                vid_set_items(connected) == connected_by_loads(gs, pattern_es@, pvs, ls, ds, i as nat),
                self.curr_pat_vid == old(self).curr_pat_vid,
                self.matched_with_frontiers == old(self).matched_with_frontiers,
            decreases loads@.len() - i,
        {
            let (potential, next_vertices) = rest.remove(0);
            proof {
                assert(orig.skip(i as int)[0] == orig[i as int]);
                assert(ds[i as int] == (edges_view(potential@), next_vertices@));
                assert(ls[i as int] == loads@[i as int]@);
                assert(load_fits(gs, pattern_es@, pvs, loads@[i as int]@, ds[i as int]));
            }
            self.apply_edge_load(pattern_es, pattern_vs, &loads[i], potential, next_vertices, &mut connected);
            proof {
                assert(rest@ =~= orig.skip(i + 1));
            }
            i = i + 1;
        }
        self.all_matched = Vec::new();
        connected
    }
}

} // verus!
