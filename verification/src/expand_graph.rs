//! A matched graph being expanded: the dangling edges that leave it, grouped
//! by the vertex they reach that the graph does not hold yet, and the target
//! vertices that have been confirmed among those.

use vstd::prelude::*;
use crate::dyn_graph::DynGraph;
use crate::keys::{compare_keys, key_lt, lemma_key_order, KeyOrder};
use crate::maps::{
    distinct_pending_keys, edge_map_items, has_pending_key, is_permutation, keys_ascending,
    lemma_pending_insert, pending_entries, pending_keys, pending_push, pending_value, strs_view,
    text_map_items, vertex_map_items, EdgeMap, PendingEntry, PendingMap, TextMap, VertexMap,
};
use crate::schemas::{duplicate_strings, DataEdge, DataVertex, EdgeView, VertexView};

verus! {

/// A matched graph with the dangling edges and target vertices of one expansion.
pub struct ExpandGraph {
    pub dyn_graph: DynGraph,
    pub pending_v_grouped_dangling_eids: PendingMap,
    pub target_vs: Vec<String>,
    pub dangling_e_entities: EdgeMap,
    pub target_v_entities: VertexMap,
    pub dangling_e_patterns: TextMap,
    pub target_v_patterns: TextMap,
}

/// The state that dangling edges change: the pending map, the dangling edges
/// and their patterns.
pub type DanglingState = (Seq<PendingEntry>, Map<Seq<char>, EdgeView>, Map<Seq<char>, Seq<char>>);

/// One dangling edge `e`, matching pattern `p`, offered to a graph with
/// vertex ids `gv` and edge ids `ge`: an edge the graph holds, or with both
/// or neither end in it, changes nothing; otherwise its id is filed under its
/// end outside the graph, and it is kept with its pattern.
pub open spec fn dangling_step(
    gv: Set<Seq<char>>,
    ge: Set<Seq<char>>,
    st: DanglingState,
    e: EdgeView,
    p: Seq<char>,
) -> DanglingState {
    if ge.contains(e.0) {
        st
    } else {
        let s = gv.contains(e.1);
        let d = gv.contains(e.2);
        if s == d {
            st
        } else {
            let k = if s { e.2 } else { e.1 };
            (pending_push(st.0, k, e.0), st.1.insert(e.0, e), st.2.insert(e.0, p))
        }
    }
}

/// The first `n` dangling edges offered in turn.
pub open spec fn dangling_fold(
    gv: Set<Seq<char>>,
    ge: Set<Seq<char>>,
    st: DanglingState,
    es: Seq<EdgeView>,
    ps: Seq<Seq<char>>,
    n: nat,
) -> DanglingState
    decreases n,
{
    if n == 0 {
        st
    } else {
        dangling_step(gv, ge, dangling_fold(gv, ge, st, es, ps, (n - 1) as nat), es[n - 1], ps[n - 1])
    }
}

/// The dangling state is sound for a graph with vertex ids `gv`: its
/// pending vertices are distinct and lie outside the graph, and every kept
/// dangling edge has exactly one end in the graph.
pub open spec fn dangling_sound(gv: Set<Seq<char>>, st: DanglingState) -> bool {
    &&& distinct_pending_keys(st.0)
    &&& forall|x: Seq<char>| has_pending_key(st.0, x) ==> !gv.contains(x)
    &&& forall|id: Seq<char>| #[trigger] st.1.dom().contains(id) ==> (gv.contains(st.1[id].1) != gv.contains(st.1[id].2))
}

/// Offering dangling edges keeps the dangling state sound: each kept edge is
/// filed under the one end that the graph lacks.
pub proof fn law_dangling_edges_leave_graph(
    gv: Set<Seq<char>>,
    ge: Set<Seq<char>>,
    st: DanglingState,
    es: Seq<EdgeView>,
    ps: Seq<Seq<char>>,
    n: nat,
)
    requires
        n <= es.len(),
        n <= ps.len(),
        dangling_sound(gv, st),
    ensures
        dangling_sound(gv, dangling_fold(gv, ge, st, es, ps, n)),
    decreases n,
{
    if n > 0 {
        law_dangling_edges_leave_graph(gv, ge, st, es, ps, (n - 1) as nat);
        let prev = dangling_fold(gv, ge, st, es, ps, (n - 1) as nat);
        let e = es[n - 1];
        if !ge.contains(e.0) && gv.contains(e.1) != gv.contains(e.2) {
            let k = if gv.contains(e.1) { e.2 } else { e.1 };
            let v = if has_pending_key(prev.0, k) { pending_value(prev.0, k).push(e.0) } else { seq![e.0] };
            lemma_pending_insert(prev.0, k, v);
            let next = dangling_fold(gv, ge, st, es, ps, n);
            assert(next.0 == pending_push(prev.0, k, e.0));
            assert forall|x: Seq<char>| has_pending_key(next.0, x) implies !gv.contains(x) by {
                if x != k {
                    assert(has_pending_key(prev.0, x));
                }
            }
        }
    }
}

/// Of the first `n` dangling edges offered to a graph with vertex ids `gv`
/// and edge ids `ge`, those that are kept, in order: the graph lacks the
/// edge and holds exactly one of its ends.
pub open spec fn kept_dangling(gv: Set<Seq<char>>, ge: Set<Seq<char>>, es: Seq<EdgeView>, n: nat) -> Seq<EdgeView>
    decreases n,
{
    if n == 0 {
        Seq::empty()
    } else {
        let p = kept_dangling(gv, ge, es, (n - 1) as nat);
        let e = es[n - 1];
        if !ge.contains(e.0) && gv.contains(e.1) != gv.contains(e.2) {
            p.push(e)
        } else {
            p
        }
    }
}

/// Two orders of the same entries that both ascend by key agree on their
/// first `i` entries.
proof fn lemma_sorted_prefix_equal(f: Seq<PendingEntry>, g: Seq<PendingEntry>, i: int)
    requires
        is_permutation(f, g),
        keys_ascending(pending_keys(f)),
        keys_ascending(pending_keys(g)),
        0 <= i <= f.len(),
    ensures
        forall|k: int| 0 <= k < i ==> f[k] == g[k],
    decreases i,
{
    if i > 0 {
        let m = i - 1;
        lemma_sorted_prefix_equal(f, g, m);
        let pf = pending_keys(f);
        let pg = pending_keys(g);
        assert(f.len() == g.len());
        let j = choose|j: int| 0 <= j < g.len() && g[j] == f[m];
        let j2 = choose|j2: int| 0 <= j2 < f.len() && f[j2] == g[m];
        assert(pf[m] == f[m].0 && pg[m] == g[m].0 && pg[j] == g[j].0 && pf[j2] == f[j2].0);
        if j < m {
            assert(g[j] == f[j]);
            assert(key_lt(pf[j], pf[m]));
            lemma_key_order(pf[m], pf[m], pf[m]);
            assert(false);
        }
        if j2 < m {
            assert(f[j2] == g[j2]);
            assert(key_lt(pg[j2], pg[m]));
            lemma_key_order(pg[m], pg[m], pg[m]);
            assert(false);
        }
        if j > m {
            assert(key_lt(pg[m], pg[j]));
            if j2 > m {
                assert(key_lt(pf[m], pf[j2]));
                lemma_key_order(pf[m], pg[m], pf[m]);
                assert(false);
            } else {
                assert(j2 == m);
                assert(f[m] == g[m]);
                assert(g[j] == g[m]);
                lemma_key_order(pg[m], pg[m], pg[m]);
                assert(false);
            }
        }
        assert(j == m);
        assert(f[m] == g[m]);
    }
}

/// Sorting pending vertices that already ascend changes nothing: the same
/// entries have one ascending order only.
pub proof fn law_sort_twice_unchanged(f: Seq<PendingEntry>, g: Seq<PendingEntry>)
    requires
        keys_ascending(pending_keys(f)),
        is_permutation(f, g),
        keys_ascending(pending_keys(g)),
    ensures
        g == f,
{
    lemma_sorted_prefix_equal(f, g, f.len() as int);
    assert(g =~= f);
}

/// The views of a list of edges.
pub open spec fn edges_view(es: Seq<DataEdge>) -> Seq<EdgeView> {
    es.map_values(|e: DataEdge| e@)
}

/// The vertex ids of a list of vertex-pattern pairs.
pub open spec fn pair_vids(s: Seq<(DataVertex, String)>) -> Seq<Seq<char>> {
    s.map_values(|p: (DataVertex, String)| p.0.vid@)
}

/// The ids never descend.
pub open spec fn keys_nondescending(k: Seq<Seq<char>>) -> bool {
    forall|i: int, j: int| 0 <= i < j < k.len() ==> key_lt(#[trigger] k[i], #[trigger] k[j]) || k[i] == k[j]
}

/// The dangling edges of `g` with the given ids, in order.
pub open spec fn edges_under(g: ExpandGraph, ids: Seq<Seq<char>>) -> Seq<EdgeView> {
    ids.map_values(|e: Seq<char>| g.dents()[e])
}

/// The patterns of the dangling edges of `g` with the given ids, in order.
pub open spec fn pats_under(g: ExpandGraph, ids: Seq<Seq<char>>) -> Seq<Seq<char>> {
    ids.map_values(|e: Seq<char>| g.dpats()[e])
}

/// The dangling state that meeting at vertex `x` gives: over the union of
/// both graphs, the edges that `l` files under `x` are offered in turn, then
/// those that `r` files under `x`.
pub open spec fn intersect_state(l: ExpandGraph, r: ExpandGraph, x: Seq<char>) -> DanglingState {
    let gv = l.dyn_graph.vs().union_prefer_right(r.dyn_graph.vs()).dom();
    let ge = l.dyn_graph.es().union_prefer_right(r.dyn_graph.es()).dom();
    let li = pending_value(l.pend(), x);
    let ri = pending_value(r.pend(), x);
    let s0: DanglingState = (Seq::empty(), Map::empty(), Map::empty());
    let s1 = dangling_fold(gv, ge, s0, edges_under(l, li), pats_under(l, li), li.len());
    dangling_fold(gv, ge, s1, edges_under(r, ri), pats_under(r, ri), ri.len())
}

/// `g` is the expansion that meeting at vertex `x` gives: the union of the
/// two matched graphs, with the dangling state of `intersect_state`, its
/// pending vertices sorted, and no target vertices.
pub open spec fn is_intersection_at(l: ExpandGraph, r: ExpandGraph, x: Seq<char>, g: ExpandGraph) -> bool {
    &&& g.wf()
    &&& g.dyn_graph.vs() == l.dyn_graph.vs().union_prefer_right(r.dyn_graph.vs())
    &&& g.dyn_graph.vp() == l.dyn_graph.vp().union_prefer_right(r.dyn_graph.vp())
    &&& g.dyn_graph.es() == l.dyn_graph.es().union_prefer_right(r.dyn_graph.es())
    &&& g.dyn_graph.ep() == l.dyn_graph.ep().union_prefer_right(r.dyn_graph.ep())
    &&& is_permutation(intersect_state(l, r, x).0, g.pend())
    &&& keys_ascending(pending_keys(g.pend()))
    &&& g.dents() == intersect_state(l, r, x).1
    &&& g.dpats() == intersect_state(l, r, x).2
    &&& g.tvs() == Seq::<Seq<char>>::empty()
    &&& g.tents().dom() == Set::<Seq<char>>::empty()
    &&& g.tpats().dom() == Set::<Seq<char>>::empty()
}

/// `res` is what meeting `l` and `r` gives: one expansion for each vertex
/// that both wait on, in ascending id order.
pub open spec fn is_meet(l: ExpandGraph, r: ExpandGraph, res: Seq<ExpandGraph>) -> bool {
    exists|ks: Seq<Seq<char>>| {
        &&& ks.len() == res.len()
        &&& keys_ascending(ks)
        &&& forall|x: Seq<char>| ks.contains(x) <==> (has_pending_key(l.pend(), x) && has_pending_key(r.pend(), x))
        &&& forall|m: int| 0 <= m < res.len() ==> is_intersection_at(l, r, #[trigger] ks[m], res[m])
    }
}

/// Whether two expansions wait on a common vertex.
pub open spec fn spec_has_common(a: ExpandGraph, b: ExpandGraph) -> bool {
    exists|k: Seq<char>| has_pending_key(a.pend(), k) && has_pending_key(b.pend(), k)
}

/// Meeting two expansions gives something exactly when they wait on a
/// common vertex, and never more expansions than the first waits on.
pub proof fn law_meet_iff_common(l: ExpandGraph, r: ExpandGraph, res: Seq<ExpandGraph>)
    requires
        is_meet(l, r, res),
        distinct_pending_keys(l.pend()),
    ensures
        res.len() > 0 <==> spec_has_common(l, r),
        res.len() <= l.pend().len(),
{
    let ks = choose|ks: Seq<Seq<char>>| {
        &&& ks.len() == res.len()
        &&& keys_ascending(ks)
        &&& forall|x: Seq<char>| ks.contains(x) <==> (has_pending_key(l.pend(), x) && has_pending_key(r.pend(), x))
        &&& forall|m: int| 0 <= m < res.len() ==> is_intersection_at(l, r, #[trigger] ks[m], res[m])
    };
    if res.len() > 0 {
        assert(ks.contains(ks[0]));
    }
    if spec_has_common(l, r) {
        let k = choose|k: Seq<char>| has_pending_key(l.pend(), k) && has_pending_key(r.pend(), k);
        assert(ks.contains(k));
    }
    // each key of ks is a distinct key of l
    let f = |m: int| choose|j: int| 0 <= j < l.pend().len() && (#[trigger] l.pend()[j]).0 == ks[m];
    assert forall|m: int| 0 <= m < ks.len() implies 0 <= #[trigger] f(m) < l.pend().len() && l.pend()[f(m)].0 == ks[m] by {
        assert(ks.contains(ks[m]));
    }
    assert forall|a: int, b: int| 0 <= a < b < ks.len() implies #[trigger] f(a) != #[trigger] f(b) by {
        lemma_key_order(ks[a], ks[b], ks[b]);
    }
    lemma_injective_bound(f, ks.len() as int, l.pend().len() as int);
}

/// An injective map from `0..n` into `0..m` needs `n <= m`.
pub proof fn lemma_injective_bound(f: spec_fn(int) -> int, n: int, m: int)
    requires
        0 <= n,
        0 <= m,
        forall|i: int| 0 <= i < n ==> 0 <= #[trigger] f(i) < m,
        forall|a: int, b: int| 0 <= a < b < n ==> #[trigger] f(a) != #[trigger] f(b),
    ensures
        n <= m,
    decreases n,
{
    if n > 0 {
        let top = f(n - 1);
        // squeeze the value f(n - 1) out of 0..m
        let g = |i: int| if f(i) < top { f(i) } else { f(i) - 1 };
        assert forall|i: int| 0 <= i < n - 1 implies 0 <= #[trigger] g(i) < m - 1 by {
            assert(f(i) != top);
        }
        assert forall|a: int, b: int| 0 <= a < b < n - 1 implies #[trigger] g(a) != #[trigger] g(b) by {
            assert(f(a) != top && f(b) != top);
        }
        lemma_injective_bound(g, n - 1, m - 1);
    }
}

/// Two expansions wait on a common vertex the same whichever comes first.
pub proof fn law_common_symmetric(a: ExpandGraph, b: ExpandGraph)
    ensures
        spec_has_common(a, b) == spec_has_common(b, a),
{
}

/// An expansion with no target vertices grows into its matched graph alone.
pub proof fn law_grow_without_targets(x: ExpandGraph)
    requires
        x.tvs().len() == 0,
        x.tents().dom() == Set::<Seq<char>>::empty(),
        x.tpats().dom() == Set::<Seq<char>>::empty(),
    ensures
        x.grown_view() == x.dyn_graph.gview(),
{
    assert(x.connected_eids() =~= Set::<Seq<char>>::empty());
    assert(x.grown_view().0 =~= x.dyn_graph.vs());
    assert(x.grown_view().1 =~= x.dyn_graph.vp());
    assert(x.grown_view().2 =~= x.dyn_graph.es());
    assert(x.grown_view().3 =~= x.dyn_graph.ep());
}

/// The vertices at which walking the pending vertices `L` and `R` side by
/// side from positions `i` and `j` meets: where both hold the same vertex it
/// is taken and both move on; otherwise the side whose vertex comes first
/// in id order moves on.
pub open spec fn walk_keys(L: Seq<Seq<char>>, R: Seq<Seq<char>>, i: int, j: int) -> Seq<Seq<char>>
    decreases L.len() - i + R.len() - j,
{
    if i < 0 || j < 0 || i >= L.len() || j >= R.len() {
        Seq::empty()
    } else if L[i] == R[j] {
        seq![L[i]] + walk_keys(L, R, i + 1, j + 1)
    } else if key_lt(L[i], R[j]) {
        walk_keys(L, R, i + 1, j)
    } else {
        walk_keys(L, R, i, j + 1)
    }
}

/// `res` is what meeting `l` and `r` gives: one expansion for each vertex at
/// which the side-by-side walk of their pending vertices meets, in the order
/// met.
pub open spec fn is_walk_meet(l: ExpandGraph, r: ExpandGraph, res: Seq<ExpandGraph>) -> bool {
    let ks = walk_keys(pending_keys(l.pend()), pending_keys(r.pend()), 0, 0);
    &&& ks.len() == res.len()
    &&& forall|m: int| 0 <= m < res.len() ==> is_intersection_at(l, r, #[trigger] ks[m], res[m])
}

/// Where both sides ascend, the walk meets exactly at the vertices both
/// hold from their positions on, in ascending order.
proof fn lemma_walk_sorted(L: Seq<Seq<char>>, R: Seq<Seq<char>>, i: int, j: int)
    requires
        keys_ascending(L),
        keys_ascending(R),
        0 <= i <= L.len(),
        0 <= j <= R.len(),
    ensures
        keys_ascending(walk_keys(L, R, i, j)),
        forall|x: Seq<char>| #[trigger] walk_keys(L, R, i, j).contains(x) <==> (
            (exists|a: int| i <= a < L.len() && L[a] == x) && (exists|b: int| j <= b < R.len() && R[b] == x)),
    decreases L.len() - i + R.len() - j,
{
    let w = walk_keys(L, R, i, j);
    if i >= L.len() || j >= R.len() {
        assert forall|x: Seq<char>| #[trigger] w.contains(x) <==> (
            (exists|a: int| i <= a < L.len() && L[a] == x) && (exists|b: int| j <= b < R.len() && R[b] == x)) by {
        }
    } else if L[i] == R[j] {
        lemma_walk_sorted(L, R, i + 1, j + 1);
        let w2 = walk_keys(L, R, i + 1, j + 1);
        let x0 = L[i];
        assert(w == seq![x0] + w2);
        assert forall|x: Seq<char>| #[trigger] w.contains(x) <==> (
            (exists|a: int| i <= a < L.len() && L[a] == x) && (exists|b: int| j <= b < R.len() && R[b] == x)) by {
            if w.contains(x) && x != x0 {
                let t = choose|t: int| 0 <= t < w.len() && w[t] == x;
                assert(w2[t - 1] == x);
                assert(w2.contains(x));
            }
            if x == x0 {
                assert(w[0] == x);
            }
            if (exists|a: int| i <= a < L.len() && L[a] == x) && (exists|b: int| j <= b < R.len() && R[b] == x) && x != x0 {
                let a = choose|a: int| i <= a < L.len() && L[a] == x;
                let b = choose|b: int| j <= b < R.len() && R[b] == x;
                assert(a != i && b != j);
                assert(w2.contains(x));
                let t = choose|t: int| 0 <= t < w2.len() && w2[t] == x;
                assert(w[t + 1] == x);
            }
        }
        assert forall|a: int, b: int| 0 <= a < b < w.len() implies key_lt(#[trigger] w[a], #[trigger] w[b]) by {
            if a == 0 {
                assert(w2.contains(w[b])) by {
                    assert(w2[b - 1] == w[b]);
                }
                let c = choose|c: int| i + 1 <= c < L.len() && L[c] == w[b];
                assert(key_lt(L[i], L[c]));
            } else {
                assert(w[a] == w2[a - 1] && w[b] == w2[b - 1]);
            }
        }
    } else if key_lt(L[i], R[j]) {
        lemma_walk_sorted(L, R, i + 1, j);
        assert forall|x: Seq<char>| #[trigger] w.contains(x) <==> (
            (exists|a: int| i <= a < L.len() && L[a] == x) && (exists|b: int| j <= b < R.len() && R[b] == x)) by {
            if (exists|a: int| i <= a < L.len() && L[a] == x) && (exists|b: int| j <= b < R.len() && R[b] == x) {
                let a = choose|a: int| i <= a < L.len() && L[a] == x;
                let b = choose|b: int| j <= b < R.len() && R[b] == x;
                if a == i {
                    lemma_key_order(L[i], R[j], R[b]);
                    if b > j {
                        assert(key_lt(R[j], R[b]));
                    }
                    lemma_key_order(x, x, x);
                    assert(false);
                }
            }
        }
    } else {
        lemma_key_order(L[i], R[j], R[j]);
        assert(key_lt(R[j], L[i]));
        lemma_walk_sorted(L, R, i, j + 1);
        assert forall|x: Seq<char>| #[trigger] w.contains(x) <==> (
            (exists|a: int| i <= a < L.len() && L[a] == x) && (exists|b: int| j <= b < R.len() && R[b] == x)) by {
            if (exists|a: int| i <= a < L.len() && L[a] == x) && (exists|b: int| j <= b < R.len() && R[b] == x) {
                let a = choose|a: int| i <= a < L.len() && L[a] == x;
                let b = choose|b: int| j <= b < R.len() && R[b] == x;
                if b == j {
                    lemma_key_order(R[j], L[i], L[a]);
                    if a > i {
                        assert(key_lt(L[i], L[a]));
                    }
                    lemma_key_order(x, x, x);
                    assert(false);
                }
            }
        }
    }
}

/// Where both expansions wait on their vertices in ascending order, what the
/// walk meets is one expansion for each vertex that both wait on, ascending.
pub proof fn lemma_walk_meet_sorted(l: ExpandGraph, r: ExpandGraph, res: Seq<ExpandGraph>)
    requires
        is_walk_meet(l, r, res),
        keys_ascending(pending_keys(l.pend())),
        keys_ascending(pending_keys(r.pend())),
    ensures
        is_meet(l, r, res),
{
    let L = pending_keys(l.pend());
    let R = pending_keys(r.pend());
    let ks = walk_keys(L, R, 0, 0);
    lemma_walk_sorted(L, R, 0, 0);
    assert forall|x: Seq<char>| ks.contains(x) <==> (has_pending_key(l.pend(), x) && has_pending_key(r.pend(), x)) by {
        if has_pending_key(l.pend(), x) && has_pending_key(r.pend(), x) {
            let a = choose|a: int| 0 <= a < l.pend().len() && (#[trigger] l.pend()[a]).0 == x;
            let b = choose|b: int| 0 <= b < r.pend().len() && (#[trigger] r.pend()[b]).0 == x;
            assert(L[a] == x && R[b] == x);
        }
        if ks.contains(x) {
            let a = choose|a: int| 0 <= a < L.len() && L[a] == x;
            let b = choose|b: int| 0 <= b < R.len() && R[b] == x;
            assert(l.pend()[a].0 == x);
            assert(r.pend()[b].0 == x);
        }
    }
}

/// Meets two expansions: walks their pending vertices side by side, and at
/// each vertex both hold builds, over the union of the two matched graphs,
/// the expansion that the dangling edges both file under it give. Where
/// both wait on their vertices in ascending order, that is one expansion for
/// each vertex both wait on.
pub fn union_then_intersect_on_connective_v(
    l_expand_graph: &ExpandGraph,
    r_expand_graph: &ExpandGraph,
) -> (res: Vec<ExpandGraph>)
    requires
        l_expand_graph.wf(),
        r_expand_graph.wf(),
    ensures
        is_walk_meet(*l_expand_graph, *r_expand_graph, res@),
        keys_ascending(pending_keys(l_expand_graph.pend())) && keys_ascending(pending_keys(r_expand_graph.pend()))
            ==> is_meet(*l_expand_graph, *r_expand_graph, res@),
{
    let l = l_expand_graph;
    let r = r_expand_graph;
    let ghost L = pending_keys(l.pend());
    let ghost R = pending_keys(r.pend());
    let mut result: Vec<ExpandGraph> = Vec::new();
    let ghost mut ks: Seq<Seq<char>> = Seq::empty();
    let l_len = l.pending_v_grouped_dangling_eids.len();
    let r_len = r.pending_v_grouped_dangling_eids.len();
    if l_len == 0 || r_len == 0 {
        proof {
            if keys_ascending(L) && keys_ascending(R) {
                lemma_walk_meet_sorted(*l, *r, result@);
            }
        }
        return result;
    }
    let new_graph = l.dyn_graph.duplicate().union(r.dyn_graph.duplicate());
    let mut l_idx: usize = 0;
    let mut r_idx: usize = 0;
    while l_idx < l_len && r_idx < r_len
        invariant
            l.wf(),
            r.wf(),
            l_len == L.len(),
            r_len == R.len(),
            L == pending_keys(l.pend()),
            R == pending_keys(r.pend()),
            new_graph.wf(),
            new_graph.vs() == l.dyn_graph.vs().union_prefer_right(r.dyn_graph.vs()),
            new_graph.vp() == l.dyn_graph.vp().union_prefer_right(r.dyn_graph.vp()),
            new_graph.es() == l.dyn_graph.es().union_prefer_right(r.dyn_graph.es()),
            new_graph.ep() == l.dyn_graph.ep().union_prefer_right(r.dyn_graph.ep()),
            0 <= l_idx <= L.len(),
            0 <= r_idx <= R.len(),
            ks.len() == result@.len(),
            ks + walk_keys(L, R, l_idx as int, r_idx as int) == walk_keys(L, R, 0, 0),
            forall|m: int| 0 <= m < result@.len() ==> is_intersection_at(*l, *r, #[trigger] ks[m], result@[m]),
        decreases L.len() - l_idx + R.len() - r_idx,
    {
        let li = l_idx;
        let ri = r_idx;
        let (l_vid, l_ids) = l.pending_v_grouped_dangling_eids.get_index(l_idx).unwrap();
        let (r_vid, r_ids) = r.pending_v_grouped_dangling_eids.get_index(r_idx).unwrap();
        assert(L[li as int] == l_vid@);
        assert(R[ri as int] == r_vid@);
        match compare_keys(l_vid.as_str(), r_vid.as_str()) {
            KeyOrder::Equal => {
                let ghost x = l_vid@;
                assert forall|t: int| 0 <= t < l_ids@.len() implies l.dents().dom().contains(#[trigger] l_ids@[t]@) by {
                    assert(strs_view(l_ids@)[t] == l_ids@[t]@);
                    assert(l.dents().dom().contains(l.pend()[li as int].1[t]));
                }
                assert forall|t: int| 0 <= t < r_ids@.len() implies r.dents().dom().contains(#[trigger] r_ids@[t]@) by {
                    assert(strs_view(r_ids@)[t] == r_ids@[t]@);
                    assert(r.dents().dom().contains(r.pend()[ri as int].1[t]));
                }
                let (l_edges, l_pats) = l.dangling_edges_of(l_ids);
                let (r_edges, r_pats) = r.dangling_edges_of(r_ids);
                let mut expanding_dg = ExpandGraph::from_graph(new_graph.duplicate());
                proof {
                    assert(l.pend()[li as int].0 == x);
                    assert(r.pend()[ri as int].0 == x);
                    assert(pending_value(l.pend(), x) == l.pend()[li as int].1);
                    assert(pending_value(r.pend(), x) == r.pend()[ri as int].1);
                    assert(expanding_dg.dstate().1 =~= Map::<Seq<char>, EdgeView>::empty());
                    assert(expanding_dg.dstate().2 =~= Map::<Seq<char>, Seq<char>>::empty());
                }
                let ghost gvv = new_graph.vs().dom();
                let ghost gee = new_graph.es().dom();
                let ghost lids = pending_value(l.pend(), x);
                let ghost rids = pending_value(r.pend(), x);
                let ghost s0: DanglingState = (Seq::empty(), Map::empty(), Map::empty());
                proof {
                    assert(strs_view(l_ids@) == lids);
                    assert(strs_view(r_ids@) == rids);
                    assert(edges_view(l_edges@).len() == l_edges@.len());
                    assert(edges_under(*l, lids).len() == lids.len());
                    assert(edges_view(r_edges@).len() == r_edges@.len());
                    assert(edges_under(*r, rids).len() == rids.len());
                    assert(l_edges@.len() == lids.len());
                    assert(r_edges@.len() == rids.len());
                    assert(gvv == l.dyn_graph.vs().union_prefer_right(r.dyn_graph.vs()).dom());
                    assert(gee == l.dyn_graph.es().union_prefer_right(r.dyn_graph.es()).dom());
                }
                expanding_dg.update_valid_dangling_edges(&l_edges, &l_pats);
                assert(expanding_dg.dstate() == dangling_fold(gvv, gee, s0, edges_under(*l, lids), pats_under(*l, lids), lids.len()));
                let ghost st1 = expanding_dg.dstate();
                expanding_dg.update_valid_dangling_edges(&r_edges, &r_pats);
                assert(expanding_dg.dstate() == dangling_fold(gvv, gee, st1, edges_under(*r, rids), pats_under(*r, rids), rids.len()));
                assert(expanding_dg.dstate() == intersect_state(*l, *r, x));
                let ghost before_sort = expanding_dg;
                expanding_dg.sort_key_after_update_valid_target_vertices();
                result.push(expanding_dg);
                l_idx = l_idx + 1;
                r_idx = r_idx + 1;
                proof {
                    let ks0 = ks;
                    ks = ks.push(x);
                    let g = result@[result@.len() - 1];
                    assert(g == expanding_dg);
                    assert(before_sort.dents() == intersect_state(*l, *r, x).1);
                    assert(before_sort.pend() == intersect_state(*l, *r, x).0);
                    assert(g.tents().dom() =~= Set::<Seq<char>>::empty());
                    assert(g.tpats().dom() =~= Set::<Seq<char>>::empty());
                    assert(is_intersection_at(*l, *r, x, result@[result@.len() - 1]));
                    assert forall|m: int| 0 <= m < result@.len() implies is_intersection_at(*l, *r, #[trigger] ks[m], result@[m]) by {
                        if m < ks0.len() {
                            assert(ks[m] == ks0[m]);
                        }
                    }
                    assert(walk_keys(L, R, li as int, ri as int) == seq![x] + walk_keys(L, R, li + 1, ri + 1));
                    assert(ks + walk_keys(L, R, li + 1, ri + 1) =~= ks0 + walk_keys(L, R, li as int, ri as int));
                }
            },
            KeyOrder::Less => {
                l_idx = l_idx + 1;
                proof {
                    assert(walk_keys(L, R, li as int, ri as int) == walk_keys(L, R, li + 1, ri as int));
                }
            },
            KeyOrder::Greater => {
                r_idx = r_idx + 1;
                proof {
                    assert(walk_keys(L, R, li as int, ri as int) == walk_keys(L, R, li as int, ri + 1));
                }
            },
        }
    }
    proof {
        assert(walk_keys(L, R, l_idx as int, r_idx as int) =~= Seq::<Seq<char>>::empty());
        assert(ks =~= walk_keys(L, R, 0, 0));
        if keys_ascending(L) && keys_ascending(R) {
            lemma_walk_meet_sorted(*l, *r, result@);
        }
    }
    result
}

/// The positions of the given vertices at which walking the pending
/// vertices `P` and the given vertex ids `V` side by side from positions `i`
/// and `j` takes a target: a given vertex already in the graph (its id in
/// `G`) is passed over; where both sides hold the same vertex it is taken and
/// both move on; otherwise the side whose vertex comes first in id order
/// moves on.
pub open spec fn target_walk(P: Seq<Seq<char>>, V: Seq<Seq<char>>, G: Set<Seq<char>>, i: int, j: int) -> Seq<int>
    decreases P.len() - i + V.len() - j,
{
    if i < 0 || j < 0 || i >= P.len() || j >= V.len() {
        Seq::empty()
    } else if G.contains(V[j]) {
        target_walk(P, V, G, i, j + 1)
    } else if P[i] == V[j] {
        seq![j] + target_walk(P, V, G, i + 1, j + 1)
    } else if key_lt(P[i], V[j]) {
        target_walk(P, V, G, i + 1, j)
    } else {
        target_walk(P, V, G, i, j + 1)
    }
}

/// The positions of `pairs` that confirming them as targets of `o` takes.
pub open spec fn target_walk_of(o: ExpandGraph, pairs: Seq<(DataVertex, String)>) -> Seq<int> {
    target_walk(pending_keys(o.pend()), pair_vids(pairs), o.dyn_graph.vs().dom(), 0, 0)
}

/// The vertices taken at positions `js` of `pairs`, by id.
pub open spec fn taken_vertices(pairs: Seq<(DataVertex, String)>, js: Seq<int>) -> Map<Seq<char>, VertexView>
    decreases js.len(),
{
    if js.len() == 0 {
        Map::empty()
    } else {
        taken_vertices(pairs, js.drop_last()).insert(pairs[js.last()].0.vid@, pairs[js.last()].0@)
    }
}

/// The patterns taken at positions `js` of `pairs`, by vertex id.
pub open spec fn taken_patterns(pairs: Seq<(DataVertex, String)>, js: Seq<int>) -> Map<Seq<char>, Seq<char>>
    decreases js.len(),
{
    if js.len() == 0 {
        Map::empty()
    } else {
        taken_patterns(pairs, js.drop_last()).insert(pairs[js.last()].0.vid@, pairs[js.last()].1@)
    }
}

/// What confirming target vertices does: `r` holds the ids of the vertices
/// that the side-by-side walk takes, in the order taken; they are added, in
/// that order, to the target vertices, each with the vertex and pattern of
/// the pair taken; nothing else changes.
pub open spec fn targets_confirmed(
    o: ExpandGraph,
    pairs: Seq<(DataVertex, String)>,
    n: ExpandGraph,
    r: Seq<Seq<char>>,
) -> bool {
    let js = target_walk_of(o, pairs);
    &&& n.wf()
    &&& r == js.map_values(|j: int| pair_vids(pairs)[j])
    &&& n.tvs() == o.tvs() + r
    &&& n.tents() == o.tents().union_prefer_right(taken_vertices(pairs, js))
    &&& n.tpats() == o.tpats().union_prefer_right(taken_patterns(pairs, js))
    &&& n.dyn_graph.gview() == o.dyn_graph.gview()
    &&& n.dstate() == o.dstate()
}

/// Where no vertices are given, or none are pending, confirming target
/// vertices takes none and leaves the expansion as it was.
pub proof fn law_no_targets_without_candidates(
    o: ExpandGraph,
    pairs: Seq<(DataVertex, String)>,
    n: ExpandGraph,
    r: Seq<Seq<char>>,
)
    requires
        targets_confirmed(o, pairs, n, r),
        pairs.len() == 0 || o.pend().len() == 0,
    ensures
        r == Seq::<Seq<char>>::empty(),
        n.tvs() == o.tvs(),
        n.tents() == o.tents(),
        n.tpats() == o.tpats(),
        n.dyn_graph.gview() == o.dyn_graph.gview(),
        n.dstate() == o.dstate(),
{
    let js = target_walk_of(o, pairs);
    assert(js =~= Seq::<int>::empty());
    assert(r =~= Seq::<Seq<char>>::empty());
    assert(n.tvs() =~= o.tvs());
    assert(n.tents() =~= o.tents());
    assert(n.tpats() =~= o.tpats());
}

/// The ids that the walk takes from positions `i` and `j`.
pub open spec fn walk_ids(P: Seq<Seq<char>>, V: Seq<Seq<char>>, G: Set<Seq<char>>, i: int, j: int) -> Seq<Seq<char>> {
    target_walk(P, V, G, i, j).map_values(|k: int| V[k])
}

/// Where the pending vertices ascend and the given ids never descend, the
/// walk takes, ascending, exactly the ids that both sides hold from their
/// positions on and the graph lacks.
proof fn lemma_target_walk_sorted(P: Seq<Seq<char>>, V: Seq<Seq<char>>, G: Set<Seq<char>>, i: int, j: int)
    requires
        keys_ascending(P),
        keys_nondescending(V),
        0 <= i <= P.len(),
        0 <= j <= V.len(),
    ensures
        keys_ascending(walk_ids(P, V, G, i, j)),
        forall|x: Seq<char>| #[trigger] walk_ids(P, V, G, i, j).contains(x) <==> (
            (exists|a: int| i <= a < P.len() && P[a] == x) && (exists|b: int| j <= b < V.len() && V[b] == x)
            && !G.contains(x)),
    decreases P.len() - i + V.len() - j,
{
    let w = walk_ids(P, V, G, i, j);
    if i >= P.len() || j >= V.len() {
        assert(w =~= Seq::<Seq<char>>::empty());
    } else if G.contains(V[j]) {
        lemma_target_walk_sorted(P, V, G, i, j + 1);
        assert(w == walk_ids(P, V, G, i, j + 1));
        assert forall|x: Seq<char>| #[trigger] w.contains(x) <==> (
            (exists|a: int| i <= a < P.len() && P[a] == x) && (exists|b: int| j <= b < V.len() && V[b] == x)
            && !G.contains(x)) by {
            if (exists|b: int| j <= b < V.len() && V[b] == x) && !G.contains(x) {
                let b = choose|b: int| j <= b < V.len() && V[b] == x;
                assert(b != j);
            }
        }
    } else if P[i] == V[j] {
        lemma_target_walk_sorted(P, V, G, i + 1, j + 1);
        let w2 = walk_ids(P, V, G, i + 1, j + 1);
        let x0 = P[i];
        assert(w =~= seq![x0] + w2);
        assert forall|x: Seq<char>| #[trigger] w.contains(x) <==> (
            (exists|a: int| i <= a < P.len() && P[a] == x) && (exists|b: int| j <= b < V.len() && V[b] == x)
            && !G.contains(x)) by {
            if w.contains(x) && x != x0 {
                let t = choose|t: int| 0 <= t < w.len() && w[t] == x;
                assert(w2[t - 1] == x);
                assert(w2.contains(x));
            }
            if x == x0 {
                assert(w[0] == x);
            }
            if (exists|a: int| i <= a < P.len() && P[a] == x) && (exists|b: int| j <= b < V.len() && V[b] == x)
                && !G.contains(x) && x != x0 {
                let a = choose|a: int| i <= a < P.len() && P[a] == x;
                let b = choose|b: int| j <= b < V.len() && V[b] == x;
                assert(a != i && b != j);
                assert(w2.contains(x));
                let t = choose|t: int| 0 <= t < w2.len() && w2[t] == x;
                assert(w[t + 1] == x);
            }
        }
        assert forall|a: int, b: int| 0 <= a < b < w.len() implies key_lt(#[trigger] w[a], #[trigger] w[b]) by {
            if a == 0 {
                assert(w2.contains(w[b])) by {
                    assert(w2[b - 1] == w[b]);
                }
                let c = choose|c: int| i + 1 <= c < P.len() && P[c] == w[b];
                assert(key_lt(P[i], P[c]));
            } else {
                assert(w[a] == w2[a - 1] && w[b] == w2[b - 1]);
            }
        }
    } else if key_lt(P[i], V[j]) {
        lemma_target_walk_sorted(P, V, G, i + 1, j);
        assert(w == walk_ids(P, V, G, i + 1, j));
        assert forall|x: Seq<char>| #[trigger] w.contains(x) <==> (
            (exists|a: int| i <= a < P.len() && P[a] == x) && (exists|b: int| j <= b < V.len() && V[b] == x)
            && !G.contains(x)) by {
            if (exists|a: int| i <= a < P.len() && P[a] == x) && (exists|b: int| j <= b < V.len() && V[b] == x) {
                let a = choose|a: int| i <= a < P.len() && P[a] == x;
                let b = choose|b: int| j <= b < V.len() && V[b] == x;
                if a == i {
                    if b > j {
                        assert(key_lt(V[j], V[b]) || V[j] == V[b]);
                    }
                    lemma_key_order(P[i], V[j], V[b]);
                    lemma_key_order(x, x, x);
                    assert(false);
                }
            }
        }
    } else {
        lemma_key_order(P[i], V[j], V[j]);
        assert(key_lt(V[j], P[i]));
        lemma_target_walk_sorted(P, V, G, i, j + 1);
        assert(w == walk_ids(P, V, G, i, j + 1));
        assert forall|x: Seq<char>| #[trigger] w.contains(x) <==> (
            (exists|a: int| i <= a < P.len() && P[a] == x) && (exists|b: int| j <= b < V.len() && V[b] == x)
            && !G.contains(x)) by {
            if (exists|a: int| i <= a < P.len() && P[a] == x) && (exists|b: int| j <= b < V.len() && V[b] == x) {
                let a = choose|a: int| i <= a < P.len() && P[a] == x;
                let b = choose|b: int| j <= b < V.len() && V[b] == x;
                if b == j {
                    if a > i {
                        assert(key_lt(P[i], P[a]));
                    }
                    lemma_key_order(V[j], P[i], P[a]);
                    lemma_key_order(x, x, x);
                    assert(false);
                }
            }
        }
    }
}

impl ExpandGraph {
    /// The pending entries, in order.
    pub open spec fn pend(&self) -> Seq<PendingEntry> {
        pending_entries(self.pending_v_grouped_dangling_eids)
    }

    /// The dangling edges, by id.
    pub open spec fn dents(&self) -> Map<Seq<char>, EdgeView> {
        edge_map_items(self.dangling_e_entities)
    }

    /// The patterns of the dangling edges, by edge id.
    pub open spec fn dpats(&self) -> Map<Seq<char>, Seq<char>> {
        text_map_items(self.dangling_e_patterns)
    }

    /// The target vertices, by id.
    pub open spec fn tents(&self) -> Map<Seq<char>, VertexView> {
        vertex_map_items(self.target_v_entities)
    }

    /// The patterns of the target vertices, by vertex id.
    pub open spec fn tpats(&self) -> Map<Seq<char>, Seq<char>> {
        text_map_items(self.target_v_patterns)
    }

    /// The ids of the target vertices, in the order they were confirmed.
    pub open spec fn tvs(&self) -> Seq<Seq<char>> {
        strs_view(self.target_vs@)
    }

    /// The dangling state.
    pub open spec fn dstate(&self) -> DanglingState {
        (self.pend(), self.dents(), self.dpats())
    }

    /// Every pending edge id names a kept dangling edge, every kept edge and
    /// target vertex has a pattern and is filed under its own id, and every
    /// target vertex is a pending vertex.
    pub open spec fn wf(&self) -> bool {
        &&& self.dyn_graph.wf()
        &&& distinct_pending_keys(self.pend())
        &&& self.dents().dom() == self.dpats().dom()
        &&& forall|j: int, t: int| 0 <= j < self.pend().len() && 0 <= t < self.pend()[j].1.len()
            ==> self.dents().dom().contains(#[trigger] self.pend()[j].1[t])
        &&& forall|k: Seq<char>| #[trigger] self.dents().dom().contains(k) ==> self.dents()[k].0 == k
        &&& self.tents().dom() == self.tpats().dom()
        &&& forall|k: Seq<char>| #[trigger] self.tents().dom().contains(k) ==> self.tents()[k].0 == k
        &&& forall|i: int| 0 <= i < self.tvs().len() ==> has_pending_key(self.pend(), #[trigger] self.tvs()[i])
    }

    /// The expansion of a matched graph, with nothing pending yet.
    pub fn from_graph(dyn_graph: DynGraph) -> (r: Self)
        requires
            dyn_graph.wf(),
        ensures
            r.wf(),
            r.dyn_graph == dyn_graph,
            r.pend() == Seq::<PendingEntry>::empty(),
            r.dents() == Map::<Seq<char>, EdgeView>::empty(),
            r.dpats() == Map::<Seq<char>, Seq<char>>::empty(),
            r.tents() == Map::<Seq<char>, VertexView>::empty(),
            r.tpats() == Map::<Seq<char>, Seq<char>>::empty(),
            r.tvs() == Seq::<Seq<char>>::empty(),
    {
        let r = ExpandGraph {
            dyn_graph,
            pending_v_grouped_dangling_eids: PendingMap::new(),
            target_vs: Vec::new(),
            dangling_e_entities: EdgeMap::new(),
            target_v_entities: VertexMap::new(),
            dangling_e_patterns: TextMap::new(),
            target_v_patterns: TextMap::new(),
        };
        assert(r.dents() =~= Map::<Seq<char>, EdgeView>::empty());
        assert(r.dpats() =~= Map::<Seq<char>, Seq<char>>::empty());
        assert(r.tents() =~= Map::<Seq<char>, VertexView>::empty());
        assert(r.tpats() =~= Map::<Seq<char>, Seq<char>>::empty());
        assert(r.tvs() =~= Seq::<Seq<char>>::empty());
        r
    }

    /// A copy of the expansion.
    pub fn duplicate(&self) -> (r: Self)
        ensures
            r.dyn_graph.vs() == self.dyn_graph.vs(),
            r.dyn_graph.es() == self.dyn_graph.es(),
            r.dyn_graph.vp() == self.dyn_graph.vp(),
            r.dyn_graph.ep() == self.dyn_graph.ep(),
            r.pend() == self.pend(),
            r.dents() == self.dents(),
            r.dpats() == self.dpats(),
            r.tents() == self.tents(),
            r.tpats() == self.tpats(),
            r.tvs() == self.tvs(),
            r.xview() == self.xview(),
            self.wf() ==> r.wf(),
    {
        let tvs = duplicate_strings(&self.target_vs);
        let r = ExpandGraph {
            dyn_graph: self.dyn_graph.duplicate(),
            pending_v_grouped_dangling_eids: self.pending_v_grouped_dangling_eids.duplicate(),
            target_vs: tvs,
            dangling_e_entities: self.dangling_e_entities.duplicate(),
            target_v_entities: self.target_v_entities.duplicate(),
            dangling_e_patterns: self.dangling_e_patterns.duplicate(),
            target_v_patterns: self.target_v_patterns.duplicate(),
        };
        proof {
            if self.wf() {
                assert(r.dyn_graph.wf());
                assert forall|i: int| 0 <= i < r.tvs().len() implies has_pending_key(r.pend(), #[trigger] r.tvs()[i]) by {
                    assert(r.tvs()[i] == self.tvs()[i]);
                }
                assert forall|j: int, t: int| 0 <= j < r.pend().len() && 0 <= t < r.pend()[j].1.len()
                    implies r.dents().dom().contains(#[trigger] r.pend()[j].1[t]) by {
                    assert(self.pend()[j].1[t] == r.pend()[j].1[t]);
                }
            }
        }
        r
    }

    /// Files edge id `eid` under vertex `k`: `entry(k).or_default().push(eid)`.
    fn push_pending(&mut self, k: &String, eid: String)
        requires
            distinct_pending_keys(old(self).pend()),
        ensures
            final(self).pend() == pending_push(old(self).pend(), k@, eid@),
            final(self).dyn_graph == old(self).dyn_graph,
            final(self).target_vs == old(self).target_vs,
            final(self).dents() == old(self).dents(),
            final(self).dpats() == old(self).dpats(),
            final(self).tents() == old(self).tents(),
            final(self).tpats() == old(self).tpats(),
    {
        let ids = match self.pending_v_grouped_dangling_eids.get(k.as_str()) {
            Some(v) => {
                let mut c = duplicate_strings(v);
                c.push(eid);
                proof {
                    let e = self.pend();
                    let j = choose|j: int| 0 <= j < e.len() && (#[trigger] e[j]).0 == k@ && e[j].1 == strs_view(v@);
                    let jj = choose|j: int| 0 <= j < e.len() && (#[trigger] e[j]).0 == k@;
                    assert(j == jj);
                    assert(strs_view(c@) =~= pending_value(e, k@).push(eid@));
                }
                c
            },
            None => {
                let mut c: Vec<String> = Vec::new();
                c.push(eid);
                assert(strs_view(c@) =~= seq![eid@]);
                c
            },
        };
        self.pending_v_grouped_dangling_eids.insert(k.clone(), ids);
    }

    /// Offers dangling edges, each with the name of the pattern edge it
    /// matches, in turn: an edge the graph holds, or with both or neither end
    /// in the graph, is skipped; otherwise its id is filed under its end that
    /// the graph lacks, and the edge is kept with its pattern. Hands back the
    /// edges kept, in order.
    pub fn update_valid_dangling_edges(&mut self, edges: &Vec<DataEdge>, patterns: &Vec<String>) -> (r: Vec<DataEdge>)
        requires
            old(self).wf(),
            edges@.len() == patterns@.len(),
        ensures
            edges_view(r@) == kept_dangling(
                old(self).dyn_graph.vs().dom(),
                old(self).dyn_graph.es().dom(),
                edges_view(edges@),
                edges@.len() as nat,
            ),
            final(self).wf(),
            final(self).dstate() == dangling_fold(
                old(self).dyn_graph.vs().dom(),
                old(self).dyn_graph.es().dom(),
                old(self).dstate(),
                edges_view(edges@),
                strs_view(patterns@),
                edges@.len() as nat,
            ),
            final(self).dyn_graph == old(self).dyn_graph,
            final(self).target_vs == old(self).target_vs,
            final(self).tents() == old(self).tents(),
            final(self).tpats() == old(self).tpats(),
    {
        let ghost gv = self.dyn_graph.vs().dom();
        let ghost ge = self.dyn_graph.es().dom();
        let ghost st0 = self.dstate();
        let ghost g0 = self.dyn_graph;
        let ghost tv0 = self.target_vs;
        let ghost te0 = self.tents();
        let ghost tp0 = self.tpats();
        let mut kept: Vec<DataEdge> = Vec::new();
        let mut i: usize = 0;
        while i < edges.len()
            invariant
                i <= edges@.len(),
                edges@.len() == patterns@.len(),
                edges_view(kept@) == kept_dangling(gv, ge, edges_view(edges@), i as nat),
                self.wf(),
                self.dyn_graph == g0,
                gv == g0.vs().dom(),
                ge == g0.es().dom(),
                self.target_vs == tv0,
                self.tents() == te0,
                self.tpats() == tp0,
                self.dstate() == dangling_fold(gv, ge, st0, edges_view(edges@), strs_view(patterns@), i as nat),
            decreases edges@.len() - i,
        {
            let e = &edges[i];
            let p = &patterns[i];
            let ghost st = self.dstate();
            let ghost s0 = *self;
            assert(edges_view(edges@)[i as int] == e@);
            assert(strs_view(patterns@)[i as int] == p@);
            let ghost k0 = edges_view(kept@);
            if !self.dyn_graph.has_eid(e.eid.as_str()) {
                let (s, d) = self.dyn_graph.pick_e_connective_vid(e);
                let key: Option<&String> = match (s, d) {
                    (Some(_), None) => Some(&e.dst_vid),
                    (None, Some(_)) => Some(&e.src_vid),
                    _ => None,
                };
                match key {
                    Some(k) => {
                        self.push_pending(k, e.eid.clone());
                        self.dangling_e_patterns.insert(e.eid.clone(), p.clone());
                        self.dangling_e_entities.insert(e.eid.clone(), e.duplicate());
                        kept.push(e.duplicate());
                        assert(edges_view(kept@) =~= k0.push(e@));
                        proof {
                            lemma_pending_insert(st.0, k@,
                                if has_pending_key(st.0, k@) { pending_value(st.0, k@).push(e.eid@) } else { seq![e.eid@] });
                            let f = self.pend();
                            assert forall|j: int, t: int| 0 <= j < f.len() && 0 <= t < f[j].1.len()
                                implies self.dents().dom().contains(#[trigger] f[j].1[t]) by {
                                if f[j].0 == k@ {
                                    if has_pending_key(st.0, k@) {
                                        let jj = choose|jj: int| 0 <= jj < st.0.len() && (#[trigger] st.0[jj]).0 == k@;
                                        if t < pending_value(st.0, k@).len() {
                                            assert(st.1.dom().contains(st.0[jj].1[t]));
                                        }
                                    }
                                } else {
                                    assert(st.0.contains(f[j]));
                                    let jj = choose|jj: int| 0 <= jj < st.0.len() && st.0[jj] == f[j];
                                    assert(st.1.dom().contains(st.0[jj].1[t]));
                                }
                            }
                            assert(self.dents().dom() =~= self.dpats().dom());
                            assert forall|q: int| 0 <= q < self.tvs().len() implies has_pending_key(self.pend(), #[trigger] self.tvs()[q]) by {
                                let x = self.tvs()[q];
                                assert(x == s0.tvs()[q]);
                                if x != k@ {
                                    assert(has_pending_key(st.0, x));
                                }
                            }
                        }
                    },
                    None => {},
                }
            }
            i = i + 1;
        }
        kept
    }

    /// Puts the pending vertices in ascending id order.
    pub fn sort_key_after_update_valid_target_vertices(&mut self)
        requires
            old(self).wf(),
        ensures
            final(self).wf(),
            is_permutation(old(self).pend(), final(self).pend()),
            keys_ascending(pending_keys(final(self).pend())),
            keys_ascending(pending_keys(old(self).pend())) ==> final(self).pend() == old(self).pend(),
            final(self).dyn_graph == old(self).dyn_graph,
            final(self).target_vs == old(self).target_vs,
            final(self).dents() == old(self).dents(),
            final(self).dpats() == old(self).dpats(),
            final(self).tents() == old(self).tents(),
            final(self).tpats() == old(self).tpats(),
    {
        let ghost e0 = self.pend();
        let ghost s0 = *self;
        self.pending_v_grouped_dangling_eids.sort_keys();
        proof {
            let f = self.pend();
            assert forall|i: int, j: int| 0 <= i < f.len() && 0 <= j < f.len() && i != j
                implies (#[trigger] f[i]).0 != (#[trigger] f[j]).0 by {
                lemma_key_order(f[i].0, f[j].0, f[j].0);
                if i < j {
                    assert(key_lt(pending_keys(f)[i], pending_keys(f)[j]));
                } else {
                    assert(key_lt(pending_keys(f)[j], pending_keys(f)[i]));
                }
            }
            assert forall|j: int, t: int| 0 <= j < f.len() && 0 <= t < f[j].1.len()
                implies self.dents().dom().contains(#[trigger] f[j].1[t]) by {
                let i = choose|i: int| 0 <= i < e0.len() && e0[i] == f[j];
                assert(self.dents().dom().contains(e0[i].1[t]));
            }
            assert forall|q: int| 0 <= q < self.tvs().len() implies has_pending_key(f, #[trigger] self.tvs()[q]) by {
                let x = self.tvs()[q];
                assert(x == s0.tvs()[q]);
                assert(has_pending_key(e0, x));
                let i = choose|i: int| 0 <= i < e0.len() && (#[trigger] e0[i]).0 == x;
                let j = choose|j: int| 0 <= j < f.len() && f[j] == #[trigger] e0[i];
                assert(f[j].0 == x);
            }
            if keys_ascending(pending_keys(e0)) {
                law_sort_twice_unchanged(e0, f);
            }
        }
    }

    /// Confirms target vertices: walks the pending vertices and the given
    /// vertices side by side, passing over given vertices that the graph
    /// holds, taking each vertex that both sides hold at once, and otherwise
    /// moving on the side whose vertex comes first in id order. Hands back
    /// the ids taken, in order. Where both sides are in ascending id order,
    /// those are, ascending, the vertices that are pending, given and not in
    /// the graph.
    pub fn update_valid_target_vertices(
        &mut self,
        asc_target_vertex_pattern_pairs: &[(DataVertex, String)],
    ) -> (r: Vec<String>)
        requires
            old(self).wf(),
        ensures
            targets_confirmed(*old(self), asc_target_vertex_pattern_pairs@, *final(self), strs_view(r@)),
            final(self).dyn_graph == old(self).dyn_graph,
            keys_ascending(pending_keys(old(self).pend())) && keys_nondescending(pair_vids(asc_target_vertex_pattern_pairs@))
                ==> keys_ascending(strs_view(r@)) && forall|x: Seq<char>| strs_view(r@).contains(x) <==> (
                    pending_keys(old(self).pend()).contains(x) && pair_vids(asc_target_vertex_pattern_pairs@).contains(x)
                    && !old(self).dyn_graph.vs().dom().contains(x)),
    {
        let pairs = asc_target_vertex_pattern_pairs;
        let ghost P = pending_keys(self.pend());
        let ghost V = pair_vids(pairs@);
        let ghost G = self.dyn_graph.vs().dom();
        let ghost J = target_walk(P, V, G, 0, 0);
        let ghost tv0 = self.tvs();
        let ghost te0 = self.tents();
        let ghost tp0 = self.tpats();
        let ghost ds0 = self.dstate();
        let ghost g0 = self.dyn_graph;
        let ghost o = *self;
        let mut legal_vids: Vec<String> = Vec::new();
        let ghost mut js: Seq<int> = Seq::empty();
        proof {
            assert(strs_view(legal_vids@) =~= js.map_values(|k: int| V[k]));
            assert(self.tents() =~= te0.union_prefer_right(taken_vertices(pairs@, js)));
            assert(self.tpats() =~= tp0.union_prefer_right(taken_patterns(pairs@, js)));
            assert(self.tvs() =~= tv0 + strs_view(legal_vids@));
        }
        let pending_len = self.pending_v_grouped_dangling_eids.len();
        let vertex_len = pairs.len();
        let mut pending_idx: usize = 0;
        let mut vertex_idx: usize = 0;
        if vertex_len > 0 && pending_len > 0 {
            while pending_idx < pending_len && vertex_idx < vertex_len
                invariant
                    self.wf(),
                    pending_len == P.len(),
                    vertex_len == V.len(),
                    P == pending_keys(self.pend()),
                    V == pair_vids(pairs@),
                    G == self.dyn_graph.vs().dom(),
                    self.dyn_graph == g0,
                    self.dstate() == ds0,
                    0 <= pending_idx <= P.len(),
                    0 <= vertex_idx <= V.len(),
                    js + target_walk(P, V, G, pending_idx as int, vertex_idx as int) == J,
                    strs_view(legal_vids@) == js.map_values(|k: int| V[k]),
                    self.tvs() == tv0 + strs_view(legal_vids@),
                    self.tents() == te0.union_prefer_right(taken_vertices(pairs@, js)),
                    self.tpats() == tp0.union_prefer_right(taken_patterns(pairs@, js)),
                decreases P.len() - pending_idx + V.len() - vertex_idx,
            {
                let pi = pending_idx;
                let vi = vertex_idx;
                let (pending_vid, _) = self.pending_v_grouped_dangling_eids.get_index(pending_idx).unwrap();
                let (vertex, pattern) = &pairs[vertex_idx];
                assert(P[pi as int] == pending_vid@);
                assert(V[vi as int] == vertex.vid@);
                if self.dyn_graph.has_vid(vertex.vid.as_str()) {
                    vertex_idx = vertex_idx + 1;
                    assert(target_walk(P, V, G, pi as int, vi as int) == target_walk(P, V, G, pi as int, vi + 1));
                } else {
                    match compare_keys(pending_vid.as_str(), vertex.vid.as_str()) {
                        KeyOrder::Equal => {
                            let ghost s0 = *self;
                            let ghost x = vertex.vid@;
                            let ghost lv0 = strs_view(legal_vids@);
                            let c1 = vertex.vid.clone();
                            let c2 = vertex.vid.clone();
                            assert(c1@ == x && c2@ == x);
                            self.target_vs.push(c1);
                            legal_vids.push(c2);
                            assert(strs_view(legal_vids@) =~= lv0.push(x));
                            self.target_v_patterns.insert(vertex.vid.clone(), pattern.clone());
                            self.target_v_entities.insert(vertex.vid.clone(), vertex.duplicate());
                            pending_idx = pending_idx + 1;
                            vertex_idx = vertex_idx + 1;
                            proof {
                                let js0 = js;
                                js = js.push(vi as int);
                                assert(target_walk(P, V, G, pi as int, vi as int) == seq![vi as int] + target_walk(P, V, G, pi + 1, vi + 1));
                                assert(js + target_walk(P, V, G, pi + 1, vi + 1) =~= js0 + target_walk(P, V, G, pi as int, vi as int));
                                assert(js.drop_last() =~= js0);
                                assert(pairs@[vi as int].0.vid@ == x);
                                assert(taken_vertices(pairs@, js) == taken_vertices(pairs@, js0).insert(x, pairs@[vi as int].0@));
                                assert(taken_patterns(pairs@, js) == taken_patterns(pairs@, js0).insert(x, pairs@[vi as int].1@));
                                assert(self.tents() =~= te0.union_prefer_right(taken_vertices(pairs@, js)));
                                assert(self.tpats() =~= tp0.union_prefer_right(taken_patterns(pairs@, js)));
                                assert(js.map_values(|k: int| V[k]) =~= js0.map_values(|k: int| V[k]).push(V[vi as int]));
                                assert(strs_view(legal_vids@) =~= js.map_values(|k: int| V[k]));
                                assert(self.tvs() =~= s0.tvs().push(x));
                                assert(self.tvs() =~= tv0 + strs_view(legal_vids@));
                                assert(self.tents().dom() =~= self.tpats().dom());
                                assert(has_pending_key(self.pend(), x)) by {
                                    assert(self.pend()[pi as int].0 == x);
                                }
                                assert forall|q: int| 0 <= q < self.tvs().len() implies has_pending_key(self.pend(), #[trigger] self.tvs()[q]) by {
                                    if q < s0.tvs().len() {
                                        assert(self.tvs()[q] == s0.tvs()[q]);
                                    }
                                }
                                assert forall|k: Seq<char>| #[trigger] self.tents().dom().contains(k) implies self.tents()[k].0 == k by {
                                    if k != x {
                                        assert(s0.tents().dom().contains(k));
                                    }
                                }
                                assert forall|j: int, t: int| 0 <= j < self.pend().len() && 0 <= t < self.pend()[j].1.len()
                                    implies self.dents().dom().contains(#[trigger] self.pend()[j].1[t]) by {
                                    assert(s0.dents().dom().contains(s0.pend()[j].1[t]));
                                }
                            }
                        },
                        KeyOrder::Less => {
                            pending_idx = pending_idx + 1;
                            assert(target_walk(P, V, G, pi as int, vi as int) == target_walk(P, V, G, pi + 1, vi as int));
                        },
                        KeyOrder::Greater => {
                            vertex_idx = vertex_idx + 1;
                            assert(target_walk(P, V, G, pi as int, vi as int) == target_walk(P, V, G, pi as int, vi + 1));
                        },
                    }
                }
            }
        }
        proof {
            assert(target_walk(P, V, G, pending_idx as int, vertex_idx as int) =~= Seq::<int>::empty());
            assert(js =~= J);
            assert(strs_view(legal_vids@) =~= J.map_values(|k: int| pair_vids(pairs@)[k]));
            if keys_ascending(P) && keys_nondescending(V) {
                lemma_target_walk_sorted(P, V, G, 0, 0);
                let w = walk_ids(P, V, G, 0, 0);
                assert(strs_view(legal_vids@) =~= w);
                assert forall|x: Seq<char>| w.contains(x) <==> (P.contains(x) && V.contains(x) && !G.contains(x)) by {
                    if P.contains(x) {
                        let a = choose|a: int| 0 <= a < P.len() && P[a] == x;
                    }
                    if V.contains(x) {
                        let b = choose|b: int| 0 <= b < V.len() && V[b] == x;
                    }
                }
            }
        }
        legal_vids
    }

    /// The ids of the dangling edges filed under some target vertex.
    pub open spec fn connected_eids(&self) -> Set<Seq<char>> {
        Set::new(|e: Seq<char>| exists|i: int, j: int, t: int|
            #![trigger self.tvs()[i], self.pend()[j].1[t]]
            0 <= i < self.tvs().len() && 0 <= j < self.pend().len() && self.pend()[j].0 == self.tvs()[i]
                && 0 <= t < self.pend()[j].1.len() && self.pend()[j].1[t] == e)
    }

    /// The graph that `into_dyn_graph` gives.
    pub open spec fn grown_view(&self) -> crate::dyn_graph::GraphView {
        (
            self.dyn_graph.vs().union_prefer_right(self.tents()),
            self.dyn_graph.vp().union_prefer_right(self.tpats()),
            self.dyn_graph.es().union_prefer_right(self.dents().restrict(self.connected_eids())),
            self.dyn_graph.ep().union_prefer_right(self.dpats().restrict(self.connected_eids())),
        )
    }

    /// All that the expansion holds.
    pub open spec fn xview(&self) -> (crate::dyn_graph::GraphView, DanglingState, Seq<Seq<char>>, Map<Seq<char>, VertexView>, Map<Seq<char>, Seq<char>>) {
        (self.dyn_graph.gview(), self.dstate(), self.tvs(), self.tents(), self.tpats())
    }

    /// The matched graph grown by the expansion: the target vertices join it,
    /// and so does every dangling edge filed under a target vertex, each with
    /// its pattern.
    pub fn into_dyn_graph(self) -> (r: DynGraph)
        requires
            self.wf(),
        ensures
            r.wf(),
            r.gview() == self.grown_view(),
    {
        let ghost s0 = self;
        let ExpandGraph {
            dyn_graph,
            pending_v_grouped_dangling_eids,
            target_vs,
            dangling_e_entities,
            target_v_entities,
            dangling_e_patterns,
            target_v_patterns,
        } = self;
        let mut graph = dyn_graph;
        let mut tents = target_v_entities;
        let mut tpats = target_v_patterns;
        let mut dents = dangling_e_entities;
        let mut dpats = dangling_e_patterns;
        let pend = pending_v_grouped_dangling_eids;
        let ghost g0 = s0.dyn_graph;
        let vks = tents.keys();
        let mut i: usize = 0;
        while i < vks.len()
            invariant
                i <= vks@.len(),
                crate::maps::lists_keys(vks@, s0.tents().dom()),
                s0.wf(),
                graph.wf(),
                graph.es() == g0.es(),
                graph.ep() == g0.ep(),
                graph.vs().union_prefer_right(vertex_map_items(tents)) == g0.vs().union_prefer_right(s0.tents()),
                graph.vp().union_prefer_right(text_map_items(tpats)) == g0.vp().union_prefer_right(s0.tpats()),
                vertex_map_items(tents).dom() == text_map_items(tpats).dom(),
                forall|k: Seq<char>| #[trigger] vertex_map_items(tents).dom().contains(k) ==>
                    vertex_map_items(tents)[k] == s0.tents()[k] && text_map_items(tpats)[k] == s0.tpats()[k],
                forall|k: Seq<char>| #[trigger] vertex_map_items(tents).dom().contains(k) <==>
                    (s0.tents().dom().contains(k) && forall|j: int| 0 <= j < i ==> vks@[j]@ != k),
            decreases vks@.len() - i,
        {
            let k = &vks[i];
            assert(vertex_map_items(tents).dom().contains(k@)) by {
                assert(s0.tents().dom().contains(vks@[i as int]@));
                assert forall|j: int| 0 <= j < i implies vks@[j]@ != k@ by {
                    assert(vks@[j]@ != vks@[i as int]@);
                }
            }
            let ghost graph0 = graph;
            let ghost tents0 = vertex_map_items(tents);
            let ghost tpats0 = text_map_items(tpats);
            let v = tents.remove(k.as_str()).unwrap();
            assert(s0.tents().dom().contains(k@));
            assert(v.vid@ == k@);
            let p = tpats.remove(v.vid.as_str()).unwrap();
            graph.update_v(v, p);
            proof {
                assert(graph.vs().union_prefer_right(vertex_map_items(tents)) =~= graph0.vs().union_prefer_right(tents0));
                assert(graph.vp().union_prefer_right(text_map_items(tpats)) =~= graph0.vp().union_prefer_right(tpats0));
                assert(vertex_map_items(tents).dom() =~= text_map_items(tpats).dom());
                assert forall|k2: Seq<char>| #[trigger] vertex_map_items(tents).dom().contains(k2) <==>
                    (s0.tents().dom().contains(k2) && forall|j: int| 0 <= j < i + 1 ==> vks@[j]@ != k2) by {
                    if vertex_map_items(tents).dom().contains(k2) {
                        assert(tents0.dom().contains(k2));
                    }
                }
            }
            i = i + 1;
        }
        proof {
            assert(vertex_map_items(tents).dom() =~= Set::<Seq<char>>::empty()) by {
                assert forall|k: Seq<char>| !vertex_map_items(tents).dom().contains(k) by {
                    if s0.tents().dom().contains(k) {
                        let j = choose|j: int| 0 <= j < vks@.len() && vks@[j]@ == k;
                        assert(vks@[j]@ == k);
                    }
                }
            }
            assert(graph.vs().union_prefer_right(vertex_map_items(tents)) =~= graph.vs());
            assert(graph.vp().union_prefer_right(text_map_items(tpats)) =~= graph.vp());
        }
        let ghost C = s0.connected_eids();
        let ghost mut D: Set<Seq<char>> = Set::empty();
        let mut ti: usize = 0;
        proof {
            assert(edge_map_items(dents) =~= s0.dents().remove_keys(D));
            assert(text_map_items(dpats) =~= s0.dpats().remove_keys(D));
            assert(g0.es().union_prefer_right(s0.dents().restrict(D)) =~= g0.es());
            assert(g0.ep().union_prefer_right(s0.dpats().restrict(D)) =~= g0.ep());
        }
        while ti < target_vs.len()
            invariant
                ti <= target_vs@.len(),
                s0.wf(),
                target_vs@ == s0.target_vs@,
                pending_entries(pend) == s0.pend(),
                C == s0.connected_eids(),
                graph.wf(),
                graph.vs() == g0.vs().union_prefer_right(s0.tents()),
                graph.vp() == g0.vp().union_prefer_right(s0.tpats()),
                edge_map_items(dents) == s0.dents().remove_keys(D),
                text_map_items(dpats) == s0.dpats().remove_keys(D),
                graph.es() == g0.es().union_prefer_right(s0.dents().restrict(D)),
                graph.ep() == g0.ep().union_prefer_right(s0.dpats().restrict(D)),
                D.subset_of(C),
                forall|e: Seq<char>| C.contains(e) && !D.contains(e) ==> exists|i: int, j: int, t: int|
                    #![trigger s0.tvs()[i], s0.pend()[j].1[t]]
                    ti <= i < s0.tvs().len() && 0 <= j < s0.pend().len() && s0.pend()[j].0 == s0.tvs()[i]
                        && 0 <= t < s0.pend()[j].1.len() && s0.pend()[j].1[t] == e,
            decreases target_vs@.len() - ti,
        {
            let tv = &target_vs[ti];
            assert(s0.tvs()[ti as int] == tv@);
            assert(has_pending_key(s0.pend(), tv@));
            let ids = pend.get(tv.as_str()).unwrap();
            let ghost jj = choose|j: int| 0 <= j < s0.pend().len() && (#[trigger] s0.pend()[j]).0 == tv@
                && s0.pend()[j].1 == strs_view(ids@);
            let mut t: usize = 0;
            while t < ids.len()
                invariant
                    t <= ids@.len(),
                    s0.wf(),
                    0 <= jj < s0.pend().len(),
                    s0.pend()[jj].0 == s0.tvs()[ti as int],
                    s0.pend()[jj].1 == strs_view(ids@),
                    ti < s0.tvs().len(),
                    C == s0.connected_eids(),
                    graph.wf(),
                    graph.vs() == g0.vs().union_prefer_right(s0.tents()),
                    graph.vp() == g0.vp().union_prefer_right(s0.tpats()),
                    edge_map_items(dents) == s0.dents().remove_keys(D),
                    text_map_items(dpats) == s0.dpats().remove_keys(D),
                    graph.es() == g0.es().union_prefer_right(s0.dents().restrict(D)),
                    graph.ep() == g0.ep().union_prefer_right(s0.dpats().restrict(D)),
                    D.subset_of(C),
                    forall|q: int| 0 <= q < t ==> D.contains(#[trigger] s0.pend()[jj].1[q]),
                    forall|e: Seq<char>| C.contains(e) && !D.contains(e) ==> exists|i: int, j: int, t2: int|
                        #![trigger s0.tvs()[i], s0.pend()[j].1[t2]]
                        ti <= i < s0.tvs().len() && 0 <= j < s0.pend().len() && s0.pend()[j].0 == s0.tvs()[i]
                            && 0 <= t2 < s0.pend()[j].1.len() && s0.pend()[j].1[t2] == e,
                decreases ids@.len() - t,
            {
                let eid = &ids[t];
                let ghost e = eid@;
                assert(s0.pend()[jj].1[t as int] == e);
                assert(C.contains(e)) by {
                    assert(s0.tvs()[ti as int] == s0.pend()[jj].0);
                }
                assert(s0.dents().dom().contains(e));
                let ghost graph0 = graph;
                let ghost D0 = D;
                match dents.remove(eid.as_str()) {
                    Some(edge) => {
                        assert(!D.contains(e));
                        assert(edge.eid@ == e);
                        let p = dpats.remove(edge.eid.as_str()).unwrap();
                        graph.update_e(edge, p);
                        proof {
                            D = D.insert(e);
                            assert(edge_map_items(dents) =~= s0.dents().remove_keys(D));
                            assert(text_map_items(dpats) =~= s0.dpats().remove_keys(D));
                            assert(graph.es() =~= g0.es().union_prefer_right(s0.dents().restrict(D)));
                            assert(graph.ep() =~= g0.ep().union_prefer_right(s0.dpats().restrict(D)));
                        }
                    },
                    None => {
                        assert(D.contains(e));
                    },
                }
                t = t + 1;
            }
            proof {
                assert forall|e: Seq<char>| C.contains(e) && !D.contains(e) implies exists|i: int, j: int, t2: int|
                    #![trigger s0.tvs()[i], s0.pend()[j].1[t2]]
                    ti + 1 <= i < s0.tvs().len() && 0 <= j < s0.pend().len() && s0.pend()[j].0 == s0.tvs()[i]
                        && 0 <= t2 < s0.pend()[j].1.len() && s0.pend()[j].1[t2] == e by {
                    let (i, j, t2) = choose|i: int, j: int, t2: int|
                        #![trigger s0.tvs()[i], s0.pend()[j].1[t2]]
                        ti <= i < s0.tvs().len() && 0 <= j < s0.pend().len() && s0.pend()[j].0 == s0.tvs()[i]
                            && 0 <= t2 < s0.pend()[j].1.len() && s0.pend()[j].1[t2] == e;
                    if i == ti {
                        assert(j == jj);
                        assert(D.contains(s0.pend()[jj].1[t2]));
                    }
                    assert(s0.tvs()[i] == s0.pend()[j].0);
                }
            }
            ti = ti + 1;
        }
        proof {
            assert(D =~= C) by {
                assert forall|e: Seq<char>| C.contains(e) implies D.contains(e) by {
                    if !D.contains(e) {
                        let (i, j, t2) = choose|i: int, j: int, t2: int|
                            #![trigger s0.tvs()[i], s0.pend()[j].1[t2]]
                            ti <= i < s0.tvs().len() && 0 <= j < s0.pend().len() && s0.pend()[j].0 == s0.tvs()[i]
                                && 0 <= t2 < s0.pend()[j].1.len() && s0.pend()[j].1[t2] == e;
                    }
                }
            }
        }
        graph
    }

    /// The dangling edges with the given ids, each with its pattern.
    pub fn dangling_edges_of(&self, ids: &Vec<String>) -> (r: (Vec<DataEdge>, Vec<String>))
        requires
            self.wf(),
            forall|t: int| 0 <= t < ids@.len() ==> self.dents().dom().contains(#[trigger] ids@[t]@),
        ensures
            edges_view(r.0@) == edges_under(*self, strs_view(ids@)),
            strs_view(r.1@) == pats_under(*self, strs_view(ids@)),
            r.0@.len() == r.1@.len(),
    {
        let mut es: Vec<DataEdge> = Vec::new();
        let mut ps: Vec<String> = Vec::new();
        let mut t: usize = 0;
        while t < ids.len()
            invariant
                t <= ids@.len(),
                self.wf(),
                forall|q: int| 0 <= q < ids@.len() ==> self.dents().dom().contains(#[trigger] ids@[q]@),
                edges_view(es@) == edges_under(*self, strs_view(ids@)).take(t as int),
                strs_view(ps@) == pats_under(*self, strs_view(ids@)).take(t as int),
                es@.len() == t,
                ps@.len() == t,
            decreases ids@.len() - t,
        {
            let id = &ids[t];
            assert(self.dents().dom().contains(id@));
            let e = self.dangling_e_entities.get(id.as_str()).unwrap();
            let p = self.dangling_e_patterns.get(id.as_str()).unwrap();
            let ghost es0 = es@;
            let ghost ps0 = ps@;
            es.push(e.duplicate());
            ps.push(p.clone());
            proof {
                assert(strs_view(ids@)[t as int] == id@);
                assert(edges_view(es@) =~= edges_view(es0).push(self.dents()[id@]));
                assert(edges_under(*self, strs_view(ids@)).take(t + 1) =~= edges_under(*self, strs_view(ids@)).take(t as int).push(self.dents()[id@]));
                assert(strs_view(ps@) =~= strs_view(ps0).push(self.dpats()[id@]));
                assert(pats_under(*self, strs_view(ids@)).take(t + 1) =~= pats_under(*self, strs_view(ids@)).take(t as int).push(self.dpats()[id@]));
            }
            t = t + 1;
        }
        proof {
            assert(edges_under(*self, strs_view(ids@)).take(t as int) =~= edges_under(*self, strs_view(ids@)));
            assert(pats_under(*self, strs_view(ids@)).take(t as int) =~= pats_under(*self, strs_view(ids@)));
        }
        (es, ps)
    }

    /// Whether the two expansions wait on a common vertex.
    pub fn has_common_pending_v(&self, other: &Self) -> (r: bool)
        ensures
            r == spec_has_common(*self, *other),
    {
        let self_shorter = self.pending_v_grouped_dangling_eids.len()
            < other.pending_v_grouped_dangling_eids.len();
        let shorter = if self_shorter { self } else { other };
        let longer = if self_shorter { other } else { self };
        let n = shorter.pending_v_grouped_dangling_eids.len();
        let mut i: usize = 0;
        while i < n
            invariant
                i <= n,
                n == shorter.pend().len(),
                self_shorter ==> shorter == self && longer == other,
                !self_shorter ==> shorter == other && longer == self,
                forall|j: int| 0 <= j < i ==> !has_pending_key(longer.pend(), #[trigger] shorter.pend()[j].0),
            decreases n - i,
        {
            let (k, _) = shorter.pending_v_grouped_dangling_eids.get_index(i).unwrap();
            if longer.pending_v_grouped_dangling_eids.contains_key(k.as_str()) {
                assert(has_pending_key(shorter.pend(), k@)) by {
                    assert(shorter.pend()[i as int].0 == k@);
                }
                assert(has_pending_key(self.pend(), k@) && has_pending_key(other.pend(), k@));
                return true;
            }
            i = i + 1;
        }
        assert forall|k: Seq<char>| !(has_pending_key(self.pend(), k) && has_pending_key(other.pend(), k)) by {
            if has_pending_key(shorter.pend(), k) {
                let j = choose|j: int| 0 <= j < shorter.pend().len() && (#[trigger] shorter.pend()[j]).0 == k;
                assert(!has_pending_key(longer.pend(), shorter.pend()[j].0));
            }
        }
        false
    }
}

} // verus!
