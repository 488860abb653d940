//! Which graphs can still grow into a match of the whole pattern, which are
//! one, and how the partial matches of all groups merge into full matches.

use vstd::prelude::*;
use crate::buckets::{all_wf, duplicate_graphs, graphs_view, FBucket};
use crate::dyn_graph::{union_view, DynGraph, GraphView};
use crate::keys::same_key;
use crate::maps::{lists_keys, strs_view, text_map_items, TextMap};
use crate::matching_ctx::MatchingCtx;
use crate::schemas::PlanData;

verus! {

/// Every value of `m` is one of `keys`, and no two keys of `m` share a value.
pub open spec fn each_once_within(m: Map<Seq<char>, Seq<char>>, keys: Set<Seq<char>>) -> bool {
    &&& forall|k: Seq<char>| #[trigger] m.dom().contains(k) ==> keys.contains(m[k])
    &&& forall|k1: Seq<char>, k2: Seq<char>| #[trigger] m.dom().contains(k1) && #[trigger] m.dom().contains(k2) && k1 != k2
        ==> m[k1] != m[k2]
}

/// Every one of `keys` is a value of `m`.
pub open spec fn covers(m: Map<Seq<char>, Seq<char>>, keys: Set<Seq<char>>) -> bool {
    forall|p: Seq<char>| #[trigger] keys.contains(p) ==> exists|k: Seq<char>| m.dom().contains(k) && m[k] == p
}

/// A graph can still grow into a match: each of its vertices and edges
/// matches a pattern vertex or edge of the plan, none matched twice.
pub open spec fn spec_partial(g: GraphView, pv: Set<Seq<char>>, pe: Set<Seq<char>>) -> bool {
    each_once_within(g.1, pv) && each_once_within(g.3, pe)
}

/// A graph matches the whole pattern: each pattern vertex and edge of the
/// plan is matched exactly once, and nothing else is.
pub open spec fn spec_whole(g: GraphView, pv: Set<Seq<char>>, pe: Set<Seq<char>>) -> bool {
    spec_partial(g, pv, pe) && covers(g.1, pv) && covers(g.3, pe)
}

/// The graphs of `gs` that can still grow into a match, in order.
pub open spec fn keep_partial(gs: Seq<DynGraph>, pv: Set<Seq<char>>, pe: Set<Seq<char>>) -> Seq<DynGraph>
    decreases gs.len(),
{
    if gs.len() == 0 {
        Seq::empty()
    } else {
        let p = keep_partial(gs.drop_last(), pv, pe);
        if spec_partial(gs.last().gview(), pv, pe) {
            p.push(gs.last())
        } else {
            p
        }
    }
}

/// The graphs of `gs` that match the whole pattern, in order.
pub open spec fn keep_whole(gs: Seq<GraphView>, pv: Set<Seq<char>>, pe: Set<Seq<char>>) -> Seq<GraphView>
    decreases gs.len(),
{
    if gs.len() == 0 {
        Seq::empty()
    } else {
        let p = keep_whole(gs.drop_last(), pv, pe);
        if spec_whole(gs.last(), pv, pe) {
            p.push(gs.last())
        } else {
            p
        }
    }
}

/// The merged graphs of all combinations that take one graph from each
/// group, in the order that varies the last group fastest; each combination
/// is merged from its first graph on.
pub open spec fn merge_combinations(gs: Seq<Seq<GraphView>>) -> Seq<GraphView>
    decreases gs.len(),
{
    if gs.len() <= 1 {
        if gs.len() == 1 {
            gs[0]
        } else {
            Seq::empty()
        }
    } else {
        let prev = merge_combinations(gs.drop_last());
        let last = gs.last();
        prev.map_values(|a: GraphView| last.map_values(|b: GraphView| union_view(a, b))).flatten()
    }
}

/// The ids that a list of keys names.
pub open spec fn key_set(keys: Seq<String>) -> Set<Seq<char>> {
    strs_view(keys).to_set()
}

/// Whether the list names the id.
pub fn contains_str(v: &Vec<String>, x: &str) -> (r: bool)
    ensures
        r == key_set(v@).contains(x@),
{
    let mut i: usize = 0;
    while i < v.len()
        invariant
            i <= v@.len(),
            forall|j: int| 0 <= j < i ==> v@[j]@ != x@,
        decreases v@.len() - i,
    {
        if same_key(v[i].as_str(), x) {
            assert(strs_view(v@)[i as int] == x@);
            return true;
        }
        i = i + 1;
    }
    assert(!strs_view(v@).contains(x@)) by {
        if strs_view(v@).contains(x@) {
            let j = choose|j: int| 0 <= j < strs_view(v@).len() && strs_view(v@)[j] == x@;
            assert(v@[j]@ == x@);
        }
    }
    false
}

/// The values of a text map, one for each key, in the order of `ks`.
fn values_of(m: &TextMap, ks: &Vec<String>) -> (r: Vec<String>)
    requires
        lists_keys(ks@, text_map_items(*m).dom()),
    ensures
        r@.len() == ks@.len(),
        forall|i: int| 0 <= i < r@.len() ==> (#[trigger] r@[i])@ == text_map_items(*m)[ks@[i]@],
{
    let mut r: Vec<String> = Vec::new();
    let mut i: usize = 0;
    while i < ks.len()
        invariant
            i <= ks@.len(),
            lists_keys(ks@, text_map_items(*m).dom()),
            r@.len() == i,
            forall|j: int| 0 <= j < i ==> (#[trigger] r@[j])@ == text_map_items(*m)[ks@[j]@],
        decreases ks@.len() - i,
    {
        assert(text_map_items(*m).dom().contains(ks@[i as int]@));
        let v = m.get(ks[i].as_str()).unwrap();
        r.push(v.clone());
        i = i + 1;
    }
    r
}

/// Whether every value of the map is one of `keys`, none shared by two keys.
pub fn fits_once(m: &TextMap, keys: &Vec<String>) -> (r: bool)
    ensures
        r == each_once_within(text_map_items(*m), key_set(keys@)),
{
    let ghost mm = text_map_items(*m);
    let ks = m.keys();
    let vals = values_of(m, &ks);
    let mut i: usize = 0;
    while i < vals.len()
        invariant
            i <= vals@.len(),
            vals@.len() == ks@.len(),
            lists_keys(ks@, mm.dom()),
            mm == text_map_items(*m),
            forall|q: int| 0 <= q < vals@.len() ==> (#[trigger] vals@[q])@ == mm[ks@[q]@],
            forall|q: int| 0 <= q < i ==> key_set(keys@).contains(#[trigger] vals@[q]@),
            forall|a: int, b: int| 0 <= a < b < i ==> (#[trigger] vals@[a])@ != (#[trigger] vals@[b])@,
        decreases vals@.len() - i,
    {
        if !contains_str(keys, vals[i].as_str()) {
            assert(!each_once_within(mm, key_set(keys@))) by {
                assert(mm.dom().contains(ks@[i as int]@));
            }
            return false;
        }
        let mut j: usize = 0;
        while j < i
            invariant
                j <= i,
                i < vals@.len(),
                vals@.len() == ks@.len(),
                lists_keys(ks@, mm.dom()),
                mm == text_map_items(*m),
                forall|q: int| 0 <= q < vals@.len() ==> (#[trigger] vals@[q])@ == mm[ks@[q]@],
                forall|a: int| 0 <= a < j ==> (#[trigger] vals@[a])@ != vals@[i as int]@,
            decreases i - j,
        {
            if same_key(vals[j].as_str(), vals[i].as_str()) {
                assert(!each_once_within(mm, key_set(keys@))) by {
                    let k1 = ks@[j as int]@;
                    let k2 = ks@[i as int]@;
                    assert(mm.dom().contains(k1));
                    assert(mm.dom().contains(k2));
                    assert(k1 != k2);
                }
                return false;
            }
            j = j + 1;
        }
        i = i + 1;
    }
    assert(each_once_within(mm, key_set(keys@))) by {
        assert forall|k: Seq<char>| #[trigger] mm.dom().contains(k) implies key_set(keys@).contains(mm[k]) by {
            let q = choose|q: int| 0 <= q < ks@.len() && ks@[q]@ == k;
            assert(key_set(keys@).contains(vals@[q]@));
        }
        assert forall|k1: Seq<char>, k2: Seq<char>| #[trigger] mm.dom().contains(k1) && #[trigger] mm.dom().contains(k2) && k1 != k2
            implies mm[k1] != mm[k2] by {
            let a = choose|q: int| 0 <= q < ks@.len() && ks@[q]@ == k1;
            let b = choose|q: int| 0 <= q < ks@.len() && ks@[q]@ == k2;
            if a < b {
                assert(vals@[a]@ != vals@[b]@);
            } else {
                assert(vals@[b]@ != vals@[a]@);
            }
        }
    }
    true
}

/// Whether every one of `keys` is a value of the map.
pub fn covers_all(m: &TextMap, keys: &Vec<String>) -> (r: bool)
    ensures
        r == covers(text_map_items(*m), key_set(keys@)),
{
    let ghost mm = text_map_items(*m);
    let ks = m.keys();
    let vals = values_of(m, &ks);
    let mut i: usize = 0;
    while i < keys.len()
        invariant
            i <= keys@.len(),
            vals@.len() == ks@.len(),
            lists_keys(ks@, mm.dom()),
            mm == text_map_items(*m),
            forall|q: int| 0 <= q < vals@.len() ==> (#[trigger] vals@[q])@ == mm[ks@[q]@],
            forall|q: int| 0 <= q < i ==> exists|k: Seq<char>| mm.dom().contains(k) && mm[k] == (#[trigger] keys@[q])@,
        decreases keys@.len() - i,
    {
        if !contains_str(&vals, keys[i].as_str()) {
            assert(!covers(mm, key_set(keys@))) by {
                let p = keys@[i as int]@;
                assert(strs_view(keys@)[i as int] == p);
                assert(key_set(keys@).contains(p));
                if exists|k: Seq<char>| mm.dom().contains(k) && mm[k] == p {
                    let k = choose|k: Seq<char>| mm.dom().contains(k) && mm[k] == p;
                    let q = choose|q: int| 0 <= q < ks@.len() && ks@[q]@ == k;
                    assert(strs_view(vals@)[q] == p);
                }
            }
            return false;
        }
        proof {
            let p = keys@[i as int]@;
            let q = choose|q: int| 0 <= q < strs_view(vals@).len() && strs_view(vals@)[q] == p;
            assert(mm.dom().contains(ks@[q]@) && mm[ks@[q]@] == p);
        }
        i = i + 1;
    }
    assert(covers(mm, key_set(keys@))) by {
        assert forall|p: Seq<char>| #[trigger] key_set(keys@).contains(p) implies exists|k: Seq<char>| mm.dom().contains(k) && mm[k] == p by {
            let q = choose|q: int| 0 <= q < strs_view(keys@).len() && strs_view(keys@)[q] == p;
            assert(keys@[q]@ == p);
        }
    }
    true
}

/// The ids of the pattern vertices of the plan.
pub open spec fn plan_v_keys(plan: PlanData) -> Set<Seq<char>> {
    plan.pvs().dom()
}

/// The ids of the pattern edges of the plan.
pub open spec fn plan_e_keys(plan: PlanData) -> Set<Seq<char>> {
    plan.pes().dom()
}

/// Whether the graph can still grow into a match of the plan's pattern:
/// each of its vertices and edges matches a pattern vertex or edge of the
/// plan, none matched twice.
pub fn could_match_partial_pattern(graph: &DynGraph, plan: &PlanData) -> (r: bool)
    ensures
        r == spec_partial(graph.gview(), plan_v_keys(*plan), plan_e_keys(*plan)),
{
    let vk = plan.pattern_vs.keys();
    let ek = plan.pattern_es.keys();
    assert(key_set(vk@) =~= plan_v_keys(*plan)) by {
        assert forall|x: Seq<char>| key_set(vk@).contains(x) <==> plan_v_keys(*plan).contains(x) by {
            if key_set(vk@).contains(x) {
                let q = choose|q: int| 0 <= q < strs_view(vk@).len() && strs_view(vk@)[q] == x;
                assert(vk@[q]@ == x);
            }
            if plan_v_keys(*plan).contains(x) {
                let q = choose|q: int| 0 <= q < vk@.len() && vk@[q]@ == x;
                assert(strs_view(vk@)[q] == x);
            }
        }
    }
    assert(key_set(ek@) =~= plan_e_keys(*plan)) by {
        assert forall|x: Seq<char>| key_set(ek@).contains(x) <==> plan_e_keys(*plan).contains(x) by {
            if key_set(ek@).contains(x) {
                let q = choose|q: int| 0 <= q < strs_view(ek@).len() && strs_view(ek@)[q] == x;
                assert(ek@[q]@ == x);
            }
            if plan_e_keys(*plan).contains(x) {
                let q = choose|q: int| 0 <= q < ek@.len() && ek@[q]@ == x;
                assert(strs_view(ek@)[q] == x);
            }
        }
    }
    fits_once(&graph.v_patterns, &vk) && fits_once(&graph.e_patterns, &ek)
}

/// Whether the graph matches the plan's whole pattern: each pattern vertex
/// and edge of the plan is matched exactly once, and nothing else is.
pub fn could_match_the_whole_pattern(graph: &DynGraph, plan: &PlanData) -> (r: bool)
    ensures
        r == spec_whole(graph.gview(), plan_v_keys(*plan), plan_e_keys(*plan)),
{
    if !could_match_partial_pattern(graph, plan) {
        return false;
    }
    let vk = plan.pattern_vs.keys();
    let ek = plan.pattern_es.keys();
    assert(key_set(vk@) =~= plan_v_keys(*plan)) by {
        assert forall|x: Seq<char>| key_set(vk@).contains(x) <==> plan_v_keys(*plan).contains(x) by {
            if key_set(vk@).contains(x) {
                let q = choose|q: int| 0 <= q < strs_view(vk@).len() && strs_view(vk@)[q] == x;
                assert(vk@[q]@ == x);
            }
            if plan_v_keys(*plan).contains(x) {
                let q = choose|q: int| 0 <= q < vk@.len() && vk@[q]@ == x;
                assert(strs_view(vk@)[q] == x);
            }
        }
    }
    assert(key_set(ek@) =~= plan_e_keys(*plan)) by {
        assert forall|x: Seq<char>| key_set(ek@).contains(x) <==> plan_e_keys(*plan).contains(x) by {
            if key_set(ek@).contains(x) {
                let q = choose|q: int| 0 <= q < strs_view(ek@).len() && strs_view(ek@)[q] == x;
                assert(ek@[q]@ == x);
            }
            if plan_e_keys(*plan).contains(x) {
                let q = choose|q: int| 0 <= q < ek@.len() && ek@[q]@ == x;
                assert(strs_view(ek@)[q] == x);
            }
        }
    }
    covers_all(&graph.v_patterns, &vk) && covers_all(&graph.e_patterns, &ek)
}

/// The graphs of the list that can still grow into a match of the plan's
/// pattern, in order.
pub fn keep_partial_graphs(gs: Vec<DynGraph>, plan: &PlanData) -> (r: Vec<DynGraph>)
    ensures
        r@ == keep_partial(gs@, plan_v_keys(*plan), plan_e_keys(*plan)),
{
    let ghost orig = gs@;
    let ghost pv = plan_v_keys(*plan);
    let ghost pe = plan_e_keys(*plan);
    let mut rest = gs;
    let mut r: Vec<DynGraph> = Vec::new();
    let ghost mut i: int = 0;
    while rest.len() > 0
        invariant
            0 <= i <= orig.len(),
            rest@ == orig.skip(i),
            r@ == keep_partial(orig.take(i), pv, pe),
            pv == plan_v_keys(*plan),
            pe == plan_e_keys(*plan),
        decreases rest@.len(),
    {
        let g = rest.remove(0);
        proof {
            assert(orig.skip(i)[0] == g);
            assert(orig.take(i + 1).drop_last() =~= orig.take(i));
            assert(orig.take(i + 1).last() == g);
        }
        if could_match_partial_pattern(&g, plan) {
            r.push(g);
        }
        proof {
            assert(rest@ =~= orig.skip(i + 1));
            i = i + 1;
        }
    }
    proof {
        assert(orig.take(i) =~= orig);
    }
    r
}

/// `ks` lists each id of `dom` exactly once, in some order.
pub open spec fn lists_ids(ks: Seq<Seq<char>>, dom: Set<Seq<char>>) -> bool {
    &&& forall|i: int| 0 <= i < ks.len() ==> dom.contains(#[trigger] ks[i])
    &&& forall|k: Seq<char>| dom.contains(k) ==> exists|i: int| 0 <= i < ks.len() && ks[i] == k
    &&& forall|i: int, j: int| 0 <= i < j < ks.len() ==> ks[i] != ks[j]
}

/// `new` is `old` followed, for each bucket of `fb` in the order `ks`, by the
/// bucket's graphs that can still grow into a match.
pub open spec fn reports_appended(
    old: Seq<Vec<DynGraph>>,
    new: Seq<Vec<DynGraph>>,
    fb: Map<Seq<char>, FBucket>,
    ks: Seq<Seq<char>>,
    pv: Set<Seq<char>>,
    pe: Set<Seq<char>>,
) -> bool {
    &&& new.len() == old.len() + ks.len()
    &&& forall|i: int| 0 <= i < old.len() ==> new[i] == old[i]
    &&& forall|i: int| 0 <= i < ks.len() ==> (#[trigger] new[old.len() + i])@ == keep_partial(fb[ks[i]].all_matched@, pv, pe)
}

/// `Report`: empties the F-block and collects, for each of its buckets in
/// some order, the graphs that can still grow into a match of the pattern.
pub fn report_partial_matches(ctx: &mut MatchingCtx)
    ensures
        final(ctx).fblk().dom() == Set::<Seq<char>>::empty(),
        final(ctx).plan_data == old(ctx).plan_data,
        final(ctx).expanded() == old(ctx).expanded(),
        final(ctx).ablk() == old(ctx).ablk(),
        final(ctx).cblk() == old(ctx).cblk(),
        final(ctx).tblk() == old(ctx).tblk(),
        exists|ks: Seq<Seq<char>>| lists_ids(ks, old(ctx).fblk().dom()) && reports_appended(
            old(ctx).grouped_partial_matches@,
            final(ctx).grouped_partial_matches@,
            old(ctx).fblk(),
            ks,
            plan_v_keys(old(ctx).plan_data),
            plan_e_keys(old(ctx).plan_data),
        ),
{
    let ghost fb = ctx.fblk();
    let ghost g0 = ctx.grouped_partial_matches@;
    let ghost pv = plan_v_keys(ctx.plan_data);
    let ghost pe = plan_e_keys(ctx.plan_data);
    let mut drained = ctx.f_block.drain_all();
    let ghost d0 = drained@;
    let ghost mut ks: Seq<Seq<char>> = Seq::empty();
    while drained.len() > 0
        invariant
            drained@ == d0.take(drained@.len() as int),
            drained@.len() <= d0.len(),
            ks.len() == d0.len() - drained@.len(),
            forall|i: int| 0 <= i < ks.len() ==> ks[i] == (#[trigger] d0[d0.len() - 1 - i]).0@,
            forall|i: int| 0 <= i < d0.len() ==> fb.dom().contains(#[trigger] d0[i].0@) && fb[d0[i].0@] == d0[i].1,
            forall|k: Seq<char>| fb.dom().contains(k) ==> exists|i: int| 0 <= i < d0.len() && d0[i].0@ == k,
            forall|i: int, j: int| 0 <= i < j < d0.len() ==> d0[i].0@ != d0[j].0@,
            pv == plan_v_keys(ctx.plan_data),
            pe == plan_e_keys(ctx.plan_data),
            ctx.plan_data == old(ctx).plan_data,
            ctx.expanded() == old(ctx).expanded(),
            ctx.ablk() == old(ctx).ablk(),
            ctx.cblk() == old(ctx).cblk(),
            ctx.tblk() == old(ctx).tblk(),
            ctx.fblk().dom() == Set::<Seq<char>>::empty(),
            fb == old(ctx).fblk(),
            g0 == old(ctx).grouped_partial_matches@,
            reports_appended(g0, ctx.grouped_partial_matches@, fb, ks, pv, pe),
        decreases drained@.len(),
    {
        let ghost n = drained@.len();
        let (k, bucket) = drained.pop().unwrap();
        let ghost gp = ctx.grouped_partial_matches@;
        let group = keep_partial_graphs(bucket.all_matched, &ctx.plan_data);
        ctx.grouped_partial_matches.push(group);
        proof {
            assert(d0[n - 1].0 == k);
            assert(drained@ =~= d0.take(n - 1));
            let ks0 = ks;
            ks = ks.push(k@);
            assert forall|i: int| 0 <= i < ks.len() implies ks[i] == (#[trigger] d0[d0.len() - 1 - i]).0@ by {
                if i < ks0.len() {
                    assert(ks[i] == ks0[i]);
                }
            }
            assert forall|i: int| 0 <= i < ks.len() implies (#[trigger] ctx.grouped_partial_matches@[g0.len() + i])@
                == keep_partial(fb[ks[i]].all_matched@, pv, pe) by {
                if i < ks0.len() {
                    assert(ctx.grouped_partial_matches@[g0.len() + i] == gp[g0.len() + i]);
                    assert(ks[i] == ks0[i]);
                } else {
                    assert(fb[k@] == d0[n - 1].1);
                }
            }
        }
    }
    proof {
        assert(lists_ids(ks, fb.dom())) by {
            assert forall|i: int| 0 <= i < ks.len() implies fb.dom().contains(#[trigger] ks[i]) by {
                assert(fb.dom().contains(d0[d0.len() - 1 - i].0@));
            }
            assert forall|k: Seq<char>| fb.dom().contains(k) implies exists|i: int| 0 <= i < ks.len() && ks[i] == k by {
                let j = choose|j: int| 0 <= j < d0.len() && d0[j].0@ == k;
                assert(ks[d0.len() - 1 - j] == d0[d0.len() - 1 - (d0.len() - 1 - j)].0@);
            }
            assert forall|i: int, j: int| 0 <= i < j < ks.len() implies ks[i] != ks[j] by {
                assert(ks[i] == d0[d0.len() - 1 - i].0@);
                assert(ks[j] == d0[d0.len() - 1 - j].0@);
            }
        }
    }
}

/// The views of the non-empty groups, in order.
pub open spec fn nonempty_groups(gs: Seq<Vec<DynGraph>>) -> Seq<Seq<GraphView>>
    decreases gs.len(),
{
    if gs.len() == 0 {
        Seq::empty()
    } else {
        let p = nonempty_groups(gs.drop_last());
        if gs.last()@.len() > 0 {
            p.push(graphs_view(gs.last()@))
        } else {
            p
        }
    }
}

/// Every graph of every group is well formed.
pub open spec fn all_groups_wf(gs: Seq<Vec<DynGraph>>) -> bool {
    forall|i: int| 0 <= i < gs.len() ==> all_wf(#[trigger] gs[i]@)
}

/// The final merge: takes one graph from each non-empty group in every way,
/// merges each combination from its first graph on, and keeps the merged
/// graphs that match the plan's whole pattern, in the order that varies the
/// last group fastest.
pub fn merge_partial_matches(groups: Vec<Vec<DynGraph>>, plan: &PlanData) -> (r: Vec<DynGraph>)
    requires
        all_groups_wf(groups@),
    ensures
        graphs_view(r@) == keep_whole(merge_combinations(nonempty_groups(groups@)), plan_v_keys(*plan), plan_e_keys(*plan)),
        all_wf(r@),
{
    let ghost orig = groups@;
    let ghost NE = nonempty_groups(orig);
    let ghost pv = plan_v_keys(*plan);
    let ghost pe = plan_e_keys(*plan);
    let mut rest = groups;
    let mut ne: Vec<Vec<DynGraph>> = Vec::new();
    let ghost mut i: int = 0;
    while rest.len() > 0
        invariant
            0 <= i <= orig.len(),
            rest@ == orig.skip(i),
            all_groups_wf(orig),
            all_groups_wf(ne@),
            ne@.len() == nonempty_groups(orig.take(i)).len(),
            forall|q: int| 0 <= q < ne@.len() ==> graphs_view((#[trigger] ne@[q])@) == nonempty_groups(orig.take(i))[q],
            forall|q: int| 0 <= q < ne@.len() ==> (#[trigger] ne@[q])@.len() > 0,
        decreases rest@.len(),
    {
        let g = rest.remove(0);
        proof {
            assert(orig.skip(i)[0] == g);
            assert(orig[i] == g);
            assert(orig.take(i + 1).drop_last() =~= orig.take(i));
            assert(orig.take(i + 1).last() == g);
        }
        if g.len() > 0 {
            ne.push(g);
        }
        proof {
            assert(rest@ =~= orig.skip(i + 1));
            i = i + 1;
        }
    }
    proof {
        assert(orig.take(i) =~= orig);
    }
    let mut acc: Vec<DynGraph> = Vec::new();
    if ne.len() == 0 {
        proof {
            assert(merge_combinations(NE) =~= Seq::<GraphView>::empty());
        }
        return acc;
    }
    acc = duplicate_graphs(&ne[0]);
    proof {
        assert(NE.take(1).len() == 1);
        assert(NE.take(1)[0] == NE[0]);
        assert(merge_combinations(NE.take(1)) == NE[0]);
    }
    let mut gi: usize = 1;
    while gi < ne.len()
        invariant
            1 <= gi <= ne@.len(),
            ne@.len() == NE.len(),
            forall|q: int| 0 <= q < ne@.len() ==> graphs_view((#[trigger] ne@[q])@) == NE[q],
            all_groups_wf(ne@),
            all_wf(acc@),
            graphs_view(acc@) == merge_combinations(NE.take(gi as int)),
        decreases ne@.len() - gi,
    {
        let last = &ne[gi];
        let ghost prev = merge_combinations(NE.take(gi as int));
        let ghost L = NE[gi as int];
        let ghost F = |a: GraphView| L.map_values(|b: GraphView| union_view(a, b));
        let mut next: Vec<DynGraph> = Vec::new();
        let mut ai: usize = 0;
        proof {
            assert(prev.take(0).map_values(F).flatten() =~= Seq::<GraphView>::empty());
        }
        while ai < acc.len()
            invariant
                ai <= acc@.len(),
                gi < ne@.len(),
                last == &ne@[gi as int],
                graphs_view(last@) == L,
                all_wf(last@),
                all_wf(acc@),
                all_wf(next@),
                graphs_view(acc@) == prev,
                F == (|a: GraphView| L.map_values(|b: GraphView| union_view(a, b))),
                graphs_view(next@) == prev.take(ai as int).map_values(F).flatten(),
            decreases acc@.len() - ai,
        {
            let ghost before = graphs_view(next@);
            let mut bi: usize = 0;
            while bi < last.len()
                invariant
                    bi <= last@.len(),
                    ai < acc@.len(),
                    graphs_view(last@) == L,
                    all_wf(last@),
                    all_wf(acc@),
                    all_wf(next@),
                    graphs_view(acc@) == prev,
                    graphs_view(next@) == before + L.take(bi as int).map_values(|b: GraphView| union_view(prev[ai as int], b)),
                decreases last@.len() - bi,
            {
                let a = acc[ai].duplicate();
                let b = last[bi].duplicate();
                proof {
                    assert(acc@[ai as int].wf());
                    assert(last@[bi as int].wf());
                }
                let merged = a.union(b);
                let ghost nx = graphs_view(next@);
                next.push(merged);
                proof {
                    assert(graphs_view(acc@)[ai as int] == acc@[ai as int].gview());
                    assert(graphs_view(last@)[bi as int] == last@[bi as int].gview());
                    assert(graphs_view(next@) =~= nx.push(merged.gview()));
                    assert(L.take(bi + 1).map_values(|b: GraphView| union_view(prev[ai as int], b))
                        =~= L.take(bi as int).map_values(|b: GraphView| union_view(prev[ai as int], b)).push(union_view(prev[ai as int], L[bi as int])));
                    assert(graphs_view(next@) =~= before + L.take(bi + 1).map_values(|b: GraphView| union_view(prev[ai as int], b)));
                    assert forall|q: int| 0 <= q < next@.len() implies (#[trigger] next@[q]).wf() by {
                        if q < nx.len() {
                        }
                    }
                }
                bi = bi + 1;
            }
            proof {
                assert(L.take(bi as int) =~= L);
                assert(prev.take(ai + 1) =~= prev.take(ai as int).push(prev[ai as int]));
                assert(prev.take(ai + 1).map_values(F) =~= prev.take(ai as int).map_values(F).push(F(prev[ai as int])));
                prev.take(ai as int).map_values(F).lemma_flatten_push(F(prev[ai as int]));
                assert(F(prev[ai as int]) =~= L.map_values(|b: GraphView| union_view(prev[ai as int], b)));
            }
            ai = ai + 1;
        }
        acc = next;
        proof {
            assert(prev.take(ai as int) =~= prev);
            assert(NE.take(gi + 1).drop_last() =~= NE.take(gi as int));
            assert(NE.take(gi + 1).last() == L);
            assert(merge_combinations(NE.take(gi + 1)) == prev.map_values(F).flatten());
        }
        gi = gi + 1;
    }
    proof {
        assert(NE.take(gi as int) =~= NE);
    }
    let ghost all = graphs_view(acc@);
    let ghost accs = acc@;
    let mut result: Vec<DynGraph> = Vec::new();
    let ghost mut j: int = 0;
    while acc.len() > 0
        invariant
            0 <= j <= accs.len(),
            acc@ == accs.skip(j),
            all == graphs_view(accs),
            graphs_view(result@) == keep_whole(all.take(j), pv, pe),
            all_wf(accs),
            all_wf(result@),
            pv == plan_v_keys(*plan),
            pe == plan_e_keys(*plan),
        decreases acc@.len(),
    {
        let g = acc.remove(0);
        proof {
            assert(accs.skip(j)[0] == g);
            assert(all[j] == g.gview());
            assert(all.take(j + 1).drop_last() =~= all.take(j));
            assert(all.take(j + 1).last() == g.gview());
        }
        let ghost rv = graphs_view(result@);
        let ghost r0 = result@;
        if could_match_the_whole_pattern(&g, plan) {
            result.push(g);
            assert(graphs_view(result@) =~= rv.push(g.gview()));
            assert forall|q: int| 0 <= q < result@.len() implies (#[trigger] result@[q]).wf() by {
                if q < r0.len() {
                    assert(result@[q] == r0[q]);
                }
            }
        }
        proof {
            assert(acc@ =~= accs.skip(j + 1));
            j = j + 1;
        }
    }
    proof {
        assert(all.take(j) =~= all);
    }
    result
}

/// A graph that matches the whole pattern can also still grow into one.
pub proof fn law_whole_implies_partial(g: GraphView, pv: Set<Seq<char>>, pe: Set<Seq<char>>)
    ensures
        spec_whole(g, pv, pe) ==> spec_partial(g, pv, pe),
{
}

/// A report keeps only graphs that can still grow into a match, and keeps
/// them in order: each kept graph is one of the given ones.
pub proof fn law_reported_graphs_partial(gs: Seq<DynGraph>, pv: Set<Seq<char>>, pe: Set<Seq<char>>)
    ensures
        keep_partial(gs, pv, pe).len() <= gs.len(),
        forall|i: int| 0 <= i < keep_partial(gs, pv, pe).len() ==>
            spec_partial((#[trigger] keep_partial(gs, pv, pe)[i]).gview(), pv, pe) && gs.contains(keep_partial(gs, pv, pe)[i]),
    decreases gs.len(),
{
    if gs.len() > 0 {
        law_reported_graphs_partial(gs.drop_last(), pv, pe);
        let p = keep_partial(gs.drop_last(), pv, pe);
        assert forall|i: int| 0 <= i < keep_partial(gs, pv, pe).len() implies
            spec_partial((#[trigger] keep_partial(gs, pv, pe)[i]).gview(), pv, pe) && gs.contains(keep_partial(gs, pv, pe)[i]) by {
            if i < p.len() {
                assert(keep_partial(gs, pv, pe)[i] == p[i]);
                let j = choose|j: int| 0 <= j < gs.drop_last().len() && gs.drop_last()[j] == p[i];
                assert(gs[j] == p[i]);
            } else {
                assert(gs[gs.len() - 1] == gs.last());
            }
        }
    }
}

/// The final merge hands back only graphs that match the whole pattern.
pub proof fn law_merged_graphs_whole(gs: Seq<GraphView>, pv: Set<Seq<char>>, pe: Set<Seq<char>>)
    ensures
        keep_whole(gs, pv, pe).len() <= gs.len(),
        forall|i: int| 0 <= i < keep_whole(gs, pv, pe).len() ==> spec_whole(#[trigger] keep_whole(gs, pv, pe)[i], pv, pe),
    decreases gs.len(),
{
    if gs.len() > 0 {
        law_merged_graphs_whole(gs.drop_last(), pv, pe);
        let p = keep_whole(gs.drop_last(), pv, pe);
        assert forall|i: int| 0 <= i < keep_whole(gs, pv, pe).len() implies spec_whole(#[trigger] keep_whole(gs, pv, pe)[i], pv, pe) by {
            if i < p.len() {
                assert(keep_whole(gs, pv, pe)[i] == p[i]);
            }
        }
    }
}

/// A merged combination holds every vertex and edge of each graph in it:
/// merging one graph from each of two groups gives their union.
pub proof fn law_merge_two_groups(a: Seq<GraphView>, b: Seq<GraphView>, i: int, j: int)
    requires
        0 <= i < a.len(),
        0 <= j < b.len(),
    ensures
        merge_combinations(seq![a, b]).len() == a.len() * b.len(),
        merge_combinations(seq![a, b])[i * b.len() + j] == union_view(a[i], b[j]),
{
    let gs = seq![a, b];
    assert(gs.drop_last() =~= seq![a]);
    assert(merge_combinations(gs.drop_last()) == a);
    let F = |x: GraphView| b.map_values(|y: GraphView| union_view(x, y));
    assert(merge_combinations(gs) == a.map_values(F).flatten());
    lemma_flatten_uniform(a.map_values(F), b.len() as int);
    assert(a.map_values(F)[i][j] == union_view(a[i], b[j]));
}

/// The number of ways to take one graph from each group.
pub open spec fn combination_count(gs: Seq<Seq<GraphView>>) -> int
    decreases gs.len(),
{
    if gs.len() == 0 {
        0
    } else if gs.len() == 1 {
        gs[0].len() as int
    } else {
        combination_count(gs.drop_last()) * gs.last().len()
    }
}

/// A choice of one graph from each group: `is[k]` indexes group `k`.
pub open spec fn is_choice(gs: Seq<Seq<GraphView>>, is: Seq<int>) -> bool {
    &&& is.len() == gs.len()
    &&& forall|k: int| 0 <= k < gs.len() ==> 0 <= #[trigger] is[k] < gs[k].len()
}

/// Where a choice stands when the last group varies fastest: the choice read
/// as a number whose digit `k` counts in base `gs[k].len()`.
pub open spec fn choice_rank(gs: Seq<Seq<GraphView>>, is: Seq<int>) -> int
    decreases is.len(),
{
    if is.len() <= 1 {
        if is.len() == 1 { is[0] } else { 0 }
    } else {
        choice_rank(gs.drop_last(), is.drop_last()) * gs.last().len() + is.last()
    }
}

/// The union of the chosen graphs, taken from the first group on:
/// `union(..union(gs[0][is[0]], gs[1][is[1]]).., gs[n-1][is[n-1]])`.
pub open spec fn chosen_union(gs: Seq<Seq<GraphView>>, is: Seq<int>) -> GraphView
    decreases is.len(),
{
    if is.len() <= 1 {
        gs[0][is[0]]
    } else {
        union_view(chosen_union(gs.drop_last(), is.drop_last()), gs[is.len() - 1][is.last()])
    }
}

/// The final merge lists, for every choice of one graph from each of any
/// number of groups, the union of the chosen graphs, at the choice's rank;
/// there is one merged graph per choice.
pub proof fn law_merge_all_groups(gs: Seq<Seq<GraphView>>, is: Seq<int>)
    requires
        gs.len() >= 1,
        is_choice(gs, is),
    ensures
        merge_combinations(gs).len() == combination_count(gs),
        0 <= choice_rank(gs, is) < combination_count(gs),
        merge_combinations(gs)[choice_rank(gs, is)] == chosen_union(gs, is),
    decreases gs.len(),
{
    if gs.len() > 1 {
        let g0 = gs.drop_last();
        let i0 = is.drop_last();
        assert(is_choice(g0, i0)) by {
            assert forall|k: int| 0 <= k < g0.len() implies 0 <= #[trigger] i0[k] < g0[k].len() by {
                assert(i0[k] == is[k] && g0[k] == gs[k]);
            }
        }
        law_merge_all_groups(g0, i0);
        let prev = merge_combinations(g0);
        let last = gs.last();
        let n = last.len() as int;
        let F = |a: GraphView| last.map_values(|b: GraphView| union_view(a, b));
        assert(merge_combinations(gs) == prev.map_values(F).flatten());
        lemma_flatten_uniform(prev.map_values(F), n);
        let r0 = choice_rank(g0, i0);
        let c = is.last();
        assert(0 <= c < n) by {
            assert(is[is.len() - 1] == c);
        }
        let p = combination_count(g0);
        assert(0 <= r0 * n + c < p * n) by (nonlinear_arith)
            requires
                0 <= r0 < p,
                0 <= c < n;
        assert(prev.map_values(F)[r0][c] == union_view(prev[r0], last[c]));
        assert(gs[is.len() - 1] == last);
    }
}

/// Three groups, spelled out: the merged graph of `a[i]`, `b[j]` and `c[k]`
/// stands at `(i * |b| + j) * |c| + k` and is their union.
pub proof fn law_merge_three_groups(a: Seq<GraphView>, b: Seq<GraphView>, c: Seq<GraphView>, i: int, j: int, k: int)
    requires
        0 <= i < a.len(),
        0 <= j < b.len(),
        0 <= k < c.len(),
    ensures
        merge_combinations(seq![a, b, c])[(i * b.len() + j) * c.len() + k] == union_view(union_view(a[i], b[j]), c[k]),
{
    let gs = seq![a, b, c];
    let is = seq![i, j, k];
    assert(is_choice(gs, is));
    law_merge_all_groups(gs, is);
    assert(gs.drop_last() =~= seq![a, b]);
    assert(is.drop_last() =~= seq![i, j]);
    assert(gs.drop_last().drop_last() =~= seq![a]);
    assert(is.drop_last().drop_last() =~= seq![i]);
    assert(choice_rank(seq![a], seq![i]) == i);
    assert(chosen_union(seq![a], seq![i]) == a[i]);
    assert(seq![a, b][1] == b && seq![i, j][1] == j);
    assert(choice_rank(seq![a, b], seq![i, j]) == i * b.len() + j);
    assert(chosen_union(seq![a, b], seq![i, j]) == union_view(a[i], b[j]));
    assert(gs.last() == c && gs[2] == c && is.last() == k);
    assert(choice_rank(gs, is) == (i * b.len() + j) * c.len() + k);
    assert(chosen_union(gs, is) == union_view(union_view(a[i], b[j]), c[k]));
}

/// Flattening rows that all have length `n`: the length is rows times `n`,
/// and element `(r, c)` stands at `r * n + c`.
pub proof fn lemma_flatten_uniform(s: Seq<Seq<GraphView>>, n: int)
    requires
        n >= 0,
        forall|r: int| 0 <= r < s.len() ==> (#[trigger] s[r]).len() == n,
    ensures
        s.flatten().len() == s.len() * n,
        forall|r: int, c: int| 0 <= r < s.len() && 0 <= c < n ==> s.flatten()[r * n + c] == #[trigger] s[r][c],
    decreases s.len(),
{
    if s.len() > 0 {
        let t = s.drop_first();
        lemma_flatten_uniform(t, n);
        assert(s.flatten() == s[0] + t.flatten());
        assert(s.len() * n == n + t.len() * n) by (nonlinear_arith)
            requires
                s.len() == t.len() + 1;
        assert forall|r: int, c: int| 0 <= r < s.len() && 0 <= c < n implies s.flatten()[r * n + c] == #[trigger] s[r][c] by {
            if r > 0 {
                assert(r * n + c == n + ((r - 1) * n + c)) by (nonlinear_arith);
                let k = r - 1;
                let m = t.len() as int;
                assert((k + 1) * n <= m * n) by (nonlinear_arith)
                    requires
                        k + 1 <= m,
                        n >= 0;
                assert((k + 1) * n == k * n + n) by (nonlinear_arith);
                assert((r - 1) * n + c < t.len() * n);
                assert(0 <= (r - 1) * n + c) by (nonlinear_arith)
                    requires
                        0 <= r - 1,
                        0 <= c,
                        n >= 0;
                assert(t[r - 1] == s[r]);
            } else {
                assert(r * n + c == c) by (nonlinear_arith)
                    requires
                        r == 0;
            }
        }
    }
}

} // verus!
