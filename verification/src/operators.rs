//! The plan instructions as steps on the matching context: which operator an
//! instruction runs, and the parts of `Init` and `GetAdj` that decide what
//! the context holds before and after their loads from storage.

use vstd::prelude::*;
use crate::adjacency::{
    apply_loads, connected_by_loads, groups_wf, groups_xview, load_fits, loaded_view, loads_view,
    planned_loads, EdgeLoad,
};
use crate::buckets::{all_sorted, all_wf, all_xwf, index_set, is_pairwise_meet, ABucket, CBucket, FBucket, TBucket};
use crate::dyn_graph::{DynGraph, GraphView};
use crate::expand_graph::{keys_nondescending, pair_vids, targets_confirmed, ExpandGraph};
use crate::keys::{compare_keys, key_lt, lemma_key_order, KeyOrder};
use crate::maps::{is_permutation, keys_ascending, lists_indices, pending_keys, strs_view};
use crate::matching_ctx::{present_values, MatchingCtx};
use crate::schemas::{DataEdge, DataVertex, Instruction, InstructionType, PatternEdge, VertexView};
use crate::vars::{
    has_splitter, resolve_var, resolve_var_name, spec_var_prefix, var_name_part, var_prefix_part, var_prefix_of,
    VarPrefix,
};

verus! {

/// The operators that plan instructions run.
#[derive(PartialEq, Eq, Structural)]
pub enum InstrOperator {
    Init,
    GetAdj,
    Foreach,
    Intersect,
    Report,
}

/// Picks the operator of an instruction.
pub struct InstrOperatorFactory;

impl InstrOperatorFactory {
    /// The operator that runs instructions of the instruction's type; no
    /// operator runs `TCache`.
    pub fn create(instr: &Instruction) -> (r: InstrOperator)
        requires
            instr.type_ != InstructionType::TCache,
        ensures
            r == (match instr.type_ {
                InstructionType::Init => InstrOperator::Init,
                InstructionType::GetAdj => InstrOperator::GetAdj,
                InstructionType::Foreach => InstrOperator::Foreach,
                InstructionType::Intersect => InstrOperator::Intersect,
                _ => InstrOperator::Report,
            }),
    {
        match instr.type_ {
            InstructionType::Init => InstrOperator::Init,
            InstructionType::GetAdj => InstrOperator::GetAdj,
            InstructionType::Foreach => InstrOperator::Foreach,
            InstructionType::Intersect => InstrOperator::Intersect,
            _ => InstrOperator::Report,
        }
    }
}

/// The vertices of `vs` whose ids are not in `ex`, in order.
pub open spec fn unexpanded_vertices(vs: Seq<DataVertex>, ex: Set<Seq<char>>) -> Seq<DataVertex>
    decreases vs.len(),
{
    if vs.len() == 0 {
        Seq::empty()
    } else {
        let p = unexpanded_vertices(vs.drop_last(), ex);
        if ex.contains(vs.last().vid@) {
            p
        } else {
            p.push(vs.last())
        }
    }
}

/// The graph of the single vertex `v`, matching pattern vertex `p`.
pub open spec fn single_vertex_view(v: DataVertex, p: Seq<char>) -> GraphView {
    (
        Map::<Seq<char>, VertexView>::empty().insert(v.vid@, v@),
        Map::<Seq<char>, Seq<char>>::empty().insert(v.vid@, p),
        Map::empty(),
        Map::empty(),
    )
}

/// `Init`, once the vertices that match the instruction's pattern vertex are
/// loaded: the variable gets a fresh F-bucket, and each loaded vertex not
/// expanded yet starts a matched graph of its own, with itself as frontier.
pub fn init_matched_vertices(ctx: &mut MatchingCtx, instr: &Instruction, matched_vs: Vec<DataVertex>)
    requires
        has_splitter(instr.target_var@),
        old(ctx).plan_data.pvs().dom().contains(instr.vid@),
    ensures
        ({
            let k = var_name_part(instr.target_var@);
            let b = final(ctx).fblk()[k];
            let kept = unexpanded_vertices(matched_vs@, old(ctx).expanded());
            let p = old(ctx).plan_data.pvs()[instr.vid@].vid@;
            &&& final(ctx).frame_f(old(ctx))
            &&& final(ctx).fblk() == old(ctx).fblk().insert(k, b)
            &&& all_wf(b.all_matched@)
            &&& b.graphs() == kept.map_values(|v: DataVertex| single_vertex_view(v, p))
            &&& b.frontiers().dom() == index_set(kept.len() as int)
            &&& forall|i: int| 0 <= i < kept.len() ==> b.frontiers()[i as usize] == seq![(#[trigger] kept[i]).vid@]
        }),
{
    let ghost k = var_name_part(instr.target_var@);
    let ghost ex = ctx.expanded();
    let ghost orig = matched_vs@;
    let pattern_vid = ctx.get_pattern_v(instr.vid.as_str()).vid.clone();
    let ghost p = pattern_vid@;
    ctx.init_f_block(instr.target_var.as_str());
    let ghost c1 = *ctx;
    let total = matched_vs.len();
    let mut rest = matched_vs;
    let mut n: usize = 0;
    while rest.len() > 0
        invariant
            n <= orig.len(),
            orig.len() == total,
            rest@ == orig.skip(n as int),
            has_splitter(instr.target_var@),
            k == var_name_part(instr.target_var@),
            ex == ctx.expanded(),
            p == pattern_vid@,
            ctx.frame_f(old(ctx)),
            ctx.fblk() == old(ctx).fblk().insert(k, ctx.fblk()[k]),
            all_wf(ctx.fblk()[k].all_matched@),
            ctx.fblk()[k].graphs() == unexpanded_vertices(orig.take(n as int), ex).map_values(
                |v: DataVertex| single_vertex_view(v, p),
            ),
            ctx.fblk()[k].frontiers().dom() == index_set(unexpanded_vertices(orig.take(n as int), ex).len() as int),
            forall|i: int| 0 <= i < unexpanded_vertices(orig.take(n as int), ex).len()
                ==> ctx.fblk()[k].frontiers()[i as usize] == seq![(#[trigger] unexpanded_vertices(orig.take(n as int), ex)[i]).vid@],
        decreases rest@.len(),
    {
        let v = rest.remove(0);
        let ghost kept = unexpanded_vertices(orig.take(n as int), ex);
        let ghost b0 = ctx.fblk()[k];
        proof {
            assert(orig.skip(n as int)[0] == v);
            assert(orig.take(n + 1).drop_last() =~= orig.take(n as int));
            assert(orig.take(n + 1).last() == v);
        }
        if !ctx.expanded_data_vids.contains(v.vid.as_str()) {
            let fv = v.vid.clone();
            let mut dg = DynGraph::new();
            dg.update_v(v, pattern_vid.clone());
            assert(dg.gview() =~= single_vertex_view(v, p));
            ctx.append_to_f_block(instr.target_var.as_str(), dg, fv.as_str());
            proof {
                let b = ctx.fblk()[k];
                let kept2 = unexpanded_vertices(orig.take(n + 1), ex);
                assert(kept2 == kept.push(v));
                assert(b0.graphs().len() == b0.all_matched@.len());
                assert(kept.len() == b0.all_matched@.len());
                assert(b0.all_matched.len() == b0.all_matched@.len());
                assert(!b0.frontiers().dom().contains(kept.len() as usize));
                assert(b.all_matched@ == b0.all_matched@.push(dg));
                assert(b.graphs() =~= b0.graphs().push(dg.gview()));
                assert(b.graphs() =~= kept2.map_values(|v: DataVertex| single_vertex_view(v, p)));
                assert(b.frontiers().dom() =~= index_set(kept2.len() as int));
                assert forall|i: int| 0 <= i < kept2.len() implies b.frontiers()[i as usize] == seq![(#[trigger] kept2[i]).vid@] by {
                    if i < kept.len() {
                        assert(kept2[i] == kept[i]);
                    }
                }
                assert forall|i: int| 0 <= i < b.all_matched@.len() implies (#[trigger] b.all_matched@[i]).wf() by {
                    if i < b0.all_matched@.len() {
                        assert(b.all_matched@[i] == b0.all_matched@[i]);
                    }
                }
                assert(ctx.fblk() =~= old(ctx).fblk().insert(k, b));
            }
        } else {
            assert(unexpanded_vertices(orig.take(n + 1), ex) == kept);
        }
        proof {
            assert(rest@ =~= orig.skip(n + 1));
        }
        n = n + 1;
    }
    proof {
        assert(orig.take(n as int) =~= orig);
    }
}

/// `GetAdj`, up to its loads from storage: takes the F-bucket of the
/// instruction's operand out of the context, puts an empty A-bucket under
/// its target, and gives back the bucket that expands the operand's matched
/// graphs from the operand's pattern vertex, the pattern edges to expand
/// along, and the loads that the expansion needs.
pub fn get_adj_begin(ctx: &mut MatchingCtx, instr: &Instruction) -> (r: (ABucket, Vec<PatternEdge>, Vec<EdgeLoad>))
    requires
        instr.single_op is Some,
        has_splitter(instr.single_op->0@),
        spec_var_prefix(var_prefix_part(instr.single_op->0@)) is Some,
        has_splitter(instr.target_var@),
        old(ctx).fblk().dom().contains(var_name_part(instr.single_op->0@)),
        forall|i: usize| #[trigger] old(ctx).fblk()[var_name_part(instr.single_op->0@)].frontiers().dom().contains(i)
            ==> i < old(ctx).fblk()[var_name_part(instr.single_op->0@)].all_matched@.len(),
    ensures
        ({
            let op = var_name_part(instr.single_op->0@);
            let f = old(ctx).fblk()[op];
            let t = var_name_part(instr.target_var@);
            let a = final(ctx).ablk()[t];
            &&& final(ctx).fblk() == old(ctx).fblk().remove(op)
            &&& final(ctx).ablk() == old(ctx).ablk().insert(t, a)
            &&& a.curr_pat_vid@ == t
            &&& a.all_matched@ == Seq::<DynGraph>::empty()
            &&& a.frontiers() == Map::<usize, Seq<Seq<char>>>::empty()
            &&& a.groups() == Map::<Seq<char>, Seq<ExpandGraph>>::empty()
            &&& final(ctx).cblk() == old(ctx).cblk()
            &&& final(ctx).tblk() == old(ctx).tblk()
            &&& final(ctx).expanded() == old(ctx).expanded()
            &&& final(ctx).plan_data == old(ctx).plan_data
            &&& final(ctx).grouped_partial_matches == old(ctx).grouped_partial_matches
            &&& r.0.curr_pat_vid@ == op
            &&& r.0.graphs() == f.graphs()
            &&& (all_wf(f.all_matched@) ==> all_wf(r.0.all_matched@))
            &&& r.0.frontiers() == f.frontiers()
            &&& r.0.groups() == Map::<Seq<char>, Seq<ExpandGraph>>::empty()
            &&& r.1@ == present_values(old(ctx).plan_data.pes(), strs_view(instr.expand_eids@))
            &&& exists|ks: Seq<usize>|
                lists_indices(ks, f.frontiers().dom())
                && loads_view(r.2@) == planned_loads(ks, f.graphs(), f.frontiers(), r.1@, op, ks.len())
        }),
{
    let single_op = match &instr.single_op {
        Some(s) => s.as_str(),
        None => "",
    };
    let (_, curr_pat_vid) = resolve_var(single_op);
    let f_bucket = ctx.pop_from_f_block(single_op);
    let a_bucket = ABucket::from_f_bucket(&f_bucket, curr_pat_vid);
    ctx.init_a_block(instr.target_var.as_str());
    let pattern_es = ctx.fetch_pattern_e_batch(&instr.expand_eids);
    assert(a_bucket.graphs().len() == a_bucket.all_matched@.len());
    assert(f_bucket.graphs().len() == f_bucket.all_matched@.len());
    let loads = a_bucket.plan_edge_loads(&pattern_es);
    (a_bucket, pattern_es, loads)
}

/// `GetAdj`, once the loads are done (`loaded[i]` holds the edges that
/// `loads[i]` loaded and the vertices that those the graph lacks reach):
/// the bucket takes in the results, goes under the instruction's target, and
/// the frontier vertices from which some edge matched join the expanded ones.
pub fn get_adj_end(
    ctx: &mut MatchingCtx,
    instr: &Instruction,
    a_bucket: ABucket,
    pattern_es: &Vec<PatternEdge>,
    loads: &Vec<EdgeLoad>,
    loaded: Vec<(Vec<DataEdge>, Vec<DataVertex>)>,
)
    requires
        has_splitter(instr.target_var@),
        all_wf(a_bucket.all_matched@),
        loads@.len() == loaded@.len(),
        forall|i: int| 0 <= i < loads@.len() ==> load_fits(
            a_bucket.graphs(),
            pattern_es@,
            old(ctx).plan_data.pvs(),
            #[trigger] loads@[i]@,
            loaded_view(loaded@)[i],
        ),
    ensures
        ({
            let t = var_name_part(instr.target_var@);
            let b = final(ctx).ablk()[t];
            let pvs = old(ctx).plan_data.pvs();
            let n = loads@.len() as nat;
            &&& final(ctx).ablk() == old(ctx).ablk().insert(t, b)
            &&& b.all_matched@.len() == 0
            &&& b.curr_pat_vid == a_bucket.curr_pat_vid
            &&& b.matched_with_frontiers == a_bucket.matched_with_frontiers
            &&& groups_xview(b.groups()) == apply_loads(
                groups_xview(a_bucket.groups()),
                a_bucket.graphs(),
                pattern_es@,
                pvs,
                loads_view(loads@),
                loaded_view(loaded@),
                n,
            )
            &&& (groups_wf(a_bucket.groups()) ==> groups_wf(b.groups()))
            &&& final(ctx).expanded() == old(ctx).expanded() + connected_by_loads(
                a_bucket.graphs(),
                pattern_es@,
                pvs,
                loads_view(loads@),
                loaded_view(loaded@),
                n,
            )
            &&& final(ctx).fblk() == old(ctx).fblk()
            &&& final(ctx).cblk() == old(ctx).cblk()
            &&& final(ctx).tblk() == old(ctx).tblk()
            &&& final(ctx).plan_data == old(ctx).plan_data
            &&& final(ctx).grouped_partial_matches == old(ctx).grouped_partial_matches
        }),
{
    let mut a = a_bucket;
    let connected = a.incremental_load_new_edges(pattern_es, ctx.pattern_vs(), loads, loaded);
    ctx.update_a_block(instr.target_var.as_str(), a);
    ctx.update_extended_data_vids(connected);
}

/// Sorts vertex-pattern pairs by vertex id, pairs with the same id kept in
/// their order.
pub fn sort_pairs_by_vid(pairs: Vec<(DataVertex, String)>) -> (r: Vec<(DataVertex, String)>)
    ensures
        keys_nondescending(pair_vids(r@)),
        r@.to_multiset() == pairs@.to_multiset(),
{
    let ghost orig = pairs@;
    let total = pairs.len();
    let mut rest = pairs;
    let mut r: Vec<(DataVertex, String)> = Vec::new();
    let mut n: usize = 0;
    proof {
        assert(orig.take(0) =~= Seq::<(DataVertex, String)>::empty());
    }
    while rest.len() > 0
        invariant
            n <= orig.len(),
            orig.len() == total,
            rest@ == orig.skip(n as int),
            keys_nondescending(pair_vids(r@)),
            r@.to_multiset() == orig.take(n as int).to_multiset(),
        decreases rest@.len(),
    {
        let x = rest.remove(0);
        proof {
            assert(orig.skip(n as int)[0] == x);
            assert(orig.take(n + 1) =~= orig.take(n as int).push(x));
        }
        let mut pos: usize = 0;
        let mut found = false;
        while !found && pos < r.len()
            invariant
                pos <= r@.len(),
                found ==> pos < r@.len() && key_lt(x.0.vid@, r@[pos as int].0.vid@),
                forall|q: int| 0 <= q < pos ==> !key_lt(x.0.vid@, #[trigger] r@[q].0.vid@),
            decreases r@.len() - pos + (if found { 0int } else { 1int }),
        {
            if compare_keys(x.0.vid.as_str(), r[pos].0.vid.as_str()) == KeyOrder::Less {
                found = true;
            } else {
                pos = pos + 1;
            }
        }
        let ghost r0 = r@;
        r.insert(pos, x);
        proof {
            let v0 = pair_vids(r0);
            let v1 = pair_vids(r@);
            assert(v1 =~= v0.insert(pos as int, x.0.vid@));
            assert forall|i: int, j: int| 0 <= i < j < v1.len() implies key_lt(#[trigger] v1[i], #[trigger] v1[j]) || v1[i] == v1[j] by {
                let xv = x.0.vid@;
                if j == pos {
                    assert(v1[i] == v0[i]);
                    lemma_key_order(v0[i], xv, xv);
                    assert(!key_lt(xv, r0[i].0.vid@));
                } else if i == pos {
                    assert(v1[j] == v0[j - 1]);
                    assert(found);
                    lemma_key_order(xv, v0[pos as int], v0[j - 1]);
                    if j - 1 > pos {
                        assert(key_lt(v0[pos as int], v0[j - 1]) || v0[pos as int] == v0[j - 1]);
                    }
                } else if j < pos {
                    assert(v1[i] == v0[i] && v1[j] == v0[j]);
                } else if i < pos {
                    assert(v1[i] == v0[i] && v1[j] == v0[j - 1]);
                } else {
                    assert(v1[i] == v0[i - 1] && v1[j] == v0[j - 1]);
                }
            }
            vstd::seq_lib::to_multiset_insert(r0, pos as int, x);
            vstd::seq_lib::to_multiset_build(orig.take(n as int), x);
            assert(rest@ =~= orig.skip(n + 1));
        }
        n = n + 1;
    }
    proof {
        assert(orig.take(n as int) =~= orig);
    }
    r
}

/// `x` is `g` with its pending vertices put in ascending id order.
pub open spec fn sorted_copy(g: ExpandGraph, x: ExpandGraph) -> bool {
    &&& x.wf()
    &&& is_permutation(g.pend(), x.pend())
    &&& keys_ascending(pending_keys(x.pend()))
    &&& x.dyn_graph == g.dyn_graph
    &&& x.target_vs == g.target_vs
    &&& x.dents() == g.dents()
    &&& x.dpats() == g.dpats()
    &&& x.tents() == g.tents()
    &&& x.tpats() == g.tpats()
}

/// Each of `xs` is the sorted copy of the expansion of `gs` at its position.
pub open spec fn sorted_copies(gs: Seq<ExpandGraph>, xs: Seq<ExpandGraph>) -> bool {
    &&& xs.len() == gs.len()
    &&& forall|i: int| 0 <= i < gs.len() ==> sorted_copy(#[trigger] gs[i], xs[i])
}

/// Puts the pending vertices of every expansion in ascending id order.
pub fn sort_expansions(gs: Vec<ExpandGraph>) -> (r: Vec<ExpandGraph>)
    requires
        all_xwf(gs@),
    ensures
        sorted_copies(gs@, r@),
        all_xwf(r@),
        all_sorted(r@),
{
    let ghost orig = gs@;
    let mut rest = gs;
    let mut r: Vec<ExpandGraph> = Vec::new();
    let mut n: usize = 0;
    let total = rest.len();
    while rest.len() > 0
        invariant
            n <= orig.len(),
            orig.len() == total,
            rest@ == orig.skip(n as int),
            all_xwf(orig),
            r@.len() == n,
            forall|i: int| 0 <= i < n ==> sorted_copy(#[trigger] orig[i], r@[i]),
        decreases rest@.len(),
    {
        let mut x = rest.remove(0);
        assert(orig.skip(n as int)[0] == orig[n as int]);
        x.sort_key_after_update_valid_target_vertices();
        r.push(x);
        proof {
            assert(rest@ =~= orig.skip(n + 1));
        }
        n = n + 1;
    }
    proof {
        assert forall|i: int| 0 <= i < r@.len() implies (#[trigger] r@[i]).wf() by {
            assert(sorted_copy(orig[i], r@[i]));
        }
        assert forall|i: int| 0 <= i < r@.len() implies keys_ascending(pending_keys((#[trigger] r@[i]).pend())) by {
            assert(sorted_copy(orig[i], r@[i]));
        }
    }
    r
}

/// `Foreach`: the C-bucket of the operand grows into an F-bucket under the
/// target: each expansion becomes the graph it grows into, with its
/// confirmed target vertices as frontier.
pub fn foreach_step(ctx: &mut MatchingCtx, instr: &Instruction)
    requires
        instr.single_op is Some,
        has_splitter(instr.single_op->0@),
        has_splitter(instr.target_var@),
        old(ctx).cblk().dom().contains(var_name_part(instr.single_op->0@)),
        all_xwf(old(ctx).cblk()[var_name_part(instr.single_op->0@)].all_expanded@),
        forall|i: usize| i < old(ctx).cblk()[var_name_part(instr.single_op->0@)].all_expanded@.len()
            ==> #[trigger] old(ctx).cblk()[var_name_part(instr.single_op->0@)].frontiers().dom().contains(i),
    ensures
        ({
            let c = old(ctx).cblk()[var_name_part(instr.single_op->0@)];
            let t = var_name_part(instr.target_var@);
            let f = final(ctx).fblk()[t];
            &&& final(ctx).cblk() == old(ctx).cblk().remove(var_name_part(instr.single_op->0@))
            &&& final(ctx).fblk() == old(ctx).fblk().insert(t, f)
            &&& f.graphs() == c.all_expanded@.map_values(|x: ExpandGraph| x.grown_view())
            &&& all_wf(f.all_matched@)
            &&& f.frontiers().dom() == index_set(c.all_expanded@.len() as int)
            &&& forall|i: int| 0 <= i < c.all_expanded@.len() ==> f.frontiers()[i as usize] == #[trigger] c.frontiers()[i as usize]
            &&& final(ctx).ablk() == old(ctx).ablk()
            &&& final(ctx).tblk() == old(ctx).tblk()
            &&& final(ctx).expanded() == old(ctx).expanded()
            &&& final(ctx).plan_data == old(ctx).plan_data
            &&& final(ctx).grouped_partial_matches == old(ctx).grouped_partial_matches
        }),
{
    let op = match &instr.single_op {
        Some(s) => s.as_str(),
        None => "",
    };
    let c = ctx.pop_from_c_block(op);
    let f = FBucket::from_c_bucket(&c);
    ctx.init_f_block(instr.target_var.as_str());
    ctx.update_f_block(instr.target_var.as_str(), f);
}

/// Pairs each loaded vertex with the pattern vertex `p`, sorted by vertex id.
fn sorted_pairs(vs: Vec<DataVertex>, p: &String) -> (r: Vec<(DataVertex, String)>)
    ensures
        keys_nondescending(pair_vids(r@)),
        r@.to_multiset() == vs@.map_values(|v: DataVertex| (v, *p)).to_multiset(),
{
    let ghost orig = vs@;
    let mut rest = vs;
    let mut pairs: Vec<(DataVertex, String)> = Vec::new();
    let mut n: usize = 0;
    let total = rest.len();
    while rest.len() > 0
        invariant
            n <= orig.len(),
            orig.len() == total,
            rest@ == orig.skip(n as int),
            pairs@ == orig.take(n as int).map_values(|v: DataVertex| (v, *p)),
        decreases rest@.len(),
    {
        let v = rest.remove(0);
        pairs.push((v, p.clone()));
        proof {
            assert(orig.skip(n as int)[0] == v);
            assert(pairs@ =~= orig.take(n + 1).map_values(|v: DataVertex| (v, *p)));
            assert(rest@ =~= orig.skip(n + 1));
        }
        n = n + 1;
    }
    assert(orig.take(n as int) =~= orig);
    sort_pairs_by_vid(pairs)
}

/// The confirmed C-bucket `c` of expansions `gs` against loaded vertices
/// `vs` of pattern vertex `p`: with the pending vertices of each expansion
/// sorted and the vertices paired with `p` and sorted by id, each expansion
/// of `c` confirms those of its pending vertices that were loaded, and files
/// them under its position.
pub open spec fn confirmed_bucket(gs: Seq<ExpandGraph>, vs: Seq<DataVertex>, p: String, c: CBucket) -> bool {
    &&& c.all_expanded@.len() == gs.len()
    &&& c.frontiers().dom() == index_set(gs.len() as int)
    &&& exists|xs: Seq<ExpandGraph>, ps: Seq<(DataVertex, String)>| {
        &&& sorted_copies(gs, xs)
        &&& keys_nondescending(pair_vids(ps))
        &&& ps.to_multiset() == vs.map_values(|v: DataVertex| (v, p)).to_multiset()
        &&& forall|i: int| 0 <= i < gs.len() ==> targets_confirmed(
            #[trigger] xs[i], ps, c.all_expanded@[i], c.frontiers()[i as usize])
    }
}

/// `Intersect` of an A-group, once the vertices of the instruction's pattern
/// vertex are loaded: takes the operand's expansions towards that pattern
/// vertex out of the A-block, confirms their targets among the loaded
/// vertices, and puts the C-bucket under the target.
pub fn intersect_a_step(ctx: &mut MatchingCtx, instr: &Instruction, loaded: Vec<DataVertex>)
    requires
        instr.single_op is Some,
        has_splitter(instr.single_op->0@),
        has_splitter(instr.target_var@),
        old(ctx).ablk().dom().contains(var_name_part(instr.single_op->0@)),
        old(ctx).ablk()[var_name_part(instr.single_op->0@)].groups().dom().contains(instr.vid@),
        all_xwf(old(ctx).ablk()[var_name_part(instr.single_op->0@)].groups()[instr.vid@]),
    ensures
        ({
            let k = var_name_part(instr.single_op->0@);
            let a0 = old(ctx).ablk()[k];
            let a = final(ctx).ablk()[k];
            let t = var_name_part(instr.target_var@);
            let c = final(ctx).cblk()[t];
            &&& final(ctx).ablk() == old(ctx).ablk().insert(k, a)
            &&& a.groups() == a0.groups().remove(instr.vid@)
            &&& a.curr_pat_vid == a0.curr_pat_vid
            &&& a.all_matched == a0.all_matched
            &&& a.matched_with_frontiers == a0.matched_with_frontiers
            &&& final(ctx).cblk() == old(ctx).cblk().insert(t, c)
            &&& confirmed_bucket(a0.groups()[instr.vid@], loaded@, instr.vid, c)
            &&& final(ctx).fblk() == old(ctx).fblk()
            &&& final(ctx).tblk() == old(ctx).tblk()
            &&& final(ctx).expanded() == old(ctx).expanded()
            &&& final(ctx).plan_data == old(ctx).plan_data
            &&& final(ctx).grouped_partial_matches == old(ctx).grouped_partial_matches
        }),
{
    let op = match &instr.single_op {
        Some(s) => s.as_str(),
        None => "",
    };
    let group = ctx.pop_group_by_pat_from_a_block(op, instr.vid.as_str());
    let ghost g = group@;
    let sorted = sort_expansions(group);
    let ghost xs = sorted@;
    let pairs = sorted_pairs(loaded, &instr.vid);
    let ghost ps = pairs@;
    let c = CBucket::build_from_a_group(sorted, pairs);
    proof {
        assert(forall|i: int| 0 <= i < g.len() ==> targets_confirmed(#[trigger] xs[i], ps, c.all_expanded@[i], c.frontiers()[i as usize]));
        assert(confirmed_bucket(g, loaded@, instr.vid, c));
    }
    ctx.init_c_block(instr.target_var.as_str());
    ctx.update_c_block(instr.target_var.as_str(), c);
}

/// `Intersect` of a T-bucket, once the vertices of the instruction's
/// pattern vertex are loaded: takes the operand's bucket out of the
/// T-block, confirms the targets of its expansions among the loaded
/// vertices, and puts the C-bucket under the target.
pub fn intersect_t_step(ctx: &mut MatchingCtx, instr: &Instruction, loaded: Vec<DataVertex>)
    requires
        instr.single_op is Some,
        has_splitter(instr.single_op->0@),
        has_splitter(instr.target_var@),
        old(ctx).tblk().dom().contains(var_name_part(instr.single_op->0@)),
        all_xwf(old(ctx).tblk()[var_name_part(instr.single_op->0@)].expanding_graphs@),
    ensures
        ({
            let k = var_name_part(instr.single_op->0@);
            let t = var_name_part(instr.target_var@);
            let c = final(ctx).cblk()[t];
            &&& final(ctx).tblk() == old(ctx).tblk().remove(k)
            &&& final(ctx).cblk() == old(ctx).cblk().insert(t, c)
            &&& confirmed_bucket(old(ctx).tblk()[k].expanding_graphs@, loaded@, instr.vid, c)
            &&& final(ctx).fblk() == old(ctx).fblk()
            &&& final(ctx).ablk() == old(ctx).ablk()
            &&& final(ctx).expanded() == old(ctx).expanded()
            &&& final(ctx).plan_data == old(ctx).plan_data
            &&& final(ctx).grouped_partial_matches == old(ctx).grouped_partial_matches
        }),
{
    let op = match &instr.single_op {
        Some(s) => s.as_str(),
        None => "",
    };
    let mut t_bucket = ctx.pop_from_t_block(op);
    let ghost g = t_bucket.expanding_graphs@;
    let mut graphs: Vec<ExpandGraph> = Vec::new();
    std::mem::swap(&mut graphs, &mut t_bucket.expanding_graphs);
    t_bucket.expanding_graphs = sort_expansions(graphs);
    let ghost xs = t_bucket.expanding_graphs@;
    let pairs = sorted_pairs(loaded, &instr.vid);
    let ghost ps = pairs@;
    let c = CBucket::build_from_t(&mut t_bucket, pairs);
    proof {
        assert(forall|i: int| 0 <= i < g.len() ==> targets_confirmed(#[trigger] xs[i], ps, c.all_expanded@[i], c.frontiers()[i as usize]));
        assert(confirmed_bucket(g, loaded@, instr.vid, c));
    }
    ctx.init_c_block(instr.target_var.as_str());
    ctx.update_c_block(instr.target_var.as_str(), c);
}

/// The A-bucket `a` is `a0` without its expansions towards pattern vertex `p`.
pub open spec fn group_taken(a0: ABucket, a: ABucket, p: Seq<char>) -> bool {
    &&& a.groups() == a0.groups().remove(p)
    &&& a.curr_pat_vid == a0.curr_pat_vid
    &&& a.all_matched == a0.all_matched
    &&& a.matched_with_frontiers == a0.matched_with_frontiers
}

/// The expansions of `tb` are those that meeting each of `left` with each of
/// `right` gives, once the pending vertices of all of them are sorted.
pub open spec fn met_bucket(left: Seq<ExpandGraph>, right: Seq<ExpandGraph>, tb: TBucket) -> bool {
    exists|xs: Seq<ExpandGraph>, ys: Seq<ExpandGraph>|
        sorted_copies(left, xs) && sorted_copies(right, ys) && is_pairwise_meet(xs, ys, tb.expanding_graphs@)
}

/// `Intersect` of two A-groups: takes the expansions towards the
/// instruction's pattern vertex out of both operands' A-buckets, meets each
/// of the first with each of the second, and puts the T-bucket of what the
/// meetings give, towards the target's name, under the target.
pub fn intersect_a_a_step(ctx: &mut MatchingCtx, instr: &Instruction)
    requires
        instr.multi_ops@.len() >= 2,
        has_splitter(instr.multi_ops@[0]@),
        has_splitter(instr.multi_ops@[1]@),
        has_splitter(instr.target_var@),
        var_name_part(instr.multi_ops@[0]@) != var_name_part(instr.multi_ops@[1]@),
        old(ctx).ablk().dom().contains(var_name_part(instr.multi_ops@[0]@)),
        old(ctx).ablk().dom().contains(var_name_part(instr.multi_ops@[1]@)),
        old(ctx).ablk()[var_name_part(instr.multi_ops@[0]@)].groups().dom().contains(instr.vid@),
        old(ctx).ablk()[var_name_part(instr.multi_ops@[1]@)].groups().dom().contains(instr.vid@),
        all_xwf(old(ctx).ablk()[var_name_part(instr.multi_ops@[0]@)].groups()[instr.vid@]),
        all_xwf(old(ctx).ablk()[var_name_part(instr.multi_ops@[1]@)].groups()[instr.vid@]),
    ensures
        ({
            let k0 = var_name_part(instr.multi_ops@[0]@);
            let k1 = var_name_part(instr.multi_ops@[1]@);
            let t = var_name_part(instr.target_var@);
            let tb = final(ctx).tblk()[t];
            &&& final(ctx).ablk() == old(ctx).ablk().insert(k0, final(ctx).ablk()[k0]).insert(k1, final(ctx).ablk()[k1])
            &&& group_taken(old(ctx).ablk()[k0], final(ctx).ablk()[k0], instr.vid@)
            &&& group_taken(old(ctx).ablk()[k1], final(ctx).ablk()[k1], instr.vid@)
            &&& final(ctx).tblk() == old(ctx).tblk().insert(t, tb)
            &&& tb.target_pat_vid@ == t
            &&& met_bucket(old(ctx).ablk()[k0].groups()[instr.vid@], old(ctx).ablk()[k1].groups()[instr.vid@], tb)
            &&& final(ctx).fblk() == old(ctx).fblk()
            &&& final(ctx).cblk() == old(ctx).cblk()
            &&& final(ctx).expanded() == old(ctx).expanded()
            &&& final(ctx).plan_data == old(ctx).plan_data
            &&& final(ctx).grouped_partial_matches == old(ctx).grouped_partial_matches
        }),
{
    let ghost k0 = var_name_part(instr.multi_ops@[0]@);
    let ghost k1 = var_name_part(instr.multi_ops@[1]@);
    let ghost a = old(ctx).ablk();
    let left = ctx.pop_group_by_pat_from_a_block(instr.multi_ops[0].as_str(), instr.vid.as_str());
    let right = ctx.pop_group_by_pat_from_a_block(instr.multi_ops[1].as_str(), instr.vid.as_str());
    let ghost l = left@;
    let ghost r = right@;
    let xs = sort_expansions(left);
    let ys = sort_expansions(right);
    let ghost xv = xs@;
    let ghost yv = ys@;
    let tb = TBucket::build_from_a_a(xs, ys, resolve_var_name(instr.target_var.as_str()));
    assert(met_bucket(l, r, tb)) by {
        assert(sorted_copies(l, xv) && sorted_copies(r, yv) && is_pairwise_meet(xv, yv, tb.expanding_graphs@));
    }
    ctx.init_t_block(instr.target_var.as_str());
    ctx.update_t_block(instr.target_var.as_str(), tb);
    assert(ctx.ablk() =~= a.insert(k0, ctx.ablk()[k0]).insert(k1, ctx.ablk()[k1]));
}

/// `Intersect` of a T-bucket with an A-group: takes the first operand's
/// bucket out of the T-block and the expansions towards the instruction's
/// pattern vertex out of the second operand's A-bucket, meets each of the
/// bucket's with each of the group's, and puts the T-bucket of what the
/// meetings give, towards the first bucket's pattern vertex, under the target.
pub fn intersect_t_a_step(ctx: &mut MatchingCtx, instr: &Instruction)
    requires
        instr.multi_ops@.len() >= 2,
        has_splitter(instr.multi_ops@[0]@),
        has_splitter(instr.multi_ops@[1]@),
        has_splitter(instr.target_var@),
        old(ctx).tblk().dom().contains(var_name_part(instr.multi_ops@[0]@)),
        old(ctx).ablk().dom().contains(var_name_part(instr.multi_ops@[1]@)),
        old(ctx).ablk()[var_name_part(instr.multi_ops@[1]@)].groups().dom().contains(instr.vid@),
        all_xwf(old(ctx).tblk()[var_name_part(instr.multi_ops@[0]@)].expanding_graphs@),
        all_xwf(old(ctx).ablk()[var_name_part(instr.multi_ops@[1]@)].groups()[instr.vid@]),
    ensures
        ({
            let k0 = var_name_part(instr.multi_ops@[0]@);
            let k1 = var_name_part(instr.multi_ops@[1]@);
            let t = var_name_part(instr.target_var@);
            let tb0 = old(ctx).tblk()[k0];
            let tb = final(ctx).tblk()[t];
            &&& final(ctx).ablk() == old(ctx).ablk().insert(k1, final(ctx).ablk()[k1])
            &&& group_taken(old(ctx).ablk()[k1], final(ctx).ablk()[k1], instr.vid@)
            &&& final(ctx).tblk() == old(ctx).tblk().remove(k0).insert(t, tb)
            &&& tb.target_pat_vid == tb0.target_pat_vid
            &&& met_bucket(tb0.expanding_graphs@, old(ctx).ablk()[k1].groups()[instr.vid@], tb)
            &&& final(ctx).fblk() == old(ctx).fblk()
            &&& final(ctx).cblk() == old(ctx).cblk()
            &&& final(ctx).expanded() == old(ctx).expanded()
            &&& final(ctx).plan_data == old(ctx).plan_data
            &&& final(ctx).grouped_partial_matches == old(ctx).grouped_partial_matches
        }),
{
    let mut t_bucket = ctx.pop_from_t_block(instr.multi_ops[0].as_str());
    let ghost l = t_bucket.expanding_graphs@;
    let mut graphs: Vec<ExpandGraph> = Vec::new();
    std::mem::swap(&mut graphs, &mut t_bucket.expanding_graphs);
    t_bucket.expanding_graphs = sort_expansions(graphs);
    let ghost xv = t_bucket.expanding_graphs@;
    let right = ctx.pop_group_by_pat_from_a_block(instr.multi_ops[1].as_str(), instr.vid.as_str());
    let ghost r = right@;
    let ys = sort_expansions(right);
    let ghost yv = ys@;
    let tb = TBucket::build_from_t_a(t_bucket, ys);
    assert(met_bucket(l, r, tb)) by {
        assert(sorted_copies(l, xv) && sorted_copies(r, yv) && is_pairwise_meet(xv, yv, tb.expanding_graphs@));
    }
    ctx.init_t_block(instr.target_var.as_str());
    ctx.update_t_block(instr.target_var.as_str(), tb);
}

/// The steps that an `Intersect` instruction can take.
#[derive(PartialEq, Eq, Structural)]
pub enum IntersectStep {
    /// Two A-groups meet into a T-bucket (`intersect_a_a_step`).
    AGroups,
    /// A T-bucket meets an A-group into a T-bucket (`intersect_t_a_step`).
    TBucketAGroup,
    /// An A-group's targets are confirmed into a C-bucket (`intersect_a_step`).
    AGroup,
    /// A T-bucket's targets are confirmed into a C-bucket (`intersect_t_step`).
    TBucket,
}

/// The kind of block a text names as a plan variable, if any.
pub open spec fn prefix_of(s: Seq<char>) -> Option<VarPrefix> {
    if has_splitter(s) { spec_var_prefix(var_prefix_part(s)) } else { None }
}

/// The step of an `Intersect` instruction: with two or more operands, by
/// the first one's block (A: two A-groups; T: a T-bucket with an A-group);
/// with its single operand, by that operand's block.
pub open spec fn spec_intersect_step(instr: Instruction) -> Option<IntersectStep> {
    if instr.multi_ops@.len() >= 2 {
        match prefix_of(instr.multi_ops@[0]@) {
            Some(VarPrefix::ABlock) => Some(IntersectStep::AGroups),
            Some(VarPrefix::TBlock) => Some(IntersectStep::TBucketAGroup),
            _ => None,
        }
    } else {
        match instr.single_op {
            Some(op) => match prefix_of(op@) {
                Some(VarPrefix::ABlock) => Some(IntersectStep::AGroup),
                Some(VarPrefix::TBlock) => Some(IntersectStep::TBucket),
                _ => None,
            },
            None => None,
        }
    }
}

/// Picks the step of an `Intersect` instruction from its operands.
pub fn intersect_step_of(instr: &Instruction) -> (r: Option<IntersectStep>)
    ensures
        r == spec_intersect_step(*instr),
{
    if instr.multi_ops.len() >= 2 {
        match var_prefix_of(instr.multi_ops[0].as_str()) {
            Some(VarPrefix::ABlock) => Some(IntersectStep::AGroups),
            Some(VarPrefix::TBlock) => Some(IntersectStep::TBucketAGroup),
            _ => None,
        }
    } else {
        match &instr.single_op {
            Some(op) => match var_prefix_of(op.as_str()) {
                Some(VarPrefix::ABlock) => Some(IntersectStep::AGroup),
                Some(VarPrefix::TBlock) => Some(IntersectStep::TBucket),
                _ => None,
            },
            None => None,
        }
    }
}

} // verus!
