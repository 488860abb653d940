//! The matching context: the plan, the data vertices already expanded, the
//! four blocks of buckets that plan variables name, and the partial matches
//! that reports collect.

use vstd::prelude::*;
use crate::buckets::{ABucket, CBucket, FBucket, TBucket};
use crate::dyn_graph::DynGraph;
use crate::expand_graph::ExpandGraph;
use crate::maps::{
    a_block_items, c_block_items, f_block_items, lists_keys, strs_view,
    t_block_items, vid_set_items, ABlockMap, CBlockMap, FBlockMap, PatternEdgeMap,
    PatternVertexMap, TBlockMap, VidSet,
};
use crate::schemas::{PatternEdge, PatternVertex, PlanData};
use crate::vars::{has_splitter, resolve_var_name, var_name_part};

verus! {

/// The state that the instructions of a plan share.
pub struct MatchingCtx {
    pub plan_data: PlanData,
    pub expanded_data_vids: VidSet,
    pub f_block: FBlockMap,
    pub a_block: ABlockMap,
    pub c_block: CBlockMap,
    pub t_block: TBlockMap,
    pub grouped_partial_matches: Vec<Vec<DynGraph>>,
}

/// The values of `m` at those of the keys `ks` that it holds, in order.
pub open spec fn present_values<V>(m: Map<Seq<char>, V>, ks: Seq<Seq<char>>) -> Seq<V>
    decreases ks.len(),
{
    if ks.len() == 0 {
        Seq::empty()
    } else {
        let p = present_values(m, ks.drop_last());
        if m.dom().contains(ks.last()) {
            p.push(m[ks.last()])
        } else {
            p
        }
    }
}

impl MatchingCtx {
    /// The F-block, by variable name.
    pub open spec fn fblk(&self) -> Map<Seq<char>, FBucket> {
        f_block_items(self.f_block)
    }

    /// The A-block, by variable name.
    pub open spec fn ablk(&self) -> Map<Seq<char>, ABucket> {
        a_block_items(self.a_block)
    }

    /// The C-block, by variable name.
    pub open spec fn cblk(&self) -> Map<Seq<char>, CBucket> {
        c_block_items(self.c_block)
    }

    /// The T-block, by variable name.
    pub open spec fn tblk(&self) -> Map<Seq<char>, TBucket> {
        t_block_items(self.t_block)
    }

    /// The data vertices already expanded.
    pub open spec fn expanded(&self) -> Set<Seq<char>> {
        vid_set_items(self.expanded_data_vids)
    }

    /// A context for the plan, with every block empty.
    pub fn new(plan_data: &PlanData) -> (r: Self)
        ensures
            r.plan_data.pvs() == plan_data.pvs(),
            r.plan_data.pes() == plan_data.pes(),
            r.expanded() == Set::<Seq<char>>::empty(),
            r.fblk() == Map::<Seq<char>, FBucket>::empty(),
            r.ablk() == Map::<Seq<char>, ABucket>::empty(),
            r.cblk() == Map::<Seq<char>, CBucket>::empty(),
            r.tblk() == Map::<Seq<char>, TBucket>::empty(),
            r.grouped_partial_matches@ == Seq::<Vec<DynGraph>>::empty(),
    {
        let r = MatchingCtx {
            plan_data: plan_data.duplicate(),
            expanded_data_vids: VidSet::new(),
            f_block: FBlockMap::new(),
            a_block: ABlockMap::new(),
            c_block: CBlockMap::new(),
            t_block: TBlockMap::new(),
            grouped_partial_matches: Vec::new(),
        };
        assert(r.fblk() =~= Map::<Seq<char>, FBucket>::empty());
        assert(r.ablk() =~= Map::<Seq<char>, ABucket>::empty());
        assert(r.cblk() =~= Map::<Seq<char>, CBucket>::empty());
        assert(r.tblk() =~= Map::<Seq<char>, TBucket>::empty());
        r
    }

    /// Adds the data vertices to those already expanded.
    pub fn update_extended_data_vids(&mut self, vid: VidSet)
        ensures
            final(self).expanded() == old(self).expanded() + vid_set_items(vid),
            final(self).fblk() == old(self).fblk(),
            final(self).ablk() == old(self).ablk(),
            final(self).cblk() == old(self).cblk(),
            final(self).tblk() == old(self).tblk(),
            final(self).plan_data == old(self).plan_data,
            final(self).grouped_partial_matches == old(self).grouped_partial_matches,
    {
        let ghost e0 = self.expanded();
        let ids = vid.to_vec();
        let mut i: usize = 0;
        while i < ids.len()
            invariant
                i <= ids@.len(),
                lists_keys(ids@, vid_set_items(vid)),
                self.expanded() == e0 + Set::new(|k: Seq<char>| exists|j: int| 0 <= j < i && ids@[j]@ == k),
                self.fblk() == old(self).fblk(),
                self.ablk() == old(self).ablk(),
                self.cblk() == old(self).cblk(),
                self.tblk() == old(self).tblk(),
                self.plan_data == old(self).plan_data,
                self.grouped_partial_matches == old(self).grouped_partial_matches,
            decreases ids@.len() - i,
        {
            let ghost s0 = self.expanded();
            self.expanded_data_vids.insert(ids[i].clone());
            proof {
                assert(self.expanded() =~= e0 + Set::new(|k: Seq<char>| exists|j: int| 0 <= j < i + 1 && ids@[j]@ == k)) by {
                    assert forall|k: Seq<char>| self.expanded().contains(k) <==>
                        (e0 + Set::new(|k: Seq<char>| exists|j: int| 0 <= j < i + 1 && ids@[j]@ == k)).contains(k) by {
                        if k == ids@[i as int]@ {
                            assert(exists|j: int| 0 <= j < i + 1 && ids@[j]@ == k);
                        } else if exists|j: int| 0 <= j < i + 1 && ids@[j]@ == k {
                            let j = choose|j: int| 0 <= j < i + 1 && ids@[j]@ == k;
                            assert(j < i);
                        }
                    }
                }
            }
            i = i + 1;
        }
        proof {
            assert(Set::new(|k: Seq<char>| exists|j: int| 0 <= j < i && ids@[j]@ == k) =~= vid_set_items(vid));
        }
    }

    /// The pattern vertices of the plan.
    pub fn pattern_vs(&self) -> (r: &PatternVertexMap)
        ensures
            r == &self.plan_data.pattern_vs,
    {
        &self.plan_data.pattern_vs
    }

    /// The pattern edges of the plan.
    pub fn pattern_es(&self) -> (r: &PatternEdgeMap)
        ensures
            r == &self.plan_data.pattern_es,
    {
        &self.plan_data.pattern_es
    }

    /// The pattern vertex with the given id.
    pub fn get_pattern_v(&self, vid: &str) -> (r: &PatternVertex)
        requires
            self.plan_data.pvs().dom().contains(vid@),
        ensures
            *r == self.plan_data.pvs()[vid@],
    {
        self.plan_data.pattern_vs.get(vid).unwrap()
    }

    /// The pattern edge with the given id.
    pub fn get_pattern_e(&self, eid: &str) -> (r: &PatternEdge)
        requires
            self.plan_data.pes().dom().contains(eid@),
        ensures
            *r == self.plan_data.pes()[eid@],
    {
        self.plan_data.pattern_es.get(eid).unwrap()
    }

    /// Copies of the pattern vertices with the given ids, in order, skipping
    /// ids that the plan lacks.
    pub fn fetch_pattern_v_batch(&self, vids: &Vec<String>) -> (r: Vec<PatternVertex>)
        ensures
            r@ == present_values(self.plan_data.pvs(), strs_view(vids@)),
    {
        let mut r: Vec<PatternVertex> = Vec::new();
        let mut i: usize = 0;
        while i < vids.len()
            invariant
                i <= vids@.len(),
                r@ == present_values(self.plan_data.pvs(), strs_view(vids@).take(i as int)),
            decreases vids@.len() - i,
        {
            assert(strs_view(vids@).take(i + 1).drop_last() =~= strs_view(vids@).take(i as int));
            match self.plan_data.pattern_vs.get(vids[i].as_str()) {
                Some(v) => {
                    r.push(v.duplicate());
                },
                None => {},
            }
            i = i + 1;
        }
        assert(strs_view(vids@).take(vids@.len() as int) =~= strs_view(vids@));
        r
    }

    /// Copies of the pattern edges with the given ids, in order, skipping ids
    /// that the plan lacks.
    pub fn fetch_pattern_e_batch(&self, eids: &Vec<String>) -> (r: Vec<PatternEdge>)
        ensures
            r@ == present_values(self.plan_data.pes(), strs_view(eids@)),
    {
        let mut r: Vec<PatternEdge> = Vec::new();
        let mut i: usize = 0;
        while i < eids.len()
            invariant
                i <= eids@.len(),
                r@ == present_values(self.plan_data.pes(), strs_view(eids@).take(i as int)),
            decreases eids@.len() - i,
        {
            assert(strs_view(eids@).take(i + 1).drop_last() =~= strs_view(eids@).take(i as int));
            match self.plan_data.pattern_es.get(eids[i].as_str()) {
                Some(e) => {
                    r.push(e.duplicate());
                },
                None => {},
            }
            i = i + 1;
        }
        assert(strs_view(eids@).take(eids@.len() as int) =~= strs_view(eids@));
        r
    }
    /// Everything but the F-block is as in `o`.
    pub open spec fn frame_f(&self, o: &Self) -> bool {
        &&& self.plan_data == o.plan_data
        &&& self.expanded() == o.expanded()
        &&& self.ablk() == o.ablk()
        &&& self.cblk() == o.cblk()
        &&& self.tblk() == o.tblk()
        &&& self.grouped_partial_matches == o.grouped_partial_matches
    }

    /// Everything but the A-block is as in `o`.
    pub open spec fn frame_a(&self, o: &Self) -> bool {
        &&& self.plan_data == o.plan_data
        &&& self.expanded() == o.expanded()
        &&& self.fblk() == o.fblk()
        &&& self.cblk() == o.cblk()
        &&& self.tblk() == o.tblk()
        &&& self.grouped_partial_matches == o.grouped_partial_matches
    }

    /// Everything but the C-block is as in `o`.
    pub open spec fn frame_c(&self, o: &Self) -> bool {
        &&& self.plan_data == o.plan_data
        &&& self.expanded() == o.expanded()
        &&& self.fblk() == o.fblk()
        &&& self.ablk() == o.ablk()
        &&& self.tblk() == o.tblk()
        &&& self.grouped_partial_matches == o.grouped_partial_matches
    }

    /// Everything but the T-block is as in `o`.
    pub open spec fn frame_t(&self, o: &Self) -> bool {
        &&& self.plan_data == o.plan_data
        &&& self.expanded() == o.expanded()
        &&& self.fblk() == o.fblk()
        &&& self.ablk() == o.ablk()
        &&& self.cblk() == o.cblk()
        &&& self.grouped_partial_matches == o.grouped_partial_matches
    }

    /// `Foreach`: puts an empty bucket under the variable's name.
    pub fn init_f_block(&mut self, target_var: &str)
        requires
            has_splitter(target_var@),
        ensures
            final(self).frame_f(old(self)),
            final(self).fblk() == old(self).fblk().insert(var_name_part(target_var@), final(self).fblk()[var_name_part(target_var@)]),
            final(self).fblk()[var_name_part(target_var@)].all_matched@ == Seq::<DynGraph>::empty(),
            final(self).fblk()[var_name_part(target_var@)].frontiers() == Map::<usize, Seq<Seq<char>>>::empty(),
    {
        let key = resolve_var_name(target_var);
        self.f_block.insert(key.to_string(), FBucket::new());
        assert(self.fblk() =~= old(self).fblk().insert(var_name_part(target_var@), self.fblk()[var_name_part(target_var@)]));
    }

    /// `Init`: adds a matched graph to the bucket of the variable, with
    /// `frontier_vid` filed under the graph's position.
    pub fn append_to_f_block(&mut self, target_var: &str, matched_graph: DynGraph, frontier_vid: &str)
        requires
            has_splitter(target_var@),
            old(self).fblk().dom().contains(var_name_part(target_var@)),
        ensures
            ({
                let k = var_name_part(target_var@);
                let b0 = old(self).fblk()[k];
                let b = final(self).fblk()[k];
                let n = b0.all_matched@.len() as usize;
                &&& final(self).frame_f(old(self))
                &&& final(self).fblk() == old(self).fblk().insert(k, b)
                &&& b.all_matched@ == b0.all_matched@.push(matched_graph)
                &&& b.frontiers() == b0.frontiers().insert(n,
                    if b0.frontiers().dom().contains(n) { b0.frontiers()[n].push(frontier_vid@) } else { seq![frontier_vid@] })
            }),
    {
        let key = resolve_var_name(target_var);
        let mut bucket = self.f_block.remove(key).unwrap();
        let next_idx = bucket.all_matched.len();
        bucket.all_matched.push(matched_graph);
        let ids = match bucket.matched_with_frontiers.get(next_idx) {
            Some(v) => {
                let mut c = crate::schemas::duplicate_strings(v);
                c.push(frontier_vid.to_string());
                assert(strs_view(c@) =~= bucket.frontiers()[next_idx].push(frontier_vid@));
                c
            },
            None => {
                let mut c: Vec<String> = Vec::new();
                c.push(frontier_vid.to_string());
                assert(strs_view(c@) =~= seq![frontier_vid@]);
                c
            },
        };
        bucket.matched_with_frontiers.insert(next_idx, ids);
        self.f_block.insert(key.to_string(), bucket);
        assert(self.fblk() =~= old(self).fblk().insert(var_name_part(target_var@), self.fblk()[var_name_part(target_var@)]));
    }

    /// `Foreach`: puts the bucket under the variable's name.
    pub fn update_f_block(&mut self, target_var: &str, f_bucket: FBucket)
        requires
            has_splitter(target_var@),
        ensures
            final(self).frame_f(old(self)),
            final(self).fblk() == old(self).fblk().insert(var_name_part(target_var@), f_bucket),
    {
        let key = resolve_var_name(target_var);
        self.f_block.insert(key.to_string(), f_bucket);
    }

    /// `GetAdj`: takes the bucket of the variable out of the F-block.
    pub fn pop_from_f_block(&mut self, single_op: &str) -> (r: FBucket)
        requires
            has_splitter(single_op@),
            old(self).fblk().dom().contains(var_name_part(single_op@)),
        ensures
            final(self).frame_f(old(self)),
            r == old(self).fblk()[var_name_part(single_op@)],
            final(self).fblk() == old(self).fblk().remove(var_name_part(single_op@)),
    {
        let key = resolve_var_name(single_op);
        self.f_block.remove(key).unwrap()
    }

    /// `GetAdj`: puts an empty bucket, expanding from the pattern vertex the
    /// variable names, under the variable's name.
    pub fn init_a_block(&mut self, target_var: &str)
        requires
            has_splitter(target_var@),
        ensures
            final(self).frame_a(old(self)),
            final(self).ablk() == old(self).ablk().insert(var_name_part(target_var@), final(self).ablk()[var_name_part(target_var@)]),
            final(self).ablk()[var_name_part(target_var@)].curr_pat_vid@ == var_name_part(target_var@),
            final(self).ablk()[var_name_part(target_var@)].all_matched@ == Seq::<DynGraph>::empty(),
            final(self).ablk()[var_name_part(target_var@)].frontiers() == Map::<usize, Seq<Seq<char>>>::empty(),
            final(self).ablk()[var_name_part(target_var@)].groups() == Map::<Seq<char>, Seq<ExpandGraph>>::empty(),
    {
        let key = resolve_var_name(target_var);
        self.a_block.insert(key.to_string(), ABucket::new(key.to_string()));
        assert(self.ablk() =~= old(self).ablk().insert(var_name_part(target_var@), self.ablk()[var_name_part(target_var@)]));
    }

    /// `GetAdj`: puts the bucket under the variable's name.
    pub fn update_a_block(&mut self, target_var: &str, a_bucket: ABucket)
        requires
            has_splitter(target_var@),
        ensures
            final(self).frame_a(old(self)),
            final(self).ablk() == old(self).ablk().insert(var_name_part(target_var@), a_bucket),
    {
        let key = resolve_var_name(target_var);
        self.a_block.insert(key.to_string(), a_bucket);
    }

    /// `Intersect`: takes the expansions towards pattern vertex `curr_pat_str`
    /// out of the bucket of the variable.
    pub fn pop_group_by_pat_from_a_block(&mut self, single_op: &str, curr_pat_str: &str) -> (r: Vec<ExpandGraph>)
        requires
            has_splitter(single_op@),
            old(self).ablk().dom().contains(var_name_part(single_op@)),
            old(self).ablk()[var_name_part(single_op@)].groups().dom().contains(curr_pat_str@),
        ensures
            ({
                let k = var_name_part(single_op@);
                let b0 = old(self).ablk()[k];
                let b = final(self).ablk()[k];
                &&& final(self).frame_a(old(self))
                &&& r@ == b0.groups()[curr_pat_str@]
                &&& final(self).ablk() == old(self).ablk().insert(k, b)
                &&& b.groups() == b0.groups().remove(curr_pat_str@)
                &&& b.curr_pat_vid == b0.curr_pat_vid
                &&& b.all_matched == b0.all_matched
                &&& b.matched_with_frontiers == b0.matched_with_frontiers
            }),
    {
        let key = resolve_var_name(single_op);
        let mut bucket = self.a_block.remove(key).unwrap();
        let group = bucket.next_pat_grouped_expanding.remove(curr_pat_str).unwrap();
        self.a_block.insert(key.to_string(), bucket);
        assert(self.ablk() =~= old(self).ablk().insert(var_name_part(single_op@), self.ablk()[var_name_part(single_op@)]));
        group
    }

    /// `Intersect`: puts an empty bucket under the variable's name.
    pub fn init_c_block(&mut self, target_var: &str)
        requires
            has_splitter(target_var@),
        ensures
            final(self).frame_c(old(self)),
            final(self).cblk() == old(self).cblk().insert(var_name_part(target_var@), final(self).cblk()[var_name_part(target_var@)]),
            final(self).cblk()[var_name_part(target_var@)].all_expanded@ == Seq::<ExpandGraph>::empty(),
            final(self).cblk()[var_name_part(target_var@)].frontiers() == Map::<usize, Seq<Seq<char>>>::empty(),
    {
        let key = resolve_var_name(target_var);
        self.c_block.insert(key.to_string(), CBucket::new());
        assert(self.cblk() =~= old(self).cblk().insert(var_name_part(target_var@), self.cblk()[var_name_part(target_var@)]));
    }

    /// `Intersect`: puts the bucket under the variable's name.
    pub fn update_c_block(&mut self, target_var: &str, c_bucket: CBucket)
        requires
            has_splitter(target_var@),
        ensures
            final(self).frame_c(old(self)),
            final(self).cblk() == old(self).cblk().insert(var_name_part(target_var@), c_bucket),
    {
        let key = resolve_var_name(target_var);
        self.c_block.insert(key.to_string(), c_bucket);
    }

    /// `Foreach`: takes the bucket of the variable out of the C-block.
    pub fn pop_from_c_block(&mut self, single_op: &str) -> (r: CBucket)
        requires
            has_splitter(single_op@),
            old(self).cblk().dom().contains(var_name_part(single_op@)),
        ensures
            final(self).frame_c(old(self)),
            r == old(self).cblk()[var_name_part(single_op@)],
            final(self).cblk() == old(self).cblk().remove(var_name_part(single_op@)),
    {
        let key = resolve_var_name(single_op);
        self.c_block.remove(key).unwrap()
    }

    /// `Intersect`: puts an empty bucket, towards the pattern vertex the
    /// variable names, under the variable's name.
    pub fn init_t_block(&mut self, target_var: &str)
        requires
            has_splitter(target_var@),
        ensures
            final(self).frame_t(old(self)),
            final(self).tblk() == old(self).tblk().insert(var_name_part(target_var@), final(self).tblk()[var_name_part(target_var@)]),
            final(self).tblk()[var_name_part(target_var@)].target_pat_vid@ == var_name_part(target_var@),
            final(self).tblk()[var_name_part(target_var@)].expanding_graphs@ == Seq::<ExpandGraph>::empty(),
    {
        let key = resolve_var_name(target_var);
        self.t_block.insert(key.to_string(), TBucket::new(key.to_string()));
        assert(self.tblk() =~= old(self).tblk().insert(var_name_part(target_var@), self.tblk()[var_name_part(target_var@)]));
    }

    /// `Intersect`: puts the bucket under the variable's name.
    pub fn update_t_block(&mut self, target_var: &str, t_bucket: TBucket)
        requires
            has_splitter(target_var@),
        ensures
            final(self).frame_t(old(self)),
            final(self).tblk() == old(self).tblk().insert(var_name_part(target_var@), t_bucket),
    {
        let key = resolve_var_name(target_var);
        self.t_block.insert(key.to_string(), t_bucket);
    }

    /// `Intersect(Tx)`: takes the bucket of the variable out of the T-block.
    pub fn pop_from_t_block(&mut self, single_op: &str) -> (r: TBucket)
        requires
            has_splitter(single_op@),
            old(self).tblk().dom().contains(var_name_part(single_op@)),
        ensures
            final(self).frame_t(old(self)),
            r == old(self).tblk()[var_name_part(single_op@)],
            final(self).tblk() == old(self).tblk().remove(var_name_part(single_op@)),
    {
        let key = resolve_var_name(single_op);
        self.t_block.remove(key).unwrap()
    }
}

/// A block gives back what was put under a variable: after `update_*` puts
/// bucket `b` under the variable's name, `pop_*` of a variable with that
/// name takes out `b` and leaves the block as it was without the name.
pub proof fn law_pop_after_update<B>(blk: Map<Seq<char>, B>, target_var: Seq<char>, single_op: Seq<char>, b: B)
    requires
        var_name_part(target_var) == var_name_part(single_op),
    ensures
        blk.insert(var_name_part(target_var), b).dom().contains(var_name_part(single_op)),
        blk.insert(var_name_part(target_var), b)[var_name_part(single_op)] == b,
        blk.insert(var_name_part(target_var), b).remove(var_name_part(single_op)) == blk.remove(var_name_part(single_op)),
{
    assert(blk.insert(var_name_part(target_var), b).remove(var_name_part(single_op)) =~= blk.remove(var_name_part(single_op)));
}

} // verus!
