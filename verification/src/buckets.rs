//! The buckets that the blocks of the matching context hold: matched graphs
//! with their frontier vertices (F), graphs being expanded (A), expansions
//! whose target vertices were confirmed (C), and expansions kept for a
//! further intersection (T).

use vstd::prelude::*;
use crate::dyn_graph::{DynGraph, GraphView};
use crate::expand_graph::{
    is_walk_meet, targets_confirmed, union_then_intersect_on_connective_v,
    ExpandGraph,
};
use crate::maps::{expanding_groups_items, frontier_items, keys_ascending, pending_keys, ExpandingGroups, FrontierMap};
use crate::schemas::DataVertex;

verus! {

/// Matched graphs, each with the frontier vertices to expand it from.
pub struct FBucket {
    pub all_matched: Vec<DynGraph>,
    pub matched_with_frontiers: FrontierMap,
}

/// Matched graphs being expanded from pattern vertex `curr_pat_vid`, and the
/// expansions found so far, grouped by the pattern vertex they lead to.
pub struct ABucket {
    pub curr_pat_vid: String,
    pub all_matched: Vec<DynGraph>,
    pub matched_with_frontiers: FrontierMap,
    pub next_pat_grouped_expanding: ExpandingGroups,
}

/// Expansions whose target vertices were confirmed, each with those vertices.
pub struct CBucket {
    pub all_expanded: Vec<ExpandGraph>,
    pub expanded_with_frontiers: FrontierMap,
}

/// Expansions towards pattern vertex `target_pat_vid`, kept for intersection.
pub struct TBucket {
    pub target_pat_vid: String,
    pub expanding_graphs: Vec<ExpandGraph>,
}

/// The views of a list of graphs.
pub open spec fn graphs_view(gs: Seq<DynGraph>) -> Seq<GraphView> {
    gs.map_values(|g: DynGraph| g.gview())
}

/// Every graph of the list is well formed.
pub open spec fn all_wf(gs: Seq<DynGraph>) -> bool {
    forall|i: int| 0 <= i < gs.len() ==> (#[trigger] gs[i]).wf()
}

/// Every expansion of the list is well formed.
pub open spec fn all_xwf(gs: Seq<ExpandGraph>) -> bool {
    forall|i: int| 0 <= i < gs.len() ==> (#[trigger] gs[i]).wf()
}

/// Copies of a list of graphs.
pub fn duplicate_graphs(gs: &Vec<DynGraph>) -> (r: Vec<DynGraph>)
    ensures
        graphs_view(r@) == graphs_view(gs@),
        all_wf(gs@) ==> all_wf(r@),
{
    let mut r: Vec<DynGraph> = Vec::new();
    let mut i: usize = 0;
    while i < gs.len()
        invariant
            i <= gs@.len(),
            r@.len() == i,
            forall|j: int| 0 <= j < i ==> (#[trigger] r@[j]).gview() == gs@[j].gview(),
        decreases gs@.len() - i,
    {
        r.push(gs[i].duplicate());
        i = i + 1;
    }
    assert(graphs_view(r@) =~= graphs_view(gs@));
    r
}

impl FBucket {
    /// The views of the matched graphs.
    pub open spec fn graphs(&self) -> Seq<GraphView> {
        graphs_view(self.all_matched@)
    }

    /// The frontier vertices, by graph position.
    pub open spec fn frontiers(&self) -> Map<usize, Seq<Seq<char>>> {
        frontier_items(self.matched_with_frontiers)
    }

    /// An empty bucket.
    pub fn new() -> (r: Self)
        ensures
            r.all_matched@ == Seq::<DynGraph>::empty(),
            r.frontiers() == Map::<usize, Seq<Seq<char>>>::empty(),
    {
        let r = FBucket { all_matched: Vec::new(), matched_with_frontiers: FrontierMap::new() };
        assert(r.frontiers() =~= Map::<usize, Seq<Seq<char>>>::empty());
        r
    }
}

impl FBucket {
    /// `Foreach`: the graphs that the expansions of a C-bucket grow into,
    /// each with the confirmed target vertices as its frontier.
    pub fn from_c_bucket(c_bucket: &CBucket) -> (r: Self)
        requires
            all_xwf(c_bucket.all_expanded@),
            forall|i: usize| i < c_bucket.all_expanded@.len() ==> #[trigger] c_bucket.frontiers().dom().contains(i),
        ensures
            r.graphs() == c_bucket.all_expanded@.map_values(|x: ExpandGraph| x.grown_view()),
            all_wf(r.all_matched@),
            r.frontiers().dom() == index_set(c_bucket.all_expanded@.len() as int),
            forall|i: int| 0 <= i < c_bucket.all_expanded@.len() ==> r.frontiers()[i as usize] == #[trigger] c_bucket.frontiers()[i as usize],
    {
        let mut r = FBucket::new();
        let n = c_bucket.all_expanded.len();
        let mut idx: usize = 0;
        while idx < n
            invariant
                idx <= n,
                n == c_bucket.all_expanded@.len(),
                all_xwf(c_bucket.all_expanded@),
                forall|i: usize| i < n ==> #[trigger] c_bucket.frontiers().dom().contains(i),
                r.all_matched@.len() == idx,
                all_wf(r.all_matched@),
                forall|i: int| 0 <= i < idx ==> (#[trigger] r.all_matched@[i]).gview() == c_bucket.all_expanded@[i].grown_view(),
                r.frontiers().dom() == index_set(idx as int),
                forall|i: int| 0 <= i < idx ==> r.frontiers()[i as usize] == #[trigger] c_bucket.frontiers()[i as usize],
            decreases n - idx,
        {
            let x = &c_bucket.all_expanded[idx];
            assert(x.wf());
            let g = x.duplicate().into_dyn_graph();
            let ghost fr0 = r.frontiers();
            r.all_matched.push(g);
            assert(c_bucket.frontiers().dom().contains(idx));
            let fr = c_bucket.expanded_with_frontiers.get(idx).unwrap();
            let ids = crate::schemas::duplicate_strings(fr);
            r.matched_with_frontiers.insert(idx, ids);
            proof {
                assert(r.frontiers().dom() =~= index_set(idx + 1));
                assert forall|i: int| 0 <= i < idx + 1 implies r.frontiers()[i as usize] == #[trigger] c_bucket.frontiers()[i as usize] by {
                    if i < idx {
                        assert(r.frontiers()[i as usize] == fr0[i as usize]);
                    }
                }
            }
            idx = idx + 1;
        }
        assert(r.graphs() =~= c_bucket.all_expanded@.map_values(|x: ExpandGraph| x.grown_view()));
        r
    }
}

impl ABucket {
    /// The views of the matched graphs.
    pub open spec fn graphs(&self) -> Seq<GraphView> {
        graphs_view(self.all_matched@)
    }

    /// The frontier vertices, by graph position.
    pub open spec fn frontiers(&self) -> Map<usize, Seq<Seq<char>>> {
        frontier_items(self.matched_with_frontiers)
    }

    /// The expansions found, by the pattern vertex they lead to.
    pub open spec fn groups(&self) -> Map<Seq<char>, Seq<ExpandGraph>> {
        expanding_groups_items(self.next_pat_grouped_expanding)
    }

    /// An empty bucket expanding from pattern vertex `curr_pat_vid`.
    pub fn new(curr_pat_vid: String) -> (r: Self)
        ensures
            r.curr_pat_vid@ == curr_pat_vid@,
            r.all_matched@ == Seq::<DynGraph>::empty(),
            r.frontiers() == Map::<usize, Seq<Seq<char>>>::empty(),
            r.groups() == Map::<Seq<char>, Seq<ExpandGraph>>::empty(),
    {
        let r = ABucket {
            curr_pat_vid,
            all_matched: Vec::new(),
            matched_with_frontiers: FrontierMap::new(),
            next_pat_grouped_expanding: ExpandingGroups::new(),
        };
        assert(r.frontiers() =~= Map::<usize, Seq<Seq<char>>>::empty());
        assert(r.groups() =~= Map::<Seq<char>, Seq<ExpandGraph>>::empty());
        r
    }

    /// A bucket expanding the matched graphs of `f_bucket`, with the same
    /// frontiers, from pattern vertex `curr_pat_vid`.
    pub fn from_f_bucket(f_bucket: &FBucket, curr_pat_vid: &str) -> (r: Self)
        ensures
            r.curr_pat_vid@ == curr_pat_vid@,
            r.graphs() == f_bucket.graphs(),
            all_wf(f_bucket.all_matched@) ==> all_wf(r.all_matched@),
            r.frontiers() == f_bucket.frontiers(),
            r.groups() == Map::<Seq<char>, Seq<ExpandGraph>>::empty(),
    {
        let r = ABucket {
            curr_pat_vid: curr_pat_vid.to_owned(),
            all_matched: duplicate_graphs(&f_bucket.all_matched),
            matched_with_frontiers: f_bucket.matched_with_frontiers.duplicate(),
            next_pat_grouped_expanding: ExpandingGroups::new(),
        };
        assert(r.groups() =~= Map::<Seq<char>, Seq<ExpandGraph>>::empty());
        r
    }
}

impl CBucket {
    /// The confirmed target vertices, by expansion position.
    pub open spec fn frontiers(&self) -> Map<usize, Seq<Seq<char>>> {
        frontier_items(self.expanded_with_frontiers)
    }

    /// An empty bucket.
    pub fn new() -> (r: Self)
        ensures
            r.all_expanded@ == Seq::<ExpandGraph>::empty(),
            r.frontiers() == Map::<usize, Seq<Seq<char>>>::empty(),
    {
        let r = CBucket { all_expanded: Vec::new(), expanded_with_frontiers: FrontierMap::new() };
        assert(r.frontiers() =~= Map::<usize, Seq<Seq<char>>>::empty());
        r
    }
}

impl TBucket {
    /// An empty bucket of expansions towards pattern vertex `target_pat_vid`.
    pub fn new(target_pat_vid: String) -> (r: Self)
        ensures
            r.target_pat_vid@ == target_pat_vid@,
            r.expanding_graphs@ == Seq::<ExpandGraph>::empty(),
    {
        TBucket { target_pat_vid, expanding_graphs: Vec::new() }
    }
}

/// Every expansion of the list waits on its vertices in ascending id order.
pub open spec fn all_sorted(gs: Seq<ExpandGraph>) -> bool {
    forall|i: int| 0 <= i < gs.len() ==> keys_ascending(pending_keys((#[trigger] gs[i]).pend()))
}

/// The indices `0..n`.
pub open spec fn index_set(n: int) -> Set<usize> {
    Set::new(|k: usize| 0 <= k < n)
}

/// The expansions that meeting each of `left` with each of `right` gives, in
/// that order: all those of `left[0]` with `right[0]`, then with `right[1]`,
/// and so on.
pub open spec fn is_pairwise_meet(left: Seq<ExpandGraph>, right: Seq<ExpandGraph>, res: Seq<ExpandGraph>) -> bool {
    exists|segs: Seq<Seq<Seq<ExpandGraph>>>| {
        &&& segs.len() == left.len()
        &&& forall|i: int| 0 <= i < left.len() ==> (#[trigger] segs[i]).len() == right.len()
        &&& forall|i: int, j: int| 0 <= i < left.len() && 0 <= j < right.len() ==> is_walk_meet(left[i], right[j], #[trigger] segs[i][j])
        &&& res == segs.map_values(|row: Seq<Seq<ExpandGraph>>| row.flatten()).flatten()
    }
}

/// Meets each expansion of `left` with each of `right`, in order, and
/// collects what every meeting gives.
pub fn expand_edges_of_two(left_group: &Vec<ExpandGraph>, right_group: &Vec<ExpandGraph>) -> (r: Vec<ExpandGraph>)
    requires
        all_xwf(left_group@),
        all_xwf(right_group@),
    ensures
        is_pairwise_meet(left_group@, right_group@, r@),
        left_group@.len() == 0 || right_group@.len() == 0 ==> r@.len() == 0,
{
    let ghost L = left_group@;
    let ghost R = right_group@;
    let ghost fl = |row: Seq<Seq<ExpandGraph>>| row.flatten();
    let mut result: Vec<ExpandGraph> = Vec::new();
    let ghost mut rows: Seq<Seq<Seq<ExpandGraph>>> = Seq::empty();
    let mut i: usize = 0;
    while i < left_group.len()
        invariant
            i <= L.len(),
            L == left_group@,
            R == right_group@,
            all_xwf(L),
            all_xwf(R),
            fl == (|row: Seq<Seq<ExpandGraph>>| row.flatten()),
            rows.len() == i,
            forall|a: int| 0 <= a < i ==> (#[trigger] rows[a]).len() == R.len(),
            forall|a: int, b: int| 0 <= a < i && 0 <= b < R.len() ==> is_walk_meet(L[a], R[b], #[trigger] rows[a][b]),
            result@ == rows.map_values(fl).flatten(),
            R.len() == 0 ==> result@.len() == 0,
        decreases L.len() - i,
    {
        let ghost before = result@;
        let ghost mut cur: Seq<Seq<ExpandGraph>> = Seq::empty();
        let mut j: usize = 0;
        while j < right_group.len()
            invariant
                j <= R.len(),
                i < L.len(),
                L == left_group@,
                R == right_group@,
                all_xwf(L),
                all_xwf(R),
                cur.len() == j,
                forall|b: int| 0 <= b < j ==> is_walk_meet(L[i as int], R[b], #[trigger] cur[b]),
                result@ == before + cur.flatten(),
            decreases R.len() - j,
        {
            proof {
                assert(L[i as int].wf());
                assert(R[j as int].wf());
            }
            let mut met = union_then_intersect_on_connective_v(&left_group[i], &right_group[j]);
            let ghost m = met@;
            let ghost r0 = result@;
            result.append(&mut met);
            proof {
                let c0 = cur;
                cur = cur.push(m);
                c0.lemma_flatten_push(m);
                assert(result@ =~= before + cur.flatten());
                assert forall|b: int| 0 <= b < j + 1 implies is_walk_meet(L[i as int], R[b], #[trigger] cur[b]) by {
                    if b < j {
                        assert(cur[b] == c0[b]);
                    }
                }
            }
            j = j + 1;
        }
        proof {
            if R.len() == 0 {
                assert(cur =~= Seq::<Seq<ExpandGraph>>::empty());
                assert(cur.flatten() =~= Seq::<ExpandGraph>::empty());
                assert(result@ =~= before);
            }
            let rows0 = rows;
            rows = rows.push(cur);
            assert(rows.map_values(fl) =~= rows0.map_values(fl).push(cur.flatten()));
            rows0.map_values(fl).lemma_flatten_push(cur.flatten());
            assert forall|a: int, b: int| 0 <= a < i + 1 && 0 <= b < R.len() implies is_walk_meet(L[a], R[b], #[trigger] rows[a][b]) by {
                if a < i {
                    assert(rows[a] == rows0[a]);
                }
            }
            assert forall|a: int| 0 <= a < i + 1 implies (#[trigger] rows[a]).len() == R.len() by {
                if a < i {
                    assert(rows[a] == rows0[a]);
                }
            }
        }
        i = i + 1;
    }
    proof {
        assert(is_pairwise_meet(L, R, result@)) by {
            assert(result@ == rows.map_values(|row: Seq<Seq<ExpandGraph>>| row.flatten()).flatten());
        }
    }
    result
}

impl CBucket {
    /// `Intersect` on an A-group: confirms, in each expansion of the group,
    /// the target vertices that the loaded vertices give, and files them
    /// under the expansion's position.
    pub fn build_from_a_group(a_group: Vec<ExpandGraph>, loaded_v_pat_pairs: Vec<(DataVertex, String)>) -> (r: Self)
        requires
            all_xwf(a_group@),
        ensures
            r.all_expanded@.len() == a_group@.len(),
            r.frontiers().dom() == index_set(a_group@.len() as int),
            forall|i: int| 0 <= i < a_group@.len() ==> targets_confirmed(
                #[trigger] a_group@[i], loaded_v_pat_pairs@, r.all_expanded@[i], r.frontiers()[i as usize]),
    {
        let ghost A = a_group@;
        let n = a_group.len();
        let mut rest = a_group;
        let mut r = CBucket::new();
        let mut idx: usize = 0;
        while rest.len() > 0
            invariant
                idx <= A.len(),
                A.len() == n,
                rest@ == A.skip(idx as int),
                all_xwf(A),
                r.all_expanded@.len() == idx,
                r.frontiers().dom() == index_set(idx as int),
                forall|i: int| 0 <= i < idx ==> targets_confirmed(
                    #[trigger] A[i], loaded_v_pat_pairs@, r.all_expanded@[i], r.frontiers()[i as usize]),
            decreases rest@.len(),
        {
            let mut expanding = rest.remove(0);
            let ghost e0 = expanding;
            proof {
                assert(A.skip(idx as int)[0] == expanding);
                assert(A[idx as int] == expanding);
            }
            let valid_targets = expanding.update_valid_target_vertices(loaded_v_pat_pairs.as_slice());
            let ghost fr0 = r.frontiers();
            r.all_expanded.push(expanding);
            r.expanded_with_frontiers.insert(idx, valid_targets);
            proof {
                assert(rest@ =~= A.skip(idx + 1));
                assert(r.frontiers().dom() =~= index_set(idx + 1));
                assert forall|i: int| 0 <= i < idx + 1 implies targets_confirmed(
                    #[trigger] A[i], loaded_v_pat_pairs@, r.all_expanded@[i], r.frontiers()[i as usize]) by {
                    if i < idx {
                        assert(r.frontiers()[i as usize] == fr0[i as usize]);
                    }
                }
            }
            idx = idx + 1;
        }
        proof {
            assert(A.skip(idx as int).len() == 0);
        }
        r
    }

    /// `Intersect` on a T-bucket: confirms, in each of its expansions, the
    /// target vertices that the loaded vertices give, and keeps copies of the
    /// updated expansions with those vertices filed under their positions.
    pub fn build_from_t(t_bucket: &mut TBucket, loaded_v_pat_pairs: Vec<(DataVertex, String)>) -> (r: Self)
        requires
            all_xwf(old(t_bucket).expanding_graphs@),
        ensures
            final(t_bucket).target_pat_vid == old(t_bucket).target_pat_vid,
            final(t_bucket).expanding_graphs@.len() == old(t_bucket).expanding_graphs@.len(),
            r.all_expanded@.len() == old(t_bucket).expanding_graphs@.len(),
            r.frontiers().dom() == index_set(old(t_bucket).expanding_graphs@.len() as int),
            forall|i: int| 0 <= i < old(t_bucket).expanding_graphs@.len() ==> {
                &&& targets_confirmed(#[trigger] old(t_bucket).expanding_graphs@[i], loaded_v_pat_pairs@,
                    final(t_bucket).expanding_graphs@[i], r.frontiers()[i as usize])
                &&& targets_confirmed(old(t_bucket).expanding_graphs@[i], loaded_v_pat_pairs@,
                    r.all_expanded@[i], r.frontiers()[i as usize])
            },
    {
        let ghost A = t_bucket.expanding_graphs@;
        let n = t_bucket.expanding_graphs.len();
        let mut rest: Vec<ExpandGraph> = Vec::new();
        std::mem::swap(&mut rest, &mut t_bucket.expanding_graphs);
        let mut kept: Vec<ExpandGraph> = Vec::new();
        let mut r = CBucket::new();
        let mut idx: usize = 0;
        while rest.len() > 0
            invariant
                idx <= A.len(),
                A.len() == n,
                rest@ == A.skip(idx as int),
                all_xwf(A),
                r.all_expanded@.len() == idx,
                kept@.len() == idx,
                r.frontiers().dom() == index_set(idx as int),
                forall|i: int| 0 <= i < idx ==> {
                    &&& targets_confirmed(#[trigger] A[i], loaded_v_pat_pairs@, kept@[i], r.frontiers()[i as usize])
                    &&& targets_confirmed(A[i], loaded_v_pat_pairs@, r.all_expanded@[i], r.frontiers()[i as usize])
                },
            decreases rest@.len(),
        {
            let mut expanding = rest.remove(0);
            proof {
                assert(A.skip(idx as int)[0] == expanding);
                assert(A[idx as int] == expanding);
            }
            let valid_targets = expanding.update_valid_target_vertices(loaded_v_pat_pairs.as_slice());
            let copy = expanding.duplicate();
            let ghost fr0 = r.frontiers();
            r.all_expanded.push(copy);
            kept.push(expanding);
            r.expanded_with_frontiers.insert(idx, valid_targets);
            proof {
                assert(rest@ =~= A.skip(idx + 1));
                assert(r.frontiers().dom() =~= index_set(idx + 1));
                assert forall|i: int| 0 <= i < idx + 1 implies {
                    &&& targets_confirmed(#[trigger] A[i], loaded_v_pat_pairs@, kept@[i], r.frontiers()[i as usize])
                    &&& targets_confirmed(A[i], loaded_v_pat_pairs@, r.all_expanded@[i], r.frontiers()[i as usize])
                } by {
                    if i < idx {
                        assert(r.frontiers()[i as usize] == fr0[i as usize]);
                    }
                }
            }
            idx = idx + 1;
        }
        t_bucket.expanding_graphs = kept;
        r
    }
}

impl TBucket {
    /// `Intersect` of two A-groups: the expansions that meeting each of
    /// `left` with each of `right` gives, towards `target_pat_vid`.
    pub fn build_from_a_a(left: Vec<ExpandGraph>, right: Vec<ExpandGraph>, target_pat_vid: &str) -> (r: Self)
        requires
            all_xwf(left@),
            all_xwf(right@),
        ensures
            r.target_pat_vid@ == target_pat_vid@,
            is_pairwise_meet(left@, right@, r.expanding_graphs@),
    {
        let expanding_graphs = expand_edges_of_two(&left, &right);
        TBucket { target_pat_vid: target_pat_vid.to_owned(), expanding_graphs }
    }

    /// `Intersect` of a T-bucket with an A-group: the expansions that meeting
    /// each of the bucket's with each of the group's gives, towards the
    /// bucket's pattern vertex.
    pub fn build_from_t_a(t_bucket: TBucket, a_group: Vec<ExpandGraph>) -> (r: Self)
        requires
            all_xwf(t_bucket.expanding_graphs@),
            all_xwf(a_group@),
        ensures
            r.target_pat_vid == t_bucket.target_pat_vid,
            is_pairwise_meet(t_bucket.expanding_graphs@, a_group@, r.expanding_graphs@),
    {
        let expanding_graphs = expand_edges_of_two(&t_bucket.expanding_graphs, &a_group);
        TBucket { target_pat_vid: t_bucket.target_pat_vid, expanding_graphs }
    }
}

} // verus!
