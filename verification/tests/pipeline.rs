use ember_sgm_backend::adjacency::{
    group_edges_by_next, incremental_match_candidates, incremental_match_select, reached_vid, EdgeLoad,
};
use ember_sgm_backend::buckets::{expand_edges_of_two, ABucket, CBucket, FBucket, TBucket};
use ember_sgm_backend::dyn_graph::DynGraph;
use ember_sgm_backend::expand_graph::ExpandGraph;
use ember_sgm_backend::maps::{FrontierMap, VidSet};
use ember_sgm_backend::matching_ctx::MatchingCtx;
use ember_sgm_backend::operators::{
    foreach_step, get_adj_begin, get_adj_end, init_matched_vertices, intersect_a_a_step, intersect_a_step,
    intersect_step_of, intersect_t_a_step, intersect_t_step, sort_pairs_by_vid, InstrOperator, InstrOperatorFactory,
    IntersectStep,
};
use ember_sgm_backend::vars::{is_var, var_prefix_of, VarPrefix};
use ember_sgm_backend::report::{
    could_match_partial_pattern, could_match_the_whole_pattern, keep_partial_graphs, merge_partial_matches,
    report_partial_matches,
};
use ember_sgm_backend::schemas::{
    AttrOp, AttrValue, DataEdge, DataVertex, Instruction, InstructionType, PatternAttr, PatternEdge, PatternVertex,
    PlanData,
};

fn person(vid: &str, age: i64) -> DataVertex {
    DataVertex {
        vid: vid.to_string(),
        label: "Person".to_string(),
        attrs: vec![("age".to_string(), AttrValue::Int(age))],
    }
}

fn edge(eid: &str, src: &str, dst: &str) -> DataEdge {
    DataEdge {
        eid: eid.to_string(),
        src_vid: src.to_string(),
        dst_vid: dst.to_string(),
        label: "knows".to_string(),
        attrs: vec![],
    }
}

fn pat_v(vid: &str, attr: Option<PatternAttr>) -> PatternVertex {
    PatternVertex { vid: vid.to_string(), label: "Person".to_string(), attr }
}

fn pat_e(eid: &str, src: &str, dst: &str) -> PatternEdge {
    PatternEdge {
        eid: eid.to_string(),
        src_vid: src.to_string(),
        dst_vid: dst.to_string(),
        label: "knows".to_string(),
        attr: None,
    }
}

fn instr(type_: InstructionType, vid: &str, single_op: Option<&str>, target: &str, expand: &[&str]) -> Instruction {
    Instruction {
        vid: vid.to_string(),
        type_,
        expand_eids: expand.iter().map(|s| s.to_string()).collect(),
        single_op: single_op.map(|s| s.to_string()),
        multi_ops: vec![],
        target_var: target.to_string(),
        depend_on: vec![],
    }
}

/// The pattern `v1 -e1-> v2`, with `v2` at least 30 years old.
fn plan() -> PlanData {
    let mut p = PlanData::new();
    p.insert_pattern_v("v1".to_string(), pat_v("v1", None));
    p.insert_pattern_v(
        "v2".to_string(),
        pat_v("v2", Some(PatternAttr { key: "age".to_string(), op: AttrOp::Ge, value: AttrValue::Int(30) })),
    );
    p.insert_pattern_e("e1".to_string(), pat_e("e1", "v1", "v2"));
    p
}

/// The data: 1 -a-> 2, 1 -b-> 3, 2 -c-> 3, with ages 20, 35, 40.
fn people() -> Vec<DataVertex> {
    vec![person("1", 20), person("2", 35), person("3", 40)]
}

fn out_edges(vid: &str) -> Vec<DataEdge> {
    let all = vec![edge("a", "1", "2"), edge("b", "1", "3"), edge("c", "2", "3")];
    all.into_iter().filter(|e| e.src_vid == vid).collect()
}

fn find_person(vid: &str) -> DataVertex {
    people().into_iter().find(|v| v.vid == vid).unwrap()
}

fn graph_of(vs: &[(&str, &str)], es: &[(&str, &str, &str, &str)]) -> DynGraph {
    let mut g = DynGraph::new();
    for (vid, p) in vs {
        g.update_v(person(vid, 50), p.to_string());
    }
    for (eid, s, d, p) in es {
        g.update_e(edge(eid, s, d), p.to_string());
    }
    g
}

fn sorted(mut v: Vec<String>) -> Vec<String> {
    v.sort();
    v
}

fn eids(es: &[DataEdge]) -> Vec<String> {
    es.iter().map(|e| e.eid.clone()).collect()
}

#[test]
fn factory_picks_operator() {
    let cases = [
        (InstructionType::Init, InstrOperator::Init),
        (InstructionType::GetAdj, InstrOperator::GetAdj),
        (InstructionType::Foreach, InstrOperator::Foreach),
        (InstructionType::Intersect, InstrOperator::Intersect),
        (InstructionType::Report, InstrOperator::Report),
    ];
    for (t, op) in cases {
        let i = instr(t, "v1", None, "f@v1", &[]);
        assert!(InstrOperatorFactory::create(&i) == op);
    }
}

#[test]
fn init_skips_expanded_vertices() {
    let p = plan();
    let mut ctx = MatchingCtx::new(&p);
    let mut ex = VidSet::new();
    ex.insert("2".to_string());
    ctx.update_extended_data_vids(ex);
    let i = instr(InstructionType::Init, "v1", None, "f@v1", &[]);
    init_matched_vertices(&mut ctx, &i, people());
    let b = ctx.pop_from_f_block("f@v1");
    assert_eq!(b.all_matched.len(), 2);
    assert!(b.all_matched[0].has_vid("1"));
    assert!(b.all_matched[1].has_vid("3"));
    assert_eq!(b.all_matched[0].v_patterns.get("1"), Some(&"v1".to_string()));
    assert_eq!(b.matched_with_frontiers.get(0), Some(&vec!["1".to_string()]));
    assert_eq!(b.matched_with_frontiers.get(1), Some(&vec!["3".to_string()]));
    assert_eq!(b.matched_with_frontiers.get(2), None);
}

#[test]
fn get_adj_expands_along_pattern_edges() {
    let p = plan();
    let mut ctx = MatchingCtx::new(&p);
    init_matched_vertices(&mut ctx, &instr(InstructionType::Init, "v1", None, "f@v1", &[]), people());
    let g = instr(InstructionType::GetAdj, "v1", Some("f@v1"), "a@v1", &["e1"]);
    let (bucket, pes, loads) = get_adj_begin(&mut ctx, &g);
    assert_eq!(pes.len(), 1);
    assert_eq!(loads.len(), 3);
    assert!(loads.iter().all(|l| l.is_src_curr_pat && l.pat_e_pos == 0));
    let mut loaded = vec![];
    for l in loads.iter() {
        let potential = out_edges(&l.frontier_vid);
        let cands = incremental_match_candidates(&bucket.all_matched[l.idx], potential.clone());
        let vs: Vec<DataVertex> = cands.iter().map(|e| find_person(reached_vid(e, l.is_src_curr_pat))).collect();
        loaded.push((potential, vs));
    }
    get_adj_end(&mut ctx, &g, bucket, &pes, &loads, loaded);
    assert!(ctx.expanded_data_vids.contains("1"));
    assert!(ctx.expanded_data_vids.contains("2"));
    assert!(!ctx.expanded_data_vids.contains("3"));
    let mut a = ctx.a_block.remove("v1").unwrap();
    assert!(a.all_matched.is_empty());
    assert_eq!(a.curr_pat_vid, "v1");
    let group = a.next_pat_grouped_expanding.remove("v2").unwrap();
    assert_eq!(group.len(), 3);
    let mut pending: Vec<(String, Vec<String>)> = group
        .iter()
        .map(|x| {
            let (k, v) = x.pending_v_grouped_dangling_eids.get_index(0).unwrap();
            (k.clone(), v.clone())
        })
        .collect();
    pending.sort();
    assert_eq!(
        pending,
        vec![
            ("2".to_string(), vec!["a".to_string()]),
            ("3".to_string(), vec!["b".to_string()]),
            ("3".to_string(), vec!["c".to_string()]),
        ]
    );
    for x in group.iter() {
        assert_eq!(x.pending_v_grouped_dangling_eids.len(), 1);
        let (_, ids) = x.pending_v_grouped_dangling_eids.get_index(0).unwrap();
        assert_eq!(x.dangling_e_patterns.get(&ids[0]), Some(&"e1".to_string()));
    }
}

#[test]
fn get_adj_skips_unsatisfying_and_matched_edges() {
    let p = plan();
    let mut ctx = MatchingCtx::new(&p);
    ctx.init_f_block("f@v1");
    ctx.append_to_f_block("f@v1", graph_of(&[("1", "v1")], &[]), "1");
    let g = instr(InstructionType::GetAdj, "v1", Some("f@v1"), "a@v1", &["e1"]);
    let (bucket, pes, loads) = get_adj_begin(&mut ctx, &g);
    assert_eq!(loads.len(), 1);
    let potential = vec![edge("a", "1", "2"), edge("x", "1", "5")];
    let vs = vec![person("2", 35), person("5", 10)];
    get_adj_end(&mut ctx, &g, bucket, &pes, &loads, vec![(potential, vs)]);
    let mut a = ctx.a_block.remove("v1").unwrap();
    let group = a.next_pat_grouped_expanding.remove("v2").unwrap();
    assert_eq!(group.len(), 1);
    assert_eq!(group[0].pending_v_grouped_dangling_eids.get("2"), Some(&vec!["a".to_string()]));
    assert!(ctx.expanded_data_vids.contains("1"));
}

#[test]
fn get_adj_without_matches_connects_nothing() {
    let p = plan();
    let mut ctx = MatchingCtx::new(&p);
    ctx.init_f_block("f@v1");
    ctx.append_to_f_block("f@v1", graph_of(&[("1", "v1")], &[]), "1");
    let g = instr(InstructionType::GetAdj, "v1", Some("f@v1"), "a@v1", &["e1"]);
    let (bucket, pes, loads) = get_adj_begin(&mut ctx, &g);
    let potential = vec![edge("x", "1", "5")];
    let vs = vec![person("5", 10)];
    get_adj_end(&mut ctx, &g, bucket, &pes, &loads, vec![(potential, vs)]);
    assert!(!ctx.expanded_data_vids.contains("1"));
    let mut a = ctx.a_block.remove("v1").unwrap();
    assert!(a.next_pat_grouped_expanding.remove("v2").is_none());
}

#[test]
fn plan_skips_pattern_edges_already_matched() {
    let mut fr = FrontierMap::new();
    fr.insert(0, vec!["1".to_string(), "2".to_string()]);
    let f = FBucket {
        all_matched: vec![graph_of(&[("1", "v1"), ("2", "v2")], &[("a", "1", "2", "e1")])],
        matched_with_frontiers: fr,
    };
    let bucket = ABucket::from_f_bucket(&f, "v2");
    let pes = vec![pat_e("e1", "v1", "v2"), pat_e("e2", "v2", "v3"), pat_e("e3", "v4", "v2")];
    let loads: Vec<EdgeLoad> = bucket.plan_edge_loads(&pes);
    let seen: Vec<(String, usize, bool)> =
        loads.iter().map(|l| (l.frontier_vid.clone(), l.pat_e_pos, l.is_src_curr_pat)).collect();
    assert_eq!(
        seen,
        vec![
            ("1".to_string(), 1, true),
            ("1".to_string(), 2, false),
            ("2".to_string(), 1, true),
            ("2".to_string(), 2, false),
        ]
    );
}

#[test]
fn grouping_by_reached_vertex_keeps_first_occurrence_order() {
    let es = vec![edge("a", "1", "3"), edge("b", "2", "4"), edge("c", "5", "3")];
    let (keys, groups) = group_edges_by_next(es, true);
    assert_eq!(keys, vec!["3".to_string(), "4".to_string()]);
    assert_eq!(eids(&groups[0]), vec!["a".to_string(), "c".to_string()]);
    assert_eq!(eids(&groups[1]), vec!["b".to_string()]);
    let es = vec![edge("a", "1", "3"), edge("b", "2", "4"), edge("c", "1", "4")];
    let (keys, groups) = group_edges_by_next(es, false);
    assert_eq!(keys, vec!["1".to_string(), "2".to_string()]);
    assert_eq!(eids(&groups[0]), vec!["a".to_string(), "c".to_string()]);
}

#[test]
fn candidates_and_selection() {
    let g = graph_of(&[("1", "v1"), ("2", "v2")], &[("a", "1", "2", "e1")]);
    let cands = incremental_match_candidates(&g, vec![edge("a", "1", "2"), edge("b", "1", "3"), edge("d", "1", "4")]);
    assert_eq!(eids(&cands), vec!["b".to_string(), "d".to_string()]);
    let pv = pat_v("v2", Some(PatternAttr { key: "age".to_string(), op: AttrOp::Gt, value: AttrValue::Int(30) }));
    let sel = incremental_match_select(&pv, cands, &vec![person("3", 31), person("4", 30)]);
    assert_eq!(eids(&sel), vec!["b".to_string()]);
}

#[test]
fn report_keeps_partial_matches() {
    let p = plan();
    let mut ctx = MatchingCtx::new(&p);
    ctx.init_f_block("f@x");
    ctx.append_to_f_block("f@x", graph_of(&[("1", "v1")], &[]), "1");
    ctx.append_to_f_block("f@x", graph_of(&[("1", "v1"), ("2", "v1")], &[]), "2");
    ctx.append_to_f_block("f@x", graph_of(&[("1", "v9")], &[]), "1");
    report_partial_matches(&mut ctx);
    assert_eq!(ctx.grouped_partial_matches.len(), 1);
    assert_eq!(ctx.grouped_partial_matches[0].len(), 1);
    assert!(ctx.grouped_partial_matches[0][0].has_vid("1"));
    assert!(ctx.f_block.remove("x").is_none());
}

#[test]
fn partial_and_whole_pattern_checks() {
    let p = plan();
    let whole = graph_of(&[("1", "v1"), ("2", "v2")], &[("a", "1", "2", "e1")]);
    let part = graph_of(&[("1", "v1")], &[]);
    let twice = graph_of(&[("1", "v1"), ("2", "v1")], &[]);
    let alien = graph_of(&[("1", "v7")], &[]);
    assert!(could_match_the_whole_pattern(&whole, &p));
    assert!(could_match_partial_pattern(&whole, &p));
    assert!(!could_match_the_whole_pattern(&part, &p));
    assert!(could_match_partial_pattern(&part, &p));
    assert!(!could_match_partial_pattern(&twice, &p));
    assert!(!could_match_partial_pattern(&alien, &p));
    let kept = keep_partial_graphs(vec![part, twice, whole, alien], &p);
    assert_eq!(kept.len(), 2);
    assert!(!kept[0].has_vid("2"));
    assert!(kept[1].has_eid("a"));
}

#[test]
fn final_merge_combines_groups() {
    let p = plan();
    let left = vec![graph_of(&[("1", "v1")], &[]), graph_of(&[("7", "v1")], &[])];
    let right = vec![graph_of(&[("2", "v2")], &[("a", "1", "2", "e1")])];
    let merged = merge_partial_matches(vec![left, vec![], right], &p);
    assert_eq!(merged.len(), 2);
    assert!(merged[0].has_vid("1") && merged[0].has_vid("2") && merged[0].has_eid("a"));
    assert!(merged[1].has_vid("7"));
    let none = merge_partial_matches(vec![vec![graph_of(&[("1", "v1")], &[])]], &p);
    assert!(none.is_empty());
    assert!(merge_partial_matches(vec![], &p).is_empty());
}

#[test]
fn c_bucket_and_foreach() {
    let mut x = ExpandGraph::from_graph(graph_of(&[("1", "v1")], &[]));
    x.update_valid_dangling_edges(&vec![edge("a", "1", "2"), edge("b", "1", "3")], &vec!["e1".to_string(), "e1".to_string()]);
    x.sort_key_after_update_valid_target_vertices();
    let c = CBucket::build_from_a_group(vec![x], vec![(person("3", 40), "v2".to_string())]);
    assert_eq!(c.all_expanded.len(), 1);
    assert_eq!(c.expanded_with_frontiers.get(0), Some(&vec!["3".to_string()]));
    let f = FBucket::from_c_bucket(&c);
    assert_eq!(f.all_matched.len(), 1);
    assert!(f.all_matched[0].has_vid("3"));
    assert!(f.all_matched[0].has_eid("b"));
    assert!(!f.all_matched[0].has_eid("a"));
    assert_eq!(f.matched_with_frontiers.get(0), Some(&vec!["3".to_string()]));
}

#[test]
fn t_bucket_meets_pairwise() {
    let mk = |v: &str, dangling: Vec<DataEdge>| {
        let mut x = ExpandGraph::from_graph(graph_of(&[(v, "p")], &[]));
        let pats = vec!["e".to_string(); dangling.len()];
        x.update_valid_dangling_edges(&dangling, &pats);
        x.sort_key_after_update_valid_target_vertices();
        x
    };
    let left = vec![mk("1", vec![edge("a", "1", "9")]), mk("2", vec![edge("b", "2", "8")])];
    let right = vec![mk("3", vec![edge("c", "3", "9"), edge("d", "3", "8")])];
    let met = expand_edges_of_two(&left, &right);
    assert_eq!(met.len(), 2);
    assert!(met[0].dyn_graph.has_vid("1") && met[0].dyn_graph.has_vid("3"));
    assert!(met[1].dyn_graph.has_vid("2"));
    let t = TBucket::build_from_a_a(left, right, "v9");
    assert_eq!(t.target_pat_vid, "v9");
    assert_eq!(t.expanding_graphs.len(), 2);
    let t2 = TBucket::build_from_t_a(t, vec![mk("4", vec![edge("e", "4", "9")])]);
    assert_eq!(t2.target_pat_vid, "v9");
    assert_eq!(t2.expanding_graphs.len(), 1);
}

#[test]
fn blocks_round_trip() {
    let p = plan();
    let mut ctx = MatchingCtx::new(&p);
    ctx.update_c_block("c@k", CBucket::new());
    assert!(ctx.pop_from_c_block("c@k").all_expanded.is_empty());
    ctx.update_t_block("t@k", TBucket::new("v2".to_string()));
    assert_eq!(ctx.pop_from_t_block("t@k").target_pat_vid, "v2");
    ctx.init_a_block("a@v1");
    let mut b = ABucket::new("v1".to_string());
    b.next_pat_grouped_expanding.insert("v2".to_string(), vec![]);
    ctx.update_a_block("a@v1", b);
    assert!(ctx.pop_group_by_pat_from_a_block("a@v1", "v2").is_empty());
    assert_eq!(ctx.fetch_pattern_v_batch(&vec!["v2".to_string(), "zz".to_string(), "v1".to_string()]).len(), 2);
    assert_eq!(ctx.fetch_pattern_e_batch(&vec!["e1".to_string()])[0].dst_vid, "v2");
    assert_eq!(ctx.get_pattern_v("v2").vid, "v2");
    assert_eq!(ctx.get_pattern_e("e1").src_vid, "v1");
    assert_eq!(sorted(ctx.pattern_vs().keys()), vec!["v1".to_string(), "v2".to_string()]);
    assert_eq!(sorted(ctx.pattern_es().keys()), vec!["e1".to_string()]);
}

fn expansion_of(vid: &str, dangling: Vec<DataEdge>) -> ExpandGraph {
    let mut x = ExpandGraph::from_graph(graph_of(&[(vid, "v1")], &[]));
    let pats = vec!["e1".to_string(); dangling.len()];
    x.update_valid_dangling_edges(&dangling, &pats);
    x
}

fn multi(type_: InstructionType, vid: &str, ops: &[&str], target: &str) -> Instruction {
    let mut i = instr(type_, vid, None, target, &[]);
    i.multi_ops = ops.iter().map(|s| s.to_string()).collect();
    i
}

#[test]
fn var_checks() {
    assert!(is_var("f@x"));
    assert!(!is_var("fx"));
    assert_eq!(var_prefix_of("t@x"), Some(VarPrefix::TBlock));
    assert_eq!(var_prefix_of("a@"), Some(VarPrefix::ABlock));
    assert_eq!(var_prefix_of("q@x"), None);
    assert_eq!(var_prefix_of("tx"), None);
}

#[test]
fn pairs_sort_by_vid_stably() {
    let pairs = vec![
        (person("b", 1), "p1".to_string()),
        (person("a", 2), "p2".to_string()),
        (person("b", 3), "p3".to_string()),
        (person("10", 4), "p4".to_string()),
    ];
    let sorted = sort_pairs_by_vid(pairs);
    let seen: Vec<(String, String)> = sorted.iter().map(|(v, p)| (v.vid.clone(), p.clone())).collect();
    assert_eq!(
        seen,
        vec![
            ("10".to_string(), "p4".to_string()),
            ("a".to_string(), "p2".to_string()),
            ("b".to_string(), "p1".to_string()),
            ("b".to_string(), "p3".to_string()),
        ]
    );
}

#[test]
fn foreach_grows_confirmed_expansions() {
    let p = plan();
    let mut ctx = MatchingCtx::new(&p);
    let mut x = expansion_of("1", vec![edge("a", "1", "2"), edge("b", "1", "3")]);
    x.sort_key_after_update_valid_target_vertices();
    let c = CBucket::build_from_a_group(vec![x], vec![(person("3", 40), "v2".to_string())]);
    ctx.update_c_block("c@x", c);
    foreach_step(&mut ctx, &instr(InstructionType::Foreach, "v2", Some("c@x"), "f@y", &[]));
    assert!(ctx.c_block.remove("x").is_none());
    let f = ctx.pop_from_f_block("f@y");
    assert_eq!(f.all_matched.len(), 1);
    assert!(f.all_matched[0].has_vid("3"));
    assert!(f.all_matched[0].has_eid("b"));
    assert_eq!(f.matched_with_frontiers.get(0), Some(&vec!["3".to_string()]));
}

#[test]
fn intersect_a_group_confirms_loaded_targets() {
    let p = plan();
    let mut ctx = MatchingCtx::new(&p);
    let mut a = ABucket::new("v1".to_string());
    a.next_pat_grouped_expanding.insert(
        "v2".to_string(),
        vec![expansion_of("1", vec![edge("b", "1", "3"), edge("a", "1", "2"), edge("d", "1", "9")])],
    );
    ctx.update_a_block("a@v1", a);
    let i = instr(InstructionType::Intersect, "v2", Some("a@v1"), "c@v2", &[]);
    intersect_a_step(&mut ctx, &i, vec![person("3", 40), person("2", 35), person("7", 50)]);
    let c = ctx.pop_from_c_block("c@v2");
    assert_eq!(c.all_expanded.len(), 1);
    assert_eq!(c.expanded_with_frontiers.get(0), Some(&vec!["2".to_string(), "3".to_string()]));
    assert_eq!(c.all_expanded[0].target_v_patterns.get("3"), Some(&"v2".to_string()));
    let mut a = ctx.a_block.remove("v1").unwrap();
    assert!(a.next_pat_grouped_expanding.remove("v2").is_none());
}

#[test]
fn intersect_t_bucket_confirms_loaded_targets() {
    let p = plan();
    let mut ctx = MatchingCtx::new(&p);
    let mut t = TBucket::new("v2".to_string());
    t.expanding_graphs.push(expansion_of("1", vec![edge("a", "1", "2")]));
    t.expanding_graphs.push(expansion_of("5", vec![edge("x", "5", "6")]));
    ctx.update_t_block("t@v2", t);
    let i = instr(InstructionType::Intersect, "v2", Some("t@v2"), "c@v2", &[]);
    intersect_t_step(&mut ctx, &i, vec![person("2", 35)]);
    let c = ctx.pop_from_c_block("c@v2");
    assert_eq!(c.all_expanded.len(), 2);
    assert_eq!(c.expanded_with_frontiers.get(0), Some(&vec!["2".to_string()]));
    assert_eq!(c.expanded_with_frontiers.get(1), Some(&vec![]));
    assert!(ctx.t_block.remove("v2").is_none());
}

#[test]
fn intersect_two_groups_and_a_t_bucket() {
    let p = plan();
    let mut ctx = MatchingCtx::new(&p);
    let mut a1 = ABucket::new("v1".to_string());
    a1.next_pat_grouped_expanding.insert(
        "v3".to_string(),
        vec![expansion_of("1", vec![edge("a", "1", "9")]), expansion_of("2", vec![edge("b", "2", "8")])],
    );
    let mut a2 = ABucket::new("v2".to_string());
    a2.next_pat_grouped_expanding.insert("v3".to_string(), vec![expansion_of("3", vec![edge("c", "3", "9")])]);
    let mut a3 = ABucket::new("v4".to_string());
    a3.next_pat_grouped_expanding.insert("v3".to_string(), vec![expansion_of("4", vec![edge("d", "4", "9")])]);
    ctx.update_a_block("a@v1", a1);
    ctx.update_a_block("a@v2", a2);
    ctx.update_a_block("a@v4", a3);
    intersect_a_a_step(&mut ctx, &multi(InstructionType::Intersect, "v3", &["a@v1", "a@v2"], "t@v3"));
    {
        let t = ctx.pop_from_t_block("t@v3");
        assert_eq!(t.target_pat_vid, "v3");
        assert_eq!(t.expanding_graphs.len(), 1);
        assert!(t.expanding_graphs[0].dyn_graph.has_vid("1"));
        assert!(t.expanding_graphs[0].dyn_graph.has_vid("3"));
        ctx.update_t_block("t@v3", t);
    }
    intersect_t_a_step(&mut ctx, &multi(InstructionType::Intersect, "v3", &["t@v3", "a@v4"], "t@w"));
    let t = ctx.pop_from_t_block("t@w");
    assert_eq!(t.target_pat_vid, "v3");
    assert_eq!(t.expanding_graphs.len(), 1);
    let g = &t.expanding_graphs[0];
    assert!(g.dyn_graph.has_vid("1") && g.dyn_graph.has_vid("3") && g.dyn_graph.has_vid("4"));
    assert_eq!(g.pending_v_grouped_dangling_eids.get("9").map(|v| v.len()), Some(3));
}

#[test]
fn empty_plan_has_nothing() {
    let p = PlanData::new();
    assert!(p.pattern_vs.keys().is_empty());
    assert!(p.pattern_es.keys().is_empty());
    assert!(p.instructions.is_empty());
    let ctx = MatchingCtx::new(&p);
    assert!(ctx.grouped_partial_matches.is_empty());
}

#[test]
fn intersect_step_by_operands() {
    let cases: Vec<(Instruction, Option<IntersectStep>)> = vec![
        (multi(InstructionType::Intersect, "v", &["a@x", "a@y"], "t@v"), Some(IntersectStep::AGroups)),
        (multi(InstructionType::Intersect, "v", &["t@x", "a@y"], "t@v"), Some(IntersectStep::TBucketAGroup)),
        (multi(InstructionType::Intersect, "v", &["c@x", "a@y"], "t@v"), None),
        (instr(InstructionType::Intersect, "v", Some("a@x"), "c@v", &[]), Some(IntersectStep::AGroup)),
        (instr(InstructionType::Intersect, "v", Some("t@x"), "c@v", &[]), Some(IntersectStep::TBucket)),
        (instr(InstructionType::Intersect, "v", Some("fx"), "c@v", &[]), None),
        (instr(InstructionType::Intersect, "v", None, "c@v", &[]), None),
    ];
    for (i, expected) in cases {
        assert!(intersect_step_of(&i) == expected);
    }
}

#[test]
fn meeting_with_an_empty_side_gives_nothing() {
    let x = expansion_of("1", vec![edge("a", "1", "9")]);
    assert!(expand_edges_of_two(&vec![x], &vec![]).is_empty());
    assert!(expand_edges_of_two(&vec![], &vec![expansion_of("2", vec![edge("b", "2", "9")])]).is_empty());
}

#[test]
fn c_bucket_from_unsorted_group() {
    let mut x = ExpandGraph::from_graph(graph_of(&[("1", "v1")], &[]));
    x.update_valid_dangling_edges(&vec![edge("a", "1", "9"), edge("b", "1", "3")], &vec!["e1".to_string(), "e1".to_string()]);
    let c = CBucket::build_from_a_group(
        vec![x],
        vec![(person("3", 40), "v2".to_string()), (person("9", 40), "v2".to_string())],
    );
    assert_eq!(c.all_expanded.len(), 1);
    assert_eq!(c.expanded_with_frontiers.get(0), Some(&vec!["9".to_string()]));
    assert_eq!(c.all_expanded[0].target_vs, vec!["9".to_string()]);
}

#[test]
fn c_bucket_from_t_bucket_updates_in_place() {
    let mut x = ExpandGraph::from_graph(graph_of(&[("1", "v1")], &[]));
    x.update_valid_dangling_edges(&vec![edge("a", "1", "9"), edge("b", "1", "3")], &vec!["e1".to_string(), "e1".to_string()]);
    let mut y = ExpandGraph::from_graph(graph_of(&[("2", "v1")], &[]));
    y.update_valid_dangling_edges(&vec![edge("c", "2", "3")], &vec!["e1".to_string()]);
    let mut t = TBucket::new("v2".to_string());
    t.expanding_graphs = vec![x, y];
    let c = CBucket::build_from_t(&mut t, vec![(person("3", 40), "v2".to_string()), (person("9", 40), "v2".to_string())]);
    assert_eq!(t.target_pat_vid, "v2");
    assert_eq!(t.expanding_graphs.len(), 2);
    assert_eq!(t.expanding_graphs[0].target_vs, vec!["9".to_string()]);
    assert_eq!(t.expanding_graphs[1].target_vs, vec!["3".to_string()]);
    assert_eq!(c.all_expanded.len(), 2);
    assert_eq!(c.all_expanded[1].target_vs, vec!["3".to_string()]);
    assert_eq!(c.expanded_with_frontiers.get(0), Some(&vec!["9".to_string()]));
    assert_eq!(c.expanded_with_frontiers.get(1), Some(&vec!["3".to_string()]));
}
