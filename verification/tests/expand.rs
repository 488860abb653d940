use ember_sgm_backend::dyn_graph::DynGraph;
use ember_sgm_backend::expand_graph::{union_then_intersect_on_connective_v, ExpandGraph};
use ember_sgm_backend::schemas::{DataEdge, DataVertex};

fn vertex(vid: &str) -> DataVertex {
    DataVertex { vid: vid.to_string(), label: "L".to_string(), attrs: vec![] }
}

fn edge(eid: &str, src: &str, dst: &str) -> DataEdge {
    DataEdge {
        eid: eid.to_string(),
        src_vid: src.to_string(),
        dst_vid: dst.to_string(),
        label: "E".to_string(),
        attrs: vec![],
    }
}

fn graph(vs: &[&str], es: &[(&str, &str, &str)]) -> DynGraph {
    let mut g = DynGraph::new();
    for vid in vs {
        g.update_v(vertex(vid), format!("p{}", vid));
    }
    for (eid, s, d) in es {
        g.update_e(edge(eid, s, d), format!("p{}", eid));
    }
    g
}

fn expansion(vs: &[&str], es: &[(&str, &str, &str)], dangling: &[(&str, &str, &str)]) -> ExpandGraph {
    let mut x = ExpandGraph::from_graph(graph(vs, es));
    let edges: Vec<DataEdge> = dangling.iter().map(|(e, s, d)| edge(e, s, d)).collect();
    let pats: Vec<String> = dangling.iter().map(|(e, _, _)| format!("p{}", e)).collect();
    x.update_valid_dangling_edges(&edges, &pats);
    x
}

fn pending_keys(x: &ExpandGraph) -> Vec<String> {
    let m = &x.pending_v_grouped_dangling_eids;
    (0..m.len()).map(|i| m.get_index(i).unwrap().0.clone()).collect()
}

fn strings(v: &[&str]) -> Vec<String> {
    v.iter().map(|s| s.to_string()).collect()
}

#[test]
fn dangling_edges_are_filed_under_their_outside_end() {
    let x = expansion(
        &["1", "2"],
        &[("e12", "1", "2")],
        &[("e14", "1", "4"), ("e12", "1", "2"), ("e31", "3", "1"), ("e56", "5", "6"), ("e23", "2", "3"), ("e21", "2", "1")],
    );
    assert_eq!(pending_keys(&x), strings(&["4", "3"]));
    assert_eq!(x.pending_v_grouped_dangling_eids.get("3"), Some(&strings(&["e31", "e23"])));
    assert_eq!(x.pending_v_grouped_dangling_eids.get("4"), Some(&strings(&["e14"])));
    assert!(x.dangling_e_entities.get("e12").is_none());
    assert!(x.dangling_e_entities.get("e56").is_none());
    assert!(x.dangling_e_entities.get("e21").is_none());
    assert_eq!(x.dangling_e_patterns.get("e23"), Some(&"pe23".to_string()));
}

#[test]
fn sorting_orders_pending_vertices() {
    let mut x = expansion(&["1"], &[], &[("a", "1", "9"), ("b", "1", "10"), ("c", "1", "2")]);
    assert_eq!(pending_keys(&x), strings(&["9", "10", "2"]));
    x.sort_key_after_update_valid_target_vertices();
    assert_eq!(pending_keys(&x), strings(&["10", "2", "9"]));
    assert_eq!(x.pending_v_grouped_dangling_eids.get("9"), Some(&strings(&["a"])));
}

#[test]
fn target_vertices_are_the_loaded_pending_ones() {
    let mut x = expansion(&["1", "2"], &[], &[("e13", "1", "3"), ("e24", "2", "4"), ("e23", "2", "3")]);
    x.sort_key_after_update_valid_target_vertices();
    let pairs = vec![
        (vertex("1"), "pX".to_string()),
        (vertex("3"), "v3".to_string()),
        (vertex("5"), "v5".to_string()),
    ];
    let found = x.update_valid_target_vertices(&pairs);
    assert_eq!(found, strings(&["3"]));
    assert_eq!(x.target_vs, strings(&["3"]));
    assert_eq!(x.target_v_patterns.get("3"), Some(&"v3".to_string()));
    let g = x.into_dyn_graph();
    assert!(g.has_vid("3"));
    assert!(!g.has_vid("4"));
    assert!(g.has_eid("e13"));
    assert!(g.has_eid("e23"));
    assert!(!g.has_eid("e24"));
    assert_eq!(g.v_patterns.get("3"), Some(&"v3".to_string()));
    assert_eq!(g.e_patterns.get("e23"), Some(&"pe23".to_string()));
}

#[test]
fn no_targets_when_nothing_is_loaded() {
    let mut x = expansion(&["1"], &[], &[("e13", "1", "3")]);
    x.sort_key_after_update_valid_target_vertices();
    assert!(x.update_valid_target_vertices(&[]).is_empty());
    let g = x.into_dyn_graph();
    assert!(g.has_vid("1"));
    assert!(!g.has_vid("3"));
    assert!(!g.has_eid("e13"));
}

#[test]
fn target_walk_on_unsorted_pending_vertices() {
    let mut x = expansion(&["1"], &[], &[("a", "1", "9"), ("b", "1", "3")]);
    assert_eq!(pending_keys(&x), strings(&["9", "3"]));
    let pairs = vec![(vertex("3"), "v3".to_string()), (vertex("9"), "v9".to_string())];
    let found = x.update_valid_target_vertices(&pairs);
    assert_eq!(found, strings(&["9"]));
    assert_eq!(x.target_vs, strings(&["9"]));
    assert_eq!(x.target_v_patterns.get("9"), Some(&"v9".to_string()));
    assert!(x.target_v_patterns.get("3").is_none());
    assert_eq!(pending_keys(&x), strings(&["9", "3"]));
}

#[test]
fn no_pairs_change_nothing_on_unsorted_pending_vertices() {
    let mut x = expansion(&["1"], &[], &[("a", "1", "9"), ("b", "1", "3")]);
    assert!(x.update_valid_target_vertices(&[]).is_empty());
    assert!(x.target_vs.is_empty());
    assert_eq!(pending_keys(&x), strings(&["9", "3"]));
}

#[test]
fn nothing_pending_takes_no_targets() {
    let mut x = expansion(&["1"], &[], &[]);
    let pairs = vec![(vertex("3"), "v3".to_string())];
    assert!(x.update_valid_target_vertices(&pairs).is_empty());
    assert!(x.target_vs.is_empty());
    assert!(x.target_v_patterns.get("3").is_none());
}

#[test]
fn common_pending_vertex() {
    let l = expansion(&["1"], &[], &[("e13", "1", "3")]);
    let r = expansion(&["2"], &[], &[("e23", "2", "3"), ("e24", "2", "4")]);
    let s = expansion(&["2"], &[], &[("e25", "2", "5")]);
    assert!(l.has_common_pending_v(&r));
    assert!(r.has_common_pending_v(&l));
    assert!(!l.has_common_pending_v(&s));
    assert!(!s.has_common_pending_v(&l));
}

#[test]
fn meet_on_a_common_vertex() {
    let mut l = expansion(&["1"], &[], &[("e13", "1", "3")]);
    let mut r = expansion(&["2"], &[], &[("e23", "2", "3"), ("e24", "2", "4")]);
    l.sort_key_after_update_valid_target_vertices();
    r.sort_key_after_update_valid_target_vertices();
    let met = union_then_intersect_on_connective_v(&l, &r);
    assert_eq!(met.len(), 1);
    let m = &met[0];
    assert!(m.dyn_graph.has_vid("1"));
    assert!(m.dyn_graph.has_vid("2"));
    assert_eq!(pending_keys(m), strings(&["3"]));
    assert_eq!(m.pending_v_grouped_dangling_eids.get("3"), Some(&strings(&["e13", "e23"])));
    assert!(m.dangling_e_entities.get("e24").is_none());
}

#[test]
fn meet_is_empty_iff_nothing_in_common() {
    let mut l = expansion(&["1"], &[], &[("e13", "1", "3"), ("e17", "1", "7")]);
    let mut r = expansion(&["2"], &[], &[("e25", "2", "5")]);
    let mut s = expansion(&["2"], &[], &[("e27", "2", "7"), ("e23", "2", "3")]);
    l.sort_key_after_update_valid_target_vertices();
    r.sort_key_after_update_valid_target_vertices();
    s.sort_key_after_update_valid_target_vertices();
    assert!(!l.has_common_pending_v(&r));
    assert!(union_then_intersect_on_connective_v(&l, &r).is_empty());
    assert!(l.has_common_pending_v(&s));
    let met = union_then_intersect_on_connective_v(&l, &s);
    assert_eq!(met.len(), 2);
    assert_eq!(pending_keys(&met[0]), strings(&["3"]));
    assert_eq!(pending_keys(&met[1]), strings(&["7"]));
}

#[test]
fn meet_with_empty_side_is_empty() {
    let l = expansion(&["1"], &[], &[]);
    let mut r = expansion(&["2"], &[], &[("e23", "2", "3")]);
    r.sort_key_after_update_valid_target_vertices();
    assert!(union_then_intersect_on_connective_v(&l, &r).is_empty());
    assert!(union_then_intersect_on_connective_v(&r, &l).is_empty());
}

#[test]
fn dangling_edges_of_ids() {
    let x = expansion(&["1"], &[], &[("e13", "1", "3"), ("e14", "1", "4")]);
    let (es, ps) = x.dangling_edges_of(&strings(&["e14", "e13"]));
    assert_eq!(es.iter().map(|e| e.eid.clone()).collect::<Vec<_>>(), strings(&["e14", "e13"]));
    assert_eq!(ps, strings(&["pe14", "pe13"]));
}

#[test]
fn dangling_update_hands_back_kept_edges() {
    let mut x = ExpandGraph::from_graph(graph(&["1", "2"], &[("e12", "1", "2")]));
    let edges = vec![edge("e14", "1", "4"), edge("e12", "1", "2"), edge("e56", "5", "6"), edge("e31", "3", "1"), edge("e21", "2", "1")];
    let pats: Vec<String> = edges.iter().map(|e| format!("p{}", e.eid)).collect();
    let kept = x.update_valid_dangling_edges(&edges, &pats);
    assert_eq!(kept.iter().map(|e| e.eid.clone()).collect::<Vec<_>>(), strings(&["e14", "e31"]));
    assert!(x.update_valid_dangling_edges(&vec![], &vec![]).is_empty());
}

#[test]
fn meet_walks_unsorted_pending_vertices_side_by_side() {
    let l = expansion(&["1"], &[], &[("e19", "1", "9"), ("e13", "1", "3")]);
    let r = expansion(&["2"], &[], &[("e23", "2", "3"), ("e29", "2", "9")]);
    assert_eq!(pending_keys(&l), strings(&["9", "3"]));
    let met = union_then_intersect_on_connective_v(&l, &r);
    assert_eq!(met.len(), 1);
    assert_eq!(pending_keys(&met[0]), strings(&["9"]));
    assert_eq!(met[0].pending_v_grouped_dangling_eids.get("9"), Some(&strings(&["e19", "e29"])));
}

#[test]
fn sorting_twice_changes_nothing() {
    let mut x = expansion(&["1"], &[], &[("a", "1", "9"), ("b", "1", "10"), ("c", "1", "2")]);
    x.sort_key_after_update_valid_target_vertices();
    let once = pending_keys(&x);
    x.sort_key_after_update_valid_target_vertices();
    assert_eq!(pending_keys(&x), once);
}
