use ember_sgm_backend::dyn_graph::DynGraph;
use ember_sgm_backend::keys::{compare_keys, same_key, KeyOrder};
use ember_sgm_backend::schemas::{
    satisfies_pattern, AttrOp, AttrValue, DataEdge, DataVertex, PatternAttr, PatternVertex,
};
use ember_sgm_backend::vars::{parse_var_prefix, resolve_var, resolve_var_name, VarPrefix, STR_TUPLE_SPLITTER};

fn vertex(vid: &str, label: &str, attrs: Vec<(&str, AttrValue)>) -> DataVertex {
    DataVertex {
        vid: vid.to_string(),
        label: label.to_string(),
        attrs: attrs.into_iter().map(|(k, v)| (k.to_string(), v)).collect(),
    }
}

fn edge(eid: &str, src: &str, dst: &str, label: &str) -> DataEdge {
    DataEdge {
        eid: eid.to_string(),
        src_vid: src.to_string(),
        dst_vid: dst.to_string(),
        label: label.to_string(),
        attrs: vec![],
    }
}

fn graph(vs: &[(&str, &str)], es: &[(&str, &str, &str, &str)]) -> DynGraph {
    let mut g = DynGraph::new();
    for (vid, pat) in vs {
        g.update_v(vertex(vid, "L", vec![]), pat.to_string());
    }
    for (eid, src, dst, pat) in es {
        g.update_e(edge(eid, src, dst, "E"), pat.to_string());
    }
    g
}

fn sorted_keys(mut ks: Vec<String>) -> Vec<String> {
    ks.sort();
    ks
}

#[test]
fn resolve_var_splits_prefix_and_name() {
    let (p, name) = resolve_var("f@v1");
    assert_eq!(p, VarPrefix::FBlock);
    assert_eq!(name, "v1");
    let (p, name) = resolve_var("t@u2@extra");
    assert_eq!(p, VarPrefix::TBlock);
    assert_eq!(name, "u2");
}

#[test]
fn resolve_var_name_takes_second_part() {
    assert_eq!(resolve_var_name("a@v3"), "v3");
    assert_eq!(resolve_var_name("c@"), "");
    assert_eq!(resolve_var_name("x@y@z"), "y");
}

#[test]
fn var_round_trip() {
    for (prefix, expected) in [("f", VarPrefix::FBlock), ("a", VarPrefix::ABlock), ("c", VarPrefix::CBlock), ("t", VarPrefix::TBlock)] {
        let var = format!("{}{}{}", prefix, STR_TUPLE_SPLITTER, "vx");
        let (p, name) = resolve_var(&var);
        assert_eq!(p, expected);
        assert_eq!(name, "vx");
    }
}

#[test]
fn parse_var_prefix_rejects_unknown() {
    assert_eq!(parse_var_prefix("f"), Some(VarPrefix::FBlock));
    assert_eq!(parse_var_prefix("q"), None);
    assert_eq!(parse_var_prefix("ff"), None);
    assert_eq!(parse_var_prefix(""), None);
}

#[test]
fn compare_keys_is_byte_order() {
    assert_eq!(compare_keys("a", "b"), KeyOrder::Less);
    assert_eq!(compare_keys("b", "a"), KeyOrder::Greater);
    assert_eq!(compare_keys("ab", "ab"), KeyOrder::Equal);
    assert_eq!(compare_keys("ab", "abc"), KeyOrder::Less);
    assert_eq!(compare_keys("Z", "a"), KeyOrder::Less);
    assert_eq!(compare_keys("é", "z"), KeyOrder::Greater);
    assert!(same_key("v1", "v1"));
    assert!(!same_key("v1", "v2"));
}

#[test]
fn satisfies_pattern_checks_label_and_attr() {
    let plain = PatternVertex { vid: "v1".to_string(), label: "Person".to_string(), attr: None };
    let aged = PatternVertex {
        vid: "v2".to_string(),
        label: "Person".to_string(),
        attr: Some(PatternAttr { key: "age".to_string(), op: AttrOp::Ge, value: AttrValue::Int(30) }),
    };
    let named = PatternVertex {
        vid: "v3".to_string(),
        label: "Person".to_string(),
        attr: Some(PatternAttr { key: "name".to_string(), op: AttrOp::Eq, value: AttrValue::Str("Ann".to_string()) }),
    };
    let ann = vertex("1", "Person", vec![("name", AttrValue::Str("Ann".to_string())), ("age", AttrValue::Int(31))]);
    let bob = vertex("2", "Person", vec![("age", AttrValue::Int(29))]);
    let city = vertex("3", "City", vec![]);
    let bare = vertex("4", "Person", vec![]);
    assert!(satisfies_pattern(&plain, &ann));
    assert!(!satisfies_pattern(&plain, &city));
    assert!(satisfies_pattern(&aged, &ann));
    assert!(!satisfies_pattern(&aged, &bob));
    assert!(!satisfies_pattern(&aged, &bare));
    assert!(satisfies_pattern(&named, &ann));
    assert!(!satisfies_pattern(&named, &bob));
}

#[test]
fn operate_on_compares_values() {
    assert!(AttrOp::Lt.operate_on(&AttrValue::Int(1), &AttrValue::Int(2)));
    assert!(!AttrOp::Gt.operate_on(&AttrValue::Int(1), &AttrValue::Int(2)));
    assert!(AttrOp::Le.operate_on(&AttrValue::Str("a".to_string()), &AttrValue::Str("a".to_string())));
    assert!(AttrOp::Gt.operate_on(&AttrValue::Str("b".to_string()), &AttrValue::Str("a".to_string())));
    assert!(AttrOp::Lt.operate_on(&AttrValue::Bool(false), &AttrValue::Bool(true)));
    assert!(AttrOp::Ne.operate_on(&AttrValue::Int(1), &AttrValue::Str("1".to_string())));
    assert!(!AttrOp::Eq.operate_on(&AttrValue::Int(1), &AttrValue::Str("1".to_string())));
}

#[test]
fn dyn_graph_updates_and_queries() {
    let mut g = graph(&[("1", "v1"), ("2", "v2")], &[]);
    assert!(g.has_vid("1"));
    assert!(!g.has_vid("3"));
    g.update_e(edge("e1", "1", "3", "E"), "e1".to_string());
    assert!(g.has_eid("e1"));
    assert!(g.has_e_pattern("e1"));
    assert!(!g.has_e_pattern("e2"));
    let e = edge("e2", "2", "9", "E");
    let (s, d) = g.pick_e_connective_vid(&e);
    assert_eq!(s, Some(&"2".to_string()));
    assert_eq!(d, None);
}

#[test]
fn union_prefers_right() {
    let a = graph(&[("1", "v1"), ("2", "v2")], &[("e1", "1", "2", "e1")]);
    let b = graph(&[("2", "vX"), ("3", "v3")], &[]);
    let u = a.union(b);
    assert_eq!(sorted_keys(u.v_entities.keys()), vec!["1", "2", "3"]);
    assert_eq!(u.v_patterns.get("2"), Some(&"vX".to_string()));
    assert_eq!(u.v_patterns.get("1"), Some(&"v1".to_string()));
    assert!(u.has_eid("e1"));
}

#[test]
fn union_identity_and_idempotence() {
    let a = graph(&[("1", "v1")], &[("e1", "1", "2", "e1")]);
    let u = a.duplicate().union(DynGraph::new());
    assert_eq!(sorted_keys(u.v_entities.keys()), vec!["1"]);
    assert_eq!(sorted_keys(u.e_entities.keys()), vec!["e1"]);
    let u2 = DynGraph::new().union(a.duplicate());
    assert_eq!(sorted_keys(u2.v_entities.keys()), vec!["1"]);
    let u3 = a.duplicate().union(a.duplicate());
    assert_eq!(sorted_keys(u3.v_entities.keys()), vec!["1"]);
    assert_eq!(u3.e_patterns.get("e1"), Some(&"e1".to_string()));
}

#[test]
fn union_associative() {
    let a = graph(&[("1", "a")], &[]);
    let b = graph(&[("1", "b"), ("2", "b")], &[]);
    let c = graph(&[("2", "c"), ("3", "c")], &[]);
    let left = a.duplicate().union(b.duplicate()).union(c.duplicate());
    let right = a.union(b.union(c));
    for k in ["1", "2", "3"] {
        assert_eq!(left.v_patterns.get(k), right.v_patterns.get(k));
    }
    assert_eq!(left.v_patterns.get("1"), Some(&"b".to_string()));
    assert_eq!(left.v_patterns.get("2"), Some(&"c".to_string()));
}
