use ember_sgm_backend::cypher::{
    collapse_whitespace, get_v_query, load_e_query, load_e_with_dst_query, load_e_with_src_query, load_v_query,
};
use ember_sgm_backend::dump::{cell, merge_columns, plan_columns, pre_dump};
use ember_sgm_backend::dyn_graph::DynGraph;
use ember_sgm_backend::maps::{PatternEdgeMap, PatternVertexMap};
use ember_sgm_backend::schemas::{
    AttrOp, AttrValue, DataEdge, DataVertex, PatternAttr, PatternEdge, PatternVertex, PlanData,
};

fn attr(key: &str, op: AttrOp, value: AttrValue) -> PatternAttr {
    PatternAttr { key: key.to_string(), op, value }
}

const EDGE_RETURN: &str =
    "RETURN elementId(e) AS eid, properties(e) AS props, elementId(src) AS src_vid, elementId(dst) AS dst_vid";

#[test]
fn collapse_joins_words_by_single_spaces() {
    assert_eq!(collapse_whitespace("  a \t b\n\nc  "), "a b c");
    assert_eq!(collapse_whitespace(""), "");
    assert_eq!(collapse_whitespace(" \n "), "");
    assert_eq!(collapse_whitespace("one"), "one");
    assert_eq!(collapse_whitespace("x\u{3000}y\u{a0}z"), "x y z");
}

#[test]
fn constraints_render_each_operator_and_value() {
    assert_eq!(attr("age", AttrOp::Ge, AttrValue::Int(30)).to_neo4j_constraint("v"), "v.age >= 30");
    assert_eq!(attr("age", AttrOp::Lt, AttrValue::Int(-7)).to_neo4j_constraint("v"), "v.age < -7");
    assert_eq!(attr("n", AttrOp::Eq, AttrValue::Int(0)).to_neo4j_constraint("e"), "e.n = 0");
    assert_eq!(
        attr("n", AttrOp::Ne, AttrValue::Int(i64::MIN)).to_neo4j_constraint("e"),
        "e.n <> -9223372036854775808"
    );
    assert_eq!(
        attr("name", AttrOp::Le, AttrValue::Str("Ann".to_string())).to_neo4j_constraint("v"),
        "v.name <= 'Ann'"
    );
    assert_eq!(attr("ok", AttrOp::Gt, AttrValue::Bool(true)).to_neo4j_constraint("v"), "v.ok > true");
    assert_eq!(attr("ok", AttrOp::Eq, AttrValue::Bool(false)).to_neo4j_constraint("v"), "v.ok = false");
}

#[test]
fn vertex_queries() {
    assert_eq!(
        get_v_query("4:ab:12"),
        "MATCH (v) WHERE elementId(v) = '4:ab:12' RETURN properties(v) as props, labels(v) as v_label"
    );
    assert_eq!(
        load_v_query("Person", None),
        "MATCH (v:Person) RETURN properties(v) as props, elementId(v) as vid"
    );
    let a = attr("city", AttrOp::Eq, AttrValue::Str("New  York".to_string()));
    assert_eq!(
        load_v_query("Person", Some(&a)),
        "MATCH (v:Person) WHERE v.city = 'New York' RETURN properties(v) as props, elementId(v) as vid"
    );
}

#[test]
fn edge_queries() {
    assert_eq!(load_e_query("knows", None), format!("MATCH (src)-[e:knows]->(dst) {}", EDGE_RETURN));
    let a = attr("since", AttrOp::Gt, AttrValue::Int(2010));
    assert_eq!(
        load_e_query("knows", Some(&a)),
        format!("MATCH (src)-[e:knows]->(dst) WHERE e.since > 2010 {}", EDGE_RETURN)
    );
    assert_eq!(
        load_e_with_src_query("7", "knows", Some(&a)),
        format!("MATCH (src)-[e:knows]->(dst) WHERE elementId(src) = '7' AND e.since > 2010 {}", EDGE_RETURN)
    );
    assert_eq!(
        load_e_with_dst_query("8", "likes", None),
        format!("MATCH (src)-[e:likes]->(dst) WHERE elementId(dst) = '8' {}", EDGE_RETURN)
    );
}

fn entry(name: &str, cells: &[&str]) -> (String, Vec<String>) {
    (name.to_string(), cells.iter().map(|c| c.to_string()).collect())
}

#[test]
fn columns_merge_by_ascending_name() {
    let all = vec![
        vec![entry("v2", &["b"]), entry("v1", &["a"])],
        vec![entry("v1", &["c"]), entry("e1", &[])],
        vec![entry("v1", &["d", "e"])],
    ];
    let cols = merge_columns(all);
    assert_eq!(cols, vec![entry("e1", &[]), entry("v1", &["a", "c", "d", "e"]), entry("v2", &["b"])]);
    assert!(merge_columns(vec![]).is_empty());
    assert!(merge_columns(vec![vec![]]).is_empty());
}

#[test]
fn plan_columns_list_vertices_then_edges() {
    let mut pvs = PatternVertexMap::new();
    for v in ["v1", "v2"] {
        pvs.insert(v.to_string(), PatternVertex { vid: v.to_string(), label: "L".to_string(), attr: None });
    }
    let mut pes = PatternEdgeMap::new();
    pes.insert(
        "e1".to_string(),
        PatternEdge {
            eid: "e1".to_string(),
            src_vid: "v1".to_string(),
            dst_vid: "v2".to_string(),
            label: "E".to_string(),
            attr: None,
        },
    );
    let plan = PlanData { pattern_vs: pvs, pattern_es: pes, instructions: vec![] };
    let cols = plan_columns(&plan);
    assert_eq!(cols.len(), 3);
    let mut first: Vec<String> = cols[..2].to_vec();
    first.sort();
    assert_eq!(first, vec!["v1".to_string(), "v2".to_string()]);
    assert_eq!(cols[2], "e1");
}

#[test]
fn cells_of_a_match() {
    let mut g = DynGraph::new();
    g.update_v(
        DataVertex { vid: "7".to_string(), label: "Person".to_string(), attrs: vec![] },
        "v1".to_string(),
    );
    g.update_e(
        DataEdge {
            eid: "e9".to_string(),
            src_vid: "7".to_string(),
            dst_vid: "8".to_string(),
            label: "knows".to_string(),
            attrs: vec![],
        },
        "e1".to_string(),
    );
    assert_eq!(pre_dump(&g, false, false), vec![entry("v1", &["7"]), entry("e1", &["e9"])]);
    assert_eq!(pre_dump(&g, true, false), vec![entry("v1", &["Person:7"]), entry("e1", &["knows:e9"])]);
    assert_eq!(cell("7", "Person", false, true), "\u{1b}[1m7\u{1b}[0m");
    assert_eq!(cell("7", "Person", true, true), "\u{1b}[1mPerson:7\u{1b}[0m");
}

#[test]
fn collapsing_twice_is_collapsing_once() {
    for s in ["  a \t b\n\nc  ", "", "x\u{3000}y\u{a0}z", "MATCH (v)\n  RETURN v"] {
        let once = collapse_whitespace(s);
        assert_eq!(collapse_whitespace(&once), once);
    }
    assert_eq!(collapse_whitespace("MATCH (v)\n  RETURN v"), "MATCH (v) RETURN v");
}
