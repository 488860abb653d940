//! The data that a matching plan speaks of: pattern vertices and edges with
//! their attribute constraints, data vertices and edges, and instructions.

use vstd::prelude::*;
use crate::keys::{compare_keys, key_lt, lemma_key_order, same_key, KeyOrder};
use crate::maps::{pattern_edge_items, pattern_vertex_items, PatternEdgeMap, PatternVertexMap};

verus! {

/// The id of a vertex.
pub type Vid = String;

/// The id of an edge.
pub type Eid = String;

/// A value of a vertex or edge attribute.
#[derive(Clone, Debug)]
pub enum AttrValue {
    Int(i64),
    Str(String),
    Bool(bool),
}

/// How a pattern attribute constrains a data attribute.
#[derive(Clone, Copy, Debug, PartialEq, Eq, Structural)]
pub enum AttrOp {
    Eq,
    Ne,
    Lt,
    Le,
    Gt,
    Ge,
}

/// A constraint on one attribute: `<key> <op> <value>`.
#[derive(Clone, Debug)]
pub struct PatternAttr {
    pub key: String,
    pub op: AttrOp,
    pub value: AttrValue,
}

/// A vertex of the pattern graph.
#[derive(Clone, Debug)]
pub struct PatternVertex {
    pub vid: Vid,
    pub label: String,
    pub attr: Option<PatternAttr>,
}

/// An edge of the pattern graph.
#[derive(Clone, Debug)]
pub struct PatternEdge {
    pub eid: Eid,
    pub src_vid: Vid,
    pub dst_vid: Vid,
    pub label: String,
    pub attr: Option<PatternAttr>,
}

/// A vertex of the data graph.
#[derive(Clone, Debug)]
pub struct DataVertex {
    pub vid: Vid,
    pub label: String,
    pub attrs: Vec<(String, AttrValue)>,
}

/// An edge of the data graph.
#[derive(Clone, Debug)]
pub struct DataEdge {
    pub eid: Eid,
    pub src_vid: Vid,
    pub dst_vid: Vid,
    pub label: String,
    pub attrs: Vec<(String, AttrValue)>,
}

/// The kinds of plan instructions.
#[derive(Clone, Copy, Debug, PartialEq, Eq, Structural)]
pub enum InstructionType {
    Init,
    GetAdj,
    Intersect,
    Foreach,
    TCache,
    Report,
}

/// One step of a matching plan.
#[derive(Clone, Debug)]
pub struct Instruction {
    pub vid: Vid,
    pub type_: InstructionType,
    pub expand_eids: Vec<Eid>,
    pub single_op: Option<String>,
    pub multi_ops: Vec<String>,
    pub target_var: String,
    pub depend_on: Vec<String>,
}

/// A matching plan: the pattern graph and the instructions that match it.
pub struct PlanData {
    pub pattern_vs: PatternVertexMap,
    pub pattern_es: PatternEdgeMap,
    pub instructions: Vec<Instruction>,
}

impl AttrValue {
    /// A copy of the value.
    pub fn duplicate(&self) -> (r: Self)
        ensures
            r == *self,
    {
        match self {
            AttrValue::Int(i) => AttrValue::Int(*i),
            AttrValue::Str(s) => AttrValue::Str(s.clone()),
            AttrValue::Bool(b) => AttrValue::Bool(*b),
        }
    }
}

/// A copy of a list of attributes.
pub fn duplicate_attrs(attrs: &Vec<(String, AttrValue)>) -> (r: Vec<(String, AttrValue)>)
    ensures
        r@ == attrs@,
{
    let mut r: Vec<(String, AttrValue)> = Vec::new();
    let mut i: usize = 0;
    while i < attrs.len()
        invariant
            i <= attrs.len(),
            r@ == attrs@.take(i as int),
        decreases attrs.len() - i,
    {
        let k = attrs[i].0.clone();
        let v = attrs[i].1.duplicate();
        r.push((k, v));
        assert(attrs@.take(i + 1) =~= attrs@.take(i as int).push(attrs@[i as int]));
        i = i + 1;
    }
    assert(attrs@.take(attrs@.len() as int) =~= attrs@);
    r
}

/// A copy of a list of strings.
pub fn duplicate_strings(v: &Vec<String>) -> (r: Vec<String>)
    ensures
        r@ == v@,
{
    let mut r: Vec<String> = Vec::new();
    let mut i: usize = 0;
    while i < v.len()
        invariant
            i <= v.len(),
            r@ == v@.take(i as int),
        decreases v.len() - i,
    {
        r.push(v[i].clone());
        assert(v@.take(i + 1) =~= v@.take(i as int).push(v@[i as int]));
        i = i + 1;
    }
    assert(v@.take(v@.len() as int) =~= v@);
    r
}

/// What a data vertex holds: its id, label and attributes.
pub type VertexView = (Seq<char>, Seq<char>, Seq<(String, AttrValue)>);

/// What a data edge holds: its id, source, target, label and attributes.
pub type EdgeView = (Seq<char>, Seq<char>, Seq<char>, Seq<char>, Seq<(String, AttrValue)>);

impl View for DataVertex {
    type V = VertexView;

    open spec fn view(&self) -> VertexView {
        (self.vid@, self.label@, self.attrs@)
    }
}

impl View for DataEdge {
    type V = EdgeView;

    open spec fn view(&self) -> EdgeView {
        (self.eid@, self.src_vid@, self.dst_vid@, self.label@, self.attrs@)
    }
}

impl DataVertex {
    /// A copy of the vertex.
    pub fn duplicate(&self) -> (r: Self)
        ensures
            r@ == self@,
    {
        DataVertex {
            vid: self.vid.clone(),
            label: self.label.clone(),
            attrs: duplicate_attrs(&self.attrs),
        }
    }
}

impl DataEdge {
    /// A copy of the edge.
    pub fn duplicate(&self) -> (r: Self)
        ensures
            r@ == self@,
    {
        DataEdge {
            eid: self.eid.clone(),
            src_vid: self.src_vid.clone(),
            dst_vid: self.dst_vid.clone(),
            label: self.label.clone(),
            attrs: duplicate_attrs(&self.attrs),
        }
    }
}

impl PatternAttr {
    /// A copy of the constraint.
    pub fn duplicate(&self) -> (r: Self)
        ensures
            r == *self,
    {
        PatternAttr { key: self.key.clone(), op: self.op, value: self.value.duplicate() }
    }
}

/// A copy of an optional constraint.
pub fn duplicate_attr(a: &Option<PatternAttr>) -> (r: Option<PatternAttr>)
    ensures
        r == *a,
{
    match a {
        Some(x) => Some(x.duplicate()),
        None => None,
    }
}

impl PatternVertex {
    /// A copy of the pattern vertex.
    pub fn duplicate(&self) -> (r: Self)
        ensures
            r == *self,
    {
        PatternVertex { vid: self.vid.clone(), label: self.label.clone(), attr: duplicate_attr(&self.attr) }
    }
}

impl PatternEdge {
    /// A copy of the pattern edge.
    pub fn duplicate(&self) -> (r: Self)
        ensures
            r == *self,
    {
        PatternEdge {
            eid: self.eid.clone(),
            src_vid: self.src_vid.clone(),
            dst_vid: self.dst_vid.clone(),
            label: self.label.clone(),
            attr: duplicate_attr(&self.attr),
        }
    }
}

impl PlanData {
    /// The pattern vertices, by id.
    pub open spec fn pvs(&self) -> Map<Seq<char>, PatternVertex> {
        pattern_vertex_items(self.pattern_vs)
    }

    /// The pattern edges, by id.
    pub open spec fn pes(&self) -> Map<Seq<char>, PatternEdge> {
        pattern_edge_items(self.pattern_es)
    }

    /// A plan with no pattern and no instruction.
    pub fn new() -> (r: Self)
        ensures
            r.pvs().dom() == Set::<Seq<char>>::empty(),
            r.pes().dom() == Set::<Seq<char>>::empty(),
            r.instructions@ == Seq::<Instruction>::empty(),
    {
        PlanData { pattern_vs: PatternVertexMap::new(), pattern_es: PatternEdgeMap::new(), instructions: Vec::new() }
    }

    /// Puts the pattern vertex under the id.
    pub fn insert_pattern_v(&mut self, vid: String, v: PatternVertex)
        ensures
            final(self).pvs() == old(self).pvs().insert(vid@, v),
            final(self).pes() == old(self).pes(),
            final(self).instructions == old(self).instructions,
    {
        self.pattern_vs.insert(vid, v);
    }

    /// Puts the pattern edge under the id.
    pub fn insert_pattern_e(&mut self, eid: String, e: PatternEdge)
        ensures
            final(self).pes() == old(self).pes().insert(eid@, e),
            final(self).pvs() == old(self).pvs(),
            final(self).instructions == old(self).instructions,
    {
        self.pattern_es.insert(eid, e);
    }

    /// A copy of the plan.
    pub fn duplicate(&self) -> (r: Self)
        ensures
            r.pvs() == self.pvs(),
            r.pes() == self.pes(),
            r.instructions@.len() == self.instructions@.len(),
    {
        PlanData {
            pattern_vs: self.pattern_vs.duplicate(),
            pattern_es: self.pattern_es.duplicate(),
            instructions: self.instructions.clone(),
        }
    }
}

/// The value of the first attribute with the given key, if any.
pub open spec fn attr_lookup(attrs: Seq<(String, AttrValue)>, key: Seq<char>) -> Option<AttrValue>
    decreases attrs.len(),
{
    if attrs.len() == 0 {
        None
    } else if attrs[0].0@ == key {
        Some(attrs[0].1)
    } else {
        attr_lookup(attrs.drop_first(), key)
    }
}

/// Whether `data <op> pattern` holds. Values of different kinds only satisfy
/// `Ne`; strings are ordered as ids are, booleans with `false` first.
pub open spec fn op_holds(op: AttrOp, data: AttrValue, pattern: AttrValue) -> bool {
    match (data, pattern) {
        (AttrValue::Int(a), AttrValue::Int(b)) => match op {
            AttrOp::Eq => a == b,
            AttrOp::Ne => a != b,
            AttrOp::Lt => a < b,
            AttrOp::Le => a <= b,
            AttrOp::Gt => a > b,
            AttrOp::Ge => a >= b,
        },
        (AttrValue::Str(a), AttrValue::Str(b)) => match op {
            AttrOp::Eq => a@ == b@,
            AttrOp::Ne => a@ != b@,
            AttrOp::Lt => key_lt(a@, b@),
            AttrOp::Le => key_lt(a@, b@) || a@ == b@,
            AttrOp::Gt => key_lt(b@, a@),
            AttrOp::Ge => key_lt(b@, a@) || a@ == b@,
        },
        (AttrValue::Bool(a), AttrValue::Bool(b)) => match op {
            AttrOp::Eq => a == b,
            AttrOp::Ne => a != b,
            AttrOp::Lt => !a && b,
            AttrOp::Le => !a || b,
            AttrOp::Gt => a && !b,
            AttrOp::Ge => a || !b,
        },
        _ => op == AttrOp::Ne,
    }
}

/// On integers each operator is the integer relation of its name: `Eq` is
/// `==`, `Ne` is `!=`, `Lt` is `<`, `Le` is `<=`, `Gt` is `>`, `Ge` is `>=`.
pub proof fn law_int_ops_are_integer_relations(a: i64, b: i64)
    ensures
        op_holds(AttrOp::Eq, AttrValue::Int(a), AttrValue::Int(b)) <==> a == b,
        op_holds(AttrOp::Ne, AttrValue::Int(a), AttrValue::Int(b)) <==> a != b,
        op_holds(AttrOp::Lt, AttrValue::Int(a), AttrValue::Int(b)) <==> a < b,
        op_holds(AttrOp::Le, AttrValue::Int(a), AttrValue::Int(b)) <==> a <= b,
        op_holds(AttrOp::Gt, AttrValue::Int(a), AttrValue::Int(b)) <==> a > b,
        op_holds(AttrOp::Ge, AttrValue::Int(a), AttrValue::Int(b)) <==> a >= b,
{
}

/// How the operators relate on any two values: `Le` is `Lt` or `Eq`, `Ne`
/// is not `Eq`, and `Gt` and `Ge` are `Lt` and `Le` with the sides swapped.
pub proof fn law_ops_relate(x: AttrValue, y: AttrValue)
    ensures
        op_holds(AttrOp::Le, x, y) <==> (op_holds(AttrOp::Lt, x, y) || op_holds(AttrOp::Eq, x, y)),
        op_holds(AttrOp::Ne, x, y) <==> !op_holds(AttrOp::Eq, x, y),
        op_holds(AttrOp::Gt, x, y) <==> op_holds(AttrOp::Lt, y, x),
        op_holds(AttrOp::Ge, x, y) <==> op_holds(AttrOp::Le, y, x),
        op_holds(AttrOp::Eq, x, y) <==> op_holds(AttrOp::Eq, y, x),
{
    match (x, y) {
        (AttrValue::Str(a), AttrValue::Str(b)) => {
            lemma_key_order(a@, b@, b@);
            lemma_key_order(b@, a@, a@);
        },
        _ => {},
    }
}

/// Whether a data vertex satisfies a pattern vertex: the labels agree and,
/// where the pattern constrains an attribute, the vertex has it and it holds.
pub open spec fn spec_satisfies_pattern(pat_v: PatternVertex, data_v: DataVertex) -> bool {
    &&& pat_v.label@ == data_v.label@
    &&& match pat_v.attr {
        None => true,
        Some(a) => match attr_lookup(data_v.attrs@, a.key@) {
            None => false,
            Some(v) => op_holds(a.op, v, a.value),
        },
    }
}

impl AttrOp {
    /// Whether `data <self> pattern` holds.
    pub fn operate_on(&self, data: &AttrValue, pattern: &AttrValue) -> (r: bool)
        ensures
            r == op_holds(*self, *data, *pattern),
            (match (*data, *pattern) {
                (AttrValue::Int(a), AttrValue::Int(b)) => r <==> match *self {
                    AttrOp::Eq => a == b,
                    AttrOp::Ne => a != b,
                    AttrOp::Lt => a < b,
                    AttrOp::Le => a <= b,
                    AttrOp::Gt => a > b,
                    AttrOp::Ge => a >= b,
                },
                _ => true,
            }),
    {
        match (data, pattern) {
            (AttrValue::Int(a), AttrValue::Int(b)) => match self {
                AttrOp::Eq => *a == *b,
                AttrOp::Ne => *a != *b,
                AttrOp::Lt => *a < *b,
                AttrOp::Le => *a <= *b,
                AttrOp::Gt => *a > *b,
                AttrOp::Ge => *a >= *b,
            },
            (AttrValue::Str(a), AttrValue::Str(b)) => {
                let o = compare_keys(a.as_str(), b.as_str());
                proof {
                    lemma_key_order(a@, b@, b@);
                }
                match self {
                    AttrOp::Eq => o == KeyOrder::Equal,
                    AttrOp::Ne => o != KeyOrder::Equal,
                    AttrOp::Lt => o == KeyOrder::Less,
                    AttrOp::Le => o != KeyOrder::Greater,
                    AttrOp::Gt => o == KeyOrder::Greater,
                    AttrOp::Ge => o != KeyOrder::Less,
                }
            },
            (AttrValue::Bool(a), AttrValue::Bool(b)) => match self {
                AttrOp::Eq => *a == *b,
                AttrOp::Ne => *a != *b,
                AttrOp::Lt => !*a && *b,
                AttrOp::Le => !*a || *b,
                AttrOp::Gt => *a && !*b,
                AttrOp::Ge => *a || !*b,
            },
            _ => match self {
                AttrOp::Ne => true,
                _ => false,
            },
        }
    }
}

/// The value of the first attribute with the given key, if any.
pub fn find_attr<'a>(attrs: &'a Vec<(String, AttrValue)>, key: &str) -> (r: Option<&'a AttrValue>)
    ensures
        match r {
            None => attr_lookup(attrs@, key@) is None,
            Some(v) => attr_lookup(attrs@, key@) == Some(*v),
        },
{
    let mut i: usize = 0;
    assert(attrs@.skip(0) =~= attrs@);
    while i < attrs.len()
        invariant
            i <= attrs.len(),
            attr_lookup(attrs@, key@) == attr_lookup(attrs@.skip(i as int), key@),
        decreases attrs.len() - i,
    {
        assert(attrs@.skip(i as int)[0] == attrs@[i as int]);
        assert(attrs@.skip(i as int).drop_first() =~= attrs@.skip(i + 1));
        if same_key(attrs[i].0.as_str(), key) {
            return Some(&attrs[i].1);
        }
        i = i + 1;
    }
    None
}

/// Whether a data vertex satisfies a pattern vertex (its label and its
/// attribute constraint).
pub fn satisfies_pattern(pat_v: &PatternVertex, data_v: &DataVertex) -> (r: bool)
    ensures
        r == spec_satisfies_pattern(*pat_v, *data_v),
{
    if !same_key(pat_v.label.as_str(), data_v.label.as_str()) {
        return false;
    }
    match &pat_v.attr {
        None => true,
        Some(a) => {
            if data_v.attrs.len() == 0 {
                return false;
            }
            match find_attr(&data_v.attrs, a.key.as_str()) {
                None => false,
                Some(v) => a.op.operate_on(v, &a.value),
            }
        },
    }
}

} // verus!
