//! A graph of matched data: vertices and edges by id, each with the name of
//! the pattern vertex or edge it matches.

use vstd::prelude::*;
use crate::maps::{
    edge_map_items, text_map_items, vertex_map_items, EdgeMap, TextMap, VertexMap,
};
use crate::schemas::{DataEdge, DataVertex, EdgeView, VertexView};

verus! {

/// What a graph holds: its vertices, their patterns, its edges, their patterns.
pub type GraphView = (
    Map<Seq<char>, VertexView>,
    Map<Seq<char>, Seq<char>>,
    Map<Seq<char>, EdgeView>,
    Map<Seq<char>, Seq<char>>,
);

/// The union of two graph views, those of `b` in place of those of `a`.
pub open spec fn union_view(a: GraphView, b: GraphView) -> GraphView {
    (a.0.union_prefer_right(b.0), a.1.union_prefer_right(b.1), a.2.union_prefer_right(b.2), a.3.union_prefer_right(b.3))
}

/// A partial match: data vertices and edges, each with the pattern it matches.
pub struct DynGraph {
    pub v_entities: VertexMap,
    pub e_entities: EdgeMap,
    pub v_patterns: TextMap,
    pub e_patterns: TextMap,
}

impl DynGraph {
    /// The vertices, by id.
    pub open spec fn vs(&self) -> Map<Seq<char>, VertexView> {
        vertex_map_items(self.v_entities)
    }

    /// The edges, by id.
    pub open spec fn es(&self) -> Map<Seq<char>, EdgeView> {
        edge_map_items(self.e_entities)
    }

    /// The pattern that each vertex matches, by vertex id.
    pub open spec fn vp(&self) -> Map<Seq<char>, Seq<char>> {
        text_map_items(self.v_patterns)
    }

    /// The pattern that each edge matches, by edge id.
    pub open spec fn ep(&self) -> Map<Seq<char>, Seq<char>> {
        text_map_items(self.e_patterns)
    }

    /// All that the graph holds.
    pub open spec fn gview(&self) -> GraphView {
        (self.vs(), self.vp(), self.es(), self.ep())
    }

    /// Every vertex and edge has a pattern, and is filed under its own id.
    pub open spec fn wf(&self) -> bool {
        &&& self.vs().dom() == self.vp().dom()
        &&& self.es().dom() == self.ep().dom()
        &&& forall|k: Seq<char>| #[trigger] self.vs().dom().contains(k) ==> self.vs()[k].0 == k
        &&& forall|k: Seq<char>| #[trigger] self.es().dom().contains(k) ==> self.es()[k].0 == k
    }

    /// An empty graph.
    pub fn new() -> (r: Self)
        ensures
            r.wf(),
            r.vs() == Map::<Seq<char>, VertexView>::empty(),
            r.es() == Map::<Seq<char>, EdgeView>::empty(),
            r.vp() == Map::<Seq<char>, Seq<char>>::empty(),
            r.ep() == Map::<Seq<char>, Seq<char>>::empty(),
    {
        let r = DynGraph {
            v_entities: VertexMap::new(),
            e_entities: EdgeMap::new(),
            v_patterns: TextMap::new(),
            e_patterns: TextMap::new(),
        };
        assert(r.vs() =~= Map::<Seq<char>, VertexView>::empty());
        assert(r.es() =~= Map::<Seq<char>, EdgeView>::empty());
        assert(r.vp() =~= Map::<Seq<char>, Seq<char>>::empty());
        assert(r.ep() =~= Map::<Seq<char>, Seq<char>>::empty());
        r
    }

    /// A copy of the graph.
    pub fn duplicate(&self) -> (r: Self)
        ensures
            r.vs() == self.vs(),
            r.es() == self.es(),
            r.vp() == self.vp(),
            r.ep() == self.ep(),
    {
        DynGraph {
            v_entities: self.v_entities.duplicate(),
            e_entities: self.e_entities.duplicate(),
            v_patterns: self.v_patterns.duplicate(),
            e_patterns: self.e_patterns.duplicate(),
        }
    }

    /// Whether the graph holds the vertex.
    pub fn has_vid(&self, vid: &str) -> (r: bool)
        ensures
            r == self.vs().dom().contains(vid@),
    {
        self.v_entities.get(vid).is_some()
    }

    /// Whether the graph holds the edge.
    pub fn has_eid(&self, eid: &str) -> (r: bool)
        ensures
            r == self.es().dom().contains(eid@),
    {
        self.e_entities.get(eid).is_some()
    }

    /// Adds the vertex as a match of `pattern`, replacing one with its id.
    pub fn update_v(&mut self, v: DataVertex, pattern: String)
        requires
            old(self).wf(),
        ensures
            final(self).wf(),
            final(self).vs() == old(self).vs().insert(v.vid@, v@),
            final(self).vp() == old(self).vp().insert(v.vid@, pattern@),
            final(self).es() == old(self).es(),
            final(self).ep() == old(self).ep(),
    {
        let k = v.vid.clone();
        self.v_patterns.insert(v.vid.clone(), pattern);
        self.v_entities.insert(k, v);
        proof {
            assert(self.vs().dom() =~= self.vp().dom());
        }
    }

    /// Adds the edge as a match of `pattern`, replacing one with its id.
    pub fn update_e(&mut self, e: DataEdge, pattern: String)
        requires
            old(self).wf(),
        ensures
            final(self).wf(),
            final(self).es() == old(self).es().insert(e.eid@, e@),
            final(self).ep() == old(self).ep().insert(e.eid@, pattern@),
            final(self).vs() == old(self).vs(),
            final(self).vp() == old(self).vp(),
    {
        let k = e.eid.clone();
        self.e_patterns.insert(e.eid.clone(), pattern);
        self.e_entities.insert(k, e);
        proof {
            assert(self.es().dom() =~= self.ep().dom());
        }
    }

    /// Which ends of an edge the graph holds: its source id where the graph
    /// holds the source, its target id where it holds the target.
    pub fn pick_e_connective_vid<'a>(&self, e: &'a DataEdge) -> (r: (Option<&'a String>, Option<&'a String>))
        ensures
            r.0 is Some <==> self.vs().dom().contains(e.src_vid@),
            r.1 is Some <==> self.vs().dom().contains(e.dst_vid@),
            r.0 matches Some(s) ==> s == &e.src_vid,
            r.1 matches Some(d) ==> d == &e.dst_vid,
    {
        let s = if self.has_vid(e.src_vid.as_str()) {
            Some(&e.src_vid)
        } else {
            None
        };
        let d = if self.has_vid(e.dst_vid.as_str()) {
            Some(&e.dst_vid)
        } else {
            None
        };
        (s, d)
    }

    /// Whether some edge of the graph matches the pattern edge `pattern`.
    pub fn has_e_pattern(&self, pattern: &str) -> (r: bool)
        ensures
            r == exists|k: Seq<char>| #[trigger] self.ep().dom().contains(k) && self.ep()[k] == pattern@,
    {
        let ks = self.e_patterns.keys();
        let mut i: usize = 0;
        while i < ks.len()
            invariant
                i <= ks@.len(),
                crate::maps::lists_keys(ks@, self.ep().dom()),
                forall|j: int| 0 <= j < i ==> self.ep()[#[trigger] ks@[j]@] != pattern@,
            decreases ks@.len() - i,
        {
            let p = self.e_patterns.get(ks[i].as_str()).unwrap();
            if crate::keys::same_key(p.as_str(), pattern) {
                assert(self.ep().dom().contains(ks@[i as int]@));
                return true;
            }
            i = i + 1;
        }
        assert forall|k: Seq<char>| #[trigger] self.ep().dom().contains(k) implies self.ep()[k] != pattern@ by {
            let j = choose|j: int| 0 <= j < ks@.len() && ks@[j]@ == k;
            assert(self.ep()[ks@[j]@] != pattern@);
        }
        false
    }

    /// The union of two graphs: every vertex and edge of either, those of
    /// `other` in place of those of `self` with the same id.
    pub fn union(self, other: DynGraph) -> (r: DynGraph)
        requires
            self.wf(),
            other.wf(),
        ensures
            r.wf(),
            r.vs() == self.vs().union_prefer_right(other.vs()),
            r.vp() == self.vp().union_prefer_right(other.vp()),
            r.es() == self.es().union_prefer_right(other.es()),
            r.ep() == self.ep().union_prefer_right(other.ep()),
    {
        let ghost a = self;
        let ghost b = other;
        let mut acc = self;
        let mut rest = other;
        let vks = rest.v_entities.keys();
        let mut i: usize = 0;
        while i < vks.len()
            invariant
                i <= vks@.len(),
                crate::maps::lists_keys(vks@, b.vs().dom()),
                acc.wf(),
                rest.wf(),
                acc.es() == a.es(),
                acc.ep() == a.ep(),
                rest.es() == b.es(),
                rest.ep() == b.ep(),
                acc.vs().union_prefer_right(rest.vs()) == a.vs().union_prefer_right(b.vs()),
                acc.vp().union_prefer_right(rest.vp()) == a.vp().union_prefer_right(b.vp()),
                forall|k: Seq<char>| #[trigger] rest.vs().dom().contains(k) <==>
                    (b.vs().dom().contains(k) && forall|j: int| 0 <= j < i ==> vks@[j]@ != k),
            decreases vks@.len() - i,
        {
            let k = &vks[i];
            assert(rest.vs().dom().contains(k@)) by {
                assert(b.vs().dom().contains(vks@[i as int]@));
                assert forall|j: int| 0 <= j < i implies vks@[j]@ != k@ by {
                    assert(vks@[j]@ != vks@[i as int]@);
                }
            }
            let ghost acc0 = acc;
            let ghost rest0 = rest;
            let v = rest.v_entities.remove(k.as_str()).unwrap();
            let p = rest.v_patterns.remove(k.as_str()).unwrap();
            acc.update_v(v, p);
            proof {
                assert(acc.vs().union_prefer_right(rest.vs()) =~= acc0.vs().union_prefer_right(rest0.vs()));
                assert(acc.vp().union_prefer_right(rest.vp()) =~= acc0.vp().union_prefer_right(rest0.vp()));
                assert(rest.vs().dom() =~= rest.vp().dom());
                assert forall|k2: Seq<char>| #[trigger] rest.vs().dom().contains(k2) <==>
                    (b.vs().dom().contains(k2) && forall|j: int| 0 <= j < i + 1 ==> vks@[j]@ != k2) by {
                    if rest.vs().dom().contains(k2) {
                        assert(rest0.vs().dom().contains(k2));
                    }
                }
            }
            i = i + 1;
        }
        proof {
            assert(rest.vs().dom() =~= Set::<Seq<char>>::empty()) by {
                assert forall|k: Seq<char>| !rest.vs().dom().contains(k) by {
                    if b.vs().dom().contains(k) {
                        let j = choose|j: int| 0 <= j < vks@.len() && vks@[j]@ == k;
                        assert(vks@[j]@ == k);
                    }
                }
            }
            assert(acc.vs().union_prefer_right(rest.vs()) =~= acc.vs());
            assert(rest.vp().dom() =~= Set::<Seq<char>>::empty());
            assert(acc.vp().union_prefer_right(rest.vp()) =~= acc.vp());
        }
        let eks = rest.e_entities.keys();
        let mut i: usize = 0;
        while i < eks.len()
            invariant
                i <= eks@.len(),
                crate::maps::lists_keys(eks@, b.es().dom()),
                acc.wf(),
                rest.wf(),
                acc.vs() == a.vs().union_prefer_right(b.vs()),
                acc.vp() == a.vp().union_prefer_right(b.vp()),
                acc.es().union_prefer_right(rest.es()) == a.es().union_prefer_right(b.es()),
                acc.ep().union_prefer_right(rest.ep()) == a.ep().union_prefer_right(b.ep()),
                forall|k: Seq<char>| #[trigger] rest.es().dom().contains(k) <==>
                    (b.es().dom().contains(k) && forall|j: int| 0 <= j < i ==> eks@[j]@ != k),
            decreases eks@.len() - i,
        {
            let k = &eks[i];
            assert(rest.es().dom().contains(k@)) by {
                assert(b.es().dom().contains(eks@[i as int]@));
                assert forall|j: int| 0 <= j < i implies eks@[j]@ != k@ by {
                    assert(eks@[j]@ != eks@[i as int]@);
                }
            }
            let ghost acc0 = acc;
            let ghost rest0 = rest;
            let e = rest.e_entities.remove(k.as_str()).unwrap();
            let p = rest.e_patterns.remove(k.as_str()).unwrap();
            acc.update_e(e, p);
            proof {
                assert(acc.es().union_prefer_right(rest.es()) =~= acc0.es().union_prefer_right(rest0.es()));
                assert(acc.ep().union_prefer_right(rest.ep()) =~= acc0.ep().union_prefer_right(rest0.ep()));
                assert(rest.es().dom() =~= rest.ep().dom());
                assert forall|k2: Seq<char>| #[trigger] rest.es().dom().contains(k2) <==>
                    (b.es().dom().contains(k2) && forall|j: int| 0 <= j < i + 1 ==> eks@[j]@ != k2) by {
                    if rest.es().dom().contains(k2) {
                        assert(rest0.es().dom().contains(k2));
                    }
                }
            }
            i = i + 1;
        }
        proof {
            assert(rest.es().dom() =~= Set::<Seq<char>>::empty()) by {
                assert forall|k: Seq<char>| !rest.es().dom().contains(k) by {
                    if b.es().dom().contains(k) {
                        let j = choose|j: int| 0 <= j < eks@.len() && eks@[j]@ == k;
                        assert(eks@[j]@ == k);
                    }
                }
            }
            assert(acc.es().union_prefer_right(rest.es()) =~= acc.es());
            assert(rest.ep().dom() =~= Set::<Seq<char>>::empty());
            assert(acc.ep().union_prefer_right(rest.ep()) =~= acc.ep());
        }
        acc
    }
}

/// The empty graph view.
pub open spec fn empty_view() -> GraphView {
    (Map::empty(), Map::empty(), Map::empty(), Map::empty())
}

/// The empty graph is a unit of union on either side.
pub proof fn law_union_identity(g: GraphView)
    ensures
        union_view(g, empty_view()) == g,
        union_view(empty_view(), g) == g,
{
    assert(union_view(g, empty_view()).0 =~= g.0);
    assert(union_view(g, empty_view()).1 =~= g.1);
    assert(union_view(g, empty_view()).2 =~= g.2);
    assert(union_view(g, empty_view()).3 =~= g.3);
    assert(union_view(empty_view(), g).0 =~= g.0);
    assert(union_view(empty_view(), g).1 =~= g.1);
    assert(union_view(empty_view(), g).2 =~= g.2);
    assert(union_view(empty_view(), g).3 =~= g.3);
}

/// Union is associative, so merging a combination is the same whichever
/// way its graphs are grouped.
pub proof fn law_union_associative(a: GraphView, b: GraphView, c: GraphView)
    ensures
        union_view(union_view(a, b), c) == union_view(a, union_view(b, c)),
{
    assert(union_view(union_view(a, b), c).0 =~= union_view(a, union_view(b, c)).0);
    assert(union_view(union_view(a, b), c).1 =~= union_view(a, union_view(b, c)).1);
    assert(union_view(union_view(a, b), c).2 =~= union_view(a, union_view(b, c)).2);
    assert(union_view(union_view(a, b), c).3 =~= union_view(a, union_view(b, c)).3);
}

/// A graph united with itself is itself.
pub proof fn law_union_idempotent(a: GraphView)
    ensures
        union_view(a, a) == a,
{
    assert(union_view(a, a).0 =~= a.0);
    assert(union_view(a, a).1 =~= a.1);
    assert(union_view(a, a).2 =~= a.2);
    assert(union_view(a, a).3 =~= a.3);
}

/// Union holds every vertex and edge of both graphs and nothing else.
pub proof fn law_union_domains(a: GraphView, b: GraphView)
    ensures
        union_view(a, b).0.dom() == a.0.dom() + b.0.dom(),
        union_view(a, b).2.dom() == a.2.dom() + b.2.dom(),
{
}

} // verus!
