//! The hash maps, hash sets and insertion-ordered maps that the engine keeps
//! its state in. Each is a `hashbrown` or `indexmap` collection held in a
//! private field; the functions here make one call each into it, and their
//! contracts say what that call does to the collection's contents.

use vstd::prelude::*;
use crate::buckets::{ABucket, CBucket, FBucket, TBucket};
use crate::expand_graph::ExpandGraph;
use crate::keys::key_lt;
use crate::schemas::{DataEdge, DataVertex, EdgeView, PatternEdge, PatternVertex, VertexView};

verus! {

/// `r` lists each id of `dom` exactly once, in some order.
pub open spec fn lists_keys(r: Seq<String>, dom: Set<Seq<char>>) -> bool {
    &&& forall|i: int| 0 <= i < r.len() ==> dom.contains(#[trigger] r[i]@)
    &&& forall|k: Seq<char>| dom.contains(k) ==> exists|i: int| 0 <= i < r.len() && r[i]@ == k
    &&& forall|i: int, j: int| 0 <= i < j < r.len() ==> r[i]@ != r[j]@
}

/// The characters of each string of a list.
pub open spec fn strs_view(s: Seq<String>) -> Seq<Seq<char>> {
    s.map_values(|x: String| x@)
}

// ---------------------------------------------------------------- VidSet

/// A set of vertex ids (a `hashbrown::HashSet<String>`).
#[verifier::external_body]
pub struct VidSet {
    inner: hashbrown::HashSet<String>,
}

/// The ids a `VidSet` holds.
pub uninterp spec fn vid_set_items(m: VidSet) -> Set<Seq<char>>;

impl VidSet {
    /// `HashSet::new`: an empty set.
    #[verifier::external_body]
    pub fn new() -> (r: Self)
        ensures
            vid_set_items(r) == Set::<Seq<char>>::empty(),
    {
        VidSet { inner: hashbrown::HashSet::new() }
    }

    /// `HashSet::insert`: adds the id.
    #[verifier::external_body]
    pub fn insert(&mut self, k: String)
        ensures
            vid_set_items(*final(self)) == vid_set_items(*old(self)).insert(k@),
    {
        self.inner.insert(k);
    }

    /// `HashSet::iter`: every id once, in the set's own order.
    #[verifier::external_body]
    pub fn to_vec(&self) -> (r: Vec<String>)
        ensures
            lists_keys(r@, vid_set_items(*self)),
    {
        self.inner.iter().cloned().collect()
    }

    /// `HashSet::contains`: whether the id is in the set.
    #[verifier::external_body]
    pub fn contains(&self, k: &str) -> (r: bool)
        ensures
            r == vid_set_items(*self).contains(k@),
    {
        self.inner.contains(k)
    }
}

// ---------------------------------------------------------------- TextMap

/// A map from ids to texts, such as pattern names (a
/// `hashbrown::HashMap<String, String>`).
#[verifier::external_body]
pub struct TextMap {
    inner: hashbrown::HashMap<String, String>,
}

/// The entries of a `TextMap`, by the characters of keys and values.
pub uninterp spec fn text_map_items(m: TextMap) -> Map<Seq<char>, Seq<char>>;

impl TextMap {
    /// `HashMap::new`: an empty map.
    #[verifier::external_body]
    pub fn new() -> (r: Self)
        ensures
            text_map_items(r).dom() == Set::<Seq<char>>::empty(),
    {
        TextMap { inner: hashbrown::HashMap::new() }
    }

    /// `HashMap::insert`: maps `k` to `v`, replacing any earlier value.
    #[verifier::external_body]
    pub fn insert(&mut self, k: String, v: String)
        ensures
            text_map_items(*final(self)) == text_map_items(*old(self)).insert(k@, v@),
    {
        self.inner.insert(k, v);
    }

    /// `HashMap::get`: the value of `k`, if any.
    #[verifier::external_body]
    pub fn get(&self, k: &str) -> (r: Option<&String>)
        ensures
            r is Some <==> text_map_items(*self).dom().contains(k@),
            r matches Some(v) ==> v@ == text_map_items(*self)[k@],
    {
        self.inner.get(k)
    }

    /// `HashMap::remove`: takes `k` out and hands back its value, if any.
    #[verifier::external_body]
    pub fn remove(&mut self, k: &str) -> (r: Option<String>)
        ensures
            text_map_items(*final(self)) == text_map_items(*old(self)).remove(k@),
            r is Some <==> text_map_items(*old(self)).dom().contains(k@),
            r matches Some(v) ==> v@ == text_map_items(*old(self))[k@],
    {
        self.inner.remove(k)
    }

    /// `HashMap::keys`: every key once, in the map's own order.
    #[verifier::external_body]
    pub fn keys(&self) -> (r: Vec<String>)
        ensures
            lists_keys(r@, text_map_items(*self).dom()),
    {
        self.inner.keys().cloned().collect()
    }

    /// `HashMap::clone`: a map with the same entries.
    #[verifier::external_body]
    pub fn duplicate(&self) -> (r: Self)
        ensures
            text_map_items(r) == text_map_items(*self),
    {
        TextMap { inner: self.inner.clone() }
    }
}

// ---------------------------------------------------------------- VertexMap

/// A map from vertex ids to data vertices (a
/// `hashbrown::HashMap<String, DataVertex>`).
#[verifier::external_body]
pub struct VertexMap {
    inner: hashbrown::HashMap<String, DataVertex>,
}

/// The entries of a `VertexMap`.
pub uninterp spec fn vertex_map_items(m: VertexMap) -> Map<Seq<char>, VertexView>;

impl VertexMap {
    /// `HashMap::new`: an empty map.
    #[verifier::external_body]
    pub fn new() -> (r: Self)
        ensures
            vertex_map_items(r).dom() == Set::<Seq<char>>::empty(),
    {
        VertexMap { inner: hashbrown::HashMap::new() }
    }

    /// `HashMap::insert`: maps `k` to `v`, replacing any earlier value.
    #[verifier::external_body]
    pub fn insert(&mut self, k: String, v: DataVertex)
        ensures
            vertex_map_items(*final(self)) == vertex_map_items(*old(self)).insert(k@, v@),
    {
        self.inner.insert(k, v);
    }

    /// `HashMap::get`: the value of `k`, if any.
    #[verifier::external_body]
    pub fn get(&self, k: &str) -> (r: Option<&DataVertex>)
        ensures
            r is Some <==> vertex_map_items(*self).dom().contains(k@),
            r matches Some(v) ==> v@ == vertex_map_items(*self)[k@],
    {
        self.inner.get(k)
    }

    /// `HashMap::remove`: takes `k` out and hands back its value, if any.
    #[verifier::external_body]
    pub fn remove(&mut self, k: &str) -> (r: Option<DataVertex>)
        ensures
            vertex_map_items(*final(self)) == vertex_map_items(*old(self)).remove(k@),
            r is Some <==> vertex_map_items(*old(self)).dom().contains(k@),
            r matches Some(v) ==> v@ == vertex_map_items(*old(self))[k@],
    {
        self.inner.remove(k)
    }

    /// `HashMap::keys`: every key once, in the map's own order.
    #[verifier::external_body]
    pub fn keys(&self) -> (r: Vec<String>)
        ensures
            lists_keys(r@, vertex_map_items(*self).dom()),
    {
        self.inner.keys().cloned().collect()
    }

    /// `HashMap::clone`: a map with the same entries.
    #[verifier::external_body]
    pub fn duplicate(&self) -> (r: Self)
        ensures
            vertex_map_items(r) == vertex_map_items(*self),
    {
        VertexMap { inner: self.inner.clone() }
    }
}

// ---------------------------------------------------------------- EdgeMap

/// A map from edge ids to data edges (a
/// `hashbrown::HashMap<String, DataEdge>`).
#[verifier::external_body]
pub struct EdgeMap {
    inner: hashbrown::HashMap<String, DataEdge>,
}

/// The entries of an `EdgeMap`.
pub uninterp spec fn edge_map_items(m: EdgeMap) -> Map<Seq<char>, EdgeView>;

impl EdgeMap {
    /// `HashMap::new`: an empty map.
    #[verifier::external_body]
    pub fn new() -> (r: Self)
        ensures
            edge_map_items(r).dom() == Set::<Seq<char>>::empty(),
    {
        EdgeMap { inner: hashbrown::HashMap::new() }
    }

    /// `HashMap::insert`: maps `k` to `v`, replacing any earlier value.
    #[verifier::external_body]
    pub fn insert(&mut self, k: String, v: DataEdge)
        ensures
            edge_map_items(*final(self)) == edge_map_items(*old(self)).insert(k@, v@),
    {
        self.inner.insert(k, v);
    }

    /// `HashMap::get`: the value of `k`, if any.
    #[verifier::external_body]
    pub fn get(&self, k: &str) -> (r: Option<&DataEdge>)
        ensures
            r is Some <==> edge_map_items(*self).dom().contains(k@),
            r matches Some(v) ==> v@ == edge_map_items(*self)[k@],
    {
        self.inner.get(k)
    }

    /// `HashMap::remove`: takes `k` out and hands back its value, if any.
    #[verifier::external_body]
    pub fn remove(&mut self, k: &str) -> (r: Option<DataEdge>)
        ensures
            edge_map_items(*final(self)) == edge_map_items(*old(self)).remove(k@),
            r is Some <==> edge_map_items(*old(self)).dom().contains(k@),
            r matches Some(v) ==> v@ == edge_map_items(*old(self))[k@],
    {
        self.inner.remove(k)
    }

    /// `HashMap::keys`: every key once, in the map's own order.
    #[verifier::external_body]
    pub fn keys(&self) -> (r: Vec<String>)
        ensures
            lists_keys(r@, edge_map_items(*self).dom()),
    {
        self.inner.keys().cloned().collect()
    }

    /// `HashMap::clone`: a map with the same entries.
    #[verifier::external_body]
    pub fn duplicate(&self) -> (r: Self)
        ensures
            edge_map_items(r) == edge_map_items(*self),
    {
        EdgeMap { inner: self.inner.clone() }
    }
}

// ---------------------------------------------------------------- pattern maps

/// The vertices of a pattern graph by id (a
/// `hashbrown::HashMap<String, PatternVertex>`).
#[verifier::external_body]
pub struct PatternVertexMap {
    inner: hashbrown::HashMap<String, PatternVertex>,
}

/// The entries of a `PatternVertexMap`.
pub uninterp spec fn pattern_vertex_items(m: PatternVertexMap) -> Map<Seq<char>, PatternVertex>;

impl PatternVertexMap {
    /// `HashMap::new`: an empty map.
    #[verifier::external_body]
    pub fn new() -> (r: Self)
        ensures
            pattern_vertex_items(r).dom() == Set::<Seq<char>>::empty(),
    {
        PatternVertexMap { inner: hashbrown::HashMap::new() }
    }

    /// `HashMap::insert`: maps `k` to `v`, replacing any earlier value.
    #[verifier::external_body]
    pub fn insert(&mut self, k: String, v: PatternVertex)
        ensures
            pattern_vertex_items(*final(self)) == pattern_vertex_items(*old(self)).insert(k@, v),
    {
        self.inner.insert(k, v);
    }

    /// `HashMap::get`: the value of `k`, if any.
    #[verifier::external_body]
    pub fn get(&self, k: &str) -> (r: Option<&PatternVertex>)
        ensures
            r is Some <==> pattern_vertex_items(*self).dom().contains(k@),
            r matches Some(v) ==> *v == pattern_vertex_items(*self)[k@],
    {
        self.inner.get(k)
    }

    /// `HashMap::keys`: every key once, in the map's own order.
    #[verifier::external_body]
    pub fn keys(&self) -> (r: Vec<String>)
        ensures
            lists_keys(r@, pattern_vertex_items(*self).dom()),
    {
        self.inner.keys().cloned().collect()
    }

    /// `HashMap::clone`: a map with the same entries.
    #[verifier::external_body]
    pub fn duplicate(&self) -> (r: Self)
        ensures
            pattern_vertex_items(r) == pattern_vertex_items(*self),
    {
        PatternVertexMap { inner: self.inner.clone() }
    }
}

/// The edges of a pattern graph by id (a
/// `hashbrown::HashMap<String, PatternEdge>`).
#[verifier::external_body]
pub struct PatternEdgeMap {
    inner: hashbrown::HashMap<String, PatternEdge>,
}

/// The entries of a `PatternEdgeMap`.
pub uninterp spec fn pattern_edge_items(m: PatternEdgeMap) -> Map<Seq<char>, PatternEdge>;

impl PatternEdgeMap {
    /// `HashMap::new`: an empty map.
    #[verifier::external_body]
    pub fn new() -> (r: Self)
        ensures
            pattern_edge_items(r).dom() == Set::<Seq<char>>::empty(),
    {
        PatternEdgeMap { inner: hashbrown::HashMap::new() }
    }

    /// `HashMap::insert`: maps `k` to `v`, replacing any earlier value.
    #[verifier::external_body]
    pub fn insert(&mut self, k: String, v: PatternEdge)
        ensures
            pattern_edge_items(*final(self)) == pattern_edge_items(*old(self)).insert(k@, v),
    {
        self.inner.insert(k, v);
    }

    /// `HashMap::get`: the value of `k`, if any.
    #[verifier::external_body]
    pub fn get(&self, k: &str) -> (r: Option<&PatternEdge>)
        ensures
            r is Some <==> pattern_edge_items(*self).dom().contains(k@),
            r matches Some(v) ==> *v == pattern_edge_items(*self)[k@],
    {
        self.inner.get(k)
    }

    /// `HashMap::keys`: every key once, in the map's own order.
    #[verifier::external_body]
    pub fn keys(&self) -> (r: Vec<String>)
        ensures
            lists_keys(r@, pattern_edge_items(*self).dom()),
    {
        self.inner.keys().cloned().collect()
    }

    /// `HashMap::clone`: a map with the same entries.
    #[verifier::external_body]
    pub fn duplicate(&self) -> (r: Self)
        ensures
            pattern_edge_items(r) == pattern_edge_items(*self),
    {
        PatternEdgeMap { inner: self.inner.clone() }
    }
}

// ---------------------------------------------------------------- PendingMap

/// One entry of a `PendingMap`: a vertex id and the ids of its edges.
pub type PendingEntry = (Seq<char>, Seq<Seq<char>>);

/// The position of the entry with key `k`, if there is one.
pub open spec fn has_pending_key(e: Seq<PendingEntry>, k: Seq<char>) -> bool {
    exists|j: int| 0 <= j < e.len() && (#[trigger] e[j]).0 == k
}

/// No key occurs twice.
pub open spec fn distinct_pending_keys(e: Seq<PendingEntry>) -> bool {
    forall|i: int, j: int| 0 <= i < e.len() && 0 <= j < e.len() && i != j ==> (#[trigger] e[i]).0 != (#[trigger] e[j]).0
}

/// The keys, in order.
pub open spec fn pending_keys(e: Seq<PendingEntry>) -> Seq<Seq<char>> {
    e.map_values(|x: PendingEntry| x.0)
}

/// The keys ascend strictly.
pub open spec fn keys_ascending(k: Seq<Seq<char>>) -> bool {
    forall|i: int, j: int| 0 <= i < j < k.len() ==> key_lt(#[trigger] k[i], #[trigger] k[j])
}

/// `e` after `insert(k, v)`: an entry with key `k` keeps its place and takes
/// `v`; otherwise `(k, v)` comes last.
pub open spec fn pending_insert(e: Seq<PendingEntry>, k: Seq<char>, v: Seq<Seq<char>>) -> Seq<PendingEntry> {
    if has_pending_key(e, k) {
        let j = choose|j: int| 0 <= j < e.len() && (#[trigger] e[j]).0 == k;
        e.update(j, (k, v))
    } else {
        e.push((k, v))
    }
}

/// The value of the entry with key `k` (meaningful where there is one).
pub open spec fn pending_value(e: Seq<PendingEntry>, k: Seq<char>) -> Seq<Seq<char>> {
    let j = choose|j: int| 0 <= j < e.len() && (#[trigger] e[j]).0 == k;
    e[j].1
}

/// `e` after `entry(k).or_default().push(x)`.
pub open spec fn pending_push(e: Seq<PendingEntry>, k: Seq<char>, x: Seq<char>) -> Seq<PendingEntry> {
    if has_pending_key(e, k) {
        pending_insert(e, k, pending_value(e, k).push(x))
    } else {
        pending_insert(e, k, seq![x])
    }
}

/// Inserting keeps the keys distinct, keeps every other entry, and leaves
/// an entry with key `k` and value `v`.
pub proof fn lemma_pending_insert(e: Seq<PendingEntry>, k: Seq<char>, v: Seq<Seq<char>>)
    requires
        distinct_pending_keys(e),
    ensures
        distinct_pending_keys(pending_insert(e, k, v)),
        has_pending_key(pending_insert(e, k, v), k),
        forall|j: int| 0 <= j < pending_insert(e, k, v).len() && (#[trigger] pending_insert(e, k, v)[j]).0 == k
            ==> pending_insert(e, k, v)[j].1 == v,
        forall|j: int| 0 <= j < e.len() && (#[trigger] e[j]).0 != k ==> pending_insert(e, k, v).contains(e[j]),
        forall|j: int| 0 <= j < pending_insert(e, k, v).len() && (#[trigger] pending_insert(e, k, v)[j]).0 != k
            ==> e.contains(pending_insert(e, k, v)[j]),
        forall|x: Seq<char>| x != k ==> (has_pending_key(pending_insert(e, k, v), x) == has_pending_key(e, x)),
        pending_keys(pending_insert(e, k, v)).to_set() == pending_keys(e).to_set().insert(k),
{
    let f = pending_insert(e, k, v);
    if has_pending_key(e, k) {
        let jj = choose|j: int| 0 <= j < e.len() && (#[trigger] e[j]).0 == k;
        assert(f =~= e.update(jj, (k, v)));
        assert forall|j: int| 0 <= j < e.len() && (#[trigger] e[j]).0 != k implies f.contains(e[j]) by {
            assert(f[j] == e[j]);
        }
        assert forall|j: int| 0 <= j < f.len() && (#[trigger] f[j]).0 != k implies e.contains(f[j]) by {
            assert(f[j] == e[j]);
        }
        assert forall|x: Seq<char>| x != k implies has_pending_key(f, x) == has_pending_key(e, x) by {
            if has_pending_key(e, x) {
                let j = choose|j: int| 0 <= j < e.len() && (#[trigger] e[j]).0 == x;
                assert(f[j] == e[j]);
            }
            if has_pending_key(f, x) {
                let j = choose|j: int| 0 <= j < f.len() && (#[trigger] f[j]).0 == x;
                assert(f[j] == e[j]);
            }
        }
        assert(has_pending_key(f, k)) by {
            assert(f[jj].0 == k);
        }
        assert(pending_keys(f) =~= pending_keys(e));
        assert(pending_keys(e).contains(k)) by {
            assert(pending_keys(e)[jj] == k);
        }
        assert(pending_keys(f).to_set() =~= pending_keys(e).to_set().insert(k));
    } else {
        assert(f =~= e.push((k, v)));
        assert forall|j: int| 0 <= j < e.len() && (#[trigger] e[j]).0 != k implies f.contains(e[j]) by {
            assert(f[j] == e[j]);
        }
        assert forall|j: int| 0 <= j < f.len() && (#[trigger] f[j]).0 != k implies e.contains(f[j]) by {
            assert(f[j] == e[j]);
        }
        assert forall|x: Seq<char>| x != k implies has_pending_key(f, x) == has_pending_key(e, x) by {
            if has_pending_key(e, x) {
                let j = choose|j: int| 0 <= j < e.len() && (#[trigger] e[j]).0 == x;
                assert(f[j] == e[j]);
            }
            if has_pending_key(f, x) {
                let j = choose|j: int| 0 <= j < f.len() && (#[trigger] f[j]).0 == x;
                assert(f[j] == e[j]);
            }
        }
        assert(has_pending_key(f, k)) by {
            assert(f[e.len() as int].0 == k);
        }
        assert(pending_keys(f) =~= pending_keys(e).push(k));
        assert(pending_keys(f).to_set() =~= pending_keys(e).to_set().insert(k)) by {
            assert forall|x: Seq<char>| pending_keys(f).to_set().contains(x) <==> pending_keys(e).to_set().insert(k).contains(x) by {
                if pending_keys(f).contains(x) {
                    let j = choose|j: int| 0 <= j < pending_keys(f).len() && pending_keys(f)[j] == x;
                    if j < e.len() {
                        assert(pending_keys(e)[j] == x);
                    }
                }
                if pending_keys(e).contains(x) {
                    let j = choose|j: int| 0 <= j < pending_keys(e).len() && pending_keys(e)[j] == x;
                    assert(pending_keys(f)[j] == x);
                }
                if x == k {
                    assert(pending_keys(f)[e.len() as int] == k);
                }
            }
        }
    }
}

/// `f` holds the entries of `e`, each once, in some order.
pub open spec fn is_permutation(e: Seq<PendingEntry>, f: Seq<PendingEntry>) -> bool {
    &&& e.len() == f.len()
    &&& forall|i: int| 0 <= i < e.len() ==> exists|j: int| 0 <= j < f.len() && f[j] == #[trigger] e[i]
    &&& forall|j: int| 0 <= j < f.len() ==> exists|i: int| 0 <= i < e.len() && e[i] == #[trigger] f[j]
}

/// Vertices not yet in a graph, in the order first met, each with the ids of
/// the dangling edges that reach it (an `indexmap::IndexMap<String, Vec<String>>`).
#[verifier::external_body]
pub struct PendingMap {
    inner: indexmap::IndexMap<String, Vec<String>>,
}

/// The entries of a `PendingMap`, in the map's order.
pub uninterp spec fn pending_entries(m: PendingMap) -> Seq<PendingEntry>;

impl PendingMap {
    /// `IndexMap::new`: an empty map.
    #[verifier::external_body]
    pub fn new() -> (r: Self)
        ensures
            pending_entries(r) == Seq::<PendingEntry>::empty(),
    {
        PendingMap { inner: indexmap::IndexMap::new() }
    }

    /// `IndexMap::len`: the number of entries.
    #[verifier::external_body]
    pub fn len(&self) -> (r: usize)
        ensures
            r == pending_entries(*self).len(),
    {
        self.inner.len()
    }

    /// `IndexMap::get_index`: the entry at position `i`, if there is one.
    #[verifier::external_body]
    pub fn get_index(&self, i: usize) -> (r: Option<(&String, &Vec<String>)>)
        ensures
            r is Some <==> i < pending_entries(*self).len(),
            r matches Some(p) ==> p.0@ == pending_entries(*self)[i as int].0
                && strs_view(p.1@) == pending_entries(*self)[i as int].1,
    {
        self.inner.get_index(i)
    }

    /// `IndexMap::get`: the value of the entry with key `k`, if any.
    #[verifier::external_body]
    pub fn get(&self, k: &str) -> (r: Option<&Vec<String>>)
        ensures
            r is Some <==> has_pending_key(pending_entries(*self), k@),
            r matches Some(v) ==> exists|j: int| 0 <= j < pending_entries(*self).len()
                && (#[trigger] pending_entries(*self)[j]).0 == k@
                && pending_entries(*self)[j].1 == strs_view(v@),
    {
        self.inner.get(k)
    }

    /// `IndexMap::contains_key`: whether some entry has key `k`.
    #[verifier::external_body]
    pub fn contains_key(&self, k: &str) -> (r: bool)
        ensures
            r == has_pending_key(pending_entries(*self), k@),
    {
        self.inner.contains_key(k)
    }

    /// `IndexMap::insert`: an entry with key `k` keeps its place and takes
    /// `v`; otherwise `(k, v)` is added last.
    #[verifier::external_body]
    pub fn insert(&mut self, k: String, v: Vec<String>)
        ensures
            pending_entries(*final(self)) == pending_insert(pending_entries(*old(self)), k@, strs_view(v@)),
    {
        self.inner.insert(k, v);
    }

    /// `IndexMap::sort_unstable_keys`: the same entries, in ascending key order.
    #[verifier::external_body]
    pub fn sort_keys(&mut self)
        ensures
            is_permutation(pending_entries(*old(self)), pending_entries(*final(self))),
            keys_ascending(pending_keys(pending_entries(*final(self)))),
    {
        self.inner.sort_unstable_keys();
    }

    /// `IndexMap::clone`: a map with the same entries in the same order.
    #[verifier::external_body]
    pub fn duplicate(&self) -> (r: Self)
        ensures
            pending_entries(r) == pending_entries(*self),
    {
        PendingMap { inner: self.inner.clone() }
    }
}


// ---------------------------------------------------------------- blocks and buckets

/// The F-block: buckets of matched graphs by variable name (a
/// `hashbrown::HashMap<String, FBucket>`).
#[verifier::external_body]
pub struct FBlockMap {
    inner: hashbrown::HashMap<String, FBucket>,
}

/// The entries of a `FBlockMap`.
pub uninterp spec fn f_block_items(m: FBlockMap) -> Map<Seq<char>, FBucket>;

impl FBlockMap {
    /// `HashMap::new`: an empty map.
    #[verifier::external_body]
    pub fn new() -> (r: Self)
        ensures
            f_block_items(r).dom() == Set::<Seq<char>>::empty(),
    {
        FBlockMap { inner: hashbrown::HashMap::new() }
    }

    /// `HashMap::insert`: maps `k` to `v`, replacing any earlier value.
    #[verifier::external_body]
    pub fn insert(&mut self, k: String, v: FBucket)
        ensures
            f_block_items(*final(self)) == f_block_items(*old(self)).insert(k@, v),
    {
        self.inner.insert(k, v);
    }

    /// `HashMap::remove`: takes `k` out and hands back its value, if any.
    #[verifier::external_body]
    pub fn remove(&mut self, k: &str) -> (r: Option<FBucket>)
        ensures
            f_block_items(*final(self)) == f_block_items(*old(self)).remove(k@),
            r is Some <==> f_block_items(*old(self)).dom().contains(k@),
            r matches Some(v) ==> v == f_block_items(*old(self))[k@],
    {
        self.inner.remove(k)
    }

    /// `HashMap::drain`: every entry once, in the map's own order, leaving
    /// the map empty.
    #[verifier::external_body]
    pub fn drain_all(&mut self) -> (r: Vec<(String, FBucket)>)
        ensures
            f_block_items(*final(self)).dom() == Set::<Seq<char>>::empty(),
            forall|i: int| 0 <= i < r@.len() ==> f_block_items(*old(self)).dom().contains(#[trigger] r@[i].0@)
                && f_block_items(*old(self))[r@[i].0@] == r@[i].1,
            forall|k: Seq<char>| f_block_items(*old(self)).dom().contains(k) ==> exists|i: int| 0 <= i < r@.len() && r@[i].0@ == k,
            forall|i: int, j: int| 0 <= i < j < r@.len() ==> r@[i].0@ != r@[j].0@,
    {
        self.inner.drain().collect()
    }
}

/// The A-block: buckets of graphs being expanded, by variable name (a
/// `hashbrown::HashMap<String, ABucket>`).
#[verifier::external_body]
pub struct ABlockMap {
    inner: hashbrown::HashMap<String, ABucket>,
}

/// The entries of a `ABlockMap`.
pub uninterp spec fn a_block_items(m: ABlockMap) -> Map<Seq<char>, ABucket>;

impl ABlockMap {
    /// `HashMap::new`: an empty map.
    #[verifier::external_body]
    pub fn new() -> (r: Self)
        ensures
            a_block_items(r).dom() == Set::<Seq<char>>::empty(),
    {
        ABlockMap { inner: hashbrown::HashMap::new() }
    }

    /// `HashMap::insert`: maps `k` to `v`, replacing any earlier value.
    #[verifier::external_body]
    pub fn insert(&mut self, k: String, v: ABucket)
        ensures
            a_block_items(*final(self)) == a_block_items(*old(self)).insert(k@, v),
    {
        self.inner.insert(k, v);
    }

    /// `HashMap::remove`: takes `k` out and hands back its value, if any.
    #[verifier::external_body]
    pub fn remove(&mut self, k: &str) -> (r: Option<ABucket>)
        ensures
            a_block_items(*final(self)) == a_block_items(*old(self)).remove(k@),
            r is Some <==> a_block_items(*old(self)).dom().contains(k@),
            r matches Some(v) ==> v == a_block_items(*old(self))[k@],
    {
        self.inner.remove(k)
    }
}

/// The C-block: buckets of intersected expansions, by variable name (a
/// `hashbrown::HashMap<String, CBucket>`).
#[verifier::external_body]
pub struct CBlockMap {
    inner: hashbrown::HashMap<String, CBucket>,
}

/// The entries of a `CBlockMap`.
pub uninterp spec fn c_block_items(m: CBlockMap) -> Map<Seq<char>, CBucket>;

impl CBlockMap {
    /// `HashMap::new`: an empty map.
    #[verifier::external_body]
    pub fn new() -> (r: Self)
        ensures
            c_block_items(r).dom() == Set::<Seq<char>>::empty(),
    {
        CBlockMap { inner: hashbrown::HashMap::new() }
    }

    /// `HashMap::insert`: maps `k` to `v`, replacing any earlier value.
    #[verifier::external_body]
    pub fn insert(&mut self, k: String, v: CBucket)
        ensures
            c_block_items(*final(self)) == c_block_items(*old(self)).insert(k@, v),
    {
        self.inner.insert(k, v);
    }

    /// `HashMap::remove`: takes `k` out and hands back its value, if any.
    #[verifier::external_body]
    pub fn remove(&mut self, k: &str) -> (r: Option<CBucket>)
        ensures
            c_block_items(*final(self)) == c_block_items(*old(self)).remove(k@),
            r is Some <==> c_block_items(*old(self)).dom().contains(k@),
            r matches Some(v) ==> v == c_block_items(*old(self))[k@],
    {
        self.inner.remove(k)
    }
}

/// The T-block: buckets of expansions kept for intersection, by variable
/// name (a `hashbrown::HashMap<String, TBucket>`).
#[verifier::external_body]
pub struct TBlockMap {
    inner: hashbrown::HashMap<String, TBucket>,
}

/// The entries of a `TBlockMap`.
pub uninterp spec fn t_block_items(m: TBlockMap) -> Map<Seq<char>, TBucket>;

impl TBlockMap {
    /// `HashMap::new`: an empty map.
    #[verifier::external_body]
    pub fn new() -> (r: Self)
        ensures
            t_block_items(r).dom() == Set::<Seq<char>>::empty(),
    {
        TBlockMap { inner: hashbrown::HashMap::new() }
    }

    /// `HashMap::insert`: maps `k` to `v`, replacing any earlier value.
    #[verifier::external_body]
    pub fn insert(&mut self, k: String, v: TBucket)
        ensures
            t_block_items(*final(self)) == t_block_items(*old(self)).insert(k@, v),
    {
        self.inner.insert(k, v);
    }

    /// `HashMap::remove`: takes `k` out and hands back its value, if any.
    #[verifier::external_body]
    pub fn remove(&mut self, k: &str) -> (r: Option<TBucket>)
        ensures
            t_block_items(*final(self)) == t_block_items(*old(self)).remove(k@),
            r is Some <==> t_block_items(*old(self)).dom().contains(k@),
            r matches Some(v) ==> v == t_block_items(*old(self))[k@],
    {
        self.inner.remove(k)
    }
}

/// Expansions grouped by the pattern vertex they lead to (a
/// `hashbrown::HashMap<String, Vec<ExpandGraph>>`).
#[verifier::external_body]
pub struct ExpandingGroups {
    inner: hashbrown::HashMap<String, Vec<ExpandGraph>>,
}

/// The entries of a `ExpandingGroups`.
pub uninterp spec fn expanding_groups_items(m: ExpandingGroups) -> Map<Seq<char>, Seq<ExpandGraph>>;

impl ExpandingGroups {
    /// `HashMap::new`: an empty map.
    #[verifier::external_body]
    pub fn new() -> (r: Self)
        ensures
            expanding_groups_items(r).dom() == Set::<Seq<char>>::empty(),
    {
        ExpandingGroups { inner: hashbrown::HashMap::new() }
    }

    /// `HashMap::insert`: maps `k` to `v`, replacing any earlier value.
    #[verifier::external_body]
    pub fn insert(&mut self, k: String, v: Vec<ExpandGraph>)
        ensures
            expanding_groups_items(*final(self)) == expanding_groups_items(*old(self)).insert(k@, v@),
    {
        self.inner.insert(k, v);
    }

    /// `HashMap::remove`: takes `k` out and hands back its value, if any.
    #[verifier::external_body]
    pub fn remove(&mut self, k: &str) -> (r: Option<Vec<ExpandGraph>>)
        ensures
            expanding_groups_items(*final(self)) == expanding_groups_items(*old(self)).remove(k@),
            r is Some <==> expanding_groups_items(*old(self)).dom().contains(k@),
            r matches Some(v) ==> v@ == expanding_groups_items(*old(self))[k@],
    {
        self.inner.remove(k)
    }
}

/// `r` lists each index of `dom` exactly once, in some order.
pub open spec fn lists_indices(r: Seq<usize>, dom: Set<usize>) -> bool {
    &&& forall|i: int| 0 <= i < r.len() ==> dom.contains(#[trigger] r[i])
    &&& forall|k: usize| dom.contains(k) ==> exists|i: int| 0 <= i < r.len() && r[i] == k
    &&& forall|i: int, j: int| 0 <= i < j < r.len() ==> r[i] != r[j]
}

/// The frontier vertices of each matched graph, by the graph's position (a
/// `hashbrown::HashMap<usize, Vec<String>>`).
#[verifier::external_body]
pub struct FrontierMap {
    inner: hashbrown::HashMap<usize, Vec<String>>,
}

/// The entries of a `FrontierMap`, with the ids by their characters.
pub uninterp spec fn frontier_items(m: FrontierMap) -> Map<usize, Seq<Seq<char>>>;

impl FrontierMap {
    /// `HashMap::new`: an empty map.
    #[verifier::external_body]
    pub fn new() -> (r: Self)
        ensures
            frontier_items(r).dom() == Set::<usize>::empty(),
    {
        FrontierMap { inner: hashbrown::HashMap::new() }
    }

    /// `HashMap::insert`: maps `k` to `v`, replacing any earlier value.
    #[verifier::external_body]
    pub fn insert(&mut self, k: usize, v: Vec<String>)
        ensures
            frontier_items(*final(self)) == frontier_items(*old(self)).insert(k, strs_view(v@)),
    {
        self.inner.insert(k, v);
    }

    /// `HashMap::get`: the value of `k`, if any.
    #[verifier::external_body]
    pub fn get(&self, k: usize) -> (r: Option<&Vec<String>>)
        ensures
            r is Some <==> frontier_items(*self).dom().contains(k),
            r matches Some(v) ==> strs_view(v@) == frontier_items(*self)[k],
    {
        self.inner.get(&k)
    }

    /// `HashMap::keys`: every key once, in the map's own order.
    #[verifier::external_body]
    pub fn keys(&self) -> (r: Vec<usize>)
        ensures
            lists_indices(r@, frontier_items(*self).dom()),
    {
        self.inner.keys().cloned().collect()
    }

    /// `HashMap::clone`: a map with the same entries.
    #[verifier::external_body]
    pub fn duplicate(&self) -> (r: Self)
        ensures
            frontier_items(r) == frontier_items(*self),
    {
        FrontierMap { inner: self.inner.clone() }
    }
}

} // verus!
