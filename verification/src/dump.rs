//! The columns of a result table: one column per pattern name, in ascending
//! name order, each holding the cells that the matches gave that name.

use vstd::prelude::*;
use crate::cypher::{push_char, push_text};
use crate::dyn_graph::DynGraph;
use crate::keys::{compare_keys, key_lt, lemma_key_order, KeyOrder};
use crate::maps::{keys_ascending, lists_keys, strs_view};
use crate::schemas::PlanData;

verus! {

/// A pattern name with its cells.
pub type CellsView = (Seq<char>, Seq<Seq<char>>);

/// The views of named cell lists.
pub open spec fn entries_view(es: Seq<(String, Vec<String>)>) -> Seq<CellsView> {
    es.map_values(|e: (String, Vec<String>)| (e.0@, strs_view(e.1@)))
}

/// The views of the named cell lists of every match.
pub open spec fn all_view(all: Seq<Vec<(String, Vec<String>)>>) -> Seq<Seq<CellsView>> {
    all.map_values(|g: Vec<(String, Vec<String>)>| entries_view(g@))
}

/// The cells named `k` in `es`, in order.
pub open spec fn entry_cells(es: Seq<CellsView>, k: Seq<char>) -> Seq<Seq<char>>
    decreases es.len(),
{
    if es.len() == 0 {
        Seq::empty()
    } else {
        entry_cells(es.drop_last(), k) + (if es.last().0 == k { es.last().1 } else { Seq::empty() })
    }
}

/// The cells named `k` in every match, in order.
pub open spec fn all_cells(all: Seq<Seq<CellsView>>, k: Seq<char>) -> Seq<Seq<char>>
    decreases all.len(),
{
    if all.len() == 0 {
        Seq::empty()
    } else {
        all_cells(all.drop_last(), k) + entry_cells(all.last(), k)
    }
}

/// Whether `es` names `k`.
pub open spec fn entries_name(es: Seq<CellsView>, k: Seq<char>) -> bool {
    exists|j: int| 0 <= j < es.len() && (#[trigger] es[j]).0 == k
}

/// Whether some match names `k`.
pub open spec fn all_name(all: Seq<Seq<CellsView>>, k: Seq<char>) -> bool {
    exists|i: int| 0 <= i < all.len() && entries_name(#[trigger] all[i], k)
}

/// The names of columns, in order.
pub open spec fn column_names(cols: Seq<(String, Vec<String>)>) -> Seq<Seq<char>> {
    cols.map_values(|c: (String, Vec<String>)| c.0@)
}

/// The state of merging: names ascend, each column holds the cells that
/// `cells` gives its name, and a name has a column exactly when `named`
/// holds of it.
pub open spec fn merged(
    cols: Seq<(String, Vec<String>)>,
    cells: spec_fn(Seq<char>) -> Seq<Seq<char>>,
    named: spec_fn(Seq<char>) -> bool,
) -> bool {
    &&& keys_ascending(column_names(cols))
    &&& forall|i: int| 0 <= i < cols.len() ==> strs_view((#[trigger] cols[i]).1@) == cells(cols[i].0@)
    &&& forall|k: Seq<char>| #[trigger] named(k) <==> column_names(cols).contains(k)
    &&& forall|k: Seq<char>| !named(k) ==> #[trigger] cells(k) == Seq::<Seq<char>>::empty()
}

/// Adds the cells `more` under name `p` to the ascending columns.
fn add_cells(
    cols: &mut Vec<(String, Vec<String>)>,
    p: String,
    more: Vec<String>,
    Ghost(cells): Ghost<spec_fn(Seq<char>) -> Seq<Seq<char>>>,
    Ghost(named): Ghost<spec_fn(Seq<char>) -> bool>,
)
    requires
        merged(old(cols)@, cells, named),
    ensures
        keys_ascending(column_names(final(cols)@)),
        forall|i: int| 0 <= i < final(cols)@.len() ==> strs_view((#[trigger] final(cols)@[i]).1@) == (
            if final(cols)@[i].0@ == p@ { cells(p@) + strs_view(more@) } else { cells(final(cols)@[i].0@) }),
        forall|k: Seq<char>| #[trigger] column_names(final(cols)@).contains(k) <==> (named(k) || k == p@),
{
    let ghost c0 = cols@;
    let ghost n0 = column_names(c0);
    let ghost cells1 = |k: Seq<char>| if k == p@ { cells(k) + strs_view(more@) } else { cells(k) };
    let ghost named1 = |k: Seq<char>| named(k) || k == p@;
    let mut pos: usize = 0;
    let mut found = false;
    while !found && pos < cols.len()
        invariant
            cols@ == c0,
            n0 == column_names(c0),
            pos <= c0.len(),
            found ==> pos < c0.len() && !key_lt(n0[pos as int], p@),
            forall|q: int| 0 <= q < pos ==> key_lt(#[trigger] n0[q], p@),
        decreases c0.len() - pos + (if found { 0int } else { 1int }),
    {
        assert(n0[pos as int] == cols@[pos as int].0@);
        if compare_keys(cols[pos].0.as_str(), p.as_str()) == KeyOrder::Less {
            pos = pos + 1;
        } else {
            found = true;
        }
    }
    if found && compare_keys(cols[pos].0.as_str(), p.as_str()) == KeyOrder::Equal {
        let (name, mut old_cells) = cols.remove(pos);
        let ghost before = old_cells@;
        let mut extra = more;
        old_cells.append(&mut extra);
        cols.insert(pos, (name, old_cells));
        proof {
            assert(column_names(cols@) =~= n0);
            assert(strs_view(old_cells@) =~= strs_view(before) + strs_view(more@));
            assert forall|i: int| 0 <= i < cols@.len() implies strs_view((#[trigger] cols@[i]).1@) == cells1(cols@[i].0@) by {
                if i != pos {
                    assert(cols@[i] == c0[i]);
                    lemma_key_order(n0[i], p@, p@);
                    if i < pos {
                        assert(key_lt(n0[i], p@));
                    } else {
                        assert(key_lt(n0[pos as int], n0[i]));
                    }
                }
            }
            assert forall|k: Seq<char>| named1(k) <==> column_names(cols@).contains(k) by {
                if k == p@ {
                    assert(n0[pos as int] == k);
                }
            }
        }
    } else {
        let pn = p;
        let cell_copy = more;
        let ghost pv = pn@;
        let ghost mv = strs_view(cell_copy@);
        cols.insert(pos, (pn, cell_copy));
        proof {
            let n1 = column_names(cols@);
            assert(n1 =~= n0.insert(pos as int, pv));
            assert(!named(pv)) by {
                if named(pv) {
                    assert(n0.contains(pv));
                    let q = choose|q: int| 0 <= q < n0.len() && n0[q] == pv;
                    lemma_key_order(pv, pv, pv);
                    if q >= pos {
                        assert(found);
                        lemma_key_order(n0[pos as int], pv, pv);
                        if q > pos {
                            assert(key_lt(n0[pos as int], n0[q]));
                            lemma_key_order(pv, n0[pos as int], n0[q]);
                        }
                    }
                }
            }
            assert forall|i: int, j: int| 0 <= i < j < n1.len() implies key_lt(#[trigger] n1[i], #[trigger] n1[j]) by {
                if j == pos {
                    assert(n1[i] == n0[i]);
                } else if i == pos {
                    assert(n1[j] == n0[j - 1]);
                    assert(found);
                    lemma_key_order(pv, n0[pos as int], n0[j - 1]);
                    assert(n0[pos as int] != pv) by {
                        if n0[pos as int] == pv {
                            assert(n0.contains(pv));
                        }
                    }
                    if j - 1 > pos {
                        assert(key_lt(n0[pos as int], n0[j - 1]));
                    }
                } else if j < pos {
                    assert(n1[i] == n0[i] && n1[j] == n0[j]);
                } else if i < pos {
                    assert(n1[i] == n0[i] && n1[j] == n0[j - 1]);
                } else {
                    assert(n1[i] == n0[i - 1] && n1[j] == n0[j - 1]);
                }
            }
            assert forall|i: int| 0 <= i < cols@.len() implies strs_view((#[trigger] cols@[i]).1@) == cells1(cols@[i].0@) by {
                if i == pos {
                    assert(cells(pv) == Seq::<Seq<char>>::empty());
                    assert(cells(pv) + mv =~= mv);
                } else if i < pos {
                    assert(cols@[i] == c0[i]);
                    assert(n0[i] != pv);
                } else {
                    assert(cols@[i] == c0[i - 1]);
                    assert(n0[i - 1] != pv);
                }
            }
            assert forall|k: Seq<char>| named1(k) <==> n1.contains(k) by {
                if k == pv {
                    assert(n1[pos as int] == pv);
                } else {
                    if n0.contains(k) {
                        let q = choose|q: int| 0 <= q < n0.len() && n0[q] == k;
                        if q < pos {
                            assert(n1[q] == k);
                        } else {
                            assert(n1[q + 1] == k);
                        }
                    }
                    if n1.contains(k) {
                        let q = choose|q: int| 0 <= q < n1.len() && n1[q] == k;
                        if q < pos {
                            assert(n0[q] == k);
                        } else {
                            assert(n0[q - 1] == k);
                        }
                    }
                }
            }
        }
    }
}

/// Gathers the named cells of every match into columns: one per name, in
/// ascending name order, each holding the cells of its name in the order of
/// the matches and, within a match, of its entries.
pub fn merge_columns(all: Vec<Vec<(String, Vec<String>)>>) -> (r: Vec<(String, Vec<String>)>)
    ensures
        keys_ascending(column_names(r@)),
        forall|i: int| 0 <= i < r@.len() ==> strs_view((#[trigger] r@[i]).1@) == all_cells(all_view(all@), r@[i].0@),
        forall|k: Seq<char>| all_name(all_view(all@), k) <==> column_names(r@).contains(k),
{
    let ghost av = all_view(all@);
    let ghost orig = all@;
    let mut cols: Vec<(String, Vec<String>)> = Vec::new();
    let mut rest = all;
    let mut a: usize = 0;
    let total = rest.len();
    proof {
        assert(column_names(cols@) =~= Seq::<Seq<char>>::empty());
        let f = |k: Seq<char>| all_cells(av.take(0), k);
        let g = |k: Seq<char>| all_name(av.take(0), k);
        assert(merged(cols@, f, g));
    }
    while rest.len() > 0
        invariant
            a <= orig.len(),
            orig.len() == total,
            av == all_view(orig),
            rest@ == orig.skip(a as int),
            merged(cols@, |k: Seq<char>| all_cells(av.take(a as int), k), |k: Seq<char>| all_name(av.take(a as int), k)),
        decreases rest@.len(),
    {
        let g = rest.remove(0);
        let ghost ev = entries_view(g@);
        let ghost gorig = g@;
        proof {
            assert(orig.skip(a as int)[0] == orig[a as int]);
            assert(av[a as int] == ev);
        }
        let mut grest = g;
        let mut b: usize = 0;
        let gtotal = grest.len();
        proof {
            let f0 = |k: Seq<char>| all_cells(av.take(a as int), k);
            let f1 = |k: Seq<char>| all_cells(av.take(a as int), k) + entry_cells(ev.take(0), k);
            assert forall|k: Seq<char>| #[trigger] f1(k) == f0(k) by {
                assert(ev.take(0) =~= Seq::<CellsView>::empty());
                assert(f1(k) =~= f0(k));
            }
            assert(f1 =~= f0);
            let g0 = |k: Seq<char>| all_name(av.take(a as int), k);
            let g1 = |k: Seq<char>| all_name(av.take(a as int), k) || entries_name(ev.take(0), k);
            assert(g1 =~= g0);
        }
        while grest.len() > 0
            invariant
                b <= gorig.len(),
                gorig.len() == gtotal,
                ev == entries_view(gorig),
                grest@ == gorig.skip(b as int),
                merged(
                    cols@,
                    |k: Seq<char>| all_cells(av.take(a as int), k) + entry_cells(ev.take(b as int), k),
                    |k: Seq<char>| all_name(av.take(a as int), k) || entries_name(ev.take(b as int), k),
                ),
            decreases grest@.len(),
        {
            let (p, more) = grest.remove(0);
            let ghost pv = p@;
            let ghost mv = strs_view(more@);
            let ghost f = |k: Seq<char>| all_cells(av.take(a as int), k) + entry_cells(ev.take(b as int), k);
            let ghost g = |k: Seq<char>| all_name(av.take(a as int), k) || entries_name(ev.take(b as int), k);
            proof {
                assert(gorig.skip(b as int)[0] == gorig[b as int]);
                assert(ev[b as int] == (pv, mv));
            }
            add_cells(&mut cols, p, more, Ghost(f), Ghost(g));
            proof {
                let f2 = |k: Seq<char>| all_cells(av.take(a as int), k) + entry_cells(ev.take(b + 1), k);
                let g2 = |k: Seq<char>| all_name(av.take(a as int), k) || entries_name(ev.take(b + 1), k);
                assert(ev.take(b + 1).drop_last() =~= ev.take(b as int));
                assert(ev.take(b + 1).last() == (pv, mv));
                assert forall|k: Seq<char>| #[trigger] f2(k) == (if k == pv { f(k) + mv } else { f(k) }) by {
                    assert(f2(k) =~= (if k == pv { f(k) + mv } else { f(k) }));
                }
                assert forall|k: Seq<char>| #[trigger] g2(k) == (g(k) || k == pv) by {
                    if entries_name(ev.take(b + 1), k) {
                        let j = choose|j: int| 0 <= j < ev.take(b + 1).len() && (#[trigger] ev.take(b + 1)[j]).0 == k;
                        if j < b {
                            assert(ev.take(b as int)[j] == ev.take(b + 1)[j]);
                        }
                    }
                    if entries_name(ev.take(b as int), k) {
                        let j = choose|j: int| 0 <= j < ev.take(b as int).len() && (#[trigger] ev.take(b as int)[j]).0 == k;
                        assert(ev.take(b + 1)[j] == ev.take(b as int)[j]);
                    }
                    if k == pv {
                        assert(ev.take(b + 1)[b as int].0 == k);
                    }
                }
                assert forall|i: int| 0 <= i < cols@.len() implies strs_view((#[trigger] cols@[i]).1@) == f2(cols@[i].0@) by {
                    let k = cols@[i].0@;
                    assert(f2(k) == (if k == pv { f(k) + mv } else { f(k) }));
                }
                assert forall|k: Seq<char>| #[trigger] g2(k) <==> column_names(cols@).contains(k) by {
                    assert(g2(k) == (g(k) || k == pv));
                }
                assert forall|k: Seq<char>| !g2(k) implies #[trigger] f2(k) == Seq::<Seq<char>>::empty() by {
                    assert(g2(k) == (g(k) || k == pv));
                    assert(f2(k) == f(k));
                }
                assert(merged(cols@, f2, g2));
                assert(grest@ =~= gorig.skip(b + 1));
            }
            b = b + 1;
        }
        proof {
            assert(ev.take(b as int) =~= ev);
            let f1 = |k: Seq<char>| all_cells(av.take(a as int), k) + entry_cells(ev.take(b as int), k);
            let f2 = |k: Seq<char>| all_cells(av.take(a + 1), k);
            let g1 = |k: Seq<char>| all_name(av.take(a as int), k) || entries_name(ev.take(b as int), k);
            let g2 = |k: Seq<char>| all_name(av.take(a + 1), k);
            assert(av.take(a + 1).drop_last() =~= av.take(a as int));
            assert(av.take(a + 1).last() == ev);
            assert forall|k: Seq<char>| #[trigger] f2(k) == f1(k) by {
                assert(f2(k) =~= f1(k));
            }
            assert(f2 =~= f1);
            assert forall|k: Seq<char>| #[trigger] g2(k) == g1(k) by {
                if all_name(av.take(a + 1), k) {
                    let i = choose|i: int| 0 <= i < av.take(a + 1).len() && entries_name(#[trigger] av.take(a + 1)[i], k);
                    if i < a {
                        assert(av.take(a as int)[i] == av.take(a + 1)[i]);
                    }
                }
                if all_name(av.take(a as int), k) {
                    let i = choose|i: int| 0 <= i < av.take(a as int).len() && entries_name(#[trigger] av.take(a as int)[i], k);
                    assert(av.take(a + 1)[i] == av.take(a as int)[i]);
                }
                if entries_name(ev, k) {
                    assert(av.take(a + 1)[a as int] == ev);
                }
            }
            assert(g2 =~= g1);
            assert(rest@ =~= orig.skip(a + 1));
        }
        a = a + 1;
    }
    proof {
        assert(av.take(a as int) =~= av);
        let f = |k: Seq<char>| all_cells(av.take(a as int), k);
        let g = |k: Seq<char>| all_name(av.take(a as int), k);
        assert forall|k: Seq<char>| all_name(av, k) <==> column_names(cols@).contains(k) by {
            assert(g(k) == all_name(av, k));
        }
        assert forall|i: int| 0 <= i < cols@.len() implies strs_view((#[trigger] cols@[i]).1@) == all_cells(av, cols@[i].0@) by {
            assert(f(cols@[i].0@) == all_cells(av, cols@[i].0@));
        }
    }
    cols
}

/// The column names of a table with no match: the plan's pattern vertices,
/// then its pattern edges, each in its map's order.
pub fn plan_columns(plan: &PlanData) -> (r: Vec<String>)
    ensures
        exists|vs: Seq<String>, es: Seq<String>|
            lists_keys(vs, plan.pvs().dom()) && lists_keys(es, plan.pes().dom()) && r@ == vs + es,
{
    let mut vs = plan.pattern_vs.keys();
    let mut es = plan.pattern_es.keys();
    let ghost v0 = vs@;
    let ghost e0 = es@;
    vs.append(&mut es);
    assert(vs@ == v0 + e0);
    vs
}

/// How a vertex or edge shows in a cell: its id, after its label and a colon
/// when detailed, between the terminal's bold and reset codes when colored.
pub open spec fn cell_text(id: Seq<char>, label: Seq<char>, detailed: bool, colored: bool) -> Seq<char> {
    let t = if detailed { label + seq![':'] + id } else { id };
    if colored { seq!['\u{1b}', '[', '1', 'm'] + t + seq!['\u{1b}', '[', '0', 'm'] } else { t }
}

/// The cell of a vertex or edge.
pub fn cell(id: &str, label: &str, detailed: bool, colored: bool) -> (r: String)
    ensures
        r@ == cell_text(id@, label@, detailed, colored),
{
    let mut s = String::new();
    if colored {
        push_char(&mut s, '\u{1b}');
        push_char(&mut s, '[');
        push_char(&mut s, '1');
        push_char(&mut s, 'm');
    }
    if detailed {
        push_text(&mut s, label);
        push_char(&mut s, ':');
    }
    push_text(&mut s, id);
    if colored {
        push_char(&mut s, '\u{1b}');
        push_char(&mut s, '[');
        push_char(&mut s, '0');
        push_char(&mut s, 'm');
    }
    assert(s@ =~= cell_text(id@, label@, detailed, colored));
    s
}

/// The named cells of a match: for each of its vertices, then each of its
/// edges, in the maps' order, the name of the pattern it matches with its
/// one cell.
pub fn pre_dump(g: &DynGraph, detailed: bool, colored: bool) -> (r: Vec<(String, Vec<String>)>)
    requires
        g.wf(),
    ensures
        exists|vk: Seq<String>, ek: Seq<String>| {
            &&& lists_keys(vk, g.vs().dom())
            &&& lists_keys(ek, g.es().dom())
            &&& entries_view(r@) == vk.map_values(
                |k: String| (g.vp()[k@], seq![cell_text(k@, g.vs()[k@].1, detailed, colored)]),
            ) + ek.map_values(|k: String| (g.ep()[k@], seq![cell_text(k@, g.es()[k@].3, detailed, colored)]))
        },
{
    let vk = g.v_entities.keys();
    let ek = g.e_entities.keys();
    let ghost fv = |k: String| (g.vp()[k@], seq![cell_text(k@, g.vs()[k@].1, detailed, colored)]);
    let ghost fe = |k: String| (g.ep()[k@], seq![cell_text(k@, g.es()[k@].3, detailed, colored)]);
    let mut r: Vec<(String, Vec<String>)> = Vec::new();
    let mut i: usize = 0;
    while i < vk.len()
        invariant
            i <= vk@.len(),
            g.wf(),
            lists_keys(vk@, g.vs().dom()),
            fv == (|k: String| (g.vp()[k@], seq![cell_text(k@, g.vs()[k@].1, detailed, colored)])),
            entries_view(r@) == vk@.take(i as int).map_values(fv),
        decreases vk@.len() - i,
    {
        let k = &vk[i];
        assert(g.vs().dom().contains(k@));
        let v = g.v_entities.get(k.as_str()).unwrap();
        let p = g.v_patterns.get(k.as_str()).unwrap();
        let mut cells: Vec<String> = Vec::new();
        cells.push(cell(k.as_str(), v.label.as_str(), detailed, colored));
        let ghost r0 = r@;
        r.push((p.clone(), cells));
        proof {
            assert(g.vs()[k@].1 == v.label@);
            assert(strs_view(cells@) =~= seq![cell_text(k@, g.vs()[k@].1, detailed, colored)]);
            assert(entries_view(r@) =~= entries_view(r0).push(fv(vk@[i as int])));
            assert(vk@.take(i + 1) =~= vk@.take(i as int).push(vk@[i as int]));
            assert(vk@.take(i + 1).map_values(fv) =~= vk@.take(i as int).map_values(fv).push(fv(vk@[i as int])));
        }
        i = i + 1;
    }
    assert(vk@.take(i as int) =~= vk@);
    let ghost base = entries_view(r@);
    let mut j: usize = 0;
    while j < ek.len()
        invariant
            j <= ek@.len(),
            g.wf(),
            lists_keys(ek@, g.es().dom()),
            fe == (|k: String| (g.ep()[k@], seq![cell_text(k@, g.es()[k@].3, detailed, colored)])),
            entries_view(r@) == base + ek@.take(j as int).map_values(fe),
        decreases ek@.len() - j,
    {
        let k = &ek[j];
        assert(g.es().dom().contains(k@));
        let e = g.e_entities.get(k.as_str()).unwrap();
        let p = g.e_patterns.get(k.as_str()).unwrap();
        let mut cells: Vec<String> = Vec::new();
        cells.push(cell(k.as_str(), e.label.as_str(), detailed, colored));
        let ghost r0 = r@;
        r.push((p.clone(), cells));
        proof {
            assert(g.es()[k@].3 == e.label@);
            assert(strs_view(cells@) =~= seq![cell_text(k@, g.es()[k@].3, detailed, colored)]);
            assert(entries_view(r@) =~= entries_view(r0).push(fe(ek@[j as int])));
            assert(ek@.take(j + 1) =~= ek@.take(j as int).push(ek@[j as int]));
            assert(ek@.take(j + 1).map_values(fe) =~= ek@.take(j as int).map_values(fe).push(fe(ek@[j as int])));
        }
        j = j + 1;
    }
    assert(ek@.take(j as int) =~= ek@);
    r
}

} // verus!
