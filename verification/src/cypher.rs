//! The Cypher queries that load vertices and edges from the graph store:
//! each query is written out in full and then has its whitespace collapsed,
//! words joined by single spaces.

use vstd::prelude::*;
use vstd::string::StrSliceExecFns;
use crate::schemas::{op_holds, AttrOp, AttrValue, PatternAttr};

verus! {

// ---------------------------------------------------------------- text building

/// `String::push_str`: appends the text.
#[verifier::external_body]
pub(crate) fn push_text(s: &mut String, t: &str)
    ensures
        final(s)@ == old(s)@ + t@,
{
    s.push_str(t);
}

/// `String::push`: appends the character.
#[verifier::external_body]
pub(crate) fn push_char(s: &mut String, c: char)
    ensures
        final(s)@ == old(s)@.push(c),
{
    s.push(c);
}

/// Whether the character has Unicode's `White_Space` property, as
/// `char::is_whitespace` decides: tab, line feed, vertical tab, form feed,
/// carriage return, space, next line, no-break space, ogham space mark, the
/// spaces from en quad to hair space, line and paragraph separators, narrow
/// no-break space, medium mathematical space and ideographic space.
pub open spec fn is_white_space(c: char) -> bool {
    let u = c as u32;
    ||| 0x9 <= u <= 0xD
    ||| u == 0x20
    ||| u == 0x85
    ||| u == 0xA0
    ||| u == 0x1680
    ||| 0x2000 <= u <= 0x200A
    ||| u == 0x2028
    ||| u == 0x2029
    ||| u == 0x202F
    ||| u == 0x205F
    ||| u == 0x3000
}

/// Whether the character is white space.
fn char_is_whitespace(c: char) -> (r: bool)
    ensures
        r == is_white_space(c),
{
    let u = c as u32;
    (0x9 <= u && u <= 0xD) || u == 0x20 || u == 0x85 || u == 0xA0 || u == 0x1680 || (0x2000 <= u && u <= 0x200A)
        || u == 0x2028 || u == 0x2029 || u == 0x202F || u == 0x205F || u == 0x3000
}

// ---------------------------------------------------------------- whitespace

/// The words of a text: its maximal runs of characters that are not white
/// space, in order.
pub open spec fn words(s: Seq<char>) -> Seq<Seq<char>>
    decreases s.len(),
{
    if s.len() == 0 {
        Seq::empty()
    } else {
        let p = words(s.drop_last());
        let c = s.last();
        if is_white_space(c) {
            p
        } else if s.len() >= 2 && !is_white_space(s[s.len() - 2]) {
            p.update(p.len() - 1, p.last().push(c))
        } else {
            p.push(seq![c])
        }
    }
}

/// The words joined by single spaces.
pub open spec fn join_words(ws: Seq<Seq<char>>) -> Seq<char>
    decreases ws.len(),
{
    if ws.len() == 0 {
        Seq::empty()
    } else if ws.len() == 1 {
        ws[0]
    } else {
        join_words(ws.drop_last()) + seq![' '] + ws.last()
    }
}

/// A text with its whitespace collapsed: its words joined by single spaces
/// (`split_whitespace` then `join(" ")`).
pub open spec fn collapse_ws(s: Seq<char>) -> Seq<char> {
    join_words(words(s))
}

/// A text whose last character is not white space has at least one word.
proof fn lemma_words_nonempty(s: Seq<char>)
    requires
        s.len() > 0,
        !is_white_space(s.last()),
    ensures
        words(s).len() > 0,
    decreases s.len(),
{
    if s.len() >= 2 && !is_white_space(s[s.len() - 2]) {
        let t = s.drop_last();
        assert(t.last() == s[s.len() - 2]);
        lemma_words_nonempty(t);
    }
}

/// Joined words are empty exactly when there are no words, given that no
/// word is empty.
proof fn lemma_join_empty(ws: Seq<Seq<char>>)
    requires
        forall|i: int| 0 <= i < ws.len() ==> (#[trigger] ws[i]).len() > 0,
    ensures
        (join_words(ws).len() == 0) == (ws.len() == 0),
    decreases ws.len(),
{
    if ws.len() > 1 {
        lemma_join_empty(ws.drop_last());
    }
}

/// No word is empty.
proof fn lemma_words_not_empty(s: Seq<char>)
    ensures
        forall|i: int| 0 <= i < words(s).len() ==> (#[trigger] words(s)[i]).len() > 0,
    decreases s.len(),
{
    if s.len() > 0 {
        let t = s.drop_last();
        lemma_words_not_empty(t);
        let p = words(t);
        let c = s.last();
        if !is_white_space(c) && s.len() >= 2 && !is_white_space(s[s.len() - 2]) {
            let w = words(s);
            assert(t.last() == s[s.len() - 2]);
            lemma_words_nonempty(t);
            assert(w == p.update(p.len() - 1, p.last().push(c)));
            assert forall|i: int| 0 <= i < w.len() implies (#[trigger] w[i]).len() > 0 by {
                if i == p.len() - 1 {
                    assert(w[i] == p.last().push(c));
                } else {
                    assert(w[i] == p[i]);
                }
            }
        }
    }
}

/// No word holds white space.
proof fn lemma_words_clean(s: Seq<char>)
    ensures
        forall|i: int, k: int| 0 <= i < words(s).len() && 0 <= k < words(s)[i].len()
            ==> !is_white_space(#[trigger] words(s)[i][k]),
    decreases s.len(),
{
    if s.len() > 0 {
        let t = s.drop_last();
        lemma_words_clean(t);
        let p = words(t);
        let c = s.last();
        let w = words(s);
        if !is_white_space(c) {
            if s.len() >= 2 && !is_white_space(s[s.len() - 2]) {
                assert(t.last() == s[s.len() - 2]);
                lemma_words_nonempty(t);
                assert forall|i: int, k: int| 0 <= i < w.len() && 0 <= k < w[i].len()
                    implies !is_white_space(#[trigger] w[i][k]) by {
                    if i == p.len() - 1 {
                        assert(w[i] == p.last().push(c));
                        if k < p.last().len() {
                            assert(w[i][k] == p[i][k]);
                        }
                    } else {
                        assert(w[i] == p[i]);
                    }
                }
            } else {
                assert forall|i: int, k: int| 0 <= i < w.len() && 0 <= k < w[i].len()
                    implies !is_white_space(#[trigger] w[i][k]) by {
                    if i < p.len() {
                        assert(w[i] == p[i]);
                    }
                }
            }
        }
    }
}

/// A word appended after white space, or to nothing, is a word of its own.
proof fn lemma_words_append_word(t: Seq<char>, w: Seq<char>)
    requires
        t.len() == 0 || is_white_space(t.last()),
        w.len() > 0,
        forall|k: int| 0 <= k < w.len() ==> !is_white_space(#[trigger] w[k]),
    ensures
        words(t + w) == words(t).push(w),
    decreases w.len(),
{
    let s = t + w;
    let c = w.last();
    assert(s.drop_last() =~= t + w.drop_last());
    assert(s.last() == c);
    if w.len() == 1 {
        assert(t + w.drop_last() =~= t);
        if s.len() >= 2 {
            assert(s[s.len() - 2] == t.last());
        }
        assert(w =~= seq![c]);
    } else {
        let w1 = w.drop_last();
        lemma_words_append_word(t, w1);
        assert(s[s.len() - 2] == w1.last());
        let p = words(t + w1);
        assert(p == words(t).push(w1));
        assert(words(s) == p.update(p.len() - 1, p.last().push(c)));
        assert(p.last() == w1);
        assert(w1.push(c) =~= w);
        assert(p.update(p.len() - 1, w) =~= words(t).push(w));
    }
}

/// Splitting words joined by spaces gives them back, when none is empty or
/// holds white space.
proof fn lemma_words_of_join(ws: Seq<Seq<char>>)
    requires
        forall|i: int| 0 <= i < ws.len() ==> (#[trigger] ws[i]).len() > 0,
        forall|i: int, k: int| 0 <= i < ws.len() && 0 <= k < ws[i].len() ==> !is_white_space(#[trigger] ws[i][k]),
    ensures
        words(join_words(ws)) == ws,
    decreases ws.len(),
{
    if ws.len() == 0 {
    } else if ws.len() == 1 {
        assert(Seq::<char>::empty() + ws[0] =~= ws[0]);
        assert forall|k: int| 0 <= k < ws[0].len() implies !is_white_space(#[trigger] ws[0][k]) by {}
        lemma_words_append_word(Seq::<char>::empty(), ws[0]);
        assert(words(Seq::<char>::empty()) =~= Seq::<Seq<char>>::empty());
        assert(Seq::<Seq<char>>::empty().push(ws[0]) =~= ws);
    } else {
        let d = ws.drop_last();
        assert forall|i: int, k: int| 0 <= i < d.len() && 0 <= k < d[i].len() implies !is_white_space(#[trigger] d[i][k]) by {
            assert(d[i] == ws[i]);
        }
        lemma_words_of_join(d);
        let j = join_words(d);
        let t = j.push(' ');
        assert(is_white_space(' '));
        assert(t.drop_last() =~= j);
        assert(words(t) == words(j));
        let last = ws.last();
        assert forall|k: int| 0 <= k < last.len() implies !is_white_space(#[trigger] last[k]) by {
            assert(ws[ws.len() - 1] == last);
        }
        lemma_words_append_word(t, last);
        assert(join_words(ws) =~= t + last);
        assert(d.push(last) =~= ws);
    }
}

/// Collapsing whitespace twice is collapsing it once.
pub proof fn law_collapse_idempotent(s: Seq<char>)
    ensures
        collapse_ws(collapse_ws(s)) == collapse_ws(s),
{
    lemma_words_not_empty(s);
    lemma_words_clean(s);
    lemma_words_of_join(words(s));
}

/// Collapses the whitespace of a text: `split_whitespace` then `join(" ")`.
pub fn collapse_whitespace(s: &str) -> (r: String)
    ensures
        r@ == collapse_ws(s@),
{
    let n = s.unicode_len();
    let mut out = String::new();
    let mut prev_ws = true;
    let mut i: usize = 0;
    proof {
        assert(s@.take(0) =~= Seq::<char>::empty());
    }
    while i < n
        invariant
            i <= n,
            n == s@.len(),
            out@ == collapse_ws(s@.take(i as int)),
            prev_ws == (i == 0 || is_white_space(s@[i - 1])),
        decreases n - i,
    {
        let c = s.get_char(i);
        let ghost t = s@.take(i as int);
        let ghost t1 = s@.take(i + 1);
        proof {
            assert(t1.drop_last() =~= t);
            assert(t1.last() == c);
            lemma_words_not_empty(t);
            lemma_join_empty(words(t));
        }
        let w = char_is_whitespace(c);
        if w {
            assert(words(t1) == words(t));
        } else if prev_ws {
            if out.unicode_len() > 0 {
                push_char(&mut out, ' ');
            }
            push_char(&mut out, c);
            proof {
                if i > 0 {
                    assert(t1[t1.len() - 2] == s@[i - 1]);
                }
                assert(words(t1) == words(t).push(seq![c]));
                let ws = words(t1);
                assert(ws.drop_last() =~= words(t));
                if words(t).len() == 0 {
                    assert(join_words(ws) == seq![c]);
                    assert(out@ =~= seq![c]);
                } else {
                    assert(out@ =~= join_words(words(t)) + seq![' '] + seq![c]);
                }
            }
        } else {
            push_char(&mut out, c);
            proof {
                assert(t1[t1.len() - 2] == s@[i - 1]);
                lemma_words_nonempty(t);
                let p = words(t);
                let ws = words(t1);
                assert(ws == p.update(p.len() - 1, p.last().push(c)));
                if p.len() == 1 {
                    assert(join_words(ws) == ws[0]);
                    assert(out@ =~= join_words(ws));
                } else {
                    assert(ws.drop_last() =~= p.drop_last());
                    assert(join_words(p) == join_words(p.drop_last()) + seq![' '] + p.last());
                    assert(out@ =~= join_words(ws));
                }
            }
        }
        prev_ws = w;
        i = i + 1;
    }
    proof {
        assert(s@.take(n as int) =~= s@);
    }
    out
}

// ---------------------------------------------------------------- numbers

/// The digit character of `d`.
pub open spec fn digit_char(d: nat) -> char {
    if d == 0 { '0' } else if d == 1 { '1' } else if d == 2 { '2' } else if d == 3 { '3' } else if d == 4 {
        '4'
    } else if d == 5 { '5' } else if d == 6 { '6' } else if d == 7 { '7' } else if d == 8 { '8' } else { '9' }
}

/// The decimal digits of `n`, without leading zeros.
pub open spec fn decimal(n: nat) -> Seq<char>
    decreases n,
{
    if n < 10 {
        seq![digit_char(n)]
    } else {
        decimal(n / 10).push(digit_char(n % 10))
    }
}

/// The decimal text of an integer, with a leading `-` when it is negative.
pub open spec fn int_text(i: int) -> Seq<char> {
    if i < 0 { seq!['-'] + decimal((-i) as nat) } else { decimal(i as nat) }
}

fn digit(d: u64) -> (c: char)
    requires
        d < 10,
    ensures
        c == digit_char(d as nat),
{
    if d == 0 { '0' } else if d == 1 { '1' } else if d == 2 { '2' } else if d == 3 { '3' } else if d == 4 {
        '4'
    } else if d == 5 { '5' } else if d == 6 { '6' } else if d == 7 { '7' } else if d == 8 { '8' } else { '9' }
}

fn push_decimal(s: &mut String, n: u64)
    ensures
        final(s)@ == old(s)@ + decimal(n as nat),
    decreases n,
{
    if n >= 10 {
        push_decimal(s, n / 10);
    }
    push_char(s, digit(n % 10));
    assert(s@ =~= old(s)@ + decimal(n as nat)) by {
        if n < 10 {
            assert(decimal(n as nat) == seq![digit_char(n as nat)]);
        }
    }
}

/// Appends the decimal text of an integer, as `{}` formats it.
fn push_int(s: &mut String, i: i64)
    ensures
        final(s)@ == old(s)@ + int_text(i as int),
{
    if i < 0 {
        push_char(s, '-');
        let m: u64 = (0i128 - i as i128) as u64;
        push_decimal(s, m);
        assert(s@ =~= old(s)@ + int_text(i as int));
    } else {
        push_decimal(s, i as u64);
    }
}

// ---------------------------------------------------------------- constraints

/// The Cypher operator of a constraint.
pub open spec fn op_text(op: AttrOp) -> Seq<char> {
    match op {
        AttrOp::Eq => seq!['='],
        AttrOp::Ne => seq!['<', '>'],
        AttrOp::Lt => seq!['<'],
        AttrOp::Le => seq!['<', '='],
        AttrOp::Gt => seq!['>'],
        AttrOp::Ge => seq!['>', '='],
    }
}

/// The Cypher literal of a value: an integer in decimal, a string between
/// single quotes, a boolean as `true` or `false`.
pub open spec fn value_text(v: AttrValue) -> Seq<char> {
    match v {
        AttrValue::Int(i) => int_text(i as int),
        AttrValue::Str(t) => seq!['\''] + t@ + seq!['\''],
        AttrValue::Bool(b) => if b { seq!['t', 'r', 'u', 'e'] } else { seq!['f', 'a', 'l', 's', 'e'] },
    }
}

/// The Cypher condition of a constraint on the variable `var`:
/// `<var>.<key> <op> <value>`.
pub open spec fn constraint_text(attr: PatternAttr, var: Seq<char>) -> Seq<char> {
    var + seq!['.'] + attr.key@ + seq![' '] + op_text(attr.op) + seq![' '] + value_text(attr.value)
}

impl PatternAttr {
    /// The Cypher condition of the constraint on the variable `var`.
    pub fn to_neo4j_constraint(&self, var: &str) -> (r: String)
        ensures
            r@ == constraint_text(*self, var@),
    {
        let mut s = String::new();
        push_text(&mut s, var);
        push_char(&mut s, '.');
        push_text(&mut s, self.key.as_str());
        push_char(&mut s, ' ');
        match self.op {
            AttrOp::Eq => push_char(&mut s, '='),
            AttrOp::Ne => {
                push_char(&mut s, '<');
                push_char(&mut s, '>');
            },
            AttrOp::Lt => push_char(&mut s, '<'),
            AttrOp::Le => {
                push_char(&mut s, '<');
                push_char(&mut s, '=');
            },
            AttrOp::Gt => push_char(&mut s, '>'),
            AttrOp::Ge => {
                push_char(&mut s, '>');
                push_char(&mut s, '=');
            },
        }
        push_char(&mut s, ' ');
        let ghost before = s@;
        match &self.value {
            AttrValue::Int(i) => push_int(&mut s, *i),
            AttrValue::Str(t) => {
                push_char(&mut s, '\'');
                push_text(&mut s, t.as_str());
                push_char(&mut s, '\'');
            },
            AttrValue::Bool(b) => {
                if *b {
                    push_text(&mut s, "true");
                    proof { reveal_strlit("true"); }
                } else {
                    push_text(&mut s, "false");
                    proof { reveal_strlit("false"); }
                }
            },
        }
        assert(s@ =~= constraint_text(*self, var@));
        s
    }
}

// ---------------------------------------------------------------- queries

/// The condition line of an optional constraint on `var`, opened by `word`.
pub open spec fn condition_line(word: Seq<char>, attr: Option<PatternAttr>, var: Seq<char>) -> Seq<char> {
    match attr {
        Some(a) => word + constraint_text(a, var) + seq!['\n'],
        None => Seq::empty(),
    }
}

/// The query that loads the vertex with id `vid`: its properties and labels.
pub open spec fn get_v_query_text(vid: Seq<char>) -> Seq<char> {
    collapse_ws(
        "MATCH (v)\nWHERE elementId(v) = '"@ + vid + "'\nRETURN properties(v) as props, labels(v) as v_label"@,
    )
}

/// The query that loads the vertices with label `label` that meet the
/// constraint, if any: their properties and ids.
pub open spec fn load_v_query_text(label: Seq<char>, attr: Option<PatternAttr>) -> Seq<char> {
    collapse_ws(
        "MATCH (v:"@ + label + ")\n"@ + condition_line("WHERE "@, attr, "v"@)
            + "RETURN properties(v) as props, elementId(v) as vid"@,
    )
}

/// The head of an edge query: edges with label `label` from `src` to `dst`.
pub open spec fn edge_head_text(label: Seq<char>) -> Seq<char> {
    "MATCH (src)-[e:"@ + label + "]->(dst)\n"@
}

/// What an edge query returns: ids, properties and ends of the edges.
pub open spec fn edge_return_text() -> Seq<char> {
    "RETURN elementId(e) AS eid, properties(e) AS props, elementId(src) AS src_vid, elementId(dst) AS dst_vid"@
}

/// The query that loads the edges with label `label` that meet the
/// constraint, if any.
pub open spec fn load_e_query_text(label: Seq<char>, attr: Option<PatternAttr>) -> Seq<char> {
    collapse_ws(edge_head_text(label) + condition_line("WHERE "@, attr, "e"@) + edge_return_text())
}

/// The query that loads the edges with label `label` that leave vertex
/// `vid` and meet the constraint, if any.
pub open spec fn load_e_with_src_query_text(vid: Seq<char>, label: Seq<char>, attr: Option<PatternAttr>) -> Seq<char> {
    collapse_ws(
        edge_head_text(label) + "WHERE elementId(src) = '"@ + vid + "'\n"@ + condition_line("AND "@, attr, "e"@)
            + edge_return_text(),
    )
}

/// The query that loads the edges with label `label` that reach vertex
/// `vid` and meet the constraint, if any.
pub open spec fn load_e_with_dst_query_text(vid: Seq<char>, label: Seq<char>, attr: Option<PatternAttr>) -> Seq<char> {
    collapse_ws(
        edge_head_text(label) + "WHERE elementId(dst) = '"@ + vid + "'\n"@ + condition_line("AND "@, attr, "e"@)
            + edge_return_text(),
    )
}

/// Each operator is written in a query as the Cypher relation that it
/// decides on integers: `Eq` as `=` and `==`, `Ne` as `<>` and `!=`, `Lt` as
/// `<`, `Le` as `<=`, `Gt` as `>`, `Ge` as `>=`.
pub proof fn law_operator_text_agrees(a: i64, b: i64)
    ensures
        op_text(AttrOp::Eq) == seq!['='] && (op_holds(AttrOp::Eq, AttrValue::Int(a), AttrValue::Int(b)) <==> a == b),
        op_text(AttrOp::Ne) == seq!['<', '>'] && (op_holds(AttrOp::Ne, AttrValue::Int(a), AttrValue::Int(b)) <==> a != b),
        op_text(AttrOp::Lt) == seq!['<'] && (op_holds(AttrOp::Lt, AttrValue::Int(a), AttrValue::Int(b)) <==> a < b),
        op_text(AttrOp::Le) == seq!['<', '='] && (op_holds(AttrOp::Le, AttrValue::Int(a), AttrValue::Int(b)) <==> a <= b),
        op_text(AttrOp::Gt) == seq!['>'] && (op_holds(AttrOp::Gt, AttrValue::Int(a), AttrValue::Int(b)) <==> a > b),
        op_text(AttrOp::Ge) == seq!['>', '='] && (op_holds(AttrOp::Ge, AttrValue::Int(a), AttrValue::Int(b)) <==> a >= b),
{
}

/// Every edge query writes its constraint on the edge variable `e`: the
/// queries for the edges leaving and reaching a vertex differ only in the
/// end whose id they fix, and the query for all edges puts the same
/// constraint after `WHERE`.
pub proof fn law_edge_constraints_on_edge(vid: Seq<char>, label: Seq<char>, a: PatternAttr)
    ensures
        load_e_with_src_query_text(vid, label, Some(a)) == collapse_ws(
            edge_head_text(label) + "WHERE elementId(src) = '"@ + vid + "'\n"@ + "AND "@ + constraint_text(a, seq!['e'])
                + seq!['\n'] + edge_return_text(),
        ),
        load_e_with_dst_query_text(vid, label, Some(a)) == collapse_ws(
            edge_head_text(label) + "WHERE elementId(dst) = '"@ + vid + "'\n"@ + "AND "@ + constraint_text(a, seq!['e'])
                + seq!['\n'] + edge_return_text(),
        ),
        load_e_query_text(label, Some(a)) == collapse_ws(
            edge_head_text(label) + "WHERE "@ + constraint_text(a, seq!['e']) + seq!['\n'] + edge_return_text(),
        ),
{
    reveal_strlit("e");
    let c = constraint_text(a, seq!['e']);
    assert("e"@ =~= seq!['e']);
    assert(edge_head_text(label) + "WHERE elementId(src) = '"@ + vid + "'\n"@ + condition_line("AND "@, Some(a), "e"@)
        + edge_return_text() =~= edge_head_text(label) + "WHERE elementId(src) = '"@ + vid + "'\n"@ + "AND "@ + c
        + seq!['\n'] + edge_return_text());
    assert(edge_head_text(label) + "WHERE elementId(dst) = '"@ + vid + "'\n"@ + condition_line("AND "@, Some(a), "e"@)
        + edge_return_text() =~= edge_head_text(label) + "WHERE elementId(dst) = '"@ + vid + "'\n"@ + "AND "@ + c
        + seq!['\n'] + edge_return_text());
    assert(edge_head_text(label) + condition_line("WHERE "@, Some(a), "e"@) + edge_return_text()
        =~= edge_head_text(label) + "WHERE "@ + c + seq!['\n'] + edge_return_text());
}

/// Appends the condition line of an optional constraint on `var`.
fn push_condition(s: &mut String, word: &str, attr: Option<&PatternAttr>, var: &str)
    ensures
        final(s)@ == old(s)@ + condition_line(word@, attr_of(attr), var@),
{
    match attr {
        Some(a) => {
            push_text(s, word);
            let c = a.to_neo4j_constraint(var);
            push_text(s, c.as_str());
            push_char(s, '\n');
            assert(s@ =~= old(s)@ + condition_line(word@, Some(*a), var@));
        },
        None => {
            assert(s@ =~= old(s)@ + condition_line(word@, None, var@));
        },
    }
}

/// The view of an optional borrowed constraint.
pub open spec fn attr_of(attr: Option<&PatternAttr>) -> Option<PatternAttr> {
    match attr {
        Some(a) => Some(*a),
        None => None,
    }
}

/// The query that loads the vertex with id `vid`.
pub fn get_v_query(vid: &str) -> (r: String)
    ensures
        r@ == get_v_query_text(vid@),
{
    let mut s = String::new();
    push_text(&mut s, "MATCH (v)\nWHERE elementId(v) = '");
    push_text(&mut s, vid);
    push_text(&mut s, "'\nRETURN properties(v) as props, labels(v) as v_label");
    assert(s@ =~= "MATCH (v)\nWHERE elementId(v) = '"@ + vid@ + "'\nRETURN properties(v) as props, labels(v) as v_label"@);
    collapse_whitespace(s.as_str())
}

/// The query that loads the vertices with label `v_label` that meet the
/// constraint, if any.
pub fn load_v_query(v_label: &str, v_attr: Option<&PatternAttr>) -> (r: String)
    ensures
        r@ == load_v_query_text(v_label@, attr_of(v_attr)),
{
    let mut s = String::new();
    push_text(&mut s, "MATCH (v:");
    push_text(&mut s, v_label);
    push_text(&mut s, ")\n");
    push_condition(&mut s, "WHERE ", v_attr, "v");
    push_text(&mut s, "RETURN properties(v) as props, elementId(v) as vid");
    assert(s@ =~= "MATCH (v:"@ + v_label@ + ")\n"@ + condition_line("WHERE "@, attr_of(v_attr), "v"@)
        + "RETURN properties(v) as props, elementId(v) as vid"@);
    collapse_whitespace(s.as_str())
}

/// Appends the head of an edge query.
fn push_edge_head(s: &mut String, e_label: &str)
    ensures
        final(s)@ == old(s)@ + edge_head_text(e_label@),
{
    push_text(s, "MATCH (src)-[e:");
    push_text(s, e_label);
    push_text(s, "]->(dst)\n");
    assert(s@ =~= old(s)@ + edge_head_text(e_label@));
}

/// Appends what an edge query returns.
fn push_edge_return(s: &mut String)
    ensures
        final(s)@ == old(s)@ + edge_return_text(),
{
    push_text(s, "RETURN elementId(e) AS eid, properties(e) AS props, elementId(src) AS src_vid, elementId(dst) AS dst_vid");
}

/// The query that loads the edges with label `e_label` that meet the
/// constraint, if any.
pub fn load_e_query(e_label: &str, e_attr: Option<&PatternAttr>) -> (r: String)
    ensures
        r@ == load_e_query_text(e_label@, attr_of(e_attr)),
{
    let mut s = String::new();
    push_edge_head(&mut s, e_label);
    push_condition(&mut s, "WHERE ", e_attr, "e");
    push_edge_return(&mut s);
    assert(s@ =~= edge_head_text(e_label@) + condition_line("WHERE "@, attr_of(e_attr), "e"@) + edge_return_text());
    collapse_whitespace(s.as_str())
}

/// The query that loads the edges with label `e_label` that leave vertex
/// `src_vid` and meet the constraint, if any.
pub fn load_e_with_src_query(src_vid: &str, e_label: &str, e_attr: Option<&PatternAttr>) -> (r: String)
    ensures
        r@ == load_e_with_src_query_text(src_vid@, e_label@, attr_of(e_attr)),
{
    let mut s = String::new();
    push_edge_head(&mut s, e_label);
    push_text(&mut s, "WHERE elementId(src) = '");
    push_text(&mut s, src_vid);
    push_text(&mut s, "'\n");
    push_condition(&mut s, "AND ", e_attr, "e");
    push_edge_return(&mut s);
    assert(s@ =~= edge_head_text(e_label@) + "WHERE elementId(src) = '"@ + src_vid@ + "'\n"@
        + condition_line("AND "@, attr_of(e_attr), "e"@) + edge_return_text());
    collapse_whitespace(s.as_str())
}

/// The query that loads the edges with label `e_label` that reach vertex
/// `dst_vid` and meet the constraint, if any.
pub fn load_e_with_dst_query(dst_vid: &str, e_label: &str, e_attr: Option<&PatternAttr>) -> (r: String)
    ensures
        r@ == load_e_with_dst_query_text(dst_vid@, e_label@, attr_of(e_attr)),
{
    let mut s = String::new();
    push_edge_head(&mut s, e_label);
    push_text(&mut s, "WHERE elementId(dst) = '");
    push_text(&mut s, dst_vid);
    push_text(&mut s, "'\n");
    push_condition(&mut s, "AND ", e_attr, "e");
    push_edge_return(&mut s);
    assert(s@ =~= edge_head_text(e_label@) + "WHERE elementId(dst) = '"@ + dst_vid@ + "'\n"@
        + condition_line("AND "@, attr_of(e_attr), "e"@) + edge_return_text());
    collapse_whitespace(s.as_str())
}

} // verus!
