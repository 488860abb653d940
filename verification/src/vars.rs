//! Plan variables: a variable is written `<prefix><splitter><name>`, such as
//! `f@v1`, where the prefix names the kind of block that holds it.

use vstd::prelude::*;
use vstd::string::StrSliceExecFns;

verus! {

/// The character that separates the parts of a plan variable.
pub const STR_TUPLE_SPLITTER: char = '@';

/// The kind of block a plan variable lives in.
#[derive(Clone, Copy, Debug, PartialEq, Eq, Structural)]
pub enum VarPrefix {
    /// `f`: a block of matched graphs with their frontier vertices.
    FBlock,
    /// `a`: a block of graphs being expanded along adjacent edges.
    ABlock,
    /// `c`: a block of graphs whose candidate vertices were intersected.
    CBlock,
    /// `t`: a block of graphs kept for a further intersection.
    TBlock,
}

/// The first position at or after `from` that holds the splitter, or the length.
pub open spec fn first_sep_from(s: Seq<char>, from: int) -> int
    decreases s.len() - from,
{
    if from >= s.len() {
        s.len() as int
    } else if s[from] == STR_TUPLE_SPLITTER {
        from
    } else {
        first_sep_from(s, from + 1)
    }
}

/// Whether the variable has at least two parts.
pub open spec fn has_splitter(s: Seq<char>) -> bool {
    first_sep_from(s, 0) < s.len()
}

/// The first part of a variable: its prefix.
pub open spec fn var_prefix_part(s: Seq<char>) -> Seq<char> {
    s.subrange(0, first_sep_from(s, 0))
}

/// The second part of a variable: its name.
pub open spec fn var_name_part(s: Seq<char>) -> Seq<char> {
    let p = first_sep_from(s, 0);
    s.subrange(p + 1, first_sep_from(s, p + 1))
}

/// The prefix that a text names, if any.
pub open spec fn spec_var_prefix(s: Seq<char>) -> Option<VarPrefix> {
    if s == seq!['f'] {
        Some(VarPrefix::FBlock)
    } else if s == seq!['a'] {
        Some(VarPrefix::ABlock)
    } else if s == seq!['c'] {
        Some(VarPrefix::CBlock)
    } else if s == seq!['t'] {
        Some(VarPrefix::TBlock)
    } else {
        None
    }
}

/// `first_sep_from` lies in `from..=len`, holds the splitter when below the
/// length, and nothing before it from `from` on is the splitter.
pub proof fn lemma_first_sep_from(s: Seq<char>, from: int)
    requires
        0 <= from <= s.len(),
    ensures
        from <= first_sep_from(s, from) <= s.len(),
        first_sep_from(s, from) < s.len() ==> s[first_sep_from(s, from)] == STR_TUPLE_SPLITTER,
        forall|i: int| from <= i < first_sep_from(s, from) ==> s[i] != STR_TUPLE_SPLITTER,
    decreases s.len() - from,
{
    if from < s.len() && s[from] != STR_TUPLE_SPLITTER {
        lemma_first_sep_from(s, from + 1);
    }
}

fn find_splitter(s: &str, from: usize, n: usize) -> (r: usize)
    requires
        n == s@.len(),
        from <= n,
    ensures
        r == first_sep_from(s@, from as int),
{
    let mut i = from;
    while i < n
        invariant
            n == s@.len(),
            from <= i <= n,
            first_sep_from(s@, i as int) == first_sep_from(s@, from as int),
        decreases n - i,
    {
        if s.get_char(i) == STR_TUPLE_SPLITTER {
            return i;
        }
        i = i + 1;
    }
    i
}

/// The name part of a plan variable, such as `v1` of `f@v1`.
pub fn resolve_var_name(target_var: &str) -> (r: &str)
    requires
        has_splitter(target_var@),
    ensures
        r@ == var_name_part(target_var@),
{
    let n = target_var.unicode_len();
    let p = find_splitter(target_var, 0, n);
    proof {
        lemma_first_sep_from(target_var@, 0);
        lemma_first_sep_from(target_var@, p + 1);
    }
    let q = find_splitter(target_var, p + 1, n);
    target_var.substring_char(p + 1, q)
}

/// The prefix that a text names, if any.
pub fn parse_var_prefix(s: &str) -> (r: Option<VarPrefix>)
    ensures
        r == spec_var_prefix(s@),
{
    let n = s.unicode_len();
    if n != 1 {
        assert(s@ != seq!['f'] && s@ != seq!['a'] && s@ != seq!['c'] && s@ != seq!['t']);
        return None;
    }
    let c = s.get_char(0);
    assert(s@ =~= seq![c]);
    if c == 'f' {
        Some(VarPrefix::FBlock)
    } else if c == 'a' {
        Some(VarPrefix::ABlock)
    } else if c == 'c' {
        Some(VarPrefix::CBlock)
    } else if c == 't' {
        Some(VarPrefix::TBlock)
    } else {
        None
    }
}

/// Whether the text is a plan variable: whether it holds the splitter.
pub fn is_var(s: &str) -> (r: bool)
    ensures
        r == has_splitter(s@),
{
    let n = s.unicode_len();
    find_splitter(s, 0, n) < n
}

/// The prefix of a plan variable, if the text is one and its prefix names a
/// kind of block.
pub fn var_prefix_of(s: &str) -> (r: Option<VarPrefix>)
    ensures
        r == (if has_splitter(s@) { spec_var_prefix(var_prefix_part(s@)) } else { None }),
{
    let n = s.unicode_len();
    let p = find_splitter(s, 0, n);
    if p < n {
        proof {
            lemma_first_sep_from(s@, 0);
        }
        parse_var_prefix(s.substring_char(0, p))
    } else {
        None
    }
}

/// Splits a plan variable into its prefix and its name.
pub fn resolve_var(target_var: &str) -> (r: (VarPrefix, &str))
    requires
        has_splitter(target_var@),
        spec_var_prefix(var_prefix_part(target_var@)) is Some,
    ensures
        Some(r.0) == spec_var_prefix(var_prefix_part(target_var@)),
        r.1@ == var_name_part(target_var@),
{
    let n = target_var.unicode_len();
    let p = find_splitter(target_var, 0, n);
    proof {
        lemma_first_sep_from(target_var@, 0);
    }
    let head = target_var.substring_char(0, p);
    let prefix = parse_var_prefix(head);
    let name = resolve_var_name(target_var);
    (prefix.unwrap(), name)
}

/// A variable built from a prefix and a name, neither holding the splitter,
/// splits back into that prefix and that name.
pub proof fn law_var_round_trip(prefix: Seq<char>, name: Seq<char>)
    requires
        forall|i: int| 0 <= i < prefix.len() ==> prefix[i] != STR_TUPLE_SPLITTER,
        forall|i: int| 0 <= i < name.len() ==> name[i] != STR_TUPLE_SPLITTER,
    ensures
        has_splitter(prefix + seq![STR_TUPLE_SPLITTER] + name),
        var_prefix_part(prefix + seq![STR_TUPLE_SPLITTER] + name) == prefix,
        var_name_part(prefix + seq![STR_TUPLE_SPLITTER] + name) == name,
{
    let s = prefix + seq![STR_TUPLE_SPLITTER] + name;
    let p = prefix.len() as int;
    assert(s[p] == STR_TUPLE_SPLITTER);
    assert forall|i: int| 0 <= i <= p implies first_sep_from(s, i) == p by {
        lemma_sep_reaches(s, i, p);
    }
    assert forall|i: int| p + 1 <= i <= s.len() implies first_sep_from(s, i) == s.len() by {
        lemma_sep_reaches(s, i, s.len() as int);
    }
    assert(s.subrange(0, p) =~= prefix);
    assert(s.subrange(p + 1, s.len() as int) =~= name);
}

/// From `from`, the first splitter is at `to` when nothing in between is one
/// and `to` is one or is the end.
proof fn lemma_sep_reaches(s: Seq<char>, from: int, to: int)
    requires
        0 <= from <= to <= s.len(),
        forall|i: int| from <= i < to ==> s[i] != STR_TUPLE_SPLITTER,
        to == s.len() || s[to] == STR_TUPLE_SPLITTER,
    ensures
        first_sep_from(s, from) == to,
    decreases to - from,
{
    if from < to {
        lemma_sep_reaches(s, from + 1, to);
    }
}

} // verus!
