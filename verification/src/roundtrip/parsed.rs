//! What the parser yields can be written: every chunk of a parsed document
//! is well formed.

use vstd::prelude::*;
use crate::attrs::{lemma_put, lemma_slot_from, put, sorted_keys, AttrSeq};
use crate::chunk::{
    lemma_kinds_differ, ChunkView, KIND_ATTR_STMT, KIND_EDGE, KIND_ID_EQ, KIND_NODE, KIND_SUBGRAPH,
};
use crate::grammar::{
    a_list_from, attr_list_from, block, chain_edges, edge_targets, header, id_eq_at, is_attr_target,
    is_reserved, parse_dot, port_end, stmt, stmt_list, token_value,
};
use crate::lexer::{ident_end, lemma_ident_end, lemma_skip_ws, skip_ws};
use crate::roundtrip::attr_text::value_ok;
use crate::roundtrip::node_id::{is_node_id, lemma_node_id_out, lemma_port_end};
use crate::roundtrip::statement::printable;
use crate::roundtrip::tokens::{is_token, lemma_token_out};

verus! {

/// The names of the map are tokens in strictly increasing order.
pub open spec fn keys_ok(a: AttrSeq) -> bool {
    sorted_keys(a) && forall|i: int| 0 <= i < a.len() ==> is_token((#[trigger] a[i]).0)
}

/// Every value of the map can be written and read back: those that look
/// like an HTML-like label are balanced.
pub open spec fn values_ok(a: AttrSeq) -> bool {
    forall|i: int| 0 <= i < a.len() ==> value_ok((#[trigger] a[i]).1)
}

/// A chunk as the parser yields it: its kind is one of the five that
/// statements have, its names are tokens or node ids, and it holds
/// nothing that its text does not show.
pub open spec fn well_formed(c: ChunkView) -> bool {
    if c.kind == KIND_NODE@ {
        c.id is Some && is_token(c.id->0) && !is_reserved(c.id->0) && c.extra is None && keys_ok(
            c.attrs,
        )
    } else if c.kind == KIND_EDGE@ {
        c.id is Some && is_node_id(c.id->0) && c.extra is Some && is_node_id(c.extra->0) && keys_ok(
            c.attrs,
        )
    } else if c.kind == KIND_ATTR_STMT@ {
        c.id is Some && is_attr_target(c.id->0) && c.extra is None && keys_ok(c.attrs)
    } else if c.kind == KIND_ID_EQ@ {
        c.id is Some && is_token(c.id->0) && c.id->0 != "subgraph"@ && c.extra is Some && is_token(
            c.extra->0,
        ) && c.attrs.len() == 0
    } else if c.kind == KIND_SUBGRAPH@ {
        (c.id is Some ==> is_token(c.id->0)) && c.extra is None && c.attrs.len() == 0
    } else {
        false
    }
}

/// Every chunk of the list is well formed.
pub open spec fn all_well_formed(cs: Seq<ChunkView>) -> bool {
    forall|k: int| 0 <= k < cs.len() ==> well_formed(#[trigger] cs[k])
}

/// A well-formed chunk whose values can be written is printable.
pub proof fn lemma_printable(c: ChunkView)
    requires
        well_formed(c),
        values_ok(c.attrs),
    ensures
        printable(c),
{
    reveal(printable);
}

/// Writing an entry whose name is a token keeps the names tokens in
/// order.
pub proof fn lemma_put_keys(a: AttrSeq, k: Seq<char>, v: Seq<char>)
    requires
        keys_ok(a),
        is_token(k),
    ensures
        keys_ok(put(a, k, v)),
{
    lemma_put(a, k, v);
    lemma_slot_from(a, k, 0);
    let r = put(a, k, v);
    assert forall|i: int| 0 <= i < r.len() implies is_token((#[trigger] r[i]).0) by {}
}

/// The names that an attribute list is read into stay tokens in order, and
/// the list ends inside the text.
pub proof fn lemma_a_list_keys(s: Seq<char>, i: int, acc: AttrSeq)
    requires
        0 <= i <= s.len(),
        keys_ok(acc),
    ensures
        keys_ok(a_list_from(s, i, acc).0),
        i <= a_list_from(s, i, acc).1 <= s.len(),
    decreases s.len() - i,
{
    lemma_skip_ws(s, i);
    let a = skip_ws(s, i);
    lemma_ident_end(s, a);
    if let Some((j, v, w)) = id_eq_at(s, a) {
        lemma_skip_ws(s, j);
        lemma_skip_ws(s, skip_ws(s, j) + 1);
        lemma_ident_end(s, v);
        lemma_skip_ws(s, w);
        let sep = skip_ws(s, w);
        let next = if 0 <= sep < s.len() && (s[sep] == ',' || s[sep] == ';') {
            sep + 1
        } else {
            w
        };
        if i < next <= s.len() {
            lemma_token_out(s, a);
            lemma_put_keys(acc, s.subrange(a, j), token_value(s, v, w));
            lemma_a_list_keys(s, next, put(acc, s.subrange(a, j), token_value(s, v, w)));
        }
    }
}

/// The names that bracketed attribute lists are read into stay tokens in
/// order, and the lists end inside the text.
pub proof fn lemma_attr_list_keys(s: Seq<char>, i: int, acc: AttrSeq)
    requires
        0 <= i <= s.len(),
        keys_ok(acc),
    ensures
        attr_list_from(s, i, acc) matches Some((a, e)) ==> keys_ok(a) && i <= e <= s.len(),
    decreases s.len() - i,
{
    lemma_skip_ws(s, i);
    let a = skip_ws(s, i);
    if 0 <= a < s.len() && s[a] == '[' {
        lemma_a_list_keys(s, a + 1, acc);
        let (acc2, j) = a_list_from(s, a + 1, acc);
        lemma_skip_ws(s, j);
        let c = skip_ws(s, j);
        if i <= c < s.len() && s[c] == ']' {
            lemma_attr_list_keys(s, c + 1, acc2);
        }
    }
}

/// Every target of an edge chain is a node id, and the chain ends inside
/// the text.
pub proof fn lemma_targets(s: Seq<char>, j: int, acc: Seq<Seq<char>>)
    requires
        0 <= j <= s.len(),
        forall|k: int| 0 <= k < acc.len() ==> is_node_id(#[trigger] acc[k]),
    ensures
        edge_targets(s, j, acc) matches Some((ts, e)) ==> j <= e <= s.len() && ts.len() >= acc.len()
            && forall|k: int| 0 <= k < ts.len() ==> is_node_id(#[trigger] ts[k]),
    decreases s.len() - j,
{
    lemma_skip_ws(s, j);
    let c = skip_ws(s, j);
    if crate::lexer::at2(s, c, '-', '>') || crate::lexer::at2(s, c, '-', '-') {
        lemma_skip_ws(s, c + 2);
        let t = skip_ws(s, c + 2);
        lemma_ident_end(s, t);
        if let Some(e) = ident_end(s, t) {
            lemma_port_end(s, e);
            let pe = port_end(s, e);
            if j < pe <= s.len() && 0 <= t <= e && !is_reserved(s.subrange(t, e)) {
                lemma_node_id_out(s, t);
                let next = acc.push(s.subrange(t, pe));
                assert forall|k: int| 0 <= k < next.len() implies is_node_id(
                    #[trigger] next[k],
                ) by {}
                lemma_targets(s, pe, next);
            }
        }
    }
}

/// The edges of a chain between node ids are well formed.
pub proof fn lemma_chain(from: Seq<char>, targets: Seq<Seq<char>>, attrs: AttrSeq, range: (usize, usize))
    requires
        is_node_id(from),
        forall|k: int| 0 <= k < targets.len() ==> is_node_id(#[trigger] targets[k]),
        keys_ok(attrs),
    ensures
        all_well_formed(chain_edges(from, targets, attrs, range)),
{
    lemma_kinds_differ();
    let cs = chain_edges(from, targets, attrs, range);
    assert forall|k: int| 0 <= k < cs.len() implies well_formed(#[trigger] cs[k]) by {}
}

/// Two lists of well-formed chunks make a list of well-formed chunks.
pub proof fn lemma_all_concat(a: Seq<ChunkView>, b: Seq<ChunkView>)
    requires
        all_well_formed(a),
        all_well_formed(b),
    ensures
        all_well_formed(a + b),
{
    assert forall|k: int| 0 <= k < (a + b).len() implies well_formed(#[trigger] (a + b)[k]) by {}
}

/// What a statement that is no subgraph yields is well formed, and the
/// statement ends inside the text.
pub proof fn lemma_plain_stmt(s: Seq<char>, i: int)
    requires
        0 <= i < s.len(),
        s[i] != '{',
        ident_end(s, i) is Some,
        s.subrange(i, ident_end(s, i)->0) != "subgraph"@,
    ensures
        stmt(s, i) matches Some((cs, e)) ==> all_well_formed(cs) && i < e <= s.len(),
{
    lemma_kinds_differ();
    lemma_ident_end(s, i);
    let j = ident_end(s, i)->0;
    let word = s.subrange(i, j);
    lemma_token_out(s, i);
    lemma_skip_ws(s, j);
    let a = skip_ws(s, j);
    let none = Seq::<(Seq<char>, Seq<char>)>::empty();
    if is_attr_target(word) && 0 <= a < s.len() && s[a] == '[' {
        lemma_attr_list_keys(s, j, none);
    } else if 0 <= a < s.len() && s[a] == '=' {
        lemma_skip_ws(s, a + 1);
        let v = skip_ws(s, a + 1);
        lemma_ident_end(s, v);
        if ident_end(s, v) is Some {
            lemma_token_out(s, v);
        }
    } else if !(is_reserved(word)) {
        lemma_port_end(s, j);
        let pe = port_end(s, j);
        lemma_node_id_out(s, i);
        lemma_targets(s, pe, Seq::empty());
        if let Some((targets, te)) = edge_targets(s, pe, Seq::empty()) {
            lemma_attr_list_keys(s, te, none);
            if let Some((attrs, e)) = attr_list_from(s, te, none) {
                lemma_chain(s.subrange(i, pe), targets, attrs, crate::grammar::span_lines(s, i, e));
            }
        }
    }
}

/// What a statement yields is well formed, and the statement ends inside
/// the text.
pub proof fn lemma_stmt_wf(s: Seq<char>, i: int)
    requires
        0 <= i <= s.len(),
    ensures
        stmt(s, i) matches Some((cs, e)) ==> all_well_formed(cs) && i < e <= s.len(),
    decreases s.len() - i, 1int,
{
    if i < s.len() {
        if s[i] == '{' {
            lemma_block_wf(s, i, i, None);
        } else {
            lemma_ident_end(s, i);
            if let Some(j) = ident_end(s, i) {
                let word = s.subrange(i, j);
                lemma_skip_ws(s, j);
                let a = skip_ws(s, j);
                if word == "subgraph"@ {
                    if i <= a < s.len() && s[a] == '{' {
                        lemma_block_wf(s, i, a, None);
                    } else {
                        lemma_ident_end(s, a);
                        if let Some(n) = ident_end(s, a) {
                            lemma_token_out(s, a);
                            lemma_skip_ws(s, n);
                            let b = skip_ws(s, n);
                            if i <= b < s.len() && s[b] == '{' {
                                lemma_block_wf(s, i, b, Some(s.subrange(a, n)));
                            }
                        }
                    }
                } else {
                    lemma_plain_stmt(s, i);
                }
            }
        }
    }
}

/// What a block yields is well formed, and the block ends inside the
/// text.
pub proof fn lemma_block_wf(s: Seq<char>, start: int, open: int, id: Option<Seq<char>>)
    requires
        0 <= start <= open <= s.len(),
        id is Some ==> is_token(id->0),
    ensures
        block(s, start, open, id) matches Some((cs, e)) ==> all_well_formed(cs) && open < e
            <= s.len(),
    decreases s.len() - open, 0int,
{
    lemma_kinds_differ();
    if open < s.len() {
        lemma_stmt_list_wf(s, open + 1);
        if let Some((body, j)) = stmt_list(s, open + 1) {
            lemma_skip_ws(s, j);
            let c = skip_ws(s, j);
            if 0 <= c < s.len() && s[c] == '}' {
                let head = seq![
                    crate::grammar::subgraph_chunk(id, crate::grammar::span_lines(s, start, c + 1)),
                ];
                lemma_all_concat(head, body);
            }
        }
    }
}

/// What a statement list yields is well formed, and the list ends inside
/// the text.
pub proof fn lemma_stmt_list_wf(s: Seq<char>, i: int)
    requires
        0 <= i <= s.len(),
    ensures
        stmt_list(s, i) matches Some((cs, e)) ==> all_well_formed(cs) && i <= e <= s.len(),
    decreases s.len() - i, 2int,
{
    lemma_skip_ws(s, i);
    let a = skip_ws(s, i);
    if a < i || a >= s.len() || s[a] == '}' {
    } else if s[a] == ';' {
        lemma_stmt_list_wf(s, a + 1);
    } else {
        lemma_stmt_wf(s, a);
        if let Some((first, j)) = stmt(s, a) {
            if a < j <= s.len() {
                lemma_stmt_list_wf(s, j);
                if let Some((rest, e)) = stmt_list(s, j) {
                    lemma_all_concat(first, rest);
                }
            }
        }
    }
}

/// The header of a document ends inside the text.
pub proof fn lemma_header(s: Seq<char>)
    ensures
        header(s, 0) matches Some(b) ==> 0 <= b < s.len(),
{
}

/// Every chunk of a parsed document is well formed.
pub proof fn lemma_parsed_well_formed(t: Seq<char>)
    ensures
        parse_dot(t) matches Some(cs) ==> all_well_formed(cs),
{
    lemma_header(t);
    if let Some(b) = header(t, 0) {
        lemma_stmt_list_wf(t, b + 1);
    }
}

} // verus!
