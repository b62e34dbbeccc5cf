//! Statements read back: the text of a chunk is read as a statement that
//! yields the same chunk, apart from its range.

use vstd::prelude::*;
use crate::attrs::AttrSeq;
use crate::chunk::{
    content, lemma_kinds_differ, ChunkView, KIND_ATTR_STMT, KIND_EDGE, KIND_ID_EQ, KIND_NODE,
    KIND_SUBGRAPH,
};
use crate::grammar::{attr_list_from, edge_targets, is_attr_target, is_reserved, port_end, stmt};
use crate::lexer::{ident_end, is_bare, skip_ws};
use crate::roundtrip::attr_text::{
    attrs_ok, is_solid, lemma_entries_all, lemma_entries_back, lemma_skip_ws_solid,
    lemma_token_first,
};
use crate::roundtrip::node_id::{id_stop, is_node_id, lemma_node_id_in};
use crate::roundtrip::tokens::{
    is_token, lemma_occurs_index, lemma_occurs_split, lemma_token_in, occurs,
};
use crate::serializer::{bracketed, chunk_text, format_attrs};

verus! {

/// A chunk that can be written and read back: its kind is one that the
/// parser yields, its names are tokens or node ids, its attribute values
/// hold no unbalanced HTML-like label, and it holds nothing that its text
/// does not show.
#[verifier::opaque]
pub open spec fn printable(c: ChunkView) -> bool {
    if c.kind == KIND_NODE@ {
        c.id is Some && is_token(c.id->0) && !is_reserved(c.id->0) && c.extra is None && attrs_ok(
            c.attrs,
        )
    } else if c.kind == KIND_EDGE@ {
        c.id is Some && is_node_id(c.id->0) && c.extra is Some && is_node_id(c.extra->0)
            && attrs_ok(c.attrs)
    } else if c.kind == KIND_ATTR_STMT@ {
        c.id is Some && is_attr_target(c.id->0) && c.extra is None && attrs_ok(c.attrs)
    } else if c.kind == KIND_ID_EQ@ {
        c.id is Some && is_token(c.id->0) && c.id->0 != "subgraph"@ && c.extra is Some && is_token(
            c.extra->0,
        ) && c.attrs.len() == 0
    } else if c.kind == KIND_SUBGRAPH@ {
        (c.id is Some ==> is_token(c.id->0)) && c.extra is None && c.attrs.len() == 0
    } else {
        false
    }
}

/// The text of `c`, standing at `p`, is read as one statement that yields
/// `c` apart from its range and ends before the semicolon that closes the
/// text; the text starts with a character at which a statement can start.
pub open spec fn reads_back(s: Seq<char>, p: int, c: ChunkView) -> bool {
    let t = chunk_text(c);
    &&& stmt(s, p) matches Some((cs, e)) && e == p + t.len() - 1 && cs.len() == 1 && content(cs[0])
        == content(c)
    &&& t.len() >= 2
    &&& t[t.len() - 1] == ';'
    &&& is_solid(t[0])
    &&& t[0] != '}' && t[0] != ';'
}

/// The characters of the words and marks that the serializer writes.
pub proof fn lemma_literals()
    ensures
        " -> "@ == seq![' ', '-', '>', ' '],
        " = "@ == seq![' ', '=', ' '],
        "subgraph"@ == seq!['s', 'u', 'b', 'g', 'r', 'a', 'p', 'h'],
        "subgraph "@ == seq!['s', 'u', 'b', 'g', 'r', 'a', 'p', 'h', ' '],
        "graph"@ == seq!['g', 'r', 'a', 'p', 'h'],
        "node"@ == seq!['n', 'o', 'd', 'e'],
        "edge"@ == seq!['e', 'd', 'g', 'e'],
        "digraph"@ == seq!['d', 'i', 'g', 'r', 'a', 'p', 'h'],
        "digraph "@ == seq!['d', 'i', 'g', 'r', 'a', 'p', 'h', ' '],
        "strict"@ == seq!['s', 't', 'r', 'i', 'c', 't'],
        "G"@ == seq!['G'],
{
    reveal_strlit(" -> ");
    reveal_strlit(" = ");
    reveal_strlit("subgraph");
    reveal_strlit("subgraph ");
    reveal_strlit("graph");
    reveal_strlit("node");
    reveal_strlit("edge");
    reveal_strlit("digraph");
    reveal_strlit("digraph ");
    reveal_strlit("strict");
    reveal_strlit("G");
}

/// A bracketed attribute list, written at `q` before a semicolon, is read
/// as the list, and the reading ends where the writing ends.
pub proof fn lemma_bracketed_back(s: Seq<char>, q: int, a: AttrSeq)
    requires
        attrs_ok(a),
        occurs(s, q, bracketed(a) + seq![';']),
    ensures
        attr_list_from(s, q, Seq::empty()) == Some((a, q + bracketed(a).len())),
        skip_ws(s, q) < s.len(),
        s[skip_ws(s, q)] == '[' || s[skip_ws(s, q)] == ';',
        q == s.len() || !is_bare(s[q]),
{
    let b = bracketed(a);
    lemma_occurs_split(s, q, b, seq![';']);
    lemma_occurs_index(s, q + b.len(), seq![';']);
    assert(seq![';'][0] == ';');
    if a.len() == 0 {
        lemma_skip_ws_solid(s, q);
    } else {
        lemma_brackets_back(s, q, a);
    }
}

/// An attribute list in brackets after a blank, written at `q` before a
/// semicolon, is read as the list.
pub proof fn lemma_brackets_back(s: Seq<char>, q: int, a: AttrSeq)
    requires
        attrs_ok(a),
        occurs(s, q, seq![' ', '['] + format_attrs(a) + seq![']']),
        q + format_attrs(a).len() + 3 < s.len(),
        s[q + format_attrs(a).len() + 3] == ';',
    ensures
        attr_list_from(s, q, Seq::empty()) == Some((a, q + format_attrs(a).len() + 3)),
        skip_ws(s, q) == q + 1,
        s[q] == ' ',
        s[q + 1] == '[',
{
    let f = format_attrs(a);
    let text = seq![' ', '['] + f + seq![']'];
    assert(text =~= seq![' ', '['] + (f + seq![']']));
    lemma_occurs_split(s, q, seq![' ', '['], f + seq![']']);
    lemma_occurs_split(s, q + 2, f, seq![']']);
    lemma_occurs_index(s, q, seq![' ', '[']);
    lemma_occurs_index(s, q + 2 + f.len(), seq![']']);
    assert(seq![']'][0] == ']');
    let close = q + 2 + f.len();
    lemma_skip_ws_solid(s, q + 1);
    lemma_entries_all(a);
    assert(a.take(0) =~= Seq::<(Seq<char>, Seq<char>)>::empty());
    lemma_entries_back(s, q + 2, a, 0);
    lemma_skip_ws_solid(s, close);
    lemma_skip_ws_solid(s, close + 1);
    assert(attr_list_from(s, close + 1, a) == Some((a, close + 1)));
}

/// The text of a node chunk is read as a node statement that yields the
/// chunk.
pub proof fn lemma_node_back(s: Seq<char>, p: int, c: ChunkView)
    requires
        printable(c),
        c.kind == KIND_NODE@,
        occurs(s, p, chunk_text(c)),
    ensures
        reads_back(s, p, c),
{
    reveal(printable);
    lemma_literals();
    let x = c.id->0;
    let b = bracketed(c.attrs);
    assert(chunk_text(c) =~= x + (b + seq![';']));
    lemma_occurs_split(s, p, x, b + seq![';']);
    let j = p + x.len();
    lemma_token_first(x);
    lemma_occurs_index(s, p, x);
    lemma_bracketed_back(s, j, c.attrs);
    lemma_token_in(s, p, x);
}

/// The text of an attribute statement is read as an attribute statement
/// that yields the chunk.
pub proof fn lemma_attr_stmt_back(s: Seq<char>, p: int, c: ChunkView)
    requires
        printable(c),
        c.kind == KIND_ATTR_STMT@,
        occurs(s, p, chunk_text(c)),
    ensures
        reads_back(s, p, c),
{
    reveal(printable);
    lemma_literals();
    lemma_kinds_differ();
    let x = c.id->0;
    let f = format_attrs(c.attrs);
    let b = seq![' ', '['] + f + seq![']'];
    assert(chunk_text(c) =~= x + (b + seq![';']));
    lemma_occurs_split(s, p, x, b + seq![';']);
    let j = p + x.len();
    lemma_occurs_split(s, j, b, seq![';']);
    lemma_occurs_index(s, j + b.len(), seq![';']);
    assert(seq![';'][0] == ';');
    lemma_occurs_index(s, p, x);
    lemma_word_token(x);
    lemma_brackets_back(s, j, c.attrs);
    lemma_token_in(s, p, x);
    lemma_token_first(x);
}

/// The three attribute statement keywords are tokens.
pub proof fn lemma_word_token(x: Seq<char>)
    requires
        is_attr_target(x),
    ensures
        is_token(x),
        x != "subgraph"@,
        x.len() > 0,
        x[0] != '{',
{
    lemma_literals();
    crate::roundtrip::attr_text::lemma_all_bare(x, 0);
}

/// The text of an `id = value` chunk is read as an `id = value` statement
/// that yields the chunk.
pub proof fn lemma_id_eq_back(s: Seq<char>, p: int, c: ChunkView)
    requires
        printable(c),
        c.kind == KIND_ID_EQ@,
        occurs(s, p, chunk_text(c)),
    ensures
        reads_back(s, p, c),
{
    reveal(printable);
    lemma_literals();
    lemma_kinds_differ();
    let k = c.id->0;
    let v = c.extra->0;
    let mid = seq![' ', '=', ' '];
    assert(chunk_text(c) =~= k + (mid + (v + seq![';'])));
    lemma_occurs_split(s, p, k, mid + (v + seq![';']));
    let j = p + k.len();
    lemma_occurs_split(s, j, mid, v + seq![';']);
    lemma_occurs_split(s, j + 3, v, seq![';']);
    lemma_occurs_index(s, j, mid);
    lemma_occurs_index(s, j + 3 + v.len(), seq![';']);
    assert(seq![';'][0] == ';');
    lemma_token_first(k);
    lemma_token_first(v);
    lemma_occurs_index(s, p, k);
    lemma_occurs_index(s, j + 3, v);
    lemma_token_in(s, p, k);
    lemma_token_in(s, j + 3, v);
    lemma_skip_ws_solid(s, j + 1);
    lemma_skip_ws_solid(s, j + 3);
    assert(c.attrs =~= Seq::<(Seq<char>, Seq<char>)>::empty());
}

/// One target after an arrow, written at `q` before a bracket or a
/// semicolon, is read as the only target of the chain.
pub proof fn lemma_one_target(s: Seq<char>, q: int, to: Seq<char>)
    requires
        0 <= q,
        q + 4 + to.len() < s.len(),
        s[q] == ' ' && s[q + 1] == '-' && s[q + 2] == '>' && s[q + 3] == ' ',
        occurs(s, q + 4, to),
        is_node_id(to),
        id_stop(s, q + 4 + to.len()),
        skip_ws(s, q + 4 + to.len()) < s.len(),
        s[skip_ws(s, q + 4 + to.len())] != '-',
    ensures
        edge_targets(s, q, Seq::empty()) == Some(
            (Seq::<Seq<char>>::empty().push(to), q + 4 + to.len()),
        ),
{
    let t = q + 4;
    let q2 = t + to.len();
    lemma_skip_ws_solid(s, q + 1);
    crate::roundtrip::node_id::lemma_ident_first(to, 0);
    lemma_occurs_index(s, t, to);
    lemma_skip_ws_solid(s, t);
    lemma_node_id_in(s, t, to);
    crate::lexer::lemma_ident_end(to, 0);
    let one = Seq::<Seq<char>>::empty().push(to);
    assert(edge_targets(s, q2, one) == Some((one, q2)));
}

/// The source of an edge, written at `p` before an arrow, is read as a
/// node id that is no reserved word and that neither `[` nor `=` follows.
pub proof fn lemma_edge_source(s: Seq<char>, p: int, from: Seq<char>)
    requires
        occurs(s, p, from),
        is_node_id(from),
        p + from.len() + 1 < s.len(),
        s[p + from.len()] == ' ',
        s[p + from.len() + 1] == '-',
    ensures
        from.len() > 0,
        s[p] != '{',
        ident_end(s, p) == Some(p + ident_end(from, 0)->0),
        p < p + ident_end(from, 0)->0 <= p + from.len(),
        !is_reserved(s.subrange(p, p + ident_end(from, 0)->0)),
        port_end(s, p + ident_end(from, 0)->0) == p + from.len(),
        skip_ws(s, p + ident_end(from, 0)->0) < s.len(),
        s[skip_ws(s, p + ident_end(from, 0)->0)] != '[',
        s[skip_ws(s, p + ident_end(from, 0)->0)] != '=',
{
    let q = p + from.len();
    lemma_skip_ws_solid(s, q + 1);
    lemma_node_id_in(s, p, from);
    crate::lexer::lemma_ident_end(from, 0);
    lemma_occurs_index(s, p, from);
    lemma_token_out_first(from);
    lemma_after_ident(s, p, from, q);
}

/// What a statement yields that starts with a node id that is no reserved
/// word and that no `=` follows: a node, or the edges of a chain.
pub proof fn lemma_stmt_plain(s: Seq<char>, p: int)
    requires
        0 <= p < s.len(),
        s[p] != '{',
        ident_end(s, p) is Some,
        !is_reserved(s.subrange(p, ident_end(s, p)->0)),
        !(skip_ws(s, ident_end(s, p)->0) < s.len() && s[skip_ws(s, ident_end(s, p)->0)] == '='),
    ensures
        stmt(s, p) == ({
            let j = ident_end(s, p)->0;
            let pe = port_end(s, j);
            match edge_targets(s, pe, Seq::empty()) {
                None => None,
                Some((targets, te)) => match attr_list_from(s, te, Seq::empty()) {
                    None => None,
                    Some((attrs, e)) => if targets.len() == 0 {
                        Some(
                            (
                                seq![
                                    crate::grammar::node_chunk(
                                        s.subrange(p, j),
                                        attrs,
                                        crate::grammar::span_lines(s, p, e),
                                    ),
                                ],
                                e,
                            ),
                        )
                    } else {
                        Some(
                            (
                                crate::grammar::chain_edges(
                                    s.subrange(p, pe),
                                    targets,
                                    attrs,
                                    crate::grammar::span_lines(s, p, e),
                                ),
                                e,
                            ),
                        )
                    },
                },
            }
        }),
{
    crate::lexer::lemma_ident_end(s, p);
    crate::lexer::lemma_skip_ws(s, ident_end(s, p)->0);
}

/// The parts of the text of an edge chunk: source, arrow, target, the
/// bracketed attributes and a semicolon.
pub proof fn lemma_edge_layout(s: Seq<char>, p: int, c: ChunkView)
    requires
        c.kind == KIND_EDGE@,
        c.id is Some,
        c.extra is Some,
        occurs(s, p, chunk_text(c)),
    ensures
        ({
            let q = p + c.id->0.len();
            let t = q + 4;
            let q2 = t + c.extra->0.len();
            &&& occurs(s, p, c.id->0)
            &&& occurs(s, t, c.extra->0)
            &&& occurs(s, q2, bracketed(c.attrs) + seq![';'])
            &&& s[q] == ' ' && s[q + 1] == '-' && s[q + 2] == '>' && s[q + 3] == ' '
            &&& chunk_text(c).len() == c.id->0.len() + 4 + c.extra->0.len() + bracketed(
                c.attrs,
            ).len() + 1
            &&& chunk_text(c)[chunk_text(c).len() - 1] == ';'
            &&& (c.id->0.len() > 0 ==> chunk_text(c)[0] == c.id->0[0])
        }),
{
    let from = c.id->0;
    let to = c.extra->0;
    let arrow = seq![' ', '-', '>', ' '];
    let b = bracketed(c.attrs);
    let q = p + from.len();
    let t = q + 4;
    reveal_strlit(" -> ");
    lemma_kinds_differ();
    assert(chunk_text(c) =~= from + (arrow + (to + (b + seq![';']))));
    lemma_occurs_split(s, p, from, arrow + (to + (b + seq![';'])));
    lemma_occurs_split(s, q, arrow, to + (b + seq![';']));
    lemma_occurs_split(s, t, to, b + seq![';']);
    lemma_occurs_index(s, q, arrow);
}

/// The text of an edge chunk is read as an edge statement that yields the
/// chunk.
pub proof fn lemma_edge_back(s: Seq<char>, p: int, c: ChunkView)
    requires
        printable(c),
        c.kind == KIND_EDGE@,
        occurs(s, p, chunk_text(c)),
    ensures
        reads_back(s, p, c),
{
    reveal(printable);
    lemma_kinds_differ();
    let from = c.id->0;
    let to = c.extra->0;
    let b = bracketed(c.attrs);
    let q = p + from.len();
    let t = q + 4;
    let q2 = t + to.len();
    lemma_edge_layout(s, p, c);
    lemma_bracketed_back(s, q2, c.attrs);
    lemma_edge_source(s, p, from);
    lemma_one_target(s, q, to);
    let one = Seq::<Seq<char>>::empty().push(to);
    let e = q2 + b.len();
    let range = crate::grammar::span_lines(s, p, e);
    assert(crate::grammar::chain_edges(from, one, c.attrs, range) =~= seq![
        crate::grammar::edge_chunk(from, to, c.attrs, range),
    ]);
    lemma_stmt_plain(s, p);
    lemma_token_out_first(from);
    crate::roundtrip::node_id::lemma_ident_first(from, 0);
}

/// After the identifier of a node id that stands before ` -> ` comes a
/// blank, a comment, a colon or the arrow: no bracket and no `=`.
pub proof fn lemma_after_ident(s: Seq<char>, p: int, x: Seq<char>, q: int)
    requires
        occurs(s, p, x),
        is_node_id(x),
        q == p + x.len(),
        q + 1 < s.len(),
        s[q] == ' ',
        s[q + 1] == '-',
    ensures
        skip_ws(s, p + ident_end(x, 0)->0) < s.len(),
        s[skip_ws(s, p + ident_end(x, 0)->0)] == ':' || s[skip_ws(s, p + ident_end(x, 0)->0)]
            == '-',
{
    let j = ident_end(x, 0)->0;
    crate::lexer::lemma_ident_end(x, 0);
    crate::lexer::lemma_skip_ws(x, j);
    lemma_occurs_index(s, p, x);
    let c = skip_ws(x, j);
    if c < x.len() && x[c] == ':' {
        crate::roundtrip::tokens::lemma_skip_ws_in(s, p, x, j);
    } else {
        lemma_skip_ws_solid(s, q + 1);
    }
}

/// The text of a chunk that is no subgraph is read as one statement that
/// yields the chunk, apart from its range; the statement ends before the
/// semicolon.
pub proof fn lemma_stmt_back(s: Seq<char>, p: int, c: ChunkView)
    requires
        printable(c),
        c.kind != KIND_SUBGRAPH@,
        occurs(s, p, chunk_text(c)),
    ensures
        reads_back(s, p, c),
{
    reveal(printable);
    if c.kind == KIND_NODE@ {
        lemma_node_back(s, p, c);
    } else if c.kind == KIND_EDGE@ {
        lemma_edge_back(s, p, c);
    } else if c.kind == KIND_ATTR_STMT@ {
        lemma_attr_stmt_back(s, p, c);
    } else {
        lemma_id_eq_back(s, p, c);
    }
}

/// The first character of a node id is none of the marks of the grammar.
pub proof fn lemma_token_out_first(x: Seq<char>)
    requires
        is_node_id(x),
    ensures
        x.len() > 0,
        x[0] != '}' && x[0] != ';' && x[0] != '{',
{
    crate::lexer::lemma_ident_end(x, 0);
    crate::roundtrip::tokens::lemma_token_out(x, 0);
    let w = x.subrange(0, ident_end(x, 0)->0);
    lemma_token_first(w);
}

} // verus!
