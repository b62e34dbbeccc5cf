//! What a chunk leaves to the writer: an absent id for which a default is
//! written, a field that its kind does not write, and the attributes of a
//! subgraph, which are written as a `graph [..]` statement inside its
//! block. A list that says all of this outright is written the same.

use vstd::prelude::*;
use crate::chunk::{
    lemma_kinds_differ, ChunkView, KIND_ATTR_STMT, KIND_EDGE, KIND_ID_EQ, KIND_NODE, KIND_SUBGRAPH,
};
use crate::grammar::{is_attr_target, is_reserved};
use crate::lexer::is_bare;
use crate::roundtrip::attr_text::{attrs_ok, lemma_all_bare};
use crate::roundtrip::node_id::is_node_id;
use crate::roundtrip::statement::{lemma_literals, printable};
use crate::roundtrip::tokens::is_token;
use crate::serializer::{chunk_line, nested_from, open_lines, or_text};

verus! {

/// A chunk whose text the parser reads. What the chunk holds has to be
/// fit for writing: an id is a token, and no reserved word where it names
/// a node; the ends of an edge are node ids; the subject of an attribute
/// statement is `graph`, `node` or `edge`; attribute names are tokens in
/// order, and a value that looks like an HTML-like label is one token.
/// What the chunk does not hold is left to the writer: an absent id, an
/// absent end of an edge and an absent value are written as their
/// defaults.
pub open spec fn writable(c: ChunkView) -> bool {
    if c.kind == KIND_NODE@ {
        (c.id is Some ==> is_token(c.id->0) && !is_reserved(c.id->0)) && attrs_ok(c.attrs)
    } else if c.kind == KIND_EDGE@ {
        (c.id is Some ==> is_node_id(c.id->0)) && (c.extra is Some ==> is_node_id(c.extra->0))
            && attrs_ok(c.attrs)
    } else if c.kind == KIND_ATTR_STMT@ {
        (c.id is Some ==> is_attr_target(c.id->0)) && attrs_ok(c.attrs)
    } else if c.kind == KIND_ID_EQ@ {
        (c.id is Some ==> is_token(c.id->0) && c.id->0 != "subgraph"@) && (c.extra is Some
            ==> is_token(c.extra->0))
    } else if c.kind == KIND_SUBGRAPH@ {
        (c.id is Some ==> is_token(c.id->0)) && attrs_ok(c.attrs)
    } else {
        false
    }
}

/// The chunk that holds what is written for `c`: the default in place of
/// an absent id, end or value, and nothing in a field that is not
/// written. A subgraph's attributes are not written on its own line: see
/// [`graph_line`].
pub open spec fn spelled(c: ChunkView) -> ChunkView {
    if c.kind == KIND_NODE@ {
        ChunkView { id: Some(or_text(c.id, "unknown"@)), extra: None, ..c }
    } else if c.kind == KIND_EDGE@ {
        ChunkView {
            id: Some(or_text(c.id, "unknown"@)),
            extra: Some(or_text(c.extra, "unknown"@)),
            ..c
        }
    } else if c.kind == KIND_ATTR_STMT@ {
        ChunkView { id: Some(or_text(c.id, "graph"@)), extra: None, ..c }
    } else if c.kind == KIND_ID_EQ@ {
        ChunkView {
            id: Some(or_text(c.id, "unknown"@)),
            extra: Some(or_text(c.extra, "\"\""@)),
            attrs: Seq::empty(),
            ..c
        }
    } else if c.kind == KIND_SUBGRAPH@ {
        ChunkView { attrs: Seq::empty(), extra: None, ..c }
    } else {
        c
    }
}

/// The attribute statement that the attributes of the subgraph `c` are
/// written as. It stands on the line on which the block ends, which keeps
/// it inside the block.
pub open spec fn graph_line(c: ChunkView) -> ChunkView {
    ChunkView {
        kind: KIND_ATTR_STMT@,
        id: Some("graph"@),
        attrs: c.attrs,
        range: (c.range.1, c.range.1),
        extra: None,
    }
}

/// The chunks that `c` is written as: itself, spelled out, and for a
/// subgraph with attributes the statement that holds them.
pub open spec fn pieces(c: ChunkView) -> Seq<ChunkView> {
    if c.kind == KIND_SUBGRAPH@ && c.attrs.len() > 0 {
        seq![spelled(c), graph_line(c)]
    } else {
        seq![spelled(c)]
    }
}

/// The pieces of every chunk of the list, in order.
pub open spec fn spelled_list(list: Seq<ChunkView>) -> Seq<ChunkView>
    decreases list.len(),
{
    if list.len() == 0 {
        Seq::empty()
    } else {
        spelled_list(list.drop_last()) + pieces(list.last())
    }
}

/// Where the pieces of the chunk at `i` start in the spelled list.
pub open spec fn piece_index(list: Seq<ChunkView>, i: int) -> int {
    spelled_list(list.take(i)).len() as int
}

/// The words that are written for what is absent are fit for writing.
pub proof fn lemma_defaults()
    ensures
        is_token("unknown"@),
        !is_reserved("unknown"@),
        is_node_id("unknown"@),
        "unknown"@ != "subgraph"@,
        is_token("\"\""@),
        is_attr_target("graph"@),
{
    lemma_literals();
    reveal_strlit("unknown");
    reveal_strlit("\"\"");
    let u = "unknown"@;
    assert(u.len() == 7);
    assert forall|k: int| 0 <= k < u.len() implies is_bare(#[trigger] u[k]) by {}
    lemma_all_bare(u, 0);
    assert(u.subrange(0, 7) =~= u);
    assert(u[0] == 'u');
    let q = "\"\""@;
    assert(q.len() == 2 && q[0] == '"' && q[1] == '"');
}

/// A printable chunk is writable.
pub proof fn lemma_printable_writable(c: ChunkView)
    requires
        printable(c),
    ensures
        writable(c),
{
    reveal(printable);
    lemma_kinds_differ();
}

/// The pieces of a writable chunk are printable.
pub proof fn lemma_pieces_printable(c: ChunkView)
    requires
        writable(c),
    ensures
        forall|t: int| 0 <= t < pieces(c).len() ==> printable(#[trigger] pieces(c)[t]),
{
    reveal(printable);
    lemma_kinds_differ();
    lemma_defaults();
}

/// The spelled list of a list of writable chunks holds printable chunks
/// only.
pub proof fn lemma_spelled_printable(list: Seq<ChunkView>)
    requires
        forall|k: int| 0 <= k < list.len() ==> writable(#[trigger] list[k]),
    ensures
        forall|k: int| 0 <= k < spelled_list(list).len() ==> printable(
            #[trigger] spelled_list(list)[k],
        ),
    decreases list.len(),
{
    if list.len() > 0 {
        lemma_spelled_printable(list.drop_last());
        lemma_pieces_printable(list.last());
        let front = spelled_list(list.drop_last());
        assert forall|k: int| 0 <= k < spelled_list(list).len() implies printable(
            #[trigger] spelled_list(list)[k],
        ) by {
            if k < front.len() {
                assert(spelled_list(list)[k] == front[k]);
            } else {
                assert(spelled_list(list)[k] == pieces(list.last())[k - front.len()]);
            }
        }
    }
}

/// The spelled list of the first `i` chunks is the start of the spelled
/// list.
pub proof fn lemma_spelled_prefix(list: Seq<ChunkView>, i: int)
    requires
        0 <= i <= list.len(),
    ensures
        piece_index(list, i) <= spelled_list(list).len(),
        spelled_list(list).subrange(0, piece_index(list, i)) == spelled_list(list.take(i)),
    decreases list.len() - i,
{
    if i == list.len() {
        assert(list.take(i) =~= list);
        assert(spelled_list(list).subrange(0, spelled_list(list).len() as int) =~= spelled_list(
            list,
        ));
    } else {
        lemma_spelled_prefix(list, i + 1);
        assert(list.take(i + 1).drop_last() =~= list.take(i));
        assert(spelled_list(list).subrange(0, piece_index(list, i)) =~= spelled_list(
            list.take(i),
        ));
    }
}

/// The pieces of the chunk at `i` stand in the spelled list from the
/// chunk's piece index on, and the pieces of the next chunk after them.
pub proof fn lemma_piece_index(list: Seq<ChunkView>, i: int)
    requires
        0 <= i < list.len(),
    ensures
        piece_index(list, i + 1) == piece_index(list, i) + pieces(list[i]).len(),
        piece_index(list, i + 1) <= spelled_list(list).len(),
        piece_index(list, list.len() as int) == spelled_list(list).len(),
        0 <= piece_index(list, i),
        forall|t: int|
            0 <= t < pieces(list[i]).len() ==> spelled_list(list)[piece_index(list, i) + t]
                == #[trigger] pieces(list[i])[t],
{
    lemma_spelled_prefix(list, i + 1);
    assert(list.take(i + 1).drop_last() =~= list.take(i));
    assert(list.take(list.len() as int) =~= list);
    let whole = spelled_list(list);
    let a = piece_index(list, i);
    assert forall|t: int| 0 <= t < pieces(list[i]).len() implies whole[a + t]
        == #[trigger] pieces(list[i])[t] by {
        assert(whole.subrange(0, piece_index(list, i + 1))[a + t] == whole[a + t]);
    }
}

/// The line that is written for a spelled chunk is the line that is
/// written for the chunk.
pub proof fn lemma_spelled_line(c: ChunkView, level: nat)
    requires
        c.kind != KIND_SUBGRAPH@,
    ensures
        chunk_line(spelled(c), level) == chunk_line(c, level),
{
    lemma_kinds_differ();
}

/// The lines that open a subgraph are the lines that open the spelled
/// subgraph and, where it has attributes, the line of their statement.
pub proof fn lemma_spelled_open(c: ChunkView, depth: nat)
    requires
        c.kind == KIND_SUBGRAPH@,
    ensures
        open_lines(c, depth) == open_lines(spelled(c), depth) + if c.attrs.len() > 0 {
            chunk_line(graph_line(c), depth + 2)
        } else {
            Seq::empty()
        },
{
    lemma_kinds_differ();
    lemma_literals();
    reveal_strlit("graph [");
    if c.attrs.len() > 0 {
        assert("graph ["@ =~= "graph"@ + seq![' ', '[']);
        assert(open_lines(c, depth) =~= open_lines(spelled(c), depth) + chunk_line(
            graph_line(c),
            depth + 2,
        ));
    } else {
        assert(open_lines(c, depth) =~= open_lines(spelled(c), depth) + Seq::<char>::empty());
    }
}

/// The spelled list is written as the list is, from every chunk on and
/// inside every stack of open blocks.
pub proof fn lemma_spelled_nested(list: Seq<ChunkView>, i: int, stack: Seq<usize>)
    requires
        0 <= i <= list.len(),
    ensures
        nested_from(spelled_list(list), piece_index(list, i), stack) == nested_from(list, i, stack),
    decreases list.len() - i, stack.len(),
{
    let whole = spelled_list(list);
    let a = piece_index(list, i);
    lemma_kinds_differ();
    if i >= list.len() {
        assert(list.take(i) =~= list);
        if stack.len() > 0 {
            lemma_spelled_nested(list, i, stack.drop_last());
        }
    } else {
        lemma_piece_index(list, i);
        let c = list[i];
        assert(whole[a] == pieces(c)[0]);
        assert(whole[a].range == c.range);
        assert(whole[a].kind == c.kind);
        if stack.len() > 0 && c.range.0 > stack.last() {
            lemma_spelled_nested(list, i, stack.drop_last());
        } else if c.kind == KIND_SUBGRAPH@ {
            let inner = stack.push(c.range.1);
            lemma_spelled_open(c, stack.len());
            lemma_spelled_nested(list, i + 1, inner);
            if c.attrs.len() > 0 {
                assert(whole[a + 1] == pieces(c)[1]);
                assert(nested_from(whole, a + 1, inner) == chunk_line(
                    graph_line(c),
                    inner.len() + 1,
                ) + nested_from(whole, a + 2, inner));
                assert(nested_from(whole, a, stack) == open_lines(whole[a], stack.len())
                    + nested_from(whole, a + 1, inner));
                assert(nested_from(whole, a, stack) =~= nested_from(list, i, stack));
            } else {
                assert(nested_from(whole, a, stack) =~= nested_from(list, i, stack));
            }
        } else {
            lemma_spelled_line(c, stack.len() + 1);
            lemma_spelled_nested(list, i + 1, stack);
        }
    }
}

} // verus!
