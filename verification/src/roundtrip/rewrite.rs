//! Writing, parsing and writing again: the second writing repeats the
//! first.

use vstd::prelude::*;
use crate::chunk::{content, contents, ChunkView, KIND_SUBGRAPH};
use crate::grammar::{line_of, parse_dot, span_lines, stmt, subgraph_chunk};
use crate::lexer::{lemma_skip_ws, skip_ws};
use crate::roundtrip::document::{
    block_stop, body_end, body_text, chunks_of, lemma_block_step, lemma_body_back,
    lemma_body_end, lemma_close_layout, lemma_document_layout, lemma_line_back,
    lemma_line_layout, lemma_nested_split, lemma_printable_subgraph, lemma_read_list,
    lemma_sub_layout, lemma_written_back, names_graph, read_list, read_stmt, written,
};
use crate::roundtrip::spelled::{
    lemma_spelled_nested, lemma_spelled_printable, spelled_list, writable,
};
use crate::roundtrip::ordering::lemma_sorted_members;
use crate::roundtrip::lines::{
    lemma_line_mono, lemma_line_step, lemma_parsed_sorted, lemma_span, lemma_stmt_lines,
    lemma_stmt_list_lines,
};
use crate::roundtrip::statement::printable;
use crate::roundtrip::tokens::occurs;
use crate::serializer::{by_start_line, chunk_line, chunk_text, close_line, document, open_lines};

verus! {

/// Chunks that say the same are written the same.
pub proof fn lemma_same_text(a: ChunkView, b: ChunkView)
    requires
        content(a) == content(b),
    ensures
        chunk_text(a) == chunk_text(b),
        forall|level: nat| chunk_line(a, level) == chunk_line(b, level),
        forall|depth: nat| open_lines(a, depth) == open_lines(b, depth),
        a.kind == b.kind,
{
}

/// The position at which a parse ended; 0 when nothing was parsed.
pub open spec fn end_of(r: Option<(Seq<ChunkView>, int)>) -> int {
    match r {
        Some((_, e)) => e,
        None => 0,
    }
}

/// The line on which the block ends that is innermost in `stack2`, when a
/// block is open: the line of the position after the brace at `k`.
pub open spec fn ends_at(s: Seq<char>, stack2: Seq<usize>, k: int) -> bool {
    stack2.len() > 0 ==> stack2.last() == line_of(s, k + 1)
}

/// What the second writing needs to know of the chunk after a body: it
/// starts after the line on which the innermost block ends.
pub open spec fn closes_at(again: Seq<ChunkView>, stack2: Seq<usize>, e: int) -> bool {
    stack2.len() > 0 && 0 <= e < again.len() ==> again[e].range.0 > stack2.last()
}

/// The parts of what a body that starts with a subgraph was read as: the
/// subgraph's chunk with the lines of its block, then what its body was
/// read as, then what the text after the block was read as.
pub proof fn lemma_sub_parts(
    s: Seq<char>,
    p: int,
    sorted: Seq<ChunkView>,
    again: Seq<ChunkView>,
    i: int,
    stack: Seq<usize>,
)
    requires
        s.len() < usize::MAX,
        forall|k: int| 0 <= k < sorted.len() ==> printable(#[trigger] sorted[k]),
        0 <= i < sorted.len(),
        again.len() == sorted.len(),
        !(stack.len() > 0 && sorted[i].range.0 > stack.last()),
        sorted[i].kind == KIND_SUBGRAPH@,
        occurs(s, p, body_text(sorted, i, stack)),
        block_stop(s, p + body_text(sorted, i, stack).len()),
        read_list(s, p) == Some(
            (
                again.subrange(i, body_end(sorted, i, stack)),
                skip_ws(s, p + body_text(sorted, i, stack).len()),
            ),
        ),
    ensures
        ({
            let d = stack.len();
            let inner = stack.push(sorted[i].range.1);
            let e1 = body_end(sorted, i + 1, inner);
            let e = body_end(sorted, i, stack);
            let n1 = p + open_lines(sorted[i], d).len();
            let n2 = n1 + body_text(sorted, i + 1, inner).len();
            let k = n2 + 4 * (d + 1);
            let n3 = k + 2;
            let big = skip_ws(s, p + body_text(sorted, i, stack).len());
            &&& i < e1 <= e <= sorted.len()
            &&& e == body_end(sorted, e1, stack)
            &&& p <= p + 4 * (d + 1) < n1 <= n2 <= k
            &&& n3 <= big < s.len()
            &&& s[k] == '}' && s[k + 1] == '\n'
            &&& occurs(s, n1, body_text(sorted, i + 1, inner))
            &&& block_stop(s, n2)
            &&& skip_ws(s, n2) == k
            &&& occurs(s, n3, body_text(sorted, e1, stack))
            &&& n3 + body_text(sorted, e1, stack).len() == p + body_text(sorted, i, stack).len()
            &&& content(again[i]) == content(sorted[i])
            &&& again[i].range == span_lines(s, p + 4 * (d + 1), k + 1)
            &&& read_list(s, n1) == Some((again.subrange(i + 1, e1), k))
            &&& read_list(s, n3) == Some((again.subrange(e1, e), big))
        }),
{
    let c = sorted[i];
    let d = stack.len();
    let inner = stack.push(c.range.1);
    let e1 = body_end(sorted, i + 1, inner);
    let e = body_end(sorted, i, stack);
    let n1 = p + open_lines(c, d).len();
    let n2 = n1 + body_text(sorted, i + 1, inner).len();
    let n3 = n2 + close_line(d).len();
    lemma_sub_layout(s, p, sorted, i, stack);
    lemma_body_end(sorted, e1, stack);
    lemma_close_layout(s, n2, d);
    let k = n2 + 4 * (d + 1);
    lemma_body_back(s, n1, sorted, i + 1, inner);
    let cs1 = chunks_of(read_list(s, n1));
    lemma_printable_subgraph(c);
    lemma_block_step(s, p, c, d, cs1, k);
    lemma_body_back(s, n3, sorted, e1, stack);
    let cs2 = chunks_of(read_list(s, n3));
    let sub = subgraph_chunk(c.id, span_lines(s, p + 4 * (d + 1), k + 1));
    assert(cs1.len() == e1 - (i + 1)) by {
        assert(contents(cs1).len() == contents(sorted.subrange(i + 1, e1)).len());
    }
    assert(cs2.len() == e - e1) by {
        assert(contents(cs2).len() == contents(sorted.subrange(e1, e)).len());
    }
    assert(again[i] == sub) by {
        assert(((seq![sub] + cs1) + cs2)[0] == sub);
    }
    assert(again.subrange(i + 1, e1) =~= cs1) by {
        assert forall|m: int| 0 <= m < cs1.len() implies again.subrange(i + 1, e1)[m] == cs1[m] by {
            assert(((seq![sub] + cs1) + cs2)[m + 1] == cs1[m]);
        }
    }
    assert(again.subrange(e1, e) =~= cs2) by {
        assert forall|m: int| 0 <= m < cs2.len() implies again.subrange(e1, e)[m] == cs2[m] by {
            assert(((seq![sub] + cs1) + cs2)[m + 1 + cs1.len()] == cs2[m]);
        }
    }
    lemma_skip_ws(s, p + body_text(sorted, i, stack).len());
}

/// The parts of what a body that starts with a chunk that is no subgraph
/// was read as: the chunk, read from its line, then what the text after
/// the line was read as.
pub proof fn lemma_line_parts(
    s: Seq<char>,
    p: int,
    sorted: Seq<ChunkView>,
    again: Seq<ChunkView>,
    i: int,
    stack: Seq<usize>,
)
    requires
        s.len() < usize::MAX,
        forall|k: int| 0 <= k < sorted.len() ==> printable(#[trigger] sorted[k]),
        0 <= i < sorted.len(),
        again.len() == sorted.len(),
        !(stack.len() > 0 && sorted[i].range.0 > stack.last()),
        sorted[i].kind != KIND_SUBGRAPH@,
        occurs(s, p, body_text(sorted, i, stack)),
        block_stop(s, p + body_text(sorted, i, stack).len()),
        read_list(s, p) == Some(
            (
                again.subrange(i, body_end(sorted, i, stack)),
                skip_ws(s, p + body_text(sorted, i, stack).len()),
            ),
        ),
    ensures
        ({
            let level = (stack.len() + 1) as nat;
            let e = body_end(sorted, i, stack);
            let n = p + chunk_line(sorted[i], level).len();
            let big = skip_ws(s, p + body_text(sorted, i, stack).len());
            &&& i < e <= sorted.len()
            &&& e == body_end(sorted, i + 1, stack)
            &&& p < n <= big < s.len()
            &&& occurs(s, n, body_text(sorted, i + 1, stack))
            &&& n + body_text(sorted, i + 1, stack).len() == p + body_text(sorted, i, stack).len()
            &&& content(again[i]) == content(sorted[i])
            &&& again[i].range.0 <= line_of(s, n)
            &&& read_list(s, n) == Some((again.subrange(i + 1, e), big))
        }),
{
    let c = sorted[i];
    let level = (stack.len() + 1) as nat;
    let e = body_end(sorted, i, stack);
    let n = p + chunk_line(c, level).len();
    lemma_line_layout(s, p, sorted, i, stack);
    lemma_line_back(s, p, c, level);
    lemma_body_back(s, n, sorted, i + 1, stack);
    let first = chunks_of(read_stmt(s, p + 4 * level));
    let cs2 = chunks_of(read_list(s, n));
    assert(cs2.len() == e - (i + 1)) by {
        assert(contents(cs2).len() == contents(sorted.subrange(i + 1, e)).len());
    }
    assert(again[i] == first[0]) by {
        assert((first + cs2)[0] == first[0]);
    }
    assert(again.subrange(i + 1, e) =~= cs2) by {
        assert forall|m: int| 0 <= m < cs2.len() implies again.subrange(i + 1, e)[m] == cs2[m] by {
            assert((first + cs2)[m + 1] == cs2[m]);
        }
    }
    lemma_skip_ws(s, p + body_text(sorted, i, stack).len());
    // the chunk starts on a line of its statement
    let a = p + 4 * level;
    assert(read_stmt(s, a) == stmt(s, a)) by {
        reveal(read_stmt);
    }
    lemma_stmt_lines(s, a);
    crate::roundtrip::parsed::lemma_stmt_wf(s, a);
    let end = end_of(stmt(s, a));
    lemma_stmt_end(s, p, c, level);
    lemma_line_mono(s, end, n);
}

/// The statement of a chunk line ends before the end of the line.
pub proof fn lemma_stmt_end(s: Seq<char>, p: int, c: ChunkView, level: nat)
    requires
        printable(c),
        c.kind != KIND_SUBGRAPH@,
        occurs(s, p, chunk_line(c, level)),
    ensures
        stmt(s, p + 4 * level) matches Some((first, e)) && e < p + chunk_line(c, level).len()
            <= s.len(),
{
    crate::roundtrip::document::lemma_chunk_line(s, p, c, level);
    crate::roundtrip::statement::lemma_stmt_back(s, p + 4 * level, c);
}

/// Writing the chunks that a written body was read as writes the body
/// again: the second writing opens and closes the same blocks as the
/// first, because the chunks that were read carry the lines of the text.
pub proof fn lemma_second_pass(
    s: Seq<char>,
    p: int,
    sorted: Seq<ChunkView>,
    again: Seq<ChunkView>,
    i: int,
    stack: Seq<usize>,
    stack2: Seq<usize>,
)
    requires
        s.len() < usize::MAX,
        forall|k: int| 0 <= k < sorted.len() ==> printable(#[trigger] sorted[k]),
        0 <= i <= sorted.len(),
        again.len() == sorted.len(),
        occurs(s, p, body_text(sorted, i, stack)),
        block_stop(s, p + body_text(sorted, i, stack).len()),
        read_list(s, p) == Some(
            (
                again.subrange(i, body_end(sorted, i, stack)),
                skip_ws(s, p + body_text(sorted, i, stack).len()),
            ),
        ),
        stack2.len() == stack.len(),
        ends_at(s, stack2, skip_ws(s, p + body_text(sorted, i, stack).len())),
        closes_at(again, stack2, body_end(sorted, i, stack)),
    ensures
        body_text(again, i, stack2) == body_text(sorted, i, stack),
        body_end(again, i, stack2) == body_end(sorted, i, stack),
    decreases sorted.len() - i,
{
    let e = body_end(sorted, i, stack);
    let big = skip_ws(s, p + body_text(sorted, i, stack).len());
    lemma_body_end(sorted, i, stack);
    if i >= sorted.len() || (stack.len() > 0 && sorted[i].range.0 > stack.last()) {
        // the first writing closed the block here, and so does the second
    } else if sorted[i].kind == KIND_SUBGRAPH@ {
        let d = stack.len();
        let inner = stack.push(sorted[i].range.1);
        let e1 = body_end(sorted, i + 1, inner);
        let n1 = p + open_lines(sorted[i], d).len();
        let n2 = n1 + body_text(sorted, i + 1, inner).len();
        let k = n2 + 4 * (d + 1);
        let n3 = k + 2;
        let a = p + 4 * (d + 1);
        lemma_sub_parts(s, p, sorted, again, i, stack);
        lemma_same_text(again[i], sorted[i]);
        lemma_span(s, a, k + 1);
        lemma_line_step(s, k + 1);
        // the subgraph starts before the block around it ends
        lemma_line_mono(s, a, big + 1);
        lemma_line_mono(s, k + 2, big + 1);
        let inner2 = stack2.push(again[i].range.1);
        // after the subgraph's block comes a later line
        assert(closes_at(again, inner2, e1)) by {
            if e1 < again.len() {
                if e1 < e {
                    lemma_read_list(s, n3);
                    lemma_stmt_list_lines(s, n3);
                    assert(again.subrange(e1, e)[0] == again[e1]);
                }
            }
        }
        lemma_second_pass(s, n1, sorted, again, i + 1, inner, inner2);
        lemma_second_pass(s, n3, sorted, again, e1, stack, stack2);
    } else {
        let level = (stack.len() + 1) as nat;
        let n = p + chunk_line(sorted[i], level).len();
        lemma_line_parts(s, p, sorted, again, i, stack);
        lemma_same_text(again[i], sorted[i]);
        lemma_line_mono(s, n, big + 1);
        lemma_second_pass(s, n, sorted, again, i + 1, stack, stack2);
    }
}

/// Writing a list of printable chunks as it stands, parsing what was
/// written and writing the chunks of that parse gives the text of the
/// first writing again.
pub proof fn lemma_rewritten(list: Seq<ChunkView>, name: Option<Seq<char>>)
    requires
        forall|k: int| 0 <= k < list.len() ==> printable(#[trigger] list[k]),
        names_graph(name),
        written(list, name).len() < usize::MAX,
    ensures
        parse_dot(written(list, name)) matches Some(again) && document(again, name) == written(
            list,
            name,
        ) && contents(again) == contents(list),
{
    let s = written(list, name);
    let nm = crate::serializer::or_text(name, "G"@);
    let empty = Seq::<usize>::empty();
    let body = body_text(list, 0, empty);
    let b = nm.len() as int + 11;
    let q = b + body.len();
    lemma_written_back(list, name);
    let again = parse_dot(s)->0;
    lemma_parsed_sorted(s);
    lemma_document_layout(list, name);
    lemma_body_end(list, 0, empty);
    assert(contents(again).len() == contents(list).len());
    assert(again.subrange(0, again.len() as int) =~= again);
    crate::roundtrip::attr_text::lemma_skip_ws_solid(s, q);
    lemma_second_pass(s, b, list, again, 0, empty, empty);
    lemma_nested_split(list, 0, empty);
    lemma_nested_split(again, 0, empty);
}

/// Writing a list of writable chunks, parsing what was written and
/// writing the chunks of that parse gives the text of the first writing
/// again. The chunks may leave an id, an end of an edge or a value to the
/// writer, and a subgraph may have attributes. What is read in between
/// says what the chunks say when they are ordered by start line and
/// spelled out. The name of the graph is a token, empty or absent, and the
/// text is not too long to count its lines.
pub proof fn lemma_write_parse_write(chunks: Seq<ChunkView>, name: Option<Seq<char>>)
    requires
        forall|k: int| 0 <= k < chunks.len() ==> writable(#[trigger] chunks[k]),
        names_graph(name),
        document(chunks, name).len() < usize::MAX,
    ensures
        parse_dot(document(chunks, name)) matches Some(again) && document(again, name)
            == document(chunks, name) && contents(again) == contents(
            spelled_list(by_start_line(chunks)),
        ),
{
    let sorted = by_start_line(chunks);
    assert forall|k: int| 0 <= k < sorted.len() implies writable(#[trigger] sorted[k]) by {
        lemma_sorted_members(chunks, k);
    }
    let list = spelled_list(sorted);
    lemma_spelled_printable(sorted);
    lemma_spelled_nested(sorted, 0, Seq::empty());
    assert(sorted.take(0) =~= Seq::<ChunkView>::empty());
    assert(written(list, name) == document(chunks, name));
    lemma_rewritten(list, name);
}

} // verus!
