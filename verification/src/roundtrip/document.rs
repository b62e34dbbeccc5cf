//! Documents read back: the text that the serializer writes for a list of
//! chunks is read as a document that yields the same chunks, apart from
//! their ranges, in the order in which they were written.

use vstd::prelude::*;
use crate::chunk::{content, contents, lemma_kinds_differ, ChunkView, Content, KIND_SUBGRAPH};
use crate::roundtrip::ordering::{lemma_sorted_contents, lemma_sorted_members};
use crate::grammar::{block, header, parse_dot, stmt, stmt_list, subgraph_chunk};
use crate::parser::prefixed;
use crate::lexer::{ident_end, is_bare, is_space, lemma_skip_ws, skip_ws};
use crate::roundtrip::attr_text::{is_solid, lemma_skip_ws_solid, lemma_token_first};
use crate::roundtrip::statement::{lemma_literals, lemma_stmt_back, printable};
use crate::roundtrip::tokens::{
    is_token, lemma_occurs_index, lemma_occurs_split, lemma_token_in, occurs,
};
use crate::serializer::{
    by_start_line, chunk_line, chunk_text, close_line, document, indent, nested_from, open_lines,
    or_text,
};

verus! {

/// What the statement list at `p` yields: `stmt_list`, kept folded in the
/// proofs below so that each of them unfolds only what it needs.
#[verifier::opaque]
pub open spec fn read_list(s: Seq<char>, p: int) -> Option<(Seq<ChunkView>, int)> {
    stmt_list(s, p)
}

/// What the statement at `p` yields: `stmt`, kept folded in the proofs
/// below.
#[verifier::opaque]
pub open spec fn read_stmt(s: Seq<char>, p: int) -> Option<(Seq<ChunkView>, int)> {
    stmt(s, p)
}

/// What the block that opens at `open` yields: `block`, kept folded in the
/// proofs below.
#[verifier::opaque]
pub open spec fn read_block(s: Seq<char>, start: int, open: int, id: Option<Seq<char>>) -> Option<
    (Seq<ChunkView>, int),
> {
    block(s, start, open, id)
}

/// The chunks of a parse result; none when nothing was parsed.
pub open spec fn chunks_of(r: Option<(Seq<ChunkView>, int)>) -> Seq<ChunkView> {
    match r {
        Some((cs, _)) => cs,
        None => Seq::empty(),
    }
}

/// Writing from chunk `i` inside the open blocks `stack`: the chunk before
/// which the innermost block is closed, or the end of the list.
pub open spec fn body_end(sorted: Seq<ChunkView>, i: int, stack: Seq<usize>) -> int
    decreases sorted.len() - i,
{
    if i < 0 || i >= sorted.len() {
        i
    } else if stack.len() > 0 && sorted[i].range.0 > stack.last() {
        i
    } else if sorted[i].kind == KIND_SUBGRAPH@ {
        let after = body_end(sorted, i + 1, stack.push(sorted[i].range.1));
        if i < after <= sorted.len() {
            body_end(sorted, after, stack)
        } else {
            after
        }
    } else {
        body_end(sorted, i + 1, stack)
    }
}

/// Writing from chunk `i` inside the open blocks `stack`: the text up to
/// the line that closes the innermost block.
pub open spec fn body_text(sorted: Seq<ChunkView>, i: int, stack: Seq<usize>) -> Seq<char>
    decreases sorted.len() - i,
{
    if i < 0 || i >= sorted.len() {
        Seq::empty()
    } else if stack.len() > 0 && sorted[i].range.0 > stack.last() {
        Seq::empty()
    } else if sorted[i].kind == KIND_SUBGRAPH@ {
        let inner = stack.push(sorted[i].range.1);
        let after = body_end(sorted, i + 1, inner);
        open_lines(sorted[i], stack.len()) + body_text(sorted, i + 1, inner) + close_line(
            stack.len(),
        ) + if i < after <= sorted.len() {
            body_text(sorted, after, stack)
        } else {
            Seq::empty()
        }
    } else {
        chunk_line(sorted[i], stack.len() + 1) + body_text(sorted, i + 1, stack)
    }
}

/// The innermost block is closed at or after the chunk that is written
/// next, and inside the list.
pub proof fn lemma_body_end(sorted: Seq<ChunkView>, i: int, stack: Seq<usize>)
    requires
        0 <= i <= sorted.len(),
    ensures
        i <= body_end(sorted, i, stack) <= sorted.len(),
        stack.len() == 0 ==> body_end(sorted, i, stack) == sorted.len(),
    decreases sorted.len() - i,
{
    if i < sorted.len() && !(stack.len() > 0 && sorted[i].range.0 > stack.last()) {
        if sorted[i].kind == KIND_SUBGRAPH@ {
            let inner = stack.push(sorted[i].range.1);
            lemma_body_end(sorted, i + 1, inner);
            let after = body_end(sorted, i + 1, inner);
            lemma_body_end(sorted, after, stack);
        } else {
            lemma_body_end(sorted, i + 1, stack);
        }
    }
}

/// What follows the body of the innermost block: the line that closes it
/// and the text of the blocks around it; nothing when no block is open.
pub open spec fn closing(sorted: Seq<ChunkView>, i: int, stack: Seq<usize>) -> Seq<char> {
    if stack.len() == 0 {
        Seq::empty()
    } else {
        close_line((stack.len() - 1) as nat) + nested_from(sorted, i, stack.drop_last())
    }
}

/// The nested text is the body of the innermost block and what follows
/// it.
pub proof fn lemma_nested_split(sorted: Seq<ChunkView>, i: int, stack: Seq<usize>)
    requires
        0 <= i <= sorted.len(),
    ensures
        nested_from(sorted, i, stack) == body_text(sorted, i, stack) + closing(
            sorted,
            body_end(sorted, i, stack),
            stack,
        ),
    decreases sorted.len() - i,
{
    lemma_body_end(sorted, i, stack);
    let e = body_end(sorted, i, stack);
    if i >= sorted.len() || (stack.len() > 0 && sorted[i].range.0 > stack.last()) {
        assert(body_text(sorted, i, stack) + closing(sorted, e, stack) =~= closing(
            sorted,
            e,
            stack,
        ));
    } else if sorted[i].kind == KIND_SUBGRAPH@ {
        let inner = stack.push(sorted[i].range.1);
        lemma_body_end(sorted, i + 1, inner);
        let after = body_end(sorted, i + 1, inner);
        lemma_nested_split(sorted, i + 1, inner);
        lemma_nested_split(sorted, after, stack);
        assert(inner.drop_last() =~= stack);
        assert(closing(sorted, after, inner) == close_line(stack.len()) + nested_from(
            sorted,
            after,
            stack,
        ));
    } else {
        lemma_nested_split(sorted, i + 1, stack);
    }
}

/// Blank space runs over a run of spaces to the solid character after it.
pub proof fn lemma_skip_spaces(s: Seq<char>, p: int, q: int)
    requires
        0 <= p <= q < s.len(),
        forall|k: int| p <= k < q ==> s[k] == ' ',
        is_solid(s[q]),
    ensures
        skip_ws(s, p) == q,
    decreases q - p,
{
    if p < q {
        lemma_skip_spaces(s, p + 1, q);
    }
}

/// Indentation standing at `p` before a solid character is skipped as
/// blank space.
pub proof fn lemma_skip_indent(s: Seq<char>, p: int, n: nat)
    requires
        occurs(s, p, indent(n)),
        p + 4 * n < s.len(),
        is_solid(s[p + 4 * n]),
    ensures
        skip_ws(s, p) == p + 4 * n,
{
    lemma_occurs_index(s, p, indent(n));
    assert forall|k: int| p <= k < p + 4 * n implies s[k] == ' ' by {
        assert(s[p + (k - p)] == indent(n)[k - p]);
    }
    lemma_skip_spaces(s, p, p + 4 * n);
}

/// A statement list read from a blank is the list read from after it.
pub proof fn lemma_stmt_list_from_blank(s: Seq<char>, i: int)
    requires
        0 <= i < s.len(),
        is_space(s[i]),
    ensures
        read_list(s, i) == read_list(s, i + 1),
{
    reveal(read_list);
    lemma_skip_ws(s, i + 1);
}

/// The parts of a chunk line: indentation, the chunk's text, which ends
/// with a semicolon, and a line feed.
pub proof fn lemma_chunk_line(s: Seq<char>, p: int, c: ChunkView, level: nat)
    requires
        occurs(s, p, chunk_line(c, level)),
    ensures
        chunk_line(c, level).len() == 4 * level + chunk_text(c).len() + 1,
        occurs(s, p, indent(level)),
        occurs(s, p + 4 * level, chunk_text(c)),
        s[p + 4 * level + chunk_text(c).len()] == '\n',
{
    let t = chunk_text(c);
    let a = p + 4 * level;
    assert(chunk_line(c, level) =~= indent(level) + (t + seq!['\n']));
    lemma_occurs_split(s, p, indent(level), t + seq!['\n']);
    lemma_occurs_split(s, a, t, seq!['\n']);
    lemma_occurs_index(s, a + t.len(), seq!['\n']);
    assert(seq!['\n'][0] == '\n');
}

/// `read_stmt` is `stmt`.
pub proof fn lemma_read_stmt(s: Seq<char>, p: int)
    ensures
        read_stmt(s, p) == stmt(s, p),
{
    reveal(read_stmt);
}

/// A statement list read from a semicolon is the list read from after
/// it.
pub proof fn lemma_list_semicolon(s: Seq<char>, i: int)
    requires
        0 <= i < s.len(),
        s[i] == ';',
    ensures
        read_list(s, i) == read_list(s, i + 1),
{
    reveal(read_list);
    lemma_skip_ws_solid(s, i);
}

/// A chunk line standing at `p` is read as one statement that yields the
/// chunk, and the statement list goes on after the line.
pub proof fn lemma_line_back(s: Seq<char>, p: int, c: ChunkView, level: nat)
    requires
        printable(c),
        c.kind != KIND_SUBGRAPH@,
        occurs(s, p, chunk_line(c, level)),
    ensures
        read_stmt(s, p + 4 * level) matches Some((first, e)) && first.len() == 1 && content(
            first[0],
        ) == content(c) && read_list(s, p) == prefixed(
            first,
            read_list(s, p + chunk_line(c, level).len()),
        ),
{
    let t = chunk_text(c);
    let a = p + 4 * level;
    lemma_chunk_line(s, p, c, level);
    lemma_stmt_back(s, a, c);
    lemma_read_stmt(s, a);
    lemma_occurs_index(s, a, t);
    let e = a + t.len() - 1;
    lemma_skip_indent(s, p, level);
    let first = chunks_of(read_stmt(s, a));
    lemma_list_step(s, p, a, first, e);
    lemma_list_semicolon(s, e);
    lemma_stmt_list_from_blank(s, e + 1);
}

/// A subgraph chunk that can be written and read back: its id, if it has
/// one, is a token, and it holds neither attributes nor an extra value.
pub open spec fn subgraph_ok(c: ChunkView) -> bool {
    c.kind == KIND_SUBGRAPH@ && (c.id is Some ==> is_token(c.id->0)) && c.extra is None
        && c.attrs.len() == 0
}

/// A printable chunk of kind subgraph is a subgraph chunk that can be
/// written and read back.
pub proof fn lemma_printable_subgraph(c: ChunkView)
    requires
        printable(c),
        c.kind == KIND_SUBGRAPH@,
    ensures
        subgraph_ok(c),
{
    reveal(printable);
    lemma_kinds_differ();
}

/// The parts of the line that opens a subgraph: indentation, the keyword,
/// a blank, the id if there is one, a blank, the brace and a line feed.
pub proof fn lemma_open_layout(s: Seq<char>, p: int, c: ChunkView, depth: nat)
    requires
        c.kind == KIND_SUBGRAPH@,
        c.attrs.len() == 0,
        occurs(s, p, open_lines(c, depth)),
    ensures
        ({
            let a = p + 4 * (depth + 1);
            let id = or_text(c.id, Seq::empty());
            let b = a + 9 + id.len();
            &&& open_lines(c, depth).len() == 4 * (depth + 1) + 9 + id.len() + 3
            &&& occurs(s, p, indent(depth + 1))
            &&& occurs(s, a, "subgraph"@)
            &&& s[a] == 's'
            &&& s[a + 8] == ' '
            &&& occurs(s, a + 9, id)
            &&& s[b] == ' ' && s[b + 1] == '{' && s[b + 2] == '\n'
        }),
{
    lemma_literals();
    let word = seq!['s', 'u', 'b', 'g', 'r', 'a', 'p', 'h'];
    let id = or_text(c.id, Seq::empty());
    let tail = seq![' ', '{', '\n'];
    let a = p + 4 * (depth + 1);
    assert(open_lines(c, depth) =~= indent(depth + 1) + (word + (seq![' '] + (id + tail))));
    lemma_occurs_split(s, p, indent(depth + 1), word + (seq![' '] + (id + tail)));
    lemma_occurs_split(s, a, word, seq![' '] + (id + tail));
    lemma_occurs_split(s, a + 8, seq![' '], id + tail);
    lemma_occurs_split(s, a + 9, id, tail);
    lemma_occurs_index(s, a, word);
    lemma_occurs_index(s, a + 8, seq![' ']);
    lemma_occurs_index(s, a + 9 + id.len(), tail);
    assert(seq![' '][0] == ' ');
}

/// The keyword `subgraph` before a blank is read as an identifier.
pub proof fn lemma_keyword(s: Seq<char>, a: int)
    requires
        occurs(s, a, "subgraph"@),
        a + 8 < s.len(),
        s[a + 8] == ' ',
    ensures
        ident_end(s, a) == Some(a + 8),
        s.subrange(a, a + 8) == "subgraph"@,
        s[a] != '{',
{
    lemma_literals();
    let word = "subgraph"@;
    assert forall|k: int| 0 <= k < word.len() implies is_bare(#[trigger] word[k]) by {}
    crate::roundtrip::attr_text::lemma_all_bare(word, 0);
    lemma_token_in(s, a, word);
    lemma_occurs_index(s, a, word);
}

/// What a statement yields that starts with the keyword `subgraph`: the
/// block whose brace follows the keyword or the name after it.
pub proof fn lemma_stmt_subgraph(s: Seq<char>, a: int)
    requires
        0 <= a < s.len(),
        s[a] != '{',
        ident_end(s, a) == Some(a + 8),
        s.subrange(a, a + 8) == "subgraph"@,
    ensures
        stmt(s, a) == ({
            let w = skip_ws(s, a + 8);
            if a <= w < s.len() && s[w] == '{' {
                block(s, a, w, None)
            } else {
                match ident_end(s, w) {
                    None => None,
                    Some(n) => {
                        let b = skip_ws(s, n);
                        if a <= b < s.len() && s[b] == '{' {
                            block(s, a, b, Some(s.subrange(w, n)))
                        } else {
                            None
                        }
                    },
                }
            }
        }),
{
}

/// The keyword, a name and a brace are read as the start of a block with
/// that name.
pub proof fn lemma_open_named(s: Seq<char>, a: int, x: Seq<char>)
    requires
        0 <= a,
        a + 9 + x.len() + 1 < s.len(),
        s[a] != '{',
        ident_end(s, a) == Some(a + 8),
        s.subrange(a, a + 8) == "subgraph"@,
        s[a + 8] == ' ',
        occurs(s, a + 9, x),
        is_token(x),
        s[a + 9 + x.len()] == ' ',
        s[a + 9 + x.len() + 1] == '{',
    ensures
        read_stmt(s, a) == read_block(s, a, a + 9 + x.len() + 1, Some(x)),
{
    reveal(read_stmt);
    reveal(read_block);
    let b = a + 9 + x.len();
    lemma_stmt_subgraph(s, a);
    lemma_token_first(x);
    lemma_occurs_index(s, a + 9, x);
    lemma_skip_ws_solid(s, a + 9);
    lemma_token_in(s, a + 9, x);
    lemma_skip_ws_solid(s, b + 1);
}

/// The keyword and a brace are read as the start of a block without a
/// name.
pub proof fn lemma_open_anonymous(s: Seq<char>, a: int)
    requires
        0 <= a,
        a + 10 < s.len(),
        s[a] != '{',
        ident_end(s, a) == Some(a + 8),
        s.subrange(a, a + 8) == "subgraph"@,
        s[a + 8] == ' ',
        s[a + 9] == ' ',
        s[a + 10] == '{',
    ensures
        read_stmt(s, a) == read_block(s, a, a + 10, None),
{
    reveal(read_stmt);
    reveal(read_block);
    lemma_stmt_subgraph(s, a);
    lemma_skip_ws_solid(s, a + 10);
    assert(skip_ws(s, a + 9) == a + 10);
}

/// The line that opens a subgraph, standing at `p`, is read as the start
/// of a block with the subgraph's id; the brace is the last character of
/// the line before the line feed.
pub proof fn lemma_open_back(s: Seq<char>, p: int, c: ChunkView, depth: nat)
    requires
        subgraph_ok(c),
        occurs(s, p, open_lines(c, depth)),
    ensures
        ({
            let a = p + 4 * (depth + 1);
            let n = p + open_lines(c, depth).len();
            &&& a + 10 <= n - 2
            &&& skip_ws(s, p) == a
            &&& s[a] != '}' && s[a] != ';'
            &&& s[n - 2] == '{'
            &&& s[n - 1] == '\n'
            &&& read_stmt(s, a) == read_block(s, a, n - 2, c.id)
        }),
{
    let a = p + 4 * (depth + 1);
    lemma_open_layout(s, p, c, depth);
    lemma_skip_indent(s, p, depth + 1);
    lemma_keyword(s, a);
    if c.id is Some {
        lemma_open_named(s, a, c.id->0);
    } else {
        lemma_open_anonymous(s, a);
    }
}

/// Where a block may end: after blank space a closing brace stands.
pub open spec fn block_stop(s: Seq<char>, q: int) -> bool {
    0 <= q <= skip_ws(s, q) < s.len() && s[skip_ws(s, q)] == '}'
}

/// The line that closes a block, standing at `n`: after the indentation
/// come the brace and a line feed, and a block may end at `n`.
pub proof fn lemma_close_layout(s: Seq<char>, n: int, d: nat)
    requires
        occurs(s, n, close_line(d)),
    ensures
        close_line(d).len() == 4 * (d + 1) + 2,
        s[n + 4 * (d + 1)] == '}',
        s[n + 4 * (d + 1) + 1] == '\n',
        skip_ws(s, n) == n + 4 * (d + 1),
        block_stop(s, n),
{
    let k = n + 4 * (d + 1);
    lemma_occurs_split(s, n, indent(d + 1), seq!['}', '\n']);
    lemma_occurs_index(s, k, seq!['}', '\n']);
    lemma_skip_indent(s, n, d + 1);
}

/// A subgraph whose opening line stands at `p` and whose body, read from
/// after that line, yields `cs1` and ends at the brace at `k`: the
/// statement list at `p` yields the subgraph's chunk, then `cs1`, then
/// what the list yields after the closing line.
pub proof fn lemma_block_step(
    s: Seq<char>,
    p: int,
    c: ChunkView,
    d: nat,
    cs1: Seq<ChunkView>,
    k: int,
)
    requires
        subgraph_ok(c),
        occurs(s, p, open_lines(c, d)),
        read_list(s, p + open_lines(c, d).len()) == Some((cs1, k)),
        p + open_lines(c, d).len() <= k,
        k + 1 < s.len(),
        s[k] == '}',
        s[k + 1] == '\n',
    ensures
        ({
            let a = p + 4 * (d + 1);
            let sub = subgraph_chunk(c.id, crate::grammar::span_lines(s, a, k + 1));
            &&& content(sub) == content(c)
            &&& read_list(s, p) == prefixed(seq![sub] + cs1, read_list(s, k + 2))
        }),
{
    let a = p + 4 * (d + 1);
    let n1 = p + open_lines(c, d).len();
    lemma_open_back(s, p, c, d);
    lemma_stmt_list_from_blank(s, n1 - 1);
    lemma_skip_ws_solid(s, k);
    let sub = subgraph_chunk(c.id, crate::grammar::span_lines(s, a, k + 1));
    let first = seq![sub] + cs1;
    assert(read_block(s, a, n1 - 2, c.id) == Some((first, k + 1))) by {
        reveal(read_block);
        reveal(read_list);
    }
    lemma_stmt_list_from_blank(s, k + 1);
    lemma_list_step(s, p, a, first, k + 1);
}

/// A statement list whose first statement starts at `a`, after blank
/// space, and yields `first` goes on after that statement.
pub proof fn lemma_list_step(s: Seq<char>, p: int, a: int, first: Seq<ChunkView>, j: int)
    requires
        0 <= p <= a < s.len(),
        skip_ws(s, p) == a,
        s[a] != '}' && s[a] != ';',
        read_stmt(s, a) == Some((first, j)),
        a < j <= s.len(),
    ensures
        read_list(s, p) == prefixed(first, read_list(s, j)),
{
    reveal(read_list);
    reveal(read_stmt);
}

/// The contents of a head, of the chunks from `i + 1` to `mid` and of the
/// chunks from `mid` to `end` are the contents of the chunks from `i` to
/// `end`, when the head says what chunk `i` says.
pub proof fn lemma_contents_join(
    sorted: Seq<ChunkView>,
    i: int,
    mid: int,
    end: int,
    head: ChunkView,
    cs1: Seq<ChunkView>,
    cs2: Seq<ChunkView>,
)
    requires
        0 <= i < mid <= end <= sorted.len(),
        content(head) == content(sorted[i]),
        contents(cs1) == contents(sorted.subrange(i + 1, mid)),
        contents(cs2) == contents(sorted.subrange(mid, end)),
    ensures
        contents((seq![head] + cs1) + cs2) == contents(sorted.subrange(i, end)),
{
    let left = contents((seq![head] + cs1) + cs2);
    let right = contents(sorted.subrange(i, end));
    let c1 = contents(sorted.subrange(i + 1, mid));
    let c2 = contents(sorted.subrange(mid, end));
    assert(cs1.len() == c1.len());
    assert(cs2.len() == c2.len());
    assert forall|m: int| 0 <= m < left.len() implies left[m] == right[m] by {
        if 0 < m < 1 + cs1.len() {
            assert(c1[m - 1] == content(sorted[i + 1 + (m - 1)]));
        } else if m > 0 {
            assert(c2[m - 1 - cs1.len()] == content(sorted[mid + (m - 1 - cs1.len())]));
        }
    }
}

/// The parts of the body that starts with a subgraph: the opening line,
/// the subgraph's own body, the closing line and what follows.
pub proof fn lemma_sub_layout(s: Seq<char>, p: int, sorted: Seq<ChunkView>, i: int, stack: Seq<usize>)
    requires
        0 <= i < sorted.len(),
        !(stack.len() > 0 && sorted[i].range.0 > stack.last()),
        sorted[i].kind == KIND_SUBGRAPH@,
        occurs(s, p, body_text(sorted, i, stack)),
    ensures
        ({
            let inner = stack.push(sorted[i].range.1);
            let after = body_end(sorted, i + 1, inner);
            let open = open_lines(sorted[i], stack.len());
            let inner_text = body_text(sorted, i + 1, inner);
            let close = close_line(stack.len());
            let after_text = body_text(sorted, after, stack);
            let n1 = p + open.len();
            let n2 = n1 + inner_text.len();
            let n3 = n2 + close.len();
            &&& i < after <= sorted.len()
            &&& occurs(s, p, open)
            &&& occurs(s, n1, inner_text)
            &&& occurs(s, n2, close)
            &&& occurs(s, n3, after_text)
            &&& body_text(sorted, i, stack).len() == open.len() + inner_text.len() + close.len()
                + after_text.len()
            &&& body_end(sorted, i, stack) == body_end(sorted, after, stack)
        }),
{
    let inner = stack.push(sorted[i].range.1);
    lemma_body_end(sorted, i + 1, inner);
    let after = body_end(sorted, i + 1, inner);
    let open = open_lines(sorted[i], stack.len());
    let inner_text = body_text(sorted, i + 1, inner);
    let close = close_line(stack.len());
    let after_text = body_text(sorted, after, stack);
    let n1 = p + open.len();
    let n2 = n1 + inner_text.len();
    let text = body_text(sorted, i, stack);
    assert(text =~= open + (inner_text + (close + after_text)));
    lemma_occurs_split(s, p, open, inner_text + (close + after_text));
    lemma_occurs_split(s, n1, inner_text, close + after_text);
    lemma_occurs_split(s, n2, close, after_text);
}

/// The parts of the body that starts with a chunk that is no subgraph:
/// the chunk's line and what follows.
pub proof fn lemma_line_layout(s: Seq<char>, p: int, sorted: Seq<ChunkView>, i: int, stack: Seq<usize>)
    requires
        0 <= i < sorted.len(),
        !(stack.len() > 0 && sorted[i].range.0 > stack.last()),
        sorted[i].kind != KIND_SUBGRAPH@,
        occurs(s, p, body_text(sorted, i, stack)),
    ensures
        ({
            let line = chunk_line(sorted[i], stack.len() + 1);
            let rest = body_text(sorted, i + 1, stack);
            &&& occurs(s, p, line)
            &&& occurs(s, p + line.len(), rest)
            &&& body_text(sorted, i, stack).len() == line.len() + rest.len()
            &&& body_end(sorted, i, stack) == body_end(sorted, i + 1, stack)
            &&& i + 1 <= body_end(sorted, i + 1, stack) <= sorted.len()
        }),
{
    let line = chunk_line(sorted[i], stack.len() + 1);
    let rest = body_text(sorted, i + 1, stack);
    lemma_occurs_split(s, p, line, rest);
    lemma_body_end(sorted, i + 1, stack);
}

/// One chunk and then the chunks of `cs2` say what the chunks from `i` to
/// `end` say, when the one chunk says what chunk `i` says and `cs2` what
/// the chunks after it say.
pub proof fn lemma_contents_cons(
    sorted: Seq<ChunkView>,
    i: int,
    end: int,
    first: Seq<ChunkView>,
    cs2: Seq<ChunkView>,
)
    requires
        0 <= i < end <= sorted.len(),
        first.len() == 1,
        content(first[0]) == content(sorted[i]),
        contents(cs2) == contents(sorted.subrange(i + 1, end)),
    ensures
        contents(first + cs2) == contents(sorted.subrange(i, end)),
{
    assert(contents(sorted.subrange(i + 1, i + 1)) =~= Seq::<Content>::empty());
    assert(contents(Seq::<ChunkView>::empty()) =~= Seq::<Content>::empty());
    lemma_contents_join(sorted, i, i + 1, end, first[0], Seq::empty(), cs2);
}

/// Nothing is read where a block may end.
pub proof fn lemma_stop_back(s: Seq<char>, p: int)
    requires
        block_stop(s, p),
    ensures
        read_list(s, p) == Some((Seq::<ChunkView>::empty(), skip_ws(s, p))),
{
    reveal(read_list);
}

/// The body of a block, standing at `p` before the line that closes the
/// block, is read as a statement list that yields the chunks of the body
/// in order, apart from their ranges, and ends at the closing brace.
pub proof fn lemma_body_back(s: Seq<char>, p: int, sorted: Seq<ChunkView>, i: int, stack: Seq<usize>)
    requires
        forall|k: int| 0 <= k < sorted.len() ==> printable(#[trigger] sorted[k]),
        0 <= i <= sorted.len(),
        occurs(s, p, body_text(sorted, i, stack)),
        block_stop(s, p + body_text(sorted, i, stack).len()),
    ensures
        read_list(s, p) matches Some((cs, a)) && a == skip_ws(
            s,
            p + body_text(sorted, i, stack).len(),
        ) && contents(cs) == contents(sorted.subrange(i, body_end(sorted, i, stack))),
    decreases sorted.len() - i,
{
    let end = body_end(sorted, i, stack);
    if i >= sorted.len() || (stack.len() > 0 && sorted[i].range.0 > stack.last()) {
        lemma_stop_back(s, p);
    } else if sorted[i].kind == KIND_SUBGRAPH@ {
        let c = sorted[i];
        let d = stack.len();
        let inner = stack.push(c.range.1);
        let after = body_end(sorted, i + 1, inner);
        let n1 = p + open_lines(c, d).len();
        let n2 = n1 + body_text(sorted, i + 1, inner).len();
        let n3 = n2 + close_line(d).len();
        lemma_sub_layout(s, p, sorted, i, stack);
        lemma_body_end(sorted, after, stack);
        lemma_close_layout(s, n2, d);
        let k = n2 + 4 * (d + 1);
        lemma_body_back(s, n1, sorted, i + 1, inner);
        let cs1 = chunks_of(read_list(s, n1));
        lemma_printable_subgraph(c);
        lemma_block_step(s, p, c, d, cs1, k);
        lemma_body_back(s, n3, sorted, after, stack);
        let cs2 = chunks_of(read_list(s, n3));
        let sub = subgraph_chunk(c.id, crate::grammar::span_lines(s, p + 4 * (d + 1), k + 1));
        lemma_contents_join(sorted, i, after, end, sub, cs1, cs2);
    } else {
        let c = sorted[i];
        let level = (stack.len() + 1) as nat;
        let n = p + chunk_line(c, level).len();
        lemma_line_layout(s, p, sorted, i, stack);
        lemma_line_back(s, p, c, level);
        lemma_body_back(s, n, sorted, i + 1, stack);
        let first = chunks_of(read_stmt(s, p + 4 * level));
        let cs2 = chunks_of(read_list(s, n));
        lemma_contents_cons(sorted, i, end, first, cs2);
    }
}

/// The header of a written document is read up to its brace.
pub proof fn lemma_header_back(s: Seq<char>, nm: Seq<char>)
    requires
        nm.len() == 0 || is_token(nm),
        occurs(s, 0, "digraph "@ + nm + seq![' ', '{', '\n']),
    ensures
        header(s, 0) == Some(nm.len() as int + 9),
        s[nm.len() as int + 9] == '{',
        s[nm.len() as int + 10] == '\n',
{
    lemma_literals();
    let word = "digraph"@;
    let tail = seq![' ', '{', '\n'];
    assert("digraph "@ + nm + tail =~= word + (seq![' '] + (nm + tail)));
    lemma_occurs_split(s, 0, word, seq![' '] + (nm + tail));
    lemma_occurs_split(s, 7, seq![' '], nm + tail);
    lemma_occurs_split(s, 8, nm, tail);
    lemma_occurs_index(s, 0, word);
    lemma_occurs_index(s, 7, seq![' ']);
    lemma_occurs_index(s, nm.len() as int + 8, tail);
    assert(seq![' '][0] == ' ');
    let b: int = nm.len() as int + 8;
    lemma_skip_ws_solid(s, 0);
    assert forall|k: int| 0 <= k < word.len() implies is_bare(#[trigger] word[k]) by {}
    crate::roundtrip::attr_text::lemma_all_bare(word, 0);
    lemma_token_in(s, 0, word);
    assert(word != "strict"@) by {}
    if nm.len() == 0 {
        lemma_skip_spaces(s, 7, 9);
    } else {
        lemma_token_first(nm);
        lemma_occurs_index(s, 8, nm);
        lemma_skip_ws_solid(s, 8);
        lemma_token_in(s, 8, nm);
        lemma_skip_ws_solid(s, b + 1);
    }
}

/// The name `G`, which a document takes when none is given, is a token.
pub proof fn lemma_default_name()
    ensures
        is_token("G"@),
{
    lemma_literals();
    let g = "G"@;
    assert forall|k: int| 0 <= k < g.len() implies is_bare(#[trigger] g[k]) by {}
    crate::roundtrip::attr_text::lemma_all_bare(g, 0);
}

/// A name under which a graph can be written and read: no name, the empty
/// name, or one identifier token.
pub open spec fn names_graph(name: Option<Seq<char>>) -> bool {
    name is Some ==> name->0.len() == 0 || is_token(name->0)
}

/// The document that is written for a list as it stands, without
/// ordering it first: the header line, the chunks nested by their ranges,
/// and the closing line.
pub open spec fn written(list: Seq<ChunkView>, name: Option<Seq<char>>) -> Seq<char> {
    "digraph "@ + or_text(name, "G"@) + seq![' ', '{', '\n'] + nested_from(list, 0, Seq::empty())
        + seq!['}', '\n']
}

/// The parts of a written document: the header line, the body and the
/// closing line.
pub proof fn lemma_document_layout(list: Seq<ChunkView>, name: Option<Seq<char>>)
    ensures
        ({
            let s = written(list, name);
            let nm = or_text(name, "G"@);
            let body = body_text(list, 0, Seq::empty());
            let b = nm.len() as int + 11;
            let q = b + body.len();
            &&& s.len() == q + 2
            &&& occurs(s, 0, "digraph "@ + nm + seq![' ', '{', '\n'])
            &&& occurs(s, b, body)
            &&& s[q] == '}'
            &&& s[q + 1] == '\n'
        }),
{
    let s = written(list, name);
    let nm = or_text(name, "G"@);
    let head = "digraph "@ + nm + seq![' ', '{', '\n'];
    let empty = Seq::<usize>::empty();
    let body = body_text(list, 0, empty);
    let foot = seq!['}', '\n'];
    lemma_nested_split(list, 0, empty);
    lemma_body_end(list, 0, empty);
    assert(s =~= head + (body + foot));
    assert(s.subrange(0, s.len() as int) =~= s);
    lemma_occurs_split(s, 0, head, body + foot);
    lemma_occurs_split(s, head.len() as int, body, foot);
    lemma_literals();
    let q: int = head.len() as int + body.len();
    lemma_occurs_index(s, q, foot);
}

/// A text with a header, a statement list that ends at a closing brace,
/// and a line feed after the brace is a document that yields the chunks
/// of the list.
pub proof fn lemma_parse_dot(s: Seq<char>, hb: int, cs: Seq<ChunkView>, q: int)
    requires
        s.len() < usize::MAX,
        header(s, 0) == Some(hb),
        read_list(s, hb + 1) == Some((cs, q)),
        0 <= q,
        q + 2 == s.len(),
        s[q] == '}',
        s[q + 1] == '\n',
    ensures
        parse_dot(s) == Some(cs),
{
    reveal(read_list);
    lemma_skip_ws_solid(s, q);
    assert(skip_ws(s, q + 2) == q + 2);
}

/// What is written for a list of printable chunks is read as a document
/// that yields the chunks of the list in their order, apart from their
/// ranges. The name of the graph is a token, empty or absent, and the text is
/// not too long to count its lines.
pub proof fn lemma_written_back(list: Seq<ChunkView>, name: Option<Seq<char>>)
    requires
        forall|k: int| 0 <= k < list.len() ==> printable(#[trigger] list[k]),
        names_graph(name),
        written(list, name).len() < usize::MAX,
    ensures
        parse_dot(written(list, name)) matches Some(again) && contents(again) == contents(list),
        ({
            let b = or_text(name, "G"@).len() as int + 11;
            let q = b + body_text(list, 0, Seq::empty()).len();
            &&& block_stop(written(list, name), q)
            &&& read_list(written(list, name), b) == Some(
                (parse_dot(written(list, name))->0, q),
            )
        }),
{
    let s = written(list, name);
    let nm = or_text(name, "G"@);
    let empty = Seq::<usize>::empty();
    let body = body_text(list, 0, empty);
    let b = nm.len() as int + 11;
    let q = b + body.len();
    lemma_default_name();
    lemma_document_layout(list, name);
    lemma_header_back(s, nm);
    lemma_skip_ws_solid(s, q);
    lemma_body_back(s, b, list, 0, empty);
    lemma_stmt_list_from_blank(s, b - 1);
    lemma_body_end(list, 0, empty);
    assert(list.subrange(0, list.len() as int) =~= list);
    lemma_parse_dot(s, b - 2, chunks_of(read_list(s, b)), q);
}

/// The document that is written for a list of printable chunks is read as
/// a document that yields the chunks of the list ordered by start line,
/// apart from their ranges: what the chunks say comes back, each as often
/// as it was written. The name of the graph is a token, empty or absent, and the
/// text is not too long to count its lines.
pub proof fn lemma_document_back(chunks: Seq<ChunkView>, name: Option<Seq<char>>)
    requires
        forall|k: int| 0 <= k < chunks.len() ==> printable(#[trigger] chunks[k]),
        names_graph(name),
        document(chunks, name).len() < usize::MAX,
    ensures
        parse_dot(document(chunks, name)) matches Some(again) && contents(again) == contents(
            by_start_line(chunks),
        ) && contents(again).to_multiset() == contents(chunks).to_multiset(),
{
    lemma_sorted_contents(chunks);
    let sorted = by_start_line(chunks);
    assert forall|k: int| 0 <= k < sorted.len() implies printable(#[trigger] sorted[k]) by {
        lemma_sorted_members(chunks, k);
    }
    lemma_written_back(sorted, name);
}

/// `read_list` is `stmt_list`.
pub proof fn lemma_read_list(s: Seq<char>, p: int)
    ensures
        read_list(s, p) == stmt_list(s, p),
{
    reveal(read_list);
}

} // verus!
