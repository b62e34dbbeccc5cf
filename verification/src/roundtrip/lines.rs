//! Line numbers of parsed chunks: every chunk lies on the lines of the
//! text that it was read from, the chunks come in the order of their first
//! lines, and a subgraph's lines hold the lines of everything inside it.

use vstd::prelude::*;
use crate::chunk::ChunkView;
use crate::grammar::{block, line_of, parse_dot, span_lines, stmt, stmt_list};
use crate::lexer::{ident_end, lemma_ident_end, lemma_skip_ws, skip_ws};
use crate::roundtrip::ordering::{lemma_sorted_identity, starts_sorted};
use crate::roundtrip::parsed::{lemma_stmt_list_wf, lemma_stmt_wf};
use crate::serializer::by_start_line;

verus! {

/// Later positions stand on later lines, or on the same line.
pub proof fn lemma_line_mono(s: Seq<char>, p: int, q: int)
    requires
        0 <= p <= q <= s.len(),
    ensures
        line_of(s, p) <= line_of(s, q),
    decreases q - p,
{
    if p < q {
        lemma_line_mono(s, p, q - 1);
    }
}

/// A position stands on a line whose number is at most one more than the
/// position.
pub proof fn lemma_line_bound(s: Seq<char>, p: int)
    requires
        0 <= p <= s.len(),
    ensures
        1 <= line_of(s, p) <= p + 1,
    decreases p,
{
    if p > 0 {
        lemma_line_bound(s, p - 1);
    }
}

/// The position after a line feed stands on the next line.
pub proof fn lemma_line_step(s: Seq<char>, q: int)
    requires
        0 <= q < s.len(),
        s[q] == '\n',
    ensures
        line_of(s, q + 1) == line_of(s, q) + 1,
{
}

/// Every chunk lies on lines from `lo` to `hi`: it starts on `lo` or
/// after it and ends on `hi` or before it, and it does not end before it
/// starts.
pub open spec fn in_span(cs: Seq<ChunkView>, lo: nat, hi: nat) -> bool {
    forall|m: int|
        0 <= m < cs.len() ==> lo <= (#[trigger] cs[m]).range.0 <= cs[m].range.1 <= hi
}

/// Chunks on earlier lines before chunks on later lines are in order.
pub proof fn lemma_span_concat(a: Seq<ChunkView>, b: Seq<ChunkView>, lo: nat, mid: nat, hi: nat)
    requires
        in_span(a, lo, mid),
        in_span(b, mid, hi),
        starts_sorted(a),
        starts_sorted(b),
        lo <= mid <= hi,
    ensures
        in_span(a + b, lo, hi),
        starts_sorted(a + b),
{
    let c = a + b;
    assert forall|m: int| 0 <= m < c.len() implies lo <= (#[trigger] c[m]).range.0
        <= c[m].range.1 <= hi by {}
    assert forall|m: int, n: int| 0 <= m <= n < c.len() implies (#[trigger] c[m]).range.0 <= (
    #[trigger] c[n]).range.0 by {}
}

/// A chunk that starts on the first line of a span and ends inside it,
/// before chunks of the span that are in order, makes a list in order.
pub proof fn lemma_span_head(head: ChunkView, body: Seq<ChunkView>, lo: nat, hi: nat)
    requires
        head.range.0 == lo,
        lo <= head.range.1 <= hi,
        in_span(body, lo, hi),
        starts_sorted(body),
    ensures
        in_span(seq![head] + body, lo, hi),
        starts_sorted(seq![head] + body),
{
    let c = seq![head] + body;
    assert forall|m: int| 0 <= m < c.len() implies lo <= (#[trigger] c[m]).range.0
        <= c[m].range.1 <= hi by {
        if m > 0 {
            assert(c[m] == body[m - 1]);
        }
    }
    assert forall|m: int, n: int| 0 <= m <= n < c.len() implies (#[trigger] c[m]).range.0 <= (
    #[trigger] c[n]).range.0 by {
        if m > 0 {
            assert(c[m] == body[m - 1]);
        }
        if n > 0 {
            assert(c[n] == body[n - 1]);
        }
    }
}

/// A span of lines may be widened.
pub proof fn lemma_span_widen(cs: Seq<ChunkView>, lo: nat, hi: nat, lo2: nat, hi2: nat)
    requires
        in_span(cs, lo, hi),
        lo2 <= lo,
        hi <= hi2,
    ensures
        in_span(cs, lo2, hi2),
{
}

/// In a text whose lines can be counted, the lines of a span are the
/// lines of its two ends.
pub proof fn lemma_span(s: Seq<char>, a: int, b: int)
    requires
        s.len() < usize::MAX,
        0 <= a <= b <= s.len(),
    ensures
        span_lines(s, a, b).0 == line_of(s, a),
        span_lines(s, a, b).1 == line_of(s, b),
        line_of(s, a) <= line_of(s, b),
{
    lemma_line_bound(s, a);
    lemma_line_bound(s, b);
    lemma_line_mono(s, a, b);
}

/// The chunks of a statement that is no subgraph lie on the lines on
/// which the statement stands.
pub proof fn lemma_plain_lines(s: Seq<char>, i: int)
    requires
        s.len() < usize::MAX,
        0 <= i < s.len(),
        s[i] != '{',
        ident_end(s, i) is Some,
        s.subrange(i, ident_end(s, i)->0) != "subgraph"@,
    ensures
        stmt(s, i) matches Some((cs, e)) ==> in_span(cs, line_of(s, i), line_of(s, e))
            && starts_sorted(cs),
{
    lemma_stmt_wf(s, i);
    if let Some((cs, e)) = stmt(s, i) {
        lemma_span(s, i, e);
        let j = ident_end(s, i)->0;
        lemma_ident_end(s, i);
        lemma_skip_ws(s, j);
        let a = skip_ws(s, j);
        if 0 <= a < s.len() && s[a] == '=' {
            lemma_skip_ws(s, a + 1);
        }
        assert forall|m: int| 0 <= m < cs.len() implies (#[trigger] cs[m]).range == span_lines(
            s,
            i,
            e,
        ) by {}
    }
}

/// The chunks of a statement lie on the lines of the statement, in
/// order.
pub proof fn lemma_stmt_lines(s: Seq<char>, i: int)
    requires
        s.len() < usize::MAX,
        0 <= i <= s.len(),
    ensures
        stmt(s, i) matches Some((cs, e)) ==> in_span(cs, line_of(s, i), line_of(s, e))
            && starts_sorted(cs),
    decreases s.len() - i, 1int,
{
    if i < s.len() {
        if s[i] == '{' {
            lemma_block_lines(s, i, i, None);
        } else {
            lemma_ident_end(s, i);
            if let Some(j) = ident_end(s, i) {
                let word = s.subrange(i, j);
                lemma_skip_ws(s, j);
                let a = skip_ws(s, j);
                if word == "subgraph"@ {
                    if i <= a < s.len() && s[a] == '{' {
                        lemma_block_lines(s, i, a, None);
                    } else {
                        lemma_ident_end(s, a);
                        if let Some(n) = ident_end(s, a) {
                            lemma_skip_ws(s, n);
                            let b = skip_ws(s, n);
                            if i <= b < s.len() && s[b] == '{' {
                                lemma_block_lines(s, i, b, Some(s.subrange(a, n)));
                            }
                        }
                    }
                } else {
                    lemma_plain_lines(s, i);
                }
            }
        }
    }
}

/// The chunks of a block lie on the lines of the block, in order.
pub proof fn lemma_block_lines(s: Seq<char>, start: int, open: int, id: Option<Seq<char>>)
    requires
        s.len() < usize::MAX,
        0 <= start <= open <= s.len(),
    ensures
        block(s, start, open, id) matches Some((cs, e)) ==> in_span(
            cs,
            line_of(s, start),
            line_of(s, e),
        ) && starts_sorted(cs),
    decreases s.len() - open, 0int,
{
    if open < s.len() {
        lemma_stmt_list_lines(s, open + 1);
        lemma_stmt_list_wf(s, open + 1);
        if let Some((body, j)) = stmt_list(s, open + 1) {
            lemma_skip_ws(s, j);
            let c = skip_ws(s, j);
            if 0 <= c < s.len() && s[c] == '}' {
                let head = seq![crate::grammar::subgraph_chunk(id, span_lines(s, start, c + 1))];
                lemma_span(s, start, c + 1);
                lemma_line_mono(s, start, open + 1);
                lemma_line_mono(s, open + 1, j);
                lemma_line_mono(s, j, c + 1);
                lemma_span_widen(
                    body,
                    line_of(s, open + 1),
                    line_of(s, j),
                    line_of(s, start),
                    line_of(s, c + 1),
                );
                lemma_span_head(head[0], body, line_of(s, start), line_of(s, c + 1));
            }
        }
    }
}

/// The chunk of a subgraph lies on lines that hold the lines of every
/// chunk read from inside its block: nesting can be told from the ranges.
pub proof fn lemma_block_holds(s: Seq<char>, start: int, open: int, id: Option<Seq<char>>)
    requires
        s.len() < usize::MAX,
        0 <= start <= open <= s.len(),
    ensures
        block(s, start, open, id) matches Some((cs, e)) ==> cs.len() >= 1 && forall|m: int|
            1 <= m < cs.len() ==> crate::chunk::within((#[trigger] cs[m]).range, cs[0].range),
{
    lemma_block_lines(s, start, open, id);
    if open < s.len() {
        lemma_stmt_list_wf(s, open + 1);
        if let Some((body, j)) = stmt_list(s, open + 1) {
            lemma_skip_ws(s, j);
            let c = skip_ws(s, j);
            if 0 <= c < s.len() && s[c] == '}' {
                lemma_span(s, start, c + 1);
                let cs = seq![crate::grammar::subgraph_chunk(id, span_lines(s, start, c + 1))]
                    + body;
                assert forall|m: int| 1 <= m < cs.len() implies crate::chunk::within(
                    (#[trigger] cs[m]).range,
                    cs[0].range,
                ) by {
                    let _ = cs[m];
                }
            }
        }
    }
}

/// The chunks of a statement list lie on the lines of the list, in
/// order.
pub proof fn lemma_stmt_list_lines(s: Seq<char>, i: int)
    requires
        s.len() < usize::MAX,
        0 <= i <= s.len(),
    ensures
        stmt_list(s, i) matches Some((cs, e)) ==> in_span(cs, line_of(s, i), line_of(s, e))
            && starts_sorted(cs),
    decreases s.len() - i, 2int,
{
    lemma_skip_ws(s, i);
    let a = skip_ws(s, i);
    if a < i || a >= s.len() || s[a] == '}' {
    } else if s[a] == ';' {
        lemma_stmt_list_lines(s, a + 1);
        lemma_stmt_list_wf(s, a + 1);
        if let Some((cs, e)) = stmt_list(s, a + 1) {
            lemma_line_mono(s, i, a + 1);
            lemma_span_widen(cs, line_of(s, a + 1), line_of(s, e), line_of(s, i), line_of(s, e));
        }
    } else {
        lemma_stmt_lines(s, a);
        lemma_stmt_wf(s, a);
        if let Some((first, j)) = stmt(s, a) {
            if a < j <= s.len() {
                lemma_stmt_list_lines(s, j);
                lemma_stmt_list_wf(s, j);
                if let Some((rest, e)) = stmt_list(s, j) {
                    lemma_line_mono(s, i, a);
                    lemma_line_mono(s, a, j);
                    lemma_line_mono(s, j, e);
                    lemma_span_widen(
                        first,
                        line_of(s, a),
                        line_of(s, j),
                        line_of(s, i),
                        line_of(s, j),
                    );
                    lemma_span_concat(first, rest, line_of(s, i), line_of(s, j), line_of(s, e));
                }
            }
        }
    }
}

/// The chunks of a parsed document come in the order of their first
/// lines: ordering them by start line changes nothing.
pub proof fn lemma_parsed_sorted(t: Seq<char>)
    ensures
        parse_dot(t) matches Some(cs) ==> starts_sorted(cs) && by_start_line(cs) == cs,
{
    if let Some(cs) = parse_dot(t) {
        crate::roundtrip::parsed::lemma_header(t);
        let b = crate::grammar::header(t, 0)->0;
        lemma_stmt_list_lines(t, b + 1);
        lemma_sorted_identity(cs);
    }
}

} // verus!
