//! The DOT grammar, stated as functions on a sequence of characters.
//!
//! ```text
//! document  = ["strict"] ("graph" | "digraph") [id] "{" stmt_list "}"
//! stmt_list = { stmt [";"] }
//! stmt      = subgraph | attr_stmt | id "=" id | node_id { edgeop node_id } [attr_list]
//! subgraph  = ["subgraph" [id]] "{" stmt_list "}"
//! attr_stmt = ("graph" | "node" | "edge") attr_list
//! attr_list = "[" a_list "]" { "[" a_list "]" }
//! a_list    = { id "=" id ["," | ";"] }
//! node_id   = id [":" id [":" id]]
//! edgeop    = "->" | "--"
//! id        = quoted string | <balanced angle brackets> | ["-"] bare characters
//! ```
//!
//! Blank space and comments, `// ..` to the end of the line and `/* .. */`,
//! may stand between any two tokens. The words `graph`, `node`, `edge` and
//! `subgraph` name a node in quotes only.
//!
//! A rule takes the text and a position and says where the construct that
//! starts there ends and what it yields, or that none starts there. The
//! executable parser in `parser` computes exactly these functions.

use vstd::prelude::*;
use crate::attrs::{lemma_put, put, sorted_keys, AttrSeq};
use crate::chunk::{ChunkView, KIND_ATTR_STMT, KIND_EDGE, KIND_ID_EQ, KIND_NODE, KIND_SUBGRAPH};
use crate::lexer::{at2, ident_end, skip_ws, unescape};

verus! {

/// The number of line feeds among the first `pos` characters.
pub open spec fn newlines(s: Seq<char>, pos: int) -> nat
    decreases pos,
{
    if pos <= 0 || pos > s.len() {
        0
    } else if s[pos - 1] == '\n' {
        newlines(s, pos - 1) + 1
    } else {
        newlines(s, pos - 1)
    }
}

/// The 1-based line on which position `pos` stands.
pub open spec fn line_of(s: Seq<char>, pos: int) -> nat {
    newlines(s, pos) + 1
}

/// The lines of the span from `start` to `end`: the line of its first
/// character and the line of its end.
pub open spec fn span_lines(s: Seq<char>, start: int, end: int) -> (usize, usize) {
    (line_of(s, start) as usize, line_of(s, end) as usize)
}

/// What the identifier token `s[a..b]` stands for as an attribute value: a
/// quoted string loses its quotes and escapes, anything else is taken as
/// written.
pub open spec fn token_value(s: Seq<char>, a: int, b: int) -> Seq<char> {
    if s[a] == '"' {
        unescape(s.subrange(a + 1, b - 1))
    } else {
        s.subrange(a, b)
    }
}

/// The three positions of `name = value` at `i`: the end of the name, the
/// start of the value and its end.
pub open spec fn id_eq_at(s: Seq<char>, i: int) -> Option<(int, int, int)> {
    match ident_end(s, i) {
        None => None,
        Some(j) => {
            let e = skip_ws(s, j);
            if 0 <= e < s.len() && s[e] == '=' {
                let v = skip_ws(s, e + 1);
                match ident_end(s, v) {
                    Some(w) => Some((j, v, w)),
                    None => None,
                }
            } else {
                None
            }
        },
    }
}

/// The entries of the attribute list that starts at `i`, written into `acc`
/// one after the other, and the position at which the list ends. Entries
/// are `name = value`; a comma, a semicolon or blank space separates them.
/// The list ends before the first thing that is not an entry.
pub open spec fn a_list_from(s: Seq<char>, i: int, acc: AttrSeq) -> (AttrSeq, int)
    decreases s.len() - i,
{
    let a = skip_ws(s, i);
    match id_eq_at(s, a) {
        None => (acc, i),
        Some((j, v, w)) => {
            let sep = skip_ws(s, w);
            let next = if 0 <= sep < s.len() && (s[sep] == ',' || s[sep] == ';') {
                sep + 1
            } else {
                w
            };
            if i < next <= s.len() {
                a_list_from(s, next, put(acc, s.subrange(a, j), token_value(s, v, w)))
            } else {
                (acc, i)
            }
        },
    }
}

/// The attribute map that the text `s` describes.
pub open spec fn parse_attrs(s: Seq<char>) -> AttrSeq {
    a_list_from(s, 0, Seq::empty()).0
}

/// Reading an attribute list keeps the names in order.
pub proof fn lemma_a_list_sorted(s: Seq<char>, i: int, acc: AttrSeq)
    requires
        sorted_keys(acc),
    ensures
        sorted_keys(a_list_from(s, i, acc).0),
    decreases s.len() - i,
{
    let a = skip_ws(s, i);
    if let Some((j, v, w)) = id_eq_at(s, a) {
        let sep = skip_ws(s, w);
        let next = if 0 <= sep < s.len() && (s[sep] == ',' || s[sep] == ';') {
            sep + 1
        } else {
            w
        };
        if i < next <= s.len() {
            lemma_put(acc, s.subrange(a, j), token_value(s, v, w));
            lemma_a_list_sorted(s, next, put(acc, s.subrange(a, j), token_value(s, v, w)));
        }
    }
}

/// The names of a parsed attribute map stand in strictly increasing
/// order, so no name occurs twice.
pub proof fn lemma_parse_attrs_sorted(s: Seq<char>)
    ensures
        sorted_keys(parse_attrs(s)),
{
    lemma_a_list_sorted(s, 0, Seq::empty());
}

/// Zero or more bracketed attribute lists from `i` on, merged into `acc`,
/// and the position after the last closing bracket (`i` itself if no list
/// follows). `None` when a bracket is not closed.
pub open spec fn attr_list_from(s: Seq<char>, i: int, acc: AttrSeq) -> Option<(AttrSeq, int)>
    decreases s.len() - i,
{
    let a = skip_ws(s, i);
    if 0 <= a < s.len() && s[a] == '[' {
        let (acc2, j) = a_list_from(s, a + 1, acc);
        let c = skip_ws(s, j);
        if i <= c < s.len() && s[c] == ']' {
            attr_list_from(s, c + 1, acc2)
        } else {
            None
        }
    } else {
        Some((acc, i))
    }
}

/// The end of the node id whose identifier ends at `j`: a port `:name` and
/// after it a compass point `:name` may follow.
pub open spec fn port_end(s: Seq<char>, j: int) -> int {
    let c = skip_ws(s, j);
    if 0 <= c < s.len() && s[c] == ':' {
        match ident_end(s, skip_ws(s, c + 1)) {
            Some(p) => {
                let c2 = skip_ws(s, p);
                if 0 <= c2 < s.len() && s[c2] == ':' {
                    match ident_end(s, skip_ws(s, c2 + 1)) {
                        Some(point) => point,
                        None => p,
                    }
                } else {
                    p
                }
            },
            None => j,
        }
    } else {
        j
    }
}

/// Whether the attribute statement keyword `w` is `graph`, `node` or `edge`.
pub open spec fn is_attr_target(w: Seq<char>) -> bool {
    w == "graph"@ || w == "node"@ || w == "edge"@
}

/// A word that cannot name a node: `graph`, `node`, `edge` or `subgraph`.
/// In quotes it can.
pub open spec fn is_reserved(w: Seq<char>) -> bool {
    is_attr_target(w) || w == "subgraph"@
}

/// The targets of the edge chain that continues at `j`, appended to `acc`,
/// and the position at which the chain ends. Each link is `->` or `--` and a
/// node id. `None` when an edge operator has no node id after it, or a
/// reserved word in its place.
pub open spec fn edge_targets(s: Seq<char>, j: int, acc: Seq<Seq<char>>) -> Option<
    (Seq<Seq<char>>, int),
>
    decreases s.len() - j,
{
    let c = skip_ws(s, j);
    if at2(s, c, '-', '>') || at2(s, c, '-', '-') {
        let t = skip_ws(s, c + 2);
        match ident_end(s, t) {
            None => None,
            Some(e) => {
                let pe = port_end(s, e);
                if j < pe <= s.len() && 0 <= t <= e && !is_reserved(s.subrange(t, e)) {
                    edge_targets(s, pe, acc.push(s.subrange(t, pe)))
                } else {
                    None
                }
            },
        }
    } else {
        Some((acc, j))
    }
}

/// The chunk of a node statement.
pub open spec fn node_chunk(id: Seq<char>, attrs: AttrSeq, range: (usize, usize)) -> ChunkView {
    ChunkView { kind: KIND_NODE@, id: Some(id), attrs, range, extra: None }
}

/// The chunk of one edge.
pub open spec fn edge_chunk(from: Seq<char>, to: Seq<char>, attrs: AttrSeq, range: (usize, usize)) -> ChunkView {
    ChunkView { kind: KIND_EDGE@, id: Some(from), attrs, range, extra: Some(to) }
}

/// The chunk of a subgraph block.
pub open spec fn subgraph_chunk(id: Option<Seq<char>>, range: (usize, usize)) -> ChunkView {
    ChunkView { kind: KIND_SUBGRAPH@, id, attrs: Seq::empty(), range, extra: None }
}

/// The chunk of a `graph`, `node` or `edge` attribute statement.
pub open spec fn attr_stmt_chunk(target: Seq<char>, attrs: AttrSeq, range: (usize, usize)) -> ChunkView {
    ChunkView { kind: KIND_ATTR_STMT@, id: Some(target), attrs, range, extra: None }
}

/// The chunk of an `id = value` statement.
pub open spec fn id_eq_chunk(key: Seq<char>, value: Seq<char>, range: (usize, usize)) -> ChunkView {
    ChunkView { kind: KIND_ID_EQ@, id: Some(key), attrs: Seq::empty(), range, extra: Some(value) }
}

/// The edges of a chain: from `from` to the first target, then from each
/// target to the next, all with the same attributes and range.
pub open spec fn chain_edges(
    from: Seq<char>,
    targets: Seq<Seq<char>>,
    attrs: AttrSeq,
    range: (usize, usize),
) -> Seq<ChunkView> {
    Seq::new(
        targets.len(),
        |k: int|
            edge_chunk(
                if k == 0 {
                    from
                } else {
                    targets[k - 1]
                },
                targets[k],
                attrs,
                range,
            ),
    )
}

/// The chunks of the statement that starts at `i`, and the position at
/// which it ends: a subgraph, an attribute statement, `id = value`, or a
/// node id that an edge chain or nothing follows, with attribute lists.
pub open spec fn stmt(s: Seq<char>, i: int) -> Option<(Seq<ChunkView>, int)>
    decreases s.len() - i, 1int,
{
    if i < 0 || i >= s.len() {
        None
    } else if s[i] == '{' {
        block(s, i, i, None)
    } else {
        match ident_end(s, i) {
            None => None,
            Some(j) => {
                let word = s.subrange(i, j);
                let a = skip_ws(s, j);
                if word == "subgraph"@ {
                    if i <= a < s.len() && s[a] == '{' {
                        block(s, i, a, None)
                    } else {
                        match ident_end(s, a) {
                            None => None,
                            Some(n) => {
                                let b = skip_ws(s, n);
                                if i <= b < s.len() && s[b] == '{' {
                                    block(s, i, b, Some(s.subrange(a, n)))
                                } else {
                                    None
                                }
                            },
                        }
                    }
                } else if is_attr_target(word) && 0 <= a < s.len() && s[a] == '[' {
                    match attr_list_from(s, j, Seq::empty()) {
                        None => None,
                        Some((attrs, e)) => Some(
                            (seq![attr_stmt_chunk(word, attrs, span_lines(s, i, e))], e),
                        ),
                    }
                } else if 0 <= a < s.len() && s[a] == '=' {
                    let v = skip_ws(s, a + 1);
                    match ident_end(s, v) {
                        None => None,
                        Some(w) => Some(
                            (seq![id_eq_chunk(word, s.subrange(v, w), span_lines(s, i, w))], w),
                        ),
                    }
                } else if is_reserved(word) {
                    None
                } else {
                    let pe = port_end(s, j);
                    match edge_targets(s, pe, Seq::empty()) {
                        None => None,
                        Some((targets, te)) => match attr_list_from(s, te, Seq::empty()) {
                            None => None,
                            Some((attrs, e)) => if targets.len() == 0 {
                                Some((seq![node_chunk(word, attrs, span_lines(s, i, e))], e))
                            } else {
                                Some(
                                    (
                                        chain_edges(
                                            s.subrange(i, pe),
                                            targets,
                                            attrs,
                                            span_lines(s, i, e),
                                        ),
                                        e,
                                    ),
                                )
                            },
                        },
                    }
                }
            },
        }
    }
}

/// The chunks of the subgraph that starts at `start` and whose brace opens
/// at `open`: the subgraph's own chunk first, then those of its body.
pub open spec fn block(s: Seq<char>, start: int, open: int, id: Option<Seq<char>>) -> Option<
    (Seq<ChunkView>, int),
>
    decreases s.len() - open, 0int,
{
    if open < 0 || open >= s.len() {
        None
    } else {
        match stmt_list(s, open + 1) {
            None => None,
            Some((body, j)) => {
                let c = skip_ws(s, j);
                if 0 <= c < s.len() && s[c] == '}' {
                    Some((seq![subgraph_chunk(id, span_lines(s, start, c + 1))] + body, c + 1))
                } else {
                    None
                }
            },
        }
    }
}

/// The chunks of the statements from `i` up to the closing brace or the
/// end of the text, and the position at which the list ends. A semicolon
/// may follow a statement.
pub open spec fn stmt_list(s: Seq<char>, i: int) -> Option<(Seq<ChunkView>, int)>
    decreases s.len() - i, 2int,
{
    let a = skip_ws(s, i);
    if a < i || a >= s.len() || s[a] == '}' {
        Some((Seq::empty(), a))
    } else if s[a] == ';' {
        stmt_list(s, a + 1)
    } else {
        match stmt(s, a) {
            None => None,
            Some((first, j)) => if a < j <= s.len() {
                match stmt_list(s, j) {
                    None => None,
                    Some((rest, e)) => Some((first + rest, e)),
                }
            } else {
                None
            },
        }
    }
}

/// The position of the opening brace of the graph whose header starts at
/// `i`: `strict` may come first, then `graph` or `digraph`, then a name may
/// follow.
pub open spec fn header(s: Seq<char>, i: int) -> Option<int> {
    let a = skip_ws(s, i);
    match ident_end(s, a) {
        None => None,
        Some(j) => {
            let (a2, j2) = if s.subrange(a, j) == "strict"@ {
                let b = skip_ws(s, j);
                match ident_end(s, b) {
                    Some(k) => (b, k),
                    None => (b, b),
                }
            } else {
                (a, j)
            };
            if s.subrange(a2, j2) == "graph"@ || s.subrange(a2, j2) == "digraph"@ {
                let b = skip_ws(s, j2);
                if 0 <= b < s.len() && s[b] == '{' {
                    Some(b)
                } else {
                    match ident_end(s, b) {
                        None => None,
                        Some(n) => {
                            let c = skip_ws(s, n);
                            if 0 <= c < s.len() && s[c] == '{' {
                                Some(c)
                            } else {
                                None
                            }
                        },
                    }
                }
            } else {
                None
            }
        },
    }
}

/// The chunks of the DOT document `s`, or `None` when `s` is not a document
/// of the grammar: a header, a brace-enclosed statement list, and nothing
/// but blank space and comments after it. A text of `usize::MAX` characters
/// or more is not accepted, so that every line number fits.
pub open spec fn parse_dot(s: Seq<char>) -> Option<Seq<ChunkView>> {
    if s.len() >= usize::MAX {
        None
    } else {
        match header(s, 0) {
            None => None,
            Some(b) => match stmt_list(s, b + 1) {
                None => None,
                Some((chunks, j)) => {
                    let c = skip_ws(s, j);
                    if 0 <= c < s.len() && s[c] == '}' && skip_ws(s, c + 1) == s.len() {
                        Some(chunks)
                    } else {
                        None
                    }
                },
            },
        }
    }
}

} // verus!
