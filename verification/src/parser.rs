//! The executable DOT parser. Every function here computes the grammar rule
//! of the same purpose in `grammar`.

use vstd::prelude::*;
use vstd::string::StringExecFns;
use crate::attrs::Attrs;
use crate::chunk::{
    views, Chunk, ChunkView, KIND_ATTR_STMT, KIND_EDGE, KIND_ID_EQ, KIND_NODE, KIND_SUBGRAPH,
};
use crate::error::Error;
use crate::grammar::{
    a_list_from, attr_list_from, attr_stmt_chunk, block, chain_edges, edge_targets, header,
    id_eq_at, id_eq_chunk, is_reserved, line_of, node_chunk, parse_attrs, parse_dot, port_end,
    span_lines, stmt, stmt_list, subgraph_chunk, token_value,
};
use crate::lexer::{scan_ident, scan_ws, unescaped};
use crate::text::{chars_of, str_eq, string_of, texts};

verus! {

/// Computes [`id_eq_at`].
pub fn scan_id_eq(s: &Vec<char>, i: usize) -> (r: Option<(usize, usize, usize)>)
    requires
        i <= s.len(),
    ensures
        match r {
            Some((j, v, w)) => id_eq_at(s@, i as int) == Some((j as int, v as int, w as int)) && i
                < j <= v < w <= s.len(),
            None => id_eq_at(s@, i as int) is None,
        },
{
    match scan_ident(s, i) {
        None => None,
        Some(j) => {
            let e = scan_ws(s, j);
            if e < s.len() && s[e] == '=' {
                let v = scan_ws(s, e + 1);
                match scan_ident(s, v) {
                    Some(w) => Some((j, v, w)),
                    None => None,
                }
            } else {
                None
            }
        },
    }
}

/// The value that the identifier token `s[a..b]` stands for.
pub fn value_of_token(s: &Vec<char>, a: usize, b: usize) -> (r: String)
    requires
        a < b <= s.len(),
        s@[a as int] == '"' ==> a + 2 <= b,
    ensures
        r@ == token_value(s@, a as int, b as int),
{
    if s[a] == '"' {
        unescaped(s, a + 1, b - 1)
    } else {
        string_of(s, a, b)
    }
}

/// Computes [`a_list_from`]: writes the entries of the list at `i` into
/// `acc` and returns where the list ends.
pub fn scan_a_list(s: &Vec<char>, i: usize, acc: &mut Attrs) -> (r: usize)
    requires
        i <= s.len(),
    ensures
        (final(acc)@, r as int) == a_list_from(s@, i as int, old(acc)@),
        i <= r <= s.len(),
{
    let mut pos: usize = i;
    loop
        invariant
            i <= pos <= s.len(),
            a_list_from(s@, i as int, old(acc)@) == a_list_from(s@, pos as int, acc@),
        ensures
            i <= pos <= s.len(),
            a_list_from(s@, i as int, old(acc)@) == (acc@, pos as int),
        decreases s.len() - pos,
    {
        let a = scan_ws(s, pos);
        match scan_id_eq(s, a) {
            None => {
                break ;
            },
            Some((j, v, w)) => {
                let sep = scan_ws(s, w);
                let next = if sep < s.len() && (s[sep] == ',' || s[sep] == ';') {
                    sep + 1
                } else {
                    w
                };
                proof {
                    crate::lexer::lemma_quoted_end(s@, v as int + 1);
                }
                let key = string_of(s, a, j);
                let value = value_of_token(s, v, w);
                acc.insert(key, value);
                pos = next;
            },
        }
    }
    pos
}

/// Parses a string of attributes such as `label="A", color=red` into a map.
/// The entries that can be read from the start of the text are taken; a text
/// that starts with no entry gives the empty map.
pub fn parse_attribute_string(s: &str) -> (r: Attrs)
    ensures
        r@ == parse_attrs(s@),
{
    let chars = chars_of(s);
    let mut attrs = Attrs::new();
    let _ = scan_a_list(&chars, 0, &mut attrs);
    attrs
}

/// Computes [`attr_list_from`]: merges the bracketed lists at `i` into
/// `acc` and returns where the last one ends.
pub fn scan_attr_list(s: &Vec<char>, i: usize, acc: &mut Attrs) -> (r: Option<usize>)
    requires
        i <= s.len(),
    ensures
        match r {
            Some(e) => attr_list_from(s@, i as int, old(acc)@) == Some((final(acc)@, e as int))
                && i <= e <= s.len(),
            None => attr_list_from(s@, i as int, old(acc)@) is None,
        },
{
    let mut pos: usize = i;
    loop
        invariant
            i <= pos <= s.len(),
            attr_list_from(s@, i as int, old(acc)@) == attr_list_from(s@, pos as int, acc@),
        ensures
            i <= pos <= s.len(),
            attr_list_from(s@, i as int, old(acc)@) == Some((acc@, pos as int)),
        decreases s.len() - pos,
    {
        let a = scan_ws(s, pos);
        if a < s.len() && s[a] == '[' {
            let j = scan_a_list(s, a + 1, acc);
            let c = scan_ws(s, j);
            if c < s.len() && s[c] == ']' {
                pos = c + 1;
            } else {
                return None;
            }
        } else {
            break ;
        }
    }
    Some(pos)
}

/// Computes [`port_end`].
pub fn scan_port_end(s: &Vec<char>, j: usize) -> (r: usize)
    requires
        j <= s.len(),
    ensures
        r == port_end(s@, j as int),
        j <= r <= s.len(),
{
    let c = scan_ws(s, j);
    if c < s.len() && s[c] == ':' {
        let a = scan_ws(s, c + 1);
        match scan_ident(s, a) {
            Some(p) => {
                let c2 = scan_ws(s, p);
                if c2 < s.len() && s[c2] == ':' {
                    let a2 = scan_ws(s, c2 + 1);
                    match scan_ident(s, a2) {
                        Some(point) => point,
                        None => p,
                    }
                } else {
                    p
                }
            },
            None => j,
        }
    } else {
        j
    }
}

/// Computes [`edge_targets`] from an empty list.
pub fn scan_edge_targets(s: &Vec<char>, j: usize) -> (r: Option<(Vec<String>, usize)>)
    requires
        j <= s.len(),
    ensures
        match r {
            Some((targets, e)) => edge_targets(s@, j as int, Seq::empty()) == Some(
                (texts(targets@), e as int),
            ) && j <= e <= s.len(),
            None => edge_targets(s@, j as int, Seq::empty()) is None,
        },
{
    let mut targets: Vec<String> = Vec::new();
    let mut pos: usize = j;
    assert(texts(targets@) =~= Seq::<Seq<char>>::empty());
    loop
        invariant
            j <= pos <= s.len(),
            edge_targets(s@, j as int, Seq::empty()) == edge_targets(
                s@,
                pos as int,
                texts(targets@),
            ),
        ensures
            j <= pos <= s.len(),
            edge_targets(s@, j as int, Seq::empty()) == Some((texts(targets@), pos as int)),
        decreases s.len() - pos,
    {
        let c = scan_ws(s, pos);
        if c < s.len() && c + 1 < s.len() && s[c] == '-' && (s[c + 1] == '>' || s[c + 1] == '-') {
            let t = scan_ws(s, c + 2);
            match scan_ident(s, t) {
                None => {
                    return None;
                },
                Some(e) => {
                    if reserved_word(s, t, e) {
                        return None;
                    }
                    let pe = scan_port_end(s, e);
                    let name = string_of(s, t, pe);
                    assert(texts(targets@.push(name)) =~= texts(targets@).push(name@));
                    targets.push(name);
                    pos = pe;
                },
            }
        } else {
            break ;
        }
    }
    Some((targets, pos))
}

/// A position in the text together with the line it stands on.
pub struct Cursor {
    pub pos: usize,
    pub line: usize,
}

impl Cursor {
    /// The line is the line of the position in `s`.
    pub open spec fn valid(&self, s: Seq<char>) -> bool {
        self.pos <= s.len() && self.line == line_of(s, self.pos as int) && self.line <= self.pos
            + 1
    }
}

/// Moves the cursor forward to `p` and returns the line of `p`.
pub fn line_at(s: &Vec<char>, cur: &mut Cursor, p: usize) -> (l: usize)
    requires
        old(cur).valid(s@),
        old(cur).pos <= p <= s.len(),
        s.len() < usize::MAX,
    ensures
        final(cur).valid(s@),
        final(cur).pos == p,
        l == final(cur).line,
        l == line_of(s@, p as int),
{
    let mut pos = cur.pos;
    let mut line = cur.line;
    while pos < p
        invariant
            pos <= p <= s.len(),
            s.len() < usize::MAX,
            line == line_of(s@, pos as int),
            line <= pos + 1,
        decreases p - pos,
    {
        if s[pos] == '\n' {
            line = line + 1;
        }
        pos = pos + 1;
    }
    cur.pos = pos;
    cur.line = line;
    line
}

/// The lines of the span from `start` to `end` in `dot`, both counted from
/// 1: the line of the first character and the line of the end. Positions
/// count characters.
pub fn span_to_line_range(dot: &str, start: usize, end: usize) -> (r: (usize, usize))
    requires
        start <= end <= dot@.len(),
        dot@.len() < usize::MAX,
    ensures
        r == span_lines(dot@, start as int, end as int),
{
    let chars = chars_of(dot);
    let mut cur = Cursor { pos: 0, line: 1 };
    let a = line_at(&chars, &mut cur, start);
    let b = line_at(&chars, &mut cur, end);
    (a, b)
}

/// The decimal digits of `n`.
pub open spec fn decimal(n: nat) -> Seq<char>
    decreases n,
{
    if n < 10 {
        seq![digit(n)]
    } else {
        decimal(n / 10).push(digit(n % 10))
    }
}

/// The character of the digit `d`.
pub open spec fn digit(d: nat) -> char {
    if d == 0 {
        '0'
    } else if d == 1 {
        '1'
    } else if d == 2 {
        '2'
    } else if d == 3 {
        '3'
    } else if d == 4 {
        '4'
    } else if d == 5 {
        '5'
    } else if d == 6 {
        '6'
    } else if d == 7 {
        '7'
    } else if d == 8 {
        '8'
    } else {
        '9'
    }
}

/// Computes [`digit`].
fn digit_char(d: usize) -> (c: char)
    requires
        d < 10,
    ensures
        c == digit(d as nat),
{
    if d == 0 {
        '0'
    } else if d == 1 {
        '1'
    } else if d == 2 {
        '2'
    } else if d == 3 {
        '3'
    } else if d == 4 {
        '4'
    } else if d == 5 {
        '5'
    } else if d == 6 {
        '6'
    } else if d == 7 {
        '7'
    } else if d == 8 {
        '8'
    } else {
        '9'
    }
}

/// Appends the decimal digits of `n`.
pub fn push_decimal(out: &mut String, n: usize)
    ensures
        final(out)@ == old(out)@ + decimal(n as nat),
    decreases n,
{
    if n < 10 {
        out.push(digit_char(n));
    } else {
        push_decimal(out, n / 10);
        out.push(digit_char(n % 10));
    }
}

/// The diagnostic for a text that is not of the grammar at position `pos`:
/// the line, and what the grammar expects there.
pub open spec fn diagnostic(s: Seq<char>, pos: int, expected: Seq<char>) -> Seq<char> {
    "line "@ + decimal(line_of(s, pos)) + ": expected "@ + expected
}

/// What the error of a failed parse of `s` is: a parse error whose
/// diagnostic names a line of the text and what was expected there, or
/// says that the text is too long.
pub open spec fn reports_failure(s: Seq<char>, e: crate::error::ErrorView) -> bool {
    e matches crate::error::ErrorView::ParseError(d) && (d == "the text is too long"@
        || exists|pos: int, expected: Seq<char>|
        0 <= pos <= s.len() && d == #[trigger] diagnostic(s, pos, expected))
}

/// The parse error for position `pos`.
pub fn failure(s: &Vec<char>, pos: usize, expected: &str) -> (e: Error)
    requires
        pos <= s.len(),
        s.len() < usize::MAX,
    ensures
        e@ == crate::error::ErrorView::ParseError(diagnostic(s@, pos as int, expected@)),
        reports_failure(s@, e@),
{
    let mut cur = Cursor { pos: 0, line: 1 };
    let line = line_at(s, &mut cur, pos);
    let mut msg = String::from_str("line ");
    push_decimal(&mut msg, line);
    msg.append(": expected ");
    msg.append(expected);
    proof {
        let d = diagnostic(s@, pos as int, expected@);
        assert(msg@ =~= d);
        assert(exists|p: int, x: Seq<char>|
            0 <= p <= s@.len() && d == #[trigger] diagnostic(s@, p, x));
    }
    Error::ParseError(msg)
}

/// Whether the characters `s[i..j]` spell `w`.
pub fn word_is(s: &Vec<char>, i: usize, j: usize, w: &str) -> (r: bool)
    requires
        i <= j <= s.len(),
    ensures
        r == (s@.subrange(i as int, j as int) == w@),
{
    let t = string_of(s, i, j);
    str_eq(t.as_str(), w)
}

/// Whether the characters `s[i..j]` spell a reserved word.
pub fn reserved_word(s: &Vec<char>, i: usize, j: usize) -> (r: bool)
    requires
        i <= j <= s.len(),
    ensures
        r == is_reserved(s@.subrange(i as int, j as int)),
{
    let t = string_of(s, i, j);
    str_eq(t.as_str(), "graph") || str_eq(t.as_str(), "node") || str_eq(t.as_str(), "edge")
        || str_eq(t.as_str(), "subgraph")
}

/// Builds the edges of a chain.
pub fn make_chain(from: String, targets: &Vec<String>, attrs: &Attrs, range: (usize, usize)) -> (r:
    Vec<Chunk>)
    ensures
        views(r@) == chain_edges(from@, texts(targets@), attrs@, range),
{
    let mut out: Vec<Chunk> = Vec::new();
    let mut k: usize = 0;
    while k < targets.len()
        invariant
            k <= targets.len(),
            out.len() == k,
            forall|m: int|
                0 <= m < k ==> (#[trigger] out@[m])@ == chain_edges(
                    from@,
                    texts(targets@),
                    attrs@,
                    range,
                )[m],
        decreases targets.len() - k,
    {
        let source = if k == 0 {
            from.clone()
        } else {
            targets[k - 1].clone()
        };
        let c = Chunk::new(KIND_EDGE, Some(source), attrs.clone(), range, Some(targets[k].clone()));
        out.push(c);
        k = k + 1;
    }
    out
}

/// `r` with the chunks `p` put before its own.
pub open spec fn prefixed(p: Seq<ChunkView>, r: Option<(Seq<ChunkView>, int)>) -> Option<
    (Seq<ChunkView>, int),
> {
    match r {
        Some((cs, e)) => Some((p + cs, e)),
        None => None,
    }
}

/// Appending lists of chunks appends their models.
pub proof fn lemma_views_concat(a: Seq<Chunk>, b: Seq<Chunk>)
    ensures
        views(a + b) == views(a) + views(b),
{
}

/// Computes [`stmt`]: the chunks of the statement at `i` and where it
/// ends.
pub fn parse_stmt(s: &Vec<char>, i: usize, cur: &mut Cursor) -> (r: Result<
    (Vec<Chunk>, usize),
    Error,
>)
    requires
        i <= s.len(),
        s.len() < usize::MAX,
        old(cur).valid(s@),
        old(cur).pos <= i,
    ensures
        match r {
            Ok((v, e)) => stmt(s@, i as int) == Some((views(v@), e as int)) && i < e <= s.len()
                && final(cur).valid(s@) && final(cur).pos <= e,
            Err(x) => stmt(s@, i as int) is None && reports_failure(s@, x@),
        },
    decreases s.len() - i, 1int,
{
    if i >= s.len() {
        return Err(failure(s, i, "a statement"));
    }
    if s[i] == '{' {
        return parse_block(s, i, i, None, cur);
    }
    match scan_ident(s, i) {
        None => Err(failure(s, i, "a statement")),
        Some(j) => {
            let a = scan_ws(s, j);
            if word_is(s, i, j, "subgraph") {
                if a < s.len() && s[a] == '{' {
                    parse_block(s, i, a, None, cur)
                } else {
                    match scan_ident(s, a) {
                        None => Err(failure(s, a, "a subgraph name or '{'")),
                        Some(n) => {
                            let b = scan_ws(s, n);
                            if b < s.len() && s[b] == '{' {
                                let id = string_of(s, a, n);
                                parse_block(s, i, b, Some(id), cur)
                            } else {
                                Err(failure(s, b, "'{'"))
                            }
                        },
                    }
                }
            } else if a < s.len() && s[a] == '[' && (word_is(s, i, j, "graph") || word_is(
                s,
                i,
                j,
                "node",
            ) || word_is(s, i, j, "edge")) {
                let mut attrs = Attrs::new();
                match scan_attr_list(s, j, &mut attrs) {
                    None => Err(failure(s, j, "']'")),
                    Some(e) => {
                        let first = line_at(s, cur, i);
                        let last = line_at(s, cur, e);
                        let c = Chunk::new(
                            KIND_ATTR_STMT,
                            Some(string_of(s, i, j)),
                            attrs,
                            (first, last),
                            None,
                        );
                        let mut v: Vec<Chunk> = Vec::new();
                        v.push(c);
                        assert(views(v@) =~= seq![
                            attr_stmt_chunk(
                                s@.subrange(i as int, j as int),
                                attrs@,
                                span_lines(s@, i as int, e as int),
                            ),
                        ]);
                        Ok((v, e))
                    },
                }
            } else if a < s.len() && s[a] == '=' {
                let val = scan_ws(s, a + 1);
                match scan_ident(s, val) {
                    None => Err(failure(s, val, "a value")),
                    Some(w) => {
                        let first = line_at(s, cur, i);
                        let last = line_at(s, cur, w);
                        let c = Chunk::new(
                            KIND_ID_EQ,
                            Some(string_of(s, i, j)),
                            Attrs::new(),
                            (first, last),
                            Some(string_of(s, val, w)),
                        );
                        let mut v: Vec<Chunk> = Vec::new();
                        v.push(c);
                        assert(views(v@) =~= seq![
                            id_eq_chunk(
                                s@.subrange(i as int, j as int),
                                s@.subrange(val as int, w as int),
                                span_lines(s@, i as int, w as int),
                            ),
                        ]);
                        Ok((v, w))
                    },
                }
            } else if reserved_word(s, i, j) {
                Err(failure(s, i, "a node id, not a reserved word"))
            } else {
                let pe = scan_port_end(s, j);
                match scan_edge_targets(s, pe) {
                    None => Err(failure(s, pe, "a node after the edge operator")),
                    Some((targets, te)) => {
                        let mut attrs = Attrs::new();
                        match scan_attr_list(s, te, &mut attrs) {
                            None => Err(failure(s, te, "']'")),
                            Some(e) => {
                                let first = line_at(s, cur, i);
                                let last = line_at(s, cur, e);
                                if targets.len() == 0 {
                                    let c = Chunk::new(
                                        KIND_NODE,
                                        Some(string_of(s, i, j)),
                                        attrs,
                                        (first, last),
                                        None,
                                    );
                                    let mut v: Vec<Chunk> = Vec::new();
                                    v.push(c);
                                    assert(views(v@) =~= seq![
                                        node_chunk(
                                            s@.subrange(i as int, j as int),
                                            attrs@,
                                            span_lines(s@, i as int, e as int),
                                        ),
                                    ]);
                                    Ok((v, e))
                                } else {
                                    let v = make_chain(
                                        string_of(s, i, pe),
                                        &targets,
                                        &attrs,
                                        (first, last),
                                    );
                                    Ok((v, e))
                                }
                            },
                        }
                    },
                }
            }
        },
    }
}

/// Computes [`block`]: the chunks of the subgraph that starts at `start`
/// and whose brace opens at `open`.
pub fn parse_block(
    s: &Vec<char>,
    start: usize,
    open: usize,
    id: Option<String>,
    cur: &mut Cursor,
) -> (r: Result<(Vec<Chunk>, usize), Error>)
    requires
        start <= open < s.len(),
        s.len() < usize::MAX,
        old(cur).valid(s@),
        old(cur).pos <= start,
    ensures
        match r {
            Ok((v, e)) => block(s@, start as int, open as int, crate::chunk::opt_view(id)) == Some(
                (views(v@), e as int),
            ) && open < e <= s.len() && final(cur).valid(s@) && final(cur).pos <= e,
            Err(x) => block(s@, start as int, open as int, crate::chunk::opt_view(id)) is None
                && reports_failure(s@, x@),
        },
    decreases s.len() - open, 0int,
{
    let first = line_at(s, cur, start);
    match parse_stmt_list(s, open + 1, cur) {
        Err(x) => Err(x),
        Ok((mut body, j)) => {
            let c = scan_ws(s, j);
            if c < s.len() && s[c] == '}' {
                let last = line_at(s, cur, c + 1);
                let head = Chunk::new(KIND_SUBGRAPH, id, Attrs::new(), (first, last), None);
                let mut v: Vec<Chunk> = Vec::new();
                v.push(head);
                let ghost one = v@;
                let ghost rest = body@;
                v.append(&mut body);
                proof {
                    lemma_views_concat(one, rest);
                    assert(views(one) =~= seq![
                        subgraph_chunk(
                            crate::chunk::opt_view(id),
                            span_lines(s@, start as int, c as int + 1),
                        ),
                    ]);
                }
                Ok((v, c + 1))
            } else {
                Err(failure(s, c, "'}'"))
            }
        },
    }
}

/// Computes [`stmt_list`]: the chunks of the statements from `i` on and
/// where the list ends.
pub fn parse_stmt_list(s: &Vec<char>, i: usize, cur: &mut Cursor) -> (r: Result<
    (Vec<Chunk>, usize),
    Error,
>)
    requires
        i <= s.len(),
        s.len() < usize::MAX,
        old(cur).valid(s@),
        old(cur).pos <= i,
    ensures
        match r {
            Ok((v, e)) => stmt_list(s@, i as int) == Some((views(v@), e as int)) && i <= e
                <= s.len() && final(cur).valid(s@) && final(cur).pos <= e,
            Err(x) => stmt_list(s@, i as int) is None && reports_failure(s@, x@),
        },
    decreases s.len() - i, 2int,
{
    let mut out: Vec<Chunk> = Vec::new();
    let mut pos: usize = i;
    assert(prefixed(views(out@), stmt_list(s@, pos as int)) =~= stmt_list(s@, i as int)) by {}
    loop
        invariant
            i <= pos <= s.len(),
            s.len() < usize::MAX,
            cur.valid(s@),
            cur.pos <= pos,
            stmt_list(s@, i as int) == prefixed(views(out@), stmt_list(s@, pos as int)),
        decreases s.len() - pos,
    {
            let a = scan_ws(s, pos);
        if a >= s.len() || s[a] == '}' {
            return Ok((out, a));
        }
        if s[a] == ';' {
            pos = a + 1;
        } else {
            match parse_stmt(s, a, cur) {
                Err(x) => {
                    return Err(x);
                },
                Ok((mut first, j)) => {
                    let ghost before = out@;
                    let ghost added = first@;
                    out.append(&mut first);
                    proof {
                        lemma_views_concat(before, added);
                        match stmt_list(s@, j as int) {
                            Some((rest, e)) => {
                                assert((views(before) + views(added)) + rest =~= views(before) + (
                                views(added) + rest));
                            },
                            None => {},
                        }
                    }
                    pos = j;
                },
            }
        }
    }
}

/// Computes [`header`].
pub fn scan_header(s: &Vec<char>, i: usize) -> (r: Option<usize>)
    requires
        i <= s.len(),
    ensures
        match r {
            Some(b) => header(s@, i as int) == Some(b as int) && b < s.len(),
            None => header(s@, i as int) is None,
        },
{
    let a = scan_ws(s, i);
    match scan_ident(s, a) {
        None => None,
        Some(j) => {
            let (a2, j2) = if word_is(s, a, j, "strict") {
                let b = scan_ws(s, j);
                match scan_ident(s, b) {
                    Some(k) => (b, k),
                    None => (b, b),
                }
            } else {
                (a, j)
            };
            if word_is(s, a2, j2, "graph") || word_is(s, a2, j2, "digraph") {
                let b = scan_ws(s, j2);
                if b < s.len() && s[b] == '{' {
                    Some(b)
                } else {
                    match scan_ident(s, b) {
                        None => None,
                        Some(n) => {
                            let c = scan_ws(s, n);
                            if c < s.len() && s[c] == '{' {
                                Some(c)
                            } else {
                                None
                            }
                        },
                    }
                }
            } else {
                None
            }
        },
    }
}

/// A parser over one DOT text.
pub struct DotParser {
    src: Vec<char>,
}

impl DotParser {
    /// The text that the parser reads.
    pub closed spec fn text(&self) -> Seq<char> {
        self.src@
    }

    /// A parser for `text`.
    pub fn new(text: &str) -> (r: DotParser)
        ensures
            r.text() == text@,
    {
        DotParser { src: chars_of(text) }
    }

    /// Reads the text as an attribute list.
    pub fn attributes(&self) -> (r: Attrs)
        ensures
            r@ == parse_attrs(self.text()),
    {
        let mut attrs = Attrs::new();
        let _ = scan_a_list(&self.src, 0, &mut attrs);
        attrs
    }

    /// Reads the text as a DOT document and returns its chunks in source
    /// order. A text that is not a document of the grammar gives no
    /// chunks at all, but a parse error.
    pub fn document(&self) -> (r: Result<Vec<Chunk>, Error>)
        ensures
            match r {
                Ok(v) => parse_dot(self.text()) == Some(views(v@)),
                Err(e) => parse_dot(self.text()) is None && reports_failure(self.text(), e@),
            },
    {
        let s = &self.src;
        if s.len() >= usize::MAX {
            return Err(Error::ParseError(String::from_str("the text is too long")));
        }
        match scan_header(s, 0) {
            None => Err(failure(s, 0, "'graph' or 'digraph', a name and '{'")),
            Some(b) => {
                let mut cur = Cursor { pos: 0, line: 1 };
                match parse_stmt_list(s, b + 1, &mut cur) {
                    Err(x) => Err(x),
                    Ok((chunks, j)) => {
                        let c = scan_ws(s, j);
                        if c < s.len() && s[c] == '}' {
                            if scan_ws(s, c + 1) == s.len() {
                                Ok(chunks)
                            } else {
                                Err(failure(s, c + 1, "the end of the text"))
                            }
                        } else {
                            Err(failure(s, c, "'}'"))
                        }
                    },
                }
            },
        }
    }
}

/// Parses a DOT document into its chunks, in source order.
pub fn parse_dot_to_chunks(dot: &str) -> (r: Result<Vec<Chunk>, Error>)
    ensures
        match r {
            Ok(v) => parse_dot(dot@) == Some(views(v@)),
            Err(e) => parse_dot(dot@) is None && reports_failure(dot@, e@),
        },
{
    DotParser::new(dot).document()
}

} // verus!
