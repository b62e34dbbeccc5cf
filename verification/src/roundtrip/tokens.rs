//! Tokens inside a larger text: a scanner that runs over an occurrence of a
//! text sees what it would see in that text alone.

use vstd::prelude::*;
use crate::lexer::{
    at2, bare_end, block_end, html_end, ident_end, is_bare, is_space, line_end, quoted_end, skip_ws,
};

verus! {

/// The text `x` stands in `s` at position `p`.
pub open spec fn occurs(s: Seq<char>, p: int, x: Seq<char>) -> bool {
    0 <= p && p + x.len() <= s.len() && s.subrange(p, p + x.len()) == x
}

/// A text that stands at `p` agrees with `s` character by character.
pub proof fn lemma_occurs_index(s: Seq<char>, p: int, x: Seq<char>)
    requires
        occurs(s, p, x),
    ensures
        forall|k: int| 0 <= k < x.len() ==> s[p + k] == #[trigger] x[k],
{
    assert forall|k: int| 0 <= k < x.len() implies s[p + k] == #[trigger] x[k] by {}
}

/// A text stands at `p` when `s` agrees with it character by character.
pub proof fn lemma_occurs_from_index(s: Seq<char>, p: int, x: Seq<char>)
    requires
        0 <= p,
        p + x.len() <= s.len(),
        forall|k: int| 0 <= k < x.len() ==> s[p + k] == #[trigger] x[k],
    ensures
        occurs(s, p, x),
{
    assert(s.subrange(p, p + x.len()) =~= x);
}

/// A concatenation stands at `p` exactly when its first part stands at `p`
/// and its second part right after it.
pub proof fn lemma_occurs_split(s: Seq<char>, p: int, a: Seq<char>, b: Seq<char>)
    ensures
        occurs(s, p, a + b) <==> occurs(s, p, a) && occurs(s, p + a.len(), b),
{
    if occurs(s, p, a + b) {
        lemma_occurs_index(s, p, a + b);
        assert forall|k: int| 0 <= k < a.len() implies s[p + k] == #[trigger] a[k] by {
            assert((a + b)[k] == a[k]);
        }
        lemma_occurs_from_index(s, p, a);
        assert forall|k: int| 0 <= k < b.len() implies s[p + a.len() + k] == #[trigger] b[k] by {
            assert((a + b)[a.len() + k] == b[k]);
        }
        lemma_occurs_from_index(s, p + a.len(), b);
    }
    if occurs(s, p, a) && occurs(s, p + a.len(), b) {
        lemma_occurs_index(s, p, a);
        lemma_occurs_index(s, p + a.len(), b);
        assert forall|k: int| 0 <= k < (a + b).len() implies s[p + k] == #[trigger] (a + b)[k] by {}
        lemma_occurs_from_index(s, p, a + b);
    }
}

/// Every part of a text stands in the text.
pub proof fn lemma_occurs_part(s: Seq<char>, a: int, b: int)
    requires
        0 <= a <= b <= s.len(),
    ensures
        occurs(s, a, s.subrange(a, b)),
{
}

/// A quoted string that closes inside an occurrence of `x` closes at the
/// same place in `x` alone.
pub proof fn lemma_quoted_out(s: Seq<char>, p: int, x: Seq<char>, i: int)
    requires
        occurs(s, p, x),
        0 <= i <= x.len(),
        quoted_end(s, p + i) matches Some(e) && e <= p + x.len(),
    ensures
        quoted_end(x, i) == Some(quoted_end(s, p + i)->0 - p),
    decreases x.len() - i,
{
    lemma_occurs_index(s, p, x);
    crate::lexer::lemma_quoted_end(s, p + i);
    if i < x.len() {
        if x[i] == '"' {
        } else if x[i] == '\\' {
            if i + 1 < x.len() {
                lemma_quoted_out(s, p, x, i + 2);
            } else {
                // the scan in `s` goes on past the occurrence
                crate::lexer::lemma_quoted_end(s, p + i + 2);
            }
        } else {
            lemma_quoted_out(s, p, x, i + 1);
        }
    }
}

/// A quoted string that closes in `x` closes at the same place in every
/// text in which `x` stands.
pub proof fn lemma_quoted_in(s: Seq<char>, p: int, x: Seq<char>, i: int)
    requires
        occurs(s, p, x),
        0 <= i <= x.len(),
        quoted_end(x, i) is Some,
    ensures
        quoted_end(s, p + i) == Some(quoted_end(x, i)->0 + p),
    decreases x.len() - i,
{
    lemma_occurs_index(s, p, x);
    if i < x.len() {
        if x[i] == '"' {
        } else if x[i] == '\\' {
            if i + 1 < x.len() {
                lemma_quoted_in(s, p, x, i + 2);
            }
        } else {
            lemma_quoted_in(s, p, x, i + 1);
        }
    }
}

/// An HTML-like string that closes inside an occurrence of `x` closes at
/// the same place in `x` alone.
pub proof fn lemma_html_out(s: Seq<char>, p: int, x: Seq<char>, i: int, depth: int)
    requires
        occurs(s, p, x),
        0 <= i <= x.len(),
        html_end(s, p + i, depth) matches Some(e) && e <= p + x.len(),
    ensures
        html_end(x, i, depth) == Some(html_end(s, p + i, depth)->0 - p),
    decreases x.len() - i,
{
    lemma_occurs_index(s, p, x);
    crate::lexer::lemma_html_end(s, p + i, depth);
    if i < x.len() {
        if x[i] == '<' {
            lemma_html_out(s, p, x, i + 1, depth + 1);
        } else if x[i] == '>' {
            if depth > 1 {
                lemma_html_out(s, p, x, i + 1, depth - 1);
            }
        } else {
            lemma_html_out(s, p, x, i + 1, depth);
        }
    }
}

/// An HTML-like string that closes in `x` closes at the same place in
/// every text in which `x` stands.
pub proof fn lemma_html_in(s: Seq<char>, p: int, x: Seq<char>, i: int, depth: int)
    requires
        occurs(s, p, x),
        0 <= i <= x.len(),
        html_end(x, i, depth) is Some,
    ensures
        html_end(s, p + i, depth) == Some(html_end(x, i, depth)->0 + p),
    decreases x.len() - i,
{
    lemma_occurs_index(s, p, x);
    if i < x.len() {
        if x[i] == '<' {
            lemma_html_in(s, p, x, i + 1, depth + 1);
        } else if x[i] == '>' {
            if depth > 1 {
                lemma_html_in(s, p, x, i + 1, depth - 1);
            }
        } else {
            lemma_html_in(s, p, x, i + 1, depth);
        }
    }
}

/// A run of bare characters that ends inside an occurrence of `x`, or at
/// its end, is the run in `x` alone.
pub proof fn lemma_bare_out(s: Seq<char>, p: int, x: Seq<char>, i: int)
    requires
        occurs(s, p, x),
        0 <= i <= x.len(),
        bare_end(s, p + i) <= p + x.len(),
    ensures
        bare_end(x, i) == bare_end(s, p + i) - p,
    decreases x.len() - i,
{
    lemma_occurs_index(s, p, x);
    crate::lexer::lemma_bare_end(s, p + i);
    if i < x.len() {
        if is_bare(x[i]) {
            lemma_bare_out(s, p, x, i + 1);
        }
    }
}

/// A run of bare characters that reaches the end of `x` ends there in a
/// text in which `x` stands, unless a bare character follows.
pub proof fn lemma_bare_in(s: Seq<char>, p: int, x: Seq<char>, i: int)
    requires
        occurs(s, p, x),
        0 <= i <= x.len(),
        bare_end(x, i) < x.len() || p + x.len() == s.len() || !is_bare(s[p + x.len()]),
    ensures
        bare_end(s, p + i) == bare_end(x, i) + p,
    decreases x.len() - i,
{
    lemma_occurs_index(s, p, x);
    crate::lexer::lemma_bare_end(x, i);
    if i < x.len() {
        if is_bare(x[i]) {
            lemma_bare_in(s, p, x, i + 1);
        }
    }
}

/// A text that is exactly one identifier token.
pub open spec fn is_token(x: Seq<char>) -> bool {
    ident_end(x, 0) == Some(x.len() as int)
}

/// The characters of an identifier that the parser read form a token.
pub proof fn lemma_token_out(s: Seq<char>, p: int)
    requires
        0 <= p <= s.len(),
        ident_end(s, p) is Some,
    ensures
        p < ident_end(s, p)->0 <= s.len(),
        is_token(s.subrange(p, ident_end(s, p)->0)),
{
    crate::lexer::lemma_ident_end(s, p);
    let e = ident_end(s, p)->0;
    let x = s.subrange(p, e);
    lemma_occurs_part(s, p, e);
    lemma_occurs_index(s, p, x);
    if s[p] == '"' {
        lemma_quoted_out(s, p, x, 1);
    } else if s[p] == '<' {
        lemma_html_out(s, p, x, 1, 1);
    } else if s[p] == '-' {
        lemma_bare_out(s, p, x, 1);
    } else {
        lemma_bare_out(s, p, x, 0);
    }
}

/// A token reads as one identifier wherever it stands, unless a bare
/// character follows it.
pub proof fn lemma_token_in(s: Seq<char>, p: int, x: Seq<char>)
    requires
        occurs(s, p, x),
        is_token(x),
        p + x.len() == s.len() || !is_bare(s[p + x.len()]),
    ensures
        ident_end(s, p) == Some(p + x.len()),
        x.len() > 0,
{
    crate::lexer::lemma_ident_end(x, 0);
    lemma_occurs_index(s, p, x);
    if x[0] == '"' {
        lemma_quoted_in(s, p, x, 1);
    } else if x[0] == '<' {
        lemma_html_in(s, p, x, 1, 1);
    } else if x[0] == '-' {
        lemma_bare_in(s, p, x, 1);
    } else {
        lemma_bare_in(s, p, x, 0);
    }
}

/// The end of a line that lies inside an occurrence of `x` is the end of
/// the line in `x` alone.
pub proof fn lemma_line_end_out(s: Seq<char>, p: int, x: Seq<char>, i: int)
    requires
        occurs(s, p, x),
        0 <= i <= x.len(),
        line_end(s, p + i) < p + x.len(),
    ensures
        line_end(x, i) == line_end(s, p + i) - p,
    decreases x.len() - i,
{
    lemma_occurs_index(s, p, x);
    crate::lexer::lemma_line_end(s, p + i);
    if i < x.len() {
        if x[i] != '\n' {
            lemma_line_end_out(s, p, x, i + 1);
        }
    }
}

/// The end of a line inside `x` is the end of the line wherever `x`
/// stands.
pub proof fn lemma_line_end_in(s: Seq<char>, p: int, x: Seq<char>, i: int)
    requires
        occurs(s, p, x),
        0 <= i <= x.len(),
        line_end(x, i) < x.len(),
    ensures
        line_end(s, p + i) == line_end(x, i) + p,
    decreases x.len() - i,
{
    lemma_occurs_index(s, p, x);
    crate::lexer::lemma_line_end(x, i);
    if i < x.len() {
        if x[i] != '\n' {
            lemma_line_end_in(s, p, x, i + 1);
        }
    }
}

/// The end of a block comment that lies inside an occurrence of `x` is its
/// end in `x` alone.
pub proof fn lemma_block_end_out(s: Seq<char>, p: int, x: Seq<char>, i: int)
    requires
        occurs(s, p, x),
        0 <= i <= x.len(),
        block_end(s, p + i) matches Some(e) && e <= p + x.len(),
    ensures
        block_end(x, i) == Some(block_end(s, p + i)->0 - p),
    decreases x.len() - i,
{
    lemma_occurs_index(s, p, x);
    crate::lexer::lemma_block_end(s, p + i);
    if i + 1 < x.len() {
        if !(x[i] == '*' && x[i + 1] == '/') {
            lemma_block_end_out(s, p, x, i + 1);
        }
    } else if i + 1 < s.len() - p {
        if !(s[p + i] == '*' && s[p + i + 1] == '/') {
            crate::lexer::lemma_block_end(s, p + i + 1);
        }
    }
}

/// The end of a block comment inside `x` is its end wherever `x` stands.
pub proof fn lemma_block_end_in(s: Seq<char>, p: int, x: Seq<char>, i: int)
    requires
        occurs(s, p, x),
        0 <= i <= x.len(),
        block_end(x, i) is Some,
    ensures
        block_end(s, p + i) == Some(block_end(x, i)->0 + p),
    decreases x.len() - i,
{
    lemma_occurs_index(s, p, x);
    if i + 1 < x.len() {
        if !(x[i] == '*' && x[i + 1] == '/') {
            lemma_block_end_in(s, p, x, i + 1);
        }
    }
}

/// Blank space and comments that end inside an occurrence of `x`, and
/// not at a `/`, end at the same place in `x` alone.
pub proof fn lemma_skip_ws_out(s: Seq<char>, p: int, x: Seq<char>, i: int)
    requires
        occurs(s, p, x),
        0 <= i <= x.len(),
        skip_ws(s, p + i) < p + x.len(),
        s[skip_ws(s, p + i)] != '/',
    ensures
        skip_ws(x, i) == skip_ws(s, p + i) - p,
    decreases x.len() - i,
{
    lemma_occurs_index(s, p, x);
    crate::lexer::lemma_skip_ws(s, p + i);
    if i < x.len() {
        if is_space(x[i]) {
            lemma_skip_ws_out(s, p, x, i + 1);
        } else if at2(s, p + i, '/', '/') {
            let j = line_end(s, p + i + 2);
            crate::lexer::lemma_line_end(s, p + i + 2);
            crate::lexer::lemma_skip_ws(s, j);
            lemma_line_end_out(s, p, x, i + 2);
            lemma_skip_ws_out(s, p, x, j - p);
        } else if at2(s, p + i, '/', '*') {
            crate::lexer::lemma_block_end(s, p + i + 2);
            match block_end(s, p + i + 2) {
                Some(j) => {
                    crate::lexer::lemma_skip_ws(s, j);
                    lemma_block_end_out(s, p, x, i + 2);
                    lemma_skip_ws_out(s, p, x, j - p);
                },
                None => {
                    if block_end(x, i + 2) is Some {
                        lemma_block_end_in(s, p, x, i + 2);
                    }
                },
            }
        }
    }
}

/// Blank space and comments that end inside `x`, and not at a `/`, end at
/// the same place wherever `x` stands.
pub proof fn lemma_skip_ws_in(s: Seq<char>, p: int, x: Seq<char>, i: int)
    requires
        occurs(s, p, x),
        0 <= i <= x.len(),
        skip_ws(x, i) < x.len(),
        x[skip_ws(x, i)] != '/',
    ensures
        skip_ws(s, p + i) == skip_ws(x, i) + p,
    decreases x.len() - i,
{
    lemma_occurs_index(s, p, x);
    crate::lexer::lemma_skip_ws(x, i);
    if i < x.len() {
        if is_space(x[i]) {
            lemma_skip_ws_in(s, p, x, i + 1);
        } else if at2(x, i, '/', '/') {
            let j = line_end(x, i + 2);
            crate::lexer::lemma_line_end(x, i + 2);
            crate::lexer::lemma_skip_ws(x, j);
            lemma_line_end_in(s, p, x, i + 2);
            lemma_skip_ws_in(s, p, x, j);
        } else if at2(x, i, '/', '*') {
            crate::lexer::lemma_block_end(x, i + 2);
            match block_end(x, i + 2) {
                Some(j) => {
                    crate::lexer::lemma_skip_ws(x, j);
                    lemma_block_end_in(s, p, x, i + 2);
                    lemma_skip_ws_in(s, p, x, j);
                },
                None => {},
            }
        }
    }
}

} // verus!
