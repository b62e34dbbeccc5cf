//! Node ids with ports inside a larger text.

use vstd::prelude::*;
use crate::grammar::{is_reserved, port_end};
use crate::lexer::{ident_end, is_bare, is_space, lemma_ident_end, lemma_skip_ws, skip_ws};
use crate::roundtrip::attr_text::{is_solid, lemma_token_first};
use crate::roundtrip::tokens::{
    lemma_occurs_index, lemma_occurs_part, lemma_skip_ws_in, lemma_skip_ws_out, lemma_token_out,
    occurs,
};

verus! {

/// A text that is exactly one node id: an identifier that is no reserved
/// word, and the port that follows it, if any.
pub open spec fn is_node_id(x: Seq<char>) -> bool {
    ident_end(x, 0) matches Some(j) && port_end(x, j) == x.len() && !is_reserved(x.subrange(0, j))
}

/// Where blank space is skipped, a blank or a `/` stands.
pub proof fn lemma_skipped_is_not_bare(s: Seq<char>, i: int)
    requires
        0 <= i < s.len(),
        skip_ws(s, i) != i,
    ensures
        is_space(s[i]) || s[i] == '/',
        !is_bare(s[i]),
{
}

/// An identifier inside an occurrence of `x` reads the same in `x` alone.
pub proof fn lemma_ident_out(s: Seq<char>, p: int, x: Seq<char>, i: int)
    requires
        occurs(s, p, x),
        0 <= i <= x.len(),
        ident_end(s, p + i) matches Some(e) && e <= p + x.len(),
    ensures
        ident_end(x, i) == Some(ident_end(s, p + i)->0 - p),
{
    lemma_occurs_index(s, p, x);
    lemma_ident_end(s, p + i);
    assert(s[p + i] == x[i]);
    if x[i] == '"' {
        crate::roundtrip::tokens::lemma_quoted_out(s, p, x, i + 1);
    } else if x[i] == '<' {
        crate::roundtrip::tokens::lemma_html_out(s, p, x, i + 1, 1);
    } else if x[i] == '-' {
        crate::roundtrip::tokens::lemma_bare_out(s, p, x, i + 1);
    } else {
        crate::roundtrip::tokens::lemma_bare_out(s, p, x, i);
    }
}

/// An identifier inside `x` reads the same wherever `x` stands, unless it
/// reaches the end of `x` and a bare character follows.
pub proof fn lemma_ident_in(s: Seq<char>, p: int, x: Seq<char>, i: int)
    requires
        occurs(s, p, x),
        0 <= i <= x.len(),
        ident_end(x, i) matches Some(e) && (e < x.len() || p + x.len() == s.len() || !is_bare(
            s[p + x.len()],
        )),
    ensures
        ident_end(s, p + i) == Some(ident_end(x, i)->0 + p),
{
    lemma_occurs_index(s, p, x);
    lemma_ident_end(x, i);
    if x[i] == '"' {
        crate::roundtrip::tokens::lemma_quoted_in(s, p, x, i + 1);
    } else if x[i] == '<' {
        crate::roundtrip::tokens::lemma_html_in(s, p, x, i + 1, 1);
    } else if x[i] == '-' {
        crate::roundtrip::tokens::lemma_bare_in(s, p, x, i + 1);
    } else {
        crate::roundtrip::tokens::lemma_bare_in(s, p, x, i);
    }
}

/// The first character of an identifier is solid.
pub proof fn lemma_ident_first(s: Seq<char>, i: int)
    requires
        0 <= i <= s.len(),
        ident_end(s, i) is Some,
    ensures
        i < s.len(),
        is_solid(s[i]),
        s[i] != ':',
{
    lemma_token_out(s, i);
    let x = s.subrange(i, ident_end(s, i)->0);
    lemma_token_first(x);
}

/// What follows a node id in a text: no bare character, and after blank
/// space no colon.
pub open spec fn id_stop(s: Seq<char>, q: int) -> bool {
    0 <= q <= s.len() && (q == s.len() || !is_bare(s[q])) && (skip_ws(s, q) >= s.len() || s[skip_ws(
        s,
        q,
    )] != ':')
}

/// A node id reads as the same identifier and port wherever it stands,
/// when what follows it cannot continue it.
pub proof fn lemma_node_id_in(s: Seq<char>, p: int, x: Seq<char>)
    requires
        occurs(s, p, x),
        is_node_id(x),
        id_stop(s, p + x.len()),
    ensures
        ident_end(s, p) == Some(p + ident_end(x, 0)->0),
        port_end(s, p + ident_end(x, 0)->0) == p + x.len(),
        s.subrange(p, p + ident_end(x, 0)->0) == x.subrange(0, ident_end(x, 0)->0),
{
    let n = x.len() as int;
    let q = p + n;
    let j = ident_end(x, 0)->0;
    lemma_ident_end(x, 0);
    lemma_occurs_index(s, p, x);
    lemma_skip_ws(x, j);
    lemma_skip_ws(s, q);
    let c = skip_ws(x, j);
    if c < n && x[c] == ':' {
        // a port follows in `x`
        if c != j {
            lemma_skipped_is_not_bare(x, j);
        }
        lemma_ident_in(s, p, x, 0);
        lemma_skip_ws_in(s, p, x, j);
        let a1 = skip_ws(x, c + 1);
        lemma_skip_ws(x, c + 1);
        match ident_end(x, a1) {
            Some(port) => {
                lemma_ident_end(x, a1);
                lemma_ident_first(x, a1);
                lemma_skip_ws_in(s, p, x, c + 1);
                lemma_skip_ws(x, port);
                let c2 = skip_ws(x, port);
                if c2 < n && x[c2] == ':' {
                    if c2 != port {
                        lemma_skipped_is_not_bare(x, port);
                    }
                    lemma_ident_in(s, p, x, a1);
                    lemma_skip_ws_in(s, p, x, port);
                    let a2 = skip_ws(x, c2 + 1);
                    lemma_skip_ws(x, c2 + 1);
                    match ident_end(x, a2) {
                        Some(point) => {
                            lemma_ident_end(x, a2);
                            lemma_ident_first(x, a2);
                            lemma_skip_ws_in(s, p, x, c2 + 1);
                            lemma_ident_in(s, p, x, a2);
                        },
                        None => {
                            // the node id ends after the first port, yet a colon follows
                        },
                    }
                } else {
                    // one port, which ends the node id
                    lemma_ident_in(s, p, x, a1);
                }
            },
            None => {
                // a colon follows the identifier inside the node id
            },
        }
    } else {
        // no port: the node id is the identifier
        lemma_ident_in(s, p, x, 0);
    }
}

/// The characters of an identifier and its port, as the parser read them,
/// form a node id when the identifier is no reserved word.
pub proof fn lemma_node_id_out(s: Seq<char>, p: int)
    requires
        0 <= p <= s.len(),
        ident_end(s, p) is Some,
        !is_reserved(s.subrange(p, ident_end(s, p)->0)),
    ensures
        ident_end(s, p)->0 <= port_end(s, ident_end(s, p)->0) <= s.len(),
        is_node_id(s.subrange(p, port_end(s, ident_end(s, p)->0))),
{
    let j = ident_end(s, p)->0;
    lemma_ident_end(s, p);
    let pe = port_end(s, j);
    lemma_port_end(s, j);
    let x = s.subrange(p, pe);
    lemma_occurs_part(s, p, pe);
    lemma_occurs_index(s, p, x);
    lemma_ident_out(s, p, x, 0);
    assert(x.subrange(0, j - p) =~= s.subrange(p, j));
    lemma_skip_ws(s, j);
    lemma_skip_ws(x, j - p);
    let c = skip_ws(s, j);
    if c < s.len() && s[c] == ':' {
        let a1 = skip_ws(s, c + 1);
        lemma_skip_ws(s, c + 1);
        match ident_end(s, a1) {
            Some(port) => {
                lemma_ident_end(s, a1);
                lemma_ident_first(s, a1);
                lemma_skip_ws(s, port);
                let c2 = skip_ws(s, port);
                if c2 < s.len() && s[c2] == ':' {
                    lemma_skip_ws(s, c2 + 1);
                    lemma_ident_end(s, skip_ws(s, c2 + 1));
                }
                lemma_skip_ws_out(s, p, x, j - p);
                lemma_skip_ws_out(s, p, x, c + 1 - p);
                lemma_ident_out(s, p, x, a1 - p);
                lemma_skip_ws(x, port - p);
                if c2 < s.len() && s[c2] == ':' {
                    let a2 = skip_ws(s, c2 + 1);
                    match ident_end(s, a2) {
                        Some(point) => {
                            lemma_ident_first(s, a2);
                            lemma_skip_ws_out(s, p, x, port - p);
                            lemma_skip_ws_out(s, p, x, c2 + 1 - p);
                            lemma_ident_out(s, p, x, a2 - p);
                        },
                        None => {
                            // the node id ends after the first port
                        },
                    }
                }
            },
            None => {
                // no port: the node id is the identifier
            },
        }
    }
}

/// A port ends at or after the identifier and inside the text.
pub proof fn lemma_port_end(s: Seq<char>, j: int)
    requires
        0 <= j <= s.len(),
    ensures
        j <= port_end(s, j) <= s.len(),
{
    lemma_skip_ws(s, j);
    let c = skip_ws(s, j);
    if c < s.len() && s[c] == ':' {
        let a1 = skip_ws(s, c + 1);
        lemma_skip_ws(s, c + 1);
        lemma_ident_end(s, a1);
        if let Some(port) = ident_end(s, a1) {
            lemma_skip_ws(s, port);
            let c2 = skip_ws(s, port);
            if c2 < s.len() && s[c2] == ':' {
                let a2 = skip_ws(s, c2 + 1);
                lemma_skip_ws(s, c2 + 1);
                lemma_ident_end(s, a2);
            }
        }
    }
}

} // verus!
