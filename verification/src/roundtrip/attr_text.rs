//! Attribute lists read back: what `format_attrs` wrote, `a_list_from`
//! reads as the same map.

use vstd::prelude::*;
use crate::attrs::{lemma_slot_from, put, sorted_keys, AttrSeq};
use crate::grammar::{a_list_from, id_eq_at, parse_attrs, token_value};
use crate::lexer::{
    bare_end, escape, ident_end, is_bare, is_space, lemma_bare_end, lemma_escape_quoted_end,
    lemma_unescape_escape, skip_ws,
};
use crate::roundtrip::tokens::{
    is_token, lemma_bare_in, lemma_occurs_index, lemma_occurs_split, lemma_quoted_in,
    lemma_token_in, occurs,
};
use crate::serializer::{all_alnum, format_attrs, format_entry, format_value, is_html_like};

verus! {

/// A character at which blank space ends and no comment starts.
pub open spec fn is_solid(c: char) -> bool {
    !is_space(c) && c != '/'
}

/// Blank space ends at once at a solid character.
pub proof fn lemma_skip_ws_solid(s: Seq<char>, i: int)
    requires
        0 <= i < s.len(),
        is_solid(s[i]),
    ensures
        skip_ws(s, i) == i,
{
}

/// A token is not empty, and its first character is solid and is none of
/// the marks of the grammar.
pub proof fn lemma_token_first(x: Seq<char>)
    requires
        is_token(x),
    ensures
        x.len() > 0,
        is_solid(x[0]),
        x[0] != '{' && x[0] != '}' && x[0] != ';' && x[0] != '[' && x[0] != ']' && x[0] != '='
            && x[0] != ',' && x[0] != ':',
{
    crate::lexer::lemma_ident_end(x, 0);
    if x[0] != '"' && x[0] != '<' && x[0] != '-' {
        lemma_bare_end(x, 0);
    }
}

/// A value that can be written and read back: if it looks like an HTML-like
/// label, starting with `<` and ending with `>`, it is one token, its
/// angle brackets balanced.
pub open spec fn value_ok(v: Seq<char>) -> bool {
    is_html_like(v) ==> is_token(v)
}

/// An entry whose name is a token and whose value can be written and read
/// back.
pub open spec fn entry_ok(e: (Seq<char>, Seq<char>)) -> bool {
    is_token(e.0) && value_ok(e.1)
}

/// An attribute map that can be written and read back: the names are
/// tokens in strictly increasing order and every value that looks like an
/// HTML-like label is one token.
pub open spec fn attrs_ok(a: AttrSeq) -> bool {
    sorted_keys(a) && forall|i: int| 0 <= i < a.len() ==> entry_ok(#[trigger] a[i])
}

/// A written value is not empty, and its first character is solid.
pub proof fn lemma_value_first(v: Seq<char>)
    requires
        value_ok(v),
    ensures
        format_value(v).len() > 0,
        is_solid(format_value(v)[0]),
{
}

/// A written value reads as one token that stands for the value, wherever
/// it is written, unless a bare character follows it: a balanced HTML-like
/// label as it is, any other value through its quotes and escapes or
/// bare.
pub proof fn lemma_value_back(s: Seq<char>, p: int, v: Seq<char>)
    requires
        occurs(s, p, format_value(v)),
        value_ok(v),
        p + format_value(v).len() == s.len() || !is_bare(s[p + format_value(v).len()]),
    ensures
        ident_end(s, p) == Some(p + format_value(v).len()),
        token_value(s, p, p + format_value(v).len()) == v,
{
    let f = format_value(v);
    lemma_occurs_index(s, p, f);
    if is_html_like(v) {
        lemma_token_in(s, p, v);
    } else if v.len() == 0 || !all_alnum(v) {
        let e = escape(v);
        let body = e + seq!['"'];
        assert(f =~= seq!['"'] + body);
        lemma_occurs_split(s, p, seq!['"'], body);
        lemma_escape_quoted_end(v, seq!['"']);
        lemma_quoted_in(s, p + 1, body, 0);
        lemma_occurs_split(s, p + 1, e, seq!['"']);
        lemma_unescape_escape(v);
    } else {
        assert forall|k: int| 0 <= k < v.len() implies is_bare(#[trigger] v[k]) by {}
        lemma_all_bare(v, 0);
        lemma_bare_in(s, p, v, 0);
    }
}

/// A run of bare characters runs to the end of a text that holds nothing
/// else from `i` on.
pub proof fn lemma_all_bare(x: Seq<char>, i: int)
    requires
        0 <= i <= x.len(),
        forall|k: int| i <= k < x.len() ==> is_bare(#[trigger] x[k]),
    ensures
        bare_end(x, i) == x.len(),
    decreases x.len() - i,
{
    if i < x.len() {
        lemma_all_bare(x, i + 1);
    }
}

/// A written entry reads as `name = value` with the same name and the same
/// value, wherever it is written, unless a bare character follows it.
pub proof fn lemma_entry_back(s: Seq<char>, p: int, e: (Seq<char>, Seq<char>))
    requires
        occurs(s, p, format_entry(e)),
        entry_ok(e),
        p + format_entry(e).len() == s.len() || !is_bare(s[p + format_entry(e).len()]),
    ensures
        id_eq_at(s, p) == Some(
            (p + e.0.len(), p + e.0.len() + 1, p + format_entry(e).len()),
        ),
        s.subrange(p, p + e.0.len()) == e.0,
        token_value(s, p + e.0.len() + 1, p + format_entry(e).len()) == e.1,
{
    let k = e.0;
    let f = format_value(e.1);
    assert(format_entry(e) =~= k + (seq!['='] + f));
    lemma_occurs_split(s, p, k, seq!['='] + f);
    lemma_occurs_split(s, p + k.len(), seq!['='], f);
    lemma_occurs_index(s, p + k.len(), seq!['=']);
    assert(seq!['='][0] == '=');
    lemma_token_in(s, p, k);
    lemma_skip_ws_solid(s, p + k.len());
    lemma_value_first(e.1);
    lemma_occurs_index(s, p + k.len() + 1, f);
    lemma_skip_ws_solid(s, p + k.len() + 1);
    lemma_value_back(s, p + k.len() + 1, e.1);
}

/// The entries from `n` on as they are written, with `, ` between them.
pub open spec fn entries_from(a: AttrSeq, n: int) -> Seq<char>
    decreases a.len() - n,
{
    if n < 0 || n >= a.len() {
        Seq::empty()
    } else if n == a.len() - 1 {
        format_entry(a[n])
    } else {
        format_entry(a[n]) + seq![',', ' '] + entries_from(a, n + 1)
    }
}

/// Writing the first `m` entries and then the entries from `m` on writes
/// the whole list.
pub proof fn lemma_entries_join(a: AttrSeq, m: int)
    requires
        0 < m < a.len(),
    ensures
        format_attrs(a) == format_attrs(a.take(m)) + seq![',', ' '] + entries_from(a, m),
    decreases a.len() - m,
{
    let head = a.take(m);
    if m != a.len() - 1 {
        lemma_entries_join(a, m + 1);
        let next = a.take(m + 1);
        assert(next.drop_last() =~= head);
    }
}

/// The written list is the entries from the first on.
pub proof fn lemma_entries_all(a: AttrSeq)
    ensures
        format_attrs(a) == entries_from(a, 0),
{
    if a.len() > 1 {
        lemma_entries_join(a, 1);
    }
}

/// A name that comes after every name of a sorted list is appended.
pub proof fn lemma_put_last(a: AttrSeq, n: int)
    requires
        sorted_keys(a),
        0 <= n < a.len(),
    ensures
        put(a.take(n), a[n].0, a[n].1) == a.take(n + 1),
{
    let head = a.take(n);
    let k = a[n].0;
    lemma_slot_from(head, k, 0);
}

/// Where a list may end: at the end of the text or before a closing
/// bracket.
pub open spec fn list_stop(s: Seq<char>, q: int) -> bool {
    q == s.len() || (0 <= q < s.len() && s[q] == ']')
}

/// No entry starts where a list may end.
pub proof fn lemma_stop_reads_nothing(s: Seq<char>, q: int, acc: AttrSeq)
    requires
        0 <= q <= s.len(),
        list_stop(s, q),
    ensures
        a_list_from(s, q, acc) == (acc, q),
        skip_ws(s, q) == q,
        !(q < s.len() && (s[q] == ',' || s[q] == ';')),
        q == s.len() || !is_bare(s[q]),
{
    if q < s.len() {
        lemma_skip_ws_solid(s, q);
        lemma_bare_end(s, q);
    }
}

/// The entries from `n` on, written at `p` and followed by the end of the
/// text or a closing bracket, are read into the first `n` entries as the
/// whole map, and the list ends where the writing ends.
pub proof fn lemma_entries_back(s: Seq<char>, p: int, a: AttrSeq, n: int)
    requires
        attrs_ok(a),
        0 <= n <= a.len(),
        occurs(s, p, entries_from(a, n)),
        list_stop(s, p + entries_from(a, n).len()),
    ensures
        a_list_from(s, p, a.take(n)) == (a, p + entries_from(a, n).len()),
    decreases a.len() - n,
{
    let text = entries_from(a, n);
    if n >= a.len() {
        lemma_stop_reads_nothing(s, p, a);
    } else {
        let e = a[n];
        let f = format_entry(e);
        crate::roundtrip::attr_text::lemma_token_first(e.0);
        lemma_put_last(a, n);
        if n == a.len() - 1 {
            lemma_stop_reads_nothing(s, p + f.len(), a);
            lemma_occurs_index(s, p, f);
            assert(f[0] == e.0[0]);
            lemma_skip_ws_solid(s, p);
            lemma_entry_back(s, p, e);
            assert(a.take(n + 1) =~= a);
        } else {
            let rest = entries_from(a, n + 1);
            assert(text =~= f + (seq![',', ' '] + rest));
            lemma_occurs_split(s, p, f, seq![',', ' '] + rest);
            lemma_occurs_split(s, p + f.len(), seq![',', ' '], rest);
            lemma_occurs_index(s, p + f.len(), seq![',', ' ']);
            let w = p + f.len();
            lemma_occurs_index(s, p, f);
            assert(f[0] == e.0[0]);
            lemma_skip_ws_solid(s, p);
            lemma_entry_back(s, p, e);
            lemma_skip_ws_solid(s, w);
            // the next entry starts after the blank
            let e2 = a[n + 1];
            crate::roundtrip::attr_text::lemma_token_first(e2.0);
            lemma_first_of_entries(a, n + 1);
            lemma_occurs_index(s, w + 2, rest);
            lemma_skip_ws_solid(s, w + 2);
            lemma_entries_back(s, w + 2, a, n + 1);
            // reading from the blank or from the next entry is the same
            assert(a_list_from(s, w + 1, a.take(n + 1)) == a_list_from(s, w + 2, a.take(n + 1)))
                by {
                lemma_entry_back_from_blank(s, w + 1, a, n + 1);
            }
        }
    }
}

/// The entries from `n` on start with the first character of the name of
/// entry `n`.
pub proof fn lemma_first_of_entries(a: AttrSeq, n: int)
    requires
        0 <= n < a.len(),
        a[n].0.len() > 0,
    ensures
        entries_from(a, n).len() > 0,
        entries_from(a, n)[0] == a[n].0[0],
{
}

/// Reading a list from a blank before its first entry is reading it from
/// the entry.
pub proof fn lemma_entry_back_from_blank(s: Seq<char>, b: int, a: AttrSeq, n: int)
    requires
        attrs_ok(a),
        0 <= n < a.len(),
        0 <= b,
        b + 1 < s.len(),
        skip_ws(s, b) == b + 1,
        skip_ws(s, b + 1) == b + 1,
        occurs(s, b + 1, entries_from(a, n)),
        list_stop(s, b + 1 + entries_from(a, n).len()),
    ensures
        a_list_from(s, b, a.take(n)) == a_list_from(s, b + 1, a.take(n)),
{
    let e = a[n];
    let f = format_entry(e);
    let text = entries_from(a, n);
    if n == a.len() - 1 {
        lemma_stop_reads_nothing(s, b + 1 + f.len(), a);
        lemma_entry_back(s, b + 1, e);
    } else {
        let rest = entries_from(a, n + 1);
        assert(text =~= f + (seq![',', ' '] + rest));
        lemma_occurs_split(s, b + 1, f, seq![',', ' '] + rest);
        lemma_occurs_split(s, b + 1 + f.len(), seq![',', ' '], rest);
        lemma_occurs_index(s, b + 1 + f.len(), seq![',', ' ']);
        lemma_entry_back(s, b + 1, e);
    }
}

/// Parsing what was written for a map gives the map back: for every
/// attribute map whose names are tokens in increasing order and whose
/// HTML-like values are balanced.
pub proof fn lemma_attrs_round_trip(a: AttrSeq)
    requires
        attrs_ok(a),
    ensures
        parse_attrs(format_attrs(a)) == a,
{
    let s = format_attrs(a);
    lemma_entries_all(a);
    assert(s.subrange(0, s.len() as int) =~= s);
    assert(a.take(0) =~= Seq::<(Seq<char>, Seq<char>)>::empty());
    lemma_entries_back(s, 0, a, 0);
}

} // verus!
