//! The parser of the edit language.
//!
//! The language is line-oriented. A line holds one command, a keyword and a
//! colon and the arguments, or nothing; `#` and `//` start a comment that
//! runs to the end of the line:
//!
//! ```text
//! node: X, "My Node"
//! edge: A, B, color=red
//! update_node: X {id: Y}
//! delete_edge: A, B
//! rank_same: A, B, C
//! ```
//!
//! | keyword | arguments |
//! |---|---|
//! | `node`, `update_node`, `subgraph`, `update_subgraph` | a name, then attributes |
//! | `delete_node`, `delete_subgraph` | a name |
//! | `edge`, `update_edge` | two names with a comma between them, then attributes |
//! | `delete_edge`, `move` | two names with a comma between them |
//! | `graph`, `node_defaults`, `edge_defaults` | attributes |
//! | `rank_same`, `rank_min`, `rank_max` | one name or more, commas between them |
//!
//! A name is a quoted string, kept with its quotes, or a bare word of
//! letters, digits, `_`, `.` and `-`. Attributes are `name = value` or
//! `name: value`, a comma before each if one likes, in braces or without;
//! a quoted string alone is the label. A value is a quoted string, which
//! loses its quotes and escapes, an HTML-like string in balanced angle
//! brackets, or a bare word.
//!
//! The grammar is stated as functions on a sequence of characters; the
//! executable parser computes them.

use vstd::prelude::*;
use vstd::string::StringExecFns;
use crate::attrs::{put, AttrSeq, Attrs};
use crate::dsl::ast::{
    command_views, ClusterCmd, ClusterCmdView, DslCommand, DslCommandView, EdgeCmd, EdgeCmdView,
    GlobalCmd, GlobalCmdView, NodeCmd, NodeCmdView, RankCmd, RankCmdView,
};
use crate::error::Error;
use crate::grammar::token_value;
use crate::lexer::{
    alnum_char, at2, html_end, is_alnum, lemma_quoted_end, line_end, quoted_end, scan_html_end,
    scan_line_end, scan_quoted_end, unescape, unescaped,
};
use crate::parser::{failure, reports_failure, value_of_token};
use crate::text::{chars_of, str_eq, string_of, texts};

verus! {

/// Space, tab or carriage return: blank space inside a line.
pub open spec fn is_blank(c: char) -> bool {
    c == ' ' || c == '\t' || c == '\r'
}

/// A character of a bare word: a letter, a digit, `_`, `.`, `-`, or any
/// character outside ASCII.
pub open spec fn is_word(c: char) -> bool {
    is_alnum(c) || c == '_' || c == '.' || c == '-' || (c as u32) >= 128
}

/// The first position at or after `i` that is not blank.
pub open spec fn skip_blank(s: Seq<char>, i: int) -> int
    decreases s.len() - i,
{
    if 0 <= i < s.len() && is_blank(s[i]) {
        skip_blank(s, i + 1)
    } else {
        i
    }
}

/// The end of the run of word characters that starts at `i`.
pub open spec fn word_end(s: Seq<char>, i: int) -> int
    decreases s.len() - i,
{
    if 0 <= i < s.len() && is_word(s[i]) {
        word_end(s, i + 1)
    } else {
        i
    }
}

/// The end of the name at `i`: a quoted string or a bare word.
pub open spec fn name_end(s: Seq<char>, i: int) -> Option<int> {
    if 0 <= i < s.len() && s[i] == '"' {
        quoted_end(s, i + 1)
    } else {
        let j = word_end(s, i);
        if j > i {
            Some(j)
        } else {
            None
        }
    }
}

/// The end of the value at `i`: a quoted string, an HTML-like string in
/// balanced angle brackets, or a bare word.
pub open spec fn value_end(s: Seq<char>, i: int) -> Option<int> {
    if 0 <= i < s.len() && s[i] == '<' {
        html_end(s, i + 1, 1)
    } else {
        name_end(s, i)
    }
}

/// The attribute at `i` and where it ends. A quoted string alone is the
/// label; otherwise an attribute is a bare word, `=` or `:`, and a value.
pub open spec fn attr_at(s: Seq<char>, i: int) -> Option<((Seq<char>, Seq<char>), int)> {
    if 0 <= i < s.len() && s[i] == '"' {
        match quoted_end(s, i + 1) {
            Some(j) => Some((("label"@, unescape(s.subrange(i + 1, j - 1))), j)),
            None => None,
        }
    } else {
        let j = word_end(s, i);
        let e = skip_blank(s, j);
        if j > i && 0 <= e < s.len() && (s[e] == '=' || s[e] == ':') {
            let v = skip_blank(s, e + 1);
            match value_end(s, v) {
                Some(w) => Some(((s.subrange(i, j), token_value(s, v, w)), w)),
                None => None,
            }
        } else {
            None
        }
    }
}

/// The position after an optional comma at `i`, blank space around it
/// skipped.
pub open spec fn past_comma(s: Seq<char>, i: int) -> int {
    let a = skip_blank(s, i);
    if 0 <= a < s.len() && s[a] == ',' {
        skip_blank(s, a + 1)
    } else {
        a
    }
}

/// The attributes from `i` on, written into `acc` one after the other,
/// and where the list ends. A comma may stand before each attribute.
pub open spec fn attr_items(s: Seq<char>, i: int, acc: AttrSeq) -> (AttrSeq, int)
    decreases s.len() - i,
{
    match attr_at(s, past_comma(s, i)) {
        Some(((k, v), j)) => if i < j <= s.len() {
            attr_items(s, j, put(acc, k, v))
        } else {
            (acc, i)
        },
        None => (acc, i),
    }
}

/// The attributes that may follow the arguments of a command, and where
/// they end: a list in braces after an optional comma, or a plain list.
/// `None` when a brace is not closed.
pub open spec fn attrs_after(s: Seq<char>, i: int) -> Option<(AttrSeq, int)> {
    let b = past_comma(s, i);
    if 0 <= b < s.len() && s[b] == '{' {
        let (acc, j) = attr_items(s, b + 1, Seq::empty());
        let c = skip_blank(s, j);
        if 0 <= c < s.len() && s[c] == '}' {
            Some((acc, c + 1))
        } else {
            None
        }
    } else {
        Some(attr_items(s, i, Seq::empty()))
    }
}

/// The names from `i` on, appended to `acc`, and where the list ends. A
/// comma may stand before each name.
pub open spec fn name_items(s: Seq<char>, i: int, acc: Seq<Seq<char>>) -> (Seq<Seq<char>>, int)
    decreases s.len() - i,
{
    let b = past_comma(s, i);
    match name_end(s, b) {
        Some(j) => if i < j <= s.len() && 0 <= b <= j {
            name_items(s, j, acc.push(s.subrange(b, j)))
        } else {
            (acc, i)
        },
        None => (acc, i),
    }
}

/// What arguments a keyword takes.
#[derive(Clone, Copy, PartialEq, Eq, Structural)]
pub enum Shape {
    /// One name, then attributes.
    NameAttrs,
    /// One name.
    Name,
    /// Two names with a comma between them, then attributes.
    PairAttrs,
    /// Two names with a comma between them.
    Pair,
    /// Attributes only.
    AttrsOnly,
    /// One name or more.
    Names,
}

/// The arguments that a keyword takes, or `None` for a word that is no
/// keyword.
pub open spec fn shape_of(kw: Seq<char>) -> Option<Shape> {
    if kw == "node"@ || kw == "update_node"@ || kw == "subgraph"@ || kw == "update_subgraph"@ {
        Some(Shape::NameAttrs)
    } else if kw == "delete_node"@ || kw == "delete_subgraph"@ {
        Some(Shape::Name)
    } else if kw == "edge"@ || kw == "update_edge"@ {
        Some(Shape::PairAttrs)
    } else if kw == "delete_edge"@ || kw == "move"@ {
        Some(Shape::Pair)
    } else if kw == "graph"@ || kw == "node_defaults"@ || kw == "edge_defaults"@ {
        Some(Shape::AttrsOnly)
    } else if kw == "rank_same"@ || kw == "rank_min"@ || kw == "rank_max"@ {
        Some(Shape::Names)
    } else {
        None
    }
}

/// The arguments of a command, as they were read.
pub struct ArgsView {
    pub names: Seq<Seq<char>>,
    pub attrs: AttrSeq,
}

/// The second name of a pair whose first name ends at `n`: a comma and a
/// name.
pub open spec fn second_name(s: Seq<char>, n: int) -> Option<(int, int)> {
    let c = skip_blank(s, n);
    if 0 <= c < s.len() && s[c] == ',' {
        let b = skip_blank(s, c + 1);
        match name_end(s, b) {
            Some(m) => Some((b, m)),
            None => None,
        }
    } else {
        None
    }
}

/// The arguments of shape `shape` at `p`, and where they end.
pub open spec fn args_at(s: Seq<char>, p: int, shape: Shape) -> Option<(ArgsView, int)> {
    match shape {
        Shape::AttrsOnly => match attrs_after(s, p) {
            Some((attrs, e)) => Some((ArgsView { names: Seq::empty(), attrs }, e)),
            None => None,
        },
        Shape::Names => {
            let (names, e) = name_items(s, p, Seq::empty());
            if names.len() > 0 {
                Some((ArgsView { names, attrs: Seq::empty() }, e))
            } else {
                None
            }
        },
        _ => match name_end(s, p) {
            None => None,
            Some(n) => {
                let first = s.subrange(p, n);
                match shape {
                    Shape::Name => Some((ArgsView { names: seq![first], attrs: Seq::empty() }, n)),
                    Shape::NameAttrs => match attrs_after(s, n) {
                        Some((attrs, e)) => Some((ArgsView { names: seq![first], attrs }, e)),
                        None => None,
                    },
                    _ => match second_name(s, n) {
                        None => None,
                        Some((b, m)) => {
                            let second = s.subrange(b, m);
                            match shape {
                                Shape::Pair => Some(
                                    (
                                        ArgsView {
                                            names: seq![first, second],
                                            attrs: Seq::empty(),
                                        },
                                        m,
                                    ),
                                ),
                                _ => match attrs_after(s, m) {
                                    Some((attrs, e)) => Some(
                                        (ArgsView { names: seq![first, second], attrs }, e),
                                    ),
                                    None => None,
                                },
                            }
                        },
                    },
                }
            },
        },
    }
}

/// The name at position `k`, or the empty name when there are fewer.
pub open spec fn nth_name(names: Seq<Seq<char>>, k: int) -> Seq<char> {
    if 0 <= k < names.len() {
        names[k]
    } else {
        Seq::empty()
    }
}

/// The command that the keyword `kw` makes of its arguments.
pub open spec fn command_of(kw: Seq<char>, args: ArgsView) -> DslCommandView {
    let names = args.names;
    let attrs = args.attrs;
    if kw == "node"@ {
        DslCommandView::Node(NodeCmdView::Add { id: nth_name(names, 0), attrs })
    } else if kw == "update_node"@ {
        DslCommandView::Node(NodeCmdView::Update { id: nth_name(names, 0), attrs })
    } else if kw == "delete_node"@ {
        DslCommandView::Node(NodeCmdView::Delete { id: nth_name(names, 0) })
    } else if kw == "edge"@ {
        DslCommandView::Edge(EdgeCmdView::Add { from: nth_name(names, 0), to: nth_name(names, 1), attrs })
    } else if kw == "update_edge"@ {
        DslCommandView::Edge(EdgeCmdView::Update { from: nth_name(names, 0), to: nth_name(names, 1), attrs })
    } else if kw == "delete_edge"@ {
        DslCommandView::Edge(EdgeCmdView::Delete { from: nth_name(names, 0), to: nth_name(names, 1) })
    } else if kw == "subgraph"@ {
        DslCommandView::Cluster(ClusterCmdView::Add { id: nth_name(names, 0), attrs })
    } else if kw == "update_subgraph"@ {
        DslCommandView::Cluster(ClusterCmdView::Update { id: nth_name(names, 0), attrs })
    } else if kw == "delete_subgraph"@ {
        DslCommandView::Cluster(ClusterCmdView::Delete { id: nth_name(names, 0) })
    } else if kw == "move"@ {
        DslCommandView::Cluster(ClusterCmdView::Move { node: nth_name(names, 0), cluster: nth_name(names, 1) })
    } else if kw == "graph"@ {
        DslCommandView::Global(GlobalCmdView::Graph(attrs))
    } else if kw == "node_defaults"@ {
        DslCommandView::Global(GlobalCmdView::NodeDefaults(attrs))
    } else if kw == "edge_defaults"@ {
        DslCommandView::Global(GlobalCmdView::EdgeDefaults(attrs))
    } else if kw == "rank_same"@ {
        DslCommandView::Rank(RankCmdView::Same(names))
    } else if kw == "rank_min"@ {
        DslCommandView::Rank(RankCmdView::Min(names))
    } else {
        DslCommandView::Rank(RankCmdView::Max(names))
    }
}

/// The command at `i` and where it ends: a keyword, a colon and the
/// keyword's arguments.
pub open spec fn command_at(s: Seq<char>, i: int) -> Option<(DslCommandView, int)> {
    let j = word_end(s, i);
    let c = skip_blank(s, j);
    if i < j && 0 <= c < s.len() && s[c] == ':' {
        let kw = s.subrange(i, j);
        match shape_of(kw) {
            None => None,
            Some(shape) => match args_at(s, skip_blank(s, c + 1), shape) {
                None => None,
                Some((args, e)) => Some((command_of(kw, args), e)),
            },
        }
    } else {
        None
    }
}

/// The start of the next line, given that nothing but blank space and a
/// comment stands between `i` and the end of the line; `None` otherwise.
pub open spec fn rest_of_line(s: Seq<char>, i: int) -> Option<int> {
    let a = skip_blank(s, i);
    if a < 0 || a >= s.len() {
        Some(s.len() as int)
    } else if s[a] == '\n' {
        Some(a + 1)
    } else if s[a] == '#' || at2(s, a, '/', '/') {
        let e = line_end(s, a);
        if e < s.len() {
            Some(e + 1)
        } else {
            Some(s.len() as int)
        }
    } else {
        None
    }
}

/// `r` with the commands `p` put before its own.
pub open spec fn after_commands(p: Seq<DslCommandView>, r: Option<Seq<DslCommandView>>) -> Option<
    Seq<DslCommandView>,
> {
    match r {
        Some(cs) => Some(p + cs),
        None => None,
    }
}

/// What the line at `i` holds, a command or nothing, and where the next
/// line starts; `None` when the line is neither empty nor a command.
pub open spec fn line_at(s: Seq<char>, i: int) -> Option<(Option<DslCommandView>, int)> {
    let a = skip_blank(s, i);
    match rest_of_line(s, a) {
        Some(next) => Some((None, next)),
        None => match command_at(s, a) {
            None => None,
            Some((cmd, e)) => match rest_of_line(s, e) {
                None => None,
                Some(next) => Some((Some(cmd), next)),
            },
        },
    }
}

/// The commands of the lines from `i` on, in order, or `None` when a line
/// is neither empty nor a command.
pub open spec fn commands_from(s: Seq<char>, i: int) -> Option<Seq<DslCommandView>>
    decreases s.len() - i,
{
    if i < 0 || i >= s.len() {
        Some(Seq::empty())
    } else {
        match line_at(s, i) {
            None => None,
            Some((cmd, next)) => {
                let head = match cmd {
                    Some(c) => seq![c],
                    None => Seq::empty(),
                };
                if i < next <= s.len() {
                    after_commands(head, commands_from(s, next))
                } else {
                    Some(head)
                }
            },
        }
    }
}

/// The commands that the text `s` holds, or `None` when `s` is not of the
/// language.
pub open spec fn parse_commands(s: Seq<char>) -> Option<Seq<DslCommandView>> {
    if s.len() >= usize::MAX {
        None
    } else {
        commands_from(s, 0)
    }
}

/// Executable form of [`is_word`].
pub fn word_char(c: char) -> (r: bool)
    ensures
        r == is_word(c),
{
    alnum_char(c) || c == '_' || c == '.' || c == '-' || (c as u32) >= 128
}

/// Computes [`skip_blank`].
pub fn scan_blank(s: &Vec<char>, i: usize) -> (r: usize)
    requires
        i <= s.len(),
    ensures
        r == skip_blank(s@, i as int),
        i <= r <= s.len(),
{
    let mut j: usize = i;
    while j < s.len() && (s[j] == ' ' || s[j] == '\t' || s[j] == '\r')
        invariant
            i <= j <= s.len(),
            skip_blank(s@, i as int) == skip_blank(s@, j as int),
        decreases s.len() - j,
    {
        j = j + 1;
    }
    j
}

/// Computes [`word_end`].
pub fn scan_word_end(s: &Vec<char>, i: usize) -> (r: usize)
    requires
        i <= s.len(),
    ensures
        r == word_end(s@, i as int),
        i <= r <= s.len(),
{
    let mut j: usize = i;
    while j < s.len() && word_char(s[j])
        invariant
            i <= j <= s.len(),
            word_end(s@, i as int) == word_end(s@, j as int),
        decreases s.len() - j,
    {
        j = j + 1;
    }
    j
}

/// Computes [`name_end`].
pub fn scan_name_end(s: &Vec<char>, i: usize) -> (r: Option<usize>)
    requires
        i <= s.len(),
    ensures
        match r {
            Some(j) => name_end(s@, i as int) == Some(j as int) && i < j <= s.len() && (s@[i as int]
                == '"' ==> i + 2 <= j),
            None => name_end(s@, i as int) is None,
        },
{
    if i < s.len() && s[i] == '"' {
        proof {
            lemma_quoted_end(s@, i as int + 1);
        }
        scan_quoted_end(s, i + 1)
    } else {
        let j = scan_word_end(s, i);
        if j > i {
            Some(j)
        } else {
            None
        }
    }
}

/// Computes [`value_end`].
pub fn scan_value_end(s: &Vec<char>, i: usize) -> (r: Option<usize>)
    requires
        i <= s.len(),
    ensures
        match r {
            Some(j) => value_end(s@, i as int) == Some(j as int) && i < j <= s.len() && (s@[i as int]
                == '"' ==> i + 2 <= j),
            None => value_end(s@, i as int) is None,
        },
{
    if i < s.len() && s[i] == '<' {
        scan_html_end(s, i + 1)
    } else {
        scan_name_end(s, i)
    }
}

/// Computes [`attr_at`].
pub fn scan_attr(s: &Vec<char>, i: usize) -> (r: Option<(String, String, usize)>)
    requires
        i <= s.len(),
    ensures
        match r {
            Some((k, v, j)) => attr_at(s@, i as int) == Some(((k@, v@), j as int)) && i < j
                <= s.len(),
            None => attr_at(s@, i as int) is None,
        },
{
    if i < s.len() && s[i] == '"' {
        proof {
            lemma_quoted_end(s@, i as int + 1);
        }
        match scan_quoted_end(s, i + 1) {
            Some(j) => Some((String::from_str("label"), unescaped(s, i + 1, j - 1), j)),
            None => None,
        }
    } else {
        let j = scan_word_end(s, i);
        let e = scan_blank(s, j);
        if j > i && e < s.len() && (s[e] == '=' || s[e] == ':') {
            let v = scan_blank(s, e + 1);
            match scan_value_end(s, v) {
                Some(w) => Some((string_of(s, i, j), value_of_token(s, v, w), w)),
                None => None,
            }
        } else {
            None
        }
    }
}

/// Computes [`past_comma`].
pub fn scan_past_comma(s: &Vec<char>, i: usize) -> (r: usize)
    requires
        i <= s.len(),
    ensures
        r == past_comma(s@, i as int),
        i <= r <= s.len(),
{
    let a = scan_blank(s, i);
    if a < s.len() && s[a] == ',' {
        scan_blank(s, a + 1)
    } else {
        a
    }
}

/// Computes [`attr_items`].
pub fn scan_attr_items(s: &Vec<char>, i: usize, acc: &mut Attrs) -> (r: usize)
    requires
        i <= s.len(),
    ensures
        (final(acc)@, r as int) == attr_items(s@, i as int, old(acc)@),
        i <= r <= s.len(),
{
    let mut pos: usize = i;
    loop
        invariant
            i <= pos <= s.len(),
            attr_items(s@, i as int, old(acc)@) == attr_items(s@, pos as int, acc@),
        ensures
            i <= pos <= s.len(),
            attr_items(s@, i as int, old(acc)@) == (acc@, pos as int),
        decreases s.len() - pos,
    {
        let b = scan_past_comma(s, pos);
        match scan_attr(s, b) {
            Some((k, v, j)) => {
                acc.insert(k, v);
                pos = j;
            },
            None => {
                break ;
            },
        }
    }
    pos
}

/// Computes [`attrs_after`].
pub fn scan_attrs_after(s: &Vec<char>, i: usize) -> (r: Option<(Attrs, usize)>)
    requires
        i <= s.len(),
    ensures
        match r {
            Some((attrs, e)) => attrs_after(s@, i as int) == Some((attrs@, e as int)) && i <= e
                <= s.len(),
            None => attrs_after(s@, i as int) is None,
        },
{
    let b = scan_past_comma(s, i);
    let mut attrs = Attrs::new();
    if b < s.len() && s[b] == '{' {
        let j = scan_attr_items(s, b + 1, &mut attrs);
        let c = scan_blank(s, j);
        if c < s.len() && s[c] == '}' {
            Some((attrs, c + 1))
        } else {
            None
        }
    } else {
        let e = scan_attr_items(s, i, &mut attrs);
        Some((attrs, e))
    }
}

/// Computes [`name_items`] from an empty list.
pub fn scan_name_items(s: &Vec<char>, i: usize) -> (r: (Vec<String>, usize))
    requires
        i <= s.len(),
    ensures
        (texts(r.0@), r.1 as int) == name_items(s@, i as int, Seq::empty()),
        i <= r.1 <= s.len(),
{
    let mut names: Vec<String> = Vec::new();
    let mut pos: usize = i;
    assert(texts(names@) =~= Seq::<Seq<char>>::empty());
    loop
        invariant
            i <= pos <= s.len(),
            name_items(s@, i as int, Seq::empty()) == name_items(s@, pos as int, texts(names@)),
        ensures
            i <= pos <= s.len(),
            name_items(s@, i as int, Seq::empty()) == (texts(names@), pos as int),
        decreases s.len() - pos,
    {
        let b = scan_past_comma(s, pos);
        match scan_name_end(s, b) {
            Some(j) => {
                let name = string_of(s, b, j);
                assert(texts(names@.push(name)) =~= texts(names@).push(name@));
                names.push(name);
                pos = j;
            },
            None => {
                break ;
            },
        }
    }
    (names, pos)
}

/// Computes [`shape_of`].
pub fn keyword_shape(kw: &str) -> (r: Option<Shape>)
    ensures
        r == shape_of(kw@),
{
    if str_eq(kw, "node") || str_eq(kw, "update_node") || str_eq(kw, "subgraph") || str_eq(
        kw,
        "update_subgraph",
    ) {
        Some(Shape::NameAttrs)
    } else if str_eq(kw, "delete_node") || str_eq(kw, "delete_subgraph") {
        Some(Shape::Name)
    } else if str_eq(kw, "edge") || str_eq(kw, "update_edge") {
        Some(Shape::PairAttrs)
    } else if str_eq(kw, "delete_edge") || str_eq(kw, "move") {
        Some(Shape::Pair)
    } else if str_eq(kw, "graph") || str_eq(kw, "node_defaults") || str_eq(kw, "edge_defaults") {
        Some(Shape::AttrsOnly)
    } else if str_eq(kw, "rank_same") || str_eq(kw, "rank_min") || str_eq(kw, "rank_max") {
        Some(Shape::Names)
    } else {
        None
    }
}

/// Computes [`second_name`].
pub fn scan_second_name(s: &Vec<char>, n: usize) -> (r: Option<(usize, usize)>)
    requires
        n <= s.len(),
    ensures
        match r {
            Some((b, m)) => second_name(s@, n as int) == Some((b as int, m as int)) && n <= b < m
                <= s.len(),
            None => second_name(s@, n as int) is None,
        },
{
    let c = scan_blank(s, n);
    if c < s.len() && s[c] == ',' {
        let b = scan_blank(s, c + 1);
        match scan_name_end(s, b) {
            Some(m) => Some((b, m)),
            None => None,
        }
    } else {
        None
    }
}

/// Computes [`args_at`].
pub fn scan_args(s: &Vec<char>, p: usize, shape: Shape) -> (r: Option<(Vec<String>, Attrs, usize)>)
    requires
        p <= s.len(),
    ensures
        match r {
            Some((names, attrs, e)) => args_at(s@, p as int, shape) == Some(
                (ArgsView { names: texts(names@), attrs: attrs@ }, e as int),
            ) && p <= e <= s.len(),
            None => args_at(s@, p as int, shape) is None,
        },
{
    match shape {
        Shape::AttrsOnly => match scan_attrs_after(s, p) {
            Some((attrs, e)) => {
                let names: Vec<String> = Vec::new();
                assert(texts(names@) =~= Seq::<Seq<char>>::empty());
                Some((names, attrs, e))
            },
            None => None,
        },
        Shape::Names => {
            let (names, e) = scan_name_items(s, p);
            if names.len() > 0 {
                Some((names, Attrs::new(), e))
            } else {
                None
            }
        },
        _ => match scan_name_end(s, p) {
            None => None,
            Some(n) => {
                let mut names: Vec<String> = Vec::new();
                names.push(string_of(s, p, n));
                assert(texts(names@) =~= seq![s@.subrange(p as int, n as int)]);
                match shape {
                    Shape::Name => Some((names, Attrs::new(), n)),
                    Shape::NameAttrs => match scan_attrs_after(s, n) {
                        Some((attrs, e)) => Some((names, attrs, e)),
                        None => None,
                    },
                    _ => match scan_second_name(s, n) {
                        None => None,
                        Some((b, m)) => {
                            names.push(string_of(s, b, m));
                            assert(texts(names@) =~= seq![
                                s@.subrange(p as int, n as int),
                                s@.subrange(b as int, m as int),
                            ]);
                            match shape {
                                Shape::Pair => Some((names, Attrs::new(), m)),
                                _ => match scan_attrs_after(s, m) {
                                    Some((attrs, e)) => Some((names, attrs, e)),
                                    None => None,
                                },
                            }
                        },
                    },
                }
            },
        },
    }
}

/// The name at position `k`, or the empty name when there are fewer.
fn name_at(names: &Vec<String>, k: usize) -> (r: String)
    ensures
        r@ == nth_name(texts(names@), k as int),
{
    if k < names.len() {
        names[k].clone()
    } else {
        String::new()
    }
}

/// Computes [`command_of`].
pub fn build_command(kw: &str, names: Vec<String>, attrs: Attrs) -> (r: DslCommand)
    ensures
        r@ == command_of(kw@, ArgsView { names: texts(names@), attrs: attrs@ }),
{
    if str_eq(kw, "node") {
        DslCommand::Node(NodeCmd::Add { id: name_at(&names, 0), attrs })
    } else if str_eq(kw, "update_node") {
        DslCommand::Node(NodeCmd::Update { id: name_at(&names, 0), attrs })
    } else if str_eq(kw, "delete_node") {
        DslCommand::Node(NodeCmd::Delete { id: name_at(&names, 0) })
    } else if str_eq(kw, "edge") {
        DslCommand::Edge(EdgeCmd::Add { from: name_at(&names, 0), to: name_at(&names, 1), attrs })
    } else if str_eq(kw, "update_edge") {
        DslCommand::Edge(
            EdgeCmd::Update { from: name_at(&names, 0), to: name_at(&names, 1), attrs },
        )
    } else if str_eq(kw, "delete_edge") {
        DslCommand::Edge(EdgeCmd::Delete { from: name_at(&names, 0), to: name_at(&names, 1) })
    } else if str_eq(kw, "subgraph") {
        DslCommand::Cluster(ClusterCmd::Add { id: name_at(&names, 0), attrs })
    } else if str_eq(kw, "update_subgraph") {
        DslCommand::Cluster(ClusterCmd::Update { id: name_at(&names, 0), attrs })
    } else if str_eq(kw, "delete_subgraph") {
        DslCommand::Cluster(ClusterCmd::Delete { id: name_at(&names, 0) })
    } else if str_eq(kw, "move") {
        DslCommand::Cluster(
            ClusterCmd::Move { node: name_at(&names, 0), cluster: name_at(&names, 1) },
        )
    } else if str_eq(kw, "graph") {
        DslCommand::Global(GlobalCmd::Graph(attrs))
    } else if str_eq(kw, "node_defaults") {
        DslCommand::Global(GlobalCmd::NodeDefaults(attrs))
    } else if str_eq(kw, "edge_defaults") {
        DslCommand::Global(GlobalCmd::EdgeDefaults(attrs))
    } else if str_eq(kw, "rank_same") {
        DslCommand::Rank(RankCmd::Same(names))
    } else if str_eq(kw, "rank_min") {
        DslCommand::Rank(RankCmd::Min(names))
    } else {
        DslCommand::Rank(RankCmd::Max(names))
    }
}

/// Computes [`command_at`].
pub fn scan_command(s: &Vec<char>, i: usize) -> (r: Result<(DslCommand, usize), Error>)
    requires
        i <= s.len(),
        s.len() < usize::MAX,
    ensures
        match r {
            Ok((cmd, e)) => command_at(s@, i as int) == Some((cmd@, e as int)) && i < e <= s.len(),
            Err(x) => command_at(s@, i as int) is None && reports_failure(s@, x@),
        },
{
    let j = scan_word_end(s, i);
    let c = scan_blank(s, j);
    if i < j && c < s.len() && s[c] == ':' {
        let kw = string_of(s, i, j);
        match keyword_shape(kw.as_str()) {
            None => Err(failure(s, i, "a command keyword")),
            Some(shape) => {
                let p = scan_blank(s, c + 1);
                match scan_args(s, p, shape) {
                    None => Err(failure(s, p, "the arguments of the command")),
                    Some((names, attrs, e)) => Ok((build_command(kw.as_str(), names, attrs), e)),
                }
            },
        }
    } else {
        Err(failure(s, i, "a keyword and ':'"))
    }
}

/// Computes [`rest_of_line`].
pub fn scan_rest_of_line(s: &Vec<char>, i: usize) -> (r: Option<usize>)
    requires
        i <= s.len(),
    ensures
        match r {
            Some(next) => rest_of_line(s@, i as int) == Some(next as int) && i <= next <= s.len()
                && (i < s.len() ==> i < next),
            None => rest_of_line(s@, i as int) is None,
        },
{
    let a = scan_blank(s, i);
    if a >= s.len() {
        Some(s.len())
    } else if s[a] == '\n' {
        Some(a + 1)
    } else if s[a] == '#' || (s[a] == '/' && a + 1 < s.len() && s[a + 1] == '/') {
        let e = scan_line_end(s, a);
        if e < s.len() {
            Some(e + 1)
        } else {
            Some(s.len())
        }
    } else {
        None
    }
}

/// Computes [`line_at`].
pub fn scan_line(s: &Vec<char>, i: usize) -> (r: Result<(Option<DslCommand>, usize), Error>)
    requires
        i < s.len(),
        s.len() < usize::MAX,
    ensures
        match r {
            Ok((cmd, next)) => line_at(s@, i as int) == Some(
                (
                    match cmd {
                        Some(c) => Some(c@),
                        None => None,
                    },
                    next as int,
                ),
            ) && i < next <= s.len(),
            Err(x) => line_at(s@, i as int) is None && reports_failure(s@, x@),
        },
{
    let a = scan_blank(s, i);
    match scan_rest_of_line(s, a) {
        Some(next) => Ok((None, next)),
        None => match scan_command(s, a) {
            Err(x) => Err(x),
            Ok((cmd, e)) => match scan_rest_of_line(s, e) {
                None => Err(failure(s, e, "the end of the line")),
                Some(next) => Ok((Some(cmd), next)),
            },
        },
    }
}

/// A parser over one text of the edit language.
pub struct DslParser {
    src: Vec<char>,
}

impl DslParser {
    /// The text that the parser reads.
    pub closed spec fn text(&self) -> Seq<char> {
        self.src@
    }

    /// A parser for `text`.
    pub fn new(text: &str) -> (r: DslParser)
        ensures
            r.text() == text@,
    {
        DslParser { src: chars_of(text) }
    }

    /// Reads the text as a list of commands, one to a line. A text that
    /// is not of the language gives no command at all, but a parse error.
    pub fn commands(&self) -> (r: Result<Vec<DslCommand>, Error>)
        ensures
            match r {
                Ok(v) => parse_commands(self.text()) == Some(command_views(v@)),
                Err(e) => parse_commands(self.text()) is None && reports_failure(self.text(), e@),
            },
    {
        let s = &self.src;
        if s.len() >= usize::MAX {
            return Err(Error::ParseError(String::from_str("the text is too long")));
        }
        let mut out: Vec<DslCommand> = Vec::new();
        let mut pos: usize = 0;
        assert(after_commands(command_views(out@), commands_from(s@, 0)) =~= commands_from(s@, 0))
            by {}
        while pos < s.len()
            invariant
                pos <= s.len(),
                s.len() < usize::MAX,
                s@ == self.text(),
                commands_from(s@, 0) == after_commands(
                    command_views(out@),
                    commands_from(s@, pos as int),
                ),
            decreases s.len() - pos,
        {
            match scan_line(s, pos) {
                Err(x) => {
                    return Err(x);
                },
                Ok((cmd, next)) => {
                    let ghost before = command_views(out@);
                    let ghost head = match line_at(s@, pos as int) {
                        Some((Some(c), _)) => seq![c],
                        _ => Seq::<DslCommandView>::empty(),
                    };
                    match cmd {
                        Some(c) => {
                            out.push(c);
                        },
                        None => {},
                    }
                    proof {
                        if next >= s.len() {
                            assert((before + head) + Seq::<DslCommandView>::empty() =~= before
                                + head);
                        }
                    }
                    pos = next;
                },
            }
        }
        Ok(out)
    }
}

/// Parses a text of the edit language into its commands.
pub fn parse_dsl(input: &str) -> (r: Result<Vec<DslCommand>, Error>)
    ensures
        match r {
            Ok(v) => parse_commands(input@) == Some(command_views(v@)),
            Err(e) => parse_commands(input@) is None && reports_failure(input@, e@),
        },
{
    DslParser::new(input).commands()
}

} // verus!
