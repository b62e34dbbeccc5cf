//! Writing a chunk list back as DOT text.
//!
//! The text is stated as a function of the chunk list; the executable
//! writers compute that function.

use vstd::prelude::*;
use vstd::string::StringExecFns;
use crate::attrs::{lookup, AttrSeq, Attrs};
use crate::chunk::{
    views, Chunk, ChunkView, KIND_ATTR_STMT, KIND_EDGE, KIND_ID_EQ, KIND_NODE, KIND_RANK,
    KIND_SUBGRAPH,
};
use crate::lexer::{alnum_char, escape, is_alnum, push_escaped};
use crate::text::{alphanumeric, chars_of};

verus! {

/// A value that starts with `<` and ends with `>`: an HTML-like label,
/// which is written as it is.
pub open spec fn is_html_like(v: Seq<char>) -> bool {
    v.len() >= 1 && v[0] == '<' && v[v.len() - 1] == '>'
}

/// A character that a bare value may hold: an ASCII letter or digit, or a
/// character outside ASCII that is a letter or a number of some script.
pub open spec fn is_plain(c: char) -> bool {
    if (c as u32) < 128 {
        is_alnum(c)
    } else {
        alphanumeric(c)
    }
}

/// Every character is a letter or a digit.
pub open spec fn all_alnum(v: Seq<char>) -> bool {
    forall|i: int| 0 <= i < v.len() ==> is_plain(#[trigger] v[i])
}

/// A value as it is written in an attribute list: an HTML-like value as it
/// is; an empty value, or one with a character that is no letter or digit,
/// in quotes and escaped; any other value bare.
pub open spec fn format_value(v: Seq<char>) -> Seq<char> {
    if is_html_like(v) {
        v
    } else if v.len() == 0 || !all_alnum(v) {
        seq!['"'] + escape(v) + seq!['"']
    } else {
        v
    }
}

/// One entry as it is written: name, `=`, value.
pub open spec fn format_entry(e: (Seq<char>, Seq<char>)) -> Seq<char> {
    e.0 + seq!['='] + format_value(e.1)
}

/// The entries as they are written in an attribute list, in order, with
/// `, ` between them.
pub open spec fn format_attrs(a: AttrSeq) -> Seq<char>
    decreases a.len(),
{
    if a.len() == 0 {
        Seq::empty()
    } else if a.len() == 1 {
        format_entry(a[0])
    } else {
        format_attrs(a.drop_last()) + seq![',', ' '] + format_entry(a.last())
    }
}

/// The attribute list in brackets with a space before it, or nothing when
/// there is no attribute.
pub open spec fn bracketed(a: AttrSeq) -> Seq<char> {
    if a.len() == 0 {
        Seq::empty()
    } else {
        seq![' ', '['] + format_attrs(a) + seq![']']
    }
}

/// The text of `o`, or `default` when it is absent.
pub open spec fn or_text(o: Option<Seq<char>>, default: Seq<char>) -> Seq<char> {
    match o {
        Some(t) => t,
        None => default,
    }
}

/// The comma-separated names of `s` with every comma replaced by `"; "`:
/// between two quotes this is the list of the names, each in quotes, with
/// `; ` between them.
pub open spec fn requoted(s: Seq<char>) -> Seq<char>
    decreases s.len(),
{
    if s.len() == 0 {
        Seq::empty()
    } else if s.last() == ',' {
        requoted(s.drop_last()) + seq!['"', ';', ' ', '"']
    } else {
        requoted(s.drop_last()).push(s.last())
    }
}

/// The text of a rank group: `{ rank=kind; "n1"; "n2" }`.
pub open spec fn rank_text(c: ChunkView) -> Seq<char> {
    "{ rank="@ + or_text(c.id, "same"@) + seq![';', ' ', '"'] + requoted(
        or_text(lookup(c.attrs, "nodes"@), Seq::empty()),
    ) + seq!['"', ' ', '}']
}

/// The opening line of a subgraph block.
pub open spec fn subgraph_text(c: ChunkView) -> Seq<char> {
    match c.id {
        Some(id) => "subgraph "@ + id + seq![' ', '{'],
        None => "subgraph {"@,
    }
}

/// The text of one chunk, without indentation. An attribute statement
/// keeps its brackets when it has no attribute, so that it is not read
/// back as a node.
pub open spec fn chunk_text(c: ChunkView) -> Seq<char> {
    if c.kind == KIND_NODE@ {
        or_text(c.id, "unknown"@) + bracketed(c.attrs) + seq![';']
    } else if c.kind == KIND_EDGE@ {
        or_text(c.id, "unknown"@) + " -> "@ + or_text(c.extra, "unknown"@) + bracketed(c.attrs)
            + seq![';']
    } else if c.kind == KIND_ATTR_STMT@ {
        or_text(c.id, "graph"@) + seq![' ', '['] + format_attrs(c.attrs) + seq![']', ';']
    } else if c.kind == KIND_ID_EQ@ {
        or_text(c.id, "unknown"@) + " = "@ + or_text(c.extra, "\"\""@) + seq![';']
    } else if c.kind == KIND_SUBGRAPH@ {
        subgraph_text(c)
    } else if c.kind == KIND_RANK@ {
        rank_text(c)
    } else {
        "// Unknown chunk type: "@ + c.kind
    }
}

/// `n` levels of indentation, four spaces each.
pub open spec fn indent(n: nat) -> Seq<char> {
    Seq::new(4 * n, |i: int| ' ')
}

/// One line of output: the chunk's text at `level` levels of indentation.
pub open spec fn chunk_line(c: ChunkView, level: nat) -> Seq<char> {
    indent(level) + chunk_text(c) + seq!['\n']
}

/// The lines of the chunks in order, each at `level + 1` levels of
/// indentation. Subgraph chunks write nothing: a flat listing has no
/// blocks.
pub open spec fn flat_text(chunks: Seq<ChunkView>, level: nat) -> Seq<char>
    decreases chunks.len(),
{
    if chunks.len() == 0 {
        Seq::empty()
    } else {
        flat_text(chunks.drop_last(), level) + if chunks.last().kind == KIND_SUBGRAPH@ {
            Seq::empty()
        } else {
            chunk_line(chunks.last(), level + 1)
        }
    }
}

/// Where `start` goes in a list ordered by start line: after every chunk
/// that starts on that line or before it.
pub open spec fn sorted_slot(sorted: Seq<ChunkView>, start: usize) -> int
    decreases sorted.len(),
{
    if sorted.len() == 0 {
        0
    } else if sorted.last().range.0 > start {
        sorted_slot(sorted.drop_last(), start)
    } else {
        sorted.len() as int
    }
}

/// The chunks ordered by start line; chunks that start on the same line
/// keep their order.
pub open spec fn by_start_line(chunks: Seq<ChunkView>) -> Seq<ChunkView>
    decreases chunks.len(),
{
    if chunks.len() == 0 {
        Seq::empty()
    } else {
        let sorted = by_start_line(chunks.drop_last());
        sorted.insert(sorted_slot(sorted, chunks.last().range.0), chunks.last())
    }
}

/// The closing brace of the block at depth `depth`, on a line of its own.
pub open spec fn close_line(depth: nat) -> Seq<char> {
    indent(depth + 1) + seq!['}', '\n']
}

/// The lines that open the subgraph `c` at depth `depth`: the block's
/// opening line, and a `graph [..]` line for its attributes if it has any.
pub open spec fn open_lines(c: ChunkView, depth: nat) -> Seq<char> {
    indent(depth + 1) + "subgraph "@ + or_text(c.id, Seq::empty()) + seq![' ', '{', '\n'] + if c.attrs.len()
        == 0 {
        Seq::empty()
    } else {
        indent(depth + 2) + "graph ["@ + format_attrs(c.attrs) + seq![']', ';', '\n']
    }
}

/// The text for the chunks from `i` on, inside the open blocks whose end
/// lines are `stack`, innermost last. A block is closed before the first
/// chunk that starts after the block's end line; a subgraph chunk opens a
/// block; the blocks still open at the end are closed, innermost first.
pub open spec fn nested_from(sorted: Seq<ChunkView>, i: int, stack: Seq<usize>) -> Seq<char>
    decreases sorted.len() - i, stack.len(),
{
    if i < 0 || i >= sorted.len() {
        if stack.len() == 0 {
            Seq::empty()
        } else {
            close_line((stack.len() - 1) as nat) + nested_from(sorted, i, stack.drop_last())
        }
    } else if stack.len() > 0 && sorted[i].range.0 > stack.last() {
        close_line((stack.len() - 1) as nat) + nested_from(sorted, i, stack.drop_last())
    } else if sorted[i].kind == KIND_SUBGRAPH@ {
        open_lines(sorted[i], stack.len()) + nested_from(
            sorted,
            i + 1,
            stack.push(sorted[i].range.1),
        )
    } else {
        chunk_line(sorted[i], stack.len() + 1) + nested_from(sorted, i + 1, stack)
    }
}

/// The complete DOT document for the chunks: a `digraph` named `name`, or
/// `G` when no name is given, with the chunks ordered by start line and
/// nested by their ranges.
pub open spec fn document(chunks: Seq<ChunkView>, name: Option<Seq<char>>) -> Seq<char> {
    "digraph "@ + or_text(name, "G"@) + seq![' ', '{', '\n'] + nested_from(
        by_start_line(chunks),
        0,
        Seq::empty(),
    ) + seq!['}', '\n']
}

/// Executable form of [`is_plain`].
pub fn plain_char(c: char) -> (r: bool)
    ensures
        r == is_plain(c),
{
    if (c as u32) < 128 {
        alnum_char(c)
    } else {
        c.is_alphanumeric()
    }
}

/// Whether every character of `v` is a letter or a digit.
pub fn all_alnum_chars(v: &Vec<char>) -> (r: bool)
    ensures
        r == all_alnum(v@),
{
    let mut i: usize = 0;
    while i < v.len()
        invariant
            i <= v.len(),
            forall|k: int| 0 <= k < i ==> is_plain(#[trigger] v@[k]),
        decreases v.len() - i,
    {
        if !plain_char(v[i]) {
            return false;
        }
        i = i + 1;
    }
    true
}

/// Appends a value as an attribute list holds it.
pub fn push_value(out: &mut String, v: &str)
    ensures
        final(out)@ == old(out)@ + format_value(v@),
{
    let chars = chars_of(v);
    let n = chars.len();
    if n >= 1 && chars[0] == '<' && chars[n - 1] == '>' {
        out.append(v);
    } else if n == 0 || !all_alnum_chars(&chars) {
        out.push('"');
        push_escaped(out, v);
        out.push('"');
    } else {
        out.append(v);
    }
}

/// Appends the attribute list of `attrs`, without brackets.
pub fn push_attrs(out: &mut String, attrs: &Attrs)
    ensures
        final(out)@ == old(out)@ + format_attrs(attrs@),
{
    let n = attrs.len();
    let mut i: usize = 0;
    while i < n
        invariant
            i <= n,
            n == attrs@.len(),
            out@ == old(out)@ + format_attrs(attrs@.take(i as int)),
        decreases n - i,
    {
        let ghost before = attrs@.take(i as int);
        let ghost now = attrs@.take(i as int + 1);
        proof {
            assert(now.drop_last() =~= before);
        }
        if i > 0 {
            out.push(',');
            out.push(' ');
        }
        out.append(attrs.key_at(i).as_str());
        out.push('=');
        push_value(out, attrs.value_at(i).as_str());
        i = i + 1;
    }
    assert(attrs@.take(n as int) =~= attrs@);
}

/// Formats an attribute map as the inside of a DOT attribute list.
pub fn format_dot_attributes(attrs: &Attrs) -> (r: String)
    ensures
        r@ == format_attrs(attrs@),
{
    let mut out = String::new();
    push_attrs(&mut out, attrs);
    out
}

/// Appends the bracketed attribute list, or nothing for an empty map.
fn push_bracketed(out: &mut String, attrs: &Attrs)
    ensures
        final(out)@ == old(out)@ + bracketed(attrs@),
{
    if !attrs.is_empty() {
        out.push(' ');
        out.push('[');
        push_attrs(out, attrs);
        out.push(']');
    }
}

/// Appends the text of `o`, or `default` when it is absent.
fn push_or(out: &mut String, o: &Option<String>, default: &str)
    ensures
        final(out)@ == old(out)@ + or_text(crate::chunk::opt_view(*o), default@),
{
    match o {
        Some(t) => out.append(t.as_str()),
        None => out.append(default),
    }
}

/// Appends [`requoted`] of `s`.
fn push_requoted(out: &mut String, s: &str)
    ensures
        final(out)@ == old(out)@ + requoted(s@),
{
    let chars = chars_of(s);
    let mut i: usize = 0;
    while i < chars.len()
        invariant
            i <= chars.len(),
            chars@ == s@,
            out@ == old(out)@ + requoted(chars@.take(i as int)),
        decreases chars.len() - i,
    {
        let ghost now = chars@.take(i as int + 1);
        proof {
            assert(now.drop_last() =~= chars@.take(i as int));
        }
        let c = chars[i];
        if c == ',' {
            out.push('"');
            out.push(';');
            out.push(' ');
            out.push('"');
        } else {
            out.push(c);
        }
        i = i + 1;
    }
    assert(chars@.take(chars.len() as int) =~= chars@);
}

/// Appends the text of one chunk, without indentation.
pub fn push_chunk_text(out: &mut String, c: &Chunk)
    ensures
        final(out)@ == old(out)@ + chunk_text(c@),
{
    if c.is_kind(KIND_NODE) {
        push_or(out, &c.id, "unknown");
        push_bracketed(out, &c.attrs);
        out.push(';');
    } else if c.is_kind(KIND_EDGE) {
        push_or(out, &c.id, "unknown");
        out.append(" -> ");
        push_or(out, &c.extra, "unknown");
        push_bracketed(out, &c.attrs);
        out.push(';');
    } else if c.is_kind(KIND_ATTR_STMT) {
        push_or(out, &c.id, "graph");
        out.push(' ');
        out.push('[');
        push_attrs(out, &c.attrs);
        out.push(']');
        out.push(';');
    } else if c.is_kind(KIND_ID_EQ) {
        push_or(out, &c.id, "unknown");
        out.append(" = ");
        push_or(out, &c.extra, "\"\"");
        out.push(';');
    } else if c.is_kind(KIND_SUBGRAPH) {
        match &c.id {
            Some(id) => {
                out.append("subgraph ");
                out.append(id.as_str());
                out.push(' ');
                out.push('{');
            },
            None => {
                out.append("subgraph {");
            },
        }
    } else if c.is_kind(KIND_RANK) {
        out.append("{ rank=");
        push_or(out, &c.id, "same");
        out.push(';');
        out.push(' ');
        out.push('"');
        match c.attrs.get("nodes") {
            Some(nodes) => {
                push_requoted(out, nodes.as_str());
            },
            None => {},
        }
        out.push('"');
        out.push(' ');
        out.push('}');
    } else {
        out.append("// Unknown chunk type: ");
        out.append(c.kind.as_str());
    }
}

/// Appends `n` levels of indentation.
pub fn push_indent(out: &mut String, n: usize)
    ensures
        final(out)@ == old(out)@ + indent(n as nat),
{
    let mut k: usize = 0;
    while k < n
        invariant
            k <= n,
            out@ == old(out)@ + indent(k as nat),
        decreases n - k,
    {
        out.push(' ');
        out.push(' ');
        out.push(' ');
        out.push(' ');
        k = k + 1;
    }
}

/// Appends the chunk's line at `level + 1` levels of indentation.
fn push_chunk_line(out: &mut String, c: &Chunk, level: usize)
    ensures
        final(out)@ == old(out)@ + chunk_line(c@, (level + 1) as nat),
{
    push_indent(out, level);
    push_indent(out, 1);
    push_chunk_text(out, c);
    out.push('\n');
}

impl Chunk {
    /// Renders the chunk as one line of DOT, indented by one level.
    pub fn to_dot(&self) -> (r: String)
        ensures
            r@ == indent(1) + chunk_text(self@),
    {
        let mut out = String::new();
        push_indent(&mut out, 1);
        push_chunk_text(&mut out, self);
        out
    }
}

/// The lines of the chunks in order, each at `indent_level + 1` levels of
/// indentation; subgraph chunks are left out.
pub fn chunks_to_dot_with_indent(chunks: &[Chunk], indent_level: usize) -> (r: String)
    ensures
        r@ == flat_text(views(chunks@), indent_level as nat),
{
    let mut out = String::new();
    let mut i: usize = 0;
    let ghost all = views(chunks@);
    while i < chunks.len()
        invariant
            i <= chunks.len(),
            all == views(chunks@),
            out@ == flat_text(all.take(i as int), indent_level as nat),
        decreases chunks.len() - i,
    {
        let ghost now = all.take(i as int + 1);
        proof {
            assert(now.drop_last() =~= all.take(i as int));
        }
        if !chunks[i].is_kind(KIND_SUBGRAPH) {
            push_chunk_line(&mut out, &chunks[i], indent_level);
        }
        i = i + 1;
    }
    assert(all.take(chunks.len() as int) =~= all);
    out
}

/// The lines of the chunks in order, one level deep, without blocks.
pub fn chunks_to_dot(chunks: &[Chunk]) -> (r: String)
    ensures
        r@ == flat_text(views(chunks@), 0),
{
    chunks_to_dot_with_indent(chunks, 0)
}

/// Copies the chunks into a list ordered by start line; chunks that start
/// on the same line keep their order.
pub fn sort_by_start_line(chunks: &[Chunk]) -> (r: Vec<Chunk>)
    ensures
        views(r@) == by_start_line(views(chunks@)),
{
    let mut sorted: Vec<Chunk> = Vec::new();
    let mut i: usize = 0;
    let ghost all = views(chunks@);
    while i < chunks.len()
        invariant
            i <= chunks.len(),
            all == views(chunks@),
            views(sorted@) == by_start_line(all.take(i as int)),
        decreases chunks.len() - i,
    {
        let ghost now = all.take(i as int + 1);
        proof {
            assert(now.drop_last() =~= all.take(i as int));
        }
        let start = chunks[i].range.0;
        let mut pos: usize = sorted.len();
        let ghost whole = views(sorted@);
        assert(whole.take(pos as int) =~= whole);
        while pos > 0 && sorted[pos - 1].range.0 > start
            invariant
                pos <= sorted.len(),
                whole == views(sorted@),
                sorted_slot(whole, start) == sorted_slot(whole.take(pos as int), start),
            decreases pos,
        {
            proof {
                assert(whole.take(pos as int).drop_last() =~= whole.take(pos as int - 1));
            }
            pos = pos - 1;
        }
        proof {
            assert(sorted_slot(whole, start) == pos);
        }
        let c = chunks[i].clone();
        proof {
            crate::commands::lemma_views_insert(sorted@, pos as int, c);
        }
        sorted.insert(pos, c);
        i = i + 1;
    }
    assert(all.take(chunks.len() as int) =~= all);
    sorted
}

/// The model of an optional string slice.
pub open spec fn name_view(o: Option<&str>) -> Option<Seq<char>> {
    match o {
        Some(t) => Some(t@),
        None => None,
    }
}

/// Appends the closing brace of the block at depth `depth`.
fn push_close(out: &mut String, depth: usize)
    ensures
        final(out)@ == old(out)@ + close_line(depth as nat),
{
    push_indent(out, depth);
    push_indent(out, 1);
    out.push('}');
    out.push('\n');
}

/// Appends the lines that open the subgraph `c` at depth `depth`.
fn push_open(out: &mut String, c: &Chunk, depth: usize)
    ensures
        final(out)@ == old(out)@ + open_lines(c@, depth as nat),
{
    push_indent(out, depth);
    push_indent(out, 1);
    out.append("subgraph ");
    match &c.id {
        Some(id) => out.append(id.as_str()),
        None => {},
    }
    out.push(' ');
    out.push('{');
    out.push('\n');
    let ghost mid = out@;
    assert(mid =~= old(out)@ + indent((depth + 1) as nat) + "subgraph "@ + or_text(
        c@.id,
        Seq::empty(),
    ) + seq![' ', '{', '\n']);
    if !c.attrs.is_empty() {
        push_indent(out, depth);
        push_indent(out, 1);
        push_indent(out, 1);
        out.append("graph [");
        push_attrs(out, &c.attrs);
        out.push(']');
        out.push(';');
        out.push('\n');
    }
}

/// Writes the chunks as a complete DOT document, rebuilding the nesting of
/// subgraphs from the line ranges.
///
/// The chunks are ordered by start line. A stack holds the end lines of
/// the subgraphs that are open; before a chunk is written, every open
/// subgraph that ended before the chunk's first line is closed.
pub fn chunks_to_dot_nested(chunks: &[Chunk], graph_name: Option<&str>) -> (r: String)
    ensures
        r@ == document(views(chunks@), name_view(graph_name)),
{
    let mut out = String::from_str("digraph ");
    match graph_name {
        Some(n) => out.append(n),
        None => out.append("G"),
    }
    out.push(' ');
    out.push('{');
    out.push('\n');
    let sorted = sort_by_start_line(chunks);
    let ghost head = out@;
    let ghost all = views(sorted@);
    let mut stack: Vec<usize> = Vec::new();
    let mut i: usize = 0;
    loop
        invariant
            i <= sorted.len(),
            all == views(sorted@),
            stack.len() <= i,
            head + nested_from(all, 0, Seq::empty()) == out@ + nested_from(all, i as int, stack@),
        ensures
            out@ == head + nested_from(all, 0, Seq::empty()),
        decreases sorted.len() - i, stack.len(),
    {
        if i >= sorted.len() {
            if stack.len() == 0 {
                break ;
            }
            let _ = stack.pop();
            push_close(&mut out, stack.len());
            assert(out@ + nested_from(all, i as int, stack@) =~= head + nested_from(
                all,
                0,
                Seq::empty(),
            ));
        } else if stack.len() > 0 && sorted[i].range.0 > stack[stack.len() - 1] {
            let _ = stack.pop();
            push_close(&mut out, stack.len());
            assert(out@ + nested_from(all, i as int, stack@) =~= head + nested_from(
                all,
                0,
                Seq::empty(),
            ));
        } else if sorted[i].is_kind(KIND_SUBGRAPH) {
            push_open(&mut out, &sorted[i], stack.len());
            stack.push(sorted[i].range.1);
            i = i + 1;
            assert(out@ + nested_from(all, i as int, stack@) =~= head + nested_from(
                all,
                0,
                Seq::empty(),
            ));
        } else {
            push_chunk_line(&mut out, &sorted[i], stack.len());
            i = i + 1;
            assert(out@ + nested_from(all, i as int, stack@) =~= head + nested_from(
                all,
                0,
                Seq::empty(),
            ));
        }
    }
    out.push('}');
    out.push('\n');
    out
}

/// Writes the chunks as a complete DOT document.
pub fn chunks_to_complete_dot(chunks: &[Chunk], graph_name: Option<&str>) -> (r: String)
    ensures
        r@ == document(views(chunks@), name_view(graph_name)),
{
    chunks_to_dot_nested(chunks, graph_name)
}

} // verus!
